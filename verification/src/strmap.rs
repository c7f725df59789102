//! Maps with string keys, kept sorted by the bytes of the keys.
use vstd::prelude::*;
use vstd::utf8::*;

verus! {

/// The lexicographic order of byte strings.
pub open spec fn bytes_before(a: Seq<u8>, b: Seq<u8>) -> bool
    decreases a.len(),
{
    if b.len() == 0 {
        false
    } else if a.len() == 0 {
        true
    } else {
        a[0] < b[0] || (a[0] == b[0] && bytes_before(a.drop_first(), b.drop_first()))
    }
}

/// The order of strings: lexicographic by the bytes of their UTF-8 encoding.
pub open spec fn text_before(a: Seq<char>, b: Seq<char>) -> bool {
    bytes_before(encode_utf8(a), encode_utf8(b))
}

proof fn lemma_bytes_before_trans(a: Seq<u8>, b: Seq<u8>, c: Seq<u8>)
    requires
        bytes_before(a, b),
        bytes_before(b, c),
    ensures
        bytes_before(a, c),
    decreases a.len(),
{
    if a.len() > 0 && a[0] == b[0] && b[0] == c[0] {
        lemma_bytes_before_trans(a.drop_first(), b.drop_first(), c.drop_first());
    }
}

proof fn lemma_bytes_before_irrefl(a: Seq<u8>)
    ensures
        !bytes_before(a, a),
    decreases a.len(),
{
    if a.len() > 0 {
        lemma_bytes_before_irrefl(a.drop_first());
    }
}

proof fn lemma_bytes_before_total(a: Seq<u8>, b: Seq<u8>)
    ensures
        bytes_before(a, b) || bytes_before(b, a) || a == b,
    decreases a.len(),
{
    if a.len() > 0 && b.len() > 0 {
        if a[0] == b[0] {
            lemma_bytes_before_total(a.drop_first(), b.drop_first());
            if a.drop_first() == b.drop_first() {
                assert(a =~= seq![a[0]] + a.drop_first());
                assert(b =~= seq![b[0]] + b.drop_first());
            }
        }
    } else {
        assert(a.len() == 0 && b.len() == 0 ==> a =~= b);
    }
}

/// The order of strings is transitive.
pub proof fn text_before_transitive(a: Seq<char>, b: Seq<char>, c: Seq<char>)
    requires
        text_before(a, b),
        text_before(b, c),
    ensures
        text_before(a, c),
{
    lemma_bytes_before_trans(encode_utf8(a), encode_utf8(b), encode_utf8(c));
}

/// No string stands before itself.
pub proof fn text_before_irreflexive(a: Seq<char>)
    ensures
        !text_before(a, a),
{
    lemma_bytes_before_irrefl(encode_utf8(a));
}

/// Of two different strings one stands before the other.
pub proof fn text_before_total(a: Seq<char>, b: Seq<char>)
    ensures
        text_before(a, b) || text_before(b, a) || a == b,
{
    lemma_bytes_before_total(encode_utf8(a), encode_utf8(b));
    encode_utf8_decode_utf8(a);
    encode_utf8_decode_utf8(b);
}

/// Where one string stands relative to another.
#[derive(Clone, Copy, PartialEq, Eq, Structural)]
pub enum Place {
    Before,
    Same,
    After,
}

/// Compares two strings by their bytes.
pub fn place_of(a: &str, b: &str) -> (p: Place)
    ensures
        match p {
            Place::Before => text_before(a@, b@) && a@ != b@,
            Place::Same => a@ == b@,
            Place::After => text_before(b@, a@) && a@ != b@,
        },
{
    let x: &[u8] = a.as_bytes();
    let y: &[u8] = b.as_bytes();
    proof {
        text_before_irreflexive(a@);
        text_before_irreflexive(b@);
        encode_utf8_decode_utf8(a@);
        encode_utf8_decode_utf8(b@);
        assert(x@.skip(0) =~= x@);
        assert(y@.skip(0) =~= y@);
    }
    let mut i: usize = 0;
    while i < x.len() && i < y.len()
        invariant
            i <= x@.len(),
            i <= y@.len(),
            x@ == encode_utf8(a@),
            y@ == encode_utf8(b@),
            x@.take(i as int) == y@.take(i as int),
            bytes_before(x@, y@) == bytes_before(x@.skip(i as int), y@.skip(i as int)),
            bytes_before(y@, x@) == bytes_before(y@.skip(i as int), x@.skip(i as int)),
            !text_before(a@, a@),
            !text_before(b@, b@),
        decreases x@.len() - i,
    {
        let ghost xs = x@.skip(i as int);
        let ghost ys = y@.skip(i as int);
        assert(xs[0] == x@[i as int] && ys[0] == y@[i as int]);
        assert(xs.drop_first() =~= x@.skip(i + 1));
        assert(ys.drop_first() =~= y@.skip(i + 1));
        if x[i] < y[i] {
            return Place::Before;
        }
        if y[i] < x[i] {
            return Place::After;
        }
        assert(x@.take(i + 1) =~= x@.take(i as int).push(x@[i as int]));
        assert(y@.take(i + 1) =~= y@.take(i as int).push(y@[i as int]));
        i = i + 1;
    }
    if i < y.len() {
        Place::Before
    } else if i < x.len() {
        Place::After
    } else {
        assert(x@.take(i as int) =~= x@);
        assert(y@.take(i as int) =~= y@);
        Place::Same
    }
}

/// The map that a list of entries stands for; of two entries with one key the later counts.
pub open spec fn entries_map<V: View>(s: Seq<(String, V)>) -> Map<Seq<char>, V::V>
    decreases s.len(),
{
    if s.len() == 0 {
        Map::empty()
    } else {
        entries_map(s.drop_last()).insert(s.last().0@, s.last().1@)
    }
}

/// Whether the keys of `s` stand in strictly increasing order.
pub open spec fn keys_ascend<V>(s: Seq<(String, V)>) -> bool {
    forall|i: int, j: int| 0 <= i < j < s.len() ==> text_before(s[i].0@, s[j].0@)
}

/// Whether the strings of `s` stand in strictly increasing order.
pub open spec fn texts_ascend(s: Seq<Seq<char>>) -> bool {
    forall|i: int, j: int| 0 <= i < j < s.len() ==> text_before(s[i], s[j])
}

/// A map from strings to values, kept sorted by key.
#[derive(Debug, PartialEq, Eq)]
pub struct StrMap<V> {
    entries: Vec<(String, V)>,
}

impl<V> StrMap<V> {
    #[verifier::type_invariant]
    spec fn sorted(self) -> bool {
        keys_ascend(self.entries@)
    }
}

impl<V> StrMap<V> {
    /// The keys, in ascending order.
    pub closed spec fn order(&self) -> Seq<Seq<char>> {
        self.entries@.map_values(|e: (String, V)| e.0@)
    }
}

impl<V: View> View for StrMap<V> {
    type V = Map<Seq<char>, V::V>;

    closed spec fn view(&self) -> Map<Seq<char>, V::V> {
        entries_map(self.entries@)
    }
}

proof fn lemma_entry<V: View>(s: Seq<(String, V)>, i: int)
    requires
        keys_ascend(s),
        0 <= i < s.len(),
    ensures
        entries_map(s).contains_key(s[i].0@),
        entries_map(s)[s[i].0@] == s[i].1@,
    decreases s.len(),
{
    let t = s.drop_last();
    assert(keys_ascend(t)) by {
        assert forall|i: int, j: int| 0 <= i < j < t.len() implies text_before(t[i].0@, t[j].0@) by {
            assert(t[i] == s[i] && t[j] == s[j]);
        }
    }
    if i < t.len() {
        lemma_entry(t, i);
        assert(t[i] == s[i]);
        assert(text_before(s[i].0@, s.last().0@));
        text_before_irreflexive(s[i].0@);
    }
}

proof fn lemma_no_entry<V: View>(s: Seq<(String, V)>, k: Seq<char>)
    requires
        forall|i: int| 0 <= i < s.len() ==> (#[trigger] s[i]).0@ != k,
    ensures
        !entries_map(s).contains_key(k),
    decreases s.len(),
{
    if s.len() > 0 {
        let t = s.drop_last();
        assert forall|i: int| 0 <= i < t.len() implies (#[trigger] t[i]).0@ != k by {
            assert(t[i] == s[i]);
        }
        lemma_no_entry(t, k);
    }
}

proof fn lemma_has_entry<V: View>(s: Seq<(String, V)>, k: Seq<char>) -> (i: int)
    requires
        entries_map(s).contains_key(k),
    ensures
        0 <= i < s.len(),
        s[i].0@ == k,
{
    if forall|i: int| 0 <= i < s.len() ==> (#[trigger] s[i]).0@ != k {
        lemma_no_entry(s, k);
    }
    choose|i: int| 0 <= i < s.len() && (#[trigger] s[i]).0@ == k
}

proof fn lemma_entries_len<V: View>(s: Seq<(String, V)>)
    requires
        keys_ascend(s),
    ensures
        entries_map(s).dom().finite(),
        entries_map(s).dom().len() == s.len(),
    decreases s.len(),
{
    if s.len() > 0 {
        let t = s.drop_last();
        assert forall|i: int, j: int| 0 <= i < j < t.len() implies text_before(t[i].0@, t[j].0@) by {
            assert(t[i] == s[i] && t[j] == s[j]);
        }
        lemma_entries_len(t);
        assert forall|i: int| 0 <= i < t.len() implies (#[trigger] t[i]).0@ != s.last().0@ by {
            assert(t[i] == s[i]);
            text_before_irreflexive(s[i].0@);
        }
        lemma_no_entry(t, s.last().0@);
    }
}

proof fn lemma_drop_last_ascends<V>(s: Seq<(String, V)>)
    requires
        keys_ascend(s),
        s.len() > 0,
    ensures
        keys_ascend(s.drop_last()),
{
    let t = s.drop_last();
    assert forall|i: int, j: int| 0 <= i < j < t.len() implies text_before(t[i].0@, t[j].0@) by {
        assert(t[i] == s[i] && t[j] == s[j]);
    }
}

proof fn lemma_remove_at<V: View>(s: Seq<(String, V)>, i: int)
    requires
        keys_ascend(s),
        0 <= i < s.len(),
    ensures
        keys_ascend(s.remove(i)),
        entries_map(s.remove(i)) == entries_map(s).remove(s[i].0@),
        forall|j: int| 0 <= j < i ==> text_before((#[trigger] s.remove(i)[j]).0@, s[i].0@),
        forall|j: int|
            i <= j < s.len() - 1 ==> text_before(s[i].0@, (#[trigger] s.remove(i)[j]).0@),
    decreases s.len(),
{
    let k = s[i].0@;
    let r = s.remove(i);
    assert forall|a: int, b: int| 0 <= a < b < r.len() implies text_before(r[a].0@, r[b].0@) by {
        assert(r[a] == s[if a < i { a } else { a + 1 }]);
        assert(r[b] == s[if b < i { b } else { b + 1 }]);
    }
    lemma_drop_last_ascends(s);
    if i == s.len() - 1 {
        assert(r =~= s.drop_last());
        assert forall|j: int| 0 <= j < r.len() implies (#[trigger] r[j]).0@ != k by {
            assert(r[j] == s[j]);
            text_before_irreflexive(k);
        }
        lemma_no_entry(r, k);
        assert(entries_map(s).remove(k) =~= entries_map(r));
    } else {
        lemma_remove_at(s.drop_last(), i);
        assert(r.drop_last() =~= s.drop_last().remove(i));
        assert(r.last() == s.last());
        assert(text_before(k, s.last().0@));
        text_before_irreflexive(k);
        assert(entries_map(s).remove(k) =~= entries_map(r));
    }
}

proof fn lemma_insert_at<V: View>(s: Seq<(String, V)>, i: int, e: (String, V))
    requires
        keys_ascend(s),
        0 <= i <= s.len(),
        forall|j: int| 0 <= j < i ==> text_before((#[trigger] s[j]).0@, e.0@),
        forall|j: int| i <= j < s.len() ==> text_before(e.0@, (#[trigger] s[j]).0@),
    ensures
        keys_ascend(s.insert(i, e)),
        entries_map(s.insert(i, e)) == entries_map(s).insert(e.0@, e.1@),
    decreases s.len(),
{
    let r = s.insert(i, e);
    assert forall|a: int, b: int| 0 <= a < b < r.len() implies text_before(r[a].0@, r[b].0@) by {
        if a != i {
            assert(r[a] == s[if a < i { a } else { a - 1 }]);
        }
        if b != i {
            assert(r[b] == s[if b < i { b } else { b - 1 }]);
        }
    }
    if i == s.len() {
        assert(r.drop_last() =~= s);
    } else {
        let t = s.drop_last();
        lemma_drop_last_ascends(s);
        assert forall|j: int| 0 <= j < i implies text_before((#[trigger] t[j]).0@, e.0@) by {
            assert(t[j] == s[j]);
        }
        assert forall|j: int| i <= j < t.len() implies text_before(
            e.0@,
            (#[trigger] t[j]).0@,
        ) by {
            assert(t[j] == s[j]);
        }
        lemma_insert_at(t, i, e);
        assert(r.drop_last() =~= t.insert(i, e));
        assert(r.last() == s.last());
        assert(text_before(e.0@, s.last().0@));
        text_before_irreflexive(e.0@);
        assert(entries_map(r) =~= entries_map(s).insert(e.0@, e.1@));
    }
}

proof fn lemma_order<V: View>(m: StrMap<V>)
    requires
        keys_ascend(m.entries@),
    ensures
        texts_ascend(m.order()),
        m.order().to_set() == m@.dom(),
{
    let names = m.order();
    assert forall|i: int, j: int| 0 <= i < j < names.len() implies text_before(
        names[i],
        names[j],
    ) by {
        assert(names[i] == m.entries@[i].0@ && names[j] == m.entries@[j].0@);
    }
    assert forall|k: Seq<char>| names.to_set().contains(k) == m@.dom().contains(k) by {
        if names.to_set().contains(k) {
            let j = choose|j: int| 0 <= j < names.len() && names[j] == k;
            lemma_entry(m.entries@, j);
        }
        if m@.dom().contains(k) {
            let j = lemma_has_entry(m.entries@, k);
            assert(names[j] == k);
        }
    }
    assert(names.to_set() =~= m@.dom());
}

impl<V: View> StrMap<V> {
    /// The empty map.
    pub fn new() -> (m: Self)
        ensures
            m@ == Map::<Seq<char>, V::V>::empty(),
    {
        StrMap { entries: Vec::new() }
    }

    /// The place of `key`: its index, or the index at which it would be inserted.
    fn find(&self, key: &str) -> (r: Result<usize, usize>)
        ensures
            match r {
                Ok(i) => i < self.entries@.len() && self.entries@[i as int].0@ == key@
                    && self@.contains_key(key@) && self@[key@] == self.entries@[i as int].1@,
                Err(i) => {
                    &&& i <= self.entries@.len()
                    &&& !self@.contains_key(key@)
                    &&& forall|j: int| 0 <= j < i ==> text_before(
                        (#[trigger] self.entries@[j]).0@,
                        key@,
                    )
                    &&& forall|j: int| i <= j < self.entries@.len() ==> text_before(
                        key@,
                        (#[trigger] self.entries@[j]).0@,
                    )
                },
            },
    {
        proof {
            use_type_invariant(self);
        }
        let mut lo: usize = 0;
        let mut hi: usize = self.entries.len();
        while lo < hi
            invariant
                keys_ascend(self.entries@),
                lo <= hi <= self.entries@.len(),
                forall|j: int| 0 <= j < lo ==> text_before((#[trigger] self.entries@[j]).0@, key@),
                forall|j: int|
                    hi <= j < self.entries@.len() ==> text_before(
                        key@,
                        (#[trigger] self.entries@[j]).0@,
                    ),
            decreases hi - lo,
        {
            let mid: usize = lo + (hi - lo) / 2;
            match place_of(self.entries[mid].0.as_str(), key) {
                Place::Same => {
                    proof {
                        lemma_entry(self.entries@, mid as int);
                    }
                    return Ok(mid);
                },
                Place::Before => {
                    proof {
                        assert forall|j: int| 0 <= j < mid + 1 implies text_before(
                            (#[trigger] self.entries@[j]).0@,
                            key@,
                        ) by {
                            if j < mid {
                                text_before_transitive(
                                    self.entries@[j].0@,
                                    self.entries@[mid as int].0@,
                                    key@,
                                );
                            }
                        }
                    }
                    lo = mid + 1;
                },
                Place::After => {
                    proof {
                        assert forall|j: int| mid <= j < self.entries@.len() implies text_before(
                            key@,
                            (#[trigger] self.entries@[j]).0@,
                        ) by {
                            if mid < j {
                                text_before_transitive(
                                    key@,
                                    self.entries@[mid as int].0@,
                                    self.entries@[j].0@,
                                );
                            }
                        }
                    }
                    hi = mid;
                },
            }
        }
        proof {
            text_before_irreflexive(key@);
            lemma_no_entry(self.entries@, key@);
        }
        Err(lo)
    }

    /// Whether `key` has a value.
    pub fn contains_key(&self, key: &str) -> (b: bool)
        ensures
            b == self@.contains_key(key@),
    {
        self.find(key).is_ok()
    }

    /// The value of `key`.
    pub fn get(&self, key: &str) -> (r: Option<&V>)
        ensures
            match r {
                Some(v) => self@.contains_key(key@) && self@[key@] == v@,
                None => !self@.contains_key(key@),
            },
    {
        match self.find(key) {
            Ok(i) => Some(&self.entries[i].1),
            Err(_) => None,
        }
    }

    /// The number of keys.
    pub fn len(&self) -> (n: usize)
        ensures
            n == self@.dom().len(),
            self@.dom().finite(),
            n == self.order().len(),
            texts_ascend(self.order()),
            self.order().to_set() == self@.dom(),
    {
        proof {
            use_type_invariant(self);
            lemma_entries_len(self.entries@);
            lemma_order(*self);
        }
        self.entries.len()
    }

    /// The key at index `i` of the ascending order, with its value.
    pub fn entry(&self, i: usize) -> (e: (&str, &V))
        requires
            i < self.order().len(),
        ensures
            e.0@ == self.order()[i as int],
            self@.contains_key(e.0@),
            self@[e.0@] == e.1@,
    {
        proof {
            use_type_invariant(self);
            lemma_entry(self.entries@, i as int);
        }
        let (k, v): &(String, V) = &self.entries[i];
        (k.as_str(), v)
    }

    /// Whether there is no key.
    pub fn is_empty(&self) -> (b: bool)
        ensures
            b == (self@ == Map::<Seq<char>, V::V>::empty()),
    {
        proof {
            use_type_invariant(self);
            if self.entries@.len() > 0 {
                lemma_entry(self.entries@, 0);
            }
        }
        self.entries.len() == 0
    }

    /// Gives `key` the value `value`, and returns the value that it had.
    pub fn insert(&mut self, key: String, value: V) -> (r: Option<V>)
        ensures
            final(self)@ == old(self)@.insert(key@, value@),
            match r {
                Some(v) => old(self)@.contains_key(key@) && old(self)@[key@] == v@,
                None => !old(self)@.contains_key(key@),
            },
    {
        proof {
            use_type_invariant(&*self);
        }
        let found: Result<usize, usize> = self.find(key.as_str());
        let ghost before = self.entries@;
        let mut entries: Vec<(String, V)> = Vec::new();
        std::mem::swap(&mut entries, &mut self.entries);
        let (at, r): (usize, Option<V>) = match found {
            Ok(i) => {
                let (_, v): (String, V) = entries.remove(i);
                proof {
                    lemma_remove_at(before, i as int);
                }
                (i, Some(v))
            },
            Err(i) => (i, None),
        };
        let ghost rest = entries@;
        let ghost k = key@;
        let ghost v = value@;
        entries.insert(at, (key, value));
        proof {
            assert(rest.insert(at as int, (key, value)) == entries@);
            lemma_insert_at(rest, at as int, (key, value));
            assert(entries_map(before).remove(k).insert(k, v) =~= entries_map(before).insert(k, v));
            if found is Err {
                assert(entries_map(before).remove(k) =~= entries_map(before));
            }
        }
        self.entries = entries;
        r
    }

    /// Takes `key` out of the map, and returns the value that it had.
    pub fn remove(&mut self, key: &str) -> (r: Option<V>)
        ensures
            final(self)@ == old(self)@.remove(key@),
            match r {
                Some(v) => old(self)@.contains_key(key@) && old(self)@[key@] == v@,
                None => !old(self)@.contains_key(key@),
            },
    {
        proof {
            use_type_invariant(&*self);
        }
        match self.find(key) {
            Ok(i) => {
                let ghost before = self.entries@;
                let mut entries: Vec<(String, V)> = Vec::new();
                std::mem::swap(&mut entries, &mut self.entries);
                let (_, v): (String, V) = entries.remove(i);
                proof {
                    lemma_remove_at(before, i as int);
                }
                self.entries = entries;
                Some(v)
            },
            Err(_) => {
                assert(self@.remove(key@) =~= self@);
                None
            },
        }
    }

    /// The keys, in ascending order.
    pub fn keys(&self) -> (ks: Vec<String>)
        ensures
            texts_ascend(ks@.map_values(|k: String| k@)),
            ks@.map_values(|k: String| k@).to_set() == self@.dom(),
    {
        proof {
            use_type_invariant(self);
        }
        let mut ks: Vec<String> = Vec::new();
        let mut i: usize = 0;
        while i < self.entries.len()
            invariant
                i <= self.entries@.len(),
                ks@.len() == i,
                forall|j: int| 0 <= j < i ==> (#[trigger] ks@[j])@ == self.entries@[j].0@,
            decreases self.entries@.len() - i,
        {
            ks.push(self.entries[i].0.clone());
            i = i + 1;
        }
        proof {
            lemma_order(*self);
            assert(ks@.map_values(|k: String| k@) =~= self.order());
        }
        ks
    }
}

/// A list that gives each key of a map once, in ascending order, with its value, stands for the map.
pub proof fn ordered_entries_are_the_map<V: View>(
    s: Seq<(String, V)>,
    order: Seq<Seq<char>>,
    m: Map<Seq<char>, V::V>,
)
    requires
        texts_ascend(order),
        order.to_set() == m.dom(),
        s.len() == order.len(),
        forall|i: int|
            0 <= i < s.len() ==> (#[trigger] s[i]).0@ == order[i] && s[i].1@ == m[order[i]],
    ensures
        entries_map(s) == m,
{
    assert(keys_ascend(s)) by {
        assert forall|i: int, j: int| 0 <= i < j < s.len() implies text_before(
            s[i].0@,
            s[j].0@,
        ) by {
            assert(s[i].0@ == order[i] && s[j].0@ == order[j]);
        }
    }
    assert forall|k: Seq<char>| entries_map(s).contains_key(k) == m.contains_key(k) by {
        if entries_map(s).contains_key(k) {
            let i = lemma_has_entry(s, k);
            assert(order.contains(order[i]));
            assert(order.to_set().contains(k));
        }
        if m.contains_key(k) {
            assert(order.to_set().contains(k));
            let i = choose|i: int| 0 <= i < order.len() && order[i] == k;
            assert(s[i].0@ == k);
            lemma_entry(s, i);
        }
    }
    assert forall|k: Seq<char>| entries_map(s).contains_key(k) implies entries_map(s)[k]
        == m[k] by {
        let i = lemma_has_entry(s, k);
        lemma_entry(s, i);
    }
    assert(entries_map(s) =~= m);
}

impl Clone for StrMap<String> {
    fn clone(&self) -> (m: Self)
        ensures
            m@ == self@,
    {
        let mut entries: Vec<(String, String)> = Vec::new();
        let mut i: usize = 0;
        while i < self.entries.len()
            invariant
                i <= self.entries@.len(),
                entries@ == self.entries@.take(i as int),
            decreases self.entries@.len() - i,
        {
            entries.push((self.entries[i].0.clone(), self.entries[i].1.clone()));
            assert(self.entries@.take(i + 1) =~= self.entries@.take(i as int).push(
                self.entries@[i as int],
            ));
            i = i + 1;
        }
        proof {
            use_type_invariant(self);
            assert(self.entries@.take(i as int) =~= self.entries@);
        }
        StrMap { entries }
    }
}

/// Strings are ordered as in a dictionary, by bytes: of two byte strings the one stands before the other
/// that is a proper prefix of it, or has the smaller byte at the first place where they differ.
pub proof fn strings_are_ordered_like_a_dictionary(a: Seq<u8>, b: Seq<u8>, i: int)
    requires
        0 <= i <= a.len(),
        i <= b.len(),
        forall|j: int| 0 <= j < i ==> a[j] == b[j],
        i < a.len() && i < b.len() ==> a[i] != b[i],
    ensures
        i == a.len() && i < b.len() ==> bytes_before(a, b),
        i == b.len() ==> !bytes_before(a, b),
        i < a.len() && i < b.len() ==> (bytes_before(a, b) <==> a[i] < b[i]),
    decreases i,
{
    if i > 0 {
        let (x, y) = (a.drop_first(), b.drop_first());
        assert forall|j: int| 0 <= j < i - 1 implies x[j] == y[j] by {
            assert(a[j + 1] == b[j + 1]);
        }
        assert(a[0] == b[0]);
        strings_are_ordered_like_a_dictionary(x, y, i - 1);
    }
}

/// A list of entries stands for the map in which each of their keys has the value of the last entry
/// with that key, and no other key has a value.
pub proof fn last_entry_counts<V: View>(s: Seq<(String, V)>, k: Seq<char>)
    ensures
        entries_map(s).contains_key(k) <==> exists|i: int|
            0 <= i < s.len() && (#[trigger] s[i]).0@ == k,
        forall|i: int|
            0 <= i < s.len() && (#[trigger] s[i]).0@ == k && (forall|j: int|
                i < j < s.len() ==> (#[trigger] s[j]).0@ != k) ==> entries_map(s)[k] == s[i].1@,
    decreases s.len(),
{
    if s.len() > 0 {
        let t = s.drop_last();
        last_entry_counts(t, k);
        if entries_map(s).contains_key(k) {
            if s.last().0@ == k {
                assert(s[s.len() - 1].0@ == k);
            } else {
                let i = choose|i: int| 0 <= i < t.len() && (#[trigger] t[i]).0@ == k;
                assert(s[i].0@ == k);
            }
        }
        if exists|i: int| 0 <= i < s.len() && (#[trigger] s[i]).0@ == k {
            let i = choose|i: int| 0 <= i < s.len() && (#[trigger] s[i]).0@ == k;
            if i < t.len() {
                assert(t[i].0@ == k);
            }
        }
        assert forall|i: int|
            0 <= i < s.len() && (#[trigger] s[i]).0@ == k && (forall|j: int|
                i < j < s.len() ==> (#[trigger] s[j]).0@ != k) implies entries_map(s)[k]
            == s[i].1@ by {
            if i < t.len() {
                assert(s[s.len() - 1].0@ != k);
                assert(t[i].0@ == k);
                assert forall|j: int| i < j < t.len() implies (#[trigger] t[j]).0@ != k by {
                    assert(s[j].0@ != k);
                }
            }
        }
    }
}

} // verus!
