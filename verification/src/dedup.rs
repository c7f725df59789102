//! Bounded, time-evicting de-duplication for the request paths.
//!
//! A cache maps a key (a request's reply token, or an idempotency key that the publisher supplied)
//! to what the key resolved to. Once its capacity is reached it evicts its oldest entry, and only
//! that, so that recent keys are never forgotten while the cache stays bounded. Entries older than
//! the time to live count as absent.
use std::collections::{HashMap, VecDeque};
use vstd::hash_map::StringHashMap;
use vstd::prelude::*;

use crate::message::Cursor;

verus! {

broadcast use vstd::std_specs::hash::group_hash_axioms;

/// What a cache stands for: its keys, oldest first, and the value of each.
#[verifier::ext_equal]
#[verifier::reject_recursive_types(K)]
#[verifier::reject_recursive_types(V)]
pub struct FifoView<K, V> {
    /// The keys, in the order of their insertion.
    pub order: Seq<K>,
    /// The value of each key.
    pub entries: Map<K, V>,
    /// How many keys the cache may hold.
    pub capacity: nat,
    /// For how many seconds an entry lives; 0 for ever.
    pub ttl_secs: u64,
}

/// The elements of `s` that are not `k`, in order.
pub open spec fn without<K>(s: Seq<K>, k: K) -> Seq<K>
    decreases s.len(),
{
    if s.len() == 0 {
        s
    } else if s.last() == k {
        without(s.drop_last(), k)
    } else {
        without(s.drop_last(), k).push(s.last())
    }
}

/// Whether an entry made at `at` is too old at `now`.
pub open spec fn expired(ttl_secs: u64, at: u64, now: u64) -> bool {
    ttl_secs != 0 && now - at > ttl_secs
}

impl<K, V> FifoView<K, V> {
    /// Whether the order lists each key once and no more keys than the cache may hold.
    pub open spec fn wf(self) -> bool {
        &&& self.order.no_duplicates()
        &&& self.order.to_set() == self.entries.dom()
        &&& self.order.len() <= self.capacity
        &&& self.capacity >= 1
    }

    /// An empty cache. It may hold at least one key.
    pub open spec fn empty(capacity: nat, ttl_secs: u64) -> FifoView<K, V> {
        FifoView {
            order: Seq::empty(),
            entries: Map::empty(),
            capacity: if capacity < 1 {
                1
            } else {
                capacity
            },
            ttl_secs,
        }
    }

    /// The cache without the key `k`.
    pub open spec fn removed(self, k: K) -> FifoView<K, V> {
        FifoView { order: without(self.order, k), entries: self.entries.remove(k), ..self }
    }

    /// The cache with room for one more key: without its oldest key, where it is full.
    pub open spec fn with_room(self) -> FifoView<K, V> {
        if self.order.len() >= self.capacity {
            FifoView {
                order: self.order.skip(1),
                entries: self.entries.remove(self.order[0]),
                ..self
            }
        } else {
            self
        }
    }

    /// The cache with the value of `k` set. A key that is there keeps its place in the order; a new
    /// one becomes the youngest.
    pub open spec fn inserted(self, k: K, v: V) -> FifoView<K, V> {
        if self.entries.contains_key(k) {
            FifoView { entries: self.entries.insert(k, v), ..self }
        } else {
            let room = self.with_room();
            FifoView { order: room.order.push(k), entries: room.entries.insert(k, v), ..room }
        }
    }
}

proof fn lemma_without<K>(s: Seq<K>, k: K)
    requires
        s.no_duplicates(),
    ensures
        without(s, k).no_duplicates(),
        forall|x: K| #[trigger] without(s, k).contains(x) <==> s.contains(x) && x != k,
        without(s, k).len() <= s.len(),
    decreases s.len(),
{
    if s.len() > 0 {
        let t = s.drop_last();
        let w = without(s, k);
        assert(t.no_duplicates()) by {
            assert forall|i: int, j: int| 0 <= i < t.len() && 0 <= j < t.len() && i != j implies t[i]
                != t[j] by {
                assert(s[i] != s[j]);
            }
        }
        lemma_without(t, k);
        let u = without(t, k);
        assert(!t.contains(s.last())) by {
            if t.contains(s.last()) {
                let j = choose|j: int| 0 <= j < t.len() && t[j] == s.last();
                assert(s[j] == s[s.len() - 1]);
            }
        }
        assert forall|x: K| #[trigger] s.contains(x) == (t.contains(x) || x == s.last()) by {
            if s.contains(x) {
                let j = choose|j: int| 0 <= j < s.len() && s[j] == x;
                if j < t.len() {
                    assert(t[j] == x);
                }
            }
            if t.contains(x) {
                let j = choose|j: int| 0 <= j < t.len() && t[j] == x;
                assert(s[j] == x);
            }
            if x == s.last() {
                assert(s[s.len() - 1] == x);
            }
        }
        if s.last() != k {
            assert(w == u.push(s.last()));
            assert forall|x: K| #[trigger] w.contains(x) == (u.contains(x) || x == s.last()) by {
                if u.contains(x) {
                    let j = choose|j: int| 0 <= j < u.len() && u[j] == x;
                    assert(w[j] == x);
                }
                if x == s.last() {
                    assert(w[u.len() as int] == x);
                }
                if w.contains(x) {
                    let j = choose|j: int| 0 <= j < w.len() && w[j] == x;
                    if j < u.len() {
                        assert(u[j] == x);
                    }
                }
            }
            assert forall|i: int, j: int| 0 <= i < w.len() && 0 <= j < w.len() && i != j implies w[i]
                != w[j] by {
                if i < u.len() {
                    assert(u.contains(u[i]));
                }
                if j < u.len() {
                    assert(u.contains(u[j]));
                }
            }
        }
    }
}

/// A cache without one of its keys is a cache.
pub proof fn removal_keeps_wf<K, V>(c: FifoView<K, V>, k: K)
    requires
        c.wf(),
    ensures
        c.removed(k).wf(),
{
    lemma_without(c.order, k);
    let r = c.removed(k);
    assert forall|x: K| #[trigger] r.order.to_set().contains(x) == r.entries.dom().contains(x) by {
        assert(r.order.contains(x) == (c.order.contains(x) && x != k));
        assert(c.order.to_set().contains(x) == c.entries.dom().contains(x));
    }
    assert(r.order.to_set() =~= r.entries.dom());
}

proof fn lemma_room<K, V>(c: FifoView<K, V>)
    requires
        c.wf(),
    ensures
        c.with_room().order.no_duplicates(),
        c.with_room().order.to_set() == c.with_room().entries.dom(),
        c.with_room().order.len() < c.capacity,
{
    let r = c.with_room();
    if c.order.len() >= c.capacity {
        assert forall|x: K| #[trigger]
            r.order.to_set().contains(x) == r.entries.dom().contains(x) by {
            assert(c.order.to_set().contains(x) == c.entries.dom().contains(x));
            if r.order.contains(x) {
                let j = choose|j: int| 0 <= j < r.order.len() && r.order[j] == x;
                assert(c.order[j + 1] == x);
                assert(c.order.contains(x));
            }
            if r.entries.dom().contains(x) {
                let j = choose|j: int| 0 <= j < c.order.len() && c.order[j] == x;
                assert(r.order[j - 1] == x);
            }
        }
        assert(r.order.to_set() =~= r.entries.dom());
    }
}

/// A cache with a value set is a cache: it stays within its capacity.
pub proof fn insertion_keeps_wf<K, V>(c: FifoView<K, V>, k: K, v: V)
    requires
        c.wf(),
    ensures
        c.inserted(k, v).wf(),
{
    let r = c.inserted(k, v);
    if c.entries.contains_key(k) {
        assert(r.entries.dom() =~= c.entries.dom());
    } else {
        lemma_room(c);
        let room = c.with_room();
        assert(!room.order.contains(k)) by {
            assert(room.order.to_set().contains(k) == room.entries.dom().contains(k));
        }
        assert forall|x: K| #[trigger]
            r.order.to_set().contains(x) == r.entries.dom().contains(x) by {
            assert(room.order.to_set().contains(x) == room.entries.dom().contains(x));
            if room.order.contains(x) {
                let j = choose|j: int| 0 <= j < room.order.len() && room.order[j] == x;
                assert(r.order[j] == x);
            }
            if x == k {
                assert(r.order[room.order.len() as int] == x);
            }
            if r.order.contains(x) {
                let j = choose|j: int| 0 <= j < r.order.len() && r.order[j] == x;
                if j < room.order.len() {
                    assert(room.order[j] == x);
                }
            }
        }
        assert(r.order.to_set() =~= r.entries.dom());
        assert(r.order.no_duplicates()) by {
            assert forall|i: int, j: int|
                0 <= i < r.order.len() && 0 <= j < r.order.len() && i != j implies r.order[i]
                != r.order[j] by {
                if i < room.order.len() {
                    assert(room.order.contains(room.order[i]));
                }
                if j < room.order.len() {
                    assert(room.order.contains(room.order[j]));
                }
            }
        }
    }
}

proof fn lemma_without_absent<K>(s: Seq<K>, k: K)
    requires
        !s.contains(k),
    ensures
        without(s, k) == s,
    decreases s.len(),
{
    if s.len() > 0 {
        let t = s.drop_last();
        assert(s[s.len() - 1] == s.last());
        assert(!t.contains(k)) by {
            if t.contains(k) {
                let j = choose|j: int| 0 <= j < t.len() && t[j] == k;
                assert(s[j] == k);
            }
        }
        lemma_without_absent(t, k);
        assert(t.push(s.last()) =~= s);
    }
}

proof fn lemma_without_at<K>(s: Seq<K>, i: int)
    requires
        s.no_duplicates(),
        0 <= i < s.len(),
    ensures
        without(s, s[i]) == s.remove(i),
    decreases s.len(),
{
    let t = s.drop_last();
    assert(t.no_duplicates()) by {
        assert forall|a: int, b: int| 0 <= a < t.len() && 0 <= b < t.len() && a != b implies t[a]
            != t[b] by {
            assert(s[a] != s[b]);
        }
    }
    if i == s.len() - 1 {
        assert(!t.contains(s[i])) by {
            if t.contains(s[i]) {
                let j = choose|j: int| 0 <= j < t.len() && t[j] == s[i];
                assert(s[j] == s[i]);
            }
        }
        lemma_without_absent(t, s[i]);
        assert(s.remove(i) =~= t);
    } else {
        lemma_without_at(t, i);
        assert(s[s.len() - 1] != s[i]);
        assert(s.remove(i) =~= t.remove(i).push(s.last()));
    }
}

/// What a key resolved to.
#[derive(Debug, Clone, Copy, PartialEq, Eq, Structural)]
pub enum Seen {
    /// The key produced this cursor: a retry returns it again.
    Cursor(Cursor),
    /// The key was handled and produced no cursor.
    Handled,
}

/// The texts that `s` stands for.
pub open spec fn texts(s: Seq<String>) -> Seq<Seq<char>> {
    s.map_values(|k: String| k@)
}

/// The keys of a cache, oldest first, and what each resolved to, and when.
struct Outcomes {
    order: VecDeque<String>,
    map: StringHashMap<(Seen, u64)>,
}

/// A bounded first-in-first-out cache with per-entry expiry.
pub struct IdempotencyCache {
    outcomes: Outcomes,
    capacity: usize,
    ttl_secs: u64,
}

impl View for IdempotencyCache {
    type V = FifoView<Seq<char>, (Seen, u64)>;

    closed spec fn view(&self) -> FifoView<Seq<char>, (Seen, u64)> {
        FifoView {
            order: texts(self.outcomes.order@),
            entries: self.outcomes.map@,
            capacity: self.capacity as nat,
            ttl_secs: self.ttl_secs,
        }
    }
}

impl IdempotencyCache {
    #[verifier::type_invariant]
    spec fn well_formed(self) -> bool {
        self@.wf()
    }

    /// A cache of at most `capacity` keys whose entries expire after `ttl_secs`, where that is not 0.
    pub fn new(capacity: usize, ttl_secs: u64) -> (c: Self)
        ensures
            c@ == FifoView::<Seq<char>, (Seen, u64)>::empty(capacity as nat, ttl_secs),
    {
        let order: VecDeque<String> = VecDeque::new();
        let map: StringHashMap<(Seen, u64)> = StringHashMap::new();
        let capacity: usize = if capacity < 1 {
            1
        } else {
            capacity
        };
        proof {
            assert(texts(order@) =~= Seq::empty());
            assert(texts(order@).to_set() =~= Set::empty());
            assert(map@.dom() =~= Set::empty());
        }
        IdempotencyCache { outcomes: Outcomes { order, map }, capacity, ttl_secs }
    }

    /// Takes the contents out, and leaves the cache empty.
    fn take(&mut self) -> (o: Outcomes)
        ensures
            final(self)@ == (FifoView {
                order: Seq::empty(),
                entries: Map::empty(),
                ..old(self)@
            }),
            texts(o.order@) == old(self)@.order,
            o.map@ == old(self)@.entries,
            old(self)@.wf(),
            old(self)@.capacity <= usize::MAX,
    {
        proof {
            use_type_invariant(&*self);
        }
        let order: VecDeque<String> = VecDeque::new();
        let map: StringHashMap<(Seen, u64)> = StringHashMap::new();
        proof {
            assert(texts(order@) =~= Seq::empty());
            assert(texts(order@).to_set() =~= Set::empty());
            assert(map@.dom() =~= Set::empty());
        }
        let mut o: Outcomes = Outcomes { order, map };
        std::mem::swap(&mut o, &mut self.outcomes);
        o
    }

    /// Looks up a key. An entry that has expired counts as absent, and is dropped.
    pub fn get(&mut self, key: &str, now: u64) -> (r: Option<Seen>)
        ensures
            ({
                let c = old(self)@;
                if !c.entries.contains_key(key@) {
                    r is None && final(self)@ == c
                } else if expired(c.ttl_secs, c.entries[key@].1, now) {
                    r is None && final(self)@ == c.removed(key@)
                } else {
                    r == Some(c.entries[key@].0) && final(self)@ == c
                }
            }),
    {
        let (seen, at): (Seen, u64) = match self.outcomes.map.get(key) {
            Some(entry) => *entry,
            None => {
                return None;
            },
        };
        if self.ttl_secs != 0 && now.saturating_sub(at) > self.ttl_secs {
            let ghost c = self@;
            let mut o: Outcomes = self.take();
            o.map.remove(key);
            let wanted: String = key.to_owned();
            let mut i: usize = 0;
            while i < o.order.len() && o.order[i] != wanted
                invariant
                    wanted@ == key@,
                    i <= o.order@.len(),
                    texts(o.order@) == c.order,
                    forall|j: int| 0 <= j < i ==> c.order[j] != key@,
                decreases o.order@.len() - i,
            {
                i = i + 1;
            }
            proof {
                assert(c.order.to_set().contains(key@));
                let j = choose|j: int| 0 <= j < c.order.len() && c.order[j] == key@;
                assert(i < o.order@.len() && c.order[i as int] == key@);
                lemma_without_at(c.order, i as int);
                assert(texts(o.order@.remove(i as int)) =~= c.order.remove(i as int));
                removal_keeps_wf(c, key@);
            }
            o.order.remove(i);
            self.outcomes = o;
            None
        } else {
            Some(seen)
        }
    }

    /// Records that `key` resolved to `seen` at time `now`, and evicts the oldest entry where the
    /// cache is full. A key that is there is updated in place.
    pub fn insert(&mut self, key: String, seen: Seen, now: u64)
        ensures
            final(self)@ == old(self)@.inserted(key@, (seen, now)),
    {
        let ghost c = self@;
        let capacity: usize = self.capacity;
        let mut o: Outcomes = self.take();
        proof {
            insertion_keeps_wf(c, key@, (seen, now));
        }
        if !o.map.contains_key(key.as_str()) {
            if o.order.len() >= capacity {
                if let Some(oldest) = o.order.pop_front() {
                    o.map.remove(oldest.as_str());
                    assert(oldest@ == c.order[0]);
                }
                assert(texts(o.order@) =~= c.order.skip(1));
            }
            let ghost room = o.order@;
            o.order.push_back(key.clone());
            assert(texts(o.order@) =~= texts(room).push(key@));
        }
        o.map.insert(key, (seen, now));
        self.outcomes = o;
    }

    /// Number of entries.
    pub fn len(&self) -> (n: usize)
        ensures
            n == self@.entries.len(),
    {
        self.outcomes.map.len()
    }

    /// Whether there is no entry.
    pub fn is_empty(&self) -> (b: bool)
        ensures
            b == (self@.entries == Map::<Seq<char>, (Seen, u64)>::empty()),
    {
        proof {
            use_type_invariant(self);
            if self@.order.len() == 0 {
                assert(self@.entries =~= Map::empty()) by {
                    assert forall|k: Seq<char>| !self@.entries.contains_key(k) by {
                        assert(self@.order.to_set().contains(k) == self@.entries.dom().contains(k));
                    }
                }
            } else {
                assert(self@.order.to_set().contains(self@.order[0]));
            }
        }
        self.outcomes.order.len() == 0
    }
}

/// The tokens of a set, oldest first, and when each was recorded.
#[derive(Debug)]
struct Tokens {
    order: VecDeque<u64>,
    map: HashMap<u64, u64>,
}

/// A bounded, time-evicting set of tokens, for requests that carry no idempotency key and must not
/// be handled twice.
#[derive(Debug)]
pub struct TokenSet {
    tokens: Tokens,
    capacity: usize,
    ttl_secs: u64,
}

impl View for TokenSet {
    type V = FifoView<u64, u64>;

    closed spec fn view(&self) -> FifoView<u64, u64> {
        FifoView {
            order: self.tokens.order@,
            entries: self.tokens.map@,
            capacity: self.capacity as nat,
            ttl_secs: self.ttl_secs,
        }
    }
}

impl TokenSet {
    #[verifier::type_invariant]
    spec fn well_formed(self) -> bool {
        self@.wf()
    }

    /// A set of at most `capacity` tokens that expire after `ttl_secs`, where that is not 0.
    pub fn new(capacity: usize, ttl_secs: u64) -> (c: Self)
        ensures
            c@ == FifoView::<u64, u64>::empty(capacity as nat, ttl_secs),
    {
        let order: VecDeque<u64> = VecDeque::new();
        let map: HashMap<u64, u64> = HashMap::new();
        let capacity: usize = if capacity < 1 {
            1
        } else {
            capacity
        };
        proof {
            assert(order@.to_set() =~= Set::empty());
            assert(map@.dom() =~= Set::empty());
        }
        TokenSet { tokens: Tokens { order, map }, capacity, ttl_secs }
    }

    /// Takes the contents out, and leaves the set empty.
    fn take(&mut self) -> (o: Tokens)
        ensures
            final(self)@ == (FifoView {
                order: Seq::empty(),
                entries: Map::empty(),
                ..old(self)@
            }),
            o.order@ == old(self)@.order,
            o.map@ == old(self)@.entries,
            old(self)@.wf(),
    {
        proof {
            use_type_invariant(&*self);
        }
        let order: VecDeque<u64> = VecDeque::new();
        let map: HashMap<u64, u64> = HashMap::new();
        proof {
            assert(order@.to_set() =~= Set::empty());
            assert(map@.dom() =~= Set::empty());
        }
        let mut o: Tokens = Tokens { order, map };
        std::mem::swap(&mut o, &mut self.tokens);
        o
    }

    /// Whether `token` was recorded and has not expired. Where it was not, records it at `now` as
    /// the youngest token, and evicts the oldest one where the set is full.
    pub fn seen(&mut self, token: u64, now: u64) -> (b: bool)
        ensures
            ({
                let c = old(self)@;
                if c.entries.contains_key(token) && !expired(c.ttl_secs, c.entries[token], now) {
                    b && final(self)@ == c
                } else {
                    !b && final(self)@ == c.removed(token).inserted(token, now)
                }
            }),
    {
        let ghost c = self@;
        let recorded: Option<u64> = match self.tokens.map.get(&token) {
            Some(at) => Some(*at),
            None => None,
        };
        if let Some(at) = recorded {
            if self.ttl_secs == 0 || now.saturating_sub(at) <= self.ttl_secs {
                return true;
            }
        }
        let capacity: usize = self.capacity;
        let mut o: Tokens = self.take();
        if recorded.is_some() {
            o.map.remove(&token);
            let mut i: usize = 0;
            while i < o.order.len() && o.order[i] != token
                invariant
                    i <= o.order@.len(),
                    o.order@ == c.order,
                    forall|j: int| 0 <= j < i ==> c.order[j] != token,
                decreases o.order@.len() - i,
            {
                i = i + 1;
            }
            proof {
                assert(c.order.to_set().contains(token));
                let j = choose|j: int| 0 <= j < c.order.len() && c.order[j] == token;
                assert(i < o.order@.len() && c.order[i as int] == token);
                lemma_without_at(c.order, i as int);
            }
            o.order.remove(i);
        } else {
            proof {
                assert(!c.order.contains(token)) by {
                    assert(c.order.to_set().contains(token) == c.entries.dom().contains(token));
                }
                lemma_without_absent(c.order, token);
                assert(c.entries.remove(token) =~= c.entries);
            }
        }
        let ghost r = c.removed(token);
        proof {
            removal_keeps_wf(c, token);
            insertion_keeps_wf(r, token, now);
        }
        if o.order.len() >= capacity {
            if let Some(oldest) = o.order.pop_front() {
                o.map.remove(&oldest);
            }
            assert(o.order@ =~= r.order.skip(1));
        }
        o.order.push_back(token);
        o.map.insert(token, now);
        self.tokens = o;
        false
    }

    /// Forgets `token`.
    pub fn forget(&mut self, token: u64)
        ensures
            final(self)@ == old(self)@.removed(token),
    {
        let ghost c = self@;
        proof {
            use_type_invariant(&*self);
            removal_keeps_wf(c, token);
        }
        if !self.tokens.map.contains_key(&token) {
            proof {
                assert(!c.order.contains(token)) by {
                    assert(c.order.to_set().contains(token) == c.entries.dom().contains(token));
                }
                lemma_without_absent(c.order, token);
                assert(c.entries.remove(token) =~= c.entries);
            }
            return;
        }
        let mut o: Tokens = self.take();
        o.map.remove(&token);
        let mut i: usize = 0;
        while i < o.order.len() && o.order[i] != token
            invariant
                i <= o.order@.len(),
                o.order@ == c.order,
                forall|j: int| 0 <= j < i ==> c.order[j] != token,
            decreases o.order@.len() - i,
        {
            i = i + 1;
        }
        proof {
            assert(c.order.to_set().contains(token));
            let j = choose|j: int| 0 <= j < c.order.len() && c.order[j] == token;
            assert(i < o.order@.len() && c.order[i as int] == token);
            lemma_without_at(c.order, i as int);
        }
        o.order.remove(i);
        self.tokens = o;
    }

    /// Number of tokens.
    pub fn len(&self) -> (n: usize)
        ensures
            n == self@.entries.len(),
    {
        self.tokens.map.len()
    }

    /// Whether there is no token.
    pub fn is_empty(&self) -> (b: bool)
        ensures
            b == (self@.entries == Map::<u64, u64>::empty()),
    {
        proof {
            use_type_invariant(self);
            if self@.order.len() == 0 {
                assert(self@.entries =~= Map::empty()) by {
                    assert forall|k: u64| !self@.entries.contains_key(k) by {
                        assert(self@.order.to_set().contains(k) == self@.entries.dom().contains(k));
                    }
                }
            } else {
                assert(self@.order.to_set().contains(self@.order[0]));
            }
        }
        self.tokens.order.len() == 0
    }
}

/// An insertion forgets nothing but the oldest key, and that only where the cache is full and the
/// key is new; every other key keeps its value.
pub proof fn insertion_evicts_only_the_oldest<K, V>(c: FifoView<K, V>, k: K, v: V, other: K)
    requires
        c.wf(),
        c.entries.contains_key(other),
        other != k,
        !(c.order.len() == c.capacity && !c.entries.contains_key(k) && other == c.order[0]),
    ensures
        c.inserted(k, v).entries.contains_key(other),
        c.inserted(k, v).entries[other] == c.entries[other],
        c.inserted(k, v).entries.contains_key(k),
        c.inserted(k, v).entries[k] == v,
{
}

/// A cache after a list of insertions.
pub open spec fn inserted_all<K, V>(c: FifoView<K, V>, more: Seq<(K, V)>) -> FifoView<K, V>
    decreases more.len(),
{
    if more.len() == 0 {
        c
    } else {
        inserted_all(c, more.drop_last()).inserted(more.last().0, more.last().1)
    }
}

proof fn lemma_value_kept<K, V>(c: FifoView<K, V>, k: K, v: V, more: Seq<(K, V)>)
    requires
        forall|i: int| 0 <= i < more.len() ==> (#[trigger] more[i]).0 != k,
    ensures
        ({
            let d = inserted_all(c.inserted(k, v), more);
            d.entries.contains_key(k) ==> d.entries[k] == v
        }),
    decreases more.len(),
{
    if more.len() > 0 {
        let head = more.drop_last();
        assert forall|i: int| 0 <= i < head.len() implies (#[trigger] head[i]).0 != k by {
            assert(head[i] == more[i]);
        }
        lemma_value_kept(c, k, v, head);
        assert(more[more.len() - 1].0 != k);
    }
}

proof fn lemma_place_kept<K, V>(c: FifoView<K, V>, k: K, v: V, more: Seq<(K, V)>) -> (at: int)
    requires
        c.wf(),
        !c.entries.contains_key(k),
        more.len() < c.capacity,
    ensures
        ({
            let d = inserted_all(c.inserted(k, v), more);
            &&& d.wf()
            &&& d.capacity == c.capacity
            &&& 0 <= at < d.order.len()
            &&& d.order[at] == k
            &&& d.order.len() - 1 - at <= more.len()
        }),
    decreases more.len(),
{
    let first = c.inserted(k, v);
    insertion_keeps_wf(c, k, v);
    if more.len() == 0 {
        first.order.len() - 1
    } else {
        let head = more.drop_last();
        let at = lemma_place_kept(c, k, v, head);
        let d = inserted_all(first, head);
        let (x, y) = more.last();
        insertion_keeps_wf(d, x, y);
        let e = d.inserted(x, y);
        if d.entries.contains_key(x) || d.order.len() < d.capacity {
            assert(e.order[at] == k);
            at
        } else {
            assert(e.order[at - 1] == k);
            at - 1
        }
    }
}

proof fn lemma_ttl_kept<K, V>(c: FifoView<K, V>, more: Seq<(K, V)>)
    ensures
        inserted_all(c, more).ttl_secs == c.ttl_secs,
    decreases more.len(),
{
    if more.len() > 0 {
        lemma_ttl_kept(c, more.drop_last());
    }
}

/// A new key is not forgotten before as many further keys were inserted as the cache may hold, and
/// keeps its value as long as it is not set again.
pub proof fn recent_key_is_kept<K, V>(c: FifoView<K, V>, k: K, v: V, more: Seq<(K, V)>)
    requires
        c.wf(),
        !c.entries.contains_key(k),
        more.len() < c.capacity,
    ensures
        inserted_all(c.inserted(k, v), more).entries.contains_key(k),
        (forall|i: int| 0 <= i < more.len() ==> (#[trigger] more[i]).0 != k) ==> inserted_all(
            c.inserted(k, v),
            more,
        ).entries[k] == v,
        inserted_all(c.inserted(k, v), more).wf(),
        inserted_all(c.inserted(k, v), more).ttl_secs == c.ttl_secs,
{
    let at = lemma_place_kept(c, k, v, more);
    lemma_ttl_kept(c.inserted(k, v), more);
    if forall|i: int| 0 <= i < more.len() ==> (#[trigger] more[i]).0 != k {
        lemma_value_kept(c, k, v, more);
    }
    let d = inserted_all(c.inserted(k, v), more);
    assert(d.order.contains(k));
    assert(d.order.to_set().contains(k));
}

/// Dropping another key leaves a key in the cache, with its value and with no more keys behind it
/// than before.
pub proof fn removal_keeps_place<K, V>(c: FifoView<K, V>, k: K, at: int, x: K) -> (place: int)
    requires
        c.wf(),
        0 <= at < c.order.len(),
        c.order[at] == k,
        x != k,
    ensures
        c.removed(x).wf(),
        0 <= place < c.removed(x).order.len(),
        c.removed(x).order[place] == k,
        c.removed(x).order.len() - place <= c.order.len() - at,
        c.removed(x).entries.contains_key(k),
        c.removed(x).entries[k] == c.entries[k],
{
    removal_keeps_wf(c, x);
    assert(c.order.to_set().contains(k));
    if c.order.contains(x) {
        let p = choose|p: int| 0 <= p < c.order.len() && c.order[p] == x;
        lemma_without_at(c.order, p);
        if p < at {
            at - 1
        } else {
            at
        }
    } else {
        lemma_without_absent(c.order, x);
        at
    }
}

/// Setting another key leaves a key in the cache that is not the oldest of a full one, with its
/// value and with at most one more key behind it than before.
pub proof fn insertion_keeps_place<K, V>(c: FifoView<K, V>, k: K, at: int, x: K, v: V) -> (place:
    int)
    requires
        c.wf(),
        0 <= at < c.order.len(),
        c.order[at] == k,
        x != k,
        c.order.len() - at < c.capacity,
    ensures
        c.inserted(x, v).wf(),
        0 <= place < c.inserted(x, v).order.len(),
        c.inserted(x, v).order[place] == k,
        c.inserted(x, v).order.len() - place <= c.order.len() - at + 1,
        c.inserted(x, v).entries.contains_key(k),
        c.inserted(x, v).entries[k] == c.entries[k],
{
    insertion_keeps_wf(c, x, v);
    assert(c.order.to_set().contains(k));
    if c.entries.contains_key(x) || c.order.len() < c.capacity {
        at
    } else {
        assert(c.order[0] != c.order[at]);
        at - 1
    }
}

/// With a time to live of 0 nothing ever expires.
pub proof fn zero_ttl_never_expires(at: u64, now: u64)
    ensures
        !expired(0, at, now),
{
}

/// An entry expires once it is older than the time to live, and never where that is 0.
pub proof fn entries_expire_after_the_time_to_live(ttl_secs: u64, at: u64, now: u64)
    ensures
        ttl_secs == 0 ==> !expired(ttl_secs, at, now),
        ttl_secs > 0 ==> (expired(ttl_secs, at, now) <==> now > at + ttl_secs),
{
}

/// A new cache is empty, and holds as many keys as asked for, and at least one.
pub proof fn new_cache_is_empty<K, V>(capacity: nat, ttl_secs: u64, k: K)
    ensures
        ({
            let c = FifoView::<K, V>::empty(capacity, ttl_secs);
            &&& c.wf()
            &&& c.order.len() == 0
            &&& !c.entries.contains_key(k)
            &&& c.ttl_secs == ttl_secs
            &&& capacity > 0 ==> c.capacity == capacity
            &&& capacity == 0 ==> c.capacity == 1
        }),
{
    let c = FifoView::<K, V>::empty(capacity, ttl_secs);
    assert(c.order.to_set() =~= c.entries.dom());
}

/// Dropping a key takes it away, from its place in the order too, and nothing else.
pub proof fn removal_takes_one_key<K, V>(c: FifoView<K, V>, i: int, x: K)
    requires
        c.wf(),
        0 <= i < c.order.len(),
    ensures
        ({
            let k = c.order[i];
            let d = c.removed(k);
            &&& d.order == c.order.take(i) + c.order.skip(i + 1)
            &&& d.entries.contains_key(x) <==> c.entries.contains_key(x) && x != k
            &&& d.entries.contains_key(x) ==> d.entries[x] == c.entries[x]
            &&& d.capacity == c.capacity && d.ttl_secs == c.ttl_secs
        }),
{
    lemma_without_at(c.order, i);
    assert(c.order.remove(i) =~= c.order.take(i) + c.order.skip(i + 1));
}

/// Setting a key that is there changes its value and nothing else. A new key becomes the youngest;
/// where the cache is full the oldest key leaves, and else none does.
pub proof fn insertion_sets_one_key<K, V>(c: FifoView<K, V>, k: K, v: V, x: K)
    requires
        c.wf(),
    ensures
        ({
            let d = c.inserted(k, v);
            let full = c.order.len() == c.capacity;
            &&& d.entries.contains_key(k) && d.entries[k] == v
            &&& d.capacity == c.capacity && d.ttl_secs == c.ttl_secs
            &&& x != k && d.entries.contains_key(x) ==> c.entries.contains_key(x) && d.entries[x]
                == c.entries[x]
            &&& c.entries.contains_key(k) ==> d.order == c.order && (c.entries.contains_key(x)
                ==> d.entries.contains_key(x))
            &&& !c.entries.contains_key(k) && !full ==> d.order == c.order.push(k) && (
            c.entries.contains_key(x) ==> d.entries.contains_key(x))
            &&& !c.entries.contains_key(k) && full ==> d.order == c.order.skip(1).push(k) && (
            c.entries.contains_key(x) && x != c.order[0] ==> d.entries.contains_key(x))
                && !d.entries.contains_key(c.order[0])
        }),
{
    if !c.entries.contains_key(k) && c.order.len() == c.capacity {
        assert(c.order.to_set().contains(c.order[0]));
    }
}

/// Dropping a key that is not there changes nothing.
pub proof fn removal_of_a_missing_key<K, V>(c: FifoView<K, V>, k: K)
    requires
        c.wf(),
        !c.entries.contains_key(k),
    ensures
        c.removed(k) == c,
{
    assert(!c.order.contains(k)) by {
        assert(c.order.to_set().contains(k) == c.entries.dom().contains(k));
    }
    lemma_without_absent(c.order, k);
    assert(c.entries.remove(k) =~= c.entries);
}

} // verus!
