//! Filters over message attributes.
use vstd::prelude::*;

use crate::error::PubSubError;
use crate::message::Message;
use crate::text;

verus! {

/// A subscription filter over message attributes: `key == "value"` clauses that must all hold. An
/// empty filter matches everything. The grammar is closed: nothing is ever evaluated.
#[derive(Debug, Clone, PartialEq, Eq)]
pub struct AttributeFilter {
    clauses: Vec<(String, String)>,
}

/// What a clause stands for.
pub open spec fn clause(c: (String, String)) -> (Seq<char>, Seq<char>) {
    (c.0@, c.1@)
}

impl View for AttributeFilter {
    type V = Seq<(Seq<char>, Seq<char>)>;

    closed spec fn view(&self) -> Seq<(Seq<char>, Seq<char>)> {
        self.clauses@.map_values(|c: (String, String)| clause(c))
    }
}

/// Whether every clause names an attribute that has its value.
pub open spec fn all_hold(
    clauses: Seq<(Seq<char>, Seq<char>)>,
    attributes: Map<Seq<char>, Seq<char>>,
) -> bool {
    forall|i: int|
        0 <= i < clauses.len() ==> attributes.contains_key((#[trigger] clauses[i]).0)
            && attributes[clauses[i].0] == clauses[i].1
}

/// Whether `c` is ASCII white space.
pub open spec fn ascii_space(c: char) -> bool {
    c == ' ' || c == '\t' || c == '\n' || c == '\x0c' || c == '\r'
}

/// The index of the first character from `i` on that is no ASCII white space, or the length.
pub open spec fn after_spaces(s: Seq<char>, i: int) -> int
    decreases s.len() - i,
{
    if i < s.len() && ascii_space(s[i]) {
        after_spaces(s, i + 1)
    } else {
        i
    }
}

/// The index of the first `c` from `i` on, or the length.
pub open spec fn find_char(s: Seq<char>, i: int, c: char) -> int
    decreases s.len() - i,
{
    if i < s.len() && s[i] != c {
        find_char(s, i + 1, c)
    } else {
        i
    }
}

/// The key that a text names: without white space around it and without the prefix `attributes.`.
pub open spec fn bare_key(s: Seq<char>) -> Seq<char> {
    let k = text::trimmed(s);
    if text::has_prefix(k, "attributes."@) {
        k.skip("attributes."@.len() as int)
    } else {
        k
    }
}

/// Whether a key is a bare identifier: it holds no white space and no double quote.
pub open spec fn bare(k: Seq<char>) -> bool {
    forall|i: int| 0 <= i < k.len() ==> !text::is_space(#[trigger] k[i]) && k[i] != '"'
}

/// The clauses that stand in `s` from `i` on, or what is wrong with the first that is malformed. A
/// clause is a bare key, one or two `=`, and a value in double quotes, and is followed by white space
/// or nothing.
pub open spec fn clauses_from(s: Seq<char>, i: int) -> Result<
    Seq<(Seq<char>, Seq<char>)>,
    Seq<char>,
>
    decreases s.len() - i,
    when i >= 0
{
    let start = after_spaces(s, i);
    let eq = find_char(s, start, '=');
    let key = bare_key(s.subrange(start, eq));
    let open = after_spaces(
        s,
        if eq + 1 < s.len() && s[eq + 1] == '=' {
            eq + 2
        } else {
            eq + 1
        },
    );
    let close = find_char(s, open + 1, '"');
    if start >= s.len() {
        Ok(Seq::empty())
    } else if eq >= s.len() {
        Err(
            "filter clause missing '=' near byte "@ + text::decimal_text(
                text::byte_len(s.take(start)),
            ),
        )
    } else if open >= s.len() || s[open] != '"' {
        Err("filter value for key '"@ + key + "' must be double-quoted"@)
    } else if close >= s.len() {
        Err("unterminated filter value for key '"@ + key + "'"@)
    } else if key.len() == 0 {
        Err("filter clause has an empty key"@)
    } else if !bare(key) {
        Err("filter key '"@ + key + "' is not a bare identifier"@)
    } else if close + 1 < s.len() && !text::is_space(s[close + 1]) {
        Err(
            "filter clause not followed by white space near byte "@ + text::decimal_text(
                text::byte_len(s.take(close + 1)),
            ),
        )
    } else {
        proof {
            spaces_are_skipped_forwards(s, i);
            characters_are_found_forwards(s, start, '=');
            spaces_are_skipped_forwards(s, eq + 1);
            spaces_are_skipped_forwards(s, eq + 2);
            characters_are_found_forwards(s, open + 1, '"');
        }
        after_clause((key, s.subrange(open + 1, close)), clauses_from(s, close + 1))
    }
}

/// The clauses `rest` after the clause `c`.
pub open spec fn after_clause(
    c: (Seq<char>, Seq<char>),
    rest: Result<Seq<(Seq<char>, Seq<char>)>, Seq<char>>,
) -> Result<Seq<(Seq<char>, Seq<char>)>, Seq<char>> {
    match rest {
        Ok(cs) => Ok(seq![c] + cs),
        Err(e) => Err(e),
    }
}

/// Skipping white space never goes back, nor past the end.
pub proof fn spaces_are_skipped_forwards(s: Seq<char>, i: int)
    ensures
        i <= after_spaces(s, i),
        i <= s.len() ==> after_spaces(s, i) <= s.len(),
    decreases s.len() - i,
{
    if i < s.len() && ascii_space(s[i]) {
        spaces_are_skipped_forwards(s, i + 1);
    }
}

/// Looking for a character never goes back, nor past the end.
pub proof fn characters_are_found_forwards(s: Seq<char>, i: int, c: char)
    ensures
        i <= find_char(s, i, c),
        i <= s.len() ==> find_char(s, i, c) <= s.len(),
    decreases s.len() - i,
{
    if i < s.len() && s[i] != c {
        characters_are_found_forwards(s, i + 1, c);
    }
}

/// The clauses of a filter in the compact `key="value" key2="value2"` form.
pub open spec fn parsed(s: Seq<char>) -> Result<Seq<(Seq<char>, Seq<char>)>, Seq<char>> {
    clauses_from(text::trimmed(s), 0)
}

/// The index of the first character from `i` on that is no ASCII white space, or the length.
fn skip_spaces(s: &Vec<char>, i: usize) -> (r: usize)
    requires
        i <= s@.len(),
    ensures
        r == after_spaces(s@, i as int),
        i <= r <= s@.len(),
{
    let mut r: usize = i;
    while r < s.len() && (s[r] == ' ' || s[r] == '\t' || s[r] == '\n' || s[r] == '\x0c' || s[r]
        == '\r')
        invariant
            i <= r <= s@.len(),
            after_spaces(s@, r as int) == after_spaces(s@, i as int),
        decreases s@.len() - r,
    {
        r = r + 1;
    }
    r
}

/// The index of the first `c` from `i` on, or the length.
pub fn find(s: &Vec<char>, i: usize, c: char) -> (r: usize)
    requires
        i <= s@.len(),
    ensures
        r == find_char(s@, i as int, c),
        i <= r <= s@.len(),
{
    let mut r: usize = i;
    while r < s.len() && s[r] != c
        invariant
            i <= r <= s@.len(),
            find_char(s@, r as int, c) == find_char(s@, i as int, c),
        decreases s@.len() - r,
    {
        r = r + 1;
    }
    r
}

/// The key that the characters in `[from, to)` name.
fn key_at(s: &str, chars: &Vec<char>, from: usize, to: usize) -> (key: String)
    requires
        chars@ == s@,
        from <= to <= chars@.len(),
    ensures
        key@ == bare_key(s@.subrange(from as int, to as int)),
{
    let (a, b): (usize, usize) = text::trim_range(chars, from, to);
    let k: &str = s.substring_char(a, b);
    if text::starts_with(k, "attributes.") {
        proof {
            reveal_strlit("attributes.");
        }
        let rest: &str = k.substring_char(11, b - a);
        assert(rest@ =~= k@.skip(11));
        rest.to_owned()
    } else {
        k.to_owned()
    }
}

/// Whether `k` is a bare identifier.
fn is_bare(k: &str) -> (b: bool)
    ensures
        b == bare(k@),
{
    let chars: Vec<char> = text::chars_of(k);
    let mut i: usize = 0;
    while i < chars.len()
        invariant
            chars@ == k@,
            i <= chars@.len(),
            forall|j: int| 0 <= j < i ==> !text::is_space(#[trigger] k@[j]) && k@[j] != '"',
        decreases chars@.len() - i,
    {
        if text::space(chars[i]) || chars[i] == '"' {
            assert(text::is_space(k@[i as int]) || k@[i as int] == '"');
            return false;
        }
        i = i + 1;
    }
    true
}

/// What is wrong with a place in a filter, told by the bytes before it.
fn place_error(what: &str, before: &str) -> (e: PubSubError)
    ensures
        e@ == what@ + text::decimal_text(text::byte_len(before@)),
{
    let mut t: String = what.to_owned();
    t.append(text::decimal(text::len_bytes(before) as u64).as_str());
    PubSubError::new(t)
}

/// What is wrong with the clause that names a key.
fn key_error(before: &str, key: &str, after: &str) -> (e: PubSubError)
    ensures
        e@ == before@ + key@ + after@,
{
    let mut t: String = before.to_owned();
    t.append(key);
    t.append(after);
    PubSubError::new(t)
}

/// The clauses `done` before the clauses `rest`.
spec fn before_clauses(
    done: Seq<(Seq<char>, Seq<char>)>,
    rest: Result<Seq<(Seq<char>, Seq<char>)>, Seq<char>>,
) -> Result<Seq<(Seq<char>, Seq<char>)>, Seq<char>> {
    match rest {
        Ok(cs) => Ok(done + cs),
        Err(e) => Err(e),
    }
}

impl Default for AttributeFilter {
    fn default() -> (f: Self)
        ensures
            f@ == Seq::<(Seq<char>, Seq<char>)>::empty(),
    {
        let f: AttributeFilter = AttributeFilter { clauses: Vec::new() };
        assert(f@ =~= Seq::<(Seq<char>, Seq<char>)>::empty());
        f
    }
}

impl AttributeFilter {
    /// A filter that matches every message.
    pub fn any() -> (f: Self)
        ensures
            f@ == Seq::<(Seq<char>, Seq<char>)>::empty(),
    {
        AttributeFilter::default()
    }

    /// Requires that the attribute `key` has the value `value`, besides all that is required.
    pub fn require(self, key: &str, value: &str) -> (f: Self)
        ensures
            f@ == self@.push((key@, value@)),
    {
        let mut clauses: Vec<(String, String)> = self.clauses;
        clauses.push((key.to_owned(), value.to_owned()));
        let f: AttributeFilter = AttributeFilter { clauses };
        assert(f@ =~= self@.push((key@, value@)));
        f
    }

    /// Whether this filter has no clauses: whether it matches everything.
    pub fn is_empty(&self) -> (b: bool)
        ensures
            b == (self@.len() == 0),
    {
        self.clauses.len() == 0
    }

    /// Whether `msg` satisfies every clause.
    pub fn matches(&self, msg: &Message) -> (b: bool)
        ensures
            b == all_hold(self@, msg@.attributes),
    {
        let mut i: usize = 0;
        while i < self.clauses.len()
            invariant
                i <= self.clauses@.len(),
                forall|j: int|
                    0 <= j < i ==> msg@.attributes.contains_key((#[trigger] self@[j]).0)
                        && msg@.attributes[self@[j].0] == self@[j].1,
            decreases self.clauses@.len() - i,
        {
            let (k, v): &(String, String) = &self.clauses[i];
            assert(self@[i as int] == (k@, v@));
            match msg.attributes.get(k.as_str()) {
                Some(got) => {
                    if *got != *v {
                        return false;
                    }
                },
                None => {
                    return false;
                },
            }
            i = i + 1;
        }
        true
    }

    /// Parses a filter from the compact `key="value" key2="value2"` form: clauses separated by white
    /// space, with bare keys and values in double quotes. `==` stands for `=`, and a prefix
    /// `attributes.` of a key is dropped. Malformed input is an error.
    pub fn parse(s: &str) -> (r: Result<Self, PubSubError>)
        ensures
            match r {
                Ok(f) => parsed(s@) == Ok::<_, Seq<char>>(f@),
                Err(e) => parsed(s@) == Err::<Seq<(Seq<char>, Seq<char>)>, _>(e@),
            },
    {
        let whole: Vec<char> = text::chars_of(s);
        let (a, b): (usize, usize) = text::trim_range(&whole, 0, whole.len());
        proof {
            assert(s@.subrange(0, s@.len() as int) =~= s@);
        }
        let t: &str = s.substring_char(a, b);
        let chars: Vec<char> = text::chars_of(t);
        let mut clauses: Vec<(String, String)> = Vec::new();
        let mut i: usize = 0;
        let ghost pair = |c: (String, String)| clause(c);
        proof {
            assert(clauses@.map_values(pair) =~= Seq::empty());
            assert(before_clauses(Seq::empty(), clauses_from(t@, 0)) == clauses_from(t@, 0)) by {
                if let Ok(cs) = clauses_from(t@, 0) {
                    assert(Seq::<(Seq<char>, Seq<char>)>::empty() + cs =~= cs);
                }
            }
        }
        while i < chars.len()
            invariant
                chars@ == t@,
                t@ == text::trimmed(s@),
                i <= chars@.len(),
                pair == (|c: (String, String)| clause(c)),
                parsed(s@) == before_clauses(
                    clauses@.map_values(pair),
                    clauses_from(t@, i as int),
                ),
            decreases chars@.len() - i,
        {
            let start: usize = skip_spaces(&chars, i);
            if start >= chars.len() {
                i = start;
                continue;
            }
            let eq: usize = find(&chars, start, '=');
            if eq >= chars.len() {
                assert(t@.subrange(0, start as int) =~= t@.take(start as int));
                return Err(
                    place_error("filter clause missing '=' near byte ", t.substring_char(0, start)),
                );
            }
            let key: String = key_at(t, &chars, start, eq);
            let after_eq: usize = if eq + 1 < chars.len() && chars[eq + 1] == '=' {
                eq + 2
            } else {
                eq + 1
            };
            let open: usize = skip_spaces(&chars, after_eq);
            if open >= chars.len() || chars[open] != '"' {
                return Err(
                    key_error(
                        "filter value for key '",
                        key.as_str(),
                        "' must be double-quoted",
                    ),
                );
            }
            let close: usize = find(&chars, open + 1, '"');
            if close >= chars.len() {
                return Err(key_error("unterminated filter value for key '", key.as_str(), "'"));
            }
            if key.as_str().unicode_len() == 0 {
                return Err(PubSubError::new("filter clause has an empty key".to_owned()));
            }
            if !is_bare(key.as_str()) {
                return Err(key_error("filter key '", key.as_str(), "' is not a bare identifier"));
            }
            if close + 1 < chars.len() && !text::space(chars[close + 1]) {
                assert(t@.subrange(0, close + 1) =~= t@.take(close + 1));
                return Err(
                    place_error(
                        "filter clause not followed by white space near byte ",
                        t.substring_char(0, close + 1),
                    ),
                );
            }
            let value: String = t.substring_char(open + 1, close).to_owned();
            let ghost done = clauses@.map_values(pair);
            let ghost c = (key@, value@);
            clauses.push((key, value));
            proof {
                assert(clauses@.map_values(pair) =~= done.push(c));
                if let Ok(cs) = clauses_from(t@, close + 1) {
                    assert(done + (seq![c] + cs) =~= done.push(c) + cs);
                }
            }
            i = close + 1;
        }
        let f: AttributeFilter = AttributeFilter { clauses };
        proof {
            assert(f@ + Seq::<(Seq<char>, Seq<char>)>::empty() =~= f@);
        }
        Ok(f)
    }
}

/// A filter without clauses matches every message.
pub proof fn empty_filter_matches_everything(attributes: Map<Seq<char>, Seq<char>>)
    ensures
        all_hold(Seq::empty(), attributes),
{
}

/// Clauses are joined by "and": a filter with one more clause matches exactly where the filter
/// matches and the clause holds.
pub proof fn clauses_are_joined_by_and(
    clauses: Seq<(Seq<char>, Seq<char>)>,
    key: Seq<char>,
    value: Seq<char>,
    attributes: Map<Seq<char>, Seq<char>>,
)
    ensures
        all_hold(clauses.push((key, value)), attributes) <==> all_hold(clauses, attributes)
            && attributes.contains_key(key) && attributes[key] == value,
{
    let more = clauses.push((key, value));
    if all_hold(more, attributes) {
        assert forall|i: int| 0 <= i < clauses.len() implies attributes.contains_key(
            (#[trigger] clauses[i]).0,
        ) && attributes[clauses[i].0] == clauses[i].1 by {
            assert(more[i] == clauses[i]);
        }
        assert(more[clauses.len() as int] == (key, value));
    }
}

/// How a clause is written in the compact form.
#[verifier::ext_equal]
pub struct Rendering {
    /// The white space before the clause.
    pub before: Seq<char>,
    /// Whether the key has the prefix `attributes.`.
    pub prefixed: bool,
    /// The key.
    pub key: Seq<char>,
    /// The white space between the key and `=`.
    pub gap: Seq<char>,
    /// Whether `==` stands for `=`.
    pub doubled: bool,
    /// The white space between `=` and the value.
    pub after: Seq<char>,
    /// The value.
    pub value: Seq<char>,
}

impl Rendering {
    /// The clause that is written.
    pub open spec fn clause(self) -> (Seq<char>, Seq<char>) {
        (self.key, self.value)
    }

    /// The key as it is written.
    pub open spec fn name(self) -> Seq<char> {
        if self.prefixed {
            "attributes."@ + self.key
        } else {
            self.key
        }
    }

    /// One `=` or two.
    pub open spec fn sign(self) -> Seq<char> {
        if self.doubled {
            seq!['=', '=']
        } else {
            seq!['=']
        }
    }

    /// The text of the clause.
    pub open spec fn text(self) -> Seq<char> {
        self.before + self.name() + self.gap + self.sign() + self.after + seq!['"'] + self.value
            + seq!['"']
    }

    /// Whether the compact form can hold the clause: the key is not empty, is a bare identifier,
    /// holds no `=`, and starts with `attributes.` only behind another such prefix; the value holds
    /// no double quote; and all around them is white space, ASCII white space before the value.
    pub open spec fn renderable(self) -> bool {
        &&& self.key.len() > 0
        &&& bare(self.key)
        &&& !self.key.contains('=')
        &&& !self.prefixed ==> !text::has_prefix(self.key, "attributes."@)
        &&& !self.value.contains('"')
        &&& text::all_spaces(self.before)
        &&& text::all_spaces(self.gap)
        &&& forall|i: int| 0 <= i < self.after.len() ==> ascii_space(#[trigger] self.after[i])
    }
}

/// Clauses in the compact form.
pub open spec fn rendered(rs: Seq<Rendering>) -> Seq<char>
    decreases rs.len(),
{
    if rs.len() == 0 {
        Seq::empty()
    } else {
        rs[0].text() + rendered(rs.drop_first())
    }
}

/// Whether the compact form can hold all the clauses: it can hold each of them, and white space
/// stands between them.
pub open spec fn all_renderable(rs: Seq<Rendering>) -> bool {
    &&& forall|j: int| 0 <= j < rs.len() ==> (#[trigger] rs[j]).renderable()
    &&& forall|j: int| 0 < j < rs.len() ==> (#[trigger] rs[j]).before.len() > 0
}

/// Whether `s` is the clauses `rs` in the compact form, with the white space `trail` behind them.
pub open spec fn writes(s: Seq<char>, rs: Seq<Rendering>, trail: Seq<char>) -> bool {
    all_renderable(rs) && text::all_spaces(trail) && s == rendered(rs) + trail
}

/// The clauses that are written.
pub open spec fn clauses_of(rs: Seq<Rendering>) -> Seq<(Seq<char>, Seq<char>)> {
    rs.map_values(|r: Rendering| r.clause())
}

proof fn lemma_find_at(s: Seq<char>, i: int, j: int, c: char)
    requires
        0 <= i <= j < s.len(),
        s[j] == c,
        forall|k: int| i <= k < j ==> s[k] != c,
    ensures
        find_char(s, i, c) == j,
    decreases j - i,
{
    if i < j {
        lemma_find_at(s, i + 1, j, c);
    }
}

proof fn lemma_spaces_stop(s: Seq<char>, i: int, j: int)
    requires
        0 <= i <= j < s.len(),
        !ascii_space(s[j]),
    ensures
        i <= after_spaces(s, i) <= j,
        (forall|k: int| i <= k < j ==> ascii_space(#[trigger] s[k])) ==> after_spaces(s, i) == j,
    decreases j - i,
{
    if i < j && ascii_space(s[i]) {
        lemma_spaces_stop(s, i + 1, j);
    }
}

/// Where the parts of a written clause stand in its text.
proof fn lemma_layout(r: Rendering)
    ensures
        ({
            let t = r.text();
            let a = r.before.len() as int;
            let b = a + r.name().len();
            let c = b + r.gap.len();
            let d = c + r.sign().len();
            let e = d + r.after.len();
            let f = e + 1 + r.value.len();
            &&& t.len() == f + 1
            &&& t.subrange(0, a) == r.before
            &&& t.subrange(a, b) == r.name()
            &&& t.subrange(b, c) == r.gap
            &&& t.subrange(c, d) == r.sign()
            &&& t.subrange(d, e) == r.after
            &&& t[e] == '"'
            &&& t.subrange(e + 1, f) == r.value
            &&& t[f] == '"'
        }),
{
    let t = r.text();
    let a = r.before.len() as int;
    let b = a + r.name().len();
    let c = b + r.gap.len();
    let d = c + r.sign().len();
    let e = d + r.after.len();
    let f = e + 1 + r.value.len();
    assert(t.subrange(0, a) =~= r.before);
    assert(t.subrange(a, b) =~= r.name());
    assert(t.subrange(b, c) =~= r.gap);
    assert(t.subrange(c, d) =~= r.sign());
    assert(t.subrange(d, e) =~= r.after);
    assert(t.subrange(e + 1, f) =~= r.value);
}

/// The written key neither starts nor ends with white space, holds no `=`, and names the key.
proof fn lemma_name(r: Rendering)
    requires
        r.renderable(),
    ensures
        r.name().len() > 0,
        !text::is_space(r.name()[0]),
        !text::is_space(r.name().last()),
        forall|j: int| 0 <= j < r.name().len() ==> #[trigger] r.name()[j] != '=',
        if text::has_prefix(r.name(), "attributes."@) {
            r.name().skip("attributes."@.len() as int) == r.key
        } else {
            r.name() == r.key
        },
{
    reveal_strlit("attributes.");
    let p = "attributes."@;
    assert forall|j: int| 0 <= j < r.key.len() implies r.key[j] != '=' by {
        assert(r.key.contains(r.key[j]));
    }
    assert(!text::is_space(r.key[0]));
    assert(!text::is_space(r.key[r.key.len() - 1]));
    if r.prefixed {
        assert(r.name().take(p.len() as int) =~= p);
        assert(r.name().skip(p.len() as int) =~= r.key);
    }
}

/// Where the parts of the written clause `r` stand, where it stands in `s` from `i` on.
spec fn stands(s: Seq<char>, i: int, r: Rendering) -> bool {
    let name_at = i + r.before.len();
    let name_end = name_at + r.name().len();
    let eq = name_end + r.gap.len();
    let sign_end = eq + r.sign().len();
    let open = sign_end + r.after.len();
    let close = open + 1 + r.value.len();
    &&& 0 <= i
    &&& close < s.len()
    &&& s.subrange(i, name_at) == r.before
    &&& s.subrange(name_at, name_end) == r.name()
    &&& s.subrange(name_end, eq) == r.gap
    &&& s.subrange(eq, sign_end) == r.sign()
    &&& s.subrange(sign_end, open) == r.after
    &&& s[open] == '"'
    &&& s.subrange(open + 1, close) == r.value
    &&& s[close] == '"'
}

proof fn lemma_stands(s: Seq<char>, i: int, r: Rendering)
    requires
        0 <= i,
        i + r.text().len() <= s.len(),
        s.subrange(i, i + r.text().len()) == r.text(),
    ensures
        stands(s, i, r),
{
    let t = r.text();
    lemma_layout(r);
    let a = r.before.len() as int;
    let b = a + r.name().len();
    let c = b + r.gap.len();
    let d = c + r.sign().len();
    let e = d + r.after.len();
    let f = e + 1 + r.value.len();
    let u = s.subrange(i, i + t.len());
    assert(u.subrange(0, a) =~= s.subrange(i, i + a));
    assert(u.subrange(a, b) =~= s.subrange(i + a, i + b));
    assert(u.subrange(b, c) =~= s.subrange(i + b, i + c));
    assert(u.subrange(c, d) =~= s.subrange(i + c, i + d));
    assert(u.subrange(d, e) =~= s.subrange(i + d, i + e));
    assert(u.subrange(e + 1, f) =~= s.subrange(i + e + 1, i + f));
    assert(u[e] == s[i + e] && u[f] == s[i + f]);
}

/// The key of a clause is found where it stands.
proof fn lemma_key_found(s: Seq<char>, i: int, r: Rendering)
    requires
        stands(s, i, r),
        r.renderable(),
    ensures
        ({
            let start = after_spaces(s, i);
            let eq = i + r.before.len() + r.name().len() + r.gap.len();
            &&& i <= start < s.len()
            &&& find_char(s, start, '=') == eq
            &&& bare_key(s.subrange(start, eq)) == r.key
        }),
{
    let name_at = i + r.before.len();
    let name_end = name_at + r.name().len();
    let eq = name_end + r.gap.len();
    lemma_name(r);
    assert(s[name_at] == s.subrange(name_at, name_end)[0]);
    lemma_spaces_stop(s, i, name_at);
    let start = after_spaces(s, i);
    let lead = s.subrange(start, name_at);
    assert forall|j: int| 0 <= j < lead.len() implies text::is_space(#[trigger] lead[j]) by {
        assert(lead[j] == s.subrange(i, name_at)[start - i + j]);
    }
    assert(s[eq] == s.subrange(eq, eq + r.sign().len())[0]);
    assert forall|x: int| start <= x < eq implies s[x] != '=' by {
        if x < name_at {
            assert(s[x] == lead[x - start]);
        } else if x < name_end {
            assert(s[x] == s.subrange(name_at, name_end)[x - name_at]);
        } else {
            assert(s[x] == s.subrange(name_end, eq)[x - name_end]);
        }
    }
    lemma_find_at(s, start, eq, '=');
    assert(s.subrange(start, eq) =~= lead + s.subrange(name_at, name_end) + s.subrange(
        name_end,
        eq,
    ));
    text::trimming_takes_the_ends(lead, r.name(), r.gap);
}

/// The value of a clause is found where it stands.
proof fn lemma_value_found(s: Seq<char>, i: int, r: Rendering)
    requires
        stands(s, i, r),
        r.renderable(),
    ensures
        ({
            let eq = i + r.before.len() + r.name().len() + r.gap.len();
            let sign_end = eq + r.sign().len();
            let open = sign_end + r.after.len();
            let close = open + 1 + r.value.len();
            &&& (s[eq + 1] == '=') == r.doubled
            &&& after_spaces(s, sign_end) == open
            &&& find_char(s, open + 1, '"') == close
        }),
{
    let eq = i + r.before.len() + r.name().len() + r.gap.len();
    let sign_end = eq + r.sign().len();
    let open = sign_end + r.after.len();
    let close = open + 1 + r.value.len();
    if r.doubled {
        assert(s[eq + 1] == s.subrange(eq, sign_end)[1]);
    } else if r.after.len() > 0 {
        assert(s[eq + 1] == s.subrange(sign_end, open)[0]);
        assert(ascii_space(r.after[0]));
    }
    assert forall|x: int| sign_end <= x < open implies ascii_space(#[trigger] s[x]) by {
        assert(s[x] == s.subrange(sign_end, open)[x - sign_end]);
    }
    lemma_spaces_stop(s, sign_end, open);
    assert forall|x: int| open + 1 <= x < close implies s[x] != '"' by {
        assert(s[x] == s.subrange(open + 1, close)[x - open - 1]);
        assert(r.value.contains(r.value[x - open - 1]));
    }
    lemma_find_at(s, open + 1, close, '"');
}

/// A written clause parses to the clause, followed by what stands behind it.
proof fn lemma_clause_parses(s: Seq<char>, i: int, r: Rendering)
    requires
        stands(s, i, r),
        r.renderable(),
        ({
            let close = i + r.before.len() + r.name().len() + r.gap.len() + r.sign().len()
                + r.after.len() + 1 + r.value.len();
            close + 1 < s.len() ==> text::is_space(s[close + 1])
        }),
    ensures
        ({
            let close = i + r.before.len() + r.name().len() + r.gap.len() + r.sign().len()
                + r.after.len() + 1 + r.value.len();
            clauses_from(s, i) == after_clause(r.clause(), clauses_from(s, close + 1))
        }),
{
    lemma_key_found(s, i, r);
    lemma_value_found(s, i, r);
}

proof fn lemma_render_parses(s: Seq<char>, i: int, rs: Seq<Rendering>)
    requires
        0 <= i <= s.len(),
        s.skip(i) == rendered(rs),
        all_renderable(rs),
    ensures
        clauses_from(s, i) == Ok::<_, Seq<char>>(clauses_of(rs)),
    decreases rs.len(),
{
    if rs.len() == 0 {
        assert(s.skip(i).len() == 0);
        assert(clauses_of(rs) =~= Seq::empty());
    } else {
        let r = rs[0];
        let rest = rs.drop_first();
        let more = rendered(rest);
        let n = r.text().len() as int;
        assert(r.renderable());
        assert(s.subrange(i, i + n) =~= r.text()) by {
            assert(s.skip(i).take(n) =~= s.subrange(i, i + n));
            assert((r.text() + more).take(n) =~= r.text());
        }
        assert(s.skip(i + n) =~= more) by {
            assert(s.skip(i).skip(n) =~= s.skip(i + n));
            assert((r.text() + more).skip(n) =~= more);
        }
        assert forall|j: int| 0 <= j < rest.len() implies (#[trigger] rest[j]).renderable()
            && rest[j].before.len() > 0 by {
            assert(rest[j] == rs[j + 1]);
        }
        if rest.len() == 0 {
            assert(s.skip(i + n).len() == 0);
        } else {
            let q = rest[0];
            lemma_layout(q);
            assert(s[i + n] == s.skip(i + n)[0]);
            assert(more[0] == q.text()[0]);
            assert(q.text().subrange(0, q.before.len() as int)[0] == q.before[0]);
            assert(text::is_space(q.before[0]));
        }
        lemma_stands(s, i, r);
        lemma_layout(r);
        lemma_clause_parses(s, i, r);
        lemma_render_parses(s, i + n, rest);
        assert(clauses_of(rs) =~= seq![r.clause()] + clauses_of(rest));
    }
}

proof fn lemma_rendered_ends(rs: Seq<Rendering>)
    requires
        rs.len() > 0,
    ensures
        rendered(rs).len() > 0,
        rendered(rs).last() == '"',
    decreases rs.len(),
{
    lemma_layout(rs[0]);
    let rest = rs.drop_first();
    if rest.len() > 0 {
        lemma_rendered_ends(rest);
        assert((rs[0].text() + rendered(rest)).last() == rendered(rest).last());
    } else {
        assert(rs[0].text() + rendered(rest) =~= rs[0].text());
    }
}

/// What is written in the compact form parses to the clauses that it was written from, with whatever
/// white space around and between them, with `=` or `==`, with or without the prefix `attributes.`.
pub proof fn rendered_filter_parses(s: Seq<char>, rs: Seq<Rendering>, trail: Seq<char>)
    requires
        writes(s, rs, trail),
    ensures
        parsed(s) == Ok::<_, Seq<char>>(clauses_of(rs)),
{
    if rs.len() == 0 {
        let none = Seq::<char>::empty();
        text::trimming_takes_the_ends(none, none, trail);
        assert(none + none + trail =~= rendered(rs) + trail);
        assert(clauses_of(rs) =~= Seq::empty());
    } else {
        let r = rs[0];
        let q = Rendering { before: Seq::empty(), ..r };
        let qs = rs.update(0, q);
        let t = rendered(qs);
        assert(r.renderable());
        assert(q.renderable());
        assert(qs.drop_first() =~= rs.drop_first());
        assert(r.text() =~= r.before + q.text());
        assert(rendered(rs) + trail =~= r.before + t + trail);
        assert forall|j: int| 0 <= j < qs.len() implies (#[trigger] qs[j]).renderable() && (j > 0
            ==> qs[j].before.len() > 0) by {
            if j > 0 {
                assert(qs[j] == rs[j]);
            }
        }
        lemma_name(q);
        lemma_layout(q);
        assert(t[0] == q.text()[0]);
        assert(q.text()[0] == q.text().subrange(0, q.name().len() as int)[0]);
        lemma_rendered_ends(qs);
        text::trimming_takes_the_ends(r.before, t, trail);
        assert(t.skip(0) =~= t);
        lemma_render_parses(t, 0, qs);
        assert(clauses_of(qs) =~= clauses_of(rs));
    }
}

proof fn lemma_keys_are_bare(s: Seq<char>, i: int)
    requires
        0 <= i,
    ensures
        clauses_from(s, i) matches Ok(cs) ==> forall|j: int|
            0 <= j < cs.len() ==> (#[trigger] cs[j]).0.len() > 0 && bare(cs[j].0),
    decreases s.len() - i,
{
    let start = after_spaces(s, i);
    let eq = find_char(s, start, '=');
    let from = if eq + 1 < s.len() && s[eq + 1] == '=' {
        eq + 2
    } else {
        eq + 1
    };
    let open = after_spaces(s, from);
    let close = find_char(s, open + 1, '"');
    spaces_are_skipped_forwards(s, i);
    characters_are_found_forwards(s, start, '=');
    spaces_are_skipped_forwards(s, from);
    characters_are_found_forwards(s, open + 1, '"');
    if clauses_from(s, i) is Ok && start < s.len() {
        lemma_keys_are_bare(s, close + 1);
    }
}

/// The keys of a filter that parses are bare identifiers.
pub proof fn parsed_keys_are_bare(s: Seq<char>)
    ensures
        parsed(s) matches Ok(cs) ==> forall|j: int|
            0 <= j < cs.len() ==> (#[trigger] cs[j]).0.len() > 0 && bare(cs[j].0),
{
    lemma_keys_are_bare(text::trimmed(s), 0);
}

/// What stands between is what was skipped or looked through.
proof fn lemma_passed_over(s: Seq<char>, i: int, c: char)
    requires
        0 <= i,
    ensures
        forall|k: int| i <= k < after_spaces(s, i) ==> ascii_space(#[trigger] s[k]),
        after_spaces(s, i) < s.len() ==> !ascii_space(s[after_spaces(s, i)]),
        forall|k: int| i <= k < find_char(s, i, c) ==> #[trigger] s[k] != c,
        find_char(s, i, c) < s.len() ==> s[find_char(s, i, c)] == c,
    decreases s.len() - i,
{
    if i < s.len() {
        lemma_passed_over(s, i + 1, c);
    }
}

/// How the clause that stands in `s` from `i` on, with its key from `start` to `eq` and its value from
/// `open` to `close`, is written.
proof fn lemma_written(s: Seq<char>, i: int, start: int, eq: int, open: int, close: int) -> (r:
    Rendering)
    requires
        0 <= i <= start <= eq < s.len(),
        eq < open < close < s.len(),
        start == after_spaces(s, i),
        eq == find_char(s, start, '='),
        open == after_spaces(
            s,
            if s[eq + 1] == '=' {
                eq + 2
            } else {
                eq + 1
            },
        ),
        s[open] == '"',
        close == find_char(s, open + 1, '"'),
        bare_key(s.subrange(start, eq)).len() > 0,
        bare(bare_key(s.subrange(start, eq))),
    ensures
        r.renderable(),
        r.text() == s.subrange(i, close + 1),
        r.clause() == (bare_key(s.subrange(start, eq)), s.subrange(open + 1, close)),
        text::is_space(s[i]) ==> r.before.len() > 0,
{
    reveal_strlit("attributes.");
    let p = "attributes."@;
    let k = s.subrange(start, eq);
    let name = text::trimmed(k);
    let (lead, gap) = text::trimming_takes_white_space(k);
    let doubled = s[eq + 1] == '=';
    let from = if doubled {
        eq + 2
    } else {
        eq + 1
    };
    lemma_passed_over(s, i, '=');
    lemma_passed_over(s, start, '=');
    lemma_passed_over(s, from, '=');
    lemma_passed_over(s, open + 1, '"');
    spaces_are_skipped_forwards(s, from);
    let skipped = s.subrange(i, start);
    let r = Rendering {
        before: skipped + lead,
        prefixed: text::has_prefix(name, p),
        key: bare_key(k),
        gap,
        doubled,
        after: s.subrange(from, open),
        value: s.subrange(open + 1, close),
    };
    assert(r.name() =~= name) by {
        if r.prefixed {
            assert(name =~= name.take(p.len() as int) + name.skip(p.len() as int));
        }
    }
    assert(!k.contains('=')) by {
        if k.contains('=') {
            let j = choose|j: int| 0 <= j < k.len() && k[j] == '=';
            assert(s[start + j] == k[j]);
        }
    }
    assert(!r.key.contains('=')) by {
        if r.key.contains('=') {
            let j = choose|j: int| 0 <= j < r.key.len() && r.key[j] == '=';
            let m = if r.prefixed {
                j + p.len()
            } else {
                j
            };
            assert(name[m] == '=');
            assert((lead + name + gap)[lead.len() + m] == '=');
            assert(k.contains(k[lead.len() + m]));
        }
    }
    assert(!r.value.contains('"')) by {
        if r.value.contains('"') {
            let j = choose|j: int| 0 <= j < r.value.len() && r.value[j] == '"';
            assert(s[open + 1 + j] == r.value[j]);
        }
    }
    assert forall|j: int| 0 <= j < r.before.len() implies text::is_space(#[trigger] r.before[j]) by {
        if j < skipped.len() {
            assert(r.before[j] == s[i + j]);
            assert(ascii_space(s[i + j]));
        } else {
            assert(r.before[j] == lead[j - skipped.len()]);
        }
    }
    assert forall|j: int| 0 <= j < r.after.len() implies ascii_space(#[trigger] r.after[j]) by {
        assert(r.after[j] == s[from + j]);
    }
    if text::is_space(s[i]) && start == i && lead.len() == 0 {
        assert(s[i] != '=');
        assert(k[0] == s[i]);
        assert((lead + name + gap)[0] == name[0]);
    }
    assert(r.sign() =~= s.subrange(eq, from));
    assert(s.subrange(i, start) + k =~= s.subrange(i, eq));
    assert(r.before + name + gap =~= s.subrange(i, eq)) by {
        assert(r.before + name + gap =~= skipped + (lead + name + gap));
    }
    assert(s.subrange(i, eq) + r.sign() =~= s.subrange(i, from));
    assert(s.subrange(i, from) + r.after =~= s.subrange(i, open));
    assert(s.subrange(i, open) + seq!['"'] =~= s.subrange(i, open + 1));
    assert(s.subrange(i, open + 1) + r.value =~= s.subrange(i, close));
    assert(s.subrange(i, close) + seq!['"'] =~= s.subrange(i, close + 1));
    r
}

proof fn lemma_parsed_was_rendered(s: Seq<char>, i: int) -> (r: (Seq<Rendering>, Seq<char>))
    requires
        0 <= i <= s.len(),
        clauses_from(s, i) is Ok,
    ensures
        s.skip(i) == rendered(r.0) + r.1,
        all_renderable(r.0),
        text::all_spaces(r.1),
        clauses_from(s, i) == Ok::<_, Seq<char>>(clauses_of(r.0)),
        r.0.len() > 0 ==> i < s.len() && (text::is_space(s[i]) ==> r.0[0].before.len() > 0),
    decreases s.len() - i,
{
    let start = after_spaces(s, i);
    spaces_are_skipped_forwards(s, i);
    if start >= s.len() {
        let none = Seq::<Rendering>::empty();
        lemma_passed_over(s, i, '=');
        let trail = s.skip(i);
        assert forall|j: int| 0 <= j < trail.len() implies text::is_space(#[trigger] trail[j]) by {
            assert(trail[j] == s[i + j]);
            assert(ascii_space(s[i + j]));
        }
        assert(rendered(none) + trail =~= trail);
        assert(clauses_of(none) =~= Seq::empty());
        (none, trail)
    } else {
        let eq = find_char(s, start, '=');
        let from = if eq + 1 < s.len() && s[eq + 1] == '=' {
            eq + 2
        } else {
            eq + 1
        };
        let open = after_spaces(s, from);
        let close = find_char(s, open + 1, '"');
        characters_are_found_forwards(s, start, '=');
        spaces_are_skipped_forwards(s, from);
        characters_are_found_forwards(s, open + 1, '"');
        let first = lemma_written(s, i, start, eq, open, close);
        let (rest, trail) = lemma_parsed_was_rendered(s, close + 1);
        let rs = seq![first] + rest;
        assert(rs.drop_first() =~= rest);
        assert(s.skip(i) =~= s.subrange(i, close + 1) + s.skip(close + 1));
        assert(first.text() + rendered(rest) + trail =~= first.text() + (rendered(rest) + trail));
        assert forall|j: int| 0 <= j < rs.len() implies (#[trigger] rs[j]).renderable() && (j > 0
            ==> rs[j].before.len() > 0) by {
            if j > 0 {
                assert(rs[j] == rest[j - 1]);
            }
        }
        assert(clauses_of(rs) =~= seq![first.clause()] + clauses_of(rest));
        (rs, trail)
    }
}

/// What does not have the compact form is an error: a text that parses is clauses written in that
/// form, with white space around and between them, and parses to these clauses.
pub proof fn parsed_filter_was_rendered(s: Seq<char>)
    ensures
        parsed(s) matches Ok(cs) ==> exists|rs: Seq<Rendering>, trail: Seq<char>|
            #[trigger] writes(s, rs, trail) && clauses_of(rs) == cs,
{
    if parsed(s) is Ok {
        let t = text::trimmed(s);
        let (pre, post) = text::trimming_takes_white_space(s);
        let (qs, end) = lemma_parsed_was_rendered(t, 0);
        assert(t.skip(0) =~= t);
        if qs.len() == 0 {
            let trail = pre + end + post;
            assert forall|j: int| 0 <= j < trail.len() implies text::is_space(
                #[trigger] trail[j],
            ) by {
                if j < pre.len() {
                    assert(trail[j] == pre[j]);
                } else if j < pre.len() + end.len() {
                    assert(trail[j] == end[j - pre.len()]);
                } else {
                    assert(trail[j] == post[j - pre.len() - end.len()]);
                }
            }
            assert(s =~= rendered(qs) + trail);
            assert(writes(s, qs, trail));
        } else {
            let q = qs[0];
            let r = Rendering { before: pre + q.before, ..q };
            let rs = qs.update(0, r);
            let trail = end + post;
            assert(q.renderable());
            assert forall|j: int| 0 <= j < r.before.len() implies text::is_space(
                #[trigger] r.before[j],
            ) by {
                if j < pre.len() {
                    assert(r.before[j] == pre[j]);
                } else {
                    assert(r.before[j] == q.before[j - pre.len()]);
                }
            }
            assert forall|j: int| 0 <= j < trail.len() implies text::is_space(
                #[trigger] trail[j],
            ) by {
                if j < end.len() {
                    assert(trail[j] == end[j]);
                } else {
                    assert(trail[j] == post[j - end.len()]);
                }
            }
            assert forall|j: int| 0 <= j < rs.len() implies (#[trigger] rs[j]).renderable() && (j > 0
                ==> rs[j].before.len() > 0) by {
                if j > 0 {
                    assert(rs[j] == qs[j]);
                }
            }
            assert(rs.drop_first() =~= qs.drop_first());
            assert(r.text() =~= pre + q.text());
            assert(s =~= rendered(rs) + trail);
            assert(clauses_of(rs) =~= clauses_of(qs));
            assert(writes(s, rs, trail));
        }
    }
}

/// A character is found at its first place from where it is looked for, and past the end where there is
/// none.
pub proof fn characters_are_found_at_their_first_place(s: Seq<char>, i: int, c: char, at: int)
    requires
        0 <= i <= at <= s.len(),
        forall|j: int| i <= j < at ==> #[trigger] s[j] != c,
        at < s.len() ==> s[at] == c,
    ensures
        find_char(s, i, c) == at,
    decreases at - i,
{
    if i < at {
        characters_are_found_at_their_first_place(s, i + 1, c, at);
    }
}

} // verus!
