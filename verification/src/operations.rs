//! What the operations of the library give for what they are given, and how one operation takes up what
//! another gave: each law speaks of calls, by their arguments and results.
use vstd::prelude::*;
use vstd::utf8::*;

use crate::caps;
use crate::caps::{Link, LinkTerms};
use crate::cli;
use crate::client;
use crate::client::ReplyFault;
use crate::control;
use crate::control::{ControlAction, Proposal};
use crate::dedup::{IdempotencyCache, Seen, TokenSet};
use crate::error::PubSubError;
use crate::filter;
use crate::filter::AttributeFilter;
use crate::hexcodec;
use crate::ingest;
use crate::ingest::{Gate, IngestCourse, IngestDesk, IngestOpening};
use crate::log;
use crate::log::{LogOp, LogSnapshot, TopicLog};
use crate::message;
use crate::message::{Attributes, Cursor, Message, PublishOptions};
use crate::node_id;
use crate::node_id::NodeId;
use crate::protocol;
use crate::protocol::{ControlReply, ControlRequest, IngestReply, IngestRequest, LeasedMessage};
use crate::replay;
use crate::replay::{ConvergeStep, Convergence, Replay};
use crate::subscription;
use crate::subscription::{
    LeaseOutcome, RegistrySnapshot, SubOp, SubRegistry, SubscriptionPolicy, SubscriptionState,
};
use crate::subscription_laws;
use crate::text;

verus! {

/// The text of an optional string.
pub open spec fn given(o: Option<String>) -> Option<Seq<char>> {
    match o {
        Some(s) => Some(s@),
        None => None,
    }
}

/// The text of an optional string that is borrowed.
pub open spec fn lent(o: Option<&str>) -> Option<Seq<char>> {
    match o {
        Some(s) => Some(s@),
        None => None,
    }
}

/// A message keeps what it was made of, and each setter sets one thing.
pub proof fn messages_keep_what_they_are_given(
    cursor: Cursor,
    publisher: &str,
    payload: &[u8],
    at: u64,
    m: Message,
    key: &str,
    keyed: Message,
    attrs: Attributes,
    attributed: Message,
    yes: bool,
    marked: Message,
    told: bool,
)
    requires
        call_ensures(Message::new, (cursor, publisher, payload, at), m),
        call_ensures(Message::with_ordering_key, (m, key), keyed),
        call_ensures(Message::with_attributes, (keyed, attrs), attributed),
        call_ensures(Message::authenticated, (attributed, yes), marked),
        call_ensures(Message::publisher_is_authenticated, (&marked,), told),
    ensures
        m.cursor == cursor && m.publisher@ == publisher@ && m.published_at == at,
        m.payload_hex@ == hexcodec::hex_text(payload@),
        given(m.ordering_key) is None,
        m.attributes@ == Map::<Seq<char>, Seq<char>>::empty(),
        !m.publisher_authenticated,
        given(keyed.ordering_key) == Some(key@),
        keyed@ == (message::MessageView { ordering_key: Some(key@), ..m@ }),
        attributed@ == (message::MessageView { attributes: attrs@, ..keyed@ }),
        marked@ == (message::MessageView { publisher_authenticated: yes, ..attributed@ }),
        told == yes,
{
}

/// The payload of a message reads back: the bytes that it was made of, and as text where they are text.
pub proof fn payloads_read_back(
    cursor: Cursor,
    publisher: &str,
    payload: &[u8],
    at: u64,
    m: Message,
    data: Result<Vec<u8>, PubSubError>,
    t: String,
)
    requires
        call_ensures(Message::new, (cursor, publisher, payload, at), m),
        call_ensures(Message::data, (&m,), data),
        call_ensures(Message::text, (&m,), t),
    ensures
        data matches Ok(bytes) && bytes@ == payload@,
        valid_utf8(payload@) ==> t@ == decode_utf8(payload@),
{
    hexcodec::hex_round_trips(payload@);
}

/// A payload that is no hex does not read back: it is an error, and the empty text.
pub proof fn broken_payloads_do_not_read_back(
    m: Message,
    data: Result<Vec<u8>, PubSubError>,
    t: String,
)
    requires
        hexcodec::hex_fault(encode_utf8(m.payload_hex@)) is Some,
        call_ensures(Message::data, (&m,), data),
        call_ensures(Message::text, (&m,), t),
    ensures
        data is Err,
        t@.len() == 0,
{
}

/// Options start with nothing attached, and each setter sets one thing.
pub proof fn options_keep_what_they_are_given(
    o: PublishOptions,
    d: PublishOptions,
    any: PublishOptions,
    key: &str,
    keyed: PublishOptions,
    k: &str,
    v: &str,
    attributed: PublishOptions,
)
    requires
        call_ensures(PublishOptions::new, (), o),
        call_ensures(PublishOptions::default, (), d),
        call_ensures(PublishOptions::ordering_key, (any, key), keyed),
        call_ensures(PublishOptions::attribute, (any, k, v), attributed),
    ensures
        given(o.ordering_key) is None && o.attributes@ == Map::<Seq<char>, Seq<char>>::empty(),
        given(d.ordering_key) is None && d.attributes@ == Map::<Seq<char>, Seq<char>>::empty(),
        given(keyed.ordering_key) == Some(key@) && keyed.attributes@ == any.attributes@,
        given(attributed.ordering_key) == given(any.ordering_key),
        attributed.attributes@ == any.attributes@.insert(k@, v@),
{
}

/// What is held to bounds passes exactly where it is within them: topic names, payloads, attributes,
/// options and policies.
pub proof fn bounds_are_held(
    topic: &str,
    a: Result<(), PubSubError>,
    payload: &[u8],
    b: Result<(), PubSubError>,
    attrs: Attributes,
    c: Result<(), PubSubError>,
    o: PublishOptions,
    d: Result<(), PubSubError>,
    p: SubscriptionPolicy,
    e: Result<(), PubSubError>,
)
    requires
        attrs@.dom().finite(),
        o.attributes@.dom().finite(),
        call_ensures(message::validate_topic, (topic,), a),
        call_ensures(message::validate_payload, (payload,), b),
        call_ensures(message::validate_attributes, (&attrs,), c),
        call_ensures(PublishOptions::validate, (&o,), d),
        call_ensures(SubscriptionPolicy::validate, (&p,), e),
    ensures
        a is Ok <==> 1 <= topic@.len() <= 200 && forall|i: int|
            0 <= i < topic@.len() ==> {
                let n = (#[trigger] topic@[i]) as int;
                65 <= n <= 90 || 97 <= n <= 122 || 48 <= n <= 58 || n == 45 || n == 46 || n == 95
            },
        b is Ok <==> payload@.len() <= 10 * 1024 * 1024,
        c is Ok <==> attrs@.dom().len() <= 100 && forall|k: Seq<char>| #[trigger]
            attrs@.contains_key(k) ==> k.len() > 0 && encode_utf8(k).len() <= 1024 && encode_utf8(
                attrs@[k],
            ).len() <= 1024,
        d is Ok <==> (given(o.ordering_key) matches Some(k) ==> encode_utf8(k).len() <= 1024)
            && o.attributes@.dom().len() <= 100 && forall|k: Seq<char>| #[trigger]
            o.attributes@.contains_key(k) ==> k.len() > 0 && encode_utf8(k).len() <= 1024
                && encode_utf8(o.attributes@[k]).len() <= 1024,
        e is Ok <==> 1 <= p.ack_deadline_secs <= 600,
{
    message::topic_names_are_accepted(topic@);
    message::options_are_accepted(message::OptionsView { ordering_key: None, attributes: attrs@ });
    message::options_are_accepted(o@);
}

/// The mesh names of a topic all end with it, no two of them are the same, and those of two topics are
/// not either; the dead-letter topic is the topic with `.dlq` behind it.
pub proof fn names_tell_kind_and_topic(
    topic: &str,
    a: String,
    b: String,
    c: String,
    d: String,
    e: String,
    f: String,
    other: &str,
    other_a: String,
)
    requires
        call_ensures(message::log_name, (topic,), a),
        call_ensures(message::live_topic, (topic,), b),
        call_ensures(message::ingest_topic, (topic,), c),
        call_ensures(message::control_topic, (topic,), d),
        call_ensures(message::subs_log_name, (topic,), e),
        call_ensures(message::dead_letter_topic, (topic,), f),
        call_ensures(message::log_name, (other,), other_a),
    ensures
        a@ != b@ && a@ != c@ && a@ != d@ && a@ != e@ && b@ != c@ && b@ != d@ && b@ != e@ && c@ != d@
            && c@ != e@ && d@ != e@,
        a@.skip(a@.len() - topic@.len()) == topic@,
        b@.skip(b@.len() - topic@.len()) == topic@,
        c@.skip(c@.len() - topic@.len()) == topic@,
        d@.skip(d@.len() - topic@.len()) == topic@,
        e@.skip(e@.len() - topic@.len()) == topic@,
        f@ == topic@ + seq!['.', 'd', 'l', 'q'],
        a@ == other_a@ ==> topic@ == other@,
{
    let t = topic@;
    message::mesh_names_end_with_their_topic(message::MeshName::Log, t);
    message::mesh_names_end_with_their_topic(message::MeshName::Live, t);
    message::mesh_names_end_with_their_topic(message::MeshName::Ingest, t);
    message::mesh_names_end_with_their_topic(message::MeshName::Control, t);
    message::mesh_names_end_with_their_topic(message::MeshName::Subs, t);
    lemma_kinds_differ(t, message::MeshName::Log, message::MeshName::Live);
    lemma_kinds_differ(t, message::MeshName::Log, message::MeshName::Ingest);
    lemma_kinds_differ(t, message::MeshName::Log, message::MeshName::Control);
    lemma_kinds_differ(t, message::MeshName::Log, message::MeshName::Subs);
    lemma_kinds_differ(t, message::MeshName::Live, message::MeshName::Ingest);
    lemma_kinds_differ(t, message::MeshName::Live, message::MeshName::Control);
    lemma_kinds_differ(t, message::MeshName::Live, message::MeshName::Subs);
    lemma_kinds_differ(t, message::MeshName::Ingest, message::MeshName::Control);
    lemma_kinds_differ(t, message::MeshName::Ingest, message::MeshName::Subs);
    lemma_kinds_differ(t, message::MeshName::Control, message::MeshName::Subs);
    reveal_strlit(".dlq");
    assert(".dlq"@ =~= seq!['.', 'd', 'l', 'q']);
    if a@ == other_a@ {
        message::mesh_names_are_distinct(
            message::MeshName::Log,
            t,
            message::MeshName::Log,
            other@,
        );
    }
}

proof fn lemma_kinds_differ(t: Seq<char>, a: message::MeshName, b: message::MeshName)
    requires
        a != b,
    ensures
        message::mesh_name(a, t) != message::mesh_name(b, t),
{
    if message::mesh_name(a, t) == message::mesh_name(b, t) {
        message::mesh_names_are_distinct(a, t, b, t);
    }
}

/// A filter matches exactly where each of its clauses names an attribute of the message that has its
/// value; one without clauses matches everything, and says that it has none.
pub proof fn filters_match_by_every_clause(
    any: AttributeFilter,
    d: AttributeFilter,
    f: AttributeFilter,
    key: &str,
    value: &str,
    g: AttributeFilter,
    m: Message,
    by_any: bool,
    by_f: bool,
    by_g: bool,
    any_empty: bool,
    g_empty: bool,
)
    requires
        call_ensures(AttributeFilter::any, (), any),
        call_ensures(AttributeFilter::default, (), d),
        call_ensures(AttributeFilter::require, (f, key, value), g),
        call_ensures(AttributeFilter::matches, (&any, &m), by_any),
        call_ensures(AttributeFilter::matches, (&f, &m), by_f),
        call_ensures(AttributeFilter::matches, (&g, &m), by_g),
        call_ensures(AttributeFilter::is_empty, (&any,), any_empty),
        call_ensures(AttributeFilter::is_empty, (&g,), g_empty),
    ensures
        by_any,
        d@ == any@,
        by_g <==> by_f && m.attributes@.contains_key(key@) && m.attributes@[key@] == value@,
        any_empty,
        !g_empty,
{
    filter::clauses_are_joined_by_and(f@, key@, value@, m.attributes@);
}

/// A filter parses exactly where it is clauses in the compact form, and to these clauses.
pub proof fn filters_parse_to_their_clauses(
    s: &str,
    rs: Seq<filter::Rendering>,
    trail: Seq<char>,
    r: Result<AttributeFilter, PubSubError>,
)
    requires
        call_ensures(AttributeFilter::parse, (s,), r),
    ensures
        filter::writes(s@, rs, trail) ==> (r matches Ok(f) && f@ == rs.map_values(
            |x: filter::Rendering| (x.key, x.value),
        )),
        r matches Ok(f) ==> exists|qs: Seq<filter::Rendering>, end: Seq<char>| #[trigger]
            filter::writes(s@, qs, end) && f@ == qs.map_values(
                |x: filter::Rendering| (x.key, x.value),
            ),
{
    if filter::writes(s@, rs, trail) {
        filter::rendered_filter_parses(s@, rs, trail);
        assert(filter::clauses_of(rs) =~= rs.map_values(|x: filter::Rendering| (x.key, x.value)));
    }
    if let Ok(f) = r {
        filter::parsed_filter_was_rendered(s@);
        let (qs, end) = choose|qs: Seq<filter::Rendering>, end: Seq<char>| #[trigger]
            filter::writes(s@, qs, end) && filter::clauses_of(qs) == f@;
        assert(filter::writes(s@, qs, end));
        assert(filter::clauses_of(qs) =~= qs.map_values(
            |x: filter::Rendering| (x.key, x.value),
        ));
    }
}

/// An appended message can be looked up under the next cursor, with all that it was appended with, and
/// is what a pull from the cursor before it gives; the log counts one message more and keeps all others.
pub proof fn appended_message_is_replayed(
    l: &mut TopicLog,
    m: Message,
    n: Cursor,
    at: Cursor,
    got: Option<Message>,
    old_at: Cursor,
    old_got: Option<Message>,
    new_got: Option<Message>,
    tail: Vec<Message>,
    high: Cursor,
    low: Cursor,
    count: usize,
    before: usize,
)
    requires
        old(l)@.contiguous(),
        old(l)@.high() < u64::MAX,
        call_ensures(TopicLog::next_cursor, (&*old(l),), n),
        call_ensures(TopicLog::len, (&*old(l),), before),
        call_ensures(TopicLog::get, (&*old(l), old_at), old_got),
        call_ensures(TopicLog::apply, (l, LogOp::Append(m)), ()),
        call_ensures(TopicLog::get, (&*final(l), n), got),
        call_ensures(TopicLog::get, (&*final(l), old_at), new_got),
        call_ensures(TopicLog::since, (&*final(l), (n - 1) as u64), tail),
        call_ensures(TopicLog::high_cursor, (&*final(l),), high),
        call_ensures(TopicLog::floor, (&*final(l),), low),
        call_ensures(TopicLog::len, (&*final(l),), count),
    ensures
        got matches Some(x) && x@ == (message::MessageView { cursor: n, ..m@ }),
        tail@.len() == 1 && tail@[0]@ == (message::MessageView { cursor: n, ..m@ }),
        high == n,
        count == before + 1,
        high == low + count,
        old_got matches Some(x) ==> (new_got matches Some(y) && x@ == y@ && x.cursor == old_at),
{
    let a = old(l)@;
    let b = final(l)@;
    log::cursors_stay_contiguous(a, log::LogOpView::Append(m@));
    log::since_is_the_strict_tail(b, (n - 1) as u64);
    assert(b.messages.len() == a.messages.len() + 1);
    assert(log::views(tail@).len() == tail@.len());
    assert(log::views(tail@)[0] == tail@[0]@);
}

/// Pruning drops exactly the messages up to a cursor: what is above it can still be looked up as it was,
/// what is not cannot, and the highest cursor stays.
pub proof fn pruned_messages_are_gone(
    l: &mut TopicLog,
    up_to: Cursor,
    c: Cursor,
    was: Option<Message>,
    is: Option<Message>,
    high: Cursor,
    still: Cursor,
)
    requires
        old(l)@.contiguous(),
        old(l)@.high() <= u64::MAX,
        call_ensures(TopicLog::get, (&*old(l), c), was),
        call_ensures(TopicLog::high_cursor, (&*old(l),), high),
        call_ensures(TopicLog::apply, (l, LogOp::PruneTo(up_to)), ()),
        call_ensures(TopicLog::get, (&*final(l), c), is),
        call_ensures(TopicLog::high_cursor, (&*final(l),), still),
    ensures
        is is Some <==> was is Some && c > up_to,
        is matches Some(x) ==> was->0@ == x@,
        still == high,
{
    log::prune_drops_a_prefix(old(l)@, up_to);
    log::high_cursor_never_falls(old(l)@, log::LogOpView::PruneTo(up_to));
}

/// A topic starts empty, and a log that is saved and loaded is the same log.
pub proof fn logs_are_kept(
    d: TopicLog,
    high: Cursor,
    none: bool,
    l: TopicLog,
    s: LogSnapshot,
    r: Result<TopicLog, PubSubError>,
    all: Vec<Message>,
    i: int,
)
    requires
        call_ensures(TopicLog::default, (), d),
        call_ensures(TopicLog::high_cursor, (&d,), high),
        call_ensures(TopicLog::is_empty, (&d,), none),
        l@.high() <= u64::MAX,
        call_ensures(TopicLog::save, (&l,), s),
        call_ensures(TopicLog::load, (&s,), r),
        call_ensures(TopicLog::all, (&l,), all),
    ensures
        high == 0 && none,
        r matches Ok(x) && x@ == l@,
        all@.len() == s.messages@.len(),
        0 <= i < all@.len() ==> all@[i]@ == s.messages@[i]@,
{
    assert(log::views(all@).len() == all@.len());
    assert(log::views(s.messages@).len() == s.messages@.len());
    if 0 <= i < all@.len() {
        assert(log::views(all@)[i] == all@[i]@);
        assert(log::views(s.messages@)[i] == s.messages@[i]@);
    }
}

/// An outcome that is recorded is found under its key until it is older than the time to live, and not
/// after that; recording and looking up leave what is recorded under another key, but that a full cache
/// loses its oldest.
pub proof fn recorded_outcomes_are_found(
    c: &mut IdempotencyCache,
    key: String,
    seen: Seen,
    at: u64,
    other: Seq<char>,
)
    requires
        old(c)@.wf(),
        call_ensures(IdempotencyCache::insert, (c, key, seen, at), ()),
    ensures
        final(c)@.entries.contains_key(key@) && final(c)@.entries[key@] == (seen, at),
        other != key@ && final(c)@.entries.contains_key(other) ==> old(c)@.entries.contains_key(other)
            && final(c)@.entries[other] == old(c)@.entries[other],
        old(c)@.entries.contains_key(key@) ==> final(c)@.order == old(c)@.order,
        old(c)@.entries.contains_key(other) && !final(c)@.entries.contains_key(other)
            ==> !old(c)@.entries.contains_key(key@) && old(c)@.order.len() == old(c)@.capacity
            && other == old(c)@.order[0],
        !old(c)@.entries.contains_key(key@) ==> final(c)@.order.last() == key@,
        final(c)@.capacity == old(c)@.capacity && final(c)@.ttl_secs == old(c)@.ttl_secs,
{
    crate::dedup::insertion_sets_one_key(old(c)@, key@, (seen, at), other);
}

/// A lookup gives what was recorded under the key, unless it is older than the time to live; what has
/// expired is dropped, and nothing else.
pub proof fn lookups_give_what_was_recorded(
    c: &mut IdempotencyCache,
    key: &str,
    now: u64,
    r: Option<Seen>,
    other: Seq<char>,
)
    requires
        old(c)@.wf(),
        call_ensures(IdempotencyCache::get, (c, key, now), r),
    ensures
        ({
            let known = old(c)@.entries.contains_key(key@);
            let (seen, at) = old(c)@.entries[key@];
            let fresh = old(c)@.ttl_secs == 0 || now <= at + old(c)@.ttl_secs;
            &&& r is Some <==> known && fresh
            &&& r matches Some(s) ==> s == seen
            &&& known && !fresh ==> !final(c)@.entries.contains_key(key@)
            &&& known && fresh || !known ==> final(c)@ == old(c)@
        }),
        other != key@ ==> final(c)@.entries.contains_key(other) == old(c)@.entries.contains_key(other)
            && (old(c)@.entries.contains_key(other) ==> final(c)@.entries[other]
            == old(c)@.entries[other]),
{
}

/// A token was seen exactly where it was recorded and is not older than the time to live; from then on
/// it is recorded. A token that is forgotten is not recorded any more, and no other is touched.
pub proof fn tokens_are_seen_once(
    s: &mut TokenSet,
    token: u64,
    now: u64,
    b: bool,
    t: &mut TokenSet,
    other: u64,
)
    requires
        old(s)@.wf(),
        old(t)@.wf(),
        call_ensures(TokenSet::seen, (s, token, now), b),
        call_ensures(TokenSet::forget, (t, token), ()),
    ensures
        ({
            let c = old(s)@;
            &&& b <==> c.entries.contains_key(token) && (c.ttl_secs == 0 || now <= c.entries[token]
                + c.ttl_secs)
            &&& b ==> final(s)@ == c
            &&& !b ==> final(s)@.entries.contains_key(token) && final(s)@.entries[token] == now
                && final(s)@.order.last() == token
            &&& final(s)@.capacity == c.capacity && final(s)@.ttl_secs == c.ttl_secs
            &&& !b && other != token && c.entries.contains_key(other) && other != c.order[0]
                ==> final(s)@.entries.contains_key(other) && final(s)@.entries[other]
                == c.entries[other]
            &&& !b && other != token && final(s)@.entries.contains_key(other)
                ==> c.entries.contains_key(other) && final(s)@.entries[other] == c.entries[other]
            &&& !b && other != token && c.entries.contains_key(other) && c.order.len() < c.capacity
                ==> final(s)@.entries.contains_key(other)
        }),
        !final(t)@.entries.contains_key(token),
        other != token ==> final(t)@.entries.contains_key(other) == old(t)@.entries.contains_key(other)
            && (old(t)@.entries.contains_key(other) ==> final(t)@.entries[other]
            == old(t)@.entries[other]),
{
    let c = old(s)@;
    if !b {
        let r = c.removed(token);
        crate::dedup::removal_keeps_wf(c, token);
        crate::dedup::insertion_sets_one_key(r, token, now, other);
        lemma_removed_shape(c, token);
        if other != token && c.entries.contains_key(other) {
            assert(c.order.to_set().contains(other));
        }
    }
}

/// What a cache without one of its keys looks like.
proof fn lemma_removed_shape(c: crate::dedup::FifoView<u64, u64>, k: u64)
    requires
        c.wf(),
    ensures
        c.removed(k).order.len() <= c.order.len(),
        c.removed(k).order.len() == c.capacity ==> c.removed(k).order == c.order,
{
    crate::dedup::removal_keeps_wf(c, k);
    if c.entries.contains_key(k) {
        assert(c.order.to_set().contains(k));
        let i = choose|i: int| 0 <= i < c.order.len() && c.order[i] == k;
        crate::dedup::removal_takes_one_key(c, i, k);
    } else {
        assert(!c.order.contains(k)) by {
            assert(c.order.to_set().contains(k) == c.entries.dom().contains(k));
        }
        crate::dedup::removal_of_a_missing_key(c, k);
    }
}

/// New caches are empty, with the capacity asked for, at least 1, and the time to live asked for.
pub proof fn new_caches_are_empty(
    capacity: usize,
    ttl: u64,
    c: IdempotencyCache,
    s: TokenSet,
    key: Seq<char>,
    token: u64,
)
    requires
        call_ensures(IdempotencyCache::new, (capacity, ttl), c),
        call_ensures(TokenSet::new, (capacity, ttl), s),
    ensures
        !c@.entries.contains_key(key) && !s@.entries.contains_key(token),
        c@.ttl_secs == ttl && s@.ttl_secs == ttl,
        capacity > 0 ==> c@.capacity == capacity && s@.capacity == capacity,
        capacity == 0 ==> c@.capacity == 1 && s@.capacity == 1,
{
}

/// Node ids read back from their hex, with white space around it, and what is no node id is refused.
pub proof fn node_ids_read_back(
    s: &str,
    r: Result<NodeId, PubSubError>,
    pre: Seq<char>,
    id: NodeId,
    post: Seq<char>,
    other: NodeId,
    same: bool,
)
    requires
        call_ensures(node_id::parse_node_id, (s,), r),
        text::all_spaces(pre),
        text::all_spaces(post),
        call_ensures(node_id::same_id, (&id, &other), same),
    ensures
        s@ == pre + hexcodec::hex_text(id@) + post ==> (r matches Ok(x) && x@ == id@),
        encode_utf8(text::trimmed(s@)).len() != 64 ==> r is Err,
        same <==> id@ == other@,
{
    node_id::white_space_around_a_node_id_is_dropped(pre, id@, post);
    node_id::node_ids_are_recognized(s@);
}

/// A link grants one ability on one scope to one holder, for the owner's topics, until its time; what it
/// grants is what inspection of a chain that ends with it tells.
pub proof fn links_grant_what_they_are_minted_for(
    owner: NodeId,
    audience: NodeId,
    ability: &str,
    scope: &str,
    not_after: u64,
    nonce: u64,
    t: LinkTerms,
    chain: Vec<Link>,
    r: Result<(Vec<String>, String), PubSubError>,
    why: String,
    e: Result<(Vec<String>, String), PubSubError>,
)
    requires
        call_ensures(caps::mint_link, (owner, audience, ability, scope, not_after, nonce), t),
        call_ensures(caps::inspect_link, (Ok(chain),), r),
        call_ensures(caps::inspect_link, (Err(why),), e),
    ensures
        t.audience == audience && t.resource == owner && t.not_after == not_after && t.nonce == nonce,
        t.abilities@.len() == 1 && t.abilities@[0]@ == ability@ && given(t.path_prefix) == Some(scope@),
        r is Ok <==> chain@.len() > 0,
        r matches Ok((abilities, told)) ==> {
            let last = chain@.last();
            &&& abilities@.len() == last.abilities@.len()
            &&& forall|i: int|
                0 <= i < abilities@.len() ==> (#[trigger] abilities@[i])@ == last.abilities@[i]@
            &&& last.path_prefix matches Some(p) ==> told@ == p@
            &&& last.path_prefix is None ==> told@.len() == 0
        },
        e is Err,
{
    if let Ok((abilities, told)) = r {
        let last = chain@.last();
        let f = |a: String| a@;
        assert(abilities@.map_values(f).len() == last.abilities@.map_values(f).len());
        assert forall|i: int| 0 <= i < abilities@.len() implies (#[trigger] abilities@[i])@
            == last.abilities@[i]@ by {
            assert(abilities@.map_values(f)[i] == last.abilities@.map_values(f)[i]);
        }
    }
}

/// A scope covers the topics that start with it; a link is honored exactly where its chain decodes to
/// links of which the last one's scope covers the topic and the capability system honored it.
pub proof fn links_are_verified(
    scope: &str,
    topic: &str,
    b: bool,
    chain: Result<Vec<Link>, String>,
    verdict: Result<(), String>,
    r: Result<(), String>,
)
    requires
        call_ensures(caps::topic_allows, (scope, topic), b),
        call_ensures(caps::verify_link, (chain, verdict, topic), r),
    ensures
        b <==> exists|rest: Seq<char>| topic@ == #[trigger] (scope@ + rest),
        r is Ok <==> verdict is Ok && (chain matches Ok(links) && links@.len() > 0 && (
        links@.last().path_prefix matches Some(s) && s@.len() <= topic@.len() && topic@.subrange(
            0,
            s@.len() as int,
        ) == s@)),
{
    text::prefixes_are_followed_by_the_rest(topic@, scope@);
    caps::links_are_honored(caps::chain_view(chain), caps::verdict_view(verdict), topic@);
    if let Ok(links) = chain {
        if links@.len() > 0 {
            assert(links@.map_values(|l: Link| l@).last() == links@.last()@);
        }
    }
}

/// An accepted root is listed once, behind the others, and none leaves; a text that is no node id changes
/// nothing.
pub proof fn roots_are_accepted_once(
    roots: &mut Vec<NodeId>,
    root: &str,
    r: Result<(), PubSubError>,
    i: int,
)
    requires
        call_ensures(caps::accept_root, (roots, root), r),
    ensures
        r is Ok <==> node_id::id_fault(root@) is None,
        r is Ok ==> exists|j: int|
            0 <= j < final(roots)@.len() && (#[trigger] final(roots)@[j])@ == node_id::id_bytes(root@),
        old(roots)@.len() <= final(roots)@.len() <= old(roots)@.len() + 1,
        0 <= i < old(roots)@.len() ==> final(roots)@[i]@ == old(roots)@[i]@,
        0 <= i < old(roots)@.len() && old(roots)@[i]@ == node_id::id_bytes(root@)
            ==> final(roots)@.len() == old(roots)@.len(),
        r is Err ==> final(roots)@.len() == old(roots)@.len(),
{
    let before = caps::ids(old(roots)@);
    let after = caps::ids(final(roots)@);
    let id = node_id::id_bytes(root@);
    assert(before.len() == old(roots)@.len() && after.len() == final(roots)@.len());
    if 0 <= i < old(roots)@.len() {
        assert(before[i] == old(roots)@[i]@);
        assert(after[i] == final(roots)@[i]@);
        assert(before.contains(before[i]));
    }
    if r is Ok {
        if before.contains(id) {
            let j = choose|j: int| 0 <= j < before.len() && before[j] == id;
            assert(after[j] == final(roots)@[j]@);
        } else {
            let j = before.len() as int;
            assert(after[j] == final(roots)@[j]@);
        }
    }
}

/// A link is revoked exactly where the chain lists it under its issuer's node id and its number; where
/// the list cannot be had there is none.
pub proof fn revoked_links_are_known(
    listed: Vec<(String, u64)>,
    r: Result<Vec<(NodeId, u64)>, String>,
    v: &Vec<(NodeId, u64)>,
    why: String,
    e: Result<Vec<(NodeId, u64)>, String>,
    issuer: &NodeId,
    nonce: u64,
    b: bool,
)
    requires
        call_ensures(caps::revoked_links, (Ok(listed),), r),
        call_ensures(caps::revoked_links, (Err(why),), e),
        r == Ok::<Vec<(NodeId, u64)>, String>(*v),
        call_ensures(caps::is_revoked, (v, issuer, nonce), b),
    ensures
        b <==> exists|i: int|
            0 <= i < listed@.len() && node_id::id_fault((#[trigger] listed@[i]).0@) is None
                && node_id::id_bytes(listed@[i].0@) == issuer@ && listed@[i].1 == nonce,
        e is Err,
{
    let seen = v@.map_values(|x: (NodeId, u64)| caps::revocation(x));
    caps::listed_links_are_revoked(listed@, issuer@, nonce);
    assert(seen =~= caps::revocations(listed@));
}

/// A frame on the topic that is wanted is taken up under its reply token, and no other frame is.
pub proof fn frames_on_the_topic_are_taken_up(
    topic: &str,
    wanted: &str,
    token: Option<u64>,
    r: Option<u64>,
)
    requires
        call_ensures(protocol::request_token, (topic, wanted, token), r),
    ensures
        topic@ == wanted@ ==> r == token,
        topic@ != wanted@ ==> r is None,
{
}

/// Bodies and requests pass exactly within their bounds; a frame gives back the body that it was made of.
pub proof fn wire_bounds_are_held(
    bytes: &[u8],
    a: Result<(), PubSubError>,
    b: Result<(), PubSubError>,
    c: Result<(), PubSubError>,
    d: Result<(), PubSubError>,
    req: IngestRequest,
    e: Result<(), PubSubError>,
    frame: &str,
    body: Seq<u8>,
    f: Result<Vec<u8>, PubSubError>,
    g: Result<Vec<u8>, ControlReply>,
)
    requires
        call_ensures(IngestRequest::check_body, (bytes,), a),
        call_ensures(IngestReply::check_body, (bytes,), b),
        call_ensures(ControlRequest::check_body, (bytes,), c),
        call_ensures(ControlReply::check_body, (bytes,), d),
        call_ensures(IngestRequest::check, (&req,), e),
        frame@ == hexcodec::hex_text(body),
        call_ensures(IngestRequest::body_of_hex, (frame,), f),
        call_ensures(control::control_body, (frame,), g),
    ensures
        a is Ok <==> bytes@.len() <= 2 * 10 * 1024 * 1024 + 64 * 1024,
        b is Ok <==> bytes@.len() <= 2 * 10 * 1024 * 1024 + 64 * 1024,
        c is Ok <==> bytes@.len() <= 64 * 1024,
        d is Ok <==> bytes@.len() <= 2 * 10 * 1024 * 1024 + 64 * 1024,
        e is Ok <==> encode_utf8(req.payload_hex@).len() <= 2 * 10 * 1024 * 1024 + 64 * 1024 && (given(
            req.idempotency_key,
        ) matches Some(k) ==> encode_utf8(k).len() <= 256),
        f is Ok <==> body.len() <= 2 * 10 * 1024 * 1024 + 64 * 1024,
        f matches Ok(x) ==> x@ == body,
        g is Ok <==> body.len() <= 64 * 1024,
        g matches Ok(x) ==> x@ == body,
{
    protocol::frame_bound_is_the_body_bound(body);
    hexcodec::hex_round_trips(body);
    control::control_bodies_are_admitted(body);
}

/// What is no hex is refused, as a publish and as a control request.
pub proof fn frames_that_are_no_hex_are_refused(
    frame: &str,
    f: Result<Vec<u8>, PubSubError>,
    g: Result<Vec<u8>, ControlReply>,
)
    requires
        hexcodec::hex_fault(encode_utf8(frame@)) is Some,
        call_ensures(IngestRequest::body_of_hex, (frame,), f),
        call_ensures(control::control_body, (frame,), g),
    ensures
        f is Err,
        g matches Err(ControlReply::Rejected(_)),
{
}

/// The token of a control request is the one that it was made with.
pub proof fn control_requests_give_their_token(
    name: String,
    policy: SubscriptionPolicy,
    max_messages: usize,
    cursor: Cursor,
    grant: Option<String>,
    req: ControlRequest,
    g: Option<&str>,
)
    requires
        req == (ControlRequest::CreateSubscription { name, policy, grant }) || req == (
        ControlRequest::DeleteSubscription { name, grant }) || req == (
        ControlRequest::ListSubscriptions { grant }) || req == (ControlRequest::HighCursor { grant })
            || req == (ControlRequest::Pull { name, max_messages, grant }) || req == (
        ControlRequest::Ack { name, cursor, grant }) || req == (ControlRequest::Nack {
            name,
            cursor,
            grant,
        }),
        call_ensures(ControlRequest::grant, (&req,), g),
    ensures
        lent(g) == given(grant),
{
}

/// A page of a replica holds, as they stand in the log, the messages after the cursor that was asked for,
/// up to the limit; what it tells besides is the state of the replica, and each accessor tells its part.
pub proof fn pages_are_read_from_the_log(
    l: TopicLog,
    from: Cursor,
    limit: usize,
    target: Option<Cursor>,
    converged: bool,
    p: Replay,
    i: int,
)
    requires
        l@.contiguous(),
        l@.high() <= u64::MAX,
        call_ensures(Replay::page, (&l, from, limit, target, converged), p),
    ensures
        ({
            let high = l@.floor + l@.messages.len();
            let first = if from <= l@.floor {
                0
            } else if from <= high {
                from - l@.floor
            } else {
                l@.messages.len() as int
            };
            let available = l@.messages.len() - first;
            let n = p.messages@.len();
            &&& n <= limit && n <= 100_000 && n <= available
            &&& n == limit || n == 100_000 || n == available
            &&& 0 <= i < n ==> p.messages@[i]@ == l@.messages[first + i] && p.messages@[i].cursor > from
            &&& p.truncated <==> n < available
            &&& !p.truncated ==> p.next == high
            &&& p.truncated && n > 0 ==> p.next == p.messages@[n - 1].cursor
            &&& p.truncated && n == 0 ==> p.next == from
            &&& p.high == high && p.floor == l@.floor && p.target == target && p.converged == converged
            &&& target is None ==> p.missing == 0
            &&& target matches Some(t) ==> p.missing == if t > high {
                t - high
            } else {
                0
            }
        }),
{
    replay::page_holds_the_messages_after_the_cursor(l@, from, limit, target, converged);
    replay::page_tells_the_state_of_the_replica(l@, from, limit, target, converged);
    let v = log::views(p.messages@);
    let n = p.messages@.len();
    assert(v.len() == n);
    if 0 <= i < n {
        assert(v[i] == p.messages@[i]@);
    }
    if n > 0 {
        assert(v[n - 1] == p.messages@[n - 1]@);
        assert(p@.messages[n - 1].cursor == p.messages@[n - 1].cursor);
    }
}

/// Each accessor of a replay tells its part.
pub proof fn replays_tell_their_parts(
    p: Replay,
    messages: &[Message],
    taken: Vec<Message>,
    high: Cursor,
    next: Cursor,
    target: Option<Cursor>,
    converged: bool,
    truncated: bool,
    floor: Cursor,
    missing: u64,
    n: usize,
    none: bool,
)
    requires
        call_ensures(Replay::messages, (&p,), messages),
        call_ensures(Replay::into_messages, (p,), taken),
        call_ensures(Replay::high_cursor, (&p,), high),
        call_ensures(Replay::next_cursor, (&p,), next),
        call_ensures(Replay::target, (&p,), target),
        call_ensures(Replay::converged, (&p,), converged),
        call_ensures(Replay::truncated, (&p,), truncated),
        call_ensures(Replay::floor, (&p,), floor),
        call_ensures(Replay::missing, (&p,), missing),
        call_ensures(Replay::len, (&p,), n),
        call_ensures(Replay::is_empty, (&p,), none),
    ensures
        messages@ == p.messages@ && taken@ == p.messages@,
        high == p.high && next == p.next && target == p.target && converged == p.converged,
        truncated == p.truncated && floor == p.floor && missing == p.missing,
        n == p.messages@.len() && none == (p.messages@.len() == 0),
{
    assert(log::views(p.messages@).len() == p.messages@.len());
}

/// With a known target a look stops exactly where the target is reached or the deadline has passed, and
/// counts as converged exactly where it is reached.
pub proof fn looks_wait_for_the_target(
    t: Cursor,
    start: u64,
    begun: (Convergence, u64),
    high: Cursor,
    version: u64,
    expired: bool,
    r: (Convergence, ConvergeStep),
)
    requires
        call_ensures(Convergence::start, (Some(t), start), begun),
        call_ensures(Convergence::look, (begun.0, high, version, expired), r),
    ensures
        begun.1 == 0,
        r.0 == begun.0,
        r.1 is Stop <==> high >= t || expired,
        r.1 matches ConvergeStep::Stop { converged } ==> converged == (high >= t),
        r.1 matches ConvergeStep::Wait { millis } ==> millis == 100,
{
}

/// Without a target a look stops exactly where the deadline has passed or the version has stood still for
/// two looks, and never counts as converged.
pub proof fn looks_wait_for_quiet(
    start: u64,
    begun: (Convergence, u64),
    a: (Cursor, u64, bool),
    b: (Cursor, u64, bool),
    c: (Cursor, u64, bool),
    first: (Convergence, ConvergeStep),
    second: (Convergence, ConvergeStep),
    third: (Convergence, ConvergeStep),
)
    requires
        call_ensures(Convergence::start, (None, start), begun),
        call_ensures(Convergence::look, (begun.0, a.0, a.1, a.2), first),
        call_ensures(Convergence::look, (first.0, b.0, b.1, b.2), second),
        call_ensures(Convergence::look, (second.0, c.0, c.1, c.2), third),
    ensures
        begun.1 == 150,
        first.1 is Stop <==> a.2,
        second.1 is Stop <==> b.2 || (start == a.1 && a.1 == b.1),
        third.1 is Stop <==> c.2 || (a.1 == b.1 && b.1 == c.1),
        first.1 matches ConvergeStep::Stop { converged } ==> !converged,
        second.1 matches ConvergeStep::Stop { converged } ==> !converged,
        third.1 matches ConvergeStep::Stop { converged } ==> !converged,
        third.1 matches ConvergeStep::Wait { millis } ==> millis == 150,
{
}

/// A lease that is planned and applied hands out messages that wait, each under the number that follows
/// its deliveries so far, and holds each for the ack deadline; it dead-letters those that were delivered
/// as often as allowed. Nothing is planned only where no message waits or none is asked for.
pub proof fn leases_are_planned_and_held(
    reg: &mut SubRegistry,
    name: &str,
    high: Cursor,
    floor: Cursor,
    now: u64,
    max: usize,
    r: Option<(SubOp, LeaseOutcome)>,
    c: Cursor,
)
    requires
        old(reg)@.contains_key(name@),
        subscription::plan_fits(old(reg)@, name@, high, floor, now, max as nat),
        call_ensures(SubRegistry::plan_lease, (&*old(reg), name, high, floor, now, max), r),
        r matches Some((op, _)) ==> call_ensures(SubRegistry::apply, (reg, op), ()),
    ensures
        r is None ==> max == 0 || !subscription_laws::waits(
            old(reg)@[name@],
            c,
            high,
            floor,
            now,
        ),
        r matches Some((op, out)) ==> {
            let s = old(reg)@[name@];
            let t = final(reg)@[name@];
            let waiting = subscription_laws::waits(s, c, high, floor, now);
            let done = s.policy.max_delivery_attempts != 0 && subscription_laws::recorded_attempts(
                s,
                c,
            ) >= s.policy.max_delivery_attempts;
            &&& out.leased@.len() <= max && out.leased@.len() <= 1000
            &&& forall|k: u32| #[trigger]
                out.leased@.contains((c, k)) ==> {
                    &&& waiting && !done
                    &&& k == subscription_laws::recorded_attempts(s, c) + 1
                    &&& t.attempts.contains_key(c) && t.attempts[c] == k
                    &&& t.leases.contains_key(c)
                    &&& 1 <= s.policy.ack_deadline_secs <= 600 && now + s.policy.ack_deadline_secs
                        <= u64::MAX ==> t.leases[c].expires_at == now + s.policy.ack_deadline_secs
                }
            &&& out.dead_lettered@.contains(c) ==> waiting && done && !t.leases.contains_key(c) && (c
                <= t.acked || t.dead.contains(c))
            &&& waiting && out.leased@.len() < max && out.leased@.len() < 1000 ==> if done {
                out.dead_lettered@.contains(c)
            } else {
                exists|k: u32| #[trigger] out.leased@.contains((c, k))
            }
            &&& t.policy == s.policy && t.acked >= s.acked
        },
{
    let s = old(reg)@[name@];
    let plan = s.plan(high, floor, now, max as nat);
    subscription_laws::lease_takes_the_first_that_wait(s, high, floor, now, max as nat, c);
    if let Some((op, out)) = r {
        subscription_laws::planned_lease_takes_effect(
            old(reg)@,
            name@,
            high,
            floor,
            now,
            max as nat,
            r,
            c,
        );
        subscription_laws::applied_lease_takes_effect(s, high, floor, now, max as nat, c);
        assert(out.leased@.len() == plan.leased.len());
        assert forall|k: u32| #[trigger] out.leased@.contains((c, k)) implies plan.leased.contains(
            c,
        ) by {
            let j = choose|j: int| 0 <= j < out.leased@.len() && out.leased@[j] == (c, k);
            assert(j < plan.leased.len() && plan.leased[j] == c);
        }
        if plan.leased.contains(c) {
            let j = choose|j: int| 0 <= j < plan.leased.len() && plan.leased[j] == c;
            let k = (s.attempts_of(c) + 1) as u32;
            assert(out.leased@[j] == (c, k));
            assert(out.leased@.contains((c, k)));
        }
    } else {
        subscription_laws::lease_takes_the_first_that_wait(s, high, floor, now, max as nat, c);
    }
}

/// A lease can be planned unless a counter is at its end, and is then planned as by the call that asks
/// for no such counter.
pub proof fn leases_can_be_planned(
    reg: SubRegistry,
    name: &str,
    high: Cursor,
    floor: Cursor,
    now: u64,
    max: usize,
    r: Option<Option<(SubOp, LeaseOutcome)>>,
)
    requires
        high < 0xffff_ffff_ffff_ffff,
        floor <= high,
        reg@.contains_key(name@) ==> subscription_laws::within(reg@[name@], high) && forall|c: Cursor|
            #[trigger] reg@[name@].attempts.contains_key(c) ==> reg@[name@].attempts[c] < 0xffff_ffff,
        call_ensures(SubRegistry::try_plan_lease, (&reg, name, high, floor, now, max), r),
    ensures
        r is Some,
        subscription::planned(reg@, name@, high, floor, now, max as nat, r->0),
        !reg@.contains_key(name@) ==> r->0 is None,
{
    subscription_laws::lease_can_be_planned(reg@, name@, high, floor, now, max as nat);
}

/// An ack settles its message and no other, a nack releases it, a creation sets the policy and keeps what
/// was done, a deletion takes the subscription away; no other subscription is touched.
pub proof fn operations_are_applied(
    reg: &mut SubRegistry,
    op: SubOp,
    name: String,
    cursor: Cursor,
    policy: SubscriptionPolicy,
    d: Cursor,
    other: Seq<char>,
    high: Cursor,
    floor: Cursor,
    now: u64,
)
    requires
        call_ensures(SubRegistry::apply, (reg, op), ()),
        op == (SubOp::Ack { name, cursor }) || op == (SubOp::Nack { name, cursor }) || op == (
        SubOp::Create { name, policy }) || op == (SubOp::Delete { name }),
    ensures
        other != name@ ==> final(reg)@.contains_key(other) == old(reg)@.contains_key(other) && (
        old(reg)@.contains_key(other) ==> final(reg)@[other] == old(reg)@[other]),
        op is Delete ==> !final(reg)@.contains_key(name@),
        op is Create ==> final(reg)@.contains_key(name@) && final(reg)@[name@].policy == policy,
        op is Create && !old(reg)@.contains_key(name@) ==> final(reg)@[name@].acked == 0 && (
        subscription_laws::waits(final(reg)@[name@], d, high, floor, now) <==> floor < d <= high),
        op is Create && old(reg)@.contains_key(name@) ==> final(reg)@[name@] == (
        subscription::SubView { policy, ..old(reg)@[name@] }),
        (op is Ack || op is Nack) && !old(reg)@.contains_key(name@) ==> final(reg)@ == old(reg)@,
        (op is Ack || op is Nack) && old(reg)@.contains_key(name@) ==> {
            let s = old(reg)@[name@];
            let t = final(reg)@[name@];
            &&& final(reg)@.contains_key(name@)
            &&& t.policy == s.policy
            &&& d != cursor ==> {
                &&& subscription_laws::waits(t, d, high, floor, now) == subscription_laws::waits(
                    s,
                    d,
                    high,
                    floor,
                    now,
                )
                &&& t.leases.contains_key(d) == s.leases.contains_key(d)
                &&& s.leases.contains_key(d) ==> t.leases[d] == s.leases[d]
                &&& subscription_laws::recorded_attempts(t, d)
                    == subscription_laws::recorded_attempts(s, d)
            }
            &&& op is Ack ==> {
                &&& cursor <= t.acked || t.acked_set.contains(cursor)
                &&& !subscription_laws::waits(t, cursor, high, floor, now)
                &&& !t.leases.contains_key(cursor)
            }
            &&& op is Nack ==> {
                &&& t.acked == s.acked && t.acked_set == s.acked_set && t.dead == s.dead && t.attempts
                    == s.attempts
                &&& subscription_laws::waits(t, cursor, high, floor, now) <==> s.acked < cursor
                    && floor < cursor <= high && !s.acked_set.contains(cursor) && !s.dead.contains(
                    cursor,
                )
            }
        },
{
    let subs = old(reg)@;
    if subs.contains_key(name@) {
        subscription_laws::ack_settles_one_message(subs[name@], cursor, d);
        subscription_laws::ack_settles_one_message(subs[name@], cursor, cursor);
        subscription_laws::nack_releases_one_message(subs[name@], cursor, d, high, floor, now);
    }
    subscription_laws::operations_do_no_more_than_they_say(subs, name@, policy, op@, other);
}

/// What a subscription and a registry tell of themselves is what they hold.
pub proof fn registries_tell_what_they_hold(
    reg: SubRegistry,
    name: &str,
    got: Option<&SubscriptionState>,
    names: Vec<String>,
    n: usize,
    none: bool,
    full: bool,
    d: SubRegistry,
    s: SubscriptionState,
    out: usize,
    dead: Vec<Cursor>,
    pending: Vec<Cursor>,
    new: SubscriptionState,
    other: Seq<char>,
    c: Cursor,
)
    requires
        reg@.dom().finite(),
        call_ensures(SubRegistry::get, (&reg, name), got),
        call_ensures(SubRegistry::names, (&reg,), names),
        call_ensures(SubRegistry::len, (&reg,), n),
        call_ensures(SubRegistry::is_empty, (&reg,), none),
        call_ensures(SubRegistry::at_capacity, (&reg, name), full),
        call_ensures(SubRegistry::default, (), d),
        call_ensures(SubscriptionState::outstanding, (&s,), out),
        call_ensures(SubscriptionState::dead_lettered, (&s,), dead),
        call_ensures(SubscriptionState::pending_acks, (&s,), pending),
        call_ensures(SubscriptionState::new, (), new),
    ensures
        got is Some <==> reg@.contains_key(name@),
        got matches Some(x) ==> x@ == reg@[name@],
        names@.map_values(|k: String| k@).contains(other) <==> reg@.contains_key(other),
        n == reg@.dom().len(),
        none <==> forall|k: Seq<char>| !(#[trigger] reg@.contains_key(k)),
        full <==> !reg@.contains_key(name@) && n >= 10_000,
        !d@.contains_key(other),
        out == s@.leases.dom().len(),
        dead@.contains(c) <==> s@.dead.contains(c),
        pending@.contains(c) <==> s@.acked_set.contains(c),
        forall|i: int, j: int| 0 <= i < j < dead@.len() ==> dead@[i] < dead@[j],
        forall|i: int, j: int| 0 <= i < j < pending@.len() ==> pending@[i] < pending@[j],
        new@.acked == 0 && new@.policy.ack_deadline_secs == 30 && new@.policy.max_delivery_attempts
            == 5,
        !new@.leases.contains_key(c) && !new@.attempts.contains_key(c) && !new@.dead.contains(c)
            && !new@.acked_set.contains(c),
{
    assert(names@.map_values(|k: String| k@).to_set().contains(other) == reg@.dom().contains(other));
    assert(dead@.to_set().contains(c) == s@.dead.contains(c));
    assert(pending@.to_set().contains(c) == s@.acked_set.contains(c));
    if forall|k: Seq<char>| !(#[trigger] reg@.contains_key(k)) {
        assert(reg@ =~= Map::empty());
    }
}

/// A registry that is saved and loaded is the same registry, and the default policy holds a message for 30
/// seconds and allows 5 attempts.
pub proof fn registries_are_kept(
    reg: SubRegistry,
    s: RegistrySnapshot,
    r: SubRegistry,
    p: SubscriptionPolicy,
)
    requires
        call_ensures(SubRegistry::save, (&reg,), s),
        call_ensures(SubRegistry::load, (&s,), r),
        call_ensures(SubscriptionPolicy::default, (), p),
    ensures
        r@ == reg@,
        p.ack_deadline_secs == 30 && p.max_delivery_attempts == 5,
{
}

/// Nothing but a counter at its end keeps an operation from being applied.
pub proof fn ordinary_operations_can_be_applied(
    reg: SubRegistry,
    op: SubOp,
    name: String,
    cursor: Cursor,
    policy: SubscriptionPolicy,
    high: Cursor,
    b: bool,
)
    requires
        call_ensures(SubRegistry::can_apply, (&reg, &op), b),
        op == (SubOp::Ack { name, cursor }) || op == (SubOp::Nack { name, cursor }) || op == (
        SubOp::Create { name, policy }) || op == (SubOp::Delete { name }),
        cursor <= high < 0xffff_ffff_ffff_ffff,
        reg@.contains_key(name@) ==> subscription_laws::within(reg@[name@], high),
    ensures
        b,
{
    subscription_laws::operations_can_be_applied(reg@, op@, high);
}

/// What is published is what is appended, from the publisher's call to the owner's: the request that is
/// built carries the token and the idempotency key, and the message that the owner makes of it carries the
/// payload, the ordering key and the attributes, on an open topic and, once the token was honored, on a
/// gated one.
pub proof fn publishes_arrive(
    topic: &str,
    payload: &[u8],
    grant: Option<&str>,
    opts: PublishOptions,
    key: Option<&str>,
    sent: Result<IngestRequest, PubSubError>,
    req: IngestRequest,
    publisher: &str,
    now: u64,
    gated: bool,
    verdict: Option<Result<(), String>>,
    r: Result<Message, String>,
)
    requires
        call_ensures(client::publish_request, (topic, payload, grant, &opts, key), sent),
        sent == Ok::<IngestRequest, PubSubError>(req),
        verdict == if gated {
            Some(Ok::<(), String>(()))
        } else {
            None
        },
        call_ensures(ingest::accept_ingest, (req, publisher, now, verdict), r),
    ensures
        given(req.grant) == lent(grant),
        given(req.idempotency_key) == lent(key),
        r matches Ok(m) && {
            &&& hexcodec::hex_fault(encode_utf8(m.payload_hex@)) is None
            &&& hexcodec::hex_bytes(encode_utf8(m.payload_hex@)) == payload@
            &&& given(m.ordering_key) == given(opts.ordering_key)
            &&& m.attributes@ == opts.attributes@
            &&& m.publisher@ == publisher@
            &&& m.published_at == now
            &&& m.publisher_authenticated == gated
        },
{
    client::published_message_arrives(
        topic@,
        payload@,
        lent(grant),
        opts@,
        lent(key),
        publisher@,
        now,
        gated,
    );
}

/// A publish whose token was refused appends nothing, whatever else it holds.
pub proof fn refused_publishes_append_nothing(
    req: IngestRequest,
    publisher: &str,
    now: u64,
    why: String,
    r: Result<Message, String>,
    g: Gate,
)
    requires
        call_ensures(ingest::accept_ingest, (req, publisher, now, Some(Err(why))), r),
        call_ensures(ingest::publish_gate, (&req, true), g),
    ensures
        r matches Err(e) && e@ == why@,
        given(req.grant) matches Some(t) ==> (g matches Gate::Verify(x) && x@ == t),
        req.grant is None ==> g is Refuse,
{
}

/// The owner's own publish is what is appended, under the owner's name, with its publisher not counted as
/// verified, and under the cursor that the log gives next.
pub proof fn owner_publishes_what_it_is_given(
    node: &str,
    payload: &[u8],
    opts: PublishOptions,
    now: u64,
    r: Result<Message, PubSubError>,
    m: Message,
    l: TopicLog,
    s: Message,
)
    requires
        call_ensures(ingest::owner_message, (node, payload, &opts, now), r),
        r == Ok::<Message, PubSubError>(m),
        l@.high() < u64::MAX,
        call_ensures(ingest::stamped, (&l, m), s),
    ensures
        payload@.len() <= 10 * 1024 * 1024,
        m.publisher@ == node@ && m.published_at == now && !m.publisher_authenticated,
        hexcodec::hex_bytes(encode_utf8(m.payload_hex@)) == payload@,
        given(m.ordering_key) == given(opts.ordering_key) && m.attributes@ == opts.attributes@,
        s@ == (message::MessageView { cursor: s.cursor, ..m@ }),
        s.cursor == l@.floor + l@.messages.len() + 1,
{
    hexcodec::hex_round_trips(payload@);
}

/// A reply token is answered once: a request is taken in, and the same token is passed over when it comes
/// again within the hour; where the reply was lost it is taken in again.
pub proof fn requests_are_taken_in_once(
    desk: &mut IngestDesk,
    token: u64,
    frame: &str,
    body: Seq<u8>,
    now: u64,
    o: IngestOpening,
    lost: &mut IngestDesk,
)
    requires
        old(desk)@.wf(),
        frame@ == hexcodec::hex_text(body),
        call_ensures(IngestDesk::open, (desk, token, frame, now), o),
        call_ensures(IngestDesk::reply_lost, (lost, token), ()),
    ensures
        ({
            let d = old(desk)@.replied;
            let answered = d.entries.contains_key(token) && (d.ttl_secs == 0 || now
                <= d.entries[token] + d.ttl_secs);
            &&& o is AlreadyReplied <==> answered
            &&& answered ==> final(desk)@ == old(desk)@
            &&& !answered ==> final(desk)@.replied.entries.contains_key(token)
                && final(desk)@.replied.entries[token] == now
            &&& !answered && body.len() <= 2 * 10 * 1024 * 1024 + 64 * 1024 ==> (
            o matches IngestOpening::Body(x) && x@ == body)
            &&& final(desk)@.outcomes == old(desk)@.outcomes
        }),
        !final(lost)@.replied.entries.contains_key(token),
        final(lost)@.outcomes == old(lost)@.outcomes,
{
    protocol::frame_bound_is_the_body_bound(body);
    hexcodec::hex_round_trips(body);
}

/// An outcome is replied for what it is, and a retry under its key is answered with it within the hour: the
/// cursor again, or a rejection.
pub proof fn outcomes_are_given_again(
    desk: &mut IngestDesk,
    key: String,
    outcome: Result<Cursor, String>,
    at: u64,
    r: IngestReply,
    then: &mut IngestDesk,
    req: IngestRequest,
    token: u64,
    now: u64,
    c: IngestCourse,
)
    requires
        call_ensures(IngestDesk::settle, (desk, key, outcome, at), r),
        old(then)@ == final(desk)@,
        given(req.idempotency_key) == Some(key@),
        protocol::ingest_fault(req@) is None,
        old(desk)@.outcomes.wf(),
        old(desk)@.outcomes.ttl_secs == 0 || now <= at + old(desk)@.outcomes.ttl_secs,
        call_ensures(IngestDesk::consider, (then, token, Ok(req), now), c),
    ensures
        outcome matches Ok(x) ==> r == IngestReply::Accepted(x) && c == IngestCourse::Reply(
            IngestReply::Accepted(x),
        ),
        outcome matches Err(why) ==> (r matches IngestReply::Rejected(t) && t@ == why@) && (
        c matches IngestCourse::Reply(IngestReply::Rejected(_))),
        final(then)@ == old(then)@,
{
    if let Ok(x) = outcome {
        assert(r@ == protocol::IngestReplyView::Accepted(x));
        assert(c@ == ingest::CourseView::Reply(protocol::IngestReplyView::Accepted(x)));
    } else {
        assert(c@ is Reply);
    }
}

/// The outcome of an append is its cursor, or the reason why it failed, and the publisher is told which.
pub proof fn publishers_are_told_the_outcome(
    appended: Result<Cursor, String>,
    r: Result<Cursor, String>,
    reply: IngestReply,
    o: Result<Cursor, PubSubError>,
)
    requires
        call_ensures(ingest::append_outcome, (appended,), r),
        call_ensures(client::publish_outcome, (reply,), o),
    ensures
        appended matches Ok(c) ==> r == Ok::<Cursor, String>(c),
        appended matches Err(why) ==> (r matches Err(t) && t@.len() >= why@.len() && t@.skip(
            t@.len() - why@.len(),
        ) == why@),
        reply matches IngestReply::Accepted(c) ==> o == Ok::<Cursor, PubSubError>(c),
        reply matches IngestReply::Rejected(why) ==> (o matches Err(e) && e.text@.len() >= why@.len()
            && e.text@.skip(e.text@.len() - why@.len()) == why@),
{
    if let Err(why) = appended {
        let t = r->Err_0;
        assert(t@.skip(t@.len() - why@.len()) =~= why@);
    }
    if let IngestReply::Rejected(why) = reply {
        let e = o->Err_0;
        assert(e.text@.skip(e.text@.len() - why@.len()) =~= why@);
    }
}

/// A nack that is asked for and applied releases its message, and an ack settles it: what the consumer
/// sends, the owner proposes, and the registry applies.
pub proof fn acks_and_nacks_take_effect(
    topic: &str,
    sub: &str,
    cursor: Cursor,
    grant: Option<&str>,
    is_ack: bool,
    sent: Result<ControlRequest, PubSubError>,
    req: ControlRequest,
    reg: &mut SubRegistry,
    l: TopicLog,
    now: u64,
    a: Option<ControlAction>,
    op: SubOp,
    then_reply: Proposal,
    later: u64,
)
    requires
        is_ack ==> call_ensures(client::ack_request, (topic, sub, cursor, grant), sent),
        !is_ack ==> call_ensures(client::nack_request, (topic, sub, cursor, grant), sent),
        sent == Ok::<ControlRequest, PubSubError>(req),
        old(reg)@.contains_key(sub@),
        call_ensures(control::try_control_action, (req, &*old(reg), &l, now), a),
        a == Some(ControlAction::Propose { op, then_reply }),
        call_ensures(SubRegistry::apply, (reg, op), ()),
    ensures
        ({
            let s = old(reg)@[sub@];
            let t = final(reg)@[sub@];
            &&& final(reg)@.contains_key(sub@)
            &&& is_ack ==> (cursor <= t.acked || t.acked_set.contains(cursor))
                && !t.leases.contains_key(cursor)
            &&& !is_ack ==> t.acked == s.acked && t.acked_set == s.acked_set && t.dead == s.dead
                && t.attempts == s.attempts
            &&& !is_ack && s.acked < cursor && !s.acked_set.contains(cursor) && !s.dead.contains(
                cursor,
            ) ==> subscription_laws::waits(t, cursor, cursor, (cursor - 1) as u64, later)
        }),
{
    let act = a->0;
    assert(act@ == (control::ActionView::Propose { op: op@, then_reply: then_reply@ }));
    if is_ack {
        control::ack_request_settles_the_message(
            act@,
            sub@,
            cursor,
            old(reg)@,
            l@,
            now,
            later,
            cursor,
            0,
            cursor,
        );
    } else {
        control::nack_request_releases_the_message(
            act@,
            sub@,
            cursor,
            old(reg)@,
            l@,
            now,
            later,
            cursor,
        );
    }
}

/// After an accepted lease every dead-lettered message that the log retains is routed, in order, and every
/// leased one delivered under its number; after a refused one nothing is.
pub proof fn leases_are_delivered_and_routed(
    out: LeaseOutcome,
    l: TopicLog,
    r: (ControlReply, Vec<Message>),
    why: String,
    e: (ControlReply, Vec<Message>),
    i: int,
)
    requires
        l@.contiguous(),
        forall|j: int|
            0 <= j < out.leased@.len() ==> l@.floor < (#[trigger] out.leased@[j]).0 <= l@.high(),
        forall|j: int|
            0 <= j < out.dead_lettered@.len() ==> l@.floor < #[trigger] out.dead_lettered@[j]
                <= l@.high(),
        call_ensures(control::control_finish, (Proposal::Lease(out), Ok(()), &l), r),
        call_ensures(control::control_finish, (Proposal::Lease(out), Err(why), &l), e),
    ensures
        r.1@.len() == out.dead_lettered@.len(),
        0 <= i < r.1@.len() ==> r.1@[i].cursor == out.dead_lettered@[i] && r.1@[i]@
            == l@.messages[out.dead_lettered@[i] - l@.floor - 1],
        r.0 matches ControlReply::Pulled(msgs) && msgs@.len() == out.leased@.len() && (0 <= i
            < msgs@.len() ==> msgs@[i].message.cursor == out.leased@[i].0
            && msgs@[i].delivery_attempt == out.leased@[i].1 && msgs@[i].message@
            == l@.messages[out.leased@[i].0 - l@.floor - 1]),
        e.0 is Rejected && e.1@.len() == 0,
{
    control::retained_cursors_all_resolve(l@, out.leased@, out.dead_lettered@);
    let dead = log::views(r.1@);
    assert(dead.len() == r.1@.len());
    assert(log::views(e.1@).len() == e.1@.len());
    if 0 <= i < r.1@.len() {
        assert(dead[i] == r.1@[i]@);
    }
    assert(r.0@ is Pulled);
    let msgs = r.0->Pulled_0;
    let seen = msgs@.map_values(|m: LeasedMessage| m@);
    assert(r.0@ == protocol::ControlReplyView::Pulled(seen));
    assert(seen.len() == msgs@.len());
    if 0 <= i < msgs@.len() {
        assert(seen[i] == msgs@[i]@);
    }
}

/// A reply is taken for what was asked only where it is that, as it is.
pub proof fn replies_are_taken_for_what_they_are(
    reply: ControlReply,
    a: Result<Cursor, ReplyFault>,
    b: Result<(), ReplyFault>,
    c: Result<Vec<String>, ReplyFault>,
    d: Result<Vec<LeasedMessage>, ReplyFault>,
)
    requires
        call_ensures(client::expect_high, (reply,), a),
        call_ensures(client::expect_done, (reply,), b),
        call_ensures(client::expect_subscriptions, (reply,), c),
        call_ensures(client::expect_pulled, (reply,), d),
    ensures
        a is Ok <==> reply is High,
        b is Ok <==> reply is Done,
        c is Ok <==> reply is Subscriptions,
        d is Ok <==> reply is Pulled,
        reply matches ControlReply::High(x) ==> a == Ok::<Cursor, ReplyFault>(x),
        reply matches ControlReply::Subscriptions(x) ==> c == Ok::<Vec<String>, ReplyFault>(x),
        reply matches ControlReply::Pulled(x) ==> d == Ok::<Vec<LeasedMessage>, ReplyFault>(x),
{
}

/// A token expires as many seconds from now as asked for, and never where none are; its holder is the
/// owner unless another node is given; and an attribute is read as it was written.
pub proof fn command_line_is_read_as_written(
    now: u64,
    secs: u64,
    e: Option<u64>,
    owner: NodeId,
    h: Result<NodeId, PubSubError>,
    s: &str,
    k: Seq<char>,
    v: Seq<char>,
    r: Result<(String, String), PubSubError>,
)
    requires
        call_ensures(cli::grant_expiry, (now, secs), e),
        call_ensures(cli::parse_audience, (&None, owner), h),
        !k.contains('='),
        s@ == k + seq!['='] + v,
        call_ensures(cli::parse_attribute, (s,), r),
    ensures
        secs == 0 ==> e == Some(0u64),
        secs > 0 ==> (e matches Some(t) ==> t == now + secs) && (e is None <==> now + secs > u64::MAX),
        h == Ok::<NodeId, PubSubError>(owner),
        r matches Ok((x, y)) && x@ == k && y@ == v,
{
    cli::attributes_are_read_back(k, v);
}

} // verus!
