//! What publishers and consumers send to a topic owner, and what they make of its replies.
use vstd::prelude::*;

use crate::error;
use crate::error::PubSubError;
use crate::hexcodec;
use crate::message;
use crate::message::{Cursor, MeshName, OptionsView, PublishOptions};
use crate::protocol::{
    ControlReply, ControlRequest, ControlView, IngestReply, IngestRequest,
    IngestView, LeasedMessage,
};
use crate::subscription;
use crate::subscription::SubscriptionPolicy;
use crate::text;

verus! {

/// What an optional text stands for.
pub open spec fn opt_str(o: Option<&str>) -> Option<Seq<char>> {
    match o {
        Some(s) => Some(s@),
        None => None,
    }
}

/// Copies an optional text.
fn own_opt(o: Option<&str>) -> (r: Option<String>)
    ensures
        message::opt_text(r) == opt_str(o),
{
    match o {
        Some(s) => Some(s.to_owned()),
        None => None,
    }
}

/// The name of the live stream of a topic: it embeds the owner, so that the topics of distinct
/// owners never collide.
pub open spec fn live_name_of(topic: Seq<char>, owner: Seq<char>) -> Seq<char> {
    message::mesh_name(MeshName::Live, topic) + "@"@ + owner
}

/// The name of the live stream of a topic.
pub fn live_name(topic: &str, owner: &str) -> (s: String)
    ensures
        s@ == live_name_of(topic@, owner@),
{
    let mut s: String = message::live_topic(topic);
    s.append("@");
    s.append(owner);
    s
}

/// Two live streams have the same name only where both topics and owners are the same.
pub proof fn live_names_are_distinct(
    topic: Seq<char>,
    owner: Seq<char>,
    other_topic: Seq<char>,
    other_owner: Seq<char>,
)
    requires
        message::topic_fault(topic) is None,
        message::topic_fault(other_topic) is None,
        live_name_of(topic, owner) == live_name_of(other_topic, other_owner),
    ensures
        topic == other_topic,
        owner == other_owner,
{
    reveal_strlit("@");
    let p = message::mesh_prefix(MeshName::Live);
    let a = live_name_of(topic, owner);
    let b = live_name_of(other_topic, other_owner);
    let n = (p.len() + topic.len()) as int;
    let m = (p.len() + other_topic.len()) as int;
    assert(a[n] == '@');
    assert(b[m] == '@');
    if n < m {
        assert(b[n] == other_topic[n - p.len()]);
        assert(message::topic_char(other_topic[n - p.len()]));
    }
    if m < n {
        assert(a[m] == topic[m - p.len()]);
        assert(message::topic_char(topic[m - p.len()]));
    }
    assert(a.subrange(p.len() as int, n) =~= topic);
    assert(b.subrange(p.len() as int, m) =~= other_topic);
    assert(a.skip(n + 1) =~= owner);
    assert(b.skip(m + 1) =~= other_owner);
}

/// Why a publish is refused before it is sent: its topic, the payload's size, or its options.
pub open spec fn publish_request_fault(topic: Seq<char>, payload: Seq<u8>, o: OptionsView) -> Option<
    Seq<char>,
> {
    if message::topic_fault(topic) is Some {
        message::topic_fault(topic)
    } else if message::payload_size_fault(payload.len()) is Some {
        message::payload_size_fault(payload.len())
    } else {
        message::options_fault(o)
    }
}

/// The request that publishes `payload` to a topic of another node.
pub fn publish_request(
    topic: &str,
    payload: &[u8],
    grant: Option<&str>,
    opts: &PublishOptions,
    idempotency_key: Option<&str>,
) -> (r: Result<IngestRequest, PubSubError>)
    ensures
        error::fails_with(r, publish_request_fault(topic@, payload@, opts@)),
        r is Ok ==> r->Ok_0@ == (IngestView {
            payload_hex: hexcodec::hex_text(payload@),
            grant: opt_str(grant),
            idempotency_key: opt_str(idempotency_key),
            ordering_key: opts@.ordering_key,
            attributes: opts@.attributes,
        }),
{
    if let Err(e) = message::validate_topic(topic) {
        return Err(e);
    }
    if let Err(e) = message::validate_payload(payload) {
        return Err(e);
    }
    if let Err(e) = opts.validate() {
        return Err(e);
    }
    Ok(
        IngestRequest {
            payload_hex: hexcodec::encode(payload),
            grant: own_opt(grant),
            idempotency_key: own_opt(idempotency_key),
            ordering_key: message::copy_opt(&opts.ordering_key),
            attributes: opts.attributes.clone(),
        },
    )
}

/// What a publish came to: the cursor, or the owner's reason to reject it.
pub fn publish_outcome(reply: IngestReply) -> (r: Result<Cursor, PubSubError>)
    ensures
        match (reply, r) {
            (IngestReply::Accepted(c), Ok(d)) => c == d,
            (IngestReply::Rejected(why), Err(e)) => e@ == "owner rejected publish: "@ + why@,
            _ => false,
        },
{
    match reply {
        IngestReply::Accepted(c) => Ok(c),
        IngestReply::Rejected(why) => {
            let mut t: String = "owner rejected publish: ".to_owned();
            t.append(why.as_str());
            Err(PubSubError::new(t))
        },
    }
}

/// Why the creation of a subscription is refused before it is sent: its topic, its name, or its
/// policy.
pub open spec fn create_fault(topic: Seq<char>, name: Seq<char>, policy: SubscriptionPolicy) -> Option<
    Seq<char>,
> {
    if message::topic_fault(topic) is Some {
        message::topic_fault(topic)
    } else if message::topic_fault(name) is Some {
        message::topic_fault(name)
    } else {
        subscription::policy_fault(policy)
    }
}

/// The request that creates a subscription, or updates its policy.
pub fn create_subscription_request(
    topic: &str,
    name: &str,
    policy: SubscriptionPolicy,
    grant: Option<&str>,
) -> (r: Result<ControlRequest, PubSubError>)
    ensures
        error::fails_with(r, create_fault(topic@, name@, policy)),
        r is Ok ==> r->Ok_0@ == (ControlView::CreateSubscription { name: name@, policy })
            && r->Ok_0.token() == opt_str(grant),
{
    if let Err(e) = message::validate_topic(topic) {
        return Err(e);
    }
    if let Err(e) = message::validate_topic(name) {
        return Err(e);
    }
    if let Err(e) = policy.validate() {
        return Err(e);
    }
    Ok(
        ControlRequest::CreateSubscription {
            name: name.to_owned(),
            policy,
            grant: own_opt(grant),
        },
    )
}

/// The request that deletes a subscription.
pub fn delete_subscription_request(topic: &str, name: &str, grant: Option<&str>) -> (r: Result<
    ControlRequest,
    PubSubError,
>)
    ensures
        error::fails_with(r, message::topic_fault(topic@)),
        r is Ok ==> r->Ok_0@ == (ControlView::DeleteSubscription { name: name@ })
            && r->Ok_0.token() == opt_str(grant),
{
    if let Err(e) = message::validate_topic(topic) {
        return Err(e);
    }
    Ok(ControlRequest::DeleteSubscription { name: name.to_owned(), grant: own_opt(grant) })
}

/// The request that lists the subscriptions.
pub fn list_subscriptions_request(topic: &str, grant: Option<&str>) -> (r: Result<
    ControlRequest,
    PubSubError,
>)
    ensures
        error::fails_with(r, message::topic_fault(topic@)),
        r is Ok ==> r->Ok_0@ == ControlView::ListSubscriptions && r->Ok_0.token() == opt_str(grant),
{
    if let Err(e) = message::validate_topic(topic) {
        return Err(e);
    }
    Ok(ControlRequest::ListSubscriptions { grant: own_opt(grant) })
}

/// The request that leases messages from a subscription.
pub fn lease_request(topic: &str, sub: &str, max_messages: usize, grant: Option<&str>) -> (r: Result<
    ControlRequest,
    PubSubError,
>)
    ensures
        error::fails_with(r, message::topic_fault(topic@)),
        r is Ok ==> r->Ok_0@ == (ControlView::Pull { name: sub@, max_messages })
            && r->Ok_0.token() == opt_str(grant),
{
    if let Err(e) = message::validate_topic(topic) {
        return Err(e);
    }
    Ok(ControlRequest::Pull { name: sub.to_owned(), max_messages, grant: own_opt(grant) })
}

/// The request that acknowledges a leased cursor.
pub fn ack_request(topic: &str, sub: &str, cursor: Cursor, grant: Option<&str>) -> (r: Result<
    ControlRequest,
    PubSubError,
>)
    ensures
        error::fails_with(r, message::topic_fault(topic@)),
        r is Ok ==> r->Ok_0@ == (ControlView::Ack { name: sub@, cursor }) && r->Ok_0.token()
            == opt_str(grant),
{
    if let Err(e) = message::validate_topic(topic) {
        return Err(e);
    }
    Ok(ControlRequest::Ack { name: sub.to_owned(), cursor, grant: own_opt(grant) })
}

/// The request that negatively acknowledges a leased cursor.
pub fn nack_request(topic: &str, sub: &str, cursor: Cursor, grant: Option<&str>) -> (r: Result<
    ControlRequest,
    PubSubError,
>)
    ensures
        error::fails_with(r, message::topic_fault(topic@)),
        r is Ok ==> r->Ok_0@ == (ControlView::Nack { name: sub@, cursor }) && r->Ok_0.token()
            == opt_str(grant),
{
    if let Err(e) = message::validate_topic(topic) {
        return Err(e);
    }
    Ok(ControlRequest::Nack { name: sub.to_owned(), cursor, grant: own_opt(grant) })
}

/// Why a reply is not the one that was asked for.
#[derive(Debug, Clone, PartialEq, Eq)]
pub enum ReplyFault {
    /// The owner rejected the request: the text explains why.
    Rejected(String),
    /// The owner sent a reply to something else.
    Unexpected(ControlReply),
}

/// Whether `f` is the fault of a reply that was not asked for: the owner's reason after `what`, where
/// it is a rejection, and else the reply itself.
pub open spec fn is_fault(f: ReplyFault, reply: ControlReply, what: Seq<char>) -> bool {
    match reply {
        ControlReply::Rejected(why) => f matches ReplyFault::Rejected(t) && t@ == what + why@,
        other => f == ReplyFault::Unexpected(other),
    }
}

/// The fault of a reply that was not asked for.
fn fault_of(reply: ControlReply, what: &str) -> (f: ReplyFault)
    ensures
        is_fault(f, reply, what@),
{
    match reply {
        ControlReply::Rejected(why) => {
            let mut t: String = what.to_owned();
            t.append(why.as_str());
            ReplyFault::Rejected(t)
        },
        other => ReplyFault::Unexpected(other),
    }
}

/// Expects the high-water cursor.
pub fn expect_high(reply: ControlReply) -> (r: Result<Cursor, ReplyFault>)
    ensures
        match r {
            Ok(c) => reply == ControlReply::High(c),
            Err(f) => !(reply is High) && is_fault(f, reply, "owner rejected high-cursor: "@),
        },
{
    match reply {
        ControlReply::High(c) => Ok(c),
        other => Err(fault_of(other, "owner rejected high-cursor: ")),
    }
}

/// Expects that the request was done.
pub fn expect_done(reply: ControlReply) -> (r: Result<(), ReplyFault>)
    ensures
        match r {
            Ok(_) => reply == ControlReply::Done,
            Err(f) => reply != ControlReply::Done && is_fault(f, reply, "owner rejected: "@),
        },
{
    match reply {
        ControlReply::Done => Ok(()),
        other => Err(fault_of(other, "owner rejected: ")),
    }
}

/// Expects the subscription names.
pub fn expect_subscriptions(reply: ControlReply) -> (r: Result<Vec<String>, ReplyFault>)
    ensures
        match r {
            Ok(names) => reply == ControlReply::Subscriptions(names),
            Err(f) => !(reply is Subscriptions) && is_fault(f, reply, "list rejected: "@),
        },
{
    match reply {
        ControlReply::Subscriptions(names) => Ok(names),
        other => Err(fault_of(other, "list rejected: ")),
    }
}

/// Expects leased messages.
pub fn expect_pulled(reply: ControlReply) -> (r: Result<Vec<LeasedMessage>, ReplyFault>)
    ensures
        match r {
            Ok(msgs) => reply == ControlReply::Pulled(msgs),
            Err(f) => !(reply is Pulled) && is_fault(f, reply, "lease rejected: "@),
        },
{
    match reply {
        ControlReply::Pulled(msgs) => Ok(msgs),
        other => Err(fault_of(other, "lease rejected: ")),
    }
}

/// What a publisher sends is what the owner appends, on an open topic and on a gated one. The frame of a
/// request that was built passes the owner's bounds where what its body holds besides the payload takes
/// up to 64 KiB; the parsed request passes them where its idempotency key does; and the message of an
/// accepted request carries the payload, the ordering key and the attributes that were published, under
/// the publisher's name and the time of acceptance. Its publisher counts as verified on a gated topic
/// alone.
pub proof fn published_message_arrives(
    topic: Seq<char>,
    payload: Seq<u8>,
    grant: Option<Seq<char>>,
    o: OptionsView,
    key: Option<Seq<char>>,
    publisher: Seq<char>,
    now: u64,
    gated: bool,
)
    requires
        publish_request_fault(topic, payload, o) is None,
    ensures
        ({
            let req = IngestView {
                payload_hex: hexcodec::hex_text(payload),
                grant,
                idempotency_key: key,
                ordering_key: o.ordering_key,
                attributes: o.attributes,
            };
            let verdict: Option<Result<(), Seq<char>>> = if gated {
                Some(Ok(()))
            } else {
                None
            };
            let m = crate::ingest::accepted_message(req, publisher, now, verdict);
            &&& crate::protocol::ingest_fault(req) is None <==> (key matches Some(k) ==> text::byte_len(
                k,
            ) <= crate::protocol::MAX_IDEMPOTENCY_KEY_LEN)
            &&& forall|body: Seq<u8>|
                body.len() <= 2 * payload.len() + 65_536
                    ==> crate::protocol::ingest_hex_fault(#[trigger] hexcodec::hex_text(body)) is None
            &&& m is Ok
            &&& m->Ok_0.payload_fault() is None
            &&& m->Ok_0.payload() == payload
            &&& m->Ok_0.ordering_key == o.ordering_key
            &&& m->Ok_0.attributes == o.attributes
            &&& m->Ok_0.publisher == publisher
            &&& m->Ok_0.published_at == now
            &&& m->Ok_0.publisher_authenticated == gated
        }),
{
    hexcodec::hex_round_trips(payload);
    hexcodec::hex_text_length(payload);
    assert forall|body: Seq<u8>|
        body.len() <= 2 * payload.len() + 65_536 implies crate::protocol::ingest_hex_fault(
        #[trigger] hexcodec::hex_text(body),
    ) is None by {
        crate::protocol::largest_payload_is_admitted(payload, body);
    }
}

/// A publish is sent exactly where its topic is accepted, its payload is of at most 10 MiB, and its
/// options are within their bounds; the creation of a subscription, where its topic and its name are
/// accepted and its ack deadline is from 1 to 600 seconds.
pub proof fn requests_are_sent(
    topic: Seq<char>,
    payload: Seq<u8>,
    o: OptionsView,
    name: Seq<char>,
    policy: SubscriptionPolicy,
)
    ensures
        publish_request_fault(topic, payload, o) is None <==> message::topic_fault(topic) is None
            && payload.len() <= 10 * 1024 * 1024 && message::options_fault(o) is None,
        create_fault(topic, name, policy) is None <==> message::topic_fault(topic) is None
            && message::topic_fault(name) is None && 1 <= policy.ack_deadline_secs <= 600,
{
}

/// The name of a live stream is the live mesh name of its topic, `@` and the owner.
pub proof fn live_names_name_topic_and_owner(topic: Seq<char>, owner: Seq<char>)
    ensures
        ({
            let live = message::mesh_name(MeshName::Live, topic);
            let name = live_name_of(topic, owner);
            &&& name.len() == live.len() + 1 + owner.len()
            &&& name.take(live.len() as int) == live
            &&& name[live.len() as int] == '@'
            &&& name.skip(live.len() as int + 1) == owner
        }),
{
    reveal_strlit("@");
    let live = message::mesh_name(MeshName::Live, topic);
    let name = live_name_of(topic, owner);
    assert(name.take(live.len() as int) =~= live);
    assert(name.skip(live.len() as int + 1) =~= owner);
}

/// A reply that was not asked for is told for what it is: a rejection with the owner's reason, and any
/// other reply as it is.
pub proof fn faults_tell_the_reply(f: ReplyFault, reply: ControlReply, what: Seq<char>)
    requires
        is_fault(f, reply, what),
    ensures
        reply matches ControlReply::Rejected(why) ==> (f matches ReplyFault::Rejected(t) && t@.len()
            >= why@.len() && t@.skip(t@.len() - why@.len()) == why@),
        !(reply is Rejected) ==> f == ReplyFault::Unexpected(reply),
{
    if let ControlReply::Rejected(why) = reply {
        let t = f->Rejected_0;
        assert(t@.skip(t@.len() - why@.len()) =~= why@);
    }
}

} // verus!
