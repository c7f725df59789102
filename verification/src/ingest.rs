//! What a topic owner decides about remote publish requests: which it has answered before, which it
//! refuses, and which message it appends.
use vstd::prelude::*;
use vstd::utf8::*;

use crate::dedup;
use crate::dedup::{FifoView, IdempotencyCache, Seen, TokenSet};
use crate::error::PubSubError;
use crate::hexcodec;
use crate::log::TopicLog;
use crate::message;
use crate::message::{Cursor, Message, MessageView, OptionsView, PublishOptions};
use crate::protocol;
use crate::protocol::{IngestReply, IngestReplyView, IngestRequest, IngestView};
use crate::text;

verus! {

/// How many keys the owner remembers.
pub const DEDUP_CAPACITY: usize = 16_384;

/// For how many seconds the owner remembers a key.
pub const DEDUP_TTL_SECS: u64 = 3_600;

/// What the owner remembers of the requests it has handled: the reply tokens that it has answered,
/// and the outcome of each key.
pub struct IngestDesk {
    replied: TokenSet,
    outcomes: IdempotencyCache,
}

/// What the owner's memory stands for.
#[verifier::ext_equal]
pub struct DeskView {
    /// The reply tokens that were answered, and when.
    pub replied: FifoView<u64, u64>,
    /// What each key resolved to, and when.
    pub outcomes: FifoView<Seq<char>, (Seen, u64)>,
}

impl View for IngestDesk {
    type V = DeskView;

    closed spec fn view(&self) -> DeskView {
        DeskView { replied: self.replied@, outcomes: self.outcomes@ }
    }
}

/// What comes of a request as it arrives.
pub enum IngestOpening {
    /// Its reply token was answered before: nothing is sent.
    AlreadyReplied,
    /// It is answered at once.
    Reply(IngestReply),
    /// Its body, to be parsed.
    Body(Vec<u8>),
}

/// What an arriving request comes to.
#[verifier::ext_equal]
pub enum OpeningView {
    AlreadyReplied,
    Reply(IngestReplyView),
    Body(Seq<u8>),
}

impl View for IngestOpening {
    type V = OpeningView;

    open spec fn view(&self) -> OpeningView {
        match *self {
            IngestOpening::AlreadyReplied => OpeningView::AlreadyReplied,
            IngestOpening::Reply(r) => OpeningView::Reply(r@),
            IngestOpening::Body(b) => OpeningView::Body(b@),
        }
    }
}

/// What comes of a parsed request.
pub enum IngestCourse {
    /// It is answered at once.
    Reply(IngestReply),
    /// It is to be handled, and its outcome recorded under `key`.
    Handle {
        /// The request.
        req: IngestRequest,
        /// The key.
        key: String,
    },
}

/// What a parsed request comes to.
#[verifier::ext_equal]
pub enum CourseView {
    Reply(IngestReplyView),
    Handle { req: IngestView, key: Seq<char> },
}

impl View for IngestCourse {
    type V = CourseView;

    open spec fn view(&self) -> CourseView {
        match *self {
            IngestCourse::Reply(r) => CourseView::Reply(r@),
            IngestCourse::Handle { req, key } => CourseView::Handle { req: req@, key: key@ },
        }
    }
}

/// A rejection of a malformed request.
pub open spec fn bad_request(why: Seq<char>) -> IngestReplyView {
    IngestReplyView::Rejected("bad request: "@ + why)
}

/// The key under which the outcome of a request is recorded: its idempotency key, so that a retry
/// under a new reply token is recognized, or else its reply token.
pub open spec fn dedup_key(r: IngestView, token: u64) -> Seq<char> {
    match r.idempotency_key {
        Some(k) => k,
        None => "tok:"@ + text::decimal_text(token as nat),
    }
}

/// The reply to a request whose key resolved to `seen` before.
pub open spec fn reply_again(seen: Seen) -> IngestReplyView {
    match seen {
        Seen::Cursor(c) => IngestReplyView::Accepted(c),
        Seen::Handled => IngestReplyView::Rejected("duplicate request"@),
    }
}

/// The reply to a request with a given outcome.
pub open spec fn reply_of(outcome: Result<Cursor, Seq<char>>) -> IngestReplyView {
    match outcome {
        Ok(c) => IngestReplyView::Accepted(c),
        Err(why) => IngestReplyView::Rejected(why),
    }
}

/// What an outcome resolves its key to.
pub open spec fn seen_of(outcome: Result<Cursor, Seq<char>>) -> Seen {
    match outcome {
        Ok(c) => Seen::Cursor(c),
        Err(_) => Seen::Handled,
    }
}

/// What an outcome stands for.
pub open spec fn outcome_view(outcome: Result<Cursor, String>) -> Result<Cursor, Seq<char>> {
    match outcome {
        Ok(c) => Ok(c),
        Err(why) => Err(why@),
    }
}

/// What the result of parsing a request stands for.
pub open spec fn parse_view(parsed: Result<IngestRequest, String>) -> Result<IngestView, Seq<char>> {
    match parsed {
        Ok(r) => Ok(r@),
        Err(why) => Err(why@),
    }
}

impl DeskView {
    /// The memory of an owner that has handled nothing.
    pub open spec fn fresh() -> DeskView {
        DeskView {
            replied: FifoView::empty(DEDUP_CAPACITY as nat, DEDUP_TTL_SECS),
            outcomes: FifoView::empty(DEDUP_CAPACITY as nat, DEDUP_TTL_SECS),
        }
    }

    /// Whether the reply token was answered before.
    pub open spec fn has_replied(self, token: u64, now: u64) -> bool {
        self.replied.entries.contains_key(token) && !dedup::expired(
            self.replied.ttl_secs,
            self.replied.entries[token],
            now,
        )
    }

    /// Whether the outcome of `key` is remembered.
    pub open spec fn remembers(self, key: Seq<char>, now: u64) -> bool {
        self.outcomes.entries.contains_key(key) && !dedup::expired(
            self.outcomes.ttl_secs,
            self.outcomes.entries[key].1,
            now,
        )
    }

    /// What comes of a request as it arrives, and what the owner remembers then.
    pub open spec fn opened(self, token: u64, payload_hex: Seq<char>, now: u64) -> (
        DeskView,
        OpeningView,
    ) {
        if self.has_replied(token, now) {
            (self, OpeningView::AlreadyReplied)
        } else {
            (
                DeskView { replied: self.replied.removed(token).inserted(token, now), ..self },
                match protocol::ingest_hex_fault(payload_hex) {
                    Some(why) => OpeningView::Reply(bad_request(why)),
                    None => OpeningView::Body(hexcodec::hex_bytes(encode_utf8(payload_hex))),
                },
            )
        }
    }

    /// What the owner remembers once the reply on `token` was lost.
    pub open spec fn forgotten(self, token: u64) -> DeskView {
        DeskView { replied: self.replied.removed(token), ..self }
    }

    /// What comes of a parsed request, and what the owner remembers then.
    pub open spec fn considered(
        self,
        token: u64,
        parsed: Result<IngestView, Seq<char>>,
        now: u64,
    ) -> (DeskView, CourseView) {
        match parsed {
            Err(why) => (self, CourseView::Reply(bad_request(why))),
            Ok(req) => match protocol::ingest_fault(req) {
                Some(why) => (self, CourseView::Reply(bad_request(why))),
                None => {
                    let key = dedup_key(req, token);
                    if self.remembers(key, now) {
                        (self, CourseView::Reply(reply_again(self.outcomes.entries[key].0)))
                    } else if self.outcomes.entries.contains_key(key) {
                        (
                            DeskView { outcomes: self.outcomes.removed(key), ..self },
                            CourseView::Handle { req, key },
                        )
                    } else {
                        (self, CourseView::Handle { req, key })
                    }
                },
            },
        }
    }

    /// What the owner remembers once the outcome of `key` is recorded.
    pub open spec fn settled(
        self,
        key: Seq<char>,
        outcome: Result<Cursor, Seq<char>>,
        now: u64,
    ) -> DeskView {
        DeskView { outcomes: self.outcomes.inserted(key, (seen_of(outcome), now)), ..self }
    }
}

/// A rejection of a malformed request.
fn reject_bad_request(why: &str) -> (r: IngestReply)
    ensures
        r@ == bad_request(why@),
{
    let mut t: String = "bad request: ".to_owned();
    t.append(why);
    IngestReply::Rejected(t)
}

impl IngestDesk {
    /// The memory of an owner that has handled nothing.
    pub fn new() -> (d: Self)
        ensures
            d@ == DeskView::fresh(),
    {
        IngestDesk {
            replied: TokenSet::new(DEDUP_CAPACITY, DEDUP_TTL_SECS),
            outcomes: IdempotencyCache::new(DEDUP_CAPACITY, DEDUP_TTL_SECS),
        }
    }

    /// Takes in a request: recognizes a reply token that was answered before, and bounds and decodes
    /// the hex of the body.
    pub fn open(&mut self, token: u64, payload_hex: &str, now: u64) -> (o: IngestOpening)
        ensures
            (final(self)@, o@) == old(self)@.opened(token, payload_hex@, now),
    {
        if self.replied.seen(token, now) {
            return IngestOpening::AlreadyReplied;
        }
        match IngestRequest::body_of_hex(payload_hex) {
            Ok(bytes) => IngestOpening::Body(bytes),
            Err(e) => IngestOpening::Reply(reject_bad_request(e.text.as_str())),
        }
    }

    /// Records that the reply on `token` could not be sent, so that the request is answered when it
    /// is delivered again.
    pub fn reply_lost(&mut self, token: u64)
        ensures
            final(self)@ == old(self)@.forgotten(token),
    {
        self.replied.forget(token);
    }

    /// Holds a parsed request to its bounds, and recognizes a key that was handled before: its
    /// outcome is returned again, and nothing is appended.
    pub fn consider(&mut self, token: u64, parsed: Result<IngestRequest, String>, now: u64) -> (a:
        IngestCourse)
        ensures
            (final(self)@, a@) == old(self)@.considered(token, parse_view(parsed), now),
    {
        let req: IngestRequest = match parsed {
            Ok(req) => req,
            Err(why) => {
                return IngestCourse::Reply(reject_bad_request(why.as_str()));
            },
        };
        if let Err(e) = req.check() {
            return IngestCourse::Reply(reject_bad_request(e.text.as_str()));
        }
        let key: String = match &req.idempotency_key {
            Some(k) => k.clone(),
            None => {
                let mut k: String = "tok:".to_owned();
                k.append(text::decimal(token).as_str());
                k
            },
        };
        match self.outcomes.get(key.as_str(), now) {
            Some(Seen::Cursor(c)) => IngestCourse::Reply(IngestReply::Accepted(c)),
            Some(Seen::Handled) => IngestCourse::Reply(
                IngestReply::Rejected("duplicate request".to_owned()),
            ),
            None => IngestCourse::Handle { req, key },
        }
    }

    /// Records the outcome of a request under its key, and gives the reply.
    pub fn settle(&mut self, key: String, outcome: Result<Cursor, String>, now: u64) -> (r:
        IngestReply)
        ensures
            final(self)@ == old(self)@.settled(key@, outcome_view(outcome), now),
            r@ == reply_of(outcome_view(outcome)),
    {
        match outcome {
            Ok(c) => {
                self.outcomes.insert(key, Seen::Cursor(c), now);
                IngestReply::Accepted(c)
            },
            Err(why) => {
                self.outcomes.insert(key, Seen::Handled, now);
                IngestReply::Rejected(why)
            },
        }
    }
}

/// What a gated topic asks of a request.
#[derive(Debug, Clone, PartialEq, Eq)]
pub enum Gate {
    /// Nothing: the topic is open.
    Open,
    /// That this capability token be verified.
    Verify(String),
    /// It is refused: it carries no token.
    Refuse(String),
}

/// What a gate comes to.
#[verifier::ext_equal]
pub enum GateView {
    Open,
    Verify(Seq<char>),
    Refuse(Seq<char>),
}

impl View for Gate {
    type V = GateView;

    open spec fn view(&self) -> GateView {
        match *self {
            Gate::Open => GateView::Open,
            Gate::Verify(t) => GateView::Verify(t@),
            Gate::Refuse(why) => GateView::Refuse(why@),
        }
    }
}

/// What a topic asks of a request that carries `grant`, where `require_cap` tells whether it is
/// gated.
pub open spec fn gate_of(grant: Option<Seq<char>>, require_cap: bool, refusal: Seq<char>) -> GateView {
    if !require_cap {
        GateView::Open
    } else {
        match grant {
            Some(t) => GateView::Verify(t),
            None => GateView::Refuse(refusal),
        }
    }
}

/// What a topic asks of a publish request.
pub fn publish_gate(req: &IngestRequest, require_cap: bool) -> (g: Gate)
    ensures
        g@ == gate_of(
            req@.grant,
            require_cap,
            "topic requires a pubsub:publish capability but none was presented"@,
        ),
{
    if !require_cap {
        return Gate::Open;
    }
    match &req.grant {
        Some(t) => Gate::Verify(t.clone()),
        None => Gate::Refuse(
            "topic requires a pubsub:publish capability but none was presented".to_owned(),
        ),
    }
}

/// Why a publish request is refused: its ordering key, its attributes, the hex of its payload, or
/// the payload's size.
pub open spec fn publish_fault(r: IngestView) -> Option<Seq<char>> {
    let digits = encode_utf8(r.payload_hex);
    if r.ordering_key is Some && text::byte_len(r.ordering_key->0) > message::MAX_ATTRIBUTE_LEN {
        Some(
            "ordering key too long ("@ + text::decimal_text(text::byte_len(r.ordering_key->0))
                + " bytes)"@,
        )
    } else if message::attributes_fault(r.attributes) is Some {
        message::attributes_fault(r.attributes)
    } else if hexcodec::hex_fault(digits) is Some {
        Some("bad payload hex: "@ + hexcodec::hex_error_text(hexcodec::hex_fault(digits)->0))
    } else {
        message::payload_size_fault(hexcodec::hex_bytes(digits).len())
    }
}

/// The message that a publish request asks to append.
pub open spec fn message_of(
    r: IngestView,
    publisher: Seq<char>,
    now: u64,
    authenticated: bool,
) -> MessageView {
    MessageView {
        ordering_key: r.ordering_key,
        attributes: r.attributes,
        publisher_authenticated: authenticated,
        ..message::bare_message(
            0,
            publisher,
            hexcodec::hex_bytes(encode_utf8(r.payload_hex)),
            now,
        )
    }
}

/// What is appended for a publish request, or why it is refused: `verdict` is that on its
/// capability, where the topic is gated. Only a verified publisher counts as authenticated.
pub open spec fn accepted_message(
    r: IngestView,
    publisher: Seq<char>,
    now: u64,
    verdict: Option<Result<(), Seq<char>>>,
) -> Result<MessageView, Seq<char>> {
    match verdict {
        Some(Err(why)) => Err(why),
        _ => match publish_fault(r) {
            Some(why) => Err(why),
            None => Ok(message_of(r, publisher, now, verdict is Some)),
        },
    }
}

/// What a verdict on a capability stands for.
pub open spec fn opt_verdict_view(verdict: Option<Result<(), String>>) -> Option<
    Result<(), Seq<char>>,
> {
    match verdict {
        None => None,
        Some(Ok(_)) => Some(Ok(())),
        Some(Err(why)) => Some(Err(why@)),
    }
}

/// The message to append for a publish request, or why the request is refused.
pub fn accept_ingest(
    req: IngestRequest,
    publisher: &str,
    now: u64,
    verdict: Option<Result<(), String>>,
) -> (r: Result<Message, String>)
    ensures
        match r {
            Ok(m) => accepted_message(req@, publisher@, now, opt_verdict_view(verdict)) == Ok::<
                _,
                Seq<char>,
            >(m@),
            Err(why) => accepted_message(req@, publisher@, now, opt_verdict_view(verdict)) == Err::<
                MessageView,
                _,
            >(why@),
        },
{
    let authenticated: bool = verdict.is_some();
    if let Some(Err(why)) = verdict {
        return Err(why);
    }
    if let Some(k) = &req.ordering_key {
        let n: usize = text::len_bytes(k.as_str());
        if n > message::MAX_ATTRIBUTE_LEN {
            let mut t: String = "ordering key too long (".to_owned();
            t.append(text::decimal(n as u64).as_str());
            t.append(" bytes)");
            return Err(t);
        }
    }
    if let Err(e) = message::validate_attributes(&req.attributes) {
        return Err(e.text);
    }
    let payload: Vec<u8> = match hexcodec::decode(req.payload_hex.as_str()) {
        Ok(payload) => payload,
        Err(e) => {
            let mut t: String = "bad payload hex: ".to_owned();
            t.append(hexcodec::error_text(e).as_str());
            return Err(t);
        },
    };
    if let Err(e) = message::validate_payload(payload.as_slice()) {
        return Err(e.text);
    }
    let mut m: Message = Message::new(0, publisher, payload.as_slice(), now).authenticated(
        authenticated,
    );
    m.ordering_key = req.ordering_key;
    m.attributes = req.attributes;
    Ok(m)
}

/// The outcome of an append, where it failed with the reason.
pub fn append_outcome(appended: Result<Cursor, String>) -> (r: Result<Cursor, String>)
    ensures
        outcome_view(r) == match appended {
            Ok(c) => Ok::<Cursor, Seq<char>>(c),
            Err(why) => Err("append failed: "@ + why@),
        },
{
    match appended {
        Ok(c) => Ok(c),
        Err(why) => {
            let mut t: String = "append failed: ".to_owned();
            t.append(why.as_str());
            Err(t)
        },
    }
}

/// Why the owner's own publish is refused: the payload's size, or its options.
pub open spec fn owner_fault(payload: Seq<u8>, o: OptionsView) -> Option<Seq<char>> {
    if message::payload_size_fault(payload.len()) is Some {
        message::payload_size_fault(payload.len())
    } else {
        message::options_fault(o)
    }
}

/// The message that the owner publishes itself. No capability was verified for it, so its publisher
/// does not count as authenticated.
pub fn owner_message(node_id: &str, payload: &[u8], opts: &PublishOptions, now: u64) -> (r: Result<
    Message,
    PubSubError,
>)
    ensures
        crate::error::fails_with(r, owner_fault(payload@, opts@)),
        r is Ok ==> r->Ok_0@ == (MessageView {
            ordering_key: opts@.ordering_key,
            attributes: opts@.attributes,
            ..message::bare_message(0, node_id@, payload@, now)
        }),
{
    if let Err(e) = message::validate_payload(payload) {
        return Err(e);
    }
    if let Err(e) = opts.validate() {
        return Err(e);
    }
    let mut m: Message = Message::new(0, node_id, payload, now);
    m.ordering_key = message::copy_opt(&opts.ordering_key);
    m.attributes = opts.attributes.clone();
    Ok(m)
}

/// The message under the cursor that the log will give it.
pub fn stamped(log: &TopicLog, m: Message) -> (r: Message)
    requires
        log@.high() < u64::MAX,
    ensures
        r@ == (MessageView { cursor: (log@.high() + 1) as u64, ..m@ }),
{
    let mut r: Message = m;
    r.cursor = log.next_cursor();
    r
}

impl DeskView {
    /// Whether the owner's memory is within its bounds.
    pub open spec fn wf(self) -> bool {
        self.replied.wf() && self.outcomes.wf()
    }
}

/// Whatever requests arrive, the owner's memory stays within its bounds.
pub proof fn memory_stays_bounded(
    d: DeskView,
    token: u64,
    payload_hex: Seq<char>,
    parsed: Result<IngestView, Seq<char>>,
    key: Seq<char>,
    outcome: Result<Cursor, Seq<char>>,
    now: u64,
)
    requires
        d.wf(),
    ensures
        d.opened(token, payload_hex, now).0.wf(),
        d.forgotten(token).wf(),
        d.considered(token, parsed, now).0.wf(),
        d.settled(key, outcome, now).wf(),
{
    dedup::removal_keeps_wf(d.replied, token);
    dedup::insertion_keeps_wf(d.replied.removed(token), token, now);
    if let Ok(req) = parsed {
        dedup::removal_keeps_wf(d.outcomes, dedup_key(req, token));
    }
    dedup::insertion_keeps_wf(d.outcomes, key, (seen_of(outcome), now));
}

/// One step in the owner's handling of requests.
pub enum DeskStep {
    /// A request arrives.
    Open { token: u64, payload_hex: Seq<char>, now: u64 },
    /// A reply is lost.
    Lose { token: u64 },
    /// A request that was parsed is considered.
    Consider { token: u64, parsed: Result<IngestView, Seq<char>>, now: u64 },
    /// The outcome of a request is recorded.
    Settle { key: Seq<char>, outcome: Result<Cursor, Seq<char>>, now: u64 },
}

impl DeskStep {
    /// Whether the step happens at `later` at the latest, as far as time matters to it.
    pub open spec fn not_after(self, later: u64) -> bool {
        match self {
            DeskStep::Open { now, .. } => now <= later,
            DeskStep::Lose { .. } => true,
            DeskStep::Consider { now, .. } => now <= later,
            DeskStep::Settle { now, .. } => now <= later,
        }
    }
}

/// What the owner remembers after a step.
pub open spec fn after_step(d: DeskView, step: DeskStep) -> DeskView {
    match step {
        DeskStep::Open { token, payload_hex, now } => d.opened(token, payload_hex, now).0,
        DeskStep::Lose { token } => d.forgotten(token),
        DeskStep::Consider { token, parsed, now } => d.considered(token, parsed, now).0,
        DeskStep::Settle { key, outcome, now } => d.settled(key, outcome, now),
    }
}

/// What the owner remembers after a list of steps.
pub open spec fn after_steps(d: DeskView, steps: Seq<DeskStep>) -> DeskView
    decreases steps.len(),
{
    if steps.len() == 0 {
        d
    } else {
        after_step(after_steps(d, steps.drop_last()), steps.last())
    }
}

/// How many requests with another reply token than `token` arrive.
pub open spec fn other_openings(steps: Seq<DeskStep>, token: u64) -> nat
    decreases steps.len(),
{
    if steps.len() == 0 {
        0
    } else {
        other_openings(steps.drop_last(), token) + match steps.last() {
            DeskStep::Open { token: t, .. } if t != token => 1nat,
            _ => 0nat,
        }
    }
}

/// How many outcomes are recorded.
pub open spec fn settlings(steps: Seq<DeskStep>) -> nat
    decreases steps.len(),
{
    if steps.len() == 0 {
        0
    } else {
        settlings(steps.drop_last()) + if steps.last() is Settle {
            1nat
        } else {
            0nat
        }
    }
}

proof fn lemma_token_kept(
    d: DeskView,
    token: u64,
    payload_hex: Seq<char>,
    now: u64,
    steps: Seq<DeskStep>,
    later: u64,
) -> (place: int)
    requires
        d.replied.wf(),
        !d.has_replied(token, now),
        other_openings(steps, token) < d.replied.capacity,
        forall|i: int|
            0 <= i < steps.len() ==> !((#[trigger] steps[i]) matches DeskStep::Lose { token: t }
                && t == token),
        forall|i: int| 0 <= i < steps.len() ==> (#[trigger] steps[i]).not_after(later),
        !dedup::expired(d.replied.ttl_secs, now, later),
    ensures
        ({
            let r = after_steps(d.opened(token, payload_hex, now).0, steps).replied;
            &&& r.wf()
            &&& r.capacity == d.replied.capacity
            &&& r.ttl_secs == d.replied.ttl_secs
            &&& 0 <= place < r.order.len()
            &&& r.order[place] == token
            &&& r.order.len() - place <= 1 + other_openings(steps, token)
            &&& r.entries.contains_key(token)
            &&& r.entries[token] == now
        }),
    decreases steps.len(),
{
    let first = d.opened(token, payload_hex, now).0;
    if steps.len() == 0 {
        dedup::removal_keeps_wf(d.replied, token);
        dedup::insertion_keeps_wf(d.replied.removed(token), token, now);
        first.replied.order.len() - 1
    } else {
        let head = steps.drop_last();
        assert forall|i: int| 0 <= i < head.len() implies (#[trigger] head[i]).not_after(later) && !(
        head[i] matches DeskStep::Lose { token: t } && t == token) by {
            assert(head[i] == steps[i]);
        }
        let place = lemma_token_kept(d, token, payload_hex, now, head, later);
        let before = after_steps(first, head);
        assert(steps[steps.len() - 1].not_after(later));
        match steps.last() {
            DeskStep::Open { token: t, payload_hex: hex, now: when } => {
                if before.has_replied(t, when) {
                    place
                } else {
                    assert(t != token);
                    let p = dedup::removal_keeps_place(before.replied, token, place, t);
                    dedup::insertion_keeps_place(before.replied.removed(t), token, p, t, when)
                }
            },
            DeskStep::Lose { token: t } => {
                assert(steps[steps.len() - 1] == steps.last());
                dedup::removal_keeps_place(before.replied, token, place, t)
            },
            _ => place,
        }
    }
}

/// A reply token that was answered is not answered again within the time to live, whatever steps
/// come in between, as long as its reply was not lost and fewer requests with other tokens arrive than
/// the owner remembers.
pub proof fn answered_token_is_not_answered_again(
    d: DeskView,
    token: u64,
    payload_hex: Seq<char>,
    now: u64,
    steps: Seq<DeskStep>,
    again_hex: Seq<char>,
    later: u64,
)
    requires
        d.wf(),
        !d.has_replied(token, now),
        other_openings(steps, token) < d.replied.capacity,
        forall|i: int|
            0 <= i < steps.len() ==> !((#[trigger] steps[i]) matches DeskStep::Lose { token: t }
                && t == token),
        forall|i: int| 0 <= i < steps.len() ==> (#[trigger] steps[i]).not_after(later),
        !dedup::expired(d.replied.ttl_secs, now, later),
    ensures
        ({
            let after = after_steps(d.opened(token, payload_hex, now).0, steps);
            after.opened(token, again_hex, later) == (after, OpeningView::AlreadyReplied)
        }),
{
    let place = lemma_token_kept(d, token, payload_hex, now, steps, later);
}

/// A request whose reply was lost is answered when it is delivered again: it is taken in as a new one,
/// and where it was appended it is answered with the same cursor, while its key is remembered, and
/// appends nothing.
pub proof fn lost_reply_is_given_again(
    d: DeskView,
    token: u64,
    payload_hex: Seq<char>,
    req: IngestView,
    cursor: Cursor,
    now: u64,
)
    requires
        protocol::ingest_fault(req) is None,
        d.remembers(dedup_key(req, token), now),
        d.outcomes.entries[dedup_key(req, token)].0 == Seen::Cursor(cursor),
    ensures
        ({
            let (after, opening) = d.forgotten(token).opened(token, payload_hex, now);
            &&& opening == match protocol::ingest_hex_fault(payload_hex) {
                Some(why) => OpeningView::Reply(bad_request(why)),
                None => OpeningView::Body(hexcodec::hex_bytes(encode_utf8(payload_hex))),
            }
            &&& after.considered(token, Ok(req), now) == (
                after,
                CourseView::Reply(IngestReplyView::Accepted(cursor)),
            )
        }),
{
}

/// A request that is to be handled has a key whose outcome the owner does not hold.
pub proof fn handled_request_is_not_remembered(
    d: DeskView,
    token: u64,
    parsed: Result<IngestView, Seq<char>>,
    now: u64,
)
    ensures
        d.considered(token, parsed, now).1 matches CourseView::Handle { key, .. } ==> !d.considered(
            token,
            parsed,
            now,
        ).0.outcomes.entries.contains_key(key),
{
}

proof fn lemma_outcome_kept(
    d: DeskView,
    key: Seq<char>,
    cursor: Cursor,
    now: u64,
    steps: Seq<DeskStep>,
    later: u64,
) -> (place: int)
    requires
        d.outcomes.wf(),
        !d.outcomes.entries.contains_key(key),
        settlings(steps) < d.outcomes.capacity,
        forall|i: int|
            0 <= i < steps.len() ==> !((#[trigger] steps[i]) matches DeskStep::Settle { key: k, .. }
                && k == key),
        forall|i: int| 0 <= i < steps.len() ==> (#[trigger] steps[i]).not_after(later),
        !dedup::expired(d.outcomes.ttl_secs, now, later),
    ensures
        ({
            let o = after_steps(d.settled(key, Ok(cursor), now), steps).outcomes;
            &&& o.wf()
            &&& o.capacity == d.outcomes.capacity
            &&& o.ttl_secs == d.outcomes.ttl_secs
            &&& 0 <= place < o.order.len()
            &&& o.order[place] == key
            &&& o.order.len() - place <= 1 + settlings(steps)
            &&& o.entries.contains_key(key)
            &&& o.entries[key] == (Seen::Cursor(cursor), now)
        }),
    decreases steps.len(),
{
    let first = d.settled(key, Ok(cursor), now);
    if steps.len() == 0 {
        dedup::insertion_keeps_wf(d.outcomes, key, (Seen::Cursor(cursor), now));
        first.outcomes.order.len() - 1
    } else {
        let head = steps.drop_last();
        assert forall|i: int| 0 <= i < head.len() implies (#[trigger] head[i]).not_after(later) && !(
        head[i] matches DeskStep::Settle { key: k, .. } && k == key) by {
            assert(head[i] == steps[i]);
        }
        let place = lemma_outcome_kept(d, key, cursor, now, head, later);
        let before = after_steps(first, head);
        let last = steps[steps.len() - 1];
        assert(last.not_after(later));
        match last {
            DeskStep::Open { .. } => place,
            DeskStep::Lose { .. } => place,
            DeskStep::Consider { token, parsed, now: when } => {
                if before.considered(token, parsed, when).0 == before {
                    place
                } else {
                    let x = dedup_key(parsed->Ok_0, token);
                    assert(x != key);
                    dedup::removal_keeps_place(before.outcomes, key, place, x)
                }
            },
            DeskStep::Settle { key: k, outcome, now: when } => {
                dedup::insertion_keeps_place(
                    before.outcomes,
                    key,
                    place,
                    k,
                    (seen_of(outcome), when),
                )
            },
        }
    }
}

/// A retry of a request that was appended is answered with the same cursor and appends nothing, on
/// whatever reply token it comes, as long as its key is remembered: within the time to live, and
/// whatever steps come in between, before as many other outcomes were recorded as the owner
/// remembers.
pub proof fn retry_returns_the_first_cursor(
    d: DeskView,
    key: Seq<char>,
    cursor: Cursor,
    now: u64,
    steps: Seq<DeskStep>,
    retry: IngestView,
    token: u64,
    later: u64,
)
    requires
        d.wf(),
        !d.outcomes.entries.contains_key(key),
        settlings(steps) < d.outcomes.capacity,
        forall|i: int|
            0 <= i < steps.len() ==> !((#[trigger] steps[i]) matches DeskStep::Settle { key: k, .. }
                && k == key),
        forall|i: int| 0 <= i < steps.len() ==> (#[trigger] steps[i]).not_after(later),
        retry.idempotency_key == Some(key),
        protocol::ingest_fault(retry) is None,
        !dedup::expired(d.outcomes.ttl_secs, now, later),
    ensures
        ({
            let after = after_steps(d.settled(key, Ok(cursor), now), steps);
            after.considered(token, Ok(retry), later) == (
                after,
                CourseView::Reply(IngestReplyView::Accepted(cursor)),
            )
        }),
{
    let place = lemma_outcome_kept(d, key, cursor, now, steps, later);
}

/// A gated topic refuses a request that carries no token, and one whose token was refused; on a
/// gated topic the publisher of what is appended was verified, and on an open one it was not.
pub proof fn gated_topic_appends_only_verified_messages(
    r: IngestView,
    publisher: Seq<char>,
    now: u64,
    refusal: Seq<char>,
    why: Seq<char>,
)
    ensures
        r.grant is None ==> gate_of(r.grant, true, refusal) == GateView::Refuse(refusal),
        accepted_message(r, publisher, now, Some(Err(why))) == Err::<MessageView, _>(why),
        accepted_message(r, publisher, now, Some(Ok(()))) matches Ok(m)
            ==> m.publisher_authenticated,
        accepted_message(r, publisher, now, None) matches Ok(m) ==> !m.publisher_authenticated,
{
}

/// What is broadcast is what is stored: a message under the cursor that the log will give it is
/// appended as it is.
pub proof fn stamped_message_is_stored_as_it_is(l: crate::log::LogView, m: MessageView)
    requires
        l.high() < u64::MAX,
        m.cursor == l.high() + 1,
    ensures
        l.appended(m).messages == l.messages.push(m),
{
}

/// What a request asks to append is what is appended, on an open topic and, once its capability was
/// honored, on a gated one: the payload, the ordering key and the attributes of the request, under the
/// requester's name and the time of acceptance. Between the two the message differs in nothing but
/// whether its publisher counts as verified.
pub proof fn accepted_message_is_what_was_asked_for(
    r: IngestView,
    publisher: Seq<char>,
    now: u64,
    gated: bool,
)
    ensures
        ({
            let verdict: Option<Result<(), Seq<char>>> = if gated {
                Some(Ok(()))
            } else {
                None
            };
            let other: Option<Result<(), Seq<char>>> = if gated {
                None
            } else {
                Some(Ok(()))
            };
            let a = accepted_message(r, publisher, now, verdict);
            let b = accepted_message(r, publisher, now, other);
            &&& a is Ok <==> b is Ok
            &&& a matches Ok(m) ==> {
                &&& m.payload_fault() is None
                &&& m.payload() == hexcodec::hex_bytes(encode_utf8(r.payload_hex))
                &&& m.ordering_key == r.ordering_key
                &&& m.attributes == r.attributes
                &&& m.publisher == publisher
                &&& m.published_at == now
                &&& m.publisher_authenticated == gated
                &&& b->Ok_0 == (MessageView { publisher_authenticated: !gated, ..m })
            }
        }),
{
    hexcodec::hex_round_trips(hexcodec::hex_bytes(encode_utf8(r.payload_hex)));
}

/// A request is accepted exactly where its capability, where it was judged, was honored, its ordering
/// key and its attributes are within their bounds, and its payload is hexadecimal and of at most 10 MiB.
pub proof fn requests_are_accepted(
    r: IngestView,
    publisher: Seq<char>,
    now: u64,
    verdict: Option<Result<(), Seq<char>>>,
)
    ensures
        accepted_message(r, publisher, now, verdict) is Ok <==> {
            &&& verdict matches Some(v) ==> v is Ok
            &&& r.ordering_key matches Some(k) ==> encode_utf8(k).len() <= 1024
            &&& message::attributes_fault(r.attributes) is None
            &&& hexcodec::hex_fault(encode_utf8(r.payload_hex)) is None
            &&& hexcodec::hex_bytes(encode_utf8(r.payload_hex)).len() <= 10 * 1024 * 1024
        },
        verdict matches Some(Err(why)) ==> accepted_message(r, publisher, now, verdict) == Err::<
            MessageView,
            Seq<char>,
        >(why),
{
}

/// The owner's own publish is accepted exactly where a publisher's is: its payload is of at most 10 MiB,
/// and its options are within their bounds.
pub proof fn owner_publishes_are_accepted(payload: Seq<u8>, o: OptionsView)
    ensures
        owner_fault(payload, o) is None <==> payload.len() <= 10 * 1024 * 1024
            && message::options_fault(o) is None,
{
}

/// A request whose reply token was never seen, or so long ago that it has expired, is taken in: its body
/// is what its frame holds, or it is answered as a bad request, and its token counts as answered from
/// then on. What the owner remembers of outcomes stays.
pub proof fn new_request_is_taken_in(d: DeskView, token: u64, body: Seq<u8>, now: u64)
    requires
        d.replied.wf(),
        d.replied.entries.contains_key(token) ==> d.replied.ttl_secs > 0 && now
            > d.replied.entries[token] + d.replied.ttl_secs,
    ensures
        ({
            let (after, opening) = d.opened(token, hexcodec::hex_text(body), now);
            &&& body.len() <= 2 * 10 * 1024 * 1024 + 64 * 1024 ==> opening == OpeningView::Body(body)
            &&& body.len() > 2 * 10 * 1024 * 1024 + 64 * 1024 ==> (opening matches OpeningView::Reply(
                IngestReplyView::Rejected(_),
            ))
            &&& after.replied.entries.contains_key(token)
            &&& after.replied.entries[token] == now
            &&& after.outcomes == d.outcomes
        }),
{
    hexcodec::hex_round_trips(body);
    protocol::frame_bound_is_the_body_bound(body);
    hexcodec::hex_text_length(body);
}

/// A request that was seen and has not expired is not answered, and changes nothing.
pub proof fn answered_request_is_passed_over(
    d: DeskView,
    token: u64,
    payload_hex: Seq<char>,
    now: u64,
)
    requires
        d.replied.entries.contains_key(token),
        d.replied.ttl_secs == 0 || now <= d.replied.entries[token] + d.replied.ttl_secs,
    ensures
        d.opened(token, payload_hex, now) == (d, OpeningView::AlreadyReplied),
{
}

/// A request whose key has no outcome on record, or one that has expired, is handled as it is, under its
/// idempotency key or, where it has none, under a key that belongs to its reply token alone. A request
/// that does not parse or is out of bounds is rejected and changes nothing.
pub proof fn unknown_request_is_handled(
    d: DeskView,
    token: u64,
    other: u64,
    req: IngestView,
    why: Seq<char>,
    now: u64,
)
    ensures
        protocol::ingest_fault(req) is None ==> {
            let key = dedup_key(req, token);
            let known = d.outcomes.entries.contains_key(key) && (d.outcomes.ttl_secs == 0 || now
                <= d.outcomes.entries[key].1 + d.outcomes.ttl_secs);
            let (after, course) = d.considered(token, Ok(req), now);
            &&& !known ==> course == (CourseView::Handle { req, key })
            &&& known ==> after == d && course is Reply
            &&& after.replied == d.replied
            &&& req.idempotency_key matches Some(k) ==> key == k
            &&& req.idempotency_key is None && other != token ==> dedup_key(req, other) != key
        },
        protocol::ingest_fault(req) is Some ==> (d.considered(token, Ok(req), now) matches (
            after,
            CourseView::Reply(IngestReplyView::Rejected(_)),
        ) && after == d),
        d.considered(token, Err(why), now) == (
            d,
            CourseView::Reply(IngestReplyView::Rejected("bad request: "@ + why)),
        ),
{
    if req.idempotency_key is None && other != token {
        text::numerals_stand_for_their_numbers(token as nat, other as nat);
        let (a, b) = (dedup_key(req, token), dedup_key(req, other));
        let n = "tok:"@.len() as int;
        if a == b {
            assert(a.skip(n) =~= text::decimal_text(token as nat));
            assert(b.skip(n) =~= text::decimal_text(other as nat));
        }
    }
}

/// A request that was refused is not handled again while its key is on record: a retry is rejected,
/// and changes nothing.
pub proof fn refused_request_is_not_retried(
    d: DeskView,
    key: Seq<char>,
    why: Seq<char>,
    at: u64,
    retry: IngestView,
    token: u64,
    now: u64,
)
    requires
        d.outcomes.wf(),
        dedup_key(retry, token) == key,
        protocol::ingest_fault(retry) is None,
        d.outcomes.ttl_secs == 0 || now <= at + d.outcomes.ttl_secs,
    ensures
        ({
            let after = d.settled(key, Err(why), at);
            after.considered(token, Ok(retry), now) matches (
                then,
                CourseView::Reply(IngestReplyView::Rejected(_)),
            ) && then == after
        }),
{
}

/// An outcome is recorded under its key with its time, and replied for what it is: a cursor is accepted,
/// a reason rejected. What was answered stays.
pub proof fn outcomes_are_recorded_and_replied(
    d: DeskView,
    key: Seq<char>,
    cursor: Cursor,
    why: Seq<char>,
    now: u64,
)
    ensures
        d.settled(key, Ok(cursor), now).outcomes.entries[key] == (Seen::Cursor(cursor), now),
        d.settled(key, Err(why), now).outcomes.entries[key] == (Seen::Handled, now),
        d.settled(key, Ok(cursor), now).outcomes.entries.contains_key(key),
        d.settled(key, Err(why), now).outcomes.entries.contains_key(key),
        d.settled(key, Ok(cursor), now).replied == d.replied,
        d.settled(key, Err(why), now).replied == d.replied,
        reply_of(Ok(cursor)) == IngestReplyView::Accepted(cursor),
        reply_of(Err(why)) == IngestReplyView::Rejected(why),
{
}

/// An owner starts with an empty memory of 16,384 tokens and 16,384 keys, each for an hour.
pub proof fn memory_starts_empty(token: u64, key: Seq<char>)
    ensures
        ({
            let d = DeskView::fresh();
            &&& d.wf()
            &&& !d.replied.entries.contains_key(token)
            &&& !d.outcomes.entries.contains_key(key)
            &&& d.replied.capacity == 16_384 && d.outcomes.capacity == 16_384
            &&& d.replied.ttl_secs == 3600 && d.outcomes.ttl_secs == 3600
        }),
{
    dedup::new_cache_is_empty::<u64, u64>(DEDUP_CAPACITY as nat, DEDUP_TTL_SECS, token);
    dedup::new_cache_is_empty::<Seq<char>, (Seen, u64)>(
        DEDUP_CAPACITY as nat,
        DEDUP_TTL_SECS,
        key,
    );
}

/// An open topic asks nothing of a request; a gated one that its own token be verified, and refuses a
/// request without one.
pub proof fn gates_ask_for_the_token(grant: Option<Seq<char>>, refusal: Seq<char>)
    ensures
        gate_of(grant, false, refusal) == GateView::Open,
        grant matches Some(t) ==> gate_of(grant, true, refusal) == GateView::Verify(t),
        grant is None ==> gate_of(grant, true, refusal) == GateView::Refuse(refusal),
{
}

} // verus!
