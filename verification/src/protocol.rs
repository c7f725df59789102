//! The wire protocol between a publisher or consumer and a topic owner: remote publish (ingest) and
//! subscription control (create, pull, ack, nack, delete).
//!
//! Every decode path is bounded: an oversized body is refused before it is decoded.
use vstd::prelude::*;
use vstd::utf8::*;

use crate::error;
use crate::error::PubSubError;
use crate::hexcodec;
use crate::message;
use crate::message::{Attributes, Cursor, Message, MessageView};
use crate::subscription::SubscriptionPolicy;
use crate::text;

verus! {

/// Maximum size, in bytes, of a control request's body: 64 KiB.
pub const MAX_CONTROL_BODY_BYTES: usize = 65_536;

/// Maximum size, in bytes, of an ingest request's body, which holds the payload in hex: twice the
/// largest payload, as hex doubles, plus 64 KiB for the envelope.
pub const MAX_INGEST_HEX_BYTES: usize = 21_037_056;

/// Maximum length, in bytes, of the frame that holds an ingest request's body, in hex once more.
pub const MAX_INGEST_FRAME_BYTES: usize = 42_074_112;

/// Maximum length, in bytes, of an idempotency key.
pub const MAX_IDEMPOTENCY_KEY_LEN: usize = 256;

/// A remote publish request to a topic owner.
#[derive(Debug, PartialEq, Eq)]
pub struct IngestRequest {
    /// The payload, in hex.
    pub payload_hex: String,
    /// Capability token that grants `pubsub:publish` on this topic; required on a gated topic.
    pub grant: Option<String>,
    /// Idempotency key that the publisher chose. Of two requests with one key the owner appends only
    /// the first, and answers the second with the same cursor.
    pub idempotency_key: Option<String>,
    /// Optional ordering key.
    pub ordering_key: Option<String>,
    /// Message attributes.
    pub attributes: Attributes,
}

/// What an ingest request stands for.
#[verifier::ext_equal]
pub struct IngestView {
    pub payload_hex: Seq<char>,
    pub grant: Option<Seq<char>>,
    pub idempotency_key: Option<Seq<char>>,
    pub ordering_key: Option<Seq<char>>,
    pub attributes: Map<Seq<char>, Seq<char>>,
}

impl View for IngestRequest {
    type V = IngestView;

    open spec fn view(&self) -> IngestView {
        IngestView {
            payload_hex: self.payload_hex@,
            grant: message::opt_text(self.grant),
            idempotency_key: message::opt_text(self.idempotency_key),
            ordering_key: message::opt_text(self.ordering_key),
            attributes: self.attributes@,
        }
    }
}

impl Clone for IngestRequest {
    fn clone(&self) -> (r: Self)
        ensures
            r@ == self@,
    {
        IngestRequest {
            payload_hex: self.payload_hex.clone(),
            grant: message::copy_opt(&self.grant),
            idempotency_key: message::copy_opt(&self.idempotency_key),
            ordering_key: message::copy_opt(&self.ordering_key),
            attributes: self.attributes.clone(),
        }
    }
}

/// A text that gives a number of bytes.
pub open spec fn bytes_text(what: Seq<char>, n: nat) -> Seq<char> {
    what + " ("@ + text::decimal_text(n) + " bytes)"@
}

/// An error that gives a number of bytes.
fn bytes_error(what: &str, n: usize) -> (e: PubSubError)
    ensures
        e@ == bytes_text(what@, n as nat),
{
    let mut t: String = what.to_owned();
    t.append(" (");
    t.append(text::decimal(n as u64).as_str());
    t.append(" bytes)");
    PubSubError::new(t)
}

/// Why a body of `n` bytes is refused: it is larger than `limit`.
pub open spec fn size_fault(what: Seq<char>, n: nat, limit: nat) -> Option<Seq<char>> {
    if n > limit {
        Some(bytes_text(what, n))
    } else {
        None
    }
}

/// Why a decoded ingest request is refused: its payload is too large, or its idempotency key too
/// long.
pub open spec fn ingest_fault(r: IngestView) -> Option<Seq<char>> {
    if text::byte_len(r.payload_hex) > MAX_INGEST_HEX_BYTES {
        Some(bytes_text("ingest payload hex too large"@, text::byte_len(r.payload_hex)))
    } else if r.idempotency_key is Some && text::byte_len(r.idempotency_key->0)
        > MAX_IDEMPOTENCY_KEY_LEN {
        Some(bytes_text("idempotency key too long"@, text::byte_len(r.idempotency_key->0)))
    } else {
        None
    }
}

/// Why an ingest request in hex is refused before its body is parsed: the hex or the body is too
/// large, or it is no hex.
pub open spec fn ingest_hex_fault(hex: Seq<char>) -> Option<Seq<char>> {
    let digits = encode_utf8(hex);
    if digits.len() > MAX_INGEST_FRAME_BYTES {
        Some(bytes_text("ingest request hex too large"@, digits.len()))
    } else if hexcodec::hex_fault(digits) is Some {
        Some(hexcodec::hex_error_text(hexcodec::hex_fault(digits)->0))
    } else {
        size_fault(
            "ingest request too large"@,
            hexcodec::hex_bytes(digits).len(),
            MAX_INGEST_HEX_BYTES as nat,
        )
    }
}

impl IngestRequest {
    /// Holds the size of a request's body to its bound, before it is parsed.
    pub fn check_body(bytes: &[u8]) -> (r: Result<(), PubSubError>)
        ensures
            error::fails_with(
                r,
                size_fault(
                    "ingest request too large"@,
                    bytes@.len(),
                    MAX_INGEST_HEX_BYTES as nat,
                ),
            ),
    {
        if bytes.len() > MAX_INGEST_HEX_BYTES {
            return Err(bytes_error("ingest request too large", bytes.len()));
        }
        Ok(())
    }

    /// Holds a parsed request to its bounds.
    pub fn check(&self) -> (r: Result<(), PubSubError>)
        ensures
            error::fails_with(r, ingest_fault(self@)),
    {
        let n: usize = text::len_bytes(self.payload_hex.as_str());
        if n > MAX_INGEST_HEX_BYTES {
            return Err(bytes_error("ingest payload hex too large", n));
        }
        if let Some(k) = &self.idempotency_key {
            let n: usize = text::len_bytes(k.as_str());
            if n > MAX_IDEMPOTENCY_KEY_LEN {
                return Err(bytes_error("idempotency key too long", n));
            }
        }
        Ok(())
    }

    /// The body of a request that arrives in hex. The length of the hex is bounded before it is
    /// decoded, and the size of the body before it is parsed.
    pub fn body_of_hex(payload_hex: &str) -> (r: Result<Vec<u8>, PubSubError>)
        ensures
            error::fails_with(r, ingest_hex_fault(payload_hex@)),
            r is Ok ==> r->Ok_0@ == hexcodec::hex_bytes(encode_utf8(payload_hex@)),
    {
        let n: usize = text::len_bytes(payload_hex);
        if n > MAX_INGEST_FRAME_BYTES {
            return Err(bytes_error("ingest request hex too large", n));
        }
        match hexcodec::decode(payload_hex) {
            Ok(bytes) => match IngestRequest::check_body(bytes.as_slice()) {
                Ok(_) => Ok(bytes),
                Err(e) => Err(e),
            },
            Err(e) => Err(PubSubError::new(hexcodec::error_text(e))),
        }
    }
}

/// Every payload within the limit is admitted on the remote path: the frame of a body that holds the
/// payload in hex and an envelope of up to 64 KiB passes the bounds, and gives back the body.
pub proof fn largest_payload_is_admitted(payload: Seq<u8>, body: Seq<u8>)
    requires
        payload.len() <= message::MAX_PAYLOAD_BYTES,
        body.len() <= 2 * payload.len() + 65_536,
    ensures
        ingest_hex_fault(hexcodec::hex_text(body)) is None,
        hexcodec::hex_bytes(encode_utf8(hexcodec::hex_text(body))) == body,
{
    hexcodec::hex_round_trips(body);
    hexcodec::hex_text_length(body);
}

/// The frame is refused only where the body that it holds is: a body is admitted exactly where it is
/// within the bound on bodies.
pub proof fn frame_bound_is_the_body_bound(body: Seq<u8>)
    ensures
        ingest_hex_fault(hexcodec::hex_text(body)) is None <==> body.len() <= MAX_INGEST_HEX_BYTES,
{
    hexcodec::hex_round_trips(body);
    hexcodec::hex_text_length(body);
}

/// The bounds alone decide on a request whose body parses: a request that its body holds is admitted,
/// with that body, exactly where the body is within its bound and the idempotency key, where there is
/// one, within its own.
pub proof fn bounds_decide_on_a_parsed_request(body: Seq<u8>, req: IngestView)
    requires
        text::byte_len(req.payload_hex) <= body.len(),
    ensures
        ingest_hex_fault(hexcodec::hex_text(body)) is None && ingest_fault(req) is None
            <==> body.len() <= MAX_INGEST_HEX_BYTES && (req.idempotency_key matches Some(k)
            ==> text::byte_len(k) <= MAX_IDEMPOTENCY_KEY_LEN),
        hexcodec::hex_bytes(encode_utf8(hexcodec::hex_text(body))) == body,
{
    frame_bound_is_the_body_bound(body);
    hexcodec::hex_round_trips(body);
}

/// The owner's reply to an [`IngestRequest`].
#[derive(Debug, Clone, PartialEq, Eq)]
pub enum IngestReply {
    /// Accepted and appended at this cursor, or, for a retry, at the cursor of the first request.
    Accepted(Cursor),
    /// Rejected; the text explains why.
    Rejected(String),
}

/// What the owner's reply to an ingest request stands for.
#[verifier::ext_equal]
pub enum IngestReplyView {
    Accepted(Cursor),
    Rejected(Seq<char>),
}

impl View for IngestReply {
    type V = IngestReplyView;

    open spec fn view(&self) -> IngestReplyView {
        match *self {
            IngestReply::Accepted(c) => IngestReplyView::Accepted(c),
            IngestReply::Rejected(why) => IngestReplyView::Rejected(why@),
        }
    }
}

impl IngestReply {
    /// Holds the size of a reply's body to its bound, before it is parsed.
    pub fn check_body(bytes: &[u8]) -> (r: Result<(), PubSubError>)
        ensures
            error::fails_with(
                r,
                size_fault("ingest reply too large"@, bytes@.len(), MAX_INGEST_HEX_BYTES as nat),
            ),
    {
        if bytes.len() > MAX_INGEST_HEX_BYTES {
            return Err(bytes_error("ingest reply too large", bytes.len()));
        }
        Ok(())
    }
}

/// A subscription-control request to a topic owner. Each may carry a capability token.
#[derive(Debug, Clone, PartialEq, Eq)]
pub enum ControlRequest {
    /// Create a named subscription, or update its policy.
    CreateSubscription { name: String, policy: SubscriptionPolicy, grant: Option<String> },
    /// Delete a subscription.
    DeleteSubscription { name: String, grant: Option<String> },
    /// List subscription names.
    ListSubscriptions { grant: Option<String> },
    /// Ask for the topic's current high-water cursor.
    HighCursor { grant: Option<String> },
    /// Lease up to `max_messages` redeliverable messages.
    Pull { name: String, max_messages: usize, grant: Option<String> },
    /// Acknowledge a leased cursor.
    Ack { name: String, cursor: Cursor, grant: Option<String> },
    /// Negatively acknowledge a leased cursor.
    Nack { name: String, cursor: Cursor, grant: Option<String> },
}

/// What a control request asks for, its capability token aside.
#[verifier::ext_equal]
pub enum ControlView {
    CreateSubscription { name: Seq<char>, policy: SubscriptionPolicy },
    DeleteSubscription { name: Seq<char> },
    ListSubscriptions,
    HighCursor,
    Pull { name: Seq<char>, max_messages: usize },
    Ack { name: Seq<char>, cursor: Cursor },
    Nack { name: Seq<char>, cursor: Cursor },
}

impl View for ControlRequest {
    type V = ControlView;

    open spec fn view(&self) -> ControlView {
        match *self {
            ControlRequest::CreateSubscription { name, policy, .. } => {
                ControlView::CreateSubscription { name: name@, policy }
            },
            ControlRequest::DeleteSubscription { name, .. } => {
                ControlView::DeleteSubscription { name: name@ }
            },
            ControlRequest::ListSubscriptions { .. } => ControlView::ListSubscriptions,
            ControlRequest::HighCursor { .. } => ControlView::HighCursor,
            ControlRequest::Pull { name, max_messages, .. } => {
                ControlView::Pull { name: name@, max_messages }
            },
            ControlRequest::Ack { name, cursor, .. } => ControlView::Ack { name: name@, cursor },
            ControlRequest::Nack { name, cursor, .. } => ControlView::Nack { name: name@, cursor },
        }
    }
}

impl ControlRequest {
    /// The capability token that the request carries.
    pub open spec fn token(self) -> Option<Seq<char>> {
        match self {
            ControlRequest::CreateSubscription { grant, .. } => message::opt_text(grant),
            ControlRequest::DeleteSubscription { grant, .. } => message::opt_text(grant),
            ControlRequest::ListSubscriptions { grant } => message::opt_text(grant),
            ControlRequest::HighCursor { grant } => message::opt_text(grant),
            ControlRequest::Pull { grant, .. } => message::opt_text(grant),
            ControlRequest::Ack { grant, .. } => message::opt_text(grant),
            ControlRequest::Nack { grant, .. } => message::opt_text(grant),
        }
    }

    /// Holds the size of a request's body to its bound, before it is parsed.
    pub fn check_body(bytes: &[u8]) -> (r: Result<(), PubSubError>)
        ensures
            error::fails_with(
                r,
                size_fault(
                    "control request too large"@,
                    bytes@.len(),
                    MAX_CONTROL_BODY_BYTES as nat,
                ),
            ),
    {
        if bytes.len() > MAX_CONTROL_BODY_BYTES {
            return Err(bytes_error("control request too large", bytes.len()));
        }
        Ok(())
    }

    /// The capability token that the request carries.
    pub fn grant(&self) -> (g: Option<&str>)
        ensures
            match g {
                Some(t) => self.token() == Some(t@),
                None => self.token() is None,
            },
    {
        let grant: &Option<String> = match self {
            ControlRequest::CreateSubscription { grant, .. } => grant,
            ControlRequest::DeleteSubscription { grant, .. } => grant,
            ControlRequest::ListSubscriptions { grant } => grant,
            ControlRequest::HighCursor { grant } => grant,
            ControlRequest::Pull { grant, .. } => grant,
            ControlRequest::Ack { grant, .. } => grant,
            ControlRequest::Nack { grant, .. } => grant,
        };
        match grant {
            Some(t) => Some(t.as_str()),
            None => None,
        }
    }
}

/// One leased message, with its delivery attempt number: 1 on the first delivery.
#[derive(Debug, Clone, PartialEq, Eq)]
pub struct LeasedMessage {
    pub message: Message,
    pub delivery_attempt: u32,
}

impl View for LeasedMessage {
    type V = (MessageView, u32);

    open spec fn view(&self) -> (MessageView, u32) {
        (self.message@, self.delivery_attempt)
    }
}

/// The owner's reply to a [`ControlRequest`].
#[derive(Debug, Clone, PartialEq, Eq)]
pub enum ControlReply {
    /// A create, delete, ack or nack succeeded.
    Done,
    /// The high-water cursor.
    High(Cursor),
    /// The subscription names.
    Subscriptions(Vec<String>),
    /// The leased messages, in cursor order.
    Pulled(Vec<LeasedMessage>),
    /// The request was rejected; the text explains why.
    Rejected(String),
}

/// What the owner's reply to a control request stands for.
#[verifier::ext_equal]
pub enum ControlReplyView {
    Done,
    High(Cursor),
    Subscriptions(Seq<Seq<char>>),
    Pulled(Seq<(MessageView, u32)>),
    Rejected(Seq<char>),
}

impl View for ControlReply {
    type V = ControlReplyView;

    open spec fn view(&self) -> ControlReplyView {
        match *self {
            ControlReply::Done => ControlReplyView::Done,
            ControlReply::High(c) => ControlReplyView::High(c),
            ControlReply::Subscriptions(names) => ControlReplyView::Subscriptions(
                names@.map_values(|k: String| k@),
            ),
            ControlReply::Pulled(msgs) => ControlReplyView::Pulled(
                msgs@.map_values(|m: LeasedMessage| m@),
            ),
            ControlReply::Rejected(why) => ControlReplyView::Rejected(why@),
        }
    }
}

impl ControlReply {
    /// Holds the size of a reply's body to its bound, before it is parsed.
    pub fn check_body(bytes: &[u8]) -> (r: Result<(), PubSubError>)
        ensures
            error::fails_with(
                r,
                size_fault("control reply too large"@, bytes@.len(), MAX_INGEST_HEX_BYTES as nat),
            ),
    {
        if bytes.len() > MAX_INGEST_HEX_BYTES {
            return Err(bytes_error("control reply too large", bytes.len()));
        }
        Ok(())
    }
}

/// The reply token of an inbox frame that is a request on the mesh topic `wanted`: it came on that
/// topic and asks for a reply.
pub fn request_token(topic: &str, wanted: &str, reply_token: Option<u64>) -> (r: Option<u64>)
    ensures
        r == if topic@ == wanted@ {
            reply_token
        } else {
            None
        },
{
    match crate::strmap::place_of(topic, wanted) {
        crate::strmap::Place::Same => reply_token,
        _ => None,
    }
}

/// A parsed request is accepted exactly where its payload takes at most twice 10 MiB plus 64 KiB of hex
/// and its idempotency key, where it has one, at most 256 bytes.
pub proof fn parsed_requests_are_accepted(r: IngestView)
    ensures
        ingest_fault(r) is None <==> encode_utf8(r.payload_hex).len() <= 2 * 10 * 1024 * 1024 + 64
            * 1024 && (r.idempotency_key matches Some(k) ==> encode_utf8(k).len() <= 256),
{
}

/// A frame is accepted exactly where it is hexadecimal and of at most twice as many digits as a body may
/// have bytes, twice 10 MiB plus 64 KiB.
pub proof fn frames_are_accepted(hex: Seq<char>)
    ensures
        ({
            let d = encode_utf8(hex);
            ingest_hex_fault(hex) is None <==> d.len() <= 2 * (2 * 10 * 1024 * 1024 + 64 * 1024)
                && d.len() % 2 == 0 && forall|i: int|
                0 <= i < d.len() ==> '0' as int <= (#[trigger] d[i]) <= '9' as int || 'a' as int
                    <= d[i] <= 'f' as int || 'A' as int <= d[i] <= 'F' as int
        }),
{
    hexcodec::hexadecimal_text_is_recognized(encode_utf8(hex));
}

/// A body is refused exactly where it is larger than its bound.
pub proof fn bodies_are_refused_for_their_size(what: Seq<char>, n: nat, limit: nat)
    ensures
        size_fault(what, n, limit) is Some <==> n > limit,
        MAX_CONTROL_BODY_BYTES == 64 * 1024,
        MAX_INGEST_HEX_BYTES == 2 * 10 * 1024 * 1024 + 64 * 1024,
{
}

} // verus!
