//! The message model, and the mesh names that belong to a topic.
//!
//! A [`Message`] is one durable record in a topic's append log. It carries a monotonic [`Cursor`]
//! (its 1-based position in the log), the publisher, the opaque payload and the publish time. A
//! subscriber that pulls from a cursor receives every message at a position strictly greater.
use vstd::prelude::*;
use vstd::utf8::*;

use crate::error;
use crate::error::PubSubError;
use crate::hexcodec;
use crate::strmap::StrMap;
use crate::text;

verus! {

/// A monotonic message position within a topic's log. The first message is at cursor 1; cursor 0
/// means "from the very beginning" when pulling.
pub type Cursor = u64;

/// String key/value attributes of a message.
pub type Attributes = StrMap<String>;

/// Maximum size, in bytes, of a message payload: 10 MiB.
pub const MAX_PAYLOAD_BYTES: usize = 10_485_760;

/// Maximum number of attributes on one message.
pub const MAX_ATTRIBUTES: usize = 100;

/// Maximum length, in bytes, of an attribute key or value, and of an ordering key.
pub const MAX_ATTRIBUTE_LEN: usize = 1024;

/// Maximum length, in bytes, of a topic name.
pub const MAX_TOPIC_LEN: usize = 200;

/// What an optional text stands for.
pub open spec fn opt_text(o: Option<String>) -> Option<Seq<char>> {
    match o {
        Some(s) => Some(s@),
        None => None,
    }
}

/// Copies an optional text.
pub fn copy_opt(o: &Option<String>) -> (r: Option<String>)
    ensures
        opt_text(r) == opt_text(*o),
{
    match o {
        Some(s) => Some(s.clone()),
        None => None,
    }
}

/// One durable message: a payload plus delivery metadata. It is stored verbatim in the topic's
/// append log, so that a late subscriber replays the exact bytes that the publisher sent.
#[derive(Debug, PartialEq, Eq)]
pub struct Message {
    /// 1-based position in the topic log, assigned on append.
    pub cursor: Cursor,
    /// NodeId of the publisher, in hex. On an open topic it is claimed by the transport and not
    /// verified: see [`Message::publisher_is_authenticated`].
    pub publisher: String,
    /// Opaque payload, in hex. Use [`Message::data`] to decode.
    pub payload_hex: String,
    /// Unix seconds when the owner accepted the message into the log.
    pub published_at: u64,
    /// Optional ordering key: messages that share it keep their relative publish order.
    pub ordering_key: Option<String>,
    /// Attributes, for filtering without decoding the payload.
    pub attributes: Attributes,
    /// Whether the publisher was verified by a capability chain.
    pub publisher_authenticated: bool,
}

/// What a message stands for.
#[verifier::ext_equal]
pub struct MessageView {
    pub cursor: Cursor,
    pub publisher: Seq<char>,
    pub payload_hex: Seq<char>,
    pub published_at: u64,
    pub ordering_key: Option<Seq<char>>,
    pub attributes: Map<Seq<char>, Seq<char>>,
    pub publisher_authenticated: bool,
}

impl View for Message {
    type V = MessageView;

    open spec fn view(&self) -> MessageView {
        MessageView {
            cursor: self.cursor,
            publisher: self.publisher@,
            payload_hex: self.payload_hex@,
            published_at: self.published_at,
            ordering_key: opt_text(self.ordering_key),
            attributes: self.attributes@,
            publisher_authenticated: self.publisher_authenticated,
        }
    }
}

/// The message with no attributes and no ordering key from an unverified publisher.
pub open spec fn bare_message(
    cursor: Cursor,
    publisher: Seq<char>,
    payload: Seq<u8>,
    published_at: u64,
) -> MessageView {
    MessageView {
        cursor,
        publisher,
        payload_hex: hexcodec::hex_text(payload),
        published_at,
        ordering_key: None,
        attributes: Map::empty(),
        publisher_authenticated: false,
    }
}

impl MessageView {
    /// Why the payload cannot be decoded.
    pub open spec fn payload_fault(self) -> Option<hexcodec::HexError> {
        hexcodec::hex_fault(encode_utf8(self.payload_hex))
    }

    /// The payload.
    pub open spec fn payload(self) -> Seq<u8> {
        hexcodec::hex_bytes(encode_utf8(self.payload_hex))
    }
}

impl Clone for Message {
    fn clone(&self) -> (m: Self)
        ensures
            m@ == self@,
    {
        Message {
            cursor: self.cursor,
            publisher: self.publisher.clone(),
            payload_hex: self.payload_hex.clone(),
            published_at: self.published_at,
            ordering_key: copy_opt(&self.ordering_key),
            attributes: self.attributes.clone(),
            publisher_authenticated: self.publisher_authenticated,
        }
    }
}

impl Message {
    /// A message with no attributes, no ordering key and an unauthenticated publisher. Callers that
    /// build a message before it is logged pass cursor `0`: the log assigns it on append.
    pub fn new(cursor: Cursor, publisher: &str, payload: &[u8], published_at: u64) -> (m: Self)
        ensures
            m@ == bare_message(cursor, publisher@, payload@, published_at),
    {
        Message {
            cursor,
            publisher: publisher.to_owned(),
            payload_hex: hexcodec::encode(payload),
            published_at,
            ordering_key: None,
            attributes: StrMap::new(),
            publisher_authenticated: false,
        }
    }

    /// Sets the ordering key.
    pub fn with_ordering_key(self, key: &str) -> (m: Self)
        ensures
            m@ == (MessageView { ordering_key: Some(key@), ..self@ }),
    {
        let mut m: Message = self;
        m.ordering_key = Some(key.to_owned());
        m
    }

    /// Sets the attributes.
    pub fn with_attributes(self, attrs: Attributes) -> (m: Self)
        ensures
            m@ == (MessageView { attributes: attrs@, ..self@ }),
    {
        let mut m: Message = self;
        m.attributes = attrs;
        m
    }

    /// Marks the publisher as verified, or not.
    pub fn authenticated(self, yes: bool) -> (m: Self)
        ensures
            m@ == (MessageView { publisher_authenticated: yes, ..self@ }),
    {
        let mut m: Message = self;
        m.publisher_authenticated = yes;
        m
    }

    /// Whether the recorded publisher was verified by a capability chain.
    pub fn publisher_is_authenticated(&self) -> (b: bool)
        ensures
            b == self@.publisher_authenticated,
    {
        self.publisher_authenticated
    }

    /// Decodes the payload.
    pub fn data(&self) -> (r: Result<Vec<u8>, PubSubError>)
        ensures
            match r {
                Ok(bytes) => self@.payload_fault() is None && bytes@ == self@.payload(),
                Err(e) => self@.payload_fault() is Some && e@ == "bad payload hex: "@
                    + hexcodec::hex_error_text(self@.payload_fault()->0),
            },
    {
        match hexcodec::decode(self.payload_hex.as_str()) {
            Ok(bytes) => Ok(bytes),
            Err(e) => {
                let mut t: String = "bad payload hex: ".to_owned();
                t.append(hexcodec::error_text(e).as_str());
                Err(PubSubError::new(t))
            },
        }
    }

    /// The payload as text, lossily; empty where it cannot be decoded.
    pub fn text(&self) -> (t: String)
        ensures
            self@.payload_fault() is Some ==> t@ == Seq::<char>::empty(),
            self@.payload_fault() is None ==> t@ == hexcodec::utf8_lossy_text(self@.payload()),
            self@.payload_fault() is None && valid_utf8(self@.payload()) ==> t@ == decode_utf8(
                self@.payload(),
            ),
    {
        match hexcodec::decode(self.payload_hex.as_str()) {
            Ok(bytes) => hexcodec::utf8_lossy(bytes.as_slice()),
            Err(_) => String::new(),
        }
    }
}

/// A message gives back the payload that it was made from.
pub proof fn payload_round_trips(cursor: Cursor, publisher: Seq<char>, payload: Seq<u8>, at: u64)
    ensures
        bare_message(cursor, publisher, payload, at).payload_fault() is None,
        bare_message(cursor, publisher, payload, at).payload() == payload,
{
    hexcodec::hex_round_trips(payload);
}

/// Optional metadata that a publisher can attach to a message. The default is none.
#[derive(Debug, PartialEq, Eq)]
pub struct PublishOptions {
    /// Optional ordering key.
    pub ordering_key: Option<String>,
    /// Attributes, for filtering on the subscriber's side.
    pub attributes: Attributes,
}

/// What publish options stand for.
#[verifier::ext_equal]
pub struct OptionsView {
    pub ordering_key: Option<Seq<char>>,
    pub attributes: Map<Seq<char>, Seq<char>>,
}

impl View for PublishOptions {
    type V = OptionsView;

    open spec fn view(&self) -> OptionsView {
        OptionsView { ordering_key: opt_text(self.ordering_key), attributes: self.attributes@ }
    }
}

/// No ordering key and no attributes.
pub open spec fn no_options() -> OptionsView {
    OptionsView { ordering_key: None, attributes: Map::empty() }
}

impl Default for PublishOptions {
    fn default() -> (o: Self)
        ensures
            o@ == no_options(),
    {
        PublishOptions { ordering_key: None, attributes: StrMap::new() }
    }
}

impl Clone for PublishOptions {
    fn clone(&self) -> (o: Self)
        ensures
            o@ == self@,
    {
        PublishOptions {
            ordering_key: copy_opt(&self.ordering_key),
            attributes: self.attributes.clone(),
        }
    }
}

/// Why publish options are refused: a long ordering key, or else their attributes.
pub open spec fn options_fault(o: OptionsView) -> Option<Seq<char>> {
    match o.ordering_key {
        Some(k) if text::byte_len(k) > MAX_ATTRIBUTE_LEN => Some(
            "ordering key too long ("@ + text::decimal_text(text::byte_len(k)) + " > "@
                + text::decimal_text(MAX_ATTRIBUTE_LEN as nat) + ")"@,
        ),
        _ => attributes_fault(o.attributes),
    }
}

impl PublishOptions {
    /// No ordering key and no attributes.
    pub fn new() -> (o: Self)
        ensures
            o@ == no_options(),
    {
        PublishOptions::default()
    }

    /// Sets the ordering key.
    pub fn ordering_key(self, key: &str) -> (o: Self)
        ensures
            o@ == (OptionsView { ordering_key: Some(key@), ..self@ }),
    {
        let mut o: PublishOptions = self;
        o.ordering_key = Some(key.to_owned());
        o
    }

    /// Adds one attribute.
    pub fn attribute(self, key: &str, value: &str) -> (o: Self)
        ensures
            o@ == (OptionsView { attributes: self@.attributes.insert(key@, value@), ..self@ }),
    {
        let mut o: PublishOptions = self;
        o.attributes.insert(key.to_owned(), value.to_owned());
        o
    }

    /// Holds the options to the configured bounds.
    pub fn validate(&self) -> (r: Result<(), PubSubError>)
        ensures
            error::fails_with(r, options_fault(self@)),
    {
        if let Some(k) = &self.ordering_key {
            let n: usize = text::len_bytes(k.as_str());
            if n > MAX_ATTRIBUTE_LEN {
                let mut t: String = "ordering key too long (".to_owned();
                t.append(text::decimal(n as u64).as_str());
                t.append(" > ");
                t.append(text::decimal(MAX_ATTRIBUTE_LEN as u64).as_str());
                t.append(")");
                return Err(PubSubError::new(t));
            }
        }
        validate_attributes(&self.attributes)
    }
}

/// Why a payload is refused: it is too large.
pub open spec fn payload_size_fault(len: nat) -> Option<Seq<char>> {
    if len > MAX_PAYLOAD_BYTES {
        Some(
            "payload too large ("@ + text::decimal_text(len) + " bytes > "@ + text::decimal_text(
                MAX_PAYLOAD_BYTES as nat,
            ) + " limit)"@,
        )
    } else {
        None
    }
}

/// Holds a payload's size to [`MAX_PAYLOAD_BYTES`].
pub fn validate_payload(payload: &[u8]) -> (r: Result<(), PubSubError>)
    ensures
        error::fails_with(r, payload_size_fault(payload@.len())),
{
    if payload.len() > MAX_PAYLOAD_BYTES {
        let mut t: String = "payload too large (".to_owned();
        t.append(text::decimal(payload.len() as u64).as_str());
        t.append(" bytes > ");
        t.append(text::decimal(MAX_PAYLOAD_BYTES as u64).as_str());
        t.append(" limit)");
        return Err(PubSubError::new(t));
    }
    Ok(())
}

/// Why an attribute is refused: an empty or long key, or else a long value.
pub open spec fn attribute_fault(k: Seq<char>, v: Seq<char>) -> Option<Seq<char>> {
    if k.len() == 0 {
        Some("attribute key must not be empty"@)
    } else if text::byte_len(k) > MAX_ATTRIBUTE_LEN {
        Some(
            "attribute key '"@ + k + "' too long ("@ + text::decimal_text(text::byte_len(k)) + " > "@
                + text::decimal_text(MAX_ATTRIBUTE_LEN as nat) + ")"@,
        )
    } else if text::byte_len(v) > MAX_ATTRIBUTE_LEN {
        Some(
            "attribute '"@ + k + "' value too long ("@ + text::decimal_text(text::byte_len(v))
                + " > "@ + text::decimal_text(MAX_ATTRIBUTE_LEN as nat) + ")"@,
        )
    } else {
        None
    }
}

/// Whether `k` is the first key, in the order of strings, whose attribute is refused.
pub open spec fn first_at_fault(m: Map<Seq<char>, Seq<char>>, k: Seq<char>) -> bool {
    &&& m.contains_key(k)
    &&& attribute_fault(k, m[k]) is Some
    &&& forall|j: Seq<char>| #[trigger]
        m.contains_key(j) && crate::strmap::text_before(j, k) ==> attribute_fault(j, m[j]) is None
}

/// Why attributes are refused: there are too many, or else the first one that is refused.
pub open spec fn attributes_fault(m: Map<Seq<char>, Seq<char>>) -> Option<Seq<char>> {
    if m.dom().len() > MAX_ATTRIBUTES {
        Some(
            "too many attributes ("@ + text::decimal_text(m.dom().len()) + " > "@
                + text::decimal_text(MAX_ATTRIBUTES as nat) + ")"@,
        )
    } else if exists|k: Seq<char>| first_at_fault(m, k) {
        let k = choose|k: Seq<char>| first_at_fault(m, k);
        attribute_fault(k, m[k])
    } else {
        None
    }
}

/// Holds one attribute to the configured bounds.
fn validate_attribute(k: &str, v: &str) -> (r: Result<(), PubSubError>)
    ensures
        error::fails_with(r, attribute_fault(k@, v@)),
{
    if k.unicode_len() == 0 {
        return Err(PubSubError::new("attribute key must not be empty".to_owned()));
    }
    let key_len: usize = text::len_bytes(k);
    if key_len > MAX_ATTRIBUTE_LEN {
        let mut t: String = "attribute key '".to_owned();
        t.append(k);
        t.append("' too long (");
        t.append(text::decimal(key_len as u64).as_str());
        t.append(" > ");
        t.append(text::decimal(MAX_ATTRIBUTE_LEN as u64).as_str());
        t.append(")");
        return Err(PubSubError::new(t));
    }
    let value_len: usize = text::len_bytes(v);
    if value_len > MAX_ATTRIBUTE_LEN {
        let mut t: String = "attribute '".to_owned();
        t.append(k);
        t.append("' value too long (");
        t.append(text::decimal(value_len as u64).as_str());
        t.append(" > ");
        t.append(text::decimal(MAX_ATTRIBUTE_LEN as u64).as_str());
        t.append(")");
        return Err(PubSubError::new(t));
    }
    Ok(())
}

proof fn lemma_first_at_fault_unique(m: Map<Seq<char>, Seq<char>>, a: Seq<char>, b: Seq<char>)
    requires
        first_at_fault(m, a),
        first_at_fault(m, b),
    ensures
        a == b,
{
    crate::strmap::text_before_total(a, b);
}

/// Holds attributes to [`MAX_ATTRIBUTES`] and [`MAX_ATTRIBUTE_LEN`].
pub fn validate_attributes(attrs: &Attributes) -> (r: Result<(), PubSubError>)
    ensures
        error::fails_with(r, attributes_fault(attrs@)),
{
    let n: usize = attrs.len();
    if n > MAX_ATTRIBUTES {
        let mut t: String = "too many attributes (".to_owned();
        t.append(text::decimal(n as u64).as_str());
        t.append(" > ");
        t.append(text::decimal(MAX_ATTRIBUTES as u64).as_str());
        t.append(")");
        return Err(PubSubError::new(t));
    }
    let ghost order = attrs.order();
    let mut i: usize = 0;
    while i < n
        invariant
            i <= n,
            n == order.len(),
            n == attrs@.dom().len(),
            n <= MAX_ATTRIBUTES,
            order == attrs.order(),
            crate::strmap::texts_ascend(order),
            order.to_set() == attrs@.dom(),
            forall|j: int|
                0 <= j < i ==> attribute_fault(#[trigger] order[j], attrs@[order[j]]) is None,
        decreases n - i,
    {
        let (k, v): (&str, &String) = attrs.entry(i);
        match validate_attribute(k, v.as_str()) {
            Ok(_) => {},
            Err(e) => {
                proof {
                    assert forall|j: Seq<char>| #[trigger]
                        attrs@.contains_key(j) && crate::strmap::text_before(
                            j,
                            k@,
                        ) implies attribute_fault(j, attrs@[j]) is None by {
                        assert(order.to_set().contains(j));
                        let x = choose|x: int| 0 <= x < order.len() && order[x] == j;
                        if x >= i {
                            if x > i {
                                crate::strmap::text_before_transitive(k@, j, k@);
                            }
                            crate::strmap::text_before_irreflexive(k@);
                        }
                    }
                    assert(first_at_fault(attrs@, k@));
                    let c = choose|c: Seq<char>| first_at_fault(attrs@, c);
                    lemma_first_at_fault_unique(attrs@, c, k@);
                }
                return Err(e);
            },
        }
        i = i + 1;
    }
    proof {
        assert forall|k: Seq<char>| !first_at_fault(attrs@, k) by {
            if attrs@.contains_key(k) {
                assert(order.to_set().contains(k));
                let x = choose|x: int| 0 <= x < order.len() && order[x] == k;
                assert(attribute_fault(order[x], attrs@[order[x]]) is None);
            }
        }
    }
    Ok(())
}

/// Attributes are accepted exactly where there are not too many and none of them is refused.
pub proof fn attributes_accepted_when_each_is(m: Map<Seq<char>, Seq<char>>)
    requires
        m.dom().finite(),
    ensures
        attributes_fault(m) is None <==> m.dom().len() <= MAX_ATTRIBUTES && forall|k: Seq<char>|
            #[trigger] m.contains_key(k) ==> attribute_fault(k, m[k]) is None,
{
    let bad = m.dom().filter(|k: Seq<char>| attribute_fault(k, m[k]) is Some);
    if exists|k: Seq<char>| #[trigger] m.contains_key(k) && attribute_fault(k, m[k]) is Some {
        let k = choose|k: Seq<char>| #[trigger]
            m.contains_key(k) && attribute_fault(k, m[k]) is Some;
        assert(bad.contains(k));
        let f = lemma_least(bad);
        assert forall|j: Seq<char>| #[trigger]
            m.contains_key(j) && crate::strmap::text_before(j, f) implies attribute_fault(
            j,
            m[j],
        ) is None by {
            if attribute_fault(j, m[j]) is Some {
                assert(bad.contains(j));
            }
        }
        assert(first_at_fault(m, f));
    }
}

/// A set of strings that is finite and not empty has a least string.
proof fn lemma_least(s: Set<Seq<char>>) -> (least: Seq<char>)
    requires
        s.finite(),
        s.len() > 0,
    ensures
        s.contains(least),
        forall|k: Seq<char>| #[trigger] s.contains(k) ==> !crate::strmap::text_before(k, least),
    decreases s.len(),
{
    let x = s.choose();
    let rest = s.remove(x);
    crate::strmap::text_before_irreflexive(x);
    if rest.len() == 0 {
        assert forall|k: Seq<char>| #[trigger] s.contains(k) implies !crate::strmap::text_before(
            k,
            x,
        ) by {
            if k != x {
                assert(rest.contains(k));
            }
        }
        x
    } else {
        let y = lemma_least(rest);
        let least = if crate::strmap::text_before(x, y) {
            x
        } else {
            y
        };
        assert forall|k: Seq<char>| #[trigger] s.contains(k) implies !crate::strmap::text_before(
            k,
            least,
        ) by {
            if k != x {
                assert(rest.contains(k));
                if least == x && crate::strmap::text_before(k, x) {
                    crate::strmap::text_before_transitive(k, x, y);
                }
            }
        }
        least
    }
}

/// Whether `c` may stand in a topic name: a letter, a digit, `.`, `-`, `_` or `:`.
pub open spec fn topic_char(c: char) -> bool {
    'a' <= c <= 'z' || 'A' <= c <= 'Z' || '0' <= c <= '9' || c == '.' || c == '-' || c == '_' || c
        == ':'
}

/// Why a topic name is refused: it is empty, too long, or holds a character that may not stand in
/// it.
pub open spec fn topic_fault(topic: Seq<char>) -> Option<Seq<char>> {
    if topic.len() == 0 {
        Some("topic name must not be empty"@)
    } else if text::byte_len(topic) > MAX_TOPIC_LEN {
        Some(
            "topic name too long ("@ + text::decimal_text(text::byte_len(topic)) + " > "@
                + text::decimal_text(MAX_TOPIC_LEN as nat) + ")"@,
        )
    } else if exists|i: int| 0 <= i < topic.len() && !topic_char(#[trigger] topic[i]) {
        Some(
            "topic '"@ + topic
                + "' has invalid characters (allowed: a-z A-Z 0-9 . - _ :)"@,
        )
    } else {
        None
    }
}

/// Validates a topic name. Topics are not empty, at most 200 bytes long, and hold only
/// `a-z` / `A-Z` / `0-9` / `.` / `-` / `_` / `:`, characters that are safe in a mesh name.
pub fn validate_topic(topic: &str) -> (r: Result<(), PubSubError>)
    ensures
        error::fails_with(r, topic_fault(topic@)),
{
    let chars: Vec<char> = text::chars_of(topic);
    if chars.len() == 0 {
        return Err(PubSubError::new("topic name must not be empty".to_owned()));
    }
    let n: usize = text::len_bytes(topic);
    if n > MAX_TOPIC_LEN {
        let mut t: String = "topic name too long (".to_owned();
        t.append(text::decimal(n as u64).as_str());
        t.append(" > ");
        t.append(text::decimal(MAX_TOPIC_LEN as u64).as_str());
        t.append(")");
        return Err(PubSubError::new(t));
    }
    let mut i: usize = 0;
    while i < chars.len()
        invariant
            i <= chars@.len(),
            chars@ == topic@,
            chars@.len() > 0,
            text::byte_len(topic@) <= MAX_TOPIC_LEN,
            forall|j: int| 0 <= j < i ==> topic_char(#[trigger] topic@[j]),
        decreases chars@.len() - i,
    {
        let c: char = chars[i];
        let ok: bool = ('a' <= c && c <= 'z') || ('A' <= c && c <= 'Z') || ('0' <= c && c <= '9')
            || c == '.' || c == '-' || c == '_' || c == ':';
        if !ok {
            assert(!topic_char(topic@[i as int]));
            let mut t: String = "topic '".to_owned();
            t.append(topic);
            t.append("' has invalid characters (allowed: a-z A-Z 0-9 . - _ :)");
            return Err(PubSubError::new(t));
        }
        i = i + 1;
    }
    Ok(())
}

/// The kinds of mesh name that belong to a topic.
pub enum MeshName {
    /// The durable append log.
    Log,
    /// The live broadcast.
    Live,
    /// Publish requests to the owner.
    Ingest,
    /// Subscription requests to the owner.
    Control,
    /// The durable subscription registry.
    Subs,
}

/// What stands before the topic in a mesh name.
pub open spec fn mesh_prefix(kind: MeshName) -> Seq<char> {
    match kind {
        MeshName::Log => "ce-pubsub.log."@,
        MeshName::Live => "ce-pubsub.live."@,
        MeshName::Ingest => "ce-pubsub.ingest."@,
        MeshName::Control => "ce-pubsub.ctl."@,
        MeshName::Subs => "ce-pubsub.subs."@,
    }
}

/// The mesh name of a kind for a topic.
pub open spec fn mesh_name(kind: MeshName, topic: Seq<char>) -> Seq<char> {
    mesh_prefix(kind) + topic
}

/// The name of the collection that holds a topic's durable append log.
pub fn log_name(topic: &str) -> (s: String)
    ensures
        s@ == mesh_name(MeshName::Log, topic@),
{
    let mut s: String = "ce-pubsub.log.".to_owned();
    s.append(topic);
    s
}

/// The live mesh topic on which messages are fanned out. Distinct from the durable log, so that
/// live broadcast and durable replay never interfere.
pub fn live_topic(topic: &str) -> (s: String)
    ensures
        s@ == mesh_name(MeshName::Live, topic@),
{
    let mut s: String = "ce-pubsub.live.".to_owned();
    s.append(topic);
    s
}

/// The directed topic on which a publisher sends a message to the owner.
pub fn ingest_topic(topic: &str) -> (s: String)
    ensures
        s@ == mesh_name(MeshName::Ingest, topic@),
{
    let mut s: String = "ce-pubsub.ingest.".to_owned();
    s.append(topic);
    s
}

/// The directed topic on which a subscriber sends subscription requests to the owner.
pub fn control_topic(topic: &str) -> (s: String)
    ensures
        s@ == mesh_name(MeshName::Control, topic@),
{
    let mut s: String = "ce-pubsub.ctl.".to_owned();
    s.append(topic);
    s
}

/// The name of the collection that holds a topic's subscription registry.
pub fn subs_log_name(topic: &str) -> (s: String)
    ensures
        s@ == mesh_name(MeshName::Subs, topic@),
{
    let mut s: String = "ce-pubsub.subs.".to_owned();
    s.append(topic);
    s
}

/// The dead-letter topic of `topic`: `<topic>.dlq`.
pub fn dead_letter_topic(topic: &str) -> (s: String)
    ensures
        s@ == topic@ + ".dlq"@,
{
    let mut s: String = topic.to_owned();
    s.append(".dlq");
    s
}

/// Every mesh name stands in the library's own name space.
pub proof fn mesh_names_are_namespaced(kind: MeshName, topic: Seq<char>)
    ensures
        text::has_prefix(mesh_name(kind, topic), "ce-pubsub."@),
{
    reveal_strlit("ce-pubsub.");
    reveal_strlit("ce-pubsub.log.");
    reveal_strlit("ce-pubsub.live.");
    reveal_strlit("ce-pubsub.ingest.");
    reveal_strlit("ce-pubsub.ctl.");
    reveal_strlit("ce-pubsub.subs.");
    assert(mesh_name(kind, topic).take(10) =~= "ce-pubsub."@);
}

/// Two mesh names are the same only where both their kinds and their topics are.
pub proof fn mesh_names_are_distinct(a: MeshName, s: Seq<char>, b: MeshName, t: Seq<char>)
    requires
        mesh_name(a, s) == mesh_name(b, t),
    ensures
        a == b,
        s == t,
{
    reveal_strlit("ce-pubsub.log.");
    reveal_strlit("ce-pubsub.live.");
    reveal_strlit("ce-pubsub.ingest.");
    reveal_strlit("ce-pubsub.ctl.");
    reveal_strlit("ce-pubsub.subs.");
    let m = mesh_name(a, s);
    assert(m[10] == mesh_prefix(a)[10] && m[11] == mesh_prefix(a)[11]);
    assert(m[10] == mesh_prefix(b)[10] && m[11] == mesh_prefix(b)[11]);
    assert(a == b);
    let n = mesh_prefix(a).len() as int;
    assert(m.skip(n) =~= s);
    assert(m.skip(n) =~= t);
}

/// The dead-letter topics of two topics are the same only where the topics are, and no topic is its
/// own dead-letter topic.
pub proof fn dead_letter_topics_are_distinct(s: Seq<char>, t: Seq<char>)
    ensures
        s + ".dlq"@ == t + ".dlq"@ ==> s == t,
        s != s + ".dlq"@,
{
    reveal_strlit(".dlq");
    assert((s + ".dlq"@).len() == s.len() + 4);
    if s + ".dlq"@ == t + ".dlq"@ {
        assert((s + ".dlq"@).take(s.len() as int) =~= s);
        assert((t + ".dlq"@).take(t.len() as int) =~= t);
    }
}

/// A topic name is accepted exactly where it has 1 to 200 characters, each of them a letter from a to z
/// of either case, a digit, or one of `.`, `-`, `_` and `:`.
pub proof fn topic_names_are_accepted(topic: Seq<char>)
    ensures
        topic_fault(topic) is None <==> 1 <= topic.len() <= 200 && forall|i: int|
            0 <= i < topic.len() ==> {
                let n = (#[trigger] topic[i]) as int;
                65 <= n <= 90 || 97 <= n <= 122 || 48 <= n <= 58 || n == 45 || n == 46 || n == 95
            },
{
    if forall|i: int| 0 <= i < topic.len() ==> topic_char(#[trigger] topic[i]) {
        assert forall|i: int| 0 <= i < topic.len() implies '\0' <= #[trigger] topic[i]
            <= '\u{7f}' by {
            assert(topic_char(topic[i]));
        }
        is_ascii_chars_encode_utf8(topic);
        assert forall|i: int| 0 <= i < topic.len() implies {
            let n = (#[trigger] topic[i]) as int;
            65 <= n <= 90 || 97 <= n <= 122 || 48 <= n <= 58 || n == 45 || n == 46 || n == 95
        } by {
            assert(topic_char(topic[i]));
        }
    } else {
        let i = choose|i: int| 0 <= i < topic.len() && !topic_char(#[trigger] topic[i]);
        assert(!topic_char(topic[i]));
    }
}

/// A payload is accepted exactly up to 10 MiB.
pub proof fn payloads_are_accepted(len: nat)
    ensures
        payload_size_fault(len) is None <==> len <= 10 * 1024 * 1024,
{
}

/// Attributes are accepted exactly where there are at most 100 of them, no key is empty, and no key and
/// no value is longer than 1024 bytes; options, where besides the ordering key is not longer either.
pub proof fn options_are_accepted(o: OptionsView)
    requires
        o.attributes.dom().finite(),
    ensures
        attributes_fault(o.attributes) is None <==> o.attributes.dom().len() <= 100 && forall|
            k: Seq<char>,
        | #[trigger]
            o.attributes.contains_key(k) ==> k.len() > 0 && encode_utf8(k).len() <= 1024
                && encode_utf8(o.attributes[k]).len() <= 1024,
        options_fault(o) is None <==> attributes_fault(o.attributes) is None && (
        o.ordering_key matches Some(k) ==> encode_utf8(k).len() <= 1024),
{
    attributes_accepted_when_each_is(o.attributes);
    assert forall|k: Seq<char>| #[trigger] o.attributes.contains_key(k) implies (attribute_fault(
        k,
        o.attributes[k],
    ) is None <==> k.len() > 0 && encode_utf8(k).len() <= 1024 && encode_utf8(
        o.attributes[k],
    ).len() <= 1024) by {}
}

/// A message is made of what it is given: the cursor, the publisher, the payload and the time; nothing
/// else is attached to it, and its publisher does not count as verified.
pub proof fn message_is_what_it_was_made_of(
    cursor: Cursor,
    publisher: Seq<char>,
    payload: Seq<u8>,
    at: u64,
    k: Seq<char>,
)
    ensures
        ({
            let m = bare_message(cursor, publisher, payload, at);
            &&& m.cursor == cursor
            &&& m.publisher == publisher
            &&& m.published_at == at
            &&& m.payload_fault() is None
            &&& m.payload() == payload
            &&& m.ordering_key is None
            &&& !m.attributes.contains_key(k)
            &&& !m.publisher_authenticated
        }),
{
    hexcodec::hex_round_trips(payload);
}

/// A mesh name ends with its topic.
pub proof fn mesh_names_end_with_their_topic(kind: MeshName, topic: Seq<char>)
    ensures
        mesh_name(kind, topic).len() >= topic.len(),
        mesh_name(kind, topic).skip(mesh_name(kind, topic).len() - topic.len()) == topic,
{
    let m = mesh_name(kind, topic);
    assert(m.skip(m.len() - topic.len()) =~= topic);
}

/// Publish options start with nothing attached.
pub proof fn options_start_empty(k: Seq<char>)
    ensures
        no_options().ordering_key is None,
        !no_options().attributes.contains_key(k),
{
}

} // verus!
