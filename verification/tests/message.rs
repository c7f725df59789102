//! Messages, publish options, attribute filters and mesh names.
use ce_pubsub::message::{
    control_topic, dead_letter_topic, ingest_topic, live_topic, log_name, subs_log_name,
    validate_attributes, validate_payload, validate_topic, Attributes, MAX_ATTRIBUTES,
    MAX_ATTRIBUTE_LEN, MAX_PAYLOAD_BYTES,
};
use ce_pubsub::{AttributeFilter, Message, PublishOptions};

trait AttributeForTest {
    fn attribute_for_test(self, k: &str, v: &str) -> Self;
}

impl AttributeForTest for Message {
    fn attribute_for_test(mut self, k: &str, v: &str) -> Self {
        self.attributes.insert(k.to_string(), v.to_string());
        self
    }
}

#[test]
fn message_roundtrips_payload() {
    let m = Message::new(7, "abc", b"hello world", 1_700_000_000);
    assert_eq!(m.cursor, 7);
    assert_eq!(m.publisher, "abc");
    assert_eq!(m.data().unwrap(), b"hello world");
    assert_eq!(m.text(), "hello world");
}

#[test]
fn validate_topic_accepts_reasonable_names() {
    for t in ["orders", "orders.eu", "a-b_c:d", "T0pic", "x"] {
        assert!(validate_topic(t).is_ok(), "{t} should be valid");
    }
}

#[test]
fn validate_topic_rejects_bad_names() {
    assert!(validate_topic("").is_err());
    assert!(validate_topic("has space").is_err());
    assert!(validate_topic("slash/here").is_err());
    assert!(validate_topic(&"x".repeat(201)).is_err());
}

#[test]
fn mesh_names_are_namespaced_and_distinct() {
    let log = log_name("t");
    let live = live_topic("t");
    let ingest = ingest_topic("t");
    let ctl = control_topic("t");
    let subs = subs_log_name("t");
    let names = [&log, &live, &ingest, &ctl, &subs];
    for n in names {
        assert!(n.starts_with("ce-pubsub."), "{n} must be namespaced");
    }
    // All distinct.
    for i in 0..names.len() {
        for j in (i + 1)..names.len() {
            assert_ne!(names[i], names[j], "names {i} and {j} collide");
        }
    }
}

#[test]
fn dead_letter_name() {
    assert_eq!(dead_letter_topic("orders"), "orders.dlq");
}

#[test]
fn payload_size_limit_enforced() {
    assert!(validate_payload(&[0u8; 100]).is_ok());
    let at_limit = vec![0u8; MAX_PAYLOAD_BYTES];
    assert!(validate_payload(&at_limit).is_ok());
    let over_limit = vec![0u8; MAX_PAYLOAD_BYTES + 1];
    assert!(validate_payload(&over_limit).is_err());
}

#[test]
fn attribute_bounds_enforced() {
    let mut ok = Attributes::new();
    ok.insert("k".to_string(), "v".to_string());
    assert!(validate_attributes(&ok).is_ok());

    let mut empty_key = Attributes::new();
    empty_key.insert(String::new(), "v".to_string());
    assert!(validate_attributes(&empty_key).is_err());

    let mut long_val = Attributes::new();
    long_val.insert("k".to_string(), "x".repeat(MAX_ATTRIBUTE_LEN + 1));
    assert!(validate_attributes(&long_val).is_err());

    let mut too_many = Attributes::new();
    for i in 0..=MAX_ATTRIBUTES {
        too_many.insert(format!("k{i}"), "v".to_string());
    }
    assert!(validate_attributes(&too_many).is_err());
}

#[test]
fn publish_options_builder_and_validate() {
    let opts = PublishOptions::new()
        .ordering_key("region-eu")
        .attribute("kind", "order")
        .attribute("priority", "high");
    assert_eq!(opts.ordering_key.as_deref(), Some("region-eu"));
    assert_eq!(opts.attributes.len(), 2);
    assert!(opts.validate().is_ok());

    let bad = PublishOptions::new().ordering_key(&"x".repeat(MAX_ATTRIBUTE_LEN + 1));
    assert!(bad.validate().is_err());
}

#[test]
fn message_builders_set_fields() {
    let mut attrs = Attributes::new();
    attrs.insert("kind".to_string(), "order".to_string());
    let m = Message::new(1, "n", b"hi", 1)
        .with_ordering_key("k1")
        .with_attributes(attrs.clone())
        .authenticated(true);
    assert_eq!(m.ordering_key.as_deref(), Some("k1"));
    assert_eq!(m.attributes, attrs);
    assert!(m.publisher_is_authenticated());
}

#[test]
fn attribute_filter_matches_exact() {
    let m = Message::new(1, "n", b"x", 1).attribute_for_test("kind", "order");
    assert!(AttributeFilter::any().matches(&m));
    assert!(AttributeFilter::any().require("kind", "order").matches(&m));
    assert!(
        !AttributeFilter::any()
            .require("kind", "payment")
            .matches(&m)
    );
    assert!(!AttributeFilter::any().require("missing", "x").matches(&m));
    // Multi-clause AND.
    let m2 = m.clone().attribute_for_test("priority", "high");
    assert!(
        AttributeFilter::any()
            .require("kind", "order")
            .require("priority", "high")
            .matches(&m2)
    );
    assert!(
        !AttributeFilter::any()
            .require("kind", "order")
            .require("priority", "low")
            .matches(&m2)
    );
}

#[test]
fn attribute_filter_parse() {
    let f = AttributeFilter::parse(r#"kind="order" priority="high""#).unwrap();
    let m = Message::new(1, "n", b"x", 1)
        .attribute_for_test("kind", "order")
        .attribute_for_test("priority", "high");
    assert!(f.matches(&m));

    // attributes. prefix is stripped, == accepted.
    let f2 = AttributeFilter::parse(r#"attributes.kind == "order""#).unwrap();
    assert!(f2.matches(&m));

    // empty → match all.
    assert!(AttributeFilter::parse("   ").unwrap().is_empty());

    // malformed.
    assert!(AttributeFilter::parse("kind=order").is_err()); // unquoted value
    assert!(AttributeFilter::parse(r#"kind="order"#).is_err()); // unterminated
    assert!(AttributeFilter::parse(r#"="v""#).is_err()); // empty key
}

#[test]
fn message_lossy_utf8_text() {
    // Invalid UTF-8 bytes → text() is lossy, never panics.
    let m = Message::new(1, "n", &[0xff, 0xfe, 0x41], 1);
    let t = m.text();
    assert!(t.contains('A'), "valid byte survives lossy decode");
}

#[test]
fn topic_length_boundary() {
    assert!(validate_topic(&"a".repeat(200)).is_ok());
    assert!(validate_topic(&"a".repeat(201)).is_err());
    assert!(validate_topic("").is_err());
}

#[test]
fn topic_charset_boundaries() {
    assert!(validate_topic("a.b-c_d:e").is_ok());
    assert!(validate_topic("space here").is_err());
    assert!(validate_topic("slash/here").is_err());
    assert!(validate_topic("emoji\u{1F600}").is_err());
}

#[test]
fn mesh_names_are_distinct_and_namespaced() {
    let (l, v, i) = (log_name("t"), live_topic("t"), ingest_topic("t"));
    assert!(l.starts_with("ce-pubsub."));
    assert!(v.starts_with("ce-pubsub."));
    assert!(i.starts_with("ce-pubsub."));
    assert_ne!(l, v);
    assert_ne!(v, i);
    assert_ne!(l, i);
}

#[test]
fn message_with_corrupt_hex_payload_decodes_to_error_not_panic() {
    let mut bad = Message::new(1, "n", b"hi", 1);
    bad.payload_hex = "zz not hex".into();
    assert!(bad.data().is_err(), "corrupt payload hex must error");
    assert_eq!(
        bad.text(),
        "",
        "text() degrades to empty on bad hex, never panics"
    );
    assert_eq!(
        bad.data().unwrap_err().text,
        "bad payload hex: Invalid character 'z' at position 0"
    );
    bad.payload_hex = "123".into();
    assert_eq!(bad.data().unwrap_err().text, "bad payload hex: Odd number of digits");
    bad.payload_hex = "1\n".into();
    assert_eq!(
        bad.data().unwrap_err().text,
        "bad payload hex: Invalid character '\\n' at position 1"
    );
}

#[test]
fn message_empty_payload_roundtrips() {
    let m = Message::new(0, "n", b"", 0);
    assert_eq!(m.data().unwrap(), Vec::<u8>::new());
    assert_eq!(m.text(), "");
}

#[test]
fn lossy_text_replaces_what_is_no_utf8() {
    let m = Message::new(1, "n", &[0xff, 0x41, 0xc3, 0xa9], 1);
    assert_eq!(m.text(), "\u{fffd}A\u{e9}");
}

#[test]
fn topic_faults_are_told_apart() {
    let text = |t: &str| validate_topic(t).unwrap_err().text;
    assert_eq!(text(""), "topic name must not be empty");
    assert_eq!(text(&"x".repeat(201)), "topic name too long (201 > 200)");
    assert_eq!(text(&"\u{e9}".repeat(101)), "topic name too long (202 > 200)");
    assert_eq!(
        text("a/b"),
        "topic 'a/b' has invalid characters (allowed: a-z A-Z 0-9 . - _ :)"
    );
}

#[test]
fn attribute_faults_are_told_in_the_order_of_the_keys() {
    let long = "x".repeat(MAX_ATTRIBUTE_LEN + 1);
    let mut attrs = Attributes::new();
    attrs.insert("b".to_string(), long.clone());
    attrs.insert("a".to_string(), long.clone());
    assert_eq!(
        validate_attributes(&attrs).unwrap_err().text,
        "attribute 'a' value too long (1025 > 1024)"
    );
    attrs.insert("Z".repeat(1025), "v".to_string());
    assert_eq!(
        validate_attributes(&attrs).unwrap_err().text,
        format!("attribute key '{}' too long (1025 > 1024)", "Z".repeat(1025))
    );
    attrs.insert(String::new(), long);
    assert_eq!(
        validate_attributes(&attrs).unwrap_err().text,
        "attribute key must not be empty"
    );
    for i in 0..MAX_ATTRIBUTES {
        attrs.insert(format!("k{i}"), "v".to_string());
    }
    assert_eq!(
        validate_attributes(&attrs).unwrap_err().text,
        "too many attributes (104 > 100)"
    );
}

#[test]
fn options_and_payloads_are_held_to_their_bounds() {
    let long = PublishOptions::new().ordering_key(&"\u{e9}".repeat(600));
    assert_eq!(long.validate().unwrap_err().text, "ordering key too long (1200 > 1024)");
    assert_eq!(
        validate_payload(&vec![0u8; MAX_PAYLOAD_BYTES + 1]).unwrap_err().text,
        "payload too large (10485761 bytes > 10485760 limit)"
    );
    let opts = PublishOptions::default().attribute("", "v");
    assert_eq!(opts.validate().unwrap_err().text, "attribute key must not be empty");
    assert_eq!(opts.clone(), opts);
}

#[test]
fn filter_faults_are_told_with_their_place() {
    let text = |f: &str| AttributeFilter::parse(f).unwrap_err().text;
    assert_eq!(text("kind"), "filter clause missing '=' near byte 0");
    assert_eq!(text("a=\"\u{e9}\"  rest"), "filter clause missing '=' near byte 8");
    assert_eq!(text("kind=order"), "filter value for key 'kind' must be double-quoted");
    assert_eq!(text("attributes.kind = "), "filter value for key 'kind' must be double-quoted");
    assert_eq!(text("kind=\"order"), "unterminated filter value for key 'kind'");
    assert_eq!(text("=\"v\""), "filter clause has an empty key");
    assert_eq!(text("attributes.=\"v\""), "filter clause has an empty key");
    assert_eq!(
        text("kind order=\"x\""),
        "filter key 'kind order' is not a bare identifier"
    );
    assert_eq!(text("k\"q=\"x\""), "filter key 'k\"q' is not a bare identifier");
    assert_eq!(text("attributes. k=\"x\""), "filter key ' k' is not a bare identifier");
    assert_eq!(
        text("x=\"1\"y=\"2\""),
        "filter clause not followed by white space near byte 5"
    );
    assert_eq!(
        text("x=\"\u{e9}\"\""),
        "filter clause not followed by white space near byte 6"
    );
}

#[test]
fn a_rendered_filter_parses_to_its_clauses() {
    let f = AttributeFilter::any()
        .require("kind", "two words")
        .require("r\u{e9}gion", "")
        .require("a.b", "=\u{3000}=");
    let text = "kind=\"two words\" r\u{e9}gion=\"\" a.b=\"=\u{3000}=\"";
    assert_eq!(AttributeFilter::parse(text).unwrap(), f);
    let spread = "\u{3000}attributes.kind\t== \n\"two words\"\u{a0}r\u{e9}gion =\"\"\x0b a.b=\t\"=\u{3000}=\" ";
    assert_eq!(AttributeFilter::parse(spread).unwrap(), f);
    assert_eq!(
        AttributeFilter::parse("attributes.attributes.k=\"v\"").unwrap(),
        AttributeFilter::any().require("attributes.k", "v")
    );
    assert_eq!(AttributeFilter::parse(" \u{2003} ").unwrap(), AttributeFilter::any());
    assert_eq!(AttributeFilter::parse("").unwrap(), AttributeFilter::default());
}

#[test]
fn one_more_clause_never_matches_more() {
    let messages = [
        Message::new(1, "n", b"", 1),
        Message::new(1, "n", b"", 1).attribute_for_test("a", "1"),
        Message::new(1, "n", b"", 1).attribute_for_test("a", "1").attribute_for_test("b", "2"),
    ];
    for m in &messages {
        let base = AttributeFilter::any().require("a", "1");
        let more = AttributeFilter::any().require("a", "1").require("b", "2");
        assert!(!more.matches(m) || base.matches(m));
    }
}

#[test]
fn dead_letter_topics_differ_from_their_topics() {
    assert_ne!(dead_letter_topic("a"), dead_letter_topic("b"));
    assert_ne!(dead_letter_topic("a"), "a");
}
