//! Requests and replies on the wire, and their bounds.
use ce_pubsub::message::{Attributes, MAX_PAYLOAD_BYTES};
use ce_pubsub::protocol::{
    request_token, ControlReply, ControlRequest, IngestReply, IngestRequest,
    MAX_CONTROL_BODY_BYTES, MAX_IDEMPOTENCY_KEY_LEN, MAX_INGEST_FRAME_BYTES, MAX_INGEST_HEX_BYTES,
};

fn request(payload_hex: String, idempotency_key: Option<String>) -> IngestRequest {
    IngestRequest {
        payload_hex,
        grant: None,
        idempotency_key,
        ordering_key: None,
        attributes: Attributes::new(),
    }
}

/// Whether a frame holds a body, and the body JSON.
fn decodes(payload_hex: &str) -> bool {
    match IngestRequest::body_of_hex(payload_hex) {
        Ok(body) => serde_json::from_slice::<serde_json::Value>(&body).is_ok(),
        Err(_) => false,
    }
}

#[test]
fn grant_accessor_covers_every_variant() {
    assert_eq!(
        ControlRequest::Ack {
            name: "s".into(),
            cursor: 1,
            grant: Some("g".into())
        }
        .grant(),
        Some("g")
    );
    assert_eq!(ControlRequest::HighCursor { grant: None }.grant(), None);
}

#[test]
fn ingest_request_decode_hex_roundtrips_and_bounds() {
    let body = b"{\"payload_hex\":\"626f6479\"}".to_vec();
    let body_hex = hex::encode(&body);
    assert_eq!(IngestRequest::body_of_hex(&body_hex).unwrap(), body);
    assert!(decodes(&body_hex));
    // An oversize hex string is rejected.
    assert!(!decodes(&"a".repeat(MAX_INGEST_HEX_BYTES + 2)));
    // One that is longer than that of the largest body is rejected before decode.
    assert_eq!(
        IngestRequest::body_of_hex(&"a".repeat(MAX_INGEST_FRAME_BYTES + 2)).unwrap_err().text,
        "ingest request hex too large (42074114 bytes)"
    );
    // Non-hex input is a clean error, not a panic.
    assert!(IngestRequest::body_of_hex("zz not hex").is_err());
}

#[test]
fn the_largest_payload_is_admitted() {
    let payload = hex::encode(vec![7u8; MAX_PAYLOAD_BYTES]);
    let body = format!("{{\"payload_hex\":\"{payload}\"}}").into_bytes();
    assert_eq!(IngestRequest::body_of_hex(&hex::encode(&body)).unwrap(), body);
    assert!(request(payload, None).check().is_ok());
}

#[test]
fn a_frame_is_admitted_where_its_body_is() {
    let mut body = vec![b'x'; MAX_INGEST_HEX_BYTES];
    assert!(IngestRequest::body_of_hex(&hex::encode(&body)).is_ok());
    body.push(b'x');
    assert!(IngestRequest::body_of_hex(&hex::encode(&body)).is_err());
}

#[test]
fn ingest_request_rejects_oversize_hex() {
    let huge = request("a".repeat(MAX_INGEST_HEX_BYTES + 1), None);
    assert!(huge.check().is_err());
    assert!(IngestRequest::check_body(&vec![b'a'; MAX_INGEST_HEX_BYTES + 1]).is_err());
    assert!(IngestRequest::check_body(&vec![b'a'; MAX_INGEST_HEX_BYTES]).is_ok());
}

#[test]
fn ingest_request_rejects_long_idempotency_key() {
    let req = request(hex::encode(b"x"), Some("k".repeat(MAX_IDEMPOTENCY_KEY_LEN + 1)));
    assert_eq!(req.check().unwrap_err().text, "idempotency key too long (257 bytes)");
    let ok = request(hex::encode(b"x"), Some("k".repeat(MAX_IDEMPOTENCY_KEY_LEN)));
    assert!(ok.check().is_ok());
    assert_eq!(ok.clone(), ok);
}

#[test]
fn control_request_rejects_oversize_body() {
    let mut big = Vec::with_capacity(MAX_CONTROL_BODY_BYTES + 10);
    big.resize(MAX_CONTROL_BODY_BYTES + 1, b'x');
    assert!(ControlRequest::check_body(&big).is_err());
    big.truncate(MAX_CONTROL_BODY_BYTES);
    assert!(ControlRequest::check_body(&big).is_ok());
}

#[test]
fn replies_are_bounded_too() {
    let big = vec![b'x'; MAX_INGEST_HEX_BYTES + 1];
    assert_eq!(
        IngestReply::check_body(&big).unwrap_err().text,
        "ingest reply too large (21037057 bytes)"
    );
    assert_eq!(
        ControlReply::check_body(&big).unwrap_err().text,
        "control reply too large (21037057 bytes)"
    );
    assert!(ControlReply::check_body(b"{}").is_ok());
}

#[test]
fn hex_faults_are_told_with_their_place() {
    assert_eq!(
        IngestRequest::body_of_hex("0z").unwrap_err().text,
        "Invalid character 'z' at position 1"
    );
    assert_eq!(IngestRequest::body_of_hex("abc").unwrap_err().text, "Odd number of digits");
    assert_eq!(IngestRequest::body_of_hex("AbcD").unwrap(), vec![0xab, 0xcd]);
}

#[test]
fn only_requests_on_the_topic_are_taken_up() {
    assert_eq!(request_token("t", "t", Some(4)), Some(4));
    assert_eq!(request_token("t", "t", None), None);
    assert_eq!(request_token("u", "t", Some(4)), None);
}

#[test]
fn bounds_have_their_values() {
    assert_eq!(MAX_INGEST_HEX_BYTES, 2 * 10 * 1024 * 1024 + 64 * 1024);
    assert_eq!(MAX_INGEST_FRAME_BYTES, 2 * MAX_INGEST_HEX_BYTES);
    assert_eq!(MAX_CONTROL_BODY_BYTES, 64 * 1024);
}
