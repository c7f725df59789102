//! What a topic owner decides about publish and control requests.
use ce_pubsub::control::{
    control_action, control_authorized, control_body, control_finish, control_step,
    try_control_action, ControlAction, ControlStep, Proposal,
};
use ce_pubsub::ingest::{
    accept_ingest, append_outcome, owner_message, publish_gate, stamped, Gate, IngestCourse,
    IngestDesk, IngestOpening, DEDUP_CAPACITY, DEDUP_TTL_SECS,
};
use ce_pubsub::log::{LogOp, TopicLog};
use ce_pubsub::message::{Attributes, MAX_ATTRIBUTE_LEN, MAX_PAYLOAD_BYTES};
use ce_pubsub::protocol::{
    ControlReply, ControlRequest, IngestReply, IngestRequest, MAX_CONTROL_BODY_BYTES,
};
use ce_pubsub::subscription::{SubOp, SubRegistry, SubscriptionPolicy, MAX_SUBSCRIPTIONS};
use ce_pubsub::{Message, PublishOptions};

fn request(payload: &[u8], key: Option<&str>, grant: Option<&str>) -> IngestRequest {
    IngestRequest {
        payload_hex: hex::encode(payload),
        grant: grant.map(|g| g.to_string()),
        idempotency_key: key.map(|k| k.to_string()),
        ordering_key: None,
        attributes: Attributes::new(),
    }
}

fn body(desk: &mut IngestDesk, token: u64, now: u64) -> bool {
    matches!(desk.open(token, "7b7d", now), IngestOpening::Body(b) if b == b"{}")
}

#[test]
fn a_retry_returns_the_first_cursor() {
    let mut desk = IngestDesk::new();
    assert!(body(&mut desk, 1, 100));
    let key = match desk.consider(1, Ok(request(b"x", Some("req-42"), None)), 100) {
        IngestCourse::Handle { req, key } => {
            assert_eq!(req.payload_hex, "78");
            key
        }
        IngestCourse::Reply(r) => panic!("{r:?}"),
    };
    assert_eq!(key, "req-42");
    assert_eq!(desk.settle(key, Ok(7), 100), IngestReply::Accepted(7));
    // The retry comes on another reply token.
    assert!(body(&mut desk, 2, 200));
    match desk.consider(2, Ok(request(b"x", Some("req-42"), None)), 200) {
        IngestCourse::Reply(r) => assert_eq!(r, IngestReply::Accepted(7)),
        IngestCourse::Handle { .. } => panic!("appended twice"),
    }
    // Once the key has expired the request is new.
    let late = 100 + DEDUP_TTL_SECS + 1;
    assert!(matches!(
        desk.consider(3, Ok(request(b"x", Some("req-42"), None)), late),
        IngestCourse::Handle { .. }
    ));
}

#[test]
fn an_answered_token_is_not_answered_again() {
    let mut desk = IngestDesk::new();
    assert!(body(&mut desk, 5, 10));
    assert!(matches!(desk.open(5, "7b7d", 20), IngestOpening::AlreadyReplied));
    assert!(matches!(desk.open(5, "zz", 10 + DEDUP_TTL_SECS), IngestOpening::AlreadyReplied));
    assert!(body(&mut desk, 5, 11 + DEDUP_TTL_SECS));
}

#[test]
fn a_lost_reply_is_given_again() {
    let mut desk = IngestDesk::new();
    assert!(body(&mut desk, 5, 10));
    let key = match desk.consider(5, Ok(request(b"x", None, None)), 10) {
        IngestCourse::Handle { key, .. } => key,
        IngestCourse::Reply(r) => panic!("{r:?}"),
    };
    assert_eq!(desk.settle(key, Ok(3), 10), IngestReply::Accepted(3));
    assert!(matches!(desk.open(5, "7b7d", 11), IngestOpening::AlreadyReplied));
    desk.reply_lost(5);
    // The frame is taken in again, and answered without an append.
    assert!(body(&mut desk, 5, 12));
    match desk.consider(5, Ok(request(b"x", None, None)), 12) {
        IngestCourse::Reply(r) => assert_eq!(r, IngestReply::Accepted(3)),
        IngestCourse::Handle { .. } => panic!("appended twice"),
    }
    // A token that was never answered can be forgotten too.
    desk.reply_lost(6);
    assert!(matches!(desk.open(5, "7b7d", 13), IngestOpening::AlreadyReplied));
}

#[test]
fn an_answered_token_outlives_other_tokens() {
    let mut desk = IngestDesk::new();
    assert!(body(&mut desk, 0, 10));
    for token in 1..DEDUP_CAPACITY as u64 {
        assert!(body(&mut desk, token, 11));
    }
    assert!(matches!(desk.open(0, "7b7d", 12), IngestOpening::AlreadyReplied));
    // One more token makes the owner forget the oldest.
    assert!(body(&mut desk, DEDUP_CAPACITY as u64, 13));
    assert!(body(&mut desk, 0, 14));
}

#[test]
fn a_retry_outlives_other_outcomes() {
    let mut desk = IngestDesk::new();
    // A key that will have expired before the retry comes.
    assert_eq!(desk.settle("old".to_string(), Ok(1), 0), IngestReply::Accepted(1));
    assert_eq!(desk.settle("req".to_string(), Ok(2), DEDUP_TTL_SECS), IngestReply::Accepted(2));
    let now = DEDUP_TTL_SECS + 1;
    assert!(matches!(
        desk.consider(9, Ok(request(b"x", Some("old"), None)), now),
        IngestCourse::Handle { .. }
    ));
    for i in 1..DEDUP_CAPACITY as u64 {
        desk.settle(format!("other-{i}"), Ok(i), now);
    }
    match desk.consider(10, Ok(request(b"x", Some("req"), None)), now) {
        IngestCourse::Reply(r) => assert_eq!(r, IngestReply::Accepted(2)),
        IngestCourse::Handle { .. } => panic!("appended twice"),
    }
}

#[test]
fn a_request_without_a_key_goes_by_its_token() {
    let mut desk = IngestDesk::new();
    let key = match desk.consider(17, Ok(request(b"x", None, None)), 0) {
        IngestCourse::Handle { key, .. } => key,
        IngestCourse::Reply(r) => panic!("{r:?}"),
    };
    assert_eq!(key, "tok:17");
    let why = "no".to_string();
    assert_eq!(desk.settle(key, Err(why), 0), IngestReply::Rejected("no".to_string()));
    match desk.consider(17, Ok(request(b"x", None, None)), 1) {
        IngestCourse::Reply(r) => {
            assert_eq!(r, IngestReply::Rejected("duplicate request".to_string()))
        }
        IngestCourse::Handle { .. } => panic!("handled twice"),
    }
}

#[test]
fn malformed_requests_are_rejected() {
    let mut desk = IngestDesk::new();
    match desk.open(1, "abc", 0) {
        IngestOpening::Reply(r) => {
            assert_eq!(r, IngestReply::Rejected("bad request: Odd number of digits".to_string()))
        }
        _ => panic!("accepted"),
    }
    match desk.consider(1, Err("expected value".to_string()), 0) {
        IngestCourse::Reply(r) => {
            assert_eq!(r, IngestReply::Rejected("bad request: expected value".to_string()))
        }
        _ => panic!("accepted"),
    }
    match desk.consider(1, Ok(request(b"x", Some(&"k".repeat(300)), None)), 0) {
        IngestCourse::Reply(r) => assert_eq!(
            r,
            IngestReply::Rejected("bad request: idempotency key too long (300 bytes)".to_string())
        ),
        _ => panic!("accepted"),
    }
}

#[test]
fn a_gated_topic_asks_for_a_token() {
    assert_eq!(publish_gate(&request(b"x", None, None), false), Gate::Open);
    assert_eq!(
        publish_gate(&request(b"x", None, Some("tok")), true),
        Gate::Verify("tok".to_string())
    );
    assert_eq!(
        publish_gate(&request(b"x", None, None), true),
        Gate::Refuse(
            "topic requires a pubsub:publish capability but none was presented".to_string()
        )
    );
}

#[test]
fn only_a_verified_publisher_is_authenticated() {
    let open = accept_ingest(request(b"hi", None, None), "node", 9, None).unwrap();
    assert!(!open.publisher_is_authenticated());
    assert_eq!(open.text(), "hi");
    assert_eq!(open.publisher, "node");
    assert_eq!(open.published_at, 9);
    let gated = accept_ingest(request(b"hi", None, None), "node", 9, Some(Ok(()))).unwrap();
    assert!(gated.publisher_is_authenticated());
    let refused = accept_ingest(
        request(b"hi", None, None),
        "node",
        9,
        Some(Err("revoked".to_string())),
    );
    assert_eq!(refused.unwrap_err(), "revoked");
    let own = owner_message("me", b"hi", &PublishOptions::new(), 3).unwrap();
    assert!(!own.publisher_is_authenticated());
    assert_eq!(own.publisher, "me");
}

#[test]
fn publish_faults_are_told_in_order() {
    let mut req = request(b"x", None, None);
    req.payload_hex = "xyz".to_string();
    assert_eq!(
        accept_ingest(req, "n", 0, None).unwrap_err(),
        "bad payload hex: Odd number of digits"
    );
    let mut req = request(b"x", None, None);
    req.payload_hex = "0g".to_string();
    assert_eq!(
        accept_ingest(req, "n", 0, None).unwrap_err(),
        "bad payload hex: Invalid character 'g' at position 1"
    );
    let mut req = request(b"x", None, None);
    req.ordering_key = Some("k".repeat(MAX_ATTRIBUTE_LEN + 1));
    req.attributes.insert(String::new(), "v".to_string());
    assert_eq!(
        accept_ingest(req, "n", 0, None).unwrap_err(),
        "ordering key too long (1025 bytes)"
    );
    let mut req = request(b"x", None, None);
    req.attributes.insert(String::new(), "v".to_string());
    assert_eq!(accept_ingest(req, "n", 0, None).unwrap_err(), "attribute key must not be empty");
    let req = request(&vec![0u8; MAX_PAYLOAD_BYTES + 1], None, None);
    assert_eq!(
        accept_ingest(req, "n", 0, None).unwrap_err(),
        "payload too large (10485761 bytes > 10485760 limit)"
    );
    assert_eq!(append_outcome(Err("disk".to_string())), Err("append failed: disk".to_string()));
    assert_eq!(append_outcome(Ok(3)), Ok(3));
}

#[test]
fn what_is_broadcast_is_what_is_stored() {
    let mut log = TopicLog::default();
    log.apply(LogOp::Append(Message::new(0, "w", b"a", 1)));
    let m = stamped(&log, Message::new(0, "w", b"b", 2));
    assert_eq!(m.cursor, 2);
    log.apply(LogOp::Append(m.clone()));
    assert_eq!(log.get(2).unwrap(), m);
}

fn create(name: &str, grant: Option<&str>) -> ControlRequest {
    ControlRequest::CreateSubscription {
        name: name.to_string(),
        policy: SubscriptionPolicy::default(),
        grant: grant.map(|g| g.to_string()),
    }
}

fn rejected(reply: ControlReply) -> String {
    match reply {
        ControlReply::Rejected(why) => why,
        other => panic!("{other:?}"),
    }
}

fn rejection(action: ControlAction) -> String {
    match action {
        ControlAction::Reply(reply) => rejected(reply),
        ControlAction::Propose { op, .. } => panic!("{op:?}"),
    }
}

#[test]
fn control_bodies_are_bounded_before_they_are_decoded() {
    assert_eq!(control_body("7b7d").unwrap(), b"{}".to_vec());
    assert_eq!(
        rejected(control_body("0x").unwrap_err()),
        "bad request hex: Invalid character 'x' at position 1"
    );
    let largest = "00".repeat(MAX_CONTROL_BODY_BYTES);
    assert_eq!(control_body(&largest).unwrap().len(), MAX_CONTROL_BODY_BYTES);
    assert_eq!(
        rejected(control_body(&"00".repeat(MAX_CONTROL_BODY_BYTES + 1)).unwrap_err()),
        "bad request body: control request too large (65537 bytes)"
    );
    assert_eq!(
        rejected(control_body(&"0".repeat(2 * MAX_CONTROL_BODY_BYTES + 1)).unwrap_err()),
        "bad request body: control request too large (65537 bytes)"
    );
}

#[test]
fn the_high_water_cursor_is_told_to_everyone() {
    for require_cap in [false, true] {
        let step = control_step(Ok(ControlRequest::HighCursor { grant: None }), 12, require_cap);
        assert!(matches!(step, ControlStep::Reply(ControlReply::High(12))));
    }
}

#[test]
fn a_gated_topic_performs_nothing_unauthorized() {
    match control_step(Ok(create("s", None)), 0, true) {
        ControlStep::Reply(r) => assert_eq!(
            rejected(r),
            "topic requires a pubsub:subscribe capability but none was presented"
        ),
        _ => panic!("not refused"),
    }
    match control_step(Ok(create("s", Some("tok"))), 0, true) {
        ControlStep::Authorize { req, token } => {
            assert_eq!(token, "tok");
            match control_authorized(req, Err("expired".to_string())) {
                ControlStep::Reply(r) => assert_eq!(rejected(r), "expired"),
                _ => panic!("not refused"),
            }
        }
        _ => panic!("not judged"),
    }
    assert!(matches!(control_step(Ok(create("s", None)), 0, false), ControlStep::Perform(_)));
    assert!(matches!(
        control_authorized(create("s", None), Ok(())),
        ControlStep::Perform(ControlRequest::CreateSubscription { .. })
    ));
    match control_step(Err("eof".to_string()), 0, false) {
        ControlStep::Reply(r) => assert_eq!(rejected(r), "bad request body: eof"),
        _ => panic!("not refused"),
    }
}

#[test]
fn creation_is_held_to_its_bounds() {
    let log = TopicLog::default();
    let mut subs = SubRegistry::default();
    let bad = ControlRequest::CreateSubscription {
        name: "s".to_string(),
        policy: SubscriptionPolicy { ack_deadline_secs: 601, max_delivery_attempts: 1 },
        grant: None,
    };
    assert_eq!(
        rejection(control_action(bad, &subs, &log, 0)),
        "invalid policy: ack_deadline_secs must be 1..=600 (got 601)"
    );
    assert_eq!(
        rejection(control_action(create("a b", None), &subs, &log, 0)),
        "invalid subscription name: topic 'a b' has invalid characters (allowed: a-z A-Z 0-9 . - _ :)"
    );
    for i in 0..MAX_SUBSCRIPTIONS {
        subs.apply(SubOp::Create {
            name: format!("s{i}"),
            policy: SubscriptionPolicy::default(),
        });
    }
    assert_eq!(
        rejection(control_action(create("new", None), &subs, &log, 0)),
        "subscription limit reached"
    );
    assert!(matches!(
        control_action(create("s7", None), &subs, &log, 0),
        ControlAction::Propose { op: SubOp::Create { .. }, then_reply: Proposal::Create }
    ));
}

#[test]
fn a_subscription_is_served_from_lease_to_ack() {
    let mut log = TopicLog::default();
    for i in 1..=3u64 {
        log.apply(LogOp::Append(Message::new(0, "w", format!("m{i}").as_bytes(), i)));
    }
    let mut subs = SubRegistry::default();
    subs.apply(SubOp::Create {
        name: "s".to_string(),
        policy: SubscriptionPolicy { ack_deadline_secs: 10, max_delivery_attempts: 1 },
    });
    let pull = || ControlRequest::Pull { name: "s".to_string(), max_messages: 2, grant: None };
    let (op, proposed) = match try_control_action(pull(), &subs, &log, 100).unwrap() {
        ControlAction::Propose { op, then_reply } => (op, then_reply),
        ControlAction::Reply(r) => panic!("{r:?}"),
    };
    subs.apply(op);
    match control_finish(proposed, Ok(()), &log) {
        (ControlReply::Pulled(msgs), dead) => {
            assert!(dead.is_empty());
            let got: Vec<(u64, u32, String)> = msgs
                .iter()
                .map(|m| (m.message.cursor, m.delivery_attempt, m.message.text()))
                .collect();
            assert_eq!(got, vec![(1, 1, "m1".to_string()), (2, 1, "m2".to_string())]);
        }
        (other, _) => panic!("{other:?}"),
    }
    let ack = ControlRequest::Ack { name: "s".to_string(), cursor: 2, grant: None };
    match control_action(ack, &subs, &log, 101) {
        ControlAction::Propose { op, then_reply } => {
            assert_eq!(then_reply, Proposal::Ack);
            subs.apply(op);
        }
        ControlAction::Reply(r) => panic!("{r:?}"),
    }
    // After the deadline the first message has no attempt left.
    match control_action(pull(), &subs, &log, 200) {
        ControlAction::Propose { op, then_reply } => {
            subs.apply(op);
            let (reply, dead) = control_finish(then_reply, Ok(()), &log);
            assert_eq!(dead.len(), 1);
            assert_eq!(dead[0].text(), "m1");
            match reply {
                ControlReply::Pulled(msgs) => assert_eq!(msgs[0].message.cursor, 3),
                other => panic!("{other:?}"),
            }
        }
        ControlAction::Reply(r) => panic!("{r:?}"),
    }
    assert_eq!(subs.get("s").unwrap().acked, 2);
    // Nothing is left to lease.
    match control_action(pull(), &subs, &log, 201) {
        ControlAction::Reply(ControlReply::Pulled(msgs)) => assert!(msgs.is_empty()),
        _ => panic!("leased"),
    }
}

#[test]
fn unknown_subscriptions_are_rejected_by_name() {
    let log = TopicLog::default();
    let subs = SubRegistry::default();
    let name = || "ghost".to_string();
    for req in [
        ControlRequest::Ack { name: name(), cursor: 1, grant: None },
        ControlRequest::Nack { name: name(), cursor: 1, grant: None },
        ControlRequest::Pull { name: name(), max_messages: 1, grant: None },
    ] {
        assert_eq!(
            rejection(control_action(req, &subs, &log, 0)),
            "no such subscription 'ghost'"
        );
    }
    assert!(matches!(
        control_action(
            ControlRequest::DeleteSubscription { name: name(), grant: None },
            &subs,
            &log,
            0
        ),
        ControlAction::Propose { op: SubOp::Delete { .. }, then_reply: Proposal::Delete }
    ));
}

#[test]
fn names_are_listed_in_order() {
    let log = TopicLog::default();
    let mut subs = SubRegistry::default();
    for name in ["b", "a.z", "a", "c"] {
        subs.apply(SubOp::Create {
            name: name.to_string(),
            policy: SubscriptionPolicy::default(),
        });
    }
    let list = ControlRequest::ListSubscriptions { grant: None };
    match control_action(list, &subs, &log, 0) {
        ControlAction::Reply(ControlReply::Subscriptions(names)) => {
            assert_eq!(names, vec!["a", "a.z", "b", "c"])
        }
        _ => panic!("not listed"),
    }
}

#[test]
fn refused_operations_are_told_with_what_they_were() {
    let log = TopicLog::default();
    for (proposed, text) in [
        (Proposal::Create, "create failed: down"),
        (Proposal::Delete, "delete failed: down"),
        (Proposal::Ack, "ack failed: down"),
        (Proposal::Nack, "nack failed: down"),
        (Proposal::Lease(Default::default()), "lease failed: down"),
    ] {
        let (reply, dead) = control_finish(proposed, Err("down".to_string()), &log);
        assert_eq!(rejected(reply), text);
        assert!(dead.is_empty());
    }
    assert_eq!(control_finish(Proposal::Nack, Ok(()), &log).0, ControlReply::Done);
}
