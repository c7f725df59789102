//! What publishers and consumers send, and what they make of replies.
use ce_pubsub::client::{
    ack_request, create_subscription_request, delete_subscription_request, expect_done,
    expect_high, expect_pulled, expect_subscriptions, lease_request, list_subscriptions_request,
    live_name, nack_request, publish_outcome, publish_request, ReplyFault,
};
use ce_pubsub::ingest::accept_ingest;
use ce_pubsub::message::MAX_PAYLOAD_BYTES;
use ce_pubsub::protocol::{ControlReply, ControlRequest, IngestReply};
use ce_pubsub::{PublishOptions, SubscriptionPolicy};

#[test]
fn a_published_message_arrives_as_it_was_sent() {
    let opts = PublishOptions::new().ordering_key("eu").attribute("kind", "order");
    let req = publish_request("orders", b"\x00\xff", Some("tok"), &opts, Some("k1")).unwrap();
    assert_eq!(req.payload_hex, "00ff");
    assert_eq!(req.grant.as_deref(), Some("tok"));
    assert_eq!(req.idempotency_key.as_deref(), Some("k1"));
    let m = accept_ingest(req, "pub", 5, None).unwrap();
    assert_eq!(m.data().unwrap(), vec![0x00, 0xff]);
    assert_eq!(m.ordering_key.as_deref(), Some("eu"));
    assert_eq!(m.attributes, opts.attributes);
}

#[test]
fn faults_are_found_before_anything_is_sent() {
    let none = PublishOptions::new();
    let text = |r: Result<ControlRequest, ce_pubsub::PubSubError>| r.unwrap_err().text;
    assert_eq!(
        publish_request("", b"x", None, &none, None).unwrap_err().text,
        "topic name must not be empty"
    );
    assert_eq!(
        publish_request("t", &vec![0; MAX_PAYLOAD_BYTES + 1], None, &none, None).unwrap_err().text,
        "payload too large (10485761 bytes > 10485760 limit)"
    );
    let long = PublishOptions::new().ordering_key(&"x".repeat(1025));
    assert_eq!(
        publish_request("t", b"x", None, &long, None).unwrap_err().text,
        "ordering key too long (1025 > 1024)"
    );
    let policy = SubscriptionPolicy::default();
    assert_eq!(
        text(create_subscription_request("t", "", policy, None)),
        "topic name must not be empty"
    );
    let bad = SubscriptionPolicy { ack_deadline_secs: 0, max_delivery_attempts: 1 };
    assert_eq!(
        text(create_subscription_request("t", "s", bad, None)),
        "ack_deadline_secs must be 1..=600 (got 0)"
    );
    assert!(delete_subscription_request("bad topic", "s", None).is_err());
    assert!(list_subscriptions_request("bad topic", None).is_err());
    assert!(lease_request("bad topic", "s", 1, None).is_err());
    assert!(ack_request("bad topic", "s", 1, None).is_err());
    assert!(nack_request("bad topic", "s", 1, None).is_err());
}

#[test]
fn requests_say_what_was_asked() {
    let g = Some("g".to_string());
    assert_eq!(
        create_subscription_request("t", "s", SubscriptionPolicy::default(), Some("g")).unwrap(),
        ControlRequest::CreateSubscription {
            name: "s".to_string(),
            policy: SubscriptionPolicy { ack_deadline_secs: 30, max_delivery_attempts: 5 },
            grant: g.clone(),
        }
    );
    assert_eq!(
        delete_subscription_request("t", "s", None).unwrap(),
        ControlRequest::DeleteSubscription { name: "s".to_string(), grant: None }
    );
    assert_eq!(
        list_subscriptions_request("t", Some("g")).unwrap(),
        ControlRequest::ListSubscriptions { grant: g.clone() }
    );
    assert_eq!(
        lease_request("t", "s", 4, Some("g")).unwrap(),
        ControlRequest::Pull { name: "s".to_string(), max_messages: 4, grant: g.clone() }
    );
    assert_eq!(
        ack_request("t", "s", 9, Some("g")).unwrap(),
        ControlRequest::Ack { name: "s".to_string(), cursor: 9, grant: g.clone() }
    );
    assert_eq!(
        nack_request("t", "s", 9, Some("g")).unwrap(),
        ControlRequest::Nack { name: "s".to_string(), cursor: 9, grant: g }
    );
}

#[test]
fn replies_are_read_or_refused() {
    let no = || ControlReply::Rejected("why".to_string());
    assert_eq!(expect_high(ControlReply::High(3)), Ok(3));
    assert_eq!(
        expect_high(no()),
        Err(ReplyFault::Rejected("owner rejected high-cursor: why".to_string()))
    );
    assert_eq!(
        expect_high(ControlReply::Done),
        Err(ReplyFault::Unexpected(ControlReply::Done))
    );
    assert_eq!(expect_done(ControlReply::Done), Ok(()));
    assert_eq!(
        expect_done(no()),
        Err(ReplyFault::Rejected("owner rejected: why".to_string()))
    );
    assert_eq!(
        expect_subscriptions(ControlReply::Subscriptions(vec!["a".to_string()])),
        Ok(vec!["a".to_string()])
    );
    assert_eq!(
        expect_subscriptions(no()),
        Err(ReplyFault::Rejected("list rejected: why".to_string()))
    );
    assert_eq!(expect_pulled(ControlReply::Pulled(vec![])), Ok(vec![]));
    assert_eq!(
        expect_pulled(no()),
        Err(ReplyFault::Rejected("lease rejected: why".to_string()))
    );
    assert_eq!(publish_outcome(IngestReply::Accepted(8)).unwrap(), 8);
    assert_eq!(
        publish_outcome(IngestReply::Rejected("full".to_string())).unwrap_err().text,
        "owner rejected publish: full"
    );
}

#[test]
fn live_streams_are_told_apart_by_owner() {
    assert_eq!(live_name("orders", "ab"), "ce-pubsub.live.orders@ab");
    assert_ne!(live_name("orders", "ab"), live_name("orders", "ac"));
}
