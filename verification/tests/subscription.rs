//! The subscription registry.
use ce_pubsub::message::Cursor;
use ce_pubsub::subscription::{
    LeaseOutcome, SubOp, SubRegistry, SubscriptionPolicy, MAX_ACK_DEADLINE_SECS, MAX_LEASE_BATCH,
    MAX_SUBSCRIPTIONS,
};

fn reg_with(name: &str, policy: SubscriptionPolicy) -> SubRegistry {
    let mut r = SubRegistry::default();
    r.apply(SubOp::Create {
        name: name.to_string(),
        policy,
    });
    r
}

fn lease(
    reg: &mut SubRegistry,
    name: &str,
    high: Cursor,
    now: u64,
    max: usize,
) -> LeaseOutcome {
    match reg.plan_lease(name, high, 0, now, max) {
        Some((op, out)) => {
            reg.apply(op);
            out
        }
        None => LeaseOutcome::default(),
    }
}

fn reg(deadline: u64, max_attempts: u32) -> SubRegistry {
    reg_with(
        "s",
        SubscriptionPolicy {
            ack_deadline_secs: deadline,
            max_delivery_attempts: max_attempts,
        },
    )
}

#[test]
fn create_is_idempotent_and_preserves_progress() {
    let mut r = reg_with("s", SubscriptionPolicy::default());
    lease(&mut r, "s", 3, 100, 10);
    r.apply(SubOp::Ack {
        name: "s".into(),
        cursor: 1,
    });
    assert_eq!(r.get("s").unwrap().acked, 1);
    // Re-create with a new policy: acked preserved.
    r.apply(SubOp::Create {
        name: "s".into(),
        policy: SubscriptionPolicy {
            ack_deadline_secs: 60,
            max_delivery_attempts: 3,
        },
    });
    assert_eq!(
        r.get("s").unwrap().acked,
        1,
        "re-create preserves acked cursor"
    );
    assert_eq!(r.get("s").unwrap().policy.ack_deadline_secs, 60);
}

#[test]
fn lease_then_ack_advances_floor() {
    let mut r = reg_with("s", SubscriptionPolicy::default());
    let out = lease(&mut r, "s", 5, 100, 10);
    assert_eq!(
        out.leased.iter().map(|(c, _)| *c).collect::<Vec<_>>(),
        vec![1, 2, 3, 4, 5]
    );
    assert!(out.dead_lettered.is_empty());
    // A second lease before any acks/expiry returns nothing (all leased, unexpired).
    let again = lease(&mut r, "s", 5, 100, 10);
    assert!(
        again.leased.is_empty(),
        "leased-unexpired cursors are not re-leased"
    );
    // Ack in order advances floor.
    for c in 1..=5 {
        r.apply(SubOp::Ack {
            name: "s".into(),
            cursor: c,
        });
    }
    assert_eq!(r.get("s").unwrap().acked, 5);
    assert_eq!(r.get("s").unwrap().outstanding(), 0);
}

#[test]
fn expired_lease_is_redelivered_with_incremented_attempt() {
    let mut r = reg_with(
        "s",
        SubscriptionPolicy {
            ack_deadline_secs: 30,
            max_delivery_attempts: 5,
        },
    );
    let first = lease(&mut r, "s", 2, 100, 10);
    assert_eq!(first.leased, vec![(1, 1), (2, 1)]);
    // Before expiry: no redelivery.
    assert!(lease(&mut r, "s", 2, 120, 10).leased.is_empty());
    // After the 30s deadline: both redeliverable, attempt 2.
    let second = lease(&mut r, "s", 2, 200, 10);
    assert_eq!(second.leased, vec![(1, 2), (2, 2)]);
}

#[test]
fn nack_makes_redeliverable_immediately() {
    let mut r = reg_with("s", SubscriptionPolicy::default());
    lease(&mut r, "s", 1, 100, 10);
    r.apply(SubOp::Nack {
        name: "s".into(),
        cursor: 1,
    });
    // Same `now`, but the nacked lease is now expired → redelivered, attempt 2.
    let out = lease(&mut r, "s", 1, 100, 10);
    assert_eq!(out.leased, vec![(1, 2)]);
}

#[test]
fn poison_message_is_dead_lettered_and_floor_advances() {
    let mut r = reg_with(
        "s",
        SubscriptionPolicy {
            ack_deadline_secs: 1,
            max_delivery_attempts: 3,
        },
    );
    let mut now = 100;
    // Cursor 1 keeps timing out. Attempts 1,2,3 then dead-letter on the 4th plan.
    for _ in 0..3 {
        let out = lease(&mut r, "s", 1, now, 10);
        assert_eq!(out.leased.len(), 1);
        assert!(out.dead_lettered.is_empty());
        now += 10; // exceed the 1s deadline
    }
    let dl = lease(&mut r, "s", 1, now, 10);
    assert!(dl.leased.is_empty());
    assert_eq!(dl.dead_lettered, vec![1]);
    // The dead-letter advances the ack floor so cursor 1 never blocks again.
    assert_eq!(r.get("s").unwrap().acked, 1);
    assert_eq!(r.get("s").unwrap().dead_lettered(), Vec::<Cursor>::new());
}

#[test]
fn dead_letter_does_not_stall_following_messages() {
    let mut r = reg_with(
        "s",
        SubscriptionPolicy {
            ack_deadline_secs: 1,
            max_delivery_attempts: 1,
        },
    );
    let mut now = 100;
    // First lease delivers 1,2,3 (attempt 1).
    assert_eq!(lease(&mut r, "s", 3, now, 10).leased.len(), 3);
    now += 10;
    // All time out; max=1 so all dead-letter on the next plan.
    let dl = lease(&mut r, "s", 3, now, 10);
    assert_eq!(dl.dead_lettered, vec![1, 2, 3]);
    assert_eq!(
        r.get("s").unwrap().acked,
        3,
        "floor advanced past all poison"
    );
    // A new message 4 is still deliverable.
    let next = lease(&mut r, "s", 4, now, 10);
    assert_eq!(next.leased, vec![(4, 1)]);
}

#[test]
fn the_floor_clears_what_is_dead_and_acknowledged() {
    let mut r = reg_with("s", SubscriptionPolicy::default());
    r.apply(SubOp::ApplyLease { name: "s".into(), leased: vec![], dead: vec![2], new_acked: 0 });
    r.apply(SubOp::Ack { name: "s".into(), cursor: 2 });
    assert_eq!(r.get("s").unwrap().dead_lettered(), vec![2]);
    assert_eq!(r.get("s").unwrap().pending_acks(), vec![2]);
    r.apply(SubOp::Ack { name: "s".into(), cursor: 1 });
    assert_eq!(r.get("s").unwrap().acked, 2);
    assert!(r.get("s").unwrap().dead_lettered().is_empty());
    assert!(r.get("s").unwrap().pending_acks().is_empty());
}

#[test]
fn max_lease_batch_caps_response() {
    let mut r = reg_with("s", SubscriptionPolicy::default());
    let out = lease(&mut r, "s", 5000, 100, 100);
    assert_eq!(out.leased.len(), 100, "respects requested max");
    let out2 = lease(&mut r, "s", 999_999, 100, usize::MAX);
    assert!(out2.leased.len() <= MAX_LEASE_BATCH, "hard cap applies");
}

#[test]
fn floor_skips_pruned_cursors() {
    let mut r = reg_with("s", SubscriptionPolicy::default());
    // High=10 but retention floor=4: only 5..=10 are deliverable.
    let (op, out) = r.plan_lease("s", 10, 4, 100, 100).unwrap();
    r.apply(op);
    assert_eq!(out.leased.first().map(|(c, _)| *c), Some(5));
    assert_eq!(out.leased.len(), 6);
}

#[test]
fn floor_bridges_retention_so_subscription_does_not_stall() {
    // A subscription whose backlog starts above a retention floor must advance its ack floor over
    // the pruned (never-deliverable) prefix on the first lease — otherwise it stalls forever
    // waiting to ack messages that no longer exist.
    let mut r = reg_with("s", SubscriptionPolicy::default());
    // high=5, floor=3: only cursors 4,5 are deliverable; 1..=3 were pruned.
    let (op, out) = r.plan_lease("s", 5, 3, 100, 10).unwrap();
    r.apply(op);
    assert_eq!(out.leased, vec![(4, 1), (5, 1)]);
    // The ack floor bridged past the pruned prefix to the retention floor.
    assert_eq!(
        r.get("s").unwrap().acked,
        3,
        "floor bridged across pruned cursors"
    );
    // Acking the leased messages then advances cleanly to high.
    r.apply(SubOp::Ack {
        name: "s".into(),
        cursor: 4,
    });
    r.apply(SubOp::Ack {
        name: "s".into(),
        cursor: 5,
    });
    assert_eq!(r.get("s").unwrap().acked, 5);
}

#[test]
fn delete_removes_subscription() {
    let mut r = reg_with("s", SubscriptionPolicy::default());
    assert_eq!(r.len(), 1);
    r.apply(SubOp::Delete { name: "s".into() });
    assert!(r.is_empty());
    assert!(r.get("s").is_none());
}

#[test]
fn capacity_guard() {
    let mut r = SubRegistry::default();
    assert!(!r.at_capacity("new"));
    for i in 0..MAX_SUBSCRIPTIONS {
        r.apply(SubOp::Create {
            name: format!("s{i}"),
            policy: SubscriptionPolicy::default(),
        });
    }
    assert!(r.at_capacity("brand-new"));
    assert!(
        !r.at_capacity("s0"),
        "existing subscription is not at-capacity"
    );
}

#[test]
fn snapshot_roundtrip() {
    let mut r = reg_with("s", SubscriptionPolicy::default());
    lease(&mut r, "s", 3, 100, 10);
    r.apply(SubOp::Ack {
        name: "s".into(),
        cursor: 1,
    });
    let bytes = r.save();
    let back = SubRegistry::load(&bytes);
    assert_eq!(r, back);
}

#[test]
fn policy_validation() {
    assert!(SubscriptionPolicy::default().validate().is_ok());
    assert!(
        SubscriptionPolicy {
            ack_deadline_secs: 0,
            max_delivery_attempts: 1
        }
        .validate()
        .is_err()
    );
    assert!(
        SubscriptionPolicy {
            ack_deadline_secs: MAX_ACK_DEADLINE_SECS + 1,
            max_delivery_attempts: 1
        }
        .validate()
        .is_err()
    );
}

#[test]
fn out_of_order_ack_advances_floor_only_when_contiguous() {
    let mut r = reg_with("s", SubscriptionPolicy::default());
    lease(&mut r, "s", 5, 100, 10); // lease 1..=5
    // Ack 3 first (out of order): floor must NOT advance (1,2 still unacked).
    r.apply(SubOp::Ack {
        name: "s".into(),
        cursor: 3,
    });
    assert_eq!(
        r.get("s").unwrap().acked,
        0,
        "non-contiguous ack does not advance floor"
    );
    assert_eq!(r.get("s").unwrap().pending_acks(), vec![3]);
    // Ack 1: floor advances to 1 (2 still missing).
    r.apply(SubOp::Ack {
        name: "s".into(),
        cursor: 1,
    });
    assert_eq!(r.get("s").unwrap().acked, 1);
    // Ack 2: now 1,2,3 are contiguous → floor jumps to 3.
    r.apply(SubOp::Ack {
        name: "s".into(),
        cursor: 2,
    });
    assert_eq!(
        r.get("s").unwrap().acked,
        3,
        "contiguous run folds, floor jumps over the held ack"
    );
    assert!(
        r.get("s").unwrap().pending_acks().is_empty(),
        "held ack folded away"
    );
}

#[test]
fn out_of_order_acked_cursor_is_not_redelivered() {
    let mut r = reg_with(
        "s",
        SubscriptionPolicy {
            ack_deadline_secs: 1,
            max_delivery_attempts: 0,
        },
    );
    lease(&mut r, "s", 3, 100, 10); // lease 1..=3
    r.apply(SubOp::Ack {
        name: "s".into(),
        cursor: 2,
    }); // ack 2 out of order
    // After the deadline, 1 and 3 are redeliverable but 2 must not be.
    let out = lease(&mut r, "s", 3, 200, 10);
    let cursors: Vec<Cursor> = out.leased.iter().map(|(c, _)| *c).collect();
    assert_eq!(
        cursors,
        vec![1, 3],
        "out-of-order acked cursor 2 is skipped on redelivery"
    );
}

#[test]
fn ack_is_idempotent() {
    let mut r = reg_with("s", SubscriptionPolicy::default());
    lease(&mut r, "s", 2, 100, 10);
    r.apply(SubOp::Ack {
        name: "s".into(),
        cursor: 1,
    });
    r.apply(SubOp::Ack {
        name: "s".into(),
        cursor: 1,
    }); // re-ack
    assert_eq!(r.get("s").unwrap().acked, 1);
    // Acking a cursor below the floor is a no-op, not an underflow.
    r.apply(SubOp::Ack {
        name: "s".into(),
        cursor: 1,
    });
    assert_eq!(r.get("s").unwrap().acked, 1);
}

#[test]
fn zero_max_attempts_never_dead_letters() {
    let mut r = reg_with(
        "s",
        SubscriptionPolicy {
            ack_deadline_secs: 1,
            max_delivery_attempts: 0,
        },
    );
    let mut now = 100;
    for _ in 0..20 {
        let out = lease(&mut r, "s", 1, now, 10);
        assert!(out.dead_lettered.is_empty(), "0 disables dead-lettering");
        now += 10;
    }
}

#[test]
fn dead_letter_fires_once_at_threshold() {
    let max_attempts = 3u32;
    let mut r = reg(1, max_attempts);
    let high = 1;
    let mut now = 100;
    let mut dead_total = 0;
    let mut delivered = 0;
    for _ in 0..10 {
        let plan = r.plan_lease("s", high, 0, now, 10);
        if let Some((op, out)) = plan {
            r.apply(op);
            delivered += out.leased.len();
            dead_total += out.dead_lettered.len();
        }
        now += 5; // exceed the 1s deadline each round
    }
    assert_eq!(
        delivered, max_attempts as usize,
        "delivered exactly max_attempts times"
    );
    assert_eq!(dead_total, 1, "dead-lettered exactly once");
    assert_eq!(
        r.get("s").unwrap().acked,
        high,
        "floor advanced past the poison message"
    );
}
