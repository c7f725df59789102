//! What holds across operations, on generated runs.
use std::collections::BTreeSet;

use ce_pubsub::dedup::{IdempotencyCache, Seen};
use ce_pubsub::log::{LogOp, LogSnapshot, TopicLog};
use ce_pubsub::message::{validate_topic, Cursor, Message};
use ce_pubsub::subscription::{
    SubOp, SubRegistry, SubscriptionPolicy, MAX_LEASE_BATCH,
};

struct Rng(u64);

impl Rng {
    fn below(&mut self, n: u64) -> u64 {
        self.0 = self.0.wrapping_mul(6364136223846793005).wrapping_add(1442695040888963407);
        (self.0 >> 33) % n
    }
}

fn reg(deadline: u64, max_attempts: u32) -> SubRegistry {
    let mut r = SubRegistry::default();
    r.apply(SubOp::Create {
        name: "s".into(),
        policy: SubscriptionPolicy {
            ack_deadline_secs: deadline,
            max_delivery_attempts: max_attempts,
        },
    });
    r
}

fn lease_apply(
    r: &mut SubRegistry,
    high: Cursor,
    floor: Cursor,
    now: u64,
    max: usize,
) -> Vec<(Cursor, u32)> {
    match r.plan_lease("s", high, floor, now, max) {
        Some((op, out)) => {
            assert!(r.can_apply(&op), "a planned lease can be applied");
            r.apply(op);
            out.leased
        }
        None => Vec::new(),
    }
}

#[test]
fn lease_ack_invariants_hold() {
    for seed in 0..40 {
        let mut rng = Rng(seed);
        let high = 1 + rng.below(39);
        let deadline = 1 + rng.below(4);
        let mut r = reg(deadline, 0);
        let mut now = 100u64;
        let mut last_acked = 0u64;
        let mut ever_acked: BTreeSet<Cursor> = BTreeSet::new();
        for _ in 0..40 {
            now += rng.below(50);
            match rng.below(3) {
                0 => {
                    let max = 1 + rng.below(19) as usize;
                    let leased = lease_apply(&mut r, high, 0, now, max);
                    let cur_floor = r.get("s").unwrap().acked;
                    for (c, attempt) in &leased {
                        assert!(*c > cur_floor, "leased a cursor at/below the ack floor");
                        assert!(!ever_acked.contains(c), "redelivered an acked cursor {c}");
                        assert!(*attempt >= 1);
                    }
                    assert!(leased.len() <= max && leased.len() <= MAX_LEASE_BATCH);
                }
                1 => {
                    let next = r.get("s").unwrap().acked + 1;
                    if next <= high {
                        r.apply(SubOp::Ack { name: "s".into(), cursor: next });
                        ever_acked.insert(next);
                    }
                }
                _ => {
                    let next = r.get("s").unwrap().acked + 1;
                    if next <= high {
                        r.apply(SubOp::Nack { name: "s".into(), cursor: next });
                    }
                }
            }
            let acked = r.get("s").unwrap().acked;
            assert!(acked >= last_acked, "ack floor went backwards");
            assert!(acked <= high, "ack floor exceeded high-water");
            last_acked = acked;
        }
    }
}

#[test]
fn acking_all_in_order_reaches_high() {
    for high in 1..60 {
        let mut r = reg(30, 0);
        lease_apply(&mut r, high, 0, 100, MAX_LEASE_BATCH);
        for c in 1..=high {
            r.apply(SubOp::Ack { name: "s".into(), cursor: c });
        }
        assert_eq!(r.get("s").unwrap().acked, high);
        assert_eq!(r.get("s").unwrap().outstanding(), 0);
    }
}

#[test]
fn out_of_order_acks_track_contiguous_prefix() {
    for seed in 0..30 {
        let mut rng = Rng(seed);
        let high = 1 + rng.below(24);
        let mut r = reg(30, 0);
        lease_apply(&mut r, high, 0, 100, MAX_LEASE_BATCH);
        let mut order: Vec<Cursor> = (1..=high).collect();
        for i in (1..order.len()).rev() {
            let j = rng.below(i as u64 + 1) as usize;
            order.swap(i, j);
        }
        let mut acked: BTreeSet<Cursor> = BTreeSet::new();
        for c in order {
            r.apply(SubOp::Ack { name: "s".into(), cursor: c });
            acked.insert(c);
            let mut expected = 0;
            while acked.contains(&(expected + 1)) {
                expected += 1;
            }
            assert_eq!(r.get("s").unwrap().acked, expected);
        }
        assert_eq!(r.get("s").unwrap().acked, high);
    }
}

#[test]
fn snapshot_roundtrips() {
    for high in 0..30 {
        for max_attempts in 0..4 {
            let deadline = 1 + high % 4;
            let mut r = reg(deadline, max_attempts);
            let mut now = 100;
            for _ in 0..6 {
                lease_apply(&mut r, high, 0, now, 10);
                now += deadline + 1;
            }
            r.apply(SubOp::Ack { name: "s".into(), cursor: 1 });
            assert_eq!(SubRegistry::load(&r.save()), r);
            assert_eq!(r.clone(), r);
        }
    }
}

#[test]
fn attempts_count_the_deliveries() {
    for seed in 0..20 {
        let mut rng = Rng(seed);
        let allowed = rng.below(4) as u32;
        let mut r = reg(1 + rng.below(3), allowed);
        let mut delivered = [0u32; 11];
        let mut now = 0;
        for _ in 0..60 {
            now += rng.below(3);
            let cursor = 1 + rng.below(10);
            match rng.below(4) {
                0 => r.apply(SubOp::Nack { name: "s".into(), cursor }),
                1 if rng.below(8) == 0 => r.apply(SubOp::Ack { name: "s".into(), cursor }),
                _ => {
                    let max = rng.below(5) as usize;
                    if let Some((op, out)) = r.plan_lease("s", 10, 0, now, max) {
                        for (c, k) in &out.leased {
                            assert_eq!(*k, delivered[*c as usize] + 1);
                            assert!(allowed == 0 || *k <= allowed);
                            delivered[*c as usize] += 1;
                        }
                        for c in &out.dead_lettered {
                            assert!(allowed != 0 && delivered[*c as usize] + 1 > allowed);
                        }
                        r.apply(op);
                    }
                }
            }
        }
    }
}

#[test]
fn operations_touch_one_subscription_only() {
    let mut r = reg(30, 0);
    r.apply(SubOp::Create { name: "t".into(), policy: SubscriptionPolicy::default() });
    lease_apply(&mut r, 5, 0, 100, 10);
    let before = r.get("t").unwrap().clone();
    for op in [
        SubOp::Ack { name: "s".into(), cursor: 3 },
        SubOp::Nack { name: "s".into(), cursor: 4 },
        SubOp::Delete { name: "s".into() },
        SubOp::Ack { name: "ghost".into(), cursor: 1 },
    ] {
        assert_eq!(op.clone(), op);
        r.apply(op);
        assert_eq!(*r.get("t").unwrap(), before);
    }
    assert_eq!(r.names(), vec!["t".to_string()]);
}

#[test]
fn counters_at_their_limit_are_recognized() {
    let mut r = reg(30, 0);
    assert!(r.try_plan_lease("s", u64::MAX, u64::MAX, 0, 1).is_none());
    assert!(r.try_plan_lease("s", u64::MAX, u64::MAX - 1, 0, 1).is_none());
    assert!(r.try_plan_lease("s", 5, 0, 0, 1).is_some());
    assert_eq!(r.try_plan_lease("ghost", 5, 0, 0, 1), Some(None));
    let near = SubOp::ApplyLease {
        name: "s".into(),
        leased: vec![],
        dead: vec![],
        new_acked: u64::MAX - 1,
    };
    r.apply(near);
    assert!(!r.can_apply(&SubOp::Ack { name: "s".into(), cursor: u64::MAX }));
    assert!(r.can_apply(&SubOp::Ack { name: "s".into(), cursor: 5 }));
    assert!(r.can_apply(&SubOp::Ack { name: "ghost".into(), cursor: u64::MAX }));
}

#[test]
fn an_unbounded_deadline_is_brought_within_bounds() {
    let mut r = reg(100_000, 0);
    lease_apply(&mut r, 1, 0, 100, 1);
    assert!(lease_apply(&mut r, 1, 0, 699, 1).is_empty());
    assert_eq!(lease_apply(&mut r, 1, 0, 700, 1), vec![(1, 2)]);
    let mut r = reg(0, 0);
    lease_apply(&mut r, 1, 0, 100, 1);
    assert!(lease_apply(&mut r, 1, 0, 100, 1).is_empty());
    assert_eq!(lease_apply(&mut r, 1, 0, 101, 1), vec![(1, 2)]);
}

fn msg(cursor: u64, body: &[u8]) -> Message {
    Message::new(cursor, "w", body, 1000 + cursor)
}

#[test]
fn log_cursor_algebra_holds() {
    for appends in 0..40u64 {
        for up_to in [0, appends / 3, appends / 2, appends] {
            let mut log = TopicLog::default();
            for _ in 0..appends {
                let c = log.next_cursor();
                log.apply(LogOp::Append(msg(c, format!("m{c}").as_bytes())));
            }
            assert_eq!(log.high_cursor(), appends);
            assert_eq!(log.next_cursor(), appends + 1);
            assert_eq!(log.len() as u64, appends);
            log.apply(LogOp::PruneTo(up_to));
            assert_eq!(log.floor(), up_to);
            assert_eq!(log.high_cursor(), appends);
            let all = log.all();
            for w in all.windows(2) {
                assert!(w[0].cursor < w[1].cursor, "cursors must stay strictly increasing");
            }
            for m in &all {
                assert!(m.cursor > up_to, "pruned message survived");
                assert_eq!(log.get(m.cursor).as_ref(), Some(m));
            }
            assert_eq!(log.since(up_to).len(), all.len());
            assert_eq!(log.since(appends).len(), 0);
        }
    }
}

#[test]
fn a_snapshot_out_of_range_is_refused() {
    let s = LogSnapshot { messages: vec![msg(1, b"x")], floor: u64::MAX };
    assert_eq!(TopicLog::load(&s).unwrap_err().text, "snapshot cursors out of range");
    let s = LogSnapshot { messages: vec![msg(1, b"x")], floor: u64::MAX - 1 };
    assert_eq!(TopicLog::load(&s).unwrap().high_cursor(), u64::MAX);
}

#[test]
fn validate_topic_is_exact() {
    for t in ["", "a", "a b", "A.b-c_d:9", "\u{e9}", "a\n", "~", "a/", "[", "`", "{", "@"] {
        let expect_ok = !t.is_empty()
            && t.len() <= 200
            && t.chars()
                .all(|c| c.is_ascii_alphanumeric() || matches!(c, '.' | '-' | '_' | ':'));
        assert_eq!(validate_topic(t).is_ok(), expect_ok, "{t:?}");
    }
}

#[test]
fn an_expired_key_that_returns_is_the_youngest() {
    let mut c = IdempotencyCache::new(2, 10);
    c.insert("a".into(), Seen::Cursor(1), 0);
    c.insert("b".into(), Seen::Cursor(2), 0);
    // "a" expires and comes back: it is now younger than "b".
    assert_eq!(c.get("a", 20), None);
    assert_eq!(c.len(), 1);
    c.insert("a".into(), Seen::Cursor(3), 20);
    c.insert("c".into(), Seen::Handled, 20);
    assert_eq!(c.get("a", 21), Some(Seen::Cursor(3)), "the recent key is kept");
    assert_eq!(c.get("b", 21), None, "the oldest key was evicted");
    assert_eq!(c.get("c", 21), Some(Seen::Handled));
    assert!(!c.is_empty());
}
