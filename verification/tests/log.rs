//! The durable topic log.
use ce_pubsub::log::{LogOp, TopicLog};
use ce_pubsub::message::{Cursor, Message};

fn msg(cursor: Cursor, body: &str) -> Message {
    Message::new(cursor, "writer", body.as_bytes(), 1000 + cursor)
}

fn apply_all(log: &mut TopicLog, ops: Vec<LogOp>) {
    for op in ops {
        log.apply(op);
    }
}

#[test]
fn append_assigns_monotonic_cursors() {
    let mut log = TopicLog::default();
    assert_eq!(log.next_cursor(), 1);
    log.apply(LogOp::Append(msg(1, "a")));
    log.apply(LogOp::Append(msg(2, "b")));
    assert_eq!(log.high_cursor(), 2);
    assert_eq!(log.next_cursor(), 3);
    assert_eq!(log.len(), 2);
}

#[test]
fn since_returns_strict_tail() {
    let mut log = TopicLog::default();
    apply_all(
        &mut log,
        vec![
            LogOp::Append(msg(1, "a")),
            LogOp::Append(msg(2, "b")),
            LogOp::Append(msg(3, "c")),
        ],
    );
    let tail = log.since(1);
    assert_eq!(tail.len(), 2);
    assert_eq!(tail[0].cursor, 2);
    assert_eq!(tail[1].cursor, 3);
    // from 0 = everything; from high = nothing.
    assert_eq!(log.since(0).len(), 3);
    assert_eq!(log.since(3).len(), 0);
}

#[test]
fn prune_advances_floor_and_keeps_cursors_absolute() {
    let mut log = TopicLog::default();
    for i in 1..=5 {
        log.apply(LogOp::Append(msg(i, &format!("m{i}"))));
    }
    log.apply(LogOp::PruneTo(2));
    assert_eq!(log.floor(), 2);
    assert_eq!(log.len(), 3);
    // Surviving messages keep their original absolute cursors.
    let all = log.all();
    assert_eq!(all[0].cursor, 3);
    assert_eq!(all[2].cursor, 5);
    // high/next cursor are unaffected by pruning.
    assert_eq!(log.high_cursor(), 5);
    assert_eq!(log.next_cursor(), 6);
    // since() respects the floor: asking before the floor returns only surviving messages.
    assert_eq!(log.since(0).len(), 3);
}

#[test]
fn get_indexes_by_absolute_cursor_after_prune() {
    let mut log = TopicLog::default();
    for i in 1..=5 {
        log.apply(LogOp::Append(msg(i, &format!("m{i}"))));
    }
    // Before prune: exact cursor lookup.
    assert_eq!(log.get(1).unwrap().text(), "m1");
    assert_eq!(log.get(5).unwrap().text(), "m5");
    assert!(log.get(0).is_none());
    assert!(log.get(6).is_none());
    // After pruning 1,2: pruned cursors return None, survivors keep absolute lookup.
    log.apply(LogOp::PruneTo(2));
    assert!(log.get(1).is_none(), "pruned cursor is gone");
    assert!(log.get(2).is_none());
    assert_eq!(log.get(3).unwrap().text(), "m3");
    assert_eq!(log.get(5).unwrap().text(), "m5");
    assert!(log.get(6).is_none());
}

#[test]
fn append_restamps_cursor_to_preserve_invariant() {
    // A malformed Append carrying a wrong absolute cursor must not desync the log: the state
    // machine re-stamps the canonical next cursor, keeping `floor`/`since`/`get` consistent.
    let mut log = TopicLog::default();
    log.apply(LogOp::Append(msg(999, "out-of-band cursor")));
    assert_eq!(
        log.high_cursor(),
        1,
        "cursor was re-stamped to 1, not trusted as 999"
    );
    assert_eq!(log.all()[0].cursor, 1);
    log.apply(LogOp::Append(msg(0, "another")));
    assert_eq!(log.all()[1].cursor, 2);
    // get() by the canonical cursor works; the bogus value never indexes anything.
    assert!(log.get(999).is_none());
    assert_eq!(log.get(1).unwrap().text(), "out-of-band cursor");
}

#[test]
fn snapshot_plus_tail_equals_full_replay() {
    // The keystone property the durable-log replay relies on, proven at the state-machine level.
    let mut ops = Vec::new();
    for i in 1..=20u64 {
        ops.push(LogOp::Append(msg(i, &format!("m{i}"))));
        if i % 7 == 0 {
            ops.push(LogOp::PruneTo(i - 3));
        }
    }
    let mut reference = TopicLog::default();
    apply_all(&mut reference, ops.clone());

    for cut in 0..=ops.len() {
        let mut snapshotted = TopicLog::default();
        apply_all(&mut snapshotted, ops[..cut].to_vec());
        let bytes = snapshotted.save();
        let mut reader = TopicLog::load(&bytes).unwrap();
        apply_all(&mut reader, ops[cut..].to_vec());
        assert_eq!(reader, reference, "snapshot+tail diverged at cut={cut}");
    }
}

#[test]
fn empty_log_cursor_state() {
    let log = TopicLog::default();
    assert_eq!(log.high_cursor(), 0);
    assert_eq!(log.next_cursor(), 1);
    assert_eq!(log.floor(), 0);
    assert!(log.is_empty());
    assert_eq!(log.since(0).len(), 0);
}

#[test]
fn prune_to_zero_is_noop() {
    let mut log = TopicLog::default();
    for c in 1..=3 {
        log.apply(LogOp::Append(Message::new(c, "w", b"x", c)));
    }
    log.apply(LogOp::PruneTo(0));
    assert_eq!(log.len(), 3, "prune to 0 drops nothing");
    assert_eq!(log.floor(), 0);
}

#[test]
fn prune_beyond_high_drops_all() {
    let mut log = TopicLog::default();
    for c in 1..=3 {
        log.apply(LogOp::Append(Message::new(c, "w", b"x", c)));
    }
    log.apply(LogOp::PruneTo(999));
    assert!(log.is_empty(), "pruning past high drops everything");
    assert_eq!(log.floor(), 3, "floor advanced by the 3 dropped");
    // Cursors stay absolute: a new append still gets cursor 4.
    assert_eq!(log.next_cursor(), 4);
}
