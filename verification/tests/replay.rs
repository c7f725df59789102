//! Durable replay and convergence.
use ce_pubsub::log::{LogOp, TopicLog};
use ce_pubsub::message::Cursor;
use ce_pubsub::replay::{ConvergeStep, Convergence};
use ce_pubsub::{Message, Replay, MAX_PULL_LIMIT};

fn replay(messages: Vec<Message>, high: Cursor) -> Replay {
    let next = messages.last().map(|m| m.cursor).unwrap_or(0);
    Replay {
        messages,
        high,
        next,
        target: Some(high),
        converged: true,
        truncated: false,
        floor: 0,
        missing: 0,
    }
}

#[test]
fn replay_exposes_messages_and_pagination() {
    let r = replay(
        vec![Message::new(2, "n", b"a", 1), Message::new(3, "n", b"b", 2)],
        3,
    );
    assert_eq!(r.len(), 2);
    assert_eq!(r.high_cursor(), 3);
    assert_eq!(r.next_cursor(), 3);
    assert!(!r.is_empty());
    assert!(r.converged());
    assert!(!r.truncated());
    assert_eq!(r.missing(), 0);
    assert_eq!(r.messages()[0].cursor, 2);
}

#[test]
fn replay_reports_incomplete_when_not_converged() {
    let r = Replay {
        messages: vec![Message::new(1, "n", b"a", 1)],
        high: 1,
        next: 1,
        target: Some(5),
        converged: false,
        truncated: false,
        floor: 0,
        missing: 4,
    };
    assert!(!r.converged());
    assert_eq!(r.missing(), 4);
    assert_eq!(r.target(), Some(5));
}

fn log_of(n: u64) -> TopicLog {
    let mut log = TopicLog::default();
    for i in 1..=n {
        log.apply(LogOp::Append(Message::new(0, "w", format!("m{i}").as_bytes(), i)));
    }
    log
}

#[test]
fn pages_follow_each_other_without_gap_or_repetition() {
    let mut log = log_of(10);
    log.apply(LogOp::PruneTo(3));
    let mut seen = Vec::new();
    let mut from = 0;
    loop {
        let page = Replay::page(&log, from, 3, Some(10), true);
        assert!(page.len() <= 3);
        seen.extend(page.messages().iter().map(|m| m.cursor));
        from = page.next_cursor();
        if !page.truncated() {
            assert_eq!(from, 10);
            assert_eq!(page.floor(), 3);
            break;
        }
    }
    assert_eq!(seen, vec![4, 5, 6, 7, 8, 9, 10]);
}

#[test]
fn an_empty_page_continues_at_the_high_water_cursor() {
    let mut log = log_of(5);
    log.apply(LogOp::PruneTo(5));
    let page = Replay::page(&log, 2, 100, None, false);
    assert!(page.is_empty());
    assert_eq!(page.next_cursor(), 5);
    assert_eq!(page.missing(), 0);
    assert_eq!(page.target(), None);
    assert!(page.into_messages().is_empty());
}

#[test]
fn a_lagging_replica_tells_how_much_is_missing() {
    let page = Replay::page(&log_of(4), 0, 100, Some(9), false);
    assert_eq!(page.missing(), 5);
    assert_eq!(page.high_cursor(), 4);
    assert_eq!(Replay::page(&log_of(4), 0, 100, Some(3), true).missing(), 0);
}

#[test]
fn pages_hold_at_most_the_limit() {
    let log = log_of(3);
    let none = Replay::page(&log, 1, 0, None, false);
    assert!(none.is_empty());
    assert!(none.truncated());
    assert_eq!(none.next_cursor(), 1);
    let end = Replay::page(&log, 3, 0, None, false);
    assert!(end.is_empty());
    assert!(!end.truncated());
    assert_eq!(end.next_cursor(), 3);
    assert_eq!(Replay::page(&log, 0, 1, None, false).len(), 1);
    assert_eq!(Replay::page(&log, 0, usize::MAX, None, false).len(), 3);
    assert_eq!(MAX_PULL_LIMIT, 100_000);
}

#[test]
fn a_converged_page_is_complete() {
    // The replica is looked at until it reaches the owner's cursor, and read only then.
    let (mut c, _) = Convergence::start(Some(4), 0);
    let mut high = 2;
    let converged = loop {
        let (next, step) = c.look(high, high, false);
        c = next;
        match step {
            ConvergeStep::Stop { converged } => break converged,
            ConvergeStep::Wait { .. } => high += 1,
        }
    };
    let page = Replay::page(&log_of(high), 0, 100, Some(4), converged);
    assert!(page.converged());
    assert_eq!(page.missing(), 0);
    assert_eq!(page.len(), 4);
    // Where the deadline passes first, what is missing is told.
    let (c, _) = Convergence::start(Some(4), 0);
    assert_eq!(c.look(3, 3, true).1, ConvergeStep::Stop { converged: false });
    let page = Replay::page(&log_of(3), 0, 100, Some(4), false);
    assert!(!page.converged());
    assert_eq!(page.missing(), 1);
}

#[test]
fn convergence_to_a_target_is_proved_by_reaching_it() {
    let (c, wait) = Convergence::start(Some(5), 0);
    assert_eq!(wait, 0);
    assert_eq!(c.look(4, 0, false).1, ConvergeStep::Wait { millis: 100 });
    assert_eq!(c.look(4, 0, true).1, ConvergeStep::Stop { converged: false });
    assert_eq!(c.look(5, 0, true).1, ConvergeStep::Stop { converged: true });
}

#[test]
fn a_quiet_window_ends_the_wait_and_proves_nothing() {
    let (c, wait) = Convergence::start(None, 7);
    assert_eq!(wait, 150);
    let (c, step) = c.look(99, 7, false);
    assert_eq!(step, ConvergeStep::Wait { millis: 150 });
    let (c, step) = c.look(99, 8, false);
    assert_eq!(step, ConvergeStep::Wait { millis: 150 });
    let (c, step) = c.look(99, 8, false);
    assert_eq!(step, ConvergeStep::Wait { millis: 150 });
    assert_eq!(c.look(99, 8, false).1, ConvergeStep::Stop { converged: false });
    assert_eq!(c.look(99, 9, true).1, ConvergeStep::Stop { converged: false });
}
