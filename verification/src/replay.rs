//! Durable replay: one page of a topic's log from a cursor on, and the convergence of a replica to
//! the owner's log before it is read.
use vstd::prelude::*;

use crate::log;
use crate::log::{LogView, TopicLog};
use crate::message::{Cursor, Message, MessageView};

verus! {

/// How many messages one pull returns, unless asked otherwise.
pub const DEFAULT_PULL_LIMIT: usize = 1_000;

/// Hard ceiling on the messages of one pull.
pub const MAX_PULL_LIMIT: usize = 100_000;

/// The result of a durable pull: the messages replayed from the requested cursor on, and what it
/// takes to paginate and to detect an incomplete replay.
#[derive(Debug, Clone, PartialEq, Eq)]
pub struct Replay {
    /// The replayed messages, in cursor order.
    pub messages: Vec<Message>,
    /// The replica's highest cursor.
    pub high: Cursor,
    /// Where a later pull continues.
    pub next: Cursor,
    /// The owner's high-water cursor, where it could be reached.
    pub target: Option<Cursor>,
    /// Whether the replica provably caught up with the owner.
    pub converged: bool,
    /// Whether the page limit held messages back.
    pub truncated: bool,
    /// The retention floor.
    pub floor: Cursor,
    /// How many messages the owner has beyond the replica.
    pub missing: u64,
}

/// What a replay stands for.
#[verifier::ext_equal]
pub struct ReplayView {
    pub messages: Seq<MessageView>,
    pub high: Cursor,
    pub next: Cursor,
    pub target: Option<Cursor>,
    pub converged: bool,
    pub truncated: bool,
    pub floor: Cursor,
    pub missing: u64,
}

impl View for Replay {
    type V = ReplayView;

    open spec fn view(&self) -> ReplayView {
        ReplayView {
            messages: log::views(self.messages@),
            high: self.high,
            next: self.next,
            target: self.target,
            converged: self.converged,
            truncated: self.truncated,
            floor: self.floor,
            missing: self.missing,
        }
    }
}

/// A page limit held to the hard ceiling.
pub open spec fn page_limit(limit: usize) -> nat {
    if limit > MAX_PULL_LIMIT {
        MAX_PULL_LIMIT as nat
    } else {
        limit as nat
    }
}

/// The page of `l` with the messages after `from`: all of them, or as many as the limit allows. A
/// later pull continues after the last message of a page that was cut, at `from` where the limit
/// left no message on the page, and else after the highest cursor.
pub open spec fn page_of(
    l: LogView,
    from: Cursor,
    limit: usize,
    target: Option<Cursor>,
    converged: bool,
) -> ReplayView {
    let tail = log::above(l.messages, from);
    let truncated = tail.len() > page_limit(limit);
    let messages = if truncated {
        tail.take(page_limit(limit) as int)
    } else {
        tail
    };
    ReplayView {
        messages,
        high: l.high() as u64,
        next: if !truncated {
            l.high() as u64
        } else if messages.len() == 0 {
            from
        } else {
            messages.last().cursor
        },
        target,
        converged,
        truncated,
        floor: l.floor as u64,
        missing: match target {
            Some(t) if t > l.high() => (t - l.high()) as u64,
            _ => 0,
        },
    }
}

impl Replay {
    /// One page of a replica: the messages after `from`, at most `limit` of them. `target` is the
    /// owner's high-water cursor, where it could be reached, and `converged` whether the replica
    /// reached it.
    pub fn page(
        log: &TopicLog,
        from: Cursor,
        limit: usize,
        target: Option<Cursor>,
        converged: bool,
    ) -> (r: Self)
        ensures
            r@ == page_of(log@, from, limit, target, converged),
    {
        let limit: usize = if limit > MAX_PULL_LIMIT {
            MAX_PULL_LIMIT
        } else {
            limit
        };
        let mut messages: Vec<Message> = log.since(from);
        let ghost tail = messages@;
        assert(log::views(tail).len() == tail.len());
        let high: Cursor = log.high_cursor();
        let truncated: bool = messages.len() > limit;
        let next: Cursor = if truncated {
            messages.truncate(limit);
            assert(log::views(messages@) =~= log::views(tail).take(limit as int));
            if limit == 0 {
                from
            } else {
                assert(log::views(messages@).last() == messages@.last()@);
                messages[limit - 1].cursor
            }
        } else {
            high
        };
        let missing: u64 = match target {
            Some(t) => if t > high {
                t - high
            } else {
                0
            },
            None => 0,
        };
        Replay {
            messages,
            high,
            next,
            target,
            converged,
            truncated,
            floor: log.floor(),
            missing,
        }
    }

    /// The replayed messages, in cursor order.
    pub fn messages(&self) -> (m: &[Message])
        ensures
            m@ == self.messages@,
    {
        self.messages.as_slice()
    }

    /// The replayed messages, without a copy.
    pub fn into_messages(self) -> (m: Vec<Message>)
        ensures
            m == self.messages,
    {
        self.messages
    }

    /// The replica's highest cursor at pull time.
    pub fn high_cursor(&self) -> (c: Cursor)
        ensures
            c == self@.high,
    {
        self.high
    }

    /// The cursor from which a later pull continues exactly where this replay ended.
    pub fn next_cursor(&self) -> (c: Cursor)
        ensures
            c == self@.next,
    {
        self.next
    }

    /// The owner's high-water cursor. `None` means that the owner was unreachable: the result is
    /// best-effort.
    pub fn target(&self) -> (t: Option<Cursor>)
        ensures
            t == self@.target,
    {
        self.target
    }

    /// Whether the replica provably caught up with the owner's high-water cursor. Where it did not,
    /// the replay may be incomplete.
    pub fn converged(&self) -> (b: bool)
        ensures
            b == self@.converged,
    {
        self.converged
    }

    /// Whether more messages existed than the page limit allowed.
    pub fn truncated(&self) -> (b: bool)
        ensures
            b == self@.truncated,
    {
        self.truncated
    }

    /// The retention floor at pull time.
    pub fn floor(&self) -> (c: Cursor)
        ensures
            c == self@.floor,
    {
        self.floor
    }

    /// How many messages the owner has beyond what this replica holds.
    pub fn missing(&self) -> (n: u64)
        ensures
            n == self@.missing,
    {
        self.missing
    }

    /// Number of replayed messages.
    pub fn len(&self) -> (n: usize)
        ensures
            n == self@.messages.len(),
    {
        self.messages.len()
    }

    /// Whether nothing was replayed.
    pub fn is_empty(&self) -> (b: bool)
        ensures
            b == (self@.messages.len() == 0),
    {
        self.messages.len() == 0
    }
}

/// Pulling page after page loses and repeats nothing: what stands after `from` is the page, followed
/// by what stands after the cursor that the page gives to continue from. A page that was not cut is
/// the last, and one that was cut makes progress unless no message was asked for.
pub proof fn pages_make_up_the_log(
    l: LogView,
    from: Cursor,
    limit: usize,
    target: Option<Cursor>,
    converged: bool,
)
    requires
        l.contiguous(),
        l.high() <= u64::MAX,
    ensures
        ({
            let page = page_of(l, from, limit, target, converged);
            &&& log::above(l.messages, from) == page.messages + log::above(l.messages, page.next)
            &&& page.messages.len() <= page_limit(limit)
            &&& !page.truncated ==> log::above(l.messages, page.next).len() == 0
            &&& page.truncated && limit > 0 ==> page.messages.len() > 0 && page.next > from
        }),
{
    let tail = log::above(l.messages, from);
    let page = page_of(l, from, limit, target, converged);
    log::since_is_the_strict_tail(l, from);
    log::since_is_the_strict_tail(l, page.next);
    let n = page_limit(limit) as int;
    if page.truncated && n > 0 {
        let skipped = if from <= l.floor {
            0
        } else {
            from - l.floor
        };
        assert(page.messages.last() == tail[n - 1]);
        assert(tail[n - 1] == l.messages[skipped + n - 1]);
        assert(page.next == l.floor + skipped + n);
        assert(log::above(l.messages, page.next) =~= tail.skip(n));
        assert(tail =~= tail.take(n) + tail.skip(n));
    } else if page.truncated {
        assert(page.messages =~= Seq::empty());
        assert(Seq::<MessageView>::empty() + tail =~= tail);
    } else {
        assert(log::above(l.messages, page.next) =~= Seq::empty());
        assert(tail + Seq::<MessageView>::empty() =~= tail);
    }
}

/// A replica that reached the owner's high-water cursor misses nothing, and one that misses
/// something did not reach it.
pub proof fn converged_replay_misses_nothing(
    l: LogView,
    from: Cursor,
    limit: usize,
    target: Cursor,
    converged: bool,
)
    requires
        l.high() <= u64::MAX,
    ensures
        page_of(l, from, limit, Some(target), converged).missing == 0 <==> l.high() >= target,
{
}

/// How a replica is brought up to date before it is read.
#[derive(Debug, Clone, Copy, PartialEq, Eq, Structural)]
pub enum Convergence {
    /// The owner's high-water cursor is known: wait until the replica reaches it.
    Target(Cursor),
    /// It is not: wait until the replica's version has stood still for two intervals.
    Quiet {
        /// The version last seen.
        last: u64,
        /// Whether it had stood still for an interval already.
        stable: bool,
    },
}

/// What to do next to bring a replica up to date.
#[derive(Debug, Clone, Copy, PartialEq, Eq, Structural)]
pub enum ConvergeStep {
    /// Wait, and look again.
    Wait {
        /// For how long.
        millis: u64,
    },
    /// Read the replica now.
    Stop {
        /// Whether it provably caught up.
        converged: bool,
    },
}

/// How convergence starts, and how long to wait before the first look.
pub open spec fn convergence_start(target: Option<Cursor>, version: u64) -> (Convergence, u64) {
    match target {
        Some(t) => (Convergence::Target(t), 0),
        None => (Convergence::Quiet { last: version, stable: false }, 150),
    }
}

/// What a look at a replica makes of its convergence. A quiet interval proves nothing: without a
/// target a replica never counts as converged.
pub open spec fn convergence_after(
    c: Convergence,
    high: Cursor,
    version: u64,
    expired: bool,
) -> (Convergence, ConvergeStep) {
    match c {
        Convergence::Target(t) => (
            c,
            if high >= t {
                ConvergeStep::Stop { converged: true }
            } else if expired {
                ConvergeStep::Stop { converged: false }
            } else {
                ConvergeStep::Wait { millis: 100 }
            },
        ),
        Convergence::Quiet { last, stable } => {
            let next = if version == last {
                Convergence::Quiet { last, stable: true }
            } else {
                Convergence::Quiet { last: version, stable: false }
            };
            (
                next,
                if (version == last && stable) || expired {
                    ConvergeStep::Stop { converged: false }
                } else {
                    ConvergeStep::Wait { millis: 150 }
                },
            )
        },
    }
}

impl Convergence {
    /// Starts convergence to `target`, where it is known, of a replica at `version`; with the
    /// milliseconds to wait before the first look.
    pub fn start(target: Option<Cursor>, version: u64) -> (r: (Self, u64))
        ensures
            r == convergence_start(target, version),
    {
        match target {
            Some(t) => (Convergence::Target(t), 0),
            None => (Convergence::Quiet { last: version, stable: false }, 150),
        }
    }

    /// Looks at a replica whose highest cursor is `high`, at `version`, where `expired` tells whether
    /// the deadline has passed.
    pub fn look(self, high: Cursor, version: u64, expired: bool) -> (r: (Self, ConvergeStep))
        ensures
            r == convergence_after(self, high, version, expired),
    {
        match self {
            Convergence::Target(t) => {
                let step: ConvergeStep = if high >= t {
                    ConvergeStep::Stop { converged: true }
                } else if expired {
                    ConvergeStep::Stop { converged: false }
                } else {
                    ConvergeStep::Wait { millis: 100 }
                };
                (self, step)
            },
            Convergence::Quiet { last, stable } => {
                let quiet: bool = version == last;
                let next: Convergence = if quiet {
                    Convergence::Quiet { last, stable: true }
                } else {
                    Convergence::Quiet { last: version, stable: false }
                };
                let step: ConvergeStep = if (quiet && stable) || expired {
                    ConvergeStep::Stop { converged: false }
                } else {
                    ConvergeStep::Wait { millis: 150 }
                };
                (next, step)
            },
        }
    }
}

/// A replica counts as converged only where the owner's high-water cursor is known and the replica
/// has reached it.
pub proof fn convergence_is_honest(c: Convergence, high: Cursor, version: u64, expired: bool)
    requires
        convergence_after(c, high, version, expired).1 == (ConvergeStep::Stop { converged: true }),
    ensures
        c matches Convergence::Target(t) && high >= t,
{
}

/// Where a list of looks at a replica, each with its highest cursor, its version and whether the
/// deadline has passed, brings its convergence.
pub open spec fn convergence_after_all(
    c: Convergence,
    looks: Seq<(Cursor, u64, bool)>,
) -> Convergence
    decreases looks.len(),
{
    if looks.len() == 0 {
        c
    } else {
        let (high, version, expired) = looks.last();
        convergence_after(
            convergence_after_all(c, looks.drop_last()),
            high,
            version,
            expired,
        ).0
    }
}

proof fn lemma_looks_keep_the_target(
    target: Option<Cursor>,
    version: u64,
    looks: Seq<(Cursor, u64, bool)>,
)
    ensures
        ({
            let c = convergence_after_all(convergence_start(target, version).0, looks);
            match target {
                Some(t) => c == Convergence::Target(t),
                None => c is Quiet,
            }
        }),
    decreases looks.len(),
{
    if looks.len() > 0 {
        lemma_looks_keep_the_target(target, version, looks.drop_last());
    }
}

/// An incomplete replay is never returned as complete: where convergence, after however many looks,
/// stopped at a cursor that the replica holds when it is read, the page counts as converged only
/// where the owner's high-water cursor is known and nothing up to it is missing. A page that counts
/// as not converged was read without a target, or at a time when the replica was last seen below it.
pub proof fn converged_page_is_complete(
    l: LogView,
    from: Cursor,
    limit: usize,
    target: Option<Cursor>,
    start: u64,
    looks: Seq<(Cursor, u64, bool)>,
    high: Cursor,
    version: u64,
    expired: bool,
    converged: bool,
)
    requires
        l.high() <= u64::MAX,
        high <= l.high(),
        convergence_after(
            convergence_after_all(convergence_start(target, start).0, looks),
            high,
            version,
            expired,
        ).1 == (ConvergeStep::Stop { converged }),
    ensures
        ({
            let page = page_of(l, from, limit, target, converged);
            &&& page.converged ==> target is Some && page.missing == 0 && page.high >= target->0
            &&& !page.converged ==> target is None || high < target->0
        }),
{
    lemma_looks_keep_the_target(target, start, looks);
}

/// Convergence ends at the deadline.
pub proof fn convergence_ends_at_the_deadline(c: Convergence, high: Cursor, version: u64)
    ensures
        convergence_after(c, high, version, true).1 is Stop,
{
}

/// A page holds, in order and without a gap, the retained messages after `from`: as many of them as
/// there are, as asked for, and as 100,000. It was cut exactly where more of them are retained. Where
/// it was cut a later pull continues after its last message, or at `from` where it is empty; else after
/// the highest cursor.
pub proof fn page_holds_the_messages_after_the_cursor(
    l: LogView,
    from: Cursor,
    limit: usize,
    target: Option<Cursor>,
    converged: bool,
)
    requires
        l.contiguous(),
        l.floor + l.messages.len() <= u64::MAX,
    ensures
        ({
            let page = page_of(l, from, limit, target, converged);
            let first = if from <= l.floor {
                0
            } else if from <= l.floor + l.messages.len() {
                from - l.floor
            } else {
                l.messages.len() as int
            };
            let available = l.messages.len() - first;
            let n = page.messages.len();
            &&& n <= limit && n <= 100_000 && n <= available
            &&& n == limit || n == 100_000 || n == available
            &&& forall|i: int| 0 <= i < n ==> #[trigger] page.messages[i] == l.messages[first + i]
            &&& forall|i: int| 0 <= i < n ==> (#[trigger] page.messages[i]).cursor > from
            &&& page.truncated <==> n < available
            &&& page.next == if !page.truncated {
                l.floor + l.messages.len() as int
            } else if n == 0 {
                from as int
            } else {
                l.floor + first + n
            }
        }),
{
    log::since_is_the_strict_tail(l, from);
    let tail = log::above(l.messages, from);
    let page = page_of(l, from, limit, target, converged);
    let first = if from <= l.floor {
        0
    } else if from <= l.floor + l.messages.len() {
        from - l.floor
    } else {
        l.messages.len() as int
    };
    assert(tail.len() == l.messages.len() - first);
    assert forall|i: int| 0 <= i < tail.len() implies #[trigger] tail[i] == l.messages[first + i] by {}
    let n = page.messages.len();
    assert forall|i: int| 0 <= i < n implies #[trigger] page.messages[i] == tail[i] by {}
    if n > 0 {
        assert(page.messages.last() == l.messages[first + n - 1]);
    }
}

/// A page tells the replica's highest cursor and its floor, passes on the owner's cursor and whether
/// the replica caught up with it, and tells how far the replica lags behind it.
pub proof fn page_tells_the_state_of_the_replica(
    l: LogView,
    from: Cursor,
    limit: usize,
    target: Option<Cursor>,
    converged: bool,
)
    requires
        l.floor + l.messages.len() <= u64::MAX,
    ensures
        ({
            let page = page_of(l, from, limit, target, converged);
            &&& page.high == l.floor + l.messages.len()
            &&& page.floor == l.floor
            &&& page.target == target
            &&& page.converged == converged
            &&& target is None ==> page.missing == 0
            &&& target matches Some(t) ==> page.missing == if t > page.high {
                t - page.high
            } else {
                0
            }
        }),
{
}

/// With a known target convergence stops exactly where the target is reached or the deadline has
/// passed, and counts as converged exactly where the target is reached; until then it looks again
/// every tenth of a second, for the same target.
pub proof fn target_is_awaited_until_the_deadline(
    t: Cursor,
    version: u64,
    high: Cursor,
    seen: u64,
    expired: bool,
)
    ensures
        ({
            let (c, wait) = convergence_start(Some(t), version);
            let (next, step) = convergence_after(c, high, seen, expired);
            &&& wait == 0
            &&& next == c
            &&& step is Stop <==> high >= t || expired
            &&& step matches ConvergeStep::Stop { converged } ==> converged == (high >= t)
            &&& step matches ConvergeStep::Wait { millis } ==> millis == 100
        }),
{
}

/// Without a target convergence stops exactly where the deadline has passed or two looks in a row have
/// found the version that the look before them found, or the start; it never counts as converged, and
/// until then it looks again every 150 milliseconds.
pub proof fn quiet_replica_is_read_after_two_quiet_looks(
    start: u64,
    first: (Cursor, u64, bool),
    second: (Cursor, u64, bool),
    looks: Seq<(Cursor, u64, bool)>,
)
    ensures
        ({
            let (c, wait) = convergence_start(None, start);
            let (d, step) = convergence_after(c, first.0, first.1, first.2);
            &&& wait == 150
            &&& step is Stop <==> first.2
            &&& step matches ConvergeStep::Stop { converged } ==> !converged
            &&& step matches ConvergeStep::Wait { millis } ==> millis == 150
        }),
        looks.len() > 0 ==> {
            let before = if looks.len() > 1 {
                looks[looks.len() - 2].1
            } else {
                start
            };
            let c = convergence_after_all(convergence_start(None, start).0, looks);
            let step = convergence_after(c, second.0, second.1, second.2).1;
            &&& step is Stop <==> second.2 || (second.1 == looks.last().1 && looks.last().1 == before)
            &&& step matches ConvergeStep::Stop { converged } ==> !converged
            &&& step matches ConvergeStep::Wait { millis } ==> millis == 150
        },
{
    if looks.len() > 0 {
        lemma_quiet(start, looks);
        lemma_quiet(start, looks.drop_last());
        if looks.len() > 1 {
            assert(looks.drop_last().last() == looks[looks.len() - 2]);
        }
    }
}

proof fn lemma_quiet(start: u64, looks: Seq<(Cursor, u64, bool)>)
    ensures
        convergence_after_all(convergence_start(None, start).0, looks) matches Convergence::Quiet {
            last,
            stable,
        } && last == if looks.len() > 0 {
            looks.last().1
        } else {
            start
        } && (looks.len() == 0 ==> !stable) && (looks.len() > 0 ==> stable == (looks.last().1
            == if looks.len() > 1 {
            looks[looks.len() - 2].1
        } else {
            start
        })),
    decreases looks.len(),
{
    if looks.len() > 0 {
        lemma_quiet(start, looks.drop_last());
        if looks.len() > 1 {
            assert(looks.drop_last().last() == looks[looks.len() - 2]);
        }
    }
}

} // verus!
