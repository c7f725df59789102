//! The durable topic log: an append-only sequence of messages with a retention floor.
//!
//! The owner of a topic appends every accepted message. A puller replays the tail from its cursor
//! and so receives every message that it missed. Retention is a separate, explicit operation, so
//! that it stays the owner's decision.
use vstd::prelude::*;

use crate::error::PubSubError;
use crate::message::{Cursor, Message, MessageView};

verus! {

/// The messages that `s` stands for.
pub open spec fn views(s: Seq<Message>) -> Seq<MessageView> {
    s.map_values(|m: Message| m@)
}

/// What a topic log stands for.
#[verifier::ext_equal]
pub struct LogView {
    /// The retained messages, in cursor order.
    pub messages: Seq<MessageView>,
    /// How many messages have been pruned from the front.
    pub floor: nat,
}

/// The messages of `s` with a cursor above `from`, in order.
pub open spec fn above(s: Seq<MessageView>, from: Cursor) -> Seq<MessageView>
    decreases s.len(),
{
    if s.len() == 0 {
        Seq::empty()
    } else if s.last().cursor > from {
        above(s.drop_last(), from).push(s.last())
    } else {
        above(s.drop_last(), from)
    }
}

impl LogView {
    /// The highest cursor ever assigned.
    pub open spec fn high(self) -> nat {
        self.floor + self.messages.len()
    }

    /// Whether each retained message has the cursor that its place gives it.
    pub open spec fn contiguous(self) -> bool {
        forall|i: int|
            0 <= i < self.messages.len() ==> (#[trigger] self.messages[i]).cursor == self.floor + i
                + 1
    }

    /// The log with `m` appended under the next cursor.
    pub open spec fn appended(self, m: MessageView) -> LogView {
        LogView {
            messages: self.messages.push(MessageView { cursor: (self.high() + 1) as u64, ..m }),
            ..self
        }
    }

    /// The log without the messages up to `up_to`.
    pub open spec fn pruned(self, up_to: Cursor) -> LogView {
        let kept = above(self.messages, up_to);
        LogView {
            messages: kept,
            floor: (self.floor + self.messages.len() - kept.len()) as nat,
        }
    }
}

/// The replicated state of one topic: the ordered message log and the retention floor. The floor
/// lets cursors stay absolute: a message keeps its cursor after older messages are pruned.
#[derive(Debug, PartialEq, Eq)]
pub struct TopicLog {
    messages: Vec<Message>,
    floor: u64,
}

impl View for TopicLog {
    type V = LogView;

    closed spec fn view(&self) -> LogView {
        LogView { messages: views(self.messages@), floor: self.floor as nat }
    }
}

/// A mutation of a [`TopicLog`].
#[derive(Debug)]
pub enum LogOp {
    /// Append a message.
    Append(Message),
    /// Drop every retained message with `cursor <= up_to`.
    PruneTo(Cursor),
}

/// What a mutation stands for.
#[verifier::ext_equal]
pub enum LogOpView {
    Append(MessageView),
    PruneTo(Cursor),
}

impl View for LogOp {
    type V = LogOpView;

    open spec fn view(&self) -> LogOpView {
        match *self {
            LogOp::Append(m) => LogOpView::Append(m@),
            LogOp::PruneTo(c) => LogOpView::PruneTo(c),
        }
    }
}

impl Clone for LogOp {
    fn clone(&self) -> (op: Self)
        ensures
            op@ == self@,
    {
        match self {
            LogOp::Append(m) => LogOp::Append(m.clone()),
            LogOp::PruneTo(c) => LogOp::PruneTo(*c),
        }
    }
}

/// What a mutation makes of a log.
pub open spec fn log_after(l: LogView, op: LogOpView) -> LogView {
    match op {
        LogOpView::Append(m) => l.appended(m),
        LogOpView::PruneTo(c) => l.pruned(c),
    }
}

proof fn lemma_above_len(s: Seq<MessageView>, from: Cursor)
    ensures
        above(s, from).len() <= s.len(),
    decreases s.len(),
{
    if s.len() > 0 {
        lemma_above_len(s.drop_last(), from);
    }
}

/// Copies messages.
pub fn copy_messages(s: &Vec<Message>) -> (r: Vec<Message>)
    ensures
        views(r@) == views(s@),
{
    let mut r: Vec<Message> = Vec::new();
    let mut i: usize = 0;
    while i < s.len()
        invariant
            i <= s@.len(),
            r@.len() == i,
            forall|j: int| 0 <= j < i ==> (#[trigger] r@[j])@ == s@[j]@,
        decreases s@.len() - i,
    {
        r.push(s[i].clone());
        i = i + 1;
    }
    assert(views(r@) =~= views(s@));
    r
}

impl Default for TopicLog {
    fn default() -> (l: Self)
        ensures
            l@ == (LogView { messages: Seq::empty(), floor: 0 }),
    {
        let l: TopicLog = TopicLog { messages: Vec::new(), floor: 0 };
        assert(l@ =~= (LogView { messages: Seq::empty(), floor: 0 }));
        l
    }
}

impl TopicLog {
    #[verifier::type_invariant]
    spec fn in_range(self) -> bool {
        self.floor + self.messages@.len() <= u64::MAX
    }

    /// Applies a mutation. A message is appended under the next cursor, whatever cursor it carries,
    /// so that cursors stay absolute and strictly increasing.
    pub fn apply(&mut self, op: LogOp)
        requires
            op is Append ==> old(self)@.high() < u64::MAX,
        ensures
            final(self)@ == log_after(old(self)@, op@),
    {
        proof {
            use_type_invariant(&*self);
        }
        match op {
            LogOp::Append(m) => {
                let mut stamped: Message = m;
                stamped.cursor = self.next_cursor();
                let mut messages: Vec<Message> = Vec::new();
                std::mem::swap(&mut messages, &mut self.messages);
                let ghost before = messages@;
                messages.push(stamped);
                self.messages = messages;
                assert(views(messages@) =~= views(before).push(stamped@));
            },
            LogOp::PruneTo(up_to) => {
                let kept: Vec<Message> = self.since(up_to);
                proof {
                    lemma_above_len(views(self.messages@), up_to);
                }
                let dropped: u64 = (self.messages.len() - kept.len()) as u64;
                let floor: u64 = self.floor + dropped;
                self.messages = kept;
                self.floor = floor;
            },
        }
    }

    /// The highest cursor ever assigned to this topic, retained or pruned.
    pub fn high_cursor(&self) -> (c: Cursor)
        ensures
            c == self@.high(),
    {
        proof {
            use_type_invariant(self);
        }
        self.floor + self.messages.len() as u64
    }

    /// The cursor that the next appended message will receive.
    pub fn next_cursor(&self) -> (c: Cursor)
        requires
            self@.high() < u64::MAX,
        ensures
            c == self@.high() + 1,
    {
        self.high_cursor() + 1
    }

    /// The retention floor: messages with `cursor <= floor` have been pruned.
    pub fn floor(&self) -> (c: Cursor)
        ensures
            c == self@.floor,
    {
        self.floor
    }

    /// Number of retained messages.
    pub fn len(&self) -> (n: usize)
        ensures
            n == self@.messages.len(),
    {
        self.messages.len()
    }

    /// Whether no message is retained.
    pub fn is_empty(&self) -> (b: bool)
        ensures
            b == (self@.messages.len() == 0),
    {
        self.messages.len() == 0
    }

    /// Every retained message with `cursor > from`, in order: what a puller wants that asks for
    /// everything after `from`. With `from = 0` all retained messages.
    pub fn since(&self, from: Cursor) -> (r: Vec<Message>)
        ensures
            views(r@) == above(self@.messages, from),
    {
        let mut r: Vec<Message> = Vec::new();
        let mut i: usize = 0;
        assert(views(r@) =~= Seq::empty());
        while i < self.messages.len()
            invariant
                i <= self.messages@.len(),
                views(r@) == above(views(self.messages@).take(i as int), from),
            decreases self.messages@.len() - i,
        {
            let ghost all = views(self.messages@);
            proof {
                assert(all.take(i + 1).drop_last() =~= all.take(i as int));
                assert(all.take(i + 1).last() == self.messages@[i as int]@);
            }
            let ghost before = r@;
            if self.messages[i].cursor > from {
                r.push(self.messages[i].clone());
                assert(views(r@) =~= views(before).push(self.messages@[i as int]@));
            }
            i = i + 1;
        }
        assert(views(self.messages@).take(i as int) =~= views(self.messages@));
        r
    }

    /// All retained messages, in cursor order.
    pub fn all(&self) -> (r: Vec<Message>)
        ensures
            views(r@) == self@.messages,
    {
        copy_messages(&self.messages)
    }

    /// The retained message at `cursor`, or `None` if it was pruned or never existed. Retained
    /// messages are contiguous, so this is an indexed lookup.
    pub fn get(&self, cursor: Cursor) -> (r: Option<Message>)
        ensures
            match r {
                Some(m) => self@.floor < cursor <= self@.high() && m@
                    == self@.messages[cursor - self@.floor - 1],
                None => cursor <= self@.floor || cursor > self@.high(),
            },
    {
        if cursor <= self.floor || cursor > self.high_cursor() {
            return None;
        }
        assert(self.messages.len() <= usize::MAX);
        let i: usize = (cursor - self.floor - 1) as usize;
        Some(self.messages[i].clone())
    }
}

/// A topic log as plain values, to be stored or sent.
#[derive(Debug, Clone, PartialEq, Eq)]
pub struct LogSnapshot {
    /// The retained messages, in cursor order.
    pub messages: Vec<Message>,
    /// How many messages have been pruned from the front.
    pub floor: u64,
}

impl View for LogSnapshot {
    type V = LogView;

    open spec fn view(&self) -> LogView {
        LogView { messages: views(self.messages@), floor: self.floor as nat }
    }
}

impl TopicLog {
    /// The log as plain values.
    pub fn save(&self) -> (s: LogSnapshot)
        ensures
            s@ == self@,
    {
        LogSnapshot { messages: copy_messages(&self.messages), floor: self.floor }
    }

    /// The log that a snapshot was taken of. A snapshot whose cursors do not fit is refused.
    pub fn load(s: &LogSnapshot) -> (r: Result<TopicLog, PubSubError>)
        ensures
            match r {
                Ok(l) => s@.high() <= u64::MAX && l@ == s@,
                Err(e) => s@.high() > u64::MAX && e@ == "snapshot cursors out of range"@,
            },
    {
        assert(s@.messages.len() == s.messages@.len());
        if s.messages.len() as u64 > u64::MAX - s.floor {
            return Err(PubSubError::new("snapshot cursors out of range".to_owned()));
        }
        let messages: Vec<Message> = copy_messages(&s.messages);
        assert(messages@.len() == views(messages@).len());
        Ok(TopicLog { messages, floor: s.floor })
    }
}

impl Clone for TopicLog {
    fn clone(&self) -> (l: Self)
        ensures
            l@ == self@,
    {
        proof {
            use_type_invariant(self);
        }
        let messages: Vec<Message> = copy_messages(&self.messages);
        assert(messages@.len() == views(messages@).len());
        assert(self.messages@.len() == views(self.messages@).len());
        TopicLog { messages, floor: self.floor }
    }
}

proof fn lemma_above(s: Seq<MessageView>, from: Cursor, floor: nat)
    requires
        (LogView { messages: s, floor }).contiguous(),
        floor + s.len() <= u64::MAX,
    ensures
        from <= floor ==> above(s, from) == s,
        floor < from <= floor + s.len() ==> above(s, from) == s.skip(from - floor),
        from > floor + s.len() ==> above(s, from) == Seq::<MessageView>::empty(),
    decreases s.len(),
{
    if s.len() > 0 {
        let t = s.drop_last();
        assert forall|i: int| 0 <= i < t.len() implies (#[trigger] t[i]).cursor == floor + i + 1 by {
            assert(t[i] == s[i]);
        }
        lemma_above(t, from, floor);
        assert(s[s.len() - 1].cursor == floor + s.len());
        if from <= floor {
            assert(t.push(s.last()) =~= s);
        } else if from < floor + s.len() {
            assert(t.skip(from - floor).push(s.last()) =~= s.skip(from - floor));
        } else if from == floor + s.len() {
            assert(s.skip(from - floor) =~= Seq::empty());
            assert(above(t, from) =~= Seq::empty());
        }
    } else {
        assert(s =~= Seq::empty());
        if floor < from <= floor + s.len() {
            assert(s.skip(from - floor) =~= Seq::empty());
        }
    }
}

/// Every mutation keeps the cursors contiguous: the first retained message has cursor `floor + 1`,
/// and each further one the next.
pub proof fn cursors_stay_contiguous(l: LogView, op: LogOpView)
    requires
        l.contiguous(),
        l.high() <= u64::MAX,
        op is Append ==> l.high() < u64::MAX,
    ensures
        log_after(l, op).contiguous(),
{
    if let LogOpView::PruneTo(up_to) = op {
        lemma_above(l.messages, up_to, l.floor);
        let t = log_after(l, op);
        assert forall|i: int| 0 <= i < t.messages.len() implies (#[trigger] t.messages[i]).cursor
            == t.floor + i + 1 by {
            assert(t.messages[i] == l.messages[i + (t.floor - l.floor)]);
        }
    }
}

/// The highest cursor never falls: an append raises it by one, and pruning leaves it.
pub proof fn high_cursor_never_falls(l: LogView, op: LogOpView)
    ensures
        log_after(l, op).high() == l.high() + if op is Append {
            1int
        } else {
            0int
        },
{
    if let LogOpView::PruneTo(up_to) = op {
        lemma_above_len(l.messages, up_to);
    }
}

/// An appended message gets the next cursor, whatever cursor it carries, and keeps all else.
pub proof fn append_restamps(l: LogView, m: MessageView)
    requires
        l.high() < u64::MAX,
    ensures
        l.appended(m).messages == l.messages.push(l.appended(m).messages.last()),
        l.appended(m).messages.last().cursor == l.high() + 1,
        (MessageView { cursor: m.cursor, ..l.appended(m).messages.last() }) == m,
{
}

/// Pruning drops the messages up to a cursor and moves the floor there: the messages that survive
/// are the ones after it, each with the cursor that it had.
pub proof fn prune_drops_a_prefix(l: LogView, up_to: Cursor)
    requires
        l.contiguous(),
        l.high() <= u64::MAX,
    ensures
        up_to <= l.floor ==> l.pruned(up_to) == l,
        l.floor < up_to <= l.high() ==> l.pruned(up_to) == (LogView {
            messages: l.messages.skip(up_to - l.floor),
            floor: up_to as nat,
        }),
        up_to > l.high() ==> l.pruned(up_to) == (LogView {
            messages: Seq::empty(),
            floor: l.high(),
        }),
{
    lemma_above(l.messages, up_to, l.floor);
}

/// Asking for the messages after a cursor gives the strict tail: all that is retained where the
/// cursor is at or below the floor, and nothing where it is the highest.
pub proof fn since_is_the_strict_tail(l: LogView, from: Cursor)
    requires
        l.contiguous(),
        l.high() <= u64::MAX,
    ensures
        from <= l.floor ==> above(l.messages, from) == l.messages,
        l.floor < from <= l.high() ==> above(l.messages, from) == l.messages.skip(from - l.floor),
        from >= l.high() ==> above(l.messages, from).len() == 0,
        forall|i: int|
            0 <= i < above(l.messages, from).len() ==> (#[trigger] above(
                l.messages,
                from,
            )[i]).cursor > from,
{
    lemma_above(l.messages, from, l.floor);
    assert forall|i: int| 0 <= i < above(l.messages, from).len() implies (#[trigger] above(
        l.messages,
        from,
    )[i]).cursor > from by {
        if from <= l.floor {
            assert(above(l.messages, from)[i] == l.messages[i]);
        } else {
            assert(above(l.messages, from)[i] == l.messages[i + (from - l.floor)]);
        }
    }
}

/// Looking up a retained cursor gives the message that carries it.
pub proof fn lookup_gives_the_cursor(l: LogView, cursor: Cursor)
    requires
        l.contiguous(),
        l.floor < cursor <= l.high(),
    ensures
        l.messages[cursor - l.floor - 1].cursor == cursor,
{
}

/// The log after a list of mutations.
pub open spec fn log_after_all(l: LogView, ops: Seq<LogOpView>) -> LogView
    decreases ops.len(),
{
    if ops.len() == 0 {
        l
    } else {
        log_after(log_after_all(l, ops.drop_last()), ops.last())
    }
}

/// Replaying the tail of the mutations on a snapshot of what the first of them made gives the same
/// log as replaying them all.
pub proof fn snapshot_plus_tail_is_full_replay(
    l: LogView,
    head: Seq<LogOpView>,
    tail: Seq<LogOpView>,
    snapshot: LogView,
)
    requires
        snapshot == log_after_all(l, head),
    ensures
        log_after_all(snapshot, tail) == log_after_all(l, head + tail),
    decreases tail.len(),
{
    if tail.len() == 0 {
        assert(head + tail =~= head);
    } else {
        snapshot_plus_tail_is_full_replay(l, head, tail.drop_last(), snapshot);
        assert((head + tail).drop_last() =~= head + tail.drop_last());
    }
}

/// The messages after a cursor are picked one by one: a message is kept exactly where its own cursor is
/// greater, and a list gives what its parts give, in order.
pub proof fn messages_are_kept_one_by_one(
    a: Seq<MessageView>,
    b: Seq<MessageView>,
    m: MessageView,
    from: Cursor,
)
    ensures
        above(a + b, from) == above(a, from) + above(b, from),
        above(seq![m], from) == if m.cursor > from {
            seq![m]
        } else {
            Seq::empty()
        },
    decreases b.len(),
{
    let one = seq![m];
    assert(one.drop_last() =~= Seq::empty());
    assert(above(one.drop_last(), from) =~= Seq::empty());
    if m.cursor > from {
        assert(above(one, from) =~= one);
    }
    if b.len() == 0 {
        assert(a + b =~= a);
        assert(above(a, from) + above(b, from) =~= above(a, from));
    } else {
        messages_are_kept_one_by_one(a, b.drop_last(), m, from);
        assert((a + b).drop_last() =~= a + b.drop_last());
        assert(above(a + b, from) =~= above(a, from) + above(b, from));
    }
}

/// Appending adds one message behind all others: its cursor is one more than how many were ever
/// appended, its content is what was appended, and nothing that was retained changes. Pruning keeps
/// exactly the messages above the cursor, each as it is, and forgets none of how many were appended.
pub proof fn mutations_do_no_more_than_they_say(l: LogView, m: MessageView, up_to: Cursor, i: int)
    requires
        l.contiguous(),
        l.floor + l.messages.len() < u64::MAX,
    ensures
        ({
            let after = log_after(l, LogOpView::Append(m));
            let new = after.messages.last();
            &&& after.floor == l.floor
            &&& after.messages.len() == l.messages.len() + 1
            &&& 0 <= i < l.messages.len() ==> after.messages[i] == l.messages[i]
            &&& new.cursor == l.floor + l.messages.len() + 1
            &&& new.publisher == m.publisher && new.payload_hex == m.payload_hex
            &&& new.published_at == m.published_at && new.ordering_key == m.ordering_key
            &&& new.attributes == m.attributes
            &&& new.publisher_authenticated == m.publisher_authenticated
        }),
        ({
            let after = log_after(l, LogOpView::PruneTo(up_to));
            &&& after.floor + after.messages.len() == l.floor + l.messages.len()
            &&& after.floor >= l.floor
            &&& 0 <= i < l.messages.len() ==> {
                let c = l.messages[i].cursor;
                &&& c > up_to <==> c > after.floor
                &&& c > up_to ==> after.messages[c - after.floor - 1] == l.messages[i]
            }
        }),
{
    prune_drops_a_prefix(l, up_to);
    high_cursor_never_falls(l, LogOpView::PruneTo(up_to));
    if 0 <= i < l.messages.len() {
        assert(l.messages[i].cursor == l.floor + i + 1);
    }
}

/// A topic starts with no message, and its first message gets cursor 1.
pub proof fn first_message_has_cursor_one(m: MessageView)
    ensures
        ({
            let empty = LogView { messages: Seq::empty(), floor: 0 };
            &&& empty.high() == 0
            &&& empty.contiguous()
            &&& log_after(empty, LogOpView::Append(m)).messages[0].cursor == 1
            &&& log_after(empty, LogOpView::Append(m)).high() == 1
        }),
{
}

} // verus!
