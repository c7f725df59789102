//! Subscriptions as first-class durable resources.
//!
//! A *topic* is a durable message log; a *subscription* is a consumer position on it that advances
//! on its own, with its own backlog, ack state and delivery policy. [`SubRegistry`] is the state
//! machine that tracks, per named subscription:
//!
//! * the **acked cursor**: everything `<= acked` is processed and will not be redelivered;
//! * the **leases**: cursors that were delivered and not yet acked, each with an expiry, so that
//!   the messages of a consumer that crashed are redelivered when the lease lapses;
//! * the **delivery attempts** of each message and a **dead-letter policy**: a message whose next
//!   attempt would exceed `max_delivery_attempts` is routed aside, so that it never blocks the
//!   subscription.
//!
//! The owner of the topic is the only writer, so all cursor and lease arithmetic is linearized.
use std::collections::{BTreeMap, BTreeSet};
use vstd::prelude::*;

use crate::error;
use crate::error::PubSubError;
use crate::message::Cursor;
use crate::strmap::StrMap;
use crate::text;

verus! {

broadcast use vstd::std_specs::btree::group_btree_axioms;

/// Upper bound on the number of subscriptions that one topic may hold.
pub const MAX_SUBSCRIPTIONS: usize = 10_000;

/// Upper bound on a subscription's ack deadline, in seconds.
pub const MAX_ACK_DEADLINE_SECS: u64 = 600;

/// The ack deadline of a subscription that does not specify one.
pub const DEFAULT_ACK_DEADLINE_SECS: u64 = 30;

/// The delivery attempts after which a message is dead-lettered, unless specified otherwise.
pub const DEFAULT_MAX_DELIVERY_ATTEMPTS: u32 = 5;

/// Hard cap on how many cursors one lease may hand out.
pub const MAX_LEASE_BATCH: usize = 1_000;

/// Per-subscription delivery configuration.
#[derive(Debug, Clone, Copy, PartialEq, Eq, Structural)]
pub struct SubscriptionPolicy {
    /// Seconds that a leased message is held before it becomes redeliverable.
    pub ack_deadline_secs: u64,
    /// After this many delivery attempts a message is dead-lettered. `0` disables dead-lettering:
    /// messages are retried forever.
    pub max_delivery_attempts: u32,
}

/// The policy of a subscription that does not specify one.
pub open spec fn default_policy() -> SubscriptionPolicy {
    SubscriptionPolicy {
        ack_deadline_secs: DEFAULT_ACK_DEADLINE_SECS,
        max_delivery_attempts: DEFAULT_MAX_DELIVERY_ATTEMPTS,
    }
}

impl Default for SubscriptionPolicy {
    fn default() -> (p: Self)
        ensures
            p == default_policy(),
    {
        SubscriptionPolicy {
            ack_deadline_secs: DEFAULT_ACK_DEADLINE_SECS,
            max_delivery_attempts: DEFAULT_MAX_DELIVERY_ATTEMPTS,
        }
    }
}

/// Why a policy is refused: its ack deadline is out of range.
pub open spec fn policy_fault(p: SubscriptionPolicy) -> Option<Seq<char>> {
    if 1 <= p.ack_deadline_secs <= MAX_ACK_DEADLINE_SECS {
        None
    } else {
        Some(
            "ack_deadline_secs must be 1..="@ + text::decimal_text(MAX_ACK_DEADLINE_SECS as nat)
                + " (got "@ + text::decimal_text(p.ack_deadline_secs as nat) + ")"@,
        )
    }
}

impl SubscriptionPolicy {
    /// Holds the policy to the configured bounds.
    pub fn validate(&self) -> (r: Result<(), PubSubError>)
        ensures
            error::fails_with(r, policy_fault(*self)),
    {
        if self.ack_deadline_secs == 0 || self.ack_deadline_secs > MAX_ACK_DEADLINE_SECS {
            let mut t: String = "ack_deadline_secs must be 1..=".to_owned();
            t.append(text::decimal(MAX_ACK_DEADLINE_SECS).as_str());
            t.append(" (got ");
            t.append(text::decimal(self.ack_deadline_secs).as_str());
            t.append(")");
            return Err(PubSubError::new(t));
        }
        Ok(())
    }
}

/// A leased cursor: delivered, not yet acked.
#[derive(Debug, Clone, Copy, PartialEq, Eq, Structural)]
pub struct Lease {
    /// The cursor that is leased.
    pub cursor: Cursor,
    /// When the lease expires, in unix seconds.
    pub expires_at: u64,
    /// How often the cursor has been delivered, this delivery included.
    pub attempts: u32,
}

/// What a subscription's state stands for.
#[verifier::ext_equal]
pub struct SubView {
    /// Everything up to this cursor is acknowledged.
    pub acked: Cursor,
    /// The leased cursors.
    pub leases: Map<Cursor, Lease>,
    /// How often each cursor that is not yet acked has been delivered.
    pub attempts: Map<Cursor, u32>,
    /// The dead-lettered cursors above the floor.
    pub dead: Set<Cursor>,
    /// The cursors above the floor that were acknowledged out of order.
    pub acked_set: Set<Cursor>,
    /// The delivery configuration.
    pub policy: SubscriptionPolicy,
}

/// The state of a subscription that has acknowledged nothing.
pub open spec fn fresh(policy: SubscriptionPolicy) -> SubView {
    SubView {
        acked: 0,
        leases: Map::empty(),
        attempts: Map::empty(),
        dead: Set::empty(),
        acked_set: Set::empty(),
        policy,
    }
}

/// The end of the run of handled cursors that follows `a`: the greatest cursor such that every
/// cursor in `(a, run_end]` is in `handled`.
pub open spec fn run_end(a: Cursor, handled: Set<Cursor>) -> Cursor
    decreases u64::MAX - a,
{
    if a < u64::MAX && handled.contains((a + 1) as u64) {
        run_end((a + 1) as u64, handled)
    } else {
        a
    }
}

/// The cursors of `s` in `(low, high]` taken out.
pub open spec fn without_range(s: Set<Cursor>, low: Cursor, high: Cursor) -> Set<Cursor> {
    s.filter(|c: Cursor| !(low < c <= high))
}

impl SubView {
    /// How often `c` has been delivered.
    pub open spec fn attempts_of(self, c: Cursor) -> u32 {
        if self.attempts.contains_key(c) {
            self.attempts[c]
        } else {
            0
        }
    }

    /// Whether `c` is leased at time `now`.
    pub open spec fn leased_at(self, c: Cursor, now: u64) -> bool {
        self.leases.contains_key(c) && self.leases[c].expires_at > now
    }

    /// Whether `c` is acknowledged or dead-lettered.
    pub open spec fn handled(self, c: Cursor) -> bool {
        c <= self.acked || self.dead.contains(c) || self.acked_set.contains(c)
    }

    /// Whether `c` may be delivered again at time `now`, as far as leases, acks and dead letters
    /// above the floor decide.
    pub open spec fn free_at(self, c: Cursor, now: u64) -> bool {
        !self.leased_at(c, now) && !self.dead.contains(c) && !self.acked_set.contains(c)
    }

    /// Whether the next delivery of `c` would exceed the allowed attempts.
    pub open spec fn exhausted(self, c: Cursor) -> bool {
        self.policy.max_delivery_attempts != 0 && self.attempts_of(c) + 1
            > self.policy.max_delivery_attempts
    }

    /// The state with the cursors `dead` dead-lettered.
    pub open spec fn with_dead(self, dead: Set<Cursor>) -> SubView {
        SubView {
            dead: self.dead.union(dead),
            leases: self.leases.remove_keys(dead),
            attempts: self.attempts.remove_keys(dead),
            ..self
        }
    }

    /// The state with `c` leased once more, until `expires_at`.
    pub open spec fn with_lease(self, c: Cursor, expires_at: u64) -> SubView {
        let attempts = (self.attempts_of(c) + 1) as u32;
        SubView {
            attempts: self.attempts.insert(c, attempts),
            leases: self.leases.insert(c, Lease { cursor: c, expires_at, attempts }),
            ..self
        }
    }

    /// The state with each cursor of `leased` leased once more, in order.
    pub open spec fn with_leases(self, leased: Seq<(Cursor, u64)>) -> SubView
        decreases leased.len(),
    {
        if leased.len() == 0 {
            self
        } else {
            self.with_leases(leased.drop_last()).with_lease(leased.last().0, leased.last().1)
        }
    }

    /// Whether no attempt counter overflows when the cursors of `leased` are leased once more.
    pub open spec fn leases_fit(self, leased: Seq<(Cursor, u64)>) -> bool {
        forall|k: int|
            0 <= k < leased.len() ==> #[trigger] self.with_leases(leased.take(k)).attempts_of(
                leased[k].0,
            ) < u32::MAX
    }

    /// The state with its floor raised to `floor`, where that is above it.
    pub open spec fn with_floor(self, floor: Cursor) -> SubView {
        if floor > self.acked {
            SubView {
                acked: floor,
                acked_set: self.acked_set.filter(|c: Cursor| c > floor),
                dead: self.dead.filter(|c: Cursor| c > floor),
                ..self
            }
        } else {
            self
        }
    }

    /// The state with the run of handled cursors after the floor folded into the floor.
    pub open spec fn folded(self) -> SubView {
        let end = run_end(self.acked, self.acked_set.union(self.dead));
        SubView {
            acked: end,
            acked_set: without_range(self.acked_set, self.acked, end),
            dead: without_range(self.dead, self.acked, end),
            ..self
        }
    }

    /// The state with `c` recorded as acknowledged, before any folding.
    pub open spec fn with_ack(self, c: Cursor) -> SubView {
        SubView {
            leases: self.leases.remove(c),
            attempts: self.attempts.remove(c),
            acked_set: if c > self.acked {
                self.acked_set.insert(c)
            } else {
                self.acked_set
            },
            ..self
        }
    }

    /// The state after `c` was acknowledged.
    pub open spec fn after_ack(self, c: Cursor) -> SubView {
        self.with_ack(c).folded()
    }

    /// Whether the floor stays below the last cursor when `c` is acknowledged.
    pub open spec fn ack_fits(self, c: Cursor) -> bool {
        self.after_ack(c).acked < u64::MAX
    }

    /// The state after a lease: `dead` dead-lettered, `leased` leased, the floor raised.
    pub open spec fn after_lease(
        self,
        leased: Seq<(Cursor, u64)>,
        dead: Seq<Cursor>,
        new_acked: Cursor,
    ) -> SubView {
        self.with_dead(dead.to_set()).with_leases(leased).with_floor(new_acked)
    }

    /// Whether no attempt counter overflows in a lease.
    pub open spec fn lease_fits(self, leased: Seq<(Cursor, u64)>, dead: Seq<Cursor>) -> bool {
        self.with_dead(dead.to_set()).leases_fit(leased)
    }

    /// The state after `c` was negatively acknowledged: its lease has expired.
    pub open spec fn after_nack(self, c: Cursor) -> SubView {
        if self.leases.contains_key(c) {
            SubView {
                leases: self.leases.insert(c, Lease { expires_at: 0, ..self.leases[c] }),
                ..self
            }
        } else {
            self
        }
    }
}

/// The smaller of two numbers.
pub open spec fn least(a: nat, b: nat) -> nat {
    if a < b {
        a
    } else {
        b
    }
}

/// The lease that a subscription plans.
#[verifier::ext_equal]
pub struct LeasePlan {
    /// The cursors to deliver, in order.
    pub leased: Seq<Cursor>,
    /// The cursors to dead-letter, in order.
    pub dead: Seq<Cursor>,
    /// The floor after the lease.
    pub new_acked: Cursor,
    /// When the leases expire.
    pub expires_at: u64,
}

impl SubView {
    /// Whether `c` is delivered when a scan at time `now` comes to it.
    pub open spec fn deliverable(self, c: Cursor, now: u64) -> bool {
        self.free_at(c, now) && !self.exhausted(c)
    }

    /// Where a scan from `c` up to `high` stops: past `high`, or where `room` cursors have been
    /// found to deliver.
    pub open spec fn scan_end(self, c: int, high: Cursor, now: u64, room: nat) -> int
        decreases high + 1 - c,
    {
        if c > high || room == 0 {
            c
        } else {
            let left = if self.deliverable(c as u64, now) {
                (room - 1) as nat
            } else {
                room
            };
            self.scan_end(c + 1, high, now, left)
        }
    }

    /// The free cursors in `[from, to)` whose attempts are exhausted, or are not, in order.
    pub open spec fn picks(self, from: int, to: int, now: u64, exhausted: bool) -> Seq<Cursor>
        decreases to - from,
    {
        if to <= from {
            Seq::empty()
        } else {
            let c = (to - 1) as u64;
            let before = self.picks(from, to - 1, now, exhausted);
            if self.free_at(c, now) && self.exhausted(c) == exhausted {
                before.push(c)
            } else {
                before
            }
        }
    }

    /// The greatest cursor that is acknowledged or pruned, with everything below it.
    pub open spec fn base(self, floor: Cursor) -> Cursor {
        if self.acked < floor {
            floor
        } else {
            self.acked
        }
    }

    /// Where the scan for a lease stops.
    pub open spec fn lease_end(self, high: Cursor, floor: Cursor, now: u64, max: nat) -> int {
        self.scan_end(self.base(floor) + 1, high, now, least(max, MAX_LEASE_BATCH as nat))
    }

    /// How long a lease is held: the policy's deadline, brought within bounds.
    pub open spec fn deadline(self) -> u64 {
        if self.policy.ack_deadline_secs < 1 {
            1
        } else if self.policy.ack_deadline_secs > MAX_ACK_DEADLINE_SECS {
            MAX_ACK_DEADLINE_SECS
        } else {
            self.policy.ack_deadline_secs
        }
    }

    /// The lease of up to `max` cursors above the floor and above the retention floor `floor`, up
    /// to the topic's high-water cursor `high`, at time `now`. The new floor is the end of the run
    /// of cursors that are acknowledged, pruned or dead-lettered.
    pub open spec fn plan(self, high: Cursor, floor: Cursor, now: u64, max: nat) -> LeasePlan {
        let base = self.base(floor);
        let end = self.lease_end(high, floor, now, max);
        let dead = self.picks(base + 1, end, now, true);
        LeasePlan {
            leased: self.picks(base + 1, end, now, false),
            dead,
            new_acked: run_end(base, self.dead.union(self.acked_set).union(dead.to_set())),
            expires_at: if now + self.deadline() > u64::MAX {
                u64::MAX
            } else {
                (now + self.deadline()) as u64
            },
        }
    }

    /// Whether the attempt counter of each free cursor in `(base, end)` can still count.
    pub open spec fn counts_fit(self, base: Cursor, end: int, now: u64) -> bool {
        forall|c: Cursor|
            base < c < end && self.free_at(c, now) ==> #[trigger] self.attempts_of(c) < u32::MAX
    }

    /// Whether no counter overflows when a lease is planned.
    pub open spec fn plan_fits(self, high: Cursor, floor: Cursor, now: u64, max: nat) -> bool {
        let plan = self.plan(high, floor, now, max);
        &&& self.base(floor) < u64::MAX
        &&& self.lease_end(high, floor, now, max) <= u64::MAX
        &&& self.counts_fit(self.base(floor), self.lease_end(high, floor, now, max), now)
        &&& !plan.is_empty() ==> plan.new_acked < u64::MAX
    }
}

impl LeasePlan {
    /// Whether nothing is delivered and nothing dead-lettered.
    pub open spec fn is_empty(self) -> bool {
        self.leased.len() == 0 && self.dead.len() == 0
    }

    /// The operation that applies the plan to the subscription `name`.
    pub open spec fn op(self, name: Seq<char>) -> SubOpView {
        SubOpView::ApplyLease {
            name,
            leased: self.leased.map_values(|c: Cursor| (c, self.expires_at)),
            dead: self.dead,
            new_acked: self.new_acked,
        }
    }
}

/// Whether no counter overflows when a lease of the subscription `name` is planned.
pub open spec fn plan_fits(
    subs: Map<Seq<char>, SubView>,
    name: Seq<char>,
    high: Cursor,
    floor: Cursor,
    now: u64,
    max: nat,
) -> bool {
    subs.contains_key(name) ==> subs[name].plan_fits(high, floor, now, max)
}

/// One subscription's durable state: where it has acked to, its outstanding leases, its attempt
/// history, and its policy.
#[derive(Debug, PartialEq, Eq)]
pub struct SubscriptionState {
    /// Everything with `cursor <= acked` is acknowledged and never redelivered.
    pub acked: Cursor,
    /// The leased cursors.
    pub leases: BTreeMap<Cursor, Lease>,
    /// Delivery attempts of the cursors that were leased at least once and are not yet acked. They
    /// outlive the lease, so that the dead-letter threshold accumulates across redeliveries.
    pub attempts: BTreeMap<Cursor, u32>,
    /// Cursors that exceeded `max_delivery_attempts`: skipped by leases, and handled for the floor.
    pub dead: BTreeSet<Cursor>,
    /// Cursors acknowledged out of order, above the contiguous `acked` floor.
    pub acked_set: BTreeSet<Cursor>,
    /// The delivery configuration.
    pub policy: SubscriptionPolicy,
}

impl View for SubscriptionState {
    type V = SubView;

    open spec fn view(&self) -> SubView {
        SubView {
            acked: self.acked,
            leases: self.leases@,
            attempts: self.attempts@,
            dead: self.dead@,
            acked_set: self.acked_set@,
            policy: self.policy,
        }
    }
}

impl Clone for SubscriptionState {
    fn clone(&self) -> (s: Self)
        ensures
            s@ == self@,
    {
        SubscriptionState {
            acked: self.acked,
            leases: self.leases.clone(),
            attempts: self.attempts.clone(),
            dead: self.dead.clone(),
            acked_set: self.acked_set.clone(),
            policy: self.policy,
        }
    }
}

impl Default for SubscriptionState {
    fn default() -> (s: Self)
        ensures
            s@ == fresh(default_policy()),
    {
        SubscriptionState::new()
    }
}

/// Whether `s` stands in strictly increasing order.
pub open spec fn ascending(s: Seq<Cursor>) -> bool {
    forall|i: int, j: int| 0 <= i < j < s.len() ==> s[i] < s[j]
}

/// Adds `c` to a list in strictly increasing order that does not hold it.
fn insert_cursor(v: &mut Vec<Cursor>, c: Cursor)
    requires
        ascending(old(v)@),
        !old(v)@.contains(c),
    ensures
        ascending(final(v)@),
        final(v)@.to_set() == old(v)@.to_set().insert(c),
{
    let ghost before = v@;
    let mut i: usize = v.len();
    while i > 0 && v[i - 1] > c
        invariant
            i <= v@.len(),
            v@ == before,
            ascending(before),
            forall|j: int| i <= j < before.len() ==> before[j] > c,
        decreases i,
    {
        i = i - 1;
    }
    proof {
        if i > 0 {
            assert(before.contains(before[i - 1]));
        }
    }
    v.insert(i, c);
    proof {
        assert(v@ == before.insert(i as int, c));
        assert forall|a: int, b: int| 0 <= a < b < v@.len() implies v@[a] < v@[b] by {
            if a != i {
                assert(v@[a] == before[if a < i { a } else { a - 1 }]);
            }
            if b != i {
                assert(v@[b] == before[if b < i { b } else { b - 1 }]);
            }
        }
        assert forall|x: Cursor| v@.to_set().contains(x) == before.to_set().insert(c).contains(
            x,
        ) by {
            if before.contains(x) {
                let j = choose|j: int| 0 <= j < before.len() && before[j] == x;
                assert(v@[if j < i { j } else { j + 1 }] == x);
            }
            if x == c {
                assert(v@[i as int] == c);
            }
            if v@.contains(x) && x != c {
                let j = choose|j: int| 0 <= j < v@.len() && v@[j] == x;
                assert(before[if j < i { j } else { j - 1 }] == x);
            }
        }
        assert(v@.to_set() =~= before.to_set().insert(c));
    }
}

proof fn lemma_push_to_set<A>(s: Seq<A>, x: A)
    ensures
        s.push(x).to_set() == s.to_set().insert(x),
{
    let t = s.push(x);
    assert forall|y: A| t.to_set().contains(y) == s.to_set().insert(x).contains(y) by {
        if s.contains(y) {
            let j = choose|j: int| 0 <= j < s.len() && s[j] == y;
            assert(t[j] == y);
        }
        if y == x {
            assert(t[s.len() as int] == x);
        }
        if t.contains(y) && y != x {
            let j = choose|j: int| 0 <= j < t.len() && t[j] == y;
            assert(s[j] == y);
        }
    }
    assert(t.to_set() =~= s.to_set().insert(x));
}

/// The cursors of a set, in order.
fn sorted_cursors(set: &BTreeSet<Cursor>) -> (v: Vec<Cursor>)
    ensures
        ascending(v@),
        v@.to_set() == set@,
{
    let mut v: Vec<Cursor> = Vec::new();
    for c in it: set.iter()
        invariant
            ascending(v@),
            it.seq().no_duplicates(),
            it.seq().unref().to_set() == set@,
            v@.to_set() == it.seq().unref().take(it.index() as int).to_set(),
            it.index() == it.seq().len() ==> it.seq().unref().take(it.index() as int)
                == it.seq().unref(),
    {
        proof {
            let s = it.seq().unref();
            let i = it.index() as int;
            assert(s[i] == *c);
            assert(!s.take(i).contains(*c)) by {
                if s.take(i).contains(*c) {
                    let j = choose|j: int| 0 <= j < i && s.take(i)[j] == *c;
                    assert(*it.seq()[j] == *it.seq()[i]);
                }
            }
            assert(v@.to_set().contains(*c) == s.take(i).to_set().contains(*c));
            assert(s.take(i + 1) =~= s.take(i).push(*c));
            lemma_push_to_set(s.take(i), *c);
        }
        insert_cursor(&mut v, *c);
    }
    v
}

/// The cursors of `set` above `floor`.
fn cursors_above(set: &BTreeSet<Cursor>, floor: Cursor) -> (r: BTreeSet<Cursor>)
    ensures
        r@ == set@.filter(|c: Cursor| c > floor),
{
    let v: Vec<Cursor> = sorted_cursors(set);
    let mut r: BTreeSet<Cursor> = BTreeSet::new();
    let mut i: usize = 0;
    assert(v@.take(0).to_set() =~= Set::<Cursor>::empty());
    while i < v.len()
        invariant
            i <= v@.len(),
            r@ == v@.take(i as int).to_set().filter(|c: Cursor| c > floor),
        decreases v@.len() - i,
    {
        let c: Cursor = v[i];
        proof {
            let t = v@.take(i as int);
            assert(v@.take(i + 1) =~= t.push(c));
            lemma_push_to_set(t, c);
            assert(t.push(c).to_set().filter(|c: Cursor| c > floor) =~= if c > floor {
                t.to_set().filter(|c: Cursor| c > floor).insert(c)
            } else {
                t.to_set().filter(|c: Cursor| c > floor)
            });
        }
        if c > floor {
            r.insert(c);
        }
        i = i + 1;
    }
    assert(v@.take(i as int) =~= v@);
    r
}

/// A run of handled cursors ends above where it starts, holds handled cursors only, and is
/// followed by a cursor that is not handled.
pub proof fn run_end_is_the_end(a: Cursor, handled: Set<Cursor>)
    ensures
        a <= run_end(a, handled),
        forall|c: Cursor| a < c <= run_end(a, handled) ==> handled.contains(c),
        run_end(a, handled) < u64::MAX ==> !handled.contains((run_end(a, handled) + 1) as u64),
    decreases u64::MAX - a,
{
    if a < u64::MAX && handled.contains((a + 1) as u64) {
        run_end_is_the_end((a + 1) as u64, handled);
    }
}

/// Only one cursor can be the end of the run after `a`.
pub proof fn run_end_is_unique(a: Cursor, handled: Set<Cursor>, r: Cursor)
    requires
        a <= r,
        forall|c: Cursor| a < c <= r ==> handled.contains(c),
        r < u64::MAX ==> !handled.contains((r + 1) as u64),
    ensures
        run_end(a, handled) == r,
    decreases u64::MAX - a,
{
    if a < r {
        assert(handled.contains((a + 1) as u64));
        run_end_is_unique((a + 1) as u64, handled, r);
    }
}

impl SubscriptionState {
    /// A subscription that has acknowledged nothing, with the default policy.
    pub fn new() -> (s: Self)
        ensures
            s@ == fresh(default_policy()),
    {
        SubscriptionState {
            acked: 0,
            leases: BTreeMap::new(),
            attempts: BTreeMap::new(),
            dead: BTreeSet::new(),
            acked_set: BTreeSet::new(),
            policy: SubscriptionPolicy::default(),
        }
    }

    /// Number of outstanding cursors: leased, whether the lease has expired or not.
    pub fn outstanding(&self) -> (n: usize)
        ensures
            n == self@.leases.dom().len(),
    {
        self.leases.len()
    }

    /// Dead-lettered cursors, in order.
    pub fn dead_lettered(&self) -> (v: Vec<Cursor>)
        ensures
            ascending(v@),
            v@.to_set() == self@.dead,
    {
        sorted_cursors(&self.dead)
    }

    /// Cursors acknowledged out of order that are still above the contiguous floor, in order.
    pub fn pending_acks(&self) -> (v: Vec<Cursor>)
        ensures
            ascending(v@),
            v@.to_set() == self@.acked_set,
    {
        sorted_cursors(&self.acked_set)
    }

    /// How often `c` has been delivered.
    fn attempts_of(&self, c: Cursor) -> (n: u32)
        ensures
            n == self@.attempts_of(c),
    {
        match self.attempts.get(&c) {
            Some(n) => *n,
            None => 0,
        }
    }

    /// Advances the contiguous `acked` floor over the run of cursors after it that are acknowledged
    /// out of order or dead-lettered, and drops them from their sets. This is what makes
    /// out-of-order acking (ack 3, then 1, then 2: the floor jumps to 3) and poison-skipping work
    /// without ever stalling the floor on a dead message.
    fn advance_acked(&mut self)
        requires
            old(self)@.folded().acked < u64::MAX,
        ensures
            final(self)@ == old(self)@.folded(),
    {
        let ghost start = self@;
        let ghost handled = start.acked_set.union(start.dead);
        proof {
            run_end_is_the_end(start.acked, handled);
        }
        loop
            invariant
                start == old(self)@,
                handled == start.acked_set.union(start.dead),
                start.acked <= self@.acked <= run_end(start.acked, handled),
                run_end(start.acked, handled) < u64::MAX,
                run_end(self@.acked, handled) == run_end(start.acked, handled),
                self@ == (SubView {
                    acked: self@.acked,
                    acked_set: without_range(start.acked_set, start.acked, self@.acked),
                    dead: without_range(start.dead, start.acked, self@.acked),
                    ..start
                }),
            decreases run_end(start.acked, handled) - self@.acked,
        {
            let ghost prev = self@;
            let next: Cursor = self.acked + 1;
            let acked: bool = self.acked_set.remove(&next);
            let dead: bool = self.dead.remove(&next);
            if acked || dead {
                self.acked = next;
            } else {
                proof {
                    run_end_is_the_end(prev.acked, handled);
                    assert(!handled.contains(next));
                    assert(self@.acked_set =~= prev.acked_set);
                    assert(self@.dead =~= prev.dead);
                    assert(self@ =~= start.folded());
                }
                return;
            }
            proof {
                run_end_is_the_end(prev.acked, handled);
                run_end_is_the_end(self@.acked, handled);
                assert(self@.acked_set =~= without_range(
                    start.acked_set,
                    start.acked,
                    self@.acked,
                ));
                assert(self@.dead =~= without_range(start.dead, start.acked, self@.acked));
            }
        }
    }

    /// Acknowledges `cursor`: drops its lease and attempts, records the ack if it is above the
    /// floor, and folds any run that is now contiguous into the floor.
    fn ack(&mut self, cursor: Cursor)
        requires
            old(self)@.ack_fits(cursor),
        ensures
            final(self)@ == old(self)@.after_ack(cursor),
    {
        self.leases.remove(&cursor);
        self.attempts.remove(&cursor);
        if cursor > self.acked {
            self.acked_set.insert(cursor);
        }
        assert(self@ =~= old(self)@.with_ack(cursor));
        self.advance_acked();
    }

    /// Negatively acknowledges `cursor`: expires its lease, so that it is redeliverable now.
    fn nack(&mut self, cursor: Cursor)
        ensures
            final(self)@ == old(self)@.after_nack(cursor),
    {
        let held: Option<Lease> = match self.leases.get(&cursor) {
            Some(l) => Some(*l),
            None => None,
        };
        if let Some(l) = held {
            self.leases.insert(
                cursor,
                Lease { cursor: l.cursor, expires_at: 0, attempts: l.attempts },
            );
        }
        assert(self@ =~= old(self)@.after_nack(cursor));
    }

    /// Dead-letters the cursors of `dead`.
    fn bury(&mut self, dead: &Vec<Cursor>)
        ensures
            final(self)@ == old(self)@.with_dead(dead@.to_set()),
    {
        let mut i: usize = 0;
        proof {
            assert(dead@.take(0).to_set() =~= Set::empty());
            assert(self@ =~= old(self)@.with_dead(dead@.take(0).to_set()));
        }
        while i < dead.len()
            invariant
                i <= dead@.len(),
                self@ == old(self)@.with_dead(dead@.take(i as int).to_set()),
            decreases dead@.len() - i,
        {
            let c: Cursor = dead[i];
            self.dead.insert(c);
            self.leases.remove(&c);
            self.attempts.remove(&c);
            proof {
                let t = dead@.take(i as int);
                assert(dead@.take(i + 1) =~= t.push(c));
                lemma_push_to_set(t, c);
                assert(self@ =~= old(self)@.with_dead(t.push(c).to_set()));
            }
            i = i + 1;
        }
        assert(dead@.take(i as int) =~= dead@);
    }

    /// Leases each cursor of `leased` once more.
    fn lease_all(&mut self, leased: &Vec<(Cursor, u64)>)
        requires
            old(self)@.leases_fit(leased@),
        ensures
            final(self)@ == old(self)@.with_leases(leased@),
    {
        let mut i: usize = 0;
        while i < leased.len()
            invariant
                i <= leased@.len(),
                old(self)@.leases_fit(leased@),
                self@ == old(self)@.with_leases(leased@.take(i as int)),
            decreases leased@.len() - i,
        {
            let (c, expires_at): (Cursor, u64) = leased[i];
            let attempts: u32 = self.attempts_of(c) + 1;
            self.attempts.insert(c, attempts);
            self.leases.insert(c, Lease { cursor: c, expires_at, attempts });
            proof {
                assert(leased@.take(i + 1).drop_last() =~= leased@.take(i as int));
                assert(self@ =~= old(self)@.with_leases(leased@.take(i + 1)));
            }
            i = i + 1;
        }
        assert(leased@.take(i as int) =~= leased@);
    }

    /// Applies a planned lease.
    fn apply_lease(&mut self, leased: &Vec<(Cursor, u64)>, dead: &Vec<Cursor>, new_acked: Cursor)
        requires
            old(self)@.lease_fits(leased@, dead@),
        ensures
            final(self)@ == old(self)@.after_lease(leased@, dead@, new_acked),
    {
        self.bury(dead);
        self.lease_all(leased);
        if new_acked > self.acked {
            self.acked = new_acked;
            self.acked_set = cursors_above(&self.acked_set, new_acked);
            self.dead = cursors_above(&self.dead, new_acked);
        }
        assert(self@ =~= old(self)@.after_lease(leased@, dead@, new_acked));
    }

    /// Whether acknowledging `cursor` leaves the floor below the last cursor.
    fn ack_fits(&self, cursor: Cursor) -> (b: bool)
        ensures
            b == self@.ack_fits(cursor),
    {
        let ghost s = self@.with_ack(cursor);
        let ghost handled = s.acked_set.union(s.dead);
        let mut a: Cursor = self.acked;
        let counts: bool = cursor > self.acked;
        while a < u64::MAX
            invariant
                s == self@.with_ack(cursor),
                handled == s.acked_set.union(s.dead),
                counts == (cursor > self.acked),
                run_end(a, handled) == run_end(self.acked, handled),
            decreases u64::MAX - a,
        {
            let next: Cursor = a + 1;
            if self.acked_set.contains(&next) || self.dead.contains(&next) || (counts && next
                == cursor) {
                a = next;
            } else {
                return true;
            }
        }
        false
    }

    /// Whether no attempt counter overflows in a lease.
    fn lease_fits(&self, leased: &Vec<(Cursor, u64)>, dead: &Vec<Cursor>) -> (b: bool)
        ensures
            b == self@.lease_fits(leased@, dead@),
    {
        let mut trial: SubscriptionState = SubscriptionState::new();
        trial.attempts = self.attempts.clone();
        trial.bury(dead);
        let ghost full = self@.with_dead(dead@.to_set());
        let ghost light = trial@;
        let mut i: usize = 0;
        while i < leased.len()
            invariant
                i <= leased@.len(),
                full == self@.with_dead(dead@.to_set()),
                light.attempts == full.attempts,
                trial@ == light.with_leases(leased@.take(i as int)),
                forall|k: int|
                    0 <= k < i ==> #[trigger] full.with_leases(leased@.take(k)).attempts_of(
                        leased@[k].0,
                    ) < u32::MAX,
            decreases leased@.len() - i,
        {
            let (c, expires_at): (Cursor, u64) = leased[i];
            let n: u32 = trial.attempts_of(c);
            proof {
                lemma_attempts_alike(full, light, leased@.take(i as int));
                assert(n == full.with_leases(leased@.take(i as int)).attempts_of(
                    leased@[i as int].0,
                ));
            }
            if n == u32::MAX {
                return false;
            }
            trial.attempts.insert(c, n + 1);
            trial.leases.insert(c, Lease { cursor: c, expires_at, attempts: n + 1 });
            proof {
                assert(leased@.take(i + 1).drop_last() =~= leased@.take(i as int));
                assert(trial@ =~= light.with_leases(leased@.take(i + 1)));
            }
            i = i + 1;
        }
        true
    }
}

/// Leasing changes the attempts of two states in the same way where they agree on them.
proof fn lemma_attempts_alike(s: SubView, t: SubView, leased: Seq<(Cursor, u64)>)
    requires
        s.attempts == t.attempts,
    ensures
        s.with_leases(leased).attempts == t.with_leases(leased).attempts,
    decreases leased.len(),
{
    if leased.len() > 0 {
        lemma_attempts_alike(s, t, leased.drop_last());
    }
}

/// Result of leasing a batch: the cursors to deliver, with their attempt counts, and the cursors
/// that just crossed the dead-letter threshold.
#[derive(Debug, Clone, PartialEq, Eq)]
pub struct LeaseOutcome {
    /// `(cursor, attempt_number)` pairs that the consumer should now process.
    pub leased: Vec<(Cursor, u32)>,
    /// Cursors that just exceeded `max_delivery_attempts`.
    pub dead_lettered: Vec<Cursor>,
}

impl Default for LeaseOutcome {
    fn default() -> (o: Self)
        ensures
            o.leased@ == Seq::<(Cursor, u32)>::empty(),
            o.dead_lettered@ == Seq::<Cursor>::empty(),
    {
        LeaseOutcome { leased: Vec::new(), dead_lettered: Vec::new() }
    }
}

/// Operations on the [`SubRegistry`]. The owner proposes these to the replicated log.
#[derive(Debug, PartialEq, Eq)]
pub enum SubOp {
    /// Create a subscription. Idempotent: re-creating a subscription updates its policy and keeps
    /// its acked cursor and leases.
    Create { name: String, policy: SubscriptionPolicy },
    /// Delete a subscription entirely.
    Delete { name: String },
    /// Apply the lease that [`SubRegistry::plan_lease`] has planned.
    ApplyLease {
        name: String,
        /// Cursors newly leased, with the expiry of each.
        leased: Vec<(Cursor, u64)>,
        /// Cursors dead-lettered by this lease.
        dead: Vec<Cursor>,
        /// The contiguous floor after this lease.
        new_acked: Cursor,
    },
    /// Acknowledge processing of `cursor`.
    Ack { name: String, cursor: Cursor },
    /// Negatively acknowledge `cursor`: redeliverable now, with its attempt count kept.
    Nack { name: String, cursor: Cursor },
}

/// What an operation stands for.
#[verifier::ext_equal]
pub enum SubOpView {
    Create { name: Seq<char>, policy: SubscriptionPolicy },
    Delete { name: Seq<char> },
    ApplyLease {
        name: Seq<char>,
        leased: Seq<(Cursor, u64)>,
        dead: Seq<Cursor>,
        new_acked: Cursor,
    },
    Ack { name: Seq<char>, cursor: Cursor },
    Nack { name: Seq<char>, cursor: Cursor },
}

impl View for SubOp {
    type V = SubOpView;

    open spec fn view(&self) -> SubOpView {
        match *self {
            SubOp::Create { name, policy } => SubOpView::Create { name: name@, policy },
            SubOp::Delete { name } => SubOpView::Delete { name: name@ },
            SubOp::ApplyLease { name, leased, dead, new_acked } => SubOpView::ApplyLease {
                name: name@,
                leased: leased@,
                dead: dead@,
                new_acked,
            },
            SubOp::Ack { name, cursor } => SubOpView::Ack { name: name@, cursor },
            SubOp::Nack { name, cursor } => SubOpView::Nack { name: name@, cursor },
        }
    }
}

impl Clone for SubOp {
    fn clone(&self) -> (op: Self)
        ensures
            op@ == self@,
    {
        match self {
            SubOp::Create { name, policy } => SubOp::Create { name: name.clone(), policy: *policy },
            SubOp::Delete { name } => SubOp::Delete { name: name.clone() },
            SubOp::ApplyLease { name, leased, dead, new_acked } => SubOp::ApplyLease {
                name: name.clone(),
                leased: vstd::slice::slice_to_vec(leased.as_slice()),
                dead: vstd::slice::slice_to_vec(dead.as_slice()),
                new_acked: *new_acked,
            },
            SubOp::Ack { name, cursor } => SubOp::Ack { name: name.clone(), cursor: *cursor },
            SubOp::Nack { name, cursor } => SubOp::Nack { name: name.clone(), cursor: *cursor },
        }
    }
}

impl SubOpView {
    /// The subscription that the operation is about.
    pub open spec fn subject(self) -> Seq<char> {
        match self {
            SubOpView::Create { name, .. } => name,
            SubOpView::Delete { name } => name,
            SubOpView::ApplyLease { name, .. } => name,
            SubOpView::Ack { name, .. } => name,
            SubOpView::Nack { name, .. } => name,
        }
    }
}

/// What creating `name` leaves of it: its progress, with the new policy.
pub open spec fn created(
    subs: Map<Seq<char>, SubView>,
    name: Seq<char>,
    policy: SubscriptionPolicy,
) -> SubView {
    if subs.contains_key(name) {
        SubView { policy, ..subs[name] }
    } else {
        fresh(policy)
    }
}

/// What an operation makes of the subscriptions. One that is about a subscription that does not
/// exist does nothing, but for its creation.
pub open spec fn subs_after(subs: Map<Seq<char>, SubView>, op: SubOpView) -> Map<
    Seq<char>,
    SubView,
> {
    let name = op.subject();
    match op {
        SubOpView::Create { policy, .. } => subs.insert(name, created(subs, name, policy)),
        SubOpView::Delete { .. } => subs.remove(name),
        _ if !subs.contains_key(name) => subs,
        SubOpView::ApplyLease { leased, dead, new_acked, .. } => subs.insert(
            name,
            subs[name].after_lease(leased, dead, new_acked),
        ),
        SubOpView::Ack { cursor, .. } => subs.insert(name, subs[name].after_ack(cursor)),
        SubOpView::Nack { cursor, .. } => subs.insert(name, subs[name].after_nack(cursor)),
    }
}

/// Whether no counter overflows in an operation.
pub open spec fn op_fits(subs: Map<Seq<char>, SubView>, op: SubOpView) -> bool {
    subs.contains_key(op.subject()) ==> match op {
        SubOpView::ApplyLease { leased, dead, .. } => subs[op.subject()].lease_fits(leased, dead),
        SubOpView::Ack { cursor, .. } => subs[op.subject()].ack_fits(cursor),
        _ => true,
    }
}

/// The registry of every subscription on a topic.
#[derive(Debug, PartialEq, Eq)]
pub struct SubRegistry {
    subs: StrMap<SubscriptionState>,
}

impl View for SubRegistry {
    type V = Map<Seq<char>, SubView>;

    closed spec fn view(&self) -> Map<Seq<char>, SubView> {
        self.subs@
    }
}

impl Default for SubRegistry {
    fn default() -> (r: Self)
        ensures
            r@ == Map::<Seq<char>, SubView>::empty(),
    {
        SubRegistry { subs: StrMap::new() }
    }
}

impl SubRegistry {
    /// Applies an operation.
    pub fn apply(&mut self, op: SubOp)
        requires
            op_fits(old(self)@, op@),
        ensures
            final(self)@ == subs_after(old(self)@, op@),
    {
        match op {
            SubOp::Create { name, policy } => {
                let mut s: SubscriptionState = match self.subs.remove(name.as_str()) {
                    Some(s) => s,
                    None => SubscriptionState::new(),
                };
                s.policy = policy;
                assert(s@ =~= created(old(self)@, name@, policy));
                self.subs.insert(name, s);
            },
            SubOp::Delete { name } => {
                self.subs.remove(name.as_str());
            },
            SubOp::ApplyLease { name, leased, dead, new_acked } => {
                if let Some(mut s) = self.subs.remove(name.as_str()) {
                    s.apply_lease(&leased, &dead, new_acked);
                    self.subs.insert(name, s);
                }
            },
            SubOp::Ack { name, cursor } => {
                if let Some(mut s) = self.subs.remove(name.as_str()) {
                    s.ack(cursor);
                    self.subs.insert(name, s);
                }
            },
            SubOp::Nack { name, cursor } => {
                if let Some(mut s) = self.subs.remove(name.as_str()) {
                    s.nack(cursor);
                    self.subs.insert(name, s);
                }
            },
        }
        assert(self@ =~= subs_after(old(self)@, op@));
    }

    /// Whether no counter overflows in an operation: whether it can be applied.
    pub fn can_apply(&self, op: &SubOp) -> (b: bool)
        ensures
            b == op_fits(self@, op@),
    {
        match op {
            SubOp::ApplyLease { name, leased, dead, .. } => match self.subs.get(name.as_str()) {
                Some(s) => s.lease_fits(leased, dead),
                None => true,
            },
            SubOp::Ack { name, cursor } => match self.subs.get(name.as_str()) {
                Some(s) => s.ack_fits(*cursor),
                None => true,
            },
            _ => true,
        }
    }

    /// Read-only view of a subscription's state.
    pub fn get(&self, name: &str) -> (r: Option<&SubscriptionState>)
        ensures
            match r {
                Some(s) => self@.contains_key(name@) && self@[name@] == s@,
                None => !self@.contains_key(name@),
            },
    {
        self.subs.get(name)
    }

    /// Names of all subscriptions, in order.
    pub fn names(&self) -> (v: Vec<String>)
        ensures
            crate::strmap::texts_ascend(v@.map_values(|k: String| k@)),
            v@.map_values(|k: String| k@).to_set() == self@.dom(),
    {
        self.subs.keys()
    }

    /// Number of subscriptions.
    pub fn len(&self) -> (n: usize)
        ensures
            n == self@.dom().len(),
    {
        self.subs.len()
    }

    /// Whether no subscription exists.
    pub fn is_empty(&self) -> (b: bool)
        ensures
            b == (self@ == Map::<Seq<char>, SubView>::empty()),
    {
        self.subs.is_empty()
    }

    /// Whether creating `name` would exceed [`MAX_SUBSCRIPTIONS`].
    pub fn at_capacity(&self, name: &str) -> (b: bool)
        ensures
            b == subs_full(self@, name@),
    {
        !self.subs.contains_key(name) && self.subs.len() >= MAX_SUBSCRIPTIONS
    }
}

impl SubscriptionState {
    /// Whether `c` is neither leased at time `now` nor dead-lettered nor acknowledged out of order.
    fn free_at(&self, c: Cursor, now: u64) -> (b: bool)
        ensures
            b == self@.free_at(c, now),
    {
        let leased_unexpired: bool = match self.leases.get(&c) {
            Some(l) => l.expires_at > now,
            None => false,
        };
        !leased_unexpired && !self.dead.contains(&c) && !self.acked_set.contains(&c)
    }

    /// The greatest cursor that is acknowledged or pruned, with everything below it.
    fn base(&self, floor: Cursor) -> (c: Cursor)
        ensures
            c == self@.base(floor),
    {
        if self.acked < floor {
            floor
        } else {
            self.acked
        }
    }

    /// The end of the run of cursors after `base` that are acknowledged, dead-lettered or in `dead`.
    fn run_after(&self, base: Cursor, dead: &Vec<Cursor>) -> (r: Cursor)
        ensures
            r == run_end(base, self@.dead.union(self@.acked_set).union(dead@.to_set())),
    {
        let ghost handled = self@.dead.union(self@.acked_set).union(dead@.to_set());
        let mut fresh_dead: BTreeSet<Cursor> = BTreeSet::new();
        let mut i: usize = 0;
        assert(dead@.take(0).to_set() =~= Set::<Cursor>::empty());
        while i < dead.len()
            invariant
                i <= dead@.len(),
                fresh_dead@ == dead@.take(i as int).to_set(),
            decreases dead@.len() - i,
        {
            proof {
                assert(dead@.take(i + 1) =~= dead@.take(i as int).push(dead@[i as int]));
                lemma_push_to_set(dead@.take(i as int), dead@[i as int]);
            }
            fresh_dead.insert(dead[i]);
            i = i + 1;
        }
        assert(dead@.take(i as int) =~= dead@);
        let mut r: Cursor = base;
        while r < u64::MAX
            invariant
                handled == self@.dead.union(self@.acked_set).union(dead@.to_set()),
                fresh_dead@ == dead@.to_set(),
                run_end(r, handled) == run_end(base, handled),
            decreases u64::MAX - r,
        {
            let next: Cursor = r + 1;
            if self.dead.contains(&next) || self.acked_set.contains(&next) || fresh_dead.contains(
                &next,
            ) {
                r = next;
            } else {
                return r;
            }
        }
        r
    }

    /// Scans for a lease: the cursors to deliver, with their attempts, and those to dead-letter.
    /// Nothing comes back where a cursor or an attempt counter would overflow.
    fn scan(&self, high: Cursor, base: Cursor, now: u64, cap: usize) -> (r: Option<
        (Vec<(Cursor, u32)>, Vec<Cursor>),
    >)
        requires
            base < u64::MAX,
        ensures
            ({
                let end = self@.scan_end(base + 1, high, now, cap as nat);
                match r {
                    Some((leased, dead)) => {
                        &&& end <= u64::MAX
                        &&& self@.counts_fit(base, end, now)
                        &&& leased@ == self@.picks(base + 1, end, now, false).map_values(
                            |c: Cursor| (c, (self@.attempts_of(c) + 1) as u32),
                        )
                        &&& dead@ == self@.picks(base + 1, end, now, true)
                    },
                    None => end > u64::MAX || !self@.counts_fit(base, end, now),
                }
            }),
    {
        let ghost end = self@.scan_end(base + 1, high, now, cap as nat);
        let ghost numbered = |c: Cursor| (c, (self@.attempts_of(c) + 1) as u32);
        let mut leased: Vec<(Cursor, u32)> = Vec::new();
        let mut dead: Vec<Cursor> = Vec::new();
        let mut c: Cursor = base + 1;
        proof {
            lemma_scan_advances(self@, c as int, high, now, cap as nat);
            assert(leased@ =~= self@.picks(base + 1, c as int, now, false).map_values(numbered));
        }
        while c <= high && leased.len() < cap
            invariant
                base < c <= end,
                leased@.len() <= cap,
                numbered == (|c: Cursor| (c, (self@.attempts_of(c) + 1) as u32)),
                end == self@.scan_end(base + 1, high, now, cap as nat),
                end == self@.scan_end(c as int, high, now, (cap - leased@.len()) as nat),
                leased@ == self@.picks(base + 1, c as int, now, false).map_values(numbered),
                dead@ == self@.picks(base + 1, c as int, now, true),
                self@.counts_fit(base, c as int, now),
            decreases end - c,
        {
            let ghost left = if self@.deliverable(c, now) {
                (cap - leased@.len() - 1) as nat
            } else {
                (cap - leased@.len()) as nat
            };
            proof {
                lemma_scan_advances(self@, c + 1, high, now, left);
            }
            if self.free_at(c, now) {
                let attempts: u32 = self.attempts_of(c);
                if attempts == u32::MAX {
                    return None;
                }
                let next_attempt: u32 = attempts + 1;
                if self.policy.max_delivery_attempts != 0 && next_attempt
                    > self.policy.max_delivery_attempts {
                    dead.push(c);
                } else {
                    leased.push((c, next_attempt));
                }
            }
            if c == u64::MAX {
                return None;
            }
            proof {
                assert(leased@ =~= self@.picks(base + 1, c + 1, now, false).map_values(numbered));
                assert(dead@ =~= self@.picks(base + 1, c + 1, now, true));
            }
            c = c + 1;
        }
        Some((leased, dead))
    }
}

proof fn lemma_scan_advances(s: SubView, c: int, high: Cursor, now: u64, room: nat)
    ensures
        s.scan_end(c, high, now, room) >= c,
    decreases high + 1 - c,
{
    if c <= high && room > 0 {
        let left = if s.deliverable(c as u64, now) {
            (room - 1) as nat
        } else {
            room
        };
        lemma_scan_advances(s, c + 1, high, now, left);
    }
}

impl SubRegistry {
    /// Plans a lease of up to `max` redeliverable cursors for the subscription `name`, given the
    /// topic's high-water cursor `high`, its retention floor `floor` (cursors `<= floor` are pruned
    /// and can never be delivered), and the current time `now`. It does not change the registry:
    /// the caller proposes the operation and replies with the outcome.
    ///
    /// A cursor in `(acked, high]` is redeliverable if it is not leased with an unexpired lease, not
    /// dead-lettered, not acknowledged out of order, and not `<= floor`. A cursor whose next attempt
    /// would exceed `max_delivery_attempts` is dead-lettered instead of leased. A contiguous run of
    /// pruned, acknowledged and dead cursors moves the floor, so that nothing that can never be
    /// delivered stalls the subscription.
    pub fn plan_lease(
        &self,
        name: &str,
        high: Cursor,
        floor: Cursor,
        now: u64,
        max: usize,
    ) -> (r: Option<(SubOp, LeaseOutcome)>)
        requires
            plan_fits(self@, name@, high, floor, now, max as nat),
        ensures
            planned(self@, name@, high, floor, now, max as nat, r),
    {
        match self.try_plan_lease(name, high, floor, now, max) {
            Some(r) => r,
            None => None,
        }
    }

    /// As [`SubRegistry::plan_lease`], for any input: `None` where a counter would overflow.
    pub fn try_plan_lease(
        &self,
        name: &str,
        high: Cursor,
        floor: Cursor,
        now: u64,
        max: usize,
    ) -> (r: Option<Option<(SubOp, LeaseOutcome)>>)
        ensures
            r is Some <==> plan_fits(self@, name@, high, floor, now, max as nat),
            r is Some ==> planned(self@, name@, high, floor, now, max as nat, r->0),
    {
        let s: &SubscriptionState = match self.subs.get(name) {
            Some(s) => s,
            None => {
                return Some(None);
            },
        };
        let deadline: u64 = if s.policy.ack_deadline_secs < 1 {
            1
        } else if s.policy.ack_deadline_secs > MAX_ACK_DEADLINE_SECS {
            MAX_ACK_DEADLINE_SECS
        } else {
            s.policy.ack_deadline_secs
        };
        let expires_at: u64 = now.saturating_add(deadline);
        let cap: usize = if max < MAX_LEASE_BATCH {
            max
        } else {
            MAX_LEASE_BATCH
        };
        let base: Cursor = s.base(floor);
        if base == u64::MAX {
            return None;
        }
        let (leased, dead): (Vec<(Cursor, u32)>, Vec<Cursor>) = match s.scan(high, base, now, cap) {
            Some(r) => r,
            None => {
                return None;
            },
        };
        if leased.len() == 0 && dead.len() == 0 {
            return Some(None);
        }
        let new_acked: Cursor = s.run_after(base, &dead);
        if new_acked == u64::MAX {
            return None;
        }
        let ghost plan = s@.plan(high, floor, now, max as nat);
        let mut stamped: Vec<(Cursor, u64)> = Vec::new();
        let mut i: usize = 0;
        while i < leased.len()
            invariant
                i <= leased@.len(),
                stamped@.len() == i,
                forall|j: int| 0 <= j < i ==> stamped@[j] == (leased@[j].0, expires_at),
            decreases leased@.len() - i,
        {
            stamped.push((leased[i].0, expires_at));
            i = i + 1;
        }
        assert(stamped@ =~= plan.leased.map_values(|c: Cursor| (c, plan.expires_at)));
        let op: SubOp = SubOp::ApplyLease {
            name: name.to_owned(),
            leased: stamped,
            dead: dead.clone(),
            new_acked,
        };
        Some(Some((op, LeaseOutcome { leased, dead_lettered: dead })))
    }
}

/// What planning a lease of the subscription `name` returns: nothing where there is no such
/// subscription or nothing to deliver or dead-letter, and else the operation and the outcome.
pub open spec fn planned(
    subs: Map<Seq<char>, SubView>,
    name: Seq<char>,
    high: Cursor,
    floor: Cursor,
    now: u64,
    max: nat,
    r: Option<(SubOp, LeaseOutcome)>,
) -> bool {
    let s = subs[name];
    let plan = s.plan(high, floor, now, max);
    match r {
        Some((op, outcome)) => {
            &&& subs.contains_key(name)
            &&& !plan.is_empty()
            &&& op@ == plan.op(name)
            &&& outcome.leased@ == plan.leased.map_values(
                |c: Cursor| (c, (s.attempts_of(c) + 1) as u32),
            )
            &&& outcome.dead_lettered@ == plan.dead
        },
        None => subs.contains_key(name) ==> plan.is_empty(),
    }
}

/// Whether `name` is new and there are as many subscriptions as a topic may hold.
pub open spec fn subs_full(subs: Map<Seq<char>, SubView>, name: Seq<char>) -> bool {
    !subs.contains_key(name) && subs.dom().len() >= MAX_SUBSCRIPTIONS
}

/// A registry as plain values, to be stored or sent.
#[derive(Debug, Clone, PartialEq, Eq)]
pub struct RegistrySnapshot {
    /// Each subscription with its name.
    pub subs: Vec<(String, SubscriptionState)>,
}

impl SubRegistry {
    /// The registry as plain values, sorted by name.
    pub fn save(&self) -> (s: RegistrySnapshot)
        ensures
            crate::strmap::entries_map(s.subs@) == self@,
            crate::strmap::keys_ascend(s.subs@),
    {
        let n: usize = self.subs.len();
        let ghost order = self.subs.order();
        let mut subs: Vec<(String, SubscriptionState)> = Vec::new();
        let mut i: usize = 0;
        while i < n
            invariant
                i <= n,
                n == order.len(),
                order == self.subs.order(),
                subs@.len() == i,
                forall|j: int|
                    0 <= j < i ==> (#[trigger] subs@[j]).0@ == order[j] && subs@[j].1@
                        == self@[order[j]],
            decreases n - i,
        {
            let (name, state): (&str, &SubscriptionState) = self.subs.entry(i);
            subs.push((name.to_owned(), state.clone()));
            i = i + 1;
        }
        proof {
            crate::strmap::ordered_entries_are_the_map(subs@, order, self@);
            assert forall|a: int, b: int|
                0 <= a < b < subs@.len() implies crate::strmap::text_before(
                subs@[a].0@,
                subs@[b].0@,
            ) by {
                assert(subs@[a].0@ == order[a] && subs@[b].0@ == order[b]);
            }
        }
        RegistrySnapshot { subs }
    }

    /// The registry that a snapshot was taken of. Of two subscriptions with one name the later
    /// counts.
    pub fn load(s: &RegistrySnapshot) -> (r: SubRegistry)
        ensures
            r@ == crate::strmap::entries_map(s.subs@),
    {
        let mut subs: StrMap<SubscriptionState> = StrMap::new();
        let mut i: usize = 0;
        while i < s.subs.len()
            invariant
                i <= s.subs@.len(),
                subs@ == crate::strmap::entries_map(s.subs@.take(i as int)),
            decreases s.subs@.len() - i,
        {
            assert(s.subs@.take(i + 1).drop_last() =~= s.subs@.take(i as int));
            let (name, state): &(String, SubscriptionState) = &s.subs[i];
            subs.insert(name.clone(), state.clone());
            i = i + 1;
        }
        assert(s.subs@.take(i as int) =~= s.subs@);
        SubRegistry { subs }
    }
}

impl Clone for SubRegistry {
    fn clone(&self) -> (r: Self)
        ensures
            r@ == self@,
    {
        SubRegistry::load(&self.save())
    }
}

} // verus!
