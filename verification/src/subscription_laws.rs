//! What holds of subscriptions across operations: what a lease hands out, what an ack leaves, and
//! what every operation keeps.
use vstd::prelude::*;

use crate::message::Cursor;
use crate::subscription;
use crate::subscription::{
    Lease, LeaseOutcome, LeasePlan, SubOp, SubOpView, SubView, SubscriptionPolicy, MAX_LEASE_BATCH,
};

verus! {

proof fn lemma_scan_bounds(s: SubView, c: int, high: Cursor, now: u64, room: nat)
    ensures
        c <= s.scan_end(c, high, now, room),
        c <= high ==> s.scan_end(c, high, now, room) <= high + 1,
        c > high ==> s.scan_end(c, high, now, room) == c,
    decreases high + 1 - c,
{
    if c <= high && room > 0 {
        let left = if s.deliverable(c as u64, now) {
            (room - 1) as nat
        } else {
            room
        };
        lemma_scan_bounds(s, c + 1, high, now, left);
    }
}

proof fn lemma_picks(s: SubView, from: int, to: int, now: u64, exhausted: bool)
    requires
        0 <= from,
        to <= u64::MAX + 1,
    ensures
        forall|c: Cursor|
            #[trigger] s.picks(from, to, now, exhausted).contains(c) <==> from <= c < to
                && s.free_at(c, now) && s.exhausted(c) == exhausted,
        subscription::ascending(s.picks(from, to, now, exhausted)),
    decreases to - from,
{
    let p = s.picks(from, to, now, exhausted);
    if to > from {
        lemma_picks(s, from, to - 1, now, exhausted);
        let last = (to - 1) as u64;
        let before = s.picks(from, to - 1, now, exhausted);
        assert forall|c: Cursor|
            #[trigger] p.contains(c) <==> from <= c < to && s.free_at(c, now) && s.exhausted(c)
                == exhausted by {
            if before.contains(c) {
                let j = choose|j: int| 0 <= j < before.len() && before[j] == c;
                assert(p[j] == c);
            }
            if p.contains(c) && !before.contains(c) {
                let j = choose|j: int| 0 <= j < p.len() && p[j] == c;
                if j < before.len() {
                    assert(before[j] == c);
                }
                assert(c == last);
            }
            if c == last && p.len() > before.len() {
                assert(p[before.len() as int] == c);
            }
        }
        assert forall|i: int, j: int| 0 <= i < j < p.len() implies p[i] < p[j] by {
            assert(before.contains(before[i]));
        }
    }
}

/// How many cursors in `[from, to)` a scan delivers, where it stops at `to`.
proof fn lemma_scan_fills(s: SubView, from: int, c: int, high: Cursor, now: u64, room: nat)
    requires
        0 <= from <= c,
    ensures
        ({
            let end = s.scan_end(c, high, now, room);
            let n = s.picks(from, end, now, false).len() - s.picks(from, c, now, false).len();
            &&& 0 <= n <= room
            &&& n < room ==> end > high
        }),
    decreases high + 1 - c,
{
    if c <= high && room > 0 {
        let left = if s.deliverable(c as u64, now) {
            (room - 1) as nat
        } else {
            room
        };
        lemma_scan_fills(s, from, c + 1, high, now, left);
    }
}

proof fn lemma_plan(s: SubView, high: Cursor, floor: Cursor, now: u64, max: nat)
    ensures
        ({
            let plan = s.plan(high, floor, now, max);
            let end = s.lease_end(high, floor, now, max);
            let base = s.base(floor);
            &&& base + 1 <= end
            &&& end <= high + 1 || end == base + 1
            &&& forall|c: Cursor|
                #[trigger] plan.leased.contains(c) <==> base < c < end && s.free_at(c, now)
                    && !s.exhausted(c)
            &&& forall|c: Cursor|
                #[trigger] plan.dead.contains(c) <==> base < c < end && s.free_at(c, now)
                    && s.exhausted(c)
            &&& subscription::ascending(plan.leased)
            &&& subscription::ascending(plan.dead)
            &&& plan.leased.len() <= subscription::least(max, MAX_LEASE_BATCH as nat)
            &&& plan.leased.len() < subscription::least(max, MAX_LEASE_BATCH as nat) ==> end > high
        }),
{
    let base = s.base(floor);
    let room = subscription::least(max, MAX_LEASE_BATCH as nat);
    let end = s.lease_end(high, floor, now, max);
    lemma_scan_bounds(s, base + 1, high, now, room);
    lemma_picks(s, base + 1, end, now, false);
    lemma_picks(s, base + 1, end, now, true);
    lemma_scan_fills(s, base + 1, base + 1, high, now, room);
}

/// A lease hands out, in order and without repetition, only cursors above the floor and the
/// retention floor and up to the high-water cursor that are not leased at that time, not
/// acknowledged, not dead-lettered, and whose attempts are not exhausted.
pub proof fn lease_hands_out_only_redeliverable(
    s: SubView,
    high: Cursor,
    floor: Cursor,
    now: u64,
    max: nat,
)
    ensures
        subscription::ascending(s.plan(high, floor, now, max).leased),
        forall|c: Cursor| #[trigger]
            s.plan(high, floor, now, max).leased.contains(c) ==> s.acked < c && floor < c <= high
                && !s.leased_at(c, now) && !s.handled(c) && !s.exhausted(c),
{
    lemma_plan(s, high, floor, now, max);
}

/// A lease passes over no message that waits for delivery: one that is neither leased nor handled is
/// handed out or dead-lettered, or it stands behind as many cursors as the lease may hold.
pub proof fn lease_passes_over_no_message(
    s: SubView,
    high: Cursor,
    floor: Cursor,
    now: u64,
    max: nat,
    c: Cursor,
)
    requires
        floor < c <= high,
        !s.leased_at(c, now),
        !s.handled(c),
    ensures
        ({
            let plan = s.plan(high, floor, now, max);
            ||| !s.exhausted(c) && plan.leased.contains(c)
            ||| s.exhausted(c) && plan.dead.contains(c)
            ||| {
                &&& plan.leased.len() == subscription::least(max, MAX_LEASE_BATCH as nat)
                &&& forall|d: Cursor| #[trigger] plan.leased.contains(d) ==> d < c
            }
        }),
{
    lemma_plan(s, high, floor, now, max);
}

/// A lease hands out no more cursors than asked for, and never more than the hard cap.
pub proof fn lease_is_bounded(s: SubView, high: Cursor, floor: Cursor, now: u64, max: nat)
    ensures
        s.plan(high, floor, now, max).leased.len() <= max,
        s.plan(high, floor, now, max).leased.len() <= MAX_LEASE_BATCH,
{
    lemma_plan(s, high, floor, now, max);
}

/// A lease dead-letters only cursors that could be handed out but for their exhausted attempts.
pub proof fn only_exhausted_cursors_are_dead_lettered(
    s: SubView,
    high: Cursor,
    floor: Cursor,
    now: u64,
    max: nat,
)
    ensures
        subscription::ascending(s.plan(high, floor, now, max).dead),
        forall|c: Cursor| #[trigger]
            s.plan(high, floor, now, max).dead.contains(c) ==> s.acked < c && floor < c <= high
                && !s.leased_at(c, now) && !s.handled(c) && s.policy.max_delivery_attempts != 0
                && s.attempts_of(c) >= s.policy.max_delivery_attempts,
{
    lemma_plan(s, high, floor, now, max);
}

/// With `max_delivery_attempts` 0 nothing is ever dead-lettered.
pub proof fn zero_max_attempts_dead_letters_nothing(
    s: SubView,
    high: Cursor,
    floor: Cursor,
    now: u64,
    max: nat,
)
    requires
        s.policy.max_delivery_attempts == 0,
    ensures
        s.plan(high, floor, now, max).dead.len() == 0,
{
    lemma_plan(s, high, floor, now, max);
    let dead = s.plan(high, floor, now, max).dead;
    if dead.len() > 0 {
        assert(dead.contains(dead[0]));
    }
}

/// Leasing distinct cursors counts one attempt for each of them and changes nothing else.
proof fn lemma_with_leases(s: SubView, cs: Seq<Cursor>, expires_at: u64)
    requires
        subscription::ascending(cs),
        forall|c: Cursor| #[trigger] cs.contains(c) ==> s.attempts_of(c) < u32::MAX,
    ensures
        ({
            let t = s.with_leases(cs.map_values(|c: Cursor| (c, expires_at)));
            &&& t.acked == s.acked && t.dead == s.dead && t.acked_set == s.acked_set && t.policy
                == s.policy
            &&& forall|c: Cursor|
                #![trigger t.attempts_of(c)]
                t.attempts_of(c) == s.attempts_of(c) + if cs.contains(c) {
                    1int
                } else {
                    0int
                }
            &&& forall|c: Cursor|
                #![trigger t.leases.contains_key(c)]
                #![trigger t.leases[c]]
                if cs.contains(c) {
                    t.leases.contains_key(c) && t.leases[c].expires_at == expires_at
                } else {
                    t.leases.contains_key(c) == s.leases.contains_key(c) && (
                    s.leases.contains_key(c) ==> t.leases[c] == s.leases[c])
                }
        }),
    decreases cs.len(),
{
    if cs.len() > 0 {
        let head = cs.drop_last();
        let stamp = |c: Cursor| (c, expires_at);
        assert forall|c: Cursor| #[trigger] head.contains(c) implies cs.contains(c) by {
            let j = choose|j: int| 0 <= j < head.len() && head[j] == c;
            assert(cs[j] == c);
        }
        lemma_with_leases(s, head, expires_at);
        assert(cs.map_values(stamp).drop_last() =~= head.map_values(stamp));
        let last = cs.last();
        assert(cs.contains(last)) by {
            assert(cs[cs.len() - 1] == last);
        }
        assert forall|c: Cursor| #[trigger] cs.contains(c) == (head.contains(c) || c == last) by {
            if cs.contains(c) {
                let j = choose|j: int| 0 <= j < cs.len() && cs[j] == c;
                if j < head.len() {
                    assert(head[j] == c);
                }
            }
        }
        assert(!head.contains(last)) by {
            if head.contains(last) {
                let j = choose|j: int| 0 <= j < head.len() && head[j] == last;
                assert(cs[j] < cs[cs.len() - 1]);
            }
        }
        let u = s.with_leases(head.map_values(stamp));
        let t = s.with_leases(cs.map_values(stamp));
        assert(t == u.with_lease(last, expires_at));
        assert(u.attempts_of(last) == s.attempts_of(last));
        assert forall|c: Cursor|
            #![trigger t.attempts_of(c)]
            t.attempts_of(c) == s.attempts_of(c) + if cs.contains(c) {
                1int
            } else {
                0int
            } by {
            assert(c != last ==> t.attempts_of(c) == u.attempts_of(c));
        }
        assert forall|c: Cursor|
            #![trigger t.leases.contains_key(c)]
            #![trigger t.leases[c]]
            if cs.contains(c) {
                t.leases.contains_key(c) && t.leases[c].expires_at == expires_at
            } else {
                t.leases.contains_key(c) == s.leases.contains_key(c) && (s.leases.contains_key(c)
                    ==> t.leases[c] == s.leases[c])
            } by {
            assert(c != last ==> t.leases.contains_key(c) == u.leases.contains_key(c));
            assert(c != last && u.leases.contains_key(c) ==> t.leases[c] == u.leases[c]);
        }
    }
}

/// A planned lease counts within bounds: it can always be applied.
pub proof fn planned_lease_can_be_applied(
    s: SubView,
    high: Cursor,
    floor: Cursor,
    now: u64,
    max: nat,
    subs: Map<Seq<char>, SubView>,
    name: Seq<char>,
)
    requires
        subs.contains_key(name),
        subs[name] == s,
        s.plan_fits(high, floor, now, max),
    ensures
        subscription::op_fits(subs, s.plan(high, floor, now, max).op(name)),
{
    let plan = s.plan(high, floor, now, max);
    lemma_plan(s, high, floor, now, max);
    let d = s.with_dead(plan.dead.to_set());
    let stamp = |c: Cursor| (c, plan.expires_at);
    let leased = plan.leased.map_values(stamp);
    assert forall|k: int| 0 <= k < leased.len() implies #[trigger] d.with_leases(
        leased.take(k),
    ).attempts_of(leased[k].0) < u32::MAX by {
        let head = plan.leased.take(k);
        assert(leased.take(k) =~= head.map_values(stamp));
        assert(plan.leased.contains(plan.leased[k]));
        assert forall|c: Cursor| #[trigger] head.contains(c) implies d.attempts_of(c)
            < u32::MAX by {
            let j = choose|j: int| 0 <= j < head.len() && head[j] == c;
            assert(plan.leased[j] == c);
            assert(plan.leased.contains(c));
            assert(s.attempts_of(c) < u32::MAX);
        }
        lemma_with_leases(d, head, plan.expires_at);
        let c = plan.leased[k];
        assert(!head.contains(c)) by {
            if head.contains(c) {
                let j = choose|j: int| 0 <= j < head.len() && head[j] == c;
                assert(plan.leased[j] < plan.leased[k]);
            }
        }
        assert(s.attempts_of(c) < u32::MAX);
    }
}

/// The state after a planned lease was applied.
pub open spec fn after_plan(s: SubView, plan: LeasePlan) -> SubView {
    s.after_lease(
        plan.leased.map_values(|c: Cursor| (c, plan.expires_at)),
        plan.dead,
        plan.new_acked,
    )
}

proof fn lemma_new_floor(s: SubView, high: Cursor, floor: Cursor, now: u64, max: nat)
    ensures
        ({
            let plan = s.plan(high, floor, now, max);
            &&& s.base(floor) <= plan.new_acked
            &&& forall|c: Cursor|
                s.base(floor) < c <= plan.new_acked ==> s.dead.contains(c) || s.acked_set.contains(
                    c,
                ) || #[trigger] plan.dead.contains(c)
            &&& forall|c: Cursor| #[trigger] plan.leased.contains(c) ==> plan.new_acked < c
        }),
{
    let plan = s.plan(high, floor, now, max);
    let base = s.base(floor);
    let handled = s.dead.union(s.acked_set).union(plan.dead.to_set());
    lemma_plan(s, high, floor, now, max);
    subscription::run_end_is_the_end(base, handled);
    assert forall|c: Cursor| base < c <= plan.new_acked implies s.dead.contains(c)
        || s.acked_set.contains(c) || #[trigger] plan.dead.contains(c) by {
        assert(handled.contains(c));
    }
    assert forall|c: Cursor| #[trigger] plan.leased.contains(c) implies plan.new_acked < c by {
        if c <= plan.new_acked {
            assert(handled.contains(c));
            assert(plan.dead.contains(c));
        }
    }
}

/// After a planned lease was applied, each cursor that it handed out is leased until the deadline
/// has passed and redeliverable from then on, with one more attempt counted, and each cursor that
/// it dead-lettered is handled for good.
pub proof fn lease_holds_until_the_deadline(
    s: SubView,
    high: Cursor,
    floor: Cursor,
    now: u64,
    max: nat,
)
    requires
        s.plan_fits(high, floor, now, max),
    ensures
        ({
            let plan = s.plan(high, floor, now, max);
            let t = after_plan(s, plan);
            &&& forall|c: Cursor, later: u64|
                plan.leased.contains(c) ==> !t.handled(c) && #[trigger] t.leased_at(c, later) == (
                later < plan.expires_at)
            &&& forall|c: Cursor|
                plan.leased.contains(c) ==> #[trigger] t.attempts_of(c) == s.attempts_of(c) + 1
            &&& forall|c: Cursor| #[trigger] plan.dead.contains(c) ==> t.handled(c)
        }),
{
    let plan = s.plan(high, floor, now, max);
    let d = s.with_dead(plan.dead.to_set());
    let stamp = |c: Cursor| (c, plan.expires_at);
    let t = after_plan(s, plan);
    lemma_plan(s, high, floor, now, max);
    lemma_new_floor(s, high, floor, now, max);
    assert forall|c: Cursor| #[trigger] plan.leased.contains(c) implies d.attempts_of(c) < u32::MAX
        && d.attempts_of(c) == s.attempts_of(c) by {
        assert(s.attempts_of(c) < u32::MAX);
        assert(!plan.dead.contains(c));
    }
    lemma_with_leases(d, plan.leased, plan.expires_at);
    let u = d.with_leases(plan.leased.map_values(stamp));
    assert(t == u.with_floor(plan.new_acked));
    assert forall|c: Cursor, later: u64| plan.leased.contains(c) implies !t.handled(c)
        && #[trigger] t.leased_at(c, later) == (later < plan.expires_at) by {
        assert(u.leases.contains_key(c) && u.leases[c].expires_at == plan.expires_at);
        assert(!plan.dead.contains(c));
    }
    assert forall|c: Cursor| plan.leased.contains(c) implies #[trigger] t.attempts_of(c)
        == s.attempts_of(c) + 1 by {
        assert(u.attempts_of(c) == t.attempts_of(c));
    }
    assert forall|c: Cursor| #[trigger] plan.dead.contains(c) implies t.handled(c) by {
        assert(u.dead.contains(c));
    }
}

/// A lease moves the floor over nothing but cursors that were pruned, handled before, or just
/// dead-lettered: no message is lost.
pub proof fn lease_loses_no_cursor(s: SubView, high: Cursor, floor: Cursor, now: u64, max: nat)
    requires
        s.plan_fits(high, floor, now, max),
    ensures
        ({
            let plan = s.plan(high, floor, now, max);
            let t = after_plan(s, plan);
            forall|c: Cursor|
                c <= t.acked ==> c <= floor || s.handled(c) || #[trigger] plan.dead.contains(c)
        }),
{
    let plan = s.plan(high, floor, now, max);
    lemma_plan(s, high, floor, now, max);
    lemma_new_floor(s, high, floor, now, max);
    let d = s.with_dead(plan.dead.to_set());
    assert forall|c: Cursor| #[trigger] plan.leased.contains(c) implies d.attempts_of(c)
        < u32::MAX by {
        assert(s.attempts_of(c) < u32::MAX);
    }
    lemma_with_leases(d, plan.leased, plan.expires_at);
}

/// A cursor right above the floor that is dead-lettered does not hold the floor back.
pub proof fn dead_letter_moves_the_floor(
    s: SubView,
    high: Cursor,
    floor: Cursor,
    now: u64,
    max: nat,
    c: Cursor,
)
    requires
        s.plan_fits(high, floor, now, max),
        s.plan(high, floor, now, max).dead.contains(c),
        c == s.base(floor) + 1,
    ensures
        after_plan(s, s.plan(high, floor, now, max)).acked >= c,
{
    let plan = s.plan(high, floor, now, max);
    let base = s.base(floor);
    let handled = s.dead.union(s.acked_set).union(plan.dead.to_set());
    assert(handled.contains((base + 1) as u64));
    subscription::run_end_is_the_end((base + 1) as u64, handled);
}

/// A message whose lease was applied is not handed out again before the deadline; after it, the
/// next lease that has room hands it out again, with the attempt number one higher, or dead-letters
/// it where its attempts are exhausted.
pub proof fn expired_lease_is_redelivered(
    s: SubView,
    high: Cursor,
    floor: Cursor,
    now: u64,
    max: nat,
    c: Cursor,
    later_high: Cursor,
    later_floor: Cursor,
    later: u64,
    later_max: nat,
)
    requires
        s.plan_fits(high, floor, now, max),
        s.plan(high, floor, now, max).leased.contains(c),
        high <= later_high,
        later_floor < c,
    ensures
        ({
            let plan = s.plan(high, floor, now, max);
            let t = after_plan(s, plan);
            let next = t.plan(later_high, later_floor, later, later_max);
            &&& t.attempts_of(c) == s.attempts_of(c) + 1
            &&& later < plan.expires_at ==> !next.leased.contains(c) && !next.dead.contains(c)
            &&& later >= plan.expires_at && next.leased.len() < subscription::least(
                later_max,
                MAX_LEASE_BATCH as nat,
            ) ==> if t.exhausted(c) {
                next.dead.contains(c)
            } else {
                next.leased.contains(c)
            }
        }),
{
    let plan = s.plan(high, floor, now, max);
    let t = after_plan(s, plan);
    lemma_plan(s, high, floor, now, max);
    lease_holds_until_the_deadline(s, high, floor, now, max);
    assert(t.leased_at(c, later) == (later < plan.expires_at));
    lemma_plan(t, later_high, later_floor, later, later_max);
}

/// No operation lowers the floor of a subscription.
pub proof fn floor_never_falls(subs: Map<Seq<char>, SubView>, op: SubOpView, name: Seq<char>)
    requires
        subs.contains_key(name),
        subscription::subs_after(subs, op).contains_key(name),
    ensures
        subscription::subs_after(subs, op)[name].acked >= subs[name].acked,
{
    let s = subs[name];
    match op {
        SubOpView::Ack { cursor, .. } => {
            let t = s.with_ack(cursor);
            subscription::run_end_is_the_end(t.acked, t.acked_set.union(t.dead));
        },
        SubOpView::ApplyLease { leased, dead, .. } => {
            lemma_leases_keep(s.with_dead(dead.to_set()), leased);
        },
        _ => {},
    }
}

proof fn lemma_leases_keep(s: SubView, leased: Seq<(Cursor, u64)>)
    ensures
        s.with_leases(leased).acked == s.acked,
        s.with_leases(leased).dead == s.dead,
        s.with_leases(leased).acked_set == s.acked_set,
        s.with_leases(leased).policy == s.policy,
    decreases leased.len(),
{
    if leased.len() > 0 {
        lemma_leases_keep(s, leased.drop_last());
    }
}

/// What is acknowledged or dead-lettered stays so under every operation but the deletion of the
/// subscription.
pub proof fn handled_stays_handled(
    subs: Map<Seq<char>, SubView>,
    op: SubOpView,
    name: Seq<char>,
    c: Cursor,
)
    requires
        subs.contains_key(name),
        subs[name].handled(c),
        !(op is Delete && op.subject() == name),
    ensures
        subscription::subs_after(subs, op).contains_key(name),
        subscription::subs_after(subs, op)[name].handled(c),
{
    let s = subs[name];
    match op {
        SubOpView::Ack { cursor, .. } => {
            let t = s.with_ack(cursor);
            subscription::run_end_is_the_end(t.acked, t.acked_set.union(t.dead));
        },
        SubOpView::ApplyLease { leased, dead, .. } => {
            lemma_leases_keep(s.with_dead(dead.to_set()), leased);
        },
        _ => {},
    }
}

/// The subscriptions after a list of operations.
pub open spec fn subs_after_all(
    subs: Map<Seq<char>, SubView>,
    ops: Seq<SubOpView>,
) -> Map<Seq<char>, SubView>
    decreases ops.len(),
{
    if ops.len() == 0 {
        subs
    } else {
        subscription::subs_after(subs_after_all(subs, ops.drop_last()), ops.last())
    }
}

/// What is acknowledged or dead-lettered is never handed out again, whatever operations follow,
/// unless the subscription is deleted.
pub proof fn handled_is_never_redelivered(
    subs: Map<Seq<char>, SubView>,
    ops: Seq<SubOpView>,
    name: Seq<char>,
    c: Cursor,
    high: Cursor,
    floor: Cursor,
    now: u64,
    max: nat,
)
    requires
        subs.contains_key(name),
        subs[name].handled(c),
        forall|i: int|
            0 <= i < ops.len() ==> !((#[trigger] ops[i]) is Delete && ops[i].subject() == name),
    ensures
        subs_after_all(subs, ops).contains_key(name),
        subs_after_all(subs, ops)[name].handled(c),
        !subs_after_all(subs, ops)[name].plan(high, floor, now, max).leased.contains(c),
        !subs_after_all(subs, ops)[name].plan(high, floor, now, max).dead.contains(c),
    decreases ops.len(),
{
    if ops.len() > 0 {
        let head = ops.drop_last();
        assert forall|i: int| 0 <= i < head.len() implies !((#[trigger] head[i]) is Delete
            && head[i].subject() == name) by {
            assert(head[i] == ops[i]);
        }
        handled_is_never_redelivered(subs, head, name, c, high, floor, now, max);
        assert(ops[ops.len() - 1] == ops.last());
        handled_stays_handled(subs_after_all(subs, head), ops.last(), name, c);
    }
    lemma_plan(subs_after_all(subs, ops)[name], high, floor, now, max);
}

/// An operation touches no subscription but the one that it is about.
pub proof fn operations_touch_one_subscription(
    subs: Map<Seq<char>, SubView>,
    op: SubOpView,
    other: Seq<char>,
)
    requires
        other != op.subject(),
    ensures
        subscription::subs_after(subs, op).contains_key(other) == subs.contains_key(other),
        subs.contains_key(other) ==> subscription::subs_after(subs, op)[other] == subs[other],
{
}

/// Re-creating a subscription sets its policy and keeps its progress, and doing so twice is the same
/// as doing so once.
pub proof fn create_is_idempotent(
    subs: Map<Seq<char>, SubView>,
    name: Seq<char>,
    policy: SubscriptionPolicy,
)
    ensures
        ({
            let op = SubOpView::Create { name, policy };
            let once = subscription::subs_after(subs, op);
            &&& subscription::subs_after(once, op) == once
            &&& once[name].policy == policy
            &&& subs.contains_key(name) ==> once[name] == (SubView { policy, ..subs[name] })
        }),
{
    let op = SubOpView::Create { name, policy };
    let once = subscription::subs_after(subs, op);
    assert(subscription::subs_after(once, op) =~= once);
}

/// A deleted subscription is gone.
pub proof fn delete_removes(subs: Map<Seq<char>, SubView>, name: Seq<char>)
    ensures
        !subscription::subs_after(subs, SubOpView::Delete { name }).contains_key(name),
{
}

/// A negatively acknowledged cursor is not leased any more, at any time, with its attempts kept;
/// unless it is acknowledged or dead it is redeliverable at once. No other cursor changes.
pub proof fn nack_makes_redeliverable(s: SubView, c: Cursor, now: u64)
    ensures
        !s.after_nack(c).leased_at(c, now),
        s.leases.contains_key(c) && !s.handled(c) ==> s.after_nack(c).free_at(c, now)
            && !s.after_nack(c).handled(c),
        s.after_nack(c).attempts == s.attempts,
        forall|d: Cursor|
            d != c ==> #[trigger] s.after_nack(c).leased_at(d, now) == s.leased_at(d, now),
{
}

/// An ack moves the floor over the contiguous run of cursors that are acknowledged or
/// dead-lettered, `c` among them, and not beyond.
pub proof fn ack_folds_the_contiguous_run(s: SubView, c: Cursor)
    ensures
        s.acked <= s.after_ack(c).acked,
        forall|d: Cursor|
            s.acked < d <= s.after_ack(c).acked ==> d == c || #[trigger] s.handled(d),
        s.after_ack(c).acked < u64::MAX ==> {
            let next = (s.after_ack(c).acked + 1) as u64;
            next != c && !s.handled(next)
        },
        s.after_ack(c).handled(c),
        !s.after_ack(c).leases.contains_key(c),
{
    let t = s.with_ack(c);
    subscription::run_end_is_the_end(t.acked, t.acked_set.union(t.dead));
    assert forall|d: Cursor| s.acked < d <= s.after_ack(c).acked implies d == c
        || #[trigger] s.handled(d) by {
        assert(t.acked_set.union(t.dead).contains(d));
    }
}

/// Acknowledging a cursor twice is the same as acknowledging it once.
pub proof fn ack_is_idempotent(s: SubView, c: Cursor)
    requires
        s.ack_fits(c),
    ensures
        s.after_ack(c).after_ack(c) == s.after_ack(c),
{
    let w = s.with_ack(c);
    let t = s.after_ack(c);
    subscription::run_end_is_the_end(w.acked, w.acked_set.union(w.dead));
    let v = t.with_ack(c);
    assert(v =~= t);
    let handled = t.acked_set.union(t.dead);
    assert(!handled.contains((t.acked + 1) as u64));
    assert(subscription::run_end(t.acked, handled) == t.acked);
    assert(t.folded() =~= t);
}

/// The state after the cursors of `cs` were acknowledged one after another.
pub open spec fn after_acks(s: SubView, cs: Seq<Cursor>) -> SubView
    decreases cs.len(),
{
    if cs.len() == 0 {
        s
    } else {
        after_acks(s, cs.drop_last()).after_ack(cs.last())
    }
}

proof fn lemma_acks(s: SubView, cs: Seq<Cursor>)
    ensures
        cs.len() == 0 ==> after_acks(s, cs).acked == s.acked,
        cs.len() > 0 ==> after_acks(s, cs).acked == subscription::run_end(
            s.acked,
            s.acked_set.union(s.dead).union(cs.to_set()),
        ),
        forall|d: Cursor|
            d > after_acks(s, cs).acked ==> (#[trigger] after_acks(s, cs).handled(d) <==> s.handled(
                d,
            ) || cs.contains(d)),
    decreases cs.len(),
{
    let all = s.acked_set.union(s.dead).union(cs.to_set());
    if cs.len() > 0 {
        let head = cs.drop_last();
        let c = cs.last();
        lemma_acks(s, head);
        let u = after_acks(s, head);
        let t = u.after_ack(c);
        let w = u.with_ack(c);
        let run = w.acked_set.union(w.dead);
        let some = s.acked_set.union(s.dead).union(head.to_set());
        subscription::run_end_is_the_end(s.acked, some);
        subscription::run_end_is_the_end(u.acked, run);
        assert forall|d: Cursor| #[trigger] cs.contains(d) == (head.contains(d) || d == c) by {
            if cs.contains(d) {
                let j = choose|j: int| 0 <= j < cs.len() && cs[j] == d;
                if j < head.len() {
                    assert(head[j] == d);
                }
            }
            if head.contains(d) {
                let j = choose|j: int| 0 <= j < head.len() && head[j] == d;
                assert(cs[j] == d);
            }
            if d == c {
                assert(cs[cs.len() - 1] == d);
            }
        }
        assert forall|d: Cursor| s.acked < d <= t.acked implies all.contains(d) by {
            assert(cs.contains(d) == (head.contains(d) || d == c));
            if d <= u.acked {
                assert(some.contains(d));
            } else {
                assert(run.contains(d));
                assert(d == c || u.handled(d));
            }
        }
        if t.acked < u64::MAX {
            let next = (t.acked + 1) as u64;
            if all.contains(next) {
                assert(cs.contains(next) == (head.contains(next) || next == c));
                assert(u.handled(next) || next == c);
                assert(run.contains(next));
            }
        }
        subscription::run_end_is_unique(s.acked, all, t.acked);
        assert forall|d: Cursor| d > t.acked implies (#[trigger] t.handled(d) <==> s.handled(d)
            || cs.contains(d)) by {
            assert(cs.contains(d) == (head.contains(d) || d == c));
            assert(u.handled(d) <==> s.handled(d) || head.contains(d));
        }
    }
}

/// Acks may come in any order: the floor ends where the contiguous run of all that is acknowledged
/// or dead-lettered ends, whatever the order was.
pub proof fn acks_come_in_any_order(s: SubView, cs: Seq<Cursor>)
    requires
        cs.len() > 0,
    ensures
        after_acks(s, cs).acked == subscription::run_end(
            s.acked,
            s.acked_set.union(s.dead).union(cs.to_set()),
        ),
{
    lemma_acks(s, cs);
}

/// Once acknowledged a cursor is not outstanding any more; no other lease is touched.
pub proof fn acks_release_their_leases(s: SubView, cs: Seq<Cursor>, c: Cursor)
    ensures
        after_acks(s, cs).leases.contains_key(c) <==> s.leases.contains_key(c) && !cs.contains(c),
        after_acks(s, cs).leases.contains_key(c) ==> after_acks(s, cs).leases[c] == s.leases[c],
    decreases cs.len(),
{
    if cs.len() > 0 {
        let head = cs.drop_last();
        acks_release_their_leases(s, head, c);
        if cs.contains(c) {
            let j = choose|j: int| 0 <= j < cs.len() && cs[j] == c;
            if j < head.len() {
                assert(head[j] == c);
            }
        }
        if head.contains(c) {
            let j = choose|j: int| 0 <= j < head.len() && head[j] == c;
            assert(cs[j] == c);
        }
        if cs.last() == c {
            assert(cs[cs.len() - 1] == c);
        }
    }
}

/// Whether the subscription knows of no cursor above `high`.
pub open spec fn within(s: SubView, high: Cursor) -> bool {
    &&& s.acked <= high
    &&& forall|c: Cursor| #[trigger] s.dead.contains(c) ==> c <= high
    &&& forall|c: Cursor| #[trigger] s.acked_set.contains(c) ==> c <= high
}

/// Acknowledging, in any order, every message up to the high-water cursor that is not handled yet
/// brings the floor to it.
pub proof fn acking_everything_reaches_high(s: SubView, cs: Seq<Cursor>, high: Cursor)
    requires
        cs.len() > 0,
        within(s, high),
        forall|c: Cursor| #[trigger] cs.contains(c) ==> c <= high,
        forall|c: Cursor| c <= high ==> s.handled(c) || #[trigger] cs.contains(c),
    ensures
        after_acks(s, cs).acked == high,
{
    let all = s.acked_set.union(s.dead).union(cs.to_set());
    lemma_acks(s, cs);
    assert forall|c: Cursor| s.acked < c <= high implies all.contains(c) by {
        assert(s.handled(c) || cs.contains(c));
    }
    subscription::run_end_is_unique(s.acked, all, high);
}

/// Acknowledging a cursor up to `high` leaves the floor, and all that the subscription knows of,
/// at or below `high`.
pub proof fn ack_stays_within(s: SubView, c: Cursor, high: Cursor)
    requires
        within(s, high),
        c <= high,
    ensures
        within(s.after_ack(c), high),
{
    let w = s.with_ack(c);
    let run = w.acked_set.union(w.dead);
    subscription::run_end_is_the_end(w.acked, run);
    let end = s.after_ack(c).acked;
    if end > s.acked {
        assert(run.contains(end));
    }
}

/// A lease planned up to `high`, with a retention floor up to `high`, leaves the floor, and all
/// that the subscription knows of, at or below `high`.
pub proof fn lease_stays_within(s: SubView, high: Cursor, floor: Cursor, now: u64, max: nat)
    requires
        within(s, high),
        floor <= high,
    ensures
        within(after_plan(s, s.plan(high, floor, now, max)), high),
{
    let plan = s.plan(high, floor, now, max);
    lemma_plan(s, high, floor, now, max);
    lemma_new_floor(s, high, floor, now, max);
    lemma_leases_keep(
        s.with_dead(plan.dead.to_set()),
        plan.leased.map_values(|c: Cursor| (c, plan.expires_at)),
    );
    if plan.new_acked > s.base(floor) {
        assert(s.dead.contains(plan.new_acked) || s.acked_set.contains(plan.new_acked)
            || plan.dead.contains(plan.new_acked));
    }
}

/// One step in the life of a subscription.
pub enum DeliveryStep {
    /// A cursor is acknowledged.
    Ack(Cursor),
    /// A cursor is negatively acknowledged.
    Nack(Cursor),
    /// A lease is planned and, where there is anything in it, applied.
    Lease { high: Cursor, floor: Cursor, now: u64, max: nat },
    /// The subscription is created again, with another policy.
    Policy(SubscriptionPolicy),
}

/// The state after a step.
pub open spec fn after_step(s: SubView, step: DeliveryStep) -> SubView {
    match step {
        DeliveryStep::Ack(c) => s.after_ack(c),
        DeliveryStep::Nack(c) => s.after_nack(c),
        DeliveryStep::Lease { high, floor, now, max } => {
            let plan = s.plan(high, floor, now, max);
            if plan.is_empty() {
                s
            } else {
                after_plan(s, plan)
            }
        },
        DeliveryStep::Policy(policy) => SubView { policy, ..s },
    }
}

/// The state after a list of steps.
pub open spec fn after_steps(s: SubView, steps: Seq<DeliveryStep>) -> SubView
    decreases steps.len(),
{
    if steps.len() == 0 {
        s
    } else {
        after_step(after_steps(s, steps.drop_last()), steps.last())
    }
}

/// Whether a step settles the message at `c`: it acknowledges it, or it is a lease that dead-letters
/// it or finds it pruned.
pub open spec fn settles(s: SubView, step: DeliveryStep, c: Cursor) -> bool {
    match step {
        DeliveryStep::Ack(d) => d == c,
        DeliveryStep::Lease { high, floor, now, max } => {
            let plan = s.plan(high, floor, now, max);
            !plan.is_empty() && (c <= floor || plan.dead.contains(c))
        },
        _ => false,
    }
}

proof fn lemma_step_settles(s: SubView, step: DeliveryStep, c: Cursor)
    ensures
        after_step(s, step).handled(c) <==> s.handled(c) || settles(s, step, c),
{
    match step {
        DeliveryStep::Ack(d) => {
            ack_folds_the_contiguous_run(s, d);
        },
        DeliveryStep::Lease { high, floor, now, max } => {
            let plan = s.plan(high, floor, now, max);
            lemma_plan(s, high, floor, now, max);
            lemma_new_floor(s, high, floor, now, max);
            lemma_leases_keep(
                s.with_dead(plan.dead.to_set()),
                plan.leased.map_values(|c: Cursor| (c, plan.expires_at)),
            );
            if !plan.is_empty() && s.base(floor) < c <= plan.new_acked {
                assert(s.dead.contains(c) || s.acked_set.contains(c) || plan.dead.contains(c));
            }
        },
        _ => {},
    }
}

/// A subscription accounts for every message: after any steps, a message is settled exactly where it
/// was from the start, or one of the steps acknowledged it, dead-lettered it or found it pruned.
/// Nothing else ever drops a message.
pub proof fn every_message_is_accounted_for(s: SubView, steps: Seq<DeliveryStep>, c: Cursor)
    ensures
        after_steps(s, steps).handled(c) <==> s.handled(c) || exists|i: int|
            0 <= i < steps.len() && #[trigger] settles(
                after_steps(s, steps.take(i)),
                steps[i],
                c,
            ),
    decreases steps.len(),
{
    if steps.len() > 0 {
        let head = steps.drop_last();
        let n = steps.len() - 1;
        every_message_is_accounted_for(s, head, c);
        lemma_step_settles(after_steps(s, head), steps.last(), c);
        assert(steps.take(n) =~= head);
        if exists|i: int|
            0 <= i < head.len() && #[trigger] settles(after_steps(s, head.take(i)), head[i], c) {
            let i = choose|i: int|
                0 <= i < head.len() && #[trigger] settles(after_steps(s, head.take(i)), head[i], c);
            assert(head.take(i) =~= steps.take(i));
            assert(settles(after_steps(s, steps.take(i)), steps[i], c));
        }
        if settles(after_steps(s, head), steps.last(), c) {
            assert(settles(after_steps(s, steps.take(n)), steps[n], c));
        }
        if exists|i: int|
            0 <= i < steps.len() && #[trigger] settles(after_steps(s, steps.take(i)), steps[i], c) {
            let i = choose|i: int|
                0 <= i < steps.len() && #[trigger] settles(
                    after_steps(s, steps.take(i)),
                    steps[i],
                    c,
                );
            if i < n {
                assert(head.take(i) =~= steps.take(i));
                assert(settles(after_steps(s, head.take(i)), head[i], c));
            }
        }
    }
}

/// Whether a step hands out the message at `c`.
pub open spec fn hands_out(s: SubView, step: DeliveryStep, c: Cursor) -> bool {
    match step {
        DeliveryStep::Lease { high, floor, now, max } => s.plan(
            high,
            floor,
            now,
            max,
        ).leased.contains(c),
        _ => false,
    }
}

/// How many of the steps hand out the message at `c`.
pub open spec fn deliveries(s: SubView, steps: Seq<DeliveryStep>, c: Cursor) -> nat
    decreases steps.len(),
{
    if steps.len() == 0 {
        0
    } else {
        let head = steps.drop_last();
        deliveries(s, head, c) + if hands_out(after_steps(s, head), steps.last(), c) {
            1nat
        } else {
            0nat
        }
    }
}

/// A cursor that is not leased keeps its attempts.
proof fn lemma_attempts_of_others(s: SubView, cs: Seq<Cursor>, expires_at: u64, c: Cursor)
    requires
        !cs.contains(c),
    ensures
        s.with_leases(cs.map_values(|c: Cursor| (c, expires_at))).attempts_of(c) == s.attempts_of(c),
    decreases cs.len(),
{
    let f = |c: Cursor| (c, expires_at);
    if cs.len() > 0 {
        let head = cs.drop_last();
        assert(cs.map_values(f).drop_last() =~= head.map_values(f));
        assert forall|j: int| 0 <= j < head.len() implies head[j] != c by {
            assert(cs[j] == head[j]);
        }
        lemma_attempts_of_others(s, head, expires_at, c);
        assert(cs[cs.len() - 1] != c);
    }
}

/// A cursor that is leased once among distinct cursors counts one more attempt.
proof fn lemma_attempts_of_one(s: SubView, cs: Seq<Cursor>, expires_at: u64, c: Cursor)
    requires
        subscription::ascending(cs),
        s.attempts_of(c) < u32::MAX,
    ensures
        s.with_leases(cs.map_values(|c: Cursor| (c, expires_at))).attempts_of(c) == s.attempts_of(c)
            + if cs.contains(c) {
            1int
        } else {
            0int
        },
    decreases cs.len(),
{
    let f = |c: Cursor| (c, expires_at);
    if cs.len() > 0 {
        let head = cs.drop_last();
        assert(cs.map_values(f).drop_last() =~= head.map_values(f));
        lemma_attempts_of_one(s, head, expires_at, c);
        if head.contains(c) {
            let j = choose|j: int| 0 <= j < head.len() && head[j] == c;
            assert(cs[j] == c);
            assert(cs[j] < cs[cs.len() - 1]);
        }
        if cs.contains(c) {
            let j = choose|j: int| 0 <= j < cs.len() && cs[j] == c;
            if j < head.len() {
                assert(head[j] == c);
            }
        }
        if cs.last() == c {
            assert(cs[cs.len() - 1] == c);
        }
    }
}

proof fn lemma_attempts_count(policy: SubscriptionPolicy, steps: Seq<DeliveryStep>, c: Cursor)
    requires
        deliveries(subscription::fresh(policy), steps, c) <= u32::MAX,
    ensures
        !after_steps(subscription::fresh(policy), steps).handled(c) ==> after_steps(
            subscription::fresh(policy),
            steps,
        ).attempts_of(c) == deliveries(subscription::fresh(policy), steps, c),
    decreases steps.len(),
{
    if steps.len() > 0 {
        let head = steps.drop_last();
        let s = after_steps(subscription::fresh(policy), head);
        let t = after_steps(subscription::fresh(policy), steps);
        lemma_attempts_count(policy, head, c);
        lemma_step_settles(s, steps.last(), c);
        if !t.handled(c) {
            match steps.last() {
                DeliveryStep::Lease { high, floor, now, max } => {
                    let plan = s.plan(high, floor, now, max);
                    lemma_plan(s, high, floor, now, max);
                    if plan.leased.contains(c) {
                        assert(!plan.is_empty());
                    }
                    if !plan.is_empty() {
                        let d = s.with_dead(plan.dead.to_set());
                        assert(d.attempts_of(c) == s.attempts_of(c));
                        if plan.leased.contains(c) {
                            lemma_attempts_of_one(d, plan.leased, plan.expires_at, c);
                        } else {
                            lemma_attempts_of_others(d, plan.leased, plan.expires_at, c);
                        }
                    }
                },
                _ => {},
            }
        }
    }
}

/// A delivery attempt is one more than the deliveries so far, over the whole life of a subscription:
/// neither expiry nor a negative acknowledgement resets the count. A message is handed out while the
/// attempt is allowed, and dead-lettered where the next attempt would exceed what is allowed; where
/// any number is allowed nothing is dead-lettered. A subscription that hands out a message as often
/// as the counter can count is left out.
pub proof fn attempts_count_the_deliveries(
    policy: SubscriptionPolicy,
    steps: Seq<DeliveryStep>,
    subs: Map<Seq<char>, SubView>,
    name: Seq<char>,
    high: Cursor,
    floor: Cursor,
    now: u64,
    max: nat,
    r: Option<(SubOp, LeaseOutcome)>,
    c: Cursor,
)
    requires
        subs.contains_key(name),
        subs[name] == after_steps(subscription::fresh(policy), steps),
        subscription::planned(subs, name, high, floor, now, max, r),
        deliveries(subscription::fresh(policy), steps, c) < u32::MAX,
    ensures
        ({
            let n = deliveries(subscription::fresh(policy), steps, c);
            let allowed = subs[name].policy.max_delivery_attempts;
            r matches Some((_, out)) ==> {
                &&& forall|k: u32| #[trigger]
                    out.leased@.contains((c, k)) ==> k == n + 1 && (allowed == 0 || k <= allowed)
                &&& out.dead_lettered@.contains(c) ==> allowed != 0 && n + 1 > allowed
                &&& allowed == 0 ==> out.dead_lettered@.len() == 0
            }
        }),
{
    let s = subs[name];
    let plan = s.plan(high, floor, now, max);
    lemma_plan(s, high, floor, now, max);
    lemma_attempts_count(policy, steps, c);
    if let Some((_, out)) = r {
        assert forall|k: u32| #[trigger] out.leased@.contains((c, k)) implies plan.leased.contains(c)
            && k == s.attempts_of(c) + 1 by {
            let j = choose|j: int| 0 <= j < out.leased@.len() && out.leased@[j] == (c, k);
            assert(j < plan.leased.len() && plan.leased[j] == c);
            assert(plan.leased.contains(c));
            assert(!s.handled(c));
        }
        if s.policy.max_delivery_attempts == 0 {
            zero_max_attempts_dead_letters_nothing(s, high, floor, now, max);
        }
    }
}

/// Whether only cursors above the floor are listed as dead-lettered or as acknowledged out of order.
pub open spec fn lists_only_above(s: SubView) -> bool {
    &&& forall|c: Cursor| #[trigger] s.dead.contains(c) ==> c > s.acked
    &&& forall|c: Cursor| #[trigger] s.acked_set.contains(c) ==> c > s.acked
}

/// Once the floor has passed a cursor it is not listed any more, neither as dead-lettered nor as
/// acknowledged out of order, whatever happens to a subscription.
pub proof fn floor_clears_the_lists(policy: SubscriptionPolicy, steps: Seq<DeliveryStep>)
    ensures
        lists_only_above(after_steps(subscription::fresh(policy), steps)),
    decreases steps.len(),
{
    if steps.len() > 0 {
        let head = steps.drop_last();
        let s = after_steps(subscription::fresh(policy), head);
        floor_clears_the_lists(policy, head);
        match steps.last() {
            DeliveryStep::Ack(c) => {
                let t = s.with_ack(c);
                subscription::run_end_is_the_end(t.acked, t.acked_set.union(t.dead));
            },
            DeliveryStep::Lease { high, floor, now, max } => {
                let plan = s.plan(high, floor, now, max);
                lemma_plan(s, high, floor, now, max);
                lemma_new_floor(s, high, floor, now, max);
                lemma_leases_keep(
                    s.with_dead(plan.dead.to_set()),
                    plan.leased.map_values(|c: Cursor| (c, plan.expires_at)),
                );
            },
            _ => {},
        }
    }
}

/// How often the message at `c` was delivered, by the subscription's record.
pub open spec fn recorded_attempts(s: SubView, c: Cursor) -> int {
    if s.attempts.contains_key(c) {
        s.attempts[c] as int
    } else {
        0
    }
}

/// Whether the message at `c` waits for delivery at time `now`: it is in the log, above the floor,
/// neither acknowledged nor dead-lettered, and no lease on it runs beyond `now`.
pub open spec fn waits(s: SubView, c: Cursor, high: Cursor, floor: Cursor, now: u64) -> bool {
    &&& s.acked < c
    &&& floor < c <= high
    &&& !s.acked_set.contains(c)
    &&& !s.dead.contains(c)
    &&& !(s.leases.contains_key(c) && s.leases[c].expires_at > now)
}

/// Whether the message at `c` was delivered as often as the policy allows.
pub open spec fn used_up(s: SubView, c: Cursor) -> bool {
    s.policy.max_delivery_attempts != 0 && recorded_attempts(s, c)
        >= s.policy.max_delivery_attempts
}

/// When a lease that is taken at `now` ends: after the seconds of the policy's deadline, at least 1
/// and at most 600, or at the end of time.
pub open spec fn held_until(policy: SubscriptionPolicy, now: u64) -> int {
    let secs = if policy.ack_deadline_secs == 0 {
        1int
    } else if policy.ack_deadline_secs > 600 {
        600int
    } else {
        policy.ack_deadline_secs as int
    };
    if now + secs >= 0xffff_ffff_ffff_ffff {
        0xffff_ffff_ffff_ffff
    } else {
        now + secs
    }
}

/// A scan that has filled its room stopped right behind the last cursor that it delivers.
proof fn lemma_scan_stops(s: SubView, from: int, c: int, high: Cursor, now: u64, room: nat)
    requires
        0 <= from <= c,
        room > 0,
        s.picks(from, s.scan_end(c, high, now, room), now, false).len() == s.picks(
            from,
            c,
            now,
            false,
        ).len() + room,
    ensures
        ({
            let end = s.scan_end(c, high, now, room);
            c < end <= high + 1 && s.deliverable((end - 1) as u64, now)
        }),
    decreases high + 1 - c,
{
    if c <= high {
        let left = if s.deliverable(c as u64, now) {
            (room - 1) as nat
        } else {
            room
        };
        if left > 0 {
            lemma_scan_stops(s, from, c + 1, high, now, left);
        } else {
            assert(s.scan_end(c + 1, high, now, left) == c + 1);
        }
    }
}

/// A lease hands out exactly the first messages that wait for delivery, in order, up to as many as
/// asked for and never more than 1000, and dead-letters exactly those among them that were delivered
/// as often as allowed; a lease that is full passes over nothing before the last message that it
/// hands out, and touches nothing behind it.
pub proof fn lease_takes_the_first_that_wait(
    s: SubView,
    high: Cursor,
    floor: Cursor,
    now: u64,
    max: nat,
    c: Cursor,
)
    ensures
        ({
            let plan = s.plan(high, floor, now, max);
            let room = if max < 1000 {
                max
            } else {
                1000
            };
            &&& forall|i: int, j: int|
                0 <= i < j < plan.leased.len() ==> plan.leased[i] < plan.leased[j]
            &&& forall|i: int, j: int|
                0 <= i < j < plan.dead.len() ==> plan.dead[i] < plan.dead[j]
            &&& plan.leased.len() <= room
            &&& plan.leased.contains(c) ==> waits(s, c, high, floor, now) && !used_up(s, c)
            &&& plan.dead.contains(c) ==> waits(s, c, high, floor, now) && used_up(s, c)
            &&& waits(s, c, high, floor, now) && (plan.leased.len() < room || room > 0 && c
                <= plan.leased.last()) ==> if used_up(s, c) {
                plan.dead.contains(c)
            } else {
                plan.leased.contains(c)
            }
            &&& plan.leased.len() == room && plan.dead.contains(c) ==> room > 0 && c
                < plan.leased.last()
        }),
{
    let plan = s.plan(high, floor, now, max);
    let room = subscription::least(max, MAX_LEASE_BATCH as nat);
    let base = s.base(floor);
    let end = s.lease_end(high, floor, now, max);
    lemma_plan(s, high, floor, now, max);
    if plan.leased.len() == room && room > 0 {
        lemma_scan_stops(s, base + 1, base + 1, high, now, room);
        let last = plan.leased.last();
        assert(plan.leased.contains(last)) by {
            assert(plan.leased[plan.leased.len() - 1] == last);
        }
        let e = (end - 1) as u64;
        assert(plan.leased.contains(e));
        let j = choose|j: int| 0 <= j < plan.leased.len() && plan.leased[j] == e;
        if j < plan.leased.len() - 1 {
            assert(plan.leased[j] < plan.leased[plan.leased.len() - 1]);
        }
        assert(last == e);
    }
    if room == 0 {
        assert(end == base + 1);
    }
}

/// Leasing distinct cursors records, for each of them, one delivery more and a lease until
/// `expires_at`, and leaves the records of all others.
proof fn lemma_leases_recorded(s: SubView, cs: Seq<Cursor>, expires_at: u64, c: Cursor)
    requires
        subscription::ascending(cs),
        cs.contains(c) ==> s.attempts_of(c) < u32::MAX,
    ensures
        ({
            let t = s.with_leases(cs.map_values(|c: Cursor| (c, expires_at)));
            if cs.contains(c) {
                &&& t.attempts.contains_key(c)
                &&& t.attempts[c] == s.attempts_of(c) + 1
                &&& t.leases.contains_key(c)
                &&& t.leases[c] == Lease { cursor: c, expires_at, attempts: t.attempts[c] }
            } else {
                &&& t.attempts.contains_key(c) == s.attempts.contains_key(c)
                &&& s.attempts.contains_key(c) ==> t.attempts[c] == s.attempts[c]
                &&& t.leases.contains_key(c) == s.leases.contains_key(c)
                &&& s.leases.contains_key(c) ==> t.leases[c] == s.leases[c]
            }
        }),
    decreases cs.len(),
{
    if cs.len() > 0 {
        let head = cs.drop_last();
        let stamp = |c: Cursor| (c, expires_at);
        assert(cs.map_values(stamp).drop_last() =~= head.map_values(stamp));
        let last = cs.last();
        if head.contains(c) {
            let j = choose|j: int| 0 <= j < head.len() && head[j] == c;
            assert(cs[j] == c);
            assert(cs[j] < cs[cs.len() - 1]);
        }
        if cs.contains(c) {
            let j = choose|j: int| 0 <= j < cs.len() && cs[j] == c;
            if j < head.len() {
                assert(head[j] == c);
            }
        }
        if last == c {
            assert(cs[cs.len() - 1] == c);
        }
        lemma_leases_recorded(s, head, expires_at, c);
    }
}

/// What a planned lease, once applied, leaves of one message and of the floor. A message that is handed
/// out counts one delivery more, and is leased under that number for the ack deadline of the policy.
/// One that is dead-lettered has no lease and no count any more and is passed over for good. The
/// record of every other message stays. The floor moves over what is pruned, acknowledged or
/// dead-lettered, as far as it goes without a gap, and no further.
pub proof fn applied_lease_takes_effect(
    s: SubView,
    high: Cursor,
    floor: Cursor,
    now: u64,
    max: nat,
    c: Cursor,
)
    requires
        s.plan_fits(high, floor, now, max),
    ensures
        ({
            let plan = s.plan(high, floor, now, max);
            let t = after_plan(s, plan);
            let dead = plan.dead.contains(c);
            &&& t.policy == s.policy
            &&& plan.leased.contains(c) ==> {
                &&& t.attempts.contains_key(c)
                &&& t.attempts[c] == recorded_attempts(s, c) + 1
                &&& t.leases.contains_key(c)
                &&& t.leases[c].cursor == c
                &&& t.leases[c].attempts == recorded_attempts(s, c) + 1
                &&& t.leases[c].expires_at == held_until(s.policy, now)
                &&& c > t.acked
                &&& !t.dead.contains(c)
                &&& !t.acked_set.contains(c)
            }
            &&& dead ==> {
                &&& !t.leases.contains_key(c)
                &&& !t.attempts.contains_key(c)
                &&& c <= t.acked || t.dead.contains(c)
            }
            &&& !plan.leased.contains(c) && !dead ==> {
                &&& t.leases.contains_key(c) == s.leases.contains_key(c)
                &&& s.leases.contains_key(c) ==> t.leases[c] == s.leases[c]
                &&& t.attempts.contains_key(c) == s.attempts.contains_key(c)
                &&& s.attempts.contains_key(c) ==> t.attempts[c] == s.attempts[c]
            }
            &&& c > t.acked && !dead ==> t.dead.contains(c) == s.dead.contains(c)
            &&& c > t.acked ==> t.acked_set.contains(c) == s.acked_set.contains(c)
            &&& t.acked >= s.acked && t.acked >= floor
            &&& floor < c && s.acked < c <= t.acked ==> s.acked_set.contains(c) || s.dead.contains(c)
                || dead
            &&& c == t.acked + 1 ==> !t.acked_set.contains(c) && !t.dead.contains(c)
        }),
{
    let plan = s.plan(high, floor, now, max);
    let d = s.with_dead(plan.dead.to_set());
    let u = d.with_leases(plan.leased.map_values(|c: Cursor| (c, plan.expires_at)));
    let t = after_plan(s, plan);
    lemma_plan(s, high, floor, now, max);
    lemma_new_floor(s, high, floor, now, max);
    assert(t == u.with_floor(plan.new_acked));
    lemma_leases_keep(d, plan.leased.map_values(|c: Cursor| (c, plan.expires_at)));
    assert(plan.leased.contains(c) ==> d.attempts_of(c) == s.attempts_of(c) && s.attempts_of(c)
        < u32::MAX);
    lemma_leases_recorded(d, plan.leased, plan.expires_at, c);
    subscription::run_end_is_the_end(
        s.base(floor),
        s.dead.union(s.acked_set).union(plan.dead.to_set()),
    );
}

/// The outcome of a planned lease tells what its operation does. Each message that it hands out has
/// the attempt number that follows its deliveries so far; once the operation is applied it is leased
/// under that number for the ack deadline. Each one that it dead-letters is passed over for good, and
/// the leases and counts of every other message stay.
pub proof fn planned_lease_takes_effect(
    subs: Map<Seq<char>, SubView>,
    name: Seq<char>,
    high: Cursor,
    floor: Cursor,
    now: u64,
    max: nat,
    r: Option<(SubOp, LeaseOutcome)>,
    c: Cursor,
)
    requires
        subscription::planned(subs, name, high, floor, now, max, r),
        subscription::plan_fits(subs, name, high, floor, now, max),
        r is Some,
    ensures
        ({
            let (op, out) = r->0;
            let s = subs[name];
            let after = subscription::subs_after(subs, op@);
            let t = after[name];
            let handed_out = exists|k: u32| #[trigger] out.leased@.contains((c, k));
            let dead = out.dead_lettered@.contains(c);
            &&& subs.contains_key(name)
            &&& after.dom() == subs.dom()
            &&& t.policy == s.policy
            &&& forall|k: u32| #[trigger]
                out.leased@.contains((c, k)) ==> {
                    &&& k == recorded_attempts(s, c) + 1
                    &&& t.attempts.contains_key(c)
                    &&& t.attempts[c] == k
                    &&& t.leases.contains_key(c)
                    &&& t.leases[c].attempts == k
                    &&& t.leases[c].expires_at == held_until(s.policy, now)
                    &&& c > t.acked
                }
            &&& dead ==> !t.leases.contains_key(c) && (c <= t.acked || t.dead.contains(c))
            &&& !handed_out && !dead ==> {
                &&& t.leases.contains_key(c) == s.leases.contains_key(c)
                &&& s.leases.contains_key(c) ==> t.leases[c] == s.leases[c]
                &&& recorded_attempts(t, c) == recorded_attempts(s, c)
            }
        }),
{
    let (op, out) = r->0;
    let s = subs[name];
    let plan = s.plan(high, floor, now, max);
    lemma_plan(s, high, floor, now, max);
    applied_lease_takes_effect(s, high, floor, now, max, c);
    assert(plan.leased.contains(c) ==> s.attempts_of(c) < u32::MAX);
    assert forall|k: u32| #[trigger] out.leased@.contains((c, k)) implies plan.leased.contains(c)
        && k == s.attempts_of(c) + 1 by {
        let j = choose|j: int| 0 <= j < out.leased@.len() && out.leased@[j] == (c, k);
        assert(j < plan.leased.len() && plan.leased[j] == c);
        assert(plan.leased.contains(c));
    }
    if plan.leased.contains(c) {
        let j = choose|j: int| 0 <= j < plan.leased.len() && plan.leased[j] == c;
        assert(out.leased@[j] == (c, (s.attempts_of(c) + 1) as u32));
        assert(out.leased@.contains((c, (s.attempts_of(c) + 1) as u32)));
    }
    assert(subscription::subs_after(subs, op@).dom() =~= subs.dom());
}

/// A message that is handed out is held for the ack deadline: no lease before the deadline has passed
/// hands it out again or dead-letters it, and from then on every lease does, unless it is full with
/// messages that stand before it.
pub proof fn lease_is_held_for_the_ack_deadline(
    s: SubView,
    high: Cursor,
    floor: Cursor,
    now: u64,
    max: nat,
    c: Cursor,
    later_high: Cursor,
    later_floor: Cursor,
    later: u64,
    later_max: nat,
)
    requires
        s.plan_fits(high, floor, now, max),
        s.plan(high, floor, now, max).leased.contains(c),
        1 <= s.policy.ack_deadline_secs <= 600,
        high <= later_high,
        later_floor < c,
        later < 0xffff_ffff_ffff_ffff,
    ensures
        ({
            let t = after_plan(s, s.plan(high, floor, now, max));
            let next = t.plan(later_high, later_floor, later, later_max);
            let room = if later_max < 1000 {
                later_max
            } else {
                1000
            };
            &&& later < now + s.policy.ack_deadline_secs ==> !next.leased.contains(c)
                && !next.dead.contains(c)
            &&& later >= now + s.policy.ack_deadline_secs ==> next.leased.contains(c)
                || next.dead.contains(c) || next.leased.len() == room && (room > 0
                ==> next.leased.last() < c)
        }),
{
    let plan = s.plan(high, floor, now, max);
    let d = s.with_dead(plan.dead.to_set());
    let t = after_plan(s, plan);
    lemma_plan(s, high, floor, now, max);
    lemma_new_floor(s, high, floor, now, max);
    lemma_leases_keep(d, plan.leased.map_values(|c: Cursor| (c, plan.expires_at)));
    assert(d.attempts_of(c) == s.attempts_of(c) && s.attempts_of(c) < u32::MAX);
    lemma_leases_recorded(d, plan.leased, plan.expires_at, c);
    assert(t.leases[c].expires_at == plan.expires_at);
    lease_takes_the_first_that_wait(t, later_high, later_floor, later, later_max, c);
}

/// Where nothing is planned there is nothing to plan: no message waits, or none is asked for, or there
/// is no such subscription.
pub proof fn lease_is_planned_where_a_message_waits(
    subs: Map<Seq<char>, SubView>,
    name: Seq<char>,
    high: Cursor,
    floor: Cursor,
    now: u64,
    max: nat,
    r: Option<(SubOp, LeaseOutcome)>,
    c: Cursor,
)
    requires
        subscription::planned(subs, name, high, floor, now, max, r),
        subs.contains_key(name),
        waits(subs[name], c, high, floor, now),
        max > 0,
    ensures
        r matches Some((_, out)) && (out.leased@.len() > 0 || out.dead_lettered@.len() > 0),
{
    lease_takes_the_first_that_wait(subs[name], high, floor, now, max, c);
}

/// An acknowledged message is settled: it is acknowledged or below the floor, with no lease and no
/// count. All else stays: the leases, the counts and the policy, and of every other message whether it
/// is settled. The floor moves exactly over the run of settled messages that follows it.
pub proof fn ack_settles_one_message(s: SubView, c: Cursor, d: Cursor)
    ensures
        ({
            let t = s.after_ack(c);
            let was = d <= s.acked || s.acked_set.contains(d) || s.dead.contains(d);
            let is = d <= t.acked || t.acked_set.contains(d) || t.dead.contains(d);
            &&& is <==> was || d == c
            &&& c <= t.acked || t.acked_set.contains(c)
            &&& t.policy == s.policy
            &&& !t.leases.contains_key(c) && !t.attempts.contains_key(c)
            &&& d != c ==> {
                &&& t.leases.contains_key(d) == s.leases.contains_key(d)
                &&& s.leases.contains_key(d) ==> t.leases[d] == s.leases[d]
                &&& t.attempts.contains_key(d) == s.attempts.contains_key(d)
                &&& s.attempts.contains_key(d) ==> t.attempts[d] == s.attempts[d]
            }
            &&& t.acked >= s.acked
            &&& d > t.acked ==> t.dead.contains(d) == s.dead.contains(d)
            &&& s.acked < d <= t.acked ==> !t.dead.contains(d) && !t.acked_set.contains(d)
            &&& d == t.acked + 1 ==> !(t.acked_set.contains(d) || t.dead.contains(d))
        }),
{
    let w = s.with_ack(c);
    let run = w.acked_set.union(w.dead);
    subscription::run_end_is_the_end(w.acked, run);
    if s.acked < d <= s.after_ack(c).acked {
        assert(run.contains(d));
    }
}

/// A negatively acknowledged message is released: its lease ended before all time, so that it waits
/// whenever it is in the log and not settled. Its count stays, and so does everything else.
pub proof fn nack_releases_one_message(s: SubView, c: Cursor, d: Cursor, high: Cursor, floor: Cursor, now: u64)
    ensures
        ({
            let t = s.after_nack(c);
            &&& t.acked == s.acked && t.dead == s.dead && t.acked_set == s.acked_set
            &&& t.attempts == s.attempts && t.policy == s.policy
            &&& t.leases.contains_key(d) == s.leases.contains_key(d)
            &&& s.leases.contains_key(d) ==> t.leases[d].attempts == s.leases[d].attempts
                && t.leases[d].cursor == s.leases[d].cursor
            &&& s.leases.contains_key(d) && d != c ==> t.leases[d] == s.leases[d]
            &&& waits(t, c, high, floor, now) <==> s.acked < c && floor < c <= high
                && !s.acked_set.contains(c) && !s.dead.contains(c)
        }),
{
}

/// A new subscription starts at the beginning of the log: it has the policy that it was created with,
/// nothing is settled, leased or counted, so that every message that the log retains waits.
pub proof fn new_subscription_starts_at_the_beginning(
    subs: Map<Seq<char>, SubView>,
    name: Seq<char>,
    policy: SubscriptionPolicy,
    high: Cursor,
    floor: Cursor,
    now: u64,
    c: Cursor,
)
    requires
        !subs.contains_key(name),
    ensures
        ({
            let after = subscription::subs_after(subs, SubOpView::Create { name, policy });
            let s = after[name];
            &&& after.contains_key(name)
            &&& s.policy == policy
            &&& s.acked == 0
            &&& !s.leases.contains_key(c) && !s.attempts.contains_key(c)
            &&& !s.dead.contains(c) && !s.acked_set.contains(c)
            &&& waits(s, c, high, floor, now) <==> floor < c <= high
        }),
{
}

/// What operations make of a subscription: creation of one that exists sets its policy and nothing
/// else, deletion takes it away and nothing else, and what is about one that does not exist, but for
/// its creation, does nothing.
pub proof fn operations_do_no_more_than_they_say(
    subs: Map<Seq<char>, SubView>,
    name: Seq<char>,
    policy: SubscriptionPolicy,
    op: SubOpView,
    other: Seq<char>,
)
    ensures
        ({
            let created = subscription::subs_after(subs, SubOpView::Create { name, policy });
            let deleted = subscription::subs_after(subs, SubOpView::Delete { name });
            &&& created.contains_key(other) <==> subs.contains_key(other) || other == name
            &&& subs.contains_key(name) ==> {
                let (s, t) = (subs[name], created[name]);
                t.policy == policy && t.acked == s.acked && t.leases == s.leases && t.attempts
                    == s.attempts && t.dead == s.dead && t.acked_set == s.acked_set
            }
            &&& other != name && subs.contains_key(other) ==> created[other] == subs[other]
            &&& deleted.contains_key(other) <==> subs.contains_key(other) && other != name
            &&& deleted.contains_key(other) ==> deleted[other] == subs[other]
            &&& !(op is Create) && !subs.contains_key(op.subject()) ==> subscription::subs_after(
                subs,
                op,
            ) == subs
        }),
{
    if !(op is Create) && !subs.contains_key(op.subject()) {
        assert(subscription::subs_after(subs, op) =~= subs);
    }
}

/// An operation is about the subscription that it names.
pub proof fn operations_name_their_subject(
    name: Seq<char>,
    policy: SubscriptionPolicy,
    leased: Seq<(Cursor, u64)>,
    dead: Seq<Cursor>,
    new_acked: Cursor,
    cursor: Cursor,
)
    ensures
        (SubOpView::Create { name, policy }).subject() == name,
        (SubOpView::Delete { name }).subject() == name,
        (SubOpView::ApplyLease { name, leased, dead, new_acked }).subject() == name,
        (SubOpView::Ack { name, cursor }).subject() == name,
        (SubOpView::Nack { name, cursor }).subject() == name,
{
}

/// Nothing but a counter at its end keeps a lease from being planned: below that, on a log and a
/// subscription that know of no cursor above `high`, a lease can be planned at any time and for any
/// number of messages.
pub proof fn lease_can_be_planned(
    subs: Map<Seq<char>, SubView>,
    name: Seq<char>,
    high: Cursor,
    floor: Cursor,
    now: u64,
    max: nat,
)
    requires
        high < 0xffff_ffff_ffff_ffff,
        floor <= high,
        subs.contains_key(name) ==> within(subs[name], high) && forall|c: Cursor|
            #[trigger] subs[name].attempts.contains_key(c) ==> subs[name].attempts[c] < 0xffff_ffff,
    ensures
        subscription::plan_fits(subs, name, high, floor, now, max),
{
    if subs.contains_key(name) {
        let s = subs[name];
        let plan = s.plan(high, floor, now, max);
        lemma_plan(s, high, floor, now, max);
        lemma_new_floor(s, high, floor, now, max);
        assert(s.counts_fit(s.base(floor), s.lease_end(high, floor, now, max), now));
        if plan.new_acked > s.base(floor) {
            assert(s.dead.contains(plan.new_acked) || s.acked_set.contains(plan.new_acked)
                || plan.dead.contains(plan.new_acked));
        }
    }
}

/// Nothing but a counter at its end keeps an operation from being applied: an ack up to a high-water
/// cursor that is not the last number can be, a nack, a creation and a deletion always can.
pub proof fn operations_can_be_applied(
    subs: Map<Seq<char>, SubView>,
    op: SubOpView,
    high: Cursor,
)
    requires
        high < 0xffff_ffff_ffff_ffff,
        match op {
            SubOpView::Ack { name, cursor } => cursor <= high && (subs.contains_key(name) ==> within(
                subs[name],
                high,
            )),
            SubOpView::ApplyLease { .. } => false,
            _ => true,
        },
    ensures
        subscription::op_fits(subs, op),
{
    if let SubOpView::Ack { name, cursor } = op {
        if subs.contains_key(name) {
            ack_stays_within(subs[name], cursor, high);
        }
    }
}

/// A policy is accepted exactly where its ack deadline is from 1 to 600 seconds, whatever number of
/// attempts it allows; the default holds a message for 30 seconds and allows 5 attempts.
pub proof fn policies_are_bounded(p: SubscriptionPolicy)
    ensures
        subscription::policy_fault(p) is None <==> 1 <= p.ack_deadline_secs <= 600,
        subscription::default_policy().ack_deadline_secs == 30,
        subscription::default_policy().max_delivery_attempts == 5,
{
}

/// A topic holds up to 10,000 subscriptions; one that exists can always be created again.
pub proof fn room_for_subscriptions(subs: Map<Seq<char>, SubView>, name: Seq<char>)
    requires
        subs.dom().finite(),
    ensures
        subs.contains_key(name) ==> !subscription::subs_full(subs, name),
        !subs.contains_key(name) ==> (subscription::subs_full(subs, name) <==> subs.dom().len()
            >= 10_000),
{
}

/// A lease that can be planned hands out no message that was delivered as often as can be counted.
pub proof fn lease_counts_fit(
    s: SubView,
    high: Cursor,
    floor: Cursor,
    now: u64,
    max: nat,
    c: Cursor,
)
    requires
        s.plan_fits(high, floor, now, max),
        s.plan(high, floor, now, max).leased.contains(c),
    ensures
        recorded_attempts(s, c) < 0xffff_ffff,
{
    lemma_plan(s, high, floor, now, max);
    assert(s.attempts_of(c) < u32::MAX);
}

} // verus!
