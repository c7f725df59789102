//! What a topic owner decides about subscription-control requests: which it answers at once, which
//! need a capability, which operation it proposes to the subscription registry, and what it replies
//! once the operation was accepted or refused.
use vstd::prelude::*;
use vstd::utf8::*;

use crate::hexcodec;
use crate::ingest;
use crate::ingest::GateView;
use crate::log::{LogView, TopicLog};
use crate::message;
use crate::message::{Cursor, Message, MessageView};
use crate::protocol;
use crate::protocol::{
    ControlReply, ControlReplyView, ControlRequest, ControlView, LeasedMessage, MAX_CONTROL_BODY_BYTES,
};
use crate::subscription;
use crate::subscription::{
    LeaseOutcome, SubOp, SubOpView, SubRegistry, SubView, SubscriptionPolicy,
};
use crate::subscription_laws;
use crate::text;

verus! {

/// Why a control request in hex is refused before its body is parsed: its hex is longer than that of
/// the largest body, it is no hex, or its body is too large.
pub open spec fn control_hex_fault(hex: Seq<char>) -> Option<Seq<char>> {
    let digits = encode_utf8(hex);
    if digits.len() > 2 * MAX_CONTROL_BODY_BYTES {
        Some(
            "bad request body: "@ + protocol::bytes_text(
                "control request too large"@,
                (digits.len() + 1) / 2,
            ),
        )
    } else if hexcodec::hex_fault(digits) is Some {
        Some("bad request hex: "@ + hexcodec::hex_error_text(hexcodec::hex_fault(digits)->0))
    } else {
        None
    }
}

/// The body of a control request that arrives in hex, or the reply that refuses it. The length of
/// the hex is bounded before it is decoded.
pub fn control_body(payload_hex: &str) -> (r: Result<Vec<u8>, ControlReply>)
    ensures
        match r {
            Ok(bytes) => {
                &&& control_hex_fault(payload_hex@) is None
                &&& bytes@ == hexcodec::hex_bytes(encode_utf8(payload_hex@))
                &&& bytes@.len() <= MAX_CONTROL_BODY_BYTES
            },
            Err(reply) => control_hex_fault(payload_hex@) is Some && reply@
                == ControlReplyView::Rejected(control_hex_fault(payload_hex@)->0),
        },
{
    let n: usize = text::len_bytes(payload_hex);
    if n > 2 * MAX_CONTROL_BODY_BYTES {
        let mut t: String = "bad request body: control request too large (".to_owned();
        t.append(text::decimal((n / 2 + n % 2) as u64).as_str());
        t.append(" bytes)");
        proof {
            reveal_strlit("bad request body: control request too large (");
            reveal_strlit("bad request body: ");
            reveal_strlit("control request too large");
            reveal_strlit(" (");
            assert(t@ =~= "bad request body: "@ + protocol::bytes_text(
                "control request too large"@,
                (n / 2 + n % 2) as nat,
            ));
        }
        return Err(ControlReply::Rejected(t));
    }
    match hexcodec::decode(payload_hex) {
        Ok(bytes) => Ok(bytes),
        Err(e) => {
            let mut t: String = "bad request hex: ".to_owned();
            t.append(hexcodec::error_text(e).as_str());
            Err(ControlReply::Rejected(t))
        },
    }
}

/// What comes of a parsed control request.
pub enum ControlStep {
    /// It is answered at once.
    Reply(ControlReply),
    /// It is performed if this capability token is honored.
    Authorize {
        /// The request.
        req: ControlRequest,
        /// The token.
        token: String,
    },
    /// It is performed.
    Perform(ControlRequest),
}

/// What a topic that is gated says to a control request without a token.
pub open spec fn subscribe_refusal() -> Seq<char> {
    "topic requires a pubsub:subscribe capability but none was presented"@
}

/// Whether `step` is what comes of the parsed request `parsed`. The high-water cursor is told to
/// everyone; all else needs a token on a gated topic.
pub open spec fn is_step(
    step: ControlStep,
    parsed: Result<ControlRequest, String>,
    high: Cursor,
    require_cap: bool,
) -> bool {
    match parsed {
        Err(why) => step matches ControlStep::Reply(r) && r@ == ControlReplyView::Rejected(
            "bad request body: "@ + why@,
        ),
        Ok(req) => if req@ is HighCursor {
            step matches ControlStep::Reply(r) && r@ == ControlReplyView::High(high)
        } else {
            match ingest::gate_of(req.token(), require_cap, subscribe_refusal()) {
                GateView::Open => step == ControlStep::Perform(req),
                GateView::Verify(t) => step matches ControlStep::Authorize { req: r, token }
                    && r == req && token@ == t,
                GateView::Refuse(why) => step matches ControlStep::Reply(r) && r@
                    == ControlReplyView::Rejected(why),
            }
        },
    }
}

/// Decides what comes of a parsed request; `high` is the topic's high-water cursor, and
/// `require_cap` tells whether the topic is gated.
pub fn control_step(
    parsed: Result<ControlRequest, String>,
    high: Cursor,
    require_cap: bool,
) -> (step: ControlStep)
    ensures
        is_step(step, parsed, high, require_cap),
{
    let req: ControlRequest = match parsed {
        Ok(req) => req,
        Err(why) => {
            let mut t: String = "bad request body: ".to_owned();
            t.append(why.as_str());
            return ControlStep::Reply(ControlReply::Rejected(t));
        },
    };
    if let ControlRequest::HighCursor { .. } = req {
        return ControlStep::Reply(ControlReply::High(high));
    }
    if !require_cap {
        return ControlStep::Perform(req);
    }
    let token: String = match req.grant() {
        Some(t) => t.to_owned(),
        None => {
            return ControlStep::Reply(
                ControlReply::Rejected(
                    "topic requires a pubsub:subscribe capability but none was presented".to_owned(),
                ),
            );
        },
    };
    ControlStep::Authorize { req, token }
}

/// Decides what comes of a request whose token was judged: it is performed where the token was
/// honored, and rejected with the reason where it was not.
pub fn control_authorized(req: ControlRequest, verdict: Result<(), String>) -> (step: ControlStep)
    ensures
        match verdict {
            Ok(_) => step == ControlStep::Perform(req),
            Err(why) => step matches ControlStep::Reply(r) && r@ == ControlReplyView::Rejected(
                why@,
            ),
        },
{
    match verdict {
        Ok(_) => ControlStep::Perform(req),
        Err(why) => ControlStep::Reply(ControlReply::Rejected(why)),
    }
}

/// The operation that was proposed, and so what is replied once it was accepted or refused.
#[derive(Debug, Clone, PartialEq, Eq)]
pub enum Proposal {
    Create,
    Delete,
    Ack,
    Nack,
    /// A lease, with its outcome.
    Lease(LeaseOutcome),
}

/// What a proposal stands for.
#[verifier::ext_equal]
pub enum ProposalView {
    Create,
    Delete,
    Ack,
    Nack,
    Lease { leased: Seq<(Cursor, u32)>, dead: Seq<Cursor> },
}

impl View for Proposal {
    type V = ProposalView;

    open spec fn view(&self) -> ProposalView {
        match *self {
            Proposal::Create => ProposalView::Create,
            Proposal::Delete => ProposalView::Delete,
            Proposal::Ack => ProposalView::Ack,
            Proposal::Nack => ProposalView::Nack,
            Proposal::Lease(o) => ProposalView::Lease {
                leased: o.leased@,
                dead: o.dead_lettered@,
            },
        }
    }
}

/// What performing a control request takes.
pub enum ControlAction {
    /// Only this reply.
    Reply(ControlReply),
    /// That the registry accepts this operation.
    Propose {
        /// The operation.
        op: SubOp,
        /// What it is.
        then_reply: Proposal,
    },
}

/// What an action stands for.
#[verifier::ext_equal]
pub enum ActionView {
    Reply(ControlReplyView),
    Propose { op: SubOpView, then_reply: ProposalView },
}

impl View for ControlAction {
    type V = ActionView;

    open spec fn view(&self) -> ActionView {
        match *self {
            ControlAction::Reply(r) => ActionView::Reply(r@),
            ControlAction::Propose { op, then_reply } => ActionView::Propose {
                op: op@,
                then_reply: then_reply@,
            },
        }
    }
}

/// A rejection.
pub open spec fn rejected(why: Seq<char>) -> ActionView {
    ActionView::Reply(ControlReplyView::Rejected(why))
}

/// What is said of a subscription that does not exist.
pub open spec fn no_such(name: Seq<char>) -> Seq<char> {
    "no such subscription '"@ + name + "'"@
}

/// Whether `a` is what performing a request takes, given the subscriptions and the log.
pub open spec fn is_action(
    a: ActionView,
    req: ControlView,
    subs: Map<Seq<char>, SubView>,
    log: LogView,
    now: u64,
) -> bool {
    match req {
        ControlView::CreateSubscription { name, policy } => a == (
        if subscription::policy_fault(policy) is Some {
            rejected("invalid policy: "@ + subscription::policy_fault(policy)->0)
        } else if message::topic_fault(name) is Some {
            rejected("invalid subscription name: "@ + message::topic_fault(name)->0)
        } else if subscription::subs_full(subs, name) {
            rejected("subscription limit reached"@)
        } else {
            ActionView::Propose {
                op: SubOpView::Create { name, policy },
                then_reply: ProposalView::Create,
            }
        }),
        ControlView::DeleteSubscription { name } => a == (ActionView::Propose {
            op: SubOpView::Delete { name },
            then_reply: ProposalView::Delete,
        }),
        ControlView::ListSubscriptions => a matches ActionView::Reply(
            ControlReplyView::Subscriptions(names),
        ) && crate::strmap::texts_ascend(names) && names.to_set() == subs.dom(),
        ControlView::HighCursor => a == ActionView::Reply(
            ControlReplyView::High(log.high() as u64),
        ),
        ControlView::Pull { name, max_messages } => if !subs.contains_key(name) {
            a == rejected(no_such(name))
        } else {
            let s = subs[name];
            let plan = s.plan(log.high() as u64, log.floor as u64, now, max_messages as nat);
            if plan.is_empty() {
                a == ActionView::Reply(ControlReplyView::Pulled(Seq::empty()))
            } else {
                a == (ActionView::Propose {
                    op: plan.op(name),
                    then_reply: ProposalView::Lease {
                        leased: plan.leased.map_values(
                            |c: Cursor| (c, (s.attempts_of(c) + 1) as u32),
                        ),
                        dead: plan.dead,
                    },
                })
            }
        },
        ControlView::Ack { name, cursor } => a == (if !subs.contains_key(name) {
            rejected(no_such(name))
        } else {
            ActionView::Propose {
                op: SubOpView::Ack { name, cursor },
                then_reply: ProposalView::Ack,
            }
        }),
        ControlView::Nack { name, cursor } => a == (if !subs.contains_key(name) {
            rejected(no_such(name))
        } else {
            ActionView::Propose {
                op: SubOpView::Nack { name, cursor },
                then_reply: ProposalView::Nack,
            }
        }),
    }
}

/// Whether no counter overflows when a request is performed.
pub open spec fn request_fits(
    req: ControlView,
    subs: Map<Seq<char>, SubView>,
    log: LogView,
    now: u64,
) -> bool {
    req matches ControlView::Pull { name, max_messages } ==> subscription::plan_fits(
        subs,
        name,
        log.high() as u64,
        log.floor as u64,
        now,
        max_messages as nat,
    )
}

/// A rejection that names a subscription that does not exist.
fn reject_no_such(name: &str) -> (a: ControlAction)
    ensures
        a@ == rejected(no_such(name@)),
{
    let mut t: String = "no such subscription '".to_owned();
    t.append(name);
    t.append("'");
    ControlAction::Reply(ControlReply::Rejected(t))
}

/// A rejection that gives a reason.
fn reject_for(what: &str, why: &str) -> (a: ControlAction)
    ensures
        a@ == rejected(what@ + why@),
{
    let mut t: String = what.to_owned();
    t.append(why);
    ControlAction::Reply(ControlReply::Rejected(t))
}

/// Decides what performing a request takes, given the subscriptions and the log.
pub fn control_action(req: ControlRequest, subs: &SubRegistry, log: &TopicLog, now: u64) -> (a:
    ControlAction)
    requires
        request_fits(req@, subs@, log@, now),
    ensures
        is_action(a@, req@, subs@, log@, now),
{
    match try_control_action(req, subs, log, now) {
        Some(a) => a,
        None => ControlAction::Reply(ControlReply::Done),
    }
}

/// As [`control_action`], for any request: `None` where a counter would overflow.
pub fn try_control_action(req: ControlRequest, subs: &SubRegistry, log: &TopicLog, now: u64) -> (r:
    Option<ControlAction>)
    ensures
        r is Some <==> request_fits(req@, subs@, log@, now),
        r is Some ==> is_action(r->0@, req@, subs@, log@, now),
{
    Some(
        match req {
            ControlRequest::CreateSubscription { name, policy, .. } => {
                if let Err(e) = policy.validate() {
                    return Some(reject_for("invalid policy: ", e.text.as_str()));
                }
                if let Err(e) = message::validate_topic(name.as_str()) {
                    return Some(reject_for("invalid subscription name: ", e.text.as_str()));
                }
                if subs.at_capacity(name.as_str()) {
                    return Some(
                        ControlAction::Reply(
                            ControlReply::Rejected("subscription limit reached".to_owned()),
                        ),
                    );
                }
                ControlAction::Propose {
                    op: SubOp::Create { name, policy },
                    then_reply: Proposal::Create,
                }
            },
            ControlRequest::DeleteSubscription { name, .. } => ControlAction::Propose {
                op: SubOp::Delete { name },
                then_reply: Proposal::Delete,
            },
            ControlRequest::ListSubscriptions { .. } => ControlAction::Reply(
                ControlReply::Subscriptions(subs.names()),
            ),
            ControlRequest::HighCursor { .. } => ControlAction::Reply(
                ControlReply::High(log.high_cursor()),
            ),
            ControlRequest::Pull { name, max_messages, .. } => {
                if subs.get(name.as_str()).is_none() {
                    return Some(reject_no_such(name.as_str()));
                }
                match subs.try_plan_lease(
                    name.as_str(),
                    log.high_cursor(),
                    log.floor(),
                    now,
                    max_messages,
                ) {
                    Some(Some((op, outcome))) => ControlAction::Propose {
                        op,
                        then_reply: Proposal::Lease(outcome),
                    },
                    Some(None) => {
                        let none: Vec<LeasedMessage> = Vec::new();
                        assert(none@.map_values(|m: LeasedMessage| m@) =~= Seq::empty());
                        ControlAction::Reply(ControlReply::Pulled(none))
                    },
                    None => {
                        return None;
                    },
                }
            },
            ControlRequest::Ack { name, cursor, .. } => {
                if subs.get(name.as_str()).is_none() {
                    return Some(reject_no_such(name.as_str()));
                }
                ControlAction::Propose {
                    op: SubOp::Ack { name, cursor },
                    then_reply: Proposal::Ack,
                }
            },
            ControlRequest::Nack { name, cursor, .. } => {
                if subs.get(name.as_str()).is_none() {
                    return Some(reject_no_such(name.as_str()));
                }
                ControlAction::Propose {
                    op: SubOp::Nack { name, cursor },
                    then_reply: Proposal::Nack,
                }
            },
        },
    )
}

/// The messages of the leased cursors that the log retains, with the attempt number of each.
pub open spec fn resolved(log: LogView, leased: Seq<(Cursor, u32)>) -> Seq<(MessageView, u32)>
    decreases leased.len(),
{
    if leased.len() == 0 {
        Seq::empty()
    } else {
        let before = resolved(log, leased.drop_last());
        let (c, attempt) = leased.last();
        if log.floor < c <= log.high() {
            before.push((log.messages[c - log.floor - 1], attempt))
        } else {
            before
        }
    }
}

/// The messages of the cursors that the log retains.
pub open spec fn retained(log: LogView, cursors: Seq<Cursor>) -> Seq<MessageView>
    decreases cursors.len(),
{
    if cursors.len() == 0 {
        Seq::empty()
    } else {
        let before = retained(log, cursors.drop_last());
        let c = cursors.last();
        if log.floor < c <= log.high() {
            before.push(log.messages[c - log.floor - 1])
        } else {
            before
        }
    }
}

/// The messages of the leased cursors, from the log.
fn resolve_leases(log: &TopicLog, leased: &Vec<(Cursor, u32)>) -> (r: Vec<LeasedMessage>)
    ensures
        r@.map_values(|m: LeasedMessage| m@) == resolved(log@, leased@),
{
    let ghost look = |m: LeasedMessage| m@;
    let mut r: Vec<LeasedMessage> = Vec::new();
    let mut i: usize = 0;
    assert(r@.map_values(look) =~= Seq::empty());
    while i < leased.len()
        invariant
            i <= leased@.len(),
            look == (|m: LeasedMessage| m@),
            r@.map_values(look) == resolved(log@, leased@.take(i as int)),
        decreases leased@.len() - i,
    {
        assert(leased@.take(i + 1).drop_last() =~= leased@.take(i as int));
        let ghost before = r@;
        let (cursor, attempt): (Cursor, u32) = leased[i];
        if let Some(message) = log.get(cursor) {
            let m: LeasedMessage = LeasedMessage { message, delivery_attempt: attempt };
            r.push(m);
            assert(r@.map_values(look) =~= before.map_values(look).push(m@));
        }
        i = i + 1;
    }
    assert(leased@.take(i as int) =~= leased@);
    r
}

/// The messages of the dead-lettered cursors, from the log.
fn resolve_dead(log: &TopicLog, cursors: &Vec<Cursor>) -> (r: Vec<Message>)
    ensures
        crate::log::views(r@) == retained(log@, cursors@),
{
    let mut r: Vec<Message> = Vec::new();
    let mut i: usize = 0;
    assert(crate::log::views(r@) =~= Seq::empty());
    while i < cursors.len()
        invariant
            i <= cursors@.len(),
            crate::log::views(r@) == retained(log@, cursors@.take(i as int)),
        decreases cursors@.len() - i,
    {
        assert(cursors@.take(i + 1).drop_last() =~= cursors@.take(i as int));
        let ghost before = r@;
        if let Some(m) = log.get(cursors[i]) {
            let ghost v = m@;
            r.push(m);
            assert(crate::log::views(r@) =~= crate::log::views(before).push(v));
        }
        i = i + 1;
    }
    assert(cursors@.take(i as int) =~= cursors@);
    r
}

/// What is said of an operation that the registry refused.
pub open spec fn failure(p: ProposalView, why: Seq<char>) -> Seq<char> {
    match p {
        ProposalView::Create => "create failed: "@ + why,
        ProposalView::Delete => "delete failed: "@ + why,
        ProposalView::Ack => "ack failed: "@ + why,
        ProposalView::Nack => "nack failed: "@ + why,
        ProposalView::Lease { .. } => "lease failed: "@ + why,
    }
}

/// The reply once the registry accepted or refused an operation.
pub open spec fn reply_after(
    p: ProposalView,
    outcome: Result<(), Seq<char>>,
    log: LogView,
) -> ControlReplyView {
    match outcome {
        Err(why) => ControlReplyView::Rejected(failure(p, why)),
        Ok(_) => match p {
            ProposalView::Lease { leased, .. } => ControlReplyView::Pulled(resolved(log, leased)),
            _ => ControlReplyView::Done,
        },
    }
}

/// The messages to route to the dead-letter topic once the registry accepted or refused an
/// operation.
pub open spec fn dead_after(
    p: ProposalView,
    outcome: Result<(), Seq<char>>,
    log: LogView,
) -> Seq<MessageView> {
    match (outcome, p) {
        (Ok(_), ProposalView::Lease { dead, .. }) => retained(log, dead),
        _ => Seq::empty(),
    }
}

/// Decides the reply to a request whose operation the registry accepted or refused, and which
/// messages go to the dead-letter topic.
pub fn control_finish(proposed: Proposal, outcome: Result<(), String>, log: &TopicLog) -> (r: (
    ControlReply,
    Vec<Message>,
))
    ensures
        r.0@ == reply_after(proposed@, crate::caps::verdict_view(outcome), log@),
        crate::log::views(r.1@) == dead_after(
            proposed@,
            crate::caps::verdict_view(outcome),
            log@,
        ),
{
    let none: Vec<Message> = Vec::new();
    assert(crate::log::views(none@) =~= Seq::empty());
    if let Err(why) = outcome {
        let mut t: String = match &proposed {
            Proposal::Create => "create failed: ",
            Proposal::Delete => "delete failed: ",
            Proposal::Ack => "ack failed: ",
            Proposal::Nack => "nack failed: ",
            Proposal::Lease(_) => "lease failed: ",
        }.to_owned();
        t.append(why.as_str());
        return (ControlReply::Rejected(t), none);
    }
    match proposed {
        Proposal::Lease(o) => {
            let dead: Vec<Message> = resolve_dead(log, &o.dead_lettered);
            (ControlReply::Pulled(resolve_leases(log, &o.leased)), dead)
        },
        _ => (ControlReply::Done, none),
    }
}

proof fn lemma_resolved(log: LogView, leased: Seq<(Cursor, u32)>)
    requires
        log.contiguous(),
        forall|i: int|
            0 <= i < leased.len() ==> log.floor < (#[trigger] leased[i]).0 <= log.high(),
    ensures
        resolved(log, leased).len() == leased.len(),
        forall|i: int|
            #![trigger resolved(log, leased)[i]]
            0 <= i < leased.len() ==> resolved(log, leased)[i].0.cursor == leased[i].0 && resolved(
                log,
                leased,
            )[i].1 == leased[i].1,
    decreases leased.len(),
{
    if leased.len() > 0 {
        let head = leased.drop_last();
        assert forall|i: int| 0 <= i < head.len() implies log.floor < (#[trigger] head[i]).0
            <= log.high() by {
            assert(head[i] == leased[i]);
        }
        lemma_resolved(log, head);
        assert(log.floor < leased[leased.len() - 1].0 <= log.high());
    }
}

/// A lease that is planned on a log hands out exactly the messages at the cursors that it leases,
/// in order.
pub proof fn lease_delivers_every_leased_message(log: LogView, s: SubView, now: u64, max: nat)
    requires
        log.contiguous(),
        log.high() <= u64::MAX,
    ensures
        ({
            let plan = s.plan(log.high() as u64, log.floor as u64, now, max);
            let leased = plan.leased.map_values(|c: Cursor| (c, (s.attempts_of(c) + 1) as u32));
            &&& resolved(log, leased).len() == plan.leased.len()
            &&& forall|i: int|
                #![trigger resolved(log, leased)[i]]
                0 <= i < plan.leased.len() ==> resolved(log, leased)[i].0.cursor == plan.leased[i]
        }),
{
    let plan = s.plan(log.high() as u64, log.floor as u64, now, max);
    let leased = plan.leased.map_values(|c: Cursor| (c, (s.attempts_of(c) + 1) as u32));
    subscription_laws::lease_hands_out_only_redeliverable(
        s,
        log.high() as u64,
        log.floor as u64,
        now,
        max,
    );
    assert forall|i: int| 0 <= i < leased.len() implies log.floor < (#[trigger] leased[i]).0
        <= log.high() by {
        assert(plan.leased.contains(plan.leased[i]));
    }
    lemma_resolved(log, leased);
}

/// The high-water cursor is told to everyone, on a gated topic too.
pub proof fn high_cursor_is_told_to_everyone(
    step: ControlStep,
    req: ControlRequest,
    high: Cursor,
    require_cap: bool,
)
    requires
        req@ is HighCursor,
        is_step(step, Ok(req), high, require_cap),
    ensures
        step matches ControlStep::Reply(r) && r@ == ControlReplyView::High(high),
{
}

/// On a gated topic nothing but the high-water cursor is had without a token: a request without one
/// is rejected, and one with a token is not performed before the token was honored.
pub proof fn gated_topic_performs_nothing_unauthorized(
    step: ControlStep,
    req: ControlRequest,
    high: Cursor,
)
    requires
        !(req@ is HighCursor),
        is_step(step, Ok(req), high, true),
    ensures
        !(step is Perform),
        req.token() is None ==> (step matches ControlStep::Reply(r) && r@
            == ControlReplyView::Rejected(subscribe_refusal())),
        req.token() is Some ==> (step matches ControlStep::Authorize { token, .. } && Some(token@)
            == req.token()),
{
}

/// A request that is answered at once changes nothing, and whatever a request proposes is about the
/// subscription that it names.
pub proof fn requests_touch_the_subscription_they_name(
    a: ActionView,
    req: ControlView,
    subs: Map<Seq<char>, SubView>,
    log: LogView,
    now: u64,
)
    requires
        is_action(a, req, subs, log, now),
        a is Propose,
    ensures
        match req {
            ControlView::CreateSubscription { name, .. } => a->op.subject() == name,
            ControlView::DeleteSubscription { name } => a->op.subject() == name,
            ControlView::Pull { name, .. } => a->op.subject() == name,
            ControlView::Ack { name, .. } => a->op.subject() == name,
            ControlView::Nack { name, .. } => a->op.subject() == name,
            _ => false,
        },
{
}

/// No request takes a topic beyond the number of subscriptions that it may hold.
pub proof fn subscriptions_stay_bounded(
    a: ActionView,
    req: ControlView,
    subs: Map<Seq<char>, SubView>,
    log: LogView,
    now: u64,
)
    requires
        subs.dom().finite(),
        subs.dom().len() <= subscription::MAX_SUBSCRIPTIONS,
        is_action(a, req, subs, log, now),
        a is Propose,
    ensures
        subscription::subs_after(subs, a->op).dom().finite(),
        subscription::subs_after(subs, a->op).dom().len() <= subscription::MAX_SUBSCRIPTIONS,
{
    let after = subscription::subs_after(subs, a->op);
    let name = a->op.subject();
    if a->op is Delete {
        assert(after.dom() =~= subs.dom().remove(name));
    } else {
        assert(after.dom() =~= subs.dom() || after.dom() =~= subs.dom().insert(name));
        if subs.contains_key(name) {
            assert(subs.dom().insert(name) =~= subs.dom());
        }
    }
}

/// A lease that is proposed can be applied.
pub proof fn proposed_lease_can_be_applied(
    a: ActionView,
    name: Seq<char>,
    max_messages: usize,
    subs: Map<Seq<char>, SubView>,
    log: LogView,
    now: u64,
)
    requires
        request_fits(ControlView::Pull { name, max_messages }, subs, log, now),
        is_action(a, ControlView::Pull { name, max_messages }, subs, log, now),
        a is Propose,
    ensures
        subscription::op_fits(subs, a->op),
{
    subscription_laws::planned_lease_can_be_applied(
        subs[name],
        log.high() as u64,
        log.floor as u64,
        now,
        max_messages as nat,
        subs,
        name,
    );
}

/// The messages of leased cursors are looked up one by one: a cursor that the log retains gives the
/// message at that place in the log under the attempt number that it was leased with, one that was
/// pruned gives nothing, and a list gives what its parts give, in order.
pub proof fn leases_resolve_one_by_one(
    log: LogView,
    c: Cursor,
    attempt: u32,
    a: Seq<(Cursor, u32)>,
    b: Seq<(Cursor, u32)>,
)
    ensures
        resolved(log, a + b) == resolved(log, a) + resolved(log, b),
        resolved(log, seq![(c, attempt)]) == if log.floor < c <= log.floor + log.messages.len() {
            seq![(log.messages[c - log.floor - 1], attempt)]
        } else {
            Seq::empty()
        },
    decreases b.len(),
{
    let one = seq![(c, attempt)];
    assert(one.drop_last() =~= Seq::empty());
    assert(resolved(log, one.drop_last()) =~= Seq::empty());
    if log.floor < c <= log.floor + log.messages.len() {
        assert(resolved(log, one) =~= seq![(log.messages[c - log.floor - 1], attempt)]);
    }
    if b.len() == 0 {
        assert(a + b =~= a);
        assert(resolved(log, a) + resolved(log, b) =~= resolved(log, a));
    } else {
        leases_resolve_one_by_one(log, c, attempt, a, b.drop_last());
        assert((a + b).drop_last() =~= a + b.drop_last());
        assert(resolved(log, a + b) =~= resolved(log, a) + resolved(log, b));
    }
}

/// The messages of dead-lettered cursors are looked up one by one: a cursor that the log retains gives
/// the message at that place in the log, one that was pruned gives nothing, and a list gives what its
/// parts give, in order.
pub proof fn dead_letters_resolve_one_by_one(
    log: LogView,
    c: Cursor,
    a: Seq<Cursor>,
    b: Seq<Cursor>,
)
    ensures
        retained(log, a + b) == retained(log, a) + retained(log, b),
        retained(log, seq![c]) == if log.floor < c <= log.floor + log.messages.len() {
            seq![log.messages[c - log.floor - 1]]
        } else {
            Seq::empty()
        },
    decreases b.len(),
{
    let one = seq![c];
    assert(one.drop_last() =~= Seq::empty());
    assert(retained(log, one.drop_last()) =~= Seq::empty());
    if log.floor < c <= log.floor + log.messages.len() {
        assert(retained(log, one) =~= seq![log.messages[c - log.floor - 1]]);
    }
    if b.len() == 0 {
        assert(a + b =~= a);
        assert(retained(log, a) + retained(log, b) =~= retained(log, a));
    } else {
        dead_letters_resolve_one_by_one(log, c, a, b.drop_last());
        assert((a + b).drop_last() =~= a + b.drop_last());
        assert(retained(log, a + b) =~= retained(log, a) + retained(log, b));
    }
}

proof fn lemma_retained(log: LogView, cursors: Seq<Cursor>)
    requires
        forall|i: int|
            0 <= i < cursors.len() ==> log.floor < #[trigger] cursors[i] <= log.high(),
    ensures
        retained(log, cursors).len() == cursors.len(),
        forall|i: int|
            #![trigger retained(log, cursors)[i]]
            0 <= i < cursors.len() ==> retained(log, cursors)[i] == log.messages[cursors[i]
                - log.floor - 1],
    decreases cursors.len(),
{
    if cursors.len() > 0 {
        let head = cursors.drop_last();
        assert forall|i: int| 0 <= i < head.len() implies log.floor < #[trigger] head[i]
            <= log.high() by {
            assert(head[i] == cursors[i]);
        }
        lemma_retained(log, head);
        assert(log.floor < cursors[cursors.len() - 1] <= log.high());
    }
}

proof fn lemma_resolved_whole(log: LogView, leased: Seq<(Cursor, u32)>)
    requires
        forall|i: int|
            0 <= i < leased.len() ==> log.floor < (#[trigger] leased[i]).0 <= log.high(),
    ensures
        resolved(log, leased).len() == leased.len(),
        forall|i: int|
            #![trigger resolved(log, leased)[i]]
            0 <= i < leased.len() ==> resolved(log, leased)[i] == (
                log.messages[leased[i].0 - log.floor - 1],
                leased[i].1,
            ),
    decreases leased.len(),
{
    if leased.len() > 0 {
        let head = leased.drop_last();
        assert forall|i: int| 0 <= i < head.len() implies log.floor < (#[trigger] head[i]).0
            <= log.high() by {
            assert(head[i] == leased[i]);
        }
        lemma_resolved_whole(log, head);
        assert(log.floor < leased[leased.len() - 1].0 <= log.high());
    }
}

/// A pull leases and delivers. Once the operation that it proposes is accepted, the reply holds, in
/// the order of the log, the messages that wait and may be delivered once more, each under the number
/// of its delivery; every one of them where there are fewer than asked for and than 1000. The messages
/// that wait and were delivered as often as allowed go to the dead-letter topic, every one of them
/// that stands before the last message of a full reply or, where it is not full, every one. What is in
/// the reply is leased for the ack deadline, and what went to the dead-letter topic is passed over
/// for good.
pub proof fn pull_leases_and_delivers(
    a: ActionView,
    name: Seq<char>,
    max_messages: usize,
    subs: Map<Seq<char>, SubView>,
    log: LogView,
    now: u64,
    c: Cursor,
)
    requires
        log.contiguous(),
        log.high() <= u64::MAX,
        subs.contains_key(name),
        request_fits(ControlView::Pull { name, max_messages }, subs, log, now),
        is_action(a, ControlView::Pull { name, max_messages }, subs, log, now),
        a is Propose,
    ensures
        ({
            let s = subs[name];
            let high = (log.floor + log.messages.len()) as u64;
            let floor = log.floor as u64;
            let t = subscription::subs_after(subs, a->op)[name];
            let room: int = if max_messages < 1000 {
                max_messages as int
            } else {
                1000
            };
            let waiting = subscription_laws::waits(s, c, high, floor, now);
            let dead = dead_after(a->then_reply, Ok(()), log);
            reply_after(a->then_reply, Ok(()), log) matches ControlReplyView::Pulled(msgs) && {
                &&& msgs.len() <= room
                &&& forall|i: int, j: int|
                    0 <= i < j < msgs.len() ==> (#[trigger] msgs[i]).0.cursor < (
                    #[trigger] msgs[j]).0.cursor
                &&& forall|i: int|
                    0 <= i < msgs.len() ==> {
                        let m = (#[trigger] msgs[i]).0;
                        &&& subscription_laws::waits(s, m.cursor, high, floor, now)
                        &&& !subscription_laws::used_up(s, m.cursor)
                        &&& m == log.messages[m.cursor - log.floor - 1]
                        &&& msgs[i].1 == subscription_laws::recorded_attempts(s, m.cursor) + 1
                        &&& t.leases.contains_key(m.cursor)
                        &&& t.leases[m.cursor].expires_at == subscription_laws::held_until(s.policy, now)
                        &&& subscription_laws::recorded_attempts(t, m.cursor) == msgs[i].1
                    }
                &&& forall|i: int, j: int|
                    0 <= i < j < dead.len() ==> (#[trigger] dead[i]).cursor < (
                    #[trigger] dead[j]).cursor
                &&& forall|i: int|
                    0 <= i < dead.len() ==> {
                        let m = #[trigger] dead[i];
                        &&& subscription_laws::waits(s, m.cursor, high, floor, now)
                        &&& subscription_laws::used_up(s, m.cursor)
                        &&& m == log.messages[m.cursor - log.floor - 1]
                        &&& m.cursor <= t.acked || t.dead.contains(m.cursor)
                    }
                &&& waiting && (msgs.len() < room || room > 0 && c <= msgs.last().0.cursor) ==> if subscription_laws::used_up(s, c) {
                    exists|i: int| 0 <= i < dead.len() && (#[trigger] dead[i]).cursor == c
                } else {
                    exists|i: int| 0 <= i < msgs.len() && (#[trigger] msgs[i]).0.cursor == c
                }
            }
        }),
{
    let s = subs[name];
    let high = log.high() as u64;
    let floor = log.floor as u64;
    let max = max_messages as nat;
    let plan = s.plan(high, floor, now, max);
    let leased = plan.leased.map_values(|c: Cursor| (c, (s.attempts_of(c) + 1) as u32));
    let msgs = resolved(log, leased);
    let dead = retained(log, plan.dead);
    let t = subscription::subs_after(subs, a->op)[name];
    assert(t == subscription_laws::after_plan(s, plan));
    assert(a->then_reply == (ProposalView::Lease { leased, dead: plan.dead }));
    subscription_laws::lease_takes_the_first_that_wait(s, high, floor, now, max, c);
    assert forall|i: int| 0 <= i < plan.leased.len() implies subscription_laws::waits(
        s,
        #[trigger] plan.leased[i],
        high,
        floor,
        now,
    ) && !subscription_laws::used_up(s, plan.leased[i]) && s.attempts_of(plan.leased[i]) < u32::MAX by {
        let d = plan.leased[i];
        assert(plan.leased.contains(d));
        subscription_laws::lease_takes_the_first_that_wait(s, high, floor, now, max, d);
        subscription_laws::lease_counts_fit(s, high, floor, now, max, d);
    }
    assert forall|i: int| 0 <= i < plan.dead.len() implies subscription_laws::waits(
        s,
        #[trigger] plan.dead[i],
        high,
        floor,
        now,
    ) && subscription_laws::used_up(s, plan.dead[i]) by {
        assert(plan.dead.contains(plan.dead[i]));
        subscription_laws::lease_takes_the_first_that_wait(s, high, floor, now, max, plan.dead[i]);
    }
    assert forall|i: int| 0 <= i < leased.len() implies log.floor < (#[trigger] leased[i]).0
        <= log.high() by {
        assert(subscription_laws::waits(s, plan.leased[i], high, floor, now));
    }
    assert forall|i: int| 0 <= i < plan.dead.len() implies log.floor < #[trigger] plan.dead[i]
        <= log.high() by {
        assert(subscription_laws::waits(s, plan.dead[i], high, floor, now));
    }
    lemma_resolved_whole(log, leased);
    lemma_retained(log, plan.dead);
    assert forall|i: int| 0 <= i < msgs.len() implies (#[trigger] msgs[i]).0.cursor
        == plan.leased[i] && msgs[i].0 == log.messages[plan.leased[i] - log.floor - 1] && msgs[i].1
        == s.attempts_of(plan.leased[i]) + 1 && t.leases.contains_key(plan.leased[i])
        && t.leases[plan.leased[i]].expires_at == subscription_laws::held_until(s.policy, now) && subscription_laws::recorded_attempts(
        t,
        plan.leased[i],
    ) == msgs[i].1 by {
        let d = plan.leased[i];
        assert(plan.leased.contains(d));
        assert(leased[i] == (d, (s.attempts_of(d) + 1) as u32));
        assert(subscription_laws::waits(s, d, high, floor, now));
        subscription_laws::applied_lease_takes_effect(s, high, floor, now, max, d);
    }
    assert forall|i: int| 0 <= i < dead.len() implies (#[trigger] dead[i]).cursor == plan.dead[i]
        && dead[i] == log.messages[plan.dead[i] - log.floor - 1] && (plan.dead[i] <= t.acked
        || t.dead.contains(plan.dead[i])) by {
        let d = plan.dead[i];
        assert(plan.dead.contains(d));
        assert(subscription_laws::waits(s, d, high, floor, now));
        subscription_laws::applied_lease_takes_effect(s, high, floor, now, max, d);
    }
    if plan.leased.contains(c) {
        let j = choose|j: int| 0 <= j < plan.leased.len() && plan.leased[j] == c;
        assert(msgs[j].0.cursor == c);
    }
    if plan.dead.contains(c) {
        let j = choose|j: int| 0 <= j < plan.dead.len() && plan.dead[j] == c;
        assert(dead[j].cursor == c);
    }
    if msgs.len() > 0 {
        assert(msgs[msgs.len() - 1].0.cursor == plan.leased[msgs.len() - 1]);
    }
}

/// After an accepted lease the messages to route to the dead-letter topic are exactly those of the
/// dead-lettered cursors: as many as the lease dead-letters, the i-th one being the message of the log
/// at the i-th of them.
pub proof fn every_dead_letter_is_routed(
    log: LogView,
    s: SubView,
    now: u64,
    max: nat,
    leased: Seq<(Cursor, u32)>,
)
    requires
        log.contiguous(),
        log.high() <= u64::MAX,
    ensures
        ({
            let cursors = s.plan(log.high() as u64, log.floor as u64, now, max).dead;
            let routed = dead_after(ProposalView::Lease { leased, dead: cursors }, Ok(()), log);
            &&& routed.len() == cursors.len()
            &&& forall|i: int|
                0 <= i < cursors.len() ==> (#[trigger] routed[i]).cursor == cursors[i] && routed[i]
                    == log.messages[cursors[i] - log.floor - 1]
        }),
{
    let high = log.high() as u64;
    let floor = log.floor as u64;
    let cursors = s.plan(high, floor, now, max).dead;
    assert forall|i: int| 0 <= i < cursors.len() implies log.floor < #[trigger] cursors[i]
        <= log.high() by {
        assert(cursors.contains(cursors[i]));
        subscription_laws::lease_takes_the_first_that_wait(s, high, floor, now, max, cursors[i]);
    }
    lemma_retained(log, cursors);
}

/// A pull of a subscription that does not exist is rejected; one that is answered at once delivers
/// nothing, and that only where no message waits or none is asked for.
pub proof fn pull_without_a_lease_delivers_nothing(
    a: ActionView,
    name: Seq<char>,
    max_messages: usize,
    subs: Map<Seq<char>, SubView>,
    log: LogView,
    now: u64,
    c: Cursor,
)
    requires
        log.high() <= u64::MAX,
        is_action(a, ControlView::Pull { name, max_messages }, subs, log, now),
    ensures
        !subs.contains_key(name) ==> a matches ActionView::Reply(ControlReplyView::Rejected(_)),
        subs.contains_key(name) && a is Reply ==> {
            &&& a->Reply_0 matches ControlReplyView::Pulled(msgs) && msgs.len() == 0
            &&& max_messages == 0 || !subscription_laws::waits(
                subs[name],
                c,
                (log.floor + log.messages.len()) as u64,
                log.floor as u64,
                now,
            )
        },
{
    if subs.contains_key(name) {
        subscription_laws::lease_takes_the_first_that_wait(
            subs[name],
            log.high() as u64,
            log.floor as u64,
            now,
            max_messages as nat,
            c,
        );
    }
}

/// A nack releases the message: once the operation that is proposed is applied, nothing is settled or
/// counted that was not, no other lease changes, and the message, where it is not settled, waits at
/// any time.
pub proof fn nack_request_releases_the_message(
    a: ActionView,
    name: Seq<char>,
    cursor: Cursor,
    subs: Map<Seq<char>, SubView>,
    log: LogView,
    now: u64,
    later: u64,
    d: Cursor,
)
    requires
        subs.contains_key(name),
        is_action(a, ControlView::Nack { name, cursor }, subs, log, now),
    ensures
        a is Propose,
        ({
            let s = subs[name];
            let after = subscription::subs_after(subs, a->op);
            let t = after[name];
            &&& after.dom() == subs.dom()
            &&& t.acked == s.acked && t.dead == s.dead && t.acked_set == s.acked_set
            &&& t.attempts == s.attempts && t.policy == s.policy
            &&& d != cursor ==> t.leases.contains_key(d) == s.leases.contains_key(d) && (
            s.leases.contains_key(d) ==> t.leases[d] == s.leases[d])
            &&& s.leases.contains_key(cursor) ==> t.leases.contains_key(cursor)
            &&& s.acked < cursor && !s.dead.contains(cursor) && !s.acked_set.contains(cursor)
                ==> subscription_laws::waits(t, cursor, cursor, (cursor - 1) as u64, later)
        }),
{
    let s = subs[name];
    subscription_laws::nack_releases_one_message(s, cursor, d, cursor, 0, later);
    assert(subscription::subs_after(subs, a->op).dom() =~= subs.dom());
}

/// An ack settles the message: once the operation that is proposed is applied, it is settled, with no
/// lease and no count, so that no lease ever hands it out again; of every other message it stays
/// whether it is settled, and so do its lease and its count.
pub proof fn ack_request_settles_the_message(
    a: ActionView,
    name: Seq<char>,
    cursor: Cursor,
    subs: Map<Seq<char>, SubView>,
    log: LogView,
    now: u64,
    later: u64,
    high: Cursor,
    floor: Cursor,
    d: Cursor,
)
    requires
        subs.contains_key(name),
        is_action(a, ControlView::Ack { name, cursor }, subs, log, now),
    ensures
        a is Propose,
        ({
            let s = subs[name];
            let after = subscription::subs_after(subs, a->op);
            let t = after[name];
            &&& after.dom() == subs.dom()
            &&& cursor <= t.acked || t.acked_set.contains(cursor)
            &&& !t.leases.contains_key(cursor) && !t.attempts.contains_key(cursor)
            &&& !subscription_laws::waits(t, cursor, high, floor, later)
            &&& t.policy == s.policy
            &&& d != cursor ==> {
                &&& subscription_laws::waits(t, d, high, floor, later) == subscription_laws::waits(s, d, high, floor, later)
                &&& t.leases.contains_key(d) == s.leases.contains_key(d)
                &&& s.leases.contains_key(d) ==> t.leases[d] == s.leases[d]
                &&& subscription_laws::recorded_attempts(t, d) == subscription_laws::recorded_attempts(s, d)
            }
        }),
{
    let s = subs[name];
    subscription_laws::ack_settles_one_message(s, cursor, d);
    subscription_laws::ack_settles_one_message(s, cursor, cursor);
    assert(subscription::subs_after(subs, a->op).dom() =~= subs.dom());
}

/// Acks and nacks of a subscription that does not exist are rejected.
pub proof fn nothing_is_acked_on_a_missing_subscription(
    a: ActionView,
    name: Seq<char>,
    cursor: Cursor,
    subs: Map<Seq<char>, SubView>,
    log: LogView,
    now: u64,
)
    requires
        !subs.contains_key(name),
        is_action(a, ControlView::Ack { name, cursor }, subs, log, now) || is_action(
            a,
            ControlView::Nack { name, cursor },
            subs,
            log,
            now,
        ),
    ensures
        a matches ActionView::Reply(ControlReplyView::Rejected(_)),
{
}

/// A subscription is created exactly where its policy and its name are accepted and it exists already
/// or there is room for one more of 10,000; it then has the policy, and what it had done before. Else
/// the request is rejected.
pub proof fn create_request_creates(
    a: ActionView,
    name: Seq<char>,
    policy: SubscriptionPolicy,
    subs: Map<Seq<char>, SubView>,
    log: LogView,
    now: u64,
)
    requires
        subs.dom().finite(),
        is_action(a, ControlView::CreateSubscription { name, policy }, subs, log, now),
    ensures
        a is Propose <==> 1 <= policy.ack_deadline_secs <= 600 && message::topic_fault(name) is None
            && (subs.contains_key(name) || subs.dom().len() < 10_000),
        a is Propose || (a matches ActionView::Reply(ControlReplyView::Rejected(_))),
        a is Propose ==> {
            let after = subscription::subs_after(subs, a->op);
            &&& after.dom() == subs.dom().insert(name)
            &&& after[name].policy == policy
            &&& subs.contains_key(name) ==> after[name].acked == subs[name].acked
                && after[name].leases == subs[name].leases && after[name].attempts
                == subs[name].attempts && after[name].dead == subs[name].dead
                && after[name].acked_set == subs[name].acked_set
            &&& !subs.contains_key(name) ==> after[name].acked == 0
        },
{
    if a is Propose {
        assert(subscription::subs_after(subs, a->op).dom() =~= subs.dom().insert(name));
    }
}

/// A deletion is always proposed, and takes away the subscription that it names and nothing else.
pub proof fn delete_request_deletes(
    a: ActionView,
    name: Seq<char>,
    subs: Map<Seq<char>, SubView>,
    log: LogView,
    now: u64,
)
    requires
        is_action(a, ControlView::DeleteSubscription { name }, subs, log, now),
    ensures
        a is Propose,
        subscription::subs_after(subs, a->op) == subs.remove(name),
{
    assert(subscription::subs_after(subs, a->op) =~= subs.remove(name));
}

/// The list of subscriptions holds the name of each one once, and no other; the high-water cursor is
/// how many messages were ever appended. Asking for either changes nothing.
pub proof fn questions_are_answered(
    a: ActionView,
    b: ActionView,
    subs: Map<Seq<char>, SubView>,
    log: LogView,
    now: u64,
    name: Seq<char>,
)
    requires
        log.high() <= u64::MAX,
        is_action(a, ControlView::ListSubscriptions, subs, log, now),
        is_action(b, ControlView::HighCursor, subs, log, now),
    ensures
        a matches ActionView::Reply(ControlReplyView::Subscriptions(names)) && names.no_duplicates()
            && (names.contains(name) <==> subs.contains_key(name)),
        b matches ActionView::Reply(ControlReplyView::High(high)) && high == log.floor
            + log.messages.len(),
{
    let names = a->Reply_0->Subscriptions_0;
    assert forall|i: int, j: int| 0 <= i < names.len() && 0 <= j < names.len() && i != j implies names[i]
        != names[j] by {
        crate::strmap::text_before_irreflexive(names[i]);
    }
    assert(names.to_set().contains(name) == subs.dom().contains(name));
}

/// What is proposed is answered for what it is. Where it was accepted, a creation, a deletion, an ack
/// and a nack are done and route nothing; where it was refused, the request is rejected with the
/// reason, and nothing is delivered or routed.
pub proof fn proposals_are_answered(
    a: ActionView,
    req: ControlView,
    subs: Map<Seq<char>, SubView>,
    log: LogView,
    now: u64,
    why: Seq<char>,
)
    requires
        is_action(a, req, subs, log, now),
        a is Propose,
    ensures
        !(req is Pull) ==> reply_after(a->then_reply, Ok(()), log) == ControlReplyView::Done
            && dead_after(a->then_reply, Ok(()), log).len() == 0,
        reply_after(a->then_reply, Err(why), log) matches ControlReplyView::Rejected(t) && t.len()
            >= why.len() && t.skip(t.len() - why.len()) == why,
        dead_after(a->then_reply, Err(why), log).len() == 0,
{
    let t = failure(a->then_reply, why);
    assert(t.skip(t.len() - why.len()) =~= why);
}

/// An open topic performs a request as it is; a gated one hands it on, as it is, with its token; and
/// a body that does not parse is rejected with the reason.
pub proof fn requests_are_taken_as_they_are(
    step: ControlStep,
    parsed: Result<ControlRequest, String>,
    high: Cursor,
    require_cap: bool,
)
    requires
        is_step(step, parsed, high, require_cap),
    ensures
        match parsed {
            Ok(req) => !(req@ is HighCursor) ==> {
                &&& !require_cap ==> step == ControlStep::Perform(req)
                &&& require_cap && req.token() is Some ==> (step matches ControlStep::Authorize {
                    req: r,
                    token,
                } && r == req && token@ == req.token()->0)
                &&& step is Perform ==> step->Perform_0 == req
            },
            Err(why) => step matches ControlStep::Reply(ControlReply::Rejected(t)) && t@
                == "bad request body: "@ + why@,
        },
{
}

/// The token of a request is the one that it carries.
pub proof fn requests_carry_their_token(
    name: String,
    policy: SubscriptionPolicy,
    max_messages: usize,
    cursor: Cursor,
    grant: Option<String>,
)
    ensures
        ({
            let t = match grant {
                Some(s) => Some(s@),
                None => None,
            };
            &&& (ControlRequest::CreateSubscription { name, policy, grant }).token() == t
            &&& (ControlRequest::DeleteSubscription { name, grant }).token() == t
            &&& (ControlRequest::ListSubscriptions { grant }).token() == t
            &&& (ControlRequest::HighCursor { grant }).token() == t
            &&& (ControlRequest::Pull { name, max_messages, grant }).token() == t
            &&& (ControlRequest::Ack { name, cursor, grant }).token() == t
            &&& (ControlRequest::Nack { name, cursor, grant }).token() == t
        }),
{
}

/// Nothing but a counter at its end keeps a request from being performed.
pub proof fn requests_can_be_performed(
    req: ControlView,
    subs: Map<Seq<char>, SubView>,
    log: LogView,
    now: u64,
)
    requires
        log.high() < 0xffff_ffff_ffff_ffff,
        req matches ControlView::Pull { name, .. } ==> subs.contains_key(name) ==> {
            &&& subscription_laws::within(subs[name], log.high() as u64)
            &&& forall|c: Cursor| #[trigger]
                subs[name].attempts.contains_key(c) ==> subs[name].attempts[c] < 0xffff_ffff
        },
    ensures
        request_fits(req, subs, log, now),
{
    if let ControlView::Pull { name, max_messages } = req {
        subscription_laws::lease_can_be_planned(
            subs,
            name,
            log.high() as u64,
            log.floor as u64,
            now,
            max_messages as nat,
        );
    }
}

/// The body of a control request is admitted in hex exactly where it is of at most 64 KiB.
pub proof fn control_bodies_are_admitted(body: Seq<u8>)
    ensures
        control_hex_fault(hexcodec::hex_text(body)) is None <==> body.len() <= 65_536,
        hexcodec::hex_bytes(encode_utf8(hexcodec::hex_text(body))) == body,
{
    hexcodec::hex_round_trips(body);
    hexcodec::hex_text_length(body);
}

/// Cursors that the log retains are all resolved: each leased one to its message under its number, each
/// dead-lettered one to its message, in order.
pub proof fn retained_cursors_all_resolve(
    log: LogView,
    leased: Seq<(Cursor, u32)>,
    dead: Seq<Cursor>,
)
    requires
        log.contiguous(),
        forall|i: int|
            0 <= i < leased.len() ==> log.floor < (#[trigger] leased[i]).0 <= log.high(),
        forall|i: int| 0 <= i < dead.len() ==> log.floor < #[trigger] dead[i] <= log.high(),
    ensures
        resolved(log, leased).len() == leased.len(),
        retained(log, dead).len() == dead.len(),
        forall|i: int|
            #![trigger resolved(log, leased)[i]]
            0 <= i < leased.len() ==> resolved(log, leased)[i] == (
                log.messages[leased[i].0 - log.floor - 1],
                leased[i].1,
            ) && resolved(log, leased)[i].0.cursor == leased[i].0,
        forall|i: int|
            #![trigger retained(log, dead)[i]]
            0 <= i < dead.len() ==> retained(log, dead)[i] == log.messages[dead[i] - log.floor - 1]
                && retained(log, dead)[i].cursor == dead[i],
{
    lemma_resolved_whole(log, leased);
    lemma_resolved(log, leased);
    lemma_retained(log, dead);
    assert forall|i: int|
        #![trigger retained(log, dead)[i]]
        0 <= i < dead.len() implies retained(log, dead)[i] == log.messages[dead[i] - log.floor - 1]
        && retained(log, dead)[i].cursor == dead[i] by {
        assert(log.floor < dead[i] <= log.high());
    }
}

} // verus!
