//! What the guards decide: whether a transition may fire, which one fires, where it leads,
//! whether a state loops, which links are shown, and which outcomes are met.

use vstd::prelude::*;

use crate::json::{number, obj, views, Json, JsonMap, JsonView, Members};
use crate::model::{
    audit_entry, entry, Acting, ActingView, AuditView, InstanceView, Principal, PrincipalView,
    WorkflowInstance,
};
use crate::runtime::context::{
    clear_while_iter, counter_fault, iter_slot, read_while_iter, rounds, with_member,
    without_member, write_while_iter,
};
use crate::runtime::effects::{copy_values, AuditMode, GuardsReply, GuardsView};
use crate::runtime::links::{find_state, state_def, text_or};
use crate::runtime::schema::{required_str, text_at};
use crate::runtime::script::{
    first, reply_at, reply_views, rest, sound, Effect, EffectView, FaultView, Reply, ReplyView,
    Step, StepView,
};
use crate::text::{decimal, decimal_text, opt_string};

verus! {

/// The guards of a transition.
pub open spec fn guards_of(t: JsonView) -> Seq<JsonView> {
    match t.get_array("guards"@) {
        Some(a) => a,
        None => Seq::empty(),
    }
}

fn collect_guards(t: &Json) -> (r: Vec<Json>)
    ensures
        views(r@) == guards_of(t@),
{
    match t.get_array("guards") {
        Some(a) => copy_values(a),
        None => {
            let none: Vec<Json> = Vec::new();
            assert(views(none@) =~= Seq::empty());
            none
        },
    }
}

/// No arguments.
pub open spec fn empty_object() -> JsonView {
    JsonView::Object(Seq::empty())
}

/// The question to one guard.
pub open spec fn ask(
    guard: JsonView,
    i: InstanceView,
    arguments: JsonView,
    principal: PrincipalView,
) -> EffectView {
    EffectView::AskGuard { guard, instance: i, arguments, principal }
}

fn make_ask(guard: &Json, i: &WorkflowInstance, arguments: &Json, principal: &Principal) -> (r:
    Effect)
    ensures
        r@ == ask(guard@, i@, arguments@, principal@),
{
    Effect::AskGuard {
        principal: principal.clone(),
        guard: guard.clone(),
        instance: i.clone(),
        arguments: arguments.clone(),
    }
}

/// What the record of a transition keeps of a guard.
pub open spec fn guard_note(guard: JsonView, pass: bool) -> JsonView {
    obj().with(
        "kind"@,
        JsonView::Str(text_or(guard.get_str("kind"@), Seq::empty())),
    ).with("result"@, JsonView::Bool(pass)).json()
}

fn make_guard_note(guard: &Json, pass: bool) -> (r: Json)
    ensures
        r@ == guard_note(guard@, pass),
{
    let kind = match guard.get_str("kind") {
        Some(k) => k.to_owned(),
        None => {
            let s = String::new();
            assert(s@ =~= Seq::empty());
            s
        },
    };
    Json::Object(
        JsonMap::new().with("kind", Json::Str(kind)).with("result", Json::Bool(pass)),
    )
}

/// The entry of an asked guard.
pub open spec fn asked_entry(
    i: InstanceView,
    who: ActingView,
    k: int,
    guard: JsonView,
    pass: bool,
) -> AuditView {
    entry(
        "guard.evaluated"@,
        i.id,
        None,
        Some(who.correlation_id),
        obj().with("guardIndex"@, number(k as u64)).with("guard"@, guard).with(
            "passed"@,
            JsonView::Bool(pass),
        ).m,
    )
}

/// How a guard that could not be asked ends the questions.
pub open spec fn faulted(f: FaultView) -> GuardsView {
    if f.unset_slot {
        GuardsView::UnsetSlot(f.message)
    } else {
        GuardsView::Broken(f.message)
    }
}

/// The guards of a transition from the `k`th on, one after another: the first that does not
/// pass ends the questions. Every answer is written to the audit trail before the next
/// question.
pub open spec fn guards_from(
    guards: Seq<JsonView>,
    k: int,
    evaluated: Seq<JsonView>,
    i: InstanceView,
    arguments: JsonView,
    who: ActingView,
    r: Seq<ReplyView>,
) -> StepView<GuardsView>
    decreases guards.len() - k,
{
    if k >= guards.len() {
        StepView::Done(GuardsView::Judged { pass: true, evaluated, diagnostic: None })
    } else {
        match first(r) {
            None => StepView::Do(ask(guards[k], i, arguments, who.principal)),
            Some(ReplyView::Judged(Err(f))) => StepView::Done(faulted(f)),
            Some(ReplyView::Judged(Ok((pass, diagnostic)))) => match first(r.drop_first()) {
                None => StepView::Do(
                    EffectView::Audit {
                        event: asked_entry(i, who, k, guards[k], pass),
                        mode: AuditMode::Required,
                    },
                ),
                Some(ReplyView::Done(Err(e))) => StepView::Done(GuardsView::Broken(e)),
                Some(ReplyView::Done(Ok(_))) => {
                    let all = evaluated.push(guard_note(guards[k], pass));
                    if pass {
                        guards_from(
                            guards,
                            k + 1,
                            all,
                            i,
                            arguments,
                            who,
                            r.drop_first().drop_first(),
                        )
                    } else {
                        StepView::Done(
                            GuardsView::Judged { pass: false, evaluated: all, diagnostic },
                        )
                    }
                },
                _ => StepView::Misfit,
            },
            _ => StepView::Misfit,
        }
    }
}

/// Asks the guards of a transition, in their order.
pub fn guards_pass(
    transition: &Json,
    instance: &WorkflowInstance,
    arguments: &Json,
    who: &Acting,
    replies: &Vec<Reply>,
) -> (r: Step<GuardsReply>)
    requires
        sound(replies@),
    ensures
        r.seen(|g: GuardsReply| g@) == guards_from(
            guards_of(transition@),
            0,
            Seq::empty(),
            instance@,
            arguments@,
            who@,
            reply_views(replies@),
        ),
{
    let guards = collect_guards(transition);
    let ghost gs = guards_of(transition@);
    let mut evaluated: Vec<Json> = Vec::new();
    let mut at: usize = 0;
    let mut k: usize = 0;
    let ghost goal = guards_from(
        gs,
        0,
        Seq::empty(),
        instance@,
        arguments@,
        who@,
        reply_views(replies@),
    );
    proof {
        reveal(rest);
        assert(rest(replies@, 0) =~= reply_views(replies@));
        assert(views(evaluated@) =~= Seq::empty());
    }
    while k < guards.len()
        invariant
            k <= guards@.len(),
            at <= replies@.len(),
            sound(replies@),
            gs == guards_of(transition@),
            views(guards@) == gs,
            goal == guards_from(
                gs,
                0,
                Seq::empty(),
                instance@,
                arguments@,
                who@,
                reply_views(replies@),
            ),
            guards_from(
                gs,
                k as int,
                views(evaluated@),
                instance@,
                arguments@,
                who@,
                rest(replies@, at as int),
            ) == goal,
        decreases guards@.len() - k,
    {
        assert(gs.len() == guards@.len());
        assert(gs[k as int] == guards@[k as int]@);
        match reply_at(replies, at) {
            None => {
                return Step::Do(make_ask(&guards[k], instance, arguments, &who.principal));
            },
            Some(Reply::Judged(Err(f))) => {
                if f.unset_slot {
                    return Step::Done(GuardsReply::UnsetSlot(f.message.clone()));
                }
                return Step::Done(GuardsReply::Broken(f.message.clone()));
            },
            Some(Reply::Judged(Ok((pass, diagnostic)))) => match reply_at(replies, at + 1) {
                None => {
                    let payload = JsonMap::new().with("guardIndex", Json::uint(k as u64)).with(
                        "guard",
                        guards[k].clone(),
                    ).with("passed", Json::Bool(*pass));
                    return Step::Do(
                        Effect::Audit {
                            event: audit_entry(
                                "guard.evaluated",
                                instance.id.as_str(),
                                None,
                                Some(who.correlation_id.as_str()),
                                payload,
                            ),
                            mode: AuditMode::Required,
                        },
                    );
                },
                Some(Reply::Done(Err(e))) => {
                    return Step::Done(GuardsReply::Broken(e.clone()));
                },
                Some(Reply::Done(Ok(_))) => {
                    let ghost before = evaluated@;
                    let note = make_guard_note(&guards[k], *pass);
                    evaluated.push(note);
                    assert(views(evaluated@) =~= views(before).push(note@));
                    if !*pass {
                        return Step::Done(
                            GuardsReply::Judged {
                                pass: false,
                                evaluated,
                                diagnostic: crate::run_env::copy_opt(diagnostic),
                            },
                        );
                    }
                    at = at + 2;
                    k = k + 1;
                },
                Some(_) => {
                    return Step::Misfit;
                },
            },
            Some(_) => {
                return Step::Misfit;
            },
        }
    }
    assert(gs.len() == guards@.len());
    Step::Done(GuardsReply::Judged { pass: true, evaluated, diagnostic: None })
}

/// How an ordinary text result is seen.
pub open spec fn text_result(x: Result<String, String>) -> Result<Seq<char>, Seq<char>> {
    match x {
        Ok(s) => Ok(s@),
        Err(e) => Err(e@),
    }
}

/// The entry of a branch that was taken.
pub open spec fn branched_entry(
    i: InstanceView,
    who: ActingView,
    k: int,
    target: Seq<char>,
) -> AuditView {
    entry(
        "transition.branched"@,
        i.id,
        Some(who.principal.subject),
        Some(who.correlation_id),
        obj().with("branchIndex"@, number(k as u64)).with(
            "fromState"@,
            JsonView::Str(i.state),
        ).with("toState"@, JsonView::Str(target)).m,
    )
}

/// The target of a transition by its branches from the `k`th on: the first whose guard
/// passes, else the declared one. A branch without a guard or a target is passed over.
pub open spec fn branch_from(
    branches: Seq<JsonView>,
    k: int,
    declared: Seq<char>,
    i: InstanceView,
    arguments: JsonView,
    who: ActingView,
    r: Seq<ReplyView>,
) -> StepView<Result<Seq<char>, Seq<char>>>
    decreases branches.len() - k,
{
    if k >= branches.len() {
        StepView::Done(Ok(declared))
    } else {
        match (branches[k].get("when"@), branches[k].get_str("target"@)) {
            (Some(when), Some(target)) => match first(r) {
                None => StepView::Do(ask(when, i, arguments, who.principal)),
                Some(ReplyView::Judged(Err(f))) => StepView::Done(Err(f.message)),
                Some(ReplyView::Judged(Ok((pass, _)))) => if pass {
                    match first(r.drop_first()) {
                        None => StepView::Do(
                            EffectView::Audit {
                                event: branched_entry(i, who, k, target),
                                mode: AuditMode::SelfEvent,
                            },
                        ),
                        Some(ReplyView::Done(_)) => StepView::Done(Ok(target)),
                        _ => StepView::Misfit,
                    }
                } else {
                    branch_from(
                        branches,
                        k + 1,
                        declared,
                        i,
                        arguments,
                        who,
                        r.drop_first(),
                    )
                },
                _ => StepView::Misfit,
            },
            _ => branch_from(branches, k + 1, declared, i, arguments, who, r),
        }
    }
}

/// Where a transition leads. It has to declare a target.
pub open spec fn target_of(
    t: JsonView,
    i: InstanceView,
    arguments: JsonView,
    who: ActingView,
    r: Seq<ReplyView>,
) -> StepView<Result<Seq<char>, Seq<char>>> {
    match text_at(t, "/target"@) {
        None => StepView::Done(Err("required string missing at "@ + "/target"@)),
        Some(declared) => match t.get_array("branches"@) {
            None => StepView::Done(Ok(declared)),
            Some(branches) => branch_from(
                branches,
                0,
                declared,
                i,
                arguments,
                who,
                r,
            ),
        },
    }
}

/// Chooses where a transition leads: to the target of the first branch whose guard passes,
/// else to its declared target.
pub fn resolve_target(
    transition: &Json,
    instance: &WorkflowInstance,
    arguments: &Json,
    who: &Acting,
    replies: &Vec<Reply>,
) -> (r: Step<Result<String, String>>)
    requires
        sound(replies@),
    ensures
        r.seen(|x: Result<String, String>| text_result(x)) == target_of(
            transition@,
            instance@,
            arguments@,
            who@,
            reply_views(replies@),
        ),
{
    let declared = match required_str(transition, "/target") {
        Ok(s) => s,
        Err(m) => {
            return Step::Done(Err(m));
        },
    };
    let branches = match transition.get_array("branches") {
        Some(b) => b,
        None => {
            return Step::Done(Ok(declared.to_owned()));
        },
    };
    let ghost bs = views(branches@);
    let ghost goal = branch_from(
        bs,
        0,
        declared@,
        instance@,
        arguments@,
        who@,
        reply_views(replies@),
    );
    let mut at: usize = 0;
    let mut k: usize = 0;
    proof {
        reveal(rest);
        assert(rest(replies@, 0) =~= reply_views(replies@));
    }
    while k < branches.len()
        invariant
            k <= branches@.len(),
            at <= replies@.len(),
            sound(replies@),
            bs == views(branches@),
            goal == target_of(
                transition@,
                instance@,
                arguments@,
                who@,
                reply_views(replies@),
            ),
            branch_from(
                bs,
                k as int,
                declared@,
                instance@,
                arguments@,
                who@,
                rest(replies@, at as int),
            ) == goal,
        decreases branches@.len() - k,
    {
        assert(bs.len() == branches@.len());
        assert(bs[k as int] == branches@[k as int]@);
        let b = &branches[k];
        match (b.get("when"), b.get_str("target")) {
            (Some(when), Some(target)) => match reply_at(replies, at) {
                None => {
                    return Step::Do(make_ask(when, instance, arguments, &who.principal));
                },
                Some(Reply::Judged(Err(f))) => {
                    return Step::Done(Err(f.message.clone()));
                },
                Some(Reply::Judged(Ok((pass, _)))) => {
                    if *pass {
                        return match reply_at(replies, at + 1) {
                            None => {
                                let payload = JsonMap::new().with(
                                    "branchIndex",
                                    Json::uint(k as u64),
                                ).with("fromState", Json::text(instance.state.as_str())).with(
                                    "toState",
                                    Json::text(target),
                                );
                                Step::Do(
                                    Effect::Audit {
                                        event: audit_entry(
                                            "transition.branched",
                                            instance.id.as_str(),
                                            Some(who.principal.subject.as_str()),
                                            Some(who.correlation_id.as_str()),
                                            payload,
                                        ),
                                        mode: AuditMode::SelfEvent,
                                    },
                                )
                            },
                            Some(Reply::Done(_)) => Step::Done(Ok(target.to_owned())),
                            Some(_) => Step::Misfit,
                        };
                    }
                    at = at + 1;
                },
                Some(_) => {
                    return Step::Misfit;
                },
            },
            _ => {},
        }
        k = k + 1;
    }
    assert(bs.len() == branches@.len());
    Step::Done(Ok(declared.to_owned()))
}

/// What a loop gives: the instance with its rounds counted, and the state that the loop
/// leads back to.
pub type LoopView = Result<(InstanceView, Option<Seq<char>>), Seq<char>>;

pub open spec fn loop_result(x: Result<(WorkflowInstance, Option<String>), String>) -> LoopView {
    match x {
        Ok((i, back)) => Ok((i@, opt_string(back))),
        Err(e) => Err(e@),
    }
}

/// That a loop has no limit.
pub open spec fn no_cap(state: Seq<char>) -> Seq<char> {
    "INVALID_STATE_CONFIG: state '"@ + state
        + "' declares `while:` but no `max_iterations:` cap. The cap is REQUIRED to prevent runaway loops; declare an explicit ceiling (SPEC §26)."@
}

/// That a loop went past its limit.
pub open spec fn over_cap(state: Seq<char>, cap: u32) -> Seq<char> {
    "WHILE_ITERATION_CAP_EXCEEDED: state '"@ + state
        + "' has `while:` guard that remained truthy after "@ + decimal(cap as nat)
        + " iterations. Either the guard's exit condition is unreachable, or `max_iterations:` needs to be increased after operator review (SPEC §26)."@
}

/// The limit of a loop: the low 32 bits of what is declared.
pub open spec fn cap_of(declared: u64) -> u32 {
    (declared % 0x1_0000_0000) as u32
}

/// The instance without the rounds of a state.
pub open spec fn unlooped(i: InstanceView, state: Seq<char>) -> InstanceView {
    InstanceView { context: without_member(i.context, iter_slot(state)), ..i }
}

/// The instance with the rounds of a state.
pub open spec fn looped(i: InstanceView, state: Seq<char>, n: u32) -> InstanceView {
    InstanceView { context: with_member(i.context, iter_slot(state), number(n as u64)), ..i }
}

/// The entry of one more round.
pub open spec fn round_entry(
    i: InstanceView,
    state: Seq<char>,
    n: u32,
    cap: u32,
    who: ActingView,
) -> AuditView {
    entry(
        "workflow.state.iteration"@,
        i.id,
        Some(who.principal.subject),
        Some(who.correlation_id),
        obj().with("state"@, JsonView::Str(state)).with("iteration"@, number(n as u64)).with(
            "max_iterations"@,
            number(cap as u64),
        ).m,
    )
}

/// One more, as far as 32 bits can count.
pub open spec fn one_more(n: u32) -> u32 {
    if n < u32::MAX {
        (n + 1) as u32
    } else {
        n
    }
}

/// One round more, where the guard of the loop passes.
pub open spec fn next_round(
    i: InstanceView,
    state: Seq<char>,
    cap: u32,
    who: ActingView,
    r: Seq<ReplyView>,
) -> StepView<LoopView> {
    match rounds(i.context, state) {
        None => StepView::Done(Err(counter_fault(iter_slot(state)))),
        Some(n) => if one_more(n) > cap {
            StepView::Done(Err(over_cap(state, cap)))
        } else {
            let m = one_more(n);
            match first(r) {
                None => StepView::Do(
                    EffectView::Audit {
                        event: round_entry(i, state, m, cap, who),
                        mode: AuditMode::SelfEvent,
                    },
                ),
                Some(ReplyView::Done(_)) => StepView::Done(Ok((looped(i, state, m), Some(state)))),
                _ => StepView::Misfit,
            }
        },
    }
}

/// The loop of the state that is left.
pub open spec fn while_loop(
    definition: JsonView,
    state: Seq<char>,
    i: InstanceView,
    arguments: JsonView,
    who: ActingView,
    r: Seq<ReplyView>,
) -> StepView<LoopView> {
    match state_def(definition, state) {
        None => StepView::Done(Ok((i, None))),
        Some(s) => match s.get("while"@) {
            None => StepView::Done(Ok((unlooped(i, state), None))),
            Some(guard) => match s.get_u64("max_iterations"@) {
                None => StepView::Done(Err(no_cap(state))),
                Some(declared) => match first(r) {
                    None => StepView::Do(ask(guard, i, arguments, who.principal)),
                    Some(ReplyView::Judged(Err(f))) => StepView::Done(Err(f.message)),
                    Some(ReplyView::Judged(Ok((pass, _)))) => if pass {
                        next_round(i, state, cap_of(declared), who, r.drop_first())
                    } else {
                        StepView::Done(Ok((unlooped(i, state), None)))
                    },
                    _ => StepView::Misfit,
                },
            },
        },
    }
}

fn do_next_round(
    i: &WorkflowInstance,
    state: &str,
    cap: u32,
    who: &Acting,
    replies: &Vec<Reply>,
    at: usize,
) -> (r: Step<Result<(WorkflowInstance, Option<String>), String>>)
    requires
        at <= replies@.len(),
        sound(replies@),
    ensures
        r.seen(|x: Result<(WorkflowInstance, Option<String>), String>| loop_result(x))
            == next_round(i@, state@, cap, who@, rest(replies@, at as int)),
{
    let n: u32 = match read_while_iter(i, state) {
        Ok(n) => n,
        Err(m) => {
            return Step::Done(Err(m));
        },
    };
    let n: u32 = if n < u32::MAX {
        n + 1
    } else {
        n
    };
    if n > cap {
        let mut m = "WHILE_ITERATION_CAP_EXCEEDED: state '".to_owned();
        m.append(state);
        m.append("' has `while:` guard that remained truthy after ");
        m.append(decimal_text(cap as u64).as_str());
        m.append(
            " iterations. Either the guard's exit condition is unreachable, or `max_iterations:` needs to be increased after operator review (SPEC §26).",
        );
        return Step::Done(Err(m));
    }
    match reply_at(replies, at) {
        None => {
            let payload = JsonMap::new().with("state", Json::text(state)).with(
                "iteration",
                Json::uint(n as u64),
            ).with("max_iterations", Json::uint(cap as u64));
            Step::Do(
                Effect::Audit {
                    event: audit_entry(
                        "workflow.state.iteration",
                        i.id.as_str(),
                        Some(who.principal.subject.as_str()),
                        Some(who.correlation_id.as_str()),
                        payload,
                    ),
                    mode: AuditMode::SelfEvent,
                },
            )
        },
        Some(Reply::Done(_)) => {
            let mut next = i.clone();
            write_while_iter(&mut next, state, n);
            Step::Done(Ok((next, Some(state.to_owned()))))
        },
        Some(_) => Step::Misfit,
    }
}

/// Applies the loop of the state that is left. While its guard passes, the instance comes
/// back to the state, at most as often as declared; else the rounds are forgotten.
pub fn apply_while_loop(
    definition: &Json,
    from_state: &str,
    next: &WorkflowInstance,
    arguments: &Json,
    who: &Acting,
    replies: &Vec<Reply>,
) -> (r: Step<Result<(WorkflowInstance, Option<String>), String>>)
    requires
        sound(replies@),
    ensures
        r.seen(|x: Result<(WorkflowInstance, Option<String>), String>| loop_result(x))
            == while_loop(
            definition@,
            from_state@,
            next@,
            arguments@,
            who@,
            reply_views(replies@),
        ),
{
    proof {
        reveal(rest);
        assert(rest(replies@, 0) =~= reply_views(replies@));
    }
    let s = match find_state(definition, from_state) {
        Some(s) => s,
        None => {
            return Step::Done(Ok((next.clone(), None)));
        },
    };
    let guard = match s.get("while") {
        Some(g) => g,
        None => {
            let mut i = next.clone();
            clear_while_iter(&mut i, from_state);
            return Step::Done(Ok((i, None)));
        },
    };
    let declared: u64 = match s.get_u64("max_iterations") {
        Some(n) => n,
        None => {
            let mut m = "INVALID_STATE_CONFIG: state '".to_owned();
            m.append(from_state);
            m.append(
                "' declares `while:` but no `max_iterations:` cap. The cap is REQUIRED to prevent runaway loops; declare an explicit ceiling (SPEC §26).",
            );
            return Step::Done(Err(m));
        },
    };
    let cap: u32 = (declared % 0x1_0000_0000) as u32;
    match reply_at(replies, 0) {
        None => Step::Do(make_ask(guard, next, arguments, &who.principal)),
        Some(Reply::Judged(Err(f))) => Step::Done(Err(f.message.clone())),
        Some(Reply::Judged(Ok((pass, _)))) => if *pass {
            do_next_round(next, from_state, cap, who, replies, 1)
        } else {
            let mut i = next.clone();
            clear_while_iter(&mut i, from_state);
            Step::Done(Ok((i, None)))
        },
        Some(_) => Step::Misfit,
    }
}

/// How a run of guards stands: it asks, it failed, a reply does not fit, or it is decided
/// with the replies that are left.
pub enum ArmView {
    Ask(EffectView),
    Fault(Seq<char>),
    Misfit,
    Passed(bool, Seq<ReplyView>),
}

enum Arm {
    Ask(Effect),
    Fault(String),
    Misfit,
    Passed(bool, usize),
}

impl Arm {
    spec fn view(&self, replies: Seq<Reply>) -> ArmView {
        match self {
            Arm::Ask(e) => ArmView::Ask(e@),
            Arm::Fault(m) => ArmView::Fault(m@),
            Arm::Misfit => ArmView::Misfit,
            Arm::Passed(p, at) => ArmView::Passed(*p, rest(replies, *at as int)),
        }
    }

    spec fn within(&self, replies: Seq<Reply>) -> bool {
        match self {
            Arm::Passed(_, at) => *at <= replies.len(),
            _ => true,
        }
    }
}

/// The entry of a guard that was asked to choose a transition.
pub open spec fn choice_entry(i: InstanceView, who: ActingView, guard: JsonView, pass: bool) -> AuditView {
    entry(
        "guard.evaluated"@,
        i.id,
        None,
        Some(who.correlation_id),
        obj().with("guard"@, guard).with("passed"@, JsonView::Bool(pass)).with(
            "context"@,
            JsonView::Str("deterministic_selection"@),
        ).m,
    )
}

/// The guards of one candidate from the `k`th on: the first that does not pass decides.
pub open spec fn arm_from(
    guards: Seq<JsonView>,
    k: int,
    i: InstanceView,
    who: ActingView,
    r: Seq<ReplyView>,
) -> ArmView
    decreases guards.len() - k,
{
    if k >= guards.len() {
        ArmView::Passed(true, r)
    } else {
        match first(r) {
            None => ArmView::Ask(ask(guards[k], i, empty_object(), who.principal)),
            Some(ReplyView::Judged(Err(f))) => ArmView::Fault(f.message),
            Some(ReplyView::Judged(Ok((pass, _)))) => match first(r.drop_first()) {
                None => ArmView::Ask(
                    EffectView::Audit {
                        event: choice_entry(i, who, guards[k], pass),
                        mode: AuditMode::SelfEvent,
                    },
                ),
                Some(ReplyView::Done(_)) => if pass {
                    arm_from(guards, k + 1, i, who, r.drop_first().drop_first())
                } else {
                    ArmView::Passed(false, r.drop_first().drop_first())
                },
                _ => ArmView::Misfit,
            },
            _ => ArmView::Misfit,
        }
    }
}

fn try_arm(guards: &Vec<Json>, i: &WorkflowInstance, who: &Acting, replies: &Vec<Reply>, from: usize) -> (r:
    Arm)
    requires
        from <= replies@.len(),
        sound(replies@),
    ensures
        r.view(replies@) == arm_from(views(guards@), 0, i@, who@, rest(replies@, from as int)),
        r.within(replies@),
{
    let ghost gs = views(guards@);
    let mut at: usize = from;
    let mut k: usize = 0;
    while k < guards.len()
        invariant
            k <= guards@.len(),
            at <= replies@.len(),
            sound(replies@),
            gs == views(guards@),
            arm_from(gs, k as int, i@, who@, rest(replies@, at as int)) == arm_from(
                gs,
                0,
                i@,
                who@,
                rest(replies@, from as int),
            ),
        decreases guards@.len() - k,
    {
        assert(gs.len() == guards@.len());
        assert(gs[k as int] == guards@[k as int]@);
        match reply_at(replies, at) {
            None => {
                return Arm::Ask(make_ask(&guards[k], i, &Json::Object(JsonMap::new()), &who.principal));
            },
            Some(Reply::Judged(Err(f))) => {
                return Arm::Fault(f.message.clone());
            },
            Some(Reply::Judged(Ok((pass, _)))) => match reply_at(replies, at + 1) {
                None => {
                    let payload = JsonMap::new().with("guard", guards[k].clone()).with(
                        "passed",
                        Json::Bool(*pass),
                    ).with("context", Json::text("deterministic_selection"));
                    return Arm::Ask(
                        Effect::Audit {
                            event: audit_entry(
                                "guard.evaluated",
                                i.id.as_str(),
                                None,
                                Some(who.correlation_id.as_str()),
                                payload,
                            ),
                            mode: AuditMode::SelfEvent,
                        },
                    );
                },
                Some(Reply::Done(_)) => {
                    at = at + 2;
                    if !*pass {
                        return Arm::Passed(false, at);
                    }
                },
                Some(_) => {
                    return Arm::Misfit;
                },
            },
            Some(_) => {
                return Arm::Misfit;
            },
        }
        k = k + 1;
    }
    assert(gs.len() == guards@.len());
    Arm::Passed(true, at)
}

/// A transition that was chosen, or why there is none.
pub type ChosenView = Result<(Seq<char>, JsonView), Seq<char>>;

pub open spec fn chosen(x: Result<(String, Json), String>) -> ChosenView {
    match x {
        Ok((n, t)) => Ok((n@, t@)),
        Err(e) => Err(e@),
    }
}

/// The choice, once all guards were asked: the only candidate whose guards pass, else the
/// only one without guards.
pub open spec fn decided(
    state: Seq<char>,
    total: nat,
    viable: Members,
    defaults: Members,
) -> ChosenView {
    if viable.len() == 1 {
        Ok(viable[0])
    } else if viable.len() > 1 {
        Err(
            "ambiguous deterministic transition in state '"@ + state + "': "@ + decimal(
                viable.len(),
            ) + " of "@ + decimal(total)
                + " candidates had passing guards; exactly one must be viable"@,
        )
    } else if defaults.len() == 1 {
        Ok(defaults[0])
    } else if defaults.len() == 0 {
        Err(
            "no viable deterministic transition in state '"@ + state + "': all "@ + decimal(total)
                + " candidates had failing guards and there is no default"@,
        )
    } else {
        Err(
            "ambiguous default in state '"@ + state + "': "@ + decimal(defaults.len())
                + " unguarded deterministic transitions; at most one default is allowed"@,
        )
    }
}

/// The choice among candidates from the `k`th on, given those found so far whose guards pass
/// and those without guards.
pub open spec fn choice_from(
    cands: Members,
    k: int,
    viable: Members,
    defaults: Members,
    i: InstanceView,
    who: ActingView,
    r: Seq<ReplyView>,
) -> StepView<ChosenView>
    decreases cands.len() - k,
{
    if k >= cands.len() {
        StepView::Done(decided(i.state, cands.len(), viable, defaults))
    } else if guards_of(cands[k].1).len() == 0 {
        choice_from(cands, k + 1, viable, defaults.push(cands[k]), i, who, r)
    } else {
        match arm_from(guards_of(cands[k].1), 0, i, who, r) {
            ArmView::Ask(e) => StepView::Do(e),
            ArmView::Fault(m) => StepView::Done(Err(m)),
            ArmView::Misfit => StepView::Misfit,
            ArmView::Passed(pass, left) => choice_from(
                cands,
                k + 1,
                if pass {
                    viable.push(cands[k])
                } else {
                    viable
                },
                defaults,
                i,
                who,
                left,
            ),
        }
    }
}

/// The choice among transitions that the runtime fires itself. A single one is taken without
/// a question.
pub open spec fn choice(
    cands: Members,
    i: InstanceView,
    who: ActingView,
    r: Seq<ReplyView>,
) -> StepView<ChosenView> {
    if cands.len() == 1 {
        StepView::Done(Ok(cands[0]))
    } else {
        choice_from(cands, 0, Seq::empty(), Seq::empty(), i, who, r)
    }
}

/// The candidates at some places.
spec fn picked(cands: Members, places: Seq<usize>) -> Members {
    Seq::new(places.len(), |j: int| cands[places[j] as int])
}

fn decide(cands: &JsonMap, state: &str, viable: &Vec<usize>, defaults: &Vec<usize>) -> (r: Result<
    (String, Json),
    String,
>)
    requires
        forall|j: int| 0 <= j < viable@.len() ==> (#[trigger] viable@[j]) < cands@.len(),
        forall|j: int| 0 <= j < defaults@.len() ==> (#[trigger] defaults@[j]) < cands@.len(),
    ensures
        chosen(r) == decided(
            state@,
            cands@.len(),
            picked(cands@, viable@),
            picked(cands@, defaults@),
        ),
{
    if viable.len() == 1 {
        let p: usize = viable[0];
        assert(picked(cands@, viable@)[0] == cands@[p as int]);
        Ok((cands.key_at(p).clone(), cands.value_at(p).clone()))
    } else if viable.len() > 1 {
        let mut m = "ambiguous deterministic transition in state '".to_owned();
        m.append(state);
        m.append("': ");
        m.append(decimal_text(viable.len() as u64).as_str());
        m.append(" of ");
        m.append(decimal_text(cands.len() as u64).as_str());
        m.append(" candidates had passing guards; exactly one must be viable");
        Err(m)
    } else if defaults.len() == 1 {
        let p: usize = defaults[0];
        assert(picked(cands@, defaults@)[0] == cands@[p as int]);
        Ok((cands.key_at(p).clone(), cands.value_at(p).clone()))
    } else if defaults.len() == 0 {
        let mut m = "no viable deterministic transition in state '".to_owned();
        m.append(state);
        m.append("': all ");
        m.append(decimal_text(cands.len() as u64).as_str());
        m.append(" candidates had failing guards and there is no default");
        Err(m)
    } else {
        let mut m = "ambiguous default in state '".to_owned();
        m.append(state);
        m.append("': ");
        m.append(decimal_text(defaults.len() as u64).as_str());
        m.append(" unguarded deterministic transitions; at most one default is allowed");
        Err(m)
    }
}

/// Chooses one of the transitions that the runtime fires itself: the only one, or by their
/// guards.
pub fn select_deterministic_transition(
    candidates: &JsonMap,
    instance: &WorkflowInstance,
    who: &Acting,
    replies: &Vec<Reply>,
) -> (r: Step<Result<(String, Json), String>>)
    requires
        sound(replies@),
    ensures
        r.seen(|x: Result<(String, Json), String>| chosen(x)) == choice(
            candidates@,
            instance@,
            who@,
            reply_views(replies@),
        ),
{
    if candidates.len() == 1 {
        return Step::Done(Ok((candidates.key_at(0).clone(), candidates.value_at(0).clone())));
    }
    let mut viable: Vec<usize> = Vec::new();
    let mut defaults: Vec<usize> = Vec::new();
    let mut at: usize = 0;
    let mut k: usize = 0;
    let ghost goal = choice(candidates@, instance@, who@, reply_views(replies@));
    proof {
        reveal(rest);
        assert(rest(replies@, 0) =~= reply_views(replies@));
        assert(picked(candidates@, viable@) =~= Seq::empty());
        assert(picked(candidates@, defaults@) =~= Seq::empty());
    }
    while k < candidates.len()
        invariant
            k <= candidates@.len(),
            at <= replies@.len(),
            sound(replies@),
            forall|j: int| 0 <= j < viable@.len() ==> (#[trigger] viable@[j]) < candidates@.len(),
            forall|j: int|
                0 <= j < defaults@.len() ==> (#[trigger] defaults@[j]) < candidates@.len(),
            goal == choice(candidates@, instance@, who@, reply_views(replies@)),
            goal == choice_from(
                candidates@,
                k as int,
                picked(candidates@, viable@),
                picked(candidates@, defaults@),
                instance@,
                who@,
                rest(replies@, at as int),
            ),
        decreases candidates@.len() - k,
    {
        let guards = collect_guards(candidates.value_at(k));
        assert(views(guards@).len() == guards@.len());
        if guards.len() == 0 {
            let ghost before = defaults@;
            defaults.push(k);
            assert(picked(candidates@, defaults@) =~= picked(candidates@, before).push(
                candidates@[k as int],
            ));
        } else {
            match try_arm(&guards, instance, who, replies, at) {
                Arm::Ask(e) => {
                    return Step::Do(e);
                },
                Arm::Fault(m) => {
                    return Step::Done(Err(m));
                },
                Arm::Misfit => {
                    return Step::Misfit;
                },
                Arm::Passed(pass, next) => {
                    at = next;
                    if pass {
                        let ghost before = viable@;
                        viable.push(k);
                        assert(picked(candidates@, viable@) =~= picked(candidates@, before).push(
                            candidates@[k as int],
                        ));
                    }
                },
            }
        }
        k = k + 1;
    }
    Step::Done(decide(candidates, instance.state.as_str(), &viable, &defaults))
}

proof fn lemma_choice_from(
    cands: Members,
    k: int,
    viable: Members,
    defaults: Members,
    i: InstanceView,
    who: ActingView,
    r: Seq<ReplyView>,
)
    requires
        0 <= k <= cands.len(),
        forall|j: int|
            0 <= j < viable.len() ==> cands.contains(#[trigger] viable[j]) && passed(viable[j].1, i, who),
        forall|j: int|
            0 <= j < defaults.len() ==> cands.contains(#[trigger] defaults[j]) && guards_of(
                defaults[j].1,
            ).len() == 0,
    ensures
        choice_from(cands, k, viable, defaults, i, who, r) matches StepView::Done(Ok(x)) ==> {
            &&& cands.contains(x)
            &&& passed(x.1, i, who) || (guards_of(x.1).len() == 0 && viable.len() == 0)
        },
    decreases cands.len() - k,
{
    if k < cands.len() {
        assert(cands.contains(cands[k]));
        if guards_of(cands[k].1).len() == 0 {
            lemma_choice_from(cands, k + 1, viable, defaults.push(cands[k]), i, who, r);
        } else {
            let arm = arm_from(guards_of(cands[k].1), 0, i, who, r);
            if let ArmView::Passed(pass, left) = arm {
                if pass {
                    assert(passed(cands[k].1, i, who)) by {
                        assert(arm_from(guards_of(cands[k].1), 0, i, who, r) is Passed);
                    }
                    lemma_choice_from(cands, k + 1, viable.push(cands[k]), defaults, i, who, left);
                } else {
                    lemma_choice_from(cands, k + 1, viable, defaults, i, who, left);
                }
            }
        }
    }
}

/// Whether some answers let all guards of a transition pass, of which there is at least one.
pub open spec fn passed(t: JsonView, i: InstanceView, who: ActingView) -> bool {
    &&& guards_of(t).len() > 0
    &&& exists|r: Seq<ReplyView>| #[trigger]
        arm_from(guards_of(t), 0, i, who, r) matches ArmView::Passed(p, _) && p
}

/// Of several transitions only one of them is taken, and none whose guards did not pass; one
/// without guards is taken only as the default.
pub proof fn law_choice_is_a_candidate(
    cands: Members,
    i: InstanceView,
    who: ActingView,
    r: Seq<ReplyView>,
)
    ensures
        choice(cands, i, who, r) matches StepView::Done(Ok(x)) ==> cands.contains(x) && (cands.len()
            == 1 || passed(x.1, i, who) || guards_of(x.1).len() == 0),
{
    if cands.len() == 1 {
        assert(cands.contains(cands[0]));
    } else {
        lemma_choice_from(cands, 0, Seq::empty(), Seq::empty(), i, who, r);
    }
}

/// Where guards pass, one of those transitions is taken: the default is for when none does.
pub proof fn law_default_only_without_viable(
    state: Seq<char>,
    total: nat,
    viable: Members,
    defaults: Members,
)
    requires
        viable.len() > 0,
    ensures
        decided(state, total, viable, defaults) == decided(state, total, viable, Seq::empty()),
        decided(state, total, viable, defaults) matches Ok(x) ==> viable.contains(x),
{
    if viable.len() == 1 {
        assert(viable.contains(viable[0]));
    }
}

/// A loop leads back to its own state only, and only as often as its limit says: every way
/// back counts one round more, and none goes past the limit.
pub proof fn law_rounds_are_bounded(
    definition: JsonView,
    state: Seq<char>,
    i: InstanceView,
    arguments: JsonView,
    who: ActingView,
    r: Seq<ReplyView>,
)
    requires
        i.context is Object,
    ensures
        while_loop(definition, state, i, arguments, who, r) matches StepView::Done(
            Ok((next, Some(back))),
        ) ==> {
            &&& back == state
            &&& state_def(definition, state) matches Some(s)
            &&& s.get_u64("max_iterations"@) matches Some(declared)
            &&& rounds(i.context, state) matches Some(n)
            &&& rounds(next.context, state) == Some(one_more(n))
            &&& one_more(n) <= cap_of(declared)
        },
{
    if let StepView::Done(Ok((next, Some(back)))) = while_loop(
        definition,
        state,
        i,
        arguments,
        who,
        r,
    ) {
        let n = rounds(i.context, state)->0;
        crate::json::lemma_put_lookup(
            i.context->Object_0,
            iter_slot(state),
            number(one_more(n) as u64),
            iter_slot(state),
        );
    }
}

/// A transition passes its guards only when every one of them was asked and passed.
pub proof fn law_all_guards_are_asked(
    guards: Seq<JsonView>,
    k: int,
    evaluated: Seq<JsonView>,
    i: InstanceView,
    arguments: JsonView,
    who: ActingView,
    r: Seq<ReplyView>,
)
    requires
        0 <= k <= guards.len(),
    ensures
        guards_from(guards, k, evaluated, i, arguments, who, r) matches StepView::Done(
            GuardsView::Judged { pass, evaluated: all, .. },
        ) ==> (pass ==> all == evaluated + Seq::new(
            (guards.len() - k) as nat,
            |j: int| guard_note(guards[k + j], true),
        )),
    decreases guards.len() - k,
{
    if k < guards.len() {
        if r.len() >= 2 {
            let next = evaluated.push(guard_note(guards[k], true));
            law_all_guards_are_asked(
                guards,
                k + 1,
                next,
                i,
                arguments,
                who,
                r.drop_first().drop_first(),
            );
            assert(next + Seq::new(
                (guards.len() - k - 1) as nat,
                |j: int| guard_note(guards[k + 1 + j], true),
            ) =~= evaluated + Seq::new(
                (guards.len() - k) as nat,
                |j: int| guard_note(guards[k + j], true),
            ));
        }
    } else {
        assert(evaluated + Seq::new(0, |j: int| guard_note(guards[k + j], true)) =~= evaluated);
    }
}

} // verus!
