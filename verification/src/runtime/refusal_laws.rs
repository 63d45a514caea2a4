//! What is refused changes nothing, whichever check refused it.

use vstd::prelude::*;

use crate::json::JsonView;
use crate::model::InstanceView;
use crate::repo_locks::owned_files;
use crate::runtime::context::advanced;
use crate::runtime::dispatch::{
    accepted, chain_ended, checked, commit, committing, confidence_fault, dispatch, executing,
    failed, fired, full_arguments, gate, guard_refusal, guarded, judged, keeping, leaving, loaded,
    locking, plain, produced, reject, releasing, stored, type_fault, DispatchView, FiredView,
    GateView, JobView, WorkView,
};
use crate::runtime::effects::{
    AuditMode, ErrorView, GuardsView, OutcomeView, ResultView, StatusHint,
};
use crate::runtime::records::{all_checks, slot_violation};
use crate::runtime::schema::schema_fault;
use crate::runtime::script::{EffectView, ReplyView};
use crate::slot::slot_constraint::first_violation;

verus! {

/// Whether a transition is refused: its refusal is entered.
pub open spec fn refuses(v: DispatchView) -> bool {
    v matches DispatchView::Do(EffectView::Audit { event, mode }) && mode == AuditMode::SelfEvent
        && event.event_type == "transition.rejected"@
}

/// Whether an effect changes an instance, or what hangs on it.
pub open spec fn changes(e: EffectView) -> bool {
    ||| e is Create
    ||| e is Save
    ||| e is Record
    ||| e is KeepEvidence
    ||| e is OnEnter
    ||| e is Chain
    ||| e is EmitOutcome
    ||| e is RecordOutcome
    ||| e is ResumeParent
    ||| e is Cancel
    ||| e is Enqueue
    ||| e is Submit
}

/// Whether one of two histories of replies is the beginning of the other.
pub open spec fn agree(x: Seq<ReplyView>, y: Seq<ReplyView>) -> bool {
    forall|k: int|
        #![trigger x[k]]
        #![trigger y[k]]
        0 <= k < x.len() && k < y.len() ==> x[k] == y[k]
}

/// Whether a history of replies that led to a refusal says that a store failed.
pub open spec fn store_failed(x: Seq<ReplyView>, at: nat) -> bool {
    at < x.len() && (x[at as int] matches ReplyView::Instance(Err(_)))
}

/// What a refusal leaves open. Before it and behind it nothing is changed: all that is asked for
/// in that way is a store that failed. Behind it the refusal is all that is told, of the instance
/// as it was, and nothing follows.
pub open spec fn at_rest(
    i: InstanceView,
    refused: DispatchView,
    x: Seq<ReplyView>,
    other: DispatchView,
    y: Seq<ReplyView>,
) -> bool {
    refuses(refused) ==> {
        &&& other matches DispatchView::Do(e) ==> changes(e) ==> e is Save && store_failed(
            x,
            y.len(),
        )
        &&& y.len() > x.len() ==> {
            &&& other matches DispatchView::Do(e) ==> (e matches EffectView::Respond {
                instance,
                hint,
                ..
            } && instance == i && hint == StatusHint::Rejected)
            &&& other matches DispatchView::Done(Ok((_, next))) ==> next is None
        }
    }
}

proof fn lemma_names_differ()
    ensures
        "workflow.slot.cleared"@ != "transition.rejected"@,
        "transition.requested"@ != "transition.rejected"@,
{
    reveal_strlit("workflow.slot.cleared");
    reveal_strlit("transition.rejected");
    reveal_strlit("transition.requested");
    assert("workflow.slot.cleared"@.len() != "transition.rejected"@.len());
    assert("transition.requested"@.len() != "transition.rejected"@.len());
}

proof fn lemma_agree_behind(x: Seq<ReplyView>, y: Seq<ReplyView>)
    requires
        agree(x, y),
        x.len() > 0,
        y.len() > 0,
    ensures
        x[0] == y[0],
        agree(x.drop_first(), y.drop_first()),
        store_failed(x.drop_first(), y.drop_first().len()) == store_failed(x, y.len()),
{
    assert(x[0] == y[0]);
    assert forall|k: int|
        #![trigger x.drop_first()[k]]
        #![trigger y.drop_first()[k]]
        0 <= k < x.drop_first().len() && k < y.drop_first().len() implies x.drop_first()[k]
        == y.drop_first()[k] by {
        assert(x[k + 1] == y[k + 1]);
    }
}

proof fn lemma_stored_refuses_nothing(
    j: JobView,
    definition: JsonView,
    w: WorkView,
    saved: InstanceView,
    r: Seq<ReplyView>,
)
    ensures
        !refuses(stored(j, definition, w, saved, r)),
{
    assert forall|o: OutcomeView, s: Seq<ReplyView>|
        !refuses(#[trigger] chain_ended(j, definition, w, o, s)) by {}
}

proof fn lemma_commit_refuses_nothing(j: JobView, f: FiredView, w: WorkView, r: Seq<ReplyView>)
    ensures
        !refuses(commit(j, f, w, r)),
{
    lemma_names_differ();
    let definition = f.instance.definition;
    assert forall|saved: InstanceView, q: Seq<ReplyView>|
        !refuses(#[trigger] stored(j, definition, w, saved, q)) by {
        lemma_stored_refuses_nothing(j, definition, w, saved, q);
    }
    assert forall|next: InstanceView, q: Seq<ReplyView>|
        !refuses(#[trigger] committing(j, f, w, next, q)) by {}
    assert forall|looped: InstanceView, target: Seq<char>, q: Seq<ReplyView>|
        !refuses(#[trigger] leaving(j, f, w, looped, target, q)) by {}
}

proof fn lemma_reject(
    j: JobView,
    i: InstanceView,
    code: Seq<char>,
    message: Seq<char>,
    x: Seq<ReplyView>,
    y: Seq<ReplyView>,
)
    requires
        agree(x, y),
    ensures
        at_rest(i, reject(j, i, code, message, x), x, reject(j, i, code, message, y), y),
{
}

proof fn lemma_accepted(
    j: JobView,
    f: FiredView,
    w: WorkView,
    x: Seq<ReplyView>,
    y: Seq<ReplyView>,
)
    requires
        agree(x, y),
    ensures
        at_rest(f.instance, accepted(j, f, w, x), x, accepted(j, f, w, y), y),
{
    lemma_commit_refuses_nothing(j, f, w, x);
    match first_violation(f.instance.definition, f.instance.state, w.context) {
        Some(v) => lemma_reject(j, f.instance, "SLOT_CONSTRAINT_VIOLATED"@, v.message, x, y),
        None => if let Some(m) = confidence_fault(w.evidence) {
            lemma_reject(j, f.instance, "INVALID_CONFIDENCE"@, m, x, y);
        },
    }
}

proof fn lemma_plain(j: JobView, f: FiredView, x: Seq<ReplyView>, y: Seq<ReplyView>)
    requires
        agree(x, y),
    ensures
        at_rest(f.instance, plain(j, f, x), x, plain(j, f, y), y),
{
    if x.len() > 0 && y.len() > 0 {
        lemma_agree_behind(x, y);
        let x1 = x.drop_first();
        let y1 = y.drop_first();
        if let ReplyView::Merged(Ok(context)) = x[0] {
            if x1.len() > 0 && y1.len() > 0 {
                lemma_agree_behind(x1, y1);
                let checks = all_checks(
                    f.instance.definition,
                    f.transition_def.get("output"@),
                    context,
                );
                if let ReplyView::Verdicts(v) = x1[0] {
                    let x2 = x1.drop_first();
                    let y2 = y1.drop_first();
                    match slot_violation(checks, v) {
                        Some((slot, reason)) => lemma_reject(
                            j,
                            f.instance,
                            "BLACKBOARD_TYPE_ERROR"@,
                            type_fault(slot, reason),
                            x2,
                            y2,
                        ),
                        None => lemma_commit_refuses_nothing(
                            j,
                            f,
                            WorkView {
                                context,
                                evidence: Seq::empty(),
                                child_workflow_id: None,
                                executor: None,
                                next_transition: None,
                            },
                            x2,
                        ),
                    }
                }
            }
        }
    }
}

proof fn lemma_produced(
    j: JobView,
    f: FiredView,
    res: ResultView,
    elapsed_ms: u64,
    x: Seq<ReplyView>,
    y: Seq<ReplyView>,
)
    requires
        agree(x, y),
    ensures
        at_rest(
            f.instance,
            produced(j, f, res, elapsed_ms, x),
            x,
            produced(j, f, res, elapsed_ms, y),
            y,
        ),
{
    if x.len() > 0 && y.len() > 0 {
        lemma_agree_behind(x, y);
        let x1 = x.drop_first();
        let y1 = y.drop_first();
        if let ReplyView::Merged(Ok(merged)) = x[0] {
            if x1.len() > 0 && y1.len() > 0 {
                lemma_agree_behind(x1, y1);
                let context = advanced(merged, j.request.transition);
                let checks = all_checks(
                    f.instance.definition,
                    f.transition_def.get("output"@),
                    context,
                );
                if let ReplyView::Verdicts(v) = x1[0] {
                    let x2 = x1.drop_first();
                    let y2 = y1.drop_first();
                    match slot_violation(checks, v) {
                        Some((slot, reason)) => lemma_reject(
                            j,
                            f.instance,
                            "BLACKBOARD_TYPE_ERROR"@,
                            type_fault(slot, reason),
                            x2,
                            y2,
                        ),
                        None => lemma_accepted(
                            j,
                            f,
                            WorkView {
                                context,
                                evidence: res.evidence,
                                child_workflow_id: res.child_workflow_id,
                                executor: Some((true, elapsed_ms)),
                                next_transition: res.next_transition,
                            },
                            x2,
                            y2,
                        ),
                    }
                }
            }
        }
    }
}

proof fn lemma_keeping(
    j: JobView,
    f: FiredView,
    err: ErrorView,
    x: Seq<ReplyView>,
    y: Seq<ReplyView>,
)
    requires
        agree(x, y),
    ensures
        at_rest(f.instance, keeping(j, f, err, x), x, keeping(j, f, err, y), y),
{
    assert forall|i: InstanceView, dropped: bool, q: Seq<ReplyView>|
        !refuses(#[trigger] failed(j, i, err, dropped, q)) by {}
    if x.len() > 0 && y.len() > 0 {
        lemma_agree_behind(x, y);
        let x1 = x.drop_first();
        let y1 = y.drop_first();
        if x1.len() > 0 && y1.len() > 0 {
            lemma_agree_behind(x1, y1);
        }
    }
}

proof fn lemma_judged(
    j: JobView,
    f: FiredView,
    result: Result<ResultView, ErrorView>,
    elapsed_ms: u64,
    x: Seq<ReplyView>,
    y: Seq<ReplyView>,
)
    requires
        agree(x, y),
    ensures
        at_rest(
            f.instance,
            judged(j, f, result, elapsed_ms, x),
            x,
            judged(j, f, result, elapsed_ms, y),
            y,
        ),
{
    match result {
        Ok(res) => if res.suspend is None {
            lemma_produced(j, f, res, elapsed_ms, x, y);
        },
        Err(err) => lemma_keeping(j, f, err, x, y),
    }
}

proof fn lemma_releasing(
    j: JobView,
    f: FiredView,
    files: Seq<Seq<char>>,
    result: Result<ResultView, ErrorView>,
    elapsed_ms: u64,
    x: Seq<ReplyView>,
    y: Seq<ReplyView>,
)
    requires
        agree(x, y),
    ensures
        at_rest(
            f.instance,
            releasing(j, f, files, result, elapsed_ms, x),
            x,
            releasing(j, f, files, result, elapsed_ms, y),
            y,
        ),
{
    if x.len() > 0 && y.len() > 0 {
        lemma_agree_behind(x, y);
        let x1 = x.drop_first();
        let y1 = y.drop_first();
        if x1.len() > 0 && y1.len() > 0 {
            lemma_agree_behind(x1, y1);
            let x2 = x1.drop_first();
            let y2 = y1.drop_first();
            if x2.len() > 0 && y2.len() > 0 {
                lemma_agree_behind(x2, y2);
                lemma_judged(j, f, result, elapsed_ms, x2.drop_first(), y2.drop_first());
            }
        }
    }
}

proof fn lemma_executing(
    j: JobView,
    f: FiredView,
    config: JsonView,
    files: Seq<Seq<char>>,
    x: Seq<ReplyView>,
    y: Seq<ReplyView>,
)
    requires
        agree(x, y),
    ensures
        at_rest(
            f.instance,
            executing(j, f, config, files, x),
            x,
            executing(j, f, config, files, y),
            y,
        ),
{
    if x.len() > 0 && y.len() > 0 {
        lemma_agree_behind(x, y);
        if let ReplyView::Executed { result, elapsed_ms } = x[0] {
            let x1 = x.drop_first();
            let y1 = y.drop_first();
            if files.len() > 0 {
                lemma_releasing(j, f, files, result, elapsed_ms, x1, y1);
            } else {
                lemma_judged(j, f, result, elapsed_ms, x1, y1);
            }
        }
    }
}

proof fn lemma_locking(
    j: JobView,
    f: FiredView,
    config: JsonView,
    x: Seq<ReplyView>,
    y: Seq<ReplyView>,
)
    requires
        agree(x, y),
    ensures
        at_rest(f.instance, locking(j, f, config, x), x, locking(j, f, config, y), y),
{
    let files = owned_files(config);
    if j.wiring.locks && files.len() > 0 {
        if x.len() > 0 && y.len() > 0 {
            lemma_agree_behind(x, y);
            let x1 = x.drop_first();
            let y1 = y.drop_first();
            if x1.len() > 0 && y1.len() > 0 {
                lemma_agree_behind(x1, y1);
                lemma_executing(j, f, config, files, x1.drop_first(), y1.drop_first());
            }
        }
    } else {
        lemma_executing(j, f, config, Seq::empty(), x, y);
    }
}

proof fn lemma_fired(j: JobView, f: FiredView, x: Seq<ReplyView>, y: Seq<ReplyView>)
    requires
        agree(x, y),
    ensures
        at_rest(f.instance, fired(j, f, x), x, fired(j, f, y), y),
{
    match f.transition_def.get("executor"@) {
        None => lemma_plain(j, f, x, y),
        Some(config) => if x.len() > 0 && y.len() > 0 {
            lemma_agree_behind(x, y);
            lemma_locking(j, f, config, x.drop_first(), y.drop_first());
        },
    }
}

proof fn lemma_guarded(
    j: JobView,
    i: InstanceView,
    t: JsonView,
    arguments: JsonView,
    x: Seq<ReplyView>,
    y: Seq<ReplyView>,
)
    requires
        agree(x, y),
    ensures
        at_rest(i, guarded(j, i, t, arguments, x), x, guarded(j, i, t, arguments, y), y),
{
    if x.len() > 0 && y.len() > 0 {
        lemma_agree_behind(x, y);
        let x1 = x.drop_first();
        let y1 = y.drop_first();
        match x[0] {
            ReplyView::Guards(GuardsView::UnsetSlot(m)) => lemma_reject(
                j,
                i,
                "GUARD_UNSET_SLOT"@,
                m,
                x1,
                y1,
            ),
            ReplyView::Guards(GuardsView::Judged { pass, evaluated, diagnostic }) => if pass {
                let f = FiredView { instance: i, transition_def: t, arguments, guards: evaluated };
                lemma_fired(j, f, x1, y1);
            } else {
                let (code, message) = guard_refusal(diagnostic);
                lemma_reject(j, i, code, message, x1, y1);
            },
            _ => {},
        }
    }
}

proof fn lemma_checked(j: JobView, i: InstanceView, x: Seq<ReplyView>, y: Seq<ReplyView>)
    requires
        agree(x, y),
    ensures
        at_rest(i, checked(j, i, x), x, checked(j, i, y), y),
{
    match gate(j.request, i) {
        GateView::Reject(code, message) => lemma_reject(j, i, code, message, x, y),
        GateView::Broken(m) => {},
        GateView::Pass(t) => {
            let arguments = full_arguments(t, j.request.arguments);
            match t.step("inputSchema"@) {
                None => lemma_guarded(j, i, t, arguments, x, y),
                Some(schema) => if x.len() > 0 && y.len() > 0 {
                    lemma_agree_behind(x, y);
                    let x1 = x.drop_first();
                    let y1 = y.drop_first();
                    if let ReplyView::Verdict(v) = x[0] {
                        match schema_fault(v, "transition input"@) {
                            Some(m) => lemma_reject(j, i, "INPUT_SCHEMA_VIOLATION"@, m, x1, y1),
                            None => lemma_guarded(j, i, t, arguments, x1, y1),
                        }
                    }
                },
            }
        },
    }
}

proof fn lemma_loaded(j: JobView, i: InstanceView, x: Seq<ReplyView>, y: Seq<ReplyView>)
    requires
        agree(x, y),
    ensures
        at_rest(i, loaded(j, i, x), x, loaded(j, i, y), y),
{
    lemma_names_differ();
    if x.len() > 0 && y.len() > 0 {
        lemma_agree_behind(x, y);
        let x1 = x.drop_first();
        let y1 = y.drop_first();
        if x1.len() > 0 && y1.len() > 0 {
            lemma_agree_behind(x1, y1);
            lemma_checked(j, i, x1.drop_first(), y1.drop_first());
        }
    }
}

/// A transition that is refused changes nothing, whichever check refused it: the checks of the
/// request, the schema of its input, the guards, the types of the slots, their constraints, the
/// confidence of the evidence, or a version that somebody else moved on. `x` are the replies that
/// led to the refusal, and `y` the replies at any time before or behind it. At none of these
/// times is anything asked for that changes the instance, but for a store that failed; behind the
/// refusal all that is asked for is the response to it, about the instance that was looked up.
pub proof fn law_refusals_change_nothing(j: JobView, x: Seq<ReplyView>, y: Seq<ReplyView>)
    requires
        agree(x, y),
        refuses(dispatch(j, x)),
    ensures
        x.len() > 0,
        x[0] matches ReplyView::Instance(Ok(i)) && at_rest(i, dispatch(j, x), x, dispatch(j, y), y),
{
    if y.len() > 0 {
        lemma_agree_behind(x, y);
        if let ReplyView::Instance(Ok(i)) = x[0] {
            lemma_loaded(j, i, x.drop_first(), y.drop_first());
        }
    }
}

/// Arguments that do not have the form that the transition asks for are refused.
pub proof fn law_bad_input_is_refused(
    j: JobView,
    i: InstanceView,
    t: JsonView,
    m: Seq<char>,
    r: Seq<ReplyView>,
)
    requires
        gate(j.request, i) == GateView::Pass(t),
        t.step("inputSchema"@) is Some,
        r.len() > 0,
        r[0] matches ReplyView::Verdict(v) && schema_fault(v, "transition input"@) == Some(m),
    ensures
        checked(j, i, r) == reject(j, i, "INPUT_SCHEMA_VIOLATION"@, m, r.drop_first()),
{
}

/// Guards that do not pass refuse the transition.
pub proof fn law_guards_refuse(
    j: JobView,
    i: InstanceView,
    t: JsonView,
    arguments: JsonView,
    diagnostic: Option<Seq<char>>,
    r: Seq<ReplyView>,
)
    requires
        r.len() > 0,
        r[0] matches ReplyView::Guards(GuardsView::Judged { pass, diagnostic: d, .. }) && !pass && d
            == diagnostic,
    ensures
        guarded(j, i, t, arguments, r) == reject(
            j,
            i,
            guard_refusal(diagnostic).0,
            guard_refusal(diagnostic).1,
            r.drop_first(),
        ),
{
}

/// What an executor produced is refused where a slot would not have its type.
pub proof fn law_mistyped_slots_are_refused(
    j: JobView,
    f: FiredView,
    res: ResultView,
    elapsed_ms: u64,
    merged: JsonView,
    fault: (Seq<char>, Seq<char>),
    r: Seq<ReplyView>,
)
    requires
        r.len() > 1,
        r[0] == ReplyView::Merged(Ok(merged)),
        r[1] matches ReplyView::Verdicts(v) && {
            let checks = all_checks(
                f.instance.definition,
                f.transition_def.get("output"@),
                advanced(merged, j.request.transition),
            );
            v.len() == checks.len() && slot_violation(checks, v) == Some(fault)
        },
    ensures
        produced(j, f, res, elapsed_ms, r) == reject(
            j,
            f.instance,
            "BLACKBOARD_TYPE_ERROR"@,
            type_fault(fault.0, fault.1),
            r.drop_first().drop_first(),
        ),
{
}

/// What a transition without an executor writes is refused where a slot would not have its type.
pub proof fn law_mistyped_arguments_are_refused(
    j: JobView,
    f: FiredView,
    context: JsonView,
    fault: (Seq<char>, Seq<char>),
    r: Seq<ReplyView>,
)
    requires
        r.len() > 1,
        r[0] == ReplyView::Merged(Ok(context)),
        r[1] matches ReplyView::Verdicts(v) && {
            let checks = all_checks(
                f.instance.definition,
                f.transition_def.get("output"@),
                context,
            );
            v.len() == checks.len() && slot_violation(checks, v) == Some(fault)
        },
    ensures
        plain(j, f, r) == reject(
            j,
            f.instance,
            "BLACKBOARD_TYPE_ERROR"@,
            type_fault(fault.0, fault.1),
            r.drop_first().drop_first(),
        ),
{
}

/// What an executor produced is refused where a slot would break a constraint.
pub proof fn law_broken_constraints_are_refused(
    j: JobView,
    f: FiredView,
    w: WorkView,
    r: Seq<ReplyView>,
)
    requires
        first_violation(f.instance.definition, f.instance.state, w.context) is Some,
    ensures
        accepted(j, f, w, r) == reject(
            j,
            f.instance,
            "SLOT_CONSTRAINT_VIOLATED"@,
            first_violation(f.instance.definition, f.instance.state, w.context)->0.message,
            r,
        ),
{
}

} // verus!
