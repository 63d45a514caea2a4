//! What holds of every dispatch, whatever the replies are.

use vstd::prelude::*;

use crate::json::JsonView;
use crate::model::{ActingView, InstanceView};
use crate::repo_locks::owned_files;
use crate::runtime::context::{agent_await, given_up};
use crate::runtime::dispatch::{
    chain_ended, checked, commit, committing, dispatch, entered, entering, executing, failed,
    fired, full_arguments, gate, guarded, judged, leaving, lock_holder, lock_wait, locking, moved,
    parked, plain, produced, releasing, respond, step_wait, stored, suspend_on_lock,
    suspend_on_step, wait_key, DispatchView, FiredView, GateView, JobView, WorkView,
};
use crate::runtime::effects::{
    ErrorView, FailureView, GuardsView, NextView, OutcomeView, ResultView, SuspendView,
};
use crate::runtime::links::{text_or, transition_def};
use crate::runtime::script::{first, EffectView, ReplyView};

verus! {

/// Whether some reply says that the guards passed.
pub open spec fn guards_passed(r: Seq<ReplyView>) -> bool {
    exists|k: int|
        0 <= k < r.len() && (#[trigger] r[k] matches ReplyView::Guards(GuardsView::Judged { pass, .. })
            && pass)
}

proof fn lemma_judged_runs_nothing(
    j: JobView,
    f: FiredView,
    result: Result<ResultView, ErrorView>,
    elapsed_ms: u64,
    r: Seq<ReplyView>,
)
    ensures
        !(judged(j, f, result, elapsed_ms, r) matches DispatchView::Do(EffectView::Execute { .. })),
{
    lemma_commit_runs_nothing(j, f, r);
    match result {
        Ok(res) => match res.suspend {
            Some(s) => {},
            None => {
                assert forall|w: WorkView, q: Seq<ReplyView>|
                    !(#[trigger] commit(j, f, w, q) matches DispatchView::Do(
                        EffectView::Execute { .. },
                    )) by {
                    lemma_commit_never_executes(j, f, w, q);
                }
            },
        },
        Err(err) => {},
    }
}

proof fn lemma_commit_runs_nothing(j: JobView, f: FiredView, r: Seq<ReplyView>)
    ensures
        forall|w: WorkView|
            !(#[trigger] commit(j, f, w, r) matches DispatchView::Do(EffectView::Execute { .. })),
{
    assert forall|w: WorkView|
        !(#[trigger] commit(j, f, w, r) matches DispatchView::Do(EffectView::Execute { .. })) by {
        lemma_commit_never_executes(j, f, w, r);
    }
}

proof fn lemma_chain_ended_never_executes(
    j: JobView,
    definition: JsonView,
    w: WorkView,
    o: OutcomeView,
    r: Seq<ReplyView>,
)
    ensures
        !(chain_ended(j, definition, w, o, r) matches DispatchView::Do(EffectView::Execute { .. })),
{
}

proof fn lemma_stored_never_executes(
    j: JobView,
    definition: JsonView,
    w: WorkView,
    saved: InstanceView,
    r: Seq<ReplyView>,
)
    ensures
        !(stored(j, definition, w, saved, r) matches DispatchView::Do(EffectView::Execute { .. })),
{
    assert forall|o: OutcomeView, q: Seq<ReplyView>|
        !(#[trigger] chain_ended(j, definition, w, o, q) matches DispatchView::Do(
            EffectView::Execute { .. },
        )) by {
        lemma_chain_ended_never_executes(j, definition, w, o, q);
    }
}

proof fn lemma_commit_never_executes(j: JobView, f: FiredView, w: WorkView, r: Seq<ReplyView>)
    ensures
        !(commit(j, f, w, r) matches DispatchView::Do(EffectView::Execute { .. })),
{
    let definition = f.instance.definition;
    assert forall|saved: InstanceView, q: Seq<ReplyView>|
        !(#[trigger] stored(j, definition, w, saved, q) matches DispatchView::Do(
            EffectView::Execute { .. },
        )) by {
        lemma_stored_never_executes(j, definition, w, saved, q);
    }
}

proof fn lemma_fired_executes(j: JobView, f: FiredView, r: Seq<ReplyView>)
    ensures
        fired(j, f, r) matches DispatchView::Do(EffectView::Execute { instance, arguments, .. })
            ==> instance == f.instance && arguments == f.arguments,
{
    assert forall|w: WorkView, q: Seq<ReplyView>|
        !(#[trigger] commit(j, f, w, q) matches DispatchView::Do(EffectView::Execute { .. })) by {
        lemma_commit_never_executes(j, f, w, q);
    }
    assert forall|result: Result<ResultView, ErrorView>, ms: u64, q: Seq<ReplyView>|
        !(#[trigger] judged(j, f, result, ms, q) matches DispatchView::Do(
            EffectView::Execute { .. },
        )) by {
        lemma_judged_runs_nothing(j, f, result, ms, q);
    }
}

/// An executor runs only on the instance that was looked up, in the version that was
/// asked for, not cancelled, for a transition that it may fire, after the guards passed.
pub proof fn law_only_admitted_transitions_execute(j: JobView, r: Seq<ReplyView>)
    ensures
        dispatch(j, r) matches DispatchView::Do(EffectView::Execute { instance, arguments, .. }) ==> {
            &&& r[0] == ReplyView::Instance(Ok(instance))
            &&& instance.cancelled_at is None
            &&& instance.version == j.request.expected_version
            &&& gate(j.request, instance) matches GateView::Pass(t) && arguments == full_arguments(
                t,
                j.request.arguments,
            )
            &&& guards_passed(r)
        },
{
    if dispatch(j, r) matches DispatchView::Do(EffectView::Execute { .. }) {
        let i = r[0]->Instance_0->Ok_0;
        let r2 = r.drop_first().drop_first().drop_first();
        assert(dispatch(j, r) == checked(j, i, r2));
        let t = gate(j.request, i)->Pass_0;
        let arguments = full_arguments(t, j.request.arguments);
        let r3 = if t.step("inputSchema"@) is None {
            r2
        } else {
            r2.drop_first()
        };
        assert(checked(j, i, r2) == guarded(j, i, t, arguments, r3));
        let f = FiredView {
            instance: i,
            transition_def: t,
            arguments,
            guards: r3[0]->Guards_0->evaluated,
        };
        assert(guarded(j, i, t, arguments, r3) == fired(j, f, r3.drop_first()));
        lemma_fired_executes(j, f, r3.drop_first());
        if t.step("inputSchema"@) is None {
            assert(r3[0] == r[3]);
        } else {
            assert(r3[0] == r[4]);
        }
    }
}

/// What is left to a person, a person decides: an executor runs for a transition that only a
/// person may fire, or for one that waits for a person's answer, only where a person submitted
/// it.
pub proof fn law_people_decide(j: JobView, r: Seq<ReplyView>)
    ensures
        dispatch(j, r) matches DispatchView::Do(EffectView::Execute { instance, .. }) ==> {
            &&& transition_def(instance.definition, instance.state, j.request.transition) matches Some(
                t,
            ) && (t.get_str("actor"@) == Some("human"@) ==> j.request.principal.human())
            &&& agent_await(instance.context, j.request.transition) is Some ==> j.request.principal.human()
        },
{
    law_only_admitted_transitions_execute(j, r);
}

/// Whether a definition is looked up anew.
spec fn looks_up(v: DispatchView) -> bool {
    v matches DispatchView::Do(EffectView::LoadDefinition { .. })
}

proof fn lemma_commit_keeps_definition(j: JobView, f: FiredView, w: WorkView, r: Seq<ReplyView>)
    ensures
        !looks_up(commit(j, f, w, r)),
{
    let definition = f.instance.definition;
    assert forall|saved: InstanceView, q: Seq<ReplyView>|
        !looks_up(#[trigger] stored(j, definition, w, saved, q)) by {
        assert forall|o: OutcomeView, s: Seq<ReplyView>|
            !looks_up(#[trigger] chain_ended(j, definition, w, o, s)) by {}
    }
}

proof fn lemma_fired_keeps_definition(j: JobView, f: FiredView, r: Seq<ReplyView>)
    ensures
        !looks_up(fired(j, f, r)),
{
    assert forall|w: WorkView, q: Seq<ReplyView>| !looks_up(#[trigger] commit(j, f, w, q)) by {
        lemma_commit_keeps_definition(j, f, w, q);
    }
    assert forall|result: Result<ResultView, ErrorView>, ms: u64, q: Seq<ReplyView>|
        !looks_up(#[trigger] judged(j, f, result, ms, q)) by {}
}

/// A running instance keeps the definition that it was started with: a submitted transition
/// never has a definition looked up, so no change of the definitions can disturb it.
pub proof fn law_running_instances_keep_their_definition(j: JobView, r: Seq<ReplyView>)
    ensures
        !(dispatch(j, r) matches DispatchView::Do(EffectView::LoadDefinition { .. })),
{
    assert forall|f: FiredView, q: Seq<ReplyView>| !looks_up(#[trigger] fired(j, f, q)) by {
        lemma_fired_keeps_definition(j, f, q);
    }
    assert(!looks_up(dispatch(j, r)));
}

/// A transition that the checks refuse changes nothing: all that is done for it is to apply
/// the timeout, to write entries, and to respond.
pub proof fn law_refused_transitions_change_nothing(
    j: JobView,
    i: InstanceView,
    r: Seq<ReplyView>,
)
    requires
        r.len() > 0,
        r[0] == ReplyView::Instance(Ok(i)),
        gate(j.request, i) is Reject,
    ensures
        dispatch(j, r) matches DispatchView::Do(e) ==> e is CheckTimeout || e is Audit || e
            is Respond,
        dispatch(j, r) matches DispatchView::Done(Ok((_, next))) ==> next is None,
{
}

/// A cancelled instance refuses every transition, without an effect.
pub proof fn law_cancelled_instances_refuse(j: JobView, i: InstanceView, r: Seq<ReplyView>)
    requires
        r.len() > 0,
        r[0] == ReplyView::Instance(Ok(i)),
        i.cancelled_at is Some,
    ensures
        dispatch(j, r) matches DispatchView::Done(Err(FailureView::Text(_))),
{
}

proof fn lemma_push_drop<A>(q: Seq<A>, x: A)
    requires
        q.len() > 0,
    ensures
        q.push(x).drop_first() == q.drop_first().push(x),
        q.push(x)[0] == q[0],
{
    assert(q.push(x).drop_first() =~= q.drop_first().push(x));
}

proof fn lemma_executing_last(
    j: JobView,
    f: FiredView,
    config: JsonView,
    files: Seq<Seq<char>>,
    r: Seq<ReplyView>,
)
    ensures
        executing(j, f, config, files, r) matches DispatchView::Do(EffectView::Execute { .. })
            ==> r.len() == 0,
{
    if r.len() > 0 {
        assert forall|result: Result<ResultView, ErrorView>, ms: u64, q: Seq<ReplyView>|
            !(#[trigger] judged(j, f, result, ms, q) matches DispatchView::Do(
                EffectView::Execute { .. },
            )) by {
            lemma_judged_runs_nothing(j, f, result, ms, q);
        }
    }
}

proof fn lemma_fired_releases(
    j: JobView,
    f: FiredView,
    r: Seq<ReplyView>,
    result: Result<ResultView, ErrorView>,
    elapsed_ms: u64,
)
    requires
        fired(j, f, r) matches DispatchView::Do(EffectView::Execute { .. }),
    ensures
        fired(j, f, r) matches DispatchView::Do(EffectView::Execute { config, .. }) && (
        j.wiring.locks && owned_files(config).len() > 0 ==> fired(
            j,
            f,
            r.push(ReplyView::Executed { result, elapsed_ms }),
        ) == DispatchView::Do(
            EffectView::Release { files: owned_files(config), holder: lock_holder(f.instance.id) },
        )),
{
    let x = ReplyView::Executed { result, elapsed_ms };
    assert forall|w: WorkView, q: Seq<ReplyView>|
        !(#[trigger] commit(j, f, w, q) matches DispatchView::Do(EffectView::Execute { .. })) by {
        lemma_commit_never_executes(j, f, w, q);
    }
    let config = f.transition_def.get("executor"@)->0;
    let files = owned_files(config);
    let r1 = r.drop_first();
    lemma_push_drop(r, x);
    assert(fired(j, f, r) == locking(j, f, config, r1));
    if j.wiring.locks && files.len() > 0 {
        let r2 = r1.drop_first();
        let r3 = r2.drop_first();
        lemma_push_drop(r1, x);
        lemma_push_drop(r2, x);
        lemma_executing_last(j, f, config, files, r3);
        assert(executing(j, f, config, files, r3.push(x)) == releasing(
            j,
            f,
            files,
            result,
            elapsed_ms,
            r3.push(x).drop_first(),
        ));
        assert(r3.push(x).drop_first() =~= Seq::empty());
    } else {
        lemma_executing_last(j, f, config, Seq::empty(), r1);
    }
}

/// The locks that are held for an executor are given back as soon as it is done, whether it
/// did well or failed.
pub proof fn law_locks_are_given_back(
    j: JobView,
    r: Seq<ReplyView>,
    result: Result<ResultView, ErrorView>,
    elapsed_ms: u64,
)
    ensures
        dispatch(j, r) matches DispatchView::Do(EffectView::Execute { instance, config, .. }) ==> (
        j.wiring.locks && owned_files(config).len() > 0 ==> dispatch(
            j,
            r.push(ReplyView::Executed { result, elapsed_ms }),
        ) == DispatchView::Do(
            EffectView::Release { files: owned_files(config), holder: lock_holder(instance.id) },
        )),
{
    if dispatch(j, r) matches DispatchView::Do(EffectView::Execute { .. }) {
        let x = ReplyView::Executed { result, elapsed_ms };
        let i = r[0]->Instance_0->Ok_0;
        let ra = r.drop_first();
        let rb = ra.drop_first();
        let r2 = rb.drop_first();
        assert(dispatch(j, r) == checked(j, i, r2));
        lemma_push_drop(r, x);
        lemma_push_drop(ra, x);
        lemma_push_drop(rb, x);
        assert(dispatch(j, r.push(x)) == checked(j, i, r2.push(x)));
        let t = gate(j.request, i)->Pass_0;
        let arguments = full_arguments(t, j.request.arguments);
        let r3 = if t.step("inputSchema"@) is None {
            r2
        } else {
            r2.drop_first()
        };
        assert(checked(j, i, r2) == guarded(j, i, t, arguments, r3));
        if t.step("inputSchema"@) is Some {
            lemma_push_drop(r2, x);
        }
        assert(checked(j, i, r2.push(x)) == guarded(j, i, t, arguments, r3.push(x)));
        let f = FiredView {
            instance: i,
            transition_def: t,
            arguments,
            guards: r3[0]->Guards_0->evaluated,
        };
        lemma_push_drop(r3, x);
        lemma_fired_executes(j, f, r3.drop_first());
        lemma_fired_releases(j, f, r3.drop_first(), result, elapsed_ms);
    }
}

/// A wait that an executor asked for is stored before anything is said of it, and what is said
/// is said of the stored instance. Where it cannot be stored, that is the answer.
pub proof fn law_waits_are_stored_first(
    who: ActingView,
    base: InstanceView,
    transition: Seq<char>,
    expected: u64,
    s: SuspendView,
    r: Seq<ReplyView>,
    e: FailureView,
)
    ensures
        suspend_on_step(who, base, transition, expected, s, Seq::empty()) == DispatchView::Do(
            EffectView::Save {
                instance: parked(base, wait_key(s), step_wait(s, transition)),
                expected_version: expected,
            },
        ),
        suspend_on_step(who, base, transition, expected, s, r) matches DispatchView::Do(
            EffectView::Respond { instance, .. },
        ) ==> r[0] == ReplyView::Instance(Ok(instance)),
        suspend_on_step(who, base, transition, expected, s, seq![ReplyView::Instance(Err(e))])
            == DispatchView::Done(Err(e)),
{
}

/// A wait for files is stored before the line is joined and before anything is said of it, and
/// what is said is said of the stored instance. Where it cannot be stored, that is the answer.
pub proof fn law_waits_for_files_are_stored_first(
    who: ActingView,
    scheduler: bool,
    base: InstanceView,
    transition: Seq<char>,
    expected: u64,
    files: Seq<Seq<char>>,
    conflicts: Seq<(Seq<char>, Seq<char>)>,
    r: Seq<ReplyView>,
    e: FailureView,
)
    ensures
        suspend_on_lock(who, scheduler, base, transition, expected, files, conflicts, Seq::empty())
            == DispatchView::Do(
            EffectView::Save {
                instance: parked(base, "_lock_wait"@, lock_wait(files, conflicts, transition)),
                expected_version: expected,
            },
        ),
        match suspend_on_lock(who, scheduler, base, transition, expected, files, conflicts, r) {
            DispatchView::Do(EffectView::Respond { instance, .. }) => r[0] == ReplyView::Instance(
                Ok(instance),
            ),
            DispatchView::Do(EffectView::Enqueue { .. }) => {
                r[0] matches ReplyView::Instance(Ok(_))
            },
            _ => true,
        },
        suspend_on_lock(
            who,
            scheduler,
            base,
            transition,
            expected,
            files,
            conflicts,
            seq![ReplyView::Instance(Err(e))],
        ) == DispatchView::Done(Err(e)),
{
}

/// Whether an instance is another one in the same state, one version on.
pub open spec fn stays(base: InstanceView, i: InstanceView) -> bool {
    i.state == base.state && i.version == (base.version + 1) as u64
}

/// Whether an instance is one that was looked up, or one that a chain ended with, in the
/// same state, one version on.
pub open spec fn stays_put(r: Seq<ReplyView>, i: InstanceView) -> bool {
    exists|k: int|
        0 <= k < r.len() && match #[trigger] r[k] {
            ReplyView::Instance(Ok(b)) => stays(b, i),
            ReplyView::Chained(Ok(o)) => stays(crate::runtime::script::chain_end(o), i),
            _ => false,
        }
}

/// Whether the last reply says that the record of an instance was written.
pub open spec fn just_recorded(before: DispatchView, r: Seq<ReplyView>, i: InstanceView) -> bool {
    &&& r.len() > 0
    &&& r.last() matches ReplyView::Done(Ok(_))
    &&& before matches DispatchView::Do(EffectView::Record { params, .. }) && params.instance == i
}

proof fn lemma_stays_put_later(r: Seq<ReplyView>, i: InstanceView)
    requires
        r.len() > 0,
        stays_put(r.drop_first(), i),
    ensures
        stays_put(r, i),
{
    let q = r.drop_first();
    let k = choose|k: int|
        0 <= k < q.len() && match #[trigger] q[k] {
            ReplyView::Instance(Ok(b)) => stays(b, i),
            ReplyView::Chained(Ok(o)) => stays(crate::runtime::script::chain_end(o), i),
            _ => false,
        };
    assert(r[k + 1] == q[k]);
}

pub proof fn lemma_drop_both(r: Seq<ReplyView>)
    requires
        r.len() > 1,
    ensures
        r.drop_last().drop_first() == r.drop_first().drop_last(),
        first(r.drop_last()) == first(r),
        r.drop_first().last() == r.last(),
{
    assert(r.drop_last().drop_first() =~= r.drop_first().drop_last());
}

proof fn lemma_chain_ended_saves(
    j: JobView,
    definition: JsonView,
    w: WorkView,
    o: OutcomeView,
    r: Seq<ReplyView>,
)
    ensures
        chain_ended(j, definition, w, o, r) matches DispatchView::Do(EffectView::Save { instance, .. })
            ==> stays(crate::runtime::script::chain_end(o), instance),
{
}

proof fn lemma_stored_saves(
    j: JobView,
    definition: JsonView,
    w: WorkView,
    saved: InstanceView,
    r: Seq<ReplyView>,
)
    ensures
        stored(j, definition, w, saved, r) matches DispatchView::Do(EffectView::Save { instance, .. })
            ==> stays_put(r, instance),
{
    if let DispatchView::Do(EffectView::Save { instance, .. }) = stored(j, definition, w, saved, r) {
        let r1 = if j.wiring.evidence {
            r.drop_first()
        } else {
            r
        };
        assert(stored(j, definition, w, saved, r) == entering(j, definition, w, saved, r1));
        let i = r1[0]->Instance_0->Ok_0;
        let r2 = r1.drop_first();
        assert(entering(j, definition, w, saved, r1) == entered(j, definition, w, i, r2));
        let r3 = r2.drop_first();
        let o = r3[0]->Chained_0->Ok_0;
        lemma_chain_ended_saves(j, definition, w, o, r3.drop_first());
        let k: int = if j.wiring.evidence {
            3
        } else {
            2
        };
        assert(r[k] == r3[0]);
    }
}

proof fn lemma_committing_saves(
    j: JobView,
    f: FiredView,
    w: WorkView,
    next: InstanceView,
    r: Seq<ReplyView>,
)
    ensures
        committing(j, f, w, next, r) matches DispatchView::Do(EffectView::Save { instance, .. })
            ==> stays_put(r, instance) || just_recorded(
            committing(j, f, w, next, r.drop_last()),
            r,
            instance,
        ),
{
    if let DispatchView::Do(EffectView::Save { instance, .. }) = committing(j, f, w, next, r) {
        let r1 = r.drop_first();
        if r1.len() == 0 {
            assert(r.drop_last() =~= Seq::empty());
            assert(r.last() == r[0]);
        } else {
            let saved = r1[0]->Instance_0->Ok_0;
            lemma_stored_saves(j, f.instance.definition, w, saved, r1.drop_first());
            lemma_stays_put_later(r1, instance);
            lemma_stays_put_later(r, instance);
        }
    }
}

proof fn lemma_leaving_saves(
    j: JobView,
    f: FiredView,
    w: WorkView,
    looped: InstanceView,
    target: Seq<char>,
    r: Seq<ReplyView>,
)
    ensures
        leaving(j, f, w, looped, target, r) matches DispatchView::Do(EffectView::Save { instance, .. })
            ==> stays_put(r, instance) || just_recorded(
            leaving(j, f, w, looped, target, r.drop_last()),
            r,
            instance,
        ),
{
    if let DispatchView::Do(EffectView::Save { instance, .. }) = leaving(j, f, w, looped, target, r) {
        let definition = f.instance.definition;
        let from = f.instance.state;
        let gone = given_up(definition, from, target, looped.context);
        let next = moved(from, target, looped, definition);
        if gone.len() > 0 {
            let q = r.drop_first();
            lemma_committing_saves(j, f, w, next, q);
            if stays_put(q, instance) {
                lemma_stays_put_later(r, instance);
            } else {
                lemma_drop_both(r);
            }
        } else {
            lemma_committing_saves(j, f, w, next, r);
        }
    }
}

proof fn lemma_commit_saves(j: JobView, f: FiredView, w: WorkView, r: Seq<ReplyView>)
    ensures
        commit(j, f, w, r) matches DispatchView::Do(EffectView::Save { instance, .. }) ==> stays_put(
            r,
            instance,
        ) || just_recorded(commit(j, f, w, r.drop_last()), r, instance),
{
    if let DispatchView::Do(EffectView::Save { instance, .. }) = commit(j, f, w, r) {
        let r1 = r.drop_first();
        let r2 = r1.drop_first();
        let target = r[0]->Target_0->Ok_0;
        let looped = r1[0]->Looped_0->Ok_0.0;
        let to = text_or(r1[0]->Looped_0->Ok_0.1, target);
        assert(commit(j, f, w, r) == leaving(j, f, w, looped, to, r2));
        lemma_leaving_saves(j, f, w, looped, to, r2);
        if stays_put(r2, instance) {
            lemma_stays_put_later(r1, instance);
            lemma_stays_put_later(r, instance);
        } else {
            lemma_drop_both(r1);
            lemma_drop_both(r);
        }
    }
}

/// Whether an instance is the one that was fired on, in the same state, one version on, or
/// one that stays put otherwise, or one whose record was just written.
spec fn saved_rightly(
    base: InstanceView,
    before: DispatchView,
    r: Seq<ReplyView>,
    i: InstanceView,
) -> bool {
    stays(base, i) || stays_put(r, i) || just_recorded(before, r, i)
}

proof fn lemma_plain_saves(j: JobView, f: FiredView, r: Seq<ReplyView>)
    ensures
        plain(j, f, r) matches DispatchView::Do(EffectView::Save { instance, .. }) ==> saved_rightly(
            f.instance,
            plain(j, f, r.drop_last()),
            r,
            instance,
        ),
{
    if let DispatchView::Do(EffectView::Save { instance, .. }) = plain(j, f, r) {
        let r1 = r.drop_first();
        let r2 = r1.drop_first();
        let w = WorkView {
            context: r[0]->Merged_0->Ok_0,
            evidence: Seq::empty(),
            child_workflow_id: None,
            executor: None,
            next_transition: None,
        };
        assert(plain(j, f, r) == commit(j, f, w, r2));
        lemma_commit_saves(j, f, w, r2);
        if stays_put(r2, instance) {
            lemma_stays_put_later(r1, instance);
            lemma_stays_put_later(r, instance);
        } else {
            lemma_drop_both(r1);
            lemma_drop_both(r);
        }
    }
}

proof fn lemma_produced_saves(
    j: JobView,
    f: FiredView,
    res: ResultView,
    elapsed_ms: u64,
    r: Seq<ReplyView>,
)
    ensures
        produced(j, f, res, elapsed_ms, r) matches DispatchView::Do(EffectView::Save { instance, .. })
            ==> saved_rightly(
            f.instance,
            produced(j, f, res, elapsed_ms, r.drop_last()),
            r,
            instance,
        ),
{
    if let DispatchView::Do(EffectView::Save { instance, .. }) = produced(j, f, res, elapsed_ms, r) {
        let r1 = r.drop_first();
        let r2 = r1.drop_first();
        let w = WorkView {
            context: crate::runtime::context::advanced(
                r[0]->Merged_0->Ok_0,
                j.request.transition,
            ),
            evidence: res.evidence,
            child_workflow_id: res.child_workflow_id,
            executor: Some((true, elapsed_ms)),
            next_transition: res.next_transition,
        };
        assert(produced(j, f, res, elapsed_ms, r) == commit(j, f, w, r2));
        lemma_commit_saves(j, f, w, r2);
        if stays_put(r2, instance) {
            lemma_stays_put_later(r1, instance);
            lemma_stays_put_later(r, instance);
        } else {
            lemma_drop_both(r1);
            lemma_drop_both(r);
        }
    }
}

proof fn lemma_judged_saves(
    j: JobView,
    f: FiredView,
    result: Result<ResultView, ErrorView>,
    elapsed_ms: u64,
    r: Seq<ReplyView>,
)
    ensures
        judged(j, f, result, elapsed_ms, r) matches DispatchView::Do(EffectView::Save { instance, .. })
            ==> saved_rightly(
            f.instance,
            judged(j, f, result, elapsed_ms, r.drop_last()),
            r,
            instance,
        ),
{
    if let Ok(res) = result {
        if res.suspend is None {
            lemma_produced_saves(j, f, res, elapsed_ms, r);
        }
    }
}

proof fn lemma_releasing_saves(
    j: JobView,
    f: FiredView,
    files: Seq<Seq<char>>,
    result: Result<ResultView, ErrorView>,
    elapsed_ms: u64,
    r: Seq<ReplyView>,
)
    ensures
        releasing(j, f, files, result, elapsed_ms, r) matches DispatchView::Do(
            EffectView::Save { instance, .. },
        ) ==> saved_rightly(
            f.instance,
            releasing(j, f, files, result, elapsed_ms, r.drop_last()),
            r,
            instance,
        ),
{
    if let DispatchView::Do(EffectView::Save { instance, .. }) = releasing(j, f, files, result, elapsed_ms, r) {
        let r1 = r.drop_first();
        let r2 = r1.drop_first();
        let r3 = r2.drop_first();
        lemma_judged_saves(j, f, result, elapsed_ms, r3);
        if stays(f.instance, instance) {
        } else if stays_put(r3, instance) {
            lemma_stays_put_later(r2, instance);
            lemma_stays_put_later(r1, instance);
            lemma_stays_put_later(r, instance);
        } else {
            lemma_drop_both(r2);
            lemma_drop_both(r1);
            lemma_drop_both(r);
        }
    }
}

proof fn lemma_executing_saves(
    j: JobView,
    f: FiredView,
    config: JsonView,
    files: Seq<Seq<char>>,
    r: Seq<ReplyView>,
)
    ensures
        executing(j, f, config, files, r) matches DispatchView::Do(EffectView::Save { instance, .. })
            ==> saved_rightly(
            f.instance,
            executing(j, f, config, files, r.drop_last()),
            r,
            instance,
        ),
{
    if let DispatchView::Do(EffectView::Save { instance, .. }) = executing(j, f, config, files, r) {
        let q = r.drop_first();
        let result = r[0]->Executed_result;
        let ms = r[0]->elapsed_ms;
        if files.len() > 0 {
            lemma_releasing_saves(j, f, files, result, ms, q);
        } else {
            lemma_judged_saves(j, f, result, ms, q);
        }
        if stays(f.instance, instance) {
        } else if stays_put(q, instance) {
            lemma_stays_put_later(r, instance);
        } else {
            lemma_drop_both(r);
        }
    }
}

proof fn lemma_locking_saves(j: JobView, f: FiredView, config: JsonView, r: Seq<ReplyView>)
    ensures
        locking(j, f, config, r) matches DispatchView::Do(EffectView::Save { instance, .. })
            ==> saved_rightly(f.instance, locking(j, f, config, r.drop_last()), r, instance),
{
    if let DispatchView::Do(EffectView::Save { instance, .. }) = locking(j, f, config, r) {
        let files = owned_files(config);
        if j.wiring.locks && files.len() > 0 {
            if r[0] matches ReplyView::Locks(Ok(_)) {
                let r1 = r.drop_first();
                let r2 = r1.drop_first();
                lemma_executing_saves(j, f, config, files, r2);
                if stays(f.instance, instance) {
                } else if stays_put(r2, instance) {
                    lemma_stays_put_later(r1, instance);
                    lemma_stays_put_later(r, instance);
                } else {
                    lemma_drop_both(r1);
                    lemma_drop_both(r);
                }
            }
        } else {
            lemma_executing_saves(j, f, config, Seq::empty(), r);
        }
    }
}

proof fn lemma_fired_saves(j: JobView, f: FiredView, r: Seq<ReplyView>)
    ensures
        fired(j, f, r) matches DispatchView::Do(EffectView::Save { instance, .. }) ==> saved_rightly(
            f.instance,
            fired(j, f, r.drop_last()),
            r,
            instance,
        ),
{
    if let DispatchView::Do(EffectView::Save { instance, .. }) = fired(j, f, r) {
        match f.transition_def.get("executor"@) {
            None => {
                lemma_plain_saves(j, f, r);
            },
            Some(config) => {
                let q = r.drop_first();
                lemma_locking_saves(j, f, config, q);
                if stays(f.instance, instance) {
                } else if stays_put(q, instance) {
                    lemma_stays_put_later(r, instance);
                } else {
                    lemma_drop_both(r);
                }
            },
        }
    }
}

/// An instance moves to another state only by a store right after the record of that very
/// instance was written. Every other store leaves the state as it is and raises the
/// version by one.
pub proof fn law_record_first(j: JobView, r: Seq<ReplyView>)
    ensures
        dispatch(j, r) matches DispatchView::Do(EffectView::Save { instance, .. }) ==> stays_put(
            r,
            instance,
        ) || just_recorded(dispatch(j, r.drop_last()), r, instance),
{
    if let DispatchView::Do(EffectView::Save { instance, .. }) = dispatch(j, r) {
        let i = r[0]->Instance_0->Ok_0;
        let ra = r.drop_first();
        let rb = ra.drop_first();
        let r2 = rb.drop_first();
        assert(dispatch(j, r) == checked(j, i, r2));
        let t = gate(j.request, i)->Pass_0;
        let arguments = full_arguments(t, j.request.arguments);
        let r3 = if t.step("inputSchema"@) is None {
            r2
        } else {
            r2.drop_first()
        };
        assert(checked(j, i, r2) == guarded(j, i, t, arguments, r3));
        let f = FiredView {
            instance: i,
            transition_def: t,
            arguments,
            guards: r3[0]->Guards_0->evaluated,
        };
        let q = r3.drop_first();
        assert(guarded(j, i, t, arguments, r3) == fired(j, f, q));
        lemma_fired_saves(j, f, q);
        if stays(i, instance) {
            assert(r[0] == ReplyView::Instance(Ok(i)));
        } else if stays_put(q, instance) {
            lemma_stays_put_later(r3, instance);
            if t.step("inputSchema"@) is Some {
                lemma_stays_put_later(r2, instance);
            }
            lemma_stays_put_later(rb, instance);
            lemma_stays_put_later(ra, instance);
            lemma_stays_put_later(r, instance);
        } else {
            lemma_drop_both(r3);
            if t.step("inputSchema"@) is Some {
                lemma_drop_both(r2);
            }
            lemma_drop_both(rb);
            lemma_drop_both(ra);
            lemma_drop_both(r);
            assert(dispatch(j, r.drop_last()) == checked(j, i, r2.drop_last()));
            assert(checked(j, i, r2.drop_last()) == guarded(j, i, t, arguments, r3.drop_last()));
        }
    }
}

/// Whether an executor that did well chose this transition as the next one.
pub open spec fn chosen(r: Seq<ReplyView>, n: NextView) -> bool {
    exists|k: int|
        0 <= k < r.len() && (#[trigger] r[k] matches ReplyView::Executed { result: Ok(res), .. }
            && res.next_transition == Some(n))
}

/// Whether a chain came to its end.
pub open spec fn chain_completed(r: Seq<ReplyView>) -> bool {
    exists|k: int|
        0 <= k < r.len() && (#[trigger] r[k] matches ReplyView::Chained(Ok(OutcomeView::Completed(_))))
}

proof fn lemma_completed_later(r: Seq<ReplyView>)
    requires
        r.len() > 0,
        chain_completed(r.drop_first()),
    ensures
        chain_completed(r),
{
    let q = r.drop_first();
    let k = choose|k: int|
        0 <= k < q.len() && (#[trigger] q[k] matches ReplyView::Chained(
            Ok(OutcomeView::Completed(_)),
        ));
    assert(r[k + 1] == q[k]);
}

proof fn lemma_commit_continues(j: JobView, f: FiredView, w: WorkView, r: Seq<ReplyView>)
    ensures
        commit(j, f, w, r) matches DispatchView::Done(Ok((_, Some(n)))) ==> w.next_transition == Some(
            n,
        ) && chain_completed(r),
{
    if let DispatchView::Done(Ok((m, Some(n)))) = commit(j, f, w, r) {
        let r1 = r.drop_first();
        let r2 = r1.drop_first();
        let target = r[0]->Target_0->Ok_0;
        let looped = r1[0]->Looped_0->Ok_0.0;
        let to = text_or(r1[0]->Looped_0->Ok_0.1, target);
        assert(commit(j, f, w, r) == leaving(j, f, w, looped, to, r2));
        let definition = f.instance.definition;
        let from = f.instance.state;
        let gone = given_up(definition, from, to, looped.context);
        let next = moved(from, to, looped, definition);
        let r3 = if gone.len() > 0 {
            r2.drop_first()
        } else {
            r2
        };
        assert(leaving(j, f, w, looped, to, r2) == committing(j, f, w, next, r3));
        let r4 = r3.drop_first();
        let saved = r4[0]->Instance_0->Ok_0;
        let r5 = r4.drop_first();
        assert(committing(j, f, w, next, r3) == stored(j, definition, w, saved, r5));
        let r6 = if j.wiring.evidence {
            r5.drop_first()
        } else {
            r5
        };
        assert(stored(j, definition, w, saved, r5) == entering(j, definition, w, saved, r6));
        let i = r6[0]->Instance_0->Ok_0;
        let r7 = r6.drop_first();
        let r8 = r7.drop_first();
        let o = r8[0]->Chained_0->Ok_0;
        assert(entered(j, definition, w, i, r7) == chain_ended(
            j,
            definition,
            w,
            o,
            r8.drop_first(),
        ));
        assert(o is Completed);
        assert(chain_completed(r8));
        lemma_completed_later(r7);
        lemma_completed_later(r6);
        if j.wiring.evidence {
            lemma_completed_later(r5);
        }
        lemma_completed_later(r4);
        lemma_completed_later(r3);
        if gone.len() > 0 {
            lemma_completed_later(r2);
        }
        lemma_completed_later(r1);
        lemma_completed_later(r);
    }
}

proof fn lemma_judged_continues(
    j: JobView,
    f: FiredView,
    result: Result<ResultView, ErrorView>,
    elapsed_ms: u64,
    r: Seq<ReplyView>,
)
    ensures
        judged(j, f, result, elapsed_ms, r) matches DispatchView::Done(Ok((_, Some(n)))) ==> (
        result matches Ok(res) && res.next_transition == Some(n)) && chain_completed(r),
{
    if let DispatchView::Done(Ok((m, Some(n)))) = judged(j, f, result, elapsed_ms, r) {
        let res = result->Ok_0;
        let r1 = r.drop_first();
        let r2 = r1.drop_first();
        let w = WorkView {
            context: crate::runtime::context::advanced(
                r[0]->Merged_0->Ok_0,
                j.request.transition,
            ),
            evidence: res.evidence,
            child_workflow_id: res.child_workflow_id,
            executor: Some((true, elapsed_ms)),
            next_transition: res.next_transition,
        };
        assert(produced(j, f, res, elapsed_ms, r) == commit(j, f, w, r2));
        lemma_commit_continues(j, f, w, r2);
        lemma_completed_later(r1);
        lemma_completed_later(r);
    }
}

/// A dispatch is followed by another one only where its executor did well and chose that
/// transition, and the chain after it came to its end.
pub proof fn law_only_success_continues(j: JobView, r: Seq<ReplyView>)
    ensures
        dispatch(j, r) matches DispatchView::Done(Ok((_, Some(n)))) ==> chosen(r, n)
            && chain_completed(r),
{
    if let DispatchView::Done(Ok((m, Some(n)))) = dispatch(j, r) {
        let i = r[0]->Instance_0->Ok_0;
        let ra = r.drop_first();
        let rb = ra.drop_first();
        let r2 = rb.drop_first();
        assert(dispatch(j, r) == checked(j, i, r2));
        let t = gate(j.request, i)->Pass_0;
        let arguments = full_arguments(t, j.request.arguments);
        let r3 = if t.step("inputSchema"@) is None {
            r2
        } else {
            r2.drop_first()
        };
        assert(checked(j, i, r2) == guarded(j, i, t, arguments, r3));
        let f = FiredView {
            instance: i,
            transition_def: t,
            arguments,
            guards: r3[0]->Guards_0->evaluated,
        };
        let r4 = r3.drop_first();
        assert(guarded(j, i, t, arguments, r3) == fired(j, f, r4));
        if t.get("executor"@) is None {
            let q1 = r4.drop_first();
            let q2 = q1.drop_first();
            let w = WorkView {
                context: r4[0]->Merged_0->Ok_0,
                evidence: Seq::empty(),
                child_workflow_id: None,
                executor: None,
                next_transition: None,
            };
            assert(plain(j, f, r4) == commit(j, f, w, q2));
            lemma_commit_continues(j, f, w, q2);
        } else {
            let config = t.get("executor"@)->0;
            let files = owned_files(config);
            let held = j.wiring.locks && files.len() > 0;
            let r5 = r4.drop_first();
            assert(fired(j, f, r4) == locking(j, f, config, r5));
            let r6 = if held {
                r5.drop_first().drop_first()
            } else {
                r5
            };
            let kept = if held {
                files
            } else {
                Seq::empty()
            };
            assert(locking(j, f, config, r5) == executing(j, f, config, kept, r6));
            let result = r6[0]->Executed_result;
            let ms = r6[0]->elapsed_ms;
            let r7 = r6.drop_first();
            let r8 = if held {
                r7.drop_first().drop_first().drop_first()
            } else {
                r7
            };
            assert(executing(j, f, config, kept, r6) == judged(j, f, result, ms, r8));
            lemma_judged_continues(j, f, result, ms, r8);
            if held {
                lemma_completed_later(r7.drop_first().drop_first());
                lemma_completed_later(r7.drop_first());
                lemma_completed_later(r7);
            }
            lemma_completed_later(r6);
            if held {
                lemma_completed_later(r5.drop_first());
                lemma_completed_later(r5);
            }
            lemma_completed_later(r4);
            lemma_completed_later(r3);
            if t.step("inputSchema"@) is Some {
                lemma_completed_later(r2);
            }
            lemma_completed_later(rb);
            lemma_completed_later(ra);
            lemma_completed_later(r);
            let k: int = (if t.step("inputSchema"@) is Some {
                6int
            } else {
                5int
            }) + (if held {
                2int
            } else {
                0int
            });
            assert(r[k] == r6[0]);
        }
    }
}

} // verus!
