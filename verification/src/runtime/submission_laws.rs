//! What a submission asks for, and with what: every effect carries what the request, the looked-up
//! instance, its declaration and the replies so far say.

use vstd::prelude::*;

use crate::json::{lemma_reads_put, JsonView};
use crate::model::{ActingView, InstanceView};
use crate::repo_locks::owned_files;
use crate::runtime::context::{advanced, file_list, given_up, left_behind};
use crate::runtime::dispatch::{
    annotated, blockers, chain_ended, checked, commit, committing, completed_entry, dispatch,
    entered, entering, executing, failure_entry, files_entry, fired, full_arguments, gate, guarded,
    judged, keeping, lock_wait, locking, moved, parked, plain, produced, quarantined, step_wait,
    stored, suspend_on_lock, suspend_on_step, suspended_entry, transitioned_entry, wait_key,
    DispatchView, FiredView, GateView, JobView, WorkView,
};
use crate::runtime::effects::{
    ErrorView, EvidenceView, GuardsView, OutcomeView, ProgressView, ResultView, StatusHint,
    SuspendView,
};
use crate::runtime::links::{terminal, text_or, transition_def};
use crate::runtime::records::{all_checks, slot_violation, violation, SlotCheckView};
use crate::runtime::schema::SchemaVerdict;
use crate::runtime::script::{EffectView, ReplyView};
use crate::scan::lemma_found_nowhere;

verus! {

/// Where in the replies to a submission the steps of its work stand; a step that was not taken
/// stands nowhere. The steps come in this order, and behind the look-up of the instance.
pub struct Places {
    /// The locks were refused.
    pub refused: int,
    /// The executor came back.
    pub ran: int,
    /// The output was merged.
    pub merged: int,
    /// The target was chosen.
    pub target: int,
    /// The loop of the state was looked at.
    pub looped: int,
    /// The move was stored.
    pub saved: int,
    /// The new state was entered.
    pub entered: int,
    /// The chain ended.
    pub chained: int,
}

/// No step yet.
pub open spec fn nowhere() -> Places {
    Places {
        refused: -1,
        ran: -1,
        merged: -1,
        target: -1,
        looped: -1,
        saved: -1,
        entered: -1,
        chained: -1,
    }
}

/// Whether a place is one of the replies behind the look-up.
pub open spec fn among(r: Seq<ReplyView>, k: int) -> bool {
    0 < k < r.len()
}

/// What the executor of a transition came back with, at its place.
pub open spec fn ran(r: Seq<ReplyView>, h: Places) -> Option<(ResultView, u64)> {
    if among(r, h.ran) {
        match r[h.ran] {
            ReplyView::Executed { result: Ok(res), elapsed_ms } => Some((res, elapsed_ms)),
            _ => None,
        }
    } else {
        None
    }
}

/// What the executor of a transition failed with, at its place.
pub open spec fn failure(r: Seq<ReplyView>, h: Places) -> Option<ErrorView> {
    if among(r, h.ran) {
        match r[h.ran] {
            ReplyView::Executed { result: Err(err), .. } => Some(err),
            _ => None,
        }
    } else {
        None
    }
}

/// The context that the output was merged into.
pub open spec fn merged(r: Seq<ReplyView>, h: Places) -> Option<JsonView> {
    if among(r, h.merged) {
        match r[h.merged] {
            ReplyView::Merged(Ok(context)) => Some(context),
            _ => None,
        }
    } else {
        None
    }
}

/// An instance that came back at a place.
pub open spec fn instance_at(r: Seq<ReplyView>, k: int) -> Option<InstanceView> {
    if among(r, k) {
        match r[k] {
            ReplyView::Instance(Ok(i)) => Some(i),
            _ => None,
        }
    } else {
        None
    }
}

/// How the chain ended.
pub open spec fn chained(r: Seq<ReplyView>, h: Places) -> Option<OutcomeView> {
    if among(r, h.chained) {
        match r[h.chained] {
            ReplyView::Chained(Ok(o)) => Some(o),
            _ => None,
        }
    } else {
        None
    }
}

/// What a transition wrote: the merged context; with an executor, without the wait that the
/// transition had.
pub open spec fn written(j: JobView, f: FiredView, r: Seq<ReplyView>, h: Places) -> Option<JsonView> {
    match merged(r, h) {
        Some(context) => if f.transition_def.get("executor"@) is Some {
            Some(advanced(context, j.request.transition))
        } else {
            Some(context)
        },
        None => None,
    }
}

/// What the executor of a transition vouched for; nothing without an executor.
pub open spec fn vouched(f: FiredView, r: Seq<ReplyView>, h: Places) -> Seq<EvidenceView> {
    match (f.transition_def.get("executor"@), ran(r, h)) {
        (Some(_), Some((res, _))) => res.evidence,
        _ => Seq::empty(),
    }
}

/// Whether an instance is another one but for its context.
pub open spec fn only_context(i: InstanceView, later: InstanceView) -> bool {
    later == (InstanceView { context: later.context, ..i })
}

/// The instance that a transition leads to: in the state that was chosen, unless the loop leads
/// back; one version on; without what belonged to the state that is left; else as the loop left
/// it.
pub open spec fn led_to(f: FiredView, r: Seq<ReplyView>, h: Places, next: InstanceView) -> bool {
    &&& among(r, h.target)
    &&& among(r, h.looped)
    &&& h.target < h.looped
    &&& r[h.target] matches ReplyView::Target(Ok(target)) && r[h.looped] matches ReplyView::Looped(
        Ok((looped, back)),
    ) && {
        &&& next.state == (match back {
            Some(b) => b,
            None => target,
        })
        &&& next.version == (looped.version + 1) as u64
        &&& next.context == left_behind(
            f.instance.definition,
            f.instance.state,
            next.state,
            looped.context,
        )
        &&& next == (InstanceView {
            state: next.state,
            version: next.version,
            context: next.context,
            ..looped
        })
    }
}

/// Whether an instance carries a wait under a key, one version on, and is else as it was.
pub open spec fn parks(i: InstanceView, later: InstanceView, key: Seq<char>) -> bool {
    &&& later.version == (i.version + 1) as u64
    &&& later == (InstanceView { version: later.version, context: later.context, ..i })
    &&& later.context.get(key) is Some
    &&& forall|other: Seq<char>| other != key && i.context is Object ==> #[trigger]
        later.context.get(other) == i.context.get(other)
}

/// Whether a wait tells what an executor waits for, and in which transition.
pub open spec fn tells_wait(wait: JsonView, s: SuspendView, transition: Seq<char>) -> bool {
    &&& wait.get_str("transition"@) == Some(transition)
    &&& match s {
        SuspendView::Subworkflow { child_workflow_id } => wait.get_str("child_workflow_id"@)
            == Some(child_workflow_id),
        SuspendView::AgentAwait { correlation_id, prompt } => wait.get_str("correlation_id"@)
            == Some(correlation_id) && wait.get_str("prompt"@) == Some(prompt),
    }
}

/// The key of what an executor waits for.
pub open spec fn step_key(s: SuspendView) -> Seq<char> {
    match s {
        SuspendView::Subworkflow { .. } => "_subworkflow_wait"@,
        SuspendView::AgentAwait { .. } => "_agent_await"@,
    }
}

/// Whether a wait tells which files are waited for, who holds them, and in which transition.
pub open spec fn tells_files(
    wait: JsonView,
    files: Seq<Seq<char>>,
    conflicts: Seq<(Seq<char>, Seq<char>)>,
    transition: Seq<char>,
) -> bool {
    &&& wait.get_str("transition"@) == Some(transition)
    &&& wait.get_array("files"@) matches Some(a) && a.len() == files.len() && forall|k: int|
        0 <= k < files.len() ==> #[trigger] a[k] == JsonView::Str(files[k])
    &&& wait.get_array("blockedBy"@) matches Some(b) && b.len() == conflicts.len() && forall|k: int|
        0 <= k < conflicts.len() ==> (#[trigger] b[k]).get_str("file"@) == Some(conflicts[k].0)
            && b[k].get_str("holder"@) == Some(conflicts[k].1)
}

/// Whether all slots that a transition wrote were found to fit their schemas, right after the
/// output was merged.
pub open spec fn all_fit(j: JobView, f: FiredView, r: Seq<ReplyView>, h: Places) -> bool {
    &&& among(r, h.merged + 1)
    &&& written(j, f, r, h) matches Some(context) && r[h.merged + 1] matches ReplyView::Verdicts(v)
        && {
        let checks = all_checks(f.instance.definition, f.transition_def.get("output"@), context);
        &&& v.len() == checks.len()
        &&& forall|k: int| 0 <= k < v.len() ==> #[trigger] v[k] == SchemaVerdict::Valid
        &&& forall|k: int| 0 <= k < v.len() ==> !(#[trigger] checks[k] is Unregistered)
    }
}

/// How an effect of the work of a transition, up to the store of its move, fits what was asked
/// for and what came back.
#[verifier::opaque]
pub open spec fn fits(
    j: JobView,
    f: FiredView,
    r: Seq<ReplyView>,
    h: Places,
    e: EffectView,
) -> bool {
    let i = f.instance;
    let t = f.transition_def;
    let config = t.get("executor"@);
    let who = ActingView { principal: j.request.principal, correlation_id: j.correlation_id };
    match e {
        EffectView::Merge { context, output, arguments, input, result } => {
            &&& context == i.context
            &&& input == i.input
            &&& output == t.get("output"@)
            &&& arguments == f.arguments
            &&& config is None ==> result == JsonView::Null
            &&& config is Some ==> (ran(r, h) matches Some((res, _)) && result == res.output)
                || (failure(r, h) matches Some(err) && err.updates == Some(result))
        },
        EffectView::CheckSlots { checks } => {
            &&& written(j, f, r, h) matches Some(context)
            &&& checks == all_checks(i.definition, t.get("output"@), context)
        },
        EffectView::ParsePolicy { reliability } => reliability == t.get("reliability"@),
        EffectView::Acquire { files, holder, ttl_secs } => {
            &&& j.wiring.locks
            &&& config is Some && files == owned_files(config->0)
            &&& holder == "wf:"@ + i.id
            &&& ttl_secs == 300
        },
        EffectView::Release { files, holder } => {
            &&& config is Some && files == owned_files(config->0)
            &&& holder == "wf:"@ + i.id
        },
        EffectView::Execute { instance, fired, arguments, config: c, reliability, correlation_id } => {
            &&& instance == i
            &&& fired == Some(j.request.transition)
            &&& arguments == f.arguments
            &&& Some(c) == config
            &&& reliability == t.get("reliability"@)
            &&& correlation_id == j.correlation_id
            &&& j.wiring.locks && owned_files(c).len() > 0 ==> r.len() > 2 && r[r.len() - 2]
                == ReplyView::Locks(Ok(()))
        },
        EffectView::ResolveTarget { acting, transition_def, instance, arguments } => {
            &&& acting == who
            &&& transition_def == t
            &&& arguments == f.arguments
            &&& all_fit(j, f, r, h)
            &&& only_context(i, instance)
            &&& written(j, f, r, h) matches Some(context) && annotated(j.request, f, context)
                == Some(instance.context)
        },
        EffectView::Loop { acting, from_state, instance, arguments } => {
            &&& acting == who
            &&& from_state == i.state
            &&& arguments == f.arguments
            &&& only_context(i, instance)
            &&& written(j, f, r, h) matches Some(context) && annotated(j.request, f, context)
                == Some(instance.context)
        },
        EffectView::Record { params, correlation_id } => {
            &&& correlation_id == j.correlation_id
            &&& led_to(f, r, h, params.instance)
            &&& params.before == i.context
            &&& params.from_state == i.state
            &&& params.transition == j.request.transition
            &&& params.transition_def == t
            &&& params.arguments == f.arguments
            &&& params.guards == f.guards
            &&& params.actor == (match t.get_str("actor"@) {
                Some(a) => a,
                None => "agent"@,
            })
            &&& params.principal == (if params.actor == "deterministic"@ || params.actor
                == "system"@ {
                None
            } else {
                Some(j.request.principal.subject)
            })
            &&& config is None ==> params.executor is None && params.child_workflow_id is None
            &&& config is Some ==> (ran(r, h) matches Some((res, ms)) && params.executor == Some(
                (true, ms),
            ) && params.child_workflow_id == res.child_workflow_id)
        },
        EffectView::Save { instance, expected_version } => saves(j, f, r, h, instance, expected_version),
        EffectView::Enqueue { workflow_id, transition, files, principal } => {
            &&& config is Some && files == owned_files(config->0)
            &&& transition == j.request.transition
            &&& principal == j.request.principal
            &&& instance_at(r, h.saved) matches Some(saved) && workflow_id == saved.id
        },
        EffectView::Respond { instance, hint, error, principal } => {
            &&& principal == j.request.principal
            &&& match hint {
                StatusHint::Rejected => instance == i && error is Some,
                StatusHint::Failed => error is Some && failure(r, h) is Some && (instance == i
                    || instance_at(r, h.saved) == Some(instance)),
                StatusHint::WaitingOnLock => error is None && instance_at(r, h.saved) == Some(
                    instance,
                ) && among(r, h.refused),
                StatusHint::WaitingOnSubworkflow => error is None && instance_at(r, h.saved)
                    == Some(instance) && (ran(r, h) matches Some((res, _)) && res.suspend matches Some(
                    s,
                ) && s is Subworkflow),
                StatusHint::WaitingOnAgentAwait => error is None && instance_at(r, h.saved) == Some(
                    instance,
                ) && (ran(r, h) matches Some((res, _)) && res.suspend matches Some(s)
                    && s is AgentAwait),
                _ => false,
            }
        },
        EffectView::Audit { event, .. } => {
            ||| (config is Some && event == files_entry(event.event_type, i.id, owned_files(config->0)))
            ||| (ran(r, h) matches Some((res, _)) && (res.suspend matches Some(s) && event
                == suspended_entry(i.id, s, j.request.transition)))
            ||| (failure(r, h) matches Some(err) && (event == failure_entry(j, i, err, true) || event
                == failure_entry(j, i, err, false) || (instance_at(r, h.saved) matches Some(x) && (event
                == failure_entry(j, x, err, true) || event == failure_entry(j, x, err, false)))))
            ||| (event.actor == Some(j.request.principal.subject) && event.correlation_id == Some(
                j.correlation_id,
            ) && (event.event_type == "workflow.slot.cleared"@ || (event.event_type
                == "transition.rejected"@ && event.workflow_id == Some(i.id))))
        },
        EffectView::ResumeReadyLocks => true,
        _ => false,
    }
}

/// How a store in the work of a transition fits: it is the move, or a wait for files that were
/// refused, or a wait that the executor asked for, or what a failed executor wants kept. Each is
/// stored over the version that was asked for.
pub open spec fn saves(
    j: JobView,
    f: FiredView,
    r: Seq<ReplyView>,
    h: Places,
    next: InstanceView,
    expected: u64,
) -> bool {
    let i = f.instance;
    let t = f.transition_def;
    &&& expected == j.request.expected_version
    &&& {
        ||| led_to(f, r, h, next)
        ||| {
            &&& among(r, h.refused)
            &&& r[h.refused] matches ReplyView::Locks(Err(conflicts))
            &&& parks(i, next, "_lock_wait"@)
            &&& t.get("executor"@) is Some && tells_files(
                next.context.get("_lock_wait"@)->0,
                owned_files(t.get("executor"@)->0),
                conflicts,
                j.request.transition,
            )
        }
        ||| {
            &&& ran(r, h) matches Some((res, _))
            &&& res.suspend matches Some(s)
            &&& parks(i, next, step_key(s))
            &&& tells_wait(next.context.get(step_key(s))->0, s, j.request.transition)
        }
        ||| {
            &&& failure(r, h) matches Some(err)
            &&& err.updates is Some
            &&& next.version == (i.version + 1) as u64
            &&& next == (InstanceView { version: next.version, context: next.context, ..i })
            &&& merged(r, h) == Some(next.context)
        }
    }
}

/// How an effect behind the store of a move fits: what follows speaks of the instance that the
/// store handed back, then of the one that the entry handed back, then of the one that the chain
/// left behind.
#[verifier::opaque]
pub open spec fn follows_up(
    j: JobView,
    f: FiredView,
    r: Seq<ReplyView>,
    h: Places,
    e: EffectView,
) -> bool {
    let definition = f.instance.definition;
    let who = ActingView { principal: j.request.principal, correlation_id: j.correlation_id };
    &&& instance_at(r, h.saved) matches Some(saved)
    &&& match e {
        EffectView::KeepEvidence { workflow_id, evidence } => {
            &&& j.wiring.evidence
            &&& workflow_id == saved.id
            &&& evidence == vouched(f, r, h)
        },
        EffectView::OnEnter { instance, correlation_id } => {
            &&& instance == saved
            &&& correlation_id == j.correlation_id
            &&& r.len() == h.saved + (if j.wiring.evidence {
                2int
            } else {
                1int
            })
        },
        EffectView::Chain { instance, max_depth, acting } => {
            &&& h.saved < h.entered && instance_at(r, h.entered) == Some(instance)
            &&& max_depth == (match definition.get_u64("maxChainDepth"@) {
                Some(n) => n,
                None => 50,
            })
            &&& acting == who
        },
        EffectView::Audit { event, .. } => {
            ||| (h.saved < h.entered && (instance_at(r, h.entered) matches Some(x) && event
                == transitioned_entry(j, x)))
            ||| (h.entered < h.chained && (chained(r, h) matches Some(o) && settles(
                j,
                definition,
                o,
                r,
                h,
                e,
            )))
        },
        _ => h.entered < h.chained && (chained(r, h) matches Some(o) && settles(j, definition, o, r, h, e)),
    }
}

/// How an effect behind a chain fits the way in which the chain ended.
#[verifier::opaque]
pub open spec fn settles(
    j: JobView,
    definition: JsonView,
    o: OutcomeView,
    r: Seq<ReplyView>,
    h: Places,
    e: EffectView,
) -> bool {
    let who = ActingView { principal: j.request.principal, correlation_id: j.correlation_id };
    match e {
        EffectView::EmitOutcome { hint, instance, acting } => {
            &&& o matches OutcomeView::Completed(p) && instance == p.instance && terminal(
                definition,
                p.instance.state,
            )
            &&& r.len() == h.chained + 2
            &&& hint == StatusHint::Executed
            &&& acting == who
        },
        EffectView::ResumeParent { instance } => {
            &&& o matches OutcomeView::Completed(p) && instance == p.instance && terminal(
                definition,
                p.instance.state,
            )
            &&& r.len() == h.chained + 3
        },
        EffectView::Cancel { workflow_id, reason } => o matches OutcomeView::Quarantined {
            partial,
            reason: why,
        } && workflow_id == partial.instance.id && reason == why,
        EffectView::Load { workflow_id } => o matches OutcomeView::Quarantined { partial, .. }
            && workflow_id == partial.instance.id,
        EffectView::Save { instance, expected_version } => match o {
            OutcomeView::Suspended { partial, suspend, transition } => {
                &&& expected_version == partial.instance.version
                &&& parks(partial.instance, instance, step_key(suspend))
                &&& tells_wait(instance.context.get(step_key(suspend))->0, suspend, transition)
            },
            OutcomeView::WaitingOnLock { partial, transition, files, conflicts } => {
                &&& expected_version == partial.instance.version
                &&& parks(partial.instance, instance, "_lock_wait"@)
                &&& tells_files(
                    instance.context.get("_lock_wait"@)->0,
                    files,
                    conflicts,
                    transition,
                )
            },
            _ => false,
        },
        EffectView::Enqueue { workflow_id, transition, files, principal } => {
            &&& o matches OutcomeView::WaitingOnLock { transition: due, files: needed, .. }
                && transition == due && files == needed
            &&& principal == j.request.principal
            &&& instance_at(r, h.chained + 1) matches Some(parked) && workflow_id == parked.id
        },
        EffectView::Respond { instance, hint, error, principal } => {
            &&& principal == j.request.principal
            &&& match o {
                OutcomeView::Completed(p) => instance == p.instance && hint == StatusHint::Executed
                    && error is None && r.len() == h.chained + (if terminal(
                    definition,
                    p.instance.state,
                ) {
                    4int
                } else {
                    1int
                }),
                OutcomeView::Failed { partial, error: why, error_class, failed_transition } => {
                    &&& instance == partial.instance
                    &&& hint == StatusHint::Failed
                    &&& error matches Some(x) && x.get_str("code"@) == Some("CHAIN_FAILED"@)
                        && x.get_str("message"@) == Some(why) && x.get_str("errorClass"@) == Some(
                        error_class,
                    ) && x.get_str("attemptedTransition"@) == Some(failed_transition)
                },
                OutcomeView::Suspended { suspend, .. } => {
                    &&& instance_at(r, h.chained + 1) == Some(instance)
                    &&& hint == (match suspend {
                        SuspendView::Subworkflow { .. } => StatusHint::WaitingOnSubworkflow,
                        SuspendView::AgentAwait { .. } => StatusHint::WaitingOnAgentAwait,
                    })
                    &&& error is None
                },
                OutcomeView::WaitingOnLock { .. } => {
                    &&& instance_at(r, h.chained + 1) == Some(instance)
                    &&& hint == StatusHint::WaitingOnLock
                    &&& error is None
                    &&& r.len() == h.chained + (if j.wiring.scheduler {
                        4int
                    } else {
                        3int
                    })
                },
                OutcomeView::Quarantined { reason, .. } => {
                    &&& instance_at(r, h.chained + 2) == Some(instance)
                    &&& hint == StatusHint::Cancelled
                    &&& error matches Some(x) && x.get_str("code"@) == Some("LIVELOCK_QUARANTINE"@)
                        && x.get_str("message"@) == Some(reason)
                },
            }
        },
        EffectView::Audit { event, .. } => match o {
            OutcomeView::Completed(p) => terminal(definition, p.instance.state) && event
                == completed_entry(j.correlation_id, p.instance),
            OutcomeView::Suspended { partial, suspend, transition } => event == suspended_entry(
                partial.instance.id,
                suspend,
                transition,
            ),
            OutcomeView::WaitingOnLock { partial, files, .. } => event == files_entry(
                "lock.wait.suspended"@,
                partial.instance.id,
                files,
            ),
            _ => false,
        },
        _ => false,
    }
}

/// What the work of a transition came to, as the replies tell it.
spec fn work_of(j: JobView, f: FiredView, r: Seq<ReplyView>, h: Places, w: WorkView) -> bool {
    let config = f.transition_def.get("executor"@);
    &&& written(j, f, r, h) == Some(w.context)
    &&& all_fit(j, f, r, h)
    &&& w.evidence == vouched(f, r, h)
    &&& config is None ==> w.executor is None && w.child_workflow_id is None && w.next_transition
        is None
    &&& config is Some ==> (ran(r, h) matches Some((res, ms)) && w.executor == Some((true, ms))
        && w.child_workflow_id == res.child_workflow_id && w.next_transition
        == res.next_transition)
}

spec fn fit(j: JobView, f: FiredView, r: Seq<ReplyView>, h: Places, v: DispatchView) -> bool {
    v matches DispatchView::Do(e) ==> fits(j, f, r, h, e) || follows_up(j, f, r, h, e)
}

proof fn lemma_behind(all: Seq<ReplyView>, n: int)
    requires
        0 <= n <= all.len(),
    ensures
        all.skip(n).len() == all.len() - n,
        n < all.len() ==> all.skip(n)[0] == all[n] && all.skip(n).drop_first() == all.skip(n + 1),
{
    if n < all.len() {
        assert(all.skip(n).drop_first() =~= all.skip(n + 1));
    }
}

/// The members that waits and errors have are not mixed up.
pub proof fn lemma_member_names()
    ensures
        "transition"@ != "files"@,
        "transition"@ != "blockedBy"@,
        "files"@ != "blockedBy"@,
        "transition"@ != "child_workflow_id"@,
        "transition"@ != "correlation_id"@,
        "transition"@ != "prompt"@,
        "correlation_id"@ != "prompt"@,
        "file"@ != "holder"@,
        "code"@ != "message"@,
        "code"@ != "errorClass"@,
        "code"@ != "attemptedTransition"@,
        "message"@ != "errorClass"@,
        "message"@ != "attemptedTransition"@,
        "errorClass"@ != "attemptedTransition"@,
        "code"@ != "cancelled_reason"@,
        "message"@ != "cancelled_reason"@,
{
    reveal_strlit("transition");
    reveal_strlit("files");
    reveal_strlit("blockedBy");
    reveal_strlit("child_workflow_id");
    reveal_strlit("correlation_id");
    reveal_strlit("prompt");
    reveal_strlit("file");
    reveal_strlit("holder");
    reveal_strlit("code");
    reveal_strlit("message");
    reveal_strlit("errorClass");
    reveal_strlit("attemptedTransition");
    reveal_strlit("cancelled_reason");
    assert("transition"@.len() == 10);
    assert("files"@.len() == 5);
    assert("blockedBy"@.len() == 9);
    assert("child_workflow_id"@.len() == 17);
    assert("correlation_id"@.len() == 14);
    assert("prompt"@.len() == 6);
    assert("file"@.len() == 4);
    assert("holder"@.len() == 6);
    assert("code"@.len() == 4);
    assert("message"@.len() == 7);
    assert("errorClass"@.len() == 10);
    assert("attemptedTransition"@.len() == 19);
    assert("cancelled_reason"@.len() == 16);
}

/// Where no check was violated, every slot was found to fit and none was unknown.
pub proof fn lemma_all_fit(checks: Seq<SlotCheckView>, v: Seq<SchemaVerdict>)
    requires
        v.len() == checks.len(),
        slot_violation(checks, v) is None,
    ensures
        forall|k: int| 0 <= k < v.len() ==> #[trigger] v[k] == SchemaVerdict::Valid,
        forall|k: int| 0 <= k < v.len() ==> !(#[trigger] checks[k] is Unregistered),
{
    let found = |i: int| violation(checks[i], v[i]);
    lemma_found_nowhere(checks.len(), found);
    assert forall|k: int| 0 <= k < v.len() implies #[trigger] v[k] == SchemaVerdict::Valid
        && !(checks[k] is Unregistered) by {
        assert(found(k) is None);
    }
    assert forall|k: int| 0 <= k < v.len() implies !(#[trigger] checks[k] is Unregistered) by {
        assert(v[k] == SchemaVerdict::Valid);
    }
}

/// A parked instance carries its wait, and nothing else of it changes but the version.
pub proof fn lemma_parked(i: InstanceView, key: Seq<char>, wait: JsonView)
    ensures
        parks(i, parked(i, key, wait), key),
        parked(i, key, wait).context.get(key) == Some(wait),
{
    broadcast use lemma_reads_put;

}

/// What a wait for files tells, member by member.
pub proof fn lemma_lock_wait(
    files: Seq<Seq<char>>,
    conflicts: Seq<(Seq<char>, Seq<char>)>,
    transition: Seq<char>,
)
    ensures
        tells_files(lock_wait(files, conflicts, transition), files, conflicts, transition),
{
    broadcast use lemma_reads_put;

    lemma_member_names();
    let wait = lock_wait(files, conflicts, transition);
    assert(wait.get_array("files"@) == Some(file_list(files)));
    assert(wait.get_array("blockedBy"@) == Some(blockers(conflicts)));
    assert(wait.get_str("transition"@) == Some(transition));
    assert forall|k: int| 0 <= k < conflicts.len() implies (#[trigger] blockers(conflicts)[k]).get_str(
        "file"@,
    ) == Some(conflicts[k].0) && blockers(conflicts)[k].get_str("holder"@) == Some(
        conflicts[k].1,
    ) by {}
}

/// What a wait for another instance or an answer tells, member by member.
pub proof fn lemma_step_wait(s: SuspendView, transition: Seq<char>)
    ensures
        wait_key(s) == step_key(s),
        tells_wait(step_wait(s, transition), s, transition),
{
    broadcast use lemma_reads_put;

    lemma_member_names();
}

proof fn lemma_suspend_on_step(
    j: JobView,
    definition: JsonView,
    o: OutcomeView,
    all: Seq<ReplyView>,
    h: Places,
    p: ProgressView,
    transition: Seq<char>,
    s: SuspendView,
)
    requires
        0 < h.chained < all.len(),
        o == (OutcomeView::Suspended { partial: p, suspend: s, transition }),
    ensures
        suspend_on_step(
            j.acting(),
            p.instance,
            transition,
            p.instance.version,
            s,
            all.skip(h.chained + 1),
        ) matches DispatchView::Do(e) ==> settles(j, definition, o, all, h, e),
{
    reveal(settles);
    let n = h.chained + 1;
    lemma_behind(all, n);
    lemma_parked(p.instance, wait_key(s), step_wait(s, transition));
    lemma_step_wait(s, transition);
}

proof fn lemma_suspend_on_lock(
    j: JobView,
    definition: JsonView,
    o: OutcomeView,
    all: Seq<ReplyView>,
    h: Places,
    p: ProgressView,
    transition: Seq<char>,
    files: Seq<Seq<char>>,
    conflicts: Seq<(Seq<char>, Seq<char>)>,
)
    requires
        0 < h.chained < all.len(),
        o == (OutcomeView::WaitingOnLock { partial: p, transition, files, conflicts }),
    ensures
        suspend_on_lock(
            j.acting(),
            j.wiring.scheduler,
            p.instance,
            transition,
            p.instance.version,
            files,
            conflicts,
            all.skip(h.chained + 1),
        ) matches DispatchView::Do(e) ==> settles(j, definition, o, all, h, e),
{
    reveal(settles);
    let n = h.chained + 1;
    lemma_behind(all, n);
    lemma_parked(p.instance, "_lock_wait"@, lock_wait(files, conflicts, transition));
    lemma_lock_wait(files, conflicts, transition);
}

proof fn lemma_quarantined(
    j: JobView,
    definition: JsonView,
    o: OutcomeView,
    all: Seq<ReplyView>,
    h: Places,
    p: ProgressView,
    reason: Seq<char>,
)
    requires
        0 < h.chained < all.len(),
        o == (OutcomeView::Quarantined { partial: p, reason }),
    ensures
        quarantined(j.acting(), p, reason, all.skip(h.chained + 1)) matches DispatchView::Do(e)
            ==> settles(j, definition, o, all, h, e),
{
    reveal(settles);
    broadcast use lemma_reads_put;

    lemma_member_names();
    let n = h.chained + 1;
    lemma_behind(all, n);
    if n < all.len() {
        lemma_behind(all, n + 1);
    }
}

proof fn lemma_chain_ended(
    j: JobView,
    definition: JsonView,
    w: WorkView,
    o: OutcomeView,
    all: Seq<ReplyView>,
    h: Places,
)
    requires
        0 < h.chained < all.len(),
        all[h.chained] == ReplyView::Chained(Ok(o)),
    ensures
        chain_ended(j, definition, w, o, all.skip(h.chained + 1)) matches DispatchView::Do(e)
            ==> settles(j, definition, o, all, h, e),
{
    reveal(settles);
    match o {
        OutcomeView::Completed(p) => {},
        OutcomeView::Failed { partial, error, error_class, failed_transition } => {
            broadcast use lemma_reads_put;

            lemma_member_names();
        },
        OutcomeView::Suspended { partial, suspend, transition } => lemma_suspend_on_step(
            j,
            definition,
            o,
            all,
            h,
            partial,
            transition,
            suspend,
        ),
        OutcomeView::WaitingOnLock { partial, transition, files, conflicts } =>
            lemma_suspend_on_lock(j, definition, o, all, h, partial, transition, files, conflicts),
        OutcomeView::Quarantined { partial, reason } => lemma_quarantined(
            j,
            definition,
            o,
            all,
            h,
            partial,
            reason,
        ),
    }
}

proof fn lemma_entering(
    j: JobView,
    f: FiredView,
    w: WorkView,
    all: Seq<ReplyView>,
    n: int,
    h: Places,
    saved: InstanceView,
) -> (g: Places)
    requires
        0 < h.saved < n <= all.len(),
        n == h.saved + (if j.wiring.evidence {
            2int
        } else {
            1int
        }),
        instance_at(all, h.saved) == Some(saved),
    ensures
        entering(j, f.instance.definition, w, saved, all.skip(n)) matches DispatchView::Do(e)
            ==> follows_up(j, f, all, g, e),
{
    reveal(follows_up);
    let definition = f.instance.definition;
    let g = Places { entered: n, chained: n + 2, ..h };
    lemma_behind(all, n);
    if n < all.len() {
        lemma_behind(all, n + 1);
        if n + 1 < all.len() {
            lemma_behind(all, n + 2);
            if n + 2 < all.len() {
                if let ReplyView::Chained(Ok(o)) = all[n + 2] {
                    lemma_chain_ended(j, definition, w, o, all, g);
                }
            }
        }
    }
    g
}

proof fn lemma_stored(
    j: JobView,
    f: FiredView,
    w: WorkView,
    all: Seq<ReplyView>,
    n: int,
    h: Places,
    saved: InstanceView,
) -> (g: Places)
    requires
        0 < h.saved < n <= all.len(),
        n == h.saved + 1,
        instance_at(all, h.saved) == Some(saved),
        w.evidence == vouched(f, all, h),
    ensures
        stored(j, f.instance.definition, w, saved, all.skip(n)) matches DispatchView::Do(e)
            ==> follows_up(j, f, all, g, e),
{
    reveal(follows_up);
    lemma_behind(all, n);
    if j.wiring.evidence {
        if n < all.len() {
            lemma_entering(j, f, w, all, n + 1, h, saved)
        } else {
            h
        }
    } else {
        lemma_entering(j, f, w, all, n, h, saved)
    }
}

proof fn lemma_committing(
    j: JobView,
    f: FiredView,
    w: WorkView,
    next: InstanceView,
    all: Seq<ReplyView>,
    n: int,
    h: Places,
) -> (g: Places)
    requires
        0 < n <= all.len(),
        led_to(f, all, h, next),
        work_of(j, f, all, h, w),
    ensures
        fit(j, f, all, g, committing(j, f, w, next, all.skip(n))),
{
    reveal(fits);
    lemma_behind(all, n);
    if n < all.len() {
        lemma_behind(all, n + 1);
        if n + 1 < all.len() {
            let g = Places { saved: n + 1, ..h };
            if let ReplyView::Instance(Ok(saved)) = all[n + 1] {
                assert(all.skip(n).drop_first().drop_first() == all.skip(n + 2));
                lemma_stored(j, f, w, all, n + 2, g, saved)
            } else {
                g
            }
        } else {
            h
        }
    } else {
        h
    }
}

proof fn lemma_commit(
    j: JobView,
    f: FiredView,
    w: WorkView,
    all: Seq<ReplyView>,
    n: int,
    h: Places,
) -> (g: Places)
    requires
        0 < n <= all.len(),
        work_of(j, f, all, h, w),
    ensures
        fit(j, f, all, g, commit(j, f, w, all.skip(n))),
{
    reveal(fits);
    lemma_behind(all, n);
    if n + 1 < all.len() {
        lemma_behind(all, n + 1);
        let g = Places { target: n, looped: n + 1, ..h };
        match (all[n], all[n + 1]) {
            (ReplyView::Target(Ok(target)), ReplyView::Looped(Ok((looped, back)))) => {
                let to = text_or(back, target);
                let next = moved(f.instance.state, to, looped, f.instance.definition);
                assert(led_to(f, all, g, next));
                assert(work_of(j, f, all, g, w));
                lemma_behind(all, n + 2);
                if given_up(f.instance.definition, f.instance.state, to, looped.context).len() > 0 {
                    if n + 2 < all.len() {
                        lemma_committing(j, f, w, next, all, n + 3, g)
                    } else {
                        g
                    }
                } else {
                    lemma_committing(j, f, w, next, all, n + 2, g)
                }
            },
            _ => g,
        }
    } else {
        h
    }
}

proof fn lemma_plain(j: JobView, f: FiredView, all: Seq<ReplyView>, n: int, h: Places) -> (g: Places)
    requires
        0 < n <= all.len(),
        f.transition_def.get("executor"@) is None,
    ensures
        fit(j, f, all, g, plain(j, f, all.skip(n))),
{
    reveal(fits);
    lemma_behind(all, n);
    if n < all.len() {
        lemma_behind(all, n + 1);
        let g = Places { merged: n, ..h };
        if n + 1 < all.len() {
            if let ReplyView::Merged(Ok(context)) = all[n] {
                lemma_behind(all, n + 2);
                let w = WorkView {
                    context,
                    evidence: Seq::empty(),
                    child_workflow_id: None,
                    executor: None,
                    next_transition: None,
                };
                let checks = all_checks(
                    f.instance.definition,
                    f.transition_def.get("output"@),
                    context,
                );
                match all[n + 1] {
                    ReplyView::Verdicts(v) => if v.len() == checks.len() && slot_violation(
                        checks,
                        v,
                    ) is None {
                        lemma_all_fit(checks, v);
                        assert(work_of(j, f, all, g, w));
                        lemma_commit(j, f, w, all, n + 2, g)
                    } else {
                        g
                    },
                    _ => g,
                }
            } else {
                g
            }
        } else {
            g
        }
    } else {
        h
    }
}

proof fn lemma_produced(
    j: JobView,
    f: FiredView,
    res: ResultView,
    elapsed_ms: u64,
    all: Seq<ReplyView>,
    n: int,
    h: Places,
) -> (g: Places)
    requires
        0 < n <= all.len(),
        f.transition_def.get("executor"@) is Some,
        ran(all, h) == Some((res, elapsed_ms)),
    ensures
        fit(j, f, all, g, produced(j, f, res, elapsed_ms, all.skip(n))),
{
    reveal(fits);
    lemma_behind(all, n);
    if n < all.len() {
        lemma_behind(all, n + 1);
        let g = Places { merged: n, ..h };
        if n + 1 < all.len() {
            if let ReplyView::Merged(Ok(context)) = all[n] {
                lemma_behind(all, n + 2);
                let w = WorkView {
                    context: advanced(context, j.request.transition),
                    evidence: res.evidence,
                    child_workflow_id: res.child_workflow_id,
                    executor: Some((true, elapsed_ms)),
                    next_transition: res.next_transition,
                };
                let checks = all_checks(
                    f.instance.definition,
                    f.transition_def.get("output"@),
                    w.context,
                );
                match all[n + 1] {
                    ReplyView::Verdicts(v) => if v.len() == checks.len() && slot_violation(
                        checks,
                        v,
                    ) is None {
                        lemma_all_fit(checks, v);
                        assert(work_of(j, f, all, g, w));
                        lemma_commit(j, f, w, all, n + 2, g)
                    } else {
                        g
                    },
                    _ => g,
                }
            } else {
                g
            }
        } else {
            g
        }
    } else {
        h
    }
}

proof fn lemma_keeping(
    j: JobView,
    f: FiredView,
    err: ErrorView,
    all: Seq<ReplyView>,
    n: int,
    h: Places,
) -> (g: Places)
    requires
        0 < n <= all.len(),
        f.transition_def.get("executor"@) is Some,
        failure(all, h) == Some(err),
    ensures
        fit(j, f, all, g, keeping(j, f, err, all.skip(n))),
{
    reveal(fits);
    lemma_behind(all, n);
    if n < all.len() {
        lemma_behind(all, n + 1);
        if n + 1 < all.len() {
            lemma_behind(all, n + 2);
        }
    }
    Places { merged: n, saved: n + 1, ..h }
}

proof fn lemma_judged(
    j: JobView,
    f: FiredView,
    result: Result<ResultView, ErrorView>,
    elapsed_ms: u64,
    all: Seq<ReplyView>,
    n: int,
    h: Places,
) -> (g: Places)
    requires
        0 < h.ran < n <= all.len(),
        f.transition_def.get("executor"@) is Some,
        all[h.ran] == (ReplyView::Executed { result, elapsed_ms }),
    ensures
        fit(j, f, all, g, judged(j, f, result, elapsed_ms, all.skip(n))),
{
    reveal(fits);
    match result {
        Ok(res) => match res.suspend {
            Some(s) => {
                lemma_behind(all, n);
                lemma_parked(f.instance, wait_key(s), step_wait(s, j.request.transition));
                lemma_step_wait(s, j.request.transition);
                Places { saved: n, ..h }
            },
            None => lemma_produced(j, f, res, elapsed_ms, all, n, h),
        },
        Err(err) => lemma_keeping(j, f, err, all, n, h),
    }
}

proof fn lemma_executing(
    j: JobView,
    f: FiredView,
    config: JsonView,
    files: Seq<Seq<char>>,
    all: Seq<ReplyView>,
    n: int,
    h: Places,
) -> (g: Places)
    requires
        0 < n <= all.len(),
        f.transition_def.get("executor"@) == Some(config),
        files == (if j.wiring.locks {
            owned_files(config)
        } else {
            Seq::empty()
        }),
        files.len() > 0 ==> n > 2 && all[n - 2] == ReplyView::Locks(Ok(())),
    ensures
        fit(j, f, all, g, executing(j, f, config, files, all.skip(n))),
{
    reveal(fits);
    lemma_behind(all, n);
    if n < all.len() {
        let g = Places { ran: n, ..h };
        match all[n] {
            ReplyView::Executed { result, elapsed_ms } => {
                if files.len() > 0 {
                    lemma_behind(all, n + 1);
                    if n + 3 < all.len() {
                        lemma_behind(all, n + 2);
                        lemma_behind(all, n + 3);
                        lemma_judged(j, f, result, elapsed_ms, all, n + 4, g)
                    } else {
                        if n + 1 < all.len() {
                            lemma_behind(all, n + 2);
                            if n + 2 < all.len() {
                                lemma_behind(all, n + 3);
                            }
                        }
                        g
                    }
                } else {
                    lemma_judged(j, f, result, elapsed_ms, all, n + 1, g)
                }
            },
            _ => g,
        }
    } else {
        h
    }
}

proof fn lemma_refused(
    j: JobView,
    f: FiredView,
    config: JsonView,
    conflicts: Seq<(Seq<char>, Seq<char>)>,
    all: Seq<ReplyView>,
    n: int,
    h: Places,
)
    requires
        0 < n < all.len(),
        f.transition_def.get("executor"@) == Some(config),
        all[n] == ReplyView::Locks(Err(conflicts)),
    ensures
        fit(
            j,
            f,
            all,
            Places { refused: n, saved: n + 1, ..h },
            suspend_on_lock(
                j.acting(),
                j.wiring.scheduler,
                f.instance,
                j.request.transition,
                j.request.expected_version,
                owned_files(config),
                conflicts,
                all.skip(n + 1),
            ),
        ),
{
    reveal(fits);
    let files = owned_files(config);
    lemma_behind(all, n + 1);
    lemma_parked(f.instance, "_lock_wait"@, lock_wait(files, conflicts, j.request.transition));
    lemma_lock_wait(files, conflicts, j.request.transition);
}

proof fn lemma_locked(
    j: JobView,
    f: FiredView,
    config: JsonView,
    all: Seq<ReplyView>,
    n: int,
    h: Places,
) -> (g: Places)
    requires
        1 < n,
        n + 1 < all.len(),
        f.transition_def.get("executor"@) == Some(config),
        j.wiring.locks,
        owned_files(config).len() > 0,
        all[n] == ReplyView::Locks(Ok(())),
        all[n + 1] is Done,
    ensures
        fit(j, f, all, g, locking(j, f, config, all.skip(n))),
{
    lemma_behind(all, n);
    lemma_behind(all, n + 1);
    lemma_executing(j, f, config, owned_files(config), all, n + 2, h)
}

proof fn lemma_asking_locks(
    j: JobView,
    f: FiredView,
    config: JsonView,
    all: Seq<ReplyView>,
    n: int,
    h: Places,
)
    requires
        1 < n <= all.len(),
        f.transition_def.get("executor"@) == Some(config),
        j.wiring.locks,
        owned_files(config).len() > 0,
        n < all.len() ==> !(all[n] is Locks) || (all[n] == ReplyView::Locks(Ok(())) && (n + 1
            == all.len() || !(all[n + 1] is Done))),
    ensures
        fit(j, f, all, h, locking(j, f, config, all.skip(n))),
{
    reveal(fits);
    lemma_behind(all, n);
    if n < all.len() {
        lemma_behind(all, n + 1);
    }
}

proof fn lemma_unlocked(
    j: JobView,
    f: FiredView,
    config: JsonView,
    all: Seq<ReplyView>,
    n: int,
    h: Places,
) -> (g: Places)
    requires
        1 < n <= all.len(),
        f.transition_def.get("executor"@) == Some(config),
        !(j.wiring.locks && owned_files(config).len() > 0),
    ensures
        fit(j, f, all, g, locking(j, f, config, all.skip(n))),
{
    let none = Seq::<Seq<char>>::empty();
    if j.wiring.locks {
        assert(owned_files(config) =~= none);
    }
    lemma_executing(j, f, config, none, all, n, h)
}

proof fn lemma_unheld(
    j: JobView,
    f: FiredView,
    config: JsonView,
    conflicts: Seq<(Seq<char>, Seq<char>)>,
    all: Seq<ReplyView>,
    n: int,
    h: Places,
)
    requires
        1 < n < all.len(),
        f.transition_def.get("executor"@) == Some(config),
        j.wiring.locks,
        owned_files(config).len() > 0,
        all[n] == ReplyView::Locks(Err(conflicts)),
    ensures
        fit(
            j,
            f,
            all,
            Places { refused: n, saved: n + 1, ..h },
            locking(j, f, config, all.skip(n)),
        ),
{
    lemma_behind(all, n);
    lemma_refused(j, f, config, conflicts, all, n, h);
}

#[verifier::opaque]
spec fn fit_locking(
    j: JobView,
    f: FiredView,
    config: JsonView,
    all: Seq<ReplyView>,
    n: int,
    g: Places,
) -> bool {
    fit(j, f, all, g, locking(j, f, config, all.skip(n)))
}

proof fn lemma_locking(
    j: JobView,
    f: FiredView,
    config: JsonView,
    all: Seq<ReplyView>,
    n: int,
    h: Places,
) -> (g: Places)
    requires
        1 < n <= all.len(),
        f.transition_def.get("executor"@) == Some(config),
    ensures
        fit_locking(j, f, config, all, n, g),
{
    if n < all.len() {
        if let ReplyView::Locks(Ok(u)) = all[n] {
            assert(u == ());
        }
    }
    if !(j.wiring.locks && owned_files(config).len() > 0) {
        let g = lemma_unlocked(j, f, config, all, n, h);
        assert(fit_locking(j, f, config, all, n, g)) by {
            reveal(fit_locking);
        }
        g
    } else if n < all.len() && all[n] is Locks && all[n]->Locks_0 is Err {
        let g = Places { refused: n, saved: n + 1, ..h };
        lemma_unheld(j, f, config, all[n]->Locks_0->Err_0, all, n, h);
        assert(fit_locking(j, f, config, all, n, g)) by {
            reveal(fit_locking);
        }
        g
    } else if n + 1 < all.len() && all[n] is Locks && all[n + 1] is Done {
        let g = lemma_locked(j, f, config, all, n, h);
        assert(fit_locking(j, f, config, all, n, g)) by {
            reveal(fit_locking);
        }
        g
    } else {
        lemma_asking_locks(j, f, config, all, n, h);
        assert(fit_locking(j, f, config, all, n, h)) by {
            reveal(fit_locking);
        }
        h
    }
}

proof fn lemma_fired(j: JobView, f: FiredView, all: Seq<ReplyView>, n: int) -> (g: Places)
    requires
        0 < n <= all.len(),
    ensures
        fit(j, f, all, g, fired(j, f, all.skip(n))),
{
    reveal(fits);
    match f.transition_def.get("executor"@) {
        None => lemma_plain(j, f, all, n, nowhere()),
        Some(config) => {
            lemma_behind(all, n);
            if n < all.len() {
                reveal(fit_locking);
                lemma_locking(j, f, config, all, n + 1, nowhere())
            } else {
                nowhere()
            }
        },
    }
}

/// The declaration of the transition that is asked for, in the state that an instance is in.
pub open spec fn declared(i: InstanceView, transition: Seq<char>) -> Option<JsonView> {
    i.definition.at(seq!["states"@, i.state, "transitions"@, transition])
}

/// Where a submission stands in the work of its transition: the instance that was looked up, its
/// declared transition, the arguments with their defaults, and what the guards told.
pub open spec fn in_work(j: JobView, r: Seq<ReplyView>, f: FiredView, at: int) -> bool {
    &&& 3 <= at < r.len()
    &&& r[0] == ReplyView::Instance(Ok(f.instance))
    &&& r[1] == ReplyView::TimedOut(Ok(None))
    &&& f.instance.cancelled_at is None
    &&& f.instance.version == j.request.expected_version
    &&& declared(f.instance, j.request.transition) == Some(f.transition_def)
    &&& f.arguments == full_arguments(f.transition_def, j.request.arguments)
    &&& r[at] matches ReplyView::Guards(GuardsView::Judged { pass, evaluated, .. }) && pass
        && evaluated == f.guards
}

/// What is asked for before the work of a transition: the instance, its timeout, the entry of the
/// request, the check of the arguments, the guards; or what a refusal takes.
pub open spec fn before_work(j: JobView, r: Seq<ReplyView>, e: EffectView) -> bool {
    match e {
        EffectView::Load { workflow_id } => r.len() == 0 && workflow_id == j.request.workflow_id,
        EffectView::CheckTimeout { instance, principal } => {
            &&& r.len() == 1 && r[0] == ReplyView::Instance(Ok(instance))
            &&& principal == j.request.principal
        },
        EffectView::CheckSchema { schema, value } => {
            &&& r.len() == 3
            &&& r[0] matches ReplyView::Instance(Ok(i)) && declared(i, j.request.transition) matches Some(
                t,
            ) && t.step("inputSchema"@) == Some(schema) && value == full_arguments(
                t,
                j.request.arguments,
            )
        },
        EffectView::PassGuards { acting, transition_def, instance, arguments } => {
            &&& acting.principal == j.request.principal
            &&& acting.correlation_id == j.correlation_id
            &&& r.len() >= 3 && r[0] == ReplyView::Instance(Ok(instance))
            &&& declared(instance, j.request.transition) == Some(transition_def)
            &&& arguments == full_arguments(transition_def, j.request.arguments)
        },
        EffectView::Respond { instance, hint, error, principal } => {
            &&& principal == j.request.principal
            &&& r.len() >= 2
            &&& {
                ||| hint == StatusHint::Rejected && r[0] == ReplyView::Instance(Ok(instance))
                    && error is Some
                ||| hint == StatusHint::TimedOut && r[1] == ReplyView::TimedOut(Ok(Some(instance)))
                    && error is None
            }
        },
        EffectView::Audit { .. } => r.len() >= 2,
        _ => false,
    }
}

proof fn lemma_declared(i: InstanceView, transition: Seq<char>)
    ensures
        transition_def(i.definition, i.state, transition) == declared(i, transition),
{
    let path = seq!["states"@, i.state, "transitions"@, transition];
    reveal_with_fuel(JsonView::at, 5);
    assert(path.drop_first() =~= seq![i.state, "transitions"@, transition]);
    assert(path.drop_first().drop_first() =~= seq!["transitions"@, transition]);
    assert(path.drop_first().drop_first().drop_first() =~= seq![transition]);
    assert(path.drop_first().drop_first().drop_first().drop_first() =~= Seq::empty());
}

proof fn lemma_guarded(
    j: JobView,
    i: InstanceView,
    t: JsonView,
    all: Seq<ReplyView>,
    n: int,
) -> (g: (FiredView, Places))
    requires
        3 <= n <= all.len(),
        all[0] == ReplyView::Instance(Ok(i)),
        all[1] == ReplyView::TimedOut(Ok(None)),
        i.cancelled_at is None,
        i.version == j.request.expected_version,
        declared(i, j.request.transition) == Some(t),
    ensures
        guarded(j, i, t, full_arguments(t, j.request.arguments), all.skip(n)) matches DispatchView::Do(
            e,
        ) ==> before_work(j, all, e) || (in_work(j, all, g.0, n) && (fits(j, g.0, all, g.1, e)
            || follows_up(j, g.0, all, g.1, e))),
{
    reveal(fits);
    let arguments = full_arguments(t, j.request.arguments);
    lemma_behind(all, n);
    if n < all.len() {
        lemma_behind(all, n + 1);
        match all[n] {
            ReplyView::Guards(GuardsView::Judged { pass, evaluated, diagnostic }) => {
                let f = FiredView { instance: i, transition_def: t, arguments, guards: evaluated };
                if pass {
                    (f, lemma_fired(j, f, all, n + 1))
                } else {
                    (f, nowhere())
                }
            },
            _ => (arbitrary(), nowhere()),
        }
    } else {
        (arbitrary(), nowhere())
    }
}

/// Whatever a submission asks for fits: either it comes before the work of the transition, or it
/// carries what the looked-up instance, its declaration, the request and the replies say.
pub proof fn law_submissions_ask_for_what_fits(j: JobView, r: Seq<ReplyView>)
    ensures
        dispatch(j, r) matches DispatchView::Do(e) ==> before_work(j, r, e) || exists|
            f: FiredView,
            h: Places,
            at: int,
        |
            #![trigger in_work(j, r, f, at), fits(j, f, r, h, e)]
            in_work(j, r, f, at) && (fits(j, f, r, h, e) || follows_up(j, f, r, h, e)),
{
    if let DispatchView::Do(e) = dispatch(j, r) {
        if r.len() >= 3 {
            assert(r.drop_first().drop_first().drop_first() =~= r.skip(3));
            if let ReplyView::Instance(Ok(i)) = r[0] {
                lemma_declared(i, j.request.transition);
                lemma_behind(r, 3);
                if r[1] == ReplyView::TimedOut(Ok(None)) && i.cancelled_at is None {
                    assert(dispatch(j, r) == checked(j, i, r.skip(3)));
                    if let GateView::Pass(t) = gate(j.request, i) {
                        let at: int = if t.step("inputSchema"@) is None {
                            3
                        } else {
                            4
                        };
                        if at <= r.len() {
                            let (f, h) = lemma_guarded(j, i, t, r, at);
                            if !before_work(j, r, e) {
                                assert(in_work(j, r, f, at));
                                assert(fits(j, f, r, h, e) || follows_up(j, f, r, h, e));
                            }
                        }
                    }
                }
            }
        }
    }
}

/// Every merge that a submission asks for is of the looked-up instance's context and input, the
/// declared output of the transition, the submitted arguments with their defaults, and what the
/// executor produced, or wants kept; without an executor, of nothing.
pub proof fn law_submissions_merge_what_was_produced(j: JobView, r: Seq<ReplyView>)
    ensures
        dispatch(j, r) matches DispatchView::Do(
            EffectView::Merge { context, output, arguments, input, result },
        ) ==> {
            &&& r.len() > 0
            &&& r[0] matches ReplyView::Instance(Ok(i))
            &&& declared(i, j.request.transition) matches Some(t)
            &&& context == i.context
            &&& input == i.input
            &&& output == t.get("output"@)
            &&& arguments == full_arguments(t, j.request.arguments)
            &&& t.get("executor"@) is None ==> result == JsonView::Null
            &&& t.get("executor"@) is Some ==> exists|k: int|
                0 < k < r.len() && (#[trigger] r[k] matches ReplyView::Executed { result: x, .. }
                    && match x {
                    Ok(res) => result == res.output,
                    Err(err) => err.updates == Some(result),
                })
        },
{
    reveal(fits);
    reveal(follows_up);
    reveal(settles);
    law_submissions_ask_for_what_fits(j, r);
    if let DispatchView::Do(e) = dispatch(j, r) {
        if e is Merge {
            let (f, h, at) = choose|f: FiredView, h: Places, at: int|
                #![trigger in_work(j, r, f, at), fits(j, f, r, h, e)]
                in_work(j, r, f, at) && (fits(j, f, r, h, e) || follows_up(j, f, r, h, e));
            assert(!follows_up(j, f, r, h, e));
            if f.transition_def.get("executor"@) is Some {
                assert(0 < h.ran < r.len());
                assert(r[h.ran] is Executed);
            }
        }
    }
}

} // verus!
