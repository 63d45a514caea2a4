//! What is done at the start of a process and after the end of an instance, for those that nobody
//! drives, and what a submission does after each of its turns.

use vstd::prelude::*;

use crate::json::{lemma_reads_put, lookup, JsonView, Members};
use crate::model::{AuditView, InstanceView, PrincipalView};
use crate::runtime::choice_laws::used_up;
use crate::runtime::dispatch::RequestView;
use crate::runtime::effects::{AuditMode, NextView};
use crate::runtime::lifecycle_laws::{ended, lemma_ended};
use crate::runtime::links::strings_in;
use crate::runtime::recovery::{
    lock_recovery, orphaned, parent_recovery, parent_resumed, reaped, redriven, LockRecoveryView,
    ParentRecoveryView,
};
use crate::runtime::response::waits_for_human;
use crate::runtime::script::{EffectView, ReplyView, StepView};
use crate::runtime::submit::{after_turn, SubmitView};

verus! {

/// Whether the state of an instance waits for a person.
pub open spec fn awaits_person(i: InstanceView) -> bool {
    i.definition.at(seq!["states"@, i.state]) matches Some(s) && s.get_str("actor"@) == Some("human"@)
}

proof fn lemma_awaits_person(i: InstanceView)
    ensures
        waits_for_human(i.definition, i.state) == awaits_person(i),
{
    let path = seq!["states"@, i.state];
    reveal_with_fuel(JsonView::at, 3);
    assert(path.drop_first() =~= seq![i.state]);
    assert(path.drop_first().drop_first() =~= Seq::empty());
}

/// Whether an instance has been left by everybody: it is neither cancelled nor at an end, and it
/// used up its hops, or waits for nobody.
pub open spec fn is_abandoned(i: InstanceView) -> bool {
    &&& i.cancelled_at is None
    &&& !ended(i.definition, i.state)
    &&& used_up(i.definition, i.context) || {
        &&& !awaits_person(i)
        &&& i.context.get("_lock_wait"@) is None
        &&& i.context.get("_subworkflow_wait"@) is None
        &&& i.context.get("_agent_await"@) is None
    }
}

/// Exactly the abandoned instances are to be cancelled at the start of a process; the reason tells
/// those that used up their hops from those that nobody drives.
pub proof fn law_abandoned_instances_are_cancelled(i: InstanceView, other: InstanceView)
    ensures
        orphaned(i) is Some <==> is_abandoned(i),
        is_abandoned(i) && is_abandoned(other) && used_up(i.definition, i.context) != used_up(
            other.definition,
            other.context,
        ) ==> orphaned(i) != orphaned(other),
{
    lemma_ended(i.definition, i.state);
    lemma_awaits_person(i);
    lemma_ended(other.definition, other.state);
    lemma_awaits_person(other);
    reveal_strlit(
        "livelock_quarantine: exceeded cumulative chain-hop budget without terminating (reaped at startup)",
    );
    reveal_strlit("orphaned run reaped at startup (no live driver)");
    assert("livelock_quarantine: exceeded cumulative chain-hop budget without terminating (reaped at startup)"@[0]
        != "orphaned run reaped at startup (no live driver)"@[0]);
}

/// Of many instances, those to be cancelled are named, each with its reason, and no others.
pub proof fn law_all_abandoned_instances_are_named(
    all: Seq<InstanceView>,
    id: Seq<char>,
    reason: Seq<char>,
)
    ensures
        reaped(all).contains((id, reason)) <==> exists|k: int|
            0 <= k < all.len() && (#[trigger] all[k]).id == id && orphaned(all[k]) == Some(reason),
        reaped(all).len() <= all.len(),
    decreases all.len(),
{
    if all.len() > 0 {
        let init = all.drop_last();
        let before = reaped(init);
        let now = reaped(all);
        law_all_abandoned_instances_are_named(init, id, reason);
        if before.contains((id, reason)) {
            let k = choose|k: int|
                0 <= k < init.len() && (#[trigger] init[k]).id == id && orphaned(init[k]) == Some(
                    reason,
                );
            assert(all[k] == init[k]);
            let x = choose|x: int| 0 <= x < before.len() && before[x] == (id, reason);
            assert(now[x] == before[x]);
        }
        if now.contains((id, reason)) {
            let x = choose|x: int| 0 <= x < now.len() && now[x] == (id, reason);
            if x < before.len() {
                assert(before[x] == now[x]);
            } else {
                assert(all[all.len() - 1] == all.last());
            }
        }
        if exists|k: int|
            0 <= k < all.len() && (#[trigger] all[k]).id == id && orphaned(all[k]) == Some(reason) {
            let k = choose|k: int|
                0 <= k < all.len() && (#[trigger] all[k]).id == id && orphaned(all[k]) == Some(reason);
            if k < init.len() {
                assert(init[k] == all[k]);
            } else {
                assert(now[before.len() as int] == (id, reason));
            }
        }
    }
}

proof fn lemma_recovery_names()
    ensures
        "transition"@ != "files"@,
        "transition"@ != "reason"@,
        "files"@ != "reason"@,
        "child_workflow_id"@ != "reason"@,
        "child_workflow_id"@ != "transition"@,
        "transition"@ != "code"@,
        "transition"@ != "message"@,
        "transition"@ != "fromState"@,
        "code"@ != "message"@,
        "code"@ != "fromState"@,
        "message"@ != "fromState"@,
{
    reveal_strlit("transition");
    reveal_strlit("files");
    reveal_strlit("reason");
    reveal_strlit("child_workflow_id");
    reveal_strlit("code");
    reveal_strlit("message");
    reveal_strlit("fromState");
    assert("transition"@.len() == 10);
    assert("files"@.len() == 5);
    assert("reason"@.len() == 6);
    assert("child_workflow_id"@.len() == 17);
    assert("code"@.len() == 4);
    assert("message"@.len() == 7);
    assert("fromState"@.len() == 9);
}

/// The text of a member; empty where there is none.
pub open spec fn said(v: JsonView, key: Seq<char>) -> Seq<char> {
    match v.get_str(key) {
        Some(s) => s,
        None => Seq::empty(),
    }
}

/// An instance that waited for files is queued again for its own transition and the files that it
/// waited for; one whose wait tells no transition or no files is reported instead.
pub proof fn law_waits_for_files_are_taken_up(i: InstanceView)
    ensures
        match i.context.get("_lock_wait"@) {
            None => lock_recovery(i) == LockRecoveryView::Nothing,
            Some(wait) => {
                let name = said(wait, "transition"@);
                let files = strings_in(wait.get("files"@));
                if name.len() > 0 && files.len() > 0 {
                    lock_recovery(i) == (LockRecoveryView::Enqueue {
                        workflow_id: i.id,
                        transition: name,
                        files,
                    })
                } else {
                    lock_recovery(i) matches LockRecoveryView::Corrupt(event) && {
                        &&& event.event_type == "lock.recover.corrupt"@
                        &&& event.workflow_id == Some(i.id)
                        &&& event.payload.get_str("transition"@) == Some(name)
                    }
                }
            },
        },
{
    broadcast use lemma_reads_put;

    lemma_recovery_names();
}

/// Whether an audit entry tells that an instance goes on after its child.
pub open spec fn tells_resumption(
    event: AuditView,
    id: Seq<char>,
    child: Seq<char>,
    transition: Seq<char>,
) -> bool {
    &&& event.event_type == "sub_workflow.parent.resumed"@
    &&& event.workflow_id == Some(id)
    &&& event.payload.get_str("child_workflow_id"@) == Some(child)
    &&& event.payload.get_str("transition"@) == Some(transition)
}

/// An instance that waited for another one is resumed with its own transition on its own version;
/// one whose wait tells no transition is reported instead.
pub proof fn law_waits_for_children_are_taken_up(i: InstanceView)
    ensures
        match i.context.get("_subworkflow_wait"@) {
            None => parent_recovery(i) == ParentRecoveryView::Nothing,
            Some(wait) => {
                let name = said(wait, "transition"@);
                let child = said(wait, "child_workflow_id"@);
                if name.len() > 0 {
                    parent_recovery(i) matches ParentRecoveryView::Resume {
                        event,
                        expected_version,
                        transition,
                    } && expected_version == i.version && transition == name && tells_resumption(
                        event,
                        i.id,
                        child,
                        name,
                    )
                } else {
                    parent_recovery(i) matches ParentRecoveryView::Corrupt(event) && {
                        &&& event.event_type == "sub_workflow.recover.corrupt"@
                        &&& event.workflow_id == Some(i.id)
                        &&& event.payload.get_str("child_workflow_id"@) == Some(child)
                    }
                }
            },
        },
{
    broadcast use lemma_reads_put;

    lemma_recovery_names();
}

/// The parent of an instance that ended is loaded, told, and its transition is submitted on the
/// version that it has now. Without a parent, or without a transition of it, nothing is done.
pub proof fn law_parents_go_on(i: InstanceView, r: Seq<ReplyView>)
    ensures
        parent_resumed(i, r) matches StepView::Do(e) ==> i.parent matches Some((id, name))
            && name.len() > 0 && match e {
            EffectView::Load { workflow_id } => r.len() == 0 && workflow_id == id,
            EffectView::Audit { event, mode } => {
                &&& r.len() == 1
                &&& mode == AuditMode::SelfEvent
                &&& r[0] matches ReplyView::Instance(Ok(parent)) && tells_resumption(
                    event,
                    parent.id,
                    i.id,
                    name,
                )
            },
            EffectView::Submit { workflow_id, expected_version, transition, .. } => {
                &&& r.len() == 2
                &&& workflow_id == id
                &&& transition == name
                &&& r[0] matches ReplyView::Instance(Ok(parent)) && expected_version
                    == parent.version
            },
            _ => false,
        },
        parent_resumed(i, r) is Done ==> {
            ||| i.parent is None
            ||| (i.parent matches Some((_, name)) && name.len() == 0)
            ||| (r.len() > 0 && (r[0] matches ReplyView::Instance(Err(_))))
            ||| r.len() > 2
        },
{
    broadcast use lemma_reads_put;

    lemma_recovery_names();
    let a = r.drop_first();
    let b = a.drop_first();
    if r.len() > 1 {
        assert(a[0] == r[1]);
    }
    if r.len() > 2 {
        assert(b[0] == r[2]);
    }
}

/// An instance whose files became free is loaded, told, and its transition is submitted for the same
/// caller on the version that it has now.
pub proof fn law_free_files_go_on(
    id: Seq<char>,
    name: Seq<char>,
    who: PrincipalView,
    r: Seq<ReplyView>,
)
    ensures
        redriven(id, name, who, r) matches StepView::Do(e) ==> match e {
            EffectView::Load { workflow_id } => r.len() == 0 && workflow_id == id,
            EffectView::Audit { event, mode } => {
                &&& r.len() == 1
                &&& event.event_type == "lock.resumed"@
                &&& event.payload.get_str("transition"@) == Some(name)
                &&& r[0] matches ReplyView::Instance(Ok(i)) && event.workflow_id == Some(i.id)
            },
            EffectView::Submit { workflow_id, expected_version, transition, principal } => {
                &&& r.len() == 2
                &&& workflow_id == id
                &&& transition == name
                &&& principal == who
                &&& r[0] matches ReplyView::Instance(Ok(i)) && expected_version == i.version
            },
            _ => false,
        },
        redriven(id, name, who, r) is Done ==> r.len() > 2 || (r.len() > 0 && (
        r[0] matches ReplyView::Instance(Err(_)))),
{
    broadcast use lemma_reads_put;

    let a = r.drop_first();
    let b = a.drop_first();
    if r.len() > 1 {
        assert(a[0] == r[1]);
    }
    if r.len() > 2 {
        assert(b[0] == r[2]);
    }
}

/// What a submission does after a turn: without a choice of the executor the response is returned as
/// it is. With one, the chosen transition is submitted with the chosen arguments and summary, on the
/// instance and version of the response, for the same caller, trace and run; but after as many turns
/// as are allowed, that is refused and told.
pub proof fn law_turns_follow_the_choice(
    cap: u32,
    turns: u32,
    q: RequestView,
    response: Members,
    next: Option<NextView>,
)
    ensures
        ({
            let told = |key: Seq<char>|
                match lookup(response, "workflow"@) {
                    Some(w) => w.get(key),
                    None => None::<JsonView>,
                };
            let n = if turns < u32::MAX {
                turns + 1
            } else {
                turns as int
            };
            match next {
                None => after_turn(cap, turns, q, response, next) == SubmitView::Return(response),
                Some(x) => match after_turn(cap, turns, q, response, next) {
                    SubmitView::Return(_) => false,
                    SubmitView::Again(again, count) => {
                        &&& n <= cap
                        &&& count == n
                        &&& told("id"@) == Some(JsonView::Str(again.workflow_id))
                        &&& told("version"@) matches Some(v) && v.as_u64() == Some(
                            again.expected_version,
                        )
                        &&& again.transition == x.transition
                        &&& again.arguments == x.arguments
                        &&& again.summary == x.summary
                        &&& again.principal == q.principal
                        &&& again.trace_id == q.trace_id
                        &&& again.run_id == q.run_id
                    },
                    SubmitView::Exceeded(event, why) => {
                        &&& n > cap
                        &&& why is ChainDepthExceeded
                        &&& event.event_type == "transition.rejected"@
                        &&& event.actor == Some(q.principal.subject)
                        &&& told("id"@) matches Some(JsonView::Str(id)) && event.workflow_id == Some(id)
                        &&& event.payload.get_str("transition"@) == Some(x.transition)
                        &&& event.payload.get_str("code"@) == Some("LLM_CHAIN_DEPTH_EXCEEDED"@)
                        &&& event.payload.get("fromState"@) == Some(
                            match told("state"@) {
                                Some(s) => s,
                                None => JsonView::Null,
                            },
                        )
                    },
                    SubmitView::Broken(_) => {
                        ||| !(told("id"@) matches Some(JsonView::Str(_)))
                        ||| told("version"@) is None
                        ||| (told("version"@) matches Some(v) && v.as_u64() is None)
                    },
                },
            }
        }),
{
    broadcast use lemma_reads_put;

    lemma_recovery_names();
}

} // verus!
