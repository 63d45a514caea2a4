//! What the record tells of a transition, of its executor and of its guards.

use vstd::prelude::*;

use crate::json::{lemma_reads_put, number, JsonView, Members};
use crate::model::{ActingView, InstanceView};
use crate::runtime::guards::{asked_entry, choice_entry, guard_note};
use crate::runtime::record::{executor_facts, record_entry, write_failed};
use crate::runtime::script::RecordView;

verus! {

proof fn lemma_record_names()
    ensures
        "workflowId"@ != "definitionId"@,
        "workflowId"@ != "definitionVersion"@,
        "workflowId"@ != "seq"@,
        "workflowId"@ != "timestamp"@,
        "workflowId"@ != "fromState"@,
        "workflowId"@ != "toState"@,
        "workflowId"@ != "transition"@,
        "workflowId"@ != "actor"@,
        "workflowId"@ != "principal"@,
        "workflowId"@ != "guards"@,
        "workflowId"@ != "arguments"@,
        "workflowId"@ != "blackboardDelta"@,
        "workflowId"@ != "childWorkflowId"@,
        "workflowId"@ != "correlationId"@,
        "workflowId"@ != "executor"@,
        "workflowId"@ != "purpose"@,
        "definitionId"@ != "definitionVersion"@,
        "definitionId"@ != "seq"@,
        "definitionId"@ != "timestamp"@,
        "definitionId"@ != "fromState"@,
        "definitionId"@ != "toState"@,
        "definitionId"@ != "transition"@,
        "definitionId"@ != "actor"@,
        "definitionId"@ != "principal"@,
        "definitionId"@ != "guards"@,
        "definitionId"@ != "arguments"@,
        "definitionId"@ != "blackboardDelta"@,
        "definitionId"@ != "childWorkflowId"@,
        "definitionId"@ != "correlationId"@,
        "definitionId"@ != "executor"@,
        "definitionId"@ != "purpose"@,
        "definitionVersion"@ != "seq"@,
        "definitionVersion"@ != "timestamp"@,
        "definitionVersion"@ != "fromState"@,
        "definitionVersion"@ != "toState"@,
        "definitionVersion"@ != "transition"@,
        "definitionVersion"@ != "actor"@,
        "definitionVersion"@ != "principal"@,
        "definitionVersion"@ != "guards"@,
        "definitionVersion"@ != "arguments"@,
        "definitionVersion"@ != "blackboardDelta"@,
        "definitionVersion"@ != "childWorkflowId"@,
        "definitionVersion"@ != "correlationId"@,
        "definitionVersion"@ != "executor"@,
        "definitionVersion"@ != "purpose"@,
        "seq"@ != "timestamp"@,
        "seq"@ != "fromState"@,
        "seq"@ != "toState"@,
        "seq"@ != "transition"@,
        "seq"@ != "actor"@,
        "seq"@ != "principal"@,
        "seq"@ != "guards"@,
        "seq"@ != "arguments"@,
        "seq"@ != "blackboardDelta"@,
        "seq"@ != "childWorkflowId"@,
        "seq"@ != "correlationId"@,
        "seq"@ != "executor"@,
        "seq"@ != "purpose"@,
        "timestamp"@ != "fromState"@,
        "timestamp"@ != "toState"@,
        "timestamp"@ != "transition"@,
        "timestamp"@ != "actor"@,
        "timestamp"@ != "principal"@,
        "timestamp"@ != "guards"@,
        "timestamp"@ != "arguments"@,
        "timestamp"@ != "blackboardDelta"@,
        "timestamp"@ != "childWorkflowId"@,
        "timestamp"@ != "correlationId"@,
        "timestamp"@ != "executor"@,
        "timestamp"@ != "purpose"@,
        "fromState"@ != "toState"@,
        "fromState"@ != "transition"@,
        "fromState"@ != "actor"@,
        "fromState"@ != "principal"@,
        "fromState"@ != "guards"@,
        "fromState"@ != "arguments"@,
        "fromState"@ != "blackboardDelta"@,
        "fromState"@ != "childWorkflowId"@,
        "fromState"@ != "correlationId"@,
        "fromState"@ != "executor"@,
        "fromState"@ != "purpose"@,
        "toState"@ != "transition"@,
        "toState"@ != "actor"@,
        "toState"@ != "principal"@,
        "toState"@ != "guards"@,
        "toState"@ != "arguments"@,
        "toState"@ != "blackboardDelta"@,
        "toState"@ != "childWorkflowId"@,
        "toState"@ != "correlationId"@,
        "toState"@ != "executor"@,
        "toState"@ != "purpose"@,
        "transition"@ != "actor"@,
        "transition"@ != "principal"@,
        "transition"@ != "guards"@,
        "transition"@ != "arguments"@,
        "transition"@ != "blackboardDelta"@,
        "transition"@ != "childWorkflowId"@,
        "transition"@ != "correlationId"@,
        "transition"@ != "executor"@,
        "transition"@ != "purpose"@,
        "actor"@ != "principal"@,
        "actor"@ != "guards"@,
        "actor"@ != "arguments"@,
        "actor"@ != "blackboardDelta"@,
        "actor"@ != "childWorkflowId"@,
        "actor"@ != "correlationId"@,
        "actor"@ != "executor"@,
        "actor"@ != "purpose"@,
        "principal"@ != "guards"@,
        "principal"@ != "arguments"@,
        "principal"@ != "blackboardDelta"@,
        "principal"@ != "childWorkflowId"@,
        "principal"@ != "correlationId"@,
        "principal"@ != "executor"@,
        "principal"@ != "purpose"@,
        "guards"@ != "arguments"@,
        "guards"@ != "blackboardDelta"@,
        "guards"@ != "childWorkflowId"@,
        "guards"@ != "correlationId"@,
        "guards"@ != "executor"@,
        "guards"@ != "purpose"@,
        "arguments"@ != "blackboardDelta"@,
        "arguments"@ != "childWorkflowId"@,
        "arguments"@ != "correlationId"@,
        "arguments"@ != "executor"@,
        "arguments"@ != "purpose"@,
        "blackboardDelta"@ != "childWorkflowId"@,
        "blackboardDelta"@ != "correlationId"@,
        "blackboardDelta"@ != "executor"@,
        "blackboardDelta"@ != "purpose"@,
        "childWorkflowId"@ != "correlationId"@,
        "childWorkflowId"@ != "executor"@,
        "childWorkflowId"@ != "purpose"@,
        "correlationId"@ != "executor"@,
        "correlationId"@ != "purpose"@,
        "executor"@ != "purpose"@,
        "kind"@ != "ok"@,
        "kind"@ != "durationMs"@,
        "kind"@ != "subject"@,
        "kind"@ != "hash"@,
        "ok"@ != "durationMs"@,
        "ok"@ != "subject"@,
        "ok"@ != "hash"@,
        "durationMs"@ != "subject"@,
        "durationMs"@ != "hash"@,
        "subject"@ != "hash"@,
        "guardIndex"@ != "guard"@,
        "guardIndex"@ != "passed"@,
        "guardIndex"@ != "context"@,
        "guard"@ != "passed"@,
        "guard"@ != "context"@,
        "passed"@ != "context"@,
        "kind"@ != "result"@,
        "originalEvent"@ != "error"@,
{
    reveal_strlit("workflowId");
    reveal_strlit("definitionId");
    reveal_strlit("definitionVersion");
    reveal_strlit("seq");
    reveal_strlit("timestamp");
    reveal_strlit("fromState");
    reveal_strlit("toState");
    reveal_strlit("transition");
    reveal_strlit("actor");
    reveal_strlit("principal");
    reveal_strlit("guards");
    reveal_strlit("arguments");
    reveal_strlit("blackboardDelta");
    reveal_strlit("childWorkflowId");
    reveal_strlit("correlationId");
    reveal_strlit("executor");
    reveal_strlit("purpose");
    reveal_strlit("kind");
    reveal_strlit("ok");
    reveal_strlit("durationMs");
    reveal_strlit("subject");
    reveal_strlit("hash");
    reveal_strlit("guardIndex");
    reveal_strlit("guard");
    reveal_strlit("passed");
    reveal_strlit("context");
    reveal_strlit("result");
    reveal_strlit("originalEvent");
    reveal_strlit("error");
    assert("workflowId"@.len() == 10);
    assert("definitionId"@.len() == 12);
    assert("definitionVersion"@.len() == 17);
    assert("seq"@.len() == 3);
    assert("timestamp"@.len() == 9);
    assert("fromState"@.len() == 9);
    assert("toState"@.len() == 7);
    assert("transition"@.len() == 10);
    assert("actor"@.len() == 5);
    assert("principal"@.len() == 9);
    assert("guards"@.len() == 6);
    assert("arguments"@.len() == 9);
    assert("blackboardDelta"@.len() == 15);
    assert("childWorkflowId"@.len() == 15);
    assert("correlationId"@.len() == 13);
    assert("executor"@.len() == 8);
    assert("purpose"@.len() == 7);
    assert("kind"@.len() == 4);
    assert("ok"@.len() == 2);
    assert("durationMs"@.len() == 10);
    assert("subject"@.len() == 7);
    assert("hash"@.len() == 4);
    assert("guardIndex"@.len() == 10);
    assert("guard"@.len() == 5);
    assert("passed"@.len() == 6);
    assert("context"@.len() == 7);
    assert("result"@.len() == 6);
    assert("originalEvent"@.len() == 13);
    assert("error"@.len() == 5);
    assert("workflowId"@[0] != "transition"@[0]);
    assert("timestamp"@[0] != "fromState"@[0]);
    assert("timestamp"@[0] != "principal"@[0]);
    assert("timestamp"@[0] != "arguments"@[0]);
    assert("fromState"@[0] != "principal"@[0]);
    assert("fromState"@[0] != "arguments"@[0]);
    assert("toState"@[0] != "purpose"@[0]);
    assert("principal"@[0] != "arguments"@[0]);
    assert("blackboardDelta"@[0] != "childWorkflowId"@[0]);
    assert("kind"@[0] != "hash"@[0]);
}

/// A text, or null where there is none.
pub open spec fn text_or_nothing(s: Option<Seq<char>>) -> Option<JsonView> {
    match s {
        Some(t) => Some(JsonView::Str(t)),
        None => Some(JsonView::Null),
    }
}

/// What the record of a transition tells, member by member: which instance, from where to where, by
/// which transition and whom, with what arguments and guards, and what changed in the context. A
/// lightweight transition is told as an interaction.
pub proof fn law_records_tell(p: RecordView, delta: Members, at: int, cor: Seq<char>)
    ensures
        ({
            let event = record_entry(p, delta, at, cor);
            let m = event.payload;
            let t = p.transition_def;
            &&& event.event_type == (if t.get("lightweight"@) == Some(JsonView::Bool(true)) {
                "workflow.interaction"@
            } else {
                "workflow.transition"@
            })
            &&& event.workflow_id == Some(p.instance.id)
            &&& event.actor == p.principal
            &&& event.correlation_id == Some(cor)
            &&& m.get_str("workflowId"@) == Some(p.instance.id)
            &&& m.get_str("definitionId"@) == Some(p.instance.definition_id)
            &&& m.get_str("definitionVersion"@) == Some(p.instance.definition_version)
            &&& m.get("seq"@) == Some(number(p.instance.version))
            &&& m.get_str("fromState"@) == Some(p.from_state)
            &&& m.get_str("toState"@) == Some(p.instance.state)
            &&& m.get_str("transition"@) == Some(p.transition)
            &&& m.get_str("actor"@) == Some(p.actor)
            &&& m.get("principal"@) == text_or_nothing(p.principal)
            &&& m.get("guards"@) == Some(JsonView::Array(p.guards))
            &&& m.get("arguments"@) == Some(p.arguments)
            &&& m.get("blackboardDelta"@) == Some(JsonView::Object(delta))
            &&& m.get("childWorkflowId"@) == text_or_nothing(p.child_workflow_id)
            &&& m.get_str("correlationId"@) == Some(cor)
            &&& m.get("executor"@) == executor_facts(p)
            &&& m.get_str("purpose"@) == t.get_str("purpose"@)
        }),
{
    broadcast use lemma_reads_put;

    lemma_record_names();
}

/// What the record tells of an executor: its kind; how it did and how long it took, where it ran; and
/// of a script which one it was and the hash of its text, where the instance carries that.
pub proof fn law_records_tell_of_executors(p: RecordView)
    ensures
        executor_facts(p) is Some <==> (p.transition_def.get("executor"@) matches Some(c)
            && c.get_str("kind"@) is Some),
        executor_facts(p) matches Some(told) ==> (p.transition_def.get("executor"@) matches Some(c) && {
            let script = c.get_str("kind"@) == Some("script"@);
            &&& told.get_str("kind"@) == c.get_str("kind"@)
            &&& told.get("ok"@) == (match p.executor {
                Some((ok, _)) => Some(JsonView::Bool(ok)),
                None => None,
            })
            &&& told.get("durationMs"@) == (match p.executor {
                Some((_, ms)) => Some(number(ms)),
                None => None,
            })
            &&& told.get_str("subject"@) == (if script {
                c.get_str("subject"@)
            } else {
                None
            })
            &&& told.get_str("hash"@) == (match (script, c.get_str("subject"@)) {
                (true, Some(subject)) => match p.instance.definition.at(
                    seq!["_scriptsLibrary"@, subject, "hash"@],
                ) {
                    Some(h) => h.as_str(),
                    None => None,
                },
                _ => None,
            })
        }),
{
    broadcast use lemma_reads_put;

    lemma_record_names();
    if let Some(c) = p.transition_def.get("executor"@) {
        if let Some(subject) = c.get_str("subject"@) {
            let path = seq!["_scriptsLibrary"@, subject, "hash"@];
            reveal_with_fuel(JsonView::at, 4);
            assert(path.drop_first() =~= seq![subject, "hash"@]);
            assert(path.drop_first().drop_first() =~= seq!["hash"@]);
            assert(path.drop_first().drop_first().drop_first() =~= Seq::empty());
        }
    }
}

/// What is told of an asked guard: which one it was, and whether it passed.
pub proof fn law_guards_are_told(
    i: InstanceView,
    who: ActingView,
    k: int,
    guard: JsonView,
    pass: bool,
)
    ensures
        ({
            let event = asked_entry(i, who, k, guard, pass);
            &&& event.event_type == "guard.evaluated"@
            &&& event.workflow_id == Some(i.id)
            &&& event.correlation_id == Some(who.correlation_id)
            &&& event.payload.get("guardIndex"@) == Some(number(k as u64))
            &&& event.payload.get("guard"@) == Some(guard)
            &&& event.payload.get("passed"@) == Some(JsonView::Bool(pass))
        }),
        ({
            let event = choice_entry(i, who, guard, pass);
            &&& event.event_type == "guard.evaluated"@
            &&& event.workflow_id == Some(i.id)
            &&& event.correlation_id == Some(who.correlation_id)
            &&& event.payload.get("guard"@) == Some(guard)
            &&& event.payload.get("passed"@) == Some(JsonView::Bool(pass))
            &&& event.payload.get_str("context"@) == Some("deterministic_selection"@)
        }),
        ({
            let told = guard_note(guard, pass);
            &&& told.get("result"@) == Some(JsonView::Bool(pass))
            &&& told.get_str("kind"@) == (match guard.get_str("kind"@) {
                Some(kind) => Some(kind),
                None => Some(Seq::empty()),
            })
        }),
{
    broadcast use lemma_reads_put;

    lemma_record_names();
}

/// What is told where an entry could not be put on the record: which one, and why.
pub proof fn law_lost_entries_are_told(event_type: Seq<char>, error: Seq<char>)
    ensures
        ({
            let event = write_failed(event_type, error);
            &&& event.event_type == "audit.write_failed"@
            &&& event.payload.get_str("originalEvent"@) == Some(event_type)
            &&& event.payload.get_str("error"@) == Some(error)
        }),
{
    broadcast use lemma_reads_put;

    lemma_record_names();
}

} // verus!
