//! What is told on the way: the entries that a submission, a start and a chain ask for, and what a
//! response is given beside what it was made of.

use vstd::prelude::*;

use crate::json::{lemma_reads_put, lookup, number, JsonView, Members};
use crate::model::{AuditView, InstanceView};
use crate::runtime::agent::agent_affinity;
use crate::runtime::agent_laws::lists;
use crate::runtime::chain::{
    answered_facts, chain_completed_entry, hop_cleared_entry, hop_entry, invoked_facts,
    suspend_facts, ChainJobView, FireView,
};
use crate::runtime::choice_laws::{declared_transitions, lemma_declared_transitions};
use crate::runtime::dispatch::{
    chain_ended, cleared_entry, completed_entry, decorated, failed, failed_response, failure_entry,
    files_entry, requested_entry, suspended_entry, transitioned_entry, DispatchView, JobView,
    WorkView,
};
use crate::runtime::effects::{
    ErrorView, EvidenceView, HopView, OutcomeView, ProgressView, ResultView, StatusHint,
    SuspendView,
};
use crate::runtime::links::{recovery_links, transition_def};
use crate::runtime::response_laws::{leads_back, lemma_leads_back};
use crate::runtime::script::{EffectView, ReplyView};
use crate::runtime::start::{started_entry, StartJobView};

verus! {

proof fn lemma_told_names()
    ensures
        "state"@ != "transition"@,
        "transition"@ != "version"@,
        "state"@ != "version"@,
        "expectedVersion"@ != "transition"@,
        "fromState"@ != "transition"@,
        "expectedVersion"@ != "fromState"@,
        "slots"@ != "state"@,
        "code"@ != "transition"@,
        "errorClass"@ != "transition"@,
        "message"@ != "transition"@,
        "persistenceDropped"@ != "transition"@,
        "code"@ != "errorClass"@,
        "code"@ != "message"@,
        "code"@ != "persistenceDropped"@,
        "errorClass"@ != "message"@,
        "errorClass"@ != "persistenceDropped"@,
        "message"@ != "persistenceDropped"@,
        "correlation_id"@ != "prompt"@,
        "correlation_id"@ != "transition"@,
        "prompt"@ != "transition"@,
        "definitionId"@ != "state"@,
        "definitionId"@ != "version"@,
        "finalState"@ != "steps"@,
        "deterministic"@ != "transition"@,
        "chainDepth"@ != "transition"@,
        "deterministic"@ != "state"@,
        "chainDepth"@ != "state"@,
        "deterministic"@ != "version"@,
        "chainDepth"@ != "version"@,
        "chainDepth"@ != "deterministic"@,
        "childWorkflowId"@ != "transition"@,
        "correlationId"@ != "transition"@,
        "chainDepth"@ != "fromState"@,
        "childWorkflowId"@ != "fromState"@,
        "correlationId"@ != "fromState"@,
        "fromState"@ != "prompt"@,
        "chainDepth"@ != "childWorkflowId"@,
        "chainDepth"@ != "correlationId"@,
        "chainDepth"@ != "prompt"@,
        "childWorkflowId"@ != "correlationId"@,
        "childWorkflowId"@ != "prompt"@,
        "correlationId"@ != "prompt"@,
        "affinity"@ != "transition"@,
        "max_seconds"@ != "transition"@,
        "tools"@ != "transition"@,
        "affinity"@ != "state"@,
        "max_seconds"@ != "state"@,
        "state"@ != "tools"@,
        "affinity"@ != "max_seconds"@,
        "affinity"@ != "tools"@,
        "max_seconds"@ != "tools"@,
        "duration_ms"@ != "transition"@,
        "model"@ != "transition"@,
        "prompt_tokens"@ != "transition"@,
        "completion_tokens"@ != "transition"@,
        "cost_usd"@ != "transition"@,
        "affinity"@ != "duration_ms"@,
        "affinity"@ != "model"@,
        "affinity"@ != "prompt_tokens"@,
        "affinity"@ != "completion_tokens"@,
        "affinity"@ != "cost_usd"@,
        "duration_ms"@ != "model"@,
        "duration_ms"@ != "prompt_tokens"@,
        "completion_tokens"@ != "duration_ms"@,
        "cost_usd"@ != "duration_ms"@,
        "model"@ != "prompt_tokens"@,
        "completion_tokens"@ != "model"@,
        "cost_usd"@ != "model"@,
        "completion_tokens"@ != "prompt_tokens"@,
        "cost_usd"@ != "prompt_tokens"@,
        "completion_tokens"@ != "cost_usd"@,
        "correlationId"@ != "source"@,
        "prompt"@ != "source"@,
        "source"@ != "transition"@,
        "fromState"@ != "toState"@,
        "fromState"@ != "version"@,
        "toState"@ != "transition"@,
        "toState"@ != "version"@,
        "chain"@ != "evidence"@,
        "evidence"@ != "links"@,
        "await"@ != "evidence"@,
        "chain"@ != "links"@,
        "await"@ != "chain"@,
        "await"@ != "links"@,
{
    reveal_strlit("state");
    reveal_strlit("transition");
    reveal_strlit("version");
    reveal_strlit("expectedVersion");
    reveal_strlit("fromState");
    reveal_strlit("slots");
    reveal_strlit("code");
    reveal_strlit("errorClass");
    reveal_strlit("message");
    reveal_strlit("persistenceDropped");
    reveal_strlit("correlation_id");
    reveal_strlit("prompt");
    reveal_strlit("definitionId");
    reveal_strlit("finalState");
    reveal_strlit("steps");
    reveal_strlit("deterministic");
    reveal_strlit("chainDepth");
    reveal_strlit("childWorkflowId");
    reveal_strlit("correlationId");
    reveal_strlit("affinity");
    reveal_strlit("max_seconds");
    reveal_strlit("tools");
    reveal_strlit("duration_ms");
    reveal_strlit("model");
    reveal_strlit("prompt_tokens");
    reveal_strlit("completion_tokens");
    reveal_strlit("cost_usd");
    reveal_strlit("source");
    reveal_strlit("toState");
    reveal_strlit("chain");
    reveal_strlit("evidence");
    reveal_strlit("links");
    reveal_strlit("await");
    assert("state"@.len() == 5);
    assert("transition"@.len() == 10);
    assert("version"@.len() == 7);
    assert("expectedVersion"@.len() == 15);
    assert("fromState"@.len() == 9);
    assert("slots"@.len() == 5);
    assert("code"@.len() == 4);
    assert("errorClass"@.len() == 10);
    assert("message"@.len() == 7);
    assert("persistenceDropped"@.len() == 18);
    assert("correlation_id"@.len() == 14);
    assert("prompt"@.len() == 6);
    assert("definitionId"@.len() == 12);
    assert("finalState"@.len() == 10);
    assert("steps"@.len() == 5);
    assert("deterministic"@.len() == 13);
    assert("chainDepth"@.len() == 10);
    assert("childWorkflowId"@.len() == 15);
    assert("correlationId"@.len() == 13);
    assert("affinity"@.len() == 8);
    assert("max_seconds"@.len() == 11);
    assert("tools"@.len() == 5);
    assert("duration_ms"@.len() == 11);
    assert("model"@.len() == 5);
    assert("prompt_tokens"@.len() == 13);
    assert("completion_tokens"@.len() == 17);
    assert("cost_usd"@.len() == 8);
    assert("source"@.len() == 6);
    assert("toState"@.len() == 7);
    assert("chain"@.len() == 5);
    assert("evidence"@.len() == 8);
    assert("links"@.len() == 5);
    assert("await"@.len() == 5);
    assert("slots"@[1] != "state"@[1]);
    assert("errorClass"@[0] != "transition"@[0]);
    assert("chainDepth"@[0] != "transition"@[0]);
    assert("state"@[0] != "tools"@[0]);
    assert("affinity"@[0] != "cost_usd"@[0]);
    assert("prompt"@[0] != "source"@[0]);
    assert("toState"@[0] != "version"@[0]);
    assert("chain"@[0] != "links"@[0]);
    assert("await"@[0] != "chain"@[0]);
    assert("await"@[0] != "links"@[0]);
}

/// Whether an entry is on an instance, by the one who submits.
pub open spec fn is_about(event: AuditView, kind: Seq<char>, id: Seq<char>, j: JobView) -> bool {
    &&& event.event_type == kind
    &&& event.workflow_id == Some(id)
    &&& event.actor == Some(j.request.principal.subject)
    &&& event.correlation_id == Some(j.correlation_id)
}

/// What is told of a submission: that a transition is asked for, that the instance moved, that slots
/// were given up, and that the executor failed. Each entry names what it is about.
pub proof fn law_submissions_are_told(
    j: JobView,
    i: InstanceView,
    state: Seq<char>,
    slots: Seq<Seq<char>>,
    err: ErrorView,
    dropped: bool,
)
    ensures
        ({
            let event = requested_entry(j, i);
            &&& is_about(event, "transition.requested"@, i.id, j)
            &&& event.payload.get_str("transition"@) == Some(j.request.transition)
            &&& event.payload.get("expectedVersion"@) == Some(number(j.request.expected_version))
            &&& event.payload.get_str("fromState"@) == Some(i.state)
        }),
        ({
            let event = transitioned_entry(j, i);
            &&& is_about(event, "workflow.transitioned"@, i.id, j)
            &&& event.payload.get_str("transition"@) == Some(j.request.transition)
            &&& event.payload.get_str("state"@) == Some(i.state)
            &&& event.payload.get("version"@) == Some(number(i.version))
        }),
        ({
            let event = cleared_entry(j, i.id, state, slots);
            &&& is_about(event, "workflow.slot.cleared"@, i.id, j)
            &&& event.payload.get_str("state"@) == Some(state)
            &&& lists(event.payload.get("slots"@), slots)
        }),
        ({
            let event = failure_entry(j, i, err, dropped);
            &&& is_about(event, "transition.rejected"@, i.id, j)
            &&& event.payload.get_str("transition"@) == Some(j.request.transition)
            &&& event.payload.get_str("code"@) == Some("EXECUTOR_FAILED"@)
            &&& event.payload.get_str("errorClass"@) == Some(err.class)
            &&& event.payload.get_str("message"@) == Some(err.message)
            &&& event.payload.get("persistenceDropped"@) == Some(JsonView::Bool(dropped))
        }),
{
    broadcast use lemma_reads_put;

    lemma_told_names();
}

/// A failed executor is told, and then answered with its message, its class and the transition; the
/// response is returned as it came.
pub proof fn law_failures_are_answered(
    j: JobView,
    i: InstanceView,
    err: ErrorView,
    dropped: bool,
    r: Seq<ReplyView>,
)
    ensures
        match failed(j, i, err, dropped, r) {
            DispatchView::Do(EffectView::Audit { event, .. }) => r.len() == 0 && event
                == failure_entry(j, i, err, dropped),
            DispatchView::Do(EffectView::Respond { instance, hint, error, principal }) => {
                &&& r.len() == 1
                &&& instance == i
                &&& hint == StatusHint::Failed
                &&& principal == j.request.principal
                &&& error matches Some(x) && x.get_str("code"@) == Some("EXECUTOR_FAILED"@)
                    && x.get_str("message"@) == Some(err.message) && x.get_str("errorClass"@) == Some(
                    err.class,
                ) && x.get_str("attemptedTransition"@) == Some(j.request.transition)
            },
            DispatchView::Do(_) => false,
            DispatchView::Done(Ok((m, next))) => r.len() > 1 && r[1] == ReplyView::Response(m)
                && next is None,
            DispatchView::Done(Err(_)) => r.len() > 0 && (r[0] matches ReplyView::Done(Err(_))),
            DispatchView::Misfit => true,
        },
{
    broadcast use lemma_reads_put;

    crate::runtime::submission_laws::lemma_member_names();
    if r.len() > 1 {
        assert(r.drop_first()[0] == r[1]);
    }
}

/// What is told of an end, of files and of a wait.
pub proof fn law_ends_and_waits_are_told(
    cor: Seq<char>,
    i: InstanceView,
    kind: Seq<char>,
    files: Seq<Seq<char>>,
    s: SuspendView,
    transition: Seq<char>,
)
    ensures
        ({
            let event = completed_entry(cor, i);
            &&& event.event_type == "workflow.completed"@
            &&& event.workflow_id == Some(i.id)
            &&& event.correlation_id == Some(cor)
            &&& event.payload.get_str("state"@) == Some(i.state)
        }),
        ({
            let event = files_entry(kind, i.id, files);
            &&& event.event_type == kind
            &&& event.workflow_id == Some(i.id)
            &&& lists(event.payload.get("files"@), files)
        }),
        ({
            let event = suspended_entry(i.id, s, transition);
            &&& event.workflow_id == Some(i.id)
            &&& match s {
                SuspendView::Subworkflow { child_workflow_id } => {
                    &&& event.event_type == "sub_workflow.wait.suspended"@
                    &&& event.payload.get_str("child_workflow_id"@) == Some(child_workflow_id)
                },
                SuspendView::AgentAwait { correlation_id, prompt } => {
                    &&& event.event_type == "agent.await.suspended"@
                    &&& event.payload.get_str("correlation_id"@) == Some(correlation_id)
                    &&& event.payload.get_str("prompt"@) == Some(prompt)
                    &&& event.payload.get_str("transition"@) == Some(transition)
                },
            }
        }),
{
    broadcast use lemma_reads_put;

    lemma_told_names();
}

/// What is told of a start: the definition, where the instance stands, and which instance spawned it
/// at which depth.
pub proof fn law_starts_are_told(j: StartJobView, i: InstanceView)
    ensures
        ({
            let event = started_entry(j, i);
            &&& event.event_type == "workflow.started"@
            &&& event.workflow_id == Some(i.id)
            &&& event.actor == Some(j.request.principal.subject)
            &&& event.correlation_id == Some(j.correlation_id)
            &&& event.payload.get_str("definitionId"@) == Some(i.definition_id)
            &&& event.payload.get_str("state"@) == Some(i.state)
            &&& event.payload.get("version"@) == Some(number(i.version))
            &&& event.topology matches Some((parent, depth)) && depth == i.depth && (match i.parent {
                Some((id, _)) => parent == Some(id),
                None => parent is None,
            })
        }),
{
    broadcast use lemma_reads_put;

    lemma_told_names();
}

/// What is told of a hop and of a chain that came to rest.
pub proof fn law_hops_are_told(
    c: ChainJobView,
    p: ProgressView,
    h: FireView,
    slots: Seq<Seq<char>>,
    name: Seq<char>,
    s: SuspendView,
)
    ensures
        ({
            let event = hop_entry(c, p, h);
            &&& event.event_type == "workflow.transitioned"@
            &&& event.workflow_id == Some(p.instance.id)
            &&& event.actor == Some(c.acting.principal.subject)
            &&& event.correlation_id == Some(c.acting.correlation_id)
            &&& event.payload.get_str("transition"@) == Some(h.name)
            &&& event.payload.get_str("state"@) == Some(p.instance.state)
            &&& event.payload.get("version"@) == Some(number(p.instance.version))
            &&& event.payload.get("deterministic"@) == Some(JsonView::Bool(!h.driven))
            &&& event.payload.get("chainDepth"@) == Some(number(p.steps.len() as u64))
        }),
        ({
            let event = hop_cleared_entry(c, p, slots);
            &&& event.event_type == "workflow.slot.cleared"@
            &&& event.workflow_id == Some(p.instance.id)
            &&& event.payload.get_str("state"@) == Some(p.instance.state)
            &&& lists(event.payload.get("slots"@), slots)
        }),
        ({
            let event = chain_completed_entry(c, p);
            &&& event.event_type == "chain.completed"@
            &&& event.workflow_id == Some(p.instance.id)
            &&& event.correlation_id == Some(c.acting.correlation_id)
            &&& event.payload.get("steps"@) == Some(number(p.steps.len() as u64))
            &&& event.payload.get_str("finalState"@) == Some(p.instance.state)
        }),
        ({
            let m = suspend_facts(p, name, s);
            &&& lookup(m, "transition"@) == Some(JsonView::Str(name))
            &&& lookup(m, "fromState"@) == Some(JsonView::Str(p.instance.state))
            &&& lookup(m, "chainDepth"@) == Some(number(p.steps.len() as u64))
            &&& match s {
                SuspendView::Subworkflow { child_workflow_id } => lookup(m, "childWorkflowId"@)
                    == Some(JsonView::Str(child_workflow_id)),
                SuspendView::AgentAwait { correlation_id, prompt } => lookup(m, "correlationId"@)
                    == Some(JsonView::Str(correlation_id)) && lookup(m, "prompt"@) == Some(
                    JsonView::Str(prompt),
                ),
            }
        }),
{
    broadcast use lemma_reads_put;

    lemma_told_names();
}

/// What is told of an agent that is asked, and of one that came back: what it was given, how long it
/// took, and what it cost, as the answer says.
pub proof fn law_agents_are_told(
    c: ChainJobView,
    p: ProgressView,
    name: Seq<char>,
    res: ResultView,
    elapsed_ms: u64,
)
    ensures
        ({
            let m = invoked_facts(c, p, name);
            &&& lookup(m, "transition"@) == Some(JsonView::Str(name))
            &&& lookup(m, "state"@) == Some(JsonView::Str(p.instance.state))
            &&& lookup(m, "affinity"@) == Some(
                JsonView::Str(agent_affinity(c.definition, p.instance, c.auto)),
            )
            &&& lookup(m, "max_seconds"@) == Some(number(c.auto.max_seconds))
            &&& lists(lookup(m, "tools"@), c.auto.tools)
        }),
        ({
            let m = answered_facts(c, p, name, res, elapsed_ms);
            &&& lookup(m, "transition"@) == Some(JsonView::Str(name))
            &&& lookup(m, "affinity"@) == Some(
                JsonView::Str(agent_affinity(c.definition, p.instance, c.auto)),
            )
            &&& lookup(m, "duration_ms"@) == Some(number(elapsed_ms))
            &&& match res.telemetry {
                Some(t) => {
                    &&& lookup(m, "model"@) == Some(JsonView::Str(t.model))
                    &&& lookup(m, "prompt_tokens"@) == Some(number(t.prompt_tokens))
                    &&& lookup(m, "completion_tokens"@) == Some(number(t.completion_tokens))
                    &&& lookup(m, "cost_usd"@) == Some(t.cost_usd)
                },
                None => {
                    &&& lookup(m, "model"@) == Some(JsonView::Null)
                    &&& lookup(m, "prompt_tokens"@) == Some(JsonView::Null)
                    &&& lookup(m, "completion_tokens"@) == Some(JsonView::Null)
                    &&& lookup(m, "cost_usd"@) == Some(JsonView::Null)
                },
            }
        }),
{
    broadcast use lemma_reads_put;

    reveal(invoked_facts);
    reveal(answered_facts);
    lemma_told_names();
}

/// Whether a list shows hops, in their order.
pub open spec fn shows_hops(v: Option<JsonView>, steps: Seq<HopView>) -> bool {
    v matches Some(JsonView::Array(a)) && a.len() == steps.len() && forall|k: int|
        #![trigger a[k]]
        0 <= k < a.len() ==> {
            &&& a[k].get_str("fromState"@) == Some(steps[k].from_state)
            &&& a[k].get_str("transition"@) == Some(steps[k].transition)
            &&& a[k].get_str("toState"@) == Some(steps[k].to_state)
            &&& a[k].get("version"@) == Some(number(steps[k].version))
        }
}

/// Whether a list shows what was vouched for, in its order.
pub open spec fn shows_evidence(v: Option<JsonView>, evidence: Seq<EvidenceView>) -> bool {
    v matches Some(JsonView::Array(a)) && a.len() == evidence.len() && forall|k: int|
        #![trigger a[k]]
        0 <= k < a.len() ==> a[k] == evidence[k].body
}

/// Whether a response is another one with the evidence and the hops that there are.
pub open spec fn is_decorated(
    m: Members,
    response: Members,
    evidence: Seq<EvidenceView>,
    steps: Seq<HopView>,
) -> bool {
    &&& if evidence.len() > 0 {
        shows_evidence(lookup(m, "evidence"@), evidence)
    } else {
        lookup(m, "evidence"@) == lookup(response, "evidence"@)
    }
    &&& if steps.len() > 0 {
        shows_hops(lookup(m, "chain"@), steps)
    } else {
        lookup(m, "chain"@) == lookup(response, "chain"@)
    }
    &&& forall|key: Seq<char>|
        #![trigger lookup(m, key)]
        key != "evidence"@ && key != "chain"@ ==> lookup(m, key) == lookup(response, key)
}

proof fn lemma_decorated(response: Members, evidence: Seq<EvidenceView>, steps: Seq<HopView>)
    ensures
        is_decorated(decorated(response, evidence, steps), response, evidence, steps),
{
    broadcast use lemma_reads_put;

    lemma_told_names();
    if steps.len() > 0 {
        let a = crate::runtime::dispatch::hops_json(steps);
        assert forall|k: int| #![trigger a[k]] 0 <= k < a.len() implies {
            &&& a[k].get_str("fromState"@) == Some(steps[k].from_state)
            &&& a[k].get_str("transition"@) == Some(steps[k].transition)
            &&& a[k].get_str("toState"@) == Some(steps[k].to_state)
            &&& a[k].get("version"@) == Some(number(steps[k].version))
        } by {}
    }
}

/// What a response to an end of a chain is: the one that was put together, with what was vouched for
/// and the hops that were taken. Where the chain completed, the executor's choice comes with it; where
/// it failed, only links are added to that; where it waits for an answer, the question.
pub proof fn law_chain_ends_are_answered(
    j: JobView,
    definition: JsonView,
    w: WorkView,
    o: OutcomeView,
    r: Seq<ReplyView>,
)
    ensures
        chain_ended(j, definition, w, o, r) matches DispatchView::Done(Ok((m, next))) ==> exists|
            told: Members,
        | #[trigger]
            r.contains(ReplyView::Response(told)) && match o {
                OutcomeView::Completed(p) => next == w.next_transition && is_decorated(
                    m,
                    told,
                    w.evidence + p.evidence,
                    p.steps,
                ),
                OutcomeView::Failed { partial, failed_transition, .. } => {
                    &&& next is None
                    &&& forall|key: Seq<char>|
                        #![trigger lookup(m, key)]
                        key != "links"@ ==> lookup(m, key) == lookup(
                            decorated(told, w.evidence + partial.evidence, partial.steps),
                            key,
                        )
                },
                OutcomeView::Suspended { suspend, transition, .. } => {
                    &&& next is None
                    &&& forall|key: Seq<char>|
                        #![trigger lookup(m, key)]
                        key != "await"@ ==> lookup(m, key) == lookup(told, key)
                    &&& match suspend {
                        SuspendView::Subworkflow { .. } => m == told,
                        SuspendView::AgentAwait { correlation_id, prompt } => lookup(m, "await"@)
                            matches Some(x) && x.get_str("source"@) == Some("agent_await"@)
                            && x.get_str("correlationId"@) == Some(correlation_id) && x.get_str(
                            "prompt"@,
                        ) == Some(prompt) && x.get_str("transition"@) == Some(transition),
                    }
                },
                OutcomeView::WaitingOnLock { .. } => next is None && m == told,
                OutcomeView::Quarantined { partial, .. } => next is None && is_decorated(
                    m,
                    told,
                    Seq::empty(),
                    partial.steps,
                ),
            },
{
    broadcast use lemma_reads_put;

    lemma_told_names();
    let a = r.drop_first();
    let b = a.drop_first();
    let c = b.drop_first();
    if r.len() > 0 {
        assert(r.contains(r[0]));
    }
    if r.len() > 1 {
        assert(a[0] == r[1]);
        assert(r.contains(r[1]));
    }
    if r.len() > 2 {
        assert(b[0] == r[2]);
        assert(r.contains(r[2]));
    }
    if r.len() > 3 {
        assert(c[0] == r[3]);
        assert(r.contains(r[3]));
    }
    assert forall|told: Members, e: Seq<EvidenceView>, s: Seq<HopView>| is_decorated(
        #[trigger] decorated(told, e, s),
        told,
        e,
        s,
    ) by {
        lemma_decorated(told, e, s);
    }
}

/// The way back after a failed chain: where the failed transition is known and the state has it, one
/// link more, to that transition; where it is not known, one for each transition of the state. What
/// was there stays in front.
pub proof fn law_failed_chains_lead_back(
    response: Members,
    definition: JsonView,
    p: ProgressView,
    failed: Seq<char>,
)
    ensures
        ({
            let m = failed_response(response, definition, p, Seq::empty(), failed);
            let i = p.instance;
            lookup(decorated(response, Seq::empty(), p.steps), "links"@) matches Some(
                JsonView::Array(before),
            ) ==> (lookup(m, "links"@) matches Some(JsonView::Array(now)) && now.len() >= before.len()
                && now.take(before.len() as int) == before && match (
                failed.len() > 0,
                definition.at(seq!["states"@, i.state, "transitions"@, failed]),
                declared_transitions(definition, i.state),
            ) {
                (true, Some(t), _) => now.len() == before.len() + 1 && leads_back(
                    now[before.len() as int],
                    i.id,
                    i.version,
                    failed,
                    "deterministic"@,
                ),
                (true, None, _) => now.len() == before.len(),
                (false, _, Some(ts)) => now.len() == before.len() + ts.len() && forall|k: int|
                    #![trigger ts[k]]
                    0 <= k < ts.len() ==> leads_back(
                        now[before.len() + k],
                        i.id,
                        i.version,
                        ts[k].0,
                        match ts[k].1.get_str("actor"@) {
                            Some(x) => x,
                            None => "deterministic"@,
                        },
                    ),
                (false, _, None) => now.len() == before.len(),
            })
        }),
{
    broadcast use lemma_reads_put;

    let i = p.instance;
    lemma_declared_transitions(definition, i.state);
    crate::runtime::agent_laws::lemma_definition_of(
        InstanceView { definition, ..i },
        failed,
    );
    let base = decorated(response, Seq::empty(), p.steps);
    if let Some(JsonView::Array(before)) = lookup(base, "links"@) {
        assert(before.take(before.len() as int) =~= before);
        if failed.len() > 0 {
            if let Some(t) = transition_def(definition, i.state, failed) {
                let link = crate::runtime::links::failed_link(t, i.id, i.version, failed);
                let now = before + seq![link];
                assert(now.take(before.len() as int) =~= before);
                assert(now[before.len() as int] == link);
                lemma_leads_back(
                    failed,
                    t,
                    "deterministic"@,
                    i.id,
                    i.version,
                    crate::runtime::links::no_arguments(),
                );
            }
        } else if let Some(ts) = declared_transitions(definition, i.state) {
            let more = recovery_links(i.id, i.version, ts);
            let now = before + more;
            assert(now.take(before.len() as int) =~= before);
            assert forall|k: int| #![trigger ts[k]] 0 <= k < ts.len() implies leads_back(
                now[before.len() + k],
                i.id,
                i.version,
                ts[k].0,
                match ts[k].1.get_str("actor"@) {
                    Some(x) => x,
                    None => "deterministic"@,
                },
            ) by {
                assert(now[before.len() + k] == more[k]);
                lemma_leads_back(
                    ts[k].0,
                    ts[k].1,
                    match ts[k].1.get_str("actor"@) {
                        Some(x) => x,
                        None => "deterministic"@,
                    },
                    i.id,
                    i.version,
                    crate::runtime::links::schema_or_empty(ts[k].1),
                );
            }
        }
    }
}

} // verus!
