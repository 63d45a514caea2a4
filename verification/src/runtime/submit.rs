//! The turns of a submission: an executor may choose the next transition, up to a limit.

use vstd::prelude::*;

use crate::json::{obj, opt_view, Json, JsonMap, JsonView, Members};
use crate::model::{audit_entry, entry, AuditEvent, AuditView};
use crate::run_env::copy_opt;
use crate::runtime::dispatch::{DispatchOutcome, RequestView, SubmitTransition};
use crate::runtime::effects::{opt_next, Failure, FailureView, NextTransition, NextView};
use crate::runtime::guards::one_more;
use crate::runtime::links::{copy_or_null, or_null};
use crate::runtime::runtime::WorkflowRuntime;
use crate::text::{decimal, decimal_text, texts};

verus! {

/// The turns that a submission may take where nothing else is set.
pub const DEFAULT_MAX_CHAINED_LLM_TURNS: u32 = 32;

/// What a submission does after a turn.
pub enum SubmitMove {
    /// It is over.
    Return(JsonMap),
    /// It takes one turn more; so many were taken beyond the first.
    Again(SubmitTransition, u32),
    /// It took too many turns.
    Exceeded(AuditEvent, Failure),
    /// The response has no instance to go on with.
    Broken(String),
}

/// The model of what a submission does after a turn.
pub enum SubmitView {
    Return(Members),
    Again(RequestView, u32),
    Exceeded(AuditView, FailureView),
    Broken(Seq<char>),
}

impl SubmitMove {
    pub open spec fn view(&self) -> SubmitView {
        match self {
            SubmitMove::Return(m) => SubmitView::Return(m@),
            SubmitMove::Again(q, n) => SubmitView::Again(q@, *n),
            SubmitMove::Exceeded(e, f) => SubmitView::Exceeded(e@, f@),
            SubmitMove::Broken(m) => SubmitView::Broken(m@),
        }
    }
}

/// A member of the response's instance.
pub open spec fn told_of_instance(response: Members, key: Seq<char>) -> Option<JsonView> {
    match JsonView::Object(response).get("workflow"@) {
        Some(w) => w.get(key),
        None => None,
    }
}

fn find_told<'a>(response: &'a JsonMap, key: &str) -> (r: Option<&'a Json>)
    ensures
        opt_view(r) == told_of_instance(response@, key@),
{
    match response.get("workflow") {
        Some(w) => w.get(key),
        None => None,
    }
}

/// How too many turns are worded.
pub open spec fn too_deep(turns: u32, cap: u32) -> Seq<char> {
    "LLM chain depth exceeded after "@ + decimal(turns as nat) + " turns (cap = "@ + decimal(
        cap as nat,
    ) + ")"@
}

fn make_too_deep(turns: u32, cap: u32) -> (r: String)
    ensures
        r@ == too_deep(turns, cap),
{
    let mut m = "LLM chain depth exceeded after ".to_owned();
    m.append(decimal_text(turns as u64).as_str());
    m.append(" turns (cap = ");
    m.append(decimal_text(cap as u64).as_str());
    m.append(")");
    m
}

/// The entry of too many turns.
pub open spec fn too_deep_entry(
    subject: Seq<char>,
    id: Seq<char>,
    next: NextView,
    response: Members,
    turns: u32,
    cap: u32,
) -> AuditView {
    entry(
        "transition.rejected"@,
        id,
        Some(subject),
        None,
        obj().with("transition"@, JsonView::Str(next.transition)).with(
            "code"@,
            JsonView::Str("LLM_CHAIN_DEPTH_EXCEEDED"@),
        ).with("message"@, JsonView::Str(too_deep(turns, cap))).with(
            "fromState"@,
            or_null(told_of_instance(response, "state"@)),
        ).m,
    )
}

/// The next request of a submission: what the executor chose, on the version that the last
/// turn committed. The one who acts and the ids of the trace and the run stay the same.
pub open spec fn follow_up(q: RequestView, id: Seq<char>, version: u64, next: NextView) -> RequestView {
    RequestView {
        workflow_id: id,
        expected_version: version,
        transition: next.transition,
        arguments: next.arguments,
        principal: q.principal,
        summary: next.summary,
        trace_id: q.trace_id,
        run_id: q.run_id,
    }
}

/// What a submission does after a turn, of which there were `turns` beyond the first.
pub open spec fn after_turn(
    cap: u32,
    turns: u32,
    q: RequestView,
    response: Members,
    next: Option<NextView>,
) -> SubmitView {
    match next {
        None => SubmitView::Return(response),
        Some(n) => match told_of_instance(response, "id"@) {
            Some(JsonView::Str(id)) => match told_of_instance(response, "version"@) {
                Some(v) => match v.as_u64() {
                    Some(version) => if one_more(turns) > cap {
                        SubmitView::Exceeded(
                            too_deep_entry(q.principal.subject, id, n, response, one_more(turns), cap),
                            FailureView::ChainDepthExceeded(too_deep(one_more(turns), cap)),
                        )
                    } else {
                        SubmitView::Again(follow_up(q, id, version, n), one_more(turns))
                    },
                    None => SubmitView::Broken(
                        "submit chain: dispatched response missing workflow.version"@,
                    ),
                },
                None => SubmitView::Broken(
                    "submit chain: dispatched response missing workflow.version"@,
                ),
            },
            _ => SubmitView::Broken("submit chain: dispatched response missing workflow.id"@),
        },
    }
}

impl<D, S, X, G, A, E, L, Q> WorkflowRuntime<D, S, X, G, A, E, L, Q> {
    /// Decides what a submission does after a turn.
    pub fn submit(&self, turns: u32, request: &SubmitTransition, outcome: DispatchOutcome) -> (r:
        SubmitMove)
        ensures
            r@ == after_turn(
                self.max_chained_llm_turns,
                turns,
                request@,
                outcome.response@,
                opt_next(outcome.next_transition),
            ),
            r matches SubmitMove::Again(_, n) ==> n <= self.max_chained_llm_turns,
    {
        let cap: u32 = self.max_chained_llm_turns;
        let DispatchOutcome { response, next_transition } = outcome;
        let next = match next_transition {
            Some(n) => n,
            None => {
                return SubmitMove::Return(response);
            },
        };
        let id = match find_told(&response, "id") {
            Some(v) => v.as_str(),
            None => None,
        };
        let id = match id {
            Some(s) => s.to_owned(),
            None => {
                return SubmitMove::Broken(
                    "submit chain: dispatched response missing workflow.id".to_owned(),
                );
            },
        };
        let version = match find_told(&response, "version") {
            Some(v) => v.as_u64(),
            None => None,
        };
        let version: u64 = match version {
            Some(v) => v,
            None => {
                return SubmitMove::Broken(
                    "submit chain: dispatched response missing workflow.version".to_owned(),
                );
            },
        };
        let turns: u32 = if turns < u32::MAX {
            turns + 1
        } else {
            turns
        };
        if turns > cap {
            let payload = JsonMap::new().with("transition", Json::text(next.transition.as_str())).with(
                "code",
                Json::text("LLM_CHAIN_DEPTH_EXCEEDED"),
            ).with("message", Json::Str(make_too_deep(turns, cap))).with(
                "fromState",
                copy_or_null(find_told(&response, "state")),
            );
            let event = audit_entry(
                "transition.rejected",
                id.as_str(),
                Some(request.principal.subject.as_str()),
                None,
                payload,
            );
            return SubmitMove::Exceeded(event, Failure::ChainDepthExceeded(make_too_deep(turns, cap)));
        }
        let NextTransition { transition, arguments, summary } = next;
        SubmitMove::Again(
            SubmitTransition {
                workflow_id: id,
                expected_version: version,
                transition,
                arguments,
                principal: request.principal.clone(),
                summary,
                trace_id: copy_opt(&request.trace_id),
                run_id: copy_opt(&request.run_id),
            },
            turns,
        )
    }
}

} // verus!
