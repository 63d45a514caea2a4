//! One submitted transition, from the lookup of its instance to its response.
//!
//! [`dispatch_once`] names the next thing to do, given what came of everything before. The
//! checks come first and change nothing; the executor runs only when all of them passed;
//! the instance is stored only after the record of the transition was written.

use vstd::prelude::*;

use crate::json::{lookup, number, obj, put, views, Json, JsonMap, JsonView, Members};
use crate::model::{
    audit_entry, entry, nanos_of, secs_of, utc_display, Acting, ActingView, AuditEvent, AuditView,
    InstanceView, Principal, PrincipalView, WorkflowInstance,
};
use crate::repo_locks::{owned_files, owned_files_in};
use crate::run_env::copy_opt;
use crate::runtime::context::{
    advanced, agent_await, agent_await_for, clear_state_local_slots_on_exit, clear_waits, counted,
    counter_fault, file_list, files_as_strings, fire_key, fire_slot, given_up, left_behind, mark,
    marked, read_counter_slot, set_member, with_member,
};
use crate::runtime::effects::{
    bodies, conflict_views, copy_evidence, copy_json, copy_next, evidence_bodies, evidence_views,
    hop_views, join_evidence, opt_json, opt_next, AuditMode, ChainOutcome, ChainResult, ChainStep,
    ErrorView, Evidence, EvidenceView, ExecuteError, ExecuteResult, Failure, FailureView,
    GuardsReply, GuardsView, HopView, NextTransition, NextView, OutcomeView, ProgressView,
    ResultView, StatusHint, StepSuspend, SuspendView,
};
use crate::runtime::links::{
    is_terminal, push_failed_chain_recovery_link, push_state_recovery_links, terminal, text_or,
    transition_def, transition_definition, with_failed_link, with_state_links,
};
use crate::runtime::records::{all_checks, slot_checks, slot_violation, validate_blackboard_writes};
use crate::runtime::schema::{apply_schema_defaults, defaulted, schema_fault, validate_schema};
use crate::runtime::script::{
    first, reply_at, rest, sound, Effect, EffectView, RecordParams, RecordView, Reply, ReplyView,
};
use crate::slot::slot_constraint::{evaluate_constraints, first_violation};
use crate::text::{contains, copy_strings, decimal, decimal_text, occurs, opt_string, same, texts};

verus! {

/// For how many seconds the locks of an executor's files are taken. Whoever works longer
/// extends them.
pub const LOCK_TTL_SECS: u64 = 300;

/// What is wired to the runtime.
#[derive(Debug, Clone, Copy, PartialEq, Eq, Structural)]
pub struct Wiring {
    /// Locks of files.
    pub locks: bool,
    /// A line of those who wait for files.
    pub scheduler: bool,
    /// A store of evidence.
    pub evidence: bool,
}

/// A transition that is submitted.
pub struct SubmitTransition {
    pub workflow_id: String,
    pub expected_version: u64,
    pub transition: String,
    pub arguments: Json,
    pub principal: Principal,
    pub summary: Option<String>,
    pub trace_id: Option<String>,
    pub run_id: Option<String>,
}

/// The model of a submitted transition.
pub struct RequestView {
    pub workflow_id: Seq<char>,
    pub expected_version: u64,
    pub transition: Seq<char>,
    pub arguments: JsonView,
    pub principal: PrincipalView,
    pub summary: Option<Seq<char>>,
    pub trace_id: Option<Seq<char>>,
    pub run_id: Option<Seq<char>>,
}

impl SubmitTransition {
    pub open spec fn view(&self) -> RequestView {
        RequestView {
            workflow_id: self.workflow_id@,
            expected_version: self.expected_version,
            transition: self.transition@,
            arguments: self.arguments@,
            principal: self.principal@,
            summary: opt_string(self.summary),
            trace_id: opt_string(self.trace_id),
            run_id: opt_string(self.run_id),
        }
    }
}

/// A submitted transition with what is wired and the id that ties its entries together.
pub struct Job {
    pub wiring: Wiring,
    pub request: SubmitTransition,
    pub correlation_id: String,
}

/// The model of a job.
pub struct JobView {
    pub wiring: Wiring,
    pub request: RequestView,
    pub correlation_id: Seq<char>,
}

impl JobView {
    /// Whom the job acts for.
    pub open spec fn acting(self) -> ActingView {
        ActingView { principal: self.request.principal, correlation_id: self.correlation_id }
    }
}

impl Job {
    fn acting(&self) -> (r: Acting)
        ensures
            r@ == self@.acting(),
    {
        Acting {
            principal: self.request.principal.clone(),
            correlation_id: self.correlation_id.clone(),
        }
    }

    pub open spec fn view(&self) -> JobView {
        JobView {
            wiring: self.wiring,
            request: self.request@,
            correlation_id: self.correlation_id@,
        }
    }
}

/// What one dispatch gives back: the response, and the transition that its executor chose
/// as the next one.
pub struct DispatchOutcome {
    pub response: JsonMap,
    pub next_transition: Option<NextTransition>,
}

/// What is next: something to be done, or the end. `Misfit` says that the last reply is
/// none to what was asked.
pub enum DispatchStep {
    Do(Effect),
    Done(Result<DispatchOutcome, Failure>),
    Misfit,
}

/// The model of what is next.
pub enum DispatchView {
    Do(EffectView),
    Done(Result<(Members, Option<NextView>), FailureView>),
    Misfit,
}

impl DispatchStep {
    pub open spec fn view(&self) -> DispatchView {
        match self {
            DispatchStep::Do(e) => DispatchView::Do(e@),
            DispatchStep::Done(Ok(o)) => DispatchView::Done(
                Ok((o.response@, opt_next(o.next_transition))),
            ),
            DispatchStep::Done(Err(e)) => DispatchView::Done(Err(e@)),
            DispatchStep::Misfit => DispatchView::Misfit,
        }
    }
}

/// An end with an error text.
pub open spec fn broken(message: Seq<char>) -> DispatchView {
    DispatchView::Done(Err(FailureView::Text(message)))
}

pub(crate) fn broke(message: &str) -> (r: DispatchStep)
    ensures
        r@ == broken(message@),
{
    DispatchStep::Done(Err(Failure::Text(message.to_owned())))
}

/// An end with a response that nothing follows.
pub open spec fn ended(response: Members) -> DispatchView {
    DispatchView::Done(Ok((response, None)))
}

/// Asks for a response and ends with it.
pub open spec fn respond(
    who: ActingView,
    i: InstanceView,
    hint: StatusHint,
    error: Option<JsonView>,
    r: Seq<ReplyView>,
) -> DispatchView {
    match first(r) {
        None => DispatchView::Do(
            EffectView::Respond {
                instance: i,
                hint,
                error,
                principal: who.principal,
            },
        ),
        Some(ReplyView::Response(m)) => ended(m),
        _ => DispatchView::Misfit,
    }
}

pub(crate) fn do_respond(
    who: &Acting,
    i: &WorkflowInstance,
    hint: StatusHint,
    error: Option<Json>,
    replies: &Vec<Reply>,
    at: usize,
) -> (r: DispatchStep)
    requires
        at <= replies@.len(),
        sound(replies@),
    ensures
        r@ == respond(who@, i@, hint, opt_json(error), rest(replies@, at as int)),
{
    match reply_at(replies, at) {
        None => DispatchStep::Do(
            Effect::Respond { instance: i.clone(), hint, error, principal: who.principal.clone() },
        ),
        Some(Reply::Response(m)) => DispatchStep::Done(
            Ok(DispatchOutcome { response: m.clone(), next_transition: None }),
        ),
        Some(_) => DispatchStep::Misfit,
    }
}

/// The entry of a transition that was refused.
pub open spec fn rejected_entry(
    j: JobView,
    i: InstanceView,
    code: Seq<char>,
    message: Seq<char>,
) -> AuditView {
    entry(
        "transition.rejected"@,
        i.id,
        Some(j.request.principal.subject),
        Some(j.correlation_id),
        obj().with("transition"@, JsonView::Str(j.request.transition)).with("code"@, JsonView::Str(code)).with("message"@, JsonView::Str(message)).with("fromState"@, JsonView::Str(i.state)).m,
    )
}

/// What the response to a refused transition says.
pub open spec fn rejection(code: Seq<char>, message: Seq<char>, transition: Seq<char>) -> JsonView {
    obj().with("code"@, JsonView::Str(code)).with("message"@, JsonView::Str(message)).with("attemptedTransition"@, JsonView::Str(transition)).json()
}

/// Refuses the transition: one entry, one response, nothing else.
pub open spec fn reject(
    j: JobView,
    i: InstanceView,
    code: Seq<char>,
    message: Seq<char>,
    r: Seq<ReplyView>,
) -> DispatchView {
    match first(r) {
        None => DispatchView::Do(
            EffectView::Audit {
                event: rejected_entry(j, i, code, message),
                mode: AuditMode::SelfEvent,
            },
        ),
        Some(ReplyView::Done(_)) => respond(
            j.acting(),
            i,
            StatusHint::Rejected,
            Some(rejection(code, message, j.request.transition)),
            r.drop_first(),
        ),
        _ => DispatchView::Misfit,
    }
}

fn do_reject(
    j: &Job,
    i: &WorkflowInstance,
    code: &str,
    message: &str,
    replies: &Vec<Reply>,
    at: usize,
) -> (r: DispatchStep)
    requires
        at <= replies@.len(),
        sound(replies@),
    ensures
        r@ == reject(j@, i@, code@, message@, rest(replies@, at as int)),
{
    match reply_at(replies, at) {
        None => {
            let payload = JsonMap::new().with(
                "transition",
                Json::text(j.request.transition.as_str()),
            ).with("code", Json::text(code)).with("message", Json::text(message)).with(
                "fromState",
                Json::text(i.state.as_str()),
            );
            DispatchStep::Do(
                Effect::Audit {
                    event: audit_entry(
                        "transition.rejected",
                        i.id.as_str(),
                        Some(j.request.principal.subject.as_str()),
                        Some(j.correlation_id.as_str()),
                        payload,
                    ),
                    mode: AuditMode::SelfEvent,
                },
            )
        },
        Some(Reply::Done(_)) => {
            let error = JsonMap::new().with("code", Json::text(code)).with(
                "message",
                Json::text(message),
            ).with("attemptedTransition", Json::text(j.request.transition.as_str()));
            do_respond(&j.acting(), i, StatusHint::Rejected, Some(Json::Object(error)), replies, at + 1)
        },
        Some(_) => DispatchStep::Misfit,
    }
}

/// What the checks before the executor say.
pub enum GateView {
    Reject(Seq<char>, Seq<char>),
    Broken(Seq<char>),
    Pass(JsonView),
}

/// The checks that need nothing from outside, in order: the version, the transition, who
/// may fire it, and how often.
pub open spec fn gate(q: RequestView, i: InstanceView) -> GateView {
    if i.version != q.expected_version {
        GateView::Reject(
            "STALE_WORKFLOW_VERSION"@,
            "Expected workflow version "@ + decimal(q.expected_version as nat)
                + ", but current version is "@ + decimal(i.version as nat) + "."@,
        )
    } else {
        match transition_def(i.definition, i.state, q.transition) {
            None => GateView::Reject(
                "INVALID_TRANSITION"@,
                "Transition '"@ + q.transition + "' is not valid from state '"@ + i.state + "'."@,
            ),
            Some(t) => if t.get_str("actor"@) == Some("human"@) && !q.principal.human() {
                GateView::Reject(
                    "ACTOR_MISMATCH"@,
                    "Transition '"@ + q.transition
                        + "' requires a human principal; submitter '"@ + q.principal.subject
                        + "' has no 'human' role."@,
                )
            } else if agent_await(i.context, q.transition) is Some && !q.principal.human() {
                GateView::Reject(
                    "AWAIT_RESUME_NOT_HUMAN"@,
                    "Transition '"@ + q.transition
                        + "' is parked on an agent `await_human` gate; only a human principal may resume it (submitter '"@
                        + q.principal.subject
                        + "' has no 'human' role). Resume via `praxec approvals` / a human-authenticated submit carrying `arguments.reply`."@,
                )
            } else {
                match t.get_u64("max_fires_per_visit"@) {
                    None => GateView::Pass(t),
                    Some(max) => match counted(i.context, fire_slot(i.state, q.transition)) {
                        None => GateView::Broken(counter_fault(fire_slot(i.state, q.transition))),
                        Some(n) => if n >= max {
                            GateView::Reject(
                                "TRANSITION_FIRE_CAP_EXCEEDED"@,
                                "Transition '"@ + q.transition + "' has fired "@ + decimal(n as nat)
                                    + " times in state '"@ + i.state + "' (max_fires_per_visit = "@
                                    + decimal(max as nat)
                                    + "). Cap is per-state-entry and resets when the workflow advances. Either raise the cap, or have the workflow advance to a different state before re-firing."@,
                            )
                        } else {
                            GateView::Pass(t)
                        },
                    },
                }
            },
        }
    }
}

enum Gate<'a> {
    Reject(&'static str, String),
    Broken(String),
    Pass(&'a Json),
}

impl<'a> Gate<'a> {
    spec fn view(&self) -> GateView {
        match self {
            Gate::Reject(c, m) => GateView::Reject(c@, m@),
            Gate::Broken(m) => GateView::Broken(m@),
            Gate::Pass(t) => GateView::Pass(t@),
        }
    }
}

fn check_gate<'a>(q: &SubmitTransition, i: &'a WorkflowInstance) -> (r: Gate<'a>)
    ensures
        r@ == gate(q@, i@),
{
    if i.version != q.expected_version {
        let mut m = "Expected workflow version ".to_owned();
        m.append(decimal_text(q.expected_version).as_str());
        m.append(", but current version is ");
        m.append(decimal_text(i.version).as_str());
        m.append(".");
        return Gate::Reject("STALE_WORKFLOW_VERSION", m);
    }
    let t = match transition_definition(&i.definition, i.state.as_str(), q.transition.as_str()) {
        Some(t) => t,
        None => {
            let mut m = "Transition '".to_owned();
            m.append(q.transition.as_str());
            m.append("' is not valid from state '");
            m.append(i.state.as_str());
            m.append("'.");
            return Gate::Reject("INVALID_TRANSITION", m);
        },
    };
    let human = q.principal.is_human();
    let for_human = match t.get_str("actor") {
        Some(a) => same(a, "human"),
        None => false,
    };
    if for_human && !human {
        let mut m = "Transition '".to_owned();
        m.append(q.transition.as_str());
        m.append("' requires a human principal; submitter '");
        m.append(q.principal.subject.as_str());
        m.append("' has no 'human' role.");
        return Gate::Reject("ACTOR_MISMATCH", m);
    }
    if agent_await_for(&i.context, q.transition.as_str()).is_some() && !human {
        let mut m = "Transition '".to_owned();
        m.append(q.transition.as_str());
        m.append(
            "' is parked on an agent `await_human` gate; only a human principal may resume it (submitter '",
        );
        m.append(q.principal.subject.as_str());
        m.append(
            "' has no 'human' role). Resume via `praxec approvals` / a human-authenticated submit carrying `arguments.reply`.",
        );
        return Gate::Reject("AWAIT_RESUME_NOT_HUMAN", m);
    }
    if let Some(max) = t.get_u64("max_fires_per_visit") {
        let key = fire_key(i.state.as_str(), q.transition.as_str());
        match read_counter_slot(&i.context, key.as_str()) {
            Err(m) => {
                return Gate::Broken(m);
            },
            Ok(n) => if n >= max {
                let mut m = "Transition '".to_owned();
                m.append(q.transition.as_str());
                m.append("' has fired ");
                m.append(decimal_text(n).as_str());
                m.append(" times in state '");
                m.append(i.state.as_str());
                m.append("' (max_fires_per_visit = ");
                m.append(decimal_text(max).as_str());
                m.append(
                    "). Cap is per-state-entry and resets when the workflow advances. Either raise the cap, or have the workflow advance to a different state before re-firing.",
                );
                return Gate::Reject("TRANSITION_FIRE_CAP_EXCEEDED", m);
            },
        }
    }
    Gate::Pass(t)
}

/// An entry that has to be written, or one that need not; what follows comes after it.
pub open spec fn noted(event: AuditView, mode: AuditMode) -> DispatchView {
    DispatchView::Do(EffectView::Audit { event, mode })
}

/// The entry of a lock event on files.
pub open spec fn files_entry(event: Seq<char>, id: Seq<char>, files: Seq<Seq<char>>) -> AuditView {
    entry(
        event,
        id,
        None,
        None,
        obj().with("files"@, JsonView::Array(file_list(files))).m,
    )
}

fn note_files(event: &str, id: &str, files: &Vec<String>) -> (r: DispatchStep)
    ensures
        r@ == noted(files_entry(event@, id@, texts(files@)), AuditMode::Ignored),
{
    broadcast use crate::json::array_view;

    let payload = JsonMap::new().with("files", Json::Array(files_as_strings(files)));
    DispatchStep::Do(
        Effect::Audit {
            event: audit_entry(event, id, None, None, payload),
            mode: AuditMode::Ignored,
        },
    )
}

/// Files with their holders, as a wait lists them.
pub open spec fn blockers(conflicts: Seq<(Seq<char>, Seq<char>)>) -> Seq<JsonView> {
    conflicts.map_values(
        |c: (Seq<char>, Seq<char>)|
            obj().with("file"@, JsonView::Str(c.0)).with("holder"@, JsonView::Str(c.1)).json(),
    )
}

fn list_blockers(conflicts: &Vec<(String, String)>) -> (r: Vec<Json>)
    ensures
        views(r@) == blockers(conflict_views(conflicts@)),
{
    let mut out: Vec<Json> = Vec::new();
    let mut i: usize = 0;
    while i < conflicts.len()
        invariant
            i <= conflicts@.len(),
            i == out@.len(),
            forall|k: int|
                0 <= k < i ==> (#[trigger] out@[k])@ == obj().with("file"@, JsonView::Str(conflicts@[k].0@)).with("holder"@, JsonView::Str(conflicts@[k].1@)).json(),
        decreases conflicts@.len() - i,
    {
        let m = JsonMap::new().with("file", Json::text(conflicts[i].0.as_str())).with(
            "holder",
            Json::text(conflicts[i].1.as_str()),
        );
        out.push(Json::Object(m));
        i = i + 1;
    }
    assert(views(out@) =~= blockers(conflict_views(conflicts@)));
    out
}

/// The wait for files.
pub open spec fn lock_wait(
    files: Seq<Seq<char>>,
    conflicts: Seq<(Seq<char>, Seq<char>)>,
    transition: Seq<char>,
) -> JsonView {
    obj().with("files"@, JsonView::Array(file_list(files))).with("blockedBy"@, JsonView::Array(blockers(conflicts))).with("transition"@, JsonView::Str(transition)).json()
}

/// An instance that carries a wait, one version on.
pub open spec fn parked(i: InstanceView, key: Seq<char>, wait: JsonView) -> InstanceView {
    InstanceView {
        context: marked(i.context, key, wait),
        version: (i.version + 1) as u64,
        ..i
    }
}

fn park(i: &WorkflowInstance, key: &str, wait: Json) -> (r: WorkflowInstance)
    requires
        i.version < u64::MAX,
    ensures
        r@ == parked(i@, key@, wait@),
{
    let mut next = i.clone();
    let mut context = Json::Null;
    std::mem::swap(&mut context, &mut next.context);
    next.context = mark(context, key, wait);
    next.version = i.version + 1;
    next
}

/// Parks an instance that waits for files: the wait is stored, the line is joined, and
/// nothing is executed.
pub open spec fn suspend_on_lock(
    who: ActingView,
    scheduler: bool,
    base: InstanceView,
    transition: Seq<char>,
    expected: u64,
    files: Seq<Seq<char>>,
    conflicts: Seq<(Seq<char>, Seq<char>)>,
    r: Seq<ReplyView>,
) -> DispatchView {
    match first(r) {
        None => DispatchView::Do(
            EffectView::Save {
                instance: parked(base, "_lock_wait"@, lock_wait(files, conflicts, transition)),
                expected_version: expected,
            },
        ),
        Some(ReplyView::Instance(Err(e))) => DispatchView::Done(Err(e)),
        Some(ReplyView::Instance(Ok(saved))) => lock_line(
            who,
            scheduler,
            base,
            saved,
            transition,
            files,
            r.drop_first(),
        ),
        _ => DispatchView::Misfit,
    }
}

/// After the wait for files is stored.
pub open spec fn lock_line(
    who: ActingView,
    scheduler: bool,
    base: InstanceView,
    saved: InstanceView,
    transition: Seq<char>,
    files: Seq<Seq<char>>,
    r: Seq<ReplyView>,
) -> DispatchView {
    if scheduler {
        match first(r) {
            None => DispatchView::Do(
                EffectView::Enqueue {
                    principal: who.principal,
                    workflow_id: saved.id,
                    transition,
                    files,
                },
            ),
            Some(ReplyView::Done(_)) => lock_noted(who, base, saved, files, r.drop_first()),
            _ => DispatchView::Misfit,
        }
    } else {
        lock_noted(who, base, saved, files, r)
    }
}

/// The entry and the response of a wait for files.
pub open spec fn lock_noted(
    who: ActingView,
    base: InstanceView,
    saved: InstanceView,
    files: Seq<Seq<char>>,
    r: Seq<ReplyView>,
) -> DispatchView {
    match first(r) {
        None => noted(files_entry("lock.wait.suspended"@, base.id, files), AuditMode::Ignored),
        Some(ReplyView::Done(_)) => respond(
            who,
            saved,
            StatusHint::WaitingOnLock,
            None,
            r.drop_first(),
        ),
        _ => DispatchView::Misfit,
    }
}

fn do_lock_noted(
    who: &Acting,
    base: &WorkflowInstance,
    saved: &WorkflowInstance,
    files: &Vec<String>,
    replies: &Vec<Reply>,
    at: usize,
) -> (r: DispatchStep)
    requires
        at <= replies@.len(),
        sound(replies@),
    ensures
        r@ == lock_noted(who@, base@, saved@, texts(files@), rest(replies@, at as int)),
{
    match reply_at(replies, at) {
        None => note_files("lock.wait.suspended", base.id.as_str(), files),
        Some(Reply::Done(_)) => do_respond(who, saved, StatusHint::WaitingOnLock, None, replies, at + 1),
        Some(_) => DispatchStep::Misfit,
    }
}

pub(crate) fn do_suspend_on_lock(
    who: &Acting,
    scheduler: bool,
    base: &WorkflowInstance,
    transition: &str,
    expected: u64,
    files: &Vec<String>,
    conflicts: &Vec<(String, String)>,
    replies: &Vec<Reply>,
    at: usize,
) -> (r: DispatchStep)
    requires
        at <= replies@.len(),
        sound(replies@),
        base.version < u64::MAX,
    ensures
        r@ == suspend_on_lock(
            who@,
            scheduler,
            base@,
            transition@,
            expected,
            texts(files@),
            conflict_views(conflicts@),
            rest(replies@, at as int),
        ),
{
    broadcast use crate::json::array_view;

    match reply_at(replies, at) {
        None => {
            let wait = JsonMap::new().with("files", Json::Array(files_as_strings(files))).with(
                "blockedBy",
                Json::Array(list_blockers(conflicts)),
            ).with("transition", Json::text(transition));
            DispatchStep::Do(
                Effect::Save {
                    instance: park(base, "_lock_wait", Json::Object(wait)),
                    expected_version: expected,
                },
            )
        },
        Some(Reply::Instance(Err(e))) => DispatchStep::Done(Err(e.clone())),
        Some(Reply::Instance(Ok(saved))) => if scheduler {
            match reply_at(replies, at + 1) {
                None => DispatchStep::Do(
                    Effect::Enqueue {
                        principal: who.principal.clone(),
                        workflow_id: saved.id.clone(),
                        transition: transition.to_owned(),
                        files: copy_strings(files),
                    },
                ),
                Some(Reply::Done(_)) => do_lock_noted(who, base, saved, files, replies, at + 2),
                Some(_) => DispatchStep::Misfit,
            }
        } else {
            do_lock_noted(who, base, saved, files, replies, at + 1)
        },
        Some(_) => DispatchStep::Misfit,
    }
}

/// The key of a wait.
pub open spec fn wait_key(s: SuspendView) -> Seq<char> {
    match s {
        SuspendView::Subworkflow { .. } => "_subworkflow_wait"@,
        SuspendView::AgentAwait { .. } => "_agent_await"@,
    }
}

/// The wait that an executor asked for.
pub open spec fn step_wait(s: SuspendView, transition: Seq<char>) -> JsonView {
    match s {
        SuspendView::Subworkflow { child_workflow_id } => obj().with("child_workflow_id"@, JsonView::Str(child_workflow_id)).with("transition"@, JsonView::Str(transition)).json(),
        SuspendView::AgentAwait { correlation_id, prompt } => obj().with("correlation_id"@, JsonView::Str(correlation_id)).with("prompt"@, JsonView::Str(prompt)).with("transition"@, JsonView::Str(transition)).json(),
    }
}

/// The entry of such a wait.
pub open spec fn suspended_entry(id: Seq<char>, s: SuspendView, transition: Seq<char>) -> AuditView {
    match s {
        SuspendView::Subworkflow { child_workflow_id } => entry(
            "sub_workflow.wait.suspended"@,
            id,
            None,
            None,
            obj().with("child_workflow_id"@, JsonView::Str(child_workflow_id)).m,
        ),
        SuspendView::AgentAwait { correlation_id, prompt } => entry(
            "agent.await.suspended"@,
            id,
            None,
            None,
            obj().with("correlation_id"@, JsonView::Str(correlation_id)).with("prompt"@, JsonView::Str(prompt)).with("transition"@, JsonView::Str(transition)).m,
        ),
    }
}

/// What the status of the response depends on.
pub open spec fn wait_hint(s: SuspendView) -> StatusHint {
    match s {
        SuspendView::Subworkflow { .. } => StatusHint::WaitingOnSubworkflow,
        SuspendView::AgentAwait { .. } => StatusHint::WaitingOnAgentAwait,
    }
}

/// The response of a wait: one for a person carries the question.
pub open spec fn with_await(response: Members, s: SuspendView, transition: Seq<char>) -> Members {
    match s {
        SuspendView::Subworkflow { .. } => response,
        SuspendView::AgentAwait { correlation_id, prompt } => put(
            response,
            "await"@,
            obj().with("source"@, JsonView::Str("agent_await"@)).with("correlationId"@, JsonView::Str(correlation_id)).with("prompt"@, JsonView::Str(prompt)).with("transition"@, JsonView::Str(transition)).json(),
        ),
    }
}

/// Parks an instance whose executor waits: the wait is stored before anything is said
/// about it, and the transition does not go on.
pub open spec fn suspend_on_step(
    who: ActingView,
    base: InstanceView,
    transition: Seq<char>,
    expected: u64,
    s: SuspendView,
    r: Seq<ReplyView>,
) -> DispatchView {
    match first(r) {
        None => DispatchView::Do(
            EffectView::Save {
                instance: parked(base, wait_key(s), step_wait(s, transition)),
                expected_version: expected,
            },
        ),
        Some(ReplyView::Instance(Err(e))) => DispatchView::Done(Err(e)),
        Some(ReplyView::Instance(Ok(saved))) => step_noted(
            who,
            base,
            saved,
            transition,
            s,
            r.drop_first(),
        ),
        _ => DispatchView::Misfit,
    }
}

/// The entry and the response of such a wait.
pub open spec fn step_noted(
    who: ActingView,
    base: InstanceView,
    saved: InstanceView,
    transition: Seq<char>,
    s: SuspendView,
    r: Seq<ReplyView>,
) -> DispatchView {
    match first(r) {
        None => noted(suspended_entry(base.id, s, transition), AuditMode::Ignored),
        Some(ReplyView::Done(_)) => match first(r.drop_first()) {
            None => DispatchView::Do(
                EffectView::Respond {
                    instance: saved,
                    hint: wait_hint(s),
                    error: None,
                    principal: who.principal,
                },
            ),
            Some(ReplyView::Response(m)) => ended(with_await(m, s, transition)),
            _ => DispatchView::Misfit,
        },
        _ => DispatchView::Misfit,
    }
}

fn make_wait(s: &StepSuspend, transition: &str) -> (r: (&'static str, JsonMap))
    ensures
        r.0@ == wait_key(s@),
        JsonView::Object(r.1@) == step_wait(s@, transition@),
{
    match s {
        StepSuspend::Subworkflow { child_workflow_id } => (
            "_subworkflow_wait",
            JsonMap::new().with("child_workflow_id", Json::text(child_workflow_id.as_str())).with(
                "transition",
                Json::text(transition),
            ),
        ),
        StepSuspend::AgentAwait { correlation_id, prompt } => (
            "_agent_await",
            JsonMap::new().with("correlation_id", Json::text(correlation_id.as_str())).with(
                "prompt",
                Json::text(prompt.as_str()),
            ).with("transition", Json::text(transition)),
        ),
    }
}

fn note_suspended(id: &str, s: &StepSuspend, transition: &str) -> (r: DispatchStep)
    ensures
        r@ == noted(suspended_entry(id@, s@, transition@), AuditMode::Ignored),
{
    let event = match s {
        StepSuspend::Subworkflow { child_workflow_id } => audit_entry(
            "sub_workflow.wait.suspended",
            id,
            None,
            None,
            JsonMap::new().with("child_workflow_id", Json::text(child_workflow_id.as_str())),
        ),
        StepSuspend::AgentAwait { correlation_id, prompt } => audit_entry(
            "agent.await.suspended",
            id,
            None,
            None,
            JsonMap::new().with("correlation_id", Json::text(correlation_id.as_str())).with(
                "prompt",
                Json::text(prompt.as_str()),
            ).with("transition", Json::text(transition)),
        ),
    };
    DispatchStep::Do(Effect::Audit { event, mode: AuditMode::Ignored })
}

fn hint_of(s: &StepSuspend) -> (r: StatusHint)
    ensures
        r == wait_hint(s@),
{
    match s {
        StepSuspend::Subworkflow { .. } => StatusHint::WaitingOnSubworkflow,
        StepSuspend::AgentAwait { .. } => StatusHint::WaitingOnAgentAwait,
    }
}

fn add_await(response: JsonMap, s: &StepSuspend, transition: &str) -> (r: JsonMap)
    ensures
        r@ == with_await(response@, s@, transition@),
{
    match s {
        StepSuspend::Subworkflow { .. } => response,
        StepSuspend::AgentAwait { correlation_id, prompt } => response.with(
            "await",
            Json::Object(
                JsonMap::new().with("source", Json::text("agent_await")).with(
                    "correlationId",
                    Json::text(correlation_id.as_str()),
                ).with("prompt", Json::text(prompt.as_str())).with(
                    "transition",
                    Json::text(transition),
                ),
            ),
        ),
    }
}

pub(crate) fn do_suspend_on_step(
    who: &Acting,
    base: &WorkflowInstance,
    transition: &str,
    expected: u64,
    s: &StepSuspend,
    replies: &Vec<Reply>,
    at: usize,
) -> (r: DispatchStep)
    requires
        at <= replies@.len(),
        sound(replies@),
        base.version < u64::MAX,
    ensures
        r@ == suspend_on_step(who@, base@, transition@, expected, s@, rest(replies@, at as int)),
{
    match reply_at(replies, at) {
        None => {
            let (key, wait) = make_wait(s, transition);
            DispatchStep::Do(
                Effect::Save {
                    instance: park(base, key, Json::Object(wait)),
                    expected_version: expected,
                },
            )
        },
        Some(Reply::Instance(Err(e))) => DispatchStep::Done(Err(e.clone())),
        Some(Reply::Instance(Ok(saved))) => match reply_at(replies, at + 1) {
            None => note_suspended(base.id.as_str(), s, transition),
            Some(Reply::Done(_)) => match reply_at(replies, at + 2) {
                None => DispatchStep::Do(
                    Effect::Respond {
                        instance: saved.clone(),
                        hint: hint_of(s),
                        error: None,
                        principal: who.principal.clone(),
                    },
                ),
                Some(Reply::Response(m)) => DispatchStep::Done(
                    Ok(
                        DispatchOutcome {
                            response: add_await(m.clone(), s, transition),
                            next_transition: None,
                        },
                    ),
                ),
                Some(_) => DispatchStep::Misfit,
            },
            Some(_) => DispatchStep::Misfit,
        },
        Some(_) => DispatchStep::Misfit,
    }
}

/// A transition that passed its checks.
pub struct Fired {
    pub instance: WorkflowInstance,
    pub transition_def: Json,
    pub arguments: Json,
    pub guards: Vec<Json>,
}

/// The model of a transition that passed its checks.
pub struct FiredView {
    pub instance: InstanceView,
    pub transition_def: JsonView,
    pub arguments: JsonView,
    pub guards: Seq<JsonView>,
}

impl Fired {
    pub open spec fn view(&self) -> FiredView {
        FiredView {
            instance: self.instance@,
            transition_def: self.transition_def@,
            arguments: self.arguments@,
            guards: views(self.guards@),
        }
    }
}

/// What was done for a transition, ready to be committed.
pub struct Work {
    pub context: Json,
    pub evidence: Vec<Evidence>,
    pub child_workflow_id: Option<String>,
    pub executor: Option<(bool, u64)>,
    pub next_transition: Option<NextTransition>,
}

/// The model of what was done.
pub struct WorkView {
    pub context: JsonView,
    pub evidence: Seq<EvidenceView>,
    pub child_workflow_id: Option<Seq<char>>,
    pub executor: Option<(bool, u64)>,
    pub next_transition: Option<NextView>,
}

impl Work {
    pub open spec fn view(&self) -> WorkView {
        WorkView {
            context: self.context@,
            evidence: evidence_views(self.evidence@),
            child_workflow_id: opt_string(self.child_workflow_id),
            executor: self.executor,
            next_transition: opt_next(self.next_transition),
        }
    }
}

/// One hop of a chain in a response.
pub open spec fn hop_json(h: HopView) -> JsonView {
    obj().with("fromState"@, JsonView::Str(h.from_state)).with(
        "transition"@,
        JsonView::Str(h.transition),
    ).with("toState"@, JsonView::Str(h.to_state)).with("version"@, number(h.version)).json()
}

pub open spec fn hops_json(steps: Seq<HopView>) -> Seq<JsonView> {
    steps.map_values(|h: HopView| hop_json(h))
}

/// A response with the evidence and the hops that there are.
pub open spec fn decorated(
    response: Members,
    evidence: Seq<EvidenceView>,
    steps: Seq<HopView>,
) -> Members {
    let one = if evidence.len() > 0 {
        put(response, "evidence"@, JsonView::Array(bodies(evidence)))
    } else {
        response
    };
    if steps.len() > 0 {
        put(one, "chain"@, JsonView::Array(hops_json(steps)))
    } else {
        one
    }
}

pub fn list_hops(steps: &Vec<ChainStep>) -> (r: Vec<Json>)
    ensures
        views(r@) == hops_json(hop_views(steps@)),
{
    let mut out: Vec<Json> = Vec::new();
    let mut i: usize = 0;
    while i < steps.len()
        invariant
            i <= steps@.len(),
            i == out@.len(),
            forall|k: int| 0 <= k < i ==> (#[trigger] out@[k])@ == hop_json(steps@[k]@),
        decreases steps@.len() - i,
    {
        let h = &steps[i];
        let m = JsonMap::new().with("fromState", Json::text(h.from_state.as_str())).with(
            "transition",
            Json::text(h.transition.as_str()),
        ).with("toState", Json::text(h.to_state.as_str())).with("version", Json::uint(h.version));
        out.push(Json::Object(m));
        i = i + 1;
    }
    assert(views(out@) =~= hops_json(hop_views(steps@)));
    out
}

pub fn decorate(response: JsonMap, evidence: &Vec<Evidence>, steps: &Vec<ChainStep>) -> (r: JsonMap)
    ensures
        r@ == decorated(response@, evidence_views(evidence@), hop_views(steps@)),
{
    broadcast use crate::json::array_view;

    assert(evidence_views(evidence@).len() == evidence@.len());
    assert(hop_views(steps@).len() == steps@.len());
    let mut out = response;
    if evidence.len() > 0 {
        out = out.with("evidence", Json::Array(evidence_bodies(evidence)));
    }
    if steps.len() > 0 {
        out = out.with("chain", Json::Array(list_hops(steps)));
    }
    out
}

/// What the response to a failed chain says.
pub open spec fn chain_error(error: Seq<char>, class: Seq<char>, failed: Seq<char>) -> JsonView {
    obj().with("code"@, JsonView::Str("CHAIN_FAILED"@)).with(
        "message"@,
        JsonView::Str(error),
    ).with("errorClass"@, JsonView::Str(class)).with(
        "attemptedTransition"@,
        JsonView::Str(failed),
    ).json()
}

pub fn make_chain_error(error: &str, class: &str, failed: &str) -> (r: Json)
    ensures
        r@ == chain_error(error@, class@, failed@),
{
    Json::Object(
        JsonMap::new().with("code", Json::text("CHAIN_FAILED")).with(
            "message",
            Json::text(error),
        ).with("errorClass", Json::text(class)).with("attemptedTransition", Json::text(failed)),
    )
}

/// The response to a failed chain, with a way back.
pub open spec fn failed_response(
    response: Members,
    definition: JsonView,
    p: ProgressView,
    evidence: Seq<EvidenceView>,
    failed: Seq<char>,
) -> Members {
    let one = with_failed_link(
        decorated(response, evidence, p.steps),
        definition,
        p.instance,
        failed,
    );
    if failed.len() == 0 {
        with_state_links(one, definition, p.instance)
    } else {
        one
    }
}

pub fn make_failed_response(
    response: JsonMap,
    definition: &Json,
    p: &ChainResult,
    evidence: &Vec<Evidence>,
    failed: &str,
) -> (r: JsonMap)
    ensures
        r@ == failed_response(
            response@,
            definition@,
            p@,
            evidence_views(evidence@),
            failed@,
        ),
{
    let mut out = decorate(response, evidence, &p.steps);
    push_failed_chain_recovery_link(&mut out, definition, &p.instance, failed);
    if failed.is_empty() {
        push_state_recovery_links(&mut out, definition, &p.instance);
    }
    out
}

/// What the response to a run that used up its hops says.
pub open spec fn quarantine_error(reason: Seq<char>, cancelled: Option<Seq<char>>) -> JsonView {
    obj().with("code"@, JsonView::Str("LIVELOCK_QUARANTINE"@)).with(
        "message"@,
        JsonView::Str(reason),
    ).with(
        "cancelled_reason"@,
        match cancelled {
            Some(c) => JsonView::Str(c),
            None => JsonView::Null,
        },
    ).json()
}

pub fn make_quarantine_error(reason: &str, cancelled: &Option<String>) -> (r: Json)
    ensures
        r@ == quarantine_error(reason@, opt_string(*cancelled)),
{
    let c = match cancelled {
        Some(c) => Json::text(c.as_str()),
        None => Json::Null,
    };
    Json::Object(
        JsonMap::new().with("code", Json::text("LIVELOCK_QUARANTINE")).with(
            "message",
            Json::text(reason),
        ).with("cancelled_reason", c),
    )
}

/// After the chain: the run is over, or goes on later, or broke off.
pub open spec fn chain_ended(
    j: JobView,
    definition: JsonView,
    w: WorkView,
    o: OutcomeView,
    r: Seq<ReplyView>,
) -> DispatchView {
    match o {
        OutcomeView::Completed(p) => if terminal(definition, p.instance.state) {
            completed_noted(j, w, p, r)
        } else {
            completed(j.acting(), w, p, r)
        },
        OutcomeView::Failed { partial, error, error_class, failed_transition } => match first(r) {
            None => DispatchView::Do(
                EffectView::Respond {
                    principal: j.request.principal,
                    instance: partial.instance,
                    hint: StatusHint::Failed,
                    error: Some(chain_error(error, error_class, failed_transition)),
                },
            ),
            Some(ReplyView::Response(m)) => ended(
                failed_response(
                    m,
                    definition,
                    partial,
                    w.evidence + partial.evidence,
                    failed_transition,
                ),
            ),
            _ => DispatchView::Misfit,
        },
        OutcomeView::Suspended { partial, suspend, transition } => suspend_on_step(
            j.acting(),
            partial.instance,
            transition,
            partial.instance.version,
            suspend,
            r,
        ),
        OutcomeView::WaitingOnLock { partial, transition, files, conflicts } => suspend_on_lock(
            j.acting(),
            j.wiring.scheduler,
            partial.instance,
            transition,
            partial.instance.version,
            files,
            conflicts,
            r,
        ),
        OutcomeView::Quarantined { partial, reason } => quarantined(j.acting(), partial, reason, r),
    }
}

/// The response to a chain that came to its end.
pub open spec fn completed(who: ActingView, w: WorkView, p: ProgressView, r: Seq<ReplyView>) -> DispatchView {
    match first(r) {
        None => DispatchView::Do(
            EffectView::Respond {
                principal: who.principal,
                instance: p.instance,
                hint: StatusHint::Executed,
                error: None,
            },
        ),
        Some(ReplyView::Response(m)) => DispatchView::Done(
            Ok((decorated(m, w.evidence + p.evidence, p.steps), w.next_transition)),
        ),
        _ => DispatchView::Misfit,
    }
}

/// The entry of an instance that came to an end.
pub open spec fn completed_entry(cor: Seq<char>, i: InstanceView) -> AuditView {
    entry(
        "workflow.completed"@,
        i.id,
        None,
        Some(cor),
        obj().with("state"@, JsonView::Str(i.state)).m,
    )
}

pub fn make_completed_entry(cor: &str, i: &WorkflowInstance) -> (r: AuditEvent)
    ensures
        r@ == completed_entry(cor@, i@),
{
    audit_entry(
        "workflow.completed",
        i.id.as_str(),
        None,
        Some(cor),
        JsonMap::new().with("state", Json::text(i.state.as_str())),
    )
}

/// An instance that came to an end: its entry, its outcome, and the one that waits for it.
pub open spec fn completed_noted(
    j: JobView,
    w: WorkView,
    p: ProgressView,
    r: Seq<ReplyView>,
) -> DispatchView {
    match first(r) {
        None => noted(completed_entry(j.correlation_id, p.instance), AuditMode::Required),
        Some(ReplyView::Done(Err(e))) => broken(e),
        Some(ReplyView::Done(Ok(_))) => match first(r.drop_first()) {
            None => DispatchView::Do(
                EffectView::EmitOutcome {
                    acting: j.acting(),
                    hint: StatusHint::Executed,
                    instance: p.instance,
                },
            ),
            Some(ReplyView::Done(_)) => match first(r.drop_first().drop_first()) {
                None => DispatchView::Do(EffectView::ResumeParent { instance: p.instance }),
                Some(ReplyView::Done(_)) => completed(
                    j.acting(),
                    w,
                    p,
                    r.drop_first().drop_first().drop_first(),
                ),
                _ => DispatchView::Misfit,
            },
            _ => DispatchView::Misfit,
        },
        _ => DispatchView::Misfit,
    }
}

/// A run that used up its hops: it is cancelled, and the response says so.
pub open spec fn quarantined(who: ActingView, p: ProgressView, reason: Seq<char>, r: Seq<ReplyView>) -> DispatchView {
    match first(r) {
        None => DispatchView::Do(EffectView::Cancel { workflow_id: p.instance.id, reason }),
        Some(ReplyView::Done(Err(e))) => broken(e),
        Some(ReplyView::Done(Ok(_))) => match first(r.drop_first()) {
            None => DispatchView::Do(EffectView::Load { workflow_id: p.instance.id }),
            Some(ReplyView::Instance(Err(e))) => DispatchView::Done(Err(e)),
            Some(ReplyView::Instance(Ok(i))) => match first(r.drop_first().drop_first()) {
                None => DispatchView::Do(
                    EffectView::Respond {
                        principal: who.principal,
                        instance: i,
                        hint: StatusHint::Cancelled,
                        error: Some(quarantine_error(reason, i.cancelled_reason)),
                    },
                ),
                Some(ReplyView::Response(m)) => ended(decorated(m, Seq::empty(), p.steps)),
                _ => DispatchView::Misfit,
            },
            _ => DispatchView::Misfit,
        },
        _ => DispatchView::Misfit,
    }
}

fn do_completed(who: &Acting, w: &Work, p: &ChainResult, replies: &Vec<Reply>, at: usize) -> (r: DispatchStep)
    requires
        at <= replies@.len(),
        sound(replies@),
    ensures
        r@ == completed(who@, w@, p@, rest(replies@, at as int)),
{
    match reply_at(replies, at) {
        None => DispatchStep::Do(
            Effect::Respond {
                principal: who.principal.clone(),
                instance: p.instance.clone(),
                hint: StatusHint::Executed,
                error: None,
            },
        ),
        Some(Reply::Response(m)) => {
            let all = join_evidence(&w.evidence, &p.evidence);
            DispatchStep::Done(
                Ok(
                    DispatchOutcome {
                        response: decorate(m.clone(), &all, &p.steps),
                        next_transition: copy_next(&w.next_transition),
                    },
                ),
            )
        },
        Some(_) => DispatchStep::Misfit,
    }
}

fn do_completed_noted(
    j: &Job,
    w: &Work,
    p: &ChainResult,
    replies: &Vec<Reply>,
    at: usize,
) -> (r: DispatchStep)
    requires
        at <= replies@.len(),
        sound(replies@),
    ensures
        r@ == completed_noted(j@, w@, p@, rest(replies@, at as int)),
{
    match reply_at(replies, at) {
        None => DispatchStep::Do(
            Effect::Audit {
                event: make_completed_entry(j.correlation_id.as_str(), &p.instance),
                mode: AuditMode::Required,
            },
        ),
        Some(Reply::Done(Err(e))) => broke(e.as_str()),
        Some(Reply::Done(Ok(_))) => match reply_at(replies, at + 1) {
            None => DispatchStep::Do(
                Effect::EmitOutcome {
                    acting: j.acting(),
                    hint: StatusHint::Executed,
                    instance: p.instance.clone(),
                },
            ),
            Some(Reply::Done(_)) => match reply_at(replies, at + 2) {
                None => DispatchStep::Do(Effect::ResumeParent { instance: p.instance.clone() }),
                Some(Reply::Done(_)) => do_completed(&j.acting(), w, p, replies, at + 3),
                Some(_) => DispatchStep::Misfit,
            },
            Some(_) => DispatchStep::Misfit,
        },
        Some(_) => DispatchStep::Misfit,
    }
}

pub(crate) fn do_quarantined(who: &Acting, p: &ChainResult, reason: &str, replies: &Vec<Reply>, at: usize) -> (r: DispatchStep)
    requires
        at <= replies@.len(),
        sound(replies@),
    ensures
        r@ == quarantined(who@, p@, reason@, rest(replies@, at as int)),
{
    match reply_at(replies, at) {
        None => DispatchStep::Do(
            Effect::Cancel { workflow_id: p.instance.id.clone(), reason: reason.to_owned() },
        ),
        Some(Reply::Done(Err(e))) => broke(e.as_str()),
        Some(Reply::Done(Ok(_))) => match reply_at(replies, at + 1) {
            None => DispatchStep::Do(Effect::Load { workflow_id: p.instance.id.clone() }),
            Some(Reply::Instance(Err(e))) => DispatchStep::Done(Err(e.clone())),
            Some(Reply::Instance(Ok(i))) => match reply_at(replies, at + 2) {
                None => DispatchStep::Do(
                    Effect::Respond {
                        principal: who.principal.clone(),
                        instance: i.clone(),
                        hint: StatusHint::Cancelled,
                        error: Some(make_quarantine_error(reason, &i.cancelled_reason)),
                    },
                ),
                Some(Reply::Response(m)) => {
                    let none: Vec<Evidence> = Vec::new();
                    assert(evidence_views(none@) =~= Seq::empty());
                    DispatchStep::Done(
                        Ok(
                            DispatchOutcome {
                                response: decorate(m.clone(), &none, &p.steps),
                                next_transition: None,
                            },
                        ),
                    )
                },
                Some(_) => DispatchStep::Misfit,
            },
            Some(_) => DispatchStep::Misfit,
        },
        Some(_) => DispatchStep::Misfit,
    }
}

fn do_chain_ended(
    j: &Job,
    definition: &Json,
    w: &Work,
    o: &ChainOutcome,
    replies: &Vec<Reply>,
    at: usize,
) -> (r: DispatchStep)
    requires
        at <= replies@.len(),
        sound(replies@),
        crate::runtime::script::can_grow(crate::runtime::script::chain_end(o@)),
    ensures
        r@ == chain_ended(j@, definition@, w@, o@, rest(replies@, at as int)),
{
    match o {
        ChainOutcome::Completed(p) => if is_terminal(definition, p.instance.state.as_str()) {
            do_completed_noted(j, w, p, replies, at)
        } else {
            do_completed(&j.acting(), w, p, replies, at)
        },
        ChainOutcome::Failed { partial, error, error_class, failed_transition } => {
            match reply_at(replies, at) {
                None => DispatchStep::Do(
                    Effect::Respond {
                        principal: j.request.principal.clone(),
                        instance: partial.instance.clone(),
                        hint: StatusHint::Failed,
                        error: Some(
                            make_chain_error(
                                error.as_str(),
                                error_class.as_str(),
                                failed_transition.as_str(),
                            ),
                        ),
                    },
                ),
                Some(Reply::Response(m)) => {
                    let all = join_evidence(&w.evidence, &partial.evidence);
                    DispatchStep::Done(
                        Ok(
                            DispatchOutcome {
                                response: make_failed_response(
                                    m.clone(),
                                    definition,
                                    partial,
                                    &all,
                                    failed_transition.as_str(),
                                ),
                                next_transition: None,
                            },
                        ),
                    )
                },
                Some(_) => DispatchStep::Misfit,
            }
        },
        ChainOutcome::Suspended { partial, suspend, transition } => do_suspend_on_step(
            &j.acting(),
            &partial.instance,
            transition.as_str(),
            partial.instance.version,
            suspend,
            replies,
            at,
        ),
        ChainOutcome::WaitingOnLock { partial, transition, files, conflicts } => do_suspend_on_lock(
            &j.acting(),
            j.wiring.scheduler,
            &partial.instance,
            transition.as_str(),
            partial.instance.version,
            files,
            conflicts,
            replies,
            at,
        ),
        ChainOutcome::Quarantined { partial, reason } => do_quarantined(
            &j.acting(),
            partial,
            reason.as_str(),
            replies,
            at,
        ),
    }
}

/// The bound on the hops of a chain.
pub open spec fn chain_bound(definition: JsonView) -> u64 {
    match definition.get_u64("maxChainDepth"@) {
        Some(n) => n,
        None => 50,
    }
}

pub fn max_chain_depth(definition: &Json) -> (r: u64)
    ensures
        r == chain_bound(definition@),
{
    match definition.get_u64("maxChainDepth") {
        Some(n) => n,
        None => 50,
    }
}

/// The entry of an instance that moved on.
pub open spec fn transitioned_entry(j: JobView, i: InstanceView) -> AuditView {
    entry(
        "workflow.transitioned"@,
        i.id,
        Some(j.request.principal.subject),
        Some(j.correlation_id),
        obj().with("transition"@, JsonView::Str(j.request.transition)).with(
            "state"@,
            JsonView::Str(i.state),
        ).with("version"@, number(i.version)).m,
    )
}

fn note_transitioned(j: &Job, i: &WorkflowInstance) -> (r: DispatchStep)
    ensures
        r@ == noted(transitioned_entry(j@, i@), AuditMode::Required),
{
    let payload = JsonMap::new().with("transition", Json::text(j.request.transition.as_str())).with(
        "state",
        Json::text(i.state.as_str()),
    ).with("version", Json::uint(i.version));
    DispatchStep::Do(
        Effect::Audit {
            event: audit_entry(
                "workflow.transitioned",
                i.id.as_str(),
                Some(j.request.principal.subject.as_str()),
                Some(j.correlation_id.as_str()),
                payload,
            ),
            mode: AuditMode::Required,
        },
    )
}

/// After the new state was entered: the entry, then the chain from there.
pub open spec fn entered(
    j: JobView,
    definition: JsonView,
    w: WorkView,
    i: InstanceView,
    r: Seq<ReplyView>,
) -> DispatchView {
    match first(r) {
        None => noted(transitioned_entry(j, i), AuditMode::Required),
        Some(ReplyView::Done(Err(e))) => broken(e),
        Some(ReplyView::Done(Ok(_))) => match first(r.drop_first()) {
            None => DispatchView::Do(
                EffectView::Chain {
                    acting: j.acting(),
                    instance: i,
                    max_depth: chain_bound(definition),
                },
            ),
            Some(ReplyView::Chained(Err(e))) => DispatchView::Done(Err(e)),
            Some(ReplyView::Chained(Ok(o))) => chain_ended(
                j,
                definition,
                w,
                o,
                r.drop_first().drop_first(),
            ),
            _ => DispatchView::Misfit,
        },
        _ => DispatchView::Misfit,
    }
}

fn do_entered(
    j: &Job,
    definition: &Json,
    w: &Work,
    i: &WorkflowInstance,
    replies: &Vec<Reply>,
    at: usize,
) -> (r: DispatchStep)
    requires
        at <= replies@.len(),
        sound(replies@),
    ensures
        r@ == entered(j@, definition@, w@, i@, rest(replies@, at as int)),
{
    match reply_at(replies, at) {
        None => note_transitioned(j, i),
        Some(Reply::Done(Err(e))) => broke(e.as_str()),
        Some(Reply::Done(Ok(_))) => match reply_at(replies, at + 1) {
            None => DispatchStep::Do(
                Effect::Chain {
                    acting: j.acting(),
                    instance: i.clone(),
                    max_depth: max_chain_depth(definition),
                },
            ),
            Some(Reply::Chained(Err(e))) => DispatchStep::Done(Err(e.clone())),
            Some(Reply::Chained(Ok(o))) => do_chain_ended(j, definition, w, o, replies, at + 2),
            Some(_) => DispatchStep::Misfit,
        },
        Some(_) => DispatchStep::Misfit,
    }
}

/// After the instance was stored: its evidence is kept, and the new state is entered.
pub open spec fn stored(
    j: JobView,
    definition: JsonView,
    w: WorkView,
    saved: InstanceView,
    r: Seq<ReplyView>,
) -> DispatchView {
    if j.wiring.evidence {
        match first(r) {
            None => DispatchView::Do(
                EffectView::KeepEvidence { workflow_id: saved.id, evidence: w.evidence },
            ),
            Some(ReplyView::Done(_)) => entering(j, definition, w, saved, r.drop_first()),
            _ => DispatchView::Misfit,
        }
    } else {
        entering(j, definition, w, saved, r)
    }
}

/// The new state is entered.
pub open spec fn entering(
    j: JobView,
    definition: JsonView,
    w: WorkView,
    saved: InstanceView,
    r: Seq<ReplyView>,
) -> DispatchView {
    match first(r) {
        None => DispatchView::Do(
            EffectView::OnEnter {
                correlation_id: j.correlation_id,
                instance: saved,
            },
        ),
        Some(ReplyView::Instance(Err(e))) => DispatchView::Done(Err(e)),
        Some(ReplyView::Instance(Ok(i))) => entered(j, definition, w, i, r.drop_first()),
        _ => DispatchView::Misfit,
    }
}

fn do_entering(
    j: &Job,
    definition: &Json,
    w: &Work,
    saved: &WorkflowInstance,
    replies: &Vec<Reply>,
    at: usize,
) -> (r: DispatchStep)
    requires
        at <= replies@.len(),
        sound(replies@),
    ensures
        r@ == entering(j@, definition@, w@, saved@, rest(replies@, at as int)),
{
    match reply_at(replies, at) {
        None => DispatchStep::Do(
            Effect::OnEnter {
                correlation_id: j.correlation_id.clone(),
                instance: saved.clone(),
            },
        ),
        Some(Reply::Instance(Err(e))) => DispatchStep::Done(Err(e.clone())),
        Some(Reply::Instance(Ok(i))) => do_entered(j, definition, w, i, replies, at + 1),
        Some(_) => DispatchStep::Misfit,
    }
}

fn do_stored(
    j: &Job,
    definition: &Json,
    w: &Work,
    saved: &WorkflowInstance,
    replies: &Vec<Reply>,
    at: usize,
) -> (r: DispatchStep)
    requires
        at <= replies@.len(),
        sound(replies@),
    ensures
        r@ == stored(j@, definition@, w@, saved@, rest(replies@, at as int)),
{
    if j.wiring.evidence {
        match reply_at(replies, at) {
            None => DispatchStep::Do(
                Effect::KeepEvidence {
                    workflow_id: saved.id.clone(),
                    evidence: copy_evidence(&w.evidence),
                },
            ),
            Some(Reply::Done(_)) => do_entering(j, definition, w, saved, replies, at + 1),
            Some(_) => DispatchStep::Misfit,
        }
    } else {
        do_entering(j, definition, w, saved, replies, at)
    }
}

/// Who a transition's record names as its actor.
pub open spec fn actor_of(t: JsonView) -> Seq<char> {
    text_or(t.get_str("actor"@), "agent"@)
}

/// Whom a transition's record names as the principal: nobody for one that the runtime
/// fires itself.
pub open spec fn principal_of(t: JsonView, subject: Seq<char>) -> Option<Seq<char>> {
    if actor_of(t) == "deterministic"@ || actor_of(t) == "system"@ {
        None
    } else {
        Some(subject)
    }
}

/// What the record of the transition is made of.
pub open spec fn commit_record(j: JobView, f: FiredView, w: WorkView, next: InstanceView) -> RecordView {
    RecordView {
        instance: next,
        before: f.instance.context,
        from_state: f.instance.state,
        transition: j.request.transition,
        transition_def: f.transition_def,
        actor: actor_of(f.transition_def),
        principal: principal_of(f.transition_def, j.request.principal.subject),
        arguments: f.arguments,
        guards: f.guards,
        child_workflow_id: w.child_workflow_id,
        executor: w.executor,
    }
}

fn make_commit_record(j: &Job, f: &Fired, w: &Work, next: &WorkflowInstance) -> (r: RecordParams)
    ensures
        r@ == commit_record(j@, f@, w@, next@),
{
    let actor = match f.transition_def.get_str("actor") {
        Some(a) => a,
        None => "agent",
    };
    let principal = if same(actor, "deterministic") || same(actor, "system") {
        None
    } else {
        Some(j.request.principal.subject.clone())
    };
    RecordParams {
        instance: next.clone(),
        before: f.instance.context.clone(),
        from_state: f.instance.state.clone(),
        transition: j.request.transition.clone(),
        transition_def: f.transition_def.clone(),
        actor: actor.to_owned(),
        principal,
        arguments: f.arguments.clone(),
        guards: crate::runtime::effects::copy_values(&f.guards),
        child_workflow_id: copy_opt(&w.child_workflow_id),
        executor: w.executor,
    }
}

/// The record is written, and only then the instance is stored.
pub open spec fn committing(
    j: JobView,
    f: FiredView,
    w: WorkView,
    next: InstanceView,
    r: Seq<ReplyView>,
) -> DispatchView {
    match first(r) {
        None => DispatchView::Do(
            EffectView::Record {
                correlation_id: j.correlation_id,
                params: commit_record(j, f, w, next),
            },
        ),
        Some(ReplyView::Done(Err(e))) => DispatchView::Done(
            Err(
                FailureView::RecordWriteFailed {
                    workflow_id: next.id,
                    seq: next.version,
                    source: e,
                },
            ),
        ),
        Some(ReplyView::Done(Ok(_))) => match first(r.drop_first()) {
            None => DispatchView::Do(
                EffectView::Save { instance: next, expected_version: j.request.expected_version },
            ),
            Some(ReplyView::Instance(Err(e))) => DispatchView::Done(Err(e)),
            Some(ReplyView::Instance(Ok(saved))) => stored(
                j,
                f.instance.definition,
                w,
                saved,
                r.drop_first().drop_first(),
            ),
            _ => DispatchView::Misfit,
        },
        _ => DispatchView::Misfit,
    }
}

fn do_committing(
    j: &Job,
    f: &Fired,
    w: &Work,
    next: &WorkflowInstance,
    replies: &Vec<Reply>,
    at: usize,
) -> (r: DispatchStep)
    requires
        at <= replies@.len(),
        sound(replies@),
    ensures
        r@ == committing(j@, f@, w@, next@, rest(replies@, at as int)),
{
    match reply_at(replies, at) {
        None => DispatchStep::Do(
            Effect::Record {
                correlation_id: j.correlation_id.clone(),
                params: make_commit_record(j, f, w, next),
            },
        ),
        Some(Reply::Done(Err(e))) => DispatchStep::Done(
            Err(
                Failure::RecordWriteFailed {
                    workflow_id: next.id.clone(),
                    seq: next.version,
                    source: e.clone(),
                },
            ),
        ),
        Some(Reply::Done(Ok(_))) => match reply_at(replies, at + 1) {
            None => DispatchStep::Do(
                Effect::Save {
                    instance: next.clone(),
                    expected_version: j.request.expected_version,
                },
            ),
            Some(Reply::Instance(Err(e))) => DispatchStep::Done(Err(e.clone())),
            Some(Reply::Instance(Ok(saved))) => do_stored(
                j,
                &f.instance.definition,
                w,
                saved,
                replies,
                at + 2,
            ),
            Some(_) => DispatchStep::Misfit,
        },
        Some(_) => DispatchStep::Misfit,
    }
}

/// The entry of the slots that were given up with a state.
pub open spec fn cleared_entry(
    j: JobView,
    id: Seq<char>,
    state: Seq<char>,
    slots: Seq<Seq<char>>,
) -> AuditView {
    entry(
        "workflow.slot.cleared"@,
        id,
        Some(j.request.principal.subject),
        Some(j.correlation_id),
        obj().with("state"@, JsonView::Str(state)).with(
            "slots"@,
            JsonView::Array(file_list(slots)),
        ).m,
    )
}

fn note_cleared(j: &Job, id: &str, state: &str, slots: &Vec<String>) -> (r: DispatchStep)
    ensures
        r@ == noted(cleared_entry(j@, id@, state@, texts(slots@)), AuditMode::SelfEvent),
{
    broadcast use crate::json::array_view;

    let payload = JsonMap::new().with("state", Json::text(state)).with(
        "slots",
        Json::Array(files_as_strings(slots)),
    );
    DispatchStep::Do(
        Effect::Audit {
            event: audit_entry(
                "workflow.slot.cleared",
                id,
                Some(j.request.principal.subject.as_str()),
                Some(j.correlation_id.as_str()),
                payload,
            ),
            mode: AuditMode::SelfEvent,
        },
    )
}

/// The instance in its new state, one version on, without what belonged to the old one.
pub open spec fn moved(from: Seq<char>, target: Seq<char>, i: InstanceView, definition: JsonView) -> InstanceView {
    InstanceView {
        context: left_behind(definition, from, target, i.context),
        state: target,
        version: (i.version + 1) as u64,
        ..i
    }
}

/// The state is known: what belonged to the old one is given up.
pub open spec fn leaving(
    j: JobView,
    f: FiredView,
    w: WorkView,
    looped: InstanceView,
    target: Seq<char>,
    r: Seq<ReplyView>,
) -> DispatchView {
    let definition = f.instance.definition;
    let from = f.instance.state;
    let gone = given_up(definition, from, target, looped.context);
    let next = moved(from, target, looped, definition);
    if gone.len() > 0 {
        match first(r) {
            None => noted(cleared_entry(j, looped.id, from, gone), AuditMode::SelfEvent),
            Some(ReplyView::Done(_)) => committing(j, f, w, next, r.drop_first()),
            _ => DispatchView::Misfit,
        }
    } else {
        committing(j, f, w, next, r)
    }
}

fn do_leaving(
    j: &Job,
    f: &Fired,
    w: &Work,
    looped: &WorkflowInstance,
    target: &str,
    replies: &Vec<Reply>,
    at: usize,
) -> (r: DispatchStep)
    requires
        at <= replies@.len(),
        sound(replies@),
        looped.version < u64::MAX,
    ensures
        r@ == leaving(j@, f@, w@, looped@, target@, rest(replies@, at as int)),
{
    let from = f.instance.state.as_str();
    let (context, gone) = clear_state_local_slots_on_exit(
        &f.instance.definition,
        from,
        target,
        looped.context.clone(),
    );
    let mut next = looped.clone();
    next.context = context;
    next.state = target.to_owned();
    next.version = looped.version + 1;
    assert(next@ == moved(from@, target@, looped@, f.instance.definition@));
    assert(texts(gone@).len() == gone@.len());
    if gone.len() > 0 {
        match reply_at(replies, at) {
            None => note_cleared(j, looped.id.as_str(), from, &gone),
            Some(Reply::Done(_)) => do_committing(j, f, w, &next, replies, at + 1),
            Some(_) => DispatchStep::Misfit,
        }
    } else {
        do_committing(j, f, w, &next, replies, at)
    }
}

/// The context that is committed: with the summary, and with the transition counted.
pub open spec fn annotated(q: RequestView, f: FiredView, context: JsonView) -> Option<JsonView> {
    let one = match q.summary {
        Some(s) => with_member(context, "summary"@, JsonView::Str(s)),
        None => context,
    };
    let key = fire_slot(f.instance.state, q.transition);
    match f.transition_def.get_u64("max_fires_per_visit"@) {
        None => Some(one),
        Some(_) => match counted(one, key) {
            None => None,
            Some(n) => Some(
                with_member(
                    one,
                    key,
                    number(
                        if n < u64::MAX {
                            (n + 1) as u64
                        } else {
                            n
                        },
                    ),
                ),
            ),
        },
    }
}

fn annotate(q: &SubmitTransition, f: &Fired, context: Json) -> (r: Result<Json, String>)
    ensures
        match r {
            Ok(c) => annotated(q@, f@, context@) == Some(c@),
            Err(m) => annotated(q@, f@, context@) is None && m@ == counter_fault(
                fire_slot(f.instance.state@, q.transition@),
            ),
        },
{
    let one = match &q.summary {
        Some(s) => set_member(context, "summary", Json::text(s.as_str())),
        None => context,
    };
    if f.transition_def.get_u64("max_fires_per_visit").is_some() {
        let key = fire_key(f.instance.state.as_str(), q.transition.as_str());
        match read_counter_slot(&one, key.as_str()) {
            Ok(n) => {
                let more: u64 = if n < u64::MAX {
                    n + 1
                } else {
                    n
                };
                Ok(set_member(one, key.as_str(), Json::uint(more)))
            },
            Err(m) => Err(m),
        }
    } else {
        Ok(one)
    }
}

/// The work is done: the new state is chosen, and the old one is left.
pub open spec fn commit(j: JobView, f: FiredView, w: WorkView, r: Seq<ReplyView>) -> DispatchView {
    match annotated(j.request, f, w.context) {
        None => broken(counter_fault(fire_slot(f.instance.state, j.request.transition))),
        Some(context) => {
            let i = InstanceView { context, ..f.instance };
            match first(r) {
                None => DispatchView::Do(
                    EffectView::ResolveTarget {
                        acting: j.acting(),
                        transition_def: f.transition_def,
                        instance: i,
                        arguments: f.arguments,
                    },
                ),
                Some(ReplyView::Target(Err(e))) => broken(e),
                Some(ReplyView::Target(Ok(target))) => match first(r.drop_first()) {
                    None => DispatchView::Do(
                        EffectView::Loop {
                            acting: j.acting(),
                            from_state: f.instance.state,
                            instance: i,
                            arguments: f.arguments,
                        },
                    ),
                    Some(ReplyView::Looped(Err(e))) => broken(e),
                    Some(ReplyView::Looped(Ok((looped, rerouted)))) => leaving(
                        j,
                        f,
                        w,
                        looped,
                        text_or(rerouted, target),
                        r.drop_first().drop_first(),
                    ),
                    _ => DispatchView::Misfit,
                },
                _ => DispatchView::Misfit,
            }
        },
    }
}

fn do_commit(j: &Job, f: &Fired, w: &Work, replies: &Vec<Reply>, at: usize) -> (r: DispatchStep)
    requires
        at <= replies@.len(),
        sound(replies@),
    ensures
        r@ == commit(j@, f@, w@, rest(replies@, at as int)),
{
    let context = match annotate(&j.request, f, w.context.clone()) {
        Ok(c) => c,
        Err(m) => {
            return broke(m.as_str());
        },
    };
    let mut i = f.instance.clone();
    i.context = context;
    assert(i@ == (InstanceView { context: context@, ..f.instance@ }));
    match reply_at(replies, at) {
        None => DispatchStep::Do(
            Effect::ResolveTarget {
                acting: j.acting(),
                transition_def: f.transition_def.clone(),
                instance: i,
                arguments: f.arguments.clone(),
            },
        ),
        Some(Reply::Target(Err(e))) => broke(e.as_str()),
        Some(Reply::Target(Ok(target))) => match reply_at(replies, at + 1) {
            None => DispatchStep::Do(
                Effect::Loop {
                    acting: j.acting(),
                    from_state: f.instance.state.clone(),
                    instance: i,
                    arguments: f.arguments.clone(),
                },
            ),
            Some(Reply::Looped(Err(e))) => broke(e.as_str()),
            Some(Reply::Looped(Ok((looped, rerouted)))) => {
                let to = match rerouted {
                    Some(s) => s.as_str(),
                    None => target.as_str(),
                };
                do_leaving(j, f, w, looped, to, replies, at + 2)
            },
            Some(_) => DispatchStep::Misfit,
        },
        Some(_) => DispatchStep::Misfit,
    }
}

/// How a write to a typed slot that has not the declared form is worded.
pub open spec fn type_fault(slot: Seq<char>, reason: Seq<char>) -> Seq<char> {
    "output write to typed slot '"@ + slot + "': "@ + reason
}

pub fn make_type_fault(slot: &str, reason: &str) -> (r: String)
    ensures
        r@ == type_fault(slot@, reason@),
{
    let mut m = "output write to typed slot '".to_owned();
    m.append(slot);
    m.append("': ");
    m.append(reason);
    m
}

/// A transition without an executor: what it writes is merged and held against the slots'
/// schemas.
pub open spec fn plain(j: JobView, f: FiredView, r: Seq<ReplyView>) -> DispatchView {
    let output = f.transition_def.get("output"@);
    match first(r) {
        None => DispatchView::Do(
            EffectView::Merge {
                context: f.instance.context,
                output,
                arguments: f.arguments,
                input: f.instance.input,
                result: JsonView::Null,
            },
        ),
        Some(ReplyView::Merged(Err(e))) => broken(e),
        Some(ReplyView::Merged(Ok(context))) => {
            let checks = all_checks(f.instance.definition, output, context);
            match first(r.drop_first()) {
                None => DispatchView::Do(EffectView::CheckSlots { checks }),
                Some(ReplyView::Verdicts(v)) => if v.len() != checks.len() {
                    DispatchView::Misfit
                } else {
                    match slot_violation(checks, v) {
                        Some((slot, reason)) => reject(
                            j,
                            f.instance,
                            "BLACKBOARD_TYPE_ERROR"@,
                            type_fault(slot, reason),
                            r.drop_first().drop_first(),
                        ),
                        None => commit(
                            j,
                            f,
                            WorkView {
                                context,
                                evidence: Seq::empty(),
                                child_workflow_id: None,
                                executor: None,
                                next_transition: None,
                            },
                            r.drop_first().drop_first(),
                        ),
                    }
                },
                _ => DispatchView::Misfit,
            }
        },
        _ => DispatchView::Misfit,
    }
}

fn do_plain(j: &Job, f: &Fired, replies: &Vec<Reply>, at: usize) -> (r: DispatchStep)
    requires
        at <= replies@.len(),
        sound(replies@),
    ensures
        r@ == plain(j@, f@, rest(replies@, at as int)),
{
    let output = f.transition_def.get("output");
    match reply_at(replies, at) {
        None => DispatchStep::Do(
            Effect::Merge {
                context: f.instance.context.clone(),
                output: copy_json(output),
                arguments: f.arguments.clone(),
                input: f.instance.input.clone(),
                result: Json::Null,
            },
        ),
        Some(Reply::Merged(Err(e))) => broke(e.as_str()),
        Some(Reply::Merged(Ok(context))) => {
            let checks = slot_checks(&f.instance.definition, output, context);
            assert(crate::runtime::records::check_views(checks@).len() == checks@.len());
            match reply_at(replies, at + 1) {
                None => DispatchStep::Do(Effect::CheckSlots { checks }),
                Some(Reply::Verdicts(v)) => if v.len() != checks.len() {
                    DispatchStep::Misfit
                } else {
                    match validate_blackboard_writes(&checks, v) {
                        Err((slot, reason)) => do_reject(
                            j,
                            &f.instance,
                            "BLACKBOARD_TYPE_ERROR",
                            make_type_fault(slot.as_str(), reason.as_str()).as_str(),
                            replies,
                            at + 2,
                        ),
                        Ok(_) => {
                            let w = Work {
                                context: context.clone(),
                                evidence: Vec::new(),
                                child_workflow_id: None,
                                executor: None,
                                next_transition: None,
                            };
                            assert(w@.evidence =~= Seq::empty());
                            do_commit(j, f, &w, replies, at + 2)
                        },
                    }
                },
                Some(_) => DispatchStep::Misfit,
            }
        },
        Some(_) => DispatchStep::Misfit,
    }
}

/// The first piece of evidence whose confidence is out of range, and how that is worded.
pub open spec fn confidence_fault(evidence: Seq<EvidenceView>) -> Option<Seq<char>> {
    crate::scan::first_some(evidence.len(), |k: int| one_confidence_fault(evidence[k]))
}

/// How a confidence out of range is worded.
pub open spec fn one_confidence_fault(e: EvidenceView) -> Option<Seq<char>> {
    match e.fault {
        Some(bad) => Some(
            "Evidence record (kind='"@ + e.kind + "', id='"@ + e.id + "') has confidence="@ + bad
                + " outside the allowed range 0.0..=1.0 (SPEC §20.1)."@,
        ),
        None => None,
    }
}

fn check_confidence(evidence: &Vec<Evidence>) -> (r: Option<String>)
    ensures
        opt_string(r) == confidence_fault(evidence_views(evidence@)),
{
    let ghost es = evidence_views(evidence@);
    let ghost f = |k: int| one_confidence_fault(es[k]);
    let mut i: usize = 0;
    while i < evidence.len()
        invariant
            i <= evidence@.len(),
            es == evidence_views(evidence@),
            f == (|k: int| one_confidence_fault(es[k])),
            crate::scan::first_some(i as nat, f) is None,
        decreases evidence@.len() - i,
    {
        assert(es[i as int] == evidence@[i as int]@);
        if let Some(bad) = &evidence[i].fault {
            let mut m = "Evidence record (kind='".to_owned();
            m.append(evidence[i].kind.as_str());
            m.append("', id='");
            m.append(evidence[i].id.as_str());
            m.append("') has confidence=");
            m.append(bad.as_str());
            m.append(" outside the allowed range 0.0..=1.0 (SPEC §20.1).");
            proof {
                crate::scan::lemma_first_some((i + 1) as nat, es.len(), f);
            }
            return Some(m);
        }
        i = i + 1;
    }
    None
}

/// The executor produced something that is written down: the result is merged and held
/// against the slots' schemas and constraints, and its evidence against its range.
pub open spec fn produced(
    j: JobView,
    f: FiredView,
    res: ResultView,
    elapsed_ms: u64,
    r: Seq<ReplyView>,
) -> DispatchView {
    let output = f.transition_def.get("output"@);
    match first(r) {
        None => DispatchView::Do(
            EffectView::Merge {
                context: f.instance.context,
                output,
                arguments: f.arguments,
                input: f.instance.input,
                result: res.output,
            },
        ),
        Some(ReplyView::Merged(Err(e))) => broken(e),
        Some(ReplyView::Merged(Ok(merged))) => {
            let context = advanced(merged, j.request.transition);
            let checks = all_checks(f.instance.definition, output, context);
            match first(r.drop_first()) {
                None => DispatchView::Do(EffectView::CheckSlots { checks }),
                Some(ReplyView::Verdicts(v)) => if v.len() != checks.len() {
                    DispatchView::Misfit
                } else {
                    match slot_violation(checks, v) {
                        Some((slot, reason)) => reject(
                            j,
                            f.instance,
                            "BLACKBOARD_TYPE_ERROR"@,
                            type_fault(slot, reason),
                            r.drop_first().drop_first(),
                        ),
                        None => accepted(
                            j,
                            f,
                            WorkView {
                                context,
                                evidence: res.evidence,
                                child_workflow_id: res.child_workflow_id,
                                executor: Some((true, elapsed_ms)),
                                next_transition: res.next_transition,
                            },
                            r.drop_first().drop_first(),
                        ),
                    }
                },
                _ => DispatchView::Misfit,
            }
        },
        _ => DispatchView::Misfit,
    }
}

/// The result has the declared form: the constraints and the evidence are left.
pub open spec fn accepted(j: JobView, f: FiredView, w: WorkView, r: Seq<ReplyView>) -> DispatchView {
    match first_violation(f.instance.definition, f.instance.state, w.context) {
        Some(v) => reject(j, f.instance, "SLOT_CONSTRAINT_VIOLATED"@, v.message, r),
        None => match confidence_fault(w.evidence) {
            Some(m) => reject(j, f.instance, "INVALID_CONFIDENCE"@, m, r),
            None => commit(j, f, w, r),
        },
    }
}

fn do_accepted(j: &Job, f: &Fired, w: &Work, replies: &Vec<Reply>, at: usize) -> (r: DispatchStep)
    requires
        at <= replies@.len(),
        sound(replies@),
    ensures
        r@ == accepted(j@, f@, w@, rest(replies@, at as int)),
{
    match evaluate_constraints(&f.instance.definition, f.instance.state.as_str(), &w.context) {
        Err(v) => do_reject(
            j,
            &f.instance,
            "SLOT_CONSTRAINT_VIOLATED",
            v.message.as_str(),
            replies,
            at,
        ),
        Ok(_) => match check_confidence(&w.evidence) {
            Some(m) => do_reject(
                j,
                &f.instance,
                "INVALID_CONFIDENCE",
                m.as_str(),
                replies,
                at,
            ),
            None => do_commit(j, f, w, replies, at),
        },
    }
}

fn do_produced(
    j: &Job,
    f: &Fired,
    res: &ExecuteResult,
    elapsed_ms: u64,
    replies: &Vec<Reply>,
    at: usize,
) -> (r: DispatchStep)
    requires
        at <= replies@.len(),
        sound(replies@),
    ensures
        r@ == produced(j@, f@, res@, elapsed_ms, rest(replies@, at as int)),
{
    let output = f.transition_def.get("output");
    match reply_at(replies, at) {
        None => DispatchStep::Do(
            Effect::Merge {
                context: f.instance.context.clone(),
                output: copy_json(output),
                arguments: f.arguments.clone(),
                input: f.instance.input.clone(),
                result: res.output.clone(),
            },
        ),
        Some(Reply::Merged(Err(e))) => broke(e.as_str()),
        Some(Reply::Merged(Ok(merged))) => {
            let context = clear_waits(merged.clone(), j.request.transition.as_str());
            let checks = slot_checks(&f.instance.definition, output, &context);
            assert(crate::runtime::records::check_views(checks@).len() == checks@.len());
            match reply_at(replies, at + 1) {
                None => DispatchStep::Do(Effect::CheckSlots { checks }),
                Some(Reply::Verdicts(v)) => if v.len() != checks.len() {
                    DispatchStep::Misfit
                } else {
                    match validate_blackboard_writes(&checks, v) {
                        Err((slot, reason)) => do_reject(
                            j,
                            &f.instance,
                            "BLACKBOARD_TYPE_ERROR",
                            make_type_fault(slot.as_str(), reason.as_str()).as_str(),
                            replies,
                            at + 2,
                        ),
                        Ok(_) => {
                            let w = Work {
                                context,
                                evidence: copy_evidence(&res.evidence),
                                child_workflow_id: copy_opt(&res.child_workflow_id),
                                executor: Some((true, elapsed_ms)),
                                next_transition: copy_next(&res.next_transition),
                            };
                            do_accepted(j, f, &w, replies, at + 2)
                        },
                    }
                },
                Some(_) => DispatchStep::Misfit,
            }
        },
        Some(_) => DispatchStep::Misfit,
    }
}

/// The entry of a failed executor.
pub open spec fn failure_entry(
    j: JobView,
    i: InstanceView,
    err: ErrorView,
    dropped: bool,
) -> AuditView {
    entry(
        "transition.rejected"@,
        i.id,
        Some(j.request.principal.subject),
        Some(j.correlation_id),
        obj().with("transition"@, JsonView::Str(j.request.transition)).with(
            "code"@,
            JsonView::Str("EXECUTOR_FAILED"@),
        ).with("errorClass"@, JsonView::Str(err.class)).with(
            "message"@,
            JsonView::Str(err.message),
        ).with("persistenceDropped"@, JsonView::Bool(dropped)).m,
    )
}

/// What the response to a failed executor says.
pub open spec fn failure_error(err: ErrorView, transition: Seq<char>) -> JsonView {
    obj().with("code"@, JsonView::Str("EXECUTOR_FAILED"@)).with(
        "message"@,
        JsonView::Str(err.message),
    ).with("errorClass"@, JsonView::Str(err.class)).with(
        "attemptedTransition"@,
        JsonView::Str(transition),
    ).json()
}

/// The entry and the response of a failed executor.
pub open spec fn failed(
    j: JobView,
    i: InstanceView,
    err: ErrorView,
    dropped: bool,
    r: Seq<ReplyView>,
) -> DispatchView {
    match first(r) {
        None => noted(failure_entry(j, i, err, dropped), AuditMode::Required),
        Some(ReplyView::Done(Err(e))) => broken(e),
        Some(ReplyView::Done(Ok(_))) => respond(
            j.acting(),
            i,
            StatusHint::Failed,
            Some(failure_error(err, j.request.transition)),
            r.drop_first(),
        ),
        _ => DispatchView::Misfit,
    }
}

fn do_failed(
    j: &Job,
    i: &WorkflowInstance,
    err: &ExecuteError,
    dropped: bool,
    replies: &Vec<Reply>,
    at: usize,
) -> (r: DispatchStep)
    requires
        at <= replies@.len(),
        sound(replies@),
    ensures
        r@ == failed(j@, i@, err@, dropped, rest(replies@, at as int)),
{
    match reply_at(replies, at) {
        None => {
            let payload = JsonMap::new().with(
                "transition",
                Json::text(j.request.transition.as_str()),
            ).with("code", Json::text("EXECUTOR_FAILED")).with(
                "errorClass",
                Json::text(err.class.as_str()),
            ).with("message", Json::text(err.message.as_str())).with(
                "persistenceDropped",
                Json::Bool(dropped),
            );
            DispatchStep::Do(
                Effect::Audit {
                    event: audit_entry(
                        "transition.rejected",
                        i.id.as_str(),
                        Some(j.request.principal.subject.as_str()),
                        Some(j.correlation_id.as_str()),
                        payload,
                    ),
                    mode: AuditMode::Required,
                },
            )
        },
        Some(Reply::Done(Err(e))) => broke(e.as_str()),
        Some(Reply::Done(Ok(_))) => {
            let error = JsonMap::new().with("code", Json::text("EXECUTOR_FAILED")).with(
                "message",
                Json::text(err.message.as_str()),
            ).with("errorClass", Json::text(err.class.as_str())).with(
                "attemptedTransition",
                Json::text(j.request.transition.as_str()),
            );
            do_respond(&j.acting(), i, StatusHint::Failed, Some(Json::Object(error)), replies, at + 1)
        },
        Some(_) => DispatchStep::Misfit,
    }
}

/// Whether a failure says that another writer was faster.
pub open spec fn is_stale(e: FailureView) -> bool {
    e matches FailureView::Text(m) && occurs(m, "stale workflow version"@)
}

/// How that is worded.
pub open spec fn stale_message(id: Seq<char>, expected: u64) -> Seq<char> {
    "Concurrent writer advanced workflow "@ + id
        + " while persisting executor side-effects; expected version "@ + decimal(expected as nat)
        + ". Reload and retry."@
}

/// The instance with what a failed executor wants kept, one version on.
pub open spec fn updated(i: InstanceView, context: JsonView) -> InstanceView {
    InstanceView { context, version: (i.version + 1) as u64, ..i }
}

/// The executor failed: what it wants kept is stored first. Where another writer was
/// faster the transition is refused; where it cannot be stored for another reason, the
/// entry says so.
pub open spec fn keeping(
    j: JobView,
    f: FiredView,
    err: ErrorView,
    r: Seq<ReplyView>,
) -> DispatchView {
    match err.updates {
        None => failed(j, f.instance, err, false, r),
        Some(updates) => match first(r) {
            None => DispatchView::Do(
                EffectView::Merge {
                    context: f.instance.context,
                    output: f.transition_def.get("output"@),
                    arguments: f.arguments,
                    input: f.instance.input,
                    result: updates,
                },
            ),
            Some(ReplyView::Merged(Err(_))) => failed(j, f.instance, err, true, r.drop_first()),
            Some(ReplyView::Merged(Ok(context))) => match first(r.drop_first()) {
                None => DispatchView::Do(
                    EffectView::Save {
                        instance: updated(f.instance, context),
                        expected_version: j.request.expected_version,
                    },
                ),
                Some(ReplyView::Instance(Ok(saved))) => failed(
                    j,
                    saved,
                    err,
                    false,
                    r.drop_first().drop_first(),
                ),
                Some(ReplyView::Instance(Err(e))) => if is_stale(e) {
                    reject(
                        j,
                        f.instance,
                        "STALE_WORKFLOW_VERSION"@,
                        stale_message(f.instance.id, j.request.expected_version),
                        r.drop_first().drop_first(),
                    )
                } else {
                    failed(j, f.instance, err, true, r.drop_first().drop_first())
                },
                _ => DispatchView::Misfit,
            },
            _ => DispatchView::Misfit,
        },
    }
}

fn says_stale(e: &Failure) -> (r: bool)
    ensures
        r == is_stale(e@),
{
    match e {
        Failure::Text(m) => contains(m.as_str(), "stale workflow version"),
        _ => false,
    }
}

fn do_keeping(
    j: &Job,
    f: &Fired,
    err: &ExecuteError,
    replies: &Vec<Reply>,
    at: usize,
) -> (r: DispatchStep)
    requires
        at <= replies@.len(),
        sound(replies@),
        f.instance.version < u64::MAX,
    ensures
        r@ == keeping(j@, f@, err@, rest(replies@, at as int)),
{
    let updates = match &err.updates {
        Some(u) => u,
        None => {
            return do_failed(j, &f.instance, err, false, replies, at);
        },
    };
    match reply_at(replies, at) {
        None => DispatchStep::Do(
            Effect::Merge {
                context: f.instance.context.clone(),
                output: copy_json(f.transition_def.get("output")),
                arguments: f.arguments.clone(),
                input: f.instance.input.clone(),
                result: updates.clone(),
            },
        ),
        Some(Reply::Merged(Err(_))) => do_failed(j, &f.instance, err, true, replies, at + 1),
        Some(Reply::Merged(Ok(context))) => match reply_at(replies, at + 1) {
            None => {
                let mut next = f.instance.clone();
                next.context = context.clone();
                next.version = f.instance.version + 1;
                assert(next@ == updated(f.instance@, context@));
                DispatchStep::Do(
                    Effect::Save { instance: next, expected_version: j.request.expected_version },
                )
            },
            Some(Reply::Instance(Ok(saved))) => do_failed(j, saved, err, false, replies, at + 2),
            Some(Reply::Instance(Err(e))) => if says_stale(e) {
                let mut m = "Concurrent writer advanced workflow ".to_owned();
                m.append(f.instance.id.as_str());
                m.append(" while persisting executor side-effects; expected version ");
                m.append(decimal_text(j.request.expected_version).as_str());
                m.append(". Reload and retry.");
                do_reject(
                    j,
                    &f.instance,
                    "STALE_WORKFLOW_VERSION",
                    m.as_str(),
                    replies,
                    at + 2,
                )
            } else {
                do_failed(j, &f.instance, err, true, replies, at + 2)
            },
            Some(_) => DispatchStep::Misfit,
        },
        Some(_) => DispatchStep::Misfit,
    }
}

/// The executor is done and the locks are given back: what it said decides.
pub open spec fn judged(
    j: JobView,
    f: FiredView,
    result: Result<ResultView, ErrorView>,
    elapsed_ms: u64,
    r: Seq<ReplyView>,
) -> DispatchView {
    match result {
        Ok(res) => match res.suspend {
            Some(s) => suspend_on_step(
                j.acting(),
                f.instance,
                j.request.transition,
                j.request.expected_version,
                s,
                r,
            ),
            None => produced(j, f, res, elapsed_ms, r),
        },
        Err(err) => keeping(j, f, err, r),
    }
}

pub open spec fn executed_view(result: Result<ExecuteResult, ExecuteError>) -> Result<
    ResultView,
    ErrorView,
> {
    match result {
        Ok(res) => Ok(res@),
        Err(err) => Err(err@),
    }
}

fn do_judged(
    j: &Job,
    f: &Fired,
    result: &Result<ExecuteResult, ExecuteError>,
    elapsed_ms: u64,
    replies: &Vec<Reply>,
    at: usize,
) -> (r: DispatchStep)
    requires
        at <= replies@.len(),
        sound(replies@),
        f.instance.version < u64::MAX,
    ensures
        r@ == judged(j@, f@, executed_view(*result), elapsed_ms, rest(replies@, at as int)),
{
    match result {
        Ok(res) => match &res.suspend {
            Some(s) => do_suspend_on_step(
                &j.acting(),
                &f.instance,
                j.request.transition.as_str(),
                j.request.expected_version,
                s,
                replies,
                at,
            ),
            None => do_produced(j, f, res, elapsed_ms, replies, at),
        },
        Err(err) => do_keeping(j, f, err, replies, at),
    }
}

/// Who holds the locks of an instance.
pub open spec fn lock_holder(id: Seq<char>) -> Seq<char> {
    "wf:"@ + id
}

pub(crate) fn make_holder(id: &str) -> (r: String)
    ensures
        r@ == lock_holder(id@),
{
    let mut h = "wf:".to_owned();
    h.append(id);
    h
}

/// The executor is done: the locks are given back, whatever it said.
pub open spec fn releasing(
    j: JobView,
    f: FiredView,
    files: Seq<Seq<char>>,
    result: Result<ResultView, ErrorView>,
    elapsed_ms: u64,
    r: Seq<ReplyView>,
) -> DispatchView {
    match first(r) {
        None => DispatchView::Do(
            EffectView::Release { files, holder: lock_holder(f.instance.id) },
        ),
        Some(ReplyView::Done(_)) => match first(r.drop_first()) {
            None => noted(
                files_entry("lock.released"@, f.instance.id, files),
                AuditMode::Ignored,
            ),
            Some(ReplyView::Done(_)) => match first(r.drop_first().drop_first()) {
                None => DispatchView::Do(EffectView::ResumeReadyLocks),
                Some(ReplyView::Done(_)) => judged(
                    j,
                    f,
                    result,
                    elapsed_ms,
                    r.drop_first().drop_first().drop_first(),
                ),
                _ => DispatchView::Misfit,
            },
            _ => DispatchView::Misfit,
        },
        _ => DispatchView::Misfit,
    }
}

fn do_releasing(
    j: &Job,
    f: &Fired,
    files: &Vec<String>,
    result: &Result<ExecuteResult, ExecuteError>,
    elapsed_ms: u64,
    replies: &Vec<Reply>,
    at: usize,
) -> (r: DispatchStep)
    requires
        at <= replies@.len(),
        sound(replies@),
        f.instance.version < u64::MAX,
    ensures
        r@ == releasing(
            j@,
            f@,
            texts(files@),
            executed_view(*result),
            elapsed_ms,
            rest(replies@, at as int),
        ),
{
    match reply_at(replies, at) {
        None => DispatchStep::Do(
            Effect::Release {
                files: copy_strings(files),
                holder: make_holder(f.instance.id.as_str()),
            },
        ),
        Some(Reply::Done(_)) => match reply_at(replies, at + 1) {
            None => note_files("lock.released", f.instance.id.as_str(), files),
            Some(Reply::Done(_)) => match reply_at(replies, at + 2) {
                None => DispatchStep::Do(Effect::ResumeReadyLocks),
                Some(Reply::Done(_)) => do_judged(j, f, result, elapsed_ms, replies, at + 3),
                Some(_) => DispatchStep::Misfit,
            },
            Some(_) => DispatchStep::Misfit,
        },
        Some(_) => DispatchStep::Misfit,
    }
}

/// The executor runs. `files` are those whose locks are held for it.
pub open spec fn executing(
    j: JobView,
    f: FiredView,
    config: JsonView,
    files: Seq<Seq<char>>,
    r: Seq<ReplyView>,
) -> DispatchView {
    match first(r) {
        None => DispatchView::Do(
            EffectView::Execute {
                correlation_id: j.correlation_id,
                instance: f.instance,
                fired: Some(j.request.transition),
                arguments: f.arguments,
                config,
                reliability: f.transition_def.get("reliability"@),
            },
        ),
        Some(ReplyView::Executed { result, elapsed_ms }) => if files.len() > 0 {
            releasing(j, f, files, result, elapsed_ms, r.drop_first())
        } else {
            judged(j, f, result, elapsed_ms, r.drop_first())
        },
        _ => DispatchView::Misfit,
    }
}

fn do_executing(
    j: &Job,
    f: &Fired,
    config: &Json,
    files: &Vec<String>,
    replies: &Vec<Reply>,
    at: usize,
) -> (r: DispatchStep)
    requires
        at <= replies@.len(),
        sound(replies@),
        f.instance.version < u64::MAX,
    ensures
        r@ == executing(j@, f@, config@, texts(files@), rest(replies@, at as int)),
{
    assert(texts(files@).len() == files@.len());
    match reply_at(replies, at) {
        None => DispatchStep::Do(
            Effect::Execute {
                correlation_id: j.correlation_id.clone(),
                instance: f.instance.clone(),
                fired: Some(j.request.transition.clone()),
                arguments: f.arguments.clone(),
                config: config.clone(),
                reliability: copy_json(f.transition_def.get("reliability")),
            },
        ),
        Some(Reply::Executed { result, elapsed_ms }) => if files.len() > 0 {
            do_releasing(j, f, files, result, *elapsed_ms, replies, at + 1)
        } else {
            do_judged(j, f, result, *elapsed_ms, replies, at + 1)
        },
        Some(_) => DispatchStep::Misfit,
    }
}

/// The executor's policy can be read: its files are locked, or the instance waits for them.
pub open spec fn locking(
    j: JobView,
    f: FiredView,
    config: JsonView,
    r: Seq<ReplyView>,
) -> DispatchView {
    let files = owned_files(config);
    if j.wiring.locks && files.len() > 0 {
        match first(r) {
            None => DispatchView::Do(
                EffectView::Acquire {
                    ttl_secs: LOCK_TTL_SECS,
                    files,
                    holder: lock_holder(f.instance.id),
                },
            ),
            Some(ReplyView::Locks(Err(conflicts))) => suspend_on_lock(
                j.acting(),
                j.wiring.scheduler,
                f.instance,
                j.request.transition,
                j.request.expected_version,
                files,
                conflicts,
                r.drop_first(),
            ),
            Some(ReplyView::Locks(Ok(_))) => match first(r.drop_first()) {
                None => noted(
                    files_entry("lock.acquired"@, f.instance.id, files),
                    AuditMode::Ignored,
                ),
                Some(ReplyView::Done(_)) => executing(
                    j,
                    f,
                    config,
                    files,
                    r.drop_first().drop_first(),
                ),
                _ => DispatchView::Misfit,
            },
            _ => DispatchView::Misfit,
        }
    } else {
        executing(j, f, config, Seq::empty(), r)
    }
}

fn do_locking(
    j: &Job,
    f: &Fired,
    config: &Json,
    replies: &Vec<Reply>,
    at: usize,
) -> (r: DispatchStep)
    requires
        at <= replies@.len(),
        sound(replies@),
        f.instance.version < u64::MAX,
    ensures
        r@ == locking(j@, f@, config@, rest(replies@, at as int)),
{
    let files = owned_files_in(config);
    assert(texts(files@).len() == files@.len());
    if j.wiring.locks && files.len() > 0 {
        match reply_at(replies, at) {
            None => DispatchStep::Do(
                Effect::Acquire {
                    ttl_secs: LOCK_TTL_SECS,
                    files: copy_strings(&files),
                    holder: make_holder(f.instance.id.as_str()),
                },
            ),
            Some(Reply::Locks(Err(conflicts))) => do_suspend_on_lock(
                &j.acting(),
                j.wiring.scheduler,
                &f.instance,
                j.request.transition.as_str(),
                j.request.expected_version,
                &files,
                conflicts,
                replies,
                at + 1,
            ),
            Some(Reply::Locks(Ok(_))) => match reply_at(replies, at + 1) {
                None => note_files("lock.acquired", f.instance.id.as_str(), &files),
                Some(Reply::Done(_)) => do_executing(j, f, config, &files, replies, at + 2),
                Some(_) => DispatchStep::Misfit,
            },
            Some(_) => DispatchStep::Misfit,
        }
    } else {
        let none: Vec<String> = Vec::new();
        assert(texts(none@) =~= Seq::empty());
        do_executing(j, f, config, &none, replies, at)
    }
}

/// All checks passed: the executor runs, if there is one.
pub open spec fn fired(j: JobView, f: FiredView, r: Seq<ReplyView>) -> DispatchView {
    match f.transition_def.get("executor"@) {
        None => plain(j, f, r),
        Some(config) => match first(r) {
            None => DispatchView::Do(
                EffectView::ParsePolicy { reliability: f.transition_def.get("reliability"@) },
            ),
            Some(ReplyView::Done(Err(e))) => broken(e),
            Some(ReplyView::Done(Ok(_))) => locking(j, f, config, r.drop_first()),
            _ => DispatchView::Misfit,
        },
    }
}

fn do_fired(j: &Job, f: &Fired, replies: &Vec<Reply>, at: usize) -> (r: DispatchStep)
    requires
        at <= replies@.len(),
        sound(replies@),
        f.instance.version < u64::MAX,
    ensures
        r@ == fired(j@, f@, rest(replies@, at as int)),
{
    match f.transition_def.get("executor") {
        None => do_plain(j, f, replies, at),
        Some(config) => match reply_at(replies, at) {
            None => DispatchStep::Do(
                Effect::ParsePolicy { reliability: copy_json(f.transition_def.get("reliability")) },
            ),
            Some(Reply::Done(Err(e))) => broke(e.as_str()),
            Some(Reply::Done(Ok(_))) => do_locking(j, f, config, replies, at + 1),
            Some(_) => DispatchStep::Misfit,
        },
    }
}

/// Why the guards refuse: the code and the message, by what a guard said was the cause.
pub open spec fn guard_refusal(diagnostic: Option<Seq<char>>) -> (Seq<char>, Seq<char>) {
    if diagnostic == Some("EVIDENCE_DIGEST_REQUIRED"@) {
        (
            "EVIDENCE_DIGEST_REQUIRED"@,
            "Evidence guard quorum failed: a `require_digest: true` clause excluded records missing a content digest."@,
        )
    } else if diagnostic == Some("EVIDENCE_CONFIDENCE_BELOW_THRESHOLD"@) {
        (
            "EVIDENCE_CONFIDENCE_BELOW_THRESHOLD"@,
            "Evidence guard quorum failed: a `min_confidence` clause excluded records whose confidence was below threshold (or missing entirely)."@,
        )
    } else {
        ("GUARD_REJECTED"@, "One or more guards rejected the transition."@)
    }
}

fn refuse_guards(diagnostic: &Option<String>) -> (r: (&'static str, &'static str))
    ensures
        (r.0@, r.1@) == guard_refusal(opt_string(*diagnostic)),
{
    if let Some(d) = diagnostic {
        if same(d.as_str(), "EVIDENCE_DIGEST_REQUIRED") {
            return (
                "EVIDENCE_DIGEST_REQUIRED",
                "Evidence guard quorum failed: a `require_digest: true` clause excluded records missing a content digest.",
            );
        }
        if same(d.as_str(), "EVIDENCE_CONFIDENCE_BELOW_THRESHOLD") {
            return (
                "EVIDENCE_CONFIDENCE_BELOW_THRESHOLD",
                "Evidence guard quorum failed: a `min_confidence` clause excluded records whose confidence was below threshold (or missing entirely).",
            );
        }
    }
    ("GUARD_REJECTED", "One or more guards rejected the transition.")
}

/// The arguments have the declared form: the guards are asked.
pub open spec fn guarded(
    j: JobView,
    i: InstanceView,
    t: JsonView,
    arguments: JsonView,
    r: Seq<ReplyView>,
) -> DispatchView {
    match first(r) {
        None => DispatchView::Do(
            EffectView::PassGuards {
                acting: j.acting(),
                transition_def: t,
                instance: i,
                arguments,
            },
        ),
        Some(ReplyView::Guards(GuardsView::UnsetSlot(m))) => reject(
            j,
            i,
            "GUARD_UNSET_SLOT"@,
            m,
            r.drop_first(),
        ),
        Some(ReplyView::Guards(GuardsView::Broken(m))) => broken(m),
        Some(ReplyView::Guards(GuardsView::Judged { pass, evaluated, diagnostic })) => if pass {
            fired(
                j,
                FiredView { instance: i, transition_def: t, arguments, guards: evaluated },
                r.drop_first(),
            )
        } else {
            reject(
                j,
                i,
                guard_refusal(diagnostic).0,
                guard_refusal(diagnostic).1,
                r.drop_first(),
            )
        },
        _ => DispatchView::Misfit,
    }
}

fn do_guarded(
    j: &Job,
    i: &WorkflowInstance,
    t: &Json,
    arguments: Json,
    replies: &Vec<Reply>,
    at: usize,
) -> (r: DispatchStep)
    requires
        at <= replies@.len(),
        sound(replies@),
        i.version < u64::MAX,
    ensures
        r@ == guarded(j@, i@, t@, arguments@, rest(replies@, at as int)),
{
    match reply_at(replies, at) {
        None => DispatchStep::Do(
            Effect::PassGuards {
                acting: j.acting(),
                transition_def: t.clone(),
                instance: i.clone(),
                arguments,
            },
        ),
        Some(Reply::Guards(GuardsReply::UnsetSlot(m))) => do_reject(
            j,
            i,
            "GUARD_UNSET_SLOT",
            m.as_str(),
            replies,
            at + 1,
        ),
        Some(Reply::Guards(GuardsReply::Broken(m))) => broke(m.as_str()),
        Some(Reply::Guards(GuardsReply::Judged { pass, evaluated, diagnostic })) => if *pass {
            let f = Fired {
                instance: i.clone(),
                transition_def: t.clone(),
                arguments,
                guards: crate::runtime::effects::copy_values(evaluated),
            };
            do_fired(j, &f, replies, at + 1)
        } else {
            let (code, message) = refuse_guards(diagnostic);
            do_reject(j, i, code, message, replies, at + 1)
        },
        Some(_) => DispatchStep::Misfit,
    }
}

/// The arguments with the defaults of their schema.
pub open spec fn full_arguments(t: JsonView, arguments: JsonView) -> JsonView {
    match t.step("inputSchema"@) {
        Some(s) => defaulted(s, arguments),
        None => arguments,
    }
}

/// The checks before the executor.
pub open spec fn checked(j: JobView, i: InstanceView, r: Seq<ReplyView>) -> DispatchView {
    match gate(j.request, i) {
        GateView::Reject(code, message) => reject(j, i, code, message, r),
        GateView::Broken(m) => broken(m),
        GateView::Pass(t) => {
            let arguments = full_arguments(t, j.request.arguments);
            match t.step("inputSchema"@) {
                None => guarded(j, i, t, arguments, r),
                Some(schema) => match first(r) {
                    None => DispatchView::Do(
                        EffectView::CheckSchema { schema, value: arguments },
                    ),
                    Some(ReplyView::Verdict(v)) => match schema_fault(v, "transition input"@) {
                        Some(m) => reject(
                            j,
                            i,
                            "INPUT_SCHEMA_VIOLATION"@,
                            m,
                            r.drop_first(),
                        ),
                        None => guarded(j, i, t, arguments, r.drop_first()),
                    },
                    _ => DispatchView::Misfit,
                },
            }
        },
    }
}

fn do_checked(j: &Job, i: &WorkflowInstance, replies: &Vec<Reply>, at: usize) -> (r: DispatchStep)
    requires
        at <= replies@.len(),
        sound(replies@),
        i.version < u64::MAX,
    ensures
        r@ == checked(j@, i@, rest(replies@, at as int)),
{
    match check_gate(&j.request, i) {
        Gate::Reject(code, message) => do_reject(j, i, code, message.as_str(), replies, at),
        Gate::Broken(m) => broke(m.as_str()),
        Gate::Pass(t) => {
            let schema = t.step("inputSchema");
            let mut arguments = j.request.arguments.clone();
            apply_schema_defaults(schema, &mut arguments);
            match schema {
                None => do_guarded(j, i, t, arguments, replies, at),
                Some(s) => match reply_at(replies, at) {
                    None => DispatchStep::Do(
                        Effect::CheckSchema { schema: s.clone(), value: arguments },
                    ),
                    Some(Reply::Verdict(v)) => match validate_schema(
                        Some(s),
                        v,
                        "transition input",
                    ) {
                        Err(m) => do_reject(
                            j,
                            i,
                            "INPUT_SCHEMA_VIOLATION",
                            m.as_str(),
                            replies,
                            at + 1,
                        ),
                        Ok(_) => do_guarded(j, i, t, arguments, replies, at + 1),
                    },
                    Some(_) => DispatchStep::Misfit,
                },
            }
        },
    }
}

/// The entry of a transition that is asked for.
pub open spec fn requested_entry(j: JobView, i: InstanceView) -> AuditView {
    entry(
        "transition.requested"@,
        i.id,
        Some(j.request.principal.subject),
        Some(j.correlation_id),
        obj().with("transition"@, JsonView::Str(j.request.transition)).with(
            "expectedVersion"@,
            number(j.request.expected_version),
        ).with("fromState"@, JsonView::Str(i.state)).m,
    )
}

/// How the refusal of a cancelled instance is worded.
pub open spec fn cancelled_message(id: Seq<char>, at: int, reason: Option<Seq<char>>) -> Seq<char> {
    "WORKFLOW_CANCELLED: workflow "@ + id + " was cancelled at "@ + utc_display(
        secs_of(at),
        nanos_of(at),
    ) + " (reason: "@ + text_or(reason, "(none)"@) + ")"@
}

/// The instance was found: a cancelled one refuses everything, then its timeout applies,
/// then the request is entered.
pub open spec fn loaded(j: JobView, i: InstanceView, r: Seq<ReplyView>) -> DispatchView {
    match i.cancelled_at {
        Some(at) => broken(cancelled_message(j.request.workflow_id, at, i.cancelled_reason)),
        None => match first(r) {
            None => DispatchView::Do(
                EffectView::CheckTimeout {
                    principal: j.request.principal,
                    instance: i,
                },
            ),
            Some(ReplyView::TimedOut(Err(e))) => DispatchView::Done(Err(e)),
            Some(ReplyView::TimedOut(Ok(Some(late)))) => respond(
                j.acting(),
                late,
                StatusHint::TimedOut,
                None,
                r.drop_first(),
            ),
            Some(ReplyView::TimedOut(Ok(None))) => match first(r.drop_first()) {
                None => noted(requested_entry(j, i), AuditMode::Required),
                Some(ReplyView::Done(Err(e))) => broken(e),
                Some(ReplyView::Done(Ok(_))) => checked(j, i, r.drop_first().drop_first()),
                _ => DispatchView::Misfit,
            },
            _ => DispatchView::Misfit,
        },
    }
}

fn do_loaded(j: &Job, i: &WorkflowInstance, replies: &Vec<Reply>, at: usize) -> (r: DispatchStep)
    requires
        at <= replies@.len(),
        sound(replies@),
        i.version < u64::MAX,
    ensures
        r@ == loaded(j@, i@, rest(replies@, at as int)),
{
    if let Some(when) = &i.cancelled_at {
        let mut m = "WORKFLOW_CANCELLED: workflow ".to_owned();
        m.append(j.request.workflow_id.as_str());
        m.append(" was cancelled at ");
        m.append(when.display_text().as_str());
        m.append(" (reason: ");
        match &i.cancelled_reason {
            Some(c) => {
                m.append(c.as_str());
            },
            None => {
                m.append("(none)");
            },
        }
        m.append(")");
        return broke(m.as_str());
    }
    match reply_at(replies, at) {
        None => DispatchStep::Do(
            Effect::CheckTimeout {
                principal: j.request.principal.clone(),
                instance: i.clone(),
            },
        ),
        Some(Reply::TimedOut(Err(e))) => DispatchStep::Done(Err(e.clone())),
        Some(Reply::TimedOut(Ok(Some(late)))) => do_respond(
            &j.acting(),
            late,
            StatusHint::TimedOut,
            None,
            replies,
            at + 1,
        ),
        Some(Reply::TimedOut(Ok(None))) => match reply_at(replies, at + 1) {
            None => {
                let payload = JsonMap::new().with(
                    "transition",
                    Json::text(j.request.transition.as_str()),
                ).with("expectedVersion", Json::uint(j.request.expected_version)).with(
                    "fromState",
                    Json::text(i.state.as_str()),
                );
                DispatchStep::Do(
                    Effect::Audit {
                        event: audit_entry(
                            "transition.requested",
                            i.id.as_str(),
                            Some(j.request.principal.subject.as_str()),
                            Some(j.correlation_id.as_str()),
                            payload,
                        ),
                        mode: AuditMode::Required,
                    },
                )
            },
            Some(Reply::Done(Err(e))) => broke(e.as_str()),
            Some(Reply::Done(Ok(_))) => do_checked(j, i, replies, at + 2),
            Some(_) => DispatchStep::Misfit,
        },
        Some(_) => DispatchStep::Misfit,
    }
}

/// What one dispatch does next.
pub open spec fn dispatch(j: JobView, r: Seq<ReplyView>) -> DispatchView {
    match first(r) {
        None => DispatchView::Do(EffectView::Load { workflow_id: j.request.workflow_id }),
        Some(ReplyView::Instance(Err(e))) => DispatchView::Done(Err(e)),
        Some(ReplyView::Instance(Ok(i))) => loaded(j, i, r.drop_first()),
        _ => DispatchView::Misfit,
    }
}

/// One dispatch of a submitted transition: the next thing to do, given what came of
/// everything before, or the outcome.
pub fn dispatch_once(j: &Job, replies: &Vec<Reply>) -> (r: DispatchStep)
    requires
        sound(replies@),
    ensures
        r@ == dispatch(j@, crate::runtime::script::reply_views(replies@)),
{
    proof {
        reveal(rest);
        assert(rest(replies@, 0) =~= crate::runtime::script::reply_views(replies@));
    }
    match reply_at(replies, 0) {
        None => DispatchStep::Do(Effect::Load { workflow_id: j.request.workflow_id.clone() }),
        Some(Reply::Instance(Err(e))) => DispatchStep::Done(Err(e.clone())),
        Some(Reply::Instance(Ok(i))) => do_loaded(j, i, replies, 1),
        Some(_) => DispatchStep::Misfit,
    }
}

} // verus!
