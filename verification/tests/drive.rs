//! Flows that run from end to end against stores, locks and executors in memory.

use praxec_core::hashing::{new_correlation_id, new_workflow_id};
use praxec_core::json::{Json, JsonMap, Number};
use praxec_core::json_text::compact_text;
use praxec_core::model::{Acting, AuditEvent, ParentLink, Principal, Timestamp, WorkflowInstance};
use praxec_core::repo_locks::{RepoLockSpace, RepoLocks};
use praxec_core::run_env::{RepoRoot, RunEnv};
use praxec_core::runtime::chain::{run_deterministic_chain, ChainJob, ChainMove};
use praxec_core::runtime::context::{
    clear_agent_await_on_advance, clear_state_local_slots_on_exit, clear_subworkflow_wait_on_advance,
};
use praxec_core::runtime::dispatch::{dispatch_once, DispatchOutcome, DispatchStep, Job, SubmitTransition};
use praxec_core::runtime::effects::{
    AuditMode, ChainOutcome, ExecuteError, ExecuteResult, Failure, NextTransition, StatusHint,
    StepSuspend,
};
use praxec_core::runtime::guards::{apply_while_loop, guards_pass, resolve_target, select_deterministic_transition};
use praxec_core::runtime::lifecycle::{check_and_apply_timeout, run_on_enter};
use praxec_core::runtime::record::{emit_transition_record, record_or_self_event};
use praxec_core::runtime::recovery::{redrive, resume_parent_if_any, LockRecovery, ParentRecovery};
use praxec_core::runtime::response::{emit_outcome_recorded, response, Answer};
use praxec_core::runtime::runtime::WorkflowRuntime;
use praxec_core::runtime::schema::SchemaVerdict;
use praxec_core::runtime::script::{Effect, Reply, Step};
use praxec_core::runtime::start::StartWorkflow;
use praxec_core::runtime::submit::SubmitMove;
use praxec_core::runtime::transition_resolver::RuntimeTransitionResolver;

fn convert(v: &serde_json::Value) -> Json {
    match v {
        serde_json::Value::Null => Json::Null,
        serde_json::Value::Bool(b) => Json::Bool(*b),
        serde_json::Value::Number(n) => {
            if let Some(u) = n.as_u64() {
                Json::Number(Number::PosInt(u))
            } else if let Some(i) = n.as_i64() {
                Json::Number(Number::NegInt(i))
            } else {
                Json::Number(Number::Float(n.to_string()))
            }
        }
        serde_json::Value::String(s) => Json::Str(s.clone()),
        serde_json::Value::Array(a) => Json::Array(a.iter().map(convert).collect()),
        serde_json::Value::Object(m) => {
            let mut out = JsonMap::new();
            for (k, v) in m {
                out.insert(k.clone(), convert(v));
            }
            Json::Object(out)
        }
    }
}

fn json(text: &str) -> Json {
    convert(&serde_json::from_str::<serde_json::Value>(text).unwrap())
}

type Runtime = WorkflowRuntime<(), (), (), (), (), (), (), ()>;
type Executor = fn(&Json, &Json) -> Result<ExecuteResult, ExecuteError>;

fn acting(subject: &str) -> Acting {
    Acting {
        principal: Principal {
            subject: subject.to_string(),
            roles: vec![],
        },
        correlation_id: "cor".to_string(),
    }
}

fn produced(output: &str) -> ExecuteResult {
    ExecuteResult {
        output: json(output),
        evidence: vec![],
        suspend: None,
        child_workflow_id: None,
        next_transition: None,
        telemetry: None,
    }
}

fn noop(_config: &Json, _arguments: &Json) -> Result<ExecuteResult, ExecuteError> {
    Ok(produced("{}"))
}

fn failing(_config: &Json, _arguments: &Json) -> Result<ExecuteResult, ExecuteError> {
    Err(ExecuteError {
        class: "tool_error".to_string(),
        message: "the tool broke".to_string(),
        updates: None,
    })
}

fn suspending(_config: &Json, _arguments: &Json) -> Result<ExecuteResult, ExecuteError> {
    Ok(ExecuteResult {
        suspend: Some(StepSuspend::Subworkflow {
            child_workflow_id: "child_x".to_string(),
        }),
        ..produced("{}")
    })
}

fn awaiting(_config: &Json, arguments: &Json) -> Result<ExecuteResult, ExecuteError> {
    if arguments.get("reply").is_some() {
        return Ok(produced(r#"{ "verdict": "approved-and-done" }"#));
    }
    Ok(ExecuteResult {
        suspend: Some(StepSuspend::AgentAwait {
            correlation_id: "corr-7".to_string(),
            prompt: "ship it?".to_string(),
        }),
        ..produced("{}")
    })
}

fn choosing_again(_config: &Json, _arguments: &Json) -> Result<ExecuteResult, ExecuteError> {
    Ok(ExecuteResult {
        next_transition: Some(NextTransition {
            transition: "again".to_string(),
            arguments: json("{}"),
            summary: None,
        }),
        ..produced("{}")
    })
}

/// Everything that the runtime reaches outside itself.
struct World {
    rt: Runtime,
    definition: Json,
    instances: Vec<WorkflowInstance>,
    locks: RepoLockSpace,
    queue: Vec<String>,
    asked: Vec<String>,
    audit: Vec<AuditEvent>,
    executor: Executor,
    executed: usize,
    now: i64,
    saves_fail: bool,
    audit_fails: bool,
    schemas_fail: bool,
    subject: Principal,
}

impl World {
    fn new(definition: &str, executor: Executor) -> World {
        World {
            rt: Runtime::new((), (), (), (), ()),
            definition: json(definition),
            instances: vec![],
            locks: RepoLockSpace::new(),
            queue: vec![],
            asked: vec![],
            audit: vec![],
            executor,
            executed: 0,
            now: 0,
            saves_fail: false,
            audit_fails: false,
            schemas_fail: false,
            subject: Principal::anonymous(),
        }
    }

    fn clock(&self) -> Timestamp {
        Timestamp::new(1_700_000_000 + self.now, 0).unwrap()
    }

    fn verdict(&self) -> SchemaVerdict {
        if self.schemas_fail {
            SchemaVerdict::Invalid(vec!["it does not fit".to_string()])
        } else {
            SchemaVerdict::Valid
        }
    }

    fn load(&self, id: &str) -> Result<WorkflowInstance, Failure> {
        match self.instances.iter().find(|i| i.id == id) {
            Some(i) => Ok(i.clone()),
            None => Err(Failure::Text(format!("workflow {id} not found"))),
        }
    }

    fn stored(&self, id: &str) -> WorkflowInstance {
        match self.load(id) {
            Ok(i) => i,
            Err(_) => panic!("no instance {id}"),
        }
    }

    fn events(&self, event_type: &str) -> usize {
        self.audit.iter().filter(|e| e.event_type == event_type).count()
    }

    fn record(&mut self, event: AuditEvent) -> Result<(), String> {
        if self.audit_fails {
            return Err("audit host unreachable".to_string());
        }
        self.audit.push(event);
        Ok(())
    }

    fn run<T>(&mut self, cor: &str, step: &dyn Fn(&Runtime, &Vec<Reply>) -> Step<T>) -> T {
        let mut replies: Vec<Reply> = vec![];
        loop {
            match step(&self.rt, &replies) {
                Step::Do(e) => {
                    let r = self.perform(cor, e);
                    replies.push(r);
                }
                Step::Done(t) => return t,
                Step::Misfit => panic!("a reply does not fit its question"),
            }
        }
    }

    fn perform(&mut self, cor: &str, effect: Effect) -> Reply {
        match effect {
            Effect::Load { workflow_id } => Reply::Instance(self.load(&workflow_id)),
            Effect::LoadDefinition { .. } => Reply::Definition(Ok(self.definition.clone())),
            Effect::FindRun { run_id } => Reply::Run(Ok(self
                .instances
                .iter()
                .find(|i| i.run_env.run_id.as_deref() == Some(run_id.as_str()))
                .map(|i| i.id.clone()))),
            Effect::Create { instance } => {
                self.instances.push(instance.clone());
                Reply::Instance(Ok(instance))
            }
            Effect::Save { instance, expected_version } => {
                if self.saves_fail {
                    return Reply::Instance(Err(Failure::Text("injected store failure".to_string())));
                }
                for i in 0..self.instances.len() {
                    if self.instances[i].id == instance.id {
                        if self.instances[i].version != expected_version {
                            return Reply::Instance(Err(Failure::Text("stale workflow version".to_string())));
                        }
                        self.instances[i] = instance.clone();
                        return Reply::Instance(Ok(instance));
                    }
                }
                Reply::Instance(Err(Failure::Text("not found".to_string())))
            }
            Effect::Watch { .. } => Reply::Done(Ok(())),
            Effect::Audit { event, mode } => {
                let event_type = event.event_type.clone();
                match self.record(event) {
                    Ok(()) => Reply::Done(Ok(())),
                    Err(e) => {
                        if matches!(mode, AuditMode::SelfEvent) {
                            let _ = self.record(record_or_self_event(&event_type, &e));
                        }
                        Reply::Done(Err(e))
                    }
                }
            }
            Effect::Record { params, correlation_id } => {
                assert!(!correlation_id.is_empty());
                let event = emit_transition_record(&params, &self.clock(), &correlation_id);
                Reply::Done(self.record(event))
            }
            Effect::CheckTimeout { instance, principal } => Reply::TimedOut(self.run(cor, &|_, r| {
                check_and_apply_timeout(&instance.definition, &instance, cor, &principal.subject, r)
            })),
            Effect::Now => Reply::Time(self.clock()),
            Effect::CheckSchema { .. } => Reply::Verdict(self.verdict()),
            Effect::CheckSlots { checks } => {
                Reply::Verdicts(checks.iter().map(|_| self.verdict()).collect())
            }
            Effect::PassGuards { transition_def, instance, arguments, acting } => {
                Reply::Guards(self.run(cor, &|_, r| guards_pass(&transition_def, &instance, &arguments, &acting, r)))
            }
            Effect::Select { candidates, instance, acting } => Reply::Selected(
                self.run(cor, &|_, r| select_deterministic_transition(&candidates, &instance, &acting, r)),
            ),
            Effect::ParsePolicy { .. } => Reply::Done(Ok(())),
            Effect::Acquire { files, holder, ttl_secs } => {
                let now = self.clock();
                Reply::Locks(match self.locks.acquire(&files, &holder, ttl_secs, 0, &now) {
                    Ok(()) => Ok(()),
                    Err(c) => Err(c.conflicts),
                })
            }
            Effect::Release { files, holder } => {
                self.locks.release(&files, &holder);
                Reply::Done(Ok(()))
            }
            Effect::ResumeReadyLocks => Reply::Done(Ok(())),
            Effect::Enqueue { workflow_id, .. } => {
                self.queue.push(workflow_id);
                Reply::Done(Ok(()))
            }
            Effect::Execute { arguments, config, .. } => {
                self.executed += 1;
                Reply::Executed {
                    result: (self.executor)(&config, &arguments),
                    elapsed_ms: 5,
                }
            }
            Effect::Merge { context, output, result, .. } => {
                let mut out = match context {
                    Json::Object(m) => m,
                    _ => JsonMap::new(),
                };
                if let Some(Json::Object(mapping)) = output {
                    for k in 0..mapping.len() {
                        out.insert(mapping.key_at(k).clone(), result.clone());
                    }
                }
                Reply::Merged(Ok(Json::Object(out)))
            }
            Effect::ResolveTarget { transition_def, instance, arguments, acting } => Reply::Target(self.run(cor, &|_, r| {
                resolve_target(&transition_def, &instance, &arguments, &acting, r)
            })),
            Effect::Loop { from_state, instance, arguments, acting } => Reply::Looped(self.run(cor, &|_, r| {
                apply_while_loop(&instance.definition, &from_state, &instance, &arguments, &acting, r)
            })),
            Effect::KeepEvidence { .. } => Reply::Done(Ok(())),
            Effect::OnEnter { instance, correlation_id } => Reply::Instance(
                self.run(cor, &|_, r| run_on_enter(&instance.definition, false, &instance, &correlation_id, r)),
            ),
            Effect::Chain { instance, max_depth, acting } => {
                let job = ChainJob {
                    auto: self.rt.auto_drive.clone(),
                    evidence: false,
                    locks: self.rt.repo_locks.is_some(),
                    acting,
                    definition: instance.definition.clone(),
                    max_depth,
                };
                Reply::Chained(self.run(cor, &|_, r| match run_deterministic_chain(&job, &instance, r) {
                    ChainMove::Do(e) => Step::Do(e),
                    ChainMove::Done(o) => Step::Done(o),
                    ChainMove::Misfit => Step::Misfit,
                }))
            }
            Effect::EmitOutcome { hint, instance, acting } => {
                self.run(cor, &|_, r| emit_outcome_recorded(hint, &instance.definition, &instance, &acting, r));
                Reply::Done(Ok(()))
            }
            Effect::ResumeParent { instance } => {
                self.run(cor, &|_, r| resume_parent_if_any(&instance, r));
                Reply::Done(Ok(()))
            }
            Effect::Cancel { workflow_id, reason } => {
                match self.run(cor, &|rt, r| rt.cancel(&workflow_id, &reason, r)) {
                    Ok(()) => Reply::Done(Ok(())),
                    Err(_) => Reply::Done(Err("cancel failed".to_string())),
                }
            }
            Effect::AskGuard { guard, instance, principal, .. } => {
                self.asked.push(principal.subject);
                let pass = match guard.get_str("slot") {
                    Some(slot) => instance.context.get_bool(slot) == Some(true),
                    None => true,
                };
                Reply::Judged(Ok((pass, None)))
            }
            Effect::DeriveStatus { hint, terminal, .. } => {
                let status = match hint {
                    StatusHint::WaitingOnLock
                    | StatusHint::WaitingOnSubworkflow
                    | StatusHint::WaitingOnAgentAwait
                    | StatusHint::WaitingForAction => "waiting",
                    StatusHint::Failed => "failed",
                    StatusHint::Rejected => "rejected",
                    StatusHint::Cancelled => "cancelled",
                    StatusHint::TimedOut => "timed_out",
                    StatusHint::Started | StatusHint::Executed => {
                        if terminal {
                            "succeeded"
                        } else {
                            "running"
                        }
                    }
                };
                Reply::Mission {
                    result: json(&format!(r#"{{ "status": "{status}" }}"#)),
                    status: status.to_string(),
                    reason: None,
                }
            }
            Effect::ResolvePrefills { .. } => Reply::Prefilled(JsonMap::new()),
            Effect::ListLocks => {
                let now = self.clock();
                Reply::Held(self.locks.held(&now).into_iter().map(|h| (h.file, h.holder)).collect())
            }
            Effect::RecordOutcome { .. } => Reply::Done(Ok(())),
            Effect::NewId => Reply::Id(new_workflow_id()),
            Effect::Submit { workflow_id, expected_version, transition, principal } => {
                let subject = self.subject.clone();
                self.subject = principal;
                let reply = match self.submit(&workflow_id, expected_version, &transition, "{}") {
                    Ok(_) => Reply::Done(Ok(())),
                    Err(_) => Reply::Done(Err("submit failed".to_string())),
                };
                self.subject = subject;
                reply
            }
            Effect::Respond { instance, hint, error, principal } => {
                let a = Answer {
                    definition: instance.definition.clone(),
                    instance,
                    hint,
                    error,
                    locks: self.rt.repo_locks.is_some(),
                    principal,
                };
                Reply::Response(self.run(cor, &|_, r| response(&a, r)))
            }
        }
    }

    fn dispatch(&mut self, request: SubmitTransition) -> Result<DispatchOutcome, Failure> {
        let job = Job {
            wiring: self.rt.wiring(),
            request,
            correlation_id: new_correlation_id(),
        };
        let cor = job.correlation_id.clone();
        self.run(&cor, &|_, r| match dispatch_once(&job, r) {
            DispatchStep::Do(e) => Step::Do(e),
            DispatchStep::Done(o) => Step::Done(o),
            DispatchStep::Misfit => Step::Misfit,
        })
    }

    fn submit(&mut self, id: &str, version: u64, transition: &str, arguments: &str) -> Result<Json, Failure> {
        let mut request = SubmitTransition {
            workflow_id: id.to_string(),
            expected_version: version,
            transition: transition.to_string(),
            arguments: json(arguments),
            principal: self.subject.clone(),
            summary: None,
            trace_id: None,
            run_id: None,
        };
        let mut turns: u32 = 0;
        loop {
            let again = SubmitTransition {
                workflow_id: request.workflow_id.clone(),
                expected_version: request.expected_version,
                transition: request.transition.clone(),
                arguments: request.arguments.clone(),
                principal: request.principal.clone(),
                summary: None,
                trace_id: None,
                run_id: None,
            };
            let outcome = self.dispatch(again)?;
            match self.rt.submit(turns, &request, outcome) {
                SubmitMove::Return(m) => return Ok(Json::Object(m)),
                SubmitMove::Again(next, n) => {
                    request = next;
                    turns = n;
                }
                SubmitMove::Exceeded(event, failure) => {
                    let _ = self.record(event);
                    return Err(failure);
                }
                SubmitMove::Broken(m) => return Err(Failure::Text(m)),
            }
        }
    }

    fn start_run(&mut self, run_id: Option<&str>) -> Result<Json, Failure> {
        let request = StartWorkflow {
            definition_id: "p".to_string(),
            input: json("{}"),
            principal: self.subject.clone(),
            run_env: RunEnv::new(root(), run_id.map(|s| s.to_string()), None),
            depth: 0,
            parent: None,
        };
        let cor = new_correlation_id();
        let out = self.run(&cor, &|rt, r| match rt.start(&request, &cor, r) {
            DispatchStep::Do(e) => Step::Do(e),
            DispatchStep::Done(o) => Step::Done(o),
            DispatchStep::Misfit => Step::Misfit,
        })?;
        Ok(Json::Object(out.response))
    }

    fn start(&mut self) -> Json {
        match self.start_run(None) {
            Ok(v) => v,
            Err(_) => panic!("the start fails"),
        }
    }
}

fn root() -> RepoRoot {
    match RepoRoot::from_persisted("/tmp/praxec-root".to_string()) {
        Ok(r) => r,
        Err(e) => panic!("{}", e.message()),
    }
}

fn at<'a>(v: &'a Json, pointer: &str) -> Option<&'a str> {
    v.pointer(pointer).and_then(|x| x.as_str())
}

fn id_of(v: &Json) -> String {
    at(v, "/workflow/id").unwrap().to_string()
}

const LOCK_OWNING: &str = r#"{
    "version": "1.0.0",
    "initialState": "a",
    "states": {
        "a": { "transitions": { "edit": {
            "target": "b", "actor": "agent",
            "executor": { "kind": "noop", "owned_files": ["src/lib.rs"] }
        } } },
        "b": { "terminal": true }
    }
}"#;

fn hold_elsewhere(w: &mut World) {
    let now = w.clock();
    assert!(w.locks.acquire(&vec!["src/lib.rs".to_string()], "wf:other", 300, 0, &now).is_ok());
    w.rt.repo_locks = Some(());
    w.rt.lock_scheduler = Some(());
}

#[test]
fn suspend_on_lock_propagates_save_failure_instead_of_faking_suspend() {
    let mut w = World::new(LOCK_OWNING, noop);
    hold_elsewhere(&mut w);
    let id = id_of(&w.start());
    w.saves_fail = true;
    assert!(w.submit(&id, 0, "edit", "{}").is_err());
    assert!(w.stored(&id).context.get("_lock_wait").is_none());
}

#[test]
fn suspend_on_lock_waits_in_line() {
    let mut w = World::new(LOCK_OWNING, noop);
    hold_elsewhere(&mut w);
    let id = id_of(&w.start());
    let out = w.submit(&id, 0, "edit", "{}").ok().unwrap();
    assert_eq!(at(&out, "/result/status"), Some("waiting"));
    assert_eq!(at(&out, "/workflow/state"), Some("a"));
    assert_eq!(w.queue, vec![id.clone()]);
    assert_eq!(w.executed, 0);
    assert!(w.stored(&id).context.get("_lock_wait").is_some());
}

#[test]
fn locks_are_given_back_after_an_executor() {
    for executor in [noop as Executor, failing as Executor] {
        let mut w = World::new(LOCK_OWNING, executor);
        w.rt.repo_locks = Some(());
        let id = id_of(&w.start());
        let _ = w.submit(&id, 0, "edit", "{}");
        assert_eq!(w.executed, 1);
        let now = w.clock();
        assert!(w.locks.held(&now).is_empty());
    }
}

const SUBWORKFLOW: &str = r#"{
    "version": "1.0.0",
    "initialState": "a",
    "states": {
        "a": { "actor": "agent", "transitions": { "spawn": {
            "target": "b", "executor": { "kind": "workflow" }
        } } },
        "b": { "terminal": true }
    }
}"#;

#[test]
fn suspend_on_subworkflow_parks_parent_without_advancing() {
    let mut w = World::new(SUBWORKFLOW, suspending);
    let id = id_of(&w.start());
    let out = w.submit(&id, 0, "spawn", "{}").ok().unwrap();
    assert_eq!(at(&out, "/result/status"), Some("waiting"));
    assert_eq!(at(&out, "/workflow/state"), Some("a"));
    let i = w.stored(&id);
    assert_eq!(at(&i.context, "/_subworkflow_wait/child_workflow_id"), Some("child_x"));
    assert_eq!(at(&i.context, "/_subworkflow_wait/transition"), Some("spawn"));
    assert_eq!(i.version, 1);
}

const AGENT_AWAIT: &str = r#"{
    "version": "1.0.0",
    "initialState": "a",
    "states": {
        "a": { "actor": "agent", "transitions": { "do_work": {
            "target": "b", "executor": { "kind": "agent" }
        } } },
        "b": { "terminal": true }
    }
}"#;

fn start_and_park() -> (World, String, Json) {
    let mut w = World::new(AGENT_AWAIT, awaiting);
    let id = id_of(&w.start());
    let parked = w.submit(&id, 0, "do_work", "{}").ok().unwrap();
    (w, id, parked)
}

#[test]
fn agent_await_suspend_parks_mission_waiting_without_advancing() {
    let (w, id, out) = start_and_park();
    assert_eq!(at(&out, "/result/status"), Some("waiting"));
    assert_eq!(at(&out, "/workflow/state"), Some("a"));
    assert_eq!(at(&out, "/await/correlationId"), Some("corr-7"));
    assert_eq!(at(&out, "/await/prompt"), Some("ship it?"));
    let i = w.stored(&id);
    assert_eq!(at(&i.context, "/_agent_await/correlation_id"), Some("corr-7"));
    assert_eq!(at(&i.context, "/_agent_await/transition"), Some("do_work"));
    assert_eq!(i.version, 1);
}

#[test]
fn a_non_human_cannot_resume_a_parked_agent_await() {
    let (mut w, id, _) = start_and_park();
    let out = w.submit(&id, 1, "do_work", r#"{ "reply": "sneaky LLM approval" }"#).ok().unwrap();
    assert_eq!(at(&out, "/error/code"), Some("AWAIT_RESUME_NOT_HUMAN"));
    let i = w.stored(&id);
    assert_eq!(at(&i.context, "/_agent_await/correlation_id"), Some("corr-7"));
    assert_eq!(i.state, "a");
}

#[test]
fn a_human_reply_resumes_advances_and_clears_the_await_marker() {
    let (mut w, id, _) = start_and_park();
    w.subject = Principal {
        subject: "matt".to_string(),
        roles: vec![praxec_core::model::human_role().to_string()],
    };
    let out = w.submit(&id, 1, "do_work", r#"{ "reply": "yes, ship it" }"#).ok().unwrap();
    assert_eq!(at(&out, "/workflow/state"), Some("b"));
    assert!(w.stored(&id).context.get("_agent_await").is_none());
}

#[test]
fn chain_honors_subworkflow_suspend_parks_parent() {
    let mut w = World::new(
        r#"{
            "version": "1.0.0",
            "initialState": "a",
            "blackboard": { "child_result": { "type": "object" } },
            "states": {
                "a": { "actor": "agent", "transitions": { "chain_spawn": {
                    "actor": "deterministic", "target": "b",
                    "executor": { "kind": "workflow" },
                    "output": { "child_result": "$.output" }
                } } },
                "b": { "terminal": true }
            }
        }"#,
        suspending,
    );
    let out = w.start();
    let id = id_of(&out);
    assert_eq!(at(&out, "/result/status"), Some("waiting"));
    assert_eq!(at(&out, "/workflow/state"), Some("a"));
    let i = w.stored(&id);
    assert_eq!(at(&i.context, "/_subworkflow_wait/child_workflow_id"), Some("child_x"));
    assert_eq!(at(&i.context, "/_subworkflow_wait/transition"), Some("chain_spawn"));
    assert!(i.context.get("child_result").is_none());
    assert_eq!(i.state, "a");
    assert_eq!(i.version, 1);
}

fn instance_with(id: &str, context: &str) -> WorkflowInstance {
    WorkflowInstance {
        id: id.to_string(),
        definition_id: "p".to_string(),
        definition_version: "1.0.0".to_string(),
        definition: json("{}"),
        state: "a".to_string(),
        version: 1,
        input: json("{}"),
        context: json(context),
        started_at: Timestamp::new(1_700_000_000, 0).unwrap(),
        run_env: RunEnv::for_test(root()),
        cancelled_at: None,
        cancelled_reason: None,
        depth: 0,
        parent: None,
    }
}

#[test]
fn recover_suspended_locks_skips_corrupt_records() {
    let rt = Runtime::new((), (), (), (), ());
    let all = [
        instance_with(
            "wf_healthy",
            r#"{ "_lock_wait": { "files": ["src/lib.rs"], "transition": "edit" } }"#,
        ),
        instance_with(
            "wf_empty_transition",
            r#"{ "_lock_wait": { "files": ["src/lib.rs"], "transition": "" } }"#,
        ),
        instance_with("wf_empty_files", r#"{ "_lock_wait": { "files": [], "transition": "edit" } }"#),
    ];
    let mut enqueued = 0;
    let mut corrupt = 0;
    for i in &all {
        match rt.recover_suspended_locks(i) {
            LockRecovery::Enqueue { workflow_id, transition, files } => {
                enqueued += 1;
                assert_eq!(workflow_id, "wf_healthy");
                assert_eq!(transition, "edit");
                assert_eq!(files, vec!["src/lib.rs".to_string()]);
            }
            LockRecovery::Corrupt(_) => corrupt += 1,
            LockRecovery::Nothing => {}
        }
    }
    assert_eq!(enqueued, 1);
    assert_eq!(corrupt, 2);
    assert!(matches!(rt.recover_suspended_locks(&instance_with("wf", "{}")), LockRecovery::Nothing));
}

#[test]
fn a_parent_that_waits_for_its_child_is_resumed() {
    let rt = Runtime::new((), (), (), (), ());
    let i = instance_with(
        "wf_parent",
        r#"{ "_subworkflow_wait": { "child_workflow_id": "wf_child", "transition": "spawn" } }"#,
    );
    match rt.recover_suspended_subworkflows(&i) {
        ParentRecovery::Resume { expected_version, transition, .. } => {
            assert_eq!(expected_version, 1);
            assert_eq!(transition, "spawn");
        }
        _ => panic!("the parent is to be resumed"),
    }
    let broken = instance_with("wf_parent", r#"{ "_subworkflow_wait": { "child_workflow_id": "c" } }"#);
    assert!(matches!(rt.recover_suspended_subworkflows(&broken), ParentRecovery::Corrupt(_)));
    assert!(matches!(
        rt.recover_suspended_subworkflows(&instance_with("wf", "{}")),
        ParentRecovery::Nothing
    ));
}

#[test]
fn a_child_that_ends_wakes_its_parent() {
    let mut w = World::new(SUBWORKFLOW, noop);
    let id = id_of(&w.start());
    for i in 0..w.instances.len() {
        w.instances[i].context = json(
            r#"{ "_subworkflow_wait": { "child_workflow_id": "wf_child", "transition": "spawn" } }"#,
        );
    }
    let mut child = instance_with("wf_child", "{}");
    child.parent = Some(ParentLink {
        workflow_id: id.clone(),
        transition: "spawn".to_string(),
    });
    w.run("cor", &|_, r| resume_parent_if_any(&child, r));
    assert_eq!(w.stored(&id).state, "b");
    assert!(w.stored(&id).context.get("_subworkflow_wait").is_none());
}

#[test]
fn a_waiting_instance_is_driven_on() {
    let mut w = World::new(SUBWORKFLOW, noop);
    let id = id_of(&w.start());
    w.run("cor", &|_, r| redrive(&id, "spawn", &Principal::anonymous(), r));
    assert_eq!(w.stored(&id).state, "b");
}

#[test]
fn resolver_returns_state_transitions() {
    let mut w = World::new(
        r#"{
            "version": "1.0.0",
            "initialState": "a",
            "states": {
                "a": { "transitions": {
                    "alpha": { "target": "b", "actor": "agent" },
                    "beta":  { "target": "c", "actor": "agent" }
                } },
                "b": { "terminal": true },
                "c": { "terminal": true }
            }
        }"#,
        noop,
    );
    let id = id_of(&w.start());
    let i = w.stored(&id);
    let resolver = RuntimeTransitionResolver::new(());
    let avail = w.run("cor", &|_, r| resolver.available_transitions(&i, &Principal::anonymous(), &JsonMap::new(), r));
    let rels: Vec<&str> = avail.iter().filter_map(|l| l.get_str("rel")).collect();
    assert_eq!(rels, vec!["alpha", "beta"]);
}

const PIPELINE: &str = r#"{
    "version": "1.0.0",
    "initialState": "one",
    "states": {
        "one":   { "transitions": { "go": { "actor": "deterministic", "target": "two" } } },
        "two":   { "transitions": { "go": { "actor": "deterministic", "target": "three",
                    "executor": { "kind": "noop" }, "output": { "seen": "$.output" } } } },
        "three": { "terminal": true }
    }
}"#;

#[test]
fn a_chain_runs_to_its_end_with_a_record_of_every_hop() {
    let mut w = World::new(PIPELINE, noop);
    let out = w.start();
    assert_eq!(at(&out, "/workflow/state"), Some("three"));
    assert_eq!(at(&out, "/result/status"), Some("succeeded"));
    let i = w.stored(&id_of(&out));
    assert_eq!(i.version, 2);
    assert!(i.context.get("seen").is_some());
    assert_eq!(w.events("workflow.transition"), 2);
    assert_eq!(w.events("workflow.transitioned"), 2);
    assert_eq!(w.events("chain.completed"), 1);
    assert_eq!(w.events("workflow.completed"), 1);
    assert_eq!(w.executed, 1);
}

#[test]
fn a_chain_stops_where_its_executor_fails() {
    let mut w = World::new(PIPELINE, failing);
    let out = w.start();
    assert_eq!(at(&out, "/workflow/state"), Some("two"));
    assert_eq!(at(&out, "/result/status"), Some("failed"));
    assert!(compact_text(&out).contains("the tool broke"));
    assert_eq!(w.events("chain.failed"), 1);
    let i = w.stored(&id_of(&out));
    assert_eq!((i.state.as_str(), i.version), ("two", 1));
}

#[test]
fn a_chain_takes_no_more_steps_than_its_limit() {
    let mut w = World::new(
        r#"{
            "version": "1.0.0", "initialState": "a", "maxChainDepth": 3,
            "states": {
                "a": { "transitions": { "on": { "actor": "deterministic", "target": "b" } } },
                "b": { "transitions": { "on": { "actor": "deterministic", "target": "a" } } }
            }
        }"#,
        noop,
    );
    let id = id_of(&w.start());
    assert_eq!(w.stored(&id).version, 3);
}

#[test]
fn nothing_is_stored_without_its_record() {
    let mut w = World::new(PIPELINE, noop);
    let id = id_of(&{
        w.audit_fails = false;
        w.start()
    });
    let before = w.stored(&id);
    let mut w2 = World::new(SUBWORKFLOW, noop);
    let id2 = id_of(&w2.start());
    w2.audit_fails = true;
    assert!(w2.submit(&id2, 0, "spawn", "{}").is_err());
    let after = w2.stored(&id2);
    assert_eq!((after.state.as_str(), after.version), ("a", 0));
    assert_eq!(before.version, 2);
}

#[test]
fn a_transition_is_refused_for_a_reason() {
    let mut w = World::new(
        r#"{
            "version": "1.0.0", "initialState": "a",
            "states": {
                "a": { "transitions": { "go": {
                    "target": "b", "actor": "agent", "guards": [ { "kind": "flag", "slot": "ok" } ]
                } } },
                "b": { "terminal": true }
            }
        }"#,
        noop,
    );
    let id = id_of(&w.start());
    let stale = w.submit(&id, 7, "go", "{}").ok().unwrap();
    assert_eq!(at(&stale, "/error/code"), Some("STALE_WORKFLOW_VERSION"));
    let unknown = w.submit(&id, 0, "fly", "{}").ok().unwrap();
    assert_eq!(at(&unknown, "/error/code"), Some("INVALID_TRANSITION"));
    let guarded = w.submit(&id, 0, "go", "{}").ok().unwrap();
    assert_eq!(at(&guarded, "/error/code"), Some("GUARD_REJECTED"));
    let i = w.stored(&id);
    assert_eq!((i.state.as_str(), i.version), ("a", 0));
    assert_eq!(w.executed, 0);

    for k in 0..w.instances.len() {
        w.instances[k].context = json(r#"{ "ok": true }"#);
    }
    let done = w.submit(&id, 0, "go", "{}").ok().unwrap();
    assert_eq!(at(&done, "/workflow/state"), Some("b"));
}

#[test]
fn a_cancelled_instance_refuses_and_keeps_its_first_reason() {
    let mut w = World::new(SUBWORKFLOW, noop);
    let id = id_of(&w.start());
    assert!(w.run("cor", &|rt, r| rt.cancel(&id, "first", r)).is_ok());
    assert!(w.run("cor", &|rt, r| rt.cancel(&id, "second", r)).is_ok());
    let i = w.stored(&id);
    assert_eq!(i.cancelled_reason.as_deref(), Some("first"));
    assert_eq!((i.state.as_str(), i.version), ("a", 1));
    assert_eq!(w.events("workflow.cancelled"), 1);
    match w.submit(&id, 1, "spawn", "{}") {
        Err(Failure::Text(m)) => {
            assert!(m.starts_with(&format!("WORKFLOW_CANCELLED: workflow {id} was cancelled at ")), "{m}");
            assert!(m.ends_with("(reason: first)"), "{m}");
        }
        _ => panic!("a cancelled instance refuses"),
    }
    let seen = w.run("cor", &|rt, r| rt.get(&id, &Principal::anonymous(), r)).ok().unwrap();
    assert_eq!(at(&Json::Object(seen), "/result/status"), Some("cancelled"));
}

#[test]
fn a_timeout_moves_an_instance_when_it_is_due() {
    let mut w = World::new(
        r#"{
            "version": "1.0.0", "initialState": "a",
            "timeoutMs": 10000, "onTimeout": { "target": "late" },
            "states": {
                "a": { "transitions": { "go": { "target": "b", "actor": "agent" } } },
                "b": { "terminal": true },
                "late": { "terminal": true }
            }
        }"#,
        noop,
    );
    let id = id_of(&w.start());
    w.now = 9;
    let seen = w.run("cor", &|rt, r| rt.get(&id, &Principal::anonymous(), r)).ok().unwrap();
    assert_eq!(at(&Json::Object(seen), "/workflow/state"), Some("a"));
    w.now = 10;
    let seen = w.run("cor", &|rt, r| rt.get(&id, &Principal::anonymous(), r)).ok().unwrap();
    assert_eq!(at(&Json::Object(seen), "/workflow/state"), Some("late"));
    assert_eq!(w.events("workflow.timed_out"), 1);
}

#[test]
fn a_run_is_started_once_and_not_while_draining() {
    let mut w = World::new(SUBWORKFLOW, noop);
    assert!(w.start_run(Some("run-1")).is_ok());
    match w.start_run(Some("run-1")) {
        Err(Failure::RunIdAlreadyRunning { run_id, existing_workflow_id }) => {
            assert_eq!(run_id, "run-1");
            assert_eq!(existing_workflow_id, w.instances[0].id);
        }
        _ => panic!("the run is there already"),
    }
    w.rt.begin_drain();
    assert!(w.rt.is_draining());
    match w.start_run(None) {
        Err(Failure::Text(m)) => assert_eq!(m, "gateway is shutting down; please retry shortly"),
        _ => panic!("nothing starts while draining"),
    }
    assert_eq!(w.instances.len(), 1);
}

#[test]
fn a_subject_without_a_definition_stops_a_start() {
    let mut w = World::new(
        r#"{
            "version": "1.0.0", "initialState": "a", "states": { "a": {} },
            "_lexiconLibrary": { "ledger": { "state": "PENDING_DEFINITION", "bounded_context": "money" } }
        }"#,
        noop,
    );
    match w.start_run(None) {
        Err(Failure::SubjectNeedsDefinition { unknown_subject, bounded_context, .. }) => {
            assert_eq!(unknown_subject, "ledger");
            assert_eq!(bounded_context.as_deref(), Some("money"));
        }
        _ => panic!("a subject needs its definition"),
    }
    w.rt = Runtime::new((), (), (), (), ()).with_pending_subjects(vec![]);
    assert!(w.start_run(None).is_ok());
}

#[test]
fn the_first_context_keeps_what_is_declared() {
    let mut w = World::new(
        r#"{
            "version": "1.0.0", "initialState": "a", "states": { "a": {} },
            "initialContext": { "mode": "strict" }
        }"#,
        noop,
    );
    let request = StartWorkflow {
        definition_id: "p".to_string(),
        input: json(r#"{ "mode": "lax", "goal": "ship" }"#),
        principal: Principal::anonymous(),
        run_env: RunEnv::for_test(root()),
        depth: 0,
        parent: None,
    };
    let out = w.run("cor", &|rt, r| match rt.start(&request, "cor", r) {
        DispatchStep::Do(e) => Step::Do(e),
        DispatchStep::Done(o) => Step::Done(o),
        DispatchStep::Misfit => Step::Misfit,
    });
    let id = id_of(&Json::Object(out.ok().unwrap().response));
    let i = w.stored(&id);
    assert_eq!(i.context.get_str("mode"), Some("strict"));
    assert_eq!(i.context.get_str("goal"), Some("ship"));
}

#[test]
fn turns_that_choose_the_next_one_come_to_an_end() {
    let mut w = World::new(
        r#"{
            "version": "1.0.0", "initialState": "a",
            "states": { "a": { "transitions": { "again": {
                "target": "a", "actor": "agent", "executor": { "kind": "llm" }
            } } } }
        }"#,
        choosing_again,
    );
    w.rt = Runtime::new((), (), (), (), ()).with_max_chained_llm_turns(2);
    let id = id_of(&w.start());
    match w.submit(&id, 0, "again", "{}") {
        Err(Failure::ChainDepthExceeded(_)) => {}
        _ => panic!("the turns are limited"),
    }
    assert_eq!(w.executed, 3);
    assert_eq!(w.events("transition.rejected"), 1);
}

const LOOPING: &str = r#"{
    "version": "1.0.0", "initialState": "a",
    "states": {
        "a": {
            "while": { "kind": "flag", "slot": "more" }, "max_iterations": 2,
            "transitions": { "go": { "target": "b", "actor": "agent" } }
        },
        "b": { "terminal": true }
    }
}"#;

#[test]
fn a_loop_leads_back_as_often_as_its_limit_says() {
    let mut w = World::new(LOOPING, noop);
    let id = id_of(&w.start());
    for k in 0..w.instances.len() {
        w.instances[k].context = json(r#"{ "more": true }"#);
    }
    for round in 0..2 {
        let out = w.submit(&id, round, "go", "{}").ok().unwrap();
        assert_eq!(at(&out, "/workflow/state"), Some("a"));
    }
    assert_eq!(w.events("workflow.state.iteration"), 2);
    match w.submit(&id, 2, "go", "{}") {
        Err(Failure::Text(m)) => assert!(m.starts_with("WHILE_ITERATION_CAP_EXCEEDED"), "{m}"),
        _ => panic!("the loop is limited"),
    }
    let mut w = World::new(LOOPING, noop);
    let id = id_of(&w.start());
    let out = w.submit(&id, 0, "go", "{}").ok().unwrap();
    assert_eq!(at(&out, "/workflow/state"), Some("b"));
}

#[test]
fn one_candidate_is_chosen_by_its_guards_else_the_default() {
    let candidates = match json(
        r#"{
            "left":  { "target": "l", "guards": [ { "kind": "flag", "slot": "l" } ] },
            "right": { "target": "r", "guards": [ { "kind": "flag", "slot": "r" } ] },
            "rest":  { "target": "d" }
        }"#,
    ) {
        Json::Object(m) => m,
        _ => JsonMap::new(),
    };
    let mut w = World::new("{}", noop);
    for (context, expected) in [
        (r#"{ "l": true }"#, Some("left")),
        (r#"{ "r": true }"#, Some("right")),
        ("{}", Some("rest")),
        (r#"{ "l": true, "r": true }"#, None),
    ] {
        let i = instance_with("wf", context);
        let got = w.run("cor", &|_, r| select_deterministic_transition(&candidates, &i, &acting("ann"), r));
        match (got, expected) {
            (Ok((name, _)), Some(n)) => assert_eq!(name, n),
            (Err(m), None) => assert!(m.starts_with("ambiguous deterministic transition"), "{m}"),
            _ => panic!("{context}"),
        }
    }
    assert_eq!(w.events("guard.evaluated"), 8);
}

#[test]
fn a_branch_whose_guard_passes_leads_elsewhere() {
    let t = json(
        r#"{ "target": "home", "branches": [
            { "when": { "kind": "flag", "slot": "x" }, "target": "ex" },
            { "target": "nowhere" },
            { "when": { "kind": "flag", "slot": "y" }, "target": "why" }
        ] }"#,
    );
    let mut w = World::new("{}", noop);
    for (context, expected) in [("{}", "home"), (r#"{ "x": true, "y": true }"#, "ex"), (r#"{ "y": true }"#, "why")] {
        let i = instance_with("wf", context);
        let got = w.run("cor", &|_, r| resolve_target(&t, &i, &json("{}"), &acting("ann"), r));
        assert_eq!(got, Ok(expected.to_string()));
    }
    let none = w.run("cor", &|_, r| {
        resolve_target(&json("{}"), &instance_with("wf", "{}"), &json("{}"), &acting("ann"), r)
    });
    assert_eq!(none, Err("required string missing at /target".to_string()));
}

const OWNING_CHAIN: &str = r#"{
    "version": "1.0.0", "initialState": "a",
    "states": {
        "a": { "transitions": { "edit": {
            "actor": "deterministic", "target": "done",
            "executor": { "kind": "noop", "owned_files": ["src/lib.rs"] }
        } } },
        "done": { "terminal": true }
    }
}"#;

#[test]
fn a_hop_that_owns_files_holds_their_locks_while_it_runs() {
    for executor in [noop as Executor, failing as Executor] {
        let mut w = World::new(OWNING_CHAIN, executor);
        w.rt.repo_locks = Some(());
        w.start();
        assert_eq!(w.executed, 1);
        let now = w.clock();
        assert!(w.locks.held(&now).is_empty());
        let order: Vec<&str> = w
            .audit
            .iter()
            .map(|e| e.event_type.as_str())
            .filter(|t| matches!(*t, "lock.acquired" | "lock.released" | "chain.step" | "chain.failed" | "workflow.transition"))
            .collect();
        assert_eq!(&order[..3], &["lock.acquired", "chain.step", "lock.released"]);
    }
}

#[test]
fn a_hop_whose_files_another_holds_is_not_begun() {
    let mut w = World::new(OWNING_CHAIN, noop);
    hold_elsewhere(&mut w);
    let response = w.start();
    assert_eq!(at(&response, "/result/status"), Some("waiting"));
    let id = id_of(&response);
    let stored = w.stored(&id);
    assert_eq!(stored.state, "a");
    assert_eq!(
        stored.context.get("_lock_wait").and_then(|l| l.get_str("transition")),
        Some("edit")
    );
    assert_eq!(w.executed, 0);
    assert_eq!(w.queue, vec![id]);
    assert!(w.audit.iter().all(|e| e.event_type != "chain.step"));
}

#[test]
fn a_run_that_uses_up_its_hops_is_quarantined() {
    let definition = r#"{
        "version": "1.0.0", "initialState": "ping",
        "livelockHopBudget": 3,
        "states": {
            "ping": { "transitions": { "go": { "actor": "deterministic", "target": "pong" } } },
            "pong": { "transitions": { "back": { "actor": "deterministic", "target": "ping" } } }
        }
    }"#;
    let mut w = World::new(definition, noop);
    let response = w.start();
    assert_eq!(at(&response, "/result/status"), Some("cancelled"));
    assert_eq!(at(&response, "/error/code"), Some("LIVELOCK_QUARANTINE"));
    let stored = w.stored(&id_of(&response));
    assert_eq!(stored.context.get_u64("_chain_hops_total"), Some(3));
    assert_eq!(stored.state, "pong");
    assert_eq!(
        stored.cancelled_reason.as_deref(),
        Some("livelock_quarantine: exceeded cumulative chain-hop budget without terminating")
    );
}

#[test]
fn hops_are_counted_over_all_drives_of_a_run() {
    let definition = r#"{
        "version": "1.0.0", "initialState": "gate",
        "livelockHopBudget": 2,
        "states": {
            "gate": { "transitions": { "ask": { "actor": "agent", "target": "work" } } },
            "work": { "transitions": { "back": { "actor": "deterministic", "target": "gate" } } }
        }
    }"#;
    let mut w = World::new(definition, noop);
    let id = id_of(&w.start());
    for hops in [1, 2] {
        let version = w.stored(&id).version;
        assert!(w.submit(&id, version, "ask", "{}").is_ok());
        let stored = w.stored(&id);
        assert_eq!(stored.state, "gate");
        assert_eq!(stored.context.get_u64("_chain_hops_total"), Some(hops));
        assert!(stored.cancelled_at.is_none());
    }
    let version = w.stored(&id).version;
    let response = w.submit(&id, version, "ask", "{}").ok().unwrap();
    assert_eq!(at(&response, "/error/code"), Some("LIVELOCK_QUARANTINE"));
    let stored = w.stored(&id);
    assert_eq!(stored.state, "work");
    assert!(stored.cancelled_at.is_some());
}

#[test]
fn a_running_instance_keeps_the_definition_it_was_started_with() {
    let before = r#"{
        "version": "1.0.0", "initialState": "a",
        "states": {
            "a": { "transitions": { "go": { "target": "b" } } },
            "b": { "terminal": true }
        }
    }"#;
    let mut w = World::new(before, noop);
    let id = id_of(&w.start());
    w.definition = json(r#"{ "version": "2.0.0", "initialState": "z", "states": { "z": { "terminal": true } } }"#);
    let response = w.submit(&id, 0, "go", "{}").ok().unwrap();
    assert_eq!(at(&response, "/result/status"), Some("succeeded"));
    assert_eq!(w.stored(&id).state, "b");
}

#[test]
fn only_the_wait_of_the_transition_that_goes_on_is_cleared() {
    let mut context = json(
        r#"{ "_subworkflow_wait": { "child_workflow_id": "c", "transition": "spawn" },
             "_agent_await": { "correlation_id": "k", "prompt": "?", "transition": "ask" }, "x": 1 }"#,
    );
    assert!(!clear_subworkflow_wait_on_advance(&mut context, "ask"));
    assert!(context.get("_subworkflow_wait").is_some());
    assert!(clear_subworkflow_wait_on_advance(&mut context, "spawn"));
    assert!(context.get("_subworkflow_wait").is_none());
    assert!(!clear_agent_await_on_advance(&mut context, "spawn"));
    assert!(clear_agent_await_on_advance(&mut context, "ask"));
    assert_eq!(compact_text(&context), r#"{"x":1}"#);
    assert!(!clear_agent_await_on_advance(&mut Json::Null, "ask"));
}

#[test]
fn a_state_that_is_left_takes_its_own_slots_with_it() {
    let definition = json(
        r#"{ "states": { "draft": { "slots": {
            "scratch": { "scope": "state" }, "kept": { "scope": "workflow" }
        } } } }"#,
    );
    let context = r#"{ "scratch": 1, "kept": 2, "_fire_count.draft.ask": 3, "_fire_count.other.ask": 4 }"#;
    let (left, gone) = clear_state_local_slots_on_exit(&definition, "draft", "review", json(context));
    assert_eq!(compact_text(&left), r#"{"_fire_count.other.ask":4,"kept":2}"#);
    assert_eq!(gone, vec!["scratch".to_string()]);
    let (same, none) = clear_state_local_slots_on_exit(&definition, "draft", "draft", json(context));
    assert_eq!(compact_text(&same), compact_text(&json(context)));
    assert!(none.is_empty());
}

const LOCAL_SLOTS: &str = r#"{
    "version": "1.0.0", "initialState": "a",
    "states": {
        "a": {
            "slots": { "tmp": { "scope": "state" }, "kept": {} },
            "transitions": { "go": { "actor": "deterministic", "target": "b" } }
        },
        "b": { "terminal": true }
    }
}"#;

#[test]
fn a_hop_leaves_the_slots_of_its_state_behind() {
    let mut w = World::new(LOCAL_SLOTS, noop);
    let mut i = instance_with("wf", r#"{ "tmp": 1, "kept": 2, "_fire_count.a.go": 3 }"#);
    i.definition = json(LOCAL_SLOTS);
    i.state = "a".to_string();
    w.instances.push(i.clone());
    let job = ChainJob {
        auto: w.rt.auto_drive.clone(),
        evidence: false,
        locks: false,
        acting: acting("ann"),
        definition: json(LOCAL_SLOTS),
        max_depth: 10,
    };
    let end = w.run("cor", &|_, r| match run_deterministic_chain(&job, &i, r) {
        ChainMove::Do(e) => Step::Do(e),
        ChainMove::Done(o) => Step::Done(o),
        ChainMove::Misfit => Step::Misfit,
    });
    assert!(end.is_ok());
    let stored = w.stored("wf");
    assert_eq!(stored.state, "b");
    assert!(stored.context.get("tmp").is_none());
    assert!(stored.context.get("_fire_count.a.go").is_none());
    assert_eq!(stored.context.get_u64("kept"), Some(2));
    assert_eq!(w.events("workflow.slot.cleared"), 1);
    let cleared = w.audit.iter().find(|e| e.event_type == "workflow.slot.cleared").unwrap();
    assert!(cleared.payload.equals(&json(r#"{ "state": "a", "slots": ["tmp"] }"#)));
    assert_eq!(cleared.actor.as_deref(), Some("ann"));
    let record = w.audit.iter().find(|e| e.event_type == "workflow.transition").unwrap();
    let delta = record.payload.get("blackboardDelta").unwrap();
    assert!(delta.get("tmp").unwrap().equals(&Json::Null));
}

#[test]
fn guards_are_asked_for_the_one_who_acts() {
    let mut w = World::new(
        r#"{
            "version": "1.0.0", "initialState": "a",
            "states": {
                "a": { "transitions": { "go": {
                    "actor": "agent", "target": "b", "guards": [ { "kind": "flag", "slot": "x" } ]
                } } },
                "b": { "terminal": true }
            }
        }"#,
        noop,
    );
    w.subject = acting("bea").principal;
    let id = id_of(&w.start());
    let _ = w.submit(&id, 0, "go", "{}");
    assert!(!w.asked.is_empty());
    assert!(w.asked.iter().all(|s| s == "bea"));
}

const TWO_HOPS: &str = r#"{
    "version": "1.0.0", "initialState": "a",
    "states": {
        "a": { "transitions": { "go": { "actor": "deterministic", "target": "b" } } },
        "b": { "transitions": { "on": { "actor": "deterministic", "target": "c" } } },
        "c": { "terminal": true }
    }
}"#;

#[test]
fn the_steps_of_a_chain_form_a_path() {
    let mut w = World::new(TWO_HOPS, noop);
    let mut i = instance_with("wf", "{}");
    i.definition = json(TWO_HOPS);
    i.state = "a".to_string();
    i.version = 4;
    w.instances.push(i.clone());
    let job = ChainJob {
        auto: w.rt.auto_drive.clone(),
        evidence: false,
        locks: false,
        acting: acting("ann"),
        definition: json(TWO_HOPS),
        max_depth: 10,
    };
    let end = w.run("cor", &|_, r| match run_deterministic_chain(&job, &i, r) {
        ChainMove::Do(e) => Step::Do(e),
        ChainMove::Done(o) => Step::Done(o),
        ChainMove::Misfit => Step::Misfit,
    });
    match end {
        Ok(ChainOutcome::Completed(p)) => {
            let steps: Vec<(&str, &str, &str, u64)> = p
                .steps
                .iter()
                .map(|s| {
                    (s.from_state.as_str(), s.transition.as_str(), s.to_state.as_str(), s.version)
                })
                .collect();
            assert_eq!(steps, vec![("a", "go", "b", 5), ("b", "on", "c", 6)]);
            assert_eq!(p.instance.state, "c");
            assert_eq!(p.instance.version, 6);
        },
        _ => panic!("the chain did not complete"),
    }
}

fn writing_files(_config: &Json, _arguments: &Json) -> Result<ExecuteResult, ExecuteError> {
    Ok(produced(r#"["etc/passwd"]"#))
}

fn refused(definition: &str, executor: Executor, schemas_fail: bool) -> (String, usize) {
    let mut w = World::new(definition, executor);
    let id = id_of(&w.start());
    let before = w.stored(&id);
    let seen = w.audit.len();
    w.schemas_fail = schemas_fail;
    let told = w.submit(&id, 0, "go", "{}").ok().unwrap();
    let after = w.stored(&id);
    assert_eq!((after.state.as_str(), after.version), (before.state.as_str(), before.version));
    assert!(after.context.equals(&before.context));
    let entered: Vec<&str> = w.audit[seen..]
        .iter()
        .map(|e| e.event_type.as_str())
        .filter(|t| *t != "guard.evaluated")
        .collect();
    assert_eq!(entered, vec!["transition.requested", "transition.rejected"]);
    assert_eq!(at(&told, "/workflow/state"), Some("a"));
    (at(&told, "/error/code").unwrap().to_string(), w.executed)
}

#[test]
fn a_refusal_changes_nothing_whatever_its_reason() {
    let input = r#"{
        "version": "1.0.0", "initialState": "a",
        "states": {
            "a": { "transitions": { "go": {
                "target": "b", "actor": "agent", "inputSchema": { "type": "object" }
            } } },
            "b": { "terminal": true }
        }
    }"#;
    assert_eq!(refused(input, noop, true), ("INPUT_SCHEMA_VIOLATION".to_string(), 0));
    let guards = r#"{
        "version": "1.0.0", "initialState": "a",
        "states": {
            "a": { "transitions": { "go": {
                "target": "b", "actor": "agent", "guards": [ { "kind": "flag", "slot": "ok" } ]
            } } },
            "b": { "terminal": true }
        }
    }"#;
    assert_eq!(refused(guards, noop, false), ("GUARD_REJECTED".to_string(), 0));
    let files = r#"{
        "version": "1.0.0", "initialState": "a",
        "blackboard": { "files": {
            "type": "array", "constraint": { "path_allowlist": { "allow": ["src/*"] } }
        } },
        "states": {
            "a": { "transitions": { "go": {
                "target": "b", "actor": "agent",
                "executor": { "kind": "noop" }, "output": { "files": "$.output" }
            } } },
            "b": { "terminal": true }
        }
    }"#;
    assert_eq!(refused(files, writing_files, true), ("BLACKBOARD_TYPE_ERROR".to_string(), 1));
    assert_eq!(refused(files, writing_files, false), ("SLOT_CONSTRAINT_VIOLATED".to_string(), 1));
}
