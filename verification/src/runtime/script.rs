//! The questions of a drive and their replies.

use vstd::prelude::*;

use crate::json::{views, Json, JsonMap, JsonView, Members};
use crate::model::{
    Acting, ActingView, AuditEvent, AuditView, InstanceView, Principal, PrincipalView, Timestamp,
    WorkflowInstance,
};
use crate::runtime::effects::{
    conflict_views, evidence_views, opt_json, AuditMode, ChainOutcome, ErrorView, Evidence,
    EvidenceView, ExecuteError, ExecuteResult, Failure, FailureView, GuardsReply, GuardsView,
    OutcomeView, ResultView, StatusHint,
};
use crate::runtime::records::{check_views, SlotCheck, SlotCheckView};
use crate::runtime::schema::SchemaVerdict;
use crate::text::{opt_string, texts};

verus! {

/// What the record of a transition is made of.
pub struct RecordParams {
    /// The instance as it will be committed.
    pub instance: WorkflowInstance,
    /// The context before the transition.
    pub before: Json,
    pub from_state: String,
    pub transition: String,
    pub transition_def: Json,
    pub actor: String,
    pub principal: Option<String>,
    pub arguments: Json,
    pub guards: Vec<Json>,
    pub child_workflow_id: Option<String>,
    /// Whether the executor did well and how many milliseconds it took, if it ran.
    pub executor: Option<(bool, u64)>,
}

/// The model of what a record is made of.
pub struct RecordView {
    pub instance: InstanceView,
    pub before: JsonView,
    pub from_state: Seq<char>,
    pub transition: Seq<char>,
    pub transition_def: JsonView,
    pub actor: Seq<char>,
    pub principal: Option<Seq<char>>,
    pub arguments: JsonView,
    pub guards: Seq<JsonView>,
    pub child_workflow_id: Option<Seq<char>>,
    pub executor: Option<(bool, u64)>,
}

impl RecordParams {
    pub open spec fn view(&self) -> RecordView {
        RecordView {
            instance: self.instance@,
            before: self.before@,
            from_state: self.from_state@,
            transition: self.transition@,
            transition_def: self.transition_def@,
            actor: self.actor@,
            principal: opt_string(self.principal),
            arguments: self.arguments@,
            guards: views(self.guards@),
            child_workflow_id: opt_string(self.child_workflow_id),
            executor: self.executor,
        }
    }
}

/// Something to be done.
pub enum Effect {
    /// Look up an instance.
    Load { workflow_id: String },
    /// Look up a definition.
    LoadDefinition { definition_id: String },
    /// Look up the instance of a run.
    FindRun { run_id: String },
    /// Store a new instance.
    Create { instance: WorkflowInstance },
    /// Store an instance if the stored one has this version.
    Save { instance: WorkflowInstance, expected_version: u64 },
    /// Touch an instance after so many milliseconds, so that its timeout applies.
    Watch { workflow_id: String, timeout_ms: u64 },
    /// Write an audit entry.
    Audit { event: AuditEvent, mode: AuditMode },
    /// Write the record of a transition.
    Record { params: RecordParams, correlation_id: String },
    /// Apply the timeout of an instance.
    CheckTimeout { instance: WorkflowInstance, principal: Principal },
    /// Read the clock.
    Now,
    /// Hold a value against a schema.
    CheckSchema { schema: Json, value: Json },
    /// Hold what was written against the schemas of the slots.
    CheckSlots { checks: Vec<SlotCheck> },
    /// Ask the guards of a transition.
    PassGuards {
        transition_def: Json,
        instance: WorkflowInstance,
        arguments: Json,
        acting: Acting,
    },
    /// Choose among transitions that the runtime fires itself.
    Select { candidates: JsonMap, instance: WorkflowInstance, acting: Acting },
    /// Read a reliability policy.
    ParsePolicy { reliability: Option<Json> },
    /// Take the locks of files.
    Acquire { files: Vec<String>, holder: String, ttl_secs: u64 },
    /// Give the locks of files back.
    Release { files: Vec<String>, holder: String },
    /// Resubmit for those whose files are free now.
    ResumeReadyLocks,
    /// Wait in line for files.
    Enqueue { workflow_id: String, transition: String, files: Vec<String>, principal: Principal },
    /// Run an executor.
    Execute {
        instance: WorkflowInstance,
        fired: Option<String>,
        arguments: Json,
        config: Json,
        reliability: Option<Json>,
        correlation_id: String,
    },
    /// Write what an executor produced into a context.
    Merge {
        context: Json,
        output: Option<Json>,
        arguments: Json,
        input: Json,
        result: Json,
    },
    /// Choose the state that a transition leads to.
    ResolveTarget {
        transition_def: Json,
        instance: WorkflowInstance,
        arguments: Json,
        acting: Acting,
    },
    /// Apply the loop of the state that is left.
    Loop { from_state: String, instance: WorkflowInstance, arguments: Json, acting: Acting },
    /// Keep evidence.
    KeepEvidence { workflow_id: String, evidence: Vec<Evidence> },
    /// Run what a state does when it is entered.
    OnEnter { instance: WorkflowInstance, correlation_id: String },
    /// Run the chain from a state.
    Chain { instance: WorkflowInstance, max_depth: u64, acting: Acting },
    /// Report how a mission ended.
    EmitOutcome { hint: StatusHint, instance: WorkflowInstance, acting: Acting },
    /// Resubmit for the instance that waits for this one.
    ResumeParent { instance: WorkflowInstance },
    /// Cancel an instance.
    Cancel { workflow_id: String, reason: String },
    /// Ask one guard.
    AskGuard { guard: Json, instance: WorkflowInstance, arguments: Json, principal: Principal },
    /// Say how a mission stands. `outcome` is the marker of a state at which it ends.
    DeriveStatus {
        hint: StatusHint,
        terminal: bool,
        outcome: Option<String>,
        outcomes_met: bool,
        awaiting_human: bool,
    },
    /// Resolve the `prefill` declarations of the transitions of the instance's state.
    ResolvePrefills { instance: WorkflowInstance },
    /// List the locks that are held.
    ListLocks,
    /// Write the entry of how a mission ended.
    RecordOutcome {
        workflow_id: String,
        definition_id: String,
        task_class: Option<String>,
        outcomes_met: bool,
        outcomes_total: usize,
        status: String,
        reason: Option<String>,
        correlation_id: String,
    },
    /// Make the id of a new instance.
    NewId,
    /// Submit a transition without arguments.
    Submit { workflow_id: String, expected_version: u64, transition: String, principal: Principal },
    /// Build a response.
    Respond {
        instance: WorkflowInstance,
        hint: StatusHint,
        error: Option<Json>,
        principal: Principal,
    },
}

/// The model of something to be done.
pub enum EffectView {
    Load { workflow_id: Seq<char> },
    LoadDefinition { definition_id: Seq<char> },
    FindRun { run_id: Seq<char> },
    Create { instance: InstanceView },
    Save { instance: InstanceView, expected_version: u64 },
    Watch { workflow_id: Seq<char>, timeout_ms: u64 },
    Audit { event: AuditView, mode: AuditMode },
    Record { params: RecordView, correlation_id: Seq<char> },
    CheckTimeout { instance: InstanceView, principal: PrincipalView },
    Now,
    CheckSchema { schema: JsonView, value: JsonView },
    CheckSlots { checks: Seq<SlotCheckView> },
    PassGuards {
        transition_def: JsonView,
        instance: InstanceView,
        arguments: JsonView,
        acting: ActingView,
    },
    Select { candidates: Members, instance: InstanceView, acting: ActingView },
    ParsePolicy { reliability: Option<JsonView> },
    Acquire { files: Seq<Seq<char>>, holder: Seq<char>, ttl_secs: u64 },
    Release { files: Seq<Seq<char>>, holder: Seq<char> },
    ResumeReadyLocks,
    Enqueue {
        workflow_id: Seq<char>,
        transition: Seq<char>,
        files: Seq<Seq<char>>,
        principal: PrincipalView,
    },
    Execute {
        instance: InstanceView,
        fired: Option<Seq<char>>,
        arguments: JsonView,
        config: JsonView,
        reliability: Option<JsonView>,
        correlation_id: Seq<char>,
    },
    Merge {
        context: JsonView,
        output: Option<JsonView>,
        arguments: JsonView,
        input: JsonView,
        result: JsonView,
    },
    ResolveTarget {
        transition_def: JsonView,
        instance: InstanceView,
        arguments: JsonView,
        acting: ActingView,
    },
    Loop { from_state: Seq<char>, instance: InstanceView, arguments: JsonView, acting: ActingView },
    KeepEvidence { workflow_id: Seq<char>, evidence: Seq<EvidenceView> },
    OnEnter { instance: InstanceView, correlation_id: Seq<char> },
    Chain { instance: InstanceView, max_depth: u64, acting: ActingView },
    EmitOutcome { hint: StatusHint, instance: InstanceView, acting: ActingView },
    ResumeParent { instance: InstanceView },
    Cancel { workflow_id: Seq<char>, reason: Seq<char> },
    AskGuard {
        guard: JsonView,
        instance: InstanceView,
        arguments: JsonView,
        principal: PrincipalView,
    },
    DeriveStatus {
        hint: StatusHint,
        terminal: bool,
        outcome: Option<Seq<char>>,
        outcomes_met: bool,
        awaiting_human: bool,
    },
    ResolvePrefills { instance: InstanceView },
    ListLocks,
    RecordOutcome {
        workflow_id: Seq<char>,
        definition_id: Seq<char>,
        task_class: Option<Seq<char>>,
        outcomes_met: bool,
        outcomes_total: usize,
        status: Seq<char>,
        reason: Option<Seq<char>>,
        correlation_id: Seq<char>,
    },
    NewId,
    Submit {
        workflow_id: Seq<char>,
        expected_version: u64,
        transition: Seq<char>,
        principal: PrincipalView,
    },
    Respond {
        instance: InstanceView,
        hint: StatusHint,
        error: Option<JsonView>,
        principal: PrincipalView,
    },
}

impl Effect {
    pub open spec fn view(&self) -> EffectView {
        match self {
            Effect::Load { workflow_id } => EffectView::Load { workflow_id: workflow_id@ },
            Effect::LoadDefinition { definition_id } => EffectView::LoadDefinition {
                definition_id: definition_id@,
            },
            Effect::FindRun { run_id } => EffectView::FindRun { run_id: run_id@ },
            Effect::Create { instance } => EffectView::Create { instance: instance@ },
            Effect::Save { instance, expected_version } => EffectView::Save {
                instance: instance@,
                expected_version: *expected_version,
            },
            Effect::Watch { workflow_id, timeout_ms } => EffectView::Watch {
                workflow_id: workflow_id@,
                timeout_ms: *timeout_ms,
            },
            Effect::Audit { event, mode } => EffectView::Audit { event: event@, mode: *mode },
            Effect::Record { params, correlation_id } => EffectView::Record {
                correlation_id: correlation_id@,
                params: params@,
            },
            Effect::CheckTimeout { instance, principal } => EffectView::CheckTimeout {
                principal: principal@,
                instance: instance@,
            },
            Effect::Now => EffectView::Now,
            Effect::CheckSchema { schema, value } => EffectView::CheckSchema {
                schema: schema@,
                value: value@,
            },
            Effect::CheckSlots { checks } => EffectView::CheckSlots {
                checks: check_views(checks@),
            },
            Effect::PassGuards { transition_def, instance, arguments, acting } => EffectView::PassGuards {
                acting: acting@,
                transition_def: transition_def@,
                instance: instance@,
                arguments: arguments@,
            },
            Effect::Select { candidates, instance, acting } => EffectView::Select {
                acting: acting@,
                candidates: candidates@,
                instance: instance@,
            },
            Effect::ParsePolicy { reliability } => EffectView::ParsePolicy {
                reliability: opt_json(*reliability),
            },
            Effect::Acquire { files, holder, ttl_secs } => EffectView::Acquire {
                ttl_secs: *ttl_secs,
                files: texts(files@),
                holder: holder@,
            },
            Effect::Release { files, holder } => EffectView::Release {
                files: texts(files@),
                holder: holder@,
            },
            Effect::ResumeReadyLocks => EffectView::ResumeReadyLocks,
            Effect::Enqueue { workflow_id, transition, files, principal } => EffectView::Enqueue {
                principal: principal@,
                workflow_id: workflow_id@,
                transition: transition@,
                files: texts(files@),
            },
            Effect::Execute { instance, fired, arguments, config, reliability, correlation_id } => {
                EffectView::Execute {
                correlation_id: correlation_id@,
                    instance: instance@,
                    fired: opt_string(*fired),
                    arguments: arguments@,
                    config: config@,
                    reliability: opt_json(*reliability),
                }
            },
            Effect::Merge { context, output, arguments, input, result } => EffectView::Merge {
                context: context@,
                output: opt_json(*output),
                arguments: arguments@,
                input: input@,
                result: result@,
            },
            Effect::ResolveTarget { transition_def, instance, arguments, acting } => {
                EffectView::ResolveTarget {
                acting: acting@,
                    transition_def: transition_def@,
                    instance: instance@,
                    arguments: arguments@,
                }
            },
            Effect::Loop { from_state, instance, arguments, acting } => EffectView::Loop {
                acting: acting@,
                from_state: from_state@,
                instance: instance@,
                arguments: arguments@,
            },
            Effect::KeepEvidence { workflow_id, evidence } => EffectView::KeepEvidence {
                workflow_id: workflow_id@,
                evidence: evidence_views(evidence@),
            },
            Effect::OnEnter { instance, correlation_id } => EffectView::OnEnter {
                correlation_id: correlation_id@,
                instance: instance@,
            },
            Effect::Chain { instance, max_depth, acting } => EffectView::Chain {
                acting: acting@,
                instance: instance@,
                max_depth: *max_depth,
            },
            Effect::EmitOutcome { hint, instance, acting } => EffectView::EmitOutcome {
                acting: acting@,
                hint: *hint,
                instance: instance@,
            },
            Effect::ResumeParent { instance } => EffectView::ResumeParent { instance: instance@ },
            Effect::Cancel { workflow_id, reason } => EffectView::Cancel {
                workflow_id: workflow_id@,
                reason: reason@,
            },
            Effect::AskGuard { guard, instance, arguments, principal } => EffectView::AskGuard {
                principal: principal@,
                guard: guard@,
                instance: instance@,
                arguments: arguments@,
            },
            Effect::DeriveStatus { hint, terminal, outcome, outcomes_met, awaiting_human } => {
                EffectView::DeriveStatus {
                    hint: *hint,
                    terminal: *terminal,
                    outcome: opt_string(*outcome),
                    outcomes_met: *outcomes_met,
                    awaiting_human: *awaiting_human,
                }
            },
            Effect::ResolvePrefills { instance } => EffectView::ResolvePrefills {
                instance: instance@,
            },
            Effect::ListLocks => EffectView::ListLocks,
            Effect::RecordOutcome {
                workflow_id,
                definition_id,
                task_class,
                outcomes_met,
                outcomes_total,
                status,
                reason,
                correlation_id,
            } => EffectView::RecordOutcome {
                correlation_id: correlation_id@,
                workflow_id: workflow_id@,
                definition_id: definition_id@,
                task_class: opt_string(*task_class),
                outcomes_met: *outcomes_met,
                outcomes_total: *outcomes_total,
                status: status@,
                reason: opt_string(*reason),
            },
            Effect::NewId => EffectView::NewId,
            Effect::Submit { workflow_id, expected_version, transition, principal } => EffectView::Submit {
                principal: principal@,
                workflow_id: workflow_id@,
                expected_version: *expected_version,
                transition: transition@,
            },
            Effect::Respond { instance, hint, error, principal } => EffectView::Respond {
                principal: principal@,
                instance: instance@,
                hint: *hint,
                error: opt_json(*error),
            },
        }
    }
}

/// Why a guard could not be asked.
pub struct GuardFault {
    /// Whether it reads a slot that is not set.
    pub unset_slot: bool,
    pub message: String,
}

/// The model of why a guard could not be asked.
pub struct FaultView {
    pub unset_slot: bool,
    pub message: Seq<char>,
}

impl GuardFault {
    pub open spec fn view(&self) -> FaultView {
        FaultView { unset_slot: self.unset_slot, message: self.message@ }
    }
}

/// What a drive does next: something, or it is at its end. `Misfit` says that the last reply
/// is none to what was asked.
pub enum Step<T> {
    Do(Effect),
    Done(T),
    Misfit,
}

/// The model of what a drive does next.
pub enum StepView<V> {
    Do(EffectView),
    Done(V),
    Misfit,
}

impl<T> Step<T> {
    /// The model of a step, given the model of its end.
    pub open spec fn seen<V>(self, f: spec_fn(T) -> V) -> StepView<V> {
        match self {
            Step::Do(e) => StepView::Do(e@),
            Step::Done(t) => StepView::Done(f(t)),
            Step::Misfit => StepView::Misfit,
        }
    }
}

/// What came of something that was to be done.
pub enum Reply {
    /// It was done, or it failed.
    Done(Result<(), String>),
    /// The instance that was looked up or is stored now.
    Instance(Result<WorkflowInstance, Failure>),
    /// The definition that was looked up.
    Definition(Result<Json, String>),
    /// The instance of a run, if there is one.
    Run(Result<Option<String>, String>),
    /// The instance after its timeout, if that applied.
    TimedOut(Result<Option<WorkflowInstance>, Failure>),
    /// The time.
    Time(Timestamp),
    /// What a schema says.
    Verdict(SchemaVerdict),
    /// What the schemas say, one for each check.
    Verdicts(Vec<SchemaVerdict>),
    /// What the guards say.
    Guards(GuardsReply),
    /// The transition that was chosen.
    Selected(Result<(String, Json), String>),
    /// The locks were taken, or others have some of them.
    Locks(Result<(), Vec<(String, String)>>),
    /// What an executor produced, and how many milliseconds it took.
    Executed { result: Result<ExecuteResult, ExecuteError>, elapsed_ms: u64 },
    /// The context with what was written into it.
    Merged(Result<Json, String>),
    /// The state that was chosen.
    Target(Result<String, String>),
    /// The instance after the loop, and the state that the loop leads back to.
    Looped(Result<(WorkflowInstance, Option<String>), String>),
    /// How a chain ended.
    Chained(Result<ChainOutcome, Failure>),
    /// Whether a guard passes, and what it says was the cause where it does not.
    Judged(Result<(bool, Option<String>), GuardFault>),
    /// How a mission stands: its part of the response, its name, and the reason.
    Mission { result: Json, status: String, reason: Option<String> },
    /// What the `prefill` declarations were resolved to, by transition.
    Prefilled(JsonMap),
    /// The files that are locked, with their holders.
    Held(Vec<(String, String)>),
    /// A new id.
    Id(String),
    /// The response.
    Response(JsonMap),
}

/// The model of a reply.
pub enum ReplyView {
    Done(Result<(), Seq<char>>),
    Instance(Result<InstanceView, FailureView>),
    Definition(Result<JsonView, Seq<char>>),
    Run(Result<Option<Seq<char>>, Seq<char>>),
    TimedOut(Result<Option<InstanceView>, FailureView>),
    Time(int),
    Verdict(SchemaVerdict),
    Verdicts(Seq<SchemaVerdict>),
    Guards(GuardsView),
    Selected(Result<(Seq<char>, JsonView), Seq<char>>),
    Locks(Result<(), Seq<(Seq<char>, Seq<char>)>>),
    Executed { result: Result<ResultView, ErrorView>, elapsed_ms: u64 },
    Merged(Result<JsonView, Seq<char>>),
    Target(Result<Seq<char>, Seq<char>>),
    Looped(Result<(InstanceView, Option<Seq<char>>), Seq<char>>),
    Chained(Result<OutcomeView, FailureView>),
    Judged(Result<(bool, Option<Seq<char>>), FaultView>),
    Mission { result: JsonView, status: Seq<char>, reason: Option<Seq<char>> },
    Prefilled(Members),
    Held(Seq<(Seq<char>, Seq<char>)>),
    Id(Seq<char>),
    Response(Members),
}

impl Reply {
    pub open spec fn view(&self) -> ReplyView {
        match self {
            Reply::Done(Ok(_)) => ReplyView::Done(Ok(())),
            Reply::Done(Err(e)) => ReplyView::Done(Err(e@)),
            Reply::Instance(Ok(i)) => ReplyView::Instance(Ok(i@)),
            Reply::Instance(Err(e)) => ReplyView::Instance(Err(e@)),
            Reply::Definition(Ok(d)) => ReplyView::Definition(Ok(d@)),
            Reply::Definition(Err(e)) => ReplyView::Definition(Err(e@)),
            Reply::Run(Ok(r)) => ReplyView::Run(Ok(opt_string(*r))),
            Reply::Run(Err(e)) => ReplyView::Run(Err(e@)),
            Reply::TimedOut(Ok(Some(i))) => ReplyView::TimedOut(Ok(Some(i@))),
            Reply::TimedOut(Ok(None)) => ReplyView::TimedOut(Ok(None)),
            Reply::TimedOut(Err(e)) => ReplyView::TimedOut(Err(e@)),
            Reply::Time(t) => ReplyView::Time(t@),
            Reply::Verdict(v) => ReplyView::Verdict(*v),
            Reply::Verdicts(v) => ReplyView::Verdicts(v@),
            Reply::Guards(g) => ReplyView::Guards(g@),
            Reply::Selected(Ok((n, t))) => ReplyView::Selected(Ok((n@, t@))),
            Reply::Selected(Err(e)) => ReplyView::Selected(Err(e@)),
            Reply::Locks(Ok(_)) => ReplyView::Locks(Ok(())),
            Reply::Locks(Err(c)) => ReplyView::Locks(Err(conflict_views(c@))),
            Reply::Executed { result: Ok(r), elapsed_ms } => ReplyView::Executed {
                result: Ok(r@),
                elapsed_ms: *elapsed_ms,
            },
            Reply::Executed { result: Err(e), elapsed_ms } => ReplyView::Executed {
                result: Err(e@),
                elapsed_ms: *elapsed_ms,
            },
            Reply::Merged(Ok(c)) => ReplyView::Merged(Ok(c@)),
            Reply::Merged(Err(e)) => ReplyView::Merged(Err(e@)),
            Reply::Target(Ok(s)) => ReplyView::Target(Ok(s@)),
            Reply::Target(Err(e)) => ReplyView::Target(Err(e@)),
            Reply::Looped(Ok((i, t))) => ReplyView::Looped(Ok((i@, opt_string(*t)))),
            Reply::Looped(Err(e)) => ReplyView::Looped(Err(e@)),
            Reply::Chained(Ok(o)) => ReplyView::Chained(Ok(o@)),
            Reply::Chained(Err(e)) => ReplyView::Chained(Err(e@)),
            Reply::Judged(Ok((pass, d))) => ReplyView::Judged(Ok((*pass, opt_string(*d)))),
            Reply::Judged(Err(f)) => ReplyView::Judged(Err(f@)),
            Reply::Mission { result, status, reason } => ReplyView::Mission {
                result: result@,
                status: status@,
                reason: opt_string(*reason),
            },
            Reply::Prefilled(m) => ReplyView::Prefilled(m@),
            Reply::Held(h) => ReplyView::Held(conflict_views(h@)),
            Reply::Id(s) => ReplyView::Id(s@),
            Reply::Response(m) => ReplyView::Response(m@),
        }
    }
}

pub open spec fn reply_views(s: Seq<Reply>) -> Seq<ReplyView> {
    s.map_values(|r: Reply| r@)
}

/// The replies from one on.
#[verifier::opaque]
pub open spec fn rest(replies: Seq<Reply>, from: int) -> Seq<ReplyView> {
    reply_views(replies).skip(from)
}

/// The first reply of those that are left.
pub open spec fn first(replies: Seq<ReplyView>) -> Option<ReplyView> {
    if replies.len() == 0 {
        None
    } else {
        Some(replies[0])
    }
}

/// Whether an instance can be moved on: its version can still grow.
pub open spec fn can_grow(i: InstanceView) -> bool {
    i.version < u64::MAX
}

/// The instance that a chain left behind.
pub open spec fn chain_end(o: OutcomeView) -> InstanceView {
    match o {
        OutcomeView::Completed(p) => p.instance,
        OutcomeView::Failed { partial, .. } => partial.instance,
        OutcomeView::Suspended { partial, .. } => partial.instance,
        OutcomeView::WaitingOnLock { partial, .. } => partial.instance,
        OutcomeView::Quarantined { partial, .. } => partial.instance,
    }
}

/// Whether the instances of a reply can be moved on.
pub open spec fn sound_reply(r: ReplyView) -> bool {
    match r {
        ReplyView::Instance(Ok(i)) => can_grow(i),
        ReplyView::TimedOut(Ok(Some(i))) => can_grow(i),
        ReplyView::Looped(Ok((i, _))) => can_grow(i),
        ReplyView::Chained(Ok(o)) => can_grow(chain_end(o)),
        _ => true,
    }
}

/// Whether the instances of all replies can be moved on.
pub open spec fn sound(replies: Seq<Reply>) -> bool {
    forall|k: int| 0 <= k < replies.len() ==> sound_reply((#[trigger] replies[k])@)
}

/// The reply at an index, if there is one.
pub fn reply_at<'a>(replies: &'a Vec<Reply>, at: usize) -> (r: Option<&'a Reply>)
    requires
        at <= replies@.len(),
        sound(replies@),
    ensures
        match r {
            Some(x) => {
                &&& sound_reply(x@)
                &&& at < replies@.len() <= usize::MAX
                &&& first(rest(replies@, at as int)) == Some(x@)
                &&& rest(replies@, at as int).drop_first() == rest(replies@, at + 1)
                &&& rest(replies@, at as int).len() == replies@.len() - at
            },
            None => first(rest(replies@, at as int)) is None,
        },
{
    reveal(rest);
    if at < replies.len() {
        let x = &replies[at];
        proof {
            let all = reply_views(replies@);
            assert(all.len() == replies@.len());
            assert(all[at as int] == x@);
            assert(all.skip(at as int).drop_first() =~= all.skip(at + 1));
        }
        Some(x)
    } else {
        None
    }
}

} // verus!
