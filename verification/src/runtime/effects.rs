//! What the runtime asks of the world around it, and what it is told.
//!
//! A drive is a function of the replies so far: it names the next thing to do, or ends.
//! Whoever drives does that thing, adds the reply, and asks again.

use vstd::prelude::*;

use crate::json::{opt_view, views, Json, JsonView};
use crate::model::{InstanceView, WorkflowInstance};
use crate::run_env::copy_opt;
use crate::text::{opt_string, texts};

verus! {

/// Why a drive ended without a result.
pub enum Failure {
    Text(String),
    /// The record of a transition was not written, so the transition was not committed.
    RecordWriteFailed { workflow_id: String, seq: u64, source: String },
    RunIdAlreadyRunning { run_id: String, existing_workflow_id: String },
    SubjectNeedsDefinition {
        unknown_subject: String,
        bounded_context: Option<String>,
        workflow_id_context: String,
    },
    ChainDepthExceeded(String),
}

/// The model of a failure.
pub enum FailureView {
    Text(Seq<char>),
    RecordWriteFailed { workflow_id: Seq<char>, seq: u64, source: Seq<char> },
    RunIdAlreadyRunning { run_id: Seq<char>, existing_workflow_id: Seq<char> },
    SubjectNeedsDefinition {
        unknown_subject: Seq<char>,
        bounded_context: Option<Seq<char>>,
        workflow_id_context: Seq<char>,
    },
    ChainDepthExceeded(Seq<char>),
}

impl Failure {
    pub open spec fn view(&self) -> FailureView {
        match self {
            Failure::Text(m) => FailureView::Text(m@),
            Failure::RecordWriteFailed { workflow_id, seq, source } => {
                FailureView::RecordWriteFailed {
                    workflow_id: workflow_id@,
                    seq: *seq,
                    source: source@,
                }
            },
            Failure::RunIdAlreadyRunning { run_id, existing_workflow_id } => {
                FailureView::RunIdAlreadyRunning {
                    run_id: run_id@,
                    existing_workflow_id: existing_workflow_id@,
                }
            },
            Failure::SubjectNeedsDefinition {
                unknown_subject,
                bounded_context,
                workflow_id_context,
            } => FailureView::SubjectNeedsDefinition {
                unknown_subject: unknown_subject@,
                bounded_context: opt_string(*bounded_context),
                workflow_id_context: workflow_id_context@,
            },
            Failure::ChainDepthExceeded(m) => FailureView::ChainDepthExceeded(m@),
        }
    }
}

impl Clone for Failure {
    fn clone(&self) -> (r: Failure)
        ensures
            r@ == self@,
    {
        match self {
            Failure::Text(m) => Failure::Text(m.clone()),
            Failure::RecordWriteFailed { workflow_id, seq, source } => Failure::RecordWriteFailed {
                workflow_id: workflow_id.clone(),
                seq: *seq,
                source: source.clone(),
            },
            Failure::RunIdAlreadyRunning { run_id, existing_workflow_id } => {
                Failure::RunIdAlreadyRunning {
                    run_id: run_id.clone(),
                    existing_workflow_id: existing_workflow_id.clone(),
                }
            },
            Failure::SubjectNeedsDefinition {
                unknown_subject,
                bounded_context,
                workflow_id_context,
            } => Failure::SubjectNeedsDefinition {
                unknown_subject: unknown_subject.clone(),
                bounded_context: copy_opt(bounded_context),
                workflow_id_context: workflow_id_context.clone(),
            },
            Failure::ChainDepthExceeded(m) => Failure::ChainDepthExceeded(m.clone()),
        }
    }
}

/// What happened, as far as the status of a response depends on it.
#[derive(Debug, Clone, Copy, PartialEq, Eq, Structural)]
pub enum StatusHint {
    Started,
    Executed,
    Failed,
    Rejected,
    TimedOut,
    Cancelled,
    WaitingForAction,
    WaitingOnLock,
    WaitingOnSubworkflow,
    WaitingOnAgentAwait,
}

/// What becomes of the drive when an audit entry cannot be written.
#[derive(Debug, Clone, Copy, PartialEq, Eq, Structural)]
pub enum AuditMode {
    /// The drive ends with the error.
    Required,
    /// An entry `audit.write_failed` is tried, and the drive goes on.
    SelfEvent,
    /// The drive goes on.
    Ignored,
}

/// A transition that an executor chose as the next one.
pub struct NextTransition {
    pub transition: String,
    pub arguments: Json,
    pub summary: Option<String>,
}

/// The model of a chosen transition.
pub struct NextView {
    pub transition: Seq<char>,
    pub arguments: JsonView,
    pub summary: Option<Seq<char>>,
}

impl NextTransition {
    pub open spec fn view(&self) -> NextView {
        NextView {
            transition: self.transition@,
            arguments: self.arguments@,
            summary: opt_string(self.summary),
        }
    }
}

impl Clone for NextTransition {
    fn clone(&self) -> (r: NextTransition)
        ensures
            r@ == self@,
    {
        NextTransition {
            transition: self.transition.clone(),
            arguments: self.arguments.clone(),
            summary: copy_opt(&self.summary),
        }
    }
}

pub open spec fn opt_next(n: Option<NextTransition>) -> Option<NextView> {
    match n {
        Some(n) => Some(n@),
        None => None,
    }
}

pub fn copy_next(n: &Option<NextTransition>) -> (r: Option<NextTransition>)
    ensures
        opt_next(r) == opt_next(*n),
{
    match n {
        Some(n) => Some(n.clone()),
        None => None,
    }
}

/// A piece of evidence. `fault` is its confidence as a text, where that is out of range.
pub struct Evidence {
    pub kind: String,
    pub id: String,
    pub body: Json,
    pub fault: Option<String>,
}

/// The model of a piece of evidence.
pub struct EvidenceView {
    pub kind: Seq<char>,
    pub id: Seq<char>,
    pub body: JsonView,
    pub fault: Option<Seq<char>>,
}

impl Evidence {
    pub open spec fn view(&self) -> EvidenceView {
        EvidenceView {
            kind: self.kind@,
            id: self.id@,
            body: self.body@,
            fault: opt_string(self.fault),
        }
    }
}

impl Clone for Evidence {
    fn clone(&self) -> (r: Evidence)
        ensures
            r@ == self@,
    {
        Evidence {
            kind: self.kind.clone(),
            id: self.id.clone(),
            body: self.body.clone(),
            fault: copy_opt(&self.fault),
        }
    }
}

pub open spec fn evidence_views(s: Seq<Evidence>) -> Seq<EvidenceView> {
    s.map_values(|e: Evidence| e@)
}

/// The bodies of pieces of evidence.
pub open spec fn bodies(s: Seq<EvidenceView>) -> Seq<JsonView> {
    s.map_values(|e: EvidenceView| e.body)
}

/// Both lists, one after the other.
pub fn join_evidence(a: &Vec<Evidence>, b: &Vec<Evidence>) -> (r: Vec<Evidence>)
    ensures
        evidence_views(r@) == evidence_views(a@) + evidence_views(b@),
{
    let mut out: Vec<Evidence> = Vec::new();
    let ghost all = evidence_views(a@) + evidence_views(b@);
    let mut i: usize = 0;
    assert(evidence_views(out@) =~= all.take(0));
    while i < a.len()
        invariant
            i <= a@.len(),
            all == evidence_views(a@) + evidence_views(b@),
            evidence_views(out@) == all.take(i as int),
        decreases a@.len() - i,
    {
        let ghost before = out@;
        let e = a[i].clone();
        out.push(e);
        assert(evidence_views(out@) =~= evidence_views(before).push(a@[i as int]@));
        assert(all.take(i + 1) =~= all.take(i as int).push(a@[i as int]@));
        i = i + 1;
    }
    i = 0;
    while i < b.len()
        invariant
            i <= b@.len(),
            all == evidence_views(a@) + evidence_views(b@),
            evidence_views(out@) == all.take(a@.len() + i),
        decreases b@.len() - i,
    {
        let ghost before = out@;
        let e = b[i].clone();
        out.push(e);
        assert(evidence_views(out@) =~= evidence_views(before).push(b@[i as int]@));
        assert(all.take(a@.len() + i + 1) =~= all.take(a@.len() + i).push(b@[i as int]@));
        i = i + 1;
    }
    assert(all.take(a@.len() + i) =~= all);
    out
}

pub fn copy_evidence(a: &Vec<Evidence>) -> (r: Vec<Evidence>)
    ensures
        evidence_views(r@) == evidence_views(a@),
{
    let none: Vec<Evidence> = Vec::new();
    let r = join_evidence(a, &none);
    assert(evidence_views(a@) + evidence_views(none@) =~= evidence_views(a@));
    r
}

pub fn evidence_bodies(a: &Vec<Evidence>) -> (r: Vec<Json>)
    ensures
        views(r@) == bodies(evidence_views(a@)),
{
    let mut out: Vec<Json> = Vec::new();
    let mut i: usize = 0;
    while i < a.len()
        invariant
            i <= a@.len(),
            i == out@.len(),
            forall|j: int| 0 <= j < i ==> (#[trigger] out@[j])@ == a@[j].body@,
        decreases a@.len() - i,
    {
        out.push(a[i].body.clone());
        i = i + 1;
    }
    assert(views(out@) =~= bodies(evidence_views(a@)));
    out
}

/// Why an executor parked instead of going on.
pub enum StepSuspend {
    /// Another instance has to end first.
    Subworkflow { child_workflow_id: String },
    /// A person has to answer first.
    AgentAwait { correlation_id: String, prompt: String },
}

/// The model of a suspension.
pub enum SuspendView {
    Subworkflow { child_workflow_id: Seq<char> },
    AgentAwait { correlation_id: Seq<char>, prompt: Seq<char> },
}

impl StepSuspend {
    pub open spec fn view(&self) -> SuspendView {
        match self {
            StepSuspend::Subworkflow { child_workflow_id } => SuspendView::Subworkflow {
                child_workflow_id: child_workflow_id@,
            },
            StepSuspend::AgentAwait { correlation_id, prompt } => SuspendView::AgentAwait {
                correlation_id: correlation_id@,
                prompt: prompt@,
            },
        }
    }
}

impl Clone for StepSuspend {
    fn clone(&self) -> (r: StepSuspend)
        ensures
            r@ == self@,
    {
        match self {
            StepSuspend::Subworkflow { child_workflow_id } => StepSuspend::Subworkflow {
                child_workflow_id: child_workflow_id.clone(),
            },
            StepSuspend::AgentAwait { correlation_id, prompt } => StepSuspend::AgentAwait {
                correlation_id: correlation_id.clone(),
                prompt: prompt.clone(),
            },
        }
    }
}

/// What a model call cost.
pub struct Telemetry {
    pub model: String,
    pub prompt_tokens: u64,
    pub completion_tokens: u64,
    /// The cost, or null where the model is not priced.
    pub cost_usd: Json,
}

/// The model of a cost report.
pub struct TelemetryView {
    pub model: Seq<char>,
    pub prompt_tokens: u64,
    pub completion_tokens: u64,
    pub cost_usd: JsonView,
}

/// What an executor produced.
pub struct ExecuteResult {
    pub output: Json,
    pub evidence: Vec<Evidence>,
    pub suspend: Option<StepSuspend>,
    pub child_workflow_id: Option<String>,
    pub next_transition: Option<NextTransition>,
    pub telemetry: Option<Telemetry>,
}

/// The model of what an executor produced.
pub struct ResultView {
    pub output: JsonView,
    pub evidence: Seq<EvidenceView>,
    pub suspend: Option<SuspendView>,
    pub child_workflow_id: Option<Seq<char>>,
    pub next_transition: Option<NextView>,
    pub telemetry: Option<TelemetryView>,
}

impl ExecuteResult {
    pub open spec fn view(&self) -> ResultView {
        ResultView {
            output: self.output@,
            evidence: evidence_views(self.evidence@),
            suspend: match self.suspend {
                Some(s) => Some(s@),
                None => None,
            },
            child_workflow_id: opt_string(self.child_workflow_id),
            next_transition: opt_next(self.next_transition),
            telemetry: match self.telemetry {
                Some(t) => Some(
                    TelemetryView {
                        model: t.model@,
                        prompt_tokens: t.prompt_tokens,
                        completion_tokens: t.completion_tokens,
                        cost_usd: t.cost_usd@,
                    },
                ),
                None => None,
            },
        }
    }
}

/// How an executor failed. `updates` is what it wants kept all the same.
pub struct ExecuteError {
    pub class: String,
    pub message: String,
    pub updates: Option<Json>,
}

/// The model of an executor's failure.
pub struct ErrorView {
    pub class: Seq<char>,
    pub message: Seq<char>,
    pub updates: Option<JsonView>,
}

pub open spec fn opt_json(v: Option<Json>) -> Option<JsonView> {
    match v {
        Some(j) => Some(j@),
        None => None,
    }
}

pub fn copy_json(v: Option<&Json>) -> (r: Option<Json>)
    ensures
        opt_json(r) == opt_view(v),
{
    match v {
        Some(j) => Some(j.clone()),
        None => None,
    }
}

impl ExecuteError {
    pub open spec fn view(&self) -> ErrorView {
        ErrorView {
            class: self.class@,
            message: self.message@,
            updates: opt_json(self.updates),
        }
    }
}

pub fn copy_values(a: &Vec<Json>) -> (r: Vec<Json>)
    ensures
        views(r@) == views(a@),
{
    let mut out: Vec<Json> = Vec::new();
    let mut i: usize = 0;
    while i < a.len()
        invariant
            i <= a@.len(),
            i == out@.len(),
            forall|j: int| 0 <= j < i ==> (#[trigger] out@[j])@ == a@[j]@,
        decreases a@.len() - i,
    {
        let v = a[i].clone();
        out.push(v);
        i = i + 1;
    }
    assert(views(out@) =~= views(a@));
    out
}

/// What the guards of a transition said.
pub enum GuardsReply {
    /// All were asked as far as needed.
    Judged { pass: bool, evaluated: Vec<Json>, diagnostic: Option<String> },
    /// One reads a slot that is not set.
    UnsetSlot(String),
    /// One could not be asked.
    Broken(String),
}

/// The model of what the guards said.
pub enum GuardsView {
    Judged { pass: bool, evaluated: Seq<JsonView>, diagnostic: Option<Seq<char>> },
    UnsetSlot(Seq<char>),
    Broken(Seq<char>),
}

impl GuardsReply {
    pub open spec fn view(&self) -> GuardsView {
        match self {
            GuardsReply::Judged { pass, evaluated, diagnostic } => GuardsView::Judged {
                pass: *pass,
                evaluated: views(evaluated@),
                diagnostic: opt_string(*diagnostic),
            },
            GuardsReply::UnsetSlot(m) => GuardsView::UnsetSlot(m@),
            GuardsReply::Broken(m) => GuardsView::Broken(m@),
        }
    }
}

/// One hop of a chain.
pub struct ChainStep {
    pub from_state: String,
    pub transition: String,
    pub to_state: String,
    pub version: u64,
}

/// The model of a hop.
pub struct HopView {
    pub from_state: Seq<char>,
    pub transition: Seq<char>,
    pub to_state: Seq<char>,
    pub version: u64,
}

impl ChainStep {
    pub open spec fn view(&self) -> HopView {
        HopView {
            from_state: self.from_state@,
            transition: self.transition@,
            to_state: self.to_state@,
            version: self.version,
        }
    }
}

pub open spec fn hop_views(s: Seq<ChainStep>) -> Seq<HopView> {
    s.map_values(|h: ChainStep| h@)
}

impl Clone for ChainStep {
    fn clone(&self) -> (r: ChainStep)
        ensures
            r@ == self@,
    {
        ChainStep {
            from_state: self.from_state.clone(),
            transition: self.transition.clone(),
            to_state: self.to_state.clone(),
            version: self.version,
        }
    }
}

pub fn copy_hops(v: &Vec<ChainStep>) -> (r: Vec<ChainStep>)
    ensures
        hop_views(r@) == hop_views(v@),
{
    let mut out: Vec<ChainStep> = Vec::new();
    let mut i: usize = 0;
    while i < v.len()
        invariant
            i <= v@.len(),
            i == out@.len(),
            forall|j: int| 0 <= j < i ==> (#[trigger] out@[j])@ == v@[j]@,
        decreases v@.len() - i,
    {
        let h = v[i].clone();
        out.push(h);
        i = i + 1;
    }
    assert(hop_views(out@) =~= hop_views(v@));
    out
}

/// How far a chain came.
pub struct ChainResult {
    pub instance: WorkflowInstance,
    pub steps: Vec<ChainStep>,
    pub evidence: Vec<Evidence>,
}

/// The model of how far a chain came.
pub struct ProgressView {
    pub instance: InstanceView,
    pub steps: Seq<HopView>,
    pub evidence: Seq<EvidenceView>,
}

impl ChainResult {
    pub open spec fn view(&self) -> ProgressView {
        ProgressView {
            instance: self.instance@,
            steps: hop_views(self.steps@),
            evidence: evidence_views(self.evidence@),
        }
    }
}

impl Clone for ChainResult {
    fn clone(&self) -> (r: ChainResult)
        ensures
            r@ == self@,
    {
        ChainResult {
            instance: self.instance.clone(),
            steps: copy_hops(&self.steps),
            evidence: copy_evidence(&self.evidence),
        }
    }
}

/// Files with their holders.
pub open spec fn conflict_views(s: Seq<(String, String)>) -> Seq<(Seq<char>, Seq<char>)> {
    s.map_values(|c: (String, String)| (c.0@, c.1@))
}

pub fn copy_conflicts(s: &Vec<(String, String)>) -> (r: Vec<(String, String)>)
    ensures
        conflict_views(r@) == conflict_views(s@),
{
    let mut out: Vec<(String, String)> = Vec::new();
    let mut i: usize = 0;
    while i < s.len()
        invariant
            i <= s@.len(),
            i == out@.len(),
            forall|k: int|
                0 <= k < i ==> (#[trigger] out@[k]).0@ == s@[k].0@ && out@[k].1@ == s@[k].1@,
        decreases s@.len() - i,
    {
        out.push((s[i].0.clone(), s[i].1.clone()));
        i = i + 1;
    }
    assert(conflict_views(out@) =~= conflict_views(s@));
    out
}

/// How a chain of transitions that the runtime fires itself ended.
pub enum ChainOutcome {
    /// At a decision, at an end, or at the limit.
    Completed(ChainResult),
    /// An executor failed, or no transition could be chosen.
    Failed {
        partial: ChainResult,
        error: String,
        error_class: String,
        failed_transition: String,
    },
    /// An executor parked.
    Suspended { partial: ChainResult, suspend: StepSuspend, transition: String },
    /// A transition was not begun: another holder has its files.
    WaitingOnLock {
        partial: ChainResult,
        transition: String,
        files: Vec<String>,
        conflicts: Vec<(String, String)>,
    },
    /// The run used up its hops without an end.
    Quarantined { partial: ChainResult, reason: String },
}

/// The model of how a chain ended.
pub enum OutcomeView {
    Completed(ProgressView),
    Failed {
        partial: ProgressView,
        error: Seq<char>,
        error_class: Seq<char>,
        failed_transition: Seq<char>,
    },
    Suspended { partial: ProgressView, suspend: SuspendView, transition: Seq<char> },
    WaitingOnLock {
        partial: ProgressView,
        transition: Seq<char>,
        files: Seq<Seq<char>>,
        conflicts: Seq<(Seq<char>, Seq<char>)>,
    },
    Quarantined { partial: ProgressView, reason: Seq<char> },
}

impl ChainOutcome {
    pub open spec fn view(&self) -> OutcomeView {
        match self {
            ChainOutcome::Completed(p) => OutcomeView::Completed(p@),
            ChainOutcome::Failed { partial, error, error_class, failed_transition } => {
                OutcomeView::Failed {
                    partial: partial@,
                    error: error@,
                    error_class: error_class@,
                    failed_transition: failed_transition@,
                }
            },
            ChainOutcome::Suspended { partial, suspend, transition } => OutcomeView::Suspended {
                partial: partial@,
                suspend: suspend@,
                transition: transition@,
            },
            ChainOutcome::WaitingOnLock { partial, transition, files, conflicts } => {
                OutcomeView::WaitingOnLock {
                    partial: partial@,
                    transition: transition@,
                    files: texts(files@),
                    conflicts: conflict_views(conflicts@),
                }
            },
            ChainOutcome::Quarantined { partial, reason } => OutcomeView::Quarantined {
                partial: partial@,
                reason: reason@,
            },
        }
    }
}

} // verus!
