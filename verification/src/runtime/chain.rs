//! The chain: transitions that the runtime fires itself, one after another, until there is
//! something for somebody else to decide.
//!
//! A hop whose executor owns files begins only when their locks were granted, and gives them
//! back as soon as its work is done. Every hop counts towards the hops of its run; a run that
//! used them up is not driven on.

use vstd::prelude::*;

use crate::json::{number, obj, put, views, Json, JsonMap, JsonView, Members, ObjectView};
use crate::model::{
    audit_entry, elapsed, entry, Acting, ActingView, AuditView, InstanceView, WorkflowInstance,
};
use crate::repo_locks::{owned_files, owned_files_in};
use crate::run_env::copy_opt;
use crate::runtime::agent::{
    agent_affinity, agent_config, make_agent_affinity, make_agent_config, AutoDrive, AutoView,
};
use crate::runtime::context::{
    advanced, clear_state_local_slots_on_exit, clear_waits, file_list, files_as_strings, given_up,
    left_behind, set_member, with_member,
};
use crate::runtime::dispatch::{
    files_entry, lock_holder, make_holder, make_type_fault, type_fault, LOCK_TTL_SECS,
};
use crate::runtime::effects::{
    copy_conflicts, copy_evidence, copy_hops, copy_json, evidence_views, hop_views, join_evidence, AuditMode,
    ChainOutcome, ChainResult, ChainStep, ErrorView, Evidence, EvidenceView, ExecuteError,
    ExecuteResult, Failure, FailureView, HopView, OutcomeView, ProgressView, ResultView,
    StepSuspend, SuspendView, TelemetryView,
};
use crate::runtime::links::{
    deterministic, find_transitions, is_deterministic, is_terminal, terminal, transitions_of,
};
use crate::runtime::records::{
    all_checks, check_views, slot_checks, slot_violation, validate_blackboard_writes,
};
use crate::runtime::script::{
    can_grow, first, reply_at, reply_views, rest, sound, Effect, EffectView, RecordParams,
    RecordView, Reply, ReplyView,
};
use crate::text::{copy_strings, same, texts};

verus! {

/// The hops that a run may take in all where its definition sets no other number.
pub const DEFAULT_LIVELOCK_HOP_BUDGET: u64 = 300;

/// The slot that counts the hops of a run.
pub open spec fn hops_slot() -> Seq<char> {
    "_chain_hops_total"@
}

/// The hops that a run took so far, over all its drives.
pub open spec fn hops_taken(context: JsonView) -> u64 {
    match context.get_u64(hops_slot()) {
        Some(n) => n,
        None => 0,
    }
}

fn read_hops(context: &Json) -> (r: u64)
    ensures
        r == hops_taken(context@),
{
    match context.get_u64("_chain_hops_total") {
        Some(n) => n,
        None => 0,
    }
}

/// The hops that a run may take in all.
pub open spec fn hop_budget(definition: JsonView) -> u64 {
    match definition.get_u64("livelockHopBudget"@) {
        Some(n) => n,
        None => DEFAULT_LIVELOCK_HOP_BUDGET,
    }
}

/// Whether a run used up its hops.
pub open spec fn hops_spent(definition: JsonView, context: JsonView) -> bool {
    hops_taken(context) >= hop_budget(definition)
}

pub fn are_hops_spent(definition: &Json, context: &Json) -> (r: bool)
    ensures
        r == hops_spent(definition@, context@),
{
    let budget: u64 = match definition.get_u64("livelockHopBudget") {
        Some(n) => n,
        None => DEFAULT_LIVELOCK_HOP_BUDGET,
    };
    read_hops(context) >= budget
}

/// A context that counts one hop more, where it is an object.
pub open spec fn one_hop_more(context: JsonView) -> JsonView {
    let n = hops_taken(context);
    with_member(
        context,
        hops_slot(),
        number(
            if n < u64::MAX {
                (n + 1) as u64
            } else {
                n
            },
        ),
    )
}

fn count_hop(context: &Json) -> (r: Json)
    ensures
        r@ == one_hop_more(context@),
{
    let n: u64 = read_hops(context);
    let next: u64 = if n < u64::MAX {
        n + 1
    } else {
        n
    };
    set_member(context.clone(), "_chain_hops_total", Json::uint(next))
}

/// Why a run that used up its hops is cancelled.
pub open spec fn livelock_reason() -> Seq<char> {
    "livelock_quarantine: exceeded cumulative chain-hop budget without terminating"@
}

/// What a chain runs with.
pub struct ChainJob {
    pub auto: AutoDrive,
    /// Whether a store of evidence is wired.
    pub evidence: bool,
    /// Whether locks of files are wired.
    pub locks: bool,
    pub acting: Acting,
    pub definition: Json,
    pub max_depth: u64,
}

/// The model of what a chain runs with.
pub struct ChainJobView {
    pub auto: AutoView,
    pub evidence: bool,
    pub locks: bool,
    pub acting: ActingView,
    pub definition: JsonView,
    pub max_depth: u64,
}

impl ChainJob {
    pub open spec fn view(&self) -> ChainJobView {
        ChainJobView {
            auto: self.auto@,
            evidence: self.evidence,
            locks: self.locks,
            acting: self.acting@,
            definition: self.definition@,
            max_depth: self.max_depth,
        }
    }
}

/// What a chain does next.
pub enum ChainMove {
    Do(Effect),
    Done(Result<ChainOutcome, Failure>),
    Misfit,
}

/// The model of what a chain does next.
pub enum ChainView {
    Do(EffectView),
    Done(Result<OutcomeView, FailureView>),
    Misfit,
}

impl ChainMove {
    pub open spec fn view(&self) -> ChainView {
        match self {
            ChainMove::Do(e) => ChainView::Do(e@),
            ChainMove::Done(Ok(o)) => ChainView::Done(Ok(o@)),
            ChainMove::Done(Err(e)) => ChainView::Done(Err(e@)),
            ChainMove::Misfit => ChainView::Misfit,
        }
    }
}

/// How one hop goes: the chain stops here, or goes on from there with the replies that are
/// left.
pub enum TurnView {
    Stop(ChainView),
    Advance(ProgressView, Seq<ReplyView>),
}

enum Turn {
    Stop(ChainMove),
    Advance(ChainResult, usize),
}

impl Turn {
    spec fn view(&self, replies: Seq<Reply>) -> TurnView {
        match self {
            Turn::Stop(m) => TurnView::Stop(m@),
            Turn::Advance(p, at) => TurnView::Advance(p@, rest(replies, *at as int)),
        }
    }

    /// Whether what is left of the replies is less than before.
    spec fn progresses(&self, replies: Seq<Reply>, from: int) -> bool {
        match self {
            Turn::Stop(_) => true,
            Turn::Advance(p, at) => from < *at <= replies.len() && can_grow(p.instance@),
        }
    }
}

/// An end with an error text.
pub open spec fn chain_broken(message: Seq<char>) -> TurnView {
    TurnView::Stop(ChainView::Done(Err(FailureView::Text(message))))
}

fn chain_broke(message: &str) -> (r: Turn)
    ensures
        forall|replies: Seq<Reply>| #[trigger] r.view(replies) == chain_broken(message@),
        r is Stop,
{
    Turn::Stop(ChainMove::Done(Err(Failure::Text(message.to_owned()))))
}

/// Something to be done.
pub open spec fn chain_do(e: EffectView) -> TurnView {
    TurnView::Stop(ChainView::Do(e))
}

fn chain_ask(e: Effect) -> (r: Turn)
    ensures
        forall|replies: Seq<Reply>| #[trigger] r.view(replies) == chain_do(e@),
        r is Stop,
{
    Turn::Stop(ChainMove::Do(e))
}

/// A reply that does not fit.
pub open spec fn chain_misfit() -> TurnView {
    TurnView::Stop(ChainView::Misfit)
}

/// An entry that is tried to be written.
pub open spec fn chain_note(event: AuditView) -> TurnView {
    chain_do(EffectView::Audit { event, mode: AuditMode::SelfEvent })
}

/// The end of a chain that failed.
pub open spec fn chain_failed(
    p: ProgressView,
    error: Seq<char>,
    class: Seq<char>,
    transition: Seq<char>,
) -> TurnView {
    TurnView::Stop(
        ChainView::Done(
            Ok(
                OutcomeView::Failed {
                    partial: p,
                    error,
                    error_class: class,
                    failed_transition: transition,
                },
            ),
        ),
    )
}

fn chain_fail(p: &ChainResult, error: &str, class: &str, transition: &str) -> (r: Turn)
    ensures
        forall|replies: Seq<Reply>| #[trigger]
            r.view(replies) == chain_failed(p@, error@, class@, transition@),
        r is Stop,
{
    Turn::Stop(
        ChainMove::Done(
            Ok(
                ChainOutcome::Failed {
                    partial: p.clone(),
                    error: error.to_owned(),
                    error_class: class.to_owned(),
                    failed_transition: transition.to_owned(),
                },
            ),
        ),
    )
}

/// The transitions that the runtime fires itself.
pub open spec fn fired_by_runtime(ts: Members) -> Members
    decreases ts.len(),
{
    if ts.len() == 0 {
        Seq::empty()
    } else if deterministic(ts.last().1) {
        put(fired_by_runtime(ts.drop_last()), ts.last().0, ts.last().1)
    } else {
        fired_by_runtime(ts.drop_last())
    }
}

/// Whether a transition is one that the runtime can drive through an agent.
pub open spec fn drivable(e: (Seq<char>, JsonView)) -> bool {
    e.1.get_str("actor"@) == Some("agent"@) && e.0 != "escalate"@
}

/// The first transition that the runtime can drive through an agent.
pub open spec fn first_drivable(ts: Members) -> Option<(Seq<char>, JsonView)> {
    crate::scan::first_some(
        ts.len(),
        |k: int|
            if drivable(ts[k]) {
                Some(ts[k])
            } else {
                None
            },
    )
}

/// Whether a transition waits for somebody else's decision.
pub open spec fn blocking(e: (Seq<char>, JsonView), auto: bool) -> bool {
    &&& !deterministic(e.1)
    &&& e.1.get_bool("lightweight"@) != Some(true)
    &&& !(auto && drivable(e))
}

/// Whether a state waits for somebody else's decision.
pub open spec fn blocked(ts: Members, auto: bool) -> bool {
    exists|k: int| 0 <= k < ts.len() && blocking(#[trigger] ts[k], auto)
}

/// What the next hop of a chain is.
pub enum HopChoice {
    /// There is none: the chain is at its end.
    Rest,
    /// There would be one, but the run used up its hops.
    Spent,
    /// One of the transitions that the runtime fires itself.
    Fire(Members),
    /// A transition that an agent is asked to fill in.
    Drive(Seq<char>, JsonView),
}

/// The hop that is due: the ends come first, then what the runtime fires itself, then what it
/// can drive through an agent.
pub open spec fn due_hop(c: ChainJobView, p: ProgressView) -> HopChoice {
    let state = p.instance.state;
    if terminal(c.definition, state) || p.steps.len() >= c.max_depth {
        HopChoice::Rest
    } else {
        match transitions_of(c.definition, state) {
            None => HopChoice::Rest,
            Some(ts) => {
                let own = fired_by_runtime(ts);
                let drive = if c.auto.enabled {
                    first_drivable(ts)
                } else {
                    None
                };
                if own.len() > 0 {
                    if blocked(ts, c.auto.enabled) {
                        HopChoice::Rest
                    } else {
                        HopChoice::Fire(own)
                    }
                } else {
                    match drive {
                        Some((name, t)) => HopChoice::Drive(name, t),
                        None => HopChoice::Rest,
                    }
                }
            },
        }
    }
}

/// The next hop of a chain: the one that is due, unless the run used up its hops.
pub open spec fn next_hop(c: ChainJobView, p: ProgressView) -> HopChoice {
    let due = due_hop(c, p);
    if due !is Rest && hops_spent(c.definition, p.instance.context) {
        HopChoice::Spent
    } else {
        due
    }
}

enum Choice {
    Rest,
    Spent,
    Fire(JsonMap),
    Drive(String, Json),
}

impl Choice {
    spec fn view(&self) -> HopChoice {
        match self {
            Choice::Rest => HopChoice::Rest,
            Choice::Spent => HopChoice::Spent,
            Choice::Fire(m) => HopChoice::Fire(m@),
            Choice::Drive(n, t) => HopChoice::Drive(n@, t@),
        }
    }
}

fn collect_own(ts: &JsonMap) -> (r: JsonMap)
    ensures
        r@ == fired_by_runtime(ts@),
{
    let mut out = JsonMap::new();
    let mut i: usize = 0;
    assert(ts@.take(0) =~= Seq::empty());
    while i < ts.len()
        invariant
            i <= ts@.len(),
            out@ == fired_by_runtime(ts@.take(i as int)),
        decreases ts@.len() - i,
    {
        let ghost next = ts@.take(i + 1);
        assert(next.drop_last() =~= ts@.take(i as int));
        assert(next.last() == ts@[i as int]);
        if is_deterministic(ts.value_at(i)) {
            out = out.with(ts.key_at(i).as_str(), ts.value_at(i).clone());
        }
        i = i + 1;
    }
    assert(ts@.take(i as int) =~= ts@);
    out
}

fn is_drivable(name: &str, t: &Json) -> (r: bool)
    ensures
        r == drivable((name@, t@)),
{
    let by_agent = match t.get_str("actor") {
        Some(a) => same(a, "agent"),
        None => false,
    };
    by_agent && !same(name, "escalate")
}

fn find_drivable(ts: &JsonMap) -> (r: Option<(String, Json)>)
    ensures
        (match r {
            Some((n, t)) => Some((n@, t@)),
            None => None,
        }) == first_drivable(ts@),
{
    let ghost m = ts@;
    let ghost f = |k: int|
        if drivable(m[k]) {
            Some(m[k])
        } else {
            None
        };
    let mut i: usize = 0;
    while i < ts.len()
        invariant
            i <= ts@.len(),
            m == ts@,
            f == (|k: int|
                if drivable(m[k]) {
                    Some(m[k])
                } else {
                    None
                }),
            crate::scan::first_some(i as nat, f) is None,
        decreases ts@.len() - i,
    {
        assert(m[i as int] == (m[i as int].0, m[i as int].1));
        if is_drivable(ts.key_at(i).as_str(), ts.value_at(i)) {
            proof {
                crate::scan::lemma_first_some((i + 1) as nat, m.len(), f);
            }
            return Some((ts.key_at(i).clone(), ts.value_at(i).clone()));
        }
        i = i + 1;
    }
    None
}

fn is_blocked(ts: &JsonMap, auto: bool) -> (r: bool)
    ensures
        r == blocked(ts@, auto),
{
    let mut i: usize = 0;
    while i < ts.len()
        invariant
            i <= ts@.len(),
            forall|k: int| 0 <= k < i ==> !blocking(#[trigger] ts@[k], auto),
        decreases ts@.len() - i,
    {
        let t = ts.value_at(i);
        let name = ts.key_at(i).as_str();
        assert(ts@[i as int] == (name@, t@));
        let light = match t.get_bool("lightweight") {
            Some(b) => b,
            None => false,
        };
        if !is_deterministic(t) && !light && !(auto && is_drivable(name, t)) {
            return true;
        }
        i = i + 1;
    }
    false
}

fn choose_hop(c: &ChainJob, p: &ChainResult) -> (r: Choice)
    ensures
        r@ == next_hop(c@, p@),
{
    let due = choose_due(c, p);
    match due {
        Choice::Rest => due,
        _ => if are_hops_spent(&c.definition, &p.instance.context) {
            Choice::Spent
        } else {
            due
        },
    }
}

fn choose_due(c: &ChainJob, p: &ChainResult) -> (r: Choice)
    ensures
        r@ == due_hop(c@, p@),
{
    assert(hop_views(p.steps@).len() == p.steps@.len());
    let state = p.instance.state.as_str();
    if is_terminal(&c.definition, state) || p.steps.len() as u64 >= c.max_depth {
        return Choice::Rest;
    }
    let ts = match find_transitions(&c.definition, state) {
        Some(ts) => ts,
        None => {
            return Choice::Rest;
        },
    };
    let own = collect_own(ts);
    if !own.is_empty() {
        if is_blocked(ts, c.auto.enabled) {
            Choice::Rest
        } else {
            Choice::Fire(own)
        }
    } else if c.auto.enabled {
        match find_drivable(ts) {
            Some((n, t)) => Choice::Drive(n, t),
            None => Choice::Rest,
        }
    } else {
        Choice::Rest
    }
}

/// The entry of a chain that came to its end.
pub open spec fn chain_completed_entry(c: ChainJobView, p: ProgressView) -> AuditView {
    entry(
        "chain.completed"@,
        p.instance.id,
        None,
        Some(c.acting.correlation_id),
        obj().with("steps"@, number(p.steps.len() as u64)).with(
            "finalState"@,
            JsonView::Str(p.instance.state),
        ).m,
    )
}

/// The end of a chain.
pub open spec fn chain_rest(c: ChainJobView, p: ProgressView, r: Seq<ReplyView>) -> TurnView {
    let done = TurnView::Stop(ChainView::Done(Ok(OutcomeView::Completed(p))));
    if p.steps.len() > 0 {
        match first(r) {
            None => chain_note(chain_completed_entry(c, p)),
            Some(ReplyView::Done(_)) => done,
            _ => chain_misfit(),
        }
    } else {
        done
    }
}

fn do_chain_rest(c: &ChainJob, p: &ChainResult, replies: &Vec<Reply>, at: usize) -> (r: Turn)
    requires
        at <= replies@.len(),
        sound(replies@),
    ensures
        r.view(replies@) == chain_rest(c@, p@, rest(replies@, at as int)),
        r is Stop,
{
    assert(hop_views(p.steps@).len() == p.steps@.len());
    if p.steps.len() > 0 {
        match reply_at(replies, at) {
            None => {
                let payload = JsonMap::new().with("steps", Json::uint(p.steps.len() as u64)).with(
                    "finalState",
                    Json::text(p.instance.state.as_str()),
                );
                chain_ask(
                    Effect::Audit {
                        event: audit_entry(
                            "chain.completed",
                            p.instance.id.as_str(),
                            None,
                            Some(c.acting.correlation_id.as_str()),
                            payload,
                        ),
                        mode: AuditMode::SelfEvent,
                    },
                )
            },
            Some(Reply::Done(_)) => Turn::Stop(
                ChainMove::Done(Ok(ChainOutcome::Completed(p.clone()))),
            ),
            Some(_) => Turn::Stop(ChainMove::Misfit),
        }
    } else {
        Turn::Stop(ChainMove::Done(Ok(ChainOutcome::Completed(p.clone()))))
    }
}

/// A transition that a chain fires: its name, its declaration, its arguments, and who acts.
pub struct Hop {
    pub name: String,
    pub transition_def: Json,
    pub arguments: Json,
    /// Whether an agent filled it in.
    pub driven: bool,
}

/// The model of a fired transition.
pub struct FireView {
    pub name: Seq<char>,
    pub transition_def: JsonView,
    pub arguments: JsonView,
    pub driven: bool,
}

impl Hop {
    pub open spec fn view(&self) -> FireView {
        FireView {
            name: self.name@,
            transition_def: self.transition_def@,
            arguments: self.arguments@,
            driven: self.driven,
        }
    }
}

/// Who acts in a hop.
pub open spec fn hop_actor(h: FireView) -> Seq<char> {
    if h.driven {
        "agent"@
    } else {
        "deterministic"@
    }
}

/// What was done for a hop.
pub struct HopWork {
    pub context: Json,
    pub evidence: Vec<Evidence>,
    pub child_workflow_id: Option<String>,
    pub executor: Option<(bool, u64)>,
}

/// The model of what was done for a hop.
pub struct HopWorkView {
    pub context: JsonView,
    pub evidence: Seq<EvidenceView>,
    pub child_workflow_id: Option<Seq<char>>,
    pub executor: Option<(bool, u64)>,
}

impl HopWork {
    pub open spec fn view(&self) -> HopWorkView {
        HopWorkView {
            context: self.context@,
            evidence: evidence_views(self.evidence@),
            child_workflow_id: crate::text::opt_string(self.child_workflow_id),
            executor: self.executor,
        }
    }
}

/// Whether the time of an instance is up.
pub open spec fn time_is_up(now: int, started: int, timeout_ms: u64) -> bool {
    elapsed(now, started) >= 0 && elapsed(now, started) >= timeout_ms
}

/// A new state was entered: the chain goes on, unless the time is up.
pub open spec fn hop_entered(c: ChainJobView, p: ProgressView, r: Seq<ReplyView>) -> TurnView {
    match c.definition.get_u64("timeoutMs"@) {
        None => TurnView::Advance(p, r),
        Some(timeout_ms) => match first(r) {
            None => chain_do(EffectView::Now),
            Some(ReplyView::Time(now)) => if time_is_up(now, p.instance.started_at, timeout_ms) {
                chain_rest(c, p, r.drop_first())
            } else {
                TurnView::Advance(p, r.drop_first())
            },
            _ => chain_misfit(),
        },
    }
}

fn do_hop_entered(c: &ChainJob, p: ChainResult, replies: &Vec<Reply>, at: usize) -> (r: Turn)
    requires
        at <= replies@.len(),
        sound(replies@),
        can_grow(p.instance@),
    ensures
        r.view(replies@) == hop_entered(c@, p@, rest(replies@, at as int)),
        r.progresses(replies@, at as int) || (r matches Turn::Advance(q, k) && k == at && can_grow(
            q.instance@,
        )),
{
    match c.definition.get_u64("timeoutMs") {
        None => Turn::Advance(p, at),
        Some(timeout_ms) => match reply_at(replies, at) {
            None => chain_ask(Effect::Now),
            Some(Reply::Time(now)) => {
                let ms: i64 = now.millis_since(&p.instance.started_at);
                if ms >= 0 && ms as u64 >= timeout_ms {
                    do_chain_rest(c, &p, replies, at + 1)
                } else {
                    Turn::Advance(p, at + 1)
                }
            },
            Some(_) => Turn::Stop(ChainMove::Misfit),
        },
    }
}

/// The entry of a hop.
pub open spec fn hop_entry(c: ChainJobView, p: ProgressView, h: FireView) -> AuditView {
    entry(
        "workflow.transitioned"@,
        p.instance.id,
        Some(c.acting.principal.subject),
        Some(c.acting.correlation_id),
        obj().with("transition"@, JsonView::Str(h.name)).with(
            "state"@,
            JsonView::Str(p.instance.state),
        ).with("version"@, number(p.instance.version)).with(
            "deterministic"@,
            JsonView::Bool(!h.driven),
        ).with("chainDepth"@, number(p.steps.len() as u64)).m,
    )
}

/// The instance of a hop is stored: the hop is noted, and the new state is entered.
pub open spec fn hop_stored(
    c: ChainJobView,
    p: ProgressView,
    h: FireView,
    r: Seq<ReplyView>,
) -> TurnView {
    match first(r) {
        None => chain_note(hop_entry(c, p, h)),
        Some(ReplyView::Done(_)) => match first(r.drop_first()) {
            None => chain_do(
                EffectView::OnEnter {
                    instance: p.instance,
                    correlation_id: c.acting.correlation_id,
                },
            ),
            Some(ReplyView::Instance(Err(e))) => TurnView::Stop(ChainView::Done(Err(e))),
            Some(ReplyView::Instance(Ok(i))) => hop_entered(
                c,
                ProgressView { instance: i, ..p },
                r.drop_first().drop_first(),
            ),
            _ => chain_misfit(),
        },
        _ => chain_misfit(),
    }
}

fn do_hop_stored(c: &ChainJob, p: &ChainResult, h: &Hop, replies: &Vec<Reply>, at: usize) -> (r: Turn)
    requires
        at <= replies@.len(),
        sound(replies@),
    ensures
        r.view(replies@) == hop_stored(c@, p@, h@, rest(replies@, at as int)),
        r.progresses(replies@, at as int),
{
    assert(hop_views(p.steps@).len() == p.steps@.len());
    match reply_at(replies, at) {
        None => {
            let payload = JsonMap::new().with("transition", Json::text(h.name.as_str())).with(
                "state",
                Json::text(p.instance.state.as_str()),
            ).with("version", Json::uint(p.instance.version)).with(
                "deterministic",
                Json::Bool(!h.driven),
            ).with("chainDepth", Json::uint(p.steps.len() as u64));
            chain_ask(
                Effect::Audit {
                    event: audit_entry(
                        "workflow.transitioned",
                        p.instance.id.as_str(),
                        Some(c.acting.principal.subject.as_str()),
                        Some(c.acting.correlation_id.as_str()),
                        payload,
                    ),
                    mode: AuditMode::SelfEvent,
                },
            )
        },
        Some(Reply::Done(_)) => match reply_at(replies, at + 1) {
            None => chain_ask(
                Effect::OnEnter {
                    instance: p.instance.clone(),
                    correlation_id: c.acting.correlation_id.clone(),
                },
            ),
            Some(Reply::Instance(Err(e))) => Turn::Stop(ChainMove::Done(Err(e.clone()))),
            Some(Reply::Instance(Ok(i))) => {
                let q = ChainResult {
                    instance: i.clone(),
                    steps: copy_hops(&p.steps),
                    evidence: copy_evidence(&p.evidence),
                };
                assert(q@ == (ProgressView { instance: i@, ..p@ }));
                do_hop_entered(c, q, replies, at + 2)
            },
            Some(_) => Turn::Stop(ChainMove::Misfit),
        },
        Some(_) => Turn::Stop(ChainMove::Misfit),
    }
}

/// What the record of a hop is made of.
pub open spec fn hop_record(p: ProgressView, h: FireView, w: HopWorkView, next: InstanceView) -> RecordView {
    RecordView {
        instance: next,
        before: p.instance.context,
        from_state: p.instance.state,
        transition: h.name,
        transition_def: h.transition_def,
        actor: hop_actor(h),
        principal: None,
        arguments: h.arguments,
        guards: Seq::empty(),
        child_workflow_id: w.child_workflow_id,
        executor: w.executor,
    }
}

/// How far the chain is after a hop.
pub open spec fn after_hop(
    p: ProgressView,
    h: FireView,
    w: HopWorkView,
    target: Seq<char>,
    saved: InstanceView,
) -> ProgressView {
    ProgressView {
        instance: saved,
        steps: p.steps.push(
            HopView {
                from_state: p.instance.state,
                transition: h.name,
                to_state: target,
                version: saved.version,
            },
        ),
        evidence: w.evidence,
    }
}

/// The instance of a hop in its new state, one version on.
pub open spec fn hopped(i: InstanceView, context: JsonView, target: Seq<char>) -> InstanceView {
    InstanceView { context, state: target, version: (i.version + 1) as u64, ..i }
}

/// The instance that a hop commits: without what belonged to the state that is left, and with
/// the hop counted.
pub open spec fn hop_next(
    c: ChainJobView,
    p: ProgressView,
    w: HopWorkView,
    target: Seq<char>,
) -> InstanceView {
    hopped(
        p.instance,
        one_hop_more(left_behind(c.definition, p.instance.state, target, w.context)),
        target,
    )
}

/// The hop is committed: it is counted, the record is written, and only then the instance is
/// stored.
pub open spec fn hop_committing(
    c: ChainJobView,
    p: ProgressView,
    h: FireView,
    w: HopWorkView,
    target: Seq<char>,
    r: Seq<ReplyView>,
) -> TurnView {
    let next = hop_next(c, p, w, target);
    match first(r) {
        None => chain_do(
            EffectView::Record {
                params: hop_record(p, h, w, next),
                correlation_id: c.acting.correlation_id,
            },
        ),
        Some(ReplyView::Done(Err(e))) => TurnView::Stop(
            ChainView::Done(
                Err(
                    FailureView::RecordWriteFailed {
                        workflow_id: next.id,
                        seq: next.version,
                        source: e,
                    },
                ),
            ),
        ),
        Some(ReplyView::Done(Ok(_))) => match first(r.drop_first()) {
            None => chain_do(
                EffectView::Save { instance: next, expected_version: p.instance.version },
            ),
            Some(ReplyView::Instance(Err(e))) => TurnView::Stop(ChainView::Done(Err(e))),
            Some(ReplyView::Instance(Ok(saved))) => {
                let q = after_hop(p, h, w, target, saved);
                if c.evidence {
                    match first(r.drop_first().drop_first()) {
                        None => chain_do(
                            EffectView::KeepEvidence {
                                workflow_id: saved.id,
                                evidence: w.evidence,
                            },
                        ),
                        Some(ReplyView::Done(_)) => hop_stored(
                            c,
                            q,
                            h,
                            r.drop_first().drop_first().drop_first(),
                        ),
                        _ => chain_misfit(),
                    }
                } else {
                    hop_stored(c, q, h, r.drop_first().drop_first())
                }
            },
            _ => chain_misfit(),
        },
        _ => chain_misfit(),
    }
}

fn make_hop_record(p: &ChainResult, h: &Hop, w: &HopWork, next: &WorkflowInstance) -> (r: RecordParams)
    ensures
        r@ == hop_record(p@, h@, w@, next@),
{
    let actor = if h.driven {
        "agent"
    } else {
        "deterministic"
    };
    let guards: Vec<Json> = Vec::new();
    assert(views(guards@) =~= Seq::empty());
    RecordParams {
        instance: next.clone(),
        before: p.instance.context.clone(),
        from_state: p.instance.state.clone(),
        transition: h.name.clone(),
        transition_def: h.transition_def.clone(),
        actor: actor.to_owned(),
        principal: None,
        arguments: h.arguments.clone(),
        guards,
        child_workflow_id: copy_opt(&w.child_workflow_id),
        executor: w.executor,
    }
}

fn step_on(
    p: &ChainResult,
    h: &Hop,
    w: &HopWork,
    target: &str,
    saved: &WorkflowInstance,
) -> (r: ChainResult)
    ensures
        r@ == after_hop(p@, h@, w@, target@, saved@),
{
    let mut steps = copy_hops(&p.steps);
    let ghost before = steps@;
    let step = ChainStep {
        from_state: p.instance.state.clone(),
        transition: h.name.clone(),
        to_state: target.to_owned(),
        version: saved.version,
    };
    steps.push(step);
    assert(hop_views(steps@) =~= hop_views(before).push(step@));
    ChainResult { instance: saved.clone(), steps, evidence: copy_evidence(&w.evidence) }
}

fn do_hop_committing(
    c: &ChainJob,
    p: &ChainResult,
    h: &Hop,
    w: &HopWork,
    target: &str,
    kept: &Json,
    replies: &Vec<Reply>,
    at: usize,
) -> (r: Turn)
    requires
        at <= replies@.len(),
        sound(replies@),
        can_grow(p.instance@),
        kept@ == left_behind(c@.definition, p@.instance.state, target@, w@.context),
    ensures
        r.view(replies@) == hop_committing(c@, p@, h@, w@, target@, rest(replies@, at as int)),
        r.progresses(replies@, at as int),
{
    let mut next = p.instance.clone();
    next.context = count_hop(kept);
    next.state = target.to_owned();
    next.version = p.instance.version + 1;
    assert(next@ == hop_next(c@, p@, w@, target@));
    match reply_at(replies, at) {
        None => chain_ask(
            Effect::Record {
                params: make_hop_record(p, h, w, &next),
                correlation_id: c.acting.correlation_id.clone(),
            },
        ),
        Some(Reply::Done(Err(e))) => Turn::Stop(
            ChainMove::Done(
                Err(
                    Failure::RecordWriteFailed {
                        workflow_id: next.id.clone(),
                        seq: next.version,
                        source: e.clone(),
                    },
                ),
            ),
        ),
        Some(Reply::Done(Ok(_))) => match reply_at(replies, at + 1) {
            None => chain_ask(
                Effect::Save { instance: next, expected_version: p.instance.version },
            ),
            Some(Reply::Instance(Err(e))) => Turn::Stop(ChainMove::Done(Err(e.clone()))),
            Some(Reply::Instance(Ok(saved))) => {
                let q = step_on(p, h, w, target, saved);
                if c.evidence {
                    match reply_at(replies, at + 2) {
                        None => chain_ask(
                            Effect::KeepEvidence {
                                workflow_id: saved.id.clone(),
                                evidence: copy_evidence(&w.evidence),
                            },
                        ),
                        Some(Reply::Done(_)) => do_hop_stored(c, &q, h, replies, at + 3),
                        Some(_) => Turn::Stop(ChainMove::Misfit),
                    }
                } else {
                    do_hop_stored(c, &q, h, replies, at + 2)
                }
            },
            Some(_) => Turn::Stop(ChainMove::Misfit),
        },
        Some(_) => Turn::Stop(ChainMove::Misfit),
    }
}

/// The entry that slots were cleared.
pub open spec fn hop_cleared_entry(c: ChainJobView, p: ProgressView, slots: Seq<Seq<char>>) -> AuditView {
    entry(
        "workflow.slot.cleared"@,
        p.instance.id,
        Some(c.acting.principal.subject),
        Some(c.acting.correlation_id),
        obj().with("state"@, JsonView::Str(p.instance.state)).with(
            "slots"@,
            JsonView::Array(file_list(slots)),
        ).m,
    )
}

fn note_hop_cleared(c: &ChainJob, p: &ChainResult, slots: &Vec<String>) -> (r: Turn)
    ensures
        forall|replies: Seq<Reply>| #[trigger]
            r.view(replies) == chain_note(hop_cleared_entry(c@, p@, texts(slots@))),
        r is Stop,
{
    broadcast use crate::json::array_view;

    let payload = JsonMap::new().with("state", Json::text(p.instance.state.as_str())).with(
        "slots",
        Json::Array(files_as_strings(slots)),
    );
    chain_ask(
        Effect::Audit {
            event: audit_entry(
                "workflow.slot.cleared",
                p.instance.id.as_str(),
                Some(c.acting.principal.subject.as_str()),
                Some(c.acting.correlation_id.as_str()),
                payload,
            ),
            mode: AuditMode::SelfEvent,
        },
    )
}

/// The state is left: what belonged to it is given up, and that is told.
pub open spec fn hop_leaving(
    c: ChainJobView,
    p: ProgressView,
    h: FireView,
    w: HopWorkView,
    target: Seq<char>,
    r: Seq<ReplyView>,
) -> TurnView {
    let gone = given_up(c.definition, p.instance.state, target, w.context);
    if gone.len() > 0 {
        match first(r) {
            None => chain_note(hop_cleared_entry(c, p, gone)),
            Some(ReplyView::Done(_)) => hop_committing(c, p, h, w, target, r.drop_first()),
            _ => chain_misfit(),
        }
    } else {
        hop_committing(c, p, h, w, target, r)
    }
}

fn do_hop_leaving(
    c: &ChainJob,
    p: &ChainResult,
    h: &Hop,
    w: &HopWork,
    target: &str,
    replies: &Vec<Reply>,
    at: usize,
) -> (r: Turn)
    requires
        at <= replies@.len(),
        sound(replies@),
        can_grow(p.instance@),
    ensures
        r.view(replies@) == hop_leaving(c@, p@, h@, w@, target@, rest(replies@, at as int)),
        r.progresses(replies@, at as int),
{
    let (kept, gone) = clear_state_local_slots_on_exit(
        &c.definition,
        p.instance.state.as_str(),
        target,
        w.context.clone(),
    );
    assert(texts(gone@).len() == gone@.len());
    if gone.len() > 0 {
        match reply_at(replies, at) {
            None => note_hop_cleared(c, p, &gone),
            Some(Reply::Done(_)) => do_hop_committing(c, p, h, w, target, &kept, replies, at + 1),
            Some(_) => Turn::Stop(ChainMove::Misfit),
        }
    } else {
        do_hop_committing(c, p, h, w, target, &kept, replies, at)
    }
}

/// The target of the hop is chosen.
pub open spec fn hop_leading(
    c: ChainJobView,
    p: ProgressView,
    h: FireView,
    w: HopWorkView,
    r: Seq<ReplyView>,
) -> TurnView {
    match first(r) {
        None => chain_do(
            EffectView::ResolveTarget {
                acting: c.acting,
                transition_def: h.transition_def,
                instance: InstanceView { context: w.context, ..p.instance },
                arguments: h.arguments,
            },
        ),
        Some(ReplyView::Target(Err(e))) => chain_broken(e),
        Some(ReplyView::Target(Ok(target))) => hop_leaving(c, p, h, w, target, r.drop_first()),
        _ => chain_misfit(),
    }
}

fn do_hop_leading(
    c: &ChainJob,
    p: &ChainResult,
    h: &Hop,
    w: &HopWork,
    replies: &Vec<Reply>,
    at: usize,
) -> (r: Turn)
    requires
        at <= replies@.len(),
        sound(replies@),
        can_grow(p.instance@),
    ensures
        r.view(replies@) == hop_leading(c@, p@, h@, w@, rest(replies@, at as int)),
        r.progresses(replies@, at as int),
{
    match reply_at(replies, at) {
        None => {
            let mut i = p.instance.clone();
            i.context = w.context.clone();
            assert(i@ == (InstanceView { context: w.context@, ..p.instance@ }));
            chain_ask(
                Effect::ResolveTarget {
                    acting: c.acting.clone(),
                    transition_def: h.transition_def.clone(),
                    instance: i,
                    arguments: h.arguments.clone(),
                },
            )
        },
        Some(Reply::Target(Err(e))) => chain_broke(e.as_str()),
        Some(Reply::Target(Ok(target))) => do_hop_leaving(
            c,
            p,
            h,
            w,
            target.as_str(),
            replies,
            at + 1,
        ),
        Some(_) => Turn::Stop(ChainMove::Misfit),
    }
}

/// What every entry of a hop tells.
pub open spec fn hop_facts(p: ProgressView, name: Seq<char>) -> ObjectView {
    obj().with("transition"@, JsonView::Str(name)).with(
        "fromState"@,
        JsonView::Str(p.instance.state),
    ).with("chainDepth"@, number(p.steps.len() as u64))
}

fn make_hop_facts(p: &ChainResult, name: &str) -> (r: JsonMap)
    ensures
        r@ == hop_facts(p@, name@).m,
{
    assert(hop_views(p.steps@).len() == p.steps@.len());
    JsonMap::new().with("transition", Json::text(name)).with(
        "fromState",
        Json::text(p.instance.state.as_str()),
    ).with("chainDepth", Json::uint(p.steps.len() as u64))
}

/// The entry of a chain.
pub open spec fn chain_entry(
    c: ChainJobView,
    p: ProgressView,
    event: Seq<char>,
    payload: Members,
) -> AuditView {
    entry(event, p.instance.id, None, Some(c.acting.correlation_id), payload)
}

fn chain_tell(c: &ChainJob, p: &ChainResult, event: &str, payload: JsonMap) -> (r: Turn)
    ensures
        forall|replies: Seq<Reply>| #[trigger]
            r.view(replies) == chain_note(chain_entry(c@, p@, event@, payload@)),
        r is Stop,
{
    chain_ask(
        Effect::Audit {
            event: audit_entry(
                event,
                p.instance.id.as_str(),
                None,
                Some(c.acting.correlation_id.as_str()),
                payload,
            ),
            mode: AuditMode::SelfEvent,
        },
    )
}

/// How a write of the wrong type in a chain is worded.
pub open spec fn hop_type_fault(slot: Seq<char>, reason: Seq<char>) -> Seq<char> {
    "BLACKBOARD_TYPE_ERROR: "@ + type_fault(slot, reason)
}

/// What the hop wrote is held against the slots' schemas.
pub open spec fn hop_written(
    c: ChainJobView,
    p: ProgressView,
    h: FireView,
    w: HopWorkView,
    r: Seq<ReplyView>,
) -> TurnView {
    let checks = all_checks(c.definition, h.transition_def.get("output"@), w.context);
    match first(r) {
        None => chain_do(EffectView::CheckSlots { checks }),
        Some(ReplyView::Verdicts(v)) => if v.len() != checks.len() {
            chain_misfit()
        } else {
            match slot_violation(checks, v) {
                None => hop_leading(c, p, h, w, r.drop_first()),
                Some((slot, reason)) => match first(r.drop_first()) {
                    None => chain_note(
                        chain_entry(
                            c,
                            p,
                            "chain.failed"@,
                            hop_facts(p, h.name).with(
                                "code"@,
                                JsonView::Str("BLACKBOARD_TYPE_ERROR"@),
                            ).with("message"@, JsonView::Str(hop_type_fault(slot, reason))).m,
                        ),
                    ),
                    Some(ReplyView::Done(_)) => chain_failed(
                        ProgressView {
                            instance: InstanceView { context: w.context, ..p.instance },
                            ..p
                        },
                        hop_type_fault(slot, reason),
                        "blackboard_type_error"@,
                        h.name,
                    ),
                    _ => chain_misfit(),
                },
            }
        },
        _ => chain_misfit(),
    }
}

fn do_hop_written(
    c: &ChainJob,
    p: &ChainResult,
    h: &Hop,
    w: &HopWork,
    replies: &Vec<Reply>,
    at: usize,
) -> (r: Turn)
    requires
        at <= replies@.len(),
        sound(replies@),
        can_grow(p.instance@),
    ensures
        r.view(replies@) == hop_written(c@, p@, h@, w@, rest(replies@, at as int)),
        r.progresses(replies@, at as int),
{
    let checks = slot_checks(&c.definition, h.transition_def.get("output"), &w.context);
    assert(check_views(checks@).len() == checks@.len());
    match reply_at(replies, at) {
        None => chain_ask(Effect::CheckSlots { checks }),
        Some(Reply::Verdicts(v)) => if v.len() != checks.len() {
            Turn::Stop(ChainMove::Misfit)
        } else {
            match validate_blackboard_writes(&checks, v) {
                Ok(_) => do_hop_leading(c, p, h, w, replies, at + 1),
                Err((slot, reason)) => {
                    let mut message = "BLACKBOARD_TYPE_ERROR: ".to_owned();
                    message.append(make_type_fault(slot.as_str(), reason.as_str()).as_str());
                    assert(message@ == hop_type_fault(slot@, reason@));
                    match reply_at(replies, at + 1) {
                        None => {
                            let payload = make_hop_facts(p, h.name.as_str()).with(
                                "code",
                                Json::text("BLACKBOARD_TYPE_ERROR"),
                            ).with("message", Json::text(message.as_str()));
                            chain_tell(c, p, "chain.failed", payload)
                        },
                        Some(Reply::Done(_)) => {
                            let mut q = p.clone();
                            q.instance.context = w.context.clone();
                            assert(q@ == (ProgressView {
                                instance: InstanceView { context: w.context@, ..p.instance@ },
                                ..p@
                            }));
                            chain_fail(
                                &q,
                                message.as_str(),
                                "blackboard_type_error",
                                h.name.as_str(),
                            )
                        },
                        Some(_) => Turn::Stop(ChainMove::Misfit),
                    }
                },
            }
        },
        Some(_) => Turn::Stop(ChainMove::Misfit),
    }
}

/// A hop without an executor writes its mapping all the same.
pub open spec fn hop_plain(
    c: ChainJobView,
    p: ProgressView,
    h: FireView,
    r: Seq<ReplyView>,
) -> TurnView {
    match first(r) {
        None => chain_do(
            EffectView::Merge {
                context: p.instance.context,
                output: h.transition_def.get("output"@),
                arguments: h.arguments,
                input: p.instance.input,
                result: JsonView::Null,
            },
        ),
        Some(ReplyView::Merged(Err(e))) => chain_broken(e),
        Some(ReplyView::Merged(Ok(context))) => hop_written(
            c,
            p,
            h,
            HopWorkView {
                context,
                evidence: p.evidence,
                child_workflow_id: None,
                executor: None,
            },
            r.drop_first(),
        ),
        _ => chain_misfit(),
    }
}

fn do_hop_plain(c: &ChainJob, p: &ChainResult, h: &Hop, replies: &Vec<Reply>, at: usize) -> (r: Turn)
    requires
        at <= replies@.len(),
        sound(replies@),
        can_grow(p.instance@),
    ensures
        r.view(replies@) == hop_plain(c@, p@, h@, rest(replies@, at as int)),
        r.progresses(replies@, at as int),
{
    match reply_at(replies, at) {
        None => chain_ask(
            Effect::Merge {
                context: p.instance.context.clone(),
                output: copy_json(h.transition_def.get("output")),
                arguments: h.arguments.clone(),
                input: p.instance.input.clone(),
                result: Json::Null,
            },
        ),
        Some(Reply::Merged(Err(e))) => chain_broke(e.as_str()),
        Some(Reply::Merged(Ok(context))) => {
            let w = HopWork {
                context: context.clone(),
                evidence: copy_evidence(&p.evidence),
                child_workflow_id: None,
                executor: None,
            };
            do_hop_written(c, p, h, &w, replies, at + 1)
        },
        Some(_) => Turn::Stop(ChainMove::Misfit),
    }
}

/// What the entry of a suspended hop tells.
pub open spec fn suspend_facts(p: ProgressView, name: Seq<char>, s: SuspendView) -> Members {
    match s {
        SuspendView::Subworkflow { child_workflow_id } => hop_facts(p, name).with(
            "childWorkflowId"@,
            JsonView::Str(child_workflow_id),
        ).m,
        SuspendView::AgentAwait { correlation_id, prompt } => hop_facts(p, name).with(
            "correlationId"@,
            JsonView::Str(correlation_id),
        ).with("prompt"@, JsonView::Str(prompt)).m,
    }
}

fn make_suspend_facts(p: &ChainResult, name: &str, s: &StepSuspend) -> (r: JsonMap)
    ensures
        r@ == suspend_facts(p@, name@, s@),
{
    let base = make_hop_facts(p, name);
    match s {
        StepSuspend::Subworkflow { child_workflow_id } => base.with(
            "childWorkflowId",
            Json::text(child_workflow_id.as_str()),
        ),
        StepSuspend::AgentAwait { correlation_id, prompt } => base.with(
            "correlationId",
            Json::text(correlation_id.as_str()),
        ).with("prompt", Json::text(prompt.as_str())),
    }
}

/// The executor of the hop came back: a suspension stops the chain before anything is
/// written; else what it produced is written.
pub open spec fn hop_produced(
    c: ChainJobView,
    p: ProgressView,
    h: FireView,
    res: ResultView,
    elapsed_ms: u64,
    r: Seq<ReplyView>,
) -> TurnView {
    match res.suspend {
        Some(s) => match first(r) {
            None => chain_note(
                chain_entry(c, p, "chain.suspended"@, suspend_facts(p, h.name, s)),
            ),
            Some(ReplyView::Done(_)) => TurnView::Stop(
                ChainView::Done(
                    Ok(OutcomeView::Suspended { partial: p, suspend: s, transition: h.name }),
                ),
            ),
            _ => chain_misfit(),
        },
        None => if res.next_transition is Some {
            chain_broken(
                "NEXT_TRANSITION_UNSUPPORTED: a deterministic executor returned a next_transition, which is only supported on interactive submit transitions"@,
            )
        } else {
            match first(r) {
                None => chain_do(
                    EffectView::Merge {
                        context: p.instance.context,
                        output: h.transition_def.get("output"@),
                        arguments: h.arguments,
                        input: p.instance.input,
                        result: res.output,
                    },
                ),
                Some(ReplyView::Merged(Err(e))) => chain_broken(e),
                Some(ReplyView::Merged(Ok(context))) => hop_written(
                    c,
                    p,
                    h,
                    HopWorkView {
                        context: advanced(context, h.name),
                        evidence: p.evidence + res.evidence,
                        child_workflow_id: res.child_workflow_id,
                        executor: Some((true, elapsed_ms)),
                    },
                    r.drop_first(),
                ),
                _ => chain_misfit(),
            }
        },
    }
}

fn do_hop_produced(
    c: &ChainJob,
    p: &ChainResult,
    h: &Hop,
    res: &ExecuteResult,
    elapsed_ms: u64,
    replies: &Vec<Reply>,
    at: usize,
) -> (r: Turn)
    requires
        at <= replies@.len(),
        sound(replies@),
        can_grow(p.instance@),
    ensures
        r.view(replies@) == hop_produced(c@, p@, h@, res@, elapsed_ms, rest(replies@, at as int)),
        r.progresses(replies@, at as int),
{
    match &res.suspend {
        Some(s) => match reply_at(replies, at) {
            None => chain_tell(
                c,
                p,
                "chain.suspended",
                make_suspend_facts(p, h.name.as_str(), s),
            ),
            Some(Reply::Done(_)) => Turn::Stop(
                ChainMove::Done(
                    Ok(
                        ChainOutcome::Suspended {
                            partial: p.clone(),
                            suspend: s.clone(),
                            transition: h.name.clone(),
                        },
                    ),
                ),
            ),
            Some(_) => Turn::Stop(ChainMove::Misfit),
        },
        None => if res.next_transition.is_some() {
            chain_broke(
                "NEXT_TRANSITION_UNSUPPORTED: a deterministic executor returned a next_transition, which is only supported on interactive submit transitions",
            )
        } else {
            match reply_at(replies, at) {
                None => chain_ask(
                    Effect::Merge {
                        context: p.instance.context.clone(),
                        output: copy_json(h.transition_def.get("output")),
                        arguments: h.arguments.clone(),
                        input: p.instance.input.clone(),
                        result: res.output.clone(),
                    },
                ),
                Some(Reply::Merged(Err(e))) => chain_broke(e.as_str()),
                Some(Reply::Merged(Ok(context))) => {
                    let w = HopWork {
                        context: clear_waits(context.clone(), h.name.as_str()),
                        evidence: join_evidence(&p.evidence, &res.evidence),
                        child_workflow_id: copy_opt(&res.child_workflow_id),
                        executor: Some((true, elapsed_ms)),
                    };
                    do_hop_written(c, p, h, &w, replies, at + 1)
                },
                Some(_) => Turn::Stop(ChainMove::Misfit),
            }
        },
    }
}

/// An executor failed: the chain tells and stops.
pub open spec fn hop_failing(
    c: ChainJobView,
    p: ProgressView,
    name: Seq<char>,
    err: ErrorView,
    r: Seq<ReplyView>,
) -> TurnView {
    match first(r) {
        None => chain_note(
            chain_entry(
                c,
                p,
                "chain.failed"@,
                hop_facts(p, name).with("errorClass"@, JsonView::Str(err.class)).with(
                    "message"@,
                    JsonView::Str(err.message),
                ).m,
            ),
        ),
        Some(ReplyView::Done(_)) => chain_failed(p, err.message, err.class, name),
        _ => chain_misfit(),
    }
}

fn do_hop_failing(
    c: &ChainJob,
    p: &ChainResult,
    name: &str,
    err: &ExecuteError,
    replies: &Vec<Reply>,
    at: usize,
) -> (r: Turn)
    requires
        at <= replies@.len(),
        sound(replies@),
    ensures
        r.view(replies@) == hop_failing(c@, p@, name@, err@, rest(replies@, at as int)),
        r is Stop,
{
    match reply_at(replies, at) {
        None => {
            let payload = make_hop_facts(p, name).with(
                "errorClass",
                Json::text(err.class.as_str()),
            ).with("message", Json::text(err.message.as_str()));
            chain_tell(c, p, "chain.failed", payload)
        },
        Some(Reply::Done(_)) => chain_fail(p, err.message.as_str(), err.class.as_str(), name),
        Some(_) => Turn::Stop(ChainMove::Misfit),
    }
}

/// What comes of a hop's work, once its locks were given back.
pub enum WorkEnd {
    Broken(Seq<char>),
    Failed(Seq<char>, ErrorView),
    Ran(FireView, ResultView, u64),
}

enum Ending<'a> {
    Broken(&'a str),
    Failed(&'a str, &'a ExecuteError),
    Ran(&'a Hop, &'a ExecuteResult, u64),
}

impl<'a> Ending<'a> {
    spec fn view(&self) -> WorkEnd {
        match self {
            Ending::Broken(e) => WorkEnd::Broken(e@),
            Ending::Failed(name, err) => WorkEnd::Failed(name@, err@),
            Ending::Ran(h, res, elapsed_ms) => WorkEnd::Ran(h@, res@, *elapsed_ms),
        }
    }
}

/// The work of a hop is done.
pub open spec fn hop_judged(
    c: ChainJobView,
    p: ProgressView,
    end: WorkEnd,
    r: Seq<ReplyView>,
) -> TurnView {
    match end {
        WorkEnd::Broken(e) => chain_broken(e),
        WorkEnd::Failed(name, err) => hop_failing(c, p, name, err, r),
        WorkEnd::Ran(h, res, elapsed_ms) => hop_produced(c, p, h, res, elapsed_ms, r),
    }
}

fn do_hop_judged(c: &ChainJob, p: &ChainResult, end: &Ending, replies: &Vec<Reply>, at: usize) -> (r:
    Turn)
    requires
        at <= replies@.len(),
        sound(replies@),
        can_grow(p.instance@),
    ensures
        r.view(replies@) == hop_judged(c@, p@, end@, rest(replies@, at as int)),
        r.progresses(replies@, at as int),
{
    match end {
        Ending::Broken(e) => chain_broke(e),
        Ending::Failed(name, err) => do_hop_failing(c, p, name, err, replies, at),
        Ending::Ran(h, res, elapsed_ms) => do_hop_produced(c, p, h, res, *elapsed_ms, replies, at),
    }
}

/// An entry on the files of a hop.
pub open spec fn hop_files_note(event: Seq<char>, id: Seq<char>, files: Seq<Seq<char>>) -> TurnView {
    chain_do(EffectView::Audit { event: files_entry(event, id, files), mode: AuditMode::Ignored })
}

fn tell_files(event: &str, id: &str, files: &Vec<String>) -> (r: Turn)
    ensures
        forall|replies: Seq<Reply>| #[trigger]
            r.view(replies) == hop_files_note(event@, id@, texts(files@)),
        r is Stop,
{
    broadcast use crate::json::array_view;

    let payload = JsonMap::new().with("files", Json::Array(files_as_strings(files)));
    chain_ask(
        Effect::Audit { event: audit_entry(event, id, None, None, payload), mode: AuditMode::Ignored },
    )
}

/// The work of a hop is done, well or not: the locks that are held for it are given back, and
/// those who wait for the files are driven on.
pub open spec fn hop_freeing(
    c: ChainJobView,
    p: ProgressView,
    files: Seq<Seq<char>>,
    end: WorkEnd,
    r: Seq<ReplyView>,
) -> TurnView {
    if files.len() == 0 {
        hop_judged(c, p, end, r)
    } else {
        match first(r) {
            None => chain_do(EffectView::Release { files, holder: lock_holder(p.instance.id) }),
            Some(ReplyView::Done(_)) => match first(r.drop_first()) {
                None => hop_files_note("lock.released"@, p.instance.id, files),
                Some(ReplyView::Done(_)) => match first(r.drop_first().drop_first()) {
                    None => chain_do(EffectView::ResumeReadyLocks),
                    Some(ReplyView::Done(_)) => hop_judged(
                        c,
                        p,
                        end,
                        r.drop_first().drop_first().drop_first(),
                    ),
                    _ => chain_misfit(),
                },
                _ => chain_misfit(),
            },
            _ => chain_misfit(),
        }
    }
}

fn do_hop_freeing(
    c: &ChainJob,
    p: &ChainResult,
    files: &Vec<String>,
    end: &Ending,
    replies: &Vec<Reply>,
    at: usize,
) -> (r: Turn)
    requires
        at <= replies@.len(),
        sound(replies@),
        can_grow(p.instance@),
    ensures
        r.view(replies@) == hop_freeing(c@, p@, texts(files@), end@, rest(replies@, at as int)),
        r.progresses(replies@, at as int),
{
    assert(texts(files@).len() == files@.len());
    if files.len() == 0 {
        do_hop_judged(c, p, end, replies, at)
    } else {
        match reply_at(replies, at) {
            None => chain_ask(
                Effect::Release {
                    files: copy_strings(files),
                    holder: make_holder(p.instance.id.as_str()),
                },
            ),
            Some(Reply::Done(_)) => match reply_at(replies, at + 1) {
                None => tell_files("lock.released", p.instance.id.as_str(), files),
                Some(Reply::Done(_)) => match reply_at(replies, at + 2) {
                    None => chain_ask(Effect::ResumeReadyLocks),
                    Some(Reply::Done(_)) => do_hop_judged(c, p, end, replies, at + 3),
                    Some(_) => Turn::Stop(ChainMove::Misfit),
                },
                Some(_) => Turn::Stop(ChainMove::Misfit),
            },
            Some(_) => Turn::Stop(ChainMove::Misfit),
        }
    }
}

/// The executor of the hop runs. `files` are those whose locks are held for the hop.
pub open spec fn hop_running(
    c: ChainJobView,
    p: ProgressView,
    h: FireView,
    files: Seq<Seq<char>>,
    config: JsonView,
    r: Seq<ReplyView>,
) -> TurnView {
    let reliability = h.transition_def.get("reliability"@);
    match first(r) {
        None => chain_do(EffectView::ParsePolicy { reliability }),
        Some(ReplyView::Done(Err(e))) => hop_freeing(
            c,
            p,
            files,
            WorkEnd::Broken(e),
            r.drop_first(),
        ),
        Some(ReplyView::Done(Ok(_))) => match first(r.drop_first()) {
            None => chain_do(
                EffectView::Execute {
                    correlation_id: c.acting.correlation_id,
                    instance: p.instance,
                    fired: Some(h.name),
                    arguments: h.arguments,
                    config,
                    reliability,
                },
            ),
            Some(ReplyView::Executed { result: Ok(res), elapsed_ms }) => hop_freeing(
                c,
                p,
                files,
                WorkEnd::Ran(h, res, elapsed_ms),
                r.drop_first().drop_first(),
            ),
            Some(ReplyView::Executed { result: Err(err), elapsed_ms }) => hop_freeing(
                c,
                p,
                files,
                WorkEnd::Failed(h.name, err),
                r.drop_first().drop_first(),
            ),
            _ => chain_misfit(),
        },
        _ => chain_misfit(),
    }
}

fn do_hop_running(
    c: &ChainJob,
    p: &ChainResult,
    h: &Hop,
    files: &Vec<String>,
    config: &Json,
    replies: &Vec<Reply>,
    at: usize,
) -> (r: Turn)
    requires
        at <= replies@.len(),
        sound(replies@),
        can_grow(p.instance@),
    ensures
        r.view(replies@) == hop_running(
            c@,
            p@,
            h@,
            texts(files@),
            config@,
            rest(replies@, at as int),
        ),
        r.progresses(replies@, at as int),
{
    let reliability = h.transition_def.get("reliability");
    match reply_at(replies, at) {
        None => chain_ask(Effect::ParsePolicy { reliability: copy_json(reliability) }),
        Some(Reply::Done(Err(e))) => do_hop_freeing(
            c,
            p,
            files,
            &Ending::Broken(e.as_str()),
            replies,
            at + 1,
        ),
        Some(Reply::Done(Ok(_))) => match reply_at(replies, at + 1) {
            None => chain_ask(
                Effect::Execute {
                    correlation_id: c.acting.correlation_id.clone(),
                    instance: p.instance.clone(),
                    fired: Some(h.name.clone()),
                    arguments: h.arguments.clone(),
                    config: config.clone(),
                    reliability: copy_json(reliability),
                },
            ),
            Some(Reply::Executed { result: Ok(res), elapsed_ms }) => do_hop_freeing(
                c,
                p,
                files,
                &Ending::Ran(h, res, *elapsed_ms),
                replies,
                at + 2,
            ),
            Some(Reply::Executed { result: Err(err), elapsed_ms }) => do_hop_freeing(
                c,
                p,
                files,
                &Ending::Failed(h.name.as_str(), err),
                replies,
                at + 2,
            ),
            Some(_) => Turn::Stop(ChainMove::Misfit),
        },
        Some(_) => Turn::Stop(ChainMove::Misfit),
    }
}

/// The hop begins.
#[verifier::opaque]
pub open spec fn hop_begun(
    c: ChainJobView,
    p: ProgressView,
    h: FireView,
    files: Seq<Seq<char>>,
    r: Seq<ReplyView>,
) -> TurnView {
    match first(r) {
        None => chain_note(chain_entry(c, p, "chain.step"@, hop_facts(p, h.name).m)),
        Some(ReplyView::Done(_)) => match h.transition_def.get("executor"@) {
            None => hop_plain(c, p, h, r.drop_first()),
            Some(config) => hop_running(c, p, h, files, config, r.drop_first()),
        },
        _ => chain_misfit(),
    }
}

fn do_hop_begun(
    c: &ChainJob,
    p: &ChainResult,
    h: &Hop,
    files: &Vec<String>,
    replies: &Vec<Reply>,
    at: usize,
) -> (r: Turn)
    requires
        at <= replies@.len(),
        sound(replies@),
        can_grow(p.instance@),
    ensures
        r.view(replies@) == hop_begun(c@, p@, h@, texts(files@), rest(replies@, at as int)),
        r.progresses(replies@, at as int),
{
    reveal(hop_begun);
    match reply_at(replies, at) {
        None => chain_tell(c, p, "chain.step", make_hop_facts(p, h.name.as_str())),
        Some(Reply::Done(_)) => match h.transition_def.get("executor") {
            None => do_hop_plain(c, p, h, replies, at + 1),
            Some(config) => do_hop_running(c, p, h, files, config, replies, at + 1),
        },
        Some(_) => Turn::Stop(ChainMove::Misfit),
    }
}

/// What the entry of an asked agent tells.
#[verifier::opaque]
pub open spec fn invoked_facts(c: ChainJobView, p: ProgressView, name: Seq<char>) -> Members {
    obj().with("transition"@, JsonView::Str(name)).with(
        "state"@,
        JsonView::Str(p.instance.state),
    ).with("affinity"@, JsonView::Str(agent_affinity(c.definition, p.instance, c.auto))).with(
        "max_seconds"@,
        number(c.auto.max_seconds),
    ).with("tools"@, JsonView::Array(file_list(c.auto.tools))).m
}

fn make_invoked_facts(c: &ChainJob, p: &ChainResult, name: &str) -> (r: JsonMap)
    ensures
        r@ == invoked_facts(c@, p@, name@),
{
    reveal(invoked_facts);
    broadcast use crate::json::array_view;

    JsonMap::new().with("transition", Json::text(name)).with(
        "state",
        Json::text(p.instance.state.as_str()),
    ).with(
        "affinity",
        Json::text(make_agent_affinity(&c.definition, &p.instance, &c.auto).as_str()),
    ).with("max_seconds", Json::uint(c.auto.max_seconds)).with(
        "tools",
        Json::Array(files_as_strings(&c.auto.tools)),
    )
}

/// What an agent's call cost: the model, the tokens in and out, and the price.
pub open spec fn cost_of(t: Option<TelemetryView>) -> (JsonView, JsonView, JsonView, JsonView) {
    match t {
        Some(t) => (
            JsonView::Str(t.model),
            number(t.prompt_tokens),
            number(t.completion_tokens),
            t.cost_usd,
        ),
        None => (JsonView::Null, JsonView::Null, JsonView::Null, JsonView::Null),
    }
}

/// What the entry of an agent that came back tells.
#[verifier::opaque]
pub open spec fn answered_facts(
    c: ChainJobView,
    p: ProgressView,
    name: Seq<char>,
    res: ResultView,
    elapsed_ms: u64,
) -> Members {
    let (model, prompt, completion, cost) = cost_of(res.telemetry);
    obj().with("transition"@, JsonView::Str(name)).with(
        "affinity"@,
        JsonView::Str(agent_affinity(c.definition, p.instance, c.auto)),
    ).with("duration_ms"@, number(elapsed_ms)).with("model"@, model).with(
        "prompt_tokens"@,
        prompt,
    ).with("completion_tokens"@, completion).with("cost_usd"@, cost).m
}

fn make_answered_facts(
    c: &ChainJob,
    p: &ChainResult,
    name: &str,
    res: &ExecuteResult,
    elapsed_ms: u64,
) -> (r: JsonMap)
    ensures
        r@ == answered_facts(c@, p@, name@, res@, elapsed_ms),
{
    reveal(answered_facts);
    let (model, prompt, completion, cost) = match &res.telemetry {
        Some(t) => (
            Json::text(t.model.as_str()),
            Json::uint(t.prompt_tokens),
            Json::uint(t.completion_tokens),
            t.cost_usd.clone(),
        ),
        None => (Json::Null, Json::Null, Json::Null, Json::Null),
    };
    JsonMap::new().with("transition", Json::text(name)).with(
        "affinity",
        Json::text(make_agent_affinity(&c.definition, &p.instance, &c.auto).as_str()),
    ).with("duration_ms", Json::uint(elapsed_ms)).with("model", model).with(
        "prompt_tokens",
        prompt,
    ).with("completion_tokens", completion).with("cost_usd", cost)
}

/// The agent came back: what it answered are the arguments of the hop.
pub open spec fn hop_answered(
    c: ChainJobView,
    p: ProgressView,
    name: Seq<char>,
    t: JsonView,
    files: Seq<Seq<char>>,
    res: ResultView,
    elapsed_ms: u64,
    r: Seq<ReplyView>,
) -> TurnView {
    match first(r) {
        None => chain_note(
            chain_entry(c, p, "agent.completed"@, answered_facts(c, p, name, res, elapsed_ms)),
        ),
        Some(ReplyView::Done(_)) => hop_begun(
            c,
            p,
            FireView { name, transition_def: t, arguments: res.output, driven: true },
            files,
            r.drop_first(),
        ),
        _ => chain_misfit(),
    }
}

fn do_hop_answered(
    c: &ChainJob,
    p: &ChainResult,
    name: &str,
    t: &Json,
    files: &Vec<String>,
    res: &ExecuteResult,
    elapsed_ms: u64,
    replies: &Vec<Reply>,
    at: usize,
) -> (r: Turn)
    requires
        at <= replies@.len(),
        sound(replies@),
        can_grow(p.instance@),
    ensures
        r.view(replies@) == hop_answered(
            c@,
            p@,
            name@,
            t@,
            texts(files@),
            res@,
            elapsed_ms,
            rest(replies@, at as int),
        ),
        r.progresses(replies@, at as int),
{
    match reply_at(replies, at) {
        None => chain_tell(
            c,
            p,
            "agent.completed",
            make_answered_facts(c, p, name, res, elapsed_ms),
        ),
        Some(Reply::Done(_)) => {
            let h = Hop {
                name: name.to_owned(),
                transition_def: t.clone(),
                arguments: res.output.clone(),
                driven: true,
            };
            do_hop_begun(c, p, &h, files, replies, at + 1)
        },
        Some(_) => Turn::Stop(ChainMove::Misfit),
    }
}

/// The agent is asked.
pub open spec fn hop_asking(
    c: ChainJobView,
    p: ProgressView,
    name: Seq<char>,
    t: JsonView,
    files: Seq<Seq<char>>,
    r: Seq<ReplyView>,
) -> TurnView {
    match first(r) {
        None => chain_do(
            EffectView::Execute {
                correlation_id: c.acting.correlation_id,
                instance: p.instance,
                fired: Some(name),
                arguments: JsonView::Object(Seq::empty()),
                config: agent_config(c.definition, p.instance, t, c.auto),
                reliability: t.get("reliability"@),
            },
        ),
        Some(ReplyView::Executed { result: Err(err), elapsed_ms }) => hop_freeing(
            c,
            p,
            files,
            WorkEnd::Failed(name, err),
            r.drop_first(),
        ),
        Some(ReplyView::Executed { result: Ok(res), elapsed_ms }) => hop_answered(
            c,
            p,
            name,
            t,
            files,
            res,
            elapsed_ms,
            r.drop_first(),
        ),
        _ => chain_misfit(),
    }
}

fn do_hop_asking(
    c: &ChainJob,
    p: &ChainResult,
    name: &str,
    t: &Json,
    files: &Vec<String>,
    replies: &Vec<Reply>,
    at: usize,
) -> (r: Turn)
    requires
        at <= replies@.len(),
        sound(replies@),
        can_grow(p.instance@),
    ensures
        r.view(replies@) == hop_asking(
            c@,
            p@,
            name@,
            t@,
            texts(files@),
            rest(replies@, at as int),
        ),
        r.progresses(replies@, at as int),
{
    match reply_at(replies, at) {
        None => chain_ask(
            Effect::Execute {
                correlation_id: c.acting.correlation_id.clone(),
                instance: p.instance.clone(),
                fired: Some(name.to_owned()),
                arguments: Json::Object(JsonMap::new()),
                config: make_agent_config(&c.definition, &p.instance, t, &c.auto),
                reliability: copy_json(t.get("reliability")),
            },
        ),
        Some(Reply::Executed { result: Err(err), elapsed_ms }) => do_hop_freeing(
            c,
            p,
            files,
            &Ending::Failed(name, err),
            replies,
            at + 1,
        ),
        Some(Reply::Executed { result: Ok(res), elapsed_ms }) => do_hop_answered(
            c,
            p,
            name,
            t,
            files,
            res,
            *elapsed_ms,
            replies,
            at + 1,
        ),
        Some(_) => Turn::Stop(ChainMove::Misfit),
    }
}

/// An agent fills in the hop.
pub open spec fn hop_driving(
    c: ChainJobView,
    p: ProgressView,
    name: Seq<char>,
    t: JsonView,
    files: Seq<Seq<char>>,
    r: Seq<ReplyView>,
) -> TurnView {
    match first(r) {
        None => chain_note(chain_entry(c, p, "agent.invoked"@, invoked_facts(c, p, name))),
        Some(ReplyView::Done(_)) => match first(r.drop_first()) {
            None => chain_do(EffectView::ParsePolicy { reliability: t.get("reliability"@) }),
            Some(ReplyView::Done(Err(e))) => hop_freeing(
                c,
                p,
                files,
                WorkEnd::Broken(e),
                r.drop_first().drop_first(),
            ),
            Some(ReplyView::Done(Ok(_))) => hop_asking(
                c,
                p,
                name,
                t,
                files,
                r.drop_first().drop_first(),
            ),
            _ => chain_misfit(),
        },
        _ => chain_misfit(),
    }
}

fn do_hop_driving(
    c: &ChainJob,
    p: &ChainResult,
    name: &str,
    t: &Json,
    files: &Vec<String>,
    replies: &Vec<Reply>,
    at: usize,
) -> (r: Turn)
    requires
        at <= replies@.len(),
        sound(replies@),
        can_grow(p.instance@),
    ensures
        r.view(replies@) == hop_driving(
            c@,
            p@,
            name@,
            t@,
            texts(files@),
            rest(replies@, at as int),
        ),
        r.progresses(replies@, at as int),
{
    match reply_at(replies, at) {
        None => chain_tell(c, p, "agent.invoked", make_invoked_facts(c, p, name)),
        Some(Reply::Done(_)) => match reply_at(replies, at + 1) {
            None => chain_ask(
                Effect::ParsePolicy { reliability: copy_json(t.get("reliability")) },
            ),
            Some(Reply::Done(Err(e))) => do_hop_freeing(
                c,
                p,
                files,
                &Ending::Broken(e.as_str()),
                replies,
                at + 2,
            ),
            Some(Reply::Done(Ok(_))) => do_hop_asking(c, p, name, t, files, replies, at + 2),
            Some(_) => Turn::Stop(ChainMove::Misfit),
        },
        Some(_) => Turn::Stop(ChainMove::Misfit),
    }
}

/// A transition that is due: one that the runtime fires itself, or one that an agent fills in.
pub enum DueView {
    Fire(Seq<char>, JsonView),
    Drive(Seq<char>, JsonView),
}

enum Due<'a> {
    Fire(&'a str, &'a Json),
    Drive(&'a str, &'a Json),
}

impl<'a> Due<'a> {
    spec fn view(&self) -> DueView {
        match self {
            Due::Fire(name, t) => DueView::Fire(name@, t@),
            Due::Drive(name, t) => DueView::Drive(name@, t@),
        }
    }
}

/// The hop goes on, with the locks of `files` held for it.
pub open spec fn hop_cleared(
    c: ChainJobView,
    p: ProgressView,
    due: DueView,
    files: Seq<Seq<char>>,
    r: Seq<ReplyView>,
) -> TurnView {
    match due {
        DueView::Fire(name, t) => hop_begun(
            c,
            p,
            FireView {
                name,
                transition_def: t,
                arguments: JsonView::Object(Seq::empty()),
                driven: false,
            },
            files,
            r,
        ),
        DueView::Drive(name, t) => hop_driving(c, p, name, t, files, r),
    }
}

fn do_hop_cleared(
    c: &ChainJob,
    p: &ChainResult,
    due: &Due,
    files: &Vec<String>,
    replies: &Vec<Reply>,
    at: usize,
) -> (r: Turn)
    requires
        at <= replies@.len(),
        sound(replies@),
        can_grow(p.instance@),
    ensures
        r.view(replies@) == hop_cleared(c@, p@, due@, texts(files@), rest(replies@, at as int)),
        r.progresses(replies@, at as int),
{
    match due {
        Due::Fire(name, t) => {
            let h = Hop {
                name: (*name).to_owned(),
                transition_def: (*t).clone(),
                arguments: Json::Object(JsonMap::new()),
                driven: false,
            };
            do_hop_begun(c, p, &h, files, replies, at)
        },
        Due::Drive(name, t) => do_hop_driving(c, p, name, t, files, replies, at),
    }
}

/// The files whose locks a hop needs.
pub open spec fn needed_files(c: ChainJobView, t: JsonView) -> Seq<Seq<char>> {
    match t.get("executor"@) {
        Some(config) => if c.locks {
            owned_files(config)
        } else {
            Seq::empty()
        },
        None => Seq::empty(),
    }
}

fn collect_needed(c: &ChainJob, t: &Json) -> (r: Vec<String>)
    ensures
        texts(r@) == needed_files(c@, t@),
{
    let none: Vec<String> = Vec::new();
    assert(texts(none@) =~= Seq::empty());
    match t.get("executor") {
        Some(config) => if c.locks {
            owned_files_in(config)
        } else {
            none
        },
        None => none,
    }
}

/// The name of a transition that is due.
pub open spec fn due_name(due: DueView) -> Seq<char> {
    match due {
        DueView::Fire(name, _) => name,
        DueView::Drive(name, _) => name,
    }
}

/// The declaration of a transition that is due.
pub open spec fn due_def(due: DueView) -> JsonView {
    match due {
        DueView::Fire(_, t) => t,
        DueView::Drive(_, t) => t,
    }
}

/// The locks of the hop's files are asked for before anything of it is begun. Where another
/// has one of them, the chain stops, and the run waits for them.
pub open spec fn hop_locking(
    c: ChainJobView,
    p: ProgressView,
    due: DueView,
    r: Seq<ReplyView>,
) -> TurnView {
    let files = needed_files(c, due_def(due));
    if files.len() == 0 {
        hop_cleared(c, p, due, files, r)
    } else {
        match first(r) {
            None => chain_do(
                EffectView::Acquire {
                    files,
                    holder: lock_holder(p.instance.id),
                    ttl_secs: LOCK_TTL_SECS,
                },
            ),
            Some(ReplyView::Locks(Err(conflicts))) => TurnView::Stop(
                ChainView::Done(
                    Ok(
                        OutcomeView::WaitingOnLock {
                            partial: p,
                            transition: due_name(due),
                            files,
                            conflicts,
                        },
                    ),
                ),
            ),
            Some(ReplyView::Locks(Ok(_))) => match first(r.drop_first()) {
                None => hop_files_note("lock.acquired"@, p.instance.id, files),
                Some(ReplyView::Done(_)) => hop_cleared(
                    c,
                    p,
                    due,
                    files,
                    r.drop_first().drop_first(),
                ),
                _ => chain_misfit(),
            },
            _ => chain_misfit(),
        }
    }
}

fn do_hop_locking(c: &ChainJob, p: &ChainResult, due: &Due, replies: &Vec<Reply>, at: usize) -> (r:
    Turn)
    requires
        at <= replies@.len(),
        sound(replies@),
        can_grow(p.instance@),
    ensures
        r.view(replies@) == hop_locking(c@, p@, due@, rest(replies@, at as int)),
        r.progresses(replies@, at as int),
{
    let (name, t) = match due {
        Due::Fire(name, t) => (*name, *t),
        Due::Drive(name, t) => (*name, *t),
    };
    let files = collect_needed(c, t);
    assert(texts(files@).len() == files@.len());
    if files.len() == 0 {
        do_hop_cleared(c, p, due, &files, replies, at)
    } else {
        match reply_at(replies, at) {
            None => chain_ask(
                Effect::Acquire {
                    ttl_secs: LOCK_TTL_SECS,
                    files: copy_strings(&files),
                    holder: make_holder(p.instance.id.as_str()),
                },
            ),
            Some(Reply::Locks(Err(conflicts))) => Turn::Stop(
                ChainMove::Done(
                    Ok(
                        ChainOutcome::WaitingOnLock {
                            partial: p.clone(),
                            transition: name.to_owned(),
                            files: copy_strings(&files),
                            conflicts: copy_conflicts(conflicts),
                        },
                    ),
                ),
            ),
            Some(Reply::Locks(Ok(_))) => match reply_at(replies, at + 1) {
                None => tell_files("lock.acquired", p.instance.id.as_str(), &files),
                Some(Reply::Done(_)) => do_hop_cleared(c, p, due, &files, replies, at + 2),
                Some(_) => Turn::Stop(ChainMove::Misfit),
            },
            Some(_) => Turn::Stop(ChainMove::Misfit),
        }
    }
}

/// The runtime fires one of its own transitions: the only one, or the one that is chosen.
pub open spec fn hop_firing(
    c: ChainJobView,
    p: ProgressView,
    own: Members,
    r: Seq<ReplyView>,
) -> TurnView {
    match first(r) {
        None => chain_do(
            EffectView::Select { candidates: own, instance: p.instance, acting: c.acting },
        ),
        Some(ReplyView::Selected(Ok((name, t)))) => hop_locking(
            c,
            p,
            DueView::Fire(name, t),
            r.drop_first(),
        ),
        Some(ReplyView::Selected(Err(e))) => match first(r.drop_first()) {
            None => chain_note(
                chain_entry(
                    c,
                    p,
                    "chain.failed"@,
                    obj().with("fromState"@, JsonView::Str(p.instance.state)).with(
                        "chainDepth"@,
                        number(p.steps.len() as u64),
                    ).with("errorClass"@, JsonView::Str("selection_error"@)).with(
                        "message"@,
                        JsonView::Str(e),
                    ).m,
                ),
            ),
            Some(ReplyView::Done(_)) => chain_failed(p, e, "selection_error"@, Seq::empty()),
            _ => chain_misfit(),
        },
        _ => chain_misfit(),
    }
}

fn do_hop_firing(c: &ChainJob, p: &ChainResult, own: JsonMap, replies: &Vec<Reply>, at: usize) -> (r:
    Turn)
    requires
        at <= replies@.len(),
        sound(replies@),
        can_grow(p.instance@),
    ensures
        r.view(replies@) == hop_firing(c@, p@, own@, rest(replies@, at as int)),
        r.progresses(replies@, at as int),
{
    match reply_at(replies, at) {
        None => chain_ask(
            Effect::Select {
                candidates: own,
                instance: p.instance.clone(),
                acting: c.acting.clone(),
            },
        ),
        Some(Reply::Selected(Ok((name, t)))) => do_hop_locking(
            c,
            p,
            &Due::Fire(name.as_str(), t),
            replies,
            at + 1,
        ),
        Some(Reply::Selected(Err(e))) => match reply_at(replies, at + 1) {
            None => {
                assert(hop_views(p.steps@).len() == p.steps@.len());
                let payload = JsonMap::new().with(
                    "fromState",
                    Json::text(p.instance.state.as_str()),
                ).with("chainDepth", Json::uint(p.steps.len() as u64)).with(
                    "errorClass",
                    Json::text("selection_error"),
                ).with("message", Json::text(e.as_str()));
                chain_tell(c, p, "chain.failed", payload)
            },
            Some(Reply::Done(_)) => {
                proof {
                    reveal_strlit("");
                    assert(""@ =~= Seq::<char>::empty());
                }
                chain_fail(p, e.as_str(), "selection_error", "")
            },
            Some(_) => Turn::Stop(ChainMove::Misfit),
        },
        Some(_) => Turn::Stop(ChainMove::Misfit),
    }
}

/// One hop.
#[verifier::opaque]
pub open spec fn hop(c: ChainJobView, p: ProgressView, r: Seq<ReplyView>) -> TurnView {
    match next_hop(c, p) {
        HopChoice::Rest => chain_rest(c, p, r),
        HopChoice::Spent => TurnView::Stop(
            ChainView::Done(Ok(OutcomeView::Quarantined { partial: p, reason: livelock_reason() })),
        ),
        HopChoice::Fire(own) => hop_firing(c, p, own, r),
        HopChoice::Drive(name, t) => hop_locking(c, p, DueView::Drive(name, t), r),
    }
}

fn do_hop(c: &ChainJob, p: &ChainResult, replies: &Vec<Reply>, at: usize) -> (r: Turn)
    requires
        at <= replies@.len(),
        sound(replies@),
        can_grow(p.instance@),
    ensures
        r.view(replies@) == hop(c@, p@, rest(replies@, at as int)),
        r.progresses(replies@, at as int),
{
    reveal(hop);
    match choose_hop(c, p) {
        Choice::Rest => do_chain_rest(c, p, replies, at),
        Choice::Spent => Turn::Stop(
            ChainMove::Done(
                Ok(
                    ChainOutcome::Quarantined {
                        partial: p.clone(),
                        reason: "livelock_quarantine: exceeded cumulative chain-hop budget without terminating".to_owned(),
                    },
                ),
            ),
        ),
        Choice::Fire(own) => do_hop_firing(c, p, own, replies, at),
        Choice::Drive(name, t) => do_hop_locking(
            c,
            p,
            &Due::Drive(name.as_str(), &t),
            replies,
            at,
        ),
    }
}

/// A chain: one hop after another, until one stops it.
pub open spec fn chain(c: ChainJobView, p: ProgressView, r: Seq<ReplyView>) -> ChainView
    decreases r.len(),
{
    match hop(c, p, r) {
        TurnView::Stop(v) => v,
        TurnView::Advance(q, rest) => if rest.len() < r.len() {
            chain(c, q, rest)
        } else {
            ChainView::Misfit
        },
    }
}

/// Fires the transitions that are the runtime's to fire, one after another from the
/// instance's state, until there is a decision for somebody else, an end, the limit, a
/// failure, a wait for files, or until the run used up its hops. `replies` is what came of the
/// effects so far.
pub fn run_deterministic_chain(c: &ChainJob, instance: &WorkflowInstance, replies: &Vec<Reply>) -> (r:
    ChainMove)
    requires
        sound(replies@),
        can_grow(instance@),
    ensures
        r@ == chain(
            c@,
            (ProgressView { instance: instance@, steps: Seq::empty(), evidence: Seq::empty() }),
            reply_views(replies@),
        ),
{
    let mut p = ChainResult { instance: instance.clone(), steps: Vec::new(), evidence: Vec::new() };
    let ghost start = ProgressView {
        instance: instance@,
        steps: Seq::empty(),
        evidence: Seq::empty(),
    };
    let mut at: usize = 0;
    proof {
        reveal(rest);
        assert(p@.steps =~= start.steps);
        assert(p@.evidence =~= start.evidence);
        assert(rest(replies@, 0) =~= reply_views(replies@));
    }
    loop
        invariant
            at <= replies@.len(),
            sound(replies@),
            can_grow(p.instance@),
            start == (ProgressView {
                instance: instance@,
                steps: Seq::empty(),
                evidence: Seq::empty(),
            }),
            chain(c@, p@, rest(replies@, at as int)) == chain(c@, start, reply_views(replies@)),
        decreases replies@.len() - at,
    {
        match do_hop(c, &p, replies, at) {
            Turn::Stop(m) => {
                return m;
            },
            Turn::Advance(q, next) => {
                proof {
                    reveal(rest);
                    assert(reply_views(replies@).len() == replies@.len());
                    assert(rest(replies@, next as int).len() < rest(replies@, at as int).len());
                }
                p = q;
                at = next;
            },
        }
    }
}

} // verus!
