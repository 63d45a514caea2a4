//! What happens to an instance beside the transitions that are submitted: what a state does
//! when it is entered, the timeout, the cancellation, and the look at it.

use vstd::prelude::*;

use crate::json::{number, obj, then_step, views, Json, JsonMap, JsonView, Members};
use crate::model::{
    audit_entry, elapsed, entry, nanos_of, secs_of, utc_json, AuditView, InstanceView, Principal,
    PrincipalView, WorkflowInstance,
};
use crate::runtime::chain::time_is_up;
use crate::runtime::effects::{
    copy_evidence, copy_json, opt_json, AuditMode, ExecuteResult, Failure, FailureView, ResultView,
    StatusHint,
};
use crate::runtime::guards::empty_object;
use crate::runtime::links::{is_terminal, or_null, state_def, terminal, text_or};
use crate::runtime::record::{make_text_or_null, text_or_null};
use crate::runtime::records::{
    all_checks, check_views, slot_checks, slot_violation, validate_blackboard_writes,
};
use crate::runtime::runtime::WorkflowRuntime;
use crate::runtime::schema::text_at;
use crate::runtime::script::{
    can_grow, first, reply_at, reply_views, rest, sound, Effect, EffectView, RecordParams,
    RecordView, Reply, ReplyView, Step, StepView,
};

verus! {

/// An instance, or why there is none.
pub type FoundView = Result<InstanceView, FailureView>;

pub open spec fn found(x: Result<WorkflowInstance, Failure>) -> FoundView {
    match x {
        Ok(i) => Ok(i@),
        Err(e) => Err(e@),
    }
}

/// An end with an error text.
pub open spec fn torn(message: Seq<char>) -> StepView<FoundView> {
    StepView::Done(Err(FailureView::Text(message)))
}

fn tear(message: &str) -> (r: Step<Result<WorkflowInstance, Failure>>)
    ensures
        r.seen(|x: Result<WorkflowInstance, Failure>| found(x)) == torn(message@),
{
    Step::Done(Err(Failure::Text(message.to_owned())))
}

/// What a state does when it is entered.
pub open spec fn entry_work(definition: JsonView, state: Seq<char>) -> Option<JsonView> {
    then_step(state_def(definition, state), "onEnter"@)
}

/// How a write of the wrong type on entry is worded.
pub open spec fn entry_type_fault(slot: Seq<char>, reason: Seq<char>) -> Seq<char> {
    "BLACKBOARD_TYPE_ERROR: onEnter output write to typed slot '"@ + slot + "': "@ + reason
}

/// The instance with what its state wrote on entry, one version on.
pub open spec fn entered_instance(i: InstanceView, context: JsonView) -> InstanceView {
    InstanceView { context, version: (i.version + 1) as u64, ..i }
}

/// What the entry wrote is stored.
pub open spec fn entry_storing(i: InstanceView, context: JsonView, r: Seq<ReplyView>) -> StepView<
    FoundView,
> {
    match first(r) {
        None => StepView::Do(
            EffectView::Save {
                instance: entered_instance(i, context),
                expected_version: i.version,
            },
        ),
        Some(ReplyView::Instance(x)) => StepView::Done(x),
        _ => StepView::Misfit,
    }
}

/// What the entry wrote is held against the slots' schemas, and its evidence is kept.
pub open spec fn entry_written(
    definition: JsonView,
    evidence: bool,
    i: InstanceView,
    work: JsonView,
    res: ResultView,
    context: JsonView,
    r: Seq<ReplyView>,
) -> StepView<FoundView> {
    let checks = all_checks(definition, work.get("output"@), context);
    match first(r) {
        None => StepView::Do(EffectView::CheckSlots { checks }),
        Some(ReplyView::Verdicts(v)) => if v.len() != checks.len() {
            StepView::Misfit
        } else {
            match slot_violation(checks, v) {
                Some((slot, reason)) => torn(entry_type_fault(slot, reason)),
                None => if evidence {
                    match first(r.drop_first()) {
                        None => StepView::Do(
                            EffectView::KeepEvidence {
                                workflow_id: i.id,
                                evidence: res.evidence,
                            },
                        ),
                        Some(ReplyView::Done(_)) => entry_storing(
                            i,
                            context,
                            r.drop_first().drop_first(),
                        ),
                        _ => StepView::Misfit,
                    }
                } else {
                    entry_storing(i, context, r.drop_first())
                },
            }
        },
        _ => StepView::Misfit,
    }
}

/// The executor of the entry came back.
pub open spec fn entry_produced(
    definition: JsonView,
    evidence: bool,
    i: InstanceView,
    work: JsonView,
    res: ResultView,
    r: Seq<ReplyView>,
) -> StepView<FoundView> {
    if res.next_transition is Some {
        torn(
            "NEXT_TRANSITION_UNSUPPORTED: an onEnter executor returned a next_transition, which is only supported on interactive submit transitions"@,
        )
    } else {
        match first(r) {
            None => StepView::Do(
                EffectView::Merge {
                    context: i.context,
                    output: work.get("output"@),
                    arguments: empty_object(),
                    input: i.input,
                    result: res.output,
                },
            ),
            Some(ReplyView::Merged(Err(e))) => torn(e),
            Some(ReplyView::Merged(Ok(context))) => entry_written(
                definition,
                evidence,
                i,
                work,
                res,
                context,
                r.drop_first(),
            ),
            _ => StepView::Misfit,
        }
    }
}

/// The entry of a state: its executor runs, and what it produced is written and stored.
/// Without an executor nothing happens.
pub open spec fn on_enter(
    definition: JsonView,
    evidence: bool,
    i: InstanceView,
    cor: Seq<char>,
    r: Seq<ReplyView>,
) -> StepView<FoundView> {
    match entry_work(definition, i.state) {
        None => StepView::Done(Ok(i)),
        Some(work) => match work.get("executor"@) {
            None => StepView::Done(Ok(i)),
            Some(config) => match first(r) {
                None => StepView::Do(
                    EffectView::ParsePolicy { reliability: work.get("reliability"@) },
                ),
                Some(ReplyView::Done(Err(e))) => torn(e),
                Some(ReplyView::Done(Ok(_))) => match first(r.drop_first()) {
                    None => StepView::Do(
                        EffectView::Execute {
                            correlation_id: cor,
                            instance: i,
                            fired: None,
                            arguments: empty_object(),
                            config,
                            reliability: work.get("reliability"@),
                        },
                    ),
                    Some(ReplyView::Executed { result: Err(err), elapsed_ms }) => torn(
                        "onEnter executor failed: "@ + err.message,
                    ),
                    Some(ReplyView::Executed { result: Ok(res), elapsed_ms }) => entry_produced(
                        definition,
                        evidence,
                        i,
                        work,
                        res,
                        r.drop_first().drop_first(),
                    ),
                    _ => StepView::Misfit,
                },
                _ => StepView::Misfit,
            },
        },
    }
}

fn do_entry_storing(i: &WorkflowInstance, context: &Json, replies: &Vec<Reply>, at: usize) -> (r:
    Step<Result<WorkflowInstance, Failure>>)
    requires
        at <= replies@.len(),
        sound(replies@),
        can_grow(i@),
    ensures
        r.seen(|x: Result<WorkflowInstance, Failure>| found(x)) == entry_storing(
            i@,
            context@,
            rest(replies@, at as int),
        ),
{
    match reply_at(replies, at) {
        None => {
            let mut next = i.clone();
            next.context = context.clone();
            next.version = i.version + 1;
            assert(next@ == entered_instance(i@, context@));
            Step::Do(Effect::Save { instance: next, expected_version: i.version })
        },
        Some(Reply::Instance(Ok(saved))) => Step::Done(Ok(saved.clone())),
        Some(Reply::Instance(Err(e))) => Step::Done(Err(e.clone())),
        Some(_) => Step::Misfit,
    }
}

fn do_entry_written(
    definition: &Json,
    evidence: bool,
    i: &WorkflowInstance,
    work: &Json,
    res: &ExecuteResult,
    context: &Json,
    replies: &Vec<Reply>,
    at: usize,
) -> (r: Step<Result<WorkflowInstance, Failure>>)
    requires
        at <= replies@.len(),
        sound(replies@),
        can_grow(i@),
    ensures
        r.seen(|x: Result<WorkflowInstance, Failure>| found(x)) == entry_written(
            definition@,
            evidence,
            i@,
            work@,
            res@,
            context@,
            rest(replies@, at as int),
        ),
{
    let checks = slot_checks(definition, work.get("output"), context);
    assert(check_views(checks@).len() == checks@.len());
    match reply_at(replies, at) {
        None => Step::Do(Effect::CheckSlots { checks }),
        Some(Reply::Verdicts(v)) => if v.len() != checks.len() {
            Step::Misfit
        } else {
            match validate_blackboard_writes(&checks, v) {
                Err((slot, reason)) => {
                    let mut m =
                        "BLACKBOARD_TYPE_ERROR: onEnter output write to typed slot '".to_owned();
                    m.append(slot.as_str());
                    m.append("': ");
                    m.append(reason.as_str());
                    tear(m.as_str())
                },
                Ok(_) => if evidence {
                    match reply_at(replies, at + 1) {
                        None => Step::Do(
                            Effect::KeepEvidence {
                                workflow_id: i.id.clone(),
                                evidence: copy_evidence(&res.evidence),
                            },
                        ),
                        Some(Reply::Done(_)) => do_entry_storing(i, context, replies, at + 2),
                        Some(_) => Step::Misfit,
                    }
                } else {
                    do_entry_storing(i, context, replies, at + 1)
                },
            }
        },
        Some(_) => Step::Misfit,
    }
}

fn do_entry_produced(
    definition: &Json,
    evidence: bool,
    i: &WorkflowInstance,
    work: &Json,
    res: &ExecuteResult,
    replies: &Vec<Reply>,
    at: usize,
) -> (r: Step<Result<WorkflowInstance, Failure>>)
    requires
        at <= replies@.len(),
        sound(replies@),
        can_grow(i@),
    ensures
        r.seen(|x: Result<WorkflowInstance, Failure>| found(x)) == entry_produced(
            definition@,
            evidence,
            i@,
            work@,
            res@,
            rest(replies@, at as int),
        ),
{
    if res.next_transition.is_some() {
        return tear(
            "NEXT_TRANSITION_UNSUPPORTED: an onEnter executor returned a next_transition, which is only supported on interactive submit transitions",
        );
    }
    match reply_at(replies, at) {
        None => Step::Do(
            Effect::Merge {
                context: i.context.clone(),
                output: copy_json(work.get("output")),
                arguments: Json::Object(JsonMap::new()),
                input: i.input.clone(),
                result: res.output.clone(),
            },
        ),
        Some(Reply::Merged(Err(e))) => tear(e.as_str()),
        Some(Reply::Merged(Ok(context))) => do_entry_written(
            definition,
            evidence,
            i,
            work,
            res,
            context,
            replies,
            at + 1,
        ),
        Some(_) => Step::Misfit,
    }
}

/// Runs what a state does when it is entered. `evidence` says whether a store of evidence is
/// wired.
pub fn run_on_enter(
    definition: &Json,
    evidence: bool,
    instance: &WorkflowInstance,
    correlation_id: &str,
    replies: &Vec<Reply>,
) -> (r: Step<Result<WorkflowInstance, Failure>>)
    requires
        sound(replies@),
        can_grow(instance@),
    ensures
        r.seen(|x: Result<WorkflowInstance, Failure>| found(x)) == on_enter(
            definition@,
            evidence,
            instance@,
            correlation_id@,
            reply_views(replies@),
        ),
{
    proof {
        reveal(rest);
        assert(rest(replies@, 0) =~= reply_views(replies@));
    }
    let work = match definition.at3("states", instance.state.as_str(), "onEnter") {
        Some(w) => w,
        None => {
            return Step::Done(Ok(instance.clone()));
        },
    };
    let config = match work.get("executor") {
        Some(c) => c,
        None => {
            return Step::Done(Ok(instance.clone()));
        },
    };
    match reply_at(replies, 0) {
        None => Step::Do(
            Effect::ParsePolicy { reliability: copy_json(work.get("reliability")) },
        ),
        Some(Reply::Done(Err(e))) => tear(e.as_str()),
        Some(Reply::Done(Ok(_))) => match reply_at(replies, 1) {
            None => Step::Do(
                Effect::Execute {
                    correlation_id: correlation_id.to_owned(),
                    instance: instance.clone(),
                    fired: None,
                    arguments: Json::Object(JsonMap::new()),
                    config: config.clone(),
                    reliability: copy_json(work.get("reliability")),
                },
            ),
            Some(Reply::Executed { result: Err(err), elapsed_ms }) => {
                let mut m = "onEnter executor failed: ".to_owned();
                m.append(err.message.as_str());
                tear(m.as_str())
            },
            Some(Reply::Executed { result: Ok(res), elapsed_ms }) => do_entry_produced(
                definition,
                evidence,
                instance,
                work,
                res,
                replies,
                2,
            ),
            Some(_) => Step::Misfit,
        },
        Some(_) => Step::Misfit,
    }
}

/// The instance after its timeout, if that applied.
pub type TimeoutView = Result<Option<InstanceView>, FailureView>;

pub open spec fn timed(x: Result<Option<WorkflowInstance>, Failure>) -> TimeoutView {
    match x {
        Ok(Some(i)) => Ok(Some(i@)),
        Ok(None) => Ok(None),
        Err(e) => Err(e@),
    }
}

/// The entry of a timeout. `moved` is the state that the instance was moved to.
pub open spec fn timeout_entry(
    i: InstanceView,
    from: Seq<char>,
    ms: u64,
    limit: u64,
    moved: Option<(Seq<char>, Seq<char>)>,
    subject: Seq<char>,
) -> AuditView {
    let facts = obj().with("elapsedMs"@, number(ms)).with("timeoutMs"@, number(limit)).with(
        "fromState"@,
        JsonView::Str(from),
    );
    match moved {
        Some((to, cor)) => entry(
            "workflow.timed_out"@,
            i.id,
            Some(subject),
            Some(cor),
            facts.with("toState"@, JsonView::Str(to)).with("applied"@, JsonView::Bool(true)).m,
        ),
        None => entry(
            "workflow.timed_out"@,
            i.id,
            Some(subject),
            None,
            facts.with("applied"@, JsonView::Bool(false)).m,
        ),
    }
}

fn make_timeout_entry(
    i: &WorkflowInstance,
    from: &str,
    ms: u64,
    limit: u64,
    moved: Option<(&str, &str)>,
    subject: &str,
) -> (r: Effect)
    ensures
        r@ == (EffectView::Audit {
            event: timeout_entry(
                i@,
                from@,
                ms,
                limit,
                match moved {
                    Some((to, cor)) => Some((to@, cor@)),
                    None => None,
                },
                subject@,
            ),
            mode: AuditMode::SelfEvent,
        }),
{
    let facts = JsonMap::new().with("elapsedMs", Json::uint(ms)).with(
        "timeoutMs",
        Json::uint(limit),
    ).with("fromState", Json::text(from));
    let event = match moved {
        Some((to, cor)) => audit_entry(
            "workflow.timed_out",
            i.id.as_str(),
            Some(subject),
            Some(cor),
            facts.with("toState", Json::text(to)).with("applied", Json::Bool(true)),
        ),
        None => audit_entry(
            "workflow.timed_out",
            i.id.as_str(),
            Some(subject),
            None,
            facts.with("applied", Json::Bool(false)),
        ),
    };
    Effect::Audit { event, mode: AuditMode::SelfEvent }
}

/// The record of a timeout.
pub open spec fn timeout_record(definition: JsonView, i: InstanceView, next: InstanceView) -> RecordView {
    RecordView {
        instance: next,
        before: i.context,
        from_state: i.state,
        transition: text_or(text_at(definition, "/onTimeout/transition"@), "onTimeout"@),
        transition_def: or_null(crate::pointer::pointed(definition, "/onTimeout"@)),
        actor: "system"@,
        principal: None,
        arguments: empty_object(),
        guards: Seq::empty(),
        child_workflow_id: None,
        executor: None,
    }
}

fn make_timeout_record(definition: &Json, i: &WorkflowInstance, next: &WorkflowInstance) -> (r:
    RecordParams)
    ensures
        r@ == timeout_record(definition@, i@, next@),
{
    let name = match definition.pointer("/onTimeout/transition") {
        Some(t) => match t.as_str() {
            Some(s) => s,
            None => "onTimeout",
        },
        None => "onTimeout",
    };
    let guards: Vec<Json> = Vec::new();
    assert(views(guards@) =~= Seq::empty());
    RecordParams {
        instance: next.clone(),
        before: i.context.clone(),
        from_state: i.state.clone(),
        transition: name.to_owned(),
        transition_def: crate::runtime::links::copy_or_null(definition.pointer("/onTimeout")),
        actor: "system".to_owned(),
        principal: None,
        arguments: Json::Object(JsonMap::new()),
        guards,
        child_workflow_id: None,
        executor: None,
    }
}

/// The instance in the state that its timeout leads to.
pub open spec fn timed_out(i: InstanceView, target: Seq<char>) -> InstanceView {
    InstanceView { state: target, version: (i.version + 1) as u64, ..i }
}

/// The timeout is stored: it is told, and whoever waits for the instance is resumed where
/// the instance is at an end.
pub open spec fn timeout_stored(
    definition: JsonView,
    i: InstanceView,
    saved: InstanceView,
    target: Seq<char>,
    ms: u64,
    limit: u64,
    cor: Seq<char>,
    subject: Seq<char>,
    r: Seq<ReplyView>,
) -> StepView<TimeoutView> {
    match first(r) {
        None => StepView::Do(
            EffectView::Audit {
                event: timeout_entry(saved, i.state, ms, limit, Some((target, cor)), subject),
                mode: AuditMode::SelfEvent,
            },
        ),
        Some(ReplyView::Done(_)) => if terminal(definition, saved.state) {
            match first(r.drop_first()) {
                None => StepView::Do(EffectView::ResumeParent { instance: saved }),
                Some(ReplyView::Done(_)) => StepView::Done(Ok(Some(saved))),
                _ => StepView::Misfit,
            }
        } else {
            StepView::Done(Ok(Some(saved)))
        },
        _ => StepView::Misfit,
    }
}

/// The time is up: the instance moves to the declared state, after the record of that was
/// written. Without a declared state, or where the record is not written, it stays.
pub open spec fn timing_out(
    definition: JsonView,
    i: InstanceView,
    ms: u64,
    limit: u64,
    cor: Seq<char>,
    subject: Seq<char>,
    r: Seq<ReplyView>,
) -> StepView<TimeoutView> {
    match text_at(definition, "/onTimeout/target"@) {
        None => match first(r) {
            None => StepView::Do(
                EffectView::Audit {
                    event: timeout_entry(i, i.state, ms, limit, None, subject),
                    mode: AuditMode::SelfEvent,
                },
            ),
            Some(ReplyView::Done(_)) => StepView::Done(Ok(None)),
            _ => StepView::Misfit,
        },
        Some(target) => {
            let next = timed_out(i, target);
            match first(r) {
                None => StepView::Do(
                    EffectView::Record {
                        params: timeout_record(definition, i, next),
                        correlation_id: cor,
                    },
                ),
                Some(ReplyView::Done(Err(_))) => StepView::Done(Ok(None)),
                Some(ReplyView::Done(Ok(_))) => match first(r.drop_first()) {
                    None => StepView::Do(
                        EffectView::Save { instance: next, expected_version: i.version },
                    ),
                    Some(ReplyView::Instance(Err(e))) => StepView::Done(Err(e)),
                    Some(ReplyView::Instance(Ok(saved))) => timeout_stored(
                        definition,
                        i,
                        saved,
                        target,
                        ms,
                        limit,
                        cor,
                        subject,
                        r.drop_first().drop_first(),
                    ),
                    _ => StepView::Misfit,
                },
                _ => StepView::Misfit,
            }
        },
    }
}

/// The timeout of an instance, which applies where one is declared, the instance is not at
/// an end, and the time is up.
pub open spec fn timeout(
    definition: JsonView,
    i: InstanceView,
    cor: Seq<char>,
    subject: Seq<char>,
    r: Seq<ReplyView>,
) -> StepView<TimeoutView> {
    match definition.get_u64("timeoutMs"@) {
        None => StepView::Done(Ok(None)),
        Some(limit) => if terminal(definition, i.state) {
            StepView::Done(Ok(None))
        } else {
            match first(r) {
                None => StepView::Do(EffectView::Now),
                Some(ReplyView::Time(now)) => if time_is_up(now, i.started_at, limit) {
                    timing_out(
                        definition,
                        i,
                        elapsed(now, i.started_at) as u64,
                        limit,
                        cor,
                        subject,
                        r.drop_first(),
                    )
                } else {
                    StepView::Done(Ok(None))
                },
                _ => StepView::Misfit,
            }
        },
    }
}

fn do_timeout_stored(
    definition: &Json,
    i: &WorkflowInstance,
    saved: &WorkflowInstance,
    target: &str,
    ms: u64,
    limit: u64,
    cor: &str,
    subject: &str,
    replies: &Vec<Reply>,
    at: usize,
) -> (r: Step<Result<Option<WorkflowInstance>, Failure>>)
    requires
        at <= replies@.len(),
        sound(replies@),
    ensures
        r.seen(|x: Result<Option<WorkflowInstance>, Failure>| timed(x)) == timeout_stored(
            definition@,
            i@,
            saved@,
            target@,
            ms,
            limit,
            cor@,
            subject@,
            rest(replies@, at as int),
        ),
{
    match reply_at(replies, at) {
        None => Step::Do(
            make_timeout_entry(saved, i.state.as_str(), ms, limit, Some((target, cor)), subject),
        ),
        Some(Reply::Done(_)) => if is_terminal(definition, saved.state.as_str()) {
            match reply_at(replies, at + 1) {
                None => Step::Do(Effect::ResumeParent { instance: saved.clone() }),
                Some(Reply::Done(_)) => Step::Done(Ok(Some(saved.clone()))),
                Some(_) => Step::Misfit,
            }
        } else {
            Step::Done(Ok(Some(saved.clone())))
        },
        Some(_) => Step::Misfit,
    }
}

fn do_timing_out(
    definition: &Json,
    i: &WorkflowInstance,
    ms: u64,
    limit: u64,
    cor: &str,
    subject: &str,
    replies: &Vec<Reply>,
    at: usize,
) -> (r: Step<Result<Option<WorkflowInstance>, Failure>>)
    requires
        at <= replies@.len(),
        sound(replies@),
        can_grow(i@),
    ensures
        r.seen(|x: Result<Option<WorkflowInstance>, Failure>| timed(x)) == timing_out(
            definition@,
            i@,
            ms,
            limit,
            cor@,
            subject@,
            rest(replies@, at as int),
        ),
{
    let target = match definition.pointer("/onTimeout/target") {
        Some(t) => t.as_str(),
        None => None,
    };
    let target = match target {
        Some(t) => t,
        None => {
            return match reply_at(replies, at) {
                None => Step::Do(
                    make_timeout_entry(i, i.state.as_str(), ms, limit, None, subject),
                ),
                Some(Reply::Done(_)) => Step::Done(Ok(None)),
                Some(_) => Step::Misfit,
            };
        },
    };
    let mut next = i.clone();
    next.state = target.to_owned();
    next.version = i.version + 1;
    assert(next@ == timed_out(i@, target@));
    match reply_at(replies, at) {
        None => Step::Do(
            Effect::Record {
                params: make_timeout_record(definition, i, &next),
                correlation_id: cor.to_owned(),
            },
        ),
        Some(Reply::Done(Err(_))) => Step::Done(Ok(None)),
        Some(Reply::Done(Ok(_))) => match reply_at(replies, at + 1) {
            None => Step::Do(Effect::Save { instance: next, expected_version: i.version }),
            Some(Reply::Instance(Err(e))) => Step::Done(Err(e.clone())),
            Some(Reply::Instance(Ok(saved))) => do_timeout_stored(
                definition,
                i,
                saved,
                target,
                ms,
                limit,
                cor,
                subject,
                replies,
                at + 2,
            ),
            Some(_) => Step::Misfit,
        },
        Some(_) => Step::Misfit,
    }
}

/// Applies the timeout of an instance.
pub fn check_and_apply_timeout(
    definition: &Json,
    instance: &WorkflowInstance,
    correlation_id: &str,
    subject: &str,
    replies: &Vec<Reply>,
) -> (r: Step<Result<Option<WorkflowInstance>, Failure>>)
    requires
        sound(replies@),
        can_grow(instance@),
    ensures
        r.seen(|x: Result<Option<WorkflowInstance>, Failure>| timed(x)) == timeout(
            definition@,
            instance@,
            correlation_id@,
            subject@,
            reply_views(replies@),
        ),
{
    proof {
        reveal(rest);
        assert(rest(replies@, 0) =~= reply_views(replies@));
    }
    let limit: u64 = match definition.get_u64("timeoutMs") {
        Some(n) => n,
        None => {
            return Step::Done(Ok(None));
        },
    };
    if is_terminal(definition, instance.state.as_str()) {
        return Step::Done(Ok(None));
    }
    match reply_at(replies, 0) {
        None => Step::Do(Effect::Now),
        Some(Reply::Time(now)) => {
            let ms: i64 = now.millis_since(&instance.started_at);
            if ms < 0 || (ms as u64) < limit {
                Step::Done(Ok(None))
            } else {
                do_timing_out(
                    definition,
                    instance,
                    ms as u64,
                    limit,
                    correlation_id,
                    subject,
                    replies,
                    1,
                )
            }
        },
        Some(_) => Step::Misfit,
    }
}

/// The end of a drive that gives nothing back.
pub open spec fn unit_result(x: Result<(), Failure>) -> Result<(), FailureView> {
    match x {
        Ok(_) => Ok(()),
        Err(e) => Err(e@),
    }
}

/// An instance that is cancelled: only the marks and the version change, the state stays.
pub open spec fn cancelled(i: InstanceView, at: int, reason: Seq<char>) -> InstanceView {
    InstanceView {
        cancelled_at: Some(at),
        cancelled_reason: Some(reason),
        version: if i.version < u64::MAX {
            (i.version + 1) as u64
        } else {
            i.version
        },
        ..i
    }
}

/// The entry of a cancellation.
pub open spec fn cancelled_entry(i: InstanceView, reason: Seq<char>) -> AuditView {
    entry(
        "workflow.cancelled"@,
        i.id,
        None,
        None,
        obj().with("reason"@, JsonView::Str(reason)).with(
            "state_at_cancel"@,
            JsonView::Str(i.state),
        ).with("version_at_cancel"@, number(i.version)).m,
    )
}

/// The cancellation is stored: it is told, and whoever waits for the instance is resumed.
pub open spec fn cancel_stored(saved: InstanceView, reason: Seq<char>, r: Seq<ReplyView>) -> StepView<
    Result<(), FailureView>,
> {
    match first(r) {
        None => StepView::Do(
            EffectView::Audit {
                event: cancelled_entry(saved, reason),
                mode: AuditMode::SelfEvent,
            },
        ),
        Some(ReplyView::Done(_)) => match first(r.drop_first()) {
            None => StepView::Do(EffectView::ResumeParent { instance: saved }),
            Some(ReplyView::Done(_)) => StepView::Done(Ok(())),
            _ => StepView::Misfit,
        },
        _ => StepView::Misfit,
    }
}

/// The cancellation of an instance. One that is cancelled already is left alone.
pub open spec fn cancelling(id: Seq<char>, reason: Seq<char>, r: Seq<ReplyView>) -> StepView<
    Result<(), FailureView>,
> {
    let r1 = r.drop_first();
    let r2 = r1.drop_first();
    match first(r) {
        None => StepView::Do(EffectView::Load { workflow_id: id }),
        Some(ReplyView::Instance(Err(e))) => StepView::Done(Err(e)),
        Some(ReplyView::Instance(Ok(i))) => if i.cancelled_at is Some {
            StepView::Done(Ok(()))
        } else {
            match first(r1) {
                None => StepView::Do(EffectView::Now),
                Some(ReplyView::Time(now)) => match first(r2) {
                    None => StepView::Do(
                        EffectView::Save {
                            instance: cancelled(i, now, reason),
                            expected_version: i.version,
                        },
                    ),
                    Some(ReplyView::Instance(Err(e))) => StepView::Done(Err(e)),
                    Some(ReplyView::Instance(Ok(saved))) => cancel_stored(
                        saved,
                        reason,
                        r2.drop_first(),
                    ),
                    _ => StepView::Misfit,
                },
                _ => StepView::Misfit,
            }
        },
        _ => StepView::Misfit,
    }
}

fn do_cancel_stored(saved: &WorkflowInstance, reason: &str, replies: &Vec<Reply>, at: usize) -> (r:
    Step<Result<(), Failure>>)
    requires
        at <= replies@.len(),
        sound(replies@),
    ensures
        r.seen(|x: Result<(), Failure>| unit_result(x)) == cancel_stored(
            saved@,
            reason@,
            rest(replies@, at as int),
        ),
{
    match reply_at(replies, at) {
        None => {
            let payload = JsonMap::new().with("reason", Json::text(reason)).with(
                "state_at_cancel",
                Json::text(saved.state.as_str()),
            ).with("version_at_cancel", Json::uint(saved.version));
            Step::Do(
                Effect::Audit {
                    event: audit_entry(
                        "workflow.cancelled",
                        saved.id.as_str(),
                        None,
                        None,
                        payload,
                    ),
                    mode: AuditMode::SelfEvent,
                },
            )
        },
        Some(Reply::Done(_)) => match reply_at(replies, at + 1) {
            None => Step::Do(Effect::ResumeParent { instance: saved.clone() }),
            Some(Reply::Done(_)) => Step::Done(Ok(())),
            Some(_) => Step::Misfit,
        },
        Some(_) => Step::Misfit,
    }
}

impl<D, S, X, G, A, E, L, Q> WorkflowRuntime<D, S, X, G, A, E, L, Q> {
    /// Cancels an instance, once: its first reason stays.
    pub fn cancel(&self, workflow_id: &str, reason: &str, replies: &Vec<Reply>) -> (r: Step<
        Result<(), Failure>,
    >)
        requires
            sound(replies@),
        ensures
            r.seen(|x: Result<(), Failure>| unit_result(x)) == cancelling(
                workflow_id@,
                reason@,
                reply_views(replies@),
            ),
    {
        proof {
            reveal(rest);
            assert(rest(replies@, 0) =~= reply_views(replies@));
        }
        match reply_at(replies, 0) {
            None => Step::Do(Effect::Load { workflow_id: workflow_id.to_owned() }),
            Some(Reply::Instance(Err(e))) => Step::Done(Err(e.clone())),
            Some(Reply::Instance(Ok(i))) => if i.cancelled_at.is_some() {
                Step::Done(Ok(()))
            } else {
                match reply_at(replies, 1) {
                    None => Step::Do(Effect::Now),
                    Some(Reply::Time(now)) => match reply_at(replies, 2) {
                        None => {
                            let mut next = i.clone();
                            next.cancelled_at = Some(now.clone());
                            next.cancelled_reason = Some(reason.to_owned());
                            if next.version < u64::MAX {
                                next.version = next.version + 1;
                            }
                            assert(next@ == cancelled(i@, now@, reason@));
                            Step::Do(Effect::Save { instance: next, expected_version: i.version })
                        },
                        Some(Reply::Instance(Err(e))) => Step::Done(Err(e.clone())),
                        Some(Reply::Instance(Ok(saved))) => do_cancel_stored(
                            saved,
                            reason,
                            replies,
                            3,
                        ),
                        Some(_) => Step::Misfit,
                    },
                    Some(_) => Step::Misfit,
                }
            },
            Some(_) => Step::Misfit,
        }
    }
}

/// A response, or why there is none.
pub type BodyView = Result<Members, FailureView>;

pub open spec fn body_result(x: Result<JsonMap, Failure>) -> BodyView {
    match x {
        Ok(m) => Ok(m@),
        Err(e) => Err(e@),
    }
}

/// The end of a drive with a response.
pub open spec fn respond_with(
    principal: PrincipalView,
    i: InstanceView,
    hint: StatusHint,
    error: Option<JsonView>,
    r: Seq<ReplyView>,
) -> StepView<BodyView> {
    match first(r) {
        None => StepView::Do(EffectView::Respond { instance: i, hint, error, principal }),
        Some(ReplyView::Response(m)) => StepView::Done(Ok(m)),
        _ => StepView::Misfit,
    }
}

pub fn do_respond_with(
    principal: &Principal,
    i: &WorkflowInstance,
    hint: StatusHint,
    error: Option<Json>,
    replies: &Vec<Reply>,
    at: usize,
) -> (r: Step<Result<JsonMap, Failure>>)
    requires
        at <= replies@.len(),
        sound(replies@),
    ensures
        r.seen(|x: Result<JsonMap, Failure>| body_result(x)) == respond_with(
            principal@,
            i@,
            hint,
            opt_json(error),
            rest(replies@, at as int),
        ),
{
    match reply_at(replies, at) {
        None => Step::Do(
            Effect::Respond { instance: i.clone(), hint, error, principal: principal.clone() },
        ),
        Some(Reply::Response(m)) => Step::Done(Ok(m.clone())),
        Some(_) => Step::Misfit,
    }
}

/// What the response for a cancelled instance tells.
pub open spec fn cancelled_error(at: int, reason: Option<Seq<char>>) -> JsonView {
    obj().with("cancelled_at"@, JsonView::Str(utc_json(secs_of(at), nanos_of(at)))).with(
        "cancelled_reason"@,
        text_or_null(reason),
    ).json()
}

/// The look at an instance: a cancellation comes before the timeout, and the timeout is
/// applied first.
pub open spec fn looking(id: Seq<char>, principal: PrincipalView, r: Seq<ReplyView>) -> StepView<
    BodyView,
> {
    let r1 = r.drop_first();
    match first(r) {
        None => StepView::Do(EffectView::Load { workflow_id: id }),
        Some(ReplyView::Instance(Err(e))) => StepView::Done(Err(e)),
        Some(ReplyView::Instance(Ok(i))) => match i.cancelled_at {
            Some(at) => respond_with(
                principal,
                i,
                StatusHint::Cancelled,
                Some(cancelled_error(at, i.cancelled_reason)),
                r1,
            ),
            None => match first(r1) {
                None => StepView::Do(EffectView::CheckTimeout { instance: i, principal }),
                Some(ReplyView::TimedOut(Err(e))) => StepView::Done(Err(e)),
                Some(ReplyView::TimedOut(Ok(Some(late)))) => respond_with(
                    principal,
                    late,
                    StatusHint::TimedOut,
                    None,
                    r1.drop_first(),
                ),
                Some(ReplyView::TimedOut(Ok(None))) => respond_with(
                    principal,
                    i,
                    StatusHint::WaitingForAction,
                    None,
                    r1.drop_first(),
                ),
                _ => StepView::Misfit,
            },
        },
        _ => StepView::Misfit,
    }
}

impl<D, S, X, G, A, E, L, Q> WorkflowRuntime<D, S, X, G, A, E, L, Q> {
    /// Looks at an instance.
    pub fn get(&self, workflow_id: &str, principal: &Principal, replies: &Vec<Reply>) -> (r: Step<
        Result<JsonMap, Failure>,
    >)
        requires
            sound(replies@),
        ensures
            r.seen(|x: Result<JsonMap, Failure>| body_result(x)) == looking(
                workflow_id@,
                principal@,
                reply_views(replies@),
            ),
    {
        proof {
            reveal(rest);
            assert(rest(replies@, 0) =~= reply_views(replies@));
        }
        match reply_at(replies, 0) {
            None => Step::Do(Effect::Load { workflow_id: workflow_id.to_owned() }),
            Some(Reply::Instance(Err(e))) => Step::Done(Err(e.clone())),
            Some(Reply::Instance(Ok(i))) => match &i.cancelled_at {
                Some(at) => {
                    let error = JsonMap::new().with("cancelled_at", Json::Str(at.json_text())).with(
                        "cancelled_reason",
                        make_text_or_null(&i.cancelled_reason),
                    );
                    do_respond_with(principal, i, StatusHint::Cancelled, Some(Json::Object(error)), replies, 1)
                },
                None => match reply_at(replies, 1) {
                    None => Step::Do(
                        Effect::CheckTimeout { instance: i.clone(), principal: principal.clone() },
                    ),
                    Some(Reply::TimedOut(Err(e))) => Step::Done(Err(e.clone())),
                    Some(Reply::TimedOut(Ok(Some(late)))) => do_respond_with(
                        principal,
                        late,
                        StatusHint::TimedOut,
                        None,
                        replies,
                        2,
                    ),
                    Some(Reply::TimedOut(Ok(None))) => do_respond_with(
                        principal,
                        i,
                        StatusHint::WaitingForAction,
                        None,
                        replies,
                        2,
                    ),
                    Some(_) => Step::Misfit,
                },
            },
            Some(_) => Step::Misfit,
        }
    }
}

/// A cancellation leaves an instance where it stands: it only notes when and why, and moves
/// the version on, so that whoever saw the version before is refused.
pub proof fn law_cancel_keeps_the_state(id: Seq<char>, reason: Seq<char>, r: Seq<ReplyView>)
    ensures
        cancelling(id, reason, r) matches StepView::Do(
            EffectView::Save { instance, expected_version },
        ) ==> {
            &&& r[0] matches ReplyView::Instance(Ok(i))
            &&& i.cancelled_at is None
            &&& expected_version == i.version
            &&& instance.state == i.state
            &&& instance.context == i.context
            &&& instance.cancelled_at is Some
            &&& instance.cancelled_reason == Some(reason)
            &&& i.version < u64::MAX ==> instance.version == i.version + 1
        },
{
}

/// To cancel an instance again changes nothing and tells nothing: it is done at once.
pub proof fn law_cancel_twice_is_once(
    id: Seq<char>,
    reason: Seq<char>,
    i: InstanceView,
    r: Seq<ReplyView>,
)
    requires
        r.len() > 0,
        r[0] == ReplyView::Instance(Ok(i)),
        i.cancelled_at is Some,
    ensures
        cancelling(id, reason, r) == StepView::<Result<(), FailureView>>::Done(Ok(())),
{
}

/// A timeout moves an instance only when its time is up, only from a state that is no end,
/// only to the declared state, and only after the record of the move was written.
pub proof fn law_timeout_only_when_due(
    definition: JsonView,
    i: InstanceView,
    cor: Seq<char>,
    subject: Seq<char>,
    r: Seq<ReplyView>,
)
    ensures
        timeout(definition, i, cor, subject, r) matches StepView::Do(EffectView::Save { instance, .. })
            ==> {
            &&& definition.get_u64("timeoutMs"@) matches Some(limit)
            &&& r[0] matches ReplyView::Time(now)
            &&& time_is_up(now, i.started_at, limit)
            &&& !terminal(definition, i.state)
            &&& text_at(definition, "/onTimeout/target"@) == Some(instance.state)
            &&& r.len() == 2
            &&& r[1] matches ReplyView::Done(Ok(_))
            &&& timeout(definition, i, cor, subject, r.drop_last()) == StepView::<TimeoutView>::Do(
                EffectView::Record {
                    params: timeout_record(definition, i, instance),
                    correlation_id: cor,
                },
            )
        },
{
    if timeout(definition, i, cor, subject, r) matches StepView::Do(EffectView::Save { .. }) {
        assert(r.drop_last()[0] == r[0]);
        assert(r.drop_last().drop_first() =~= Seq::empty());
    }
}

} // verus!
