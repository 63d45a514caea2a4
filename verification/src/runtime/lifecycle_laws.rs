//! What the drives beside the submitted transitions ask for, and with what: the entry of a state, the
//! timeout, the cancellation, and the look at an instance.

use vstd::prelude::*;

use crate::json::{lemma_reads_put, number, JsonView};
use crate::model::{InstanceView, PrincipalView};
use crate::runtime::chain::time_is_up;
use crate::runtime::effects::{AuditMode, FailureView, StatusHint};
use crate::runtime::lifecycle::{cancelling, entry_work, looking, on_enter, timeout};
use crate::runtime::records::{all_checks, slot_violation};
use crate::runtime::schema::text_at;
use crate::runtime::script::{EffectView, ReplyView, StepView};
use crate::runtime::schema::SchemaVerdict;

verus! {

/// What a state declares to be done on entry, where that has an executor.
pub open spec fn declared_entry(definition: JsonView, state: Seq<char>) -> Option<(JsonView, JsonView)> {
    match definition.at(seq!["states"@, state, "onEnter"@]) {
        Some(work) => match work.get("executor"@) {
            Some(config) => Some((work, config)),
            None => None,
        },
        None => None,
    }
}

proof fn lemma_declared_entry(definition: JsonView, state: Seq<char>)
    ensures
        entry_work(definition, state) == definition.at(seq!["states"@, state, "onEnter"@]),
{
    let path = seq!["states"@, state, "onEnter"@];
    reveal_with_fuel(JsonView::at, 4);
    assert(path.drop_first() =~= seq![state, "onEnter"@]);
    assert(path.drop_first().drop_first() =~= seq!["onEnter"@]);
    assert(path.drop_first().drop_first().drop_first() =~= Seq::empty());
}

/// Whether an entry is done with what its executor gave and with what was merged.
pub open spec fn entry_fits(
    definition: JsonView,
    evidence: bool,
    i: InstanceView,
    cor: Seq<char>,
    r: Seq<ReplyView>,
    e: EffectView,
) -> bool {
    declared_entry(definition, i.state) matches Some((work, config)) && match e {
        EffectView::ParsePolicy { reliability } => r.len() == 0 && reliability == work.get(
            "reliability"@,
        ),
        EffectView::Execute { instance, fired, arguments, config: c, reliability, correlation_id } => {
            &&& r.len() == 1
            &&& instance == i
            &&& fired is None
            &&& arguments == JsonView::Object(Seq::empty())
            &&& c == config
            &&& reliability == work.get("reliability"@)
            &&& correlation_id == cor
        },
        _ => r.len() > 1 && (r[1] matches ReplyView::Executed { result: Ok(res), .. }
            && res.next_transition is None && match e {
            EffectView::Merge { context, output, arguments, input, result } => {
                &&& r.len() == 2
                &&& context == i.context
                &&& output == work.get("output"@)
                &&& arguments == JsonView::Object(Seq::empty())
                &&& input == i.input
                &&& result == res.output
            },
            _ => r.len() > 2 && (r[2] matches ReplyView::Merged(Ok(context)) && match e {
                EffectView::CheckSlots { checks } => r.len() == 3 && checks == all_checks(
                    definition,
                    work.get("output"@),
                    context,
                ),
                EffectView::KeepEvidence { workflow_id, evidence: kept } => {
                    &&& evidence
                    &&& workflow_id == i.id
                    &&& kept == res.evidence
                    &&& r.len() == 4
                },
                EffectView::Save { instance, expected_version } => {
                    &&& expected_version == i.version
                    &&& i.version < u64::MAX ==> instance.version == i.version + 1
                    &&& instance == InstanceView { context, version: instance.version, ..i }
                    &&& slots_fit(definition, work.get("output"@), context, r)
                    &&& r.len() == if evidence {
                        5int
                    } else {
                        4
                    }
                },
                _ => false,
            }),
        }),
    }
}

/// Whether the slots that an entry wrote were found to fit.
pub open spec fn slots_fit(
    definition: JsonView,
    output: Option<JsonView>,
    context: JsonView,
    r: Seq<ReplyView>,
) -> bool {
    r.len() > 3 && (r[3] matches ReplyView::Verdicts(v) && {
        let checks = all_checks(definition, output, context);
        &&& v.len() == checks.len()
        &&& forall|k: int|
            #![trigger v[k]]
            #![trigger checks[k]]
            0 <= k < v.len() ==> v[k] == SchemaVerdict::Valid && !(checks[k] is Unregistered)
    })
}

/// Where an entry with a failure came from.
pub open spec fn entry_failed(r: Seq<ReplyView>, f: FailureView) -> bool {
    ||| (r.len() > 0 && (r[0] matches ReplyView::Done(Err(e)) && f == FailureView::Text(e)))
    ||| (r.len() > 1 && (r[1] matches ReplyView::Executed { result: Err(_), .. } && f is Text))
    ||| (r.len() > 1 && (r[1] matches ReplyView::Executed { result: Ok(res), .. }
        && res.next_transition is Some && f is Text))
    ||| (r.len() > 2 && (r[2] matches ReplyView::Merged(Err(e)) && f == FailureView::Text(e)))
    ||| (r.len() > 3 && r[3] is Verdicts && f is Text)
    ||| r.contains(ReplyView::Instance(Err(f)))
}

/// What is asked for when a state is entered: its executor runs, what it gave is merged into the
/// context of the instance by the declared output, the written slots are checked, its evidence is
/// kept, and the instance is stored with the new context. Without an executor the instance stays.
pub proof fn law_entries_ask_for_what_fits(
    definition: JsonView,
    evidence: bool,
    i: InstanceView,
    cor: Seq<char>,
    r: Seq<ReplyView>,
)
    ensures
        match on_enter(definition, evidence, i, cor, r) {
            StepView::Do(e) => entry_fits(definition, evidence, i, cor, r, e),
            StepView::Done(Ok(x)) => if declared_entry(definition, i.state) is None {
                x == i
            } else {
                r.contains(ReplyView::Instance(Ok(x)))
            },
            StepView::Done(Err(f)) => entry_failed(r, f),
            StepView::Misfit => true,
        },
{
    lemma_declared_entry(definition, i.state);
    let a = r.drop_first();
    let b = a.drop_first();
    let c = b.drop_first();
    let d = c.drop_first();
    let g = d.drop_first();
    if r.len() > 1 {
        assert(a[0] == r[1]);
    }
    if r.len() > 2 {
        assert(b[0] == r[2]);
    }
    if r.len() > 3 {
        assert(c[0] == r[3]);
    }
    if r.len() > 4 {
        assert(d[0] == r[4]);
        assert(r.contains(r[4]));
    }
    if r.len() > 5 {
        assert(g[0] == r[5]);
        assert(r.contains(r[5]));
    }
    if let Some((work, _)) = declared_entry(definition, i.state) {
        if r.len() > 3 {
            if let (ReplyView::Merged(Ok(context)), ReplyView::Verdicts(v)) = (r[2], r[3]) {
                let checks = all_checks(definition, work.get("output"@), context);
                if v.len() == checks.len() && slot_violation(checks, v) is None {
                    crate::runtime::submission_laws::lemma_all_fit(checks, v);
                }
            }
        }
    }
}

/// Time is up once as many milliseconds went by as are declared, and not before.
pub proof fn law_when_time_is_up(now: int, started: int, limit: u64)
    ensures
        now >= started ==> (time_is_up(now, started, limit) <==> now - started >= limit * 1_000_000),
        now + 1_000_000 <= started ==> !time_is_up(now, started, limit),
{
}

/// Whether an audit entry tells of a timeout.
pub open spec fn tells_timeout(
    event: crate::model::AuditView,
    i: InstanceView,
    from: Seq<char>,
    limit: u64,
    to: Option<Seq<char>>,
    subject: Seq<char>,
) -> bool {
    &&& event.event_type == "workflow.timed_out"@
    &&& event.workflow_id == Some(i.id)
    &&& event.actor == Some(subject)
    &&& event.payload.get("timeoutMs"@) == Some(number(limit))
    &&& event.payload.get_str("fromState"@) == Some(from)
    &&& event.payload.get("applied"@) == Some(JsonView::Bool(to is Some))
    &&& event.payload.get_str("toState"@) == to
}

proof fn lemma_timeout_names()
    ensures
        "elapsedMs"@ != "timeoutMs"@,
        "elapsedMs"@ != "fromState"@,
        "elapsedMs"@ != "toState"@,
        "elapsedMs"@ != "applied"@,
        "timeoutMs"@ != "fromState"@,
        "timeoutMs"@ != "toState"@,
        "timeoutMs"@ != "applied"@,
        "fromState"@ != "toState"@,
        "fromState"@ != "applied"@,
        "toState"@ != "applied"@,
        "reason"@ != "state_at_cancel"@,
        "reason"@ != "version_at_cancel"@,
        "state_at_cancel"@ != "version_at_cancel"@,
        "cancelled_at"@ != "cancelled_reason"@,
{
    reveal_strlit("elapsedMs");
    reveal_strlit("timeoutMs");
    reveal_strlit("fromState");
    reveal_strlit("toState");
    reveal_strlit("applied");
    reveal_strlit("reason");
    reveal_strlit("state_at_cancel");
    reveal_strlit("version_at_cancel");
    reveal_strlit("cancelled_at");
    reveal_strlit("cancelled_reason");
    assert("elapsedMs"@.len() == 9);
    assert("timeoutMs"@.len() == 9);
    assert("fromState"@.len() == 9);
    assert("toState"@.len() == 7);
    assert("applied"@.len() == 7);
    assert("reason"@.len() == 6);
    assert("state_at_cancel"@.len() == 15);
    assert("version_at_cancel"@.len() == 17);
    assert("cancelled_at"@.len() == 12);
    assert("cancelled_reason"@.len() == 16);
    assert("elapsedMs"@[0] != "timeoutMs"@[0]);
    assert("elapsedMs"@[0] != "fromState"@[0]);
    assert("timeoutMs"@[0] != "fromState"@[0]);
    assert("toState"@[0] != "applied"@[0]);
}

/// Whether a timeout asks for what its limit, its target and the clock say.
pub open spec fn timeout_fits(
    definition: JsonView,
    i: InstanceView,
    cor: Seq<char>,
    subject: Seq<char>,
    r: Seq<ReplyView>,
    e: EffectView,
) -> bool {
    definition.get_u64("timeoutMs"@) matches Some(limit) && !ended(definition, i.state) && match e {
        EffectView::Now => r.len() == 0,
        _ => r.len() > 0 && (r[0] matches ReplyView::Time(now) && time_is_up(
            now,
            i.started_at,
            limit,
        ) && match (e, text_at(definition, "/onTimeout/target"@)) {
            (EffectView::Audit { event, mode }, None) => {
                &&& r.len() == 1
                &&& mode == AuditMode::SelfEvent
                &&& tells_timeout(event, i, i.state, limit, None, subject)
            },
            (EffectView::Record { params, correlation_id }, Some(target)) => {
                &&& r.len() == 1
                &&& correlation_id == cor
                &&& params.instance.state == target
                &&& params.instance.id == i.id
                &&& params.instance.context == i.context
                &&& params.before == i.context
                &&& params.from_state == i.state
                &&& params.actor == "system"@
                &&& params.principal is None
                &&& params.arguments == JsonView::Object(Seq::empty())
                &&& params.guards.len() == 0
                &&& params.executor is None
                &&& params.transition == (match text_at(definition, "/onTimeout/transition"@) {
                    Some(name) => name,
                    None => "onTimeout"@,
                })
            },
            (EffectView::Save { instance, expected_version }, Some(target)) => {
                &&& r.len() == 2
                &&& r[1] matches ReplyView::Done(Ok(_))
                &&& expected_version == i.version
                &&& i.version < u64::MAX ==> instance.version == i.version + 1
                &&& instance == InstanceView { state: target, version: instance.version, ..i }
            },
            (EffectView::Audit { event, mode }, Some(target)) => {
                &&& r.len() == 3
                &&& mode == AuditMode::SelfEvent
                &&& event.correlation_id == Some(cor)
                &&& r[2] matches ReplyView::Instance(Ok(saved)) && tells_timeout(
                    event,
                    saved,
                    i.state,
                    limit,
                    Some(target),
                    subject,
                )
            },
            (EffectView::ResumeParent { instance }, Some(_)) => {
                &&& r.len() == 4
                &&& r[2] == ReplyView::Instance(Ok(instance))
                &&& ended(definition, instance.state)
            },
            _ => false,
        }),
    }
}

/// Whether a state is declared to be an end.
pub open spec fn ended(definition: JsonView, state: Seq<char>) -> bool {
    definition.at(seq!["states"@, state, "terminal"@]) == Some(JsonView::Bool(true))
}

/// An end, as the links know it.
pub proof fn lemma_ended(definition: JsonView, state: Seq<char>)
    ensures
        crate::runtime::links::terminal(definition, state) == ended(definition, state),
{
    let path = seq!["states"@, state, "terminal"@];
    reveal_with_fuel(JsonView::at, 4);
    assert(path.drop_first() =~= seq![state, "terminal"@]);
    assert(path.drop_first().drop_first() =~= seq!["terminal"@]);
    assert(path.drop_first().drop_first().drop_first() =~= Seq::empty());
}

/// What is asked for about the timeout of an instance: the clock; once the time is up, the record of
/// the move, the store, the telling of it, and the parent, where the target is an end. The instance
/// that comes back is the stored one; none does where no timeout applies, where no target is
/// declared, or where the record was not written.
pub proof fn law_timeouts_ask_for_what_fits(
    definition: JsonView,
    i: InstanceView,
    cor: Seq<char>,
    subject: Seq<char>,
    r: Seq<ReplyView>,
)
    ensures
        match timeout(definition, i, cor, subject, r) {
            StepView::Do(e) => timeout_fits(definition, i, cor, subject, r, e),
            StepView::Done(Ok(Some(x))) => {
                &&& r.len() > 3
                &&& r[2] == ReplyView::Instance(Ok(x))
                &&& text_at(definition, "/onTimeout/target"@) is Some
            },
            StepView::Done(Ok(None)) => match (
                definition.get_u64("timeoutMs"@),
                ended(definition, i.state),
            ) {
                (Some(limit), false) => r.len() > 0 && (r[0] matches ReplyView::Time(now) && (
                time_is_up(now, i.started_at, limit) ==> r.len() > 1 && match text_at(
                    definition,
                    "/onTimeout/target"@,
                ) {
                    None => r[1] is Done,
                    Some(_) => r[1] matches ReplyView::Done(Err(_)),
                })),
                _ => true,
            },
            StepView::Done(Err(f)) => r.len() > 2 && r[2] == ReplyView::Instance(Err(f)),
            StepView::Misfit => true,
        },
{
    broadcast use lemma_reads_put;

    lemma_timeout_names();
    lemma_ended(definition, i.state);
    let a = r.drop_first();
    let b = a.drop_first();
    let c = b.drop_first();
    let d = c.drop_first();
    if r.len() > 1 {
        assert(a[0] == r[1]);
    }
    if r.len() > 2 {
        assert(b[0] == r[2]);
        if let ReplyView::Instance(Ok(saved)) = r[2] {
            lemma_ended(definition, saved.state);
        }
    }
    if r.len() > 3 {
        assert(c[0] == r[3]);
    }
    if r.len() > 4 {
        assert(d[0] == r[4]);
    }
}

/// What is asked for when an instance is cancelled: the instance, the clock, the store of the same
/// instance with the time and the reason, the telling of it, and the parent. One that is cancelled
/// already is left alone.
pub proof fn law_cancellations_ask_for_what_fits(id: Seq<char>, reason: Seq<char>, r: Seq<ReplyView>)
    ensures
        match cancelling(id, reason, r) {
            StepView::Do(EffectView::Load { workflow_id }) => r.len() == 0 && workflow_id == id,
            StepView::Do(e) => r.len() > 0 && (r[0] matches ReplyView::Instance(Ok(i))
                && i.cancelled_at is None && match e {
                EffectView::Now => r.len() == 1,
                EffectView::Save { instance, expected_version } => {
                    &&& r.len() == 2
                    &&& expected_version == i.version
                    &&& r[1] matches ReplyView::Time(now) && instance == InstanceView {
                        cancelled_at: Some(now),
                        cancelled_reason: Some(reason),
                        version: instance.version,
                        ..i
                    }
                    &&& i.version < u64::MAX ==> instance.version == i.version + 1
                },
                EffectView::Audit { event, mode } => {
                    &&& r.len() == 3
                    &&& mode == AuditMode::SelfEvent
                    &&& r[2] matches ReplyView::Instance(Ok(saved)) && {
                        &&& event.event_type == "workflow.cancelled"@
                        &&& event.workflow_id == Some(saved.id)
                        &&& event.payload.get_str("reason"@) == Some(reason)
                        &&& event.payload.get_str("state_at_cancel"@) == Some(saved.state)
                        &&& event.payload.get("version_at_cancel"@) == Some(number(saved.version))
                    }
                },
                EffectView::ResumeParent { instance } => {
                    &&& r.len() == 4
                    &&& r[2] == ReplyView::Instance(Ok(instance))
                },
                _ => false,
            }),
            StepView::Done(Ok(_)) => r.len() > 0 && (r[0] matches ReplyView::Instance(Ok(i)) && (
            i.cancelled_at is Some || (r.len() > 4 && (r[2] matches ReplyView::Instance(Ok(_)))))),
            StepView::Done(Err(f)) => (r.len() > 0 && r[0] == ReplyView::Instance(Err(f))) || (r.len()
                > 2 && r[2] == ReplyView::Instance(Err(f))),
            StepView::Misfit => true,
        },
{
    broadcast use lemma_reads_put;

    lemma_timeout_names();
    let a = r.drop_first();
    let b = a.drop_first();
    let c = b.drop_first();
    let d = c.drop_first();
    if r.len() > 1 {
        assert(a[0] == r[1]);
    }
    if r.len() > 2 {
        assert(b[0] == r[2]);
    }
    if r.len() > 3 {
        assert(c[0] == r[3]);
    }
    if r.len() > 4 {
        assert(d[0] == r[4]);
    }
}

/// What a look at an instance asks for, and what it answers: a cancelled instance is shown as it is,
/// with when and why it was cancelled; another one is held against its timeout first, and is shown as
/// the timeout left it.
pub proof fn law_looks_show_what_is_stored(
    id: Seq<char>,
    principal: PrincipalView,
    r: Seq<ReplyView>,
)
    ensures
        match looking(id, principal, r) {
            StepView::Do(EffectView::Load { workflow_id }) => r.len() == 0 && workflow_id == id,
            StepView::Do(e) => r.len() > 0 && (r[0] matches ReplyView::Instance(Ok(i)) && match e {
                EffectView::CheckTimeout { instance, principal: p } => {
                    &&& r.len() == 1
                    &&& i.cancelled_at is None
                    &&& instance == i
                    &&& p == principal
                },
                EffectView::Respond { instance, hint, error, principal: p } => {
                    &&& p == principal
                    &&& i.cancelled_at is Some ==> {
                        &&& r.len() == 1
                        &&& instance == i
                        &&& hint == StatusHint::Cancelled
                        &&& error matches Some(told) && told.get("cancelled_reason"@) == Some(
                            match i.cancelled_reason {
                                Some(why) => JsonView::Str(why),
                                None => JsonView::Null,
                            },
                        ) && told.get("cancelled_at"@) is Some
                    }
                    &&& i.cancelled_at is None ==> {
                        &&& r.len() == 2
                        &&& error is None
                        &&& r[1] matches ReplyView::TimedOut(Ok(late)) && match late {
                            Some(x) => instance == x && hint == StatusHint::TimedOut,
                            None => instance == i && hint == StatusHint::WaitingForAction,
                        }
                    }
                },
                _ => false,
            }),
            StepView::Done(Ok(m)) => r.contains(ReplyView::Response(m)),
            StepView::Done(Err(f)) => (r.len() > 0 && r[0] == ReplyView::Instance(Err(f))) || (r.len()
                > 1 && r[1] == ReplyView::TimedOut(Err(f))),
            StepView::Misfit => true,
        },
{
    broadcast use lemma_reads_put;

    lemma_timeout_names();
    let a = r.drop_first();
    let b = a.drop_first();
    if r.len() > 1 {
        assert(a[0] == r[1]);
        assert(r.contains(r[1]));
    }
    if r.len() > 2 {
        assert(b[0] == r[2]);
        assert(r.contains(r[2]));
    }
}

} // verus!
