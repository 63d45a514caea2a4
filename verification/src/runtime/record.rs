//! The record of a transition, as it is written before the transition is committed.

use vstd::prelude::*;

use crate::json::{number, obj, then_step, Json, JsonMap, JsonView, Members, ObjectView};
use crate::model::{
    audit_entry, entry, nanos_of, secs_of, utc_rfc3339, AuditEvent, AuditView, Timestamp,
};
use crate::runtime::effects::{copy_values, opt_json};
use crate::runtime::records::{blackboard_delta, is_delta};
use crate::runtime::script::{RecordParams, RecordView};
use crate::text::{opt_string, same};

verus! {

/// The hash of a script in the library that an instance carries.
pub open spec fn script_hash(definition: JsonView, subject: Seq<char>) -> Option<Seq<char>> {
    match then_step(then_step(definition.step("_scriptsLibrary"@), subject), "hash"@) {
        Some(h) => h.as_str(),
        None => None,
    }
}

/// What the record tells of a script: which one ran, and the hash of its text.
pub open spec fn script_facts(o: ObjectView, definition: JsonView, config: JsonView) -> ObjectView {
    match config.get_str("subject"@) {
        None => o,
        Some(subject) => match script_hash(definition, subject) {
            None => o.with("subject"@, JsonView::Str(subject)),
            Some(hash) => o.with("subject"@, JsonView::Str(subject)).with(
                "hash"@,
                JsonView::Str(hash),
            ),
        },
    }
}

/// What the record tells of an executor: its kind, how it did and how long it took if it
/// ran, and which script it was.
pub open spec fn executor_facts(p: RecordView) -> Option<JsonView> {
    match p.transition_def.get("executor"@) {
        None => None,
        Some(config) => match config.get_str("kind"@) {
            None => None,
            Some(kind) => {
                let o = obj().with("kind"@, JsonView::Str(kind));
                let o = match p.executor {
                    Some((ok, ms)) => o.with("ok"@, JsonView::Bool(ok)).with(
                        "durationMs"@,
                        number(ms),
                    ),
                    None => o,
                };
                if kind == "script"@ {
                    Some(script_facts(o, p.instance.definition, config).json())
                } else {
                    Some(o.json())
                }
            },
        },
    }
}

fn make_script_facts(m: JsonMap, definition: &Json, config: &Json) -> (r: JsonMap)
    ensures
        forall|o: ObjectView| o.m == m@ ==> r@ == #[trigger] script_facts(
            o,
            definition@,
            config@,
        ).m,
{
    let subject = match config.get_str("subject") {
        Some(s) => s,
        None => {
            return m;
        },
    };
    let hash = match definition.at3("_scriptsLibrary", subject, "hash") {
        Some(h) => h.as_str(),
        None => None,
    };
    let m = m.with("subject", Json::text(subject));
    match hash {
        Some(h) => m.with("hash", Json::text(h)),
        None => m,
    }
}

fn make_executor_facts(p: &RecordParams) -> (r: Option<Json>)
    ensures
        opt_json(r) == executor_facts(p@),
{
    let config = match p.transition_def.get("executor") {
        Some(c) => c,
        None => {
            return None;
        },
    };
    let kind = match config.get_str("kind") {
        Some(k) => k,
        None => {
            return None;
        },
    };
    let m = JsonMap::new().with("kind", Json::text(kind));
    let ghost o = obj().with("kind"@, JsonView::Str(kind@));
    assert(m@ == o.m);
    let m = match p.executor {
        Some((ok, ms)) => m.with("ok", Json::Bool(ok)).with("durationMs", Json::uint(ms)),
        None => m,
    };
    let ghost o2 = match p.executor {
        Some((ok, ms)) => o.with("ok"@, JsonView::Bool(ok)).with("durationMs"@, number(ms)),
        None => o,
    };
    assert(m@ == o2.m);
    if same(kind, "script") {
        Some(Json::Object(make_script_facts(m, &p.instance.definition, config)))
    } else {
        Some(Json::Object(m))
    }
}

/// A text, or null.
pub open spec fn text_or_null(s: Option<Seq<char>>) -> JsonView {
    match s {
        Some(s) => JsonView::Str(s),
        None => JsonView::Null,
    }
}

pub fn make_text_or_null(s: &Option<String>) -> (r: Json)
    ensures
        r@ == text_or_null(opt_string(*s)),
{
    match s {
        Some(s) => Json::Str(s.clone()),
        None => Json::Null,
    }
}

/// What the record of every transition tells.
pub open spec fn record_facts(
    p: RecordView,
    delta: Members,
    at: int,
    cor: Seq<char>,
) -> ObjectView {
    obj().with("workflowId"@, JsonView::Str(p.instance.id)).with(
        "definitionId"@,
        JsonView::Str(p.instance.definition_id),
    ).with("definitionVersion"@, JsonView::Str(p.instance.definition_version)).with(
        "seq"@,
        number(p.instance.version),
    ).with("timestamp"@, JsonView::Str(utc_rfc3339(secs_of(at), nanos_of(at)))).with(
        "fromState"@,
        JsonView::Str(p.from_state),
    ).with("toState"@, JsonView::Str(p.instance.state)).with(
        "transition"@,
        JsonView::Str(p.transition),
    ).with("actor"@, JsonView::Str(p.actor)).with("principal"@, text_or_null(p.principal)).with(
        "guards"@,
        JsonView::Array(p.guards),
    ).with("arguments"@, p.arguments).with("blackboardDelta"@, JsonView::Object(delta)).with(
        "childWorkflowId"@,
        text_or_null(p.child_workflow_id),
    ).with("correlationId"@, JsonView::Str(cor))
}

/// The record of a transition: what every record tells, the executor, and the purpose. A
/// lightweight transition is recorded as an interaction.
pub open spec fn record_entry(
    p: RecordView,
    delta: Members,
    at: int,
    cor: Seq<char>,
) -> AuditView {
    let o = record_facts(p, delta, at, cor);
    let o = match executor_facts(p) {
        Some(e) => o.with("executor"@, e),
        None => o,
    };
    let o = match p.transition_def.get_str("purpose"@) {
        Some(s) => o.with("purpose"@, JsonView::Str(s)),
        None => o,
    };
    entry(
        if p.transition_def.get_bool("lightweight"@) == Some(true) {
            "workflow.interaction"@
        } else {
            "workflow.transition"@
        },
        p.instance.id,
        p.principal,
        Some(cor),
        o.m,
    )
}

fn make_record_facts(p: &RecordParams, delta: JsonMap, at: &Timestamp, cor: &str) -> (r: JsonMap)
    ensures
        r@ == record_facts(p@, delta@, at@, cor@).m,
{
    broadcast use crate::json::array_view;

    let guards = copy_values(&p.guards);
    let m = JsonMap::new().with("workflowId", Json::text(p.instance.id.as_str())).with(
        "definitionId",
        Json::text(p.instance.definition_id.as_str()),
    ).with("definitionVersion", Json::text(p.instance.definition_version.as_str())).with(
        "seq",
        Json::uint(p.instance.version),
    ).with("timestamp", Json::Str(at.rfc3339_text())).with(
        "fromState",
        Json::text(p.from_state.as_str()),
    ).with("toState", Json::text(p.instance.state.as_str())).with(
        "transition",
        Json::text(p.transition.as_str()),
    );
    m.with("actor", Json::text(p.actor.as_str())).with(
        "principal",
        make_text_or_null(&p.principal),
    ).with("guards", Json::Array(guards)).with("arguments", p.arguments.clone()).with(
        "blackboardDelta",
        Json::Object(delta),
    ).with("childWorkflowId", make_text_or_null(&p.child_workflow_id)).with(
        "correlationId",
        Json::text(cor),
    )
}

/// Writes the record of a transition at a moment: it tells how the context changed, so that
/// the context at any moment can be read from the records.
pub fn emit_transition_record(p: &RecordParams, at: &Timestamp, correlation_id: &str) -> (r:
    AuditEvent)
    ensures
        exists|delta: Members|
            is_delta(p.before@, p.instance.context@, delta) && r@ == #[trigger] record_entry(
                p@,
                delta,
                at@,
                correlation_id@,
            ),
{
    let delta = blackboard_delta(&p.before, &p.instance.context);
    let ghost d = delta@;
    let m = make_record_facts(p, delta, at, correlation_id);
    let m = match make_executor_facts(p) {
        Some(e) => m.with("executor", e),
        None => m,
    };
    let m = match p.transition_def.get_str("purpose") {
        Some(s) => m.with("purpose", Json::text(s)),
        None => m,
    };
    let light = match p.transition_def.get_bool("lightweight") {
        Some(b) => b,
        None => false,
    };
    let event_type = if light {
        "workflow.interaction"
    } else {
        "workflow.transition"
    };
    let principal = match &p.principal {
        Some(s) => Some(s.as_str()),
        None => None,
    };
    let r = audit_entry(
        event_type,
        p.instance.id.as_str(),
        principal,
        Some(correlation_id),
        m,
    );
    assert(r@ == record_entry(p@, d, at@, correlation_id@));
    r
}

/// The entry that another could not be put on the record.
pub open spec fn write_failed(event_type: Seq<char>, error: Seq<char>) -> AuditView {
    AuditView {
        event_type: "audit.write_failed"@,
        workflow_id: None,
        actor: None,
        correlation_id: None,
        topology: None,
        payload: obj().with("originalEvent"@, JsonView::Str(event_type)).with(
            "error"@,
            JsonView::Str(error),
        ).json(),
    }
}

/// What is recorded in place of an entry that could not be, where the work goes on.
pub fn record_or_self_event(event_type: &str, error: &str) -> (r: AuditEvent)
    ensures
        r@ == write_failed(event_type@, error@),
{
    let payload = JsonMap::new().with("originalEvent", Json::text(event_type)).with(
        "error",
        Json::text(error),
    );
    AuditEvent {
        event_type: "audit.write_failed".to_owned(),
        workflow_id: None,
        actor: None,
        correlation_id: None,
        topology: None,
        payload: Json::Object(payload),
    }
}

} // verus!
