//! What a request is made of and held against: its defaults, the checks before any work, what a
//! refusal tells, what is added to a context, and which checks a written slot gets.

use vstd::prelude::*;

use crate::json::{lemma_reads_put, lookup, number, sorted, JsonView, Members};
use crate::model::InstanceView;
use crate::runtime::context::{agent_await, counted, fire_slot};
use crate::runtime::dispatch::{
    annotated, full_arguments, gate, guard_refusal, reject, DispatchView, FiredView, GateView,
    JobView, RequestView,
};
use crate::runtime::effects::{AuditMode, FailureView, NextView, StatusHint};
use crate::runtime::links::transition_def;
use crate::runtime::records::{
    all_checks, bound_check, bound_checks, finding_checks, findings_in, keys_of, typed_check,
    typed_checks, SlotCheckView,
};
use crate::runtime::schema::{defaulted, filled, law_filled_by_key, properties};
use crate::runtime::script::{EffectView, ReplyView};

verus! {

/// How a value with defaults reads, key by key: a property that is absent or null takes its declared
/// default, where there is one; one that is there is filled in by its own schema; what the schema
/// does not declare stays. What is no object, or has no declared properties, stays as it is.
pub proof fn law_defaults_fill_what_is_absent(schema: JsonView, value: JsonView)
    ensures
        match (schema.get("properties"@), value) {
            (Some(JsonView::Object(props)), JsonView::Object(m)) => {
                &&& defaulted(schema, value) is Object
                &&& sorted(props) ==> forall|key: Seq<char>| #[trigger]
                    defaulted(schema, value).get(key) == (match (lookup(props, key), lookup(m, key)) {
                        (None, held) => held,
                        (Some(p), None) => p.get("default"@),
                        (Some(p), Some(JsonView::Null)) => match p.get("default"@) {
                            Some(d) => Some(d),
                            None => Some(JsonView::Null),
                        },
                        (Some(p), Some(v)) => Some(defaulted(p, v)),
                    })
            },
            _ => defaulted(schema, value) == value,
        },
{
    match (schema.get("properties"@), value) {
        (Some(JsonView::Object(props)), JsonView::Object(m)) => {
            assert(properties(schema) == Some(props));
            assert(defaulted(schema, value) == JsonView::Object(filled(props, m)));
            if sorted(props) {
                assert forall|key: Seq<char>| #[trigger] defaulted(schema, value).get(key) == (
                match (lookup(props, key), lookup(m, key)) {
                    (None, held) => held,
                    (Some(p), None) => p.get("default"@),
                    (Some(p), Some(JsonView::Null)) => match p.get("default"@) {
                        Some(d) => Some(d),
                        None => Some(JsonView::Null),
                    },
                    (Some(p), Some(v)) => Some(defaulted(p, v)),
                }) by {
                    law_filled_by_key(props, m, key);
                }
            }
        },
        _ => {},
    }
}

/// The arguments of a request take the defaults of the input schema that the transition declares.
pub proof fn law_arguments_take_defaults(t: JsonView, arguments: JsonView)
    ensures
        full_arguments(t, arguments) == (match t.step("inputSchema"@) {
            Some(schema) => defaulted(schema, arguments),
            None => arguments,
        }),
{
}

/// How often a transition fired in the state that an instance is in; nothing where that cannot be
/// told.
pub open spec fn fired_times(i: InstanceView, transition: Seq<char>) -> Option<u64> {
    match i.context.get("_fire_count."@ + i.state + "."@ + transition) {
        None => Some(0),
        Some(v) => v.as_u64(),
    }
}

/// Whether a transition waits for an answer of a person.
pub open spec fn awaits_answer(i: InstanceView, transition: Seq<char>) -> bool {
    i.context.get("_agent_await"@) matches Some(wait) && wait.get_str("transition"@) == Some(
        transition,
    ) && wait.get_str("correlation_id"@) is Some
}

/// Who passes the first checks: a request on the version that the instance has, of a transition that
/// its state declares, by a person where only a person may decide, and not more often than the
/// transition may fire. Each other request is refused with the code of the first check that it fails.
pub proof fn law_first_checks(q: RequestView, i: InstanceView)
    ensures
        ({
            let t = i.definition.at(seq!["states"@, i.state, "transitions"@, q.transition]);
            match gate(q, i) {
                GateView::Pass(x) => {
                    &&& i.version == q.expected_version
                    &&& t == Some(x)
                    &&& x.get_str("actor"@) == Some("human"@) ==> q.principal.human()
                    &&& awaits_answer(i, q.transition) ==> q.principal.human()
                    &&& x.get_u64("max_fires_per_visit"@) matches Some(max) ==> fired_times(
                        i,
                        q.transition,
                    ) matches Some(n) && n < max
                },
                GateView::Broken(_) => {
                    &&& i.version == q.expected_version
                    &&& t matches Some(x) && x.get_u64("max_fires_per_visit"@) is Some
                    &&& fired_times(i, q.transition) is None
                },
                GateView::Reject(code, _) => {
                    ||| code == "STALE_WORKFLOW_VERSION"@ && i.version != q.expected_version
                    ||| i.version == q.expected_version && code == "INVALID_TRANSITION"@ && t is None
                    ||| i.version == q.expected_version && (t matches Some(x) && {
                        let human_only = x.get_str("actor"@) == Some("human"@);
                        ||| code == "ACTOR_MISMATCH"@ && human_only && !q.principal.human()
                        ||| code == "AWAIT_RESUME_NOT_HUMAN"@ && !human_only && awaits_answer(
                            i,
                            q.transition,
                        ) && !q.principal.human()
                        ||| code == "TRANSITION_FIRE_CAP_EXCEEDED"@ && (
                        x.get_u64("max_fires_per_visit"@) matches Some(max) && fired_times(
                            i,
                            q.transition,
                        ) matches Some(n) && n >= max)
                    })
                },
            }
        }),
{
    let path = seq!["states"@, i.state, "transitions"@, q.transition];
    reveal_with_fuel(JsonView::at, 5);
    assert(path.drop_first() =~= seq![i.state, "transitions"@, q.transition]);
    assert(path.drop_first().drop_first() =~= seq!["transitions"@, q.transition]);
    assert(path.drop_first().drop_first().drop_first() =~= seq![q.transition]);
    assert(path.drop_first().drop_first().drop_first().drop_first() =~= Seq::empty());
    assert(transition_def(i.definition, i.state, q.transition) == i.definition.at(path));
    assert(awaits_answer(i, q.transition) == (agent_await(i.context, q.transition) is Some));
    assert(fired_times(i, q.transition) == counted(i.context, fire_slot(i.state, q.transition)));
}

proof fn lemma_refusal_names()
    ensures
        "transition"@ != "code"@,
        "transition"@ != "message"@,
        "transition"@ != "fromState"@,
        "code"@ != "message"@,
        "code"@ != "fromState"@,
        "message"@ != "fromState"@,
        "code"@ != "attemptedTransition"@,
        "message"@ != "attemptedTransition"@,
{
    reveal_strlit("transition");
    reveal_strlit("code");
    reveal_strlit("message");
    reveal_strlit("fromState");
    reveal_strlit("attemptedTransition");
    assert("transition"@.len() == 10);
    assert("code"@.len() == 4);
    assert("message"@.len() == 7);
    assert("fromState"@.len() == 9);
    assert("attemptedTransition"@.len() == 19);
}

/// A refusal tells why: its entry names the transition, the state, the code and the message, who asked
/// and on which instance; its response the code, the message and the transition.
pub proof fn law_refusals_tell_why(
    j: JobView,
    i: InstanceView,
    code: Seq<char>,
    message: Seq<char>,
    r: Seq<ReplyView>,
)
    ensures
        match reject(j, i, code, message, r) {
            DispatchView::Do(EffectView::Audit { event, mode }) => {
                &&& r.len() == 0
                &&& mode == AuditMode::SelfEvent
                &&& event.event_type == "transition.rejected"@
                &&& event.workflow_id == Some(i.id)
                &&& event.actor == Some(j.request.principal.subject)
                &&& event.correlation_id == Some(j.correlation_id)
                &&& event.payload.get_str("transition"@) == Some(j.request.transition)
                &&& event.payload.get_str("code"@) == Some(code)
                &&& event.payload.get_str("message"@) == Some(message)
                &&& event.payload.get_str("fromState"@) == Some(i.state)
            },
            DispatchView::Do(EffectView::Respond { instance, hint, error, principal }) => {
                &&& r.len() == 1
                &&& instance == i
                &&& hint == StatusHint::Rejected
                &&& principal == j.request.principal
                &&& error matches Some(x) && x.get_str("code"@) == Some(code) && x.get_str(
                    "message"@,
                ) == Some(message) && x.get_str("attemptedTransition"@) == Some(
                    j.request.transition,
                )
            },
            DispatchView::Do(_) => false,
            DispatchView::Done(x) => r.len() > 1 && (r[1] matches ReplyView::Response(m) && x == Ok::<
                (Members, Option<NextView>),
                FailureView,
            >((m, None))),
            DispatchView::Misfit => true,
        },
{
    broadcast use lemma_reads_put;

    lemma_refusal_names();
}

/// How guards that refuse are told: by the cause that a guard named, where it is one that has words of
/// its own, and else as a plain refusal.
pub proof fn law_guards_name_their_cause(diagnostic: Option<Seq<char>>)
    ensures
        guard_refusal(diagnostic).0 == (match diagnostic {
            Some(d) => if d == "EVIDENCE_DIGEST_REQUIRED"@ || d
                == "EVIDENCE_CONFIDENCE_BELOW_THRESHOLD"@ {
                d
            } else {
                "GUARD_REJECTED"@
            },
            None => "GUARD_REJECTED"@,
        }),
{
}

/// What a transition adds to the context that it wrote: its summary, where it has one, and one more
/// time that it fired, where that is counted. Nothing else changes.
pub proof fn law_what_is_added_to_a_context(q: RequestView, f: FiredView, context: JsonView)
    requires
        context is Object,
        "_fire_count."@ + f.instance.state + "."@ + q.transition != "summary"@,
    ensures
        match annotated(q, f, context) {
            Some(after) => {
                let key = "_fire_count."@ + f.instance.state + "."@ + q.transition;
                &&& after is Object
                &&& after.get("summary"@) == (match q.summary {
                    Some(s) => Some(JsonView::Str(s)),
                    None => context.get("summary"@),
                })
                &&& f.transition_def.get_u64("max_fires_per_visit"@) is None ==> after.get(key)
                    == context.get(key)
                &&& f.transition_def.get_u64("max_fires_per_visit"@) is Some ==> {
                    let n = match context.get(key) {
                        Some(v) => v.as_u64()->0,
                        None => 0,
                    };
                    after.get(key) == Some(
                        number(
                            if n < u64::MAX {
                                (n + 1) as u64
                            } else {
                                n
                            },
                        ),
                    )
                }
                &&& forall|other: Seq<char>|
                    other != key && other != "summary"@ ==> #[trigger] after.get(other)
                        == context.get(other)
            },
            None => f.transition_def.get_u64("max_fires_per_visit"@) is Some && (context.get(
                "_fire_count."@ + f.instance.state + "."@ + q.transition,
            ) matches Some(v) && v.as_u64() is None),
        },
{
    broadcast use lemma_reads_put;

}

/// The slots that a mapping writes.
pub open spec fn writes(mapping: Option<JsonView>, slot: Seq<char>) -> bool {
    mapping matches Some(JsonView::Object(written)) && has_key(written, slot)
}

/// Whether members have a key.
pub open spec fn has_key(m: Members, key: Seq<char>) -> bool {
    exists|k: int| 0 <= k < m.len() && (#[trigger] m[k]).0 == key
}

/// Whether a check is one that what was written asks for: a slot that declares a schema is held
/// against it; a fix of a finding is held against the registered schema that it refers to.
pub open spec fn is_due(
    definition: JsonView,
    mapping: Option<JsonView>,
    context: JsonView,
    c: SlotCheckView,
) -> bool {
    match c {
        SlotCheckView::Typed { slot, schema, value } => {
            &&& writes(mapping, slot)
            &&& definition.get("blackboard"@) matches Some(JsonView::Object(b)) && lookup(b, slot)
                == Some(schema)
            &&& schema matches JsonView::Object(m) && m.len() > 0
            &&& value == (match context.get(slot) {
                Some(v) => v,
                None => JsonView::Null,
            })
        },
        SlotCheckView::Bound { slot, index, schema_ref, schema, value } => {
            &&& writes(mapping, slot)
            &&& fix_at(context, slot, index) matches Some(fix) && fix.get_str("schema_ref"@) == Some(
                schema_ref,
            ) && value == (match fix.get("value"@) {
                Some(v) => v,
                None => JsonView::Null,
            })
            &&& definition.get("_schemasRegistry"@) matches Some(JsonView::Object(reg)) && lookup(
                reg,
                schema_ref,
            ) == Some(schema)
        },
        SlotCheckView::Unregistered { slot, index, schema_ref, known } => {
            &&& writes(mapping, slot)
            &&& fix_at(context, slot, index) matches Some(fix) && fix.get_str("schema_ref"@) == Some(
                schema_ref,
            )
            &&& match definition.get("_schemasRegistry"@) {
                Some(JsonView::Object(reg)) => lookup(reg, schema_ref) is None && known == keys_of(
                    reg,
                ),
                _ => known.len() == 0,
            }
        },
    }
}

/// The fix of a finding that a slot holds.
pub open spec fn fix_at(context: JsonView, slot: Seq<char>, index: nat) -> Option<JsonView> {
    match context.get(slot) {
        Some(v) => match v.get("findings"@) {
            Some(JsonView::Array(a)) => if index < a.len() {
                a[index as int].get("fix"@)
            } else {
                None
            },
            _ => None,
        },
        None => None,
    }
}

proof fn lemma_contains_push<A>(s: Seq<A>, x: A, y: A)
    ensures
        s.push(x).contains(y) <==> s.contains(y) || x == y,
{
    if s.contains(y) {
        let k = s.index_of(y);
        assert(s.push(x)[k] == y);
    }
    if x == y {
        assert(s.push(x)[s.len() as int] == y);
    }
    if s.push(x).contains(y) {
        let k = s.push(x).index_of(y);
        if k < s.len() {
            assert(s[k] == y);
        }
    }
}

proof fn lemma_contains_add<A>(s: Seq<A>, t: Seq<A>, y: A)
    ensures
        (s + t).contains(y) <==> s.contains(y) || t.contains(y),
{
    if s.contains(y) {
        assert((s + t)[s.index_of(y)] == y);
    }
    if t.contains(y) {
        assert((s + t)[s.len() + t.index_of(y)] == y);
    }
    if (s + t).contains(y) {
        let k = (s + t).index_of(y);
        if k < s.len() {
            assert(s[k] == y);
        } else {
            assert(t[k - s.len()] == y);
        }
    }
}

proof fn lemma_written(written: Members, slot: Seq<char>)
    requires
        written.len() > 0,
    ensures
        has_key(written, slot) <==> has_key(written.drop_last(), slot) || written.last().0 == slot,
{
    let init = written.drop_last();
    if has_key(written, slot) {
        let k = choose|k: int| 0 <= k < written.len() && (#[trigger] written[k]).0 == slot;
        if k < init.len() {
            assert(init[k].0 == slot);
        }
    }
    if has_key(init, slot) {
        let k = choose|k: int| 0 <= k < init.len() && (#[trigger] init[k]).0 == slot;
        assert(written[k].0 == slot);
    }
    assert(written[written.len() - 1].0 == written.last().0);
}

proof fn lemma_typed_checks(b: Members, context: JsonView, written: Members, c: SlotCheckView)
    ensures
        typed_checks(b, context, written).contains(c) <==> (c matches SlotCheckView::Typed { slot, .. }
            && has_key(written, slot) && typed_check(b, context, slot)
            == Some(c)),
    decreases written.len(),
{
    if written.len() > 0 {
        let init = written.drop_last();
        lemma_typed_checks(b, context, init, c);
        if let SlotCheckView::Typed { slot, .. } = c {
            lemma_written(written, slot);
        }
        if let Some(x) = typed_check(b, context, written.last().0) {
            lemma_contains_push(typed_checks(b, context, init), x, c);
        }
    }
}

proof fn lemma_finding_checks(
    reg: Option<Members>,
    slot: Seq<char>,
    findings: Seq<JsonView>,
    c: SlotCheckView,
)
    ensures
        finding_checks(reg, slot, findings).contains(c) <==> exists|k: int|
            0 <= k < findings.len() && bound_check(reg, slot, k as nat, #[trigger] findings[k]) == Some(
                c,
            ),
    decreases findings.len(),
{
    if findings.len() > 0 {
        let init = findings.drop_last();
        let n = findings.len() - 1;
        lemma_finding_checks(reg, slot, init, c);
        if let Some(x) = bound_check(reg, slot, n as nat, findings.last()) {
            lemma_contains_push(finding_checks(reg, slot, init), x, c);
        }
        if finding_checks(reg, slot, init).contains(c) {
            let k = choose|k: int|
                0 <= k < init.len() && bound_check(reg, slot, k as nat, #[trigger] init[k]) == Some(c);
            assert(bound_check(reg, slot, k as nat, findings[k]) == Some(c));
        }
        if exists|k: int|
            0 <= k < findings.len() && bound_check(reg, slot, k as nat, #[trigger] findings[k]) == Some(
                c,
            ) {
            let k = choose|k: int|
                0 <= k < findings.len() && bound_check(reg, slot, k as nat, #[trigger] findings[k])
                    == Some(c);
            if k < n {
                assert(bound_check(reg, slot, k as nat, init[k]) == Some(c));
            }
        }
        if bound_check(reg, slot, n as nat, findings[n]) == Some(c) {
            assert(0 <= n < findings.len());
        }
    }
}

spec fn slot_of(c: SlotCheckView) -> Seq<char> {
    match c {
        SlotCheckView::Typed { slot, .. } => slot,
        SlotCheckView::Bound { slot, .. } => slot,
        SlotCheckView::Unregistered { slot, .. } => slot,
    }
}

spec fn index_of_check(c: SlotCheckView) -> nat {
    match c {
        SlotCheckView::Typed { .. } => 0,
        SlotCheckView::Bound { index, .. } => index,
        SlotCheckView::Unregistered { index, .. } => index,
    }
}

proof fn lemma_bound_checks(
    reg: Option<Members>,
    context: JsonView,
    written: Members,
    c: SlotCheckView,
)
    ensures
        bound_checks(reg, context, written).contains(c) <==> {
            &&& has_key(written, slot_of(c))
            &&& index_of_check(c) < findings_in(context, slot_of(c)).len()
            &&& bound_check(
                reg,
                slot_of(c),
                index_of_check(c),
                findings_in(context, slot_of(c))[index_of_check(c) as int],
            ) == Some(c)
        },
    decreases written.len(),
{
    if written.len() > 0 {
        let init = written.drop_last();
        let slot = written.last().0;
        let findings = findings_in(context, slot);
        lemma_bound_checks(reg, context, init, c);
        lemma_written(written, slot_of(c));
        lemma_finding_checks(reg, slot, findings, c);
        lemma_contains_add(
            bound_checks(reg, context, init),
            finding_checks(reg, slot, findings),
            c,
        );
        if slot_of(c) == slot && index_of_check(c) < findings.len() && bound_check(
            reg,
            slot,
            index_of_check(c),
            findings[index_of_check(c) as int],
        ) == Some(c) {
            let k = index_of_check(c) as int;
            assert(bound_check(reg, slot, k as nat, findings[k]) == Some(c));
        }
        if finding_checks(reg, slot, findings).contains(c) {
            let k = choose|k: int|
                0 <= k < findings.len() && bound_check(reg, slot, k as nat, #[trigger] findings[k])
                    == Some(c);
            assert(slot_of(c) == slot && index_of_check(c) == k);
        }
    }
}

/// Exactly the checks that are due are made of what a transition wrote.
pub proof fn law_written_slots_are_checked(
    definition: JsonView,
    mapping: Option<JsonView>,
    context: JsonView,
    c: SlotCheckView,
)
    ensures
        all_checks(definition, mapping, context).contains(c) <==> is_due(
            definition,
            mapping,
            context,
            c,
        ),
{
    if let Some(JsonView::Object(written)) = mapping {
        let reg = definition.get_object("_schemasRegistry"@);
        let typed = match definition.get_object("blackboard"@) {
            Some(b) => typed_checks(b, context, written),
            None => Seq::empty(),
        };
        if let Some(b) = definition.get_object("blackboard"@) {
            lemma_typed_checks(b, context, written, c);
        }
        lemma_bound_checks(reg, context, written, c);
        lemma_contains_add(typed, bound_checks(reg, context, written), c);
        if let SlotCheckView::Unregistered { known, .. } = c {
            if !(definition.get("_schemasRegistry"@) matches Some(JsonView::Object(_))) {
                assert(known =~= Seq::empty() <==> known.len() == 0);
            }
        }
    }
}

} // verus!
