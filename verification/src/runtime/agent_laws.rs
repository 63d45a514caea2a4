//! What an agent is given, and what callers are told when they ask about an instance.

use vstd::prelude::*;

use crate::json::{lemma_reads_put, lookup, number, JsonView, Members};
use crate::model::{ActingView, InstanceView};
use crate::runtime::agent::{
    agent_affinity, agent_config, agent_goal, declared_types, expected_types, required_keys,
    verb_of, AutoView,
};
use crate::runtime::choice_laws::{declared_transitions, is_own, lemma_declared_transitions};
use crate::runtime::effects::StatusHint;
use crate::runtime::lifecycle_laws::{ended, lemma_ended};
use crate::runtime::links::{strings_in, transition_def};
use crate::runtime::queries::{explained, guidance_on, own_names, own_now, script_on};
use crate::runtime::response::{outcome_report, outcomes_then, GoalsThen};
use crate::runtime::response_laws::law_outcomes_are_judged;
use crate::runtime::script::{EffectView, ReplyView, StepView};
use crate::text::trimmed;

verus! {

/// Whether a list of values is a list of texts, in their order.
pub open spec fn lists(v: Option<JsonView>, texts: Seq<Seq<char>>) -> bool {
    v matches Some(JsonView::Array(a)) && a.len() == texts.len() && forall|k: int|
        #![trigger a[k]]
        0 <= k < a.len() ==> a[k] == JsonView::Str(texts[k])
}

/// The texts of a list are those of its values that are texts; where all are, they are the list.
pub proof fn law_texts_of_a_list(v: Option<JsonView>, s: Seq<char>)
    ensures
        strings_in(v).contains(s) <==> (v matches Some(JsonView::Array(a)) && a.contains(
            JsonView::Str(s),
        )),
        (v matches Some(JsonView::Array(a)) && (forall|k: int|
            0 <= k < a.len() ==> #[trigger] a[k] is Str)) ==> lists(v, strings_in(v)),
{
    if let Some(JsonView::Array(a)) = v {
        lemma_strings(a, s);
    }
}

proof fn lemma_strings(a: Seq<JsonView>, s: Seq<char>)
    ensures
        strings_in(Some(JsonView::Array(a))).contains(s) <==> a.contains(JsonView::Str(s)),
        (forall|k: int| 0 <= k < a.len() ==> #[trigger] a[k] is Str) ==> lists(
            Some(JsonView::Array(a)),
            strings_in(Some(JsonView::Array(a))),
        ),
    decreases a.len(),
{
    let now = strings_in(Some(JsonView::Array(a)));
    if a.len() > 0 {
        let init = a.drop_last();
        lemma_strings(init, s);
        let before = strings_in(Some(JsonView::Array(init)));
        if before.contains(s) {
            let x = choose|x: int| 0 <= x < before.len() && before[x] == s;
            assert(now[x] == s);
            let y = choose|y: int| 0 <= y < init.len() && init[y] == JsonView::Str(s);
            assert(a[y] == JsonView::Str(s));
        }
        if now.contains(s) {
            let x = choose|x: int| 0 <= x < now.len() && now[x] == s;
            if x < before.len() {
                assert(before[x] == s);
            } else {
                assert(a[a.len() - 1] == JsonView::Str(s));
            }
        }
        if a.contains(JsonView::Str(s)) {
            let y = choose|y: int| 0 <= y < a.len() && a[y] == JsonView::Str(s);
            if y < init.len() {
                assert(init[y] == JsonView::Str(s));
            } else {
                assert(now[before.len() as int] == s);
            }
        }
        if forall|k: int| 0 <= k < a.len() ==> #[trigger] a[k] is Str {
            assert forall|k: int| 0 <= k < init.len() implies #[trigger] init[k] is Str by {
                assert(a[k] is Str);
            }
            assert(a[a.len() - 1] is Str);
            assert forall|k: int| #![trigger a[k]] 0 <= k < a.len() implies a[k] == JsonView::Str(
                now[k],
            ) by {
                if k < init.len() {
                    assert(init[k] == a[k]);
                }
            }
        }
    }
}

proof fn lemma_agent_names()
    ensures
        "kind"@ != "affinity"@,
        "kind"@ != "goal"@,
        "kind"@ != "tools"@,
        "kind"@ != "expected_output_keys"@,
        "kind"@ != "expected_output_types"@,
        "kind"@ != "max_seconds"@,
        "kind"@ != "reasoning_effort"@,
        "affinity"@ != "goal"@,
        "affinity"@ != "tools"@,
        "affinity"@ != "expected_output_keys"@,
        "affinity"@ != "expected_output_types"@,
        "affinity"@ != "max_seconds"@,
        "affinity"@ != "reasoning_effort"@,
        "goal"@ != "tools"@,
        "goal"@ != "expected_output_keys"@,
        "goal"@ != "expected_output_types"@,
        "goal"@ != "max_seconds"@,
        "goal"@ != "reasoning_effort"@,
        "tools"@ != "expected_output_keys"@,
        "tools"@ != "expected_output_types"@,
        "tools"@ != "max_seconds"@,
        "tools"@ != "reasoning_effort"@,
        "expected_output_keys"@ != "expected_output_types"@,
        "expected_output_keys"@ != "max_seconds"@,
        "expected_output_keys"@ != "reasoning_effort"@,
        "expected_output_types"@ != "max_seconds"@,
        "expected_output_types"@ != "reasoning_effort"@,
        "max_seconds"@ != "reasoning_effort"@,
{
    reveal_strlit("kind");
    reveal_strlit("affinity");
    reveal_strlit("goal");
    reveal_strlit("tools");
    reveal_strlit("expected_output_keys");
    reveal_strlit("expected_output_types");
    reveal_strlit("max_seconds");
    reveal_strlit("reasoning_effort");
    assert("kind"@.len() == 4);
    assert("affinity"@.len() == 8);
    assert("goal"@.len() == 4);
    assert("tools"@.len() == 5);
    assert("expected_output_keys"@.len() == 20);
    assert("expected_output_types"@.len() == 21);
    assert("max_seconds"@.len() == 11);
    assert("reasoning_effort"@.len() == 16);
    assert("kind"@[0] != "goal"@[0]);
}

/// A word of the context, or, where that has none, of the input.
pub open spec fn either_says(context: JsonView, input: JsonView, key: Seq<char>) -> Option<Seq<char>> {
    let word = |v: JsonView|
        match v.get_str(key) {
            Some(s) => if s.len() > 0 {
                Some(s)
            } else {
                None
            },
            None => None::<Seq<char>>,
        };
    match word(context) {
        Some(s) => Some(s),
        None => word(input),
    }
}

/// What an agent is configured with: the tools and the time of the settings, the keys that the
/// transition's input schema requires, and the effort that the context or the input asks for.
pub proof fn law_agents_are_configured(
    definition: JsonView,
    i: InstanceView,
    t: JsonView,
    auto: AutoView,
)
    ensures
        ({
            let config = agent_config(definition, i, t, auto);
            &&& config.get_str("kind"@) == Some("agent"@)
            &&& config.get_str("affinity"@) == Some(agent_affinity(definition, i, auto))
            &&& config.get_str("goal"@) == Some(agent_goal(definition, i, t))
            &&& lists(config.get("tools"@), auto.tools)
            &&& lists(config.get("expected_output_keys"@), required_keys(t))
            &&& config.get("expected_output_types"@) == Some(JsonView::Object(expected_types(t)))
            &&& config.get("max_seconds"@) == Some(number(auto.max_seconds))
            &&& config.get_str("reasoning_effort"@) == either_says(
                i.context,
                i.input,
                "effort_override"@,
            )
            &&& required_keys(t) == strings_in(t.at(seq!["inputSchema"@, "required"@]))
        }),
{
    broadcast use lemma_reads_put;

    reveal(agent_config);
    lemma_agent_names();
    let path = seq!["inputSchema"@, "required"@];
    reveal_with_fuel(JsonView::at, 3);
    assert(path.drop_first() =~= seq!["required"@]);
    assert(path.drop_first().drop_first() =~= Seq::empty());
}

/// The kind of model for an agent: the first of the words of the state, the context and the input
/// that says anything; where none does, one for coding for the verbs that write code, else that of the
/// settings.
pub proof fn law_who_says_what_model(
    definition: JsonView,
    i: InstanceView,
    auto: AutoView,
)
    ensures
        ({
            let of_state = match definition.at(seq!["states"@, i.state, "affinity"@]) {
                Some(v) => v.as_str(),
                None => None,
            };
            let said = |w: Option<Seq<char>>| w matches Some(s) && trimmed(s).len() > 0;
            let of_context = i.context.get_str("affinity_override"@);
            let of_input = i.input.get_str("affinity_override"@);
            let chosen = agent_affinity(definition, i, auto);
            if said(of_state) {
                chosen == trimmed(of_state->0)
            } else if said(of_context) {
                chosen == trimmed(of_context->0)
            } else if said(of_input) {
                chosen == trimmed(of_input->0)
            } else {
                let verb = verb_of(i.definition_id);
                if seq!["implement"@, "refactor"@, "run"@, "scaffold"@].contains(verb) {
                    chosen == "coding"@
                } else {
                    chosen == auto.affinity
                }
            }
        }),
{
    let coding = seq!["implement"@, "refactor"@, "run"@, "scaffold"@];
    assert(coding[0] == "implement"@ && coding[1] == "refactor"@ && coding[2] == "run"@ && coding[3]
        == "scaffold"@);
    let path = seq!["states"@, i.state, "affinity"@];
    reveal_with_fuel(JsonView::at, 4);
    assert(path.drop_first() =~= seq![i.state, "affinity"@]);
    assert(path.drop_first().drop_first() =~= seq!["affinity"@]);
    assert(path.drop_first().drop_first().drop_first() =~= Seq::empty());
}

/// The types that are expected of an answer: for each property of the schema that declares a type,
/// that type.
pub proof fn law_declared_types_are_expected(props: Members, name: Seq<char>)
    ensures
        lookup(declared_types(props), name) matches Some(v) ==> exists|k: int|
            0 <= k < props.len() && (#[trigger] props[k]).0 == name && (props[k].1.get_str("type"@)
                matches Some(t) && v == JsonView::Str(t)),
        (exists|k: int|
            0 <= k < props.len() && (#[trigger] props[k]).0 == name && props[k].1.get_str("type"@)
                is Some) ==> lookup(declared_types(props), name) is Some,
    decreases props.len(),
{
    broadcast use lemma_reads_put;

    if props.len() > 0 {
        let init = props.drop_last();
        law_declared_types_are_expected(init, name);
        assert(props[props.len() - 1] == props.last());
        if lookup(declared_types(init), name) is Some {
            let v = lookup(declared_types(init), name)->0;
            let k = choose|k: int|
                0 <= k < init.len() && (#[trigger] init[k]).0 == name && (init[k].1.get_str("type"@)
                    matches Some(t) && v == JsonView::Str(t));
            assert(props[k] == init[k]);
        }
        if exists|k: int|
            0 <= k < props.len() && (#[trigger] props[k]).0 == name && props[k].1.get_str("type"@)
                is Some {
            let k = choose|k: int|
                0 <= k < props.len() && (#[trigger] props[k]).0 == name && props[k].1.get_str(
                    "type"@,
                ) is Some;
            if k < init.len() {
                assert(init[k] == props[k]);
            }
        }
    }
}

/// Exactly the names of the transitions that the runtime fires itself are given, and none from an
/// end.
pub proof fn law_own_transitions_are_named(i: InstanceView, name: Seq<char>)
    ensures
        own_now(i).contains(name) <==> !ended(i.definition, i.state) && (declared_transitions(
            i.definition,
            i.state,
        ) matches Some(ts) && exists|k: int|
            0 <= k < ts.len() && (#[trigger] ts[k]).0 == name && is_own(ts[k])),
{
    lemma_ended(i.definition, i.state);
    lemma_declared_transitions(i.definition, i.state);
    if let Some(ts) = declared_transitions(i.definition, i.state) {
        lemma_own_names(ts, name);
    }
}

proof fn lemma_own_names(ts: Members, name: Seq<char>)
    ensures
        own_names(ts).contains(name) <==> exists|k: int|
            0 <= k < ts.len() && (#[trigger] ts[k]).0 == name && is_own(ts[k]),
    decreases ts.len(),
{
    if ts.len() > 0 {
        let init = ts.drop_last();
        let before = own_names(init);
        let now = own_names(ts);
        lemma_own_names(init, name);
        assert(ts[ts.len() - 1] == ts.last());
        if before.contains(name) {
            let x = choose|x: int| 0 <= x < before.len() && before[x] == name;
            assert(now[x] == name);
            let k = choose|k: int|
                0 <= k < init.len() && (#[trigger] init[k]).0 == name && is_own(init[k]);
            assert(ts[k] == init[k]);
        }
        if now.contains(name) {
            let x = choose|x: int| 0 <= x < now.len() && now[x] == name;
            if x < before.len() {
                assert(before[x] == name);
            }
        }
        if exists|k: int| 0 <= k < ts.len() && (#[trigger] ts[k]).0 == name && is_own(ts[k]) {
            let k = choose|k: int|
                0 <= k < ts.len() && (#[trigger] ts[k]).0 == name && is_own(ts[k]);
            if k < init.len() {
                assert(init[k] == ts[k]);
            } else {
                assert(now[before.len() as int] == name);
            }
        }
    }
}

proof fn lemma_query_names()
    ensures
        "workflowId"@ != "currentState"@,
        "workflowId"@ != "transition"@,
        "workflowId"@ != "allowedFromCurrentState"@,
        "workflowId"@ != "actor"@,
        "workflowId"@ != "deterministic"@,
        "workflowId"@ != "legalTransitionsNow"@,
        "currentState"@ != "transition"@,
        "currentState"@ != "allowedFromCurrentState"@,
        "currentState"@ != "actor"@,
        "currentState"@ != "deterministic"@,
        "currentState"@ != "legalTransitionsNow"@,
        "transition"@ != "allowedFromCurrentState"@,
        "transition"@ != "actor"@,
        "transition"@ != "deterministic"@,
        "transition"@ != "legalTransitionsNow"@,
        "allowedFromCurrentState"@ != "actor"@,
        "allowedFromCurrentState"@ != "deterministic"@,
        "allowedFromCurrentState"@ != "legalTransitionsNow"@,
        "actor"@ != "deterministic"@,
        "actor"@ != "legalTransitionsNow"@,
        "deterministic"@ != "legalTransitionsNow"@,
        "kind"@ != "subject"@,
        "kind"@ != "verb"@,
        "kind"@ != "lifecycle"@,
        "kind"@ != "hash"@,
        "kind"@ != "body"@,
        "subject"@ != "verb"@,
        "subject"@ != "lifecycle"@,
        "subject"@ != "hash"@,
        "subject"@ != "body"@,
        "verb"@ != "lifecycle"@,
        "verb"@ != "hash"@,
        "verb"@ != "body"@,
        "lifecycle"@ != "hash"@,
        "lifecycle"@ != "body"@,
        "hash"@ != "body"@,
        "deterministic"@ != "agent"@,
{
    reveal_strlit("workflowId");
    reveal_strlit("currentState");
    reveal_strlit("transition");
    reveal_strlit("allowedFromCurrentState");
    reveal_strlit("actor");
    reveal_strlit("deterministic");
    reveal_strlit("legalTransitionsNow");
    reveal_strlit("kind");
    reveal_strlit("subject");
    reveal_strlit("verb");
    reveal_strlit("lifecycle");
    reveal_strlit("hash");
    reveal_strlit("body");
    reveal_strlit("agent");
    assert("workflowId"@.len() == 10);
    assert("currentState"@.len() == 12);
    assert("transition"@.len() == 10);
    assert("allowedFromCurrentState"@.len() == 23);
    assert("actor"@.len() == 5);
    assert("deterministic"@.len() == 13);
    assert("legalTransitionsNow"@.len() == 19);
    assert("kind"@.len() == 4);
    assert("subject"@.len() == 7);
    assert("verb"@.len() == 4);
    assert("lifecycle"@.len() == 9);
    assert("hash"@.len() == 4);
    assert("body"@.len() == 4);
    assert("agent"@.len() == 5);
    assert("workflowId"@[0] != "transition"@[0]);
    assert("kind"@[0] != "verb"@[0]);
    assert("kind"@[0] != "hash"@[0]);
    assert("kind"@[0] != "body"@[0]);
    assert("verb"@[0] != "hash"@[0]);
    assert("verb"@[0] != "body"@[0]);
    assert("hash"@[0] != "body"@[0]);
}

/// What is told of a transition: where the instance stands, whether the state has the transition, who
/// fires it, and the names of all transitions of the state.
pub proof fn law_transitions_are_explained(i: InstanceView, name: Seq<char>)
    ensures
        ({
            let m = explained(i, name);
            let t = definition_of(i, name);
            let actor = match t {
                Some(x) => match x.get_str("actor"@) {
                    Some(a) => a,
                    None => "agent"@,
                },
                None => "agent"@,
            };
            &&& lookup(m, "workflowId"@) == Some(JsonView::Str(i.id))
            &&& lookup(m, "currentState"@) == Some(JsonView::Str(i.state))
            &&& lookup(m, "transition"@) == Some(JsonView::Str(name))
            &&& lookup(m, "allowedFromCurrentState"@) == Some(JsonView::Bool(t is Some))
            &&& lookup(m, "actor"@) == Some(JsonView::Str(actor))
            &&& lookup(m, "deterministic"@) == Some(JsonView::Bool(actor == "deterministic"@))
            &&& match declared_transitions(i.definition, i.state) {
                Some(ts) => lookup(m, "legalTransitionsNow"@) matches Some(JsonView::Array(a))
                    && a.len() == ts.len() && forall|k: int|
                    #![trigger a[k]]
                    0 <= k < a.len() ==> a[k] == JsonView::Str(ts[k].0),
                None => lists(lookup(m, "legalTransitionsNow"@), Seq::empty()),
            }
        }),
{
    broadcast use lemma_reads_put;

    lemma_query_names();
    lemma_declared_transitions(i.definition, i.state);
    lemma_definition_of(i, name);
}

/// The declaration of a transition of the state of an instance.
pub open spec fn definition_of(i: InstanceView, name: Seq<char>) -> Option<JsonView> {
    i.definition.at(seq!["states"@, i.state, "transitions"@, name])
}

/// A transition's declaration, as the links know it.
pub proof fn lemma_definition_of(i: InstanceView, name: Seq<char>)
    ensures
        transition_def(i.definition, i.state, name) == definition_of(i, name),
{
    let path = seq!["states"@, i.state, "transitions"@, name];
    reveal_with_fuel(JsonView::at, 5);
    assert(path.drop_first() =~= seq![i.state, "transitions"@, name]);
    assert(path.drop_first().drop_first() =~= seq!["transitions"@, name]);
    assert(path.drop_first().drop_first().drop_first() =~= seq![name]);
    assert(path.drop_first().drop_first().drop_first().drop_first() =~= Seq::empty());
}

/// The text of a member; empty where there is none.
pub open spec fn text_of(v: JsonView, key: Seq<char>) -> Option<Seq<char>> {
    match v.get_str(key) {
        Some(s) => Some(s),
        None => Some(Seq::empty()),
    }
}

/// Whether a fragment shows an entry of a library.
pub open spec fn shows(told: JsonView, kind: Seq<char>, subject: Seq<char>, e: JsonView) -> bool {
    &&& told.get_str("kind"@) == Some(kind)
    &&& told.get_str("subject"@) == Some(subject)
    &&& told.get_str("lifecycle"@) == text_of(e, "lifecycle"@)
    &&& told.get_str("body"@) == text_of(e, "body"@)
}

/// What is told on a subject shows the entry of the library that the instance carries.
pub proof fn law_fragments_show_their_entry(i: InstanceView, subject: Seq<char>)
    ensures
        script_on(i, subject) matches Some(told) ==> (crate::pointer::pointed(
            i.definition,
            "/_scriptsLibrary"@,
        ) matches Some(JsonView::Object(m)) && (lookup(m, subject) matches Some(e) && shows(
            told,
            "script"@,
            subject,
            e,
        ) && told.get_str("verb"@) == text_of(e, "verb"@) && told.get_str("hash"@) == text_of(
            e,
            "hash"@,
        ))),
        script_on(i, subject) is None ==> !(crate::pointer::pointed(
            i.definition,
            "/_scriptsLibrary"@,
        ) matches Some(JsonView::Object(m)) && lookup(m, subject) is Some),
        guidance_on(i, subject) matches Ok(Some(told)) ==> (crate::pointer::pointed(
            i.definition,
            "/_skillsLibrary"@,
        ) matches Some(JsonView::Object(m)) && (lookup(m, subject) matches Some(e) && shows(
            told,
            "guidance"@,
            subject,
            e,
        ) && told.get_str("verb"@) == crate::runtime::schema::text_at(e, "/verb"@) && told.get_str(
            "hash"@,
        ) == crate::runtime::schema::text_at(e, "/hash"@))),
        guidance_on(i, subject) matches Ok(None) ==> !(crate::pointer::pointed(
            i.definition,
            "/_skillsLibrary"@,
        ) matches Some(JsonView::Object(m)) && lookup(m, subject) is Some),
{
    broadcast use lemma_reads_put;

    lemma_query_names();
}

/// What is written down of how a mission ended: whether its outcomes were met, as they were judged,
/// how many there are, and the status that was derived for that, at an end.
pub proof fn law_ends_are_reported(
    hint: StatusHint,
    definition: JsonView,
    i: InstanceView,
    who: ActingView,
    r: Seq<ReplyView>,
)
    ensures
        outcome_report(hint, definition, i, who, r) matches StepView::Do(e) ==> match e {
            EffectView::AskGuard { instance, arguments, principal, .. } => {
                &&& instance == i
                &&& arguments == JsonView::Null
                &&& principal == who.principal
            },
            EffectView::DeriveStatus { hint: h, terminal, outcome, outcomes_met, awaiting_human } => {
                &&& h == hint
                &&& terminal
                &&& !awaiting_human
                &&& outcomes_then(definition, i, who.principal, r) matches GoalsThen::Judged(
                    _,
                    met,
                    left,
                ) && outcomes_met == met && left.len() == 0
                &&& outcome == (match definition.at(seq!["states"@, i.state]) {
                    Some(s) => s.get_str("outcome"@),
                    None => None,
                })
            },
            EffectView::RecordOutcome {
                workflow_id,
                definition_id,
                outcomes_met,
                outcomes_total,
                status,
                reason,
                correlation_id,
                ..
            } => {
                &&& workflow_id == i.id
                &&& definition_id == i.definition_id
                &&& correlation_id == who.correlation_id
                &&& outcomes_then(definition, i, who.principal, r) matches GoalsThen::Judged(
                    lines,
                    met,
                    left,
                ) && outcomes_met == met && left.len() == 1 && (left[0] matches ReplyView::Mission {
                    status: s,
                    reason: why,
                    ..
                } && s == status && why == reason) && outcomes_total == (match lines {
                    Some(l) => l.len() as usize,
                    None => 0,
                })
            },
            _ => false,
        },
{
    law_outcomes_are_judged(definition, i, who.principal, r);
    let path = seq!["states"@, i.state];
    reveal_with_fuel(JsonView::at, 3);
    assert(path.drop_first() =~= seq![i.state]);
    assert(path.drop_first().drop_first() =~= Seq::empty());
}

} // verus!
