//! What a response tells: where the instance stands, which outcomes are met, and what can be done
//! next.

use vstd::prelude::*;

use crate::json::{lemma_reads_put, lookup, number, JsonView, Members};
use crate::model::{InstanceView, PrincipalView};
use crate::runtime::effects::StatusHint;
use crate::runtime::guard_laws::{
    followed, law_links_are_kept_by_their_guards, law_sifting_asks_guards_of_links, parts, says_yes,
};
use crate::runtime::links::{
    deterministic, filters_links, link_args, link_members, link_view, links_over, links_view,
    prefilled, schema_or_empty, state_def, terminal, text_or, transitions_of,
};
use crate::runtime::response::{
    answered, body, closing, delegate, goals_from, guidance, linking, lock_lines, outcomes_then,
    sift_from, status_question, AnswerView, GoalsThen, GoalsView, PartsView, SiftView,
};
use crate::runtime::script::{EffectView, ReplyView, StepView};
use crate::templating::rendered;

verus! {

/// Whether a line tells of a declared outcome whether it is met.
pub open spec fn tells_outcome(line: JsonView, oc: JsonView, met: bool) -> bool {
    &&& line.get("met"@) == Some(JsonView::Bool(met))
    &&& line.get_str("id"@) == Some(text_or(oc.get_str("id"@), Seq::empty()))
    &&& line.get_str("statement"@) == Some(text_or(oc.get_str("statement"@), Seq::empty()))
}

/// Whether a guard is the check of an outcome.
pub open spec fn checks_outcome(guard: JsonView, oc: JsonView) -> bool {
    &&& guard.get_str("kind"@) == Some("expr"@)
    &&& guard.get_str("expr"@) == Some(text_or(oc.get_str("check"@), Seq::empty()))
}

proof fn lemma_outcome_names()
    ensures
        "met"@ != "id"@,
        "met"@ != "statement"@,
        "id"@ != "statement"@,
        "kind"@ != "expr"@,
{
    reveal_strlit("met");
    reveal_strlit("id");
    reveal_strlit("statement");
    reveal_strlit("kind");
    reveal_strlit("expr");
    assert("met"@.len() == 3);
    assert("id"@.len() == 2);
    assert("statement"@.len() == 9);
    assert("kind"@.len() == 4);
    assert("expr"@.len() == 4);
    assert("kind"@[0] != "expr"@[0]);
}

proof fn lemma_goals(
    all: Seq<JsonView>,
    k: int,
    lines: Seq<JsonView>,
    met: bool,
    i: InstanceView,
    who: PrincipalView,
    r: Seq<ReplyView>,
)
    requires
        0 <= k <= all.len(),
        k <= r.len(),
        lines.len() == k,
        forall|m: int|
            #![trigger lines[m]]
            #![trigger r[m]]
            0 <= m < k ==> r[m] is Judged && tells_outcome(lines[m], all[m], says_yes(r[m])),
        met <==> forall|m: int| 0 <= m < k ==> says_yes(#[trigger] r[m]),
    ensures
        match goals_from(all, k, lines, met, i, who, r.skip(k)) {
            GoalsView::Ask(e) => {
                &&& r.len() < all.len()
                &&& e matches EffectView::AskGuard { guard, instance, arguments, principal } && instance
                    == i && arguments == JsonView::Null && principal == who && checks_outcome(
                    guard,
                    all[r.len() as int],
                )
            },
            GoalsView::Judged(out, all_met, left) => {
                &&& all.len() <= r.len()
                &&& left == r.skip(all.len() as int)
                &&& out.len() == all.len()
                &&& forall|m: int|
                    #![trigger out[m]]
                    #![trigger r[m]]
                    0 <= m < all.len() ==> r[m] is Judged && tells_outcome(
                        out[m],
                        all[m],
                        says_yes(r[m]),
                    )
                &&& all_met <==> forall|m: int| 0 <= m < all.len() ==> says_yes(#[trigger] r[m])
            },
            GoalsView::Misfit => true,
        },
    decreases all.len() - k,
{
    broadcast use lemma_reads_put;

    lemma_outcome_names();
    if k < all.len() && k < r.len() {
        let s = r.skip(k);
        assert(s[0] == r[k]);
        assert(s.drop_first() =~= r.skip(k + 1));
        if let ReplyView::Judged(v) = r[k] {
            let one = v matches Ok((pass, _)) && pass;
            let more = lines.push(crate::runtime::response::goal_line(all[k], one));
            assert(tells_outcome(more[k], all[k], says_yes(r[k])));
            assert forall|m: int|
                #![trigger more[m]]
                #![trigger r[m]]
                0 <= m < k + 1 implies r[m] is Judged && tells_outcome(
                more[m],
                all[m],
                says_yes(r[m]),
            ) by {
                if m < k {
                    assert(more[m] == lines[m]);
                }
            }
            lemma_goals(all, k + 1, more, met && one, i, who, r);
        }
    }
}

/// The declared outcomes are judged one by one: each is told as met if and only if its check said yes,
/// and all are met if and only if each is. Where none are declared, nothing is asked.
pub proof fn law_outcomes_are_judged(
    definition: JsonView,
    i: InstanceView,
    who: PrincipalView,
    r: Seq<ReplyView>,
)
    ensures
        match definition.get("outcomes"@) {
            Some(JsonView::Array(all)) => match outcomes_then(definition, i, who, r) {
                GoalsThen::Ask(e) => {
                    &&& r.len() < all.len()
                    &&& e matches EffectView::AskGuard { guard, instance, arguments, principal }
                        && instance == i && arguments == JsonView::Null && principal == who
                        && checks_outcome(guard, all[r.len() as int])
                },
                GoalsThen::Judged(lines, met, left) => {
                    &&& all.len() <= r.len() && left == r.skip(all.len() as int)
                    &&& lines matches Some(out) && out.len() == all.len() && forall|m: int|
                        #![trigger out[m]]
                        #![trigger r[m]]
                        0 <= m < all.len() ==> tells_outcome(out[m], all[m], says_yes(r[m]))
                    &&& met <==> forall|m: int| 0 <= m < all.len() ==> says_yes(#[trigger] r[m])
                },
                GoalsThen::Misfit => true,
            },
            _ => outcomes_then(definition, i, who, r) == GoalsThen::Judged(None, true, r),
        },
{
    if let Some(all) = definition.get_array("outcomes"@) {
        assert(r.skip(0) =~= r);
        lemma_goals(all, 0, Seq::empty(), true, i, who, r);
    }
}

/// How a mission stands is asked with what the state of the instance says: whether it is an end, with
/// its marker only there, and whether it waits for a person.
pub proof fn law_status_is_asked_for_the_state(
    definition: JsonView,
    i: InstanceView,
    hint: StatusHint,
    met: bool,
)
    ensures
        status_question(definition, i, hint, met) matches EffectView::DeriveStatus {
            hint: h,
            terminal: t,
            outcome,
            outcomes_met,
            awaiting_human,
        } && {
            let state = definition.at(seq!["states"@, i.state]);
            &&& h == hint
            &&& outcomes_met == met
            &&& t <==> (state matches Some(s) && s.step("terminal"@) == Some(JsonView::Bool(true)))
            &&& outcome == (match state {
                Some(s) => if t {
                    s.get_str("outcome"@)
                } else {
                    None
                },
                None => None,
            })
            &&& awaiting_human <==> (state matches Some(s) && s.get_str("actor"@) == Some("human"@))
        },
{
    lemma_state(definition, i.state);
}

proof fn lemma_state(definition: JsonView, state: Seq<char>)
    ensures
        state_def(definition, state) == definition.at(seq!["states"@, state]),
{
    let path = seq!["states"@, state];
    reveal_with_fuel(JsonView::at, 3);
    assert(path.drop_first() =~= seq![state]);
    assert(path.drop_first().drop_first() =~= Seq::empty());
}

/// The places of the transitions that somebody else than the runtime fires.
pub open spec fn open_ones(ts: Members) -> Seq<int>
    decreases ts.len(),
{
    if ts.len() == 0 {
        Seq::empty()
    } else if ts.last().1.get_str("actor"@) == Some("deterministic"@) {
        open_ones(ts.drop_last())
    } else {
        open_ones(ts.drop_last()).push(ts.len() - 1)
    }
}

/// Whether a link leads to a transition of an instance: it names the transition, who fires it, what it
/// takes, and the instance with the version that it stands at.
pub open spec fn leads(
    link: JsonView,
    id: Seq<char>,
    version: u64,
    name: Seq<char>,
    t: JsonView,
    resolved: Members,
) -> bool {
    &&& link.get_str("rel"@) == Some(name)
    &&& link.get_str("title"@) == Some(text_or(t.get_str("title"@), name))
    &&& link.get("description"@) == Some(
        match t.get("description"@) {
            Some(d) => d,
            None => JsonView::Null,
        },
    )
    &&& link.get_str("method"@) == Some("praxec.command"@)
    &&& link.get_str("actor"@) == Some(text_or(t.get_str("actor"@), "agent"@))
    &&& t.get("inputSchema"@) matches Some(schema) ==> link.get("inputSchema"@) == Some(schema)
    &&& link.get("args"@) matches Some(args) && {
        &&& args.get_str("workflowId"@) == Some(id)
        &&& args.get("expectedVersion"@) == Some(number(version))
        &&& args.get_str("transition"@) == Some(name)
        &&& args.get("arguments"@) == (match (t.get("prefill"@), lookup(resolved, name)) {
            (Some(JsonView::Object(_)), Some(JsonView::Object(m))) => if m.len() > 0 {
                Some(JsonView::Object(m))
            } else {
                None
            },
            _ => None,
        })
    }
}

proof fn lemma_link_names()
    ensures
        "rel"@ != "title"@,
        "rel"@ != "description"@,
        "rel"@ != "method"@,
        "rel"@ != "actor"@,
        "rel"@ != "args"@,
        "rel"@ != "inputSchema"@,
        "rel"@ != "guidance"@,
        "title"@ != "description"@,
        "title"@ != "method"@,
        "title"@ != "actor"@,
        "title"@ != "args"@,
        "title"@ != "inputSchema"@,
        "title"@ != "guidance"@,
        "description"@ != "method"@,
        "description"@ != "actor"@,
        "description"@ != "args"@,
        "description"@ != "inputSchema"@,
        "description"@ != "guidance"@,
        "method"@ != "actor"@,
        "method"@ != "args"@,
        "method"@ != "inputSchema"@,
        "method"@ != "guidance"@,
        "actor"@ != "args"@,
        "actor"@ != "inputSchema"@,
        "actor"@ != "guidance"@,
        "args"@ != "inputSchema"@,
        "args"@ != "guidance"@,
        "inputSchema"@ != "guidance"@,
        "workflowId"@ != "expectedVersion"@,
        "workflowId"@ != "transition"@,
        "workflowId"@ != "arguments"@,
        "expectedVersion"@ != "transition"@,
        "expectedVersion"@ != "arguments"@,
        "transition"@ != "arguments"@,
{
    reveal_strlit("rel");
    reveal_strlit("title");
    reveal_strlit("description");
    reveal_strlit("method");
    reveal_strlit("actor");
    reveal_strlit("args");
    reveal_strlit("inputSchema");
    reveal_strlit("guidance");
    reveal_strlit("workflowId");
    reveal_strlit("expectedVersion");
    reveal_strlit("transition");
    reveal_strlit("arguments");
    assert("rel"@.len() == 3);
    assert("title"@.len() == 5);
    assert("description"@.len() == 11);
    assert("method"@.len() == 6);
    assert("actor"@.len() == 5);
    assert("args"@.len() == 4);
    assert("inputSchema"@.len() == 11);
    assert("guidance"@.len() == 8);
    assert("workflowId"@.len() == 10);
    assert("expectedVersion"@.len() == 15);
    assert("transition"@.len() == 10);
    assert("arguments"@.len() == 9);
    assert("title"@[0] != "actor"@[0]);
    assert("description"@[0] != "inputSchema"@[0]);
    assert("workflowId"@[0] != "transition"@[0]);
}

proof fn lemma_link(
    definition: JsonView,
    id: Seq<char>,
    version: u64,
    name: Seq<char>,
    t: JsonView,
    resolved: Members,
)
    ensures
        leads(link_view(definition, id, version, name, t, resolved), id, version, name, t, resolved),
{
    broadcast use lemma_reads_put;

    lemma_link_names();
    let base = link_args(id, version, name);
    let args = match prefilled(t, resolved, name) {
        Some(m) => put_arguments(base, m),
        None => base,
    };
    assert(lookup(args, "workflowId"@) == Some(JsonView::Str(id)));
    let link = link_members(
        name,
        t,
        text_or(t.get_str("actor"@), "agent"@),
        args,
        schema_or_empty(t),
    );
    assert(lookup(link, "args"@) == Some(JsonView::Object(args)));
}

/// Whether a link leads back to a transition of an instance, for somebody to take it again.
pub open spec fn leads_back(
    link: JsonView,
    id: Seq<char>,
    version: u64,
    name: Seq<char>,
    actor: Seq<char>,
) -> bool {
    &&& link.get_str("rel"@) == Some(name)
    &&& link.get_str("actor"@) == Some(actor)
    &&& link.get_str("method"@) == Some("praxec.command"@)
    &&& link.get("args"@) matches Some(args) && {
        &&& args.get_str("workflowId"@) == Some(id)
        &&& args.get("expectedVersion"@) == Some(number(version))
        &&& args.get_str("transition"@) == Some(name)
    }
}

/// A link is what its members say.
pub proof fn lemma_leads_back(
    name: Seq<char>,
    t: JsonView,
    actor: Seq<char>,
    id: Seq<char>,
    version: u64,
    schema: JsonView,
)
    ensures
        leads_back(
            JsonView::Object(link_members(name, t, actor, link_args(id, version, name), schema)),
            id,
            version,
            name,
            actor,
        ),
{
    broadcast use lemma_reads_put;

    lemma_link_names();
    let args = link_args(id, version, name);
    let link = link_members(name, t, actor, args, schema);
    assert(lookup(link, "args"@) == Some(JsonView::Object(args)));
}

spec fn put_arguments(base: Members, m: Members) -> Members {
    crate::json::put(base, "arguments"@, JsonView::Object(m))
}

proof fn lemma_links_over(
    definition: JsonView,
    id: Seq<char>,
    version: u64,
    ts: Members,
    resolved: Members,
)
    ensures
        ({
            let links = links_over(definition, id, version, ts, resolved);
            let at = open_ones(ts);
            &&& links.len() == at.len()
            &&& forall|m: int|
                #![trigger links[m]]
                #![trigger at[m]]
                0 <= m < links.len() ==> 0 <= at[m] < ts.len() && leads(
                    links[m],
                    id,
                    version,
                    ts[at[m]].0,
                    ts[at[m]].1,
                    resolved,
                )
        }),
    decreases ts.len(),
{
    if ts.len() > 0 {
        let init = ts.drop_last();
        lemma_links_over(definition, id, version, init, resolved);
        lemma_link(definition, id, version, ts.last().0, ts.last().1, resolved);
        let links = links_over(definition, id, version, ts, resolved);
        let before = links_over(definition, id, version, init, resolved);
        let at = open_ones(ts);
        assert forall|m: int|
            #![trigger links[m]]
            #![trigger at[m]]
            0 <= m < links.len() implies 0 <= at[m] < ts.len() && leads(
            links[m],
            id,
            version,
            ts[at[m]].0,
            ts[at[m]].1,
            resolved,
        ) by {
            if m < before.len() {
                assert(links[m] == before[m]);
                assert(at[m] == open_ones(init)[m]);
                assert(ts[at[m]] == init[at[m]]);
            }
        }
    }
}

/// What a caller can do next: one link for each transition of the state that the runtime does not
/// fire itself, in their order, and none from an end.
pub proof fn law_links_lead_to_open_transitions(
    definition: JsonView,
    i: InstanceView,
    resolved: Members,
)
    ensures
        ({
            let links = links_view(definition, i, resolved);
            match definition.at(seq!["states"@, i.state]) {
                Some(s) => match s.step("transitions"@) {
                    Some(JsonView::Object(ts)) => if s.step("terminal"@) == Some(
                        JsonView::Bool(true),
                    ) {
                        links.len() == 0
                    } else {
                        let at = open_ones(ts);
                        &&& links.len() == at.len()
                        &&& forall|m: int|
                            #![trigger links[m]]
                            #![trigger at[m]]
                            0 <= m < links.len() ==> 0 <= at[m] < ts.len() && leads(
                                links[m],
                                i.id,
                                i.version,
                                ts[at[m]].0,
                                ts[at[m]].1,
                                resolved,
                            )
                    },
                    _ => links.len() == 0,
                },
                None => links.len() == 0,
            }
        }),
{
    lemma_state(definition, i.state);
    if let Some(ts) = transitions_of(definition, i.state) {
        lemma_links_over(definition, i.id, i.version, ts, resolved);
    }
}

/// Links are sifted by their guards where the state asks for it, or, where the state does not say, the
/// definition.
pub proof fn law_who_asks_for_sifting(definition: JsonView, state: Seq<char>)
    ensures
        filters_links(definition, state) <==> {
            let of_state = match definition.at(seq!["states"@, state]) {
                Some(s) => match s.step("linkFilter"@) {
                    Some(v) => v.as_str(),
                    None => None,
                },
                None => None,
            };
            let said = match of_state {
                Some(x) => Some(x),
                None => definition.get_str("linkFilter"@),
            };
            said == Some("byGuards"@)
        },
{
    lemma_state(definition, state);
}

proof fn lemma_body_names()
    ensures
        "workflow"@ != "result"@,
        "workflow"@ != "context"@,
        "workflow"@ != "links"@,
        "workflow"@ != "evidence"@,
        "workflow"@ != "outcomes"@,
        "workflow"@ != "orchestrator"@,
        "workflow"@ != "summary"@,
        "workflow"@ != "error"@,
        "workflow"@ != "delegate"@,
        "workflow"@ != "guidance"@,
        "workflow"@ != "locks"@,
        "result"@ != "context"@,
        "result"@ != "links"@,
        "result"@ != "evidence"@,
        "result"@ != "outcomes"@,
        "result"@ != "orchestrator"@,
        "result"@ != "summary"@,
        "result"@ != "error"@,
        "result"@ != "delegate"@,
        "result"@ != "guidance"@,
        "result"@ != "locks"@,
        "context"@ != "links"@,
        "context"@ != "evidence"@,
        "context"@ != "outcomes"@,
        "context"@ != "orchestrator"@,
        "context"@ != "summary"@,
        "context"@ != "error"@,
        "context"@ != "delegate"@,
        "context"@ != "guidance"@,
        "context"@ != "locks"@,
        "links"@ != "evidence"@,
        "links"@ != "outcomes"@,
        "links"@ != "orchestrator"@,
        "links"@ != "summary"@,
        "links"@ != "error"@,
        "links"@ != "delegate"@,
        "links"@ != "guidance"@,
        "links"@ != "locks"@,
        "evidence"@ != "outcomes"@,
        "evidence"@ != "orchestrator"@,
        "evidence"@ != "summary"@,
        "evidence"@ != "error"@,
        "evidence"@ != "delegate"@,
        "evidence"@ != "guidance"@,
        "evidence"@ != "locks"@,
        "outcomes"@ != "orchestrator"@,
        "outcomes"@ != "summary"@,
        "outcomes"@ != "error"@,
        "outcomes"@ != "delegate"@,
        "outcomes"@ != "guidance"@,
        "outcomes"@ != "locks"@,
        "orchestrator"@ != "summary"@,
        "orchestrator"@ != "error"@,
        "orchestrator"@ != "delegate"@,
        "orchestrator"@ != "guidance"@,
        "orchestrator"@ != "locks"@,
        "summary"@ != "error"@,
        "summary"@ != "delegate"@,
        "summary"@ != "guidance"@,
        "summary"@ != "locks"@,
        "error"@ != "delegate"@,
        "error"@ != "guidance"@,
        "error"@ != "locks"@,
        "delegate"@ != "guidance"@,
        "delegate"@ != "locks"@,
        "guidance"@ != "locks"@,
        "id"@ != "definitionId"@,
        "id"@ != "definitionVersion"@,
        "id"@ != "state"@,
        "id"@ != "version"@,
        "definitionId"@ != "definitionVersion"@,
        "definitionId"@ != "state"@,
        "definitionId"@ != "version"@,
        "definitionVersion"@ != "state"@,
        "definitionVersion"@ != "version"@,
        "state"@ != "version"@,
        "goal"@ != "instructions"@,
        "goal"@ != "refs"@,
        "instructions"@ != "refs"@,
        "file"@ != "holder"@,
{
    reveal_strlit("workflow");
    reveal_strlit("result");
    reveal_strlit("context");
    reveal_strlit("links");
    reveal_strlit("evidence");
    reveal_strlit("outcomes");
    reveal_strlit("orchestrator");
    reveal_strlit("summary");
    reveal_strlit("error");
    reveal_strlit("delegate");
    reveal_strlit("guidance");
    reveal_strlit("locks");
    reveal_strlit("id");
    reveal_strlit("definitionId");
    reveal_strlit("definitionVersion");
    reveal_strlit("state");
    reveal_strlit("version");
    reveal_strlit("goal");
    reveal_strlit("instructions");
    reveal_strlit("refs");
    reveal_strlit("file");
    reveal_strlit("holder");
    assert("workflow"@.len() == 8);
    assert("result"@.len() == 6);
    assert("context"@.len() == 7);
    assert("links"@.len() == 5);
    assert("evidence"@.len() == 8);
    assert("outcomes"@.len() == 8);
    assert("orchestrator"@.len() == 12);
    assert("summary"@.len() == 7);
    assert("error"@.len() == 5);
    assert("delegate"@.len() == 8);
    assert("guidance"@.len() == 8);
    assert("locks"@.len() == 5);
    assert("id"@.len() == 2);
    assert("definitionId"@.len() == 12);
    assert("definitionVersion"@.len() == 17);
    assert("state"@.len() == 5);
    assert("version"@.len() == 7);
    assert("goal"@.len() == 4);
    assert("instructions"@.len() == 12);
    assert("refs"@.len() == 4);
    assert("file"@.len() == 4);
    assert("holder"@.len() == 6);
    assert("workflow"@[0] != "evidence"@[0]);
    assert("workflow"@[0] != "outcomes"@[0]);
    assert("workflow"@[0] != "delegate"@[0]);
    assert("workflow"@[0] != "guidance"@[0]);
    assert("context"@[0] != "summary"@[0]);
    assert("links"@[0] != "error"@[0]);
    assert("links"@[1] != "locks"@[1]);
    assert("evidence"@[0] != "outcomes"@[0]);
    assert("evidence"@[0] != "delegate"@[0]);
    assert("evidence"@[0] != "guidance"@[0]);
    assert("outcomes"@[0] != "delegate"@[0]);
    assert("outcomes"@[0] != "guidance"@[0]);
    assert("error"@[0] != "locks"@[0]);
    assert("delegate"@[0] != "guidance"@[0]);
    assert("goal"@[0] != "refs"@[0]);
}

/// A text that is set and not empty.
pub open spec fn set_word(v: JsonView, key: Seq<char>) -> Option<JsonView> {
    match v.get_str(key) {
        Some(s) => if s.len() > 0 {
            Some(JsonView::Str(s))
        } else {
            None
        },
        None => None,
    }
}

/// What a state tells whoever acts next, by its members: its goal and its instructions, each with its
/// places filled in.
pub proof fn law_states_guide(definition: JsonView, i: InstanceView)
    ensures
        ({
            let told = guidance(definition, i);
            let word = |key: Seq<char>|
                match definition.at(seq!["states"@, i.state]) {
                    Some(s) => match s.get_str(key) {
                        Some(text) => Some(JsonView::Str(rendered(text, i))),
                        None => None,
                    },
                    None => None::<JsonView>,
                };
            &&& lookup(told, "goal"@) == word("goal"@)
            &&& lookup(told, "instructions"@) == word("guidance"@)
        }),
{
    broadcast use lemma_reads_put;

    lemma_state(definition, i.state);
    lemma_body_names();
}

/// What a response has, member by member: who and where the instance is, how its mission stands, its
/// context, the links, and, where there is any, the outcomes, the error, the summary, the
/// orchestrator, the delegate, the guidance and the held locks.
pub proof fn law_responses_tell(definition: JsonView, i: InstanceView, p: PartsView)
    ensures
        ({
            let m = body(definition, i, p);
            &&& lookup(m, "workflow"@) matches Some(w) && w.get_str("id"@) == Some(i.id) && w.get_str(
                "definitionId"@,
            ) == Some(i.definition_id) && w.get_str("definitionVersion"@) == Some(
                i.definition_version,
            ) && w.get_str("state"@) == Some(i.state) && w.get("version"@) == Some(number(i.version))
            &&& lookup(m, "result"@) == Some(p.mission)
            &&& lookup(m, "context"@) == Some(i.context)
            &&& lookup(m, "links"@) == Some(JsonView::Array(p.links))
            &&& lookup(m, "evidence"@) == Some(JsonView::Array(Seq::empty()))
            &&& lookup(m, "outcomes"@) == (match p.outcomes {
                Some(lines) => Some(JsonView::Array(lines)),
                None => None,
            })
            &&& lookup(m, "orchestrator"@) == set_word(definition, "orchestrator"@)
            &&& lookup(m, "summary"@) == (match i.context.get_str("summary"@) {
                Some(s) => Some(JsonView::Str(s)),
                None => None,
            })
            &&& lookup(m, "error"@) == p.error
            &&& lookup(m, "delegate"@) == (match definition.at(seq!["states"@, i.state]) {
                Some(s) => set_word(s, "delegate"@),
                None => None,
            })
            &&& lookup(m, "guidance"@) == (if guidance(definition, i).len() > 0 {
                Some(JsonView::Object(guidance(definition, i)))
            } else {
                None
            })
            &&& match p.held {
                None => lookup(m, "locks"@) is None,
                Some(held) => lookup(m, "locks"@) matches Some(JsonView::Array(a)) && a.len()
                    == held.len() && forall|k: int|
                    #![trigger a[k]]
                    0 <= k < held.len() ==> a[k].get_str("file"@) == Some(held[k].0) && a[k].get_str(
                        "holder"@,
                    ) == Some(held[k].1),
            }
        }),
{
    broadcast use lemma_reads_put;

    lemma_state(definition, i.state);
    lemma_body_names();
    if let Some(held) = p.held {
        let a = lock_lines(held);
        assert forall|k: int|
            #![trigger a[k]]
            0 <= k < held.len() implies a[k].get_str("file"@) == Some(held[k].0) && a[k].get_str(
            "holder"@,
        ) == Some(held[k].1) by {}
    }
}

/// What a response is put together from: the outcomes as they were judged, the status as it was
/// derived for them, and the links of the instance, sifted where that is asked for.
pub proof fn law_responses_are_put_together(a: AnswerView, r: Seq<ReplyView>)
    ensures
        answered(a, r) matches StepView::Done(m) ==> exists|
            outcomes: Option<Seq<JsonView>>,
            met: bool,
            left: Seq<ReplyView>,
        | #[trigger]
            answered_with(a, r, outcomes, met, left) && composed(a, outcomes, left, m),
        answered(a, r) matches StepView::Do(EffectView::DeriveStatus { hint, outcomes_met, .. }) ==> {
            &&& hint == a.hint
            &&& outcomes_then(a.definition, a.instance, a.principal, r) matches GoalsThen::Judged(
                _,
                met,
                _,
            ) && met == outcomes_met
        },
{
    law_outcomes_are_judged(a.definition, a.instance, a.principal, r);
    if let GoalsThen::Judged(outcomes, met, left) = outcomes_then(
        a.definition,
        a.instance,
        a.principal,
        r,
    ) {
        let s = left.drop_first();
        if left.len() > 0 && s.len() > 0 {
            assert(left[1] == s[0]);
            assert(left.skip(2) =~= s.drop_first());
            if let ReplyView::Mission { result, .. } = left[0] {
                if let ReplyView::Prefilled(resolved) = s[0] {
                    lemma_linked(a, result, outcomes, left, resolved);
                }
            }
        }
        if answered(a, r) is Done {
            assert(answered_with(a, r, outcomes, met, left));
        }
    }
}

proof fn lemma_linked(
    a: AnswerView,
    result: JsonView,
    outcomes: Option<Seq<JsonView>>,
    left: Seq<ReplyView>,
    resolved: Members,
)
    requires
        left.len() > 1,
        left[0] matches ReplyView::Mission { result: told, .. } && told == result,
        left[1] == ReplyView::Prefilled(resolved),
    ensures
        linking(a, result, outcomes, left.drop_first()) matches StepView::Done(m) ==> composed(
            a,
            outcomes,
            left,
            m,
        ),
        linking(a, result, outcomes, left.drop_first()) matches StepView::Do(e)
            ==> e !is DeriveStatus,
{
    let s = left.drop_first();
    let rest = left.skip(2);
    assert(s[0] == left[1]);
    assert(rest =~= s.drop_first());
    let all = links_view(a.definition, a.instance, resolved);
    if filters_links(a.definition, a.instance.state) {
        law_links_are_kept_by_their_guards(all, a.definition, a.instance, a.principal, rest);
        law_sifting_asks_guards_of_links(
            all,
            0,
            Seq::empty(),
            a.definition,
            a.instance,
            a.principal,
            rest,
        );
        if let SiftView::Kept(kept, after) = sift_from(
            all,
            0,
            Seq::empty(),
            a.definition,
            a.instance,
            a.principal,
            rest,
        ) {
            let at = choose|at: Seq<int>| #[trigger]
                parts(all, a.definition, a.instance.state, rest, at) && kept == followed(
                    all,
                    all.len() as int,
                    a.definition,
                    a.instance.state,
                    rest,
                    at,
                ) && after == rest.skip(at[all.len() as int]);
            lemma_parts_stay_within(all, a.definition, a.instance.state, rest, at, all.len() as int);
            if after.len() > 0 {
                assert(after[0] == left[at[all.len() as int] + 2]);
            }
            lemma_closed(a, result, outcomes, left, kept, after);
        }
    } else {
        lemma_closed(a, result, outcomes, left, all, rest);
    }
}

proof fn lemma_parts_stay_within(
    all: Seq<JsonView>,
    definition: JsonView,
    state: Seq<char>,
    r: Seq<ReplyView>,
    at: Seq<int>,
    n: int,
)
    requires
        parts(all, definition, state, r, at),
        0 <= n <= all.len(),
    ensures
        0 <= at[n] <= r.len(),
    decreases n,
{
    if n > 0 {
        lemma_parts_stay_within(all, definition, state, r, at, n - 1);
        let link = all[n - 1];
        assert(at[n - 1 + 1] == at[n]);
    }
}

proof fn lemma_closed(
    a: AnswerView,
    result: JsonView,
    outcomes: Option<Seq<JsonView>>,
    left: Seq<ReplyView>,
    links: Seq<JsonView>,
    after: Seq<ReplyView>,
)
    requires
        after.len() > 0 ==> left.contains(after[0]),
    ensures
        closing(a, result, outcomes, links, after) matches StepView::Done(m) ==> exists|
            held: Option<Seq<(Seq<char>, Seq<char>)>>,
        |
            m == #[trigger] body(
                a.definition,
                a.instance,
                PartsView { mission: result, outcomes, links, error: a.error, held },
            ) && (a.locks <==> held is Some) && (held matches Some(h) ==> left.contains(
                ReplyView::Held(h),
            )),
        closing(a, result, outcomes, links, after) matches StepView::Do(e) ==> e !is DeriveStatus,
{
    if a.locks && after.len() > 0 {
        if let ReplyView::Held(h) = after[0] {
            let p = PartsView { mission: result, outcomes, links, error: a.error, held: Some(h) };
            assert(closing(a, result, outcomes, links, after) == StepView::Done(
                body(a.definition, a.instance, p),
            ));
        }
    } else if !a.locks {
        let p = PartsView { mission: result, outcomes, links, error: a.error, held: None };
        assert(closing(a, result, outcomes, links, after) == StepView::Done(
            body(a.definition, a.instance, p),
        ));
    }
}

/// How the judging of the outcomes ended on the way to a response.
pub open spec fn answered_with(
    a: AnswerView,
    r: Seq<ReplyView>,
    outcomes: Option<Seq<JsonView>>,
    met: bool,
    left: Seq<ReplyView>,
) -> bool {
    outcomes_then(a.definition, a.instance, a.principal, r) == GoalsThen::Judged(outcomes, met, left)
}

/// Whether a response is composed of the status, the links and the locks that came back.
pub open spec fn composed(
    a: AnswerView,
    outcomes: Option<Seq<JsonView>>,
    left: Seq<ReplyView>,
    m: Members,
) -> bool {
    &&& left.len() > 1
    &&& left[0] matches ReplyView::Mission { result, .. } && left[1] matches ReplyView::Prefilled(
        resolved,
    ) && {
        let all = links_view(a.definition, a.instance, resolved);
        exists|links: Seq<JsonView>, held: Option<Seq<(Seq<char>, Seq<char>)>>|
            #![trigger body(a.definition, a.instance, PartsView { mission: result, outcomes, links, error: a.error, held })]
            {
                &&& m == body(
                    a.definition,
                    a.instance,
                    PartsView { mission: result, outcomes, links, error: a.error, held },
                )
                &&& !filters_links(a.definition, a.instance.state) ==> links == all
                &&& filters_links(a.definition, a.instance.state) ==> exists|at: Seq<int>| #[trigger]
                    parts(all, a.definition, a.instance.state, left.skip(2), at) && links == followed(
                        all,
                        all.len() as int,
                        a.definition,
                        a.instance.state,
                        left.skip(2),
                        at,
                    )
                &&& a.locks <==> held is Some
                &&& held matches Some(h) ==> left.contains(ReplyView::Held(h))
            }
    }
}

} // verus!
