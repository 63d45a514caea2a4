//! What a caller can do next: the transitions of a state as links, and the skills
//! that apply to a step.

use vstd::prelude::*;

use crate::json::{
    lookup, opt_text, opt_view, put, then_step, views, Json, JsonMap, JsonView, Members,
};
use crate::model::{InstanceView, WorkflowInstance};
use crate::text::{holds, same, texts};

verus! {

/// The declaration of a state.
pub open spec fn state_def(definition: JsonView, state: Seq<char>) -> Option<JsonView> {
    then_step(definition.step("states"@), state)
}

/// The declaration of a transition of a state.
pub open spec fn transition_def(
    definition: JsonView,
    state: Seq<char>,
    transition: Seq<char>,
) -> Option<JsonView> {
    then_step(then_step(state_def(definition, state), "transitions"@), transition)
}

/// The transitions of a state, by name.
pub open spec fn transitions_of(definition: JsonView, state: Seq<char>) -> Option<Members> {
    match then_step(state_def(definition, state), "transitions"@) {
        Some(t) => t.as_object(),
        None => None,
    }
}

/// Whether a state is declared to end the run.
pub open spec fn terminal(definition: JsonView, state: Seq<char>) -> bool {
    match then_step(state_def(definition, state), "terminal"@) {
        Some(t) => t == JsonView::Bool(true),
        None => false,
    }
}

pub fn find_state<'a>(definition: &'a Json, state: &str) -> (r: Option<&'a Json>)
    ensures
        opt_view(r) == state_def(definition@, state@),
{
    definition.at2("states", state)
}

pub fn transition_definition<'a>(
    definition: &'a Json,
    state: &str,
    transition: &str,
) -> (r: Option<&'a Json>)
    ensures
        opt_view(r) == transition_def(definition@, state@, transition@),
{
    definition.at4("states", state, "transitions", transition)
}

pub fn find_transitions<'a>(definition: &'a Json, state: &str) -> (r: Option<&'a JsonMap>)
    ensures
        (match r {
            Some(m) => Some(m@),
            None => None,
        }) == transitions_of(definition@, state@),
{
    match definition.at3("states", state, "transitions") {
        Some(t) => t.as_object(),
        None => None,
    }
}

/// Whether a state ends the run.
pub fn is_terminal(definition: &Json, state: &str) -> (r: bool)
    ensures
        r == terminal(definition@, state@),
{
    match definition.at3("states", state, "terminal") {
        Some(t) => match t.as_bool() {
            Some(b) => b,
            None => false,
        },
        None => false,
    }
}

/// Whether links are to be filtered by their guards: the setting of the state,
/// else that of the definition.
pub open spec fn filters_links(definition: JsonView, state: Seq<char>) -> bool {
    let of_state = match then_step(state_def(definition, state), "linkFilter"@) {
        Some(v) => v.as_str(),
        None => None,
    };
    match of_state {
        Some(s) => s == "byGuards"@,
        None => definition.get_str("linkFilter"@) == Some("byGuards"@),
    }
}

pub fn link_filter_byguards(definition: &Json, state: &str) -> (r: bool)
    ensures
        r == filters_links(definition@, state@),
{
    let of_state = match definition.at3("states", state, "linkFilter") {
        Some(v) => v.as_str(),
        None => None,
    };
    match of_state {
        Some(s) => same(s, "byGuards"),
        None => match definition.get_str("linkFilter") {
            Some(s) => same(s, "byGuards"),
            None => false,
        },
    }
}

/// The strings among the elements of an array.
pub open spec fn strings_of(a: Seq<JsonView>) -> Seq<Seq<char>>
    decreases a.len(),
{
    if a.len() == 0 {
        Seq::empty()
    } else {
        match a.last().as_str() {
            Some(s) => strings_of(a.drop_last()).push(s),
            None => strings_of(a.drop_last()),
        }
    }
}

/// The strings of an array that may be absent or something else.
pub open spec fn strings_in(v: Option<JsonView>) -> Seq<Seq<char>> {
    match v {
        Some(JsonView::Array(a)) => strings_of(a),
        _ => Seq::empty(),
    }
}

pub fn collect_strings(v: Option<&Json>) -> (r: Vec<String>)
    ensures
        texts(r@) == strings_in(opt_view(v)),
{
    let mut out: Vec<String> = Vec::new();
    assert(texts(out@) =~= Seq::empty());
    let a = match v {
        Some(j) => match j.as_array() {
            Some(a) => a,
            None => {
                return out;
            },
        },
        None => {
            return out;
        },
    };
    let mut i: usize = 0;
    while i < a.len()
        invariant
            i <= a@.len(),
            texts(out@) == strings_of(views(a@).take(i as int)),
        decreases a@.len() - i,
    {
        let ghost next = views(a@).take(i + 1);
        let ghost before = out@;
        assert(next.drop_last() =~= views(a@).take(i as int));
        assert(next.last() == a@[i as int]@);
        if let Some(s) = a[i].as_str() {
            out.push(s.to_owned());
            assert(texts(out@) =~= texts(before).push(s@));
        }
        i = i + 1;
    }
    assert(views(a@).take(i as int) =~= views(a@));
    out
}

/// A list extended by the texts that it does not hold yet.
pub open spec fn add_new(acc: Seq<Seq<char>>, more: Seq<Seq<char>>) -> Seq<Seq<char>>
    decreases more.len(),
{
    if more.len() == 0 {
        acc
    } else {
        let before = add_new(acc, more.drop_last());
        if before.contains(more.last()) {
            before
        } else {
            before.push(more.last())
        }
    }
}

/// A list without repetitions, what came first staying first.
pub open spec fn distinct(list: Seq<Seq<char>>) -> Seq<Seq<char>> {
    add_new(Seq::empty(), list)
}

/// A list made by `distinct` holds what the list holds, nothing twice.
pub proof fn law_distinct(list: Seq<Seq<char>>)
    ensures
        distinct(list).no_duplicates(),
        forall|s: Seq<char>| distinct(list).contains(s) <==> list.contains(s),
    decreases list.len(),
{
    if list.len() > 0 {
        let init = list.drop_last();
        law_distinct(init);
        let before = distinct(init);
        assert forall|s: Seq<char>| distinct(list).contains(s) <==> list.contains(s) by {
            if list.contains(s) {
                let i = choose|i: int| 0 <= i < list.len() && list[i] == s;
                if i < list.len() - 1 {
                    assert(init[i] == s);
                    assert(init.contains(s));
                    assert(before.contains(s));
                    let k = choose|k: int| 0 <= k < before.len() && before[k] == s;
                    assert(distinct(list)[k] == s);
                } else if !before.contains(s) {
                    assert(distinct(list).last() == s);
                }
            }
            if distinct(list).contains(s) {
                let k = choose|k: int| 0 <= k < distinct(list).len() && distinct(list)[k] == s;
                if k < before.len() {
                    assert(before[k] == s);
                    assert(init.contains(s));
                    let i = choose|i: int| 0 <= i < init.len() && init[i] == s;
                    assert(list[i] == s);
                } else {
                    assert(list.last() == s);
                }
            }
        }
    }
}

proof fn lemma_add_new_twice(acc: Seq<Seq<char>>, a: Seq<Seq<char>>, b: Seq<Seq<char>>)
    ensures
        add_new(add_new(acc, a), b) == add_new(acc, a + b),
    decreases b.len(),
{
    if b.len() == 0 {
        assert(a + b =~= a);
    } else {
        assert((a + b).drop_last() =~= a + b.drop_last());
        lemma_add_new_twice(acc, a, b.drop_last());
    }
}

/// Appends the texts of `more` that `out` does not hold yet.
pub fn push_new(out: &mut Vec<String>, more: &Vec<String>)
    ensures
        texts(final(out)@) == add_new(texts(old(out)@), texts(more@)),
{
    let ghost acc = texts(out@);
    let mut i: usize = 0;
    while i < more.len()
        invariant
            i <= more@.len(),
            texts(out@) == add_new(acc, texts(more@).take(i as int)),
        decreases more@.len() - i,
    {
        let ghost next = texts(more@).take(i + 1);
        let ghost before = out@;
        assert(next.drop_last() =~= texts(more@).take(i as int));
        assert(next.last() == more@[i as int]@);
        if !holds(out, more[i].as_str()) {
            out.push(more[i].clone());
            assert(texts(out@) =~= texts(before).push(more@[i as int]@));
        }
        i = i + 1;
    }
    assert(texts(more@).take(i as int) =~= texts(more@));
}

/// The declared skills of a scope that may be absent.
pub open spec fn skills_of(scope: Option<JsonView>) -> Seq<Seq<char>> {
    match scope {
        Some(v) => strings_in(v.get("skills"@)),
        None => Seq::empty(),
    }
}

fn collect_skills(scope: Option<&Json>) -> (r: Vec<String>)
    ensures
        texts(r@) == skills_of(opt_view(scope)),
{
    match scope {
        Some(v) => collect_strings(v.get("skills")),
        None => {
            let r: Vec<String> = Vec::new();
            assert(texts(r@) =~= Seq::empty());
            r
        },
    }
}

/// The skills that apply to a step: those of the definition, of the state and of
/// the transition, without repetitions.
pub open spec fn skills_in_scope(
    definition: JsonView,
    state: Seq<char>,
    transition: Option<Seq<char>>,
) -> Seq<Seq<char>> {
    let broad = skills_of(Some(definition)) + skills_of(state_def(definition, state));
    match transition {
        Some(t) => distinct(broad + skills_of(transition_def(definition, state, t))),
        None => distinct(broad),
    }
}

pub fn collect_in_scope_skill_subjects(
    definition: &Json,
    state: &str,
    transition: Option<&str>,
) -> (r: Vec<String>)
    ensures
        texts(r@) == skills_in_scope(definition@, state@, opt_text(transition)),
{
    let mut out: Vec<String> = Vec::new();
    assert(texts(out@) =~= Seq::empty());
    let wide = collect_skills(Some(definition));
    push_new(&mut out, &wide);
    let of_state = collect_skills(find_state(definition, state));
    push_new(&mut out, &of_state);
    proof {
        lemma_add_new_twice(Seq::empty(), texts(wide@), texts(of_state@));
    }
    if let Some(t) = transition {
        let own = collect_skills(transition_definition(definition, state, t));
        push_new(&mut out, &own);
        proof {
            lemma_add_new_twice(Seq::empty(), texts(wide@) + texts(of_state@), texts(own@));
        }
    }
    out
}

/// The reference to a skill: its verb, its subject and, where the library has one,
/// its hash.
pub open spec fn skill_ref(library: Option<Members>, subject: Seq<char>) -> Option<JsonView> {
    let held = match library {
        Some(lib) => lookup(lib, subject),
        None => None,
    };
    match held {
        Some(e) => match e.get_str("verb"@) {
            Some(verb) => {
                let base = put(
                    put(Members::empty(), "verb"@, JsonView::Str(verb)),
                    "subject"@,
                    JsonView::Str(subject),
                );
                Some(
                    JsonView::Object(
                        match e.get_str("hash"@) {
                            Some(h) => put(base, "hash"@, JsonView::Str(h)),
                            None => base,
                        },
                    ),
                )
            },
            None => None,
        },
        None => None,
    }
}

/// The references to the subjects that the library knows a verb for.
pub open spec fn skill_refs(library: Option<Members>, subjects: Seq<Seq<char>>) -> Seq<JsonView>
    decreases subjects.len(),
{
    if subjects.len() == 0 {
        Seq::empty()
    } else {
        let before = skill_refs(library, subjects.drop_last());
        match skill_ref(library, subjects.last()) {
            Some(r) => before.push(r),
            None => before,
        }
    }
}

/// The skill library that a definition carries.
pub open spec fn skills_library(definition: JsonView) -> Option<Members> {
    definition.get_object("_skillsLibrary"@)
}

fn make_skill_ref(library: Option<&JsonMap>, subject: &str) -> (r: Option<Json>)
    ensures
        (match r {
            Some(j) => Some(j@),
            None => None,
        }) == skill_ref(
            match library {
                Some(m) => Some(m@),
                None => None,
            },
            subject@,
        ),
{
    let held = match library {
        Some(lib) => lib.get(subject),
        None => None,
    };
    match held {
        Some(e) => match e.get_str("verb") {
            Some(verb) => {
                let mut m = JsonMap::new().with("verb", Json::text(verb)).with(
                    "subject",
                    Json::text(subject),
                );
                if let Some(h) = e.get_str("hash") {
                    m = m.with("hash", Json::text(h));
                }
                Some(Json::Object(m))
            },
            None => None,
        },
        None => None,
    }
}

fn make_skill_refs(library: Option<&JsonMap>, subjects: &Vec<String>) -> (r: Vec<Json>)
    ensures
        views(r@) == skill_refs(
            match library {
                Some(m) => Some(m@),
                None => None,
            },
            texts(subjects@),
        ),
{
    let ghost lib = match library {
        Some(m) => Some(m@),
        None => None,
    };
    let mut out: Vec<Json> = Vec::new();
    let mut i: usize = 0;
    assert(views(out@) =~= Seq::empty());
    while i < subjects.len()
        invariant
            i <= subjects@.len(),
            lib == (match library {
                Some(m) => Some(m@),
                None => None,
            }),
            views(out@) == skill_refs(lib, texts(subjects@).take(i as int)),
        decreases subjects@.len() - i,
    {
        let ghost next = texts(subjects@).take(i + 1);
        let ghost before = out@;
        assert(next.drop_last() =~= texts(subjects@).take(i as int));
        assert(next.last() == subjects@[i as int]@);
        if let Some(j) = make_skill_ref(library, subjects[i].as_str()) {
            out.push(j);
            assert(views(out@) =~= views(before).push(j@));
        }
        i = i + 1;
    }
    assert(texts(subjects@).take(i as int) =~= texts(subjects@));
    out
}

/// The references for one scope's own skills.
pub fn resolve_skill_refs(scope: Option<&Json>, library: Option<&JsonMap>) -> (r: Vec<Json>)
    ensures
        views(r@) == skill_refs(
            match library {
                Some(m) => Some(m@),
                None => None,
            },
            distinct(strings_in(opt_view(scope))),
        ),
{
    let mut subjects: Vec<String> = Vec::new();
    assert(texts(subjects@) =~= Seq::empty());
    let found = collect_strings(scope);
    push_new(&mut subjects, &found);
    make_skill_refs(library, &subjects)
}

/// The references that guide a state: those of the definition and of the state.
pub open spec fn guidance_refs(definition: JsonView, state: Option<JsonView>) -> Seq<JsonView> {
    skill_refs(
        skills_library(definition),
        distinct(skills_of(Some(definition)) + skills_of(state)),
    )
}

pub fn collect_guidance_refs(definition: &Json, state: Option<&Json>) -> (r: Vec<Json>)
    ensures
        views(r@) == guidance_refs(definition@, opt_view(state)),
{
    let mut subjects: Vec<String> = Vec::new();
    assert(texts(subjects@) =~= Seq::empty());
    let wide = collect_skills(Some(definition));
    push_new(&mut subjects, &wide);
    let own = collect_skills(state);
    push_new(&mut subjects, &own);
    proof {
        lemma_add_new_twice(Seq::empty(), texts(wide@), texts(own@));
    }
    make_skill_refs(definition.get_object("_skillsLibrary"), &subjects)
}

/// The schema of an object without members.
pub open spec fn no_arguments() -> JsonView {
    JsonView::Object(
        put(
            put(
                put(Members::empty(), "type"@, JsonView::Str("object"@)),
                "properties"@,
                JsonView::Object(Members::empty()),
            ),
            "additionalProperties"@,
            JsonView::Bool(false),
        ),
    )
}

pub fn empty_object_schema() -> (r: Json)
    ensures
        r@ == no_arguments(),
{
    Json::Object(
        JsonMap::new().with("type", Json::text("object")).with(
            "properties",
            Json::Object(JsonMap::new()),
        ).with("additionalProperties", Json::Bool(false)),
    )
}

/// A value, or null where there is none.
pub open spec fn or_null(v: Option<JsonView>) -> JsonView {
    match v {
        Some(j) => j,
        None => JsonView::Null,
    }
}

pub fn copy_or_null(v: Option<&Json>) -> (r: Json)
    ensures
        r@ == or_null(opt_view(v)),
{
    match v {
        Some(j) => j.clone(),
        None => Json::Null,
    }
}

/// A text, or another one where there is none.
pub open spec fn text_or(v: Option<Seq<char>>, other: Seq<char>) -> Seq<char> {
    match v {
        Some(s) => s,
        None => other,
    }
}

fn pick<'a>(v: Option<&'a str>, other: &'a str) -> (r: &'a str)
    ensures
        r@ == text_or(opt_text(v), other@),
{
    match v {
        Some(s) => s,
        None => other,
    }
}

/// The arguments that every link carries.
pub open spec fn link_args(id: Seq<char>, version: u64, rel: Seq<char>) -> Members {
    put(
        put(
            put(Members::empty(), "workflowId"@, JsonView::Str(id)),
            "expectedVersion"@,
            JsonView::Number(crate::json::NumberView::PosInt(version)),
        ),
        "transition"@,
        JsonView::Str(rel),
    )
}

fn make_link_args(instance: &WorkflowInstance, rel: &str) -> (r: JsonMap)
    ensures
        r@ == link_args(instance.id@, instance.version, rel@),
{
    JsonMap::new().with("workflowId", Json::text(instance.id.as_str())).with(
        "expectedVersion",
        Json::uint(instance.version),
    ).with("transition", Json::text(rel))
}

/// A link to a transition.
pub open spec fn link_members(
    rel: Seq<char>,
    t: JsonView,
    actor: Seq<char>,
    args: Members,
    schema: JsonView,
) -> Members {
    put(
        put(
            put(
                put(
                    put(
                        put(
                            put(Members::empty(), "rel"@, JsonView::Str(rel)),
                            "title"@,
                            JsonView::Str(text_or(t.get_str("title"@), rel)),
                        ),
                        "description"@,
                        or_null(t.get("description"@)),
                    ),
                    "method"@,
                    JsonView::Str("praxec.command"@),
                ),
                "actor"@,
                JsonView::Str(actor),
            ),
            "args"@,
            JsonView::Object(args),
        ),
        "inputSchema"@,
        schema,
    )
}

fn make_link(rel: &str, t: &Json, actor: &str, args: JsonMap, schema: Json) -> (r: JsonMap)
    ensures
        r@ == link_members(rel@, t@, actor@, args@, schema@),
{
    JsonMap::new().with("rel", Json::text(rel)).with(
        "title",
        Json::text(pick(t.get_str("title"), rel)),
    ).with("description", copy_or_null(t.get("description"))).with(
        "method",
        Json::text("praxec.command"),
    ).with("actor", Json::text(actor)).with("args", Json::Object(args)).with("inputSchema", schema)
}

/// The input schema of a transition.
pub open spec fn schema_or_empty(t: JsonView) -> JsonView {
    match t.get("inputSchema"@) {
        Some(s) => s,
        None => no_arguments(),
    }
}

fn schema_of(t: &Json) -> (r: Json)
    ensures
        r@ == schema_or_empty(t@),
{
    match t.get("inputSchema") {
        Some(s) => s.clone(),
        None => empty_object_schema(),
    }
}

/// Whether a transition is fired by the runtime itself.
pub open spec fn deterministic(t: JsonView) -> bool {
    t.get_str("actor"@) == Some("deterministic"@)
}

pub fn is_deterministic(t: &Json) -> (r: bool)
    ensures
        r == deterministic(t@),
{
    match t.get_str("actor") {
        Some(a) => same(a, "deterministic"),
        None => false,
    }
}

/// The arguments that a link offers ready-made: what the transition's `prefill`
/// was resolved to, where there is any.
pub open spec fn prefilled(t: JsonView, resolved: Members, rel: Seq<char>) -> Option<Members> {
    if t.get_object("prefill"@) is Some {
        match lookup(resolved, rel) {
            Some(JsonView::Object(m)) => if m.len() > 0 {
                Some(m)
            } else {
                None
            },
            _ => None,
        }
    } else {
        None
    }
}

/// The link to one transition. `resolved` has, by transition, the values that the
/// `prefill` declarations were resolved to.
pub open spec fn link_view(
    definition: JsonView,
    id: Seq<char>,
    version: u64,
    rel: Seq<char>,
    t: JsonView,
    resolved: Members,
) -> JsonView {
    let base = link_args(id, version, rel);
    let args = match prefilled(t, resolved, rel) {
        Some(m) => put(base, "arguments"@, JsonView::Object(m)),
        None => base,
    };
    let link = link_members(
        rel,
        t,
        text_or(t.get_str("actor"@), "agent"@),
        args,
        schema_or_empty(t),
    );
    let refs = skill_refs(
        skills_library(definition),
        distinct(strings_in(t.get("skills"@))),
    );
    if refs.len() > 0 {
        JsonView::Object(
            put(
                link,
                "guidance"@,
                JsonView::Object(put(Members::empty(), "refs"@, JsonView::Array(refs))),
            ),
        )
    } else {
        JsonView::Object(link)
    }
}

/// The links to the transitions that the runtime does not fire itself.
pub open spec fn links_over(
    definition: JsonView,
    id: Seq<char>,
    version: u64,
    ts: Members,
    resolved: Members,
) -> Seq<JsonView>
    decreases ts.len(),
{
    if ts.len() == 0 {
        Seq::empty()
    } else {
        let before = links_over(definition, id, version, ts.drop_last(), resolved);
        if deterministic(ts.last().1) {
            before
        } else {
            before.push(
                link_view(definition, id, version, ts.last().0, ts.last().1, resolved),
            )
        }
    }
}

/// What a caller can do next from an instance.
pub open spec fn links_view(definition: JsonView, i: InstanceView, resolved: Members) -> Seq<
    JsonView,
> {
    if terminal(definition, i.state) {
        Seq::empty()
    } else {
        match transitions_of(definition, i.state) {
            Some(ts) => links_over(definition, i.id, i.version, ts, resolved),
            None => Seq::empty(),
        }
    }
}

fn one_link(
    definition: &Json,
    instance: &WorkflowInstance,
    rel: &str,
    t: &Json,
    resolved: &JsonMap,
) -> (r: Json)
    ensures
        r@ == link_view(definition@, instance.id@, instance.version, rel@, t@, resolved@),
{
    broadcast use crate::json::array_view;

    let mut args = make_link_args(instance, rel);
    if t.get_object("prefill").is_some() {
        if let Some(v) = resolved.get(rel) {
            if let Some(m) = v.as_object() {
                if !m.is_empty() {
                    args = args.with("arguments", Json::Object(m.clone()));
                }
            }
        }
    }
    let link = make_link(rel, t, pick(t.get_str("actor"), "agent"), args, schema_of(t));
    let refs = resolve_skill_refs(t.get("skills"), definition.get_object("_skillsLibrary"));
    assert(views(refs@).len() == refs@.len());
    if refs.len() > 0 {
        Json::Object(
            link.with("guidance", Json::Object(JsonMap::new().with("refs", Json::Array(refs)))),
        )
    } else {
        Json::Object(link)
    }
}

/// The links of the current state. `resolved` has, by transition, the values that
/// the `prefill` declarations were resolved to.
pub fn links(definition: &Json, instance: &WorkflowInstance, resolved: &JsonMap) -> (r: Vec<Json>)
    ensures
        views(r@) == links_view(definition@, instance@, resolved@),
{
    let mut out: Vec<Json> = Vec::new();
    assert(views(out@) =~= Seq::empty());
    if is_terminal(definition, instance.state.as_str()) {
        return out;
    }
    let ts = match find_transitions(definition, instance.state.as_str()) {
        Some(ts) => ts,
        None => {
            return out;
        },
    };
    let mut i: usize = 0;
    while i < ts.len()
        invariant
            i <= ts@.len(),
            views(out@) == links_over(
                definition@,
                instance.id@,
                instance.version,
                ts@.take(i as int),
                resolved@,
            ),
        decreases ts@.len() - i,
    {
        let ghost next = ts@.take(i + 1);
        let ghost before = out@;
        assert(next.drop_last() =~= ts@.take(i as int));
        assert(next.last() == ts@[i as int]);
        let t = ts.value_at(i);
        if !is_deterministic(t) {
            let link = one_link(definition, instance, ts.key_at(i).as_str(), t, resolved);
            out.push(link);
            assert(views(out@) =~= views(before).push(link@));
        }
        i = i + 1;
    }
    assert(ts@.take(i as int) =~= ts@);
    out
}

/// A response with further links.
pub open spec fn with_links(response: Members, more: Seq<JsonView>) -> Members {
    match lookup(response, "links"@) {
        Some(JsonView::Array(a)) => put(response, "links"@, JsonView::Array(a + more)),
        _ => response,
    }
}

fn append_links(response: &mut JsonMap, more: Vec<Json>)
    ensures
        final(response)@ == with_links(old(response)@, views(more@)),
{
    broadcast use crate::json::array_view;

    let ghost before = response@;
    let mut out: Vec<Json> = Vec::new();
    match response.get("links") {
        Some(v) => match v.as_array() {
            Some(a) => {
                let mut i: usize = 0;
                assert(views(out@) =~= views(a@).take(0));
                while i < a.len()
                    invariant
                        i <= a@.len(),
                        views(out@) == views(a@).take(i as int),
                    decreases a@.len() - i,
                {
                    let ghost prior = out@;
                    let v = a[i].clone();
                    out.push(v);
                    assert(views(out@) =~= views(prior).push(a@[i as int]@));
                    assert(views(a@).take(i + 1) =~= views(a@).take(i as int).push(
                        a@[i as int]@,
                    ));
                    i = i + 1;
                }
                assert(views(a@).take(i as int) =~= views(a@));
            },
            None => {
                return ;
            },
        },
        None => {
            return ;
        },
    }
    let ghost held = views(out@);
    let mut rest = more;
    out.append(&mut rest);
    assert(views(out@) =~= held + views(more@));
    response.insert("links".to_owned(), Json::Array(out));
}

/// The link back to the transition that a chain failed in.
pub open spec fn failed_link(t: JsonView, id: Seq<char>, version: u64, rel: Seq<char>) -> JsonView {
    JsonView::Object(
        link_members(rel, t, "deterministic"@, link_args(id, version, rel), no_arguments()),
    )
}

/// A response with the link back to the failed transition, where there is one.
pub open spec fn with_failed_link(
    response: Members,
    definition: JsonView,
    i: InstanceView,
    failed: Seq<char>,
) -> Members {
    match transition_def(definition, i.state, failed) {
        Some(t) => if failed.len() > 0 {
            with_links(response, seq![failed_link(t, i.id, i.version, failed)])
        } else {
            response
        },
        None => response,
    }
}

/// Adds the link back to the transition that a chain failed in.
pub fn push_failed_chain_recovery_link(
    response: &mut JsonMap,
    definition: &Json,
    instance: &WorkflowInstance,
    failed_transition: &str,
)
    ensures
        final(response)@ == with_failed_link(
            old(response)@,
            definition@,
            instance@,
            failed_transition@,
        ),
{
    if failed_transition.is_empty() {
        return ;
    }
    if let Some(t) = transition_definition(definition, instance.state.as_str(), failed_transition) {
        let link = make_link(
            failed_transition,
            t,
            "deterministic",
            make_link_args(instance, failed_transition),
            empty_object_schema(),
        );
        let mut more: Vec<Json> = Vec::new();
        more.push(Json::Object(link));
        assert(views(more@) =~= seq![
            failed_link(t@, instance.id@, instance.version, failed_transition@),
        ]);
        append_links(response, more);
    }
}

/// The links to all transitions of a state, for a caller to recover with.
pub open spec fn recovery_links(id: Seq<char>, version: u64, ts: Members) -> Seq<JsonView> {
    Seq::new(
        ts.len(),
        |k: int|
            JsonView::Object(
                link_members(
                    ts[k].0,
                    ts[k].1,
                    text_or(ts[k].1.get_str("actor"@), "deterministic"@),
                    link_args(id, version, ts[k].0),
                    schema_or_empty(ts[k].1),
                ),
            ),
    )
}

/// A response with links to all transitions of the current state.
pub open spec fn with_state_links(
    response: Members,
    definition: JsonView,
    i: InstanceView,
) -> Members {
    match transitions_of(definition, i.state) {
        Some(ts) => with_links(response, recovery_links(i.id, i.version, ts)),
        None => response,
    }
}

/// Adds links to all transitions of the current state.
pub fn push_state_recovery_links(
    response: &mut JsonMap,
    definition: &Json,
    instance: &WorkflowInstance,
)
    ensures
        final(response)@ == with_state_links(old(response)@, definition@, instance@),
{
    let ts = match find_transitions(definition, instance.state.as_str()) {
        Some(ts) => ts,
        None => {
            return ;
        },
    };
    let mut more: Vec<Json> = Vec::new();
    let ghost all = recovery_links(instance.id@, instance.version, ts@);
    let mut i: usize = 0;
    assert(views(more@) =~= all.take(0));
    while i < ts.len()
        invariant
            i <= ts@.len(),
            all == recovery_links(instance.id@, instance.version, ts@),
            views(more@) == all.take(i as int),
        decreases ts@.len() - i,
    {
        let ghost prior = more@;
        let t = ts.value_at(i);
        let rel = ts.key_at(i).as_str();
        let link = Json::Object(
            make_link(
                rel,
                t,
                pick(t.get_str("actor"), "deterministic"),
                make_link_args(instance, rel),
                schema_of(t),
            ),
        );
        more.push(link);
        assert(views(more@) =~= views(prior).push(link@));
        assert(all.take(i + 1) =~= all.take(i as int).push(all[i as int]));
        i = i + 1;
    }
    assert(all.take(i as int) =~= all);
    append_links(response, more);
}

} // verus!
