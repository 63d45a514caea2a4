//! The identity of a flow's control graph: what machine a flow is, whatever it says of
//! itself.
//!
//! Prose and the order of declarations make no difference. State and transition names,
//! targets, guards, executors and their wiring do.

use vstd::prelude::*;

use crate::hashing::{hex_text, sha256_of, sha256_text};
use crate::json::{
    dropped, lemma_lookup_some, lookup, obj, put, strs, views, Json, JsonMap, JsonView, Members,
};
use crate::json_text::{compact, compact_text};
use crate::sorting::{
    add_list, add_string, add_text, in_order, insert_list, is_set, law_added_texts_form_a_set,
    law_sorted_texts, list_lt, lists, sort_json, sort_strings, sort_texts, sort_values,
};
use crate::text::{lemma_lt_irreflexive, lt, same, text_lt, texts};

verus! {

/// The members that only people read.
pub open spec fn prose() -> Seq<Seq<char>> {
    Seq::empty().push("title"@).push("description"@).push("goal"@).push("guidance"@)
}

fn strip_prose(m: &JsonMap) -> (r: JsonMap)
    ensures
        r@ == dropped(m@, prose()),
{
    let mut keys: Vec<&str> = Vec::new();
    keys.push("title");
    keys.push("description");
    keys.push("goal");
    keys.push("guidance");
    assert(strs(keys@) =~= prose());
    m.without_keys(&keys)
}

/// An executor without prose. Its branches run side by side, so their order is dropped.
pub open spec fn executor_form(e: JsonView) -> JsonView
    decreases e, 1int,
{
    match e {
        JsonView::Object(m) => {
            proof {
                if let Some(JsonView::Array(a)) = lookup(m, "branches"@) {
                    let i = lemma_lookup_some(m, "branches"@);
                    assert(decreases_to!(e => m));
                    assert(decreases_to!(m => m[i]));
                    assert(decreases_to!(m[i] => m[i].1));
                    assert(decreases_to!(m[i].1 => a));
                }
            }
            match lookup(m, "branches"@) {
                Some(JsonView::Array(a)) => JsonView::Object(
                    put(
                        dropped(m, prose()),
                        "branches"@,
                        JsonView::Array(sort_values(executor_forms(a))),
                    ),
                ),
                _ => JsonView::Object(dropped(m, prose())),
            }
        },
        _ => e,
    }
}

/// Executors without prose.
pub open spec fn executor_forms(a: Seq<JsonView>) -> Seq<JsonView>
    decreases a, 0int,
{
    if a.len() == 0 {
        a
    } else {
        executor_forms(a.drop_last()).push(executor_form(a[a.len() - 1]))
    }
}

/// A guard without prose.
pub open spec fn guard_form(g: JsonView) -> JsonView {
    match g {
        JsonView::Object(m) => JsonView::Object(dropped(m, prose())),
        _ => g,
    }
}

pub open spec fn guard_forms(a: Seq<JsonView>) -> Seq<JsonView> {
    a.map_values(|g: JsonView| guard_form(g))
}

/// A transition without prose. All its guards have to pass, so their order is dropped.
pub open spec fn transition_form(t: JsonView) -> JsonView {
    match t {
        JsonView::Object(m) => {
            let bare = dropped(m, prose());
            let guarded = match lookup(m, "guards"@) {
                Some(JsonView::Array(a)) => put(
                    bare,
                    "guards"@,
                    JsonView::Array(sort_values(guard_forms(a))),
                ),
                _ => bare,
            };
            match lookup(m, "executor"@) {
                Some(e) => JsonView::Object(put(guarded, "executor"@, executor_form(e))),
                None => JsonView::Object(guarded),
            }
        },
        _ => t,
    }
}

/// Transitions without prose, by name.
pub open spec fn transition_forms(ts: Members) -> Members
    decreases ts.len(),
{
    if ts.len() == 0 {
        Seq::empty()
    } else {
        put(transition_forms(ts.drop_last()), ts.last().0, transition_form(ts.last().1))
    }
}

/// A state without prose.
pub open spec fn state_form(s: JsonView) -> JsonView {
    match s {
        JsonView::Object(m) => match lookup(m, "transitions"@) {
            Some(JsonView::Object(ts)) => JsonView::Object(
                put(
                    dropped(m, prose()),
                    "transitions"@,
                    JsonView::Object(transition_forms(ts)),
                ),
            ),
            _ => JsonView::Object(dropped(m, prose())),
        },
        _ => s,
    }
}

/// States without prose, by name.
pub open spec fn state_forms(states: Members) -> Members
    decreases states.len(),
{
    if states.len() == 0 {
        Seq::empty()
    } else {
        put(state_forms(states.drop_last()), states.last().0, state_form(states.last().1))
    }
}

/// What is left of a flow when only its machine is looked at: where it starts, and its
/// states.
pub open spec fn machine(definition: JsonView) -> JsonView {
    let start = match definition.get("initialState"@) {
        Some(v) => obj().with("initialState"@, v),
        None => obj(),
    };
    start.with(
        "states"@,
        match definition.get_object("states"@) {
            Some(states) => JsonView::Object(state_forms(states)),
            None => JsonView::Object(Seq::empty()),
        },
    ).json()
}

/// The fingerprint of a flow: the hash of its machine.
pub open spec fn fingerprint_of(definition: JsonView) -> Seq<char> {
    sha256_of(compact(machine(definition)))
}

fn make_executor_forms(a: &Vec<Json>) -> (r: Vec<Json>)
    ensures
        views(r@) == executor_forms(views(a@)),
    decreases views(a@), 0int,
{
    let ghost all = views(a@);
    let mut out: Vec<Json> = Vec::new();
    let mut i: usize = 0;
    assert(all.take(0) =~= Seq::empty());
    assert(views(out@) =~= Seq::empty());
    while i < a.len()
        invariant
            i <= a@.len(),
            all == views(a@),
            views(out@) == executor_forms(all.take(i as int)),
        decreases a@.len() - i,
    {
        let ghost next = all.take(i + 1);
        let ghost before = out@;
        assert(next.drop_last() =~= all.take(i as int));
        assert(next[next.len() - 1] == a@[i as int]@);
        assert(decreases_to!(all => all[i as int]));
        let f = make_executor_form(&a[i]);
        out.push(f);
        assert(views(out@) =~= views(before).push(f@));
        i = i + 1;
    }
    assert(all.take(i as int) =~= all);
    out
}

fn make_executor_form(e: &Json) -> (r: Json)
    ensures
        r@ == executor_form(e@),
    decreases e@, 1int,
{
    broadcast use crate::json::array_view;

    match e {
        Json::Object(m) => {
            let bare = strip_prose(m);
            match m.get("branches") {
                Some(Json::Array(a)) => {
                    proof {
                        let i = lemma_lookup_some(m@, "branches"@);
                        assert(decreases_to!(e@ => m@));
                        assert(decreases_to!(m@ => m@[i]));
                        assert(decreases_to!(m@[i] => m@[i].1));
                        assert(m@[i].1 == JsonView::Array(views(a@)));
                        assert(decreases_to!(m@[i].1 => m@[i].1->Array_0));
                    }
                    Json::Object(bare.with("branches", Json::Array(sort_json(make_executor_forms(a)))))
                },
                _ => Json::Object(bare),
            }
        },
        _ => e.clone(),
    }
}

fn make_guard_forms(a: &Vec<Json>) -> (r: Vec<Json>)
    ensures
        views(r@) == guard_forms(views(a@)),
{
    broadcast use crate::json::array_view;

    let mut out: Vec<Json> = Vec::new();
    let mut i: usize = 0;
    while i < a.len()
        invariant
            i <= a@.len(),
            i == out@.len(),
            forall|k: int| 0 <= k < i ==> (#[trigger] out@[k])@ == guard_form(a@[k]@),
        decreases a@.len() - i,
    {
        let g = match &a[i] {
            Json::Object(m) => Json::Object(strip_prose(m)),
            other => other.clone(),
        };
        out.push(g);
        i = i + 1;
    }
    assert(views(out@) =~= guard_forms(views(a@)));
    out
}

fn make_transition_form(t: &Json) -> (r: Json)
    ensures
        r@ == transition_form(t@),
{
    broadcast use crate::json::array_view;

    match t {
        Json::Object(m) => {
            let bare = strip_prose(m);
            let guarded = match m.get("guards") {
                Some(Json::Array(a)) => bare.with(
                    "guards",
                    Json::Array(sort_json(make_guard_forms(a))),
                ),
                _ => bare,
            };
            match m.get("executor") {
                Some(e) => Json::Object(guarded.with("executor", make_executor_form(e))),
                None => Json::Object(guarded),
            }
        },
        _ => t.clone(),
    }
}

fn make_transition_forms(ts: &JsonMap) -> (r: JsonMap)
    ensures
        r@ == transition_forms(ts@),
{
    let mut out = JsonMap::new();
    let mut i: usize = 0;
    assert(ts@.take(0) =~= Seq::empty());
    while i < ts.len()
        invariant
            i <= ts@.len(),
            out@ == transition_forms(ts@.take(i as int)),
        decreases ts@.len() - i,
    {
        let ghost next = ts@.take(i + 1);
        assert(next.drop_last() =~= ts@.take(i as int));
        assert(next.last() == ts@[i as int]);
        out = out.with(ts.key_at(i).as_str(), make_transition_form(ts.value_at(i)));
        i = i + 1;
    }
    assert(ts@.take(i as int) =~= ts@);
    out
}

fn make_state_form(s: &Json) -> (r: Json)
    ensures
        r@ == state_form(s@),
{
    broadcast use crate::json::array_view;

    match s {
        Json::Object(m) => {
            let bare = strip_prose(m);
            match m.get("transitions") {
                Some(Json::Object(ts)) => Json::Object(
                    bare.with("transitions", Json::Object(make_transition_forms(ts))),
                ),
                _ => Json::Object(bare),
            }
        },
        _ => s.clone(),
    }
}

/// What is left of a flow when only its machine is looked at.
pub fn structural_form(definition: &Json) -> (r: Json)
    ensures
        r@ == machine(definition@),
{
    let start = match definition.get("initialState") {
        Some(v) => JsonMap::new().with("initialState", v.clone()),
        None => JsonMap::new(),
    };
    let states = match definition.get_object("states") {
        Some(states) => {
            let mut out = JsonMap::new();
            let mut i: usize = 0;
            assert(states@.take(0) =~= Seq::empty());
            while i < states.len()
                invariant
                    i <= states@.len(),
                    out@ == state_forms(states@.take(i as int)),
                decreases states@.len() - i,
            {
                let ghost next = states@.take(i + 1);
                assert(next.drop_last() =~= states@.take(i as int));
                assert(next.last() == states@[i as int]);
                out = out.with(states.key_at(i).as_str(), make_state_form(states.value_at(i)));
                i = i + 1;
            }
            assert(states@.take(i as int) =~= states@);
            out
        },
        None => JsonMap::new(),
    };
    Json::Object(start.with("states", Json::Object(states)))
}

/// The fingerprint of a flow: `sha256:` and 64 hexadecimal digits.
pub fn fingerprint(definition: &Json) -> (r: String)
    ensures
        r@ == fingerprint_of(definition@),
        hex_text(r@.skip(7), 64),
{
    sha256_text(compact_text(&structural_form(definition)).as_str())
}

/// A fact about a state's transition.
pub open spec fn place_fact(kind: Seq<char>, state: Seq<char>, t: Seq<char>, what: Seq<char>) -> Seq<
    char,
> {
    kind + state + "."@ + t + ":"@ + what
}

/// The facts so far with one more that names something, if there is something.
pub open spec fn with_named(acc: Seq<Seq<char>>, kind: Seq<char>, name: Option<Seq<char>>) -> Seq<
    Seq<char>,
> {
    match name {
        Some(n) => add_text(acc, kind + n),
        None => acc,
    }
}

/// The facts about an executor: its kind, and what it composes.
pub open spec fn executor_facts(
    acc: Seq<Seq<char>>,
    state: Seq<char>,
    t: Seq<char>,
    e: JsonView,
) -> Seq<Seq<char>> {
    let kind = match e.get_str("kind"@) {
        Some(k) => add_text(acc, place_fact("exec:"@, state, t, k)),
        None => acc,
    };
    with_named(
        with_named(
            with_named(
                with_named(kind, "composes:"@, e.get_str("definitionId"@)),
                "composes:"@,
                e.get_str("capability"@),
            ),
            "composes:"@,
            e.get_str("subject"@),
        ),
        "composes:"@,
        e.get_str("connection"@),
    )
}

/// The facts about guards: their kinds.
pub open spec fn guard_facts(
    acc: Seq<Seq<char>>,
    state: Seq<char>,
    t: Seq<char>,
    guards: Seq<JsonView>,
) -> Seq<Seq<char>>
    decreases guards.len(),
{
    if guards.len() == 0 {
        acc
    } else {
        let before = guard_facts(acc, state, t, guards.drop_last());
        match guards.last().get_str("kind"@) {
            Some(k) => add_text(before, place_fact("guard:"@, state, t, k)),
            None => before,
        }
    }
}

/// The facts about a transition: where it leads, its executor, and its guards.
pub open spec fn transition_facts(
    acc: Seq<Seq<char>>,
    state: Seq<char>,
    name: Seq<char>,
    t: JsonView,
) -> Seq<Seq<char>> {
    let one = match t.get_str("target"@) {
        Some(to) => add_text(acc, "edge:"@ + state + "-"@ + name + "->"@ + to),
        None => acc,
    };
    let two = match t.get("executor"@) {
        Some(e) => executor_facts(one, state, name, e),
        None => one,
    };
    match t.get_array("guards"@) {
        Some(guards) => guard_facts(two, state, name, guards),
        None => two,
    }
}

pub open spec fn transitions_facts(acc: Seq<Seq<char>>, state: Seq<char>, ts: Members) -> Seq<
    Seq<char>,
>
    decreases ts.len(),
{
    if ts.len() == 0 {
        acc
    } else {
        transition_facts(
            transitions_facts(acc, state, ts.drop_last()),
            state,
            ts.last().0,
            ts.last().1,
        )
    }
}

/// The facts about a state: its name, whether it is an end, and its transitions.
pub open spec fn state_facts(acc: Seq<Seq<char>>, e: (Seq<char>, JsonView)) -> Seq<Seq<char>> {
    let one = add_text(acc, "state:"@ + e.0);
    let two = if e.1.get_bool("terminal"@) == Some(true) {
        add_text(one, "terminal:"@ + e.0)
    } else {
        one
    };
    match e.1.get_object("transitions"@) {
        Some(ts) => transitions_facts(two, e.0, ts),
        None => two,
    }
}

pub open spec fn states_facts(acc: Seq<Seq<char>>, states: Members) -> Seq<Seq<char>>
    decreases states.len(),
{
    if states.len() == 0 {
        acc
    } else {
        state_facts(states_facts(acc, states.drop_last()), states.last())
    }
}

/// The facts about a flow's machine, in order and each only once.
pub open spec fn feature_list(definition: JsonView) -> Seq<Seq<char>> {
    let start = with_named(Seq::empty(), "initial:"@, definition.get_str("initialState"@));
    match definition.get_object("states"@) {
        Some(states) => states_facts(start, states),
        None => start,
    }
}

fn note_place(out: &mut Vec<String>, kind: &str, state: &str, t: &str, what: &str)
    ensures
        texts(final(out)@) == add_text(texts(old(out)@), place_fact(kind@, state@, t@, what@)),
{
    let mut s = kind.to_owned();
    s.append(state);
    s.append(".");
    s.append(t);
    s.append(":");
    s.append(what);
    add_string(out, s);
}

fn note_named(out: &mut Vec<String>, kind: &str, name: Option<&str>)
    ensures
        texts(final(out)@) == with_named(texts(old(out)@), kind@, crate::json::opt_text(name)),
{
    if let Some(n) = name {
        let mut s = kind.to_owned();
        s.append(n);
        add_string(out, s);
    }
}

fn note_executor(out: &mut Vec<String>, state: &str, t: &str, e: &Json)
    ensures
        texts(final(out)@) == executor_facts(texts(old(out)@), state@, t@, e@),
{
    if let Some(k) = e.get_str("kind") {
        note_place(out, "exec:", state, t, k);
    }
    note_named(out, "composes:", e.get_str("definitionId"));
    note_named(out, "composes:", e.get_str("capability"));
    note_named(out, "composes:", e.get_str("subject"));
    note_named(out, "composes:", e.get_str("connection"));
}

fn note_guards(out: &mut Vec<String>, state: &str, t: &str, guards: &Vec<Json>)
    ensures
        texts(final(out)@) == guard_facts(texts(old(out)@), state@, t@, views(guards@)),
{
    let ghost acc = texts(out@);
    let ghost gs = views(guards@);
    let mut i: usize = 0;
    assert(gs.take(0) =~= Seq::empty());
    while i < guards.len()
        invariant
            i <= guards@.len(),
            gs == views(guards@),
            texts(out@) == guard_facts(acc, state@, t@, gs.take(i as int)),
        decreases guards@.len() - i,
    {
        let ghost next = gs.take(i + 1);
        assert(next.drop_last() =~= gs.take(i as int));
        assert(next.last() == guards@[i as int]@);
        if let Some(k) = guards[i].get_str("kind") {
            note_place(out, "guard:", state, t, k);
        }
        i = i + 1;
    }
    assert(gs.take(i as int) =~= gs);
}

fn note_transition(out: &mut Vec<String>, state: &str, name: &str, t: &Json)
    ensures
        texts(final(out)@) == transition_facts(texts(old(out)@), state@, name@, t@),
{
    if let Some(to) = t.get_str("target") {
        let mut s = "edge:".to_owned();
        s.append(state);
        s.append("-");
        s.append(name);
        s.append("->");
        s.append(to);
        add_string(out, s);
    }
    if let Some(e) = t.get("executor") {
        note_executor(out, state, name, e);
    }
    if let Some(guards) = t.get_array("guards") {
        note_guards(out, state, name, guards);
    }
}

fn note_state(out: &mut Vec<String>, name: &str, s: &Json)
    ensures
        texts(final(out)@) == state_facts(texts(old(out)@), (name@, s@)),
{
    note_named(out, "state:", Some(name));
    let at_end = match s.get_bool("terminal") {
        Some(b) => b,
        None => false,
    };
    if at_end {
        note_named(out, "terminal:", Some(name));
    }
    if let Some(ts) = s.get_object("transitions") {
        let ghost acc = texts(out@);
        let mut i: usize = 0;
        assert(ts@.take(0) =~= Seq::empty());
        while i < ts.len()
            invariant
                i <= ts@.len(),
                texts(out@) == transitions_facts(acc, name@, ts@.take(i as int)),
            decreases ts@.len() - i,
        {
            let ghost next = ts@.take(i + 1);
            assert(next.drop_last() =~= ts@.take(i as int));
            assert(next.last() == ts@[i as int]);
            note_transition(out, name, ts.key_at(i).as_str(), ts.value_at(i));
            i = i + 1;
        }
        assert(ts@.take(i as int) =~= ts@);
    }
}

/// The facts about a flow's machine, each as a readable text.
pub fn features(definition: &Json) -> (r: Vec<String>)
    ensures
        texts(r@) == feature_list(definition@),
{
    let mut out: Vec<String> = Vec::new();
    assert(texts(out@) =~= Seq::empty());
    note_named(&mut out, "initial:", definition.get_str("initialState"));
    if let Some(states) = definition.get_object("states") {
        let ghost acc = texts(out@);
        let mut i: usize = 0;
        assert(states@.take(0) =~= Seq::empty());
        while i < states.len()
            invariant
                i <= states@.len(),
                texts(out@) == states_facts(acc, states@.take(i as int)),
            decreases states@.len() - i,
        {
            let ghost next = states@.take(i + 1);
            assert(next.drop_last() =~= states@.take(i as int));
            assert(next.last() == states@[i as int]);
            assert(states@[i as int] == (states@[i as int].0, states@[i as int].1));
            note_state(&mut out, states.key_at(i).as_str(), states.value_at(i));
            i = i + 1;
        }
        assert(states@.take(i as int) =~= states@);
    }
    out
}

proof fn lemma_guard_facts(
    acc: Seq<Seq<char>>,
    state: Seq<char>,
    t: Seq<char>,
    guards: Seq<JsonView>,
)
    requires
        is_set(acc),
    ensures
        is_set(guard_facts(acc, state, t, guards)),
    decreases guards.len(),
{
    if guards.len() > 0 {
        lemma_guard_facts(acc, state, t, guards.drop_last());
        if let Some(k) = guards.last().get_str("kind"@) {
            law_added_texts_form_a_set(
                guard_facts(acc, state, t, guards.drop_last()),
                place_fact("guard:"@, state, t, k),
            );
        }
    }
}

proof fn lemma_with_named(acc: Seq<Seq<char>>, kind: Seq<char>, name: Option<Seq<char>>)
    requires
        is_set(acc),
    ensures
        is_set(with_named(acc, kind, name)),
{
    if let Some(n) = name {
        law_added_texts_form_a_set(acc, kind + n);
    }
}

proof fn lemma_transition_facts(
    acc: Seq<Seq<char>>,
    state: Seq<char>,
    name: Seq<char>,
    t: JsonView,
)
    requires
        is_set(acc),
    ensures
        is_set(transition_facts(acc, state, name, t)),
{
    assert forall|s: Seq<Seq<char>>, x: Seq<char>| is_set(s) implies is_set(
        #[trigger] add_text(s, x),
    ) by {
        law_added_texts_form_a_set(s, x);
    }
    assert forall|s: Seq<Seq<char>>, kind: Seq<char>, n: Option<Seq<char>>|
        is_set(s) implies is_set(#[trigger] with_named(s, kind, n)) by {
        lemma_with_named(s, kind, n);
    }
    assert forall|s: Seq<Seq<char>>, guards: Seq<JsonView>| is_set(s) implies is_set(
        #[trigger] guard_facts(s, state, name, guards),
    ) by {
        lemma_guard_facts(s, state, name, guards);
    }
}

proof fn lemma_transitions_facts(acc: Seq<Seq<char>>, state: Seq<char>, ts: Members)
    requires
        is_set(acc),
    ensures
        is_set(transitions_facts(acc, state, ts)),
    decreases ts.len(),
{
    if ts.len() > 0 {
        lemma_transitions_facts(acc, state, ts.drop_last());
        lemma_transition_facts(
            transitions_facts(acc, state, ts.drop_last()),
            state,
            ts.last().0,
            ts.last().1,
        );
    }
}

proof fn lemma_states_facts(acc: Seq<Seq<char>>, states: Members)
    requires
        is_set(acc),
    ensures
        is_set(states_facts(acc, states)),
    decreases states.len(),
{
    if states.len() > 0 {
        let before = states_facts(acc, states.drop_last());
        let e = states.last();
        lemma_states_facts(acc, states.drop_last());
        law_added_texts_form_a_set(before, "state:"@ + e.0);
        let one = add_text(before, "state:"@ + e.0);
        law_added_texts_form_a_set(one, "terminal:"@ + e.0);
        let two = if e.1.get_bool("terminal"@) == Some(true) {
            add_text(one, "terminal:"@ + e.0)
        } else {
            one
        };
        if let Some(ts) = e.1.get_object("transitions"@) {
            lemma_transitions_facts(two, e.0, ts);
        }
    }
}

/// The facts about a flow form a set: they are in order, and none is there twice.
pub proof fn law_facts_form_a_set(definition: JsonView)
    ensures
        is_set(feature_list(definition)),
{
    let start = with_named(Seq::empty(), "initial:"@, definition.get_str("initialState"@));
    lemma_with_named(Seq::empty(), "initial:"@, definition.get_str("initialState"@));
    if let Some(states) = definition.get_object("states"@) {
        lemma_states_facts(start, states);
    }
}

/// The facts of a set that are among others are counted as the intersection of the two.
pub proof fn law_shared_facts_are_the_intersection(a: Seq<Seq<char>>, b: Seq<Seq<char>>)
    requires
        is_set(a),
    ensures
        shared(a, b) == a.to_set().intersect(b.to_set()).len(),
    decreases a.len(),
{
    if a.len() == 0 {
        assert(a.to_set().intersect(b.to_set()) =~= Set::empty());
    } else {
        let init = a.drop_last();
        let x = a.last();
        law_shared_facts_are_the_intersection(init, b);
        assert forall|y: Seq<char>| a.contains(y) <==> init.contains(y) || y == x by {
            if a.contains(y) {
                let i = a.index_of(y);
                if i < init.len() {
                    assert(init[i] == y);
                }
            }
            if init.contains(y) {
                let i = init.index_of(y);
                assert(a[i] == y);
            }
            assert(a[a.len() - 1] == x);
        }
        assert(!init.contains(x)) by {
            if init.contains(x) {
                let i = init.index_of(x);
                assert(text_lt(a[i], a[a.len() - 1]));
                lemma_lt_irreflexive(x);
            }
        }
        vstd::seq_lib::seq_to_set_is_finite(init);
        if b.contains(x) {
            assert(a.to_set().intersect(b.to_set()) =~= init.to_set().intersect(
                b.to_set(),
            ).insert(x));
        } else {
            assert(a.to_set().intersect(b.to_set()) =~= init.to_set().intersect(b.to_set()));
        }
    }
}

/// How many of the facts both have.
pub open spec fn shared(a: Seq<Seq<char>>, b: Seq<Seq<char>>) -> nat
    decreases a.len(),
{
    if a.len() == 0 {
        0
    } else if b.contains(a.last()) {
        shared(a.drop_last(), b) + 1
    } else {
        shared(a.drop_last(), b)
    }
}

/// Where every fact of a flow is among those of another, all are shared: a flow shares all its
/// facts with itself.
pub proof fn law_contained_facts_are_shared(a: Seq<Seq<char>>, b: Seq<Seq<char>>)
    requires
        forall|i: int| 0 <= i < a.len() ==> b.contains(#[trigger] a[i]),
    ensures
        shared(a, b) == a.len(),
    decreases a.len(),
{
    if a.len() > 0 {
        assert(b.contains(a[a.len() - 1]));
        assert forall|i: int| 0 <= i < a.len() - 1 implies b.contains(
            #[trigger] a.drop_last()[i],
        ) by {
            assert(b.contains(a[i]));
        }
        law_contained_facts_are_shared(a.drop_last(), b);
    }
}

/// Counts the facts that both flows have.
pub fn shared_features(a: &Vec<String>, b: &Vec<String>) -> (r: usize)
    ensures
        r == shared(texts(a@), texts(b@)),
        r <= a@.len(),
{
    let ghost s = texts(a@);
    let mut n: usize = 0;
    let mut i: usize = 0;
    assert(s.take(0) =~= Seq::empty());
    while i < a.len()
        invariant
            i <= a@.len(),
            n <= i,
            s == texts(a@),
            n == shared(s.take(i as int), texts(b@)),
        decreases a@.len() - i,
    {
        let ghost next = s.take(i + 1);
        assert(next.drop_last() =~= s.take(i as int));
        assert(next.last() == a@[i as int]@);
        if crate::text::holds(b, a[i].as_str()) {
            n = n + 1;
        }
        i = i + 1;
    }
    assert(s.take(i as int) =~= s);
    n
}

/// What machine a flow of a catalog is.
pub struct FlowFingerprint {
    pub id: String,
    pub fingerprint: String,
    pub features: Vec<String>,
}

/// The model of what machine a flow is.
pub struct FlowView {
    pub id: Seq<char>,
    pub fingerprint: Seq<char>,
    pub features: Seq<Seq<char>>,
}

/// What machine a definition is.
pub open spec fn flow_of(id: Seq<char>, definition: JsonView) -> FlowView {
    FlowView {
        id,
        fingerprint: fingerprint_of(definition),
        features: feature_list(definition),
    }
}

impl FlowFingerprint {
    pub open spec fn view(&self) -> FlowView {
        FlowView {
            id: self.id@,
            fingerprint: self.fingerprint@,
            features: texts(self.features@),
        }
    }

    /// Works out what machine a definition is.
    pub fn compute(id: &str, definition: &Json) -> (r: FlowFingerprint)
        ensures
            r@ == flow_of(id@, definition@),
    {
        FlowFingerprint {
            id: id.to_owned(),
            fingerprint: fingerprint(definition),
            features: features(definition),
        }
    }
}

pub open spec fn flow_views(s: Seq<FlowFingerprint>) -> Seq<FlowView> {
    s.map_values(|f: FlowFingerprint| f@)
}

/// Works out what machine each flow of a catalog is, in the order of their ids.
pub fn fingerprint_catalog(workflows: &JsonMap) -> (r: Vec<FlowFingerprint>)
    ensures
        flow_views(r@) == workflows@.map_values(|e: (Seq<char>, JsonView)| flow_of(e.0, e.1)),
{
    let mut out: Vec<FlowFingerprint> = Vec::new();
    let mut i: usize = 0;
    while i < workflows.len()
        invariant
            i <= workflows@.len(),
            i == out@.len(),
            forall|k: int|
                0 <= k < i ==> (#[trigger] out@[k])@ == flow_of(
                    workflows@[k].0,
                    workflows@[k].1,
                ),
        decreases workflows@.len() - i,
    {
        out.push(
            FlowFingerprint::compute(workflows.key_at(i).as_str(), workflows.value_at(i)),
        );
        i = i + 1;
    }
    assert(flow_views(out@) =~= workflows@.map_values(
        |e: (Seq<char>, JsonView)| flow_of(e.0, e.1),
    ));
    out
}

/// The ids of the flows with a fingerprint, in the order of the catalog.
pub open spec fn bearers(catalog: Seq<FlowView>, fingerprint: Seq<char>) -> Seq<Seq<char>>
    decreases catalog.len(),
{
    if catalog.len() == 0 {
        Seq::empty()
    } else {
        let before = bearers(catalog.drop_last(), fingerprint);
        if catalog.last().fingerprint == fingerprint {
            before.push(catalog.last().id)
        } else {
            before
        }
    }
}

/// Whether the flow at place `n` is the first with its fingerprint.
pub open spec fn first_bearer(catalog: Seq<FlowView>, n: int) -> bool {
    forall|j: int|
        0 <= j < n ==> (#[trigger] catalog[j]).fingerprint != catalog[n].fingerprint
}

/// The groups of flows that are the same machine, of those fingerprints that first occur
/// among the first `n` flows: each group in order, and the groups in order.
pub open spec fn groups_upto(catalog: Seq<FlowView>, n: int) -> Seq<Seq<Seq<char>>>
    decreases n,
{
    if n <= 0 {
        Seq::empty()
    } else {
        let before = groups_upto(catalog, n - 1);
        let ids = bearers(catalog, catalog[n - 1].fingerprint);
        if first_bearer(catalog, n - 1) && ids.len() > 1 {
            insert_list(before, sort_texts(ids))
        } else {
            before
        }
    }
}

fn list_bearers(catalog: &Vec<FlowFingerprint>, fingerprint: &str) -> (r: Vec<String>)
    ensures
        texts(r@) == bearers(flow_views(catalog@), fingerprint@),
{
    let ghost c = flow_views(catalog@);
    let mut out: Vec<String> = Vec::new();
    let mut i: usize = 0;
    assert(c.take(0) =~= Seq::empty());
    assert(texts(out@) =~= Seq::empty());
    while i < catalog.len()
        invariant
            i <= catalog@.len(),
            c == flow_views(catalog@),
            texts(out@) == bearers(c.take(i as int), fingerprint@),
        decreases catalog@.len() - i,
    {
        let ghost next = c.take(i + 1);
        assert(next.drop_last() =~= c.take(i as int));
        assert(next.last() == catalog@[i as int]@);
        if same(catalog[i].fingerprint.as_str(), fingerprint) {
            let ghost before = out@;
            let id = catalog[i].id.clone();
            out.push(id);
            assert(texts(out@) =~= texts(before).push(id@));
        }
        i = i + 1;
    }
    assert(c.take(i as int) =~= c);
    out
}

fn is_first_bearer(catalog: &Vec<FlowFingerprint>, n: usize) -> (r: bool)
    requires
        n < catalog@.len(),
    ensures
        r == first_bearer(flow_views(catalog@), n as int),
{
    let ghost c = flow_views(catalog@);
    let mut j: usize = 0;
    while j < n
        invariant
            j <= n < catalog@.len(),
            c == flow_views(catalog@),
            forall|k: int| 0 <= k < j ==> (#[trigger] c[k]).fingerprint != c[n as int].fingerprint,
        decreases n - j,
    {
        assert(c[j as int] == catalog@[j as int]@);
        assert(c[n as int] == catalog@[n as int]@);
        if same(catalog[j].fingerprint.as_str(), catalog[n].fingerprint.as_str()) {
            return false;
        }
        j = j + 1;
    }
    true
}

/// Finds the groups of two or more flows that are the same machine.
pub fn exact_duplicate_groups(catalog: &Vec<FlowFingerprint>) -> (r: Vec<Vec<String>>)
    ensures
        lists(r@) == groups_upto(flow_views(catalog@), catalog@.len() as int),
{
    let ghost c = flow_views(catalog@);
    let mut out: Vec<Vec<String>> = Vec::new();
    let mut i: usize = 0;
    assert(lists(out@) =~= Seq::empty());
    while i < catalog.len()
        invariant
            i <= catalog@.len(),
            c == flow_views(catalog@),
            lists(out@) == groups_upto(c, i as int),
        decreases catalog@.len() - i,
    {
        assert(c[i as int] == catalog@[i as int]@);
        let ids = list_bearers(catalog, catalog[i].fingerprint.as_str());
        assert(texts(ids@).len() == ids@.len());
        if is_first_bearer(catalog, i) && ids.len() > 1 {
            add_list(&mut out, sort_strings(&ids));
        }
        i = i + 1;
    }
    out
}

pub proof fn lemma_insert_list(s: Seq<Seq<Seq<char>>>, x: Seq<Seq<char>>, y: Seq<Seq<char>>)
    ensures
        insert_list(s, x).contains(y) <==> (y == x || s.contains(y)),
    decreases s.len(),
{
    if s.len() > 0 && list_lt(x, s.last()) {
        let init = s.drop_last();
        lemma_insert_list(init, x, y);
        lemma_push_contains(insert_list(init, x), s.last(), y);
        lemma_push_contains(init, s.last(), y);
        assert(init.push(s.last()) =~= s);
    } else {
        lemma_push_contains(s, x, y);
    }
}

pub proof fn lemma_push_contains<A>(s: Seq<A>, x: A, y: A)
    ensures
        s.push(x).contains(y) <==> (y == x || s.contains(y)),
{
    if s.contains(y) {
        let k = choose|k: int| 0 <= k < s.len() && s[k] == y;
        assert(s.push(x)[k] == y);
    }
    assert(s.push(x)[s.len() as int] == x);
}

pub proof fn lemma_bearers(catalog: Seq<FlowView>, fingerprint: Seq<char>, i: int)
    requires
        0 <= i < catalog.len(),
        catalog[i].fingerprint == fingerprint,
    ensures
        bearers(catalog, fingerprint).contains(catalog[i].id),
    decreases catalog.len(),
{
    let init = catalog.drop_last();
    let before = bearers(init, fingerprint);
    if i < init.len() {
        assert(init[i] == catalog[i]);
        lemma_bearers(init, fingerprint, i);
    }
    lemma_push_contains(before, catalog.last().id, catalog[i].id);
}

pub proof fn lemma_two_bearers(catalog: Seq<FlowView>, fingerprint: Seq<char>, i: int, j: int)
    requires
        0 <= i < j < catalog.len(),
        catalog[i].fingerprint == fingerprint,
        catalog[j].fingerprint == fingerprint,
    ensures
        bearers(catalog, fingerprint).len() > 1,
    decreases catalog.len(),
{
    let init = catalog.drop_last();
    if j < init.len() {
        assert(init[i] == catalog[i]);
        assert(init[j] == catalog[j]);
        lemma_two_bearers(init, fingerprint, i, j);
    } else {
        assert(init[i] == catalog[i]);
        lemma_bearers(init, fingerprint, i);
    }
}

/// The first flow that has the fingerprint of the `i`th.
pub proof fn lemma_first_bearer(catalog: Seq<FlowView>, i: int) -> (m: int)
    requires
        0 <= i < catalog.len(),
    ensures
        0 <= m <= i,
        catalog[m].fingerprint == catalog[i].fingerprint,
        first_bearer(catalog, m),
    decreases i,
{
    if first_bearer(catalog, i) {
        i
    } else {
        let j = choose|j: int|
            0 <= j < i && (#[trigger] catalog[j]).fingerprint == catalog[i].fingerprint;
        lemma_first_bearer(catalog, j)
    }
}

pub proof fn lemma_group_made(catalog: Seq<FlowView>, m: int, n: int)
    requires
        0 <= m < n,
        first_bearer(catalog, m),
        bearers(catalog, catalog[m].fingerprint).len() > 1,
    ensures
        groups_upto(catalog, n).contains(sort_texts(bearers(catalog, catalog[m].fingerprint))),
    decreases n,
{
    let group = sort_texts(bearers(catalog, catalog[m].fingerprint));
    let before = groups_upto(catalog, n - 1);
    let ids = bearers(catalog, catalog[n - 1].fingerprint);
    if m < n - 1 {
        lemma_group_made(catalog, m, n - 1);
    }
    lemma_insert_list(before, sort_texts(ids), group);
}

/// Flows that are the same machine are reported together, however far apart they stand.
pub proof fn law_duplicates_are_grouped(catalog: Seq<FlowView>, i: int, j: int)
    requires
        0 <= i < j < catalog.len(),
        catalog[i].fingerprint == catalog[j].fingerprint,
    ensures
        exists|g: Seq<Seq<char>>| #[trigger]
            groups_upto(catalog, catalog.len() as int).contains(g) && g.contains(catalog[i].id)
                && g.contains(catalog[j].id),
{
    broadcast use vstd::seq_lib::group_to_multiset_ensures;

    let m = lemma_first_bearer(catalog, i);
    let f = catalog[i].fingerprint;
    let ids = bearers(catalog, f);
    lemma_bearers(catalog, f, i);
    lemma_bearers(catalog, f, j);
    lemma_two_bearers(catalog, f, i, j);
    lemma_group_made(catalog, m, catalog.len() as int);
    law_sorted_texts(ids);
    let g = sort_texts(ids);
    assert(g.to_multiset().count(catalog[i].id) > 0);
    assert(g.to_multiset().count(catalog[j].id) > 0);
    assert(g.contains(catalog[i].id));
    assert(g.contains(catalog[j].id));
}

/// Whether a list holds the ids of all flows with a fingerprint, in order.
pub open spec fn is_group(catalog: Seq<FlowView>, g: Seq<Seq<char>>, fingerprint: Seq<char>) -> bool {
    &&& g.to_multiset() == bearers(catalog, fingerprint).to_multiset()
    &&& in_order(g)
}

/// Every group that is reported holds all flows of one machine and no others, at least two of
/// them, in order.
pub proof fn law_groups_are_duplicates(catalog: Seq<FlowView>, n: int, g: Seq<Seq<char>>)
    requires
        groups_upto(catalog, n).contains(g),
    ensures
        g.len() > 1,
        exists|fingerprint: Seq<char>| #[trigger] is_group(catalog, g, fingerprint),
    decreases n,
{
    if n > 0 {
        let before = groups_upto(catalog, n - 1);
        let f = catalog[n - 1].fingerprint;
        let ids = bearers(catalog, f);
        lemma_insert_list(before, sort_texts(ids), g);
        if before.contains(g) {
            law_groups_are_duplicates(catalog, n - 1, g);
        } else {
            law_sorted_texts(ids);
            assert(is_group(catalog, g, f));
        }
    }
}

/// How much of their machines two flows share: the facts that both have, and those that only
/// one of them has.
pub struct Overlap {
    pub a: String,
    pub b: String,
    pub shared: usize,
    pub only_a: usize,
    pub only_b: usize,
}

/// The model of an overlap.
pub struct OverlapView {
    pub a: Seq<char>,
    pub b: Seq<char>,
    pub shared: nat,
    pub only_a: nat,
    pub only_b: nat,
}

impl Overlap {
    pub open spec fn view(&self) -> OverlapView {
        OverlapView {
            a: self.a@,
            b: self.b@,
            shared: self.shared as nat,
            only_a: self.only_a as nat,
            only_b: self.only_b as nat,
        }
    }
}

pub open spec fn overlap_views(s: Seq<Overlap>) -> Seq<OverlapView> {
    s.map_values(|o: Overlap| o@)
}

/// The overlap of two flows, the one with the lesser id first.
pub open spec fn overlap_of(x: FlowView, y: FlowView) -> OverlapView {
    let (a, b) = if text_lt(y.id, x.id) {
        (y, x)
    } else {
        (x, y)
    };
    OverlapView {
        a: a.id,
        b: b.id,
        shared: shared(a.features, b.features),
        only_a: (a.features.len() - shared(a.features, b.features)) as nat,
        only_b: (b.features.len() - shared(b.features, a.features)) as nat,
    }
}

/// The overlaps of the `i`th flow with those behind it up to the `n`th, unless they are the
/// same machine.
pub open spec fn overlaps_of(catalog: Seq<FlowView>, i: int, n: int) -> Seq<OverlapView>
    decreases n - i,
{
    if n <= i + 1 {
        Seq::empty()
    } else {
        let before = overlaps_of(catalog, i, n - 1);
        if catalog[i].fingerprint == catalog[n - 1].fingerprint {
            before
        } else {
            before.push(overlap_of(catalog[i], catalog[n - 1]))
        }
    }
}

/// The overlaps of the first `n` flows with all behind them.
pub open spec fn overlaps_upto(catalog: Seq<FlowView>, n: int) -> Seq<OverlapView>
    decreases n,
{
    if n <= 0 {
        Seq::empty()
    } else {
        overlaps_upto(catalog, n - 1) + overlaps_of(catalog, n - 1, catalog.len() as int)
    }
}

fn compare(x: &FlowFingerprint, y: &FlowFingerprint) -> (r: Overlap)
    ensures
        r@ == overlap_of(x@, y@),
{
    let swapped = lt(y.id.as_str(), x.id.as_str());
    let a = if swapped {
        y
    } else {
        x
    };
    let b = if swapped {
        x
    } else {
        y
    };
    assert(texts(a.features@).len() == a.features@.len());
    assert(texts(b.features@).len() == b.features@.len());
    let both: usize = shared_features(&a.features, &b.features);
    let back: usize = shared_features(&b.features, &a.features);
    Overlap {
        a: a.id.clone(),
        b: b.id.clone(),
        shared: both,
        only_a: a.features.len() - both,
        only_b: b.features.len() - back,
    }
}

/// Compares every flow of a catalog with every other that is another machine.
pub fn overlaps(catalog: &Vec<FlowFingerprint>) -> (r: Vec<Overlap>)
    ensures
        overlap_views(r@) == overlaps_upto(flow_views(catalog@), catalog@.len() as int),
{
    let ghost c = flow_views(catalog@);
    let mut out: Vec<Overlap> = Vec::new();
    let mut i: usize = 0;
    assert(overlap_views(out@) =~= Seq::empty());
    while i < catalog.len()
        invariant
            i <= catalog@.len(),
            c == flow_views(catalog@),
            overlap_views(out@) == overlaps_upto(c, i as int),
        decreases catalog@.len() - i,
    {
        let mut j: usize = i + 1;
        let ghost start = overlap_views(out@);
        assert(start + overlaps_of(c, i as int, j as int) =~= start);
        while j < catalog.len()
            invariant
                i < j <= catalog@.len(),
                c == flow_views(catalog@),
                overlap_views(out@) == start + overlaps_of(c, i as int, j as int),
            decreases catalog@.len() - j,
        {
            assert(c[i as int] == catalog@[i as int]@);
            assert(c[j as int] == catalog@[j as int]@);
            if !same(catalog[i].fingerprint.as_str(), catalog[j].fingerprint.as_str()) {
                let ghost before = out@;
                let o = compare(&catalog[i], &catalog[j]);
                out.push(o);
                assert(overlap_views(out@) =~= overlap_views(before).push(o@));
                assert(overlap_views(out@) =~= start + overlaps_of(c, i as int, j + 1));
            }
            j = j + 1;
        }
        i = i + 1;
    }
    out
}

} // verus!
