//! What moves the fingerprint of a flow, and what does not.

use vstd::prelude::*;

use crate::json::{
    dropped, lemma_dropped_put, lemma_dropped_sorted, lemma_lookup_last, lemma_lookup_push,
    lemma_lookup_some,
    lemma_place, lemma_put_at, lemma_put_lookup, lookup, obj, put, sorted, JsonView, Members,
};
use crate::json_text::{compact, compact_items, compact_members};
use crate::runtime::context::with_member;
use crate::sorting::{forms, law_sort_forgets_order, lemma_sort_forms, sort_values};
use crate::structural_fingerprint::{
    executor_form, executor_forms, fingerprint_of, guard_form, guard_forms, machine, prose,
    state_form, state_forms, transition_form, transition_forms,
};
use crate::text::{lemma_lt_asymmetric, lemma_lt_irreflexive, text_lt};

verus! {

/// The states of a flow.
pub open spec fn states_in(d: JsonView) -> Members {
    match d.get_object("states"@) {
        Some(states) => states,
        None => Seq::empty(),
    }
}

/// A flow with one of its states replaced.
pub open spec fn with_state(d: JsonView, s: Seq<char>, v: JsonView) -> JsonView {
    with_member(d, "states"@, JsonView::Object(put(states_in(d), s, v)))
}

/// Whether a flow has a state.
pub open spec fn has_state(d: JsonView, s: Seq<char>, state: JsonView) -> bool {
    &&& d.get_object("states"@) is Some
    &&& sorted(states_in(d))
    &&& lookup(states_in(d), s) == Some(state)
}

/// The transitions of a state.
pub open spec fn transitions_in(state: JsonView) -> Members {
    match state.get_object("transitions"@) {
        Some(ts) => ts,
        None => Seq::empty(),
    }
}

/// A flow with one of its transitions replaced.
pub open spec fn with_transition(
    d: JsonView,
    s: Seq<char>,
    state: JsonView,
    t: Seq<char>,
    v: JsonView,
) -> JsonView {
    with_state(
        d,
        s,
        with_member(state, "transitions"@, JsonView::Object(put(transitions_in(state), t, v))),
    )
}

/// Whether a flow has a transition in a state.
pub open spec fn has_transition(
    d: JsonView,
    s: Seq<char>,
    state: JsonView,
    t: Seq<char>,
    transition: JsonView,
) -> bool {
    &&& has_state(d, s, state)
    &&& state matches JsonView::Object(m) && sorted(m)
    &&& state.get_object("transitions"@) is Some
    &&& sorted(transitions_in(state))
    &&& lookup(transitions_in(state), t) == Some(transition)
}

/// Members with the same keys, whose values read the same.
spec fn alike(a: Members, b: Members) -> bool {
    &&& a.len() == b.len()
    &&& forall|i: int|
        0 <= i < a.len() ==> (#[trigger] a[i]).0 == b[i].0 && compact(a[i].1) == compact(b[i].1)
}

proof fn lemma_alike_reads(a: Members, b: Members)
    requires
        alike(a, b),
    ensures
        compact_members(a) == compact_members(b),
        compact(JsonView::Object(a)) == compact(JsonView::Object(b)),
    decreases a.len(),
{
    if a.len() > 0 {
        let n = a.len() - 1;
        assert(a[n].0 == b[n].0 && compact(a[n].1) == compact(b[n].1));
        assert(a[0].0 == b[0].0);
        assert forall|i: int| 0 <= i < n implies (#[trigger] a.drop_last()[i]).0
            == b.drop_last()[i].0 && compact(a.drop_last()[i].1) == compact(b.drop_last()[i].1) by {
            assert(a[i].0 == b[i].0);
        }
        lemma_alike_reads(a.drop_last(), b.drop_last());
    }
}

proof fn lemma_alike_put(a: Members, b: Members, k: Seq<char>, v: JsonView, w: JsonView)
    requires
        alike(a, b),
        compact(v) == compact(w),
    ensures
        alike(put(a, k, v), put(b, k, w)),
    decreases a.len(),
{
    if a.len() > 0 {
        assert(a[0].0 == b[0].0);
        assert forall|i: int| 0 <= i < a.len() - 1 implies (#[trigger] a.drop_first()[i]).0
            == b.drop_first()[i].0 && compact(a.drop_first()[i].1) == compact(b.drop_first()[i].1) by {
            assert(a[i + 1].0 == b[i + 1].0);
        }
        if a[0].0 != k && !text_lt(k, a[0].0) {
            lemma_alike_put(a.drop_first(), b.drop_first(), k, v, w);
        }
        let x = put(a, k, v);
        let y = put(b, k, w);
        assert(x.len() == y.len());
        assert forall|i: int| 0 <= i < x.len() implies (#[trigger] x[i]).0 == y[i].0 && compact(
            x[i].1,
        ) == compact(y[i].1) by {
            if i > 0 {
                if a[0].0 == k {
                    assert(x[i] == a[i] && y[i] == b[i]);
                } else if text_lt(k, a[0].0) {
                    assert(x[i] == a[i - 1] && y[i] == b[i - 1]);
                } else {
                    let p = put(a.drop_first(), k, v);
                    let q = put(b.drop_first(), k, w);
                    assert(x[i] == p[i - 1] && y[i] == q[i - 1]);
                    assert(p[i - 1].0 == q[i - 1].0);
                }
            } else {
                assert(a[0].0 == b[0].0);
            }
        }
    }
}

/// What a write over a key changes: the value there, and nothing else.
proof fn lemma_put_over(m: Members, k: Seq<char>, v: JsonView)
    requires
        sorted(m),
        lookup(m, k) is Some,
    ensures
        put(m, k, v).len() == m.len(),
        forall|i: int|
            0 <= i < m.len() ==> (#[trigger] put(m, k, v)[i]).0 == m[i].0 && if m[i].0 == k {
                put(m, k, v)[i].1 == v && lookup(m, k) == Some(m[i].1)
            } else {
                put(m, k, v)[i].1 == m[i].1
            },
{
    let i = lemma_lookup_some(m, k);
    assert forall|j: int| 0 <= j < i implies text_lt((#[trigger] m[j]).0, k) by {}
    lemma_put_at(m, k, v, i);
    assert forall|j: int| 0 <= j < m.len() && j != i implies (#[trigger] m[j]).0 != k by {
        lemma_lt_irreflexive(k);
        if j < i {
            assert(text_lt(m[j].0, m[i].0));
        } else {
            assert(text_lt(m[i].0, m[j].0));
        }
    }
}

/// Two writes to one key: only the last counts, where all else is the same.
proof fn lemma_put_same(a: Members, b: Members, k: Seq<char>, v: JsonView)
    requires
        sorted(a),
        a.len() == b.len(),
        forall|i: int|
            0 <= i < a.len() ==> (#[trigger] a[i]).0 == b[i].0 && (a[i].0 != k ==> a[i].1 == b[i].1),
    ensures
        put(a, k, v) == put(b, k, v),
    decreases a.len(),
{
    if a.len() > 0 {
        let c = a.drop_first();
        let d = b.drop_first();
        assert(a[0].0 == b[0].0);
        assert forall|i: int| 0 <= i < c.len() implies (#[trigger] c[i]).0 == d[i].0 && (c[i].0 != k
            ==> c[i].1 == d[i].1) by {
            assert(a[i + 1].0 == b[i + 1].0);
        }
        assert(sorted(c)) by {
            assert forall|i: int, j: int| 0 <= i < j < c.len() implies text_lt(
                #[trigger] c[i].0,
                #[trigger] c[j].0,
            ) by {
                assert(text_lt(a[i + 1].0, a[j + 1].0));
            }
        }
        if a[0].0 == k {
            assert forall|i: int| 0 <= i < c.len() implies c[i] == d[i] by {
                assert(text_lt(a[0].0, a[i + 1].0));
                lemma_lt_irreflexive(k);
                assert(c[i].0 == d[i].0);
            }
            assert(c =~= d);
        } else if text_lt(k, a[0].0) {
            assert forall|i: int| 0 <= i < a.len() implies a[i] == b[i] by {
                assert(a[i].0 == b[i].0);
                if a[i].0 == k {
                    if i > 0 {
                        assert(text_lt(a[0].0, a[i].0));
                        lemma_lt_asymmetric(k, a[0].0);
                    }
                }
            }
            assert(a =~= b);
        } else {
            assert(a[0] == b[0]);
            lemma_put_same(c, d, k, v);
        }
    }
}

/// Dropping keys keeps what stands under the others.
proof fn lemma_dropped_over(a: Members, b: Members, keys: Seq<Seq<char>>, k: Seq<char>)
    requires
        a.len() == b.len(),
        forall|i: int|
            0 <= i < a.len() ==> (#[trigger] a[i]).0 == b[i].0 && (a[i].0 != k ==> a[i].1 == b[i].1),
    ensures
        dropped(a, keys).len() == dropped(b, keys).len(),
        forall|i: int|
            0 <= i < dropped(a, keys).len() ==> (#[trigger] dropped(a, keys)[i]).0 == dropped(
                b,
                keys,
            )[i].0 && (dropped(a, keys)[i].0 != k ==> dropped(a, keys)[i].1 == dropped(
                b,
                keys,
            )[i].1),
    decreases a.len(),
{
    if a.len() > 0 {
        let n = a.len() - 1;
        assert(a[n].0 == b[n].0);
        assert forall|i: int| 0 <= i < n implies (#[trigger] a.drop_last()[i]).0
            == b.drop_last()[i].0 && (a.drop_last()[i].0 != k ==> a.drop_last()[i].1
            == b.drop_last()[i].1) by {
            assert(a[i].0 == b[i].0);
        }
        lemma_dropped_over(a.drop_last(), b.drop_last(), keys, k);
    }
}

/// Dropping keys and then writing one that stays: what stood there before does not count.
proof fn lemma_dropped_put_over(
    m: Members,
    keys: Seq<Seq<char>>,
    k: Seq<char>,
    x: JsonView,
    y: JsonView,
)
    requires
        sorted(m),
        lookup(m, k) is Some,
    ensures
        put(dropped(put(m, k, x), keys), k, y) == put(dropped(m, keys), k, y),
{
    lemma_put_over(m, k, x);
    let b = put(m, k, x);
    assert forall|i: int| 0 <= i < m.len() implies (#[trigger] m[i]).0 == b[i].0 && (m[i].0 != k
        ==> m[i].1 == b[i].1) by {
        assert(b[i].0 == m[i].0);
    }
    lemma_dropped_over(m, b, keys, k);
    lemma_dropped_sorted(m, keys);
    lemma_put_same(dropped(m, keys), dropped(b, keys), k, y);
}

proof fn lemma_alike_states(a: Members, b: Members)
    requires
        a.len() == b.len(),
        forall|i: int|
            0 <= i < a.len() ==> (#[trigger] a[i]).0 == b[i].0 && compact(state_form(a[i].1))
                == compact(state_form(b[i].1)),
    ensures
        alike(state_forms(a), state_forms(b)),
    decreases a.len(),
{
    if a.len() > 0 {
        let n = a.len() - 1;
        assert(a[n].0 == b[n].0);
        assert forall|i: int| 0 <= i < n implies (#[trigger] a.drop_last()[i]).0
            == b.drop_last()[i].0 && compact(state_form(a.drop_last()[i].1)) == compact(
            state_form(b.drop_last()[i].1),
        ) by {
            assert(a[i].0 == b[i].0);
        }
        lemma_alike_states(a.drop_last(), b.drop_last());
        lemma_alike_put(
            state_forms(a.drop_last()),
            state_forms(b.drop_last()),
            a[n].0,
            state_form(a[n].1),
            state_form(b[n].1),
        );
    }
}

proof fn lemma_alike_transitions(a: Members, b: Members)
    requires
        a.len() == b.len(),
        forall|i: int|
            0 <= i < a.len() ==> (#[trigger] a[i]).0 == b[i].0 && compact(transition_form(a[i].1))
                == compact(transition_form(b[i].1)),
    ensures
        alike(transition_forms(a), transition_forms(b)),
    decreases a.len(),
{
    if a.len() > 0 {
        let n = a.len() - 1;
        assert(a[n].0 == b[n].0);
        assert forall|i: int| 0 <= i < n implies (#[trigger] a.drop_last()[i]).0
            == b.drop_last()[i].0 && compact(transition_form(a.drop_last()[i].1)) == compact(
            transition_form(b.drop_last()[i].1),
        ) by {
            assert(a[i].0 == b[i].0);
        }
        lemma_alike_transitions(a.drop_last(), b.drop_last());
        lemma_alike_put(
            transition_forms(a.drop_last()),
            transition_forms(b.drop_last()),
            a[n].0,
            transition_form(a[n].1),
            transition_form(b[n].1),
        );
    }
}

proof fn lemma_keys_differ()
    ensures
        "states"@ != "initialState"@,
        !prose().contains("transitions"@),
        !prose().contains("guards"@),
        !prose().contains("executor"@),
        !prose().contains("branches"@),
        !prose().contains("states"@),
        !prose().contains("initialState"@),
        "guards"@ != "executor"@,
        forall|k: Seq<char>| #[trigger]
            prose().contains(k) ==> k != "transitions"@ && k != "guards"@ && k != "executor"@ && k
                != "branches"@ && k != "states"@ && k != "initialState"@,
{
    reveal_strlit("states");
    reveal_strlit("initialState");
    reveal_strlit("transitions");
    reveal_strlit("guards");
    reveal_strlit("executor");
    reveal_strlit("branches");
    reveal_strlit("title");
    reveal_strlit("description");
    reveal_strlit("goal");
    reveal_strlit("guidance");
    assert("states"@.len() != "initialState"@.len());
    assert("guards"@.len() != "executor"@.len());
    assert("description"@[0] != "transitions"@[0]);
    assert("guidance"@[0] != "executor"@[0]);
    assert("guidance"@[0] != "branches"@[0]);
    assert forall|k: Seq<char>| #[trigger] prose().contains(k) implies k != "transitions"@ && k
        != "guards"@ && k != "executor"@ && k != "branches"@ && k != "states"@ && k
        != "initialState"@ by {
        let i = choose|i: int| 0 <= i < prose().len() && prose()[i] == k;
        assert(prose().len() == 4);
        if i == 0 {
            assert(k == "title"@);
        } else if i == 1 {
            assert(k == "description"@);
        } else if i == 2 {
            assert(k == "goal"@);
        } else {
            assert(k == "guidance"@);
        }
    }
}

/// A state can be replaced by one that reads the same without its prose.
proof fn lemma_state_swap(d: JsonView, s: Seq<char>, state: JsonView, v: JsonView)
    requires
        has_state(d, s, state),
        compact(state_form(state)) == compact(state_form(v)),
    ensures
        fingerprint_of(with_state(d, s, v)) == fingerprint_of(d),
{
    lemma_keys_differ();
    let m = d->Object_0;
    let a = states_in(d);
    let b = put(a, s, v);
    let e = with_state(d, s, v);
    lemma_put_lookup(m, "states"@, JsonView::Object(b), "initialState"@);
    lemma_put_over(a, s, v);
    assert forall|i: int| 0 <= i < a.len() implies (#[trigger] a[i]).0 == b[i].0 && compact(
        state_form(a[i].1),
    ) == compact(state_form(b[i].1)) by {
        assert(b[i].0 == a[i].0);
    }
    lemma_alike_states(a, b);
    lemma_alike_reads(state_forms(a), state_forms(b));
    let start = match d.get("initialState"@) {
        Some(x) => obj().with("initialState"@, x),
        None => obj(),
    };
    let x = JsonView::Object(state_forms(a));
    let y = JsonView::Object(state_forms(b));
    lemma_alike_put(start.m, start.m, "states"@, x, y);
    lemma_alike_reads(put(start.m, "states"@, x), put(start.m, "states"@, y));
    assert(machine(d) == JsonView::Object(put(start.m, "states"@, x)));
    assert(machine(e) == JsonView::Object(put(start.m, "states"@, y)));
}

/// A transition can be replaced by one that reads the same without its prose.
proof fn lemma_transition_swap(
    d: JsonView,
    s: Seq<char>,
    state: JsonView,
    t: Seq<char>,
    transition: JsonView,
    v: JsonView,
)
    requires
        has_transition(d, s, state, t, transition),
        compact(transition_form(transition)) == compact(transition_form(v)),
    ensures
        fingerprint_of(with_transition(d, s, state, t, v)) == fingerprint_of(d),
{
    let m = state->Object_0;
    let a = transitions_in(state);
    let b = put(a, t, v);
    let next = with_member(state, "transitions"@, JsonView::Object(b));
    lemma_put_over(a, t, v);
    assert forall|i: int| 0 <= i < a.len() implies (#[trigger] a[i]).0 == b[i].0 && compact(
        transition_form(a[i].1),
    ) == compact(transition_form(b[i].1)) by {
        assert(b[i].0 == a[i].0);
    }
    lemma_alike_transitions(a, b);
    lemma_alike_reads(transition_forms(a), transition_forms(b));
    lemma_put_lookup(m, "transitions"@, JsonView::Object(b), "transitions"@);
    let x = JsonView::Object(transition_forms(a));
    let y = JsonView::Object(transition_forms(b));
    lemma_dropped_put_over(m, prose(), "transitions"@, JsonView::Object(b), y);
    let bare = dropped(m, prose());
    lemma_alike_put(bare, bare, "transitions"@, x, y);
    lemma_alike_reads(put(bare, "transitions"@, x), put(bare, "transitions"@, y));
    lemma_state_swap(d, s, state, next);
}

/// Only where a flow starts and its states count.
pub proof fn law_only_the_machine_counts(d: JsonView, key: Seq<char>, value: JsonView)
    requires
        key != "initialState"@,
        key != "states"@,
    ensures
        fingerprint_of(with_member(d, key, value)) == fingerprint_of(d),
{
    if let JsonView::Object(m) = d {
        lemma_put_lookup(m, key, value, "initialState"@);
        lemma_put_lookup(m, key, value, "states"@);
    }
}

/// The prose of a state does not count.
pub proof fn law_prose_of_states_does_not_count(
    d: JsonView,
    s: Seq<char>,
    state: JsonView,
    key: Seq<char>,
    value: JsonView,
)
    requires
        has_state(d, s, state),
        state matches JsonView::Object(m) && sorted(m),
        prose().contains(key),
    ensures
        fingerprint_of(with_state(d, s, with_member(state, key, value))) == fingerprint_of(d),
{
    lemma_keys_differ();
    let m = state->Object_0;
    lemma_dropped_put(m, prose(), key, value);
    lemma_put_lookup(m, key, value, "transitions"@);
    lemma_state_swap(d, s, state, with_member(state, key, value));
}

/// The prose of a transition does not count.
pub proof fn law_prose_of_transitions_does_not_count(
    d: JsonView,
    s: Seq<char>,
    state: JsonView,
    t: Seq<char>,
    transition: JsonView,
    key: Seq<char>,
    value: JsonView,
)
    requires
        has_transition(d, s, state, t, transition),
        transition matches JsonView::Object(m) && sorted(m),
        prose().contains(key),
    ensures
        fingerprint_of(with_transition(d, s, state, t, with_member(transition, key, value)))
            == fingerprint_of(d),
{
    lemma_keys_differ();
    let m = transition->Object_0;
    lemma_dropped_put(m, prose(), key, value);
    lemma_put_lookup(m, key, value, "guards"@);
    lemma_put_lookup(m, key, value, "executor"@);
    lemma_transition_swap(d, s, state, t, transition, with_member(transition, key, value));
}

/// An executor can be replaced by one that reads the same without its prose.
proof fn lemma_executor_swap(
    d: JsonView,
    s: Seq<char>,
    state: JsonView,
    t: Seq<char>,
    transition: JsonView,
    executor: JsonView,
    v: JsonView,
)
    requires
        has_transition(d, s, state, t, transition),
        transition matches JsonView::Object(m) && sorted(m),
        transition.get("executor"@) == Some(executor),
        compact(executor_form(executor)) == compact(executor_form(v)),
    ensures
        fingerprint_of(
            with_transition(d, s, state, t, with_member(transition, "executor"@, v)),
        ) == fingerprint_of(d),
{
    lemma_keys_differ();
    let m = transition->Object_0;
    let n = put(m, "executor"@, v);
    lemma_put_lookup(m, "executor"@, v, "guards"@);
    let x = executor_form(executor);
    let y = executor_form(v);
    let bare = dropped(m, prose());
    let bare2 = dropped(n, prose());
    let guarded = match lookup(m, "guards"@) {
        Some(JsonView::Array(a)) => put(
            bare,
            "guards"@,
            JsonView::Array(sort_values(guard_forms(a))),
        ),
        _ => bare,
    };
    let guarded2 = match lookup(m, "guards"@) {
        Some(JsonView::Array(a)) => put(
            bare2,
            "guards"@,
            JsonView::Array(sort_values(guard_forms(a))),
        ),
        _ => bare2,
    };
    lemma_put_over(m, "executor"@, v);
    assert forall|i: int| 0 <= i < m.len() implies (#[trigger] m[i]).0 == n[i].0 && (m[i].0
        != "executor"@ ==> m[i].1 == n[i].1) by {
        assert(n[i].0 == m[i].0);
    }
    lemma_dropped_over(m, n, prose(), "executor"@);
    lemma_dropped_sorted(m, prose());
    if let Some(JsonView::Array(a)) = lookup(m, "guards"@) {
        let g = JsonView::Array(sort_values(guard_forms(a)));
        lemma_put_swapped(bare, bare2, "executor"@, "guards"@, g, y);
    } else {
        lemma_put_same(bare, bare2, "executor"@, y);
    }
    assert(put(guarded2, "executor"@, y) == put(guarded, "executor"@, y));
    lemma_alike_put(guarded, guarded, "executor"@, x, y);
    lemma_alike_reads(put(guarded, "executor"@, x), put(guarded, "executor"@, y));
    lemma_transition_swap(d, s, state, t, transition, with_member(transition, "executor"@, v));
}

/// Two writes to different keys: of the second, only the last counts.
proof fn lemma_put_swapped(
    a: Members,
    b: Members,
    k: Seq<char>,
    g: Seq<char>,
    x: JsonView,
    y: JsonView,
)
    requires
        sorted(a),
        k != g,
        a.len() == b.len(),
        forall|i: int|
            0 <= i < a.len() ==> (#[trigger] a[i]).0 == b[i].0 && (a[i].0 != k ==> a[i].1 == b[i].1),
    ensures
        put(put(a, g, x), k, y) == put(put(b, g, x), k, y),
{
    let p = lemma_place(a, g);
    lemma_put_at(a, g, x, p);
    assert forall|j: int| 0 <= j < p implies text_lt((#[trigger] b[j]).0, g) by {
        assert(a[j].0 == b[j].0);
    }
    if p < a.len() {
        assert(a[p].0 == b[p].0);
    }
    lemma_put_at(b, g, x, p);
    let c = put(a, g, x);
    let d = put(b, g, x);
    assert(c.len() == d.len());
    assert forall|i: int| 0 <= i < c.len() implies (#[trigger] c[i]).0 == d[i].0 && (c[i].0 != k
        ==> c[i].1 == d[i].1) by {
        if p < a.len() && a[p].0 == g {
            assert(a[i].0 == b[i].0);
        } else if i < p {
            assert(a[i].0 == b[i].0);
        } else if i > p {
            assert(a[i - 1].0 == b[i - 1].0);
        }
    }
    if p < a.len() && a[p].0 == g {
        crate::json::lemma_sorted_update(a, p, x);
    } else {
        crate::json::lemma_sorted_insert(a, p, g, x);
    }
    lemma_put_same(c, d, k, y);
}

/// The prose of an executor does not count.
pub proof fn law_prose_of_executors_does_not_count(
    d: JsonView,
    s: Seq<char>,
    state: JsonView,
    t: Seq<char>,
    transition: JsonView,
    executor: JsonView,
    key: Seq<char>,
    value: JsonView,
)
    requires
        has_transition(d, s, state, t, transition),
        transition matches JsonView::Object(m) && sorted(m),
        transition.get("executor"@) == Some(executor),
        executor matches JsonView::Object(m) && sorted(m),
        prose().contains(key),
    ensures
        fingerprint_of(
            with_transition(
                d,
                s,
                state,
                t,
                with_member(transition, "executor"@, with_member(executor, key, value)),
            ),
        ) == fingerprint_of(d),
{
    lemma_keys_differ();
    let m = executor->Object_0;
    lemma_dropped_put(m, prose(), key, value);
    lemma_put_lookup(m, key, value, "branches"@);
    let v = with_member(executor, key, value);
    assert(executor_form(v) == executor_form(executor));
    lemma_executor_swap(d, s, state, t, transition, executor, v);
}

proof fn lemma_items_read(a: Seq<JsonView>, b: Seq<JsonView>)
    requires
        forms(a) == forms(b),
    ensures
        compact_items(a) == compact_items(b),
        compact(JsonView::Array(a)) == compact(JsonView::Array(b)),
    decreases a.len(),
{
    assert(forms(a).len() == a.len() && forms(b).len() == b.len());
    if a.len() > 0 {
        let n = a.len() - 1;
        assert(forms(a)[n] == forms(b)[n]);
        assert(forms(a)[0] == forms(b)[0]);
        assert(forms(a.drop_last()) =~= forms(a).drop_last());
        assert(forms(b.drop_last()) =~= forms(b).drop_last());
        lemma_items_read(a.drop_last(), b.drop_last());
    }
}

/// Sorted, two lists of the same forms read the same.
proof fn lemma_sorted_reads(a: Seq<JsonView>, b: Seq<JsonView>)
    requires
        forms(a).to_multiset() == forms(b).to_multiset(),
    ensures
        compact(JsonView::Array(sort_values(a))) == compact(JsonView::Array(sort_values(b))),
{
    lemma_sort_forms(a);
    lemma_sort_forms(b);
    law_sort_forgets_order(forms(a), forms(b));
    lemma_items_read(sort_values(a), sort_values(b));
}

/// Applying a function to lists that hold the same values.
proof fn lemma_map_multiset<A, B>(a: Seq<A>, b: Seq<A>, f: spec_fn(A) -> B)
    requires
        a.to_multiset() == b.to_multiset(),
    ensures
        a.map_values(f).to_multiset() == b.map_values(f).to_multiset(),
    decreases a.len(),
{
    broadcast use vstd::seq_lib::group_to_multiset_ensures;

    assert(a.len() == a.to_multiset().len() && b.len() == b.to_multiset().len());
    if a.len() == 0 {
        assert(a.map_values(f) =~= b.map_values(f));
    } else {
        let x = a.last();
        assert(a.to_multiset().count(x) > 0) by {
            assert(a.contains(x));
        }
        assert(b.contains(x));
        let i = b.index_of(x);
        let c = b.remove(i);
        assert(a.drop_last() =~= a.remove(a.len() - 1));
        assert(a.drop_last().to_multiset() =~= a.to_multiset().remove(x));
        assert(c.to_multiset() =~= b.to_multiset().remove(x));
        lemma_map_multiset(a.drop_last(), c, f);
        assert(a.map_values(f) =~= a.drop_last().map_values(f).push(f(x)));
        assert(b.map_values(f) =~= c.map_values(f).insert(i, f(x)));
        assert(b.map_values(f).to_multiset() =~= c.map_values(f).to_multiset().insert(f(x)));
    }
}

/// The guards of a transition can be replaced by some that read the same, sorted and without
/// their prose.
proof fn lemma_guards_swap(
    d: JsonView,
    s: Seq<char>,
    state: JsonView,
    t: Seq<char>,
    transition: JsonView,
    guards: Seq<JsonView>,
    other: Seq<JsonView>,
)
    requires
        has_transition(d, s, state, t, transition),
        transition matches JsonView::Object(m) && sorted(m),
        transition.get("guards"@) == Some(JsonView::Array(guards)),
        forms(guard_forms(guards)).to_multiset() == forms(guard_forms(other)).to_multiset(),
    ensures
        fingerprint_of(
            with_transition(
                d,
                s,
                state,
                t,
                with_member(transition, "guards"@, JsonView::Array(other)),
            ),
        ) == fingerprint_of(d),
{
    lemma_keys_differ();
    let m = transition->Object_0;
    let v = JsonView::Array(other);
    let n = put(m, "guards"@, v);
    lemma_put_lookup(m, "guards"@, v, "executor"@);
    let x = JsonView::Array(sort_values(guard_forms(guards)));
    let y = JsonView::Array(sort_values(guard_forms(other)));
    lemma_sorted_reads(guard_forms(guards), guard_forms(other));
    lemma_dropped_put_over(m, prose(), "guards"@, v, y);
    let bare = dropped(m, prose());
    lemma_alike_put(bare, bare, "guards"@, x, y);
    let a = put(bare, "guards"@, x);
    let b = put(bare, "guards"@, y);
    match lookup(m, "executor"@) {
        Some(e) => {
            lemma_alike_put(a, b, "executor"@, executor_form(e), executor_form(e));
            lemma_alike_reads(
                put(a, "executor"@, executor_form(e)),
                put(b, "executor"@, executor_form(e)),
            );
        },
        None => lemma_alike_reads(a, b),
    }
    lemma_transition_swap(d, s, state, t, transition, with_member(transition, "guards"@, v));
}

/// The order in which the guards of a transition are declared does not count.
pub proof fn law_guard_order_does_not_count(
    d: JsonView,
    s: Seq<char>,
    state: JsonView,
    t: Seq<char>,
    transition: JsonView,
    guards: Seq<JsonView>,
    other: Seq<JsonView>,
)
    requires
        has_transition(d, s, state, t, transition),
        transition matches JsonView::Object(m) && sorted(m),
        transition.get("guards"@) == Some(JsonView::Array(guards)),
        guards.to_multiset() == other.to_multiset(),
    ensures
        fingerprint_of(
            with_transition(
                d,
                s,
                state,
                t,
                with_member(transition, "guards"@, JsonView::Array(other)),
            ),
        ) == fingerprint_of(d),
{
    let f = |g: JsonView| guard_form(g);
    lemma_map_multiset(guards, other, f);
    lemma_map_multiset(guard_forms(guards), guard_forms(other), |v: JsonView| compact(v));
    lemma_guards_swap(d, s, state, t, transition, guards, other);
}

/// The prose of a guard does not count.
pub proof fn law_prose_of_guards_does_not_count(
    d: JsonView,
    s: Seq<char>,
    state: JsonView,
    t: Seq<char>,
    transition: JsonView,
    guards: Seq<JsonView>,
    i: int,
    key: Seq<char>,
    value: JsonView,
)
    requires
        has_transition(d, s, state, t, transition),
        transition matches JsonView::Object(m) && sorted(m),
        transition.get("guards"@) == Some(JsonView::Array(guards)),
        0 <= i < guards.len(),
        guards[i] matches JsonView::Object(m) && sorted(m),
        prose().contains(key),
    ensures
        fingerprint_of(
            with_transition(
                d,
                s,
                state,
                t,
                with_member(
                    transition,
                    "guards"@,
                    JsonView::Array(guards.update(i, with_member(guards[i], key, value))),
                ),
            ),
        ) == fingerprint_of(d),
{
    let m = guards[i]->Object_0;
    lemma_dropped_put(m, prose(), key, value);
    let other = guards.update(i, with_member(guards[i], key, value));
    assert(guard_forms(other) =~= guard_forms(guards));
    lemma_guards_swap(d, s, state, t, transition, guards, other);
}

proof fn lemma_executor_forms_map(a: Seq<JsonView>)
    ensures
        executor_forms(a) == a.map_values(|e: JsonView| executor_form(e)),
    decreases a.len(),
{
    let f = |e: JsonView| executor_form(e);
    if a.len() > 0 {
        lemma_executor_forms_map(a.drop_last());
        assert(a.map_values(f) =~= a.drop_last().map_values(f).push(executor_form(a[a.len() - 1])));
    } else {
        assert(a.map_values(f) =~= a);
    }
}

/// The order of the branches that an executor runs side by side does not count.
pub proof fn law_branch_order_does_not_count(
    d: JsonView,
    s: Seq<char>,
    state: JsonView,
    t: Seq<char>,
    transition: JsonView,
    executor: JsonView,
    branches: Seq<JsonView>,
    other: Seq<JsonView>,
)
    requires
        has_transition(d, s, state, t, transition),
        transition matches JsonView::Object(m) && sorted(m),
        transition.get("executor"@) == Some(executor),
        executor matches JsonView::Object(m) && sorted(m),
        executor.get("branches"@) == Some(JsonView::Array(branches)),
        branches.to_multiset() == other.to_multiset(),
    ensures
        fingerprint_of(
            with_transition(
                d,
                s,
                state,
                t,
                with_member(
                    transition,
                    "executor"@,
                    with_member(executor, "branches"@, JsonView::Array(other)),
                ),
            ),
        ) == fingerprint_of(d),
{
    lemma_keys_differ();
    let m = executor->Object_0;
    let v = JsonView::Array(other);
    lemma_put_lookup(m, "branches"@, v, "branches"@);
    lemma_executor_forms_map(branches);
    lemma_executor_forms_map(other);
    lemma_map_multiset(branches, other, |e: JsonView| executor_form(e));
    lemma_map_multiset(executor_forms(branches), executor_forms(other), |x: JsonView| compact(x));
    lemma_sorted_reads(executor_forms(branches), executor_forms(other));
    let x = JsonView::Array(sort_values(executor_forms(branches)));
    let y = JsonView::Array(sort_values(executor_forms(other)));
    lemma_dropped_put_over(m, prose(), "branches"@, v, y);
    let bare = dropped(m, prose());
    lemma_alike_put(bare, bare, "branches"@, x, y);
    lemma_alike_reads(put(bare, "branches"@, x), put(bare, "branches"@, y));
    let next = with_member(executor, "branches"@, v);
    assert(executor_form(executor) == JsonView::Object(put(bare, "branches"@, x)));
    assert(executor_form(next) == JsonView::Object(put(bare, "branches"@, y)));
    lemma_executor_swap(d, s, state, t, transition, executor, next);
}

/// A change of a flow that its machine does not know of.
pub enum Change {
    /// A key of the flow other than where it starts and its states.
    Other { key: Seq<char>, value: JsonView },
    StateProse { s: Seq<char>, key: Seq<char>, value: JsonView },
    TransitionProse { s: Seq<char>, t: Seq<char>, key: Seq<char>, value: JsonView },
    ExecutorProse { s: Seq<char>, t: Seq<char>, key: Seq<char>, value: JsonView },
    GuardProse { s: Seq<char>, t: Seq<char>, i: int, key: Seq<char>, value: JsonView },
    GuardOrder { s: Seq<char>, t: Seq<char>, other: Seq<JsonView> },
    BranchOrder { s: Seq<char>, t: Seq<char>, other: Seq<JsonView> },
}

/// The state of a flow.
pub open spec fn state_at(d: JsonView, s: Seq<char>) -> JsonView {
    lookup(states_in(d), s)->0
}

/// The transition of a flow.
pub open spec fn transition_at(d: JsonView, s: Seq<char>, t: Seq<char>) -> JsonView {
    lookup(transitions_in(state_at(d, s)), t)->0
}

/// Whether a flow has a transition, its members in order.
pub open spec fn sound_transition(d: JsonView, s: Seq<char>, t: Seq<char>) -> bool {
    &&& has_transition(d, s, state_at(d, s), t, transition_at(d, s, t))
    &&& transition_at(d, s, t) matches JsonView::Object(m) && sorted(m)
}

/// A flow with a member of a transition set.
pub open spec fn with_part(
    d: JsonView,
    s: Seq<char>,
    t: Seq<char>,
    key: Seq<char>,
    value: JsonView,
) -> JsonView {
    with_transition(d, s, state_at(d, s), t, with_member(transition_at(d, s, t), key, value))
}

/// Whether a change of one flow makes another.
pub open spec fn makes(a: JsonView, c: Change, b: JsonView) -> bool {
    match c {
        Change::Other { key, value } => key != "initialState"@ && key != "states"@ && b
            == with_member(a, key, value),
        Change::StateProse { s, key, value } => {
            &&& has_state(a, s, state_at(a, s))
            &&& state_at(a, s) matches JsonView::Object(m) && sorted(m)
            &&& prose().contains(key)
            &&& b == with_state(a, s, with_member(state_at(a, s), key, value))
        },
        Change::TransitionProse { s, t, key, value } => {
            &&& sound_transition(a, s, t)
            &&& prose().contains(key)
            &&& b == with_part(a, s, t, key, value)
        },
        Change::ExecutorProse { s, t, key, value } => {
            &&& sound_transition(a, s, t)
            &&& prose().contains(key)
            &&& transition_at(a, s, t).get("executor"@) matches Some(JsonView::Object(m)) && sorted(
                m,
            ) && b == with_part(
                a,
                s,
                t,
                "executor"@,
                with_member(JsonView::Object(m), key, value),
            )
        },
        Change::GuardProse { s, t, i, key, value } => {
            &&& sound_transition(a, s, t)
            &&& prose().contains(key)
            &&& transition_at(a, s, t).get("guards"@) matches Some(JsonView::Array(guards)) && 0
                <= i < guards.len() && (guards[i] matches JsonView::Object(m) && sorted(m)) && b
                == with_part(
                a,
                s,
                t,
                "guards"@,
                JsonView::Array(guards.update(i, with_member(guards[i], key, value))),
            )
        },
        Change::GuardOrder { s, t, other } => {
            &&& sound_transition(a, s, t)
            &&& transition_at(a, s, t).get("guards"@) matches Some(JsonView::Array(guards))
                && guards.to_multiset() == other.to_multiset() && b == with_part(
                a,
                s,
                t,
                "guards"@,
                JsonView::Array(other),
            )
        },
        Change::BranchOrder { s, t, other } => {
            &&& sound_transition(a, s, t)
            &&& transition_at(a, s, t).get("executor"@) matches Some(JsonView::Object(m)) && sorted(
                m,
            ) && (JsonView::Object(m).get("branches"@) matches Some(JsonView::Array(branches))
                && branches.to_multiset() == other.to_multiset()) && b == with_part(
                a,
                s,
                t,
                "executor"@,
                with_member(JsonView::Object(m), "branches"@, JsonView::Array(other)),
            )
        },
    }
}

/// Whether one flow is made of the other by a change that the machine does not know of.
pub open spec fn differs_idly(a: JsonView, b: JsonView) -> bool {
    exists|c: Change| #[trigger] makes(a, c, b) || makes(b, c, a)
}

proof fn lemma_change_does_not_count(a: JsonView, c: Change, b: JsonView)
    requires
        makes(a, c, b),
    ensures
        fingerprint_of(b) == fingerprint_of(a),
{
    match c {
        Change::Other { key, value } => law_only_the_machine_counts(a, key, value),
        Change::StateProse { s, key, value } => law_prose_of_states_does_not_count(
            a,
            s,
            state_at(a, s),
            key,
            value,
        ),
        Change::TransitionProse { s, t, key, value } => law_prose_of_transitions_does_not_count(
            a,
            s,
            state_at(a, s),
            t,
            transition_at(a, s, t),
            key,
            value,
        ),
        Change::ExecutorProse { s, t, key, value } => law_prose_of_executors_does_not_count(
            a,
            s,
            state_at(a, s),
            t,
            transition_at(a, s, t),
            transition_at(a, s, t).get("executor"@)->0,
            key,
            value,
        ),
        Change::GuardProse { s, t, i, key, value } => law_prose_of_guards_does_not_count(
            a,
            s,
            state_at(a, s),
            t,
            transition_at(a, s, t),
            transition_at(a, s, t).get("guards"@)->0->Array_0,
            i,
            key,
            value,
        ),
        Change::GuardOrder { s, t, other } => law_guard_order_does_not_count(
            a,
            s,
            state_at(a, s),
            t,
            transition_at(a, s, t),
            transition_at(a, s, t).get("guards"@)->0->Array_0,
            other,
        ),
        Change::BranchOrder { s, t, other } => law_branch_order_does_not_count(
            a,
            s,
            state_at(a, s),
            t,
            transition_at(a, s, t),
            transition_at(a, s, t).get("executor"@)->0,
            transition_at(a, s, t).get("executor"@)->0.get("branches"@)->0->Array_0,
            other,
        ),
    }
}

/// However many such changes lie between two flows, their fingerprint is one: prose anywhere,
/// the order of guards and of branches, and all else that is not where the flow starts and its
/// states. Keys have no order.
pub proof fn law_idle_changes_do_not_count(versions: Seq<JsonView>)
    requires
        versions.len() > 0,
        forall|i: int|
            0 <= i < versions.len() - 1 ==> differs_idly(#[trigger] versions[i], versions[i + 1]),
    ensures
        fingerprint_of(versions.first()) == fingerprint_of(versions.last()),
    decreases versions.len(),
{
    if versions.len() > 1 {
        let init = versions.drop_last();
        let n = init.len() - 1;
        assert forall|i: int| 0 <= i < init.len() - 1 implies differs_idly(
            #[trigger] init[i],
            init[i + 1],
        ) by {
            assert(differs_idly(versions[i], versions[i + 1]));
        }
        law_idle_changes_do_not_count(init);
        let a = versions[n];
        let b = versions[n + 1];
        assert(differs_idly(versions[n], versions[n + 1]));
        let c = choose|c: Change| #[trigger] makes(a, c, b) || makes(b, c, a);
        if makes(a, c, b) {
            lemma_change_does_not_count(a, c, b);
        } else {
            lemma_change_does_not_count(b, c, a);
        }
    }
}

proof fn lemma_lookup_dropped(m: Members, keys: Seq<Seq<char>>, k: Seq<char>)
    requires
        !keys.contains(k),
    ensures
        lookup(dropped(m, keys), k) == lookup(m, k),
    decreases m.len(),
{
    if m.len() > 0 {
        lemma_lookup_dropped(m.drop_last(), keys, k);
        assert(m =~= m.drop_last().push(m.last()));
        lemma_lookup_push(m.drop_last(), m.last(), k);
        lemma_lookup_push(dropped(m.drop_last(), keys), m.last(), k);
    }
}

proof fn lemma_lookup_state(m: Members, k: Seq<char>)
    requires
        sorted(m),
    ensures
        lookup(state_forms(m), k) == match lookup(m, k) {
            Some(v) => Some(state_form(v)),
            None => None,
        },
    decreases m.len(),
{
    if m.len() > 0 {
        assert(sorted(m.drop_last()));
        lemma_lookup_state(m.drop_last(), k);
        lemma_lookup_last(m, k);
        lemma_put_lookup(state_forms(m.drop_last()), m.last().0, state_form(m.last().1), k);
    }
}

proof fn lemma_lookup_transition(m: Members, k: Seq<char>)
    requires
        sorted(m),
    ensures
        lookup(transition_forms(m), k) == match lookup(m, k) {
            Some(v) => Some(transition_form(v)),
            None => None,
        },
    decreases m.len(),
{
    if m.len() > 0 {
        assert(sorted(m.drop_last()));
        lemma_lookup_transition(m.drop_last(), k);
        lemma_lookup_last(m, k);
        lemma_put_lookup(
            transition_forms(m.drop_last()),
            m.last().0,
            transition_form(m.last().1),
            k,
        );
    }
}

proof fn lemma_machine_parts(d: JsonView, s: Seq<char>)
    requires
        sorted(states_in(d)),
    ensures
        machine(d).get("initialState"@) == d.get("initialState"@),
        machine(d).get("states"@) matches Some(JsonView::Object(ss)) && lookup(ss, s) == match lookup(
            states_in(d),
            s,
        ) {
            Some(v) => Some(state_form(v)),
            None => None,
        },
{
    lemma_keys_differ();
    let start = match d.get("initialState"@) {
        Some(x) => obj().with("initialState"@, x),
        None => obj(),
    };
    let forms = match d.get_object("states"@) {
        Some(states) => state_forms(states),
        None => Seq::empty(),
    };
    lemma_put_lookup(start.m, "states"@, JsonView::Object(forms), "initialState"@);
    if let Some(x) = d.get("initialState"@) {
        lemma_put_lookup(obj().m, "initialState"@, x, "initialState"@);
    }
    lemma_lookup_state(states_in(d), s);
}

/// Where a flow starts and which states it has counts: flows with the same machine have both
/// in common.
pub proof fn law_start_and_states_count(a: JsonView, b: JsonView, s: Seq<char>)
    requires
        sorted(states_in(a)),
        sorted(states_in(b)),
        machine(a) == machine(b),
    ensures
        a.get("initialState"@) == b.get("initialState"@),
        lookup(states_in(a), s) is Some == lookup(states_in(b), s) is Some,
{
    lemma_machine_parts(a, s);
    lemma_machine_parts(b, s);
}

/// What a state says of itself counts, prose and transitions aside: whether it is an end,
/// who may move it, and all else.
pub proof fn law_facts_of_states_count(
    a: JsonView,
    b: JsonView,
    s: Seq<char>,
    x: JsonView,
    y: JsonView,
    key: Seq<char>,
)
    requires
        has_state(a, s, x),
        has_state(b, s, y),
        machine(a) == machine(b),
        !prose().contains(key),
        key != "transitions"@,
    ensures
        x.get(key) == y.get(key),
{
    lemma_machine_parts(a, s);
    lemma_machine_parts(b, s);
    lemma_state_reads(x, key);
    lemma_state_reads(y, key);
}

proof fn lemma_state_reads(x: JsonView, key: Seq<char>)
    requires
        !prose().contains(key),
        key != "transitions"@,
    ensures
        state_form(x).get(key) == x.get(key),
{
    if let JsonView::Object(m) = x {
        lemma_lookup_dropped(m, prose(), key);
        if let Some(JsonView::Object(ts)) = lookup(m, "transitions"@) {
            lemma_put_lookup(
                dropped(m, prose()),
                "transitions"@,
                JsonView::Object(transition_forms(ts)),
                key,
            );
        }
    }
}

/// The transitions of flows with the same machine have the same form.
proof fn lemma_same_edges(
    a: JsonView,
    b: JsonView,
    s: Seq<char>,
    x: JsonView,
    y: JsonView,
    t: Seq<char>,
    p: JsonView,
)
    requires
        has_transition(a, s, x, t, p),
        has_state(b, s, y),
        sorted(transitions_in(y)),
        machine(a) == machine(b),
    ensures
        lookup(transitions_in(y), t) matches Some(q) && transition_form(p) == transition_form(q),
{
    lemma_keys_differ();
    lemma_machine_parts(a, s);
    lemma_machine_parts(b, s);
    let ts = transitions_in(x);
    let m = x->Object_0;
    lemma_put_lookup(
        dropped(m, prose()),
        "transitions"@,
        JsonView::Object(transition_forms(ts)),
        "transitions"@,
    );
    assert(state_form(y).get("transitions"@) == Some(JsonView::Object(transition_forms(ts))));
    assert(y is Object);
    let n = y->Object_0;
    lemma_lookup_dropped(n, prose(), "transitions"@);
    lemma_lookup_transition(ts, t);
    if let Some(JsonView::Object(us)) = lookup(n, "transitions"@) {
        lemma_put_lookup(
            dropped(n, prose()),
            "transitions"@,
            JsonView::Object(transition_forms(us)),
            "transitions"@,
        );
        lemma_lookup_transition(us, t);
        assert(lookup(us, t) is Some);
    }
}

/// The edges count: flows with the same machine have the same transitions, with the same
/// targets, actors and all else that is not prose, guards or executor.
pub proof fn law_edges_count(
    a: JsonView,
    b: JsonView,
    s: Seq<char>,
    x: JsonView,
    y: JsonView,
    t: Seq<char>,
    p: JsonView,
    key: Seq<char>,
)
    requires
        has_transition(a, s, x, t, p),
        has_state(b, s, y),
        sorted(transitions_in(y)),
        machine(a) == machine(b),
        !prose().contains(key),
        key != "guards"@,
        key != "executor"@,
    ensures
        lookup(transitions_in(y), t) matches Some(q) && p.get(key) == q.get(key),
{
    lemma_same_edges(a, b, s, x, y, t, p);
    let q = lookup(transitions_in(y), t)->0;
    lemma_transition_reads(p, key);
    lemma_transition_reads(q, key);
}

/// What an executor says counts, prose aside.
pub open spec fn executor_read(e: Option<JsonView>) -> Option<JsonView> {
    match e {
        Some(e) => Some(executor_form(e)),
        None => None,
    }
}

/// What guards say counts, prose and order aside.
pub open spec fn guards_read(g: Option<JsonView>) -> Option<JsonView> {
    match g {
        Some(JsonView::Array(a)) => Some(JsonView::Array(sort_values(guard_forms(a)))),
        _ => g,
    }
}

/// What is done on an edge and what it is guarded by counts: the transitions of flows with the
/// same machine have executors and guards that differ in prose and order at most.
pub proof fn law_executors_and_guards_count(
    a: JsonView,
    b: JsonView,
    s: Seq<char>,
    x: JsonView,
    y: JsonView,
    t: Seq<char>,
    p: JsonView,
)
    requires
        has_transition(a, s, x, t, p),
        has_state(b, s, y),
        sorted(transitions_in(y)),
        machine(a) == machine(b),
    ensures
        lookup(transitions_in(y), t) matches Some(q) && executor_read(p.get("executor"@))
            == executor_read(q.get("executor"@)) && guards_read(p.get("guards"@)) == guards_read(
            q.get("guards"@),
        ),
{
    lemma_same_edges(a, b, s, x, y, t, p);
    let q = lookup(transitions_in(y), t)->0;
    lemma_work_reads(p);
    lemma_work_reads(q);
}

proof fn lemma_work_reads(p: JsonView)
    ensures
        transition_form(p).get("executor"@) == executor_read(p.get("executor"@)),
        transition_form(p).get("guards"@) == guards_read(p.get("guards"@)),
{
    lemma_keys_differ();
    if let JsonView::Object(m) = p {
        let bare = dropped(m, prose());
        lemma_lookup_dropped(m, prose(), "executor"@);
        lemma_lookup_dropped(m, prose(), "guards"@);
        let guarded = match lookup(m, "guards"@) {
            Some(JsonView::Array(g)) => put(
                bare,
                "guards"@,
                JsonView::Array(sort_values(guard_forms(g))),
            ),
            _ => bare,
        };
        if let Some(JsonView::Array(g)) = lookup(m, "guards"@) {
            let v = JsonView::Array(sort_values(guard_forms(g)));
            lemma_put_lookup(bare, "guards"@, v, "executor"@);
        }
        if let Some(e) = lookup(m, "executor"@) {
            lemma_put_lookup(guarded, "executor"@, executor_form(e), "guards"@);
        }
    }
}

proof fn lemma_transition_reads(p: JsonView, key: Seq<char>)
    requires
        !prose().contains(key),
        key != "guards"@,
        key != "executor"@,
    ensures
        transition_form(p).get(key) == p.get(key),
{
    if let JsonView::Object(m) = p {
        lemma_lookup_dropped(m, prose(), key);
        let bare = dropped(m, prose());
        let guarded = match lookup(m, "guards"@) {
            Some(JsonView::Array(a)) => put(
                bare,
                "guards"@,
                JsonView::Array(sort_values(guard_forms(a))),
            ),
            _ => bare,
        };
        if let Some(JsonView::Array(a)) = lookup(m, "guards"@) {
            lemma_put_lookup(
                bare,
                "guards"@,
                JsonView::Array(sort_values(guard_forms(a))),
                key,
            );
        }
        if let Some(e) = lookup(m, "executor"@) {
            lemma_put_lookup(guarded, "executor"@, executor_form(e), key);
        }
    }
}

} // verus!
