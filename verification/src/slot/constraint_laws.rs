//! What the constraints of slots admit.

use vstd::prelude::*;

use crate::json::{lookup, same_value, JsonView, Members};
use crate::pointer::pointed;
use crate::runtime::links::state_def;
use crate::scan::{first_some, lemma_found_at, lemma_found_nowhere};
use crate::slot::globs::{glob_error, glob_matches, set_error};
use crate::slot::slot_constraint::{
    allowlist_fault, declaration_fault, declared_kind_fault, declared_pattern_fault,
    declared_patterns_fault, definition_fault, element_fault, elements, first_violation, glob_set,
    has_value, kind_fault, member_fault, path_fault, pattern_fault, resolved, slot_declaration,
    slot_fault, slots_fault, strings, subset_fault,
};
use crate::text::replaced;

verus! {

/// The declaration of a slot: the one on the blackboard, else the one that the state has of its
/// own.
pub open spec fn declared_slot(definition: JsonView, state: Seq<char>, slot: Seq<char>) -> Option<
    JsonView,
> {
    let own = match definition.at(seq!["states"@, state]) {
        Some(s) => match s.get("slots"@) {
            Some(JsonView::Object(slots)) => lookup(slots, slot),
            _ => None,
        },
        None => None,
    };
    match definition.get("blackboard"@) {
        Some(JsonView::Object(slots)) => if lookup(slots, slot) is Some {
            lookup(slots, slot)
        } else {
            own
        },
        _ => own,
    }
}

/// The patterns that are listed under a key, none where there is no list.
pub open spec fn listed(p: Members, key: Seq<char>) -> Seq<JsonView> {
    match lookup(p, key) {
        Some(JsonView::Array(a)) => a,
        _ => Seq::empty(),
    }
}

/// Whether all that is listed are patterns, which can be used together.
pub open spec fn usable(list: Seq<JsonView>) -> bool {
    &&& forall|k: int|
        0 <= k < list.len() ==> (#[trigger] list[k] matches JsonView::Str(s) && glob_error(s) is None)
    &&& set_error(Seq::new(list.len(), |k: int| list[k]->Str_0)) is None
}

/// Whether one of the listed patterns matches a path.
pub open spec fn matched(list: Seq<JsonView>, path: Seq<char>) -> bool {
    exists|k: int| 0 <= k < list.len() && glob_matches((#[trigger] list[k])->Str_0, path)
}

/// Whether a value is a list of paths, each of which matches an allowed pattern and no denied one.
pub open spec fn only_allowed_paths(params: JsonView, value: JsonView) -> bool {
    &&& params matches JsonView::Object(p) && value matches JsonView::Array(items) && {
        &&& listed(p, "allow"@).len() > 0
        &&& usable(listed(p, "allow"@))
        &&& lookup(p, "deny"@) is Some ==> usable(listed(p, "deny"@))
        &&& forall|k: int|
            0 <= k < items.len() ==> (#[trigger] items[k] matches JsonView::Str(path) && matched(
                listed(p, "allow"@),
                path,
            ) && !matched(listed(p, "deny"@), path))
    }
}

/// What a reference into the context stands for: the value behind its parts.
pub open spec fn referred(path: Seq<char>, context: JsonView) -> Option<JsonView> {
    let head = "$.context."@;
    if head.len() <= path.len() && path.take(head.len() as int) == head {
        let tail = path.skip(head.len() as int);
        pointed(
            context,
            seq!['/'] + Seq::new(
                tail.len(),
                |k: int|
                    if tail[k] == '.' {
                        '/'
                    } else {
                        tail[k]
                    },
            ),
        )
    } else {
        None
    }
}

/// Whether a value is a list, each element of which is in the list that is referred to.
pub open spec fn only_members(params: JsonView, value: JsonView, context: JsonView) -> bool {
    &&& params matches JsonView::Str(path) && value matches JsonView::Array(items) && referred(
        path,
        context,
    ) matches Some(JsonView::Array(list)) && forall|k: int|
        0 <= k < items.len() ==> exists|m: int|
            0 <= m < list.len() && same_value(#[trigger] list[m], #[trigger] items[k])
}

/// Whether a value keeps one constraint.
pub open spec fn keeps(
    kind: Seq<char>,
    params: JsonView,
    value: JsonView,
    context: JsonView,
) -> bool {
    if kind == "path_allowlist"@ {
        only_allowed_paths(params, value)
    } else {
        kind == "subset_of"@ && only_members(params, value, context)
    }
}

/// Whether a value keeps all constraints that the declaration of its slot has.
pub open spec fn keeps_all(decl: Option<JsonView>, value: JsonView, context: JsonView) -> bool {
    match decl {
        Some(d) => match d.get("constraint"@) {
            Some(JsonView::Object(block)) => forall|k: int|
                0 <= k < block.len() ==> keeps((#[trigger] block[k]).0, block[k].1, value, context),
            _ => true,
        },
        None => true,
    }
}

proof fn lemma_declared_slot(definition: JsonView, state: Seq<char>, slot: Seq<char>)
    ensures
        slot_declaration(definition, state, slot) == declared_slot(definition, state, slot),
{
    let path = seq!["states"@, state];
    reveal_with_fuel(JsonView::at, 3);
    assert(path.drop_first() =~= seq![state]);
    assert(path.drop_first().drop_first() =~= Seq::empty());
    assert(state_def(definition, state) == definition.at(path));
}

proof fn lemma_glob_set(p: Members, slot: Seq<char>, field: Seq<char>)
    ensures
        glob_set(lookup(p, field), slot, field) is Ok <==> usable(listed(p, field)),
        glob_set(lookup(p, field), slot, field) matches Ok(set) ==> set.len() == listed(
            p,
            field,
        ).len() && forall|k: int| 0 <= k < set.len() ==> #[trigger] set[k] == listed(p, field)[k]->Str_0,
{
    let a = elements(lookup(p, field));
    assert(a == listed(p, field));
    let f = |i: int| pattern_fault(a[i], i, slot, field);
    lemma_found_nowhere(a.len(), f);
    let texts = Seq::new(a.len(), |k: int| a[k]->Str_0);
    if first_some(a.len(), f) is None {
        assert forall|k: int| 0 <= k < a.len() implies (#[trigger] a[k] matches JsonView::Str(s)
            && glob_error(s) is None) by {
            assert(f(k) is None);
        }
        assert(strings(a) =~= texts);
    } else {
        let k = lemma_found_at(a.len(), f);
        assert(!(a[k] matches JsonView::Str(s) && glob_error(s) is None));
    }
}

proof fn lemma_matched(set: Seq<Seq<char>>, list: Seq<JsonView>, path: Seq<char>)
    requires
        set.len() == list.len(),
        forall|k: int| 0 <= k < set.len() ==> #[trigger] set[k] == list[k]->Str_0,
    ensures
        crate::slot::globs::some_matches(set, path) == matched(list, path),
{
    if crate::slot::globs::some_matches(set, path) {
        let k = choose|k: int| 0 <= k < set.len() && glob_matches(#[trigger] set[k], path);
        assert(glob_matches(list[k]->Str_0, path));
    }
    if matched(list, path) {
        let k = choose|k: int| 0 <= k < list.len() && glob_matches((#[trigger] list[k])->Str_0, path);
        assert(glob_matches(set[k], path));
    }
}

proof fn lemma_allowlist(slot: Seq<char>, params: JsonView, value: JsonView)
    ensures
        allowlist_fault(slot, params, value) is None <==> only_allowed_paths(params, value),
{
    if let JsonView::Object(p) = params {
        if let JsonView::Array(items) = value {
            lemma_glob_set(p, slot, "allow"@);
            lemma_glob_set(p, slot, "deny"@);
            if let Ok(allow) = glob_set(lookup(p, "allow"@), slot, "allow"@) {
                let deny = if lookup(p, "deny"@) is Some {
                    match glob_set(lookup(p, "deny"@), slot, "deny"@) {
                        Ok(d) => Some(d),
                        Err(_) => None,
                    }
                } else {
                    None
                };
                let f = |i: int| path_fault(items[i], i, slot, allow, deny);
                lemma_found_nowhere(items.len(), f);
                assert forall|k: int| 0 <= k < items.len() implies (f(k) is None) == (
                #[trigger] items[k] matches JsonView::Str(path) && matched(listed(p, "allow"@), path)
                    && !(deny is Some && matched(listed(p, "deny"@), path))) by {
                    if let JsonView::Str(path) = items[k] {
                        lemma_matched(allow, listed(p, "allow"@), path);
                        if let Some(d) = deny {
                            lemma_matched(d, listed(p, "deny"@), path);
                        }
                    }
                }
                if lookup(p, "deny"@) is None {
                    assert(listed(p, "deny"@).len() == 0);
                    let g = |i: int| path_fault(items[i], i, slot, allow, None);
                    assert(f =~= g);
                } else if let Some(d) = deny {
                    let g = |i: int| path_fault(items[i], i, slot, allow, Some(d));
                    assert(f =~= g);
                }
                assert(first_some(items.len(), f) is None <==> forall|k: int|
                    0 <= k < items.len() ==> (#[trigger] items[k] matches JsonView::Str(path)
                        && matched(listed(p, "allow"@), path) && !(deny is Some && matched(
                        listed(p, "deny"@),
                        path,
                    )))) by {
                    if first_some(items.len(), f) is None {
                        assert forall|k: int| 0 <= k < items.len() implies (
                        #[trigger] items[k] matches JsonView::Str(path) && matched(
                            listed(p, "allow"@),
                            path,
                        ) && !(deny is Some && matched(listed(p, "deny"@), path))) by {
                            assert(f(k) is None);
                        }
                    } else {
                        let k = lemma_found_at(items.len(), f);
                        assert(f(k) is Some);
                        assert(!(items[k] matches JsonView::Str(path) && matched(
                            listed(p, "allow"@),
                            path,
                        ) && !(deny is Some && matched(listed(p, "deny"@), path))));
                    }
                }
            }
        }
    }
}

proof fn lemma_referred(path: Seq<char>, context: JsonView)
    ensures
        resolved(path, context) == referred(path, context),
{
    let head = "$.context."@;
    assert(head.is_prefix_of(path) == (head.len() <= path.len() && path.take(head.len() as int)
        == head)) by {
        if head.len() <= path.len() {
            assert(path.subrange(0, head.len() as int) =~= path.take(head.len() as int));
        }
    }
    if head.is_prefix_of(path) {
        let tail = path.skip(head.len() as int);
        assert(replaced(tail, '.', '/') =~= Seq::new(
            tail.len(),
            |k: int|
                if tail[k] == '.' {
                    '/'
                } else {
                    tail[k]
                },
        ));
    }
}

proof fn lemma_subset(slot: Seq<char>, params: JsonView, value: JsonView, context: JsonView)
    ensures
        subset_fault(slot, params, value, context) is None <==> only_members(params, value, context),
{
    if let JsonView::Str(path) = params {
        lemma_referred(path, context);
        if let JsonView::Array(items) = value {
            if let Some(JsonView::Array(list)) = resolved(path, context) {
                let f = |i: int| member_fault(items[i], i, slot, path, list);
                lemma_found_nowhere(items.len(), f);
                if first_some(items.len(), f) is None {
                    assert forall|k: int| 0 <= k < items.len() implies exists|m: int|
                        0 <= m < list.len() && same_value(#[trigger] list[m], #[trigger] items[k]) by {
                        assert(f(k) is None);
                        assert(has_value(list, items[k]));
                    }
                } else {
                    let k = lemma_found_at(items.len(), f);
                    assert(!has_value(list, items[k]));
                }
            }
        }
    }
}

proof fn lemma_kind(
    slot: Seq<char>,
    kind: Seq<char>,
    params: JsonView,
    value: JsonView,
    context: JsonView,
)
    ensures
        kind_fault(slot, kind, params, value, context) is None <==> keeps(
            kind,
            params,
            value,
            context,
        ),
        kind_fault(slot, kind, params, value, context) matches Some(v) ==> v.slot == slot
            && v.constraint_kind == kind,
{
    lemma_allowlist(slot, params, value);
    lemma_subset(slot, params, value, context);
}

proof fn lemma_slot(
    definition: JsonView,
    state: Seq<char>,
    slot: Seq<char>,
    value: JsonView,
    context: JsonView,
)
    ensures
        slot_fault(definition, state, slot, value, context) is None <==> keeps_all(
            declared_slot(definition, state, slot),
            value,
            context,
        ),
        slot_fault(definition, state, slot, value, context) matches Some(v) ==> {
            &&& v.slot == slot
            &&& declared_slot(definition, state, slot) matches Some(d) && d.get("constraint"@) matches Some(
                JsonView::Object(block),
            ) && exists|k: int|
                0 <= k < block.len() && (#[trigger] block[k]).0 == v.constraint_kind && !keeps(
                    block[k].0,
                    block[k].1,
                    value,
                    context,
                )
        },
{
    lemma_declared_slot(definition, state, slot);
    if let Some(d) = declared_slot(definition, state, slot) {
        if let Some(block) = d.get_object("constraint"@) {
            let f = |i: int| kind_fault(slot, block[i].0, block[i].1, value, context);
            lemma_found_nowhere(block.len(), f);
            assert forall|k: int| 0 <= k < block.len() implies (f(k) is None) == keeps(
                (#[trigger] block[k]).0,
                block[k].1,
                value,
                context,
            ) by {
                lemma_kind(slot, block[k].0, block[k].1, value, context);
            }
            if first_some(block.len(), f) is Some {
                let k = lemma_found_at(block.len(), f);
                lemma_kind(slot, block[k].0, block[k].1, value, context);
                assert(!keeps(block[k].0, block[k].1, value, context));
            } else {
                assert forall|k: int| 0 <= k < block.len() implies keeps(
                    (#[trigger] block[k]).0,
                    block[k].1,
                    value,
                    context,
                ) by {
                    assert(f(k) is None);
                }
            }
        }
    }
}

/// A context is accepted if and only if the value of every slot keeps all constraints that the slot
/// declares, on the blackboard or, where the blackboard does not declare it, in the state: every
/// path of a list matches an allowed pattern and no denied one, every member of a part is in the
/// whole, and there is no constraint of another kind.
pub proof fn law_accepted_contexts_keep_their_constraints(
    definition: JsonView,
    state: Seq<char>,
    m: Members,
)
    ensures
        first_violation(definition, state, JsonView::Object(m)) is None <==> forall|k: int|
            0 <= k < m.len() ==> keeps_all(
                declared_slot(definition, state, (#[trigger] m[k]).0),
                m[k].1,
                JsonView::Object(m),
            ),
{
    let context = JsonView::Object(m);
    let f = |i: int| slot_fault(definition, state, m[i].0, m[i].1, context);
    lemma_found_nowhere(m.len(), f);
    assert forall|k: int| 0 <= k < m.len() implies (f(k) is None) == keeps_all(
        declared_slot(definition, state, (#[trigger] m[k]).0),
        m[k].1,
        context,
    ) by {
        lemma_slot(definition, state, m[k].0, m[k].1, context);
    }
    if first_some(m.len(), f) is Some {
        let k = lemma_found_at(m.len(), f);
        assert(!keeps_all(declared_slot(definition, state, m[k].0), m[k].1, context));
    } else {
        assert forall|k: int| 0 <= k < m.len() implies keeps_all(
            declared_slot(definition, state, (#[trigger] m[k]).0),
            m[k].1,
            context,
        ) by {
            assert(f(k) is None);
        }
    }
}

/// What is told of a context that is refused: the first slot whose value breaks one of its
/// constraints, and the kind of a constraint that it breaks.
pub proof fn law_violations_name_what_is_broken(
    definition: JsonView,
    state: Seq<char>,
    m: Members,
)
    ensures
        first_violation(definition, state, JsonView::Object(m)) matches Some(v) ==> exists|k: int|
            0 <= k < m.len() && (#[trigger] m[k]).0 == v.slot && {
                &&& declared_slot(definition, state, m[k].0) matches Some(d) && d.get("constraint"@) matches Some(
                    JsonView::Object(block),
                ) && exists|n: int|
                    0 <= n < block.len() && (#[trigger] block[n]).0 == v.constraint_kind && !keeps(
                        block[n].0,
                        block[n].1,
                        m[k].1,
                        JsonView::Object(m),
                    )
                &&& forall|j: int|
                    0 <= j < k ==> keeps_all(
                        declared_slot(definition, state, (#[trigger] m[j]).0),
                        m[j].1,
                        JsonView::Object(m),
                    )
            },
{
    let context = JsonView::Object(m);
    if let Some(v) = first_violation(definition, state, context) {
        let f = |i: int| slot_fault(definition, state, m[i].0, m[i].1, context);
        let k = lemma_found_at(m.len(), f);
        lemma_slot(definition, state, m[k].0, m[k].1, context);
        assert forall|j: int| 0 <= j < k implies keeps_all(
            declared_slot(definition, state, (#[trigger] m[j]).0),
            m[j].1,
            context,
        ) by {
            assert(f(j) is None);
            lemma_slot(definition, state, m[j].0, m[j].1, context);
        }
        assert(m[k].0 == v.slot);
    }
}

/// Whether a declared constraint can be used: a list of allowed paths has at least one pattern, and
/// nothing but patterns; a part refers to a path.
pub open spec fn usable_constraint(kind: Seq<char>, params: JsonView) -> bool {
    if kind == "path_allowlist"@ {
        params matches JsonView::Object(p) && lookup(p, "allow"@) is Some && lookup(
            p,
            "allow"@,
        )->0 is Array && listed(p, "allow"@).len() > 0 && only_patterns(listed(p, "allow"@))
            && only_patterns(listed(p, "deny"@))
    } else {
        kind == "subset_of"@ && params is Str
    }
}

/// Whether all that is listed are patterns.
pub open spec fn only_patterns(list: Seq<JsonView>) -> bool {
    forall|k: int|
        0 <= k < list.len() ==> (#[trigger] list[k] matches JsonView::Str(s) && glob_error(s) is None)
}

/// Whether what a slot declares can be used: its constraints, if it has any, are not empty, and each
/// can be used.
pub open spec fn usable_declaration(decl: JsonView) -> bool {
    match decl.get("constraint"@) {
        Some(JsonView::Object(block)) => block.len() > 0 && forall|k: int|
            0 <= k < block.len() ==> usable_constraint((#[trigger] block[k]).0, block[k].1),
        _ => true,
    }
}

/// Whether slots can be used: given by name, each as it declares; given as a list, none with a
/// constraint.
pub open spec fn usable_slots(slots: Option<JsonView>) -> bool {
    match slots {
        Some(JsonView::Object(m)) => forall|k: int|
            0 <= k < m.len() ==> usable_declaration((#[trigger] m[k]).1),
        Some(JsonView::Array(a)) => forall|k: int|
            0 <= k < a.len() ==> (#[trigger] a[k]).get("constraint"@) is None,
        _ => true,
    }
}

proof fn lemma_patterns(a: Seq<JsonView>, slot: Seq<char>, field: Seq<char>)
    ensures
        declared_patterns_fault(a, slot, field) is None <==> only_patterns(a),
{
    let f = |i: int| declared_pattern_fault(a[i], i, slot, field);
    lemma_found_nowhere(a.len(), f);
    if first_some(a.len(), f) is None {
        assert forall|k: int| 0 <= k < a.len() implies (#[trigger] a[k] matches JsonView::Str(s)
            && glob_error(s) is None) by {
            assert(f(k) is None);
        }
    } else {
        let k = lemma_found_at(a.len(), f);
        assert(!(a[k] matches JsonView::Str(s) && glob_error(s) is None));
    }
}

proof fn lemma_declaration(slot: Seq<char>, decl: JsonView)
    ensures
        declaration_fault(slot, decl) is None <==> usable_declaration(decl),
{
    if let Some(block) = decl.get_object("constraint"@) {
        let f = |i: int| declared_kind_fault(slot, block[i].0, block[i].1);
        lemma_found_nowhere(block.len(), f);
        assert forall|k: int| 0 <= k < block.len() implies (f(k) is None) == usable_constraint(
            (#[trigger] block[k]).0,
            block[k].1,
        ) by {
            if let JsonView::Object(p) = block[k].1 {
                lemma_patterns(listed(p, "allow"@), slot, "allow"@);
                lemma_patterns(listed(p, "deny"@), slot, "deny"@);
            }
        }
        if first_some(block.len(), f) is Some {
            let k = lemma_found_at(block.len(), f);
            assert(!usable_constraint(block[k].0, block[k].1));
        } else {
            assert forall|k: int| 0 <= k < block.len() implies usable_constraint(
                (#[trigger] block[k]).0,
                block[k].1,
            ) by {
                assert(f(k) is None);
            }
        }
    }
}

proof fn lemma_slots(slots: Option<JsonView>, prefix: Seq<char>, scope: Seq<char>)
    ensures
        slots_fault(slots, prefix, scope) is None <==> usable_slots(slots),
{
    match slots {
        Some(JsonView::Object(m)) => {
            let f = |i: int| declaration_fault(prefix + m[i].0, m[i].1);
            lemma_found_nowhere(m.len(), f);
            assert forall|k: int| 0 <= k < m.len() implies (f(k) is None) == usable_declaration(
                (#[trigger] m[k]).1,
            ) by {
                lemma_declaration(prefix + m[k].0, m[k].1);
            }
            if first_some(m.len(), f) is Some {
                let k = lemma_found_at(m.len(), f);
                assert(!usable_declaration(m[k].1));
            } else {
                assert forall|k: int| 0 <= k < m.len() implies usable_declaration(
                    (#[trigger] m[k]).1,
                ) by {
                    assert(f(k) is None);
                }
            }
        },
        Some(JsonView::Array(a)) => {
            let f = |i: int| element_fault(scope, a[i]);
            lemma_found_nowhere(a.len(), f);
            if first_some(a.len(), f) is Some {
                let k = lemma_found_at(a.len(), f);
                assert(a[k].get("constraint"@) is Some);
            } else {
                assert forall|k: int| 0 <= k < a.len() implies (#[trigger] a[k]).get("constraint"@)
                    is None by {
                    assert(f(k) is None);
                }
            }
        },
        _ => {},
    }
}

/// A definition is found in order if and only if the constraints that it declares can be used, those
/// of the blackboard and those of every state.
pub proof fn law_declared_constraints_are_usable(definition: JsonView)
    ensures
        definition_fault(definition) is None <==> {
            &&& usable_slots(definition.get("blackboard"@))
            &&& definition.get("states"@) matches Some(JsonView::Object(states)) ==> forall|k: int|
                0 <= k < states.len() ==> usable_slots((#[trigger] states[k]).1.get("slots"@))
        },
{
    lemma_slots(definition.get("blackboard"@), Seq::empty(), "blackboard"@);
    if let Some(states) = definition.get_object("states"@) {
        let f = |i: int|
            slots_fault(
                states[i].1.get("slots"@),
                states[i].0 + "."@,
                "states."@ + states[i].0 + ".slots"@,
            );
        lemma_found_nowhere(states.len(), f);
        assert forall|k: int| 0 <= k < states.len() implies (f(k) is None) == usable_slots(
            (#[trigger] states[k]).1.get("slots"@),
        ) by {
            lemma_slots(
                states[k].1.get("slots"@),
                states[k].0 + "."@,
                "states."@ + states[k].0 + ".slots"@,
            );
        }
        if first_some(states.len(), f) is Some {
            let k = lemma_found_at(states.len(), f);
            assert(!usable_slots(states[k].1.get("slots"@)));
        } else {
            assert forall|k: int| 0 <= k < states.len() implies usable_slots(
                (#[trigger] states[k]).1.get("slots"@),
            ) by {
                assert(f(k) is None);
            }
        }
    }
}

} // verus!
