//! What the runtime itself keeps in the context of an instance: waits, counters, and the
//! slots that belong to one state.

use vstd::prelude::*;

use crate::json::{
    cut, lemma_cut_lookup, lemma_cut_sorted, lemma_unprefixed_lookup, lemma_unprefixed_sorted,
    lookup, number, put, sorted, unprefixed, Json, JsonMap, JsonView, Members,
};
use crate::model::WorkflowInstance;
use crate::runtime::links::{find_state, state_def, text_or};
use crate::text::{same, texts};

verus! {

/// A context with a member, where the context is an object.
pub open spec fn with_member(context: JsonView, key: Seq<char>, value: JsonView) -> JsonView {
    match context {
        JsonView::Object(m) => JsonView::Object(put(m, key, value)),
        _ => context,
    }
}

pub fn set_member(context: Json, key: &str, value: Json) -> (r: Json)
    ensures
        r@ == with_member(context@, key@, value@),
{
    match context {
        Json::Object(m) => Json::Object(m.with(key, value)),
        other => other,
    }
}

/// A context without a member, where the context is an object.
pub open spec fn without_member(context: JsonView, key: Seq<char>) -> JsonView {
    match context {
        JsonView::Object(m) => JsonView::Object(cut(m, key)),
        _ => context,
    }
}

pub fn drop_member(context: Json, key: &str) -> (r: Json)
    ensures
        r@ == without_member(context@, key@),
{
    match context {
        Json::Object(m) => {
            let mut m = m;
            m.remove(key);
            Json::Object(m)
        },
        other => other,
    }
}

/// A context that carries a wait: one that is no object is replaced.
pub open spec fn marked(context: JsonView, key: Seq<char>, wait: JsonView) -> JsonView {
    match context {
        JsonView::Object(m) => JsonView::Object(put(m, key, wait)),
        _ => JsonView::Object(put(Members::empty(), key, wait)),
    }
}

pub fn mark(context: Json, key: &str, wait: Json) -> (r: Json)
    ensures
        r@ == marked(context@, key@, wait@),
{
    match context {
        Json::Object(m) => Json::Object(m.with(key, wait)),
        _ => Json::Object(JsonMap::new().with(key, wait)),
    }
}

/// Whether a context carries a wait of a transition under a key.
pub open spec fn waits_for(context: JsonView, key: Seq<char>, transition: Seq<char>) -> bool {
    match context.get(key) {
        Some(wait) => wait.get_str("transition"@) == Some(transition),
        None => false,
    }
}

fn waits(context: &Json, key: &str, transition: &str) -> (r: bool)
    ensures
        r == waits_for(context@, key@, transition@),
{
    match context.get(key) {
        Some(wait) => match wait.get_str("transition") {
            Some(t) => same(t, transition),
            None => false,
        },
        None => false,
    }
}

/// A context without the wait of a transition; the wait of another one stays.
pub open spec fn cleared(context: JsonView, key: Seq<char>, transition: Seq<char>) -> JsonView {
    if waits_for(context, key, transition) {
        without_member(context, key)
    } else {
        context
    }
}

fn clear_wait(context: &mut Json, key: &str, transition: &str) -> (r: bool)
    ensures
        final(context)@ == cleared(old(context)@, key@, transition@),
        r == waits_for(old(context)@, key@, transition@),
{
    let found = waits(context, key, transition);
    if found {
        let mut whole = Json::Null;
        std::mem::swap(&mut whole, context);
        *context = drop_member(whole, key);
    }
    found
}

/// Drops the wait for another instance when the transition that waited goes on; says whether
/// there was one.
pub fn clear_subworkflow_wait_on_advance(context: &mut Json, resolved_transition: &str) -> (r: bool)
    ensures
        final(context)@ == cleared(old(context)@, "_subworkflow_wait"@, resolved_transition@),
        r == waits_for(old(context)@, "_subworkflow_wait"@, resolved_transition@),
{
    clear_wait(context, "_subworkflow_wait", resolved_transition)
}

/// Drops the wait for a person when the transition that waited goes on; says whether there was
/// one.
pub fn clear_agent_await_on_advance(context: &mut Json, resolved_transition: &str) -> (r: bool)
    ensures
        final(context)@ == cleared(old(context)@, "_agent_await"@, resolved_transition@),
        r == waits_for(old(context)@, "_agent_await"@, resolved_transition@),
{
    clear_wait(context, "_agent_await", resolved_transition)
}

/// A context after a transition that may have waited went on.
pub open spec fn advanced(context: JsonView, transition: Seq<char>) -> JsonView {
    cleared(cleared(context, "_subworkflow_wait"@, transition), "_agent_await"@, transition)
}

pub fn clear_waits(context: Json, transition: &str) -> (r: Json)
    ensures
        r@ == advanced(context@, transition@),
{
    let mut next = context;
    clear_subworkflow_wait_on_advance(&mut next, transition);
    clear_agent_await_on_advance(&mut next, transition);
    next
}

/// A transition that goes on takes its own waits away and leaves everything else: a wait of
/// another transition, and every other key.
pub proof fn law_only_own_waits_are_cleared(context: JsonView, transition: Seq<char>, key: Seq<char>)
    requires
        context matches JsonView::Object(m) && sorted(m),
    ensures
        advanced(context, transition).get(key) == (if (key == "_subworkflow_wait"@ || key
            == "_agent_await"@) && waits_for(context, key, transition) {
            None
        } else {
            context.get(key)
        }),
{
    reveal_strlit("_subworkflow_wait");
    reveal_strlit("_agent_await");
    assert("_subworkflow_wait"@.len() != "_agent_await"@.len());
    let m = context->Object_0;
    lemma_cut_lookup(m, "_subworkflow_wait"@, key);
    lemma_cut_lookup(m, "_subworkflow_wait"@, "_agent_await"@);
    let one = cleared(context, "_subworkflow_wait"@, transition);
    lemma_cut_sorted(m, "_subworkflow_wait"@);
    lemma_cut_lookup(one->Object_0, "_agent_await"@, key);
}

/// The wait of a transition for a person: the handle and the question.
pub open spec fn agent_await(context: JsonView, transition: Seq<char>) -> Option<
    (Seq<char>, Seq<char>),
> {
    if waits_for(context, "_agent_await"@, transition) {
        let wait = context.get("_agent_await"@)->0;
        match wait.get_str("correlation_id"@) {
            Some(c) => Some((c, text_or(wait.get_str("prompt"@), Seq::empty()))),
            None => None,
        }
    } else {
        None
    }
}

/// The wait of a transition for a person: the handle and the question.
pub fn agent_await_for(context: &Json, transition: &str) -> (r: Option<(String, String)>)
    ensures
        (match r {
            Some((c, p)) => Some((c@, p@)),
            None => None,
        }) == agent_await(context@, transition@),
{
    let wait = match context.get("_agent_await") {
        Some(w) => w,
        None => {
            return None;
        },
    };
    if !waits(context, "_agent_await", transition) {
        return None;
    }
    match wait.get_str("correlation_id") {
        Some(c) => {
            let prompt = match wait.get_str("prompt") {
                Some(p) => p.to_owned(),
                None => String::new(),
            };
            Some((c.to_owned(), prompt))
        },
        None => None,
    }
}

/// What a counter has come to; nothing where its slot holds something else.
pub open spec fn counted(context: JsonView, key: Seq<char>) -> Option<u64> {
    match context.get(key) {
        None => Some(0),
        Some(v) => v.as_u64(),
    }
}

/// That a counter's slot holds something else.
pub open spec fn counter_fault(key: Seq<char>) -> Seq<char> {
    "CORRUPT_COUNTER_SLOT: context slot '"@ + key + "' is not an unsigned integer"@
}

/// Reads a counter; one that was never written is at zero.
pub fn read_counter_slot(context: &Json, key: &str) -> (r: Result<u64, String>)
    ensures
        match r {
            Ok(n) => counted(context@, key@) == Some(n),
            Err(m) => counted(context@, key@) is None && m@ == counter_fault(key@),
        },
{
    match context.get(key) {
        None => Ok(0),
        Some(v) => match v.as_u64() {
            Some(n) => Ok(n),
            None => {
                let mut m = "CORRUPT_COUNTER_SLOT: context slot '".to_owned();
                m.append(key);
                m.append("' is not an unsigned integer");
                Err(m)
            },
        },
    }
}

/// The slot that counts how often a transition fired in a state.
pub open spec fn fire_slot(state: Seq<char>, transition: Seq<char>) -> Seq<char> {
    "_fire_count."@ + state + "."@ + transition
}

pub fn fire_key(state: &str, transition: &str) -> (r: String)
    ensures
        r@ == fire_slot(state@, transition@),
{
    let mut k = "_fire_count.".to_owned();
    k.append(state);
    k.append(".");
    k.append(transition);
    k
}

/// The slot that counts the rounds of a state's loop.
pub open spec fn iter_slot(state: Seq<char>) -> Seq<char> {
    "_while_iter."@ + state
}

pub fn while_iter_key(state: &str) -> (r: String)
    ensures
        r@ == iter_slot(state@),
{
    let mut k = "_while_iter.".to_owned();
    k.append(state);
    k
}

/// The rounds of a state's loop so far, at most as many as 32 bits can count.
pub open spec fn rounds(context: JsonView, state: Seq<char>) -> Option<u32> {
    match counted(context, iter_slot(state)) {
        Some(n) => if n <= u32::MAX {
            Some(n as u32)
        } else {
            Some(u32::MAX)
        },
        None => None,
    }
}

pub fn read_while_iter(instance: &WorkflowInstance, state: &str) -> (r: Result<u32, String>)
    ensures
        match r {
            Ok(n) => rounds(instance.context@, state@) == Some(n),
            Err(m) => rounds(instance.context@, state@) is None && m@ == counter_fault(
                iter_slot(state@),
            ),
        },
{
    let key = while_iter_key(state);
    match read_counter_slot(&instance.context, key.as_str()) {
        Ok(n) => if n <= u32::MAX as u64 {
            Ok(n as u32)
        } else {
            Ok(u32::MAX)
        },
        Err(m) => Err(m),
    }
}

/// Writes the rounds of a state's loop.
pub fn write_while_iter(instance: &mut WorkflowInstance, state: &str, value: u32)
    ensures
        final(instance)@ == (crate::model::InstanceView {
            context: with_member(
                old(instance)@.context,
                iter_slot(state@),
                number(value as u64),
            ),
            ..old(instance)@
        }),
{
    let key = while_iter_key(state);
    let mut context = Json::Null;
    std::mem::swap(&mut context, &mut instance.context);
    instance.context = set_member(context, key.as_str(), Json::uint(value as u64));
}

/// Forgets the rounds of a state's loop.
pub fn clear_while_iter(instance: &mut WorkflowInstance, state: &str)
    ensures
        final(instance)@ == (crate::model::InstanceView {
            context: without_member(old(instance)@.context, iter_slot(state@)),
            ..old(instance)@
        }),
{
    let key = while_iter_key(state);
    let mut context = Json::Null;
    std::mem::swap(&mut context, &mut instance.context);
    instance.context = drop_member(context, key.as_str());
}

/// The paths of files, as an audit entry lists them.
pub fn files_as_strings(files: &Vec<String>) -> (r: Vec<Json>)
    ensures
        crate::json::views(r@) == file_list(texts(files@)),
{
    let mut out: Vec<Json> = Vec::new();
    let mut i: usize = 0;
    while i < files.len()
        invariant
            i <= files@.len(),
            i == out@.len(),
            forall|j: int| 0 <= j < i ==> (#[trigger] out@[j])@ == JsonView::Str(files@[j]@),
        decreases files@.len() - i,
    {
        out.push(Json::text(files[i].as_str()));
        i = i + 1;
    }
    assert(crate::json::views(out@) =~= file_list(texts(files@)));
    out
}

/// Texts as values.
pub open spec fn file_list(files: Seq<Seq<char>>) -> Seq<JsonView> {
    files.map_values(|f: Seq<char>| JsonView::Str(f))
}

/// Whether a slot is declared to belong to its state alone.
pub open spec fn state_local(decl: JsonView) -> bool {
    text_or(decl.get_str("scope"@), "workflow"@) == "state"@
}

/// The slots among those declared that belong to the state alone and are set.
pub open spec fn local_slots(slots: Members, context: Members) -> Seq<Seq<char>>
    decreases slots.len(),
{
    if slots.len() == 0 {
        Seq::empty()
    } else {
        let before = local_slots(slots.drop_last(), context);
        if state_local(slots.last().1) && lookup(context, slots.last().0) is Some {
            before.push(slots.last().0)
        } else {
            before
        }
    }
}

/// Members without some keys.
pub open spec fn cut_all(m: Members, keys: Seq<Seq<char>>) -> Members
    decreases keys.len(),
{
    if keys.len() == 0 {
        m
    } else {
        cut(cut_all(m, keys.drop_last()), keys.last())
    }
}

/// The slots that are given up when a state is left.
pub open spec fn given_up(
    definition: JsonView,
    from: Seq<char>,
    target: Seq<char>,
    context: JsonView,
) -> Seq<Seq<char>> {
    if from == target {
        Seq::empty()
    } else {
        match (state_def(definition, from), context) {
            (Some(s), JsonView::Object(m)) => match s.get_object("slots"@) {
                Some(slots) => local_slots(
                    slots,
                    unprefixed(m, "_fire_count."@ + from + "."@),
                ),
                None => Seq::empty(),
            },
            _ => Seq::empty(),
        }
    }
}

/// A context after a state was left: its counters of fired transitions and its own slots
/// are gone. Nothing is lost when the state is entered again.
pub open spec fn left_behind(
    definition: JsonView,
    from: Seq<char>,
    target: Seq<char>,
    context: JsonView,
) -> JsonView {
    if from == target {
        context
    } else {
        match context {
            JsonView::Object(m) => JsonView::Object(
                cut_all(
                    unprefixed(m, "_fire_count."@ + from + "."@),
                    given_up(definition, from, target, context),
                ),
            ),
            _ => context,
        }
    }
}

fn take_local(m: &mut JsonMap, slots: &JsonMap) -> (r: Vec<String>)
    ensures
        texts(r@) == local_slots(slots@, old(m)@),
        final(m)@ == cut_all(old(m)@, texts(r@)),
{
    let mut out: Vec<String> = Vec::new();
    let mut i: usize = 0;
    let ghost start = m@;
    let whole = m.clone();
    assert(texts(out@) =~= Seq::empty());
    while i < slots.len()
        invariant
            i <= slots@.len(),
            start == old(m)@,
            whole@ == start,
            texts(out@) == local_slots(slots@.take(i as int), start),
            m@ == cut_all(start, texts(out@)),
        decreases slots@.len() - i,
    {
        let ghost next = slots@.take(i + 1);
        assert(next.drop_last() =~= slots@.take(i as int));
        assert(next.last() == slots@[i as int]);
        let name = slots.key_at(i);
        let scope = match slots.value_at(i).get_str("scope") {
            Some(s) => s,
            None => "workflow",
        };
        if same(scope, "state") && whole.contains_key(name.as_str()) {
            let ghost before = out@;
            m.remove(name.as_str());
            out.push(name.clone());
            assert(texts(out@) =~= texts(before).push(name@));
            assert(texts(out@).drop_last() =~= texts(before));
        }
        i = i + 1;
    }
    assert(slots@.take(i as int) =~= slots@);
    out
}

/// Clears what belongs to a state alone when the state is left; says which slots were
/// cleared.
pub fn clear_state_local_slots_on_exit(
    definition: &Json,
    from_state: &str,
    target: &str,
    context: Json,
) -> (r: (Json, Vec<String>))
    ensures
        r.0@ == left_behind(definition@, from_state@, target@, context@),
        texts(r.1@) == given_up(definition@, from_state@, target@, context@),
{
    let none: Vec<String> = Vec::new();
    assert(texts(none@) =~= Seq::empty());
    if same(from_state, target) {
        return (context, none);
    }
    match context {
        Json::Object(m) => {
            let mut prefix = "_fire_count.".to_owned();
            prefix.append(from_state);
            prefix.append(".");
            let mut kept = m.without_prefix(prefix.as_str());
            let gone = match find_state(definition, from_state) {
                Some(s) => match s.get_object("slots") {
                    Some(slots) => take_local(&mut kept, slots),
                    None => none,
                },
                None => none,
            };
            (Json::Object(kept), gone)
        },
        other => (other, none),
    }
}

proof fn lemma_cut_all(m: Members, keys: Seq<Seq<char>>, key: Seq<char>)
    requires
        sorted(m),
    ensures
        sorted(cut_all(m, keys)),
        lookup(cut_all(m, keys), key) == (if keys.contains(key) {
            None
        } else {
            lookup(m, key)
        }),
    decreases keys.len(),
{
    if keys.len() > 0 {
        let init = keys.drop_last();
        let before = cut_all(m, init);
        lemma_cut_all(m, init, key);
        lemma_cut_sorted(before, keys.last());
        lemma_cut_lookup(before, keys.last(), key);
        assert(init.push(keys.last()) =~= keys);
        if keys.contains(key) {
            let k = choose|k: int| 0 <= k < keys.len() && keys[k] == key;
            if k < init.len() {
                assert(init[k] == key);
            }
        } else {
            assert(keys.last() == keys[keys.len() - 1]);
            assert forall|k: int| 0 <= k < init.len() implies init[k] != key by {
                assert(init[k] == keys[k]);
            }
        }
    }
}

proof fn lemma_local_slots(slots: Members, context: Members, i: int)
    requires
        0 <= i < slots.len(),
        state_local(slots[i].1),
        lookup(context, slots[i].0) is Some,
    ensures
        local_slots(slots, context).contains(slots[i].0),
    decreases slots.len(),
{
    let before = local_slots(slots.drop_last(), context);
    let all = local_slots(slots, context);
    if i == slots.len() - 1 {
        assert(all[before.len() as int] == slots[i].0);
    } else {
        lemma_local_slots(slots.drop_last(), context, i);
        let k = choose|k: int| 0 <= k < before.len() && before[k] == slots[i].0;
        assert(all[k] == slots[i].0);
    }
}

/// A state that is left leaves none of the slots that it declares as its own.
pub proof fn law_own_slots_are_given_up(
    definition: JsonView,
    from: Seq<char>,
    target: Seq<char>,
    context: JsonView,
    slots: Members,
    i: int,
)
    requires
        context matches JsonView::Object(m) && sorted(m),
        from != target,
        state_def(definition, from) matches Some(s) && s.get_object("slots"@) == Some(slots),
        0 <= i < slots.len(),
        state_local(slots[i].1),
    ensures
        left_behind(definition, from, target, context).get(slots[i].0) is None,
{
    let m = context->Object_0;
    let prefix = "_fire_count."@ + from + "."@;
    law_only_own_slots_are_given_up(definition, from, target, context, slots[i].0);
    lemma_unprefixed_lookup(m, prefix, slots[i].0);
    if lookup(unprefixed(m, prefix), slots[i].0) is Some {
        lemma_local_slots(slots, unprefixed(m, prefix), i);
    }
}

/// A state that is left takes with it the slots that are its own and the counts of what fired
/// in it; every other key of the context stays as it was. A state that is entered again keeps
/// all.
pub proof fn law_only_own_slots_are_given_up(
    definition: JsonView,
    from: Seq<char>,
    target: Seq<char>,
    context: JsonView,
    key: Seq<char>,
)
    requires
        context matches JsonView::Object(m) && sorted(m),
    ensures
        from == target ==> left_behind(definition, from, target, context) == context,
        from != target ==> left_behind(definition, from, target, context).get(key) == (if (
        "_fire_count."@ + from + "."@).is_prefix_of(key) || given_up(
            definition,
            from,
            target,
            context,
        ).contains(key) {
            None
        } else {
            context.get(key)
        }),
{
    if from != target {
        let m = context->Object_0;
        let prefix = "_fire_count."@ + from + "."@;
        lemma_unprefixed_lookup(m, prefix, key);
        lemma_unprefixed_sorted(m, prefix);
        lemma_cut_all(
            unprefixed(m, prefix),
            given_up(definition, from, target, context),
            key,
        );
    }
}

} // verus!
