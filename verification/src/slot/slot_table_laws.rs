//! What the slots of a flow are, and when something is wrong with them.

use vstd::prelude::*;

use crate::json::{lemma_put_lookup, lookup, put, Entries, JsonView, Members};
use crate::json_text::compact;
use crate::slot::slot_table::{
    context_path, flow_slots, input_slots, joined_slot, mapped_outputs, with_output, with_outputs,
    with_states, with_transitions, BuildView, SlotView, SourceView,
};

verus! {

/// An output of a capability that a state maps to a slot.
pub struct WriteView {
    pub state: Seq<char>,
    pub path: Seq<char>,
    pub output: Seq<char>,
    pub target: Seq<char>,
}

/// The outputs of a capability that are mapped by a name, in their order.
pub open spec fn output_writes(state: Seq<char>, target: Seq<char>, outputs: Members) -> Seq<
    WriteView,
>
    decreases outputs.len(),
{
    if outputs.len() == 0 {
        Seq::empty()
    } else {
        let before = output_writes(state, target, outputs.drop_last());
        match outputs.last().1.as_str() {
            Some(output) => before.push(
                WriteView { state, path: outputs.last().0, output, target },
            ),
            None => before,
        }
    }
}

/// What the transitions of a state map, in their order.
pub open spec fn transition_writes(state: Seq<char>, ts: Members) -> Seq<WriteView>
    decreases ts.len(),
{
    if ts.len() == 0 {
        Seq::empty()
    } else {
        let before = transition_writes(state, ts.drop_last());
        match mapped_outputs(ts.last().1) {
            Some((target, outputs)) => before + output_writes(state, target, outputs),
            None => before,
        }
    }
}

/// What the states map, in their order.
pub open spec fn state_writes(states: Members) -> Seq<WriteView>
    decreases states.len(),
{
    if states.len() == 0 {
        Seq::empty()
    } else {
        let before = state_writes(states.drop_last());
        match states.last().1.get_object("transitions"@) {
            Some(ts) => before + transition_writes(states.last().0, ts),
            None => before,
        }
    }
}

/// All that the states of a flow map to slots.
pub open spec fn flow_writes(flow: JsonView) -> Seq<WriteView> {
    match flow.get_object("states"@) {
        Some(states) => state_writes(states),
        None => Seq::empty(),
    }
}

/// The slots that the inputs of a flow declare.
pub open spec fn declared_inputs(flow: JsonView) -> Entries<SlotView> {
    match flow.get_object("inputs"@) {
        Some(inputs) => input_slots(inputs),
        None => Seq::empty(),
    }
}

/// The type of what is mapped, if there is such a capability with such an output.
pub open spec fn written_type(w: WriteView, caps: Members) -> Option<JsonView> {
    match lookup(caps, w.target) {
        Some(snippet) => snippet.get(w.output),
        None => None,
    }
}

/// Whether two types are the same, as their compact texts show them.
pub open spec fn same_type(a: Option<JsonView>, b: Option<JsonView>) -> bool {
    match (a, b) {
        (Some(x), Some(y)) => compact(x) == compact(y),
        _ => false,
    }
}

/// Whether nothing is wrong with what is mapped: all of it has a type, and all sources of one
/// slot have the same, the inputs among them.
pub open spec fn all_agree(start: Entries<SlotView>, ws: Seq<WriteView>, caps: Members) -> bool {
    &&& forall|k: int| 0 <= k < ws.len() ==> written_type(#[trigger] ws[k], caps) is Some
    &&& forall|k: int|
        0 <= k < ws.len() ==> (lookup(start, (#[trigger] ws[k]).path) matches Some(slot)
            ==> same_type(Some(slot.schema), written_type(ws[k], caps)))
    &&& forall|j: int, k: int|
        0 <= j < k < ws.len() && (#[trigger] ws[j]).path == (#[trigger] ws[k]).path ==> same_type(
            written_type(ws[j], caps),
            written_type(ws[k], caps),
        )
}

/// Whether something is mapped to a slot.
pub open spec fn is_written(ws: Seq<WriteView>, p: Seq<char>) -> bool {
    exists|k: int| 0 <= k < ws.len() && (#[trigger] ws[k]).path == p
}

spec fn with_write(b: BuildView, w: WriteView, caps: Members) -> BuildView {
    with_output(b, w.state, w.target, lookup(caps, w.target), w.path, JsonView::Str(w.output))
}

spec fn with_writes(b: BuildView, ws: Seq<WriteView>, caps: Members) -> BuildView
    decreases ws.len(),
{
    if ws.len() == 0 {
        b
    } else {
        with_write(with_writes(b, ws.drop_last(), caps), ws.last(), caps)
    }
}

proof fn lemma_writes_add(b: BuildView, u: Seq<WriteView>, v: Seq<WriteView>, caps: Members)
    ensures
        with_writes(b, u + v, caps) == with_writes(with_writes(b, u, caps), v, caps),
    decreases v.len(),
{
    if v.len() == 0 {
        assert(u + v =~= u);
    } else {
        lemma_writes_add(b, u, v.drop_last(), caps);
        assert((u + v).drop_last() =~= u + v.drop_last());
        assert((u + v).last() == v.last());
    }
}

proof fn lemma_output_writes(
    b: BuildView,
    state: Seq<char>,
    target: Seq<char>,
    outputs: Members,
    caps: Members,
)
    ensures
        with_outputs(b, state, target, lookup(caps, target), outputs) == with_writes(
            b,
            output_writes(state, target, outputs),
            caps,
        ),
    decreases outputs.len(),
{
    if outputs.len() > 0 {
        lemma_output_writes(b, state, target, outputs.drop_last(), caps);
        if let Some(output) = outputs.last().1.as_str() {
            let before = output_writes(state, target, outputs.drop_last());
            let w = WriteView { state, path: outputs.last().0, output, target };
            assert(before.push(w).drop_last() =~= before);
            assert(outputs.last().1 == JsonView::Str(output));
        }
    }
}

proof fn lemma_transition_writes(b: BuildView, state: Seq<char>, ts: Members, caps: Members)
    ensures
        with_transitions(b, state, ts, caps) == with_writes(b, transition_writes(state, ts), caps),
    decreases ts.len(),
{
    if ts.len() > 0 {
        lemma_transition_writes(b, state, ts.drop_last(), caps);
        if let Some((target, outputs)) = mapped_outputs(ts.last().1) {
            let u = transition_writes(state, ts.drop_last());
            lemma_output_writes(with_writes(b, u, caps), state, target, outputs, caps);
            lemma_writes_add(b, u, output_writes(state, target, outputs), caps);
        }
    }
}

proof fn lemma_state_writes(b: BuildView, states: Members, caps: Members)
    ensures
        with_states(b, states, caps) == with_writes(b, state_writes(states), caps),
    decreases states.len(),
{
    if states.len() > 0 {
        lemma_state_writes(b, states.drop_last(), caps);
        if let Some(ts) = states.last().1.get_object("transitions"@) {
            let u = state_writes(states.drop_last());
            lemma_transition_writes(with_writes(b, u, caps), states.last().0, ts, caps);
            lemma_writes_add(b, u, transition_writes(states.last().0, ts), caps);
        }
    }
}

/// What a table holds after all that is mapped agreed: what it held before, and the mapped slots,
/// each with the type of all its sources.
spec fn holds(
    table: Entries<SlotView>,
    start: Entries<SlotView>,
    ws: Seq<WriteView>,
    caps: Members,
) -> bool {
    &&& forall|p: Seq<char>| #[trigger]
        lookup(table, p) is Some <==> lookup(start, p) is Some || is_written(ws, p)
    &&& forall|p: Seq<char>| #[trigger]
        lookup(start, p) is Some ==> lookup(table, p) == lookup(start, p)
    &&& forall|k: int|
        0 <= k < ws.len() ==> same_type(
            Some(lookup(table, (#[trigger] ws[k]).path)->0.schema),
            written_type(ws[k], caps),
        )
}

proof fn lemma_writes(start: Entries<SlotView>, ws: Seq<WriteView>, caps: Members)
    ensures
        ({
            let b = with_writes(BuildView { table: start, errors: Seq::empty() }, ws, caps);
            &&& b.errors.len() == 0 <==> all_agree(start, ws, caps)
            &&& b.errors.len() == 0 ==> holds(b.table, start, ws, caps)
        }),
    decreases ws.len(),
{
    let b0 = BuildView { table: start, errors: Seq::empty() };
    let b = with_writes(b0, ws, caps);
    if ws.len() == 0 {
        assert(forall|p: Seq<char>| !is_written(ws, p));
    } else {
        let init = ws.drop_last();
        let w = ws.last();
        let before = with_writes(b0, init, caps);
        let n = ws.len() - 1;
        lemma_writes(start, init, caps);
        if all_agree(start, ws, caps) {
            assert(all_agree(start, init, caps)) by {
                assert forall|k: int| 0 <= k < init.len() implies written_type(
                    #[trigger] init[k],
                    caps,
                ) is Some by {
                    assert(init[k] == ws[k]);
                }
                assert forall|k: int| 0 <= k < init.len() implies (lookup(
                    start,
                    (#[trigger] init[k]).path,
                ) matches Some(slot) ==> same_type(
                    Some(slot.schema),
                    written_type(init[k], caps),
                )) by {
                    assert(init[k] == ws[k]);
                }
                assert forall|j: int, k: int|
                    0 <= j < k < init.len() && (#[trigger] init[j]).path == (
                    #[trigger] init[k]).path implies same_type(
                    written_type(init[j], caps),
                    written_type(init[k], caps),
                ) by {
                    assert(init[j] == ws[j] && init[k] == ws[k]);
                }
            }
            assert(written_type(ws[n], caps) is Some);
        }
        if before.errors.len() == 0 {
            if let Some(schema) = written_type(w, caps) {
                let slot = SlotView { schema, source: SourceView::State(w.state) };
                assert(b == joined_slot(before, w.path, slot));
                lemma_one_more_write(before.table, start, ws, caps);
            }
        }
    }
}

proof fn lemma_one_more_write(
    table: Entries<SlotView>,
    start: Entries<SlotView>,
    ws: Seq<WriteView>,
    caps: Members,
)
    requires
        ws.len() > 0,
        holds(table, start, ws.drop_last(), caps),
        all_agree(start, ws.drop_last(), caps),
        written_type(ws.last(), caps) is Some,
    ensures
        ({
            let w = ws.last();
            let slot = SlotView {
                schema: written_type(w, caps)->0,
                source: SourceView::State(w.state),
            };
            match lookup(table, w.path) {
                Some(existing) => {
                    &&& compact(existing.schema) == compact(slot.schema) <==> all_agree(
                        start,
                        ws,
                        caps,
                    )
                    &&& all_agree(start, ws, caps) ==> holds(table, start, ws, caps)
                },
                None => {
                    &&& all_agree(start, ws, caps)
                    &&& holds(put(table, w.path, slot), start, ws, caps)
                },
            }
        }),
{
    let init = ws.drop_last();
    let n = ws.len() - 1;
    let w = ws[n];
    let slot = SlotView { schema: written_type(w, caps)->0, source: SourceView::State(w.state) };
    assert forall|k: int| 0 <= k < n implies #[trigger] ws[k] == init[k] by {}
    assert forall|p: Seq<char>| #[trigger]
        is_written(ws, p) <==> is_written(init, p) || p == w.path by {
        if is_written(ws, p) {
            let k = choose|k: int| 0 <= k < ws.len() && (#[trigger] ws[k]).path == p;
            if k < n {
                assert(init[k].path == p);
            }
        }
        if is_written(init, p) {
            let k = choose|k: int| 0 <= k < init.len() && (#[trigger] init[k]).path == p;
            assert(ws[k].path == p);
        }
        assert(ws[n].path == w.path);
    }
    match lookup(table, w.path) {
        Some(existing) => {
            if all_agree(start, ws, caps) {
                assert(compact(existing.schema) == compact(slot.schema)) by {
                    if lookup(start, w.path) is Some {
                        assert(lookup(start, ws[n].path) == lookup(table, w.path));
                    } else {
                        assert(is_written(init, w.path));
                        let j = choose|j: int| 0 <= j < init.len() && (#[trigger] init[j]).path
                            == w.path;
                        assert(ws[j].path == ws[n].path);
                        assert(same_type(written_type(ws[j], caps), written_type(ws[n], caps)));
                    }
                }
            }
            if compact(existing.schema) == compact(slot.schema) {
                lemma_agree_with_one_more(table, start, ws, caps);
                assert forall|k: int| 0 <= k < ws.len() implies same_type(
                    Some(lookup(table, (#[trigger] ws[k]).path)->0.schema),
                    written_type(ws[k], caps),
                ) by {
                    if k < n {
                        assert(same_type(
                            Some(lookup(table, init[k].path)->0.schema),
                            written_type(init[k], caps),
                        ));
                    }
                }
            }
        },
        None => {
            let more = put(table, w.path, slot);
            assert forall|p: Seq<char>|
                #![trigger lookup(more, p)]
                (p == w.path ==> lookup(more, p) == Some(slot)) && (p != w.path ==> lookup(more, p)
                    == lookup(table, p)) by {
                lemma_put_lookup(table, w.path, slot, p);
            }
            assert(lookup(more, w.path) == Some(slot));
            assert forall|k: int| 0 <= k < n implies (#[trigger] ws[k]).path != w.path by {
                assert(init[k].path == ws[k].path);
                if ws[k].path == w.path {
                    assert(is_written(init, w.path));
                }
            }
            assert(lookup(start, w.path) is None);
            lemma_agree_with_one_more(more, start, ws, caps);
            assert forall|k: int| 0 <= k < ws.len() implies same_type(
                Some(lookup(more, (#[trigger] ws[k]).path)->0.schema),
                written_type(ws[k], caps),
            ) by {
                if k < n {
                    assert(same_type(
                        Some(lookup(table, init[k].path)->0.schema),
                        written_type(init[k], caps),
                    ));
                    assert(lookup(more, ws[k].path) == lookup(table, ws[k].path));
                }
            }
            assert forall|p: Seq<char>| #[trigger] lookup(start, p) is Some implies lookup(more, p)
                == lookup(start, p) by {
                assert(lookup(table, p) == lookup(start, p));
            }
        },
    }
}

proof fn lemma_agree_with_one_more(
    table: Entries<SlotView>,
    start: Entries<SlotView>,
    ws: Seq<WriteView>,
    caps: Members,
)
    requires
        ws.len() > 0,
        all_agree(start, ws.drop_last(), caps),
        written_type(ws.last(), caps) is Some,
        lookup(table, ws.last().path) is Some,
        same_type(Some(lookup(table, ws.last().path)->0.schema), written_type(ws.last(), caps)),
        lookup(start, ws.last().path) is Some ==> lookup(table, ws.last().path) == lookup(
            start,
            ws.last().path,
        ),
        forall|k: int|
            0 <= k < ws.len() - 1 && (#[trigger] ws[k]).path == ws.last().path ==> same_type(
                Some(lookup(table, ws.last().path)->0.schema),
                written_type(ws[k], caps),
            ),
    ensures
        all_agree(start, ws, caps),
{
    let init = ws.drop_last();
    let n = ws.len() - 1;
    assert forall|k: int| 0 <= k < ws.len() implies written_type(
        #[trigger] ws[k],
        caps,
    ) is Some by {
        if k < n {
            assert(written_type(init[k], caps) is Some);
        }
    }
    assert forall|k: int| 0 <= k < ws.len() implies (lookup(
        start,
        (#[trigger] ws[k]).path,
    ) matches Some(slot) ==> same_type(Some(slot.schema), written_type(ws[k], caps))) by {
        if k < n {
            assert(init[k] == ws[k]);
        }
    }
    assert forall|j: int, k: int|
        0 <= j < k < ws.len() && (#[trigger] ws[j]).path == (
        #[trigger] ws[k]).path implies same_type(
        written_type(ws[j], caps),
        written_type(ws[k], caps),
    ) by {
        if k < n {
            assert(init[j] == ws[j] && init[k] == ws[k]);
        }
    }
}

/// Something is wrong with the slots of a flow if and only if an output that is mapped to a slot is
/// of no capability or none of its outputs, or two sources of one slot have different types, the
/// inputs among them.
pub proof fn law_faults_of_slots(flow: JsonView, caps: Members)
    ensures
        flow_slots(flow, caps).errors.len() == 0 <==> all_agree(
            declared_inputs(flow),
            flow_writes(flow),
            caps,
        ),
{
    let start = declared_inputs(flow);
    if let Some(states) = flow.get_object("states"@) {
        lemma_state_writes(BuildView { table: start, errors: Seq::empty() }, states, caps);
    }
    lemma_writes(start, flow_writes(flow), caps);
}

/// Where nothing is wrong, the slots of a flow are those of its inputs, as these declare them, and
/// those that its states write.
pub proof fn law_slots_of_a_flow(flow: JsonView, caps: Members, p: Seq<char>)
    requires
        flow_slots(flow, caps).errors.len() == 0,
    ensures
        lookup(flow_slots(flow, caps).table, p) is Some <==> lookup(declared_inputs(flow), p)
            is Some || is_written(flow_writes(flow), p),
        lookup(declared_inputs(flow), p) is Some ==> lookup(flow_slots(flow, caps).table, p)
            == lookup(declared_inputs(flow), p),
{
    let start = declared_inputs(flow);
    if let Some(states) = flow.get_object("states"@) {
        lemma_state_writes(BuildView { table: start, errors: Seq::empty() }, states, caps);
    }
    lemma_writes(start, flow_writes(flow), caps);
}

/// The slots of the inputs are at their names in the context, and say that they are inputs.
pub proof fn law_slots_of_inputs(inputs: Members, p: Seq<char>)
    ensures
        lookup(input_slots(inputs), p) is Some <==> exists|i: int|
            0 <= i < inputs.len() && p == context_path((#[trigger] inputs[i]).0),
        lookup(input_slots(inputs), p) matches Some(slot) ==> slot.source == SourceView::Input,
    decreases inputs.len(),
{
    if inputs.len() > 0 {
        let init = inputs.drop_last();
        let n = inputs.len() - 1;
        law_slots_of_inputs(init, p);
        lemma_put_lookup(
            input_slots(init),
            context_path(inputs.last().0),
            SlotView { schema: inputs.last().1, source: SourceView::Input },
            p,
        );
        if p == context_path(inputs[n].0) {
            assert(0 <= n < inputs.len());
        } else {
            if lookup(input_slots(init), p) is Some {
                let i = choose|i: int|
                    0 <= i < init.len() && p == context_path((#[trigger] init[i]).0);
                assert(p == context_path(inputs[i].0));
            }
            if exists|i: int| 0 <= i < inputs.len() && p == context_path((#[trigger] inputs[i]).0) {
                let i = choose|i: int|
                    0 <= i < inputs.len() && p == context_path((#[trigger] inputs[i]).0);
                assert(i < n);
                assert(p == context_path(init[i].0));
            }
        }
    }
}

} // verus!
