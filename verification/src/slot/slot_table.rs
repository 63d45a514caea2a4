//! The slots of a flow: which are declared as inputs, which are written by a state, and of
//! what type each is.

use vstd::prelude::*;

use crate::json::{
    lemma_lookup_at, lemma_lookup_none, lemma_put_at, lemma_sorted_insert, lemma_sorted_update,
    lookup, put, sorted, Entries, Json, JsonMap, JsonView, Members,
};
use crate::json_text::{compact, compact_text};
use crate::runtime::links::text_or;
use crate::text::{
    lemma_lt_total, lt, opt_string, same, split, split_text, strip_prefix, stripped, text_lt,
    texts,
};

verus! {

/// Where the type of a slot comes from.
pub enum SlotSource {
    /// The flow's inputs.
    Input,
    /// A state that writes the slot.
    State(String),
}

/// The model of where a type comes from.
pub enum SourceView {
    Input,
    State(Seq<char>),
}

impl SlotSource {
    pub open spec fn view(&self) -> SourceView {
        match self {
            SlotSource::Input => SourceView::Input,
            SlotSource::State(s) => SourceView::State(s@),
        }
    }
}

/// A slot: its type and where that comes from.
pub struct SlotEntry {
    pub schema: Json,
    pub source: SlotSource,
}

/// The model of a slot.
pub struct SlotView {
    pub schema: JsonView,
    pub source: SourceView,
}

impl SlotEntry {
    pub open spec fn view(&self) -> SlotView {
        SlotView { schema: self.schema@, source: self.source@ }
    }
}

/// A finding on a flow.
pub enum Diagnostic {
    Error(String),
}

impl Diagnostic {
    pub open spec fn view(&self) -> Seq<char> {
        match self {
            Diagnostic::Error(m) => m@,
        }
    }

    /// What was found.
    pub fn message(&self) -> (r: &str)
        ensures
            r@ == self@,
    {
        match self {
            Diagnostic::Error(m) => m.as_str(),
        }
    }
}

pub open spec fn findings(s: Seq<Diagnostic>) -> Seq<Seq<char>> {
    s.map_values(|d: Diagnostic| d@)
}

/// The slots of a flow, in the order of their paths.
pub struct SlotTable {
    entries: Vec<(String, SlotEntry)>,
}

impl SlotTable {
    pub closed spec fn view(&self) -> Entries<SlotView> {
        self.entries@.map_values(|e: (String, SlotEntry)| (e.0@, e.1@))
    }

    #[verifier::type_invariant]
    pub open spec fn ordered(&self) -> bool {
        sorted(self.view())
    }

    /// A flow without slots.
    pub fn new() -> (r: SlotTable)
        ensures
            r@ == Seq::<(Seq<char>, SlotView)>::empty(),
    {
        let entries: Vec<(String, SlotEntry)> = Vec::new();
        assert(SlotTable { entries }.view() =~= Seq::empty());
        SlotTable { entries }
    }

    /// The place of a path, or the number of slots.
    fn place(&self, host_path: &str) -> (p: usize)
        ensures
            p <= self@.len(),
            p < self@.len() ==> self@[p as int].0 == host_path@,
            forall|j: int| 0 <= j < p ==> (#[trigger] self@[j]).0 != host_path@,
    {
        let mut i: usize = 0;
        while i < self.entries.len()
            invariant
                i <= self@.len(),
                self@.len() == self.entries@.len(),
                forall|j: int| 0 <= j < i ==> (#[trigger] self@[j]).0 != host_path@,
            decreases self@.len() - i,
        {
            assert(self@[i as int].0 == self.entries@[i as int].0@);
            if same(self.entries[i].0.as_str(), host_path) {
                return i;
            }
            i = i + 1;
        }
        i
    }

    /// The slot of a path, if there is one.
    pub fn get(&self, host_path: &str) -> (r: Option<&SlotEntry>)
        ensures
            (match r {
                Some(e) => Some(e@),
                None => None,
            }) == lookup(self@, host_path@),
    {
        let p: usize = self.place(host_path);
        assert(self@.len() == self.entries@.len());
        if p < self.entries.len() {
            proof {
                lemma_lookup_at(self@, host_path@, p as int);
            }
            Some(&self.entries[p].1)
        } else {
            proof {
                lemma_lookup_none(self@, host_path@);
            }
            None
        }
    }

    /// How many slots there are.
    pub fn len(&self) -> (n: usize)
        ensures
            n == self@.len(),
    {
        self.entries.len()
    }

    /// Whether there are no slots.
    pub fn is_empty(&self) -> (r: bool)
        ensures
            r == (self@.len() == 0),
    {
        self.entries.len() == 0
    }

    /// The slots with their paths, in order.
    pub fn iter(&self) -> (r: Vec<(&String, &SlotEntry)>)
        ensures
            r@.len() == self@.len(),
            forall|k: int|
                0 <= k < self@.len() ==> (#[trigger] r@[k]).0@ == self@[k].0 && r@[k].1@
                    == self@[k].1,
            sorted(self@),
    {
        proof {
            use_type_invariant(self);
        }
        let mut out: Vec<(&String, &SlotEntry)> = Vec::new();
        let mut i: usize = 0;
        while i < self.entries.len()
            invariant
                i <= self.entries@.len(),
                self@.len() == self.entries@.len(),
                i == out@.len(),
                forall|k: int|
                    0 <= k < i ==> (#[trigger] out@[k]).0@ == self@[k].0 && out@[k].1@
                        == self@[k].1,
            decreases self.entries@.len() - i,
        {
            let e = &self.entries[i];
            assert(self@[i as int] == (e.0@, e.1@));
            out.push((&e.0, &e.1));
            i = i + 1;
        }
        out
    }

    fn insert(self, host_path: String, entry: SlotEntry) -> (r: SlotTable)
        ensures
            r@ == put(self@, host_path@, entry@),
    {
        proof {
            use_type_invariant(&self);
        }
        let ghost before = self@;
        let mut es = self.entries;
        assert(es@.map_values(|e: (String, SlotEntry)| (e.0@, e.1@)) =~= before);
        let mut p: usize = 0;
        while p < es.len() && lt(es[p].0.as_str(), host_path.as_str())
            invariant
                p <= es@.len(),
                before.len() == es@.len(),
                forall|j: int| 0 <= j < es@.len() ==> (#[trigger] before[j]).0 == es@[j].0@,
                forall|j: int| 0 <= j < p ==> text_lt((#[trigger] before[j]).0, host_path@),
            decreases es@.len() - p,
        {
            assert(before[p as int].0 == es@[p as int].0@);
            p = p + 1;
        }
        let ghost (k, v) = (host_path@, entry@);
        proof {
            if p < before.len() {
                assert(before[p as int].0 == es@[p as int].0@);
                lemma_lt_total(before[p as int].0, k);
            }
            lemma_put_at(before, k, v, p as int);
        }
        if p < es.len() && same(es[p].0.as_str(), host_path.as_str()) {
            es.set(p, (host_path, entry));
            proof {
                assert(SlotTable { entries: es }.view() =~= before.update(p as int, (k, v)));
                lemma_sorted_update(before, p as int, v);
            }
        } else {
            es.insert(p, (host_path, entry));
            proof {
                assert(SlotTable { entries: es }.view() =~= before.insert(p as int, (k, v)));
                lemma_sorted_insert(before, p as int, k, v);
            }
        }
        SlotTable { entries: es }
    }
}

impl Default for SlotTable {
    fn default() -> (r: SlotTable)
        ensures
            r@ == Seq::<(Seq<char>, SlotView)>::empty(),
    {
        SlotTable::new()
    }
}

/// The path of a slot.
pub open spec fn context_path(name: Seq<char>) -> Seq<char> {
    "$.context."@ + name
}

fn make_context_path(name: &str) -> (r: String)
    ensures
        r@ == context_path(name@),
{
    let mut p = "$.context.".to_owned();
    p.append(name);
    p
}

/// The slots that the inputs declare.
pub open spec fn input_slots(inputs: Members) -> Entries<SlotView>
    decreases inputs.len(),
{
    if inputs.len() == 0 {
        Seq::empty()
    } else {
        put(
            input_slots(inputs.drop_last()),
            context_path(inputs.last().0),
            SlotView { schema: inputs.last().1, source: SourceView::Input },
        )
    }
}

/// The slots so far, and what was found wrong so far.
pub struct BuildView {
    pub table: Entries<SlotView>,
    pub errors: Seq<Seq<char>>,
}

impl BuildView {
    pub open spec fn fault(self, message: Seq<char>) -> BuildView {
        BuildView { errors: self.errors.push(message), ..self }
    }
}

/// How a source is worded.
pub open spec fn source_words(s: SourceView) -> Seq<char> {
    match s {
        SourceView::Input => "the flow's `inputs:` block"@,
        SourceView::State(name) => "state '"@ + name + "'"@,
    }
}

fn describe_source(s: &SlotSource) -> (r: String)
    ensures
        r@ == source_words(s@),
{
    match s {
        SlotSource::Input => "the flow's `inputs:` block".to_owned(),
        SlotSource::State(name) => {
            let mut m = "state '".to_owned();
            m.append(name.as_str());
            m.append("'");
            m
        },
    }
}

/// That two writers of a slot differ in its type.
pub open spec fn conflict(host_path: Seq<char>, a: SourceView, b: SourceView) -> Seq<char> {
    "SLOT_TYPE_CONFLICT: '"@ + host_path + "' is written by "@ + source_words(a) + " and "@
        + source_words(b) + " with structurally different schemas (SPEC §7.3, V14)"@
}

/// A slot more. One that is there already stays as it is; where the compact texts of the types
/// differ, that is found wrong.
pub open spec fn joined_slot(b: BuildView, host_path: Seq<char>, slot: SlotView) -> BuildView {
    match lookup(b.table, host_path) {
        Some(existing) => if compact(existing.schema) == compact(slot.schema) {
            b
        } else {
            b.fault(conflict(host_path, existing.source, slot.source))
        },
        None => BuildView { table: put(b.table, host_path, slot), ..b },
    }
}

/// That a capability has no such output.
pub open spec fn no_output(
    state: Seq<char>,
    host_path: Seq<char>,
    output: Seq<char>,
    target: Seq<char>,
) -> Seq<char> {
    "UNKNOWN_CAP_OUTPUT: state '"@ + state + "' maps '"@ + host_path + "' from output '"@ + output
        + "' of capability '"@ + target
        + "', but that capability's snippet declares no such output (SPEC §7.2)"@
}

/// That there is no such capability.
pub open spec fn no_target(
    state: Seq<char>,
    host_path: Seq<char>,
    output: Seq<char>,
    target: Seq<char>,
) -> Seq<char> {
    "UNKNOWN_CAP_OUTPUT_TARGET: state '"@ + state + "' maps '"@ + host_path + "' from output '"@
        + output + "' of capability '"@ + target
        + "', but no snippet-bearing capability with that `definitionId` is loaded — cannot type the slot (SPEC §7.2)"@
}

/// One output of a capability that a state writes into a slot.
pub open spec fn with_output(
    b: BuildView,
    state: Seq<char>,
    target: Seq<char>,
    snippet: Option<JsonView>,
    host_path: Seq<char>,
    output: JsonView,
) -> BuildView {
    match output.as_str() {
        None => b,
        Some(name) => match snippet {
            None => b.fault(no_target(state, host_path, name, target)),
            Some(s) => match s.get(name) {
                None => b.fault(no_output(state, host_path, name, target)),
                Some(schema) => joined_slot(
                    b,
                    host_path,
                    SlotView { schema, source: SourceView::State(state) },
                ),
            },
        },
    }
}

/// The outputs of a capability that a state writes into slots.
pub open spec fn with_outputs(
    b: BuildView,
    state: Seq<char>,
    target: Seq<char>,
    snippet: Option<JsonView>,
    outputs: Members,
) -> BuildView
    decreases outputs.len(),
{
    if outputs.len() == 0 {
        b
    } else {
        with_output(
            with_outputs(b, state, target, snippet, outputs.drop_last()),
            state,
            target,
            snippet,
            outputs.last().0,
            outputs.last().1,
        )
    }
}

/// The capability that a transition runs, with the outputs that it maps, if it does.
pub open spec fn mapped_outputs(t: JsonView) -> Option<(Seq<char>, Members)> {
    match t.get_object("executor"@) {
        None => None,
        Some(m) => {
            let exec = JsonView::Object(m);
            if exec.get_str("kind"@) != Some("workflow"@) {
                None
            } else {
                match exec.get("use"@) {
                    None => None,
                    Some(u) => match u.get_object("outputs"@) {
                        None => None,
                        Some(outputs) => Some(
                            (text_or(exec.get_str("definitionId"@), Seq::empty()), outputs),
                        ),
                    },
                }
            }
        },
    }
}

/// What a transition of a state writes.
pub open spec fn with_transition(
    b: BuildView,
    state: Seq<char>,
    t: JsonView,
    caps: Members,
) -> BuildView {
    match mapped_outputs(t) {
        None => b,
        Some((target, outputs)) => with_outputs(b, state, target, lookup(caps, target), outputs),
    }
}

/// What the transitions of a state write.
pub open spec fn with_transitions(
    b: BuildView,
    state: Seq<char>,
    ts: Members,
    caps: Members,
) -> BuildView
    decreases ts.len(),
{
    if ts.len() == 0 {
        b
    } else {
        with_transition(
            with_transitions(b, state, ts.drop_last(), caps),
            state,
            ts.last().1,
            caps,
        )
    }
}

/// What a state writes.
pub open spec fn with_state(b: BuildView, e: (Seq<char>, JsonView), caps: Members) -> BuildView {
    match e.1.get_object("transitions"@) {
        None => b,
        Some(ts) => with_transitions(b, e.0, ts, caps),
    }
}

/// What the states write.
pub open spec fn with_states(b: BuildView, states: Members, caps: Members) -> BuildView
    decreases states.len(),
{
    if states.len() == 0 {
        b
    } else {
        with_state(with_states(b, states.drop_last(), caps), states.last(), caps)
    }
}

/// The slots of a flow: its inputs, then what its states write, in their order. `caps` has
/// the outputs of each capability.
pub open spec fn flow_slots(flow: JsonView, caps: Members) -> BuildView {
    let start = BuildView {
        table: match flow.get_object("inputs"@) {
            Some(inputs) => input_slots(inputs),
            None => Seq::empty(),
        },
        errors: Seq::empty(),
    };
    match flow.get_object("states"@) {
        Some(states) => with_states(start, states, caps),
        None => start,
    }
}

struct Build {
    table: SlotTable,
    errors: Vec<Diagnostic>,
}

impl Build {
    spec fn view(&self) -> BuildView {
        BuildView { table: self.table@, errors: findings(self.errors@) }
    }

    fn fault(self, message: String) -> (r: Build)
        ensures
            r@ == self@.fault(message@),
    {
        let Build { table, mut errors } = self;
        let ghost before = errors@;
        let d = Diagnostic::Error(message);
        errors.push(d);
        assert(findings(errors@) =~= findings(before).push(d@));
        Build { table, errors }
    }
}

fn insert_with_v14_check(b: Build, host_path: &str, entry: SlotEntry) -> (r: Build)
    ensures
        r@ == joined_slot(b@, host_path@, entry@),
{
    let ghost bv = b@;
    let clash = match b.table.get(host_path) {
        Some(existing) => if same(
            compact_text(&existing.schema).as_str(),
            compact_text(&entry.schema).as_str(),
        ) {
            return b;
        } else {
            let mut m = "SLOT_TYPE_CONFLICT: '".to_owned();
            m.append(host_path);
            m.append("' is written by ");
            m.append(describe_source(&existing.source).as_str());
            m.append(" and ");
            m.append(describe_source(&entry.source).as_str());
            m.append(" with structurally different schemas (SPEC §7.3, V14)");
            Some(m)
        },
        None => None,
    };
    match clash {
        Some(m) => b.fault(m),
        None => {
            let Build { table, errors } = b;
            Build { table: table.insert(host_path.to_owned(), entry), errors }
        },
    }
}

fn add_output(
    b: Build,
    state: &str,
    target: &str,
    snippet: Option<&Json>,
    host_path: &str,
    output: &Json,
) -> (r: Build)
    ensures
        r@ == with_output(
            b@,
            state@,
            target@,
            crate::json::opt_view(snippet),
            host_path@,
            output@,
        ),
{
    let name = match output.as_str() {
        Some(n) => n,
        None => {
            return b;
        },
    };
    match snippet {
        None => {
            let mut m = "UNKNOWN_CAP_OUTPUT_TARGET: state '".to_owned();
            m.append(state);
            m.append("' maps '");
            m.append(host_path);
            m.append("' from output '");
            m.append(name);
            m.append("' of capability '");
            m.append(target);
            m.append(
                "', but no snippet-bearing capability with that `definitionId` is loaded — cannot type the slot (SPEC §7.2)",
            );
            b.fault(m)
        },
        Some(s) => match s.get(name) {
            None => {
                let mut m = "UNKNOWN_CAP_OUTPUT: state '".to_owned();
                m.append(state);
                m.append("' maps '");
                m.append(host_path);
                m.append("' from output '");
                m.append(name);
                m.append("' of capability '");
                m.append(target);
                m.append(
                    "', but that capability's snippet declares no such output (SPEC §7.2)",
                );
                b.fault(m)
            },
            Some(schema) => insert_with_v14_check(
                b,
                host_path,
                SlotEntry {
                    schema: schema.clone(),
                    source: SlotSource::State(state.to_owned()),
                },
            ),
        },
    }
}

fn add_transition(b: Build, state: &str, t: &Json, caps: &JsonMap) -> (r: Build)
    ensures
        r@ == with_transition(b@, state@, t@, caps@),
{
    let exec = match t.get_object("executor") {
        Some(e) => e,
        None => {
            return b;
        },
    };
    let kind = match exec.get("kind") {
        Some(k) => k.as_str(),
        None => None,
    };
    let is_workflow = match kind {
        Some(k) => same(k, "workflow"),
        None => false,
    };
    if !is_workflow {
        return b;
    }
    let outputs = match exec.get("use") {
        Some(u) => u.get_object("outputs"),
        None => None,
    };
    let outputs = match outputs {
        Some(o) => o,
        None => {
            return b;
        },
    };
    let target = match exec.get("definitionId") {
        Some(d) => d.as_str(),
        None => None,
    };
    let target = match target {
        Some(d) => d,
        None => {
            proof {
                reveal_strlit("");
                assert(""@ =~= Seq::<char>::empty());
            }
            ""
        },
    };
    let snippet = caps.get(target);
    let ghost start = b@;
    let ghost sv = crate::json::opt_view(snippet);
    let mut b = b;
    let mut i: usize = 0;
    assert(outputs@.take(0) =~= Seq::empty());
    while i < outputs.len()
        invariant
            i <= outputs@.len(),
            sv == crate::json::opt_view(snippet),
            b@ == with_outputs(start, state@, target@, sv, outputs@.take(i as int)),
        decreases outputs@.len() - i,
    {
        let ghost next = outputs@.take(i + 1);
        assert(next.drop_last() =~= outputs@.take(i as int));
        assert(next.last() == outputs@[i as int]);
        b = add_output(b, state, target, snippet, outputs.key_at(i).as_str(), outputs.value_at(i));
        i = i + 1;
    }
    assert(outputs@.take(i as int) =~= outputs@);
    b
}

fn add_state(b: Build, state: &str, s: &Json, caps: &JsonMap) -> (r: Build)
    ensures
        r@ == with_state(b@, (state@, s@), caps@),
{
    let ts = match s.get_object("transitions") {
        Some(ts) => ts,
        None => {
            return b;
        },
    };
    let ghost start = b@;
    let mut b = b;
    let mut i: usize = 0;
    assert(ts@.take(0) =~= Seq::empty());
    while i < ts.len()
        invariant
            i <= ts@.len(),
            b@ == with_transitions(start, state@, ts@.take(i as int), caps@),
        decreases ts@.len() - i,
    {
        let ghost next = ts@.take(i + 1);
        assert(next.drop_last() =~= ts@.take(i as int));
        assert(next.last() == ts@[i as int]);
        b = add_transition(b, state, ts.value_at(i), caps);
        i = i + 1;
    }
    assert(ts@.take(i as int) =~= ts@);
    b
}

fn add_inputs(inputs: &JsonMap) -> (r: SlotTable)
    ensures
        r@ == input_slots(inputs@),
{
    let mut table = SlotTable::new();
    let mut i: usize = 0;
    assert(inputs@.take(0) =~= Seq::empty());
    while i < inputs.len()
        invariant
            i <= inputs@.len(),
            table@ == input_slots(inputs@.take(i as int)),
        decreases inputs@.len() - i,
    {
        let ghost next = inputs@.take(i + 1);
        assert(next.drop_last() =~= inputs@.take(i as int));
        assert(next.last() == inputs@[i as int]);
        table = table.insert(
            make_context_path(inputs.key_at(i).as_str()),
            SlotEntry { schema: inputs.value_at(i).clone(), source: SlotSource::Input },
        );
        i = i + 1;
    }
    assert(inputs@.take(i as int) =~= inputs@);
    table
}

/// Builds the table of a flow's slots. `caps` has, by capability, the outputs that it
/// declares. All that is wrong is found, in the order of the flow.
pub fn build_slot_table(flow_def: &Json, caps: &JsonMap) -> (r: Result<SlotTable, Vec<Diagnostic>>)
    ensures
        match r {
            Ok(t) => flow_slots(flow_def@, caps@).errors.len() == 0 && t@ == flow_slots(
                flow_def@,
                caps@,
            ).table,
            Err(e) => flow_slots(flow_def@, caps@).errors.len() > 0 && findings(e@)
                == flow_slots(flow_def@, caps@).errors,
        },
{
    let table = match flow_def.get_object("inputs") {
        Some(inputs) => add_inputs(inputs),
        None => SlotTable::new(),
    };
    let errors: Vec<Diagnostic> = Vec::new();
    assert(findings(errors@) =~= Seq::empty());
    let mut b = Build { table, errors };
    let ghost start = b@;
    if let Some(states) = flow_def.get_object("states") {
        let mut i: usize = 0;
        assert(states@.take(0) =~= Seq::empty());
        while i < states.len()
            invariant
                i <= states@.len(),
                b@ == with_states(start, states@.take(i as int), caps@),
            decreases states@.len() - i,
        {
            let ghost next = states@.take(i + 1);
            assert(next.drop_last() =~= states@.take(i as int));
            assert(next.last() == states@[i as int]);
            assert(states@[i as int] == (states@[i as int].0, states@[i as int].1));
            b = add_state(b, states.key_at(i).as_str(), states.value_at(i), caps);
            i = i + 1;
        }
        assert(states@.take(i as int) =~= states@);
    }
    let Build { table, errors } = b;
    assert(findings(errors@).len() == errors@.len());
    if errors.len() == 0 {
        Ok(table)
    } else {
        Err(errors)
    }
}

/// The slot that a path below another one belongs to.
pub open spec fn outer_slot(host_path: Seq<char>) -> Option<Seq<char>> {
    match stripped(host_path, "$.context."@) {
        None => None,
        Some(tail) => if split(tail, '.').len() > 1 {
            Some(context_path(split(tail, '.')[0]))
        } else {
            None
        },
    }
}

/// Whether a path can be read: it is a slot, or lies below one.
pub open spec fn reachable(table: Entries<SlotView>, host_path: Seq<char>) -> bool {
    ||| lookup(table, host_path) is Some
    ||| (outer_slot(host_path) matches Some(outer) && lookup(table, outer) is Some)
}

/// That a path cannot be read.
pub open spec fn unreachable_slot(
    host_path: Seq<char>,
    flow: Seq<char>,
    state: Seq<char>,
    transition: Seq<char>,
) -> Seq<char> {
    "UNREACHABLE_SLOT: flow '"@ + flow + "' state '"@ + state + "' transition '"@ + transition
        + "' references '"@ + host_path
        + "' via `use:.inputs`, but no state writes that slot and it is not declared in `inputs:` (SPEC §7.3, V13)"@
}

fn find_outer_slot(host_path: &str) -> (r: Option<String>)
    ensures
        opt_string(r) == outer_slot(host_path@),
{
    match strip_prefix(host_path, "$.context.") {
        None => None,
        Some(tail) => {
            let pieces = split_text(tail.as_str(), '.');
            assert(texts(pieces@).len() == pieces@.len());
            if pieces.len() > 1 {
                assert(texts(pieces@)[0] == pieces@[0]@);
                Some(make_context_path(pieces[0].as_str()))
            } else {
                None
            }
        },
    }
}

/// Finds whether a path that a transition reads is declared.
pub fn assert_reachable(
    table: &SlotTable,
    host_path: &str,
    flow_id: &str,
    state_name: &str,
    transition_name: &str,
) -> (r: Option<Diagnostic>)
    ensures
        match r {
            None => reachable(table@, host_path@),
            Some(d) => !reachable(table@, host_path@) && d@ == unreachable_slot(
                host_path@,
                flow_id@,
                state_name@,
                transition_name@,
            ),
        },
{
    if table.get(host_path).is_some() {
        return None;
    }
    if let Some(outer) = find_outer_slot(host_path) {
        if table.get(outer.as_str()).is_some() {
            return None;
        }
    }
    let mut m = "UNREACHABLE_SLOT: flow '".to_owned();
    m.append(flow_id);
    m.append("' state '");
    m.append(state_name);
    m.append("' transition '");
    m.append(transition_name);
    m.append("' references '");
    m.append(host_path);
    m.append(
        "' via `use:.inputs`, but no state writes that slot and it is not declared in `inputs:` (SPEC §7.3, V13)",
    );
    Some(Diagnostic::Error(m))
}

/// Whether one table holds all that another does.
pub open spec fn extends(after: Entries<SlotView>, before: Entries<SlotView>) -> bool {
    forall|p: Seq<char>| #[trigger]
        lookup(before, p) is Some ==> lookup(after, p) == lookup(before, p)
}

/// Whether an output of a capability that is mapped to a slot has the type of that slot.
pub open spec fn typed_output(
    table: Entries<SlotView>,
    snippet: Option<JsonView>,
    output: (Seq<char>, JsonView),
) -> bool {
    output.1.as_str() matches Some(name) ==> {
        &&& snippet matches Some(s)
        &&& s.get(name) matches Some(schema)
        &&& lookup(table, output.0) matches Some(slot)
        &&& compact(slot.schema) == compact(schema)
    }
}

/// Whether all that a transition writes has the types of the slots.
pub open spec fn typed_transition(table: Entries<SlotView>, caps: Members, t: JsonView) -> bool {
    mapped_outputs(t) matches Some((target, outputs)) ==> forall|k: int|
        0 <= k < outputs.len() ==> typed_output(table, lookup(caps, target), #[trigger] outputs[k])
}

/// Whether all that a state writes has the types of the slots.
pub open spec fn typed_state(table: Entries<SlotView>, caps: Members, state: JsonView) -> bool {
    state.get_object("transitions"@) matches Some(ts) ==> forall|k: int|
        0 <= k < ts.len() ==> typed_transition(table, caps, (#[trigger] ts[k]).1)
}

/// What every part of the construction keeps: nothing that was found is dropped, and a slot
/// stays as its first writer typed it.
spec fn builds_on(after: BuildView, before: BuildView) -> bool {
    &&& after.errors.len() >= before.errors.len()
    &&& extends(after.table, before.table)
}

proof fn lemma_typed_later(
    after: Entries<SlotView>,
    before: Entries<SlotView>,
    caps: Members,
    t: JsonView,
)
    requires
        extends(after, before),
        typed_transition(before, caps, t),
    ensures
        typed_transition(after, caps, t),
{
    if let Some((target, outputs)) = mapped_outputs(t) {
        assert forall|k: int| 0 <= k < outputs.len() implies typed_output(
            after,
            lookup(caps, target),
            #[trigger] outputs[k],
        ) by {
            assert(typed_output(before, lookup(caps, target), outputs[k]));
            assert(lookup(before, outputs[k].0) is Some || outputs[k].1.as_str() is None);
        }
    }
}

proof fn lemma_output(
    b: BuildView,
    state: Seq<char>,
    target: Seq<char>,
    snippet: Option<JsonView>,
    host_path: Seq<char>,
    output: JsonView,
)
    ensures
        builds_on(with_output(b, state, target, snippet, host_path, output), b),
        with_output(b, state, target, snippet, host_path, output).errors.len() == b.errors.len()
            ==> typed_output(
            with_output(b, state, target, snippet, host_path, output).table,
            snippet,
            (host_path, output),
        ),
{
    let r = with_output(b, state, target, snippet, host_path, output);
    assert forall|p: Seq<char>| #[trigger] lookup(b.table, p) is Some implies lookup(r.table, p)
        == lookup(b.table, p) by {
        if r.table != b.table {
            let name = output.as_str()->0;
            let slot = SlotView {
                schema: snippet->0.get(name)->0,
                source: SourceView::State(state),
            };
            assert(r.table == put(b.table, host_path, slot));
            crate::json::lemma_put_lookup(b.table, host_path, slot, p);
        }
    }
    if let Some(name) = output.as_str() {
        if let Some(s) = snippet {
            if let Some(schema) = s.get(name) {
                let slot = SlotView { schema, source: SourceView::State(state) };
                crate::json::lemma_put_lookup(b.table, host_path, slot, host_path);
            }
        }
    }
}

proof fn lemma_outputs(
    b: BuildView,
    state: Seq<char>,
    target: Seq<char>,
    snippet: Option<JsonView>,
    outputs: Members,
)
    ensures
        builds_on(with_outputs(b, state, target, snippet, outputs), b),
        with_outputs(b, state, target, snippet, outputs).errors.len() == b.errors.len()
            ==> forall|k: int|
            0 <= k < outputs.len() ==> typed_output(
                with_outputs(b, state, target, snippet, outputs).table,
                snippet,
                #[trigger] outputs[k],
            ),
    decreases outputs.len(),
{
    if outputs.len() > 0 {
        let before = with_outputs(b, state, target, snippet, outputs.drop_last());
        let r = with_outputs(b, state, target, snippet, outputs);
        lemma_outputs(b, state, target, snippet, outputs.drop_last());
        lemma_output(before, state, target, snippet, outputs.last().0, outputs.last().1);
        assert forall|p: Seq<char>| #[trigger] lookup(b.table, p) is Some implies lookup(r.table, p)
            == lookup(b.table, p) by {
            assert(lookup(before.table, p) is Some);
        }
        if r.errors.len() == b.errors.len() {
            assert forall|k: int| 0 <= k < outputs.len() implies typed_output(
                r.table,
                snippet,
                #[trigger] outputs[k],
            ) by {
                if k < outputs.len() - 1 {
                    assert(typed_output(before.table, snippet, outputs.drop_last()[k]));
                    assert(lookup(before.table, outputs[k].0) is Some || outputs[k].1.as_str() is None);
                }
            }
        }
    }
}

proof fn lemma_transitions(b: BuildView, state: Seq<char>, ts: Members, caps: Members)
    ensures
        builds_on(with_transitions(b, state, ts, caps), b),
        with_transitions(b, state, ts, caps).errors.len() == b.errors.len() ==> forall|k: int|
            0 <= k < ts.len() ==> typed_transition(
                with_transitions(b, state, ts, caps).table,
                caps,
                (#[trigger] ts[k]).1,
            ),
    decreases ts.len(),
{
    if ts.len() > 0 {
        let before = with_transitions(b, state, ts.drop_last(), caps);
        let r = with_transitions(b, state, ts, caps);
        lemma_transitions(b, state, ts.drop_last(), caps);
        if let Some((target, outputs)) = mapped_outputs(ts.last().1) {
            lemma_outputs(before, state, target, lookup(caps, target), outputs);
        }
        assert forall|p: Seq<char>| #[trigger] lookup(b.table, p) is Some implies lookup(r.table, p)
            == lookup(b.table, p) by {
            assert(lookup(before.table, p) is Some);
        }
        if r.errors.len() == b.errors.len() {
            assert forall|k: int| 0 <= k < ts.len() implies typed_transition(
                r.table,
                caps,
                (#[trigger] ts[k]).1,
            ) by {
                if k < ts.len() - 1 {
                    assert(typed_transition(before.table, caps, ts.drop_last()[k].1));
                    lemma_typed_later(r.table, before.table, caps, ts[k].1);
                }
            }
        }
    }
}

proof fn lemma_states(b: BuildView, states: Members, caps: Members)
    ensures
        builds_on(with_states(b, states, caps), b),
        with_states(b, states, caps).errors.len() == b.errors.len() ==> forall|k: int|
            0 <= k < states.len() ==> typed_state(
                with_states(b, states, caps).table,
                caps,
                (#[trigger] states[k]).1,
            ),
    decreases states.len(),
{
    if states.len() > 0 {
        let before = with_states(b, states.drop_last(), caps);
        let r = with_states(b, states, caps);
        let last = states.last();
        lemma_states(b, states.drop_last(), caps);
        if let Some(ts) = last.1.get_object("transitions"@) {
            lemma_transitions(before, last.0, ts, caps);
        }
        assert forall|p: Seq<char>| #[trigger] lookup(b.table, p) is Some implies lookup(r.table, p)
            == lookup(b.table, p) by {
            assert(lookup(before.table, p) is Some);
        }
        if r.errors.len() == b.errors.len() {
            assert forall|k: int| 0 <= k < states.len() implies typed_state(
                r.table,
                caps,
                (#[trigger] states[k]).1,
            ) by {
                if k < states.len() - 1 {
                    assert(typed_state(before.table, caps, states.drop_last()[k].1));
                    if let Some(ts) = states[k].1.get_object("transitions"@) {
                        assert forall|n: int| 0 <= n < ts.len() implies typed_transition(
                            r.table,
                            caps,
                            (#[trigger] ts[n]).1,
                        ) by {
                            lemma_typed_later(r.table, before.table, caps, ts[n].1);
                        }
                    }
                }
            }
        }
    }
}

/// Where nothing is found wrong with a flow, every writer of a slot agrees with its type, so
/// any two of them agree with each other.
pub proof fn law_writers_agree(flow: JsonView, caps: Members)
    requires
        flow_slots(flow, caps).errors.len() == 0,
    ensures
        flow.get_object("states"@) matches Some(states) ==> forall|k: int|
            0 <= k < states.len() ==> typed_state(
                flow_slots(flow, caps).table,
                caps,
                (#[trigger] states[k]).1,
            ),
{
    if let Some(states) = flow.get_object("states"@) {
        let start = BuildView {
            table: match flow.get_object("inputs"@) {
                Some(inputs) => input_slots(inputs),
                None => Seq::empty(),
            },
            errors: Seq::empty(),
        };
        lemma_states(start, states, caps);
    }
}

/// A slot that is an input stays as the inputs declare it, whatever the states write.
pub proof fn law_inputs_keep_their_types(flow: JsonView, caps: Members, inputs: Members)
    requires
        flow.get_object("inputs"@) == Some(inputs),
    ensures
        extends(flow_slots(flow, caps).table, input_slots(inputs)),
{
    if let Some(states) = flow.get_object("states"@) {
        let start = BuildView { table: input_slots(inputs), errors: Seq::empty() };
        lemma_states(start, states, caps);
    }
}

} // verus!
