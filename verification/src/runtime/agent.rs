//! What the runtime asks of an agent when it drives a transition itself.

use vstd::prelude::*;

use crate::json::{number, obj, opt_text, put, unprefixed, Json, JsonMap, JsonView, Members};
use crate::json_text::{pretty, pretty_text};
use crate::model::{InstanceView, WorkflowInstance};
use crate::runtime::context::{file_list, files_as_strings};
use crate::runtime::links::{collect_strings, state_def, strings_in, text_or};
use crate::text::{
    after_last, copy_strings, first_piece, join, joined, same, split, text_after_last, texts, trim,
    trimmed,
};

verus! {

/// How agents are driven.
pub struct AutoDrive {
    pub enabled: bool,
    pub affinity: String,
    pub tools: Vec<String>,
    pub max_seconds: u64,
}

/// The model of how agents are driven.
pub struct AutoView {
    pub enabled: bool,
    pub affinity: Seq<char>,
    pub tools: Seq<Seq<char>>,
    pub max_seconds: u64,
}

impl AutoDrive {
    pub open spec fn view(&self) -> AutoView {
        AutoView {
            enabled: self.enabled,
            affinity: self.affinity@,
            tools: texts(self.tools@),
            max_seconds: self.max_seconds,
        }
    }
}

impl Clone for AutoDrive {
    fn clone(&self) -> (r: AutoDrive)
        ensures
            r@ == self@,
    {
        AutoDrive {
            enabled: self.enabled,
            affinity: self.affinity.clone(),
            tools: copy_strings(&self.tools),
            max_seconds: self.max_seconds,
        }
    }
}

/// The verb in the id of a capability.
pub open spec fn verb_of(definition_id: Seq<char>) -> Seq<char> {
    split(after_last(definition_id, "/cap."@), '.')[0]
}

/// The kind of model that suits a verb.
pub open spec fn affinity_of(definition_id: Seq<char>, default: Seq<char>) -> Seq<char> {
    let verb = verb_of(definition_id);
    if verb == "implement"@ || verb == "refactor"@ || verb == "run"@ || verb == "scaffold"@ {
        "coding"@
    } else {
        default
    }
}

/// The kind of model that suits a capability: coding for the verbs that are coding work.
pub fn affinity_for(definition_id: &str, default: &str) -> (r: String)
    ensures
        r@ == affinity_of(definition_id@, default@),
{
    let tail = text_after_last(definition_id, "/cap.");
    let verb = first_piece(tail.as_str(), '.');
    let v = verb.as_str();
    if same(v, "implement") || same(v, "refactor") || same(v, "run") || same(v, "scaffold") {
        "coding".to_owned()
    } else {
        default.to_owned()
    }
}

/// A text that is set and not empty.
pub open spec fn set_text(v: JsonView, key: Seq<char>) -> Option<Seq<char>> {
    match v.get_str(key) {
        Some(s) => if s.len() > 0 {
            Some(s)
        } else {
            None
        },
        None => None,
    }
}

/// The effort that is asked for: the context's word, else the input's.
pub open spec fn effort_of(context: JsonView, input: JsonView) -> Option<Seq<char>> {
    match set_text(context, "effort_override"@) {
        Some(s) => Some(s),
        None => set_text(input, "effort_override"@),
    }
}

fn find_text(v: &Json, key: &str) -> (r: Option<String>)
    ensures
        crate::text::opt_string(r) == set_text(v@, key@),
{
    match v.get_str(key) {
        Some(s) => if s.is_empty() {
            None
        } else {
            Some(s.to_owned())
        },
        None => None,
    }
}

/// The effort that is asked for.
pub fn auto_effort(context: &Json, input: &Json) -> (r: Option<String>)
    ensures
        crate::text::opt_string(r) == effort_of(context@, input@),
{
    match find_text(context, "effort_override") {
        Some(s) => Some(s),
        None => find_text(input, "effort_override"),
    }
}

/// A text without space around it, if anything is left of it.
pub open spec fn stated(s: Option<Seq<char>>) -> Option<Seq<char>> {
    match s {
        Some(s) => if trimmed(s).len() > 0 {
            Some(trimmed(s))
        } else {
            None
        },
        None => None,
    }
}

/// The kind of model for a step: the state's word, else the context's, else the input's,
/// else what suits the verb.
pub open spec fn auto_affinity_of(
    state_affinity: Option<Seq<char>>,
    context: JsonView,
    input: JsonView,
    definition_id: Seq<char>,
    default: Seq<char>,
) -> Seq<char> {
    match stated(state_affinity) {
        Some(s) => s,
        None => match stated(context.get_str("affinity_override"@)) {
            Some(s) => s,
            None => match stated(input.get_str("affinity_override"@)) {
                Some(s) => s,
                None => affinity_of(definition_id, default),
            },
        },
    }
}

fn find_stated(s: Option<&str>) -> (r: Option<String>)
    ensures
        crate::text::opt_string(r) == stated(opt_text(s)),
{
    match s {
        Some(s) => {
            let t = trim(s);
            if t.as_str().is_empty() {
                None
            } else {
                Some(t)
            }
        },
        None => None,
    }
}

/// The kind of model for a step.
pub fn auto_affinity(
    state_affinity: Option<&str>,
    context: &Json,
    input: &Json,
    definition_id: &str,
    default: &str,
) -> (r: String)
    ensures
        r@ == auto_affinity_of(
            opt_text(state_affinity),
            context@,
            input@,
            definition_id@,
            default@,
        ),
{
    if let Some(s) = find_stated(state_affinity) {
        return s;
    }
    if let Some(s) = find_stated(context.get_str("affinity_override")) {
        return s;
    }
    if let Some(s) = find_stated(input.get_str("affinity_override")) {
        return s;
    }
    affinity_for(definition_id, default)
}

/// Data for an agent to read, under a label. What the runtime keeps for itself is left out.
pub open spec fn data_block(label: Seq<char>, data: JsonView) -> Seq<char> {
    match data {
        JsonView::Object(m) => {
            let shown = unprefixed(m, "_"@);
            if shown.len() == 0 {
                Seq::empty()
            } else {
                "\n\n"@ + label + ":\n"@ + pretty(JsonView::Object(shown), Seq::empty())
            }
        },
        _ => Seq::empty(),
    }
}

/// Data for an agent to read, under a label.
pub fn render_agent_data_block(label: &str, data: &Json) -> (r: String)
    ensures
        r@ == data_block(label@, data@),
{
    let m = match data.as_object() {
        Some(m) => m,
        None => {
            return String::new();
        },
    };
    let shown = m.without_prefix("_");
    if shown.is_empty() {
        return String::new();
    }
    let none = String::new();
    let text = pretty_text(&Json::Object(shown), none.as_str());
    let mut out = "\n\n".to_owned();
    out.append(label);
    out.append(":\n");
    out.append(text.as_str());
    out
}

/// The declared types of properties.
pub open spec fn declared_types(props: Members) -> Members
    decreases props.len(),
{
    if props.len() == 0 {
        Seq::empty()
    } else {
        let before = declared_types(props.drop_last());
        match props.last().1.get_str("type"@) {
            Some(t) => put(before, props.last().0, JsonView::Str(t)),
            None => before,
        }
    }
}

fn collect_types(props: &JsonMap) -> (r: JsonMap)
    ensures
        r@ == declared_types(props@),
{
    let mut out = JsonMap::new();
    let mut i: usize = 0;
    assert(props@.take(0) =~= Seq::empty());
    while i < props.len()
        invariant
            i <= props@.len(),
            out@ == declared_types(props@.take(i as int)),
        decreases props@.len() - i,
    {
        let ghost next = props@.take(i + 1);
        assert(next.drop_last() =~= props@.take(i as int));
        assert(next.last() == props@[i as int]);
        if let Some(t) = props.value_at(i).get_str("type") {
            out = out.with(props.key_at(i).as_str(), Json::text(t));
        }
        i = i + 1;
    }
    assert(props@.take(i as int) =~= props@);
    out
}

/// What the schema of a transition's input says of its parts.
pub open spec fn schema_part(t: JsonView, part: Seq<char>) -> Option<JsonView> {
    match t.step("inputSchema"@) {
        Some(s) => s.step(part),
        None => None,
    }
}

/// The keys that an answer must have.
pub open spec fn required_keys(t: JsonView) -> Seq<Seq<char>> {
    strings_in(schema_part(t, "required"@))
}

/// The types that the parts of an answer must have.
pub open spec fn expected_types(t: JsonView) -> Members {
    match schema_part(t, "properties"@) {
        Some(JsonView::Object(props)) => declared_types(props),
        _ => Seq::empty(),
    }
}

/// A text that a state declares.
pub open spec fn state_text(definition: JsonView, state: Seq<char>, key: Seq<char>) -> Option<
    Seq<char>,
> {
    match state_def(definition, state) {
        Some(s) => match s.step(key) {
            Some(v) => v.as_str(),
            None => None,
        },
        None => None,
    }
}

pub fn find_state_text<'a>(definition: &'a Json, state: &str, key: &str) -> (r: Option<&'a str>)
    ensures
        opt_text(r) == state_text(definition@, state@, key@),
{
    match definition.at3("states", state, key) {
        Some(v) => v.as_str(),
        None => None,
    }
}

/// What an agent is told to do.
pub open spec fn agent_goal(definition: JsonView, i: InstanceView, t: JsonView) -> Seq<char> {
    text_or(state_text(definition, i.state, "goal"@), Seq::empty()) + data_block(
        "Workflow input"@,
        i.input,
    ) + data_block("Accumulated context (prior-phase outputs)"@, i.context)
        + "\n\nWhen the task is complete, call the `final_answer` tool with an `output` object containing these top-level keys: "@
        + joined(required_keys(t), ", "@)
        + ". Each value must satisfy the capability's output contract."@
}

/// The kind of model for an agent that a state needs.
pub open spec fn agent_affinity(definition: JsonView, i: InstanceView, auto: AutoView) -> Seq<char> {
    auto_affinity_of(
        state_text(definition, i.state, "affinity"@),
        i.context,
        i.input,
        i.definition_id,
        auto.affinity,
    )
}

/// The configuration of the executor that runs an agent.
#[verifier::opaque]
pub open spec fn agent_config(
    definition: JsonView,
    i: InstanceView,
    t: JsonView,
    auto: AutoView,
) -> JsonView {
    let base = obj().with("kind"@, JsonView::Str("agent"@)).with(
        "affinity"@,
        JsonView::Str(agent_affinity(definition, i, auto)),
    ).with("goal"@, JsonView::Str(agent_goal(definition, i, t))).with(
        "tools"@,
        JsonView::Array(file_list(auto.tools)),
    ).with("expected_output_keys"@, JsonView::Array(file_list(required_keys(t)))).with(
        "expected_output_types"@,
        JsonView::Object(expected_types(t)),
    ).with("max_seconds"@, number(auto.max_seconds));
    match effort_of(i.context, i.input) {
        Some(e) => base.with("reasoning_effort"@, JsonView::Str(e)).json(),
        None => base.json(),
    }
}

pub fn make_agent_affinity(definition: &Json, i: &WorkflowInstance, auto: &AutoDrive) -> (r: String)
    ensures
        r@ == agent_affinity(definition@, i@, auto@),
{
    auto_affinity(
        find_state_text(definition, i.state.as_str(), "affinity"),
        &i.context,
        &i.input,
        i.definition_id.as_str(),
        auto.affinity.as_str(),
    )
}

fn make_goal(definition: &Json, i: &WorkflowInstance, keys: &Vec<String>) -> (r: String)
    ensures
        forall|t: JsonView| #[trigger]
            required_keys(t) == texts(keys@) ==> r@ == agent_goal(definition@, i@, t),
{
    let mut g = match find_state_text(definition, i.state.as_str(), "goal") {
        Some(g) => g.to_owned(),
        None => String::new(),
    };
    g.append(render_agent_data_block("Workflow input", &i.input).as_str());
    g.append(
        render_agent_data_block("Accumulated context (prior-phase outputs)", &i.context).as_str(),
    );
    g.append(
        "\n\nWhen the task is complete, call the `final_answer` tool with an `output` object containing these top-level keys: ",
    );
    g.append(join(keys, ", ").as_str());
    g.append(". Each value must satisfy the capability's output contract.");
    g
}

pub fn make_agent_config(
    definition: &Json,
    i: &WorkflowInstance,
    t: &Json,
    auto: &AutoDrive,
) -> (r: Json)
    ensures
        r@ == agent_config(definition@, i@, t@, auto@),
{
    reveal(agent_config);
    broadcast use crate::json::array_view;

    let keys = collect_strings(t.at2("inputSchema", "required"));
    assert(texts(keys@) == required_keys(t@));
    let types = match t.at2("inputSchema", "properties") {
        Some(v) => match v.as_object() {
            Some(props) => collect_types(props),
            None => JsonMap::new(),
        },
        None => JsonMap::new(),
    };
    assert(types@ == expected_types(t@));
    let affinity = make_agent_affinity(definition, i, auto);
    let goal = make_goal(definition, i, &keys);
    assert(goal@ == agent_goal(definition@, i@, t@));
    let base = JsonMap::new().with("kind", Json::text("agent")).with(
        "affinity",
        Json::text(affinity.as_str()),
    ).with("goal", Json::text(goal.as_str())).with(
        "tools",
        Json::Array(files_as_strings(&auto.tools)),
    ).with("expected_output_keys", Json::Array(files_as_strings(&keys))).with(
        "expected_output_types",
        Json::Object(types),
    ).with("max_seconds", Json::uint(auto.max_seconds));
    match auto_effort(&i.context, &i.input) {
        Some(e) => Json::Object(base.with("reasoning_effort", Json::text(e.as_str()))),
        None => Json::Object(base),
    }
}

} // verus!
