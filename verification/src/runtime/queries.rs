//! What can be asked about an instance that was looked up.

use vstd::prelude::*;

use crate::json::{lookup, obj, Json, JsonMap, JsonView, Members};
use crate::model::{InstanceView, WorkflowInstance};
use crate::runtime::context::{file_list, files_as_strings};
use crate::runtime::effects::opt_json;
use crate::runtime::links::{
    deterministic, find_transitions, is_deterministic, is_terminal, terminal, text_or,
    transition_def, transition_definition, transitions_of,
};
use crate::runtime::runtime::WorkflowRuntime;
use crate::runtime::schema::{required_str, text_at};
use crate::text::{same, texts};

verus! {

/// The names of the transitions that the runtime fires itself.
pub open spec fn own_names(ts: Members) -> Seq<Seq<char>>
    decreases ts.len(),
{
    if ts.len() == 0 {
        Seq::empty()
    } else if deterministic(ts.last().1) {
        own_names(ts.drop_last()).push(ts.last().0)
    } else {
        own_names(ts.drop_last())
    }
}

/// The names of the transitions that the runtime could fire from where an instance stands.
pub open spec fn own_now(i: InstanceView) -> Seq<Seq<char>> {
    if terminal(i.definition, i.state) {
        Seq::empty()
    } else {
        match transitions_of(i.definition, i.state) {
            Some(ts) => own_names(ts),
            None => Seq::empty(),
        }
    }
}

impl<D, S, X, G, A, E, L, Q> WorkflowRuntime<D, S, X, G, A, E, L, Q> {
    /// The transitions that the runtime could fire from where an instance stands.
    pub fn deterministic_legal_now(&self, instance: &WorkflowInstance) -> (r: Vec<String>)
        ensures
            texts(r@) == own_now(instance@),
    {
        let mut out: Vec<String> = Vec::new();
        assert(texts(out@) =~= Seq::empty());
        if is_terminal(&instance.definition, instance.state.as_str()) {
            return out;
        }
        let ts = match find_transitions(&instance.definition, instance.state.as_str()) {
            Some(ts) => ts,
            None => {
                return out;
            },
        };
        let mut i: usize = 0;
        assert(ts@.take(0) =~= Seq::empty());
        while i < ts.len()
            invariant
                i <= ts@.len(),
                texts(out@) == own_names(ts@.take(i as int)),
            decreases ts@.len() - i,
        {
            let ghost next = ts@.take(i + 1);
            assert(next.drop_last() =~= ts@.take(i as int));
            assert(next.last() == ts@[i as int]);
            if is_deterministic(ts.value_at(i)) {
                let ghost before = out@;
                let name = ts.key_at(i).clone();
                out.push(name);
                assert(texts(out@) =~= texts(before).push(name@));
            }
            i = i + 1;
        }
        assert(ts@.take(i as int) =~= ts@);
        out
    }
}

/// The names of all transitions from where an instance stands.
pub open spec fn names_now(i: InstanceView) -> Seq<Seq<char>> {
    match transitions_of(i.definition, i.state) {
        Some(ts) => crate::runtime::records::keys_of(ts),
        None => Seq::empty(),
    }
}

fn list_names(instance: &WorkflowInstance) -> (r: Vec<String>)
    ensures
        texts(r@) == names_now(instance@),
{
    let mut out: Vec<String> = Vec::new();
    let ts = match find_transitions(&instance.definition, instance.state.as_str()) {
        Some(ts) => ts,
        None => {
            assert(texts(out@) =~= Seq::empty());
            return out;
        },
    };
    let mut i: usize = 0;
    while i < ts.len()
        invariant
            i <= ts@.len(),
            i == out@.len(),
            forall|k: int| 0 <= k < i ==> (#[trigger] out@[k])@ == ts@[k].0,
        decreases ts@.len() - i,
    {
        out.push(ts.key_at(i).clone());
        i = i + 1;
    }
    assert(texts(out@) =~= crate::runtime::records::keys_of(ts@));
    out
}

/// Who fires a transition.
pub open spec fn actor_now(i: InstanceView, transition: Seq<char>) -> Seq<char> {
    match transition_def(i.definition, i.state, transition) {
        Some(t) => text_or(t.get_str("actor"@), "agent"@),
        None => "agent"@,
    }
}

/// Whether a transition can be taken from where an instance stands, and what else can.
pub open spec fn explained(i: InstanceView, transition: Seq<char>) -> Members {
    let actor = actor_now(i, transition);
    obj().with("workflowId"@, JsonView::Str(i.id)).with(
        "currentState"@,
        JsonView::Str(i.state),
    ).with("transition"@, JsonView::Str(transition)).with(
        "allowedFromCurrentState"@,
        JsonView::Bool(transition_def(i.definition, i.state, transition) is Some),
    ).with("actor"@, JsonView::Str(actor)).with(
        "deterministic"@,
        JsonView::Bool(actor == "deterministic"@),
    ).with("legalTransitionsNow"@, JsonView::Array(file_list(names_now(i)))).m
}

impl<D, S, X, G, A, E, L, Q> WorkflowRuntime<D, S, X, G, A, E, L, Q> {
    /// Explains whether a transition can be taken.
    pub fn explain(&self, instance: &WorkflowInstance, transition: &str) -> (r: JsonMap)
        ensures
            r@ == explained(instance@, transition@),
    {
        broadcast use crate::json::array_view;

        let found = transition_definition(&instance.definition, instance.state.as_str(), transition);
        let actor = match found {
            Some(t) => match t.get_str("actor") {
                Some(a) => a,
                None => "agent",
            },
            None => "agent",
        };
        JsonMap::new().with("workflowId", Json::text(instance.id.as_str())).with(
            "currentState",
            Json::text(instance.state.as_str()),
        ).with("transition", Json::text(transition)).with(
            "allowedFromCurrentState",
            Json::Bool(found.is_some()),
        ).with("actor", Json::text(actor)).with(
            "deterministic",
            Json::Bool(same(actor, "deterministic")),
        ).with("legalTransitionsNow", Json::Array(files_as_strings(&list_names(instance))))
    }
}

/// An entry of a library that an instance carries.
pub open spec fn library_entry(definition: JsonView, library: Seq<char>, subject: Seq<char>) -> Option<
    JsonView,
> {
    match crate::pointer::pointed(definition, library) {
        Some(lib) => match lib.as_object() {
            Some(m) => lookup(m, subject),
            None => None,
        },
        None => None,
    }
}

fn find_entry<'a>(definition: &'a Json, library: &str, subject: &str) -> (r: Option<&'a Json>)
    ensures
        crate::json::opt_view(r) == library_entry(definition@, library@, subject@),
{
    match definition.pointer(library) {
        Some(lib) => match lib.as_object() {
            Some(m) => m.get(subject),
            None => None,
        },
        None => None,
    }
}

/// A fragment as it is shown.
pub open spec fn fragment(
    kind: Seq<char>,
    subject: Seq<char>,
    verb: Seq<char>,
    lifecycle: Seq<char>,
    hash: Seq<char>,
    body: Seq<char>,
) -> JsonView {
    obj().with("kind"@, JsonView::Str(kind)).with("subject"@, JsonView::Str(subject)).with(
        "verb"@,
        JsonView::Str(verb),
    ).with("lifecycle"@, JsonView::Str(lifecycle)).with("hash"@, JsonView::Str(hash)).with(
        "body"@,
        JsonView::Str(body),
    ).json()
}

fn make_fragment(
    kind: &str,
    subject: &str,
    verb: &str,
    lifecycle: &str,
    hash: &str,
    body: &str,
) -> (r: Json)
    ensures
        r@ == fragment(kind@, subject@, verb@, lifecycle@, hash@, body@),
{
    Json::Object(
        JsonMap::new().with("kind", Json::text(kind)).with("subject", Json::text(subject)).with(
            "verb",
            Json::text(verb),
        ).with("lifecycle", Json::text(lifecycle)).with("hash", Json::text(hash)).with(
            "body",
            Json::text(body),
        ),
    )
}

/// A text of an entry, empty where it is not there.
pub open spec fn entry_text(e: JsonView, key: Seq<char>) -> Seq<char> {
    text_or(e.get_str(key), Seq::empty())
}

fn read_entry_text<'a>(e: &'a Json, key: &str) -> (r: &'a str)
    ensures
        r@ == entry_text(e@, key@),
{
    match e.get_str(key) {
        Some(s) => s,
        None => {
            proof {
                reveal_strlit("");
                assert(""@ =~= Seq::<char>::empty());
            }
            ""
        },
    }
}

/// That an entry of the skills lacks its verb or its hash.
pub open spec fn corrupt_guidance(subject: Seq<char>, lacks: Seq<char>) -> Seq<char> {
    "CORRUPT_GUIDANCE_ENTRY: skills library entry for subject '"@ + subject
        + "' is present but has no string "@ + lacks
}

fn make_corrupt_guidance(subject: &str, lacks: &str) -> (r: String)
    ensures
        r@ == corrupt_guidance(subject@, lacks@),
{
    let mut m = "CORRUPT_GUIDANCE_ENTRY: skills library entry for subject '".to_owned();
    m.append(subject);
    m.append("' is present but has no string ");
    m.append(lacks);
    m
}

/// The guidance on a subject, as the instance carries it. An entry without a verb or a hash
/// is refused: an acknowledgement could be held against nothing.
pub open spec fn guidance_on(i: InstanceView, subject: Seq<char>) -> Result<
    Option<JsonView>,
    Seq<char>,
> {
    match library_entry(i.definition, "/_skillsLibrary"@, subject) {
        None => Ok(None),
        Some(e) => match text_at(e, "/verb"@) {
            None => Err(corrupt_guidance(subject, "`verb`"@)),
            Some(verb) => match text_at(e, "/hash"@) {
                None => Err(
                    corrupt_guidance(subject, "`hash` (required for hash-flip ack guards)"@),
                ),
                Some(hash) => Ok(
                    Some(
                        fragment(
                            "guidance"@,
                            subject,
                            verb,
                            entry_text(e, "lifecycle"@),
                            hash,
                            entry_text(e, "body"@),
                        ),
                    ),
                ),
            },
        },
    }
}

impl<D, S, X, G, A, E, L, Q> WorkflowRuntime<D, S, X, G, A, E, L, Q> {
    /// Describes the guidance on a subject, as it was when the instance was started.
    pub fn describe_guidance_for_workflow(&self, instance: &WorkflowInstance, subject: &str) -> (r: Result<
        Option<Json>,
        String,
    >)
        ensures
            (match r {
                Ok(v) => Ok(opt_json(v)),
                Err(m) => Err(m@),
            }) == guidance_on(instance@, subject@),
    {
        let e = match find_entry(&instance.definition, "/_skillsLibrary", subject) {
            Some(e) => e,
            None => {
                return Ok(None);
            },
        };
        let verb = match required_str(e, "/verb") {
            Ok(v) => v,
            Err(_) => {
                return Err(make_corrupt_guidance(subject, "`verb`"));
            },
        };
        let hash = match required_str(e, "/hash") {
            Ok(h) => h,
            Err(_) => {
                return Err(
                    make_corrupt_guidance(subject, "`hash` (required for hash-flip ack guards)"),
                );
            },
        };
        Ok(
            Some(
                make_fragment(
                    "guidance",
                    subject,
                    verb,
                    read_entry_text(e, "lifecycle"),
                    hash,
                    read_entry_text(e, "body"),
                ),
            ),
        )
    }
}

/// The script on a subject, as the instance carries it.
pub open spec fn script_on(i: InstanceView, subject: Seq<char>) -> Option<JsonView> {
    match library_entry(i.definition, "/_scriptsLibrary"@, subject) {
        None => None,
        Some(e) => Some(
            fragment(
                "script"@,
                subject,
                entry_text(e, "verb"@),
                entry_text(e, "lifecycle"@),
                entry_text(e, "hash"@),
                entry_text(e, "body"@),
            ),
        ),
    }
}

impl<D, S, X, G, A, E, L, Q> WorkflowRuntime<D, S, X, G, A, E, L, Q> {
    /// Describes the script on a subject, as it was when the instance was started.
    pub fn describe_script_for_workflow(&self, instance: &WorkflowInstance, subject: &str) -> (r: Option<Json>)
        ensures
            opt_json(r) == script_on(instance@, subject@),
    {
        match find_entry(&instance.definition, "/_scriptsLibrary", subject) {
            None => None,
            Some(e) => Some(
                make_fragment(
                    "script",
                    subject,
                    read_entry_text(e, "verb"),
                    read_entry_text(e, "lifecycle"),
                    read_entry_text(e, "hash"),
                    read_entry_text(e, "body"),
                ),
            ),
        }
    }
}

} // verus!
