//! Which skills a step is given, and what the places of a text read.

use vstd::prelude::*;

use crate::json::{lookup, JsonView, Members};
use crate::model::InstanceView;
use crate::pointer::pointed;
use crate::runtime::agent_laws::law_texts_of_a_list;
use crate::runtime::links::{
    law_distinct, skills_in_scope, skills_of, state_def, text_or, transition_def,
};
use crate::skills::{skill_block, skill_blocks, system_message, AssemblyFault};
use crate::templating::{dotted, read_path};
use crate::text::{joined, occurs, stands_at, trimmed};

verus! {

/// Whether a declaration lists a skill.
pub open spec fn lists_skill(v: Option<JsonView>, subject: Seq<char>) -> bool {
    v matches Some(d) && (d.get("skills"@) matches Some(JsonView::Array(a)) && a.contains(
        JsonView::Str(subject),
    ))
}

/// A step is given exactly the skills that the definition, its state or its transition lists, none
/// of them twice.
pub proof fn law_skills_in_scope(
    definition: JsonView,
    state: Seq<char>,
    transition: Option<Seq<char>>,
    subject: Seq<char>,
)
    ensures
        skills_in_scope(definition, state, transition).contains(subject) <==> {
            ||| lists_skill(Some(definition), subject)
            ||| lists_skill(definition.at(seq!["states"@, state]), subject)
            ||| (transition matches Some(t) && lists_skill(
                definition.at(seq!["states"@, state, "transitions"@, t]),
                subject,
            ))
        },
        skills_in_scope(definition, state, transition).no_duplicates(),
{
    let path = seq!["states"@, state];
    reveal_with_fuel(JsonView::at, 5);
    assert(path.drop_first() =~= seq![state]);
    assert(path.drop_first().drop_first() =~= Seq::empty());
    let a = skills_of(Some(definition));
    let b = skills_of(state_def(definition, state));
    lemma_listed(Some(definition), subject);
    lemma_listed(state_def(definition, state), subject);
    lemma_either(a, b, subject);
    law_distinct(a + b);
    if let Some(t) = transition {
        let deep = seq!["states"@, state, "transitions"@, t];
        assert(deep.drop_first() =~= seq![state, "transitions"@, t]);
        assert(deep.drop_first().drop_first() =~= seq!["transitions"@, t]);
        assert(deep.drop_first().drop_first().drop_first() =~= seq![t]);
        assert(deep.drop_first().drop_first().drop_first().drop_first() =~= Seq::empty());
        let c = skills_of(transition_def(definition, state, t));
        lemma_listed(transition_def(definition, state, t), subject);
        lemma_either(a + b, c, subject);
        law_distinct(a + b + c);
    }
}

proof fn lemma_listed(v: Option<JsonView>, subject: Seq<char>)
    ensures
        skills_of(v).contains(subject) <==> lists_skill(v, subject),
{
    if let Some(d) = v {
        law_texts_of_a_list(d.get("skills"@), subject);
    }
}

proof fn lemma_either(a: Seq<Seq<char>>, b: Seq<Seq<char>>, x: Seq<char>)
    ensures
        (a + b).contains(x) <==> a.contains(x) || b.contains(x),
{
    if a.contains(x) {
        let k = choose|k: int| 0 <= k < a.len() && a[k] == x;
        assert((a + b)[k] == x);
    }
    if b.contains(x) {
        let k = choose|k: int| 0 <= k < b.len() && b[k] == x;
        assert((a + b)[a.len() + k] == x);
    }
    if (a + b).contains(x) {
        let k = choose|k: int| 0 <= k < (a + b).len() && (a + b)[k] == x;
        if k < a.len() {
            assert(a[k] == x);
        } else {
            assert(b[k - a.len()] == x);
        }
    }
}

/// The text of a skill in a library, where it has one that is not blank.
pub open spec fn skill_text(definition: JsonView, subject: Seq<char>) -> Option<Seq<char>> {
    match definition.get("_skillsLibrary"@) {
        Some(JsonView::Object(lib)) => match lookup(lib, subject) {
            Some(e) => match e.get_str("body"@) {
                Some(body) => if trimmed(body).len() > 0 {
                    Some(body)
                } else {
                    None
                },
                None => None,
            },
            None => None,
        },
        _ => None,
    }
}

proof fn lemma_stands_in(s: Seq<char>, part: Seq<char>, before: Seq<char>, after: Seq<char>)
    requires
        s == before + part + after,
    ensures
        occurs(s, part),
{
    let at = before.len() as int;
    assert(s.subrange(at, at + part.len()) =~= part);
    assert(stands_at(s, part, at));
}

proof fn lemma_occurs_through(s: Seq<char>, middle: Seq<char>, part: Seq<char>)
    requires
        occurs(s, middle),
        occurs(middle, part),
    ensures
        occurs(s, part),
{
    let i = choose|i: int| stands_at(s, middle, i);
    let j = choose|j: int| stands_at(middle, part, j);
    assert(s.subrange(i + j, i + j + part.len()) =~= part) by {
        assert forall|k: int| 0 <= k < part.len() implies s[i + j + k] == part[k] by {
            assert(s.subrange(i, i + middle.len())[j + k] == middle[j + k]);
            assert(middle.subrange(j, j + part.len())[k] == part[k]);
        }
    }
    assert(stands_at(s, part, i + j));
}

proof fn lemma_joined(parts: Seq<Seq<char>>, sep: Seq<char>, k: int)
    requires
        0 <= k < parts.len(),
    ensures
        occurs(joined(parts, sep), parts[k]),
    decreases parts.len(),
{
    if parts.len() == 1 {
        assert(parts[0] =~= Seq::<char>::empty() + parts[0] + Seq::<char>::empty());
        lemma_stands_in(parts[0], parts[0], Seq::empty(), Seq::empty());
    } else {
        let init = parts.drop_last();
        let all = joined(parts, sep);
        if k < init.len() {
            lemma_joined(init, sep, k);
            assert(init[k] == parts[k]);
            assert(all =~= Seq::<char>::empty() + joined(init, sep) + (sep + parts.last()));
            lemma_stands_in(all, joined(init, sep), Seq::empty(), sep + parts.last());
            lemma_occurs_through(all, joined(init, sep), parts[k]);
        } else {
            assert(all =~= joined(init, sep) + sep + parts.last() + Seq::<char>::empty());
            assert(all =~= (joined(init, sep) + sep) + parts.last() + Seq::<char>::empty());
            lemma_stands_in(all, parts.last(), joined(init, sep) + sep, Seq::empty());
        }
    }
}

/// The skill that a fault is about.
pub open spec fn fault_of(f: AssemblyFault) -> Seq<char> {
    match f {
        AssemblyFault::SubjectUnknown(s) => s,
        AssemblyFault::BodyMissing(s) => s,
    }
}

/// Whether a block has the text of a skill.
pub open spec fn has_text(definition: JsonView, subject: Seq<char>, block: Seq<char>) -> bool {
    skill_text(definition, subject) matches Some(body) && occurs(block, body)
}

proof fn lemma_block(definition: JsonView, subject: Seq<char>)
    ensures
        match skill_block(definition.get_object("_skillsLibrary"@), subject) {
            Ok(b) => has_text(definition, subject, b),
            Err(f) => fault_of(f) == subject && skill_text(definition, subject) is None,
        },
{
    let library = definition.get_object("_skillsLibrary"@);
    if let Ok(b) = skill_block(library, subject) {
        let e = lookup(library->0, subject)->0;
        let body = e.get_str("body"@)->0;
        let front = "## "@ + text_or(e.get_str("verb"@), "skill"@) + "."@ + subject + "\n\n"@;
        assert(b =~= front + body + Seq::<char>::empty());
        lemma_stands_in(b, body, front, Seq::empty());
    }
}

proof fn lemma_blocks(definition: JsonView, library: Option<Members>, subjects: Seq<Seq<char>>)
    requires
        library == definition.get_object("_skillsLibrary"@),
    ensures
        match skill_blocks(library, subjects) {
            Ok(blocks) => blocks.len() == subjects.len() && forall|k: int|
                0 <= k < blocks.len() ==> has_text(definition, subjects[k], #[trigger] blocks[k]),
            Err(f) => subjects.contains(fault_of(f)) && skill_text(definition, fault_of(f)) is None,
        },
    decreases subjects.len(),
{
    if subjects.len() > 0 {
        let init = subjects.drop_last();
        let last = subjects.last();
        lemma_blocks(definition, library, init);
        lemma_block(definition, last);
        lemma_one_more(definition, library, subjects);
    }
}

proof fn lemma_one_more(definition: JsonView, library: Option<Members>, subjects: Seq<Seq<char>>)
    requires
        subjects.len() > 0,
        match skill_blocks(library, subjects.drop_last()) {
            Ok(blocks) => blocks.len() == subjects.len() - 1 && forall|k: int|
                0 <= k < blocks.len() ==> has_text(
                    definition,
                    subjects.drop_last()[k],
                    #[trigger] blocks[k],
                ),
            Err(f) => subjects.drop_last().contains(fault_of(f)) && skill_text(
                definition,
                fault_of(f),
            ) is None,
        },
        match skill_block(library, subjects.last()) {
            Ok(b) => has_text(definition, subjects.last(), b),
            Err(f) => fault_of(f) == subjects.last() && skill_text(definition, subjects.last())
                is None,
        },
    ensures
        match skill_blocks(library, subjects) {
            Ok(blocks) => blocks.len() == subjects.len() && forall|k: int|
                0 <= k < blocks.len() ==> has_text(definition, subjects[k], #[trigger] blocks[k]),
            Err(f) => subjects.contains(fault_of(f)) && skill_text(definition, fault_of(f)) is None,
        },
{
    let init = subjects.drop_last();
    assert(subjects[subjects.len() - 1] == subjects.last());
    match skill_blocks(library, init) {
        Err(f) => {
            let k = choose|k: int| 0 <= k < init.len() && init[k] == fault_of(f);
            assert(subjects[k] == fault_of(f));
        },
        Ok(before) => {
            if let Ok(blocks) = skill_blocks(library, subjects) {
                assert forall|k: int| 0 <= k < blocks.len() implies has_text(
                    definition,
                    subjects[k],
                    #[trigger] blocks[k],
                ) by {
                    if k < before.len() {
                        assert(blocks[k] == before[k]);
                        assert(init[k] == subjects[k]);
                    }
                }
            }
        },
    }
}

/// The message for a step has the text of every skill in scope, as it is. There is none where no
/// skill is in scope, and it is refused only for a skill in scope without a text.
pub proof fn law_messages_have_every_skill(
    definition: JsonView,
    state: Seq<char>,
    transition: Option<Seq<char>>,
)
    ensures
        ({
            let subjects = skills_in_scope(definition, state, transition);
            match system_message(definition, state, transition) {
                Ok(None) => subjects.len() == 0,
                Ok(Some(m)) => subjects.len() > 0 && forall|k: int|
                    0 <= k < subjects.len() ==> has_text(definition, #[trigger] subjects[k], m),
                Err(f) => subjects.contains(fault_of(f)) && skill_text(definition, fault_of(f))
                    is None,
            }
        }),
{
    let subjects = skills_in_scope(definition, state, transition);
    let library = definition.get_object("_skillsLibrary"@);
    lemma_blocks(definition, library, subjects);
    if let Ok(blocks) = skill_blocks(library, subjects) {
        if subjects.len() > 0 {
            let m = joined(blocks, "\n\n"@);
            assert forall|k: int| 0 <= k < subjects.len() implies has_text(
                definition,
                #[trigger] subjects[k],
                m,
            ) by {
                assert(has_text(definition, subjects[k], blocks[k]));
                lemma_joined(blocks, "\n\n"@, k);
                lemma_occurs_through(m, blocks[k], skill_text(definition, subjects[k])->0);
            }
        }
    }
}

/// A place below the context or the input reads what stands there: a text as it is.
pub proof fn law_places_read_their_root(tail: Seq<char>, i: InstanceView)
    ensures
        pointed(i.context, dotted(tail)) matches Some(JsonView::Str(s)) ==> read_path(
            "$.context."@ + tail,
            i,
        ) == s,
        pointed(i.input, dotted(tail)) matches Some(JsonView::Str(s)) ==> read_path(
            "$.workflow.input."@ + tail,
            i,
        ) == s,
        read_path("$.workflow.id"@, i) == i.id,
        read_path("$.workflow.state"@, i) == i.state,
        read_path("$.workflow.version"@, i) == i.definition_version,
        read_path("$.run.repo_root"@, i) == i.run_env.repo_root,
{
    reveal_strlit("$.context.");
    reveal_strlit("$.workflow.input.");
    reveal_strlit("$.workflow.id");
    reveal_strlit("$.workflow.state");
    reveal_strlit("$.workflow.version");
    reveal_strlit("$.run.repo_root");
    let c = "$.context."@ + tail;
    let w = "$.workflow.input."@ + tail;
    assert(c[2] == 'c');
    assert("$.workflow.id"@[2] == 'w' && "$.workflow.state"@[2] == 'w' && "$.workflow.version"@[2]
        == 'w' && "$.run.repo_root"@[2] == 'r');
    assert(c.subrange(0, "$.context."@.len() as int) =~= "$.context."@);
    assert(c.skip("$.context."@.len() as int) =~= tail);
    assert(w[2] == 'w' && w[11] == 'i' && w[12] == 'n' && w.len() >= 17);
    assert("$.workflow.id"@[12] == 'd' && "$.workflow.state"@[11] == 's'
        && "$.workflow.version"@[11] == 'v');
    assert(w.subrange(0, "$.workflow.input."@.len() as int) =~= "$.workflow.input."@);
    assert(w.skip("$.workflow.input."@.len() as int) =~= tail);
    assert(!"$.context."@.is_prefix_of(w)) by {
        if "$.context."@.is_prefix_of(w) {
            assert(w.subrange(0, "$.context."@.len() as int)[2] == w[2]);
            assert("$.context."@[2] == 'c');
        }
    }
    assert("$.workflow.id"@.len() == 13 && "$.workflow.state"@.len() == 16
        && "$.workflow.version"@.len() == 18 && "$.run.repo_root"@.len() == 15);
}

} // verus!
