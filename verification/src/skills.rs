//! The system message of an agent, put together from the skills in scope.

use vstd::prelude::*;

use crate::hashing::{sha256_of, sha256_text};
use crate::json::{lookup, opt_text, Json, JsonMap, JsonView, Members};
use crate::runtime::links::{collect_in_scope_skill_subjects, skills_in_scope, text_or};
use crate::text::{join, joined, opt_string, texts, trim, trimmed};

verus! {

/// A skill that is in scope but cannot be put into the message.
#[derive(Debug, Clone, PartialEq, Eq)]
pub enum SkillAssemblyError {
    /// The library does not have it.
    SubjectUnknown(String),
    /// It has no text.
    BodyMissing(String),
}

/// The model of such an error.
pub enum AssemblyFault {
    SubjectUnknown(Seq<char>),
    BodyMissing(Seq<char>),
}

impl SkillAssemblyError {
    pub open spec fn view(&self) -> AssemblyFault {
        match self {
            SkillAssemblyError::SubjectUnknown(s) => AssemblyFault::SubjectUnknown(s@),
            SkillAssemblyError::BodyMissing(s) => AssemblyFault::BodyMissing(s@),
        }
    }
}

/// The block of one skill: a heading, and its text as it is.
pub open spec fn skill_block(library: Option<Members>, subject: Seq<char>) -> Result<
    Seq<char>,
    AssemblyFault,
> {
    match (match library {
        Some(lib) => lookup(lib, subject),
        None => None,
    }) {
        None => Err(AssemblyFault::SubjectUnknown(subject)),
        Some(e) => match e.get_str("body"@) {
            None => Err(AssemblyFault::BodyMissing(subject)),
            Some(body) => if trimmed(body).len() == 0 {
                Err(AssemblyFault::BodyMissing(subject))
            } else {
                Ok(
                    "## "@ + text_or(e.get_str("verb"@), "skill"@) + "."@ + subject + "\n\n"@
                        + body,
                )
            },
        },
    }
}

/// The blocks of skills, in their order. The first that cannot be made decides.
pub open spec fn skill_blocks(library: Option<Members>, subjects: Seq<Seq<char>>) -> Result<
    Seq<Seq<char>>,
    AssemblyFault,
>
    decreases subjects.len(),
{
    if subjects.len() == 0 {
        Ok(Seq::empty())
    } else {
        match skill_blocks(library, subjects.drop_last()) {
            Err(e) => Err(e),
            Ok(before) => match skill_block(library, subjects.last()) {
                Err(e) => Err(e),
                Ok(b) => Ok(before.push(b)),
            },
        }
    }
}

/// The message for a step, if any skills are in scope.
pub open spec fn system_message(
    definition: JsonView,
    state: Seq<char>,
    transition: Option<Seq<char>>,
) -> Result<Option<Seq<char>>, AssemblyFault> {
    let subjects = skills_in_scope(definition, state, transition);
    if subjects.len() == 0 {
        Ok(None)
    } else {
        match skill_blocks(definition.get_object("_skillsLibrary"@), subjects) {
            Ok(blocks) => Ok(Some(joined(blocks, "\n\n"@))),
            Err(e) => Err(e),
        }
    }
}

spec fn opt_members(m: Option<&JsonMap>) -> Option<Members> {
    match m {
        Some(m) => Some(m@),
        None => None,
    }
}

fn make_block(library: Option<&JsonMap>, subject: &str) -> (r: Result<String, SkillAssemblyError>)
    ensures
        (match r {
            Ok(b) => Ok(b@),
            Err(e) => Err(e@),
        }) == skill_block(opt_members(library), subject@),
{
    let found = match library {
        Some(lib) => lib.get(subject),
        None => None,
    };
    let e = match found {
        Some(e) => e,
        None => {
            return Err(SkillAssemblyError::SubjectUnknown(subject.to_owned()));
        },
    };
    let body = match e.get_str("body") {
        Some(b) => b,
        None => {
            return Err(SkillAssemblyError::BodyMissing(subject.to_owned()));
        },
    };
    if trim(body).as_str().is_empty() {
        return Err(SkillAssemblyError::BodyMissing(subject.to_owned()));
    }
    let verb = match e.get_str("verb") {
        Some(v) => v,
        None => "skill",
    };
    let mut b = "## ".to_owned();
    b.append(verb);
    b.append(".");
    b.append(subject);
    b.append("\n\n");
    b.append(body);
    Ok(b)
}

/// Puts the system message of a step together: the texts of the skills in scope, verbatim.
/// A skill that is declared but not there, or has no text, is an error.
pub fn assemble_system_message(definition: &Json, state: &str, transition: Option<&str>) -> (r:
    Result<Option<String>, SkillAssemblyError>)
    ensures
        (match r {
            Ok(s) => Ok(opt_string(s)),
            Err(e) => Err(e@),
        }) == system_message(definition@, state@, opt_text(transition)),
{
    let subjects = collect_in_scope_skill_subjects(definition, state, transition);
    let ghost ss = texts(subjects@);
    assert(ss.len() == subjects@.len());
    if subjects.len() == 0 {
        return Ok(None);
    }
    let library = definition.get_object("_skillsLibrary");
    let mut blocks: Vec<String> = Vec::new();
    let mut i: usize = 0;
    assert(ss.take(0) =~= Seq::empty());
    assert(texts(blocks@) =~= Seq::empty());
    while i < subjects.len()
        invariant
            i <= subjects@.len(),
            ss == texts(subjects@),
            ss.len() == subjects@.len(),
            skill_blocks(opt_members(library), ss.take(i as int)) == Ok::<
                Seq<Seq<char>>,
                AssemblyFault,
            >(texts(blocks@)),
            ss == skills_in_scope(definition@, state@, opt_text(transition)),
            ss.len() > 0,
            opt_members(library) == definition@.get_object("_skillsLibrary"@),
        decreases subjects@.len() - i,
    {
        let ghost next = ss.take(i + 1);
        assert(next.drop_last() =~= ss.take(i as int));
        assert(next.last() == subjects@[i as int]@);
        match make_block(library, subjects[i].as_str()) {
            Ok(b) => {
                let ghost before = blocks@;
                blocks.push(b);
                assert(texts(blocks@) =~= texts(before).push(b@));
            },
            Err(e) => {
                proof {
                    lemma_first_fault(opt_members(library), ss, i + 1);
                }
                return Err(e);
            },
        }
        i = i + 1;
    }
    assert(ss.take(i as int) =~= ss);
    Ok(Some(join(&blocks, "\n\n")))
}

/// A fault among the first subjects is the fault of all.
proof fn lemma_first_fault(library: Option<Members>, subjects: Seq<Seq<char>>, k: int)
    requires
        0 <= k <= subjects.len(),
        skill_blocks(library, subjects.take(k)) is Err,
    ensures
        skill_blocks(library, subjects) == skill_blocks(library, subjects.take(k)),
    decreases subjects.len() - k,
{
    if k == subjects.len() {
        assert(subjects.take(k) =~= subjects);
    } else {
        let next = subjects.take(k + 1);
        assert(next.drop_last() =~= subjects.take(k));
        lemma_first_fault(library, subjects, k + 1);
    }
}

/// The key under which a system message is cached: the hash of its text.
pub fn system_message_cache_key(system: &str) -> (r: String)
    ensures
        r@ == sha256_of(system@),
{
    sha256_text(system)
}

} // verus!
