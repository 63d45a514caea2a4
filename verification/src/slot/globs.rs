//! Sets of glob patterns.

use vstd::prelude::*;

verus! {

#[verifier::external_type_specification]
#[verifier::external_body]
pub struct ExGlobSetBuilder(globset::GlobSetBuilder);

#[verifier::external_type_specification]
#[verifier::external_body]
pub struct ExGlobSet(globset::GlobSet);

/// The patterns that were added to a builder, in order.
pub uninterp spec fn added(b: globset::GlobSetBuilder) -> Seq<Seq<char>>;

/// The patterns of a set, in order.
pub uninterp spec fn patterns(s: globset::GlobSet) -> Seq<Seq<char>>;

/// Why a text is no glob pattern; nothing where it is one.
pub uninterp spec fn glob_error(pattern: Seq<char>) -> Option<Seq<char>>;

/// Why patterns cannot be put into one set; nothing where they can.
pub uninterp spec fn set_error(patterns: Seq<Seq<char>>) -> Option<Seq<char>>;

/// Whether a pattern, in which a lone `*` stays within one part of a path, matches a path.
pub uninterp spec fn glob_matches(pattern: Seq<char>, path: Seq<char>) -> bool;

/// Whether one of the patterns matches a path.
pub open spec fn some_matches(patterns: Seq<Seq<char>>, path: Seq<char>) -> bool {
    exists|i: int| 0 <= i < patterns.len() && glob_matches(#[trigger] patterns[i], path)
}

/// `globset::GlobSetBuilder::new`. Claimed: nothing was added yet.
#[verifier::external_body]
pub(crate) fn new_builder() -> (r: globset::GlobSetBuilder)
    ensures
        added(r) == Seq::<Seq<char>>::empty(),
{
    globset::GlobSetBuilder::new()
}

/// `globset::GlobBuilder::build`, with `literal_separator(true)`, and
/// `globset::GlobSetBuilder::add`. Claimed, for a platform whose paths are parted by the
/// slash alone: whether a text is a pattern, and the error's text where it is none, depend
/// on the text alone; a pattern is added behind the others, and nothing else changes. Not
/// stated: which texts are patterns.
#[verifier::external_body]
pub(crate) fn add_glob(b: &mut globset::GlobSetBuilder, pattern: &str) -> (r: Result<(), String>)
    ensures
        match r {
            Ok(_) => glob_error(pattern@) is None && added(*final(b)) == added(*old(b)).push(
                pattern@,
            ),
            Err(e) => glob_error(pattern@) == Some(e@) && added(*final(b)) == added(*old(b)),
        },
{
    match globset::GlobBuilder::new(pattern).literal_separator(true).build() {
        Ok(glob) => {
            b.add(glob);
            Ok(())
        },
        Err(e) => Err(e.to_string()),
    }
}

/// `globset::Glob::new`. Claimed: it accepts and refuses the texts that a builder with
/// another setting for separators accepts and refuses, with the same error texts; the
/// setting shapes only what a pattern matches.
#[verifier::external_body]
pub(crate) fn glob_fault(pattern: &str) -> (r: Option<String>)
    ensures
        crate::text::opt_string(r) == glob_error(pattern@),
{
    match globset::Glob::new(pattern) {
        Ok(_) => None,
        Err(e) => Some(e.to_string()),
    }
}

/// `globset::GlobSetBuilder::build`. Claimed: whether a set comes of it, and the error's
/// text where none does, depend on the added patterns alone; a set has these patterns; a
/// set of none always comes. Not stated: when patterns are too large together.
#[verifier::external_body]
pub(crate) fn build_set(b: &globset::GlobSetBuilder) -> (r: Result<globset::GlobSet, String>)
    ensures
        match r {
            Ok(s) => set_error(added(*b)) is None && patterns(s) == added(*b),
            Err(e) => set_error(added(*b)) == Some(e@),
        },
        added(*b).len() == 0 ==> r is Ok,
{
    match b.build() {
        Ok(s) => Ok(s),
        Err(e) => Err(e.to_string()),
    }
}

/// `globset::GlobSet::is_empty`. Claimed: whether the set has no pattern.
#[verifier::external_body]
pub(crate) fn no_patterns(s: &globset::GlobSet) -> (r: bool)
    ensures
        r == (patterns(*s).len() == 0),
{
    s.is_empty()
}

/// `globset::GlobSet::is_match`. Claimed: whether one of the patterns matches the path,
/// which depends on pattern and path alone. Not stated: which paths a pattern matches.
#[verifier::external_body]
pub(crate) fn matches_set(s: &globset::GlobSet, path: &str) -> (r: bool)
    ensures
        r == (exists|i: int|
            0 <= i < patterns(*s).len() && glob_matches(#[trigger] patterns(*s)[i], path@)),
{
    s.is_match(path)
}

} // verus!
