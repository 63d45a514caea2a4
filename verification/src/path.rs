//! Paths as sequences of components: two spellings of the same components are the
//! same path.

use vstd::prelude::*;

use crate::run_env::absolute;
use crate::text::{chars_of, opt_string, same, split, split_text, texts};

verus! {

/// A path as its components: whether it starts at the root, and its names.
pub type PathView = (bool, Seq<Seq<char>>);

/// The components among the pieces between slashes: no empty piece, and a `.` only
/// at the very start.
pub open spec fn components(pieces: Seq<Seq<char>>) -> Seq<Seq<char>>
    decreases pieces.len(),
{
    if pieces.len() == 0 {
        Seq::empty()
    } else {
        let before = components(pieces.drop_last());
        let piece = pieces.last();
        if piece.len() == 0 || (piece == "."@ && pieces.len() > 1) {
            before
        } else {
            before.push(piece)
        }
    }
}

/// The path that a text spells.
pub open spec fn path_of(p: Seq<char>) -> PathView {
    (absolute(p), components(split(p, '/')))
}

/// Whether `inner` is `outer` or lies below it, component by component.
pub open spec fn lies_under(inner: PathView, outer: PathView) -> bool {
    inner.0 == outer.0 && outer.1.is_prefix_of(inner.1)
}

/// A path below another: a path that starts at the root stands alone.
pub open spec fn below(base: Seq<char>, part: Seq<char>) -> Seq<char> {
    if absolute(part) {
        part
    } else if base.len() == 0 || base.last() == '/' {
        base + part
    } else {
        base + "/"@ + part
    }
}

pub fn join_path(base: &str, part: &str) -> (r: String)
    ensures
        r@ == below(base@, part@),
{
    let b = chars_of(base);
    let p = chars_of(part);
    if p.len() > 0 && p[0] == '/' {
        return part.to_owned();
    }
    let mut r = base.to_owned();
    if b.len() > 0 && b[b.len() - 1] != '/' {
        r.append("/");
    }
    r.append(part);
    r
}

/// What is left of a path below a directory, where it lies below it.
pub uninterp spec fn rest_below(path: Seq<char>, base: Seq<char>) -> Option<Seq<char>>;

/// `std::path::Path::strip_prefix`. Claimed, for a platform whose paths are parted by the
/// slash alone: the result depends on the two paths alone, and below a directory that starts
/// at the root there is one where whole components agree. Not stated: how the rest is spelled
/// where the paths hold `.` or repeated slashes.
#[verifier::external_body]
pub(crate) fn strip_base(path: &str, base: &str) -> (r: Option<String>)
    ensures
        opt_string(r) == rest_below(path@, base@),
        absolute(base@) ==> (r is Some <==> lies_under(path_of(path@), path_of(base@))),
{
    match std::path::Path::new(path).strip_prefix(base) {
        Ok(p) => Some(p.display().to_string()),
        Err(_) => None,
    }
}

/// The components of a path.
pub struct PathKey {
    pub rooted: bool,
    pub parts: Vec<String>,
}

impl PathKey {
    pub open spec fn view(&self) -> PathView {
        (self.rooted, texts(self.parts@))
    }

    /// The components of the path that a text spells.
    pub fn of(p: &str) -> (r: PathKey)
        ensures
            r@ == path_of(p@),
    {
        let v = chars_of(p);
        let rooted = v.len() > 0 && v[0] == '/';
        let pieces = split_text(p, '/');
        let mut parts: Vec<String> = Vec::new();
        let mut i: usize = 0;
        assert(texts(parts@) =~= Seq::empty());
        while i < pieces.len()
            invariant
                i <= pieces@.len(),
                texts(parts@) == components(texts(pieces@).take(i as int)),
            decreases pieces@.len() - i,
        {
            let ghost next = texts(pieces@).take(i + 1);
            let ghost before = parts@;
            assert(next.drop_last() =~= texts(pieces@).take(i as int));
            assert(next.last() == pieces@[i as int]@);
            let piece = pieces[i].as_str();
            if !(piece.is_empty() || (same(piece, ".") && i > 0)) {
                parts.push(pieces[i].clone());
                assert(texts(parts@) =~= texts(before).push(piece@));
            }
            i = i + 1;
        }
        assert(texts(pieces@).take(i as int) =~= texts(pieces@));
        PathKey { rooted, parts }
    }

    /// Whether both are the same path.
    pub fn equals(&self, other: &PathKey) -> (r: bool)
        ensures
            r == (self@ == other@),
    {
        if self.rooted != other.rooted {
            return false;
        }
        if self.parts.len() != other.parts.len() {
            assert(texts(self.parts@).len() != texts(other.parts@).len());
            return false;
        }
        let under = self.under(other);
        proof {
            let a = texts(self.parts@);
            let b = texts(other.parts@);
            if b.is_prefix_of(a) {
                assert(a =~= b);
            }
            if a == b {
                assert(b =~= a.subrange(0, b.len() as int));
            }
        }
        under
    }

    /// Whether this path is `outer` or lies below it.
    pub fn under(&self, outer: &PathKey) -> (r: bool)
        ensures
            r == lies_under(self@, outer@),
    {
        if self.rooted != outer.rooted || outer.parts.len() > self.parts.len() {
            return false;
        }
        let ghost a = texts(self.parts@);
        let ghost b = texts(outer.parts@);
        let mut i: usize = 0;
        while i < outer.parts.len()
            invariant
                i <= outer.parts@.len() <= self.parts@.len(),
                a == texts(self.parts@),
                b == texts(outer.parts@),
                forall|j: int| 0 <= j < i ==> a[j] == b[j],
            decreases outer.parts@.len() - i,
        {
            if !same(self.parts[i].as_str(), outer.parts[i].as_str()) {
                assert(a.subrange(0, b.len() as int)[i as int] != b[i as int]);
                return false;
            }
            i = i + 1;
        }
        assert(a.subrange(0, b.len() as int) =~= b);
        true
    }
}

} // verus!
