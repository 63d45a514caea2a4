//! What verdicts come to: which checks refuse what was written, and which root a run works on.

use vstd::prelude::*;

use crate::path::{lies_under, path_of};
use crate::runtime::records::{slot_violation, violation, SlotCheckView};
use crate::runtime::runtime::{allowed, run_root};
use crate::runtime::schema::{schema_fault, SchemaVerdict};
use crate::scan::{first_some, lemma_found_at, lemma_found_nowhere};

verus! {

/// The slot that a check is about.
pub open spec fn slot_of(c: SlotCheckView) -> Seq<char> {
    match c {
        SlotCheckView::Typed { slot, .. } => slot,
        SlotCheckView::Bound { slot, .. } => slot,
        SlotCheckView::Unregistered { slot, .. } => slot,
    }
}

/// Whether a check found what was written to fit: its schema is known, and the verdict on it is good.
pub open spec fn is_fine(c: SlotCheckView, v: SchemaVerdict) -> bool {
    !(c is Unregistered) && v == SchemaVerdict::Valid
}

/// What was written is refused if and only if one of its checks is not fine; the first such check
/// names the slot.
pub proof fn law_checks_refuse(checks: Seq<SlotCheckView>, v: Seq<SchemaVerdict>)
    requires
        v.len() == checks.len(),
    ensures
        match slot_violation(checks, v) {
            None => forall|k: int|
                #![trigger checks[k]]
                #![trigger v[k]]
                0 <= k < checks.len() ==> is_fine(checks[k], v[k]),
            Some((slot, _)) => exists|k: int|
                #![trigger checks[k]]
                0 <= k < checks.len() && !is_fine(checks[k], v[k]) && slot == slot_of(checks[k])
                    && forall|m: int|
                    #![trigger checks[m]]
                    #![trigger v[m]]
                    0 <= m < k ==> is_fine(checks[m], v[m]),
        },
{
    let found = |i: int| violation(checks[i], v[i]);
    assert(slot_violation(checks, v) == first_some(checks.len(), found));
    lemma_found_nowhere(checks.len(), found);
    assert forall|k: int| #[trigger] found(k) is None <==> is_fine(checks[k], v[k]) by {}
    if slot_violation(checks, v) is Some {
        let k = lemma_found_at(checks.len(), found);
        assert(found(k) is Some);
        assert forall|m: int|
            #![trigger checks[m]]
            #![trigger v[m]]
            0 <= m < k implies is_fine(checks[m], v[m]) by {
            assert(found(m) is None);
        }
        assert(slot_of(checks[k]) == (found(k)->0).0);
    } else {
        assert forall|k: int|
            #![trigger checks[k]]
            #![trigger v[k]]
            0 <= k < checks.len() implies is_fine(checks[k], v[k]) by {
            assert(found(k) is None);
        }
    }
}

/// A value is refused for its schema if and only if the verdict on it is not good.
pub proof fn law_verdicts_refuse(verdict: SchemaVerdict, label: Seq<char>)
    ensures
        schema_fault(verdict, label) is None <==> verdict == SchemaVerdict::Valid,
{
}

/// Whether a directory is a root, or lies below one, name by name.
pub open spec fn is_within(roots: Seq<Seq<char>>, dir: Seq<char>) -> bool {
    exists|k: int|
        #![trigger roots[k]]
        0 <= k < roots.len() && path_of(dir).0 == path_of(roots[k]).0 && path_of(
            roots[k],
        ).1.is_prefix_of(path_of(dir).1)
}

/// Which root a run works on: the only one, where none is named; the named one, where it is declared;
/// else the directory that the name leads to, where that lies within a declared one. In every other
/// case there is none.
pub proof fn law_which_root_a_run_has(
    roots: Seq<Seq<char>>,
    name: Seq<char>,
    found: Result<Seq<char>, Seq<char>>,
    p: Seq<char>,
)
    ensures
        run_root(roots, None) == Ok::<Seq<char>, Seq<char>>(p) <==> roots.len() == 1 && roots[0] == p,
        run_root(roots, Some((name, found))) == Ok::<Seq<char>, Seq<char>>(p) <==> roots.len() > 0
            && if roots.contains(name) {
            p == name
        } else {
            found == Ok::<Seq<char>, Seq<char>>(p) && is_within(roots, p)
        },
{
    assert(allowed(roots, p) == is_within(roots, p)) by {
        if allowed(roots, p) {
            let k = choose|k: int|
                0 <= k < roots.len() && lies_under(path_of(p), path_of(#[trigger] roots[k]));
            assert(path_of(roots[k]).1.is_prefix_of(path_of(p).1));
        }
        if is_within(roots, p) {
            let k = choose|k: int|
                #![trigger roots[k]]
                0 <= k < roots.len() && path_of(p).0 == path_of(roots[k]).0 && path_of(
                    roots[k],
                ).1.is_prefix_of(path_of(p).1);
            assert(lies_under(path_of(p), path_of(roots[k])));
        }
    }
}

} // verus!
