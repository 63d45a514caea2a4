//! Searching a list for the first thing that is found.

use vstd::prelude::*;

verus! {

/// What is found first among the first `n` indices.
pub open spec fn first_some<A>(n: nat, found: spec_fn(int) -> Option<A>) -> Option<A>
    decreases n,
{
    if n == 0 {
        None
    } else {
        match first_some((n - 1) as nat, found) {
            Some(x) => Some(x),
            None => found(n - 1),
        }
    }
}

/// What is found among the first indices is what is found at all.
pub proof fn lemma_first_some<A>(k: nat, n: nat, found: spec_fn(int) -> Option<A>)
    requires
        k <= n,
        first_some(k, found) is Some,
    ensures
        first_some(n, found) == first_some(k, found),
    decreases n,
{
    if k < n {
        lemma_first_some(k, (n - 1) as nat, found);
    }
}

/// What is found is found at some index, and at none before.
pub proof fn lemma_found_at<A>(n: nat, found: spec_fn(int) -> Option<A>) -> (i: int)
    requires
        first_some(n, found) is Some,
    ensures
        0 <= i < n,
        found(i) == first_some(n, found),
        forall|j: int| 0 <= j < i ==> #[trigger] found(j) is None,
    decreases n,
{
    if first_some((n - 1) as nat, found) is Some {
        lemma_found_at((n - 1) as nat, found)
    } else {
        lemma_found_nowhere((n - 1) as nat, found);
        n - 1
    }
}

/// Nothing is found exactly where every index has nothing.
pub proof fn lemma_found_nowhere<A>(n: nat, found: spec_fn(int) -> Option<A>)
    ensures
        first_some(n, found) is None <==> forall|j: int| 0 <= j < n ==> #[trigger] found(j) is None,
    decreases n,
{
    if n > 0 {
        lemma_found_nowhere((n - 1) as nat, found);
        if first_some(n, found) is None {
            assert forall|j: int| 0 <= j < n implies #[trigger] found(j) is None by {
                if j < n - 1 {
                }
            }
        }
    }
}

} // verus!
