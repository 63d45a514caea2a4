//! Which tools a search finds, and which come first.

use vstd::prelude::*;

use crate::text::{lowercase, occurs};
use crate::tool_catalog::candidate::CandidateView;
use crate::tool_catalog::catalog::{
    discovered, evaluated, fits, helps, law_discovered_in_order, law_evaluated_in_order, overlap,
    score,
};
use crate::tool_catalog::ranking::kept;

verus! {

/// Whether a query stands in one of the texts, whatever the case.
pub open spec fn one_has(list: Seq<Seq<char>>, q: Seq<char>) -> bool {
    exists|k: int| 0 <= k < list.len() && occurs(lowercase(#[trigger] list[k]), q)
}

/// Whether a query stands anywhere in what is told of a tool.
pub open spec fn tells_of(c: CandidateView, q: Seq<char>) -> bool {
    ||| occurs(lowercase(c.name), q)
    ||| occurs(lowercase(c.description), q)
    ||| one_has(c.tags, q)
    ||| one_has(c.verbs, q)
}

proof fn lemma_kept<A>(s: Seq<A>, wanted: spec_fn(A) -> bool, x: A)
    ensures
        kept(s, wanted).contains(x) <==> s.contains(x) && wanted(x),
    decreases s.len(),
{
    if s.len() > 0 {
        let init = s.drop_last();
        lemma_kept(init, wanted, x);
        let before = kept(init, wanted);
        let now = kept(s, wanted);
        if before.contains(x) {
            let k = choose|k: int| 0 <= k < before.len() && before[k] == x;
            assert(now[k] == x);
        }
        if init.contains(x) {
            let k = choose|k: int| 0 <= k < init.len() && init[k] == x;
            assert(s[k] == x);
        }
        if now.contains(x) {
            let k = choose|k: int| 0 <= k < now.len() && now[k] == x;
            if k < before.len() {
                assert(before[k] == x);
            } else {
                assert(s[s.len() - 1] == x);
            }
        }
        if s.contains(x) && wanted(x) {
            let k = choose|k: int| 0 <= k < s.len() && s[k] == x;
            if k < init.len() {
                assert(init[k] == x);
            } else {
                assert(now[before.len() as int] == x);
            }
        }
    }
}

proof fn lemma_same_members<A>(a: Seq<A>, b: Seq<A>, x: A)
    requires
        a.to_multiset() == b.to_multiset(),
    ensures
        a.contains(x) <==> b.contains(x),
{
    a.to_multiset_ensures();
    b.to_multiset_ensures();
    assert(a.contains(x) <==> a.to_multiset().count(x) > 0);
    assert(b.contains(x) <==> b.to_multiset().count(x) > 0);
}

/// A search finds exactly the tools of the catalog that tell of the query, all of them where the
/// query is empty.
pub proof fn law_searches_find(catalog: Seq<CandidateView>, query: Seq<char>, c: CandidateView)
    ensures
        ({
            let q = lowercase(query);
            discovered(catalog, query).contains(c) <==> catalog.contains(c) && (q.len() == 0
                || tells_of(c, q))
        }),
{
    let q = lowercase(query);
    if q.len() > 0 {
        law_discovered_in_order(catalog, query);
        lemma_kept(catalog, fits(q), c);
        lemma_same_members(discovered(catalog, query), kept(catalog, fits(q)), c);
        assert(fits(q)(c) <==> tells_of(c, q));
    }
}

/// A name counts for more than a description alone and for more than tags and verbs alone; a
/// description counts for more than tags and verbs.
pub proof fn law_names_count_most(a: CandidateView, b: CandidateView, q: Seq<char>)
    ensures
        score(a, q) >= 0,
        occurs(lowercase(a.name), q) && !occurs(lowercase(b.name), q) && !(occurs(
            lowercase(b.description),
            q,
        ) && (one_has(b.tags, q) || one_has(b.verbs, q))) ==> score(a, q) > score(b, q),
        !occurs(lowercase(a.name), q) && !occurs(lowercase(b.name), q) && occurs(
            lowercase(a.description),
            q,
        ) && !occurs(lowercase(b.description), q) ==> score(a, q) > score(b, q),
        tells_of(a, q) && !tells_of(b, q) ==> score(a, q) > score(b, q),
{
}

proof fn lemma_overlap(verbs: Seq<Seq<char>>, needed: Seq<Seq<char>>)
    ensures
        overlap(verbs, needed) > 0 <==> exists|k: int|
            0 <= k < verbs.len() && needed.contains(#[trigger] verbs[k]),
        overlap(verbs, needed) <= verbs.len(),
        overlap(verbs, needed) == verbs.len() <==> forall|k: int|
            0 <= k < verbs.len() ==> needed.contains(#[trigger] verbs[k]),
    decreases verbs.len(),
{
    if verbs.len() > 0 {
        let init = verbs.drop_last();
        lemma_overlap(init, needed);
        let n = verbs.len() - 1;
        assert(verbs[n] == verbs.last());
        assert forall|k: int| 0 <= k < n implies init[k] == #[trigger] verbs[k] by {}
        if exists|k: int| 0 <= k < init.len() && needed.contains(#[trigger] init[k]) {
            let k = choose|k: int| 0 <= k < init.len() && needed.contains(#[trigger] init[k]);
            assert(needed.contains(verbs[k]));
        }
        if exists|k: int| 0 <= k < verbs.len() && needed.contains(#[trigger] verbs[k]) {
            let k = choose|k: int| 0 <= k < verbs.len() && needed.contains(#[trigger] verbs[k]);
            if k < n {
                assert(needed.contains(init[k]));
            }
        }
        if forall|k: int| 0 <= k < verbs.len() ==> needed.contains(#[trigger] verbs[k]) {
            assert forall|k: int| 0 <= k < init.len() implies needed.contains(#[trigger] init[k]) by {
                assert(needed.contains(verbs[k]));
            }
        }
        if overlap(verbs, needed) == verbs.len() {
            assert forall|k: int| 0 <= k < verbs.len() implies needed.contains(
                #[trigger] verbs[k],
            ) by {
                if k < n {
                    assert(needed.contains(init[k]));
                }
            }
        }
    }
}

/// Needed verbs find exactly the tools of the catalog that have one of them; those with more of them
/// come first, and of those with as many the more trusted ones.
pub proof fn law_needed_verbs_find(
    catalog: Seq<CandidateView>,
    needed: Seq<Seq<char>>,
    c: CandidateView,
)
    ensures
        evaluated(catalog, needed).contains(c) <==> catalog.contains(c) && exists|k: int|
            0 <= k < c.verbs.len() && needed.contains(#[trigger] c.verbs[k]),
        forall|i: int, j: int|
            0 <= i < j < evaluated(catalog, needed).len() ==> {
                let a = #[trigger] evaluated(catalog, needed)[i];
                let b = #[trigger] evaluated(catalog, needed)[j];
                ||| overlap(a.verbs, needed) > overlap(b.verbs, needed)
                ||| (overlap(a.verbs, needed) == overlap(b.verbs, needed) && a.trust_tier.level()
                    >= b.trust_tier.level())
            },
{
    law_evaluated_in_order(catalog, needed);
    lemma_kept(catalog, helps(needed), c);
    lemma_same_members(evaluated(catalog, needed), kept(catalog, helps(needed)), c);
    lemma_overlap(c.verbs, needed);
    assert(helps(needed)(c) <==> overlap(c.verbs, needed) > 0);
}

} // verus!
