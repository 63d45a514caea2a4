//! Ranking by insertion: an element goes behind all that it does not precede, so that
//! equals keep their order.

use vstd::prelude::*;

verus! {

/// A list with one more element, put before those at the end that it precedes.
pub open spec fn place<A>(s: Seq<A>, x: A, before: spec_fn(A, A) -> bool) -> Seq<A>
    decreases s.len(),
{
    if s.len() == 0 || !before(x, s.last()) {
        s.push(x)
    } else {
        place(s.drop_last(), x, before).push(s.last())
    }
}

/// The elements of a list, one put after another.
pub open spec fn arranged<A>(s: Seq<A>, before: spec_fn(A, A) -> bool) -> Seq<A>
    decreases s.len(),
{
    if s.len() == 0 {
        Seq::empty()
    } else {
        place(arranged(s.drop_last(), before), s.last(), before)
    }
}

/// The elements of a list that are wanted, in order.
pub open spec fn kept<A>(s: Seq<A>, wanted: spec_fn(A) -> bool) -> Seq<A>
    decreases s.len(),
{
    if s.len() == 0 {
        Seq::empty()
    } else if wanted(s.last()) {
        kept(s.drop_last(), wanted).push(s.last())
    } else {
        kept(s.drop_last(), wanted)
    }
}

/// Whether `before` is an order: of two elements at most one precedes the other, and
/// what does not precede is at least as far behind.
pub open spec fn ranks<A>(before: spec_fn(A, A) -> bool) -> bool {
    &&& forall|a: A, b: A| #[trigger] before(a, b) ==> !before(b, a)
    &&& forall|a: A, b: A, c: A|
        #![trigger before(a, b), before(b, c)]
        !before(a, b) && !before(b, c) ==> !before(a, c)
}

/// Where an element stands after it was put.
pub proof fn lemma_place_at<A>(s: Seq<A>, x: A, before: spec_fn(A, A) -> bool, at: int)
    requires
        0 <= at <= s.len(),
        forall|j: int| at <= j < s.len() ==> before(x, #[trigger] s[j]),
        at > 0 ==> !before(x, s[at - 1]),
    ensures
        place(s, x, before) == s.insert(at, x),
    decreases s.len(),
{
    if at == s.len() {
        assert(s.insert(at, x) =~= s.push(x));
    } else {
        assert(before(x, s[s.len() - 1]));
        let rest = s.drop_last();
        assert forall|j: int| at <= j < rest.len() implies before(x, #[trigger] rest[j]) by {
            assert(rest[j] == s[j]);
        }
        lemma_place_at(rest, x, before, at);
        assert(rest.insert(at, x).push(s.last()) =~= s.insert(at, x));
    }
}

/// A list of one element fewer, arranged, and the last element put.
pub proof fn lemma_arranged_push<A>(s: Seq<A>, x: A, before: spec_fn(A, A) -> bool)
    ensures
        arranged(s.push(x), before) == place(arranged(s, before), x, before),
{
    assert(s.push(x).drop_last() =~= s);
}

proof fn lemma_place_elements<A>(s: Seq<A>, x: A, before: spec_fn(A, A) -> bool)
    ensures
        place(s, x, before).to_multiset() == s.to_multiset().insert(x),
        place(s, x, before).len() == s.len() + 1,
    decreases s.len(),
{
    broadcast use vstd::seq_lib::group_to_multiset_ensures;

    if s.len() > 0 && before(x, s.last()) {
        lemma_place_elements(s.drop_last(), x, before);
        assert(s.drop_last().push(s.last()) =~= s);
    }
}

proof fn lemma_place_order<A>(s: Seq<A>, x: A, before: spec_fn(A, A) -> bool)
    requires
        ranks(before),
        forall|i: int, j: int| 0 <= i < j < s.len() ==> !before(#[trigger] s[j], #[trigger] s[i]),
    ensures
        forall|i: int, j: int|
            0 <= i < j < place(s, x, before).len() ==> !before(
                #[trigger] place(s, x, before)[j],
                #[trigger] place(s, x, before)[i],
            ),
        forall|i: int|
            0 <= i < place(s, x, before).len() ==> s.contains(#[trigger] place(s, x, before)[i])
                || place(s, x, before)[i] == x,
    decreases s.len(),
{
    let r = place(s, x, before);
    if s.len() == 0 || !before(x, s.last()) {
        assert forall|i: int, j: int| 0 <= i < j < r.len() implies !before(
            #[trigger] r[j],
            #[trigger] r[i],
        ) by {
            if j == s.len() {
                if i < s.len() - 1 {
                    assert(!before(s[s.len() - 1], s[i]));
                    assert(!before(x, s[s.len() - 1]));
                }
            }
        }
        assert forall|i: int| 0 <= i < r.len() implies s.contains(#[trigger] r[i]) || r[i] == x by {
            if i < s.len() {
                assert(r[i] == s[i]);
            }
        }
    } else {
        let rest = s.drop_last();
        assert forall|i: int, j: int| 0 <= i < j < rest.len() implies !before(
            #[trigger] rest[j],
            #[trigger] rest[i],
        ) by {
            assert(rest[i] == s[i] && rest[j] == s[j]);
        }
        lemma_place_order(rest, x, before);
        let inner = place(rest, x, before);
        lemma_place_elements(rest, x, before);
        assert forall|i: int| 0 <= i < inner.len() implies !before(
            s.last(),
            #[trigger] inner[i],
        ) by {
            if rest.contains(inner[i]) {
                let k = rest.index_of(inner[i]);
                assert(rest[k] == s[k]);
                assert(!before(s[s.len() - 1], s[k]));
            } else {
                assert(before(x, s.last()));
            }
        }
        assert forall|i: int, j: int| 0 <= i < j < r.len() implies !before(
            #[trigger] r[j],
            #[trigger] r[i],
        ) by {
            assert(r[i] == inner[i]);
            if j < inner.len() {
                assert(r[j] == inner[j]);
            }
        }
        assert forall|i: int| 0 <= i < r.len() implies s.contains(#[trigger] r[i]) || r[i] == x by {
            if i < inner.len() {
                assert(r[i] == inner[i]);
                if rest.contains(inner[i]) {
                    let k = rest.index_of(inner[i]);
                    assert(rest[k] == s[k]);
                }
            } else {
                assert(r[i] == s[s.len() - 1]);
            }
        }
    }
}

/// An arranged list has the elements of the list, each as often, and none stands behind
/// one that it precedes.
pub proof fn law_arranged<A>(s: Seq<A>, before: spec_fn(A, A) -> bool)
    requires
        ranks(before),
    ensures
        arranged(s, before).to_multiset() == s.to_multiset(),
        arranged(s, before).len() == s.len(),
        forall|i: int, j: int|
            0 <= i < j < s.len() ==> !before(
                #[trigger] arranged(s, before)[j],
                #[trigger] arranged(s, before)[i],
            ),
    decreases s.len(),
{
    broadcast use vstd::seq_lib::group_to_multiset_ensures;

    if s.len() == 0 {
        assert(s =~= Seq::empty());
    } else {
        law_arranged(s.drop_last(), before);
        lemma_place_order(arranged(s.drop_last(), before), s.last(), before);
        lemma_place_elements(arranged(s.drop_last(), before), s.last(), before);
        assert(s.drop_last().push(s.last()) =~= s);
    }
}

} // verus!
