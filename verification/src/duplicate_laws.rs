//! What holds of the groups of flows that are the same machine.

use vstd::prelude::*;

use crate::sorting::{
    in_order, insert_list, law_sort_forgets_order, law_sorted_texts, list_lt, sort_texts, text_le,
};
use crate::structural_fingerprint::{
    bearers, first_bearer, groups_upto, lemma_bearers, lemma_first_bearer, lemma_group_made,
    lemma_insert_list, lemma_push_contains, lemma_two_bearers, FlowView,
};
use crate::text::{lemma_lt_asymmetric, lemma_lt_irreflexive, lemma_lt_total, lemma_lt_transitive, text_lt};

verus! {

/// Whether no two flows have one id.
pub open spec fn distinct_ids(catalog: Seq<FlowView>) -> bool {
    forall|i: int, j: int|
        0 <= i < catalog.len() && 0 <= j < catalog.len() && i != j ==> (#[trigger] catalog[i]).id
            != (#[trigger] catalog[j]).id
}

/// The groups that are reported of a catalog.
pub open spec fn groups(catalog: Seq<FlowView>) -> Seq<Seq<Seq<char>>> {
    groups_upto(catalog, catalog.len() as int)
}

/// Whether texts are in strictly ascending order.
pub open spec fn ascending(s: Seq<Seq<char>>) -> bool {
    forall|i: int, j: int| 0 <= i < j < s.len() ==> text_lt(#[trigger] s[i], #[trigger] s[j])
}

/// Whether the lists are in the ascending order of their first elements.
pub open spec fn by_first(s: Seq<Seq<Seq<char>>>) -> bool {
    forall|i: int, j: int|
        0 <= i < j < s.len() ==> text_lt((#[trigger] s[i])[0], (#[trigger] s[j])[0])
}

/// The group of a fingerprint, if it has two flows or more.
spec fn group_at(catalog: Seq<FlowView>, m: int, g: Seq<Seq<char>>) -> bool {
    &&& 0 <= m < catalog.len()
    &&& first_bearer(catalog, m)
    &&& bearers(catalog, catalog[m].fingerprint).len() > 1
    &&& g == sort_texts(bearers(catalog, catalog[m].fingerprint))
}

proof fn lemma_bearer_is_flow(catalog: Seq<FlowView>, f: Seq<char>, id: Seq<char>)
    requires
        bearers(catalog, f).contains(id),
    ensures
        exists|i: int|
            0 <= i < catalog.len() && (#[trigger] catalog[i]).id == id && catalog[i].fingerprint
                == f,
    decreases catalog.len(),
{
    if catalog.len() > 0 {
        let init = catalog.drop_last();
        let before = bearers(init, f);
        lemma_push_contains(before, catalog.last().id, id);
        if before.contains(id) {
            lemma_bearer_is_flow(init, f, id);
            let i = choose|i: int|
                0 <= i < init.len() && (#[trigger] init[i]).id == id && init[i].fingerprint == f;
            assert(catalog[i] == init[i]);
        } else {
            assert(catalog[catalog.len() - 1].id == id);
        }
    }
}

proof fn lemma_bearers_distinct(catalog: Seq<FlowView>, f: Seq<char>)
    requires
        distinct_ids(catalog),
    ensures
        bearers(catalog, f).no_duplicates(),
    decreases catalog.len(),
{
    if catalog.len() > 0 {
        let init = catalog.drop_last();
        let before = bearers(init, f);
        assert(distinct_ids(init)) by {
            assert forall|i: int, j: int|
                0 <= i < init.len() && 0 <= j < init.len() && i != j implies (#[trigger] init[i]).id
                != (#[trigger] init[j]).id by {
                assert(catalog[i].id != catalog[j].id);
            }
        }
        lemma_bearers_distinct(init, f);
        let id = catalog.last().id;
        if before.contains(id) {
            lemma_bearer_is_flow(init, f, id);
            let i = choose|i: int|
                0 <= i < init.len() && (#[trigger] init[i]).id == id && init[i].fingerprint == f;
            assert(catalog[i].id != catalog[catalog.len() - 1].id);
        }
        assert forall|i: int| 0 <= i < before.len() && catalog.last().fingerprint == f implies (
        #[trigger] before[i]) != id by {
            assert(before.contains(before[i]));
        }
    }
}

proof fn lemma_same_members(a: Seq<Seq<char>>, b: Seq<Seq<char>>)
    requires
        a.no_duplicates(),
        b.no_duplicates(),
        forall|x: Seq<char>| #[trigger] a.contains(x) <==> b.contains(x),
    ensures
        a.to_multiset() == b.to_multiset(),
{
    broadcast use vstd::seq_lib::group_to_multiset_ensures;

    a.lemma_multiset_has_no_duplicates();
    b.lemma_multiset_has_no_duplicates();
    assert forall|x: Seq<char>| a.to_multiset().count(x) == b.to_multiset().count(x) by {
        assert(a.contains(x) <==> b.contains(x));
        assert(a.to_multiset().contains(x) <==> a.contains(x));
        assert(b.to_multiset().contains(x) <==> b.contains(x));
    }
    assert(a.to_multiset() =~= b.to_multiset());
}

proof fn lemma_sorted_members(s: Seq<Seq<char>>)
    ensures
        forall|x: Seq<char>| #[trigger] sort_texts(s).contains(x) <==> s.contains(x),
{
    broadcast use vstd::seq_lib::group_to_multiset_ensures;

    law_sorted_texts(s);
    assert forall|x: Seq<char>| #[trigger] sort_texts(s).contains(x) <==> s.contains(x) by {
        assert(sort_texts(s).to_multiset().count(x) == s.to_multiset().count(x));
    }
}

proof fn lemma_sorted_ascending(s: Seq<Seq<char>>)
    requires
        s.no_duplicates(),
    ensures
        ascending(sort_texts(s)),
{
    let g = sort_texts(s);
    law_sorted_texts(s);
    s.lemma_multiset_has_no_duplicates();
    g.lemma_multiset_has_no_duplicates_conv();
    assert forall|i: int, j: int| 0 <= i < j < g.len() implies text_lt(
        #[trigger] g[i],
        #[trigger] g[j],
    ) by {
        assert(text_le(g[i], g[j]));
        lemma_lt_total(g[i], g[j]);
    }
}

/// Groups of two fingerprints share no id.
proof fn lemma_groups_apart(catalog: Seq<FlowView>, m: int, n: int, id: Seq<char>)
    requires
        distinct_ids(catalog),
        0 <= m < catalog.len(),
        0 <= n < catalog.len(),
        sort_texts(bearers(catalog, catalog[m].fingerprint)).contains(id),
        sort_texts(bearers(catalog, catalog[n].fingerprint)).contains(id),
    ensures
        catalog[m].fingerprint == catalog[n].fingerprint,
{
    let f = catalog[m].fingerprint;
    let g = catalog[n].fingerprint;
    lemma_sorted_members(bearers(catalog, f));
    lemma_sorted_members(bearers(catalog, g));
    assert(bearers(catalog, f).contains(id));
    assert(bearers(catalog, g).contains(id));
    lemma_bearer_is_flow(catalog, f, id);
    lemma_bearer_is_flow(catalog, g, id);
    let i = choose|i: int|
        0 <= i < catalog.len() && (#[trigger] catalog[i]).id == id && catalog[i].fingerprint == f;
    let k = choose|k: int|
        0 <= k < catalog.len() && (#[trigger] catalog[k]).id == id && catalog[k].fingerprint == g;
    if i != k {
        assert(catalog[i].id != catalog[k].id);
    }
}

proof fn lemma_insert_by_first(s: Seq<Seq<Seq<char>>>, x: Seq<Seq<char>>)
    requires
        by_first(s),
        x.len() > 0,
        forall|i: int| 0 <= i < s.len() ==> (#[trigger] s[i]).len() > 0 && s[i][0] != x[0],
    ensures
        by_first(insert_list(s, x)),
        s.len() > 0 ==> insert_list(s, x).len() > 0,
    decreases s.len(),
{
    let r = insert_list(s, x);
    if s.len() > 0 {
        let l = s.last();
        assert(l == s[s.len() - 1]);
        assert(list_lt(x, l) == text_lt(x[0], l[0]));
        if list_lt(x, l) {
            let init = s.drop_last();
            assert forall|i: int| 0 <= i < init.len() implies (#[trigger] init[i]).len() > 0
                && init[i][0] != x[0] by {
                assert(init[i] == s[i]);
            }
            assert(by_first(init)) by {
                assert forall|i: int, j: int| 0 <= i < j < init.len() implies text_lt(
                    (#[trigger] init[i])[0],
                    (#[trigger] init[j])[0],
                ) by {
                    assert(text_lt(s[i][0], s[j][0]));
                }
            }
            lemma_insert_by_first(init, x);
            let inner = insert_list(init, x);
            assert forall|i: int, j: int| 0 <= i < j < r.len() implies text_lt(
                (#[trigger] r[i])[0],
                (#[trigger] r[j])[0],
            ) by {
                if j == r.len() - 1 {
                    assert(r[i] == inner[i]);
                    assert(inner.contains(inner[i]));
                    lemma_insert_list(init, x, inner[i]);
                    if inner[i] != x {
                        let k = choose|k: int| 0 <= k < init.len() && init[k] == inner[i];
                        assert(text_lt(s[k][0], s[s.len() - 1][0]));
                    }
                } else {
                    assert(text_lt(inner[i][0], inner[j][0]));
                }
            }
        } else {
            lemma_lt_total(x[0], l[0]);
            assert forall|i: int, j: int| 0 <= i < j < r.len() implies text_lt(
                (#[trigger] r[i])[0],
                (#[trigger] r[j])[0],
            ) by {
                if j == s.len() {
                    if i < s.len() - 1 {
                        assert(text_lt(s[i][0], s[s.len() - 1][0]));
                        lemma_lt_transitive(s[i][0], l[0], x[0]);
                    }
                } else {
                    assert(text_lt(s[i][0], s[j][0]));
                }
            }
        }
    }
}

proof fn lemma_groups_upto(catalog: Seq<FlowView>, n: int)
    requires
        distinct_ids(catalog),
        n <= catalog.len(),
    ensures
        by_first(groups_upto(catalog, n)),
        forall|g: Seq<Seq<char>>| #[trigger]
            groups_upto(catalog, n).contains(g) ==> exists|m: int|
                m < n && #[trigger] group_at(catalog, m, g),
    decreases n,
{
    if n > 0 {
        lemma_groups_upto(catalog, n - 1);
        let before = groups_upto(catalog, n - 1);
        let ids = bearers(catalog, catalog[n - 1].fingerprint);
        let all = groups_upto(catalog, n);
        if first_bearer(catalog, n - 1) && ids.len() > 1 {
            let x = sort_texts(ids);
            law_sorted_texts(ids);
            assert forall|i: int| 0 <= i < before.len() implies (#[trigger] before[i]).len() > 0
                && before[i][0] != x[0] by {
                assert(before.contains(before[i]));
                let m = choose|m: int| m < n - 1 && #[trigger] group_at(catalog, m, before[i]);
                law_sorted_texts(bearers(catalog, catalog[m].fingerprint));
                if before[i][0] == x[0] {
                    assert(x.contains(x[0]));
                    assert(before[i].contains(before[i][0]));
                    lemma_groups_apart(catalog, m, n - 1, x[0]);
                    assert(catalog[m].fingerprint != catalog[n - 1].fingerprint);
                }
            }
            lemma_insert_by_first(before, x);
            assert forall|g: Seq<Seq<char>>| #[trigger] all.contains(g) implies exists|m: int|
                m < n && #[trigger] group_at(catalog, m, g) by {
                lemma_insert_list(before, x, g);
                if g == x {
                    assert(group_at(catalog, n - 1, g));
                } else {
                    let m = choose|m: int| m < n - 1 && #[trigger] group_at(catalog, m, g);
                    assert(group_at(catalog, m, g));
                }
            }
        } else {
            assert forall|g: Seq<Seq<char>>| #[trigger] all.contains(g) implies exists|m: int|
                m < n && #[trigger] group_at(catalog, m, g) by {
                let m = choose|m: int| m < n - 1 && #[trigger] group_at(catalog, m, g);
                assert(group_at(catalog, m, g));
            }
        }
    }
}

/// Where ids are distinct, every group has at least two of them, in strictly ascending order,
/// and the groups are in the ascending order of their first ids.
pub proof fn law_groups_are_in_order(catalog: Seq<FlowView>)
    requires
        distinct_ids(catalog),
    ensures
        by_first(groups(catalog)),
        forall|i: int|
            0 <= i < groups(catalog).len() ==> ascending(#[trigger] groups(catalog)[i]) && groups(
                catalog,
            )[i].len() > 1,
{
    let all = groups(catalog);
    lemma_groups_upto(catalog, catalog.len() as int);
    assert forall|i: int| 0 <= i < all.len() implies ascending(#[trigger] all[i]) && all[i].len()
        > 1 by {
        assert(all.contains(all[i]));
        let m = choose|m: int| m < catalog.len() && #[trigger] group_at(catalog, m, all[i]);
        let ids = bearers(catalog, catalog[m].fingerprint);
        law_sorted_texts(ids);
        lemma_bearers_distinct(catalog, catalog[m].fingerprint);
        lemma_sorted_ascending(ids);
    }
}

/// Where ids are distinct, no id is in two groups.
pub proof fn law_groups_share_no_id(catalog: Seq<FlowView>, i: int, j: int, id: Seq<char>)
    requires
        distinct_ids(catalog),
        0 <= i < groups(catalog).len(),
        0 <= j < groups(catalog).len(),
        groups(catalog)[i].contains(id),
        groups(catalog)[j].contains(id),
    ensures
        i == j,
{
    let all = groups(catalog);
    lemma_groups_upto(catalog, catalog.len() as int);
    assert(all.contains(all[i]) && all.contains(all[j]));
    let m = choose|m: int| m < catalog.len() && #[trigger] group_at(catalog, m, all[i]);
    let n = choose|n: int| n < catalog.len() && #[trigger] group_at(catalog, n, all[j]);
    lemma_groups_apart(catalog, m, n, id);
    assert(all[i] == all[j]);
    lemma_lt_irreflexive(all[i][0]);
    if i < j {
        assert(text_lt(all[i][0], all[j][0]));
    } else if j < i {
        assert(text_lt(all[j][0], all[i][0]));
    }
}

/// Where ids are distinct, two flows are in one group exactly where they have one fingerprint;
/// so a flow whose fingerprint no other has is in none.
pub proof fn law_one_group_one_machine(catalog: Seq<FlowView>, a: int, b: int)
    requires
        distinct_ids(catalog),
        0 <= a < catalog.len(),
        0 <= b < catalog.len(),
        a != b,
    ensures
        (exists|i: int|
            0 <= i < groups(catalog).len() && (#[trigger] groups(catalog)[i]).contains(
                catalog[a].id,
            ) && groups(catalog)[i].contains(catalog[b].id)) <==> catalog[a].fingerprint
            == catalog[b].fingerprint,
        (exists|i: int|
            0 <= i < groups(catalog).len() && (#[trigger] groups(catalog)[i]).contains(
                catalog[a].id,
            )) ==> exists|k: int|
            0 <= k < catalog.len() && k != a && (#[trigger] catalog[k]).fingerprint
                == catalog[a].fingerprint,
{
    let all = groups(catalog);
    lemma_groups_upto(catalog, catalog.len() as int);
    if catalog[a].fingerprint == catalog[b].fingerprint {
        let f = catalog[a].fingerprint;
        let ids = bearers(catalog, f);
        let m = lemma_first_bearer(catalog, a);
        lemma_bearers(catalog, f, a);
        lemma_bearers(catalog, f, b);
        if a < b {
            lemma_two_bearers(catalog, f, a, b);
        } else {
            lemma_two_bearers(catalog, f, b, a);
        }
        lemma_group_made(catalog, m, catalog.len() as int);
        lemma_sorted_members(ids);
        let g = sort_texts(ids);
        assert(g.contains(catalog[a].id) && g.contains(catalog[b].id));
        let i = choose|i: int| 0 <= i < all.len() && all[i] == g;
        assert(all[i].contains(catalog[a].id) && all[i].contains(catalog[b].id));
    }
    if exists|i: int|
        0 <= i < all.len() && (#[trigger] all[i]).contains(catalog[a].id) && all[i].contains(
            catalog[b].id,
        ) {
        let i = choose|i: int|
            0 <= i < all.len() && (#[trigger] all[i]).contains(catalog[a].id) && all[i].contains(
                catalog[b].id,
            );
        lemma_member_bears(catalog, i, a);
        lemma_member_bears(catalog, i, b);
        assert(all.contains(all[i]));
        let m = choose|m: int| m < catalog.len() && #[trigger] group_at(catalog, m, all[i]);
        let ma = choose|m: int| #[trigger]
            group_at(catalog, m, all[i]) && catalog[m].fingerprint == catalog[a].fingerprint;
        let mb = choose|m: int| #[trigger]
            group_at(catalog, m, all[i]) && catalog[m].fingerprint == catalog[b].fingerprint;
        lemma_groups_apart(catalog, ma, mb, catalog[a].id);
    }
    if exists|i: int| 0 <= i < all.len() && (#[trigger] all[i]).contains(catalog[a].id) {
        let i = choose|i: int| 0 <= i < all.len() && (#[trigger] all[i]).contains(catalog[a].id);
        lemma_member_bears(catalog, i, a);
        let m = choose|m: int| #[trigger]
            group_at(catalog, m, all[i]) && catalog[m].fingerprint == catalog[a].fingerprint;
        let f = catalog[a].fingerprint;
        let ids = bearers(catalog, f);
        lemma_bearers_distinct(catalog, f);
        let other = if ids[0] == catalog[a].id {
            ids[1]
        } else {
            ids[0]
        };
        assert(ids[0] != ids[1]);
        assert(ids.contains(other));
        lemma_bearer_is_flow(catalog, f, other);
        let k = choose|k: int|
            0 <= k < catalog.len() && (#[trigger] catalog[k]).id == other && catalog[k].fingerprint
                == f;
        assert(k != a);
    }
}

proof fn lemma_member_bears(catalog: Seq<FlowView>, i: int, a: int)
    requires
        distinct_ids(catalog),
        0 <= i < groups(catalog).len(),
        0 <= a < catalog.len(),
        groups(catalog)[i].contains(catalog[a].id),
    ensures
        exists|m: int| #[trigger]
            group_at(catalog, m, groups(catalog)[i]) && catalog[m].fingerprint
                == catalog[a].fingerprint,
{
    let all = groups(catalog);
    lemma_groups_upto(catalog, catalog.len() as int);
    assert(all.contains(all[i]));
    let m = choose|m: int| m < catalog.len() && #[trigger] group_at(catalog, m, all[i]);
    let f = catalog[m].fingerprint;
    lemma_sorted_members(bearers(catalog, f));
    assert(bearers(catalog, f).contains(catalog[a].id));
    lemma_bearer_is_flow(catalog, f, catalog[a].id);
    let k = choose|k: int|
        0 <= k < catalog.len() && (#[trigger] catalog[k]).id == catalog[a].id
            && catalog[k].fingerprint == f;
    if k != a {
        assert(catalog[k].id != catalog[a].id);
    }
}

proof fn lemma_permuted_ids(a: Seq<FlowView>, b: Seq<FlowView>)
    requires
        distinct_ids(a),
        a.to_multiset() == b.to_multiset(),
    ensures
        distinct_ids(b),
        forall|x: FlowView| #[trigger] a.contains(x) <==> b.contains(x),
{
    broadcast use vstd::seq_lib::group_to_multiset_ensures;

    assert forall|x: FlowView| #[trigger] a.contains(x) <==> b.contains(x) by {
        assert(a.contains(x) <==> a.to_multiset().count(x) > 0);
        assert(b.contains(x) <==> b.to_multiset().count(x) > 0);
    }
    assert forall|i: int, j: int| 0 <= i < a.len() && 0 <= j < a.len() && i != j implies a[i]
        != a[j] by {
        assert(a[i].id != a[j].id);
    }
    a.lemma_multiset_has_no_duplicates();
    b.lemma_multiset_has_no_duplicates_conv();
    assert forall|i: int, j: int| 0 <= i < b.len() && 0 <= j < b.len() && i != j implies (
    #[trigger] b[i]).id != (#[trigger] b[j]).id by {
        assert(b.contains(b[i]) && b.contains(b[j]));
        assert(a.contains(b[i]) && a.contains(b[j]));
        let k = choose|k: int| 0 <= k < a.len() && a[k] == b[i];
        let l = choose|l: int| 0 <= l < a.len() && a[l] == b[j];
        assert(b[i] != b[j]);
        assert(a[k].id != a[l].id);
    }
}

proof fn lemma_permuted_bearers(a: Seq<FlowView>, b: Seq<FlowView>, f: Seq<char>)
    requires
        distinct_ids(a),
        a.to_multiset() == b.to_multiset(),
    ensures
        bearers(a, f).to_multiset() == bearers(b, f).to_multiset(),
        bearers(a, f).len() == bearers(b, f).len(),
{
    broadcast use vstd::seq_lib::group_to_multiset_ensures;

    lemma_permuted_ids(a, b);
    lemma_bearers_distinct(a, f);
    lemma_bearers_distinct(b, f);
    assert forall|x: Seq<char>| #[trigger] bearers(a, f).contains(x) <==> bearers(b, f).contains(
        x,
    ) by {
        if bearers(a, f).contains(x) {
            lemma_bearer_is_flow(a, f, x);
            let i = choose|i: int|
                0 <= i < a.len() && (#[trigger] a[i]).id == x && a[i].fingerprint == f;
            assert(a.contains(a[i]));
            assert(b.contains(a[i]));
            let k = choose|k: int| 0 <= k < b.len() && b[k] == a[i];
            lemma_bearers(b, f, k);
        }
        if bearers(b, f).contains(x) {
            lemma_bearer_is_flow(b, f, x);
            let i = choose|i: int|
                0 <= i < b.len() && (#[trigger] b[i]).id == x && b[i].fingerprint == f;
            assert(b.contains(b[i]));
            assert(a.contains(b[i]));
            let k = choose|k: int| 0 <= k < a.len() && a[k] == b[i];
            lemma_bearers(a, f, k);
        }
    }
    lemma_same_members(bearers(a, f), bearers(b, f));
    assert(bearers(a, f).to_multiset().len() == bearers(b, f).to_multiset().len());
}

/// A group of a catalog is a group of each of its permutations.
proof fn lemma_permuted_group(a: Seq<FlowView>, b: Seq<FlowView>, g: Seq<Seq<char>>)
    requires
        distinct_ids(a),
        a.to_multiset() == b.to_multiset(),
        groups(a).contains(g),
    ensures
        groups(b).contains(g),
{
    lemma_groups_upto(a, a.len() as int);
    let m = choose|m: int| m < a.len() && #[trigger] group_at(a, m, g);
    let f = a[m].fingerprint;
    lemma_permuted_ids(a, b);
    lemma_permuted_bearers(a, b, f);
    law_sort_forgets_order(bearers(a, f), bearers(b, f));
    assert(a.contains(a[m]));
    assert(b.contains(a[m]));
    let k = choose|k: int| 0 <= k < b.len() && b[k] == a[m];
    let first = lemma_first_bearer(b, k);
    lemma_group_made(b, first, b.len() as int);
}

proof fn lemma_by_first_unique(a: Seq<Seq<Seq<char>>>, b: Seq<Seq<Seq<char>>>)
    requires
        by_first(a),
        by_first(b),
        forall|g: Seq<Seq<char>>| #[trigger] a.contains(g) <==> b.contains(g),
    ensures
        a == b,
    decreases a.len(),
{
    if a.len() == 0 {
        if b.len() > 0 {
            assert(b.contains(b[0]));
            assert(a.contains(b[0]));
        }
        assert(a =~= b);
    } else {
        assert(a.contains(a[0]));
        assert(b.contains(a[0]));
        assert(a.contains(a.last()) && b.contains(b.last()));
        assert(b.contains(a.last()) && a.contains(b.last()));
        let k = choose|k: int| 0 <= k < b.len() && b[k] == a.last();
        let l = choose|l: int| 0 <= l < a.len() && a[l] == b.last();
        if a.last() != b.last() {
            assert(text_lt(b[k][0], b[b.len() - 1][0]));
            assert(text_lt(a[l][0], a[a.len() - 1][0]));
            lemma_lt_asymmetric(a.last()[0], b.last()[0]);
        }
        let x = a.drop_last();
        let y = b.drop_last();
        lemma_init_members(a);
        lemma_init_members(b);
        assert forall|g: Seq<Seq<char>>| #[trigger] x.contains(g) <==> y.contains(g) by {
            assert(a.contains(g) <==> b.contains(g));
        }
        lemma_by_first_unique(x, y);
        assert(a =~= x.push(a.last()));
        assert(b =~= y.push(b.last()));
    }
}

proof fn lemma_init_members(a: Seq<Seq<Seq<char>>>)
    requires
        by_first(a),
        a.len() > 0,
    ensures
        by_first(a.drop_last()),
        forall|g: Seq<Seq<char>>| #[trigger]
            a.drop_last().contains(g) <==> a.contains(g) && g != a.last(),
{
    let x = a.drop_last();
    assert forall|i: int, j: int| 0 <= i < j < x.len() implies text_lt(
        (#[trigger] x[i])[0],
        (#[trigger] x[j])[0],
    ) by {
        assert(text_lt(a[i][0], a[j][0]));
    }
    assert forall|g: Seq<Seq<char>>| #[trigger] x.contains(g) <==> a.contains(g) && g != a.last() by {
        if x.contains(g) {
            let i = choose|i: int| 0 <= i < x.len() && x[i] == g;
            assert(a[i] == g);
            assert(text_lt(a[i][0], a[a.len() - 1][0]));
            lemma_lt_irreflexive(g[0]);
        }
        if a.contains(g) && g != a.last() {
            let i = choose|i: int| 0 <= i < a.len() && a[i] == g;
            assert(x[i] == g);
        }
    }
}

/// Where ids are distinct, the order of the catalog does not matter: every permutation of it
/// has the same groups, in the same order.
pub proof fn law_groups_forget_order(a: Seq<FlowView>, b: Seq<FlowView>)
    requires
        distinct_ids(a),
        a.to_multiset() == b.to_multiset(),
    ensures
        groups(a) == groups(b),
{
    lemma_permuted_ids(a, b);
    lemma_groups_upto(a, a.len() as int);
    lemma_groups_upto(b, b.len() as int);
    assert forall|g: Seq<Seq<char>>| #[trigger] groups(a).contains(g) <==> groups(b).contains(
        g,
    ) by {
        if groups(a).contains(g) {
            lemma_permuted_group(a, b, g);
        }
        if groups(b).contains(g) {
            lemma_permuted_group(b, a, g);
        }
    }
    lemma_by_first_unique(groups(a), groups(b));
}

} // verus!
