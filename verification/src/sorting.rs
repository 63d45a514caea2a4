//! Texts, values and lists of texts in order.

use vstd::prelude::*;

use crate::json::{views, Json, JsonView};
use crate::json_text::{compact, compact_text};
use crate::text::{
    lemma_lt_asymmetric, lemma_lt_irreflexive, lemma_lt_total, lemma_lt_transitive, lt, same,
    text_lt, texts,
};

verus! {

/// Whether `a` comes before `b` or is the same.
pub open spec fn text_le(a: Seq<char>, b: Seq<char>) -> bool {
    !text_lt(b, a)
}

/// Ordered texts with one more, behind those that it does not come before.
pub open spec fn insert_text(s: Seq<Seq<char>>, x: Seq<char>) -> Seq<Seq<char>>
    decreases s.len(),
{
    if s.len() > 0 && text_lt(x, s.last()) {
        insert_text(s.drop_last(), x).push(s.last())
    } else {
        s.push(x)
    }
}

/// Texts in order.
pub open spec fn sort_texts(s: Seq<Seq<char>>) -> Seq<Seq<char>>
    decreases s.len(),
{
    if s.len() == 0 {
        s
    } else {
        insert_text(sort_texts(s.drop_last()), s.last())
    }
}

/// Whether texts are in order.
pub open spec fn in_order(s: Seq<Seq<char>>) -> bool {
    forall|i: int, j: int| 0 <= i < j < s.len() ==> text_le(#[trigger] s[i], #[trigger] s[j])
}

proof fn lemma_le_transitive(a: Seq<char>, b: Seq<char>, c: Seq<char>)
    requires
        text_le(a, b),
        text_le(b, c),
    ensures
        text_le(a, c),
{
    lemma_lt_total(a, b);
    lemma_lt_total(b, c);
    if text_lt(c, a) {
        if text_lt(a, b) {
            lemma_lt_transitive(c, a, b);
        }
    }
}

proof fn lemma_insert_text(s: Seq<Seq<char>>, x: Seq<char>)
    requires
        in_order(s),
    ensures
        in_order(insert_text(s, x)),
        insert_text(s, x).to_multiset() =~= s.to_multiset().insert(x),
        insert_text(s, x).len() == s.len() + 1,
    decreases s.len(),
{
    broadcast use vstd::seq_lib::group_to_multiset_ensures;

    let r = insert_text(s, x);
    if s.len() > 0 && text_lt(x, s.last()) {
        let before = s.drop_last();
        assert(in_order(before));
        lemma_insert_text(before, x);
        let inner = insert_text(before, x);
        assert(s =~= before.push(s.last()));
        assert(s.to_multiset() =~= before.to_multiset().insert(s.last()));
        assert(r.to_multiset() =~= inner.to_multiset().insert(s.last()));
        assert forall|i: int, j: int| 0 <= i < j < r.len() implies text_le(
            #[trigger] r[i],
            #[trigger] r[j],
        ) by {
            if j == r.len() - 1 {
                assert(inner.to_multiset().count(inner[i]) > 0);
                assert(inner[i] == x || before.to_multiset().count(inner[i]) > 0);
                if inner[i] == x {
                    lemma_lt_asymmetric(x, s.last());
                } else {
                    assert(before.contains(inner[i]));
                    let k = before.index_of(inner[i]);
                    assert(s[k] == inner[i]);
                    assert(text_le(s[k], s[s.len() - 1]));
                }
            } else {
                assert(text_le(inner[i], inner[j]));
            }
        }
    } else {
        assert forall|i: int, j: int| 0 <= i < j < r.len() implies text_le(
            #[trigger] r[i],
            #[trigger] r[j],
        ) by {
            if j == s.len() {
                if i < s.len() - 1 {
                    assert(text_le(s[i], s[s.len() - 1]));
                    lemma_le_transitive(s[i], s.last(), x);
                }
            } else {
                assert(text_le(s[i], s[j]));
            }
        }
    }
}

/// Sorted texts are in order, and none is lost or added.
pub proof fn law_sorted_texts(s: Seq<Seq<char>>)
    ensures
        in_order(sort_texts(s)),
        sort_texts(s).to_multiset() =~= s.to_multiset(),
        sort_texts(s).len() == s.len(),
    decreases s.len(),
{
    broadcast use vstd::seq_lib::group_to_multiset_ensures;

    if s.len() > 0 {
        let before = s.drop_last();
        law_sorted_texts(before);
        lemma_insert_text(sort_texts(before), s.last());
        assert(s =~= before.push(s.last()));
    }
}

/// The order in which texts come does not matter once they are sorted.
pub proof fn law_sort_forgets_order(a: Seq<Seq<char>>, b: Seq<Seq<char>>)
    requires
        a.to_multiset() == b.to_multiset(),
    ensures
        sort_texts(a) == sort_texts(b),
{
    law_sorted_texts(a);
    law_sorted_texts(b);
    let leq = |x: Seq<char>, y: Seq<char>| text_le(x, y);
    assert(vstd::relations::total_ordering(leq)) by {
        assert forall|x: Seq<char>| #[trigger] leq(x, x) by {
            lemma_lt_irreflexive(x);
        }
        assert forall|x: Seq<char>, y: Seq<char>| #[trigger] leq(x, y) && #[trigger] leq(y, x) implies x
            == y by {
            lemma_lt_total(x, y);
        }
        assert forall|x: Seq<char>, y: Seq<char>, z: Seq<char>| #[trigger]
            leq(x, y) && #[trigger] leq(y, z) implies leq(x, z) by {
            lemma_le_transitive(x, y, z);
        }
        assert forall|x: Seq<char>, y: Seq<char>| #[trigger] leq(x, y) || #[trigger] leq(y, x) by {
            if text_lt(x, y) {
                lemma_lt_asymmetric(x, y);
            }
        }
    }
    assert(vstd::relations::sorted_by(sort_texts(a), leq));
    assert(vstd::relations::sorted_by(sort_texts(b), leq));
    vstd::seq_lib::lemma_sorted_unique(sort_texts(a), sort_texts(b), leq);
}

/// Where a text belongs among ordered ones, told by position.
proof fn lemma_insert_text_at(s: Seq<Seq<char>>, x: Seq<char>, p: int)
    requires
        0 <= p <= s.len(),
        forall|j: int| p <= j < s.len() ==> text_lt(x, #[trigger] s[j]),
        p > 0 ==> !text_lt(x, s[p - 1]),
    ensures
        insert_text(s, x) =~= s.insert(p, x),
    decreases s.len(),
{
    if p < s.len() {
        assert(text_lt(x, s[s.len() - 1]));
        assert forall|j: int| p <= j < s.drop_last().len() implies text_lt(
            x,
            #[trigger] s.drop_last()[j],
        ) by {
            assert(s.drop_last()[j] == s[j]);
        }
        lemma_insert_text_at(s.drop_last(), x, p);
    }
}

fn insert_string(v: &mut Vec<String>, x: String)
    ensures
        texts(final(v)@) == insert_text(texts(old(v)@), x@),
{
    let ghost s = texts(v@);
    let mut p: usize = v.len();
    while p > 0 && lt(x.as_str(), v[p - 1].as_str())
        invariant
            p <= v@.len(),
            s == texts(v@),
            forall|j: int| p <= j < s.len() ==> text_lt(x@, #[trigger] s[j]),
        decreases p,
    {
        assert(s[p - 1] == v@[p - 1]@);
        p = p - 1;
    }
    proof {
        if p > 0 {
            assert(s[p - 1] == v@[p - 1]@);
        }
        lemma_insert_text_at(s, x@, p as int);
    }
    let ghost xv = x@;
    v.insert(p, x);
    assert(texts(v@) =~= s.insert(p as int, xv));
}

/// Sorts texts.
pub fn sort_strings(v: &Vec<String>) -> (r: Vec<String>)
    ensures
        texts(r@) == sort_texts(texts(v@)),
{
    let ghost s = texts(v@);
    let mut out: Vec<String> = Vec::new();
    let mut i: usize = 0;
    assert(s.take(0) =~= Seq::empty());
    assert(texts(out@) =~= Seq::empty());
    while i < v.len()
        invariant
            i <= v@.len(),
            s == texts(v@),
            texts(out@) == sort_texts(s.take(i as int)),
        decreases v@.len() - i,
    {
        let ghost next = s.take(i + 1);
        assert(next.drop_last() =~= s.take(i as int));
        assert(next.last() == v@[i as int]@);
        insert_string(&mut out, v[i].clone());
        i = i + 1;
    }
    assert(s.take(i as int) =~= s);
    out
}

/// Ordered texts with one more, unless it is among them.
pub open spec fn add_text(s: Seq<Seq<char>>, x: Seq<char>) -> Seq<Seq<char>> {
    if s.contains(x) {
        s
    } else {
        insert_text(s, x)
    }
}

/// Whether texts stand for a set: in order, and each only once.
pub open spec fn is_set(s: Seq<Seq<char>>) -> bool {
    forall|i: int, j: int| 0 <= i < j < s.len() ==> text_lt(#[trigger] s[i], #[trigger] s[j])
}

proof fn lemma_insert_text_in_set(s: Seq<Seq<char>>, x: Seq<char>)
    requires
        is_set(s),
        !s.contains(x),
    ensures
        is_set(insert_text(s, x)),
        forall|y: Seq<char>| #[trigger]
            insert_text(s, x).contains(y) <==> s.contains(y) || y == x,
    decreases s.len(),
{
    let r = insert_text(s, x);
    if s.len() > 0 && text_lt(x, s.last()) {
        let init = s.drop_last();
        let before = insert_text(init, x);
        assert forall|y: Seq<char>| init.contains(y) implies s.contains(y) by {
            let i = init.index_of(y);
            assert(s[i] == y);
        }
        lemma_insert_text_in_set(init, x);
        assert forall|i: int| 0 <= i < before.len() implies text_lt(
            #[trigger] before[i],
            s.last(),
        ) by {
            assert(before.contains(before[i]));
            if before[i] != x {
                let k = init.index_of(before[i]);
                assert(text_lt(s[k], s[s.len() - 1]));
            }
        }
        assert forall|i: int, j: int| 0 <= i < j < r.len() implies text_lt(
            #[trigger] r[i],
            #[trigger] r[j],
        ) by {
            assert(r[i] == before[i]);
            if j < before.len() {
                assert(r[j] == before[j]);
            }
        }
        assert forall|y: Seq<char>| #[trigger] r.contains(y) <==> s.contains(y) || y == x by {
            if r.contains(y) {
                let i = r.index_of(y);
                if i < before.len() {
                    assert(before[i] == y);
                    assert(before.contains(y));
                } else {
                    assert(s[s.len() - 1] == y);
                }
            }
            if s.contains(y) {
                let i = s.index_of(y);
                if i < init.len() {
                    assert(init[i] == y);
                    assert(before.contains(y));
                    let k = before.index_of(y);
                    assert(r[k] == y);
                } else {
                    assert(r[before.len() as int] == y);
                }
            }
            if y == x {
                assert(before.contains(x));
                let k = before.index_of(x);
                assert(r[k] == x);
            }
        }
    } else {
        assert forall|i: int| 0 <= i < s.len() implies text_lt(#[trigger] s[i], x) by {
            lemma_lt_total(s.last(), x);
            assert(s.contains(s.last()));
            if i < s.len() - 1 {
                assert(text_lt(s[i], s[s.len() - 1]));
                lemma_lt_transitive(s[i], s.last(), x);
            }
        }
        assert forall|y: Seq<char>| #[trigger] r.contains(y) <==> s.contains(y) || y == x by {
            if r.contains(y) {
                let i = r.index_of(y);
                if i < s.len() {
                    assert(s[i] == y);
                }
            }
            if s.contains(y) {
                let i = s.index_of(y);
                assert(r[i] == y);
            }
            assert(r[s.len() as int] == x);
        }
    }
}

/// A set with one more text is a set, of those that were in it and that one.
pub proof fn law_added_texts_form_a_set(s: Seq<Seq<char>>, x: Seq<char>)
    requires
        is_set(s),
    ensures
        is_set(add_text(s, x)),
        forall|y: Seq<char>| #[trigger] add_text(s, x).contains(y) <==> s.contains(y) || y == x,
{
    if !s.contains(x) {
        lemma_insert_text_in_set(s, x);
    }
}

/// Adds a text to ordered ones, unless it is among them.
pub fn add_string(v: &mut Vec<String>, x: String)
    ensures
        texts(final(v)@) == add_text(texts(old(v)@), x@),
{
    if !crate::text::holds(v, x.as_str()) {
        insert_string(v, x);
    }
}

/// Values in the order of their compact forms, with one more, behind those that it does not
/// come before.
pub open spec fn insert_value(s: Seq<JsonView>, x: JsonView) -> Seq<JsonView>
    decreases s.len(),
{
    if s.len() > 0 && text_lt(compact(x), compact(s.last())) {
        insert_value(s.drop_last(), x).push(s.last())
    } else {
        s.push(x)
    }
}

/// Values in the order of their compact forms.
pub open spec fn sort_values(s: Seq<JsonView>) -> Seq<JsonView>
    decreases s.len(),
{
    if s.len() == 0 {
        s
    } else {
        insert_value(sort_values(s.drop_last()), s.last())
    }
}

/// The compact forms of values.
pub open spec fn forms(s: Seq<JsonView>) -> Seq<Seq<char>> {
    s.map_values(|v: JsonView| compact(v))
}

proof fn lemma_insert_forms(s: Seq<JsonView>, x: JsonView)
    ensures
        forms(insert_value(s, x)) =~= insert_text(forms(s), compact(x)),
    decreases s.len(),
{
    if s.len() > 0 {
        assert(forms(s).last() == compact(s.last()));
        assert(forms(s).drop_last() =~= forms(s.drop_last()));
        if text_lt(compact(x), compact(s.last())) {
            lemma_insert_forms(s.drop_last(), x);
        }
    }
}

/// Sorting values sorts their compact forms.
pub proof fn lemma_sort_forms(s: Seq<JsonView>)
    ensures
        forms(sort_values(s)) =~= sort_texts(forms(s)),
    decreases s.len(),
{
    if s.len() > 0 {
        lemma_sort_forms(s.drop_last());
        lemma_insert_forms(sort_values(s.drop_last()), s.last());
        assert(forms(s).drop_last() =~= forms(s.drop_last()));
        assert(forms(s).last() == compact(s.last()));
    }
}

proof fn lemma_insert_value_at(s: Seq<JsonView>, x: JsonView, p: int)
    requires
        0 <= p <= s.len(),
        forall|j: int| p <= j < s.len() ==> text_lt(compact(x), compact(#[trigger] s[j])),
        p > 0 ==> !text_lt(compact(x), compact(s[p - 1])),
    ensures
        insert_value(s, x) =~= s.insert(p, x),
    decreases s.len(),
{
    if p < s.len() {
        assert(text_lt(compact(x), compact(s[s.len() - 1])));
        assert forall|j: int| p <= j < s.drop_last().len() implies text_lt(
            compact(x),
            compact(#[trigger] s.drop_last()[j]),
        ) by {
            assert(s.drop_last()[j] == s[j]);
        }
        lemma_insert_value_at(s.drop_last(), x, p);
    }
}

/// Sorts values by their compact forms.
pub fn sort_json(v: Vec<Json>) -> (r: Vec<Json>)
    ensures
        views(r@) == sort_values(views(v@)),
{
    let ghost s = views(v@);
    let mut out: Vec<Json> = Vec::new();
    let mut keys: Vec<String> = Vec::new();
    let mut i: usize = 0;
    assert(s.take(0) =~= Seq::empty());
    assert(views(out@) =~= Seq::empty());
    while i < v.len()
        invariant
            i <= v@.len(),
            s == views(v@),
            views(out@) == sort_values(s.take(i as int)),
            keys@.len() == out@.len(),
            forall|j: int| 0 <= j < out@.len() ==> (#[trigger] keys@[j])@ == compact(out@[j]@),
        decreases v@.len() - i,
    {
        let ghost next = s.take(i + 1);
        assert(next.drop_last() =~= s.take(i as int));
        assert(next.last() == v@[i as int]@);
        let x = v[i].clone();
        let key = compact_text(&x);
        let ghost os = views(out@);
        assert(os.len() == out@.len());
        let mut p: usize = keys.len();
        while p > 0 && lt(key.as_str(), keys[p - 1].as_str())
            invariant
                p <= keys@.len(),
                os == views(out@),
                keys@.len() == out@.len(),
                key@ == compact(x@),
                forall|j: int|
                    0 <= j < out@.len() ==> (#[trigger] keys@[j])@ == compact(out@[j]@),
                forall|j: int| p <= j < os.len() ==> text_lt(compact(x@), compact(#[trigger] os[j])),
            decreases p,
        {
            assert(os[p - 1] == out@[p - 1]@);
            assert(keys@[p - 1]@ == compact(os[p - 1]));
            p = p - 1;
        }
        proof {
            if p > 0 {
                assert(keys@[p - 1]@ == compact(os[p - 1]));
            }
            lemma_insert_value_at(os, x@, p as int);
        }
        let ghost xv = x@;
        let ghost keys0 = keys@;
        let ghost out0 = out@;
        keys.insert(p, key);
        out.insert(p, x);
        assert(views(out@) =~= os.insert(p as int, xv));
        assert forall|j: int| 0 <= j < out@.len() implies (#[trigger] keys@[j])@ == compact(
            out@[j]@,
        ) by {
            if j < p {
                assert(keys@[j] == keys0[j]);
            } else if j > p {
                assert(keys@[j] == keys0[j - 1]);
                assert(out@[j] == out0[j - 1]);
            }
        }
        i = i + 1;
    }
    assert(s.take(i as int) =~= s);
    out
}

/// Whether a list of texts comes before another: at the first place where they differ, or by
/// being shorter.
pub open spec fn list_lt(a: Seq<Seq<char>>, b: Seq<Seq<char>>) -> bool
    decreases a.len(),
{
    if b.len() == 0 {
        false
    } else if a.len() == 0 {
        true
    } else if a[0] == b[0] {
        list_lt(a.drop_first(), b.drop_first())
    } else {
        text_lt(a[0], b[0])
    }
}

/// Ordered lists with one more, behind those that it does not come before.
pub open spec fn insert_list(s: Seq<Seq<Seq<char>>>, x: Seq<Seq<char>>) -> Seq<Seq<Seq<char>>>
    decreases s.len(),
{
    if s.len() > 0 && list_lt(x, s.last()) {
        insert_list(s.drop_last(), x).push(s.last())
    } else {
        s.push(x)
    }
}

/// Lists of texts.
pub open spec fn lists(v: Seq<Vec<String>>) -> Seq<Seq<Seq<char>>> {
    v.map_values(|x: Vec<String>| texts(x@))
}

fn is_list_lt(a: &Vec<String>, b: &Vec<String>) -> (r: bool)
    ensures
        r == list_lt(texts(a@), texts(b@)),
{
    let ghost s = texts(a@);
    let ghost t = texts(b@);
    let mut i: usize = 0;
    assert(s.skip(0) =~= s);
    assert(t.skip(0) =~= t);
    while i < a.len() && i < b.len() && same(a[i].as_str(), b[i].as_str())
        invariant
            i <= a@.len(),
            i <= b@.len(),
            s == texts(a@),
            t == texts(b@),
            list_lt(s, t) == list_lt(s.skip(i as int), t.skip(i as int)),
        decreases a@.len() - i,
    {
        assert(s.skip(i as int)[0] == a@[i as int]@);
        assert(t.skip(i as int)[0] == b@[i as int]@);
        assert(s.skip(i as int).drop_first() =~= s.skip(i + 1));
        assert(t.skip(i as int).drop_first() =~= t.skip(i + 1));
        i = i + 1;
    }
    if i < b.len() {
        if i < a.len() {
            assert(s.skip(i as int)[0] == a@[i as int]@);
            assert(t.skip(i as int)[0] == b@[i as int]@);
            lt(a[i].as_str(), b[i].as_str())
        } else {
            true
        }
    } else {
        false
    }
}

proof fn lemma_insert_list_at(s: Seq<Seq<Seq<char>>>, x: Seq<Seq<char>>, p: int)
    requires
        0 <= p <= s.len(),
        forall|j: int| p <= j < s.len() ==> list_lt(x, #[trigger] s[j]),
        p > 0 ==> !list_lt(x, s[p - 1]),
    ensures
        insert_list(s, x) =~= s.insert(p, x),
    decreases s.len(),
{
    if p < s.len() {
        assert(list_lt(x, s[s.len() - 1]));
        assert forall|j: int| p <= j < s.drop_last().len() implies list_lt(
            x,
            #[trigger] s.drop_last()[j],
        ) by {
            assert(s.drop_last()[j] == s[j]);
        }
        lemma_insert_list_at(s.drop_last(), x, p);
    }
}

/// Adds a list to ordered ones.
pub fn add_list(v: &mut Vec<Vec<String>>, x: Vec<String>)
    ensures
        lists(final(v)@) == insert_list(lists(old(v)@), texts(x@)),
{
    let ghost s = lists(v@);
    let mut p: usize = v.len();
    while p > 0 && is_list_lt(&x, &v[p - 1])
        invariant
            p <= v@.len(),
            s == lists(v@),
            forall|j: int| p <= j < s.len() ==> list_lt(texts(x@), #[trigger] s[j]),
        decreases p,
    {
        assert(s[p - 1] == texts(v@[p - 1]@));
        p = p - 1;
    }
    proof {
        if p > 0 {
            assert(s[p - 1] == texts(v@[p - 1]@));
        }
        lemma_insert_list_at(s, texts(x@), p as int);
    }
    let ghost xv = texts(x@);
    v.insert(p, x);
    assert(lists(v@) =~= s.insert(p as int, xv));
}

} // verus!
