//! JSON values.

use vstd::prelude::*;

use crate::text::{lt, same, starts_with};
use crate::text::{
    lemma_lt_asymmetric, lemma_lt_irreflexive, lemma_lt_total, lemma_lt_transitive, text_lt,
};

verus! {

/// A JSON number. A number that is no 64-bit integer is held as its shortest
/// decimal text.
pub enum Number {
    PosInt(u64),
    NegInt(i64),
    Float(String),
}

pub enum Json {
    Null,
    Bool(bool),
    Number(Number),
    Str(String),
    Array(Vec<Json>),
    Object(JsonMap),
}

/// The members of a JSON object, ordered by key, no key twice.
pub struct JsonMap {
    entries: Vec<(String, Json)>,
}

#[verifier::ext_equal]
pub enum NumberView {
    PosInt(u64),
    NegInt(i64),
    Float(Seq<char>),
}

#[verifier::ext_equal]
pub enum JsonView {
    Null,
    Bool(bool),
    Number(NumberView),
    Str(Seq<char>),
    Array(Seq<JsonView>),
    Object(Seq<(Seq<char>, JsonView)>),
}

impl Number {
    pub open spec fn view(&self) -> NumberView {
        match self {
            Number::PosInt(n) => NumberView::PosInt(*n),
            Number::NegInt(n) => NumberView::NegInt(*n),
            Number::Float(t) => NumberView::Float(t@),
        }
    }
}

impl Json {
    pub open spec fn view(&self) -> JsonView
        decreases self,
    {
        match self {
            Json::Null => JsonView::Null,
            Json::Bool(b) => JsonView::Bool(*b),
            Json::Number(n) => JsonView::Number(n@),
            Json::Str(s) => JsonView::Str(s@),
            Json::Array(a) => JsonView::Array(
                Seq::new(
                    a@.len(),
                    |i: int| if 0 <= i < a@.len() { a@[i].view() } else { JsonView::Null },
                ),
            ),
            Json::Object(m) => JsonView::Object(m.view()),
        }
    }
}

impl JsonMap {
    pub closed spec fn view(&self) -> Seq<(Seq<char>, JsonView)>
        decreases self,
    {
        Seq::new(
            self.entries@.len(),
            |i: int|
                if 0 <= i < self.entries@.len() {
                    (self.entries@[i].0@, self.entries@[i].1.view())
                } else {
                    (Seq::empty(), JsonView::Null)
                },
        )
    }
}


/// The models of a sequence of values.
pub open spec fn views(s: Seq<Json>) -> Seq<JsonView> {
    Seq::new(s.len(), |i: int| s[i].view())
}

/// The model of a value that may be absent.
pub open spec fn opt_view(v: Option<&Json>) -> Option<JsonView> {
    match v {
        Some(j) => Some(j.view()),
        None => None,
    }
}

pub broadcast proof fn array_view(a: Vec<Json>)
    ensures
        #[trigger] Json::Array(a).view() == JsonView::Array(views(a@)),
{
    assert(Json::Array(a).view()->Array_0 =~= views(a@));
}

/// A value with the sign of every zero left out. Two values with the same form of this kind are the
/// same value: as numbers, `0.0` and `-0.0` are equal.
pub open spec fn signless(v: JsonView) -> JsonView
    decreases v,
{
    match v {
        JsonView::Number(NumberView::Float(t)) => if t == "-0.0"@ {
            JsonView::Number(NumberView::Float("0.0"@))
        } else {
            v
        },
        JsonView::Array(a) => JsonView::Array(
            Seq::new(
                a.len(),
                |i: int| if 0 <= i < a.len() { signless(a[i]) } else { JsonView::Null },
            ),
        ),
        JsonView::Object(m) => JsonView::Object(
            Seq::new(
                m.len(),
                |i: int|
                    if 0 <= i < m.len() {
                        (m[i].0, signless(m[i].1))
                    } else {
                        (Seq::empty(), JsonView::Null)
                    },
            ),
        ),
        _ => v,
    }
}

/// Whether both are the same value.
pub open spec fn same_value(a: JsonView, b: JsonView) -> bool {
    signless(a) == signless(b)
}

/// Values under keys.
pub type Entries<A> = Seq<(Seq<char>, A)>;

/// Members of an object, as the model has them.
pub type Members = Entries<JsonView>;

/// Whether the keys are in strictly ascending order.
pub open spec fn sorted<A>(m: Entries<A>) -> bool {
    forall|i: int, j: int| 0 <= i < j < m.len() ==> text_lt(#[trigger] m[i].0, #[trigger] m[j].0)
}

/// The value under `key`, if there is one.
pub open spec fn lookup<A>(m: Entries<A>, key: Seq<char>) -> Option<A>
    decreases m.len(),
{
    if m.len() == 0 {
        None
    } else if m[0].0 == key {
        Some(m[0].1)
    } else {
        lookup(m.drop_first(), key)
    }
}

/// The members with `key` holding `value`: in place of what it held, or at its
/// place in the order.
pub open spec fn put<A>(m: Entries<A>, key: Seq<char>, value: A) -> Entries<A>
    decreases m.len(),
{
    if m.len() == 0 {
        seq![(key, value)]
    } else if m[0].0 == key {
        seq![(key, value)] + m.drop_first()
    } else if text_lt(key, m[0].0) {
        seq![(key, value)] + m
    } else {
        seq![m[0]] + put(m.drop_first(), key, value)
    }
}

/// The members without `key`.
pub open spec fn cut(m: Members, key: Seq<char>) -> Members
    decreases m.len(),
{
    if m.len() == 0 {
        m
    } else if m[0].0 == key {
        m.drop_first()
    } else {
        seq![m[0]] + cut(m.drop_first(), key)
    }
}

pub proof fn lemma_lookup_at<A>(m: Entries<A>, key: Seq<char>, i: int)
    requires
        0 <= i < m.len(),
        m[i].0 == key,
        forall|j: int| 0 <= j < i ==> (#[trigger] m[j]).0 != key,
    ensures
        lookup(m, key) == Some(m[i].1),
    decreases m.len(),
{
    if i > 0 {
        assert(m[0].0 != key);
        assert forall|j: int| 0 <= j < i - 1 implies (#[trigger] m.drop_first()[j]).0 != key by {
            assert(m[j + 1].0 != key);
        }
        lemma_lookup_at(m.drop_first(), key, i - 1);
    }
}

pub proof fn lemma_lookup_none<A>(m: Entries<A>, key: Seq<char>)
    requires
        forall|j: int| 0 <= j < m.len() ==> (#[trigger] m[j]).0 != key,
    ensures
        lookup(m, key) is None,
    decreases m.len(),
{
    if m.len() > 0 {
        assert(m[0].0 != key);
        assert forall|j: int| 0 <= j < m.len() - 1 implies (#[trigger] m.drop_first()[j]).0
            != key by {
            assert(m[j + 1].0 != key);
        }
        lemma_lookup_none(m.drop_first(), key);
    }
}

/// A key that is found stands at some place.
pub proof fn lemma_lookup_some<A>(m: Entries<A>, key: Seq<char>) -> (i: int)
    requires
        lookup(m, key) is Some,
    ensures
        0 <= i < m.len(),
        m[i].0 == key,
        lookup(m, key) == Some(m[i].1),
    decreases m.len(),
{
    if m[0].0 == key {
        0
    } else {
        let k = lemma_lookup_some(m.drop_first(), key);
        k + 1
    }
}

/// Of ordered members, the last one is found under its key, and all others are found among
/// those before it.
pub proof fn lemma_lookup_last<A>(m: Entries<A>, key: Seq<char>)
    requires
        sorted(m),
        m.len() > 0,
    ensures
        lookup(m, key) == if m.last().0 == key {
            Some(m.last().1)
        } else {
            lookup(m.drop_last(), key)
        },
        m.last().0 == key ==> lookup(m.drop_last(), key) is None,
    decreases m.len(),
{
    let n = m.len() - 1;
    if m.last().0 == key {
        assert forall|j: int| 0 <= j < n implies (#[trigger] m[j]).0 != key by {
            assert(text_lt(m[j].0, m[n].0));
            lemma_lt_irreflexive(key);
        }
        lemma_lookup_at(m, key, n);
        assert forall|j: int| 0 <= j < n implies (#[trigger] m.drop_last()[j]).0 != key by {
            assert(m[j].0 != key);
        }
        lemma_lookup_none(m.drop_last(), key);
    } else if n > 0 && m[0].0 != key {
        let q = m.drop_first();
        assert(sorted(q)) by {
            assert forall|i: int, j: int| 0 <= i < j < q.len() implies text_lt(
                #[trigger] q[i].0,
                #[trigger] q[j].0,
            ) by {
                assert(text_lt(m[i + 1].0, m[j + 1].0));
            }
        }
        lemma_lookup_last(q, key);
        assert(m.drop_last().drop_first() =~= q.drop_last());
    } else if n == 0 {
        reveal_with_fuel(lookup, 2);
    }
}

/// Reading a key back after a write gives what was written; another key reads as
/// before.
pub proof fn lemma_put_lookup<A>(m: Entries<A>, key: Seq<char>, value: A, other: Seq<char>)
    ensures
        lookup(put(m, key, value), key) == Some(value),
        other != key ==> lookup(put(m, key, value), other) == lookup(m, other),
    decreases m.len(),
{
    let p = put(m, key, value);
    if m.len() == 0 {
        reveal_with_fuel(lookup, 2);
        assert(p.drop_first() =~= Seq::empty());
    } else if m[0].0 == key {
        assert(p.drop_first() =~= m.drop_first());
    } else if text_lt(key, m[0].0) {
        assert(p.drop_first() =~= m);
    } else {
        lemma_put_lookup(m.drop_first(), key, value, other);
        assert(p.drop_first() =~= put(m.drop_first(), key, value));
    }
}

/// How members read after one of them was put.
pub broadcast proof fn lemma_reads_put<A>(m: Entries<A>, key: Seq<char>, value: A, other: Seq<char>)
    ensures
        #[trigger] lookup(put(m, key, value), other) == (if other == key {
            Some(value)
        } else {
            lookup(m, other)
        }),
{
    lemma_put_lookup(m, key, value, other);
}

/// A key reads as before behind which another entry is added, unless it is that entry's.
pub proof fn lemma_lookup_push(m: Members, e: (Seq<char>, JsonView), k: Seq<char>)
    ensures
        lookup(m.push(e), k) == match lookup(m, k) {
            Some(v) => Some(v),
            None => if e.0 == k {
                Some(e.1)
            } else {
                None
            },
        },
    decreases m.len(),
{
    if m.len() == 0 {
        reveal_with_fuel(lookup, 2);
        assert(m.push(e).drop_first() =~= m);
    } else {
        assert(m.push(e).drop_first() =~= m.drop_first().push(e));
        lemma_lookup_push(m.drop_first(), e, k);
    }
}

/// Another key reads as before after a removal; in ordered members the removed
/// key reads as absent.
pub proof fn lemma_cut_lookup(m: Members, key: Seq<char>, other: Seq<char>)
    ensures
        other != key ==> lookup(cut(m, key), other) == lookup(m, other),
        sorted(m) ==> lookup(cut(m, key), key) is None,
    decreases m.len(),
{
    let c = cut(m, key);
    if m.len() == 0 {
    } else if m[0].0 == key {
        if sorted(m) {
            assert forall|j: int| 0 <= j < c.len() implies (#[trigger] c[j]).0 != key by {
                assert(text_lt(m[0].0, m[j + 1].0));
                lemma_lt_asymmetric(m[0].0, m[j + 1].0);
            }
            lemma_lookup_none(c, key);
        }
    } else {
        lemma_cut_lookup(m.drop_first(), key, other);
        assert(c.drop_first() =~= cut(m.drop_first(), key));
        if sorted(m) {
            assert(sorted(m.drop_first())) by {
                assert forall|i: int, j: int| 0 <= i < j < m.len() - 1 implies text_lt(
                    #[trigger] m.drop_first()[i].0,
                    #[trigger] m.drop_first()[j].0,
                ) by {
                    assert(text_lt(m[i + 1].0, m[j + 1].0));
                }
            }
        }
    }
}

/// Where `key` belongs: what `put` does, told by position.
pub proof fn lemma_put_at<A>(m: Entries<A>, key: Seq<char>, value: A, p: int)
    requires
        0 <= p <= m.len(),
        forall|j: int| 0 <= j < p ==> text_lt((#[trigger] m[j]).0, key),
        p < m.len() ==> m[p].0 == key || text_lt(key, m[p].0),
    ensures
        put(m, key, value) == (if p < m.len() && m[p].0 == key {
            m.update(p, (key, value))
        } else {
            m.insert(p, (key, value))
        }),
    decreases m.len(),
{
    if m.len() == 0 {
        assert(put(m, key, value) =~= m.insert(p, (key, value)));
    } else if p == 0 {
        if m[0].0 == key {
            assert(put(m, key, value) =~= m.update(p, (key, value)));
        } else {
            assert(put(m, key, value) =~= m.insert(p, (key, value)));
        }
    } else {
        assert(text_lt(m[0].0, key));
        lemma_lt_asymmetric(m[0].0, key);
        assert forall|j: int| 0 <= j < p - 1 implies text_lt(
            (#[trigger] m.drop_first()[j]).0,
            key,
        ) by {
            assert(text_lt(m[j + 1].0, key));
        }
        lemma_put_at(m.drop_first(), key, value, p - 1);
        if p < m.len() && m[p].0 == key {
            assert(put(m, key, value) =~= m.update(p, (key, value)));
        } else {
            assert(put(m, key, value) =~= m.insert(p, (key, value)));
        }
    }
}

proof fn lemma_cut_at(m: Members, key: Seq<char>, p: int)
    requires
        0 <= p < m.len(),
        m[p].0 == key,
        forall|j: int| 0 <= j < p ==> (#[trigger] m[j]).0 != key,
    ensures
        cut(m, key) == m.remove(p),
    decreases m.len(),
{
    if p == 0 {
        assert(cut(m, key) =~= m.remove(p));
    } else {
        assert(m[0].0 != key);
        assert forall|j: int| 0 <= j < p - 1 implies (#[trigger] m.drop_first()[j]).0 != key by {
            assert(m[j + 1].0 != key);
        }
        lemma_cut_at(m.drop_first(), key, p - 1);
        assert(cut(m, key) =~= m.remove(p));
    }
}

proof fn lemma_cut_absent(m: Members, key: Seq<char>)
    requires
        forall|j: int| 0 <= j < m.len() ==> (#[trigger] m[j]).0 != key,
    ensures
        cut(m, key) == m,
    decreases m.len(),
{
    if m.len() > 0 {
        assert(m[0].0 != key);
        assert forall|j: int| 0 <= j < m.len() - 1 implies (#[trigger] m.drop_first()[j]).0
            != key by {
            assert(m[j + 1].0 != key);
        }
        lemma_cut_absent(m.drop_first(), key);
        assert(cut(m, key) =~= m);
    }
}

/// Texts as they are seen.
pub open spec fn strs(v: Seq<&str>) -> Seq<Seq<char>> {
    v.map_values(|s: &str| s@)
}

/// The members whose keys are not listed.
pub open spec fn dropped(m: Members, keys: Seq<Seq<char>>) -> Members
    decreases m.len(),
{
    if m.len() == 0 {
        m
    } else if keys.contains(m.last().0) {
        dropped(m.drop_last(), keys)
    } else {
        dropped(m.drop_last(), keys).push(m.last())
    }
}

/// What is left stands in the same order.
pub proof fn lemma_dropped_sorted(m: Members, keys: Seq<Seq<char>>)
    requires
        sorted(m),
    ensures
        sorted(dropped(m, keys)),
        forall|i: int|
            0 <= i < dropped(m, keys).len() ==> m.contains(#[trigger] dropped(m, keys)[i]),
    decreases m.len(),
{
    if m.len() > 0 {
        let before = dropped(m.drop_last(), keys);
        let r = dropped(m, keys);
        assert(sorted(m.drop_last()));
        lemma_dropped_sorted(m.drop_last(), keys);
        assert forall|i: int| 0 <= i < r.len() implies m.contains(#[trigger] r[i]) by {
            if i < before.len() {
                assert(r[i] == before[i]);
                let k = m.drop_last().index_of(before[i]);
                assert(m[k] == before[i]);
            } else {
                assert(m[m.len() - 1] == r[i]);
            }
        }
        assert forall|i: int, j: int| 0 <= i < j < r.len() implies text_lt(
            #[trigger] r[i].0,
            #[trigger] r[j].0,
        ) by {
            if j < before.len() {
                assert(text_lt(before[i].0, before[j].0));
            } else {
                assert(r[i] == before[i]);
                let k = m.drop_last().index_of(before[i]);
                assert(m[k] == before[i]);
                assert(text_lt(m[k].0, m[m.len() - 1].0));
            }
        }
    }
}

/// A member under a listed key makes no difference.
pub proof fn lemma_dropped_put(m: Members, keys: Seq<Seq<char>>, key: Seq<char>, value: JsonView)
    requires
        sorted(m),
        keys.contains(key),
    ensures
        dropped(put(m, key, value), keys) == dropped(m, keys),
{
    let p = lemma_place(m, key);
    lemma_put_at(m, key, value, p);
    if p < m.len() && m[p].0 == key {
        lemma_dropped_update(m, keys, p, value);
    } else {
        lemma_dropped_insert(m, keys, p, key, value);
    }
}

/// The place at which a key belongs.
pub proof fn lemma_place(m: Members, key: Seq<char>) -> (p: int)
    requires
        sorted(m),
    ensures
        0 <= p <= m.len(),
        forall|j: int| 0 <= j < p ==> text_lt((#[trigger] m[j]).0, key),
        p < m.len() ==> m[p].0 == key || text_lt(key, m[p].0),
    decreases m.len(),
{
    if m.len() == 0 {
        0
    } else {
        lemma_lt_total(m[0].0, key);
        if text_lt(m[0].0, key) {
            assert(sorted(m.drop_first())) by {
                assert forall|i: int, j: int| 0 <= i < j < m.len() - 1 implies text_lt(
                    #[trigger] m.drop_first()[i].0,
                    #[trigger] m.drop_first()[j].0,
                ) by {
                    assert(text_lt(m[i + 1].0, m[j + 1].0));
                }
            }
            let k = lemma_place(m.drop_first(), key);
            assert forall|j: int| 0 <= j < k + 1 implies text_lt((#[trigger] m[j]).0, key) by {
                if j > 0 {
                    assert(m.drop_first()[j - 1] == m[j]);
                }
            }
            k + 1
        } else {
            0
        }
    }
}

proof fn lemma_dropped_update(m: Members, keys: Seq<Seq<char>>, p: int, value: JsonView)
    requires
        0 <= p < m.len(),
        keys.contains(m[p].0),
    ensures
        dropped(m.update(p, (m[p].0, value)), keys) == dropped(m, keys),
    decreases m.len(),
{
    let u = m.update(p, (m[p].0, value));
    if p == m.len() - 1 {
        assert(u.drop_last() =~= m.drop_last());
    } else {
        assert(u.drop_last() =~= m.drop_last().update(p, (m.drop_last()[p].0, value)));
        lemma_dropped_update(m.drop_last(), keys, p, value);
    }
}

proof fn lemma_dropped_insert(
    m: Members,
    keys: Seq<Seq<char>>,
    p: int,
    key: Seq<char>,
    value: JsonView,
)
    requires
        0 <= p <= m.len(),
        keys.contains(key),
    ensures
        dropped(m.insert(p, (key, value)), keys) == dropped(m, keys),
    decreases m.len(),
{
    let u = m.insert(p, (key, value));
    if p == m.len() {
        assert(u.drop_last() =~= m);
    } else {
        assert(u.drop_last() =~= m.drop_last().insert(p, (key, value)));
        assert(u.last() == m.last());
        lemma_dropped_insert(m.drop_last(), keys, p, key, value);
    }
}

/// The members whose keys do not begin with `prefix`.
pub open spec fn unprefixed(m: Members, prefix: Seq<char>) -> Members
    decreases m.len(),
{
    if m.len() == 0 {
        m
    } else if prefix.is_prefix_of(m.last().0) {
        unprefixed(m.drop_last(), prefix)
    } else {
        unprefixed(m.drop_last(), prefix).push(m.last())
    }
}

pub proof fn lemma_unprefixed_sorted(m: Members, prefix: Seq<char>)
    requires
        sorted(m),
    ensures
        sorted(unprefixed(m, prefix)),
        forall|i: int|
            0 <= i < unprefixed(m, prefix).len() ==> m.contains(#[trigger] unprefixed(m, prefix)[i]),
    decreases m.len(),
{
    if m.len() > 0 {
        let rest = m.drop_last();
        assert forall|i: int, j: int| 0 <= i < j < rest.len() implies text_lt(
            #[trigger] rest[i].0,
            #[trigger] rest[j].0,
        ) by {
            assert(rest[i] == m[i] && rest[j] == m[j]);
        }
        lemma_unprefixed_sorted(rest, prefix);
        let before = unprefixed(rest, prefix);
        let r = unprefixed(m, prefix);
        assert forall|i: int| 0 <= i < r.len() implies m.contains(#[trigger] r[i]) by {
            if i < before.len() {
                assert(r[i] == before[i]);
                let k = rest.index_of(before[i]);
                assert(rest[k] == m[k]);
            } else {
                assert(r[i] == m[m.len() - 1]);
            }
        }
        assert forall|i: int, j: int| 0 <= i < j < r.len() implies text_lt(
            #[trigger] r[i].0,
            #[trigger] r[j].0,
        ) by {
            assert(r[i] == before[i]);
            if j < before.len() {
                assert(r[j] == before[j]);
            } else {
                let k = rest.index_of(before[i]);
                assert(rest[k] == m[k]);
                assert(text_lt(m[k].0, m[m.len() - 1].0));
            }
        }
    }
}

fn is_listed(keys: &Vec<&str>, s: &str) -> (r: bool)
    ensures
        r == strs(keys@).contains(s@),
{
    let ghost ks = strs(keys@);
    let mut k: usize = 0;
    while k < keys.len()
        invariant
            k <= keys@.len(),
            ks == strs(keys@),
            forall|j: int| 0 <= j < k ==> #[trigger] ks[j] != s@,
        decreases keys@.len() - k,
    {
        assert(ks[k as int] == keys@[k as int]@);
        if same(keys[k], s) {
            return true;
        }
        k = k + 1;
    }
    false
}

impl JsonMap {
    #[verifier::type_invariant]
    pub open spec fn ordered(&self) -> bool {
        sorted(self.view())
    }

    /// No members.
    pub fn new() -> (r: JsonMap)
        ensures
            r@ == Members::empty(),
    {
        JsonMap { entries: Vec::new() }
    }

    pub fn len(&self) -> (n: usize)
        ensures
            n == self@.len(),
    {
        self.entries.len()
    }

    pub fn is_empty(&self) -> (r: bool)
        ensures
            r == (self@.len() == 0),
    {
        self.entries.len() == 0
    }

    /// The key at place `i`.
    pub fn key_at(&self, i: usize) -> (k: &String)
        requires
            i < self@.len(),
        ensures
            k@ == self@[i as int].0,
    {
        &self.entries[i].0
    }

    /// The value at place `i`.
    pub fn value_at(&self, i: usize) -> (v: &Json)
        requires
            i < self@.len(),
        ensures
            v@ == self@[i as int].1,
    {
        &self.entries[i].1
    }

    /// The place of `key`, or the number of members.
    fn place(&self, key: &str) -> (p: usize)
        ensures
            p <= self@.len(),
            p < self@.len() ==> self@[p as int].0 == key@,
            forall|j: int| 0 <= j < p ==> (#[trigger] self@[j]).0 != key@,
    {
        let mut i: usize = 0;
        while i < self.entries.len()
            invariant
                i <= self@.len(),
                forall|j: int| 0 <= j < i ==> (#[trigger] self@[j]).0 != key@,
            decreases self@.len() - i,
        {
            if same(self.entries[i].0.as_str(), key) {
                return i;
            }
            i = i + 1;
        }
        i
    }

    pub fn get(&self, key: &str) -> (r: Option<&Json>)
        ensures
            opt_view(r) == lookup(self@, key@),
    {
        let p: usize = self.place(key);
        if p < self.entries.len() {
            proof {
                lemma_lookup_at(self@, key@, p as int);
            }
            Some(&self.entries[p].1)
        } else {
            proof {
                lemma_lookup_none(self@, key@);
            }
            None
        }
    }

    pub fn contains_key(&self, key: &str) -> (r: bool)
        ensures
            r == (lookup(self@, key@) is Some),
    {
        self.get(key).is_some()
    }

    /// Sets `key` to `value`.
    pub fn insert(&mut self, key: String, value: Json)
        ensures
            final(self)@ == put(old(self)@, key@, value@),
    {
        proof {
            use_type_invariant(&*self);
        }
        let ghost before = self@;
        let mut p: usize = 0;
        while p < self.entries.len() && lt(self.entries[p].0.as_str(), key.as_str())
            invariant
                p <= self@.len(),
                self@ == before,
                forall|j: int| 0 <= j < p ==> text_lt((#[trigger] self@[j]).0, key@),
            decreases self@.len() - p,
        {
            p = p + 1;
        }
        proof {
            if p < before.len() {
                lemma_lt_total(before[p as int].0, key@);
            }
            lemma_put_at(before, key@, value@, p as int);
        }
        let mut es: Vec<(String, Json)> = Vec::new();
        std::mem::swap(&mut es, &mut self.entries);
        let ghost es0 = es@;
        let ghost (k, v) = (key@, value@);
        if p < es.len() && same(es[p].0.as_str(), key.as_str()) {
            es.set(p, (key, value));
            proof {
                assert(JsonMap { entries: es }.view() =~= before.update(p as int, (k, v)));
                lemma_sorted_update(before, p as int, v);
            }
        } else {
            es.insert(p, (key, value));
            proof {
                assert(JsonMap { entries: es }.view() =~= before.insert(p as int, (k, v)));
                lemma_sorted_insert(before, p as int, k, v);
            }
        }
        self.entries = es;
    }

    /// Takes `key` out.
    pub fn remove(&mut self, key: &str) -> (r: Option<Json>)
        ensures
            final(self)@ == cut(old(self)@, key@),
            (match r {
                Some(v) => Some(v@),
                None => None,
            }) == lookup(old(self)@, key@),
    {
        proof {
            use_type_invariant(&*self);
        }
        let ghost before = self@;
        let p: usize = self.place(key);
        if p < self.entries.len() {
            proof {
                lemma_lookup_at(before, key@, p as int);
                lemma_cut_at(before, key@, p as int);
            }
            let mut es: Vec<(String, Json)> = Vec::new();
            std::mem::swap(&mut es, &mut self.entries);
            let gone = es.remove(p);
            proof {
                assert(JsonMap { entries: es }.view() =~= before.remove(p as int));
                lemma_sorted_remove(before, p as int);
            }
            self.entries = es;
            Some(gone.1)
        } else {
            proof {
                lemma_lookup_none(before, key@);
                lemma_cut_absent(before, key@);
            }
            None
        }
    }

    /// The members whose keys do not begin with `prefix`.
    pub fn without_prefix(&self, prefix: &str) -> (r: JsonMap)
        ensures
            r@ == unprefixed(self@, prefix@),
    {
        proof {
            use_type_invariant(&*self);
            lemma_unprefixed_sorted(self@, prefix@);
        }
        let mut es: Vec<(String, Json)> = Vec::new();
        let mut i: usize = 0;
        assert(JsonMap { entries: es }.view() =~= unprefixed(self@.take(0), prefix@));
        while i < self.entries.len()
            invariant
                i <= self@.len(),
                (JsonMap { entries: es }).view() == unprefixed(self@.take(i as int), prefix@),
            decreases self@.len() - i,
        {
            let ghost next = self@.take(i + 1);
            assert(next.drop_last() =~= self@.take(i as int));
            assert(next.last() == self@[i as int]);
            if !starts_with(self.entries[i].0.as_str(), prefix) {
                let ghost before = JsonMap { entries: es }.view();
                let e = (self.entries[i].0.clone(), self.entries[i].1.clone());
                es.push(e);
                assert(JsonMap { entries: es }.view() =~= before.push(self@[i as int]));
            }
            i = i + 1;
        }
        assert(self@.take(i as int) =~= self@);
        JsonMap { entries: es }
    }

    /// The members whose keys are not listed.
    pub fn without_keys(&self, keys: &Vec<&str>) -> (r: JsonMap)
        ensures
            r@ == dropped(self@, strs(keys@)),
    {
        proof {
            use_type_invariant(&*self);
            lemma_dropped_sorted(self@, strs(keys@));
        }
        let ghost ks = strs(keys@);
        let mut es: Vec<(String, Json)> = Vec::new();
        let mut i: usize = 0;
        assert(JsonMap { entries: es }.view() =~= dropped(self@.take(0), ks));
        while i < self.entries.len()
            invariant
                i <= self@.len(),
                ks == strs(keys@),
                (JsonMap { entries: es }).view() == dropped(self@.take(i as int), ks),
            decreases self@.len() - i,
        {
            let ghost next = self@.take(i + 1);
            assert(next.drop_last() =~= self@.take(i as int));
            assert(next.last() == self@[i as int]);
            if !is_listed(keys, self.entries[i].0.as_str()) {
                let ghost before = JsonMap { entries: es }.view();
                let e = (self.entries[i].0.clone(), self.entries[i].1.clone());
                es.push(e);
                assert(JsonMap { entries: es }.view() =~= before.push(self@[i as int]));
            }
            i = i + 1;
        }
        assert(self@.take(i as int) =~= self@);
        JsonMap { entries: es }
    }

    /// The members with `key` set to `value`.
    pub fn with(self, key: &str, value: Json) -> (r: JsonMap)
        ensures
            r@ == put(self@, key@, value@),
    {
        let mut m = self;
        m.insert(key.to_owned(), value);
        m
    }
}

pub proof fn lemma_sorted_update<A>(m: Entries<A>, p: int, v: A)
    requires
        sorted(m),
        0 <= p < m.len(),
    ensures
        sorted(m.update(p, (m[p].0, v))),
{
    let u = m.update(p, (m[p].0, v));
    assert forall|i: int, j: int| 0 <= i < j < u.len() implies text_lt(
        #[trigger] u[i].0,
        #[trigger] u[j].0,
    ) by {
        assert(text_lt(m[i].0, m[j].0));
    }
}

pub proof fn lemma_sorted_insert<A>(m: Entries<A>, p: int, k: Seq<char>, v: A)
    requires
        sorted(m),
        0 <= p <= m.len(),
        forall|j: int| 0 <= j < p ==> text_lt((#[trigger] m[j]).0, k),
        p < m.len() ==> text_lt(k, m[p].0),
    ensures
        sorted(m.insert(p, (k, v))),
{
    let u = m.insert(p, (k, v));
    assert forall|i: int, j: int| 0 <= i < j < u.len() implies text_lt(
        #[trigger] u[i].0,
        #[trigger] u[j].0,
    ) by {
        if i == p {
            assert(u[j] == m[j - 1]);
            if j - 1 > p {
                assert(text_lt(m[p].0, m[j - 1].0));
                lemma_lt_transitive(k, m[p].0, m[j - 1].0);
            }
        } else if j == p {
            assert(u[i] == m[i]);
        } else {
            let a = if i < p { i } else { i - 1 };
            let b = if j < p { j } else { j - 1 };
            assert(text_lt(m[a].0, m[b].0));
        }
    }
}

proof fn lemma_sorted_remove(m: Members, p: int)
    requires
        sorted(m),
        0 <= p < m.len(),
    ensures
        sorted(m.remove(p)),
{
    let u = m.remove(p);
    assert forall|i: int, j: int| 0 <= i < j < u.len() implies text_lt(
        #[trigger] u[i].0,
        #[trigger] u[j].0,
    ) by {
        let a = if i < p { i } else { i + 1 };
        let b = if j < p { j } else { j + 1 };
        assert(text_lt(m[a].0, m[b].0));
    }
}

/// Ordered members stay in order without one.
pub proof fn lemma_cut_sorted(m: Members, key: Seq<char>)
    requires
        sorted(m),
    ensures
        sorted(cut(m, key)),
{
    if exists|p: int| 0 <= p < m.len() && (#[trigger] m[p]).0 == key {
        let p = choose|p: int| 0 <= p < m.len() && (#[trigger] m[p]).0 == key;
        assert forall|j: int| 0 <= j < p implies (#[trigger] m[j]).0 != key by {
            assert(text_lt(m[j].0, m[p].0));
            crate::text::lemma_lt_irreflexive(key);
        }
        lemma_cut_at(m, key, p);
        lemma_sorted_remove(m, p);
    } else {
        lemma_cut_absent(m, key);
    }
}

/// Without the keys that begin with a text, those read as absent and all others as before.
pub proof fn lemma_unprefixed_lookup(m: Members, prefix: Seq<char>, key: Seq<char>)
    ensures
        lookup(unprefixed(m, prefix), key) == (if prefix.is_prefix_of(key) {
            None
        } else {
            lookup(m, key)
        }),
    decreases m.len(),
{
    if m.len() > 0 {
        let init = m.drop_last();
        lemma_unprefixed_lookup(init, prefix, key);
        lemma_lookup_push(init, m.last(), key);
        lemma_lookup_push(unprefixed(init, prefix), m.last(), key);
        assert(init.push(m.last()) =~= m);
    }
}

/// An object that is being written out.
pub struct ObjectView {
    pub m: Members,
}

/// The object without members.
pub open spec fn obj() -> ObjectView {
    ObjectView { m: Seq::empty() }
}

impl ObjectView {
    /// The object with a member.
    pub open spec fn with(self, key: Seq<char>, value: JsonView) -> ObjectView {
        ObjectView { m: put(self.m, key, value) }
    }

    /// The object as a value.
    pub open spec fn json(self) -> JsonView {
        JsonView::Object(self.m)
    }
}

/// A whole number that is not negative.
pub open spec fn number(n: u64) -> JsonView {
    JsonView::Number(NumberView::PosInt(n))
}

/// The text of a string value that may be absent.
pub open spec fn opt_text(v: Option<&str>) -> Option<Seq<char>> {
    match v {
        Some(s) => Some(s@),
        None => None,
    }
}

pub open spec fn is_digit(c: char) -> bool {
    '0' <= c <= '9'
}

/// The number that decimal digits write.
pub open spec fn digits_value(t: Seq<char>) -> nat
    decreases t.len(),
{
    if t.len() == 0 {
        0
    } else {
        digits_value(t.drop_last()) * 10 + (t.last() as int - '0' as int) as nat
    }
}

/// Whether a pointer token can name a place in an array: digits, without a
/// leading zero.
pub open spec fn is_index(t: Seq<char>) -> bool {
    &&& t.len() > 0
    &&& forall|i: int| 0 <= i < t.len() ==> is_digit(#[trigger] t[i])
    &&& t[0] == '0' ==> t.len() == 1
}

impl JsonView {
    /// The member `key` of an object.
    pub open spec fn get(self, key: Seq<char>) -> Option<JsonView> {
        match self {
            JsonView::Object(m) => lookup(m, key),
            _ => None,
        }
    }

    /// One step of a JSON pointer: a member of an object or an element of an
    /// array.
    pub open spec fn step(self, token: Seq<char>) -> Option<JsonView> {
        match self {
            JsonView::Object(m) => lookup(m, token),
            JsonView::Array(a) => if is_index(token) && digits_value(token) < a.len() {
                Some(a[digits_value(token) as int])
            } else {
                None
            },
            _ => None,
        }
    }

    /// The value at the end of a path of pointer tokens.
    pub open spec fn at(self, path: Seq<Seq<char>>) -> Option<JsonView>
        decreases path.len(),
    {
        if path.len() == 0 {
            Some(self)
        } else {
            match self.step(path[0]) {
                Some(v) => v.at(path.drop_first()),
                None => None,
            }
        }
    }

    pub open spec fn as_str(self) -> Option<Seq<char>> {
        match self {
            JsonView::Str(s) => Some(s),
            _ => None,
        }
    }

    pub open spec fn as_array(self) -> Option<Seq<JsonView>> {
        match self {
            JsonView::Array(a) => Some(a),
            _ => None,
        }
    }

    pub open spec fn as_object(self) -> Option<Members> {
        match self {
            JsonView::Object(m) => Some(m),
            _ => None,
        }
    }

    pub open spec fn as_u64(self) -> Option<u64> {
        match self {
            JsonView::Number(NumberView::PosInt(n)) => Some(n),
            _ => None,
        }
    }

    pub open spec fn as_bool(self) -> Option<bool> {
        match self {
            JsonView::Bool(b) => Some(b),
            _ => None,
        }
    }

    /// The text under `key`, where a string stands there.
    pub open spec fn get_str(self, key: Seq<char>) -> Option<Seq<char>> {
        match self.get(key) {
            Some(v) => v.as_str(),
            None => None,
        }
    }

    pub open spec fn get_array(self, key: Seq<char>) -> Option<Seq<JsonView>> {
        match self.get(key) {
            Some(v) => v.as_array(),
            None => None,
        }
    }

    pub open spec fn get_object(self, key: Seq<char>) -> Option<Members> {
        match self.get(key) {
            Some(v) => v.as_object(),
            None => None,
        }
    }

    pub open spec fn get_u64(self, key: Seq<char>) -> Option<u64> {
        match self.get(key) {
            Some(v) => v.as_u64(),
            None => None,
        }
    }

    pub open spec fn get_bool(self, key: Seq<char>) -> Option<bool> {
        match self.get(key) {
            Some(v) => v.as_bool(),
            None => None,
        }
    }
}

/// A further pointer step from a value that may be absent.
pub open spec fn then_step(v: Option<JsonView>, token: Seq<char>) -> Option<JsonView> {
    match v {
        Some(j) => j.step(token),
        None => None,
    }
}

impl Clone for Number {
    fn clone(&self) -> (r: Number)
        ensures
            r@ == self@,
    {
        match self {
            Number::PosInt(n) => Number::PosInt(*n),
            Number::NegInt(n) => Number::NegInt(*n),
            Number::Float(t) => Number::Float(t.clone()),
        }
    }
}

impl Clone for Json {
    fn clone(&self) -> (r: Json)
        ensures
            r@ == self@,
        decreases self,
    {
        broadcast use array_view;

        match self {
            Json::Null => Json::Null,
            Json::Bool(b) => Json::Bool(*b),
            Json::Number(n) => Json::Number(n.clone()),
            Json::Str(s) => Json::Str(s.clone()),
            Json::Array(a) => {
                let mut out: Vec<Json> = Vec::new();
                let mut i: usize = 0;
                while i < a.len()
                    invariant
                        i <= a@.len(),
                        self == Json::Array(*a),
                        views(out@) == views(a@).take(i as int),
                    decreases a@.len() - i,
                {
                    let ghost before = out@;
                    assert(decreases_to!(self => self->Array_0));
                    assert(decreases_to!(self->Array_0 => self->Array_0@));
                    assert(decreases_to!(self->Array_0@ => self->Array_0@[i as int]));
                    let v: Json = a[i].clone();
                    out.push(v);
                    assert(views(out@) =~= views(before).push(a@[i as int]@));
                    assert(views(a@).take(i + 1) =~= views(a@).take(i as int).push(a@[i as int]@));
                    i = i + 1;
                }
                assert(views(a@).take(i as int) =~= views(a@));
                Json::Array(out)
            },
            Json::Object(m) => Json::Object(m.clone()),
        }
    }
}

impl Clone for JsonMap {
    fn clone(&self) -> (r: JsonMap)
        ensures
            r@ == self@,
        decreases self,
    {
        proof {
            use_type_invariant(self);
        }
        let mut out: Vec<(String, Json)> = Vec::new();
        let mut i: usize = 0;
        while i < self.entries.len()
            invariant
                i == out@.len(),
                i <= self.entries@.len(),
                forall|j: int|
                    0 <= j < i ==> (#[trigger] out@[j]).0@ == self.entries@[j].0@ && out@[j].1@
                        == self.entries@[j].1@,
            decreases self.entries@.len() - i,
        {
            let k = self.entries[i].0.clone();
            let v = self.entries[i].1.clone();
            out.push((k, v));
            i = i + 1;
        }
        assert(JsonMap { entries: out }.view() =~= self.view());
        JsonMap { entries: out }
    }
}

impl Number {
    fn equals(&self, other: &Number) -> (r: bool)
        ensures
            r == same_value(JsonView::Number(self@), JsonView::Number(other@)),
    {
        match (self, other) {
            (Number::PosInt(a), Number::PosInt(b)) => *a == *b,
            (Number::NegInt(a), Number::NegInt(b)) => *a == *b,
            (Number::Float(a), Number::Float(b)) => {
                let a_zero = same(a.as_str(), "0.0") || same(a.as_str(), "-0.0");
                let b_zero = same(b.as_str(), "0.0") || same(b.as_str(), "-0.0");
                same(a.as_str(), b.as_str()) || (a_zero && b_zero)
            },
            _ => false,
        }
    }
}

impl JsonMap {
    /// Whether both hold the same members.
    pub fn equals(&self, other: &JsonMap) -> (r: bool)
        ensures
            r == same_value(JsonView::Object(self@), JsonView::Object(other@)),
        decreases self,
    {
        let ghost p = signless(JsonView::Object(self@))->Object_0;
        let ghost q = signless(JsonView::Object(other@))->Object_0;
        if self.entries.len() != other.entries.len() {
            assert(p.len() != q.len());
            return false;
        }
        let mut i: usize = 0;
        while i < self.entries.len()
            invariant
                i <= self.entries@.len(),
                self.entries@.len() == other.entries@.len(),
                p == signless(JsonView::Object(self@))->Object_0,
                q == signless(JsonView::Object(other@))->Object_0,
                forall|j: int| 0 <= j < i ==> #[trigger] p[j] == q[j],
            decreases self.entries@.len() - i,
        {
            assert(p[i as int] == (self@[i as int].0, signless(self@[i as int].1)));
            assert(q[i as int] == (other@[i as int].0, signless(other@[i as int].1)));
            if !same(self.entries[i].0.as_str(), other.entries[i].0.as_str()) {
                assert(p[i as int] != q[i as int]);
                return false;
            }
            if !self.entries[i].1.equals(&other.entries[i].1) {
                assert(p[i as int] != q[i as int]);
                return false;
            }
            i = i + 1;
        }
        assert(p =~= q);
        true
    }
}

impl Json {
    /// Whether both are the same value.
    pub fn equals(&self, other: &Json) -> (r: bool)
        ensures
            r == same_value(self@, other@),
        decreases self,
    {
        broadcast use array_view;

        match (self, other) {
            (Json::Null, Json::Null) => true,
            (Json::Bool(a), Json::Bool(b)) => *a == *b,
            (Json::Number(a), Json::Number(b)) => a.equals(b),
            (Json::Str(a), Json::Str(b)) => same(a.as_str(), b.as_str()),
            (Json::Array(a), Json::Array(b)) => {
                assert(self@ == JsonView::Array(views(a@)));
                assert(other@ == JsonView::Array(views(b@)));
                let ghost p = signless(self@)->Array_0;
                let ghost q = signless(other@)->Array_0;
                if a.len() != b.len() {
                    assert(p.len() != q.len());
                    return false;
                }
                let mut i: usize = 0;
                while i < a.len()
                    invariant
                        i <= a@.len(),
                        a@.len() == b@.len(),
                        self == Json::Array(*a),
                        self@ == JsonView::Array(views(a@)),
                        other@ == JsonView::Array(views(b@)),
                        p == signless(self@)->Array_0,
                        q == signless(other@)->Array_0,
                        forall|j: int| 0 <= j < i ==> #[trigger] p[j] == q[j],
                    decreases a@.len() - i,
                {
                    assert(p[i as int] == signless(a@[i as int]@));
                    assert(q[i as int] == signless(b@[i as int]@));
                    if !a[i].equals(&b[i]) {
                        return false;
                    }
                    i = i + 1;
                }
                assert(p =~= q);
                true
            },
            (Json::Object(a), Json::Object(b)) => a.equals(b),
            _ => false,
        }
    }

    /// A string value.
    pub fn text(s: &str) -> (r: Json)
        ensures
            r@ == JsonView::Str(s@),
    {
        Json::Str(s.to_owned())
    }

    /// A non-negative number.
    pub fn uint(n: u64) -> (r: Json)
        ensures
            r@ == JsonView::Number(NumberView::PosInt(n)),
    {
        Json::Number(Number::PosInt(n))
    }

    /// The member `key` of an object.
    pub fn get(&self, key: &str) -> (r: Option<&Json>)
        ensures
            opt_view(r) == self@.get(key@),
    {
        match self {
            Json::Object(m) => m.get(key),
            _ => None,
        }
    }

    pub fn as_str(&self) -> (r: Option<&str>)
        ensures
            opt_text(r) == self@.as_str(),
    {
        match self {
            Json::Str(s) => Some(s.as_str()),
            _ => None,
        }
    }

    pub fn as_array(&self) -> (r: Option<&Vec<Json>>)
        ensures
            (match r {
                Some(a) => Some(views(a@)),
                None => None,
            }) == self@.as_array(),
    {
        broadcast use array_view;

        match self {
            Json::Array(a) => Some(a),
            _ => None,
        }
    }

    pub fn as_object(&self) -> (r: Option<&JsonMap>)
        ensures
            (match r {
                Some(m) => Some(m@),
                None => None,
            }) == self@.as_object(),
    {
        match self {
            Json::Object(m) => Some(m),
            _ => None,
        }
    }

    pub fn as_u64(&self) -> (r: Option<u64>)
        ensures
            r == self@.as_u64(),
    {
        match self {
            Json::Number(Number::PosInt(n)) => Some(*n),
            _ => None,
        }
    }

    pub fn as_bool(&self) -> (r: Option<bool>)
        ensures
            r == self@.as_bool(),
    {
        match self {
            Json::Bool(b) => Some(*b),
            _ => None,
        }
    }

    pub fn is_null(&self) -> (r: bool)
        ensures
            r == (self@ == JsonView::Null),
    {
        match self {
            Json::Null => true,
            _ => false,
        }
    }

    pub fn get_str(&self, key: &str) -> (r: Option<&str>)
        ensures
            opt_text(r) == self@.get_str(key@),
    {
        match self.get(key) {
            Some(v) => v.as_str(),
            None => None,
        }
    }

    pub fn get_array(&self, key: &str) -> (r: Option<&Vec<Json>>)
        ensures
            (match r {
                Some(a) => Some(views(a@)),
                None => None,
            }) == self@.get_array(key@),
    {
        match self.get(key) {
            Some(v) => v.as_array(),
            None => None,
        }
    }

    pub fn get_object(&self, key: &str) -> (r: Option<&JsonMap>)
        ensures
            (match r {
                Some(m) => Some(m@),
                None => None,
            }) == self@.get_object(key@),
    {
        match self.get(key) {
            Some(v) => v.as_object(),
            None => None,
        }
    }

    pub fn get_u64(&self, key: &str) -> (r: Option<u64>)
        ensures
            r == self@.get_u64(key@),
    {
        match self.get(key) {
            Some(v) => v.as_u64(),
            None => None,
        }
    }

    pub fn get_bool(&self, key: &str) -> (r: Option<bool>)
        ensures
            r == self@.get_bool(key@),
    {
        match self.get(key) {
            Some(v) => v.as_bool(),
            None => None,
        }
    }
}

} // verus!
