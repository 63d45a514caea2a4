//! Transition records: what a transition changed on the blackboard, and whether
//! what it wrote has the declared form.

use vstd::prelude::*;

use crate::json::{
    lemma_lookup_some, lemma_put_lookup, lookup, opt_view, same_value, sorted, views, Json, JsonMap, JsonView,
    Members,
};
use crate::runtime::links::or_null;
use crate::runtime::schema::SchemaVerdict;
use crate::scan::{first_some, lemma_first_some};
use crate::text::{decimal, decimal_text, join, joined, texts};

verus! {

/// The members of a value that may not be an object.
pub open spec fn members_of(v: JsonView) -> Members {
    match v {
        JsonView::Object(m) => m,
        _ => Members::empty(),
    }
}

/// Whether a key holds one and the same value in both.
pub open spec fn kept_value(a: Members, b: Members, key: Seq<char>) -> bool {
    lookup(a, key) is Some && lookup(b, key) is Some && same_value(
        lookup(a, key)->0,
        lookup(b, key)->0,
    )
}

/// Whether `delta` tells how `post` differs from `pre`: each key whose value is new
/// or changed with its new value, each key that is gone with null. Where one of them is no
/// object there is nothing to tell.
pub open spec fn is_delta(pre: JsonView, post: JsonView, delta: Members) -> bool {
    &&& sorted(delta)
    &&& if pre is Object && post is Object {
        forall|k: Seq<char>| #[trigger]
            lookup(delta, k) == (match lookup(members_of(post), k) {
                Some(v) => if kept_value(members_of(pre), members_of(post), k) {
                    None
                } else {
                    Some(v)
                },
                None => if lookup(members_of(pre), k) is Some {
                    Some(JsonView::Null)
                } else {
                    None
                },
            })
    } else {
        delta.len() == 0
    }
}

/// How a key reads after a delta was applied.
pub open spec fn replayed(before: JsonView, delta: Members, key: Seq<char>) -> JsonView {
    match lookup(delta, key) {
        Some(v) => v,
        None => before,
    }
}

/// How a key reads after a number of deltas were applied, one after the other.
pub open spec fn replayed_all(start: JsonView, deltas: Seq<Members>, key: Seq<char>) -> JsonView
    decreases deltas.len(),
{
    if deltas.len() == 0 {
        start
    } else {
        replayed(replayed_all(start, deltas.drop_last(), key), deltas.last(), key)
    }
}

/// How a key of a context reads; an absent key reads as null.
pub open spec fn reads(context: JsonView, key: Seq<char>) -> JsonView {
    or_null(lookup(members_of(context), key))
}

/// Replaying the deltas of a run of transitions, in order, reconstructs every key of
/// the context that the run ended with. Contexts are objects.
pub proof fn law_replay_reconstructs(
    contexts: Seq<JsonView>,
    deltas: Seq<Members>,
    key: Seq<char>,
)
    requires
        contexts.len() == deltas.len() + 1,
        forall|i: int| 0 <= i < contexts.len() ==> (#[trigger] contexts[i]) is Object,
        forall|i: int|
            0 <= i < deltas.len() ==> is_delta(contexts[i], contexts[i + 1], #[trigger] deltas[i]),
    ensures
        same_value(
            replayed_all(reads(contexts[0], key), deltas, key),
            reads(contexts.last(), key),
        ),
    decreases deltas.len(),
{
    if deltas.len() > 0 {
        let n = deltas.len() - 1;
        assert forall|i: int| 0 <= i < n implies is_delta(
            contexts.drop_last()[i],
            contexts.drop_last()[i + 1],
            #[trigger] deltas.drop_last()[i],
        ) by {
            assert(is_delta(contexts[i], contexts[i + 1], deltas[i]));
        }
        assert forall|i: int| 0 <= i < contexts.drop_last().len() implies (
        #[trigger] contexts.drop_last()[i]) is Object by {
            assert(contexts[i] is Object);
        }
        law_replay_reconstructs(contexts.drop_last(), deltas.drop_last(), key);
        assert(contexts[n] is Object && contexts[n + 1] is Object);
        assert(is_delta(contexts[n], contexts[n + 1], deltas[n]));
        assert(lookup(deltas[n], key) == lookup(deltas.last(), key));
        assert(contexts.drop_last().last() == contexts[n]);
        assert(contexts.drop_last()[0] == contexts[0]);
    }
}

/// A sorted map holds every key at one place only.
proof fn lemma_key_place(m: Members, i: int)
    requires
        sorted(m),
        0 <= i < m.len(),
    ensures
        lookup(m, m[i].0) == Some(m[i].1),
{
    assert forall|j: int| 0 <= j < i implies (#[trigger] m[j]).0 != m[i].0 by {
        assert(crate::text::text_lt(m[j].0, m[i].0));
        crate::text::lemma_lt_asymmetric(m[j].0, m[i].0);
    }
    crate::json::lemma_lookup_at(m, m[i].0, i);
}

/// The keys of the first `n` members.
spec fn among(m: Members, n: int, key: Seq<char>) -> bool {
    exists|j: int| 0 <= j < n && (#[trigger] m[j]).0 == key
}

/// The difference between two contexts.
pub fn blackboard_delta(pre: &Json, post: &Json) -> (r: JsonMap)
    ensures
        is_delta(pre@, post@, r@),
{
    let old_map: &JsonMap = match pre.as_object() {
        Some(m) => m,
        None => {
            return JsonMap::new();
        },
    };
    let new_map: &JsonMap = match post.as_object() {
        Some(m) => m,
        None => {
            return JsonMap::new();
        },
    };
    let ghost a = old_map@;
    let ghost b = new_map@;
    assert(a == members_of(pre@));
    assert(b == members_of(post@));
    proof {
        use_type_invariant(old_map);
        use_type_invariant(new_map);
    }
    let mut delta = JsonMap::new();
    let mut i: usize = 0;
    while i < new_map.len()
        invariant
            i <= b.len(),
            a == old_map@,
            b == new_map@,
            sorted(b),
            forall|k: Seq<char>| #[trigger]
                lookup(delta@, k) == (if among(b, i as int, k) && !kept_value(a, b, k) {
                    lookup(b, k)
                } else {
                    None
                }),
        decreases b.len() - i,
    {
        let key = new_map.key_at(i);
        let value = new_map.value_at(i);
        let ghost before = delta@;
        proof {
            lemma_key_place(b, i as int);
        }
        let changed = match old_map.get(key.as_str()) {
            Some(prev) => !prev.equals(value),
            None => true,
        };
        if changed {
            delta.insert(key.clone(), value.clone());
        }
        proof {
            assert forall|k: Seq<char>| #[trigger]
                lookup(delta@, k) == (if among(b, i + 1, k) && !kept_value(a, b, k) {
                    lookup(b, k)
                } else {
                    None
                }) by {
                if changed {
                    lemma_put_lookup(before, key@, value@, k);
                }
                assert(lookup(before, k) == lookup(before, k));
                if k == key@ {
                    assert(b[i as int].0 == k);
                } else if among(b, i + 1, k) {
                    let j = choose|j: int| 0 <= j < i + 1 && (#[trigger] b[j]).0 == k;
                    assert(b[j].0 == k && j < i);
                } else if among(b, i as int, k) {
                    let j = choose|j: int| 0 <= j < i && (#[trigger] b[j]).0 == k;
                    assert(b[j].0 == k);
                }
            }
        }
        i = i + 1;
    }
    let ghost first = delta@;
    proof {
        assert forall|k: Seq<char>| among(b, b.len() as int, k) == (lookup(b, k) is Some) by {
            if lookup(b, k) is Some {
                let j = lemma_lookup_some(b, k);
                assert(b[j].0 == k);
            }
            if among(b, b.len() as int, k) {
                let j = choose|j: int| 0 <= j < b.len() && (#[trigger] b[j]).0 == k;
                lemma_key_place(b, j);
            }
        }
    }
    i = 0;
    while i < old_map.len()
        invariant
            i <= a.len(),
            a == old_map@,
            b == new_map@,
            sorted(a),
            forall|k: Seq<char>| #[trigger]
                lookup(first, k) == (if lookup(b, k) is Some && !kept_value(a, b, k) {
                    lookup(b, k)
                } else {
                    None
                }),
            forall|k: Seq<char>| #[trigger]
                lookup(delta@, k) == (if among(a, i as int, k) && lookup(b, k) is None {
                    Some(JsonView::Null)
                } else {
                    lookup(first, k)
                }),
        decreases a.len() - i,
    {
        let key = old_map.key_at(i);
        let ghost before = delta@;
        let gone = !new_map.contains_key(key.as_str());
        if gone {
            delta.insert(key.clone(), Json::Null);
        }
        proof {
            assert forall|k: Seq<char>| #[trigger]
                lookup(delta@, k) == (if among(a, i + 1, k) && lookup(b, k) is None {
                    Some(JsonView::Null)
                } else {
                    lookup(first, k)
                }) by {
                if gone {
                    lemma_put_lookup(before, key@, JsonView::Null, k);
                }
                assert(lookup(before, k) == lookup(before, k));
                if k == key@ {
                    assert(a[i as int].0 == k);
                } else if among(a, i + 1, k) {
                    let j = choose|j: int| 0 <= j < i + 1 && (#[trigger] a[j]).0 == k;
                    assert(a[j].0 == k && j < i);
                } else if among(a, i as int, k) {
                    let j = choose|j: int| 0 <= j < i && (#[trigger] a[j]).0 == k;
                    assert(a[j].0 == k);
                }
            }
        }
        i = i + 1;
    }
    proof {
        assert forall|k: Seq<char>| among(a, a.len() as int, k) == (lookup(a, k) is Some) by {
            if lookup(a, k) is Some {
                let j = lemma_lookup_some(a, k);
                assert(a[j].0 == k);
            }
            if among(a, a.len() as int, k) {
                let j = choose|j: int| 0 <= j < a.len() && (#[trigger] a[j]).0 == k;
                lemma_key_place(a, j);
            }
        }
        use_type_invariant(&delta);
    }
    delta
}

/// One thing to be validated about what a transition wrote.
pub enum SlotCheck {
    /// The value of a slot against the schema that the slot declares.
    Typed { slot: String, schema: Json, value: Json },
    /// The fix of a finding against the schema that it names.
    Bound { slot: String, index: usize, schema_ref: String, schema: Json, value: Json },
    /// The fix of a finding names a schema that is not registered.
    Unregistered { slot: String, index: usize, schema_ref: String, known: Vec<String> },
}

/// The model of a check.
pub enum SlotCheckView {
    Typed { slot: Seq<char>, schema: JsonView, value: JsonView },
    Bound { slot: Seq<char>, index: nat, schema_ref: Seq<char>, schema: JsonView, value: JsonView },
    Unregistered { slot: Seq<char>, index: nat, schema_ref: Seq<char>, known: Seq<Seq<char>> },
}

impl SlotCheck {
    pub open spec fn view(&self) -> SlotCheckView {
        match self {
            SlotCheck::Typed { slot, schema, value } => SlotCheckView::Typed {
                slot: slot@,
                schema: schema@,
                value: value@,
            },
            SlotCheck::Bound { slot, index, schema_ref, schema, value } => SlotCheckView::Bound {
                slot: slot@,
                index: *index as nat,
                schema_ref: schema_ref@,
                schema: schema@,
                value: value@,
            },
            SlotCheck::Unregistered { slot, index, schema_ref, known } =>
                SlotCheckView::Unregistered {
                    slot: slot@,
                    index: *index as nat,
                    schema_ref: schema_ref@,
                    known: texts(known@),
                },
        }
    }
}

pub open spec fn check_views(s: Seq<SlotCheck>) -> Seq<SlotCheckView> {
    s.map_values(|c: SlotCheck| c@)
}

/// The check of a slot that declares a schema of its own: an object that is not
/// empty.
pub open spec fn typed_check(blackboard: Members, context: JsonView, slot: Seq<char>) -> Option<
    SlotCheckView,
> {
    match lookup(blackboard, slot) {
        Some(JsonView::Object(m)) => if m.len() > 0 {
            Some(
                SlotCheckView::Typed {
                    slot,
                    schema: JsonView::Object(m),
                    value: or_null(context.get(slot)),
                },
            )
        } else {
            None
        },
        _ => None,
    }
}

/// The checks of the written slots against the blackboard's declarations.
pub open spec fn typed_checks(blackboard: Members, context: JsonView, written: Members) -> Seq<
    SlotCheckView,
>
    decreases written.len(),
{
    if written.len() == 0 {
        Seq::empty()
    } else {
        let before = typed_checks(blackboard, context, written.drop_last());
        match typed_check(blackboard, context, written.last().0) {
            Some(c) => before.push(c),
            None => before,
        }
    }
}

/// The keys of members.
pub open spec fn keys_of(m: Members) -> Seq<Seq<char>> {
    m.map_values(|e: (Seq<char>, JsonView)| e.0)
}

/// The check of one finding's fix.
pub open spec fn bound_check(
    registry: Option<Members>,
    slot: Seq<char>,
    index: nat,
    finding: JsonView,
) -> Option<SlotCheckView> {
    match finding.get("fix"@) {
        Some(fix) => match fix.get_str("schema_ref"@) {
            Some(r) => {
                let found = match registry {
                    Some(reg) => lookup(reg, r),
                    None => None,
                };
                match found {
                    Some(schema) => Some(
                        SlotCheckView::Bound {
                            slot,
                            index,
                            schema_ref: r,
                            schema,
                            value: or_null(fix.get("value"@)),
                        },
                    ),
                    None => Some(
                        SlotCheckView::Unregistered {
                            slot,
                            index,
                            schema_ref: r,
                            known: match registry {
                                Some(reg) => keys_of(reg),
                                None => Seq::empty(),
                            },
                        },
                    ),
                }
            },
            None => None,
        },
        None => None,
    }
}

/// The checks of the fixes of a list of findings.
pub open spec fn finding_checks(
    registry: Option<Members>,
    slot: Seq<char>,
    findings: Seq<JsonView>,
) -> Seq<SlotCheckView>
    decreases findings.len(),
{
    if findings.len() == 0 {
        Seq::empty()
    } else {
        let before = finding_checks(registry, slot, findings.drop_last());
        match bound_check(registry, slot, (findings.len() - 1) as nat, findings.last()) {
            Some(c) => before.push(c),
            None => before,
        }
    }
}

/// The findings that a slot of the context holds.
pub open spec fn findings_in(context: JsonView, slot: Seq<char>) -> Seq<JsonView> {
    match context.get(slot) {
        Some(v) => match v.get_array("findings"@) {
            Some(a) => a,
            None => Seq::empty(),
        },
        None => Seq::empty(),
    }
}

/// The checks of the fixes in all written slots.
pub open spec fn bound_checks(registry: Option<Members>, context: JsonView, written: Members) -> Seq<
    SlotCheckView,
>
    decreases written.len(),
{
    if written.len() == 0 {
        Seq::empty()
    } else {
        let slot = written.last().0;
        bound_checks(registry, context, written.drop_last()) + finding_checks(
            registry,
            slot,
            findings_in(context, slot),
        )
    }
}

/// All checks of what a transition wrote, in the order in which they count.
pub open spec fn all_checks(
    definition: JsonView,
    mapping: Option<JsonView>,
    context: JsonView,
) -> Seq<SlotCheckView> {
    match mapping {
        Some(JsonView::Object(written)) => {
            let typed = match definition.get_object("blackboard"@) {
                Some(b) => typed_checks(b, context, written),
                None => Seq::empty(),
            };
            typed + bound_checks(definition.get_object("_schemasRegistry"@), context, written)
        },
        _ => Seq::empty(),
    }
}

fn make_typed_checks(blackboard: &JsonMap, context: &Json, written: &JsonMap) -> (r: Vec<SlotCheck>)
    ensures
        check_views(r@) == typed_checks(blackboard@, context@, written@),
{
    let mut out: Vec<SlotCheck> = Vec::new();
    let mut i: usize = 0;
    assert(check_views(out@) =~= Seq::empty());
    while i < written.len()
        invariant
            i <= written@.len(),
            check_views(out@) == typed_checks(blackboard@, context@, written@.take(i as int)),
        decreases written@.len() - i,
    {
        let ghost next = written@.take(i + 1);
        let ghost before = out@;
        assert(next.drop_last() =~= written@.take(i as int));
        assert(next.last() == written@[i as int]);
        let slot = written.key_at(i);
        if let Some(schema) = blackboard.get(slot.as_str()) {
            if let Some(m) = schema.as_object() {
                if !m.is_empty() {
                    let value = match context.get(slot.as_str()) {
                        Some(v) => v.clone(),
                        None => Json::Null,
                    };
                    let c = SlotCheck::Typed { slot: slot.clone(), schema: schema.clone(), value };
                    out.push(c);
                    assert(check_views(out@) =~= check_views(before).push(c@));
                }
            }
        }
        i = i + 1;
    }
    assert(written@.take(i as int) =~= written@);
    out
}

fn key_list(m: &JsonMap) -> (r: Vec<String>)
    ensures
        texts(r@) == keys_of(m@),
{
    let mut out: Vec<String> = Vec::new();
    let mut i: usize = 0;
    while i < m.len()
        invariant
            i <= m@.len(),
            out@.len() == i,
            forall|j: int| 0 <= j < i ==> (#[trigger] out@[j])@ == m@[j].0,
        decreases m@.len() - i,
    {
        out.push(m.key_at(i).clone());
        i = i + 1;
    }
    assert(texts(out@) =~= keys_of(m@));
    out
}

fn make_finding_checks(registry: Option<&JsonMap>, slot: &str, findings: &Vec<Json>) -> (r: Vec<
    SlotCheck,
>)
    ensures
        check_views(r@) == finding_checks(
            match registry {
                Some(m) => Some(m@),
                None => None,
            },
            slot@,
            views(findings@),
        ),
{
    let ghost reg = match registry {
        Some(m) => Some(m@),
        None => None,
    };
    let mut out: Vec<SlotCheck> = Vec::new();
    let mut i: usize = 0;
    assert(check_views(out@) =~= Seq::empty());
    while i < findings.len()
        invariant
            i <= findings@.len(),
            reg == (match registry {
                Some(m) => Some(m@),
                None => None,
            }),
            check_views(out@) == finding_checks(reg, slot@, views(findings@).take(i as int)),
        decreases findings@.len() - i,
    {
        let ghost next = views(findings@).take(i + 1);
        let ghost before = out@;
        assert(next.drop_last() =~= views(findings@).take(i as int));
        assert(next.last() == findings@[i as int]@);
        if let Some(fix) = findings[i].get("fix") {
            if let Some(r) = fix.get_str("schema_ref") {
                let found = match registry {
                    Some(m) => m.get(r),
                    None => None,
                };
                let c = match found {
                    Some(schema) => {
                        let value = match fix.get("value") {
                            Some(v) => v.clone(),
                            None => Json::Null,
                        };
                        SlotCheck::Bound {
                            slot: slot.to_owned(),
                            index: i,
                            schema_ref: r.to_owned(),
                            schema: schema.clone(),
                            value,
                        }
                    },
                    None => {
                        let known = match registry {
                            Some(m) => key_list(m),
                            None => {
                                let none: Vec<String> = Vec::new();
                                assert(texts(none@) =~= Seq::empty());
                                none
                            },
                        };
                        SlotCheck::Unregistered {
                            slot: slot.to_owned(),
                            index: i,
                            schema_ref: r.to_owned(),
                            known,
                        }
                    },
                };
                out.push(c);
                assert(check_views(out@) =~= check_views(before).push(c@));
            }
        }
        i = i + 1;
    }
    assert(views(findings@).take(i as int) =~= views(findings@));
    out
}

fn make_bound_checks(registry: Option<&JsonMap>, context: &Json, written: &JsonMap) -> (r: Vec<
    SlotCheck,
>)
    ensures
        check_views(r@) == bound_checks(
            match registry {
                Some(m) => Some(m@),
                None => None,
            },
            context@,
            written@,
        ),
{
    let ghost reg = match registry {
        Some(m) => Some(m@),
        None => None,
    };
    let mut out: Vec<SlotCheck> = Vec::new();
    let mut i: usize = 0;
    assert(check_views(out@) =~= Seq::empty());
    while i < written.len()
        invariant
            i <= written@.len(),
            reg == (match registry {
                Some(m) => Some(m@),
                None => None,
            }),
            check_views(out@) == bound_checks(reg, context@, written@.take(i as int)),
        decreases written@.len() - i,
    {
        let ghost next = written@.take(i + 1);
        let ghost before = check_views(out@);
        assert(next.drop_last() =~= written@.take(i as int));
        assert(next.last() == written@[i as int]);
        let slot = written.key_at(i).as_str();
        let found = match context.get(slot) {
            Some(v) => v.get_array("findings"),
            None => None,
        };
        match found {
            Some(a) => {
                let mut more = make_finding_checks(registry, slot, a);
                let ghost added = check_views(more@);
                out.append(&mut more);
                assert(check_views(out@) =~= before + added);
            },
            None => {
                assert(findings_in(context@, slot@) =~= Seq::empty());
                assert(before + finding_checks(reg, slot@, Seq::empty()) =~= before);
            },
        }
        i = i + 1;
    }
    assert(written@.take(i as int) =~= written@);
    out
}

/// The checks of what a transition wrote: typed slots first, then the fixes of
/// findings.
pub fn slot_checks(definition: &Json, output_mapping: Option<&Json>, context: &Json) -> (r: Vec<
    SlotCheck,
>)
    ensures
        check_views(r@) == all_checks(definition@, opt_view(output_mapping), context@),
{
    let none: Vec<SlotCheck> = Vec::new();
    assert(check_views(none@) =~= Seq::empty());
    let written = match output_mapping {
        Some(m) => match m.as_object() {
            Some(w) => w,
            None => {
                return none;
            },
        },
        None => {
            return none;
        },
    };
    let mut out = match definition.get_object("blackboard") {
        Some(b) => make_typed_checks(b, context, written),
        None => none,
    };
    let ghost typed = check_views(out@);
    let mut more = make_bound_checks(
        definition.get_object("_schemasRegistry"),
        context,
        written,
    );
    let ghost bound = check_views(more@);
    out.append(&mut more);
    assert(check_views(out@) =~= typed + bound);
    out
}

/// The slot and the reason of a failed check.
pub open spec fn violation(check: SlotCheckView, verdict: SchemaVerdict) -> Option<
    (Seq<char>, Seq<char>),
> {
    match check {
        SlotCheckView::Typed { slot, .. } => match verdict {
            SchemaVerdict::Valid => None,
            SchemaVerdict::Uncompilable(e) => Some((slot, "invalid blackboard schema: "@ + e@)),
            SchemaVerdict::Invalid(errs) => Some((slot, joined(texts(errs@), "; "@))),
        },
        SlotCheckView::Bound { slot, index, schema_ref, .. } => match verdict {
            SchemaVerdict::Valid => None,
            SchemaVerdict::Uncompilable(e) => Some(
                (
                    slot,
                    "SCHEMA_BOUND_VIOLATION: registered schema '"@ + schema_ref
                        + "' does not compile: "@ + e@,
                ),
            ),
            SchemaVerdict::Invalid(errs) => Some(
                (
                    slot,
                    "SCHEMA_BOUND_VIOLATION: finding["@ + decimal(index)
                        + "].fix.value violates registered schema '"@ + schema_ref + "': "@
                        + joined(texts(errs@), "; "@),
                ),
            ),
        },
        SlotCheckView::Unregistered { slot, index, schema_ref, known } => Some(
            (
                slot,
                "SCHEMA_BOUND_VIOLATION: finding["@ + decimal(index) + "].fix.schema_ref '"@
                    + schema_ref + "' is not a registered schema; registered: ["@ + joined(
                    known,
                    ", "@,
                ) + "]"@,
            ),
        ),
    }
}

fn words(check: &SlotCheck, verdict: &SchemaVerdict) -> (r: Option<(String, String)>)
    ensures
        (match r {
            Some(p) => Some((p.0@, p.1@)),
            None => None,
        }) == violation(check@, *verdict),
{
    match check {
        SlotCheck::Typed { slot, .. } => match verdict {
            SchemaVerdict::Valid => None,
            SchemaVerdict::Uncompilable(e) => Some(
                (slot.clone(), "invalid blackboard schema: ".to_owned().concat(e.as_str())),
            ),
            SchemaVerdict::Invalid(errs) => Some((slot.clone(), join(errs, "; "))),
        },
        SlotCheck::Bound { slot, index, schema_ref, .. } => match verdict {
            SchemaVerdict::Valid => None,
            SchemaVerdict::Uncompilable(e) => {
                let mut m = "SCHEMA_BOUND_VIOLATION: registered schema '".to_owned();
                m.append(schema_ref.as_str());
                m.append("' does not compile: ");
                m.append(e.as_str());
                Some((slot.clone(), m))
            },
            SchemaVerdict::Invalid(errs) => {
                let mut m = "SCHEMA_BOUND_VIOLATION: finding[".to_owned();
                m.append(decimal_text(*index as u64).as_str());
                m.append("].fix.value violates registered schema '");
                m.append(schema_ref.as_str());
                m.append("': ");
                m.append(join(errs, "; ").as_str());
                Some((slot.clone(), m))
            },
        },
        SlotCheck::Unregistered { slot, index, schema_ref, known } => {
            let mut m = "SCHEMA_BOUND_VIOLATION: finding[".to_owned();
            m.append(decimal_text(*index as u64).as_str());
            m.append("].fix.schema_ref '");
            m.append(schema_ref.as_str());
            m.append("' is not a registered schema; registered: [");
            m.append(join(known, ", ").as_str());
            m.append("]");
            Some((slot.clone(), m))
        },
    }
}

/// The first check that failed: the slot and the reason.
pub open spec fn slot_violation(checks: Seq<SlotCheckView>, verdicts: Seq<SchemaVerdict>) -> Option<
    (Seq<char>, Seq<char>),
> {
    first_some(checks.len(), |i: int| violation(checks[i], verdicts[i]))
}

/// Judges what a transition wrote: `verdicts` has, for each check of `slot_checks`,
/// what the validator found. The first failed check decides.
pub fn validate_blackboard_writes(checks: &Vec<SlotCheck>, verdicts: &Vec<SchemaVerdict>) -> (r: Result<
    (),
    (String, String),
>)
    requires
        verdicts@.len() == checks@.len(),
    ensures
        (match r {
            Ok(_) => None,
            Err((slot, reason)) => Some((slot@, reason@)),
        }) == slot_violation(check_views(checks@), verdicts@),
{
    let ghost cs = check_views(checks@);
    let ghost f = |i: int| violation(cs[i], verdicts@[i]);
    let mut i: usize = 0;
    while i < checks.len()
        invariant
            i <= checks@.len(),
            verdicts@.len() == checks@.len(),
            cs == check_views(checks@),
            f == (|i: int| violation(cs[i], verdicts@[i])),
            first_some(i as nat, f) is None,
        decreases checks@.len() - i,
    {
        assert(cs[i as int] == checks@[i as int]@);
        if let Some((slot, reason)) = words(&checks[i], &verdicts[i]) {
            proof {
                lemma_first_some((i + 1) as nat, cs.len(), f);
            }
            return Err((slot, reason));
        }
        i = i + 1;
    }
    Ok(())
}

} // verus!
