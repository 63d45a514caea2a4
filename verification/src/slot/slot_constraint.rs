//! What may be written to a slot, beyond what a schema can say: paths that match given
//! patterns, and elements of another slot's list.
//!
//! Constraints are held against a context right after it was written, and the first one
//! that is broken ends the transition.

use vstd::prelude::*;

use crate::json::{lookup, opt_view, same_value, views, Json, JsonMap, JsonView, Members};
use crate::json_text::{compact, compact_text};
use crate::pointer::pointed;
use crate::runtime::links::{find_state, state_def};
use crate::sandbox::{kind_name, kind_of};
use crate::scan::{first_some, lemma_first_some, lemma_found_nowhere};
use crate::slot::globs::{
    add_glob, added, build_set, glob_error, glob_fault, matches_set, new_builder, no_patterns,
    patterns, set_error, some_matches,
};
use crate::text::{
    debug_form, debug_text, decimal, decimal_text, join, joined, replace_char, replaced, same,
    strip_prefix, stripped, texts,
};

verus! {

/// A constraint that was broken.
pub struct ConstraintViolation {
    pub slot: String,
    pub constraint_kind: String,
    pub message: String,
}

/// The model of a broken constraint.
pub struct ViolationView {
    pub slot: Seq<char>,
    pub constraint_kind: Seq<char>,
    pub message: Seq<char>,
}

impl ConstraintViolation {
    pub open spec fn view(&self) -> ViolationView {
        ViolationView {
            slot: self.slot@,
            constraint_kind: self.constraint_kind@,
            message: self.message@,
        }
    }
}

pub open spec fn fault_of(r: Result<(), ConstraintViolation>) -> Option<ViolationView> {
    match r {
        Ok(_) => None,
        Err(v) => Some(v@),
    }
}

/// Why an element of a list of patterns is no pattern.
pub open spec fn pattern_fault(
    v: JsonView,
    i: int,
    slot: Seq<char>,
    field: Seq<char>,
) -> Option<Seq<char>> {
    match v {
        JsonView::Str(s) => match glob_error(s) {
            Some(e) => Some(
                "SLOT_CONSTRAINT_VIOLATED: slot '"@ + slot + "' constraint.path_allowlist."@ + field
                    + "["@ + decimal(i as nat) + "] '"@ + s + "' is not a valid glob pattern: "@ + e,
            ),
            None => None,
        },
        _ => Some(
            "SLOT_CONSTRAINT_VIOLATED: slot '"@ + slot + "' constraint.path_allowlist."@ + field
                + " element "@ + decimal(i as nat) + " is not a string (got: "@ + kind_name(v)
                + ")."@,
        ),
    }
}

/// The elements of a list; none where there is no list.
pub open spec fn elements(list: Option<JsonView>) -> Seq<JsonView> {
    match list {
        Some(JsonView::Array(a)) => a,
        _ => Seq::empty(),
    }
}

/// The texts among values.
pub open spec fn strings(a: Seq<JsonView>) -> Seq<Seq<char>> {
    a.map_values(
        |v: JsonView|
            match v {
                JsonView::Str(s) => s,
                _ => Seq::empty(),
            },
    )
}

/// The patterns of a field, or why it has none.
pub open spec fn glob_set(list: Option<JsonView>, slot: Seq<char>, field: Seq<char>) -> Result<
    Seq<Seq<char>>,
    Seq<char>,
> {
    let a = elements(list);
    match first_some(a.len(), |i: int| pattern_fault(a[i], i, slot, field)) {
        Some(m) => Err(m),
        None => match set_error(strings(a)) {
            Some(e) => Err(
                "SLOT_CONSTRAINT_VIOLATED: slot '"@ + slot + "' constraint.path_allowlist."@ + field
                    + " could not be compiled into a glob set: "@ + e,
            ),
            None => Ok(strings(a)),
        },
    }
}

/// Texts as a list of JSON strings is written for debugging.
pub open spec fn debug_list(list: Seq<Seq<char>>) -> Seq<char> {
    "Array ["@ + joined(
        list.map_values(|s: Seq<char>| "String("@ + debug_form(s) + ")"@),
        ", "@,
    ) + "]"@
}

/// Why a path is not allowed.
pub open spec fn path_fault(
    v: JsonView,
    i: int,
    slot: Seq<char>,
    allow: Seq<Seq<char>>,
    deny: Option<Seq<Seq<char>>>,
) -> Option<Seq<char>> {
    match v {
        JsonView::Str(s) => if !some_matches(allow, s) {
            Some(
                "SLOT_CONSTRAINT_VIOLATED: slot '"@ + slot + "' element '"@ + s + "' (index "@
                    + decimal(i as nat) + ") does not match any `allow:` glob. Allowed: "@
                    + debug_list(allow),
            )
        } else {
            match deny {
                Some(d) => if some_matches(d, s) {
                    Some(
                        "SLOT_CONSTRAINT_VIOLATED: slot '"@ + slot + "' element '"@ + s
                            + "' (index "@ + decimal(i as nat)
                            + ") matched a `deny:` glob. Denied: "@ + debug_list(d),
                    )
                } else {
                    None
                },
                None => None,
            }
        },
        _ => Some(
            "SLOT_CONSTRAINT_VIOLATED: slot '"@ + slot + "' element at index "@ + decimal(i as nat)
                + " is not a string (got: "@ + kind_name(v)
                + "); path_allowlist requires array of path strings."@,
        ),
    }
}

/// Why a value breaks a list of allowed paths.
pub open spec fn allowlist_fault(slot: Seq<char>, params: JsonView, value: JsonView) -> Option<
    Seq<char>,
> {
    match params {
        JsonView::Object(p) => match value {
            JsonView::Array(items) => match glob_set(lookup(p, "allow"@), slot, "allow"@) {
                Err(m) => Some(m),
                Ok(allow) => if allow.len() == 0 {
                    Some(
                        "SLOT_CONSTRAINT_VIOLATED: constraint.path_allowlist on slot '"@ + slot
                            + "' has empty `allow:` — an allow-everything constraint is misconfiguration. Declare at least one glob, or remove the constraint."@,
                    )
                } else if lookup(p, "deny"@) is Some {
                    match glob_set(lookup(p, "deny"@), slot, "deny"@) {
                        Err(m) => Some(m),
                        Ok(deny) => first_some(
                            items.len(),
                            |i: int| path_fault(items[i], i, slot, allow, Some(deny)),
                        ),
                    }
                } else {
                    first_some(items.len(), |i: int| path_fault(items[i], i, slot, allow, None))
                },
            },
            _ => Some(
                "SLOT_CONSTRAINT_VIOLATED: slot '"@ + slot
                    + "' has path_allowlist constraint but its value is not an array (got: "@
                    + kind_name(value) + "); declare `type: array` on the slot."@,
            ),
        },
        _ => Some(
            "SLOT_CONSTRAINT_VIOLATED: constraint.path_allowlist on slot '"@ + slot
                + "' must be an object with `allow: [<glob>...]` (required) and optional `deny: [<glob>...]`."@,
        ),
    }
}

fn violated(slot: &str, kind: &str, message: String) -> (r: ConstraintViolation)
    ensures
        r@ == (ViolationView { slot: slot@, constraint_kind: kind@, message: message@ }),
{
    ConstraintViolation { slot: slot.to_owned(), constraint_kind: kind.to_owned(), message }
}

fn say3(a: &str, b: &str, c: &str) -> (r: String)
    ensures
        r@ == a@ + b@ + c@,
{
    let mut m = a.to_owned();
    m.append(b);
    m.append(c);
    m
}

/// Puts the patterns of a field into a set.
fn build_glob_set(list: Option<&Json>, slot: &str, field: &str) -> (r: Result<
    globset::GlobSet,
    ConstraintViolation,
>)
    ensures
        match r {
            Ok(s) => glob_set(opt_view(list), slot@, field@) == Ok::<Seq<Seq<char>>, Seq<char>>(
                patterns(s),
            ),
            Err(v) => {
                &&& glob_set(opt_view(list), slot@, field@) == Err::<Seq<Seq<char>>, Seq<char>>(
                    v.message@,
                )
                &&& v.slot@ == slot@
                &&& v.constraint_kind@ == "path_allowlist"@
            },
        },
{
    let mut builder = new_builder();
    let ghost a = elements(opt_view(list));
    let ghost f = |i: int| pattern_fault(a[i], i, slot@, field@);
    assert(added(builder) =~= strings(a).take(0));
    let found = match list {
        Some(v) => v.as_array(),
        None => None,
    };
    if let Some(items) = found {
        assert(a == views(items@));
        let mut i: usize = 0;
        while i < items.len()
            invariant
                i <= items@.len(),
                a == views(items@),
                a == elements(opt_view(list)),
                f == (|i: int| pattern_fault(a[i], i, slot@, field@)),
                first_some(i as nat, f) is None,
                added(builder) == strings(a).take(i as int),
            decreases items@.len() - i,
        {
            let pat = &items[i];
            assert(a[i as int] == pat@);
            match pat.as_str() {
                Some(s) => match add_glob(&mut builder, s) {
                    Ok(_) => {
                        assert(strings(a).take(i + 1) =~= strings(a).take(i as int).push(s@));
                    },
                    Err(e) => {
                        let mut m = say3(
                            "SLOT_CONSTRAINT_VIOLATED: slot '",
                            slot,
                            "' constraint.path_allowlist.",
                        );
                        m.append(field);
                        m.append("[");
                        m.append(decimal_text(i as u64).as_str());
                        m.append("] '");
                        m.append(s);
                        m.append("' is not a valid glob pattern: ");
                        m.append(e.as_str());
                        proof {
                            lemma_first_some((i + 1) as nat, a.len(), f);
                        }
                        return Err(violated(slot, "path_allowlist", m));
                    },
                },
                None => {
                    let mut m = say3(
                        "SLOT_CONSTRAINT_VIOLATED: slot '",
                        slot,
                        "' constraint.path_allowlist.",
                    );
                    m.append(field);
                    m.append(" element ");
                    m.append(decimal_text(i as u64).as_str());
                    m.append(" is not a string (got: ");
                    m.append(kind_of(pat));
                    m.append(").");
                    proof {
                        lemma_first_some((i + 1) as nat, a.len(), f);
                    }
                    return Err(violated(slot, "path_allowlist", m));
                },
            }
            i = i + 1;
        }
        assert(strings(a).take(i as int) =~= strings(a));
    } else {
        assert(a =~= Seq::empty());
        assert(added(builder) =~= strings(a));
    }
    match build_set(&builder) {
        Ok(s) => Ok(s),
        Err(e) => {
            let mut m = say3(
                "SLOT_CONSTRAINT_VIOLATED: slot '",
                slot,
                "' constraint.path_allowlist.",
            );
            m.append(field);
            m.append(" could not be compiled into a glob set: ");
            m.append(e.as_str());
            Err(violated(slot, "path_allowlist", m))
        },
    }
}

fn debug_patterns(items: &Vec<Json>) -> (r: String)
    ensures
        r@ == debug_list(strings(views(items@))),
{
    let mut parts: Vec<String> = Vec::new();
    let mut i: usize = 0;
    let ghost want = strings(views(items@)).map_values(
        |s: Seq<char>| "String("@ + debug_form(s) + ")"@,
    );
    while i < items.len()
        invariant
            i <= items@.len(),
            i == parts@.len(),
            want == strings(views(items@)).map_values(
                |s: Seq<char>| "String("@ + debug_form(s) + ")"@,
            ),
            forall|j: int| 0 <= j < i ==> (#[trigger] parts@[j])@ == want[j],
        decreases items@.len() - i,
    {
        let s = match items[i].as_str() {
            Some(s) => s,
            None => "",
        };
        proof {
            reveal_strlit("");
            assert(""@ =~= Seq::empty());
            assert(views(items@)[i as int] == items@[i as int]@);
            assert(strings(views(items@))[i as int] == s@);
        }
        parts.push(say3("String(", debug_text(s).as_str(), ")"));
        i = i + 1;
    }
    assert(texts(parts@) =~= want);
    say3("Array [", join(&parts, ", ").as_str(), "]")
}

/// The patterns of a set, if there is one.
pub open spec fn set_patterns(s: Option<globset::GlobSet>) -> Option<Seq<Seq<char>>> {
    match s {
        Some(s) => Some(patterns(s)),
        None => None,
    }
}

fn check_path(
    item: &Json,
    i: usize,
    slot: &str,
    allow: &globset::GlobSet,
    allow_items: &Vec<Json>,
    deny: &Option<globset::GlobSet>,
    deny_items: &Vec<Json>,
) -> (r: Result<(), String>)
    requires
        patterns(*allow) == strings(views(allow_items@)),
        *deny matches Some(d) ==> patterns(d) == strings(views(deny_items@)),
    ensures
        (match r {
            Ok(_) => None,
            Err(m) => Some(m@),
        }) == path_fault(
            item@,
            i as int,
            slot@,
            patterns(*allow),
            set_patterns(*deny),
        ),
{
    let s = match item.as_str() {
        Some(s) => s,
        None => {
            let mut m = say3("SLOT_CONSTRAINT_VIOLATED: slot '", slot, "' element at index ");
            m.append(decimal_text(i as u64).as_str());
            m.append(" is not a string (got: ");
            m.append(kind_of(item));
            m.append("); path_allowlist requires array of path strings.");
            return Err(m);
        },
    };
    if !matches_set(allow, s) {
        let mut m = say3("SLOT_CONSTRAINT_VIOLATED: slot '", slot, "' element '");
        m.append(s);
        m.append("' (index ");
        m.append(decimal_text(i as u64).as_str());
        m.append(") does not match any `allow:` glob. Allowed: ");
        m.append(debug_patterns(allow_items).as_str());
        return Err(m);
    }
    if let Some(d) = deny {
        if matches_set(d, s) {
            let mut m = say3("SLOT_CONSTRAINT_VIOLATED: slot '", slot, "' element '");
            m.append(s);
            m.append("' (index ");
            m.append(decimal_text(i as u64).as_str());
            m.append(") matched a `deny:` glob. Denied: ");
            m.append(debug_patterns(deny_items).as_str());
            return Err(m);
        }
    }
    Ok(())
}

fn list_elements(list: Option<&Json>) -> (r: Vec<Json>)
    ensures
        views(r@) == elements(opt_view(list)),
{
    let mut out: Vec<Json> = Vec::new();
    assert(views(out@) =~= Seq::empty());
    if let Some(v) = list {
        if let Some(a) = v.as_array() {
            let mut i: usize = 0;
            while i < a.len()
                invariant
                    i <= a@.len(),
                    i == out@.len(),
                    forall|j: int| 0 <= j < i ==> (#[trigger] out@[j])@ == a@[j]@,
                decreases a@.len() - i,
            {
                let x = a[i].clone();
                out.push(x);
                i = i + 1;
            }
            assert(views(out@) =~= views(a@));
        }
    }
    out
}

/// Every element of the value matches one of the `allow` patterns and none of the `deny`
/// patterns.
pub fn check_path_allowlist(slot: &str, params: &Json, value: &Json) -> (r: Result<
    (),
    ConstraintViolation,
>)
    ensures
        fault_of(r) == (match allowlist_fault(slot@, params@, value@) {
            Some(message) => Some(
                ViolationView { slot: slot@, constraint_kind: "path_allowlist"@, message },
            ),
            None => None,
        }),
{
    let p = match params.as_object() {
        Some(p) => p,
        None => {
            let m = say3(
                "SLOT_CONSTRAINT_VIOLATED: constraint.path_allowlist on slot '",
                slot,
                "' must be an object with `allow: [<glob>...]` (required) and optional `deny: [<glob>...]`.",
            );
            return Err(violated(slot, "path_allowlist", m));
        },
    };
    let items = match value.as_array() {
        Some(a) => a,
        None => {
            let mut m = say3(
                "SLOT_CONSTRAINT_VIOLATED: slot '",
                slot,
                "' has path_allowlist constraint but its value is not an array (got: ",
            );
            m.append(kind_of(value));
            m.append("); declare `type: array` on the slot.");
            return Err(violated(slot, "path_allowlist", m));
        },
    };
    let allow = match build_glob_set(p.get("allow"), slot, "allow") {
        Ok(s) => s,
        Err(v) => {
            return Err(v);
        },
    };
    if no_patterns(&allow) {
        let m = say3(
            "SLOT_CONSTRAINT_VIOLATED: constraint.path_allowlist on slot '",
            slot,
            "' has empty `allow:` — an allow-everything constraint is misconfiguration. Declare at least one glob, or remove the constraint.",
        );
        return Err(violated(slot, "path_allowlist", m));
    }
    let deny = if p.contains_key("deny") {
        match build_glob_set(p.get("deny"), slot, "deny") {
            Ok(s) => Some(s),
            Err(v) => {
                return Err(v);
            },
        }
    } else {
        None
    };
    let allow_items = list_elements(p.get("allow"));
    let deny_items = list_elements(p.get("deny"));
    let ghost a = patterns(allow);
    let ghost d = set_patterns(deny);
    let ghost vs = views(items@);
    let ghost f = |i: int| path_fault(vs[i], i, slot@, a, d);
    assert(allowlist_fault(slot@, params@, value@) == first_some(vs.len(), f));
    let mut i: usize = 0;
    while i < items.len()
        invariant
            i <= items@.len(),
            vs == views(items@),
            a == patterns(allow),
            d == set_patterns(deny),
            f == (|i: int| path_fault(vs[i], i, slot@, a, d)),
            patterns(allow) == strings(views(allow_items@)),
            deny matches Some(s) ==> patterns(s) == strings(views(deny_items@)),
            allowlist_fault(slot@, params@, value@) == first_some(vs.len(), f),
            first_some(i as nat, f) is None,
        decreases items@.len() - i,
    {
        assert(vs[i as int] == items@[i as int]@);
        match check_path(&items[i], i, slot, &allow, &allow_items, &deny, &deny_items) {
            Ok(_) => {},
            Err(m) => {
                proof {
                    lemma_first_some((i + 1) as nat, vs.len(), f);
                }
                return Err(violated(slot, "path_allowlist", m));
            },
        }
        i = i + 1;
    }
    Ok(())
}

/// What a reference into the context stands for.
pub open spec fn resolved(path: Seq<char>, context: JsonView) -> Option<JsonView> {
    match stripped(path, "$.context."@) {
        Some(p) => pointed(context, seq!['/'] + replaced(p, '.', '/')),
        None => None,
    }
}

fn resolve_path<'a>(path: &str, context: &'a Json) -> (r: Option<&'a Json>)
    ensures
        opt_view(r) == resolved(path@, context@),
{
    match strip_prefix(path, "$.context.") {
        Some(p) => {
            let mut at = String::new();
            at.push('/');
            at.append(replace_char(p.as_str(), '.', '/').as_str());
            assert(at@ =~= seq!['/'] + replaced(p@, '.', '/'));
            context.pointer(at.as_str())
        },
        None => None,
    }
}

/// Whether a list holds a value.
pub open spec fn has_value(list: Seq<JsonView>, v: JsonView) -> bool {
    exists|i: int| 0 <= i < list.len() && same_value(#[trigger] list[i], v)
}

/// Why an element is not in the list that is referred to.
pub open spec fn member_fault(
    v: JsonView,
    i: int,
    slot: Seq<char>,
    path: Seq<char>,
    list: Seq<JsonView>,
) -> Option<Seq<char>> {
    if has_value(list, v) {
        None
    } else {
        Some(
            "SLOT_CONSTRAINT_VIOLATED: slot '"@ + slot + "' element at index "@ + decimal(i as nat)
                + " (value: "@ + compact(v) + ") is not present in the reference array at '"@ + path
                + "'."@,
        )
    }
}

/// Why a value is not part of the list that is referred to.
pub open spec fn subset_fault(
    slot: Seq<char>,
    params: JsonView,
    value: JsonView,
    context: JsonView,
) -> Option<Seq<char>> {
    match params {
        JsonView::Str(path) => match value {
            JsonView::Array(items) => match resolved(path, context) {
                Some(JsonView::Array(list)) => first_some(
                    items.len(),
                    |i: int| member_fault(items[i], i, slot, path, list),
                ),
                Some(other) => Some(
                    "SLOT_CONSTRAINT_VIOLATED: slot '"@ + slot + "' subset_of references path '"@
                        + path + "' which resolved to a non-array value ("@ + kind_name(other)
                        + ")."@,
                ),
                None => Some(
                    "SLOT_CONSTRAINT_VIOLATED: slot '"@ + slot + "' subset_of references path '"@
                        + path
                        + "' but that path is unset / unresolvable. Constraint must reference an already-populated slot; check workflow ordering."@,
                ),
            },
            _ => Some(
                "SLOT_CONSTRAINT_VIOLATED: slot '"@ + slot
                    + "' has subset_of constraint but its value is not an array (got: "@
                    + kind_name(value) + ")."@,
            ),
        },
        _ => Some(
            "SLOT_CONSTRAINT_VIOLATED: constraint.subset_of on slot '"@ + slot
                + "' must be a string path (e.g. \"$.context.declared_scope\"); got: "@ + kind_name(
                params,
            ),
        ),
    }
}

fn has_element(list: &Vec<Json>, v: &Json) -> (r: bool)
    ensures
        r == has_value(views(list@), v@),
{
    let mut i: usize = 0;
    while i < list.len()
        invariant
            i <= list@.len(),
            forall|j: int| 0 <= j < i ==> !same_value(#[trigger] views(list@)[j], v@),
        decreases list@.len() - i,
    {
        assert(views(list@)[i as int] == list@[i as int]@);
        if list[i].equals(v) {
            return true;
        }
        i = i + 1;
    }
    false
}

/// Every element of the value is in the list that the constraint refers to.
pub fn check_subset_of(slot: &str, params: &Json, value: &Json, context: &Json) -> (r: Result<
    (),
    ConstraintViolation,
>)
    ensures
        fault_of(r) == (match subset_fault(slot@, params@, value@, context@) {
            Some(message) => Some(
                ViolationView { slot: slot@, constraint_kind: "subset_of"@, message },
            ),
            None => None,
        }),
{
    let path = match params.as_str() {
        Some(p) => p,
        None => {
            let mut m = say3(
                "SLOT_CONSTRAINT_VIOLATED: constraint.subset_of on slot '",
                slot,
                "' must be a string path (e.g. \"$.context.declared_scope\"); got: ",
            );
            m.append(kind_of(params));
            return Err(violated(slot, "subset_of", m));
        },
    };
    let items = match value.as_array() {
        Some(a) => a,
        None => {
            let mut m = say3(
                "SLOT_CONSTRAINT_VIOLATED: slot '",
                slot,
                "' has subset_of constraint but its value is not an array (got: ",
            );
            m.append(kind_of(value));
            m.append(").");
            return Err(violated(slot, "subset_of", m));
        },
    };
    let referred = match resolve_path(path, context) {
        Some(v) => v,
        None => {
            let mut m = say3(
                "SLOT_CONSTRAINT_VIOLATED: slot '",
                slot,
                "' subset_of references path '",
            );
            m.append(path);
            m.append(
                "' but that path is unset / unresolvable. Constraint must reference an already-populated slot; check workflow ordering.",
            );
            return Err(violated(slot, "subset_of", m));
        },
    };
    let list = match referred.as_array() {
        Some(a) => a,
        None => {
            let mut m = say3(
                "SLOT_CONSTRAINT_VIOLATED: slot '",
                slot,
                "' subset_of references path '",
            );
            m.append(path);
            m.append("' which resolved to a non-array value (");
            m.append(kind_of(referred));
            m.append(").");
            return Err(violated(slot, "subset_of", m));
        },
    };
    let ghost vs = views(items@);
    let ghost ls = views(list@);
    let ghost f = |i: int| member_fault(vs[i], i, slot@, path@, ls);
    assert(subset_fault(slot@, params@, value@, context@) == first_some(vs.len(), f));
    let mut i: usize = 0;
    while i < items.len()
        invariant
            i <= items@.len(),
            vs == views(items@),
            ls == views(list@),
            f == (|i: int| member_fault(vs[i], i, slot@, path@, ls)),
            subset_fault(slot@, params@, value@, context@) == first_some(vs.len(), f),
            first_some(i as nat, f) is None,
        decreases items@.len() - i,
    {
        assert(vs[i as int] == items@[i as int]@);
        if !has_element(list, &items[i]) {
            let mut m = say3("SLOT_CONSTRAINT_VIOLATED: slot '", slot, "' element at index ");
            m.append(decimal_text(i as u64).as_str());
            m.append(" (value: ");
            m.append(compact_text(&items[i]).as_str());
            m.append(") is not present in the reference array at '");
            m.append(path);
            m.append("'.");
            proof {
                lemma_first_some((i + 1) as nat, vs.len(), f);
            }
            return Err(violated(slot, "subset_of", m));
        }
        i = i + 1;
    }
    Ok(())
}

/// The first kind of constraint of a block that a value breaks.
pub open spec fn kind_fault(
    slot: Seq<char>,
    kind: Seq<char>,
    params: JsonView,
    value: JsonView,
    context: JsonView,
) -> Option<ViolationView> {
    let message = if kind == "path_allowlist"@ {
        allowlist_fault(slot, params, value)
    } else if kind == "subset_of"@ {
        subset_fault(slot, params, value, context)
    } else {
        Some(
            "SLOT_CONSTRAINT_VIOLATED: unknown constraint kind '"@ + kind + "' on slot '"@ + slot
                + "'. Supported: path_allowlist, subset_of. (Use slot's existing `type:` JSON Schema for regex / min / max / length / enum.)"@,
        )
    };
    match message {
        Some(message) => Some(ViolationView { slot, constraint_kind: kind, message }),
        None => None,
    }
}

/// The first constraint of a block that a value breaks.
pub open spec fn block_fault(
    slot: Seq<char>,
    block: Members,
    value: JsonView,
    context: JsonView,
) -> Option<ViolationView> {
    first_some(block.len(), |i: int| kind_fault(slot, block[i].0, block[i].1, value, context))
}

/// Every constraint of a block holds.
fn check_constraint(slot: &str, constraint: &JsonMap, value: &Json, context: &Json) -> (r: Result<
    (),
    ConstraintViolation,
>)
    ensures
        fault_of(r) == block_fault(slot@, constraint@, value@, context@),
{
    let ghost b = constraint@;
    let ghost f = |i: int| kind_fault(slot@, b[i].0, b[i].1, value@, context@);
    let mut i: usize = 0;
    while i < constraint.len()
        invariant
            i <= constraint@.len(),
            b == constraint@,
            f == (|i: int| kind_fault(slot@, b[i].0, b[i].1, value@, context@)),
            first_some(i as nat, f) is None,
        decreases constraint@.len() - i,
    {
        let kind = constraint.key_at(i).as_str();
        let params = constraint.value_at(i);
        let held = if same(kind, "path_allowlist") {
            check_path_allowlist(slot, params, value)
        } else if same(kind, "subset_of") {
            check_subset_of(slot, params, value, context)
        } else {
            let mut m = say3(
                "SLOT_CONSTRAINT_VIOLATED: unknown constraint kind '",
                kind,
                "' on slot '",
            );
            m.append(slot);
            m.append(
                "'. Supported: path_allowlist, subset_of. (Use slot's existing `type:` JSON Schema for regex / min / max / length / enum.)",
            );
            Err(violated(slot, kind, m))
        };
        if let Err(v) = held {
            proof {
                lemma_first_some((i + 1) as nat, b.len(), f);
            }
            return Err(v);
        }
        i = i + 1;
    }
    Ok(())
}

/// The declaration of a slot: the definition's own, else the state's.
pub open spec fn slot_declaration(
    definition: JsonView,
    state: Seq<char>,
    slot: Seq<char>,
) -> Option<JsonView> {
    let wide = match definition.get_object("blackboard"@) {
        Some(m) => lookup(m, slot),
        None => None,
    };
    match wide {
        Some(d) => Some(d),
        None => match state_def(definition, state) {
            Some(s) => match s.get_object("slots"@) {
                Some(m) => lookup(m, slot),
                None => None,
            },
            None => None,
        },
    }
}

/// Why the value of a slot breaks the constraints that the slot declares.
pub open spec fn slot_fault(
    definition: JsonView,
    state: Seq<char>,
    slot: Seq<char>,
    value: JsonView,
    context: JsonView,
) -> Option<ViolationView> {
    match slot_declaration(definition, state, slot) {
        Some(d) => match d.get_object("constraint"@) {
            Some(block) => block_fault(slot, block, value, context),
            None => None,
        },
        None => None,
    }
}

/// The first constraint that a context breaks.
pub open spec fn first_violation(
    definition: JsonView,
    state: Seq<char>,
    context: JsonView,
) -> Option<ViolationView> {
    match context {
        JsonView::Object(m) => first_some(
            m.len(),
            |i: int| slot_fault(definition, state, m[i].0, m[i].1, context),
        ),
        _ => None,
    }
}

fn find_declaration<'a>(definition: &'a Json, state: &str, slot: &str) -> (r: Option<&'a Json>)
    ensures
        opt_view(r) == slot_declaration(definition@, state@, slot@),
{
    if let Some(m) = definition.get_object("blackboard") {
        if let Some(d) = m.get(slot) {
            return Some(d);
        }
    }
    match find_state(definition, state) {
        Some(s) => match s.get_object("slots") {
            Some(m) => m.get(slot),
            None => None,
        },
        None => None,
    }
}

/// Holds every slot of a context against the constraints that the definition and the
/// state declare for it.
pub fn evaluate_constraints(definition: &Json, state: &str, context: &Json) -> (r: Result<
    (),
    ConstraintViolation,
>)
    ensures
        fault_of(r) == first_violation(definition@, state@, context@),
{
    let held = match context.as_object() {
        Some(m) => m,
        None => {
            return Ok(());
        },
    };
    let ghost m = held@;
    let ghost f = |i: int| slot_fault(definition@, state@, m[i].0, m[i].1, context@);
    let mut i: usize = 0;
    while i < held.len()
        invariant
            i <= held@.len(),
            m == held@,
            f == (|i: int| slot_fault(definition@, state@, m[i].0, m[i].1, context@)),
            context@ == JsonView::Object(m),
            first_some(i as nat, f) is None,
        decreases held@.len() - i,
    {
        let slot = held.key_at(i).as_str();
        if let Some(d) = find_declaration(definition, state, slot) {
            if let Some(block) = d.get_object("constraint") {
                if let Err(v) = check_constraint(slot, block, held.value_at(i), context) {
                    proof {
                        lemma_first_some((i + 1) as nat, m.len(), f);
                    }
                    return Err(v);
                }
            }
        }
        i = i + 1;
    }
    Ok(())
}

/// Why a pattern that a constraint declares cannot be used.
pub open spec fn declared_pattern_fault(
    v: JsonView,
    i: int,
    slot: Seq<char>,
    field: Seq<char>,
) -> Option<Seq<char>> {
    let at = "INVALID_CONSTRAINT_DECLARATION: slot '"@ + slot + "' path_allowlist."@ + field + "["@
        + decimal(i as nat);
    match v {
        JsonView::Str(s) => match glob_error(s) {
            Some(e) => Some(at + "] '"@ + s + "' is not a valid glob: "@ + e),
            None => None,
        },
        _ => Some(at + "] is not a string"@),
    }
}

/// Why the patterns of a field cannot be used.
pub open spec fn declared_patterns_fault(a: Seq<JsonView>, slot: Seq<char>, field: Seq<char>) -> Option<
    Seq<char>,
> {
    first_some(a.len(), |i: int| declared_pattern_fault(a[i], i, slot, field))
}

/// Why a declared constraint cannot be used.
pub open spec fn declared_kind_fault(slot: Seq<char>, kind: Seq<char>, params: JsonView) -> Option<
    Seq<char>,
> {
    let at = "INVALID_CONSTRAINT_DECLARATION: slot '"@ + slot;
    if kind == "path_allowlist"@ {
        match params {
            JsonView::Object(p) => match lookup(p, "allow"@) {
                Some(JsonView::Array(allow)) => if allow.len() == 0 {
                    Some(
                        at
                            + "' path_allowlist.allow is empty — an allow-everything constraint is misconfiguration, declare at least one glob or remove the constraint"@,
                    )
                } else {
                    match declared_patterns_fault(allow, slot, "allow"@) {
                        Some(m) => Some(m),
                        None => match lookup(p, "deny"@) {
                            Some(JsonView::Array(deny)) => declared_patterns_fault(
                                deny,
                                slot,
                                "deny"@,
                            ),
                            _ => None,
                        },
                    }
                },
                _ => Some(
                    at
                        + "' path_allowlist requires a non-empty `allow: [<glob>...]` (empty/missing is misconfiguration)"@,
                ),
            },
            _ => Some(at + "' path_allowlist must be an object with `allow:` and optional `deny:`"@),
        }
    } else if kind == "subset_of"@ {
        match params {
            JsonView::Str(_) => None,
            _ => Some(
                at + "' subset_of must be a string path (e.g. \"$.context.declared_scope\")"@,
            ),
        }
    } else {
        Some(
            at + "' unknown constraint kind '"@ + kind
                + "'. Supported: path_allowlist, subset_of. (Use the slot's existing `type:` JSON Schema for regex / min / max / length / enum.)"@,
        )
    }
}

/// Why the constraints that a slot declares cannot be used.
pub open spec fn declaration_fault(slot: Seq<char>, decl: JsonView) -> Option<Seq<char>> {
    match decl.get_object("constraint"@) {
        Some(block) => if block.len() == 0 {
            Some(
                "INVALID_CONSTRAINT_DECLARATION: slot '"@ + slot
                    + "' declares an empty `constraint:` block — either remove it or add a constraint kind"@,
            )
        } else {
            first_some(block.len(), |i: int| declared_kind_fault(slot, block[i].0, block[i].1))
        },
        None => None,
    }
}

fn check_declared_patterns(items: &Vec<Json>, slot: &str, field: &str) -> (r: Result<(), String>)
    ensures
        text_fault(r) == declared_patterns_fault(views(items@), slot@, field@),
{
    let ghost vs = views(items@);
    let ghost f = |i: int| declared_pattern_fault(vs[i], i, slot@, field@);
    let mut i: usize = 0;
    while i < items.len()
        invariant
            i <= items@.len(),
            vs == views(items@),
            f == (|i: int| declared_pattern_fault(vs[i], i, slot@, field@)),
            first_some(i as nat, f) is None,
        decreases items@.len() - i,
    {
        assert(vs[i as int] == items@[i as int]@);
        let mut m = say3(
            "INVALID_CONSTRAINT_DECLARATION: slot '",
            slot,
            "' path_allowlist.",
        );
        m.append(field);
        m.append("[");
        m.append(decimal_text(i as u64).as_str());
        match items[i].as_str() {
            Some(s) => if let Some(e) = glob_fault(s) {
                m.append("] '");
                m.append(s);
                m.append("' is not a valid glob: ");
                m.append(e.as_str());
                proof {
                    lemma_first_some((i + 1) as nat, vs.len(), f);
                }
                return Err(m);
            },
            None => {
                m.append("] is not a string");
                proof {
                    lemma_first_some((i + 1) as nat, vs.len(), f);
                }
                return Err(m);
            },
        }
        i = i + 1;
    }
    Ok(())
}

pub open spec fn text_fault(r: Result<(), String>) -> Option<Seq<char>> {
    match r {
        Ok(_) => None,
        Err(m) => Some(m@),
    }
}

fn check_declared_kind(slot: &str, kind: &str, params: &Json) -> (r: Result<(), String>)
    ensures
        text_fault(r) == declared_kind_fault(slot@, kind@, params@),
{
    let mut m = "INVALID_CONSTRAINT_DECLARATION: slot '".to_owned();
    m.append(slot);
    if same(kind, "path_allowlist") {
        let p = match params.as_object() {
            Some(p) => p,
            None => {
                m.append("' path_allowlist must be an object with `allow:` and optional `deny:`");
                return Err(m);
            },
        };
        let listed = match p.get("allow") {
            Some(v) => v.as_array(),
            None => None,
        };
        let allow = match listed {
            Some(a) => a,
            None => {
                m.append(
                    "' path_allowlist requires a non-empty `allow: [<glob>...]` (empty/missing is misconfiguration)",
                );
                return Err(m);
            },
        };
        assert(views(allow@).len() == allow@.len());
        if allow.len() == 0 {
            m.append(
                "' path_allowlist.allow is empty — an allow-everything constraint is misconfiguration, declare at least one glob or remove the constraint",
            );
            return Err(m);
        }
        if let Err(e) = check_declared_patterns(allow, slot, "allow") {
            return Err(e);
        }
        if let Some(v) = p.get("deny") {
            if let Some(deny) = v.as_array() {
                return check_declared_patterns(deny, slot, "deny");
            }
        }
        Ok(())
    } else if same(kind, "subset_of") {
        if params.as_str().is_some() {
            Ok(())
        } else {
            m.append("' subset_of must be a string path (e.g. \"$.context.declared_scope\")");
            Err(m)
        }
    } else {
        m.append("' unknown constraint kind '");
        m.append(kind);
        m.append(
            "'. Supported: path_allowlist, subset_of. (Use the slot's existing `type:` JSON Schema for regex / min / max / length / enum.)",
        );
        Err(m)
    }
}

fn validate_one_slot_constraint(slot: &str, decl: &Json) -> (r: Result<(), String>)
    ensures
        text_fault(r) == declaration_fault(slot@, decl@),
{
    let block = match decl.get_object("constraint") {
        Some(b) => b,
        None => {
            return Ok(());
        },
    };
    if block.is_empty() {
        return Err(
            say3(
                "INVALID_CONSTRAINT_DECLARATION: slot '",
                slot,
                "' declares an empty `constraint:` block — either remove it or add a constraint kind",
            ),
        );
    }
    let ghost b = block@;
    let ghost f = |i: int| declared_kind_fault(slot@, b[i].0, b[i].1);
    let mut i: usize = 0;
    while i < block.len()
        invariant
            i <= block@.len(),
            b == block@,
            decl@.get_object("constraint"@) == Some(b),
            f == (|i: int| declared_kind_fault(slot@, b[i].0, b[i].1)),
            first_some(i as nat, f) is None,
        decreases block@.len() - i,
    {
        if let Err(m) = check_declared_kind(slot, block.key_at(i).as_str(), block.value_at(i)) {
            proof {
                lemma_first_some((i + 1) as nat, b.len(), f);
            }
            return Err(m);
        }
        i = i + 1;
    }
    Ok(())
}

/// Why an element of a list of slots cannot be used: a constraint has no effect there.
pub open spec fn element_fault(scope: Seq<char>, v: JsonView) -> Option<Seq<char>> {
    if v.get("constraint"@) is Some {
        Some(
            "CONSTRAINT_REQUIRES_OBJECT_BLACKBOARD: '"@ + scope
                + "' is declared in array form but carries a `constraint:`"@ + (match v.get_str(
                "name"@,
            ) {
                Some(n) => " (slot '"@ + n + "')"@,
                None => Seq::empty(),
            })
                + " — constraints cannot be honored under an array-form blackboard. Declare the blackboard in object form (slot-name → decl) to use constraints."@,
        )
    } else {
        None
    }
}

/// Why slots, given as a list or by name, cannot be used.
pub open spec fn slots_fault(
    slots: Option<JsonView>,
    prefix: Seq<char>,
    scope: Seq<char>,
) -> Option<Seq<char>> {
    match slots {
        Some(JsonView::Object(m)) => first_some(
            m.len(),
            |i: int| declaration_fault(prefix + m[i].0, m[i].1),
        ),
        Some(JsonView::Array(a)) => first_some(a.len(), |i: int| element_fault(scope, a[i])),
        _ => None,
    }
}

/// Why the constraints of a definition cannot be used.
pub open spec fn definition_fault(definition: JsonView) -> Option<Seq<char>> {
    match slots_fault(definition.get("blackboard"@), Seq::empty(), "blackboard"@) {
        Some(m) => Some(m),
        None => match definition.get_object("states"@) {
            Some(states) => first_some(
                states.len(),
                |i: int|
                    slots_fault(
                        states[i].1.get("slots"@),
                        states[i].0 + "."@,
                        "states."@ + states[i].0 + ".slots"@,
                    ),
            ),
            None => None,
        },
    }
}

fn reject_constraint_in_array_blackboard(scope: &str, items: &Vec<Json>) -> (r: Result<(), String>)
    ensures
        text_fault(r) == first_some(
            views(items@).len(),
            |i: int| element_fault(scope@, views(items@)[i]),
        ),
{
    let ghost vs = views(items@);
    let ghost f = |i: int| element_fault(scope@, views(items@)[i]);
    let mut i: usize = 0;
    while i < items.len()
        invariant
            i <= items@.len(),
            vs == views(items@),
            f == (|i: int| element_fault(scope@, views(items@)[i])),
            first_some(i as nat, f) is None,
        decreases items@.len() - i,
    {
        let v = &items[i];
        assert(vs[i as int] == v@);
        if v.get("constraint").is_some() {
            let mut m = say3(
                "CONSTRAINT_REQUIRES_OBJECT_BLACKBOARD: '",
                scope,
                "' is declared in array form but carries a `constraint:`",
            );
            match v.get_str("name") {
                Some(n) => {
                    m.append(say3(" (slot '", n, "')").as_str());
                },
                None => {
                    m.append(String::new().as_str());
                },
            }
            m.append(
                " — constraints cannot be honored under an array-form blackboard. Declare the blackboard in object form (slot-name → decl) to use constraints.",
            );
            proof {
                lemma_first_some((i + 1) as nat, vs.len(), f);
            }
            return Err(m);
        }
        i = i + 1;
    }
    Ok(())
}

fn validate_slots(slots: Option<&Json>, prefix: &str, scope: &str) -> (r: Result<(), String>)
    ensures
        text_fault(r) == slots_fault(opt_view(slots), prefix@, scope@),
{
    match slots {
        Some(v) => {
            if let Some(m) = v.as_object() {
                let ghost ms = m@;
                let ghost f = |i: int| declaration_fault(prefix@ + ms[i].0, ms[i].1);
                let mut i: usize = 0;
                while i < m.len()
                    invariant
                        i <= m@.len(),
                        ms == m@,
                        slots == Some(v),
                        v@ == JsonView::Object(ms),
                        f == (|i: int| declaration_fault(prefix@ + ms[i].0, ms[i].1)),
                        first_some(i as nat, f) is None,
                    decreases m@.len() - i,
                {
                    let mut id = prefix.to_owned();
                    id.append(m.key_at(i).as_str());
                    if let Err(e) = validate_one_slot_constraint(id.as_str(), m.value_at(i)) {
                        proof {
                            lemma_first_some((i + 1) as nat, ms.len(), f);
                        }
                        return Err(e);
                    }
                    i = i + 1;
                }
                Ok(())
            } else if let Some(a) = v.as_array() {
                reject_constraint_in_array_blackboard(scope, a)
            } else {
                Ok(())
            }
        },
        None => Ok(()),
    }
}

/// Whether the constraints of a definition can be used: the patterns are patterns, no
/// block is empty, no kind is unknown.
pub fn validate_constraints_in_definition(definition: &Json) -> (r: Result<(), String>)
    ensures
        text_fault(r) == definition_fault(definition@),
{
    let none = String::new();
    if let Err(e) = validate_slots(definition.get("blackboard"), none.as_str(), "blackboard") {
        return Err(e);
    }
    let states = match definition.get_object("states") {
        Some(m) => m,
        None => {
            return Ok(());
        },
    };
    let ghost ss = states@;
    let ghost f = |i: int|
        slots_fault(
            ss[i].1.get("slots"@),
            ss[i].0 + "."@,
            "states."@ + ss[i].0 + ".slots"@,
        );
    let mut i: usize = 0;
    while i < states.len()
        invariant
            i <= states@.len(),
            ss == states@,
            f == (|i: int|
                slots_fault(
                    ss[i].1.get("slots"@),
                    ss[i].0 + "."@,
                    "states."@ + ss[i].0 + ".slots"@,
                )),
            slots_fault(definition@.get("blackboard"@), Seq::empty(), "blackboard"@) is None,
            definition@.get_object("states"@) == Some(ss),
            first_some(i as nat, f) is None,
        decreases states@.len() - i,
    {
        let name = states.key_at(i).as_str();
        let mut prefix = name.to_owned();
        prefix.append(".");
        let scope = say3("states.", name, ".slots");
        if let Err(e) = validate_slots(
            states.value_at(i).get("slots"),
            prefix.as_str(),
            scope.as_str(),
        ) {
            proof {
                lemma_first_some((i + 1) as nat, ss.len(), f);
            }
            return Err(e);
        }
        i = i + 1;
    }
    Ok(())
}

/// A list of allowed paths that passed when its definition was loaded has at least one
/// pattern, and none of its patterns is refused when a value is held against it.
pub proof fn law_loaded_patterns_are_usable(
    slot: Seq<char>,
    other: Seq<char>,
    decl: JsonView,
    at: int,
)
    requires
        declaration_fault(slot, decl) is None,
        decl.get_object("constraint"@) is Some,
        0 <= at < (decl.get_object("constraint"@)->0).len(),
        (decl.get_object("constraint"@)->0)[at].0 == "path_allowlist"@,
    ensures
        (decl.get_object("constraint"@)->0)[at].1 matches JsonView::Object(p) && {
            let allow = elements(lookup(p, "allow"@));
            let deny = elements(lookup(p, "deny"@));
            &&& allow.len() > 0
            &&& forall|i: int|
                0 <= i < allow.len() ==> pattern_fault(#[trigger] allow[i], i, other, "allow"@)
                    is None
            &&& forall|i: int|
                0 <= i < deny.len() ==> pattern_fault(#[trigger] deny[i], i, other, "deny"@) is None
        },
{
    let block = decl.get_object("constraint"@)->0;
    let f = |i: int| declared_kind_fault(slot, block[i].0, block[i].1);
    lemma_found_nowhere(block.len(), f);
    assert(f(at) is None);
    let p = block[at].1->Object_0;
    let allow = elements(lookup(p, "allow"@));
    let deny = elements(lookup(p, "deny"@));
    let g = |i: int| declared_pattern_fault(allow[i], i, slot, "allow"@);
    lemma_found_nowhere(allow.len(), g);
    assert forall|i: int| 0 <= i < allow.len() implies pattern_fault(
        #[trigger] allow[i],
        i,
        other,
        "allow"@,
    ) is None by {
        assert(g(i) is None);
    }
    if deny.len() > 0 {
        let h = |i: int| declared_pattern_fault(deny[i], i, slot, "deny"@);
        lemma_found_nowhere(deny.len(), h);
        assert forall|i: int| 0 <= i < deny.len() implies pattern_fault(
            #[trigger] deny[i],
            i,
            other,
            "deny"@,
        ) is None by {
            assert(h(i) is None);
        }
    }
}

} // verus!
