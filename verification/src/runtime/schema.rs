//! Input schemas: filling in defaults, reading required texts, wording verdicts.

use vstd::prelude::*;

use crate::json::{
    lemma_lookup_some, lemma_put_lookup, lookup, put, sorted, Json, JsonView, Members,
};
use crate::pointer::pointed;
use crate::text::{join, joined, lemma_lt_asymmetric, texts};

verus! {

/// The properties that a schema declares.
pub open spec fn properties(schema: JsonView) -> Option<Members> {
    schema.get_object("properties"@)
}

pub proof fn lemma_properties_smaller(schema: JsonView)
    requires
        properties(schema) is Some,
    ensures
        decreases_to!(schema => properties(schema)->0),
{
    let m = schema->Object_0;
    let i = lemma_lookup_some(m, "properties"@);
    assert(decreases_to!(schema => m));
    assert(decreases_to!(m => m[i]));
    assert(decreases_to!(m[i] => m[i].1));
    assert(decreases_to!(m[i].1 => m[i].1->Object_0));
}

/// A value with the defaults of its schema filled in: a property that is absent or
/// null takes its default, one that is there is filled in by its own schema.
pub open spec fn defaulted(schema: JsonView, value: JsonView) -> JsonView
    decreases schema, 1int,
{
    match (properties(schema), value) {
        (Some(props), JsonView::Object(m)) => {
            proof {
                lemma_properties_smaller(schema);
            }
            JsonView::Object(filled(props, m))
        },
        _ => value,
    }
}

/// What one property of a schema makes of the value under its key.
pub open spec fn property_value(property: JsonView, held: Option<JsonView>) -> Option<JsonView>
    decreases property, 2int,
{
    match held {
        None => property.get("default"@),
        Some(child) => if child == JsonView::Null && property.get("default"@) is Some {
            property.get("default"@)
        } else {
            Some(defaulted(property, child))
        },
    }
}

/// Members with the defaults of the declared properties filled in.
pub open spec fn filled(props: Members, m: Members) -> Members
    decreases props, 0int,
{
    if props.len() == 0 {
        m
    } else {
        let before = filled(props.drop_last(), m);
        let (key, property) = props.last();
        match property_value(property, lookup(before, key)) {
            Some(v) => put(before, key, v),
            None => before,
        }
    }
}

/// How a value with defaults reads, key by key: a declared property as its schema
/// makes it, any other key as before.
pub proof fn law_filled_by_key(props: Members, m: Members, key: Seq<char>)
    requires
        sorted(props),
    ensures
        lookup(filled(props, m), key) == (match lookup(props, key) {
            Some(property) => property_value(property, lookup(m, key)),
            None => lookup(m, key),
        }),
    decreases props.len(),
{
    if props.len() > 0 {
        let init = props.drop_last();
        let (last, property) = props.last();
        assert(sorted(init)) by {
            assert forall|i: int, j: int| 0 <= i < j < init.len() implies crate::text::text_lt(
                #[trigger] init[i].0,
                #[trigger] init[j].0,
            ) by {
                assert(crate::text::text_lt(props[i].0, props[j].0));
            }
        }
        law_filled_by_key(init, m, key);
        law_filled_by_key(init, m, last);
        let before = filled(init, m);
        assert forall|j: int| 0 <= j < init.len() implies (#[trigger] props[j]).0 != last by {
            assert(crate::text::text_lt(props[j].0, props[props.len() - 1].0));
            lemma_lt_asymmetric(props[j].0, last);
        }
        assert forall|j: int| 0 <= j < init.len() implies (#[trigger] init[j]).0 != last by {
            assert(props[j].0 != last);
        }
        crate::json::lemma_lookup_none(init, last);
        crate::json::lemma_lookup_at(props, last, props.len() - 1);
        if let Some(v) = property_value(property, lookup(before, last)) {
            lemma_put_lookup(before, last, v, key);
        }
        if key != last {
            if lookup(init, key) is Some {
                let i = lemma_lookup_some(init, key);
                assert forall|j: int| 0 <= j < i implies (#[trigger] props[j]).0 != key by {
                    assert(crate::text::text_lt(props[j].0, props[i].0));
                    lemma_lt_asymmetric(props[j].0, props[i].0);
                }
                crate::json::lemma_lookup_at(props, key, i);
            } else {
                assert forall|j: int| 0 <= j < props.len() implies (#[trigger] props[j]).0
                    != key by {
                    if j < init.len() && props[j].0 == key {
                        assert(init[j].0 == key);
                        assert forall|k: int| 0 <= k < j implies (#[trigger] init[k]).0 != key by {
                            assert(crate::text::text_lt(props[k].0, props[j].0));
                            lemma_lt_asymmetric(props[k].0, props[j].0);
                        }
                        crate::json::lemma_lookup_at(init, key, j);
                    }
                }
                crate::json::lemma_lookup_none(props, key);
            }
        }
    }
}

/// The value with the defaults of `schema` filled in.
fn fill_value(schema: &Json, value: Json) -> (r: Json)
    ensures
        r@ == defaulted(schema@, value@),
    decreases schema@,
{
    let props = match schema.get_object("properties") {
        Some(p) => p,
        None => {
            return value;
        },
    };
    proof {
        lemma_properties_smaller(schema@);
    }
    let mut m = match value {
        Json::Object(m) => m,
        other => {
            return other;
        },
    };
    let ghost m0 = m@;
    let mut i: usize = 0;
    assert(props@.take(0) =~= Members::empty());
    while i < props.len()
        invariant
            i <= props@.len(),
            properties(schema@) == Some(props@),
            decreases_to!(schema@ => props@),
            m@ == filled(props@.take(i as int), m0),
        decreases props@.len() - i,
    {
        let ghost next = props@.take(i + 1);
        assert(next.drop_last() =~= props@.take(i as int));
        assert(next.last() == props@[i as int]);
        let key = props.key_at(i);
        let property = props.value_at(i);
        let ghost before = m@;
        let made: Option<Json> = match m.get(key.as_str()) {
            None => match property.get("default") {
                Some(d) => Some(d.clone()),
                None => None,
            },
            Some(child) => {
                let given = match property.get("default") {
                    Some(d) if child.is_null() => Some(d.clone()),
                    _ => None,
                };
                match given {
                    Some(d) => Some(d),
                    None => {
                        assert(decreases_to!(props@ => props@[i as int]));
                        assert(decreases_to!(props@[i as int] => props@[i as int].1));
                        Some(fill_value(property, child.clone()))
                    },
                }
            },
        };
        proof {
            let held = lookup(before, key@);
            assert((match made {
                Some(v) => Some(v@),
                None => None,
            }) == property_value(property@, held));
            assert(filled(next, m0) == (match property_value(property@, held) {
                Some(v) => put(before, key@, v),
                None => before,
            }));
        }
        if let Some(v) = made {
            m.insert(key.clone(), v);
        }
        i = i + 1;
    }
    assert(props@.take(i as int) =~= props@);
    Json::Object(m)
}

/// Fills in the defaults of a schema.
pub fn apply_schema_defaults(schema: Option<&Json>, value: &mut Json)
    ensures
        final(value)@ == (match schema {
            Some(s) => defaulted(s@, old(value)@),
            None => old(value)@,
        }),
{
    if let Some(s) = schema {
        let mut v = Json::Null;
        std::mem::swap(&mut v, value);
        *value = fill_value(s, v);
    }
}

/// What a schema validator found.
pub enum SchemaVerdict {
    Valid,
    Uncompilable(String),
    Invalid(Vec<String>),
}

/// The message of a failed validation of `label`.
pub open spec fn schema_fault(verdict: SchemaVerdict, label: Seq<char>) -> Option<Seq<char>> {
    match verdict {
        SchemaVerdict::Valid => None,
        SchemaVerdict::Uncompilable(e) => Some("invalid "@ + label + " schema: "@ + e@),
        SchemaVerdict::Invalid(errs) => Some(
            "invalid "@ + label + ": "@ + joined(texts(errs@), "; "@),
        ),
    }
}

/// Words the verdict of a validator on a value; without a schema nothing can fail.
pub fn validate_schema(schema: Option<&Json>, verdict: &SchemaVerdict, label: &str) -> (r: Result<
    (),
    String,
>)
    ensures
        match r {
            Ok(_) => schema is None || schema_fault(*verdict, label@) is None,
            Err(m) => schema is Some && schema_fault(*verdict, label@) == Some(m@),
        },
{
    if schema.is_none() {
        return Ok(());
    }
    match verdict {
        SchemaVerdict::Valid => Ok(()),
        SchemaVerdict::Uncompilable(e) => {
            let mut m = "invalid ".to_owned();
            m.append(label);
            m.append(" schema: ");
            m.append(e.as_str());
            Err(m)
        },
        SchemaVerdict::Invalid(errs) => {
            let mut m = "invalid ".to_owned();
            m.append(label);
            m.append(": ");
            m.append(join(errs, "; ").as_str());
            Err(m)
        },
    }
}

/// The text that a pointer names.
pub open spec fn text_at(v: JsonView, p: Seq<char>) -> Option<Seq<char>> {
    match pointed(v, p) {
        Some(j) => j.as_str(),
        None => None,
    }
}

/// The text that a pointer names, which has to be there.
pub fn required_str<'a>(value: &'a Json, pointer: &str) -> (r: Result<&'a str, String>)
    ensures
        match r {
            Ok(s) => text_at(value@, pointer@) == Some(s@),
            Err(m) => text_at(value@, pointer@) is None && m@ == "required string missing at "@
                + pointer@,
        },
{
    let found = match value.pointer(pointer) {
        Some(j) => j.as_str(),
        None => None,
    };
    match found {
        Some(s) => Ok(s),
        None => Err("required string missing at ".to_owned().concat(pointer)),
    }
}

} // verus!
