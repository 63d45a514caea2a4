//! JSON values as texts: the compact form and the indented form.

use vstd::prelude::*;

use crate::json::{views, Json, JsonMap, JsonView, Members, Number, NumberView};
use crate::text::{decimal, decimal_text};

verus! {

/// A text as a JSON string, quotes and escapes included, as
/// `serde_json::Value::to_string` writes it.
pub uninterp spec fn quoted(s: Seq<char>) -> Seq<char>;

/// `serde_json::Value::to_string` of a string value. Claimed: the result depends on the
/// text alone. Not stated: which characters are escaped, and how.
#[verifier::external_body]
fn quote(s: &str) -> (r: String)
    ensures
        r@ == quoted(s@),
{
    serde_json::Value::String(s.to_owned()).to_string()
}

/// A number in decimal.
pub open spec fn number_text(n: NumberView) -> Seq<char> {
    match n {
        NumberView::PosInt(n) => decimal(n as nat),
        NumberView::NegInt(n) => if n < 0 {
            seq!['-'] + decimal((-n) as nat)
        } else {
            decimal(n as nat)
        },
        NumberView::Float(t) => t,
    }
}

fn write_number(n: &Number) -> (r: String)
    ensures
        r@ == number_text(n@),
{
    match n {
        Number::PosInt(n) => decimal_text(*n),
        Number::NegInt(n) => if *n < 0 {
            let below: u64 = (-(*n + 1)) as u64;
            let mut r = String::new();
            r.push('-');
            r.append(decimal_text(below + 1).as_str());
            assert(r@ =~= seq!['-'] + decimal((-*n) as nat));
            r
        } else {
            decimal_text(*n as u64)
        },
        Number::Float(t) => t.clone(),
    }
}

/// The compact form of a value.
pub open spec fn compact(v: JsonView) -> Seq<char>
    decreases v, 1int,
{
    match v {
        JsonView::Null => "null"@,
        JsonView::Bool(b) => if b {
            "true"@
        } else {
            "false"@
        },
        JsonView::Number(n) => number_text(n),
        JsonView::Str(s) => quoted(s),
        JsonView::Array(a) => seq!['['] + compact_items(a) + seq![']'],
        JsonView::Object(m) => seq!['{'] + compact_members(m) + seq!['}'],
    }
}

/// The items of an array, with commas between them.
pub open spec fn compact_items(a: Seq<JsonView>) -> Seq<char>
    decreases a, 0int,
{
    if a.len() == 0 {
        Seq::empty()
    } else if a.len() == 1 {
        compact(a[0])
    } else {
        compact_items(a.drop_last()) + seq![','] + compact(a[a.len() - 1])
    }
}

/// The members of an object, with commas between them.
pub open spec fn compact_members(m: Members) -> Seq<char>
    decreases m, 0int,
{
    if m.len() == 0 {
        Seq::empty()
    } else {
        proof {
            assert(decreases_to!(m => m[m.len() - 1]));
            assert(decreases_to!(m[m.len() - 1] => m[m.len() - 1].1));
        }
        if m.len() == 1 {
            quoted(m[0].0) + seq![':'] + compact(m[0].1)
        } else {
            compact_members(m.drop_last()) + seq![','] + quoted(m[m.len() - 1].0) + seq![':']
                + compact(m[m.len() - 1].1)
        }
    }
}

fn compact_array(a: &Vec<Json>) -> (r: String)
    ensures
        r@ == compact_items(views(a@)),
    decreases views(a@), 0int,
{
    let mut r = String::new();
    let mut i: usize = 0;
    let ghost all = views(a@);
    assert(r@ =~= compact_items(all.take(0)));
    while i < a.len()
        invariant
            i <= a@.len(),
            all == views(a@),
            r@ == compact_items(all.take(i as int)),
        decreases a@.len() - i,
    {
        let ghost next = all.take(i + 1);
        assert(next.drop_last() =~= all.take(i as int));
        assert(next[next.len() - 1] == a@[i as int]@);
        assert(decreases_to!(all => all[i as int]));
        let item = compact_text(&a[i]);
        if i > 0 {
            r.push(',');
        }
        r.append(item.as_str());
        assert(r@ =~= compact_items(next));
        i = i + 1;
    }
    assert(all.take(i as int) =~= all);
    r
}

fn compact_map(m: &JsonMap) -> (r: String)
    ensures
        r@ == compact_members(m@),
    decreases m@, 0int,
{
    let mut r = String::new();
    let mut i: usize = 0;
    assert(r@ =~= compact_members(m@.take(0)));
    while i < m.len()
        invariant
            i <= m@.len(),
            r@ == compact_members(m@.take(i as int)),
        decreases m@.len() - i,
    {
        let ghost next = m@.take(i + 1);
        assert(next.drop_last() =~= m@.take(i as int));
        assert(next[next.len() - 1] == m@[i as int]);
        assert(decreases_to!(m@ => m@[i as int]));
        assert(decreases_to!(m@[i as int] => m@[i as int].1));
        let item = compact_text(m.value_at(i));
        if i > 0 {
            r.push(',');
        }
        r.append(quote(m.key_at(i).as_str()).as_str());
        r.push(':');
        r.append(item.as_str());
        assert(r@ =~= compact_members(next));
        i = i + 1;
    }
    assert(m@.take(i as int) =~= m@);
    r
}

/// The compact form of a value.
pub fn compact_text(v: &Json) -> (r: String)
    ensures
        r@ == compact(v@),
    decreases v@, 1int,
{
    broadcast use crate::json::array_view;

    match v {
        Json::Null => "null".to_owned(),
        Json::Bool(b) => if *b {
            "true".to_owned()
        } else {
            "false".to_owned()
        },
        Json::Number(n) => write_number(n),
        Json::Str(s) => quote(s.as_str()),
        Json::Array(a) => {
            assert(v@ == JsonView::Array(views(a@)));
            assert(decreases_to!(v@ => v@->Array_0));
            let inner = compact_array(a);
            let mut r = String::new();
            r.push('[');
            r.append(inner.as_str());
            r.push(']');
            assert(r@ =~= compact(v@));
            r
        },
        Json::Object(m) => {
            assert(decreases_to!(v@ => v@->Object_0));
            let inner = compact_map(m);
            let mut r = String::new();
            r.push('{');
            r.append(inner.as_str());
            r.push('}');
            assert(r@ =~= compact(v@));
            r
        },
    }
}

/// A line break and an indentation.
pub open spec fn line(indent: Seq<char>) -> Seq<char> {
    seq!['\n'] + indent
}

/// One step of indentation.
pub open spec fn tab() -> Seq<char> {
    seq![' ', ' ']
}

/// The indented form of a value on a line with this indentation, as
/// `serde_json::to_string_pretty` writes it.
pub open spec fn pretty(v: JsonView, indent: Seq<char>) -> Seq<char>
    decreases v, 1int,
{
    match v {
        JsonView::Array(a) => if a.len() == 0 {
            seq!['[', ']']
        } else {
            seq!['['] + pretty_items(a, indent + tab()) + line(indent) + seq![']']
        },
        JsonView::Object(m) => if m.len() == 0 {
            seq!['{', '}']
        } else {
            seq!['{'] + pretty_members(m, indent + tab()) + line(indent) + seq!['}']
        },
        _ => compact(v),
    }
}

/// The items of an array, each on a line.
pub open spec fn pretty_items(a: Seq<JsonView>, indent: Seq<char>) -> Seq<char>
    decreases a, 0int,
{
    if a.len() == 0 {
        Seq::empty()
    } else if a.len() == 1 {
        line(indent) + pretty(a[0], indent)
    } else {
        pretty_items(a.drop_last(), indent) + seq![','] + line(indent) + pretty(
            a[a.len() - 1],
            indent,
        )
    }
}

/// The members of an object, each on a line.
pub open spec fn pretty_members(m: Members, indent: Seq<char>) -> Seq<char>
    decreases m, 0int,
{
    if m.len() == 0 {
        Seq::empty()
    } else {
        proof {
            assert(decreases_to!(m => m[m.len() - 1]));
            assert(decreases_to!(m[m.len() - 1] => m[m.len() - 1].1));
        }
        if m.len() == 1 {
            line(indent) + quoted(m[0].0) + seq![':', ' '] + pretty(m[0].1, indent)
        } else {
            pretty_members(m.drop_last(), indent) + seq![','] + line(indent) + quoted(
                m[m.len() - 1].0,
            ) + seq![':', ' '] + pretty(m[m.len() - 1].1, indent)
        }
    }
}

fn push_line(r: &mut String, indent: &str)
    ensures
        final(r)@ == old(r)@ + line(indent@),
{
    r.push('\n');
    r.append(indent);
    assert(r@ =~= old(r)@ + line(indent@));
}

fn deeper(indent: &str) -> (r: String)
    ensures
        r@ == indent@ + tab(),
{
    let mut r = indent.to_owned();
    r.push(' ');
    r.push(' ');
    assert(r@ =~= indent@ + tab());
    r
}

fn pretty_array(a: &Vec<Json>, indent: &str) -> (r: String)
    ensures
        r@ == pretty_items(views(a@), indent@),
    decreases views(a@), 0int,
{
    let mut r = String::new();
    let mut i: usize = 0;
    let ghost all = views(a@);
    assert(r@ =~= pretty_items(all.take(0), indent@));
    while i < a.len()
        invariant
            i <= a@.len(),
            all == views(a@),
            r@ == pretty_items(all.take(i as int), indent@),
        decreases a@.len() - i,
    {
        let ghost next = all.take(i + 1);
        assert(next.drop_last() =~= all.take(i as int));
        assert(next[next.len() - 1] == a@[i as int]@);
        assert(decreases_to!(all => all[i as int]));
        let item = pretty_text(&a[i], indent);
        if i > 0 {
            r.push(',');
        }
        push_line(&mut r, indent);
        r.append(item.as_str());
        assert(r@ =~= pretty_items(next, indent@));
        i = i + 1;
    }
    assert(all.take(i as int) =~= all);
    r
}

fn pretty_map(m: &JsonMap, indent: &str) -> (r: String)
    ensures
        r@ == pretty_members(m@, indent@),
    decreases m@, 0int,
{
    let mut r = String::new();
    let mut i: usize = 0;
    assert(r@ =~= pretty_members(m@.take(0), indent@));
    while i < m.len()
        invariant
            i <= m@.len(),
            r@ == pretty_members(m@.take(i as int), indent@),
        decreases m@.len() - i,
    {
        let ghost next = m@.take(i + 1);
        assert(next.drop_last() =~= m@.take(i as int));
        assert(next[next.len() - 1] == m@[i as int]);
        assert(decreases_to!(m@ => m@[i as int]));
        assert(decreases_to!(m@[i as int] => m@[i as int].1));
        let item = pretty_text(m.value_at(i), indent);
        if i > 0 {
            r.push(',');
        }
        push_line(&mut r, indent);
        r.append(quote(m.key_at(i).as_str()).as_str());
        r.push(':');
        r.push(' ');
        r.append(item.as_str());
        assert(r@ =~= pretty_members(next, indent@));
        i = i + 1;
    }
    assert(m@.take(i as int) =~= m@);
    r
}

/// The indented form of a value on a line with this indentation.
pub fn pretty_text(v: &Json, indent: &str) -> (r: String)
    ensures
        r@ == pretty(v@, indent@),
    decreases v@, 1int,
{
    broadcast use crate::json::array_view;

    match v {
        Json::Array(a) => {
            assert(v@ == JsonView::Array(views(a@)));
            assert(decreases_to!(v@ => v@->Array_0));
            let mut r = String::new();
            r.push('[');
            if a.len() > 0 {
                let inner = pretty_array(a, deeper(indent).as_str());
                r.append(inner.as_str());
                push_line(&mut r, indent);
            }
            r.push(']');
            assert(r@ =~= pretty(v@, indent@));
            r
        },
        Json::Object(m) => {
            assert(decreases_to!(v@ => v@->Object_0));
            let mut r = String::new();
            r.push('{');
            if !m.is_empty() {
                let inner = pretty_map(m, deeper(indent).as_str());
                r.append(inner.as_str());
                push_line(&mut r, indent);
            }
            r.push('}');
            assert(r@ =~= pretty(v@, indent@));
            r
        },
        _ => compact_text(v),
    }
}

} // verus!
