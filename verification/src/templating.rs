//! Texts with places that are filled in from a live instance.

use vstd::prelude::*;

use crate::json::{Json, JsonView};
use crate::json_text::{compact, compact_text};
use crate::model::{InstanceView, WorkflowInstance};
use crate::pointer::pointed;
use crate::text::{
    chars_of, find_place, first_place, last_piece, lemma_first_place, replace_char, replaced, same,
    split, strip_prefix, stripped, text_of, trim, trimmed,
};

verus! {

/// What stands for a path that leads nowhere: its last name.
pub open spec fn unset(path: Seq<char>) -> Seq<char> {
    "("@ + split(path, '.').last() + ": unset)"@
}

fn make_unset(path: &str) -> (r: String)
    ensures
        r@ == unset(path@),
{
    let mut s = "(".to_owned();
    s.append(last_piece(path, '.').as_str());
    s.append(": unset)");
    s
}

/// The pointer that a dotted path spells.
pub open spec fn dotted(tail: Seq<char>) -> Seq<char> {
    "/"@ + replaced(tail, '.', '/')
}

/// What a dotted path below a value reads as a text.
pub open spec fn read_below(root: JsonView, tail: Seq<char>) -> Seq<char> {
    match pointed(root, dotted(tail)) {
        Some(JsonView::Str(s)) => s,
        Some(JsonView::Null) => "(null)"@,
        Some(v) => compact(v),
        None => unset(tail),
    }
}

fn make_read_below(root: &Json, tail: &str) -> (r: String)
    ensures
        r@ == read_below(root@, tail@),
{
    broadcast use crate::json::array_view;

    let mut pointer = "/".to_owned();
    pointer.append(replace_char(tail, '.', '/').as_str());
    match root.pointer(pointer.as_str()) {
        Some(v) => match v {
            Json::Str(s) => s.clone(),
            Json::Null => "(null)".to_owned(),
            _ => compact_text(v),
        },
        None => make_unset(tail),
    }
}

/// What a path reads from an instance: a name of the instance itself, or a place below its
/// context, its input, or the authoring preferences of its definition.
pub open spec fn read_path(path: Seq<char>, i: InstanceView) -> Seq<char> {
    if path == "$.workflow.id"@ {
        i.id
    } else if path == "$.workflow.state"@ {
        i.state
    } else if path == "$.workflow.version"@ {
        i.definition_version
    } else if path == "$.run.repo_root"@ {
        i.run_env.repo_root
    } else if let Some(tail) = stripped(path, "$.context."@) {
        read_below(i.context, tail)
    } else if let Some(tail) = stripped(path, "$.workflow.input."@) {
        read_below(i.input, tail)
    } else if let Some(tail) = stripped(path, "$.praxec.authoring."@) {
        match pointed(i.definition, "/_authoringPrefs"@) {
            Some(prefs) => read_below(prefs, tail),
            None => unset(path),
        }
    } else {
        unset(path)
    }
}

/// What a path reads from an instance.
pub fn resolve_template_path(path: &str, instance: &WorkflowInstance) -> (r: String)
    ensures
        r@ == read_path(path@, instance@),
{
    if same(path, "$.workflow.id") {
        instance.id.clone()
    } else if same(path, "$.workflow.state") {
        instance.state.clone()
    } else if same(path, "$.workflow.version") {
        instance.definition_version.clone()
    } else if same(path, "$.run.repo_root") {
        instance.run_env.repo_root.as_str().to_owned()
    } else if let Some(tail) = strip_prefix(path, "$.context.") {
        make_read_below(&instance.context, tail.as_str())
    } else if let Some(tail) = strip_prefix(path, "$.workflow.input.") {
        make_read_below(&instance.input, tail.as_str())
    } else if let Some(tail) = strip_prefix(path, "$.praxec.authoring.") {
        match instance.definition.pointer("/_authoringPrefs") {
            Some(prefs) => make_read_below(prefs, tail.as_str()),
            None => make_unset(path),
        }
    } else {
        make_unset(path)
    }
}

/// What stands in place of the braces around `inner`.
pub open spec fn filled_place(inner: Seq<char>, i: InstanceView) -> Seq<char> {
    if trimmed(inner).len() == 0 {
        "{{}}"@
    } else {
        read_path(trimmed(inner), i)
    }
}

/// A text from `at` on with its places filled in. What is filled in is not read again.
pub open spec fn rendered_from(s: Seq<char>, at: int, i: InstanceView) -> Seq<char>
    decreases s.len() - at,
    when 0 <= at <= s.len()
{
    proof {
        reveal_strlit("{{");
        reveal_strlit("}}");
        lemma_first_place(s, "{{"@, at);
    }
    match first_place(s, "{{"@, at) {
        None => s.skip(at),
        Some(open) => {
            proof {
                lemma_first_place(s, "}}"@, open + 2);
            }
            match first_place(s, "}}"@, open + 2) {
                None => s.skip(at),
                Some(close) => s.subrange(at, open) + filled_place(
                    s.subrange(open + 2, close),
                    i,
                ) + rendered_from(s, close + 2, i),
            }
        },
    }
}

/// A text with its places filled in.
pub open spec fn rendered(s: Seq<char>, i: InstanceView) -> Seq<char> {
    rendered_from(s, 0, i)
}

/// Fills in the places `{{ path }}` of a text. A place that reads nothing becomes a stub;
/// braces without an end are left as they are.
pub fn render_template(template: &str, instance: &WorkflowInstance) -> (r: String)
    ensures
        r@ == rendered(template@, instance@),
{
    let s = chars_of(template);
    let mut out = String::new();
    let mut at: usize = 0;
    proof {
        reveal_strlit("{{");
        reveal_strlit("}}");
        assert(out@ + rendered_from(s@, 0, instance@) =~= rendered(template@, instance@));
    }
    loop
        invariant
            at <= s@.len(),
            "{{"@.len() == 2,
            "}}"@.len() == 2,
            out@ + rendered_from(s@, at as int, instance@) == rendered(template@, instance@),
        decreases s@.len() - at,
    {
        let n: usize = s.len();
        let open: usize = match find_place(&s, "{{", at) {
            Some(o) => o,
            None => {
                out.append(text_of(&s, at, n).as_str());
                assert(s@.subrange(at as int, n as int) =~= s@.skip(at as int));
                return out;
            },
        };
        let close: usize = match find_place(&s, "}}", open + 2) {
            Some(c) => c,
            None => {
                out.append(text_of(&s, at, n).as_str());
                assert(s@.subrange(at as int, n as int) =~= s@.skip(at as int));
                return out;
            },
        };
        let inner = trim(text_of(&s, open + 2, close).as_str());
        let ghost before = out@;
        let ghost tail = rendered_from(s@, close + 2, instance@);
        out.append(text_of(&s, at, open).as_str());
        if inner.as_str().is_empty() {
            out.append("{{}}");
        } else {
            out.append(resolve_template_path(inner.as_str(), instance).as_str());
        }
        proof {
            let a = s@.subrange(at as int, open as int);
            let f = filled_place(s@.subrange(open + 2, close as int), instance@);
            assert(out@ =~= before + a + f);
            assert(before + (a + f + tail) =~= out@ + tail);
        }
        at = close + 2;
    }
}

proof fn lemma_place_shift(s: Seq<char>, pat: Seq<char>, n: int, k: int)
    requires
        0 <= n,
        0 <= k,
        n + k <= s.len(),
    ensures
        first_place(s.skip(n), pat, k) == match first_place(s, pat, n + k) {
            Some(p) => Some(p - n),
            None => None,
        },
    decreases s.len() - n - k,
{
    let q = s.skip(n);
    lemma_first_place(s, pat, n + k);
    lemma_first_place(q, pat, k);
    if n + k + pat.len() <= s.len() {
        assert(q.subrange(k, k + pat.len()) =~= s.subrange(n + k, n + k + pat.len()));
    }
    if n + k < s.len() {
        lemma_place_shift(s, pat, n, k + 1);
    }
}

proof fn lemma_rendered_shift(s: Seq<char>, n: int, k: int, i: InstanceView)
    requires
        0 <= n,
        0 <= k,
        n + k <= s.len(),
    ensures
        rendered_from(s.skip(n), k, i) == rendered_from(s, n + k, i),
    decreases s.len() - n - k,
{
    reveal_strlit("{{");
    reveal_strlit("}}");
    let q = s.skip(n);
    lemma_place_shift(s, "{{"@, n, k);
    lemma_first_place(s, "{{"@, n + k);
    assert(q.skip(k) =~= s.skip(n + k));
    if let Some(open) = first_place(s, "{{"@, n + k) {
        lemma_place_shift(s, "}}"@, n, open - n + 2);
        lemma_first_place(s, "}}"@, open + 2);
        if let Some(close) = first_place(s, "}}"@, open + 2) {
            assert(q.subrange(k, open - n) =~= s.subrange(n + k, open));
            assert(q.subrange(open - n + 2, close - n) =~= s.subrange(open + 2, close));
            lemma_rendered_shift(s, n, close - n + 2, i);
        }
    }
}

/// A text without an opening is left as it is.
pub proof fn law_plain_text_is_kept(s: Seq<char>, i: InstanceView)
    requires
        first_place(s, "{{"@, 0) is None,
    ensures
        rendered(s, i) == s,
{
    assert(s.skip(0) =~= s);
}

/// A text is filled in from the front, one place after the other. What a place reads goes
/// into the result as it is, whatever braces it holds.
pub proof fn law_filled_text_is_not_read_again(
    before: Seq<char>,
    inner: Seq<char>,
    after: Seq<char>,
    i: InstanceView,
)
    requires
        ({
            let s = before + "{{"@ + inner + "}}"@ + after;
            &&& first_place(s, "{{"@, 0) == Some(before.len() as int)
            &&& first_place(s, "}}"@, (before.len() + 2) as int) == Some((before.len() + 2 + inner.len()) as int)
        }),
    ensures
        rendered(before + "{{"@ + inner + "}}"@ + after, i) == before + filled_place(inner, i)
            + rendered(after, i),
{
    reveal_strlit("{{");
    reveal_strlit("}}");
    let s = before + "{{"@ + inner + "}}"@ + after;
    let open = before.len() as int;
    let close = open + 2 + inner.len();
    assert(s.subrange(0, open) =~= before);
    assert(s.subrange(open + 2, close) =~= inner);
    assert(s.skip(close + 2) =~= after);
    lemma_rendered_shift(s, close + 2, 0, i);
}

} // verus!
