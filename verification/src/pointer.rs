//! JSON pointers (RFC 6901): escaping of tokens and resolution of paths.

use vstd::prelude::*;

use crate::json::{digits_value, is_digit, is_index, opt_view, then_step, views, Json, JsonView};
use crate::text::{chars_of, split, split_text, text_of, texts};

verus! {

/// One character of a token, escaped.
pub open spec fn escape_char(c: char) -> Seq<char> {
    if c == '~' {
        seq!['~', '0']
    } else if c == '/' {
        seq!['~', '1']
    } else {
        seq![c]
    }
}

/// A token with `~` written `~0` and `/` written `~1`.
pub open spec fn escape(s: Seq<char>) -> Seq<char>
    decreases s.len(),
{
    if s.len() == 0 {
        s
    } else {
        escape_char(s[0]) + escape(s.drop_first())
    }
}

/// A token with `~1` read as `/` and `~0` read as `~`.
pub open spec fn unescape(s: Seq<char>) -> Seq<char>
    decreases s.len(),
{
    if s.len() == 0 {
        s
    } else if s.len() >= 2 && s[0] == '~' && s[1] == '1' {
        seq!['/'] + unescape(s.skip(2))
    } else if s.len() >= 2 && s[0] == '~' && s[1] == '0' {
        seq!['~'] + unescape(s.skip(2))
    } else {
        seq![s[0]] + unescape(s.drop_first())
    }
}

/// The tokens of a pointer that starts with `/`.
pub open spec fn tokens(p: Seq<char>) -> Seq<Seq<char>> {
    split(p.drop_first(), '/').map_values(|t: Seq<char>| unescape(t))
}

/// What a pointer names in `v`.
pub open spec fn pointed(v: JsonView, p: Seq<char>) -> Option<JsonView> {
    if p.len() == 0 {
        Some(v)
    } else if p[0] != '/' {
        None
    } else {
        v.at(tokens(p))
    }
}

proof fn lemma_escape_push(s: Seq<char>, c: char)
    ensures
        escape(s.push(c)) == escape(s) + escape_char(c),
    decreases s.len(),
{
    if s.len() == 0 {
        assert(s.push(c).drop_first() =~= s);
        assert(escape(s.push(c)) =~= escape(s) + escape_char(c));
    } else {
        assert(s.push(c).drop_first() =~= s.drop_first().push(c));
        lemma_escape_push(s.drop_first(), c);
        assert(escape(s.push(c)) =~= escape(s) + escape_char(c));
    }
}

/// An escaped token reads back as the token, and holds no separator.
pub proof fn law_escape_round_trip(s: Seq<char>)
    ensures
        unescape(escape(s)) == s,
        !escape(s).contains('/'),
    decreases s.len(),
{
    if s.len() > 0 {
        let e = escape(s);
        let rest = escape(s.drop_first());
        law_escape_round_trip(s.drop_first());
        if s[0] == '~' || s[0] == '/' {
            assert(e.skip(2) =~= rest);
        } else {
            assert(e.drop_first() =~= rest);
        }
        assert(unescape(e) =~= s);
        assert forall|i: int| 0 <= i < e.len() implies e[i] != '/' by {
            if i >= escape_char(s[0]).len() {
                assert(e[i] == rest[i - escape_char(s[0]).len()]);
            }
        }
    }
}

/// A token with `~` and `/` escaped.
pub fn pointer_escape(value: &str) -> (r: String)
    ensures
        r@ == escape(value@),
{
    let v = chars_of(value);
    let mut out = String::new();
    let mut i: usize = 0;
    assert(v@.take(0) =~= Seq::empty());
    while i < v.len()
        invariant
            i <= v@.len(),
            out@ == escape(v@.take(i as int)),
        decreases v@.len() - i,
    {
        proof {
            lemma_escape_push(v@.take(i as int), v@[i as int]);
            assert(v@.take(i + 1) =~= v@.take(i as int).push(v@[i as int]));
        }
        let c: char = v[i];
        if c == '~' {
            out.push('~');
            out.push('0');
        } else if c == '/' {
            out.push('~');
            out.push('1');
        } else {
            out.push(c);
        }
        assert(out@ =~= escape(v@.take(i as int)) + escape_char(c));
        i = i + 1;
    }
    assert(v@.take(i as int) =~= v@);
    out
}

/// The token that `v` writes in escaped form.
fn token_of(v: &Vec<char>) -> (r: String)
    ensures
        r@ == unescape(v@),
{
    let mut out = String::new();
    let mut i: usize = 0;
    assert(v@.skip(0) =~= v@);
    while i < v.len()
        invariant
            i <= v@.len(),
            out@ + unescape(v@.skip(i as int)) == unescape(v@),
        decreases v@.len() - i,
    {
        let ghost rest = v@.skip(i as int);
        let c: char = v[i];
        if c == '~' && i + 1 < v.len() && v[i + 1] == '1' {
            out.push('/');
            assert(rest.skip(2) =~= v@.skip(i + 2));
            assert(out@ + unescape(v@.skip(i + 2)) =~= unescape(v@));
            i = i + 2;
        } else if c == '~' && i + 1 < v.len() && v[i + 1] == '0' {
            out.push('~');
            assert(rest.skip(2) =~= v@.skip(i + 2));
            assert(out@ + unescape(v@.skip(i + 2)) =~= unescape(v@));
            i = i + 2;
        } else {
            out.push(c);
            assert(rest.drop_first() =~= v@.skip(i + 1));
            assert(out@ + unescape(v@.skip(i + 1)) =~= unescape(v@));
            i = i + 1;
        }
    }
    assert(out@ + unescape(v@.skip(i as int)) =~= out@);
    out
}

proof fn lemma_value_grows(t: Seq<char>, n: int)
    requires
        0 <= n <= t.len(),
        forall|i: int| 0 <= i < t.len() ==> is_digit(#[trigger] t[i]),
    ensures
        digits_value(t.take(n)) <= digits_value(t),
    decreases t.len(),
{
    if n < t.len() {
        lemma_value_grows(t.drop_last(), n);
        assert(t.drop_last().take(n) =~= t.take(n));
    } else {
        assert(t.take(n) =~= t);
    }
}

/// The place that a token names in an array of length `len`.
fn index_of(token: &str, len: usize) -> (r: Option<usize>)
    ensures
        match r {
            Some(n) => is_index(token@) && digits_value(token@) == n && n < len,
            None => !(is_index(token@) && digits_value(token@) < len),
        },
{
    let v = chars_of(token);
    if v.len() == 0 {
        return None;
    }
    if v[0] == '0' && v.len() != 1 {
        return None;
    }
    let mut n: usize = 0;
    let mut i: usize = 0;
    assert(v@.take(0) =~= Seq::empty());
    while i < v.len()
        invariant
            i <= v@.len(),
            v@ == token@,
            n == digits_value(v@.take(i as int)),
            n < len || i == 0,
            forall|j: int| 0 <= j < i ==> is_digit(#[trigger] v@[j]),
        decreases v@.len() - i,
    {
        let c: char = v[i];
        if !('0' <= c && c <= '9') {
            assert(!is_digit(v@[i as int]));
            return None;
        }
        let d: usize = digit_of(c);
        let ghost upto = v@.take(i + 1);
        proof {
            assert(upto.drop_last() =~= v@.take(i as int));
            assert(digits_value(upto) == n * 10 + d);
        }
        if n > (usize::MAX - d) / 10 || n * 10 + d >= len {
            proof {
                if is_index(v@) {
                    lemma_value_grows(v@, i + 1);
                    assert(digits_value(v@) >= n * 10 + d);
                }
            }
            return None;
        }
        n = n * 10 + d;
        i = i + 1;
    }
    assert(v@.take(i as int) =~= v@);
    Some(n)
}

/// The value of a decimal digit.
fn digit_of(c: char) -> (d: usize)
    requires
        is_digit(c),
    ensures
        d == c as int - '0' as int,
        d <= 9,
{
    match c {
        '0' => 0,
        '1' => 1,
        '2' => 2,
        '3' => 3,
        '4' => 4,
        '5' => 5,
        '6' => 6,
        '7' => 7,
        '8' => 8,
        _ => 9,
    }
}

impl Json {
    /// One step of a pointer.
    pub fn step(&self, token: &str) -> (r: Option<&Json>)
        ensures
            opt_view(r) == self@.step(token@),
    {
        broadcast use crate::json::array_view;

        match self {
            Json::Object(m) => m.get(token),
            Json::Array(a) => match index_of(token, a.len()) {
                Some(i) => {
                    assert(views(a@)[i as int] == a@[i as int]@);
                    Some(&a[i])
                },
                None => None,
            },
            _ => None,
        }
    }

    /// Two steps of a pointer.
    pub fn at2(&self, a: &str, b: &str) -> (r: Option<&Json>)
        ensures
            opt_view(r) == then_step(self@.step(a@), b@),
    {
        match self.step(a) {
            Some(v) => v.step(b),
            None => None,
        }
    }

    /// Three steps of a pointer.
    pub fn at3(&self, a: &str, b: &str, c: &str) -> (r: Option<&Json>)
        ensures
            opt_view(r) == then_step(then_step(self@.step(a@), b@), c@),
    {
        match self.at2(a, b) {
            Some(v) => v.step(c),
            None => None,
        }
    }

    /// Four steps of a pointer.
    pub fn at4(&self, a: &str, b: &str, c: &str, d: &str) -> (r: Option<&Json>)
        ensures
            opt_view(r) == then_step(then_step(then_step(self@.step(a@), b@), c@), d@),
    {
        match self.at3(a, b, c) {
            Some(v) => v.step(d),
            None => None,
        }
    }

    /// The value at the end of a path.
    fn walk(&self, path: &Vec<String>, from: usize) -> (r: Option<&Json>)
        requires
            from <= path@.len(),
        ensures
            opt_view(r) == self@.at(texts(path@).skip(from as int)),
        decreases path@.len() - from,
    {
        let ghost rest = texts(path@).skip(from as int);
        if from == path.len() {
            Some(self)
        } else {
            match self.step(path[from].as_str()) {
                Some(v) => {
                    assert(rest.drop_first() =~= texts(path@).skip(from + 1));
                    v.walk(path, from + 1)
                },
                None => None,
            }
        }
    }

    /// The value that a pointer names.
    pub fn pointer(&self, p: &str) -> (r: Option<&Json>)
        ensures
            opt_view(r) == pointed(self@, p@),
    {
        let v = chars_of(p);
        if v.len() == 0 {
            return Some(self);
        }
        if v[0] != '/' {
            return None;
        }
        let body = text_of(&v, 1, v.len());
        assert(body@ =~= v@.drop_first());
        let parts = split_text(body.as_str(), '/');
        let mut path: Vec<String> = Vec::new();
        let mut i: usize = 0;
        while i < parts.len()
            invariant
                i <= parts@.len(),
                path@.len() == i,
                forall|j: int|
                    0 <= j < i ==> (#[trigger] path@[j])@ == unescape(texts(parts@)[j]),
            decreases parts@.len() - i,
        {
            path.push(token_of(&chars_of(parts[i].as_str())));
            i = i + 1;
        }
        assert(texts(path@) =~= tokens(p@));
        assert(texts(path@).skip(0) =~= texts(path@));
        self.walk(&path, 0)
    }
}

} // verus!
