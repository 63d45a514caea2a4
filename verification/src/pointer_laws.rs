//! A pointer leads where its tokens lead.

use vstd::prelude::*;

use crate::json::JsonView;
use crate::pointer::{escape, law_escape_round_trip, pointed, tokens, unescape};
use crate::text::split;

verus! {

/// The pointer that names some tokens: each escaped, behind a separator.
pub open spec fn spelled(ts: Seq<Seq<char>>) -> Seq<char>
    decreases ts.len(),
{
    if ts.len() == 0 {
        Seq::empty()
    } else {
        spelled(ts.drop_last()) + seq!['/'] + escape(ts.last())
    }
}

proof fn lemma_split_whole(s: Seq<char>, c: char)
    requires
        !s.contains(c),
    ensures
        split(s, c) == seq![s],
    decreases s.len(),
{
    if s.len() > 0 {
        let init = s.drop_last();
        assert(!init.contains(c)) by {
            if init.contains(c) {
                let k = choose|k: int| 0 <= k < init.len() && init[k] == c;
                assert(s[k] == c);
            }
        }
        lemma_split_whole(init, c);
        assert(s[s.len() - 1] != c) by {
            assert(s.contains(s[s.len() - 1]));
        }
        assert(init.push(s.last()) =~= s);
        assert(split(s, c) =~= seq![s]);
    }
}

/// What follows the last separator is the last piece.
pub proof fn law_last_piece(a: Seq<char>, c: char, b: Seq<char>)
    requires
        !b.contains(c),
    ensures
        split(a + seq![c] + b, c) == split(a, c).push(b),
    decreases b.len(),
{
    let s = a + seq![c] + b;
    if b.len() == 0 {
        assert(s.drop_last() =~= a);
        assert(s.last() == c);
        assert(b =~= Seq::empty());
    } else {
        let init = b.drop_last();
        assert(!init.contains(c)) by {
            if init.contains(c) {
                let k = choose|k: int| 0 <= k < init.len() && init[k] == c;
                assert(b[k] == c);
            }
        }
        law_last_piece(a, c, init);
        assert(s.drop_last() =~= a + seq![c] + init);
        assert(s.last() == b.last());
        assert(b[b.len() - 1] != c) by {
            assert(b.contains(b[b.len() - 1]));
        }
        let before = split(a, c).push(init);
        assert(before.drop_last() =~= split(a, c));
        assert(before.last() == init);
        assert(init.push(b.last()) =~= b);
    }
}

proof fn lemma_tokens(ts: Seq<Seq<char>>)
    requires
        ts.len() > 0,
    ensures
        spelled(ts).len() > 0,
        spelled(ts)[0] == '/',
        tokens(spelled(ts)) == ts,
    decreases ts.len(),
{
    let p = spelled(ts);
    let e = escape(ts.last());
    law_escape_round_trip(ts.last());
    let init = ts.drop_last();
    if ts.len() == 1 {
        assert(spelled(init) =~= Seq::empty());
        assert(p =~= seq!['/'] + e);
        assert(p.drop_first() =~= e);
        lemma_split_whole(e, '/');
        assert(tokens(p) =~= ts) by {
            assert(split(p.drop_first(), '/')[0] == e);
            assert(ts[0] == ts.last());
        }
    } else {
        lemma_tokens(init);
        let q = spelled(init);
        assert(p.drop_first() =~= q.drop_first() + seq!['/'] + e);
        law_last_piece(q.drop_first(), '/', e);
        let before = split(q.drop_first(), '/');
        assert(tokens(p) =~= tokens(q).push(unescape(e)));
        assert(init.push(ts.last()) =~= ts);
    }
}

/// Whatever the tokens hold, the pointer that they spell names what they lead to.
pub proof fn law_pointers_lead_where_their_tokens_lead(v: JsonView, ts: Seq<Seq<char>>)
    ensures
        pointed(v, spelled(ts)) == v.at(ts),
{
    if ts.len() > 0 {
        lemma_tokens(ts);
    } else {
        assert(ts =~= Seq::empty());
        reveal_with_fuel(JsonView::at, 2);
    }
}

} // verus!
