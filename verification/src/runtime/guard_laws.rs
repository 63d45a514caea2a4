//! How answers of guards decide: what a transition passes, which branch it takes, whether a loop
//! goes round, which transition the runtime takes, and which links are offered.

use vstd::prelude::*;

use crate::json::{lemma_reads_put, JsonView};
use crate::model::{ActingView, InstanceView, PrincipalView};
use crate::runtime::context::iter_slot;
use crate::runtime::effects::GuardsView;
use crate::runtime::guards::{branch_from, guards_from, guards_of, target_of, while_loop, ArmView};
use crate::runtime::links::state_def;
use crate::runtime::response::{link_transition, sift_from, sifted, silent_from, SiftView};
use crate::runtime::schema::text_at;
use crate::runtime::script::{EffectView, ReplyView, StepView};

verus! {

/// The guards that a transition declares.
pub open spec fn declared_guards(t: JsonView) -> Seq<JsonView> {
    match t.get("guards"@) {
        Some(JsonView::Array(a)) => a,
        _ => Seq::empty(),
    }
}

/// Whether a reply says that a guard passes.
pub open spec fn says_yes(x: ReplyView) -> bool {
    x matches ReplyView::Judged(Ok((pass, _))) && pass
}

/// Whether a reply says that a guard does not pass, or that it could not be asked.
pub open spec fn says_no(x: ReplyView) -> bool {
    x matches ReplyView::Judged(v) && !(v matches Ok((pass, _)) && pass)
}

/// A question to a guard.
pub open spec fn asks(
    e: EffectView,
    guard: JsonView,
    i: InstanceView,
    arguments: JsonView,
    who: PrincipalView,
) -> bool {
    e == (EffectView::AskGuard { guard, instance: i, arguments, principal: who })
}

/// How far the guards of a transition were asked, and entered one by one: the first `n` of them
/// said yes.
pub open spec fn yes_so_far(r: Seq<ReplyView>, n: int) -> bool {
    &&& 2 * n <= r.len()
    &&& forall|m: int| 0 <= m < n ==> says_yes(#[trigger] r[2 * m])
    &&& forall|m: int| 0 <= m < n ==> #[trigger] r[2 * m + 1] is Done
}

proof fn lemma_yes_before(r: Seq<ReplyView>, n: int)
    requires
        n >= 0,
        r.len() >= 2,
        says_yes(r[0]),
        r[1] is Done,
        yes_so_far(r.drop_first().drop_first(), n),
    ensures
        yes_so_far(r, n + 1),
{
    let s = r.drop_first().drop_first();
    assert forall|m: int| 0 <= m < n + 1 implies says_yes(#[trigger] r[2 * m]) by {
        if m > 0 {
            assert(r[2 * m] == s[2 * (m - 1)]);
        }
    }
    assert forall|m: int| 0 <= m < n + 1 implies #[trigger] r[2 * m + 1] is Done by {
        if m > 0 {
            assert(r[2 * m + 1] == s[2 * (m - 1) + 1]);
        }
    }
}

/// How the questions to the guards of a transition stand, by the answers: they are asked one after
/// the other, about this instance and with these arguments; they pass when all of them said yes; the
/// first that says no ends them.
pub open spec fn guards_decide(
    guards: Seq<JsonView>,
    i: InstanceView,
    arguments: JsonView,
    who: ActingView,
    r: Seq<ReplyView>,
    v: StepView<GuardsView>,
) -> bool {
    match v {
        StepView::Do(EffectView::AskGuard { guard, instance, arguments: a, principal }) => exists|
            n: int,
        |
            0 <= n < guards.len() && #[trigger] yes_so_far(r, n) && r.len() == 2 * n && guard
                == guards[n] && instance == i && a == arguments && principal == who.principal,
        StepView::Do(e) => e is Audit && r.len() > 0 && r.last() is Judged,
        StepView::Done(GuardsView::Judged { pass, evaluated, diagnostic }) => if pass {
            yes_so_far(r, guards.len() as int) && diagnostic is None
        } else {
            exists|n: int|
                0 <= n < guards.len() && #[trigger] yes_so_far(r, n) && 2 * n + 1 < r.len()
                    && r[2 * n] == ReplyView::Judged(Ok((false, diagnostic)))
        },
        StepView::Done(GuardsView::UnsetSlot(m)) => exists|n: int|
            0 <= n < guards.len() && #[trigger] yes_so_far(r, n) && 2 * n < r.len() && (
            r[2 * n] matches ReplyView::Judged(Err(f)) && f.unset_slot && m == f.message),
        StepView::Done(GuardsView::Broken(m)) => exists|n: int|
            0 <= n < guards.len() && #[trigger] yes_so_far(r, n) && 2 * n < r.len() && {
                ||| r[2 * n] matches ReplyView::Judged(Err(f)) && !f.unset_slot && m == f.message
                ||| 2 * n + 1 < r.len() && r[2 * n + 1] == ReplyView::Done(Err(m))
            },
        StepView::Misfit => true,
    }
}

proof fn lemma_guards_from(
    guards: Seq<JsonView>,
    k: int,
    evaluated: Seq<JsonView>,
    i: InstanceView,
    arguments: JsonView,
    who: ActingView,
    r: Seq<ReplyView>,
)
    requires
        0 <= k <= guards.len(),
    ensures
        guards_decide(
            guards.skip(k),
            i,
            arguments,
            who,
            r,
            guards_from(guards, k, evaluated, i, arguments, who, r),
        ),
    decreases guards.len() - k,
{
    let v = guards_from(guards, k, evaluated, i, arguments, who, r);
    let left = guards.skip(k);
    assert(yes_so_far(r, 0));
    if k < guards.len() {
        assert(left[0] == guards[k]);
        if r.len() >= 2 && says_yes(r[0]) && r[1] is Done && r[1]->Done_0 is Ok {
            let s = r.drop_first().drop_first();
            let all = evaluated.push(crate::runtime::guards::guard_note(guards[k], true));
            lemma_guards_from(guards, k + 1, all, i, arguments, who, s);
            let rest = guards.skip(k + 1);
            assert(v == guards_from(guards, k + 1, all, i, arguments, who, s));
            assert forall|n: int| 0 <= n < rest.len() implies rest[n] == left[n + 1] by {}
            match v {
                StepView::Do(EffectView::AskGuard { guard, instance, arguments: a, principal }) => {
                    let n = choose|n: int|
                        0 <= n < rest.len() && #[trigger] yes_so_far(s, n) && s.len() == 2 * n
                            && guard == rest[n] && instance == i && a == arguments && principal
                            == who.principal;
                    lemma_yes_before(r, n);
                    assert(guard == left[n + 1]);
                },
                StepView::Do(e) => {
                    assert(s.last() == r.last());
                },
                StepView::Done(GuardsView::Judged { pass, evaluated: ev, diagnostic }) => {
                    if pass {
                        lemma_yes_before(r, rest.len() as int);
                    } else {
                        let n = choose|n: int|
                            0 <= n < rest.len() && #[trigger] yes_so_far(s, n) && 2 * n + 1 < s.len()
                                && s[2 * n] == ReplyView::Judged(Ok((false, diagnostic)));
                        lemma_yes_before(r, n);
                        assert(r[2 * (n + 1)] == s[2 * n]);
                    }
                },
                StepView::Done(GuardsView::UnsetSlot(m)) => {
                    let n = choose|n: int|
                        0 <= n < rest.len() && #[trigger] yes_so_far(s, n) && 2 * n < s.len() && (
                        s[2 * n] matches ReplyView::Judged(Err(f)) && f.unset_slot && m
                            == f.message);
                    lemma_yes_before(r, n);
                    assert(r[2 * (n + 1)] == s[2 * n]);
                },
                StepView::Done(GuardsView::Broken(m)) => {
                    let n = choose|n: int|
                        0 <= n < rest.len() && #[trigger] yes_so_far(s, n) && 2 * n < s.len() && {
                            ||| s[2 * n] matches ReplyView::Judged(Err(f)) && !f.unset_slot && m
                                == f.message
                            ||| 2 * n + 1 < s.len() && s[2 * n + 1] == ReplyView::Done(Err(m))
                        };
                    lemma_yes_before(r, n);
                    assert(r[2 * (n + 1)] == s[2 * n]);
                    if 2 * n + 1 < s.len() {
                        assert(r[2 * (n + 1) + 1] == s[2 * n + 1]);
                    }
                },
                StepView::Misfit => {},
            }
        }
    }
}

/// The guards of a transition are asked in their order, about the instance and with the arguments
/// of the request. They pass if and only if every one of them said yes; the first that says no, or
/// cannot be asked, ends the questions with what it said.
pub proof fn law_guards_decide(
    t: JsonView,
    i: InstanceView,
    arguments: JsonView,
    who: ActingView,
    r: Seq<ReplyView>,
)
    ensures
        guards_decide(
            declared_guards(t),
            i,
            arguments,
            who,
            r,
            guards_from(guards_of(t), 0, Seq::empty(), i, arguments, who, r),
        ),
{
    lemma_guards_from(guards_of(t), 0, Seq::empty(), i, arguments, who, r);
    assert(guards_of(t).skip(0) =~= declared_guards(t));
}

/// Whether a branch counts: it has a guard and a target.
pub open spec fn counts(branch: JsonView) -> bool {
    branch.get("when"@) is Some && branch.get_str("target"@) is Some
}

/// The number of branches that count among the first ones.
pub open spec fn counted_branches(branches: Seq<JsonView>, n: int) -> int
    decreases n,
{
    if n <= 0 {
        0
    } else if counts(branches[n - 1]) {
        counted_branches(branches, n - 1) + 1
    } else {
        counted_branches(branches, n - 1)
    }
}

/// Whether each branch among the first ones that counts was asked, and said no.
pub open spec fn no_so_far(branches: Seq<JsonView>, r: Seq<ReplyView>, from: int, n: int) -> bool {
    forall|m: int|
        from <= m < n && counts(#[trigger] branches[m]) ==> {
            let at = counted_branches(branches, m) - counted_branches(branches, from);
            0 <= at < r.len() && (r[at] matches ReplyView::Judged(Ok((pass, _))) && !pass)
        }
}

proof fn lemma_counted(branches: Seq<JsonView>, a: int, b: int)
    requires
        0 <= a <= b,
    ensures
        counted_branches(branches, a) <= counted_branches(branches, b),
    decreases b,
{
    if a < b {
        lemma_counted(branches, a, b - 1);
    }
}

/// How a choice among branches stands, by the answers.
pub open spec fn branches_decide(
    branches: Seq<JsonView>,
    from: int,
    declared: Seq<char>,
    i: InstanceView,
    arguments: JsonView,
    who: ActingView,
    r: Seq<ReplyView>,
    v: StepView<Result<Seq<char>, Seq<char>>>,
) -> bool {
    match v {
        StepView::Done(Ok(target)) => {
            ||| target == declared && no_so_far(branches, r, from, branches.len() as int)
            ||| exists|n: int|
                from <= n < branches.len() && #[trigger] no_so_far(branches, r, from, n) && counts(
                    branches[n],
                ) && branches[n].get_str("target"@) == Some(target) && {
                    let at = counted_branches(branches, n) - counted_branches(branches, from);
                    0 <= at < r.len() && says_yes(r[at])
                }
        },
        StepView::Do(e) => {
            ||| e is Audit && r.len() > 0 && says_yes(r.last())
            ||| exists|n: int|
                from <= n < branches.len() && #[trigger] no_so_far(branches, r, from, n) && counts(
                    branches[n],
                ) && asks(e, branches[n].get("when"@)->0, i, arguments, who.principal)
        },
        _ => true,
    }
}

proof fn lemma_branch_from(
    branches: Seq<JsonView>,
    k: int,
    declared: Seq<char>,
    i: InstanceView,
    arguments: JsonView,
    who: ActingView,
    r: Seq<ReplyView>,
)
    requires
        0 <= k <= branches.len(),
    ensures
        branches_decide(
            branches,
            k,
            declared,
            i,
            arguments,
            who,
            r,
            branch_from(branches, k, declared, i, arguments, who, r),
        ),
    decreases branches.len() - k,
{
    let v = branch_from(branches, k, declared, i, arguments, who, r);
    assert(no_so_far(branches, r, k, k));
    if k < branches.len() {
        let skip = !counts(branches[k]);
        let no = counts(branches[k]) && r.len() > 0 && (r[0] matches ReplyView::Judged(Ok((pass, _)))
            && !pass);
        if skip || no {
            let s = if skip {
                r
            } else {
                r.drop_first()
            };
            lemma_branch_from(branches, k + 1, declared, i, arguments, who, s);
            assert(v == branch_from(branches, k + 1, declared, i, arguments, who, s));
            let d: int = if skip {
                0
            } else {
                1
            };
            assert(counted_branches(branches, k + 1) == counted_branches(branches, k) + d);
            assert forall|n: int| k + 1 <= n <= branches.len() && #[trigger] no_so_far(
                branches,
                s,
                k + 1,
                n,
            ) implies no_so_far(branches, r, k, n) by {
                assert forall|m: int| k <= m < n && counts(#[trigger] branches[m]) implies {
                    let at = counted_branches(branches, m) - counted_branches(branches, k);
                    0 <= at < r.len() && (r[at] matches ReplyView::Judged(Ok((pass, _))) && !pass)
                } by {
                    if m > k {
                        let at = counted_branches(branches, m) - counted_branches(branches, k + 1);
                        assert(0 <= at < s.len());
                        assert(s[at] == r[at + d]);
                    }
                }
            }
            assert forall|n: int| k + 1 <= n < branches.len() implies #[trigger] counted_branches(
                branches,
                n,
            ) - counted_branches(branches, k) == counted_branches(branches, n) - counted_branches(
                branches,
                k + 1,
            ) + d by {}
            match v {
                StepView::Done(Ok(target)) => {
                    if !(target == declared && no_so_far(branches, s, k + 1, branches.len() as int)) {
                        let n = choose|n: int|
                            k + 1 <= n < branches.len() && #[trigger] no_so_far(branches, s, k + 1, n)
                                && counts(branches[n]) && branches[n].get_str("target"@) == Some(
                                target,
                            ) && {
                                let at = counted_branches(branches, n) - counted_branches(
                                    branches,
                                    k + 1,
                                );
                                0 <= at < s.len() && says_yes(s[at])
                            };
                        assert(no_so_far(branches, r, k, n));
                        let at = counted_branches(branches, n) - counted_branches(branches, k + 1);
                        assert(s[at] == r[at + d]);
                    }
                },
                StepView::Do(e) => {
                    if e is Audit && s.len() > 0 && says_yes(s.last()) {
                        assert(r.last() == s.last());
                    } else {
                        let n = choose|n: int|
                            k + 1 <= n < branches.len() && #[trigger] no_so_far(branches, s, k + 1, n)
                                && counts(branches[n]) && asks(
                                e,
                                branches[n].get("when"@)->0,
                                i,
                                arguments,
                                who.principal,
                            );
                        assert(no_so_far(branches, r, k, n));
                    }
                },
                _ => {},
            }
        }
    }
}

/// A transition leads to the target of its first branch whose guard says yes, each branch before it
/// having said no; without such a branch it leads to the target that it declares itself.
pub proof fn law_branches_decide(
    t: JsonView,
    i: InstanceView,
    arguments: JsonView,
    who: ActingView,
    r: Seq<ReplyView>,
)
    ensures
        match text_at(t, "/target"@) {
            None => target_of(t, i, arguments, who, r) matches StepView::Done(Err(_)),
            Some(declared) => match t.get("branches"@) {
                Some(JsonView::Array(branches)) => branches_decide(
                    branches,
                    0,
                    declared,
                    i,
                    arguments,
                    who,
                    r,
                    target_of(t, i, arguments, who, r),
                ),
                _ => target_of(t, i, arguments, who, r) == StepView::<
                    Result<Seq<char>, Seq<char>>,
                >::Done(Ok(declared)),
            },
        },
{
    if let Some(declared) = text_at(t, "/target"@) {
        if let Some(branches) = t.get_array("branches"@) {
            lemma_branch_from(branches, 0, declared, i, arguments, who, r);
        }
    }
}

/// The loop of a state asks its own guard. Where the guard says no, or there is no loop, the rounds
/// are forgotten and nothing else changes; where it says yes, one round more is counted, nothing
/// else changes, and the way leads back.
pub proof fn law_loops_go_round(
    definition: JsonView,
    state: Seq<char>,
    i: InstanceView,
    arguments: JsonView,
    who: ActingView,
    r: Seq<ReplyView>,
)
    ensures
        match while_loop(definition, state, i, arguments, who, r) {
            StepView::Do(e) => state_def(definition, state) matches Some(s) && s.get("while"@) matches Some(
                guard,
            ) && {
                ||| r.len() == 0 && asks(e, guard, i, arguments, who.principal)
                ||| r.len() == 1 && says_yes(r[0]) && e is Audit
            },
            StepView::Done(Ok((next, None))) => {
                &&& next == (InstanceView { context: next.context, ..i })
                &&& state_def(definition, state) is None ==> next == i
                &&& state_def(definition, state) matches Some(s) ==> {
                    &&& s.get("while"@) is Some ==> r.len() > 0 && (
                    r[0] matches ReplyView::Judged(Ok((pass, _))) && !pass)
                    &&& next.context == crate::runtime::context::without_member(
                        i.context,
                        "_while_iter."@ + state,
                    )
                }
            },
            StepView::Done(Ok((next, Some(back)))) => {
                &&& back == state
                &&& r.len() > 1 && says_yes(r[0])
                &&& next == (InstanceView { context: next.context, ..i })
                &&& i.context is Object ==> forall|key: Seq<char>|
                    key != "_while_iter."@ + state ==> #[trigger] next.context.get(key)
                        == i.context.get(key)
            },
            _ => true,
        },
{
    broadcast use lemma_reads_put;

    assert(iter_slot(state) == "_while_iter."@ + state);
}

/// Whether the replies between two places are the answers to guards, all of which said yes.
pub open spec fn all_yes(r: Seq<ReplyView>, a: int, b: int, guards: Seq<JsonView>) -> bool {
    &&& 0 <= a && b <= r.len()
    &&& b - a == guards.len()
    &&& forall|k: int| a <= k < b ==> says_yes(#[trigger] r[k])
}

/// Whether the replies between two places are the answers to guards up to one that said no.
pub open spec fn one_no(r: Seq<ReplyView>, a: int, b: int, guards: Seq<JsonView>) -> bool {
    &&& 0 <= a < b <= r.len()
    &&& b - a <= guards.len()
    &&& forall|k: int| a <= k < b - 1 ==> says_yes(#[trigger] r[k])
    &&& says_no(r[b - 1])
}

/// The transition of a link: the one of the state that its `rel` names.
pub open spec fn linked(definition: JsonView, state: Seq<char>, link: JsonView) -> Option<JsonView> {
    match link.get("rel"@) {
        Some(JsonView::Str(rel)) => definition.at(seq!["states"@, state, "transitions"@, rel]),
        _ => None,
    }
}

/// Whether the answers fall into parts, one for each link, in their order: none for a link whose
/// transition the state does not have, else those to the guards of its transition.
pub open spec fn parts(
    all: Seq<JsonView>,
    definition: JsonView,
    state: Seq<char>,
    r: Seq<ReplyView>,
    at: Seq<int>,
) -> bool {
    &&& at.len() == all.len() + 1
    &&& at[0] == 0
    &&& forall|k: int|
        #![trigger all[k]]
        0 <= k < all.len() ==> match linked(definition, state, all[k]) {
            None => at[k + 1] == at[k],
            Some(t) => all_yes(r, at[k], at[k + 1], declared_guards(t)) || one_no(
                r,
                at[k],
                at[k + 1],
                declared_guards(t),
            ),
        }
}

/// Whether a link may be followed, by the answers in its part.
pub open spec fn may_follow(
    definition: JsonView,
    state: Seq<char>,
    link: JsonView,
    r: Seq<ReplyView>,
    a: int,
    b: int,
) -> bool {
    linked(definition, state, link) matches Some(t) && all_yes(r, a, b, declared_guards(t))
}

/// Those of the first links that may be followed, in their order.
pub open spec fn followed(
    all: Seq<JsonView>,
    n: int,
    definition: JsonView,
    state: Seq<char>,
    r: Seq<ReplyView>,
    at: Seq<int>,
) -> Seq<JsonView>
    decreases n,
{
    if n <= 0 {
        Seq::empty()
    } else if may_follow(definition, state, all[n - 1], r, at[n - 1], at[n]) {
        followed(all, n - 1, definition, state, r, at).push(all[n - 1])
    } else {
        followed(all, n - 1, definition, state, r, at)
    }
}

proof fn lemma_linked(definition: JsonView, state: Seq<char>, link: JsonView)
    ensures
        link_transition(definition, state, link) == linked(definition, state, link),
{
    if let Some(JsonView::Str(rel)) = link.get("rel"@) {
        let path = seq!["states"@, state, "transitions"@, rel];
        reveal_with_fuel(JsonView::at, 5);
        assert(path.drop_first() =~= seq![state, "transitions"@, rel]);
        assert(path.drop_first().drop_first() =~= seq!["transitions"@, rel]);
        assert(path.drop_first().drop_first().drop_first() =~= seq![rel]);
        assert(path.drop_first().drop_first().drop_first().drop_first() =~= Seq::empty());
    }
}

proof fn lemma_silent(
    guards: Seq<JsonView>,
    k: int,
    i: InstanceView,
    who: PrincipalView,
    all: Seq<ReplyView>,
    n: int,
    from: int,
)
    requires
        0 <= k <= guards.len(),
        0 <= from,
        n == from + k,
        n <= all.len(),
        forall|m: int| from <= m < n ==> says_yes(#[trigger] all[m]),
    ensures
        match silent_from(guards, k, i, who, all.skip(n)) {
            ArmView::Passed(pass, left) => {
                let b = all.len() - left.len();
                &&& n <= b <= all.len()
                &&& left == all.skip(b)
                &&& pass ==> all_yes(all, from, b, guards)
                &&& !pass ==> one_no(all, from, b, guards)
            },
            ArmView::Ask(e) => exists|m: int|
                0 <= m < guards.len() && asks(
                    e,
                    #[trigger] guards[m],
                    i,
                    JsonView::Object(Seq::empty()),
                    who,
                ),
            _ => true,
        },
    decreases guards.len() - k,
{
    let s = all.skip(n);
    if k < guards.len() && n < all.len() {
        assert(s[0] == all[n]);
        assert(s.drop_first() =~= all.skip(n + 1));
        if says_yes(all[n]) {
            lemma_silent(guards, k + 1, i, who, all, n + 1, from);
        }
    } else if k < guards.len() {
        assert(asks(
            crate::runtime::guards::ask(guards[k], i, crate::runtime::guards::empty_object(), who),
            guards[k],
            i,
            JsonView::Object(Seq::empty()),
            who,
        ));
    }
}

proof fn lemma_sift(
    all: Seq<JsonView>,
    k: int,
    kept: Seq<JsonView>,
    definition: JsonView,
    i: InstanceView,
    who: PrincipalView,
    r: Seq<ReplyView>,
    at: Seq<int>,
) -> (full: Seq<int>)
    requires
        0 <= k <= all.len(),
        at.len() == k + 1,
        parts(all.take(k), definition, i.state, r, at),
        0 <= at[k] <= r.len(),
        kept == followed(all, k, definition, i.state, r, at),
    ensures
        sift_from(all, k, kept, definition, i, who, r.skip(at[k])) matches SiftView::Kept(out, left)
            ==> {
            &&& parts(all, definition, i.state, r, full)
            &&& out == followed(all, all.len() as int, definition, i.state, r, full)
            &&& left == r.skip(full[all.len() as int])
            &&& 0 <= full[all.len() as int] <= r.len()
        },
    decreases all.len() - k,
{
    if k == all.len() {
        assert(all.take(k) =~= all);
        at
    } else {
        lemma_linked(definition, i.state, all[k]);
        let n = at[k];
        match linked(definition, i.state, all[k]) {
            None => {
                let more = at.push(n);
                lemma_parts_more(all, k, definition, i.state, r, at, n);
                lemma_followed_same(all, k, definition, i.state, r, at, more);
                lemma_sift(all, k + 1, kept, definition, i, who, r, more)
            },
            Some(t) => {
                assert(guards_of(t) =~= declared_guards(t));
                lemma_silent(guards_of(t), 0, i, who, r, n, n);
                match silent_from(guards_of(t), 0, i, who, r.skip(n)) {
                    ArmView::Passed(pass, left) => {
                        let b = r.len() - left.len();
                        let more = at.push(b);
                        lemma_parts_more(all, k, definition, i.state, r, at, b);
                        lemma_followed_same(all, k, definition, i.state, r, at, more);
                        let next = if pass {
                            kept.push(all[k])
                        } else {
                            kept
                        };
                        lemma_sift(all, k + 1, next, definition, i, who, r, more)
                    },
                    _ => at,
                }
            },
        }
    }
}

proof fn lemma_parts_more(
    all: Seq<JsonView>,
    k: int,
    definition: JsonView,
    state: Seq<char>,
    r: Seq<ReplyView>,
    at: Seq<int>,
    b: int,
)
    requires
        0 <= k < all.len(),
        at.len() == k + 1,
        parts(all.take(k), definition, state, r, at),
        match linked(definition, state, all[k]) {
            None => b == at[k],
            Some(t) => all_yes(r, at[k], b, declared_guards(t)) || one_no(
                r,
                at[k],
                b,
                declared_guards(t),
            ),
        },
    ensures
        parts(all.take(k + 1), definition, state, r, at.push(b)),
{
    let more = at.push(b);
    let head = all.take(k + 1);
    assert forall|m: int|
        #![trigger head[m]]
        0 <= m < head.len() implies match linked(definition, state, head[m]) {
        None => more[m + 1] == more[m],
        Some(t) => all_yes(r, more[m], more[m + 1], declared_guards(t)) || one_no(
            r,
            more[m],
            more[m + 1],
            declared_guards(t),
        ),
    } by {
        assert(head[m] == all[m]);
        if m < k {
            assert(all.take(k)[m] == all[m]);
        }
    }
}

proof fn lemma_followed_same(
    all: Seq<JsonView>,
    n: int,
    definition: JsonView,
    state: Seq<char>,
    r: Seq<ReplyView>,
    at: Seq<int>,
    more: Seq<int>,
)
    requires
        0 <= n < at.len() <= more.len(),
        forall|m: int| 0 <= m < at.len() ==> at[m] == more[m],
    ensures
        followed(all, n, definition, state, r, at) == followed(all, n, definition, state, r, more),
    decreases n,
{
    if n > 0 {
        lemma_followed_same(all, n - 1, definition, state, r, at, more);
    }
}

/// Where links are sifted by their guards, a link is kept if and only if the state has its
/// transition and every guard of that transition said yes; the kept links stand in their order.
pub proof fn law_links_are_kept_by_their_guards(
    all: Seq<JsonView>,
    definition: JsonView,
    i: InstanceView,
    who: PrincipalView,
    r: Seq<ReplyView>,
)
    ensures
        sift_from(all, 0, Seq::empty(), definition, i, who, r) matches SiftView::Kept(kept, left)
            ==> exists|at: Seq<int>| #[trigger]
            parts(all, definition, i.state, r, at) && kept == followed(
                all,
                all.len() as int,
                definition,
                i.state,
                r,
                at,
            ) && left == r.skip(at[all.len() as int]),
        sifted(all, definition, i, who, r) matches StepView::Done(kept) ==> exists|at: Seq<int>|
            #[trigger] parts(all, definition, i.state, r, at) && kept == followed(
                all,
                all.len() as int,
                definition,
                i.state,
                r,
                at,
            ),
{
    let at = seq![0int];
    assert(r.skip(0) =~= r);
    assert(all.take(0) =~= Seq::empty());
    let full = lemma_sift(all, 0, Seq::empty(), definition, i, who, r, at);
    if sift_from(all, 0, Seq::empty(), definition, i, who, r) is Kept {
        assert(parts(all, definition, i.state, r, full));
    }
}

/// What is asked while links are sifted: a guard of the transition of one of the links, about the
/// instance, without arguments, for the caller.
pub proof fn law_sifting_asks_guards_of_links(
    all: Seq<JsonView>,
    k: int,
    kept: Seq<JsonView>,
    definition: JsonView,
    i: InstanceView,
    who: PrincipalView,
    r: Seq<ReplyView>,
)
    requires
        0 <= k <= all.len(),
    ensures
        sift_from(all, k, kept, definition, i, who, r) matches SiftView::Ask(e) ==> exists|
            n: int,
            m: int,
        |
            #![trigger all[n], declared_guards(linked(definition, i.state, all[n])->0)[m]]
            k <= n < all.len() && linked(definition, i.state, all[n]) is Some && {
                let guards = declared_guards(linked(definition, i.state, all[n])->0);
                0 <= m < guards.len() && asks(
                    e,
                    guards[m],
                    i,
                    JsonView::Object(Seq::empty()),
                    who,
                )
            },
    decreases all.len() - k,
{
    if k < all.len() {
        lemma_linked(definition, i.state, all[k]);
        match linked(definition, i.state, all[k]) {
            None => law_sifting_asks_guards_of_links(all, k + 1, kept, definition, i, who, r),
            Some(t) => {
                assert(guards_of(t) =~= declared_guards(t));
                assert(r.skip(0) =~= r);
                lemma_silent(guards_of(t), 0, i, who, r, 0, 0);
                match silent_from(guards_of(t), 0, i, who, r) {
                    ArmView::Ask(e) => {
                        let m = choose|m: int|
                            0 <= m < guards_of(t).len() && asks(
                                e,
                                #[trigger] guards_of(t)[m],
                                i,
                                JsonView::Object(Seq::empty()),
                                who,
                            );
                        assert(asks(
                            e,
                            declared_guards(linked(definition, i.state, all[k])->0)[m],
                            i,
                            JsonView::Object(Seq::empty()),
                            who,
                        ));
                    },
                    ArmView::Passed(pass, left) => {
                        let next = if pass {
                            kept.push(all[k])
                        } else {
                            kept
                        };
                        law_sifting_asks_guards_of_links(
                            all,
                            k + 1,
                            next,
                            definition,
                            i,
                            who,
                            left,
                        );
                    },
                    _ => {},
                }
            },
        }
    }
}

} // verus!
