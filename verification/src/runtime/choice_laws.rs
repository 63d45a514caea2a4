//! Which transition is taken where nobody submits one: what the runtime fires or drives next, and
//! which of several candidates their guards leave.

use vstd::prelude::*;

use crate::json::{lemma_reads_put, lookup, JsonView, Members};
use crate::model::{ActingView, InstanceView};
use crate::runtime::chain::{
    blocked, blocking, drivable, fired_by_runtime, first_drivable, next_hop, one_hop_more,
    ChainJobView, HopChoice,
};
use crate::runtime::effects::ProgressView;
use crate::runtime::guard_laws::{declared_guards, says_no, says_yes};
use crate::runtime::guards::{
    arm_from, choice, choice_from, decided, guards_of, ArmView, ChosenView,
};
use crate::runtime::lifecycle_laws::{ended, lemma_ended};
use crate::runtime::links::transitions_of;
use crate::runtime::script::{ReplyView, StepView};
use crate::scan::{first_some, lemma_found_at, lemma_found_nowhere};

verus! {

/// Whether the runtime fires a transition itself.
pub open spec fn is_own(e: (Seq<char>, JsonView)) -> bool {
    e.1.get("actor"@) == Some(JsonView::Str("deterministic"@))
}

/// Whether an agent can be asked to take a transition.
pub open spec fn is_for_agents(e: (Seq<char>, JsonView)) -> bool {
    e.1.get("actor"@) == Some(JsonView::Str("agent"@)) && e.0 != "escalate"@
}

/// Whether a transition is somebody's decision, which the runtime must not pass over.
pub open spec fn is_decision(e: (Seq<char>, JsonView), auto: bool) -> bool {
    &&& !is_own(e)
    &&& e.1.get("lightweight"@) != Some(JsonView::Bool(true))
    &&& auto ==> !is_for_agents(e)
}

/// Whether the runtime fires one of the transitions itself.
pub open spec fn some_own(ts: Members) -> bool {
    exists|k: int| 0 <= k < ts.len() && is_own(#[trigger] ts[k])
}

/// Whether an agent can be asked to take one of the transitions.
pub open spec fn some_for_agents(ts: Members) -> bool {
    exists|k: int| 0 <= k < ts.len() && is_for_agents(#[trigger] ts[k])
}

/// Whether one of the transitions is somebody's decision.
pub open spec fn some_decision(ts: Members, auto: bool) -> bool {
    exists|k: int| 0 <= k < ts.len() && is_decision(#[trigger] ts[k], auto)
}

/// The transitions that a state declares.
pub open spec fn declared_transitions(definition: JsonView, state: Seq<char>) -> Option<Members> {
    match definition.at(seq!["states"@, state, "transitions"@]) {
        Some(JsonView::Object(ts)) => Some(ts),
        _ => None,
    }
}

/// The transitions of a state, as the links know them.
pub proof fn lemma_declared_transitions(definition: JsonView, state: Seq<char>)
    ensures
        transitions_of(definition, state) == declared_transitions(definition, state),
{
    let path = seq!["states"@, state, "transitions"@];
    reveal_with_fuel(JsonView::at, 4);
    assert(path.drop_first() =~= seq![state, "transitions"@]);
    assert(path.drop_first().drop_first() =~= seq!["transitions"@]);
    assert(path.drop_first().drop_first().drop_first() =~= Seq::empty());
}

/// Whether a chain has a hop to take from where it stands.
pub open spec fn can_hop(c: ChainJobView, p: ProgressView) -> bool {
    &&& !ended(c.definition, p.instance.state)
    &&& p.steps.len() < c.max_depth
    &&& declared_transitions(c.definition, p.instance.state) matches Some(ts) && if some_own(ts) {
        !some_decision(ts, c.auto.enabled)
    } else {
        c.auto.enabled && some_for_agents(ts)
    }
}

/// Whether a run took all the hops that it may take: as many as the definition allows, else three
/// hundred.
pub open spec fn used_up(definition: JsonView, context: JsonView) -> bool {
    let taken = match context.get_u64("_chain_hops_total"@) {
        Some(n) => n,
        None => 0,
    };
    let allowed = match definition.get_u64("livelockHopBudget"@) {
        Some(n) => n,
        None => 300,
    };
    taken >= allowed
}

proof fn lemma_fired(ts: Members, name: Seq<char>)
    ensures
        lookup(fired_by_runtime(ts), name) matches Some(t) ==> exists|k: int|
            0 <= k < ts.len() && #[trigger] ts[k] == (name, t) && is_own(ts[k]),
        lookup(fired_by_runtime(ts), name) is Some <==> exists|k: int|
            0 <= k < ts.len() && (#[trigger] ts[k]).0 == name && is_own(ts[k]),
        fired_by_runtime(ts).len() > 0 <==> some_own(ts),
    decreases ts.len(),
{
    broadcast use lemma_reads_put;

    if ts.len() > 0 {
        let init = ts.drop_last();
        let n = ts.len() - 1;
        lemma_fired(init, name);
        assert forall|k: int| 0 <= k < init.len() implies init[k] == #[trigger] ts[k] by {}
        assert(ts[n] == ts.last());
        if is_own(ts.last()) {
            let before = fired_by_runtime(init);
            assert(lookup(fired_by_runtime(ts), ts.last().0) == Some(ts.last().1));
            if ts.last().0 != name {
                assert(lookup(fired_by_runtime(ts), name) == lookup(before, name));
            }
        }
        if let Some(t) = lookup(fired_by_runtime(init), name) {
            let k = choose|k: int| 0 <= k < init.len() && #[trigger] init[k] == (name, t) && is_own(
                init[k],
            );
            assert(ts[k] == (name, t));
        }
        if some_own(init) {
            let k = choose|k: int| 0 <= k < init.len() && is_own(#[trigger] init[k]);
            assert(is_own(ts[k]));
        }
        if some_own(ts) {
            let k = choose|k: int| 0 <= k < ts.len() && is_own(#[trigger] ts[k]);
            if k < n {
                assert(is_own(init[k]));
            }
        }
        if exists|k: int| 0 <= k < ts.len() && (#[trigger] ts[k]).0 == name && is_own(ts[k]) {
            let k = choose|k: int|
                0 <= k < ts.len() && (#[trigger] ts[k]).0 == name && is_own(ts[k]);
            if k < n {
                assert(init[k].0 == name && is_own(init[k]));
            }
        }
    }
}

/// Which hop a chain takes next: none from an end, at its depth, or where somebody else decides;
/// first what the runtime fires itself, all of it, else the first transition that an agent can be
/// asked to take, where that is enabled. A run that used up its hops takes none.
pub proof fn law_next_hops(c: ChainJobView, p: ProgressView)
    ensures
        next_hop(c, p) is Rest <==> !can_hop(c, p),
        next_hop(c, p) is Spent <==> can_hop(c, p) && used_up(c.definition, p.instance.context),
        next_hop(c, p) matches HopChoice::Fire(own) ==> {
            &&& declared_transitions(c.definition, p.instance.state) matches Some(ts) && some_own(ts)
                && forall|name: Seq<char>|
                #![trigger lookup(own, name)]
                {
                    &&& lookup(own, name) is Some <==> exists|k: int|
                        0 <= k < ts.len() && (#[trigger] ts[k]).0 == name && is_own(ts[k])
                    &&& lookup(own, name) matches Some(t) ==> exists|k: int|
                        0 <= k < ts.len() && #[trigger] ts[k] == (name, t) && is_own(ts[k])
                }
        },
        next_hop(c, p) matches HopChoice::Drive(name, t) ==> {
            &&& declared_transitions(c.definition, p.instance.state) matches Some(ts) && !some_own(ts)
                && exists|k: int|
                0 <= k < ts.len() && #[trigger] ts[k] == (name, t) && is_for_agents(ts[k])
                    && forall|j: int| 0 <= j < k ==> !is_for_agents(#[trigger] ts[j])
        },
{
    let state = p.instance.state;
    lemma_ended(c.definition, state);
    lemma_declared_transitions(c.definition, state);
    if let Some(ts) = transitions_of(c.definition, state) {
        assert forall|name: Seq<char>| #![trigger lookup(fired_by_runtime(ts), name)]
            {
                &&& lookup(fired_by_runtime(ts), name) is Some <==> exists|k: int|
                    0 <= k < ts.len() && (#[trigger] ts[k]).0 == name && is_own(ts[k])
                &&& lookup(fired_by_runtime(ts), name) matches Some(t) ==> exists|k: int|
                    0 <= k < ts.len() && #[trigger] ts[k] == (name, t) && is_own(ts[k])
            } by {
            lemma_fired(ts, name);
        }
        lemma_fired(ts, Seq::empty());
        assert forall|k: int| 0 <= k < ts.len() implies is_for_agents(#[trigger] ts[k]) == drivable(
            ts[k],
        ) && is_decision(ts[k], c.auto.enabled) == blocking(ts[k], c.auto.enabled) by {}
        assert(blocked(ts, c.auto.enabled) == some_decision(ts, c.auto.enabled)) by {
            if blocked(ts, c.auto.enabled) {
                let k = choose|k: int|
                    0 <= k < ts.len() && blocking(#[trigger] ts[k], c.auto.enabled);
                assert(is_decision(ts[k], c.auto.enabled));
            }
            if some_decision(ts, c.auto.enabled) {
                let k = choose|k: int|
                    0 <= k < ts.len() && is_decision(#[trigger] ts[k], c.auto.enabled);
                assert(blocking(ts[k], c.auto.enabled));
            }
        }
        let found = |k: int|
            if drivable(ts[k]) {
                Some(ts[k])
            } else {
                None
            };
        assert(first_drivable(ts) == first_some(ts.len(), found));
        lemma_found_nowhere(ts.len(), found);
        if first_drivable(ts) is Some {
            let k = lemma_found_at(ts.len(), found);
            assert(is_for_agents(ts[k]));
            assert forall|j: int| 0 <= j < k implies !is_for_agents(#[trigger] ts[j]) by {
                assert(found(j) is None);
            }
        } else {
            assert forall|k: int| 0 <= k < ts.len() implies !is_for_agents(#[trigger] ts[k]) by {
                assert(found(k) is None);
            }
        }
    }
}

/// A hop counts: where the context is an object, the count of the run goes up by one and nothing
/// else changes.
pub proof fn law_a_hop_counts(m: Members, key: Seq<char>)
    ensures
        ({
            let before = JsonView::Object(m);
            let after = one_hop_more(before);
            &&& key != "_chain_hops_total"@ ==> after.get(key) == before.get(key)
            &&& before.get_u64("_chain_hops_total"@) matches Some(n) ==> n < u64::MAX
                ==> after.get_u64("_chain_hops_total"@) == Some((n + 1) as u64)
            &&& before.get_u64("_chain_hops_total"@) is None ==> after.get_u64(
                "_chain_hops_total"@,
            ) == Some(1u64)
        }),
{
    broadcast use lemma_reads_put;

}

/// Whether the `m`th of guards that are each asked and told said yes; the answers start at `a`.
pub open spec fn yes_at(r: Seq<ReplyView>, a: int, m: int) -> bool {
    says_yes(r[a + 2 * m])
}

/// Whether the `m`th of such guards said no.
pub open spec fn no_at(r: Seq<ReplyView>, a: int, m: int) -> bool {
    says_no(r[a + 2 * m])
}

/// Whether the guards of a candidate, each asked and told, all said yes.
pub open spec fn arm_yes(r: Seq<ReplyView>, a: int, b: int, guards: Seq<JsonView>) -> bool {
    &&& 0 <= a && b <= r.len()
    &&& b == a + 2 * guards.len()
    &&& forall|m: int| 0 <= m < guards.len() ==> #[trigger] yes_at(r, a, m)
}

/// Whether the guards of a candidate, each asked and told, said yes up to one that said no.
pub open spec fn arm_no(r: Seq<ReplyView>, a: int, b: int, guards: Seq<JsonView>) -> bool {
    &&& 0 <= a && b <= r.len()
    &&& exists|m: int|
        0 <= m < guards.len() && b == a + 2 * m + 2 && #[trigger] no_at(r, a, m) && forall|j: int|
            0 <= j < m ==> #[trigger] yes_at(r, a, j)
}

/// Whether the answers fall into parts, one for each candidate, in their order.
pub open spec fn arms(cands: Members, n: int, r: Seq<ReplyView>, at: Seq<int>) -> bool {
    &&& at.len() == n + 1
    &&& at[0] == 0
    &&& 0 <= at[n] <= r.len()
    &&& forall|k: int|
        #![trigger cands[k]]
        0 <= k < n ==> {
            let guards = declared_guards(cands[k].1);
            if guards.len() == 0 {
                at[k + 1] == at[k]
            } else {
                arm_yes(r, at[k], at[k + 1], guards) || arm_no(r, at[k], at[k + 1], guards)
            }
        }
}

/// Whether a candidate has guards, all of which said yes.
pub open spec fn is_viable(cands: Members, k: int, r: Seq<ReplyView>, at: Seq<int>) -> bool {
    let guards = declared_guards(cands[k].1);
    guards.len() > 0 && arm_yes(r, at[k], at[k + 1], guards)
}

/// Whether a candidate has no guards.
pub open spec fn is_default(cands: Members, k: int) -> bool {
    declared_guards(cands[k].1).len() == 0
}

/// Whether a candidate is the only viable one.
pub open spec fn only_viable(cands: Members, k: int, r: Seq<ReplyView>, at: Seq<int>) -> bool {
    &&& 0 <= k < cands.len()
    &&& is_viable(cands, k, r, at)
    &&& forall|j: int|
        #![trigger cands[j]]
        0 <= j < cands.len() && is_viable(cands, j, r, at) ==> j == k
}

/// Whether no candidate is viable, and one is the only default.
pub open spec fn only_default(cands: Members, k: int, r: Seq<ReplyView>, at: Seq<int>) -> bool {
    &&& 0 <= k < cands.len()
    &&& is_default(cands, k)
    &&& forall|j: int|
        #![trigger cands[j]]
        0 <= j < cands.len() ==> !is_viable(cands, j, r, at) && (is_default(cands, j) ==> j == k)
}

/// Whether a candidate is the one to take.
pub open spec fn is_taken(cands: Members, k: int, r: Seq<ReplyView>, at: Seq<int>) -> bool {
    only_viable(cands, k, r, at) || only_default(cands, k, r, at)
}

proof fn lemma_arm(
    guards: Seq<JsonView>,
    k: int,
    i: InstanceView,
    who: ActingView,
    all: Seq<ReplyView>,
    a: int,
) -> (b: int)
    requires
        0 <= k <= guards.len(),
        0 <= a,
        a + 2 * k <= all.len(),
        forall|m: int| 0 <= m < k ==> #[trigger] yes_at(all, a, m),
    ensures
        match arm_from(guards, k, i, who, all.skip(a + 2 * k)) {
            ArmView::Passed(pass, left) => {
                &&& a <= b <= all.len()
                &&& left == all.skip(b)
                &&& pass ==> arm_yes(all, a, b, guards)
                &&& !pass ==> arm_no(all, a, b, guards) && !arm_yes(all, a, b, guards)
            },
            ArmView::Fault(why) => exists|m: int|
                0 <= m < all.len() && (#[trigger] all[m] matches ReplyView::Judged(Err(f))
                    && f.message == why),
            _ => true,
        },
    decreases guards.len() - k,
{
    let n = a + 2 * k;
    let s = all.skip(n);
    if k >= guards.len() || n >= all.len() {
        n
    } else {
        assert(s[0] == all[n]);
        let t = s.drop_first();
        if n + 1 < all.len() {
            assert(t[0] == all[n + 1]);
            assert(t.drop_first() =~= all.skip(n + 2));
        }
        if let ReplyView::Judged(Ok((pass, _))) = all[n] {
            if n + 1 < all.len() {
                if pass {
                    assert(yes_at(all, a, k));
                    lemma_arm(guards, k + 1, i, who, all, a)
                } else {
                    assert(no_at(all, a, k));
                    assert(!yes_at(all, a, k));
                    n + 2
                }
            } else {
                n
            }
        } else {
            n
        }
    }
}

/// Whether places list, in order, the candidates below `n` that have a property.
pub open spec fn picks(places: Seq<int>, n: int, has: spec_fn(int) -> bool) -> bool {
    &&& forall|x: int|
        #![trigger places[x]]
        0 <= x < places.len() ==> 0 <= places[x] < n && has(places[x])
    &&& forall|x: int, y: int|
        #![trigger places[x], places[y]]
        0 <= x < y < places.len() ==> places[x] < places[y]
    &&& forall|k: int| 0 <= k < n && #[trigger] has(k) ==> places.contains(k)
}

proof fn lemma_pick_more(places: Seq<int>, n: int, has: spec_fn(int) -> bool, more: spec_fn(int) -> bool)
    requires
        picks(places, n, has),
        0 <= n,
        forall|k: int| 0 <= k < n ==> (#[trigger] more(k) <==> has(k)),
    ensures
        picks(
            if more(n) {
                places.push(n)
            } else {
                places
            },
            n + 1,
            more,
        ),
{
    let next = if more(n) {
        places.push(n)
    } else {
        places
    };
    assert forall|x: int| #![trigger next[x]] 0 <= x < next.len() implies 0 <= next[x] < n + 1 && more(
        next[x],
    ) by {
        if x < places.len() {
            assert(next[x] == places[x]);
            assert(has(places[x]));
        }
    }
    assert forall|x: int, y: int|
        #![trigger next[x], next[y]]
        0 <= x < y < next.len() implies next[x] < next[y] by {
        assert(next[x] == places[x]);
        if y < places.len() {
            assert(next[y] == places[y]);
        }
    }
    assert forall|k: int| 0 <= k < n + 1 && #[trigger] more(k) implies next.contains(k) by {
        if k < n {
            assert(has(k));
            let x = choose|x: int| 0 <= x < places.len() && places[x] == k;
            assert(next[x] == k);
        } else {
            assert(next[places.len() as int] == k);
        }
    }
}

/// What a choice with places for the viable candidates and the defaults comes to.
proof fn lemma_choice(
    cands: Members,
    k: int,
    viable: Members,
    defaults: Members,
    i: InstanceView,
    who: ActingView,
    r: Seq<ReplyView>,
    at: Seq<int>,
    vs: Seq<int>,
    ds: Seq<int>,
) -> (full: Seq<int>)
    requires
        0 <= k <= cands.len(),
        arms(cands, k, r, at),
        picks(vs, k, |x: int| is_viable(cands, x, r, at)),
        picks(ds, k, |x: int| is_default(cands, x)),
        viable == vs.map_values(|x: int| cands[x]),
        defaults == ds.map_values(|x: int| cands[x]),
    ensures
        choice_from(cands, k, viable, defaults, i, who, r.skip(at[k])) matches StepView::Done(res) ==> {
            ||| (res matches Err(why) && exists|m: int|
                0 <= m < r.len() && (#[trigger] r[m] matches ReplyView::Judged(Err(f)) && f.message
                    == why))
            ||| (arms(cands, cands.len() as int, r, full) && match res {
                Ok(x) => exists|n: int|
                    #![trigger cands[n]]
                    is_taken(cands, n, r, full) && x == cands[n],
                Err(_) => forall|n: int| #![trigger cands[n]] !is_taken(cands, n, r, full),
            })
        },
    decreases cands.len() - k,
{
    if k >= cands.len() {
        lemma_decided(cands, viable, defaults, i.state, r, at, vs, ds);
        at
    } else {
        let guards = guards_of(cands[k].1);
        assert(guards =~= declared_guards(cands[k].1));
        if guards.len() == 0 {
            let next = at.push(at[k]);
            assert(next.drop_last() =~= at);
            lemma_more(cands, k, r, at, next, vs, ds);
            assert(defaults.push(cands[k]) =~= ds.push(k).map_values(|x: int| cands[x]));
            lemma_choice(cands, k + 1, viable, defaults.push(cands[k]), i, who, r, next, vs, ds.push(k))
        } else {
            let b = lemma_arm(guards, 0, i, who, r, at[k]);
            match arm_from(guards, 0, i, who, r.skip(at[k])) {
                ArmView::Passed(pass, left) => {
                    let next = at.push(b);
                    assert(next.drop_last() =~= at);
                    lemma_more(cands, k, r, at, next, vs, ds);
                    if pass {
                        assert(viable.push(cands[k]) =~= vs.push(k).map_values(|x: int| cands[x]));
                        lemma_choice(
                            cands,
                            k + 1,
                            viable.push(cands[k]),
                            defaults,
                            i,
                            who,
                            r,
                            next,
                            vs.push(k),
                            ds,
                        )
                    } else {
                        lemma_choice(cands, k + 1, viable, defaults, i, who, r, next, vs, ds)
                    }
                },
                _ => at,
            }
        }
    }
}

proof fn lemma_more(
    cands: Members,
    k: int,
    r: Seq<ReplyView>,
    at: Seq<int>,
    next: Seq<int>,
    vs: Seq<int>,
    ds: Seq<int>,
)
    requires
        0 <= k < cands.len(),
        arms(cands, k, r, at),
        next.len() == k + 2,
        next.drop_last() == at,
        at[k] <= next[k + 1] <= r.len(),
        if declared_guards(cands[k].1).len() == 0 {
            next[k + 1] == at[k]
        } else {
            arm_yes(r, at[k], next[k + 1], declared_guards(cands[k].1)) || arm_no(
                r,
                at[k],
                next[k + 1],
                declared_guards(cands[k].1),
            )
        },
        picks(vs, k, |x: int| is_viable(cands, x, r, at)),
        picks(ds, k, |x: int| is_default(cands, x)),
    ensures
        arms(cands, k + 1, r, next),
        picks(
            if is_viable(cands, k, r, next) {
                vs.push(k)
            } else {
                vs
            },
            k + 1,
            |x: int| is_viable(cands, x, r, next),
        ),
        picks(
            if is_default(cands, k) {
                ds.push(k)
            } else {
                ds
            },
            k + 1,
            |x: int| is_default(cands, x),
        ),
{
    assert forall|x: int| 0 <= x <= k implies next[x] == #[trigger] at[x] by {
        assert(next.drop_last()[x] == next[x]);
    }
    assert forall|x: int| #![trigger cands[x]] 0 <= x < k + 1 implies {
        let guards = declared_guards(cands[x].1);
        if guards.len() == 0 {
            next[x + 1] == next[x]
        } else {
            arm_yes(r, next[x], next[x + 1], guards) || arm_no(r, next[x], next[x + 1], guards)
        }
    } by {
        assert(next[x] == at[x]);
        if x < k {
            assert(next[x + 1] == at[x + 1]);
        }
    }
    let has = |x: int| is_viable(cands, x, r, at);
    let more = |x: int| is_viable(cands, x, r, next);
    assert forall|x: int| 0 <= x < k implies (#[trigger] more(x) <==> has(x)) by {
        assert(next[x] == at[x]);
        assert(next[x + 1] == at[x + 1]);
    }
    lemma_pick_more(vs, k, has, more);
    let d = |x: int| is_default(cands, x);
    lemma_pick_more(ds, k, d, d);
}

proof fn lemma_decided(
    cands: Members,
    viable: Members,
    defaults: Members,
    state: Seq<char>,
    r: Seq<ReplyView>,
    at: Seq<int>,
    vs: Seq<int>,
    ds: Seq<int>,
)
    requires
        arms(cands, cands.len() as int, r, at),
        picks(vs, cands.len() as int, |x: int| is_viable(cands, x, r, at)),
        picks(ds, cands.len() as int, |x: int| is_default(cands, x)),
        viable == vs.map_values(|x: int| cands[x]),
        defaults == ds.map_values(|x: int| cands[x]),
    ensures
        match decided(state, cands.len(), viable, defaults) {
            Ok(x) => exists|n: int|
                #![trigger cands[n]]
                is_taken(cands, n, r, at) && x == cands[n],
            Err(_) => forall|n: int| #![trigger cands[n]] !is_taken(cands, n, r, at),
        },
{
    let v = |x: int| is_viable(cands, x, r, at);
    let d = |x: int| is_default(cands, x);
    assert forall|j: int| #![trigger cands[j]] 0 <= j < cands.len() && is_viable(cands, j, r, at) implies
        vs.contains(j) by {
        assert(v(j));
    }
    assert forall|j: int| #![trigger cands[j]] 0 <= j < cands.len() && is_default(cands, j) implies
        ds.contains(j) by {
        assert(d(j));
    }
    if vs.len() > 0 {
        let n = vs[0];
        assert(v(n));
        assert(viable[0] == cands[n]);
        if vs.len() == 1 {
            assert(only_viable(cands, n, r, at));
        } else {
            let o = vs[1];
            assert(v(o));
            assert(n < o);
            assert forall|m: int| #![trigger cands[m]] !is_taken(cands, m, r, at) by {
                let a = cands[n];
                let b = cands[o];
            }
        }
    } else {
        if ds.len() == 1 {
            let n = ds[0];
            assert(d(n));
            assert(defaults[0] == cands[n]);
            assert(only_default(cands, n, r, at));
        } else if ds.len() > 1 {
            let n = ds[0];
            let o = ds[1];
            assert(d(n) && d(o));
            assert(n < o);
            assert forall|m: int| #![trigger cands[m]] !is_taken(cands, m, r, at) by {
                let a = cands[n];
                let b = cands[o];
            }
        }
    }
}

/// Which of several candidates is taken: the only one there is; else the only one whose guards all
/// said yes; else, where no guards did, the only one without guards. Where that leaves none or more
/// than one, none is taken.
pub proof fn law_choices_follow_the_guards(
    cands: Members,
    i: InstanceView,
    who: ActingView,
    r: Seq<ReplyView>,
)
    ensures
        cands.len() == 1 ==> choice(cands, i, who, r) == StepView::<ChosenView>::Done(Ok(cands[0])),
        cands.len() != 1 ==> (choice(cands, i, who, r) matches StepView::Done(res) ==> {
            ||| (res matches Err(why) && exists|m: int|
                0 <= m < r.len() && (#[trigger] r[m] matches ReplyView::Judged(Err(f)) && f.message
                    == why))
            ||| exists|at: Seq<int>| #[trigger]
                arms(cands, cands.len() as int, r, at) && match res {
                    Ok(x) => exists|n: int|
                        #![trigger cands[n]]
                        is_taken(cands, n, r, at) && x == cands[n],
                    Err(_) => forall|n: int| #![trigger cands[n]] !is_taken(cands, n, r, at),
                }
        }),
{
    if cands.len() != 1 {
        let at = seq![0int];
        assert(r.skip(0) =~= r);
        let none = Seq::<int>::empty();
        assert(none.map_values(|x: int| cands[x]) =~= Seq::empty());
        let full = lemma_choice(
            cands,
            0,
            Seq::empty(),
            Seq::empty(),
            i,
            who,
            r,
            at,
            none,
            none,
        );
    }
}

} // verus!
