//! The steps of a chain form a path: each one starts where the one before it ended, at a version
//! above it.

use vstd::prelude::*;

use crate::json::{JsonView, Members};
use crate::model::InstanceView;
use crate::runtime::chain::{
    after_hop, chain, due_def, hop, hop_answered, hop_asking, hop_begun, hop_cleared,
    hop_committing, hop_driving, hop_entered, hop_firing, hop_freeing, hop_judged, hop_leading,
    hop_leaving, hop_locking, hop_plain, hop_produced, hop_running, hop_stored, hop_written,
    needed_files, next_hop, ChainJobView, ChainView, DueView, FireView, HopChoice, HopWorkView, TurnView, WorkEnd,
};
use crate::runtime::chain_laws::lemma_hop_prefix;
use crate::runtime::context::{advanced, given_up};
use crate::runtime::effects::{HopView, OutcomeView, ProgressView, ResultView};
use crate::runtime::lifecycle::{on_enter, FoundView};
use crate::runtime::records::{all_checks, slot_violation};
use crate::runtime::script::{can_grow, sound_reply, EffectView, ReplyView, StepView};

verus! {

/// Whether a later instance is in the state of an earlier one, at its version or above.
pub open spec fn keeps_place(i: InstanceView, later: InstanceView) -> bool {
    later.state == i.state && i.version <= later.version
}

/// Whether a reply to what a chain asks for keeps the place of the instance that it was asked
/// with: a store, and the work on entry, hand back an instance in the same state, at the same
/// version or above.
pub open spec fn place_kept(v: ChainView, x: ReplyView) -> bool {
    match (v, x) {
        (
            ChainView::Do(EffectView::Save { instance, .. }),
            ReplyView::Instance(Ok(i)),
        ) => keeps_place(instance, i),
        (
            ChainView::Do(EffectView::OnEnter { instance, .. }),
            ReplyView::Instance(Ok(i)),
        ) => keeps_place(instance, i),
        _ => true,
    }
}

/// Whether all replies of a chain keep the place of the instances, and can be moved on from.
pub open spec fn places_kept(c: ChainJobView, p: ProgressView, r: Seq<ReplyView>) -> bool {
    forall|k: int|
        0 <= k < r.len() ==> sound_reply(r[k]) && place_kept(
            #[trigger] chain(c, p, r.take(k)),
            r[k],
        )
}

/// The state and the version at which a walk stands after some of its steps.
pub open spec fn stands(i: InstanceView, steps: Seq<HopView>, k: int) -> (Seq<char>, u64) {
    if k == 0 {
        (i.state, i.version)
    } else {
        (steps[k - 1].to_state, steps[k - 1].version)
    }
}

/// Whether a step of a walk starts where the walk stood, and commits a version above it.
pub open spec fn follows(i: InstanceView, steps: Seq<HopView>, k: int) -> bool {
    &&& steps[k].from_state == stands(i, steps, k).0
    &&& stands(i, steps, k).1 < steps[k].version
}

/// Whether steps lead from one instance to another: each starts in the state that the one before
/// it led to, at a version above it.
pub open spec fn is_path(i: InstanceView, steps: Seq<HopView>, end: InstanceView) -> bool {
    &&& forall|k: int| 0 <= k < steps.len() ==> #[trigger] follows(i, steps, k)
    &&& end.state == stands(i, steps, steps.len() as int).0
    &&& stands(i, steps, steps.len() as int).1 <= end.version
}

/// What a chain left behind: the instance, and the steps it took.
pub open spec fn left_by(o: OutcomeView) -> ProgressView {
    match o {
        OutcomeView::Completed(p) => p,
        OutcomeView::Failed { partial, .. } => partial,
        OutcomeView::Suspended { partial, .. } => partial,
        OutcomeView::WaitingOnLock { partial, .. } => partial,
        OutcomeView::Quarantined { partial, .. } => partial,
    }
}

/// A part of a hop, by the replies that it gets.
type Part = spec_fn(Seq<ReplyView>) -> TurnView;

/// Whether all replies to a part of a hop keep the place of the instances.
spec fn heeded(f: Part, r: Seq<ReplyView>) -> bool {
    forall|k: int| 0 <= k < r.len() ==> answers(#[trigger] f(r.take(k)), r[k])
}

spec fn answers(t: TurnView, x: ReplyView) -> bool {
    sound_reply(x) && (t matches TurnView::Stop(v) ==> place_kept(v, x))
}

/// Whether nothing was stepped, and the instance stands where it stood.
spec fn rests(p: ProgressView, q: ProgressView) -> bool {
    q.steps == p.steps && keeps_place(p.instance, q.instance) && can_grow(q.instance)
}

/// Whether one step was taken, from where the instance stood to where it now stands.
spec fn steps_on(p: ProgressView, q: ProgressView) -> bool {
    &&& q.steps.len() == p.steps.len() + 1
    &&& q.steps.drop_last() == p.steps
    &&& q.steps.last().from_state == p.instance.state
    &&& q.steps.last().to_state == q.instance.state
    &&& p.instance.version < q.steps.last().version <= q.instance.version
    &&& can_grow(q.instance)
}

/// Whether a part of a hop stays, or takes one step; where the chain goes on, it took one.
spec fn walks(p: ProgressView, t: TurnView) -> bool {
    match t {
        TurnView::Stop(ChainView::Done(Ok(o))) => rests(p, left_by(o)) || steps_on(p, left_by(o)),
        TurnView::Stop(_) => true,
        TurnView::Advance(q, s) => steps_on(p, q),
    }
}

/// Whether a part of a hop stays where it is.
spec fn lingers(p: ProgressView, t: TurnView) -> bool {
    match t {
        TurnView::Stop(ChainView::Done(Ok(o))) => rests(p, left_by(o)),
        TurnView::Stop(_) => true,
        TurnView::Advance(q, s) => rests(p, q),
    }
}

proof fn lemma_same(f: Part, g: Part, r: Seq<ReplyView>)
    requires
        heeded(f, r),
        forall|x: Seq<ReplyView>| #[trigger] f(x) == g(x),
    ensures
        heeded(g, r),
{
    assert forall|k: int| 0 <= k < r.len() implies answers(#[trigger] g(r.take(k)), r[k]) by {
        assert(answers(f(r.take(k)), r[k]));
    }
}

proof fn lemma_after(f: Part, g: Part, r: Seq<ReplyView>)
    requires
        heeded(f, r),
        r.len() > 0,
        forall|x: Seq<ReplyView>|
            x.len() > 0 && x[0] == r[0] ==> #[trigger] f(x) == g(x.drop_first()),
    ensures
        heeded(g, r.drop_first()),
{
    let s = r.drop_first();
    assert forall|k: int| 0 <= k < s.len() implies answers(#[trigger] g(s.take(k)), s[k]) by {
        let x = r.take(k + 1);
        assert(answers(f(x), r[k + 1]));
        assert(x.drop_first() =~= s.take(k));
    }
}

proof fn lemma_after_two(f: Part, g: Part, r: Seq<ReplyView>)
    requires
        heeded(f, r),
        r.len() > 1,
        forall|x: Seq<ReplyView>|
            x.len() > 1 && x[0] == r[0] && x[1] == r[1] ==> #[trigger] f(x) == g(
                x.drop_first().drop_first(),
            ),
    ensures
        heeded(g, r.drop_first().drop_first()),
{
    let s = r.drop_first().drop_first();
    assert forall|k: int| 0 <= k < s.len() implies answers(#[trigger] g(s.take(k)), s[k]) by {
        let x = r.take(k + 2);
        assert(answers(f(x), r[k + 2]));
        assert(x.drop_first().drop_first() =~= s.take(k));
    }
}

proof fn lemma_after_three(f: Part, g: Part, r: Seq<ReplyView>)
    requires
        heeded(f, r),
        r.len() > 2,
        forall|x: Seq<ReplyView>|
            x.len() > 2 && x[0] == r[0] && x[1] == r[1] && x[2] == r[2] ==> #[trigger] f(x) == g(
                x.drop_first().drop_first().drop_first(),
            ),
    ensures
        heeded(g, r.drop_first().drop_first().drop_first()),
{
    let s = r.drop_first().drop_first().drop_first();
    assert forall|k: int| 0 <= k < s.len() implies answers(#[trigger] g(s.take(k)), s[k]) by {
        let x = r.take(k + 3);
        assert(answers(f(x), r[k + 3]));
        assert(x.drop_first().drop_first().drop_first() =~= s.take(k));
    }
}

proof fn lemma_entered(c: ChainJobView, p: ProgressView, r: Seq<ReplyView>)
    requires
        can_grow(p.instance),
    ensures
        lingers(p, hop_entered(c, p, r)),
{
}

proof fn lemma_stored(c: ChainJobView, p: ProgressView, h: FireView, r: Seq<ReplyView>)
    requires
        can_grow(p.instance),
        heeded(|x: Seq<ReplyView>| hop_stored(c, p, h, x), r),
    ensures
        lingers(p, hop_stored(c, p, h, r)),
{
    let f = |x: Seq<ReplyView>| hop_stored(c, p, h, x);
    if r.len() > 1 {
        if let ReplyView::Instance(Ok(i)) = r[1] {
            assert(answers(f(r.take(1)), r[1]));
            lemma_entered(c, ProgressView { instance: i, ..p }, r.drop_first().drop_first());
        }
    }
}

proof fn lemma_committing(
    c: ChainJobView,
    p: ProgressView,
    h: FireView,
    w: HopWorkView,
    target: Seq<char>,
    r: Seq<ReplyView>,
)
    requires
        can_grow(p.instance),
        heeded(|x: Seq<ReplyView>| hop_committing(c, p, h, w, target, x), r),
    ensures
        walks(p, hop_committing(c, p, h, w, target, r)),
{
    let f = |x: Seq<ReplyView>| hop_committing(c, p, h, w, target, x);
    if r.len() > 1 {
        match (r[0], r[1]) {
            (ReplyView::Done(Ok(_)), ReplyView::Instance(Ok(saved))) => {
                assert(answers(f(r.take(1)), r[1]));
                let q = after_hop(p, h, w, target, saved);
                let g = |x: Seq<ReplyView>| hop_stored(c, q, h, x);
                assert(q.steps.drop_last() =~= p.steps);
                if c.evidence {
                    if r.len() > 2 && r[2] is Done {
                        lemma_after_three(f, g, r);
                        lemma_stored(c, q, h, r.drop_first().drop_first().drop_first());
                    }
                } else {
                    lemma_after_two(f, g, r);
                    lemma_stored(c, q, h, r.drop_first().drop_first());
                }
            },
            _ => {},
        }
    }
}

proof fn lemma_leaving(
    c: ChainJobView,
    p: ProgressView,
    h: FireView,
    w: HopWorkView,
    target: Seq<char>,
    r: Seq<ReplyView>,
)
    requires
        can_grow(p.instance),
        heeded(|x: Seq<ReplyView>| hop_leaving(c, p, h, w, target, x), r),
    ensures
        walks(p, hop_leaving(c, p, h, w, target, r)),
{
    let f = |x: Seq<ReplyView>| hop_leaving(c, p, h, w, target, x);
    let gone = given_up(c.definition, p.instance.state, target, w.context);
    if gone.len() == 0 {
        let g = |x: Seq<ReplyView>| hop_committing(c, p, h, w, target, x);
        lemma_same(f, g, r);
        lemma_committing(c, p, h, w, target, r);
    } else if r.len() > 0 && r[0] is Done {
        let g = |x: Seq<ReplyView>| hop_committing(c, p, h, w, target, x);
        lemma_after(f, g, r);
        lemma_committing(c, p, h, w, target, r.drop_first());
    }
}

proof fn lemma_leading(
    c: ChainJobView,
    p: ProgressView,
    h: FireView,
    w: HopWorkView,
    r: Seq<ReplyView>,
)
    requires
        can_grow(p.instance),
        heeded(|x: Seq<ReplyView>| hop_leading(c, p, h, w, x), r),
    ensures
        walks(p, hop_leading(c, p, h, w, r)),
{
    let f = |x: Seq<ReplyView>| hop_leading(c, p, h, w, x);
    if r.len() > 0 {
        if let ReplyView::Target(Ok(target)) = r[0] {
            let g = |x: Seq<ReplyView>| hop_leaving(c, p, h, w, target, x);
            lemma_after(f, g, r);
            lemma_leaving(c, p, h, w, target, r.drop_first());
        }
    }
}

proof fn lemma_written(
    c: ChainJobView,
    p: ProgressView,
    h: FireView,
    w: HopWorkView,
    r: Seq<ReplyView>,
)
    requires
        can_grow(p.instance),
        heeded(|x: Seq<ReplyView>| hop_written(c, p, h, w, x), r),
    ensures
        walks(p, hop_written(c, p, h, w, r)),
{
    let f = |x: Seq<ReplyView>| hop_written(c, p, h, w, x);
    let checks = all_checks(c.definition, h.transition_def.get("output"@), w.context);
    if r.len() > 0 {
        if let ReplyView::Verdicts(v) = r[0] {
            if v.len() == checks.len() && slot_violation(checks, v) is None {
                let g = |x: Seq<ReplyView>| hop_leading(c, p, h, w, x);
                lemma_after(f, g, r);
                lemma_leading(c, p, h, w, r.drop_first());
            }
        }
    }
}

proof fn lemma_plain(
    c: ChainJobView,
    p: ProgressView,
    h: FireView,
    r: Seq<ReplyView>,
)
    requires
        can_grow(p.instance),
        heeded(|x: Seq<ReplyView>| hop_plain(c, p, h, x), r),
    ensures
        walks(p, hop_plain(c, p, h, r)),
{
    let f = |x: Seq<ReplyView>| hop_plain(c, p, h, x);
    if r.len() > 0 {
        if let ReplyView::Merged(Ok(context)) = r[0] {
            let w = HopWorkView {
                context,
                evidence: p.evidence,
                child_workflow_id: None,
                executor: None,
            };
            let g = |x: Seq<ReplyView>| hop_written(c, p, h, w, x);
            lemma_after(f, g, r);
            lemma_written(c, p, h, w, r.drop_first());
        }
    }
}

proof fn lemma_produced(
    c: ChainJobView,
    p: ProgressView,
    h: FireView,
    res: ResultView,
    elapsed_ms: u64,
    r: Seq<ReplyView>,
)
    requires
        can_grow(p.instance),
        heeded(|x: Seq<ReplyView>| hop_produced(c, p, h, res, elapsed_ms, x), r),
    ensures
        walks(p, hop_produced(c, p, h, res, elapsed_ms, r)),
{
    let f = |x: Seq<ReplyView>| hop_produced(c, p, h, res, elapsed_ms, x);
    if res.suspend is None && res.next_transition is None && r.len() > 0 {
        if let ReplyView::Merged(Ok(context)) = r[0] {
            let w = HopWorkView {
                context: advanced(context, h.name),
                evidence: p.evidence + res.evidence,
                child_workflow_id: res.child_workflow_id,
                executor: Some((true, elapsed_ms)),
            };
            let g = |x: Seq<ReplyView>| hop_written(c, p, h, w, x);
            lemma_after(f, g, r);
            lemma_written(c, p, h, w, r.drop_first());
        }
    }
}

proof fn lemma_judged(
    c: ChainJobView,
    p: ProgressView,
    end: WorkEnd,
    r: Seq<ReplyView>,
)
    requires
        can_grow(p.instance),
        heeded(|x: Seq<ReplyView>| hop_judged(c, p, end, x), r),
    ensures
        walks(p, hop_judged(c, p, end, r)),
{
    let f = |x: Seq<ReplyView>| hop_judged(c, p, end, x);
    match end {
        WorkEnd::Ran(h, res, elapsed_ms) => {
            let g = |x: Seq<ReplyView>| hop_produced(c, p, h, res, elapsed_ms, x);
            lemma_same(f, g, r);
            lemma_produced(c, p, h, res, elapsed_ms, r);
        },
        _ => {},
    }
}

proof fn lemma_freeing(
    c: ChainJobView,
    p: ProgressView,
    files: Seq<Seq<char>>,
    end: WorkEnd,
    r: Seq<ReplyView>,
)
    requires
        can_grow(p.instance),
        heeded(|x: Seq<ReplyView>| hop_freeing(c, p, files, end, x), r),
    ensures
        walks(p, hop_freeing(c, p, files, end, r)),
{
    let f = |x: Seq<ReplyView>| hop_freeing(c, p, files, end, x);
    if files.len() == 0 {
        let g = |x: Seq<ReplyView>| hop_judged(c, p, end, x);
        lemma_same(f, g, r);
        lemma_judged(c, p, end, r);
    } else if r.len() > 2 && r[0] is Done && r[1] is Done && r[2] is Done {
        let g = |x: Seq<ReplyView>| hop_judged(c, p, end, x);
        lemma_after_three(f, g, r);
        lemma_judged(c, p, end, r.drop_first().drop_first().drop_first());
    }
}

proof fn lemma_running(
    c: ChainJobView,
    p: ProgressView,
    h: FireView,
    files: Seq<Seq<char>>,
    config: JsonView,
    r: Seq<ReplyView>,
)
    requires
        can_grow(p.instance),
        heeded(|x: Seq<ReplyView>| hop_running(c, p, h, files, config, x), r),
    ensures
        walks(p, hop_running(c, p, h, files, config, r)),
{
    let f = |x: Seq<ReplyView>| hop_running(c, p, h, files, config, x);
    if r.len() > 0 {
        match r[0] {
            ReplyView::Done(Err(e)) => {
                let end = WorkEnd::Broken(e);
                let g = |x: Seq<ReplyView>| hop_freeing(c, p, files, end, x);
                lemma_after(f, g, r);
                lemma_freeing(c, p, files, end, r.drop_first());
            },
            ReplyView::Done(Ok(_)) => if r.len() > 1 {
                match r[1] {
                    ReplyView::Executed { result: Ok(res), elapsed_ms } => {
                        let end = WorkEnd::Ran(h, res, elapsed_ms);
                        let g = |x: Seq<ReplyView>| hop_freeing(c, p, files, end, x);
                        lemma_after_two(f, g, r);
                        lemma_freeing(c, p, files, end, r.drop_first().drop_first());
                    },
                    ReplyView::Executed { result: Err(err), elapsed_ms } => {
                        let end = WorkEnd::Failed(h.name, err);
                        let g = |x: Seq<ReplyView>| hop_freeing(c, p, files, end, x);
                        lemma_after_two(f, g, r);
                        lemma_freeing(c, p, files, end, r.drop_first().drop_first());
                    },
                    _ => {},
                }
            },
            _ => {},
        }
    }
}

proof fn lemma_begun(
    c: ChainJobView,
    p: ProgressView,
    h: FireView,
    files: Seq<Seq<char>>,
    r: Seq<ReplyView>,
)
    requires
        can_grow(p.instance),
        heeded(|x: Seq<ReplyView>| hop_begun(c, p, h, files, x), r),
    ensures
        walks(p, hop_begun(c, p, h, files, r)),
{
    reveal(hop_begun);
    let f = |x: Seq<ReplyView>| hop_begun(c, p, h, files, x);
    if r.len() > 0 && r[0] is Done {
        match h.transition_def.get("executor"@) {
            None => {
                let g = |x: Seq<ReplyView>| hop_plain(c, p, h, x);
                lemma_after(f, g, r);
                lemma_plain(c, p, h, r.drop_first());
            },
            Some(config) => {
                let g = |x: Seq<ReplyView>| hop_running(c, p, h, files, config, x);
                lemma_after(f, g, r);
                lemma_running(c, p, h, files, config, r.drop_first());
            },
        }
    }
}

proof fn lemma_answered(
    c: ChainJobView,
    p: ProgressView,
    name: Seq<char>,
    t: JsonView,
    files: Seq<Seq<char>>,
    res: ResultView,
    elapsed_ms: u64,
    r: Seq<ReplyView>,
)
    requires
        can_grow(p.instance),
        heeded(|x: Seq<ReplyView>| hop_answered(c, p, name, t, files, res, elapsed_ms, x), r),
    ensures
        walks(p, hop_answered(c, p, name, t, files, res, elapsed_ms, r)),
{
    let f = |x: Seq<ReplyView>| hop_answered(c, p, name, t, files, res, elapsed_ms, x);
    if r.len() > 0 && r[0] is Done {
        let h = FireView { name, transition_def: t, arguments: res.output, driven: true };
        let g = |x: Seq<ReplyView>| hop_begun(c, p, h, files, x);
        lemma_after(f, g, r);
        lemma_begun(c, p, h, files, r.drop_first());
    }
}

proof fn lemma_asking(
    c: ChainJobView,
    p: ProgressView,
    name: Seq<char>,
    t: JsonView,
    files: Seq<Seq<char>>,
    r: Seq<ReplyView>,
)
    requires
        can_grow(p.instance),
        heeded(|x: Seq<ReplyView>| hop_asking(c, p, name, t, files, x), r),
    ensures
        walks(p, hop_asking(c, p, name, t, files, r)),
{
    let f = |x: Seq<ReplyView>| hop_asking(c, p, name, t, files, x);
    if r.len() > 0 {
        match r[0] {
            ReplyView::Executed { result: Err(err), elapsed_ms } => {
                let end = WorkEnd::Failed(name, err);
                let g = |x: Seq<ReplyView>| hop_freeing(c, p, files, end, x);
                lemma_after(f, g, r);
                lemma_freeing(c, p, files, end, r.drop_first());
            },
            ReplyView::Executed { result: Ok(res), elapsed_ms } => {
                let g = |x: Seq<ReplyView>| hop_answered(c, p, name, t, files, res, elapsed_ms, x);
                lemma_after(f, g, r);
                lemma_answered(c, p, name, t, files, res, elapsed_ms, r.drop_first());
            },
            _ => {},
        }
    }
}

proof fn lemma_driving(
    c: ChainJobView,
    p: ProgressView,
    name: Seq<char>,
    t: JsonView,
    files: Seq<Seq<char>>,
    r: Seq<ReplyView>,
)
    requires
        can_grow(p.instance),
        heeded(|x: Seq<ReplyView>| hop_driving(c, p, name, t, files, x), r),
    ensures
        walks(p, hop_driving(c, p, name, t, files, r)),
{
    let f = |x: Seq<ReplyView>| hop_driving(c, p, name, t, files, x);
    if r.len() > 1 && r[0] is Done {
        match r[1] {
            ReplyView::Done(Err(e)) => {
                let end = WorkEnd::Broken(e);
                let g = |x: Seq<ReplyView>| hop_freeing(c, p, files, end, x);
                lemma_after_two(f, g, r);
                lemma_freeing(c, p, files, end, r.drop_first().drop_first());
            },
            ReplyView::Done(Ok(_)) => {
                let g = |x: Seq<ReplyView>| hop_asking(c, p, name, t, files, x);
                lemma_after_two(f, g, r);
                lemma_asking(c, p, name, t, files, r.drop_first().drop_first());
            },
            _ => {},
        }
    }
}

proof fn lemma_cleared(
    c: ChainJobView,
    p: ProgressView,
    due: DueView,
    files: Seq<Seq<char>>,
    r: Seq<ReplyView>,
)
    requires
        can_grow(p.instance),
        heeded(|x: Seq<ReplyView>| hop_cleared(c, p, due, files, x), r),
    ensures
        walks(p, hop_cleared(c, p, due, files, r)),
{
    let f = |x: Seq<ReplyView>| hop_cleared(c, p, due, files, x);
    match due {
        DueView::Fire(name, t) => {
            let h = FireView {
                name,
                transition_def: t,
                arguments: JsonView::Object(Seq::empty()),
                driven: false,
            };
            let g = |x: Seq<ReplyView>| hop_begun(c, p, h, files, x);
            lemma_same(f, g, r);
            lemma_begun(c, p, h, files, r);
        },
        DueView::Drive(name, t) => {
            let g = |x: Seq<ReplyView>| hop_driving(c, p, name, t, files, x);
            lemma_same(f, g, r);
            lemma_driving(c, p, name, t, files, r);
        },
    }
}

proof fn lemma_locking(
    c: ChainJobView,
    p: ProgressView,
    due: DueView,
    r: Seq<ReplyView>,
)
    requires
        can_grow(p.instance),
        heeded(|x: Seq<ReplyView>| hop_locking(c, p, due, x), r),
    ensures
        walks(p, hop_locking(c, p, due, r)),
{
    let f = |x: Seq<ReplyView>| hop_locking(c, p, due, x);
    let files = needed_files(c, due_def(due));
    if files.len() == 0 {
        let g = |x: Seq<ReplyView>| hop_cleared(c, p, due, files, x);
        lemma_same(f, g, r);
        lemma_cleared(c, p, due, files, r);
    } else if r.len() > 1 && r[1] is Done {
        if let ReplyView::Locks(Ok(_)) = r[0] {
            let g = |x: Seq<ReplyView>| hop_cleared(c, p, due, files, x);
            lemma_after_two(f, g, r);
            lemma_cleared(c, p, due, files, r.drop_first().drop_first());
        }
    }
}

proof fn lemma_firing(
    c: ChainJobView,
    p: ProgressView,
    own: Members,
    r: Seq<ReplyView>,
)
    requires
        can_grow(p.instance),
        heeded(|x: Seq<ReplyView>| hop_firing(c, p, own, x), r),
    ensures
        walks(p, hop_firing(c, p, own, r)),
{
    let f = |x: Seq<ReplyView>| hop_firing(c, p, own, x);
    if r.len() > 0 {
        if let ReplyView::Selected(Ok((name, t))) = r[0] {
            let g = |x: Seq<ReplyView>| hop_locking(c, p, DueView::Fire(name, t), x);
            lemma_after(f, g, r);
            lemma_locking(c, p, DueView::Fire(name, t), r.drop_first());
        }
    }
}

proof fn lemma_hop(
    c: ChainJobView,
    p: ProgressView,
    r: Seq<ReplyView>,
)
    requires
        can_grow(p.instance),
        heeded(|x: Seq<ReplyView>| hop(c, p, x), r),
    ensures
        walks(p, hop(c, p, r)),
{
    reveal(hop);
    let f = |x: Seq<ReplyView>| hop(c, p, x);
    match next_hop(c, p) {
        HopChoice::Fire(own) => {
            let g = |x: Seq<ReplyView>| hop_firing(c, p, own, x);
            lemma_same(f, g, r);
            lemma_firing(c, p, own, r);
        },
        HopChoice::Drive(name, t) => {
            let g = |x: Seq<ReplyView>| hop_locking(c, p, DueView::Drive(name, t), x);
            lemma_same(f, g, r);
            lemma_locking(c, p, DueView::Drive(name, t), r);
        },
        _ => {},
    }
}

proof fn lemma_path(i: InstanceView, c: ChainJobView, p: ProgressView, r: Seq<ReplyView>)
    requires
        is_path(i, p.steps, p.instance),
        can_grow(p.instance),
        places_kept(c, p, r),
    ensures
        chain(c, p, r) matches ChainView::Done(Ok(o)) ==> is_path(
            i,
            left_by(o).steps,
            left_by(o).instance,
        ),
    decreases r.len(),
{
    let f = |x: Seq<ReplyView>| hop(c, p, x);
    assert forall|k: int| 0 <= k < r.len() implies answers(#[trigger] f(r.take(k)), r[k]) by {
        assert(place_kept(chain(c, p, r.take(k)), r[k]));
    }
    lemma_hop(c, p, r);
    match hop(c, p, r) {
        TurnView::Stop(ChainView::Done(Ok(o))) => {
            lemma_one_more(i, p, left_by(o));
        },
        TurnView::Stop(_) => {},
        TurnView::Advance(q, s) => {
            lemma_one_more(i, p, q);
            lemma_hop_prefix(c, p, r, q, s, s.len() as int);
            assert forall|k: int| 0 <= k < s.len() implies sound_reply(s[k]) && place_kept(
                #[trigger] chain(c, q, s.take(k)),
                s[k],
            ) by {
                lemma_hop_prefix(c, p, r, q, s, k);
                let at = r.len() - s.len() + k;
                assert(chain(c, p, r.take(at)) == chain(c, q, s.take(k)));
                assert(place_kept(chain(c, p, r.take(at)), r[at]));
            }
            lemma_path(i, c, q, s);
        },
    }
}

proof fn lemma_one_more(i: InstanceView, p: ProgressView, q: ProgressView)
    requires
        is_path(i, p.steps, p.instance),
        rests(p, q) || steps_on(p, q),
    ensures
        is_path(i, q.steps, q.instance),
{
    if steps_on(p, q) {
        let n = p.steps.len() as int;
        assert(q.steps =~= p.steps.push(q.steps.last()));
        assert forall|k: int| 0 <= k < q.steps.len() implies #[trigger] follows(i, q.steps, k) by {
            assert(stands(i, q.steps, k) == stands(i, p.steps, k));
            if k < n {
                assert(follows(i, p.steps, k));
            }
        }
    }
}

/// Whether a store that the work on entry asks for keeps the place of the instance.
pub open spec fn store_kept(v: StepView<FoundView>, x: ReplyView) -> bool {
    v matches StepView::Do(EffectView::Save { instance, .. }) ==> (
    x matches ReplyView::Instance(Ok(i)) ==> keeps_place(instance, i))
}

/// The work on entry leaves the instance in its state, at its version or above, where stores do.
pub proof fn law_entry_keeps_place(
    definition: JsonView,
    evidence: bool,
    i: InstanceView,
    cor: Seq<char>,
    r: Seq<ReplyView>,
)
    requires
        can_grow(i),
        forall|k: int|
            0 <= k < r.len() ==> store_kept(
                #[trigger] on_enter(definition, evidence, i, cor, r.take(k)),
                r[k],
            ),
    ensures
        on_enter(definition, evidence, i, cor, r) matches StepView::Done(Ok(j)) ==> keeps_place(
            i,
            j,
        ),
{
    let at: int = if evidence { 5 } else { 4 };
    if r.len() > at {
        assert(store_kept(on_enter(definition, evidence, i, cor, r.take(at)), r[at]));
    }
}

/// The steps of a chain form a path from the instance that it started with to the one that it
/// leaves behind: each step starts in the state that the one before it led to, and commits a
/// version above it. This holds of stores and of work on entry that hand back the state they were
/// given, at its version or above.
pub proof fn law_steps_form_a_path(c: ChainJobView, p: ProgressView, r: Seq<ReplyView>)
    requires
        p.steps.len() == 0,
        can_grow(p.instance),
        places_kept(c, p, r),
    ensures
        chain(c, p, r) matches ChainView::Done(Ok(o)) ==> is_path(
            p.instance,
            left_by(o).steps,
            left_by(o).instance,
        ),
{
    lemma_path(p.instance, c, p, r);
}

} // verus!
