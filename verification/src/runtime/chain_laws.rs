//! What holds of every chain.

use vstd::prelude::*;

use crate::json::{lemma_put_lookup, lookup, number, put, sorted, JsonView, Members};
use crate::model::InstanceView;
use crate::repo_locks::owned_files;
use crate::runtime::agent::agent_config;
use crate::runtime::chain::{
    blocked, chain, due_def, due_hop, fired_by_runtime, hop, hop_answered, hop_asking, hop_begun,
    hop_cleared, hop_committing, hop_driving, hop_entered, hop_firing, hop_freeing, hop_judged,
    hop_leading, hop_leaving, hop_locking, hop_next, hop_plain, hop_running, hop_stored,
    hop_written, hops_slot, hops_spent, hops_taken, livelock_reason, needed_files, next_hop,
    one_hop_more, ChainJobView, ChainView, DueView, FireView, HopChoice, HopWorkView, TurnView,
    WorkEnd,
};
use crate::runtime::context::{
    advanced, given_up, law_own_slots_are_given_up, left_behind, state_local,
};
use crate::runtime::dispatch::{lock_holder, LOCK_TTL_SECS};
use crate::runtime::dispatch_laws::lemma_drop_both;
use crate::runtime::effects::{OutcomeView, ProgressView, ResultView};
use crate::runtime::links::{state_def, terminal, transitions_of};
use crate::runtime::script::{EffectView, ReplyView};

verus! {

/// Whether the last reply says that the record of an instance was written.
pub open spec fn recorded_in_chain(before: ChainView, r: Seq<ReplyView>, i: InstanceView) -> bool {
    &&& r.len() > 0
    &&& r.last() matches ReplyView::Done(Ok(_))
    &&& before matches ChainView::Do(EffectView::Record { params, .. }) && params.instance == i
}

/// Whether an executor is asked to run that owns files whose locks are kept.
pub open spec fn owner_runs(c: ChainJobView, v: ChainView) -> bool {
    v matches ChainView::Do(EffectView::Execute { config, .. }) && c.locks && owned_files(
        config,
    ).len() > 0
}

/// The files of an executor that is asked to run, and who holds their locks.
pub open spec fn owned_by(v: ChainView) -> (Seq<Seq<char>>, Seq<char>) {
    match v {
        ChainView::Do(EffectView::Execute { instance, config, .. }) => (
            owned_files(config),
            lock_holder(instance.id),
        ),
        _ => arbitrary(),
    }
}

/// The locks of the files of an executor that is asked to run, as they are asked for.
pub open spec fn asking_locks(v: ChainView) -> EffectView {
    EffectView::Acquire {
        files: owned_by(v).0,
        holder: owned_by(v).1,
        ttl_secs: LOCK_TTL_SECS,
    }
}

/// Whether an executor is asked to run.
spec fn runs(t: TurnView) -> bool {
    t matches TurnView::Stop(ChainView::Do(EffectView::Execute { .. }))
}

/// Whether a store counts the hop that it commits.
spec fn counts_hop(i: InstanceView) -> bool {
    exists|context: JsonView| i.context == #[trigger] one_hop_more(context)
}

/// What is kept by every part of a hop: a store comes right after its record, and counts the
/// hop; the locks of an executor are given back right after it ran; a hop that goes on does so
/// with earlier and with later replies alike, has taken one more step, and has used replies; an
/// end holds the steps so far, or one more.
spec fn regular(c: ChainJobView, n: nat, t: TurnView, before: TurnView, r: Seq<ReplyView>) -> bool {
    &&& match t {
        TurnView::Stop(ChainView::Do(EffectView::Save { instance, .. })) => {
            &&& before matches TurnView::Stop(v) && recorded_in_chain(v, r, instance)
            &&& counts_hop(instance)
        },
        TurnView::Stop(ChainView::Done(Ok(o))) => n <= steps_of(o) <= n + 1,
        TurnView::Stop(_) => true,
        TurnView::Advance(q, s) => {
            &&& q.steps.len() == n + 1
            &&& s.len() < r.len()
            &&& s.len() > 0 ==> s.last() == r.last() && before == TurnView::Advance(q, s.drop_last())
        },
    }
    &&& r.len() > 0 ==> (before matches TurnView::Advance(q, s) ==> t == TurnView::Advance(
        q,
        s.push(r.last()),
    ))
    &&& r.len() > 0 ==> (before matches TurnView::Stop(v) ==> (owner_runs(c, v) && (
    r.last() matches ReplyView::Executed { .. }) ==> t == TurnView::Stop(
        ChainView::Do(EffectView::Release { files: owned_by(v).0, holder: owned_by(v).1 }),
    )))
}

/// How many steps a chain took.
pub open spec fn steps_of(o: OutcomeView) -> nat {
    match o {
        OutcomeView::Completed(p) => p.steps.len(),
        OutcomeView::Failed { partial, .. } => partial.steps.len(),
        OutcomeView::Suspended { partial, .. } => partial.steps.len(),
        OutcomeView::WaitingOnLock { partial, .. } => partial.steps.len(),
        OutcomeView::Quarantined { partial, .. } => partial.steps.len(),
    }
}

proof fn lemma_entered(c: ChainJobView, p: ProgressView, r: Seq<ReplyView>)
    requires
        p.steps.len() > 0,
    ensures
        match hop_entered(c, p, r) {
            TurnView::Stop(ChainView::Do(EffectView::Save { .. })) => false,
            TurnView::Stop(ChainView::Done(Ok(o))) => steps_of(o) == p.steps.len(),
            TurnView::Stop(_) => true,
            TurnView::Advance(q, s) => {
                &&& q.steps.len() == p.steps.len()
                &&& s.len() <= r.len()
                &&& s.len() > 0 ==> s.last() == r.last() && hop_entered(c, p, r.drop_last())
                    == TurnView::Advance(q, s.drop_last())
            },
        },
        !runs(hop_entered(c, p, r)),
        r.len() > 0 ==> (hop_entered(c, p, r.drop_last()) matches TurnView::Advance(q, s) ==> hop_entered(
            c,
            p,
            r,
        ) == TurnView::Advance(q, s.push(r.last()))),
{
    if r.len() > 0 {
        assert(r.drop_last().push(r.last()) =~= r);
        if r.len() > 1 {
            lemma_drop_both(r);
            assert(r.drop_first().drop_last().push(r.last()) =~= r.drop_first());
        }
    }
}

proof fn quiet_stored(c: ChainJobView, p: ProgressView, h: FireView, r: Seq<ReplyView>)
    ensures
        !runs(hop_stored(c, p, h, r)),
{
}

proof fn quiet_committing(
    c: ChainJobView,
    p: ProgressView,
    h: FireView,
    w: HopWorkView,
    target: Seq<char>,
    r: Seq<ReplyView>,
)
    ensures
        !runs(hop_committing(c, p, h, w, target, r)),
{
    if r.len() > 1 {
        let b = r.drop_first().drop_first();
        if let ReplyView::Instance(Ok(saved)) = r.drop_first()[0] {
            let q = crate::runtime::chain::after_hop(p, h, w, target, saved);
            quiet_stored(c, q, h, b);
            quiet_stored(c, q, h, b.drop_first());
        }
    }
}

proof fn quiet_leaving(
    c: ChainJobView,
    p: ProgressView,
    h: FireView,
    w: HopWorkView,
    target: Seq<char>,
    r: Seq<ReplyView>,
)
    ensures
        !runs(hop_leaving(c, p, h, w, target, r)),
{
    quiet_committing(c, p, h, w, target, r);
    quiet_committing(c, p, h, w, target, r.drop_first());
}

proof fn quiet_leading(
    c: ChainJobView,
    p: ProgressView,
    h: FireView,
    w: HopWorkView,
    r: Seq<ReplyView>,
)
    ensures
        !runs(hop_leading(c, p, h, w, r)),
{
    if r.len() > 0 {
        if let ReplyView::Target(Ok(target)) = r[0] {
            quiet_leaving(c, p, h, w, target, r.drop_first());
        }
    }
}

proof fn quiet_written(
    c: ChainJobView,
    p: ProgressView,
    h: FireView,
    w: HopWorkView,
    r: Seq<ReplyView>,
)
    ensures
        !runs(hop_written(c, p, h, w, r)),
{
    if r.len() > 0 {
        quiet_leading(c, p, h, w, r.drop_first());
    }
}

proof fn quiet_plain(c: ChainJobView, p: ProgressView, h: FireView, r: Seq<ReplyView>)
    ensures
        !runs(hop_plain(c, p, h, r)),
{
    if r.len() > 0 {
        if let ReplyView::Merged(Ok(context)) = r[0] {
            let w = HopWorkView {
                context,
                evidence: p.evidence,
                child_workflow_id: None,
                executor: None,
            };
            quiet_written(c, p, h, w, r.drop_first());
        }
    }
}

proof fn quiet_judged(c: ChainJobView, p: ProgressView, end: WorkEnd, r: Seq<ReplyView>)
    ensures
        !runs(hop_judged(c, p, end, r)),
{
    if let WorkEnd::Ran(h, res, elapsed_ms) = end {
        if r.len() > 0 {
            if let ReplyView::Merged(Ok(context)) = r[0] {
                let w = HopWorkView {
                    context: advanced(context, h.name),
                    evidence: p.evidence + res.evidence,
                    child_workflow_id: res.child_workflow_id,
                    executor: Some((true, elapsed_ms)),
                };
                quiet_written(c, p, h, w, r.drop_first());
            }
        }
    }
}

proof fn quiet_freeing(
    c: ChainJobView,
    p: ProgressView,
    files: Seq<Seq<char>>,
    end: WorkEnd,
    r: Seq<ReplyView>,
)
    ensures
        !runs(hop_freeing(c, p, files, end, r)),
{
    quiet_judged(c, p, end, r);
    if r.len() > 2 {
        quiet_judged(c, p, end, r.drop_first().drop_first().drop_first());
    }
}

proof fn lemma_stored(c: ChainJobView, p: ProgressView, h: FireView, r: Seq<ReplyView>)
    requires
        p.steps.len() > 0,
    ensures
        regular(
            c,
            (p.steps.len() - 1) as nat,
            hop_stored(c, p, h, r),
            hop_stored(c, p, h, r.drop_last()),
            r,
        ),
{
    quiet_stored(c, p, h, r.drop_last());
    if r.len() > 1 {
        let a = r.drop_first();
        let b = a.drop_first();
        if let ReplyView::Instance(Ok(i)) = a[0] {
            lemma_entered(c, ProgressView { instance: i, ..p }, b);
        }
        lemma_drop_both(r);
        if a.len() > 1 {
            lemma_drop_both(a);
        }
    }
}

proof fn lemma_committing(
    c: ChainJobView,
    p: ProgressView,
    h: FireView,
    w: HopWorkView,
    target: Seq<char>,
    r: Seq<ReplyView>,
)
    ensures
        regular(
            c,
            p.steps.len(),
            hop_committing(c, p, h, w, target, r),
            hop_committing(c, p, h, w, target, r.drop_last()),
            r,
        ),
{
    quiet_committing(c, p, h, w, target, r.drop_last());
    let next = hop_next(c, p, w, target);
    assert(next.context == one_hop_more(
        left_behind(c.definition, p.instance.state, target, w.context),
    ));
    assert(counts_hop(next));
    if r.len() > 1 {
        let a = r.drop_first();
        let b = a.drop_first();
        lemma_drop_both(r);
        if a.len() > 1 {
            lemma_drop_both(a);
        }
        if let ReplyView::Instance(Ok(saved)) = a[0] {
            let q = crate::runtime::chain::after_hop(p, h, w, target, saved);
            if c.evidence {
                if b.len() > 0 {
                    lemma_stored(c, q, h, b.drop_first());
                    if b.len() > 1 {
                        lemma_drop_both(b);
                    }
                }
            } else {
                lemma_stored(c, q, h, b);
            }
        }
    }
}

proof fn lemma_leaving(
    c: ChainJobView,
    p: ProgressView,
    h: FireView,
    w: HopWorkView,
    target: Seq<char>,
    r: Seq<ReplyView>,
)
    ensures
        regular(
            c,
            p.steps.len(),
            hop_leaving(c, p, h, w, target, r),
            hop_leaving(c, p, h, w, target, r.drop_last()),
            r,
        ),
{
    quiet_leaving(c, p, h, w, target, r.drop_last());
    if given_up(c.definition, p.instance.state, target, w.context).len() > 0 {
        if r.len() > 0 {
            lemma_committing(c, p, h, w, target, r.drop_first());
            if r.len() > 1 {
                lemma_drop_both(r);
            }
        }
    } else {
        lemma_committing(c, p, h, w, target, r);
    }
}

proof fn lemma_leading(
    c: ChainJobView,
    p: ProgressView,
    h: FireView,
    w: HopWorkView,
    r: Seq<ReplyView>,
)
    ensures
        regular(
            c,
            p.steps.len(),
            hop_leading(c, p, h, w, r),
            hop_leading(c, p, h, w, r.drop_last()),
            r,
        ),
{
    quiet_leading(c, p, h, w, r.drop_last());
    if r.len() > 0 {
        if let ReplyView::Target(Ok(target)) = r[0] {
            lemma_leaving(c, p, h, w, target, r.drop_first());
        }
        if r.len() > 1 {
            lemma_drop_both(r);
        }
    }
}

proof fn lemma_written(
    c: ChainJobView,
    p: ProgressView,
    h: FireView,
    w: HopWorkView,
    r: Seq<ReplyView>,
)
    ensures
        regular(
            c,
            p.steps.len(),
            hop_written(c, p, h, w, r),
            hop_written(c, p, h, w, r.drop_last()),
            r,
        ),
{
    quiet_written(c, p, h, w, r.drop_last());
    if r.len() > 0 {
        lemma_leading(c, p, h, w, r.drop_first());
        if r.len() > 1 {
            lemma_drop_both(r);
        }
    }
}

proof fn lemma_plain(c: ChainJobView, p: ProgressView, h: FireView, r: Seq<ReplyView>)
    ensures
        regular(c, p.steps.len(), hop_plain(c, p, h, r), hop_plain(c, p, h, r.drop_last()), r),
{
    quiet_plain(c, p, h, r.drop_last());
    if r.len() > 0 {
        if let ReplyView::Merged(Ok(context)) = r[0] {
            let w = HopWorkView {
                context,
                evidence: p.evidence,
                child_workflow_id: None,
                executor: None,
            };
            lemma_written(c, p, h, w, r.drop_first());
        }
        if r.len() > 1 {
            lemma_drop_both(r);
        }
    }
}

proof fn lemma_judged(c: ChainJobView, p: ProgressView, end: WorkEnd, r: Seq<ReplyView>)
    ensures
        regular(c, p.steps.len(), hop_judged(c, p, end, r), hop_judged(c, p, end, r.drop_last()), r),
{
    quiet_judged(c, p, end, r.drop_last());
    if let WorkEnd::Ran(h, res, elapsed_ms) = end {
        if r.len() > 0 {
            if let ReplyView::Merged(Ok(context)) = r[0] {
                let w = HopWorkView {
                    context: advanced(context, h.name),
                    evidence: p.evidence + res.evidence,
                    child_workflow_id: res.child_workflow_id,
                    executor: Some((true, elapsed_ms)),
                };
                lemma_written(c, p, h, w, r.drop_first());
            }
            if r.len() > 1 {
                lemma_drop_both(r);
            }
        }
    }
}

proof fn lemma_freeing(
    c: ChainJobView,
    p: ProgressView,
    files: Seq<Seq<char>>,
    end: WorkEnd,
    r: Seq<ReplyView>,
)
    ensures
        regular(
            c,
            p.steps.len(),
            hop_freeing(c, p, files, end, r),
            hop_freeing(c, p, files, end, r.drop_last()),
            r,
        ),
{
    quiet_freeing(c, p, files, end, r.drop_last());
    if files.len() == 0 {
        lemma_judged(c, p, end, r);
    } else if r.len() > 1 {
        let a = r.drop_first();
        let b = a.drop_first();
        lemma_drop_both(r);
        if a.len() > 1 {
            lemma_drop_both(a);
            lemma_judged(c, p, end, b.drop_first());
            if b.len() > 1 {
                lemma_drop_both(b);
            }
        }
    }
}

proof fn lemma_running(
    c: ChainJobView,
    p: ProgressView,
    h: FireView,
    files: Seq<Seq<char>>,
    config: JsonView,
    r: Seq<ReplyView>,
)
    requires
        c.locks ==> files == owned_files(config),
    ensures
        regular(
            c,
            p.steps.len(),
            hop_running(c, p, h, files, config, r),
            hop_running(c, p, h, files, config, r.drop_last()),
            r,
        ),
{
    if r.len() > 0 {
        let a = r.drop_first();
        if let ReplyView::Done(Err(e)) = r[0] {
            lemma_freeing(c, p, files, WorkEnd::Broken(e), a);
        }
        if r.len() > 1 {
            lemma_drop_both(r);
            if let ReplyView::Executed { result: Ok(res), elapsed_ms } = a[0] {
                lemma_freeing(c, p, files, WorkEnd::Ran(h, res, elapsed_ms), a.drop_first());
            }
            if let ReplyView::Executed { result: Err(err), elapsed_ms } = a[0] {
                lemma_freeing(c, p, files, WorkEnd::Failed(h.name, err), a.drop_first());
            }
            if a.len() > 1 {
                lemma_drop_both(a);
            }
        }
    }
}

proof fn lemma_begun(
    c: ChainJobView,
    p: ProgressView,
    h: FireView,
    files: Seq<Seq<char>>,
    r: Seq<ReplyView>,
)
    requires
        files == needed_files(c, h.transition_def),
    ensures
        regular(
            c,
            p.steps.len(),
            hop_begun(c, p, h, files, r),
            hop_begun(c, p, h, files, r.drop_last()),
            r,
        ),
{
    reveal(hop_begun);
    if r.len() > 0 {
        match h.transition_def.get("executor"@) {
            None => lemma_plain(c, p, h, r.drop_first()),
            Some(config) => lemma_running(c, p, h, files, config, r.drop_first()),
        }
        if r.len() > 1 {
            lemma_drop_both(r);
        }
    }
}

proof fn lemma_answered(
    c: ChainJobView,
    p: ProgressView,
    name: Seq<char>,
    t: JsonView,
    files: Seq<Seq<char>>,
    res: ResultView,
    elapsed_ms: u64,
    r: Seq<ReplyView>,
)
    requires
        files == needed_files(c, t),
    ensures
        regular(
            c,
            p.steps.len(),
            hop_answered(c, p, name, t, files, res, elapsed_ms, r),
            hop_answered(c, p, name, t, files, res, elapsed_ms, r.drop_last()),
            r,
        ),
{
    if r.len() > 0 {
        let h = FireView { name, transition_def: t, arguments: res.output, driven: true };
        lemma_begun(c, p, h, files, r.drop_first());
        if r.len() > 1 {
            lemma_drop_both(r);
        }
    }
}

/// The configuration of an agent names no files of its own.
proof fn lemma_agent_owns_nothing(c: ChainJobView, i: InstanceView, t: JsonView)
    ensures
        owned_files(agent_config(c.definition, i, t, c.auto)).len() == 0,
{
    reveal(agent_config);
    reveal_strlit("owned_files");
    reveal_strlit("branches");
    reveal_strlit("kind");
    reveal_strlit("affinity");
    reveal_strlit("goal");
    reveal_strlit("tools");
    reveal_strlit("expected_output_keys");
    reveal_strlit("expected_output_types");
    reveal_strlit("max_seconds");
    reveal_strlit("reasoning_effort");
    let config = agent_config(c.definition, i, t, c.auto);
    assert("owned_files"@[0] == 'o');
    assert("branches"@[0] == 'b');
    assert forall|m: Members, key: Seq<char>, v: JsonView|
        key[0] != 'o' && key[0] != 'b' implies lookup(#[trigger] put(m, key, v), "owned_files"@)
        == lookup(m, "owned_files"@) && lookup(put(m, key, v), "branches"@) == lookup(
        m,
        "branches"@,
    ) by {
        lemma_put_lookup(m, key, v, "owned_files"@);
        lemma_put_lookup(m, key, v, "branches"@);
    }
    assert(config.get("owned_files"@) is None);
    assert(config.get_array("branches"@) is None);
}

proof fn lemma_asking(
    c: ChainJobView,
    p: ProgressView,
    name: Seq<char>,
    t: JsonView,
    files: Seq<Seq<char>>,
    r: Seq<ReplyView>,
)
    requires
        files == needed_files(c, t),
    ensures
        regular(
            c,
            p.steps.len(),
            hop_asking(c, p, name, t, files, r),
            hop_asking(c, p, name, t, files, r.drop_last()),
            r,
        ),
{
    lemma_agent_owns_nothing(c, p.instance, t);
    if r.len() > 0 {
        if let ReplyView::Executed { result: Ok(res), elapsed_ms } = r[0] {
            lemma_answered(c, p, name, t, files, res, elapsed_ms, r.drop_first());
        }
        if let ReplyView::Executed { result: Err(err), elapsed_ms } = r[0] {
            lemma_freeing(c, p, files, WorkEnd::Failed(name, err), r.drop_first());
        }
        if r.len() > 1 {
            lemma_drop_both(r);
        }
    }
}

proof fn lemma_driving(
    c: ChainJobView,
    p: ProgressView,
    name: Seq<char>,
    t: JsonView,
    files: Seq<Seq<char>>,
    r: Seq<ReplyView>,
)
    requires
        files == needed_files(c, t),
    ensures
        regular(
            c,
            p.steps.len(),
            hop_driving(c, p, name, t, files, r),
            hop_driving(c, p, name, t, files, r.drop_last()),
            r,
        ),
{
    if r.len() > 1 {
        let a = r.drop_first();
        lemma_drop_both(r);
        lemma_asking(c, p, name, t, files, a.drop_first());
        if let ReplyView::Done(Err(e)) = a[0] {
            lemma_freeing(c, p, files, WorkEnd::Broken(e), a.drop_first());
        }
        if a.len() > 1 {
            lemma_drop_both(a);
        }
    }
}

proof fn lemma_cleared(
    c: ChainJobView,
    p: ProgressView,
    due: DueView,
    files: Seq<Seq<char>>,
    r: Seq<ReplyView>,
)
    requires
        files == needed_files(c, due_def(due)),
    ensures
        regular(
            c,
            p.steps.len(),
            hop_cleared(c, p, due, files, r),
            hop_cleared(c, p, due, files, r.drop_last()),
            r,
        ),
{
    match due {
        DueView::Fire(name, t) => {
            let h = FireView {
                name,
                transition_def: t,
                arguments: JsonView::Object(Seq::empty()),
                driven: false,
            };
            lemma_begun(c, p, h, files, r);
        },
        DueView::Drive(name, t) => lemma_driving(c, p, name, t, files, r),
    }
}

proof fn lemma_locking(c: ChainJobView, p: ProgressView, due: DueView, r: Seq<ReplyView>)
    ensures
        regular(
            c,
            p.steps.len(),
            hop_locking(c, p, due, r),
            hop_locking(c, p, due, r.drop_last()),
            r,
        ),
{
    let files = needed_files(c, due_def(due));
    if files.len() == 0 {
        lemma_cleared(c, p, due, files, r);
    } else if r.len() > 1 {
        let a = r.drop_first();
        lemma_drop_both(r);
        lemma_cleared(c, p, due, files, a.drop_first());
        if a.len() > 1 {
            lemma_drop_both(a);
        }
    }
}

proof fn lemma_firing(c: ChainJobView, p: ProgressView, own: Members, r: Seq<ReplyView>)
    ensures
        regular(c, p.steps.len(), hop_firing(c, p, own, r), hop_firing(c, p, own, r.drop_last()), r),
{
    if r.len() > 0 {
        if let ReplyView::Selected(Ok((name, t))) = r[0] {
            lemma_locking(c, p, DueView::Fire(name, t), r.drop_first());
        }
        if r.len() > 1 {
            lemma_drop_both(r);
        }
    }
}

proof fn lemma_hop(c: ChainJobView, p: ProgressView, r: Seq<ReplyView>)
    ensures
        regular(c, p.steps.len(), hop(c, p, r), hop(c, p, r.drop_last()), r),
        next_hop(c, p) is Rest || next_hop(c, p) is Spent ==> !(hop(c, p, r) is Advance),
{
    reveal(hop);
    match next_hop(c, p) {
        HopChoice::Rest => {},
        HopChoice::Spent => {},
        HopChoice::Fire(own) => lemma_firing(c, p, own, r),
        HopChoice::Drive(name, t) => lemma_locking(c, p, DueView::Drive(name, t), r),
    }
}

/// A chain stores an instance only right after the record of that very instance was written:
/// where the record fails, nothing is stored.
pub proof fn law_chain_records_first(c: ChainJobView, p: ProgressView, r: Seq<ReplyView>)
    ensures
        chain(c, p, r) matches ChainView::Do(EffectView::Save { instance, .. }) ==> recorded_in_chain(
            chain(c, p, r.drop_last()),
            r,
            instance,
        ),
    decreases r.len(),
{
    lemma_hop(c, p, r);
    if let TurnView::Advance(q, s) = hop(c, p, r) {
        law_chain_records_first(c, q, s);
        if let ChainView::Do(EffectView::Save { instance, .. }) = chain(c, p, r) {
            assert(chain(c, q, s) == chain(c, p, r));
            assert(recorded_in_chain(chain(c, q, s.drop_last()), s, instance));
            assert(hop(c, p, r.drop_last()) == TurnView::Advance(q, s.drop_last()));
        }
    }
}

/// Every hop that a chain stores is counted towards the hops of its run.
pub proof fn law_chain_counts_its_hops(c: ChainJobView, p: ProgressView, r: Seq<ReplyView>)
    ensures
        chain(c, p, r) matches ChainView::Do(EffectView::Save { instance, .. }) ==> exists|
            context: JsonView,
        | instance.context == #[trigger] one_hop_more(context),
    decreases r.len(),
{
    lemma_hop(c, p, r);
    if let TurnView::Advance(q, s) = hop(c, p, r) {
        law_chain_counts_its_hops(c, q, s);
    }
}

/// A hop out of a state commits a context without the slots that the state declares as its own.
/// The count of hops is the runtime's.
pub proof fn law_hops_leave_own_slots_behind(
    c: ChainJobView,
    p: ProgressView,
    w: HopWorkView,
    target: Seq<char>,
    slots: Members,
    i: int,
)
    requires
        w.context matches JsonView::Object(m) && sorted(m),
        p.instance.state != target,
        state_def(c.definition, p.instance.state) matches Some(s) && s.get_object("slots"@) == Some(
            slots,
        ),
        0 <= i < slots.len(),
        state_local(slots[i].1),
        slots[i].0 != hops_slot(),
    ensures
        hop_next(c, p, w, target).context.get(slots[i].0) is None,
{
    let from = p.instance.state;
    law_own_slots_are_given_up(c.definition, from, target, w.context, slots, i);
    let kept = left_behind(c.definition, from, target, w.context);
    let one = number(
        if hops_taken(kept) < u64::MAX {
            (hops_taken(kept) + 1) as u64
        } else {
            hops_taken(kept)
        },
    );
    lemma_put_lookup(kept->Object_0, hops_slot(), one, slots[i].0);
}

/// A run that used up its hops is not driven on: where a hop would be due, the chain ends in
/// quarantine, whatever comes back, and nothing is executed or stored.
pub proof fn law_spent_runs_are_quarantined(c: ChainJobView, p: ProgressView, r: Seq<ReplyView>)
    requires
        hops_spent(c.definition, p.instance.context),
        due_hop(c, p) !is Rest,
    ensures
        chain(c, p, r) == ChainView::Done(
            Ok(OutcomeView::Quarantined { partial: p, reason: livelock_reason() }),
        ),
{
    reveal(hop);
}

/// A chain takes no more steps than its limit, however the effects come out.
pub proof fn law_chain_is_bounded(c: ChainJobView, p: ProgressView, r: Seq<ReplyView>)
    requires
        p.steps.len() <= c.max_depth,
    ensures
        chain(c, p, r) matches ChainView::Done(Ok(o)) ==> p.steps.len() <= steps_of(o) <= c.max_depth,
    decreases r.len(),
{
    lemma_hop(c, p, r);
    if next_hop(c, p) is Rest || next_hop(c, p) is Spent {
        reveal(hop);
    } else {
        assert(p.steps.len() < c.max_depth);
        if let TurnView::Advance(q, s) = hop(c, p, r) {
            law_chain_is_bounded(c, q, s);
        }
    }
}

/// A chain that has not begun does nothing where the state is an end, or where the runtime
/// could fire but somebody else has a decision to make.
pub proof fn law_chain_leaves_decisions(c: ChainJobView, p: ProgressView, r: Seq<ReplyView>)
    requires
        p.steps.len() == 0,
        terminal(c.definition, p.instance.state) || (transitions_of(
            c.definition,
            p.instance.state,
        ) matches Some(ts) && fired_by_runtime(ts).len() > 0 && blocked(ts, c.auto.enabled)),
    ensures
        chain(c, p, r) == ChainView::Done(Ok(OutcomeView::Completed(p))),
{
    reveal(hop);
}

/// What a chain asks of an executor, given its hop.
proof fn lemma_begun_runs(
    c: ChainJobView,
    p: ProgressView,
    h: FireView,
    files: Seq<Seq<char>>,
    r: Seq<ReplyView>,
)
    ensures
        hop_begun(c, p, h, files, r) matches TurnView::Stop(
            ChainView::Do(EffectView::Execute { instance, config, .. }),
        ) ==> instance == p.instance && h.transition_def.get("executor"@) == Some(config),
{
    reveal(hop_begun);
    if r.len() > 0 {
        let a = r.drop_first();
        quiet_plain(c, p, h, a);
        if a.len() > 0 {
            let b = a.drop_first();
            if let ReplyView::Done(Err(e)) = a[0] {
                quiet_freeing(c, p, files, WorkEnd::Broken(e), b);
            }
            if b.len() > 0 {
                if let ReplyView::Executed { result: Ok(res), elapsed_ms } = b[0] {
                    quiet_freeing(c, p, files, WorkEnd::Ran(h, res, elapsed_ms), b.drop_first());
                }
                if let ReplyView::Executed { result: Err(err), elapsed_ms } = b[0] {
                    quiet_freeing(c, p, files, WorkEnd::Failed(h.name, err), b.drop_first());
                }
            }
        }
    }
}

proof fn lemma_driving_runs(
    c: ChainJobView,
    p: ProgressView,
    name: Seq<char>,
    t: JsonView,
    files: Seq<Seq<char>>,
    r: Seq<ReplyView>,
)
    ensures
        hop_driving(c, p, name, t, files, r) matches TurnView::Stop(v) ==> (owner_runs(c, v) ==> (
        v matches ChainView::Do(EffectView::Execute { instance, config, .. }) && instance
            == p.instance && t.get("executor"@) == Some(config))),
{
    lemma_agent_owns_nothing(c, p.instance, t);
    if r.len() > 1 {
        let a = r.drop_first();
        let b = a.drop_first();
        if let ReplyView::Done(Err(e)) = a[0] {
            quiet_freeing(c, p, files, WorkEnd::Broken(e), b);
        }
        if b.len() > 0 {
            if let ReplyView::Executed { result: Err(err), elapsed_ms } = b[0] {
                quiet_freeing(c, p, files, WorkEnd::Failed(name, err), b.drop_first());
            }
            if let ReplyView::Executed { result: Ok(res), elapsed_ms } = b[0] {
                let h = FireView { name, transition_def: t, arguments: res.output, driven: true };
                if b.len() > 1 {
                    lemma_begun_runs(c, p, h, files, b.drop_first().drop_first());
                }
            }
        }
    }
}

/// Whether the locks of an executor's files were asked for at a point of a turn, and granted.
spec fn granted_in(c: ChainJobView, p: ProgressView, r: Seq<ReplyView>, k: int, v: ChainView) -> bool {
    &&& 0 <= k < r.len()
    &&& r[k] matches ReplyView::Locks(Ok(_))
    &&& hop(c, p, r.take(k)) == TurnView::Stop(
        ChainView::Do(asking_locks(v)),
    )
}

proof fn lemma_locking_runs(c: ChainJobView, p: ProgressView, due: DueView, r: Seq<ReplyView>)
    ensures
        hop_locking(c, p, due, r) matches TurnView::Stop(v) ==> (owner_runs(c, v) ==> r.len() > 0 && (
        r[0] matches ReplyView::Locks(Ok(_))) && hop_locking(c, p, due, Seq::empty())
            == TurnView::Stop(
            ChainView::Do(asking_locks(v)),
        )),
{
    let files = needed_files(c, due_def(due));
    let s = if files.len() == 0 {
        r
    } else {
        r.drop_first().drop_first()
    };
    match due {
        DueView::Fire(name, t) => {
            let h = FireView {
                name,
                transition_def: t,
                arguments: JsonView::Object(Seq::empty()),
                driven: false,
            };
            lemma_begun_runs(c, p, h, files, s);
        },
        DueView::Drive(name, t) => lemma_driving_runs(c, p, name, t, files, s),
    }
}

proof fn lemma_hop_runs(c: ChainJobView, p: ProgressView, r: Seq<ReplyView>)
    ensures
        hop(c, p, r) matches TurnView::Stop(v) ==> (owner_runs(c, v) ==> exists|k: int| #[trigger]
            granted_in(c, p, r, k, v)),
{
    reveal(hop);
    if let TurnView::Stop(v) = hop(c, p, r) {
        if owner_runs(c, v) {
            match next_hop(c, p) {
                HopChoice::Fire(own) => {
                    if let ReplyView::Selected(Ok((name, t))) = r[0] {
                        let due = DueView::Fire(name, t);
                        lemma_locking_runs(c, p, due, r.drop_first());
                        assert(r.take(1)[0] == r[0]);
                        assert(r.take(1).drop_first() =~= Seq::empty());
                        assert(granted_in(c, p, r, 1, v));
                    }
                },
                HopChoice::Drive(name, t) => {
                    lemma_locking_runs(c, p, DueView::Drive(name, t), r);
                    assert(r.take(0) =~= Seq::empty());
                    assert(granted_in(c, p, r, 0, v));
                },
                _ => {},
            }
        }
    }
}

/// A hop that goes on does so with each longer part of its replies alike.
pub proof fn lemma_hop_prefix(
    c: ChainJobView,
    p: ProgressView,
    r: Seq<ReplyView>,
    q: ProgressView,
    s: Seq<ReplyView>,
    j: int,
)
    requires
        hop(c, p, r) == TurnView::Advance(q, s),
        0 <= j <= s.len(),
    ensures
        s.len() < r.len(),
        hop(c, p, r.take(r.len() - s.len() + j)) == TurnView::Advance(q, s.take(j)),
        j < s.len() ==> s[j] == r[r.len() - s.len() + j],
    decreases s.len() - j,
{
    lemma_hop(c, p, r);
    if j == s.len() {
        assert(r.take(r.len() as int) =~= r);
        assert(s.take(j) =~= s);
    } else {
        let r0 = r.drop_last();
        let s0 = s.drop_last();
        lemma_hop_prefix(c, p, r0, q, s0, j);
        assert(r0.take(r0.len() - s0.len() + j) =~= r.take(r.len() - s.len() + j));
        assert(s0.take(j) =~= s.take(j));
    }
}

/// Whether the locks of an executor's files were asked for at a point of a chain, and granted.
pub open spec fn granted(
    c: ChainJobView,
    p: ProgressView,
    r: Seq<ReplyView>,
    k: int,
    v: ChainView,
) -> bool {
    &&& 0 <= k < r.len()
    &&& r[k] matches ReplyView::Locks(Ok(_))
    &&& chain(c, p, r.take(k)) == ChainView::Do(
        asking_locks(v),
    )
}

/// A chain runs an executor that owns files only after the locks of these files were granted.
pub proof fn law_chain_holds_what_it_owns(c: ChainJobView, p: ProgressView, r: Seq<ReplyView>)
    ensures
        owner_runs(c, chain(c, p, r)) ==> exists|k: int| #[trigger]
            granted(c, p, r, k, chain(c, p, r)),
    decreases r.len(),
{
    let v = chain(c, p, r);
    if owner_runs(c, v) {
        lemma_hop(c, p, r);
        lemma_hop_runs(c, p, r);
        match hop(c, p, r) {
            TurnView::Stop(w) => {
                let k = choose|k: int| #[trigger] granted_in(c, p, r, k, w);
                assert(granted(c, p, r, k, v));
            },
            TurnView::Advance(q, s) => {
                law_chain_holds_what_it_owns(c, q, s);
                let k = choose|k: int| #[trigger] granted(c, q, s, k, v);
                lemma_hop_prefix(c, p, r, q, s, k);
                let at = r.len() - s.len() + k;
                assert(chain(c, p, r.take(at)) == chain(c, q, s.take(k)));
                assert(granted(c, p, r, at, v));
            },
        }
    }
}

/// The locks that a chain holds for an executor are given back as soon as it is done, whether
/// it did well or failed.
pub proof fn law_chain_gives_locks_back(
    c: ChainJobView,
    p: ProgressView,
    r: Seq<ReplyView>,
    x: ReplyView,
)
    requires
        x matches ReplyView::Executed { .. },
    ensures
        owner_runs(c, chain(c, p, r)) ==> chain(c, p, r.push(x)) == ChainView::Do(
            EffectView::Release {
                files: owned_by(chain(c, p, r)).0,
                holder: owned_by(chain(c, p, r)).1,
            },
        ),
    decreases r.len(),
{
    if owner_runs(c, chain(c, p, r)) {
        let more = r.push(x);
        assert(more.drop_last() =~= r);
        lemma_hop(c, p, r);
        lemma_hop(c, p, more);
        if let TurnView::Advance(q, s) = hop(c, p, r) {
            law_chain_gives_locks_back(c, q, s, x);
            assert(hop(c, p, more) == TurnView::Advance(q, s.push(x)));
        }
    }
}

} // verus!
