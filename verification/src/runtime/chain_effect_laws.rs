//! What a chain asks for, and with what: every effect of a hop carries what the instance, its
//! declaration and the replies so far say.

use vstd::prelude::*;

use crate::json::{lemma_reads_put, number, JsonView, Members};
use crate::model::InstanceView;
use crate::repo_locks::owned_files;
use crate::runtime::agent::agent_config;
use crate::runtime::chain::{
    after_hop, chain, due_def, hop, hop_asking, hop_begun, hop_cleared, hop_committing, hop_driving,
    hop_firing, hop_freeing, hop_judged, hop_leading, hop_locking, hop_next, hop_plain,
    hop_produced, hop_running, hop_stored, hop_written, hops_slot, hops_taken, needed_files,
    next_hop, ChainJobView, ChainView, DueView, FireView, HopChoice, HopWorkView, TurnView, WorkEnd,
};
use crate::runtime::context::{advanced, given_up, left_behind};
use crate::runtime::effects::{EvidenceView, HopView, OutcomeView, ProgressView, ResultView};
use crate::runtime::records::{all_checks, slot_violation, violation, SlotCheckView};
use crate::runtime::schema::SchemaVerdict;
use crate::runtime::script::{EffectView, ReplyView};
use crate::scan::lemma_found_nowhere;

verus! {

/// Where in the replies to a hop its steps stand; a step that was not taken stands nowhere.
pub struct HopPlaces {
    /// The agent that drives the transition came back.
    pub agent: int,
    /// The executor came back.
    pub ran: int,
    /// The output was merged.
    pub merged: int,
    /// The target was chosen.
    pub target: int,
    /// The hop was stored.
    pub saved: int,
}

/// No step yet.
pub open spec fn no_places() -> HopPlaces {
    HopPlaces { agent: -1, ran: -1, merged: -1, target: -1, saved: -1 }
}

/// The result of an executor at a place.
pub open spec fn result_at(r: Seq<ReplyView>, k: int) -> Option<(ResultView, u64)> {
    if 0 <= k < r.len() {
        match r[k] {
            ReplyView::Executed { result: Ok(res), elapsed_ms } => Some((res, elapsed_ms)),
            _ => None,
        }
    } else {
        None
    }
}

/// A merged context at a place.
pub open spec fn context_at(r: Seq<ReplyView>, k: int) -> Option<JsonView> {
    if 0 <= k < r.len() {
        match r[k] {
            ReplyView::Merged(Ok(context)) => Some(context),
            _ => None,
        }
    } else {
        None
    }
}

/// A target at a place.
pub open spec fn target_at(r: Seq<ReplyView>, k: int) -> Option<Seq<char>> {
    if 0 <= k < r.len() {
        match r[k] {
            ReplyView::Target(Ok(target)) => Some(target),
            _ => None,
        }
    } else {
        None
    }
}

/// An instance at a place.
pub open spec fn saved_at(r: Seq<ReplyView>, k: int) -> Option<InstanceView> {
    if 0 <= k < r.len() {
        match r[k] {
            ReplyView::Instance(Ok(i)) => Some(i),
            _ => None,
        }
    } else {
        None
    }
}

/// The transition of a hop: one that the runtime chose among its own, or one that it drives
/// through an agent.
pub open spec fn of_hop(
    c: ChainJobView,
    p: ProgressView,
    r: Seq<ReplyView>,
    h: FireView,
    at: HopPlaces,
) -> bool {
    if h.driven {
        &&& next_hop(c, p) == HopChoice::Drive(h.name, h.transition_def)
        &&& 0 <= at.agent < r.len() ==> (result_at(r, at.agent) matches Some((res, _))
            && h.arguments == res.output)
    } else {
        &&& next_hop(c, p) is Fire
        &&& r.len() > 0 && r[0] == ReplyView::Selected(Ok((h.name, h.transition_def)))
        &&& h.arguments == JsonView::Object(Seq::empty())
    }
}

/// What a hop wrote: the merged context; with an executor, without the wait that the transition
/// had.
pub open spec fn hop_wrote(h: FireView, r: Seq<ReplyView>, at: HopPlaces) -> Option<JsonView> {
    match context_at(r, at.merged) {
        Some(context) => if h.transition_def.get("executor"@) is Some {
            Some(advanced(context, h.name))
        } else {
            Some(context)
        },
        None => None,
    }
}

/// What the executor of a hop vouched for, behind what was vouched for before.
pub open spec fn hop_vouched(p: ProgressView, h: FireView, r: Seq<ReplyView>, at: HopPlaces) -> Seq<
    EvidenceView,
> {
    match (h.transition_def.get("executor"@), result_at(r, at.ran)) {
        (Some(_), Some((res, _))) => p.evidence + res.evidence,
        _ => p.evidence,
    }
}

/// Whether all slots that a hop wrote were found to fit their schemas.
pub open spec fn hop_all_fit(c: ChainJobView, h: FireView, r: Seq<ReplyView>, at: HopPlaces) -> bool {
    &&& 0 <= at.merged && at.merged + 1 < r.len()
    &&& hop_wrote(h, r, at) matches Some(context) && r[at.merged + 1] matches ReplyView::Verdicts(v)
        && {
        let checks = all_checks(c.definition, h.transition_def.get("output"@), context);
        &&& v.len() == checks.len()
        &&& forall|k: int| 0 <= k < v.len() ==> #[trigger] v[k] == SchemaVerdict::Valid
        &&& forall|k: int| 0 <= k < v.len() ==> !(#[trigger] checks[k] is Unregistered)
    }
}

/// The instance that a hop leads to: in the state that was chosen, one version on, without what
/// belonged to the state that is left, with one hop more counted, and else as it was.
pub open spec fn hop_leads_to(
    c: ChainJobView,
    p: ProgressView,
    h: FireView,
    r: Seq<ReplyView>,
    at: HopPlaces,
    next: InstanceView,
) -> bool {
    &&& target_at(r, at.target) == Some(next.state)
    &&& next.version == (p.instance.version + 1) as u64
    &&& next == (InstanceView {
        state: next.state,
        version: next.version,
        context: next.context,
        ..p.instance
    })
    &&& hop_wrote(h, r, at) matches Some(context) && {
        let left = left_behind(c.definition, p.instance.state, next.state, context);
        &&& forall|key: Seq<char>| key != "_chain_hops_total"@ ==> #[trigger] next.context.get(key)
            == left.get(key)
        &&& left is Object ==> next.context.get("_chain_hops_total"@) == Some(
            number(
                if hops_taken(left) < u64::MAX {
                    (hops_taken(left) + 1) as u64
                } else {
                    u64::MAX
                },
            ),
        )
        &&& !(left is Object) ==> next.context == left
    }
}

/// How an effect of a hop fits what is to be done and what came back.
#[verifier::opaque]
pub open spec fn hop_fits(
    c: ChainJobView,
    p: ProgressView,
    h: FireView,
    r: Seq<ReplyView>,
    at: HopPlaces,
    e: EffectView,
) -> bool {
    let i = p.instance;
    let t = h.transition_def;
    let config = t.get("executor"@);
    match e {
        EffectView::Select { candidates, instance, acting } => {
            &&& r.len() == 0
            &&& next_hop(c, p) == HopChoice::Fire(candidates)
            &&& instance == i
            &&& acting == c.acting
        },
        EffectView::Acquire { files, holder, ttl_secs } => {
            &&& of_hop(c, p, r, h, at)
            &&& c.locks
            &&& config is Some && files == owned_files(config->0)
            &&& holder == "wf:"@ + i.id
            &&& ttl_secs == 300
        },
        EffectView::Release { files, holder } => {
            &&& of_hop(c, p, r, h, at)
            &&& config is Some && files == owned_files(config->0)
            &&& holder == "wf:"@ + i.id
        },
        EffectView::ParsePolicy { reliability } => {
            &&& of_hop(c, p, r, h, at)
            &&& reliability == t.get("reliability"@)
        },
        EffectView::Execute { instance, fired, arguments, config: x, reliability, correlation_id } => {
            &&& of_hop(c, p, r, h, at)
            &&& instance == i
            &&& fired == Some(h.name)
            &&& reliability == t.get("reliability"@)
            &&& correlation_id == c.acting.correlation_id
            &&& {
                ||| Some(x) == config && arguments == h.arguments && (h.driven ==> 0 <= at.agent
                    < r.len())
                ||| h.driven && x == agent_config(c.definition, i, t, c.auto) && arguments
                    == JsonView::Object(Seq::empty()) && !(0 <= at.agent < r.len())
            }
        },
        EffectView::Merge { context, output, arguments, input, result } => {
            &&& of_hop(c, p, r, h, at)
            &&& h.driven ==> 0 <= at.agent < r.len()
            &&& context == i.context
            &&& input == i.input
            &&& output == t.get("output"@)
            &&& arguments == h.arguments
            &&& config is None ==> result == JsonView::Null
            &&& config is Some ==> at.agent < at.ran && (result_at(r, at.ran) matches Some((res, _))
                && res.suspend is None && res.next_transition is None && result == res.output)
        },
        EffectView::CheckSlots { checks } => {
            &&& of_hop(c, p, r, h, at)
            &&& hop_wrote(h, r, at) matches Some(context) && checks == all_checks(
                c.definition,
                t.get("output"@),
                context,
            )
        },
        EffectView::ResolveTarget { acting, transition_def, instance, arguments } => {
            &&& of_hop(c, p, r, h, at)
            &&& hop_all_fit(c, h, r, at)
            &&& acting == c.acting
            &&& transition_def == t
            &&& arguments == h.arguments
            &&& instance == (InstanceView { context: instance.context, ..i })
            &&& hop_wrote(h, r, at) == Some(instance.context)
        },
        EffectView::Record { params, correlation_id } => {
            &&& of_hop(c, p, r, h, at)
            &&& correlation_id == c.acting.correlation_id
            &&& hop_leads_to(c, p, h, r, at, params.instance)
            &&& params.before == i.context
            &&& params.from_state == i.state
            &&& params.transition == h.name
            &&& params.transition_def == t
            &&& params.actor == (if h.driven {
                "agent"@
            } else {
                "deterministic"@
            })
            &&& params.principal is None
            &&& params.arguments == h.arguments
            &&& params.guards.len() == 0
            &&& config is None ==> params.executor is None && params.child_workflow_id is None
            &&& config is Some ==> (result_at(r, at.ran) matches Some((res, ms)) && params.executor
                == Some((true, ms)) && params.child_workflow_id == res.child_workflow_id)
        },
        EffectView::Save { instance, expected_version } => {
            &&& of_hop(c, p, r, h, at)
            &&& hop_all_fit(c, h, r, at)
            &&& hop_leads_to(c, p, h, r, at, instance)
            &&& expected_version == i.version
        },
        EffectView::KeepEvidence { workflow_id, evidence } => {
            &&& of_hop(c, p, r, h, at)
            &&& c.evidence
            &&& saved_at(r, at.saved) matches Some(saved) && workflow_id == saved.id
            &&& evidence == hop_vouched(p, h, r, at)
        },
        EffectView::OnEnter { instance, correlation_id } => {
            &&& of_hop(c, p, r, h, at)
            &&& saved_at(r, at.saved) == Some(instance)
            &&& correlation_id == c.acting.correlation_id
            &&& r.len() == at.saved + (if c.evidence {
                3int
            } else {
                2int
            })
        },
        EffectView::Now => saved_at(r, at.saved) is Some,
        EffectView::Audit { event, .. } => {
            ||| event.workflow_id == Some(i.id)
            ||| (saved_at(r, at.saved) matches Some(x) && event.workflow_id == Some(x.id))
            ||| (saved_at(r, at.saved + 2) matches Some(x) && event.workflow_id == Some(x.id))
            ||| (saved_at(r, at.saved + 3) matches Some(x) && event.workflow_id == Some(x.id))
        },
        EffectView::ResumeReadyLocks => true,
        _ => false,
    }
}

/// How the end of a hop fits: what is left is where the chain stood, or where the hop led to.
#[verifier::opaque]
pub open spec fn end_fits(
    c: ChainJobView,
    p: ProgressView,
    h: FireView,
    r: Seq<ReplyView>,
    at: HopPlaces,
    o: OutcomeView,
) -> bool {
    match o {
        OutcomeView::Completed(q) => (q == p && next_hop(c, p) is Rest) || stepped(p, h, r, at, q),
        OutcomeView::Suspended { partial, suspend, transition } => {
            &&& of_hop(c, p, r, h, at)
            &&& partial == p
            &&& transition == h.name
            &&& result_at(r, at.ran) matches Some((res, _)) && res.suspend == Some(suspend)
        },
        OutcomeView::WaitingOnLock { partial, transition, files, conflicts } => {
            &&& of_hop(c, p, r, h, at)
            &&& partial == p
            &&& transition == h.name
            &&& h.transition_def.get("executor"@) matches Some(config) && files == owned_files(config)
            &&& r.contains(ReplyView::Locks(Err(conflicts)))
        },
        OutcomeView::Failed { partial, error, error_class, failed_transition } => {
            ||| {
                &&& partial == p
                &&& error_class == "selection_error"@
                &&& failed_transition.len() == 0
                &&& r.len() > 0 && r[0] == ReplyView::Selected(Err(error))
            }
            ||| {
                &&& of_hop(c, p, r, h, at)
                &&& partial == p
                &&& failed_transition == h.name
                &&& exists|k: int|
                    0 <= k < r.len() && (#[trigger] r[k] matches ReplyView::Executed {
                        result: Err(err),
                        ..
                    } && error == err.message && error_class == err.class)
            }
            ||| {
                &&& of_hop(c, p, r, h, at)
                &&& failed_transition == h.name
                &&& error_class == "blackboard_type_error"@
                &&& hop_wrote(h, r, at) == Some(partial.instance.context)
                &&& partial == (ProgressView {
                    instance: InstanceView { context: partial.instance.context, ..p.instance },
                    ..p
                })
            }
        },
        OutcomeView::Quarantined { partial, .. } => partial == p && next_hop(c, p) is Spent,
    }
}

/// Whether a chain took one step: it is where the new state was entered, with the step told.
pub open spec fn stepped(
    p: ProgressView,
    h: FireView,
    r: Seq<ReplyView>,
    at: HopPlaces,
    q: ProgressView,
) -> bool {
    &&& saved_at(r, at.saved) matches Some(saved) && target_at(r, at.target) matches Some(target) && {
        &&& q.steps == p.steps.push(
            HopView {
                from_state: p.instance.state,
                transition: h.name,
                to_state: target,
                version: saved.version,
            },
        )
        &&& q.evidence == hop_vouched(p, h, r, at)
        &&& {
            ||| saved_at(r, at.saved + 2) == Some(q.instance)
            ||| saved_at(r, at.saved + 3) == Some(q.instance)
        }
    }
}

#[verifier::opaque]
spec fn turn_fits(
    c: ChainJobView,
    p: ProgressView,
    h: FireView,
    r: Seq<ReplyView>,
    at: HopPlaces,
    v: TurnView,
) -> bool {
    match v {
        TurnView::Stop(ChainView::Do(e)) => hop_fits(c, p, h, r, at, e),
        TurnView::Stop(ChainView::Done(Ok(o))) => end_fits(c, p, h, r, at, o),
        TurnView::Stop(_) => true,
        TurnView::Advance(q, s) => of_hop(c, p, r, h, at) && stepped(p, h, r, at, q),
    }
}

spec fn hop_work(
    c: ChainJobView,
    p: ProgressView,
    h: FireView,
    r: Seq<ReplyView>,
    at: HopPlaces,
    w: HopWorkView,
) -> bool {
    let config = h.transition_def.get("executor"@);
    &&& of_hop(c, p, r, h, at)
    &&& hop_wrote(h, r, at) == Some(w.context)
    &&& w.evidence == hop_vouched(p, h, r, at)
    &&& config is None ==> w.executor is None && w.child_workflow_id is None
    &&& config is Some ==> (result_at(r, at.ran) matches Some((res, ms)) && w.executor == Some(
        (true, ms),
    ) && w.child_workflow_id == res.child_workflow_id)
}

proof fn lemma_behind(all: Seq<ReplyView>, n: int)
    requires
        0 <= n <= all.len(),
    ensures
        all.skip(n).len() == all.len() - n,
        n < all.len() ==> all.skip(n)[0] == all[n] && all.skip(n).drop_first() == all.skip(n + 1),
{
    if n < all.len() {
        assert(all.skip(n).drop_first() =~= all.skip(n + 1));
    }
}

proof fn lemma_hop_next(
    c: ChainJobView,
    p: ProgressView,
    h: FireView,
    r: Seq<ReplyView>,
    at: HopPlaces,
    w: HopWorkView,
    target: Seq<char>,
)
    requires
        target_at(r, at.target) == Some(target),
        hop_wrote(h, r, at) == Some(w.context),
    ensures
        hop_leads_to(c, p, h, r, at, hop_next(c, p, w, target)),
{
    broadcast use lemma_reads_put;

    assert(hops_slot() == "_chain_hops_total"@);
}

proof fn lemma_all_fit(checks: Seq<SlotCheckView>, v: Seq<SchemaVerdict>)
    requires
        v.len() == checks.len(),
        slot_violation(checks, v) is None,
    ensures
        forall|k: int| 0 <= k < v.len() ==> #[trigger] v[k] == SchemaVerdict::Valid,
        forall|k: int| 0 <= k < v.len() ==> !(#[trigger] checks[k] is Unregistered),
{
    let found = |i: int| violation(checks[i], v[i]);
    lemma_found_nowhere(checks.len(), found);
    assert forall|k: int| 0 <= k < v.len() implies #[trigger] v[k] == SchemaVerdict::Valid
        && !(checks[k] is Unregistered) by {
        assert(found(k) is None);
    }
    assert forall|k: int| 0 <= k < v.len() implies !(#[trigger] checks[k] is Unregistered) by {
        assert(v[k] == SchemaVerdict::Valid);
    }
}

proof fn lemma_stored(
    c: ChainJobView,
    p: ProgressView,
    h: FireView,
    all: Seq<ReplyView>,
    n: int,
    at: HopPlaces,
    q: ProgressView,
)
    requires
        0 <= at.saved < n <= all.len(),
        n == at.saved + (if c.evidence {
            2int
        } else {
            1int
        }),
        of_hop(c, p, all, h, at),
        saved_at(all, at.saved) == Some(q.instance),
        target_at(all, at.target) is Some,
        q.steps == p.steps.push(
            HopView {
                from_state: p.instance.state,
                transition: h.name,
                to_state: target_at(all, at.target)->0,
                version: q.instance.version,
            },
        ),
        q.evidence == hop_vouched(p, h, all, at),
    ensures
        turn_fits(c, p, h, all, at, hop_stored(c, q, h, all.skip(n))),
{
    reveal(turn_fits);
    reveal(hop_fits);
    reveal(end_fits);
    lemma_behind(all, n);
    if n < all.len() {
        lemma_behind(all, n + 1);
        if n + 1 < all.len() {
            if let ReplyView::Instance(Ok(i)) = all[n + 1] {
                lemma_behind(all, n + 2);
                let z = ProgressView { instance: i, ..q };
                assert(saved_at(all, n + 1) == Some(i));
                assert(stepped(p, h, all, at, z));
            }
        }
    }
}

proof fn lemma_committing(
    c: ChainJobView,
    p: ProgressView,
    h: FireView,
    w: HopWorkView,
    target: Seq<char>,
    all: Seq<ReplyView>,
    n: int,
    at: HopPlaces,
) -> (g: HopPlaces)
    requires
        0 <= n <= all.len(),
        hop_work(c, p, h, all, at, w),
        hop_all_fit(c, h, all, at),
        target_at(all, at.target) == Some(target),
    ensures
        turn_fits(c, p, h, all, g, hop_committing(c, p, h, w, target, all.skip(n))),
{
    lemma_hop_next(c, p, h, all, at, w, target);
    lemma_behind(all, n);
    if n + 1 < all.len() {
        lemma_behind(all, n + 1);
        lemma_behind(all, n + 2);
        let g = HopPlaces { saved: n + 1, ..at };
        match (all[n], all[n + 1]) {
            (ReplyView::Done(Ok(_)), ReplyView::Instance(Ok(saved))) => {
                let q = after_hop(p, h, w, target, saved);
                if c.evidence {
                    if n + 2 < all.len() && all[n + 2] is Done {
                        lemma_stored(c, p, h, all, n + 3, g, q);
                    } else {
                        reveal(turn_fits);
                        reveal(hop_fits);
                    }
                } else {
                    lemma_stored(c, p, h, all, n + 2, g, q);
                }
                g
            },
            _ => {
                reveal(turn_fits);
                g
            },
        }
    } else {
        reveal(turn_fits);
        reveal(hop_fits);
        if n < all.len() {
            lemma_behind(all, n + 1);
        }
        at
    }
}

proof fn lemma_leading(
    c: ChainJobView,
    p: ProgressView,
    h: FireView,
    w: HopWorkView,
    all: Seq<ReplyView>,
    n: int,
    at: HopPlaces,
) -> (g: HopPlaces)
    requires
        0 <= n <= all.len(),
        hop_work(c, p, h, all, at, w),
        hop_all_fit(c, h, all, at),
    ensures
        turn_fits(c, p, h, all, g, hop_leading(c, p, h, w, all.skip(n))),
{
    lemma_behind(all, n);
    if n < all.len() {
        lemma_behind(all, n + 1);
        match all[n] {
            ReplyView::Target(Ok(target)) => {
                let g = HopPlaces { target: n, ..at };
                if given_up(c.definition, p.instance.state, target, w.context).len() > 0 {
                    if n + 1 < all.len() && all[n + 1] is Done {
                        lemma_committing(c, p, h, w, target, all, n + 2, g)
                    } else {
                        reveal(turn_fits);
                        reveal(hop_fits);
                        g
                    }
                } else {
                    lemma_committing(c, p, h, w, target, all, n + 1, g)
                }
            },
            _ => {
                reveal(turn_fits);
                at
            },
        }
    } else {
        reveal(turn_fits);
        reveal(hop_fits);
        at
    }
}

proof fn lemma_written(
    c: ChainJobView,
    p: ProgressView,
    h: FireView,
    w: HopWorkView,
    all: Seq<ReplyView>,
    n: int,
    at: HopPlaces,
) -> (g: HopPlaces)
    requires
        0 <= n <= all.len(),
        n == at.merged + 1,
        hop_work(c, p, h, all, at, w),
    ensures
        turn_fits(c, p, h, all, g, hop_written(c, p, h, w, all.skip(n))),
{
    lemma_behind(all, n);
    let checks = all_checks(c.definition, h.transition_def.get("output"@), w.context);
    if n < all.len() {
        match all[n] {
            ReplyView::Verdicts(v) => if v.len() == checks.len() && slot_violation(checks, v) is None {
                lemma_all_fit(checks, v);
                lemma_leading(c, p, h, w, all, n + 1, at)
            } else {
                lemma_behind(all, n + 1);
                reveal(turn_fits);
                reveal(hop_fits);
                reveal(end_fits);
                at
            },
            _ => {
                reveal(turn_fits);
                at
            },
        }
    } else {
        reveal(turn_fits);
        reveal(hop_fits);
        at
    }
}

proof fn lemma_plain(
    c: ChainJobView,
    p: ProgressView,
    h: FireView,
    all: Seq<ReplyView>,
    n: int,
    at: HopPlaces,
) -> (g: HopPlaces)
    requires
        0 <= n <= all.len(),
        of_hop(c, p, all, h, at),
        h.driven ==> 0 <= at.agent < all.len(),
        h.transition_def.get("executor"@) is None,
    ensures
        turn_fits(c, p, h, all, g, hop_plain(c, p, h, all.skip(n))),
{
    lemma_behind(all, n);
    if n < all.len() {
        match all[n] {
            ReplyView::Merged(Ok(context)) => {
                let g = HopPlaces { merged: n, ..at };
                let w = HopWorkView {
                    context,
                    evidence: p.evidence,
                    child_workflow_id: None,
                    executor: None,
                };
                lemma_written(c, p, h, w, all, n + 1, g)
            },
            _ => {
                reveal(turn_fits);
                at
            },
        }
    } else {
        reveal(turn_fits);
        reveal(hop_fits);
        at
    }
}

proof fn lemma_produced(
    c: ChainJobView,
    p: ProgressView,
    h: FireView,
    res: ResultView,
    elapsed_ms: u64,
    all: Seq<ReplyView>,
    n: int,
    at: HopPlaces,
) -> (g: HopPlaces)
    requires
        0 <= n <= all.len(),
        of_hop(c, p, all, h, at),
        h.driven ==> 0 <= at.agent < all.len(),
        h.transition_def.get("executor"@) is Some,
        at.agent < at.ran,
        result_at(all, at.ran) == Some((res, elapsed_ms)),
    ensures
        turn_fits(c, p, h, all, g, hop_produced(c, p, h, res, elapsed_ms, all.skip(n))),
{
    lemma_behind(all, n);
    if res.suspend is Some || res.next_transition is Some || n == all.len() {
        reveal(turn_fits);
        reveal(hop_fits);
        reveal(end_fits);
        at
    } else {
        match all[n] {
            ReplyView::Merged(Ok(context)) => {
                let g = HopPlaces { merged: n, ..at };
                let w = HopWorkView {
                    context: advanced(context, h.name),
                    evidence: p.evidence + res.evidence,
                    child_workflow_id: res.child_workflow_id,
                    executor: Some((true, elapsed_ms)),
                };
                lemma_written(c, p, h, w, all, n + 1, g)
            },
            _ => {
                reveal(turn_fits);
                at
            },
        }
    }
}

/// How the work of a hop ended, as the replies tell it.
spec fn ended_as(h: FireView, all: Seq<ReplyView>, at: HopPlaces, end: WorkEnd) -> bool {
    match end {
        WorkEnd::Broken(_) => true,
        WorkEnd::Failed(name, err) => name == h.name && 0 <= at.ran < all.len() && (
        all[at.ran] matches ReplyView::Executed { result: Err(x), .. } && x == err),
        WorkEnd::Ran(g, res, ms) => g == h && result_at(all, at.ran) == Some((res, ms)) && at.agent
            < at.ran && (h.driven ==> 0 <= at.agent < all.len())
            && h.transition_def.get("executor"@) is Some,
    }
}

proof fn lemma_judged(
    c: ChainJobView,
    p: ProgressView,
    h: FireView,
    end: WorkEnd,
    all: Seq<ReplyView>,
    n: int,
    at: HopPlaces,
) -> (g: HopPlaces)
    requires
        0 <= n <= all.len(),
        of_hop(c, p, all, h, at),
        ended_as(h, all, at, end),
    ensures
        turn_fits(c, p, h, all, g, hop_judged(c, p, end, all.skip(n))),
{
    match end {
        WorkEnd::Ran(g, res, ms) => lemma_produced(c, p, h, res, ms, all, n, at),
        _ => {
            lemma_behind(all, n);
            reveal(turn_fits);
            reveal(hop_fits);
            reveal(end_fits);
            at
        },
    }
}

proof fn lemma_freeing(
    c: ChainJobView,
    p: ProgressView,
    h: FireView,
    files: Seq<Seq<char>>,
    end: WorkEnd,
    all: Seq<ReplyView>,
    n: int,
    at: HopPlaces,
) -> (g: HopPlaces)
    requires
        0 <= n <= all.len(),
        of_hop(c, p, all, h, at),
        ended_as(h, all, at, end),
        files == needed_files(c, h.transition_def),
    ensures
        turn_fits(c, p, h, all, g, hop_freeing(c, p, files, end, all.skip(n))),
{
    if files.len() == 0 {
        lemma_judged(c, p, h, end, all, n, at)
    } else {
        lemma_behind(all, n);
        if n + 2 < all.len() && all[n] is Done && all[n + 1] is Done && all[n + 2] is Done {
            lemma_behind(all, n + 1);
            lemma_behind(all, n + 2);
            lemma_judged(c, p, h, end, all, n + 3, at)
        } else {
            reveal(turn_fits);
            reveal(hop_fits);
            if n < all.len() {
                lemma_behind(all, n + 1);
                if n + 1 < all.len() {
                    lemma_behind(all, n + 2);
                }
            }
            at
        }
    }
}

proof fn lemma_running(
    c: ChainJobView,
    p: ProgressView,
    h: FireView,
    files: Seq<Seq<char>>,
    config: JsonView,
    all: Seq<ReplyView>,
    n: int,
    at: HopPlaces,
) -> (g: HopPlaces)
    requires
        0 <= n <= all.len(),
        of_hop(c, p, all, h, at),
        at.agent < n,
        h.driven ==> 0 <= at.agent < all.len(),
        h.transition_def.get("executor"@) == Some(config),
        files == needed_files(c, h.transition_def),
    ensures
        turn_fits(c, p, h, all, g, hop_running(c, p, h, files, config, all.skip(n))),
{
    lemma_behind(all, n);
    if n < all.len() {
        lemma_behind(all, n + 1);
        match all[n] {
            ReplyView::Done(Err(e)) => lemma_freeing(
                c,
                p,
                h,
                files,
                WorkEnd::Broken(e),
                all,
                n + 1,
                at,
            ),
            ReplyView::Done(Ok(_)) => if n + 1 < all.len() {
                let g = HopPlaces { ran: n + 1, ..at };
                match all[n + 1] {
                    ReplyView::Executed { result: Ok(res), elapsed_ms } => lemma_freeing(
                        c,
                        p,
                        h,
                        files,
                        WorkEnd::Ran(h, res, elapsed_ms),
                        all,
                        n + 2,
                        g,
                    ),
                    ReplyView::Executed { result: Err(err), elapsed_ms } => lemma_freeing(
                        c,
                        p,
                        h,
                        files,
                        WorkEnd::Failed(h.name, err),
                        all,
                        n + 2,
                        g,
                    ),
                    _ => {
                        reveal(turn_fits);
                        at
                    },
                }
            } else {
                reveal(turn_fits);
                reveal(hop_fits);
                at
            },
            _ => {
                reveal(turn_fits);
                at
            },
        }
    } else {
        reveal(turn_fits);
        reveal(hop_fits);
        at
    }
}

proof fn lemma_begun(
    c: ChainJobView,
    p: ProgressView,
    h: FireView,
    files: Seq<Seq<char>>,
    all: Seq<ReplyView>,
    n: int,
    at: HopPlaces,
) -> (g: HopPlaces)
    requires
        0 <= n <= all.len(),
        of_hop(c, p, all, h, at),
        at.agent < n,
        h.driven ==> 0 <= at.agent < all.len(),
        files == needed_files(c, h.transition_def),
    ensures
        turn_fits(c, p, h, all, g, hop_begun(c, p, h, files, all.skip(n))),
{
    reveal(hop_begun);
    lemma_behind(all, n);
    if n < all.len() && all[n] is Done {
        match h.transition_def.get("executor"@) {
            None => lemma_plain(c, p, h, all, n + 1, at),
            Some(config) => lemma_running(c, p, h, files, config, all, n + 1, at),
        }
    } else {
        reveal(turn_fits);
        reveal(hop_fits);
        at
    }
}

/// The transition that an agent is asked about.
spec fn asked(name: Seq<char>, t: JsonView) -> FireView {
    FireView { name, transition_def: t, arguments: JsonView::Object(Seq::empty()), driven: true }
}

proof fn lemma_asking(
    c: ChainJobView,
    p: ProgressView,
    name: Seq<char>,
    t: JsonView,
    files: Seq<Seq<char>>,
    all: Seq<ReplyView>,
    n: int,
) -> (g: (FireView, HopPlaces))
    requires
        0 <= n <= all.len(),
        next_hop(c, p) == HopChoice::Drive(name, t),
        files == needed_files(c, t),
    ensures
        turn_fits(c, p, g.0, all, g.1, hop_asking(c, p, name, t, files, all.skip(n))),
{
    lemma_behind(all, n);
    let h0 = asked(name, t);
    if n < all.len() {
        match all[n] {
            ReplyView::Executed { result: Err(err), elapsed_ms } => {
                let at = HopPlaces { ran: n, ..no_places() };
                (h0, lemma_freeing(c, p, h0, files, WorkEnd::Failed(name, err), all, n + 1, at))
            },
            ReplyView::Executed { result: Ok(res), elapsed_ms } => {
                let at = HopPlaces { agent: n, ..no_places() };
                let h = FireView {
                    name,
                    transition_def: t,
                    arguments: res.output,
                    driven: true,
                };
                lemma_behind(all, n + 1);
                if n + 1 < all.len() && all[n + 1] is Done {
                    (h, lemma_begun(c, p, h, files, all, n + 2, at))
                } else {
                    reveal(turn_fits);
                    reveal(hop_fits);
                    (h, at)
                }
            },
            _ => {
                reveal(turn_fits);
                (h0, no_places())
            },
        }
    } else {
        reveal(turn_fits);
        reveal(hop_fits);
        (h0, no_places())
    }
}

proof fn lemma_driving(
    c: ChainJobView,
    p: ProgressView,
    name: Seq<char>,
    t: JsonView,
    files: Seq<Seq<char>>,
    all: Seq<ReplyView>,
    n: int,
) -> (g: (FireView, HopPlaces))
    requires
        0 <= n <= all.len(),
        next_hop(c, p) == HopChoice::Drive(name, t),
        files == needed_files(c, t),
    ensures
        turn_fits(c, p, g.0, all, g.1, hop_driving(c, p, name, t, files, all.skip(n))),
{
    let h0 = asked(name, t);
    lemma_behind(all, n);
    if n + 1 < all.len() && all[n] is Done {
        lemma_behind(all, n + 1);
        match all[n + 1] {
            ReplyView::Done(Err(e)) => (
                h0,
                lemma_freeing(c, p, h0, files, WorkEnd::Broken(e), all, n + 2, no_places()),
            ),
            ReplyView::Done(Ok(_)) => lemma_asking(c, p, name, t, files, all, n + 2),
            _ => {
                reveal(turn_fits);
                (h0, no_places())
            },
        }
    } else {
        reveal(turn_fits);
        reveal(hop_fits);
        if n < all.len() {
            lemma_behind(all, n + 1);
        }
        (h0, no_places())
    }
}

/// A transition that is due, as a hop takes it up.
spec fn due_is(c: ChainJobView, p: ProgressView, due: DueView, all: Seq<ReplyView>) -> bool {
    match due {
        DueView::Fire(name, t) => next_hop(c, p) is Fire && all.len() > 0 && all[0]
            == ReplyView::Selected(Ok((name, t))),
        DueView::Drive(name, t) => next_hop(c, p) == HopChoice::Drive(name, t),
    }
}

proof fn lemma_cleared(
    c: ChainJobView,
    p: ProgressView,
    due: DueView,
    files: Seq<Seq<char>>,
    all: Seq<ReplyView>,
    n: int,
) -> (g: (FireView, HopPlaces))
    requires
        0 <= n <= all.len(),
        due_is(c, p, due, all),
        files == needed_files(c, due_def(due)),
    ensures
        turn_fits(c, p, g.0, all, g.1, hop_cleared(c, p, due, files, all.skip(n))),
{
    match due {
        DueView::Fire(name, t) => {
            let h = FireView {
                name,
                transition_def: t,
                arguments: JsonView::Object(Seq::empty()),
                driven: false,
            };
            (h, lemma_begun(c, p, h, files, all, n, no_places()))
        },
        DueView::Drive(name, t) => lemma_driving(c, p, name, t, files, all, n),
    }
}

proof fn lemma_locking(
    c: ChainJobView,
    p: ProgressView,
    due: DueView,
    all: Seq<ReplyView>,
    n: int,
) -> (g: (FireView, HopPlaces))
    requires
        0 <= n <= all.len(),
        due_is(c, p, due, all),
    ensures
        turn_fits(c, p, g.0, all, g.1, hop_locking(c, p, due, all.skip(n))),
{
    let t = due_def(due);
    let files = needed_files(c, t);
    if files.len() == 0 {
        lemma_cleared(c, p, due, files, all, n)
    } else {
        lemma_behind(all, n);
        if n + 1 < all.len() && all[n] is Locks && all[n]->Locks_0 is Ok && all[n + 1] is Done {
            lemma_behind(all, n + 1);
            lemma_cleared(c, p, due, files, all, n + 2)
        } else {
            let h = match due {
                DueView::Fire(name, t) => FireView {
                    name,
                    transition_def: t,
                    arguments: JsonView::Object(Seq::empty()),
                    driven: false,
                },
                DueView::Drive(name, t) => asked(name, t),
            };
            reveal(turn_fits);
            reveal(hop_fits);
            reveal(end_fits);
            if n < all.len() {
                lemma_behind(all, n + 1);
                assert(all.contains(all[n]));
            }
            (h, no_places())
        }
    }
}

proof fn lemma_firing(
    c: ChainJobView,
    p: ProgressView,
    own: Members,
    all: Seq<ReplyView>,
) -> (g: (FireView, HopPlaces))
    requires
        next_hop(c, p) == HopChoice::Fire(own),
    ensures
        turn_fits(c, p, g.0, all, g.1, hop_firing(c, p, own, all)),
{
    assert(all.skip(0) =~= all);
    lemma_behind(all, 0);
    if all.len() > 0 && all[0] is Selected && all[0]->Selected_0 is Ok {
        let (name, t) = all[0]->Selected_0->Ok_0;
        lemma_locking(c, p, DueView::Fire(name, t), all, 1)
    } else {
        if all.len() > 0 {
            lemma_behind(all, 1);
        }
        reveal(turn_fits);
        reveal(hop_fits);
        reveal(end_fits);
        (arbitrary(), no_places())
    }
}

/// Whatever a hop comes to fits.
proof fn lemma_hop(c: ChainJobView, p: ProgressView, all: Seq<ReplyView>) -> (g: (
    FireView,
    HopPlaces,
))
    ensures
        turn_fits(c, p, g.0, all, g.1, hop(c, p, all)),
{
    reveal(hop);
    assert(all.skip(0) =~= all);
    match next_hop(c, p) {
        HopChoice::Fire(own) => lemma_firing(c, p, own, all),
        HopChoice::Drive(name, t) => lemma_locking(c, p, DueView::Drive(name, t), all, 0),
        _ => {
            reveal(turn_fits);
            reveal(hop_fits);
            reveal(end_fits);
            (arbitrary(), no_places())
        },
    }
}

/// Where a chain stands: how far it came, and what came back since the last hop.
pub open spec fn hop_now(c: ChainJobView, p: ProgressView, r: Seq<ReplyView>) -> (
    ProgressView,
    Seq<ReplyView>,
)
    decreases r.len(),
{
    match hop(c, p, r) {
        TurnView::Advance(q, s) => if s.len() < r.len() {
            hop_now(c, q, s)
        } else {
            (p, r)
        },
        TurnView::Stop(_) => (p, r),
    }
}

/// How what a chain comes to fits the hop that it is in.
pub open spec fn chain_fits(
    c: ChainJobView,
    q: ProgressView,
    s: Seq<ReplyView>,
    h: FireView,
    at: HopPlaces,
    v: ChainView,
) -> bool {
    match v {
        ChainView::Do(e) => hop_fits(c, q, h, s, at, e),
        ChainView::Done(Ok(o)) => end_fits(c, q, h, s, at, o),
        _ => true,
    }
}

/// Whatever a chain asks for fits the hop that it is in, and whatever it ends with does.
pub proof fn law_chains_ask_for_what_fits(c: ChainJobView, p: ProgressView, r: Seq<ReplyView>)
    ensures
        exists|h: FireView, at: HopPlaces| #[trigger]
            chain_fits(c, hop_now(c, p, r).0, hop_now(c, p, r).1, h, at, chain(c, p, r)),
    decreases r.len(),
{
    let (h, at) = lemma_hop(c, p, r);
    match hop(c, p, r) {
        TurnView::Advance(q, s) => {
            if s.len() < r.len() {
                law_chains_ask_for_what_fits(c, q, s);
                assert(hop_now(c, p, r) == hop_now(c, q, s));
                assert(chain(c, p, r) == chain(c, q, s));
            } else {
                assert(hop_now(c, p, r) == (p, r));
                assert(chain_fits(c, hop_now(c, p, r).0, hop_now(c, p, r).1, h, at, chain(c, p, r)));
            }
        },
        TurnView::Stop(v) => {
            reveal(turn_fits);
            assert(hop_now(c, p, r) == (p, r));
            assert(chain(c, p, r) == v);
            assert(chain_fits(c, hop_now(c, p, r).0, hop_now(c, p, r).1, h, at, chain(c, p, r)));
        },
    }
}

/// A hop that is done leaves the chain in the state that was entered, with the step told.
pub proof fn law_hops_go_on_from_where_they_led(
    c: ChainJobView,
    p: ProgressView,
    r: Seq<ReplyView>,
)
    ensures
        hop(c, p, r) matches TurnView::Advance(q, s) ==> exists|h: FireView, at: HopPlaces|
            #![trigger stepped(p, h, r, at, q)]
            of_hop(c, p, r, h, at) && stepped(p, h, r, at, q),
{
    let (h, at) = lemma_hop(c, p, r);
    reveal(turn_fits);
    if let TurnView::Advance(q, s) = hop(c, p, r) {
        assert(stepped(p, h, r, at, q));
    }
}

/// Every merge that a chain asks for is of the context and the input of the instance that the hop
/// started from, the declared output of the hop's transition, and what its executor produced in
/// this hop; without an executor, of nothing. The arguments are those that an agent gave, or none.
pub proof fn law_chains_merge_what_was_produced(c: ChainJobView, p: ProgressView, r: Seq<ReplyView>)
    ensures
        chain(c, p, r) matches ChainView::Do(
            EffectView::Merge { context, output, arguments, input, result },
        ) ==> {
            let (q, s) = hop_now(c, p, r);
            &&& context == q.instance.context
            &&& input == q.instance.input
            &&& exists|h: FireView, at: HopPlaces|
                #![trigger of_hop(c, q, s, h, at)]
                {
                    &&& of_hop(c, q, s, h, at)
                    &&& output == h.transition_def.get("output"@)
                    &&& arguments == h.arguments
                    &&& h.transition_def.get("executor"@) is None ==> result == JsonView::Null
                    &&& h.transition_def.get("executor"@) is Some ==> at.agent < at.ran && (
                    result_at(s, at.ran) matches Some((res, _)) && result == res.output)
                }
        },
{
    law_chains_ask_for_what_fits(c, p, r);
    if let ChainView::Do(e) = chain(c, p, r) {
        if e is Merge {
            reveal(hop_fits);
            let (q, s) = hop_now(c, p, r);
            let (h, at) = choose|h: FireView, at: HopPlaces| #[trigger]
                chain_fits(c, hop_now(c, p, r).0, hop_now(c, p, r).1, h, at, chain(c, p, r));
            assert(hop_fits(c, q, h, s, at, e));
            assert(of_hop(c, q, s, h, at));
        }
    }
}

} // verus!
