//! What a start asks for, and with what.

use vstd::prelude::*;

use crate::json::{lemma_reads_put, lookup, sorted, JsonView};
use crate::model::{ActingView, InstanceView};
use crate::pointer::pointed;
use crate::runtime::dispatch::{
    completed_entry, files_entry, lock_wait, parked, step_wait, suspended_entry, wait_key,
    DispatchView,
};
use crate::runtime::effects::{OutcomeView, StatusHint, SuspendView};
use crate::runtime::links::terminal;
use crate::runtime::schema::{defaulted, text_at};
use crate::runtime::script::{EffectView, ReplyView};
use crate::runtime::start::{
    born, first_context, law_declared_context_wins, start_admitted, start_ended, start_fresh,
    started_entry, starting, StartJobView,
};
use crate::runtime::submission_laws::{
    instance_at, lemma_lock_wait, lemma_member_names, lemma_parked, lemma_step_wait, parks,
    step_key, tells_files, tells_wait,
};

verus! {

/// Where in the replies to a start its steps stand.
pub struct StartPlaces {
    /// The definition was looked up.
    pub defined: int,
    /// The id was made; the time follows it, and then the store.
    pub named: int,
    /// The first state was entered.
    pub entered: int,
    /// The chain ended.
    pub chained: int,
}

/// The definition at its place.
pub open spec fn definition_at(r: Seq<ReplyView>, k: int) -> Option<JsonView> {
    if 0 <= k < r.len() {
        match r[k] {
            ReplyView::Definition(Ok(d)) => Some(d),
            _ => None,
        }
    } else {
        None
    }
}

/// The place of the definition: the first one, or behind the search for the run.
pub open spec fn definition_place(j: StartJobView) -> int {
    if j.request.run_env.run_id is Some {
        1
    } else {
        0
    }
}

/// The input of an instance: what was asked for, with the defaults of the declared schema.
pub open spec fn admitted_input(definition: JsonView, input: JsonView) -> JsonView {
    match pointed(definition, "/inputSchema"@) {
        Some(schema) => defaulted(schema, input),
        None => input,
    }
}

/// Whether a context is the first one: as the definition declares it, and for what it does not
/// declare, as the input has it.
pub open spec fn begins_with(definition: JsonView, input: JsonView, context: JsonView) -> bool {
    let declared = match definition.get("initialContext"@) {
        Some(c) => c,
        None => JsonView::Object(Seq::empty()),
    };
    match (declared, input) {
        (JsonView::Object(c), JsonView::Object(m)) => context is Object && (sorted(m)
            ==> forall|key: Seq<char>| #[trigger]
            context.get(key) == (match lookup(c, key) {
                Some(v) => Some(v),
                None => lookup(m, key),
            })),
        _ => context == declared,
    }
}

/// How an effect of a start fits what was asked for and what came back.
#[verifier::opaque]
pub open spec fn start_fits(
    j: StartJobView,
    r: Seq<ReplyView>,
    h: StartPlaces,
    e: EffectView,
) -> bool {
    let q = j.request;
    let who = ActingView { principal: q.principal, correlation_id: j.correlation_id };
    &&& !j.draining
    &&& match e {
        EffectView::FindRun { run_id } => r.len() == 0 && q.run_env.run_id == Some(run_id),
        EffectView::LoadDefinition { definition_id } => {
            &&& definition_id == q.definition_id
            &&& r.len() == definition_place(j)
        },
        _ => {
            &&& definition_at(r, definition_place(j)) matches Some(d)
            &&& match e {
                EffectView::CheckSchema { schema, value } => {
                    &&& pointed(d, "/inputSchema"@) == Some(schema)
                    &&& value == admitted_input(d, q.input)
                },
                EffectView::NewId => true,
                EffectView::Now => 0 <= h.named < r.len() && r[h.named] is Id,
                EffectView::Create { instance } => {
                    &&& 0 <= h.named && h.named + 1 < r.len()
                    &&& r[h.named] == ReplyView::Id(instance.id)
                    &&& r[h.named + 1] == ReplyView::Time(instance.started_at)
                    &&& instance.definition_id == q.definition_id
                    &&& instance.definition == d
                    &&& text_at(d, "/version"@) == Some(instance.definition_version)
                    &&& text_at(d, "/initialState"@) == Some(instance.state)
                    &&& instance.version == 0
                    &&& instance.input == admitted_input(d, q.input)
                    &&& begins_with(d, instance.input, instance.context)
                    &&& instance.run_env == q.run_env
                    &&& instance.cancelled_at is None
                    &&& instance.cancelled_reason is None
                    &&& instance.depth == q.depth
                    &&& instance.parent == q.parent
                },
                _ => {
                    &&& instance_at(r, h.named + 2) matches Some(made)
                    &&& match e {
                        EffectView::Watch { workflow_id, timeout_ms } => {
                            &&& workflow_id == made.id
                            &&& d.get_u64("timeoutMs"@) == Some(timeout_ms)
                        },
                        EffectView::OnEnter { instance, correlation_id } => {
                            &&& instance == made
                            &&& correlation_id == j.correlation_id
                            &&& r.len() == h.named + (if d.get_u64("timeoutMs"@) is Some {
                                5int
                            } else {
                                4int
                            })
                        },
                        EffectView::Chain { instance, max_depth, acting } => {
                            &&& h.named + 2 < h.entered && instance_at(r, h.entered) == Some(instance)
                            &&& max_depth == (match d.get_u64("maxChainDepth"@) {
                                Some(n) => n,
                                None => 50,
                            })
                            &&& acting == who
                        },
                        EffectView::Audit { event, .. } => {
                            ||| event == started_entry(j, made)
                            ||| (h.entered < h.chained < r.len() && (
                            r[h.chained] matches ReplyView::Chained(Ok(o)) && start_settles(
                                j,
                                d,
                                o,
                                r,
                                h.chained,
                                e,
                            )))
                        },
                        _ => {
                            &&& h.entered < h.chained < r.len()
                            &&& r[h.chained] matches ReplyView::Chained(Ok(o)) && start_settles(
                                j,
                                d,
                                o,
                                r,
                                h.chained,
                                e,
                            )
                        },
                    }
                },
            }
        },
    }
}

/// How an effect behind the chain of a start fits the way in which the chain ended.
#[verifier::opaque]
pub open spec fn start_settles(
    j: StartJobView,
    definition: JsonView,
    o: OutcomeView,
    r: Seq<ReplyView>,
    at: int,
    e: EffectView,
) -> bool {
    let who = ActingView { principal: j.request.principal, correlation_id: j.correlation_id };
    match e {
        EffectView::EmitOutcome { hint, instance, acting } => {
            &&& o matches OutcomeView::Completed(p) && instance == p.instance && terminal(
                definition,
                p.instance.state,
            )
            &&& r.len() == at + 2
            &&& hint == StatusHint::Started
            &&& acting == who
        },
        EffectView::Cancel { workflow_id, reason } => o matches OutcomeView::Quarantined {
            partial,
            reason: why,
        } && workflow_id == partial.instance.id && reason == why,
        EffectView::Load { workflow_id } => o matches OutcomeView::Quarantined { partial, .. }
            && workflow_id == partial.instance.id,
        EffectView::Save { instance, expected_version } => match o {
            OutcomeView::Suspended { partial, suspend, transition } => {
                &&& expected_version == partial.instance.version
                &&& parks(partial.instance, instance, step_key(suspend))
                &&& tells_wait(instance.context.get(step_key(suspend))->0, suspend, transition)
            },
            OutcomeView::WaitingOnLock { partial, transition, files, conflicts } => {
                &&& expected_version == partial.instance.version
                &&& parks(partial.instance, instance, "_lock_wait"@)
                &&& tells_files(
                    instance.context.get("_lock_wait"@)->0,
                    files,
                    conflicts,
                    transition,
                )
            },
            _ => false,
        },
        EffectView::Enqueue { workflow_id, transition, files, principal } => {
            &&& j.scheduler
            &&& o matches OutcomeView::WaitingOnLock { transition: due, files: needed, .. }
                && transition == due && files == needed
            &&& principal == j.request.principal
            &&& instance_at(r, at + 1) matches Some(parked) && workflow_id == parked.id
        },
        EffectView::Respond { instance, hint, error, principal } => {
            &&& principal == j.request.principal
            &&& match o {
                OutcomeView::Completed(p) => instance == p.instance && hint == StatusHint::Started
                    && error is None && r.len() == at + (if terminal(definition, p.instance.state) {
                    3int
                } else {
                    1int
                }),
                OutcomeView::Failed { partial, error: why, error_class, failed_transition } => {
                    &&& instance == partial.instance
                    &&& hint == StatusHint::Failed
                    &&& error matches Some(x) && x.get_str("code"@) == Some("CHAIN_FAILED"@)
                        && x.get_str("message"@) == Some(why) && x.get_str("errorClass"@) == Some(
                        error_class,
                    ) && x.get_str("attemptedTransition"@) == Some(failed_transition)
                },
                OutcomeView::Suspended { suspend, .. } => {
                    &&& instance_at(r, at + 1) == Some(instance)
                    &&& hint == (match suspend {
                        SuspendView::Subworkflow { .. } => StatusHint::WaitingOnSubworkflow,
                        SuspendView::AgentAwait { .. } => StatusHint::WaitingOnAgentAwait,
                    })
                    &&& error is None
                },
                OutcomeView::WaitingOnLock { .. } => {
                    &&& instance_at(r, at + 1) == Some(instance)
                    &&& hint == StatusHint::WaitingOnLock
                    &&& error is None
                    &&& r.len() == at + (if j.scheduler {
                        4int
                    } else {
                        3int
                    })
                },
                OutcomeView::Quarantined { reason, .. } => {
                    &&& instance_at(r, at + 2) == Some(instance)
                    &&& hint == StatusHint::Cancelled
                    &&& error matches Some(x) && x.get_str("code"@) == Some("LIVELOCK_QUARANTINE"@)
                        && x.get_str("message"@) == Some(reason)
                },
            }
        },
        EffectView::Audit { event, .. } => match o {
            OutcomeView::Completed(p) => terminal(definition, p.instance.state) && event
                == completed_entry(j.correlation_id, p.instance),
            OutcomeView::Suspended { partial, suspend, transition } => event == suspended_entry(
                partial.instance.id,
                suspend,
                transition,
            ),
            OutcomeView::WaitingOnLock { partial, files, .. } => event == files_entry(
                "lock.wait.suspended"@,
                partial.instance.id,
                files,
            ),
            _ => false,
        },
        _ => false,
    }
}

proof fn lemma_behind(all: Seq<ReplyView>, n: int)
    requires
        0 <= n <= all.len(),
    ensures
        all.skip(n).len() == all.len() - n,
        n < all.len() ==> all.skip(n)[0] == all[n] && all.skip(n).drop_first() == all.skip(n + 1),
{
    if n < all.len() {
        assert(all.skip(n).drop_first() =~= all.skip(n + 1));
    }
}

proof fn lemma_ended(
    j: StartJobView,
    definition: JsonView,
    o: OutcomeView,
    all: Seq<ReplyView>,
    at: int,
)
    requires
        0 < at < all.len(),
    ensures
        start_ended(j, definition, o, all.skip(at + 1)) matches DispatchView::Do(e)
            ==> start_settles(j, definition, o, all, at, e),
{
    reveal(start_settles);
    let n = at + 1;
    lemma_behind(all, n);
    if n < all.len() {
        lemma_behind(all, n + 1);
    }
    match o {
        OutcomeView::Completed(p) => {},
        OutcomeView::Failed { partial, error, error_class, failed_transition } => {
            broadcast use lemma_reads_put;

            lemma_member_names();
        },
        OutcomeView::Suspended { partial, suspend, transition } => {
            lemma_parked(partial.instance, wait_key(suspend), step_wait(suspend, transition));
            lemma_step_wait(suspend, transition);
        },
        OutcomeView::WaitingOnLock { partial, transition, files, conflicts } => {
            lemma_parked(
                partial.instance,
                "_lock_wait"@,
                lock_wait(files, conflicts, transition),
            );
            lemma_lock_wait(files, conflicts, transition);
        },
        OutcomeView::Quarantined { partial, reason } => {
            broadcast use lemma_reads_put;

            lemma_member_names();
        },
    }
}

proof fn lemma_born(
    j: StartJobView,
    d: JsonView,
    i: InstanceView,
    all: Seq<ReplyView>,
    n: int,
    named: int,
) -> (h: StartPlaces)
    requires
        !j.draining,
        0 <= named,
        named + 2 < n <= all.len(),
        n == named + (if d.get_u64("timeoutMs"@) is Some {
            4int
        } else {
            3int
        }),
        definition_at(all, definition_place(j)) == Some(d),
        instance_at(all, named + 2) == Some(i),
    ensures
        born(j, d, i, all.skip(n)) matches DispatchView::Do(e) ==> start_fits(j, all, h, e),
{
    let h = StartPlaces { defined: 0, named, entered: n + 1, chained: n + 2 };
    reveal(start_fits);
    lemma_behind(all, n);
    if n < all.len() {
        lemma_behind(all, n + 1);
        if n + 1 < all.len() {
            lemma_behind(all, n + 2);
            if n + 2 < all.len() {
                if let ReplyView::Chained(Ok(o)) = all[n + 2] {
                    lemma_ended(j, d, o, all, n + 2);
                }
            }
        }
    }
    h
}

proof fn lemma_admitted(
    j: StartJobView,
    d: JsonView,
    all: Seq<ReplyView>,
    n: int,
) -> (h: StartPlaces)
    requires
        !j.draining,
        0 <= n <= all.len(),
        definition_at(all, definition_place(j)) == Some(d),
    ensures
        start_admitted(j, d, admitted_input(d, j.request.input), all.skip(n)) matches DispatchView::Do(
            e,
        ) ==> start_fits(j, all, h, e),
{
    let h = StartPlaces { defined: 0, named: n, entered: -1, chained: -1 };
    let input = admitted_input(d, j.request.input);
    lemma_first_context(d, input);
    lemma_behind(all, n);
    if n + 2 < all.len() {
        lemma_behind(all, n + 1);
        lemma_behind(all, n + 2);
        if let ReplyView::Instance(Ok(i)) = all[n + 2] {
            lemma_behind(all, n + 3);
            if d.get_u64("timeoutMs"@) is None {
                lemma_born(j, d, i, all, n + 3, n)
            } else if n + 3 < all.len() {
                lemma_born(j, d, i, all, n + 4, n)
            } else {
                reveal(start_fits);
                h
            }
        } else {
            h
        }
    } else {
        reveal(start_fits);
        if n < all.len() {
            lemma_behind(all, n + 1);
            if n + 1 < all.len() {
                lemma_behind(all, n + 2);
            }
        }
        h
    }
}

proof fn lemma_first_context(d: JsonView, input: JsonView)
    ensures
        begins_with(d, input, first_context(d, input)),
{
    let declared = match d.get("initialContext"@) {
        Some(c) => c,
        None => JsonView::Object(Seq::empty()),
    };
    match (declared, input) {
        (JsonView::Object(c), JsonView::Object(m)) => {
            let context = first_context(d, input);
            if sorted(m) {
                assert forall|key: Seq<char>| #[trigger] context.get(key) == (match lookup(c, key) {
                    Some(v) => Some(v),
                    None => lookup(m, key),
                }) by {
                    law_declared_context_wins(c, m, key);
                }
            }
        },
        _ => {},
    }
}

/// Whatever a start asks for fits: the instance that it makes carries the request's definition id,
/// run environment, depth and parent, the looked-up definition, its first state, and the input with
/// the defaults of the declared schema; and what follows speaks of that instance.
pub proof fn law_starts_ask_for_what_fits(j: StartJobView, r: Seq<ReplyView>)
    ensures
        starting(j, r) matches DispatchView::Do(e) ==> exists|h: StartPlaces| #[trigger]
            start_fits(j, r, h, e),
{
    if let DispatchView::Do(e) = starting(j, r) {
        let n = definition_place(j);
        let none = StartPlaces { defined: 0, named: -1, entered: -1, chained: -1 };
        assert(r.skip(0) =~= r);
        if r.len() > 0 {
            lemma_behind(r, 0);
        }
        if r.len() > n {
            lemma_behind(r, n);
            assert(starting(j, r) == start_fresh(j, r.skip(n)));
            if let ReplyView::Definition(Ok(d)) = r[n] {
                lemma_behind(r, n + 1);
                match pointed(d, "/inputSchema"@) {
                    None => {
                        let h = lemma_admitted(j, d, r, n + 1);
                        assert(start_fits(j, r, h, e));
                    },
                    Some(schema) => if r.len() > n + 1 {
                        let h = lemma_admitted(j, d, r, n + 2);
                        assert(start_fits(j, r, h, e));
                    } else {
                        reveal(start_fits);
                        assert(start_fits(j, r, none, e));
                    },
                }
            }
        } else {
            reveal(start_fits);
            assert(start_fits(j, r, none, e));
        }
    }
}

/// The instance that a start makes: the requested input with the defaults of the declared schema,
/// the first context of these, and the request's definition id, run environment, depth and parent.
pub proof fn law_made_as_requested(j: StartJobView, r: Seq<ReplyView>)
    ensures
        starting(j, r) matches DispatchView::Do(EffectView::Create { instance }) ==> {
            &&& definition_at(r, definition_place(j)) == Some(instance.definition)
            &&& instance.input == admitted_input(instance.definition, j.request.input)
            &&& begins_with(instance.definition, instance.input, instance.context)
            &&& instance.definition_id == j.request.definition_id
            &&& instance.run_env == j.request.run_env
            &&& instance.depth == j.request.depth
            &&& instance.parent == j.request.parent
            &&& text_at(instance.definition, "/initialState"@) == Some(instance.state)
            &&& text_at(instance.definition, "/version"@) == Some(instance.definition_version)
        },
{
    law_starts_ask_for_what_fits(j, r);
    if let DispatchView::Do(e) = starting(j, r) {
        if e is Create {
            reveal(start_fits);
            let h = choose|h: StartPlaces| #[trigger] start_fits(j, r, h, e);
            assert(start_fits(j, r, h, e));
        }
    }
}

} // verus!
