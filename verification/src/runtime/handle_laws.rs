//! What holds of a runtime that several handles share.

use vstd::prelude::*;

use crate::path::PathView;
use crate::repo_locks::{after_call, law_taken_files_are_held, takes, LockCall, LockTable};
use crate::runtime::runtime::{drained, fresh_look, rewired, LookView, WorkflowRuntime};
use crate::shared::Handle;

verus! {

/// A call through a handle. Handles are numbered in the order in which they are made.
pub enum RuntimeCall {
    /// A runtime is set up, and its first handle is made.
    New,
    /// Another handle is made from one.
    Clone(int),
    BeginDrain(int),
    SetWritableRepoRoots(int, Seq<Seq<char>>),
}

/// Runtimes and the handles to them.
pub struct Handles {
    /// Which runtime each handle leads to.
    pub leads_to: Seq<int>,
    pub runtimes: Seq<LookView>,
}

impl Handles {
    /// Whether there is such a handle.
    pub open spec fn has(self, h: int) -> bool {
        0 <= h < self.leads_to.len()
    }

    /// What is seen of the runtime through a handle.
    pub open spec fn seen(self, h: int) -> LookView {
        self.runtimes[self.leads_to[h]]
    }

    /// Whether two handles lead to one runtime.
    pub open spec fn kin(self, g: int, h: int) -> bool {
        self.leads_to[g] == self.leads_to[h]
    }

    /// The runtime that a handle leads to becomes another.
    pub open spec fn with(self, h: int, l: LookView) -> Handles {
        Handles { runtimes: self.runtimes.update(self.leads_to[h], l), ..self }
    }

    spec fn whole(self) -> bool {
        forall|h: int| self.has(h) ==> 0 <= #[trigger] self.leads_to[h] < self.runtimes.len()
    }
}

/// The handles after one call. A call through a handle that was never made does nothing.
pub open spec fn after_one(w: Handles, c: RuntimeCall) -> Handles {
    match c {
        RuntimeCall::New => Handles {
            leads_to: w.leads_to.push(w.runtimes.len() as int),
            runtimes: w.runtimes.push(fresh_look()),
        },
        RuntimeCall::Clone(h) => if w.has(h) {
            Handles { leads_to: w.leads_to.push(w.leads_to[h]), ..w }
        } else {
            w
        },
        RuntimeCall::BeginDrain(h) => if w.has(h) {
            w.with(h, drained(w.seen(h)))
        } else {
            w
        },
        RuntimeCall::SetWritableRepoRoots(h, roots) => if w.has(h) {
            w.with(h, rewired(w.seen(h), roots))
        } else {
            w
        },
    }
}

/// The handles after a history of calls, none at first.
pub open spec fn after_history(calls: Seq<RuntimeCall>) -> Handles
    decreases calls.len(),
{
    if calls.len() == 0 {
        Handles { leads_to: Seq::empty(), runtimes: Seq::empty() }
    } else {
        after_one(after_history(calls.drop_last()), calls.last())
    }
}

proof fn lemma_whole(calls: Seq<RuntimeCall>)
    ensures
        after_history(calls).whole(),
    decreases calls.len(),
{
    if calls.len() > 0 {
        lemma_whole(calls.drop_last());
    }
}

/// A handle never leads to another runtime than at first, whatever is called later.
pub proof fn law_handles_stay(calls: Seq<RuntimeCall>, k: int, h: int)
    requires
        0 <= k <= calls.len(),
        after_history(calls.take(k)).has(h),
    ensures
        after_history(calls).has(h),
        after_history(calls).leads_to[h] == after_history(calls.take(k)).leads_to[h],
    decreases calls.len(),
{
    if k == calls.len() {
        assert(calls.take(k) =~= calls);
    } else {
        assert(calls.drop_last().take(k) =~= calls.take(k));
        law_handles_stay(calls.drop_last(), k, h);
    }
}

/// A handle that is made from another leads to the same runtime; one that comes with a new
/// runtime leads to none that was there before.
pub proof fn law_clones_are_kin(calls: Seq<RuntimeCall>, h: int)
    requires
        after_history(calls).has(h),
    ensures
        ({
            let n = after_history(calls).leads_to.len() as int;
            let cloned = after_history(calls.push(RuntimeCall::Clone(h)));
            let fresh = after_history(calls.push(RuntimeCall::New));
            &&& cloned.leads_to.len() == n + 1 && cloned.kin(n, h)
            &&& fresh.leads_to.len() == n + 1 && !fresh.kin(n, h)
        }),
{
    lemma_whole(calls);
    assert(calls.push(RuntimeCall::Clone(h)).drop_last() =~= calls);
    assert(calls.push(RuntimeCall::New).drop_last() =~= calls);
    assert(0 <= after_history(calls).leads_to[h] < after_history(calls).runtimes.len());
}

/// Whether the `k`th call drains the runtime that a handle leads to, through that handle or
/// through another one.
pub open spec fn drains(calls: Seq<RuntimeCall>, k: int, h: int) -> bool {
    &&& 0 <= k < calls.len()
    &&& calls[k] matches RuntimeCall::BeginDrain(g) && after_history(calls.take(k)).has(g)
        && after_history(calls).kin(g, h)
}

/// A runtime is seen to drain through a handle if and only if it was told to, through that handle
/// or through any other one that leads to it, made before or afterwards. Nothing undoes it.
pub proof fn law_all_handles_see_the_drain(calls: Seq<RuntimeCall>, h: int)
    requires
        after_history(calls).has(h),
    ensures
        after_history(calls).seen(h).draining <==> exists|k: int| #[trigger] drains(calls, k, h),
    decreases calls.len(),
{
    let before = calls.drop_last();
    let n = calls.len() - 1;
    let w0 = after_history(before);
    let w = after_history(calls);
    lemma_whole(calls);
    lemma_whole(before);
    assert(calls.take(n) =~= before);
    // A handle that was there before the last call and leads to the same runtime.
    let g = match calls.last() {
        RuntimeCall::Clone(from) => if h == w0.leads_to.len() {
            from
        } else {
            h
        },
        _ => h,
    };
    assert(w.leads_to[h] == w.leads_to[g]);
    assert forall|k: int| drains(before, k, g) && w0.has(g) implies #[trigger] drains(
        calls,
        k,
        h,
    ) by {
        assert(before.take(k) =~= calls.take(k));
        if let RuntimeCall::BeginDrain(d) = calls[k] {
            law_handles_stay(before, k, d);
        }
    }
    assert forall|k: int| drains(calls, k, h) && k < n && w0.has(g) implies #[trigger] drains(
        before,
        k,
        g,
    ) by {
        assert(before.take(k) =~= calls.take(k));
        if let RuntimeCall::BeginDrain(d) = calls[k] {
            law_handles_stay(before, k, d);
        }
    }
    if w0.has(g) {
        assert(0 <= w0.leads_to[g] < w0.runtimes.len());
        law_all_handles_see_the_drain(before, g);
        if w.seen(h).draining {
            if w0.seen(g).draining {
                let k = choose|k: int| #[trigger] drains(before, k, g);
                assert(drains(calls, k, h));
            } else {
                assert(drains(calls, n, h));
            }
        }
        if exists|k: int| #[trigger] drains(calls, k, h) {
            let k = choose|k: int| #[trigger] drains(calls, k, h);
            if k < n {
                assert(drains(before, k, g));
            }
        }
    } else {
        assert(calls.last() is New);
        assert forall|k: int| !#[trigger] drains(calls, k, h) by {
            if 0 <= k < n {
                assert(before.take(k) =~= calls.take(k));
                if let RuntimeCall::BeginDrain(d) = calls[k] {
                    if after_history(calls.take(k)).has(d) {
                        law_handles_stay(before, k, d);
                        assert(0 <= w0.leads_to[d] < w0.runtimes.len());
                    }
                }
            }
        }
    }
}

/// When the repositories of a runtime are set through a handle, every handle that leads to it sees
/// these and no others, and still sees whether it drains; handles to other runtimes see what they
/// saw.
pub proof fn law_all_handles_see_the_swap(
    calls: Seq<RuntimeCall>,
    h: int,
    roots: Seq<Seq<char>>,
    g: int,
)
    requires
        after_history(calls).has(h),
        after_history(calls).has(g),
    ensures
        ({
            let before = after_history(calls);
            let w = after_history(calls.push(RuntimeCall::SetWritableRepoRoots(h, roots)));
            &&& w.has(g)
            &&& before.kin(g, h) ==> w.seen(g) == rewired(before.seen(g), roots) && w.seen(g).roots
                == roots && w.seen(g).draining == before.seen(g).draining
            &&& !before.kin(g, h) ==> w.seen(g) == before.seen(g)
        }),
{
    lemma_whole(calls);
    assert(calls.push(RuntimeCall::SetWritableRepoRoots(h, roots)).drop_last() =~= calls);
    assert(0 <= after_history(calls).leads_to[h] < after_history(calls).runtimes.len());
    assert(0 <= after_history(calls).leads_to[g] < after_history(calls).runtimes.len());
}

/// The locks that a runtime hands out are the very ones that were wired to it: what is done
/// through the one handle to the lock space is seen through the other, and a file that is taken
/// through it is held there.
pub proof fn law_wired_locks_are_shared<D, S, X, G, A, E, Q>(
    rt: WorkflowRuntime<D, S, X, G, A, E, Handle, Q>,
    locks: Handle,
    wired: WorkflowRuntime<D, S, X, G, A, E, Handle, Q>,
    spaces: Seq<LockTable>,
    call: LockCall,
    f: PathView,
    by: Seq<char>,
)
    requires
        wired == (WorkflowRuntime { repo_locks: Some(locks), ..rt }),
        locks.at < spaces.len(),
    ensures
        wired.repo_locks matches Some(own) && {
            let after = spaces.update(
                own.at as int,
                after_call(spaces[own.at as int], call),
            );
            &&& after[locks.at as int] == after_call(spaces[locks.at as int], call)
            &&& takes(spaces[locks.at as int], call, f, by) ==> after[locks.at as int].contains_key(
                f,
            ) && after[locks.at as int][f].holder == by
        },
{
    if takes(spaces[locks.at as int], call, f, by) {
        law_taken_files_are_held(spaces[locks.at as int], call, f, by);
    }
}

} // verus!
