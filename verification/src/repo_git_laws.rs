//! What importing a repository runs, and which branch a checkout is held against.

use vstd::prelude::*;

use crate::repo_git::{creates, default_of, step_after, step_args, url_of, CloneStep};
use crate::text::trimmed;

verus! {

/// The steps from one on.
pub open spec fn steps_from(step: CloneStep, n: nat) -> Seq<CloneStep>
    decreases n,
{
    if n == 0 {
        Seq::empty()
    } else {
        match step_after(step) {
            Some(next) => seq![step] + steps_from(next, (n - 1) as nat),
            None => seq![step],
        }
    }
}

/// A cache that is there is probed, refreshed and advanced; a new one is created, told its remote,
/// filled and checked out. After that nothing is left to do, and only what is being created is removed
/// where a step fails.
pub proof fn law_imports_run_their_steps()
    ensures
        steps_from(CloneStep::Probe, 7) == seq![
            CloneStep::Probe,
            CloneStep::Refresh,
            CloneStep::Advance,
        ],
        steps_from(CloneStep::Init, 7) == seq![
            CloneStep::Init,
            CloneStep::AddRemote,
            CloneStep::Fetch,
            CloneStep::Checkout,
        ],
        forall|s: CloneStep| #[trigger] creates(s) <==> steps_from(CloneStep::Init, 7).contains(s),
{
    reveal_with_fuel(steps_from, 8);
    let old_ones = steps_from(CloneStep::Probe, 7);
    let new_ones = steps_from(CloneStep::Init, 7);
    assert(old_ones =~= seq![CloneStep::Probe, CloneStep::Refresh, CloneStep::Advance]);
    assert(new_ones =~= seq![
        CloneStep::Init,
        CloneStep::AddRemote,
        CloneStep::Fetch,
        CloneStep::Checkout,
    ]);
    assert(new_ones[0] == CloneStep::Init && new_ones[1] == CloneStep::AddRemote && new_ones[2]
        == CloneStep::Fetch && new_ones[3] == CloneStep::Checkout);
}

/// What the steps run: what is fetched is the ref that was asked for, from the remote that stands for
/// the address; and the checkout moves to what was fetched, whatever was there.
pub proof fn law_imports_fetch_what_was_asked_for(
    step: CloneStep,
    uri: Seq<char>,
    gitref: Seq<char>,
    dest: Seq<char>,
)
    ensures
        ({
            let a = step_args(step, uri, gitref, dest);
            match step {
                CloneStep::Probe => a.len() == 2 && a[0] == "rev-parse"@,
                CloneStep::Init => a.last() == dest && a[0] == "init"@,
                CloneStep::AddRemote => a.last() == url_of(uri) && a[0] == "remote"@ && a[2]
                    == "origin"@,
                CloneStep::Refresh | CloneStep::Fetch => a.len() == 3 && a[0] == "fetch"@ && a[1]
                    == "origin"@ && a[2] == gitref,
                CloneStep::Advance | CloneStep::Checkout => a.len() == 3 && a[0] == "reset"@ && a[1]
                    == "--hard"@ && a[2] == "FETCH_HEAD"@,
            }
        }),
{
}

/// The address of a remote is what was given, without the mark that it is one of git.
pub proof fn law_addresses_lose_their_mark(url: Seq<char>)
    ensures
        url_of("git+"@ + url) == url,
        !"git+"@.is_prefix_of(url) ==> url_of(url) == url,
{
    let s = "git+"@ + url;
    assert(s.subrange(0, "git+"@.len() as int) =~= "git+"@);
    assert(s.skip("git+"@.len() as int) =~= url);
}

/// A checkout is held against the remote's own default branch, where that is known, else against
/// `dev`, where there is one, else against `main`.
pub proof fn law_which_branch_counts(head: Seq<char>, name: Seq<char>, has_dev: bool)
    ensures
        trimmed(head) == "origin/"@ + name ==> default_of(Some(head), has_dev) == name,
        default_of(None, has_dev) == (if has_dev {
            "dev"@
        } else {
            "main"@
        }),
{
    let s = "origin/"@ + name;
    assert(s.subrange(0, "origin/"@.len() as int) =~= "origin/"@);
    assert(s.skip("origin/"@.len() as int) =~= name);
}

} // verus!
