//! Git operations on resource repositories, as commands to run and as readings of
//! what git answered.

use vstd::prelude::*;

use crate::json::{digits_value, is_digit};
use crate::text::{
    chars_of, join, joined, opt_string, same, strip_prefix, stripped, text_of, texts, trim,
    trimmed,
};

verus! {

/// The URL that git can clone for a repository's `uri`.
pub open spec fn url_of(uri: Seq<char>) -> Seq<char> {
    match stripped(uri, "git+"@) {
        Some(url) => url,
        None => uri,
    }
}

/// The URL that git can clone: the `uri` without a leading `git+`.
pub fn clone_url(uri: &str) -> (r: String)
    ensures
        r@ == url_of(uri@),
{
    match strip_prefix(uri, "git+") {
        Some(url) => url,
        None => uri.to_owned(),
    }
}

/// ASCII letters and digits.
pub open spec fn alphanumeric(c: char) -> bool {
    ('a' <= c <= 'z') || ('A' <= c <= 'Z') || ('0' <= c <= '9')
}

/// A text with every run of other characters written as one `-`.
pub open spec fn dashed(s: Seq<char>) -> Seq<char>
    decreases s.len(),
{
    if s.len() == 0 {
        s
    } else {
        let before = dashed(s.drop_last());
        if alphanumeric(s.last()) {
            before.push(s.last())
        } else if before.len() > 0 && before.last() == '-' {
            before
        } else {
            before.push('-')
        }
    }
}

/// A text without the dashes at its ends.
pub open spec fn without_dashes(s: Seq<char>) -> Seq<char>
    decreases s.len(),
{
    if s.len() == 0 {
        s
    } else if s[0] == '-' {
        without_dashes(s.drop_first())
    } else if s.last() == '-' {
        without_dashes(s.drop_last())
    } else {
        s
    }
}

/// The name of the cache directory of a repository.
pub open spec fn cache_name(uri: Seq<char>) -> Seq<char> {
    without_dashes(dashed(uri))
}

/// Whether a text can be used as the name of a directory on any file system: letters,
/// digits and dashes, no dash at an end and no two in a row.
pub open spec fn plain_name(s: Seq<char>) -> bool {
    &&& forall|i: int| 0 <= i < s.len() ==> alphanumeric(#[trigger] s[i]) || s[i] == '-'
    &&& forall|i: int| 0 <= i < s.len() - 1 ==> !((#[trigger] s[i]) == '-' && s[i + 1] == '-')
    &&& s.len() > 0 ==> s[0] != '-' && s.last() != '-'
}

proof fn lemma_dashed(s: Seq<char>)
    ensures
        forall|i: int|
            0 <= i < dashed(s).len() ==> alphanumeric(#[trigger] dashed(s)[i]) || dashed(s)[i]
                == '-',
        forall|i: int|
            0 <= i < dashed(s).len() - 1 ==> !((#[trigger] dashed(s)[i]) == '-' && dashed(s)[i
                + 1] == '-'),
    decreases s.len(),
{
    if s.len() > 0 {
        let d = dashed(s.drop_last());
        lemma_dashed(s.drop_last());
        assert forall|i: int| 0 <= i < dashed(s).len() implies alphanumeric(
            #[trigger] dashed(s)[i],
        ) || dashed(s)[i] == '-' by {
            if i < d.len() {
                assert(dashed(s)[i] == d[i]);
            }
        }
        assert forall|i: int| 0 <= i < dashed(s).len() - 1 implies !((#[trigger] dashed(s)[i])
            == '-' && dashed(s)[i + 1] == '-') by {
            assert(dashed(s)[i] == d[i]);
            if i + 1 < d.len() {
                assert(dashed(s)[i + 1] == d[i + 1]);
            }
        }
    }
}

proof fn lemma_without_dashes(s: Seq<char>)
    requires
        forall|i: int| 0 <= i < s.len() ==> alphanumeric(#[trigger] s[i]) || s[i] == '-',
        forall|i: int| 0 <= i < s.len() - 1 ==> !((#[trigger] s[i]) == '-' && s[i + 1] == '-'),
    ensures
        plain_name(without_dashes(s)),
    decreases s.len(),
{
    if s.len() > 0 {
        if s[0] == '-' {
            let t = s.drop_first();
            assert forall|i: int| 0 <= i < t.len() implies alphanumeric(#[trigger] t[i]) || t[i]
                == '-' by {
                assert(t[i] == s[i + 1]);
            }
            assert forall|i: int| 0 <= i < t.len() - 1 implies !((#[trigger] t[i]) == '-' && t[i
                + 1] == '-') by {
                assert(t[i] == s[i + 1] && t[i + 1] == s[i + 2]);
            }
            lemma_without_dashes(t);
        } else if s.last() == '-' {
            let t = s.drop_last();
            assert forall|i: int| 0 <= i < t.len() implies alphanumeric(#[trigger] t[i]) || t[i]
                == '-' by {
                assert(t[i] == s[i]);
            }
            assert forall|i: int| 0 <= i < t.len() - 1 implies !((#[trigger] t[i]) == '-' && t[i
                + 1] == '-') by {
                assert(t[i] == s[i] && t[i + 1] == s[i + 1]);
            }
            lemma_without_dashes(t);
        }
    }
}

/// The name of a cache directory is safe on any file system.
pub proof fn law_cache_name_is_plain(uri: Seq<char>)
    ensures
        plain_name(cache_name(uri)),
{
    lemma_dashed(uri);
    lemma_without_dashes(dashed(uri));
}

/// The name of the cache directory that a repository is cloned into.
pub fn cache_dir_name(uri: &str) -> (r: String)
    ensures
        r@ == cache_name(uri@),
        plain_name(r@),
{
    let v = chars_of(uri);
    let mut out: Vec<char> = Vec::new();
    let mut i: usize = 0;
    assert(v@.take(0) =~= Seq::empty());
    while i < v.len()
        invariant
            i <= v@.len(),
            out@ == dashed(v@.take(i as int)),
        decreases v@.len() - i,
    {
        assert(v@.take(i + 1).drop_last() =~= v@.take(i as int));
        let c: char = v[i];
        if ('a' <= c && c <= 'z') || ('A' <= c && c <= 'Z') || ('0' <= c && c <= '9') {
            out.push(c);
        } else if !(out.len() > 0 && out[out.len() - 1] == '-') {
            out.push('-');
        }
        i = i + 1;
    }
    assert(v@.take(i as int) =~= v@);
    let mut a: usize = 0;
    let mut b: usize = out.len();
    assert(out@.subrange(0, b as int) =~= out@);
    while a < b
        invariant_except_break
            a <= b <= out@.len(),
            without_dashes(out@.subrange(a as int, b as int)) == cache_name(uri@),
        ensures
            a <= b <= out@.len(),
            out@.subrange(a as int, b as int) == cache_name(uri@),
        decreases b - a,
    {
        let ghost cur = out@.subrange(a as int, b as int);
        if out[a] == '-' {
            assert(cur.drop_first() =~= out@.subrange(a + 1, b as int));
            a = a + 1;
        } else if out[b - 1] == '-' {
            assert(cur.drop_last() =~= out@.subrange(a as int, b - 1));
            b = b - 1;
        } else {
            break;
        }
    }
    proof {
        law_cache_name_is_plain(uri@);
    }
    text_of(&out, a, b)
}

/// One git command of a clone or an update.
#[derive(Debug, Clone, Copy, PartialEq, Eq, Structural)]
pub enum CloneStep {
    /// Whether an existing cache is a healthy clone.
    Probe,
    /// Fetch the pinned ref into an existing cache.
    Refresh,
    /// Move an existing cache to what was fetched.
    Advance,
    /// Create an empty repository.
    Init,
    /// Name the remote.
    AddRemote,
    /// Fetch the pinned ref into a new cache.
    Fetch,
    /// Check out what was fetched.
    Checkout,
}

/// What a clone does next.
pub enum CloneAction {
    /// Run git with these arguments, in the cache directory or outside of it.
    Git { step: CloneStep, args: Vec<String>, in_dest: bool },
    /// All is done.
    Done,
    /// Give up; a cache that was being created is to be removed first.
    Fail { message: String, remove_dest: bool },
}

/// The step after `step`.
pub open spec fn step_after(step: CloneStep) -> Option<CloneStep> {
    match step {
        CloneStep::Probe => Some(CloneStep::Refresh),
        CloneStep::Refresh => Some(CloneStep::Advance),
        CloneStep::Advance => None,
        CloneStep::Init => Some(CloneStep::AddRemote),
        CloneStep::AddRemote => Some(CloneStep::Fetch),
        CloneStep::Fetch => Some(CloneStep::Checkout),
        CloneStep::Checkout => None,
    }
}

/// The git arguments of a step.
pub open spec fn step_args(
    step: CloneStep,
    uri: Seq<char>,
    gitref: Seq<char>,
    dest: Seq<char>,
) -> Seq<Seq<char>> {
    match step {
        CloneStep::Probe => seq!["rev-parse"@, "--git-dir"@],
        CloneStep::Refresh | CloneStep::Fetch => seq!["fetch"@, "origin"@, gitref],
        CloneStep::Advance | CloneStep::Checkout => seq!["reset"@, "--hard"@, "FETCH_HEAD"@],
        CloneStep::Init => seq!["init"@, "--quiet"@, dest],
        CloneStep::AddRemote => seq!["remote"@, "add"@, "origin"@, url_of(uri)],
    }
}

/// What is said when a step failed with `e`.
pub open spec fn step_failure(
    step: CloneStep,
    uri: Seq<char>,
    gitref: Seq<char>,
    dest: Seq<char>,
    e: Seq<char>,
) -> Seq<char> {
    match step {
        CloneStep::Probe => "REPO_CACHE_CORRUPT: '"@ + dest
            + "' has a .git but is not a healthy clone ("@ + e
            + "). Remove the cache and retry: rm -rf "@ + dest,
        CloneStep::Refresh => "REPO_FETCH_FAILED: updating '"@ + uri + "' in "@ + dest + ": "@ + e,
        CloneStep::Advance => e,
        CloneStep::Init => "REPO_CLONE_FAILED: initializing '"@ + uri + "': "@ + e,
        CloneStep::AddRemote => "REPO_CLONE_FAILED: configuring remote for '"@ + uri + "': "@ + e,
        CloneStep::Fetch => "REPO_CLONE_FAILED: cloning '"@ + uri + "' ("@ + gitref + "): "@ + e,
        CloneStep::Checkout => "REPO_CLONE_FAILED: checking out '"@ + uri + "' ("@ + gitref
            + "): "@ + e,
    }
}

/// Whether a step is one of creating a new cache.
pub open spec fn creates(step: CloneStep) -> bool {
    step == CloneStep::Init || step == CloneStep::AddRemote || step == CloneStep::Fetch || step
        == CloneStep::Checkout
}

/// The command of a step.
pub open spec fn runs(
    a: CloneAction,
    step: CloneStep,
    uri: Seq<char>,
    gitref: Seq<char>,
    dest: Seq<char>,
) -> bool {
    a matches CloneAction::Git { step: s, args, in_dest } && s == step && texts(args@) == step_args(
        step,
        uri,
        gitref,
        dest,
    ) && in_dest == (step != CloneStep::Init)
}

fn command(step: CloneStep, uri: &str, gitref: &str, dest: &str) -> (r: CloneAction)
    ensures
        runs(r, step, uri@, gitref@, dest@),
{
    let mut args: Vec<String> = Vec::new();
    match step {
        CloneStep::Probe => {
            args.push("rev-parse".to_owned());
            args.push("--git-dir".to_owned());
        },
        CloneStep::Refresh | CloneStep::Fetch => {
            args.push("fetch".to_owned());
            args.push("origin".to_owned());
            args.push(gitref.to_owned());
        },
        CloneStep::Advance | CloneStep::Checkout => {
            args.push("reset".to_owned());
            args.push("--hard".to_owned());
            args.push("FETCH_HEAD".to_owned());
        },
        CloneStep::Init => {
            args.push("init".to_owned());
            args.push("--quiet".to_owned());
            args.push(dest.to_owned());
        },
        CloneStep::AddRemote => {
            args.push("remote".to_owned());
            args.push("add".to_owned());
            args.push("origin".to_owned());
            args.push(clone_url(uri));
        },
    }
    assert(texts(args@) =~= step_args(step, uri@, gitref@, dest@));
    CloneAction::Git { step, args, in_dest: step != CloneStep::Init }
}

fn failure(step: CloneStep, uri: &str, gitref: &str, dest: &str, e: &str) -> (r: String)
    ensures
        r@ == step_failure(step, uri@, gitref@, dest@, e@),
{
    match step {
        CloneStep::Probe => {
            let mut m = "REPO_CACHE_CORRUPT: '".to_owned();
            m.append(dest);
            m.append("' has a .git but is not a healthy clone (");
            m.append(e);
            m.append("). Remove the cache and retry: rm -rf ");
            m.append(dest);
            m
        },
        CloneStep::Refresh => {
            let mut m = "REPO_FETCH_FAILED: updating '".to_owned();
            m.append(uri);
            m.append("' in ");
            m.append(dest);
            m.append(": ");
            m.append(e);
            m
        },
        CloneStep::Advance => e.to_owned(),
        CloneStep::Init => {
            let mut m = "REPO_CLONE_FAILED: initializing '".to_owned();
            m.append(uri);
            m.append("': ");
            m.append(e);
            m
        },
        CloneStep::AddRemote => {
            let mut m = "REPO_CLONE_FAILED: configuring remote for '".to_owned();
            m.append(uri);
            m.append("': ");
            m.append(e);
            m
        },
        CloneStep::Fetch => {
            let mut m = "REPO_CLONE_FAILED: cloning '".to_owned();
            m.append(uri);
            m.append("' (");
            m.append(gitref);
            m.append("): ");
            m.append(e);
            m
        },
        CloneStep::Checkout => {
            let mut m = "REPO_CLONE_FAILED: checking out '".to_owned();
            m.append(uri);
            m.append("' (");
            m.append(gitref);
            m.append("): ");
            m.append(e);
            m
        },
    }
}

/// How importing a repository begins: a cache that has a `.git` is updated, any other
/// is created anew.
pub fn clone_or_update(uri: &str, gitref: &str, dest: &str, has_git_dir: bool) -> (r: CloneAction)
    ensures
        runs(
            r,
            if has_git_dir {
                CloneStep::Probe
            } else {
                CloneStep::Init
            },
            uri@,
            gitref@,
            dest@,
        ),
{
    if has_git_dir {
        command(CloneStep::Probe, uri, gitref, dest)
    } else {
        command(CloneStep::Init, uri, gitref, dest)
    }
}

/// How importing a repository goes on after a step. A failed step ends it; where the
/// cache was being created, nothing of it stays.
pub fn clone_next(
    step: CloneStep,
    outcome: Result<(), String>,
    uri: &str,
    gitref: &str,
    dest: &str,
) -> (r: CloneAction)
    ensures
        match outcome {
            Ok(_) => match step_after(step) {
                Some(next) => runs(r, next, uri@, gitref@, dest@),
                None => r is Done,
            },
            Err(e) => r matches CloneAction::Fail { message, remove_dest } && message@
                == step_failure(step, uri@, gitref@, dest@, e@) && remove_dest == creates(step),
        },
{
    match outcome {
        Err(e) => CloneAction::Fail {
            message: failure(step, uri, gitref, dest, e.as_str()),
            remove_dest: match step {
                CloneStep::Probe | CloneStep::Refresh | CloneStep::Advance => false,
                _ => true,
            },
        },
        Ok(_) => match step {
            CloneStep::Probe => command(CloneStep::Refresh, uri, gitref, dest),
            CloneStep::Refresh => command(CloneStep::Advance, uri, gitref, dest),
            CloneStep::Advance => CloneAction::Done,
            CloneStep::Init => command(CloneStep::AddRemote, uri, gitref, dest),
            CloneStep::AddRemote => command(CloneStep::Fetch, uri, gitref, dest),
            CloneStep::Fetch => command(CloneStep::Checkout, uri, gitref, dest),
            CloneStep::Checkout => CloneAction::Done,
        },
    }
}

/// What came of starting git: whether it succeeded and what it wrote to its error
/// stream, or why it could not be started.
pub enum GitRun {
    Exited { success: bool, stderr: String },
    NotStarted(String),
}

/// Judges a git run.
pub fn run_git(args: &Vec<String>, run: &GitRun) -> (r: Result<(), String>)
    ensures
        match *run {
            GitRun::NotStarted(e) => r matches Err(m) && m@ == "running `git "@ + joined(
                texts(args@),
                " "@,
            ) + "`: "@ + e@ + " (is git on PATH?)"@,
            GitRun::Exited { success, stderr } => if success {
                r is Ok
            } else {
                r matches Err(m) && m@ == "`git "@ + joined(texts(args@), " "@) + "` failed: "@
                    + trimmed(stderr@)
            },
        },
{
    match run {
        GitRun::NotStarted(e) => {
            let mut m = "running `git ".to_owned();
            m.append(join(args, " ").as_str());
            m.append("`: ");
            m.append(e.as_str());
            m.append(" (is git on PATH?)");
            Err(m)
        },
        GitRun::Exited { success, stderr } => if *success {
            Ok(())
        } else {
            let mut m = "`git ".to_owned();
            m.append(join(args, " ").as_str());
            m.append("` failed: ");
            m.append(trim(stderr.as_str()).as_str());
            Err(m)
        },
    }
}

/// The arguments that push the commits of a repository.
pub fn push_args() -> (r: Vec<String>)
    ensures
        texts(r@) == seq!["push"@],
{
    let mut v: Vec<String> = Vec::new();
    v.push("push".to_owned());
    assert(texts(v@) =~= seq!["push"@]);
    v
}

/// Words the outcome of `git push`.
pub fn push(root: &str, outcome: Result<(), String>) -> (r: Result<(), String>)
    ensures
        match outcome {
            Ok(_) => r is Ok,
            Err(e) => r matches Err(m) && m@ == "REPO_PUSH_FAILED: pushing "@ + root@ + ": "@ + e@,
        },
{
    match outcome {
        Ok(_) => Ok(()),
        Err(e) => {
            let mut m = "REPO_PUSH_FAILED: pushing ".to_owned();
            m.append(root);
            m.append(": ");
            m.append(e.as_str());
            Err(m)
        },
    }
}

/// How current a checkout is, from what git knows locally.
pub struct GitCurrency {
    pub branch: Option<String>,
    pub default_branch: String,
    pub on_default_branch: bool,
    pub dirty: bool,
    pub behind_upstream: Option<u32>,
}

/// What git answered about a directory. An absent text is a command that failed.
pub struct GitAnswers {
    /// The canonical form of the directory.
    pub path: Option<String>,
    /// The canonical form of the root of the working tree around it.
    pub toplevel: Option<String>,
    /// The short name of what `HEAD` refers to.
    pub head: Option<String>,
    /// The short name of what the remote's `HEAD` refers to.
    pub origin_head: Option<String>,
    /// Whether there is a branch `dev` here, and whether the remote is known to have one.
    pub local_dev: bool,
    pub remote_dev: bool,
    /// The porcelain status.
    pub status: Option<String>,
    /// Whether the remote's copy of the default branch is known.
    pub upstream_known: bool,
    /// The number of commits behind it, as git wrote it.
    pub behind: Option<String>,
}

/// The remote's own default branch.
pub open spec fn origin_branch(head: Option<Seq<char>>) -> Option<Seq<char>> {
    match head {
        Some(h) => stripped(trimmed(h), "origin/"@),
        None => None,
    }
}

/// The remote's own default branch, from the short name of its `HEAD`.
pub fn origin_head_branch(head: &Option<String>) -> (r: Option<String>)
    ensures
        opt_string(r) == origin_branch(opt_string(*head)),
{
    match head {
        Some(h) => strip_prefix(trim(h.as_str()).as_str(), "origin/"),
        None => None,
    }
}

/// The branch that a checkout is compared with.
pub open spec fn default_of(head: Option<Seq<char>>, has_dev: bool) -> Seq<char> {
    match origin_branch(head) {
        Some(b) => b,
        None => if has_dev {
            "dev"@
        } else {
            "main"@
        },
    }
}

/// The branch that a checkout is compared with: the remote's own default, else `dev`
/// where it is known, else `main`.
pub fn default_branch(origin_head: &Option<String>, local_dev: bool, remote_dev: bool) -> (r: String)
    ensures
        r@ == default_of(opt_string(*origin_head), local_dev || remote_dev),
{
    match origin_head_branch(origin_head) {
        Some(b) => b,
        None => if local_dev || remote_dev {
            "dev".to_owned()
        } else {
            "main".to_owned()
        },
    }
}

/// The ref of the remote's copy of a branch.
pub fn upstream_ref(branch: &str) -> (r: String)
    ensures
        r@ == "refs/remotes/origin/"@ + branch@,
{
    "refs/remotes/origin/".to_owned().concat(branch)
}

/// The range of commits that `HEAD` is behind the remote's copy of a branch.
pub fn behind_range(branch: &str) -> (r: String)
    ensures
        r@ == "HEAD..origin/"@ + branch@,
{
    "HEAD..origin/".to_owned().concat(branch)
}

/// Whether a text is made of decimal digits.
pub open spec fn all_digits(d: Seq<char>) -> bool {
    d.len() > 0 && forall|i: int| 0 <= i < d.len() ==> is_digit(#[trigger] d[i])
}

/// The number that digits write, if it fits 32 bits.
pub open spec fn digits_u32(d: Seq<char>) -> Option<u32> {
    if all_digits(d) && digits_value(d) <= u32::MAX {
        Some(digits_value(d) as u32)
    } else {
        None
    }
}

/// The number that a text writes, if it fits 32 bits: digits, perhaps after a `+`.
pub open spec fn parsed_u32(t: Seq<char>) -> Option<u32> {
    if t.len() > 0 && t[0] == '+' {
        digits_u32(t.drop_first())
    } else {
        digits_u32(t)
    }
}

proof fn lemma_value_grows(t: Seq<char>, n: int)
    requires
        0 <= n <= t.len(),
        forall|i: int| 0 <= i < t.len() ==> is_digit(#[trigger] t[i]),
    ensures
        digits_value(t.take(n)) <= digits_value(t),
    decreases t.len(),
{
    if n < t.len() {
        lemma_value_grows(t.drop_last(), n);
        assert(t.drop_last().take(n) =~= t.take(n));
    } else {
        assert(t.take(n) =~= t);
    }
}

fn parse_u32(s: &str) -> (r: Option<u32>)
    ensures
        r == parsed_u32(s@),
{
    let all = chars_of(s);
    let from: usize = if all.len() > 0 && all[0] == '+' {
        1
    } else {
        0
    };
    let ghost d = if s@.len() > 0 && s@[0] == '+' {
        s@.drop_first()
    } else {
        s@
    };
    assert(d =~= all@.skip(from as int));
    if from == all.len() {
        return None;
    }
    let mut n: u64 = 0;
    let mut i: usize = from;
    assert(d.take(0) =~= Seq::empty());
    while i < all.len()
        invariant
            from <= i <= all@.len(),
            d == all@.skip(from as int),
            parsed_u32(s@) == digits_u32(d),
            n == digits_value(d.take(i - from)),
            n <= u32::MAX,
            forall|j: int| 0 <= j < i - from ==> is_digit(#[trigger] d[j]),
        decreases all@.len() - i,
    {
        let c: char = all[i];
        assert(d[i - from] == c);
        if !('0' <= c && c <= '9') {
            assert(!is_digit(d[i - from]));
            return None;
        }
        let k: u64 = match c {
            '0' => 0,
            '1' => 1,
            '2' => 2,
            '3' => 3,
            '4' => 4,
            '5' => 5,
            '6' => 6,
            '7' => 7,
            '8' => 8,
            _ => 9,
        };
        proof {
            assert(k == c as int - '0' as int);
            assert(d.take(i - from + 1).drop_last() =~= d.take(i - from));
            assert(digits_value(d.take(i - from + 1)) == n * 10 + k);
        }
        if n * 10 + k > u32::MAX as u64 {
            proof {
                if parsed_u32(s@) is Some {
                    lemma_value_grows(d, i - from + 1);
                }
            }
            return None;
        }
        n = n * 10 + k;
        i = i + 1;
    }
    assert(d.take(i - from) =~= d);
    Some(n as u32)
}

/// The branch that `HEAD` is on, if any.
pub open spec fn head_branch(head: Option<Seq<char>>) -> Option<Seq<char>> {
    match head {
        Some(h) => if trimmed(h).len() > 0 {
            Some(trimmed(h))
        } else {
            None
        },
        None => None,
    }
}

/// Whether a reading of the currency says what git answered.
pub open spec fn reads_answers(c: GitCurrency, a: GitAnswers) -> bool {
    let default = default_of(opt_string(a.origin_head), a.local_dev || a.remote_dev);
    &&& opt_string(c.branch) == head_branch(opt_string(a.head))
    &&& c.default_branch@ == default
    &&& c.on_default_branch == (head_branch(opt_string(a.head)) == Some(default))
    &&& c.dirty == (a.status matches Some(s) && trimmed(s@).len() > 0)
    &&& c.behind_upstream == (match a.behind {
        Some(n) => if a.upstream_known {
            parsed_u32(trimmed(n@))
        } else {
            None
        },
        None => None,
    })
}

/// Whether a directory is itself the root of a working tree.
pub open spec fn is_root(a: GitAnswers) -> bool {
    a.path matches Some(p) && a.toplevel matches Some(t) && p@ == t@
}

/// How current a checkout is; nothing where the directory is not the root of a
/// working tree.
pub fn git_currency(answers: &GitAnswers) -> (r: Option<GitCurrency>)
    ensures
        match r {
            Some(c) => is_root(*answers) && reads_answers(c, *answers),
            None => !is_root(*answers),
        },
{
    let root = match (&answers.path, &answers.toplevel) {
        (Some(p), Some(t)) => same(p.as_str(), t.as_str()),
        _ => false,
    };
    if !root {
        return None;
    }
    let branch = match &answers.head {
        Some(h) => {
            let b = trim(h.as_str());
            if b.as_str().is_empty() {
                None
            } else {
                Some(b)
            }
        },
        None => None,
    };
    let default = default_branch(
        &answers.origin_head,
        answers.local_dev,
        answers.remote_dev,
    );
    let on_default = match &branch {
        Some(b) => same(b.as_str(), default.as_str()),
        None => false,
    };
    let dirty = match &answers.status {
        Some(s) => !trim(s.as_str()).as_str().is_empty(),
        None => false,
    };
    let behind = match &answers.behind {
        Some(n) => if answers.upstream_known {
            parse_u32(trim(n.as_str()).as_str())
        } else {
            None
        },
        None => None,
    };
    Some(
        GitCurrency {
            branch,
            default_branch: default,
            on_default_branch: on_default,
            dirty,
            behind_upstream: behind,
        },
    )
}

/// What exactly was loaded from a pack.
pub struct PackProvenance {
    pub namespace: String,
    pub source: String,
    pub sha: Option<String>,
    pub git_ref: Option<String>,
    pub dirty: Option<bool>,
}

/// The commit that `HEAD` is at, as git wrote it.
pub fn resolved_sha(head: &Option<String>) -> (r: Option<String>)
    ensures
        opt_string(r) == (match *head {
            Some(h) => Some(trimmed(h@)),
            None => None,
        }),
{
    match head {
        Some(h) => Some(trim(h.as_str())),
        None => None,
    }
}

/// The provenance of a pack. A declared ref counts before the checkout's own branch;
/// what is no working tree has no commit, ref or state.
pub fn pack_provenance(
    namespace: &str,
    source: &str,
    currency: Option<GitCurrency>,
    head_sha: &Option<String>,
    declared_ref: Option<&str>,
) -> (r: PackProvenance)
    ensures
        r.namespace@ == namespace@,
        r.source@ == source@,
        match currency {
            Some(c) => {
                &&& opt_string(r.sha) == (match *head_sha {
                    Some(h) => Some(trimmed(h@)),
                    None => None,
                })
                &&& opt_string(r.git_ref) == (match declared_ref {
                    Some(d) => Some(d@),
                    None => opt_string(c.branch),
                })
                &&& r.dirty == Some(c.dirty)
            },
            None => r.sha is None && r.git_ref is None && r.dirty is None,
        },
{
    match currency {
        Some(c) => {
            let git_ref = match declared_ref {
                Some(d) => Some(d.to_owned()),
                None => c.branch,
            };
            PackProvenance {
                namespace: namespace.to_owned(),
                source: source.to_owned(),
                sha: resolved_sha(head_sha),
                git_ref,
                dirty: Some(c.dirty),
            }
        },
        None => PackProvenance {
            namespace: namespace.to_owned(),
            source: source.to_owned(),
            sha: None,
            git_ref: None,
            dirty: None,
        },
    }
}

} // verus!
