//! The runtime as it is set up: its ports, what is wired to it, and where runs may work.

use vstd::prelude::*;

use crate::path::{lies_under, path_of, PathKey};
use crate::run_env::{RepoRoot, RepoRootError};
use crate::runtime::agent::{AutoDrive, AutoView};
use crate::runtime::dispatch::Wiring;
use crate::runtime::submit::DEFAULT_MAX_CHAINED_LLM_TURNS;
use crate::text::{decimal, decimal_text, join, joined, same, texts};

verus! {

/// The runtime: the definitions, the store of instances, the executors, the guards and the
/// audit trail, with what else is wired to it.
pub struct WorkflowRuntime<D, S, X, G, A, E, L, Q> {
    pub definitions: D,
    pub store: S,
    pub executors: X,
    pub guards: G,
    pub audit: A,
    /// The store of evidence.
    pub evidence: Option<E>,
    /// The locks of files.
    pub repo_locks: Option<L>,
    /// The line of those who wait for files.
    pub lock_scheduler: Option<Q>,
    /// Whether no new instances are taken.
    pub draining: bool,
    /// The subjects that still need a definition, where that is tracked.
    pub pending_subjects: Option<Vec<String>>,
    /// The turns that one submission may take.
    pub max_chained_llm_turns: u32,
    pub auto_drive: AutoDrive,
    /// The repositories that runs may work on.
    pub writable_repo_roots: Vec<RepoRoot>,
}

/// What can be changed of a runtime that is shared: whether no new instances are taken, and the
/// repositories that runs may work on.
#[verifier::ext_equal]
pub struct LookView {
    pub draining: bool,
    pub roots: Seq<Seq<char>>,
}

/// A runtime as it is set up at first.
pub open spec fn fresh_look() -> LookView {
    LookView { draining: false, roots: Seq::empty() }
}

/// A runtime that takes no new instances.
pub open spec fn drained(l: LookView) -> LookView {
    LookView { draining: true, ..l }
}

/// A runtime with other repositories in place of those it had.
pub open spec fn rewired(l: LookView, roots: Seq<Seq<char>>) -> LookView {
    LookView { roots, ..l }
}

/// Roots as texts.
pub open spec fn root_texts(roots: Seq<RepoRoot>) -> Seq<Seq<char>> {
    roots.map_values(|r: RepoRoot| r@)
}

fn list_roots(roots: &Vec<RepoRoot>) -> (r: Vec<String>)
    ensures
        texts(r@) == root_texts(roots@),
{
    let mut out: Vec<String> = Vec::new();
    let mut i: usize = 0;
    while i < roots.len()
        invariant
            i <= roots@.len(),
            i == out@.len(),
            forall|k: int| 0 <= k < i ==> (#[trigger] out@[k])@ == roots@[k]@,
        decreases roots@.len() - i,
    {
        out.push(roots[i].as_str().to_owned());
        i = i + 1;
    }
    assert(texts(out@) =~= root_texts(roots@));
    out
}

/// Whether a path is one of the roots or lies below one.
pub open spec fn allowed(roots: Seq<Seq<char>>, p: Seq<char>) -> bool {
    exists|k: int| 0 <= k < roots.len() && lies_under(path_of(p), path_of(#[trigger] roots[k]))
}

/// The root of a run: the one that is named, or the only one. A name is a declared root, or
/// a directory below one; `found` is the directory that it leads to, or why there is none.
pub open spec fn run_root(
    roots: Seq<Seq<char>>,
    selector: Option<(Seq<char>, Result<Seq<char>, Seq<char>>)>,
) -> Result<Seq<char>, Seq<char>> {
    if roots.len() == 0 {
        Err(
            "REPO_ROOT_REQUIRED: a run requires a repo_root, but no writable repo is declared. Declare a repo with `writable: true` in the gateway config."@,
        )
    } else {
        match selector {
            None => if roots.len() == 1 {
                Ok(roots[0])
            } else {
                Err(
                    "REPO_ROOT_AMBIGUOUS: "@ + decimal(roots.len())
                        + " writable repos are declared; name one via the `repoRoot` selector. Choices: "@
                        + joined(roots, ", "@),
                )
            },
            Some((sel, found)) => if roots.contains(sel) {
                Ok(sel)
            } else {
                match found {
                    Err(e) => Err(
                        "REPO_ROOT_UNKNOWN: `"@ + sel
                            + "` is neither a declared writable repo root nor a resolvable directory under one ("@
                            + e + "). Declared roots: "@ + joined(roots, ", "@),
                    ),
                    Ok(dir) => if allowed(roots, dir) {
                        Ok(dir)
                    } else {
                        Err(
                            "REPO_ROOT_OUTSIDE_ALLOWLIST: `"@ + sel + "` resolves to `"@ + dir
                                + "`, which is not under any declared writable repo root. Choose a path within one of: "@
                                + joined(roots, ", "@),
                        )
                    },
                }
            },
        }
    }
}

/// Whatever is asked for, a run works on a declared root or below one.
pub proof fn law_run_root_is_allowed(
    roots: Seq<Seq<char>>,
    selector: Option<(Seq<char>, Result<Seq<char>, Seq<char>>)>,
)
    ensures
        run_root(roots, selector) matches Ok(p) ==> allowed(roots, p),
{
    if let Ok(p) = run_root(roots, selector) {
        if roots.contains(p) {
            let k = roots.index_of(p);
            assert(roots[k] == p);
            let a = path_of(p);
            assert(a.1.subrange(0, a.1.len() as int) =~= a.1);
            assert(lies_under(path_of(p), path_of(roots[k])));
        }
    }
}

/// A root, or why there is none.
pub open spec fn root_result(x: Result<RepoRoot, String>) -> Result<Seq<char>, Seq<char>> {
    match x {
        Ok(r) => Ok(r@),
        Err(m) => Err(m@),
    }
}

/// A named directory, as it is seen.
pub open spec fn named(selector: Option<(&str, Result<RepoRoot, RepoRootError>)>) -> Option<
    (Seq<char>, Result<Seq<char>, Seq<char>>),
> {
    match selector {
        Some((s, Ok(r))) => Some((s@, Ok(r@))),
        Some((s, Err(e))) => Some((s@, Err(e.text()))),
        None => None,
    }
}

fn find_root(roots: &Vec<RepoRoot>, sel: &str) -> (r: Option<RepoRoot>)
    ensures
        match r {
            Some(root) => root@ == sel@ && root_texts(roots@).contains(sel@),
            None => !root_texts(roots@).contains(sel@),
        },
{
    let mut i: usize = 0;
    while i < roots.len()
        invariant
            i <= roots@.len(),
            forall|k: int| 0 <= k < i ==> (#[trigger] roots@[k])@ != sel@,
        decreases roots@.len() - i,
    {
        if same(roots[i].as_str(), sel) {
            assert(root_texts(roots@)[i as int] == sel@);
            return Some(roots[i].clone());
        }
        i = i + 1;
    }
    proof {
        if root_texts(roots@).contains(sel@) {
            let k = root_texts(roots@).index_of(sel@);
            assert(roots@[k]@ == sel@);
        }
    }
    None
}

fn is_allowed(roots: &Vec<RepoRoot>, p: &str) -> (r: bool)
    ensures
        r == allowed(root_texts(roots@), p@),
{
    let key = PathKey::of(p);
    let ghost rs = root_texts(roots@);
    let mut i: usize = 0;
    while i < roots.len()
        invariant
            i <= roots@.len(),
            rs == root_texts(roots@),
            key@ == path_of(p@),
            forall|k: int| 0 <= k < i ==> !lies_under(path_of(p@), path_of(#[trigger] rs[k])),
        decreases roots@.len() - i,
    {
        assert(rs[i as int] == roots@[i as int]@);
        if key.under(&PathKey::of(roots[i].as_path())) {
            return true;
        }
        i = i + 1;
    }
    false
}

impl<D, S, X, G, A, E, L, Q> WorkflowRuntime<D, S, X, G, A, E, L, Q> {
    /// What can be changed of the runtime while it is shared.
    pub open spec fn look(&self) -> LookView {
        LookView { draining: self.draining, roots: root_texts(self.writable_repo_roots@) }
    }

    /// A runtime on its ports, with nothing else wired and nothing writable.
    pub fn new(definitions: D, store: S, executors: X, guards: G, audit: A) -> (r: Self)
        ensures
            r.definitions == definitions,
            r.store == store,
            r.executors == executors,
            r.guards == guards,
            r.audit == audit,
            r.evidence is None,
            r.repo_locks is None,
            r.lock_scheduler is None,
            !r.draining,
            r.pending_subjects is None,
            r.max_chained_llm_turns == DEFAULT_MAX_CHAINED_LLM_TURNS,
            r.auto_drive@ == (AutoView {
                enabled: false,
                affinity: "reasoning"@,
                tools: Seq::empty(),
                max_seconds: 180,
            }),
            r.writable_repo_roots@.len() == 0,
            r.look() == fresh_look(),
    {
        let tools: Vec<String> = Vec::new();
        assert(texts(tools@) =~= Seq::empty());
        WorkflowRuntime {
            definitions,
            store,
            executors,
            guards,
            audit,
            evidence: None,
            repo_locks: None,
            lock_scheduler: None,
            draining: false,
            pending_subjects: None,
            max_chained_llm_turns: DEFAULT_MAX_CHAINED_LLM_TURNS,
            auto_drive: AutoDrive {
                enabled: false,
                affinity: "reasoning".to_owned(),
                tools,
                max_seconds: 180,
            },
            writable_repo_roots: Vec::new(),
        }
    }

    /// Sets the repositories that runs may work on.
    pub fn with_writable_repo_roots(self, roots: Vec<RepoRoot>) -> (r: Self)
        ensures
            r == (Self { writable_repo_roots: roots, ..self }),
    {
        let mut r = self;
        r.writable_repo_roots = roots;
        r
    }

    /// Replaces the repositories that runs may work on.
    pub fn set_writable_repo_roots(&mut self, roots: Vec<RepoRoot>)
        ensures
            *final(self) == (Self { writable_repo_roots: roots, ..*old(self) }),
            final(self).look() == rewired(old(self).look(), root_texts(roots@)),
    {
        self.writable_repo_roots = roots;
    }

    /// The repositories that runs may work on.
    pub fn writable_repo_roots_snapshot(&self) -> (r: Vec<String>)
        ensures
            texts(r@) == root_texts(self.writable_repo_roots@),
            texts(r@) == self.look().roots,
    {
        list_roots(&self.writable_repo_roots)
    }

    /// Chooses the root of a run. A selector comes with the directory that it leads to, or
    /// why there is none.
    pub fn resolve_run_repo_root(
        &self,
        selector: Option<(&str, Result<RepoRoot, RepoRootError>)>,
    ) -> (r: Result<RepoRoot, String>)
        ensures
            root_result(r) == run_root(root_texts(self.writable_repo_roots@), named(selector)),
    {
        let roots = &self.writable_repo_roots;
        assert(root_texts(roots@).len() == roots@.len());
        if roots.len() == 0 {
            return Err(
                "REPO_ROOT_REQUIRED: a run requires a repo_root, but no writable repo is declared. Declare a repo with `writable: true` in the gateway config.".to_owned(),
            );
        }
        let choices = join(&list_roots(roots), ", ");
        match selector {
            None => if roots.len() == 1 {
                Ok(roots[0].clone())
            } else {
                let mut m = "REPO_ROOT_AMBIGUOUS: ".to_owned();
                m.append(decimal_text(roots.len() as u64).as_str());
                m.append(
                    " writable repos are declared; name one via the `repoRoot` selector. Choices: ",
                );
                m.append(choices.as_str());
                Err(m)
            },
            Some((sel, found)) => match find_root(roots, sel) {
                Some(r) => Ok(r),
                None => match found {
                    Err(e) => {
                        let mut m = "REPO_ROOT_UNKNOWN: `".to_owned();
                        m.append(sel);
                        m.append(
                            "` is neither a declared writable repo root nor a resolvable directory under one (",
                        );
                        m.append(e.message().as_str());
                        m.append("). Declared roots: ");
                        m.append(choices.as_str());
                        Err(m)
                    },
                    Ok(dir) => if is_allowed(roots, dir.as_path()) {
                        Ok(dir)
                    } else {
                        let mut m = "REPO_ROOT_OUTSIDE_ALLOWLIST: `".to_owned();
                        m.append(sel);
                        m.append("` resolves to `");
                        m.append(dir.as_str());
                        m.append(
                            "`, which is not under any declared writable repo root. Choose a path within one of: ",
                        );
                        m.append(choices.as_str());
                        Err(m)
                    },
                },
            },
        }
    }

    /// Sets how agents are driven. An empty affinity and a bound of no seconds keep what is
    /// set.
    pub fn with_auto_drive_agents(
        self,
        enabled: bool,
        affinity: String,
        tools: Vec<String>,
        max_seconds: u64,
    ) -> (r: Self)
        ensures
            r == (Self { auto_drive: r.auto_drive, ..self }),
            r.auto_drive@ == (AutoView {
                enabled,
                affinity: if affinity@.len() > 0 {
                    affinity@
                } else {
                    self.auto_drive@.affinity
                },
                tools: texts(tools@),
                max_seconds: if max_seconds > 0 {
                    max_seconds
                } else {
                    self.auto_drive@.max_seconds
                },
            }),
    {
        let mut r = self;
        r.auto_drive.enabled = enabled;
        if !affinity.as_str().is_empty() {
            r.auto_drive.affinity = affinity;
        }
        r.auto_drive.tools = tools;
        if max_seconds > 0 {
            r.auto_drive.max_seconds = max_seconds;
        }
        r
    }

    /// Sets the turns that one submission may take.
    pub fn with_max_chained_llm_turns(self, max: u32) -> (r: Self)
        ensures
            r == (Self { max_chained_llm_turns: max, ..self }),
    {
        let mut r = self;
        r.max_chained_llm_turns = max;
        r
    }

    /// Tracks the subjects that still need a definition.
    pub fn with_pending_subjects(self, pending: Vec<String>) -> (r: Self)
        ensures
            r == (Self { pending_subjects: Some(pending), ..self }),
    {
        let mut r = self;
        r.pending_subjects = Some(pending);
        r
    }

    /// From now on no new instances are taken.
    pub fn begin_drain(&mut self)
        ensures
            *final(self) == (Self { draining: true, ..*old(self) }),
            final(self).look() == drained(old(self).look()),
    {
        self.draining = true;
    }

    /// Whether no new instances are taken.
    pub fn is_draining(&self) -> (r: bool)
        ensures
            r == self.draining,
            r == self.look().draining,
    {
        self.draining
    }

    /// Wires a store of evidence.
    pub fn with_evidence(self, evidence: E) -> (r: Self)
        ensures
            r == (Self { evidence: Some(evidence), ..self }),
    {
        let mut r = self;
        r.evidence = Some(evidence);
        r
    }

    /// Wires the locks of files.
    pub fn with_repo_locks(self, locks: L) -> (r: Self)
        ensures
            r == (Self { repo_locks: Some(locks), ..self }),
    {
        let mut r = self;
        r.repo_locks = Some(locks);
        r
    }

    /// The locks of files.
    pub fn repo_locks(&self) -> (r: Option<&L>)
        ensures
            match r {
                Some(l) => self.repo_locks == Some(*l),
                None => self.repo_locks is None,
            },
    {
        match &self.repo_locks {
            Some(l) => Some(l),
            None => None,
        }
    }

    /// Wires the line of those who wait for files.
    pub fn with_lock_scheduler(self, scheduler: Q) -> (r: Self)
        ensures
            r == (Self { lock_scheduler: Some(scheduler), ..self }),
    {
        let mut r = self;
        r.lock_scheduler = Some(scheduler);
        r
    }

    /// The audit trail.
    pub fn audit(&self) -> (r: &A)
        ensures
            *r == self.audit,
    {
        &self.audit
    }

    /// What is wired.
    pub fn wiring(&self) -> (r: Wiring)
        ensures
            r == (Wiring {
                locks: self.repo_locks is Some,
                scheduler: self.lock_scheduler is Some,
                evidence: self.evidence is Some,
            }),
    {
        Wiring {
            locks: self.repo_locks.is_some(),
            scheduler: self.lock_scheduler.is_some(),
            evidence: self.evidence.is_some(),
        }
    }
}

} // verus!
