//! The environment that a whole run shares: the repository it works on, its
//! correlation ids and its leases.

use vstd::prelude::*;

use crate::text::{opt_string, same};

verus! {

/// A validated repository root: an absolute path.
pub struct RepoRoot {
    path: String,
}

/// Why a path is no repository root.
pub enum RepoRootError {
    NotAbsolute(String),
    NotADir(String),
    Canonicalize { path: String, source: String },
}

/// Whether a path starts at the root of the file system.
pub open spec fn absolute(p: Seq<char>) -> bool {
    p.len() > 0 && p[0] == '/'
}

fn is_absolute(p: &str) -> (r: bool)
    ensures
        r == absolute(p@),
{
    let v = crate::text::chars_of(p);
    v.len() > 0 && v[0] == '/'
}

impl RepoRootError {
    /// The message of the error.
    pub open spec fn text(&self) -> Seq<char> {
        match self {
            RepoRootError::NotAbsolute(p) => "repo_root is not absolute: "@ + p@,
            RepoRootError::NotADir(p) => "repo_root is not a directory: "@ + p@,
            RepoRootError::Canonicalize { path, source } => "repo_root canonicalize failed for "@
                + path@ + ": "@ + source@,
        }
    }

    pub fn message(&self) -> (r: String)
        ensures
            r@ == self.text(),
    {
        match self {
            RepoRootError::NotAbsolute(p) => "repo_root is not absolute: ".to_owned().concat(
                p.as_str(),
            ),
            RepoRootError::NotADir(p) => "repo_root is not a directory: ".to_owned().concat(
                p.as_str(),
            ),
            RepoRootError::Canonicalize { path, source } => {
                let mut m = "repo_root canonicalize failed for ".to_owned();
                m.append(path.as_str());
                m.append(": ");
                m.append(source.as_str());
                m
            },
        }
    }
}

impl RepoRoot {
    #[verifier::type_invariant]
    spec fn valid(&self) -> bool {
        absolute(self.path@)
    }

    pub closed spec fn view(&self) -> Seq<char> {
        self.path@
    }

    /// Establishes a root from what the file system says of `raw`: its canonical
    /// form, or why there is none, and whether that form is a directory.
    pub fn new(raw: &str, canonical: Result<String, String>, is_dir: bool) -> (r: Result<
        RepoRoot,
        RepoRootError,
    >)
        ensures
            match canonical {
                Err(e) => r matches Err(RepoRootError::Canonicalize { path, source }) && path@
                    == raw@ && source@ == e@,
                Ok(c) => if !absolute(c@) {
                    r matches Err(RepoRootError::NotAbsolute(p)) && p@ == c@
                } else if !is_dir {
                    r matches Err(RepoRootError::NotADir(p)) && p@ == c@
                } else {
                    r matches Ok(root) && root@ == c@
                },
            },
    {
        match canonical {
            Err(e) => Err(RepoRootError::Canonicalize { path: raw.to_owned(), source: e }),
            Ok(c) => if !is_absolute(c.as_str()) {
                Err(RepoRootError::NotAbsolute(c))
            } else if !is_dir {
                Err(RepoRootError::NotADir(c))
            } else {
                Ok(RepoRoot { path: c })
            },
        }
    }

    /// Reloads a root that was established before: only its form is checked.
    pub fn from_persisted(s: String) -> (r: Result<RepoRoot, RepoRootError>)
        ensures
            if absolute(s@) {
                r matches Ok(root) && root@ == s@
            } else {
                r matches Err(RepoRootError::NotAbsolute(p)) && p@ == s@
            },
    {
        if is_absolute(s.as_str()) {
            Ok(RepoRoot { path: s })
        } else {
            Err(RepoRootError::NotAbsolute(s))
        }
    }

    /// The root as a path.
    pub fn as_path(&self) -> (p: &str)
        ensures
            p@ == self@,
            absolute(p@),
    {
        proof {
            use_type_invariant(self);
        }
        self.path.as_str()
    }

    /// The root as text.
    pub fn as_str(&self) -> (p: &str)
        ensures
            p@ == self@,
            absolute(p@),
    {
        proof {
            use_type_invariant(self);
        }
        self.path.as_str()
    }
}

impl Clone for RepoRoot {
    fn clone(&self) -> (r: RepoRoot)
        ensures
            r@ == self@,
    {
        proof {
            use_type_invariant(self);
        }
        RepoRoot { path: self.path.clone() }
    }
}

/// Named leases: a pool and the member of it that the run holds, no pool twice.
pub struct Leases {
    entries: Vec<(String, String)>,
}

impl Leases {
    #[verifier::type_invariant]
    spec fn distinct(&self) -> bool {
        forall|i: int, j: int|
            0 <= i < j < self.entries@.len() ==> self.entries@[i].0@ != self.entries@[j].0@
    }

    /// The leases as a map from pool to member.
    pub closed spec fn view(&self) -> Map<Seq<char>, Seq<char>> {
        Map::new(
            |k: Seq<char>| exists|i: int| 0 <= i < self.entries@.len() && self.entries@[i].0@ == k,
            |k: Seq<char>|
                self.entries@[choose|i: int|
                    0 <= i < self.entries@.len() && self.entries@[i].0@ == k].1@,
        )
    }

    pub fn new() -> (r: Leases)
        ensures
            r@ == Map::<Seq<char>, Seq<char>>::empty(),
    {
        let r = Leases { entries: Vec::new() };
        assert(r@ =~= Map::<Seq<char>, Seq<char>>::empty());
        r
    }

    fn place(&self, pool: &str) -> (p: usize)
        ensures
            p <= self.entries@.len(),
            p < self.entries@.len() ==> self.entries@[p as int].0@ == pool@,
            p == self.entries@.len() ==> forall|j: int|
                0 <= j < p ==> (#[trigger] self.entries@[j]).0@ != pool@,
    {
        let mut i: usize = 0;
        while i < self.entries.len()
            invariant
                i <= self.entries@.len(),
                forall|j: int| 0 <= j < i ==> (#[trigger] self.entries@[j]).0@ != pool@,
            decreases self.entries@.len() - i,
        {
            if same(self.entries[i].0.as_str(), pool) {
                return i;
            }
            i = i + 1;
        }
        i
    }

    pub fn get(&self, pool: &str) -> (r: Option<&str>)
        ensures
            match r {
                Some(m) => self@.contains_key(pool@) && m@ == self@[pool@],
                None => !self@.contains_key(pool@),
            },
    {
        proof {
            use_type_invariant(self);
        }
        let p: usize = self.place(pool);
        if p < self.entries.len() {
            assert(self.entries@[p as int].0@ == pool@);
            Some(self.entries[p].1.as_str())
        } else {
            None
        }
    }

    /// The pools that something is leased from, each once.
    pub fn pools(&self) -> (r: Vec<&str>)
        ensures
            forall|k: Seq<char>|
                #![trigger self@.contains_key(k)]
                self@.contains_key(k) <==> exists|i: int| 0 <= i < r@.len() && (#[trigger] r@[i])@ == k,
            forall|i: int, j: int| 0 <= i < j < r@.len() ==> (#[trigger] r@[i])@ != (#[trigger] r@[j])@,
    {
        proof {
            use_type_invariant(self);
        }
        let mut out: Vec<&str> = Vec::new();
        let mut i: usize = 0;
        while i < self.entries.len()
            invariant
                i <= self.entries@.len(),
                out@.len() == i,
                forall|j: int| 0 <= j < i ==> (#[trigger] out@[j])@ == self.entries@[j].0@,
            decreases self.entries@.len() - i,
        {
            out.push(self.entries[i].0.as_str());
            i = i + 1;
        }
        assert forall|k: Seq<char>| #[trigger]
            self@.contains_key(k) <==> exists|i: int| 0 <= i < out@.len() && (#[trigger] out@[i])@ == k by {
            if self@.contains_key(k) {
                let j = choose|j: int| 0 <= j < self.entries@.len() && self.entries@[j].0@ == k;
                assert(out@[j]@ == k);
            }
            if exists|i: int| 0 <= i < out@.len() && (#[trigger] out@[i])@ == k {
                let j = choose|j: int| 0 <= j < out@.len() && (#[trigger] out@[j])@ == k;
                assert(self.entries@[j].0@ == k);
            }
        }
        out
    }

    /// Leases `member` of `pool`.
    pub fn insert(&mut self, pool: String, member: String)
        ensures
            final(self)@ == old(self)@.insert(pool@, member@),
    {
        proof {
            use_type_invariant(&*self);
        }
        let p: usize = self.place(pool.as_str());
        let ghost before = *self;
        let ghost (k, m) = (pool@, member@);
        let mut es: Vec<(String, String)> = Vec::new();
        std::mem::swap(&mut es, &mut self.entries);
        if p < es.len() {
            es.set(p, (pool, member));
        } else {
            es.push((pool, member));
        }
        proof {
            let after = Leases { entries: es };
            assert(es@[p as int].0@ == k);
            assert forall|q: Seq<char>| #[trigger] after@.contains_key(q) == before@.insert(
                k,
                m,
            ).contains_key(q) by {
                if q != k && before@.contains_key(q) {
                    let i = choose|i: int|
                        0 <= i < before.entries@.len() && before.entries@[i].0@ == q;
                    assert(es@[i].0@ == q);
                }
                if q != k && after@.contains_key(q) {
                    let i = choose|i: int| 0 <= i < es@.len() && es@[i].0@ == q;
                    assert(before.entries@[i].0@ == q);
                }
            }
            assert forall|q: Seq<char>| after@.contains_key(q) implies #[trigger] after@[q]
                == before@.insert(k, m)[q] by {
                let i = choose|i: int| 0 <= i < es@.len() && es@[i].0@ == q;
                if q != k {
                    assert(before.entries@[i].0@ == q);
                }
            }
            assert(after@ =~= before@.insert(k, m));
        }
        self.entries = es;
    }
}

impl Clone for Leases {
    fn clone(&self) -> (r: Leases)
        ensures
            r@ == self@,
    {
        proof {
            use_type_invariant(self);
        }
        let mut out: Vec<(String, String)> = Vec::new();
        let mut i: usize = 0;
        while i < self.entries.len()
            invariant
                i == out@.len(),
                i <= self.entries@.len(),
                forall|j: int|
                    0 <= j < i ==> (#[trigger] out@[j]).0@ == self.entries@[j].0@ && out@[j].1@
                        == self.entries@[j].1@,
            decreases self.entries@.len() - i,
        {
            let k = self.entries[i].0.clone();
            let m = self.entries[i].1.clone();
            out.push((k, m));
            i = i + 1;
        }
        let r = Leases { entries: out };
        proof {
            assert forall|q: Seq<char>| #[trigger] r@.contains_key(q) == self@.contains_key(q) by {
                if self@.contains_key(q) {
                    let i = choose|i: int|
                        0 <= i < self.entries@.len() && self.entries@[i].0@ == q;
                    assert(out@[i].0@ == q);
                }
            }
            assert forall|q: Seq<char>| r@.contains_key(q) implies #[trigger] r@[q] == self@[q] by {
                let i = choose|i: int| 0 <= i < out@.len() && out@[i].0@ == q;
                assert(self.entries@[i].0@ == q);
                let k = choose|i: int| 0 <= i < self.entries@.len() && self.entries@[i].0@ == q;
            }
            assert(r@ =~= self@);
        }
        r
    }
}

/// What a run carries through every spawn.
pub struct RunEnv {
    pub repo_root: RepoRoot,
    pub run_id: Option<String>,
    pub trace_id: Option<String>,
    pub leased: Leases,
}

/// The model of a run environment.
pub struct RunEnvView {
    pub repo_root: Seq<char>,
    pub run_id: Option<Seq<char>>,
    pub trace_id: Option<Seq<char>>,
    pub leased: Map<Seq<char>, Seq<char>>,
}

impl RunEnv {
    pub open spec fn view(&self) -> RunEnvView {
        RunEnvView {
            repo_root: self.repo_root@,
            run_id: opt_string(self.run_id),
            trace_id: opt_string(self.trace_id),
            leased: self.leased@,
        }
    }

    /// An environment without leases.
    pub fn new(repo_root: RepoRoot, run_id: Option<String>, trace_id: Option<String>) -> (r: RunEnv)
        ensures
            r.repo_root == repo_root,
            r.run_id == run_id,
            r.trace_id == trace_id,
            r.leased@ == Map::<Seq<char>, Seq<char>>::empty(),
    {
        RunEnv { repo_root, run_id, trace_id, leased: Leases::new() }
    }

    /// An environment that only names its root.
    pub fn for_test(repo_root: RepoRoot) -> (r: RunEnv)
        ensures
            r.repo_root == repo_root,
            r.run_id is None,
            r.trace_id is None,
            r.leased@ == Map::<Seq<char>, Seq<char>>::empty(),
    {
        RunEnv::new(repo_root, None, None)
    }

    /// The member leased from `pool`.
    pub fn leased_member(&self, pool: &str) -> (r: Option<&str>)
        ensures
            match r {
                Some(m) => self.leased@.contains_key(pool@) && m@ == self.leased@[pool@],
                None => !self.leased@.contains_key(pool@),
            },
    {
        self.leased.get(pool)
    }
}

/// A copy of a string that may be absent.
pub fn copy_opt(s: &Option<String>) -> (r: Option<String>)
    ensures
        opt_string(r) == opt_string(*s),
{
    match s {
        Some(t) => Some(t.clone()),
        None => None,
    }
}

impl Clone for RunEnv {
    fn clone(&self) -> (r: RunEnv)
        ensures
            r@ == self@,
    {
        RunEnv {
            repo_root: self.repo_root.clone(),
            run_id: copy_opt(&self.run_id),
            trace_id: copy_opt(&self.trace_id),
            leased: self.leased.clone(),
        }
    }
}

} // verus!
