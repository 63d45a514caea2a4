//! Write exclusion over the files of a repository: one table from file to holder,
//! for all workflows. A holder takes all the files it asks for or none.

use vstd::prelude::*;

use crate::json::{views, Json, JsonView};
use crate::model::{in_calendar, span_fits, Span, Timestamp};
use crate::path::{path_of, PathKey, PathView};
use crate::runtime::links::{collect_strings, strings_in};
use crate::text::{same, texts};

verus! {

/// A lock that is held.
pub struct HeldLock {
    pub file: String,
    pub holder: String,
    pub expires_at: Timestamp,
}

/// Why a set of files could not be taken: the files that are held by others, with
/// their holders.
pub struct LockConflict {
    pub conflicts: Vec<(String, String)>,
}

/// The model of a conflict.
pub open spec fn conflict_view(c: Seq<(String, String)>) -> Seq<(Seq<char>, Seq<char>)> {
    c.map_values(|p: (String, String)| (p.0@, p.1@))
}

/// The model of a held lock: the file as it was first spelt, the holder, the end of
/// the lock and the length it was taken for.
pub struct LockView {
    pub file: Seq<char>,
    pub holder: Seq<char>,
    pub expires: int,
    pub ttl: int,
}

/// The model of a lock table: what is held, by path.
pub type LockTable = Map<PathView, LockView>;

/// The locks that have not run out.
pub open spec fn live(t: LockTable, now: int) -> LockTable {
    Map::new(|f: PathView| t.contains_key(f) && t[f].expires >= now, |f: PathView| t[f])
}

/// The files, of those asked for, that someone else holds, with their holders.
pub open spec fn conflicts_with(t: LockTable, files: Seq<Seq<char>>, holder: Seq<char>) -> Seq<
    (Seq<char>, Seq<char>),
>
    decreases files.len(),
{
    if files.len() == 0 {
        Seq::empty()
    } else {
        let before = conflicts_with(t, files.drop_last(), holder);
        let f = path_of(files.last());
        if t.contains_key(f) && t[f].holder != holder {
            before.push((files.last(), t[f].holder))
        } else {
            before
        }
    }
}

/// The table with all the files taken.
pub open spec fn granted(
    t: LockTable,
    files: Seq<Seq<char>>,
    holder: Seq<char>,
    expires: int,
    ttl: int,
) -> LockTable
    decreases files.len(),
{
    if files.len() == 0 {
        t
    } else {
        let before = granted(t, files.drop_last(), holder, expires, ttl);
        let f = path_of(files.last());
        let file = if before.contains_key(f) {
            before[f].file
        } else {
            files.last()
        };
        before.insert(f, LockView { file, holder, expires, ttl })
    }
}

/// The table without the files that the holder gives back.
pub open spec fn released(t: LockTable, files: Seq<Seq<char>>, holder: Seq<char>) -> LockTable
    decreases files.len(),
{
    if files.len() == 0 {
        t
    } else {
        let before = released(t, files.drop_last(), holder);
        let f = path_of(files.last());
        if before.contains_key(f) && before[f].holder == holder {
            before.remove(f)
        } else {
            before
        }
    }
}

/// The table with the holder's locks on the files extended from `now` on.
pub open spec fn extended(
    t: LockTable,
    files: Seq<Seq<char>>,
    holder: Seq<char>,
    now: int,
) -> LockTable
    decreases files.len(),
{
    if files.len() == 0 {
        t
    } else {
        let before = extended(t, files.drop_last(), holder, now);
        let f = path_of(files.last());
        if before.contains_key(f) && before[f].holder == holder {
            before.insert(f, LockView { expires: now + before[f].ttl, ..before[f] })
        } else {
            before
        }
    }
}

/// Whether the holder holds a file.
pub open spec fn holds_file(t: LockTable, file: Seq<char>, holder: Seq<char>) -> bool {
    t.contains_key(path_of(file)) && t[path_of(file)].holder == holder
}

/// The first of the candidates that is not held by another.
pub open spec fn first_free(t: LockTable, candidates: Seq<Seq<char>>, holder: Seq<char>) -> Option<
    int,
>
    decreases candidates.len(),
{
    if candidates.len() == 0 {
        None
    } else {
        match first_free(t, candidates.drop_last(), holder) {
            Some(i) => Some(i),
            None => if conflicts_with(t, seq![candidates.last()], holder).len() == 0 {
                Some(candidates.len() - 1)
            } else {
                None
            },
        }
    }
}

/// What a lock is taken for where the length asked for cannot be kept: five minutes.
pub open spec fn effective_ttl(secs: u64, nanos: u32) -> int {
    if span_fits(secs, nanos) {
        secs * 1_000_000_000 + nanos
    } else {
        300_000_000_000
    }
}

/// A file that is held by another blocks every request that asks for it.
pub proof fn law_exclusion(
    t: LockTable,
    files: Seq<Seq<char>>,
    holder: Seq<char>,
    i: int,
)
    requires
        0 <= i < files.len(),
        t.contains_key(path_of(files[i])),
        t[path_of(files[i])].holder != holder,
    ensures
        conflicts_with(t, files, holder).len() > 0,
    decreases files.len(),
{
    if i < files.len() - 1 {
        assert(files.drop_last()[i] == files[i]);
        law_exclusion(t, files.drop_last(), holder, i);
    }
}

/// Only a file that is held by another blocks a request.
pub proof fn law_free_files_are_granted(t: LockTable, files: Seq<Seq<char>>, holder: Seq<char>)
    requires
        forall|i: int|
            0 <= i < files.len() ==> (t.contains_key(#[trigger] path_of(files[i]))
                ==> t[path_of(files[i])].holder == holder),
    ensures
        conflicts_with(t, files, holder).len() == 0,
    decreases files.len(),
{
    if files.len() > 0 {
        assert forall|i: int| 0 <= i < files.len() - 1 implies (t.contains_key(
            #[trigger] path_of(files.drop_last()[i]),
        ) ==> t[path_of(files.drop_last()[i])].holder == holder) by {
            assert(files.drop_last()[i] == files[i]);
        }
        law_free_files_are_granted(t, files.drop_last(), holder);
        assert(path_of(files[files.len() - 1]) == path_of(files.last()));
    }
}

/// After a grant the holder holds every file it asked for, until the end that was
/// granted, and no other file changed.
pub proof fn law_grant_holds(
    t: LockTable,
    files: Seq<Seq<char>>,
    holder: Seq<char>,
    expires: int,
    ttl: int,
    f: PathView,
)
    ensures
        ({
            let g = granted(t, files, holder, expires, ttl);
            if exists|i: int| 0 <= i < files.len() && #[trigger] path_of(files[i]) == f {
                g.contains_key(f) && g[f].holder == holder && g[f].expires == expires && g[f].ttl
                    == ttl
            } else {
                g.contains_key(f) == t.contains_key(f) && (t.contains_key(f) ==> g[f] == t[f])
            }
        }),
    decreases files.len(),
{
    if files.len() > 0 {
        let init = files.drop_last();
        law_grant_holds(t, init, holder, expires, ttl, f);
        if exists|i: int| 0 <= i < files.len() && #[trigger] path_of(files[i]) == f {
            let i = choose|i: int| 0 <= i < files.len() && #[trigger] path_of(files[i]) == f;
            if i < init.len() {
                assert(path_of(init[i]) == f);
            }
        } else {
            assert(path_of(files[files.len() - 1]) != f);
            if exists|i: int| 0 <= i < init.len() && #[trigger] path_of(init[i]) == f {
                let i = choose|i: int| 0 <= i < init.len() && #[trigger] path_of(init[i]) == f;
                assert(path_of(files[i]) == f);
            }
        }
    }
}

/// After a release the holder holds none of the files it gave back; what others hold
/// and what was not given back is untouched.
pub proof fn law_release(t: LockTable, files: Seq<Seq<char>>, holder: Seq<char>, f: PathView)
    ensures
        ({
            let r = released(t, files, holder);
            let given = exists|i: int| 0 <= i < files.len() && #[trigger] path_of(files[i]) == f;
            if given && t.contains_key(f) && t[f].holder == holder {
                !r.contains_key(f)
            } else {
                r.contains_key(f) == t.contains_key(f) && (t.contains_key(f) ==> r[f] == t[f])
            }
        }),
    decreases files.len(),
{
    if files.len() > 0 {
        let init = files.drop_last();
        law_release(t, init, holder, f);
        if exists|i: int| 0 <= i < files.len() && #[trigger] path_of(files[i]) == f {
            let i = choose|i: int| 0 <= i < files.len() && #[trigger] path_of(files[i]) == f;
            if i < init.len() {
                assert(path_of(init[i]) == f);
            }
        } else {
            assert(path_of(files[files.len() - 1]) != f);
        }
        if exists|i: int| 0 <= i < init.len() && #[trigger] path_of(init[i]) == f {
            let i = choose|i: int| 0 <= i < init.len() && #[trigger] path_of(init[i]) == f;
            assert(path_of(files[i]) == f);
        }
    }
}

/// A late extension brings no lock back: what is held after it was held, by the same
/// holder, and had not run out.
pub proof fn law_extension_revives_nothing(
    t: LockTable,
    files: Seq<Seq<char>>,
    holder: Seq<char>,
    now: int,
    f: PathView,
)
    ensures
        extended(live(t, now), files, holder, now).contains_key(f) <==> (t.contains_key(f)
            && t[f].expires >= now),
        extended(live(t, now), files, holder, now).contains_key(f) ==> extended(
            live(t, now),
            files,
            holder,
            now,
        )[f].holder == t[f].holder && extended(live(t, now), files, holder, now)[f].ttl == t[f].ttl,
    decreases files.len(),
{
    if files.len() > 0 {
        law_extension_revives_nothing(t, files.drop_last(), holder, now, f);
        law_extension_revives_nothing(t, files.drop_last(), holder, now, path_of(files.last()));
    }
}

/// A call on the locks.
pub enum LockCall {
    Acquire { files: Seq<Seq<char>>, holder: Seq<char>, ttl: int, now: int },
    AcquireAny { candidates: Seq<Seq<char>>, holder: Seq<char>, ttl: int, now: int },
    Release { files: Seq<Seq<char>>, holder: Seq<char> },
    Heartbeat { files: Seq<Seq<char>>, holder: Seq<char>, now: int },
    Held { now: int },
}

/// The table after a call.
pub open spec fn after_call(t: LockTable, c: LockCall) -> LockTable {
    match c {
        LockCall::Acquire { files, holder, ttl, now } => if conflicts_with(
            live(t, now),
            files,
            holder,
        ).len() == 0 {
            granted(live(t, now), files, holder, now + ttl, ttl)
        } else {
            live(t, now)
        },
        LockCall::AcquireAny { candidates, holder, ttl, now } => if candidates.len() == 0 {
            t
        } else {
            match first_free(live(t, now), candidates, holder) {
                Some(i) => granted(live(t, now), seq![candidates[i]], holder, now + ttl, ttl),
                None => live(t, now),
            }
        },
        LockCall::Release { files, holder } => released(t, files, holder),
        LockCall::Heartbeat { files, holder, now } => extended(live(t, now), files, holder, now),
        LockCall::Held { now } => live(t, now),
    }
}

/// The table after a history of calls, none held at first.
pub open spec fn after_calls(calls: Seq<LockCall>) -> LockTable
    decreases calls.len(),
{
    if calls.len() == 0 {
        Map::empty()
    } else {
        after_call(after_calls(calls.drop_last()), calls.last())
    }
}

/// Whether a file is among some.
pub open spec fn lists(files: Seq<Seq<char>>, f: PathView) -> bool {
    exists|i: int| 0 <= i < files.len() && #[trigger] path_of(files[i]) == f
}

/// Whether a call takes a file for a holder.
pub open spec fn takes(t: LockTable, c: LockCall, f: PathView, by: Seq<char>) -> bool {
    match c {
        LockCall::Acquire { files, holder, ttl, now } => holder == by && lists(files, f)
            && conflicts_with(live(t, now), files, holder).len() == 0,
        LockCall::AcquireAny { candidates, holder, ttl, now } => holder == by && (first_free(
            live(t, now),
            candidates,
            holder,
        ) matches Some(i) && path_of(candidates[i]) == f),
        _ => false,
    }
}

/// Whether a call gives a file back for a holder.
pub open spec fn gives_back(c: LockCall, f: PathView, by: Seq<char>) -> bool {
    c matches LockCall::Release { files, holder } && holder == by && lists(files, f)
}

/// Whether the holder took a file in a call, and since then nobody took it again and the holder
/// did not give it back.
pub open spec fn taken_at(calls: Seq<LockCall>, k: int, f: PathView, holder: Seq<char>) -> bool {
    &&& 0 <= k < calls.len()
    &&& takes(after_calls(calls.take(k)), calls[k], f, holder)
    &&& forall|j: int, other: Seq<char>|
        k < j < calls.len() ==> !(#[trigger] takes(
            after_calls(calls.take(j)),
            calls[j],
            f,
            other,
        ))
    &&& forall|j: int| k < j < calls.len() ==> !gives_back(#[trigger] calls[j], f, holder)
}

proof fn lemma_call_keeps(t: LockTable, c: LockCall, f: PathView)
    requires
        after_call(t, c).contains_key(f),
        forall|by: Seq<char>| !takes(t, c, f, by),
    ensures
        t.contains_key(f),
        t[f].holder == after_call(t, c)[f].holder,
        !gives_back(c, f, t[f].holder),
{
    match c {
        LockCall::Acquire { files, holder, ttl, now } => {
            assert(!takes(t, c, f, holder));
            law_grant_holds(live(t, now), files, holder, now + ttl, ttl, f);
        },
        LockCall::AcquireAny { candidates, holder, ttl, now } => {
            assert(!takes(t, c, f, holder));
            if let Some(i) = first_free(live(t, now), candidates, holder) {
                law_grant_holds(live(t, now), seq![candidates[i]], holder, now + ttl, ttl, f);
            }
        },
        LockCall::Release { files, holder } => {
            law_release(t, files, holder, f);
        },
        LockCall::Heartbeat { files, holder, now } => {
            lemma_extended_keeps(live(t, now), files, holder, now, f);
        },
        LockCall::Held { .. } => {},
    }
}

/// After any history of calls each file has at most one holder, and it is the one who last
/// took the file and has not given it back since.
pub proof fn law_held_files_were_taken(calls: Seq<LockCall>, f: PathView)
    requires
        after_calls(calls).contains_key(f),
    ensures
        exists|k: int| #[trigger] taken_at(calls, k, f, after_calls(calls)[f].holder),
    decreases calls.len(),
{
    let init = calls.drop_last();
    let t = after_calls(init);
    let n = calls.len() - 1;
    let holder = after_calls(calls)[f].holder;
    assert(calls.take(n) =~= init);
    if exists|by: Seq<char>| takes(t, calls.last(), f, by) {
        let by = choose|by: Seq<char>| takes(t, calls.last(), f, by);
        law_taken_files_are_held(t, calls.last(), f, by);
        assert(taken_at(calls, n, f, holder));
    } else {
        lemma_call_keeps(t, calls.last(), f);
        law_held_files_were_taken(init, f);
        let k = choose|k: int| #[trigger] taken_at(init, k, f, holder);
        assert(init.take(k) =~= calls.take(k));
        assert forall|j: int, other: Seq<char>| k < j < calls.len() implies !(#[trigger] takes(
            after_calls(calls.take(j)),
            calls[j],
            f,
            other,
        )) by {
            if j < n {
                assert(init.take(j) =~= calls.take(j));
                assert(!takes(after_calls(init.take(j)), init[j], f, other));
            }
        }
        assert forall|j: int| k < j < calls.len() implies !gives_back(
            #[trigger] calls[j],
            f,
            holder,
        ) by {
            if j < n {
                assert(!gives_back(init[j], f, holder));
            }
        }
        assert(taken_at(calls, k, f, holder));
    }
}

/// Who takes a file holds it.
pub proof fn law_taken_files_are_held(t: LockTable, c: LockCall, f: PathView, by: Seq<char>)
    requires
        takes(t, c, f, by),
    ensures
        after_call(t, c).contains_key(f),
        after_call(t, c)[f].holder == by,
{
    match c {
        LockCall::Acquire { files, holder, ttl, now } => {
            law_grant_holds(live(t, now), files, holder, now + ttl, ttl, f);
        },
        LockCall::AcquireAny { candidates, holder, ttl, now } => {
            if let Some(i) = first_free(live(t, now), candidates, holder) {
                assert(path_of(seq![candidates[i]][0]) == f);
                law_grant_holds(live(t, now), seq![candidates[i]], holder, now + ttl, ttl, f);
            }
        },
        _ => {},
    }
}

/// While somebody holds a file that has not run out, nobody else takes it.
pub proof fn law_live_locks_exclude(t: LockTable, c: LockCall, f: PathView, by: Seq<char>)
    requires
        takes(t, c, f, by),
        t.contains_key(f),
        t[f].holder != by,
    ensures
        match c {
            LockCall::Acquire { now, .. } => t[f].expires < now,
            LockCall::AcquireAny { now, .. } => t[f].expires < now,
            _ => false,
        },
{
    match c {
        LockCall::Acquire { files, holder, ttl, now } => {
            if live(t, now).contains_key(f) {
                let i = choose|i: int| 0 <= i < files.len() && #[trigger] path_of(files[i]) == f;
                law_exclusion(live(t, now), files, holder, i);
            }
        },
        LockCall::AcquireAny { candidates, holder, ttl, now } => {
            if live(t, now).contains_key(f) {
                lemma_first_free_is_free(live(t, now), candidates, holder);
                let i = first_free(live(t, now), candidates, holder)->0;
                law_exclusion(live(t, now), seq![candidates[i]], holder, 0);
            }
        },
        _ => {},
    }
}

proof fn lemma_first_free_is_free(t: LockTable, candidates: Seq<Seq<char>>, holder: Seq<char>)
    ensures
        first_free(t, candidates, holder) matches Some(i) ==> 0 <= i < candidates.len()
            && conflicts_with(t, seq![candidates[i]], holder).len() == 0,
    decreases candidates.len(),
{
    if candidates.len() > 0 {
        lemma_first_free_is_free(t, candidates.drop_last(), holder);
    }
}

struct LockEntry {
    file: String,
    key: PathKey,
    holder: String,
    expires_at: Timestamp,
    ttl: Span,
}

impl LockEntry {
    spec fn lock(&self) -> LockView {
        LockView {
            file: self.file@,
            holder: self.holder@,
            expires: self.expires_at@,
            ttl: self.ttl@,
        }
    }
}

spec fn table_of(s: Seq<LockEntry>) -> LockTable
    decreases s.len(),
{
    if s.len() == 0 {
        Map::empty()
    } else {
        table_of(s.drop_last()).insert(s.last().key@, s.last().lock())
    }
}

spec fn distinct_keys(s: Seq<LockEntry>) -> bool {
    forall|i: int, j: int| 0 <= i < j < s.len() ==> (#[trigger] s[i]).key@ != (#[trigger] s[j]).key@
}

spec fn keyed(s: Seq<LockEntry>) -> bool {
    forall|i: int| 0 <= i < s.len() ==> (#[trigger] s[i]).key@ == path_of(s[i].file@)
}

proof fn lemma_table(s: Seq<LockEntry>)
    requires
        distinct_keys(s),
    ensures
        forall|i: int|
            0 <= i < s.len() ==> table_of(s).contains_key((#[trigger] s[i]).key@) && table_of(
                s,
            )[s[i].key@] == s[i].lock(),
        forall|f: PathView| #[trigger]
            table_of(s).contains_key(f) ==> exists|i: int|
                0 <= i < s.len() && (#[trigger] s[i]).key@ == f,
    decreases s.len(),
{
    if s.len() > 0 {
        let init = s.drop_last();
        assert forall|i: int, j: int| 0 <= i < j < init.len() implies (#[trigger] init[i]).key@
            != (#[trigger] init[j]).key@ by {
            assert(s[i].key@ != s[j].key@);
        }
        lemma_table(init);
        assert forall|i: int| 0 <= i < s.len() implies table_of(s).contains_key(
            (#[trigger] s[i]).key@,
        ) && table_of(s)[s[i].key@] == s[i].lock() by {
            if i < init.len() {
                assert(init[i].key@ != s[s.len() - 1].key@) by {
                    assert(s[i].key@ != s[s.len() - 1].key@);
                }
            }
        }
        assert forall|f: PathView| #[trigger] table_of(s).contains_key(f) implies exists|i: int|
            0 <= i < s.len() && (#[trigger] s[i]).key@ == f by {
            if f != s.last().key@ {
                assert(table_of(init).contains_key(f));
                let i = choose|i: int| 0 <= i < init.len() && (#[trigger] init[i]).key@ == f;
                assert(s[i].key@ == f);
            } else {
                assert(s[s.len() - 1].key@ == f);
            }
        }
    }
}

/// The lock table of one process.
pub struct RepoLockSpace {
    entries: Vec<LockEntry>,
}

impl RepoLockSpace {
    #[verifier::type_invariant]
    spec fn well_kept(&self) -> bool {
        distinct_keys(self.entries@) && keyed(self.entries@)
    }

    pub closed spec fn view(&self) -> LockTable {
        table_of(self.entries@)
    }

    /// A table in which nothing is held.
    pub fn new() -> (r: RepoLockSpace)
        ensures
            r@ == LockTable::empty(),
    {
        RepoLockSpace { entries: Vec::new() }
    }

    fn place(&self, key: &PathKey) -> (p: usize)
        ensures
            p <= self.entries@.len(),
            p < self.entries@.len() ==> self.entries@[p as int].key@ == key@ && self@.contains_key(
                key@,
            ) && self@[key@] == self.entries@[p as int].lock(),
            p == self.entries@.len() ==> !self@.contains_key(key@) && forall|j: int|
                0 <= j < p ==> (#[trigger] self.entries@[j]).key@ != key@,
    {
        proof {
            use_type_invariant(self);
            lemma_table(self.entries@);
        }
        let mut i: usize = 0;
        while i < self.entries.len()
            invariant
                i <= self.entries@.len(),
                self@ == table_of(self.entries@),
                forall|j: int|
                    0 <= j < self.entries@.len() ==> self@.contains_key(
                        (#[trigger] self.entries@[j]).key@,
                    ) && self@[self.entries@[j].key@] == self.entries@[j].lock(),
                forall|j: int| 0 <= j < i ==> (#[trigger] self.entries@[j]).key@ != key@,
            decreases self.entries@.len() - i,
        {
            if self.entries[i].key.equals(key) {
                return i;
            }
            i = i + 1;
        }
        i
    }

    /// Drops the locks that ran out before `now`.
    fn reap(&mut self, now: &Timestamp)
        ensures
            final(self)@ == live(old(self)@, now@),
    {
        proof {
            use_type_invariant(&*self);
        }
        let mut es: Vec<LockEntry> = Vec::new();
        std::mem::swap(&mut es, &mut self.entries);
        let ghost all = es@;
        let mut kept: Vec<LockEntry> = Vec::new();
        assert(es@.skip(0) =~= all);
        assert(all.take(0) =~= Seq::empty());
        assert(live(Map::empty(), now@) =~= LockTable::empty());
        let ghost mut n: int = 0;
        while es.len() > 0
            invariant
                0 <= n <= all.len(),
                es@ == all.skip(n),
                distinct_keys(all),
                keyed(all),
                distinct_keys(kept@),
                keyed(kept@),
                table_of(kept@) == live(table_of(all.take(n)), now@),
                forall|i: int|
                    0 <= i < kept@.len() ==> exists|j: int|
                        0 <= j < n && (#[trigger] all[j]).key@ == (#[trigger] kept@[i]).key@,
            decreases es@.len(),
        {
            let e = es.remove(0);
            proof {
                assert(e == all[n]);
                assert(es@ =~= all.skip(n + 1));
                assert(all.take(n + 1).drop_last() =~= all.take(n));
                assert forall|i: int, j: int| 0 <= i < j < n implies (#[trigger] all.take(
                    n,
                )[i]).key@ != (#[trigger] all.take(n)[j]).key@ by {
                    assert(all[i].key@ != all[j].key@);
                }
                lemma_table(all.take(n));
                assert(!table_of(all.take(n)).contains_key(e.key@)) by {
                    if table_of(all.take(n)).contains_key(e.key@) {
                        let i = choose|i: int|
                            0 <= i < n && (#[trigger] all.take(n)[i]).key@ == e.key@;
                        assert(all[i].key@ != all[n].key@);
                    }
                }
            }
            let ghost before = kept@;
            if !e.expires_at.before(now) {
                proof {
                    assert forall|i: int| 0 <= i < before.len() implies (#[trigger] before[i]).key@
                        != e.key@ by {
                        let j = choose|j: int|
                            0 <= j < n && (#[trigger] all[j]).key@ == before[i].key@;
                        assert(all[j].key@ != all[n].key@);
                    }
                }
                kept.push(e);
                proof {
                    assert(kept@.drop_last() =~= before);
                    assert(table_of(kept@) =~= live(table_of(all.take(n + 1)), now@));
                }
            } else {
                assert(table_of(kept@) =~= live(table_of(all.take(n + 1)), now@));
            }
            proof {
                assert forall|i: int| 0 <= i < kept@.len() implies exists|j: int|
                    0 <= j < n + 1 && (#[trigger] all[j]).key@ == (#[trigger] kept@[i]).key@ by {
                    if i < before.len() {
                        assert(kept@[i] == before[i]);
                        let j = choose|j: int|
                            0 <= j < n && (#[trigger] all[j]).key@ == before[i].key@;
                        assert(all[j].key@ == kept@[i].key@);
                    } else {
                        assert(all[n].key@ == kept@[i].key@);
                    }
                }
                n = n + 1;
            }
        }
        assert(n == all.len());
        assert(all.take(n) =~= all);
        self.entries = kept;
    }

    /// Takes one file.
    fn take_one(&mut self, file: &str, holder: &str, expires_at: &Timestamp, ttl: &Span)
        ensures
            final(self)@ == granted(
                old(self)@,
                seq![file@],
                holder@,
                expires_at@,
                ttl@,
            ),
    {
        let key = PathKey::of(file);
        let p: usize = self.place(&key);
        proof {
            use_type_invariant(&*self);
            lemma_table(self.entries@);
            assert(seq![file@].drop_last() =~= Seq::<Seq<char>>::empty());
            reveal_with_fuel(granted, 2);
        }
        let ghost before = self@;
        let ghost k = key@;
        let mut es: Vec<LockEntry> = Vec::new();
        std::mem::swap(&mut es, &mut self.entries);
        let ghost es0 = es@;
        if p < es.len() {
            let e = LockEntry {
                file: es[p].file.clone(),
                key,
                holder: holder.to_owned(),
                expires_at: expires_at.clone(),
                ttl: ttl.clone(),
            };
            es.set(p, e);
            proof {
                assert forall|i: int, j: int| 0 <= i < j < es@.len() implies (#[trigger] es@[i]).key@
                    != (#[trigger] es@[j]).key@ by {
                    assert(es0[i].key@ != es0[j].key@);
                }
                lemma_table(es@);
                let t = table_of(es@);
                let want = before.insert(k, e.lock());
                assert forall|f: PathView| #[trigger] t.contains_key(f) == want.contains_key(f) by {
                    if t.contains_key(f) {
                        let i = choose|i: int| 0 <= i < es@.len() && (#[trigger] es@[i]).key@ == f;
                        assert(es0[i].key@ == f);
                    }
                    if before.contains_key(f) {
                        let i = choose|i: int| 0 <= i < es0.len() && (#[trigger] es0[i]).key@ == f;
                        assert(es@[i].key@ == f);
                    }
                    assert(es@[p as int].key@ == k);
                }
                assert forall|f: PathView| t.contains_key(f) implies #[trigger] t[f] == want[f] by {
                    let i = choose|i: int| 0 <= i < es@.len() && (#[trigger] es@[i]).key@ == f;
                    assert(es0[i].key@ == f);
                    if i != p {
                        assert(es0[i].key@ != es0[p as int].key@);
                    }
                }
                assert(t =~= want);
            }
        } else {
            let e = LockEntry {
                file: file.to_owned(),
                key,
                holder: holder.to_owned(),
                expires_at: expires_at.clone(),
                ttl: ttl.clone(),
            };
            es.push(e);
            assert(es@.drop_last() =~= es0);
        }
        self.entries = es;
    }

    /// Gives one file back.
    fn drop_one(&mut self, file: &str, holder: &str)
        ensures
            final(self)@ == released(old(self)@, seq![file@], holder@),
    {
        let key = PathKey::of(file);
        let p: usize = self.place(&key);
        proof {
            use_type_invariant(&*self);
            lemma_table(self.entries@);
            assert(seq![file@].drop_last() =~= Seq::<Seq<char>>::empty());
            reveal_with_fuel(released, 2);
        }
        if p == self.entries.len() || !same(self.entries[p].holder.as_str(), holder) {
            return ;
        }
        let ghost before = self@;
        let ghost k = key@;
        let mut es: Vec<LockEntry> = Vec::new();
        std::mem::swap(&mut es, &mut self.entries);
        let ghost es0 = es@;
        let gone = es.remove(p);
        proof {
            let at = |i: int| if i < p { i } else { i + 1 };
            assert forall|i: int, j: int| 0 <= i < j < es@.len() implies (#[trigger] es@[i]).key@
                != (#[trigger] es@[j]).key@ by {
                assert(es0[at(i)].key@ != es0[at(j)].key@);
            }
            lemma_table(es@);
            let t = table_of(es@);
            let want = before.remove(k);
            assert forall|f: PathView| #[trigger] t.contains_key(f) == want.contains_key(f) by {
                if t.contains_key(f) {
                    let i = choose|i: int| 0 <= i < es@.len() && (#[trigger] es@[i]).key@ == f;
                    assert(es0[at(i)].key@ == f);
                    if i < p {
                        assert(es0[i].key@ != es0[p as int].key@);
                    } else {
                        assert(es0[p as int].key@ != es0[i + 1].key@);
                    }
                }
                if want.contains_key(f) {
                    let i = choose|i: int| 0 <= i < es0.len() && (#[trigger] es0[i]).key@ == f;
                    if i < p {
                        assert(es@[i].key@ == f);
                    } else {
                        assert(es@[i - 1].key@ == f);
                    }
                }
            }
            assert forall|f: PathView| t.contains_key(f) implies #[trigger] t[f] == want[f] by {
                let i = choose|i: int| 0 <= i < es@.len() && (#[trigger] es@[i]).key@ == f;
                assert(es0[at(i)].key@ == f);
            }
            assert(t =~= want);
        }
        self.entries = es;
    }
}

proof fn lemma_granted_one_more(
    t: LockTable,
    files: Seq<Seq<char>>,
    n: int,
    holder: Seq<char>,
    expires: int,
    ttl: int,
)
    requires
        0 <= n < files.len(),
    ensures
        granted(t, files.take(n + 1), holder, expires, ttl) == granted(
            granted(t, files.take(n), holder, expires, ttl),
            seq![files[n]],
            holder,
            expires,
            ttl,
        ),
{
    assert(files.take(n + 1).drop_last() =~= files.take(n));
    assert(seq![files[n]].drop_last() =~= Seq::<Seq<char>>::empty());
    reveal_with_fuel(granted, 2);
}

proof fn lemma_released_one_more(t: LockTable, files: Seq<Seq<char>>, n: int, holder: Seq<char>)
    requires
        0 <= n < files.len(),
    ensures
        released(t, files.take(n + 1), holder) == released(
            released(t, files.take(n), holder),
            seq![files[n]],
            holder,
        ),
{
    assert(files.take(n + 1).drop_last() =~= files.take(n));
    assert(seq![files[n]].drop_last() =~= Seq::<Seq<char>>::empty());
    reveal_with_fuel(released, 2);
}

/// Extending locks keeps holders and lengths.
proof fn lemma_extended_keeps(
    t: LockTable,
    files: Seq<Seq<char>>,
    holder: Seq<char>,
    now: int,
    f: PathView,
)
    ensures
        extended(t, files, holder, now).contains_key(f) == t.contains_key(f),
        t.contains_key(f) ==> extended(t, files, holder, now)[f].holder == t[f].holder
            && extended(t, files, holder, now)[f].ttl == t[f].ttl,
    decreases files.len(),
{
    if files.len() > 0 {
        lemma_extended_keeps(t, files.drop_last(), holder, now, f);
        lemma_extended_keeps(t, files.drop_last(), holder, now, path_of(files.last()));
    }
}

/// Repository-wide write exclusion. Taking files is all or nothing, and locks that ran
/// out are dropped before anything is granted.
pub trait RepoLocks: Sized {
    /// What is held.
    spec fn table(&self) -> LockTable;

    /// Takes all `files` for `holder`, for `ttl_secs` seconds and `ttl_nanos`
    /// nanoseconds. If another holds one of them nothing is taken, and the conflict
    /// names those files and their holders. Taking again what one holds is granted.
    fn acquire(
        &mut self,
        files: &Vec<String>,
        holder: &str,
        ttl_secs: u64,
        ttl_nanos: u32,
        now: &Timestamp,
    ) -> (r: Result<(), LockConflict>)
        requires
            ttl_nanos < 1_000_000_000,
            conflicts_with(live(old(self).table(), now@), texts(files@), holder@).len() == 0
                ==> in_calendar(now@ + effective_ttl(ttl_secs, ttl_nanos)),
        ensures
            ({
                let t = live(old(self).table(), now@);
                let c = conflicts_with(t, texts(files@), holder@);
                let ttl = effective_ttl(ttl_secs, ttl_nanos);
                match r {
                    Ok(_) => c.len() == 0 && final(self).table() == granted(
                        t,
                        texts(files@),
                        holder@,
                        now@ + ttl,
                        ttl,
                    ),
                    Err(e) => c.len() > 0 && conflict_view(e.conflicts@) == c
                        && final(self).table() == t,
                }
            }),
            final(self).table() == after_call(
                old(self).table(),
                LockCall::Acquire {
                    files: texts(files@),
                    holder: holder@,
                    ttl: effective_ttl(ttl_secs, ttl_nanos),
                    now: now@,
                },
            ),
    ;

    /// Gives back those of the `files` that `holder` holds.
    fn release(&mut self, files: &Vec<String>, holder: &str)
        ensures
            final(self).table() == released(old(self).table(), texts(files@), holder@),
            final(self).table() == after_call(
                old(self).table(),
                LockCall::Release { files: texts(files@), holder: holder@ },
            ),
    ;

    /// Extends the locks of `holder` on `files`; a lock that ran out stays gone.
    fn heartbeat(&mut self, files: &Vec<String>, holder: &str, now: &Timestamp)
        requires
            forall|i: int|
                0 <= i < files@.len() && #[trigger] holds_file(
                    live(old(self).table(), now@),
                    files@[i]@,
                    holder@,
                ) ==> in_calendar(
                    now@ + live(old(self).table(), now@)[path_of(files@[i]@)].ttl,
                ),
        ensures
            final(self).table() == extended(
                live(old(self).table(), now@),
                texts(files@),
                holder@,
                now@,
            ),
            final(self).table() == after_call(
                old(self).table(),
                LockCall::Heartbeat { files: texts(files@), holder: holder@, now: now@ },
            ),
    ;

    /// All locks that are held and have not run out, each once.
    fn held(&mut self, now: &Timestamp) -> (r: Vec<HeldLock>)
        ensures
            final(self).table() == live(old(self).table(), now@),
            final(self).table() == after_call(old(self).table(), LockCall::Held { now: now@ }),
            forall|i: int| 0 <= i < r@.len() ==> (#[trigger] r@[i]).expires_at@ >= now@,
            forall|i: int|
                0 <= i < r@.len() ==> {
                    let f = path_of((#[trigger] r@[i]).file@);
                    &&& final(self).table().contains_key(f)
                    &&& final(self).table()[f].file == r@[i].file@
                    &&& final(self).table()[f].holder == r@[i].holder@
                    &&& final(self).table()[f].expires == r@[i].expires_at@
                },
            forall|f: PathView| #[trigger]
                final(self).table().contains_key(f) ==> exists|i: int|
                    0 <= i < r@.len() && path_of((#[trigger] r@[i]).file@) == f,
            forall|i: int, j: int|
                0 <= i < j < r@.len() ==> path_of((#[trigger] r@[i]).file@) != path_of(
                    (#[trigger] r@[j]).file@,
                ),
    ;

    /// Takes exactly one of the interchangeable `candidates`: the first that is free.
    /// Where none is, the conflict names every one with its holder; an empty list is
    /// never granted.
    fn acquire_any(
        &mut self,
        candidates: &Vec<String>,
        holder: &str,
        ttl_secs: u64,
        ttl_nanos: u32,
        now: &Timestamp,
    ) -> (r: Result<String, LockConflict>)
        requires
            ttl_nanos < 1_000_000_000,
            first_free(live(old(self).table(), now@), texts(candidates@), holder@) is Some
                ==> in_calendar(now@ + effective_ttl(ttl_secs, ttl_nanos)),
        ensures
            ({
                let t = live(old(self).table(), now@);
                let free = first_free(t, texts(candidates@), holder@);
                let ttl = effective_ttl(ttl_secs, ttl_nanos);
                match r {
                    Ok(f) => free matches Some(i) && 0 <= i < candidates@.len() && f@
                        == candidates@[i]@ && final(self).table() == granted(
                        t,
                        seq![f@],
                        holder@,
                        now@ + ttl,
                        ttl,
                    ),
                    Err(e) => free is None && conflict_view(e.conflicts@) == conflicts_with(
                        t,
                        texts(candidates@),
                        holder@,
                    ) && (candidates@.len() > 0 ==> final(self).table() == t) && (
                    candidates@.len() == 0 ==> final(self).table() == old(self).table()),
                }
            }),
            final(self).table() == after_call(
                old(self).table(),
                LockCall::AcquireAny {
                    candidates: texts(candidates@),
                    holder: holder@,
                    ttl: effective_ttl(ttl_secs, ttl_nanos),
                    now: now@,
                },
            ),
    {
        let ghost t = live(self.table(), now@);
        let ghost ttl = effective_ttl(ttl_secs, ttl_nanos);
        let ghost start = self.table();
        let mut conflicts: Vec<(String, String)> = Vec::new();
        let mut i: usize = 0;
        proof {
            assert(live(t, now@) =~= t);
            assert(conflict_view(conflicts@) =~= Seq::empty());
            assert(texts(candidates@).take(0) =~= Seq::empty());
        }
        while i < candidates.len()
            invariant
                i <= candidates@.len(),
                ttl_nanos < 1_000_000_000,
                start == old(self).table(),
                t == live(start, now@),
                live(t, now@) == t,
                self.table() == (if i == 0 {
                    start
                } else {
                    t
                }),
                ttl == effective_ttl(ttl_secs, ttl_nanos),
                first_free(t, texts(candidates@), holder@) is Some ==> in_calendar(now@ + ttl),
                first_free(t, texts(candidates@).take(i as int), holder@) is None,
                conflict_view(conflicts@) == conflicts_with(
                    t,
                    texts(candidates@).take(i as int),
                    holder@,
                ),
            decreases candidates@.len() - i,
        {
            let ghost c = candidates@[i as int]@;
            let ghost next = texts(candidates@).take(i + 1);
            let mut one: Vec<String> = Vec::new();
            one.push(candidates[i].clone());
            proof {
                assert(texts(one@) =~= seq![c]);
                assert(next.drop_last() =~= texts(candidates@).take(i as int));
                assert(next.last() == c);
                assert(seq![c].drop_last() =~= Seq::<Seq<char>>::empty());
                reveal_with_fuel(conflicts_with, 2);
                if conflicts_with(t, seq![c], holder@).len() == 0 {
                    assert(first_free(t, next, holder@) == Some(i as int));
                    lemma_first_free_prefix(t, texts(candidates@), i + 1, holder@);
                }
            }
            match self.acquire(&one, holder, ttl_secs, ttl_nanos, now) {
                Ok(_) => {
                    assert(first_free(t, texts(candidates@), holder@) == Some(i as int));
                    let f = candidates[i].clone();
                    assert(self.table() == granted(t, seq![f@], holder@, now@ + ttl, ttl));
                    return Ok(f);
                },
                Err(e) => {
                    let mut more = e.conflicts;
                    let ghost before = conflict_view(conflicts@);
                    let ghost added = conflict_view(more@);
                    conflicts.append(&mut more);
                    assert(conflict_view(conflicts@) =~= before + added);
                    assert(before + added =~= conflicts_with(t, next, holder@));
                },
            }
            i = i + 1;
        }
        assert(texts(candidates@).take(i as int) =~= texts(candidates@));
        Err(LockConflict { conflicts })
    }
}

proof fn lemma_first_free_prefix(
    t: LockTable,
    candidates: Seq<Seq<char>>,
    n: int,
    holder: Seq<char>,
)
    requires
        0 <= n <= candidates.len(),
        first_free(t, candidates.take(n), holder) is Some,
    ensures
        first_free(t, candidates, holder) == first_free(t, candidates.take(n), holder),
    decreases candidates.len(),
{
    if n < candidates.len() {
        assert(candidates.drop_last().take(n) =~= candidates.take(n));
        lemma_first_free_prefix(t, candidates.drop_last(), n, holder);
    } else {
        assert(candidates.take(n) =~= candidates);
    }
}

impl RepoLocks for RepoLockSpace {
    open spec fn table(&self) -> LockTable {
        self@
    }

    fn acquire(
        &mut self,
        files: &Vec<String>,
        holder: &str,
        ttl_secs: u64,
        ttl_nanos: u32,
        now: &Timestamp,
    ) -> (r: Result<(), LockConflict>) {
        self.reap(now);
        let ghost t = self@;
        let mut conflicts: Vec<(String, String)> = Vec::new();
        let mut i: usize = 0;
        assert(texts(files@).take(0) =~= Seq::empty());
        assert(conflict_view(conflicts@) =~= Seq::empty());
        while i < files.len()
            invariant
                i <= files@.len(),
                self@ == t,
                conflict_view(conflicts@) == conflicts_with(
                    t,
                    texts(files@).take(i as int),
                    holder@,
                ),
            decreases files@.len() - i,
        {
            let ghost next = texts(files@).take(i + 1);
            let ghost before = conflicts@;
            assert(next.drop_last() =~= texts(files@).take(i as int));
            assert(next.last() == files@[i as int]@);
            let p: usize = self.place(&PathKey::of(files[i].as_str()));
            if p < self.entries.len() && !same(self.entries[p].holder.as_str(), holder) {
                let blocker = self.entries[p].holder.clone();
                conflicts.push((files[i].clone(), blocker));
                assert(conflict_view(conflicts@) =~= conflict_view(before).push(
                    (files@[i as int]@, blocker@),
                ));
            }
            i = i + 1;
        }
        assert(texts(files@).take(i as int) =~= texts(files@));
        assert(conflict_view(conflicts@).len() == conflicts@.len());
        if conflicts.len() > 0 {
            return Err(LockConflict { conflicts });
        }
        let ttl = match Span::new(ttl_secs, ttl_nanos) {
            Some(d) => d,
            None => Span::seconds(300),
        };
        let expires_at = now.plus(&ttl);
        i = 0;
        assert(texts(files@).take(0) =~= Seq::empty());
        while i < files.len()
            invariant
                i <= files@.len(),
                self@ == granted(
                    t,
                    texts(files@).take(i as int),
                    holder@,
                    expires_at@,
                    ttl@,
                ),
            decreases files@.len() - i,
        {
            proof {
                lemma_granted_one_more(t, texts(files@), i as int, holder@, expires_at@, ttl@);
            }
            self.take_one(files[i].as_str(), holder, &expires_at, &ttl);
            i = i + 1;
        }
        assert(texts(files@).take(i as int) =~= texts(files@));
        Ok(())
    }

    fn release(&mut self, files: &Vec<String>, holder: &str) {
        let ghost t = self@;
        let mut i: usize = 0;
        assert(texts(files@).take(0) =~= Seq::empty());
        while i < files.len()
            invariant
                i <= files@.len(),
                self@ == released(t, texts(files@).take(i as int), holder@),
            decreases files@.len() - i,
        {
            proof {
                lemma_released_one_more(t, texts(files@), i as int, holder@);
            }
            self.drop_one(files[i].as_str(), holder);
            i = i + 1;
        }
        assert(texts(files@).take(i as int) =~= texts(files@));
    }

    fn heartbeat(&mut self, files: &Vec<String>, holder: &str, now: &Timestamp) {
        let ghost start = self@;
        self.reap(now);
        let ghost t = self@;
        let mut i: usize = 0;
        assert(texts(files@).take(0) =~= Seq::empty());
        proof {
            assert(t == live(start, now@));
            assert forall|j: int|
                0 <= j < files@.len() && #[trigger] holds_file(t, files@[j]@, holder@) implies in_calendar(
                now@ + t[path_of(files@[j]@)].ttl,
            ) by {
                assert(holds_file(live(old(self).table(), now@), files@[j]@, holder@));
            }
        }
        while i < files.len()
            invariant
                i <= files@.len(),
                self@ == extended(t, texts(files@).take(i as int), holder@, now@),
                forall|j: int|
                    0 <= j < files@.len() && #[trigger] holds_file(t, files@[j]@, holder@)
                        ==> in_calendar(now@ + t[path_of(files@[j]@)].ttl),
            decreases files@.len() - i,
        {
            let ghost next = texts(files@).take(i + 1);
            let ghost cur = self@;
            let file = files[i].as_str();
            assert(next.drop_last() =~= texts(files@).take(i as int));
            assert(next.last() == file@);
            let p: usize = self.place(&PathKey::of(file));
            if p < self.entries.len() && same(self.entries[p].holder.as_str(), holder) {
                proof {
                    lemma_extended_keeps(
                        t,
                        texts(files@).take(i as int),
                        holder@,
                        now@,
                        path_of(file@),
                    );
                    assert(holds_file(t, files@[i as int]@, holder@));
                }
                let ttl = self.entries[p].ttl.clone();
                let expires_at = now.plus(&ttl);
                self.take_one(file, holder, &expires_at, &ttl);
                proof {
                    assert(seq![file@].drop_last() =~= Seq::<Seq<char>>::empty());
                    reveal_with_fuel(granted, 2);
                }
            }
            i = i + 1;
        }
        assert(texts(files@).take(i as int) =~= texts(files@));
    }

    fn held(&mut self, now: &Timestamp) -> (r: Vec<HeldLock>) {
        self.reap(now);
        proof {
            use_type_invariant(&*self);
            lemma_table(self.entries@);
        }
        let mut out: Vec<HeldLock> = Vec::new();
        let mut i: usize = 0;
        while i < self.entries.len()
            invariant
                i <= self.entries@.len(),
                out@.len() == i,
                keyed(self.entries@),
                forall|j: int|
                    0 <= j < i ==> (#[trigger] out@[j]).file@ == self.entries@[j].file@
                        && out@[j].holder@ == self.entries@[j].holder@ && out@[j].expires_at@
                        == self.entries@[j].expires_at@ && path_of(out@[j].file@)
                        == self.entries@[j].key@,
            decreases self.entries@.len() - i,
        {
            let e = HeldLock {
                file: self.entries[i].file.clone(),
                holder: self.entries[i].holder.clone(),
                expires_at: self.entries[i].expires_at.clone(),
            };
            assert(self.entries@[i as int].key@ == path_of(self.entries@[i as int].file@));
            out.push(e);
            i = i + 1;
        }
        proof {
            assert forall|f: PathView| #[trigger] self@.contains_key(f) implies exists|i: int|
                0 <= i < out@.len() && path_of((#[trigger] out@[i]).file@) == f by {
                let k = choose|k: int|
                    0 <= k < self.entries@.len() && (#[trigger] self.entries@[k]).key@ == f;
                assert(path_of(out@[k].file@) == f);
            }
            assert forall|i: int, j: int| 0 <= i < j < out@.len() implies path_of(
                (#[trigger] out@[i]).file@,
            ) != path_of((#[trigger] out@[j]).file@) by {
                assert(self.entries@[i].key@ != self.entries@[j].key@);
            }
        }
        out
    }
}

/// The files that the branches of an executor declare to write.
pub open spec fn branch_files(branches: Seq<JsonView>) -> Seq<Seq<char>>
    decreases branches.len(),
{
    if branches.len() == 0 {
        Seq::empty()
    } else {
        branch_files(branches.drop_last()) + strings_in(branches.last().get("owned_files"@))
    }
}

/// A list of files without the ones that name a path of the list again.
pub open spec fn distinct_files(files: Seq<Seq<char>>) -> Seq<Seq<char>>
    decreases files.len(),
{
    if files.len() == 0 {
        Seq::empty()
    } else {
        let before = distinct_files(files.drop_last());
        if exists|i: int|
            0 <= i < before.len() && #[trigger] path_of(before[i]) == path_of(files.last()) {
            before
        } else {
            before.push(files.last())
        }
    }
}

/// The files that an executor declares to write: its own and those of its branches.
pub open spec fn owned_files(config: JsonView) -> Seq<Seq<char>> {
    let own = strings_in(config.get("owned_files"@));
    let all = match config.get_array("branches"@) {
        Some(b) => own + branch_files(b),
        None => own,
    };
    distinct_files(all)
}

/// No path stands twice among the files that are locked for an executor.
pub proof fn law_owned_files_distinct(files: Seq<Seq<char>>)
    ensures
        forall|i: int, j: int|
            0 <= i < j < distinct_files(files).len() ==> path_of(
                #[trigger] distinct_files(files)[i],
            ) != path_of(#[trigger] distinct_files(files)[j]),
    decreases files.len(),
{
    if files.len() > 0 {
        law_owned_files_distinct(files.drop_last());
        let before = distinct_files(files.drop_last());
        assert forall|i: int, j: int| 0 <= i < j < distinct_files(files).len() implies path_of(
            #[trigger] distinct_files(files)[i],
        ) != path_of(#[trigger] distinct_files(files)[j]) by {
            assert(distinct_files(files)[i] == before[i]);
            if j < before.len() {
                assert(distinct_files(files)[j] == before[j]);
            } else {
                assert(path_of(before[i]) != path_of(files.last()));
            }
        }
    }
}

/// The files that an executor declares to write, in order, each once.
pub fn owned_files_in(executor_config: &Json) -> (r: Vec<String>)
    ensures
        texts(r@) == owned_files(executor_config@),
{
    let mut all = collect_strings(executor_config.get("owned_files"));
    let ghost own = texts(all@);
    if let Some(branches) = executor_config.get_array("branches") {
        let mut i: usize = 0;
        assert(views(branches@).take(0) =~= Seq::empty());
        assert(own + branch_files(views(branches@).take(0)) =~= own);
        while i < branches.len()
            invariant
                i <= branches@.len(),
                texts(all@) == own + branch_files(views(branches@).take(i as int)),
            decreases branches@.len() - i,
        {
            let ghost next = views(branches@).take(i + 1);
            let ghost before = texts(all@);
            assert(next.drop_last() =~= views(branches@).take(i as int));
            assert(next.last() == branches@[i as int]@);
            let mut more = collect_strings(branches[i].get("owned_files"));
            let ghost added = texts(more@);
            all.append(&mut more);
            assert(texts(all@) =~= before + added);
            assert(texts(all@) =~= own + branch_files(next));
            i = i + 1;
        }
        assert(views(branches@).take(i as int) =~= views(branches@));
    }
    let mut out: Vec<String> = Vec::new();
    let mut i: usize = 0;
    assert(texts(all@).take(0) =~= Seq::empty());
    assert(texts(out@) =~= Seq::empty());
    while i < all.len()
        invariant
            i <= all@.len(),
            texts(out@) == distinct_files(texts(all@).take(i as int)),
        decreases all@.len() - i,
    {
        let ghost next = texts(all@).take(i + 1);
        let ghost before = out@;
        assert(next.drop_last() =~= texts(all@).take(i as int));
        assert(next.last() == all@[i as int]@);
        let key = PathKey::of(all[i].as_str());
        let mut found = false;
        let mut k: usize = 0;
        while k < out.len()
            invariant
                k <= out@.len(),
                key@ == path_of(all@[i as int]@),
                found == exists|j: int|
                    0 <= j < k && #[trigger] path_of(texts(out@)[j]) == key@,
            decreases out@.len() - k,
        {
            if PathKey::of(out[k].as_str()).equals(&key) {
                found = true;
                assert(path_of(texts(out@)[k as int]) == key@);
            }
            k = k + 1;
        }
        if !found {
            out.push(all[i].clone());
            assert(texts(out@) =~= texts(before).push(all@[i as int]@));
        }
        i = i + 1;
    }
    assert(texts(all@).take(i as int) =~= texts(all@));
    out
}

} // verus!
