//! What registering a definition asks for, and with what, and what the file stores find.

use vstd::prelude::*;

use crate::json::{lemma_reads_put, JsonView};
use crate::model::WorkflowInstance;
use crate::store::repo_definition_store::{
    by_namespace, file_of, held, published, registering, tier_of, EntryView, LayoutView,
    ReadingView, RegisterView, StoreReplyView,
};
use crate::store::store_file::{first_of_run, save_fault};
use crate::text::{lemma_cut_at, lemma_uncut, opt_string};

verus! {

/// Of repositories with one namespace the last one counts, and no other namespace is known.
pub proof fn law_last_repository_counts(v: Seq<EntryView>, ns: Seq<char>)
    ensures
        by_namespace(v).dom().contains(ns) <==> exists|k: int|
            0 <= k < v.len() && (#[trigger] v[k]).namespace == ns,
        by_namespace(v).dom().contains(ns) ==> exists|k: int|
            0 <= k < v.len() && (#[trigger] v[k]).namespace == ns && by_namespace(v)[ns] == v[k]
                && forall|j: int| k < j < v.len() ==> (#[trigger] v[j]).namespace != ns,
    decreases v.len(),
{
    if v.len() > 0 {
        let init = v.drop_last();
        law_last_repository_counts(init, ns);
        let n = v.len() - 1;
        assert(v[n] == v.last());
        if v.last().namespace != ns {
            if by_namespace(init).dom().contains(ns) {
                let k = choose|k: int|
                    0 <= k < init.len() && (#[trigger] init[k]).namespace == ns && by_namespace(
                        init,
                    )[ns] == init[k] && forall|j: int|
                        k < j < init.len() ==> (#[trigger] init[j]).namespace != ns;
                assert(v[k] == init[k]);
                assert forall|j: int| k < j < v.len() implies (#[trigger] v[j]).namespace != ns by {
                    if j < n {
                        assert(init[j] == v[j]);
                    }
                }
            }
            if exists|k: int| 0 <= k < v.len() && (#[trigger] v[k]).namespace == ns {
                let k = choose|k: int| 0 <= k < v.len() && (#[trigger] v[k]).namespace == ns;
                assert(init[k] == v[k]);
            }
        }
    }
}

/// The directory of a definition goes by the first word of its local id.
pub proof fn law_kinds_have_their_directories(layout: LayoutView, rest: Seq<char>)
    ensures
        tier_of(layout, "cap."@ + rest) == layout.capabilities,
        tier_of(layout, "skill."@ + rest) == layout.skills,
        tier_of(layout, "script."@ + rest) == layout.scripts,
        tier_of(layout, "flow."@ + rest) == layout.flows,
{
    reveal_strlit("cap.");
    reveal_strlit("skill.");
    reveal_strlit("script.");
    reveal_strlit("flow.");
    let c = "cap."@ + rest;
    let s = "skill."@ + rest;
    let t = "script."@ + rest;
    let f = "flow."@ + rest;
    assert("cap."@.is_prefix_of(c)) by {
        assert(c.subrange(0, "cap."@.len() as int) =~= "cap."@);
    }
    assert("skill."@.is_prefix_of(s)) by {
        assert(s.subrange(0, "skill."@.len() as int) =~= "skill."@);
    }
    assert("script."@.is_prefix_of(t)) by {
        assert(t.subrange(0, "script."@.len() as int) =~= "script."@);
    }
    assert(s[0] == 's' && t[0] == 's' && f[0] == 'f');
    assert(t[1] == 'c' && s[1] == 'k');
    assert("cap."@[0] == 'c' && "skill."@[0] == 's' && "skill."@[1] == 'k' && "script."@[0] == 's');
    assert(!"cap."@.is_prefix_of(s)) by {
        if "cap."@.is_prefix_of(s) {
            assert(s.subrange(0, "cap."@.len() as int)[0] == s[0]);
        }
    }
    assert(!"cap."@.is_prefix_of(t)) by {
        if "cap."@.is_prefix_of(t) {
            assert(t.subrange(0, "cap."@.len() as int)[0] == t[0]);
        }
    }
    assert(!"skill."@.is_prefix_of(t)) by {
        if "skill."@.is_prefix_of(t) {
            assert(t.subrange(0, "skill."@.len() as int)[1] == t[1]);
        }
    }
    assert(!"cap."@.is_prefix_of(f)) by {
        if "cap."@.is_prefix_of(f) {
            assert(f.subrange(0, "cap."@.len() as int)[0] == f[0]);
        }
    }
    assert(!"skill."@.is_prefix_of(f)) by {
        if "skill."@.is_prefix_of(f) {
            assert(f.subrange(0, "skill."@.len() as int)[0] == f[0]);
        }
    }
    assert(!"script."@.is_prefix_of(f)) by {
        if "script."@.is_prefix_of(f) {
            assert(f.subrange(0, "script."@.len() as int)[0] == f[0]);
        }
    }
}

/// Where a file holds a definition.
pub open spec fn holds(file: JsonView, local: Seq<char>, definition: JsonView) -> bool {
    file.get("workflows"@) matches Some(w) && w.get(local) == Some(definition)
}

/// How a step of registering a definition fits what was asked for and what came back; `n` replies
/// belong to the look at what was there before.
pub open spec fn registers(
    e: EntryView,
    id: Seq<char>,
    local: Seq<char>,
    definition: JsonView,
    expected: Option<Seq<char>>,
    r: Seq<StoreReplyView>,
    step: RegisterView,
) -> bool {
    let n: int = if expected is Some {
        2
    } else {
        0
    };
    let unchanged = match expected {
        Some(hash) => r.len() >= 2 && r[1] == StoreReplyView::Hash(hash),
        None => true,
    };
    match step {
        RegisterView::Read(path) => expected is Some && r.len() == 0 && path == file_of(e, local),
        RegisterView::Hash(v) => {
            &&& expected is Some && r.len() == 1
            &&& r[0] matches StoreReplyView::Read(ReadingView::Parsed(file)) && holds(file, local, v)
        },
        RegisterView::Record(event) => {
            &&& unchanged && r.len() == n
            &&& event.event_type == "definition.published"@
            &&& event.payload.get_str("definitionId"@) == Some(id)
            &&& event.payload.get_str("namespace"@) == Some(e.namespace)
            &&& event.payload.get_str("repo"@) == Some(e.root)
        },
        RegisterView::Write { path, file } => {
            &&& unchanged && r.len() == n + 1
            &&& r[n] == StoreReplyView::Made(None)
            &&& path == file_of(e, local)
            &&& holds(file, local, definition)
        },
        RegisterView::Git { root, args } => {
            &&& unchanged && (r.len() == n + 2 || r.len() == n + 3)
            &&& r[n] == StoreReplyView::Made(None) && r[n + 1] == StoreReplyView::Made(None)
            &&& root == e.root
            &&& r.len() == n + 2 ==> args.len() == 2 && args[0] == "add"@
            &&& r.len() == n + 3 ==> args.len() == 7 && args[4] == "commit"@ && args[6]
                == "author: publish "@ + id
        },
        RegisterView::Push(root) => unchanged && e.push && root == e.root && r.len() == n + 4
            && r[n + 1] == StoreReplyView::Made(None),
        RegisterView::Done => unchanged && r.len() >= n + 4 && r[n + 1] == StoreReplyView::Made(None)
            && (e.push ==> r.len() > n + 4 && r[n + 4] == StoreReplyView::Pushed(None)),
        RegisterView::Failed { .. } => true,
        RegisterView::Misfit => true,
    }
}

proof fn lemma_register_names()
    ensures
        "definitionId"@ != "namespace"@,
        "definitionId"@ != "repo"@,
        "namespace"@ != "repo"@,
{
    reveal_strlit("definitionId");
    reveal_strlit("namespace");
    reveal_strlit("repo");
    assert("definitionId"@.len() == 12);
    assert("namespace"@.len() == 9);
    assert("repo"@.len() == 4);
}

/// What registering a definition asks for: only in a known repository that can be written; where a
/// hash is expected, only over a definition with that hash; the record first, then the file with that
/// definition under its local id, then git in that repository, and a push where that is asked for.
pub proof fn law_registrations_ask_for_what_fits(
    s: Map<Seq<char>, EntryView>,
    ns: Seq<char>,
    local: Seq<char>,
    definition: JsonView,
    expected: Option<Seq<char>>,
    r: Seq<StoreReplyView>,
)
    requires
        !ns.contains('/'),
    ensures
        ({
            let id = ns + seq!['/'] + local;
            let step = registering(s, id, definition, expected, r);
            if s.dom().contains(ns) && s[ns].writable {
                registers(s[ns], id, local, definition, expected, r, step)
            } else {
                step is Failed
            }
        }),
{
    broadcast use lemma_reads_put;

    lemma_register_names();
    lemma_cut_at(ns, '/', local);
}

/// An id without a namespace is never registered.
pub proof fn law_namespaces_are_needed(
    s: Map<Seq<char>, EntryView>,
    id: Seq<char>,
    definition: JsonView,
    expected: Option<Seq<char>>,
    r: Seq<StoreReplyView>,
)
    requires
        !id.contains('/'),
    ensures
        registering(s, id, definition, expected, r) is Failed,
{
    lemma_uncut(id, '/');
}

/// What is read of a definition is what its file holds under its local id, and nothing else.
pub proof fn law_definitions_are_read_by_their_id(
    id: Seq<char>,
    local: Seq<char>,
    path: Seq<char>,
    reading: ReadingView,
)
    ensures
        held(id, local, path, reading) matches Ok(v) ==> (reading matches ReadingView::Parsed(file)
            && holds(file, local, v)),
        reading matches ReadingView::Parsed(file) ==> (forall|v: JsonView| #[trigger]
            holds(file, local, v) ==> held(id, local, path, reading) == Ok::<JsonView, Seq<char>>(v)),
{
}

/// An instance is saved if and only if one is stored with the version that the saver saw.
pub proof fn law_saves_need_the_seen_version(stored: Option<u64>, id: Seq<char>, expected: u64)
    ensures
        save_fault(stored, id, expected) is None <==> stored == Some(expected),
{
}

/// A run is found by the first instance that carries its id.
pub proof fn law_runs_are_found_by_their_id(v: Seq<WorkflowInstance>, run_id: Seq<char>)
    ensures
        match first_of_run(v, run_id) {
            Some(id) => exists|k: int|
                0 <= k < v.len() && (#[trigger] v[k]).id@ == id && opt_string(v[k].run_env.run_id)
                    == Some(run_id) && forall|j: int|
                    0 <= j < k ==> opt_string((#[trigger] v[j]).run_env.run_id) != Some(run_id),
            None => forall|j: int|
                0 <= j < v.len() ==> opt_string((#[trigger] v[j]).run_env.run_id) != Some(run_id),
        },
    decreases v.len(),
{
    if v.len() > 0 {
        let tail = v.drop_first();
        if opt_string(v[0].run_env.run_id) != Some(run_id) {
            law_runs_are_found_by_their_id(tail, run_id);
            match first_of_run(tail, run_id) {
                Some(id) => {
                    let k = choose|k: int|
                        0 <= k < tail.len() && (#[trigger] tail[k]).id@ == id && opt_string(
                            tail[k].run_env.run_id,
                        ) == Some(run_id) && forall|j: int|
                            0 <= j < k ==> opt_string((#[trigger] tail[j]).run_env.run_id) != Some(
                                run_id,
                            );
                    assert(v[k + 1] == tail[k]);
                    assert forall|j: int| 0 <= j < k + 1 implies opt_string(
                        (#[trigger] v[j]).run_env.run_id,
                    ) != Some(run_id) by {
                        if j > 0 {
                            assert(tail[j - 1] == v[j]);
                        }
                    }
                },
                None => {
                    assert forall|j: int| 0 <= j < v.len() implies opt_string(
                        (#[trigger] v[j]).run_env.run_id,
                    ) != Some(run_id) by {
                        if j > 0 {
                            assert(tail[j - 1] == v[j]);
                        }
                    }
                },
            }
        }
    }
}

} // verus!
