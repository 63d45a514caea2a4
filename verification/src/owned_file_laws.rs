//! Which files an executor is given locks for, and which slots belong to a state alone.

use vstd::prelude::*;

use crate::json::JsonView;
use crate::path::path_of;
use crate::repo_locks::{branch_files, distinct_files, owned_files};
use crate::runtime::agent_laws::law_texts_of_a_list;
use crate::runtime::context::state_local;
use crate::runtime::links::strings_in;
use crate::runtime::response::task_class;

verus! {

/// Whether a declaration lists a file.
pub open spec fn lists_file(v: JsonView, file: Seq<char>) -> bool {
    v.get("owned_files"@) matches Some(JsonView::Array(a)) && a.contains(JsonView::Str(file))
}

/// Whether an executor declares a file, itself or in one of its branches.
pub open spec fn declares_file(config: JsonView, file: Seq<char>) -> bool {
    ||| lists_file(config, file)
    ||| (config.get("branches"@) matches Some(JsonView::Array(b)) && exists|k: int|
        0 <= k < b.len() && lists_file(#[trigger] b[k], file))
}

/// Whether a list has a file, under this or another spelling of its path.
pub open spec fn covers_file(files: Seq<Seq<char>>, file: Seq<char>) -> bool {
    exists|i: int| 0 <= i < files.len() && #[trigger] path_of(files[i]) == path_of(file)
}

proof fn lemma_listed_in(v: JsonView, file: Seq<char>)
    ensures
        strings_in(v.get("owned_files"@)).contains(file) <==> lists_file(v, file),
{
    law_texts_of_a_list(v.get("owned_files"@), file);
}

proof fn lemma_in_both(a: Seq<Seq<char>>, b: Seq<Seq<char>>, x: Seq<char>)
    ensures
        (a + b).contains(x) <==> a.contains(x) || b.contains(x),
{
    if a.contains(x) {
        let k = choose|k: int| 0 <= k < a.len() && a[k] == x;
        assert((a + b)[k] == x);
    }
    if b.contains(x) {
        let k = choose|k: int| 0 <= k < b.len() && b[k] == x;
        assert((a + b)[a.len() + k] == x);
    }
    if (a + b).contains(x) {
        let k = choose|k: int| 0 <= k < (a + b).len() && (a + b)[k] == x;
        if k < a.len() {
            assert(a[k] == x);
        } else {
            assert(b[k - a.len()] == x);
        }
    }
}

proof fn lemma_branches(b: Seq<JsonView>, file: Seq<char>)
    ensures
        branch_files(b).contains(file) <==> exists|k: int|
            0 <= k < b.len() && lists_file(#[trigger] b[k], file),
    decreases b.len(),
{
    if b.len() > 0 {
        let init = b.drop_last();
        lemma_branches(init, file);
        lemma_listed_in(b.last(), file);
        lemma_in_both(branch_files(init), strings_in(b.last().get("owned_files"@)), file);
        assert(b[b.len() - 1] == b.last());
        if exists|k: int| 0 <= k < init.len() && lists_file(#[trigger] init[k], file) {
            let k = choose|k: int| 0 <= k < init.len() && lists_file(#[trigger] init[k], file);
            assert(b[k] == init[k]);
        }
        if exists|k: int| 0 <= k < b.len() && lists_file(#[trigger] b[k], file) {
            let k = choose|k: int| 0 <= k < b.len() && lists_file(#[trigger] b[k], file);
            if k < init.len() {
                assert(init[k] == b[k]);
            }
        }
    }
}

proof fn lemma_distinct_files(files: Seq<Seq<char>>, file: Seq<char>)
    ensures
        distinct_files(files).contains(file) ==> files.contains(file),
        files.contains(file) ==> covers_file(distinct_files(files), file),
    decreases files.len(),
{
    if files.len() > 0 {
        let init = files.drop_last();
        lemma_distinct_files(init, file);
        let before = distinct_files(init);
        let now = distinct_files(files);
        assert(files[files.len() - 1] == files.last());
        if now.contains(file) {
            let k = choose|k: int| 0 <= k < now.len() && now[k] == file;
            if k < before.len() {
                assert(before[k] == file);
                let x = choose|x: int| 0 <= x < init.len() && init[x] == file;
                assert(files[x] == file);
            }
        }
        if files.contains(file) {
            let x = choose|x: int| 0 <= x < files.len() && files[x] == file;
            if x < init.len() {
                assert(init[x] == file);
                let i = choose|i: int|
                    0 <= i < before.len() && #[trigger] path_of(before[i]) == path_of(file);
                assert(now[i] == before[i]);
                assert(path_of(now[i]) == path_of(file));
            } else {
                if exists|i: int|
                    0 <= i < before.len() && #[trigger] path_of(before[i]) == path_of(files.last()) {
                    let i = choose|i: int|
                        0 <= i < before.len() && #[trigger] path_of(before[i]) == path_of(
                            files.last(),
                        );
                    assert(path_of(now[i]) == path_of(file));
                } else {
                    assert(path_of(now[before.len() as int]) == path_of(file));
                }
            }
        }
    }
}

/// Locks are asked for exactly the files that an executor declares, itself or in its branches: every
/// one of them is covered, and no other one is.
pub proof fn law_declared_files_are_locked(config: JsonView, file: Seq<char>)
    ensures
        declares_file(config, file) ==> covers_file(owned_files(config), file),
        owned_files(config).contains(file) ==> declares_file(config, file),
{
    let own = strings_in(config.get("owned_files"@));
    lemma_listed_in(config, file);
    match config.get_array("branches"@) {
        Some(b) => {
            lemma_branches(b, file);
            lemma_in_both(own, branch_files(b), file);
            lemma_distinct_files(own + branch_files(b), file);
        },
        None => {
            lemma_distinct_files(own, file);
        },
    }
}

/// A slot belongs to its state alone if and only if that is declared; by default it belongs to the
/// run.
pub proof fn law_which_slots_belong_to_a_state(decl: JsonView)
    ensures
        state_local(decl) <==> decl.get("scope"@) == Some(JsonView::Str("state"@)),
{
    reveal_strlit("workflow");
    reveal_strlit("state");
    assert("workflow"@.len() != "state"@.len());
}

/// The class of a mission is the process that it declares, else its own word for it.
pub proof fn law_which_class_a_mission_has(definition: JsonView)
    ensures
        task_class(definition) == (match definition.get("process"@) {
            Some(JsonView::Str(s)) => Some(s),
            Some(_) => None,
            None => definition.get_str("taskClass"@),
        }),
{
}

} // verus!
