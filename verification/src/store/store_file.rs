//! Instances kept in files, one each, named by their ids.

use vstd::prelude::*;

use crate::model::WorkflowInstance;
use crate::path::{below, join_path};
use crate::text::{
    chars_of, decimal, decimal_text, is_letter_or_digit, letter_or_digit, opt_string, same,
    text_of,
};

verus! {

/// Whether a character of an id stays in the name of its file.
pub open spec fn stays(c: char) -> bool {
    letter_or_digit(c) || c == '_' || c == '-'
}

/// An id with every character that cannot stand in a file name written as `_`.
pub open spec fn file_stem(id: Seq<char>) -> Seq<char> {
    id.map_values(
        |c: char|
            if stays(c) {
                c
            } else {
                '_'
            },
    )
}

/// The file of an instance.
pub open spec fn file_for(root: Seq<char>, id: Seq<char>) -> Seq<char> {
    below(root, file_stem(id) + ".json"@)
}

/// The instances under a directory.
pub struct FileWorkflowStore {
    root: String,
}

/// That there is no such instance.
pub open spec fn not_found(id: Seq<char>) -> Seq<char> {
    "workflow "@ + id + " not found"@
}

pub(crate) fn not_found_text(id: &str) -> (r: String)
    ensures
        r@ == not_found(id@),
{
    let mut m = "workflow ".to_owned();
    m.append(id);
    m.append(" not found");
    m
}

/// That an id is taken.
pub open spec fn collision(id: Seq<char>) -> Seq<char> {
    "workflow id collision: "@ + id
}

pub(crate) fn collision_text(id: &str) -> (r: String)
    ensures
        r@ == collision(id@),
{
    let mut m = "workflow id collision: ".to_owned();
    m.append(id);
    m
}

/// Why an instance is not saved, where it is not: the one that is stored must have the
/// version that the saver saw.
pub open spec fn save_fault(stored: Option<u64>, id: Seq<char>, expected: u64) -> Option<Seq<char>> {
    match stored {
        None => Some(not_found(id)),
        Some(v) => if v != expected {
            Some(
                "stale workflow version: stored="@ + decimal(v as nat) + ", expected="@ + decimal(
                    expected as nat,
                ),
            )
        } else {
            None
        },
    }
}

/// The error of a result.
pub open spec fn fault(r: Result<(), String>) -> Option<Seq<char>> {
    match r {
        Ok(_) => None,
        Err(m) => Some(m@),
    }
}

impl FileWorkflowStore {
    pub closed spec fn view(&self) -> Seq<char> {
        self.root@
    }

    pub fn new(root: String) -> (r: FileWorkflowStore)
        ensures
            r@ == root@,
    {
        FileWorkflowStore { root }
    }

    pub fn root(&self) -> (r: &str)
        ensures
            r@ == self@,
    {
        self.root.as_str()
    }

    /// The file of an instance.
    pub fn path_for(&self, id: &str) -> (r: String)
        ensures
            r@ == file_for(self@, id@),
            !file_stem(id@).contains('/'),
    {
        let v = chars_of(id);
        let mut out: Vec<char> = Vec::new();
        let mut i: usize = 0;
        while i < v.len()
            invariant
                i <= v@.len(),
                v@ == id@,
                out@ == file_stem(id@).take(i as int),
                forall|k: int| 0 <= k < i ==> #[trigger] file_stem(id@)[k] != '/',
            decreases v@.len() - i,
        {
            let c: char = v[i];
            if is_letter_or_digit(c) || c == '_' || c == '-' {
                out.push(c);
            } else {
                out.push('_');
            }
            assert(out@ =~= file_stem(id@).take(i + 1));
            i = i + 1;
        }
        assert(file_stem(id@).take(i as int) =~= file_stem(id@));
        let mut name = text_of(&out, 0, out.len());
        assert(out@.subrange(0, out@.len() as int) =~= out@);
        name.append(".json");
        join_path(self.root.as_str(), name.as_str())
    }

    /// Whether an instance can be created where `stored` is what its file holds.
    pub fn create(&self, instance: &WorkflowInstance, stored: &Option<WorkflowInstance>) -> (r: Result<(), String>)
        ensures
            fault(r) == if stored is Some {
                Some(collision(instance.id@))
            } else {
                None
            },
    {
        match stored {
            Some(_) => Err(collision_text(instance.id.as_str())),
            None => Ok(()),
        }
    }

    /// The instance that its file holds.
    pub fn load(&self, workflow_id: &str, stored: Option<WorkflowInstance>) -> (r: Result<WorkflowInstance, String>)
        ensures
            match stored {
                Some(i) => r == Ok::<WorkflowInstance, String>(i),
                None => r matches Err(m) && m@ == not_found(workflow_id@),
            },
    {
        match stored {
            Some(i) => Ok(i),
            None => Err(not_found_text(workflow_id)),
        }
    }

    /// Whether an instance can be saved over what its file holds.
    pub fn save_if_version(
        &self,
        instance: &WorkflowInstance,
        expected_version: u64,
        stored: &Option<WorkflowInstance>,
    ) -> (r: Result<(), String>)
        ensures
            fault(r) == save_fault(
                match *stored {
                    Some(i) => Some(i.version),
                    None => None,
                },
                instance.id@,
                expected_version,
            ),
    {
        match stored {
            None => Err(not_found_text(instance.id.as_str())),
            Some(existing) => if existing.version != expected_version {
                let mut m = "stale workflow version: stored=".to_owned();
                m.append(decimal_text(existing.version).as_str());
                m.append(", expected=");
                m.append(decimal_text(expected_version).as_str());
                Err(m)
            } else {
                Ok(())
            },
        }
    }
}

/// The id of the first instance of a run.
pub open spec fn first_of_run(v: Seq<WorkflowInstance>, run_id: Seq<char>) -> Option<Seq<char>>
    decreases v.len(),
{
    if v.len() == 0 {
        None
    } else if opt_string(v[0].run_env.run_id) == Some(run_id) {
        Some(v[0].id@)
    } else {
        first_of_run(v.drop_first(), run_id)
    }
}

/// Finds the first instance of a run, in the order of the scan.
pub fn find_by_run_id(scanned: &Vec<WorkflowInstance>, run_id: &str) -> (r: Option<String>)
    ensures
        opt_string(r) == first_of_run(scanned@, run_id@),
{
    let mut i: usize = 0;
    assert(scanned@.skip(0) =~= scanned@);
    while i < scanned.len()
        invariant
            i <= scanned@.len(),
            first_of_run(scanned@, run_id@) == first_of_run(scanned@.skip(i as int), run_id@),
        decreases scanned@.len() - i,
    {
        assert(scanned@.skip(i as int).drop_first() =~= scanned@.skip(i + 1));
        if let Some(id) = &scanned[i].run_env.run_id {
            if same(id.as_str(), run_id) {
                return Some(scanned[i].id.as_str().to_owned());
            }
        }
        i = i + 1;
    }
    None
}

/// The instances whose contexts hold a slot.
pub open spec fn holding(v: Seq<WorkflowInstance>, slot: Seq<char>) -> Seq<WorkflowInstance> {
    v.filter(|i: WorkflowInstance| i.context@.get(slot) is Some)
}

fn keep_holding(scanned: Vec<WorkflowInstance>, slot: &str) -> (r: Vec<WorkflowInstance>)
    ensures
        r@ == holding(scanned@, slot@),
{
    let ghost all = scanned@;
    let ghost p = |i: WorkflowInstance| i.context@.get(slot@) is Some;
    let mut left = scanned;
    let mut back: Vec<WorkflowInstance> = Vec::new();
    while left.len() > 0
        invariant
            left@.len() + back@.len() == all.len(),
            left@ == all.take(left@.len() as int),
            back@.len() <= all.len(),
            forall|k: int| 0 <= k < back@.len() ==> #[trigger] back@[k] == all[all.len() - 1 - k],
        decreases left@.len(),
    {
        let ghost n = left@.len();
        if let Some(x) = left.pop() {
            assert(x == all[n - 1]);
            back.push(x);
        }
    }
    let mut out: Vec<WorkflowInstance> = Vec::new();
    assert(all.take(0).filter(p) =~= Seq::empty()) by {
        assert(all.take(0).len() == 0);
        all.take(0).lemma_filter_len(p);
    }
    while back.len() > 0
        invariant
            p == (|i: WorkflowInstance| i.context@.get(slot@) is Some),
            back@.len() <= all.len(),
            forall|k: int| 0 <= k < back@.len() ==> #[trigger] back@[k] == all[all.len() - 1 - k],
            out@ == all.take(all.len() - back@.len()).filter(p),
        decreases back@.len(),
    {
        let ghost done = all.len() - back@.len();
        if let Some(x) = back.pop() {
            proof {
                assert(x == all[done]);
                assert(all.take(done + 1).drop_last() =~= all.take(done));
                assert(all.take(done + 1).last() == x);
                reveal(Seq::filter);
            }
            match x.context.get(slot) {
                Some(_) => out.push(x),
                None => {},
            }
        }
    }
    assert(all.take(all.len() as int) =~= all);
    out
}

/// The instances that wait for files.
pub fn list_waiting_on_lock(scanned: Vec<WorkflowInstance>) -> (r: Vec<WorkflowInstance>)
    ensures
        r@ == holding(scanned@, "_lock_wait"@),
{
    keep_holding(scanned, "_lock_wait")
}

/// The instances that wait for another instance.
pub fn list_waiting_on_subworkflow(scanned: Vec<WorkflowInstance>) -> (r: Vec<WorkflowInstance>)
    ensures
        r@ == holding(scanned@, "_subworkflow_wait"@),
{
    keep_holding(scanned, "_subworkflow_wait")
}

} // verus!
