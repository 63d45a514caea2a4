//! Instances kept in a table: what the answers of the database mean.

use vstd::prelude::*;

use crate::model::{InstanceView, WorkflowInstance};
use crate::store::store_file::{collision, collision_text, fault, not_found, not_found_text};
use crate::text::{contains, decimal, decimal_text, occurs, same};

verus! {

/// What came of an insertion: it was made, it would break a constraint, or it failed.
pub enum InsertOutcome {
    Made,
    Constraint(Option<String>),
    Failed(String),
}

/// Why an instance was not created, where it was not. The index of the runs is told from the
/// key by its name in the message.
pub open spec fn insert_fault(o: InsertOutcome, id: Seq<char>) -> Option<Seq<char>> {
    match o {
        InsertOutcome::Made => None,
        InsertOutcome::Failed(e) => Some(e@),
        InsertOutcome::Constraint(m) => if m is Some && occurs(m->0@, "idx_workflows_run_id"@) {
            Some("RUN_ID_ALREADY_RUNNING: run_id already has an in-flight instance"@)
        } else {
            Some(collision(id))
        },
    }
}

/// Judges the insertion of an instance.
pub fn create(id: &str, outcome: &InsertOutcome) -> (r: Result<(), String>)
    ensures
        fault(r) == insert_fault(*outcome, id@),
{
    match outcome {
        InsertOutcome::Made => Ok(()),
        InsertOutcome::Failed(e) => Err(e.as_str().to_owned()),
        InsertOutcome::Constraint(message) => {
            if let Some(m) = message {
                if contains(m.as_str(), "idx_workflows_run_id") {
                    return Err(
                        "RUN_ID_ALREADY_RUNNING: run_id already has an in-flight instance".to_owned(),
                    );
                }
            }
            Err(collision_text(id))
        },
    }
}

/// That a row holds the instance of another id.
pub open spec fn corrupt(row: Seq<char>, embedded: Seq<char>) -> Seq<char> {
    "CORRUPT_INSTANCE: row id '"@ + row + "' does not match embedded instance.id '"@ + embedded
        + "'"@
}

/// What a row gives for an id, or why it gives nothing.
pub open spec fn row_given(id: Seq<char>, row: Option<InstanceView>) -> Result<
    InstanceView,
    Seq<char>,
> {
    match row {
        None => Err(not_found(id)),
        Some(i) => if i.id == id {
            Ok(i)
        } else {
            Err(corrupt(id, i.id))
        },
    }
}

/// The instance that a row holds. One that names another id than its row is refused.
pub fn load(id: &str, row: Option<WorkflowInstance>) -> (r: Result<WorkflowInstance, String>)
    ensures
        match row {
            None => r matches Err(m) && m@ == not_found(id@),
            Some(i) => if i.id@ == id@ {
                r == Ok::<WorkflowInstance, String>(i)
            } else {
                r matches Err(m) && m@ == corrupt(id@, i.id@)
            },
        },
        (match r {
            Ok(i) => Ok(i@),
            Err(m) => Err(m@),
        }) == row_given(
            id@,
            match row {
                Some(i) => Some(i@),
                None => None,
            },
        ),
{
    match row {
        None => Err(not_found_text(id)),
        Some(i) => if same(i.id.as_str(), id) {
            Ok(i)
        } else {
            let mut m = "CORRUPT_INSTANCE: row id '".to_owned();
            m.append(id);
            m.append("' does not match embedded instance.id '");
            m.append(i.id.as_str());
            m.append("'");
            Err(m)
        },
    }
}

/// That the version of a row is another.
pub open spec fn stale(id: Seq<char>, expected: u64) -> Seq<char> {
    "stale workflow version (expected "@ + decimal(expected as nat) + " for "@ + id + ")"@
}

/// Why an instance was not saved, where it was not.
pub open spec fn save_fault(id: Seq<char>, expected: u64, exists_row: bool, updated: nat) -> Option<
    Seq<char>,
> {
    if !exists_row {
        Some(not_found(id))
    } else if updated == 0 {
        Some(stale(id, expected))
    } else {
        None
    }
}

/// Judges an update that was made only where the version was `expected`: whether there is a
/// row at all, and how many rows were changed.
pub fn save_if_version(id: &str, expected: u64, exists_row: bool, updated: usize) -> (r: Result<(), String>)
    ensures
        fault(r) == save_fault(id@, expected, exists_row, updated as nat),
{
    if !exists_row {
        Err(not_found_text(id))
    } else if updated == 0 {
        let mut m = "stale workflow version (expected ".to_owned();
        m.append(decimal_text(expected).as_str());
        m.append(" for ");
        m.append(id);
        m.append(")");
        Err(m)
    } else {
        Ok(())
    }
}

/// A row: the version that it is found by, and the instance that it holds.
pub struct RowView {
    pub version: u64,
    pub instance: InstanceView,
}

/// The rows of the table, by id.
pub type Rows = Map<Seq<char>, RowView>;

/// The rows in which an id is held with a version, of those that an update looks for: one or
/// none, since ids are unique.
pub open spec fn hits(rows: Rows, id: Seq<char>, version: u64) -> nat {
    if rows.contains_key(id) && rows[id].version == version {
        1
    } else {
        0
    }
}

/// The rows after an update of those in which an id is held with a version.
pub open spec fn updated_rows(rows: Rows, i: InstanceView, expected: u64) -> Rows {
    if hits(rows, i.id, expected) > 0 {
        rows.insert(i.id, RowView { version: i.version, instance: i })
    } else {
        rows
    }
}

/// The rows after a save: an update that is judged a failure is not kept.
pub open spec fn saved_rows(rows: Rows, i: InstanceView, expected: u64) -> Rows {
    if save_fault(i.id, expected, rows.contains_key(i.id), hits(rows, i.id, expected)) is None {
        updated_rows(rows, i, expected)
    } else {
        rows
    }
}

/// The rows after an insertion that breaks no constraint.
pub open spec fn inserted_rows(rows: Rows, i: InstanceView) -> Rows {
    rows.insert(i.id, RowView { version: i.version, instance: i })
}

/// What is loaded for an id.
pub open spec fn loaded(rows: Rows, id: Seq<char>) -> Result<InstanceView, Seq<char>> {
    row_given(
        id,
        if rows.contains_key(id) {
            Some(rows[id].instance)
        } else {
            None
        },
    )
}

/// An instance is saved exactly where its row has the version that is expected; then it is what
/// is loaded. Otherwise every row stays as it was, and the reason tells a row of another version
/// from none. Rows of other ids never change.
pub proof fn law_saves_are_optimistic(rows: Rows, i: InstanceView, expected: u64, other: Seq<char>)
    ensures
        ({
            let fault = save_fault(
                i.id,
                expected,
                rows.contains_key(i.id),
                hits(rows, i.id, expected),
            );
            let after = saved_rows(rows, i, expected);
            &&& fault is None <==> rows.contains_key(i.id) && rows[i.id].version == expected
            &&& fault is None ==> loaded(after, i.id) == Ok::<InstanceView, Seq<char>>(i)
                && after[i.id].version == i.version
            &&& fault matches Some(m) ==> after == rows && m == (if rows.contains_key(i.id) {
                stale(i.id, expected)
            } else {
                not_found(i.id)
            })
            &&& other != i.id ==> after.contains_key(other) == rows.contains_key(other)
                && after[other] == rows[other]
        }),
{
}

/// Of two that save on the same version, each raising it, only the first succeeds.
pub proof fn law_one_of_two_saves_wins(
    rows: Rows,
    first: InstanceView,
    second: InstanceView,
    expected: u64,
)
    requires
        first.id == second.id,
        first.version != expected,
        rows.contains_key(first.id),
        rows[first.id].version == expected,
    ensures
        ({
            let after = saved_rows(rows, first, expected);
            &&& save_fault(second.id, expected, true, hits(after, second.id, expected)) == Some(
                stale(second.id, expected),
            )
            &&& saved_rows(after, second, expected) == after
            &&& loaded(after, first.id) == Ok::<InstanceView, Seq<char>>(first)
        }),
{
}

/// An instance that was created is loaded as it was, and no other row changed.
pub proof fn law_created_is_loaded(rows: Rows, i: InstanceView, other: Seq<char>)
    ensures
        loaded(inserted_rows(rows, i), i.id) == Ok::<InstanceView, Seq<char>>(i),
        other != i.id ==> loaded(inserted_rows(rows, i), other) == loaded(rows, other),
{
}

} // verus!
