//! Acknowledgements and parked sessions kept in tables: what the answers of the database mean.

use vstd::prelude::*;

use crate::store::store_file::fault;
use crate::store::store_sqlite::InsertOutcome;
use crate::text::same;

verus! {

/// Whether a table holds acknowledgements. No other name is put into a statement.
pub fn is_ack_table(table: &str) -> (r: bool)
    ensures
        r == (table@ == "guidance_acks"@ || table@ == "script_acks"@),
{
    same(table, "guidance_acks") || same(table, "script_acks")
}

/// Judges the parking of a session. One that is parked is never overwritten.
pub fn park(correlation_id: &str, outcome: &InsertOutcome) -> (r: Result<(), String>)
    ensures
        fault(r) == match *outcome {
            InsertOutcome::Made => None,
            InsertOutcome::Failed(e) => Some(e@),
            InsertOutcome::Constraint(_) => Some(
                "PARKED_SESSION_DUPLICATE: correlation_id '"@ + correlation_id@
                    + "' is already parked"@,
            ),
        },
{
    match outcome {
        InsertOutcome::Made => Ok(()),
        InsertOutcome::Failed(e) => Err(e.as_str().to_owned()),
        InsertOutcome::Constraint(_) => {
            let mut m = "PARKED_SESSION_DUPLICATE: correlation_id '".to_owned();
            m.append(correlation_id);
            m.append("' is already parked");
            Err(m)
        },
    }
}

/// Judges a row of a parked session by the id that its record holds, or by why it does not
/// parse.
pub fn parse_row(row_id: &str, embedded: &Result<String, String>) -> (r: Result<(), String>)
    ensures
        fault(r) == match *embedded {
            Err(e) => Some(
                "PARKED_SESSION_CORRUPT: row '"@ + row_id@ + "' is not a valid record: "@ + e@,
            ),
            Ok(id) => if id@ == row_id@ {
                None
            } else {
                Some(
                    "PARKED_SESSION_CORRUPT: row key '"@ + row_id@
                        + "' does not match embedded correlation_id '"@ + id@ + "'"@,
                )
            },
        },
{
    match embedded {
        Err(e) => {
            let mut m = "PARKED_SESSION_CORRUPT: row '".to_owned();
            m.append(row_id);
            m.append("' is not a valid record: ");
            m.append(e.as_str());
            Err(m)
        },
        Ok(id) => if same(id.as_str(), row_id) {
            Ok(())
        } else {
            let mut m = "PARKED_SESSION_CORRUPT: row key '".to_owned();
            m.append(row_id);
            m.append("' does not match embedded correlation_id '");
            m.append(id.as_str());
            m.append("'");
            Err(m)
        },
    }
}

} // verus!
