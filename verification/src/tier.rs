//! Which tier of workflow an id names.

use vstd::prelude::*;

use crate::text::{last_piece, split, starts_with};

verus! {

/// The tier of a workflow, told by its id.
#[derive(Debug, Clone, Copy, PartialEq, Eq, Structural)]
pub enum Tier {
    /// `cap.*`: a capability.
    Cap,
    /// `flow.*`: a flow.
    Flow,
    /// Anything else.
    Other,
}

/// The id without its namespace.
pub open spec fn stem(id: Seq<char>) -> Seq<char> {
    split(id, '/').last()
}

impl Tier {
    pub open spec fn of(id: Seq<char>) -> Tier {
        if "cap."@.is_prefix_of(stem(id)) {
            Tier::Cap
        } else if "flow."@.is_prefix_of(stem(id)) {
            Tier::Flow
        } else {
            Tier::Other
        }
    }

    /// The tier of the workflow `id`; only what follows the last `/` counts.
    pub fn from_id(id: &str) -> (r: Tier)
        ensures
            r == Tier::of(id@),
    {
        let stem = last_piece(id, '/');
        if starts_with(stem.as_str(), "cap.") {
            Tier::Cap
        } else if starts_with(stem.as_str(), "flow.") {
            Tier::Flow
        } else {
            Tier::Other
        }
    }
}

} // verus!
