//! The labels under which the metrics endpoint counts queries.

use vstd::prelude::*;

use crate::storage::{action_text, QueryAction};

verus! {

/// The label set of the query counter: the action taken.
#[derive(Debug, Clone, Hash, PartialEq, Eq)]
pub struct QueryLabels {
    pub action: String,
}

impl QueryLabels {
    /// The labels that count a query answered with `action`: the action's
    /// name in the query log ("blocked", "allowed", "cached", "error").
    pub fn for_action(action: QueryAction) -> (l: QueryLabels)
        ensures
            l.action@ == action_text(action),
    {
        QueryLabels { action: action.as_str().to_owned() }
    }
}

} // verus!
