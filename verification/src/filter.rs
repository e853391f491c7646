//! Filters decide what happens to a record before it is formatted.

use vstd::prelude::*;

use crate::record::Record;

verus! {

/// A filtering verdict. `Neutral` lets a chain of filters keep going.
#[derive(Debug, Clone, Copy, PartialEq, Eq, Structural)]
pub enum FilterAction {
    /// The record should be dropped immediately.
    Deny,
    /// The record should be accepted immediately.
    Accept,
    /// This filter does not decide either way.
    Neutral,
}

/// A record filter. Implementations say in `action_of` what verdict
/// they give each record, and `filter` returns exactly that verdict.
pub trait Filter {
    /// The verdict this filter gives the record.
    spec fn action_of(&self, rec: &Record) -> FilterAction;

    fn filter(&self, rec: &Record) -> (r: FilterAction)
        ensures
            r == self.action_of(rec),
    ;
}

/// The filter that is neutral to every record: the default wherever a
/// filter is expected and none was configured.
pub struct NullFilter;

impl Filter for NullFilter {
    open spec fn action_of(&self, rec: &Record) -> FilterAction {
        FilterAction::Neutral
    }

    fn filter(&self, rec: &Record) -> (r: FilterAction) {
        FilterAction::Neutral
    }
}

} // verus!
