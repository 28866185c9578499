use vstd::prelude::*;

verus! {

/// Failure kinds shared by every component of the crate.
///
/// "Loses the merge conflict" outcomes are not errors: they are successful
/// no-ops, reported through the merge outcome type instead.
#[derive(Clone, Copy, Debug, PartialEq, Eq, Structural)]
pub enum CrsqlError {
    /// A column list was malformed, e.g. empty where at least one primary
    /// key column is required.
    InvalidSchema,
    /// An incoming change referenced a table this replica does not track.
    UnknownTable,
    /// Change enumeration was asked for a table without primary keys.
    NoPrimaryKey,
    /// A table name, column name or site id exceeded its maximum length.
    PayloadTooLarge,
    /// A clock entry existed for a column but the base row was missing when
    /// the merge tie-break needed its current value: the clock relation and
    /// the data have desynchronized.
    MergeConflictLookupFailed,
}

impl CrsqlError {
    /// The fixed description of each error kind.
    pub open spec fn spec_message(self) -> Seq<char> {
        match self {
            CrsqlError::InvalidSchema => "malformed column list"@,
            CrsqlError::UnknownTable => "table is not tracked by this replica"@,
            CrsqlError::NoPrimaryKey => "table has no primary key"@,
            CrsqlError::PayloadTooLarge => "name or site id exceeded max length"@,
            CrsqlError::MergeConflictLookupFailed => "could not find row to merge with"@,
        }
    }

    /// Short description, for hosts that log failures.
    pub fn message(&self) -> (r: &'static str)
        ensures
            r@ == self.spec_message(),
    {
        match self {
            CrsqlError::InvalidSchema => "malformed column list",
            CrsqlError::UnknownTable => "table is not tracked by this replica",
            CrsqlError::NoPrimaryKey => "table has no primary key",
            CrsqlError::PayloadTooLarge => "name or site id exceeded max length",
            CrsqlError::MergeConflictLookupFailed => "could not find row to merge with",
        }
    }
}

} // verus!
