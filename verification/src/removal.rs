//! Removing one record from the journal, once it was dispatched.

use vstd::prelude::*;

verus! {

/// What is done next to remove a record.
#[derive(Clone, Copy, Debug, PartialEq, Eq, Structural)]
pub enum RemovalStep {
    /// Remove the file of the record.
    RemoveFile,
    /// Sync the directory.
    SyncDirectory,
    /// The record is removed for good.
    Removed,
    /// The record could not be removed, or may come back.
    Failed,
}

/// The step after a file operation that was done or failed.
pub open spec fn removal_next(step: RemovalStep, done: bool) -> RemovalStep {
    match step {
        RemovalStep::RemoveFile => if done {
            RemovalStep::SyncDirectory
        } else {
            RemovalStep::Failed
        },
        RemovalStep::SyncDirectory => if done {
            RemovalStep::Removed
        } else {
            RemovalStep::Failed
        },
        _ => step,
    }
}

impl RemovalStep {
    /// The step after a file operation that was done or failed.
    pub fn next(self, done: bool) -> (r: RemovalStep)
        ensures
            r == removal_next(self, done),
    {
        match self {
            RemovalStep::RemoveFile => if done {
                RemovalStep::SyncDirectory
            } else {
                RemovalStep::Failed
            },
            RemovalStep::SyncDirectory => if done {
                RemovalStep::Removed
            } else {
                RemovalStep::Failed
            },
            step => step,
        }
    }
}

} // verus!
