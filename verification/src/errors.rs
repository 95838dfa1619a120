//! The error taxonomy of the migration engine.
//!
//! Every fatal condition has its own variant so that call sites can branch
//! on the kind of failure; conditions that callers treat as a successful
//! no-op (target already reached) are separate variants as well.

use vstd::prelude::*;
use crate::migrations::MigrationId;

verus! {

/// A textual migration id that does not have the required 14 bytes.
#[derive(Debug, Clone, Copy, PartialEq, Eq, Structural)]
pub struct InvalidMigrationId;

/// The outcomes of resolving a revision expression against a catalog.
#[derive(Debug, Clone, Copy, PartialEq, Eq, Structural)]
pub enum ResolveError {
    /// The revision expression does not parse.
    InvalidRevisionSyntax,
    /// An absolute revision id does not occur in the catalog.
    InvalidRevision,
    /// A negative offset was given relative to the head.
    InvalidOffset,
    /// A relative offset leaves the bounds of the catalog.
    OffsetTooLarge,
    /// A current-relative expression, or a revert, with nothing applied.
    NoCurrentMigration,
    /// The persisted current id does not occur in the catalog.
    CurrentMigrationNotFound,
    /// The target is at or below the current position (a no-op for apply).
    AlreadyApplied,
    /// The target is at or above the current position (a no-op for revert).
    AlreadyReverted,
}

/// A fatal failure of an apply or revert run.
#[derive(Debug)]
pub enum MigrateError {
    /// The revision did not resolve to a plan.
    Resolve(ResolveError),
    /// The bookkeeping store could not be read or written; carries the
    /// underlying database error text.
    StoreFailure(String),
    /// The bookkeeping store holds a current id that is not 14 bytes long.
    InvalidStoredId(Vec<u8>),
    /// One migration script failed; names the migration and carries the
    /// underlying database error text. The whole transaction is to be
    /// rolled back.
    ExecutionFailure { id: MigrationId, message: String },
}

/// The successful outcomes of an apply or revert run.
#[derive(Debug)]
pub enum MigrateOutcome {
    /// The target was already reached; nothing was executed or recorded.
    AlreadyAtTarget { current: MigrationId },
    /// The plan was executed in full and the new current id recorded.
    Migrated {
        /// The current id read from the store before the run.
        current_before: Option<MigrationId>,
        /// The ids whose scripts ran, in execution order.
        executed: Vec<MigrationId>,
        /// The id recorded as current afterwards.
        new_current: MigrationId,
    },
}

} // verus!
