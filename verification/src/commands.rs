//! The operations the tool exposes: apply, revert, and the history
//! listing. Each runs against one already-open transaction; the caller
//! owns opening it and committing or rolling back on the result.

pub mod history;
pub mod migrate_down;
pub mod migrate_up;
