//! The command surface of the tool, as plain data.
//!
//! The argument-parsing layer around the library builds these values;
//! the library only defines what a command is.

use vstd::prelude::*;
use crate::revision::Revision;

verus! {

/// A whole invocation of the tool.
pub struct Cli {
    /// The command to run.
    pub command: Commands,
}

/// The tool's top-level commands.
pub enum Commands {
    /// Create, apply or revert migrations.
    Migrate(Migrate),
    /// List the catalog newest-first, marking the database's current
    /// migration when a database is given.
    History {
        /// Where the bookkeeping table is read from, if anywhere.
        database_url: Option<DatabaseUrl>,
    },
}

/// The migrate subcommand.
pub struct Migrate {
    /// What to do with the migrations.
    pub command: MigrateCommands,
}

/// The migrate subcommands.
pub enum MigrateCommands {
    /// Create a new empty forward/reverse script pair.
    Create {
        /// The display name of the new migration.
        name: String,
    },
    /// Apply migrations up to the given revision.
    Up {
        /// The target revision.
        revision: Revision,
        /// The database to migrate.
        database_url: DatabaseUrl,
    },
    /// Revert migrations down to the given revision.
    Down {
        /// The target revision.
        revision: Revision,
        /// The database to migrate.
        database_url: DatabaseUrl,
    },
}

/// Where the database lives.
#[derive(Clone)]
pub enum DatabaseUrl {
    /// A fresh in-memory database.
    Memory,
    /// A database file at this path.
    File(String),
}

impl DatabaseUrl {
    /// The connection string: `:memory:`, or the file path itself.
    pub fn as_str(&self) -> (r: &str)
        ensures
            match self {
                DatabaseUrl::Memory => r@ == ":memory:"@,
                DatabaseUrl::File(s) => r@ == s@,
            },
    {
        match self {
            DatabaseUrl::Memory => ":memory:",
            DatabaseUrl::File(s) => s.as_str(),
        }
    }
}

} // verus!
