//! The bookkeeping table inside the target database.
//!
//! The current migration is the most recent row of the `__migrations__`
//! table; the table is append-only, so earlier rows are the history.
//! Its absence is the legitimate bootstrap state, not an error.

use vstd::prelude::*;
use crate::db::{tx_execute, tx_query_text, tx_query_text_with_param, sql_error_message};
use crate::errors::MigrateError;
use crate::migrations::MigrationId;

verus! {

/// The name of the bookkeeping table.
pub const MIGRATIONS_TABLE_NAME: &'static str = "__migrations__";

/// Creates the bookkeeping table if it is missing.
pub const CREATE_MIGRATIONS_TABLE_SQL: &'static str =
    "CREATE TABLE IF NOT EXISTS __migrations__ (
        migrated_at TIMESTAMP NOT NULL DEFAULT CURRENT_TIMESTAMP,
        id TEXT NOT NULL
    )";

/// Keeps `migrated_at` fresh if a row's id is ever updated in place.
pub const CREATE_MIGRATIONS_TABLE_UPDATE_TRIGGER_SQL: &'static str =
    "CREATE TRIGGER IF NOT EXISTS update_migration_timestamp UPDATE OF id ON __migrations__ BEGIN
        UPDATE __migrations__ SET migrated_at = CURRENT_TIMESTAMP WHERE id = NEW.id;
    END";

/// Reads the most recently recorded migration id; the row order breaks
/// ties between rows recorded within the same second.
pub const SELECT_CURRENT_MIGRATION_SQL: &'static str =
    "SELECT id FROM __migrations__ ORDER BY migrated_at DESC, rowid DESC LIMIT 1";

/// Records a new current migration id.
pub const INSERT_CURRENT_MIGRATION_SQL: &'static str =
    "INSERT INTO __migrations__ (id) VALUES (?1)";

/// Finds a table by name in the database's schema catalog.
pub const SELECT_TABLE_NAME_SQL: &'static str =
    "SELECT name FROM sqlite_master WHERE type='table' AND name=?1";

/// Makes sure the bookkeeping table and its trigger exist; idempotent.
pub fn create_migration_table(tx: &rusqlite::Transaction<'_>) -> (r: Result<(), MigrateError>)
    ensures
        r matches Err(e) ==> e matches MigrateError::StoreFailure(_),
{
    if let Err(e) = tx_execute(tx, CREATE_MIGRATIONS_TABLE_SQL) {
        return Err(MigrateError::StoreFailure(sql_error_message(&e)));
    }
    if let Err(e) = tx_execute(tx, CREATE_MIGRATIONS_TABLE_UPDATE_TRIGGER_SQL) {
        return Err(MigrateError::StoreFailure(sql_error_message(&e)));
    }
    Ok(())
}

/// Whether a table with this name exists in the database.
pub fn table_exists(tx: &rusqlite::Transaction<'_>, table_name: &str) -> (r: Result<
    bool,
    MigrateError,
>)
    ensures
        r matches Err(e) ==> e matches MigrateError::StoreFailure(_),
{
    match tx_query_text_with_param(tx, SELECT_TABLE_NAME_SQL, table_name) {
        Ok(Some(_)) => Ok(true),
        Ok(None) => Ok(false),
        Err(e) => Err(MigrateError::StoreFailure(sql_error_message(&e))),
    }
}

/// Reads the current migration id from the bookkeeping table. A missing
/// table, like a table without rows, is the bootstrap state `None`. A
/// stored id of the wrong length is a fatal integrity error.
pub fn get_current_migration_id(tx: &rusqlite::Transaction<'_>) -> (r: Result<
    Option<MigrationId>,
    MigrateError,
>)
    ensures
        r matches Ok(Some(id)) ==> id@.len() == 14,
        r matches Err(e) ==> (e matches MigrateError::StoreFailure(_) || e
            matches MigrateError::InvalidStoredId(_)),
{
    let exists = match table_exists(tx, MIGRATIONS_TABLE_NAME) {
        Ok(b) => b,
        Err(e) => {
            return Err(e);
        },
    };
    if !exists {
        return Ok(None);
    }
    let row = match tx_query_text(tx, SELECT_CURRENT_MIGRATION_SQL) {
        Ok(o) => o,
        Err(e) => {
            return Err(MigrateError::StoreFailure(sql_error_message(&e)));
        },
    };
    match row {
        None => Ok(None),
        Some(text) => {
            let bytes = text.as_str().as_bytes();
            match MigrationId::from_bytes(bytes) {
                Ok(id) => Ok(Some(id)),
                Err(_) => Err(MigrateError::InvalidStoredId(vstd::slice::slice_to_vec(bytes))),
            }
        },
    }
}

} // verus!
