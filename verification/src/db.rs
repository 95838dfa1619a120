//! Trusted interface to the SQLite driver.
//!
//! Everything the library asks of the database goes through the small
//! wrappers here; each one makes a single driver call. The database's
//! answers depend on its state, so nothing is promised of them: the
//! callers say what holds whatever comes back.

use vstd::prelude::*;

verus! {

#[verifier::external_type_specification]
#[verifier::external_body]
pub struct ExTransaction<'a>(rusqlite::Transaction<'a>);

#[verifier::external_type_specification]
#[verifier::external_body]
pub struct ExSqlError(rusqlite::Error);

/// Relies on rusqlite::Connection::execute (reached through the
/// transaction's deref): runs one parameterless SQL statement and hands
/// back the changed-row count or the driver's error.
#[verifier::external_body]
pub(crate) fn tx_execute(tx: &rusqlite::Transaction<'_>, sql: &str) -> (r: Result<
    usize,
    rusqlite::Error,
>) {
    tx.execute(sql, [])
}

/// Relies on rusqlite::Connection::execute: runs one SQL statement with
/// a single text parameter bound to `?1`.
#[verifier::external_body]
pub(crate) fn tx_execute_with_param(
    tx: &rusqlite::Transaction<'_>,
    sql: &str,
    param: &str,
) -> (r: Result<usize, rusqlite::Error>) {
    tx.execute(sql, [param])
}

/// Relies on rusqlite::Connection::execute_batch: runs a block of SQL
/// statements as one unit.
#[verifier::external_body]
pub(crate) fn tx_execute_batch(tx: &rusqlite::Transaction<'_>, sql: &str) -> (r: Result<
    (),
    rusqlite::Error,
>) {
    tx.execute_batch(sql)
}

/// Relies on rusqlite::Connection::query_row: runs the query and picks
/// column 0 of its first row as text; a query with no rows is `None`.
#[verifier::external_body]
pub(crate) fn tx_query_text(tx: &rusqlite::Transaction<'_>, sql: &str) -> (r: Result<
    Option<String>,
    rusqlite::Error,
>) {
    match tx.query_row(sql, [], |row| row.get::<_, String>(0)) {
        Ok(text) => Ok(Some(text)),
        Err(rusqlite::Error::QueryReturnedNoRows) => Ok(None),
        Err(e) => Err(e),
    }
}

/// Relies on rusqlite::Connection::query_row: as `tx_query_text`, with
/// a single text parameter bound to `?1`.
#[verifier::external_body]
pub(crate) fn tx_query_text_with_param(
    tx: &rusqlite::Transaction<'_>,
    sql: &str,
    param: &str,
) -> (r: Result<Option<String>, rusqlite::Error>) {
    match tx.query_row(sql, [param], |row| row.get::<_, String>(0)) {
        Ok(text) => Ok(Some(text)),
        Err(rusqlite::Error::QueryReturnedNoRows) => Ok(None),
        Err(e) => Err(e),
    }
}

/// Relies on rusqlite::Error's Display impl: the driver's error text.
#[verifier::external_body]
pub(crate) fn sql_error_message(e: &rusqlite::Error) -> (r: String) {
    format!("{}", e)
}

} // verus!
