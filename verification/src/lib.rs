//! A schema-migration engine for SQLite databases.
//!
//! The library tracks an ordered catalog of reversible schema-change units
//! ("migrations"), resolves a revision expression to a target position in
//! that catalog, computes the ordered plan of migrations needed to move the
//! database from its current state to the target, and executes that plan
//! inside one transaction, recording the new current migration.

pub mod any_error;
pub mod bytes;
pub mod cli;
pub mod commands;
pub mod errors;
pub mod migrations;
pub mod db;
pub mod revision;
pub mod utils;
