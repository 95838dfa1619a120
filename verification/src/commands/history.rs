//! The history listing: the catalog newest-first, with the current
//! migration marked.

use vstd::prelude::*;
use crate::migrations::{Migration, MigrationId};
use crate::revision::opt_id_val_view;

verus! {

/// One line of the history listing.
#[derive(Debug, Clone)]
pub struct HistoryEntry {
    /// The migration's id.
    pub id: MigrationId,
    /// The migration's display name.
    pub name: Vec<u8>,
    /// Whether this migration is the database's current one.
    pub current: bool,
}

/// The catalog as a listing, newest entry first; when a current id is
/// given, exactly the entries bearing that id are marked current.
pub fn history_entries(all_migrations: &Vec<Migration>, current: &Option<MigrationId>) -> (r: Vec<
    HistoryEntry,
>)
    ensures
        r@.len() == all_migrations@.len(),
        forall|k: int|
            0 <= k < r@.len() ==> {
                let m = all_migrations@[all_migrations@.len() - 1 - k];
                &&& (#[trigger] r@[k]).id@ == m@.id
                &&& r@[k].name@ == m@.name
                &&& r@[k].current == (opt_id_val_view(*current) == Some(m@.id))
            },
{
    let mut out: Vec<HistoryEntry> = Vec::new();
    let n = all_migrations.len();
    let mut k: usize = 0;
    while k < n
        invariant
            k <= n,
            n == all_migrations@.len(),
            out@.len() == k,
            forall|j: int|
                0 <= j < k ==> {
                    let m = all_migrations@[all_migrations@.len() - 1 - j];
                    &&& (#[trigger] out@[j]).id@ == m@.id
                    &&& out@[j].name@ == m@.name
                    &&& out@[j].current == (opt_id_val_view(*current) == Some(m@.id))
                },
        decreases n - k,
    {
        let m = &all_migrations[n - 1 - k];
        let is_current = match current {
            Some(c) => *c == m.id,
            None => false,
        };
        out.push(HistoryEntry { id: m.id, name: m.name.clone(), current: is_current });
        k = k + 1;
    }
    out
}

} // verus!
