//! Reverting migrations down to a target revision.

use vstd::prelude::*;
use crate::db::{tx_execute_batch, tx_execute_with_param, sql_error_message};
use crate::errors::{MigrateError, MigrateOutcome, ResolveError};
use crate::migrations::{Migration, MigrationId};
use crate::revision::{
    Revision, ids_of, plan_views, opt_id_view, opt_id_val_view, spec_current_index,
    spec_resolve_index, spec_revisions_to_revert,
};
use crate::utils::{create_migration_table, get_current_migration_id, INSERT_CURRENT_MIGRATION_SQL};

verus! {

/// Reverts every migration strictly after the target, down to and
/// including the current one, most recently applied first, inside the
/// given transaction; on full success the target id is recorded as the
/// new current (one pointer update, not one per step). The first
/// failing script aborts the run with `ExecutionFailure`, so that the
/// caller rolls the whole transaction back; a target already reached is
/// the no-op outcome, and with nothing applied there is nothing to
/// revert.
///
/// `down_scripts[k]` must hold the reverse SQL of `all_migrations[k]`.
#[verifier::loop_isolation(false)]
pub fn migration_migrate_down(
    target: &Revision,
    tx: &rusqlite::Transaction<'_>,
    all_migrations: &Vec<Migration>,
    down_scripts: &Vec<String>,
) -> (r: Result<MigrateOutcome, MigrateError>)
    requires
        down_scripts@.len() == all_migrations@.len(),
    ensures
        r matches Ok(MigrateOutcome::AlreadyAtTarget { current }) ==> spec_revisions_to_revert(
            *target,
            all_migrations@,
            Some(current@),
        ) == Err::<Seq<Seq<u8>>, ResolveError>(ResolveError::AlreadyReverted),
        r matches Ok(MigrateOutcome::Migrated { current_before, executed, new_current }) ==> {
            &&& current_before is Some
            &&& spec_revisions_to_revert(
                *target,
                all_migrations@,
                opt_id_val_view(current_before),
            ) == Ok::<Seq<Seq<u8>>, ResolveError>(plan_views(executed@))
            &&& executed@.len() > 0
            &&& {
                let ci = spec_current_index(
                    all_migrations@,
                    opt_id_val_view(current_before),
                )->Ok_0->Some_0;
                let ti = spec_resolve_index(*target, all_migrations@, Some(ci))->Ok_0;
                new_current@ == ids_of(all_migrations@)[ti]
            }
        },
        r matches Err(MigrateError::Resolve(e)) ==> e != ResolveError::AlreadyReverted && exists|
            c: Option<Seq<u8>>,
        |
            spec_revisions_to_revert(*target, all_migrations@, c) == Err::<
                Seq<Seq<u8>>,
                ResolveError,
            >(e),
        r matches Err(MigrateError::ExecutionFailure { id, message }) ==> exists|k: int|
            0 <= k < all_migrations@.len() && all_migrations@[k]@.id == id@,
{
    if let Err(e) = create_migration_table(tx) {
        return Err(e);
    }
    let current = match get_current_migration_id(tx) {
        Ok(c) => c,
        Err(e) => {
            return Err(e);
        },
    };
    let cur = match current {
        Some(c) => c,
        None => {
            proof {
                let ghost c: Option<Seq<u8>> = None;
                assert(spec_revisions_to_revert(*target, all_migrations@, c) == Err::<
                    Seq<Seq<u8>>,
                    ResolveError,
                >(ResolveError::NoCurrentMigration));
            }
            return Err(MigrateError::Resolve(ResolveError::NoCurrentMigration));
        },
    };
    let current_index = match target.resolve_current_index(all_migrations, Some(&cur)) {
        Ok(Some(ci)) => ci,
        Ok(None) => {
            proof {
                assert(false);
            }
            return Err(MigrateError::Resolve(ResolveError::NoCurrentMigration));
        },
        Err(e) => {
            proof {
                assert(spec_revisions_to_revert(*target, all_migrations@, Some(cur@)) == Err::<
                    Seq<Seq<u8>>,
                    ResolveError,
                >(e));
            }
            return Err(MigrateError::Resolve(e));
        },
    };
    let target_index = match target.resolve_revision_index(all_migrations, Some(current_index)) {
        Ok(i) => i,
        Err(e) => {
            proof {
                assert(spec_revisions_to_revert(*target, all_migrations@, Some(cur@)) == Err::<
                    Seq<Seq<u8>>,
                    ResolveError,
                >(e));
            }
            return Err(MigrateError::Resolve(e));
        },
    };
    if target_index >= current_index {
        return Ok(MigrateOutcome::AlreadyAtTarget { current: cur });
    }
    let ghost slice = ids_of(all_migrations@).subrange(target_index + 1, current_index + 1);
    let mut executed: Vec<MigrationId> = Vec::new();
    let mut k: usize = current_index;
    while k > target_index
        invariant
            target_index <= k <= current_index,
            current_index < all_migrations@.len(),
            executed@.len() == current_index - k,
            forall|p: int|
                0 <= p < executed@.len() ==> executed@[p]@ == slice[slice.len() - 1 - p],
        decreases k - target_index,
    {
        if let Err(e) = tx_execute_batch(tx, down_scripts[k].as_str()) {
            return Err(
                MigrateError::ExecutionFailure {
                    id: all_migrations[k].id,
                    message: sql_error_message(&e),
                },
            );
        }
        executed.push(all_migrations[k].id);
        k = k - 1;
    }
    let new_current = all_migrations[target_index].id;
    let new_current_text = all_migrations[target_index].stringify_id();
    if let Err(e) = tx_execute_with_param(tx, INSERT_CURRENT_MIGRATION_SQL, new_current_text.as_str(),
    ) {
        return Err(MigrateError::StoreFailure(sql_error_message(&e)));
    }
    proof {
        assert(plan_views(executed@) =~= slice.reverse());
    }
    Ok(MigrateOutcome::Migrated { current_before: Some(cur), executed, new_current })
}

} // verus!
