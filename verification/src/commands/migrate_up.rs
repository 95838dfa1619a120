//! Applying migrations up to a target revision.

use vstd::prelude::*;
use crate::db::{tx_execute_batch, tx_execute_with_param, sql_error_message};
use crate::errors::{MigrateError, MigrateOutcome, ResolveError};
use crate::migrations::{Migration, MigrationId};
use crate::revision::{
    Revision, ids_of, plan_views, opt_id_view, opt_id_val_view, spec_revisions_to_apply,
};
use crate::utils::{create_migration_table, get_current_migration_id, INSERT_CURRENT_MIGRATION_SQL};

verus! {

/// Applies every migration strictly after the current position, up to
/// and including the target, in ascending order, inside the given
/// transaction; on full success the target id is recorded as current.
/// The first failing script aborts the run with `ExecutionFailure`, so
/// that the caller rolls the whole transaction back; a target already
/// reached is the no-op outcome, not an error.
///
/// `up_scripts[k]` must hold the forward SQL of `all_migrations[k]`.
#[verifier::loop_isolation(false)]
pub fn migration_migrate_up(
    revision: &Revision,
    tx: &rusqlite::Transaction<'_>,
    all_migrations: &Vec<Migration>,
    up_scripts: &Vec<String>,
) -> (r: Result<MigrateOutcome, MigrateError>)
    requires
        up_scripts@.len() == all_migrations@.len(),
    ensures
        r matches Ok(MigrateOutcome::AlreadyAtTarget { current }) ==> spec_revisions_to_apply(
            *revision,
            all_migrations@,
            Some(current@),
        ) == Err::<Seq<Seq<u8>>, ResolveError>(ResolveError::AlreadyApplied),
        r matches Ok(MigrateOutcome::Migrated { current_before, executed, new_current }) ==> {
            &&& spec_revisions_to_apply(
                *revision,
                all_migrations@,
                opt_id_val_view(current_before),
            ) == Ok::<Seq<Seq<u8>>, ResolveError>(plan_views(executed@))
            &&& executed@.len() > 0
            &&& new_current@ == plan_views(executed@)[plan_views(executed@).len() - 1]
        },
        r matches Err(MigrateError::Resolve(e)) ==> e != ResolveError::AlreadyApplied && exists|
            c: Option<Seq<u8>>,
        |
            spec_revisions_to_apply(*revision, all_migrations@, c) == Err::<
                Seq<Seq<u8>>,
                ResolveError,
            >(e),
        r matches Err(MigrateError::ExecutionFailure { id, message }) ==> exists|k: int|
            0 <= k < all_migrations@.len() && all_migrations@[k]@.id == id@,
{
    if let Err(e) = create_migration_table(tx) {
        return Err(e);
    }
    let current = match get_current_migration_id(tx) {
        Ok(c) => c,
        Err(e) => {
            return Err(e);
        },
    };
    let current_ref: Option<&MigrationId> = match &current {
        Some(c) => Some(c),
        None => None,
    };
    let current_index = match revision.resolve_current_index(all_migrations, current_ref) {
        Ok(o) => o,
        Err(e) => {
            proof {
                assert(spec_revisions_to_apply(*revision, all_migrations@, opt_id_view(
                    current_ref,
                )) == Err::<Seq<Seq<u8>>, ResolveError>(e));
            }
            return Err(MigrateError::Resolve(e));
        },
    };
    let target_index = match revision.resolve_revision_index(all_migrations, current_index) {
        Ok(i) => i,
        Err(e) => {
            proof {
                assert(spec_revisions_to_apply(*revision, all_migrations@, opt_id_view(
                    current_ref,
                )) == Err::<Seq<Seq<u8>>, ResolveError>(e));
            }
            return Err(MigrateError::Resolve(e));
        },
    };
    let start: usize = match current_index {
        Some(ci) => {
            if target_index <= ci {
                return Ok(MigrateOutcome::AlreadyAtTarget { current: current.unwrap() });
            }
            ci + 1
        },
        None => 0,
    };
    let mut executed: Vec<MigrationId> = Vec::new();
    let mut k: usize = start;
    proof {
        assert(plan_views(executed@) =~= ids_of(all_migrations@).subrange(
            start as int,
            start as int,
        ));
    }
    while k <= target_index
        invariant
            start <= k <= target_index + 1,
            target_index < all_migrations@.len(),
            plan_views(executed@) == ids_of(all_migrations@).subrange(start as int, k as int),
        decreases target_index + 1 - k,
    {
        proof {
            vstd::std_specs::vec::axiom_spec_len(all_migrations);
        }
        if let Err(e) = tx_execute_batch(tx, up_scripts[k].as_str()) {
            return Err(
                MigrateError::ExecutionFailure {
                    id: all_migrations[k].id,
                    message: sql_error_message(&e),
                },
            );
        }
        let ghost prev = executed@;
        executed.push(all_migrations[k].id);
        proof {
            assert(executed@ =~= prev.push(all_migrations@[k as int].id));
            assert(plan_views(executed@) =~= ids_of(all_migrations@).subrange(
                start as int,
                k + 1,
            ));
        }
        k = k + 1;
    }
    let last = all_migrations[target_index].id;
    let last_text = all_migrations[target_index].stringify_id();
    if let Err(e) = tx_execute_with_param(tx, INSERT_CURRENT_MIGRATION_SQL, last_text.as_str()) {
        return Err(MigrateError::StoreFailure(sql_error_message(&e)));
    }
    proof {
        assert(plan_views(executed@)[plan_views(executed@).len() - 1] == ids_of(all_migrations@)[
            target_index as int]);
    }
    Ok(MigrateOutcome::Migrated { current_before: current, executed, new_current: last })
}

} // verus!
