use migrator::commands::migrate_down::migration_migrate_down;
use migrator::commands::migrate_up::migration_migrate_up;
use migrator::errors::{MigrateError, MigrateOutcome, ResolveError};
use migrator::migrations::Migration;
use migrator::revision::Revision;
use migrator::utils::{get_current_migration_id, table_exists};

fn mig(filename: &str) -> Migration {
    Migration::from_filename(filename.as_bytes()).unwrap()
}

fn two_step_fixture() -> (Vec<Migration>, Vec<String>, Vec<String>) {
    let catalog = vec![
        mig("20240101000000_init.sql"),
        mig("20240102000000_add_col.sql"),
    ];
    let up = vec![
        "CREATE TABLE t1 (x INTEGER);".to_string(),
        "CREATE TABLE t2 (y INTEGER);".to_string(),
    ];
    let down = vec!["DROP TABLE t1;".to_string(), "DROP TABLE t2;".to_string()];
    (catalog, up, down)
}

fn current_of(conn: &mut rusqlite::Connection) -> Option<String> {
    let tx = conn.transaction().unwrap();
    let current = get_current_migration_id(&tx).unwrap();
    tx.rollback().unwrap();
    current.map(|id| id.as_str().to_string())
}

fn has_table(conn: &mut rusqlite::Connection, name: &str) -> bool {
    let tx = conn.transaction().unwrap();
    let r = table_exists(&tx, name).unwrap();
    tx.rollback().unwrap();
    r
}

#[test]
fn migrate_up_head_applies_all_in_order_and_records_current() {
    let (catalog, up, _) = two_step_fixture();
    let mut conn = rusqlite::Connection::open_in_memory().unwrap();
    let tx = conn.transaction().unwrap();
    let rev = Revision::parse(b"head").unwrap();
    let outcome = migration_migrate_up(&rev, &tx, &catalog, &up).unwrap();
    tx.commit().unwrap();
    match outcome {
        MigrateOutcome::Migrated {
            current_before,
            executed,
            new_current,
        } => {
            assert!(current_before.is_none());
            let ids: Vec<String> = executed.iter().map(|id| id.as_str().to_string()).collect();
            assert_eq!(ids, vec!["20240101000000", "20240102000000"]);
            assert_eq!(new_current.as_str(), "20240102000000");
        }
        _ => panic!("expected a migrated outcome"),
    }
    assert!(has_table(&mut conn, "t1"));
    assert!(has_table(&mut conn, "t2"));
    assert_eq!(current_of(&mut conn), Some("20240102000000".to_string()));
}

#[test]
fn migrate_down_current_minus_one_reverts_only_the_last() {
    let (catalog, up, down) = two_step_fixture();
    let mut conn = rusqlite::Connection::open_in_memory().unwrap();
    let tx = conn.transaction().unwrap();
    let rev = Revision::parse(b"head").unwrap();
    migration_migrate_up(&rev, &tx, &catalog, &up).unwrap();
    tx.commit().unwrap();

    let tx = conn.transaction().unwrap();
    let rev = Revision::parse(b"current:-1").unwrap();
    let outcome = migration_migrate_down(&rev, &tx, &catalog, &down).unwrap();
    tx.commit().unwrap();
    match outcome {
        MigrateOutcome::Migrated {
            executed,
            new_current,
            ..
        } => {
            let ids: Vec<String> = executed.iter().map(|id| id.as_str().to_string()).collect();
            assert_eq!(ids, vec!["20240102000000"]);
            assert_eq!(new_current.as_str(), "20240101000000");
        }
        _ => panic!("expected a migrated outcome"),
    }
    assert!(has_table(&mut conn, "t1"));
    assert!(!has_table(&mut conn, "t2"));
    assert_eq!(current_of(&mut conn), Some("20240101000000".to_string()));
}

#[test]
fn migrate_up_when_current_is_head_is_a_no_op_without_writes() {
    let (catalog, up, _) = two_step_fixture();
    let mut conn = rusqlite::Connection::open_in_memory().unwrap();
    let tx = conn.transaction().unwrap();
    let rev = Revision::parse(b"head").unwrap();
    migration_migrate_up(&rev, &tx, &catalog, &up).unwrap();
    tx.commit().unwrap();

    let tx = conn.transaction().unwrap();
    let outcome = migration_migrate_up(&rev, &tx, &catalog, &up).unwrap();
    tx.commit().unwrap();
    match outcome {
        MigrateOutcome::AlreadyAtTarget { current } => {
            assert_eq!(current.as_str(), "20240102000000");
        }
        _ => panic!("expected the no-op outcome"),
    }
    let rows: i64 = conn
        .query_row("SELECT COUNT(*) FROM __migrations__", [], |row| row.get(0))
        .unwrap();
    assert_eq!(rows, 1);
}

#[test]
fn failing_middle_script_rolls_back_everything() {
    let catalog = vec![
        mig("20240101000000_a.sql"),
        mig("20240102000000_b.sql"),
        mig("20240103000000_c.sql"),
    ];
    let up = vec![
        "CREATE TABLE t1 (x INTEGER);".to_string(),
        "THIS IS NOT SQL;".to_string(),
        "CREATE TABLE t3 (z INTEGER);".to_string(),
    ];
    let mut conn = rusqlite::Connection::open_in_memory().unwrap();
    let tx = conn.transaction().unwrap();
    let rev = Revision::parse(b"head").unwrap();
    let err = migration_migrate_up(&rev, &tx, &catalog, &up).unwrap_err();
    match err {
        MigrateError::ExecutionFailure { id, .. } => {
            assert_eq!(id.as_str(), "20240102000000");
        }
        _ => panic!("expected an execution failure"),
    }
    tx.rollback().unwrap();
    assert!(!has_table(&mut conn, "t1"));
    assert!(!has_table(&mut conn, "t3"));
    assert_eq!(current_of(&mut conn), None);
}

#[test]
fn apply_revert_reapply_round_trip_matches_direct_apply() {
    let catalog = vec![
        mig("20240101000000_a.sql"),
        mig("20240102000000_b.sql"),
        mig("20240103000000_c.sql"),
    ];
    let up = vec![
        "CREATE TABLE t1 (x INTEGER);".to_string(),
        "CREATE TABLE t2 (y INTEGER);".to_string(),
        "CREATE TABLE t3 (z INTEGER);".to_string(),
    ];
    let down = vec![
        "DROP TABLE t1;".to_string(),
        "DROP TABLE t2;".to_string(),
        "DROP TABLE t3;".to_string(),
    ];
    let mut conn = rusqlite::Connection::open_in_memory().unwrap();

    let tx = conn.transaction().unwrap();
    let first = Revision::parse(b"20240101000000").unwrap();
    migration_migrate_up(&first, &tx, &catalog, &up).unwrap();
    tx.commit().unwrap();

    let head = Revision::parse(b"head").unwrap();
    let tx = conn.transaction().unwrap();
    let outcome = migration_migrate_up(&head, &tx, &catalog, &up).unwrap();
    tx.commit().unwrap();
    let steps = match outcome {
        MigrateOutcome::Migrated { executed, .. } => executed.len(),
        _ => panic!("expected a migrated outcome"),
    };
    assert_eq!(steps, 2);

    let back = Revision::parse(format!("current:-{}", steps).as_bytes()).unwrap();
    let tx = conn.transaction().unwrap();
    migration_migrate_down(&back, &tx, &catalog, &down).unwrap();
    tx.commit().unwrap();
    assert_eq!(current_of(&mut conn), Some("20240101000000".to_string()));
    assert!(has_table(&mut conn, "t1"));
    assert!(!has_table(&mut conn, "t2"));

    let tx = conn.transaction().unwrap();
    migration_migrate_up(&head, &tx, &catalog, &up).unwrap();
    tx.commit().unwrap();
    assert_eq!(current_of(&mut conn), Some("20240103000000".to_string()));
    assert!(has_table(&mut conn, "t1"));
    assert!(has_table(&mut conn, "t2"));
    assert!(has_table(&mut conn, "t3"));
}

#[test]
fn current_is_none_before_any_migration() {
    let mut conn = rusqlite::Connection::open_in_memory().unwrap();
    assert_eq!(current_of(&mut conn), None);
}

#[test]
fn table_exists_sees_only_real_tables() {
    let mut conn = rusqlite::Connection::open_in_memory().unwrap();
    conn.execute("CREATE TABLE real_table (x INTEGER)", [])
        .unwrap();
    assert!(has_table(&mut conn, "real_table"));
    assert!(!has_table(&mut conn, "imaginary_table"));
}

#[test]
fn corrupt_stored_id_is_a_fatal_integrity_error() {
    let mut conn = rusqlite::Connection::open_in_memory().unwrap();
    conn.execute(
        "CREATE TABLE __migrations__ (
            migrated_at TIMESTAMP NOT NULL DEFAULT CURRENT_TIMESTAMP,
            id TEXT NOT NULL
        )",
        [],
    )
    .unwrap();
    conn.execute("INSERT INTO __migrations__ (id) VALUES ('bogus')", [])
        .unwrap();
    let tx = conn.transaction().unwrap();
    let err = get_current_migration_id(&tx).unwrap_err();
    assert!(matches!(err, MigrateError::InvalidStoredId(_)));
}

#[test]
fn revert_without_anything_applied_fails() {
    let (catalog, _, down) = two_step_fixture();
    let mut conn = rusqlite::Connection::open_in_memory().unwrap();
    let tx = conn.transaction().unwrap();
    let rev = Revision::parse(b"current:-1").unwrap();
    let err = migration_migrate_down(&rev, &tx, &catalog, &down).unwrap_err();
    assert!(matches!(
        err,
        MigrateError::Resolve(ResolveError::NoCurrentMigration)
    ));
}
