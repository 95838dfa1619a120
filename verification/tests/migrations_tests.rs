use migrator::commands::history::history_entries;
use migrator::migrations::{Migration, MigrationId};

fn files(names: &[&str]) -> Vec<Vec<u8>> {
    names.iter().map(|n| n.as_bytes().to_vec()).collect()
}

#[test]
fn migration_id_round_trip() {
    let id = MigrationId::new(*b"20240101000000");
    assert_eq!(id.as_bytes(), b"20240101000000");
    assert_eq!(id.as_str(), "20240101000000");
}

#[test]
fn migration_id_from_bytes_checks_length() {
    assert!(MigrationId::from_bytes(b"20240101000000").is_ok());
    assert!(MigrationId::from_bytes(b"2024").is_err());
    assert!(MigrationId::from_bytes(b"202401010000001").is_err());
}

#[test]
fn from_filename_splits_id_and_name() {
    let m = Migration::from_filename(b"20240101000000_init.sql").unwrap();
    assert_eq!(m.id.as_str(), "20240101000000");
    assert_eq!(m.name().as_slice(), b"init");
}

#[test]
fn from_filename_keeps_underscores_in_name() {
    let m = Migration::from_filename(b"20240101000000_add_users_table.sql").unwrap();
    assert_eq!(m.name().as_slice(), b"add_users_table");
}

#[test]
fn from_filename_rejects_short_id() {
    assert!(Migration::from_filename(b"2024_init.sql").is_err());
}

#[test]
fn migrations_compare_by_id_only() {
    let a = Migration::from_filename(b"20240101000000_one.sql").unwrap();
    let b = Migration::from_filename(b"20240101000000_two.sql").unwrap();
    let c = Migration::from_filename(b"20240102000000_one.sql").unwrap();
    assert!(a == b);
    assert!(a != c);
}

#[test]
fn new_migration_underscores_spaces_and_stamps_digits() {
    let m = Migration::new(b"add users table".to_vec());
    assert_eq!(m.name().as_slice(), b"add_users_table");
    let id = m.id.as_bytes();
    assert_eq!(id.len(), 14);
    assert!(id.iter().all(|b| b.is_ascii_digit()));
}

#[test]
fn generate_filename_appends_name_and_extension() {
    let m = Migration::from_filename(b"20240101000000_init.sql").unwrap();
    assert_eq!(m.generate_filename(), b"20240101000000_init.sql".to_vec());
}

#[test]
fn generate_filename_truncates_long_names() {
    let long = "x".repeat(60);
    let filename = format!("20240101000000_{}.sql", long);
    let m = Migration::from_filename(filename.as_bytes()).unwrap();
    let expected = format!("20240101000000_{}.sql", "x".repeat(40));
    assert_eq!(m.generate_filename(), expected.into_bytes());
}

#[test]
fn stringify_id_matches_as_str() {
    let m = Migration::from_filename(b"20240101000000_init.sql").unwrap();
    assert_eq!(m.stringify_id(), "20240101000000");
}

#[test]
fn history_sorts_ascending_by_id() {
    let up = files(&[
        "20240103000000_c.sql",
        "20240101000000_a.sql",
        "20240102000000_b.sql",
    ]);
    let down = files(&[
        "20240102000000_b.sql",
        "20240103000000_c.sql",
        "20240101000000_a.sql",
    ]);
    let cat = migrator::migrations::get_migration_history(&up, &down).unwrap();
    let ids: Vec<String> = cat.iter().map(|m| m.id.as_str().to_string()).collect();
    assert_eq!(ids, vec!["20240101000000", "20240102000000", "20240103000000"]);
}

#[test]
fn history_deduplicates_repeated_filenames() {
    let up = files(&["20240101000000_a.sql", "20240101000000_a.sql"]);
    let down = files(&["20240101000000_a.sql"]);
    let cat = migrator::migrations::get_migration_history(&up, &down).unwrap();
    assert_eq!(cat.len(), 1);
}

#[test]
fn missing_down_script_fails_naming_the_stem() {
    let up = files(&["20240101000000_a.sql", "20240102000000_b.sql"]);
    let down = files(&["20240101000000_a.sql"]);
    let e = migrator::migrations::get_migration_history(&up, &down).unwrap_err();
    assert_eq!(e.missing_down, vec![b"20240102000000_b".to_vec()]);
    assert!(e.missing_up.is_empty());
}

#[test]
fn inconsistency_lists_every_offender_on_both_sides() {
    let up = files(&[
        "20240101000000_a.sql",
        "20240102000000_b.sql",
        "20240103000000_c.sql",
    ]);
    let down = files(&["20240101000000_a.sql", "20240104000000_d.sql"]);
    let e = migrator::migrations::get_migration_history(&up, &down).unwrap_err();
    assert_eq!(
        e.missing_down,
        vec![b"20240102000000_b".to_vec(), b"20240103000000_c".to_vec()]
    );
    assert_eq!(e.missing_up, vec![b"20240104000000_d".to_vec()]);
}

#[test]
fn history_entries_lists_newest_first_and_marks_current() {
    let up = files(&["20240101000000_a.sql", "20240102000000_b.sql"]);
    let down = up.clone();
    let cat = migrator::migrations::get_migration_history(&up, &down).unwrap();
    let current = Some(cat[0].id);
    let entries = history_entries(&cat, &current);
    assert_eq!(entries.len(), 2);
    assert_eq!(entries[0].id.as_str(), "20240102000000");
    assert!(!entries[0].current);
    assert_eq!(entries[1].id.as_str(), "20240101000000");
    assert_eq!(entries[1].name.as_slice(), b"a");
    assert!(entries[1].current);
}

#[test]
fn history_entries_without_current_marks_nothing() {
    let up = files(&["20240101000000_a.sql"]);
    let cat = migrator::migrations::get_migration_history(&up, &up.clone()).unwrap();
    let entries = history_entries(&cat, &None);
    assert!(!entries[0].current);
}
