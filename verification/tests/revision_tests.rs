use migrator::errors::ResolveError;
use migrator::migrations::Migration;
use migrator::revision::{RelativeRevision, Revision};

fn mig(filename: &str) -> Migration {
    Migration::from_filename(filename.as_bytes()).unwrap()
}

fn catalog() -> Vec<Migration> {
    vec![
        mig("20240101000000_init.sql"),
        mig("20240102000000_add_col.sql"),
        mig("20240103000000_add_index.sql"),
    ]
}

fn id_strings(plan: &[migrator::migrations::MigrationId]) -> Vec<String> {
    plan.iter().map(|id| id.as_str().to_string()).collect()
}

#[test]
fn parse_bare_head() {
    let r = Revision::parse(b"head").unwrap();
    assert!(matches!(r, Revision::Relative(RelativeRevision::Head(0))));
}

#[test]
fn parse_head_with_offset() {
    let r = Revision::parse(b"head:2").unwrap();
    assert!(matches!(r, Revision::Relative(RelativeRevision::Head(2))));
}

#[test]
fn parse_current_negative_offset() {
    let r = Revision::parse(b"current:-1").unwrap();
    assert!(matches!(r, Revision::Relative(RelativeRevision::Current(-1))));
}

#[test]
fn parse_bare_current() {
    let r = Revision::parse(b"current").unwrap();
    assert!(matches!(r, Revision::Relative(RelativeRevision::Current(0))));
}

#[test]
fn parse_trims_and_ignores_case() {
    let r = Revision::parse(b"  HeAd:1\t").unwrap();
    assert!(matches!(r, Revision::Relative(RelativeRevision::Head(1))));
}

#[test]
fn parse_absolute_id_keeps_raw_bytes() {
    let r = Revision::parse(b"20240101000000").unwrap();
    match r {
        Revision::Absolute(v) => assert_eq!(v, b"20240101000000".to_vec()),
        _ => panic!("expected an absolute revision"),
    }
}

#[test]
fn parse_unknown_word_with_offset_is_absolute() {
    let r = Revision::parse(b"foo:3").unwrap();
    match r {
        Revision::Absolute(v) => assert_eq!(v, b"foo:3".to_vec()),
        _ => panic!("expected an absolute revision"),
    }
}

#[test]
fn parse_bad_offset_is_syntax_error() {
    assert_eq!(
        Revision::parse(b"head:x").unwrap_err(),
        ResolveError::InvalidRevisionSyntax
    );
    assert_eq!(
        Revision::parse(b"head:").unwrap_err(),
        ResolveError::InvalidRevisionSyntax
    );
    assert_eq!(
        Revision::parse(b"current:99999999999").unwrap_err(),
        ResolveError::InvalidRevisionSyntax
    );
}

#[test]
fn resolve_revision_id_head_is_latest() {
    let cat = catalog();
    let id = Revision::parse(b"head").unwrap().resolve_revision_id(&cat).unwrap();
    assert_eq!(id.as_str(), "20240103000000");
}

#[test]
fn resolve_revision_id_absolute() {
    let cat = catalog();
    let id = Revision::parse(b"20240102000000")
        .unwrap()
        .resolve_revision_id(&cat)
        .unwrap();
    assert_eq!(id.as_str(), "20240102000000");
}

#[test]
fn resolve_unknown_absolute_is_invalid_revision() {
    let cat = catalog();
    let e = Revision::parse(b"20990101000000")
        .unwrap()
        .resolve_revision_id(&cat)
        .unwrap_err();
    assert_eq!(e, ResolveError::InvalidRevision);
}

#[test]
fn negative_head_offset_is_invalid_offset() {
    let cat = catalog();
    let e = Revision::Relative(RelativeRevision::Head(-1))
        .resolve_revision_id(&cat)
        .unwrap_err();
    assert_eq!(e, ResolveError::InvalidOffset);
}

#[test]
fn head_offset_equal_to_length_is_too_large() {
    let cat = catalog();
    let e = Revision::Relative(RelativeRevision::Head(3))
        .resolve_revision_id(&cat)
        .unwrap_err();
    assert_eq!(e, ResolveError::OffsetTooLarge);
}

#[test]
fn head_offset_one_less_than_length_targets_earliest() {
    let cat = catalog();
    let id = Revision::Relative(RelativeRevision::Head(2))
        .resolve_revision_id(&cat)
        .unwrap();
    assert_eq!(id.as_str(), "20240101000000");
}

#[test]
fn apply_from_bootstrap_plans_everything_ascending() {
    let cat = catalog();
    let plan = Revision::parse(b"head")
        .unwrap()
        .revisions_to_apply(&cat, None)
        .unwrap();
    assert_eq!(
        id_strings(&plan),
        vec!["20240101000000", "20240102000000", "20240103000000"]
    );
}

#[test]
fn apply_from_current_plans_strict_suffix() {
    let cat = catalog();
    let current = cat[0].id;
    let plan = Revision::parse(b"head")
        .unwrap()
        .revisions_to_apply(&cat, Some(&current))
        .unwrap();
    assert_eq!(id_strings(&plan), vec!["20240102000000", "20240103000000"]);
}

#[test]
fn apply_current_plus_one_plans_next_only() {
    let cat = catalog();
    let current = cat[0].id;
    let plan = Revision::parse(b"current:1")
        .unwrap()
        .revisions_to_apply(&cat, Some(&current))
        .unwrap();
    assert_eq!(id_strings(&plan), vec!["20240102000000"]);
}

#[test]
fn apply_when_current_is_head_is_already_applied() {
    let cat = catalog();
    let current = cat[2].id;
    let e = Revision::parse(b"head")
        .unwrap()
        .revisions_to_apply(&cat, Some(&current))
        .unwrap_err();
    assert_eq!(e, ResolveError::AlreadyApplied);
}

#[test]
fn apply_with_current_relative_but_no_current_fails() {
    let cat = catalog();
    let e = Revision::parse(b"current:1")
        .unwrap()
        .revisions_to_apply(&cat, None)
        .unwrap_err();
    assert_eq!(e, ResolveError::NoCurrentMigration);
}

#[test]
fn apply_with_unknown_current_is_drift() {
    let cat = catalog();
    let stray = mig("20990101000000_stray.sql").id;
    let e = Revision::parse(b"head")
        .unwrap()
        .revisions_to_apply(&cat, Some(&stray))
        .unwrap_err();
    assert_eq!(e, ResolveError::CurrentMigrationNotFound);
}

#[test]
fn revert_plans_descending() {
    let cat = catalog();
    let current = cat[2].id;
    let plan = Revision::parse(b"head:2")
        .unwrap()
        .revisions_to_revert(&cat, Some(&current))
        .unwrap();
    assert_eq!(id_strings(&plan), vec!["20240103000000", "20240102000000"]);
}

#[test]
fn revert_current_minus_one_plans_current_only() {
    let cat = catalog();
    let current = cat[1].id;
    let plan = Revision::parse(b"current:-1")
        .unwrap()
        .revisions_to_revert(&cat, Some(&current))
        .unwrap();
    assert_eq!(id_strings(&plan), vec!["20240102000000"]);
}

#[test]
fn revert_without_current_fails() {
    let cat = catalog();
    let e = Revision::parse(b"head")
        .unwrap()
        .revisions_to_revert(&cat, None)
        .unwrap_err();
    assert_eq!(e, ResolveError::NoCurrentMigration);
}

#[test]
fn revert_to_current_or_later_is_already_reverted() {
    let cat = catalog();
    let current = cat[1].id;
    let e = Revision::parse(b"head")
        .unwrap()
        .revisions_to_revert(&cat, Some(&current))
        .unwrap_err();
    assert_eq!(e, ResolveError::AlreadyReverted);
    let e = Revision::parse(b"current")
        .unwrap()
        .revisions_to_revert(&cat, Some(&current))
        .unwrap_err();
    assert_eq!(e, ResolveError::AlreadyReverted);
}

#[test]
fn revert_offset_below_catalog_is_too_large() {
    let cat = catalog();
    let current = cat[1].id;
    let e = Revision::parse(b"current:-5")
        .unwrap()
        .revisions_to_revert(&cat, Some(&current))
        .unwrap_err();
    assert_eq!(e, ResolveError::OffsetTooLarge);
}
