use pvlog_storage_core::migrations::{
    account_label_for, build_status, encode_checksum, is_sqlite_database, is_sqlite_extension,
    migration_plan_items, schema_compatibility, sqlite_account_label, AppliedMigration, EmbeddedMigration,
    MigrationKind, MigrationState,
};
use pvlog_storage_core::repositories::{PostgresManagementRepository, PostgresRbacRepository, SqliteRbacRepository};
use pvlog_storage_core::target::DatabaseTarget;
use std::path::PathBuf;

fn embedded(version: i64, checksum: Vec<u8>) -> EmbeddedMigration {
    EmbeddedMigration { version, description: format!("step {version}"), checksum }
}

fn applied(version: i64, checksum: Vec<u8>, success: bool) -> AppliedMigration {
    AppliedMigration { version, checksum, success }
}

#[test]
fn checksums_are_lowercase_hex() {
    assert_eq!(encode_checksum(&[0x00, 0xab, 0x7f, 0xff]), "00ab7fff");
    assert_eq!(encode_checksum(&[]), "");
}

#[test]
fn account_database_files_are_recognised_by_extension() {
    assert!(is_sqlite_database("/data/accounts/a.sqlite3"));
    assert!(is_sqlite_database("b.sqlite"));
    assert!(is_sqlite_database("c.db"));
    assert!(!is_sqlite_database("d.sqlite3-wal"));
    assert!(!is_sqlite_database(".db"));
    assert!(!is_sqlite_extension(None));
    assert_eq!(sqlite_account_label("/data/accounts/x.sqlite3"), "sqlite-account:x.sqlite3");
    assert_eq!(sqlite_account_label("/"), "sqlite-account");
    assert_eq!(account_label_for(None), "sqlite-account");
}

#[test]
fn status_relates_catalog_and_applied_rows() {
    let catalog = vec![embedded(1, vec![1]), embedded(2, vec![2]), embedded(3, vec![3]), embedded(5, vec![5])];
    let rows = vec![
        applied(1, vec![1], true),
        applied(2, vec![9], true),
        applied(3, vec![3], false),
        applied(4, vec![4], true),
        applied(6, vec![6], false),
    ];
    let status = build_status("sqlite-management".to_owned(), MigrationKind::SqliteManagement, &catalog, rows);
    assert_eq!(status.database, "sqlite-management");
    assert_eq!(status.current_version, Some(6));
    assert_eq!(status.target_version, Some(5));
    assert!(!status.compatible);
    let states: Vec<(i64, MigrationState)> = status.migrations.iter().map(|m| (m.version, m.state)).collect();
    assert_eq!(
        states,
        vec![
            (1, MigrationState::Applied),
            (2, MigrationState::ChecksumMismatch),
            (3, MigrationState::Dirty),
            (4, MigrationState::Unknown),
            (5, MigrationState::Pending),
            (6, MigrationState::Dirty),
        ]
    );
    assert_eq!(status.migrations[0].checksum, "01");
    assert_eq!(status.migrations[1].checksum, "02");
    assert_eq!(status.migrations[3].description, "unknown applied migration");
    assert_eq!(status.migrations[3].checksum, "04");
}

#[test]
fn fully_applied_database_is_compatible() {
    let catalog = vec![embedded(1, vec![1]), embedded(2, vec![2])];
    let rows = vec![applied(2, vec![2], true), applied(1, vec![1], true)];
    let status = build_status("postgres".to_owned(), MigrationKind::Postgres, &catalog, rows);
    assert!(status.compatible);
    assert_eq!(schema_compatibility(&vec![status]), Ok(()));
}

#[test]
fn last_applied_row_of_a_version_counts() {
    let catalog = vec![embedded(1, vec![1])];
    let rows = vec![applied(1, vec![1], false), applied(1, vec![1], true)];
    let status = build_status("db".to_owned(), MigrationKind::SqliteAccount, &catalog, rows);
    assert_eq!(status.migrations.len(), 1);
    assert_eq!(status.migrations[0].state, MigrationState::Applied);
}

#[test]
fn plan_lists_pending_migrations_and_incompatible_databases() {
    let catalog = vec![embedded(1, vec![1]), embedded(2, vec![2])];
    let a = build_status("a".to_owned(), MigrationKind::SqliteAccount, &catalog, vec![applied(1, vec![1], true)]);
    let b = build_status("b".to_owned(), MigrationKind::SqliteAccount, &catalog, vec![]);
    let c = build_status("c".to_owned(), MigrationKind::SqliteAccount, &catalog, vec![applied(1, vec![1], true), applied(2, vec![2], true)]);
    let statuses = vec![a, b, c];
    let plan = migration_plan_items(&statuses);
    let items: Vec<(String, i64)> = plan.iter().map(|i| (i.database.clone(), i.version)).collect();
    assert_eq!(items, vec![("a".to_owned(), 2), ("b".to_owned(), 1), ("b".to_owned(), 2)]);
    assert_eq!(plan[0].checksum, "02");
    assert_eq!(plan[0].description, "step 2");
    assert_eq!(schema_compatibility(&statuses), Err("a, b".to_owned()));
}

#[test]
fn secret_urls_stay_out_of_debug_text() {
    let target = DatabaseTarget::Postgres { url: "postgres://db.example/pvlog".to_owned() };
    assert_eq!(target.debug_text(), "Postgres { url: \"[REDACTED]\" }");
    let sqlite = DatabaseTarget::Sqlite {
        management_path: PathBuf::from("/m.sqlite3"),
        accounts_dir: PathBuf::from("/accounts"),
    };
    assert_eq!(sqlite.debug_text(), "Sqlite { management_path: \"/m.sqlite3\", accounts_dir: \"/accounts\" }");
    let repo = PostgresRbacRepository::new("postgres://secret".to_owned());
    assert_eq!(repo.debug_text(), "PostgresRbacRepository { url: \"[REDACTED]\" }");
    assert_eq!(repo.url(), "postgres://secret");
    assert_eq!(PostgresManagementRepository::new("u".to_owned()).url(), "u");
    assert_eq!(SqliteRbacRepository::new(PathBuf::from("/r")).path(), &PathBuf::from("/r"));
}
