use pvlog_storage_core::provisioning::{
    account_locator, active_result, check_activation_path, check_active_file, check_quarantine_path,
    check_reserved_locator, deprovision_route, failure_line, is_orphan, locator_decision, orphan_quarantine_name,
    provision_route, quarantine_locator, reconcile_route, unsupported_lifecycle_line, validate_locator,
    AccountDatabaseLifecycle, DeprovisionRoute, ProvisionRoute, ReconcileRoute, ReconciliationReport,
    SqliteAccountProvisioner, SqliteProvisioningError,
};
use std::path::PathBuf;

const ACCOUNT: &str = "0190b5b0-7a3c-7c11-8000-000000000001";

#[test]
fn locators_are_deterministic() {
    assert_eq!(account_locator(ACCOUNT), format!("{ACCOUNT}.sqlite3"));
    assert_eq!(quarantine_locator("a.sqlite3"), "a.sqlite3.quarantine");
    assert_eq!(orphan_quarantine_name("tag", "x.db"), "orphan-tag-x.db.quarantine");
    assert_eq!(check_reserved_locator(ACCOUNT, &format!("{ACCOUNT}.sqlite3")), Ok(()));
    assert_eq!(
        check_reserved_locator(ACCOUNT, "other.sqlite3"),
        Err(SqliteProvisioningError::LocatorMismatch {
            expected: format!("{ACCOUNT}.sqlite3"),
            actual: "other.sqlite3".to_owned()
        })
    );
}

#[test]
fn locators_cannot_escape_the_root() {
    assert_eq!(validate_locator("a.sqlite3"), Ok("a.sqlite3".to_owned()));
    for bad in ["", ".", "..", "../a.sqlite3", "/etc/passwd", "dir/a.sqlite3"] {
        assert_eq!(validate_locator(bad), Err(SqliteProvisioningError::UnsafeLocator(bad.to_owned())));
    }
    assert_eq!(locator_decision("x", false), Err(SqliteProvisioningError::UnsafeLocator("x".to_owned())));
}

#[test]
fn provisioning_routes_by_lifecycle() {
    assert_eq!(provision_route("active"), ProvisionRoute::AlreadyActive);
    for l in ["unavailable", "quarantined", "deleting"] {
        assert_eq!(provision_route(l), ProvisionRoute::Refuse);
    }
    for l in ["reserved", "creating", "migrating", "verifying"] {
        assert_eq!(provision_route(l), ProvisionRoute::Build);
        assert_eq!(reconcile_route(l), ReconcileRoute::ResumeProvisioning);
    }
    assert_eq!(reconcile_route("deleting"), ReconcileRoute::ResumeDeprovisioning);
    assert_eq!(reconcile_route("active"), ReconcileRoute::CheckActive);
    assert_eq!(reconcile_route("quarantined"), ReconcileRoute::Skip);
    assert_eq!(reconcile_route("unavailable"), ReconcileRoute::Skip);
    assert_eq!(reconcile_route("mystery"), ReconcileRoute::Unsupported);
}

#[test]
fn deprovisioning_routes_by_file_state() {
    assert_eq!(deprovision_route("quarantined", false, true), DeprovisionRoute::AlreadyQuarantined);
    assert_eq!(deprovision_route("deleting", false, true), DeprovisionRoute::RecordQuarantine);
    assert_eq!(deprovision_route("active", false, false), DeprovisionRoute::FileMissing);
    assert_eq!(deprovision_route("active", true, false), DeprovisionRoute::Quarantine);
}

#[test]
fn file_state_errors() {
    assert_eq!(check_active_file(ACCOUNT, true), Ok(()));
    assert_eq!(check_active_file(ACCOUNT, false), Err(SqliteProvisioningError::ActiveFileMissing(ACCOUNT.to_owned())));
    assert_eq!(check_activation_path("l", true), Err(SqliteProvisioningError::ActivationCollision("l".to_owned())));
    assert_eq!(check_quarantine_path("q", true), Err(SqliteProvisioningError::QuarantineCollision("q".to_owned())));
    assert_eq!(check_quarantine_path("q", false), Ok(()));
    let result = active_result(ACCOUNT, "l".to_owned());
    assert_eq!(result.lifecycle, AccountDatabaseLifecycle::Active);
    assert_eq!(result.quarantine_locator, None);
}

#[test]
fn error_codes_are_stable() {
    assert_eq!(SqliteProvisioningError::Io("x".to_owned()).code(), "filesystem_error");
    assert_eq!(SqliteProvisioningError::UnsafeLocator("x".to_owned()).code(), "unsafe_locator");
    assert_eq!(
        SqliteProvisioningError::LocatorMismatch { expected: "a".to_owned(), actual: "b".to_owned() }.code(),
        "unsafe_locator"
    );
    assert_eq!(SqliteProvisioningError::ClockOutOfRange.code(), "clock_error");
    assert!(!SqliteProvisioningError::ProvisioningLeaseHeld("a".to_owned()).marks_unavailable());
    assert!(SqliteProvisioningError::InvalidAccountId.marks_unavailable());
}

#[test]
fn reconciliation_report_is_sorted_and_orphans_are_found() {
    let registered = vec!["a.sqlite3".to_owned(), "b.sqlite3".to_owned()];
    assert!(!is_orphan("a.sqlite3", &registered));
    assert!(is_orphan("c.sqlite3", &registered));
    let mut report = ReconciliationReport::new();
    report.failures.push(unsupported_lifecycle_line("z", "odd"));
    report.failures.push(failure_line("b", "broken"));
    report.resumed_accounts.push("y".to_owned());
    report.resumed_accounts.push("x".to_owned());
    report.finish();
    assert_eq!(report.failures, vec!["b: broken".to_owned(), "z: unsupported lifecycle odd".to_owned()]);
    assert_eq!(report.resumed_accounts, vec!["x".to_owned(), "y".to_owned()]);
}

#[test]
fn provisioner_directories_live_below_the_account_directory() {
    let p = SqliteAccountProvisioner::new(PathBuf::from("/data/management.sqlite3"), PathBuf::from("/data/accounts"));
    assert_eq!(p.provisioning_dir(), PathBuf::from("/data/accounts/.provisioning"));
    assert_eq!(p.quarantine_dir(), PathBuf::from("/data/accounts/.quarantine"));
    assert_eq!(p.temporary_path("a"), PathBuf::from("/data/accounts/.provisioning/a.sqlite3"));
    assert_eq!(p.management_path(), &PathBuf::from("/data/management.sqlite3"));
}
