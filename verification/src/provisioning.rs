//! Recoverable lifecycle for isolated `SQLite` account databases.
//!
//! The file and database work is driven from outside; the decisions of each transition are
//! made here: which route a durable lifecycle takes, which locator an account owns, when a file
//! state is an error, and how a reconciliation report is assembled.
use crate::text::text_eq;
use crate::external::{
    joined_path, path_component_kinds, path_components, path_join, plain_file_name, sort_texts, string_push_str, text_lt,
    PathComponentKind,
};
use std::path::PathBuf;
use vstd::prelude::*;

verus! {

/// Durable account database lifecycle visible to operators.
#[derive(Clone, Copy, Debug, PartialEq, Eq, Structural)]
pub enum AccountDatabaseLifecycle {
    /// Routing is disabled while a new database is built.
    Provisioning,
    /// The verified database is available for routing.
    Active,
    /// Routing is disabled because verification or migration failed.
    Unavailable,
    /// The database file has been moved out of the active data directory.
    Quarantined,
}

/// Result of a provisioning or deprovisioning state transition.
#[derive(Clone, Debug, PartialEq, Eq)]
pub struct AccountProvisioningResult {
    /// Canonical `UUIDv7` account identifier.
    pub account_id: String,
    /// Opaque basename managed beneath the configured account data root.
    pub opaque_locator: String,
    /// Resulting durable lifecycle.
    pub lifecycle: AccountDatabaseLifecycle,
    /// Quarantine basename when deprovisioning moved a file.
    pub quarantine_locator: Option<String>,
}

/// Outcome of reconciling durable state with files on disk.
#[derive(Clone, Debug, Default, PartialEq, Eq)]
pub struct ReconciliationReport {
    /// Accounts whose interrupted transition was completed.
    pub resumed_accounts: Vec<String>,
    /// Active accounts disabled because their file is missing or invalid.
    pub unavailable_accounts: Vec<String>,
    /// Unknown files moved out of the active directory without guessing ownership.
    pub quarantined_orphans: Vec<String>,
    /// Safe per-account failures that require operator action.
    pub failures: Vec<String>,
}

/// Failure while provisioning, deprovisioning, or reconciling an account database. Failures of
/// the file system, the database and migrations carry their message.
#[derive(Clone, Debug, PartialEq, Eq)]
pub enum SqliteProvisioningError {
    Io(String),
    Sqlx(String),
    Migration(String),
    AccountNotFound(String),
    RegistryMissing(String),
    LocatorMismatch { expected: String, actual: String },
    UnsafeLocator(String),
    UnsafeLifecycle { account_id: String, lifecycle: String },
    ProvisioningLeaseHeld(String),
    ActiveFileMissing(String),
    ActivationCollision(String),
    QuarantineCollision(String),
    IntegrityCheckFailed(String),
    AccountBindingMismatch(String),
    WrongSchemaKind(String),
    InvalidAccountId,
    ClockBeforeUnixEpoch,
    ClockOutOfRange,
}

/// The code recorded with an unavailable account.
pub open spec fn error_code(e: SqliteProvisioningError) -> &'static str {
    match e {
        SqliteProvisioningError::Io(_) => "filesystem_error",
        SqliteProvisioningError::Sqlx(_) => "database_error",
        SqliteProvisioningError::Migration(_) => "migration_error",
        SqliteProvisioningError::AccountNotFound(_) => "account_not_found",
        SqliteProvisioningError::RegistryMissing(_) => "registry_missing",
        SqliteProvisioningError::LocatorMismatch { .. } => "unsafe_locator",
        SqliteProvisioningError::UnsafeLocator(_) => "unsafe_locator",
        SqliteProvisioningError::UnsafeLifecycle { .. } => "unsafe_lifecycle",
        SqliteProvisioningError::ProvisioningLeaseHeld(_) => "provisioning_lease_held",
        SqliteProvisioningError::ActiveFileMissing(_) => "account_file_missing",
        SqliteProvisioningError::ActivationCollision(_) => "activation_collision",
        SqliteProvisioningError::QuarantineCollision(_) => "quarantine_collision",
        SqliteProvisioningError::IntegrityCheckFailed(_) => "integrity_check_failed",
        SqliteProvisioningError::AccountBindingMismatch(_) => "account_binding_mismatch",
        SqliteProvisioningError::WrongSchemaKind(_) => "wrong_schema_kind",
        SqliteProvisioningError::InvalidAccountId => "invalid_account_id",
        SqliteProvisioningError::ClockBeforeUnixEpoch => "clock_error",
        SqliteProvisioningError::ClockOutOfRange => "clock_error",
    }
}

impl SqliteProvisioningError {
    /// The code recorded with an unavailable account.
    pub fn code(&self) -> (r: &'static str)
        ensures
            r == error_code(*self),
    {
        match self {
            SqliteProvisioningError::Io(_) => "filesystem_error",
            SqliteProvisioningError::Sqlx(_) => "database_error",
            SqliteProvisioningError::Migration(_) => "migration_error",
            SqliteProvisioningError::AccountNotFound(_) => "account_not_found",
            SqliteProvisioningError::RegistryMissing(_) => "registry_missing",
            SqliteProvisioningError::LocatorMismatch { .. } => "unsafe_locator",
            SqliteProvisioningError::UnsafeLocator(_) => "unsafe_locator",
            SqliteProvisioningError::UnsafeLifecycle { .. } => "unsafe_lifecycle",
            SqliteProvisioningError::ProvisioningLeaseHeld(_) => "provisioning_lease_held",
            SqliteProvisioningError::ActiveFileMissing(_) => "account_file_missing",
            SqliteProvisioningError::ActivationCollision(_) => "activation_collision",
            SqliteProvisioningError::QuarantineCollision(_) => "quarantine_collision",
            SqliteProvisioningError::IntegrityCheckFailed(_) => "integrity_check_failed",
            SqliteProvisioningError::AccountBindingMismatch(_) => "account_binding_mismatch",
            SqliteProvisioningError::WrongSchemaKind(_) => "wrong_schema_kind",
            SqliteProvisioningError::InvalidAccountId => "invalid_account_id",
            SqliteProvisioningError::ClockBeforeUnixEpoch => "clock_error",
            SqliteProvisioningError::ClockOutOfRange => "clock_error",
        }
    }

    /// A failed provisioning marks the account unavailable, except when another process holds
    /// the provisioning lease.
    pub fn marks_unavailable(&self) -> (r: bool)
        ensures
            r == !(*self is ProvisioningLeaseHeld),
    {
        match self {
            SqliteProvisioningError::ProvisioningLeaseHeld(_) => false,
            _ => true,
        }
    }
}

/// Manages the split `SQLite` management/account topology through recoverable transitions.
#[derive(Clone, Debug)]
pub struct SqliteAccountProvisioner {
    management_path: PathBuf,
    accounts_dir: PathBuf,
}

impl SqliteAccountProvisioner {
    pub closed spec fn management_path_spec(&self) -> PathBuf {
        self.management_path
    }

    pub closed spec fn accounts_dir_spec(&self) -> PathBuf {
        self.accounts_dir
    }

    /// Creates a provisioner rooted at the configured management and account paths.
    pub fn new(management_path: PathBuf, accounts_dir: PathBuf) -> (r: Self)
        ensures
            r.management_path_spec() == management_path,
            r.accounts_dir_spec() == accounts_dir,
    {
        SqliteAccountProvisioner { management_path, accounts_dir }
    }

    /// The management database file.
    pub fn management_path(&self) -> (r: &PathBuf)
        ensures
            *r == self.management_path_spec(),
    {
        &self.management_path
    }

    /// The directory holding one database per account.
    pub fn accounts_dir(&self) -> (r: &PathBuf)
        ensures
            *r == self.accounts_dir_spec(),
    {
        &self.accounts_dir
    }

    /// The directory where new account databases are built: `.provisioning` below the account
    /// directory.
    pub fn provisioning_dir(&self) -> (r: PathBuf)
        ensures
            r == joined_path(self.accounts_dir_spec(), ".provisioning"@),
    {
        path_join(&self.accounts_dir, ".provisioning")
    }

    /// The directory where removed account databases are kept: `.quarantine` below the account
    /// directory.
    pub fn quarantine_dir(&self) -> (r: PathBuf)
        ensures
            r == joined_path(self.accounts_dir_spec(), ".quarantine"@),
    {
        path_join(&self.accounts_dir, ".quarantine")
    }

    /// The deterministic build path of an account's database below the provisioning directory.
    pub fn temporary_path(&self, account_id: &str) -> (r: PathBuf)
        ensures
            r == joined_path(joined_path(self.accounts_dir_spec(), ".provisioning"@), locator_of(account_id@)),
    {
        let name = account_locator(account_id);
        path_join(&self.provisioning_dir(), name.as_str())
    }
}

/// The locator of an account: its identifier with the `.sqlite3` extension.
pub open spec fn locator_of(account_id: Seq<char>) -> Seq<char> {
    account_id + ".sqlite3"@
}

/// The deterministic database basename of an account.
pub fn account_locator(account_id: &str) -> (r: String)
    ensures
        r@ == locator_of(account_id@),
{
    let mut locator = account_id.to_owned();
    string_push_str(&mut locator, ".sqlite3");
    locator
}

/// The basename under which a quarantined database is kept.
pub fn quarantine_locator(locator: &str) -> (r: String)
    ensures
        r@ == locator@ + ".quarantine"@,
{
    let mut name = locator.to_owned();
    string_push_str(&mut name, ".quarantine");
    name
}

/// The basename under which an orphaned database file is kept, tagged with a fresh identifier.
pub fn orphan_quarantine_name(tag: &str, name: &str) -> (r: String)
    ensures
        r@ == "orphan-"@ + tag@ + "-"@ + name@ + ".quarantine"@,
{
    let mut out = "orphan-".to_owned();
    string_push_str(&mut out, tag);
    string_push_str(&mut out, "-");
    string_push_str(&mut out, name);
    string_push_str(&mut out, ".quarantine");
    out
}

/// Whether `locator` is exactly one normal path component: no prefix, root, `.` or `..`, and
/// nothing after it, so that it names an entry directly inside the directory it is joined to.
pub fn single_normal_component(locator: &str) -> (r: bool)
    ensures
        r == (path_components(locator@) == seq![PathComponentKind::Normal]),
        r ==> locator@.len() > 0 && locator@ != "."@ && locator@ != ".."@,
        plain_file_name(locator@) ==> r,
{
    let kinds = path_component_kinds(locator);
    let r = kinds.len() == 1 && kinds[0] == PathComponentKind::Normal;
    proof {
        if r {
            assert(kinds@ =~= seq![PathComponentKind::Normal]);
        }
    }
    r
}

/// Accepts a stored locator only when it is one plain path component.
pub fn locator_decision(locator: &str, single_component: bool) -> (r: Result<String, SqliteProvisioningError>)
    ensures
        match r {
            Ok(l) => single_component && l@ == locator@,
            Err(e) => !single_component && (e matches SqliteProvisioningError::UnsafeLocator(l) && l@ == locator@),
        },
{
    if single_component {
        Ok(locator.to_owned())
    } else {
        Err(SqliteProvisioningError::UnsafeLocator(locator.to_owned()))
    }
}

/// Accepts a stored locator only when it is one plain path component, so that it cannot
/// escape or traverse the managed root.
pub fn validate_locator(locator: &str) -> (r: Result<String, SqliteProvisioningError>)
    ensures
        r matches Ok(l) ==> l@ == locator@ && locator@.len() > 0 && locator@ != "."@ && locator@ != ".."@,
        r matches Err(e) ==> e matches SqliteProvisioningError::UnsafeLocator(l) && l@ == locator@,
        (r is Ok) == (path_components(locator@) == seq![PathComponentKind::Normal]),
        plain_file_name(locator@) ==> r is Ok,
{
    let single = single_normal_component(locator);
    locator_decision(locator, single)
}

/// The stored locator must be the account's deterministic one.
pub fn check_reserved_locator(account_id: &str, stored: &str) -> (r: Result<(), SqliteProvisioningError>)
    ensures
        match r {
            Ok(()) => stored@ == locator_of(account_id@),
            Err(e) => stored@ != locator_of(account_id@) && (e matches SqliteProvisioningError::LocatorMismatch {
                expected,
                actual,
            } && expected@ == locator_of(account_id@) && actual@ == stored@),
        },
{
    let expected = account_locator(account_id);
    let actual = stored.to_owned();
    if actual == expected {
        Ok(())
    } else {
        Err(SqliteProvisioningError::LocatorMismatch { expected, actual })
    }
}

/// What provisioning does with an account, given its durable lifecycle after reservation.
#[derive(Clone, Copy, Debug, PartialEq, Eq, Structural)]
pub enum ProvisionRoute {
    /// The account is active: check its file and report it active.
    AlreadyActive,
    /// The lifecycle needs explicit operator recovery.
    Refuse,
    /// Take the provisioning lease and build, or finish building, the database.
    Build,
}

pub open spec fn provision_route_of(lifecycle: Seq<char>) -> ProvisionRoute {
    if lifecycle == "active"@ {
        ProvisionRoute::AlreadyActive
    } else if lifecycle == "unavailable"@ || lifecycle == "quarantined"@ || lifecycle == "deleting"@ {
        ProvisionRoute::Refuse
    } else {
        ProvisionRoute::Build
    }
}

/// Routes provisioning by durable lifecycle.
pub fn provision_route(lifecycle: &str) -> (r: ProvisionRoute)
    ensures
        r == provision_route_of(lifecycle@),
{
    if text_eq(lifecycle, "active") {
        ProvisionRoute::AlreadyActive
    } else if text_eq(lifecycle, "unavailable") || text_eq(lifecycle, "quarantined") || text_eq(
        lifecycle,
        "deleting",
    ) {
        ProvisionRoute::Refuse
    } else {
        ProvisionRoute::Build
    }
}

/// The error for a lifecycle that provisioning refuses.
pub fn unsafe_lifecycle(account_id: &str, lifecycle: &str) -> (r: SqliteProvisioningError)
    ensures
        r matches SqliteProvisioningError::UnsafeLifecycle { account_id: a, lifecycle: l } && a@
            == account_id@ && l@ == lifecycle@,
{
    SqliteProvisioningError::UnsafeLifecycle { account_id: account_id.to_owned(), lifecycle: lifecycle.to_owned() }
}

/// An active account must still have its database file.
pub fn check_active_file(account_id: &str, file_exists: bool) -> (r: Result<(), SqliteProvisioningError>)
    ensures
        r is Ok <==> file_exists,
        r matches Err(e) ==> e matches SqliteProvisioningError::ActiveFileMissing(a) && a@ == account_id@,
{
    if file_exists {
        Ok(())
    } else {
        Err(SqliteProvisioningError::ActiveFileMissing(account_id.to_owned()))
    }
}

/// A freshly built database is moved into place only when nothing occupies the final path.
pub fn check_activation_path(locator: &str, final_exists: bool) -> (r: Result<(), SqliteProvisioningError>)
    ensures
        r is Ok <==> !final_exists,
        r matches Err(e) ==> e matches SqliteProvisioningError::ActivationCollision(l) && l@ == locator@,
{
    if final_exists {
        Err(SqliteProvisioningError::ActivationCollision(locator.to_owned()))
    } else {
        Ok(())
    }
}

/// A database is moved into quarantine only when nothing occupies the quarantine path.
pub fn check_quarantine_path(quarantine_locator: &str, quarantine_exists: bool) -> (r: Result<
    (),
    SqliteProvisioningError,
>)
    ensures
        r is Ok <==> !quarantine_exists,
        r matches Err(e) ==> e matches SqliteProvisioningError::QuarantineCollision(l) && l@ == quarantine_locator@,
{
    if quarantine_exists {
        Err(SqliteProvisioningError::QuarantineCollision(quarantine_locator.to_owned()))
    } else {
        Ok(())
    }
}

/// The result reported for an active account.
pub fn active_result(account_id: &str, locator: String) -> (r: AccountProvisioningResult)
    ensures
        r.account_id@ == account_id@,
        r.opaque_locator == locator,
        r.lifecycle == AccountDatabaseLifecycle::Active,
        r.quarantine_locator is None,
{
    AccountProvisioningResult {
        account_id: account_id.to_owned(),
        opaque_locator: locator,
        lifecycle: AccountDatabaseLifecycle::Active,
        quarantine_locator: None,
    }
}

/// The result reported for a quarantined account.
pub fn quarantined_result(account_id: &str, locator: String, quarantine: String) -> (r: AccountProvisioningResult)
    ensures
        r.account_id@ == account_id@,
        r.opaque_locator == locator,
        r.lifecycle == AccountDatabaseLifecycle::Quarantined,
        r.quarantine_locator == Some(quarantine),
{
    AccountProvisioningResult {
        account_id: account_id.to_owned(),
        opaque_locator: locator,
        lifecycle: AccountDatabaseLifecycle::Quarantined,
        quarantine_locator: Some(quarantine),
    }
}

/// What deprovisioning does, given the durable lifecycle and which files exist.
#[derive(Clone, Copy, Debug, PartialEq, Eq, Structural)]
pub enum DeprovisionRoute {
    /// The account is already quarantined and its file is in quarantine: report it.
    AlreadyQuarantined,
    /// The file already reached quarantine: record the quarantine and report it.
    RecordQuarantine,
    /// Neither file exists: mark the account unavailable and fail.
    FileMissing,
    /// Record the deletion, then move the active file into quarantine.
    Quarantine,
}

pub open spec fn deprovision_route_of(lifecycle: Seq<char>, active_exists: bool, quarantine_exists: bool) -> DeprovisionRoute {
    if lifecycle == "quarantined"@ && quarantine_exists {
        DeprovisionRoute::AlreadyQuarantined
    } else if !active_exists && quarantine_exists {
        DeprovisionRoute::RecordQuarantine
    } else if !active_exists {
        DeprovisionRoute::FileMissing
    } else {
        DeprovisionRoute::Quarantine
    }
}

/// Routes deprovisioning. Deprovisioning never deletes a file: it only moves the active file
/// into quarantine.
pub fn deprovision_route(lifecycle: &str, active_exists: bool, quarantine_exists: bool) -> (r: DeprovisionRoute)
    ensures
        r == deprovision_route_of(lifecycle@, active_exists, quarantine_exists),
{
    if text_eq(lifecycle, "quarantined") && quarantine_exists {
        DeprovisionRoute::AlreadyQuarantined
    } else if !active_exists && quarantine_exists {
        DeprovisionRoute::RecordQuarantine
    } else if !active_exists {
        DeprovisionRoute::FileMissing
    } else {
        DeprovisionRoute::Quarantine
    }
}

/// What reconciliation does with one registry entry.
#[derive(Clone, Copy, Debug, PartialEq, Eq, Structural)]
pub enum ReconcileRoute {
    /// An interrupted provisioning: run provisioning again.
    ResumeProvisioning,
    /// An interrupted deletion: run deprovisioning again.
    ResumeDeprovisioning,
    /// An active account: check that its file exists and verifies.
    CheckActive,
    /// Nothing to do.
    Skip,
    /// A lifecycle this release does not know.
    Unsupported,
}

pub open spec fn reconcile_route_of(lifecycle: Seq<char>) -> ReconcileRoute {
    if lifecycle == "reserved"@ || lifecycle == "creating"@ || lifecycle == "migrating"@ || lifecycle
        == "verifying"@ {
        ReconcileRoute::ResumeProvisioning
    } else if lifecycle == "deleting"@ {
        ReconcileRoute::ResumeDeprovisioning
    } else if lifecycle == "active"@ {
        ReconcileRoute::CheckActive
    } else if lifecycle == "unavailable"@ || lifecycle == "quarantined"@ {
        ReconcileRoute::Skip
    } else {
        ReconcileRoute::Unsupported
    }
}

/// Routes one registry entry during reconciliation.
pub fn reconcile_route(lifecycle: &str) -> (r: ReconcileRoute)
    ensures
        r == reconcile_route_of(lifecycle@),
{
    if text_eq(lifecycle, "reserved") || text_eq(lifecycle, "creating") || text_eq(lifecycle, "migrating")
        || text_eq(lifecycle, "verifying") {
        ReconcileRoute::ResumeProvisioning
    } else if text_eq(lifecycle, "deleting") {
        ReconcileRoute::ResumeDeprovisioning
    } else if text_eq(lifecycle, "active") {
        ReconcileRoute::CheckActive
    } else if text_eq(lifecycle, "unavailable") || text_eq(lifecycle, "quarantined") {
        ReconcileRoute::Skip
    } else {
        ReconcileRoute::Unsupported
    }
}

/// The failure line of an account: its identifier, `": "` and the message.
pub fn failure_line(account_id: &str, message: &str) -> (r: String)
    ensures
        r@ == account_id@ + ": "@ + message@,
{
    let mut line = account_id.to_owned();
    string_push_str(&mut line, ": ");
    string_push_str(&mut line, message);
    line
}

/// The failure line of an account whose lifecycle this release does not know.
pub fn unsupported_lifecycle_line(account_id: &str, lifecycle: &str) -> (r: String)
    ensures
        r@ == account_id@ + ": unsupported lifecycle "@ + lifecycle@,
{
    let mut line = account_id.to_owned();
    string_push_str(&mut line, ": unsupported lifecycle ");
    string_push_str(&mut line, lifecycle);
    line
}

/// A database file in the account directory is orphaned when no registry entry uses its name.
pub fn is_orphan(name: &str, registered_locators: &Vec<String>) -> (r: bool)
    ensures
        r == !registered_locators@.map_values(|s: String| s@).contains(name@),
{
    let owned = name.to_owned();
    let mut k: usize = 0;
    while k < registered_locators.len()
        invariant
            k <= registered_locators@.len(),
            owned@ == name@,
            forall|j: int| 0 <= j < k ==> (#[trigger] registered_locators@[j])@ != name@,
        decreases registered_locators.len() - k,
    {
        if registered_locators[k] == owned {
            proof {
                assert(registered_locators@.map_values(|s: String| s@)[k as int] == name@);
            }
            return false;
        }
        k += 1;
    }
    proof {
        let m = registered_locators@.map_values(|s: String| s@);
        if m.contains(name@) {
            let j = choose|j: int| 0 <= j < m.len() && m[j] == name@;
            assert(registered_locators@[j]@ == name@);
        }
    }
    true
}

/// The texts in ascending order without loss.
pub open spec fn sorted_texts(after: Seq<String>, before: Seq<String>) -> bool {
    &&& after.map_values(|s: String| s@).to_multiset() == before.map_values(|s: String| s@).to_multiset()
    &&& forall|i: int, j: int| 0 <= i < j < after.len() ==> !text_lt(#[trigger] after[j]@, #[trigger] after[i]@)
}

impl ReconciliationReport {
    /// An empty report.
    pub fn new() -> (r: Self)
        ensures
            r.resumed_accounts@.len() == 0,
            r.unavailable_accounts@.len() == 0,
            r.quarantined_orphans@.len() == 0,
            r.failures@.len() == 0,
    {
        ReconciliationReport {
            resumed_accounts: Vec::new(),
            unavailable_accounts: Vec::new(),
            quarantined_orphans: Vec::new(),
            failures: Vec::new(),
        }
    }

    /// Records that reconciling an account failed: its failure line joins the failures and the
    /// pass goes on with the next account.
    pub fn record_failure(&mut self, account_id: &str, message: &str)
        ensures
            final(self).failures@.len() == old(self).failures@.len() + 1,
            final(self).failures@.drop_last() == old(self).failures@,
            final(self).failures@.last()@ == account_id@ + ": "@ + message@,
            final(self).resumed_accounts@ == old(self).resumed_accounts@,
            final(self).unavailable_accounts@ == old(self).unavailable_accounts@,
            final(self).quarantined_orphans@ == old(self).quarantined_orphans@,
    {
        let line = failure_line(account_id, message);
        self.failures.push(line);
        proof {
            assert(self.failures@.drop_last() =~= old(self).failures@);
        }
    }

    /// Sorts every list of the report, so that it does not depend on the order of discovery.
    pub fn finish(&mut self)
        ensures
            sorted_texts(final(self).resumed_accounts@, old(self).resumed_accounts@),
            sorted_texts(final(self).unavailable_accounts@, old(self).unavailable_accounts@),
            sorted_texts(final(self).quarantined_orphans@, old(self).quarantined_orphans@),
            sorted_texts(final(self).failures@, old(self).failures@),
    {
        sort_texts(&mut self.resumed_accounts);
        sort_texts(&mut self.unavailable_accounts);
        sort_texts(&mut self.quarantined_orphans);
        sort_texts(&mut self.failures);
    }
}

/// Reconciliation and provisioning agree: the lifecycles reconciliation resumes by provisioning
/// are exactly those provisioning builds from, deletions that reconciliation resumes are refused
/// by provisioning, and an active account is checked, never rebuilt.
pub proof fn reconciliation_agrees_with_provisioning(lifecycle: Seq<char>)
    ensures
        reconcile_route_of(lifecycle) == ReconcileRoute::ResumeProvisioning ==> provision_route_of(lifecycle)
            == ProvisionRoute::Build,
        reconcile_route_of(lifecycle) == ReconcileRoute::ResumeDeprovisioning ==> provision_route_of(lifecycle)
            == ProvisionRoute::Refuse,
        reconcile_route_of(lifecycle) == ReconcileRoute::CheckActive ==> provision_route_of(lifecycle)
            == ProvisionRoute::AlreadyActive,
{
    reveal_strlit("active");
    reveal_strlit("unavailable");
    reveal_strlit("quarantined");
    reveal_strlit("deleting");
    reveal_strlit("reserved");
    reveal_strlit("creating");
    reveal_strlit("migrating");
    reveal_strlit("verifying");
    if reconcile_route_of(lifecycle) == ReconcileRoute::ResumeProvisioning {
        assert(lifecycle[0] == 'r' || lifecycle[0] == 'c' || lifecycle[0] == 'm' || lifecycle[0] == 'v');
    }
    if reconcile_route_of(lifecycle) == ReconcileRoute::ResumeDeprovisioning {
        assert(lifecycle[0] == 'd');
    }
}

} // verus!
