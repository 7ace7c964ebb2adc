//! Record checks of the management store.
use crate::text::{blank, is_blank, text_eq};
use vstd::prelude::*;

verus! {

/// Failure of the management store. Failures of the database and of JSON values carry their
/// message.
#[derive(Clone, Debug, PartialEq, Eq)]
pub enum ManagementRepositoryError {
    Sqlx(String),
    Json(String),
    InvalidRecord(&'static str),
    InvalidStoredIdentifier,
    InvalidStoredDigest,
    AdapterDisabled(&'static str),
}

/// Where an account's data lives.
#[derive(Clone, Copy, Debug, PartialEq, Eq, Structural)]
pub enum RoutingBackend {
    Sqlite,
    Postgres,
}

pub open spec fn user_status_known(s: Seq<char>) -> bool {
    s == "invited"@ || s == "active"@ || s == "disabled"@ || s == "deleted"@
}

pub open spec fn account_status_known(s: Seq<char>) -> bool {
    s == "provisioning"@ || s == "active"@ || s == "suspended"@ || s == "quarantined"@ || s == "deleting"@
        || s == "deleted"@
}

pub open spec fn membership_status_known(s: Seq<char>) -> bool {
    s == "invited"@ || s == "active"@ || s == "suspended"@ || s == "revoked"@
}

pub open spec fn audit_outcome_known(s: Seq<char>) -> bool {
    s == "succeeded"@ || s == "denied"@ || s == "failed"@
}

/// A user has an email, a display name and a known status.
pub fn validate_user(email: &str, display_name: &str, status: &str) -> (r: Result<(), ManagementRepositoryError>)
    ensures
        r is Ok <==> !blank(email@) && !blank(display_name@) && user_status_known(status@),
        r matches Err(e) ==> (e matches ManagementRepositoryError::InvalidRecord(m) && m@ == "user"@),
{
    let known = text_eq(status, "invited") || text_eq(status, "active") || text_eq(status, "disabled")
        || text_eq(status, "deleted");
    if is_blank(email) || is_blank(display_name) || !known {
        return Err(ManagementRepositoryError::InvalidRecord("user"));
    }
    Ok(())
}

/// An account has a slug, a display name and a known status.
pub fn validate_account(slug: &str, display_name: &str, status: &str) -> (r: Result<(), ManagementRepositoryError>)
    ensures
        r is Ok <==> !blank(slug@) && !blank(display_name@) && account_status_known(status@),
        r matches Err(e) ==> (e matches ManagementRepositoryError::InvalidRecord(m) && m@ == "account"@),
{
    let known = text_eq(status, "provisioning") || text_eq(status, "active") || text_eq(status, "suspended")
        || text_eq(status, "quarantined") || text_eq(status, "deleting") || text_eq(status, "deleted");
    if is_blank(slug) || is_blank(display_name) || !known {
        return Err(ManagementRepositoryError::InvalidRecord("account"));
    }
    Ok(())
}

/// A membership has a known status.
pub fn validate_membership(status: &str) -> (r: Result<(), ManagementRepositoryError>)
    ensures
        r is Ok <==> membership_status_known(status@),
        r matches Err(e) ==> (e matches ManagementRepositoryError::InvalidRecord(m) && m@ == "membership"@),
{
    if !(text_eq(status, "invited") || text_eq(status, "active") || text_eq(status, "suspended") || text_eq(
        status,
        "revoked",
    )) {
        return Err(ManagementRepositoryError::InvalidRecord("membership"));
    }
    Ok(())
}

/// A session's idle expiry is not after its absolute expiry.
pub fn validate_session(idle_expires_at: i64, absolute_expires_at: i64) -> (r: Result<(), ManagementRepositoryError>)
    ensures
        r is Ok <==> idle_expires_at <= absolute_expires_at,
        r matches Err(e) ==> (e matches ManagementRepositoryError::InvalidRecord(m) && m@ == "session"@),
{
    if idle_expires_at > absolute_expires_at {
        return Err(ManagementRepositoryError::InvalidRecord("session"));
    }
    Ok(())
}

/// An API credential has a name and at least one scope.
pub fn validate_credential(name: &str, scope_count: usize) -> (r: Result<(), ManagementRepositoryError>)
    ensures
        r is Ok <==> !blank(name@) && scope_count > 0,
        r matches Err(e) ==> (e matches ManagementRepositoryError::InvalidRecord(m) && m@ == "api_credential"@),
{
    if is_blank(name) || scope_count == 0 {
        return Err(ManagementRepositoryError::InvalidRecord("api_credential"));
    }
    Ok(())
}

/// An audit event names its action and target type and has a known outcome.
pub fn validate_audit(action: &str, target_type: &str, outcome: &str) -> (r: Result<(), ManagementRepositoryError>)
    ensures
        r is Ok <==> !blank(action@) && !blank(target_type@) && audit_outcome_known(outcome@),
        r matches Err(e) ==> (e matches ManagementRepositoryError::InvalidRecord(m) && m@ == "audit"@),
{
    let known = text_eq(outcome, "succeeded") || text_eq(outcome, "denied") || text_eq(outcome, "failed");
    if is_blank(action) || is_blank(target_type) || !known {
        return Err(ManagementRepositoryError::InvalidRecord("audit"));
    }
    Ok(())
}

/// The state an accepted invitation gives its user: `active` with the email verified at `now`
/// when the acceptance activates the account, otherwise `invited` with no verification time.
pub fn accepted_user_state(activated: bool, now: i64) -> (r: (&'static str, Option<i64>))
    ensures
        activated ==> r.0@ == "active"@ && r.1 == Some(now),
        !activated ==> r.0@ == "invited"@ && r.1 is None,
{
    if activated {
        ("active", Some(now))
    } else {
        ("invited", None)
    }
}

} // verus!
