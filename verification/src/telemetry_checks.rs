//! Record checks of the telemetry store.
use crate::text::text_eq;
use vstd::prelude::*;

verus! {

/// Failure of the telemetry store. Failures of the database, of account routing and of JSON
/// values carry their message.
#[derive(Clone, Debug, PartialEq, Eq)]
pub enum TelemetryRepositoryError {
    Sqlx(String),
    Routing(String),
    Json(String),
    InvalidRecord(&'static str),
    InvalidRange,
    UniquenessConflict,
    IdempotencyConflict,
    CorrectionConflict,
    InvalidStoredValue,
}

/// Whether an observation was stored or was already present.
#[derive(Clone, Copy, Debug, PartialEq, Eq, Structural)]
pub enum ObservationInsertOutcome {
    Inserted,
    Duplicate,
}

/// A telemetry range is non-empty.
pub fn validate_range(start: i64, end: i64) -> (r: Result<(), TelemetryRepositoryError>)
    ensures
        r is Ok <==> start < end,
        r matches Err(e) ==> e is InvalidRange,
{
    if end <= start {
        Err(TelemetryRepositoryError::InvalidRange)
    } else {
        Ok(())
    }
}

/// An observation names its source, has a positive version and 16-bit quality flags.
pub fn validate_observation(source_identity: &str, version: i64, quality_flags: i64) -> (r: Result<
    (),
    TelemetryRepositoryError,
>)
    ensures
        r is Ok <==> source_identity@.len() > 0 && version > 0 && 0 <= quality_flags <= 65535,
        r matches Err(e) ==> (e matches TelemetryRepositoryError::InvalidRecord(m) && m@ == "observation"@),
{
    if source_identity.is_empty() || version <= 0 || !(0 <= quality_flags && quality_flags <= 65535) {
        return Err(TelemetryRepositoryError::InvalidRecord("observation"));
    }
    Ok(())
}

/// An idempotency record has a key and an operation and expires after it was created.
pub fn validate_idempotency(key: &str, operation: &str, created_at: i64, expires_at: i64) -> (r: Result<
    (),
    TelemetryRepositoryError,
>)
    ensures
        r is Ok <==> key@.len() > 0 && operation@.len() > 0 && expires_at > created_at,
        r matches Err(e) ==> (e matches TelemetryRepositoryError::InvalidRecord(m) && m@ == "idempotency"@),
{
    if key.is_empty() || operation.is_empty() || expires_at <= created_at {
        return Err(TelemetryRepositoryError::InvalidRecord("idempotency"));
    }
    Ok(())
}

/// A correction replaces with a value or deletes without one, expects a positive version and
/// gives a reason.
pub fn validate_correction(operation: &str, has_replacement: bool, expected_version: i64, reason: &str) -> (r:
    Result<(), TelemetryRepositoryError>)
    ensures
        r is Ok <==> ((operation@ == "replace"@ && has_replacement) || (operation@ == "delete"@
            && !has_replacement)) && expected_version > 0 && reason@.len() > 0,
        r matches Err(e) ==> (e matches TelemetryRepositoryError::InvalidRecord(m) && m@ == "correction"@),
{
    proof {
        reveal_strlit("replace");
        reveal_strlit("delete");
        assert("replace"@[0] != "delete"@[0]);
    }
    let valid = if text_eq(operation, "replace") {
        has_replacement
    } else if text_eq(operation, "delete") {
        !has_replacement
    } else {
        false
    };
    if !valid || expected_version <= 0 || reason.is_empty() {
        return Err(TelemetryRepositoryError::InvalidRecord("correction"));
    }
    Ok(())
}

/// A stored idempotency record answers a repeated request only when the request hashes alike.
pub fn idempotency_replay(existing_hash: &[u8; 32], requested_hash: &[u8; 32]) -> (r: Result<
    (),
    TelemetryRepositoryError,
>)
    ensures
        r is Ok <==> existing_hash@ == requested_hash@,
        r matches Err(e) ==> e is IdempotencyConflict,
{
    let mut k: usize = 0;
    while k < 32
        invariant
            k <= 32,
            existing_hash@.len() == 32,
            requested_hash@.len() == 32,
            forall|j: int| 0 <= j < k ==> existing_hash@[j] == requested_hash@[j],
        decreases 32 - k,
    {
        if existing_hash[k] != requested_hash[k] {
            return Err(TelemetryRepositoryError::IdempotencyConflict);
        }
        k += 1;
    }
    proof {
        assert(existing_hash@ =~= requested_hash@);
    }
    Ok(())
}

} // verus!
