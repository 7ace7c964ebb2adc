//! State and retention rules of modeled-yield calculation runs.
use crate::text::{blank, is_blank, text_eq};
use crate::yield_forecast::ForecastRetentionClass;
use vstd::prelude::*;
use vstd::string::{StrSliceExecFns, StringSliceAdditionalSpecFns};

verus! {

/// Lifecycle of one calculation run.
#[derive(Clone, Copy, Debug, PartialEq, Eq, Structural)]
pub enum YieldCalculationState {
    Pending,
    Running,
    Completed,
    Failed,
    Superseded,
}

pub open spec fn calculation_state_name(s: YieldCalculationState) -> Seq<char> {
    match s {
        YieldCalculationState::Pending => "pending"@,
        YieldCalculationState::Running => "running"@,
        YieldCalculationState::Completed => "completed"@,
        YieldCalculationState::Failed => "failed"@,
        YieldCalculationState::Superseded => "superseded"@,
    }
}

/// Failure of the yield result store. Failures of the database, of account routing, of
/// identifiers and of JSON values carry their message.
#[derive(Clone, Debug, PartialEq, Eq)]
pub enum YieldResultRepositoryError {
    Sqlx(String),
    SqliteRouting(String),
    Identifier(String),
    Json(String),
    Validation(&'static str),
    Conflict(&'static str),
    Corrupt(&'static str),
}

impl YieldCalculationState {
    /// The stored name of the state.
    pub fn as_str(self) -> (r: &'static str)
        ensures
            r@ == calculation_state_name(self),
    {
        match self {
            YieldCalculationState::Pending => "pending",
            YieldCalculationState::Running => "running",
            YieldCalculationState::Completed => "completed",
            YieldCalculationState::Failed => "failed",
            YieldCalculationState::Superseded => "superseded",
        }
    }

    /// The state with the given stored name.
    pub fn parse(value: &str) -> (r: Result<Self, YieldResultRepositoryError>)
        ensures
            match r {
                Ok(s) => calculation_state_name(s) == value@,
                Err(e) => value@ != "pending"@ && value@ != "running"@ && value@ != "completed"@ && value@
                    != "failed"@ && value@ != "superseded"@ && (e matches YieldResultRepositoryError::Corrupt(
                    m,
                ) && m@ == "unknown calculation state"@),
            },
    {
        if text_eq(value, "pending") {
            Ok(YieldCalculationState::Pending)
        } else if text_eq(value, "running") {
            Ok(YieldCalculationState::Running)
        } else if text_eq(value, "completed") {
            Ok(YieldCalculationState::Completed)
        } else if text_eq(value, "failed") {
            Ok(YieldCalculationState::Failed)
        } else if text_eq(value, "superseded") {
            Ok(YieldCalculationState::Superseded)
        } else {
            Err(YieldResultRepositoryError::Corrupt("unknown calculation state"))
        }
    }
}

/// Distinct calculation states have distinct stored names, so every state reads back as itself.
pub proof fn calculation_state_names_are_distinct(a: YieldCalculationState, b: YieldCalculationState)
    ensures
        calculation_state_name(a) == calculation_state_name(b) ==> a == b,
        calculation_state_name(a) == "pending"@ || calculation_state_name(a) == "running"@
            || calculation_state_name(a) == "completed"@ || calculation_state_name(a) == "failed"@
            || calculation_state_name(a) == "superseded"@,
{
    reveal_strlit("pending");
    reveal_strlit("running");
    reveal_strlit("completed");
    reveal_strlit("failed");
    reveal_strlit("superseded");
    assert("pending"@.len() == 7 && "running"@.len() == 7 && "completed"@.len() == 9);
    assert("failed"@.len() == 6 && "superseded"@.len() == 10);
    assert("pending"@[0] == 'p' && "running"@[0] == 'r');
}

/// Why modeled results of a range must be recalculated.
#[derive(Clone, Copy, Debug, PartialEq, Eq, Structural)]
pub enum YieldInvalidationReason {
    Equipment,
    Settings,
    ProviderRevision,
    LateTelemetry,
    Correction,
    ModelVersion,
}

impl YieldInvalidationReason {
    /// The stored name of the reason.
    pub fn as_str(self) -> (r: &'static str)
        ensures
            r@ == match self {
                YieldInvalidationReason::Equipment => "equipment"@,
                YieldInvalidationReason::Settings => "settings"@,
                YieldInvalidationReason::ProviderRevision => "provider_revision"@,
                YieldInvalidationReason::LateTelemetry => "late_telemetry"@,
                YieldInvalidationReason::Correction => "correction"@,
                YieldInvalidationReason::ModelVersion => "model_version"@,
            },
    {
        match self {
            YieldInvalidationReason::Equipment => "equipment",
            YieldInvalidationReason::Settings => "settings",
            YieldInvalidationReason::ProviderRevision => "provider_revision",
            YieldInvalidationReason::LateTelemetry => "late_telemetry",
            YieldInvalidationReason::Correction => "correction",
            YieldInvalidationReason::ModelVersion => "model_version",
        }
    }
}

/// Progress of one recalculation request.
#[derive(Clone, Copy, Debug, PartialEq, Eq, Structural)]
pub enum YieldInvalidationState {
    Pending,
    Leased,
    Completed,
    Failed,
}

/// A referenced run has a reference time and only a referenced run has one; a working run has
/// an expiry.
pub fn validate_retention(
    retention_class: ForecastRetentionClass,
    retain_until: Option<i64>,
    referenced_at: Option<i64>,
) -> (r: Result<(), YieldResultRepositoryError>)
    ensures
        r == if retention_class == ForecastRetentionClass::Referenced && referenced_at is None {
            Err(YieldResultRepositoryError::Validation("referenced result retention requires a reference time"))
        } else if retention_class != ForecastRetentionClass::Referenced && referenced_at is Some {
            Err(
                YieldResultRepositoryError::Validation(
                    "only referenced calculation runs may carry a reference time",
                ),
            )
        } else if retention_class == ForecastRetentionClass::Working && retain_until is None {
            Err(YieldResultRepositoryError::Validation("working calculation retention requires an expiry"))
        } else {
            Ok(())
        },
{
    if retention_class == ForecastRetentionClass::Referenced && referenced_at.is_none() {
        return Err(YieldResultRepositoryError::Validation("referenced result retention requires a reference time"));
    }
    if retention_class != ForecastRetentionClass::Referenced && referenced_at.is_some() {
        return Err(
            YieldResultRepositoryError::Validation("only referenced calculation runs may carry a reference time"),
        );
    }
    if retention_class == ForecastRetentionClass::Working && retain_until.is_none() {
        return Err(YieldResultRepositoryError::Validation("working calculation retention requires an expiry"));
    }
    Ok(())
}

/// A purge handles between 1 and 10000 runs.
pub fn validate_retention_limit(limit: u32) -> (r: Result<(), YieldResultRepositoryError>)
    ensures
        r is Ok <==> 1 <= limit <= 10_000,
        r matches Err(e) ==> e == YieldResultRepositoryError::Validation("retention limit must be between 1 and 10000"),
{
    if limit == 0 || limit > 10_000 {
        Err(YieldResultRepositoryError::Validation("retention limit must be between 1 and 10000"))
    } else {
        Ok(())
    }
}

/// A safe error code holds more than whitespace and at most 128 bytes of UTF-8.
pub open spec fn error_code_valid(code: &str) -> bool {
    !blank(code@) && code.spec_bytes().len() <= 128
}

/// Whether a run's state, completion time and safe error code agree: a run is terminal exactly
/// when it carries a completion time, and a safe error code, when given, is valid.
pub open spec fn state_outcome(state: YieldCalculationState, completed_at: Option<i64>, code: Option<&str>) -> Result<
    (),
    YieldResultRepositoryError,
> {
    if (state == YieldCalculationState::Completed || state == YieldCalculationState::Failed) != (completed_at is Some) {
        Err(YieldResultRepositoryError::Validation("terminal calculation state and completion time must agree"))
    } else if code matches Some(c) && !error_code_valid(c) {
        Err(YieldResultRepositoryError::Validation("safe calculation error code is invalid"))
    } else {
        Ok(())
    }
}

pub open spec fn opt_str(s: Option<&str>) -> Option<Seq<char>> {
    match s {
        Some(t) => Some(t@),
        None => None,
    }
}

/// A run is terminal exactly when it carries a completion time, and a safe error code, when
/// given, is valid.
pub fn validate_state(state: YieldCalculationState, completed_at: Option<i64>, safe_error_code: Option<&str>) -> (r:
    Result<(), YieldResultRepositoryError>)
    ensures
        r == state_outcome(state, completed_at, safe_error_code),
{
    let terminal = match state {
        YieldCalculationState::Completed => true,
        YieldCalculationState::Failed => true,
        _ => false,
    };
    if terminal != completed_at.is_some() {
        return Err(YieldResultRepositoryError::Validation("terminal calculation state and completion time must agree"));
    }
    let code_bad = match safe_error_code {
        Some(code) => is_blank(code) || code.as_bytes().len() > 128,
        None => false,
    };
    if code_bad {
        return Err(YieldResultRepositoryError::Validation("safe calculation error code is invalid"));
    }
    Ok(())
}

/// A stored quantity read back from a row must not be negative.
pub fn nonnegative_i64(value: i64, field: &'static str) -> (r: Result<i64, YieldResultRepositoryError>)
    ensures
        match r {
            Ok(v) => value >= 0 && v == value,
            Err(e) => value < 0 && e == YieldResultRepositoryError::Corrupt(field),
        },
{
    if value >= 0 {
        Ok(value)
    } else {
        Err(YieldResultRepositoryError::Corrupt(field))
    }
}

/// A run needs an idempotency key and a model version, and a consistent state.
pub fn validate_run(
    idempotency_key: &str,
    model_identifier: &str,
    model_revision: u16,
    state: YieldCalculationState,
    completed_at: Option<i64>,
    safe_error_code: Option<&str>,
) -> (r: Result<(), YieldResultRepositoryError>)
    ensures
        r == if blank(idempotency_key@) || blank(model_identifier@) || model_revision == 0 {
            Err(YieldResultRepositoryError::Validation("calculation idempotency key and model version are required"))
        } else {
            state_outcome(state, completed_at, safe_error_code)
        },
{
    if is_blank(idempotency_key) || is_blank(model_identifier) || model_revision == 0 {
        return Err(YieldResultRepositoryError::Validation("calculation idempotency key and model version are required"));
    }
    validate_state(state, completed_at, safe_error_code)
}

/// A new invalidation is pending, not completed, and has an idempotency key.
pub fn validate_invalidation(idempotency_key: &str, state: YieldInvalidationState, completed_at: Option<i64>) -> (r:
    Result<(), YieldResultRepositoryError>)
    ensures
        r is Ok <==> !blank(idempotency_key@) && state == YieldInvalidationState::Pending && completed_at is None,
        r matches Err(e) ==> e == YieldResultRepositoryError::Validation("new invalidation must be pending with an idempotency key"),
{
    if is_blank(idempotency_key) || state != YieldInvalidationState::Pending || completed_at.is_some() {
        return Err(YieldResultRepositoryError::Validation("new invalidation must be pending with an idempotency key"));
    }
    Ok(())
}

/// A result query returns between 1 and 10000 rows.
pub fn validate_query_limit(limit: u32) -> (r: Result<(), YieldResultRepositoryError>)
    ensures
        r is Ok <==> 1 <= limit <= 10_000,
        r matches Err(e) ==> e == YieldResultRepositoryError::Validation("result query limit must be between 1 and 10000"),
{
    if limit == 0 || limit > 10_000 {
        Err(YieldResultRepositoryError::Validation("result query limit must be between 1 and 10000"))
    } else {
        Ok(())
    }
}

/// Pending, running and superseded runs are still open, completed and failed runs are
/// terminal: without an error code a run is accepted exactly when it carries a completion time
/// if and only if it is terminal. An error code that holds more than whitespace and at most 128
/// bytes never changes the answer; a blank or longer one is refused.
pub proof fn run_completion_agrees_with_state(
    state: YieldCalculationState,
    completed_at: Option<i64>,
    code: &str,
)
    ensures
        state == YieldCalculationState::Pending ==> (state_outcome(state, completed_at, None) is Ok <==> completed_at is None),
        state == YieldCalculationState::Running ==> (state_outcome(state, completed_at, None) is Ok <==> completed_at is None),
        state == YieldCalculationState::Superseded ==> (state_outcome(state, completed_at, None) is Ok <==> completed_at is None),
        state == YieldCalculationState::Completed ==> (state_outcome(state, completed_at, None) is Ok <==> completed_at is Some),
        state == YieldCalculationState::Failed ==> (state_outcome(state, completed_at, None) is Ok <==> completed_at is Some),
        !blank(code@) && code.spec_bytes().len() <= 128 ==> state_outcome(state, completed_at, Some(code))
            == state_outcome(state, completed_at, None),
        blank(code@) || code.spec_bytes().len() > 128 ==> state_outcome(state, completed_at, Some(code)) is Err,
{
}

} // verus!
