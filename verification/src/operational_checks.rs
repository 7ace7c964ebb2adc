//! Record checks of the operational store.
use vstd::prelude::*;

verus! {

/// Failure of the operational store. Failures of the database, of account routing and of JSON
/// values carry their message.
#[derive(Clone, Debug, PartialEq, Eq)]
pub enum OperationalRepositoryError {
    Sqlx(String),
    Routing(String),
    Json(String),
    InvalidPeriod,
    AccountMismatch,
    InvalidStoredValue,
}

/// A reporting period is non-empty.
pub fn validate_period(start: i64, end: i64) -> (r: Result<(), OperationalRepositoryError>)
    ensures
        r is Ok <==> start < end,
        r matches Err(e) ==> e is InvalidPeriod,
{
    if end <= start {
        Err(OperationalRepositoryError::InvalidPeriod)
    } else {
        Ok(())
    }
}

} // verus!
