//! Record checks of the account configuration store.
use crate::text::{blank, is_blank};
use vstd::prelude::*;

verus! {

/// Failure of the account configuration store. Failures of the database, of account routing
/// and of JSON values carry their message.
#[derive(Clone, Debug, PartialEq, Eq)]
pub enum AccountRepositoryError {
    Sqlx(String),
    Routing(String),
    Json(String),
    InvalidRecord(&'static str),
    InvalidEffectiveRange,
    InvalidStoredValue,
}

/// An effective range ends, when it ends, after it starts.
pub fn validate_range(from: i64, to: Option<i64>) -> (r: Result<(), AccountRepositoryError>)
    ensures
        r is Ok <==> !(to matches Some(t) && t <= from),
        r matches Err(e) ==> e is InvalidEffectiveRange,
{
    match to {
        Some(t) => if t <= from {
            Err(AccountRepositoryError::InvalidEffectiveRange)
        } else {
            Ok(())
        },
        None => Ok(()),
    }
}

/// A system needs a name and a time zone.
pub fn validate_system(name: &str, timezone: &str) -> (r: Result<(), AccountRepositoryError>)
    ensures
        r is Ok <==> !blank(name@) && !blank(timezone@),
        r matches Err(e) ==> (e matches AccountRepositoryError::InvalidRecord(m) && m@ == "system"@),
{
    if is_blank(name) || is_blank(timezone) {
        return Err(AccountRepositoryError::InvalidRecord("system"));
    }
    Ok(())
}

/// One PV string of an inverter, as its check sees it.
#[derive(Clone, Debug, PartialEq, Eq)]
pub struct PvStringFields {
    pub inverter_id: u128,
    pub name: String,
    pub panel_count: u32,
    pub rated_power_watts: i64,
    pub orientation_degrees: Option<u16>,
    pub tilt_degrees: Option<u16>,
    pub effective_from: i64,
    pub effective_to: Option<i64>,
}

pub open spec fn range_valid(from: i64, to: Option<i64>) -> bool {
    !(to matches Some(t) && t <= from)
}

/// A string belongs to its inverter, is named, has panels and power, and a plausible
/// orientation and tilt.
pub open spec fn string_valid(s: PvStringFields, inverter_id: u128) -> bool {
    &&& s.inverter_id == inverter_id
    &&& !blank(s.name@)
    &&& s.panel_count != 0
    &&& s.rated_power_watts > 0
    &&& !(s.orientation_degrees matches Some(o) && o > 359)
    &&& !(s.tilt_degrees matches Some(t) && t > 90)
}

/// The first failure among the strings, checked in order: a bad range, then a bad string.
pub open spec fn strings_error(strings: Seq<PvStringFields>, inverter_id: u128) -> Option<AccountRepositoryError>
    decreases strings.len(),
{
    if strings.len() == 0 {
        None
    } else {
        match strings_error(strings.drop_last(), inverter_id) {
            Some(e) => Some(e),
            None => {
                let s = strings.last();
                if !range_valid(s.effective_from, s.effective_to) {
                    Some(AccountRepositoryError::InvalidEffectiveRange)
                } else if !string_valid(s, inverter_id) {
                    Some(AccountRepositoryError::InvalidRecord("PV string"))
                } else {
                    None
                }
            },
        }
    }
}

/// An inverter has a valid range, a name, at least one string, and valid strings.
pub fn validate_inverter(
    id: u128,
    name: &str,
    effective_from: i64,
    effective_to: Option<i64>,
    strings: &Vec<PvStringFields>,
) -> (r: Result<(), AccountRepositoryError>)
    ensures
        r == if !range_valid(effective_from, effective_to) {
            Err(AccountRepositoryError::InvalidEffectiveRange)
        } else if blank(name@) || strings@.len() == 0 {
            Err(AccountRepositoryError::InvalidRecord("inverter"))
        } else {
            match strings_error(strings@, id) {
                Some(e) => Err(e),
                None => Ok(()),
            }
        },
{
    match validate_range(effective_from, effective_to) {
        Ok(()) => {},
        Err(e) => return Err(e),
    }
    if is_blank(name) || strings.len() == 0 {
        return Err(AccountRepositoryError::InvalidRecord("inverter"));
    }
    let mut k: usize = 0;
    while k < strings.len()
        invariant
            k <= strings@.len(),
            range_valid(effective_from, effective_to),
            !blank(name@),
            strings@.len() > 0,
            strings_error(strings@.take(k as int), id) is None,
        decreases strings.len() - k,
    {
        let s = &strings[k];
        proof {
            assert(strings@.take(k as int + 1).drop_last() =~= strings@.take(k as int));
            assert(strings@.take(k as int + 1).last() == *s);
            lemma_strings_error_prefix(strings@, id, k as int + 1);
        }
        match validate_range(s.effective_from, s.effective_to) {
            Ok(()) => {},
            Err(e) => {
                proof {
                    let t = strings@.take(k as int + 1);
                    assert(strings_error(t, id) == Some(AccountRepositoryError::InvalidEffectiveRange));
                }
                return Err(e);
            },
        }
        let orientation_bad = match s.orientation_degrees {
            Some(o) => o > 359,
            None => false,
        };
        let tilt_bad = match s.tilt_degrees {
            Some(t) => t > 90,
            None => false,
        };
        if s.inverter_id != id || is_blank(s.name.as_str()) || s.panel_count == 0 || s.rated_power_watts <= 0
            || orientation_bad || tilt_bad {
            let e = AccountRepositoryError::InvalidRecord("PV string");
            proof {
                let t = strings@.take(k as int + 1);
                assert(!string_valid(*s, id));
                assert(strings_error(t, id) == Some(e));
            }
            return Err(e);
        }
        k += 1;
    }
    proof {
        assert(strings@.take(k as int) =~= strings@);
    }
    Ok(())
}

/// Once an error is found among the first `n` strings, it is the error of every longer prefix.
proof fn lemma_strings_error_prefix(strings: Seq<PvStringFields>, id: u128, n: int)
    requires
        0 <= n <= strings.len(),
    ensures
        strings_error(strings.take(n), id) is Some ==> strings_error(strings, id) == strings_error(
            strings.take(n),
            id,
        ),
    decreases strings.len() - n,
{
    if n < strings.len() {
        lemma_strings_error_prefix(strings, id, n + 1);
        assert(strings.take(n + 1).drop_last() =~= strings.take(n));
    } else {
        assert(strings.take(n) =~= strings);
    }
}

/// An audit record names its action and target type.
pub fn validate_audit(action: &str, target_type: &str) -> (r: Result<(), AccountRepositoryError>)
    ensures
        r is Ok <==> !blank(action@) && !blank(target_type@),
        r matches Err(e) ==> (e matches AccountRepositoryError::InvalidRecord(m) && m@ == "audit"@),
{
    if is_blank(action) || is_blank(target_type) {
        return Err(AccountRepositoryError::InvalidRecord("audit"));
    }
    Ok(())
}

} // verus!
