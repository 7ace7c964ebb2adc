//! Checks of instance-wide configuration settings.
use crate::text::text_eq;
use vstd::prelude::*;
use vstd::string::StringSliceAdditionalSpecFns;

verus! {

/// Failure of the administration store. Failures of the database and of JSON values carry
/// their message.
#[derive(Clone, Debug, PartialEq, Eq)]
pub enum AdministrationRepositoryError {
    Invalid,
    Database(String),
    Json(String),
}

/// A key byte is a lowercase letter, a digit, `.`, `_` or `-`.
pub open spec fn key_byte(b: u8) -> bool {
    (0x61 <= b <= 0x7a) || (0x30 <= b <= 0x39) || b == 0x2e || b == 0x5f || b == 0x2d
}

/// A configuration key is 1 to 128 bytes of lowercase letters, digits, `.`, `_` and `-`.
pub open spec fn key_valid(bytes: Seq<u8>) -> bool {
    &&& 0 < bytes.len() <= 128
    &&& forall|i: int| 0 <= i < bytes.len() ==> key_byte(#[trigger] bytes[i])
}

/// Accepts only well-formed configuration keys.
pub fn validate_key(key: &str) -> (r: Result<(), AdministrationRepositoryError>)
    ensures
        r is Ok <==> key_valid(key.spec_bytes()),
        r matches Err(e) ==> e is Invalid,
{
    let bytes = key.as_bytes();
    if bytes.len() == 0 || bytes.len() > 128 {
        return Err(AdministrationRepositoryError::Invalid);
    }
    let mut k: usize = 0;
    while k < bytes.len()
        invariant
            k <= bytes@.len(),
            bytes@ == key.spec_bytes(),
            0 < bytes@.len() <= 128,
            forall|i: int| 0 <= i < k ==> key_byte(#[trigger] bytes@[i]),
        decreases bytes.len() - k,
    {
        let b = bytes[k];
        let ok = (0x61 <= b && b <= 0x7a) || (0x30 <= b && b <= 0x39) || b == 0x2e || b == 0x5f || b == 0x2d;
        if !ok {
            return Err(AdministrationRepositoryError::Invalid);
        }
        k += 1;
    }
    Ok(())
}

pub open spec fn value_class_known(c: Seq<char>) -> bool {
    c == "public"@ || c == "internal"@ || c == "secret_reference"@
}

/// A setting has a valid key, a known value class and a non-negative update time.
pub fn validate_configuration(key: &str, value_class: &str, updated_at: i64) -> (r: Result<
    (),
    AdministrationRepositoryError,
>)
    ensures
        r is Ok <==> key_valid(key.spec_bytes()) && value_class_known(value_class@) && updated_at >= 0,
        r matches Err(e) ==> e is Invalid,
{
    match validate_key(key) {
        Ok(()) => {},
        Err(e) => return Err(e),
    }
    let known = text_eq(value_class, "public") || text_eq(value_class, "internal") || text_eq(
        value_class,
        "secret_reference",
    );
    if !known || updated_at < 0 {
        return Err(AdministrationRepositoryError::Invalid);
    }
    Ok(())
}

} // verus!
