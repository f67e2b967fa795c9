//! Input validation for secrets, values, and nullifiers.
//!
//! The constants here define the wire-compatible limits of the scheme and are
//! consumed by every constructor of the library.

use vstd::prelude::*;

use crate::error::{is_invalid_secret, is_invalid_value, is_nullifier_error};
use crate::error::{NullifierErrorCode, SecretErrorCode, SparkError, ValueErrorCode};

verus! {

/// Minimum secret length in bytes.
pub const MIN_SECRET_LENGTH: usize = 8;

/// Maximum secret length in bytes (reasonable limit).
pub const MAX_SECRET_LENGTH: usize = 1024;

/// Expected nullifier length in bytes (digest output size).
pub const NULLIFIER_LENGTH: usize = 32;

/// A secret is valid exactly when its length lies within the configured bounds.
pub open spec fn secret_valid(secret: Seq<u8>) -> bool {
    MIN_SECRET_LENGTH <= secret.len() <= MAX_SECRET_LENGTH
}

/// A value is valid exactly when it is nonzero.
pub open spec fn value_valid(value: u64) -> bool {
    value != 0
}

/// A nullifier byte string is valid exactly when it is 32 bytes long.
pub open spec fn nullifier_valid(nullifier: Seq<u8>) -> bool {
    nullifier.len() == NULLIFIER_LENGTH
}

/// Validates a secret byte array: accepted exactly when its length lies in
/// `[MIN_SECRET_LENGTH, MAX_SECRET_LENGTH]`; an empty secret is reported as
/// `Empty` rather than `TooShort`.
pub fn validate_secret(secret: &[u8]) -> (r: Result<(), SparkError>)
    ensures
        r is Ok <==> secret_valid(secret@),
        secret@.len() == 0 ==> (r matches Err(e) && is_invalid_secret(e, SecretErrorCode::Empty)),
        0 < secret@.len() < MIN_SECRET_LENGTH ==> (r matches Err(e) && is_invalid_secret(
            e,
            SecretErrorCode::TooShort,
        )),
        secret@.len() > MAX_SECRET_LENGTH ==> (r matches Err(e) && is_invalid_secret(
            e,
            SecretErrorCode::TooLong,
        )),
{
    if secret.len() == 0 {
        return Err(SparkError::invalid_secret(SecretErrorCode::Empty, "Secret cannot be empty"));
    }
    if secret.len() < MIN_SECRET_LENGTH {
        return Err(
            SparkError::invalid_secret(SecretErrorCode::TooShort, "Secret is below the minimum length"),
        );
    }
    if secret.len() > MAX_SECRET_LENGTH {
        return Err(
            SparkError::invalid_secret(SecretErrorCode::TooLong, "Secret is above the maximum length"),
        );
    }
    Ok(())
}

/// Validates a note value: accepted exactly when the value is nonzero.
pub fn validate_value(value: u64) -> (r: Result<(), SparkError>)
    ensures
        r is Ok <==> value_valid(value),
        value == 0 ==> (r matches Err(e) && is_invalid_value(e, ValueErrorCode::Zero)),
{
    if value == 0 {
        return Err(
            SparkError::invalid_value(ValueErrorCode::Zero, "Value must be greater than zero"),
        );
    }
    Ok(())
}

/// Validates a nullifier byte array: accepted exactly when it is
/// `NULLIFIER_LENGTH` bytes long; an empty input is reported as `Empty`
/// rather than `WrongLength`.
pub fn validate_nullifier(nullifier: &[u8]) -> (r: Result<(), SparkError>)
    ensures
        r is Ok <==> nullifier_valid(nullifier@),
        nullifier@.len() == 0 ==> (r matches Err(e) && is_nullifier_error(
            e,
            NullifierErrorCode::Empty,
        )),
        0 < nullifier@.len() && nullifier@.len() != NULLIFIER_LENGTH ==> (r matches Err(e)
            && is_nullifier_error(e, NullifierErrorCode::WrongLength)),
{
    if nullifier.len() == 0 {
        return Err(
            SparkError::nullifier_error(NullifierErrorCode::Empty, "Nullifier cannot be empty"),
        );
    }
    if nullifier.len() != NULLIFIER_LENGTH {
        return Err(
            SparkError::nullifier_error(
                NullifierErrorCode::WrongLength,
                "Nullifier does not have the exact expected length",
            ),
        );
    }
    Ok(())
}

} // verus!
