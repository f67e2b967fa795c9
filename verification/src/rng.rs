//! Cryptographically secure random generation of secrets.
//!
//! Randomness comes from the operating system; nothing can be promised about
//! the values themselves, only about the length of what is produced.

use vstd::prelude::*;

use crate::error::{SparkError, SparkResult};
use crate::secret::Secret;

verus! {

/// Relies on getrandom::getrandom: on success the whole buffer is filled
/// with random bytes from the operating system; on failure nothing is
/// promised about the buffer, so only the freshly allocated length is stated.
#[verifier::external_body]
fn os_random_bytes(len: usize) -> (r: Result<Vec<u8>, ()>)
    ensures
        r matches Ok(v) ==> v@.len() == len,
{
    let mut bytes = vec![0u8; len];
    match getrandom::getrandom(&mut bytes) {
        Ok(()) => Ok(bytes),
        Err(_) => Err(()),
    }
}

/// Generate cryptographically secure random bytes.
///
/// On success the result has exactly the requested length; the generation
/// itself can fail only if the operating system's randomness source does.
pub fn generate_random_bytes(len: usize) -> (r: SparkResult<Vec<u8>>)
    ensures
        r matches Ok(v) ==> v@.len() == len,
        r matches Err(e) ==> e is OperationError,
{
    match os_random_bytes(len) {
        Ok(bytes) => Ok(bytes),
        Err(()) => Err(
            SparkError::OperationError {
                message: "Failed to generate random bytes".to_owned(),
            },
        ),
    }
}

/// Generate a secret for a note (32 bytes by default).
pub fn generate_secret() -> (r: SparkResult<Secret>)
    ensures
        r matches Ok(s) ==> s@.len() == 32,
        r matches Err(e) ==> e is OperationError,
{
    generate_secret_with_len(32)
}

/// Generate a secret with the specified length.
pub fn generate_secret_with_len(len: usize) -> (r: SparkResult<Secret>)
    ensures
        r matches Ok(s) ==> s@.len() == len,
        r matches Err(e) ==> e is OperationError,
{
    match generate_random_bytes(len) {
        Ok(bytes) => Ok(Secret::new(bytes)),
        Err(e) => Err(e),
    }
}

} // verus!
