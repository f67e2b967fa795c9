//! Core library for privacy-preserving value notes: commitments, nullifiers,
//! spent-nullifier tracking, and note management.
//!
//! A holder commits to a `(value, secret)` pair without revealing either, and
//! later proves spend-authorization by revealing a one-way-derived nullifier
//! that a verifier records to prevent double-spending.

pub mod crypto;
pub mod error;
pub mod manager;
pub mod note;
pub mod nullifier;
pub mod nullifier_type;
pub mod rng;
pub mod secret;
pub mod serialization;
pub mod validation;

use vstd::prelude::*;

pub use error::{SparkError, SparkResult};
pub use manager::{NoteEntry, NoteManager, NoteState, PublicNote};
pub use note::{create_note, note_commitment, SparkNote};
pub use nullifier::{
    check_multiple_nullifiers, generate_nullifier, get_nullifier_set_size,
    get_nullifier_set_stats, is_nullifier_spent, mark_as_spent, mark_multiple_as_spent,
    NullifierSetStats,
};
pub use validation::{validate_nullifier, validate_secret, validate_value};

use crate::error::{is_invalid_secret, is_invalid_value, SecretErrorCode, ValueErrorCode};
use crate::note::commitment_of;
use crate::nullifier::nullifier_of;
use crate::secret::Secret;
use crate::validation::{secret_valid, value_valid, MAX_SECRET_LENGTH, MIN_SECRET_LENGTH};

verus! {

/// Create a note and hand back only its public projection (value and
/// commitment, without the secret).
pub fn uniffi_create_note(value: u64, secret: Vec<u8>) -> (r: Result<PublicNote, SparkError>)
    ensures
        r is Ok <==> value_valid(value) && secret_valid(secret@),
        r matches Ok(p) ==> p.value == value && p.commitment@ == commitment_of(value, secret@),
        !value_valid(value) ==> (r matches Err(e) && is_invalid_value(e, ValueErrorCode::Zero)),
        value_valid(value) && secret@.len() == 0 ==> (r matches Err(e) && is_invalid_secret(
            e,
            SecretErrorCode::Empty,
        )),
        value_valid(value) && 0 < secret@.len() < MIN_SECRET_LENGTH ==> (r matches Err(e)
            && is_invalid_secret(e, SecretErrorCode::TooShort)),
        value_valid(value) && secret@.len() > MAX_SECRET_LENGTH ==> (r matches Err(e)
            && is_invalid_secret(e, SecretErrorCode::TooLong)),
{
    match create_note(value, Secret::new(secret)) {
        Ok(note) => Ok(PublicNote::from_note(&note)),
        Err(e) => Err(e),
    }
}

/// The commitment of a public note.
pub fn uniffi_note_commitment(note: &PublicNote) -> (r: Vec<u8>)
    ensures
        r@ == note.commitment@,
{
    crypto::clone_bytes(note.commitment.as_slice())
}

/// Re-derive the nullifier for a public note, given the original secret.
///
/// The note is reconstructed from (value, secret) and its commitment must
/// match the public note's, in constant time; a mismatch means the secret is
/// not the one the note was built from.
pub fn uniffi_generate_nullifier(note: &PublicNote, secret: Vec<u8>) -> (r: Result<
    Vec<u8>,
    SparkError,
>)
    ensures
        r is Ok <==> (value_valid(note.value) && secret_valid(secret@) && commitment_of(
            note.value,
            secret@,
        ) == note.commitment@),
        r matches Ok(nf) ==> nf@ == nullifier_of(note.commitment@, secret@),
        value_valid(note.value) && secret_valid(secret@) && commitment_of(note.value, secret@)
            != note.commitment@ ==> (r matches Err(e) && e is OperationError),
{
    let secret = Secret::new(secret);
    let temp_note = match create_note(note.value, secret.clone()) {
        Ok(n) => n,
        Err(e) => {
            return Err(e);
        },
    };
    if !crypto::constant_time_eq(temp_note.commitment.as_slice(), note.commitment.as_slice()) {
        return Err(
            SparkError::OperationError { message: "Commitment mismatch - invalid secret".to_owned() },
        );
    }
    Ok(nullifier::generate_nullifier(&temp_note, &secret).to_vec())
}

} // verus!
