use spark_note_core::error::{NullifierErrorCode, SecretErrorCode, SparkError, ValueErrorCode};
use spark_note_core::validation::{
    validate_nullifier, validate_secret, validate_value, MAX_SECRET_LENGTH, MIN_SECRET_LENGTH,
    NULLIFIER_LENGTH,
};

#[test]
fn test_validate_secret_empty() {
    assert!(validate_secret(&[]).is_err());
}

#[test]
fn test_validate_secret_too_short() {
    let short = vec![1; MIN_SECRET_LENGTH - 1];
    assert!(validate_secret(&short).is_err());
}

#[test]
fn test_validate_secret_valid() {
    let valid = vec![1; MIN_SECRET_LENGTH];
    assert!(validate_secret(&valid).is_ok());
}

#[test]
fn test_validate_secret_too_long() {
    let long = vec![1; MAX_SECRET_LENGTH + 1];
    assert!(validate_secret(&long).is_err());
}

#[test]
fn test_validate_value_zero() {
    assert!(validate_value(0).is_err());
}

#[test]
fn test_validate_value_valid() {
    assert!(validate_value(1).is_ok());
    assert!(validate_value(u64::MAX).is_ok());
}

#[test]
fn test_validate_nullifier_empty() {
    assert!(validate_nullifier(&[]).is_err());
}

#[test]
fn test_validate_nullifier_wrong_length() {
    let wrong = vec![1; NULLIFIER_LENGTH - 1];
    assert!(validate_nullifier(&wrong).is_err());
}

#[test]
fn test_validate_nullifier_valid() {
    let valid = vec![1; NULLIFIER_LENGTH];
    assert!(validate_nullifier(&valid).is_ok());
}

#[test]
fn test_secret_boundary_lengths() {
    // Lengths 7 and 1025 are always rejected; 8 and 1024 are always accepted.
    assert!(validate_secret(&vec![1; 7]).is_err());
    assert!(validate_secret(&vec![1; 1025]).is_err());
    assert!(validate_secret(&vec![1; 8]).is_ok());
    assert!(validate_secret(&vec![1; 1024]).is_ok());
}

#[test]
fn test_validation_error_codes() {
    match validate_secret(&[]) {
        Err(SparkError::InvalidSecret { code, .. }) => assert_eq!(code, SecretErrorCode::Empty),
        _ => panic!("expected empty-secret error"),
    }
    match validate_secret(&[1, 2, 3]) {
        Err(SparkError::InvalidSecret { code, .. }) => assert_eq!(code, SecretErrorCode::TooShort),
        _ => panic!("expected too-short error"),
    }
    match validate_secret(&vec![9; 2000]) {
        Err(SparkError::InvalidSecret { code, .. }) => assert_eq!(code, SecretErrorCode::TooLong),
        _ => panic!("expected too-long error"),
    }
    match validate_value(0) {
        Err(SparkError::InvalidValue { code, .. }) => assert_eq!(code, ValueErrorCode::Zero),
        _ => panic!("expected zero-value error"),
    }
    match validate_nullifier(&[]) {
        Err(SparkError::NullifierError { code, .. }) => {
            assert_eq!(code, NullifierErrorCode::Empty)
        }
        _ => panic!("expected empty-nullifier error"),
    }
    match validate_nullifier(&[1, 2, 3]) {
        Err(SparkError::NullifierError { code, .. }) => {
            assert_eq!(code, NullifierErrorCode::WrongLength)
        }
        _ => panic!("expected wrong-length error"),
    }
}
