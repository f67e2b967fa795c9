use spark_note_core::error::{NullifierErrorCode, SecretErrorCode, SparkError, ValueErrorCode};

#[test]
fn test_error_codes() {
    let err = SparkError::invalid_secret(SecretErrorCode::Empty, "Secret cannot be empty");
    assert_eq!(err.error_code(), "SECRET_Empty");

    let err = SparkError::invalid_value(ValueErrorCode::Zero, "Value cannot be zero");
    assert_eq!(err.error_code(), "VALUE_Zero");

    let err = SparkError::nullifier_error(NullifierErrorCode::AlreadySpent, "Already spent");
    assert_eq!(err.error_code(), "NULLIFIER_AlreadySpent");
}

#[test]
fn test_detailed_message() {
    let err = SparkError::invalid_secret(SecretErrorCode::TooShort, "too short");
    assert_eq!(err.detailed_message(), "Invalid secret (code: TooShort): too short");

    let err = SparkError::SerializationError {
        message: "bad payload".to_string(),
    };
    assert_eq!(err.detailed_message(), "Serialization error: bad payload");
    assert_eq!(err.error_code(), "SERIALIZATION_ERROR");

    let err = SparkError::OperationError {
        message: "no such note".to_string(),
    };
    assert_eq!(err.detailed_message(), "Operation failed: no such note");
    assert_eq!(err.error_code(), "OPERATION_ERROR");
}
