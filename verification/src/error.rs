//! Error types for note operations.
//!
//! Every failure is reported as a typed result to the immediate caller; each
//! error carries a human-readable message and, where applicable, a code for
//! programmatic handling.

use vstd::prelude::*;
use vstd::string::StringExecFns;

verus! {

/// Error codes for secret validation.
#[derive(Debug, Clone, Copy, PartialEq, Eq, Structural)]
pub enum SecretErrorCode {
    /// Secret is empty
    Empty,
    /// Secret is too short
    TooShort,
    /// Secret is too long
    TooLong,
    /// Secret has invalid format
    InvalidFormat,
}

/// Error codes for value validation.
#[derive(Debug, Clone, Copy, PartialEq, Eq, Structural)]
pub enum ValueErrorCode {
    /// Value is zero
    Zero,
    /// Value exceeds maximum allowed
    ExceedsMax,
    /// Value is invalid
    Invalid,
}

/// Error codes for nullifier operations.
#[derive(Debug, Clone, Copy, PartialEq, Eq, Structural)]
pub enum NullifierErrorCode {
    /// Nullifier is already spent
    AlreadySpent,
    /// Nullifier has invalid format
    InvalidFormat,
    /// Nullifier is empty
    Empty,
    /// Nullifier has wrong length
    WrongLength,
}

/// Error type covering every operation of this library.
#[derive(Debug, Clone, PartialEq, Eq)]
pub enum SparkError {
    /// Secret validation errors
    InvalidSecret { message: String, code: SecretErrorCode },
    /// Value validation errors
    InvalidValue { message: String, code: ValueErrorCode },
    /// Nullifier-related errors
    NullifierError { message: String, code: NullifierErrorCode },
    /// Web-runtime initialization errors
    WASMInitializationError { message: String },
    /// Serialization/deserialization errors
    SerializationError { message: String },
    /// General operation errors
    OperationError { message: String },
}

/// Result type alias for operations of this library.
pub type SparkResult<T> = Result<T, SparkError>;

/// The stable identifier that `error_code` returns for each error.
pub open spec fn spec_error_code(e: SparkError) -> Seq<char> {
    match e {
        SparkError::InvalidSecret { code, .. } => match code {
            SecretErrorCode::Empty => "SECRET_Empty"@,
            SecretErrorCode::TooShort => "SECRET_TooShort"@,
            SecretErrorCode::TooLong => "SECRET_TooLong"@,
            SecretErrorCode::InvalidFormat => "SECRET_InvalidFormat"@,
        },
        SparkError::InvalidValue { code, .. } => match code {
            ValueErrorCode::Zero => "VALUE_Zero"@,
            ValueErrorCode::ExceedsMax => "VALUE_ExceedsMax"@,
            ValueErrorCode::Invalid => "VALUE_Invalid"@,
        },
        SparkError::NullifierError { code, .. } => match code {
            NullifierErrorCode::AlreadySpent => "NULLIFIER_AlreadySpent"@,
            NullifierErrorCode::InvalidFormat => "NULLIFIER_InvalidFormat"@,
            NullifierErrorCode::Empty => "NULLIFIER_Empty"@,
            NullifierErrorCode::WrongLength => "NULLIFIER_WrongLength"@,
        },
        SparkError::WASMInitializationError { .. } => "WASM_INIT_ERROR"@,
        SparkError::SerializationError { .. } => "SERIALIZATION_ERROR"@,
        SparkError::OperationError { .. } => "OPERATION_ERROR"@,
    }
}

/// The descriptive prefix that `detailed_message` puts before the message:
/// the error's kind and, where one exists, its code.
pub open spec fn spec_detailed_prefix(e: SparkError) -> Seq<char> {
    match e {
        SparkError::InvalidSecret { code, .. } => match code {
            SecretErrorCode::Empty => "Invalid secret (code: Empty): "@,
            SecretErrorCode::TooShort => "Invalid secret (code: TooShort): "@,
            SecretErrorCode::TooLong => "Invalid secret (code: TooLong): "@,
            SecretErrorCode::InvalidFormat => "Invalid secret (code: InvalidFormat): "@,
        },
        SparkError::InvalidValue { code, .. } => match code {
            ValueErrorCode::Zero => "Invalid value (code: Zero): "@,
            ValueErrorCode::ExceedsMax => "Invalid value (code: ExceedsMax): "@,
            ValueErrorCode::Invalid => "Invalid value (code: Invalid): "@,
        },
        SparkError::NullifierError { code, .. } => match code {
            NullifierErrorCode::AlreadySpent => "Nullifier error (code: AlreadySpent): "@,
            NullifierErrorCode::InvalidFormat => "Nullifier error (code: InvalidFormat): "@,
            NullifierErrorCode::Empty => "Nullifier error (code: Empty): "@,
            NullifierErrorCode::WrongLength => "Nullifier error (code: WrongLength): "@,
        },
        SparkError::WASMInitializationError { .. } => "WASM initialization failed: "@,
        SparkError::SerializationError { .. } => "Serialization error: "@,
        SparkError::OperationError { .. } => "Operation failed: "@,
    }
}

/// The message carried by an error.
pub open spec fn spec_message(e: SparkError) -> Seq<char> {
    match e {
        SparkError::InvalidSecret { message, .. } => message@,
        SparkError::InvalidValue { message, .. } => message@,
        SparkError::NullifierError { message, .. } => message@,
        SparkError::WASMInitializationError { message } => message@,
        SparkError::SerializationError { message } => message@,
        SparkError::OperationError { message } => message@,
    }
}

/// The error is a secret-validation error with the given code.
pub open spec fn is_invalid_secret(e: SparkError, c: SecretErrorCode) -> bool {
    e matches SparkError::InvalidSecret { code, .. } && code == c
}

/// The error is a value-validation error with the given code.
pub open spec fn is_invalid_value(e: SparkError, c: ValueErrorCode) -> bool {
    e matches SparkError::InvalidValue { code, .. } && code == c
}

/// The error is a nullifier error with the given code.
pub open spec fn is_nullifier_error(e: SparkError, c: NullifierErrorCode) -> bool {
    e matches SparkError::NullifierError { code, .. } && code == c
}

impl SparkError {
    /// Get the error code as a string for programmatic handling.
    pub fn error_code(&self) -> (r: String)
        ensures
            r@ == spec_error_code(*self),
    {
        match self {
            SparkError::InvalidSecret { code, .. } => match code {
                SecretErrorCode::Empty => "SECRET_Empty".to_owned(),
                SecretErrorCode::TooShort => "SECRET_TooShort".to_owned(),
                SecretErrorCode::TooLong => "SECRET_TooLong".to_owned(),
                SecretErrorCode::InvalidFormat => "SECRET_InvalidFormat".to_owned(),
            },
            SparkError::InvalidValue { code, .. } => match code {
                ValueErrorCode::Zero => "VALUE_Zero".to_owned(),
                ValueErrorCode::ExceedsMax => "VALUE_ExceedsMax".to_owned(),
                ValueErrorCode::Invalid => "VALUE_Invalid".to_owned(),
            },
            SparkError::NullifierError { code, .. } => match code {
                NullifierErrorCode::AlreadySpent => "NULLIFIER_AlreadySpent".to_owned(),
                NullifierErrorCode::InvalidFormat => "NULLIFIER_InvalidFormat".to_owned(),
                NullifierErrorCode::Empty => "NULLIFIER_Empty".to_owned(),
                NullifierErrorCode::WrongLength => "NULLIFIER_WrongLength".to_owned(),
            },
            SparkError::WASMInitializationError { .. } => "WASM_INIT_ERROR".to_owned(),
            SparkError::SerializationError { .. } => "SERIALIZATION_ERROR".to_owned(),
            SparkError::OperationError { .. } => "OPERATION_ERROR".to_owned(),
        }
    }

    /// Get a detailed error message with context.
    pub fn detailed_message(&self) -> (r: String)
        ensures
            r@ == spec_detailed_prefix(*self) + spec_message(*self),
    {
        let mut out: String = match self {
            SparkError::InvalidSecret { code, .. } => match code {
                SecretErrorCode::Empty => "Invalid secret (code: Empty): ".to_owned(),
                SecretErrorCode::TooShort => "Invalid secret (code: TooShort): ".to_owned(),
                SecretErrorCode::TooLong => "Invalid secret (code: TooLong): ".to_owned(),
                SecretErrorCode::InvalidFormat => "Invalid secret (code: InvalidFormat): ".to_owned(),
            },
            SparkError::InvalidValue { code, .. } => match code {
                ValueErrorCode::Zero => "Invalid value (code: Zero): ".to_owned(),
                ValueErrorCode::ExceedsMax => "Invalid value (code: ExceedsMax): ".to_owned(),
                ValueErrorCode::Invalid => "Invalid value (code: Invalid): ".to_owned(),
            },
            SparkError::NullifierError { code, .. } => match code {
                NullifierErrorCode::AlreadySpent => "Nullifier error (code: AlreadySpent): ".to_owned(),
                NullifierErrorCode::InvalidFormat => "Nullifier error (code: InvalidFormat): ".to_owned(),
                NullifierErrorCode::Empty => "Nullifier error (code: Empty): ".to_owned(),
                NullifierErrorCode::WrongLength => "Nullifier error (code: WrongLength): ".to_owned(),
            },
            SparkError::WASMInitializationError { .. } => "WASM initialization failed: ".to_owned(),
            SparkError::SerializationError { .. } => "Serialization error: ".to_owned(),
            SparkError::OperationError { .. } => "Operation failed: ".to_owned(),
        };
        let message: &String = match self {
            SparkError::InvalidSecret { message, .. } => message,
            SparkError::InvalidValue { message, .. } => message,
            SparkError::NullifierError { message, .. } => message,
            SparkError::WASMInitializationError { message } => message,
            SparkError::SerializationError { message } => message,
            SparkError::OperationError { message } => message,
        };
        out.append(message.as_str());
        out
    }

    /// Create an invalid secret error.
    pub fn invalid_secret(code: SecretErrorCode, message: &str) -> (r: Self)
        ensures
            r matches SparkError::InvalidSecret { message: m, code: c } && m@ == message@ && c
                == code,
    {
        SparkError::InvalidSecret { message: message.to_owned(), code }
    }

    /// Create an invalid value error.
    pub fn invalid_value(code: ValueErrorCode, message: &str) -> (r: Self)
        ensures
            r matches SparkError::InvalidValue { message: m, code: c } && m@ == message@ && c
                == code,
    {
        SparkError::InvalidValue { message: message.to_owned(), code }
    }

    /// Create a nullifier error.
    pub fn nullifier_error(code: NullifierErrorCode, message: &str) -> (r: Self)
        ensures
            r matches SparkError::NullifierError { message: m, code: c } && m@ == message@ && c
                == code,
    {
        SparkError::NullifierError { message: message.to_owned(), code }
    }
}

} // verus!
