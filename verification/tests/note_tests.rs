use spark_note_core::error::{SecretErrorCode, SparkError, ValueErrorCode};
use spark_note_core::note::{create_note, note_commitment};
use spark_note_core::secret::Secret;

#[test]
fn test_create_note() {
    let secret = Secret::new(vec![1, 2, 3, 4, 5, 6, 7, 8, 9, 10, 11, 12, 13, 14, 15, 16]);
    let note = create_note(1000, secret.clone()).unwrap();

    assert_eq!(note.value, 1000);
    assert_eq!(note.secret_bytes(), secret.as_bytes());
    assert_eq!(note.commitment.len(), 32); // SHA-256 produces 32 bytes
}

#[test]
fn test_create_note_empty_secret_fails() {
    let result = create_note(1000, Secret::new(vec![]));
    assert!(result.is_err());
    match result.err().unwrap() {
        SparkError::InvalidSecret { code, .. } => {
            assert_eq!(code, SecretErrorCode::Empty);
        }
        _ => panic!("Expected InvalidSecret error"),
    }
}

#[test]
fn test_create_note_zero_value_fails() {
    let result = create_note(0, Secret::new(vec![1, 2, 3, 4, 5, 6, 7, 8]));
    assert!(result.is_err());
    match result.err().unwrap() {
        SparkError::InvalidValue { code, .. } => {
            assert_eq!(code, ValueErrorCode::Zero);
        }
        _ => panic!("Expected InvalidValue error"),
    }
}

#[test]
fn test_commitment_consistency() {
    let secret = Secret::new(vec![42, 43, 44, 45, 46, 47, 48, 49]);
    let value = 5000u64;

    let note1 = create_note(value, secret.clone()).unwrap();
    let note2 = create_note(value, secret.clone()).unwrap();

    // Same inputs should produce same commitment
    assert_eq!(note1.commitment, note2.commitment);
    assert_eq!(note_commitment(&note1), note_commitment(&note2));
}

#[test]
fn test_different_values_different_commitments() {
    let secret = Secret::new(vec![1, 2, 3, 4, 5, 6, 7, 8]);

    let note1 = create_note(100, secret.clone()).unwrap();
    let note2 = create_note(200, secret.clone()).unwrap();

    assert_ne!(note1.commitment, note2.commitment);
}

#[test]
fn test_different_secrets_different_commitments() {
    let note1 = create_note(100, Secret::new(vec![1, 2, 3, 4, 5, 6, 7, 8])).unwrap();
    let note2 = create_note(100, Secret::new(vec![5, 6, 7, 8, 9, 10, 11, 12])).unwrap();

    assert_ne!(note1.commitment, note2.commitment);
}

#[test]
fn test_note_commitment_returns_clone() {
    let note = create_note(1000, Secret::new(vec![1, 2, 3, 4, 5, 6, 7, 8])).unwrap();
    let commitment = note_commitment(&note);

    assert_eq!(commitment, note.commitment);
    // Verify it's a clone, not a reference
    assert_eq!(commitment.len(), 32);
}

#[test]
fn test_commitment_binding() {
    // Same value + secret should produce same commitment
    let value = 100u64;
    let secret = Secret::new(vec![1, 2, 3, 4, 5, 6, 7, 8]);

    let note1 = create_note(value, secret.clone()).unwrap();
    let note2 = create_note(value, secret).unwrap();

    assert_eq!(note1.commitment, note2.commitment);
}

#[test]
fn test_commitment_hiding() {
    // Different secrets should produce different commitments
    let value = 100u64;
    let s1 = Secret::new(vec![1, 2, 3, 4, 5, 6, 7, 8]);
    let s2 = Secret::new(vec![8, 7, 6, 5, 4, 3, 2, 1]);

    let note1 = create_note(value, s1).unwrap();
    let note2 = create_note(value, s2).unwrap();

    assert_ne!(note1.commitment, note2.commitment);
}

#[test]
fn test_note_equality_is_structural() {
    let note1 = create_note(100, Secret::new(vec![1, 2, 3, 4, 5, 6, 7, 8])).unwrap();
    let note2 = create_note(100, Secret::new(vec![1, 2, 3, 4, 5, 6, 7, 8])).unwrap();
    let note3 = create_note(200, Secret::new(vec![1, 2, 3, 4, 5, 6, 7, 8])).unwrap();

    assert!(note1 == note2);
    assert!(note1 != note3);
}

#[test]
fn test_boundary_secret_lengths_for_notes() {
    assert!(create_note(1, Secret::new(vec![7; 7])).is_err());
    assert!(create_note(1, Secret::new(vec![7; 8])).is_ok());
    assert!(create_note(1, Secret::new(vec![7; 1024])).is_ok());
    assert!(create_note(1, Secret::new(vec![7; 1025])).is_err());
}
