use spark_note_core::error::{NullifierErrorCode, SparkError};
use spark_note_core::note::{create_note, note_commitment};
use spark_note_core::nullifier::{
    generate_nullifier, is_nullifier_spent, mark_as_spent, NullifierSet,
};
use spark_note_core::secret::Secret;
use spark_note_core::{uniffi_create_note, uniffi_generate_nullifier, uniffi_note_commitment};

#[test]
fn test_integration_workflow() {
    // Create a note with some value
    let secret = Secret::new(vec![0x01, 0x02, 0x03, 0x04, 0x05, 0x06, 0x07, 0x08]);
    let value = 1000u64;

    let note = create_note(value, secret.clone()).expect("Failed to create note");

    // Verify the note was created correctly
    assert_eq!(note.value, value);
    assert_eq!(note.secret_bytes(), secret.as_bytes());
    assert!(!note.commitment.is_empty());

    // Get the commitment
    let commitment = note_commitment(&note);
    assert_eq!(commitment, note.commitment);

    // Generate nullifier for spending
    let nullifier = generate_nullifier(&note, &secret);
    assert_eq!(nullifier.as_bytes().len(), 32);

    // Track spent nullifiers
    let mut spent_set = NullifierSet::new();

    // Initially not spent
    assert!(!is_nullifier_spent(nullifier.as_bytes(), &spent_set));

    // Mark as spent
    spent_set.add(nullifier);

    // Now it should be marked as spent
    assert!(is_nullifier_spent(nullifier.as_bytes(), &spent_set));
}

#[test]
fn test_multiple_notes_unique_nullifiers() {
    let notes: Vec<_> = (0..5)
        .map(|i| {
            let secret = Secret::new(vec![i as u8; 16]);
            create_note(100 * (i + 1) as u64, secret).unwrap()
        })
        .collect();

    let nullifiers: Vec<_> = notes
        .iter()
        .enumerate()
        .map(|(i, note)| {
            let secret = Secret::new(vec![i as u8; 16]);
            generate_nullifier(note, &secret).to_vec()
        })
        .collect();

    // All nullifiers should be unique
    let unique_nullifiers: std::collections::HashSet<_> = nullifiers.iter().collect();
    assert_eq!(unique_nullifiers.len(), nullifiers.len());
}

#[test]
fn test_uniffi_exports() {
    let secret = vec![1, 2, 3, 4, 5, 6, 7, 8];
    let note = uniffi_create_note(1000, secret.clone()).unwrap();
    let commitment = uniffi_note_commitment(&note);
    let nullifier = uniffi_generate_nullifier(&note, secret).unwrap();

    assert_eq!(commitment.len(), 32);
    assert_eq!(nullifier.len(), 32);
}

#[test]
fn test_uniffi_nullifier_rejects_wrong_secret() {
    let secret = vec![1, 2, 3, 4, 5, 6, 7, 8];
    let note = uniffi_create_note(1000, secret).unwrap();
    let wrong = vec![8, 7, 6, 5, 4, 3, 2, 1];
    assert!(uniffi_generate_nullifier(&note, wrong).is_err());
}

#[test]
fn test_commit_and_nullify_scenario() {
    // value=1000, secret=[1..8]: the commitment is 32 bytes and identical
    // across two computations; the nullifier is 32 bytes, differs from the
    // commitment, and differs from the nullifier of the reversed secret.
    let secret = Secret::new(vec![1, 2, 3, 4, 5, 6, 7, 8]);
    let reversed = Secret::new(vec![8, 7, 6, 5, 4, 3, 2, 1]);

    let note1 = create_note(1000, secret.clone()).unwrap();
    let note2 = create_note(1000, secret.clone()).unwrap();
    assert_eq!(note1.commitment.len(), 32);
    assert_eq!(note1.commitment, note2.commitment);

    let nullifier = generate_nullifier(&note1, &secret);
    assert_eq!(nullifier.as_bytes().len(), 32);
    assert_ne!(nullifier.as_bytes(), note1.commitment.as_slice());

    let other = generate_nullifier(&note1, &reversed);
    assert_ne!(nullifier, other);
}

#[test]
fn test_spent_set_scenario() {
    // The spent set starts empty; the first mark of a fresh nullifier
    // succeeds and membership becomes visible; the second mark conflicts.
    let mut spent_set = NullifierSet::new();
    assert_eq!(spent_set.len(), 0);

    let n = vec![0x42u8; 32];
    assert!(mark_as_spent(&n, &mut spent_set).is_ok());
    assert!(spent_set.contains_slice(&n));

    match mark_as_spent(&n, &mut spent_set) {
        Err(SparkError::NullifierError { code, .. }) => {
            assert_eq!(code, NullifierErrorCode::AlreadySpent)
        }
        _ => panic!("expected already-spent error"),
    }
}
