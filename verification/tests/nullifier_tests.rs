use spark_note_core::error::{NullifierErrorCode, SparkError};
use spark_note_core::note::create_note;
use spark_note_core::nullifier::{
    check_multiple_nullifiers, generate_nullifier, get_nullifier_set_size,
    get_nullifier_set_stats, is_nullifier_spent, mark_as_spent, mark_multiple_as_spent, Nullifier,
    NullifierSet,
};
use spark_note_core::secret::Secret;

fn set_with(members: &[Vec<u8>]) -> NullifierSet {
    let mut set = NullifierSet::new();
    for m in members {
        set.add(Nullifier::from_slice(m).unwrap());
    }
    set
}

#[test]
fn test_generate_nullifier() {
    let secret = Secret::new(vec![1, 2, 3, 4, 5, 6, 7, 8, 9, 10, 11, 12, 13, 14, 15, 16]);
    let note = create_note(1000, secret.clone()).unwrap();

    let nullifier = generate_nullifier(&note, &secret);

    // BLAKE3 produces 32 bytes
    assert_eq!(nullifier.as_bytes().len(), 32);
}

#[test]
fn test_nullifier_consistency() {
    let secret = Secret::new(vec![42, 43, 44, 45, 46, 47, 48, 49]);
    let note = create_note(5000, secret.clone()).unwrap();

    let nullifier1 = generate_nullifier(&note, &secret);
    let nullifier2 = generate_nullifier(&note, &secret);

    // Same inputs should produce same nullifier
    assert_eq!(nullifier1, nullifier2);
}

#[test]
fn test_different_secrets_different_nullifiers() {
    let secret1 = Secret::new(vec![1, 2, 3, 4, 5, 6, 7, 8]);
    let secret2 = Secret::new(vec![5, 6, 7, 8, 9, 10, 11, 12]);
    let note = create_note(1000, secret1.clone()).unwrap();

    let nullifier1 = generate_nullifier(&note, &secret1);
    let nullifier2 = generate_nullifier(&note, &secret2);

    assert_ne!(nullifier1, nullifier2);
}

#[test]
fn test_is_nullifier_spent_not_in_set() {
    let nullifier = vec![1; 32]; // Must be 32 bytes
    let spent_set = NullifierSet::new();

    assert!(!is_nullifier_spent(&nullifier, &spent_set));
}

#[test]
fn test_is_nullifier_spent_in_set() {
    let nullifier = vec![1; 32]; // Must be 32 bytes
    let spent_set = set_with(&[nullifier.clone()]);

    assert!(is_nullifier_spent(&nullifier, &spent_set));
}

#[test]
fn test_check_multiple_nullifiers() {
    let nullifier1 = vec![1; 32];
    let nullifier2 = vec![2; 32];
    let nullifier3 = vec![3; 32];

    let spent_set = set_with(&[nullifier1.clone(), nullifier2.clone()]);

    let nullifiers = vec![nullifier1, nullifier2, nullifier3];
    let results = check_multiple_nullifiers(&nullifiers, &spent_set);

    assert_eq!(results, vec![true, true, false]);
}

#[test]
fn test_mark_multiple_as_spent() {
    let mut spent_set = NullifierSet::new();
    let nullifiers = vec![vec![1; 32], vec![2; 32], vec![3; 32]];

    mark_multiple_as_spent(&nullifiers, &mut spent_set).unwrap();
    assert_eq!(spent_set.len(), 3);
}

#[test]
fn test_mark_multiple_as_spent_already_spent() {
    let nullifier = vec![1u8; 32];
    let mut spent_set = set_with(&[nullifier.clone()]);

    let nullifiers = vec![nullifier];
    let result = mark_multiple_as_spent(&nullifiers, &mut spent_set);
    assert!(result.is_err());
}

#[test]
fn test_mark_as_spent() {
    let mut spent_set = NullifierSet::new();
    let nullifier = vec![1; 32];

    mark_as_spent(&nullifier, &mut spent_set).unwrap();
    assert!(is_nullifier_spent(&nullifier, &spent_set));
}

#[test]
fn test_mark_as_spent_already_spent() {
    let nullifier = vec![1u8; 32];
    let mut spent_set = set_with(&[nullifier.clone()]);

    let result = mark_as_spent(&nullifier, &mut spent_set);
    assert!(result.is_err());
}

#[test]
fn test_get_nullifier_set_size() {
    let mut spent_set = NullifierSet::new();
    assert_eq!(get_nullifier_set_size(&spent_set), 0);

    spent_set.add(Nullifier::from_slice(&[1; 32]).unwrap());
    spent_set.add(Nullifier::from_slice(&[2; 32]).unwrap());
    assert_eq!(get_nullifier_set_size(&spent_set), 2);
}

#[test]
fn test_get_nullifier_set_stats() {
    let mut spent_set = NullifierSet::new();
    spent_set.add(Nullifier::from_slice(&[1; 32]).unwrap());
    spent_set.add(Nullifier::from_slice(&[2; 32]).unwrap());

    let stats = get_nullifier_set_stats(&spent_set);
    assert_eq!(stats.count, 2);
    assert!(stats.memory_usage_bytes > 0);
}

#[test]
fn test_full_workflow() {
    // Create a note
    let secret = Secret::new(vec![1, 2, 3, 4, 5, 6, 7, 8]);
    let note = create_note(1000, secret.clone()).unwrap();

    // Generate nullifier
    let nullifier = generate_nullifier(&note, &secret);

    // Initially not spent
    let mut spent_set = NullifierSet::new();
    assert!(!is_nullifier_spent(nullifier.as_bytes(), &spent_set));

    // After spending
    mark_as_spent(nullifier.as_bytes(), &mut spent_set).unwrap();
    assert!(is_nullifier_spent(nullifier.as_bytes(), &spent_set));
}

#[test]
fn test_nullifier_set() {
    let secret = Secret::new(vec![1, 2, 3, 4, 5, 6, 7, 8]);
    let note = create_note(1000, secret.clone()).unwrap();

    let nullifier = generate_nullifier(&note, &secret);
    let mut set = NullifierSet::new();

    assert!(!set.contains(&nullifier));
    set.add(nullifier);
    assert!(set.contains(&nullifier));
    assert_eq!(set.len(), 1);
}

#[test]
fn test_spend_once_scenario() {
    // A fresh 32-byte nullifier: the first mark succeeds and membership
    // becomes visible; the second mark reports the already-spent conflict.
    let mut spent_set = NullifierSet::new();
    let n = vec![0xabu8; 32];

    assert!(mark_as_spent(&n, &mut spent_set).is_ok());
    assert!(spent_set.contains_slice(&n));

    match mark_as_spent(&n, &mut spent_set) {
        Err(SparkError::NullifierError { code, .. }) => {
            assert_eq!(code, NullifierErrorCode::AlreadySpent)
        }
        _ => panic!("expected already-spent error"),
    }
    assert_eq!(spent_set.len(), 1);
}

#[test]
fn test_batch_mark_is_atomic() {
    // If any nullifier of a batch conflicts, none of the batch is recorded.
    let n1 = vec![1u8; 32];
    let n2 = vec![2u8; 32];
    let mut spent_set = set_with(&[n1.clone()]);

    let result = mark_multiple_as_spent(&vec![n1.clone(), n2.clone()], &mut spent_set);
    assert!(result.is_err());
    assert!(!is_nullifier_spent(&n2, &spent_set));

    // The same holds when the fresh nullifier comes first in the batch.
    let result = mark_multiple_as_spent(&vec![n2.clone(), n1.clone()], &mut spent_set);
    assert!(result.is_err());
    assert!(!is_nullifier_spent(&n2, &spent_set));
    assert_eq!(spent_set.len(), 1);
}

#[test]
fn test_batch_mark_rejects_internal_duplicates() {
    let n = vec![9u8; 32];
    let mut spent_set = NullifierSet::new();
    let result = mark_multiple_as_spent(&vec![n.clone(), n.clone()], &mut spent_set);
    assert!(result.is_err());
    assert_eq!(spent_set.len(), 0);
}

#[test]
fn test_mark_as_spent_error_codes() {
    let mut spent_set = NullifierSet::new();
    match mark_as_spent(&[], &mut spent_set) {
        Err(SparkError::NullifierError { code, .. }) => {
            assert_eq!(code, NullifierErrorCode::Empty)
        }
        _ => panic!("expected empty-nullifier error"),
    }
    match mark_as_spent(&[1, 2, 3], &mut spent_set) {
        Err(SparkError::NullifierError { code, .. }) => {
            assert_eq!(code, NullifierErrorCode::WrongLength)
        }
        _ => panic!("expected wrong-length error"),
    }
    assert_eq!(spent_set.len(), 0);
}

#[test]
fn test_stats_memory_estimate_formula() {
    let mut spent_set = NullifierSet::new();
    spent_set.add(Nullifier::from_slice(&[1; 32]).unwrap());
    spent_set.add(Nullifier::from_slice(&[2; 32]).unwrap());
    spent_set.add(Nullifier::from_slice(&[3; 32]).unwrap());

    let stats = get_nullifier_set_stats(&spent_set);
    // Each entry is 32 bytes plus an 8-byte overhead estimate.
    assert_eq!(stats.memory_usage_bytes, 3 * (32 + 8));
}

#[test]
fn test_nullifier_differs_from_commitment() {
    // The two digests are algorithmically distinct: the nullifier never
    // equals the commitment it was derived from.
    let secret = Secret::new(vec![1, 2, 3, 4, 5, 6, 7, 8]);
    let note = create_note(1000, secret.clone()).unwrap();
    let nullifier = generate_nullifier(&note, &secret);
    assert_ne!(nullifier.as_bytes(), note.commitment.as_slice());
}
