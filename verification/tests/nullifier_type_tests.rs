use spark_note_core::error::{NullifierErrorCode, SparkError};
use spark_note_core::nullifier_type::Nullifier;

#[test]
fn test_nullifier_from_slice() {
    let bytes = vec![1u8; 32];
    let nullifier = Nullifier::from_slice(&bytes).unwrap();
    assert_eq!(nullifier.as_bytes(), &bytes[..]);
}

#[test]
fn test_nullifier_wrong_length() {
    let bytes = vec![1u8; 31];
    assert!(Nullifier::from_slice(&bytes).is_err());
}

#[test]
fn test_nullifier_hash() {
    let n1 = Nullifier::new([1; 32]);
    let n2 = Nullifier::new([2; 32]);
    let n3 = Nullifier::new([1; 32]);

    let mut set = std::collections::HashSet::new();
    set.insert(n1);
    set.insert(n2);
    set.insert(n3); // Duplicate of n1

    assert_eq!(set.len(), 2);
}

#[test]
fn test_nullifier_from_array_and_to_vec() {
    let arr = [7u8; 32];
    let n = Nullifier::from(arr);
    assert_eq!(n.to_vec(), vec![7u8; 32]);
}

#[test]
fn test_nullifier_empty_slice_is_distinguished() {
    match Nullifier::from_slice(&[]) {
        Err(SparkError::NullifierError { code, .. }) => {
            assert_eq!(code, NullifierErrorCode::Empty)
        }
        _ => panic!("expected empty-nullifier error"),
    }
}
