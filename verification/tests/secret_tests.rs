use spark_note_core::secret::Secret;

#[test]
fn test_secret_creation() {
    let data = vec![1, 2, 3, 4, 5];
    let secret = Secret::new(data.clone());

    assert_eq!(secret.len(), 5);
    assert_eq!(secret.as_bytes(), &data[..]);
    assert!(!secret.is_empty());
}

#[test]
fn test_secret_from_vec() {
    let data = vec![1, 2, 3];
    let secret = Secret::from(data.clone());

    assert_eq!(secret.as_bytes(), &data[..]);
}

#[test]
fn test_secret_zeroization() {
    let data = vec![1, 2, 3, 4, 5];
    let mut secret = Secret::new(data);

    // Erase the secret: its bytes are overwritten and released.
    secret.zeroize();

    assert!(secret.is_empty());
}

#[test]
fn test_secret_clone_preserves_bytes() {
    let secret = Secret::new(vec![9, 8, 7, 6, 5, 4, 3, 2]);
    let copy = secret.clone();
    assert_eq!(copy.as_bytes(), secret.as_bytes());
    assert!(secret == copy);
}

#[test]
fn test_secret_into_inner() {
    let secret = Secret::new(vec![1, 2, 3, 4]);
    assert_eq!(secret.into_inner(), vec![1, 2, 3, 4]);
}
