use spark_note_core::rng::{generate_random_bytes, generate_secret, generate_secret_with_len};

#[test]
fn test_generate_random_bytes() {
    let bytes = generate_random_bytes(32).unwrap();
    assert_eq!(bytes.len(), 32);
}

#[test]
fn test_generate_secret() {
    let secret = generate_secret().unwrap();
    assert_eq!(secret.len(), 32);
    assert!(!secret.is_empty());
}

#[test]
fn test_generate_secret_custom_length() {
    let secret = generate_secret_with_len(16).unwrap();
    assert_eq!(secret.len(), 16);
}

#[test]
fn test_generate_secret_uniqueness() {
    let s1 = generate_secret().unwrap();
    let s2 = generate_secret().unwrap();

    // Secrets should be different (very high probability)
    assert_ne!(s1.as_bytes(), s2.as_bytes());
}
