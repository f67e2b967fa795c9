use spark_note_core::crypto::{constant_time_eq, constant_time_eq_array};

#[test]
fn test_constant_time_eq_equal() {
    let a = vec![1, 2, 3, 4, 5];
    let b = vec![1, 2, 3, 4, 5];

    assert!(constant_time_eq(&a, &b));
}

#[test]
fn test_constant_time_eq_different() {
    let a = vec![1, 2, 3, 4, 5];
    let b = vec![1, 2, 3, 4, 6];

    assert!(!constant_time_eq(&a, &b));
}

#[test]
fn test_constant_time_eq_different_length() {
    let a = vec![1, 2, 3, 4, 5];
    let b = vec![1, 2, 3];

    assert!(!constant_time_eq(&a, &b));
}

#[test]
fn test_constant_time_eq_array() {
    let a = [1, 2, 3, 4, 5];
    let b = [1, 2, 3, 4, 5];
    let c = [1, 2, 3, 4, 6];

    assert!(constant_time_eq_array(&a, &b));
    assert!(!constant_time_eq_array(&a, &c));
}
