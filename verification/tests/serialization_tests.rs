use spark_note_core::error::{NullifierErrorCode, SparkError};
use spark_note_core::nullifier::{Nullifier, NullifierSet};
use spark_note_core::serialization::{export_nullifier_set, import_nullifier_set};

fn set_with(members: &[Vec<u8>]) -> NullifierSet {
    let mut set = NullifierSet::new();
    for m in members {
        set.add(Nullifier::from_slice(m).unwrap());
    }
    set
}

#[test]
fn test_export_import_nullifier_set() {
    let spent_set = set_with(&[vec![1; 32], vec![2; 32], vec![3; 32]]);

    let json = export_nullifier_set(&spent_set).unwrap();
    let imported = import_nullifier_set(&json).unwrap();

    assert_eq!(spent_set.len(), imported.len());
    for nullifier in spent_set.export() {
        assert!(imported.contains_slice(&nullifier));
    }
}

#[test]
fn test_import_invalid_json() {
    let result = import_nullifier_set("invalid json");
    assert!(result.is_err());
}

#[test]
fn test_import_parse_failure_is_serialization_error() {
    match import_nullifier_set("invalid json") {
        Err(SparkError::SerializationError { .. }) => {}
        _ => panic!("expected serialization error"),
    }
    match import_nullifier_set("{\"version\":1,\"nullifiers\":[\"zz\"]}") {
        Err(SparkError::SerializationError { .. }) => {}
        _ => panic!("expected serialization error for bad hex"),
    }
}

#[test]
fn test_import_invalid_hex() {
    let json = "{\"version\":1,\"nullifiers\":[\"invalid hex\"]}";
    let result = import_nullifier_set(json);
    assert!(result.is_err());
}

#[test]
fn test_export_exact_rendering() {
    let spent_set = set_with(&[vec![0x01; 32]]);
    let json = export_nullifier_set(&spent_set).unwrap();
    let hex: String = std::iter::repeat("01").take(32).collect();
    assert_eq!(json, format!("{{\"version\":1,\"nullifiers\":[\"{}\"]}}", hex));
}

#[test]
fn test_export_empty_set() {
    let spent_set = NullifierSet::new();
    let json = export_nullifier_set(&spent_set).unwrap();
    assert_eq!(json, "{\"version\":1,\"nullifiers\":[]}");
    let imported = import_nullifier_set(&json).unwrap();
    assert_eq!(imported.len(), 0);
}

#[test]
fn test_import_rejects_future_version() {
    let hex: String = std::iter::repeat("01").take(32).collect();
    let json = format!("{{\"version\":2,\"nullifiers\":[\"{}\"]}}", hex);
    assert!(import_nullifier_set(&json).is_err());
}

#[test]
fn test_import_rejects_wrong_length_nullifier() {
    let json = "{\"version\":1,\"nullifiers\":[\"0102\"]}";
    match import_nullifier_set(json) {
        Err(SparkError::NullifierError { code, .. }) => {
            assert_eq!(code, NullifierErrorCode::WrongLength)
        }
        _ => panic!("expected wrong-length error"),
    }
}

#[test]
fn test_import_accepts_whitespace() {
    // The documented wire format, with spaces around the structural tokens.
    let hex: String = std::iter::repeat("01").take(32).collect();
    let json = format!(
        "{{ \"version\": 1, \"nullifiers\": [\"{}\"] }}",
        hex
    );
    let imported = import_nullifier_set(&json).unwrap();
    assert!(imported.contains_slice(&vec![0x01u8; 32]));

    let json = "{ \"version\": 1,\"nullifiers\":[] }";
    let imported = import_nullifier_set(json).unwrap();
    assert_eq!(imported.len(), 0);

    let json = "\n{\t\"version\" : 1 ,\r\n \"nullifiers\" : [ ] }\n";
    let imported = import_nullifier_set(json).unwrap();
    assert_eq!(imported.len(), 0);
}

#[test]
fn test_import_accepts_whitespace_in_list() {
    let h1: String = std::iter::repeat("aa").take(32).collect();
    let h2: String = std::iter::repeat("bb").take(32).collect();
    let json = format!(
        "{{\"version\":1,\"nullifiers\":[ \"{}\" , \"{}\" ]}}",
        h1, h2
    );
    let imported = import_nullifier_set(&json).unwrap();
    assert_eq!(imported.len(), 2);
    assert!(imported.contains_slice(&vec![0xaau8; 32]));
    assert!(imported.contains_slice(&vec![0xbbu8; 32]));
}

#[test]
fn test_import_accepts_reordered_fields() {
    let hex: String = std::iter::repeat("cd").take(32).collect();
    let json = format!("{{\"nullifiers\":[\"{}\"],\"version\":1}}", hex);
    let imported = import_nullifier_set(&json).unwrap();
    assert!(imported.contains_slice(&vec![0xcdu8; 32]));
}

#[test]
fn test_import_rejects_trailing_garbage() {
    let json = "{\"version\":1,\"nullifiers\":[]}extra";
    assert!(import_nullifier_set(json).is_err());
}

#[test]
fn test_import_rejects_unknown_key() {
    let json = "{\"version\":1,\"extras\":[]}";
    assert!(import_nullifier_set(json).is_err());
}

#[test]
fn test_import_accepts_uppercase_hex() {
    let hex: String = std::iter::repeat("AB").take(32).collect();
    let json = format!("{{\"version\":1,\"nullifiers\":[\"{}\"]}}", hex);
    let imported = import_nullifier_set(&json).unwrap();
    assert!(imported.contains_slice(&vec![0xabu8; 32]));
}

#[test]
fn test_import_is_all_or_nothing() {
    // One malformed entry fails the whole import.
    let good: String = std::iter::repeat("01").take(32).collect();
    let json = format!("{{\"version\":1,\"nullifiers\":[\"{}\",\"zz\"]}}", good);
    assert!(import_nullifier_set(&json).is_err());
}
