use spark_note_core::error::SparkError;
use spark_note_core::manager::{NoteManager, NoteState};
use spark_note_core::note::create_note;
use spark_note_core::secret::Secret;

#[test]
fn test_note_manager_new() {
    let manager = NoteManager::new();
    assert_eq!(manager.note_count(), 0);
    assert_eq!(manager.spent_nullifier_count(), 0);
}

#[test]
fn test_add_note() {
    let mut manager = NoteManager::new();
    let secret = Secret::new(vec![1, 2, 3, 4, 5, 6, 7, 8]);
    let note = create_note(1000, secret).unwrap();

    manager.add_note("note1".to_string(), note).unwrap();
    assert_eq!(manager.note_count(), 1);
}

#[test]
fn test_add_note_duplicate_id() {
    let mut manager = NoteManager::new();
    let secret = Secret::new(vec![1, 2, 3, 4, 5, 6, 7, 8]);
    let note = create_note(1000, secret.clone()).unwrap();

    manager.add_note("note1".to_string(), note.clone()).unwrap();
    let result = manager.add_note("note1".to_string(), note);
    assert!(result.is_err());
}

#[test]
fn test_get_note() {
    let mut manager = NoteManager::new();
    let secret = Secret::new(vec![1, 2, 3, 4, 5, 6, 7, 8]);
    let note = create_note(1000, secret).unwrap();

    manager.add_note("note1".to_string(), note).unwrap();
    let entry = manager.get_note("note1").unwrap();
    assert_eq!(entry.note.value, 1000);
    assert_eq!(entry.state, NoteState::Unspent);
}

#[test]
fn test_generate_nullifier_for_note() {
    let mut manager = NoteManager::new();
    let secret = Secret::new(vec![1, 2, 3, 4, 5, 6, 7, 8]);
    let note = create_note(1000, secret.clone()).unwrap();

    manager.add_note("note1".to_string(), note).unwrap();
    let nullifier = manager
        .generate_nullifier_for_note("note1", secret.into_inner())
        .unwrap();
    assert_eq!(nullifier.len(), 32);

    let entry = manager.get_note("note1").unwrap();
    assert!(entry.nullifier.is_some());
}

#[test]
fn test_mark_note_as_spent() {
    let mut manager = NoteManager::new();
    let secret = Secret::new(vec![1, 2, 3, 4, 5, 6, 7, 8]);
    let note = create_note(1000, secret.clone()).unwrap();

    manager.add_note("note1".to_string(), note).unwrap();
    manager
        .generate_nullifier_for_note("note1", secret.into_inner())
        .unwrap();
    manager.mark_note_as_spent("note1").unwrap();

    let entry = manager.get_note("note1").unwrap();
    assert_eq!(entry.state, NoteState::Spent);
    assert_eq!(manager.spent_nullifier_count(), 1);
}

#[test]
fn test_list_notes() {
    let mut manager = NoteManager::new();
    let secret = Secret::new(vec![1, 2, 3, 4, 5, 6, 7, 8]);

    for i in 0..3 {
        let note = create_note(100 * (i + 1) as u64, secret.clone()).unwrap();
        manager.add_note(format!("note{}", i), note).unwrap();
    }

    let ids = manager.list_note_ids();
    assert_eq!(ids.len(), 3);
}

#[test]
fn test_mark_note_without_nullifier_fails() {
    let mut manager = NoteManager::new();
    let secret = Secret::new(vec![1, 2, 3, 4, 5, 6, 7, 8]);
    let note = create_note(1000, secret).unwrap();

    manager.add_note("note1".to_string(), note).unwrap();
    assert!(manager.mark_note_as_spent("note1").is_err());

    let entry = manager.get_note("note1").unwrap();
    assert_eq!(entry.state, NoteState::Unspent);
}

#[test]
fn test_mark_unknown_note_fails() {
    let mut manager = NoteManager::new();
    match manager.mark_note_as_spent("missing") {
        Err(SparkError::OperationError { .. }) => {}
        _ => panic!("expected operation error"),
    }
}

#[test]
fn test_remove_note() {
    let mut manager = NoteManager::new();
    let secret = Secret::new(vec![1, 2, 3, 4, 5, 6, 7, 8]);
    let note = create_note(1000, secret).unwrap();

    manager.add_note("note1".to_string(), note).unwrap();
    let removed = manager.remove_note("note1").unwrap();
    assert_eq!(removed.note.value, 1000);
    assert_eq!(manager.note_count(), 0);
    assert!(manager.get_note("note1").is_none());
    assert!(manager.remove_note("note1").is_none());
}

#[test]
fn test_add_spent_nullifier_direct() {
    let mut manager = NoteManager::new();
    let n = vec![5u8; 32];
    manager.add_spent_nullifier(&n).unwrap();
    assert!(manager.is_nullifier_spent(&n));
    assert!(manager.add_spent_nullifier(&n).is_err());
    assert_eq!(manager.spent_nullifier_count(), 1);

    let stats = manager.get_nullifier_stats();
    assert_eq!(stats.count, 1);

    let exported = manager.get_spent_nullifiers();
    assert_eq!(exported, vec![n]);
}

#[test]
fn test_list_notes_entries() {
    let mut manager = NoteManager::new();
    let secret = Secret::new(vec![1, 2, 3, 4, 5, 6, 7, 8]);
    manager
        .add_note("a".to_string(), create_note(10, secret.clone()).unwrap())
        .unwrap();
    manager
        .add_note("b".to_string(), create_note(20, secret).unwrap())
        .unwrap();

    let all = manager.list_notes();
    assert_eq!(all.len(), 2);
    assert_eq!(all[0].0, "a");
    assert_eq!(all[0].1.note.value, 10);
    assert_eq!(all[1].0, "b");
    assert_eq!(all[1].1.note.value, 20);
}
