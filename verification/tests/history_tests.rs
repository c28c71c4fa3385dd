use clipstash::ClipboardHistory;
use clipstash::LoadOutcome;

#[test]
fn appends_keep_insertion_order() {
    let mut h = ClipboardHistory::empty();
    h.add_item("first".to_string());
    h.add_item("second".to_string());
    h.add_item("third".to_string());
    assert_eq!(h.len(), 3);
    assert_eq!(h.get_items(), vec!["first", "second", "third"]);
}

#[test]
fn remove_keeps_relative_order() {
    let mut h = ClipboardHistory::from_items(vec![
        "a".to_string(),
        "b".to_string(),
        "c".to_string(),
        "d".to_string(),
    ]);
    h.remove_item(1);
    assert_eq!(h.get_items(), vec!["a", "c", "d"]);
    h.remove_item(0);
    assert_eq!(h.get_items(), vec!["c", "d"]);
    h.remove_item(1);
    assert_eq!(h.get_items(), vec!["c"]);
}

#[test]
fn clear_leaves_empty_sequence() {
    let mut h = ClipboardHistory::from_items(vec!["a".to_string(), "b".to_string()]);
    h.clear_items();
    assert_eq!(h.len(), 0);
    assert!(h.get_items().is_empty());
}

#[test]
fn load_missing_file_starts_empty() {
    let h = ClipboardHistory::from_load(LoadOutcome::Missing);
    assert_eq!(h.len(), 0);
}

#[test]
fn load_unreadable_file_starts_empty() {
    let h = ClipboardHistory::from_load(LoadOutcome::Failed);
    assert_eq!(h.len(), 0);
}

#[test]
fn load_corrupt_file_starts_empty() {
    let h = ClipboardHistory::from_load(LoadOutcome::Found("{not json".to_string()));
    assert_eq!(h.len(), 0);
}

#[test]
fn load_valid_document_restores_entries() {
    let h = ClipboardHistory::from_load(LoadOutcome::Found(
        "{\"list_items\":[\"one\",\"two\"]}".to_string(),
    ));
    assert_eq!(h.get_items(), vec!["one", "two"]);
}
