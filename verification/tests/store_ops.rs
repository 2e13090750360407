use my_notes::keys::key_for;
use my_notes::store::NoteStore;

fn store_of(texts: &[&str]) -> NoteStore {
    let mut s = NoteStore::new();
    for t in texts {
        s.add_note((*t).to_string());
    }
    s
}

fn pairs_of(s: &NoteStore) -> Vec<(String, String)> {
    s.pairs()
}

#[test]
fn add_hands_out_sequential_keys() {
    let mut s = NoteStore::new();
    let k1 = s.add_note("first".to_string());
    let k2 = s.add_note("second".to_string());
    let k3 = s.add_note("third".to_string());
    assert_eq!(k1, "1");
    assert_eq!(k2, "2");
    assert_eq!(k3, "3");
    assert_eq!(s.len(), 3);
}

#[test]
fn delete_renumbers_survivors_in_order() {
    let mut s = store_of(&["A", "B", "C"]);
    let removed = s.delete_note(&"2".to_string());
    assert!(removed);
    assert_eq!(
        pairs_of(&s),
        vec![("1".to_string(), "A".to_string()), ("2".to_string(), "C".to_string())]
    );
}

#[test]
fn delete_last_key_still_renumbers() {
    let mut s = store_of(&["A", "B"]);
    assert!(s.delete_note(&"2".to_string()));
    assert_eq!(pairs_of(&s), vec![("1".to_string(), "A".to_string())]);
}

#[test]
fn delete_missing_key_reports_failure_and_changes_nothing() {
    let mut s = store_of(&["A", "B"]);
    let removed = s.delete_note(&"7".to_string());
    assert!(!removed);
    assert_eq!(
        pairs_of(&s),
        vec![("1".to_string(), "A".to_string()), ("2".to_string(), "B".to_string())]
    );
}

#[test]
fn add_after_delete_reuses_next_count_key() {
    let mut s = store_of(&["A", "B", "C"]);
    s.delete_note(&"1".to_string());
    let k = s.add_note("D".to_string());
    assert_eq!(k, "3");
    assert_eq!(
        pairs_of(&s),
        vec![
            ("1".to_string(), "B".to_string()),
            ("2".to_string(), "C".to_string()),
            ("3".to_string(), "D".to_string())
        ]
    );
}

#[test]
fn swap_exchanges_values_and_keeps_keys() {
    let mut s = store_of(&["A", "B"]);
    let swapped = s.swap_notes(&"1".to_string(), &"2".to_string());
    assert!(swapped);
    assert_eq!(
        pairs_of(&s),
        vec![("1".to_string(), "B".to_string()), ("2".to_string(), "A".to_string())]
    );
}

#[test]
fn swap_with_missing_key_changes_nothing() {
    let mut s = store_of(&["A", "B"]);
    let swapped = s.swap_notes(&"1".to_string(), &"9".to_string());
    assert!(!swapped);
    assert_eq!(
        pairs_of(&s),
        vec![("1".to_string(), "A".to_string()), ("2".to_string(), "B".to_string())]
    );
}

#[test]
fn set_note_replaces_in_place() {
    let mut s = store_of(&["A", "B", "C"]);
    let updated = s.set_note(&"2".to_string(), "BB".to_string());
    assert!(updated);
    assert_eq!(
        pairs_of(&s),
        vec![
            ("1".to_string(), "A".to_string()),
            ("2".to_string(), "BB".to_string()),
            ("3".to_string(), "C".to_string())
        ]
    );
}

#[test]
fn set_note_on_missing_key_changes_nothing() {
    let mut s = store_of(&["A"]);
    assert!(s.note_text(&"2".to_string()).is_none());
    let updated = s.set_note(&"2".to_string(), "new".to_string());
    assert!(!updated);
    assert_eq!(pairs_of(&s), vec![("1".to_string(), "A".to_string())]);
}

#[test]
fn note_text_returns_stored_value() {
    let s = store_of(&["A", "B"]);
    assert_eq!(s.note_text(&"2".to_string()), Some("B".to_string()));
    assert!(s.contains(&"1".to_string()));
    assert!(!s.contains(&"3".to_string()));
}

#[test]
fn clear_empties_the_store() {
    let mut s = store_of(&["A", "B"]);
    s.clear_notes();
    assert!(s.is_empty());
    assert_eq!(s.len(), 0);
    assert_eq!(pairs_of(&s), Vec::<(String, String)>::new());
}

#[test]
fn key_for_renders_decimal() {
    assert_eq!(key_for(0), "0");
    assert_eq!(key_for(1), "1");
    assert_eq!(key_for(10), "10");
    assert_eq!(key_for(12345), "12345");
}
