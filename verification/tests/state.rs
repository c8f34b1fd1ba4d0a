//! The state that outlives the process.

use chatroom_bridge::state::{StateStore, DEFAULT_MAX_FORWARDED};

#[test]
fn a_marked_message_is_found_and_the_others_stay() {
    let mut store = StateStore::new();
    assert!(!store.already_forwarded("1"));
    store.mark_forwarded("1", 11);
    store.mark_forwarded("2", 22);
    assert_eq!(store.forwarded_id("1"), Some(11));
    assert_eq!(store.forwarded_id("2"), Some(22));
    store.mark_forwarded("1", 12);
    assert_eq!(store.forwarded_id("1"), Some(12));
    assert_eq!(store.pairs(), vec![("1".to_string(), 12), ("2".to_string(), 22)]);
}

#[test]
fn only_the_newest_messages_are_kept() {
    let mut store = StateStore::with_max_forwarded(2);
    for i in 1..=4 {
        store.mark_forwarded(&i.to_string(), i);
    }
    assert_eq!(store.pairs(), vec![("3".to_string(), 3), ("4".to_string(), 4)]);
    assert_eq!(DEFAULT_MAX_FORWARDED, 2000);
}

#[test]
fn what_is_saved_is_loaded_again_in_its_order() {
    let mut store = StateStore::new();
    store.mark_forwarded("9", 1);
    store.mark_forwarded("10", -2);
    store.mark_forwarded("\"中\"", i64::MAX);
    store.set_last_read_message_id(77);
    store.set_refresh_token("rt".to_string());
    let text = store.text();
    let back = StateStore::load(Some(text.into_bytes()), DEFAULT_MAX_FORWARDED);
    assert_eq!(back.pairs(), store.pairs());
    assert_eq!(back.last_read_message_id(), 77);
    assert_eq!(back.refresh_token(), "rt");
    let snapshot = back.snapshot();
    assert_eq!(snapshot.forwarded_count, 3);
    assert_eq!(snapshot.last_read_message_id, 77);
    assert!(snapshot.has_refresh_token);
}

#[test]
fn the_file_is_written_in_lines() {
    let mut store = StateStore::new();
    store.mark_forwarded("5", 6);
    assert_eq!(
        store.text(),
        "{\n  \"forwarded\": {\n    \"5\": 6\n  },\n  \"last_read_message_id\": 0,\n  \"refresh_token\": \"\"\n}"
    );
}

#[test]
fn a_broken_or_missing_file_is_a_blank_state() {
    for file in [
        None,
        Some("{broken"),
        Some("[]"),
        Some("{\"forwarded\": {\"1\": \"x\"}}"),
        Some("{\"last_read_message_id\": null}"),
        Some("{\"refresh_token\": 5}"),
    ] {
        let store = StateStore::load(file.map(|t| t.as_bytes().to_vec()), 10);
        assert!(store.pairs().is_empty(), "{file:?}");
        assert_eq!(store.last_read_message_id(), 0);
        assert_eq!(store.refresh_token(), "");
    }
    let partial = StateStore::load(Some(b"{\"forwarded\": {\"1\": 2}}".to_vec()), 10);
    assert_eq!(partial.forwarded_id("1"), Some(2));
}

#[test]
fn restored_values_are_held_once() {
    let store = StateStore::restored(
        10,
        vec![("a".to_string(), 1), ("b".to_string(), 2), ("a".to_string(), 3)],
        4,
        "t".to_string(),
    );
    assert_eq!(store.pairs(), vec![("a".to_string(), 3), ("b".to_string(), 2)]);
}

#[test]
fn any_key_is_loaded_again() {
    let mut store = StateStore::new();
    store.mark_forwarded("$serde_json::private::RawValue", 7);
    store.mark_forwarded("2", 8);
    let back = StateStore::load(Some(store.text().into_bytes()), DEFAULT_MAX_FORWARDED);
    assert_eq!(back.forwarded_id("$serde_json::private::RawValue"), Some(7));
    assert_eq!(back.forwarded_id("2"), Some(8));
}
