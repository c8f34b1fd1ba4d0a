//! Reading from the chatroom.

use chatroom_bridge::adapters::chatroom_read::{extract_qq_forward, message_id, ChatroomReader};
use chatroom_bridge::json::{parse_json, Json};
use chatroom_bridge::state::StateStore;

fn j(text: &str) -> Json {
    parse_json(text.as_bytes()).unwrap()
}

fn ok(text: &str) -> Option<(u16, Vec<u8>)> {
    Some((200, text.as_bytes().to_vec()))
}

fn make_reader(seeded: i64) -> ChatroomReader {
    ChatroomReader::new("https://chatroom.example.com", 1, seeded)
}

fn poll(reader: &mut ChatroomReader, reply: Option<(u16, Vec<u8>)>) -> Vec<Json> {
    reader.poll_once(ChatroomReader::fetch_messages(reply))
}

fn ids_of(messages: &[Json]) -> Vec<i64> {
    messages.iter().map(message_id).collect()
}

#[test]
fn extract_qq_forward_matches_python_semantics() {
    assert_eq!(extract_qq_forward("!q hello").as_deref(), Some("hello"));
    assert_eq!(extract_qq_forward("!Q  x ").as_deref(), Some("x"));
    assert_eq!(
        extract_qq_forward("  !q   多余空格  ").as_deref(),
        Some("多余空格")
    );
    assert_eq!(extract_qq_forward("!q"), None);
    assert_eq!(extract_qq_forward("  !q  "), None);
    assert_eq!(extract_qq_forward("普通消息"), None);
    assert_eq!(extract_qq_forward("qq 没有感叹号"), None);
    assert_eq!(extract_qq_forward(""), None);
    assert_eq!(extract_qq_forward("!qx").as_deref(), Some("x"));
}

#[test]
fn first_poll_skips_backlog_and_advances_cursor() {
    let mut store = StateStore::new();
    let mut reader = make_reader(store.last_read_message_id());
    let request = reader.fetch_request("jwt");
    assert_eq!(request.limit, 10);
    assert_eq!(request.authorization, "Bearer jwt");

    let first = poll(
        &mut reader,
        ok(r#"[{"id": 30, "content": "新", "user_id": 1, "username": "甲"},
               {"id": 20, "content": "旧", "user_id": 1, "username": "甲"}]"#),
    );
    assert!(first.is_empty());
    assert_eq!(reader.cursor(), 30);
    store.set_last_read_message_id(reader.cursor());
    assert_eq!(store.last_read_message_id(), 30);

    let fresh = poll(
        &mut reader,
        ok(r#"[{"id": 31, "content": "b", "user_id": 2, "username": "乙"},
               {"id": 33, "content": "c", "user_id": 2, "username": "乙"},
               {"id": 30, "content": "新", "user_id": 1, "username": "甲"}]"#),
    );
    assert_eq!(ids_of(&fresh), vec![31, 33]);
    assert_eq!(reader.cursor(), 33);
}

#[test]
fn poll_once_returns_incremental_messages_sorted() {
    let mut reader = make_reader(0);
    let first = poll(
        &mut reader,
        ok(r#"[{"id": 3, "content": "m3"}, {"id": 1, "content": "m1"}, {"id": 5, "content": "m5"},
               {"id": 2, "content": "m2"}, {"id": 4, "content": "m4"}]"#),
    );
    assert!(first.is_empty());
    assert_eq!(reader.cursor(), 5);

    let fresh = poll(
        &mut reader,
        ok(r#"[{"id": 7, "content": "newer"}, {"id": 6, "content": "new"}]"#),
    );
    assert_eq!(ids_of(&fresh), vec![6, 7]);
    assert_eq!(reader.cursor(), 7);
}

#[test]
fn cursor_persists_across_restart() {
    let mut store = StateStore::new();
    let batch = r#"[{"id": 42, "content": "x", "user_id": 1}]"#;
    let mut reader = make_reader(store.last_read_message_id());
    assert!(poll(&mut reader, ok(batch)).is_empty());
    assert_eq!(reader.cursor(), 42);
    store.set_last_read_message_id(reader.cursor());

    let saved = store.text();
    let store2 = StateStore::load(Some(saved.into_bytes()), 2000);
    assert_eq!(store2.last_read_message_id(), 42);

    let mut reader2 = make_reader(store2.last_read_message_id());
    assert_eq!(reader2.cursor(), 42);
    assert!(poll(&mut reader2, ok(batch)).is_empty());
    assert_eq!(reader2.cursor(), 42);
}

#[test]
fn own_message_detection() {
    assert!(ChatroomReader::is_own_message(&j(r#"{"user_id": 999}"#), Some(999)));
    assert!(!ChatroomReader::is_own_message(&j(r#"{"user_id": 1000}"#), Some(999)));
    assert!(!ChatroomReader::is_own_message(&j(r#"{"content": "no user"}"#), Some(999)));
    assert!(!ChatroomReader::is_own_message(&j(r#"{"user_id": 999}"#), None));
    assert!(ChatroomReader::is_own_message(&j(r#"{"user_id": 999.0}"#), Some(999)));
    assert!(!ChatroomReader::is_own_message(&j(r#"{"user_id": 999.5}"#), Some(999)));
}

#[test]
fn fetch_failure_returns_empty_and_keeps_cursor() {
    let mut store = StateStore::new();
    store.set_last_read_message_id(100);
    let mut reader = make_reader(store.last_read_message_id());
    assert_eq!(reader.cursor(), 100);
    assert!(poll(&mut reader, Some((500, Vec::new()))).is_empty());
    assert_eq!(reader.cursor(), 100);
    assert!(ChatroomReader::fetch_messages(Some((500, Vec::new()))).is_none());
}

#[test]
fn ensure_token_false_short_circuits_before_http() {
    let mut reader = make_reader(0);
    assert!(ChatroomReader::fetch_messages(None).is_none());
    assert!(poll(&mut reader, None).is_empty());
    assert_eq!(reader.cursor(), 0);
    assert!(!reader.initialized);
}

#[test]
fn fetch_messages_tolerates_response_shapes() {
    let count = |text: &str| ChatroomReader::fetch_messages(ok(text)).unwrap().len();
    assert_eq!(count(r#"[{"id": 1}, {"id": 2}]"#), 2);
    assert_eq!(count(r#"{"data": [{"id": 3}]}"#), 1);
    assert_eq!(count(r#"{"messages": [{"id": 4}, {"id": 5}]}"#), 2);
    assert_eq!(count(r#"{"items": [{"id": 6}]}"#), 1);
    assert_eq!(count(r#"{"junk": "不是数组", "total": 0}"#), 0);
    assert_eq!(count(r#""既不是数组也不是对象""#), 0);
}

#[test]
fn fetch_limit_visible_in_query() {
    let reader = make_reader(0).with_fetch_limit(3);
    let request = reader.fetch_request("jwt");
    assert_eq!(request.limit, 3);
    assert_eq!(
        request.url,
        "https://chatroom.example.com/api/channels/1/messages"
    );
}

#[test]
fn polling_the_same_messages_again_finds_nothing() {
    let mut reader = make_reader(0);
    poll(&mut reader, ok(r#"[{"id": 1}]"#));
    let batch = r#"[{"id": 4}, {"id": 2}, {"id": 3}]"#;
    assert_eq!(ids_of(&poll(&mut reader, ok(batch))), vec![2, 3, 4]);
    assert!(poll(&mut reader, ok(batch)).is_empty());
    assert_eq!(reader.cursor(), 4);
}

#[test]
fn large_numbers_are_told_apart() {
    let id = Some(9007199254740992);
    assert!(ChatroomReader::is_own_message(&j(r#"{"user_id": 9007199254740992}"#), id));
    assert!(!ChatroomReader::is_own_message(&j(r#"{"user_id": 9007199254740993}"#), id));
    assert!(!ChatroomReader::is_own_message(&j(r#"{"user_id": 18446744073709551615}"#), id));
    assert!(ChatroomReader::is_own_message(&j(r#"{"user_id": -7}"#), Some(-7)));
}
