//! Players who come and go, told by the snapshots of the status API.

use chatroom_bridge::json::{json_text, parse_json, Json};
use chatroom_bridge::services::player_tracker::{
    fetch_raw, sorted_difference, EventType, PlayerEvent, PlayerTracker, TrackerStats,
};

fn j(text: &str) -> Json {
    parse_json(text.as_bytes()).unwrap()
}

fn server(name: &str, players: &[&str]) -> String {
    let names: Vec<String> = players.iter().map(|p| format!("\"{p}\"")).collect();
    format!(r#"{{"server_name": "{name}", "online_players": [{}]}}"#, names.join(","))
}

fn status(servers: &[String]) -> String {
    format!(r#"{{"servers": [{}]}}"#, servers.join(","))
}

fn tracker(debounce: u32) -> PlayerTracker {
    PlayerTracker::new(debounce, "http://127.0.0.1:1/none")
}

/// One round on a reply of the status API, with `pushed` as the fate of each event.
fn poll(t: &mut PlayerTracker, body: &str, pushed: bool) -> Vec<PlayerEvent> {
    let Some(current) = fetch_raw(Some((200, body.as_bytes().to_vec()))) else {
        return Vec::new();
    };
    let due = t.diff_once(&current, 7);
    let mut confirmed = Vec::new();
    for event in due {
        if t.maybe_confirm(&event, pushed) {
            confirmed.push(event);
        }
    }
    t.finish_round(&current);
    confirmed
}

fn described(events: &[PlayerEvent]) -> Vec<String> {
    events.iter().map(|event| format!("{:?}:{}", event.event_type, event.player)).collect()
}

fn entry(server: &str, players: &[&str]) -> (String, Vec<String>) {
    (server.to_string(), players.iter().map(|p| p.to_string()).collect())
}

fn stats(online: u64, offline: u64, failed: u64) -> TrackerStats {
    TrackerStats { online, offline, failed }
}

#[test]
fn fetch_raw_parses_and_skips_empty() {
    let body = r#"{ "servers": [
        { "server_name": "生存", "online_players": ["alice", "bob", "", 0, null] },
        { "server_name": "", "online_players": ["x"] },
        { "online_players": ["y"] },
        { "server_name": "空服", "online_players": [] },
        "junk",
        { "server_name": "空服2" }
    ]}"#;
    let raw = fetch_raw(Some((200, body.as_bytes().to_vec()))).unwrap();
    assert_eq!(raw.len(), 2);
    assert!(raw.contains(&entry("生存", &["alice", "bob"])), "{raw:?}");
    assert!(raw.contains(&entry("unknown", &["y"])), "{raw:?}");
}

#[test]
fn fetch_raw_failure_paths_return_none() {
    assert!(fetch_raw(Some((500, b"boom".to_vec()))).is_none());
    assert!(fetch_raw(Some((200, b"[1,2,3]".to_vec()))).is_none());
    assert!(fetch_raw(Some((200, "不是 JSON".as_bytes().to_vec()))).is_none());
    assert!(fetch_raw(None).is_none());
}

#[test]
fn diff_produces_online_then_offline_in_order() {
    let mut t = tracker(1);
    let events =
        poll(&mut t, &status(&[server("srv-b", &["p2", "p1"]), server("srv-a", &["q1"])]), true);
    assert_eq!(described(&events), ["Online:q1", "Online:p1", "Online:p2"]);
    assert!(events.iter().all(|event| event.timestamp == 7));
    assert_eq!(t.stats(), stats(3, 0, 0));

    let events = poll(&mut t, &status(&[server("srv-a", &[]), server("srv-b", &["p1"])]), true);
    assert_eq!(described(&events), ["Offline:q1", "Offline:p2"]);
    assert_eq!(t.stats(), stats(3, 2, 0));
    assert_eq!(t.snapshot(), vec![entry("srv-b", &["p1"])]);
}

#[test]
fn debounce_requires_consecutive_polls() {
    let mut t = tracker(2);
    let body = status(&[server("srv", &["p"])]);
    assert!(poll(&mut t, &body, true).is_empty());
    assert!(t.snapshot().is_empty());
    assert_eq!(t.stats(), stats(0, 0, 0));

    assert_eq!(described(&poll(&mut t, &body, true)), ["Online:p"]);
    assert_eq!(t.snapshot(), vec![entry("srv", &["p"])]);
    assert_eq!(t.stats().online, 1);
}

#[test]
fn blip_cancels_pending_transition() {
    let mut t = tracker(2);
    t.restore(&j(r#"{ "srv": ["p"] }"#));
    let gone = status(&[server("srv", &[])]);
    let back = status(&[server("srv", &["p"])]);

    assert!(poll(&mut t, &gone, true).is_empty());
    assert_eq!(t.snapshot(), vec![entry("srv", &["p"])]);
    assert_eq!(t.stats().offline, 0);

    assert!(poll(&mut t, &back, true).is_empty());
    assert_eq!(t.snapshot(), vec![entry("srv", &["p"])]);
    assert_eq!(t.stats().offline, 0);

    assert!(poll(&mut t, &gone, true).is_empty());
    assert_eq!(t.snapshot(), vec![entry("srv", &["p"])]);

    assert_eq!(described(&poll(&mut t, &gone, true)), ["Offline:p"]);
    assert!(t.snapshot().is_empty());
    assert_eq!(t.stats().offline, 1);
}

#[test]
fn empty_servers_are_cleaned_from_confirmed() {
    let mut t = tracker(1);
    t.restore(&j(r#"{ "srv-1": ["p"], "srv-2": ["q"] }"#));
    let events = poll(&mut t, &status(&[server("srv-2", &["q"])]), true);
    assert_eq!(described(&events), ["Offline:p"]);
    assert_eq!(t.snapshot(), vec![entry("srv-2", &["q"])]);
    assert_eq!(t.stats().offline, 1);
}

#[test]
fn on_event_false_keeps_pending_for_retry() {
    let mut t = tracker(1);
    let body = status(&[server("srv", &["p"])]);
    assert!(poll(&mut t, &body, false).is_empty());
    assert!(t.snapshot().is_empty());
    assert_eq!(t.stats(), stats(0, 0, 1));

    assert_eq!(described(&poll(&mut t, &body, true)), ["Online:p"]);
    assert_eq!(t.stats(), stats(1, 0, 1));
    assert_eq!(t.snapshot(), vec![entry("srv", &["p"])]);
}

/// A push that breaks off counts as one that was refused.
#[test]
fn on_event_panic_counts_as_failure() {
    let mut t = tracker(1);
    let body = status(&[server("srv", &["p"])]);
    assert!(poll(&mut t, &body, false).is_empty());
    assert_eq!(t.stats().failed, 1);
    assert!(t.snapshot().is_empty());
    assert_eq!(described(&poll(&mut t, &body, true)), ["Online:p"]);
    assert_eq!(t.stats().online, 1);
}

#[test]
fn snapshot_restore_roundtrip() {
    let mut t = tracker(1);
    poll(
        &mut t,
        &status(&[server("生存", &["alice", "bob"]), server("空岛", &["carol"])]),
        true,
    );
    let snapshot = t.snapshot();
    let saved = Json::Object(
        snapshot
            .iter()
            .map(|(name, players)| {
                let list = players.iter().map(|p| Json::Str(p.clone())).collect();
                (name.clone(), Json::Array(list))
            })
            .collect(),
    );
    let mut restored = tracker(1);
    restored.restore(&parse_json(json_text(&saved).as_bytes()).unwrap());
    assert_eq!(restored.snapshot(), snapshot);
    assert_eq!(snapshot.len(), 2);
}

#[test]
fn restore_is_loose_and_replaces() {
    let mut t = tracker(2);
    t.restore(&j(
        r#"{ "srv": ["a", 5, null, true], "bad": 42, "worse": null, "empty": [] }"#,
    ));
    let snapshot = t.snapshot();
    assert_eq!(snapshot.len(), 4);
    assert!(snapshot.contains(&entry("srv", &["5", "a", "true"])), "{snapshot:?}");
    assert!(snapshot.contains(&entry("bad", &[])));
    assert!(snapshot.contains(&entry("worse", &[])));
    assert!(snapshot.contains(&entry("empty", &[])));

    t.restore(&j(r#"{ "other": ["x"] }"#));
    assert_eq!(t.snapshot(), vec![entry("other", &["x"])]);

    t.restore(&j("[1, 2, 3]"));
    assert_eq!(t.snapshot().len(), 1);
}

fn event(event_type: EventType, player: &str, timestamp: i64) -> PlayerEvent {
    PlayerEvent { event_type, server: "s1".to_string(), player: player.to_string(), timestamp }
}

fn assert_clock(clock: &str) {
    let bytes = clock.as_bytes();
    assert_eq!(clock.len(), 8, "{clock}");
    assert_eq!(bytes[2], b':', "{clock}");
    assert_eq!(bytes[5], b':', "{clock}");
    for (index, byte) in bytes.iter().enumerate() {
        if index != 2 && index != 5 {
            assert!(byte.is_ascii_digit(), "{clock}");
        }
    }
}

#[test]
fn format_message_renders_icon_action_and_clock() {
    let none: Vec<(String, String)> = Vec::new();
    let message = event(EventType::Online, "Alice", 0).format_message(&none);
    assert!(message.contains("🎮"), "{message}");
    assert!(message.contains("上线"), "{message}");
    assert!(message.contains("Alice → s1"), "{message}");
    assert_clock(&message[message.len() - 8..]);

    let offline = event(EventType::Offline, "Bob", 86_399);
    let names = vec![("s1".to_string(), "生存服".to_string())];
    let message = offline.format_message(&names);
    assert!(message.contains("🚪"), "{message}");
    assert!(message.contains("下线"), "{message}");
    assert!(message.contains("Bob → 生存服"), "{message}");
    assert!(!message.contains("Alice"));
    assert_clock(&message[message.len() - 8..]);

    let message = offline.format_message(&none);
    assert!(message.contains("Bob → s1"), "{message}");
}

#[test]
fn a_vanished_server_leaves_nothing_to_wait_for() {
    let mut t = tracker(2);
    assert!(poll(&mut t, &status(&[server("srv", &["p"])]), true).is_empty());
    assert_eq!(t.pending.len(), 1);
    assert!(poll(&mut t, &status(&[]), true).is_empty());
    assert!(t.pending.is_empty());
}

#[test]
fn a_difference_keeps_the_order() {
    let left = vec!["a".to_string(), "b".to_string(), "c".to_string()];
    let right = vec!["b".to_string()];
    assert_eq!(sorted_difference(&left, &right), vec!["a".to_string(), "c".to_string()]);
}
