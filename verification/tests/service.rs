//! The hub and its log.

use chatroom_bridge::adapters::forward_api::{build_payload, PostSource};
use chatroom_bridge::adapters::onebot::parse_group_message;
use chatroom_bridge::config::read_config;
use chatroom_bridge::json::{json_text, parse_json, Json};
use chatroom_bridge::router::Source;
use chatroom_bridge::service::{
    data_uri, resolve, sent_to_any, BridgeService, RecentLog, RECENT_MESSAGES_CAP,
    RECENT_MESSAGE_TEXT_MAX,
};
use chatroom_bridge::state::StateStore;

fn j(text: &str) -> Json {
    parse_json(text.as_bytes()).unwrap()
}

fn service(cfg: &str) -> BridgeService {
    BridgeService::new(read_config(cfg.as_bytes()).unwrap(), StateStore::new(), &vec![], "/cache")
}

#[test]
fn the_log_keeps_the_newest_messages() {
    let mut log = RecentLog::new(3);
    assert!(log.is_empty());
    for i in 0..5 {
        log.push("qq", "a", &format!("m{i}"), i);
    }
    assert_eq!(log.len(), 3);
    let texts: Vec<String> = log.latest(10).into_iter().map(|r| r.text).collect();
    assert_eq!(texts, ["m2", "m3", "m4"]);
    let ids: Vec<u64> = log.latest(2).into_iter().map(|r| r.id).collect();
    assert_eq!(ids, [4, 5]);
    assert!(log.latest(0).is_empty());

    log.push("qq", "a", &"字".repeat(RECENT_MESSAGE_TEXT_MAX + 10), 9);
    assert_eq!(log.latest(1)[0].text.chars().count(), RECENT_MESSAGE_TEXT_MAX);
    assert_eq!(RECENT_MESSAGES_CAP, 200);
}

#[test]
fn images_and_addresses() {
    assert_eq!(data_uri(&[1, 2, 3]), "base64://AQID");
    assert_eq!(resolve(&j(r#"{"url": "http://x"}"#)).as_deref(), Some("http://x"));
    assert_eq!(resolve(&j(r#"{"url": 5}"#)), None);
    assert_eq!(resolve(&j("{}")), None);
    assert!(sent_to_any(&vec![false, true]));
    assert!(!sent_to_any(&vec![false, false]));
    assert!(!sent_to_any(&vec![]));
}

#[test]
fn only_the_configured_groups_are_heard() {
    let mut s = service(r#"{"chatroom": {"group_ids": [2, 1, 2]}}"#);
    assert_eq!(s.group_ids, vec![1, 2]);
    let event = |group: i64| {
        parse_group_message(&j(&format!(
            r#"{{"post_type": "message", "message_type": "group", "group_id": {group},
                "user_id": 7, "message_id": 1, "sender": {{"nickname": "n"}},
                "message": "hi"}}"#
        )))
        .unwrap()
    };
    let inbound = s.handle_group_message(&event(1), 5).unwrap();
    assert_eq!(inbound.source, Source::QQ);
    assert_eq!(inbound.text, "hi");
    assert_eq!(inbound.display_name, "n");
    assert!(s.handle_group_message(&event(3), 5).is_none());
    assert_eq!(s.recent_log().len(), 1);
}

#[test]
fn a_chatroom_message_goes_to_the_router_and_to_the_game() {
    let mut s = service(r#"{"chatroom": {"qq_to_game_enabled": true}}"#);
    let message = j(r#"{"id": 3, "content": " 你好 ", "source": "web", "user": {"username": "alice"}, "username": "alice"}"#);
    let out = s.dispatch_chatroom_message(&message, 5).unwrap();
    assert!(matches!(out.inbound.source, Source::Chatroom { .. }));
    assert_eq!(s.recent_log().latest(1)[0].source, "chatroom");
    assert!(s.dispatch_chatroom_message(&j(r#"{"id": 4, "content": "  "}"#), 5).is_none());
}

#[test]
fn a_game_message_goes_to_the_chatroom() {
    let mut s = service("{}");
    let out = s.on_game_chat("mc", "steve", " 大家好 ", 5).unwrap();
    assert_eq!(out.text, "🎮 [mc] steve: 大家好");
    assert_eq!(out.nickname, "steve");
    let out = s.on_game_chat("mc", "", "重启", 5).unwrap();
    assert_eq!(out.text, "🟢 重启");
    assert_eq!(out.nickname, "mc");
    assert!(s.on_game_chat("mc", "steve", " ", 5).is_none());
}

#[test]
fn posts_are_numbered() {
    let mut s = service(r#"{"chatroom": {"forward_token": "f", "channel_id": 1}}"#);
    let first = s.post_game_message("game", "a", "n", "u", 9).unwrap();
    let second = s.post_game_message("game", "a", "n", "u", 9).unwrap();
    assert_ne!(first.source_message_id, second.source_message_id);
    assert_eq!(first.source_message_id, "game-9-1");
    let chat = s.forward_game_chat("a", "n", "u", 9).unwrap();
    assert_eq!(chat.source_message_id, "game-chat-9-3");
    assert_eq!(first.source, PostSource::Game);
    let shown = json_text(&build_payload(&first));
    assert!(shown.contains("\"content\":\"a\""), "{shown}");

    let mut off = service(r#"{"chatroom": {"forward_token": ""}}"#);
    assert!(off.chatroom_reply("x", 9).is_none());
    assert_eq!(off.game_seq, 0);
}

#[test]
fn what_is_off_is_not_there() {
    let s = service("{}");
    assert!(!s.chatbridge_enabled());
    assert!(!s.chatbridge_connected());
    assert!(!s.player_events_enabled());
    assert!(s.game_broadcast("x").is_none());
    assert!(s.command_stats().is_empty());
    assert_eq!(s.forwarder_stats().forwarded, 0);
    assert_eq!(s.tracker_stats().online, 0);
    assert_eq!(s.capabilities().len(), 3);
}

#[test]
fn a_poll_saves_the_position() {
    let mut hub = service("{}");
    let (fresh, moved) = hub.poll_chatroom(Some(vec![j(r#"{"id": 5}"#), j(r#"{"id": 3}"#)]));
    assert!(fresh.is_empty() && moved);
    assert_eq!(hub.state.last_read_message_id(), 5);
    let (fresh, moved) = hub.poll_chatroom(Some(vec![j(r#"{"id": 7}"#), j(r#"{"id": 6}"#)]));
    let texts: Vec<String> = fresh.iter().map(json_text).collect();
    assert_eq!(texts, [r#"{"id":6}"#, r#"{"id":7}"#]);
    assert!(moved);
    assert_eq!(hub.state.last_read_message_id(), 7);
    let (fresh, moved) = hub.poll_chatroom(None);
    assert!(fresh.is_empty() && !moved);
    assert_eq!(hub.state.last_read_message_id(), 7);
}
