//! The HTTP API.

use chatroom_bridge::api::{
    authorized, health, is_json_type, is_preflight, messages, relay, relay_post, relayed, status, unavailable, Relay,
    CORS_HEADERS, CORS_METHODS, CORS_ORIGIN,
};
use chatroom_bridge::config::{read_config, AppConfig};
use chatroom_bridge::json::{json_text, Json};
use chatroom_bridge::service::BridgeService;
use chatroom_bridge::state::StateStore;

fn config(token: &str) -> AppConfig {
    read_config(
        format!(
            r#"{{"onebot": {{"listen_host": "127.0.0.1", "listen_port": 0, "path": "/ws",
                    "access_token": "", "self_id": 10000}},
                "chatroom": {{"base_url": "http://mock", "channel_id": 1, "forward_token": "ftok",
                    "refresh_token": "", "group_ids": [123], "qq_to_game_enabled": false}},
                "chatbridge": {{"enabled": false, "host": ""}},
                "commands": {{"group_allow_all": true, "status_image": false}},
                "api": {{"enabled": true, "listen_host": "127.0.0.1", "listen_port": 0,
                    "access_token": "{token}"}},
                "log_level": "WARN"}}"#
        )
        .as_bytes(),
    )
    .unwrap()
}

fn service(token: &str) -> BridgeService {
    BridgeService::new(config(token), StateStore::new(), &vec![], "/cache")
}

fn text<'a>(j: &'a Json, key: &str) -> &'a str {
    j.get(key).unwrap().as_str().unwrap()
}

#[test]
fn token_auth_accepts_header_and_bearer() {
    assert!(!authorized("tok123", None, None));
    assert!(authorized("tok123", Some("tok123"), None));
    assert!(authorized("tok123", None, Some("Bearer tok123")));
    assert!(!authorized("tok123", None, Some("Bearer nope")));
}

#[test]
fn empty_token_rejects_everything() {
    assert!(!authorized("", Some("anything"), None));
    assert!(!authorized("", Some(""), Some("Bearer ")));
}

#[test]
fn api_read_write_and_auth() {
    let mut service = service("apitok");

    let health = health("0.1.0", 3);
    assert_eq!(text(&health, "status"), "ok");
    assert_eq!(text(&health, "version"), "0.1.0");

    let status = status(&service, 0, "0.1.0", 3);
    let Json::Array(capabilities) = status.get("capabilities").unwrap() else {
        panic!("no capabilities")
    };
    let names: Vec<&str> = capabilities.iter().map(|c| text(c, "name")).collect();
    assert!(names.contains(&"chatroom") && names.contains(&"q") && names.contains(&"snap"));
    assert_eq!(json_text(status.get("chatbridge").unwrap().get("enabled").unwrap()), "false");
    assert_eq!(
        json_text(status.get("state").unwrap().get("forwarded_count").unwrap()),
        "0"
    );

    service.on_game_chat("mc", "steve", "大家好", 5).unwrap();
    assert_eq!(service.recent_log().len(), 1);
    let log = messages(&service, Some("10"));
    let Json::Array(list) = log.get("messages").unwrap() else { panic!("no messages") };
    assert_eq!(text(&list[0], "source"), "game");
    assert_eq!(text(&list[0], "from"), "steve");
    assert_eq!(text(&list[0], "text"), "大家好");

    let hi = r#"{"target": "chatroom", "text": "hi"}"#.as_bytes();
    assert_eq!(relay("apitok", None, None, hi).unwrap_err().status, 403);

    let body = r#"{"target": "chatroom", "text": "来自 API 的消息"}"#.as_bytes();
    match relay("apitok", Some("apitok"), None, body) {
        Ok(Relay::Chatroom { text }) => {
            assert_eq!(text, "来自 API 的消息");
            let post = relay_post(&mut service, &text, 7).unwrap();
            assert_eq!(post.content, "来自 API 的消息");
            assert_eq!(post.nickname, "api");
            assert_eq!(post.source_message_id, "hub-7-1");
            let reply = relayed(true);
            assert_eq!(reply.status, 200);
            assert_eq!(json_text(reply.body.get("ok").unwrap()), "true");
        }
        other => panic!("{other:?}"),
    }

    let body = r#"{"target": "game", "text": "游戏广播"}"#.as_bytes();
    match relay("apitok", Some("apitok"), None, body) {
        Ok(Relay::Game { text }) => {
            assert!(service.game_broadcast(&text).is_none());
            let reply = relayed(false);
            assert_eq!(reply.status, 200);
            assert_eq!(json_text(reply.body.get("ok").unwrap()), "false");
        }
        other => panic!("{other:?}"),
    }

    let body = r#"{"target": "irc", "text": "x"}"#.as_bytes();
    assert_eq!(relay("apitok", Some("apitok"), None, body).unwrap_err().status, 400);

    assert!(is_preflight("OPTIONS"));
    assert!(!is_preflight("POST"));
    assert_eq!(CORS_ORIGIN, "*");
    assert!(CORS_METHODS.contains("POST"));
    assert!(CORS_HEADERS.contains("X-API-Token"));
}

#[test]
fn api_relay_requires_token_when_unconfigured() {
    assert_eq!(text(&health("0.1.0", 0), "status"), "ok");
    let hi = r#"{"target": "chatroom", "text": "hi"}"#.as_bytes();
    assert_eq!(relay("", Some("anything"), None, hi).unwrap_err().status, 403);
}

#[test]
fn a_bad_body_is_refused_behind_the_token() {
    assert_eq!(relay("t", Some("t"), None, b"{").unwrap_err().status, 400);
    assert_eq!(relay("t", Some("t"), None, b"{}").unwrap_err().status, 400);
    assert_eq!(relay("t", Some("x"), None, b"{").unwrap_err().status, 403);
    let blank = r#"{"target": "qq", "text": "  "}"#.as_bytes();
    assert_eq!(relay("t", Some("t"), None, blank).unwrap_err().status, 400);
    let group = r#"{"target": "qq", "text": "x", "group_id": 7}"#.as_bytes();
    assert!(matches!(
        relay("t", Some("t"), None, group),
        Ok(Relay::Qq { group_id: Some(7), .. })
    ));
    assert_eq!(unavailable().status, 503);
}

#[test]
fn the_status_keeps_the_tokens_to_itself() {
    let service = service("apitok");
    let shown = json_text(&status(&service, 0, "0.1.0", 3));
    assert!(!shown.contains("ftok"), "{shown}");
    assert!(!shown.contains("apitok"), "{shown}");
}

#[test]
fn a_limit_is_read_leniently() {
    let mut service = service("t");
    for i in 0..60 {
        service.on_game_chat("mc", "a", &format!("m{i}"), i).unwrap();
    }
    let count = |limit: Option<&str>| match messages(&service, limit).get("messages").unwrap() {
        Json::Array(list) => list.len(),
        _ => 0,
    };
    assert_eq!(count(Some("3")), 3);
    assert_eq!(count(Some("x")), count(None));
}

#[test]
fn a_body_has_to_be_declared_as_json() {
    assert!(is_json_type(Some("application/json")));
    assert!(is_json_type(Some("Application/JSON; charset=utf-8")));
    assert!(is_json_type(Some("application/problem+json")));
    assert!(!is_json_type(Some("text/plain")));
    assert!(!is_json_type(Some("text/x+json")));
    assert!(!is_json_type(None));
}
