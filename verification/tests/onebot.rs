//! The side of the QQ groups.

use chatroom_bridge::adapters::onebot::{
    authorized, decode_component, parse_group_message, parse_segments, query_param, Incoming,
    OneBotConnection, OneBotError, OneBotServer, Segment,
};
use chatroom_bridge::json::{json_text, parse_json, Json};

const TOKEN: &str = "secret-token";

fn j(text: &str) -> Json {
    parse_json(text.as_bytes()).unwrap()
}

fn raw_with(sender: &str, message: &str) -> Json {
    j(&format!(
        r#"{{"post_type": "message", "message_type": "group", "self_id": 10000,
            "group_id": 123456789, "user_id": 10001, "message_id": 1234567890,
            "sender": {sender}, "message": {message}}}"#
    ))
}

const SENDER: &str = r#"{ "user_id": 10001, "nickname": "玩家A", "card": "" }"#;

const MESSAGE: &str = r#"[
    { "type": "reply", "data": { "id": "987654321" } },
    { "type": "text", "data": { "text": "看看这个 " } },
    { "type": "image", "data": { "file": "abc.png", "url": "https://multimedia.nt.qq.com.cn/x" } },
    { "type": "at", "data": { "qq": "10000" } }
]"#;

fn group_event(message_id: i64) -> String {
    format!(
        r#"{{"post_type": "message", "message_type": "group", "group_id": 123456789,
            "user_id": 10001, "message_id": {message_id},
            "message": [{{"type": "text", "data": {{"text": "hi"}}}}]}}"#
    )
}

#[test]
fn parse_segments_tolerates_shapes() {
    let plain = parse_segments(&j("\"纯文本\""));
    assert_eq!(plain.len(), 1);
    assert_eq!(plain[0].kind, "text");
    assert_eq!(plain[0].text(), "纯文本");

    assert!(parse_segments(&j("\"\"")).is_empty());
    assert!(parse_segments(&Json::Null).is_empty());
    assert!(parse_segments(&j("12345")).is_empty());

    let segments = parse_segments(&j(r#"[{ "type": "text", "data": { "text": "hi" } }]"#));
    assert_eq!(segments[0].text(), "hi");

    let segments = parse_segments(&j(
        r#"[{ "no_type": 1 }, "junk", { "type": "face", "data": null }]"#,
    ));
    assert_eq!(segments.len(), 1);
    assert_eq!(segments[0].kind, "face");
    assert_eq!(json_text(&segments[0].data), "{}");

    let segments = parse_segments(&j(
        r#"[{ "type": "text", "data": "oops" }, { "type": "at", "data": { "qq": 5 } }]"#,
    ));
    assert_eq!(json_text(&segments[0].data), "{}");
    assert_eq!(json_text(&segments[1].data), r#"{"qq":5}"#);
}

#[test]
fn parse_group_message_fields() {
    let msg = parse_group_message(&raw_with(SENDER, MESSAGE)).unwrap();
    assert_eq!(msg.group_id, 123456789);
    assert_eq!(msg.user_id, 10001);
    assert_eq!(msg.message_id, 1234567890);
    assert_eq!(msg.display_name(), "玩家A");
    assert_eq!(msg.text(), "看看这个");
    assert_eq!(msg.reply_message_id().as_deref(), Some("987654321"));
    let files: Vec<String> = msg.images().iter().map(Segment::file).collect();
    assert_eq!(files, ["abc.png"]);
    assert_eq!(msg.images()[0].url(), "https://multimedia.nt.qq.com.cn/x");
    assert_eq!(msg.at_user_ids(), [10000]);
    assert_eq!(
        msg.describe(),
        "群=123456789 用户=玩家A(10001) 消息ID=1234567890"
    );
}

#[test]
fn card_takes_precedence_over_nickname() {
    let raw = raw_with(r#"{ "nickname": "玩家A", "card": "[1.21]PlayerCard" }"#, MESSAGE);
    assert_eq!(parse_group_message(&raw).unwrap().display_name(), "[1.21]PlayerCard");
}

#[test]
fn display_name_falls_back_to_user_id() {
    let msg = parse_group_message(&raw_with("{}", MESSAGE)).unwrap();
    assert_eq!(msg.display_name(), "10001");
}

#[test]
fn non_group_events_are_ignored() {
    for raw in [
        r#"{ "post_type": "message", "message_type": "private" }"#,
        r#"{ "post_type": "notice", "notice_type": "group_recall" }"#,
        r#"{ "post_type": "meta_event", "meta_event_type": "lifecycle" }"#,
    ] {
        assert!(parse_group_message(&j(raw)).is_none());
    }
}

#[test]
fn blank_and_at_only_messages() {
    let raw = raw_with(SENDER, r#"[{ "type": "at", "data": { "qq": "10001" } }]"#);
    let msg = parse_group_message(&raw).unwrap();
    assert_eq!(msg.text(), "");
    assert!(msg.images().is_empty());
    assert_eq!(msg.at_user_ids(), [10001]);
    assert!(msg.reply_message_id().is_none());
}

#[test]
fn at_user_ids_rejects_non_digits() {
    let raw = raw_with(
        SENDER,
        r#"[{ "type": "at", "data": { "qq": -1 } },
            { "type": "at", "data": { "qq": "abc" } },
            { "type": "at", "data": { "qq": null } },
            { "type": "at", "data": { "qq": 12.5 } },
            { "type": "at", "data": { "qq": 20002 } }]"#,
    );
    assert_eq!(parse_group_message(&raw).unwrap().at_user_ids(), [20002]);
}

#[test]
fn feed_routes_ok_response_to_data() {
    let mut conn = OneBotConnection::new();
    let call = conn.call("get_status", j("{}")).unwrap();
    assert_eq!(call.echo, 1);
    let (echo, result) = conn
        .feed(&j(r#"{"status": "ok", "retcode": 0, "data": { "detail": "pong" }, "echo": "1"}"#))
        .unwrap();
    assert_eq!(echo, 1);
    assert_eq!(json_text(&result.unwrap()), r#"{"detail":"pong"}"#);
    assert!(conn.pending.is_empty());
}

#[test]
fn feed_maps_failure_to_failed_error() {
    let mut conn = OneBotConnection::new();
    conn.call("send_group_text", j("{}")).unwrap();
    let (_, result) = conn
        .feed(&j(
            r#"{"status": "failed", "retcode": 1200, "message": "words too long",
                "wording": "应该用 wording", "echo": 1}"#,
        ))
        .unwrap();
    let err = result.unwrap_err();
    assert!(matches!(err, OneBotError::Failed { retcode: 1200, .. }));
    assert_eq!(err.message(), "OneBot 动作失败 retcode=1200 words too long");

    conn.call("x", j("{}")).unwrap();
    let (_, result) = conn
        .feed(&j(r#"{"status": "failed", "retcode": 7, "wording": "fallback", "echo": 2}"#))
        .unwrap();
    assert_eq!(result.unwrap_err().message(), "OneBot 动作失败 retcode=7 fallback");
}

#[test]
fn feed_ignores_unknown_or_missing_echo() {
    let mut conn = OneBotConnection::new();
    for payload in [
        r#"{ "status": "ok", "retcode": 0, "data": {} }"#,
        r#"{ "status": "ok", "retcode": 0, "echo": 999 }"#,
        r#"{ "status": "ok", "retcode": 0, "echo": null }"#,
        r#""junk""#,
    ] {
        assert!(conn.feed(&j(payload)).is_none());
    }
}

#[test]
fn closed_connection_call_fails_fast() {
    let mut conn = OneBotConnection::new();
    conn.close();
    assert!(!conn.connected());
    let err = conn.call("get_status", j("{}")).unwrap_err();
    assert_eq!(err.message(), "OneBot 连接已关闭");
}

#[test]
fn a_closed_connection_gives_up_what_it_waits_for() {
    let mut conn = OneBotConnection::new();
    conn.call("a", j("{}")).unwrap();
    conn.call("b", j("{}")).unwrap();
    assert!(conn.forget(1));
    assert!(!conn.forget(1));
    assert_eq!(conn.close(), vec![2]);
    assert_eq!(OneBotError::Timeout(30).message(), "OneBot 动作超时（30s）");
}

/// An action that is called while a message is handled is answered by the next text.
#[test]
fn action_call_inside_handler_resolves_quickly() {
    let mut server = OneBotServer::new("127.0.0.1", 0, "/ws", TOKEN);
    let mut conn = OneBotConnection::new();
    server.opened();
    assert!(matches!(server.handle_text(&mut conn, &group_event(1)), Incoming::Group(_)));
    let call = conn.call("get_status", j("{}")).unwrap();
    let reply = format!(
        r#"{{"status": "ok", "retcode": 0, "data": {{"detail": "pong"}}, "echo": {}}}"#,
        call.echo
    );
    match server.handle_text(&mut conn, &reply) {
        Incoming::Response(echo, Ok(data)) => {
            assert_eq!(echo, call.echo);
            assert_eq!(json_text(&data), r#"{"detail":"pong"}"#);
        }
        other => panic!("{other:?}"),
    }
}

#[test]
fn event_order_is_preserved() {
    let mut server = OneBotServer::new("127.0.0.1", 0, "/ws", TOKEN);
    let mut conn = OneBotConnection::new();
    let mut seen = Vec::new();
    for id in [1, 2, 3] {
        match server.handle_text(&mut conn, &group_event(id)) {
            Incoming::Group(message) => seen.push(message.message_id),
            other => panic!("{other:?}"),
        }
    }
    assert_eq!(seen, [1, 2, 3]);
    assert_eq!(server.stats().group_messages, 3);
}

#[test]
fn token_auth_rejects_wrong_and_accepts_bearer_and_query() {
    assert!(!authorized(TOKEN, Some("Bearer wrong"), None));
    assert!(!authorized(TOKEN, None, None));
    assert!(authorized(TOKEN, Some("Bearer secret-token"), None));
    assert!(authorized(TOKEN, None, Some("access_token=secret-token")));
}

#[test]
fn no_token_allows_any_client() {
    assert!(authorized("", None, None));
    assert!(authorized("", Some("Bearer anything"), Some("access_token=x")));
}

#[test]
fn healthz_reports_connection_self_id_and_stats() {
    let mut server = OneBotServer::new("127.0.0.1", 0, "/ws", TOKEN);
    assert_eq!(
        json_text(&server.healthz(0)),
        r#"{"status":"ok","onebot_connected":false,"self_id":0,"stats":{"connections":0,"group_messages":0}}"#
    );

    let mut conn = OneBotConnection::new();
    server.opened();
    server.handle_text(
        &mut conn,
        r#"{"post_type": "meta_event", "meta_event_type": "lifecycle", "self_id": 10000}"#,
    );
    server.handle_text(&mut conn, &group_event(7));
    assert_eq!(
        json_text(&server.healthz(conn.self_id())),
        r#"{"status":"ok","onebot_connected":true,"self_id":10000,"stats":{"connections":1,"group_messages":1}}"#
    );
}

#[test]
fn connection_slot_cleared_after_client_closes() {
    let mut server = OneBotServer::new("127.0.0.1", 0, "ws", TOKEN);
    assert_eq!(server.path, "/ws");
    let first = server.opened();
    assert_eq!(server.connection(), Some(first));
    server.closed(first);
    assert_eq!(server.connection(), None);

    let old = server.opened();
    let new = server.opened();
    server.closed(old);
    assert_eq!(server.connection(), Some(new));
}

#[test]
fn send_group_text_wire_format() {
    let mut conn = OneBotConnection::new();
    let call = conn.send_group_text(123456789, "命令响应").unwrap();
    let action = &call.payload;
    assert_eq!(action.get("action").unwrap().as_str().unwrap(), "send_group_msg");
    let params = action.get("params").unwrap();
    assert_eq!(params.get("group_id").unwrap().as_i64(), Some(123456789));
    assert_eq!(
        json_text(params.get("message").unwrap()),
        r#"[{"type":"text","data":{"text":"命令响应"}}]"#
    );
    assert!(action.get("echo").is_some());

    let image = conn.send_group_image(5, "base64://AA==").unwrap();
    assert_eq!(
        json_text(image.payload.get("params").unwrap().get("message").unwrap()),
        r#"[{"type":"image","data":{"file":"base64://AA=="}}]"#
    );
    let asked = conn.get_image("abc.png").unwrap();
    assert_eq!(json_text(asked.payload.get("params").unwrap()), r#"{"file":"abc.png"}"#);
}

#[test]
fn query_parameters_are_decoded() {
    assert_eq!(decode_component("a%20b+c%E4%B8%AD"), "a b c中");
    assert_eq!(query_param("x=1&access_token=a%2Bb", "access_token").as_deref(), Some("a+b"));
    assert_eq!(query_param("x=1", "access_token"), None);
}
