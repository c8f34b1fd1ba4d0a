//! The commands of the groups.

use chatroom_bridge::json::{parse_json, read_reply, Json};
use chatroom_bridge::services::commands::{
    clean_player_name, format_status, format_voice_channels, parse_command, CommandQuery,
    CommandResult, CommandService, CommandStats, DEFAULT_SERVER_ADDRESSES, DEFAULT_STATUS_API,
    DEFAULT_VOICE_API,
};

const VOICE_URL: &str = "http://mock/api/voice/qqbot/get_voice_channel_people";
const STATUS_URL: &str = "http://mock/api/qqbot/status";

const VOICE_DATA: &str = r#"{"total_users": 2, "channels": [
    {"server_name": "主节点", "channel_name": "大厅", "users": ["玩家A", "甲"]}]}"#;

const STATUS_DATA: &str = r#"{
    "network_routes": [
        {"route_name": "节点A", "online": true, "latency": 21.5, "packet_loss": 0.0}],
    "servers": [
        {"server_name": "服务端A", "online": true, "online_players": ["• 玩家A"]},
        {"server_name": "服务端B", "online": false, "online_players": []}]}"#;

fn j(text: &str) -> Json {
    parse_json(text.as_bytes()).unwrap()
}

fn make_service(allow_all: bool, allow_from: Vec<i64>, status_image: bool) -> CommandService {
    CommandService::new(allow_all, allow_from, status_image, VOICE_URL, STATUS_URL, vec![])
}

/// Asks a command, with what the API replies and without any drawing.
fn ask(
    service: &mut CommandService,
    text: &str,
    user_id: i64,
    reply: Option<(u16, &str)>,
) -> Option<CommandResult> {
    let reply = reply.map(|(status, body)| (status, body.as_bytes().to_vec()));
    match service.handle(text, user_id)? {
        CommandQuery::Voice(_) => Some(CommandService::voice_answer(reply)),
        CommandQuery::Status { .. } => {
            Some(CommandService::status_answer(&read_reply(reply), None))
        }
    }
}

fn pair(name: &str, arg: &str) -> Option<(String, String)> {
    Some((name.to_string(), arg.to_string()))
}

#[test]
fn parse_command_forms() {
    assert_eq!(parse_command("/chatroom"), pair("chatroom", ""));
    assert_eq!(parse_command("/status 额外"), pair("status", "额外"));
    assert_eq!(parse_command("/Server@10000"), pair("server", ""));
    assert_eq!(parse_command("/Server@Bot x"), pair("server", "x"));
    assert_eq!(parse_command("/chatroom  extra"), pair("chatroom", "extra"));
    assert_eq!(parse_command("chatroom"), None);
    assert_eq!(parse_command(""), None);
}

#[test]
fn parse_command_slash_only_is_not_a_command() {
    assert_eq!(parse_command("/"), None);
    assert_eq!(parse_command("  /  "), None);
}

#[test]
fn format_voice_channels_canned() {
    assert_eq!(
        format_voice_channels(&j(VOICE_DATA)),
        "当前语音频道在线人数: 2\n\n【主节点】大厅 (2人)\n  - 玩家A\n  - 甲"
    );
}

#[test]
fn format_voice_channels_empty_and_invalid() {
    assert_eq!(
        format_voice_channels(&j(r#"{"channels": [], "total_users": 0}"#)),
        "当前没有人在语音频道中。"
    );
    assert_eq!(format_voice_channels(&Json::Null), "无法获取语音频道信息。");
    assert_eq!(format_voice_channels(&j("\"文本\"")), "无法获取语音频道信息。");
    assert_eq!(format_voice_channels(&j(r#"{"channels": "x"}"#)), "当前没有人在语音频道中。");
    assert_eq!(
        format_voice_channels(&j(r#"{"channels": [{"foo": 1}]}"#)),
        "当前语音频道在线人数: 0\n\n【未知服务器】未知频道 (0人)"
    );
    assert_eq!(
        format_voice_channels(&j(
            r#"{"channels": ["非法", {"channel_name": "大厅", "users": ["玩家A"]}]}"#
        )),
        "当前语音频道在线人数: 0\n\n【未知服务器】大厅 (1人)\n  - 玩家A"
    );
}

#[test]
fn format_status_canned() {
    assert_eq!(
        format_status(&j(STATUS_DATA)),
        "服务器状态\n\n\
         【节点状态】\n\
         ✅ 节点A - 延迟 21.50ms / 丢包 0.0%\n\n\
         【服务器状态】\n\
         ✅ 服务端A\n\
         \u{20}  在线 1 人: 玩家A\n\
         ❌ 服务端B"
    );
}

#[test]
fn format_status_null_and_edge_cases() {
    assert_eq!(format_status(&Json::Null), "无法获取服务器状态。");
    assert_eq!(format_status(&j("42")), "无法获取服务器状态。");
    let text = format_status(&j(
        r#"{"servers": [
            {"server_name": "服A", "online": true, "online_players": ["••  玩家B", " 玩家C "]},
            {"server_name": "服B", "online": true, "online_players": []}]}"#,
    ));
    assert!(text.contains("✅ 服A\n   在线 2 人: 玩家B, 玩家C"), "{text}");
    assert!(text.contains("✅ 服B\n   在线 0 人: (无)"), "{text}");
    assert_eq!(format_status(&j("{}")), "服务器状态");
    assert_eq!(format_status(&j(r#"{"network_routes": [], "servers": []}"#)), "服务器状态");
}

#[test]
fn chatroom_command_end_to_end() {
    let mut service = make_service(true, vec![], false);
    match service.handle("/chatroom", 1) {
        Some(CommandQuery::Voice(url)) => assert_eq!(url, VOICE_URL),
        other => panic!("{other:?}"),
    }
    let result = ask(&mut service, "/chatroom", 1, Some((200, VOICE_DATA))).unwrap();
    assert!(result.image.is_none());
    assert!(result.text.contains("在线人数: 2"), "{}", result.text);
    assert!(result.text.contains("【主节点】大厅"), "{}", result.text);
}

#[test]
fn status_alias_counts_under_server() {
    let mut service = make_service(true, vec![], false);
    let result = ask(&mut service, "/status", 1, Some((200, STATUS_DATA))).unwrap();
    assert!(result.image.is_none());
    assert!(result.text.contains("服务端A"), "{}", result.text);

    ask(&mut service, "/chatroom", 1, Some((200, STATUS_DATA))).unwrap();
    ask(&mut service, "/status", 1, Some((200, STATUS_DATA))).unwrap();

    let stats = service.stats();
    assert!(stats.contains(&("server".to_string(), 2)));
    assert!(stats.contains(&("chatroom".to_string(), 1)));
    assert_eq!(CommandStats::from_map(&stats), CommandStats { chatroom: 1, server: 2 });
}

#[test]
fn permission_denied_is_silent() {
    let mut service = make_service(false, vec![42], false);
    assert!(service.handle("/chatroom", 1).is_none());
    assert!(service.stats().is_empty());
    assert!(service.handle("/chatroom", 42).is_some());
    assert_eq!(service.stats(), vec![("chatroom".to_string(), 1)]);
}

#[test]
fn unknown_and_plain_text_ignored() {
    let mut service = make_service(true, vec![], false);
    assert!(service.handle("/hello", 1).is_none());
    assert!(service.handle("普通文本", 1).is_none());
    assert!(service.handle("/", 1).is_none());
    assert!(service.handle("", 1).is_none());
    assert!(service.stats().is_empty());
}

#[test]
fn http_error_yields_unavailable_strings() {
    let mut service = make_service(true, vec![], false);
    let result = ask(&mut service, "/chatroom", 1, Some((500, "boom"))).unwrap();
    assert_eq!(result.text, "无法获取语音频道信息。");
    let result = ask(&mut service, "/server", 1, Some((500, "boom"))).unwrap();
    assert_eq!(result.text, "无法获取服务器状态。");
    assert_eq!(CommandStats::from_map(&service.stats()), CommandStats { chatroom: 1, server: 1 });
}

#[test]
fn connection_refused_yields_unavailable_string() {
    let mut service = CommandService::new(
        true,
        vec![],
        false,
        VOICE_URL,
        DEFAULT_STATUS_API,
        vec![],
    );
    let result = ask(&mut service, "/chatroom", 1, None).unwrap();
    assert_eq!(result.text, "无法获取语音频道信息。");
}

/// The body alone says what was replied.
#[test]
fn json_parsed_regardless_of_content_type() {
    let mut service = make_service(true, vec![], false);
    let result = ask(&mut service, "/chatroom", 1, Some((200, VOICE_DATA))).unwrap();
    assert!(result.text.contains("在线人数: 2"), "{}", result.text);
}

#[test]
fn status_image_falls_back_to_text_when_render_unavailable() {
    let mut service = make_service(true, vec![], true);
    assert!(matches!(
        service.handle("/server", 1),
        Some(CommandQuery::Status { image: true, .. })
    ));
    let result = CommandService::status_answer(&j("[1, 2, 3]"), None);
    assert!(result.image.is_none());
    assert_eq!(result.text, "无法获取服务器状态。");
    assert_eq!(service.stats(), vec![("server".to_string(), 1)]);

    let drawn = CommandService::status_answer(&j(STATUS_DATA), Some(vec![1, 2]));
    assert_eq!(drawn.image, Some(vec![1, 2]));
    assert_eq!(drawn.text, "");
}

#[test]
fn command_result_empty_semantics() {
    assert!(CommandResult::default().empty());
    assert!(!CommandResult { text: "x".to_string(), image: None }.empty());
    assert!(!CommandResult { text: String::new(), image: Some(vec![1]) }.empty());
}

#[test]
fn default_addresses_copied_from_python() {
    assert_eq!(
        DEFAULT_SERVER_ADDRESSES,
        [("主IP", "game.example.com"), ("备用地址", "backup.example.com:25565")]
    );
    let service = make_service(true, vec![], false);
    assert_eq!(service.server_addresses[0].1, "game.example.com");
    assert!(DEFAULT_VOICE_API.starts_with("https://"));
}

#[test]
fn player_names_lose_their_bullets() {
    assert_eq!(clean_player_name(&j("\" •• 玩家 \"")), "玩家");
    assert_eq!(clean_player_name(&j("7")), "7");
}

#[test]
fn a_name_in_any_script_is_a_command() {
    assert_eq!(parse_command("/状态 x"), pair("状态", "x"));
    assert_eq!(parse_command("/ÄRGER"), pair("ärger", ""));
    assert_eq!(parse_command("/@bot"), None);
}

#[test]
fn counts_are_listed_in_order() {
    let mut service = CommandService::new(
        true,
        vec![],
        false,
        VOICE_URL,
        DEFAULT_STATUS_API,
        vec![],
    );
    assert!(service.handle("/server", 1).is_some());
    assert!(service.handle("/chatroom", 1).is_some());
    assert!(service.handle("/status", 1).is_some());
    let listed = vec![("chatroom".to_string(), 1), ("server".to_string(), 2)];
    assert_eq!(service.stats(), listed);
    assert_eq!(CommandStats::from_map(&service.stats()), CommandStats { chatroom: 1, server: 2 });
}
