//! The configuration.

use chatroom_bridge::config::{
    default_branch, default_log_level, default_state_path, describe, mask, read_config,
    AppConfig, SourceConfig,
};
use chatroom_bridge::error::ConfigError;
use chatroom_bridge::json::json_text;

fn read(text: &str) -> AppConfig {
    read_config(text.as_bytes()).unwrap()
}

#[test]
fn everything_has_a_default() {
    let cfg = read("{}");
    assert_eq!(cfg.onebot.listen_port, 6199);
    assert_eq!(cfg.state_path, default_state_path());
    assert_eq!(cfg.log_level, default_log_level());
    assert_eq!(default_branch(), "main");
    assert_eq!(json_text(&describe(&cfg)), json_text(&describe(&AppConfig::default())));
}

#[test]
fn a_mark_at_the_start_is_skipped() {
    let cfg = read("\u{feff}{\"log_level\": \"warn\"}");
    assert_eq!(cfg.log_level, "WARN");
}

#[test]
fn what_is_no_object_is_refused() {
    assert!(matches!(read_config(b"[1]"), Err(ConfigError::NotObject)));
    assert!(matches!(read_config(b"{"), Err(ConfigError::InvalidJson(_))));
    assert_eq!(ConfigError::NotFound("p".to_string()).message(), "配置文件不存在: p");
    assert_eq!(ConfigError::InvalidJson("x".to_string()).message(), "配置文件不是合法 JSON: x");
    assert_eq!(ConfigError::NotObject.message(), "配置根节点必须是对象");
    assert_eq!(ConfigError::Io("x".to_string()).message(), "IO 错误: x");
}

#[test]
fn a_broken_section_counts_as_missing() {
    let cfg = read(r#"{"onebot": 5, "chatroom": {"group_ids": [3, 1, 3]}}"#);
    assert_eq!(cfg.onebot.listen_port, 6199);
    assert_eq!(cfg.group_ids(), vec![1, 3]);
}

#[test]
fn addresses_are_pairs() {
    let cfg = read(r#"{"chatroom": {"server_addresses": [["主IP", "a"], ["x"], ["b", "c", "d"]]}}"#);
    let pairs = cfg.chatroom.server_address_pairs();
    assert!(pairs.contains(&("主IP".to_string(), "a".to_string())));
    assert!(!pairs.iter().any(|p| p.0 == "x"));
}

#[test]
fn a_summary_hides_the_tokens() {
    let cfg = read(
        r#"{"onebot": {"access_token": "SECRET1"},
            "chatroom": {"forward_token": "SECRET2", "refresh_token": "SECRET3"},
            "chatbridge": {"password": "SECRET4", "aes_key": "SECRET5"},
            "api": {"access_token": "SECRET6"},
            "agent": {"llm": {"api_url": "http://x", "api_key": "SECRET7"}}}"#,
    );
    let shown = json_text(&describe(&cfg));
    assert!(!shown.contains("SECRET"), "{shown}");
    assert_ne!(mask(""), mask("x"));
    assert_eq!(mask("x"), mask("y"));
}

#[test]
fn sources_are_told_by_their_type() {
    let cfg = read(
        r#"{"agent": {"enabled": true, "skills": [{"name": "a", "sources": [
            {"type": "local", "root": "/d"},
            {"type": "mediawiki", "api_url": "http://w"},
            {"type": "repo", "repo": "o/n"}]}]}}"#,
    );
    let sources = &cfg.agent.skills[0].sources;
    assert_eq!(sources.len(), 3);
    assert!(matches!(&sources[0], SourceConfig::Local { .. }));
    assert!(matches!(&sources[1], SourceConfig::Mediawiki { .. }));
    assert!(matches!(&sources[2], SourceConfig::Repo { branch, .. } if branch == "main"));
}

#[test]
fn the_first_member_that_is_no_text_is_reported() {
    let message = |text: &str| match read_config(text.as_bytes()) {
        Err(ConfigError::InvalidJson(m)) => m,
        _ => panic!("refused"),
    };
    assert_eq!(
        message(r#"{"state_path": 5, "log_level": true}"#),
        "配置解析失败: invalid type: integer `5`, expected a string"
    );
    assert_eq!(
        message(r#"{"log_level": true, "state_path": 5}"#),
        "配置解析失败: invalid type: boolean `true`, expected a string"
    );
    assert_eq!(
        message(r#"{"log_level": 1e20}"#),
        "配置解析失败: invalid type: floating point `100000000000000000000.0`, expected a string"
    );
    assert_eq!(read(r#"{"log_level": "info"}"#).log_level, "INFO");
}
