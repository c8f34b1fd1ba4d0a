//! Asking the model.

use chatroom_bridge::agent::llm::{LlmClient, LlmError, LlmRequest};
use chatroom_bridge::config::{LlmConfig, DEFAULT_SYSTEM_PROMPT};
use chatroom_bridge::json::json_text;

fn client(api_key: &str) -> LlmClient {
    LlmClient::new(LlmConfig {
        api_url: "http://mock/v1/chat/completions".to_string(),
        api_key: api_key.to_string(),
        model: "test-model".to_string(),
        timeout_secs: 5,
        max_answer_chars: 1000,
        system_prompt: DEFAULT_SYSTEM_PROMPT.to_string(),
    })
}

fn replied(status: u16, body: &str) -> Result<String, LlmError> {
    LlmClient::completed(Ok((status, body.to_string())))
}

#[test]
fn llm_sends_expected_request_and_returns_content() {
    let LlmRequest { url, authorization, body, timeout_secs } =
        client("test-key-123").complete("系统提示", "用户问题");
    assert_eq!(url, "http://mock/v1/chat/completions");
    assert_eq!(authorization.as_deref(), Some("Bearer test-key-123"));
    assert_eq!(timeout_secs, 5);
    assert_eq!(
        json_text(&body),
        r#"{"model":"test-model","messages":[{"role":"system","content":"系统提示"},{"role":"user","content":"用户问题"}],"temperature":0.2}"#
    );
    let body = r#"{"choices": [{ "message": { "role": "assistant", "content": "你好，答案是 42" } }]}"#;
    assert_eq!(replied(200, body).unwrap(), "你好，答案是 42");
}

#[test]
fn llm_omits_authorization_header_without_api_key() {
    assert!(client("").complete("s", "u").authorization.is_none());
    assert_eq!(replied(200, r#"{"choices": [{"message": {"content": "ok"}}]}"#).unwrap(), "ok");
}

#[test]
fn llm_empty_or_missing_choices_is_bad_response() {
    assert!(matches!(replied(200, r#"{ "choices": [] }"#), Err(LlmError::BadResponse(_))));
    assert!(matches!(
        replied(200, r#"{ "object": "chat.completion" }"#),
        Err(LlmError::BadResponse(_))
    ));
    assert!(matches!(replied(200, "not json"), Err(LlmError::BadResponse(_))));
}

#[test]
fn llm_server_error_maps_to_http_error() {
    assert!(matches!(replied(500, r#"{ "error": "boom" }"#), Err(LlmError::Http(_))));
    assert!(matches!(LlmClient::completed(Err("refused".to_string())), Err(LlmError::Http(_))));
}

#[test]
fn llm_errors_never_leak_api_key() {
    const KEY: &str = "sk-leak-me-9f3a";
    let request = client(KEY).complete("s", "u");
    assert!(request.authorization.unwrap().contains(KEY));
    assert!(!json_text(&request.body).contains(KEY));
    for err in [replied(500, "{}").unwrap_err(), replied(200, r#"{ "choices": [] }"#).unwrap_err()]
    {
        assert!(!err.message().contains(KEY));
        assert!(!format!("{err:?}").contains(KEY));
    }
}
