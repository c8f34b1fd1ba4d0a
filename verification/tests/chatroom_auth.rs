//! The tokens for the chatroom.

use base64::engine::general_purpose::URL_SAFE_NO_PAD;
use base64::Engine as _;
use chatroom_bridge::adapters::chatroom_auth::{
    decode_jwt_payload, extract_user_id, ChatroomAuth, EnsureAction,
};
use chatroom_bridge::json::{json_text, parse_json, Json};

const NOW: i64 = 1_700_000_000;

fn j(text: &str) -> Json {
    parse_json(text.as_bytes()).unwrap()
}

fn b64url(data: &[u8]) -> String {
    URL_SAFE_NO_PAD.encode(data)
}

fn make_jwt_payload(payload: &str) -> String {
    format!(
        "{}.{}.{}",
        b64url(br#"{"alg":"HS256","typ":"JWT"}"#),
        b64url(payload.as_bytes()),
        "signature"
    )
}

fn make_jwt(exp: i64, user_id: i64) -> String {
    make_jwt_payload(&format!("{{\"exp\":{exp},\"user_id\":{user_id}}}"))
}

/// A server that plays back replies and notes the tokens that it was sent, with what
/// was saved.
struct Mock {
    replies: Vec<(u16, String)>,
    tokens: Vec<String>,
    saved: String,
}

impl Mock {
    fn new() -> Self {
        Mock { replies: Vec::new(), tokens: Vec::new(), saved: String::new() }
    }

    fn push_json(&mut self, text: &str) {
        self.replies.push((200, text.to_string()));
    }

    fn push_raw(&mut self, code: u16, text: &str) {
        self.replies.push((code, text.to_string()));
    }

    fn answer(&mut self, token: String) -> Option<(u16, String)> {
        self.tokens.push(token);
        Some(if self.replies.is_empty() {
            (500, String::new())
        } else {
            self.replies.remove(0)
        })
    }

    fn save(&mut self, persist: Option<String>) {
        if let Some(token) = persist {
            self.saved = token;
        }
    }

    /// Does what whoever performs the actions does.
    fn ensure(&mut self, auth: &mut ChatroomAuth, now: i64) -> bool {
        let request = match auth.ensure_token(now) {
            EnsureAction::Answer(ok) => return ok,
            EnsureAction::Post(request) => request,
        };
        let reply = self.answer(request.refresh_token);
        let (action, first, previous) = auth.ensure_first(reply, now);
        self.save(first.persist);
        match action {
            EnsureAction::Answer(ok) => ok,
            EnsureAction::Post(request) => {
                let reply = self.answer(request.refresh_token);
                let second = auth.ensure_second(reply, now, previous.unwrap());
                self.save(second.persist);
                second.ok
            }
        }
    }

    fn refresh(&mut self, auth: &mut ChatroomAuth, now: i64) -> bool {
        let request = auth.refresh_request().unwrap();
        let reply = self.answer(request.refresh_token);
        let done = auth.refresh(reply, now);
        self.save(done.persist);
        done.ok
    }
}

fn make_auth(token: &str) -> ChatroomAuth {
    ChatroomAuth::new("https://chatroom.example.com", token, "")
}

#[test]
fn decode_jwt_payload_parses_valid_token() {
    let payload = decode_jwt_payload(&make_jwt(1_700_000_000, 42));
    assert_eq!(payload.get("exp").unwrap().as_i64(), Some(1_700_000_000));
    assert_eq!(payload.get("user_id").unwrap().as_i64(), Some(42));

    let manual = format!("aaa.{}.bbb", b64url(br#"{"exp":1}"#));
    assert_eq!(decode_jwt_payload(&manual).get("exp").unwrap().as_i64(), Some(1));
}

#[test]
fn decode_jwt_payload_tolerates_garbage() {
    for token in ["", "not-a-jwt", "a.", "a.b", "a.@@@@.c", "a.b.c.d"] {
        assert_eq!(json_text(&decode_jwt_payload(token)), "{}", "{token}");
    }
    let numeric = format!("x.{}", b64url(b"123"));
    assert_eq!(json_text(&decode_jwt_payload(&numeric)), "123");
}

#[test]
fn user_id_key_priority_matches_python() {
    assert_eq!(
        extract_user_id(&j(r#"{"user_id": 1, "uid": 2, "id": 3, "sub": "4"}"#)),
        Some(1)
    );
    assert_eq!(extract_user_id(&j(r#"{"uid": 2, "id": 3, "sub": "4"}"#)), Some(2));
    assert_eq!(extract_user_id(&j(r#"{"id": 3, "sub": "4"}"#)), Some(3));
    assert_eq!(extract_user_id(&j(r#"{"sub": "4"}"#)), Some(4));
    assert_eq!(extract_user_id(&j(r#"{"user_id": "12"}"#)), Some(12));
    assert_eq!(extract_user_id(&j(r#"{"user_id": 5.5, "sub": "6"}"#)), Some(6));
    assert_eq!(
        extract_user_id(&j(r#"{"user_id": "abc", "uid": null, "id": 9}"#)),
        Some(9)
    );
    assert_eq!(extract_user_id(&j(r#"{"uid": 0}"#)), Some(0));
    assert_eq!(extract_user_id(&j(r#"{"exp": 1}"#)), None);
    assert_eq!(extract_user_id(&j("{}")), None);
}

#[test]
fn refresh_rotates_and_persists_to_store() {
    let mut mock = Mock::new();
    let mut auth = make_auth("rt-config");
    assert!(auth.has_refresh_token());
    assert_eq!(auth.access_token(), "");
    assert_eq!(auth.user_id(), None);
    assert_eq!(
        auth.refresh_request().unwrap().url,
        "https://chatroom.example.com/api/auth/refresh"
    );

    let access = make_jwt(NOW + 3600, 42);
    mock.push_json(&format!(
        "{{\"access_token\":\"{access}\",\"refresh_token\":\"rt-rotated\"}}"
    ));
    assert!(mock.ensure(&mut auth, NOW));
    assert_eq!(auth.access_token(), access);
    assert_eq!(auth.user_id(), Some(42));
    assert_eq!(mock.saved, "rt-rotated");
    assert_eq!(mock.tokens, vec!["rt-config".to_string()]);

    assert!(mock.ensure(&mut auth, NOW));
    assert_eq!(mock.tokens.len(), 1);
}

#[test]
fn near_expiry_triggers_refresh() {
    let mut mock = Mock::new();
    let mut auth = make_auth("rt-1");
    let short_lived = make_jwt(NOW + 200, 7);
    mock.push_json(&format!(
        "{{\"access_token\":\"{short_lived}\",\"refresh_token\":\"rt-2\"}}"
    ));
    assert!(mock.ensure(&mut auth, NOW));

    let long_lived = make_jwt(NOW + 3600, 7);
    mock.push_json(&format!("{{\"access_token\":\"{long_lived}\"}}"));
    assert!(mock.ensure(&mut auth, NOW));
    assert_eq!(mock.tokens, vec!["rt-1".to_string(), "rt-2".to_string()]);
    assert_eq!(auth.access_token(), long_lived);
    assert_eq!(auth.user_id(), Some(7));

    assert!(mock.ensure(&mut auth, NOW));
    assert_eq!(mock.tokens.len(), 2);
}

#[test]
fn refresh_non_200_returns_false() {
    let mut mock = Mock::new();
    let mut auth = make_auth("rt-x");
    mock.push_raw(401, "Invalid Refresh Token");
    assert!(!mock.ensure(&mut auth, NOW));
    assert_eq!(auth.access_token(), "");
    assert_eq!(mock.tokens.len(), 1);
    assert!(auth.has_refresh_token());

    mock.push_raw(500, "boom");
    assert!(!mock.ensure(&mut auth, NOW));
    assert_eq!(mock.tokens.len(), 2);
}

#[test]
fn missing_refresh_token_fails_without_http() {
    let mut mock = Mock::new();
    let mut auth = make_auth("");
    assert!(!auth.has_refresh_token());
    assert!(auth.refresh_request().is_none());
    assert!(!mock.ensure(&mut auth, NOW));
    assert_eq!(mock.tokens.len(), 0);
    assert_eq!(auth.user_id(), None);
}

#[test]
fn refresh_without_exp_falls_back_to_30_minutes() {
    let mut mock = Mock::new();
    let mut auth = make_auth("rt");
    let access = make_jwt_payload(r#"{"uid":"77"}"#);
    mock.push_json(&format!("{{\"access_token\":\"{access}\"}}"));
    assert!(mock.ensure(&mut auth, NOW));
    assert_eq!(auth.access_token(), access);
    assert_eq!(auth.user_id(), Some(77));
    assert_eq!(auth.expires_at, NOW + 1800);
    assert_eq!(mock.saved, "");

    assert!(mock.ensure(&mut auth, NOW));
    assert_eq!(mock.tokens.len(), 1);
}

#[test]
fn ensure_token_falls_back_to_original_config_token() {
    let mut mock = Mock::new();
    let mut auth = make_auth("rt-original");
    let first_access = make_jwt(NOW + 100, 1);
    mock.push_json(&format!(
        "{{\"access_token\":\"{first_access}\",\"refresh_token\":\"rt-rotated\"}}"
    ));
    assert!(mock.ensure(&mut auth, NOW));
    assert_eq!(mock.saved, "rt-rotated");

    let second_access = make_jwt(NOW + 3600, 2);
    mock.push_raw(401, "invalid refresh token");
    mock.push_json(&format!(
        "{{\"access_token\":\"{second_access}\",\"refresh_token\":\"rt-final\"}}"
    ));
    assert!(mock.ensure(&mut auth, NOW));
    assert_eq!(
        mock.tokens,
        vec![
            "rt-original".to_string(),
            "rt-rotated".to_string(),
            "rt-original".to_string(),
        ]
    );
    assert_eq!(auth.access_token(), second_access);
    assert_eq!(auth.user_id(), Some(2));
    assert_eq!(mock.saved, "rt-final");

    assert!(mock.ensure(&mut auth, NOW));
    assert_eq!(mock.tokens.len(), 3);
}

#[test]
fn ensure_token_total_failure_keeps_state_consistent() {
    let mut mock = Mock::new();
    let mut auth = make_auth("rt-original");
    let first_access = make_jwt(NOW + 100, 1);
    mock.push_json(&format!(
        "{{\"access_token\":\"{first_access}\",\"refresh_token\":\"rt-rotated\"}}"
    ));
    assert!(mock.ensure(&mut auth, NOW));

    mock.push_raw(401, "invalid refresh token");
    mock.push_raw(403, "denied");
    assert!(!mock.ensure(&mut auth, NOW));
    assert_eq!(
        mock.tokens,
        vec![
            "rt-original".to_string(),
            "rt-rotated".to_string(),
            "rt-original".to_string(),
        ]
    );
    assert_eq!(auth.access_token(), first_access);
    assert!(auth.has_refresh_token());
    assert_eq!(auth.current_refresh_token, "rt-rotated");
}

#[test]
fn store_persisted_token_takes_precedence() {
    let mut mock = Mock::new();
    let mut auth = ChatroomAuth::new("https://chatroom.example.com", "rt-config", "rt-stored");
    assert!(auth.has_refresh_token());
    let access = make_jwt(NOW + 3600, 5);
    mock.push_json(&format!(
        "{{\"access_token\":\"{access}\",\"refresh_token\":\"rt-next\"}}"
    ));
    assert!(mock.ensure(&mut auth, NOW));
    assert_eq!(mock.tokens, vec!["rt-stored".to_string()]);
}

#[test]
fn refresh_rejects_200_without_access_token() {
    let mut mock = Mock::new();
    let mut auth = make_auth("rt");
    mock.push_json(r#"{"refresh_token": "rt-next"}"#);
    assert!(!mock.refresh(&mut auth, NOW));
    assert_eq!(auth.access_token(), "");
    mock.push_json(r#"{"access_token": 0}"#);
    assert!(!mock.refresh(&mut auth, NOW));
    mock.push_raw(200, "not json");
    assert!(!mock.refresh(&mut auth, NOW));
    assert_eq!(mock.tokens.len(), 3);
}

#[test]
fn a_reply_that_never_came_changes_nothing() {
    let mut auth = make_auth("rt");
    assert!(!auth.refresh(None, NOW).ok);
    assert_eq!(auth.access_token(), "");
    assert_eq!(auth.expires_at, 0);
}

#[test]
fn a_margin_of_exactly_five_minutes_is_enough() {
    let mut mock = Mock::new();
    let mut auth = make_auth("rt");
    let access = make_jwt(NOW + 1000, 5);
    mock.push_json(&format!("{{\"access_token\":\"{access}\"}}"));
    assert!(mock.ensure(&mut auth, NOW));
    assert_eq!(auth.expires_at, NOW + 1000);
    assert!(matches!(auth.ensure_token(NOW + 700), EnsureAction::Answer(true)));
    assert!(matches!(auth.ensure_token(NOW + 701), EnsureAction::Post(_)));
}
