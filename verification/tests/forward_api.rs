//! Writing to the chatroom.

use chatroom_bridge::adapters::forward_api::{
    guess_content_type, is_blocked, split_ext, ForwardApi, PostMessage, PostSource, MAX_FILE_SIZE,
};
use chatroom_bridge::error::ForwardApiError;
use chatroom_bridge::json::{json_text, Json};

const TOKEN: &str = "tok";
const CHANNEL: i64 = 1;
const BASE: &str = "https://chatroom.example.com";

fn make_api() -> ForwardApi {
    ForwardApi::new(BASE, TOKEN, CHANNEL)
}

fn at<'a>(value: &'a Json, key: &str) -> &'a Json {
    value.get(key).unwrap()
}

fn string(value: &Json, key: &str) -> String {
    at(value, key).as_str().unwrap().clone()
}

#[test]
fn post_message_payload_shape() {
    let api = make_api();
    let mut message = PostMessage::new(PostSource::QQ);
    message.content = "你好".to_string();
    message.source_message_id = "1234567890".to_string();
    message.sender_qq = Some(10001);
    message.nickname = "玩家A".to_string();
    message.reply_source_message_id = "987654321".to_string();
    message.reply_nickname = "玩家A".to_string();
    message.reply_content = "引用内容".to_string();

    let request = api.post_message(&message).unwrap();
    assert_eq!(request.url, format!("{BASE}/api/forward/channels/1/messages"));
    assert_eq!(request.authorization, "Bearer tok");
    let body = &request.payload;
    assert_eq!(string(body, "source"), "qq");
    assert_eq!(json_text(at(body, "sender")), r#"{"qq":10001,"nickname":"玩家A"}"#);
    assert_eq!(string(body, "content"), "你好");
    assert_eq!(string(body, "source_message_id"), "1234567890");
    let reply = at(body, "reply");
    assert_eq!(string(reply, "source_message_id"), "987654321");
    assert_eq!(string(reply, "nickname"), "玩家A");
    assert_eq!(string(reply, "content"), "引用内容");
    assert_eq!(json_text(at(body, "attachment_ids")), "[]");

    let result = ForwardApi::posted(201, r#"{"id": 1}"#).unwrap();
    assert_eq!(json_text(&result), r#"{"id":1}"#);
}

#[test]
fn post_message_sender_and_reply_omission_rules() {
    let api = make_api();
    let mut message = PostMessage::new(PostSource::QQ);
    message.content = "x".to_string();
    message.sender_qq = Some(0);
    let first = api.post_message(&message).unwrap().payload;
    assert_eq!(json_text(at(&first, "sender")), "{}");
    assert!(first.get("reply").is_none());

    let mut with_attachments = PostMessage::new(PostSource::Game);
    with_attachments.source_message_id = "42".to_string();
    with_attachments.attachment_ids = vec![5, 7];
    let second = api.post_message(&with_attachments).unwrap().payload;
    assert_eq!(string(&second, "source"), "game");
    assert_eq!(json_text(at(&second, "attachment_ids")), "[5,7]");
    assert_eq!(string(&second, "source_message_id"), "42");
}

#[test]
fn post_message_requires_content_or_attachment() {
    let api = make_api();
    let mut blank = PostMessage::new(PostSource::QQ);
    blank.content = "   ".to_string();
    let err = api.post_message(&blank).unwrap_err();
    assert_eq!(err.message, "content 与 attachment_ids 不能同时为空");
    assert_eq!(err.status, None);
    assert!(api.post_message(&PostMessage::new(PostSource::QQ)).is_err());
}

#[test]
fn post_message_surfaces_401_without_leaking_token() {
    let err = ForwardApi::posted(401, r#"{"error":"unauthorized"}"#).unwrap_err();
    assert_eq!(err.status, Some(401));
    assert_eq!(err.message, "转发失败 HTTP 401");
    assert!(err.body.contains("unauthorized"));
    assert!(!err.message.contains(TOKEN));
    assert!(!err.body.contains(TOKEN));
    assert!(!format!("{err:?}").contains(TOKEN));
}

#[test]
fn post_message_rejects_non_201_with_body() {
    let err = ForwardApi::posted(500, "boom").unwrap_err();
    assert_eq!(err.status, Some(500));
    assert_eq!(err.message, "转发失败 HTTP 500");
    assert_eq!(err.body, "boom");
}

#[test]
fn post_message_rejects_non_json_201() {
    let err = ForwardApi::posted(201, "不是 JSON").unwrap_err();
    assert_eq!(err.status, Some(201));
    assert!(err.message.contains("转发响应不是 JSON"));
}

#[test]
fn unconfigured_fails_fast_without_http() {
    let api = ForwardApi::new(BASE, "", CHANNEL);
    assert!(!api.configured());
    let mut message = PostMessage::new(PostSource::QQ);
    message.content = "x".to_string();
    let err = api.post_message(&message).unwrap_err();
    assert_eq!(err.message, "forward token / channel_id 未配置");
    assert_eq!(err.status, None);

    let upload_err = api.upload(1, "a.png", None).unwrap_err();
    assert_eq!(upload_err.message, "forward token / channel_id 未配置");

    assert!(!ForwardApi::new(BASE, TOKEN, 0).configured());
}

#[test]
fn upload_returns_id_and_multipart_shape() {
    let api = make_api();
    let request = api.upload(8, "a.png", Some("image/png")).unwrap();
    assert_eq!(request.url, format!("{BASE}/api/forward/channels/1/upload"));
    assert_eq!(request.authorization, "Bearer tok");
    assert_eq!(request.content_type, "image/png");
    assert_eq!(ForwardApi::uploaded(200, r#"{"id": 77, "filename": "a.png"}"#).unwrap(), 77);
}

#[test]
fn upload_defaults_content_type_from_filename() {
    let api = make_api();
    assert_eq!(api.upload(5, "n.txt", None).unwrap().content_type, "text/plain");
    assert_eq!(ForwardApi::uploaded(200, r#"{"id": 1}"#).unwrap(), 1);
    assert_eq!(
        api.upload(2, "weird.unknownext", Some("")).unwrap().content_type,
        "application/octet-stream"
    );
    assert_eq!(ForwardApi::uploaded(200, r#"{"id": 2}"#).unwrap(), 2);
}

#[test]
fn upload_rejects_oversize_before_http() {
    let api = make_api();
    let err = api.upload(MAX_FILE_SIZE + 1, "big.zip", None).unwrap_err();
    assert!(err.message.contains("10MB"), "message: {}", err.message);
    assert_eq!(err.status, None);
    assert!(api.upload(MAX_FILE_SIZE, "big.zip", None).is_ok());
}

#[test]
fn upload_rejects_blocked_extension_before_http() {
    let api = make_api();
    let err = api.upload(2, "evil.exe", None).unwrap_err();
    assert_eq!(err.message, "被禁止的扩展名: .exe");
    let err = api.upload(2, "EVIL.EXE", None).unwrap_err();
    assert_eq!(err.message, "被禁止的扩展名: .EXE");
}

#[test]
fn upload_rejects_empty_data_before_http() {
    let err = make_api().upload(0, "a.png", None).unwrap_err();
    assert_eq!(err.message, "附件为空");
}

#[test]
fn upload_rejects_non_200() {
    let err = ForwardApi::uploaded(413, "too large").unwrap_err();
    assert_eq!(err.status, Some(413));
    assert_eq!(err.message, "上传失败 HTTP 413");
    assert_eq!(err.body, "too large");
}

#[test]
fn upload_rejects_non_json_200() {
    let err = ForwardApi::uploaded(200, "not json").unwrap_err();
    assert_eq!(err.status, Some(200));
    assert!(err.message.contains("上传响应不是 JSON"));
}

#[test]
fn upload_rejects_missing_id() {
    let err = ForwardApi::uploaded(200, r#"{"filename": "a.png"}"#).unwrap_err();
    assert!(err.message.contains("上传响应缺少 id"));
    let err = ForwardApi::uploaded(200, r#"{"id": "42"}"#).unwrap_err();
    assert!(err.message.contains("上传响应缺少 id"));
}

#[test]
fn is_blocked_matches_python_list() {
    for ext in [
        ".exe", ".bat", ".cmd", ".com", ".cpl", ".dll", ".scr", ".msi", ".jar", ".sh", ".bash",
        ".ps1", ".vbs", ".js", ".wsf", ".apk", ".app", ".deb", ".rpm",
    ] {
        assert!(is_blocked(&format!("file{ext}")), "{ext} 应被拦截");
        assert!(
            is_blocked(&format!("file{}", ext.to_uppercase())),
            "大写 {ext} 应被拦截"
        );
    }
    for name in ["a.png", "a.txt", "a.py", "noext", "a.tar.gz", ".bashrc", ".png", ""] {
        assert!(!is_blocked(name), "{name} 不应被拦截");
    }
}

#[test]
fn guess_content_type_matches_python_table() {
    assert_eq!(guess_content_type("a.png"), "image/png");
    assert_eq!(guess_content_type("b.JPG"), "image/jpeg");
    assert_eq!(guess_content_type("c.jpeg"), "image/jpeg");
    assert_eq!(guess_content_type("d.gif"), "image/gif");
    assert_eq!(guess_content_type("e.webp"), "image/webp");
    assert_eq!(guess_content_type("f.bmp"), "image/bmp");
    assert_eq!(guess_content_type("g.mp4"), "video/mp4");
    assert_eq!(guess_content_type("h.webm"), "video/webm");
    assert_eq!(guess_content_type("i.mov"), "video/quicktime");
    assert_eq!(guess_content_type("j.mp3"), "audio/mpeg");
    assert_eq!(guess_content_type("k.wav"), "audio/wav");
    assert_eq!(guess_content_type("l.ogg"), "audio/ogg");
    assert_eq!(guess_content_type("m.pdf"), "application/pdf");
    assert_eq!(guess_content_type("n.txt"), "text/plain");
    assert_eq!(guess_content_type("o.zip"), "application/zip");
    assert_eq!(guess_content_type("unknown.xyz"), "application/octet-stream");
    assert_eq!(guess_content_type("noext"), "application/octet-stream");
    assert_eq!(guess_content_type("dir/video.MP4"), "video/mp4");
    assert_eq!(guess_content_type(".bashrc"), "application/octet-stream");
}

#[test]
fn endings_are_what_stands_behind_the_last_dot_of_a_name() {
    assert_eq!(split_ext("a/b.c/d.tar.gz"), ".gz");
    assert_eq!(split_ext("a.b/c"), "");
    assert_eq!(split_ext(".hidden"), "");
    assert_eq!(split_ext("..x"), "");
}

#[test]
fn an_error_keeps_its_parts() {
    let err = ForwardApiError::new("m".to_string(), Some(404), "b".to_string());
    assert_eq!((err.message.as_str(), err.status, err.body.as_str()), ("m", Some(404), "b"));
}
