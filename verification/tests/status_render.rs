//! The page that shows the state of the servers.

use std::io::Cursor;

use chatroom_bridge::json::{parse_json, Json};
use chatroom_bridge::services::status_render::{
    build_status_html, load_background, RenderError, StatusRenderer,
};

const TEMPLATE: &str = "<html><head><style>\n\
    * {{ margin: 0; padding: 0; box-sizing: border-box; }}\n\
    body {{ {background} }}\n\
    .divider {{ background: linear-gradient(90deg, transparent, white, transparent); }}\n\
    </style></head><body>\n\
    <div class=\"addresses\">{addresses}</div>\n\
    <h2>节点状态</h2><div>{routes}</div>\n\
    <h2>服务器状态</h2><div>{servers}</div>\n\
    </body></html>";

fn j(text: &str) -> Json {
    parse_json(text.as_bytes()).unwrap()
}

fn status_data() -> Json {
    j(r#"{
        "network_routes": [
            {"route_name": "节点A", "online": true, "latency": 21.5, "packet_loss": 0.0}],
        "servers": [
            {"server_name": "服务端A", "online": true, "online_players": ["• 玩家A"]},
            {"server_name": "服务端B", "online": false, "online_players": []}]}"#)
}

fn page(data: &Json, background: Option<&str>) -> String {
    build_status_html(TEMPLATE, data, background, None)
}

#[test]
fn template_renders_values() {
    let html = page(&status_data(), None);
    assert!(html.contains("game.example.com"));
    assert!(html.contains("服务端A"));
    assert!(html.contains("玩家A"));
    assert!(html.contains("linear-gradient"));
    assert!(!html.contains("{routes}"));
    assert!(!html.contains("{servers}"));
    assert!(html.contains("节点A"));
    assert!(html.contains(r#"<div class="item-name">节点A</div>"#));
    assert!(html.contains("延迟: 21.50ms"));
    assert!(html.contains("丢包: 0.0%"));
    assert!(html.contains("✅ 在线"));
    assert!(html.contains("❌ 离线"));
    assert!(html.contains("<div class='player'>玩家A</div>"));
    assert!(!html.contains("(无)"));
    assert!(html.contains("<div class='players'>"));
}

#[test]
fn doubled_css_braces_collapsed_to_single() {
    let html = page(&status_data(), None);
    assert!(html.contains("body {"));
    assert!(!html.contains("{{"));
    assert!(!html.contains("}}"));
    assert!(html.contains("* { margin: 0; padding: 0; box-sizing: border-box; }"));
    assert!(!html.contains("{background}"));
    assert!(!html.contains("{addresses}"));
    assert!(!html.contains("{routes}"));
    assert!(!html.contains("{servers}"));
}

#[test]
fn default_addresses_when_none() {
    let html = page(&status_data(), None);
    assert!(html.contains("主IP"));
    assert!(html.contains("备用地址"));
    assert!(html.contains("backup.example.com:25565"));
    assert!(html.contains(r#"<span class="address-value">game.example.com</span>"#));
}

#[test]
fn custom_addresses_override_and_empty_falls_back() {
    let addresses = vec![("测试IP".to_string(), "mc.test.dev:1234".to_string())];
    let html = build_status_html(TEMPLATE, &status_data(), None, Some(&addresses));
    assert!(html.contains("mc.test.dev:1234"));
    assert!(!html.contains("game.example.com"));

    let empty: Vec<(String, String)> = Vec::new();
    let html = build_status_html(TEMPLATE, &status_data(), None, Some(&empty));
    assert!(html.contains("game.example.com"));
}

#[test]
fn background_variants() {
    let gradient = page(&status_data(), None);
    assert!(gradient.contains(
        "background: linear-gradient(135deg, #1a1a2e 0%, #16213e 50%, #0f3460 100%);"
    ));
    let with_bg = page(&status_data(), Some("QUJD"));
    assert!(with_bg.contains(
        "background: url('data:image/jpeg;base64,QUJD') no-repeat center center;"
    ));
    assert!(!with_bg.contains("background: linear-gradient(135deg, #1a1a2e"));
}

#[test]
fn empty_players_placeholder() {
    let data = j(r#"{"servers": [{"server_name": "空服", "online": true, "online_players": []}]}"#);
    let html = page(&data, None);
    assert!(html.contains("空服"));
    assert!(html.contains("<div class='players'><div class='player'>(无)</div></div>"));
}

#[test]
fn non_dict_rows_skipped_and_null_data_renders_empty_sections() {
    let data = j(r#"{
        "network_routes": ["非法", {"route_name": "节点B", "online": false}],
        "servers": ["非法", {"server_name": "服X", "online": true, "online_players": []}]}"#);
    let html = page(&data, None);
    assert!(html.contains("节点B"));
    assert!(html.contains("服X"));
    assert!(!html.contains("非法"));

    let html = page(&Json::Null, None);
    assert!(html.contains("节点状态"));
    assert!(!html.contains(r#"<div class="item-name">"#));
    assert!(html.contains("linear-gradient"));
}

#[test]
fn renderer_defaults() {
    let renderer = StatusRenderer::new(None);
    assert_eq!(renderer.width, 1500);
    assert_eq!(renderer.height, 1400);
    assert!(renderer.addresses.is_none());

    let renderer = StatusRenderer::new(Some(vec![("a".to_string(), "b".to_string())]));
    assert_eq!(renderer.addresses.as_deref().map(|a| a.len()), Some(1));
}

fn tiny_png() -> Vec<u8> {
    let mut out = Vec::new();
    image::DynamicImage::ImageRgb8(image::RgbImage::from_pixel(2, 2, image::Rgb([200u8, 30, 30])))
        .write_to(&mut Cursor::new(&mut out), image::ImageFormat::Png)
        .unwrap();
    out
}

#[test]
fn a_background_is_encoded_again() {
    // The first bytes of every JPEG file, as base64.
    let text = load_background(&tiny_png()).unwrap();
    assert!(text.starts_with("/9j/"), "{text}");
    assert!(load_background(b"no picture").is_none());

    let renderer = StatusRenderer::new(None);
    assert!(renderer.page(TEMPLATE, &j("[1]"), &tiny_png()).is_none());
    let html = renderer.page(TEMPLATE, &status_data(), &tiny_png()).unwrap();
    assert!(html.contains(&format!("data:image/jpeg;base64,{text}")));
    let plain = renderer.page(TEMPLATE, &status_data(), b"").unwrap();
    assert!(plain.contains("linear-gradient(135deg"));
}

#[test]
fn render_errors_say_what_is_wrong() {
    assert_eq!(RenderError::Unsupported("x").message(), "status-image feature 未启用");
    assert!(RenderError::ChromeNotFound.message().contains("CHROME_PATH"));
    assert_eq!(RenderError::Chrome("e".to_string()).message(), "Chromium 渲染失败: e");
    assert_eq!(RenderError::Serialize("e".to_string()).message(), "HTML 序列化失败: e");
}
