//! Messages of the groups on their way to the chatroom.

use std::collections::HashMap;
use std::io::Cursor;

use chatroom_bridge::adapters::forward_api::ForwardApi;
use chatroom_bridge::adapters::onebot::{GroupMessage, Segment};
use chatroom_bridge::codec::is_shrinkable;
use chatroom_bridge::json::{json_text, parse_json, Json};
use chatroom_bridge::services::forwarder::{
    build_forward_plan, compress_image, fetch_image, image_address, must_shrink,
    needs_resolving, ChatroomForwarder, ForwarderStats, Forwarding, IMAGE_COMPRESS_THRESHOLD,
    MAX_UPLOAD_SIZE,
};
use chatroom_bridge::state::{StateStore, DEFAULT_MAX_FORWARDED};

const BASE: &str = "http://mock";

fn j(text: &str) -> Json {
    parse_json(text.as_bytes()).unwrap()
}

/// The two services that a forwarder talks to: files to download, and a chatroom.
struct World {
    files: HashMap<String, Vec<u8>>,
    resolved: HashMap<String, String>,
    uploads: Vec<(String, String, usize)>,
    posts: Vec<Json>,
    fails: bool,
}

impl World {
    fn new() -> Self {
        let mut files = HashMap::new();
        files.insert(format!("{BASE}/img.png"), tiny_png());
        files.insert(format!("{BASE}/big.bin"), vec![0u8; MAX_UPLOAD_SIZE + 1]);
        files.insert(format!("{BASE}/garbage.png"), vec![0xFFu8; IMAGE_COMPRESS_THRESHOLD + 100]);
        World { files, resolved: HashMap::new(), uploads: vec![], posts: vec![], fails: false }
    }

    /// What the names of the uploads are.
    fn names(&self) -> Vec<&str> {
        self.uploads.iter().map(|u| u.0.as_str()).collect()
    }

    /// One message all the way.
    fn forward(
        &mut self,
        forwarder: &mut ChatroomForwarder,
        state: &mut StateStore,
        msg: &GroupMessage,
    ) -> bool {
        let api = ForwardApi::new(BASE, "tok", 1);
        let plan = match forwarder.handle(state, msg) {
            Forwarding::Skip => return false,
            Forwarding::Send(plan) => plan,
        };
        let mut ids = Vec::new();
        for (index, reference) in plan.image_refs.iter().enumerate() {
            let resolved = if needs_resolving(reference) {
                self.resolved.get(reference).cloned()
            } else {
                None
            };
            let Ok(url) = image_address(reference, resolved) else {
                ids.push(None);
                continue;
            };
            let (status, data) = match self.files.get(&url) {
                Some(bytes) => (200, bytes.clone()),
                None => (404, vec![]),
            };
            let Ok(image) = fetch_image(status, data, msg.message_id, index) else {
                ids.push(None);
                continue;
            };
            let request =
                api.upload(image.data.len(), &image.filename, Some(&image.content_type)).unwrap();
            self.uploads.push((image.filename, request.content_type, image.data.len()));
            let body = format!(r#"{{"id": {}}}"#, 100 + self.uploads.len());
            ids.push(ForwardApi::uploaded(200, &body).ok());
        }
        let message = forwarder.message_for(msg, &plan, &ids);
        let result = match api.post_message(&message) {
            Err(e) => Err(e),
            Ok(request) if self.fails => {
                let _ = request;
                ForwardApi::posted(500, "boom")
            }
            Ok(request) => {
                self.posts.push(request.payload);
                ForwardApi::posted(201, &format!(r#"{{"id": {}}}"#, 500 + self.posts.len()))
            }
        };
        forwarder.finish(state, msg.message_id, result)
    }

    fn post(&self, index: usize, field: &str) -> String {
        json_text(self.posts[index].get(field).unwrap())
    }

    fn reply(&self, index: usize, field: &str) -> String {
        self.posts[index].get("reply").unwrap().get(field).unwrap().as_str().unwrap().to_string()
    }
}

fn segment(kind: &str, data: &str) -> Segment {
    Segment { kind: kind.to_string(), data: j(data) }
}

fn text_segment(text: &str) -> Segment {
    segment("text", &format!(r#"{{"text": "{text}"}}"#))
}

fn image_segment(name: &str) -> Segment {
    segment("image", &format!(r#"{{"url": "{BASE}/{name}"}}"#))
}

fn reply_segment(id: &str) -> Segment {
    segment("reply", &format!(r#"{{"id": "{id}"}}"#))
}

fn group_message(message_id: i64, user_id: i64, segments: Vec<Segment>) -> GroupMessage {
    GroupMessage {
        group_id: 123456789,
        user_id,
        message_id,
        nickname: "玩家A".to_string(),
        card: String::new(),
        segments,
        raw: Json::Null,
    }
}

fn tiny_png() -> Vec<u8> {
    encode_png(image::RgbImage::from_pixel(2, 2, image::Rgb([200u8, 30, 30])))
}

/// Noise that cannot be packed.
fn noise_png(width: u32, height: u32) -> Vec<u8> {
    let mut seed = 0x1234_5678_9abc_def0u64;
    let mut image = image::RgbImage::new(width, height);
    for pixel in image.pixels_mut() {
        seed = seed.wrapping_mul(6364136223846793005).wrapping_add(1442695040888963407);
        *pixel = image::Rgb([(seed >> 33) as u8, (seed >> 41) as u8, (seed >> 49) as u8]);
    }
    encode_png(image)
}

fn encode_png(image: image::RgbImage) -> Vec<u8> {
    let mut out = Vec::new();
    image::DynamicImage::ImageRgb8(image)
        .write_to(&mut Cursor::new(&mut out), image::ImageFormat::Png)
        .unwrap();
    out
}

fn stats(forwarded: u64, skipped_duplicate: u64, failed: u64) -> ForwarderStats {
    ForwarderStats { forwarded, skipped_duplicate, failed }
}

#[test]
fn build_forward_plan_from_segments() {
    let msg = group_message(
        42,
        10001,
        vec![
            reply_segment("111"),
            text_segment("看看这个 "),
            segment("image", r#"{ "file": "abc.png", "url": "https://x/y.png" }"#),
            segment("image", r#"{ "file": "def.png" }"#),
            segment("image", r#"{ "url": "" }"#),
            segment("at", r#"{ "qq": "10000" }"#),
        ],
    );
    let plan = build_forward_plan(&msg);
    assert_eq!(plan.content, "看看这个");
    assert_eq!(plan.image_refs, ["https://x/y.png", "def.png"]);
    assert_eq!(plan.reply_to.as_deref(), Some("111"));
    assert!(!plan.is_empty());

    let empty = build_forward_plan(&group_message(43, 10001, vec![]));
    assert!(empty.is_empty());
    assert_eq!(empty.reply_to, None);
    assert!(empty.image_refs.is_empty());
}

#[test]
fn first_forward_posts_body_and_persists_dedup() {
    let mut world = World::new();
    let mut state = StateStore::new();
    let mut forwarder = ChatroomForwarder::new(true, 0);
    let msg = group_message(111, 10001, vec![text_segment("早上好")]);
    assert!(world.forward(&mut forwarder, &mut state, &msg));

    assert_eq!(world.posts.len(), 1);
    assert_eq!(world.post(0, "source"), "\"qq\"");
    assert_eq!(world.post(0, "sender"), r#"{"qq":10001,"nickname":"玩家A"}"#);
    assert_eq!(world.post(0, "content"), "\"早上好\"");
    assert_eq!(world.post(0, "source_message_id"), "\"111\"");
    assert_eq!(world.post(0, "attachment_ids"), "[]");
    assert!(world.posts[0].get("reply").is_none());

    assert_eq!(state.forwarded_id("111"), Some(501));
    let reopened = StateStore::load(Some(state.text().into_bytes()), DEFAULT_MAX_FORWARDED);
    assert_eq!(reopened.forwarded_id("111"), Some(501));
    assert_eq!(forwarder.stats(), stats(1, 0, 0));
}

#[test]
fn duplicate_message_is_skipped() {
    let mut world = World::new();
    let mut state = StateStore::new();
    let mut forwarder = ChatroomForwarder::new(true, 0);
    let msg = group_message(111, 10001, vec![text_segment("早上好")]);
    assert!(world.forward(&mut forwarder, &mut state, &msg));
    assert!(!world.forward(&mut forwarder, &mut state, &msg));
    assert_eq!(world.posts.len(), 1);
    assert_eq!(forwarder.stats(), stats(1, 1, 0));
}

#[test]
fn disabled_forwarder_makes_no_requests() {
    let mut world = World::new();
    let mut state = StateStore::new();
    let mut forwarder = ChatroomForwarder::new(false, 0);
    let msg = group_message(111, 10001, vec![text_segment("早上好")]);
    assert!(!world.forward(&mut forwarder, &mut state, &msg));
    assert!(world.posts.is_empty());
    assert!(world.uploads.is_empty());
    assert_eq!(forwarder.stats(), stats(0, 0, 0));
}

#[test]
fn own_message_is_not_rebounded() {
    let mut world = World::new();
    let mut state = StateStore::new();
    let mut forwarder = ChatroomForwarder::new(true, 10001);
    let msg = group_message(111, 10001, vec![text_segment("自言自语")]);
    assert!(!world.forward(&mut forwarder, &mut state, &msg));
    assert!(world.posts.is_empty());
    assert!(world.uploads.is_empty());
}

#[test]
fn image_url_downloaded_and_uploaded() {
    let mut world = World::new();
    let mut state = StateStore::new();
    let mut forwarder = ChatroomForwarder::new(true, 0);
    let msg = group_message(222, 10001, vec![image_segment("img.png")]);
    assert!(world.forward(&mut forwarder, &mut state, &msg));
    assert_eq!(world.names(), ["qq-222-0.png"]);
    assert_eq!(world.uploads[0].1, "image/png");
    assert_eq!(world.post(0, "attachment_ids"), "[101]");
    assert_eq!(world.post(0, "content"), "\"\"");
}

#[test]
fn non_http_ref_resolved_via_image_resolver() {
    let mut world = World::new();
    world.resolved.insert("abc.img".to_string(), format!("{BASE}/img.png"));
    let mut state = StateStore::new();
    let mut forwarder = ChatroomForwarder::new(true, 0);

    let ok = group_message(230, 10001, vec![segment("image", r#"{ "file": "abc.img" }"#)]);
    assert!(world.forward(&mut forwarder, &mut state, &ok));
    let fail = group_message(
        231,
        10001,
        vec![text_segment("在的"), segment("image", r#"{ "file": "ghost.img" }"#)],
    );
    assert!(world.forward(&mut forwarder, &mut state, &fail));

    assert_eq!(world.names(), ["qq-230-0.png"]);
    assert_eq!(world.post(0, "attachment_ids"), "[101]");
    assert_eq!(world.post(1, "content"), "\"在的\"");
    assert_eq!(world.post(1, "attachment_ids"), "[]");
    assert_eq!(forwarder.stats().failed, 0);
}

#[test]
fn oversized_download_skipped_but_text_forwarded() {
    let mut world = World::new();
    let mut state = StateStore::new();
    let mut forwarder = ChatroomForwarder::new(true, 0);
    let msg =
        group_message(333, 10001, vec![text_segment("还在吗"), image_segment("big.bin")]);
    assert!(world.forward(&mut forwarder, &mut state, &msg));
    assert!(world.uploads.is_empty());
    assert_eq!(world.post(0, "content"), "\"还在吗\"");
    assert_eq!(world.post(0, "attachment_ids"), "[]");
    assert_eq!(forwarder.stats().failed, 0);
}

#[test]
fn large_image_is_compressed_to_jpeg() {
    let original = noise_png(1200, 1200);
    assert!(original.len() > IMAGE_COMPRESS_THRESHOLD);
    let mut world = World::new();
    world.files.insert(format!("{BASE}/photo.png"), original.clone());
    let mut state = StateStore::new();
    let mut forwarder = ChatroomForwarder::new(true, 0);
    let msg = group_message(444, 10001, vec![image_segment("photo.png")]);
    assert!(world.forward(&mut forwarder, &mut state, &msg));
    assert_eq!(world.names(), ["qq-compressed.jpg"]);
    assert_eq!(world.uploads[0].1, "image/jpeg");
    assert!(world.uploads[0].2 < original.len());
    assert_eq!(world.post(0, "attachment_ids"), "[101]");
}

#[test]
fn compress_failure_uploads_original_bytes() {
    let mut world = World::new();
    let mut state = StateStore::new();
    let mut forwarder = ChatroomForwarder::new(true, 0);
    let msg = group_message(445, 10001, vec![image_segment("garbage.png")]);
    assert!(world.forward(&mut forwarder, &mut state, &msg));
    assert_eq!(world.names(), ["qq-445-0.png"]);
    assert_eq!(world.uploads[0].1, "image/png");
    assert!(world.uploads[0].2 > IMAGE_COMPRESS_THRESHOLD);
    assert_eq!(world.post(0, "attachment_ids"), "[101]");
}

#[test]
fn reply_info_backfilled_from_recent_cache() {
    let mut world = World::new();
    let mut state = StateStore::new();
    let mut forwarder = ChatroomForwarder::new(true, 0);
    let messages = [
        group_message(310, 10001, vec![image_segment("img.png")]),
        group_message(311, 10001, vec![text_segment(&"a".repeat(250))]),
        group_message(312, 10002, vec![reply_segment("310"), text_segment("回图")]),
        group_message(313, 10002, vec![reply_segment("311"), text_segment("回长文")]),
        group_message(314, 10002, vec![reply_segment("999999"), text_segment("回谁？")]),
        group_message(315, 10002, vec![reply_segment("abc"), text_segment("回文本 id")]),
    ];
    for msg in &messages {
        assert!(world.forward(&mut forwarder, &mut state, msg));
    }
    assert_eq!(
        world.post(2, "reply"),
        r#"{"source_message_id":"310","nickname":"玩家A","content":"[图片]"}"#
    );
    assert_eq!(world.reply(3, "content"), "a".repeat(200));
    assert_eq!(
        world.post(4, "reply"),
        r#"{"source_message_id":"999999","nickname":"","content":""}"#
    );
    assert_eq!(world.reply(5, "source_message_id"), "abc");
    assert_eq!(world.reply(5, "nickname"), "");
}

#[test]
fn recent_cache_fifo_eviction() {
    let mut world = World::new();
    let mut state = StateStore::new();
    let mut forwarder = ChatroomForwarder::new(true, 0);
    for id in 1..=201i64 {
        assert!(!world.forward(&mut forwarder, &mut state, &group_message(id, 10001, vec![])));
    }
    assert!(world.posts.is_empty());
    let old = group_message(300, 10001, vec![reply_segment("1"), text_segment("早")]);
    assert!(world.forward(&mut forwarder, &mut state, &old));
    let newest = group_message(301, 10001, vec![reply_segment("201"), text_segment("晚")]);
    assert!(world.forward(&mut forwarder, &mut state, &newest));
    assert_eq!(world.reply(0, "source_message_id"), "1");
    assert_eq!(world.reply(0, "nickname"), "");
    assert_eq!(world.reply(1, "source_message_id"), "201");
    assert_eq!(world.reply(1, "nickname"), "玩家A");
}

#[test]
fn post_failure_counts_as_failed() {
    let mut world = World::new();
    world.fails = true;
    let mut state = StateStore::new();
    let mut forwarder = ChatroomForwarder::new(true, 0);
    let msg = group_message(777, 10001, vec![text_segment("你好")]);
    assert!(!world.forward(&mut forwarder, &mut state, &msg));
    assert_eq!(forwarder.stats(), stats(0, 0, 1));
    assert!(!state.already_forwarded("777"));
}

#[test]
fn a_picture_is_made_to_fit_the_frame() {
    assert!(must_shrink(1921, 10) && must_shrink(10, 1921));
    assert!(!must_shrink(1920, 1920));
    let wide = encode_png(image::RgbImage::from_pixel(4000, 10, image::Rgb([1u8, 2, 3])));
    let jpeg = compress_image(&wide).unwrap();
    assert_eq!(&jpeg[..3], &[0xFF, 0xD8, 0xFF]);
    let back = image::load_from_memory(&jpeg).unwrap();
    assert!(back.width() < 4000);
    assert!(!must_shrink(back.width(), back.height()));

    let small = compress_image(&tiny_png()).unwrap();
    let back = image::load_from_memory(&small).unwrap();
    assert_eq!((back.width(), back.height()), (2, 2));
    assert!(compress_image(b"no picture").is_none());
}

#[test]
fn a_refused_image_says_why() {
    assert!(fetch_image(404, vec![], 1, 0).is_err_and(|m| m == "下载图片失败 HTTP 404"));
    let big = vec![0u8; MAX_UPLOAD_SIZE + 1];
    assert!(fetch_image(200, big, 1, 0)
        .is_err_and(|m| m == "图片超过 10MB（10485761 字节）"));
    assert_eq!(image_address("abc", None).unwrap_err(), "无法解析图片地址: abc");
    assert_eq!(
        image_address("abc", Some("ftp://x".to_string())).unwrap_err(),
        "无法解析图片地址: abc"
    );
    assert_eq!(image_address("abc", Some("http://x".to_string())).unwrap(), "http://x");
}

#[test]
fn very_long_pictures_are_not_shrunk() {
    assert!(is_shrinkable(4000, 3000, 3, 3, 1920));
    assert!(is_shrinkable(3000, 4000, 6, 3, 1920));
    assert!(is_shrinkable(400000, 10, 2, 1, 1920));
    assert!(!is_shrinkable(410000, 320, 2, 1, 1920));
    assert!(!is_shrinkable(320, 410000, 8, 4, 1920));
    assert!(is_shrinkable(410000, 320, 1, 1, 1920));
    assert!(is_shrinkable(500000, 300, 3, 3, 1920));
    assert!(!is_shrinkable(1000, 1000, 3, 3, 1920));
    assert!(!is_shrinkable(1000, 1000, 3, 3, 0));
    assert!(!is_shrinkable(u32::MAX, u32::MAX, 1, 1, 1));
}
