//! The chatroom's forward API: what to send, and what a reply means.
//!
//! The token stands in a header of the request and nowhere else.

use crate::error::{ForwardApiError, ForwardApiErrorV};
use crate::json::{
    a_member_is_found, int_json, items, json_int, json_read, json_text, json_text_of, members,
    parse_json, the_first_member_is_found, Json, JsonV,
};
use crate::text::{
    among, ascii_lower, ascii_lower_char, bytes_of, chars_of, decimal, drop_back, find_last,
    i64_text, int_text, join2, join3, last_in, prefix, same, text_of, the_last_place_is_the_last,
    to_ascii_lower, trim, trim_end_of, trimmed, truncate_chars, u64_text, Text,
};
use vstd::prelude::*;
use vstd::utf8::encode_utf8;

verus! {

/// Most bytes that an attachment may have.
pub const MAX_FILE_SIZE: usize = 10485760;

pub const DEFAULT_CONTENT_TYPE: &'static str = "application/octet-stream";

/// Whether every character of `s` is a dot.
pub open spec fn only_dots(s: Text) -> bool {
    forall|i: int| 0 <= i < s.len() ==> s[i] == '.'
}

/// What stands behind the last slash or backslash.
pub open spec fn base_name(s: Text) -> Text {
    match last_in(s, "/\\"@) {
        Some(i) => s.subrange(i + 1, s.len() as int),
        None => s,
    }
}

/// The extension of a file name, with its dot: from the last dot of the base name
/// on, unless only dots stand before it.
pub open spec fn extension(filename: Text) -> Text {
    let base = base_name(filename);
    match last_in(base, "."@) {
        Some(d) => if only_dots(base.subrange(0, d)) {
            Seq::<char>::empty()
        } else {
            base.subrange(d, base.len() as int)
        },
        None => Seq::<char>::empty(),
    }
}

/// The extension of a file name.
pub fn split_ext(filename: &str) -> (r: String)
    ensures
        r@ == extension(filename@),
{
    let v = chars_of(filename);
    let n: usize = v.len();
    let start: usize = match find_last(&v, "/\\") {
        Some(i) => i + 1,
        None => 0,
    };
    let base_text = text_of(&v, start, n);
    assert(base_text@ =~= base_name(filename@));
    let base = chars_of(base_text.as_str());
    let dot: usize = match find_last(&base, ".") {
        Some(d) => d,
        None => return String::new(),
    };
    let mut i: usize = 0;
    while i < dot
        invariant
            i <= dot < base@.len(),
            forall|k: int| 0 <= k < i ==> base@[k] == '.',
        ensures
            i <= dot,
            forall|k: int| 0 <= k < i ==> base@[k] == '.',
            i < dot ==> base@[i as int] != '.',
        decreases dot - i,
    {
        if base[i] != '.' {
            break;
        }
        i = i + 1;
    }
    if i == dot {
        assert(only_dots(base@.subrange(0, dot as int)));
        return String::new();
    }
    assert(base@.subrange(0, dot as int)[i as int] == base@[i as int]);
    let m: usize = base.len();
    text_of(&base, dot, m)
}

/// The extensions that may not be uploaded, in small letters.
pub open spec fn blocked(ext: Text) -> bool {
    ||| ext == ".exe"@
    ||| ext == ".bat"@
    ||| ext == ".cmd"@
    ||| ext == ".com"@
    ||| ext == ".cpl"@
    ||| ext == ".dll"@
    ||| ext == ".scr"@
    ||| ext == ".msi"@
    ||| ext == ".jar"@
    ||| ext == ".sh"@
    ||| ext == ".bash"@
    ||| ext == ".ps1"@
    ||| ext == ".vbs"@
    ||| ext == ".js"@
    ||| ext == ".wsf"@
    ||| ext == ".apk"@
    ||| ext == ".app"@
    ||| ext == ".deb"@
    ||| ext == ".rpm"@
}

/// Whether a file may not be uploaded, by its extension in any case.
pub fn is_blocked(filename: &str) -> (r: bool)
    ensures
        r == blocked(ascii_lower(extension(filename@))),
{
    let ext = to_ascii_lower(split_ext(filename).as_str());
    let e = ext.as_str();
    same(e, ".exe") || same(e, ".bat") || same(e, ".cmd") || same(e, ".com") || same(e, ".cpl")
        || same(e, ".dll") || same(e, ".scr") || same(e, ".msi") || same(e, ".jar") || same(
        e,
        ".sh",
    ) || same(e, ".bash") || same(e, ".ps1") || same(e, ".vbs") || same(e, ".js") || same(e, ".wsf")
        || same(e, ".apk") || same(e, ".app") || same(e, ".deb") || same(e, ".rpm")
}

/// The content type of an extension in small letters.
pub open spec fn content_type_of(ext: Text) -> Text {
    if ext == ".png"@ {
        "image/png"@
    } else if ext == ".jpg"@ || ext == ".jpeg"@ {
        "image/jpeg"@
    } else if ext == ".gif"@ {
        "image/gif"@
    } else if ext == ".webp"@ {
        "image/webp"@
    } else if ext == ".bmp"@ {
        "image/bmp"@
    } else if ext == ".mp4"@ {
        "video/mp4"@
    } else if ext == ".webm"@ {
        "video/webm"@
    } else if ext == ".mov"@ {
        "video/quicktime"@
    } else if ext == ".mp3"@ {
        "audio/mpeg"@
    } else if ext == ".wav"@ {
        "audio/wav"@
    } else if ext == ".ogg"@ {
        "audio/ogg"@
    } else if ext == ".pdf"@ {
        "application/pdf"@
    } else if ext == ".txt"@ {
        "text/plain"@
    } else if ext == ".zip"@ {
        "application/zip"@
    } else {
        DEFAULT_CONTENT_TYPE@
    }
}

/// The content type of a file, by its extension in any case.
pub fn guess_content_type(filename: &str) -> (r: &'static str)
    ensures
        r@ == content_type_of(ascii_lower(extension(filename@))),
{
    let ext = to_ascii_lower(split_ext(filename).as_str());
    let e = ext.as_str();
    if same(e, ".png") {
        "image/png"
    } else if same(e, ".jpg") || same(e, ".jpeg") {
        "image/jpeg"
    } else if same(e, ".gif") {
        "image/gif"
    } else if same(e, ".webp") {
        "image/webp"
    } else if same(e, ".bmp") {
        "image/bmp"
    } else if same(e, ".mp4") {
        "video/mp4"
    } else if same(e, ".webm") {
        "video/webm"
    } else if same(e, ".mov") {
        "video/quicktime"
    } else if same(e, ".mp3") {
        "audio/mpeg"
    } else if same(e, ".wav") {
        "audio/wav"
    } else if same(e, ".ogg") {
        "audio/ogg"
    } else if same(e, ".pdf") {
        "application/pdf"
    } else if same(e, ".txt") {
        "text/plain"
    } else if same(e, ".zip") {
        "application/zip"
    } else {
        DEFAULT_CONTENT_TYPE
    }
}

/// Where a message comes from.
#[derive(Debug, Clone, Copy, PartialEq, Eq, Structural)]
pub enum PostSource {
    QQ,
    Game,
}

impl PostSource {
    /// The name of a source.
    pub open spec fn name(self) -> Text {
        match self {
            PostSource::QQ => "qq"@,
            PostSource::Game => "game"@,
        }
    }

    /// The name of the source.
    pub fn as_str(self) -> (r: &'static str)
        ensures
            r@ == self.name(),
    {
        match self {
            PostSource::QQ => "qq",
            PostSource::Game => "game",
        }
    }
}

/// A message to forward to the chatroom.
#[derive(Debug)]
pub struct PostMessage {
    pub source: PostSource,
    pub content: String,
    pub source_message_id: String,
    pub sender_qq: Option<i64>,
    pub sender_username: String,
    pub nickname: String,
    pub reply_source_message_id: String,
    pub reply_nickname: String,
    pub reply_content: String,
    pub attachment_ids: Vec<i64>,
}

/// What a [`PostMessage`] holds.
pub struct PostMessageV {
    pub source: PostSource,
    pub content: Text,
    pub source_message_id: Text,
    pub sender_qq: Option<i64>,
    pub sender_username: Text,
    pub nickname: Text,
    pub reply_source_message_id: Text,
    pub reply_nickname: Text,
    pub reply_content: Text,
    pub attachment_ids: Seq<i64>,
}

impl View for PostMessage {
    type V = PostMessageV;

    open spec fn view(&self) -> PostMessageV {
        PostMessageV {
            source: self.source,
            content: self.content@,
            source_message_id: self.source_message_id@,
            sender_qq: self.sender_qq,
            sender_username: self.sender_username@,
            nickname: self.nickname@,
            reply_source_message_id: self.reply_source_message_id@,
            reply_nickname: self.reply_nickname@,
            reply_content: self.reply_content@,
            attachment_ids: self.attachment_ids@,
        }
    }
}

/// A message of a source in which everything is empty.
pub open spec fn blank_message(source: PostSource) -> PostMessageV {
    PostMessageV {
        source,
        content: Seq::<char>::empty(),
        source_message_id: Seq::<char>::empty(),
        sender_qq: None,
        sender_username: Seq::<char>::empty(),
        nickname: Seq::<char>::empty(),
        reply_source_message_id: Seq::<char>::empty(),
        reply_nickname: Seq::<char>::empty(),
        reply_content: Seq::<char>::empty(),
        attachment_ids: Seq::<i64>::empty(),
    }
}

impl PostMessage {
    /// A message in which everything is empty.
    pub fn new(source: PostSource) -> (r: Self)
        ensures
            r@ == blank_message(source),
    {
        PostMessage {
            source,
            content: String::new(),
            source_message_id: String::new(),
            sender_qq: None,
            sender_username: String::new(),
            nickname: String::new(),
            reply_source_message_id: String::new(),
            reply_nickname: String::new(),
            reply_content: String::new(),
            attachment_ids: Vec::new(),
        }
    }
}

/// Access to one channel of the forward API.
#[derive(Debug)]
pub struct ForwardApi {
    pub base_url: String,
    pub token: String,
    pub channel_id: i64,
}

/// An upload to send: where it goes, with which authorization and as what.
#[derive(Debug)]
pub struct UploadRequest {
    pub url: String,
    pub authorization: String,
    pub content_type: String,
}

/// A message to send: where it goes, with which authorization, and its body.
#[derive(Debug)]
pub struct PostRequest {
    pub url: String,
    pub authorization: String,
    pub payload: Json,
}

/// An error without status and body.
pub open spec fn plain_error(message: Text) -> ForwardApiErrorV {
    ForwardApiErrorV { message, status: None, body: Seq::<char>::empty() }
}

/// An error without status and body.
fn plain(message: String) -> (r: ForwardApiError)
    ensures
        r@ == plain_error(message@),
{
    ForwardApiError::new(message, None, String::new())
}

/// Why an upload is refused before it is sent. The token plays no part but for
/// being there.
pub open spec fn upload_refused(configured: bool, len: nat, filename: Text) -> Option<
    ForwardApiErrorV,
> {
    if !configured {
        Some(plain_error("forward token / channel_id 未配置"@))
    } else if len == 0 {
        Some(plain_error("附件为空"@))
    } else if len > MAX_FILE_SIZE {
        Some(plain_error("附件超过 10MB 上限（"@ + decimal(len) + " 字节）"@))
    } else if blocked(ascii_lower(extension(filename))) {
        Some(plain_error("被禁止的扩展名: "@ + extension(filename)))
    } else {
        None
    }
}

/// What the reply to an upload means: the number of the attachment, or why there
/// is none.
pub open spec fn upload_result(status: u16, body: Text) -> Result<i64, ForwardApiErrorV> {
    if status != 200 {
        Err(
            ForwardApiErrorV {
                message: "上传失败 HTTP "@ + decimal(status as nat),
                status: Some(status),
                body: prefix(body, 300),
            },
        )
    } else {
        match json_read(encode_utf8(body)) {
            Err(_) => Err(
                ForwardApiErrorV {
                    message: "上传响应不是 JSON: "@ + prefix(body, 200),
                    status: Some(status),
                    body: Seq::<char>::empty(),
                },
            ),
            Ok(payload) => match payload.field("id"@) {
                Some(id) if id.as_int() is Some => Ok(id.as_int()->0),
                _ => Err(
                    ForwardApiErrorV {
                        message: "上传响应缺少 id: "@ + json_text_of(payload),
                        status: Some(status),
                        body: Seq::<char>::empty(),
                    },
                ),
            },
        }
    }
}

/// Why a message is refused before it is sent.
pub open spec fn post_refused(configured: bool, message: PostMessageV) -> Option<ForwardApiErrorV> {
    if trimmed(message.content).len() == 0 && message.attachment_ids.len() == 0 {
        Some(plain_error("content 与 attachment_ids 不能同时为空"@))
    } else if !configured {
        Some(plain_error("forward token / channel_id 未配置"@))
    } else {
        None
    }
}

/// One member, where `when` holds.
pub open spec fn member_if(when: bool, key: Text, value: JsonV) -> Seq<(Text, JsonV)> {
    if when {
        seq![(key, value)]
    } else {
        Seq::<(Text, JsonV)>::empty()
    }
}

/// Who sent a message: only what is known is written.
pub open spec fn sender_members(m: PostMessageV) -> Seq<(Text, JsonV)> {
    let qq = match m.sender_qq {
        Some(n) => n,
        None => 0,
    };
    member_if(qq != 0, "qq"@, int_json(qq)) + member_if(
        m.sender_username.len() > 0,
        "username"@,
        JsonV::Str(m.sender_username),
    ) + member_if(m.nickname.len() > 0, "nickname"@, JsonV::Str(m.nickname))
}

/// The body of a message.
pub open spec fn post_payload(m: PostMessageV) -> JsonV {
    JsonV::Object(
        seq![
            ("source"@, JsonV::Str(m.source.name())),
            ("sender"@, JsonV::Object(sender_members(m))),
            ("content"@, JsonV::Str(m.content)),
            ("source_message_id"@, JsonV::Str(m.source_message_id)),
            ("attachment_ids"@, JsonV::Array(m.attachment_ids.map_values(|n: i64| int_json(n)))),
        ] + member_if(
            m.reply_source_message_id.len() > 0,
            "reply"@,
            JsonV::Object(
                seq![
                    ("source_message_id"@, JsonV::Str(m.reply_source_message_id)),
                    ("nickname"@, JsonV::Str(m.reply_nickname)),
                    ("content"@, JsonV::Str(m.reply_content)),
                ],
            ),
        ),
    )
}

/// What the reply to a message means: the message as the chatroom has it, or why
/// there is none.
pub open spec fn post_result(status: u16, body: Text) -> Result<JsonV, ForwardApiErrorV> {
    if status != 201 {
        Err(
            ForwardApiErrorV {
                message: "转发失败 HTTP "@ + decimal(status as nat),
                status: Some(status),
                body: prefix(body, 300),
            },
        )
    } else {
        match json_read(encode_utf8(body)) {
            Err(_) => Err(
                ForwardApiErrorV {
                    message: "转发响应不是 JSON: "@ + prefix(body, 200),
                    status: Some(status),
                    body: Seq::<char>::empty(),
                },
            ),
            Ok(payload) => Ok(payload),
        }
    }
}

/// The members that tell who sent a message.
fn build_sender(m: &PostMessage) -> (r: Vec<(String, Json)>)
    ensures
        members(r@) == sender_members(m@),
{
    let mut sender: Vec<(String, Json)> = Vec::new();
    let qq: i64 = match m.sender_qq {
        Some(n) => n,
        None => 0,
    };
    if qq != 0 {
        sender.push(("qq".to_owned(), json_int(qq)));
    }
    if !m.sender_username.as_str().is_empty() {
        sender.push(("username".to_owned(), Json::Str(m.sender_username.clone())));
    }
    if !m.nickname.as_str().is_empty() {
        sender.push(("nickname".to_owned(), Json::Str(m.nickname.clone())));
    }
    assert(members(sender@) =~= sender_members(m@));
    sender
}

/// The integers as JSON.
fn int_list(v: &Vec<i64>) -> (r: Vec<Json>)
    ensures
        items(r@) == v@.map_values(|n: i64| int_json(n)),
{
    let mut out: Vec<Json> = Vec::new();
    let mut i: usize = 0;
    let ghost all = v@.map_values(|n: i64| int_json(n));
    assert(items(out@) =~= all.take(0));
    while i < v.len()
        invariant
            i <= v@.len(),
            all == v@.map_values(|n: i64| int_json(n)),
            items(out@) == all.take(i as int),
        decreases v@.len() - i,
    {
        let x = json_int(v[i]);
        assert(items(out@.push(x)) =~= items(out@).push(x@));
        out.push(x);
        assert(all.take(i + 1) =~= all.take(i as int).push(all[i as int]));
        i = i + 1;
    }
    assert(all.take(i as int) =~= all);
    out
}

/// The body of a message.
pub fn build_payload(m: &PostMessage) -> (r: Json)
    ensures
        r@ == post_payload(m@),
{
    broadcast use {crate::json::array_view, crate::json::object_view};

    let sender = build_sender(m);
    let ids = int_list(&m.attachment_ids);
    let mut out: Vec<(String, Json)> = vec![
        ("source".to_owned(), Json::Str(m.source.as_str().to_owned())),
        ("sender".to_owned(), Json::Object(sender)),
        ("content".to_owned(), Json::Str(m.content.clone())),
        ("source_message_id".to_owned(), Json::Str(m.source_message_id.clone())),
        ("attachment_ids".to_owned(), Json::Array(ids)),
    ];
    if !m.reply_source_message_id.as_str().is_empty() {
        let reply: Vec<(String, Json)> = vec![
            ("source_message_id".to_owned(), Json::Str(m.reply_source_message_id.clone())),
            ("nickname".to_owned(), Json::Str(m.reply_nickname.clone())),
            ("content".to_owned(), Json::Str(m.reply_content.clone())),
        ];
        assert(members(reply@) =~= seq![
            ("source_message_id"@, JsonV::Str(m.reply_source_message_id@)),
            ("nickname"@, JsonV::Str(m.reply_nickname@)),
            ("content"@, JsonV::Str(m.reply_content@)),
        ]);
        out.push(("reply".to_owned(), Json::Object(reply)));
    }
    assert(members(out@) =~= post_payload(m@)->Object_0);
    Json::Object(out)
}

/// An error that carries a status.
fn failed(message: String, status: u16, body: String) -> (r: ForwardApiError)
    ensures
        r@ == (ForwardApiErrorV { message: message@, status: Some(status), body: body@ }),
{
    ForwardApiError::new(message, Some(status), body)
}

impl ForwardApi {
    /// Access to a channel.
    pub fn new(base_url: &str, token: &str, channel_id: i64) -> (r: Self)
        ensures
            r.base_url@ == drop_back(base_url@, among("/"@)),
            r.token@ == token@,
            r.channel_id == channel_id,
    {
        ForwardApi {
            base_url: trim_end_of(base_url, "/"),
            token: token.to_owned(),
            channel_id,
        }
    }

    /// Whether there is a token and a channel.
    pub open spec fn is_configured(&self) -> bool {
        self.token@.len() > 0 && self.channel_id > 0
    }

    /// Whether there is a token and a channel.
    pub fn configured(&self) -> (r: bool)
        ensures
            r == self.is_configured(),
    {
        !self.token.as_str().is_empty() && self.channel_id > 0
    }

    /// The address of one of the channel's endpoints.
    pub open spec fn endpoint(&self, suffix: Text) -> Text {
        self.base_url@ + "/api/forward/channels/"@ + int_text(self.channel_id as int) + suffix
    }

    /// The address of one of the channel's endpoints.
    fn url(&self, suffix: &str) -> (r: String)
        ensures
            r@ == self.endpoint(suffix@),
    {
        let head = join3(
            self.base_url.as_str(),
            "/api/forward/channels/",
            i64_text(self.channel_id).as_str(),
        );
        join2(head.as_str(), suffix)
    }

    /// The header that holds the token.
    fn auth_header(&self) -> (r: String)
        ensures
            r@ == "Bearer "@ + self.token@,
    {
        join2("Bearer ", self.token.as_str())
    }

    /// Checks an attachment of `len` bytes and says how to send it. A content type
    /// that is not given, or empty, is guessed from the file name.
    pub fn upload(&self, len: usize, filename: &str, content_type: Option<&str>) -> (r: Result<
        UploadRequest,
        ForwardApiError,
    >)
        ensures
            match r {
                Ok(q) => {
                    &&& upload_refused(self.is_configured(), len as nat, filename@) is None
                    &&& q.url@ == self.endpoint("/upload"@)
                    &&& q.authorization@ == "Bearer "@ + self.token@
                    &&& q.content_type@ == match content_type {
                        Some(t) if t@.len() > 0 => t@,
                        _ => content_type_of(ascii_lower(extension(filename@))),
                    }
                },
                Err(e) => upload_refused(self.is_configured(), len as nat, filename@) == Some(e@),
            },
    {
        if !self.configured() {
            return Err(plain("forward token / channel_id 未配置".to_owned()));
        }
        if len == 0 {
            return Err(plain("附件为空".to_owned()));
        }
        if len > MAX_FILE_SIZE {
            let n = u64_text(len as u64);
            return Err(plain(join3("附件超过 10MB 上限（", n.as_str(), " 字节）")));
        }
        if is_blocked(filename) {
            return Err(plain(join2("被禁止的扩展名: ", split_ext(filename).as_str())));
        }
        let content_type = match content_type {
            Some(t) => if t.is_empty() {
                guess_content_type(filename).to_owned()
            } else {
                t.to_owned()
            },
            None => guess_content_type(filename).to_owned(),
        };
        Ok(
            UploadRequest {
                url: self.url("/upload"),
                authorization: self.auth_header(),
                content_type,
            },
        )
    }

    /// What the reply to an upload means.
    pub fn uploaded(status: u16, body: &str) -> (r: Result<i64, ForwardApiError>)
        ensures
            match r {
                Ok(id) => upload_result(status, body@) == Ok::<i64, ForwardApiErrorV>(id),
                Err(e) => upload_result(status, body@) == Err::<i64, ForwardApiErrorV>(e@),
            },
    {
        if status != 200 {
            let n = u64_text(status as u64);
            return Err(
                failed(join2("上传失败 HTTP ", n.as_str()), status, truncate_chars(body, 300)),
            );
        }
        let payload = match parse_json(bytes_of(body).as_slice()) {
            Ok(j) => j,
            Err(_) => {
                let head = truncate_chars(body, 200);
                return Err(
                    failed(join2("上传响应不是 JSON: ", head.as_str()), status, String::new()),
                );
            },
        };
        if let Some(id) = payload.get("id") {
            if let Some(n) = id.as_i64() {
                return Ok(n);
            }
        }
        let text = json_text(&payload);
        Err(failed(join2("上传响应缺少 id: ", text.as_str()), status, String::new()))
    }

    /// Checks a message and says how to send it.
    pub fn post_message(&self, message: &PostMessage) -> (r: Result<PostRequest, ForwardApiError>)
        ensures
            match r {
                Ok(q) => {
                    &&& post_refused(self.is_configured(), message@) is None
                    &&& q.url@ == self.endpoint("/messages"@)
                    &&& q.authorization@ == "Bearer "@ + self.token@
                    &&& q.payload@ == post_payload(message@)
                },
                Err(e) => post_refused(self.is_configured(), message@) == Some(e@),
            },
    {
        if trim(message.content.as_str()).as_str().is_empty() && message.attachment_ids.len() == 0 {
            return Err(plain("content 与 attachment_ids 不能同时为空".to_owned()));
        }
        if !self.configured() {
            return Err(plain("forward token / channel_id 未配置".to_owned()));
        }
        Ok(
            PostRequest {
                url: self.url("/messages"),
                authorization: self.auth_header(),
                payload: build_payload(message),
            },
        )
    }

    /// What the reply to a message means.
    pub fn posted(status: u16, body: &str) -> (r: Result<Json, ForwardApiError>)
        ensures
            match r {
                Ok(j) => post_result(status, body@) == Ok::<JsonV, ForwardApiErrorV>(j@),
                Err(e) => post_result(status, body@) == Err::<JsonV, ForwardApiErrorV>(e@),
            },
    {
        if status != 201 {
            let n = u64_text(status as u64);
            return Err(
                failed(join2("转发失败 HTTP ", n.as_str()), status, truncate_chars(body, 300)),
            );
        }
        match parse_json(bytes_of(body).as_slice()) {
            Ok(j) => Ok(j),
            Err(_) => {
                let head = truncate_chars(body, 200);
                Err(failed(join2("转发响应不是 JSON: ", head.as_str()), status, String::new()))
            },
        }
    }
}

/// Making letters small moves no character of a set without letters.
proof fn lemma_last_in_lower(s: Text, set: Text)
    requires
        forall|i: int| 0 <= i < set.len() ==> (#[trigger] set[i] as u32) < 65 || (set[i] as u32 > 90
            && (set[i] as u32) < 97) || set[i] as u32 > 122,
    ensures
        last_in(ascii_lower(s), set) == last_in(s, set),
    decreases s.len(),
{
    if s.len() > 0 {
        let c = s.last();
        let l = ascii_lower(s);
        assert(l.last() == ascii_lower_char(c));
        assert(l.drop_last() =~= ascii_lower(s.drop_last()));
        lemma_last_in_lower(s.drop_last(), set);
        if 'A' <= c && c <= 'Z' {
            assert(!set.contains(c));
            assert(!set.contains(ascii_lower_char(c)));
        }
    }
}

/// Making letters small and taking the extension can be done in either order.
proof fn lemma_extension_lower(filename: Text)
    ensures
        extension(ascii_lower(filename)) == ascii_lower(extension(filename)),
{
    reveal_strlit("/\\");
    reveal_strlit(".");
    lemma_last_in_lower(filename, "/\\"@);
    lemma_last_in_bounds(filename, "/\\"@);
    let base = base_name(filename);
    assert(base_name(ascii_lower(filename)) =~= ascii_lower(base));
    lemma_last_in_lower(base, "."@);
    match last_in(base, "."@) {
        Some(d) => {
            lemma_last_in_bounds(base, "."@);
            let before = base.subrange(0, d);
            assert(ascii_lower(base).subrange(0, d) =~= ascii_lower(before));
            assert(only_dots(ascii_lower(before)) == only_dots(before)) by {
                if only_dots(before) {
                    assert forall|i: int| 0 <= i < before.len() implies ascii_lower(before)[i]
                        == '.' by {
                        assert(before[i] == '.');
                    }
                }
                if only_dots(ascii_lower(before)) {
                    assert forall|i: int| 0 <= i < before.len() implies before[i] == '.' by {
                        assert(ascii_lower(before)[i] == '.');
                    }
                }
            }
            assert(ascii_lower(base).subrange(d, base.len() as int) =~= ascii_lower(
                base.subrange(d, base.len() as int),
            ));
            assert(ascii_lower(Seq::<char>::empty()) =~= Seq::<char>::empty());
        },
        None => {
            assert(ascii_lower(Seq::<char>::empty()) =~= Seq::<char>::empty());
        },
    }
}

/// A position that was found lies in the text.
proof fn lemma_last_in_bounds(s: Text, set: Text)
    ensures
        last_in(s, set) matches Some(i) ==> 0 <= i < s.len(),
    decreases s.len(),
{
    if s.len() > 0 {
        lemma_last_in_bounds(s.drop_last(), set);
    }
}

/// Whether a file may be uploaded does not depend on the case of its name.
pub proof fn blocking_ignores_case(filename: Text)
    ensures
        blocked(ascii_lower(extension(ascii_lower(filename)))) == blocked(
            ascii_lower(extension(filename)),
        ),
        content_type_of(ascii_lower(extension(ascii_lower(filename)))) == content_type_of(
            ascii_lower(extension(filename)),
        ),
{
    lemma_extension_lower(filename);
    let e = extension(filename);
    assert(ascii_lower(ascii_lower(e)) =~= ascii_lower(e));
}

// ---- what is sent and what is refused ----

/// What is posted carries all of the message: its text as it is, its source, its number,
/// every attachment in its order, and what it answers to where it answers.
pub proof fn a_post_carries_the_message(m: PostMessageV)
    ensures
        ({
            let p = post_payload(m);
            &&& p.field("content"@) == Some(JsonV::Str(m.content))
            &&& p.field("source"@) == Some(JsonV::Str(
                match m.source {
                    PostSource::QQ => "qq"@,
                    PostSource::Game => "game"@,
                },
            ))
            &&& p.field("source_message_id"@) == Some(JsonV::Str(m.source_message_id))
            &&& p.field("sender"@) == Some(JsonV::Object(sender_members(m)))
            &&& p.field("attachment_ids"@) matches Some(JsonV::Array(ids)) && ids.len()
                == m.attachment_ids.len() && forall|i: int|
                0 <= i < ids.len() ==> (#[trigger] ids[i]).as_int() == Some(m.attachment_ids[i])
            &&& m.reply_source_message_id.len() == 0 ==> p.field("reply"@) is None
            &&& m.reply_source_message_id.len() > 0 ==> (p.field("reply"@) matches Some(r) && {
                &&& r.field("source_message_id"@) == Some(JsonV::Str(m.reply_source_message_id))
                &&& r.field("nickname"@) == Some(JsonV::Str(m.reply_nickname))
                &&& r.field("content"@) == Some(JsonV::Str(m.reply_content))
            })
        }),
{
    reveal_strlit("content");
    reveal_strlit("source");
    reveal_strlit("source_message_id");
    reveal_strlit("sender");
    reveal_strlit("attachment_ids");
    reveal_strlit("reply");
    reveal_strlit("nickname");
    assert("content"@.len() == 7 && "source"@.len() == 6 && "source_message_id"@.len() == 17
        && "sender"@.len() == 6 && "attachment_ids"@.len() == 14 && "reply"@.len() == 5
        && "nickname"@.len() == 8);
    assert("source"@[1] != "sender"@[1]);
    let rm = seq![
        ("source_message_id"@, JsonV::Str(m.reply_source_message_id)),
        ("nickname"@, JsonV::Str(m.reply_nickname)),
        ("content"@, JsonV::Str(m.reply_content)),
    ];
    a_member_is_found(rm, 0);
    a_member_is_found(rm, 1);
    a_member_is_found(rm, 2);
    match post_payload(m) {
        JsonV::Object(s) => {
            assert(s[0].0 == "source"@ && s[1].0 == "sender"@ && s[2].0 == "content"@ && s[3].0
                == "source_message_id"@ && s[4].0 == "attachment_ids"@);
            a_member_is_found(s, 0);
            a_member_is_found(s, 1);
            a_member_is_found(s, 2);
            a_member_is_found(s, 3);
            a_member_is_found(s, 4);
            if m.reply_source_message_id.len() > 0 {
                assert(s[5].0 == "reply"@);
                assert(s[5].1 == JsonV::Object(rm));
                a_member_is_found(s, 5);
            } else {
                the_first_member_is_found(s, "reply"@);
            }
        },
        _ => {},
    }
}

/// The sender is named by every name that is known, and by no other.
pub proof fn a_post_names_its_sender(m: PostMessageV)
    ensures
        ({
            let s = JsonV::Object(sender_members(m));
            &&& (m.sender_qq matches Some(n) ==> n != 0 ==> s.field("qq"@) == Some(int_json(n)))
            &&& m.sender_qq is None ==> s.field("qq"@) is None
            &&& m.sender_username.len() > 0 ==> s.field("username"@) == Some(
                JsonV::Str(m.sender_username),
            )
            &&& m.sender_username.len() == 0 ==> s.field("username"@) is None
            &&& m.nickname.len() > 0 ==> s.field("nickname"@) == Some(JsonV::Str(m.nickname))
            &&& m.nickname.len() == 0 ==> s.field("nickname"@) is None
        }),
{
    reveal_strlit("qq");
    reveal_strlit("username");
    reveal_strlit("nickname");
    assert("qq"@.len() == 2 && "username"@[0] != "nickname"@[0]);
    assert("username"@.len() == 8 && "nickname"@.len() == 8);
    let n = match m.sender_qq {
        Some(n) => n,
        None => 0,
    };
    let a = member_if(n != 0, "qq"@, int_json(n));
    let b = member_if(m.sender_username.len() > 0, "username"@, JsonV::Str(m.sender_username));
    let c = member_if(m.nickname.len() > 0, "nickname"@, JsonV::Str(m.nickname));
    let s = sender_members(m);
    assert(s == a + b + c);
    the_first_member_is_found(s, "qq"@);
    the_first_member_is_found(s, "username"@);
    the_first_member_is_found(s, "nickname"@);
    if n != 0 {
        assert(s[0] == a[0]);
        a_member_is_found(s, 0);
    }
    if m.sender_username.len() > 0 {
        let i = a.len() as int;
        assert(s[i] == b[0]);
        a_member_is_found(s, i);
    }
    if m.nickname.len() > 0 {
        let i = (a + b).len() as int;
        assert(s[i] == c[0]);
        a_member_is_found(s, i);
    }
}

/// The extension of a file is what follows the last dot of its name, with the dot,
/// whatever directories stand before; a name that begins with its only dot has none.
pub proof fn an_extension_follows_the_last_dot(dir: Text, name: Text, ext: Text)
    requires
        dir.len() > 0 ==> dir.last() == '/' || dir.last() == '\\',
        !name.contains('/'),
        !name.contains('\\'),
        !ext.contains('/'),
        !ext.contains('\\'),
        !ext.contains('.'),
        name.len() > 0,
        name[0] != '.',
    ensures
        extension(dir + name + seq!['.'] + ext) == seq!['.'] + ext,
        extension(dir + seq!['.'] + ext).len() == 0,
{
    reveal_strlit("/\\");
    reveal_strlit(".");
    let base = name + seq!['.'] + ext;
    let full = dir + name + seq!['.'] + ext;
    assert(full =~= dir + base);
    assert forall|k: int| 0 <= k < base.len() implies base[k] != '/' && base[k] != '\\' by {
        if k < name.len() {
            assert(name.contains(name[k]));
            assert(base[k] == name[k]);
        } else if k > name.len() {
            assert(ext.contains(ext[k - name.len() - 1]));
            assert(base[k] == ext[k - name.len() - 1]);
        }
    }
    lemma_base_name(dir, base);
    let d = name.len() as int;
    assert(base[d] == '.');
    assert(base.subrange(d + 1, base.len() as int) =~= ext);
    lemma_last_dot(base, d, ext);
    assert(!only_dots(base.subrange(0, d))) by {
        assert(base.subrange(0, d)[0] == name[0]);
    }
    assert(base.subrange(d, base.len() as int) =~= seq!['.'] + ext);
    let hidden = seq!['.'] + ext;
    assert(dir + seq!['.'] + ext =~= dir + hidden);
    assert forall|k: int| 0 <= k < hidden.len() implies hidden[k] != '/' && hidden[k] != '\\' by {
        if k > 0 {
            assert(ext.contains(ext[k - 1]));
            assert(hidden[k] == ext[k - 1]);
        }
    }
    lemma_base_name(dir, hidden);
    assert(hidden.subrange(1, hidden.len() as int) =~= ext);
    lemma_last_dot(hidden, 0, ext);
    assert(only_dots(hidden.subrange(0, 0)));
}

/// What follows the last separator is the name.
proof fn lemma_base_name(dir: Text, base: Text)
    requires
        dir.len() > 0 ==> dir.last() == '/' || dir.last() == '\\',
        forall|k: int| 0 <= k < base.len() ==> base[k] != '/' && base[k] != '\\',
    ensures
        base_name(dir + base) == base,
{
    reveal_strlit("/\\");
    let s = dir + base;
    let set = "/\\"@;
    the_last_place_is_the_last(s, set);
    assert(set[0] == '/' && set[1] == '\\');
    assert forall|k: int| dir.len() <= k < s.len() implies !set.contains(#[trigger] s[k]) by {
        assert(s[k] == base[k - dir.len()]);
    }
    if dir.len() > 0 {
        let e = dir.len() - 1;
        assert(s[e] == dir.last());
        assert(set.contains(s[e]));
    } else {
        assert(s =~= base);
    }
    match last_in(s, set) {
        Some(i) => {
            assert(i == dir.len() - 1);
            assert(s.subrange(i + 1, s.len() as int) =~= base);
        },
        None => {},
    }
}

/// The last dot of a name is the one behind which there is none.
proof fn lemma_last_dot(base: Text, d: int, ext: Text)
    requires
        0 <= d < base.len(),
        base[d] == '.',
        base.subrange(d + 1, base.len() as int) == ext,
        !ext.contains('.'),
    ensures
        last_in(base, "."@) == Some(d),
{
    reveal_strlit(".");
    let set = "."@;
    the_last_place_is_the_last(base, set);
    assert(set[0] == '.');
    assert(set.contains(base[d]));
    assert forall|k: int| d < k < base.len() implies !set.contains(#[trigger] base[k]) by {
        assert(ext[k - d - 1] == base[k]);
        assert(ext.contains(ext[k - d - 1]));
    }
}

/// A file is taken where the token and the channel are set, it is neither empty nor over
/// ten megabytes and its kind is not forbidden, and only there; it is refused for the
/// first of these reasons that holds.
pub proof fn an_upload_is_refused_for_a_reason(configured: bool, len: nat, filename: Text)
    ensures
        upload_refused(configured, len, filename) is None <==> configured && 0 < len <= 10485760
            && !blocked(ascii_lower(extension(filename))),
        (upload_refused(configured, len, filename) matches Some(e) ==> e.status is None
            && e.body.len() == 0),
{
}

/// Programs, scripts and packages are not taken, whatever their names are.
pub proof fn programs_are_not_taken(len: nat, filename: Text)
    requires
        ({
            let e = ascii_lower(extension(filename));
            e == ".exe"@ || e == ".bat"@ || e == ".cmd"@ || e == ".com"@ || e == ".cpl"@ || e
                == ".dll"@ || e == ".scr"@ || e == ".msi"@ || e == ".jar"@ || e == ".sh"@ || e
                == ".bash"@ || e == ".ps1"@ || e == ".vbs"@ || e == ".js"@ || e == ".wsf"@ || e
                == ".apk"@ || e == ".app"@ || e == ".deb"@ || e == ".rpm"@
        }),
    ensures
        upload_refused(true, len, filename) is Some,
        upload_refused(false, len, filename) is Some,
{
}

/// An upload gives the number that the reply gives, where it succeeded; no other reply
/// gives one.
pub proof fn an_upload_gives_its_number(status: u16, body: Text, id: i64)
    ensures
        upload_result(status, body) == Ok::<i64, ForwardApiErrorV>(id) <==> status == 200 && (
        json_read(encode_utf8(body)) matches Ok(j) && (j.field("id"@) matches Some(v) && v.as_int()
            == Some(id))),
        (upload_result(status, body) matches Err(e) ==> e.status == Some(status)),
{
}

/// A message was posted where the reply says that it was created and can be read, and
/// only there; it gives what the reply holds.
pub proof fn a_post_gives_its_reply(status: u16, body: Text, j: JsonV)
    ensures
        post_result(status, body) == Ok::<JsonV, ForwardApiErrorV>(j) <==> status == 201
            && json_read(encode_utf8(body)) == Ok::<JsonV, Text>(j),
        (post_result(status, body) matches Err(e) ==> e.status == Some(status)),
{
}

/// A message is posted where the token and the channel are set and it has a text or an
/// attachment, and only there.
pub proof fn an_empty_message_is_not_posted(configured: bool, m: PostMessageV)
    ensures
        post_refused(configured, m) is None <==> configured && (trimmed(m.content).len() > 0
            || m.attachment_ids.len() > 0),
{
}

/// Requests go to the channel that is configured at the address that is configured; there
/// is something to send to where a token and a channel are.
pub proof fn requests_go_to_the_channel(api: ForwardApi, suffix: Text)
    ensures
        crate::text::begins(api.endpoint(suffix), api.base_url@),
        crate::text::ends(api.endpoint(suffix), int_text(api.channel_id as int) + suffix),
        api.is_configured() <==> api.token@.len() > 0 && api.channel_id >= 1,
{
    let e = api.endpoint(suffix);
    let t = int_text(api.channel_id as int) + suffix;
    assert(e.subrange(0, api.base_url@.len() as int) =~= api.base_url@);
    assert(e.subrange(e.len() - t.len(), e.len() as int) =~= t);
}

} // verus!
