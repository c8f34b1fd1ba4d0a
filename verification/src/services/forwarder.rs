//! Forwarding QQ group messages to the chatroom: what is sent, with which images
//! and as an answer to what, and that nothing is sent twice.

use crate::codec::{
    can_shrink, image_form, is_shrinkable, picture_form, picture_jpeg, shrink_to_jpeg, shrunk_jpeg,
    to_jpeg,
};
use crate::adapters::forward_api::{blank_message, PostMessage, PostMessageV, PostSource};
use crate::adapters::onebot::{
    a_message_answers_to_its_first_reply, of_kind, reply_to, segments_text, segments_v,
    GroupMessage, GroupMessageV, SegmentV,
};
use crate::error::ForwardApiError;
use crate::json::{
    int_json, numbers_are_shown_in_digits, shown_if_truthy, Json, JsonV,
};
use crate::state::{
    keys_differ, newest, pair_value, the_last_pair_stays, with_pair, StateStore, StateV,
};
use crate::text::{
    a_number_is_read_back, a_part_occurs, a_prefix_is_a_beginning, alike_before_a_tail,
    alike_behind_a_head, all_digits, begins, decimal, different_numbers_differ, digits_hold_digits,
    has, i64_text, i64_value, int_text, int_value, is_digits, join2, join3, parse_i64, prefix,
    push_text, starts, texts, trimmed, truncate_chars, u64_text, what_is_parted_alike_is_alike,
    Text,
};
use indexmap::IndexMap;
use vstd::prelude::*;

verus! {

/// Most bytes of an image; a larger one is left out.
pub const MAX_UPLOAD_SIZE: usize = 10485760;

/// Bytes above which an image is compressed.
pub const IMAGE_COMPRESS_THRESHOLD: usize = 2097152;

/// Longest side of a compressed image.
pub const IMAGE_MAX_DIMENSION: u32 = 1920;

/// JPEG quality of a compressed image.
pub const IMAGE_QUALITY: u8 = 75;

/// How many messages are remembered to answer to.
pub const RECENT_CACHE_SIZE: usize = 200;

/// What to forward of a message.
#[derive(Debug)]
pub struct ForwardPlan {
    pub content: String,
    pub image_refs: Vec<String>,
    pub reply_to: Option<String>,
}

/// What a [`ForwardPlan`] holds.
pub struct ForwardPlanV {
    pub content: Text,
    pub image_refs: Seq<Text>,
    pub reply_to: Option<Text>,
}

impl View for ForwardPlan {
    type V = ForwardPlanV;

    open spec fn view(&self) -> ForwardPlanV {
        ForwardPlanV {
            content: self.content@,
            image_refs: texts(self.image_refs@),
            reply_to: match self.reply_to {
                Some(s) => Some(s@),
                None => None,
            },
        }
    }
}

impl ForwardPlan {
    /// Whether there is nothing to forward.
    pub fn is_empty(&self) -> (r: bool)
        ensures
            r == (self@.content.len() == 0 && self@.image_refs.len() == 0),
    {
        self.content.as_str().is_empty() && self.image_refs.len() == 0
    }
}

/// Where an image is: its address, else its file.
pub open spec fn image_ref(seg: SegmentV) -> Text {
    let url = shown_if_truthy(seg.data.field("url"@));
    if url.len() > 0 {
        url
    } else {
        shown_if_truthy(seg.data.field("file"@))
    }
}

/// Where images are; one that is nowhere is left out.
pub open spec fn image_refs(images: Seq<SegmentV>) -> Seq<Text>
    decreases images.len(),
{
    if images.len() == 0 {
        Seq::<Text>::empty()
    } else {
        let before = image_refs(images.drop_last());
        if image_ref(images.last()).len() > 0 {
            before.push(image_ref(images.last()))
        } else {
            before
        }
    }
}

/// What to forward of a message.
pub open spec fn plan_of(msg: GroupMessageV) -> ForwardPlanV {
    ForwardPlanV {
        content: msg.full_text(),
        image_refs: image_refs(of_kind(msg.segments, "image"@)),
        reply_to: reply_to(msg.segments),
    }
}

/// What to forward of a message.
pub fn build_forward_plan(msg: &GroupMessage) -> (r: ForwardPlan)
    ensures
        r@ == plan_of(msg@),
{
    let images = msg.images();
    let ghost all = segments_v(images@);
    let mut refs: Vec<String> = Vec::new();
    let mut i: usize = 0;
    assert(texts(refs@) =~= image_refs(all.take(0)));
    while i < images.len()
        invariant
            i <= images@.len(),
            all == segments_v(images@),
            texts(refs@) == image_refs(all.take(i as int)),
        decreases images@.len() - i,
    {
        assert(all.take(i + 1).drop_last() =~= all.take(i as int));
        assert(all.take(i + 1).last() == images@[i as int]@);
        let url = images[i].url();
        let at = if url.as_str().is_empty() {
            images[i].file()
        } else {
            url
        };
        if !at.as_str().is_empty() {
            push_text(&mut refs, at);
        }
        i = i + 1;
    }
    assert(all.take(i as int) =~= all);
    let reply = msg.reply_message_id();
    ForwardPlan { content: msg.text(), image_refs: refs, reply_to: reply }
}

/// How many messages were forwarded, left out as duplicates, and lost.
#[derive(Debug, Clone, Copy, PartialEq, Eq, Structural)]
pub struct ForwarderStats {
    pub forwarded: u64,
    pub skipped_duplicate: u64,
    pub failed: u64,
}

/// The messages of a cache, oldest first: number, name and summary.
pub uninterp spec fn recent_pairs(m: IndexMap<i64, (String, String)>) -> Seq<
    (i64, (Seq<char>, Seq<char>)),
>;

/// Calls `IndexMap::new`: a map without pairs.
#[verifier::external_body]
fn recent_new() -> (r: IndexMap<i64, (String, String)>)
    ensures
        recent_pairs(r) == Seq::<(i64, (Text, Text))>::empty(),
{
    IndexMap::new()
}

/// Calls `IndexMap::len`: the number of pairs.
#[verifier::external_body]
fn recent_len(m: &IndexMap<i64, (String, String)>) -> (r: usize)
    ensures
        r == recent_pairs(*m).len(),
{
    m.len()
}

/// Calls `IndexMap::get`: the value under the key. No key stands twice in a map.
#[verifier::external_body]
fn recent_get(m: &IndexMap<i64, (String, String)>, key: i64) -> (r: Option<(String, String)>)
    ensures
        match r {
            Some(p) => pair_value(recent_pairs(*m), key) == Some((p.0@, p.1@)),
            None => pair_value(recent_pairs(*m), key) is None,
        },
{
    m.get(&key).cloned()
}

/// Calls `IndexMap::insert`: a key that is there keeps its place and gets the
/// value, a new key comes last. No key stands twice in the map.
#[verifier::external_body]
fn recent_insert(m: &mut IndexMap<i64, (String, String)>, key: i64, value: (String, String))
    ensures
        recent_pairs(*final(m)) == with_pair(recent_pairs(*old(m)), key, (value.0@, value.1@)),
        keys_differ(recent_pairs(*final(m))),
{
    m.insert(key, value);
}

/// Calls `IndexMap::shift_remove_index` with index 0: removes the oldest pair and
/// keeps the order of the others.
#[verifier::external_body]
fn recent_drop_first(m: &mut IndexMap<i64, (String, String)>)
    requires
        recent_pairs(*old(m)).len() > 0,
    ensures
        recent_pairs(*final(m)) == recent_pairs(*old(m)).drop_first(),
{
    m.shift_remove_index(0);
}

/// Whether an image has to be shrunk: one that fits is never enlarged.
pub open spec fn exceeds_frame(width: nat, height: nat) -> bool {
    width > IMAGE_MAX_DIMENSION || height > IMAGE_MAX_DIMENSION
}

/// What a large image becomes: shrunk where it exceeds the frame, and encoded as
/// JPEG; nothing where it cannot be read, or is so long that it cannot be shrunk.
pub open spec fn compressed(data: Seq<u8>) -> Option<Seq<u8>> {
    match picture_form(data) {
        Some((w, h, b, c)) => if exceeds_frame(w, h) {
            if can_shrink(w, h, b, c, IMAGE_MAX_DIMENSION as nat) {
                shrunk_jpeg(data, IMAGE_MAX_DIMENSION as nat, IMAGE_QUALITY as nat)
            } else {
                None
            }
        } else {
            picture_jpeg(data, IMAGE_QUALITY as nat)
        },
        None => None,
    }
}

/// Whether an image of this size has to be shrunk.
pub fn must_shrink(width: u32, height: u32) -> (r: bool)
    ensures
        r == exceeds_frame(width as nat, height as nat),
{
    width > IMAGE_MAX_DIMENSION || height > IMAGE_MAX_DIMENSION
}

/// Shrinks and encodes an image that is too large.
pub fn compress_image(data: &[u8]) -> (r: Option<Vec<u8>>)
    ensures
        match r {
            Some(v) => compressed(data@) == Some(v@),
            None => compressed(data@) is None,
        },
{
    match image_form(data) {
        Some((w, h, b, c)) => if must_shrink(w, h) {
            if is_shrinkable(w, h, b, c, IMAGE_MAX_DIMENSION) {
                shrink_to_jpeg(data, IMAGE_MAX_DIMENSION, IMAGE_QUALITY)
            } else {
                None
            }
        } else {
            to_jpeg(data, IMAGE_QUALITY)
        },
        None => None,
    }
}

/// An image to upload.
#[derive(Debug)]
pub struct ImagePayload {
    pub data: Vec<u8>,
    pub filename: String,
    pub content_type: String,
}

/// The name of an image that is uploaded as it came.
pub open spec fn image_name(message_id: i64, index: nat) -> Text {
    "qq-"@ + int_text(message_id as int) + "-"@ + decimal(index) + ".png"@
}

/// Chooses what to upload: the compressed image where there is one, else the image
/// as it came.
pub fn choose_payload(
    data: Vec<u8>,
    compressed: Option<Vec<u8>>,
    message_id: i64,
    index: usize,
) -> (r: ImagePayload)
    ensures
        match compressed {
            Some(c) => r.data == c && r.filename@ == "qq-compressed.jpg"@ && r.content_type@
                == "image/jpeg"@,
            None => r.data == data && r.filename@ == image_name(message_id, index as nat)
                && r.content_type@ == "image/png"@,
        },
        (r.data@, r.filename@, r.content_type@) == image_sent(
            data@,
            match compressed {
                Some(c) => Some(c@),
                None => None,
            },
            message_id,
            index as nat,
        ),
{
    match compressed {
        Some(c) => ImagePayload {
            data: c,
            filename: "qq-compressed.jpg".to_owned(),
            content_type: "image/jpeg".to_owned(),
        },
        None => {
            let head = join3("qq-", i64_text(message_id).as_str(), "-");
            ImagePayload {
                data,
                filename: join3(head.as_str(), u64_text(index as u64).as_str(), ".png"),
                content_type: "image/png".to_owned(),
            }
        },
    }
}

/// The address of an image: the reference where it is one, else what it was
/// resolved to.
pub open spec fn image_url(reference: Text, resolved: Option<Text>) -> Option<Text> {
    if begins(reference, "http"@) {
        Some(reference)
    } else {
        match resolved {
            Some(u) => if begins(u, "http"@) {
                Some(u)
            } else {
                None
            },
            None => None,
        }
    }
}

/// Whether a reference has to be resolved first.
pub fn needs_resolving(reference: &str) -> (r: bool)
    ensures
        r == !begins(reference@, "http"@),
{
    !starts(reference, "http")
}

/// The address of an image, or why there is none.
pub fn image_address(reference: &str, resolved: Option<String>) -> (r: Result<String, String>)
    ensures
        ({
            let to = match resolved {
                Some(u) => Some(u@),
                None => None,
            };
            match r {
                Ok(u) => image_url(reference@, to) == Some(u@),
                Err(m) => image_url(reference@, to) is None && m@ == "无法解析图片地址: "@
                    + prefix(reference@, 80),
            }
        }),
{
    if starts(reference, "http") {
        return Ok(reference.to_owned());
    }
    if let Some(u) = resolved {
        if starts(u.as_str(), "http") {
            return Ok(u);
        }
    }
    Err(join2("无法解析图片地址: ", truncate_chars(reference, 80).as_str()))
}

/// Why a download is of no use.
pub open spec fn download_refused(status: u16, len: nat) -> Option<Text> {
    if status != 200 {
        Some("下载图片失败 HTTP "@ + decimal(status as nat))
    } else if len > MAX_UPLOAD_SIZE {
        Some("图片超过 10MB（"@ + decimal(len) + " 字节）"@)
    } else {
        None
    }
}

/// Takes a download and makes an upload of it: an image above the threshold is
/// compressed, and goes as it came where that fails.
pub fn fetch_image(status: u16, data: Vec<u8>, message_id: i64, index: usize) -> (r: Result<
    ImagePayload,
    String,
>)
    ensures
        match r {
            Err(m) => download_refused(status, data@.len()) == Some(m@),
            Ok(p) => {
                &&& download_refused(status, data@.len()) is None
                &&& if data@.len() > IMAGE_COMPRESS_THRESHOLD && compressed(data@) is Some {
                    &&& compressed(data@) == Some(p.data@)
                    &&& p.filename@ == "qq-compressed.jpg"@
                    &&& p.content_type@ == "image/jpeg"@
                } else {
                    &&& p.data == data
                    &&& p.filename@ == image_name(message_id, index as nat)
                    &&& p.content_type@ == "image/png"@
                }
            },
        },
{
    if status != 200 {
        return Err(join2("下载图片失败 HTTP ", u64_text(status as u64).as_str()));
    }
    if data.len() > MAX_UPLOAD_SIZE {
        return Err(
            join3("图片超过 10MB（", u64_text(data.len() as u64).as_str(), " 字节）"),
        );
    }
    let smaller = if data.len() > IMAGE_COMPRESS_THRESHOLD {
        compress_image(data.as_slice())
    } else {
        None
    };
    Ok(choose_payload(data, smaller, message_id, index))
}

/// What is remembered of a message: its text, or that it is an image.
pub open spec fn summary(msg: GroupMessageV) -> Text {
    if msg.full_text().len() > 0 {
        prefix(msg.full_text(), 200)
    } else if of_kind(msg.segments, "image"@).len() > 0 {
        "[图片]"@
    } else {
        Seq::<char>::empty()
    }
}

/// Forwards group messages to the chatroom.
#[derive(Debug)]
pub struct ChatroomForwarder {
    pub enabled: bool,
    pub self_id: i64,
    pub counts: ForwarderStats,
    pub recent: IndexMap<i64, (String, String)>,
}

/// What to do with a message.
#[derive(Debug)]
pub enum Forwarding {
    /// Nothing.
    Skip,
    /// Fetch its images and send it.
    Send(ForwardPlan),
}

/// The messages that are remembered after one more.
pub open spec fn remembered(
    recent: Seq<(i64, (Text, Text))>,
    msg: GroupMessageV,
) -> Seq<(i64, (Text, Text))> {
    newest(
        with_pair(recent, msg.message_id, (msg.shown_name(), summary(msg))),
        RECENT_CACHE_SIZE as nat,
    )
}

/// What is remembered of the message that another one answers.
pub open spec fn remembered_reply(
    recent: Seq<(i64, (Text, Text))>,
    reply_to: Option<Text>,
) -> (Text, Text) {
    let nothing = (Seq::<char>::empty(), Seq::<char>::empty());
    match reply_to {
        Some(id) => if all_digits(id) && i64_value(id) is Some {
            match pair_value(recent, i64_value(id)->0) {
                Some(p) => p,
                None => nothing,
            }
        } else {
            nothing
        },
        None => nothing,
    }
}

/// The message to send.
pub open spec fn forwarded_message(
    msg: GroupMessageV,
    plan: ForwardPlanV,
    attachment_ids: Seq<i64>,
    reply: (Text, Text),
) -> PostMessageV {
    PostMessageV {
        content: plan.content,
        source_message_id: int_text(msg.message_id as int),
        sender_qq: Some(msg.user_id),
        nickname: msg.shown_name(),
        reply_source_message_id: match plan.reply_to {
            Some(id) => id,
            None => Seq::<char>::empty(),
        },
        reply_nickname: reply.0,
        reply_content: reply.1,
        attachment_ids,
        ..blank_message(PostSource::QQ)
    }
}

/// The numbers of the images that could be uploaded, in their order.
pub open spec fn uploaded_ids(uploads: Seq<Option<i64>>) -> Seq<i64>
    decreases uploads.len(),
{
    if uploads.len() == 0 {
        Seq::empty()
    } else {
        match uploads.last() {
            Some(id) => uploaded_ids(uploads.drop_last()).push(id),
            None => uploaded_ids(uploads.drop_last()),
        }
    }
}

/// The numbers of the images that could be uploaded, in their order.
fn collect_ids(uploads: &Vec<Option<i64>>) -> (r: Vec<i64>)
    ensures
        r@ == uploaded_ids(uploads@),
{
    let mut out: Vec<i64> = Vec::new();
    let mut i: usize = 0;
    assert(uploads@.take(0) =~= Seq::empty());
    while i < uploads.len()
        invariant
            i <= uploads@.len(),
            out@ == uploaded_ids(uploads@.take(i as int)),
        decreases uploads@.len() - i,
    {
        assert(uploads@.take(i + 1).drop_last() =~= uploads@.take(i as int));
        assert(uploads@.take(i + 1).last() == uploads@[i as int]);
        if let Some(id) = uploads[i] {
            out.push(id);
        }
        i = i + 1;
    }
    assert(uploads@.take(i as int) =~= uploads@);
    out
}

impl ChatroomForwarder {
    /// The messages that are remembered.
    pub open spec fn memory(&self) -> Seq<(i64, (Text, Text))> {
        recent_pairs(self.recent)
    }

    /// A forwarder that remembers nothing.
    pub fn new(enabled: bool, self_id: i64) -> (r: Self)
        ensures
            r.enabled == enabled,
            r.self_id == self_id,
            r.counts == (ForwarderStats { forwarded: 0, skipped_duplicate: 0, failed: 0 }),
            r.memory() == Seq::<(i64, (Text, Text))>::empty(),
    {
        ChatroomForwarder {
            enabled,
            self_id,
            counts: ForwarderStats { forwarded: 0, skipped_duplicate: 0, failed: 0 },
            recent: recent_new(),
        }
    }

    /// What was counted.
    pub fn stats(&self) -> (r: ForwarderStats)
        ensures
            r == self.counts,
    {
        self.counts
    }

    /// Whether a message is looked at: not while forwarding is off, nor where the
    /// bot itself wrote it.
    pub open spec fn listens(&self, msg: GroupMessageV) -> bool {
        self.enabled && !(self.self_id != 0 && msg.user_id == self.self_id)
    }

    /// Takes a message: remembers it, and says whether to send it. An empty message
    /// is not sent, and one that was forwarded before is counted and not sent.
    pub fn handle(&mut self, state: &StateStore, msg: &GroupMessage) -> (r: Forwarding)
        requires
            old(self).counts.skipped_duplicate < u64::MAX,
        ensures
            final(self).enabled == old(self).enabled,
            final(self).self_id == old(self).self_id,
            ({
                let plan = plan_of(msg@);
                let seen = pair_value(state@.forwarded, int_text(msg.message_id as int)) is Some;
                if !old(self).listens(msg@) {
                    &&& r is Skip
                    &&& final(self).memory() == old(self).memory()
                    &&& final(self).counts == old(self).counts
                } else {
                    &&& final(self).memory() == remembered(old(self).memory(), msg@)
                    &&& if plan.content.len() == 0 && plan.image_refs.len() == 0 {
                        r is Skip && final(self).counts == old(self).counts
                    } else if seen {
                        r is Skip && final(self).counts == (ForwarderStats {
                            skipped_duplicate: (old(self).counts.skipped_duplicate + 1) as u64,
                            ..old(self).counts
                        })
                    } else {
                        r is Send && r->0@ == plan && final(self).counts == old(self).counts
                    }
                }
            }),
            match r {
                Forwarding::Send(p) => to_forward(old(self).listens(msg@), msg@, state@.forwarded)
                    == Some(p@),
                Forwarding::Skip => to_forward(old(self).listens(msg@), msg@, state@.forwarded)
                    is None,
            },
    {
        if !self.enabled || (self.self_id != 0 && msg.user_id == self.self_id) {
            return Forwarding::Skip;
        }
        let plan = build_forward_plan(msg);
        self.remember(msg);
        if plan.is_empty() {
            return Forwarding::Skip;
        }
        if state.already_forwarded(i64_text(msg.message_id).as_str()) {
            self.counts = ForwarderStats {
                forwarded: self.counts.forwarded,
                skipped_duplicate: self.counts.skipped_duplicate + 1,
                failed: self.counts.failed,
            };
            return Forwarding::Skip;
        }
        Forwarding::Send(plan)
    }

    /// Remembers a message; the oldest make room.
    fn remember(&mut self, msg: &GroupMessage)
        ensures
            final(self).memory() == remembered(old(self).memory(), msg@),
            final(self).memory().len() <= RECENT_CACHE_SIZE,
            final(self).enabled == old(self).enabled,
            final(self).self_id == old(self).self_id,
            final(self).counts == old(self).counts,
    {
        let text = msg.text();
        let images = msg.images();
        assert(segments_v(images@).len() == images@.len());
        let short = if !text.as_str().is_empty() {
            truncate_chars(text.as_str(), 200)
        } else if images.len() > 0 {
            "[图片]".to_owned()
        } else {
            String::new()
        };
        assert(short@ =~= summary(msg@));
        let name = msg.display_name();
        let ghost full = with_pair(
            recent_pairs(self.recent),
            msg.message_id,
            (name@, short@),
        );
        recent_insert(&mut self.recent, msg.message_id, (name, short));
        assert(full.subrange(0, full.len() as int) =~= full);
        while recent_len(&self.recent) > RECENT_CACHE_SIZE
            invariant
                self.enabled == old(self).enabled,
                self.self_id == old(self).self_id,
                self.counts == old(self).counts,
                recent_pairs(self.recent).len() <= full.len(),
                recent_pairs(self.recent) == full.subrange(
                    full.len() - recent_pairs(self.recent).len(),
                    full.len() as int,
                ),
                recent_pairs(self.recent).len() >= RECENT_CACHE_SIZE || recent_pairs(self.recent)
                    == full,
            decreases recent_pairs(self.recent).len(),
        {
            let ghost before = recent_pairs(self.recent);
            recent_drop_first(&mut self.recent);
            assert(recent_pairs(self.recent) =~= full.subrange(
                full.len() - before.len() + 1,
                full.len() as int,
            ));
        }
        assert(recent_pairs(self.recent) =~= newest(full, RECENT_CACHE_SIZE as nat));
    }

    /// The message to send for a plan, with what came of uploading each image: one that
    /// could not be uploaded is left out. What it answers is filled in from what is
    /// remembered.
    pub fn message_for(
        &self,
        msg: &GroupMessage,
        plan: &ForwardPlan,
        uploads: &Vec<Option<i64>>,
    ) -> (r: PostMessage)
        ensures
            r@ == forwarded_message(
                msg@,
                plan@,
                uploaded_ids(uploads@),
                remembered_reply(self.memory(), plan@.reply_to),
            ),
    {
        let mut reply_nickname = String::new();
        let mut reply_content = String::new();
        let mut reply_id = String::new();
        if let Some(id) = &plan.reply_to {
            reply_id = id.clone();
            if is_digits(id.as_str()) {
                if let Some(n) = parse_i64(id.as_str()) {
                    if let Some(p) = recent_get(&self.recent, n) {
                        reply_nickname = p.0;
                        reply_content = p.1;
                    }
                }
            }
        }
        proof {
            let reply = remembered_reply(self.memory(), plan@.reply_to);
            assert(reply_nickname@ =~= reply.0);
            assert(reply_content@ =~= reply.1);
        }
        let mut message = PostMessage::new(PostSource::QQ);
        message.content = plan.content.clone();
        message.source_message_id = i64_text(msg.message_id);
        message.sender_qq = Some(msg.user_id);
        message.nickname = msg.display_name();
        message.reply_source_message_id = reply_id;
        message.reply_nickname = reply_nickname;
        message.reply_content = reply_content;
        message.attachment_ids = collect_ids(uploads);
        assert(message@.reply_source_message_id =~= (match plan@.reply_to {
            Some(id) => id,
            None => Seq::<char>::empty(),
        }));
        message
    }

    /// Takes what came of sending: counts it, and marks the message as forwarded
    /// where the chatroom gave it a number. Gives whether it was forwarded.
    pub fn finish(
        &mut self,
        state: &mut StateStore,
        message_id: i64,
        result: Result<Json, ForwardApiError>,
    ) -> (r: bool)
        requires
            old(self).counts.forwarded < u64::MAX,
            old(self).counts.failed < u64::MAX,
        ensures
            final(self).enabled == old(self).enabled,
            final(self).self_id == old(self).self_id,
            final(self).memory() == old(self).memory(),
            r == (result is Ok),
            match result {
                Err(_) => {
                    &&& final(state)@ == old(state)@
                    &&& final(self).counts == (ForwarderStats {
                        failed: (old(self).counts.failed + 1) as u64,
                        ..old(self).counts
                    })
                },
                Ok(j) => {
                    &&& final(self).counts == (ForwarderStats {
                        forwarded: (old(self).counts.forwarded + 1) as u64,
                        ..old(self).counts
                    })
                    &&& final(state)@ == match message_number(j@) {
                        Some(id) => StateV {
                            forwarded: newest(
                                with_pair(old(state)@.forwarded, int_text(message_id as int), id),
                                old(state)@.max,
                            ),
                            ..old(state)@
                        },
                        None => old(state)@,
                    }
                },
            },
            final(state)@ == after_post(
                old(state)@,
                message_id,
                match result {
                    Ok(j) => Some(j@),
                    Err(_) => None,
                },
            ),
    {
        match result {
            Err(_) => {
                self.counts = ForwarderStats {
                    forwarded: self.counts.forwarded,
                    skipped_duplicate: self.counts.skipped_duplicate,
                    failed: self.counts.failed + 1,
                };
                false
            },
            Ok(j) => {
                if let Some(id) = j.get("id") {
                    if let Some(n) = id.as_i64() {
                        state.mark_forwarded(i64_text(message_id).as_str(), n);
                    }
                }
                self.counts = ForwarderStats {
                    forwarded: self.counts.forwarded + 1,
                    skipped_duplicate: self.counts.skipped_duplicate,
                    failed: self.counts.failed,
                };
                true
            },
        }
    }
}

/// What is to be sent of a message: its plan, where it is listened to, has anything to
/// send and was not forwarded before.
pub open spec fn to_forward(
    heard: bool,
    msg: GroupMessageV,
    forwarded: Seq<(Text, i64)>,
) -> Option<ForwardPlanV> {
    let plan = plan_of(msg);
    if heard && (plan.content.len() > 0 || plan.image_refs.len() > 0) && pair_value(
        forwarded,
        int_text(msg.message_id as int),
    ) is None {
        Some(plan)
    } else {
        None
    }
}

/// The saved state after a message was posted, by the reply to the post, or without one
/// where posting failed.
pub open spec fn after_post(state: StateV, message_id: i64, reply: Option<JsonV>) -> StateV {
    match reply {
        Some(j) => match message_number(j) {
            Some(n) => StateV {
                forwarded: newest(
                    with_pair(state.forwarded, int_text(message_id as int), n),
                    state.max,
                ),
                ..state
            },
            None => state,
        },
        None => state,
    }
}

/// The bytes, the name and the kind of the image that is uploaded: the smaller one where
/// there is one, and otherwise the image as it came.
pub open spec fn image_sent(
    data: Seq<u8>,
    smaller: Option<Seq<u8>>,
    message_id: i64,
    index: nat,
) -> (Seq<u8>, Text, Text) {
    match smaller {
        Some(c) => (c, "qq-compressed.jpg"@, "image/jpeg"@),
        None => (data, image_name(message_id, index), "image/png"@),
    }
}

/// The number that the chatroom gave a message.
pub open spec fn message_number(reply: JsonV) -> Option<i64> {
    match reply.field("id"@) {
        Some(id) => id.as_int(),
        None => None,
    }
}

/// A message that the chatroom gave a number is found as forwarded, so that it is
/// not sent again.
pub proof fn forwarded_message_is_found(state: StateV, message_id: i64, number: i64)
    requires
        keys_differ(state.forwarded),
        state.forwarded.len() <= state.max,
        state.max >= 1,
    ensures
        pair_value(
            newest(with_pair(state.forwarded, int_text(message_id as int), number), state.max),
            int_text(message_id as int),
        ) is Some,
{
    crate::state::marked_is_found(
        state.forwarded,
        int_text(message_id as int),
        number,
        state.max,
    );
}

/// No more than [`RECENT_CACHE_SIZE`] messages are remembered.
pub proof fn memory_is_bounded(recent: Seq<(i64, (Text, Text))>, msg: GroupMessageV)
    ensures
        remembered(recent, msg).len() <= RECENT_CACHE_SIZE,
        remembered(recent, msg).len() <= 200,
{
}

// ---- what forwarding keeps to ----

/// The message that is sent says what the group message says, whatever became of its
/// images and whatever it answers to: its content is that of the plan, and the plan of
/// a message has its full text. It carries exactly the images that were uploaded, and
/// the number and the name of the one who wrote it.
pub proof fn a_post_says_what_the_message_says(
    msg: GroupMessageV,
    plan: ForwardPlanV,
    uploads: Seq<Option<i64>>,
    reply: (Text, Text),
)
    ensures
        plan_of(msg).content == trimmed(segments_text(msg.segments)),
        forwarded_message(msg, plan, uploaded_ids(uploads), reply).content == plan.content,
        forwarded_message(msg, plan_of(msg), uploaded_ids(uploads), reply).content
            == msg.full_text(),
        ({
            let post = forwarded_message(msg, plan, uploaded_ids(uploads), reply);
            &&& post.source == PostSource::QQ
            &&& post.attachment_ids == uploaded_ids(uploads)
            &&& post.sender_qq == Some(msg.user_id)
            &&& post.nickname == msg.shown_name()
            &&& post.sender_username.len() == 0
            &&& int_value(post.source_message_id) == Some(msg.message_id as int)
            &&& (plan.reply_to matches Some(id) ==> post.reply_source_message_id == id)
            &&& plan.reply_to is None ==> post.reply_source_message_id.len() == 0
            &&& post.reply_nickname == reply.0
            &&& post.reply_content == reply.1
        }),
{
    a_number_is_read_back(msg.message_id as int);
}

/// What two messages say is told apart: posts of the same content are of messages of
/// the same text, and those of one number are of one message.
pub proof fn posts_tell_messages_apart(
    a: GroupMessageV,
    b: GroupMessageV,
    x: Seq<Option<i64>>,
    y: Seq<Option<i64>>,
    reply: (Text, Text),
    other: (Text, Text),
)
    ensures
        forwarded_message(a, plan_of(a), uploaded_ids(x), reply).content == forwarded_message(
            b,
            plan_of(b),
            uploaded_ids(y),
            other,
        ).content <==> a.full_text() == b.full_text(),
        forwarded_message(a, plan_of(a), uploaded_ids(x), reply).source_message_id
            == forwarded_message(b, plan_of(b), uploaded_ids(y), other).source_message_id
            <==> a.message_id == b.message_id,
{
    a_number_is_read_back(a.message_id as int);
    a_number_is_read_back(b.message_id as int);
}

/// Every image that was uploaded goes along, in the order of the message, and one that
/// failed leaves no gap: the ids of two lists of uploads are those of the one and then
/// those of the other.
pub proof fn every_uploaded_image_goes_along(
    a: Seq<Option<i64>>,
    b: Seq<Option<i64>>,
    id: i64,
)
    ensures
        uploaded_ids(a + b) == uploaded_ids(a) + uploaded_ids(b),
        uploaded_ids(seq![Some(id)]) == seq![id],
        uploaded_ids(seq![None]).len() == 0,
    decreases b.len(),
{
    let none = Seq::<Option<i64>>::empty();
    assert(seq![Some(id)].drop_last() =~= none);
    assert(seq![None::<i64>].drop_last() =~= none);
    assert(uploaded_ids(none) =~= Seq::<i64>::empty());
    assert(Seq::<i64>::empty().push(id) =~= seq![id]);
    if b.len() == 0 {
        assert(a + b =~= a);
        assert(uploaded_ids(b) =~= Seq::<i64>::empty());
        assert(uploaded_ids(a) + uploaded_ids(b) =~= uploaded_ids(a));
    } else {
        every_uploaded_image_goes_along(a, b.drop_last(), id);
        assert((a + b).drop_last() =~= a + b.drop_last());
        assert((a + b).last() == b.last());
        assert(uploaded_ids(a + b) =~= uploaded_ids(a) + uploaded_ids(b));
    }
}

/// Every image of a message is to be sent, in its order, by its address or else by the
/// name of its file; segments of other kinds are no images.
pub proof fn every_image_is_planned(
    a: Seq<SegmentV>,
    b: Seq<SegmentV>,
    seg: SegmentV,
    url: Text,
    file: Text,
)
    ensures
        image_refs(a + b) == image_refs(a) + image_refs(b),
        seg.data.field("url"@) == Some(JsonV::Str(url)) && url.len() > 0 ==> image_refs(seq![seg])
            == seq![url],
        seg.data.field("url"@) is None && seg.data.field("file"@) == Some(JsonV::Str(file))
            && file.len() > 0 ==> image_refs(seq![seg]) == seq![file],
        seg.data.field("url"@) is None && seg.data.field("file"@) is None ==> image_refs(
            seq![seg],
        ).len() == 0,
        forall|msg: GroupMessageV| #[trigger]
            plan_of(msg).image_refs == image_refs(of_kind(msg.segments, "image"@)),
    decreases b.len(),
{
    let none = Seq::<SegmentV>::empty();
    assert(seq![seg].drop_last() =~= none);
    assert(seq![seg].last() == seg);
    assert(image_refs(none) =~= Seq::<Text>::empty());
    numbers_are_shown_in_digits(0, url);
    numbers_are_shown_in_digits(0, file);
    assert(Seq::<Text>::empty().push(url) =~= seq![url]);
    assert(Seq::<Text>::empty().push(file) =~= seq![file]);
    if b.len() == 0 {
        assert(a + b =~= a);
        assert(image_refs(b) =~= Seq::<Text>::empty());
        assert(image_refs(a) + image_refs(b) =~= image_refs(a));
    } else {
        every_image_is_planned(a, b.drop_last(), seg, url, file);
        assert((a + b).drop_last() =~= a + b.drop_last());
        assert((a + b).last() == b.last());
        assert(image_refs(a + b) =~= image_refs(a) + image_refs(b));
    }
}

/// A message that was seen is quoted in what answers to it, by the name of the one who
/// wrote it and the beginning of its text; what was not seen is quoted by nothing.
pub proof fn an_answer_quotes_what_was_said(
    recent: Seq<(i64, (Text, Text))>,
    msg: GroupMessageV,
    other: i64,
)
    requires
        keys_differ(recent),
        recent.len() <= RECENT_CACHE_SIZE,
        msg.message_id >= 0,
    ensures
        ({
            let quoted = remembered_reply(
                remembered(recent, msg),
                Some(int_text(msg.message_id as int)),
            );
            &&& quoted.0 == msg.shown_name()
            &&& begins(msg.full_text(), quoted.1) || msg.full_text().len() == 0
            &&& msg.full_text().len() > 0 ==> quoted.1.len() == if msg.full_text().len() < 200 {
                msg.full_text().len()
            } else {
                200
            }
        }),
        remembered_reply(recent, None).0.len() == 0,
        remembered_reply(recent, None).1.len() == 0,
        pair_value(recent, other) is None ==> remembered_reply(
            recent,
            Some(int_text(other as int)),
        ).0.len() == 0,
{
    the_last_pair_stays(
        recent,
        msg.message_id,
        (msg.shown_name(), summary(msg)),
        RECENT_CACHE_SIZE as nat,
    );
    a_number_is_read_back(msg.message_id as int);
    a_number_is_read_back(other as int);
    a_prefix_is_a_beginning(msg.full_text(), 200);
}

/// A message without text is quoted by the word for an image where it has one, and by
/// nothing where it has none.
pub proof fn an_image_is_quoted_by_a_word(msg: GroupMessageV)
    requires
        msg.full_text().len() == 0,
    ensures
        of_kind(msg.segments, "image"@).len() > 0 ==> summary(msg) == "[图片]"@,
        of_kind(msg.segments, "image"@).len() == 0 ==> summary(msg).len() == 0,
{
}

/// An image is fetched from the address that the message gives or, where it gives only
/// a name, from the one that was found for it; from nothing that is no web address.
pub proof fn an_image_is_fetched_from_its_address(reference: Text, found: Text, resolved: Option<Text>)
    ensures
        begins(reference, "http"@) ==> image_url(reference, resolved) == Some(reference),
        !begins(reference, "http"@) && begins(found, "http"@) ==> image_url(reference, Some(found))
            == Some(found),
        !begins(reference, "http"@) ==> image_url(reference, None) is None,
        (image_url(reference, resolved) matches Some(u) ==> begins(u, "http"@) && (u == reference
            || resolved == Some(u))),
{
}

/// A download counts where the server answered well and the image is no larger than may
/// be sent, and only there.
pub proof fn a_download_is_refused_for_a_reason(status: u16, len: nat)
    ensures
        download_refused(status, len) is None <==> status == 200 && len <= 10485760,
        (download_refused(status, len) matches Some(why) ==> if status != 200 {
            has(why, decimal(status as nat))
        } else {
            has(why, decimal(len))
        }),
{
    let none = Seq::<char>::empty();
    let a = "下载图片失败 HTTP "@;
    let b = "图片超过 10MB（"@;
    let c = " 字节）"@;
    a_part_occurs(a, decimal(status as nat), none);
    assert(a + decimal(status as nat) + none =~= a + decimal(status as nat));
    a_part_occurs(b, decimal(len), c);
}

/// The images of messages have different names where the messages or their places in
/// the message differ.
pub proof fn images_are_named_apart(a: i64, i: nat, b: i64, k: nat)
    requires
        a >= 0,
        b >= 0,
    ensures
        image_name(a, i) == image_name(b, k) ==> a == b && i == k,
        begins(image_name(a, i), "qq-"@),
{
    reveal_strlit("-");
    assert("-"@ =~= seq!['-']);
    let x = decimal(a as nat) + seq!['-'] + (decimal(i) + ".png"@);
    let y = decimal(b as nat) + seq!['-'] + (decimal(k) + ".png"@);
    assert(image_name(a, i) =~= "qq-"@ + x);
    assert(image_name(b, k) =~= "qq-"@ + y);
    assert(("qq-"@ + x).subrange(0, "qq-"@.len() as int) =~= "qq-"@);
    if image_name(a, i) == image_name(b, k) {
        alike_behind_a_head("qq-"@, x, y);
        digits_hold_digits(a as nat, '-');
        digits_hold_digits(b as nat, '-');
        what_is_parted_alike_is_alike(
            decimal(a as nat),
            decimal(i) + ".png"@,
            decimal(b as nat),
            decimal(k) + ".png"@,
            '-',
        );
        alike_before_a_tail(decimal(i), decimal(k), ".png"@);
        different_numbers_differ(a as nat, b as nat);
        different_numbers_differ(i, k);
    }
}

/// A message that answers to another is posted as an answer to that one, whatever else
/// it holds; one that answers to none as no answer.
pub proof fn an_answer_is_posted_as_an_answer(
    msg: GroupMessageV,
    a: Seq<SegmentV>,
    seg: SegmentV,
    b: Seq<SegmentV>,
    id: i64,
    ids: Seq<i64>,
    reply: (Text, Text),
)
    requires
        msg.segments == a + seq![seg] + b,
        of_kind(a, "reply"@).len() == 0,
    ensures
        seg.kind == "reply"@ && seg.data.field("id"@) == Some(int_json(id)) && id != 0
            ==> forwarded_message(msg, plan_of(msg), ids, reply).reply_source_message_id
            == int_text(id as int),
        of_kind(msg.segments, "reply"@).len() == 0 ==> forwarded_message(
            msg,
            plan_of(msg),
            ids,
            reply,
        ).reply_source_message_id.len() == 0,
{
    a_message_answers_to_its_first_reply(a, seg, b);
}

/// The number of a post is what its reply gives under `id`.
pub proof fn a_post_has_the_number_of_its_reply(reply: JsonV, n: i64)
    ensures
        reply.field("id"@) == Some(int_json(n)) ==> message_number(reply) == Some(n),
        reply.field("id"@) is None ==> message_number(reply) is None,
{
    numbers_are_shown_in_digits(n, Seq::empty());
}

/// The forwarder hears everyone but the hub itself, and nobody where it is switched off.
pub proof fn the_hub_does_not_hear_itself(f: ChatroomForwarder, msg: GroupMessageV)
    ensures
        !f.enabled ==> !f.listens(msg),
        f.enabled && msg.user_id != f.self_id ==> f.listens(msg),
        f.self_id != 0 && msg.user_id == f.self_id ==> !f.listens(msg),
{
}

/// An image is shrunk where one of its sides is over the limit, and only there.
pub proof fn large_images_are_shrunk(width: nat, height: nat)
    ensures
        exceeds_frame(width, height) <==> width > 1920 || height > 1920,
        exceeds_frame(width, height) == exceeds_frame(height, width),
{
}

/// A message with a text or an image is forwarded where it is listened to and was not
/// forwarded before, with all of its text and its images; one that says nothing is not.
/// Once it was posted and the post has a number, it is not forwarded again.
pub proof fn a_message_is_forwarded_once(
    msg: GroupMessageV,
    state: StateV,
    reply: JsonV,
    number: i64,
)
    requires
        keys_differ(state.forwarded),
        state.forwarded.len() <= state.max,
        state.max >= 1,
        reply.field("id"@) == Some(int_json(number)),
    ensures
        (to_forward(true, msg, state.forwarded) matches Some(plan) ==> plan.content
            == msg.full_text() && plan.image_refs == image_refs(of_kind(msg.segments, "image"@))
            && plan.reply_to == reply_to(msg.segments) && pair_value(
            state.forwarded,
            int_text(msg.message_id as int),
        ) is None),
        msg.full_text().len() > 0 && pair_value(
            state.forwarded,
            int_text(msg.message_id as int),
        ) is None ==> to_forward(true, msg, state.forwarded) is Some,
        msg.full_text().len() == 0 && image_refs(of_kind(msg.segments, "image"@)).len() == 0
            ==> to_forward(true, msg, state.forwarded) is None,
        to_forward(false, msg, state.forwarded) is None,
        to_forward(
            true,
            msg,
            after_post(state, msg.message_id, Some(reply)).forwarded,
        ) is None,
{
    a_post_has_the_number_of_its_reply(reply, number);
    the_last_pair_stays(
        state.forwarded,
        int_text(msg.message_id as int),
        number,
        state.max,
    );
}

/// What is saved after a post is the number that the chatroom gave for the message, and
/// nothing else is changed; a post that failed changes nothing, so that the message can
/// be forwarded again.
pub proof fn a_post_is_saved_under_its_message(
    state: StateV,
    message_id: i64,
    reply: JsonV,
    number: i64,
)
    requires
        keys_differ(state.forwarded),
        state.forwarded.len() <= state.max,
        state.max >= 1,
        reply.field("id"@) == Some(int_json(number)),
    ensures
        ({
            let after = after_post(state, message_id, Some(reply));
            &&& pair_value(after.forwarded, int_text(message_id as int)) == Some(number)
            &&& after.last_read == state.last_read
            &&& after.token == state.token
            &&& after.max == state.max
        }),
        after_post(state, message_id, None) == state,
{
    a_post_has_the_number_of_its_reply(reply, number);
    the_last_pair_stays(state.forwarded, int_text(message_id as int), number, state.max);
}

/// An image is sent as it came, under a name of its own, unless a smaller one was made of
/// it; that one is sent as what it is.
pub proof fn an_image_is_sent_as_what_it_is(
    data: Seq<u8>,
    smaller: Seq<u8>,
    message_id: i64,
    index: nat,
)
    ensures
        image_sent(data, None, message_id, index).0 == data,
        image_sent(data, None, message_id, index).2 == "image/png"@,
        image_sent(data, None, message_id, index).1 == "qq-"@ + int_text(message_id as int) + "-"@
            + decimal(index) + ".png"@,
        image_sent(data, Some(smaller), message_id, index).0 == smaller,
        image_sent(data, Some(smaller), message_id, index).2 == "image/jpeg"@,
{
}

/// An image that is made smaller is made so of its own bytes: one whose sides are within
/// the limit keeps them, one over the limit is shrunk to it, and one that cannot be read
/// is not made smaller.
pub proof fn an_image_is_made_smaller_of_itself(data: Seq<u8>, w: nat, h: nat, b: nat, c: nat)
    ensures
        picture_form(data) == Some((w, h, b, c)) && w <= 1920 && h <= 1920 ==> compressed(data)
            == picture_jpeg(data, 75),
        picture_form(data) == Some((w, h, b, c)) && (w > 1920 || h > 1920) && can_shrink(
            w,
            h,
            b,
            c,
            1920,
        ) ==> compressed(data) == shrunk_jpeg(data, 1920, 75),
        picture_form(data) is None ==> compressed(data) is None,
{
}

} // verus!
