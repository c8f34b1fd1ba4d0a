//! OneBot v11 over a reverse WebSocket: group messages come in, actions go out,
//! and responses are matched to actions by their echo.

use crate::adapters::chatbridge::hex_value;
use crate::json::{
    a_member_is_found, array1, int_json, json_int, json_read, json_str, members, number_whole,
    numbers_are_shown_in_digits, object1, parse_json, real_whole, show_if_truthy, shown,
    shown_if_truthy, truthy, Json, JsonV, Number, NumberV,
};
use crate::text::{
    a_cut_is_at_the_first, a_number_is_read_back, a_part_occurs, all_digits, begins, bytes_of, cut,
    decimal, digits_have_the_value, has, i64_text, i64_value, int_text, is_digit, is_digits,
    is_white, join2, join3, joined_texts_come_apart, parse_i64, parse_u64, pieces, same, split,
    split_once, starts, texts, trim, trimmed, trimming_loses_no_word, u64_value, utf8_text,
    what_is_parted_alike_is_alike, what_is_trimmed_stays, Text,
};
use vstd::prelude::*;
use vstd::utf8::{decode_utf8, encode_utf8, valid_utf8};

verus! {

/// Seconds that an action may take.
pub const DEFAULT_CALL_TIMEOUT_SECS: u64 = 20;

/// Seconds between two pings on a connection.
pub const HEARTBEAT_SECS: u64 = 30;

/// Most bytes in one message.
pub const MAX_MESSAGE_SIZE: usize = 16777216;

/// One part of a message.
#[derive(Debug)]
pub struct Segment {
    pub kind: String,
    pub data: Json,
}

/// What a [`Segment`] holds.
pub struct SegmentV {
    pub kind: Text,
    pub data: JsonV,
}

impl View for Segment {
    type V = SegmentV;

    open spec fn view(&self) -> SegmentV {
        SegmentV { kind: self.kind@, data: self.data@ }
    }
}

/// What a list of segments holds.
pub open spec fn segments_v(v: Seq<Segment>) -> Seq<SegmentV> {
    Seq::new(v.len(), |i: int| v[i]@)
}

impl Segment {
    /// The text of a text segment.
    pub fn text(&self) -> (r: String)
        ensures
            r@ == shown_if_truthy(self.data@.field("text"@)),
    {
        show_if_truthy(self.data.get("text"))
    }

    /// The file of an image segment.
    pub fn file(&self) -> (r: String)
        ensures
            r@ == shown_if_truthy(self.data@.field("file"@)),
    {
        show_if_truthy(self.data.get("file"))
    }

    /// The address of an image segment.
    pub fn url(&self) -> (r: String)
        ensures
            r@ == shown_if_truthy(self.data@.field("url"@)),
    {
        show_if_truthy(self.data.get("url"))
    }

    /// The summary of a segment.
    pub fn summary(&self) -> (r: String)
        ensures
            r@ == shown_if_truthy(self.data@.field("summary"@)),
    {
        show_if_truthy(self.data.get("summary"))
    }

    /// The same segment again.
    pub fn copy(&self) -> (r: Segment)
        ensures
            r@ == self@,
    {
        Segment { kind: self.kind.clone(), data: self.data.copy() }
    }
}

/// A message in a group.
#[derive(Debug)]
pub struct GroupMessage {
    pub group_id: i64,
    pub user_id: i64,
    pub message_id: i64,
    pub nickname: String,
    pub card: String,
    pub segments: Vec<Segment>,
    pub raw: Json,
}

/// What a [`GroupMessage`] holds.
pub struct GroupMessageV {
    pub group_id: i64,
    pub user_id: i64,
    pub message_id: i64,
    pub nickname: Text,
    pub card: Text,
    pub segments: Seq<SegmentV>,
    pub raw: JsonV,
}

impl View for GroupMessage {
    type V = GroupMessageV;

    open spec fn view(&self) -> GroupMessageV {
        GroupMessageV {
            group_id: self.group_id,
            user_id: self.user_id,
            message_id: self.message_id,
            nickname: self.nickname@,
            card: self.card@,
            segments: segments_v(self.segments@),
            raw: self.raw@,
        }
    }
}

/// The texts of the text segments in a row.
pub open spec fn segments_text(s: Seq<SegmentV>) -> Text
    decreases s.len(),
{
    if s.len() == 0 {
        Seq::<char>::empty()
    } else {
        let before = segments_text(s.drop_last());
        if s.last().kind == "text"@ {
            before + shown_if_truthy(s.last().data.field("text"@))
        } else {
            before
        }
    }
}

/// The segments of one kind.
pub open spec fn of_kind(s: Seq<SegmentV>, kind: Text) -> Seq<SegmentV>
    decreases s.len(),
{
    if s.len() == 0 {
        Seq::<SegmentV>::empty()
    } else if s.last().kind == kind {
        of_kind(s.drop_last(), kind).push(s.last())
    } else {
        of_kind(s.drop_last(), kind)
    }
}

/// The user that an at segment names: a number that is not negative, or digits.
pub open spec fn at_user(data: JsonV) -> Option<i64> {
    match data.field("qq"@) {
        Some(JsonV::Num(n)) => match JsonV::Num(n).as_int() {
            Some(i) if i >= 0 => Some(i),
            _ => None,
        },
        Some(JsonV::Str(s)) => if all_digits(s) {
            i64_value(s)
        } else {
            None
        },
        _ => None,
    }
}

/// The users that the segments name.
pub open spec fn at_users(s: Seq<SegmentV>) -> Seq<i64>
    decreases s.len(),
{
    if s.len() == 0 {
        Seq::<i64>::empty()
    } else {
        let before = at_users(s.drop_last());
        if s.last().kind == "at"@ {
            match at_user(s.last().data) {
                Some(u) => before.push(u),
                None => before,
            }
        } else {
            before
        }
    }
}

/// The message that the segments answer: the number in the first reply segment,
/// where that counts as true.
pub open spec fn reply_to(s: Seq<SegmentV>) -> Option<Text> {
    let replies = of_kind(s, "reply"@);
    if replies.len() == 0 {
        None
    } else {
        match replies[0].data.field("id"@) {
            Some(id) => if truthy(id) {
                Some(shown(id))
            } else {
                None
            },
            None => None,
        }
    }
}

impl GroupMessageV {
    /// The name to show: the card, else the nickname, else the number.
    pub open spec fn shown_name(self) -> Text {
        if self.card.len() > 0 {
            self.card
        } else if self.nickname.len() > 0 {
            self.nickname
        } else {
            int_text(self.user_id as int)
        }
    }

    /// The text of the message.
    pub open spec fn full_text(self) -> Text {
        trimmed(segments_text(self.segments))
    }
}

impl GroupMessage {
    /// The name to show.
    pub fn display_name(&self) -> (r: String)
        ensures
            r@ == self@.shown_name(),
    {
        if !self.card.as_str().is_empty() {
            self.card.clone()
        } else if !self.nickname.as_str().is_empty() {
            self.nickname.clone()
        } else {
            i64_text(self.user_id)
        }
    }

    /// The text of the message.
    pub fn text(&self) -> (r: String)
        ensures
            r@ == self@.full_text(),
    {
        let mut out = String::new();
        let mut i: usize = 0;
        let ghost all = segments_v(self.segments@);
        assert(out@ =~= segments_text(all.take(0)));
        while i < self.segments.len()
            invariant
                i <= self.segments@.len(),
                all == segments_v(self.segments@),
                out@ == segments_text(all.take(i as int)),
            decreases self.segments@.len() - i,
        {
            assert(all.take(i + 1).drop_last() =~= all.take(i as int));
            assert(all.take(i + 1).last() == self.segments@[i as int]@);
            if same(self.segments[i].kind.as_str(), "text") {
                let t = self.segments[i].text();
                out.append(t.as_str());
            }
            i = i + 1;
        }
        assert(all.take(i as int) =~= all);
        trim(out.as_str())
    }

    /// The message that this one answers.
    pub fn reply_message_id(&self) -> (r: Option<String>)
        ensures
            match r {
                Some(s) => reply_to(self@.segments) == Some(s@),
                None => reply_to(self@.segments) is None,
            },
    {
        let replies = self.segments_of("reply");
        assert(segments_v(replies@).len() == replies@.len());
        if replies.len() == 0 {
            return None;
        }
        assert(segments_v(replies@)[0] == replies@[0]@);
        match replies[0].data.get("id") {
            Some(id) => if id.is_truthy() {
                Some(id.show())
            } else {
                None
            },
            None => None,
        }
    }

    /// The segments of one kind.
    fn segments_of(&self, kind: &str) -> (r: Vec<Segment>)
        ensures
            segments_v(r@) == of_kind(self@.segments, kind@),
    {
        let mut out: Vec<Segment> = Vec::new();
        let mut i: usize = 0;
        let ghost all = segments_v(self.segments@);
        assert(segments_v(out@) =~= of_kind(all.take(0), kind@));
        while i < self.segments.len()
            invariant
                i <= self.segments@.len(),
                all == segments_v(self.segments@),
                segments_v(out@) == of_kind(all.take(i as int), kind@),
            decreases self.segments@.len() - i,
        {
            assert(all.take(i + 1).drop_last() =~= all.take(i as int));
            assert(all.take(i + 1).last() == self.segments@[i as int]@);
            if same(self.segments[i].kind.as_str(), kind) {
                let s = self.segments[i].copy();
                assert(segments_v(out@.push(s)) =~= segments_v(out@).push(s@));
                out.push(s);
            }
            i = i + 1;
        }
        assert(all.take(i as int) =~= all);
        out
    }

    /// The image segments.
    pub fn images(&self) -> (r: Vec<Segment>)
        ensures
            segments_v(r@) == of_kind(self@.segments, "image"@),
    {
        self.segments_of("image")
    }

    /// The users that the message names.
    pub fn at_user_ids(&self) -> (r: Vec<i64>)
        ensures
            r@ == at_users(self@.segments),
    {
        let mut out: Vec<i64> = Vec::new();
        let mut i: usize = 0;
        let ghost all = segments_v(self.segments@);
        assert(out@ =~= at_users(all.take(0)));
        while i < self.segments.len()
            invariant
                i <= self.segments@.len(),
                all == segments_v(self.segments@),
                out@ == at_users(all.take(i as int)),
            decreases self.segments@.len() - i,
        {
            assert(all.take(i + 1).drop_last() =~= all.take(i as int));
            assert(all.take(i + 1).last() == self.segments@[i as int]@);
            if same(self.segments[i].kind.as_str(), "at") {
                match at_user_in(&self.segments[i].data) {
                    Some(u) => {
                        out.push(u);
                    },
                    None => {},
                }
            }
            i = i + 1;
        }
        assert(all.take(i as int) =~= all);
        out
    }

    /// A line that says which message this is.
    pub fn describe(&self) -> (r: String)
        ensures
            r@ == "群="@ + int_text(self.group_id as int) + " 用户="@ + self@.shown_name() + "("@
                + int_text(self.user_id as int) + ") 消息ID="@ + int_text(self.message_id as int),
    {
        let mut out = join3("群=", i64_text(self.group_id).as_str(), " 用户=");
        out.append(self.display_name().as_str());
        out.append("(");
        out.append(i64_text(self.user_id).as_str());
        out.append(") 消息ID=");
        out.append(i64_text(self.message_id).as_str());
        out
    }
}

/// The user that an at segment names.
fn at_user_in(data: &Json) -> (r: Option<i64>)
    ensures
        r == at_user(data@),
{
    match data.get("qq") {
        Some(j) => match j {
            Json::Num(_) => match j.as_i64() {
                Some(i) => if i >= 0 {
                    Some(i)
                } else {
                    None
                },
                None => None,
            },
            Json::Str(s) => if is_digits(s.as_str()) {
                parse_i64(s.as_str())
            } else {
                None
            },
            _ => None,
        },
        None => None,
    }
}

/// A number as an `i64`: one that is too large wraps round, one with a fraction is
/// cut.
pub open spec fn number_as_i64(n: NumberV) -> i64 {
    match n {
        NumberV::Pos(n) => if n <= i64::MAX {
            n as i64
        } else {
            (n - 0x1_0000_0000_0000_0000) as i64
        },
        NumberV::Neg(n) => n,
        NumberV::Real(t) => real_whole(t),
    }
}

/// A value as an integer: a number, or a text that writes one; anything else is 0.
pub open spec fn lenient_int(j: Option<JsonV>) -> i64 {
    match j {
        Some(JsonV::Num(n)) => number_as_i64(n),
        Some(JsonV::Str(s)) => match i64_value(trimmed(s)) {
            Some(i) => i,
            None => 0,
        },
        _ => 0,
    }
}

/// A value as an integer.
pub fn to_int(j: Option<&Json>) -> (r: i64)
    ensures
        r == lenient_int(crate::json::opt_view(j)),
{
    match j {
        Some(Json::Num(n)) => match n {
            Number::Pos(n) => if *n <= 0x7fff_ffff_ffff_ffff {
                *n as i64
            } else {
                (*n as i128 - 0x1_0000_0000_0000_0000) as i64
            },
            Number::Neg(n) => *n,
            Number::Real(t) => number_whole(t.as_str()),
        },
        Some(Json::Str(s)) => match parse_i64(trim(s.as_str()).as_str()) {
            Some(i) => i,
            None => 0,
        },
        _ => 0,
    }
}

/// The segment that an item of a message writes: an object with a type that counts
/// as true; data that is no object is an empty one.
pub open spec fn segment_in(item: JsonV) -> Option<SegmentV> {
    match item {
        JsonV::Object(_) => match item.field("type"@) {
            Some(t) => if truthy(t) {
                Some(
                    SegmentV {
                        kind: shown(t),
                        data: match item.field("data"@) {
                            Some(JsonV::Object(m)) => JsonV::Object(m),
                            _ => JsonV::Object(Seq::<(Text, JsonV)>::empty()),
                        },
                    },
                )
            } else {
                None
            },
            None => None,
        },
        _ => None,
    }
}

/// The segments that the items of a message write.
pub open spec fn segments_in(s: Seq<JsonV>) -> Seq<SegmentV>
    decreases s.len(),
{
    if s.len() == 0 {
        Seq::<SegmentV>::empty()
    } else {
        match segment_in(s.last()) {
            Some(x) => segments_in(s.drop_last()).push(x),
            None => segments_in(s.drop_last()),
        }
    }
}

/// The segments of a message: a text is one text segment unless it is empty, an
/// array is taken item by item, anything else has none.
pub open spec fn segments_of_message(message: JsonV) -> Seq<SegmentV> {
    match message {
        JsonV::Str(t) => if t.len() == 0 {
            Seq::<SegmentV>::empty()
        } else {
            seq![
                SegmentV { kind: "text"@, data: JsonV::Object(seq![("text"@, JsonV::Str(t))]) },
            ]
        },
        JsonV::Array(s) => segments_in(s),
        _ => Seq::<SegmentV>::empty(),
    }
}

/// The segment that an item of a message writes.
fn parse_segment(item: &Json) -> (r: Option<Segment>)
    ensures
        match r {
            Some(s) => segment_in(item@) == Some(s@),
            None => segment_in(item@) is None,
        },
{
    broadcast use crate::json::object_view;

    match item {
        Json::Object(_) => {},
        _ => {
            return None;
        },
    }
    let kind = match item.get("type") {
        Some(t) => if t.is_truthy() {
            t.show()
        } else {
            return None;
        },
        None => return None,
    };
    let data = match item.get("data") {
        Some(d) => match d {
            Json::Object(_) => d.copy(),
            _ => empty_object(),
        },
        None => empty_object(),
    };
    Some(Segment { kind, data })
}

/// An object without members.
fn empty_object() -> (r: Json)
    ensures
        r@ == JsonV::Object(Seq::<(Text, JsonV)>::empty()),
{
    broadcast use crate::json::object_view;

    let none: Vec<(String, Json)> = Vec::new();
    assert(members(none@) =~= Seq::<(Text, JsonV)>::empty());
    Json::Object(none)
}

/// The segments of a message.
pub fn parse_segments(message: &Json) -> (r: Vec<Segment>)
    ensures
        segments_v(r@) == segments_of_message(message@),
{
    let mut out: Vec<Segment> = Vec::new();
    if let Some(t) = message.as_str() {
        if !t.as_str().is_empty() {
            out.push(
                Segment { kind: "text".to_owned(), data: object1("text", json_str(t.as_str())) },
            );
        }
        assert(segments_v(out@) =~= segments_of_message(message@));
        return out;
    }
    if let Some(v) = message.as_array() {
        let mut i: usize = 0;
        let ghost all = crate::json::items(v@);
        assert(segments_v(out@) =~= segments_in(all.take(0)));
        while i < v.len()
            invariant
                i <= v@.len(),
                all == crate::json::items(v@),
                segments_v(out@) == segments_in(all.take(i as int)),
            decreases v@.len() - i,
        {
            assert(all.take(i + 1).drop_last() =~= all.take(i as int));
            assert(all.take(i + 1).last() == v@[i as int]@);
            match parse_segment(&v[i]) {
                Some(s) => {
                    assert(segments_v(out@.push(s)) =~= segments_v(out@).push(s@));
                    out.push(s);
                },
                None => {},
            }
            i = i + 1;
        }
        assert(all.take(i as int) =~= all);
        return out;
    }
    assert(segments_v(out@) =~= segments_of_message(message@));
    out
}

/// Whether a member is this text.
pub open spec fn member_is(j: JsonV, key: Text, value: Text) -> bool {
    j.field(key) == Some(JsonV::Str(value))
}

/// Whether a member is this text.
fn has_text(j: &Json, key: &str, value: &str) -> (r: bool)
    ensures
        r == member_is(j@, key@, value@),
{
    match j.get(key) {
        Some(Json::Str(s)) => same(s.as_str(), value),
        _ => false,
    }
}

/// A member of a member.
pub open spec fn inner(j: JsonV, outer: Text, key: Text) -> Option<JsonV> {
    match j.field(outer) {
        Some(o) => o.field(key),
        None => None,
    }
}

/// The group message that an event holds; nothing for any other event.
pub open spec fn group_message_in(raw: JsonV) -> Option<GroupMessageV> {
    if member_is(raw, "post_type"@, "message"@) && member_is(raw, "message_type"@, "group"@) {
        Some(
            GroupMessageV {
                group_id: lenient_int(raw.field("group_id"@)),
                user_id: lenient_int(raw.field("user_id"@)),
                message_id: lenient_int(raw.field("message_id"@)),
                nickname: shown_if_truthy(inner(raw, "sender"@, "nickname"@)),
                card: shown_if_truthy(inner(raw, "sender"@, "card"@)),
                segments: match raw.field("message"@) {
                    Some(m) => segments_of_message(m),
                    None => Seq::<SegmentV>::empty(),
                },
                raw,
            },
        )
    } else {
        None
    }
}

/// The group message that an event holds.
pub fn parse_group_message(raw: &Json) -> (r: Option<GroupMessage>)
    ensures
        match r {
            Some(m) => group_message_in(raw@) == Some(m@),
            None => group_message_in(raw@) is None,
        },
{
    if !has_text(raw, "post_type", "message") || !has_text(raw, "message_type", "group") {
        return None;
    }
    let (nickname, card) = match raw.get("sender") {
        Some(s) => (show_if_truthy(s.get("nickname")), show_if_truthy(s.get("card"))),
        None => (String::new(), String::new()),
    };
    let segments = match raw.get("message") {
        Some(m) => parse_segments(m),
        None => Vec::new(),
    };
    let m = GroupMessage {
        group_id: to_int(raw.get("group_id")),
        user_id: to_int(raw.get("user_id")),
        message_id: to_int(raw.get("message_id")),
        nickname,
        card,
        segments,
        raw: raw.copy(),
    };
    proof {
        let v = group_message_in(raw@)->0;
        assert(m@.segments =~= v.segments);
        assert(m@.nickname =~= v.nickname);
        assert(m@.card =~= v.card);
    }
    Some(m)
}

/// Why an action failed.
#[derive(Debug)]
pub enum OneBotError {
    /// The connection is closed.
    Closed,
    /// There was no response within this many seconds.
    Timeout(u64),
    /// The client refused.
    Failed { retcode: i64, detail: String },
}

impl OneBotError {
    /// The message of the error.
    pub fn message(&self) -> (r: String)
        ensures
            r@ == match self {
                OneBotError::Closed => "OneBot 连接已关闭"@,
                OneBotError::Timeout(s) => "OneBot 动作超时（"@ + crate::text::decimal(*s as nat)
                    + "s）"@,
                OneBotError::Failed { retcode, detail } => "OneBot 动作失败 retcode="@ + int_text(
                    *retcode as int,
                ) + " "@ + detail@,
            },
    {
        match self {
            OneBotError::Closed => "OneBot 连接已关闭".to_owned(),
            OneBotError::Timeout(s) => join3(
                "OneBot 动作超时（",
                crate::text::u64_text(*s).as_str(),
                "s）",
            ),
            OneBotError::Failed { retcode, detail } => {
                let head = join3("OneBot 动作失败 retcode=", i64_text(*retcode).as_str(), " ");
                join2(head.as_str(), detail.as_str())
            },
        }
    }
}

/// What a response says.
pub enum ResponseV {
    Data(JsonV),
    Failed(i64, Text),
}

/// The echo of a response: a number, or a text that writes one.
pub open spec fn echo_of(payload: JsonV) -> Option<u64> {
    match payload.field("echo"@) {
        Some(JsonV::Num(n)) => JsonV::Num(n).as_nat(),
        Some(JsonV::Str(s)) => u64_value(trimmed(s)),
        _ => None,
    }
}

/// What a response says: its data where the status is `ok` or the code is 0, else
/// the code and the first of `message` and `wording` that is there.
pub open spec fn response_of(payload: JsonV) -> ResponseV {
    let code = match payload.field("retcode"@) {
        Some(j) => j.as_int(),
        None => None,
    };
    if member_is(payload, "status"@, "ok"@) || code == Some(0i64) {
        ResponseV::Data(
            match payload.field("data"@) {
                Some(d) => d,
                None => JsonV::Null,
            },
        )
    } else {
        let message = shown_if_truthy(payload.field("message"@));
        let wording = shown_if_truthy(payload.field("wording"@));
        ResponseV::Failed(
            match code {
                Some(c) => c,
                None => 0,
            },
            if message.len() > 0 {
                message
            } else {
                wording
            },
        )
    }
}

/// What a response says.
pub open spec fn result_v(r: Result<Json, OneBotError>) -> Option<ResponseV> {
    match r {
        Ok(j) => Some(ResponseV::Data(j@)),
        Err(OneBotError::Failed { retcode, detail }) => Some(ResponseV::Failed(retcode, detail@)),
        Err(_) => None,
    }
}

/// The echo of a response.
fn read_echo(payload: &Json) -> (r: Option<u64>)
    ensures
        r == echo_of(payload@),
{
    match payload.get("echo") {
        Some(j) => match j {
            Json::Num(_) => j.as_u64(),
            Json::Str(s) => parse_u64(trim(s.as_str()).as_str()),
            _ => None,
        },
        None => None,
    }
}

/// What a response says.
pub fn read_response(payload: &Json) -> (r: Result<Json, OneBotError>)
    ensures
        result_v(r) == Some(response_of(payload@)),
{
    let code = match payload.get("retcode") {
        Some(j) => j.as_i64(),
        None => None,
    };
    if has_text(payload, "status", "ok") || code == Some(0i64) {
        return match payload.get("data") {
            Some(d) => Ok(d.copy()),
            None => Ok(Json::Null),
        };
    }
    let message = show_if_truthy(payload.get("message"));
    let detail = if message.as_str().is_empty() {
        show_if_truthy(payload.get("wording"))
    } else {
        message
    };
    let retcode: i64 = match code {
        Some(c) => c,
        None => 0,
    };
    Err(OneBotError::Failed { retcode, detail })
}

/// An action to send, and the echo that its response will carry.
#[derive(Debug)]
pub struct Call {
    pub echo: u64,
    pub payload: Json,
}

/// The JSON of an action.
pub open spec fn action_json(action: Text, params: JsonV, echo: u64) -> JsonV {
    JsonV::Object(
        seq![
            ("action"@, JsonV::Str(action)),
            ("params"@, params),
            ("echo"@, JsonV::Num(NumberV::Pos(echo))),
        ],
    )
}

/// The parameters that send a message to a group.
pub open spec fn group_params(group_id: i64, message: JsonV) -> JsonV {
    JsonV::Object(seq![("group_id"@, int_json(group_id)), ("message"@, message)])
}

/// A message of one segment with one member.
pub open spec fn one_segment(kind: Text, key: Text, value: Text) -> JsonV {
    JsonV::Array(
        seq![
            JsonV::Object(
                seq![
                    ("type"@, JsonV::Str(kind)),
                    ("data"@, JsonV::Object(seq![(key, JsonV::Str(value))])),
                ],
            ),
        ],
    )
}

/// A message of one segment with one member.
fn build_segment(kind: &str, key: &str, value: &str) -> (r: Json)
    ensures
        r@ == one_segment(kind@, key@, value@),
{
    broadcast use crate::json::object_view;

    let m: Vec<(String, Json)> = vec![
        ("type".to_owned(), json_str(kind)),
        ("data".to_owned(), object1(key, json_str(value))),
    ];
    assert(members(m@) =~= seq![
        ("type"@, JsonV::Str(kind@)),
        ("data"@, JsonV::Object(seq![(key@, JsonV::Str(value@))])),
    ]);
    array1(Json::Object(m))
}

/// A connection: how many actions went out, which of them wait for a response, and
/// whose account it is.
#[derive(Debug)]
pub struct OneBotConnection {
    pub calls: u64,
    pub account: i64,
    pub closed: bool,
    pub pending: Vec<u64>,
}

impl OneBotConnection {
    /// The echoes that wait for a response.
    pub open spec fn waiting(&self) -> Set<u64> {
        self.pending@.to_set()
    }

    /// No echo waits twice, and each belongs to an action that went out.
    pub open spec fn wf(&self) -> bool {
        &&& self.pending@.no_duplicates()
        &&& forall|i: int| 0 <= i < self.pending@.len() ==> #[trigger] self.pending@[i] <= self.calls
    }

    /// A fresh connection.
    pub fn new() -> (r: Self)
        ensures
            r.wf(),
            r.calls == 0,
            r.account == 0,
            !r.closed,
            r.waiting() == Set::<u64>::empty(),
    {
        let r = OneBotConnection { calls: 0, account: 0, closed: false, pending: Vec::new() };
        assert(r.waiting() =~= Set::<u64>::empty());
        r
    }

    /// The account of the client.
    pub fn self_id(&self) -> (r: i64)
        ensures
            r == self.account,
    {
        self.account
    }

    /// Whether the connection is open.
    pub fn connected(&self) -> (r: bool)
        ensures
            r == !self.closed,
    {
        !self.closed
    }

    /// Starts an action: its echo is the next number. A closed connection refuses.
    pub fn call(&mut self, action: &str, params: Json) -> (r: Result<Call, OneBotError>)
        requires
            old(self).wf(),
            old(self).calls < u64::MAX,
        ensures
            final(self).wf(),
            final(self).account == old(self).account,
            final(self).closed == old(self).closed,
            if old(self).closed {
                &&& r == Err::<Call, OneBotError>(OneBotError::Closed)
                &&& *final(self) == *old(self)
            } else {
                &&& r matches Ok(c) && c.echo == old(self).calls + 1 && c.payload@ == action_json(
                    action@,
                    params@,
                    c.echo,
                )
                &&& final(self).calls == old(self).calls + 1
                &&& final(self).waiting() == old(self).waiting().insert(final(self).calls)
            },
    {
        broadcast use crate::json::object_view;

        if self.closed {
            return Err(OneBotError::Closed);
        }
        let echo: u64 = self.calls + 1;
        self.calls = echo;
        let ghost before = self.pending@;
        self.pending.push(echo);
        proof {
            assert(self.pending@.to_set() =~= before.to_set().insert(echo)) by {
                assert forall|x: u64| self.pending@.to_set().contains(x)
                    == before.to_set().insert(echo).contains(x) by {
                    if before.contains(x) {
                        let i = choose|i: int| 0 <= i < before.len() && before[i] == x;
                        assert(self.pending@[i] == x);
                    }
                    if x == echo {
                        assert(self.pending@[before.len() as int] == x);
                    }
                }
            }
        }
        let m: Vec<(String, Json)> = vec![
            ("action".to_owned(), json_str(action)),
            ("params".to_owned(), params),
            ("echo".to_owned(), Json::Num(Number::Pos(echo))),
        ];
        assert(members(m@) =~= action_json(action@, params@, echo)->Object_0);
        Ok(Call { echo, payload: Json::Object(m) })
    }

    /// Stops to wait for an echo; gives whether it was waited for.
    pub fn forget(&mut self, echo: u64) -> (r: bool)
        requires
            old(self).wf(),
        ensures
            final(self).wf(),
            r == old(self).waiting().contains(echo),
            final(self).waiting() == old(self).waiting().remove(echo),
            final(self).calls == old(self).calls,
            final(self).account == old(self).account,
            final(self).closed == old(self).closed,
    {
        let ghost before = self.pending@;
        let mut i: usize = 0;
        while i < self.pending.len()
            invariant
                i <= self.pending@.len(),
                *self == *old(self),
                before == self.pending@,
                old(self).wf(),
                forall|j: int| 0 <= j < i ==> self.pending@[j] != echo,
            decreases self.pending@.len() - i,
        {
            if self.pending[i] == echo {
                self.pending.remove(i);
                proof {
                    let after = self.pending@;
                    assert(after =~= before.remove(i as int));
                    assert forall|j: int| 0 <= j < after.len() implies #[trigger] after[j]
                        <= self.calls by {
                        if j < i {
                            assert(after[j] == before[j]);
                        } else {
                            assert(after[j] == before[j + 1]);
                        }
                    }
                    assert(after.no_duplicates()) by {
                        assert forall|a: int, b: int|
                            0 <= a < after.len() && 0 <= b < after.len() && a != b implies after[a]
                            != after[b] by {
                            let x = if a < i {
                                a
                            } else {
                                a + 1
                            };
                            let y = if b < i {
                                b
                            } else {
                                b + 1
                            };
                            assert(after[a] == before[x] && after[b] == before[y]);
                        }
                    }
                    assert(before.contains(echo));
                    assert(after.to_set() =~= before.to_set().remove(echo)) by {
                        assert forall|x: u64| after.to_set().contains(x)
                            == before.to_set().remove(echo).contains(x) by {
                            if after.contains(x) {
                                let k = choose|k: int| 0 <= k < after.len() && after[k] == x;
                                let m = if k < i {
                                    k
                                } else {
                                    k + 1
                                };
                                assert(before[m] == x);
                                assert(m != i);
                            }
                            if before.contains(x) && x != echo {
                                let k = choose|k: int| 0 <= k < before.len() && before[k] == x;
                                let m = if k < i {
                                    k
                                } else {
                                    k - 1
                                };
                                assert(after[m] == x);
                            }
                        }
                    }
                }
                return true;
            }
            i = i + 1;
        }
        proof {
            assert(!before.contains(echo));
            assert(before.to_set() =~= before.to_set().remove(echo));
        }
        false
    }

    /// Takes a response: gives the echo of the action that waited for it and what
    /// it says, or nothing where no action did.
    pub fn feed(&mut self, payload: &Json) -> (r: Option<(u64, Result<Json, OneBotError>)>)
        requires
            old(self).wf(),
        ensures
            final(self).wf(),
            final(self).calls == old(self).calls,
            final(self).account == old(self).account,
            final(self).closed == old(self).closed,
            match echo_of(payload@) {
                Some(e) if old(self).waiting().contains(e) => {
                    &&& r is Some
                    &&& (r->0).0 == e
                    &&& result_v((r->0).1) == Some(response_of(payload@))
                    &&& final(self).waiting() == old(self).waiting().remove(e)
                },
                _ => r is None && final(self).waiting() == old(self).waiting(),
            },
    {
        let echo = match read_echo(payload) {
            Some(e) => e,
            None => return None,
        };
        if self.forget(echo) {
            Some((echo, read_response(payload)))
        } else {
            proof {
                assert(old(self).waiting() =~= old(self).waiting().remove(echo));
            }
            None
        }
    }

    /// Closes the connection; every action that still waits has failed.
    pub fn close(&mut self) -> (r: Vec<u64>)
        requires
            old(self).wf(),
        ensures
            final(self).wf(),
            final(self).closed,
            final(self).calls == old(self).calls,
            final(self).account == old(self).account,
            final(self).waiting() == Set::<u64>::empty(),
            r@.to_set() == old(self).waiting(),
    {
        self.closed = true;
        let mut dropped: Vec<u64> = Vec::new();
        let mut i: usize = 0;
        while i < self.pending.len()
            invariant
                i <= self.pending@.len(),
                self.pending@ == old(self).pending@,
                self.closed,
                self.calls == old(self).calls,
                self.account == old(self).account,
                dropped@ == self.pending@.take(i as int),
            decreases self.pending@.len() - i,
        {
            dropped.push(self.pending[i]);
            assert(self.pending@.take(i + 1) =~= self.pending@.take(i as int).push(
                self.pending@[i as int],
            ));
            i = i + 1;
        }
        assert(self.pending@.take(i as int) =~= self.pending@);
        self.pending = Vec::new();
        assert(self.waiting() =~= Set::<u64>::empty());
        dropped
    }

    /// Starts to send a message to a group.
    pub fn send_group_msg(&mut self, group_id: i64, message: Json) -> (r: Result<Call, OneBotError>)
        requires
            old(self).wf(),
            old(self).calls < u64::MAX,
        ensures
            final(self).wf(),
            final(self).closed == old(self).closed,
            final(self).account == old(self).account,
            old(self).closed ==> r == Err::<Call, OneBotError>(OneBotError::Closed) && *final(self)
                == *old(self),
            !old(self).closed ==> r is Ok && r->Ok_0.echo == old(self).calls + 1
                && r->Ok_0.payload@ == action_json(
                "send_group_msg"@,
                group_params(group_id, message@),
                r->Ok_0.echo,
            ) && final(self).calls == old(self).calls + 1 && final(self).waiting() == old(
                self,
            ).waiting().insert(final(self).calls),
    {
        broadcast use crate::json::object_view;

        let m: Vec<(String, Json)> = vec![
            ("group_id".to_owned(), json_int(group_id)),
            ("message".to_owned(), message),
        ];
        assert(members(m@) =~= group_params(group_id, message@)->Object_0);
        self.call("send_group_msg", Json::Object(m))
    }

    /// Starts to send a text to a group.
    pub fn send_group_text(&mut self, group_id: i64, text: &str) -> (r: Result<Call, OneBotError>)
        requires
            old(self).wf(),
            old(self).calls < u64::MAX,
        ensures
            final(self).wf(),
            final(self).closed == old(self).closed,
            final(self).account == old(self).account,
            old(self).closed ==> r == Err::<Call, OneBotError>(OneBotError::Closed) && *final(self)
                == *old(self),
            !old(self).closed ==> r is Ok && r->Ok_0.echo == old(self).calls + 1
                && r->Ok_0.payload@ == action_json(
                "send_group_msg"@,
                group_params(group_id, one_segment("text"@, "text"@, text@)),
                r->Ok_0.echo,
            ) && final(self).calls == old(self).calls + 1 && final(self).waiting() == old(
                self,
            ).waiting().insert(final(self).calls),
            r matches Ok(c) ==> c.payload@ == text_call(group_id, text@, c.echo),
    {
        self.send_group_msg(group_id, build_segment("text", "text", text))
    }

    /// Starts to send an image to a group; `file_ref` says where it is, or holds it.
    pub fn send_group_image(&mut self, group_id: i64, file_ref: &str) -> (r: Result<
        Call,
        OneBotError,
    >)
        requires
            old(self).wf(),
            old(self).calls < u64::MAX,
        ensures
            final(self).wf(),
            final(self).closed == old(self).closed,
            final(self).account == old(self).account,
            old(self).closed ==> r == Err::<Call, OneBotError>(OneBotError::Closed) && *final(self)
                == *old(self),
            !old(self).closed ==> r is Ok && r->Ok_0.echo == old(self).calls + 1
                && r->Ok_0.payload@ == action_json(
                "send_group_msg"@,
                group_params(group_id, one_segment("image"@, "file"@, file_ref@)),
                r->Ok_0.echo,
            ) && final(self).calls == old(self).calls + 1 && final(self).waiting() == old(
                self,
            ).waiting().insert(final(self).calls),
            r matches Ok(c) ==> c.payload@ == image_call(group_id, file_ref@, c.echo),
    {
        self.send_group_msg(group_id, build_segment("image", "file", file_ref))
    }

    /// Starts to ask where an image is.
    pub fn get_image(&mut self, file: &str) -> (r: Result<Call, OneBotError>)
        requires
            old(self).wf(),
            old(self).calls < u64::MAX,
        ensures
            final(self).wf(),
            final(self).closed == old(self).closed,
            final(self).account == old(self).account,
            old(self).closed ==> r == Err::<Call, OneBotError>(OneBotError::Closed) && *final(self)
                == *old(self),
            !old(self).closed ==> r is Ok && r->Ok_0.echo == old(self).calls + 1
                && r->Ok_0.payload@ == action_json(
                "get_image"@,
                JsonV::Object(seq![("file"@, JsonV::Str(file@))]),
                r->Ok_0.echo,
            ) && final(self).calls == old(self).calls + 1 && final(self).waiting() == old(
                self,
            ).waiting().insert(final(self).calls),
    {
        self.call("get_image", object1("file", json_str(file)))
    }
}

/// What a text that came in means.
#[derive(Debug)]
pub enum Incoming {
    /// Nothing.
    Ignored,
    /// A response to the action with this echo.
    Response(u64, Result<Json, OneBotError>),
    /// A group message.
    Group(GroupMessage),
}

/// Counts of what a server has seen.
#[derive(Debug, Clone, Copy, PartialEq, Eq, Structural)]
pub struct ServerStats {
    pub connections: u64,
    pub group_messages: u64,
}

/// A server for OneBot clients: where it listens, which token it asks for, what it
/// has counted, and the number of the connection in use.
#[derive(Debug)]
pub struct OneBotServer {
    pub host: String,
    pub port: u16,
    pub path: String,
    pub access_token: String,
    pub counts: ServerStats,
    pub slot: Option<u64>,
}

/// What an event that is no response does to the connection and the counts.
pub open spec fn is_lifecycle(payload: JsonV) -> bool {
    member_is(payload, "post_type"@, "meta_event"@) && member_is(
        payload,
        "meta_event_type"@,
        "lifecycle"@,
    )
}

/// The group message that an event brings, which is none for a meta event.
pub open spec fn group_event(payload: JsonV) -> Option<GroupMessageV> {
    if member_is(payload, "post_type"@, "meta_event"@) {
        None
    } else {
        group_message_in(payload)
    }
}

/// What a text that came in turns out to be.
pub enum IncomingV {
    Ignored,
    Response(u64, ResponseV),
    Group(GroupMessageV),
}

/// What a text is: the response to a call that waits for it, or else a group message, or
/// else nothing.
pub open spec fn incoming(text: Text, waiting: Set<u64>) -> IncomingV {
    match json_read(encode_utf8(text)) {
        Ok(payload) => if !is_object(payload) {
            IncomingV::Ignored
        } else if echo_of(payload) is Some && waiting.contains(echo_of(payload)->0) {
            IncomingV::Response(echo_of(payload)->0, response_of(payload))
        } else {
            match group_event(payload) {
                Some(m) => IncomingV::Group(m),
                None => IncomingV::Ignored,
            }
        },
        Err(_) => IncomingV::Ignored,
    }
}

/// The call that says a text in a group.
pub open spec fn text_call(group_id: i64, text: Text, echo: u64) -> JsonV {
    action_json(
        "send_group_msg"@,
        group_params(group_id, one_segment("text"@, "text"@, text)),
        echo,
    )
}

/// The call that shows an image in a group.
pub open spec fn image_call(group_id: i64, file: Text, echo: u64) -> JsonV {
    action_json(
        "send_group_msg"@,
        group_params(group_id, one_segment("image"@, "file"@, file)),
        echo,
    )
}

/// Whether a value is an object.
pub open spec fn is_object(j: JsonV) -> bool {
    j is Object
}

/// The connection in use after another one, or itself, was closed.
pub open spec fn slot_after_close(slot: Option<u64>, number: u64) -> Option<u64> {
    if slot == Some(number) {
        None
    } else {
        slot
    }
}

impl OneBotServer {
    /// A server that nobody is connected to; the path begins with a slash.
    pub fn new(host: &str, port: u16, path: &str, access_token: &str) -> (r: Self)
        ensures
            r.host@ == host@,
            r.port == port,
            r.path@ == if begins(path@, "/"@) {
                path@
            } else {
                "/"@ + path@
            },
            r.access_token@ == access_token@,
            r.counts == (ServerStats { connections: 0, group_messages: 0 }),
            r.slot is None,
    {
        let path = if starts(path, "/") {
            path.to_owned()
        } else {
            join2("/", path)
        };
        OneBotServer {
            host: host.to_owned(),
            port,
            path,
            access_token: access_token.to_owned(),
            counts: ServerStats { connections: 0, group_messages: 0 },
            slot: None,
        }
    }

    /// What the server has counted.
    pub fn stats(&self) -> (r: ServerStats)
        ensures
            r == self.counts,
    {
        self.counts
    }

    /// The number of the connection in use.
    pub fn connection(&self) -> (r: Option<u64>)
        ensures
            r == self.slot,
    {
        self.slot
    }

    /// Takes a new connection into use and gives its number.
    pub fn opened(&mut self) -> (r: u64)
        requires
            old(self).counts.connections < u64::MAX,
        ensures
            r == old(self).counts.connections + 1,
            *final(self) == (OneBotServer {
                counts: ServerStats { connections: r, ..old(self).counts },
                slot: Some(r),
                ..*old(self)
            }),
    {
        let n: u64 = self.counts.connections + 1;
        self.counts = ServerStats { connections: n, group_messages: self.counts.group_messages };
        self.slot = Some(n);
        n
    }

    /// Drops a connection; another one that came into use since then stays.
    pub fn closed(&mut self, number: u64)
        ensures
            *final(self) == (OneBotServer {
                slot: slot_after_close(old(self).slot, number),
                ..*old(self)
            }),
    {
        if self.slot == Some(number) {
            self.slot = None;
        }
    }

    /// Takes a text from a connection: a response goes to its action, a lifecycle
    /// event tells the account, a group message is counted and handed on, and
    /// anything else is ignored.
    pub fn handle_text(&mut self, conn: &mut OneBotConnection, text: &str) -> (r: Incoming)
        requires
            old(conn).wf(),
            old(self).counts.group_messages < u64::MAX,
        ensures
            final(conn).wf(),
            final(conn).calls == old(conn).calls,
            final(conn).closed == old(conn).closed,
            *final(self) == (OneBotServer { counts: final(self).counts, ..*old(self) }),
            final(self).counts.connections == old(self).counts.connections,
            match json_read(encode_utf8(text@)) {
                Ok(payload) if is_object(payload) => match echo_of(payload) {
                    Some(e) if old(conn).waiting().contains(e) => {
                        &&& r is Response
                        &&& r->Response_0 == e
                        &&& result_v(r->Response_1) == Some(response_of(payload))
                        &&& final(conn).waiting() == old(conn).waiting().remove(e)
                        &&& final(conn).account == old(conn).account
                        &&& final(self).counts == old(self).counts
                    },
                    _ => {
                        &&& final(conn).waiting() == old(conn).waiting()
                        &&& final(conn).account == if is_lifecycle(payload) {
                            lenient_int(payload.field("self_id"@))
                        } else {
                            old(conn).account
                        }
                        &&& match group_event(payload) {
                            Some(m) => r is Group && r->Group_0@ == m
                                && final(self).counts.group_messages
                                == old(self).counts.group_messages + 1,
                            None => r is Ignored && final(self).counts == old(self).counts,
                        }
                    },
                },
                _ => r is Ignored && *final(conn) == *old(conn) && final(self).counts == old(
                    self,
                ).counts,
            },
            match r {
                Incoming::Ignored => incoming(text@, old(conn).waiting()) is Ignored,
                Incoming::Response(e, answer) => Some(incoming(text@, old(conn).waiting()))
                    == match result_v(answer) {
                    Some(v) => Some(IncomingV::Response(e, v)),
                    None => None,
                },
                Incoming::Group(m) => incoming(text@, old(conn).waiting()) == IncomingV::Group(m@),
            },
    {
        let payload = match parse_json(bytes_of(text).as_slice()) {
            Ok(j) => j,
            Err(_) => return Incoming::Ignored,
        };
        match payload {
            Json::Object(_) => {},
            _ => {
                return Incoming::Ignored;
            },
        }
        match conn.feed(&payload) {
            Some(p) => {
                return Incoming::Response(p.0, p.1);
            },
            None => {},
        }
        if has_text(&payload, "post_type", "meta_event") {
            if has_text(&payload, "meta_event_type", "lifecycle") {
                conn.account = to_int(payload.get("self_id"));
            }
            return Incoming::Ignored;
        }
        match parse_group_message(&payload) {
            Some(m) => {
                let n: u64 = self.counts.group_messages + 1;
                self.counts = ServerStats {
                    connections: self.counts.connections,
                    group_messages: n,
                };
                Incoming::Group(m)
            },
            None => Incoming::Ignored,
        }
    }

    /// What the server says of its health.
    pub fn healthz(&self, account: i64) -> (r: Json)
        ensures
            r@ == health_json(self.slot is Some, account, self.counts),
    {
        broadcast use crate::json::object_view;

        let stats: Vec<(String, Json)> = vec![
            ("connections".to_owned(), Json::Num(Number::Pos(self.counts.connections))),
            ("group_messages".to_owned(), Json::Num(Number::Pos(self.counts.group_messages))),
        ];
        let account: i64 = if self.slot.is_some() {
            account
        } else {
            0
        };
        let m: Vec<(String, Json)> = vec![
            ("status".to_owned(), json_str("ok")),
            ("onebot_connected".to_owned(), Json::Bool(self.slot.is_some())),
            ("self_id".to_owned(), json_int(account)),
            ("stats".to_owned(), Json::Object(stats)),
        ];
        proof {
            assert(members(stats@) =~= seq![
                ("connections"@, JsonV::Num(NumberV::Pos(self.counts.connections))),
                ("group_messages"@, JsonV::Num(NumberV::Pos(self.counts.group_messages))),
            ]);
            assert(members(m@) =~= seq![
                ("status"@, JsonV::Str("ok"@)),
                ("onebot_connected"@, JsonV::Bool(self.slot is Some)),
                ("self_id"@, int_json(account)),
                ("stats"@, JsonV::Object(members(stats@))),
            ]);
        }
        Json::Object(m)
    }
}

/// What a server says of its health.
pub open spec fn health_json(connected: bool, account: i64, counts: ServerStats) -> JsonV {
    JsonV::Object(
        seq![
            ("status"@, JsonV::Str("ok"@)),
            ("onebot_connected"@, JsonV::Bool(connected)),
            (
                "self_id"@,
                int_json(
                    if connected {
                        account
                    } else {
                        0
                    },
                ),
            ),
            (
                "stats"@,
                JsonV::Object(
                    seq![
                        ("connections"@, JsonV::Num(NumberV::Pos(counts.connections))),
                        ("group_messages"@, JsonV::Num(NumberV::Pos(counts.group_messages))),
                    ],
                ),
            ),
        ],
    )
}

/// Bytes with their escapes taken out: `%` and two hex digits are one byte, and `+`
/// is a space.
pub open spec fn unescaped(b: Seq<u8>) -> Seq<u8>
    decreases b.len(),
{
    if b.len() == 0 {
        Seq::<u8>::empty()
    } else if b[0] == 37 && b.len() > 2 && hex_value(b[1]) is Some && hex_value(b[2]) is Some {
        seq![(hex_value(b[1])->0 * 16 + hex_value(b[2])->0) as u8] + unescaped(
            b.subrange(3, b.len() as int),
        )
    } else {
        seq![
            if b[0] == 43 {
                32u8
            } else {
                b[0]
            },
        ] + unescaped(b.subrange(1, b.len() as int))
    }
}

/// A part of a query, decoded; one that does not decode to UTF-8 stays as it is.
pub open spec fn component(text: Text) -> Text {
    let b = unescaped(encode_utf8(text));
    if valid_utf8(b) {
        decode_utf8(b)
    } else {
        text
    }
}

/// The value of a hex digit.
fn hex_digit_value(c: u8) -> (r: Option<u8>)
    ensures
        r == hex_value(c),
        r matches Some(d) ==> d < 16,
{
    if 48 <= c && c <= 57 {
        Some((c - 48) as u8)
    } else if 97 <= c && c <= 102 {
        Some((c - 87) as u8)
    } else if 65 <= c && c <= 70 {
        Some((c - 55) as u8)
    } else {
        None
    }
}

/// Decodes a part of a query.
pub fn decode_component(text: &str) -> (r: String)
    ensures
        r@ == component(text@),
{
    let b = bytes_of(text);
    let mut out: Vec<u8> = Vec::new();
    let mut i: usize = 0;
    proof {
        assert(b@.subrange(0, b@.len() as int) =~= b@);
        assert(out@ + unescaped(b@) =~= unescaped(b@));
    }
    while i < b.len()
        invariant
            i <= b@.len(),
            out@ + unescaped(b@.subrange(i as int, b@.len() as int)) == unescaped(b@),
        decreases b@.len() - i,
    {
        let ghost rest = b@.subrange(i as int, b@.len() as int);
        let ghost before = out@;
        assert(rest[0] == b@[i as int]);
        let mut step: usize = 1;
        let mut byte: u8 = if b[i] == 43 {
            32
        } else {
            b[i]
        };
        if b[i] == 37 && b.len() - i > 2 {
            assert(rest[1] == b@[i + 1]);
            assert(rest[2] == b@[i + 2]);
            if let Some(high) = hex_digit_value(b[i + 1]) {
                if let Some(low) = hex_digit_value(b[i + 2]) {
                    byte = high * 16 + low;
                    step = 3;
                }
            }
        }
        out.push(byte);
        proof {
            let next = rest.subrange(step as int, rest.len() as int);
            assert(next =~= b@.subrange(i + step, b@.len() as int));
            assert(unescaped(rest) == seq![byte] + unescaped(next));
            assert(before + (seq![byte] + unescaped(next)) =~= out@ + unescaped(next));
        }
        i = i + step;
    }
    proof {
        assert(b@.subrange(i as int, b@.len() as int) =~= Seq::<u8>::empty());
        assert(out@ + Seq::<u8>::empty() =~= out@);
    }
    match utf8_text(out) {
        Some(s) => s,
        None => text.to_owned(),
    }
}

/// The name and the value of a pair; one without an equals sign has an empty value.
pub open spec fn pair_parts(pair: Text) -> (Text, Text) {
    match cut(pair, '=') {
        Some(p) => p,
        None => (pair, Seq::<char>::empty()),
    }
}

/// The value of the first pair whose name is `key`.
pub open spec fn first_param(pairs: Seq<Text>, key: Text) -> Option<Text>
    decreases pairs.len(),
{
    if pairs.len() == 0 {
        None
    } else if component(pair_parts(pairs[0]).0) == key {
        Some(component(pair_parts(pairs[0]).1))
    } else {
        first_param(pairs.subrange(1, pairs.len() as int), key)
    }
}

/// A parameter of a query.
pub fn query_param(query: &str, key: &str) -> (r: Option<String>)
    ensures
        match r {
            Some(v) => first_param(pieces(query@, '&'), key@) == Some(v@),
            None => first_param(pieces(query@, '&'), key@) is None,
        },
{
    let pairs = split(query, '&');
    let ghost all = texts(pairs@);
    let mut i: usize = 0;
    assert(all.subrange(0, all.len() as int) =~= all);
    while i < pairs.len()
        invariant
            i <= pairs@.len(),
            all == texts(pairs@),
            first_param(all, key@) == first_param(all.subrange(i as int, all.len() as int), key@),
            all == pieces(query@, '&'),
        decreases pairs@.len() - i,
    {
        let ghost rest = all.subrange(i as int, all.len() as int);
        assert(rest[0] == pairs@[i as int]@);
        assert(rest.subrange(1, rest.len() as int) =~= all.subrange(i + 1, all.len() as int));
        let (name, value) = match split_once(pairs[i].as_str(), '=') {
            Some(p) => p,
            None => (pairs[i].clone(), String::new()),
        };
        proof {
            if cut(pairs@[i as int]@, '=') is None {
                assert(value@ =~= Seq::<char>::empty());
            }
        }
        if same(decode_component(name.as_str()).as_str(), key) {
            return Some(decode_component(value.as_str()));
        }
        i = i + 1;
    }
    None
}

/// Whether a client may connect: no token is asked for, or the header or the query
/// holds it.
pub open spec fn may_connect(token: Text, header: Option<Text>, query: Option<Text>) -> bool {
    ||| token.len() == 0
    ||| header == Some("Bearer "@ + token)
    ||| (query is Some && first_param(pieces(query->0, '&'), "access_token"@) == Some(token))
}

/// Whether a client may connect.
pub fn authorized(token: &str, header: Option<&str>, query: Option<&str>) -> (r: bool)
    ensures
        r == may_connect(
            token@,
            match header {
                Some(h) => Some(h@),
                None => None,
            },
            match query {
                Some(q) => Some(q@),
                None => None,
            },
        ),
{
    if token.is_empty() {
        return true;
    }
    if let Some(h) = header {
        if same(h, join2("Bearer ", token).as_str()) {
            return true;
        }
    }
    match query {
        Some(q) => match query_param(q, "access_token") {
            Some(v) => same(v.as_str(), token),
            None => false,
        },
        None => false,
    }
}

/// A server without a token lets every client in.
pub proof fn without_token_anyone_connects(header: Option<Text>, query: Option<Text>)
    ensures
        may_connect(Seq::<char>::empty(), header, query),
{
}

/// Closing a connection that is no longer in use leaves the one that is, and
/// closing that one leaves none.
pub proof fn only_the_connection_in_use_is_cleared(older: u64, newer: u64)
    requires
        older != newer,
    ensures
        slot_after_close(Some(newer), older) == Some(newer),
        slot_after_close(Some(newer), newer) is None,
{
}

// ---- what messages keep to ----

/// The text of a message is that of its text segments in their order: the text of two
/// lists of segments is that of the one and then that of the other, a text segment has
/// its text, and segments of other kinds have none.
pub proof fn text_segments_make_the_text(a: Seq<SegmentV>, b: Seq<SegmentV>, seg: SegmentV)
    ensures
        segments_text(a + b) == segments_text(a) + segments_text(b),
        seg.kind != "text"@ ==> segments_text(seq![seg]).len() == 0,
        seg.kind == "text"@ ==> (seg.data.field("text"@) matches Some(JsonV::Str(t))
            ==> segments_text(seq![seg]) == t),
    decreases b.len(),
{
    let none = Seq::<SegmentV>::empty();
    assert(seq![seg].drop_last() =~= none);
    assert(seq![seg].last() == seg);
    assert(segments_text(none) =~= Seq::<char>::empty());
    match seg.data.field("text"@) {
        Some(JsonV::Str(t)) => {
            numbers_are_shown_in_digits(0, t);
            assert(Seq::<char>::empty() + t =~= t);
        },
        _ => {},
    }
    if b.len() == 0 {
        assert(a + b =~= a);
        assert(segments_text(b) =~= Seq::<char>::empty());
        assert(segments_text(a) + segments_text(b) =~= segments_text(a));
    } else {
        text_segments_make_the_text(a, b.drop_last(), seg);
        assert((a + b).drop_last() =~= a + b.drop_last());
        assert((a + b).last() == b.last());
        assert(segments_text(a + b) =~= segments_text(a) + segments_text(b));
    }
}

/// The segments of a kind are those of the message that have it, all of them and in
/// their order.
pub proof fn segments_are_told_by_kind(
    a: Seq<SegmentV>,
    b: Seq<SegmentV>,
    seg: SegmentV,
    kind: Text,
)
    ensures
        of_kind(a + b, kind) == of_kind(a, kind) + of_kind(b, kind),
        seg.kind == kind ==> of_kind(seq![seg], kind) == seq![seg],
        seg.kind != kind ==> of_kind(seq![seg], kind).len() == 0,
    decreases b.len(),
{
    let none = Seq::<SegmentV>::empty();
    assert(seq![seg].drop_last() =~= none);
    assert(seq![seg].last() == seg);
    assert(of_kind(none, kind) =~= none);
    assert(none.push(seg) =~= seq![seg]);
    if b.len() == 0 {
        assert(a + b =~= a);
        assert(of_kind(b, kind) =~= none);
        assert(of_kind(a, kind) + of_kind(b, kind) =~= of_kind(a, kind));
    } else {
        segments_are_told_by_kind(a, b.drop_last(), seg, kind);
        assert((a + b).drop_last() =~= a + b.drop_last());
        assert((a + b).last() == b.last());
        assert(of_kind(a + b, kind) =~= of_kind(a, kind) + of_kind(b, kind));
    }
}

/// A message answers to the message of its first reply segment, whatever stands around
/// it; without one it answers to none.
pub proof fn a_message_answers_to_its_first_reply(
    a: Seq<SegmentV>,
    seg: SegmentV,
    b: Seq<SegmentV>,
)
    requires
        of_kind(a, "reply"@).len() == 0,
    ensures
        reply_to(a) is None,
        seg.kind == "reply"@ ==> (seg.data.field("id"@) matches Some(JsonV::Str(id)) ==> (id.len()
            > 0 ==> reply_to(a + seq![seg] + b) == Some(id))),
        seg.kind == "reply"@ && seg.data.field("id"@) is None ==> reply_to(a + seq![seg] + b)
            is None,
        forall|n: i64|
            #![trigger int_json(n)]
            seg.kind == "reply"@ && seg.data.field("id"@) == Some(int_json(n)) && n != 0
                ==> reply_to(a + seq![seg] + b) == Some(int_text(n as int)),
{
    segments_are_told_by_kind(a, seq![seg], seg, "reply"@);
    segments_are_told_by_kind(a + seq![seg], b, seg, "reply"@);
    let all = of_kind(a + seq![seg] + b, "reply"@);
    if seg.kind == "reply"@ {
        assert(all[0] == seg);
    }
    assert forall|n: i64|
        #![trigger int_json(n)]
        seg.kind == "reply"@ && seg.data.field("id"@) == Some(int_json(n)) && n
            != 0 implies reply_to(a + seq![seg] + b) == Some(int_text(n as int)) by {
        numbers_are_shown_in_digits(n, Seq::empty());
    }
}

/// Whom a message speaks to are the users of its at segments in their order, whether
/// their numbers are written as numbers or as texts.
pub proof fn those_spoken_to_are_the_users_named(
    a: Seq<SegmentV>,
    b: Seq<SegmentV>,
    seg: SegmentV,
    user: i64,
)
    requires
        user >= 0,
    ensures
        at_users(a + b) == at_users(a) + at_users(b),
        seg.kind != "at"@ ==> at_users(seq![seg]).len() == 0,
        seg.kind == "at"@ && seg.data.field("qq"@) == Some(int_json(user)) ==> at_users(seq![seg])
            == seq![user],
        seg.kind == "at"@ && seg.data.field("qq"@) == Some(JsonV::Str(int_text(user as int)))
            ==> at_users(seq![seg]) == seq![user],
        seg.kind == "at"@ && seg.data.field("qq"@) == Some(JsonV::Str("all"@)) ==> at_users(
            seq![seg],
        ).len() == 0,
    decreases b.len(),
{
    let none = Seq::<SegmentV>::empty();
    assert(seq![seg].drop_last() =~= none);
    assert(seq![seg].last() == seg);
    assert(at_users(none) =~= Seq::<i64>::empty());
    assert(Seq::<i64>::empty().push(user) =~= seq![user]);
    a_number_is_read_back(user as int);
    reveal_strlit("all");
    assert(!all_digits("all"@)) by {
        assert(!is_digit("all"@[0]));
    }
    if b.len() == 0 {
        assert(a + b =~= a);
        assert(at_users(b) =~= Seq::<i64>::empty());
        assert(at_users(a) + at_users(b) =~= at_users(a));
    } else {
        those_spoken_to_are_the_users_named(a, b.drop_last(), seg, user);
        assert((a + b).drop_last() =~= a + b.drop_last());
        assert((a + b).last() == b.last());
        assert(at_users(a + b) =~= at_users(a) + at_users(b));
    }
}

/// A member is shown by the card in the group, or else by the nickname, or else by the
/// number; never by nothing.
pub proof fn a_member_is_always_named(msg: GroupMessageV)
    ensures
        msg.shown_name().len() > 0,
        msg.card.len() > 0 ==> msg.shown_name() == msg.card,
        msg.card.len() == 0 && msg.nickname.len() > 0 ==> msg.shown_name() == msg.nickname,
        msg.card.len() == 0 && msg.nickname.len() == 0 ==> crate::text::int_value(msg.shown_name())
            == Some(msg.user_id as int),
{
    a_number_is_read_back(msg.user_id as int);
}

/// The full text of a message neither begins nor ends with white space, and no word of
/// a text segment is lost in it.
pub proof fn a_message_keeps_its_text(msg: GroupMessageV, a: Seq<SegmentV>, t: Text, b: Seq<SegmentV>)
    requires
        msg.segments == a + seq![
            SegmentV { kind: "text"@, data: JsonV::Object(seq![("text"@, JsonV::Str(t))]) },
        ] + b,
        t.len() > 0,
        !is_white(t[0]),
        !is_white(t.last()),
    ensures
        has(msg.full_text(), t),
        segments_text(a).len() == 0 && segments_text(b).len() == 0 ==> msg.full_text() == t,
{
    let seg = SegmentV { kind: "text"@, data: JsonV::Object(seq![("text"@, JsonV::Str(t))]) };
    let m = seq![("text"@, JsonV::Str(t))];
    a_member_is_found(m, 0);
    assert(seg.data.field("text"@) == Some(JsonV::Str(t)));
    text_segments_make_the_text(a, seq![seg], seg);
    text_segments_make_the_text(a + seq![seg], b, seg);
    let x = segments_text(a);
    let y = segments_text(b);
    assert(segments_text(msg.segments) == x + t + y);
    a_part_occurs(x, t, y);
    trimming_loses_no_word(x + t + y, t);
    if x.len() == 0 && y.len() == 0 {
        assert(x + t + y =~= t);
        what_is_trimmed_stays(t);
    }
}

/// A number is read whether it is written as a number or as a text.
pub proof fn numbers_are_read_leniently(n: i64)
    ensures
        lenient_int(Some(int_json(n))) == n,
        lenient_int(Some(JsonV::Str(int_text(n as int)))) == n,
        lenient_int(None) == 0,
{
    a_number_is_read_back(n as int);
    let t = int_text(n as int);
    digits_have_the_value(if n < 0 {
        (-n) as nat
    } else {
        n as nat
    });
    what_is_trimmed_stays(t);
}

/// A group message is read by its fields: the group, the user and the number of the
/// message, the names of the sender and what was said, each from the field of its name.
pub proof fn a_group_message_is_read_by_its_fields(
    raw: JsonV,
    group: i64,
    user: i64,
    id: i64,
    nickname: Text,
    card: Text,
    text: Text,
)
    requires
        raw.field("post_type"@) == Some(JsonV::Str("message"@)),
        raw.field("message_type"@) == Some(JsonV::Str("group"@)),
    ensures
        group_message_in(raw) matches Some(msg) && {
            &&& raw.field("group_id"@) == Some(int_json(group)) ==> msg.group_id == group
            &&& raw.field("user_id"@) == Some(int_json(user)) ==> msg.user_id == user
            &&& raw.field("message_id"@) == Some(int_json(id)) ==> msg.message_id == id
            &&& inner(raw, "sender"@, "nickname"@) == Some(JsonV::Str(nickname)) ==> msg.nickname
                == nickname
            &&& inner(raw, "sender"@, "card"@) == Some(JsonV::Str(card)) ==> msg.card == card
            &&& inner(raw, "sender"@, "card"@) is None ==> msg.card.len() == 0
            &&& raw.field("message"@) == Some(JsonV::Str(text)) ==> segments_text(msg.segments)
                == text
            &&& (raw.field("message"@) matches Some(JsonV::Array(s)) ==> msg.segments
                == segments_in(s))
            &&& raw.field("message"@) is None ==> msg.segments.len() == 0
        },
{
    numbers_are_read_leniently(group);
    numbers_are_read_leniently(user);
    numbers_are_read_leniently(id);
    numbers_are_shown_in_digits(0, nickname);
    numbers_are_shown_in_digits(0, card);
    let seg = SegmentV { kind: "text"@, data: JsonV::Object(seq![("text"@, JsonV::Str(text))]) };
    let m = seq![("text"@, JsonV::Str(text))];
    a_member_is_found(m, 0);
    text_segments_make_the_text(Seq::empty(), Seq::empty(), seg);
    if text.len() == 0 {
        assert(segments_text(Seq::<SegmentV>::empty()) =~= text);
    }
}

/// What is no group message is read as none.
pub proof fn other_events_are_no_group_messages(raw: JsonV)
    requires
        raw.field("post_type"@) != Some(JsonV::Str("message"@)) || raw.field("message_type"@)
            != Some(JsonV::Str("group"@)),
    ensures
        group_message_in(raw) is None,
{
}

/// The segments of a message are read in their order, each with its kind and its data;
/// an entry without a kind is passed over.
pub proof fn segments_are_read_in_order(a: Seq<JsonV>, b: Seq<JsonV>, item: JsonV)
    ensures
        segments_in(a + b) == segments_in(a) + segments_in(b),
        (item.field("type"@) matches Some(JsonV::Str(kind)) ==> (item.field("data"@) matches Some(
            JsonV::Object(m),
        ) ==> kind.len() > 0 ==> segments_in(seq![item]) == seq![
            SegmentV { kind, data: JsonV::Object(m) },
        ])),
        item.field("type"@) is None ==> segments_in(seq![item]).len() == 0,
    decreases b.len(),
{
    let none = Seq::<JsonV>::empty();
    assert(seq![item].drop_last() =~= none);
    assert(seq![item].last() == item);
    assert(segments_in(none) =~= Seq::<SegmentV>::empty());
    match (item.field("type"@), item.field("data"@)) {
        (Some(JsonV::Str(kind)), Some(JsonV::Object(m))) => {
            let seg = SegmentV { kind, data: JsonV::Object(m) };
            assert(Seq::<SegmentV>::empty().push(seg) =~= seq![seg]);
        },
        _ => {},
    }
    if b.len() == 0 {
        assert(a + b =~= a);
        assert(segments_in(b) =~= Seq::<SegmentV>::empty());
        assert(segments_in(a) + segments_in(b) =~= segments_in(a));
    } else {
        segments_are_read_in_order(a, b.drop_last(), item);
        assert((a + b).drop_last() =~= a + b.drop_last());
        assert((a + b).last() == b.last());
        assert(segments_in(a + b) =~= segments_in(a) + segments_in(b));
    }
}

/// What is sent to a group is read as what was to be said: the group is the one given,
/// and the message is one segment of the kind given with the value under its key.
pub proof fn what_is_sent_is_what_is_said(
    group_id: i64,
    kind: Text,
    key: Text,
    value: Text,
    message: JsonV,
    action: Text,
    params: JsonV,
    echo: u64,
)
    requires
        kind.len() > 0,
    ensures
        group_params(group_id, message).field("group_id"@) == Some(int_json(group_id)),
        group_params(group_id, message).field("message"@) == Some(message),
        segments_of_message(one_segment(kind, key, value)) == seq![
            SegmentV { kind, data: JsonV::Object(seq![(key, JsonV::Str(value))]) },
        ],
        segments_text(segments_of_message(one_segment("text"@, "text"@, value))) == value,
        action_json(action, params, echo).field("action"@) == Some(JsonV::Str(action)),
        action_json(action, params, echo).field("params"@) == Some(params),
        echo_of(action_json(action, params, echo)) == Some(echo),
{
    reveal_strlit("group_id");
    reveal_strlit("message");
    reveal_strlit("type");
    reveal_strlit("data");
    reveal_strlit("action");
    reveal_strlit("params");
    reveal_strlit("echo");
    reveal_strlit("text");
    let g = seq![("group_id"@, int_json(group_id)), ("message"@, message)];
    assert("group_id"@.len() != "message"@.len());
    a_member_is_found(g, 0);
    a_member_is_found(g, 1);
    lemma_one_segment(kind, key, value);
    lemma_one_segment("text"@, "text"@, value);
    let seg = SegmentV { kind: "text"@, data: JsonV::Object(seq![("text"@, JsonV::Str(value))]) };
    let m = seq![("text"@, JsonV::Str(value))];
    a_member_is_found(m, 0);
    text_segments_make_the_text(Seq::empty(), Seq::empty(), seg);
    let a = seq![
        ("action"@, JsonV::Str(action)),
        ("params"@, params),
        ("echo"@, JsonV::Num(NumberV::Pos(echo))),
    ];
    assert("action"@[0] != "params"@[0]);
    assert("echo"@.len() == 4);
    a_member_is_found(a, 0);
    a_member_is_found(a, 1);
    a_member_is_found(a, 2);
}

/// One segment reads as itself.
proof fn lemma_one_segment(kind: Text, key: Text, value: Text)
    requires
        kind.len() > 0,
    ensures
        segments_of_message(one_segment(kind, key, value)) == seq![
            SegmentV { kind, data: JsonV::Object(seq![(key, JsonV::Str(value))]) },
        ],
{
    reveal_strlit("type");
    reveal_strlit("data");
    let data = JsonV::Object(seq![(key, JsonV::Str(value))]);
    let m = seq![("type"@, JsonV::Str(kind)), ("data"@, data)];
    let item = JsonV::Object(m);
    assert("type"@[0] != "data"@[0]);
    a_member_is_found(m, 0);
    a_member_is_found(m, 1);
    assert(item.field("type"@) == Some(JsonV::Str(kind)));
    assert(item.field("data"@) == Some(data));
    segments_are_read_in_order(Seq::empty(), Seq::empty(), item);
}

/// An answer belongs to the call whose number it carries, as a number or as a text.
pub proof fn an_answer_carries_its_number(payload: JsonV, n: u64)
    ensures
        payload.field("echo"@) == Some(JsonV::Num(NumberV::Pos(n))) ==> echo_of(payload) == Some(n),
        payload.field("echo"@) == Some(JsonV::Str(decimal(n as nat))) ==> echo_of(payload) == Some(
            n,
        ),
        payload.field("echo"@) is None ==> echo_of(payload) is None,
{
    a_number_is_read_back(n as int);
    let t = decimal(n as nat);
    digits_have_the_value(n as nat);
    what_is_trimmed_stays(t);
}

/// A call succeeded where the answer says so, by its status or by its code, and gives
/// the data of the answer; any other answer is a failure with its code, and with its
/// message where it has one.
pub proof fn an_answer_tells_of_success(payload: JsonV, data: JsonV, code: i64, message: Text)
    ensures
        payload.field("status"@) == Some(JsonV::Str("ok"@)) || payload.field("retcode"@) == Some(
            int_json(0),
        ) ==> (payload.field("data"@) == Some(data) ==> response_of(payload) == ResponseV::Data(
            data,
        )),
        payload.field("status"@) != Some(JsonV::Str("ok"@)) && payload.field("retcode"@) == Some(
            int_json(code),
        ) && code != 0 && payload.field("message"@) == Some(JsonV::Str(message)) && message.len()
            > 0 ==> response_of(payload) == ResponseV::Failed(code, message),
        payload.field("status"@) is None && payload.field("retcode"@) is None ==> response_of(
            payload,
        ) is Failed,
{
    numbers_are_shown_in_digits(code, message);
}

/// A connection is let in by the token alone: with a token configured, a header must
/// carry it behind `Bearer `, or else the query under `access_token`.
pub proof fn only_the_token_lets_in(token: Text, header: Option<Text>)
    requires
        token.len() > 0,
    ensures
        may_connect(token, Some("Bearer "@ + token), None),
        may_connect(token, header, None) ==> header == Some("Bearer "@ + token),
{
}

/// The value of a parameter is the one that stands first under its name.
pub proof fn the_first_parameter_counts(a: Seq<Text>, b: Seq<Text>, key: Text)
    ensures
        first_param(a, key) is Some ==> first_param(a + b, key) == first_param(a, key),
        first_param(a, key) is None ==> first_param(a + b, key) == first_param(b, key),
    decreases a.len(),
{
    if a.len() == 0 {
        assert(a + b =~= b);
    } else {
        let rest = a.subrange(1, a.len() as int);
        the_first_parameter_counts(rest, b, key);
        assert((a + b).subrange(1, (a + b).len() as int) =~= rest + b);
        assert((a + b)[0] == a[0]);
    }
}

/// What is told of the state of the connection: whether there is one, and the account
/// that it is of.
pub proof fn the_state_of_the_connection_is_told(account: i64, counts: ServerStats)
    ensures
        health_json(true, account, counts).field("onebot_connected"@) == Some(JsonV::Bool(true)),
        health_json(false, account, counts).field("onebot_connected"@) == Some(JsonV::Bool(false)),
        health_json(true, account, counts).field("self_id"@) == Some(int_json(account)),
        health_json(false, account, counts).field("self_id"@) == Some(int_json(0)),
        health_json(true, account, counts).field("status"@) == Some(JsonV::Str("ok"@)),
{
    reveal_strlit("status");
    reveal_strlit("onebot_connected");
    reveal_strlit("self_id");
    reveal_strlit("stats");
    assert("status"@.len() == 6 && "onebot_connected"@.len() == 16 && "self_id"@.len() == 7);
    lemma_health(true, account, counts);
    lemma_health(false, account, counts);
}

proof fn lemma_health(connected: bool, account: i64, counts: ServerStats)
    ensures
        health_json(connected, account, counts).field("onebot_connected"@) == Some(
            JsonV::Bool(connected),
        ),
        health_json(connected, account, counts).field("self_id"@) == Some(
            int_json(
                if connected {
                    account
                } else {
                    0
                },
            ),
        ),
        health_json(connected, account, counts).field("status"@) == Some(JsonV::Str("ok"@)),
{
    reveal_strlit("status");
    reveal_strlit("onebot_connected");
    reveal_strlit("self_id");
    match health_json(connected, account, counts) {
        JsonV::Object(m) => {
            assert(m[0].0 == "status"@ && m[1].0 == "onebot_connected"@ && m[2].0 == "self_id"@);
            assert("status"@.len() == 6 && "onebot_connected"@.len() == 16 && "self_id"@.len()
                == 7);
            a_member_is_found(m, 0);
            a_member_is_found(m, 1);
            a_member_is_found(m, 2);
        },
        _ => {},
    }
}

/// What comes in is taken for what it is: an answer goes to the call that waits for it,
/// with the number of that call; a group message is one, and so is not taken for an
/// answer unless a call waits for its number; what cannot be read is left alone.
pub proof fn what_comes_in_is_taken_for_what_it_is(
    text: Text,
    payload: JsonV,
    waiting: Set<u64>,
    echo: u64,
)
    requires
        json_read(encode_utf8(text)) == Ok::<JsonV, Text>(payload),
        payload is Object,
    ensures
        payload.field("echo"@) == Some(JsonV::Num(NumberV::Pos(echo))) && waiting.contains(echo)
            ==> incoming(text, waiting) == IncomingV::Response(echo, response_of(payload)),
        (incoming(text, waiting) matches IncomingV::Response(e, v) ==> waiting.contains(e)),
        payload.field("echo"@) is None && payload.field("post_type"@) == Some(
            JsonV::Str("message"@),
        ) && payload.field("message_type"@) == Some(JsonV::Str("group"@)) ==> (incoming(
            text,
            waiting,
        ) matches IncomingV::Group(m) && group_message_in(payload) == Some(m)),
        payload.field("echo"@) is None && payload.field("post_type"@) == Some(
            JsonV::Str("meta_event"@),
        ) ==> incoming(text, waiting) is Ignored,
{
    reveal_strlit("message");
    reveal_strlit("meta_event");
    assert("message"@.len() == 7 && "meta_event"@.len() == 10);
    an_answer_carries_its_number(payload, echo);
}

/// What is said in a group is said in that group, word for word, and what is shown is the
/// image that was given; the call carries its number.
pub proof fn a_call_says_what_was_given(group_id: i64, value: Text, echo: u64)
    ensures
        forall|call: JsonV|
            call == text_call(group_id, value, echo) || call == image_call(group_id, value, echo)
                ==> (#[trigger] call.field("action"@)) == Some(JsonV::Str("send_group_msg"@))
                && echo_of(call) == Some(echo) && (call.field("params"@) matches Some(p)
                && p.field("group_id"@) == Some(int_json(group_id))),
        text_call(group_id, value, echo).field("params"@) matches Some(p) && (p.field(
            "message"@,
        ) matches Some(m) && segments_text(segments_of_message(m)) == value),
        image_call(group_id, value, echo).field("params"@) matches Some(p) && (p.field(
            "message"@,
        ) matches Some(m) && segments_of_message(m) == seq![
            SegmentV { kind: "image"@, data: JsonV::Object(seq![("file"@, JsonV::Str(value))]) },
        ]),
{
    reveal_strlit("text");
    reveal_strlit("image");
    let t = one_segment("text"@, "text"@, value);
    let i = one_segment("image"@, "file"@, value);
    let a = "send_group_msg"@;
    what_is_sent_is_what_is_said(
        group_id,
        "text"@,
        "text"@,
        value,
        t,
        a,
        group_params(group_id, t),
        echo,
    );
    what_is_sent_is_what_is_said(
        group_id,
        "image"@,
        "file"@,
        value,
        i,
        a,
        group_params(group_id, i),
        echo,
    );
}

/// A connection names its account when it opens, by an event of that kind and no other.
pub proof fn the_opening_of_a_connection_is_told(payload: JsonV)
    ensures
        is_lifecycle(payload) <==> payload.field("post_type"@) == Some(JsonV::Str("meta_event"@))
            && payload.field("meta_event_type"@) == Some(JsonV::Str("lifecycle"@)),
        is_lifecycle(payload) ==> group_event(payload) is None,
{
}

/// A parameter is read by its name and its value, both decoded, whatever follows.
pub proof fn a_parameter_is_read_decoded(k: Text, v: Text, rest: Seq<Text>, key: Text)
    requires
        !k.contains('='),
        component(k) == key,
    ensures
        first_param(seq![k + seq!['='] + v] + rest, key) == Some(component(v)),
{
    let s = k + seq!['='] + v;
    a_cut_is_at_the_first(s, '=');
    assert(s[k.len() as int] == '=');
    match cut(s, '=') {
        Some((h, r)) => {
            what_is_parted_alike_is_alike(h, r, k, v, '=');
        },
        None => {},
    }
    let all = seq![s] + rest;
    assert(all[0] == s);
}

/// The token may stand in the query of the address, encoded, under `access_token`.
pub proof fn the_query_may_carry_the_token(k: Text, v: Text, header: Option<Text>, token: Text)
    requires
        token.len() > 0,
        !k.contains('='),
        !k.contains('&'),
        !v.contains('&'),
        component(k) == "access_token"@,
    ensures
        component(v) == token ==> may_connect(token, header, Some(k + seq!['='] + v)),
        component(v) != token && header is None ==> !may_connect(
            token,
            header,
            Some(k + seq!['='] + v),
        ),
{
    let s = k + seq!['='] + v;
    assert(!s.contains('&')) by {
        if s.contains('&') {
            let i = choose|i: int| 0 <= i < s.len() && s[i] == '&';
            if i < k.len() {
                assert(k[i] == '&');
            } else if i > k.len() {
                assert(v[i - k.len() - 1] == '&');
            }
        }
    }
    joined_texts_come_apart(seq![s], '&');
    assert(crate::text::joined(seq![s], seq!['&']) == s);
    a_parameter_is_read_decoded(k, v, Seq::empty(), "access_token"@);
    assert(seq![s] + Seq::<Text>::empty() =~= seq![s]);
}

/// In an address a plus stands for a blank, a percent sign with two digits for the byte
/// of that value, and every other byte for itself.
pub proof fn an_address_is_decoded_byte_by_byte(b: Seq<u8>, c: u8, high: u8, low: u8)
    requires
        high < 10,
        low < 10,
    ensures
        unescaped(seq!['+' as u8] + b) == seq![' ' as u8] + unescaped(b),
        c != '+' as u8 && c != '%' as u8 ==> unescaped(seq![c] + b) == seq![c] + unescaped(b),
        unescaped(seq!['%' as u8, (48 + high) as u8, (48 + low) as u8] + b) == seq![
            (16 * high + low) as u8,
        ] + unescaped(b),
{
    let p = seq!['+' as u8] + b;
    assert(p.subrange(1, p.len() as int) =~= b);
    let q = seq![c] + b;
    assert(q.subrange(1, q.len() as int) =~= b);
    let e = seq!['%' as u8, (48 + high) as u8, (48 + low) as u8] + b;
    assert(e.subrange(3, e.len() as int) =~= b);
    assert(e[0] == 37 && e[1] == 48 + high && e[2] == 48 + low);
}

} // verus!
