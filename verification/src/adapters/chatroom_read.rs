//! Reading the chatroom: which messages are new, and which ask to go to QQ.

use crate::json::{
    copy_items, items, json_read, number_equals, number_text, number_whole, parse_json, real_equals,
    real_whole, Json, JsonV, Number, NumberV,
};
use crate::text::{
    among, behind, drop_back, i64_text, i64_value, int_text, join2, parse_i64, replace, replaced,
    rest_behind, trim, trim_end_of, trimmed, Text,
};
use vstd::prelude::*;

verus! {

pub const MESSAGES_ENDPOINT: &'static str = "/api/channels/{channel_id}/messages";

pub const QQ_FORWARD_PREFIX: &'static str = "!q";

/// What a message asks to send to QQ: what stands behind `!q` or `!Q`, trimmed,
/// where there is something.
pub open spec fn qq_forward(content: Text) -> Option<Text> {
    match behind(trimmed(content), QQ_FORWARD_PREFIX@) {
        Some(rest) => if trimmed(rest).len() > 0 {
            Some(trimmed(rest))
        } else {
            None
        },
        None => None,
    }
}

/// What a message asks to send to QQ.
pub fn extract_qq_forward(content: &str) -> (r: Option<String>)
    ensures
        match r {
            Some(s) => qq_forward(content@) == Some(s@),
            None => qq_forward(content@) is None,
        },
{
    match rest_behind(trim(content).as_str(), QQ_FORWARD_PREFIX) {
        Some(rest) => {
            let payload = trim(rest.as_str());
            if payload.as_str().is_empty() {
                None
            } else {
                Some(payload)
            }
        },
        None => None,
    }
}

/// The number of a message: an integer, a number cut to one, a text that writes
/// one, 1 for true; anything else is 0.
pub open spec fn id_of(message: JsonV) -> i64 {
    match message.field("id"@) {
        Some(JsonV::Num(n)) => match JsonV::Num(n).as_int() {
            Some(i) => i,
            None => real_whole(number_text(n)),
        },
        Some(JsonV::Str(s)) => match i64_value(trimmed(s)) {
            Some(i) => i,
            None => 0,
        },
        Some(JsonV::Bool(true)) => 1,
        _ => 0,
    }
}

/// The number of a message.
pub fn message_id(message: &Json) -> (r: i64)
    ensures
        r == id_of(message@),
{
    match message.get("id") {
        Some(j) => match j {
            Json::Num(n) => match j.as_i64() {
                Some(i) => i,
                None => number_whole(n.text().as_str()),
            },
            Json::Str(s) => match parse_i64(trim(s.as_str()).as_str()) {
                Some(i) => i,
                None => 0,
            },
            Json::Bool(b) => if *b {
                1
            } else {
                0
            },
            _ => 0,
        },
        None => 0,
    }
}

/// The messages of a reply: an array, or the first array under `data`, `messages`
/// or `items`.
pub open spec fn messages_of(data: JsonV) -> Seq<JsonV> {
    match data {
        JsonV::Array(s) => s,
        _ => match data.field("data"@) {
            Some(JsonV::Array(s)) => s,
            _ => match data.field("messages"@) {
                Some(JsonV::Array(s)) => s,
                _ => match data.field("items"@) {
                    Some(JsonV::Array(s)) => s,
                    _ => Seq::<JsonV>::empty(),
                },
            },
        },
    }
}

/// What a reply brings: nothing where it is no 200 with JSON.
pub open spec fn fetched_of(reply: Option<(u16, Seq<u8>)>) -> Option<Seq<JsonV>> {
    match reply {
        Some((status, body)) => if status == 200 {
            match json_read(body) {
                Ok(data) => Some(messages_of(data)),
                Err(_) => None,
            }
        } else {
            None
        },
        None => None,
    }
}

/// The array under `key`.
fn array_under(data: &Json, key: &str) -> (r: Option<Vec<Json>>)
    ensures
        match r {
            Some(v) => data@.field(key@) == Some(JsonV::Array(items(v@))),
            None => !(data@.field(key@) matches Some(JsonV::Array(_))),
        },
{
    match data.get(key) {
        Some(j) => match j.as_array() {
            Some(v) => Some(copy_items(v)),
            None => None,
        },
        None => None,
    }
}

/// The messages of a reply.
pub fn messages_in(data: &Json) -> (r: Vec<Json>)
    ensures
        items(r@) == messages_of(data@),
{
    if let Some(v) = data.as_array() {
        return copy_items(v);
    }
    if let Some(v) = array_under(data, "data") {
        return v;
    }
    if let Some(v) = array_under(data, "messages") {
        return v;
    }
    if let Some(v) = array_under(data, "items") {
        return v;
    }
    let none: Vec<Json> = Vec::new();
    assert(items(none@) =~= Seq::<JsonV>::empty());
    none
}

/// A request for the latest messages.
#[derive(Debug)]
pub struct FetchRequest {
    pub url: String,
    pub authorization: String,
    pub limit: usize,
}

/// Where a channel is read, and how far.
#[derive(Debug)]
pub struct ChatroomReader {
    pub base_url: String,
    pub channel_id: i64,
    pub position: i64,
    /// Whether the backlog was passed over.
    pub initialized: bool,
    pub fetch_limit: usize,
}

/// How many messages are fetched at once.
pub const DEFAULT_FETCH_LIMIT: usize = 10;

/// The greater of two numbers.
pub open spec fn greater(a: i64, b: i64) -> i64 {
    if a >= b {
        a
    } else {
        b
    }
}

/// The greatest number among `messages` and `floor`.
pub open spec fn newest_id(messages: Seq<JsonV>, floor: i64) -> i64
    decreases messages.len(),
{
    if messages.len() == 0 {
        floor
    } else {
        greater(newest_id(messages.drop_last(), floor), id_of(messages.last()))
    }
}

/// The messages whose number is above `position`, in the order they came.
pub open spec fn above(messages: Seq<JsonV>, position: i64) -> Seq<JsonV>
    decreases messages.len(),
{
    if messages.len() == 0 {
        Seq::<JsonV>::empty()
    } else {
        let before = above(messages.drop_last(), position);
        if id_of(messages.last()) > position {
            before.push(messages.last())
        } else {
            before
        }
    }
}

/// How many messages of a sorted list stand before a new message of number `id`:
/// those up to it.
pub open spec fn place(sorted: Seq<JsonV>, id: i64) -> int
    decreases sorted.len(),
{
    if sorted.len() == 0 || id_of(sorted.last()) <= id {
        sorted.len() as int
    } else {
        place(sorted.drop_last(), id)
    }
}

/// `messages` by number; messages of one number stay in the order they came.
pub open spec fn by_id(messages: Seq<JsonV>) -> Seq<JsonV>
    decreases messages.len(),
{
    if messages.len() == 0 {
        Seq::<JsonV>::empty()
    } else {
        let before = by_id(messages.drop_last());
        before.insert(place(before, id_of(messages.last())), messages.last())
    }
}

/// A place lies in the list or at its end.
proof fn lemma_place(sorted: Seq<JsonV>, id: i64)
    ensures
        0 <= place(sorted, id) <= sorted.len(),
    decreases sorted.len(),
{
    if sorted.len() > 0 {
        lemma_place(sorted.drop_last(), id);
    }
}

/// The messages above `position`.
fn take_above(messages: &Vec<Json>, position: i64) -> (r: Vec<Json>)
    ensures
        items(r@) == above(items(messages@), position),
{
    let mut out: Vec<Json> = Vec::new();
    let mut i: usize = 0;
    let ghost all = items(messages@);
    assert(items(out@) =~= above(all.take(0), position));
    while i < messages.len()
        invariant
            i <= messages@.len(),
            all == items(messages@),
            items(out@) == above(all.take(i as int), position),
        decreases messages@.len() - i,
    {
        assert(all.take(i + 1).drop_last() =~= all.take(i as int));
        assert(all.take(i + 1).last() == messages@[i as int]@);
        if message_id(&messages[i]) > position {
            let m = messages[i].copy();
            assert(items(out@.push(m)) =~= items(out@).push(m@));
            out.push(m);
        }
        i = i + 1;
    }
    assert(all.take(i as int) =~= all);
    out
}

/// The messages by number.
fn sort_by_id(messages: &Vec<Json>) -> (r: Vec<Json>)
    ensures
        items(r@) == by_id(items(messages@)),
{
    let mut out: Vec<Json> = Vec::new();
    let mut i: usize = 0;
    let ghost all = items(messages@);
    assert(items(out@) =~= by_id(all.take(0)));
    while i < messages.len()
        invariant
            i <= messages@.len(),
            all == items(messages@),
            items(out@) == by_id(all.take(i as int)),
        decreases messages@.len() - i,
    {
        let id = message_id(&messages[i]);
        let mut k: usize = out.len();
        let ghost before = items(out@);
        assert(before.take(before.len() as int) =~= before);
        while k > 0 && message_id(&out[k - 1]) > id
            invariant
                k <= out@.len(),
                before == items(out@),
                place(before, id) == place(before.take(k as int), id),
            decreases k,
        {
            assert(before.take(k as int).drop_last() =~= before.take(k - 1));
            assert(before.take(k as int).last() == out@[k - 1]@);
            k = k - 1;
        }
        proof {
            if k > 0 {
                assert(before.take(k as int).last() == out@[k - 1]@);
            }
            assert(place(before, id) == k);
            assert(all.take(i + 1).drop_last() =~= all.take(i as int));
            assert(all.take(i + 1).last() == messages@[i as int]@);
        }
        let m = messages[i].copy();
        assert(items(out@.insert(k as int, m)) =~= items(out@).insert(k as int, m@));
        out.insert(k, m);
        i = i + 1;
    }
    assert(all.take(i as int) =~= all);
    out
}

/// The greatest number among `messages` and `floor`.
fn greatest(messages: &Vec<Json>, floor: i64) -> (r: i64)
    ensures
        r == newest_id(items(messages@), floor),
{
    let mut best: i64 = floor;
    let mut i: usize = 0;
    let ghost all = items(messages@);
    assert(best == newest_id(all.take(0), floor));
    while i < messages.len()
        invariant
            i <= messages@.len(),
            all == items(messages@),
            best == newest_id(all.take(i as int), floor),
        decreases messages@.len() - i,
    {
        assert(all.take(i + 1).drop_last() =~= all.take(i as int));
        assert(all.take(i + 1).last() == messages@[i as int]@);
        let id = message_id(&messages[i]);
        if id > best {
            best = id;
        }
        i = i + 1;
    }
    assert(all.take(i as int) =~= all);
    best
}

impl ChatroomReader {
    /// A reader that has read up to `seeded`.
    pub fn new(base_url: &str, channel_id: i64, seeded: i64) -> (r: Self)
        ensures
            r.base_url@ == drop_back(base_url@, among("/"@)),
            r.channel_id == channel_id,
            r.position == seeded,
            !r.initialized,
            r.fetch_limit == DEFAULT_FETCH_LIMIT,
    {
        ChatroomReader {
            base_url: trim_end_of(base_url, "/"),
            channel_id,
            position: seeded,
            initialized: false,
            fetch_limit: DEFAULT_FETCH_LIMIT,
        }
    }

    /// The same reader with another limit.
    pub fn with_fetch_limit(self, limit: usize) -> (r: Self)
        ensures
            r == (ChatroomReader { fetch_limit: limit, ..self }),
    {
        ChatroomReader {
            base_url: self.base_url,
            channel_id: self.channel_id,
            position: self.position,
            initialized: self.initialized,
            fetch_limit: limit,
        }
    }

    /// How far the channel was read.
    pub fn cursor(&self) -> (r: i64)
        ensures
            r == self.position,
    {
        self.position
    }

    /// The request for the latest messages.
    pub fn fetch_request(&self, access_token: &str) -> (r: FetchRequest)
        ensures
            r.url@ == self.base_url@ + replaced(
                MESSAGES_ENDPOINT@,
                "{channel_id}"@,
                int_text(self.channel_id as int),
            ),
            r.authorization@ == "Bearer "@ + access_token@,
            r.limit == self.fetch_limit,
    {
        proof {
            reveal_strlit("{channel_id}");
        }
        let path = replace(
            MESSAGES_ENDPOINT,
            "{channel_id}",
            i64_text(self.channel_id).as_str(),
        );
        FetchRequest {
            url: join2(self.base_url.as_str(), path.as_str()),
            authorization: join2("Bearer ", access_token),
            limit: self.fetch_limit,
        }
    }

    /// What a reply brings: its status and body, or nothing where there was none.
    pub fn fetch_messages(reply: Option<(u16, Vec<u8>)>) -> (r: Option<Vec<Json>>)
        ensures
            match r {
                Some(v) => fetched_of(
                    match reply {
                        Some(p) => Some((p.0, p.1@)),
                        None => None,
                    },
                ) == Some(items(v@)),
                None => fetched_of(
                    match reply {
                        Some(p) => Some((p.0, p.1@)),
                        None => None,
                    },
                ) is None,
            },
    {
        match reply {
            Some(p) => if p.0 == 200 {
                match parse_json(p.1.as_slice()) {
                    Ok(data) => Some(messages_in(&data)),
                    Err(_) => None,
                }
            } else {
                None
            },
            None => None,
        }
    }

    /// Takes what was fetched and gives the new messages, oldest first. The first
    /// time only the position is set, so that the backlog is not played again; a
    /// failed fetch changes nothing.
    pub fn poll_once(&mut self, fetched: Option<Vec<Json>>) -> (r: Vec<Json>)
        ensures
            polled(*old(self), fetched_v(fetched), *final(self), items(r@)),
    {
        let ghost none = Seq::<JsonV>::empty();
        let messages = match fetched {
            Some(v) => v,
            None => {
                let nothing: Vec<Json> = Vec::new();
                assert(items(nothing@) =~= none);
                return nothing;
            },
        };
        if !self.initialized {
            self.initialized = true;
            let newest: i64 = if messages.len() == 0 {
                0
            } else {
                let first = message_id(&messages[0]);
                greatest(&messages, first)
            };
            if newest > self.position {
                self.position = newest;
            }
            let nothing: Vec<Json> = Vec::new();
            assert(items(nothing@) =~= none);
            return nothing;
        }
        let fresh = sort_by_id(&take_above(&messages, self.position));
        self.position = greatest(&messages, self.position);
        fresh
    }

    /// Whether a message is the bot's own.
    pub fn is_own_message(message: &Json, bot_id: Option<i64>) -> (r: bool)
        ensures
            r == own_message(message@, bot_id),
    {
        let id = match bot_id {
            Some(id) => id,
            None => return false,
        };
        match message.get("user_id") {
            Some(j) => match j {
                Json::Num(Number::Real(t)) => number_equals(t.as_str(), id),
                Json::Num(_) => match j.as_i64() {
                    Some(i) => i == id,
                    None => false,
                },
                _ => false,
            },
            None => false,
        }
    }
}

/// What was fetched, by its values.
pub open spec fn fetched_v(fetched: Option<Vec<Json>>) -> Option<Seq<JsonV>> {
    match fetched {
        Some(v) => Some(items(v@)),
        None => None,
    }
}

/// What becomes of a reader when it takes what was fetched, and which messages are new:
/// those above the position, oldest first. The first time only the position is set; a
/// failed fetch changes nothing.
pub open spec fn polled(
    before: ChatroomReader,
    fetched: Option<Seq<JsonV>>,
    after: ChatroomReader,
    fresh: Seq<JsonV>,
) -> bool {
    match fetched {
        None => after == before && fresh == Seq::<JsonV>::empty(),
        Some(messages) => {
            &&& after == (ChatroomReader {
                initialized: true,
                position: after.position,
                ..before
            })
            &&& if before.initialized {
                &&& fresh == by_id(above(messages, before.position))
                &&& after.position == newest_id(messages, before.position)
            } else {
                &&& fresh == Seq::<JsonV>::empty()
                &&& after.position == greater(before.position, newest_id_or_zero(messages))
            }
        },
    }
}

/// Whether a message is the bot's own: integers are compared as they are, and a number
/// with a fraction or an exponent by its value.
pub open spec fn own_message(message: JsonV, bot_id: Option<i64>) -> bool {
    match (bot_id, message.field("user_id"@)) {
        (Some(id), Some(JsonV::Num(NumberV::Real(t)))) => real_equals(t, id),
        (Some(id), Some(JsonV::Num(n))) => JsonV::Num(n).as_int() == Some(id),
        _ => false,
    }
}

/// The greatest number among `messages`; 0 where there is none.
pub open spec fn newest_id_or_zero(messages: Seq<JsonV>) -> i64 {
    if messages.len() == 0 {
        0
    } else {
        newest_id(messages, id_of(messages[0]))
    }
}

/// The position never goes back, and no message that was seen lies above it.
pub proof fn position_covers_what_was_seen(messages: Seq<JsonV>, position: i64)
    ensures
        newest_id(messages, position) >= position,
        forall|i: int|
            0 <= i < messages.len() ==> id_of(#[trigger] messages[i]) <= newest_id(
                messages,
                position,
            ),
    decreases messages.len(),
{
    if messages.len() > 0 {
        let before = messages.drop_last();
        position_covers_what_was_seen(before, position);
        assert forall|i: int| 0 <= i < messages.len() implies id_of(#[trigger] messages[i])
            <= newest_id(messages, position) by {
            if i < before.len() {
                assert(before[i] == messages[i]);
            }
        }
    }
}

/// Nothing lies above a position that no message exceeds.
proof fn lemma_none_above(messages: Seq<JsonV>, position: i64)
    requires
        forall|i: int| 0 <= i < messages.len() ==> id_of(#[trigger] messages[i]) <= position,
    ensures
        above(messages, position).len() == 0,
    decreases messages.len(),
{
    if messages.len() > 0 {
        let before = messages.drop_last();
        assert forall|i: int| 0 <= i < before.len() implies id_of(#[trigger] before[i])
            <= position by {
            assert(before[i] == messages[i]);
        }
        lemma_none_above(before, position);
        assert(id_of(messages[messages.len() - 1]) <= position);
    }
}

/// Messages that were polled once are not new the next time.
pub proof fn polling_again_finds_nothing(messages: Seq<JsonV>, position: i64)
    ensures
        above(messages, newest_id(messages, position)).len() == 0,
{
    position_covers_what_was_seen(messages, position);
    lemma_none_above(messages, newest_id(messages, position));
}

/// Every message above a position has a number above it.
proof fn lemma_above(messages: Seq<JsonV>, position: i64)
    ensures
        forall|i: int|
            0 <= i < above(messages, position).len() ==> id_of(
                #[trigger] above(messages, position)[i],
            ) > position,
    decreases messages.len(),
{
    if messages.len() > 0 {
        lemma_above(messages.drop_last(), position);
        let before = above(messages.drop_last(), position);
        let all = above(messages, position);
        assert forall|i: int| 0 <= i < all.len() implies id_of(#[trigger] all[i]) > position by {
            if i < before.len() {
                assert(all[i] == before[i]);
            }
        }
    }
}

/// Whether numbers never fall along a list.
pub open spec fn ascending(s: Seq<JsonV>) -> bool {
    forall|i: int, j: int| 0 <= i <= j < s.len() ==> id_of(#[trigger] s[i]) <= id_of(#[trigger] s[j])
}

/// In an ascending list, a place parts what is up to a number from what is above.
proof fn lemma_place_parts(s: Seq<JsonV>, id: i64)
    requires
        ascending(s),
    ensures
        0 <= place(s, id) <= s.len(),
        forall|i: int| 0 <= i < place(s, id) ==> id_of(#[trigger] s[i]) <= id,
        forall|i: int| place(s, id) <= i < s.len() ==> id_of(#[trigger] s[i]) > id,
    decreases s.len(),
{
    if s.len() > 0 && id_of(s.last()) > id {
        let t = s.drop_last();
        assert(ascending(t)) by {
            assert forall|i: int, j: int| 0 <= i <= j < t.len() implies id_of(#[trigger] t[i])
                <= id_of(#[trigger] t[j]) by {
                assert(t[i] == s[i] && t[j] == s[j]);
            }
        }
        lemma_place_parts(t, id);
        assert forall|i: int| 0 <= i < place(s, id) implies id_of(#[trigger] s[i]) <= id by {
            assert(t[i] == s[i]);
        }
        assert forall|i: int| place(s, id) <= i < s.len() implies id_of(#[trigger] s[i]) > id by {
            if i < t.len() {
                assert(t[i] == s[i]);
            }
        }
    } else if s.len() > 0 {
        assert forall|i: int| 0 <= i < s.len() implies id_of(#[trigger] s[i]) <= id by {
            assert(id_of(s[i]) <= id_of(s[s.len() - 1]));
        }
    }
}

/// Putting messages in order keeps each of them, and their numbers never fall.
pub proof fn sorting_keeps_messages(messages: Seq<JsonV>)
    ensures
        ascending(by_id(messages)),
        by_id(messages).to_multiset() == messages.to_multiset(),
    decreases messages.len(),
{
    broadcast use vstd::seq_lib::group_to_multiset_ensures;

    if messages.len() > 0 {
        let m = messages.last();
        let before = by_id(messages.drop_last());
        sorting_keeps_messages(messages.drop_last());
        lemma_place_parts(before, id_of(m));
        let k = place(before, id_of(m));
        let after = before.insert(k, m);
        assert forall|i: int, j: int| 0 <= i <= j < after.len() implies id_of(#[trigger] after[i])
            <= id_of(#[trigger] after[j]) by {
            let a = if i < k {
                i
            } else {
                i - 1
            };
            let b = if j < k {
                j
            } else {
                j - 1
            };
            if i != k && j != k {
                assert(after[i] == before[a]);
                assert(after[j] == before[b]);
            } else if i == k && j != k {
                assert(after[j] == before[b]);
            } else if i != k {
                assert(after[i] == before[a]);
            }
        }
        assert(messages =~= messages.drop_last().push(m));
        assert(after.to_multiset() == before.to_multiset().insert(m));
        assert(messages.to_multiset() == messages.drop_last().to_multiset().insert(m));
    } else {
        assert(by_id(messages) =~= messages);
    }
}

/// New messages come oldest first, and each lies above the old position.
pub proof fn new_messages_are_above_and_ascending(messages: Seq<JsonV>, position: i64)
    ensures
        ascending(by_id(above(messages, position))),
        forall|i: int|
            0 <= i < by_id(above(messages, position)).len() ==> id_of(
                #[trigger] by_id(above(messages, position))[i],
            ) > position,
{
    broadcast use vstd::seq_lib::group_to_multiset_ensures;

    let fresh = above(messages, position);
    lemma_above(messages, position);
    sorting_keeps_messages(fresh);
    let sorted = by_id(fresh);
    assert forall|i: int| 0 <= i < sorted.len() implies id_of(#[trigger] sorted[i]) > position by {
        assert(sorted.contains(sorted[i]));
        assert(sorted.to_multiset().count(sorted[i]) > 0);
        assert(fresh.to_multiset().count(sorted[i]) > 0);
        assert(fresh.contains(sorted[i]));
        let k = choose|k: int| 0 <= k < fresh.len() && fresh[k] == sorted[i];
        assert(id_of(fresh[k]) > position);
    }
}

// ---- what reading keeps to ----

/// No new message is lost: each one above the position is handed out, and as often as it
/// came; what comes of two pages is what comes of the one and of the other.
pub proof fn no_new_message_is_lost(messages: Seq<JsonV>, more: Seq<JsonV>, position: i64)
    ensures
        forall|i: int|
            0 <= i < messages.len() && id_of(#[trigger] messages[i]) > position ==> by_id(
                above(messages, position),
            ).contains(messages[i]),
        above(messages + more, position) == above(messages, position) + above(more, position),
    decreases more.len(),
{
    let kept = above(messages, position);
    sorting_keeps_messages(kept);
    assert forall|i: int|
        0 <= i < messages.len() && id_of(#[trigger] messages[i]) > position implies by_id(
        kept,
    ).contains(messages[i]) by {
        lemma_above_has(messages, position, i);
        kept.to_multiset_ensures();
        by_id(kept).to_multiset_ensures();
        assert(kept.to_multiset().count(messages[i]) > 0);
    }
    if more.len() == 0 {
        assert(messages + more =~= messages);
        assert(kept + above(more, position) =~= kept);
    } else {
        no_new_message_is_lost(messages, more.drop_last(), position);
        assert((messages + more).drop_last() =~= messages + more.drop_last());
        assert((messages + more).last() == more.last());
        assert(above(messages + more, position) =~= kept + above(more, position));
    }
}

/// A message above the position is among those above it.
proof fn lemma_above_has(messages: Seq<JsonV>, position: i64, i: int)
    requires
        0 <= i < messages.len(),
        id_of(messages[i]) > position,
    ensures
        above(messages, position).contains(messages[i]),
    decreases messages.len(),
{
    let init = messages.drop_last();
    let before = above(init, position);
    if i < init.len() {
        lemma_above_has(init, position, i);
        assert(init[i] == messages[i]);
        let k = choose|k: int| 0 <= k < before.len() && before[k] == messages[i];
        assert(above(messages, position)[k] == messages[i]);
    } else {
        assert(above(messages, position)[before.len() as int] == messages[i]);
    }
}

/// The position moves to a message that was there, or stays: no message that is still to
/// come is passed over by it.
pub proof fn the_position_is_one_that_was_seen(messages: Seq<JsonV>, position: i64)
    ensures
        newest_id(messages, position) == position || exists|i: int|
            0 <= i < messages.len() && id_of(#[trigger] messages[i]) == newest_id(
                messages,
                position,
            ),
        newest_id(Seq::empty(), position) == position,
    decreases messages.len(),
{
    if messages.len() > 0 {
        let init = messages.drop_last();
        the_position_is_one_that_was_seen(init, position);
        let n = newest_id(messages, position);
        if n != position {
            if n == id_of(messages.last()) {
                assert(id_of(messages[messages.len() - 1]) == n);
            } else {
                assert(n == newest_id(init, position));
                let i = choose|i: int| 0 <= i < init.len() && id_of(#[trigger] init[i]) == n;
                assert(messages[i] == init[i]);
            }
        }
    }
}

/// The first reading hands nothing out and starts behind the newest message there is;
/// so what was said before is not repeated.
pub proof fn the_first_reading_starts_behind_all(messages: Seq<JsonV>)
    ensures
        forall|i: int|
            0 <= i < messages.len() ==> id_of(#[trigger] messages[i]) <= newest_id_or_zero(
                messages,
            ),
        messages.len() > 0 ==> exists|i: int|
            0 <= i < messages.len() && id_of(#[trigger] messages[i]) == newest_id_or_zero(messages),
        messages.len() == 0 ==> newest_id_or_zero(messages) == 0,
{
    if messages.len() > 0 {
        position_covers_what_was_seen(messages, id_of(messages[0]));
        the_position_is_one_that_was_seen(messages, id_of(messages[0]));
    }
}

/// The number of a message is read whether it is written as a number or as a text.
pub proof fn the_number_of_a_message_is_read(message: JsonV, n: i64)
    ensures
        message.field("id"@) == Some(crate::json::int_json(n)) ==> id_of(message) == n,
        message.field("id"@) == Some(JsonV::Str(int_text(n as int))) ==> id_of(message) == n,
        message.field("id"@) is None ==> id_of(message) == 0,
        message.field("id"@) == Some(JsonV::Bool(true)) ==> id_of(message) == 1,
        message.field("id"@) == Some(JsonV::Bool(false)) ==> id_of(message) == 0,
{
    crate::json::numbers_are_shown_in_digits(n, Seq::empty());
    crate::adapters::onebot::numbers_are_read_leniently(n);
}

/// The messages of a reply are its list, be it the reply itself or what stands under
/// `data`, `messages` or `items`; only a reply of success is read.
pub proof fn messages_are_read_from_the_list(data: JsonV, s: Seq<JsonV>, status: u16, body: Seq<u8>)
    ensures
        messages_of(JsonV::Array(s)) == s,
        data.field("data"@) == Some(JsonV::Array(s)) ==> messages_of(data) == s,
        data.field("data"@) is None && data.field("messages"@) == Some(JsonV::Array(s))
            ==> messages_of(data) == s,
        data.field("data"@) is None && data.field("messages"@) is None && data.field("items"@)
            == Some(JsonV::Array(s)) ==> messages_of(data) == s,
        status != 200 ==> fetched_of(Some((status, body))) is None,
        status == 200 && json_read(body) == Ok::<JsonV, Text>(data) ==> fetched_of(
            Some((status, body)),
        ) == Some(messages_of(data)),
        status == 200 && json_read(body) is Err ==> fetched_of(Some((status, body))) is None,
        fetched_of(None) is None,
{
}

/// A message is the hub's own where its user is the hub's, and only there.
pub proof fn own_messages_are_told_by_their_user(message: JsonV, user: i64, own: i64)
    ensures
        message.field("user_id"@) == Some(crate::json::int_json(user)) ==> (own_message(
            message,
            Some(own),
        ) <==> user == own),
        !own_message(message, None),
        message.field("user_id"@) is None ==> !own_message(message, Some(own)),
{
    crate::json::numbers_are_shown_in_digits(user, Seq::empty());
}

/// What is to be forwarded to the groups is what follows the prefix, without the blanks
/// around it; a text that does not begin with the prefix, or has nothing behind it, is
/// not forwarded.
pub proof fn what_follows_the_prefix_is_forwarded(rest: Text, content: Text)
    ensures
        trimmed(rest).len() > 0 ==> qq_forward("!q"@ + rest) == Some(trimmed(rest)),
        trimmed(rest).len() == 0 ==> qq_forward("!q"@ + rest) is None,
        !(crate::text::begins(trimmed(content), "!q"@) || crate::text::begins(
            trimmed(content),
            "!Q"@,
        )) ==> qq_forward(content) is None,
{
    reveal_strlit("!q");
    reveal_strlit("!Q");
    crate::text::trimming_behind_a_word("!q"@, rest);
    let t = trimmed(content);
    let p = "!q"@;
    match behind(t, p) {
        Some(r) => {
            crate::text::what_is_behind_follows(t, p);
            let h = t.subrange(0, 2);
            crate::text::small_letters_are_small(h);
            crate::text::small_letters_are_small(p);
            assert(crate::text::ascii_lower(h)[0] == crate::text::ascii_lower(p)[0]);
            assert(crate::text::ascii_lower(h)[1] == crate::text::ascii_lower(p)[1]);
            assert(p[0] == '!' && p[1] == 'q');
            assert(h[0] == '!');
            assert(h[1] == 'q' || h[1] == 'Q');
            if h[1] == 'q' {
                assert(h =~= p);
            } else {
                assert(h =~= "!Q"@);
            }
        },
        None => {},
    }
}

/// A reading that failed changes nothing. The first reading that succeeds hands nothing
/// out and goes behind all that is there; each later one hands out all that is new, in
/// order, and goes behind it. So the position never goes back, and no message that was
/// read is handed out again by the next reading.
pub proof fn a_reading_goes_behind_what_it_read(
    first: ChatroomReader,
    messages: Seq<JsonV>,
    second: ChatroomReader,
    fresh: Seq<JsonV>,
    third: ChatroomReader,
    again: Seq<JsonV>,
)
    requires
        polled(first, Some(messages), second, fresh),
        polled(second, Some(messages), third, again),
    ensures
        second.initialized,
        second.position >= first.position,
        forall|i: int|
            0 <= i < messages.len() ==> id_of(#[trigger] messages[i]) <= second.position,
        !first.initialized ==> fresh.len() == 0,
        first.initialized ==> forall|i: int|
            0 <= i < messages.len() && id_of(#[trigger] messages[i]) > first.position
                ==> fresh.contains(messages[i]),
        forall|i: int| 0 <= i < fresh.len() ==> id_of(#[trigger] fresh[i]) > first.position,
        ascending(fresh),
        again.len() == 0,
        third.position == second.position,
        forall|other: ChatroomReader, none: Seq<JsonV>| #[trigger]
            polled(first, None, other, none) ==> other == first && none.len() == 0,
{
    if first.initialized {
        no_new_message_is_lost(messages, Seq::empty(), first.position);
        new_messages_are_above_and_ascending(messages, first.position);
        position_covers_what_was_seen(messages, first.position);
    } else {
        the_first_reading_starts_behind_all(messages);
    }
    let p = second.position;
    lemma_none_above(messages, p);
    position_covers_what_was_seen(messages, p);
    the_position_is_one_that_was_seen(messages, p);
}

} // verus!
