//! What the HTTP API answers.
//!
//! Reading is open to everyone. Writing needs the configured token, and is refused to
//! everyone where none is configured.

use crate::adapters::forward_api::{
    PostMessage, PostMessageV, PostSource,
};
use crate::json::{
    a_member_is_found, array_view, int_json, items, json_int, json_read, json_str, members,
    object_view, parse_json, Json, JsonV, Number, NumberV,
};
use crate::router::{CommandHandler, CommandInfo, InfoV};
use crate::service::{hub_message, last_of, BridgeService, MessageRecord, RecordV};
use crate::services::commands::CommandStats;
use crate::text::{
    ascii_lower, begins, chars_of, ends, finishes, join3, parse_u64, pieces, same, split, starts,
    text_of, texts, to_ascii_lower, trim, trimmed, u64_value, Text,
};
use vstd::prelude::*;

verus! {

/// How many messages are given where no number is asked for.
pub const RECENT_DEFAULT_LIMIT: usize = 50;

/// The header that opens the API to pages of any site.
pub const CORS_ORIGIN: &'static str = "*";

/// The methods that pages of other sites may use.
pub const CORS_METHODS: &'static str = "GET, POST, OPTIONS";

/// The headers that pages of other sites may send.
pub const CORS_HEADERS: &'static str = "Content-Type, Authorization, X-API-Token";

/// Whether a request only asks what is allowed, which is answered at once without
/// content.
pub fn is_preflight(method: &str) -> (r: bool)
    ensures
        r == (method@ == "OPTIONS"@),
{
    same(method, "OPTIONS")
}

/// The media type that a header names, in small letters and without parameters.
pub open spec fn media_type(header: Text) -> Text {
    ascii_lower(trimmed(pieces(header, ';')[0]))
}

/// Whether a header says that a body is JSON: its media type is that of JSON, or one of
/// an application with the suffix of JSON.
pub open spec fn names_json(header: Option<Text>) -> bool {
    match header {
        Some(h) => media_type(h) == "application/json"@ || (begins(media_type(h), "application/"@)
            && ends(media_type(h), "+json"@)),
        None => false,
    }
}

/// Whether a header says that a body is JSON.
pub fn is_json_type(content_type: Option<&str>) -> (r: bool)
    ensures
        r == names_json(header_held(content_type)),
{
    match content_type {
        Some(h) => {
            proof {
                crate::text::lemma_pieces_nonempty(h@, ';');
            }
            let parts = split(h, ';');
            assert(texts(parts@)[0] == parts@[0]@);
            let kind = to_ascii_lower(trim(parts[0].as_str()).as_str());
            same(kind.as_str(), "application/json") || (starts(kind.as_str(), "application/")
                && finishes(kind.as_str(), "+json"))
        },
        None => false,
    }
}

/// What is said of a body that is not declared to be JSON.
pub const NO_JSON_TYPE: &'static str = "Expected request with `Content-Type: application/json`";

/// An answer of the API.
#[derive(Debug)]
pub struct ApiReply {
    pub status: u16,
    pub body: Json,
}

/// What an [`ApiReply`] holds.
pub struct ApiReplyV {
    pub status: u16,
    pub body: JsonV,
}

impl View for ApiReply {
    type V = ApiReplyV;

    open spec fn view(&self) -> ApiReplyV {
        ApiReplyV { status: self.status, body: self.body@ }
    }
}

/// What an optional text holds.
pub open spec fn header_held(h: Option<&str>) -> Option<Text> {
    match h {
        Some(s) => Some(s@),
        None => None,
    }
}

/// What stands behind `Bearer ` in a header.
pub open spec fn bearer_token(header: Text) -> Option<Text> {
    if begins(header, "Bearer "@) {
        Some(header.subrange("Bearer "@.len() as int, header.len() as int))
    } else {
        None
    }
}

/// Whether writing is allowed: by the header `X-API-Token`, or where there is none by
/// the header `Authorization`.
pub open spec fn may_write(token: Text, api_token: Option<Text>, authorization: Option<Text>) -> bool {
    token.len() > 0 && match api_token {
        Some(t) => t == token,
        None => match authorization {
            Some(h) => bearer_token(h) == Some(token),
            None => false,
        },
    }
}

/// Whether writing is allowed.
pub fn authorized(token: &str, api_token: Option<&str>, authorization: Option<&str>) -> (r: bool)
    ensures
        r == may_write(token@, header_held(api_token), header_held(authorization)),
{
    if token.is_empty() {
        return false;
    }
    match api_token {
        Some(t) => same(t, token),
        None => match authorization {
            Some(h) => {
                if !starts(h, "Bearer ") {
                    return false;
                }
                proof {
                    reveal_strlit("Bearer ");
                }
                let v = chars_of(h);
                let rest = text_of(&v, 7, v.len());
                same(rest.as_str(), token)
            },
            None => false,
        },
    }
}

/// Without a configured token nobody may write, whatever is sent.
pub proof fn without_token_nobody_writes(api_token: Option<Text>, authorization: Option<Text>)
    ensures
        !may_write(Seq::empty(), api_token, authorization),
{
}

/// A number as JSON.
pub open spec fn nat_json(n: u64) -> JsonV {
    JsonV::Num(NumberV::Pos(n))
}

/// A number as JSON.
fn json_nat(n: u64) -> (r: Json)
    ensures
        r@ == nat_json(n),
{
    Json::Num(Number::Pos(n))
}

/// The answer where the hub has stopped.
pub open spec fn stopped_reply() -> ApiReplyV {
    ApiReplyV {
        status: 503,
        body: JsonV::Object(seq![("error"@, JsonV::Str("服务已停止或尚未就绪"@))]),
    }
}

/// The answer where the hub has stopped.
pub fn unavailable() -> (r: ApiReply)
    ensures
        r@ == stopped_reply(),
{
    ApiReply {
        status: 503,
        body: crate::json::object1("error", json_str("服务已停止或尚未就绪")),
    }
}

/// That the hub is alive.
pub open spec fn health_json(version: Text, uptime: u64) -> JsonV {
    JsonV::Object(
        seq![
            ("status"@, JsonV::Str("ok"@)),
            ("version"@, JsonV::Str(version)),
            ("uptime_secs"@, nat_json(uptime)),
        ],
    )
}

/// That the hub is alive.
pub fn health(version: &str, uptime: u64) -> (r: Json)
    ensures
        r@ == health_json(version@, uptime),
{
    broadcast use object_view;

    let parts: Vec<(String, Json)> = vec![
        ("status".to_owned(), json_str("ok")),
        ("version".to_owned(), json_str(version)),
        ("uptime_secs".to_owned(), json_nat(uptime)),
    ];
    assert(members(parts@) =~= health_json(version@, uptime)->Object_0);
    Json::Object(parts)
}

/// Texts as JSON.
pub open spec fn text_items(s: Seq<Text>) -> JsonV {
    JsonV::Array(Seq::new(s.len(), |i: int| JsonV::Str(s[i])))
}

/// Texts as JSON.
fn json_texts(v: &Vec<String>) -> (r: Json)
    ensures
        r@ == text_items(texts(v@)),
{
    broadcast use array_view;

    let mut out: Vec<Json> = Vec::new();
    let mut i: usize = 0;
    while i < v.len()
        invariant
            i <= v@.len(),
            out@.len() == i,
            forall|k: int| 0 <= k < i ==> (#[trigger] out@[k])@ == JsonV::Str(v@[k]@),
        decreases v@.len() - i,
    {
        out.push(json_str(v[i].as_str()));
        i = i + 1;
    }
    assert(items(out@) =~= Seq::new(v@.len(), |i: int| JsonV::Str(texts(v@)[i])));
    Json::Array(out)
}

/// What a handler does, as JSON.
pub open spec fn info_json(info: InfoV) -> JsonV {
    JsonV::Object(
        seq![
            ("name"@, JsonV::Str(info.name)),
            ("aliases"@, text_items(info.aliases)),
            ("trigger"@, JsonV::Str(info.trigger)),
            ("description"@, JsonV::Str(info.description)),
        ],
    )
}

/// What a handler does, as JSON.
fn write_info(info: &CommandInfo) -> (r: Json)
    ensures
        r@ == info_json(info@),
{
    broadcast use object_view;

    let parts: Vec<(String, Json)> = vec![
        ("name".to_owned(), json_str(info.name.as_str())),
        ("aliases".to_owned(), json_texts(&info.aliases)),
        ("trigger".to_owned(), json_str(info.trigger.as_str())),
        ("description".to_owned(), json_str(info.description.as_str())),
    ];
    assert(members(parts@) =~= info_json(info@)->Object_0);
    Json::Object(parts)
}

/// How often each command was answered, as JSON; a command that never was is left
/// out.
pub open spec fn command_counts(c: CommandStats) -> Seq<(Text, JsonV)> {
    (if c.chatroom > 0 {
        seq![("chatroom"@, nat_json(c.chatroom))]
    } else {
        Seq::empty()
    }) + (if c.server > 0 {
        seq![("server"@, nat_json(c.server))]
    } else {
        Seq::empty()
    })
}

/// How often each command was answered, as JSON.
fn write_counts(c: CommandStats) -> (r: Json)
    ensures
        r@ == JsonV::Object(command_counts(c)),
{
    broadcast use object_view;

    let mut parts: Vec<(String, Json)> = Vec::new();
    if c.chatroom > 0 {
        parts.push(("chatroom".to_owned(), json_nat(c.chatroom)));
    }
    if c.server > 0 {
        parts.push(("server".to_owned(), json_nat(c.server)));
    }
    assert(members(parts@) =~= command_counts(c));
    Json::Object(parts)
}

/// The state of the side of the QQ groups.
pub open spec fn onebot_status(s: BridgeService, self_id: i64) -> JsonV {
    JsonV::Object(
        seq![
            ("connected"@, JsonV::Bool(s.server.slot is Some)),
            (
                "self_id"@,
                int_json(
                    if s.server.slot is Some {
                        self_id
                    } else {
                        0
                    },
                ),
            ),
            (
                "stats"@,
                JsonV::Object(
                    seq![
                        ("connections"@, nat_json(s.server.counts.connections)),
                        ("group_messages"@, nat_json(s.server.counts.group_messages)),
                    ],
                ),
            ),
        ],
    )
}

/// The state of the link to the game.
pub open spec fn game_status(s: BridgeService) -> JsonV {
    JsonV::Object(
        seq![
            ("enabled"@, JsonV::Bool(s.chatbridge is Some)),
            ("connected"@, JsonV::Bool(s.game_is_up())),
        ],
    )
}

/// What became of the messages of the groups.
pub open spec fn forwarder_status(s: BridgeService) -> JsonV {
    JsonV::Object(
        seq![
            ("forwarded"@, nat_json(s.forwarder.counts.forwarded)),
            ("skipped_duplicate"@, nat_json(s.forwarder.counts.skipped_duplicate)),
            ("failed"@, nat_json(s.forwarder.counts.failed)),
        ],
    )
}

/// What became of the players' comings and goings.
pub open spec fn tracker_status(s: BridgeService) -> JsonV {
    JsonV::Object(
        seq![
            ("online"@, nat_json(s.tracker.counts.online)),
            ("offline"@, nat_json(s.tracker.counts.offline)),
            ("failed"@, nat_json(s.tracker.counts.failed)),
        ],
    )
}

/// The state that is saved. The token itself is not in it.
pub open spec fn saved_status(s: BridgeService) -> JsonV {
    JsonV::Object(
        seq![
            ("forwarded_count"@, nat_json(s.state@.forwarded.len() as u64)),
            ("last_read_message_id"@, int_json(s.state@.last_read)),
            ("has_refresh_token"@, JsonV::Bool(s.state@.token.len() > 0)),
        ],
    )
}

/// What the handlers do.
pub open spec fn capabilities_json(s: BridgeService) -> JsonV {
    JsonV::Array(
        Seq::new(s.router.handlers@.len(), |i: int| info_json(s.router.handlers@[i].about())),
    )
}

/// The state of the whole hub.
pub open spec fn status_json(s: BridgeService, self_id: i64, version: Text, uptime: u64) -> JsonV {
    JsonV::Object(
        seq![
            ("version"@, JsonV::Str(version)),
            ("uptime_secs"@, nat_json(uptime)),
            ("onebot"@, onebot_status(s, self_id)),
            ("chatbridge"@, game_status(s)),
            ("forwarder"@, forwarder_status(s)),
            ("tracker"@, tracker_status(s)),
            ("commands"@, JsonV::Object(command_counts(s.commands.counts))),
            ("state"@, saved_status(s)),
            ("recent_messages"@, nat_json(s.recent@.items.len() as u64)),
            ("capabilities"@, capabilities_json(s)),
        ],
    )
}

/// The state of the side of the QQ groups.
fn write_onebot(s: &BridgeService, self_id: i64) -> (r: Json)
    ensures
        r@ == onebot_status(*s, self_id),
{
    broadcast use object_view;

    let stats = s.server().stats();
    let counts: Vec<(String, Json)> = vec![
        ("connections".to_owned(), json_nat(stats.connections)),
        ("group_messages".to_owned(), json_nat(stats.group_messages)),
    ];
    assert(members(counts@) =~= seq![
        ("connections"@, nat_json(s.server.counts.connections)),
        ("group_messages"@, nat_json(s.server.counts.group_messages)),
    ]);
    let connected = s.server().connection().is_some();
    let parts: Vec<(String, Json)> = vec![
        ("connected".to_owned(), Json::Bool(connected)),
        (
            "self_id".to_owned(),
            json_int(
                if connected {
                    self_id
                } else {
                    0
                },
            ),
        ),
        ("stats".to_owned(), Json::Object(counts)),
    ];
    assert(members(parts@) =~= onebot_status(*s, self_id)->Object_0);
    Json::Object(parts)
}

/// What the handlers do.
fn write_capabilities(s: &BridgeService) -> (r: Json)
    ensures
        r@ == capabilities_json(*s),
{
    broadcast use array_view;

    let infos = s.capabilities();
    let mut out: Vec<Json> = Vec::new();
    let mut i: usize = 0;
    while i < infos.len()
        invariant
            i <= infos@.len(),
            infos@.len() == s.router.handlers@.len(),
            forall|k: int|
                0 <= k < infos@.len() ==> (#[trigger] infos@[k])@ == s.router.handlers@[k].about(),
            out@.len() == i,
            forall|k: int|
                0 <= k < i ==> (#[trigger] out@[k])@ == info_json(s.router.handlers@[k].about()),
        decreases infos@.len() - i,
    {
        out.push(write_info(&infos[i]));
        i = i + 1;
    }
    assert(items(out@) =~= capabilities_json(*s)->Array_0);
    Json::Array(out)
}

/// The state of the whole hub. `self_id` is the account that the QQ connection in use
/// has told.
pub fn status(s: &BridgeService, self_id: i64, version: &str, uptime: u64) -> (r: Json)
    ensures
        r@ == status_json(*s, self_id, version@, uptime),
{
    broadcast use object_view;

    let game: Vec<(String, Json)> = vec![
        ("enabled".to_owned(), Json::Bool(s.chatbridge_enabled())),
        ("connected".to_owned(), Json::Bool(s.chatbridge_connected())),
    ];
    assert(members(game@) =~= game_status(*s)->Object_0);
    let f = s.forwarder_stats();
    let forwarder: Vec<(String, Json)> = vec![
        ("forwarded".to_owned(), json_nat(f.forwarded)),
        ("skipped_duplicate".to_owned(), json_nat(f.skipped_duplicate)),
        ("failed".to_owned(), json_nat(f.failed)),
    ];
    assert(members(forwarder@) =~= forwarder_status(*s)->Object_0);
    let t = s.tracker_stats();
    let tracker: Vec<(String, Json)> = vec![
        ("online".to_owned(), json_nat(t.online)),
        ("offline".to_owned(), json_nat(t.offline)),
        ("failed".to_owned(), json_nat(t.failed)),
    ];
    assert(members(tracker@) =~= tracker_status(*s)->Object_0);
    let snapshot = s.state().snapshot();
    let saved: Vec<(String, Json)> = vec![
        ("forwarded_count".to_owned(), json_nat(snapshot.forwarded_count as u64)),
        ("last_read_message_id".to_owned(), json_int(snapshot.last_read_message_id)),
        ("has_refresh_token".to_owned(), Json::Bool(snapshot.has_refresh_token)),
    ];
    assert(members(saved@) =~= saved_status(*s)->Object_0);
    let parts: Vec<(String, Json)> = vec![
        ("version".to_owned(), json_str(version)),
        ("uptime_secs".to_owned(), json_nat(uptime)),
        ("onebot".to_owned(), write_onebot(s, self_id)),
        ("chatbridge".to_owned(), Json::Object(game)),
        ("forwarder".to_owned(), Json::Object(forwarder)),
        ("tracker".to_owned(), Json::Object(tracker)),
        ("commands".to_owned(), write_counts(s.commands.counts)),
        ("state".to_owned(), Json::Object(saved)),
        ("recent_messages".to_owned(), json_nat(s.recent_log().len() as u64)),
        ("capabilities".to_owned(), write_capabilities(s)),
    ];
    assert(members(parts@) =~= status_json(*s, self_id, version@, uptime)->Object_0);
    Json::Object(parts)
}

/// The state of the hub tells nothing of its tokens but whether there is a refresh
/// token: two hubs that differ only in their tokens have the same state to show.
pub proof fn the_status_shows_no_token(
    one: BridgeService,
    other: BridgeService,
    self_id: i64,
    version: Text,
    uptime: u64,
)
    requires
        one.server.slot == other.server.slot,
        one.server.counts == other.server.counts,
        one.chatbridge is Some == other.chatbridge is Some,
        one.game_is_up() == other.game_is_up(),
        one.forwarder.counts == other.forwarder.counts,
        one.tracker.counts == other.tracker.counts,
        one.commands.counts == other.commands.counts,
        one.state@.forwarded == other.state@.forwarded,
        one.state@.last_read == other.state@.last_read,
        one.state@.token.len() == 0 <==> other.state@.token.len() == 0,
        one.recent@ == other.recent@,
        one.router == other.router,
    ensures
        status_json(one, self_id, version, uptime) == status_json(other, self_id, version, uptime),
{
}

/// A remembered message as JSON.
pub open spec fn record_json(r: RecordV) -> JsonV {
    JsonV::Object(
        seq![
            ("id"@, nat_json(r.id)),
            ("timestamp"@, int_json(r.timestamp)),
            ("source"@, JsonV::Str(r.source)),
            ("from"@, JsonV::Str(r.from)),
            ("text"@, JsonV::Str(r.text)),
        ],
    )
}

/// A remembered message as JSON.
fn write_record(r: &MessageRecord) -> (j: Json)
    ensures
        j@ == record_json(r@),
{
    broadcast use object_view;

    let parts: Vec<(String, Json)> = vec![
        ("id".to_owned(), json_nat(r.id)),
        ("timestamp".to_owned(), json_int(r.timestamp)),
        ("source".to_owned(), json_str(r.source.as_str())),
        ("from".to_owned(), json_str(r.from.as_str())),
        ("text".to_owned(), json_str(r.text.as_str())),
    ];
    assert(members(parts@) =~= record_json(r@)->Object_0);
    Json::Object(parts)
}

/// How many messages a request asks for.
pub open spec fn limit_in(param: Option<Text>) -> nat {
    match param {
        Some(t) => match u64_value(t) {
            Some(n) if n <= usize::MAX => n as nat,
            _ => RECENT_DEFAULT_LIMIT as nat,
        },
        None => RECENT_DEFAULT_LIMIT as nat,
    }
}

/// The messages that came last, as JSON.
pub open spec fn messages_json(s: BridgeService, limit: nat) -> JsonV {
    let last = last_of(s.recent@.items, limit);
    JsonV::Object(
        seq![("messages"@, JsonV::Array(Seq::new(last.len(), |i: int| record_json(last[i]))))],
    )
}

/// The messages that came last: as many as the parameter `limit` says, or
/// [`RECENT_DEFAULT_LIMIT`].
pub fn messages(s: &BridgeService, limit: Option<&str>) -> (r: Json)
    ensures
        r@ == messages_json(*s, limit_in(header_held(limit))),
{
    broadcast use array_view;

    let count: usize = match limit {
        Some(t) => match parse_u64(t) {
            Some(n) => if n <= usize::MAX as u64 {
                n as usize
            } else {
                RECENT_DEFAULT_LIMIT
            },
            None => RECENT_DEFAULT_LIMIT,
        },
        None => RECENT_DEFAULT_LIMIT,
    };
    let records = s.recent_log().latest(count);
    let ghost last = last_of(s.recent@.items, count as nat);
    let mut out: Vec<Json> = Vec::new();
    let mut i: usize = 0;
    while i < records.len()
        invariant
            i <= records@.len(),
            crate::service::records_held(records@) == last,
            out@.len() == i,
            forall|k: int| 0 <= k < i ==> (#[trigger] out@[k])@ == record_json(last[k]),
        decreases records@.len() - i,
    {
        assert(last[i as int] == records@[i as int]@);
        out.push(write_record(&records[i]));
        i = i + 1;
    }
    assert(items(out@) =~= Seq::new(last.len(), |i: int| record_json(last[i])));
    crate::json::object1("messages", Json::Array(out))
}

/// A message to send on.
#[derive(Debug)]
pub enum Relay {
    /// To a QQ group, or to all.
    Qq { group_id: Option<i64>, text: String },
    Game { text: String },
    Chatroom { text: String },
}

/// What a [`Relay`] holds.
pub enum RelayV {
    Qq { group_id: Option<i64>, text: Text },
    Game { text: Text },
    Chatroom { text: Text },
}

impl View for Relay {
    type V = RelayV;

    open spec fn view(&self) -> RelayV {
        match self {
            Relay::Qq { group_id, text } => RelayV::Qq { group_id: *group_id, text: text@ },
            Relay::Game { text } => RelayV::Game { text: text@ },
            Relay::Chatroom { text } => RelayV::Chatroom { text: text@ },
        }
    }
}

/// An answer that refuses a request.
pub open spec fn refusal(status: u16, error: Text) -> ApiReplyV {
    ApiReplyV {
        status,
        body: JsonV::Object(seq![("ok"@, JsonV::Bool(false)), ("error"@, JsonV::Str(error))]),
    }
}

/// What the chatroom is told for one who may write.
pub open spec fn relayed_post(text: Text, millis: u64, seq: u64) -> PostMessageV {
    hub_message(PostSource::Game, "hub"@, millis, seq, text, ""@, "api"@)
}

/// The message that writes what the API was asked to relay to the chatroom.
pub fn relay_post(s: &mut BridgeService, text: &str, millis: u64) -> (r: Option<PostMessage>)
    requires
        old(s).game_seq < u64::MAX,
    ensures
        if old(s).forward_api.is_configured() {
            &&& r is Some
            &&& r->0@ == hub_message(
                PostSource::Game,
                "hub"@,
                millis,
                (old(s).game_seq + 1) as u64,
                text@,
                ""@,
                "api"@,
            )
            &&& final(s).game_seq == old(s).game_seq + 1
        } else {
            r is None && final(s).game_seq == old(s).game_seq
        },
        *final(s) == (BridgeService { game_seq: final(s).game_seq, ..*old(s) }),
        r matches Some(m) ==> m@ == relayed_post(text@, millis, final(s).game_seq),
{
    proof {
        reveal_strlit("api");
        reveal_strlit("qq");
        assert("api"@.len() == 3);
    }
    s.chatroom_post("api", text, "", "api", millis)
}

/// What is said where writing is not allowed.
pub const NEEDS_TOKEN: &'static str = "写接口需要 api.access_token（Authorization: Bearer <token> 或 X-API-Token）";

/// What is said of a request that cannot be read.
pub const BAD_BODY: &'static str = "请求体无效";

/// What is said of a request without a text.
pub const EMPTY_TEXT: &'static str = "text 不能为空";

/// A member that is an integer, null or missing.
pub open spec fn group_in(j: JsonV) -> Option<Option<i64>> {
    match j.field("group_id"@) {
        None => Some(None),
        Some(JsonV::Null) => Some(None),
        Some(v) => match v.as_int() {
            Some(n) => Some(Some(n)),
            None => None,
        },
    }
}

/// The parts of a request: where to, what and which group.
pub open spec fn relay_parts(body: Seq<u8>) -> Option<(Text, Text, Option<i64>)> {
    match json_read(body) {
        Ok(j) => match (j.field("target"@), j.field("text"@), group_in(j)) {
            (Some(target), Some(text), Some(group_id)) => match (target.as_text(), text.as_text()) {
                (Some(target), Some(text)) => Some((target, text, group_id)),
                _ => None,
            },
            _ => None,
        },
        Err(_) => None,
    }
}

/// What a request to send a message comes to.
pub open spec fn relay_of(allowed: bool, body: Seq<u8>) -> Result<RelayV, ApiReplyV> {
    if !allowed {
        Err(refusal(403, NEEDS_TOKEN@))
    } else {
        match relay_parts(body) {
            None => Err(refusal(400, BAD_BODY@)),
            Some((target, text, group_id)) => if trimmed(text).len() == 0 {
                Err(refusal(400, EMPTY_TEXT@))
            } else if target == "qq"@ {
                Ok(RelayV::Qq { group_id, text })
            } else if target == "game"@ {
                Ok(RelayV::Game { text })
            } else if target == "chatroom"@ {
                Ok(RelayV::Chatroom { text })
            } else {
                Err(
                    refusal(
                        400,
                        "未知 target: "@ + target + "（qq / game / chatroom）"@,
                    ),
                )
            },
        }
    }
}

/// An answer that refuses a request.
fn refuse(status: u16, error: &str) -> (r: ApiReply)
    ensures
        r@ == refusal(status, error@),
{
    broadcast use object_view;

    let parts: Vec<(String, Json)> = vec![
        ("ok".to_owned(), Json::Bool(false)),
        ("error".to_owned(), json_str(error)),
    ];
    assert(members(parts@) =~= refusal(status, error@).body->Object_0);
    ApiReply { status, body: Json::Object(parts) }
}

/// A text member that must be there.
fn read_text(j: &Json, key: &str) -> (r: Option<String>)
    ensures
        match r {
            Some(t) => j@.field(key@) is Some && (j@.field(key@)->0).as_text() == Some(t@),
            None => j@.field(key@) is None || (j@.field(key@)->0).as_text() is None,
        },
{
    match j.get(key) {
        Some(v) => match v.as_str() {
            Some(t) => Some(t.clone()),
            None => None,
        },
        None => None,
    }
}

/// The parts of a request: where to, what and which group.
fn read_relay(body: &[u8]) -> (r: Option<(String, String, Option<i64>)>)
    ensures
        match r {
            Some(p) => relay_parts(body@) == Some((p.0@, p.1@, p.2)),
            None => relay_parts(body@) is None,
        },
{
    let j = match parse_json(body) {
        Ok(j) => j,
        Err(_) => return None,
    };
    let target = match read_text(&j, "target") {
        Some(t) => t,
        None => return None,
    };
    let text = match read_text(&j, "text") {
        Some(t) => t,
        None => return None,
    };
    let group_id = match j.get("group_id") {
        None => None,
        Some(v) => match v {
            Json::Null => None,
            _ => match v.as_i64() {
                Some(n) => Some(n),
                None => return None,
            },
        },
    };
    Some((target, text, group_id))
}

/// What a request to send a message comes to: the message, or a refusal.
pub fn relay(
    token: &str,
    api_token: Option<&str>,
    authorization: Option<&str>,
    body: &[u8],
) -> (r: Result<Relay, ApiReply>)
    ensures
        match r {
            Ok(m) => relay_of(
                may_write(token@, header_held(api_token), header_held(authorization)),
                body@,
            ) == Ok::<RelayV, ApiReplyV>(m@),
            Err(e) => relay_of(
                may_write(token@, header_held(api_token), header_held(authorization)),
                body@,
            ) == Err::<RelayV, ApiReplyV>(e@),
        },
{
    if !authorized(token, api_token, authorization) {
        return Err(refuse(403, NEEDS_TOKEN));
    }
    let (target, text, group_id) = match read_relay(body) {
        Some(p) => p,
        None => return Err(refuse(400, BAD_BODY)),
    };
    let bare = trim(text.as_str());
    if bare.as_str().is_empty() {
        return Err(refuse(400, EMPTY_TEXT));
    }
    proof {
        reveal_strlit("qq");
        reveal_strlit("game");
        reveal_strlit("chatroom");
    }
    if same(target.as_str(), "qq") {
        Ok(Relay::Qq { group_id, text })
    } else if same(target.as_str(), "game") {
        Ok(Relay::Game { text })
    } else if same(target.as_str(), "chatroom") {
        Ok(Relay::Chatroom { text })
    } else {
        let error = join3("未知 target: ", target.as_str(), "（qq / game / chatroom）");
        Err(refuse(400, error.as_str()))
    }
}

/// The answer once a message was sent, or could not be: that is no error of the
/// request.
pub fn relayed(sent: bool) -> (r: ApiReply)
    ensures
        r@ == (ApiReplyV {
            status: 200,
            body: JsonV::Object(seq![("ok"@, JsonV::Bool(sent))]),
        }),
{
    ApiReply { status: 200, body: crate::json::object1("ok", Json::Bool(sent)) }
}

/// A refused request sends nothing: whoever may not write is told so, whatever the
/// request holds.
pub proof fn a_refused_request_is_told_so(body: Seq<u8>)
    ensures
        relay_of(false, body) == Err::<RelayV, ApiReplyV>(refusal(403, NEEDS_TOKEN@)),
{
}

// ---- what the interface keeps to ----

/// Who may write is told by the token: the one that is configured, in the header of its
/// own or else behind `Bearer `; a wrong one in the first is not made good by the second.
pub proof fn only_the_token_may_write(
    token: Text,
    api_token: Option<Text>,
    authorization: Option<Text>,
)
    requires
        token.len() > 0,
    ensures
        may_write(token, Some(token), authorization),
        may_write(token, None, Some("Bearer "@ + token)),
        !may_write(token, None, None),
        (api_token matches Some(t) ==> t != token ==> !may_write(token, api_token, authorization)),
        (authorization matches Some(h) ==> h != "Bearer "@ + token ==> !may_write(
            token,
            None,
            authorization,
        )),
{
    let h = "Bearer "@ + token;
    let n = "Bearer "@.len() as int;
    assert(h.subrange(0, n) =~= "Bearer "@);
    assert(h.subrange(n, h.len() as int) =~= token);
    match authorization {
        Some(g) => {
            if begins(g, "Bearer "@) && g.subrange(n, g.len() as int) == token {
                assert(g =~= g.subrange(0, n) + g.subrange(n, g.len() as int));
            }
        },
        None => {},
    }
}

/// What is to be said is said as it stands, where it is to be said: a text for the groups
/// goes to them, to the one named or to all; one for the game or the chatroom goes there.
/// Nothing is said without leave, without a text or to an unknown place.
pub proof fn what_is_relayed_is_what_was_given(
    body: Seq<u8>,
    j: JsonV,
    target: Text,
    text: Text,
    group: i64,
)
    requires
        json_read(body) == Ok::<JsonV, Text>(j),
        j.field("target"@) == Some(JsonV::Str(target)),
        j.field("text"@) == Some(JsonV::Str(text)),
        trimmed(text).len() > 0,
    ensures
        target == "qq"@ && j.field("group_id"@) == Some(int_json(group)) ==> relay_of(true, body)
            == Ok::<RelayV, ApiReplyV>(RelayV::Qq { group_id: Some(group), text }),
        target == "qq"@ && j.field("group_id"@) is None ==> relay_of(true, body) == Ok::<
            RelayV,
            ApiReplyV,
        >(RelayV::Qq { group_id: None, text }),
        target == "game"@ && j.field("group_id"@) is None ==> relay_of(true, body) == Ok::<
            RelayV,
            ApiReplyV,
        >(RelayV::Game { text }),
        target == "chatroom"@ && j.field("group_id"@) is None ==> relay_of(true, body) == Ok::<
            RelayV,
            ApiReplyV,
        >(RelayV::Chatroom { text }),
        target != "qq"@ && target != "game"@ && target != "chatroom"@ ==> relay_of(true, body)
            is Err,
        relay_of(false, body) is Err,
{
    reveal_strlit("qq");
    reveal_strlit("game");
    reveal_strlit("chatroom");
    assert("qq"@.len() == 2 && "game"@.len() == 4 && "chatroom"@.len() == 8);
    crate::json::numbers_are_shown_in_digits(group, Seq::empty());
}

/// A request without a text, or whose text is blank, or that cannot be read, is refused.
pub proof fn nothing_is_relayed_without_text(body: Seq<u8>)
    requires
        match json_read(body) {
            Ok(j) => match j.field("text"@) {
                Some(JsonV::Str(t)) => trimmed(t).len() == 0,
                _ => true,
            },
            Err(_) => true,
        },
    ensures
        (relay_of(true, body) matches Err(r) && r.status == 400),
{
}

/// A record of the log is told with its number, its time, its source, its author and its
/// text, each under its name.
pub proof fn a_record_is_told_whole(r: RecordV)
    ensures
        record_json(r).field("id"@) == Some(nat_json(r.id)),
        record_json(r).field("timestamp"@) == Some(int_json(r.timestamp)),
        record_json(r).field("source"@) == Some(JsonV::Str(r.source)),
        record_json(r).field("from"@) == Some(JsonV::Str(r.from)),
        record_json(r).field("text"@) == Some(JsonV::Str(r.text)),
{
    reveal_strlit("id");
    reveal_strlit("timestamp");
    reveal_strlit("source");
    reveal_strlit("from");
    reveal_strlit("text");
    match record_json(r) {
        JsonV::Object(m) => {
            assert(m[0].0 == "id"@ && m[1].0 == "timestamp"@ && m[2].0 == "source"@ && m[3].0
                == "from"@ && m[4].0 == "text"@);
            assert("id"@.len() == 2 && "timestamp"@.len() == 9 && "source"@.len() == 6
                && "from"@.len() == 4 && "text"@.len() == 4);
            assert("from"@[0] != "text"@[0]);
            a_member_is_found(m, 0);
            a_member_is_found(m, 1);
            a_member_is_found(m, 2);
            a_member_is_found(m, 3);
            a_member_is_found(m, 4);
        },
        _ => {},
    }
}

/// The messages that are told are the last ones of the log in their order, as many as
/// asked for or all there are; the number asked for is read in digits, and without one
/// it is fifty.
pub proof fn the_last_messages_are_told(s: BridgeService, limit: nat, i: int, n: u64)
    ensures
        messages_json(s, limit).field("messages"@) matches Some(JsonV::Array(told)) && {
            &&& told.len() == if s.recent@.items.len() < limit {
                s.recent@.items.len()
            } else {
                limit
            }
            &&& 0 <= i < told.len() ==> told[i] == record_json(
                s.recent@.items[s.recent@.items.len() - told.len() + i],
            )
        },
        n <= usize::MAX ==> limit_in(Some(crate::text::decimal(n as nat))) == n,
        limit_in(None) == 50,
{
    match messages_json(s, limit) {
        JsonV::Object(m) => {
            a_member_is_found(m, 0);
        },
        _ => {},
    }
    crate::text::a_number_is_read_back(n as int);
}

/// What is told of a command: its name, its other names, what calls it and what it does.
pub proof fn a_command_is_told_whole(info: InfoV, i: int)
    ensures
        info_json(info).field("name"@) == Some(JsonV::Str(info.name)),
        info_json(info).field("trigger"@) == Some(JsonV::Str(info.trigger)),
        info_json(info).field("description"@) == Some(JsonV::Str(info.description)),
        info_json(info).field("aliases"@) matches Some(JsonV::Array(a)) && a.len()
            == info.aliases.len() && (0 <= i < a.len() ==> a[i] == JsonV::Str(info.aliases[i])),
{
    reveal_strlit("name");
    reveal_strlit("aliases");
    reveal_strlit("trigger");
    reveal_strlit("description");
    match info_json(info) {
        JsonV::Object(m) => {
            assert(m[0].0 == "name"@ && m[1].0 == "aliases"@ && m[2].0 == "trigger"@ && m[3].0
                == "description"@);
            assert("name"@.len() == 4 && "aliases"@.len() == 7 && "trigger"@.len() == 7
                && "description"@.len() == 11);
            assert("aliases"@[0] != "trigger"@[0]);
            a_member_is_found(m, 0);
            a_member_is_found(m, 1);
            a_member_is_found(m, 2);
            a_member_is_found(m, 3);
        },
        _ => {},
    }
}

/// The status tells of each part under its name: the connections as they are, what was
/// counted, what is saved and how many messages are logged.
pub proof fn the_status_tells_of_each_part(
    s: BridgeService,
    self_id: i64,
    version: Text,
    uptime: u64,
)
    ensures
        ({
            let j = status_json(s, self_id, version, uptime);
            &&& j.field("version"@) == Some(JsonV::Str(version))
            &&& j.field("uptime_secs"@) == Some(nat_json(uptime))
            &&& j.field("onebot"@) matches Some(o) && {
                &&& o.field("connected"@) == Some(JsonV::Bool(s.server.slot is Some))
                &&& s.server.slot is Some ==> o.field("self_id"@) == Some(int_json(self_id))
                &&& s.server.slot is None ==> o.field("self_id"@) == Some(int_json(0))
            }
            &&& j.field("chatbridge"@) matches Some(g) && {
                &&& g.field("enabled"@) == Some(JsonV::Bool(s.chatbridge is Some))
                &&& g.field("connected"@) == Some(JsonV::Bool(s.game_is_up()))
            }
            &&& j.field("forwarder"@) matches Some(f) && {
                &&& f.field("forwarded"@) == Some(nat_json(s.forwarder.counts.forwarded))
                &&& f.field("skipped_duplicate"@) == Some(
                    nat_json(s.forwarder.counts.skipped_duplicate),
                )
                &&& f.field("failed"@) == Some(nat_json(s.forwarder.counts.failed))
            }
            &&& j.field("tracker"@) matches Some(t) && {
                &&& t.field("online"@) == Some(nat_json(s.tracker.counts.online))
                &&& t.field("offline"@) == Some(nat_json(s.tracker.counts.offline))
                &&& t.field("failed"@) == Some(nat_json(s.tracker.counts.failed))
            }
            &&& j.field("state"@) matches Some(k) && {
                &&& k.field("last_read_message_id"@) == Some(int_json(s.state@.last_read))
                &&& k.field("has_refresh_token"@) == Some(JsonV::Bool(s.state@.token.len() > 0))
            }
            &&& j.field("recent_messages"@) == Some(nat_json(s.recent@.items.len() as u64))
        }),
{
    lemma_status_fields(s, self_id, version, uptime);
    lemma_status_parts(s, self_id);
}

/// The parts of the status are found under their names.
proof fn lemma_status_fields(s: BridgeService, self_id: i64, version: Text, uptime: u64)
    ensures
        ({
            let j = status_json(s, self_id, version, uptime);
            &&& j.field("version"@) == Some(JsonV::Str(version))
            &&& j.field("uptime_secs"@) == Some(nat_json(uptime))
            &&& j.field("onebot"@) == Some(onebot_status(s, self_id))
            &&& j.field("chatbridge"@) == Some(game_status(s))
            &&& j.field("forwarder"@) == Some(forwarder_status(s))
            &&& j.field("tracker"@) == Some(tracker_status(s))
            &&& j.field("state"@) == Some(saved_status(s))
            &&& j.field("recent_messages"@) == Some(nat_json(s.recent@.items.len() as u64))
        }),
{
    reveal_strlit("version");
    reveal_strlit("uptime_secs");
    reveal_strlit("onebot");
    reveal_strlit("chatbridge");
    reveal_strlit("forwarder");
    reveal_strlit("tracker");
    reveal_strlit("commands");
    reveal_strlit("state");
    reveal_strlit("recent_messages");
    match status_json(s, self_id, version, uptime) {
        JsonV::Object(m) => {
            assert(m[0].0 == "version"@ && m[1].0 == "uptime_secs"@ && m[2].0 == "onebot"@
                && m[3].0 == "chatbridge"@ && m[4].0 == "forwarder"@ && m[5].0 == "tracker"@
                && m[6].0 == "commands"@ && m[7].0 == "state"@ && m[8].0 == "recent_messages"@);
            assert("version"@.len() == 7 && "uptime_secs"@.len() == 11 && "onebot"@.len() == 6
                && "chatbridge"@.len() == 10 && "forwarder"@.len() == 9 && "tracker"@.len() == 7
                && "commands"@.len() == 8 && "state"@.len() == 5 && "recent_messages"@.len()
                == 15);
            assert("version"@[0] != "tracker"@[0]);
            a_member_is_found(m, 0);
            a_member_is_found(m, 1);
            a_member_is_found(m, 2);
            a_member_is_found(m, 3);
            a_member_is_found(m, 4);
            a_member_is_found(m, 5);
            a_member_is_found(m, 7);
            a_member_is_found(m, 8);
        },
        _ => {},
    }
}

/// What the parts of the status tell is found under its name.
proof fn lemma_status_parts(s: BridgeService, self_id: i64)
    ensures
        onebot_status(s, self_id).field("connected"@) == Some(JsonV::Bool(s.server.slot is Some)),
        onebot_status(s, self_id).field("self_id"@) == Some(
            int_json(
                if s.server.slot is Some {
                    self_id
                } else {
                    0
                },
            ),
        ),
        game_status(s).field("enabled"@) == Some(JsonV::Bool(s.chatbridge is Some)),
        game_status(s).field("connected"@) == Some(JsonV::Bool(s.game_is_up())),
        forwarder_status(s).field("forwarded"@) == Some(nat_json(s.forwarder.counts.forwarded)),
        forwarder_status(s).field("skipped_duplicate"@) == Some(
            nat_json(s.forwarder.counts.skipped_duplicate),
        ),
        forwarder_status(s).field("failed"@) == Some(nat_json(s.forwarder.counts.failed)),
        tracker_status(s).field("online"@) == Some(nat_json(s.tracker.counts.online)),
        tracker_status(s).field("offline"@) == Some(nat_json(s.tracker.counts.offline)),
        tracker_status(s).field("failed"@) == Some(nat_json(s.tracker.counts.failed)),
        saved_status(s).field("last_read_message_id"@) == Some(int_json(s.state@.last_read)),
        saved_status(s).field("has_refresh_token"@) == Some(JsonV::Bool(s.state@.token.len() > 0)),
{
    reveal_strlit("connected");
    reveal_strlit("self_id");
    reveal_strlit("enabled");
    reveal_strlit("forwarded");
    reveal_strlit("skipped_duplicate");
    reveal_strlit("failed");
    reveal_strlit("online");
    reveal_strlit("offline");
    reveal_strlit("forwarded_count");
    reveal_strlit("last_read_message_id");
    reveal_strlit("has_refresh_token");
    assert("connected"@.len() == 9 && "self_id"@.len() == 7 && "enabled"@.len() == 7);
    assert("forwarded"@.len() == 9 && "skipped_duplicate"@.len() == 17 && "failed"@.len() == 6);
    assert("online"@.len() == 6 && "offline"@.len() == 7 && "online"@[0] != "failed"@[0]);
    assert("forwarded_count"@.len() == 15 && "last_read_message_id"@.len() == 20
        && "has_refresh_token"@.len() == 17);
    match onebot_status(s, self_id) {
        JsonV::Object(m) => {
            assert(m[0].0 == "connected"@ && m[1].0 == "self_id"@);
            a_member_is_found(m, 0);
            a_member_is_found(m, 1);
        },
        _ => {},
    }
    match game_status(s) {
        JsonV::Object(m) => {
            assert(m[0].0 == "enabled"@ && m[1].0 == "connected"@);
            a_member_is_found(m, 0);
            a_member_is_found(m, 1);
        },
        _ => {},
    }
    match forwarder_status(s) {
        JsonV::Object(m) => {
            assert(m[0].0 == "forwarded"@ && m[1].0 == "skipped_duplicate"@ && m[2].0
                == "failed"@);
            a_member_is_found(m, 0);
            a_member_is_found(m, 1);
            a_member_is_found(m, 2);
        },
        _ => {},
    }
    match tracker_status(s) {
        JsonV::Object(m) => {
            assert(m[0].0 == "online"@ && m[1].0 == "offline"@ && m[2].0 == "failed"@);
            a_member_is_found(m, 0);
            a_member_is_found(m, 1);
            a_member_is_found(m, 2);
        },
        _ => {},
    }
    match saved_status(s) {
        JsonV::Object(m) => {
            assert(m[0].0 == "forwarded_count"@ && m[1].0 == "last_read_message_id"@ && m[2].0
                == "has_refresh_token"@);
            a_member_is_found(m, 1);
            a_member_is_found(m, 2);
        },
        _ => {},
    }
}

/// How often each command was called is told under its name; one that was never called
/// is left out.
pub proof fn calls_are_told_by_command(c: CommandStats)
    ensures
        ({
            let j = JsonV::Object(command_counts(c));
            &&& c.chatroom > 0 ==> j.field("chatroom"@) == Some(nat_json(c.chatroom))
            &&& c.server > 0 ==> j.field("server"@) == Some(nat_json(c.server))
            &&& c.chatroom == 0 ==> j.field("chatroom"@) is None
            &&& c.server == 0 ==> j.field("server"@) is None
        }),
{
    reveal_strlit("chatroom");
    reveal_strlit("server");
    assert("chatroom"@.len() == 8 && "server"@.len() == 6);
    let m = command_counts(c);
    crate::json::the_first_member_is_found(m, "chatroom"@);
    crate::json::the_first_member_is_found(m, "server"@);
    if c.chatroom > 0 {
        assert(m[0] == ("chatroom"@, nat_json(c.chatroom)));
        a_member_is_found(m, 0);
    }
    if c.server > 0 {
        let i = if c.chatroom > 0 {
            1int
        } else {
            0
        };
        assert(m[i] == ("server"@, nat_json(c.server)));
        a_member_is_found(m, i);
    }
}

/// A body is JSON where its header names that kind, whatever parameters follow and in
/// whatever case.
pub proof fn json_is_told_by_its_header(params: Text, header: Text)
    ensures
        names_json(Some("application/json"@)),
        names_json(Some("application/json"@ + seq![';'] + params)),
        !names_json(None),
        names_json(Some("text/plain"@)) == false,
{
    reveal_strlit("application/json");
    reveal_strlit("text/plain");
    reveal_strlit("application/");
    let a = "application/json"@;
    let b = "text/plain"@;
    crate::text::first_piece_stays(a, ';', params);
    crate::text::joined_texts_come_apart(seq![a], ';');
    crate::text::joined_texts_come_apart(seq![b], ';');
    assert(crate::text::joined(seq![a], seq![';']) == a);
    assert(crate::text::joined(seq![b], seq![';']) == b);
    crate::text::what_is_trimmed_stays(a);
    crate::text::what_is_trimmed_stays(b);
    assert(ascii_lower(a) =~= a);
    assert(ascii_lower(b) =~= b);
    assert(a.len() != b.len());
    assert(!begins(b, "application/"@));
}

/// A group that is null is as one that is not given; one that is no number cannot be
/// meant.
pub proof fn a_group_may_be_left_open(j: JsonV, group: i64)
    ensures
        j.field("group_id"@) is None ==> group_in(j) == Some(None::<i64>),
        j.field("group_id"@) == Some(JsonV::Null) ==> group_in(j) == Some(None::<i64>),
        j.field("group_id"@) == Some(int_json(group)) ==> group_in(j) == Some(Some(group)),
        (j.field("group_id"@) matches Some(JsonV::Str(_)) ==> group_in(j) is None),
{
    crate::json::numbers_are_shown_in_digits(group, Seq::empty());
}

/// A refusal has its status, says that it is one and why; what is not ready says so by
/// its own status; and who asks is told that the hub is well, which it is and for how
/// long.
pub proof fn replies_say_what_they_are(status: u16, error: Text, version: Text, uptime: u64)
    ensures
        refusal(status, error).status == status,
        refusal(status, error).body.field("ok"@) == Some(JsonV::Bool(false)),
        refusal(status, error).body.field("error"@) == Some(JsonV::Str(error)),
        stopped_reply().status == 503,
        stopped_reply().body.field("error"@) is Some,
        health_json(version, uptime).field("status"@) == Some(JsonV::Str("ok"@)),
        health_json(version, uptime).field("version"@) == Some(JsonV::Str(version)),
        health_json(version, uptime).field("uptime_secs"@) == Some(nat_json(uptime)),
{
    reveal_strlit("ok");
    reveal_strlit("error");
    reveal_strlit("status");
    reveal_strlit("version");
    reveal_strlit("uptime_secs");
    assert("ok"@.len() == 2 && "error"@.len() == 5);
    assert("status"@.len() == 6 && "version"@.len() == 7 && "uptime_secs"@.len() == 11);
    match refusal(status, error).body {
        JsonV::Object(m) => {
            assert(m[0].0 == "ok"@ && m[1].0 == "error"@);
            a_member_is_found(m, 0);
            a_member_is_found(m, 1);
        },
        _ => {},
    }
    match stopped_reply().body {
        JsonV::Object(m) => {
            assert(m[0].0 == "error"@);
            a_member_is_found(m, 0);
        },
        _ => {},
    }
    match health_json(version, uptime) {
        JsonV::Object(m) => {
            assert(m[0].0 == "status"@ && m[1].0 == "version"@ && m[2].0 == "uptime_secs"@);
            a_member_is_found(m, 0);
            a_member_is_found(m, 1);
            a_member_is_found(m, 2);
        },
        _ => {},
    }
}

/// Every handler is told of among the capabilities, in the order in which they are asked.
pub proof fn every_capability_is_told(
    s: BridgeService,
    self_id: i64,
    version: Text,
    uptime: u64,
    i: int,
)
    ensures
        status_json(s, self_id, version, uptime).field("capabilities"@) matches Some(
            JsonV::Array(told),
        ) && told.len() == s.router.handlers@.len() && (0 <= i < told.len() ==> told[i].field(
            "name"@,
        ) == Some(JsonV::Str(s.router.handlers@[i].about().name)) && told[i].field("trigger"@)
            == Some(JsonV::Str(s.router.handlers@[i].about().trigger))),
        status_json(s, self_id, version, uptime).field("commands"@) == Some(
            JsonV::Object(command_counts(s.commands.counts)),
        ),
{
    reveal_strlit("version");
    reveal_strlit("uptime_secs");
    reveal_strlit("onebot");
    reveal_strlit("chatbridge");
    reveal_strlit("forwarder");
    reveal_strlit("tracker");
    reveal_strlit("commands");
    reveal_strlit("state");
    reveal_strlit("recent_messages");
    reveal_strlit("capabilities");
    match status_json(s, self_id, version, uptime) {
        JsonV::Object(m) => {
            assert(m[0].0 == "version"@ && m[1].0 == "uptime_secs"@ && m[2].0 == "onebot"@
                && m[3].0 == "chatbridge"@ && m[4].0 == "forwarder"@ && m[5].0 == "tracker"@
                && m[6].0 == "commands"@ && m[7].0 == "state"@ && m[8].0 == "recent_messages"@
                && m[9].0 == "capabilities"@);
            assert("version"@.len() == 7 && "uptime_secs"@.len() == 11 && "onebot"@.len() == 6
                && "chatbridge"@.len() == 10 && "forwarder"@.len() == 9 && "tracker"@.len() == 7
                && "commands"@.len() == 8 && "state"@.len() == 5 && "recent_messages"@.len()
                == 15 && "capabilities"@.len() == 12);
            a_member_is_found(m, 6);
            a_member_is_found(m, 9);
        },
        _ => {},
    }
    if 0 <= i < s.router.handlers@.len() {
        a_command_is_told_whole(s.router.handlers@[i].about(), 0);
    }
}

/// What is relayed to the chatroom says what was given, in the name of the interface.
pub proof fn a_relayed_post_says_what_was_given(text: Text, millis: u64, seq: u64)
    ensures
        relayed_post(text, millis, seq).content == text,
        relayed_post(text, millis, seq).nickname == "api"@,
        relayed_post(text, millis, seq).sender_username.len() == 0,
        relayed_post(text, millis, seq).attachment_ids.len() == 0,
{
    reveal_strlit("");
}

} // verus!
