//! The hub: what its parts are made of, and what becomes of a message from each of
//! the three sides.
//!
//! Nothing is sent from here. A message that comes in becomes what there is to send,
//! and to ask.

use crate::adapters::chatbridge::{machine_order, padded, sha256_of, ChatBridgeClient};
use crate::adapters::chatroom_auth::{AuthV, ChatroomAuth};
use crate::adapters::chatroom_read::{fetched_v, polled, ChatroomReader, DEFAULT_FETCH_LIMIT};
use crate::adapters::forward_api::{blank_message, ForwardApi, PostMessage, PostMessageV, PostSource};
use crate::adapters::onebot::{
    GroupMessage, GroupMessageV, OneBotServer, ServerStats,
};
use crate::agent::skill::{
    build_skills, by_length, longest_first, skills_built, skills_of, DocQuerySkill,
};
use crate::codec::{base64_encode, base64_encoded};
use crate::config::{id_list, pairs_of, AppConfig};
use crate::json::{items, Json, JsonV};
use crate::router::handlers::{Handler, QqForwardRelay, SlashCommandAdapter, SnapshotRelay};
use crate::router::{
    CommandHandler, CommandInfo, CommandRouter, InboundMessage, InboundV, Source, SourceV,
};
use crate::services::commands::{
    address_texts, counts_held, counts_listed, default_address_texts, CommandService, CommandStats,
};
use crate::services::forwarder::{ChatroomForwarder, ForwarderStats};
use crate::services::player_events::{event_in, refused, used, PlayerEventDetector};
use crate::services::player_tracker::{PendingV, PlayerTracker, TrackerStats};
use crate::state::{StateStore, StateV};
use crate::text::{
    a_part_occurs, a_prefix_is_a_beginning, alike_behind_a_head, among, begins, decimal,
    different_numbers_differ, digits_hold_digits, drop_back, ends, has, join2, join3, prefix, same,
    texts, trim, trimmed, truncate_chars, u64_text, what_is_parted_alike_is_alike, Text,
};
use std::collections::VecDeque;
use vstd::prelude::*;

verus! {

/// Greatest number of messages that are remembered for the API.
pub const RECENT_MESSAGES_CAP: usize = 200;

/// Greatest number of characters that are remembered of a message.
pub const RECENT_MESSAGE_TEXT_MAX: usize = 500;

/// A message that is remembered.
#[derive(Debug, Clone)]
pub struct MessageRecord {
    pub id: u64,
    /// When it came, in milliseconds since 1970.
    pub timestamp: i64,
    /// The side that it came from.
    pub source: String,
    /// Who wrote it; may be empty.
    pub from: String,
    pub text: String,
}

/// What a [`MessageRecord`] holds.
pub struct RecordV {
    pub id: u64,
    pub timestamp: i64,
    pub source: Text,
    pub from: Text,
    pub text: Text,
}

impl View for MessageRecord {
    type V = RecordV;

    open spec fn view(&self) -> RecordV {
        RecordV {
            id: self.id,
            timestamp: self.timestamp,
            source: self.source@,
            from: self.from@,
            text: self.text@,
        }
    }
}

impl MessageRecord {
    /// The same record again.
    pub fn copy(&self) -> (r: MessageRecord)
        ensures
            r@ == self@,
    {
        MessageRecord {
            id: self.id,
            timestamp: self.timestamp,
            source: self.source.clone(),
            from: self.from.clone(),
            text: self.text.clone(),
        }
    }
}

/// What a list of records holds.
pub open spec fn records_held(v: Seq<MessageRecord>) -> Seq<RecordV> {
    Seq::new(v.len(), |i: int| v[i]@)
}

/// The last `n` items of a list.
pub open spec fn last_of<A>(s: Seq<A>, n: nat) -> Seq<A> {
    if s.len() <= n {
        s
    } else {
        s.skip(s.len() - n)
    }
}

/// The messages that came last, for the API. Nothing of it is kept over a restart.
#[derive(Debug)]
pub struct RecentLog {
    pub cap: usize,
    pub next_id: u64,
    pub items: VecDeque<MessageRecord>,
}

/// What a [`RecentLog`] holds.
pub struct RecentV {
    pub cap: nat,
    pub next_id: u64,
    pub items: Seq<RecordV>,
}

impl View for RecentLog {
    type V = RecentV;

    open spec fn view(&self) -> RecentV {
        RecentV {
            cap: self.cap as nat,
            next_id: self.next_id,
            items: records_held(self.items@),
        }
    }
}

impl RecentV {
    /// The log with one message more.
    pub open spec fn with(self, source: Text, from: Text, text: Text, timestamp: i64) -> RecentV {
        let id = (self.next_id + 1) as u64;
        let record = RecordV {
            id,
            timestamp,
            source,
            from,
            text: prefix(text, RECENT_MESSAGE_TEXT_MAX as nat),
        };
        RecentV { next_id: id, items: last_of(self.items.push(record), self.cap), ..self }
    }

    /// Whether the log is as long as it may be at most, and its numbers ascend.
    pub open spec fn well_kept(self) -> bool {
        &&& self.items.len() <= self.cap
        &&& forall|i: int, k: int|
            0 <= i < k < self.items.len() ==> self.items[i].id < self.items[k].id
        &&& forall|i: int| 0 <= i < self.items.len() ==> (#[trigger] self.items[i]).id <= self.next_id
    }
}

impl RecentLog {
    /// A log of at most `cap` messages.
    pub fn new(cap: usize) -> (r: Self)
        ensures
            r@ == (RecentV { cap: cap as nat, next_id: 0, items: Seq::empty() }),
            r@.well_kept(),
    {
        let r = RecentLog { cap, next_id: 0, items: VecDeque::new() };
        assert(r@.items =~= Seq::empty());
        r
    }

    /// Remembers a message, and forgets the oldest ones that are too many.
    pub fn push(&mut self, source: &str, from: &str, text: &str, timestamp: i64)
        requires
            old(self)@.next_id < u64::MAX,
        ensures
            final(self)@ == old(self)@.with(source@, from@, text@, timestamp),
            old(self)@.well_kept() ==> final(self)@.well_kept(),
    {
        let ghost first = self@;
        let id: u64 = self.next_id + 1;
        self.next_id = id;
        let record = MessageRecord {
            id,
            timestamp,
            source: source.to_owned(),
            from: from.to_owned(),
            text: truncate_chars(text, RECENT_MESSAGE_TEXT_MAX),
        };
        let ghost rv = record@;
        let ghost held = self.items@;
        self.items.push_back(record);
        let ghost all = records_held(self.items@);
        assert(all =~= first.items.push(rv));
        assert(last_of(all, all.len()) =~= all);
        while self.items.len() > self.cap
            invariant
                self.items@.len() <= all.len(),
                records_held(self.items@) == last_of(all, self.items@.len()),
                self.cap == first.cap,
                self.next_id == id,
                self.items@.len() >= first.cap || self.items@.len() == all.len(),
            decreases self.items@.len(),
        {
            let ghost now = self.items@;
            self.items.pop_front();
            proof {
                assert(self.items@ =~= now.drop_first());
                let left = records_held(self.items@);
                let before = records_held(now);
                assert forall|k: int| 0 <= k < left.len() implies left[k] == last_of(
                    all,
                    left.len(),
                )[k] by {
                    assert(left[k] == before[k + 1]);
                    assert(before[k + 1] == last_of(all, before.len())[k + 1]);
                }
                assert(left =~= last_of(all, left.len()));
            }
        }
        proof {
            the_log_is_well_kept(first, source@, from@, text@, timestamp);
        }
    }

    /// The last `limit` messages, the older ones first.
    pub fn latest(&self, limit: usize) -> (r: Vec<MessageRecord>)
        ensures
            records_held(r@) == last_of(self@.items, limit as nat),
    {
        let skip: usize = if self.items.len() > limit {
            self.items.len() - limit
        } else {
            0
        };
        let mut out: Vec<MessageRecord> = Vec::new();
        let mut i: usize = skip;
        while i < self.items.len()
            invariant
                skip <= i <= self.items@.len(),
                out@.len() == i - skip,
                forall|k: int|
                    0 <= k < out@.len() ==> (#[trigger] out@[k])@ == self.items@[skip + k]@,
            decreases self.items@.len() - i,
        {
            out.push(self.items[i].copy());
            i = i + 1;
        }
        assert(records_held(out@) =~= last_of(self@.items, limit as nat));
        out
    }

    /// How many messages are remembered.
    pub fn len(&self) -> (r: usize)
        ensures
            r == self@.items.len(),
    {
        self.items.len()
    }

    /// Whether no message is remembered.
    pub fn is_empty(&self) -> (r: bool)
        ensures
            r == (self@.items.len() == 0),
    {
        self.items.len() == 0
    }
}

/// The log never holds more messages than it may, and their numbers ascend: every
/// message gets a number of its own, higher than all before.
pub proof fn the_log_is_well_kept(
    log: RecentV,
    source: Text,
    from: Text,
    text: Text,
    timestamp: i64,
)
    requires
        log.next_id < u64::MAX,
    ensures
        log.well_kept() ==> log.with(source, from, text, timestamp).well_kept(),
        log.with(source, from, text, timestamp).items.len() <= log.cap,
{
}

/// A message that comes is the last one in the log, cut where it is too long.
pub proof fn a_message_is_the_last_one(
    log: RecentV,
    source: Text,
    from: Text,
    text: Text,
    timestamp: i64,
)
    requires
        log.cap > 0,
        log.next_id < u64::MAX,
    ensures
        ({
            let items = log.with(source, from, text, timestamp).items;
            &&& items.len() > 0
            &&& items.last() == (RecordV {
                id: (log.next_id + 1) as u64,
                timestamp,
                source,
                from,
                text: prefix(text, RECENT_MESSAGE_TEXT_MAX as nat),
            })
        }),
{
}

/// The number that tells a message of the hub from all others: what it is, when it
/// was made and a running number.
pub open spec fn hub_id(kind: Text, millis: u64, seq: u64) -> Text {
    kind + "-"@ + decimal(millis as nat) + "-"@ + decimal(seq as nat)
}

/// The number that tells a message of the hub from all others.
fn make_id(kind: &str, millis: u64, seq: u64) -> (r: String)
    ensures
        r@ == hub_id(kind@, millis, seq),
{
    let when = u64_text(millis);
    let no = u64_text(seq);
    let head = join3(kind, "-", when.as_str());
    join3(head.as_str(), "-", no.as_str())
}

/// A message of the hub to the chatroom.
pub open spec fn hub_message(
    source: PostSource,
    kind: Text,
    millis: u64,
    seq: u64,
    content: Text,
    username: Text,
    nickname: Text,
) -> PostMessageV {
    PostMessageV {
        content,
        source_message_id: hub_id(kind, millis, seq),
        sender_username: username,
        nickname,
        ..blank_message(source)
    }
}

/// What becomes of a message from the chatroom.
#[derive(Debug)]
pub struct ChatroomInbound {
    /// The message for the router.
    pub inbound: InboundMessage,
    /// What to tell the game.
    pub game_text: Option<String>,
}

/// What becomes of a message from the game.
#[derive(Debug)]
pub struct GameInbound {
    /// What to write to the chatroom, and in whose name.
    pub text: String,
    pub nickname: String,
    /// The message for the router.
    pub inbound: InboundMessage,
    /// What to tell the QQ groups of a player who came or went.
    pub event_text: Option<String>,
}

/// What an optional text holds.
pub open spec fn text_in(s: Option<String>) -> Option<Text> {
    match s {
        Some(s) => Some(s@),
        None => None,
    }
}

/// The text of a member, or nothing.
pub open spec fn member_text(j: JsonV, key: Text) -> Text {
    match j.field(key) {
        Some(v) => match v.as_text() {
            Some(t) => t,
            None => Seq::empty(),
        },
        None => Seq::empty(),
    }
}

/// The text of a member, or nothing.
fn read_member(j: &Json, key: &str) -> (r: String)
    ensures
        r@ == member_text(j@, key@),
{
    match j.get(key) {
        Some(v) => match v.as_str() {
            Some(t) => t.clone(),
            None => String::new(),
        },
        None => String::new(),
    }
}

/// What the game is told of a chatroom message.
pub open spec fn chatroom_line(username: Text, content: Text) -> Text {
    if username.len() == 0 {
        "[Chatroom] "@ + content
    } else {
        "[Chatroom] "@ + username + ": "@ + content
    }
}

/// What the chatroom is told of a game message.
pub open spec fn game_line(sender: Text, author: Text, content: Text) -> Text {
    if author.len() > 0 {
        "🎮 ["@ + sender + "] "@ + author + ": "@ + content
    } else {
        "🟢 "@ + content
    }
}

/// In whose name a game message is written.
pub open spec fn game_name(sender: Text, author: Text) -> Text {
    if author.len() == 0 {
        sender
    } else {
        author
    }
}

/// What the groups are told of a player who came or went. It counts only where the
/// server or that player said so.
pub open spec fn event_line(
    join: Option<Text>,
    quit: Option<Text>,
    sender: Text,
    author: Text,
    content: Text,
) -> Option<Text> {
    if join is None && quit is None {
        None
    } else {
        match event_in(join, quit, sender, content) {
            Some(e) => if author.len() == 0 || author == e.player {
                Some(
                    match e.event_type {
                        crate::services::player_events::EventType::Online => "🎮 "@ + e.player
                            + " 上线"@,
                        crate::services::player_events::EventType::Offline => "🚪 "@ + e.player
                            + " 下线"@,
                    },
                )
            } else {
                None
            },
            None => None,
        }
    }
}

/// An image as it is sent to a group.
pub open spec fn image_uri(png: Seq<u8>) -> Text {
    "base64://"@ + base64_encoded(png)
}

/// An image as it is sent to a group.
pub fn data_uri(png: &[u8]) -> (r: String)
    ensures
        r@ == image_uri(png@),
{
    let text = base64_encode(png);
    join2("base64://", text.as_str())
}

/// The address that the answer to a question for an image holds.
pub fn resolve(info: &Json) -> (r: Option<String>)
    ensures
        text_in(r) == (match info@.field("url"@) {
            Some(v) => v.as_text(),
            None => None,
        }),
{
    match info.get("url") {
        Some(v) => match v.as_str() {
            Some(t) => Some(t.clone()),
            None => None,
        },
        None => None,
    }
}

/// Whether a text reached any of the groups that it was sent to.
pub fn sent_to_any(results: &Vec<bool>) -> (r: bool)
    ensures
        r == results@.contains(true),
{
    let mut i: usize = 0;
    while i < results.len()
        invariant
            i <= results@.len(),
            forall|k: int| 0 <= k < i ==> !results@[k],
        decreases results@.len() - i,
    {
        if results[i] {
            assert(results@[i as int] == true);
            return true;
        }
        i = i + 1;
    }
    false
}

/// The hub.
#[derive(Debug)]
pub struct BridgeService {
    pub cfg: AppConfig,
    pub state: StateStore,
    pub forward_api: ForwardApi,
    pub forwarder: ChatroomForwarder,
    pub auth: ChatroomAuth,
    pub reader: ChatroomReader,
    pub detector: PlayerEventDetector,
    pub tracker: PlayerTracker,
    pub commands: CommandService,
    pub server: OneBotServer,
    pub chatbridge: Option<ChatBridgeClient>,
    pub router: CommandRouter,
    /// The configured groups, in ascending order.
    pub group_ids: Vec<i64>,
    pub game_seq: u64,
    pub recent: RecentLog,
}

/// What is handed on of a group message.
pub open spec fn group_inbound(msg: GroupMessageV) -> InboundV {
    InboundV {
        source: SourceV::QQ,
        text: msg.full_text(),
        group_id: msg.group_id,
        user_id: msg.user_id,
        display_name: msg.shown_name(),
    }
}

/// What is handed on of a chatroom message.
pub open spec fn chatroom_inbound(message: JsonV) -> InboundV {
    let username = member_text(message, "username"@);
    InboundV {
        source: SourceV::Chatroom { username },
        text: trimmed(member_text(message, "content"@)),
        group_id: 0,
        user_id: 0,
        display_name: username,
    }
}

/// Whether a chatroom message is handed on: it says something and is not the hub's own.
pub open spec fn chatroom_heard(message: JsonV, bot_id: Option<i64>) -> bool {
    trimmed(member_text(message, "content"@)).len() > 0
        && !crate::adapters::chatroom_read::own_message(message, bot_id)
}

/// What is handed on of a game message.
pub open spec fn game_inbound(sender: Text, author: Text, message: Text) -> InboundV {
    InboundV {
        source: SourceV::Game { sender, author },
        text: trimmed(message),
        group_id: 0,
        user_id: 0,
        display_name: game_name(sender, author),
    }
}

/// What the chatroom is told of a game message.
pub open spec fn game_post(
    prefix: Text,
    content: Text,
    nickname: Text,
    username: Text,
    millis: u64,
    seq: u64,
) -> PostMessageV {
    hub_message(PostSource::Game, prefix, millis, seq, content, username, nickname)
}

/// What the chatroom is told as an answer of the hub.
pub open spec fn answer_post(text: Text, millis: u64, seq: u64) -> PostMessageV {
    hub_message(PostSource::Game, "agent-reply"@, millis, seq, text, ""@, ""@)
}

/// The first three handlers and the skills behind them.
pub open spec fn handlers_of(
    forward: QqForwardRelay,
    snapshot: SnapshotRelay,
    skills: Seq<DocQuerySkill>,
) -> Seq<Handler> {
    seq![
        Handler::Slash(SlashCommandAdapter),
        Handler::Forward(forward),
        Handler::Snapshot(snapshot),
    ] + Seq::new(skills.len(), |i: int| Handler::Skill(skills[i]))
}

/// Builds the router: the slash commands first, then the relays, then the skills,
/// those with longer triggers before those with shorter ones.
fn build_router(cfg: &AppConfig, roots: &Vec<String>, cache_root: &str) -> (r: CommandRouter)
    ensures
        exists|forward: QqForwardRelay, snapshot: SnapshotRelay, skills: Seq<DocQuerySkill>|
            {
                &&& r.handlers@ == #[trigger] handlers_of(forward, snapshot, by_length(skills))
                &&& forward.enabled == cfg@.chatroom.qq_forward_enabled
                &&& snapshot.enabled == cfg@.chatroom.qq_forward_enabled
                &&& snapshot.sender@ == cfg@.chatroom.snapshot_sender
                &&& snapshot.prefix@ == cfg@.chatroom.snapshot_prefix
                &&& skills_built(skills) == if cfg@.agent.enabled {
                    skills_of(cfg@.agent, texts(roots@), cache_root@, cfg@.agent.skills.len())
                } else {
                    Seq::empty()
                }
            },
{
    let mut router = CommandRouter::new();
    let forward = QqForwardRelay { enabled: cfg.chatroom.qq_forward_enabled };
    let snapshot = SnapshotRelay {
        enabled: cfg.chatroom.qq_forward_enabled,
        sender: cfg.chatroom.snapshot_sender.clone(),
        prefix: cfg.chatroom.snapshot_prefix.clone(),
    };
    let ghost f = forward;
    let ghost sn = snapshot;
    router.register(Handler::Slash(SlashCommandAdapter));
    router.register(Handler::Forward(forward));
    router.register(Handler::Snapshot(snapshot));
    let built = build_skills(&cfg.agent, roots, cache_root);
    let ghost skills = built@;
    let mut rest = longest_first(built);
    let ghost order = rest@;
    let ghost mut n: int = 0;
    assert(router.handlers@ =~= handlers_of(f, sn, order.take(0)));
    assert(order.skip(0) =~= order);
    while rest.len() > 0
        invariant
            0 <= n <= order.len(),
            rest@ == order.skip(n),
            router.handlers@ == handlers_of(f, sn, order.take(n)),
        decreases rest@.len(),
    {
        let skill = rest.remove(0);
        assert(skill == order[n]);
        assert(rest@ =~= order.skip(n + 1));
        router.register(Handler::Skill(skill));
        assert(router.handlers@ =~= handlers_of(f, sn, order.take(n + 1)));
        proof {
            n = n + 1;
        }
    }
    assert(order.take(n) =~= order);
    assert(router.handlers@ == handlers_of(f, sn, by_length(skills)));
    router
}

impl BridgeService {
    /// Puts the hub together by its configuration, with the state that was saved.
    /// `roots` are the directories of documents that are there, and under `cache_root`
    /// repositories are kept.
    pub fn new(cfg: AppConfig, state: StateStore, roots: &Vec<String>, cache_root: &str) -> (r: Self)
        ensures
            r.cfg == cfg,
            r.state == state,
            r.forward_api.base_url@ == drop_back(cfg@.chatroom.base_url, among("/"@)),
            r.forward_api.token@ == cfg@.chatroom.forward_token,
            r.forward_api.channel_id == cfg@.chatroom.channel_id,
            r.forwarder.enabled == cfg@.chatroom.qq_sync_enabled,
            r.forwarder.self_id == cfg@.onebot.self_id,
            r.forwarder.counts == (ForwarderStats { forwarded: 0, skipped_duplicate: 0, failed: 0 }),
            r.forwarder.memory() == Seq::<(i64, (Text, Text))>::empty(),
            r.auth@ == (AuthV {
                base_url: drop_back(cfg@.chatroom.base_url, among("/"@)),
                config: cfg@.chatroom.refresh_token,
                refresh: if state@.token.len() == 0 {
                    cfg@.chatroom.refresh_token
                } else {
                    state@.token
                },
                access: Seq::<char>::empty(),
                expires_at: 0,
                user_id: None,
            }),
            r.reader.base_url@ == drop_back(cfg@.chatroom.base_url, among("/"@)),
            r.reader.channel_id == cfg@.chatroom.channel_id,
            r.reader.position == state@.last_read,
            !r.reader.initialized,
            r.reader.fetch_limit == DEFAULT_FETCH_LIMIT,
            if refused(cfg@.chatroom.player_join_pattern) is None && refused(
                cfg@.chatroom.player_quit_pattern,
            ) is None {
                &&& r.detector.join_pattern() == used(cfg@.chatroom.player_join_pattern)
                &&& r.detector.quit_pattern() == used(cfg@.chatroom.player_quit_pattern)
            } else {
                r.detector.join_pattern() is None && r.detector.quit_pattern() is None
            },
            r.tracker.status_api@ == cfg@.chatroom.status_api,
            r.tracker@.debounce == if cfg@.chatroom.debounce_count == 0 {
                1
            } else {
                cfg@.chatroom.debounce_count
            },
            r.tracker@.counts == (TrackerStats { online: 0, offline: 0, failed: 0 }),
            r.tracker@.confirmed == Seq::<(Text, Seq<Text>)>::empty(),
            r.tracker@.pending == Seq::<PendingV>::empty(),
            r.commands.allow_all == cfg@.commands.group_allow_all,
            r.commands.allow_from@ == cfg@.commands.allow_from,
            r.commands.status_image == cfg@.commands.status_image,
            r.commands.voice_api@ == cfg@.chatroom.voice_api,
            r.commands.status_api@ == cfg@.chatroom.status_api,
            address_texts(r.commands.server_addresses@) == if pairs_of(
                cfg@.chatroom.server_addresses,
            ).len() == 0 {
                default_address_texts()
            } else {
                pairs_of(cfg@.chatroom.server_addresses)
            },
            r.commands.counts == (CommandStats { chatroom: 0, server: 0 }),
            r.server.host@ == cfg@.onebot.listen_host,
            r.server.port == cfg@.onebot.listen_port,
            r.server.path@ == if begins(cfg@.onebot.path, "/"@) {
                cfg@.onebot.path
            } else {
                "/"@ + cfg@.onebot.path
            },
            r.server.access_token@ == cfg@.onebot.access_token,
            r.server.counts == (ServerStats { connections: 0, group_messages: 0 }),
            r.server.slot is None,
            match r.chatbridge {
                Some(c) => {
                    &&& cfg@.chatbridge.enabled
                    &&& cfg@.chatbridge.host.len() > 0
                    &&& c.host@ == cfg@.chatbridge.host
                    &&& c.port == cfg@.chatbridge.port
                    &&& c.name@ == cfg@.chatbridge.name
                    &&& c.password@ == cfg@.chatbridge.password
                    &&& c.cryptor.in_clear() == (cfg@.chatbridge.aes_key.len() == 0)
                    &&& c.cryptor.key() == sha256_of(
                        padded(vstd::utf8::encode_utf8(cfg@.chatbridge.aes_key)),
                    )
                    &&& c.order == machine_order()
                    &&& !c.running
                    &&& !c.connected
                },
                None => !cfg@.chatbridge.enabled || cfg@.chatbridge.host.len() == 0,
            },
            exists|forward: QqForwardRelay, snapshot: SnapshotRelay, skills: Seq<DocQuerySkill>|
                {
                    &&& r.router.handlers@ == #[trigger] handlers_of(
                        forward,
                        snapshot,
                        by_length(skills),
                    )
                    &&& forward.enabled == cfg@.chatroom.qq_forward_enabled
                    &&& snapshot.enabled == cfg@.chatroom.qq_forward_enabled
                    &&& snapshot.sender@ == cfg@.chatroom.snapshot_sender
                    &&& snapshot.prefix@ == cfg@.chatroom.snapshot_prefix
                    &&& skills_built(skills) == if cfg@.agent.enabled {
                        skills_of(
                            cfg@.agent,
                            texts(roots@),
                            cache_root@,
                            cfg@.agent.skills.len(),
                        )
                    } else {
                        Seq::empty()
                    }
                },
            r.group_ids@ == id_list(cfg@.chatroom.group_ids),
            r.game_seq == 0,
            r.recent@ == (RecentV {
                cap: RECENT_MESSAGES_CAP as nat,
                next_id: 0,
                items: Seq::empty(),
            }),
    {
        let base_url = cfg.chatroom.base_url.as_str();
        let forward_api = ForwardApi::new(
            base_url,
            cfg.chatroom.forward_token.as_str(),
            cfg.chatroom.channel_id,
        );
        let forwarder = ChatroomForwarder::new(cfg.chatroom.qq_sync_enabled, cfg.onebot.self_id);
        let saved = state.refresh_token();
        let auth = ChatroomAuth::new(base_url, cfg.chatroom.refresh_token.as_str(), saved.as_str());
        let reader = ChatroomReader::new(
            base_url,
            cfg.chatroom.channel_id,
            state.last_read_message_id(),
        );
        let detector = match PlayerEventDetector::new(
            cfg.chatroom.player_join_pattern.as_str(),
            cfg.chatroom.player_quit_pattern.as_str(),
        ) {
            Ok(d) => d,
            Err(_) => PlayerEventDetector::disabled(),
        };
        let tracker = PlayerTracker::new(
            cfg.chatroom.debounce_count,
            cfg.chatroom.status_api.as_str(),
        );
        let addresses = cfg.chatroom.server_address_pairs();
        assert(address_texts(addresses@).len() == addresses@.len());
        let commands = CommandService::new(
            cfg.commands.group_allow_all,
            copy_ids(&cfg.commands.allow_from),
            cfg.commands.status_image,
            cfg.chatroom.voice_api.as_str(),
            cfg.chatroom.status_api.as_str(),
            addresses,
        );
        let server = OneBotServer::new(
            cfg.onebot.listen_host.as_str(),
            cfg.onebot.listen_port,
            cfg.onebot.path.as_str(),
            cfg.onebot.access_token.as_str(),
        );
        let chatbridge = if cfg.chatbridge.enabled && !cfg.chatbridge.host.as_str().is_empty() {
            Some(
                ChatBridgeClient::new(
                    cfg.chatbridge.host.as_str(),
                    cfg.chatbridge.port,
                    cfg.chatbridge.name.as_str(),
                    cfg.chatbridge.password.as_str(),
                    cfg.chatbridge.aes_key.as_str(),
                ),
            )
        } else {
            None
        };
        let router = build_router(&cfg, roots, cache_root);
        let group_ids = cfg.group_ids();
        let recent = RecentLog::new(RECENT_MESSAGES_CAP);
        BridgeService {
            cfg,
            state,
            forward_api,
            forwarder,
            auth,
            reader,
            detector,
            tracker,
            commands,
            server,
            chatbridge,
            router,
            group_ids,
            game_seq: 0,
            recent,
        }
    }

    /// The state that is saved.
    pub fn state(&self) -> (r: &StateStore)
        ensures
            *r == self.state,
    {
        &self.state
    }

    /// The side of the QQ groups.
    pub fn server(&self) -> (r: &OneBotServer)
        ensures
            *r == self.server,
    {
        &self.server
    }

    /// What became of the messages of the groups.
    pub fn forwarder_stats(&self) -> (r: ForwarderStats)
        ensures
            r == self.forwarder.counts,
    {
        self.forwarder.stats()
    }

    /// What became of the players' comings and goings.
    pub fn tracker_stats(&self) -> (r: TrackerStats)
        ensures
            r == self.tracker.counts,
    {
        self.tracker.stats()
    }

    /// Whether players who come and go are told of.
    pub fn player_events_enabled(&self) -> (r: bool)
        ensures
            r == (self.detector.join_pattern() is Some || self.detector.quit_pattern() is Some),
    {
        self.detector.enabled()
    }

    /// Takes what was fetched of the chatroom's channel: gives the messages that are new,
    /// oldest first, and whether the position moved, which is then saved in the state.
    pub fn poll_chatroom(&mut self, fetched: Option<Vec<Json>>) -> (r: (Vec<Json>, bool))
        ensures
            *final(self) == (BridgeService {
                reader: final(self).reader,
                state: final(self).state,
                ..*old(self)
            }),
            polled(old(self).reader, fetched_v(fetched), final(self).reader, items(r.0@)),
            r.1 == (final(self).reader.position != old(self).reader.position),
            if r.1 {
                final(self).state@ == (StateV {
                    last_read: final(self).reader.position,
                    ..old(self).state@
                })
            } else {
                final(self).state == old(self).state
            },
            old(self).state.wf() ==> final(self).state.wf(),
            old(self).state@.last_read == old(self).reader.position ==> final(self).state@.last_read
                == final(self).reader.position,
    {
        let before: i64 = self.reader.position;
        let messages = self.reader.poll_once(fetched);
        let now: i64 = self.reader.position;
        if now != before {
            self.state.set_last_read_message_id(now);
        }
        (messages, now != before)
    }

    /// How often each command was answered.
    pub fn command_stats(&self) -> (r: Vec<(String, u64)>)
        ensures
            counts_held(r@) == counts_listed(self.commands.counts),
    {
        self.commands.stats()
    }

    /// Whether there is a link to the game.
    pub fn chatbridge_enabled(&self) -> (r: bool)
        ensures
            r == (self.chatbridge is Some),
    {
        self.chatbridge.is_some()
    }

    /// Whether the link to the game is up.
    pub open spec fn game_is_up(&self) -> bool {
        match self.chatbridge {
            Some(c) => c.connected,
            None => false,
        }
    }

    /// Whether the link to the game is up.
    pub fn chatbridge_connected(&self) -> (r: bool)
        ensures
            r == self.game_is_up(),
    {
        match &self.chatbridge {
            Some(c) => c.is_connected(),
            None => false,
        }
    }

    /// What the handlers say of themselves, in the order in which they are asked.
    pub fn capabilities(&self) -> (r: Vec<CommandInfo>)
        ensures
            r@.len() == self.router.handlers@.len(),
            forall|i: int|
                0 <= i < r@.len() ==> (#[trigger] r@[i])@ == self.router.handlers@[i].about(),
    {
        let handlers = self.router.handlers();
        let mut out: Vec<CommandInfo> = Vec::new();
        let mut i: usize = 0;
        while i < handlers.len()
            invariant
                i <= handlers@.len(),
                *handlers == self.router.handlers,
                out@.len() == i,
                forall|k: int|
                    0 <= k < i ==> (#[trigger] out@[k])@ == self.router.handlers@[k].about(),
            decreases handlers@.len() - i,
        {
            out.push(handlers[i].info());
            i = i + 1;
        }
        out
    }

    /// The messages that came last.
    pub fn recent_log(&self) -> (r: &RecentLog)
        ensures
            *r == self.recent,
    {
        &self.recent
    }

    /// Whether messages of a group are taken: all are where no group is configured.
    pub open spec fn takes_group(&self, group_id: i64) -> bool {
        self.group_ids@.len() == 0 || self.group_ids@.contains(group_id)
    }

    /// Takes a message of a QQ group: gives what the router is asked, or nothing where
    /// the group is not one of the configured ones. `now` is the time in
    /// milliseconds.
    pub fn handle_group_message(&mut self, msg: &GroupMessage, now: i64) -> (r: Option<
        InboundMessage,
    >)
        requires
            old(self).recent@.next_id < u64::MAX,
        ensures
            if old(self).takes_group(msg@.group_id) {
                &&& r is Some
                &&& r->0@ == (InboundV {
                    source: SourceV::QQ,
                    text: msg@.full_text(),
                    group_id: msg@.group_id,
                    user_id: msg@.user_id,
                    display_name: msg@.shown_name(),
                })
                &&& final(self).recent@ == old(self).recent@.with(
                    "qq"@,
                    msg@.shown_name(),
                    msg@.full_text(),
                    now,
                )
            } else {
                r is None && final(self).recent@ == old(self).recent@
            },
            *final(self) == (BridgeService { recent: final(self).recent, ..*old(self) }),
            r matches Some(m) ==> m@ == group_inbound(msg@),
    {
        if self.group_ids.len() > 0 && !has_id(&self.group_ids, msg.group_id) {
            return None;
        }
        let name = msg.display_name();
        let text = msg.text();
        self.recent.push("qq", name.as_str(), text.as_str(), now);
        Some(
            InboundMessage {
                source: Source::QQ,
                text,
                group_id: msg.group_id,
                user_id: msg.user_id,
                display_name: name,
            },
        )
    }

    /// The groups that a text for all groups goes to; nothing where QQ is not
    /// connected.
    pub fn send_to_qq_groups(&self) -> (r: Option<Vec<i64>>)
        ensures
            r is Some <==> self.server.slot is Some,
            r is Some ==> r->0@ == self.group_ids@,
    {
        if self.server.connection().is_none() {
            return None;
        }
        Some(copy_ids(&self.group_ids))
    }

    /// Takes a message of the chatroom: gives what the router is asked and what the
    /// game is told. An empty message and one of the hub itself are passed over.
    pub fn dispatch_chatroom_message(&mut self, message: &Json, now: i64) -> (r: Option<
        ChatroomInbound,
    >)
        requires
            old(self).recent@.next_id < u64::MAX,
        ensures
            ({
                let content = trimmed(member_text(message@, "content"@));
                let username = member_text(message@, "username"@);
                let own = crate::adapters::chatroom_read::own_message(message@, old(self).auth@.user_id);
                if content.len() == 0 || own {
                    r is None && final(self).recent@ == old(self).recent@
                } else {
                    &&& r is Some
                    &&& r->0.inbound@ == (InboundV {
                        source: SourceV::Chatroom { username },
                        text: content,
                        group_id: 0,
                        user_id: 0,
                        display_name: username,
                    })
                    &&& text_in(r->0.game_text) == if old(self).cfg@.chatroom.qq_to_game_enabled
                        && old(self).game_is_up() {
                        Some(chatroom_line(username, content))
                    } else {
                        None
                    }
                    &&& final(self).recent@ == old(self).recent@.with(
                        "chatroom"@,
                        username,
                        content,
                        now,
                    )
                }
            }),
            *final(self) == (BridgeService { recent: final(self).recent, ..*old(self) }),
            r is Some <==> chatroom_heard(message@, old(self).auth@.user_id),
            r matches Some(m) ==> m.inbound@ == chatroom_inbound(message@),
    {
        let raw = read_member(message, "content");
        let content = trim(raw.as_str());
        if content.as_str().is_empty() {
            return None;
        }
        let username = read_member(message, "username");
        if ChatroomReader::is_own_message(message, self.auth.user_id()) {
            return None;
        }
        self.recent.push("chatroom", username.as_str(), content.as_str(), now);
        let game_text = if self.cfg.chatroom.qq_to_game_enabled && self.chatbridge_connected() {
            if username.as_str().is_empty() {
                Some(join2("[Chatroom] ", content.as_str()))
            } else {
                let head = join3("[Chatroom] ", username.as_str(), ": ");
                Some(join2(head.as_str(), content.as_str()))
            }
        } else {
            None
        };
        let inbound = InboundMessage {
            source: Source::Chatroom { username: username.clone() },
            text: content,
            group_id: 0,
            user_id: 0,
            display_name: username,
        };
        Some(ChatroomInbound { inbound, game_text })
    }

    /// Takes a message of the game: gives what is written to the chatroom, what the
    /// router is asked, and what the groups are told of a player who came or went. An
    /// empty message is passed over.
    pub fn on_game_chat(&mut self, sender: &str, author: &str, message: &str, now: i64) -> (r: Option<
        GameInbound,
    >)
        requires
            old(self).recent@.next_id < u64::MAX,
        ensures
            ({
                let content = trimmed(message@);
                let nickname = game_name(sender@, author@);
                if content.len() == 0 {
                    r is None && final(self).recent@ == old(self).recent@
                } else {
                    &&& r is Some
                    &&& r->0.text@ == game_line(sender@, author@, content)
                    &&& r->0.nickname@ == nickname
                    &&& r->0.inbound@ == (InboundV {
                        source: SourceV::Game { sender: sender@, author: author@ },
                        text: content,
                        group_id: 0,
                        user_id: 0,
                        display_name: nickname,
                    })
                    &&& text_in(r->0.event_text) == event_line(
                        old(self).detector.join_pattern(),
                        old(self).detector.quit_pattern(),
                        sender@,
                        author@,
                        content,
                    )
                    &&& final(self).recent@ == old(self).recent@.with(
                        "game"@,
                        nickname,
                        content,
                        now,
                    )
                }
            }),
            *final(self) == (BridgeService { recent: final(self).recent, ..*old(self) }),
            r matches Some(m) ==> m.inbound@ == game_inbound(sender@, author@, message@),
    {
        let content = trim(message);
        if content.as_str().is_empty() {
            return None;
        }
        let text = if author.is_empty() {
            join2("🟢 ", content.as_str())
        } else {
            let head = join3("🎮 [", sender, "] ");
            let named = join3(head.as_str(), author, ": ");
            join2(named.as_str(), content.as_str())
        };
        let nickname = if author.is_empty() {
            sender.to_owned()
        } else {
            author.to_owned()
        };
        self.recent.push("game", nickname.as_str(), content.as_str(), now);
        let event_text = if self.detector.enabled() {
            match self.detector.detect(sender, content.as_str()) {
                Some(event) => if author.is_empty() || same(author, event.player.as_str()) {
                    Some(event.push_text())
                } else {
                    None
                },
                None => None,
            }
        } else {
            None
        };
        let inbound = InboundMessage {
            source: Source::Game { sender: sender.to_owned(), author: author.to_owned() },
            text: content,
            group_id: 0,
            user_id: 0,
            display_name: nickname.clone(),
        };
        Some(GameInbound { text, nickname, inbound, event_text })
    }

    /// The next message of the hub to the chatroom; nothing where there is no token to
    /// write with. `kind` says what it is.
    fn next_message(
        &mut self,
        source: PostSource,
        kind: &str,
        content: &str,
        username: &str,
        nickname: &str,
        millis: u64,
    ) -> (r: Option<PostMessage>)
        requires
            old(self).game_seq < u64::MAX,
        ensures
            if old(self).forward_api.is_configured() {
                &&& r is Some
                &&& r->0@ == hub_message(
                    source,
                    kind@,
                    millis,
                    (old(self).game_seq + 1) as u64,
                    content@,
                    username@,
                    nickname@,
                )
                &&& final(self).game_seq == old(self).game_seq + 1
            } else {
                r is None && final(self).game_seq == old(self).game_seq
            },
            *final(self) == (BridgeService { game_seq: final(self).game_seq, ..*old(self) }),
    {
        if !self.forward_api.configured() {
            return None;
        }
        self.game_seq = self.game_seq + 1;
        let mut message = PostMessage::new(source);
        message.content = content.to_owned();
        message.source_message_id = make_id(kind, millis, self.game_seq);
        message.sender_username = username.to_owned();
        message.nickname = nickname.to_owned();
        Some(message)
    }

    /// The message that writes what was said in the game to the chatroom.
    pub fn post_game_message(
        &mut self,
        prefix: &str,
        content: &str,
        nickname: &str,
        username: &str,
        millis: u64,
    ) -> (r: Option<PostMessage>)
        requires
            old(self).game_seq < u64::MAX,
        ensures
            if old(self).forward_api.is_configured() {
                &&& r is Some
                &&& r->0@ == hub_message(
                    PostSource::Game,
                    prefix@,
                    millis,
                    (old(self).game_seq + 1) as u64,
                    content@,
                    username@,
                    nickname@,
                )
                &&& final(self).game_seq == old(self).game_seq + 1
            } else {
                r is None && final(self).game_seq == old(self).game_seq
            },
            *final(self) == (BridgeService { game_seq: final(self).game_seq, ..*old(self) }),
            r matches Some(m) ==> m@ == game_post(
                prefix@,
                content@,
                nickname@,
                username@,
                millis,
                final(self).game_seq,
            ),
    {
        self.next_message(PostSource::Game, prefix, content, username, nickname, millis)
    }

    /// The message that writes a chat message of the game to the chatroom.
    pub fn forward_game_chat(&mut self, content: &str, nickname: &str, username: &str, millis: u64) -> (r:
        Option<PostMessage>)
        requires
            old(self).game_seq < u64::MAX,
        ensures
            if old(self).forward_api.is_configured() {
                &&& r is Some
                &&& r->0@ == hub_message(
                    PostSource::Game,
                    "game-chat"@,
                    millis,
                    (old(self).game_seq + 1) as u64,
                    content@,
                    username@,
                    nickname@,
                )
                &&& final(self).game_seq == old(self).game_seq + 1
            } else {
                r is None && final(self).game_seq == old(self).game_seq
            },
            *final(self) == (BridgeService { game_seq: final(self).game_seq, ..*old(self) }),
            r matches Some(m) ==> m@ == game_post(
                "game-chat"@,
                content@,
                nickname@,
                username@,
                millis,
                final(self).game_seq,
            ),
    {
        self.post_game_message("game-chat", content, nickname, username, millis)
    }

    /// The message that writes a text to the chatroom, for whoever asks for it.
    pub fn chatroom_post(
        &mut self,
        source: &str,
        content: &str,
        sender_username: &str,
        nickname: &str,
        millis: u64,
    ) -> (r: Option<PostMessage>)
        requires
            old(self).game_seq < u64::MAX,
        ensures
            if old(self).forward_api.is_configured() {
                &&& r is Some
                &&& r->0@ == hub_message(
                    if source@ == "qq"@ {
                        PostSource::QQ
                    } else {
                        PostSource::Game
                    },
                    "hub"@,
                    millis,
                    (old(self).game_seq + 1) as u64,
                    content@,
                    sender_username@,
                    nickname@,
                )
                &&& final(self).game_seq == old(self).game_seq + 1
            } else {
                r is None && final(self).game_seq == old(self).game_seq
            },
            *final(self) == (BridgeService { game_seq: final(self).game_seq, ..*old(self) }),
    {
        let side = if same(source, "qq") {
            PostSource::QQ
        } else {
            PostSource::Game
        };
        self.next_message(side, "hub", content, sender_username, nickname, millis)
    }

    /// The message that answers someone in the chatroom.
    pub fn chatroom_reply(&mut self, text: &str, millis: u64) -> (r: Option<PostMessage>)
        requires
            old(self).game_seq < u64::MAX,
        ensures
            if old(self).forward_api.is_configured() {
                &&& r is Some
                &&& r->0@ == hub_message(
                    PostSource::Game,
                    "agent-reply"@,
                    millis,
                    (old(self).game_seq + 1) as u64,
                    text@,
                    ""@,
                    ""@,
                )
                &&& final(self).game_seq == old(self).game_seq + 1
            } else {
                r is None && final(self).game_seq == old(self).game_seq
            },
            *final(self) == (BridgeService { game_seq: final(self).game_seq, ..*old(self) }),
            r matches Some(m) ==> m@ == answer_post(text@, millis, final(self).game_seq),
    {
        self.next_message(PostSource::Game, "agent-reply", text, "", "", millis)
    }

    /// The bytes that tell the game something; nothing where the link is not up.
    pub fn game_broadcast(&self, text: &str) -> (r: Option<Vec<u8>>)
        ensures
            r is Some <==> self.game_is_up(),
            r is Some ==> r->0@ == crate::adapters::chatbridge::packet_frame(
                self.chatbridge->0.order,
                self.chatbridge->0.cryptor,
                crate::adapters::chatbridge::packet_v(
                    self.chatbridge->0.name@,
                    Seq::<Text>::empty(),
                    true,
                    crate::adapters::chatbridge::PACKET_TYPE_CHAT@,
                    crate::adapters::chatbridge::chat_payload(""@, text@),
                ),
            ),
    {
        match &self.chatbridge {
            Some(client) => client.broadcast_chat(text, ""),
            None => None,
        }
    }
}

/// Whether a number is in a list.
fn has_id(v: &Vec<i64>, x: i64) -> (r: bool)
    ensures
        r == v@.contains(x),
{
    let mut i: usize = 0;
    while i < v.len()
        invariant
            i <= v@.len(),
            forall|k: int| 0 <= k < i ==> v@[k] != x,
        decreases v@.len() - i,
    {
        if v[i] == x {
            assert(v@[i as int] == x);
            return true;
        }
        i = i + 1;
    }
    false
}

/// The same numbers again.
fn copy_ids(v: &Vec<i64>) -> (r: Vec<i64>)
    ensures
        r@ == v@,
{
    let mut out: Vec<i64> = Vec::new();
    let mut i: usize = 0;
    while i < v.len()
        invariant
            i <= v@.len(),
            out@ == v@.take(i as int),
        decreases v@.len() - i,
    {
        out.push(v[i]);
        i = i + 1;
        assert(out@ =~= v@.take(i as int));
    }
    assert(out@ =~= v@);
    out
}

/// Nobody can pretend that another player came or went: what a player says of
/// someone else is not told.
pub proof fn players_speak_for_themselves(
    join: Option<Text>,
    quit: Option<Text>,
    sender: Text,
    author: Text,
    content: Text,
)
    requires
        author.len() > 0,
        match event_in(join, quit, sender, content) {
            Some(e) => e.player != author,
            None => true,
        },
    ensures
        event_line(join, quit, sender, author, content) is None,
{
}

// ---- what the hub keeps to ----

/// What the game is told of a chatroom message begins with where it comes from and the
/// name of the user where there is one, and ends with what was said; so two messages of
/// one user that say different things are told apart.
pub proof fn the_game_hears_what_was_said(username: Text, content: Text, other: Text)
    ensures
        begins(chatroom_line(username, content), "[Chatroom] "@ + username),
        ends(chatroom_line(username, content), content),
        chatroom_line(username, content) == chatroom_line(username, other) <==> content == other,
        username.len() > 0 ==> chatroom_line(username, content).len() == "[Chatroom] "@.len()
            + username.len() + 2 + content.len(),
        username.len() == 0 ==> chatroom_line(username, content).len() == "[Chatroom] "@.len()
            + content.len(),
{
    reveal_strlit(": ");
    let head = "[Chatroom] "@ + username;
    let full = if username.len() == 0 {
        head
    } else {
        head + ": "@
    };
    let line = chatroom_line(username, content);
    assert(line =~= full + content);
    assert(chatroom_line(username, other) =~= full + other);
    assert(line.subrange(0, head.len() as int) =~= head);
    assert(line.subrange(line.len() - content.len(), line.len() as int) =~= content);
    alike_behind_a_head(full, content, other);
}

/// What the groups are told of a game message ends with what was said, and names the
/// server and the player before it where there is a player; so two messages of one
/// player that say different things are told apart, and so are two players.
pub proof fn the_groups_hear_what_was_said(
    sender: Text,
    author: Text,
    content: Text,
    other: Text,
)
    ensures
        ends(game_line(sender, author, content), content),
        game_line(sender, author, content) == game_line(sender, author, other) <==> content
            == other,
        author.len() > 0 ==> has(game_line(sender, author, content), sender) && has(
            game_line(sender, author, content),
            author,
        ),
        author.len() > 0 ==> begins(game_line(sender, author, content), "🎮 ["@ + sender),
        author.len() == 0 ==> begins(game_line(sender, author, content), "🟢 "@),
        author.len() == 0 ==> game_line(sender, author, content).len() == "🟢 "@.len()
            + content.len(),
        game_name(sender, author) == author || author.len() == 0 && game_name(sender, author)
            == sender,
{
    let none = Seq::<char>::empty();
    let start = "🎮 ["@ + sender;
    let full = if author.len() > 0 {
        start + "] "@ + author + ": "@
    } else {
        "🟢 "@
    };
    let line = game_line(sender, author, content);
    assert(line =~= full + content);
    assert(game_line(sender, author, other) =~= full + other);
    assert(line.subrange(line.len() - content.len(), line.len() as int) =~= content);
    alike_behind_a_head(full, content, other);
    if author.len() > 0 {
        a_part_occurs("🎮 ["@, sender, "] "@ + author + ": "@ + content);
        assert("🎮 ["@ + sender + ("] "@ + author + ": "@ + content) =~= line);
        a_part_occurs(start + "] "@, author, ": "@ + content);
        assert(start + "] "@ + author + (": "@ + content) =~= line);
        assert(line.subrange(0, start.len() as int) =~= start);
    } else {
        assert(line.subrange(0, "🟢 "@.len() as int) =~= "🟢 "@);
    }
}

/// What is told of a player who came or went names the player and says which of the two
/// it was.
pub proof fn an_event_names_its_player(
    join: Option<Text>,
    quit: Option<Text>,
    sender: Text,
    author: Text,
    content: Text,
)
    ensures
        match event_line(join, quit, sender, author, content) {
            Some(line) => match event_in(join, quit, sender, content) {
                Some(e) => {
                    &&& has(line, e.player)
                    &&& author.len() == 0 || author == e.player
                    &&& match e.event_type {
                        crate::services::player_events::EventType::Online => ends(line, " 上线"@)
                            && begins(line, "🎮 "@),
                        crate::services::player_events::EventType::Offline => ends(line, " 下线"@)
                            && begins(line, "🚪 "@),
                    }
                },
                None => false,
            },
            None => match event_in(join, quit, sender, content) {
                Some(e) => join is None && quit is None || author.len() > 0 && author != e.player,
                None => true,
            },
        },
{
    match event_line(join, quit, sender, author, content) {
        Some(line) => {
            let e = event_in(join, quit, sender, content)->0;
            let (head, tail) = match e.event_type {
                crate::services::player_events::EventType::Online => ("🎮 "@, " 上线"@),
                crate::services::player_events::EventType::Offline => ("🚪 "@, " 下线"@),
            };
            a_part_occurs(head, e.player, tail);
            assert(line =~= head + e.player + tail);
            assert(line.subrange(0, head.len() as int) =~= head);
            assert(line.subrange(line.len() - tail.len(), line.len() as int) =~= tail);
        },
        None => {},
    }
}

/// A message of the hub says what was given, under the names that were given, and no two
/// of one kind have the same number: their count tells them apart.
pub proof fn a_hub_message_is_told_by_its_count(
    source: PostSource,
    kind: Text,
    millis: u64,
    seq: u64,
    later: u64,
    next: u64,
    content: Text,
    username: Text,
    nickname: Text,
)
    ensures
        ({
            let m = hub_message(source, kind, millis, seq, content, username, nickname);
            &&& m.source == source
            &&& m.content == content
            &&& m.sender_username == username
            &&& m.nickname == nickname
            &&& m.sender_qq is None
            &&& m.attachment_ids.len() == 0
            &&& begins(m.source_message_id, kind)
        }),
        hub_message(source, kind, millis, seq, content, username, nickname).source_message_id
            == hub_message(
            source,
            kind,
            later,
            next,
            content,
            username,
            nickname,
        ).source_message_id ==> millis == later && seq == next,
{
    reveal_strlit("-");
    assert("-"@ =~= seq!['-']);
    let head = kind + "-"@;
    let x = decimal(millis as nat) + seq!['-'] + decimal(seq as nat);
    let y = decimal(later as nat) + seq!['-'] + decimal(next as nat);
    assert(hub_id(kind, millis, seq) =~= head + x);
    assert(hub_id(kind, later, next) =~= head + y);
    assert((head + x).subrange(0, kind.len() as int) =~= kind);
    if hub_id(kind, millis, seq) == hub_id(kind, later, next) {
        alike_behind_a_head(head, x, y);
        digits_hold_digits(millis as nat, '-');
        digits_hold_digits(later as nat, '-');
        what_is_parted_alike_is_alike(
            decimal(millis as nat),
            decimal(seq as nat),
            decimal(later as nat),
            decimal(next as nat),
            '-',
        );
        different_numbers_differ(millis as nat, later as nat);
        different_numbers_differ(seq as nat, next as nat);
    }
}

/// What is given of a list are its last entries in their order, as many as asked for or
/// all there are.
pub proof fn the_last_are_given(s: Seq<RecordV>, n: nat)
    ensures
        last_of(s, n).len() == if s.len() < n {
            s.len()
        } else {
            n
        },
        forall|i: int|
            0 <= i < last_of(s, n).len() ==> #[trigger] last_of(s, n)[i] == s[s.len() - last_of(
                s,
                n,
            ).len() + i],
{
}

/// A message that is logged is logged with its source, its author and the beginning of
/// its text, and those logged before it stay in their order as far as there is room.
pub proof fn the_log_says_what_was_said(
    log: RecentV,
    source: Text,
    from: Text,
    text: Text,
    timestamp: i64,
)
    requires
        log.cap > 0,
        log.next_id < u64::MAX,
    ensures
        ({
            let items = log.with(source, from, text, timestamp).items;
            &&& items.last().source == source
            &&& items.last().from == from
            &&& items.last().timestamp == timestamp
            &&& begins(text, items.last().text)
            &&& text.len() <= 500 ==> items.last().text == text
            &&& items.last().text.len() <= 500
            &&& items.len() == if log.items.len() < log.cap {
                log.items.len() + 1
            } else {
                log.cap
            }
            &&& forall|i: int|
                0 <= i < items.len() - 1 ==> #[trigger] items[i] == log.items[log.items.len() + 1
                    - items.len() + i]
        }),
{
    a_message_is_the_last_one(log, source, from, text, timestamp);
    a_prefix_is_a_beginning(text, RECENT_MESSAGE_TEXT_MAX as nat);
}

/// A text member of a message is read as it is; one that is missing or no text as
/// nothing.
pub proof fn a_member_is_read_as_text(j: JsonV, key: Text, t: Text)
    ensures
        j.field(key) == Some(JsonV::Str(t)) ==> member_text(j, key) == t,
        j.field(key) is None ==> member_text(j, key).len() == 0,
        j.field(key) == Some(JsonV::Null) ==> member_text(j, key).len() == 0,
{
}

/// A picture is sent as the text that stands for its bytes, behind the word that says
/// so.
pub proof fn a_picture_is_sent_whole(png: Seq<u8>)
    ensures
        begins(image_uri(png), "base64://"@),
        ends(image_uri(png), base64_encoded(png)),
        image_uri(png).len() == "base64://"@.len() + base64_encoded(png).len(),
{
    let s = image_uri(png);
    let h = "base64://"@;
    assert(s.subrange(0, h.len() as int) =~= h);
    assert(s.subrange(s.len() - base64_encoded(png).len(), s.len() as int) =~= base64_encoded(png));
}

/// Messages are taken from the groups that are configured, and from all where none is.
pub proof fn configured_groups_are_heard(s: BridgeService, group_id: i64)
    ensures
        s.group_ids@.len() == 0 ==> s.takes_group(group_id),
        s.group_ids@.contains(group_id) ==> s.takes_group(group_id),
        s.group_ids@.len() > 0 && !s.group_ids@.contains(group_id) ==> !s.takes_group(group_id),
        s.chatbridge is None ==> !s.game_is_up(),
{
}

/// The handlers are asked in this order: the commands of the groups, what is to be
/// forwarded, the announcements, and then the skills in theirs; none is left out.
pub proof fn handlers_stand_in_order(
    forward: QqForwardRelay,
    snapshot: SnapshotRelay,
    skills: Seq<DocQuerySkill>,
)
    ensures
        handlers_of(forward, snapshot, skills).len() == 3 + skills.len(),
        handlers_of(forward, snapshot, skills)[0] is Slash,
        handlers_of(forward, snapshot, skills)[1] == Handler::Forward(forward),
        handlers_of(forward, snapshot, skills)[2] == Handler::Snapshot(snapshot),
        forall|i: int|
            0 <= i < skills.len() ==> #[trigger] handlers_of(forward, snapshot, skills)[3 + i]
                == Handler::Skill(skills[i]),
{
}

/// A group message is handed on with all that it says, for its group, from its user and
/// under the name that the user is shown by.
pub proof fn a_group_message_is_handed_on_whole(msg: GroupMessageV)
    ensures
        ({
            let m = group_inbound(msg);
            &&& m.source is QQ
            &&& m.text == trimmed(crate::adapters::onebot::segments_text(msg.segments))
            &&& m.group_id == msg.group_id
            &&& m.user_id == msg.user_id
            &&& m.display_name == msg.shown_name()
        }),
{
}

/// A chatroom message is handed on with what it says, from the user who said it; what
/// says nothing, or what the hub itself said, is not handed on.
pub proof fn a_chatroom_message_is_handed_on_whole(
    message: JsonV,
    content: Text,
    username: Text,
    user: i64,
    own: i64,
)
    requires
        message.field("content"@) == Some(JsonV::Str(content)),
        message.field("username"@) == Some(JsonV::Str(username)),
    ensures
        chatroom_inbound(message).text == trimmed(content),
        chatroom_inbound(message).source == (SourceV::Chatroom { username }),
        chatroom_inbound(message).display_name == username,
        trimmed(content).len() == 0 ==> !chatroom_heard(message, Some(own)) && !chatroom_heard(
            message,
            None,
        ),
        trimmed(content).len() > 0 ==> chatroom_heard(message, None),
        trimmed(content).len() > 0 && message.field("user_id"@) == Some(
            crate::json::int_json(user),
        ) ==> (chatroom_heard(message, Some(own)) <==> user != own),
{
    crate::adapters::chatroom_read::own_messages_are_told_by_their_user(message, user, own);
}

/// A game message is handed on with what it says, from the player who said it, or from
/// the server where no player did; and the chatroom is told just that.
pub proof fn a_game_message_is_handed_on_whole(
    sender: Text,
    author: Text,
    message: Text,
    prefix: Text,
    username: Text,
    millis: u64,
    seq: u64,
)
    ensures
        game_inbound(sender, author, message).text == trimmed(message),
        game_inbound(sender, author, message).source == (SourceV::Game { sender, author }),
        author.len() > 0 ==> game_inbound(sender, author, message).display_name == author,
        author.len() == 0 ==> game_inbound(sender, author, message).display_name == sender,
        ({
            let post = game_post(prefix, message, author, username, millis, seq);
            &&& post.content == message
            &&& post.nickname == author
            &&& post.sender_username == username
            &&& post.source == PostSource::Game
        }),
{
}

/// An answer of the hub says what was to be said, in nobody's name.
pub proof fn an_answer_says_what_was_to_be_said(text: Text, millis: u64, seq: u64)
    ensures
        answer_post(text, millis, seq).content == text,
        answer_post(text, millis, seq).nickname.len() == 0,
        answer_post(text, millis, seq).sender_username.len() == 0,
        answer_post(text, millis, seq).attachment_ids.len() == 0,
{
    reveal_strlit("");
}

} // verus!
