//! The handlers: slash commands, the relays from the game and the chatroom to the QQ
//! groups, and the commands that look something up.

use crate::agent::skill::DocQuerySkill;
use crate::router::{
    match_prefix, payload_behind, CommandHandler, CommandInfo, InboundMessage, InboundV, InfoV,
    Source, SourceV,
};
use crate::services::commands::{
    command_in, known, parse_command, CommandQuery, CommandResult, CommandService,
};
use crate::text::{
    alike_behind_a_head, begins, ends, is_white, join2, join3, same, texts, what_is_trimmed_stays,
    Text,
};
use vstd::prelude::*;

verus! {

/// What to send back to where a message came from.
#[derive(Debug)]
pub enum Reply {
    Text(String),
    /// A PNG image.
    Image(Vec<u8>),
}

/// `/chatroom`, `/server` and its other name `/status`, from a QQ group. What is
/// answered, and to whom, is up to the [`CommandService`].
#[derive(Debug)]
pub struct SlashCommandAdapter;

/// What [`SlashCommandAdapter`] says of itself.
pub open spec fn slash_info() -> InfoV {
    InfoV {
        name: "chatroom"@,
        aliases: seq!["server"@, "status"@],
        trigger: "/<name>"@,
        description: "查询语音频道在线名单与服务器状态（/server 支持状态图，QQ 群）"@,
    }
}

impl CommandHandler for SlashCommandAdapter {
    open spec fn claims(&self, msg: InboundV) -> bool {
        msg.source is QQ && match command_in(msg.text) {
            Some((name, _)) => known(name),
            None => false,
        }
    }

    open spec fn about(&self) -> InfoV {
        slash_info()
    }

    fn info(&self) -> (r: CommandInfo) {
        let aliases: Vec<String> = vec!["server".to_owned(), "status".to_owned()];
        assert(texts(aliases@) =~= seq!["server"@, "status"@]);
        CommandInfo {
            name: "chatroom".to_owned(),
            aliases,
            trigger: "/<name>".to_owned(),
            description: "查询语音频道在线名单与服务器状态（/server 支持状态图，QQ 群）".to_owned(),
        }
    }

    fn matches(&self, msg: &InboundMessage) -> (r: bool) {
        match &msg.source {
            Source::QQ => {},
            _ => return false,
        }
        match parse_command(msg.text.as_str()) {
            Some(p) => same(p.0.as_str(), "chatroom") || same(p.0.as_str(), "server") || same(
                p.0.as_str(),
                "status",
            ),
            None => false,
        }
    }
}

impl SlashCommandAdapter {
    /// The question to ask for a message, as [`CommandService::handle`] gives it;
    /// nothing where the message is not answered.
    pub fn handle(&self, commands: &mut CommandService, msg: &InboundMessage) -> (r: Option<
        CommandQuery,
    >)
        requires
            old(commands).counts.chatroom < u64::MAX,
            old(commands).counts.server < u64::MAX,
        ensures
            r is Some <==> (match command_in(msg@.text) {
                Some((name, _)) => known(name) && old(commands).admits(msg@.user_id),
                None => false,
            }),
            match r {
                Some(CommandQuery::Voice(url)) => {
                    &&& (command_in(msg@.text)->0).0 == "chatroom"@
                    &&& url@ == old(commands).voice_api@
                    &&& final(commands).counts.chatroom == old(commands).counts.chatroom + 1
                    &&& final(commands).counts.server == old(commands).counts.server
                },
                Some(CommandQuery::Status { url, image }) => {
                    &&& (command_in(msg@.text)->0).0 != "chatroom"@
                    &&& url@ == old(commands).status_api@
                    &&& image == old(commands).status_image
                    &&& final(commands).counts.chatroom == old(commands).counts.chatroom
                    &&& final(commands).counts.server == old(commands).counts.server + 1
                },
                None => final(commands).counts == old(commands).counts,
            },
            *final(commands) == (CommandService {
                counts: final(commands).counts,
                ..*old(commands)
            }),
    {
        commands.handle(msg.text.as_str(), msg.user_id)
    }

    /// What to send back for a result: its image, or else its text. An empty result
    /// is not sent, and leaves the message to others.
    pub fn reply(&self, result: CommandResult) -> (r: Option<Reply>)
        ensures
            r == (match result.image {
                Some(png) => Some(Reply::Image(png)),
                None => if result.text@.len() == 0 {
                    None
                } else {
                    Some(Reply::Text(result.text))
                },
            }),
            r == said_of(result),
    {
        if result.empty() {
            return None;
        }
        match result.image {
            Some(png) => Some(Reply::Image(png)),
            None => Some(Reply::Text(result.text)),
        }
    }
}

/// What is said of an answer: the image where it has one, or else its text.
pub open spec fn said_of(result: CommandResult) -> Option<Reply> {
    match result.image {
        Some(png) => Some(Reply::Image(png)),
        None => if result.text@.len() == 0 {
            None
        } else {
            Some(Reply::Text(result.text))
        },
    }
}

/// `!q <text>`: sends what is said in the chatroom or in the game to the QQ groups.
#[derive(Debug)]
pub struct QqForwardRelay {
    pub enabled: bool,
}

/// What [`QqForwardRelay`] says of itself.
pub open spec fn forward_info() -> InfoV {
    InfoV {
        name: "q"@,
        aliases: Seq::empty(),
        trigger: "!q <内容>"@,
        description: "把 chatroom / 游戏内消息转发到 QQ 群"@,
    }
}

/// What a `!q` message says, where it says anything.
pub open spec fn forward_payload(text: Text) -> Option<Text> {
    something_behind(text, "!q"@)
}

/// The line that the QQ groups get for a `!q` message.
pub open spec fn forward_line(source: SourceV, payload: Text) -> Option<Text> {
    match source {
        SourceV::QQ => None,
        SourceV::Game { sender, author } => Some(
            "[游戏|"@ + sender + "] "@ + author + ": "@ + payload,
        ),
        SourceV::Chatroom { username } => if username.len() > 0 {
            Some("[Chatroom] "@ + username + ": "@ + payload)
        } else {
            Some("[Chatroom]: "@ + payload)
        },
    }
}

impl CommandHandler for QqForwardRelay {
    open spec fn claims(&self, msg: InboundV) -> bool {
        &&& self.enabled
        &&& match msg.source {
            SourceV::QQ => false,
            SourceV::Game { author, .. } => author.len() > 0,
            SourceV::Chatroom { .. } => true,
        }
        &&& forward_payload(msg.text) is Some
    }

    open spec fn about(&self) -> InfoV {
        forward_info()
    }

    fn info(&self) -> (r: CommandInfo) {
        let aliases: Vec<String> = Vec::new();
        assert(texts(aliases@) =~= Seq::empty());
        CommandInfo {
            name: "q".to_owned(),
            aliases,
            trigger: "!q <内容>".to_owned(),
            description: "把 chatroom / 游戏内消息转发到 QQ 群".to_owned(),
        }
    }

    fn matches(&self, msg: &InboundMessage) -> (r: bool) {
        if !self.enabled {
            return false;
        }
        match &msg.source {
            Source::QQ => return false,
            Source::Game { sender: _, author } => {
                if author.as_str().is_empty() {
                    return false;
                }
            },
            Source::Chatroom { .. } => {},
        }
        said(msg.text.as_str(), "!q").is_some()
    }
}

impl QqForwardRelay {
    /// The line to send to all QQ groups for a message; nothing where the message is
    /// not to be relayed.
    pub fn handle(&self, msg: &InboundMessage) -> (r: Option<String>)
        ensures
            match r {
                Some(line) => {
                    &&& forward_payload(msg@.text) is Some
                    &&& forward_line(msg@.source, forward_payload(msg@.text)->0) == Some(line@)
                },
                None => msg@.source is QQ || forward_payload(msg@.text) is None,
            },
    {
        let payload = match said(msg.text.as_str(), "!q") {
            Some(p) => p,
            None => return None,
        };
        match &msg.source {
            Source::QQ => None,
            Source::Game { sender, author } => {
                let head = join3("[游戏|", sender.as_str(), "] ");
                let named = join3(head.as_str(), author.as_str(), ": ");
                Some(join2(named.as_str(), payload.as_str()))
            },
            Source::Chatroom { username } => if username.as_str().is_empty() {
                Some(join2("[Chatroom]: ", payload.as_str()))
            } else {
                let named = join3("[Chatroom] ", username.as_str(), ": ");
                Some(join2(named.as_str(), payload.as_str()))
            },
        }
    }
}

/// What stands behind a prefix, where anything does.
pub open spec fn something_behind(text: Text, prefix: Text) -> Option<Text> {
    match payload_behind(text, prefix) {
        Some(p) if p.len() > 0 => Some(p),
        _ => None,
    }
}

/// What stands behind a prefix, where anything does.
fn said(text: &str, prefix: &str) -> (r: Option<String>)
    ensures
        match r {
            Some(p) => something_behind(text@, prefix@) == Some(p@),
            None => something_behind(text@, prefix@) is None,
        },
{
    match match_prefix(text, prefix) {
        Some(p) => if p.as_str().is_empty() {
            None
        } else {
            Some(p)
        },
        None => None,
    }
}

/// `!snap <text>`: sends what one client of the game announces to the QQ groups. Only
/// the name of the client counts, which a player cannot take.
#[derive(Debug)]
pub struct SnapshotRelay {
    pub enabled: bool,
    pub sender: String,
    pub prefix: String,
}

/// What the groups are told of an announcement.
pub open spec fn snapshot_line(payload: Text) -> Text {
    "[快照服] "@ + payload
}

/// What [`SnapshotRelay`] says of itself.
pub open spec fn snapshot_info() -> InfoV {
    InfoV {
        name: "snap"@,
        aliases: Seq::empty(),
        trigger: "!snap <内容>"@,
        description: "快照服更新通知转发到 QQ 群（仅指定 ChatBridge 客户端可信）"@,
    }
}

impl CommandHandler for SnapshotRelay {
    open spec fn claims(&self, msg: InboundV) -> bool {
        &&& self.enabled
        &&& match msg.source {
            SourceV::Game { sender, .. } => sender == self.sender@,
            _ => false,
        }
        &&& something_behind(msg.text, self.prefix@) is Some
    }

    open spec fn about(&self) -> InfoV {
        snapshot_info()
    }

    fn info(&self) -> (r: CommandInfo) {
        let aliases: Vec<String> = Vec::new();
        assert(texts(aliases@) =~= Seq::empty());
        CommandInfo {
            name: "snap".to_owned(),
            aliases,
            trigger: "!snap <内容>".to_owned(),
            description: "快照服更新通知转发到 QQ 群（仅指定 ChatBridge 客户端可信）".to_owned(),
        }
    }

    fn matches(&self, msg: &InboundMessage) -> (r: bool) {
        if !self.enabled {
            return false;
        }
        match &msg.source {
            Source::Game { sender, author: _ } => same(sender.as_str(), self.sender.as_str())
                && said(msg.text.as_str(), self.prefix.as_str()).is_some(),
            _ => false,
        }
    }
}

impl SnapshotRelay {
    /// The line to send to all QQ groups for a message; nothing where it announces
    /// nothing.
    pub fn handle(&self, msg: &InboundMessage) -> (r: Option<String>)
        ensures
            match r {
                Some(line) => {
                    &&& something_behind(msg@.text, self.prefix@) is Some
                    &&& line@ == "[快照服] "@ + something_behind(msg@.text, self.prefix@)->0
                    &&& line@ == snapshot_line(something_behind(msg@.text, self.prefix@)->0)
                },
                None => something_behind(msg@.text, self.prefix@) is None,
            },
    {
        match said(msg.text.as_str(), self.prefix.as_str()) {
            Some(p) => Some(join2("[快照服] ", p.as_str())),
            None => None,
        }
    }
}

/// One of the handlers.
#[derive(Debug)]
pub enum Handler {
    Slash(SlashCommandAdapter),
    Forward(QqForwardRelay),
    Snapshot(SnapshotRelay),
    Skill(DocQuerySkill),
}

impl CommandHandler for Handler {
    open spec fn claims(&self, msg: InboundV) -> bool {
        match self {
            Handler::Slash(h) => h.claims(msg),
            Handler::Forward(h) => h.claims(msg),
            Handler::Snapshot(h) => h.claims(msg),
            Handler::Skill(h) => h.claims(msg),
        }
    }

    open spec fn about(&self) -> InfoV {
        match self {
            Handler::Slash(h) => h.about(),
            Handler::Forward(h) => h.about(),
            Handler::Snapshot(h) => h.about(),
            Handler::Skill(h) => h.about(),
        }
    }

    fn info(&self) -> (r: CommandInfo) {
        match self {
            Handler::Slash(h) => h.info(),
            Handler::Forward(h) => h.info(),
            Handler::Snapshot(h) => h.info(),
            Handler::Skill(h) => h.info(),
        }
    }

    fn matches(&self, msg: &InboundMessage) -> (r: bool) {
        match self {
            Handler::Slash(h) => h.matches(msg),
            Handler::Forward(h) => h.matches(msg),
            Handler::Snapshot(h) => h.matches(msg),
            Handler::Skill(h) => h.matches(msg),
        }
    }
}

/// A handler that claims a message has a line for it: what is claimed by a relay is
/// relayed.
pub proof fn what_a_relay_claims_has_a_line(relay: QqForwardRelay, msg: InboundV)
    requires
        relay.claims(msg),
    ensures
        forward_payload(msg.text) is Some,
        forward_line(msg.source, forward_payload(msg.text)->0) is Some,
{
}

/// A message from a QQ group is never relayed to the QQ groups.
pub proof fn nothing_from_the_groups_goes_back(
    forward: QqForwardRelay,
    snapshot: SnapshotRelay,
    msg: InboundV,
)
    requires
        msg.source is QQ,
    ensures
        !forward.claims(msg),
        !snapshot.claims(msg),
{
}

/// Only the client of that name is heard: what a player writes through another
/// client is no snapshot notice, whatever it says.
pub proof fn only_the_named_client_announces(relay: SnapshotRelay, msg: InboundV)
    requires
        relay.claims(msg),
    ensures
        msg.source is Game,
        msg.source->sender == relay.sender@,
{
}

/// What is forwarded to the groups is what follows the mark, as it was said, and tells
/// where it comes from and who said it; so two texts of one sender are told apart.
pub proof fn what_is_forwarded_is_what_was_said(
    source: SourceV,
    payload: Text,
    other: Text,
    text: Text,
)
    requires
        !(source is QQ),
    ensures
        text.len() > 0 && !is_white(text[0]) && !is_white(text.last()) ==> forward_payload(
            "!q "@ + text,
        ) == Some(text),
        forward_line(source, payload) matches Some(line) && {
            &&& ends(line, payload)
            &&& forward_line(source, payload) == forward_line(source, other) <==> payload == other
            &&& match source {
                SourceV::Game { sender, author } => begins(line, "[游戏|"@ + sender + "] "@ + author),
                SourceV::Chatroom { username } => username.len() > 0 ==> begins(
                    line,
                    "[Chatroom] "@ + username,
                ),
                SourceV::QQ => false,
            }
        },
{
    reveal_strlit("!q ");
    reveal_strlit("!q");
    if text.len() > 0 && !is_white(text[0]) && !is_white(text.last()) {
        what_is_trimmed_stays(text);
        let q = "!q"@;
        assert("!q "@ + text =~= q + (seq![' '] + text));
        crate::text::trimming_behind_a_word(q, seq![' '] + text);
        crate::router::what_follows_the_trigger_is_asked(q, ' ', text);
        crate::router::what_follows_the_trigger_is_asked(q, ' ', seq![' '] + text);
        assert(q + seq![' '] + text =~= "!q "@ + text);
        crate::router::a_command_is_a_prefix("!q "@ + text, q);
    }
    let line = forward_line(source, payload)->0;
    match source {
        SourceV::Game { sender, author } => {
            let name = "[游戏|"@ + sender + "] "@ + author;
            let head = name + ": "@;
            assert(line =~= head + payload);
            assert(forward_line(source, other)->0 =~= head + other);
            assert(line.subrange(0, name.len() as int) =~= name);
            assert(line.subrange(line.len() - payload.len(), line.len() as int) =~= payload);
            alike_behind_a_head(head, payload, other);
        },
        SourceV::Chatroom { username } => {
            let name = "[Chatroom] "@ + username;
            let head = if username.len() > 0 {
                name + ": "@
            } else {
                "[Chatroom]: "@
            };
            assert(line =~= head + payload);
            assert(forward_line(source, other)->0 =~= head + other);
            assert(line.subrange(line.len() - payload.len(), line.len() as int) =~= payload);
            alike_behind_a_head(head, payload, other);
            if username.len() > 0 {
                assert(line.subrange(0, name.len() as int) =~= name);
            }
        },
        SourceV::QQ => {},
    }
}

/// A relay takes what begins with the mark and has something behind it, from the game
/// where a player said it and from the chatroom; where it is switched off it takes
/// nothing.
pub proof fn a_relay_takes_what_is_marked(relay: QqForwardRelay, msg: InboundV, text: Text)
    requires
        text.len() > 0,
        !is_white(text[0]),
        !is_white(text.last()),
        msg.text == "!q "@ + text,
    ensures
        relay.enabled && (msg.source is Chatroom) ==> relay.claims(msg),
        relay.enabled && (msg.source matches SourceV::Game { sender, author } && author.len() > 0)
            ==> relay.claims(msg),
        !relay.enabled ==> !relay.claims(msg),
        (msg.source matches SourceV::Game { sender, author } && author.len() == 0) ==> !relay.claims(
            msg,
        ),
{
    what_is_forwarded_is_what_was_said(
        SourceV::Chatroom { username: Seq::empty() },
        text,
        text,
        text,
    );
}

/// A command of the groups is claimed where its name is one of the three, and only from
/// the groups.
pub proof fn commands_are_taken_from_the_groups(h: SlashCommandAdapter, msg: InboundV)
    ensures
        !(msg.source is QQ) ==> !h.claims(msg),
        msg.source is QQ ==> (command_in(msg.text) matches Some((name, args)) ==> (h.claims(msg)
            <==> name == "chatroom"@ || name == "server"@ || name == "status"@)),
        command_in(msg.text) is None ==> !h.claims(msg),
{
}

/// What is announced to the groups is what follows the prefix, behind the word for where
/// it comes from; so two announcements are told apart.
pub proof fn an_announcement_says_what_was_announced(payload: Text, other: Text)
    ensures
        ends(snapshot_line(payload), payload),
        begins(snapshot_line(payload), "[快照服] "@),
        snapshot_line(payload) == snapshot_line(other) <==> payload == other,
{
    let h = "[快照服] "@;
    let s = snapshot_line(payload);
    assert(s.subrange(0, h.len() as int) =~= h);
    assert(s.subrange(s.len() - payload.len(), s.len() as int) =~= payload);
    alike_behind_a_head(h, payload, other);
}

/// An announcement is taken from the client that is named, where it begins with the
/// prefix and says something, and from nobody else.
pub proof fn announcements_are_taken_from_the_named_client(
    relay: SnapshotRelay,
    msg: InboundV,
    author: Text,
    text: Text,
)
    requires
        relay.enabled,
        relay.prefix@.len() > 0,
        !is_white(relay.prefix@[0]),
        !is_white(relay.prefix@.last()),
        text.len() > 0,
        !is_white(text[0]),
        !is_white(text.last()),
        msg.text == relay.prefix@ + seq![' '] + text,
    ensures
        msg.source == (SourceV::Game { sender: relay.sender@, author }) ==> relay.claims(msg),
        something_behind(msg.text, relay.prefix@) == Some(text),
{
    crate::router::what_follows_the_trigger_is_asked(relay.prefix@, ' ', text);
    crate::router::a_command_is_a_prefix(msg.text, relay.prefix@);
    what_is_trimmed_stays(text);
}

/// The handlers tell by which names they are called.
pub proof fn handlers_tell_their_names(
    slash: SlashCommandAdapter,
    forward: QqForwardRelay,
    snapshot: SnapshotRelay,
)
    ensures
        slash.about().name == "chatroom"@,
        slash.about().aliases.contains("server"@),
        slash.about().aliases.contains("status"@),
        forward.about().name == "q"@,
        begins(forward.about().trigger, "!q"@),
        snapshot.about().name == "snap"@,
        begins(snapshot.about().trigger, "!snap"@),
{
    reveal_strlit("!q");
    reveal_strlit("!q <内容>");
    reveal_strlit("!snap");
    reveal_strlit("!snap <内容>");
    assert(slash.about().aliases[0] == "server"@);
    assert(slash.about().aliases[1] == "status"@);
    assert(forward.about().trigger.subrange(0, 2) =~= "!q"@);
    assert(snapshot.about().trigger.subrange(0, 5) =~= "!snap"@);
}

/// An answer with an image is given as that image, one without as its text, and one that
/// says nothing is not given.
pub proof fn an_answer_is_given_as_it_is(result: CommandResult)
    ensures
        (result.image matches Some(png) ==> said_of(result) == Some(Reply::Image(png))),
        result.image is None && result.text@.len() > 0 ==> said_of(result) == Some(
            Reply::Text(result.text),
        ),
        result.image is None && result.text@.len() == 0 ==> said_of(result) is None,
{
}

} // verus!
