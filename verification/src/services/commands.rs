//! Commands in QQ groups: `/chatroom` tells who is in a voice channel, `/server`
//! (also `/status`) how the game servers are.

use crate::json::{
    fixed_field, get_fixed, get_list, get_worded, is_truthy_field, items, list_field, read_reply,
    real_equals, reply_bytes, reply_json, truthy_field, worded, worded_field, Json, JsonV, NumberV,
};
use crate::text::{
    a_cut_is_at_the_first, a_part_occurs, among, begins, cut, decimal, digits_have_the_value,
    drop_back, drop_front, ends, every_part_is_joined, first_piece_stays, has, is_white, join,
    join2, join3, joined, joined_texts_come_apart, joining_loses_nothing, lemma_drop_back_ends,
    lemma_drop_front, lowercase_of, occurring_passes_on, pieces, push_text, same, split,
    split_once, starts, texts, to_lowercase, trim, trim_start_of, trimmed, trimming_loses_no_word,
    u64_text, what_is_dropped_at_the_back, what_is_parted_alike_is_alike, what_is_trimmed_stays,
    whites, Text,
};
use vstd::prelude::*;

verus! {

pub const DEFAULT_VOICE_API: &'static str = "https://chatroom.example.com/api/voice/qqbot/get_voice_channel_people";

pub const DEFAULT_STATUS_API: &'static str = "https://status.example.com/api/qqbot/status";

/// Addresses to show where none are configured.
pub const DEFAULT_SERVER_ADDRESSES: [(&'static str, &'static str); 2] = [
    ("主IP", "game.example.com"),
    ("备用地址", "backup.example.com:25565"),
];

/// The answer to a command: a text or an image.
#[derive(Debug)]
pub struct CommandResult {
    pub text: String,
    pub image: Option<Vec<u8>>,
}

impl Default for CommandResult {
    /// An answer that says nothing.
    fn default() -> (r: Self)
        ensures
            r.text@.len() == 0,
            r.image is None,
    {
        CommandResult { text: String::new(), image: None }
    }
}

impl CommandResult {
    /// Whether the answer says nothing.
    pub fn empty(&self) -> (r: bool)
        ensures
            r == (self.text@.len() == 0 && self.image is None),
    {
        self.text.as_str().is_empty() && self.image.is_none()
    }
}

/// What stands before the first space and what stands behind it.
pub open spec fn head_and_rest(text: Text) -> (Text, Text) {
    match cut(text, ' ') {
        Some(p) => p,
        None => (text, Seq::<char>::empty()),
    }
}

/// The command that a text gives: its name, in small letters and without what an at
/// sign begins, and its arguments. A text that does not begin with a slash, or has
/// nothing behind it, gives none.
pub open spec fn command_in(text: Text) -> Option<(Text, Text)> {
    let (head, rest) = head_and_rest(trimmed(text));
    if begins(head, "/"@) {
        let name = pieces(head.subrange(1, head.len() as int), '@')[0];
        if name.len() > 0 {
            Some((lowercase_of(name), trimmed(rest)))
        } else {
            None
        }
    } else {
        None
    }
}

/// The command that a text gives.
pub fn parse_command(text: &str) -> (r: Option<(String, String)>)
    ensures
        match r {
            Some(p) => command_in(text@) == Some((p.0@, p.1@)),
            None => command_in(text@) is None,
        },
{
    proof {
        reveal_strlit("/");
    }
    let text = trim(text);
    let (head, rest) = match split_once(text.as_str(), ' ') {
        Some(p) => p,
        None => (text.clone(), String::new()),
    };
    assert(cut(text@, ' ') is None ==> rest@ =~= Seq::<char>::empty());
    if !starts(head.as_str(), "/") {
        return None;
    }
    let v = crate::text::chars_of(head.as_str());
    let n: usize = v.len();
    let behind = crate::text::text_of(&v, 1, n);
    let parts = split(behind.as_str(), '@');
    assert(texts(parts@)[0] == parts@[0]@);
    let name = to_lowercase(parts[0].as_str());
    if name.as_str().is_empty() {
        return None;
    }
    Some((name, trim(rest.as_str())))
}

/// The name of a player without the bullet before it.
pub open spec fn player_name(player: JsonV) -> Text {
    trimmed(drop_front(worded(player), among("• "@)))
}

/// The name of a player without the bullet before it.
pub fn clean_player_name(player: &Json) -> (r: String)
    ensures
        r@ == player_name(player@),
{
    trim(trim_start_of(player.word().as_str(), "• ").as_str())
}

/// The names of players.
pub open spec fn player_names(players: Seq<JsonV>) -> Seq<Text> {
    players.map_values(|p: JsonV| player_name(p))
}

/// The names of players.
pub fn clean_player_names(players: &Vec<Json>) -> (r: Vec<String>)
    ensures
        texts(r@) == player_names(items(players@)),
{
    let mut out: Vec<String> = Vec::new();
    let ghost all = player_names(items(players@));
    let mut i: usize = 0;
    assert(texts(out@) =~= all.take(0));
    while i < players.len()
        invariant
            i <= players@.len(),
            all == player_names(items(players@)),
            texts(out@) == all.take(i as int),
        decreases players@.len() - i,
    {
        push_text(&mut out, clean_player_name(&players[i]));
        assert(all.take(i + 1) =~= all.take(i as int).push(all[i as int]));
        i = i + 1;
    }
    assert(all.take(i as int) =~= all);
    out
}

pub const NO_VOICE_DATA: &'static str = "无法获取语音频道信息。";

pub const NOBODY_IN_VOICE: &'static str = "当前没有人在语音频道中。";

/// The lines that name users.
pub open spec fn user_lines(users: Seq<JsonV>) -> Seq<Text> {
    users.map_values(|u: JsonV| "  - "@ + worded(u))
}

/// The lines of a channel: who is in it, then an empty line. An item that is no
/// object has none.
pub open spec fn channel_lines(channel: JsonV) -> Seq<Text> {
    match channel {
        JsonV::Object(_) => {
            let users = list_field(channel, "users"@);
            seq![
                "【"@ + worded_field(channel, "server_name"@, "未知服务器"@) + "】"@ + worded_field(
                    channel,
                    "channel_name"@,
                    "未知频道"@,
                ) + " ("@ + decimal(users.len()) + "人)"@,
            ] + user_lines(users) + seq![Seq::<char>::empty()]
        },
        _ => Seq::<Text>::empty(),
    }
}

/// The lines of channels in a row.
pub open spec fn channels_lines(channels: Seq<JsonV>) -> Seq<Text>
    decreases channels.len(),
{
    if channels.len() == 0 {
        Seq::<Text>::empty()
    } else {
        channels_lines(channels.drop_last()) + channel_lines(channels.last())
    }
}

/// What `/chatroom` answers.
pub open spec fn voice_text(data: JsonV) -> Text {
    match data {
        JsonV::Object(_) => {
            let lines = channels_lines(list_field(data, "channels"@));
            if lines.len() == 0 {
                NOBODY_IN_VOICE@
            } else {
                trimmed(
                    joined(
                        seq![
                            "当前语音频道在线人数: "@ + worded_field(data, "total_users"@, "0"@),
                            Seq::<char>::empty(),
                        ] + lines,
                        "\n"@,
                    ),
                )
            }
        },
        _ => NO_VOICE_DATA@,
    }
}

/// Adds the lines of a channel.
fn push_channel(lines: &mut Vec<String>, channel: &Json)
    ensures
        texts(final(lines)@) == texts(old(lines)@) + channel_lines(channel@),
{
    let ghost before = texts(lines@);
    match channel {
        Json::Object(_) => {},
        _ => {
            assert(before + channel_lines(channel@) =~= before);
            return ;
        },
    }
    let users = get_list(channel, "users");
    let ghost names = user_lines(items(users@));
    let mut head = join3(
        "【",
        get_worded(channel, "server_name", "未知服务器").as_str(),
        "】",
    );
    head.append(get_worded(channel, "channel_name", "未知频道").as_str());
    head.append(" (");
    head.append(u64_text(users.len() as u64).as_str());
    head.append("人)");
    let ghost first = head@;
    push_text(lines, head);
    let mut i: usize = 0;
    assert(texts(lines@) =~= before + seq![first] + names.take(0));
    while i < users.len()
        invariant
            i <= users@.len(),
            names == user_lines(items(users@)),
            texts(lines@) == before + seq![first] + names.take(i as int),
        decreases users@.len() - i,
    {
        push_text(lines, join2("  - ", users[i].word().as_str()));
        assert(names.take(i + 1) =~= names.take(i as int).push(names[i as int]));
        assert(texts(lines@) =~= before + seq![first] + names.take(i + 1));
        i = i + 1;
    }
    assert(names.take(i as int) =~= names);
    push_text(lines, String::new());
    assert(texts(lines@) =~= before + channel_lines(channel@));
}

/// What `/chatroom` answers to the data of the voice API.
pub fn format_voice_channels(data: &Json) -> (r: String)
    ensures
        r@ == voice_text(data@),
{
    match data {
        Json::Object(_) => {},
        _ => {
            return NO_VOICE_DATA.to_owned();
        },
    }
    let channels = get_list(data, "channels");
    let mut lines: Vec<String> = Vec::new();
    let count = get_worded(data, "total_users", "0");
    push_text(&mut lines, join2("当前语音频道在线人数: ", count.as_str()));
    push_text(&mut lines, String::new());
    let ghost head = texts(lines@);
    let ghost all = items(channels@);
    let mut i: usize = 0;
    proof {
        assert(head =~= seq![
            "当前语音频道在线人数: "@ + worded_field(data@, "total_users"@, "0"@),
            Seq::<char>::empty(),
        ]);
        assert(channels_lines(all.take(0)) =~= Seq::<Text>::empty());
        assert(head + Seq::<Text>::empty() =~= head);
    }
    while i < channels.len()
        invariant
            i <= channels@.len(),
            all == items(channels@),
            texts(lines@) == head + channels_lines(all.take(i as int)),
        decreases channels@.len() - i,
    {
        assert(all.take(i + 1).drop_last() =~= all.take(i as int));
        assert(all.take(i + 1).last() == channels@[i as int]@);
        push_channel(&mut lines, &channels[i]);
        assert(texts(lines@) =~= head + channels_lines(all.take(i + 1)));
        i = i + 1;
    }
    assert(all.take(i as int) =~= all);
    assert(texts(lines@).len() == lines@.len());
    if lines.len() <= 2 {
        return NOBODY_IN_VOICE.to_owned();
    }
    trim(join(&lines, "\n").as_str())
}

pub const NO_STATUS_DATA: &'static str = "无法获取服务器状态。";

/// The mark of something that is online or not.
pub open spec fn mark(online: bool) -> Text {
    if online {
        "✅"@
    } else {
        "❌"@
    }
}

/// The line of a network route. An item that is no object has none.
pub open spec fn route_lines(route: JsonV) -> Seq<Text> {
    match route {
        JsonV::Object(_) => {
            let online = truthy_field(route, "online"@);
            seq![
                mark(online) + " "@ + worded_field(route, "route_name"@, "Unknown"@) + " - "@ + if online {
                    "延迟 "@ + fixed_field(route, "latency"@, 2, "0.00"@) + "ms / 丢包 "@ + fixed_field(
                        route,
                        "packet_loss"@,
                        1,
                        "0.0"@,
                    ) + "%"@
                } else {
                    "离线"@
                },
            ]
        },
        _ => Seq::<Text>::empty(),
    }
}

/// The lines of a server: its name and, where it is online, who plays on it. An
/// item that is no object has none.
pub open spec fn server_lines(server: JsonV) -> Seq<Text> {
    match server {
        JsonV::Object(_) => {
            let online = truthy_field(server, "online"@);
            let players = player_names(list_field(server, "online_players"@));
            let head = seq![mark(online) + " "@ + worded_field(server, "server_name"@, "Unknown"@)];
            if online {
                head + seq![
                    "   在线 "@ + decimal(players.len()) + " 人: "@ + if players.len() == 0 {
                        "(无)"@
                    } else {
                        joined(players, ", "@)
                    },
                ]
            } else {
                head
            }
        },
        _ => Seq::<Text>::empty(),
    }
}

/// The lines of routes in a row.
pub open spec fn routes_lines(routes: Seq<JsonV>) -> Seq<Text>
    decreases routes.len(),
{
    if routes.len() == 0 {
        Seq::<Text>::empty()
    } else {
        routes_lines(routes.drop_last()) + route_lines(routes.last())
    }
}

/// The lines of servers in a row.
pub open spec fn servers_lines(servers: Seq<JsonV>) -> Seq<Text>
    decreases servers.len(),
{
    if servers.len() == 0 {
        Seq::<Text>::empty()
    } else {
        servers_lines(servers.drop_last()) + server_lines(servers.last())
    }
}

/// A section: a title, its lines and an empty line; none where there is nothing to
/// list.
pub open spec fn section(listed: bool, title: Text, lines: Seq<Text>) -> Seq<Text> {
    if listed {
        seq![title] + lines + seq![Seq::<char>::empty()]
    } else {
        Seq::<Text>::empty()
    }
}

/// What `/server` answers.
pub open spec fn status_text(data: JsonV) -> Text {
    match data {
        JsonV::Object(_) => {
            let routes = list_field(data, "network_routes"@);
            let servers = list_field(data, "servers"@);
            trimmed(
                joined(
                    seq!["服务器状态"@, Seq::<char>::empty()] + section(
                        routes.len() > 0,
                        "【节点状态】"@,
                        routes_lines(routes),
                    ) + section(servers.len() > 0, "【服务器状态】"@, servers_lines(servers)),
                    "\n"@,
                ),
            )
        },
        _ => NO_STATUS_DATA@,
    }
}

/// The mark of something that is online or not.
fn mark_of(online: bool) -> (r: &'static str)
    ensures
        r@ == mark(online),
{
    if online {
        "✅"
    } else {
        "❌"
    }
}

/// Adds the line of a route.
fn push_route(lines: &mut Vec<String>, route: &Json)
    ensures
        texts(final(lines)@) == texts(old(lines)@) + route_lines(route@),
{
    let ghost before = texts(lines@);
    match route {
        Json::Object(_) => {},
        _ => {
            assert(before + route_lines(route@) =~= before);
            return ;
        },
    }
    let online = is_truthy_field(route, "online");
    let mut detail = String::new();
    if online {
        detail.append("延迟 ");
        detail.append(get_fixed(route, "latency", 2, "0.00").as_str());
        detail.append("ms / 丢包 ");
        detail.append(get_fixed(route, "packet_loss", 1, "0.0").as_str());
        detail.append("%");
        assert(detail@ =~= "延迟 "@ + fixed_field(route@, "latency"@, 2, "0.00"@) + "ms / 丢包 "@
            + fixed_field(route@, "packet_loss"@, 1, "0.0"@) + "%"@);
    } else {
        detail.append("离线");
        assert(detail@ =~= "离线"@);
    }
    let mut line = join3(
        mark_of(online),
        " ",
        get_worded(route, "route_name", "Unknown").as_str(),
    );
    line.append(" - ");
    line.append(detail.as_str());
    push_text(lines, line);
    assert(texts(lines@) =~= before + route_lines(route@));
}

/// Adds the lines of a server.
fn push_server(lines: &mut Vec<String>, server: &Json)
    ensures
        texts(final(lines)@) == texts(old(lines)@) + server_lines(server@),
{
    let ghost before = texts(lines@);
    match server {
        Json::Object(_) => {},
        _ => {
            assert(before + server_lines(server@) =~= before);
            return ;
        },
    }
    let online = is_truthy_field(server, "online");
    push_text(
        lines,
        join3(mark_of(online), " ", get_worded(server, "server_name", "Unknown").as_str()),
    );
    if online {
        let players = clean_player_names(&get_list(server, "online_players"));
        assert(texts(players@).len() == players@.len());
        let list = if players.len() == 0 {
            "(无)".to_owned()
        } else {
            join(&players, ", ")
        };
        let mut line = join3("   在线 ", u64_text(players.len() as u64).as_str(), " 人: ");
        line.append(list.as_str());
        push_text(lines, line);
    }
    assert(texts(lines@) =~= before + server_lines(server@));
}

/// What `/server` answers to the data of the status API.
pub fn format_status(data: &Json) -> (r: String)
    ensures
        r@ == status_text(data@),
{
    match data {
        Json::Object(_) => {},
        _ => {
            return NO_STATUS_DATA.to_owned();
        },
    }
    let mut lines: Vec<String> = Vec::new();
    push_text(&mut lines, "服务器状态".to_owned());
    push_text(&mut lines, String::new());
    let ghost head = texts(lines@);
    assert(head =~= seq!["服务器状态"@, Seq::<char>::empty()]);

    let routes = get_list(data, "network_routes");
    let ghost all = items(routes@);
    if routes.len() > 0 {
        push_text(&mut lines, "【节点状态】".to_owned());
        let mut i: usize = 0;
        assert(texts(lines@) =~= head + seq!["【节点状态】"@] + routes_lines(all.take(0)));
        while i < routes.len()
            invariant
                i <= routes@.len(),
                all == items(routes@),
                texts(lines@) == head + seq!["【节点状态】"@] + routes_lines(all.take(i as int)),
            decreases routes@.len() - i,
        {
            assert(all.take(i + 1).drop_last() =~= all.take(i as int));
            assert(all.take(i + 1).last() == routes@[i as int]@);
            push_route(&mut lines, &routes[i]);
            assert(texts(lines@) =~= head + seq!["【节点状态】"@] + routes_lines(all.take(i + 1)));
            i = i + 1;
        }
        assert(all.take(i as int) =~= all);
        push_text(&mut lines, String::new());
    }
    let ghost upto = head + section(all.len() > 0, "【节点状态】"@, routes_lines(all));
    assert(texts(lines@) =~= upto);

    let servers = get_list(data, "servers");
    let ghost all = items(servers@);
    if servers.len() > 0 {
        push_text(&mut lines, "【服务器状态】".to_owned());
        let mut i: usize = 0;
        assert(texts(lines@) =~= upto + seq!["【服务器状态】"@] + servers_lines(all.take(0)));
        while i < servers.len()
            invariant
                i <= servers@.len(),
                all == items(servers@),
                texts(lines@) == upto + seq!["【服务器状态】"@] + servers_lines(
                    all.take(i as int),
                ),
            decreases servers@.len() - i,
        {
            assert(all.take(i + 1).drop_last() =~= all.take(i as int));
            assert(all.take(i + 1).last() == servers@[i as int]@);
            push_server(&mut lines, &servers[i]);
            assert(texts(lines@) =~= upto + seq!["【服务器状态】"@] + servers_lines(
                all.take(i + 1),
            ));
            i = i + 1;
        }
        assert(all.take(i as int) =~= all);
        push_text(&mut lines, String::new());
    }
    assert(texts(lines@) =~= upto + section(all.len() > 0, "【服务器状态】"@, servers_lines(all)));
    trim(join(&lines, "\n").as_str())
}

/// How often each command was answered.
#[derive(Debug, Clone, Copy, PartialEq, Eq, Structural)]
pub struct CommandStats {
    pub chatroom: u64,
    pub server: u64,
}

/// The count under `name` in a table; 0 where there is none.
pub open spec fn count_of(map: Seq<(String, u64)>, name: Text) -> u64
    decreases map.len(),
{
    if map.len() == 0 {
        0
    } else if map[0].0@ == name {
        map[0].1
    } else {
        count_of(map.subrange(1, map.len() as int), name)
    }
}

/// What a table of counts holds.
pub open spec fn counts_held(map: Seq<(String, u64)>) -> Seq<(Text, u64)> {
    Seq::new(map.len(), |i: int| (map[i].0@, map[i].1))
}

/// The counts as a table; a command that never was answered is left out.
pub open spec fn counts_listed(counts: CommandStats) -> Seq<(Text, u64)> {
    (if counts.chatroom > 0 {
        seq![("chatroom"@, counts.chatroom)]
    } else {
        Seq::<(Text, u64)>::empty()
    }) + (if counts.server > 0 {
        seq![("server"@, counts.server)]
    } else {
        Seq::<(Text, u64)>::empty()
    })
}

/// The counts are found again in their table.
pub proof fn listed_counts_are_found(map: Seq<(String, u64)>, counts: CommandStats)
    requires
        counts_held(map) == counts_listed(counts),
    ensures
        count_of(map, "chatroom"@) == counts.chatroom,
        count_of(map, "server"@) == counts.server,
{
    reveal_strlit("chatroom");
    reveal_strlit("server");
    assert("chatroom"@.len() != "server"@.len());
    reveal_with_fuel(count_of, 3);
    let held = counts_held(map);
    assert(map.len() == held.len());
    if map.len() > 0 {
        assert(held[0] == (map[0].0@, map[0].1));
    }
    if map.len() > 1 {
        assert(held[1] == (map[1].0@, map[1].1));
        assert(map.subrange(1, 2)[0] == map[1]);
        assert(map.subrange(1, 2).subrange(1, 1) =~= Seq::<(String, u64)>::empty());
    } else if map.len() == 1 {
        assert(map.subrange(1, 1) =~= Seq::<(String, u64)>::empty());
    }
}

/// The count under `name`.
fn count(map: &Vec<(String, u64)>, name: &str) -> (r: u64)
    ensures
        r == count_of(map@, name@),
{
    let mut i: usize = 0;
    assert(map@.subrange(0, map@.len() as int) =~= map@);
    while i < map.len()
        invariant
            i <= map@.len(),
            count_of(map@, name@) == count_of(map@.subrange(i as int, map@.len() as int), name@),
        decreases map@.len() - i,
    {
        let ghost rest = map@.subrange(i as int, map@.len() as int);
        assert(rest.subrange(1, rest.len() as int) =~= map@.subrange(i + 1, map@.len() as int));
        if same(map[i].0.as_str(), name) {
            return map[i].1;
        }
        i = i + 1;
    }
    0
}

impl CommandStats {
    /// The counts in a table.
    pub fn from_map(map: &Vec<(String, u64)>) -> (r: Self)
        ensures
            r.chatroom == count_of(map@, "chatroom"@),
            r.server == count_of(map@, "server"@),
    {
        CommandStats { chatroom: count(map, "chatroom"), server: count(map, "server") }
    }
}

/// A question to ask for a command.
#[derive(Debug)]
pub enum CommandQuery {
    /// Ask the voice API at this address.
    Voice(String),
    /// Ask the status API at this address; `image` says whether to draw the answer.
    Status { url: String, image: bool },
}

/// Where a [`CommandQuery`] goes.
pub enum QueryV {
    Voice(Text),
    Status { url: Text, image: bool },
}

/// Where a command goes, if anywhere.
pub open spec fn query_held(q: Option<CommandQuery>) -> Option<QueryV> {
    match q {
        Some(CommandQuery::Voice(url)) => Some(QueryV::Voice(url@)),
        Some(CommandQuery::Status { url, image }) => Some(QueryV::Status { url: url@, image }),
        None => None,
    }
}

/// Where a command that was given goes: only one that is known, by one who may give it.
pub open spec fn query_for(
    text: Text,
    admitted: bool,
    voice_api: Text,
    status_api: Text,
    image: bool,
) -> Option<QueryV> {
    match command_in(text) {
        Some((name, _)) => if !admitted {
            None
        } else if name == "chatroom"@ {
            Some(QueryV::Voice(voice_api))
        } else if name == "server"@ || name == "status"@ {
            Some(QueryV::Status { url: status_api, image })
        } else {
            None
        },
        None => None,
    }
}

/// How often commands were given, after one more question or none.
pub open spec fn counts_after(counts: CommandStats, query: Option<QueryV>) -> CommandStats {
    match query {
        Some(QueryV::Voice(_)) => CommandStats {
            chatroom: (counts.chatroom + 1) as u64,
            ..counts
        },
        Some(QueryV::Status { .. }) => CommandStats {
            server: (counts.server + 1) as u64,
            ..counts
        },
        None => counts,
    }
}

/// Who may give commands, where questions go, and how often they were asked.
#[derive(Debug)]
pub struct CommandService {
    pub allow_all: bool,
    pub allow_from: Vec<i64>,
    pub status_image: bool,
    pub voice_api: String,
    pub status_api: String,
    pub server_addresses: Vec<(String, String)>,
    pub counts: CommandStats,
}

/// A list of addresses by its texts.
pub open spec fn address_texts(v: Seq<(String, String)>) -> Seq<(Text, Text)> {
    Seq::new(v.len(), |i: int| (v[i].0@, v[i].1@))
}

/// The addresses to show where none are configured.
pub open spec fn default_address_texts() -> Seq<(Text, Text)> {
    seq![
        (DEFAULT_SERVER_ADDRESSES[0].0@, DEFAULT_SERVER_ADDRESSES[0].1@),
        (DEFAULT_SERVER_ADDRESSES[1].0@, DEFAULT_SERVER_ADDRESSES[1].1@),
    ]
}

/// The addresses to show where none are configured.
pub fn default_addresses() -> (r: Vec<(String, String)>)
    ensures
        address_texts(r@) == default_address_texts(),
{
    let r: Vec<(String, String)> = vec![
        (DEFAULT_SERVER_ADDRESSES[0].0.to_owned(), DEFAULT_SERVER_ADDRESSES[0].1.to_owned()),
        (DEFAULT_SERVER_ADDRESSES[1].0.to_owned(), DEFAULT_SERVER_ADDRESSES[1].1.to_owned()),
    ];
    assert(address_texts(r@) =~= default_address_texts());
    r
}

/// The commands that are known.
pub open spec fn known(name: Text) -> bool {
    name == "chatroom"@ || name == "server"@ || name == "status"@
}

impl CommandService {
    /// A service that was asked nothing yet; without addresses it shows the default
    /// ones.
    pub fn new(
        allow_all: bool,
        allow_from: Vec<i64>,
        status_image: bool,
        voice_api: &str,
        status_api: &str,
        server_addresses: Vec<(String, String)>,
    ) -> (r: Self)
        ensures
            r.allow_all == allow_all,
            r.allow_from == allow_from,
            r.status_image == status_image,
            r.voice_api@ == voice_api@,
            r.status_api@ == status_api@,
            address_texts(r.server_addresses@) == if server_addresses@.len() == 0 {
                default_address_texts()
            } else {
                address_texts(server_addresses@)
            },
            r.counts == (CommandStats { chatroom: 0, server: 0 }),
    {
        CommandService {
            allow_all,
            allow_from,
            status_image,
            voice_api: voice_api.to_owned(),
            status_api: status_api.to_owned(),
            server_addresses: if server_addresses.len() == 0 {
                default_addresses()
            } else {
                server_addresses
            },
            counts: CommandStats { chatroom: 0, server: 0 },
        }
    }

    /// Whether a user may give commands.
    pub open spec fn admits(&self, user_id: i64) -> bool {
        self.allow_all || self.allow_from@.contains(user_id)
    }

    /// Whether a user may give commands.
    pub fn allowed(&self, user_id: i64) -> (r: bool)
        ensures
            r == self.admits(user_id),
    {
        if self.allow_all {
            return true;
        }
        let mut i: usize = 0;
        while i < self.allow_from.len()
            invariant
                i <= self.allow_from@.len(),
                forall|k: int| 0 <= k < i ==> self.allow_from@[k] != user_id,
            decreases self.allow_from@.len() - i,
        {
            if self.allow_from[i] == user_id {
                assert(self.allow_from@[i as int] == user_id);
                return true;
            }
            i = i + 1;
        }
        false
    }

    /// How often each command was answered; a command that never was is left out.
    pub fn stats(&self) -> (r: Vec<(String, u64)>)
        ensures
            counts_held(r@) == counts_listed(self.counts),
    {
        let mut out: Vec<(String, u64)> = Vec::new();
        if self.counts.chatroom > 0 {
            out.push(("chatroom".to_owned(), self.counts.chatroom));
        }
        if self.counts.server > 0 {
            out.push(("server".to_owned(), self.counts.server));
        }
        assert(counts_held(out@) =~= counts_listed(self.counts));
        out
    }

    /// Takes a text: gives the question to ask for a command, and counts it. A text
    /// that is no known command, or comes from a user who may not give any, is not
    /// answered and not counted.
    pub fn handle(&mut self, text: &str, user_id: i64) -> (r: Option<CommandQuery>)
        requires
            old(self).counts.chatroom < u64::MAX,
            old(self).counts.server < u64::MAX,
        ensures
            *final(self) == (CommandService { counts: final(self).counts, ..*old(self) }),
            match command_in(text@) {
                Some((name, _)) if known(name) && old(self).admits(user_id) => if name
                    == "chatroom"@ {
                    &&& r is Some
                    &&& r->0 is Voice
                    &&& r->0->Voice_0@ == old(self).voice_api@
                    &&& final(self).counts == (CommandStats {
                        chatroom: (old(self).counts.chatroom + 1) as u64,
                        ..old(self).counts
                    })
                } else {
                    &&& r is Some
                    &&& r->0 is Status
                    &&& r->0->url@ == old(self).status_api@
                    &&& r->0->image == old(self).status_image
                    &&& final(self).counts == (CommandStats {
                        server: (old(self).counts.server + 1) as u64,
                        ..old(self).counts
                    })
                },
                _ => r is None && final(self).counts == old(self).counts,
            },
            query_held(r) == query_for(
                text@,
                old(self).admits(user_id),
                old(self).voice_api@,
                old(self).status_api@,
                old(self).status_image,
            ),
            final(self).counts == counts_after(old(self).counts, query_held(r)),
    {
        let name = match parse_command(text) {
            Some(p) => p.0,
            None => return None,
        };
        let chatroom = same(name.as_str(), "chatroom");
        if !chatroom && !same(name.as_str(), "server") && !same(name.as_str(), "status") {
            return None;
        }
        if !self.allowed(user_id) {
            return None;
        }
        if chatroom {
            self.counts = CommandStats {
                chatroom: self.counts.chatroom + 1,
                server: self.counts.server,
            };
            Some(CommandQuery::Voice(self.voice_api.clone()))
        } else {
            self.counts = CommandStats {
                chatroom: self.counts.chatroom,
                server: self.counts.server + 1,
            };
            Some(CommandQuery::Status { url: self.status_api.clone(), image: self.status_image })
        }
    }

    /// The answer to the reply of the voice API: its status and body, or nothing
    /// where there was none.
    pub fn voice_answer(reply: Option<(u16, Vec<u8>)>) -> (r: CommandResult)
        ensures
            r.text@ == voice_text(reply_json(reply_bytes(reply))),
            r.image is None,
    {
        CommandResult { text: format_voice_channels(&read_reply(reply)), image: None }
    }

    /// The answer to the data of the status API: the image that was drawn of it, or
    /// else a text.
    pub fn status_answer(data: &Json, png: Option<Vec<u8>>) -> (r: CommandResult)
        ensures
            r.image == png,
            r.text@ == if png is Some {
                Seq::<char>::empty()
            } else {
                status_text(data@)
            },
    {
        match png {
            Some(image) => CommandResult { text: String::new(), image: Some(image) },
            None => CommandResult { text: format_status(data), image: None },
        }
    }
}

// ---- what the answers keep to ----

/// Whether a field says that something is up: a text or a list that is not empty, a
/// number that is not zero, or true itself.
pub open spec fn says_yes(value: Option<JsonV>) -> bool {
    match value {
        None => false,
        Some(JsonV::Null) => false,
        Some(JsonV::Bool(b)) => b,
        Some(JsonV::Num(NumberV::Pos(n))) => n > 0,
        Some(JsonV::Num(NumberV::Neg(n))) => n != 0,
        Some(JsonV::Num(NumberV::Real(t))) => !real_equals(t, 0),
        Some(JsonV::Str(s)) => s != Seq::<char>::empty(),
        Some(JsonV::Array(s)) => s != Seq::<JsonV>::empty(),
        Some(JsonV::Object(m)) => m != Seq::<(Text, JsonV)>::empty(),
    }
}

/// The name that a field gives, as far as it is a text or missing.
pub open spec fn names(j: JsonV, key: Text, default: Text, name: Text) -> bool {
    ||| j.field(key) == Some(JsonV::Str(name))
    ||| j.field(key) is None && name == default
}

/// A route is marked as up exactly where its field `online` says so; one whose field is
/// false, null, zero or missing is marked as down, its line ends with the word for that
/// and no latency or loss is given. Its name stands behind the mark.
pub proof fn an_offline_route_is_shown_as_offline(route: JsonV, name: Text)
    requires
        route is Object,
    ensures
        route_lines(route).len() == 1,
        says_yes(route.field("online"@)) <==> begins(route_lines(route)[0], "✅"@),
        !says_yes(route.field("online"@)) <==> begins(route_lines(route)[0], "❌"@),
        !says_yes(route.field("online"@)) <==> ends(route_lines(route)[0], "离线"@),
        says_yes(route.field("online"@)) <==> ends(route_lines(route)[0], "%"@),
        names(route, "route_name"@, "Unknown"@, name) ==> begins(
            route_lines(route)[0],
            (if says_yes(route.field("online"@)) {
                "✅ "@
            } else {
                "❌ "@
            }) + name + " - "@,
        ),
        !says_yes(route.field("online"@)) && names(route, "route_name"@, "Unknown"@, name)
            ==> route_lines(route)[0] == "❌ "@ + name + " - 离线"@,
{
    truth_is_said(route, "online"@);
    lemma_names(route, "route_name"@, "Unknown"@, name);
    reveal_strlit("✅");
    reveal_strlit("❌");
    reveal_strlit("✅ ");
    reveal_strlit("❌ ");
    reveal_strlit(" ");
    reveal_strlit("%");
    reveal_strlit("离线");
    reveal_strlit(" - ");
    reveal_strlit(" - 离线");
    let online = says_yes(route.field("online"@));
    let line = route_lines(route)[0];
    let shown = worded_field(route, "route_name"@, "Unknown"@);
    let head = mark(online) + " "@ + shown + " - "@;
    let tail = if online {
        "延迟 "@ + fixed_field(route, "latency"@, 2, "0.00"@) + "ms / 丢包 "@ + fixed_field(
            route,
            "packet_loss"@,
            1,
            "0.0"@,
        ) + "%"@
    } else {
        "离线"@
    };
    assert(line =~= head + tail);
    assert("✅ "@ =~= "✅"@ + " "@);
    assert("❌ "@ =~= "❌"@ + " "@);
    assert(" - 离线"@ =~= " - "@ + "离线"@);
    assert(line.subrange(0, 1)[0] == line[0]);
    assert(line[0] == mark(online)[0]);
    assert(line.last() == tail.last());
    if online {
        assert(line.subrange(0, 1) =~= "✅"@);
        assert(line.subrange(line.len() - 1, line.len() as int) =~= "%"@);
        assert(!ends(line, "离线"@)) by {
            if ends(line, "离线"@) {
                assert(line.subrange(line.len() - 2, line.len() as int)[1] == line.last());
            }
        }
        assert(!begins(line, "❌"@));
    } else {
        assert(line.subrange(0, 1) =~= "❌"@);
        assert(line.subrange(line.len() - 2, line.len() as int) =~= "离线"@);
        assert(!ends(line, "%"@)) by {
            if ends(line, "%"@) {
                assert(line.subrange(line.len() - 1, line.len() as int)[0] == line.last());
            }
        }
        assert(!begins(line, "✅"@));
    }
    if names(route, "route_name"@, "Unknown"@, name) {
        let h = (if online {
            "✅ "@
        } else {
            "❌ "@
        }) + name + " - "@;
        assert(h =~= head);
        assert(line.subrange(0, h.len() as int) =~= h);
        if !online {
            assert(line =~= "❌ "@ + name + " - 离线"@);
        }
    }
}

/// A field counts as true exactly where it says yes.
pub proof fn truth_is_said(j: JsonV, key: Text)
    ensures
        truthy_field(j, key) == says_yes(j.field(key)),
{
    match j.field(key) {
        Some(JsonV::Str(s)) => {
            if s.len() == 0 {
                assert(s =~= Seq::<char>::empty());
            }
        },
        Some(JsonV::Array(s)) => {
            if s.len() == 0 {
                assert(s =~= Seq::<JsonV>::empty());
            }
        },
        Some(JsonV::Object(m)) => {
            if m.len() == 0 {
                assert(m =~= Seq::<(Text, JsonV)>::empty());
            }
        },
        _ => {},
    }
}

/// A name that is a text is shown as it is.
proof fn lemma_names(j: JsonV, key: Text, default: Text, name: Text)
    ensures
        names(j, key, default, name) ==> worded_field(j, key, default) == name,
{
}

/// A route that is up is shown with its latency and its loss; the routes of two lists
/// are shown as those of the one and then those of the other, one line for each, so none
/// is left out.
pub proof fn every_route_is_shown(a: Seq<JsonV>, b: Seq<JsonV>, route: JsonV)
    ensures
        routes_lines(a + b) == routes_lines(a) + routes_lines(b),
        routes_lines(seq![route]) == route_lines(route),
        route is Object && says_yes(route.field("online"@)) ==> has(
            route_lines(route)[0],
            "延迟 "@ + fixed_field(route, "latency"@, 2, "0.00"@) + "ms"@,
        ) && has(
            route_lines(route)[0],
            "丢包 "@ + fixed_field(route, "packet_loss"@, 1, "0.0"@) + "%"@,
        ),
    decreases b.len(),
{
    let none = Seq::<JsonV>::empty();
    assert(seq![route].drop_last() =~= none);
    assert(seq![route].last() == route);
    assert(routes_lines(none) =~= Seq::<Text>::empty());
    assert(Seq::<Text>::empty() + route_lines(route) =~= route_lines(route));
    if route is Object && says_yes(route.field("online"@)) {
        truth_is_said(route, "online"@);
        lemma_route_figures(route);
    }
    if b.len() == 0 {
        assert(a + b =~= a);
        assert(routes_lines(b) =~= Seq::<Text>::empty());
        assert(routes_lines(a) + routes_lines(b) =~= routes_lines(a));
    } else {
        every_route_is_shown(a, b.drop_last(), route);
        assert((a + b).drop_last() =~= a + b.drop_last());
        assert((a + b).last() == b.last());
        assert(routes_lines(a + b) =~= routes_lines(a) + routes_lines(b));
    }
}

/// The figures of a route that is up stand in its line.
proof fn lemma_route_figures(route: JsonV)
    requires
        route is Object,
        truthy_field(route, "online"@),
    ensures
        has(
            route_lines(route)[0],
            "延迟 "@ + fixed_field(route, "latency"@, 2, "0.00"@) + "ms"@,
        ),
        has(
            route_lines(route)[0],
            "丢包 "@ + fixed_field(route, "packet_loss"@, 1, "0.0"@) + "%"@,
        ),
{
    reveal_strlit("ms / 丢包 ");
    reveal_strlit("ms");
    reveal_strlit("丢包 ");
    let line = route_lines(route)[0];
    let x = fixed_field(route, "latency"@, 2, "0.00"@);
    let y = fixed_field(route, "packet_loss"@, 1, "0.0"@);
    let head = mark(true) + " "@ + worded_field(route, "route_name"@, "Unknown"@) + " - "@;
    let u = "延迟 "@ + x + "ms"@;
    let v = "丢包 "@ + y + "%"@;
    let gap = seq![' ', '/', ' '];
    assert("ms / 丢包 "@ =~= "ms"@ + gap + "丢包 "@);
    assert(line =~= head + u + (gap + v));
    a_part_occurs(head, u, gap + v);
    let none = Seq::<char>::empty();
    assert(line =~= head + u + gap + v + none);
    a_part_occurs(head + u + gap, v, none);
}

/// A server is marked as up exactly where its field `online` says so. One that is down
/// has one line with the mark and its name and no player; one that is up has a second
/// line with how many players there are and the name of each.
pub proof fn an_offline_server_is_shown_as_offline(server: JsonV, name: Text, i: int)
    requires
        server is Object,
    ensures
        server_lines(server).len() == if says_yes(server.field("online"@)) {
            2nat
        } else {
            1
        },
        says_yes(server.field("online"@)) <==> begins(server_lines(server)[0], "✅"@),
        !says_yes(server.field("online"@)) <==> begins(server_lines(server)[0], "❌"@),
        names(server, "server_name"@, "Unknown"@, name) ==> server_lines(server)[0] == (
        if says_yes(server.field("online"@)) {
            "✅ "@
        } else {
            "❌ "@
        }) + name,
        says_yes(server.field("online"@)) ==> (server.field("online_players"@) matches Some(
            JsonV::Array(players),
        ) ==> {
            &&& has(server_lines(server)[1], "在线 "@ + decimal(players.len()) + " 人"@)
            &&& 0 <= i < players.len() ==> has(server_lines(server)[1], player_name(players[i]))
        }),
{
    truth_is_said(server, "online"@);
    lemma_names(server, "server_name"@, "Unknown"@, name);
    reveal_strlit("✅");
    reveal_strlit("❌");
    reveal_strlit("✅ ");
    reveal_strlit("❌ ");
    reveal_strlit(" ");
    let online = says_yes(server.field("online"@));
    let line = server_lines(server)[0];
    assert(line =~= mark(online) + " "@ + worded_field(server, "server_name"@, "Unknown"@));
    assert("✅ "@ =~= "✅"@ + " "@);
    assert("❌ "@ =~= "❌"@ + " "@);
    assert(line.subrange(0, 1)[0] == line[0]);
    assert(line[0] == mark(online)[0]);
    if online {
        assert(line.subrange(0, 1) =~= "✅"@);
        match server.field("online_players"@) {
            Some(JsonV::Array(players)) => {
                lemma_players_line(server, players, i);
            },
            _ => {},
        }
    } else {
        assert(line.subrange(0, 1) =~= "❌"@);
    }
}

/// The players of a server that is up stand in its second line.
proof fn lemma_players_line(server: JsonV, players: Seq<JsonV>, i: int)
    requires
        server is Object,
        truthy_field(server, "online"@),
        server.field("online_players"@) == Some(JsonV::Array(players)),
    ensures
        has(server_lines(server)[1], "在线 "@ + decimal(players.len()) + " 人"@),
        0 <= i < players.len() ==> has(server_lines(server)[1], player_name(players[i])),
{
    reveal_strlit("   在线 ");
    reveal_strlit("在线 ");
    reveal_strlit(" 人: ");
    reveal_strlit(" 人");
    let shown = player_names(players);
    let line = server_lines(server)[1];
    let rest = if shown.len() == 0 {
        "(无)"@
    } else {
        joined(shown, ", "@)
    };
    let gap = seq![' ', ' ', ' '];
    let u = "在线 "@ + decimal(players.len()) + " 人"@;
    let colon = seq![':', ' '];
    assert("   在线 "@ =~= gap + "在线 "@);
    assert(" 人: "@ =~= " 人"@ + colon);
    assert(line =~= gap + u + (colon + rest));
    a_part_occurs(gap, u, colon + rest);
    if 0 <= i < players.len() {
        every_part_is_joined(shown, ", "@, i);
        assert(shown[i] == player_name(players[i]));
        assert(line =~= (gap + u + colon) + rest);
        joining_loses_nothing(gap + u + colon, rest, shown[i]);
    }
}

/// The servers of two lists are shown as those of the one and then those of the other,
/// so none is left out.
pub proof fn every_server_is_shown(a: Seq<JsonV>, b: Seq<JsonV>, server: JsonV)
    ensures
        servers_lines(a + b) == servers_lines(a) + servers_lines(b),
        servers_lines(seq![server]) == server_lines(server),
    decreases b.len(),
{
    let none = Seq::<JsonV>::empty();
    assert(seq![server].drop_last() =~= none);
    assert(seq![server].last() == server);
    assert(servers_lines(none) =~= Seq::<Text>::empty());
    assert(Seq::<Text>::empty() + server_lines(server) =~= server_lines(server));
    if b.len() == 0 {
        assert(a + b =~= a);
        assert(servers_lines(b) =~= Seq::<Text>::empty());
        assert(servers_lines(a) + servers_lines(b) =~= servers_lines(a));
    } else {
        every_server_is_shown(a, b.drop_last(), server);
        assert((a + b).drop_last() =~= a + b.drop_last());
        assert((a + b).last() == b.last());
        assert(servers_lines(a + b) =~= servers_lines(a) + servers_lines(b));
    }
}

/// The status holds every line of every route and of every server that neither begins
/// nor ends with white space, and the heading of each of the two lists that is not empty.
pub proof fn the_status_shows_everything(
    data: JsonV,
    routes: Seq<JsonV>,
    servers: Seq<JsonV>,
    line: Text,
)
    requires
        data is Object,
        data.field("network_routes"@) == Some(JsonV::Array(routes)),
        data.field("servers"@) == Some(JsonV::Array(servers)),
    ensures
        begins(status_text(data), "服务器状态"@),
        routes.len() > 0 ==> has(status_text(data), "【节点状态】"@),
        servers.len() > 0 ==> has(status_text(data), "【服务器状态】"@),
        line.len() > 0 && !is_white(line[0]) && !is_white(line.last()) && (routes_lines(
            routes,
        ).contains(line) || servers_lines(servers).contains(line)) ==> has(status_text(data), line),
{
    reveal_strlit("服务器状态");
    reveal_strlit("【节点状态】");
    reveal_strlit("【服务器状态】");
    reveal_strlit("\n");
    let none = Seq::<char>::empty();
    let r = section(routes.len() > 0, "【节点状态】"@, routes_lines(routes));
    let s = section(servers.len() > 0, "【服务器状态】"@, servers_lines(servers));
    let head = seq!["服务器状态"@, none];
    let all = head + r + s;
    let text = joined(all, "\n"@);
    assert(status_text(data) == trimmed(text));
    lemma_joined_begins(all, "\n"@);
    assert(all[0] == "服务器状态"@);
    lemma_trimmed_begins(text, "服务器状态"@);
    if routes.len() > 0 {
        assert(all[2] == "【节点状态】"@);
        every_part_is_joined(all, "\n"@, 2);
        trimming_loses_no_word(text, "【节点状态】"@);
        lemma_no_routes();
        if routes_lines(routes).contains(line) {
            let k = choose|k: int|
                0 <= k < routes_lines(routes).len() && routes_lines(routes)[k] == line;
            assert(all[3 + k] == line);
            every_part_is_joined(all, "\n"@, 3 + k);
        }
    } else {
        lemma_no_routes();
        assert(routes =~= Seq::<JsonV>::empty());
    }
    let n = (head + r).len() as int;
    if servers.len() > 0 {
        assert(all[n] == "【服务器状态】"@);
        every_part_is_joined(all, "\n"@, n);
        trimming_loses_no_word(text, "【服务器状态】"@);
        if servers_lines(servers).contains(line) {
            let k = choose|k: int|
                0 <= k < servers_lines(servers).len() && servers_lines(servers)[k] == line;
            assert(all[n + 1 + k] == line);
            every_part_is_joined(all, "\n"@, n + 1 + k);
        }
    } else {
        lemma_no_routes();
        assert(servers =~= Seq::<JsonV>::empty());
    }
    if line.len() > 0 && !is_white(line[0]) && !is_white(line.last()) && (routes_lines(
        routes,
    ).contains(line) || servers_lines(servers).contains(line)) {
        trimming_loses_no_word(text, line);
    }
}

proof fn lemma_no_routes()
    ensures
        routes_lines(Seq::<JsonV>::empty()).len() == 0,
        servers_lines(Seq::<JsonV>::empty()).len() == 0,
{
}

/// Joined texts begin with the first of them.
proof fn lemma_joined_begins(parts: Seq<Text>, sep: Text)
    requires
        parts.len() > 0,
    ensures
        begins(joined(parts, sep), parts[0]),
    decreases parts.len(),
{
    if parts.len() == 1 {
        assert(parts[0].subrange(0, parts[0].len() as int) =~= parts[0]);
    } else {
        let init = parts.drop_last();
        lemma_joined_begins(init, sep);
        assert(init[0] == parts[0]);
        let n = parts[0].len() as int;
        assert(joined(parts, sep).subrange(0, n) =~= joined(init, sep).subrange(0, n));
    }
}

/// A beginning without white space at its ends is not trimmed away.
proof fn lemma_trimmed_begins(s: Text, u: Text)
    requires
        begins(s, u),
        u.len() > 0,
        !is_white(u[0]),
        !is_white(u.last()),
    ensures
        begins(trimmed(s), u),
{
    let w = whites();
    let n = u.len() as int;
    assert(s.subrange(0, n)[0] == s[0]);
    assert(s.subrange(0, n)[n - 1] == s[n - 1]);
    assert(!w(s[0]));
    lemma_drop_front(s, w, 0);
    assert(s.subrange(0, s.len() as int) =~= s);
    let t = drop_back(s, w);
    lemma_drop_back_ends(s, w);
    what_is_dropped_at_the_back(s, w);
    assert(t.len() >= n) by {
        if t.len() < n {
            assert(w(s[n - 1]));
        }
    }
    assert(t.subrange(0, n) =~= s.subrange(0, n));
}

/// A voice channel is shown with its server, its name and how many are in it, and each
/// of them by a line of their own; the channels of two lists are shown as those of the
/// one and then those of the other.
pub proof fn every_channel_is_shown(
    a: Seq<JsonV>,
    b: Seq<JsonV>,
    channel: JsonV,
    server: Text,
    name: Text,
    users: Seq<JsonV>,
    i: int,
)
    ensures
        channels_lines(a + b) == channels_lines(a) + channels_lines(b),
        channels_lines(seq![channel]) == channel_lines(channel),
        channel is Object && names(channel, "server_name"@, "未知服务器"@, server) && names(
            channel,
            "channel_name"@,
            "未知频道"@,
            name,
        ) && channel.field("users"@) == Some(JsonV::Array(users)) ==> {
            let lines = channel_lines(channel);
            &&& lines.len() == users.len() + 2
            &&& lines[0] == "【"@ + server + "】"@ + name + " ("@ + decimal(users.len()) + "人)"@
            &&& 0 <= i < users.len() ==> lines[i + 1] == "  - "@ + worded(users[i])
        },
        !(channel is Object) ==> channel_lines(channel).len() == 0,
    decreases b.len(),
{
    let none = Seq::<JsonV>::empty();
    assert(seq![channel].drop_last() =~= none);
    assert(seq![channel].last() == channel);
    assert(channels_lines(none) =~= Seq::<Text>::empty());
    assert(Seq::<Text>::empty() + channel_lines(channel) =~= channel_lines(channel));
    if b.len() == 0 {
        assert(a + b =~= a);
        assert(channels_lines(b) =~= Seq::<Text>::empty());
        assert(channels_lines(a) + channels_lines(b) =~= channels_lines(a));
    } else {
        every_channel_is_shown(a, b.drop_last(), channel, server, name, users, i);
        assert((a + b).drop_last() =~= a + b.drop_last());
        assert((a + b).last() == b.last());
        assert(channels_lines(a + b) =~= channels_lines(a) + channels_lines(b));
    }
}

/// The answer on the voice channels begins with how many are there in all and holds
/// every line of every channel that neither begins nor ends with white space; where no
/// channel is shown it says that nobody is there.
pub proof fn the_answer_on_voice_shows_everyone(data: JsonV, channels: Seq<JsonV>, line: Text, n: u64)
    requires
        data is Object,
        data.field("channels"@) == Some(JsonV::Array(channels)),
    ensures
        channels_lines(channels).len() == 0 ==> voice_text(data) == NOBODY_IN_VOICE@,
        channels_lines(channels).len() > 0 && line.len() > 0 && !is_white(line[0]) && !is_white(
            line.last(),
        ) && (exists|k: int|
            0 <= k < channels_lines(channels).len() && has(
                #[trigger] channels_lines(channels)[k],
                line,
            )) ==> has(voice_text(data), line),
        channels_lines(channels).len() > 0 && data.field("total_users"@) == Some(
            JsonV::Num(NumberV::Pos(n)),
        ) ==> begins(voice_text(data), "当前语音频道在线人数: "@ + decimal(n as nat)),
{
    reveal_strlit("当前语音频道在线人数: ");
    let lines = channels_lines(channels);
    if lines.len() > 0 {
        let first = "当前语音频道在线人数: "@ + worded_field(data, "total_users"@, "0"@);
        let all = seq![first, Seq::<char>::empty()] + lines;
        let text = joined(all, "\n"@);
        assert(voice_text(data) == trimmed(text));
        if line.len() > 0 && !is_white(line[0]) && !is_white(line.last()) && (exists|k: int|
            0 <= k < lines.len() && has(#[trigger] lines[k], line)) {
            let k = choose|k: int| 0 <= k < lines.len() && has(#[trigger] lines[k], line);
            assert(all[k + 2] == lines[k]);
            every_part_is_joined(all, "\n"@, k + 2);
            occurring_passes_on(text, lines[k], line);
            trimming_loses_no_word(text, line);
        }
        if data.field("total_users"@) == Some(JsonV::Num(NumberV::Pos(n))) {
            let u = "当前语音频道在线人数: "@ + decimal(n as nat);
            assert(first == u);
            lemma_joined_begins(all, "\n"@);
            digits_have_the_value(n as nat);
            assert(u.last() == decimal(n as nat).last());
            lemma_trimmed_begins(text, u);
        }
    }
}

/// A player is named without the bullet and the blanks around the name.
pub proof fn a_player_is_named_without_bullet(name: Text)
    requires
        name.len() > 0,
        !is_white(name[0]),
        !is_white(name.last()),
        name[0] != '•',
    ensures
        player_name(JsonV::Str(name)) == name,
        player_name(JsonV::Str("• "@ + name)) == name,
{
    reveal_strlit("• ");
    let p = among("• "@);
    assert(name[0] != ' ');
    assert(!p(name[0]));
    lemma_drop_front(name, p, 0);
    assert(name.subrange(0, name.len() as int) =~= name);
    what_is_trimmed_stays(name);
    let s = "• "@ + name;
    assert(s[0] == '•' && s[1] == ' ' && s[2] == name[0]);
    assert("• "@[0] == '•' && "• "@[1] == ' ');
    assert(p(s[0]) && p(s[1]));
    lemma_drop_front(s, p, 2);
    assert(s.subrange(2, s.len() as int) =~= name);
}

/// A command is what stands between a slash and the first blank, in small letters and
/// without what follows an at sign; the rest of the text are its words. A text that does
/// not begin with a slash is no command.
pub proof fn a_command_is_read_behind_the_slash(name: Text, bot: Text, rest: Text, text: Text)
    requires
        name.len() > 0,
        !name.contains(' '),
        !name.contains('@'),
        !bot.contains(' '),
        rest.len() > 0,
        !is_white(rest[0]),
        !is_white(rest.last()),
        !is_white(name.last()),
    ensures
        command_in("/"@ + name) == Some((lowercase_of(name), Seq::<char>::empty())),
        command_in("/"@ + name + seq![' '] + rest) == Some((lowercase_of(name), rest)),
        command_in("/"@ + name + seq!['@'] + bot + seq![' '] + rest) == Some(
            (lowercase_of(name), rest),
        ),
        trimmed(text).len() == 0 || trimmed(text)[0] != '/' ==> command_in(text) is None,
{
    reveal_strlit("/");
    let slash = "/"@;
    assert(slash =~= seq!['/']);
    let none = Seq::<char>::empty();
    what_is_trimmed_stays(none);
    what_is_trimmed_stays(rest);
    // the bare name
    let a = slash + name;
    assert(a.last() == name.last());
    what_is_trimmed_stays(a);
    lemma_free(slash, name, ' ');
    lemma_uncut(a, ' ');
    lemma_named(name, none, false);
    assert(a.subrange(0, 1) =~= slash);
    assert(a.subrange(1, a.len() as int) =~= name);
    // with words
    let b = a + seq![' '] + rest;
    assert(b.last() == rest.last());
    what_is_trimmed_stays(b);
    lemma_cut_there(a, rest, ' ');
    assert(command_in(b) == Some((lowercase_of(name), rest)));
    // with the name of the bot
    let head = slash + name + seq!['@'] + bot;
    let c = head + seq![' '] + rest;
    assert(c.last() == rest.last());
    what_is_trimmed_stays(c);
    assert(!head.contains(' ')) by {
        if head.contains(' ') {
            let k = choose|k: int| 0 <= k < head.len() && head[k] == ' ';
            if k > name.len() + 1 {
                assert(bot[k - name.len() - 2] == ' ');
            } else if 0 < k && k <= name.len() {
                assert(name[k - 1] == ' ');
            }
        }
    }
    lemma_cut_there(head, rest, ' ');
    let tail = head.subrange(1, head.len() as int);
    assert(tail =~= name + seq!['@'] + bot);
    assert(head.subrange(0, 1) =~= slash);
    lemma_named(name, bot, true);
    // no command
    let t = trimmed(text);
    if t.len() == 0 || t[0] != '/' {
        let (h, r) = head_and_rest(t);
        a_cut_is_at_the_first(t, ' ');
        if begins(h, slash) {
            assert(h.subrange(0, 1)[0] == h[0]);
            assert(t[0] == h[0]);
        }
    }
}

/// Neither of two texts has a character, so both together have not.
proof fn lemma_free(a: Text, b: Text, c: char)
    requires
        !a.contains(c),
        !b.contains(c),
    ensures
        !(a + b).contains(c),
{
    let s = a + b;
    if s.contains(c) {
        let k = choose|k: int| 0 <= k < s.len() && s[k] == c;
        if k < a.len() {
            assert(a[k] == c);
        } else {
            assert(b[k - a.len()] == c);
        }
    }
}

/// A text without the character is not cut.
proof fn lemma_uncut(s: Text, c: char)
    requires
        !s.contains(c),
    ensures
        cut(s, c) is None,
{
    a_cut_is_at_the_first(s, c);
    match cut(s, c) {
        Some((h, r)) => {
            assert(s[h.len() as int] == c);
        },
        None => {},
    }
}

/// A text is cut where the character stands for the first time.
proof fn lemma_cut_there(a: Text, b: Text, c: char)
    requires
        !a.contains(c),
    ensures
        cut(a + seq![c] + b, c) == Some((a, b)),
{
    let s = a + seq![c] + b;
    a_cut_is_at_the_first(s, c);
    assert(s[a.len() as int] == c);
    match cut(s, c) {
        Some((h, r)) => {
            what_is_parted_alike_is_alike(h, r, a, b, c);
        },
        None => {},
    }
}

/// The name of a command is what stands before the at sign.
proof fn lemma_named(name: Text, bot: Text, called: bool)
    requires
        !name.contains('@'),
    ensures
        pieces(name, '@')[0] == name,
        called ==> pieces(name + seq!['@'] + bot, '@')[0] == name,
{
    joined_texts_come_apart(seq![name], '@');
    assert(joined(seq![name], seq!['@']) == name);
    if called {
        first_piece_stays(name, '@', bot);
    }
}

/// Whoever is listed may use the commands, and everyone where all may; nobody else.
pub proof fn listed_users_may_use_commands(s: CommandService, user_id: i64)
    ensures
        s.allow_all ==> s.admits(user_id),
        s.allow_from@.contains(user_id) ==> s.admits(user_id),
        !s.allow_all && !s.allow_from@.contains(user_id) ==> !s.admits(user_id),
        known("chatroom"@),
        known("server"@),
        known("status"@),
        forall|name: Text| #[trigger]
            known(name) ==> name == "chatroom"@ || name == "server"@ || name == "status"@,
{
}

/// A command asks where it is to ask: `/chatroom` the voice service, `/server` and
/// `/status` the status service, with a picture where that is wanted. Whoever may not
/// give commands, and whoever gives another one, asks nothing; and just what is asked is
/// counted.
pub proof fn a_command_asks_the_right_service(
    text: Text,
    args: Text,
    voice_api: Text,
    status_api: Text,
    image: bool,
    counts: CommandStats,
)
    requires
        counts.chatroom < u64::MAX,
        counts.server < u64::MAX,
    ensures
        command_in(text) == Some(("chatroom"@, args)) ==> query_for(
            text,
            true,
            voice_api,
            status_api,
            image,
        ) == Some(QueryV::Voice(voice_api)),
        command_in(text) == Some(("server"@, args)) || command_in(text) == Some(("status"@, args))
            ==> query_for(text, true, voice_api, status_api, image) == Some(
            QueryV::Status { url: status_api, image },
        ),
        query_for(text, false, voice_api, status_api, image) is None,
        command_in(text) is None ==> query_for(text, true, voice_api, status_api, image) is None,
        query_for(text, true, voice_api, status_api, image) is Some ==> (command_in(
            text,
        ) matches Some((name, rest)) && known(name)),
        counts_after(counts, None) == counts,
        counts_after(counts, Some(QueryV::Voice(voice_api))).chatroom == counts.chatroom + 1,
        counts_after(counts, Some(QueryV::Voice(voice_api))).server == counts.server,
        counts_after(counts, Some(QueryV::Status { url: status_api, image })).server
            == counts.server + 1,
        counts_after(counts, Some(QueryV::Status { url: status_api, image })).chatroom
            == counts.chatroom,
{
    reveal_strlit("chatroom");
    reveal_strlit("server");
    reveal_strlit("status");
    assert("chatroom"@.len() == 8 && "server"@.len() == 6 && "status"@.len() == 6);
}

/// A command that was never given is not listed, and one that was is listed once.
pub proof fn only_given_commands_are_listed(counts: CommandStats)
    ensures
        counts_listed(counts).len() == (if counts.chatroom > 0 {
            1nat
        } else {
            0
        }) + (if counts.server > 0 {
            1nat
        } else {
            0
        }),
        counts.chatroom > 0 ==> counts_listed(counts).contains(("chatroom"@, counts.chatroom)),
        counts.server > 0 ==> counts_listed(counts).contains(("server"@, counts.server)),
        forall|i: int|
            0 <= i < counts_listed(counts).len() ==> (#[trigger] counts_listed(counts)[i]).1 > 0,
{
    let l = counts_listed(counts);
    if counts.chatroom > 0 {
        assert(l[0] == ("chatroom"@, counts.chatroom));
    }
    if counts.server > 0 {
        assert(l[l.len() - 1] == ("server"@, counts.server));
    }
}

} // verus!
