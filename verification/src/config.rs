//! The configuration.
//!
//! It is one JSON object with a section per part of the hub. Members that are not
//! known do not count. A section that is missing, is no object or holds a member of
//! the wrong kind counts as its defaults.

use crate::error::ConfigError;
use crate::json::{
    array_view, int_json, items, json_int, json_read, json_str, members, number_text, object_view,
    parse_json, Json, JsonV,
};
use crate::text::{
    among, decimal, drop_back, join2, join3, same, texts, to_uppercase, trim_end_of, u64_text,
    uppercase_of, Text,
};
use vstd::prelude::*;

verus! {

/// The value of a text member: `default` where it is missing, nothing where it is of
/// another kind.
pub open spec fn text_or(j: JsonV, key: Text, default: Text) -> Option<Text> {
    match j.field(key) {
        None => Some(default),
        Some(v) => v.as_text(),
    }
}

/// Reads a text member.
fn read_text(j: &Json, key: &str, default: &str) -> (r: Option<String>)
    ensures
        match r {
            Some(s) => text_or(j@, key@, default@) == Some(s@),
            None => text_or(j@, key@, default@) is None,
        },
{
    match j.get(key) {
        None => Some(default.to_owned()),
        Some(v) => match v.as_str() {
            Some(s) => Some(s.clone()),
            None => None,
        },
    }
}

/// The value of a text member that must be there.
pub open spec fn text_in(j: JsonV, key: Text) -> Option<Text> {
    match j.field(key) {
        None => None,
        Some(v) => v.as_text(),
    }
}

/// Reads a text member that must be there.
fn read_needed(j: &Json, key: &str) -> (r: Option<String>)
    ensures
        match r {
            Some(s) => text_in(j@, key@) == Some(s@),
            None => text_in(j@, key@) is None,
        },
{
    match j.get(key) {
        None => None,
        Some(v) => match v.as_str() {
            Some(s) => Some(s.clone()),
            None => None,
        },
    }
}

/// The value of a switch.
pub open spec fn bool_or(j: JsonV, key: Text, default: bool) -> Option<bool> {
    match j.field(key) {
        None => Some(default),
        Some(v) => v.as_truth(),
    }
}

/// Reads a switch.
fn read_bool(j: &Json, key: &str, default: bool) -> (r: Option<bool>)
    ensures
        r == bool_or(j@, key@, default),
{
    match j.get(key) {
        None => Some(default),
        Some(v) => v.as_bool(),
    }
}

/// The value of an integer member.
pub open spec fn int_or(j: JsonV, key: Text, default: i64) -> Option<i64> {
    match j.field(key) {
        None => Some(default),
        Some(v) => v.as_int(),
    }
}

/// Reads an integer member.
fn read_int(j: &Json, key: &str, default: i64) -> (r: Option<i64>)
    ensures
        r == int_or(j@, key@, default),
{
    match j.get(key) {
        None => Some(default),
        Some(v) => v.as_i64(),
    }
}

/// The value of a member that is an integer from 0 to `max`.
pub open spec fn nat_or(j: JsonV, key: Text, default: u64, max: u64) -> Option<u64> {
    match j.field(key) {
        None => Some(default),
        Some(v) => match v.as_nat() {
            Some(n) if n <= max => Some(n),
            _ => None,
        },
    }
}

/// Reads a member that is an integer from 0 to `max`.
fn read_nat(j: &Json, key: &str, default: u64, max: u64) -> (r: Option<u64>)
    ensures
        r == nat_or(j@, key@, default, max),
{
    match j.get(key) {
        None => Some(default),
        Some(v) => match v.as_u64() {
            Some(n) => if n <= max {
                Some(n)
            } else {
                None
            },
            None => None,
        },
    }
}

/// The integers of a list, where all items are integers.
pub open spec fn all_ints(s: Seq<JsonV>) -> Option<Seq<i64>> {
    if forall|i: int| 0 <= i < s.len() ==> (#[trigger] s[i]).as_int() is Some {
        Some(Seq::new(s.len(), |i: int| s[i].as_int()->0))
    } else {
        None
    }
}

/// The value of a member that is a list of integers.
pub open spec fn ints_or(j: JsonV, key: Text, default: Seq<i64>) -> Option<Seq<i64>> {
    match j.field(key) {
        None => Some(default),
        Some(v) => match v.as_items() {
            Some(s) => all_ints(s),
            None => None,
        },
    }
}

/// Reads a member that is a list of integers.
fn read_ints(j: &Json, key: &str) -> (r: Option<Vec<i64>>)
    ensures
        match r {
            Some(v) => ints_or(j@, key@, Seq::empty()) == Some(v@),
            None => ints_or(j@, key@, Seq::empty()) is None,
        },
{
    let list = match j.get(key) {
        None => {
            let none: Vec<i64> = Vec::new();
            assert(none@ =~= Seq::empty());
            return Some(none);
        },
        Some(v) => match v.as_array() {
            Some(list) => list,
            None => return None,
        },
    };
    let ghost s = items(list@);
    let mut out: Vec<i64> = Vec::new();
    let mut i: usize = 0;
    while i < list.len()
        invariant
            i <= list@.len(),
            out@.len() == i,
            s == items(list@),
            ints_or(j@, key@, Seq::empty()) == all_ints(s),
            forall|k: int| 0 <= k < i ==> (#[trigger] s[k]).as_int() == Some(out@[k]),
        decreases list@.len() - i,
    {
        assert(s[i as int] == list@[i as int]@);
        match list[i].as_i64() {
            Some(n) => out.push(n),
            None => return None,
        }
        i = i + 1;
    }
    assert(out@ =~= Seq::new(s.len(), |i: int| s[i].as_int()->0));
    Some(out)
}

/// The texts of a list, where all items are texts.
pub open spec fn all_texts(s: Seq<JsonV>) -> Option<Seq<Text>> {
    if forall|i: int| 0 <= i < s.len() ==> (#[trigger] s[i]).as_text() is Some {
        Some(Seq::new(s.len(), |i: int| s[i].as_text()->0))
    } else {
        None
    }
}

/// Reads a list of texts.
fn take_texts(list: &Vec<Json>) -> (r: Option<Vec<String>>)
    ensures
        match r {
            Some(v) => all_texts(items(list@)) == Some(texts(v@)),
            None => all_texts(items(list@)) is None,
        },
{
    let ghost s = items(list@);
    let mut out: Vec<String> = Vec::new();
    let mut i: usize = 0;
    while i < list.len()
        invariant
            i <= list@.len(),
            out@.len() == i,
            s == items(list@),
            forall|k: int| 0 <= k < i ==> (#[trigger] s[k]).as_text() == Some(out@[k]@),
        decreases list@.len() - i,
    {
        assert(s[i as int] == list@[i as int]@);
        match list[i].as_str() {
            Some(t) => out.push(t.clone()),
            None => return None,
        }
        i = i + 1;
    }
    assert(texts(out@) =~= Seq::new(s.len(), |i: int| s[i].as_text()->0));
    Some(out)
}

/// The value of a member that is a list of texts.
pub open spec fn texts_or(j: JsonV, key: Text, default: Seq<Text>) -> Option<Seq<Text>> {
    match j.field(key) {
        None => Some(default),
        Some(v) => match v.as_items() {
            Some(s) => all_texts(s),
            None => None,
        },
    }
}

/// Reads a member that is a list of texts.
fn read_texts(j: &Json, key: &str) -> (r: Option<Vec<String>>)
    ensures
        match r {
            Some(v) => texts_or(j@, key@, Seq::empty()) == Some(texts(v@)),
            None => texts_or(j@, key@, Seq::empty()) is None,
        },
{
    match j.get(key) {
        None => {
            let none: Vec<String> = Vec::new();
            assert(texts(none@) =~= Seq::empty());
            Some(none)
        },
        Some(v) => match v.as_array() {
            Some(list) => take_texts(list),
            None => None,
        },
    }
}

/// What a list of lists of texts holds.
pub open spec fn rows(v: Seq<Vec<String>>) -> Seq<Seq<Text>> {
    Seq::new(v.len(), |i: int| texts(v[i]@))
}

/// The texts of one row, where it is a list of texts.
pub open spec fn row_of(j: JsonV) -> Option<Seq<Text>> {
    match j.as_items() {
        Some(s) => all_texts(s),
        None => None,
    }
}

/// The rows of a list, where all items are lists of texts.
pub open spec fn all_rows(s: Seq<JsonV>) -> Option<Seq<Seq<Text>>> {
    if forall|i: int| 0 <= i < s.len() ==> row_of(#[trigger] s[i]) is Some {
        Some(Seq::new(s.len(), |i: int| row_of(s[i])->0))
    } else {
        None
    }
}

/// The value of a member that is a list of lists of texts.
pub open spec fn rows_or(j: JsonV, key: Text, default: Seq<Seq<Text>>) -> Option<Seq<Seq<Text>>> {
    match j.field(key) {
        None => Some(default),
        Some(v) => match v.as_items() {
            Some(s) => all_rows(s),
            None => None,
        },
    }
}

/// Reads a member that is a list of lists of texts.
fn read_rows(j: &Json, key: &str, default: Vec<Vec<String>>) -> (r: Option<Vec<Vec<String>>>)
    ensures
        match r {
            Some(v) => rows_or(j@, key@, rows(default@)) == Some(rows(v@)),
            None => rows_or(j@, key@, rows(default@)) is None,
        },
{
    let list = match j.get(key) {
        None => return Some(default),
        Some(v) => match v.as_array() {
            Some(list) => list,
            None => return None,
        },
    };
    let ghost s = items(list@);
    let mut out: Vec<Vec<String>> = Vec::new();
    let mut i: usize = 0;
    while i < list.len()
        invariant
            i <= list@.len(),
            out@.len() == i,
            s == items(list@),
            rows_or(j@, key@, rows(default@)) == all_rows(s),
            forall|k: int| 0 <= k < i ==> row_of(#[trigger] s[k]) == Some(texts(out@[k]@)),
        decreases list@.len() - i,
    {
        assert(s[i as int] == list@[i as int]@);
        let row = match list[i].as_array() {
            Some(row) => take_texts(row),
            None => None,
        };
        match row {
            Some(t) => out.push(t),
            None => {
                assert(row_of(s[i as int]) is None);
                return None;
            },
        }
        i = i + 1;
    }
    assert(rows(out@) =~= Seq::new(s.len(), |i: int| row_of(s[i])->0));
    Some(out)
}

/// Where QQ connects to.
#[derive(Debug, Clone)]
pub struct OneBotConfig {
    pub listen_host: String,
    pub listen_port: u16,
    pub path: String,
    pub access_token: String,
    pub self_id: i64,
}

/// What a [`OneBotConfig`] holds.
pub struct OneBotV {
    pub listen_host: Text,
    pub listen_port: u16,
    pub path: Text,
    pub access_token: Text,
    pub self_id: i64,
}

impl View for OneBotConfig {
    type V = OneBotV;

    open spec fn view(&self) -> OneBotV {
        OneBotV {
            listen_host: self.listen_host@,
            listen_port: self.listen_port,
            path: self.path@,
            access_token: self.access_token@,
            self_id: self.self_id,
        }
    }
}

/// The defaults of the section `onebot`.
pub open spec fn onebot_default() -> OneBotV {
    OneBotV {
        listen_host: "0.0.0.0"@,
        listen_port: 6199,
        path: "/ws"@,
        access_token: ""@,
        self_id: 0,
    }
}

impl Default for OneBotConfig {
    fn default() -> (r: Self)
        ensures
            r@ == onebot_default(),
    {
        OneBotConfig {
            listen_host: "0.0.0.0".to_owned(),
            listen_port: 6199,
            path: "/ws".to_owned(),
            access_token: "".to_owned(),
            self_id: 0,
        }
    }
}

/// The section `onebot` that an object holds, where all its members are of their kind.
pub open spec fn onebot_in(j: JsonV) -> Option<OneBotV> {
    let d = onebot_default();
    match (
        text_or(j, "listen_host"@, d.listen_host),
        nat_or(j, "listen_port"@, 6199, 65535),
        text_or(j, "path"@, d.path),
        text_or(j, "access_token"@, d.access_token),
        int_or(j, "self_id"@, d.self_id),
    ) {
        (Some(listen_host), Some(port), Some(path), Some(access_token), Some(self_id)) => Some(
            OneBotV { listen_host, listen_port: port as u16, path, access_token, self_id },
        ),
        _ => None,
    }
}

impl OneBotConfig {
    /// Reads the section from an object.
    fn read(j: &Json) -> (r: Option<Self>)
        ensures
            match r {
                Some(c) => onebot_in(j@) == Some(c@),
                None => onebot_in(j@) is None,
            },
    {
        match (
            read_text(j, "listen_host", "0.0.0.0"),
            read_nat(j, "listen_port", 6199, 65535),
            read_text(j, "path", "/ws"),
            read_text(j, "access_token", ""),
            read_int(j, "self_id", 0),
        ) {
            (Some(listen_host), Some(port), Some(path), Some(access_token), Some(self_id)) => Some(
                OneBotConfig { listen_host, listen_port: port as u16, path, access_token, self_id },
            ),
            _ => None,
        }
    }
}

/// The chatroom, and what goes between it, the groups and the game.
#[derive(Debug, Clone)]
pub struct ChatroomConfig {
    pub base_url: String,
    pub channel_id: i64,
    pub forward_token: String,
    pub refresh_token: String,
    pub group_ids: Vec<i64>,
    pub poll_interval: u64,
    pub debounce_count: u32,
    pub qq_sync_enabled: bool,
    pub qq_forward_enabled: bool,
    pub qq_to_game_enabled: bool,
    pub player_tracking_enabled: bool,
    pub snapshot_sender: String,
    pub snapshot_prefix: String,
    /// How a player's arrival reads in the game; nothing where it is empty.
    pub player_join_pattern: String,
    /// How a player's departure reads in the game; nothing where it is empty.
    pub player_quit_pattern: String,
    pub voice_api: String,
    pub status_api: String,
    pub server_addresses: Vec<Vec<String>>,
}

/// What a [`ChatroomConfig`] holds.
pub struct ChatroomV {
    pub base_url: Text,
    pub channel_id: i64,
    pub forward_token: Text,
    pub refresh_token: Text,
    pub group_ids: Seq<i64>,
    pub poll_interval: u64,
    pub debounce_count: u32,
    pub qq_sync_enabled: bool,
    pub qq_forward_enabled: bool,
    pub qq_to_game_enabled: bool,
    pub player_tracking_enabled: bool,
    pub snapshot_sender: Text,
    pub snapshot_prefix: Text,
    pub player_join_pattern: Text,
    pub player_quit_pattern: Text,
    pub voice_api: Text,
    pub status_api: Text,
    pub server_addresses: Seq<Seq<Text>>,
}

impl View for ChatroomConfig {
    type V = ChatroomV;

    open spec fn view(&self) -> ChatroomV {
        ChatroomV {
            base_url: self.base_url@,
            channel_id: self.channel_id,
            forward_token: self.forward_token@,
            refresh_token: self.refresh_token@,
            group_ids: self.group_ids@,
            poll_interval: self.poll_interval,
            debounce_count: self.debounce_count,
            qq_sync_enabled: self.qq_sync_enabled,
            qq_forward_enabled: self.qq_forward_enabled,
            qq_to_game_enabled: self.qq_to_game_enabled,
            player_tracking_enabled: self.player_tracking_enabled,
            snapshot_sender: self.snapshot_sender@,
            snapshot_prefix: self.snapshot_prefix@,
            player_join_pattern: self.player_join_pattern@,
            player_quit_pattern: self.player_quit_pattern@,
            voice_api: self.voice_api@,
            status_api: self.status_api@,
            server_addresses: rows(self.server_addresses@),
        }
    }
}

/// The defaults of the section `chatroom`.
pub open spec fn chatroom_default() -> ChatroomV {
    ChatroomV {
        base_url: "https://chatroom.example.com"@,
        channel_id: 1,
        forward_token: ""@,
        refresh_token: ""@,
        group_ids: Seq::empty(),
        poll_interval: 10,
        debounce_count: 2,
        qq_sync_enabled: true,
        qq_forward_enabled: true,
        qq_to_game_enabled: true,
        player_tracking_enabled: false,
        snapshot_sender: "snapshot"@,
        snapshot_prefix: "!snap"@,
        player_join_pattern: ""@,
        player_quit_pattern: ""@,
        voice_api: "https://chatroom.example.com/api/voice/qqbot/get_voice_channel_people"@,
        status_api: "https://status.example.com/api/qqbot/status"@,
        server_addresses: seq![seq!["主IP"@, "game.example.com"@]],
    }
}

/// The addresses to show by default.
fn default_rows() -> (r: Vec<Vec<String>>)
    ensures
        rows(r@) == chatroom_default().server_addresses,
{
    let row: Vec<String> = vec!["主IP".to_owned(), "game.example.com".to_owned()];
    assert(texts(row@) =~= seq!["主IP"@, "game.example.com"@]);
    let mut all: Vec<Vec<String>> = Vec::new();
    all.push(row);
    assert(rows(all@) =~= seq![seq!["主IP"@, "game.example.com"@]]);
    all
}

impl Default for ChatroomConfig {
    fn default() -> (r: Self)
        ensures
            r@ == chatroom_default(),
    {
        let group_ids: Vec<i64> = Vec::new();
        assert(group_ids@ =~= Seq::empty());
        ChatroomConfig {
            base_url: "https://chatroom.example.com".to_owned(),
            channel_id: 1,
            forward_token: "".to_owned(),
            refresh_token: "".to_owned(),
            group_ids,
            poll_interval: 10,
            debounce_count: 2,
            qq_sync_enabled: true,
            qq_forward_enabled: true,
            qq_to_game_enabled: true,
            player_tracking_enabled: false,
            snapshot_sender: "snapshot".to_owned(),
            snapshot_prefix: "!snap".to_owned(),
            player_join_pattern: "".to_owned(),
            player_quit_pattern: "".to_owned(),
            voice_api:
                "https://chatroom.example.com/api/voice/qqbot/get_voice_channel_people".to_owned(),
            status_api: "https://status.example.com/api/qqbot/status".to_owned(),
            server_addresses: default_rows(),
        }
    }
}

/// The section `chatroom` that an object holds, where all its members are of their
/// kind.
pub open spec fn chatroom_in(j: JsonV) -> Option<ChatroomV> {
    let d = chatroom_default();
    let base_url = text_or(j, "base_url"@, d.base_url);
    let channel_id = int_or(j, "channel_id"@, d.channel_id);
    let forward_token = text_or(j, "forward_token"@, d.forward_token);
    let refresh_token = text_or(j, "refresh_token"@, d.refresh_token);
    let group_ids = ints_or(j, "group_ids"@, d.group_ids);
    let poll_interval = nat_or(j, "poll_interval"@, d.poll_interval, u64::MAX);
    let debounce_count = nat_or(j, "debounce_count"@, 2, 0xffff_ffff);
    let qq_sync_enabled = bool_or(j, "qq_sync_enabled"@, d.qq_sync_enabled);
    let qq_forward_enabled = bool_or(j, "qq_forward_enabled"@, d.qq_forward_enabled);
    let qq_to_game_enabled = bool_or(j, "qq_to_game_enabled"@, d.qq_to_game_enabled);
    let player_tracking_enabled = bool_or(
        j,
        "player_tracking_enabled"@,
        d.player_tracking_enabled,
    );
    let snapshot_sender = text_or(j, "snapshot_sender"@, d.snapshot_sender);
    let snapshot_prefix = text_or(j, "snapshot_prefix"@, d.snapshot_prefix);
    let player_join_pattern = text_or(j, "player_join_pattern"@, d.player_join_pattern);
    let player_quit_pattern = text_or(j, "player_quit_pattern"@, d.player_quit_pattern);
    let voice_api = text_or(j, "voice_api"@, d.voice_api);
    let status_api = text_or(j, "status_api"@, d.status_api);
    let server_addresses = rows_or(j, "server_addresses"@, d.server_addresses);
    if base_url is Some && channel_id is Some && forward_token is Some && refresh_token is Some
        && group_ids is Some && poll_interval is Some && debounce_count is Some && qq_sync_enabled
        is Some && qq_forward_enabled is Some && qq_to_game_enabled is Some
        && player_tracking_enabled is Some && snapshot_sender is Some && snapshot_prefix is Some
        && player_join_pattern is Some && player_quit_pattern is Some && voice_api is Some
        && status_api is Some && server_addresses is Some {
        Some(
            ChatroomV {
                base_url: base_url->0,
                channel_id: channel_id->0,
                forward_token: forward_token->0,
                refresh_token: refresh_token->0,
                group_ids: group_ids->0,
                poll_interval: poll_interval->0,
                debounce_count: debounce_count->0 as u32,
                qq_sync_enabled: qq_sync_enabled->0,
                qq_forward_enabled: qq_forward_enabled->0,
                qq_to_game_enabled: qq_to_game_enabled->0,
                player_tracking_enabled: player_tracking_enabled->0,
                snapshot_sender: snapshot_sender->0,
                snapshot_prefix: snapshot_prefix->0,
                player_join_pattern: player_join_pattern->0,
                player_quit_pattern: player_quit_pattern->0,
                voice_api: voice_api->0,
                status_api: status_api->0,
                server_addresses: server_addresses->0,
            },
        )
    } else {
        None
    }
}

/// The first two texts of a row, where it has them.
pub open spec fn pair_of(row: Seq<Text>) -> Option<(Text, Text)> {
    if row.len() >= 2 {
        Some((row[0], row[1]))
    } else {
        None
    }
}

/// The pairs of the rows that hold two texts or more.
pub open spec fn pairs_of(all: Seq<Seq<Text>>) -> Seq<(Text, Text)>
    decreases all.len(),
{
    if all.len() == 0 {
        Seq::empty()
    } else {
        match pair_of(all.last()) {
            Some(p) => pairs_of(all.drop_last()).push(p),
            None => pairs_of(all.drop_last()),
        }
    }
}

impl ChatroomConfig {
    /// Reads the section from an object.
    fn read(j: &Json) -> (r: Option<Self>)
        ensures
            match r {
                Some(c) => chatroom_in(j@) == Some(c@),
                None => chatroom_in(j@) is None,
            },
    {
        let d = ChatroomConfig::default();
        let base_url = match read_text(j, "base_url", d.base_url.as_str()) {
            Some(v) => v,
            None => return None,
        };
        let channel_id = match read_int(j, "channel_id", d.channel_id) {
            Some(v) => v,
            None => return None,
        };
        let forward_token = match read_text(j, "forward_token", d.forward_token.as_str()) {
            Some(v) => v,
            None => return None,
        };
        let refresh_token = match read_text(j, "refresh_token", d.refresh_token.as_str()) {
            Some(v) => v,
            None => return None,
        };
        let group_ids = match read_ints(j, "group_ids") {
            Some(v) => v,
            None => return None,
        };
        let poll_interval = match read_nat(j, "poll_interval", d.poll_interval, u64::MAX) {
            Some(v) => v,
            None => return None,
        };
        let debounce_count = match read_nat(j, "debounce_count", 2, 0xffff_ffff) {
            Some(v) => v,
            None => return None,
        };
        let qq_sync_enabled = match read_bool(j, "qq_sync_enabled", d.qq_sync_enabled) {
            Some(v) => v,
            None => return None,
        };
        let qq_forward_enabled = match read_bool(j, "qq_forward_enabled", d.qq_forward_enabled) {
            Some(v) => v,
            None => return None,
        };
        let qq_to_game_enabled = match read_bool(j, "qq_to_game_enabled", d.qq_to_game_enabled) {
            Some(v) => v,
            None => return None,
        };
        let player_tracking_enabled = match read_bool(
            j,
            "player_tracking_enabled",
            d.player_tracking_enabled,
        ) {
            Some(v) => v,
            None => return None,
        };
        let snapshot_sender = match read_text(j, "snapshot_sender", d.snapshot_sender.as_str()) {
            Some(v) => v,
            None => return None,
        };
        let snapshot_prefix = match read_text(j, "snapshot_prefix", d.snapshot_prefix.as_str()) {
            Some(v) => v,
            None => return None,
        };
        let player_join_pattern = match read_text(j, "player_join_pattern", "") {
            Some(v) => v,
            None => return None,
        };
        let player_quit_pattern = match read_text(j, "player_quit_pattern", "") {
            Some(v) => v,
            None => return None,
        };
        let voice_api = match read_text(j, "voice_api", d.voice_api.as_str()) {
            Some(v) => v,
            None => return None,
        };
        let status_api = match read_text(j, "status_api", d.status_api.as_str()) {
            Some(v) => v,
            None => return None,
        };
        let server_addresses = match read_rows(j, "server_addresses", default_rows()) {
            Some(v) => v,
            None => return None,
        };
        Some(
            ChatroomConfig {
                base_url,
                channel_id,
                forward_token,
                refresh_token,
                group_ids,
                poll_interval,
                debounce_count: debounce_count as u32,
                qq_sync_enabled,
                qq_forward_enabled,
                qq_to_game_enabled,
                player_tracking_enabled,
                snapshot_sender,
                snapshot_prefix,
                player_join_pattern,
                player_quit_pattern,
                voice_api,
                status_api,
                server_addresses,
            },
        )
    }

    /// The addresses to show, as pairs of a label and an address; a row of fewer than
    /// two texts is left out.
    pub fn server_address_pairs(&self) -> (r: Vec<(String, String)>)
        ensures
            crate::services::commands::address_texts(r@) == pairs_of(self@.server_addresses),
    {
        let ghost all = rows(self.server_addresses@);
        let mut out: Vec<(String, String)> = Vec::new();
        let mut i: usize = 0;
        assert(crate::services::commands::address_texts(out@) =~= pairs_of(all.take(0)));
        while i < self.server_addresses.len()
            invariant
                i <= self.server_addresses@.len(),
                all == rows(self.server_addresses@),
                crate::services::commands::address_texts(out@) == pairs_of(all.take(i as int)),
            decreases self.server_addresses@.len() - i,
        {
            let ghost before = out@;
            let row = &self.server_addresses[i];
            assert(all.take(i + 1).drop_last() =~= all.take(i as int));
            assert(all.take(i + 1).last() == texts(row@));
            if row.len() >= 2 {
                out.push((row[0].clone(), row[1].clone()));
                assert(crate::services::commands::address_texts(out@)
                    =~= crate::services::commands::address_texts(before).push(
                    (row@[0]@, row@[1]@),
                ));
            }
            i = i + 1;
        }
        assert(all.take(i as int) =~= all);
        out
    }
}

/// The link to the game servers.
#[derive(Debug, Clone)]
pub struct ChatBridgeConfig {
    pub enabled: bool,
    pub host: String,
    pub port: u16,
    /// The name of this client.
    pub name: String,
    pub password: String,
    pub aes_key: String,
}

/// What a [`ChatBridgeConfig`] holds.
pub struct ChatBridgeV {
    pub enabled: bool,
    pub host: Text,
    pub port: u16,
    pub name: Text,
    pub password: Text,
    pub aes_key: Text,
}

impl View for ChatBridgeConfig {
    type V = ChatBridgeV;

    open spec fn view(&self) -> ChatBridgeV {
        ChatBridgeV {
            enabled: self.enabled,
            host: self.host@,
            port: self.port,
            name: self.name@,
            password: self.password@,
            aes_key: self.aes_key@,
        }
    }
}

/// The defaults of the section `chatbridge`.
pub open spec fn chatbridge_default() -> ChatBridgeV {
    ChatBridgeV {
        enabled: true,
        host: ""@,
        port: 21027,
        name: "web"@,
        password: ""@,
        aes_key: ""@,
    }
}

impl Default for ChatBridgeConfig {
    fn default() -> (r: Self)
        ensures
            r@ == chatbridge_default(),
    {
        ChatBridgeConfig {
            enabled: true,
            host: "".to_owned(),
            port: 21027,
            name: "web".to_owned(),
            password: "".to_owned(),
            aes_key: "".to_owned(),
        }
    }
}

/// The section `chatbridge` that an object holds, where all its members are of their kind.
pub open spec fn chatbridge_in(j: JsonV) -> Option<ChatBridgeV> {
    let d = chatbridge_default();
    let enabled = bool_or(j, "enabled"@, d.enabled);
    let host = text_or(j, "host"@, d.host);
    let port = nat_or(j, "port"@, d.port as u64, 65535);
    let name = text_or(j, "name"@, d.name);
    let password = text_or(j, "password"@, d.password);
    let aes_key = text_or(j, "aes_key"@, d.aes_key);
    if enabled is Some && host is Some && port is Some && name is Some && password is Some && aes_key is Some {
        Some(
            ChatBridgeV {
                enabled: enabled->0,
                host: host->0,
                port: port->0 as u16,
                name: name->0,
                password: password->0,
                aes_key: aes_key->0,
            },
        )
    } else {
        None
    }
}

impl ChatBridgeConfig {
    /// Reads the section from an object.
    fn read(j: &Json) -> (r: Option<Self>)
        ensures
            match r {
                Some(c) => chatbridge_in(j@) == Some(c@),
                None => chatbridge_in(j@) is None,
            },
    {
        let d = ChatBridgeConfig::default();
        let enabled = match read_bool(j, "enabled", d.enabled) {
            Some(v) => v,
            None => return None,
        };
        let host = match read_text(j, "host", d.host.as_str()) {
            Some(v) => v,
            None => return None,
        };
        let port = match read_nat(j, "port", d.port as u64, 65535) {
            Some(v) => v,
            None => return None,
        };
        let name = match read_text(j, "name", d.name.as_str()) {
            Some(v) => v,
            None => return None,
        };
        let password = match read_text(j, "password", d.password.as_str()) {
            Some(v) => v,
            None => return None,
        };
        let aes_key = match read_text(j, "aes_key", d.aes_key.as_str()) {
            Some(v) => v,
            None => return None,
        };
        Some(
            ChatBridgeConfig {
                enabled,
                host,
                port: port as u16,
                name,
                password,
                aes_key,
            },
        )
    }
}

/// Who may give commands in a group.
#[derive(Debug, Clone)]
pub struct CommandsConfig {
    /// Whether anyone may give commands.
    pub group_allow_all: bool,
    /// Those who may, otherwise.
    pub allow_from: Vec<i64>,
    /// Whether `/server` is answered by an image.
    pub status_image: bool,
}

/// What a [`CommandsConfig`] holds.
pub struct CommandsV {
    pub group_allow_all: bool,
    pub allow_from: Seq<i64>,
    pub status_image: bool,
}

impl View for CommandsConfig {
    type V = CommandsV;

    open spec fn view(&self) -> CommandsV {
        CommandsV {
            group_allow_all: self.group_allow_all,
            allow_from: self.allow_from@,
            status_image: self.status_image,
        }
    }
}

/// The defaults of the section `commands`.
pub open spec fn commands_default() -> CommandsV {
    CommandsV {
        group_allow_all: true,
        allow_from: Seq::empty(),
        status_image: false,
    }
}

impl Default for CommandsConfig {
    fn default() -> (r: Self)
        ensures
            r@ == commands_default(),
    {
        let allow_from: Vec<i64> = Vec::new();
        assert(allow_from@ =~= Seq::empty());
        CommandsConfig {
            group_allow_all: true,
            allow_from,
            status_image: false,
        }
    }
}

/// The section `commands` that an object holds, where all its members are of their kind.
pub open spec fn commands_in(j: JsonV) -> Option<CommandsV> {
    let d = commands_default();
    let group_allow_all = bool_or(j, "group_allow_all"@, d.group_allow_all);
    let allow_from = ints_or(j, "allow_from"@, d.allow_from);
    let status_image = bool_or(j, "status_image"@, d.status_image);
    if group_allow_all is Some && allow_from is Some && status_image is Some {
        Some(
            CommandsV {
                group_allow_all: group_allow_all->0,
                allow_from: allow_from->0,
                status_image: status_image->0,
            },
        )
    } else {
        None
    }
}

impl CommandsConfig {
    /// Reads the section from an object.
    fn read(j: &Json) -> (r: Option<Self>)
        ensures
            match r {
                Some(c) => commands_in(j@) == Some(c@),
                None => commands_in(j@) is None,
            },
    {
        let d = CommandsConfig::default();
        let group_allow_all = match read_bool(j, "group_allow_all", d.group_allow_all) {
            Some(v) => v,
            None => return None,
        };
        let allow_from = match read_ints(j, "allow_from") {
            Some(v) => v,
            None => return None,
        };
        let status_image = match read_bool(j, "status_image", d.status_image) {
            Some(v) => v,
            None => return None,
        };
        Some(
            CommandsConfig {
                group_allow_all,
                allow_from,
                status_image,
            },
        )
    }
}

/// The HTTP API.
#[derive(Debug, Clone)]
pub struct ApiConfig {
    pub enabled: bool,
    pub listen_host: String,
    pub listen_port: u16,
    /// Needed to write; without it all writing is refused.
    pub access_token: String,
}

/// What a [`ApiConfig`] holds.
pub struct ApiV {
    pub enabled: bool,
    pub listen_host: Text,
    pub listen_port: u16,
    pub access_token: Text,
}

impl View for ApiConfig {
    type V = ApiV;

    open spec fn view(&self) -> ApiV {
        ApiV {
            enabled: self.enabled,
            listen_host: self.listen_host@,
            listen_port: self.listen_port,
            access_token: self.access_token@,
        }
    }
}

/// The defaults of the section `api`.
pub open spec fn api_default() -> ApiV {
    ApiV {
        enabled: false,
        listen_host: "127.0.0.1"@,
        listen_port: 8199,
        access_token: ""@,
    }
}

impl Default for ApiConfig {
    fn default() -> (r: Self)
        ensures
            r@ == api_default(),
    {
        ApiConfig {
            enabled: false,
            listen_host: "127.0.0.1".to_owned(),
            listen_port: 8199,
            access_token: "".to_owned(),
        }
    }
}

/// The section `api` that an object holds, where all its members are of their kind.
pub open spec fn api_in(j: JsonV) -> Option<ApiV> {
    let d = api_default();
    let enabled = bool_or(j, "enabled"@, d.enabled);
    let listen_host = text_or(j, "listen_host"@, d.listen_host);
    let listen_port = nat_or(j, "listen_port"@, d.listen_port as u64, 65535);
    let access_token = text_or(j, "access_token"@, d.access_token);
    if enabled is Some && listen_host is Some && listen_port is Some && access_token is Some {
        Some(
            ApiV {
                enabled: enabled->0,
                listen_host: listen_host->0,
                listen_port: listen_port->0 as u16,
                access_token: access_token->0,
            },
        )
    } else {
        None
    }
}

impl ApiConfig {
    /// Reads the section from an object.
    fn read(j: &Json) -> (r: Option<Self>)
        ensures
            match r {
                Some(c) => api_in(j@) == Some(c@),
                None => api_in(j@) is None,
            },
    {
        let d = ApiConfig::default();
        let enabled = match read_bool(j, "enabled", d.enabled) {
            Some(v) => v,
            None => return None,
        };
        let listen_host = match read_text(j, "listen_host", d.listen_host.as_str()) {
            Some(v) => v,
            None => return None,
        };
        let listen_port = match read_nat(j, "listen_port", d.listen_port as u64, 65535) {
            Some(v) => v,
            None => return None,
        };
        let access_token = match read_text(j, "access_token", d.access_token.as_str()) {
            Some(v) => v,
            None => return None,
        };
        Some(
            ApiConfig {
                enabled,
                listen_host,
                listen_port: listen_port as u16,
                access_token,
            },
        )
    }
}

/// What a language model is told where nothing else is configured.
pub const DEFAULT_SYSTEM_PROMPT: &'static str = "你是 Minecraft 游戏与社区文档助手。只依据给出的检索片段回答问题，并引用对应片段编号作为出处；片段不足以回答时明确说明查不到，禁止编造。";

/// The language model that puts answers together.
#[derive(Debug, Clone)]
pub struct LlmConfig {
    /// Where the model is asked; nothing is asked where it is empty.
    pub api_url: String,
    pub api_key: String,
    pub model: String,
    pub timeout_secs: u64,
    pub max_answer_chars: usize,
    pub system_prompt: String,
}

/// What a [`LlmConfig`] holds.
pub struct LlmV {
    pub api_url: Text,
    pub api_key: Text,
    pub model: Text,
    pub timeout_secs: u64,
    pub max_answer_chars: usize,
    pub system_prompt: Text,
}

impl View for LlmConfig {
    type V = LlmV;

    open spec fn view(&self) -> LlmV {
        LlmV {
            api_url: self.api_url@,
            api_key: self.api_key@,
            model: self.model@,
            timeout_secs: self.timeout_secs,
            max_answer_chars: self.max_answer_chars,
            system_prompt: self.system_prompt@,
        }
    }
}

/// The defaults of the section `llm`.
pub open spec fn llm_default() -> LlmV {
    LlmV {
        api_url: ""@,
        api_key: ""@,
        model: ""@,
        timeout_secs: 30,
        max_answer_chars: 1000,
        system_prompt: DEFAULT_SYSTEM_PROMPT@,
    }
}

impl Default for LlmConfig {
    fn default() -> (r: Self)
        ensures
            r@ == llm_default(),
    {
        LlmConfig {
            api_url: "".to_owned(),
            api_key: "".to_owned(),
            model: "".to_owned(),
            timeout_secs: 30,
            max_answer_chars: 1000,
            system_prompt: DEFAULT_SYSTEM_PROMPT.to_owned(),
        }
    }
}

/// The section `llm` that an object holds, where all its members are of their kind.
pub open spec fn llm_in(j: JsonV) -> Option<LlmV> {
    let d = llm_default();
    let api_url = text_or(j, "api_url"@, d.api_url);
    let api_key = text_or(j, "api_key"@, d.api_key);
    let model = text_or(j, "model"@, d.model);
    let timeout_secs = nat_or(j, "timeout_secs"@, d.timeout_secs, u64::MAX);
    let max_answer_chars = nat_or(j, "max_answer_chars"@, d.max_answer_chars as u64, usize::MAX as u64);
    let system_prompt = text_or(j, "system_prompt"@, d.system_prompt);
    if api_url is Some && api_key is Some && model is Some && timeout_secs is Some && max_answer_chars is Some && system_prompt is Some {
        Some(
            LlmV {
                api_url: api_url->0,
                api_key: api_key->0,
                model: model->0,
                timeout_secs: timeout_secs->0,
                max_answer_chars: max_answer_chars->0 as usize,
                system_prompt: system_prompt->0,
            },
        )
    } else {
        None
    }
}

impl LlmConfig {
    /// Reads the section from an object.
    fn read(j: &Json) -> (r: Option<Self>)
        ensures
            match r {
                Some(c) => llm_in(j@) == Some(c@),
                None => llm_in(j@) is None,
            },
    {
        let d = LlmConfig::default();
        let api_url = match read_text(j, "api_url", d.api_url.as_str()) {
            Some(v) => v,
            None => return None,
        };
        let api_key = match read_text(j, "api_key", d.api_key.as_str()) {
            Some(v) => v,
            None => return None,
        };
        let model = match read_text(j, "model", d.model.as_str()) {
            Some(v) => v,
            None => return None,
        };
        let timeout_secs = match read_nat(j, "timeout_secs", d.timeout_secs, u64::MAX) {
            Some(v) => v,
            None => return None,
        };
        let max_answer_chars = match read_nat(j, "max_answer_chars", d.max_answer_chars as u64, usize::MAX as u64) {
            Some(v) => v,
            None => return None,
        };
        let system_prompt = match read_text(j, "system_prompt", d.system_prompt.as_str()) {
            Some(v) => v,
            None => return None,
        };
        Some(
            LlmConfig {
                api_url,
                api_key,
                model,
                timeout_secs,
                max_answer_chars: max_answer_chars as usize,
                system_prompt,
            },
        )
    }
}

/// A source of documents.
#[derive(Debug, Clone)]
pub enum SourceConfig {
    /// A directory.
    Local {
        root: String,
        /// The endings of the files to read; the usual ones where there are none.
        extensions: Vec<String>,
        name: String,
    },
    /// A MediaWiki site, by its `api.php`.
    Mediawiki { api_url: String, name: String },
    /// A GitHub repository, or a tarball by its address.
    Repo {
        repo: String,
        branch: String,
        /// The directory in the repository to read; all of it where it is empty.
        subdir: String,
        /// The site that shows the documents; the repository's own pages where it is
        /// empty.
        site_url: String,
        extensions: Vec<String>,
        name: String,
    },
}

/// What a [`SourceConfig`] holds.
pub enum SourceConfigV {
    Local { root: Text, extensions: Seq<Text>, name: Text },
    Mediawiki { api_url: Text, name: Text },
    Repo {
        repo: Text,
        branch: Text,
        subdir: Text,
        site_url: Text,
        extensions: Seq<Text>,
        name: Text,
    },
}

impl View for SourceConfig {
    type V = SourceConfigV;

    open spec fn view(&self) -> SourceConfigV {
        match self {
            SourceConfig::Local { root, extensions, name } => SourceConfigV::Local {
                root: root@,
                extensions: texts(extensions@),
                name: name@,
            },
            SourceConfig::Mediawiki { api_url, name } => SourceConfigV::Mediawiki {
                api_url: api_url@,
                name: name@,
            },
            SourceConfig::Repo { repo, branch, subdir, site_url, extensions, name } =>
                SourceConfigV::Repo {
                    repo: repo@,
                    branch: branch@,
                    subdir: subdir@,
                    site_url: site_url@,
                    extensions: texts(extensions@),
                    name: name@,
                },
        }
    }
}

/// The branch of a repository that is read where none is named.
pub const DEFAULT_BRANCH: &'static str = "main";

/// The branch of a repository that is read where none is named.
pub fn default_branch() -> (r: String)
    ensures
        r@ == DEFAULT_BRANCH@,
{
    DEFAULT_BRANCH.to_owned()
}

/// The source that an object describes: `type` says of which kind it is.
pub open spec fn source_in(j: JsonV) -> Option<SourceConfigV> {
    let kind = text_in(j, "type"@);
    let name = text_or(j, "name"@, ""@);
    let extensions = texts_or(j, "extensions"@, Seq::empty());
    if kind == Some("local"@) {
        match (text_in(j, "root"@), extensions, name) {
            (Some(root), Some(extensions), Some(name)) => Some(
                SourceConfigV::Local { root, extensions, name },
            ),
            _ => None,
        }
    } else if kind == Some("mediawiki"@) {
        match (text_in(j, "api_url"@), name) {
            (Some(api_url), Some(name)) => Some(SourceConfigV::Mediawiki { api_url, name }),
            _ => None,
        }
    } else if kind == Some("repo"@) {
        match (
            text_in(j, "repo"@),
            text_or(j, "branch"@, DEFAULT_BRANCH@),
            text_or(j, "subdir"@, ""@),
            text_or(j, "site_url"@, ""@),
            extensions,
            name,
        ) {
            (
                Some(repo),
                Some(branch),
                Some(subdir),
                Some(site_url),
                Some(extensions),
                Some(name),
            ) => Some(
                SourceConfigV::Repo { repo, branch, subdir, site_url, extensions, name },
            ),
            _ => None,
        }
    } else {
        None
    }
}

impl SourceConfig {
    /// Reads a source from an object.
    fn read(j: &Json) -> (r: Option<Self>)
        ensures
            match r {
                Some(c) => source_in(j@) == Some(c@),
                None => source_in(j@) is None,
            },
    {
        let kind = match read_needed(j, "type") {
            Some(v) => v,
            None => return None,
        };
        let name = read_text(j, "name", "");
        let extensions = read_texts(j, "extensions");
        proof {
            reveal_strlit("local");
            reveal_strlit("mediawiki");
            reveal_strlit("repo");
        }
        if same(kind.as_str(), "local") {
            match (read_needed(j, "root"), extensions, name) {
                (Some(root), Some(extensions), Some(name)) => Some(
                    SourceConfig::Local { root, extensions, name },
                ),
                _ => None,
            }
        } else if same(kind.as_str(), "mediawiki") {
            match (read_needed(j, "api_url"), name) {
                (Some(api_url), Some(name)) => Some(SourceConfig::Mediawiki { api_url, name }),
                _ => None,
            }
        } else if same(kind.as_str(), "repo") {
            match (
                read_needed(j, "repo"),
                read_text(j, "branch", DEFAULT_BRANCH),
                read_text(j, "subdir", ""),
                read_text(j, "site_url", ""),
                extensions,
                name,
            ) {
                (
                    Some(repo),
                    Some(branch),
                    Some(subdir),
                    Some(site_url),
                    Some(extensions),
                    Some(name),
                ) => Some(
                    SourceConfig::Repo { repo, branch, subdir, site_url, extensions, name },
                ),
                _ => None,
            }
        } else {
            None
        }
    }
}

/// What a list of sources holds.
pub open spec fn sources_held(v: Seq<SourceConfig>) -> Seq<SourceConfigV> {
    Seq::new(v.len(), |i: int| v[i]@)
}

/// The sources of a list, where all items describe one.
pub open spec fn all_sources(s: Seq<JsonV>) -> Option<Seq<SourceConfigV>> {
    if forall|i: int| 0 <= i < s.len() ==> source_in(#[trigger] s[i]) is Some {
        Some(Seq::new(s.len(), |i: int| source_in(s[i])->0))
    } else {
        None
    }
}

/// A command that looks something up.
#[derive(Debug, Clone)]
pub struct SkillConfig {
    pub name: String,
    /// What a message starts with; `!` and the name where it is empty.
    pub trigger: String,
    pub description: String,
    pub sources: Vec<SourceConfig>,
    pub max_results: usize,
}

/// What a [`SkillConfig`] holds.
pub struct SkillConfigV {
    pub name: Text,
    pub trigger: Text,
    pub description: Text,
    pub sources: Seq<SourceConfigV>,
    pub max_results: usize,
}

impl View for SkillConfig {
    type V = SkillConfigV;

    open spec fn view(&self) -> SkillConfigV {
        SkillConfigV {
            name: self.name@,
            trigger: self.trigger@,
            description: self.description@,
            sources: sources_held(self.sources@),
            max_results: self.max_results,
        }
    }
}

/// The defaults of a command.
pub open spec fn skill_default() -> SkillConfigV {
    SkillConfigV {
        name: ""@,
        trigger: ""@,
        description: ""@,
        sources: Seq::empty(),
        max_results: 5,
    }
}

impl Default for SkillConfig {
    fn default() -> (r: Self)
        ensures
            r@ == skill_default(),
    {
        let sources: Vec<SourceConfig> = Vec::new();
        assert(sources_held(sources@) =~= Seq::empty());
        SkillConfig {
            name: "".to_owned(),
            trigger: "".to_owned(),
            description: "".to_owned(),
            sources,
            max_results: 5,
        }
    }
}

/// The command that an object describes, where all its members are of their kind.
pub open spec fn skill_in(j: JsonV) -> Option<SkillConfigV> {
    let name = text_or(j, "name"@, ""@);
    let trigger = text_or(j, "trigger"@, ""@);
    let description = text_or(j, "description"@, ""@);
    let max_results = nat_or(j, "max_results"@, 5, usize::MAX as u64);
    let sources = match j.field("sources"@) {
        None => Some(Seq::empty()),
        Some(v) => match v.as_items() {
            Some(s) => all_sources(s),
            None => None,
        },
    };
    if j is Object && name is Some && trigger is Some && description is Some && max_results is Some
        && sources is Some {
        Some(
            SkillConfigV {
                name: name->0,
                trigger: trigger->0,
                description: description->0,
                sources: sources->0,
                max_results: max_results->0 as usize,
            },
        )
    } else {
        None
    }
}

/// Whether a value is an object.
fn is_object(j: &Json) -> (r: bool)
    ensures
        r == (j@ is Object),
{
    match j {
        Json::Object(_) => true,
        _ => false,
    }
}

impl SkillConfig {
    /// Reads a command from an object.
    fn read(j: &Json) -> (r: Option<Self>)
        ensures
            match r {
                Some(c) => skill_in(j@) == Some(c@),
                None => skill_in(j@) is None,
            },
    {
        if !is_object(j) {
            return None;
        }
        let name = match read_text(j, "name", "") {
            Some(v) => v,
            None => return None,
        };
        let trigger = match read_text(j, "trigger", "") {
            Some(v) => v,
            None => return None,
        };
        let description = match read_text(j, "description", "") {
            Some(v) => v,
            None => return None,
        };
        let max_results = match read_nat(j, "max_results", 5, usize::MAX as u64) {
            Some(v) => v,
            None => return None,
        };
        let sources = match j.get("sources") {
            None => {
                let none: Vec<SourceConfig> = Vec::new();
                assert(sources_held(none@) =~= Seq::empty());
                none
            },
            Some(v) => match v.as_array() {
                Some(list) => match read_sources(list) {
                    Some(v) => v,
                    None => return None,
                },
                None => return None,
            },
        };
        Some(
            SkillConfig {
                name,
                trigger,
                description,
                sources,
                max_results: max_results as usize,
            },
        )
    }
}

/// Reads a list of sources.
fn read_sources(list: &Vec<Json>) -> (r: Option<Vec<SourceConfig>>)
    ensures
        match r {
            Some(v) => all_sources(items(list@)) == Some(sources_held(v@)),
            None => all_sources(items(list@)) is None,
        },
{
    let ghost s = items(list@);
    let mut out: Vec<SourceConfig> = Vec::new();
    let mut i: usize = 0;
    while i < list.len()
        invariant
            i <= list@.len(),
            out@.len() == i,
            s == items(list@),
            forall|k: int| 0 <= k < i ==> source_in(#[trigger] s[k]) == Some(out@[k]@),
        decreases list@.len() - i,
    {
        assert(s[i as int] == list@[i as int]@);
        match SourceConfig::read(&list[i]) {
            Some(c) => out.push(c),
            None => {
                assert(source_in(s[i as int]) is None);
                return None;
            },
        }
        i = i + 1;
    }
    assert(sources_held(out@) =~= Seq::new(s.len(), |i: int| source_in(s[i])->0));
    Some(out)
}

/// What a list of commands holds.
pub open spec fn skills_held(v: Seq<SkillConfig>) -> Seq<SkillConfigV> {
    Seq::new(v.len(), |i: int| v[i]@)
}

/// The commands of a list, where all items describe one.
pub open spec fn all_skills(s: Seq<JsonV>) -> Option<Seq<SkillConfigV>> {
    if forall|i: int| 0 <= i < s.len() ==> skill_in(#[trigger] s[i]) is Some {
        Some(Seq::new(s.len(), |i: int| skill_in(s[i])->0))
    } else {
        None
    }
}

/// Reads a list of commands.
fn read_skills(list: &Vec<Json>) -> (r: Option<Vec<SkillConfig>>)
    ensures
        match r {
            Some(v) => all_skills(items(list@)) == Some(skills_held(v@)),
            None => all_skills(items(list@)) is None,
        },
{
    let ghost s = items(list@);
    let mut out: Vec<SkillConfig> = Vec::new();
    let mut i: usize = 0;
    while i < list.len()
        invariant
            i <= list@.len(),
            out@.len() == i,
            s == items(list@),
            forall|k: int| 0 <= k < i ==> skill_in(#[trigger] s[k]) == Some(out@[k]@),
        decreases list@.len() - i,
    {
        assert(s[i as int] == list@[i as int]@);
        match SkillConfig::read(&list[i]) {
            Some(c) => out.push(c),
            None => {
                assert(skill_in(s[i as int]) is None);
                return None;
            },
        }
        i = i + 1;
    }
    assert(skills_held(out@) =~= Seq::new(s.len(), |i: int| skill_in(s[i])->0));
    Some(out)
}

/// The commands that look something up.
#[derive(Debug, Clone)]
pub struct AgentConfig {
    pub enabled: bool,
    pub llm: Option<LlmConfig>,
    pub skills: Vec<SkillConfig>,
}

/// What an [`AgentConfig`] holds.
pub struct AgentV {
    pub enabled: bool,
    pub llm: Option<LlmV>,
    pub skills: Seq<SkillConfigV>,
}

impl View for AgentConfig {
    type V = AgentV;

    open spec fn view(&self) -> AgentV {
        AgentV {
            enabled: self.enabled,
            llm: match self.llm {
                Some(c) => Some(c@),
                None => None,
            },
            skills: skills_held(self.skills@),
        }
    }
}

/// The defaults of the section `agent`.
pub open spec fn agent_default() -> AgentV {
    AgentV { enabled: false, llm: None, skills: Seq::empty() }
}

impl Default for AgentConfig {
    fn default() -> (r: Self)
        ensures
            r@ == agent_default(),
    {
        let skills: Vec<SkillConfig> = Vec::new();
        assert(skills_held(skills@) =~= Seq::empty());
        AgentConfig { enabled: false, llm: None, skills }
    }
}

/// The section `agent` that an object holds, where all its members are of their kind.
/// `llm` may be missing or null.
pub open spec fn agent_in(j: JsonV) -> Option<AgentV> {
    let enabled = bool_or(j, "enabled"@, false);
    let llm: Option<Option<LlmV>> = match j.field("llm"@) {
        None => Some(None),
        Some(JsonV::Null) => Some(None),
        Some(v) => if v is Object && llm_in(v) is Some {
            Some(llm_in(v))
        } else {
            None
        },
    };
    let skills = match j.field("skills"@) {
        None => Some(Seq::empty()),
        Some(v) => match v.as_items() {
            Some(s) => all_skills(s),
            None => None,
        },
    };
    if enabled is Some && llm is Some && skills is Some {
        Some(AgentV { enabled: enabled->0, llm: llm->0, skills: skills->0 })
    } else {
        None
    }
}

impl AgentConfig {
    /// Reads the section from an object.
    fn read(j: &Json) -> (r: Option<Self>)
        ensures
            match r {
                Some(c) => agent_in(j@) == Some(c@),
                None => agent_in(j@) is None,
            },
    {
        let enabled = match read_bool(j, "enabled", false) {
            Some(v) => v,
            None => return None,
        };
        let llm = match j.get("llm") {
            None => None,
            Some(v) => match v {
                Json::Null => None,
                _ => {
                    if !is_object(v) {
                        return None;
                    }
                    match LlmConfig::read(v) {
                        Some(c) => Some(c),
                        None => return None,
                    }
                },
            },
        };
        let skills = match j.get("skills") {
            None => {
                let none: Vec<SkillConfig> = Vec::new();
                assert(skills_held(none@) =~= Seq::empty());
                none
            },
            Some(v) => match v.as_array() {
                Some(list) => match read_skills(list) {
                    Some(v) => v,
                    None => return None,
                },
                None => return None,
            },
        };
        Some(AgentConfig { enabled, llm, skills })
    }
}

/// The whole configuration.
#[derive(Debug, Clone)]
pub struct AppConfig {
    pub onebot: OneBotConfig,
    pub chatroom: ChatroomConfig,
    pub chatbridge: ChatBridgeConfig,
    pub commands: CommandsConfig,
    pub api: ApiConfig,
    pub agent: AgentConfig,
    pub state_path: String,
    pub log_level: String,
}

/// What an [`AppConfig`] holds.
pub struct AppV {
    pub onebot: OneBotV,
    pub chatroom: ChatroomV,
    pub chatbridge: ChatBridgeV,
    pub commands: CommandsV,
    pub api: ApiV,
    pub agent: AgentV,
    pub state_path: Text,
    pub log_level: Text,
}

impl View for AppConfig {
    type V = AppV;

    open spec fn view(&self) -> AppV {
        AppV {
            onebot: self.onebot@,
            chatroom: self.chatroom@,
            chatbridge: self.chatbridge@,
            commands: self.commands@,
            api: self.api@,
            agent: self.agent@,
            state_path: self.state_path@,
            log_level: self.log_level@,
        }
    }
}

/// Where the state is kept by default.
pub const DEFAULT_STATE_PATH: &'static str = "/data/state.json";

/// How much is logged by default.
pub const DEFAULT_LOG_LEVEL: &'static str = "INFO";

/// Where the state is kept by default.
pub fn default_state_path() -> (r: String)
    ensures
        r@ == DEFAULT_STATE_PATH@,
{
    DEFAULT_STATE_PATH.to_owned()
}

/// How much is logged by default.
pub fn default_log_level() -> (r: String)
    ensures
        r@ == DEFAULT_LOG_LEVEL@,
{
    DEFAULT_LOG_LEVEL.to_owned()
}

impl Default for AppConfig {
    fn default() -> (r: Self)
        ensures
            r@ == (AppV {
                onebot: onebot_default(),
                chatroom: chatroom_default(),
                chatbridge: chatbridge_default(),
                commands: commands_default(),
                api: api_default(),
                agent: agent_default(),
                state_path: DEFAULT_STATE_PATH@,
                log_level: DEFAULT_LOG_LEVEL@,
            }),
    {
        AppConfig {
            onebot: OneBotConfig::default(),
            chatroom: ChatroomConfig::default(),
            chatbridge: ChatBridgeConfig::default(),
            commands: CommandsConfig::default(),
            api: ApiConfig::default(),
            agent: AgentConfig::default(),
            state_path: default_state_path(),
            log_level: default_log_level(),
        }
    }
}

/// Whether a section is there to be read.
pub open spec fn has_section(j: JsonV, key: Text) -> bool {
    match j.field(key) {
        Some(v) => v is Object,
        None => false,
    }
}

/// What serde calls the double that a JSON number text writes.
pub uninterp spec fn unexpected_float(text: Seq<char>) -> Seq<char>;

/// Calls `serde_json::from_str` and `serde_json::Number::as_f64`, and writes the double
/// as `serde::de::Unexpected::Float`: the words for a float that was not expected, which
/// depend on the number alone.
#[verifier::external_body]
fn say_float(text: &str) -> (r: String)
    ensures
        r@ == unexpected_float(text@),
{
    let x = serde_json::from_str::<serde_json::Number>(text).ok().and_then(|x| x.as_f64());
    serde::de::Unexpected::Float(x.unwrap_or_default()).to_string()
}

/// What a value is called where a text was expected.
pub open spec fn kind_text(j: JsonV) -> Text {
    match j {
        JsonV::Null => "null"@,
        JsonV::Bool(true) => "boolean `true`"@,
        JsonV::Bool(false) => "boolean `false`"@,
        JsonV::Num(crate::json::NumberV::Real(s)) => unexpected_float(s),
        JsonV::Num(n) => "integer `"@ + number_text(n) + "`"@,
        JsonV::Str(s) => "string"@,
        JsonV::Array(_) => "sequence"@,
        JsonV::Object(_) => "map"@,
    }
}

/// What is said of a value where a text was expected.
pub open spec fn wrong_kind(j: JsonV) -> Text {
    "配置解析失败: invalid type: "@ + kind_text(j) + ", expected a string"@
}

/// The first of the members that have to be texts and are none, in their order.
pub open spec fn first_misfit(m: Seq<(Text, JsonV)>) -> Option<JsonV>
    decreases m.len(),
{
    if m.len() == 0 {
        None
    } else if (m[0].0 == "log_level"@ || m[0].0 == "state_path"@) && m[0].1.as_text() is None {
        Some(m[0].1)
    } else {
        first_misfit(m.subrange(1, m.len() as int))
    }
}

/// The first of the two top members that is no text.
pub open spec fn misfit(j: JsonV) -> Option<JsonV> {
    match j {
        JsonV::Object(m) => first_misfit(m),
        _ => None,
    }
}

/// Where no member is a misfit, what stands under one of the two keys is a text.
proof fn lemma_no_misfit(m: Seq<(Text, JsonV)>, key: Text)
    requires
        first_misfit(m) is None,
        key == "log_level"@ || key == "state_path"@,
    ensures
        crate::json::lookup(m, key) matches Some(v) ==> v.as_text() is Some,
    decreases m.len(),
{
    if m.len() > 0 {
        lemma_no_misfit(m.subrange(1, m.len() as int), key);
    }
}

/// What is wrong with the first of the two top members that is no text.
fn find_misfit(j: &Json) -> (r: Option<String>)
    ensures
        match r {
            Some(m) => misfit(j@) is Some && m@ == wrong_kind(misfit(j@)->0),
            None => misfit(j@) is None,
        },
{
    broadcast use crate::json::object_view;

    match j {
        Json::Object(v) => {
            let ghost all = members(v@);
            let mut i: usize = 0;
            assert(all.subrange(0, all.len() as int) =~= all);
            while i < v.len()
                invariant
                    i <= v@.len(),
                    all == members(v@),
                    misfit(j@) == first_misfit(all),
                    first_misfit(all) == first_misfit(all.subrange(i as int, all.len() as int)),
                decreases v@.len() - i,
            {
                let ghost rest = all.subrange(i as int, all.len() as int);
                assert(rest[0] == (v@[i as int].0@, v@[i as int].1@));
                assert(rest.subrange(1, rest.len() as int) =~= all.subrange(
                    i + 1,
                    all.len() as int,
                ));
                let key = v[i].0.as_str();
                if (same(key, "log_level") || same(key, "state_path")) && v[i].1.as_str().is_none() {
                    return Some(say_wrong_kind(&v[i].1));
                }
                i = i + 1;
            }
            None
        },
        _ => None,
    }
}

/// The configuration that an object holds, as it is written.
pub open spec fn written_config(j: JsonV) -> AppV {
    AppV {
        onebot: if has_section(j, "onebot"@) && onebot_in(j.field("onebot"@)->0) is Some {
            onebot_in(j.field("onebot"@)->0)->0
        } else {
            onebot_default()
        },
        chatroom: if has_section(j, "chatroom"@) && chatroom_in(j.field("chatroom"@)->0) is Some {
            chatroom_in(j.field("chatroom"@)->0)->0
        } else {
            chatroom_default()
        },
        chatbridge: if has_section(j, "chatbridge"@) && chatbridge_in(
            j.field("chatbridge"@)->0,
        ) is Some {
            chatbridge_in(j.field("chatbridge"@)->0)->0
        } else {
            chatbridge_default()
        },
        commands: if has_section(j, "commands"@) && commands_in(j.field("commands"@)->0) is Some {
            commands_in(j.field("commands"@)->0)->0
        } else {
            commands_default()
        },
        api: if has_section(j, "api"@) && api_in(j.field("api"@)->0) is Some {
            api_in(j.field("api"@)->0)->0
        } else {
            api_default()
        },
        agent: if has_section(j, "agent"@) && agent_in(j.field("agent"@)->0) is Some {
            agent_in(j.field("agent"@)->0)->0
        } else {
            agent_default()
        },
        state_path: text_or(j, "state_path"@, DEFAULT_STATE_PATH@)->0,
        log_level: text_or(j, "log_level"@, DEFAULT_LOG_LEVEL@)->0,
    }
}

/// The configuration with the slashes at the end of the chatroom's address taken
/// away, and the log level in capitals.
pub open spec fn settled_config(c: AppV) -> AppV {
    AppV {
        chatroom: ChatroomV {
            base_url: drop_back(c.chatroom.base_url, among("/"@)),
            ..c.chatroom
        },
        log_level: uppercase_of(c.log_level),
        ..c
    }
}

/// A file's bytes without the byte order mark that it may start with.
pub open spec fn without_mark(bytes: Seq<u8>) -> Seq<u8> {
    if bytes.len() >= 3 && bytes[0] == 0xEF && bytes[1] == 0xBB && bytes[2] == 0xBF {
        bytes.subrange(3, bytes.len() as int)
    } else {
        bytes
    }
}

/// A file's bytes without the byte order mark that it may start with.
fn strip_mark(bytes: &[u8]) -> (r: Vec<u8>)
    ensures
        r@ == without_mark(bytes@),
{
    let from: usize = if bytes.len() >= 3 && bytes[0] == 0xEF && bytes[1] == 0xBB && bytes[2]
        == 0xBF {
        3
    } else {
        0
    };
    let mut out: Vec<u8> = Vec::new();
    let mut i: usize = from;
    while i < bytes.len()
        invariant
            from <= i <= bytes@.len(),
            out@ == bytes@.subrange(from as int, i as int),
        decreases bytes@.len() - i,
    {
        out.push(bytes[i]);
        i = i + 1;
        assert(out@ =~= bytes@.subrange(from as int, i as int));
    }
    assert(bytes@.subrange(0, bytes@.len() as int) =~= bytes@);
    out
}

/// What is said of a value where a text was expected.
fn say_wrong_kind(j: &Json) -> (r: String)
    ensures
        r@ == wrong_kind(j@),
{
    let kind = match j {
        Json::Null => "null".to_owned(),
        Json::Bool(b) => if *b {
            "boolean `true`".to_owned()
        } else {
            "boolean `false`".to_owned()
        },
        Json::Num(n) => match n {
            crate::json::Number::Real(s) => say_float(s.as_str()),
            _ => {
                let digits = n.text();
                join3("integer `", digits.as_str(), "`")
            },
        },
        Json::Str(_) => "string".to_owned(),
        Json::Array(_) => "sequence".to_owned(),
        Json::Object(_) => "map".to_owned(),
    };
    join3("配置解析失败: invalid type: ", kind.as_str(), ", expected a string")
}

/// A top member that must be a text where it is there: the text, or what is wrong.
fn read_top(j: &Json, key: &str, default: &str) -> (r: Result<String, String>)
    ensures
        match r {
            Ok(s) => text_or(j@, key@, default@) == Some(s@),
            Err(m) => {
                &&& j@.field(key@) is Some
                &&& (j@.field(key@)->0).as_text() is None
                &&& m@ == wrong_kind(j@.field(key@)->0)
            },
        },
{
    match j.get(key) {
        None => Ok(default.to_owned()),
        Some(v) => match v.as_str() {
            Some(s) => Ok(s.clone()),
            None => Err(say_wrong_kind(v)),
        },
    }
}

/// A section, where it is there to be read.
fn section<'a>(j: &'a Json, key: &str) -> (r: Option<&'a Json>)
    ensures
        match r {
            Some(v) => has_section(j@, key@) && j@.field(key@) == Some(v@),
            None => !has_section(j@, key@),
        },
{
    match j.get(key) {
        Some(v) => if is_object(v) {
            Some(v)
        } else {
            None
        },
        None => None,
    }
}

/// The configuration that a file's bytes hold.
pub fn read_config(bytes: &[u8]) -> (r: Result<AppConfig, ConfigError>)
    ensures
        match json_read(without_mark(bytes@)) {
            Err(m) => r is Err && r->Err_0 is InvalidJson && r->Err_0->InvalidJson_0@ == m,
            Ok(j) => if !(j is Object) {
                r is Err && r->Err_0 is NotObject
            } else if misfit(j) is Some {
                r is Err && r->Err_0 is InvalidJson && r->Err_0->InvalidJson_0@ == wrong_kind(
                    misfit(j)->0,
                )
            } else {
                r is Ok && r->Ok_0@ == settled_config(written_config(j))
            },
        },
{
    let bare = strip_mark(bytes);
    let j = match parse_json(bare.as_slice()) {
        Ok(j) => j,
        Err(m) => return Err(ConfigError::InvalidJson(m)),
    };
    if !is_object(&j) {
        return Err(ConfigError::NotObject);
    }
    if let Some(m) = find_misfit(&j) {
        return Err(ConfigError::InvalidJson(m));
    }
    proof {
        lemma_no_misfit(j@->Object_0, "log_level"@);
        lemma_no_misfit(j@->Object_0, "state_path"@);
    }
    let log_level = match read_top(&j, "log_level", DEFAULT_LOG_LEVEL) {
        Ok(s) => s,
        Err(m) => return Err(ConfigError::InvalidJson(m)),
    };
    let state_path = match read_top(&j, "state_path", DEFAULT_STATE_PATH) {
        Ok(s) => s,
        Err(m) => return Err(ConfigError::InvalidJson(m)),
    };
    let onebot = match section(&j, "onebot") {
        Some(v) => match OneBotConfig::read(v) {
            Some(c) => c,
            None => OneBotConfig::default(),
        },
        None => OneBotConfig::default(),
    };
    let mut chatroom = match section(&j, "chatroom") {
        Some(v) => match ChatroomConfig::read(v) {
            Some(c) => c,
            None => ChatroomConfig::default(),
        },
        None => ChatroomConfig::default(),
    };
    let chatbridge = match section(&j, "chatbridge") {
        Some(v) => match ChatBridgeConfig::read(v) {
            Some(c) => c,
            None => ChatBridgeConfig::default(),
        },
        None => ChatBridgeConfig::default(),
    };
    let commands = match section(&j, "commands") {
        Some(v) => match CommandsConfig::read(v) {
            Some(c) => c,
            None => CommandsConfig::default(),
        },
        None => CommandsConfig::default(),
    };
    let api = match section(&j, "api") {
        Some(v) => match ApiConfig::read(v) {
            Some(c) => c,
            None => ApiConfig::default(),
        },
        None => ApiConfig::default(),
    };
    let agent = match section(&j, "agent") {
        Some(v) => match AgentConfig::read(v) {
            Some(c) => c,
            None => AgentConfig::default(),
        },
        None => AgentConfig::default(),
    };
    let bare_url = trim_end_of(chatroom.base_url.as_str(), "/");
    chatroom.base_url = bare_url;
    let log_level = to_uppercase(log_level.as_str());
    Ok(AppConfig { onebot, chatroom, chatbridge, commands, api, agent, state_path, log_level })
}

/// A list of numbers in order, each once, with one number more.
pub open spec fn with_id(s: Seq<i64>, x: i64) -> Seq<i64>
    decreases s.len(),
{
    if s.len() == 0 {
        seq![x]
    } else if s.last() < x {
        s.push(x)
    } else if s.last() == x {
        s
    } else {
        with_id(s.drop_last(), x).push(s.last())
    }
}

/// Numbers in ascending order, each once.
pub open spec fn id_list(ids: Seq<i64>) -> Seq<i64>
    decreases ids.len(),
{
    if ids.len() == 0 {
        Seq::empty()
    } else {
        with_id(id_list(ids.drop_last()), ids.last())
    }
}

/// Whether numbers stand in ascending order, each once.
pub open spec fn ascending(s: Seq<i64>) -> bool {
    forall|i: int, j: int| 0 <= i < j < s.len() ==> s[i] < s[j]
}

/// A number has its place in the list: it goes behind the smaller ones.
proof fn lemma_with_id(s: Seq<i64>, x: i64, p: int)
    requires
        0 <= p <= s.len(),
        ascending(s),
        forall|k: int| 0 <= k < p ==> s[k] < x,
        p < s.len() ==> s[p] >= x,
    ensures
        with_id(s, x) == if p < s.len() && s[p] == x {
            s
        } else {
            s.insert(p, x)
        },
    decreases s.len(),
{
    if s.len() == 0 {
        assert(s.insert(p, x) =~= seq![x]);
    } else if p == s.len() {
        assert(s.insert(p, x) =~= s.push(x));
    } else if s.last() == x {
        assert(s[p] <= s.last());
        if p < s.len() - 1 {
            assert(s[p] < s[s.len() - 1]);
        }
    } else {
        if p < s.len() - 1 {
            assert(s[p] < s[s.len() - 1]);
        }
        assert(s.last() > x);
        lemma_with_id(s.drop_last(), x, p);
        if s[p] == x {
            assert(s.drop_last().push(s.last()) =~= s);
        } else {
            assert(s.drop_last().insert(p, x).push(s.last()) =~= s.insert(p, x));
        }
    }
}

/// Adding a number keeps the order, the others, and no more.
proof fn lemma_with_id_keeps(s: Seq<i64>, x: i64)
    requires
        ascending(s),
    ensures
        ascending(with_id(s, x)),
        forall|y: i64| #[trigger] with_id(s, x).contains(y) <==> s.contains(y) || y == x,
    decreases s.len(),
{
    if s.len() == 0 {
        assert(seq![x][0] == x);
    } else if s.last() < x {
        assert forall|y: i64| s.push(x).contains(y) <==> s.contains(y) || y == x by {
            if s.contains(y) {
                let k = choose|k: int| 0 <= k < s.len() && s[k] == y;
                assert(s.push(x)[k] == y);
            }
            assert(s.push(x)[s.len() as int] == x);
        }
        assert forall|i: int, j: int| 0 <= i < j < s.push(x).len() implies s.push(x)[i] < s.push(
            x,
        )[j] by {
            if j == s.len() && i < s.len() - 1 {
                assert(s[i] < s[s.len() - 1]);
            }
        }
    } else if s.last() == x {
        assert(s[s.len() - 1] == x);
    } else {
        let inner = with_id(s.drop_last(), x);
        lemma_with_id_keeps(s.drop_last(), x);
        assert forall|k: int| 0 <= k < inner.len() implies inner[k] < s.last() by {
            assert(inner.contains(inner[k]));
            if inner[k] != x {
                assert(s.drop_last().contains(inner[k]));
                let m = choose|m: int|
                    0 <= m < s.drop_last().len() && s.drop_last()[m] == inner[k];
                assert(s[m] < s[s.len() - 1]);
            }
        }
        let all = inner.push(s.last());
        assert forall|y: i64| all.contains(y) <==> s.contains(y) || y == x by {
            if all.contains(y) {
                let k = choose|k: int| 0 <= k < all.len() && all[k] == y;
                if k < inner.len() {
                    assert(inner.contains(y));
                    if y != x {
                        let m = choose|m: int|
                            0 <= m < s.drop_last().len() && s.drop_last()[m] == y;
                        assert(s[m] == y);
                    }
                } else {
                    assert(s[s.len() - 1] == y);
                }
            }
            if s.contains(y) || y == x {
                if y == s.last() {
                    assert(all[inner.len() as int] == y);
                } else {
                    if s.contains(y) {
                        let m = choose|m: int| 0 <= m < s.len() && s[m] == y;
                        assert(s.drop_last()[m] == y);
                    }
                    assert(inner.contains(y));
                    let k = choose|k: int| 0 <= k < inner.len() && inner[k] == y;
                    assert(all[k] == y);
                }
            }
        }
    }
}

/// The list of the groups is ascending, names each group once, and names those that
/// are configured and no others.
pub proof fn group_list_is_sorted_and_complete(ids: Seq<i64>)
    ensures
        ascending(id_list(ids)),
        forall|y: i64| id_list(ids).contains(y) <==> ids.contains(y),
    decreases ids.len(),
{
    if ids.len() > 0 {
        group_list_is_sorted_and_complete(ids.drop_last());
        lemma_with_id_keeps(id_list(ids.drop_last()), ids.last());
        assert forall|y: i64| id_list(ids).contains(y) <==> ids.contains(y) by {
            if ids.contains(y) && y != ids.last() {
                let k = choose|k: int| 0 <= k < ids.len() && ids[k] == y;
                assert(ids.drop_last()[k] == y);
            }
            if ids.drop_last().contains(y) {
                let k = choose|k: int| 0 <= k < ids.drop_last().len() && ids.drop_last()[k] == y;
                assert(ids[k] == y);
            }
            if y == ids.last() {
                assert(ids[ids.len() - 1] == y);
            }
        }
    }
}

impl AppConfig {
    /// The groups that are configured, in ascending order, each once.
    pub fn group_ids(&self) -> (r: Vec<i64>)
        ensures
            r@ == id_list(self@.chatroom.group_ids),
            ascending(r@),
            forall|y: i64| r@.contains(y) <==> self@.chatroom.group_ids.contains(y),
    {
        let ids = &self.chatroom.group_ids;
        let mut out: Vec<i64> = Vec::new();
        let mut i: usize = 0;
        assert(out@ =~= id_list(ids@.take(0)));
        while i < ids.len()
            invariant
                i <= ids@.len(),
                ids@ == self@.chatroom.group_ids,
                out@ == id_list(ids@.take(i as int)),
            decreases ids@.len() - i,
        {
            let x: i64 = ids[i];
            proof {
                assert(ids@.take(i + 1).drop_last() =~= ids@.take(i as int));
                assert(ids@.take(i + 1).last() == x);
                group_list_is_sorted_and_complete(ids@.take(i as int));
            }
            let mut p: usize = 0;
            while p < out.len() && out[p] < x
                invariant
                    p <= out@.len(),
                    forall|k: int| 0 <= k < p ==> out@[k] < x,
                decreases out@.len() - p,
            {
                p = p + 1;
            }
            proof {
                lemma_with_id(out@, x, p as int);
            }
            if p == out.len() || out[p] != x {
                out.insert(p, x);
            }
            i = i + 1;
        }
        proof {
            assert(ids@.take(i as int) =~= ids@);
            group_list_is_sorted_and_complete(ids@);
        }
        out
    }
}

/// What stands for a token where it must not be shown.
pub open spec fn masked(token: Text) -> Text {
    if token.len() == 0 {
        "(空)"@
    } else {
        "***"@
    }
}

/// What stands for a token where it must not be shown.
pub fn mask(token: &str) -> (r: &'static str)
    ensures
        r@ == masked(token@),
{
    if token.is_empty() {
        "(空)"
    } else {
        "***"
    }
}

/// Integers as JSON.
pub open spec fn int_items(s: Seq<i64>) -> JsonV {
    JsonV::Array(Seq::new(s.len(), |i: int| int_json(s[i])))
}

/// Integers as JSON.
fn json_ints(v: &Vec<i64>) -> (r: Json)
    ensures
        r@ == int_items(v@),
{
    broadcast use array_view;

    let mut out: Vec<Json> = Vec::new();
    let mut i: usize = 0;
    while i < v.len()
        invariant
            i <= v@.len(),
            out@.len() == i,
            forall|k: int| 0 <= k < i ==> (#[trigger] out@[k])@ == int_json(v@[k]),
        decreases v@.len() - i,
    {
        out.push(json_int(v[i]));
        i = i + 1;
    }
    assert(items(out@) =~= Seq::new(v@.len(), |i: int| int_json(v@[i])));
    Json::Array(out)
}

/// The names of commands as JSON.
pub open spec fn name_items(s: Seq<SkillConfigV>) -> JsonV {
    JsonV::Array(Seq::new(s.len(), |i: int| JsonV::Str(s[i].name)))
}

/// The names of commands as JSON.
fn json_names(v: &Vec<SkillConfig>) -> (r: Json)
    ensures
        r@ == name_items(skills_held(v@)),
{
    broadcast use array_view;

    let mut out: Vec<Json> = Vec::new();
    let mut i: usize = 0;
    while i < v.len()
        invariant
            i <= v@.len(),
            out@.len() == i,
            forall|k: int| 0 <= k < i ==> (#[trigger] out@[k])@ == JsonV::Str(v@[k].name@),
        decreases v@.len() - i,
    {
        out.push(json_str(v[i].name.as_str()));
        i = i + 1;
    }
    assert(items(out@) =~= Seq::new(
        v@.len(),
        |i: int| JsonV::Str(skills_held(v@)[i].name),
    ));
    Json::Array(out)
}

/// An address with its port.
pub open spec fn endpoint(host: Text, port: u16) -> Text {
    host + ":"@ + decimal(port as nat)
}

/// An address with its port.
fn endpoint_text(host: &str, port: u16) -> (r: String)
    ensures
        r@ == endpoint(host@, port),
{
    let digits = u64_text(port as u64);
    join3(host, ":", digits.as_str())
}

/// What a summary says of the language model.
pub open spec fn llm_summary(llm: Option<LlmV>) -> JsonV {
    match llm {
        Some(c) if c.api_url.len() > 0 => JsonV::Object(
            seq![
                ("api_url"@, JsonV::Str(c.api_url)),
                ("api_key"@, JsonV::Str(masked(c.api_key))),
                ("model"@, JsonV::Str(c.model)),
            ],
        ),
        _ => JsonV::Str("(未配置)"@),
    }
}

/// A summary of a configuration in which no token is shown.
pub open spec fn summary(c: AppV) -> JsonV {
    JsonV::Object(
        seq![
            (
                "onebot"@,
                JsonV::Object(
                    seq![
                        (
                            "listen"@,
                            JsonV::Str(
                                endpoint(c.onebot.listen_host, c.onebot.listen_port)
                                    + c.onebot.path,
                            ),
                        ),
                        ("access_token"@, JsonV::Str(masked(c.onebot.access_token))),
                        ("self_id"@, int_json(c.onebot.self_id)),
                    ],
                ),
            ),
            (
                "chatroom"@,
                JsonV::Object(
                    seq![
                        ("base_url"@, JsonV::Str(c.chatroom.base_url)),
                        ("channel_id"@, int_json(c.chatroom.channel_id)),
                        ("forward_token"@, JsonV::Str(masked(c.chatroom.forward_token))),
                        ("refresh_token"@, JsonV::Str(masked(c.chatroom.refresh_token))),
                        ("group_ids"@, int_items(id_list(c.chatroom.group_ids))),
                    ],
                ),
            ),
            (
                "chatbridge"@,
                JsonV::Object(
                    seq![
                        ("enabled"@, JsonV::Bool(c.chatbridge.enabled)),
                        (
                            "endpoint"@,
                            JsonV::Str(
                                if c.chatbridge.host.len() == 0 {
                                    "(未配置)"@
                                } else {
                                    endpoint(c.chatbridge.host, c.chatbridge.port)
                                },
                            ),
                        ),
                    ],
                ),
            ),
            (
                "api"@,
                JsonV::Object(
                    seq![
                        ("enabled"@, JsonV::Bool(c.api.enabled)),
                        ("listen"@, JsonV::Str(endpoint(c.api.listen_host, c.api.listen_port))),
                        ("access_token"@, JsonV::Str(masked(c.api.access_token))),
                    ],
                ),
            ),
            (
                "agent"@,
                JsonV::Object(
                    seq![
                        ("enabled"@, JsonV::Bool(c.agent.enabled)),
                        ("skills"@, name_items(c.agent.skills)),
                        ("llm"@, llm_summary(c.agent.llm)),
                    ],
                ),
            ),
            ("state_path"@, JsonV::Str(c.state_path)),
            ("log_level"@, JsonV::Str(c.log_level)),
        ],
    )
}

/// What a summary says of the language model.
fn describe_llm(llm: &Option<LlmConfig>) -> (r: Json)
    ensures
        r@ == llm_summary(
            match *llm {
                Some(c) => Some(c@),
                None => None,
            },
        ),
{
    broadcast use object_view;

    match llm {
        Some(c) => {
            if c.api_url.as_str().is_empty() {
                return json_str("(未配置)");
            }
            let parts: Vec<(String, Json)> = vec![
                ("api_url".to_owned(), json_str(c.api_url.as_str())),
                ("api_key".to_owned(), json_str(mask(c.api_key.as_str()))),
                ("model".to_owned(), json_str(c.model.as_str())),
            ];
            assert(members(parts@) =~= seq![
                ("api_url"@, JsonV::Str(c@.api_url)),
                ("api_key"@, JsonV::Str(masked(c@.api_key))),
                ("model"@, JsonV::Str(c@.model)),
            ]);
            Json::Object(parts)
        },
        None => json_str("(未配置)"),
    }
}

/// A summary of the configuration that is safe to print: no token is shown.
pub fn describe(cfg: &AppConfig) -> (r: Json)
    ensures
        r@ == summary(cfg@),
{
    broadcast use object_view;

    let listen = endpoint_text(cfg.onebot.listen_host.as_str(), cfg.onebot.listen_port);
    let listen = join2(listen.as_str(), cfg.onebot.path.as_str());
    let onebot: Vec<(String, Json)> = vec![
        ("listen".to_owned(), json_str(listen.as_str())),
        ("access_token".to_owned(), json_str(mask(cfg.onebot.access_token.as_str()))),
        ("self_id".to_owned(), json_int(cfg.onebot.self_id)),
    ];
    let ghost c = cfg@;
    assert(members(onebot@) =~= summary(c)->Object_0[0].1->Object_0);
    let group_ids = cfg.group_ids();
    let chatroom: Vec<(String, Json)> = vec![
        ("base_url".to_owned(), json_str(cfg.chatroom.base_url.as_str())),
        ("channel_id".to_owned(), json_int(cfg.chatroom.channel_id)),
        ("forward_token".to_owned(), json_str(mask(cfg.chatroom.forward_token.as_str()))),
        ("refresh_token".to_owned(), json_str(mask(cfg.chatroom.refresh_token.as_str()))),
        ("group_ids".to_owned(), json_ints(&group_ids)),
    ];
    assert(members(chatroom@) =~= summary(c)->Object_0[1].1->Object_0);
    let place = if cfg.chatbridge.host.as_str().is_empty() {
        "(未配置)".to_owned()
    } else {
        endpoint_text(cfg.chatbridge.host.as_str(), cfg.chatbridge.port)
    };
    let chatbridge: Vec<(String, Json)> = vec![
        ("enabled".to_owned(), Json::Bool(cfg.chatbridge.enabled)),
        ("endpoint".to_owned(), json_str(place.as_str())),
    ];
    assert(members(chatbridge@) =~= summary(c)->Object_0[2].1->Object_0);
    let api_listen = endpoint_text(cfg.api.listen_host.as_str(), cfg.api.listen_port);
    let api: Vec<(String, Json)> = vec![
        ("enabled".to_owned(), Json::Bool(cfg.api.enabled)),
        ("listen".to_owned(), json_str(api_listen.as_str())),
        ("access_token".to_owned(), json_str(mask(cfg.api.access_token.as_str()))),
    ];
    assert(members(api@) =~= summary(c)->Object_0[3].1->Object_0);
    let agent: Vec<(String, Json)> = vec![
        ("enabled".to_owned(), Json::Bool(cfg.agent.enabled)),
        ("skills".to_owned(), json_names(&cfg.agent.skills)),
        ("llm".to_owned(), describe_llm(&cfg.agent.llm)),
    ];
    assert(members(agent@) =~= summary(c)->Object_0[4].1->Object_0);
    let all: Vec<(String, Json)> = vec![
        ("onebot".to_owned(), Json::Object(onebot)),
        ("chatroom".to_owned(), Json::Object(chatroom)),
        ("chatbridge".to_owned(), Json::Object(chatbridge)),
        ("api".to_owned(), Json::Object(api)),
        ("agent".to_owned(), Json::Object(agent)),
        ("state_path".to_owned(), json_str(cfg.state_path.as_str())),
        ("log_level".to_owned(), json_str(cfg.log_level.as_str())),
    ];
    assert(members(all@) =~= summary(c)->Object_0);
    Json::Object(all)
}

/// The summary tells nothing of a token but whether there is one: two configurations
/// that differ only in what their tokens and keys are, and in the secrets of the game
/// link, have the same summary.
pub proof fn a_summary_shows_no_token(
    c: AppV,
    onebot: Text,
    forward: Text,
    refresh: Text,
    api: Text,
    password: Text,
    aes_key: Text,
)
    requires
        onebot.len() == 0 <==> c.onebot.access_token.len() == 0,
        forward.len() == 0 <==> c.chatroom.forward_token.len() == 0,
        refresh.len() == 0 <==> c.chatroom.refresh_token.len() == 0,
        api.len() == 0 <==> c.api.access_token.len() == 0,
    ensures
        summary(
            AppV {
                onebot: OneBotV { access_token: onebot, ..c.onebot },
                chatroom: ChatroomV {
                    forward_token: forward,
                    refresh_token: refresh,
                    ..c.chatroom
                },
                chatbridge: ChatBridgeV { password, aes_key, ..c.chatbridge },
                api: ApiV { access_token: api, ..c.api },
                ..c
            },
        ) == summary(c),
{
}

/// The summary tells nothing of the key of the language model but whether there is
/// one.
pub proof fn a_summary_shows_no_model_key(llm: LlmV, key: Text)
    requires
        key.len() == 0 <==> llm.api_key.len() == 0,
    ensures
        llm_summary(Some(LlmV { api_key: key, ..llm })) == llm_summary(Some(llm)),
{
}

/// A byte order mark at the start of a file makes no difference.
pub proof fn a_mark_makes_no_difference(bytes: Seq<u8>)
    ensures
        without_mark(seq![0xEFu8, 0xBBu8, 0xBFu8] + bytes) == bytes,
{
    let all = seq![0xEFu8, 0xBBu8, 0xBFu8] + bytes;
    assert(all.subrange(3, all.len() as int) =~= bytes);
}

/// A section that is missing counts as its defaults, whatever else is configured.
pub proof fn a_missing_section_counts_as_its_defaults(j: JsonV)
    ensures
        j.field("onebot"@) is None ==> written_config(j).onebot == onebot_default(),
        j.field("chatroom"@) is None ==> written_config(j).chatroom == chatroom_default(),
        j.field("chatbridge"@) is None ==> written_config(j).chatbridge == chatbridge_default(),
        j.field("commands"@) is None ==> written_config(j).commands == commands_default(),
        j.field("api"@) is None ==> written_config(j).api == api_default(),
        j.field("agent"@) is None ==> written_config(j).agent == agent_default(),
{
}

// ---- what the settings keep to ----

/// Whether a setting has the value that is written for it, or else its default.
pub open spec fn set_text(j: JsonV, key: Text, default: Text, value: Text) -> bool {
    j.field(key) == Some(JsonV::Str(value)) || j.field(key) is None && value == default
}

/// Whether a switch stands as it is written, or else by its default.
pub open spec fn set_bool(j: JsonV, key: Text, default: bool, value: bool) -> bool {
    j.field(key) == Some(JsonV::Bool(value)) || j.field(key) is None && value == default
}

/// Whether a number is the one that is written, or else its default.
pub open spec fn set_int(j: JsonV, key: Text, default: i64, value: i64) -> bool {
    (j.field(key) matches Some(v) && v.as_int() == Some(value)) || j.field(key) is None && value
        == default
}

/// Whether a number that is not negative is the one that is written, or else its default.
pub open spec fn set_nat(j: JsonV, key: Text, default: nat, value: nat) -> bool {
    (j.field(key) matches Some(JsonV::Num(crate::json::NumberV::Pos(n))) && n == value)
        || j.field(key) is None && value == default
}

/// The settings of the OneBot server are those that are written, each under its name,
/// and the usual ones for those that are not.
pub proof fn onebot_settings_are_as_written(j: JsonV)
    ensures
        (onebot_in(j) matches Some(c) ==> {
            &&& set_text(j, "listen_host"@, "0.0.0.0"@, c.listen_host)
            &&& set_nat(j, "listen_port"@, 6199, c.listen_port as nat)
            &&& set_text(j, "path"@, "/ws"@, c.path)
            &&& set_text(j, "access_token"@, ""@, c.access_token)
            &&& set_int(j, "self_id"@, 0, c.self_id)
        }),
{
}

/// The settings of the chatroom are those that are written, each under its name, and the
/// usual ones for those that are not.
pub proof fn chatroom_settings_are_as_written(j: JsonV)
    ensures
        (chatroom_in(j) matches Some(c) ==> {
            &&& set_text(j, "base_url"@, chatroom_default().base_url, c.base_url)
            &&& set_int(j, "channel_id"@, 1, c.channel_id)
            &&& set_text(j, "forward_token"@, ""@, c.forward_token)
            &&& set_text(j, "refresh_token"@, ""@, c.refresh_token)
            &&& set_nat(j, "poll_interval"@, 10, c.poll_interval as nat)
            &&& set_nat(j, "debounce_count"@, 2, c.debounce_count as nat)
            &&& set_bool(j, "qq_sync_enabled"@, true, c.qq_sync_enabled)
            &&& set_bool(j, "qq_forward_enabled"@, true, c.qq_forward_enabled)
            &&& set_bool(j, "qq_to_game_enabled"@, true, c.qq_to_game_enabled)
            &&& set_bool(j, "player_tracking_enabled"@, false, c.player_tracking_enabled)
            &&& set_text(j, "snapshot_sender"@, "snapshot"@, c.snapshot_sender)
            &&& set_text(j, "snapshot_prefix"@, "!snap"@, c.snapshot_prefix)
            &&& set_text(j, "player_join_pattern"@, ""@, c.player_join_pattern)
            &&& set_text(j, "player_quit_pattern"@, ""@, c.player_quit_pattern)
            &&& set_text(j, "voice_api"@, chatroom_default().voice_api, c.voice_api)
            &&& set_text(j, "status_api"@, chatroom_default().status_api, c.status_api)
            &&& j.field("group_ids"@) is None ==> c.group_ids.len() == 0
            &&& (j.field("group_ids"@) matches Some(JsonV::Array(s)) ==> c.group_ids.len()
                == s.len() && forall|i: int|
                0 <= i < s.len() ==> (#[trigger] s[i]).as_int() == Some(c.group_ids[i]))
        }),
{
}

/// The settings of the connection to the game are those that are written, each under its
/// name, and the usual ones for those that are not.
pub proof fn chatbridge_settings_are_as_written(j: JsonV)
    ensures
        (chatbridge_in(j) matches Some(c) ==> {
            &&& set_bool(j, "enabled"@, true, c.enabled)
            &&& set_text(j, "host"@, ""@, c.host)
            &&& set_nat(j, "port"@, 21027, c.port as nat)
            &&& set_text(j, "name"@, "web"@, c.name)
            &&& set_text(j, "password"@, ""@, c.password)
            &&& set_text(j, "aes_key"@, ""@, c.aes_key)
        }),
{
}

/// The settings of the commands are those that are written, each under its name, and the
/// usual ones for those that are not.
pub proof fn command_settings_are_as_written(j: JsonV)
    ensures
        (commands_in(j) matches Some(c) ==> {
            &&& set_bool(j, "group_allow_all"@, true, c.group_allow_all)
            &&& set_bool(j, "status_image"@, false, c.status_image)
            &&& j.field("allow_from"@) is None ==> c.allow_from.len() == 0
            &&& (j.field("allow_from"@) matches Some(JsonV::Array(s)) ==> c.allow_from.len()
                == s.len() && forall|i: int|
                0 <= i < s.len() ==> (#[trigger] s[i]).as_int() == Some(c.allow_from[i]))
        }),
{
}

/// The settings of the interface are those that are written, each under its name, and
/// the usual ones for those that are not.
pub proof fn api_settings_are_as_written(j: JsonV)
    ensures
        (api_in(j) matches Some(c) ==> {
            &&& set_bool(j, "enabled"@, false, c.enabled)
            &&& set_text(j, "listen_host"@, "127.0.0.1"@, c.listen_host)
            &&& set_nat(j, "listen_port"@, 8199, c.listen_port as nat)
            &&& set_text(j, "access_token"@, ""@, c.access_token)
        }),
{
}

/// The settings of the model are those that are written, each under its name, and the
/// usual ones for those that are not.
pub proof fn model_settings_are_as_written(j: JsonV)
    ensures
        (llm_in(j) matches Some(c) ==> {
            &&& set_text(j, "api_url"@, ""@, c.api_url)
            &&& set_text(j, "api_key"@, ""@, c.api_key)
            &&& set_text(j, "model"@, ""@, c.model)
            &&& set_nat(j, "timeout_secs"@, 30, c.timeout_secs as nat)
            &&& set_nat(j, "max_answer_chars"@, 1000, c.max_answer_chars as nat)
            &&& set_text(j, "system_prompt"@, DEFAULT_SYSTEM_PROMPT@, c.system_prompt)
        }),
{
}

/// A source is of the kind that is written and has what is written for it.
pub proof fn a_source_is_as_written(j: JsonV)
    ensures
        (source_in(j) matches Some(s) ==> match s {
            SourceConfigV::Local { root, extensions, name } => {
                &&& j.field("type"@) == Some(JsonV::Str("local"@))
                &&& j.field("root"@) == Some(JsonV::Str(root))
                &&& set_text(j, "name"@, ""@, name)
                &&& j.field("extensions"@) is None ==> extensions.len() == 0
                &&& (j.field("extensions"@) matches Some(JsonV::Array(s)) ==> extensions.len()
                    == s.len() && forall|i: int|
                    0 <= i < s.len() ==> (#[trigger] s[i]) == JsonV::Str(extensions[i]))
            },
            SourceConfigV::Mediawiki { api_url, name } => {
                &&& j.field("type"@) == Some(JsonV::Str("mediawiki"@))
                &&& j.field("api_url"@) == Some(JsonV::Str(api_url))
                &&& set_text(j, "name"@, ""@, name)
            },
            SourceConfigV::Repo { repo, branch, subdir, site_url, extensions, name } => {
                &&& j.field("type"@) == Some(JsonV::Str("repo"@))
                &&& j.field("repo"@) == Some(JsonV::Str(repo))
                &&& set_text(j, "branch"@, DEFAULT_BRANCH@, branch)
                &&& set_text(j, "subdir"@, ""@, subdir)
                &&& set_text(j, "site_url"@, ""@, site_url)
                &&& set_text(j, "name"@, ""@, name)
            },
        }),
        j.field("type"@) == Some(JsonV::Str("mediawiki"@)) && (j.field("api_url"@) matches Some(
            JsonV::Str(_),
        )) && j.field("name"@) is None ==> source_in(j) is Some,
{
    reveal_strlit("local");
    reveal_strlit("mediawiki");
    reveal_strlit("repo");
    assert("local"@.len() == 5 && "mediawiki"@.len() == 9 && "repo"@.len() == 4);
}

/// A skill has what is written for it, and all of its sources in their order.
pub proof fn a_skill_is_as_written(j: JsonV, sources: Seq<JsonV>, i: int)
    ensures
        (skill_in(j) matches Some(s) ==> {
            &&& set_text(j, "name"@, ""@, s.name)
            &&& set_text(j, "trigger"@, ""@, s.trigger)
            &&& set_text(j, "description"@, ""@, s.description)
            &&& set_nat(j, "max_results"@, 5, s.max_results as nat)
            &&& j.field("sources"@) is None ==> s.sources.len() == 0
            &&& j.field("sources"@) == Some(JsonV::Array(sources)) ==> s.sources.len()
                == sources.len() && (0 <= i < sources.len() ==> source_in(sources[i]) == Some(
                s.sources[i],
            ))
        }),
        (agent_in(j) matches Some(a) ==> {
            &&& set_bool(j, "enabled"@, false, a.enabled)
            &&& j.field("llm"@) is None ==> a.llm is None
            &&& (j.field("llm"@) matches Some(JsonV::Object(m)) ==> a.llm == llm_in(
                JsonV::Object(m),
            ) && a.llm is Some)
            &&& j.field("skills"@) is None ==> a.skills.len() == 0
            &&& j.field("skills"@) == Some(JsonV::Array(sources)) ==> a.skills.len()
                == sources.len() && (0 <= i < sources.len() ==> skill_in(sources[i]) == Some(
                a.skills[i],
            ))
        }),
{
}

/// A section that can be read is taken over, each under its name; one that cannot be
/// read leaves the usual settings, and so do the path of the state and the level of the
/// log where they are not written.
pub proof fn sections_are_taken_over(j: JsonV, section: JsonV, t: Text)
    requires
        section is Object,
    ensures
        ({
            let c = written_config(j);
            &&& j.field("onebot"@) == Some(section) ==> c.onebot == (match onebot_in(section) {
                Some(o) => o,
                None => onebot_default(),
            })
            &&& j.field("chatroom"@) == Some(section) ==> c.chatroom == (match chatroom_in(
                section,
            ) {
                Some(o) => o,
                None => chatroom_default(),
            })
            &&& j.field("chatbridge"@) == Some(section) ==> c.chatbridge == (match chatbridge_in(
                section,
            ) {
                Some(o) => o,
                None => chatbridge_default(),
            })
            &&& j.field("commands"@) == Some(section) ==> c.commands == (match commands_in(
                section,
            ) {
                Some(o) => o,
                None => commands_default(),
            })
            &&& j.field("api"@) == Some(section) ==> c.api == (match api_in(section) {
                Some(o) => o,
                None => api_default(),
            })
            &&& j.field("agent"@) == Some(section) ==> c.agent == (match agent_in(section) {
                Some(o) => o,
                None => agent_default(),
            })
            &&& j.field("state_path"@) == Some(JsonV::Str(t)) ==> c.state_path == t
            &&& j.field("log_level"@) == Some(JsonV::Str(t)) ==> c.log_level == t
            &&& j.field("state_path"@) is None ==> c.state_path == DEFAULT_STATE_PATH@
            &&& j.field("log_level"@) is None ==> c.log_level == DEFAULT_LOG_LEVEL@
            &&& j.field("agent"@) is None ==> !c.agent.enabled && c.agent.llm is None
                && c.agent.skills.len() == 0
            &&& j.field("api"@) is None ==> !c.api.enabled && c.api.listen_port == 8199
            &&& j.field("chatbridge"@) is None ==> c.chatbridge.enabled && c.chatbridge.port
                == 21027
            &&& j.field("commands"@) is None ==> c.commands.group_allow_all
                && !c.commands.status_image && c.commands.allow_from.len() == 0
            &&& j.field("onebot"@) is None ==> c.onebot.listen_port == 6199 && c.onebot.self_id
                == 0
            &&& j.field("chatroom"@) is None ==> c.chatroom.qq_sync_enabled
                && c.chatroom.qq_forward_enabled && c.chatroom.qq_to_game_enabled
                && !c.chatroom.player_tracking_enabled && c.chatroom.poll_interval == 10
                && c.chatroom.debounce_count == 2 && c.chatroom.group_ids.len() == 0
        }),
{
}

/// The address of the chatroom is used without the slashes at its end, and is the one
/// that is written in all else; the level of the log is put into capitals; nothing else
/// is changed.
pub proof fn settling_changes_little(c: AppV)
    ensures
        ({
            let d = settled_config(c);
            let url = d.chatroom.base_url;
            &&& url.len() > 0 ==> url.last() != '/'
            &&& crate::text::begins(c.chatroom.base_url, url)
            &&& forall|i: int|
                url.len() <= i < c.chatroom.base_url.len() ==> (#[trigger] c.chatroom.base_url[i])
                    == '/'
            &&& d.log_level == uppercase_of(c.log_level)
            &&& d.onebot == c.onebot
            &&& d.chatbridge == c.chatbridge
            &&& d.commands == c.commands
            &&& d.api == c.api
            &&& d.agent == c.agent
            &&& d.state_path == c.state_path
            &&& d.chatroom == (ChatroomV { base_url: url, ..c.chatroom })
        }),
{
    reveal_strlit("/");
    let p = among("/"@);
    let s = c.chatroom.base_url;
    let url = drop_back(s, p);
    assert("/"@[0] == '/');
    crate::text::lemma_drop_back_ends(s, p);
    crate::text::what_is_dropped_at_the_back(s, p);
    if url.len() > 0 {
        assert(!p(url[url.len() - 1]));
    }
    assert forall|i: int| url.len() <= i < s.len() implies (#[trigger] s[i]) == '/' by {
        assert(p(s[i]));
    }
}

/// The addresses of the servers are those rows that have a label and a value, in their
/// order; what else stands in a row is not looked at.
pub proof fn addresses_are_the_full_rows(a: Seq<Seq<Text>>, b: Seq<Seq<Text>>, row: Seq<Text>)
    ensures
        pairs_of(a + b) == pairs_of(a) + pairs_of(b),
        row.len() >= 2 ==> pairs_of(seq![row]) == seq![(row[0], row[1])],
        row.len() < 2 ==> pairs_of(seq![row]).len() == 0,
    decreases b.len(),
{
    let none = Seq::<Seq<Text>>::empty();
    let one = seq![row];
    assert(one.drop_last() =~= none);
    assert(one.last() == row);
    assert(pairs_of(none) =~= Seq::<(Text, Text)>::empty());
    if row.len() >= 2 {
        assert(pairs_of(one) =~= seq![(row[0], row[1])]);
    }
    if b.len() == 0 {
        assert(a + b =~= a);
        assert(b =~= none);
        assert(pairs_of(a) + pairs_of(b) =~= pairs_of(a));
    } else {
        addresses_are_the_full_rows(a, b.drop_last(), row);
        assert((a + b).drop_last() =~= a + b.drop_last());
        assert((a + b).last() == b.last());
        assert(pairs_of(a + b) =~= pairs_of(a) + pairs_of(b));
    }
}

/// What is told of the settings is what they are: where is listened, whom the hub speaks
/// to and under which address; of a token only whether there is one.
pub proof fn a_summary_tells_the_settings(c: AppV)
    ensures
        ({
            let s = summary(c);
            &&& s.field("onebot"@) matches Some(o) && {
                &&& o.field("listen"@) == Some(
                    JsonV::Str(
                        c.onebot.listen_host + ":"@ + decimal(c.onebot.listen_port as nat)
                            + c.onebot.path,
                    ),
                )
                &&& o.field("self_id"@) == Some(int_json(c.onebot.self_id))
            }
            &&& s.field("chatroom"@) matches Some(r) && {
                &&& r.field("base_url"@) == Some(JsonV::Str(c.chatroom.base_url))
                &&& r.field("channel_id"@) == Some(int_json(c.chatroom.channel_id))
                &&& r.field("group_ids"@) == Some(int_items(id_list(c.chatroom.group_ids)))
            }
            &&& s.field("chatbridge"@) matches Some(g) && {
                &&& g.field("enabled"@) == Some(JsonV::Bool(c.chatbridge.enabled))
                &&& c.chatbridge.host.len() > 0 ==> g.field("endpoint"@) == Some(
                    JsonV::Str(c.chatbridge.host + ":"@ + decimal(c.chatbridge.port as nat)),
                )
            }
            &&& s.field("api"@) matches Some(a) && {
                &&& a.field("enabled"@) == Some(JsonV::Bool(c.api.enabled))
                &&& a.field("listen"@) == Some(
                    JsonV::Str(c.api.listen_host + ":"@ + decimal(c.api.listen_port as nat)),
                )
            }
            &&& s.field("agent"@) matches Some(k) && {
                &&& k.field("enabled"@) == Some(JsonV::Bool(c.agent.enabled))
                &&& k.field("skills"@) == Some(name_items(c.agent.skills))
            }
            &&& s.field("state_path"@) == Some(JsonV::Str(c.state_path))
            &&& s.field("log_level"@) == Some(JsonV::Str(c.log_level))
        }),
        forall|t: Text| #[trigger] masked(t) == "(空)"@ <==> t.len() == 0,
{
    reveal_strlit("(空)");
    reveal_strlit("***");
    assert("(空)"@[0] != "***"@[0]);
    lemma_summary_parts(c);
    reveal_strlit("onebot");
    reveal_strlit("chatroom");
    reveal_strlit("chatbridge");
    reveal_strlit("api");
    reveal_strlit("agent");
    reveal_strlit("state_path");
    reveal_strlit("log_level");
    match summary(c) {
        JsonV::Object(m) => {
            assert(m[0].0 == "onebot"@ && m[1].0 == "chatroom"@ && m[2].0 == "chatbridge"@
                && m[3].0 == "api"@ && m[4].0 == "agent"@ && m[5].0 == "state_path"@ && m[6].0
                == "log_level"@);
            assert("onebot"@.len() == 6 && "chatroom"@.len() == 8 && "chatbridge"@.len() == 10
                && "api"@.len() == 3 && "agent"@.len() == 5 && "state_path"@.len() == 10
                && "log_level"@.len() == 9);
            assert("chatbridge"@[0] != "state_path"@[0]);
            crate::json::a_member_is_found(m, 0);
            crate::json::a_member_is_found(m, 1);
            crate::json::a_member_is_found(m, 2);
            crate::json::a_member_is_found(m, 3);
            crate::json::a_member_is_found(m, 4);
            crate::json::a_member_is_found(m, 5);
            crate::json::a_member_is_found(m, 6);
        },
        _ => {},
    }
}

/// What the parts of the summary tell is found under its name.
proof fn lemma_summary_parts(c: AppV)
    ensures
        match summary(c) {
            JsonV::Object(m) => {
                &&& m.len() == 7
                &&& m[0].1.field("listen"@) == Some(
                    JsonV::Str(
                        c.onebot.listen_host + ":"@ + decimal(c.onebot.listen_port as nat)
                            + c.onebot.path,
                    ),
                )
                &&& m[0].1.field("self_id"@) == Some(int_json(c.onebot.self_id))
                &&& m[1].1.field("base_url"@) == Some(JsonV::Str(c.chatroom.base_url))
                &&& m[1].1.field("channel_id"@) == Some(int_json(c.chatroom.channel_id))
                &&& m[1].1.field("group_ids"@) == Some(int_items(id_list(c.chatroom.group_ids)))
                &&& m[2].1.field("enabled"@) == Some(JsonV::Bool(c.chatbridge.enabled))
                &&& c.chatbridge.host.len() > 0 ==> m[2].1.field("endpoint"@) == Some(
                    JsonV::Str(c.chatbridge.host + ":"@ + decimal(c.chatbridge.port as nat)),
                )
                &&& m[3].1.field("enabled"@) == Some(JsonV::Bool(c.api.enabled))
                &&& m[3].1.field("listen"@) == Some(
                    JsonV::Str(c.api.listen_host + ":"@ + decimal(c.api.listen_port as nat)),
                )
                &&& m[4].1.field("enabled"@) == Some(JsonV::Bool(c.agent.enabled))
                &&& m[4].1.field("skills"@) == Some(name_items(c.agent.skills))
            },
            _ => false,
        },
{
    reveal_strlit("listen");
    reveal_strlit("access_token");
    reveal_strlit("self_id");
    reveal_strlit("base_url");
    reveal_strlit("channel_id");
    reveal_strlit("forward_token");
    reveal_strlit("refresh_token");
    reveal_strlit("group_ids");
    reveal_strlit("enabled");
    reveal_strlit("endpoint");
    reveal_strlit("skills");
    assert("listen"@.len() == 6 && "access_token"@.len() == 12 && "self_id"@.len() == 7);
    assert("base_url"@.len() == 8 && "channel_id"@.len() == 10 && "forward_token"@.len() == 13
        && "refresh_token"@.len() == 13 && "group_ids"@.len() == 9);
    assert("enabled"@.len() == 7 && "endpoint"@.len() == 8 && "skills"@.len() == 6);
    match summary(c) {
        JsonV::Object(m) => {
            match (m[0].1, m[1].1, m[2].1, m[3].1, m[4].1) {
                (
                    JsonV::Object(o),
                    JsonV::Object(r),
                    JsonV::Object(g),
                    JsonV::Object(a),
                    JsonV::Object(k),
                ) => {
                    assert(o[0].0 == "listen"@ && o[1].0 == "access_token"@ && o[2].0
                        == "self_id"@);
                    crate::json::a_member_is_found(o, 0);
                    crate::json::a_member_is_found(o, 2);
                    assert(r[0].0 == "base_url"@ && r[1].0 == "channel_id"@ && r[2].0
                        == "forward_token"@ && r[3].0 == "refresh_token"@ && r[4].0
                        == "group_ids"@);
                    crate::json::a_member_is_found(r, 0);
                    crate::json::a_member_is_found(r, 1);
                    crate::json::a_member_is_found(r, 4);
                    assert(g[0].0 == "enabled"@ && g[1].0 == "endpoint"@);
                    crate::json::a_member_is_found(g, 0);
                    crate::json::a_member_is_found(g, 1);
                    assert(a[0].0 == "enabled"@ && a[1].0 == "listen"@);
                    crate::json::a_member_is_found(a, 0);
                    crate::json::a_member_is_found(a, 1);
                    assert(k[0].0 == "enabled"@ && k[1].0 == "skills"@);
                    crate::json::a_member_is_found(k, 0);
                    crate::json::a_member_is_found(k, 1);
                },
                _ => {},
            }
        },
        _ => {},
    }
}

/// The setting that is complained of is the first one, in the order of the file, that
/// has to be a text and is none; where there is none, nothing is complained of.
pub proof fn the_first_wrong_setting_is_named(m: Seq<(Text, JsonV)>)
    ensures
        match misfit(JsonV::Object(m)) {
            Some(v) => exists|i: int|
                0 <= i < m.len() && (#[trigger] m[i]).1 == v && is_wrong(m[i]) && forall|k: int|
                    0 <= k < i ==> !is_wrong(#[trigger] m[k]),
            None => forall|i: int| 0 <= i < m.len() ==> !is_wrong(#[trigger] m[i]),
        },
    decreases m.len(),
{
    if m.len() > 0 {
        if is_wrong(m[0]) {
        } else {
            let rest = m.subrange(1, m.len() as int);
            the_first_wrong_setting_is_named(rest);
            match misfit(JsonV::Object(rest)) {
                Some(v) => {
                    let i = choose|i: int|
                        0 <= i < rest.len() && (#[trigger] rest[i]).1 == v && is_wrong(rest[i])
                            && forall|k: int| 0 <= k < i ==> !is_wrong(#[trigger] rest[k]);
                    assert(m[i + 1] == rest[i]);
                    assert forall|k: int| 0 <= k < i + 1 implies !is_wrong(#[trigger] m[k]) by {
                        if k > 0 {
                            assert(rest[k - 1] == m[k]);
                        }
                    }
                    assert(m[i + 1].1 == v && is_wrong(m[i + 1]));
                },
                None => {
                    assert forall|i: int| 0 <= i < m.len() implies !is_wrong(#[trigger] m[i]) by {
                        if i > 0 {
                            assert(rest[i - 1] == m[i]);
                        }
                    }
                },
            }
        }
    }
}

/// Whether a setting has to be a text and is none.
pub open spec fn is_wrong(member: (Text, JsonV)) -> bool {
    (member.0 == "log_level"@ || member.0 == "state_path"@) && !(member.1 is Str)
}

/// The model is told of by its address and its name where it has an address, and as not
/// configured where it has none; groups and skills are told of one by one.
pub proof fn a_summary_tells_of_the_model(c: LlmV, ids: Seq<i64>, skills: Seq<SkillConfigV>, i: int)
    ensures
        c.api_url.len() > 0 ==> llm_summary(Some(c)).field("api_url"@) == Some(
            JsonV::Str(c.api_url),
        ) && llm_summary(Some(c)).field("model"@) == Some(JsonV::Str(c.model)),
        c.api_url.len() == 0 ==> llm_summary(Some(c)) == llm_summary(None),
        int_items(ids) matches JsonV::Array(s) && s.len() == ids.len() && (0 <= i < ids.len()
            ==> s[i] == int_json(ids[i])),
        name_items(skills) matches JsonV::Array(s) && s.len() == skills.len() && (0 <= i
            < skills.len() ==> s[i] == JsonV::Str(skills[i].name)),
{
    reveal_strlit("api_url");
    reveal_strlit("api_key");
    reveal_strlit("model");
    assert("api_url"@.len() == 7 && "api_key"@.len() == 7 && "model"@.len() == 5);
    match llm_summary(Some(c)) {
        JsonV::Object(m) => {
            assert(m[0].0 == "api_url"@ && m[1].0 == "api_key"@ && m[2].0 == "model"@);
            crate::json::a_member_is_found(m, 0);
            crate::json::a_member_is_found(m, 2);
        },
        _ => {},
    }
}

} // verus!
