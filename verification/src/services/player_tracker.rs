//! Players who come and go, as snapshots of the status API tell it. A change counts
//! when it was seen in several snapshots in a row.

use crate::json::{
    get_list, items, list_field, members, reply_bytes, reply_json, read_reply, shown, truthy, Json,
    JsonV,
};
use crate::state::pair_value;
use crate::text::{
    a_part_occurs, before, begins, ends, has, is_before, is_digit, join3, lemma_before, push_text,
    same, texts, Text,
};
use chrono::TimeZone;
use vstd::prelude::*;

verus! {

/// The status API to ask where none is configured.
pub const STATUS_API: &'static str = "https://status.example.com/api/qqbot/status";

/// Whether a player came or went.
#[derive(Debug, Clone, Copy, PartialEq, Eq, Structural)]
pub enum EventType {
    Online,
    Offline,
}

/// A player who came or went.
#[derive(Debug)]
pub struct PlayerEvent {
    pub event_type: EventType,
    pub server: String,
    pub player: String,
    /// When it was seen, in seconds since 1970.
    pub timestamp: i64,
}

/// Which change an event tells.
pub struct ChangeV {
    pub event_type: EventType,
    pub server: Text,
    pub player: Text,
}

impl View for PlayerEvent {
    type V = ChangeV;

    open spec fn view(&self) -> ChangeV {
        ChangeV { event_type: self.event_type, server: self.server@, player: self.player@ }
    }
}

/// Which changes a list of events tells.
pub open spec fn changes_v(v: Seq<PlayerEvent>) -> Seq<ChangeV> {
    Seq::new(v.len(), |i: int| v[i]@)
}

/// Whether a text is a time of day: two digits for each of hour, minute and second.
pub open spec fn is_clock(s: Text) -> bool {
    &&& s.len() == 8
    &&& s[2] == ':'
    &&& s[5] == ':'
    &&& is_digit(s[0]) && is_digit(s[1])
    &&& is_digit(s[3]) && is_digit(s[4])
    &&& is_digit(s[6]) && is_digit(s[7])
}

/// Calls `timestamp_opt` of `chrono::Local` and formats with `%H:%M:%S`: the time of
/// day in the time zone of the machine, or an empty text where there is no such
/// time. Which time it is depends on the machine.
#[verifier::external_body]
fn local_clock(timestamp: i64) -> (r: String)
    ensures
        r@.len() == 0 || is_clock(r@),
{
    let time = chrono::Local.timestamp_opt(timestamp, 0).single();
    time.map(|t| t.format("%H:%M:%S").to_string()).unwrap_or_default()
}

/// The names of servers by their keys.
pub open spec fn names_v(v: Seq<(String, String)>) -> Seq<(Text, Text)> {
    Seq::new(v.len(), |i: int| (v[i].0@, v[i].1@))
}

/// The text that tells an event: who, where and when. A server that has a name is
/// shown by it.
pub open spec fn event_text(e: ChangeV, names: Seq<(Text, Text)>, clock: Text) -> Text {
    let server = match pair_value(names, e.server) {
        Some(n) => n,
        None => e.server,
    };
    match e.event_type {
        EventType::Online => "🎮 "@ + e.player + " → "@ + server + " 上线  "@ + clock,
        EventType::Offline => "🚪 "@ + e.player + " → "@ + server + " 下线  "@ + clock,
    }
}

impl PlayerEvent {
    /// The text that tells the event at a given time of day.
    pub fn message_at(&self, names: &Vec<(String, String)>, clock: &str) -> (r: String)
        ensures
            r@ == event_text(self@, names_v(names@), clock@),
    {
        let ghost all = names_v(names@);
        let mut server = self.server.clone();
        let mut i: usize = names.len();
        let mut found: bool = false;
        assert(all.take(all.len() as int) =~= all);
        while i > 0 && !found
            invariant
                i <= names@.len(),
                all == names_v(names@),
                !found ==> server@ == self.server@ && pair_value(all, self.server@) == pair_value(
                    all.take(i as int),
                    self.server@,
                ),
                found ==> pair_value(all, self.server@) == Some(server@),
            decreases i,
        {
            assert(all.take(i as int).drop_last() =~= all.take(i - 1));
            assert(all.take(i as int).last() == (names@[i - 1].0@, names@[i - 1].1@));
            if same(names[i - 1].0.as_str(), self.server.as_str()) {
                server = names[i - 1].1.clone();
                found = true;
            }
            i = i - 1;
        }
        let mut out = match self.event_type {
            EventType::Online => join3("🎮 ", self.player.as_str(), " → "),
            EventType::Offline => join3("🚪 ", self.player.as_str(), " → "),
        };
        out.append(server.as_str());
        match self.event_type {
            EventType::Online => {
                out.append(" 上线  ");
            },
            EventType::Offline => {
                out.append(" 下线  ");
            },
        }
        out.append(clock);
        out
    }

    /// The text that tells the event, with the time of day in the time zone of the
    /// machine.
    pub fn format_message(&self, names: &Vec<(String, String)>) -> (r: String)
        ensures
            exists|clock: Text|
                (clock.len() == 0 || is_clock(clock)) && r@ == #[trigger] event_text(
                    self@,
                    names_v(names@),
                    clock,
                ),
    {
        let clock = local_clock(self.timestamp);
        self.message_at(names, clock.as_str())
    }
}

/// How many texts of a sorted list stand before a new one.
pub open spec fn place_of(s: Seq<Text>, x: Text) -> int
    decreases s.len(),
{
    if s.len() == 0 || before(s.last(), x) {
        s.len() as int
    } else {
        place_of(s.drop_last(), x)
    }
}

/// A sorted list with one more text; one that is there is not added again.
pub open spec fn added(s: Seq<Text>, x: Text) -> Seq<Text> {
    if s.contains(x) {
        s
    } else {
        s.insert(place_of(s, x), x)
    }
}

/// A sorted list with more texts.
pub open spec fn added_all(s: Seq<Text>, xs: Seq<Text>) -> Seq<Text>
    decreases xs.len(),
{
    if xs.len() == 0 {
        s
    } else {
        added(added_all(s, xs.drop_last()), xs.last())
    }
}

/// The texts of `a` that are not in `b`.
pub open spec fn minus(a: Seq<Text>, b: Seq<Text>) -> Seq<Text>
    decreases a.len(),
{
    if a.len() == 0 {
        Seq::<Text>::empty()
    } else if b.contains(a.last()) {
        minus(a.drop_last(), b)
    } else {
        minus(a.drop_last(), b).push(a.last())
    }
}

/// Whether a list is sorted and holds nothing twice.
pub open spec fn ascending(s: Seq<Text>) -> bool {
    forall|i: int, j: int| 0 <= i < j < s.len() ==> before(#[trigger] s[i], #[trigger] s[j])
}

/// Whether a text is in a list.
fn has_name(v: &Vec<String>, x: &str) -> (r: bool)
    ensures
        r == texts(v@).contains(x@),
{
    let mut i: usize = 0;
    while i < v.len()
        invariant
            i <= v@.len(),
            forall|k: int| 0 <= k < i ==> v@[k]@ != x@,
        decreases v@.len() - i,
    {
        if same(v[i].as_str(), x) {
            assert(texts(v@)[i as int] == x@);
            return true;
        }
        i = i + 1;
    }
    assert forall|k: int| 0 <= k < texts(v@).len() implies texts(v@)[k] != x@ by {
        assert(texts(v@)[k] == v@[k]@);
    }
    false
}

/// Adds a text to a sorted list.
fn add_name(v: &mut Vec<String>, x: &str)
    ensures
        texts(final(v)@) == added(texts(old(v)@), x@),
{
    if has_name(v, x) {
        return ;
    }
    let ghost all = texts(v@);
    let mut k: usize = v.len();
    assert(all.take(all.len() as int) =~= all);
    while k > 0 && !is_before(v[k - 1].as_str(), x)
        invariant
            k <= v@.len(),
            all == texts(v@),
            v@ == old(v)@,
            place_of(all, x@) == place_of(all.take(k as int), x@),
        decreases k,
    {
        assert(all.take(k as int).drop_last() =~= all.take(k - 1));
        assert(all.take(k as int).last() == v@[k - 1]@);
        k = k - 1;
    }
    proof {
        if k > 0 {
            assert(all.take(k as int).last() == v@[k - 1]@);
        }
        assert(place_of(all, x@) == k);
    }
    let s = x.to_owned();
    assert(texts(v@.insert(k as int, s)) =~= all.insert(k as int, x@));
    v.insert(k, s);
}

/// The texts of `left` that are not in `right`, in order.
pub fn sorted_difference(left: &Vec<String>, right: &Vec<String>) -> (r: Vec<String>)
    ensures
        texts(r@) == minus(texts(left@), texts(right@)),
{
    let mut out: Vec<String> = Vec::new();
    let ghost all = texts(left@);
    let mut i: usize = 0;
    assert(texts(out@) =~= minus(all.take(0), texts(right@)));
    while i < left.len()
        invariant
            i <= left@.len(),
            all == texts(left@),
            texts(out@) == minus(all.take(i as int), texts(right@)),
        decreases left@.len() - i,
    {
        assert(all.take(i + 1).drop_last() =~= all.take(i as int));
        assert(all.take(i + 1).last() == left@[i as int]@);
        if !has_name(right, left[i].as_str()) {
            push_text(&mut out, left[i].clone());
        }
        i = i + 1;
    }
    assert(all.take(i as int) =~= all);
    out
}

/// Adding a text keeps a list sorted, and adds that text only.
pub proof fn adding_keeps_order(s: Seq<Text>, x: Text)
    requires
        ascending(s),
    ensures
        ascending(added(s, x)),
        forall|t: Text| #[trigger] added(s, x).contains(t) <==> s.contains(t) || t == x,
{
    let t = added(s, x);
    if s.contains(x) {
    } else {
        lemma_place(s, x);
        let k = place_of(s, x);
        assert forall|i: int, j: int| 0 <= i < j < t.len() implies before(
            #[trigger] t[i],
            #[trigger] t[j],
        ) by {
            let a = if i < k {
                i
            } else {
                i - 1
            };
            let b = if j < k {
                j
            } else {
                j - 1
            };
            if i != k && j != k {
                assert(t[i] == s[a] && t[j] == s[b]);
            } else if i == k {
                assert(t[j] == s[b]);
            } else {
                assert(t[i] == s[a]);
            }
        }
        assert forall|y: Text| #[trigger] t.contains(y) <==> s.contains(y) || y == x by {
            if s.contains(y) {
                let i = choose|i: int| 0 <= i < s.len() && s[i] == y;
                let m = if i < k {
                    i
                } else {
                    i + 1
                };
                assert(t[m] == y);
            }
            if y == x {
                assert(t[k] == y);
            }
            if t.contains(y) && y != x {
                let i = choose|i: int| 0 <= i < t.len() && t[i] == y;
                let m = if i < k {
                    i
                } else {
                    i - 1
                };
                assert(s[m] == y);
            }
        }
    }
}

/// In a sorted list, what stands before the place of a new text comes before it, and
/// the rest comes after it.
proof fn lemma_place(s: Seq<Text>, x: Text)
    requires
        ascending(s),
        !s.contains(x),
    ensures
        0 <= place_of(s, x) <= s.len(),
        forall|i: int| 0 <= i < place_of(s, x) ==> before(#[trigger] s[i], x),
        forall|i: int| place_of(s, x) <= i < s.len() ==> before(x, #[trigger] s[i]),
    decreases s.len(),
{
    if s.len() > 0 {
        let l = s.last();
        lemma_before(l, x, x);
        assert(s[s.len() - 1] == l);
        if before(l, x) {
            assert forall|i: int| 0 <= i < s.len() implies before(#[trigger] s[i], x) by {
                if i < s.len() - 1 {
                    assert(before(s[i], s[s.len() - 1]));
                    lemma_before(s[i], l, x);
                }
            }
        } else {
            assert(l != x);
            let t = s.drop_last();
            assert forall|i: int, j: int| 0 <= i < j < t.len() implies before(
                #[trigger] t[i],
                #[trigger] t[j],
            ) by {
                assert(t[i] == s[i] && t[j] == s[j]);
            }
            assert(!t.contains(x)) by {
                if t.contains(x) {
                    let i = choose|i: int| 0 <= i < t.len() && t[i] == x;
                    assert(s[i] == x);
                }
            }
            lemma_place(t, x);
            assert forall|i: int| 0 <= i < place_of(s, x) implies before(#[trigger] s[i], x) by {
                assert(t[i] == s[i]);
            }
            assert forall|i: int| place_of(s, x) <= i < s.len() implies before(
                x,
                #[trigger] s[i],
            ) by {
                if i < t.len() {
                    assert(t[i] == s[i]);
                }
            }
        }
    }
}

/// Who is on which server: servers and players sorted by name.
pub type Snapshot = Seq<(Text, Seq<Text>)>;

/// What a list of servers and players holds.
pub open spec fn snapshot_v(v: Seq<(String, Vec<String>)>) -> Snapshot {
    Seq::new(v.len(), |i: int| (v[i].0@, texts(v[i].1@)))
}

/// The names of the servers.
pub open spec fn server_names(s: Snapshot) -> Seq<Text> {
    Seq::new(s.len(), |i: int| s[i].0)
}

/// The players on a server; none where there is no such server.
pub open spec fn players_on(s: Snapshot, server: Text) -> Seq<Text>
    decreases s.len(),
{
    if s.len() == 0 {
        Seq::<Text>::empty()
    } else if s[0].0 == server {
        s[0].1
    } else {
        players_on(s.subrange(1, s.len() as int), server)
    }
}

/// Position of a server.
pub open spec fn server_at(s: Snapshot, server: Text) -> Option<int>
    decreases s.len(),
{
    if s.len() == 0 {
        None
    } else if s[0].0 == server {
        Some(0)
    } else {
        match server_at(s.subrange(1, s.len() as int), server) {
            Some(i) => Some(i + 1),
            None => None,
        }
    }
}

/// The snapshot in which a server has these players: one that is there is changed,
/// another one is put in its place.
pub open spec fn with_players(s: Snapshot, server: Text, players: Seq<Text>) -> Snapshot {
    match server_at(s, server) {
        Some(i) => s.update(i, (server, players)),
        None => s.insert(place_of(server_names(s), server), (server, players)),
    }
}

/// What the place of a server says.
proof fn lemma_server_at(s: Snapshot, server: Text)
    ensures
        match server_at(s, server) {
            Some(i) => 0 <= i < s.len() && s[i].0 == server && players_on(s, server) == s[i].1
                && forall|j: int| 0 <= j < i ==> (#[trigger] s[j]).0 != server,
            None => players_on(s, server) == Seq::<Text>::empty() && forall|j: int|
                0 <= j < s.len() ==> (#[trigger] s[j]).0 != server,
        },
    decreases s.len(),
{
    if s.len() > 0 && s[0].0 != server {
        let t = s.subrange(1, s.len() as int);
        lemma_server_at(t, server);
        match server_at(t, server) {
            Some(i) => {
                assert(t[i] == s[i + 1]);
                assert forall|j: int| 0 <= j < i + 1 implies (#[trigger] s[j]).0 != server by {
                    if j > 0 {
                        assert(t[j - 1] == s[j]);
                    }
                }
            },
            None => {
                assert forall|j: int| 0 <= j < s.len() implies (#[trigger] s[j]).0 != server by {
                    if j > 0 {
                        assert(t[j - 1] == s[j]);
                    }
                }
            },
        }
    }
}

/// Position of a server.
fn find_server(v: &Vec<(String, Vec<String>)>, server: &str) -> (r: Option<usize>)
    ensures
        match r {
            Some(i) => server_at(snapshot_v(v@), server@) == Some(i as int) && i < v@.len(),
            None => server_at(snapshot_v(v@), server@) is None,
        },
{
    let ghost all = snapshot_v(v@);
    let mut i: usize = 0;
    proof {
        lemma_server_at(all, server@);
    }
    while i < v.len()
        invariant
            i <= v@.len(),
            all == snapshot_v(v@),
            forall|j: int| 0 <= j < i ==> (#[trigger] all[j]).0 != server@,
            match server_at(all, server@) {
                Some(k) => 0 <= k < all.len() && all[k].0 == server@ && forall|j: int|
                    0 <= j < k ==> (#[trigger] all[j]).0 != server@,
                None => forall|j: int| 0 <= j < all.len() ==> (#[trigger] all[j]).0 != server@,
            },
        decreases v@.len() - i,
    {
        assert(all[i as int] == (v@[i as int].0@, texts(v@[i as int].1@)));
        if same(v[i].0.as_str(), server) {
            return Some(i);
        }
        i = i + 1;
    }
    None
}

/// The same strings again.
fn copy_names(v: &Vec<String>) -> (r: Vec<String>)
    ensures
        texts(r@) == texts(v@),
{
    let mut out: Vec<String> = Vec::new();
    let ghost all = texts(v@);
    let mut i: usize = 0;
    assert(texts(out@) =~= all.take(0));
    while i < v.len()
        invariant
            i <= v@.len(),
            all == texts(v@),
            texts(out@) == all.take(i as int),
        decreases v@.len() - i,
    {
        push_text(&mut out, v[i].clone());
        assert(all.take(i + 1) =~= all.take(i as int).push(all[i as int]));
        i = i + 1;
    }
    assert(all.take(i as int) =~= all);
    out
}

/// The players on a server.
fn get_players(v: &Vec<(String, Vec<String>)>, server: &str) -> (r: Vec<String>)
    ensures
        texts(r@) == players_on(snapshot_v(v@), server@),
{
    proof {
        lemma_server_at(snapshot_v(v@), server@);
    }
    match find_server(v, server) {
        Some(i) => copy_names(&v[i].1),
        None => {
            let none: Vec<String> = Vec::new();
            assert(texts(none@) =~= Seq::<Text>::empty());
            none
        },
    }
}

/// Gives a server these players.
fn set_players(v: &mut Vec<(String, Vec<String>)>, server: &str, players: Vec<String>)
    ensures
        snapshot_v(final(v)@) == with_players(snapshot_v(old(v)@), server@, texts(players@)),
{
    let ghost all = snapshot_v(v@);
    let ghost names = server_names(all);
    match find_server(v, server) {
        Some(i) => {
            let entry = (server.to_owned(), players);
            assert(snapshot_v(v@.update(i as int, entry)) =~= all.update(
                i as int,
                (server@, texts(players@)),
            ));
            v.set(i, entry);
        },
        None => {
            let mut k: usize = v.len();
            assert(names.take(names.len() as int) =~= names);
            while k > 0 && !is_before(v[k - 1].0.as_str(), server)
                invariant
                    k <= v@.len(),
                    v@ == old(v)@,
                    all == snapshot_v(v@),
                    names == server_names(all),
                    place_of(names, server@) == place_of(names.take(k as int), server@),
                decreases k,
            {
                assert(names.take(k as int).drop_last() =~= names.take(k - 1));
                assert(names.take(k as int).last() == v@[k - 1].0@);
                k = k - 1;
            }
            proof {
                if k > 0 {
                    assert(names.take(k as int).last() == v@[k - 1].0@);
                }
                assert(place_of(names, server@) == k);
            }
            let entry = (server.to_owned(), players);
            assert(snapshot_v(v@.insert(k as int, entry)) =~= all.insert(
                k as int,
                (server@, texts(players@)),
            ));
            v.insert(k, entry);
        },
    }
}

/// The players that a list names: each value that counts as true, once.
pub open spec fn players_in(list: Seq<JsonV>) -> Seq<Text>
    decreases list.len(),
{
    if list.len() == 0 {
        Seq::<Text>::empty()
    } else if truthy(list.last()) {
        added(players_in(list.drop_last()), shown(list.last()))
    } else {
        players_in(list.drop_last())
    }
}

/// The name of a server in a reply.
pub open spec fn server_name_in(entry: JsonV) -> Text {
    match entry.field("server_name"@) {
        Some(n) => if truthy(n) {
            shown(n)
        } else {
            "unknown"@
        },
        None => "unknown"@,
    }
}

/// The snapshot that a list of servers gives: a server without players is left out,
/// and of two with one name the later counts.
pub open spec fn snapshot_of(servers: Seq<JsonV>) -> Snapshot
    decreases servers.len(),
{
    if servers.len() == 0 {
        Seq::<(Text, Seq<Text>)>::empty()
    } else {
        let earlier = snapshot_of(servers.drop_last());
        let entry = servers.last();
        let players = players_in(list_field(entry, "online_players"@));
        match entry {
            JsonV::Object(_) => if players.len() > 0 {
                with_players(earlier, server_name_in(entry), players)
            } else {
                earlier
            },
            _ => earlier,
        }
    }
}

/// The snapshot that the data of the status API gives; nothing where it is no
/// object.
pub open spec fn snapshot_in(data: JsonV) -> Option<Snapshot> {
    match data {
        JsonV::Object(_) => Some(snapshot_of(list_field(data, "servers"@))),
        _ => None,
    }
}

/// The players that a list names.
fn read_players(list: &Vec<Json>) -> (r: Vec<String>)
    ensures
        texts(r@) == players_in(items(list@)),
{
    let mut out: Vec<String> = Vec::new();
    let ghost all = items(list@);
    let mut i: usize = 0;
    assert(texts(out@) =~= players_in(all.take(0)));
    while i < list.len()
        invariant
            i <= list@.len(),
            all == items(list@),
            texts(out@) == players_in(all.take(i as int)),
        decreases list@.len() - i,
    {
        assert(all.take(i + 1).drop_last() =~= all.take(i as int));
        assert(all.take(i + 1).last() == list@[i as int]@);
        if list[i].is_truthy() {
            let name = list[i].show();
            add_name(&mut out, name.as_str());
        }
        i = i + 1;
    }
    assert(all.take(i as int) =~= all);
    out
}

/// Reads the snapshot in the reply of the status API: its status and body, or
/// nothing where there was none.
pub fn fetch_raw(reply: Option<(u16, Vec<u8>)>) -> (r: Option<Vec<(String, Vec<String>)>>)
    ensures
        match r {
            Some(v) => snapshot_in(reply_json(reply_bytes(reply))) == Some(snapshot_v(v@)),
            None => snapshot_in(reply_json(reply_bytes(reply))) is None,
        },
{
    let data = read_reply(reply);
    match data {
        Json::Object(_) => {},
        _ => {
            return None;
        },
    }
    let servers = get_list(&data, "servers");
    let ghost all = items(servers@);
    let mut out: Vec<(String, Vec<String>)> = Vec::new();
    let mut i: usize = 0;
    assert(snapshot_v(out@) =~= snapshot_of(all.take(0)));
    while i < servers.len()
        invariant
            i <= servers@.len(),
            all == items(servers@),
            snapshot_v(out@) == snapshot_of(all.take(i as int)),
        decreases servers@.len() - i,
    {
        assert(all.take(i + 1).drop_last() =~= all.take(i as int));
        assert(all.take(i + 1).last() == servers@[i as int]@);
        let entry = &servers[i];
        match entry {
            Json::Object(_) => {
                let players = read_players(&get_list(entry, "online_players"));
                assert(texts(players@).len() == players@.len());
                if players.len() > 0 {
                    let name = match entry.get("server_name") {
                        Some(n) => if n.is_truthy() {
                            n.show()
                        } else {
                            "unknown".to_owned()
                        },
                        None => "unknown".to_owned(),
                    };
                    set_players(&mut out, name.as_str(), players);
                }
            },
            _ => {},
        }
        i = i + 1;
    }
    assert(all.take(i as int) =~= all);
    Some(out)
}

/// How many changes were told, and how many could not be.
#[derive(Debug, Clone, Copy, PartialEq, Eq, Structural)]
pub struct TrackerStats {
    pub online: u64,
    pub offline: u64,
    pub failed: u64,
}

/// A change that was seen, and in how many snapshots in a row.
#[derive(Debug)]
pub struct Pending {
    pub event_type: EventType,
    pub server: String,
    pub player: String,
    pub count: u32,
}

/// What a [`Pending`] holds.
pub struct PendingV {
    pub change: ChangeV,
    pub count: u32,
}

impl View for Pending {
    type V = PendingV;

    open spec fn view(&self) -> PendingV {
        PendingV {
            change: ChangeV {
                event_type: self.event_type,
                server: self.server@,
                player: self.player@,
            },
            count: self.count,
        }
    }
}

/// What a list of pending changes holds.
pub open spec fn pending_v(v: Seq<Pending>) -> Seq<PendingV> {
    Seq::new(v.len(), |i: int| v[i]@)
}

/// In how many snapshots in a row a change was seen.
pub open spec fn seen(pending: Seq<PendingV>, change: ChangeV) -> u32
    decreases pending.len(),
{
    if pending.len() == 0 {
        0
    } else if pending[0].change == change {
        pending[0].count
    } else {
        seen(pending.subrange(1, pending.len() as int), change)
    }
}

/// One more, up to the greatest number there is.
pub open spec fn one_more(n: u32) -> u32 {
    if n < u32::MAX {
        (n + 1) as u32
    } else {
        n
    }
}

/// The pending changes after one was seen once more.
pub open spec fn bumped(pending: Seq<PendingV>, change: ChangeV) -> Seq<PendingV>
    decreases pending.len(),
{
    if pending.len() == 0 {
        seq![PendingV { change, count: 1 }]
    } else if pending[0].change == change {
        pending.update(0, PendingV { change, count: one_more(pending[0].count) })
    } else {
        seq![pending[0]] + bumped(pending.subrange(1, pending.len() as int), change)
    }
}

/// The pending changes without one.
pub open spec fn settled(pending: Seq<PendingV>, change: ChangeV) -> Seq<PendingV>
    decreases pending.len(),
{
    if pending.len() == 0 {
        pending
    } else if pending.last().change == change {
        settled(pending.drop_last(), change)
    } else {
        settled(pending.drop_last(), change).push(pending.last())
    }
}

/// Whether a change is still to be seen: the player who came is there, or the player
/// who went was confirmed and is not there.
pub open spec fn still_true(change: ChangeV, now: Snapshot, confirmed: Snapshot) -> bool {
    let there = players_on(now, change.server).contains(change.player);
    match change.event_type {
        EventType::Online => there,
        EventType::Offline => players_on(confirmed, change.server).contains(change.player)
            && !there,
    }
}

/// The pending changes that are still to be seen.
pub open spec fn kept(pending: Seq<PendingV>, now: Snapshot, confirmed: Snapshot) -> Seq<PendingV>
    decreases pending.len(),
{
    if pending.len() == 0 {
        pending
    } else if still_true(pending.last().change, now, confirmed) {
        kept(pending.drop_last(), now, confirmed).push(pending.last())
    } else {
        kept(pending.drop_last(), now, confirmed)
    }
}

/// The changes of one kind on one server.
pub open spec fn changes_for(event_type: EventType, server: Text, players: Seq<Text>) -> Seq<
    ChangeV,
> {
    players.map_values(|player: Text| ChangeV { event_type, server, player })
}

/// The changes on one server: who came, then who went, each by name.
pub open spec fn server_changes(server: Text, now: Seq<Text>, confirmed: Seq<Text>) -> Seq<
    ChangeV,
> {
    changes_for(EventType::Online, server, minus(now, confirmed)) + changes_for(
        EventType::Offline,
        server,
        minus(confirmed, now),
    )
}

/// The changes on some servers in a row.
pub open spec fn changes_on(servers: Seq<Text>, now: Snapshot, confirmed: Snapshot) -> Seq<ChangeV>
    decreases servers.len(),
{
    if servers.len() == 0 {
        Seq::<ChangeV>::empty()
    } else {
        changes_on(servers.drop_last(), now, confirmed) + server_changes(
            servers.last(),
            players_on(now, servers.last()),
            players_on(confirmed, servers.last()),
        )
    }
}

/// The servers of both snapshots, by name.
pub open spec fn all_servers(now: Snapshot, confirmed: Snapshot) -> Seq<Text> {
    added_all(added_all(Seq::<Text>::empty(), server_names(now)), server_names(confirmed))
}

/// The changes that a snapshot shows.
pub open spec fn changes(now: Snapshot, confirmed: Snapshot) -> Seq<ChangeV> {
    changes_on(all_servers(now, confirmed), now, confirmed)
}

/// The pending changes after each of `changes` was seen once more.
pub open spec fn bumped_all(pending: Seq<PendingV>, changes: Seq<ChangeV>) -> Seq<PendingV>
    decreases changes.len(),
{
    if changes.len() == 0 {
        pending
    } else {
        bumped(bumped_all(pending, changes.drop_last()), changes.last())
    }
}

/// The changes that have been seen often enough.
pub open spec fn due(pending: Seq<PendingV>, changes: Seq<ChangeV>, debounce: u32) -> Seq<ChangeV>
    decreases changes.len(),
{
    if changes.len() == 0 {
        Seq::<ChangeV>::empty()
    } else {
        let earlier = due(pending, changes.drop_last(), debounce);
        if seen(bumped_all(pending, changes), changes.last()) >= debounce {
            earlier.push(changes.last())
        } else {
            earlier
        }
    }
}

/// The servers that have players, or stand in the snapshot.
pub open spec fn occupied(confirmed: Snapshot, now: Snapshot) -> Snapshot
    decreases confirmed.len(),
{
    if confirmed.len() == 0 {
        confirmed
    } else {
        let earlier = occupied(confirmed.drop_last(), now);
        if confirmed.last().1.len() > 0 || server_at(now, confirmed.last().0) is Some {
            earlier.push(confirmed.last())
        } else {
            earlier
        }
    }
}

/// Finds changes between snapshots.
#[derive(Debug)]
pub struct PlayerTracker {
    pub status_api: String,
    pub debounce: u32,
    pub confirmed: Vec<(String, Vec<String>)>,
    pub pending: Vec<Pending>,
    pub counts: TrackerStats,
}

/// What a [`PlayerTracker`] holds.
pub struct TrackerV {
    pub debounce: u32,
    pub confirmed: Snapshot,
    pub pending: Seq<PendingV>,
    pub counts: TrackerStats,
}

/// What a tracker holds after it looked at who is there.
pub open spec fn after_look(t: TrackerV, now: Snapshot) -> TrackerV {
    TrackerV {
        pending: kept(
            bumped_all(t.pending, changes(now, t.confirmed)),
            now,
            t.confirmed,
        ),
        ..t
    }
}

/// What a tracker tells of when it looks at who is there.
pub open spec fn told_of(t: TrackerV, now: Snapshot) -> Seq<ChangeV> {
    due(t.pending, changes(now, t.confirmed), t.debounce)
}

/// What a tracker holds after it told of a change, or failed to.
pub open spec fn after_telling(t: TrackerV, change: ChangeV, told: bool) -> TrackerV {
    if told {
        TrackerV {
            confirmed: after_change(t.confirmed, change),
            pending: settled(t.pending, change),
            counts: counted_change(t.counts, change.event_type),
            ..t
        }
    } else {
        TrackerV {
            counts: TrackerStats { failed: (t.counts.failed + 1) as u64, ..t.counts },
            ..t
        }
    }
}

impl View for PlayerTracker {
    type V = TrackerV;

    open spec fn view(&self) -> TrackerV {
        TrackerV {
            debounce: self.debounce,
            confirmed: snapshot_v(self.confirmed@),
            pending: pending_v(self.pending@),
            counts: self.counts,
        }
    }
}

/// The same change.
fn is_change(p: &Pending, event_type: EventType, server: &str, player: &str) -> (r: bool)
    ensures
        r == (p@.change == ChangeV { event_type, server: server@, player: player@ }),
{
    p.event_type == event_type && same(p.server.as_str(), server) && same(p.player.as_str(), player)
}

/// Counts one more sighting of a change and gives the count.
fn bump(pending: &mut Vec<Pending>, event_type: EventType, server: &str, player: &str) -> (r: u32)
    ensures
        ({
            let change = ChangeV { event_type, server: server@, player: player@ };
            &&& pending_v(final(pending)@) == bumped(pending_v(old(pending)@), change)
            &&& r == seen(pending_v(final(pending)@), change)
        }),
{
    let ghost change = ChangeV { event_type, server: server@, player: player@ };
    let ghost all = pending_v(pending@);
    let mut i: usize = 0;
    assert(all.subrange(0, all.len() as int) =~= all);
    assert(all.take(0) + bumped(all, change) =~= bumped(all, change));
    while i < pending.len()
        invariant
            i <= pending@.len(),
            pending@ == old(pending)@,
            all == pending_v(pending@),
            change == (ChangeV { event_type, server: server@, player: player@ }),
            forall|k: int| 0 <= k < i ==> (#[trigger] all[k]).change != change,
            bumped(all, change) == all.take(i as int) + bumped(
                all.subrange(i as int, all.len() as int),
                change,
            ),
        decreases pending@.len() - i,
    {
        let ghost rest = all.subrange(i as int, all.len() as int);
        assert(rest[0] == pending@[i as int]@);
        if is_change(&pending[i], event_type, server, player) {
            let n: u32 = if pending[i].count < 0xffff_ffff {
                pending[i].count + 1
            } else {
                pending[i].count
            };
            let entry = Pending {
                event_type,
                server: server.to_owned(),
                player: player.to_owned(),
                count: n,
            };
            proof {
                let new = PendingV { change, count: one_more(rest[0].count) };
                assert(pending_v(pending@.update(i as int, entry)) =~= all.update(i as int, new));
                assert(bumped(all, change) =~= all.update(i as int, new));
                lemma_seen_first(all.update(i as int, new), change, i as int);
            }
            pending.set(i, entry);
            return n;
        }
        proof {
            let next = all.subrange(i + 1, all.len() as int);
            assert(rest.subrange(1, rest.len() as int) =~= next);
            assert(all.take(i as int) + (seq![rest[0]] + bumped(next, change)) =~= all.take(i + 1)
                + bumped(next, change));
        }
        i = i + 1;
    }
    let entry = Pending {
        event_type,
        server: server.to_owned(),
        player: player.to_owned(),
        count: 1,
    };
    proof {
        let new = PendingV { change, count: 1 };
        assert(pending_v(pending@.push(entry)) =~= all.push(new));
        assert(all.subrange(i as int, all.len() as int) =~= Seq::<PendingV>::empty());
        assert(bumped(all, change) =~= all.push(new));
        lemma_seen_first(all.push(new), change, all.len() as int);
    }
    pending.push(entry);
    1
}

/// The count of a change is that of its first entry.
proof fn lemma_seen_first(pending: Seq<PendingV>, change: ChangeV, i: int)
    requires
        0 <= i < pending.len(),
        pending[i].change == change,
        forall|k: int| 0 <= k < i ==> (#[trigger] pending[k]).change != change,
    ensures
        seen(pending, change) == pending[i].count,
    decreases i,
{
    if i > 0 {
        let rest = pending.subrange(1, pending.len() as int);
        assert(pending[0].change != change);
        assert forall|k: int| 0 <= k < i - 1 implies (#[trigger] rest[k]).change != change by {
            assert(rest[k] == pending[k + 1]);
        }
        lemma_seen_first(rest, change, i - 1);
    }
}

/// Counts the changes of one kind on one server, and takes out those that are due.
fn bump_players(
    pending: &mut Vec<Pending>,
    events: &mut Vec<PlayerEvent>,
    Ghost(start): Ghost<Seq<PendingV>>,
    Ghost(done): Ghost<Seq<ChangeV>>,
    event_type: EventType,
    server: &str,
    players: &Vec<String>,
    debounce: u32,
    now: i64,
)
    requires
        pending_v(old(pending)@) == bumped_all(start, done),
        changes_v(old(events)@) == due(start, done, debounce),
    ensures
        ({
            let more = done + changes_for(event_type, server@, texts(players@));
            &&& pending_v(final(pending)@) == bumped_all(start, more)
            &&& changes_v(final(events)@) == due(start, more, debounce)
        }),
        stamped(old(events)@, now) ==> stamped(final(events)@, now),
{
    let ghost all = changes_for(event_type, server@, texts(players@));
    let mut i: usize = 0;
    assert(done + all.take(0) =~= done);
    while i < players.len()
        invariant
            i <= players@.len(),
            all == changes_for(event_type, server@, texts(players@)),
            pending_v(pending@) == bumped_all(start, done + all.take(i as int)),
            changes_v(events@) == due(start, done + all.take(i as int), debounce),
            stamped(old(events)@, now) ==> stamped(events@, now),
        decreases players@.len() - i,
    {
        let ghost upto = done + all.take(i + 1);
        proof {
            assert(upto.drop_last() =~= done + all.take(i as int));
            assert(upto.last() == ChangeV {
                event_type,
                server: server@,
                player: players@[i as int]@,
            });
        }
        let count = bump(pending, event_type, server, players[i].as_str());
        if count >= debounce {
            let event = PlayerEvent {
                event_type,
                server: server.to_owned(),
                player: players[i].clone(),
                timestamp: now,
            };
            assert(changes_v(events@.push(event)) =~= changes_v(events@).push(event@));
            events.push(event);
        }
        i = i + 1;
    }
    assert(all.take(i as int) =~= all);
}

/// Whether every event has this time.
pub open spec fn stamped(events: Seq<PlayerEvent>, now: i64) -> bool {
    forall|i: int| 0 <= i < events.len() ==> (#[trigger] events[i]).timestamp == now
}

/// Adds the names of servers to a sorted list.
fn add_servers(names: &mut Vec<String>, snapshot: &Vec<(String, Vec<String>)>)
    ensures
        texts(final(names)@) == added_all(
            texts(old(names)@),
            server_names(snapshot_v(snapshot@)),
        ),
{
    let ghost all = server_names(snapshot_v(snapshot@));
    let ghost start = texts(names@);
    let mut i: usize = 0;
    assert(added_all(start, all.take(0)) == start);
    while i < snapshot.len()
        invariant
            i <= snapshot@.len(),
            all == server_names(snapshot_v(snapshot@)),
            texts(names@) == added_all(start, all.take(i as int)),
        decreases snapshot@.len() - i,
    {
        assert(all.take(i + 1).drop_last() =~= all.take(i as int));
        assert(all.take(i + 1).last() == snapshot@[i as int].0@);
        add_name(names, snapshot[i].0.as_str());
        i = i + 1;
    }
    assert(all.take(i as int) =~= all);
}

/// The pending changes that are still to be seen.
fn keep_true(
    pending: &Vec<Pending>,
    now: &Vec<(String, Vec<String>)>,
    confirmed: &Vec<(String, Vec<String>)>,
) -> (r: Vec<Pending>)
    ensures
        pending_v(r@) == kept(pending_v(pending@), snapshot_v(now@), snapshot_v(confirmed@)),
{
    let mut out: Vec<Pending> = Vec::new();
    let ghost all = pending_v(pending@);
    let mut i: usize = 0;
    assert(pending_v(out@) =~= kept(all.take(0), snapshot_v(now@), snapshot_v(confirmed@)));
    while i < pending.len()
        invariant
            i <= pending@.len(),
            all == pending_v(pending@),
            pending_v(out@) == kept(
                all.take(i as int),
                snapshot_v(now@),
                snapshot_v(confirmed@),
            ),
        decreases pending@.len() - i,
    {
        assert(all.take(i + 1).drop_last() =~= all.take(i as int));
        assert(all.take(i + 1).last() == pending@[i as int]@);
        let p = &pending[i];
        let there = has_name(&get_players(now, p.server.as_str()), p.player.as_str());
        let keep = match p.event_type {
            EventType::Online => there,
            EventType::Offline => !there && has_name(
                &get_players(confirmed, p.server.as_str()),
                p.player.as_str(),
            ),
        };
        if keep {
            let same_again = Pending {
                event_type: p.event_type,
                server: p.server.clone(),
                player: p.player.clone(),
                count: p.count,
            };
            assert(pending_v(out@.push(same_again)) =~= pending_v(out@).push(same_again@));
            out.push(same_again);
        }
        i = i + 1;
    }
    assert(all.take(i as int) =~= all);
    out
}

/// The pending changes without one.
fn settle(pending: &Vec<Pending>, event: &PlayerEvent) -> (r: Vec<Pending>)
    ensures
        pending_v(r@) == settled(pending_v(pending@), event@),
{
    let mut out: Vec<Pending> = Vec::new();
    let ghost all = pending_v(pending@);
    let mut i: usize = 0;
    assert(pending_v(out@) =~= settled(all.take(0), event@));
    while i < pending.len()
        invariant
            i <= pending@.len(),
            all == pending_v(pending@),
            pending_v(out@) == settled(all.take(i as int), event@),
        decreases pending@.len() - i,
    {
        assert(all.take(i + 1).drop_last() =~= all.take(i as int));
        assert(all.take(i + 1).last() == pending@[i as int]@);
        let p = &pending[i];
        if !is_change(p, event.event_type, event.server.as_str(), event.player.as_str()) {
            let same_again = Pending {
                event_type: p.event_type,
                server: p.server.clone(),
                player: p.player.clone(),
                count: p.count,
            };
            assert(pending_v(out@.push(same_again)) =~= pending_v(out@).push(same_again@));
            out.push(same_again);
        }
        i = i + 1;
    }
    assert(all.take(i as int) =~= all);
    out
}

/// The snapshot after a change was told: who came is there, and who went is not; a
/// server that is not there loses nobody.
pub open spec fn after_change(confirmed: Snapshot, change: ChangeV) -> Snapshot {
    let players = players_on(confirmed, change.server);
    match change.event_type {
        EventType::Online => with_players(confirmed, change.server, added(players, change.player)),
        EventType::Offline => if server_at(confirmed, change.server) is Some {
            with_players(confirmed, change.server, minus(players, seq![change.player]))
        } else {
            confirmed
        },
    }
}

/// The counts after a change was told.
pub open spec fn counted_change(counts: TrackerStats, event_type: EventType) -> TrackerStats {
    match event_type {
        EventType::Online => TrackerStats { online: (counts.online + 1) as u64, ..counts },
        EventType::Offline => TrackerStats { offline: (counts.offline + 1) as u64, ..counts },
    }
}

/// The players that a saved list names: each value but null, once.
pub open spec fn restored_players(value: JsonV) -> Seq<Text> {
    match value {
        JsonV::Array(s) => all_players(s),
        _ => Seq::<Text>::empty(),
    }
}

/// The texts of the values of a list but null, sorted.
pub open spec fn all_players(list: Seq<JsonV>) -> Seq<Text>
    decreases list.len(),
{
    if list.len() == 0 {
        Seq::<Text>::empty()
    } else if list.last() is Null {
        all_players(list.drop_last())
    } else {
        added(all_players(list.drop_last()), shown(list.last()))
    }
}

/// The snapshot that saved members give.
pub open spec fn restored(m: Seq<(Text, JsonV)>) -> Snapshot
    decreases m.len(),
{
    if m.len() == 0 {
        Seq::<(Text, Seq<Text>)>::empty()
    } else {
        with_players(restored(m.drop_last()), m.last().0, restored_players(m.last().1))
    }
}

impl PlayerTracker {
    /// A tracker that knows of nobody. A change has to be seen at least once.
    pub fn new(debounce_count: u32, status_api: &str) -> (r: Self)
        ensures
            r.status_api@ == status_api@,
            r@ == (TrackerV {
                debounce: if debounce_count == 0 {
                    1
                } else {
                    debounce_count
                },
                confirmed: Seq::<(Text, Seq<Text>)>::empty(),
                pending: Seq::<PendingV>::empty(),
                counts: TrackerStats { online: 0, offline: 0, failed: 0 },
            }),
    {
        let r = PlayerTracker {
            status_api: status_api.to_owned(),
            debounce: if debounce_count == 0 {
                1
            } else {
                debounce_count
            },
            confirmed: Vec::new(),
            pending: Vec::new(),
            counts: TrackerStats { online: 0, offline: 0, failed: 0 },
        };
        proof {
            assert(r@.confirmed =~= Seq::<(Text, Seq<Text>)>::empty());
            assert(r@.pending =~= Seq::<PendingV>::empty());
        }
        r
    }

    /// What was counted.
    pub fn stats(&self) -> (r: TrackerStats)
        ensures
            r == self.counts,
    {
        self.counts
    }

    /// Takes a snapshot: counts what changed, forgets what did not last, and gives
    /// the changes that are to be told, by server and name.
    pub fn diff_once(&mut self, current: &Vec<(String, Vec<String>)>, now: i64) -> (r: Vec<
        PlayerEvent,
    >)
        ensures
            ({
                let seen_now = changes(snapshot_v(current@), old(self)@.confirmed);
                &&& changes_v(r@) == due(old(self)@.pending, seen_now, old(self)@.debounce)
                &&& stamped(r@, now)
                &&& final(self)@ == (TrackerV {
                    pending: kept(
                        bumped_all(old(self)@.pending, seen_now),
                        snapshot_v(current@),
                        old(self)@.confirmed,
                    ),
                    ..old(self)@
                })
                &&& final(self).status_api == old(self).status_api
            }),
            final(self)@ == after_look(old(self)@, snapshot_v(current@)),
            changes_v(r@) == told_of(old(self)@, snapshot_v(current@)),
    {
        let ghost was = old(self)@;
        let mut servers: Vec<String> = Vec::new();
        assert(texts(servers@) =~= Seq::<Text>::empty());
        add_servers(&mut servers, current);
        add_servers(&mut servers, &self.confirmed);
        let ghost all = texts(servers@);
        let ghost cur = snapshot_v(current@);
        let mut events: Vec<PlayerEvent> = Vec::new();
        let mut i: usize = 0;
        proof {
            assert(changes_v(events@) =~= due(was.pending, changes_on(all.take(0), cur, was.confirmed), was.debounce));
            assert(changes_on(all.take(0), cur, was.confirmed) =~= Seq::<ChangeV>::empty());
        }
        while i < servers.len()
            invariant
                i <= servers@.len(),
                all == texts(servers@),
                cur == snapshot_v(current@),
                was == old(self)@,
                self.confirmed == old(self).confirmed,
                self.debounce == old(self).debounce,
                self.counts == old(self).counts,
                self.status_api == old(self).status_api,
                stamped(events@, now),
                pending_v(self.pending@) == bumped_all(
                    was.pending,
                    changes_on(all.take(i as int), cur, was.confirmed),
                ),
                changes_v(events@) == due(
                    was.pending,
                    changes_on(all.take(i as int), cur, was.confirmed),
                    was.debounce,
                ),
            decreases servers@.len() - i,
        {
            let ghost done = changes_on(all.take(i as int), cur, was.confirmed);
            assert(all.take(i + 1).drop_last() =~= all.take(i as int));
            assert(all.take(i + 1).last() == servers@[i as int]@);
            let players_now = get_players(current, servers[i].as_str());
            let confirmed = get_players(&self.confirmed, servers[i].as_str());
            let came = sorted_difference(&players_now, &confirmed);
            let gone = sorted_difference(&confirmed, &players_now);
            let debounce: u32 = self.debounce;
            let ghost first = changes_for(EventType::Online, servers@[i as int]@, texts(came@));
            let ghost second = changes_for(EventType::Offline, servers@[i as int]@, texts(gone@));
            bump_players(
                &mut self.pending,
                &mut events,
                Ghost(was.pending),
                Ghost(done),
                EventType::Online,
                servers[i].as_str(),
                &came,
                debounce,
                now,
            );
            bump_players(
                &mut self.pending,
                &mut events,
                Ghost(was.pending),
                Ghost(done + first),
                EventType::Offline,
                servers[i].as_str(),
                &gone,
                debounce,
                now,
            );
            assert(done + first + second =~= changes_on(all.take(i + 1), cur, was.confirmed));
            i = i + 1;
        }
        assert(all.take(i as int) =~= all);
        self.pending = keep_true(&self.pending, current, &self.confirmed);
        events
    }

    /// Takes whether a change could be told. One that was is confirmed and counted;
    /// one that was not stays pending, so that it is tried again.
    pub fn maybe_confirm(&mut self, event: &PlayerEvent, pushed: bool) -> (r: bool)
        requires
            old(self).counts.online < u64::MAX,
            old(self).counts.offline < u64::MAX,
            old(self).counts.failed < u64::MAX,
        ensures
            r == pushed,
            final(self).status_api == old(self).status_api,
            final(self)@ == if pushed {
                TrackerV {
                    confirmed: after_change(old(self)@.confirmed, event@),
                    pending: settled(old(self)@.pending, event@),
                    counts: counted_change(old(self)@.counts, event.event_type),
                    ..old(self)@
                }
            } else {
                TrackerV {
                    counts: TrackerStats {
                        failed: (old(self)@.counts.failed + 1) as u64,
                        ..old(self)@.counts
                    },
                    ..old(self)@
                }
            },
            final(self)@ == after_telling(old(self)@, event@, pushed),
    {
        if !pushed {
            self.counts = TrackerStats {
                online: self.counts.online,
                offline: self.counts.offline,
                failed: self.counts.failed + 1,
            };
            return false;
        }
        self.pending = settle(&self.pending, event);
        let mut players = get_players(&self.confirmed, event.server.as_str());
        match event.event_type {
            EventType::Online => {
                add_name(&mut players, event.player.as_str());
                set_players(&mut self.confirmed, event.server.as_str(), players);
                self.counts = TrackerStats {
                    online: self.counts.online + 1,
                    offline: self.counts.offline,
                    failed: self.counts.failed,
                };
            },
            EventType::Offline => {
                if find_server(&self.confirmed, event.server.as_str()).is_some() {
                    let one: Vec<String> = vec![event.player.clone()];
                    assert(texts(one@) =~= seq![event.player@]);
                    let left = sorted_difference(&players, &one);
                    set_players(&mut self.confirmed, event.server.as_str(), left);
                }
                self.counts = TrackerStats {
                    online: self.counts.online,
                    offline: self.counts.offline + 1,
                    failed: self.counts.failed,
                };
            },
        }
        true
    }

    /// Ends a round: a server that is empty and not in the snapshot is forgotten.
    pub fn finish_round(&mut self, current: &Vec<(String, Vec<String>)>)
        ensures
            final(self).status_api == old(self).status_api,
            final(self)@ == (TrackerV {
                confirmed: occupied(old(self)@.confirmed, snapshot_v(current@)),
                ..old(self)@
            }),
    {
        let mut out: Vec<(String, Vec<String>)> = Vec::new();
        let ghost all = snapshot_v(self.confirmed@);
        let ghost cur = snapshot_v(current@);
        let mut i: usize = 0;
        assert(snapshot_v(out@) =~= occupied(all.take(0), cur));
        while i < self.confirmed.len()
            invariant
                i <= self.confirmed@.len(),
                *self == *old(self),
                all == snapshot_v(self.confirmed@),
                cur == snapshot_v(current@),
                snapshot_v(out@) == occupied(all.take(i as int), cur),
            decreases self.confirmed@.len() - i,
        {
            assert(all.take(i + 1).drop_last() =~= all.take(i as int));
            assert(all.take(i + 1).last() == (
                self.confirmed@[i as int].0@,
                texts(self.confirmed@[i as int].1@),
            ));
            if self.confirmed[i].1.len() > 0 || find_server(
                current,
                self.confirmed[i].0.as_str(),
            ).is_some() {
                let entry = (self.confirmed[i].0.clone(), copy_names(&self.confirmed[i].1));
                assert(snapshot_v(out@.push(entry)) =~= snapshot_v(out@).push(
                    (entry.0@, texts(entry.1@)),
                ));
                out.push(entry);
            }
            i = i + 1;
        }
        assert(all.take(i as int) =~= all);
        self.confirmed = out;
    }

    /// Who is confirmed to be where.
    pub fn snapshot(&self) -> (r: Vec<(String, Vec<String>)>)
        ensures
            snapshot_v(r@) == self@.confirmed,
    {
        let mut out: Vec<(String, Vec<String>)> = Vec::new();
        let ghost all = snapshot_v(self.confirmed@);
        let mut i: usize = 0;
        assert(snapshot_v(out@) =~= all.take(0));
        while i < self.confirmed.len()
            invariant
                i <= self.confirmed@.len(),
                all == snapshot_v(self.confirmed@),
                snapshot_v(out@) == all.take(i as int),
            decreases self.confirmed@.len() - i,
        {
            let entry = (self.confirmed[i].0.clone(), copy_names(&self.confirmed[i].1));
            assert(snapshot_v(out@.push(entry)) =~= snapshot_v(out@).push(
                (entry.0@, texts(entry.1@)),
            ));
            out.push(entry);
            assert(all.take(i + 1) =~= all.take(i as int).push(all[i as int]));
            i = i + 1;
        }
        assert(all.take(i as int) =~= all);
        out
    }

    /// Takes over a saved snapshot in place of what is confirmed; a value that is no
    /// object is ignored.
    pub fn restore(&mut self, saved: &Json)
        ensures
            final(self).status_api == old(self).status_api,
            final(self)@ == match saved@ {
                JsonV::Object(m) => TrackerV { confirmed: restored(m), ..old(self)@ },
                _ => old(self)@,
            },
    {
        broadcast use crate::json::object_view;

        match saved {
            Json::Object(m) => {
                assert(saved@ == Json::Object(*m)@);
                let ghost all = members(m@);
                let mut out: Vec<(String, Vec<String>)> = Vec::new();
                let mut i: usize = 0;
                assert(snapshot_v(out@) =~= restored(all.take(0)));
                while i < m.len()
                    invariant
                        i <= m@.len(),
                        all == members(m@),
                        snapshot_v(out@) == restored(all.take(i as int)),
                    decreases m@.len() - i,
                {
                    assert(all.take(i + 1).drop_last() =~= all.take(i as int));
                    assert(all.take(i + 1).last() == (m@[i as int].0@, m@[i as int].1@));
                    let players = read_saved(&m[i].1);
                    set_players(&mut out, m[i].0.as_str(), players);
                    i = i + 1;
                }
                assert(all.take(i as int) =~= all);
                self.confirmed = out;
            },
            _ => {},
        }
    }
}

/// The players that a saved list names.
fn read_saved(value: &Json) -> (r: Vec<String>)
    ensures
        texts(r@) == restored_players(value@),
{
    let mut out: Vec<String> = Vec::new();
    assert(texts(out@) =~= Seq::<Text>::empty());
    if let Some(list) = value.as_array() {
        let ghost all = items(list@);
        let mut i: usize = 0;
        assert(texts(out@) =~= all_players(all.take(0)));
        while i < list.len()
            invariant
                i <= list@.len(),
                all == items(list@),
                texts(out@) == all_players(all.take(i as int)),
            decreases list@.len() - i,
        {
            assert(all.take(i + 1).drop_last() =~= all.take(i as int));
            assert(all.take(i + 1).last() == list@[i as int]@);
            match &list[i] {
                Json::Null => {},
                item => {
                    let name = item.show();
                    add_name(&mut out, name.as_str());
                },
            }
            i = i + 1;
        }
        assert(all.take(i as int) =~= all);
    }
    out
}

/// Whether a change is pending.
pub open spec fn is_pending(pending: Seq<PendingV>, change: ChangeV) -> bool {
    exists|i: int| 0 <= i < pending.len() && (#[trigger] pending[i]).change == change
}

/// The count of a change in a list with one more entry.
proof fn lemma_seen_push(pending: Seq<PendingV>, x: PendingV, change: ChangeV)
    ensures
        seen(pending.push(x), change) == if is_pending(pending, change) {
            seen(pending, change)
        } else if x.change == change {
            x.count
        } else {
            0
        },
        !is_pending(pending, change) ==> seen(pending, change) == 0,
    decreases pending.len(),
{
    let all = pending.push(x);
    if pending.len() == 0 {
        reveal_with_fuel(seen, 2);
        assert(all.subrange(1, all.len() as int).len() == 0);
    } else {
        let rest = pending.subrange(1, pending.len() as int);
        assert(all.subrange(1, all.len() as int) =~= rest.push(x));
        lemma_seen_push(rest, x, change);
        if pending[0].change == change {
            assert(is_pending(pending, change));
        } else {
            if is_pending(rest, change) {
                let i = choose|i: int| 0 <= i < rest.len() && (#[trigger] rest[i]).change == change;
                assert(pending[i + 1].change == change);
            }
            if is_pending(pending, change) {
                let i = choose|i: int|
                    0 <= i < pending.len() && (#[trigger] pending[i]).change == change;
                assert(rest[i - 1].change == change);
            }
        }
    }
}

/// Seeing a change adds one to its count and leaves every other count.
pub proof fn sighting_counts_once(pending: Seq<PendingV>, change: ChangeV, other: ChangeV)
    requires
        other != change,
    ensures
        seen(bumped(pending, change), change) == one_more(seen(pending, change)),
        seen(bumped(pending, change), other) == seen(pending, other),
    decreases pending.len(),
{
    let after = bumped(pending, change);
    if pending.len() == 0 {
        reveal_with_fuel(seen, 2);
        assert(after[0] == PendingV { change, count: 1 });
        assert(after.subrange(1, after.len() as int).len() == 0);
    } else if pending[0].change == change {
        assert(after.subrange(1, after.len() as int) =~= pending.subrange(1, pending.len() as int));
    } else {
        let rest = pending.subrange(1, pending.len() as int);
        sighting_counts_once(rest, change, other);
        assert(after[0] == pending[0]);
        assert(after.subrange(1, after.len() as int) =~= bumped(rest, change));
    }
}

/// A change that is no longer to be seen is forgotten, however often it was seen;
/// one that still is keeps its count.
pub proof fn a_blip_starts_the_count_again(
    pending: Seq<PendingV>,
    now: Snapshot,
    confirmed: Snapshot,
    change: ChangeV,
)
    ensures
        seen(kept(pending, now, confirmed), change) == if still_true(change, now, confirmed) {
            seen(pending, change)
        } else {
            0
        },
        is_pending(kept(pending, now, confirmed), change) <==> is_pending(pending, change)
            && still_true(change, now, confirmed),
    decreases pending.len(),
{
    if pending.len() > 0 {
        let init = pending.drop_last();
        let x = pending.last();
        let before = kept(init, now, confirmed);
        let after = kept(pending, now, confirmed);
        a_blip_starts_the_count_again(init, now, confirmed, change);
        assert(pending =~= init.push(x));
        lemma_seen_push(init, x, change);
        lemma_seen_push(before, x, change);
        lemma_pending_push(init, x, change);
        lemma_pending_push(before, x, change);
    }
}

/// A list with one more entry holds a change where the list or the entry does.
proof fn lemma_pending_push(pending: Seq<PendingV>, x: PendingV, change: ChangeV)
    ensures
        is_pending(pending.push(x), change) <==> is_pending(pending, change) || x.change == change,
{
    let all = pending.push(x);
    if is_pending(pending, change) {
        let i = choose|i: int| 0 <= i < pending.len() && (#[trigger] pending[i]).change == change;
        assert(all[i].change == change);
    }
    if x.change == change {
        assert(all[pending.len() as int].change == change);
    }
    if is_pending(all, change) {
        let i = choose|i: int| 0 <= i < all.len() && (#[trigger] all[i]).change == change;
        if i < pending.len() {
            assert(pending[i].change == change);
        }
    }
}

/// A change that was told has to be seen anew before it counts again.
pub proof fn told_changes_are_not_pending(pending: Seq<PendingV>, change: ChangeV)
    ensures
        !is_pending(settled(pending, change), change),
    decreases pending.len(),
{
    if pending.len() > 0 {
        told_changes_are_not_pending(pending.drop_last(), change);
        lemma_pending_push(settled(pending.drop_last(), change), pending.last(), change);
    }
}

/// What is left of a list is in it, and not in the other list.
proof fn lemma_minus(a: Seq<Text>, b: Seq<Text>)
    ensures
        forall|i: int|
            0 <= i < minus(a, b).len() ==> a.contains(#[trigger] minus(a, b)[i]) && !b.contains(
                minus(a, b)[i],
            ),
    decreases a.len(),
{
    if a.len() > 0 {
        let init = a.drop_last();
        lemma_minus(init, b);
        let m = minus(a, b);
        assert forall|i: int| 0 <= i < m.len() implies a.contains(#[trigger] m[i]) && !b.contains(
            m[i],
        ) by {
            let before = minus(init, b);
            if i < before.len() {
                assert(m[i] == before[i]);
                let k = choose|k: int| 0 <= k < init.len() && init[k] == before[i];
                assert(a[k] == m[i]);
            } else {
                assert(a[a.len() - 1] == m[i]);
            }
        }
    }
}

/// Every change that a snapshot shows is one that is still to be seen, so that its
/// count lasts until the next snapshot.
pub proof fn shown_changes_last(servers: Seq<Text>, now: Snapshot, confirmed: Snapshot)
    ensures
        forall|i: int|
            0 <= i < changes_on(servers, now, confirmed).len() ==> still_true(
                #[trigger] changes_on(servers, now, confirmed)[i],
                now,
                confirmed,
            ),
    decreases servers.len(),
{
    if servers.len() > 0 {
        shown_changes_last(servers.drop_last(), now, confirmed);
        let server = servers.last();
        let before = changes_on(servers.drop_last(), now, confirmed);
        let there = players_on(now, server);
        let known = players_on(confirmed, server);
        let came = changes_for(EventType::Online, server, minus(there, known));
        let gone = changes_for(EventType::Offline, server, minus(known, there));
        let all = changes_on(servers, now, confirmed);
        lemma_minus(there, known);
        lemma_minus(known, there);
        assert forall|i: int| 0 <= i < all.len() implies still_true(
            #[trigger] all[i],
            now,
            confirmed,
        ) by {
            if i < before.len() {
                assert(all[i] == before[i]);
            } else if i < before.len() + came.len() {
                let k = i - before.len();
                assert(all[i] == came[k]);
                assert(came[k].player == minus(there, known)[k]);
            } else {
                let k = i - before.len() - came.len();
                assert(all[i] == gone[k]);
                assert(gone[k].player == minus(known, there)[k]);
            }
        }
    }
}

// ---- what the tracker keeps to ----

/// What is told of a change names the player, the server by the name that is configured
/// for it or else by its own, and the time, and says whether the player came or went.
pub proof fn a_change_is_told_whole(e: ChangeV, names: Seq<(Text, Text)>, clock: Text)
    ensures
        has(event_text(e, names, clock), e.player),
        ends(event_text(e, names, clock), clock),
        (pair_value(names, e.server) matches Some(n) ==> has(event_text(e, names, clock), n)),
        pair_value(names, e.server) is None ==> has(event_text(e, names, clock), e.server),
        match e.event_type {
            EventType::Online => begins(event_text(e, names, clock), "🎮 "@ + e.player) && has(
                event_text(e, names, clock),
                " 上线"@,
            ),
            EventType::Offline => begins(event_text(e, names, clock), "🚪 "@ + e.player) && has(
                event_text(e, names, clock),
                " 下线"@,
            ),
        },
{
    reveal_strlit(" 上线  ");
    reveal_strlit(" 下线  ");
    reveal_strlit(" 上线");
    reveal_strlit(" 下线");
    let server = match pair_value(names, e.server) {
        Some(n) => n,
        None => e.server,
    };
    let (head, word, short) = match e.event_type {
        EventType::Online => ("🎮 "@, " 上线  "@, " 上线"@),
        EventType::Offline => ("🚪 "@, " 下线  "@, " 下线"@),
    };
    let t = event_text(e, names, clock);
    let mid = " → "@;
    let gap = seq![' ', ' '];
    assert(word =~= short + gap);
    assert(t =~= head + e.player + (mid + server + word + clock));
    a_part_occurs(head, e.player, mid + server + word + clock);
    assert(t =~= head + e.player + mid + server + (word + clock));
    a_part_occurs(head + e.player + mid, server, word + clock);
    assert(t =~= head + e.player + mid + server + short + (gap + clock));
    a_part_occurs(head + e.player + mid + server, short, gap + clock);
    assert(t.subrange(t.len() - clock.len(), t.len() as int) =~= clock);
    assert(t.subrange(0, (head + e.player).len() as int) =~= head + e.player);
}

/// Taking names away from a list leaves exactly those that are not taken away.
pub proof fn what_is_left_was_not_taken(a: Seq<Text>, b: Seq<Text>)
    ensures
        forall|t: Text| #[trigger] minus(a, b).contains(t) <==> a.contains(t) && !b.contains(t),
    decreases a.len(),
{
    if a.len() > 0 {
        let init = a.drop_last();
        let before = minus(init, b);
        what_is_left_was_not_taken(init, b);
        assert forall|t: Text| #[trigger] minus(a, b).contains(t) <==> a.contains(t) && !b.contains(
            t,
        ) by {
            if a.contains(t) && !b.contains(t) {
                let k = choose|k: int| 0 <= k < a.len() && a[k] == t;
                if k < init.len() {
                    assert(init[k] == t);
                    assert(before.contains(t));
                    let i = choose|i: int| 0 <= i < before.len() && before[i] == t;
                    assert(minus(a, b)[i] == t);
                } else {
                    assert(minus(a, b)[before.len() as int] == t);
                }
            }
            if minus(a, b).contains(t) {
                let k = choose|k: int| 0 <= k < minus(a, b).len() && minus(a, b)[k] == t;
                if k < before.len() {
                    assert(before[k] == t);
                    assert(before.contains(t));
                    let i = choose|i: int| 0 <= i < init.len() && init[i] == t;
                    assert(a[i] == t);
                } else {
                    assert(a[a.len() - 1] == t);
                }
            }
        }
    }
}

/// Every name that is added is there, in order, and nobody else.
proof fn lemma_added_has(s: Seq<Text>, x: Text, t: Text)
    ensures
        added(s, x).contains(t) <==> s.contains(t) || t == x,
{
    if !s.contains(x) {
        lemma_place_range(s, x);
        let p = place_of(s, x);
        let r = s.insert(p, x);
        if s.contains(t) {
            let k = choose|k: int| 0 <= k < s.len() && s[k] == t;
            if k < p {
                assert(r[k] == t);
            } else {
                assert(r[k + 1] == t);
            }
        }
        assert(r[p] == x);
        if r.contains(t) {
            let k = choose|k: int| 0 <= k < r.len() && r[k] == t;
            if k < p {
                assert(s[k] == t);
            } else if k > p {
                assert(s[k - 1] == t);
            }
        }
    }
}

/// A place is in the list or at its end.
proof fn lemma_place_range(s: Seq<Text>, x: Text)
    ensures
        0 <= place_of(s, x) <= s.len(),
    decreases s.len(),
{
    if s.len() > 0 && !before(s.last(), x) {
        lemma_place_range(s.drop_last(), x);
    }
}

/// The players of a server are those of its list that have a name, all of them and
/// nobody else.
pub proof fn every_player_is_seen(list: Seq<JsonV>)
    ensures
        forall|t: Text| #[trigger]
            players_in(list).contains(t) <==> exists|i: int|
                0 <= i < list.len() && truthy(#[trigger] list[i]) && shown(list[i]) == t,
    decreases list.len(),
{
    if list.len() > 0 {
        let init = list.drop_last();
        every_player_is_seen(init);
        assert forall|t: Text| #[trigger] players_in(list).contains(t) <==> exists|i: int|
            0 <= i < list.len() && truthy(#[trigger] list[i]) && shown(list[i]) == t by {
            lemma_added_has(players_in(init), shown(list.last()), t);
            if players_in(init).contains(t) {
                let i = choose|i: int|
                    0 <= i < init.len() && truthy(#[trigger] init[i]) && shown(init[i]) == t;
                assert(list[i] == init[i]);
            }
            if exists|i: int|
                0 <= i < list.len() && truthy(#[trigger] list[i]) && shown(list[i]) == t {
                let i = choose|i: int|
                    0 <= i < list.len() && truthy(#[trigger] list[i]) && shown(list[i]) == t;
                if i < init.len() {
                    assert(init[i] == list[i]);
                }
            }
            if truthy(list.last()) && shown(list.last()) == t {
                assert(truthy(list[list.len() - 1]));
            }
        }
    }
}

/// Where the players of a server are set, they are those that were set, and the players
/// of every other server stay.
pub proof fn players_are_set_for_one_server(
    s: Snapshot,
    server: Text,
    players: Seq<Text>,
    other: Text,
)
    ensures
        players_on(with_players(s, server, players), server) == players,
        other != server ==> players_on(with_players(s, server, players), other) == players_on(
            s,
            other,
        ),
{
    lemma_server_at(s, server);
    match server_at(s, server) {
        Some(i) => {
            lemma_players_updated(s, i, server, players, other);
        },
        None => {
            let p = place_of(server_names(s), server);
            lemma_place_range(server_names(s), server);
            lemma_players_inserted(s, p, server, players, other);
        },
    }
}

/// Players of a snapshot in which the entry of a server was set anew.
proof fn lemma_players_updated(
    s: Snapshot,
    i: int,
    server: Text,
    players: Seq<Text>,
    other: Text,
)
    requires
        server_at(s, server) == Some(i),
        0 <= i < s.len(),
    ensures
        players_on(s.update(i, (server, players)), server) == players,
        other != server ==> players_on(s.update(i, (server, players)), other) == players_on(
            s,
            other,
        ),
    decreases s.len(),
{
    let t = s.update(i, (server, players));
    let rest = s.subrange(1, s.len() as int);
    let tail = t.subrange(1, t.len() as int);
    if s[0].0 == server {
        assert(i == 0);
        assert(tail =~= rest);
    } else {
        lemma_server_at(rest, server);
        lemma_players_updated(rest, i - 1, server, players, other);
        assert(tail =~= rest.update(i - 1, (server, players)));
        assert(t[0] == s[0]);
    }
}

/// Players of a snapshot into which the entry of a new server was put.
proof fn lemma_players_inserted(
    s: Snapshot,
    p: int,
    server: Text,
    players: Seq<Text>,
    other: Text,
)
    requires
        0 <= p <= s.len(),
        server_at(s, server) is None,
    ensures
        players_on(s.insert(p, (server, players)), server) == players,
        other != server ==> players_on(s.insert(p, (server, players)), other) == players_on(
            s,
            other,
        ),
    decreases s.len(),
{
    let t = s.insert(p, (server, players));
    let tail = t.subrange(1, t.len() as int);
    if p == 0 {
        assert(tail =~= s);
        assert(t[0] == (server, players));
    } else {
        let rest = s.subrange(1, s.len() as int);
        assert(server_at(rest, server) is None);
        lemma_players_inserted(rest, p - 1, server, players, other);
        assert(tail =~= rest.insert(p - 1, (server, players)));
        assert(t[0] == s[0]);
    }
}

/// A snapshot holds for each server with players those of its last entry; an entry of
/// another server, or one without players, changes nothing of it.
pub proof fn a_snapshot_holds_the_players(servers: Seq<JsonV>, entry: JsonV, other: Text)
    requires
        entry is Object,
    ensures
        ({
            let players = players_in(list_field(entry, "online_players"@));
            let after = snapshot_of(servers.push(entry));
            &&& players.len() > 0 ==> players_on(after, server_name_in(entry)) == players
            &&& players.len() == 0 ==> after == snapshot_of(servers)
            &&& other != server_name_in(entry) ==> players_on(after, other) == players_on(
                snapshot_of(servers),
                other,
            )
        }),
        (entry.field("server_name"@) matches Some(JsonV::Str(name)) ==> (name.len() > 0
            ==> server_name_in(entry) == name)),
{
    let all = servers.push(entry);
    assert(all.drop_last() =~= servers);
    assert(all.last() == entry);
    players_are_set_for_one_server(
        snapshot_of(servers),
        server_name_in(entry),
        players_in(list_field(entry, "online_players"@)),
        other,
    );
}

/// Whether a change is that of a player who is seen and was not, or was and is not.
pub open spec fn has_changed(change: ChangeV, now: Snapshot, confirmed: Snapshot) -> bool {
    let there = players_on(now, change.server).contains(change.player);
    let known = players_on(confirmed, change.server).contains(change.player);
    match change.event_type {
        EventType::Online => there && !known,
        EventType::Offline => known && !there,
    }
}

/// Who plays on a server that is in a snapshot.
proof fn lemma_players_named(s: Snapshot, server: Text)
    ensures
        players_on(s, server).len() > 0 ==> server_names(s).contains(server),
    decreases s.len(),
{
    if s.len() > 0 {
        let rest = s.subrange(1, s.len() as int);
        if s[0].0 == server {
            assert(server_names(s)[0] == server);
        } else {
            lemma_players_named(rest, server);
            if server_names(rest).contains(server) {
                let k = choose|k: int|
                    0 <= k < server_names(rest).len() && server_names(rest)[k] == server;
                assert(server_names(s)[k + 1] == server);
            }
        }
    }
}

/// All names that are added are there.
proof fn lemma_added_all_has(s: Seq<Text>, xs: Seq<Text>, t: Text)
    ensures
        added_all(s, xs).contains(t) <==> s.contains(t) || xs.contains(t),
    decreases xs.len(),
{
    if xs.len() > 0 {
        let init = xs.drop_last();
        lemma_added_all_has(s, init, t);
        lemma_added_has(added_all(s, init), xs.last(), t);
        if xs.contains(t) {
            let k = choose|k: int| 0 <= k < xs.len() && xs[k] == t;
            if k < init.len() {
                assert(init[k] == t);
            }
        }
        if init.contains(t) {
            let k = choose|k: int| 0 <= k < init.len() && init[k] == t;
            assert(xs[k] == t);
        }
        if xs.last() == t {
            assert(xs[xs.len() - 1] == t);
        }
    }
}

/// The changes of one server.
proof fn lemma_server_changes(server: Text, now: Seq<Text>, confirmed: Seq<Text>, change: ChangeV)
    ensures
        server_changes(server, now, confirmed).contains(change) <==> change.server == server
            && match change.event_type {
            EventType::Online => now.contains(change.player) && !confirmed.contains(
                change.player,
            ),
            EventType::Offline => confirmed.contains(change.player) && !now.contains(
                change.player,
            ),
        },
{
    let came = minus(now, confirmed);
    let went = minus(confirmed, now);
    what_is_left_was_not_taken(now, confirmed);
    what_is_left_was_not_taken(confirmed, now);
    let a = changes_for(EventType::Online, server, came);
    let b = changes_for(EventType::Offline, server, went);
    let all = a + b;
    if all.contains(change) {
        let k = choose|k: int| 0 <= k < all.len() && all[k] == change;
        if k < a.len() {
            assert(came.contains(came[k]));
        } else {
            assert(went.contains(went[k - a.len()]));
        }
    }
    if change.server == server {
        match change.event_type {
            EventType::Online => {
                if came.contains(change.player) {
                    let k = choose|k: int| 0 <= k < came.len() && came[k] == change.player;
                    assert(all[k] == change);
                }
            },
            EventType::Offline => {
                if went.contains(change.player) {
                    let k = choose|k: int| 0 <= k < went.len() && went[k] == change.player;
                    assert(all[a.len() + k] == change);
                }
            },
        }
    }
}

/// The changes of some servers.
proof fn lemma_changes_on(
    servers: Seq<Text>,
    now: Snapshot,
    confirmed: Snapshot,
    change: ChangeV,
)
    ensures
        changes_on(servers, now, confirmed).contains(change) <==> servers.contains(change.server)
            && has_changed(change, now, confirmed),
    decreases servers.len(),
{
    if servers.len() > 0 {
        let init = servers.drop_last();
        let a = changes_on(init, now, confirmed);
        let b = server_changes(
            servers.last(),
            players_on(now, servers.last()),
            players_on(confirmed, servers.last()),
        );
        lemma_changes_on(init, now, confirmed, change);
        lemma_server_changes(
            servers.last(),
            players_on(now, servers.last()),
            players_on(confirmed, servers.last()),
            change,
        );
        let all = a + b;
        if a.contains(change) {
            let k = choose|k: int| 0 <= k < a.len() && a[k] == change;
            assert(all[k] == change);
            let m = choose|m: int| 0 <= m < init.len() && init[m] == change.server;
            assert(servers[m] == change.server);
        }
        if b.contains(change) {
            let k = choose|k: int| 0 <= k < b.len() && b[k] == change;
            assert(all[a.len() + k] == change);
            assert(servers[servers.len() - 1] == change.server);
        }
        if all.contains(change) {
            let k = choose|k: int| 0 <= k < all.len() && all[k] == change;
            if k < a.len() {
                assert(a[k] == change);
            } else {
                assert(b[k - a.len()] == change);
            }
        }
        if servers.contains(change.server) {
            let m = choose|m: int| 0 <= m < servers.len() && servers[m] == change.server;
            if m < init.len() {
                assert(init[m] == change.server);
            }
        }
    }
}

/// Every player who came or went is noticed, on whatever server, and nobody else: a
/// change is among the changes exactly where the player is seen and was not known, or
/// was known and is not seen.
pub proof fn every_change_is_noticed(now: Snapshot, confirmed: Snapshot, change: ChangeV)
    ensures
        changes(now, confirmed).contains(change) <==> has_changed(change, now, confirmed),
        changes(now, now).contains(change) == false,
{
    let none = Seq::<Text>::empty();
    let all = all_servers(now, confirmed);
    lemma_changes_on(all, now, confirmed, change);
    lemma_players_named(now, change.server);
    lemma_players_named(confirmed, change.server);
    lemma_added_all_has(none, server_names(now), change.server);
    lemma_added_all_has(
        added_all(none, server_names(now)),
        server_names(confirmed),
        change.server,
    );
    if has_changed(change, now, confirmed) {
        assert(all.contains(change.server));
    }
    lemma_changes_on(all_servers(now, now), now, now, change);
}

/// After a player who came is told of, the player is known there; after one who went,
/// no more; nobody else is touched, so the same change is not noticed again.
pub proof fn a_told_change_is_known(confirmed: Snapshot, change: ChangeV, server: Text, player: Text)
    ensures
        ({
            let after = after_change(confirmed, change);
            &&& change.event_type == EventType::Online ==> players_on(
                after,
                change.server,
            ).contains(change.player)
            &&& change.event_type == EventType::Offline ==> !players_on(
                after,
                change.server,
            ).contains(change.player)
            &&& server != change.server || player != change.player ==> players_on(
                after,
                server,
            ).contains(player) == players_on(confirmed, server).contains(player)
        }),
{
    let players = players_on(confirmed, change.server);
    match change.event_type {
        EventType::Online => {
            let next = added(players, change.player);
            players_are_set_for_one_server(confirmed, change.server, next, server);
            lemma_added_has(players, change.player, change.player);
            lemma_added_has(players, change.player, player);
        },
        EventType::Offline => {
            let gone = seq![change.player];
            let next = minus(players, gone);
            players_are_set_for_one_server(confirmed, change.server, next, server);
            what_is_left_was_not_taken(players, gone);
            assert(gone.contains(change.player)) by {
                assert(gone[0] == change.player);
            }
            if gone.contains(player) {
                assert(player == change.player);
            }
            assert(next.contains(player) <==> players.contains(player) && !gone.contains(player));
            assert(!next.contains(change.player));
            lemma_nobody_there(confirmed, change.server);
        },
    }
}

/// On a server that is not in a snapshot nobody plays.
proof fn lemma_nobody_there(s: Snapshot, server: Text)
    ensures
        server_at(s, server) is None ==> players_on(s, server).len() == 0,
    decreases s.len(),
{
    if s.len() > 0 && s[0].0 != server {
        lemma_nobody_there(s.subrange(1, s.len() as int), server);
    }
}

/// A change is told of only where it was noticed just now, and without a threshold every
/// noticed change is told of at once.
pub proof fn what_is_told_was_noticed(
    pending: Seq<PendingV>,
    noticed: Seq<ChangeV>,
    debounce: u32,
)
    ensures
        forall|i: int|
            0 <= i < due(pending, noticed, debounce).len() ==> noticed.contains(
                #[trigger] due(pending, noticed, debounce)[i],
            ),
        debounce == 0 ==> due(pending, noticed, debounce) == noticed,
    decreases noticed.len(),
{
    if noticed.len() > 0 {
        let init = noticed.drop_last();
        let before = due(pending, init, debounce);
        let all = due(pending, noticed, debounce);
        what_is_told_was_noticed(pending, init, debounce);
        assert forall|i: int| 0 <= i < all.len() implies noticed.contains(#[trigger] all[i]) by {
            if i < before.len() {
                assert(all[i] == before[i]);
                let k = choose|k: int| 0 <= k < init.len() && init[k] == before[i];
                assert(noticed[k] == all[i]);
            } else {
                assert(noticed[noticed.len() - 1] == all[i]);
            }
        }
        if debounce == 0 {
            assert(all =~= noticed);
        }
    } else {
        assert(due(pending, noticed, debounce) =~= noticed);
    }
}

/// A change that was noticed once is told of exactly where it was seen often enough: as
/// often before as the threshold asks, this time counted.
pub proof fn a_change_is_told_when_it_lasts(
    pending: Seq<PendingV>,
    change: ChangeV,
    debounce: u32,
)
    ensures
        due(pending, seq![change], debounce) == if one_more(seen(pending, change)) >= debounce {
            seq![change]
        } else {
            Seq::empty()
        },
{
    let one = seq![change];
    let none = Seq::<ChangeV>::empty();
    assert(one.drop_last() =~= none);
    assert(one.last() == change);
    assert(bumped_all(pending, none) == pending);
    assert(due(pending, none, debounce) =~= none);
    let other = ChangeV { player: change.player.push('x'), ..change };
    assert(other.player.len() != change.player.len());
    sighting_counts_once(pending, change, other);
    assert(none.push(change) =~= one);
}

/// What was saved of a server is restored for it: the players of its list, all that are
/// not null, and nobody else.
pub proof fn saved_players_are_restored(m: Seq<(Text, JsonV)>, server: Text, list: Seq<JsonV>, other: Text)
    ensures
        players_on(restored(m.push((server, JsonV::Array(list)))), server) == all_players(list),
        other != server ==> players_on(restored(m.push((server, JsonV::Array(list)))), other)
            == players_on(restored(m), other),
        forall|t: Text| #[trigger]
            all_players(list).contains(t) <==> exists|i: int|
                0 <= i < list.len() && !((#[trigger] list[i]) is Null) && shown(list[i]) == t,
{
    let all = m.push((server, JsonV::Array(list)));
    assert(all.drop_last() =~= m);
    assert(all.last() == (server, JsonV::Array(list)));
    players_are_set_for_one_server(restored(m), server, all_players(list), other);
    lemma_all_players(list);
}

/// Who stands in a list.
proof fn lemma_all_players(list: Seq<JsonV>)
    ensures
        forall|t: Text| #[trigger]
            all_players(list).contains(t) <==> exists|i: int|
                0 <= i < list.len() && !((#[trigger] list[i]) is Null) && shown(list[i]) == t,
    decreases list.len(),
{
    if list.len() > 0 {
        let init = list.drop_last();
        lemma_all_players(init);
        assert forall|t: Text| #[trigger] all_players(list).contains(t) <==> exists|i: int|
            0 <= i < list.len() && !((#[trigger] list[i]) is Null) && shown(list[i]) == t by {
            lemma_added_has(all_players(init), shown(list.last()), t);
            if all_players(init).contains(t) {
                let i = choose|i: int|
                    0 <= i < init.len() && !((#[trigger] init[i]) is Null) && shown(init[i]) == t;
                assert(list[i] == init[i]);
            }
            if exists|i: int|
                0 <= i < list.len() && !((#[trigger] list[i]) is Null) && shown(list[i]) == t {
                let i = choose|i: int|
                    0 <= i < list.len() && !((#[trigger] list[i]) is Null) && shown(list[i]) == t;
                if i < init.len() {
                    assert(init[i] == list[i]);
                }
            }
            if !(list.last() is Null) && shown(list.last()) == t {
                assert(!(list[list.len() - 1] is Null));
            }
        }
    }
}

/// Sightings of others do not count for a change.
proof fn lemma_not_bumped(pending: Seq<PendingV>, noticed: Seq<ChangeV>, change: ChangeV)
    requires
        !noticed.contains(change),
    ensures
        seen(bumped_all(pending, noticed), change) == seen(pending, change),
    decreases noticed.len(),
{
    if noticed.len() > 0 {
        let init = noticed.drop_last();
        assert(noticed[noticed.len() - 1] != change);
        assert(!init.contains(change)) by {
            if init.contains(change) {
                let k = choose|k: int| 0 <= k < init.len() && init[k] == change;
                assert(noticed[k] == change);
            }
        }
        lemma_not_bumped(pending, init, change);
        sighting_counts_once(bumped_all(pending, init), noticed.last(), change);
    }
}

/// Of the changes that were noticed those are told of that were seen often enough, this
/// time counted: all of them, and no other.
pub proof fn changes_are_told_when_they_last(
    pending: Seq<PendingV>,
    noticed: Seq<ChangeV>,
    debounce: u32,
    change: ChangeV,
)
    requires
        noticed.no_duplicates(),
    ensures
        due(pending, noticed, debounce).contains(change) <==> noticed.contains(change) && one_more(
            seen(pending, change),
        ) >= debounce,
    decreases noticed.len(),
{
    if noticed.len() > 0 {
        let init = noticed.drop_last();
        let last = noticed.last();
        let before = due(pending, init, debounce);
        let all = due(pending, noticed, debounce);
        changes_are_told_when_they_last(pending, init, debounce, change);
        assert(!init.contains(last)) by {
            if init.contains(last) {
                let k = choose|k: int| 0 <= k < init.len() && init[k] == last;
                assert(noticed[k] == noticed[noticed.len() - 1]);
            }
        }
        lemma_not_bumped(pending, init, last);
        let other = ChangeV { player: last.player.push('x'), ..last };
        assert(other.player.len() != last.player.len());
        sighting_counts_once(bumped_all(pending, init), last, other);
        if before.contains(change) {
            let k = choose|k: int| 0 <= k < before.len() && before[k] == change;
            assert(all[k] == change);
        }
        if all.contains(change) {
            let k = choose|k: int| 0 <= k < all.len() && all[k] == change;
            if k < before.len() {
                assert(before[k] == change);
            } else {
                assert(noticed[noticed.len() - 1] == change);
            }
        }
        if noticed.contains(change) {
            let k = choose|k: int| 0 <= k < noticed.len() && noticed[k] == change;
            if k < init.len() {
                assert(init[k] == change);
            } else if one_more(seen(pending, change)) >= debounce {
                assert(all[before.len() as int] == change);
            }
        }
        if init.contains(change) {
            let k = choose|k: int| 0 <= k < init.len() && init[k] == change;
            assert(noticed[k] == change);
        }
    }
}

/// Looking at who is there changes nothing of what is known; what is told of then are
/// players who came or went. Only when it was told is a change known; where telling
/// failed, nothing of it is known, so that it is told of again.
pub proof fn what_is_known_was_told(t: TrackerV, now: Snapshot, change: ChangeV)
    requires
        t.counts.online < u64::MAX,
        t.counts.offline < u64::MAX,
        t.counts.failed < u64::MAX,
    ensures
        after_look(t, now).confirmed == t.confirmed,
        after_look(t, now).debounce == t.debounce,
        after_look(t, now).counts == t.counts,
        told_of(t, now).contains(change) ==> has_changed(change, now, t.confirmed),
        has_changed(change, now, t.confirmed) && t.debounce == 0 ==> told_of(t, now).contains(
            change,
        ),
        after_telling(t, change, false).confirmed == t.confirmed,
        after_telling(t, change, false).pending == t.pending,
        after_telling(t, change, false).counts.failed == t.counts.failed + 1,
        ({
            let after = after_telling(t, change, true);
            &&& after.debounce == t.debounce
            &&& !is_pending(after.pending, change)
            &&& match change.event_type {
                EventType::Online => players_on(after.confirmed, change.server).contains(
                    change.player,
                ) && after.counts.online == t.counts.online + 1 && after.counts.offline
                    == t.counts.offline,
                EventType::Offline => !players_on(after.confirmed, change.server).contains(
                    change.player,
                ) && after.counts.offline == t.counts.offline + 1 && after.counts.online
                    == t.counts.online,
            }
            &&& after.counts.failed == t.counts.failed
            &&& !has_changed(change, now, after.confirmed)
        }),
{
    let noticed = changes(now, t.confirmed);
    let told = told_of(t, now);
    every_change_is_noticed(now, t.confirmed, change);
    what_is_told_was_noticed(t.pending, noticed, t.debounce);
    if told.contains(change) {
        let k = choose|k: int| 0 <= k < told.len() && told[k] == change;
        assert(noticed.contains(told[k]));
    }
    a_told_change_is_known(t.confirmed, change, change.server, change.player);
    told_changes_are_not_pending(t.pending, change);
}

/// A server is forgotten where nobody is known to play on it and it is not seen any more,
/// and only there; every other stays as it is.
pub proof fn empty_servers_are_forgotten(confirmed: Snapshot, now: Snapshot)
    ensures
        forall|i: int|
            0 <= i < confirmed.len() ==> (occupied(confirmed, now).contains(#[trigger] confirmed[i])
                <==> confirmed[i].1.len() > 0 || server_at(now, confirmed[i].0) is Some),
        forall|i: int|
            0 <= i < occupied(confirmed, now).len() ==> confirmed.contains(
                #[trigger] occupied(confirmed, now)[i],
            ),
        forall|i: int|
            0 <= i < occupied(confirmed, now).len() ==> ((#[trigger] occupied(
                confirmed,
                now,
            )[i]).1.len() > 0 || server_at(now, occupied(confirmed, now)[i].0) is Some),
    decreases confirmed.len(),
{
    if confirmed.len() > 0 {
        let init = confirmed.drop_last();
        let before = occupied(init, now);
        let all = occupied(confirmed, now);
        empty_servers_are_forgotten(init, now);
        assert forall|i: int| 0 <= i < all.len() implies confirmed.contains(#[trigger] all[i]) && (
        all[i].1.len() > 0 || server_at(now, all[i].0) is Some) by {
            if i < before.len() {
                assert(all[i] == before[i]);
                let k = choose|k: int| 0 <= k < init.len() && init[k] == before[i];
                assert(confirmed[k] == all[i]);
            } else {
                assert(confirmed[confirmed.len() - 1] == all[i]);
            }
        }
        assert forall|i: int| 0 <= i < confirmed.len() implies (all.contains(
            #[trigger] confirmed[i],
        ) <==> confirmed[i].1.len() > 0 || server_at(now, confirmed[i].0) is Some) by {
            let e = confirmed[i];
            if e.1.len() > 0 || server_at(now, e.0) is Some {
                if i < init.len() {
                    assert(init[i] == e);
                    assert(before.contains(e));
                    let k = choose|k: int| 0 <= k < before.len() && before[k] == e;
                    assert(all[k] == e);
                } else {
                    assert(all[before.len() as int] == e);
                }
            } else if all.contains(e) {
                let k = choose|k: int| 0 <= k < all.len() && all[k] == e;
                assert(all[k].1.len() > 0 || server_at(now, all[k].0) is Some);
            }
        }
    }
}

/// A change that is waited for counts on while it lasts: as long as a player who came is
/// there, and as long as a known player who went is not; once that is over it does not
/// count any more.
pub proof fn a_change_counts_while_it_lasts(change: ChangeV, now: Snapshot, confirmed: Snapshot)
    ensures
        has_changed(change, now, confirmed) ==> still_true(change, now, confirmed),
        change.event_type == EventType::Online && !players_on(now, change.server).contains(
            change.player,
        ) ==> !still_true(change, now, confirmed),
        change.event_type == EventType::Offline && players_on(now, change.server).contains(
            change.player,
        ) ==> !still_true(change, now, confirmed),
        change.event_type == EventType::Offline && !players_on(confirmed, change.server).contains(
            change.player,
        ) ==> !still_true(change, now, confirmed),
{
}

/// Who is there is read from the list of servers; data that is none tells nothing.
pub proof fn who_is_there_is_read_from_the_servers(data: JsonV, servers: Seq<JsonV>)
    ensures
        data.field("servers"@) == Some(JsonV::Array(servers)) ==> snapshot_in(data) == Some(
            snapshot_of(servers),
        ),
        !(data is Object) ==> snapshot_in(data) is None,
        data is Object && data.field("servers"@) is None ==> (snapshot_in(data) matches Some(s)
            && s.len() == 0),
{
}

/// A sighting counts one more, as far as numbers go.
pub proof fn a_sighting_counts_one_more(n: u32)
    ensures
        n < u32::MAX ==> one_more(n) == n + 1,
        one_more(n) >= n,
{
}

} // verus!
