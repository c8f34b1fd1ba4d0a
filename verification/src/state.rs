//! State that outlives the process: which messages were forwarded, how far the
//! chatroom was read, and the current refresh token.

use crate::json::{
    exact_to, int_json, is_exact, json_int, json_lines, json_lines_of, json_read, json_str, lookup,
    members, parse_json, Json, JsonV,
};
use crate::text::Text;
use indexmap::IndexMap;
use vstd::prelude::*;

verus! {

/// `indexmap::IndexMap`: a map that keeps the order in which keys came.
#[verifier::external_type_specification]
#[verifier::external_body]
#[verifier::reject_recursive_types(K)]
#[verifier::reject_recursive_types(V)]
#[verifier::reject_recursive_types(S)]
pub struct ExIndexMap<K, V, S>(IndexMap<K, V, S>);

/// The pairs of a table, oldest key first.
pub uninterp spec fn table_pairs(m: IndexMap<String, i64>) -> Seq<(Seq<char>, i64)>;

/// The value under `key` in a list of pairs.
pub open spec fn pair_value<K, V>(s: Seq<(K, V)>, key: K) -> Option<V>
    decreases s.len(),
{
    if s.len() == 0 {
        None
    } else if s.last().0 == key {
        Some(s.last().1)
    } else {
        pair_value(s.drop_last(), key)
    }
}

/// Whether no key stands in two pairs.
pub open spec fn keys_differ<K, V>(s: Seq<(K, V)>) -> bool {
    forall|i: int, j: int| 0 <= i < j < s.len() ==> (#[trigger] s[i]).0 != (#[trigger] s[j]).0
}

/// The pairs after `key` was given `value`: a key that is there keeps its place,
/// another one comes last.
pub open spec fn with_pair<K, V>(s: Seq<(K, V)>, key: K, value: V) -> Seq<(K, V)> {
    if pair_value(s, key) is Some {
        Seq::new(
            s.len(),
            |i: int|
                if s[i].0 == key {
                    (key, value)
                } else {
                    s[i]
                },
        )
    } else {
        s.push((key, value))
    }
}

/// The last `max` pairs.
pub open spec fn newest<K, V>(s: Seq<(K, V)>, max: nat) -> Seq<(K, V)> {
    if s.len() <= max {
        s
    } else {
        s.subrange(s.len() - max, s.len() as int)
    }
}

/// Calls `IndexMap::new`: a map without pairs.
#[verifier::external_body]
fn table_new() -> (r: IndexMap<String, i64>)
    ensures
        table_pairs(r) == Seq::<(Text, i64)>::empty(),
{
    IndexMap::new()
}

/// Calls `IndexMap::len`: the number of pairs.
#[verifier::external_body]
fn table_len(m: &IndexMap<String, i64>) -> (r: usize)
    ensures
        r == table_pairs(*m).len(),
{
    m.len()
}

/// Calls `IndexMap::get`: the value under the key. No key stands twice in a map.
#[verifier::external_body]
fn table_get(m: &IndexMap<String, i64>, key: &str) -> (r: Option<i64>)
    ensures
        r == pair_value(table_pairs(*m), key@),
{
    m.get(key).copied()
}

/// Calls `IndexMap::insert`: a key that is there keeps its place and gets the
/// value, a new key comes last. No key stands twice in the map.
#[verifier::external_body]
fn table_insert(m: &mut IndexMap<String, i64>, key: String, value: i64)
    ensures
        table_pairs(*final(m)) == with_pair(table_pairs(*old(m)), key@, value),
        keys_differ(table_pairs(*final(m))),
{
    m.insert(key, value);
}

/// Calls `IndexMap::shift_remove_index` with index 0: removes the oldest pair and
/// keeps the order of the others.
#[verifier::external_body]
fn table_drop_first(m: &mut IndexMap<String, i64>)
    requires
        table_pairs(*old(m)).len() > 0,
    ensures
        table_pairs(*final(m)) == table_pairs(*old(m)).drop_first(),
{
    m.shift_remove_index(0);
}

/// Calls `IndexMap::get_index`: the pair at an index.
#[verifier::external_body]
fn table_pair(m: &IndexMap<String, i64>, i: usize) -> (r: Option<(String, i64)>)
    ensures
        match r {
            Some(p) => i < table_pairs(*m).len() && table_pairs(*m)[i as int] == (p.0@, p.1),
            None => i >= table_pairs(*m).len(),
        },
{
    m.get_index(i).map(|(k, v)| (k.clone(), *v))
}

/// What the rest of the service may know of the state.
#[derive(Debug, Clone, Copy, PartialEq, Eq)]
pub struct StateSnapshot {
    pub forwarded_count: usize,
    pub last_read_message_id: i64,
    pub has_refresh_token: bool,
}

/// How many forwarded messages are remembered.
pub const DEFAULT_MAX_FORWARDED: usize = 2000;

/// The table of forwarded messages, the read position and the refresh token.
#[derive(Debug)]
pub struct StateStore {
    max_forwarded: usize,
    forwarded: IndexMap<String, i64>,
    last_read: i64,
    token: String,
}

/// What a [`StateStore`] holds.
pub struct StateV {
    pub max: nat,
    pub forwarded: Seq<(Text, i64)>,
    pub last_read: i64,
    pub token: Text,
}

impl View for StateStore {
    type V = StateV;

    closed spec fn view(&self) -> StateV {
        StateV {
            max: self.max_forwarded as nat,
            forwarded: table_pairs(self.forwarded),
            last_read: self.last_read,
            token: self.token@,
        }
    }
}

/// The pairs that a list of strings and numbers holds.
pub open spec fn pairs_of(v: Seq<(String, i64)>) -> Seq<(Text, i64)> {
    Seq::new(v.len(), |i: int| (v[i].0@, v[i].1))
}

/// The table that `pairs`, taken one by one, make.
pub open spec fn loaded(pairs: Seq<(Text, i64)>) -> Seq<(Text, i64)>
    decreases pairs.len(),
{
    if pairs.len() == 0 {
        Seq::<(Text, i64)>::empty()
    } else {
        with_pair(loaded(pairs.drop_last()), pairs.last().0, pairs.last().1)
    }
}

impl StateStore {
    /// No message stands twice in the table.
    pub open spec fn wf(&self) -> bool {
        keys_differ(self@.forwarded)
    }

    /// An empty state that remembers [`DEFAULT_MAX_FORWARDED`] messages.
    pub fn new() -> (r: Self)
        ensures
            r@ == (StateV {
                max: DEFAULT_MAX_FORWARDED as nat,
                forwarded: Seq::<(Text, i64)>::empty(),
                last_read: 0,
                token: Seq::<char>::empty(),
            }),
            r.wf(),
    {
        Self::with_max_forwarded(DEFAULT_MAX_FORWARDED)
    }

    /// An empty state that remembers `max_forwarded` messages.
    pub fn with_max_forwarded(max_forwarded: usize) -> (r: Self)
        ensures
            r@ == (StateV {
                max: max_forwarded as nat,
                forwarded: Seq::<(Text, i64)>::empty(),
                last_read: 0,
                token: Seq::<char>::empty(),
            }),
            r.wf(),
    {
        StateStore { max_forwarded, forwarded: table_new(), last_read: 0, token: String::new() }
    }

    /// The state that was saved as these values.
    pub fn restored(
        max_forwarded: usize,
        pairs: Vec<(String, i64)>,
        last_read: i64,
        token: String,
    ) -> (r: Self)
        ensures
            r@ == (StateV {
                max: max_forwarded as nat,
                forwarded: loaded(pairs_of(pairs@)),
                last_read,
                token: token@,
            }),
            r.wf(),
    {
        let mut forwarded = table_new();
        let mut i: usize = 0;
        let ghost all = pairs_of(pairs@);
        while i < pairs.len()
            invariant
                i <= pairs@.len(),
                all == pairs_of(pairs@),
                table_pairs(forwarded) == loaded(all.take(i as int)),
                keys_differ(table_pairs(forwarded)),
            decreases pairs@.len() - i,
        {
            assert(all.take(i + 1).drop_last() =~= all.take(i as int));
            table_insert(&mut forwarded, pairs[i].0.clone(), pairs[i].1);
            i = i + 1;
        }
        assert(all.take(i as int) =~= all);
        StateStore { max_forwarded, forwarded, last_read, token }
    }

    /// The table as values to save, oldest first.
    pub fn pairs(&self) -> (r: Vec<(String, i64)>)
        ensures
            pairs_of(r@) == self@.forwarded,
    {
        let mut out: Vec<(String, i64)> = Vec::new();
        let n: usize = table_len(&self.forwarded);
        let mut i: usize = 0;
        let ghost all = table_pairs(self.forwarded);
        while i < n
            invariant
                i <= n,
                n == all.len(),
                all == table_pairs(self.forwarded),
                pairs_of(out@) == all.take(i as int),
            decreases n - i,
        {
            match table_pair(&self.forwarded, i) {
                Some(p) => {
                    assert(pairs_of(out@.push(p)) =~= pairs_of(out@).push((p.0@, p.1)));
                    out.push(p);
                    assert(all.take(i + 1) =~= all.take(i as int).push(all[i as int]));
                },
                None => {},
            }
            i = i + 1;
        }
        assert(all.take(n as int) =~= all);
        out
    }

    /// The chatroom message that a source message was forwarded as.
    pub fn forwarded_id(&self, source_message_id: &str) -> (r: Option<i64>)
        ensures
            r == pair_value(self@.forwarded, source_message_id@),
    {
        table_get(&self.forwarded, source_message_id)
    }

    /// Whether a source message was forwarded.
    pub fn already_forwarded(&self, source_message_id: &str) -> (r: bool)
        ensures
            r == (pair_value(self@.forwarded, source_message_id@) is Some),
    {
        self.forwarded_id(source_message_id).is_some()
    }

    /// Remembers that a source message was forwarded; the oldest messages make
    /// room.
    pub fn mark_forwarded(&mut self, source_message_id: &str, chatroom_message_id: i64)
        ensures
            final(self)@ == (StateV {
                forwarded: newest(
                    with_pair(old(self)@.forwarded, source_message_id@, chatroom_message_id),
                    old(self)@.max,
                ),
                ..old(self)@
            }),
            final(self)@.forwarded.len() <= final(self)@.max,
            final(self).wf(),
    {
        let ghost full = with_pair(
            table_pairs(self.forwarded),
            source_message_id@,
            chatroom_message_id,
        );
        table_insert(&mut self.forwarded, source_message_id.to_owned(), chatroom_message_id);
        assert(full.subrange(0, full.len() as int) =~= full);
        while table_len(&self.forwarded) > self.max_forwarded
            invariant
                self.max_forwarded == old(self).max_forwarded,
                self.last_read == old(self).last_read,
                self.token == old(self).token,
                keys_differ(full),
                table_pairs(self.forwarded).len() <= full.len(),
                table_pairs(self.forwarded) == full.subrange(
                    full.len() - table_pairs(self.forwarded).len(),
                    full.len() as int,
                ),
                table_pairs(self.forwarded).len() >= self.max_forwarded
                    || table_pairs(self.forwarded) == full,
            decreases table_pairs(self.forwarded).len(),
        {
            let ghost before = table_pairs(self.forwarded);
            table_drop_first(&mut self.forwarded);
            assert(table_pairs(self.forwarded) =~= full.subrange(
                full.len() - before.len() + 1,
                full.len() as int,
            ));
        }
        assert(table_pairs(self.forwarded) =~= newest(full, self.max_forwarded as nat));
    }

    /// How far the chatroom was read.
    pub fn last_read_message_id(&self) -> (r: i64)
        ensures
            r == self@.last_read,
    {
        self.last_read
    }

    /// Sets how far the chatroom was read.
    pub fn set_last_read_message_id(&mut self, message_id: i64)
        ensures
            final(self)@ == (StateV { last_read: message_id, ..old(self)@ }),
            old(self).wf() ==> final(self).wf(),
    {
        self.last_read = message_id;
    }

    /// The refresh token.
    pub fn refresh_token(&self) -> (r: String)
        ensures
            r@ == self@.token,
    {
        self.token.clone()
    }

    /// Sets the refresh token.
    pub fn set_refresh_token(&mut self, token: String)
        ensures
            final(self)@ == (StateV { token: token@, ..old(self)@ }),
            old(self).wf() ==> final(self).wf(),
    {
        self.token = token;
    }

    /// A summary that does not show the token.
    pub fn snapshot(&self) -> (r: StateSnapshot)
        ensures
            r.forwarded_count == self@.forwarded.len(),
            r.last_read_message_id == self@.last_read,
            r.has_refresh_token == (self@.token.len() > 0),
    {
        StateSnapshot {
            forwarded_count: table_len(&self.forwarded),
            last_read_message_id: self.last_read,
            has_refresh_token: !self.token.as_str().is_empty(),
        }
    }
}

/// A key that stands in some pair has a value.
proof fn lemma_pair_value<K, V>(s: Seq<(K, V)>, key: K)
    ensures
        pair_value(s, key) is Some <==> exists|i: int|
            0 <= i < s.len() && (#[trigger] s[i]).0 == key,
        keys_differ(s) ==> forall|i: int|
            0 <= i < s.len() && (#[trigger] s[i]).0 == key ==> pair_value(s, key) == Some(s[i].1),
    decreases s.len(),
{
    if s.len() > 0 {
        let t = s.drop_last();
        lemma_pair_value(t, key);
        assert forall|i: int| 0 <= i < s.len() - 1 implies #[trigger] s[i] == t[i] by {}
        if s.last().0 == key {
            assert(s[s.len() - 1].0 == key);
        } else {
            if pair_value(t, key) is Some {
                let i = choose|i: int| 0 <= i < t.len() && (#[trigger] t[i]).0 == key;
                assert(s[i].0 == key);
            }
            assert forall|i: int| 0 <= i < s.len() && (#[trigger] s[i]).0 == key implies pair_value(
                s,
                key,
            ) is Some && (keys_differ(s) ==> pair_value(s, key) == Some(s[i].1)) by {
                assert(t[i] == s[i]);
            }
        }
    }
}

/// A message that was marked is found with the number it was marked with, as long
/// as the table had not outgrown its bound and has room for one.
pub proof fn marked_is_found(s: Seq<(Text, i64)>, key: Text, value: i64, max: nat)
    requires
        keys_differ(s),
        s.len() <= max,
        max >= 1,
    ensures
        pair_value(newest(with_pair(s, key, value), max), key) == Some(value),
{
    let t = with_pair(s, key, value);
    lemma_pair_value(s, key);
    if pair_value(s, key) is Some {
        let i = choose|i: int| 0 <= i < s.len() && (#[trigger] s[i]).0 == key;
        assert(t[i] == (key, value));
        assert forall|a: int, b: int| 0 <= a < b < t.len() implies (#[trigger] t[a]).0 != (
        #[trigger] t[b]).0 by {
            assert(s[a].0 != s[b].0);
        }
        lemma_pair_value(t, key);
    } else {
        let n = newest(t, max);
        assert(n.last() == (key, value));
    }
}

/// Marking one message does not forget another while there is room.
pub proof fn marking_keeps_the_others(
    s: Seq<(Text, i64)>,
    key: Text,
    value: i64,
    max: nat,
    other: Text,
)
    requires
        keys_differ(s),
        s.len() < max,
        other != key,
    ensures
        pair_value(newest(with_pair(s, key, value), max), other) == pair_value(s, other),
{
    let t = with_pair(s, key, value);
    lemma_pair_value(s, key);
    lemma_pair_value(s, other);
    if pair_value(s, key) is Some {
        assert forall|a: int, b: int| 0 <= a < b < t.len() implies (#[trigger] t[a]).0 != (
        #[trigger] t[b]).0 by {
            assert(s[a].0 != s[b].0);
        }
        lemma_pair_value(t, other);
        if pair_value(s, other) is Some {
            let i = choose|i: int| 0 <= i < s.len() && (#[trigger] s[i]).0 == other;
            assert(t[i] == s[i]);
        } else {
            assert forall|i: int| 0 <= i < t.len() implies (#[trigger] t[i]).0 != other by {
                assert(s[i].0 != other);
            }
        }
    } else {
        assert(t.drop_last() =~= s);
    }
}

/// A table that is saved and restored is the same table.
pub proof fn saved_is_restored(s: Seq<(Text, i64)>)
    requires
        keys_differ(s),
    ensures
        loaded(s) == s,
    decreases s.len(),
{
    if s.len() > 0 {
        let t = s.drop_last();
        assert forall|a: int, b: int| 0 <= a < b < t.len() implies (#[trigger] t[a]).0 != (
        #[trigger] t[b]).0 by {
            assert(s[a].0 != s[b].0);
        }
        saved_is_restored(t);
        lemma_pair_value(t, s.last().0);
        assert forall|i: int| 0 <= i < t.len() implies (#[trigger] t[i]).0 != s.last().0 by {
            assert(s[i].0 != s[s.len() - 1].0);
        }
        assert(t.push(s.last()) =~= s);
    }
}

/// The members that a table is saved as.
pub open spec fn table_members(pairs: Seq<(Text, i64)>) -> Seq<(Text, JsonV)> {
    Seq::new(pairs.len(), |i: int| (pairs[i].0, int_json(pairs[i].1)))
}

/// The file that a state is saved as.
pub open spec fn state_file(v: StateV) -> JsonV {
    JsonV::Object(
        seq![
            ("forwarded"@, JsonV::Object(table_members(v.forwarded))),
            ("last_read_message_id"@, int_json(v.last_read)),
            ("refresh_token"@, JsonV::Str(v.token)),
        ],
    )
}

/// The table that members make, where all are integers.
pub open spec fn table_in(m: Seq<(Text, JsonV)>) -> Option<Seq<(Text, i64)>> {
    if forall|i: int| 0 <= i < m.len() ==> (#[trigger] m[i]).1.as_int() is Some {
        Some(Seq::new(m.len(), |i: int| (m[i].0, m[i].1.as_int()->0)))
    } else {
        None
    }
}

/// A state without anything in it.
pub open spec fn blank_state(max: nat) -> StateV {
    StateV { max, forwarded: Seq::empty(), last_read: 0, token: Seq::empty() }
}

/// The state that a file holds. A member that is missing counts as nothing; a file
/// that is missing or cannot be read is a blank state.
pub open spec fn state_in(file: Option<Seq<u8>>, max: nat) -> StateV {
    match file {
        None => blank_state(max),
        Some(bytes) => match json_read(bytes) {
            Err(_) => blank_state(max),
            Ok(j) => {
                let pairs = match j.field("forwarded"@) {
                    None => Some(Seq::empty()),
                    Some(JsonV::Object(m)) => table_in(m),
                    Some(_) => None,
                };
                let last_read = match j.field("last_read_message_id"@) {
                    None => Some(0i64),
                    Some(v) => v.as_int(),
                };
                let token = match j.field("refresh_token"@) {
                    None => Some(Seq::empty()),
                    Some(v) => v.as_text(),
                };
                if j is Object && pairs is Some && last_read is Some && token is Some {
                    StateV {
                        max,
                        forwarded: loaded(pairs->0),
                        last_read: last_read->0,
                        token: token->0,
                    }
                } else {
                    blank_state(max)
                }
            },
        },
    }
}

/// The table that members make, where all are integers.
fn read_table(m: &Vec<(String, Json)>) -> (r: Option<Vec<(String, i64)>>)
    ensures
        match r {
            Some(v) => table_in(members(m@)) == Some(pairs_of(v@)),
            None => table_in(members(m@)) is None,
        },
{
    let ghost all = members(m@);
    let mut out: Vec<(String, i64)> = Vec::new();
    let mut i: usize = 0;
    while i < m.len()
        invariant
            i <= m@.len(),
            all == members(m@),
            out@.len() == i,
            forall|k: int|
                0 <= k < i ==> (#[trigger] all[k]).1.as_int() == Some(out@[k].1) && all[k].0
                    == out@[k].0@,
        decreases m@.len() - i,
    {
        assert(all[i as int] == (m@[i as int].0@, m@[i as int].1@));
        match m[i].1.as_i64() {
            Some(n) => out.push((m[i].0.clone(), n)),
            None => {
                assert(all[i as int].1.as_int() is None);
                return None;
            },
        }
        i = i + 1;
    }
    assert(pairs_of(out@) =~= Seq::new(all.len(), |i: int| (all[i].0, all[i].1.as_int()->0)));
    Some(out)
}

/// What a saved file holds.
fn read_file(bytes: &Vec<u8>) -> (r: Option<(Vec<(String, i64)>, i64, String)>)
    ensures
        match r {
            Some(p) => forall|max: nat|
                #[trigger] state_in(Some(bytes@), max) == (StateV {
                    max,
                    forwarded: loaded(pairs_of(p.0@)),
                    last_read: p.1,
                    token: p.2@,
                }),
            None => forall|max: nat| #[trigger] state_in(Some(bytes@), max) == blank_state(max),
        },
{
    broadcast use crate::json::object_view;

    let j = match parse_json(bytes.as_slice()) {
        Ok(j) => j,
        Err(_) => return None,
    };
    match &j {
        Json::Object(_) => {},
        _ => return None,
    }
    let pairs = match j.get("forwarded") {
        None => {
            let none: Vec<(String, i64)> = Vec::new();
            assert(pairs_of(none@) =~= Seq::empty());
            none
        },
        Some(v) => match v {
            Json::Object(m) => {
                assert(v@ == Json::Object(*m)@);
                match read_table(m) {
                    Some(p) => p,
                    None => return None,
                }
            },
            _ => return None,
        },
    };
    let last_read = match j.get("last_read_message_id") {
        None => 0,
        Some(v) => match v.as_i64() {
            Some(n) => n,
            None => return None,
        },
    };
    let token = match j.get("refresh_token") {
        None => String::new(),
        Some(v) => match v.as_str() {
            Some(t) => t.clone(),
            None => return None,
        },
    };
    Some((pairs, last_read, token))
}

/// What a file that may be missing holds.
pub open spec fn file_bytes(file: Option<Vec<u8>>) -> Option<Seq<u8>> {
    match file {
        Some(v) => Some(v@),
        None => None,
    }
}

/// A table that is saved reads as that table.
proof fn lemma_table(pairs: Seq<(Text, i64)>)
    ensures
        table_in(table_members(pairs)) == Some(pairs),
{
    let m = table_members(pairs);
    assert forall|i: int| 0 <= i < m.len() implies (#[trigger] m[i]).1.as_int() == Some(
        pairs[i].1,
    ) by {}
    assert(Seq::new(m.len(), |i: int| (m[i].0, m[i].1.as_int()->0)) =~= pairs);
}

/// The file that a state is saved as comes through a text unchanged.
proof fn lemma_state_file(v: StateV)
    requires
        keys_differ(v.forwarded),
    ensures
        is_exact(state_file(v)),
        state_file(v).field("forwarded"@) == Some(JsonV::Object(table_members(v.forwarded))),
        state_file(v).field("last_read_message_id"@) == Some(int_json(v.last_read)),
        state_file(v).field("refresh_token"@) == Some(JsonV::Str(v.token)),
{
    reveal_strlit("forwarded");
    reveal_strlit("last_read_message_id");
    reveal_strlit("refresh_token");
    let m = state_file(v)->Object_0;
    let t = table_members(v.forwarded);
    assert forall|i: int| 0 <= i < t.len() implies exact_to((#[trigger] t[i]).1, 98) by {}
    assert forall|i: int, k: int| 0 <= i < k < t.len() implies t[i].0 != t[k].0 by {
        assert(v.forwarded[i].0 != v.forwarded[k].0);
    }
    assert(exact_to(JsonV::Object(t), 99));
    assert(m[0].0.len() == 9 && m[1].0.len() == 20 && m[2].0.len() == 13);
    assert forall|i: int| 0 <= i < m.len() implies exact_to((#[trigger] m[i]).1, 99) by {}
    assert(exact_to(state_file(v), 100));
    reveal_with_fuel(lookup, 4);
}

impl StateStore {
    /// The state that a file holds; a blank one where the file is missing or cannot be
    /// read.
    pub fn load(file: Option<Vec<u8>>, max_forwarded: usize) -> (r: Self)
        ensures
            r@ == state_in(file_bytes(file), max_forwarded as nat),
            r.wf(),
    {
        match file {
            None => StateStore::with_max_forwarded(max_forwarded),
            Some(bytes) => match read_file(&bytes) {
                Some(p) => StateStore::restored(max_forwarded, p.0, p.1, p.2),
                None => StateStore::with_max_forwarded(max_forwarded),
            },
        }
    }

    /// The text to save, which is loaded as the same state again.
    pub fn text(&self) -> (r: String)
        requires
            self.wf(),
        ensures
            r@ == json_lines_of(state_file(self@)),
            state_in(Some(vstd::utf8::encode_utf8(r@)), self@.max) == self@,
    {
        broadcast use crate::json::object_view;

        let pairs = self.pairs();
        let ghost all = self@.forwarded;
        let mut table: Vec<(String, Json)> = Vec::new();
        let mut i: usize = 0;
        while i < pairs.len()
            invariant
                i <= pairs@.len(),
                all == pairs_of(pairs@),
                table@.len() == i,
                forall|k: int|
                    0 <= k < i ==> (#[trigger] table@[k]).0@ == all[k].0 && table@[k].1@
                        == int_json(all[k].1),
            decreases pairs@.len() - i,
        {
            table.push((pairs[i].0.clone(), json_int(pairs[i].1)));
            i = i + 1;
        }
        assert(members(table@) =~= table_members(all));
        let parts: Vec<(String, Json)> = vec![
            ("forwarded".to_owned(), Json::Object(table)),
            ("last_read_message_id".to_owned(), json_int(self.last_read)),
            ("refresh_token".to_owned(), json_str(self.token.as_str())),
        ];
        assert(members(parts@) =~= state_file(self@)->Object_0);
        let file = Json::Object(parts);
        let text = json_lines(&file);
        proof {
            lemma_state_file(self@);
            lemma_table(all);
            saved_is_restored(all);
        }
        text
    }
}

/// A file that is missing or broken keeps nobody from starting: the state is then blank.
pub proof fn a_broken_file_starts_anew(bytes: Seq<u8>, max: nat)
    requires
        match json_read(bytes) {
            Ok(j) => !(j is Object),
            Err(_) => true,
        },
    ensures
        state_in(Some(bytes), max) == blank_state(max),
        state_in(None, max) == blank_state(max),
{
}

/// What a list gives for a key is the value of the last pair with it; nothing is found
/// only where no pair has the key.
pub proof fn the_last_pair_is_found<K, V>(s: Seq<(K, V)>, key: K)
    ensures
        match pair_value(s, key) {
            Some(v) => s.contains((key, v)),
            None => forall|i: int| 0 <= i < s.len() ==> (#[trigger] s[i]).0 != key,
        },
        keys_differ(s) ==> forall|i: int|
            0 <= i < s.len() && (#[trigger] s[i]).0 == key ==> pair_value(s, key) == Some(s[i].1),
    decreases s.len(),
{
    if s.len() > 0 {
        let n = s.len() - 1;
        let init = s.drop_last();
        if s.last().0 == key {
            assert(s[n] == (key, s.last().1));
            if keys_differ(s) {
                assert forall|i: int| 0 <= i < s.len() && (#[trigger] s[i]).0
                    == key implies pair_value(s, key) == Some(s[i].1) by {
                    if i < n {
                        assert(s[i].0 != s[n].0);
                    }
                }
            }
        } else {
            the_last_pair_is_found(init, key);
            if keys_differ(s) {
                assert forall|i: int, j: int| 0 <= i < j < init.len() implies (
                #[trigger] init[i]).0 != (#[trigger] init[j]).0 by {
                    assert(s[i].0 != s[j].0);
                }
                assert forall|i: int| 0 <= i < s.len() && (#[trigger] s[i]).0
                    == key implies pair_value(s, key) == Some(s[i].1) by {
                    assert(init[i] == s[i]);
                }
            }
            match pair_value(init, key) {
                Some(v) => {
                    let i = choose|i: int| 0 <= i < init.len() && init[i] == (key, v);
                    assert(s[i] == (key, v));
                },
                None => {
                    assert forall|i: int| 0 <= i < s.len() implies (#[trigger] s[i]).0 != key by {
                        if i < n {
                            assert(init[i] == s[i]);
                        }
                    }
                },
            }
        }
    }
}

/// A pair that is put into a list is found under its key from then on, and every other
/// key gives what it gave before; keys that differed still do, and the list grows only
/// where the key is new.
pub proof fn a_pair_is_put<K, V>(s: Seq<(K, V)>, key: K, value: V, other: K)
    requires
        keys_differ(s),
    ensures
        keys_differ(with_pair(s, key, value)),
        pair_value(with_pair(s, key, value), key) == Some(value),
        other != key ==> pair_value(with_pair(s, key, value), other) == pair_value(s, other),
        with_pair(s, key, value).len() == if pair_value(s, key) is Some {
            s.len()
        } else {
            s.len() + 1
        },
{
    let t = with_pair(s, key, value);
    the_last_pair_is_found(s, key);
    the_last_pair_is_found(s, other);
    the_last_pair_is_found(t, key);
    the_last_pair_is_found(t, other);
    assert(keys_differ(t)) by {
        assert forall|i: int, j: int| 0 <= i < j < t.len() implies (#[trigger] t[i]).0 != (
        #[trigger] t[j]).0 by {
            if pair_value(s, key) is Some {
                assert(s[i].0 != s[j].0);
                assert(t[i].0 == s[i].0);
                assert(t[j].0 == s[j].0);
            } else if j < s.len() {
                assert(s[i].0 != s[j].0);
            } else {
                assert(s[i].0 != key);
            }
        }
    }
    if pair_value(s, key) is Some {
        let i = choose|i: int| 0 <= i < s.len() && s[i] == (key, pair_value(s, key)->0);
        assert(t[i] == (key, value));
        assert(t[i].0 == key);
    } else {
        assert(t[s.len() as int] == (key, value));
        assert(t[s.len() as int].0 == key);
    }
    if other != key {
        match pair_value(s, other) {
            Some(v) => {
                let i = choose|i: int| 0 <= i < s.len() && s[i] == (other, v);
                assert(t[i] == s[i]);
                assert(t[i].0 == other);
            },
            None => {
                if pair_value(t, other) is Some {
                    let v = pair_value(t, other)->0;
                    let i = choose|i: int| 0 <= i < t.len() && t[i] == (other, v);
                    assert(i < s.len());
                    assert(s[i].0 == other);
                }
            },
        }
    }
}

/// What is kept of a list is its end, as long as it may be: what goes are the oldest
/// pairs.
pub proof fn the_oldest_go<K, V>(s: Seq<(K, V)>, max: nat)
    ensures
        newest(s, max).len() == if s.len() < max {
            s.len()
        } else {
            max
        },
        forall|i: int|
            0 <= i < newest(s, max).len() ==> #[trigger] newest(s, max)[i] == s[s.len() - newest(
                s,
                max,
            ).len() + i],
{
}

/// The last pair of a list stays where any may, and is found under its key.
pub proof fn the_last_pair_stays<K, V>(s: Seq<(K, V)>, key: K, value: V, max: nat)
    requires
        keys_differ(s),
        s.len() <= max,
        max >= 1,
    ensures
        pair_value(newest(with_pair(s, key, value), max), key) == Some(value),
{
    let t = with_pair(s, key, value);
    a_pair_is_put(s, key, value, key);
    if t.len() <= max {
    } else {
        let n = newest(t, max);
        assert(n.last() == t.last());
        assert(t.last() == (key, value));
    }
}

/// What is written to the file is what is read from it: the messages that were forwarded,
/// how far was read and the token.
pub proof fn a_written_state_is_read_back(v: StateV, bytes: Seq<u8>, max: nat)
    requires
        json_read(bytes) == Ok::<JsonV, Text>(state_file(v)),
        keys_differ(v.forwarded),
    ensures
        state_in(Some(bytes), max) == (StateV { max, ..v }),
        state_in(None, max).forwarded.len() == 0,
        state_in(None, max).last_read == 0,
        state_in(None, max).token.len() == 0,
{
    reveal_strlit("forwarded");
    reveal_strlit("last_read_message_id");
    reveal_strlit("refresh_token");
    let t = table_members(v.forwarded);
    match state_file(v) {
        JsonV::Object(m) => {
            assert(m[0].0 == "forwarded"@ && m[1].0 == "last_read_message_id"@ && m[2].0
                == "refresh_token"@);
            assert("forwarded"@.len() == 9 && "last_read_message_id"@.len() == 20
                && "refresh_token"@.len() == 13);
            crate::json::a_member_is_found(m, 0);
            crate::json::a_member_is_found(m, 1);
            crate::json::a_member_is_found(m, 2);
        },
        _ => {},
    }
    assert forall|i: int| 0 <= i < t.len() implies (#[trigger] t[i]).1.as_int() == Some(
        v.forwarded[i].1,
    ) by {
        crate::json::numbers_are_shown_in_digits(v.forwarded[i].1, Seq::empty());
    }
    crate::json::numbers_are_shown_in_digits(v.last_read, Seq::empty());
    assert(table_in(t) is Some);
    assert(table_in(t)->0 =~= v.forwarded);
    saved_is_restored(v.forwarded);
}

} // verus!
