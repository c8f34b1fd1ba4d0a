//! JSON values as plain data.
//!
//! Texts are read and written by serde_json; everything that looks into a value
//! works on [`Json`], whose meaning is its view [`JsonV`].

use crate::state::{pair_value, with_pair};
use crate::text::{decimal, i64_text, int_text, same, u64_text, Text};
use vstd::prelude::*;

verus! {

/// `serde_json::Value`, carried from a parse to its conversion and back.
#[verifier::external_type_specification]
#[verifier::external_body]
pub struct ExValue(serde_json::Value);

/// A JSON number.
#[derive(Debug)]
pub enum Number {
    /// A non-negative integer.
    Pos(u64),
    /// A negative integer.
    Neg(i64),
    /// A number with a fraction or an exponent, by its text.
    Real(String),
}

/// What a [`Number`] holds.
pub enum NumberV {
    Pos(u64),
    Neg(i64),
    Real(Text),
}

/// A JSON value. The members of an object stand in a list; where a key occurs
/// twice, the first member counts.
#[derive(Debug)]
pub enum Json {
    Null,
    Bool(bool),
    Num(Number),
    Str(String),
    Array(Vec<Json>),
    Object(Vec<(String, Json)>),
}

/// What a [`Json`] holds.
pub enum JsonV {
    Null,
    Bool(bool),
    Num(NumberV),
    Str(Text),
    Array(Seq<JsonV>),
    Object(Seq<(Text, JsonV)>),
}

impl View for Number {
    type V = NumberV;

    open spec fn view(&self) -> NumberV {
        match self {
            Number::Pos(n) => NumberV::Pos(*n),
            Number::Neg(n) => NumberV::Neg(*n),
            Number::Real(s) => NumberV::Real(s@),
        }
    }
}

/// What `j` holds.
pub open spec fn held(j: Json) -> JsonV
    decreases j,
{
    match j {
        Json::Null => JsonV::Null,
        Json::Bool(b) => JsonV::Bool(b),
        Json::Num(n) => JsonV::Num(n@),
        Json::Str(s) => JsonV::Str(s@),
        Json::Array(v) => JsonV::Array(
            Seq::new(
                v@.len(),
                |i: int|
                    if 0 <= i < v@.len() {
                        held(v@[i])
                    } else {
                        JsonV::Null
                    },
            ),
        ),
        Json::Object(v) => JsonV::Object(
            Seq::new(
                v@.len(),
                |i: int|
                    if 0 <= i < v@.len() {
                        (v@[i].0@, held(v@[i].1))
                    } else {
                        (Seq::<char>::empty(), JsonV::Null)
                    },
            ),
        ),
    }
}

impl View for Json {
    type V = JsonV;

    open spec fn view(&self) -> JsonV {
        held(*self)
    }
}

/// The values that a list holds.
pub open spec fn items(v: Seq<Json>) -> Seq<JsonV> {
    Seq::new(v.len(), |i: int| v[i]@)
}

/// The members that a list holds.
pub open spec fn members(v: Seq<(String, Json)>) -> Seq<(Text, JsonV)> {
    Seq::new(v.len(), |i: int| (v[i].0@, v[i].1@))
}

/// What an array holds.
pub broadcast proof fn array_view(v: Vec<Json>)
    ensures
        #[trigger] Json::Array(v)@ == JsonV::Array(items(v@)),
{
    match Json::Array(v)@ {
        JsonV::Array(s) => assert(s =~= items(v@)),
        _ => assert(false),
    }
}

/// What an object holds.
pub broadcast proof fn object_view(v: Vec<(String, Json)>)
    ensures
        #[trigger] Json::Object(v)@ == JsonV::Object(members(v@)),
{
    match Json::Object(v)@ {
        JsonV::Object(s) => assert(s =~= members(v@)),
        _ => assert(false),
    }
}

/// The value under `key` in a list of members: the first that has it.
pub open spec fn lookup(m: Seq<(Text, JsonV)>, key: Text) -> Option<JsonV>
    decreases m.len(),
{
    if m.len() == 0 {
        None
    } else if m[0].0 == key {
        Some(m[0].1)
    } else {
        lookup(m.subrange(1, m.len() as int), key)
    }
}

impl JsonV {
    /// The member of an object under `key`; nothing for any other value.
    pub open spec fn field(self, key: Text) -> Option<JsonV> {
        match self {
            JsonV::Object(m) => lookup(m, key),
            _ => None,
        }
    }

    /// The text of a string.
    pub open spec fn as_text(self) -> Option<Text> {
        match self {
            JsonV::Str(s) => Some(s),
            _ => None,
        }
    }

    /// The integer that a number is, where it is one that fits in an `i64`.
    pub open spec fn as_int(self) -> Option<i64> {
        match self {
            JsonV::Num(NumberV::Pos(n)) => if n <= i64::MAX {
                Some(n as i64)
            } else {
                None
            },
            JsonV::Num(NumberV::Neg(n)) => Some(n),
            _ => None,
        }
    }

    /// The integer that a number is, where it is not negative.
    pub open spec fn as_nat(self) -> Option<u64> {
        match self {
            JsonV::Num(NumberV::Pos(n)) => Some(n),
            _ => None,
        }
    }

    /// The truth value.
    pub open spec fn as_truth(self) -> Option<bool> {
        match self {
            JsonV::Bool(b) => Some(b),
            _ => None,
        }
    }

    /// The items of an array.
    pub open spec fn as_items(self) -> Option<Seq<JsonV>> {
        match self {
            JsonV::Array(s) => Some(s),
            _ => None,
        }
    }
}

/// The text of a number.
pub open spec fn number_text(n: NumberV) -> Text {
    match n {
        NumberV::Pos(n) => decimal(n as nat),
        NumberV::Neg(n) => int_text(n as int),
        NumberV::Real(t) => t,
    }
}

impl Number {
    /// The text of the number.
    pub fn text(&self) -> (r: String)
        ensures
            r@ == number_text(self@),
    {
        match self {
            Number::Pos(n) => u64_text(*n),
            Number::Neg(n) => i64_text(*n),
            Number::Real(t) => t.clone(),
        }
    }

    /// The same number again.
    pub fn copy(&self) -> (r: Number)
        ensures
            r@ == self@,
    {
        match self {
            Number::Pos(n) => Number::Pos(*n),
            Number::Neg(n) => Number::Neg(*n),
            Number::Real(t) => Number::Real(t.clone()),
        }
    }
}

/// The first member under `key`.
pub fn find_member<'a>(m: &'a Vec<(String, Json)>, key: &str) -> (r: Option<&'a Json>)
    ensures
        match r {
            Some(j) => lookup(members(m@), key@) == Some(j@),
            None => lookup(members(m@), key@) is None,
        },
{
    let mut i: usize = 0;
    let ghost all = members(m@);
    assert(all.subrange(0, all.len() as int) =~= all);
    while i < m.len()
        invariant
            i <= m@.len(),
            all == members(m@),
            lookup(all, key@) == lookup(all.subrange(i as int, all.len() as int), key@),
        decreases m@.len() - i,
    {
        let ghost rest = all.subrange(i as int, all.len() as int);
        assert(rest[0] == (m@[i as int].0@, m@[i as int].1@));
        assert(rest.subrange(1, rest.len() as int) =~= all.subrange(i + 1, all.len() as int));
        if same(m[i].0.as_str(), key) {
            return Some(&m[i].1);
        }
        i = i + 1;
    }
    None
}

impl Json {
    /// The member of an object under `key`.
    pub fn get(&self, key: &str) -> (r: Option<&Json>)
        ensures
            match r {
                Some(j) => self@.field(key@) == Some(j@),
                None => self@.field(key@) is None,
            },
    {
        broadcast use object_view;

        match self {
            Json::Object(m) => {
                assert(self@ == Json::Object(*m)@);
                find_member(m, key)
            },
            _ => None,
        }
    }

    /// The text of a string.
    pub fn as_str(&self) -> (r: Option<&String>)
        ensures
            match r {
                Some(s) => self@.as_text() == Some(s@),
                None => self@.as_text() is None,
            },
    {
        match self {
            Json::Str(s) => Some(s),
            _ => None,
        }
    }

    /// The integer that a number is.
    pub fn as_i64(&self) -> (r: Option<i64>)
        ensures
            r == self@.as_int(),
    {
        match self {
            Json::Num(Number::Pos(n)) => if *n <= 0x7fff_ffff_ffff_ffff {
                Some(*n as i64)
            } else {
                None
            },
            Json::Num(Number::Neg(n)) => Some(*n),
            _ => None,
        }
    }

    /// The integer that a number is, where it is not negative.
    pub fn as_u64(&self) -> (r: Option<u64>)
        ensures
            r == self@.as_nat(),
    {
        match self {
            Json::Num(Number::Pos(n)) => Some(*n),
            _ => None,
        }
    }

    /// The truth value.
    pub fn as_bool(&self) -> (r: Option<bool>)
        ensures
            r == self@.as_truth(),
    {
        match self {
            Json::Bool(b) => Some(*b),
            _ => None,
        }
    }

    /// The items of an array.
    pub fn as_array(&self) -> (r: Option<&Vec<Json>>)
        ensures
            match r {
                Some(v) => self@.as_items() == Some(items(v@)),
                None => self@.as_items() is None,
            },
    {
        broadcast use array_view;

        match self {
            Json::Array(v) => {
                assert(self@ == Json::Array(*v)@);
                Some(v)
            },
            _ => None,
        }
    }

    /// The same value again.
    pub fn copy(&self) -> (r: Json)
        ensures
            r@ == self@,
        decreases self,
    {
        broadcast use {array_view, object_view};

        match self {
            Json::Null => Json::Null,
            Json::Bool(b) => Json::Bool(*b),
            Json::Num(n) => Json::Num(n.copy()),
            Json::Str(s) => Json::Str(s.clone()),
            Json::Array(v) => {
                assert(self@ == Json::Array(*v)@);
                Json::Array(copy_items(v))
            },
            Json::Object(v) => {
                assert(self@ == Json::Object(*v)@);
                Json::Object(copy_members(v))
            },
        }
    }
}

/// The same values again.
pub fn copy_items(v: &Vec<Json>) -> (r: Vec<Json>)
    ensures
        items(r@) == items(v@),
    decreases v,
{
    let mut out: Vec<Json> = Vec::new();
    let mut i: usize = 0;
    assert(items(out@) =~= items(v@).take(0));
    while i < v.len()
        invariant
            i <= v@.len(),
            items(out@) == items(v@).take(i as int),
        decreases v@.len() - i,
    {
        proof {
            assert(decreases_to!(*v => v@));
            assert(decreases_to!(v@ => v@[i as int]));
        }
        let x = v[i].copy();
        assert(items(out@.push(x)) =~= items(out@).push(x@));
        out.push(x);
        assert(items(v@).take(i + 1) =~= items(v@).take(i as int).push(v@[i as int]@));
        i = i + 1;
    }
    assert(items(v@).take(i as int) =~= items(v@));
    out
}

/// The same members again.
pub fn copy_members(v: &Vec<(String, Json)>) -> (r: Vec<(String, Json)>)
    ensures
        members(r@) == members(v@),
    decreases v,
{
    let mut out: Vec<(String, Json)> = Vec::new();
    let mut i: usize = 0;
    assert(members(out@) =~= members(v@).take(0));
    while i < v.len()
        invariant
            i <= v@.len(),
            members(out@) == members(v@).take(i as int),
        decreases v@.len() - i,
    {
        proof {
            assert(decreases_to!(*v => v@));
            assert(decreases_to!(v@ => v@[i as int]));
            assert(decreases_to!(v@[i as int] => v@[i as int].1));
        }
        let x = (v[i].0.clone(), v[i].1.copy());
        assert(members(out@.push(x)) =~= members(out@).push((x.0@, x.1@)));
        out.push(x);
        assert(members(v@).take(i + 1) =~= members(v@).take(i as int).push(
            (v@[i as int].0@, v@[i as int].1@),
        ));
        i = i + 1;
    }
    assert(members(v@).take(i as int) =~= members(v@));
    out
}

/// What serde_json reads from a text, or why it refuses the text.
pub uninterp spec fn json_read(bytes: Seq<u8>) -> Result<JsonV, Seq<char>>;

/// What a `serde_json::Value` holds.
pub uninterp spec fn value_holds(v: serde_json::Value) -> JsonV;

/// The text that serde_json writes for a value.
pub uninterp spec fn json_written(j: JsonV) -> Seq<char>;

/// Calls `serde_json::from_slice` for a `serde_json::Value`: reads one JSON
/// value from the bytes, or fails with an error that describes itself. Both
/// depend on the bytes alone.
#[verifier::external_body]
fn parse_value(bytes: &[u8]) -> (r: Result<serde_json::Value, String>)
    ensures
        match r {
            Ok(v) => json_read(bytes@) == Ok::<JsonV, Text>(value_holds(v)),
            Err(e) => json_read(bytes@) == Err::<JsonV, Text>(e@),
        },
{
    serde_json::from_slice(bytes).map_err(|e| e.to_string())
}

/// Takes a `serde_json::Value` apart, variant by variant; `Number::as_u64` and
/// `Number::as_i64` tell the kinds of number apart.
#[verifier::external_body]
fn from_value(v: serde_json::Value) -> (r: Json)
    ensures
        r@ == value_holds(v),
{
    match v {
        serde_json::Value::Null => Json::Null,
        serde_json::Value::Bool(b) => Json::Bool(b),
        serde_json::Value::Number(n) => Json::Num(match (n.as_u64(), n.as_i64()) {
            (Some(u), _) => Number::Pos(u),
            (None, Some(i)) => Number::Neg(i),
            (None, None) => Number::Real(n.to_string()),
        }),
        serde_json::Value::String(s) => Json::Str(s),
        serde_json::Value::Array(a) => Json::Array(a.into_iter().map(from_value).collect()),
        serde_json::Value::Object(m) => Json::Object(m.into_iter().map(|(k, x)| (k, from_value(x))).collect()),
    }
}

/// Reads one JSON value from `bytes`.
pub fn parse_json(bytes: &[u8]) -> (r: Result<Json, String>)
    ensures
        match r {
            Ok(j) => json_read(bytes@) == Ok::<JsonV, Text>(j@),
            Err(e) => json_read(bytes@) == Err::<JsonV, Text>(e@),
        },
{
    match parse_value(bytes) {
        Ok(v) => Ok(from_value(v)),
        Err(e) => Err(e),
    }
}

/// Greatest depth of the values that are said to come through a text unchanged.
pub const EXACT_DEPTH: usize = 100;

/// Whether a value of at most this depth comes through a text unchanged: each number in
/// it is an integer of the right sign, and the keys of each object differ.
pub open spec fn exact_to(j: JsonV, depth: nat) -> bool
    decreases depth,
{
    match j {
        JsonV::Null => true,
        JsonV::Bool(_) => true,
        JsonV::Num(NumberV::Pos(_)) => true,
        JsonV::Num(NumberV::Neg(n)) => n < 0,
        JsonV::Num(NumberV::Real(_)) => false,
        JsonV::Str(_) => true,
        JsonV::Array(s) => depth > 0 && forall|i: int|
            0 <= i < s.len() ==> exact_to(#[trigger] s[i], (depth - 1) as nat),
        JsonV::Object(m) => {
            &&& depth > 0
            &&& forall|i: int| 0 <= i < m.len() ==> exact_to((#[trigger] m[i]).1, (depth - 1) as nat)
            &&& forall|i: int, k: int| 0 <= i < k < m.len() ==> m[i].0 != m[k].0
        },
    }
}

/// Whether a value comes through a text unchanged.
pub open spec fn is_exact(j: JsonV) -> bool {
    exact_to(j, EXACT_DEPTH as nat)
}

/// Whether a text reads as a value.
pub open spec fn reads_as(text: Text, j: JsonV) -> bool {
    match json_read(vstd::utf8::encode_utf8(text)) {
        Ok(back) => back == j,
        Err(_) => false,
    }
}

/// Members as a map takes them one after the other: of equal keys it keeps the place
/// of the first and the value of the last.
pub open spec fn merged(m: Seq<(Text, JsonV)>) -> Seq<(Text, JsonV)>
    decreases m.len(),
{
    if m.len() == 0 {
        m
    } else {
        with_pair(merged(m.drop_last()), m.last().0, m.last().1)
    }
}

/// What a value is to serde_json: a number with a fraction or an exponent is what its
/// text reads as, an integer has the kind of its sign, and the members of an object are
/// merged.
pub open spec fn settled(j: JsonV) -> JsonV
    decreases j,
{
    match j {
        JsonV::Num(NumberV::Neg(n)) => if n >= 0 {
            JsonV::Num(NumberV::Pos(n as u64))
        } else {
            j
        },
        JsonV::Num(NumberV::Real(t)) => match json_read(vstd::utf8::encode_utf8(t)) {
            Ok(v) => v,
            Err(_) => JsonV::Null,
        },
        JsonV::Array(s) => JsonV::Array(
            Seq::new(
                s.len(),
                |i: int|
                    if 0 <= i < s.len() {
                        settled(s[i])
                    } else {
                        JsonV::Null
                    },
            ),
        ),
        JsonV::Object(m) => JsonV::Object(
            merged(
                Seq::new(
                    m.len(),
                    |i: int|
                        if 0 <= i < m.len() {
                            (m[i].0, settled(m[i].1))
                        } else {
                            (Seq::<char>::empty(), JsonV::Null)
                        },
                ),
            ),
        ),
        _ => j,
    }
}

/// Members whose keys differ are merged to what they are.
proof fn lemma_merged(m: Seq<(Text, JsonV)>)
    requires
        forall|i: int, k: int| 0 <= i < k < m.len() ==> m[i].0 != m[k].0,
    ensures
        merged(m) == m,
    decreases m.len(),
{
    if m.len() > 0 {
        let init = m.drop_last();
        lemma_merged(init);
        lemma_no_pair(init, m.last().0);
        assert(init.push(m.last()) =~= m);
    }
}

/// A key that stands in no pair has no value.
proof fn lemma_no_pair(m: Seq<(Text, JsonV)>, key: Text)
    requires
        forall|i: int| 0 <= i < m.len() ==> (#[trigger] m[i]).0 != key,
    ensures
        pair_value(m, key) is None,
    decreases m.len(),
{
    if m.len() > 0 {
        assert(m.last() == m[m.len() - 1]);
        lemma_no_pair(m.drop_last(), key);
    }
}

/// An exact value is to serde_json what it is.
proof fn lemma_settled(j: JsonV, depth: nat)
    requires
        exact_to(j, depth),
    ensures
        settled(j) == j,
    decreases depth,
{
    match j {
        JsonV::Array(s) => {
            assert forall|i: int| 0 <= i < s.len() implies settled(#[trigger] s[i]) == s[i] by {
                assert(exact_to(s[i], (depth - 1) as nat));
                lemma_settled(s[i], (depth - 1) as nat);
            }
            assert(settled(j)->Array_0 =~= s);
        },
        JsonV::Object(m) => {
            assert forall|i: int| 0 <= i < m.len() implies settled((#[trigger] m[i]).1) == m[i].1 by {
                assert(exact_to(m[i].1, (depth - 1) as nat));
                lemma_settled(m[i].1, (depth - 1) as nat);
            }
            lemma_merged(m);
            assert forall|t: Seq<(Text, JsonV)>|
                t.len() == m.len() && (forall|i: int|
                    0 <= i < m.len() ==> #[trigger] t[i] == (m[i].0, settled(m[i].1)))
                implies #[trigger] merged(t) == m by {
                assert(t =~= m);
            }
        },
        _ => {},
    }
}

/// Builds a `serde_json::Value`, variant by variant; the members of an object
/// are collected into a `serde_json::Map`, which keeps them in their order, and the text
/// of a real number is read by `serde_json::from_str`.
#[verifier::external_body]
fn to_value(j: &Json) -> (r: serde_json::Value)
    ensures
        value_holds(r) == settled(j@),
{
    match j {
        Json::Null => serde_json::Value::Null,
        Json::Bool(b) => serde_json::Value::Bool(*b),
        Json::Num(Number::Pos(n)) => serde_json::Value::from(*n),
        Json::Num(Number::Neg(n)) => serde_json::Value::from(*n),
        Json::Num(Number::Real(t)) => serde_json::from_str(t).unwrap_or(serde_json::Value::Null),
        Json::Str(s) => serde_json::Value::from(s.as_str()),
        Json::Array(v) => serde_json::Value::Array(v.iter().map(to_value).collect()),
        Json::Object(m) => serde_json::Value::Object(m.iter().map(|(k, x)| (k.clone(), to_value(x))).collect()),
    }
}

/// Calls `to_string` on a `serde_json::Value`, which writes the value as compact
/// JSON. The text depends on the value alone; that of an exact value reads as that
/// value again, and that of an object ends with a brace. (serde_json is built here
/// without its feature `raw_value`, under which an object is read otherwise where its
/// first key is a certain word.)
#[verifier::external_body]
fn value_text(v: &serde_json::Value) -> (r: String)
    ensures
        r@ == json_written(value_holds(*v)),
        is_exact(value_holds(*v)) ==> reads_as(r@, value_holds(*v)),
        value_holds(*v) is Object ==> r@.len() > 0 && r@.last() == '}',
{
    v.to_string()
}

/// The text that serde_json writes for a value in lines.
pub uninterp spec fn json_in_lines(j: JsonV) -> Seq<char>;

/// Calls `serde_json::to_string_pretty`, which writes the value in lines; it does not
/// fail for a `serde_json::Value`. The text depends on the value alone, and that of an
/// exact value reads as that value again.
#[verifier::external_body]
fn value_lines(v: &serde_json::Value) -> (r: String)
    ensures
        r@ == json_in_lines(value_holds(*v)),
        is_exact(value_holds(*v)) ==> reads_as(r@, value_holds(*v)),
{
    serde_json::to_string_pretty(v).unwrap_or_default()
}

/// The text of a value as compact JSON.
pub open spec fn json_text_of(j: JsonV) -> Text {
    json_written(settled(j))
}

/// Writes `j` as compact JSON. What is written of an exact value reads as that value.
pub fn json_text(j: &Json) -> (r: String)
    ensures
        r@ == json_text_of(j@),
        is_exact(j@) ==> reads_as(r@, j@),
        is_exact(j@) && j@ is Object ==> r@.len() > 0 && r@.last() == '}',
{
    proof {
        if is_exact(j@) {
            lemma_settled(j@, EXACT_DEPTH as nat);
        }
    }
    value_text(&to_value(j))
}

/// The text of a value as JSON in lines.
pub open spec fn json_lines_of(j: JsonV) -> Text {
    json_in_lines(settled(j))
}

/// Writes `j` as JSON in lines. What is written of an exact value reads as that value.
pub fn json_lines(j: &Json) -> (r: String)
    ensures
        r@ == json_lines_of(j@),
        is_exact(j@) ==> reads_as(r@, j@),
{
    proof {
        if is_exact(j@) {
            lemma_settled(j@, EXACT_DEPTH as nat);
        }
    }
    value_lines(&to_value(j))
}

/// Whether the number that a JSON number text writes, taken as a double, equals
/// the integer taken as a double.
pub uninterp spec fn real_equals(text: Seq<char>, n: i64) -> bool;

/// The integers that doubles hold without rounding.
pub open spec fn is_small(n: int) -> bool {
    -0x20_0000_0000_0000 <= n <= 0x20_0000_0000_0000
}

/// Calls `serde_json::from_str` and `serde_json::Number::as_f64`: compares the
/// double that the text writes with the integer converted to a double; false
/// where the text writes no number. Integers of at most 53 bits are compared
/// exactly.
#[verifier::external_body]
pub(crate) fn number_equals(text: &str, n: i64) -> (r: bool)
    ensures
        r == real_equals(text@, n),
        is_small(n as int) ==> forall|k: int|
            is_small(k) && text@ == #[trigger] int_text(k) ==> r == (k == n),
{
    serde_json::from_str::<serde_json::Number>(text).ok().and_then(|x| x.as_f64()) == Some(n as _)
}

/// The integer part of the double that a JSON number text writes, brought into
/// the range of `i64`.
pub uninterp spec fn real_whole(text: Seq<char>) -> i64;

/// Calls `serde_json::from_str` and `serde_json::Number::as_f64`, and casts the
/// double to `i64`; 0 where the text writes no number. An integer of at most 53
/// bits is kept.
#[verifier::external_body]
pub(crate) fn number_whole(text: &str) -> (r: i64)
    ensures
        r == real_whole(text@),
        forall|k: int| is_small(k) && text@ == #[trigger] int_text(k) ==> r == k,
{
    serde_json::from_str::<serde_json::Number>(text).ok().and_then(|x| x.as_f64()).map_or(0, |x| x as i64)
}

/// The double that a JSON number text writes, in decimal with the given number
/// of digits behind the point.
pub uninterp spec fn real_fixed(text: Seq<char>, digits: nat) -> Seq<char>;

/// Calls `serde_json::from_str`, `serde_json::Number::as_f64` and std's
/// formatting with a fixed number of decimals. An integer of at most 53 bits is
/// written with as many zeros behind the point.
#[verifier::external_body]
pub(crate) fn number_fixed(text: &str, digits: u16) -> (r: String)
    ensures
        r@ == real_fixed(text@, digits as nat),
        digits > 0 ==> forall|k: int|
            is_small(k) && text@ == #[trigger] int_text(k) ==> r@ == int_text(k) + seq!['.']
                + Seq::new(digits as nat, |i: int| '0'),
{
    let x = serde_json::from_str::<serde_json::Number>(text).ok().and_then(|x| x.as_f64());
    format!("{:.*}", usize::from(digits), x.unwrap_or_default())
}

/// Whether a number is zero.
pub open spec fn is_zero(n: NumberV) -> bool {
    match n {
        NumberV::Pos(n) => n == 0,
        NumberV::Neg(n) => n == 0,
        NumberV::Real(t) => real_equals(t, 0),
    }
}

/// Whether a value counts as true: it is not null, false, zero or empty.
pub open spec fn truthy(j: JsonV) -> bool {
    match j {
        JsonV::Null => false,
        JsonV::Bool(b) => b,
        JsonV::Num(n) => !is_zero(n),
        JsonV::Str(s) => s.len() > 0,
        JsonV::Array(s) => s.len() > 0,
        JsonV::Object(m) => m.len() > 0,
    }
}

/// A value as text: a string is its own text, anything else is JSON.
pub open spec fn shown(j: JsonV) -> Text {
    match j {
        JsonV::Null => "null"@,
        JsonV::Bool(true) => "true"@,
        JsonV::Bool(false) => "false"@,
        JsonV::Num(n) => number_text(n),
        JsonV::Str(s) => s,
        _ => json_text_of(j),
    }
}

/// A value that counts as true as text; anything else is empty.
pub open spec fn shown_if_truthy(j: Option<JsonV>) -> Text {
    match j {
        Some(j) => if truthy(j) {
            shown(j)
        } else {
            Seq::<char>::empty()
        },
        None => Seq::<char>::empty(),
    }
}

/// What a borrowed value holds, where there is one.
pub open spec fn opt_view(j: Option<&Json>) -> Option<JsonV> {
    match j {
        Some(j) => Some(j@),
        None => None,
    }
}

impl Number {
    /// Whether the number is zero.
    pub fn zero(&self) -> (r: bool)
        ensures
            r == is_zero(self@),
    {
        match self {
            Number::Pos(n) => *n == 0,
            Number::Neg(n) => *n == 0,
            Number::Real(t) => number_equals(t.as_str(), 0),
        }
    }
}

impl Json {
    /// Whether the value counts as true.
    pub fn is_truthy(&self) -> (r: bool)
        ensures
            r == truthy(self@),
    {
        match self {
            Json::Null => false,
            Json::Bool(b) => *b,
            Json::Num(n) => !n.zero(),
            Json::Str(s) => !s.as_str().is_empty(),
            Json::Array(v) => v.len() > 0,
            Json::Object(m) => m.len() > 0,
        }
    }

    /// The value as text.
    pub fn show(&self) -> (r: String)
        ensures
            r@ == shown(self@),
    {
        match self {
            Json::Null => "null".to_owned(),
            Json::Bool(b) => if *b {
                "true".to_owned()
            } else {
                "false".to_owned()
            },
            Json::Num(n) => n.text(),
            Json::Str(s) => s.clone(),
            _ => json_text(self),
        }
    }
}

/// A value that counts as true as text; anything else is empty.
pub fn show_if_truthy(j: Option<&Json>) -> (r: String)
    ensures
        r@ == shown_if_truthy(opt_view(j)),
{
    match j {
        Some(j) => if j.is_truthy() {
            j.show()
        } else {
            String::new()
        },
        None => String::new(),
    }
}

/// An integer as JSON.
pub open spec fn int_json(n: i64) -> JsonV {
    if n >= 0 {
        JsonV::Num(NumberV::Pos(n as u64))
    } else {
        JsonV::Num(NumberV::Neg(n))
    }
}

/// An integer as JSON.
pub fn json_int(n: i64) -> (r: Json)
    ensures
        r@ == int_json(n),
{
    if n >= 0 {
        Json::Num(Number::Pos(n as u64))
    } else {
        Json::Num(Number::Neg(n))
    }
}

/// A list of members with one member.
pub fn member1(key: &str, value: Json) -> (r: Vec<(String, Json)>)
    ensures
        members(r@) == seq![(key@, value@)],
{
    let r: Vec<(String, Json)> = vec![(key.to_owned(), value)];
    assert(members(r@) =~= seq![(key@, value@)]);
    r
}

/// An object with one member.
pub fn object1(key: &str, value: Json) -> (r: Json)
    ensures
        r@ == JsonV::Object(seq![(key@, value@)]),
{
    broadcast use object_view;

    Json::Object(member1(key, value))
}

/// An array with one item.
pub fn array1(value: Json) -> (r: Json)
    ensures
        r@ == JsonV::Array(seq![value@]),
{
    broadcast use array_view;

    let v: Vec<Json> = vec![value];
    assert(items(v@) =~= seq![value@]);
    Json::Array(v)
}

/// A string as JSON.
pub fn json_str(s: &str) -> (r: Json)
    ensures
        r@ == JsonV::Str(s@),
{
    Json::Str(s.to_owned())
}

/// A value as text in which null is `None` and the truth values are capitalised.
pub open spec fn worded(j: JsonV) -> Text {
    match j {
        JsonV::Null => "None"@,
        JsonV::Bool(true) => "True"@,
        JsonV::Bool(false) => "False"@,
        _ => shown(j),
    }
}

impl Json {
    /// The value as text in which null is `None` and the truth values are
    /// capitalised.
    pub fn word(&self) -> (r: String)
        ensures
            r@ == worded(self@),
    {
        match self {
            Json::Null => "None".to_owned(),
            Json::Bool(b) => if *b {
                "True".to_owned()
            } else {
                "False".to_owned()
            },
            _ => self.show(),
        }
    }
}

/// The member under `key` as text, or `default` where there is none.
pub open spec fn worded_field(j: JsonV, key: Text, default: Text) -> Text {
    match j.field(key) {
        Some(v) => worded(v),
        None => default,
    }
}

/// The member under `key` as text, or `default` where there is none.
pub fn get_worded(j: &Json, key: &str, default: &str) -> (r: String)
    ensures
        r@ == worded_field(j@, key@, default@),
{
    match j.get(key) {
        Some(v) => v.word(),
        None => default.to_owned(),
    }
}

/// Whether the member under `key` is there and counts as true.
pub open spec fn truthy_field(j: JsonV, key: Text) -> bool {
    match j.field(key) {
        Some(v) => truthy(v),
        None => false,
    }
}

/// Whether the member under `key` is there and counts as true.
pub fn is_truthy_field(j: &Json, key: &str) -> (r: bool)
    ensures
        r == truthy_field(j@, key@),
{
    match j.get(key) {
        Some(v) => v.is_truthy(),
        None => false,
    }
}

/// The items of the array under `key`; none where there is no array.
pub open spec fn list_field(j: JsonV, key: Text) -> Seq<JsonV> {
    match j.field(key) {
        Some(JsonV::Array(s)) => s,
        _ => Seq::<JsonV>::empty(),
    }
}

/// The items of the array under `key`.
pub fn get_list(j: &Json, key: &str) -> (r: Vec<Json>)
    ensures
        items(r@) == list_field(j@, key@),
{
    match j.get(key) {
        Some(v) => match v.as_array() {
            Some(a) => copy_items(a),
            None => no_items(),
        },
        None => no_items(),
    }
}

/// A list without items.
fn no_items() -> (r: Vec<Json>)
    ensures
        items(r@) == Seq::<JsonV>::empty(),
{
    let none: Vec<Json> = Vec::new();
    assert(items(none@) =~= Seq::<JsonV>::empty());
    none
}

/// The number under `key` with `digits` decimals; `zero` where there is none.
pub open spec fn fixed_field(j: JsonV, key: Text, digits: nat, zero: Text) -> Text {
    match j.field(key) {
        Some(JsonV::Num(n)) => real_fixed(number_text(n), digits),
        _ => zero,
    }
}

/// The number under `key` with `digits` decimals.
pub fn get_fixed(j: &Json, key: &str, digits: u16, zero: &str) -> (r: String)
    ensures
        r@ == fixed_field(j@, key@, digits as nat, zero@),
{
    match j.get(key) {
        Some(Json::Num(n)) => number_fixed(n.text().as_str(), digits),
        _ => zero.to_owned(),
    }
}

/// What the body of a 200 reply says; null where there is none or it is no JSON.
pub open spec fn reply_json(reply: Option<(u16, Seq<u8>)>) -> JsonV {
    match reply {
        Some((status, body)) => if status == 200 {
            match json_read(body) {
                Ok(j) => j,
                Err(_) => JsonV::Null,
            }
        } else {
            JsonV::Null
        },
        None => JsonV::Null,
    }
}

/// A reply by its bytes.
pub open spec fn reply_bytes(reply: Option<(u16, Vec<u8>)>) -> Option<(u16, Seq<u8>)> {
    match reply {
        Some(p) => Some((p.0, p.1@)),
        None => None,
    }
}

/// What the body of a 200 reply says.
pub fn read_reply(reply: Option<(u16, Vec<u8>)>) -> (r: Json)
    ensures
        r@ == reply_json(reply_bytes(reply)),
{
    match reply {
        Some(p) => if p.0 == 200 {
            match parse_json(p.1.as_slice()) {
                Ok(j) => j,
                Err(_) => Json::Null,
            }
        } else {
            Json::Null
        },
        None => Json::Null,
    }
}

// ---- what the readings keep to ----

/// What is found under a key is the value of the first member of that key; nothing is
/// found only where no member has it.
pub proof fn the_first_member_is_found(m: Seq<(Text, JsonV)>, key: Text)
    ensures
        match lookup(m, key) {
            Some(v) => exists|i: int|
                0 <= i < m.len() && #[trigger] m[i] == (key, v) && forall|k: int|
                    0 <= k < i ==> (#[trigger] m[k]).0 != key,
            None => forall|i: int| 0 <= i < m.len() ==> (#[trigger] m[i]).0 != key,
        },
    decreases m.len(),
{
    if m.len() > 0 {
        if m[0].0 == key {
            assert(m[0] == (key, m[0].1));
        } else {
            let rest = m.subrange(1, m.len() as int);
            the_first_member_is_found(rest, key);
            match lookup(rest, key) {
                Some(v) => {
                    let i = choose|i: int|
                        0 <= i < rest.len() && #[trigger] rest[i] == (key, v) && forall|k: int|
                            0 <= k < i ==> (#[trigger] rest[k]).0 != key;
                    assert(m[i + 1] == (key, v));
                    assert forall|k: int| 0 <= k < i + 1 implies (#[trigger] m[k]).0 != key by {
                        if k > 0 {
                            assert(rest[k - 1] == m[k]);
                        }
                    }
                },
                None => {
                    assert forall|i: int| 0 <= i < m.len() implies (#[trigger] m[i]).0 != key by {
                        if i > 0 {
                            assert(rest[i - 1] == m[i]);
                        }
                    }
                },
            }
        }
    }
}

/// A member that stands at a place is found under its key where none before it has the
/// key.
pub proof fn a_member_is_found(m: Seq<(Text, JsonV)>, i: int)
    requires
        0 <= i < m.len(),
        forall|k: int| 0 <= k < i ==> (#[trigger] m[k]).0 != m[i].0,
    ensures
        lookup(m, m[i].0) == Some(m[i].1),
        JsonV::Object(m).field(m[i].0) == Some(m[i].1),
{
    the_first_member_is_found(m, m[i].0);
    match lookup(m, m[i].0) {
        Some(v) => {
            let j = choose|j: int|
                0 <= j < m.len() && #[trigger] m[j] == (m[i].0, v) && forall|k: int|
                    0 <= k < j ==> (#[trigger] m[k]).0 != m[i].0;
            if j < i {
                assert(m[j].0 != m[i].0);
            }
            if i < j {
                assert(m[i].0 != m[i].0);
            }
        },
        None => {
            assert(m[i].0 != m[i].0);
        },
    }
}

/// What counts as true: nothing that is missing, null, false, zero or empty does, and
/// everything else does.
pub proof fn truth_is_told_by_the_value(j: JsonV, key: Text, n: i64)
    ensures
        j.field(key) is None ==> !truthy_field(j, key),
        j.field(key) == Some(JsonV::Null) ==> !truthy_field(j, key),
        j.field(key) == Some(JsonV::Bool(false)) ==> !truthy_field(j, key),
        j.field(key) == Some(JsonV::Bool(true)) ==> truthy_field(j, key),
        j.field(key) == Some(int_json(n)) ==> truthy_field(j, key) == (n != 0),
        (j.field(key) matches Some(JsonV::Str(s)) ==> truthy_field(j, key) == (s.len() > 0)),
        (j.field(key) matches Some(JsonV::Array(s)) ==> truthy_field(j, key) == (s.len() > 0)),
        (j.field(key) matches Some(JsonV::Object(m)) ==> truthy_field(j, key) == (m.len() > 0)),
{
}

/// A number is written in its digits, whatever words are used for the rest, and is read
/// as the same number; a text is shown as it is.
pub proof fn numbers_are_shown_in_digits(n: i64, t: Text)
    ensures
        shown(int_json(n)) == int_text(n as int),
        worded(int_json(n)) == int_text(n as int),
        crate::text::int_value(shown(int_json(n))) == Some(n as int),
        int_json(n).as_int() == Some(n),
        n >= 0 ==> int_json(n).as_nat() == Some(n as u64),
        n < 0 ==> int_json(n).as_nat() is None,
        shown(JsonV::Str(t)) == t,
        worded(JsonV::Str(t)) == t,
        shown_if_truthy(Some(JsonV::Str(t))) == t,
{
    crate::text::a_number_is_read_back(n as int);
    assert(shown_if_truthy(Some(JsonV::Str(t))) =~= t);
}

/// A reply counts only where its status is the one of success and its body can be read.
pub proof fn only_a_good_reply_counts(reply: Option<(u16, Seq<u8>)>)
    ensures
        match reply {
            Some((status, body)) => {
                &&& status != 200 ==> reply_json(reply) == JsonV::Null
                &&& status == 200 ==> match json_read(body) {
                    Ok(j) => reply_json(reply) == j,
                    Err(_) => reply_json(reply) == JsonV::Null,
                }
            },
            None => reply_json(reply) == JsonV::Null,
        },
{
}

/// Of the members with one key the last one counts when they are put together, in the
/// place of the first; no key is lost and none comes twice.
pub proof fn the_last_member_counts(m: Seq<(Text, JsonV)>, key: Text)
    ensures
        crate::state::keys_differ(merged(m)),
        match crate::state::pair_value(merged(m), key) {
            Some(v) => exists|i: int|
                0 <= i < m.len() && #[trigger] m[i] == (key, v) && forall|k: int|
                    i < k < m.len() ==> (#[trigger] m[k]).0 != key,
            None => forall|i: int| 0 <= i < m.len() ==> (#[trigger] m[i]).0 != key,
        },
    decreases m.len(),
{
    if m.len() > 0 {
        let n = m.len() - 1;
        let init = m.drop_last();
        let before = merged(init);
        the_last_member_counts(init, key);
        crate::state::a_pair_is_put(before, m.last().0, m.last().1, key);
        if m.last().0 == key {
            assert(m[n] == (key, m.last().1));
        } else {
            match crate::state::pair_value(before, key) {
                Some(v) => {
                    let i = choose|i: int|
                        0 <= i < init.len() && #[trigger] init[i] == (key, v) && forall|k: int|
                            i < k < init.len() ==> (#[trigger] init[k]).0 != key;
                    assert(m[i] == (key, v));
                    assert forall|k: int| i < k < m.len() implies (#[trigger] m[k]).0 != key by {
                        if k < n {
                            assert(init[k] == m[k]);
                        }
                    }
                },
                None => {
                    assert forall|i: int| 0 <= i < m.len() implies (#[trigger] m[i]).0 != key by {
                        if i < n {
                            assert(init[i] == m[i]);
                        }
                    }
                },
            }
        }
    }
}

/// A figure is shown with as many digits as asked for, and as the given text where there
/// is no number; missing things are named as words.
pub proof fn figures_are_shown_with_their_digits(
    j: JsonV,
    key: Text,
    n: NumberV,
    digits: nat,
    zero: Text,
    default: Text,
)
    ensures
        j.field(key) == Some(JsonV::Num(n)) ==> fixed_field(j, key, digits, zero) == real_fixed(
            number_text(n),
            digits,
        ),
        j.field(key) is None ==> fixed_field(j, key, digits, zero) == zero,
        j.field(key) == Some(JsonV::Null) ==> fixed_field(j, key, digits, zero) == zero,
        j.field(key) is None ==> worded_field(j, key, default) == default,
        (j.field(key) matches Some(JsonV::Str(t)) ==> worded_field(j, key, default) == t),
        worded(JsonV::Null) == "None"@,
        worded(JsonV::Bool(true)) == "True"@,
        worded(JsonV::Bool(false)) == "False"@,
        shown(JsonV::Null) == "null"@,
        shown(JsonV::Bool(true)) == "true"@,
        shown(JsonV::Bool(false)) == "false"@,
        shown_if_truthy(None).len() == 0,
        shown_if_truthy(Some(JsonV::Null)).len() == 0,
{
}

/// A list is read as it stands, and as empty where there is none.
pub proof fn a_list_is_read_as_it_stands(j: JsonV, key: Text, s: Seq<JsonV>)
    ensures
        j.field(key) == Some(JsonV::Array(s)) ==> list_field(j, key) == s,
        j.field(key) is None ==> list_field(j, key).len() == 0,
        j.field(key) == Some(JsonV::Null) ==> list_field(j, key).len() == 0,
{
}

} // verus!
