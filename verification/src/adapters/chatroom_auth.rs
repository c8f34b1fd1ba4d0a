//! The user's access to the chatroom: a refresh token is exchanged for an access
//! token, and may be rotated on the way.
//!
//! Requests go out elsewhere. [`ChatroomAuth`] says what to send, takes the reply,
//! and says what to do next.

use crate::codec::{base64_decode, base64_decoded};
use crate::json::{
    is_zero, json_read, members, number_text, number_whole, parse_json, real_whole, Json, JsonV,
};
use crate::text::{
    all_digits, among, bytes_of, chars_of, drop_back, i64_value, is_digits, join2, parse_i64, pieces,
    same, split, texts, trim_end_of, Text,
};
use vstd::prelude::*;
use vstd::utf8::encode_utf8;

verus! {

pub const REFRESH_ENDPOINT: &'static str = "/api/auth/refresh";

/// Seconds before its end from which an access token is not used any more.
pub const REFRESH_MARGIN_SECS: i64 = 300;

/// Seconds for which an access token without an end is used.
pub const DEFAULT_LIFETIME_SECS: i64 = 1800;

/// The text under `key`: a string that is not empty, or a number that is not
/// zero; anything else is empty.
pub open spec fn text_or_number(data: JsonV, key: Text) -> Text {
    match data.field(key) {
        Some(JsonV::Str(s)) => s,
        Some(JsonV::Num(n)) => if is_zero(n) {
            Seq::<char>::empty()
        } else {
            number_text(n)
        },
        _ => Seq::<char>::empty(),
    }
}

/// The text under `key`.
pub fn json_str_field(data: &Json, key: &str) -> (r: String)
    ensures
        r@ == text_or_number(data@, key@),
{
    match data.get(key) {
        Some(Json::Str(s)) => s.clone(),
        Some(Json::Num(n)) => {
            if n.zero() {
                String::new()
            } else {
                n.text()
            }
        },
        _ => String::new(),
    }
}

/// The user number under `key`: an integer, or a string of digits that fits.
pub open spec fn user_id_under(payload: JsonV, key: Text) -> Option<i64> {
    match payload.field(key) {
        Some(JsonV::Num(n)) => JsonV::Num(n).as_int(),
        Some(JsonV::Str(s)) => if all_digits(s) {
            i64_value(s)
        } else {
            None
        },
        _ => None,
    }
}

/// The user number in a token: the first that is usable under `user_id`, `uid`,
/// `id` and `sub`.
pub open spec fn user_id_in(payload: JsonV) -> Option<i64> {
    if user_id_under(payload, "user_id"@) is Some {
        user_id_under(payload, "user_id"@)
    } else if user_id_under(payload, "uid"@) is Some {
        user_id_under(payload, "uid"@)
    } else if user_id_under(payload, "id"@) is Some {
        user_id_under(payload, "id"@)
    } else {
        user_id_under(payload, "sub"@)
    }
}

/// The user number under one key.
fn user_id_at(payload: &Json, key: &str) -> (r: Option<i64>)
    ensures
        r == user_id_under(payload@, key@),
{
    match payload.get(key) {
        Some(j) => match j {
            Json::Num(_) => j.as_i64(),
            Json::Str(s) => if is_digits(s.as_str()) {
                parse_i64(s.as_str())
            } else {
                None
            },
            _ => None,
        },
        None => None,
    }
}

/// The user number in a token.
pub fn extract_user_id(payload: &Json) -> (r: Option<i64>)
    ensures
        r == user_id_in(payload@),
{
    if let Some(v) = user_id_at(payload, "user_id") {
        return Some(v);
    }
    if let Some(v) = user_id_at(payload, "uid") {
        return Some(v);
    }
    if let Some(v) = user_id_at(payload, "id") {
        return Some(v);
    }
    user_id_at(payload, "sub")
}

/// A character of the URL-safe base64 alphabet in the standard one.
pub open spec fn standard_char(c: char) -> char {
    if c == '-' {
        '+'
    } else if c == '_' {
        '/'
    } else {
        c
    }
}

/// `n` equals signs.
pub open spec fn equals_signs(n: nat) -> Text {
    Seq::new(n, |i: int| '=')
}

/// A part of a token as standard base64, padded to a multiple of four bytes.
pub open spec fn standard_base64(part: Text) -> Text {
    let t = part.map_values(|c: char| standard_char(c));
    t + equals_signs(((4 - encode_utf8(t).len() % 4) % 4) as nat)
}

/// An object without members.
pub open spec fn empty_object() -> JsonV {
    JsonV::Object(Seq::<(Text, JsonV)>::empty())
}

/// What the bytes of a payload say; an empty object where they are no JSON.
pub open spec fn payload_in(bytes: Option<Seq<u8>>) -> JsonV {
    match bytes {
        Some(b) => match json_read(b) {
            Ok(j) => j,
            Err(_) => empty_object(),
        },
        None => empty_object(),
    }
}

/// What a JSON web token says: its second part, decoded; an empty object where
/// that fails. The signature is not looked at.
pub open spec fn jwt_payload(token: Text) -> JsonV {
    let p = pieces(token, '.');
    if p.len() < 2 {
        empty_object()
    } else {
        payload_in(base64_decoded(encode_utf8(standard_base64(p[1]))))
    }
}

/// A part of a token as standard base64.
fn to_standard_base64(part: &str) -> (r: String)
    ensures
        r@ == standard_base64(part@),
{
    let v = chars_of(part);
    let mut out = String::new();
    let mut i: usize = 0;
    let ghost t = part@.map_values(|c: char| standard_char(c));
    assert(out@ =~= t.take(0));
    while i < v.len()
        invariant
            i <= v@.len(),
            v@ == part@,
            t == part@.map_values(|c: char| standard_char(c)),
            out@ == t.take(i as int),
        decreases v@.len() - i,
    {
        let c = v[i];
        if c == '-' {
            out.push('+');
        } else if c == '_' {
            out.push('/');
        } else {
            out.push(c);
        }
        assert(out@ =~= t.take(i + 1));
        i = i + 1;
    }
    assert(out@ =~= t);
    let mut missing: usize = (4 - bytes_of(out.as_str()).len() % 4) % 4;
    let ghost all = missing as nat;
    assert(out@ =~= t + equals_signs(0));
    while missing > 0
        invariant
            missing <= all,
            out@ == t + equals_signs((all - missing) as nat),
        decreases missing,
    {
        out.push('=');
        assert(out@ =~= t + equals_signs((all - missing + 1) as nat));
        missing = missing - 1;
    }
    out
}

/// What the bytes of a payload say.
pub fn read_payload(bytes: Option<Vec<u8>>) -> (r: Json)
    ensures
        r@ == payload_in(
            match bytes {
                Some(b) => Some(b@),
                None => None,
            },
        ),
{
    broadcast use crate::json::object_view;

    if let Some(b) = bytes {
        if let Ok(j) = parse_json(b.as_slice()) {
            return j;
        }
    }
    let none: Vec<(String, Json)> = Vec::new();
    assert(members(none@) =~= Seq::<(Text, JsonV)>::empty());
    Json::Object(none)
}

/// What a JSON web token says.
pub fn decode_jwt_payload(token: &str) -> (r: Json)
    ensures
        r@ == jwt_payload(token@),
{
    let parts = split(token, '.');
    assert(texts(parts@).len() == parts@.len());
    if parts.len() < 2 {
        return read_payload(None);
    }
    let text = to_standard_base64(parts[1].as_str());
    read_payload(base64_decode(bytes_of(text.as_str()).as_slice()))
}

/// Who the user is to the chatroom.
#[derive(Debug)]
pub struct ChatroomAuth {
    pub base_url: String,
    /// The refresh token of the configuration.
    pub config_refresh_token: String,
    /// The refresh token in use.
    pub current_refresh_token: String,
    pub current_access_token: String,
    /// When the access token ends; 0 where there is none.
    pub expires_at: i64,
    pub current_user_id: Option<i64>,
}

/// What a [`ChatroomAuth`] holds.
pub struct AuthV {
    pub base_url: Text,
    pub config: Text,
    pub refresh: Text,
    pub access: Text,
    pub expires_at: i64,
    pub user_id: Option<i64>,
}

impl View for ChatroomAuth {
    type V = AuthV;

    open spec fn view(&self) -> AuthV {
        AuthV {
            base_url: self.base_url@,
            config: self.config_refresh_token@,
            refresh: self.current_refresh_token@,
            access: self.current_access_token@,
            expires_at: self.expires_at,
            user_id: self.current_user_id,
        }
    }
}

/// A request for a new access token: where it goes, and the refresh token it
/// carries.
#[derive(Debug)]
pub struct RefreshRequest {
    pub url: String,
    pub refresh_token: String,
}

/// What came of a reply.
#[derive(Debug)]
pub struct Refreshed {
    pub ok: bool,
    /// A rotated refresh token that has to be saved.
    pub persist: Option<String>,
}

/// What to do next to get hold of a usable access token.
#[derive(Debug)]
pub enum EnsureAction {
    /// Send this request.
    Post(RefreshRequest),
    /// Nothing more: this is whether the access token is usable.
    Answer(bool),
}

impl AuthV {
    /// The refresh token to send; empty where there is none.
    pub open spec fn to_send(self) -> Text {
        if self.refresh.len() == 0 {
            self.config
        } else {
            self.refresh
        }
    }

    /// Whether the access token can be used at time `now`.
    pub open spec fn is_fresh(self, now: i64) -> bool {
        self.access.len() > 0 && now <= self.expires_at - REFRESH_MARGIN_SECS
    }

    /// The state after a reply: a reply that is not a 200 with an access token
    /// changes nothing.
    pub open spec fn after_reply(self, reply: Option<(u16, Text)>, now: i64) -> AuthV {
        match accepted(reply) {
            None => self,
            Some(data) => {
                let access = text_or_number(data, "access_token"@);
                let rotated = text_or_number(data, "refresh_token"@);
                let payload = jwt_payload(access);
                AuthV {
                    access,
                    refresh: if rotated.len() > 0 {
                        rotated
                    } else {
                        self.refresh
                    },
                    expires_at: match payload.field("exp"@) {
                        Some(JsonV::Num(n)) => real_whole(number_text(n)),
                        _ => (now + DEFAULT_LIFETIME_SECS) as i64,
                    },
                    user_id: match user_id_in(payload) {
                        Some(u) => Some(u),
                        None => self.user_id,
                    },
                    ..self
                }
            },
        }
    }

    /// Whether a failed refresh leaves the configured token to try.
    pub open spec fn can_fall_back(self) -> bool {
        self.config.len() > 0 && self.refresh != self.config
    }

    /// The state after the configured token was put in place.
    pub open spec fn fallen_back(self) -> AuthV {
        AuthV { refresh: self.config, ..self }
    }

    /// The state after `previous` was put back.
    pub open spec fn put_back(self, previous: Text) -> AuthV {
        AuthV { refresh: previous, ..self }
    }
}

/// The data of a reply that grants an access token.
pub open spec fn accepted(reply: Option<(u16, Text)>) -> Option<JsonV> {
    match reply {
        Some((status, body)) => if status == 200 {
            match json_read(encode_utf8(body)) {
                Ok(data) => if text_or_number(data, "access_token"@).len() > 0 {
                    Some(data)
                } else {
                    None
                },
                Err(_) => None,
            }
        } else {
            None
        },
        None => None,
    }
}

/// The refresh token of a reply that has to be saved.
pub open spec fn to_persist(reply: Option<(u16, Text)>) -> Option<Text> {
    match accepted(reply) {
        Some(data) => if text_or_number(data, "refresh_token"@).len() > 0 {
            Some(text_or_number(data, "refresh_token"@))
        } else {
            None
        },
        None => None,
    }
}

/// A reply by its text.
pub open spec fn reply_v(reply: Option<(u16, String)>) -> Option<(u16, Text)> {
    match reply {
        Some(p) => Some((p.0, p.1@)),
        None => None,
    }
}

/// A string by its text.
pub open spec fn opt_text(s: Option<String>) -> Option<Text> {
    match s {
        Some(t) => Some(t@),
        None => None,
    }
}

impl ChatroomAuth {
    /// Without an access token yet. A token that was saved goes before the one of
    /// the configuration.
    pub fn new(base_url: &str, refresh_token: &str, persisted: &str) -> (r: Self)
        ensures
            r@ == (AuthV {
                base_url: drop_back(base_url@, among("/"@)),
                config: refresh_token@,
                refresh: if persisted@.len() == 0 {
                    refresh_token@
                } else {
                    persisted@
                },
                access: Seq::<char>::empty(),
                expires_at: 0,
                user_id: None,
            }),
    {
        ChatroomAuth {
            base_url: trim_end_of(base_url, "/"),
            config_refresh_token: refresh_token.to_owned(),
            current_refresh_token: if persisted.is_empty() {
                refresh_token.to_owned()
            } else {
                persisted.to_owned()
            },
            current_access_token: String::new(),
            expires_at: 0,
            current_user_id: None,
        }
    }

    /// The access token; empty where there is none.
    pub fn access_token(&self) -> (r: String)
        ensures
            r@ == self@.access,
    {
        self.current_access_token.clone()
    }

    /// The user's own number.
    pub fn user_id(&self) -> (r: Option<i64>)
        ensures
            r == self@.user_id,
    {
        self.current_user_id
    }

    /// Whether there is a refresh token.
    pub fn has_refresh_token(&self) -> (r: bool)
        ensures
            r == (self@.to_send().len() > 0),
    {
        !self.current_refresh_token.as_str().is_empty() || !self.config_refresh_token.as_str().is_empty()
    }

    /// The request that exchanges the refresh token; nothing where there is none.
    pub fn refresh_request(&self) -> (r: Option<RefreshRequest>)
        ensures
            r is Some <==> self@.to_send().len() > 0,
            r matches Some(q) ==> q.url@ == self@.base_url + REFRESH_ENDPOINT@
                && q.refresh_token@ == self@.to_send(),
    {
        let token = if self.current_refresh_token.as_str().is_empty() {
            self.config_refresh_token.clone()
        } else {
            self.current_refresh_token.clone()
        };
        if token.as_str().is_empty() {
            return None;
        }
        Some(
            RefreshRequest {
                url: join2(self.base_url.as_str(), REFRESH_ENDPOINT),
                refresh_token: token,
            },
        )
    }

    /// Takes the reply to a request: its status and body, or nothing where there
    /// was none.
    pub fn refresh(&mut self, reply: Option<(u16, String)>, now: i64) -> (r: Refreshed)
        requires
            now <= i64::MAX - DEFAULT_LIFETIME_SECS,
        ensures
            final(self)@ == old(self)@.after_reply(reply_v(reply), now),
            r.ok == (accepted(reply_v(reply)) is Some),
            opt_text(r.persist) == to_persist(reply_v(reply)),
    {
        let (status, body) = match reply {
            Some(p) => p,
            None => return Refreshed { ok: false, persist: None },
        };
        if status != 200 {
            return Refreshed { ok: false, persist: None };
        }
        let data = match parse_json(bytes_of(body.as_str()).as_slice()) {
            Ok(j) => j,
            Err(_) => return Refreshed { ok: false, persist: None },
        };
        let access = json_str_field(&data, "access_token");
        if access.as_str().is_empty() {
            return Refreshed { ok: false, persist: None };
        }
        let rotated = json_str_field(&data, "refresh_token");
        let payload = decode_jwt_payload(access.as_str());
        self.expires_at = match payload.get("exp") {
            Some(Json::Num(n)) => number_whole(n.text().as_str()),
            _ => now + DEFAULT_LIFETIME_SECS,
        };
        if let Some(u) = extract_user_id(&payload) {
            self.current_user_id = Some(u);
        }
        self.current_access_token = access;
        if rotated.as_str().is_empty() {
            Refreshed { ok: true, persist: None }
        } else {
            self.current_refresh_token = rotated.clone();
            Refreshed { ok: true, persist: Some(rotated) }
        }
    }

    /// Begins to get hold of a usable access token: one that is fresh is used, else
    /// the refresh token is exchanged.
    pub fn ensure_token(&self, now: i64) -> (r: EnsureAction)
        ensures
            match r {
                EnsureAction::Answer(b) => b == self@.is_fresh(now) && (b
                    || self@.to_send().len() == 0),
                EnsureAction::Post(q) => !self@.is_fresh(now) && self@.to_send().len() > 0
                    && q.url@ == self@.base_url + REFRESH_ENDPOINT@ && q.refresh_token@
                    == self@.to_send(),
            },
    {
        if !self.current_access_token.as_str().is_empty() && (now as i128) <= self.expires_at as i128
            - REFRESH_MARGIN_SECS as i128 {
            return EnsureAction::Answer(true);
        }
        match self.refresh_request() {
            Some(q) => EnsureAction::Post(q),
            None => EnsureAction::Answer(false),
        }
    }

    /// Takes the reply to the first request. Where it failed and the configuration
    /// holds another token, that one is put in place and tried; `previous` is then
    /// the token that it stands for.
    pub fn ensure_first(&mut self, reply: Option<(u16, String)>, now: i64) -> (r: (
        EnsureAction,
        Refreshed,
        Option<String>,
    ))
        requires
            now <= i64::MAX - DEFAULT_LIFETIME_SECS,
        ensures
            r.1.ok == (accepted(reply_v(reply)) is Some),
            opt_text(r.1.persist) == to_persist(reply_v(reply)),
            if accepted(reply_v(reply)) is Some {
                &&& final(self)@ == old(self)@.after_reply(reply_v(reply), now)
                &&& r.0 == EnsureAction::Answer(true)
                &&& r.2 is None
            } else if old(self)@.can_fall_back() {
                &&& final(self)@ == old(self)@.fallen_back()
                &&& r.0 is Post
                &&& r.0->Post_0.url@ == old(self)@.base_url + REFRESH_ENDPOINT@
                &&& r.0->Post_0.refresh_token@ == old(self)@.config
                &&& opt_text(r.2) == Some(old(self)@.refresh)
            } else {
                &&& final(self)@ == old(self)@
                &&& r.0 == EnsureAction::Answer(false)
                &&& r.2 is None
            },
    {
        let done = self.refresh(reply, now);
        if done.ok {
            return (EnsureAction::Answer(true), done, None);
        }
        if self.config_refresh_token.as_str().is_empty() || same(
            self.current_refresh_token.as_str(),
            self.config_refresh_token.as_str(),
        ) {
            return (EnsureAction::Answer(false), done, None);
        }
        let previous = self.current_refresh_token.clone();
        self.current_refresh_token = self.config_refresh_token.clone();
        match self.refresh_request() {
            Some(q) => (EnsureAction::Post(q), done, Some(previous)),
            None => (EnsureAction::Answer(false), done, None),
        }
    }

    /// Takes the reply to the second request; where it failed too, the token that
    /// was in use before is put back.
    pub fn ensure_second(
        &mut self,
        reply: Option<(u16, String)>,
        now: i64,
        previous: String,
    ) -> (r: Refreshed)
        requires
            now <= i64::MAX - DEFAULT_LIFETIME_SECS,
        ensures
            r.ok == (accepted(reply_v(reply)) is Some),
            opt_text(r.persist) == to_persist(reply_v(reply)),
            final(self)@ == if accepted(reply_v(reply)) is Some {
                old(self)@.after_reply(reply_v(reply), now)
            } else {
                old(self)@.put_back(previous@)
            },
    {
        let done = self.refresh(reply, now);
        if !done.ok {
            self.current_refresh_token = previous;
        }
        done
    }
}

/// Where both requests fail, the state is what it was before.
pub proof fn total_failure_changes_nothing(before: AuthV)
    requires
        before.can_fall_back(),
    ensures
        before.fallen_back().to_send() == before.config,
        before.fallen_back().put_back(before.refresh) == before,
{
}

// ---- what the tokens keep to ----

/// A token is used until five minutes before it runs out, and not after; without one
/// there is none to use.
pub proof fn a_token_is_used_while_it_lasts(a: AuthV, now: i64)
    ensures
        a.access.len() > 0 && now + 300 <= a.expires_at ==> a.is_fresh(now),
        now + 300 > a.expires_at ==> !a.is_fresh(now),
        a.access.len() == 0 ==> !a.is_fresh(now),
{
}

/// The newest refresh token is sent, and the configured one only where there is none.
pub proof fn the_newest_token_is_sent(a: AuthV)
    ensures
        a.refresh.len() > 0 ==> a.to_send() == a.refresh,
        a.refresh.len() == 0 ==> a.to_send() == a.config,
        a.can_fall_back() ==> a.fallen_back().to_send() == a.config && a.fallen_back().access
            == a.access,
        a.can_fall_back() <==> a.config.len() > 0 && a.refresh != a.config,
{
}

/// A reply that gives an access token is taken over: the token is the one of the reply,
/// a refresh token of the reply is kept and saved, and without one the old stays and
/// nothing is saved. Any other reply changes nothing.
pub proof fn a_reply_is_taken_over(
    a: AuthV,
    status: u16,
    body: Text,
    j: JsonV,
    access: Text,
    refresh: Text,
    now: i64,
)
    requires
        json_read(encode_utf8(body)) == Ok::<JsonV, Text>(j),
        j.field("access_token"@) == Some(JsonV::Str(access)),
        access.len() > 0,
    ensures
        ({
            let reply = Some((status, body));
            let b = a.after_reply(reply, now);
            &&& status != 200 ==> b == a && to_persist(reply) is None
            &&& status == 200 ==> b.access == access && b.config == a.config
            &&& status == 200 && j.field("refresh_token"@) == Some(JsonV::Str(refresh))
                && refresh.len() > 0 ==> b.refresh == refresh && to_persist(reply) == Some(refresh)
            &&& status == 200 && j.field("refresh_token"@) is None ==> b.refresh == a.refresh
                && to_persist(reply) is None
        }),
        a.after_reply(None, now) == a,
        to_persist(None) is None,
{
}

/// A reply without an access token, or one that cannot be read, is no login.
pub proof fn without_access_token_there_is_no_login(a: AuthV, status: u16, body: Text, now: i64)
    requires
        match json_read(encode_utf8(body)) {
            Ok(j) => j.field("access_token"@) is None || j.field("access_token"@) == Some(
                JsonV::Str(Seq::<char>::empty()),
            ),
            Err(_) => true,
        },
    ensures
        a.after_reply(Some((status, body)), now) == a,
        to_persist(Some((status, body))) is None,
{
}

/// What is saved is what will be sent next time.
pub proof fn what_is_saved_is_sent(a: AuthV, reply: Option<(u16, Text)>, now: i64)
    ensures
        (to_persist(reply) matches Some(t) ==> a.after_reply(reply, now).to_send() == t),
        to_persist(reply) is None ==> a.after_reply(reply, now).to_send() == a.to_send(),
{
}

/// Whom a token is of is told by the first of its fields `user_id`, `uid`, `id` and `sub`
/// that is a number, be it written as a number or in digits.
pub proof fn a_token_tells_its_user(j: JsonV, key: Text, n: i64)
    ensures
        j.field(key) == Some(crate::json::int_json(n)) ==> user_id_under(j, key) == Some(n),
        n >= 0 && j.field(key) == Some(JsonV::Str(crate::text::int_text(n as int)))
            ==> user_id_under(j, key) == Some(n),
        j.field("user_id"@) == Some(crate::json::int_json(n)) ==> user_id_in(j) == Some(n),
        j.field("user_id"@) is None && j.field("uid"@) == Some(crate::json::int_json(n))
            ==> user_id_in(j) == Some(n),
        j.field("user_id"@) is None && j.field("uid"@) is None && j.field("id"@) == Some(
            crate::json::int_json(n),
        ) ==> user_id_in(j) == Some(n),
        j.field("user_id"@) is None && j.field("uid"@) is None && j.field("id"@) is None && j.field(
            "sub"@,
        ) == Some(crate::json::int_json(n)) ==> user_id_in(j) == Some(n),
        j.field("user_id"@) is None && j.field("uid"@) is None && j.field("id"@) is None && j.field(
            "sub"@,
        ) is None ==> user_id_in(j) is None,
{
    crate::json::numbers_are_shown_in_digits(n, Seq::empty());
    crate::text::a_number_is_read_back(n as int);
}

/// The middle part of a token is what is read of it: tokens with the same middle part
/// read alike, whatever stands before and behind; a token without parts reads as empty.
pub proof fn the_middle_of_a_token_is_read(a: Text, b: Text, c: Text, d: Text, e: Text)
    requires
        !a.contains('.'),
        !b.contains('.'),
        !c.contains('.'),
        !d.contains('.'),
        !e.contains('.'),
    ensures
        jwt_payload(a + seq!['.'] + b + seq!['.'] + c) == jwt_payload(
            d + seq!['.'] + b + seq!['.'] + e,
        ),
        jwt_payload(a + seq!['.'] + b + seq!['.'] + c) == payload_in(
            base64_decoded(encode_utf8(standard_base64(b))),
        ),
        jwt_payload(a) == empty_object(),
{
    let x = seq![a, b, c];
    let y = seq![d, b, e];
    lemma_three(a, b, c);
    lemma_three(d, b, e);
    crate::text::joined_texts_come_apart(x, '.');
    crate::text::joined_texts_come_apart(y, '.');
    crate::text::joined_texts_come_apart(seq![a], '.');
    assert(crate::text::joined(seq![a], seq!['.']) == a);
}

/// Three texts with a dot between them.
proof fn lemma_three(a: Text, b: Text, c: Text)
    ensures
        crate::text::joined(seq![a, b, c], seq!['.']) == a + seq!['.'] + b + seq!['.'] + c,
{
    let x = seq![a, b, c];
    let y = seq![a, b];
    let z = seq![a];
    assert(x.drop_last() =~= y);
    assert(y.drop_last() =~= z);
    assert(crate::text::joined(z, seq!['.']) == a);
    assert(crate::text::joined(y, seq!['.']) == a + seq!['.'] + b);
}

/// The text of a token is put into the usual form: its two other signs become the usual
/// ones, every other character stays, and only equals signs are added behind.
pub proof fn a_token_is_put_into_the_usual_form(part: Text)
    ensures
        ({
            let s = standard_base64(part);
            &&& part.len() <= s.len() <= part.len() + 3
            &&& forall|i: int|
                0 <= i < part.len() ==> (#[trigger] s[i]) == if part[i] == '-' {
                    '+'
                } else if part[i] == '_' {
                    '/'
                } else {
                    part[i]
                }
            &&& forall|i: int| part.len() <= i < s.len() ==> (#[trigger] s[i]) == '='
        }),
{
}

/// A token without an end of its own lasts half an hour.
pub proof fn a_token_without_end_lasts_half_an_hour(
    a: AuthV,
    body: Text,
    j: JsonV,
    access: Text,
    now: i64,
)
    requires
        json_read(encode_utf8(body)) == Ok::<JsonV, Text>(j),
        j.field("access_token"@) == Some(JsonV::Str(access)),
        access.len() > 0,
        jwt_payload(access).field("exp"@) is None,
        now + 1800 <= i64::MAX,
    ensures
        a.after_reply(Some((200, body)), now).expires_at == now + 1800,
        user_id_in(jwt_payload(access)) is None ==> a.after_reply(Some((200, body)), now).user_id
            == a.user_id,
        (user_id_in(jwt_payload(access)) matches Some(u) ==> a.after_reply(
            Some((200, body)),
            now,
        ).user_id == Some(u)),
{
}

/// A token may be written as a text or as a number; one that is zero or missing is none.
pub proof fn a_token_may_be_a_number(j: JsonV, key: Text, n: i64, t: Text)
    ensures
        j.field(key) == Some(JsonV::Str(t)) ==> text_or_number(j, key) == t,
        j.field(key) == Some(crate::json::int_json(n)) && n != 0 ==> text_or_number(j, key)
            == crate::text::int_text(n as int),
        j.field(key) == Some(crate::json::int_json(0)) ==> text_or_number(j, key).len() == 0,
        j.field(key) is None ==> text_or_number(j, key).len() == 0,
{
}

} // verus!
