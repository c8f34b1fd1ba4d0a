//! A language model behind the usual chat completion interface.
//!
//! The request holds the model, two messages and a temperature; the answer is the
//! content of the first choice. The key goes into the request and nowhere else.

use crate::config::{LlmConfig, LlmV};
use crate::json::{
    a_member_is_found, array_view, items, json_read, json_str, members, object_view, parse_json,
    Json, JsonV, Number, NumberV,
};
use crate::text::{bytes_of, decimal, join2, u64_text, Text};
use vstd::prelude::*;

verus! {

/// Why a model gave no answer.
#[derive(Debug)]
pub enum LlmError {
    /// The request failed, or its status is no success.
    Http(String),
    /// The reply is not of the expected form.
    BadResponse(String),
}

/// What a [`LlmError`] holds.
pub enum LlmErrorV {
    Http(Text),
    BadResponse(Text),
}

impl View for LlmError {
    type V = LlmErrorV;

    open spec fn view(&self) -> LlmErrorV {
        match self {
            LlmError::Http(s) => LlmErrorV::Http(s@),
            LlmError::BadResponse(s) => LlmErrorV::BadResponse(s@),
        }
    }
}

impl LlmError {
    /// What to say of the error.
    pub fn message(&self) -> (r: String)
        ensures
            r@ == (match self@ {
                LlmErrorV::Http(s) => "LLM 请求失败: "@ + s,
                LlmErrorV::BadResponse(s) => "LLM 返回异常响应: "@ + s,
            }),
    {
        match self {
            LlmError::Http(s) => join2("LLM 请求失败: ", s.as_str()),
            LlmError::BadResponse(s) => join2("LLM 返回异常响应: ", s.as_str()),
        }
    }
}

/// A request to a model.
#[derive(Debug)]
pub struct LlmRequest {
    pub url: String,
    /// The value of the header `Authorization`.
    pub authorization: Option<String>,
    pub body: Json,
    pub timeout_secs: u64,
}

/// What a [`LlmRequest`] holds.
pub struct LlmRequestV {
    pub url: Text,
    pub authorization: Option<Text>,
    pub body: JsonV,
    pub timeout_secs: u64,
}

impl View for LlmRequest {
    type V = LlmRequestV;

    open spec fn view(&self) -> LlmRequestV {
        LlmRequestV {
            url: self.url@,
            authorization: text_held(self.authorization),
            body: self.body@,
            timeout_secs: self.timeout_secs,
        }
    }
}

/// One message of a conversation.
pub open spec fn chat_message(role: Text, content: Text) -> JsonV {
    JsonV::Object(seq![("role"@, JsonV::Str(role)), ("content"@, JsonV::Str(content))])
}

/// The body of a request.
pub open spec fn chat_body(model: Text, system: Text, user: Text) -> JsonV {
    JsonV::Object(
        seq![
            ("model"@, JsonV::Str(model)),
            (
                "messages"@,
                JsonV::Array(seq![chat_message("system"@, system), chat_message("user"@, user)]),
            ),
            ("temperature"@, JsonV::Num(NumberV::Real("0.2"@))),
        ],
    )
}

/// The value of the header `Authorization`, where there is a key.
pub open spec fn bearer(key: Text) -> Option<Text> {
    if key.len() == 0 {
        None
    } else {
        Some("Bearer "@ + key)
    }
}

/// The request that asks a model.
pub open spec fn request_of(cfg: LlmV, system: Text, user: Text) -> LlmRequestV {
    LlmRequestV {
        url: cfg.api_url,
        authorization: bearer(cfg.api_key),
        body: chat_body(cfg.model, system, user),
        timeout_secs: cfg.timeout_secs,
    }
}

/// What an optional text holds.
pub open spec fn text_held(s: Option<String>) -> Option<Text> {
    match s {
        Some(s) => Some(s@),
        None => None,
    }
}

/// The content of a choice.
pub open spec fn choice_content(choice: JsonV) -> Option<Text> {
    match choice.field("message"@) {
        Some(m) => match m.field("content"@) {
            Some(c) => c.as_text(),
            None => None,
        },
        None => None,
    }
}

/// The contents of the choices of a reply, where all have one.
pub open spec fn contents_in(body: JsonV) -> Option<Seq<Text>> {
    match body.field("choices"@) {
        Some(JsonV::Array(s)) => if forall|i: int|
            0 <= i < s.len() ==> choice_content(#[trigger] s[i]) is Some {
            Some(Seq::new(s.len(), |i: int| choice_content(s[i])->0))
        } else {
            None
        },
        _ => None,
    }
}

/// What is said of a reply that is not of the expected form.
pub const BAD_FORM: &'static str = "响应不是合法的 chat/completions 结构: ";

/// What is said where a part of the expected form is missing.
pub const MISSING_PART: &'static str = "choices[].message.content";

/// What is said where there is no choice.
pub const NO_CHOICE: &'static str = "choices 为空";

/// The answer that a reply holds.
pub open spec fn completion(status: u16, body: Text) -> Result<Text, LlmErrorV> {
    if !(200 <= status < 300) {
        Err(LlmErrorV::Http("HTTP "@ + decimal(status as nat)))
    } else {
        match json_read(vstd::utf8::encode_utf8(body)) {
            Err(m) => Err(LlmErrorV::BadResponse(BAD_FORM@ + m)),
            Ok(j) => match contents_in(j) {
                None => Err(LlmErrorV::BadResponse(BAD_FORM@ + MISSING_PART@)),
                Some(c) => if c.len() == 0 {
                    Err(LlmErrorV::BadResponse(NO_CHOICE@))
                } else {
                    Ok(c[0])
                },
            },
        }
    }
}

/// What a result holds.
pub open spec fn answer_held(r: Result<String, LlmError>) -> Result<Text, LlmErrorV> {
    match r {
        Ok(s) => Ok(s@),
        Err(e) => Err(e@),
    }
}

/// The content of a choice.
fn read_choice(choice: &Json) -> (r: Option<String>)
    ensures
        text_held(r) == choice_content(choice@),
{
    match choice.get("message") {
        Some(m) => match m.get("content") {
            Some(c) => match c.as_str() {
                Some(s) => Some(s.clone()),
                None => None,
            },
            None => None,
        },
        None => None,
    }
}

/// The contents of the choices of a reply, where all have one.
fn read_contents(body: &Json) -> (r: Option<Vec<String>>)
    ensures
        match r {
            Some(v) => contents_in(body@) == Some(crate::text::texts(v@)),
            None => contents_in(body@) is None,
        },
{
    let list = match body.get("choices") {
        Some(c) => match c.as_array() {
            Some(v) => v,
            None => return None,
        },
        None => return None,
    };
    let ghost s = items(list@);
    let mut out: Vec<String> = Vec::new();
    let mut i: usize = 0;
    while i < list.len()
        invariant
            i <= list@.len(),
            s == items(list@),
            body@.field("choices"@) == Some(JsonV::Array(s)),
            out@.len() == i,
            forall|k: int| 0 <= k < i ==> choice_content(#[trigger] s[k]) == Some(out@[k]@),
        decreases list@.len() - i,
    {
        assert(s[i as int] == list@[i as int]@);
        match read_choice(&list[i]) {
            Some(c) => out.push(c),
            None => {
                assert(choice_content(s[i as int]) is None);
                return None;
            },
        }
        i = i + 1;
    }
    assert(crate::text::texts(out@) =~= Seq::new(s.len(), |i: int| choice_content(s[i])->0));
    Some(out)
}

/// One message of a conversation.
fn write_message(role: &str, content: &str) -> (r: Json)
    ensures
        r@ == chat_message(role@, content@),
{
    broadcast use object_view;

    let parts: Vec<(String, Json)> = vec![
        ("role".to_owned(), json_str(role)),
        ("content".to_owned(), json_str(content)),
    ];
    assert(members(parts@) =~= seq![
        ("role"@, JsonV::Str(role@)),
        ("content"@, JsonV::Str(content@)),
    ]);
    Json::Object(parts)
}

/// A language model.
#[derive(Debug)]
pub struct LlmClient {
    pub cfg: LlmConfig,
}

impl LlmClient {
    /// A model by its configuration.
    pub fn new(cfg: LlmConfig) -> (r: Self)
        ensures
            r.cfg == cfg,
    {
        LlmClient { cfg }
    }

    /// The same model again.
    pub fn copy(&self) -> (r: Self)
        ensures
            r.cfg@ == self.cfg@,
    {
        LlmClient {
            cfg: LlmConfig {
                api_url: self.cfg.api_url.clone(),
                api_key: self.cfg.api_key.clone(),
                model: self.cfg.model.clone(),
                timeout_secs: self.cfg.timeout_secs,
                max_answer_chars: self.cfg.max_answer_chars,
                system_prompt: self.cfg.system_prompt.clone(),
            },
        }
    }

    /// What the model is told before each question.
    pub fn system_prompt(&self) -> (r: &String)
        ensures
            r@ == self.cfg@.system_prompt,
    {
        &self.cfg.system_prompt
    }

    /// The request that asks the model.
    pub fn complete(&self, system: &str, user: &str) -> (r: LlmRequest)
        ensures
            r@ == request_of(self.cfg@, system@, user@),
    {
        broadcast use {object_view, array_view};

        let messages: Vec<Json> = vec![write_message("system", system), write_message("user", user)];
        assert(items(messages@) =~= seq![
            chat_message("system"@, system@),
            chat_message("user"@, user@),
        ]);
        let parts: Vec<(String, Json)> = vec![
            ("model".to_owned(), json_str(self.cfg.model.as_str())),
            ("messages".to_owned(), Json::Array(messages)),
            ("temperature".to_owned(), Json::Num(Number::Real("0.2".to_owned()))),
        ];
        assert(members(parts@) =~= chat_body(self.cfg@.model, system@, user@)->Object_0);
        LlmRequest {
            url: self.cfg.api_url.clone(),
            authorization: if self.cfg.api_key.as_str().is_empty() {
                None
            } else {
                Some(join2("Bearer ", self.cfg.api_key.as_str()))
            },
            body: Json::Object(parts),
            timeout_secs: self.cfg.timeout_secs,
        }
    }

    /// The answer that a reply holds: its status and body, or why there was none. It
    /// depends on the reply alone, so that no error can tell the key.
    pub fn completed(reply: Result<(u16, String), String>) -> (r: Result<String, LlmError>)
        ensures
            answer_held(r) == (match reply {
                Ok(p) => completion(p.0, p.1@),
                Err(m) => Err(LlmErrorV::Http(m@)),
            }),
    {
        let (status, body) = match reply {
            Ok(p) => p,
            Err(m) => return Err(LlmError::Http(m)),
        };
        if !(status >= 200 && status < 300) {
            let digits = u64_text(status as u64);
            return Err(LlmError::Http(join2("HTTP ", digits.as_str())));
        }
        let bytes = bytes_of(body.as_str());
        let j = match parse_json(bytes.as_slice()) {
            Ok(j) => j,
            Err(m) => return Err(LlmError::BadResponse(join2(BAD_FORM, m.as_str()))),
        };
        match read_contents(&j) {
            None => Err(LlmError::BadResponse(join2(BAD_FORM, MISSING_PART))),
            Some(c) => if c.len() == 0 {
                Err(LlmError::BadResponse(NO_CHOICE.to_owned()))
            } else {
                assert(crate::text::texts(c@)[0] == c@[0]@);
                Ok(c[0].clone())
            },
        }
    }
}

/// The key of a model is in the header of a request and nowhere else: without it the
/// request has no such header.
pub proof fn without_key_no_header(cfg: LlmV)
    ensures
        cfg.api_key.len() == 0 <==> bearer(cfg.api_key) is None,
{
}

/// A request goes to the configured address with the configured key, names the model and
/// says two things in this order: what the model is, and what is asked.
pub proof fn a_request_says_what_is_asked(cfg: LlmV, system: Text, user: Text)
    ensures
        ({
            let r = request_of(cfg, system, user);
            &&& r.url == cfg.api_url
            &&& r.timeout_secs == cfg.timeout_secs
            &&& cfg.api_key.len() > 0 ==> r.authorization == Some("Bearer "@ + cfg.api_key)
            &&& cfg.api_key.len() == 0 ==> r.authorization is None
            &&& r.body.field("model"@) == Some(JsonV::Str(cfg.model))
            &&& r.body.field("messages"@) matches Some(JsonV::Array(m)) && m.len() == 2
                && m[0].field("role"@) == Some(JsonV::Str("system"@)) && m[0].field("content"@)
                == Some(JsonV::Str(system)) && m[1].field("role"@) == Some(JsonV::Str("user"@))
                && m[1].field("content"@) == Some(JsonV::Str(user))
        }),
{
    reveal_strlit("model");
    reveal_strlit("messages");
    assert("model"@.len() == 5 && "messages"@.len() == 8);
    lemma_message("system"@, system);
    lemma_message("user"@, user);
    match chat_body(cfg.model, system, user) {
        JsonV::Object(m) => {
            assert(m[0].0 == "model"@ && m[1].0 == "messages"@);
            a_member_is_found(m, 0);
            a_member_is_found(m, 1);
        },
        _ => {},
    }
}

/// A message of a request has its role and its content.
proof fn lemma_message(role: Text, content: Text)
    ensures
        chat_message(role, content).field("role"@) == Some(JsonV::Str(role)),
        chat_message(role, content).field("content"@) == Some(JsonV::Str(content)),
{
    reveal_strlit("role");
    reveal_strlit("content");
    assert("role"@.len() == 4 && "content"@.len() == 7);
    match chat_message(role, content) {
        JsonV::Object(m) => {
            assert(m[0].0 == "role"@ && m[1].0 == "content"@);
            a_member_is_found(m, 0);
            a_member_is_found(m, 1);
        },
        _ => {},
    }
}

/// The answer of the model is the content of its first choice, where the reply is one of
/// success and every choice has a content, and only there.
pub proof fn an_answer_is_the_first_choice(status: u16, body: Text, j: JsonV, choices: Seq<JsonV>)
    requires
        json_read(vstd::utf8::encode_utf8(body)) == Ok::<JsonV, Text>(j),
        j.field("choices"@) == Some(JsonV::Array(choices)),
        forall|i: int| 0 <= i < choices.len() ==> choice_content(#[trigger] choices[i]) is Some,
    ensures
        200 <= status < 300 && choices.len() > 0 ==> completion(status, body) == Ok::<
            Text,
            LlmErrorV,
        >(choice_content(choices[0])->0),
        choices.len() == 0 ==> completion(status, body) is Err,
        !(200 <= status < 300) ==> completion(status, body) is Err,
{
}

/// The content of a choice is the text under `content` of its message.
pub proof fn a_choice_says_its_content(choice: JsonV, message: JsonV, t: Text)
    ensures
        choice.field("message"@) == Some(message) && message.field("content"@) == Some(
            JsonV::Str(t),
        ) ==> choice_content(choice) == Some(t),
        choice.field("message"@) is None ==> choice_content(choice) is None,
{
}

} // verus!
