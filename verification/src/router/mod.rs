//! Routing of the messages that come in from the three sides.
//!
//! Every message becomes an [`InboundMessage`]. The [`CommandRouter`] asks its
//! handlers in the order in which they were registered; the first one that claims
//! the message and answers it ends the search.

pub mod handlers;

use crate::router::handlers::Handler;
use crate::text::{
    ascii_lower, behind, chars_of, is_white, rest_behind, trim, trimmed, trimming_behind_a_word,
    white, Text,
};
use vstd::prelude::*;

verus! {

/// Where a message came from. A game message names the client that sent it and the
/// player who wrote it, which is empty for an announcement of the server.
#[derive(Debug, Clone, PartialEq, Eq)]
pub enum Source {
    QQ,
    Game { sender: String, author: String },
    Chatroom { username: String },
}

/// What a [`Source`] holds.
pub enum SourceV {
    QQ,
    Game { sender: Text, author: Text },
    Chatroom { username: Text },
}

impl View for Source {
    type V = SourceV;

    open spec fn view(&self) -> SourceV {
        match self {
            Source::QQ => SourceV::QQ,
            Source::Game { sender, author } => SourceV::Game { sender: sender@, author: author@ },
            Source::Chatroom { username } => SourceV::Chatroom { username: username@ },
        }
    }
}

/// A message from one of the three sides.
#[derive(Debug, Clone)]
pub struct InboundMessage {
    pub source: Source,
    pub text: String,
    /// The QQ group; 0 for the other sides.
    pub group_id: i64,
    /// The QQ user; 0 for the other sides.
    pub user_id: i64,
    pub display_name: String,
}

/// What an [`InboundMessage`] holds.
pub struct InboundV {
    pub source: SourceV,
    pub text: Text,
    pub group_id: i64,
    pub user_id: i64,
    pub display_name: Text,
}

impl View for InboundMessage {
    type V = InboundV;

    open spec fn view(&self) -> InboundV {
        InboundV {
            source: self.source@,
            text: self.text@,
            group_id: self.group_id,
            user_id: self.user_id,
            display_name: self.display_name@,
        }
    }
}

/// The name of a side.
pub open spec fn side_name(source: SourceV) -> Text {
    match source {
        SourceV::QQ => "qq"@,
        SourceV::Game { .. } => "game"@,
        SourceV::Chatroom { .. } => "chatroom"@,
    }
}

impl InboundMessage {
    /// The name of the side that the message came from.
    pub fn source_name(&self) -> (r: &'static str)
        ensures
            r@ == side_name(self@.source),
    {
        match &self.source {
            Source::QQ => "qq",
            Source::Game { .. } => "game",
            Source::Chatroom { .. } => "chatroom",
        }
    }
}

/// What a handler does, for those who choose one.
#[derive(Debug, Clone)]
pub struct CommandInfo {
    /// The main name, such as `q`.
    pub name: String,
    pub aliases: Vec<String>,
    /// How to call it, such as `!q <text>`.
    pub trigger: String,
    pub description: String,
}

/// What a [`CommandInfo`] holds.
pub struct InfoV {
    pub name: Text,
    pub aliases: Seq<Text>,
    pub trigger: Text,
    pub description: Text,
}

impl View for CommandInfo {
    type V = InfoV;

    open spec fn view(&self) -> InfoV {
        InfoV {
            name: self.name@,
            aliases: crate::text::texts(self.aliases@),
            trigger: self.trigger@,
            description: self.description@,
        }
    }
}

/// A handler of messages.
pub trait CommandHandler {
    /// The messages that the handler claims.
    spec fn claims(&self, msg: InboundV) -> bool;

    /// What the handler says of itself.
    spec fn about(&self) -> InfoV;

    /// What the handler does.
    fn info(&self) -> (r: CommandInfo)
        ensures
            r@ == self.about(),
    ;

    /// Whether the handler claims a message.
    fn matches(&self, msg: &InboundMessage) -> (r: bool)
        ensures
            r == self.claims(msg@),
    ;
}

/// What stands behind `prefix`, whose ASCII letters count in either case, in a text
/// with blanks around it.
pub open spec fn payload_behind(text: Text, prefix: Text) -> Option<Text> {
    match behind(trimmed(text), prefix) {
        Some(rest) => Some(trimmed(rest)),
        None => None,
    }
}

/// What stands behind `prefix` in `text`, without the blanks around it.
pub fn match_prefix(text: &str, prefix: &str) -> (r: Option<String>)
    ensures
        match r {
            Some(p) => payload_behind(text@, prefix@) == Some(p@),
            None => payload_behind(text@, prefix@) is None,
        },
{
    let inner = trim(text);
    match rest_behind(inner.as_str(), prefix) {
        Some(rest) => Some(trim(rest.as_str())),
        None => None,
    }
}

/// What stands behind `trigger`, where it ends there or a blank follows it.
pub open spec fn query_behind(text: Text, trigger: Text) -> Option<Text> {
    match behind(trimmed(text), trigger) {
        Some(rest) => if rest.len() == 0 || is_white(rest[0]) {
            Some(trimmed(rest))
        } else {
            None
        },
        None => None,
    }
}

/// What stands behind `trigger` in `text`, without the blanks around it; nothing
/// where the text goes on with anything but a blank.
pub fn match_command(text: &str, trigger: &str) -> (r: Option<String>)
    ensures
        match r {
            Some(p) => query_behind(text@, trigger@) == Some(p@),
            None => query_behind(text@, trigger@) is None,
        },
{
    let inner = trim(text);
    match rest_behind(inner.as_str(), trigger) {
        Some(rest) => {
            let chars = chars_of(rest.as_str());
            if chars.len() == 0 || white(chars[0]) {
                Some(trim(rest.as_str()))
            } else {
                None
            }
        },
        None => None,
    }
}

/// A command is found where its trigger is a prefix, with the same text behind it.
pub proof fn a_command_is_a_prefix(text: Text, trigger: Text)
    ensures
        query_behind(text, trigger) is Some ==> payload_behind(text, trigger) == query_behind(
            text,
            trigger,
        ),
{
}

/// A longer command is not taken for a shorter one: where the text goes on behind a
/// trigger with anything but a blank, that trigger finds nothing.
pub proof fn a_longer_word_is_another_command(trigger: Text, more: Text, c: char)
    requires
        trigger.len() > 0,
        !is_white(trigger[0]),
        !is_white(c),
        more.len() > 0 ==> !is_white(more[more.len() - 1]),
    ensures
        query_behind(trigger.push(c) + more, trigger) is None,
{
    let text = trigger.push(c) + more;
    let whites = crate::text::whites();
    assert(text[0] == trigger[0]);
    crate::text::lemma_drop_front(text, whites, 0);
    assert(text.subrange(0, text.len() as int) =~= text);
    assert(!is_white(text[text.len() - 1])) by {
        if more.len() > 0 {
            assert(text[text.len() - 1] == more[more.len() - 1]);
        } else {
            assert(text[text.len() - 1] == c);
        }
    }
    crate::text::lemma_drop_back(text, whites, text.len() as int);
    assert(trimmed(text) == text);
    assert(text.subrange(trigger.len() as int, text.len() as int)[0] == c);
}

/// The case of the ASCII letters in a trigger makes no difference.
pub proof fn case_of_the_trigger_does_not_count(text: Text, one: Text, other: Text)
    requires
        ascii_lower(one) == ascii_lower(other),
    ensures
        query_behind(text, one) == query_behind(text, other),
        payload_behind(text, one) == payload_behind(text, other),
{
    assert(ascii_lower(one).len() == one.len());
    assert(ascii_lower(other).len() == other.len());
}

/// The first place at or behind `from` whose handler claims a message.
pub open spec fn next_claim(handlers: Seq<Handler>, msg: InboundV, from: int) -> Option<int>
    decreases handlers.len() - from,
{
    if from < 0 || from >= handlers.len() {
        None
    } else if handlers[from].claims(msg) {
        Some(from)
    } else {
        next_claim(handlers, msg, from + 1)
    }
}

/// The handlers, in the order in which they are asked.
#[derive(Debug)]
pub struct CommandRouter {
    pub handlers: Vec<Handler>,
}

impl Default for CommandRouter {
    fn default() -> (r: Self)
        ensures
            r.handlers@.len() == 0,
    {
        CommandRouter { handlers: Vec::new() }
    }
}

impl CommandRouter {
    /// A router without handlers.
    pub fn new() -> (r: Self)
        ensures
            r.handlers@ == Seq::<Handler>::empty(),
    {
        CommandRouter { handlers: Vec::new() }
    }

    /// Adds a handler, to be asked after those that are there.
    pub fn register(&mut self, handler: Handler)
        ensures
            final(self).handlers@ == old(self).handlers@.push(handler),
    {
        self.handlers.push(handler);
    }

    /// The handlers, in the order in which they are asked.
    pub fn handlers(&self) -> (r: &Vec<Handler>)
        ensures
            *r == self.handlers,
    {
        &self.handlers
    }

    /// The handler to ask about a message when those before `from` have been asked:
    /// its place, or nothing where no more handler claims the message. Whoever
    /// dispatches a message starts at 0, and goes on behind a handler that did not
    /// answer it.
    pub fn dispatch(&self, msg: &InboundMessage, from: usize) -> (r: Option<usize>)
        ensures
            match r {
                Some(i) => next_claim(self.handlers@, msg@, from as int) == Some(i as int),
                None => next_claim(self.handlers@, msg@, from as int) is None,
            },
    {
        let mut i: usize = from;
        while i < self.handlers.len()
            invariant
                next_claim(self.handlers@, msg@, from as int) == next_claim(
                    self.handlers@,
                    msg@,
                    i as int,
                ),
            decreases self.handlers@.len() - i,
        {
            if self.handlers[i].matches(msg) {
                return Some(i);
            }
            i = i + 1;
        }
        None
    }
}

/// A message goes to handlers in the order of their registration: the next handler
/// claims it, and none that was passed over does.
pub proof fn handlers_are_asked_in_order(handlers: Seq<Handler>, msg: InboundV, from: int)
    requires
        0 <= from,
    ensures
        match next_claim(handlers, msg, from) {
            Some(i) => {
                &&& from <= i < handlers.len()
                &&& handlers[i].claims(msg)
                &&& forall|k: int| from <= k < i ==> !(#[trigger] handlers[k]).claims(msg)
            },
            None => forall|k: int|
                from <= k < handlers.len() ==> !(#[trigger] handlers[k]).claims(msg),
        },
    decreases handlers.len() - from,
{
    if from < handlers.len() && !handlers[from].claims(msg) {
        handlers_are_asked_in_order(handlers, msg, from + 1);
    }
}

/// A question is what follows its trigger and white space, without the white space
/// around it; a prefix takes all that follows it. So what was asked is handed on as it
/// was asked.
pub proof fn what_follows_the_trigger_is_asked(trigger: Text, gap: char, query: Text)
    requires
        trigger.len() > 0,
        !is_white(trigger[0]),
        !is_white(trigger.last()),
        is_white(gap),
    ensures
        query_behind(trigger + seq![gap] + query, trigger) == Some(trimmed(query)),
        payload_behind(trigger + query, trigger) == Some(trimmed(query)),
        query_behind(trigger, trigger) == Some(Seq::<char>::empty()),
{
    let rest = seq![gap] + query;
    assert(trigger + seq![gap] + query =~= trigger + rest);
    trimming_behind_a_word(trigger, rest);
    trimming_behind_a_word(trigger, query);
    lemma_white_before(gap, query);
    let none = Seq::<char>::empty();
    trimming_behind_a_word(trigger, none);
    assert(trigger + none =~= trigger);
    crate::text::what_is_trimmed_stays(none);
}

/// White space before a text is trimmed away.
proof fn lemma_white_before(gap: char, s: Text)
    requires
        is_white(gap),
    ensures
        trimmed(seq![gap] + s) == trimmed(s),
{
    let w = crate::text::whites();
    let all = seq![gap] + s;
    assert(w(all[0]));
    assert(all.subrange(1, all.len() as int) =~= s);
}

/// A text that does not begin with the trigger, in whatever case, asks nothing.
pub proof fn other_texts_ask_nothing(text: Text, trigger: Text)
    requires
        !crate::text::begins(ascii_lower(trimmed(text)), ascii_lower(trigger)),
    ensures
        query_behind(text, trigger) is None,
        payload_behind(text, trigger) is None,
{
    let t = trimmed(text);
    let n = trigger.len() as int;
    if n <= t.len() {
        assert(ascii_lower(t).subrange(0, n) =~= ascii_lower(t.subrange(0, n)));
    }
}

/// Messages are named by the side that they come from.
pub proof fn sides_are_named(sender: Text, author: Text, username: Text)
    ensures
        side_name(SourceV::QQ) == "qq"@,
        side_name(SourceV::Game { sender, author }) == "game"@,
        side_name(SourceV::Chatroom { username }) == "chatroom"@,
{
}

} // verus!
