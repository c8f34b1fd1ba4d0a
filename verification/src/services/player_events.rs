//! Players who come and go, as the game server's broadcasts tell it.

use crate::text::{join3, Text};
use regex::Regex;
use vstd::prelude::*;

verus! {

/// `regex::Regex`: a compiled pattern.
#[verifier::external_type_specification]
#[verifier::external_body]
pub struct ExRegex(Regex);

/// The pattern that a `Regex` was compiled from.
pub uninterp spec fn regex_pattern(re: Regex) -> Seq<char>;

/// Why a pattern does not compile; nothing where it does.
pub uninterp spec fn regex_error(pattern: Seq<char>) -> Option<Seq<char>>;

/// What the first group of a pattern captures in a text, where the pattern matches
/// and the group takes part.
pub uninterp spec fn regex_capture(pattern: Seq<char>, text: Seq<char>) -> Option<Seq<char>>;

/// Calls `Regex::new`: compiles a pattern, or fails with an error that describes
/// itself. Both depend on the pattern alone.
#[verifier::external_body]
fn compile(pattern: &str) -> (r: Result<Regex, String>)
    ensures
        match r {
            Ok(re) => regex_error(pattern@) is None && regex_pattern(re) == pattern@,
            Err(e) => regex_error(pattern@) == Some(e@),
        },
{
    Regex::new(pattern).map_err(|e| e.to_string())
}

/// Calls `Regex::captures` and `Captures::get` with group 1: the text of the group in
/// the leftmost match, which depends on pattern and text alone.
#[verifier::external_body]
fn capture(re: &Regex, text: &str) -> (r: Option<String>)
    ensures
        match r {
            Some(s) => regex_capture(regex_pattern(*re), text@) == Some(s@),
            None => regex_capture(regex_pattern(*re), text@) is None,
        },
{
    re.captures(text).and_then(|c| c.get(1)).map(|m| m.as_str().to_string())
}

/// Whether a player came or went.
#[derive(Debug, Clone, Copy, PartialEq, Eq, Structural)]
pub enum EventType {
    Online,
    Offline,
}

/// A player who came or went.
#[derive(Debug)]
pub struct PlayerEvent {
    pub event_type: EventType,
    /// The client that told it.
    pub server: String,
    pub player: String,
}

/// What a [`PlayerEvent`] holds.
pub struct PlayerEventV {
    pub event_type: EventType,
    pub server: Text,
    pub player: Text,
}

impl View for PlayerEvent {
    type V = PlayerEventV;

    open spec fn view(&self) -> PlayerEventV {
        PlayerEventV {
            event_type: self.event_type,
            server: self.server@,
            player: self.player@,
        }
    }
}

impl PlayerEvent {
    /// The text that tells a QQ group.
    pub fn push_text(&self) -> (r: String)
        ensures
            r@ == match self.event_type {
                EventType::Online => "🎮 "@ + self.player@ + " 上线"@,
                EventType::Offline => "🚪 "@ + self.player@ + " 下线"@,
            },
    {
        match self.event_type {
            EventType::Online => join3("🎮 ", self.player.as_str(), " 上线"),
            EventType::Offline => join3("🚪 ", self.player.as_str(), " 下线"),
        }
    }
}

/// Finds players who come and go in broadcasts, by one pattern for each; the first
/// group of a pattern is the name.
#[derive(Debug)]
pub struct PlayerEventDetector {
    join: Option<Regex>,
    quit: Option<Regex>,
}

/// What a pattern finds in a text; no pattern finds nothing.
pub open spec fn found(pattern: Option<Text>, message: Text) -> Option<Text> {
    match pattern {
        Some(p) => regex_capture(p, message),
        None => None,
    }
}

/// What two patterns find in a text: coming goes before going.
pub open spec fn event_in(
    join: Option<Text>,
    quit: Option<Text>,
    server: Text,
    message: Text,
) -> Option<PlayerEventV> {
    match found(join, message) {
        Some(player) => Some(PlayerEventV { event_type: EventType::Online, server, player }),
        None => match found(quit, message) {
            Some(player) => Some(PlayerEventV { event_type: EventType::Offline, server, player }),
            None => None,
        },
    }
}

/// A pattern that is used: one that is not empty.
pub open spec fn used(pattern: Text) -> Option<Text> {
    if pattern.len() > 0 {
        Some(pattern)
    } else {
        None
    }
}

/// Why a pattern is refused: it is used and does not compile.
pub open spec fn refused(pattern: Text) -> Option<Text> {
    if pattern.len() > 0 {
        regex_error(pattern)
    } else {
        None
    }
}

impl PlayerEventDetector {
    /// The pattern for coming.
    pub closed spec fn join_pattern(&self) -> Option<Text> {
        match self.join {
            Some(re) => Some(regex_pattern(re)),
            None => None,
        }
    }

    /// The pattern for going.
    pub closed spec fn quit_pattern(&self) -> Option<Text> {
        match self.quit {
            Some(re) => Some(regex_pattern(re)),
            None => None,
        }
    }

    /// A detector for these patterns; an empty one is not used. Fails with the error
    /// of the first pattern that does not compile.
    pub fn new(join_pattern: &str, quit_pattern: &str) -> (r: Result<Self, String>)
        ensures
            match r {
                Ok(d) => {
                    &&& refused(join_pattern@) is None
                    &&& refused(quit_pattern@) is None
                    &&& d.join_pattern() == used(join_pattern@)
                    &&& d.quit_pattern() == used(quit_pattern@)
                },
                Err(e) => match refused(join_pattern@) {
                    Some(m) => e@ == m,
                    None => refused(quit_pattern@) == Some(e@),
                },
            },
    {
        let join = if join_pattern.is_empty() {
            None
        } else {
            match compile(join_pattern) {
                Ok(re) => Some(re),
                Err(e) => return Err(e),
            }
        };
        let quit = if quit_pattern.is_empty() {
            None
        } else {
            match compile(quit_pattern) {
                Ok(re) => Some(re),
                Err(e) => return Err(e),
            }
        };
        Ok(PlayerEventDetector { join, quit })
    }

    /// A detector that finds nothing.
    pub fn disabled() -> (r: Self)
        ensures
            r.join_pattern() is None,
            r.quit_pattern() is None,
    {
        PlayerEventDetector { join: None, quit: None }
    }

    /// Whether the detector can find anything.
    pub fn enabled(&self) -> (r: bool)
        ensures
            r == (self.join_pattern() is Some || self.quit_pattern() is Some),
    {
        self.join.is_some() || self.quit.is_some()
    }

    /// Looks for a player who came or went in a broadcast.
    pub fn detect(&self, server: &str, message: &str) -> (r: Option<PlayerEvent>)
        ensures
            match r {
                Some(e) => event_in(
                    self.join_pattern(),
                    self.quit_pattern(),
                    server@,
                    message@,
                ) == Some(e@),
                None => event_in(
                    self.join_pattern(),
                    self.quit_pattern(),
                    server@,
                    message@,
                ) is None,
            },
    {
        let came = match &self.join {
            Some(re) => capture(re, message),
            None => None,
        };
        let gone = match &self.quit {
            Some(re) => capture(re, message),
            None => None,
        };
        decide(server, came, gone)
    }
}

/// The event that two findings make: coming goes before going.
pub fn decide(server: &str, came: Option<String>, gone: Option<String>) -> (r: Option<PlayerEvent>)
    ensures
        match r {
            Some(e) => e.server@ == server@ && match came {
                Some(p) => e.event_type == EventType::Online && e.player == p,
                None => e.event_type == EventType::Offline && gone == Some(e.player),
            },
            None => came is None && gone is None,
        },
{
    match came {
        Some(player) => Some(
            PlayerEvent { event_type: EventType::Online, server: server.to_owned(), player },
        ),
        None => match gone {
            Some(player) => Some(
                PlayerEvent { event_type: EventType::Offline, server: server.to_owned(), player },
            ),
            None => None,
        },
    }
}

/// A detector without patterns finds nothing.
pub proof fn without_patterns_nothing_is_found(server: Text, message: Text)
    ensures
        event_in(None, None, server, message) is None,
        used(Seq::<char>::empty()) is None,
{
}

/// A message is read as the coming of the player whom the first pattern finds in it, or
/// else as the going of the one whom the second finds; the server is the one it came
/// from. What neither finds is no event.
pub proof fn an_event_is_what_the_pattern_finds(
    join: Option<Text>,
    quit: Option<Text>,
    server: Text,
    message: Text,
)
    ensures
        (join matches Some(p) ==> (regex_capture(p, message) matches Some(player) ==> event_in(
            join,
            quit,
            server,
            message,
        ) == Some(PlayerEventV { event_type: EventType::Online, server, player }))),
        (quit matches Some(p) ==> (regex_capture(p, message) matches Some(player) ==> event_in(
            None,
            quit,
            server,
            message,
        ) == Some(PlayerEventV { event_type: EventType::Offline, server, player }))),
        (event_in(join, quit, server, message) matches Some(e) ==> e.server == server && match e.event_type {
            EventType::Online => join matches Some(p) && regex_capture(p, message) == Some(
                e.player,
            ),
            EventType::Offline => quit matches Some(p) && regex_capture(p, message) == Some(
                e.player,
            ),
        }),
{
}

/// A pattern is used where it is not empty.
pub proof fn a_pattern_is_used_where_there_is_one(pattern: Text)
    ensures
        pattern.len() > 0 ==> used(pattern) == Some(pattern) && refused(pattern) == regex_error(
            pattern,
        ),
        pattern.len() == 0 ==> used(pattern) is None && refused(pattern) is None,
{
}

} // verus!
