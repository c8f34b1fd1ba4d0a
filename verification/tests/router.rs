//! Which handler a message goes to, and what the relays make of it.

use chatroom_bridge::router::handlers::{
    Handler, QqForwardRelay, Reply, SlashCommandAdapter, SnapshotRelay,
};
use chatroom_bridge::router::{
    match_command, match_prefix, CommandHandler, CommandRouter, InboundMessage, Source,
};
use chatroom_bridge::services::commands::{CommandQuery, CommandResult, CommandService};

fn game_msg(sender: &str, author: &str, text: &str) -> InboundMessage {
    InboundMessage {
        source: Source::Game { sender: sender.to_string(), author: author.to_string() },
        text: text.to_string(),
        group_id: 0,
        user_id: 0,
        display_name: author.to_string(),
    }
}

fn chatroom_msg(username: &str, text: &str) -> InboundMessage {
    InboundMessage {
        source: Source::Chatroom { username: username.to_string() },
        text: text.to_string(),
        group_id: 0,
        user_id: 0,
        display_name: username.to_string(),
    }
}

fn qq_msg(text: &str) -> InboundMessage {
    InboundMessage {
        source: Source::QQ,
        text: text.to_string(),
        group_id: 1,
        user_id: 2,
        display_name: "u".to_string(),
    }
}

/// What a relay sends for a message that it matches.
fn relayed(relay: &QqForwardRelay, msg: &InboundMessage) -> Option<String> {
    if relay.matches(msg) { relay.handle(msg) } else { None }
}

fn announced(relay: &SnapshotRelay, msg: &InboundMessage) -> Option<String> {
    if relay.matches(msg) { relay.handle(msg) } else { None }
}

#[test]
fn prefix_match_is_case_insensitive_and_trims() {
    assert_eq!(match_prefix("!Q  hello ", "!q").as_deref(), Some("hello"));
    assert_eq!(match_prefix("!q", "!q").as_deref(), Some(""));
    assert_eq!(match_prefix(" !q x", "!q").as_deref(), Some("x"));
    assert_eq!(match_prefix("!qx", "!q").as_deref(), Some("x"));
    assert_eq!(match_prefix("hello", "!q"), None);
    assert_eq!(match_prefix("！q x", "!q"), None);
}

#[test]
fn command_match_requires_boundary() {
    assert_eq!(match_command("!mc 活塞", "!mc").as_deref(), Some("活塞"));
    assert_eq!(match_command("!MC", "!mc").as_deref(), Some(""));
    assert_eq!(match_command(" !tmc x", "!tmc").as_deref(), Some("x"));
    assert_eq!(match_command("!mcs x", "!mc"), None);
    assert_eq!(match_command("!mcx", "!mc"), None);
    assert_eq!(match_command("!tmc x", "!mc"), None);
    assert_eq!(match_command("hello", "!mc"), None);
    assert_eq!(match_command("!mc\t活塞", "!mc").as_deref(), Some("活塞"));
}

#[test]
fn qq_relay_composes_chatroom_and_game_labels() {
    let relay = QqForwardRelay { enabled: true };
    let texts: Vec<Option<String>> = [
        chatroom_msg("alice", "!q 早安"),
        chatroom_msg("", "!Q 无名氏"),
        game_msg("snapshot", "bob", "!q 上号"),
    ]
    .iter()
    .map(|msg| relayed(&relay, msg))
    .collect();
    assert_eq!(texts[0].as_deref(), Some("[Chatroom] alice: 早安"));
    assert_eq!(texts[1].as_deref(), Some("[Chatroom]: 无名氏"));
    assert_eq!(texts[2].as_deref(), Some("[游戏|snapshot] bob: 上号"));
}

#[test]
fn qq_relay_ignores_bare_prefix_qq_source_and_system_broadcast() {
    let relay = QqForwardRelay { enabled: true };
    assert_eq!(relayed(&relay, &chatroom_msg("a", "!q")), None);
    assert_eq!(relayed(&relay, &qq_msg("!q x")), None);
    assert_eq!(relayed(&relay, &game_msg("server", "", "!q x")), None);
    let disabled = QqForwardRelay { enabled: false };
    assert_eq!(relayed(&disabled, &chatroom_msg("a", "!q x")), None);
}

#[test]
fn snapshot_relay_requires_matching_sender_and_nonempty_payload() {
    let relay = SnapshotRelay {
        enabled: true,
        sender: "snapshot".to_string(),
        prefix: "!snap".to_string(),
    };
    assert_eq!(
        announced(&relay, &game_msg("snapshot", "", "!snap 服务端已更新")).as_deref(),
        Some("[快照服] 服务端已更新")
    );
    assert_eq!(announced(&relay, &game_msg("web", "bob", "!snap 假通知")), None);
    assert_eq!(announced(&relay, &game_msg("snapshot", "", "!snap")), None);
    assert_eq!(announced(&relay, &chatroom_msg("a", "!snap x")), None);
}

#[test]
fn slash_adapter_matches_only_known_qq_commands() {
    let adapter = SlashCommandAdapter;
    assert!(adapter.matches(&qq_msg("/Server@Bot")));
    assert!(!adapter.matches(&qq_msg("/unknown")));
    assert!(!adapter.matches(&chatroom_msg("a", "/chatroom")));
}

#[test]
fn the_adapter_asks_and_answers() {
    let adapter = SlashCommandAdapter;
    let mut commands =
        CommandService::new(true, vec![], true, "http://v", "http://s", vec![]);
    match adapter.handle(&mut commands, &qq_msg("/status")) {
        Some(CommandQuery::Status { url, image }) => {
            assert_eq!(url, "http://s");
            assert!(image);
        }
        other => panic!("{other:?}"),
    }
    assert!(adapter.reply(CommandResult::default()).is_none());
    let text = CommandResult { text: "x".to_string(), image: None };
    assert!(matches!(adapter.reply(text), Some(Reply::Text(t)) if t == "x"));
    let both = CommandResult { text: "x".to_string(), image: Some(vec![1]) };
    assert!(matches!(adapter.reply(both), Some(Reply::Image(p)) if p == vec![1]));
}

#[test]
fn handlers_are_asked_in_the_order_they_were_registered() {
    let mut router = CommandRouter::new();
    router.register(Handler::Slash(SlashCommandAdapter));
    router.register(Handler::Forward(QqForwardRelay { enabled: true }));
    router.register(Handler::Snapshot(SnapshotRelay {
        enabled: true,
        sender: "snapshot".to_string(),
        prefix: "!q".to_string(),
    }));
    assert_eq!(router.dispatch(&qq_msg("/server"), 0), Some(0));
    let msg = game_msg("snapshot", "bob", "!q 上号");
    assert_eq!(router.dispatch(&msg, 0), Some(1));
    assert_eq!(router.dispatch(&msg, 2), Some(2));
    assert_eq!(router.dispatch(&msg, 3), None);
    assert_eq!(router.dispatch(&qq_msg("你好"), 0), None);
    assert_eq!(router.handlers().len(), 3);
    assert_eq!(router.handlers()[0].info().trigger, "/<name>");
}

#[test]
fn a_source_has_a_name() {
    assert_eq!(qq_msg("x").source_name(), "qq");
    assert_eq!(chatroom_msg("a", "x").source_name(), "chatroom");
    assert_eq!(game_msg("s", "a", "x").source_name(), "game");
}
