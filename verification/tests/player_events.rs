//! Players who come and go, told by the lines of the game.

use chatroom_bridge::services::player_events::{decide, EventType, PlayerEventDetector};

#[test]
fn detects_join_and_quit_with_capture_group() {
    let detector = PlayerEventDetector::new("^(.+?) 加入了游戏$", "^(.+?) 离开了游戏$").unwrap();

    let join = detector.detect("snapshot", "Steve 加入了游戏").unwrap();
    assert_eq!(join.event_type, EventType::Online);
    assert_eq!(join.player, "Steve");
    assert_eq!(join.server, "snapshot");
    assert_eq!(join.push_text(), "🎮 Steve 上线");

    let quit = detector.detect("snapshot", "Alex 离开了游戏").unwrap();
    assert_eq!(quit.event_type, EventType::Offline);
    assert_eq!(quit.push_text(), "🚪 Alex 下线");

    assert!(detector.detect("snapshot", "Steve: 大家好").is_none());
    let both = PlayerEventDetector::new("(.+?) 加入了游戏", "^(.+?) 加入了游戏$").unwrap();
    assert_eq!(both.detect("s", "Steve 加入了游戏").unwrap().event_type, EventType::Online);
    let no_group = PlayerEventDetector::new("加入", "").unwrap();
    assert!(no_group.detect("s", "Steve 加入了游戏").is_none());
}

#[test]
fn empty_patterns_disable_detection() {
    let detector = PlayerEventDetector::new("", "").unwrap();
    assert!(!detector.enabled());
    assert!(detector.detect("s", "Steve 加入了游戏").is_none());
}

#[test]
fn invalid_regex_reports_error() {
    assert!(PlayerEventDetector::new("^(.+?) 加入了游戏$", "([").is_err());
    let disabled = PlayerEventDetector::disabled();
    assert!(!disabled.enabled());
}

#[test]
fn partial_patterns_only_detect_configured_side() {
    let detector = PlayerEventDetector::new("^(.+?) 加入了游戏$", "").unwrap();
    assert!(detector.detect("s", "Steve 加入了游戏").is_some());
    assert!(detector.detect("s", "Steve 离开了游戏").is_none());
}

#[test]
fn whoever_came_counts_before_whoever_went() {
    let event = decide("s", Some("A".to_string()), Some("B".to_string())).unwrap();
    assert_eq!(event.player, "A");
    assert_eq!(event.event_type, EventType::Online);
    let event = decide("s", None, Some("B".to_string())).unwrap();
    assert_eq!(event.event_type, EventType::Offline);
    assert!(decide("s", None, None).is_none());
}
