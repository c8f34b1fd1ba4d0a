//! Whole flows through the hub, with the services around it played by the test.

use chatroom_bridge::adapters::forward_api::ForwardApi;
use chatroom_bridge::adapters::onebot::{
    authorized, parse_group_message, GroupMessage, OneBotConnection,
};
use chatroom_bridge::agent::llm::LlmClient;
use chatroom_bridge::agent::local::{Index, LocalDocSource};
use chatroom_bridge::agent::skill::{DocQuerySkill, RunStep, SkillStep};
use chatroom_bridge::agent::{DocHit, DocumentSource};
use chatroom_bridge::config::{read_config, AppConfig};
use chatroom_bridge::json::{parse_json, read_reply, Json};
use chatroom_bridge::router::handlers::{Handler, Reply};
use chatroom_bridge::router::InboundMessage;
use chatroom_bridge::service::BridgeService;
use chatroom_bridge::services::commands::{CommandQuery, CommandService};
use chatroom_bridge::services::forwarder::Forwarding;
use chatroom_bridge::state::StateStore;

const DOCS: &str = "# 红石元件\n\n活塞是一种红石元件，可以推动最多 12 个方块。\n\n# 观察者\n\n观察者用于检测方块更新。\n";

const VOICE: &str = r#"{"channels": [{"name": "语音频道", "people": ["甲", "乙"]}]}"#;

fn group_event(message_id: i64, text: &str) -> GroupMessage {
    let raw = format!(
        r#"{{"post_type": "message", "message_type": "group", "group_id": 123, "user_id": 42,
            "message_id": {message_id}, "nickname": "tester", "card": "", "message": "{text}"}}"#
    );
    parse_group_message(&parse_json(raw.as_bytes()).unwrap()).unwrap()
}

/// A hub, a connection to the groups, a chatroom and a model.
struct World {
    service: BridgeService,
    conn: OneBotConnection,
    sent: Vec<String>,
    posts: usize,
    answers: usize,
}

impl World {
    fn new(cfg: AppConfig, roots: &[&str]) -> Self {
        let roots: Vec<String> = roots.iter().map(|r| r.to_string()).collect();
        let mut service = BridgeService::new(cfg, StateStore::new(), &roots, "/cache");
        service.server.opened();
        World {
            service,
            conn: OneBotConnection::new(),
            sent: vec![],
            posts: 0,
            answers: 0,
        }
    }

    fn send(&mut self, group_id: i64, text: &str) {
        let call = self.conn.send_group_text(group_id, text).unwrap();
        let message = call.payload.get("params").unwrap().get("message").unwrap();
        let Json::Array(segments) = message else { panic!("no segments") };
        let shown = segments[0].get("data").unwrap().get("text").unwrap().as_str().unwrap();
        self.sent.push(shown.to_string());
    }

    /// The model: it translates, answers once, and is down from then on.
    fn model(&mut self, body: &Json) -> (u16, String) {
        let Json::Array(messages) = body.get("messages").unwrap() else { panic!("no messages") };
        let system = messages[0].get("content").unwrap().as_str().unwrap();
        let user = messages[1].get("content").unwrap().as_str().unwrap();
        let content = if system.contains("翻译") {
            "piston"
        } else {
            assert!(user.contains("活塞"), "{user}");
            self.answers += 1;
            if self.answers > 1 {
                return (500, r#"{"error": "down"}"#.to_string());
            }
            "活塞是一种红石元件，被推动时会伸出方块臂。[1]"
        };
        let body = format!(
            r#"{{"choices": [{{"message": {{"role": "assistant", "content": "{content}"}}}}]}}"#
        );
        (200, body)
    }

    fn skill(&self, index: usize) -> &DocQuerySkill {
        match &self.service.router.handlers()[index] {
            Handler::Skill(skill) => skill,
            other => panic!("{other:?}"),
        }
    }

    fn run_skill(&mut self, index: usize, msg: &InboundMessage) -> Option<String> {
        let skill = self.skill(index);
        let mut run = match skill.handle(msg) {
            SkillStep::Pass => return None,
            SkillStep::Say(text) => return Some(text),
            SkillStep::Search { query } => skill.search_queries(query, None),
            SkillStep::Translate { query, request } => {
                let reply = self.model(&request.body);
                let answer = LlmClient::completed(Ok(reply));
                self.skill(index).search_queries(query, Some(answer))
            }
        };
        let mut docs = Index::default();
        docs.index_file("redstone.md", "redstone.md", DOCS);
        loop {
            let skill = self.skill(index);
            match skill.step(&run) {
                RunStep::Ask(q) => {
                    let per_source: Vec<(String, Vec<DocHit>)> = skill
                        .sources
                        .iter()
                        .map(|source| {
                            let hits = docs
                                .search(&q, skill.max_results)
                                .iter()
                                .map(|found| LocalDocSource::hit(found, &Some(DOCS.to_string())))
                                .collect();
                            (source.name().clone(), hits)
                        })
                        .collect();
                    skill.searched(&mut run, &per_source);
                }
                RunStep::Say(text) => return Some(text),
                RunStep::Model(request) => {
                    let answer = LlmClient::completed(Ok(self.model(&request.body)));
                    return Some(self.skill(index).answered(&run, answer));
                }
            }
        }
    }

    fn group_message(&mut self, msg: &GroupMessage) {
        let Some(inbound) = self.service.handle_group_message(msg, 1) else { return };
        let mut from = 0;
        while let Some(at) = self.service.router.dispatch(&inbound, from) {
            let reply = match &self.service.router.handlers()[at] {
                Handler::Slash(adapter) => {
                    let query = adapter.handle(&mut self.service.commands, &inbound);
                    let result = query.map(|q| match q {
                        CommandQuery::Voice(_) => {
                            CommandService::voice_answer(Some((200, VOICE.as_bytes().to_vec())))
                        }
                        CommandQuery::Status { .. } => {
                            CommandService::status_answer(&read_reply(None), None)
                        }
                    });
                    result.and_then(|r| adapter.reply(r)).map(|r| match r {
                        Reply::Text(text) => text,
                        Reply::Image(_) => "image".to_string(),
                    })
                }
                Handler::Skill(_) => self.run_skill(at, &inbound),
                _ => None,
            };
            if let Some(text) = reply {
                self.send(inbound.group_id, &text);
                return;
            }
            from = at + 1;
        }
        let plan = match self.service.forwarder.handle(&self.service.state, msg) {
            Forwarding::Skip => return,
            Forwarding::Send(plan) => plan,
        };
        let message = self.service.forwarder.message_for(msg, &plan, &vec![]);
        let result = match self.service.forward_api.post_message(&message) {
            Err(e) => Err(e),
            Ok(_) => {
                self.posts += 1;
                ForwardApi::posted(201, &format!(r#"{{"id": {}}}"#, 4999 + self.posts))
            }
        };
        self.service.forwarder.finish(&mut self.service.state, msg.message_id, result);
    }

    fn game_chat(&mut self, sender: &str, author: &str, text: &str) {
        let Some(inbound) = self.service.on_game_chat(sender, author, text, 1) else { return };
        if let (Some(text), Some(groups)) =
            (inbound.event_text, self.service.send_to_qq_groups())
        {
            for group in groups {
                self.send(group, &text);
            }
        }
    }
}

#[test]
fn agent_skill_flow_llm_fallback_and_miss() {
    let cfg = read_config(
        r#"{"onebot": {"listen_host": "127.0.0.1", "listen_port": 0, "path": "/ws",
                "access_token": "tok", "self_id": 10000},
            "chatroom": {"base_url": "https://chatroom.example.com", "channel_id": 1,
                "forward_token": "", "group_ids": [123], "player_tracking_enabled": false},
            "chatbridge": {"enabled": false, "host": ""},
            "commands": {"group_allow_all": true, "status_image": false},
            "api": {"enabled": false},
            "agent": {"enabled": true,
                "llm": {"api_url": "http://mock/v1/chat/completions", "api_key": "llmtok",
                    "model": "test-model", "max_answer_chars": 500},
                "skills": [{"name": "tmc", "description": "TechMC 文档查询", "max_results": 3,
                    "sources": [{"type": "local", "root": "/docs", "name": "techmc",
                        "extensions": [".md"]}]}]},
            "log_level": "WARN"}"#
            .as_bytes(),
    )
    .unwrap();
    let mut world = World::new(cfg, &["/docs"]);

    world.group_message(&group_event(1, "!tmc 活塞"));
    assert_eq!(world.sent.len(), 1);
    assert!(world.sent[0].contains("红石元件"), "{}", world.sent[0]);
    assert!(world.sent[0].contains("[1]"), "{}", world.sent[0]);

    world.group_message(&group_event(2, "!tmc 活塞"));
    assert_eq!(world.sent.len(), 2);
    assert!(world.sent[1].contains("检索结果"), "{}", world.sent[1]);
    assert!(world.sent[1].contains("redstone.md:"), "{}", world.sent[1]);

    world.group_message(&group_event(3, "!tc 不存在的东西"));
    assert_eq!(world.sent.len(), 2);
    assert_eq!(world.posts, 0);

    world.group_message(&group_event(4, "!tmc 下界合金锭"));
    assert_eq!(world.sent.len(), 3);
    assert!(world.sent[2].contains("没查到"), "{}", world.sent[2]);
}

#[test]
fn smoke_dedup_command_and_auth() {
    let cfg = read_config(
        r#"{"onebot": {"listen_host": "127.0.0.1", "listen_port": 0, "path": "/ws",
                "access_token": "tok", "self_id": 10000},
            "chatroom": {"base_url": "http://mock", "channel_id": 1, "forward_token": "ftok",
                "refresh_token": "", "group_ids": [123], "qq_sync_enabled": true,
                "qq_forward_enabled": true, "qq_to_game_enabled": false,
                "player_join_pattern": "^(.+?) 加入了游戏$",
                "player_quit_pattern": "^(.+?) 离开了游戏$",
                "voice_api": "http://mock/api/voice/qqbot/get_voice_channel_people",
                "status_api": "http://mock/api/status",
                "server_addresses": [["主IP", "game.example.com"]]},
            "chatbridge": {"enabled": false, "host": "", "port": 21027, "name": "web",
                "password": "", "aes_key": ""},
            "commands": {"group_allow_all": true, "allow_from": [], "status_image": false},
            "log_level": "WARN"}"#
            .as_bytes(),
    )
    .unwrap();
    let mut world = World::new(cfg, &[]);

    let token = world.service.server().access_token.clone();
    assert!(!authorized(&token, Some("Bearer wrong"), None));
    assert!(authorized(&token, Some("Bearer tok"), None));

    world.group_message(&group_event(1, "hello"));
    world.group_message(&group_event(1, "hello"));
    assert_eq!(world.posts, 1);
    assert_eq!(world.service.state().pairs().len(), 1);

    world.group_message(&group_event(2, "/chatroom"));
    assert_eq!(world.sent.len(), 1);

    world.group_message(&group_event(3, "/unknown"));
    assert_eq!(world.posts, 2);

    world.game_chat("snapshot", "", "Steve 加入了游戏");
    assert!(world.sent.iter().any(|text| text.contains("Steve 上线")));
    world.game_chat("snapshot", "", "Steve 离开了游戏");
    assert!(world.sent.iter().any(|text| text.contains("Steve 下线")));

    let before = world.sent.len();
    world.game_chat("web", "Hacker", "Steve 加入了游戏");
    assert_eq!(world.sent.len(), before);
}
