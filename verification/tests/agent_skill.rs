//! Answering a question out of documents.

use chatroom_bridge::agent::llm::{LlmClient, LlmError};
use chatroom_bridge::agent::local::LocalDocSource;
use chatroom_bridge::agent::skill::{
    build_skills, longest_first, truncate_answer, DocQuerySkill, DocSource, RunStep,
    SkillStep,
};
use chatroom_bridge::agent::{DocHit, DocumentSource};
use chatroom_bridge::config::{read_config, LlmConfig, DEFAULT_SYSTEM_PROMPT};
use chatroom_bridge::json::Json;
use chatroom_bridge::router::{CommandHandler, InboundMessage, Source};

fn hit(title: &str, locator: &str, snippet: &str) -> DocHit {
    DocHit {
        title: title.to_string(),
        locator: locator.to_string(),
        snippet: snippet.to_string(),
    }
}

fn llm_client() -> LlmClient {
    LlmClient::new(LlmConfig {
        api_url: "http://mock/v1/chat/completions".to_string(),
        api_key: String::new(),
        model: "test-model".to_string(),
        timeout_secs: 5,
        max_answer_chars: 1000,
        system_prompt: DEFAULT_SYSTEM_PROMPT.to_string(),
    })
}

/// A skill whose sources find fixed hits, and a model with a fixed reply.
struct World {
    skill: DocQuerySkill,
    found: Vec<(&'static str, Vec<DocHit>)>,
    model: (u16, String),
    requests: Vec<(String, usize)>,
    bodies: Vec<Json>,
    texts: Vec<String>,
}

fn world(
    found: Vec<(&'static str, Vec<DocHit>)>,
    model: Option<(u16, &str)>,
    max_results: usize,
    max_answer_chars: usize,
) -> World {
    let sources = found
        .iter()
        .map(|s| DocSource::Local(LocalDocSource::new(s.0, "/docs", &vec![])))
        .collect();
    let llm = model.as_ref().map(|_| llm_client());
    let (status, content) = model.unwrap_or((500, ""));
    let body = if status == 200 {
        format!(r#"{{"choices": [{{"message": {{"role": "assistant", "content": "{content}"}}}}]}}"#)
    } else {
        "{}".to_string()
    };
    World {
        skill: DocQuerySkill::new(
            "mc",
            "!mc",
            "文档查询",
            sources,
            llm,
            max_results,
            max_answer_chars,
        ),
        found,
        model: (status, body),
        requests: vec![],
        bodies: vec![],
        texts: vec![],
    }
}

impl World {
    fn ask(&mut self, body: Json) -> Result<String, LlmError> {
        self.bodies.push(body);
        LlmClient::completed(Ok(self.model.clone()))
    }

    /// Handles a message all the way; whether it was the skill's.
    fn run(&mut self, text: &str) -> bool {
        let mut run = match self.skill.handle(&msg(text)) {
            SkillStep::Pass => return false,
            SkillStep::Say(text) => {
                self.texts.push(text);
                return true;
            }
            SkillStep::Search { query } => self.skill.search_queries(query, None),
            SkillStep::Translate { query, request } => {
                let answer = self.ask(request.body);
                self.skill.search_queries(query, Some(answer))
            }
        };
        loop {
            match self.skill.step(&run) {
                RunStep::Ask(q) => {
                    self.requests.push((q, self.skill.max_results));
                    let per_source: Vec<(String, Vec<DocHit>)> = self
                        .found
                        .iter()
                        .map(|s| {
                            let hits: Vec<DocHit> =
                                s.1.iter().take(self.skill.max_results).map(DocHit::copy).collect();
                            (s.0.to_string(), hits)
                        })
                        .collect();
                    self.skill.searched(&mut run, &per_source);
                }
                RunStep::Say(text) => {
                    self.texts.push(text);
                    return true;
                }
                RunStep::Model(request) => {
                    let answer = self.ask(request.body);
                    self.texts.push(self.skill.answered(&run, answer));
                    return true;
                }
            }
        }
    }
}

fn msg(text: &str) -> InboundMessage {
    InboundMessage {
        source: Source::QQ,
        text: text.to_string(),
        group_id: 1,
        user_id: 2,
        display_name: "tester".to_string(),
    }
}

fn alpha() -> (&'static str, Vec<DocHit>) {
    (
        "alpha",
        vec![
            hit("活塞-1", "a:1", "片段A1"),
            hit("活塞-2", "a:2", "片段A2"),
            hit("活塞-3", "a:3", "片段A3"),
        ],
    )
}

fn beta() -> (&'static str, Vec<DocHit>) {
    ("beta", vec![hit("活塞-1b", "b:1", "片段B1"), hit("活塞-2b", "b:2", "片段B2")])
}

fn user_prompt(body: &Json) -> String {
    let Json::Array(messages) = body.get("messages").unwrap() else { panic!("no messages") };
    assert_eq!(messages[0].get("role").unwrap().as_str().unwrap(), "system");
    assert_eq!(messages[1].get("role").unwrap().as_str().unwrap(), "user");
    messages[1].get("content").unwrap().as_str().unwrap().to_string()
}

#[test]
fn skill_matches_case_boundary_and_info() {
    let s = world(vec![], None, 5, 1000).skill;
    assert!(s.matches(&msg("!mc 活塞")));
    assert!(s.matches(&msg("!MC 活塞")));
    assert!(s.matches(&msg("!mc")));
    assert!(s.matches(&msg(" !mc\t")));
    assert!(!s.matches(&msg("!mcs x")));
    assert!(!s.matches(&msg("!mcx")));
    assert!(!s.matches(&msg("!tm x")));
    assert!(!s.matches(&msg("hello !mc")));
    let mut game = msg("!mc 活塞");
    game.source = Source::Game { sender: "web".to_string(), author: "bob".to_string() };
    assert!(s.matches(&game));
    let mut chatroom = msg("!mc 活塞");
    chatroom.source = Source::Chatroom { username: "alice".to_string() };
    assert!(s.matches(&chatroom));

    let info = s.info();
    assert_eq!(info.name, "mc");
    assert!(info.aliases.is_empty());
    assert_eq!(info.trigger, "!mc");
    assert_eq!(info.description, "文档查询");
}

#[test]
fn skill_empty_query_sends_usage() {
    let mut w = world(vec![], None, 5, 1000);
    assert!(w.run("!mc"));
    assert!(w.run("!MC"));
    assert!(!w.run("!mcs"));
    assert_eq!(w.texts, ["用法：!mc <查询词>", "用法：!mc <查询词>"]);
}

#[test]
fn skill_no_hits_reports_not_found() {
    let mut w = world(vec![("alpha", vec![])], None, 5, 1000);
    assert!(w.run("!mc 活塞"));
    assert_eq!(w.texts, ["!mc 没查到与「活塞」相关的内容"]);
}

#[test]
fn skill_merge_interleaves_sources_and_caps_at_max_results() {
    let mut w = world(vec![alpha(), beta()], None, 3, 1000);
    assert!(w.run("!mc 活塞"));
    let expected = "\
!mc 检索结果：
1. 活塞-1（alpha · a:1）
片段A1

2. 活塞-1b（beta · b:1）
片段B1

3. 活塞-2（alpha · a:2）
片段A2";
    assert_eq!(w.texts, [expected]);
    assert_eq!(w.requests, vec![("活塞".to_string(), 3)]);

    let mut w = world(vec![alpha(), beta()], None, 5, 1000);
    assert!(w.run("!mc 活塞"));
    let expected = "\
!mc 检索结果：
1. 活塞-1（alpha · a:1）
片段A1

2. 活塞-1b（beta · b:1）
片段B1

3. 活塞-2（alpha · a:2）
片段A2

4. 活塞-2b（beta · b:2）
片段B2

5. 活塞-3（alpha · a:3）
片段A3";
    assert_eq!(w.texts, [expected]);
}

#[test]
fn skill_llm_success_sends_answer_and_prompt_cites_sources() {
    let found = vec![
        ("alpha", vec![hit("活塞", "Piston.java:10", "活塞推动方块")]),
        ("beta", vec![hit("粘性活塞", "sticky:5", "可拉回方块")]),
    ];
    let mut w = world(found, Some((200, "活塞可以推动方块")), 5, 1000);
    assert!(w.run("!mc 活塞"));
    assert_eq!(w.texts, ["活塞可以推动方块"]);

    let body = w.bodies.last().unwrap();
    let Json::Array(messages) = body.get("messages").unwrap() else { panic!("no messages") };
    assert_eq!(messages[0].get("content").unwrap().as_str().unwrap(), DEFAULT_SYSTEM_PROMPT);
    assert_eq!(
        user_prompt(body),
        "问题：活塞\n\n检索片段：\n[1] 活塞（alpha · Piston.java:10）\n活塞推动方块\n[2] 粘性活塞（beta · sticky:5）\n可拉回方块"
    );
}

#[test]
fn skill_llm_failure_falls_back_to_excerpts() {
    let found = vec![
        ("alpha", vec![hit("活塞", "Piston.java:10", "活塞推动方块")]),
        ("beta", vec![hit("粘性活塞", "sticky:5", "")]),
    ];
    let mut w = world(found, Some((500, "")), 5, 1000);
    assert!(w.run("!mc 活塞"));
    let expected = "\
!mc 检索结果：
1. 活塞（alpha · Piston.java:10）
活塞推动方块

2. 粘性活塞（beta · sticky:5）";
    assert_eq!(w.texts, [expected]);
}

#[test]
fn skill_without_llm_uses_excerpt_format() {
    let found = vec![("alpha", vec![hit("活塞", "Piston.java:10", "活塞推动方块")])];
    let mut w = world(found, None, 5, 1000);
    assert!(w.run("!mc 活塞"));
    let expected = "\
!mc 检索结果：
1. 活塞（alpha · Piston.java:10）
活塞推动方块";
    assert_eq!(w.texts, [expected]);
}

#[test]
fn skill_truncates_overlong_answer() {
    let found = vec![("alpha", vec![hit("活塞", "Piston.java:10", "片段")])];
    let long = "啊".repeat(120);
    let mut w = world(found, Some((200, &long)), 5, 50);
    assert!(w.run("!mc 活塞"));
    assert_eq!(w.texts, [format!("{}…（已截断）", "啊".repeat(50))]);
}

#[test]
fn skill_truncate_is_utf8_safe() {
    assert_eq!(truncate_answer("abc", 5), "abc");
    assert_eq!(truncate_answer("abc", 3), "abc");
    assert_eq!(truncate_answer("abcd", 3), "abc…（已截断）");
    assert_eq!(truncate_answer("🦀🦀🦀", 2), "🦀🦀…（已截断）");
    assert_eq!(truncate_answer("", 10), "");
    assert_eq!(truncate_answer("活塞", 1), "活…（已截断）");
}

#[test]
fn skill_translates_cjk_query_via_llm_and_dedupes() {
    let found = vec![("mc-source", vec![hit("Guardian", "Guardian.java:421", "守卫者生成")])];
    let mut w = world(found, Some((200, "guardian spawning")), 5, 1000);
    assert!(w.run("!mc 守卫者怎么刷怪"));
    assert_eq!(w.requests.len(), 2);
    assert_eq!(w.requests[0].0, "守卫者怎么刷怪");
    assert_eq!(w.requests[1].0, "guardian spawning");
    let prompt = user_prompt(w.bodies.last().unwrap());
    assert!(prompt.contains("[1] Guardian（mc-source · Guardian.java:421）"));
    assert!(!prompt.contains("[2]"));
}

#[test]
fn skill_ascii_query_skips_translation() {
    let found = vec![("mc-source", vec![hit("Spawner", "Spawner.java:1", "片段")])];
    let mut w = world(found, Some((200, "answer")), 5, 1000);
    assert!(w.run("!mc spawner"));
    assert_eq!(w.requests.len(), 1);
    assert_eq!(w.bodies.len(), 1);
}

#[test]
fn skill_translation_failure_falls_back_to_original_query() {
    let found = vec![("mc-source", vec![hit("Guardian", "Guardian.java:421", "片段")])];
    let mut w = world(found, Some((500, "")), 5, 1000);
    assert!(w.run("!mc 守卫者"));
    assert_eq!(w.requests.len(), 1);
    assert_eq!(w.requests[0].0, "守卫者");
    assert!(w.texts[0].contains("检索结果"));
}

/// A full list ends the search: what the model made of the query is not asked.
#[test]
fn a_full_list_is_not_searched_for_again() {
    let mut w = world(vec![alpha()], Some((200, "piston")), 3, 1000);
    assert!(w.run("!mc 活塞"));
    assert_eq!(w.requests.len(), 1);
    let mut w = world(vec![alpha()], Some((200, "piston")), 4, 1000);
    assert!(w.run("!mc 活塞"));
    assert_eq!(w.requests.len(), 2);
}

#[test]
fn skills_are_built_as_configured() {
    let cfg = read_config(
        r#"{"agent": {"enabled": true,
            "llm": {"api_url": "http://llm", "max_answer_chars": 7},
            "skills": [
                {"name": "mc", "sources": [
                    {"type": "local", "root": "/docs"},
                    {"type": "mediawiki", "api_url": "http://w/api.php", "name": "wiki"}]},
                {"name": "tmc", "trigger": "!tech", "sources": [
                    {"type": "local", "root": "/not-there"}]},
                {"name": "repo", "sources": [{"type": "repo", "repo": "o/n"}]}]}}"#
            .as_bytes(),
    )
    .unwrap();
    let roots = vec!["/docs".to_string()];
    let skills = longest_first(build_skills(&cfg.agent, &roots, "/cache"));
    let triggers: Vec<&str> = skills.iter().map(|s| s.trigger.as_str()).collect();
    assert_eq!(triggers, ["!repo", "!mc"]);
    assert_eq!(skills[1].sources.len(), 2);
    assert_eq!(skills[1].sources[1].name(), "wiki");
    assert!(skills[1].llm.is_some());
    assert_eq!(skills[1].max_answer_chars, 7);
}
