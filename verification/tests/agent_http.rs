//! Searching a wiki.

use chatroom_bridge::agent::http::{
    clean_search_query, get_json, strip_html_tags, strip_trailing_particles, MediaWikiSource,
    WikiStep,
};
use chatroom_bridge::agent::DocHit;

type Params = Vec<(String, String)>;

/// A wiki that replies to the three kinds of requests.
struct Wiki {
    titles: Option<(u16, String)>,
    search: Option<(u16, String)>,
    extracts: Option<(u16, String)>,
    asked: Vec<Params>,
}

fn param<'a>(params: &'a Params, key: &str) -> Option<&'a str> {
    params.iter().find(|p| p.0 == key).map(|p| p.1.as_str())
}

fn ok(body: &str) -> Option<(u16, String)> {
    Some((200, body.to_string()))
}

const NO_PAGES: &str = r#"{"query": {"pages": {}}}"#;

impl Wiki {
    fn run(&mut self, source: &MediaWikiSource, query: &str, limit: usize) -> Vec<DocHit> {
        let (mut search, mut step) = source.search(query, limit);
        loop {
            match step {
                WikiStep::Done(hits) => return hits,
                WikiStep::Ask(params) => {
                    let reply = if param(&params, "redirects").is_some() {
                        self.titles.clone()
                    } else if param(&params, "prop").is_some() {
                        self.extracts.clone()
                    } else {
                        self.search.clone()
                    };
                    self.asked.push(params);
                    let reply = reply.map(|(status, body)| (status, body.into_bytes()));
                    step = source.answered(&mut search, get_json(reply));
                }
            }
        }
    }
}

#[test]
fn mediawiki_two_step_search_builds_hits() {
    let long_extract = "活塞是一种红石元件，可以推动方块。".repeat(100);
    let mut wiki = Wiki {
        titles: ok(NO_PAGES),
        search: ok(
            r#"{"query": { "search": [
                { "title": "Piston", "pageid": 111,
                  "snippet": "A <span class=\"searchmatch\">piston</span> is a block." },
                { "title": "Sticky Piston", "pageid": 222,
                  "snippet": "A sticky <span class=\"searchmatch\">piston</span> can pull." }]}}"#,
        ),
        extracts: ok(&format!(
            r#"{{"query": {{ "pages": {{
                "111": {{ "pageid": 111, "title": "Piston", "extract": "{long_extract}" }},
                "222": {{ "pageid": 222, "title": "Sticky Piston" }}}}}}}}"#
        )),
        asked: vec![],
    };
    let source = MediaWikiSource::new("minecraft-wiki", "http://mock/api.php");
    let hits = wiki.run(&source, "piston", 2);

    assert_eq!(hits.len(), 2);
    assert_eq!(hits[0].title, "Piston");
    assert_eq!(hits[1].title, "Sticky Piston");
    assert_eq!(source.base_url, "http://mock");
    assert_eq!(hits[0].locator, "http://mock/wiki/Piston");
    assert_eq!(hits[1].locator, "http://mock/wiki/Sticky_Piston");
    assert_eq!(hits[0].snippet.chars().count(), 1600);
    assert!(hits[0].snippet.starts_with("活塞是一种红石元件，可以推动方块。"));
    assert_eq!(hits[1].snippet, "A sticky piston can pull.");

    let asked = &wiki.asked;
    assert_eq!(asked.len(), 3);
    assert_eq!(param(&asked[0], "redirects"), Some("1"));
    assert_eq!(param(&asked[0], "titles"), Some("piston"));
    assert_eq!(param(&asked[1], "list"), Some("search"));
    assert_eq!(param(&asked[1], "srlimit"), Some("2"));
    assert_eq!(param(&asked[1], "srsearch"), Some("piston"));
    assert_eq!(param(&asked[2], "prop"), Some("extracts"));
    assert_eq!(param(&asked[2], "explaintext"), Some("1"));
    assert_eq!(param(&asked[2], "exlimit"), Some("max"));
    assert_eq!(param(&asked[2], "titles"), Some("Piston|Sticky Piston"));
}

#[test]
fn mediawiki_title_direct_hit_beats_fulltext() {
    let extract = "活塞（Piston）是一种红石元件。".repeat(20);
    let mut wiki = Wiki {
        titles: ok(&format!(
            r#"{{"query": {{ "pages": {{
                "7528": {{ "pageid": 7528, "title": "活塞", "extract": "{extract}" }}}}}}}}"#
        )),
        search: ok(
            r#"{"query": { "search": [
                { "title": "活塞", "pageid": 7528, "snippet": "…<span>活塞</span>…" },
                { "title": "Java版17w49b", "pageid": 333,
                  "snippet": "激活的<span class=\"searchmatch\">活塞</span>被推出时…" }]}}"#,
        ),
        extracts: ok(
            r#"{"query": { "pages": { "333": { "pageid": 333, "title": "Java版17w49b" }}}}"#,
        ),
        asked: vec![],
    };
    let source = MediaWikiSource::new("minecraft-wiki", "http://mock/api.php");
    let hits = wiki.run(&source, "活塞", 2);
    assert_eq!(hits.len(), 2);
    assert_eq!(hits[0].title, "活塞");
    assert!(hits[0].snippet.starts_with("活塞（Piston）"));
    assert_eq!(hits[1].title, "Java版17w49b");
    assert_eq!(hits[1].snippet, "激活的活塞被推出时…");
    assert_eq!(wiki.asked.len(), 3);
}

#[test]
fn mediawiki_server_error_returns_empty() {
    let mut wiki = Wiki {
        titles: ok(NO_PAGES),
        search: Some((500, String::new())),
        extracts: ok("null"),
        asked: vec![],
    };
    let source = MediaWikiSource::new("wiki", "http://mock/api.php");
    assert!(wiki.run(&source, "piston", 5).is_empty());
    assert_eq!(wiki.asked.len(), 2);
}

#[test]
fn mediawiki_malformed_json_returns_empty() {
    let mut wiki = Wiki {
        titles: ok(NO_PAGES),
        search: ok("{broken json"),
        extracts: ok("null"),
        asked: vec![],
    };
    let source = MediaWikiSource::new("wiki", "http://mock/api.php");
    assert!(wiki.run(&source, "piston", 5).is_empty());
    assert_eq!(wiki.asked.len(), 2);
}

#[test]
fn mediawiki_unreachable_returns_empty() {
    let mut wiki = Wiki { titles: None, search: None, extracts: None, asked: vec![] };
    let source = MediaWikiSource::new("wiki", "http://127.0.0.1:1/api.php");
    assert!(wiki.run(&source, "piston", 5).is_empty());
}

#[test]
fn mediawiki_base_url_derivation() {
    let stripped = MediaWikiSource::new("a", "https://minecraft.wiki/w/api.php");
    assert_eq!(stripped.base_url, "https://minecraft.wiki/w");
    let untouched = MediaWikiSource::new("b", "https://example.com/rest.php");
    assert_eq!(untouched.base_url, "https://example.com/rest.php");
}

#[test]
fn strips_question_words_and_punctuation() {
    assert_eq!(clean_search_query("帮我查一下黑曜石的爆炸抗性是多少？"), "黑曜石的爆炸抗性");
    assert_eq!(clean_search_query("活塞怎么工作？"), "活塞 工作");
    assert_eq!(clean_search_query("1.21 的刷怪塔怎么建"), "1.21 的刷怪塔 建");
    assert_eq!(clean_search_query("我的世界末影人"), "我的世界末影人");
    assert_eq!(clean_search_query("piston"), "piston");
    assert_eq!(clean_search_query("？？？"), "");
}

#[test]
fn tags_and_particles_are_stripped() {
    assert_eq!(strip_html_tags("a <b>c</b> d"), "a c d");
    assert_eq!(strip_trailing_particles("黑曜石吗"), "黑曜石");
    assert_eq!(strip_trailing_particles("吗"), "吗");
}

#[test]
fn a_reply_counts_only_where_it_succeeded() {
    assert!(get_json(Some((200, b"{}".to_vec()))).is_some());
    assert!(get_json(Some((404, b"{}".to_vec()))).is_none());
    assert!(get_json(Some((200, b"{".to_vec()))).is_none());
    assert!(get_json(None).is_none());
}

#[test]
fn cleaning_twice_changes_nothing_more() {
    for query in ["帮我查一下黑曜石的爆炸抗性是多少？", "怎怎么么 a", "？是多少！", "  ~x·，  1.21 ", ""] {
        let once = clean_search_query(query);
        assert_eq!(clean_search_query(&once), once);
    }
    assert_eq!(clean_search_query("怎怎么么 a"), "怎 么 a");
}
