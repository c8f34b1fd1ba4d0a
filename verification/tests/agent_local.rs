//! Searching a directory of documents.

use std::collections::BTreeSet;

use chatroom_bridge::agent::local::{
    is_heading_line, markdown_sections, read_snippet, small_enough, tokenize, tokenize_small, visit,
    Index,
    LocalDocSource, Visit,
};
use chatroom_bridge::agent::DocHit;

/// A directory: paths and contents.
type Tree = Vec<(&'static str, String)>;

fn fixture() -> Tree {
    vec![
        (
            "guide.md",
            "# 活塞与红石\n活塞推动方块向上运动。\n\n## 末地传送门\n末影之眼可以定位要塞。\n".to_string(),
        ),
        (
            "src/PistonBlock.java",
            "public class PistonBlock {\n    /** 活塞推动方块后回缩 (retract the arm). */\n    \
             public void pushBlocks() {\n        extendArm();\n        retractArm();\n    }\n}\n"
                .to_string(),
        ),
        (".hidden/secret.md", "活塞的秘密文档。\n".to_string()),
        ("notes.rst", "活塞标题\n=====\n".to_string()),
        ("target/debug/junk.md", "活塞构建产物。\n".to_string()),
    ]
}

fn index_dir(tree: &Tree, source: &LocalDocSource, prefix: &str, index: &mut Index) {
    let mut names: BTreeSet<(String, bool)> = BTreeSet::new();
    for (path, _) in tree {
        let rest = if prefix.is_empty() {
            Some(*path)
        } else {
            path.strip_prefix(prefix).and_then(|p| p.strip_prefix('/'))
        };
        if let Some(rest) = rest {
            match rest.split_once('/') {
                Some((dir, _)) => names.insert((dir.to_string(), true)),
                None => names.insert((rest.to_string(), false)),
            };
        }
    }
    for (name, is_dir) in names {
        match visit(prefix, &name, is_dir, !is_dir, &source.extensions) {
            Visit::Skip => {}
            Visit::Enter(path) => index_dir(tree, source, &path, index),
            Visit::Read(path) => {
                let content = &tree.iter().find(|f| f.0 == path).unwrap().1;
                assert!(small_enough(content.len() as u64));
                index.index_file(&path, &name, content);
            }
        }
    }
}

fn search(tree: &Tree, extensions: &[&str], query: &str, limit: usize) -> Vec<DocHit> {
    let extensions: Vec<String> = extensions.iter().map(|e| e.to_string()).collect();
    let source = LocalDocSource::new("docs", "/docs", &extensions);
    let mut index = Index::default();
    index_dir(tree, &source, "", &mut index);
    index
        .search(query, limit)
        .iter()
        .map(|found| {
            let content = tree.iter().find(|f| f.0 == found.rel_path).map(|f| f.1.clone());
            LocalDocSource::hit(found, &content)
        })
        .collect()
}

#[test]
fn local_source_md_heading_chunks_score_and_locator() {
    let hits = search(&fixture(), &[".md", ".java"], "活塞 末影", 10);
    assert_eq!(hits.len(), 3);
    assert_eq!(hits[0].title, "活塞与红石");
    assert_eq!(hits[0].locator, "guide.md:1-3");
    assert!(hits[0].snippet.starts_with("# 活塞与红石"));
    assert!(hits[0].snippet.contains("活塞推动方块向上运动。"));
    assert_eq!(hits[1].title, "末地传送门");
    assert_eq!(hits[1].locator, "guide.md:4-5");
    assert!(hits[1].snippet.contains("末影之眼可以定位要塞。"));
    assert_eq!(hits[2].title, "PistonBlock.java");
    assert_eq!(hits[2].locator, "src/PistonBlock.java:1-7");
}

#[test]
fn local_source_code_window_title_and_snippet() {
    let hits = search(&fixture(), &[".md", ".java"], "retract", 10);
    assert_eq!(hits.len(), 1);
    assert_eq!(hits[0].title, "PistonBlock.java");
    assert_eq!(hits[0].locator, "src/PistonBlock.java:1-7");
    assert!(hits[0].snippet.contains("retractArm();"));
}

#[test]
fn local_source_cjk_bigram_matches() {
    let hits = search(&fixture(), &[".md"], "活塞", 10);
    assert_eq!(hits.len(), 1);
    assert!(hits[0].snippet.contains("活塞推动方块"));
}

#[test]
fn local_source_skips_hidden_and_unlisted_extensions() {
    let hits = search(&fixture(), &[".md", ".java"], "活塞", 10);
    assert_eq!(hits.len(), 2);
    for hit in &hits {
        assert!(!hit.locator.contains("secret.md"), "{}", hit.locator);
        assert!(!hit.locator.contains("junk.md"), "{}", hit.locator);
        assert!(!hit.locator.contains("notes.rst"), "{}", hit.locator);
    }
}

#[test]
fn local_source_limit_and_no_match() {
    let hits = search(&fixture(), &[".md", ".java"], "活塞", 1);
    assert_eq!(hits.len(), 1);
    assert_eq!(hits[0].locator, "guide.md:1-3");
    assert!(search(&fixture(), &[".md", ".java"], "完全不存在的词汇", 10).is_empty());
}

#[test]
fn local_source_missing_root_returns_empty() {
    assert!(search(&vec![], &[], "活塞", 10).is_empty());
}

#[test]
fn local_source_default_extensions_when_empty() {
    let tree = vec![("server.cfg", "motd=活塞服务器欢迎你\n".to_string())];
    let hits = search(&tree, &[], "活塞", 10);
    assert_eq!(hits.len(), 1);
    assert_eq!(hits[0].title, "server.cfg");
    assert_eq!(hits[0].locator, "server.cfg:1-1");
}

#[test]
fn words_are_split_by_kind() {
    assert_eq!(tokenize("Piston活塞推 x_1"), ["piston", "活塞", "塞推", "x", "1"]);
    assert_eq!(tokenize("塞"), ["塞"]);
    assert!(tokenize(" -- ").is_empty());
}

#[test]
fn headings_divide_the_lines() {
    assert!(is_heading_line("# a"));
    assert!(is_heading_line("###### a"));
    assert!(!is_heading_line("####### a"));
    assert!(!is_heading_line("#a"));
    let lines: Vec<String> =
        ["before", "# a", "x", "# b"].iter().map(|l| l.to_string()).collect();
    let sections = markdown_sections(&lines);
    assert_eq!(sections.len(), 3);
    let (first, last) = (sections[0], sections[2]);
    assert_eq!((first.0, first.1), (1, 1));
    assert_eq!((last.0, last.1), (4, 4));
}

#[test]
fn long_code_is_cut_into_windows() {
    let code: String = (1..=130).map(|i| format!("line{i}\n")).collect();
    let mut index = Index::default();
    index.index_file("a.java", "a.java", &code);
    assert!(index.chunks.len() > 1);
    assert_eq!(index.chunks[0].start_line, 1);
    assert_eq!(index.chunks.last().unwrap().end_line, 130);
    let hits = index.search("line130", 5);
    assert_eq!(hits.len(), 1);
    assert_eq!(read_snippet(&code, 130, 130), "line130");
}

#[test]
fn a_hit_without_its_file_has_no_snippet() {
    let mut index = Index::default();
    index.index_file("a.md", "a.md", "# 活塞\n");
    let hits = index.search("活塞", 5);
    assert_eq!(LocalDocSource::hit(&hits[0], &None).snippet, "");
}

#[test]
fn a_blank_parts_the_words() {
    let both = tokenize("Foo黑曜石 Bar9 x");
    let mut parts = tokenize("Foo黑曜石");
    parts.extend(tokenize("Bar9 x"));
    assert_eq!(both, parts);
    assert_eq!(both, ["foo", "黑曜", "曜石", "bar9", "x"]);
}

#[test]
fn small_letters_are_read_as_they_are() {
    assert_eq!(tokenize_small("ab黑曜石 c"), ["ab", "黑曜", "曜石", "c"]);
    assert_eq!(tokenize("ΟΔΟΣ Σ"), tokenize("οδος σ"));
    assert!(tokenize_small("").is_empty());
}
