//! Searching a repository.

use chatroom_bridge::adapters::onebot::decode_component;
use chatroom_bridge::agent::local::{visit, Index, LocalDocSource, Visit};
use chatroom_bridge::agent::repo::{
    extract_tarball, is_in_range, join_path, percent_encode_path, repo_slug, strip_doc_extension,
    unpack_entries, Preparation, Prepared, RepoSource, REFRESH_SECS, TOO_SPARSE,
};
use chatroom_bridge::agent::DocHit;

const INTRO_MD: &str = "# Introduction\nSpawning rules for mobs live here.\n";
const NESTED_MD: &str = "# Deep Page\nVillager trading hall notes live here.\n";
const NOW: u64 = 1_800_000_000;
const BASE: &str = "http://mock";

fn build_tar_gz() -> Vec<u8> {
    let gz = flate2::write::GzEncoder::new(Vec::new(), flate2::Compression::fast());
    let mut tar = tar::Builder::new(gz);
    for (path, content) in [
        ("RepoXyz123/src/introduction.md", INTRO_MD),
        ("RepoXyz123/src/deep/nested.md", NESTED_MD),
    ] {
        let mut header = tar::Header::new_gnu();
        header.set_entry_type(tar::EntryType::Regular);
        header.set_mode(0o644);
        header.set_size(content.len() as u64);
        header.set_cksum();
        tar.append_data(&mut header, path, content.as_bytes()).unwrap();
    }
    tar.into_inner().unwrap().finish().unwrap()
}

/// What a disk holds of a cache, and a server that gives out a tarball.
struct World {
    meta: Option<String>,
    files: Vec<(String, String)>,
    down: bool,
    requests: usize,
}

impl World {
    fn new() -> Self {
        World { meta: None, files: vec![], down: false, requests: 0 }
    }

    fn stale(&mut self) {
        self.meta = Some(format!(r#"{{"downloaded_at": {}}}"#, NOW - REFRESH_SECS - 60 * 60));
    }

    /// Makes the cache ready; whether there is anything to search in.
    fn prepare(&mut self, source: &RepoSource) -> bool {
        let meta = self.meta.clone().map(String::into_bytes);
        let has_snapshot = meta.is_some();
        let url = match source.prepare(meta, NOW) {
            Preparation::Use => return true,
            Preparation::Download(url) => url,
        };
        assert_eq!(url, "http://mock/tar.gz");
        self.requests += 1;
        let reply = if self.down { (500, vec![]) } else { (200, build_tar_gz()) };
        let unpacked = RepoSource::downloaded(Ok(reply)).and_then(|bytes| extract_tarball(&bytes));
        let filled = unpacked.is_ok();
        if let Ok(entries) = unpacked {
            self.files = entries
                .into_iter()
                .filter(|e| !e.is_dir)
                .map(|e| (e.path, String::from_utf8(e.data).unwrap()))
                .collect();
        }
        match RepoSource::prepared(filled, has_snapshot, NOW) {
            Prepared::Refreshed(text) => {
                self.meta = Some(text);
                true
            }
            Prepared::Old => true,
            Prepared::Nothing => false,
        }
    }

    fn search(&mut self, source: &RepoSource, query: &str) -> Vec<DocHit> {
        if !self.prepare(source) {
            return vec![];
        }
        let inner = source.build_inner();
        let below = inner.root.strip_prefix(&source.cache_dir).unwrap().trim_start_matches('/');
        let mut index = Index::default();
        for (path, content) in &self.files {
            let Some(rel) = path.strip_prefix(below) else { continue };
            let rel = rel.trim_start_matches('/');
            let (dir, name) = rel.rsplit_once('/').unwrap_or(("", rel));
            if let Visit::Read(rel) = visit(dir, name, false, true, &inner.extensions) {
                index.index_file(&rel, name, content);
            }
        }
        let hits = index
            .search(query, 10)
            .iter()
            .map(|found| {
                let path = join_path(below, &found.rel_path);
                let content = self.files.iter().find(|f| f.0 == path).map(|f| f.1.clone());
                LocalDocSource::hit(found, &content)
            })
            .collect();
        source.found(&hits)
    }
}

fn make_source() -> RepoSource {
    RepoSource::new("mc-docs", "http://mock/tar.gz", "main", "src", BASE, &vec![], "/cache")
}

#[test]
fn repo_downloads_extracts_and_maps_site_url() {
    let mut world = World::new();
    let hits = world.search(&make_source(), "spawning");
    assert_eq!(world.requests, 1);
    assert_eq!(hits.len(), 1);
    assert_eq!(hits[0].title, "Introduction");
    assert_eq!(hits[0].locator, format!("{BASE}/introduction"));
    assert!(hits[0].snippet.contains("Spawning"));
    assert!(world.meta.is_some());
}

#[test]
fn repo_subdir_scopes_inner_root() {
    let mut world = World::new();
    let source = make_source();
    assert_eq!(source.build_inner().root, join_path(&source.cache_dir, "src"));
    let nested = world.search(&source, "villager");
    assert_eq!(nested.len(), 1);
    assert_eq!(nested[0].locator, format!("{BASE}/deep/nested"));
    let intro = world.search(&source, "spawning");
    assert_eq!(intro.len(), 1);
    assert_eq!(intro[0].locator, format!("{BASE}/introduction"));
}

#[test]
fn repo_fresh_cache_reuses_without_download() {
    let mut world = World::new();
    let source = make_source();
    assert!(!world.search(&source, "spawning").is_empty());
    assert!(!world.search(&source, "villager").is_empty());
    assert!(!world.search(&source, "introduction").is_empty());
    assert_eq!(world.requests, 1);
}

#[test]
fn repo_stale_meta_triggers_redownload() {
    let mut world = World::new();
    world.stale();
    assert!(!world.search(&make_source(), "spawning").is_empty());
    assert_eq!(world.requests, 1);
    assert!(!world.search(&make_source(), "spawning").is_empty());
    assert_eq!(world.requests, 1);
}

#[test]
fn repo_server_error_falls_back_to_stale_cache() {
    let mut world = World::new();
    assert!(!world.search(&make_source(), "spawning").is_empty());
    assert_eq!(world.requests, 1);
    world.down = true;
    world.stale();
    let hits = world.search(&make_source(), "spawning");
    assert_eq!(hits.len(), 1);
    assert_eq!(hits[0].locator, format!("{BASE}/introduction"));
    assert_eq!(world.requests, 2);
}

#[test]
fn repo_server_error_without_cache_returns_empty() {
    let mut world = World::new();
    world.down = true;
    assert!(world.search(&make_source(), "spawning").is_empty());
    assert_eq!(world.requests, 1);
    assert_eq!(RepoSource::downloaded(Ok((500, vec![]))).unwrap_err(), "HTTP 500");
}

#[test]
fn repo_map_locator_variants() {
    let site = RepoSource::new(
        "docs",
        "owner/name",
        "main",
        "",
        "https://minecraftdocs.dev/",
        &vec![],
        "/tmp",
    );
    assert_eq!(site.map_locator("introduction.md:1-9"), "https://minecraftdocs.dev/introduction");
    assert_eq!(
        site.map_locator("deep/nested.markdown:2-3"),
        "https://minecraftdocs.dev/deep/nested"
    );
    let blob = RepoSource::new("docs", "owner/name", "main", "", "", &vec![], "/tmp");
    assert_eq!(
        blob.map_locator("src/deep/nested.md:2-3"),
        "https://github.com/owner/name/blob/main/src/deep/nested.md"
    );
    assert_eq!(
        blob.map_locator("src\\deep\\nested.md:4-6"),
        "https://github.com/owner/name/blob/main/src/deep/nested.md"
    );
    assert_eq!(
        blob.map_locator("BlockUpdate/更新的概念.zh.md:1-9"),
        format!(
            "https://github.com/owner/name/blob/main/BlockUpdate/{}.zh.md",
            "%E6%9B%B4%E6%96%B0%E7%9A%84%E6%A6%82%E5%BF%B5"
        )
    );
    assert_eq!(site.map_locator("readme"), "https://minecraftdocs.dev/readme");
    assert_eq!(site.map_locator("readme.md"), "https://minecraftdocs.dev/readme");
    assert_eq!(site.map_locator("0. Home.md:1-9"), "https://minecraftdocs.dev/0.%20Home");
    assert_eq!(
        site.map_locator("教程/第一章.md:1-2"),
        "https://minecraftdocs.dev/%E6%95%99%E7%A8%8B/%E7%AC%AC%E4%B8%80%E7%AB%A0"
    );
}

#[test]
fn a_repository_has_an_address_and_a_directory() {
    let source = RepoSource::new("d", "owner/name", "dev", "", "", &vec![], "/cache");
    assert_eq!(
        source.tarball_url(),
        "https://codeload.github.com/owner/name/tar.gz/refs/heads/dev"
    );
    assert_eq!(source.cache_dir, "/cache/owner-name");
    assert_eq!(repo_slug("http://x/y?z"), "http---x-y-z");
    assert_eq!(join_path("/cache", "/absolute"), "/absolute");
    assert_eq!(percent_encode_path("a b/中"), "a%20b/%E4%B8%AD");
    assert_eq!(strip_doc_extension("a/b.MD"), "a/b.MD");
}

#[test]
fn nothing_leaves_the_directory() {
    let entries = vec![
        (b'0', true, "top/ok.md".to_string(), b"x".to_vec()),
        (b'0', true, "top/../../evil.md".to_string(), b"x".to_vec()),
        (b'5', true, "top/sub".to_string(), vec![]),
        (b'0', true, "alone.md".to_string(), b"x".to_vec()),
    ];
    let unpacked = unpack_entries(entries);
    let paths: Vec<&str> = unpacked.iter().map(|u| u.path.as_str()).collect();
    assert_eq!(paths, ["ok.md", "sub"]);
    assert!(unpacked[1].is_dir);
    assert!(extract_tarball(b"no tarball").is_err());
}

#[test]
fn a_cache_is_fresh_for_a_day() {
    let at = |n: u64| Some(format!(r#"{{"downloaded_at": {n}}}"#).into_bytes());
    assert!(RepoSource::cache_fresh(at(NOW), NOW));
    assert!(RepoSource::cache_fresh(at(NOW + 5), NOW));
    assert!(RepoSource::cache_fresh(at(NOW - REFRESH_SECS + 1), NOW));
    assert!(!RepoSource::cache_fresh(at(NOW - REFRESH_SECS), NOW));
    assert!(!RepoSource::cache_fresh(Some(b"{}".to_vec()), NOW));
    assert!(!RepoSource::cache_fresh(None, NOW));
}

#[test]
fn a_slash_makes_a_directory_under_an_old_header() {
    let entries = vec![
        (b'0', false, "top/old/".to_string(), vec![]),
        (b'0', true, "top/new/".to_string(), vec![]),
        (b'0', false, "top/file".to_string(), vec![]),
    ];
    let unpacked = unpack_entries(entries);
    let dirs: Vec<bool> = unpacked.iter().map(|u| u.is_dir).collect();
    assert_eq!(dirs, [true, false, false]);
}

#[test]
fn a_path_is_decoded_to_itself() {
    for path in ["a b/中", "100%+1", "~x-y_z.md", "", "%41", "\0é🙂"] {
        assert_eq!(decode_component(&percent_encode_path(path)), path);
    }
    assert_eq!(percent_encode_path("%+"), "%25%2B");
}

fn sparse_header(size: u64, real_size: u64) -> tar::Header {
    let mut header = tar::Header::new_gnu();
    header.set_path("top/sparse.md").unwrap();
    header.set_entry_type(tar::EntryType::GNUSparse);
    header.set_mode(0o644);
    header.set_size(size);
    let gnu = header.as_gnu_mut().unwrap();
    gnu.sparse[0].set_offset(2);
    gnu.sparse[0].set_length(3);
    gnu.set_real_size(real_size);
    header
}

fn zipped(plain: &[u8]) -> Vec<u8> {
    let mut gz = flate2::write::GzEncoder::new(Vec::new(), flate2::Compression::fast());
    std::io::Write::write_all(&mut gz, plain).unwrap();
    gz.finish().unwrap()
}

#[test]
fn a_small_sparse_file_is_unpacked() {
    let mut header = sparse_header(3, 5);
    header.set_cksum();
    let mut plain = header.as_bytes().to_vec();
    plain.extend_from_slice(b"abc");
    plain.resize(2048, 0);
    assert!(is_in_range(&plain));
    let unpacked = extract_tarball(&zipped(&plain)).unwrap();
    assert_eq!(unpacked.len(), 1);
    assert_eq!(unpacked[0].path, "sparse.md");
    assert_eq!(unpacked[0].data, b"\0\0abc".to_vec());

    let mut cut = zipped(&plain);
    let end = cut.len() - 8;
    cut.truncate(end);
    assert_eq!(extract_tarball(&cut).unwrap().len(), 1);
}

#[test]
fn large_sparse_files_are_refused() {
    for (size, real_size) in [(0xFFFF_FFFF_FFFF_FC00, 5), (3, 1 << 30), (3, 1 << 62)] {
        let mut header = sparse_header(size, real_size);
        header.as_gnu_mut().unwrap().set_is_extended(true);
        header.set_cksum();
        let mut plain = header.as_bytes().to_vec();
        plain.resize(2048, 0);
        assert!(!is_in_range(&plain));
        assert_eq!(extract_tarball(&zipped(&plain)).unwrap_err(), TOO_SPARSE);
    }
    assert!(is_in_range(&vec![0u8; 1000]));
}
