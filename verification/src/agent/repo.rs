//! Documents of a GitHub repository.
//!
//! The repository comes as a tarball, is unpacked into a directory and searched
//! there. It is fetched again when it is a day old; where that fails, what is there
//! is used, and without anything there the source stays empty.

use crate::adapters::chatbridge::hex_value;
use crate::adapters::onebot::{component, unescaped};
use crate::agent::local::LocalDocSource;
use crate::agent::{hits_held, DocHit, DocHitV, DocumentSource};
use crate::json::{
    a_member_is_found, exact_to, is_exact, json_read, json_text, json_text_of, object1, parse_json,
    Json, JsonV, Number, NumberV,
};
use crate::text::{
    a_cut_is_at_the_first, a_part_occurs, among, begins, bytes_of, chars_of, contains, copy_texts,
    cut, decimal, drop_back, ends, finishes, has, join, join2, join3, joined,
    joined_texts_come_apart, pieces, push_text, replace, replaced, replacing_a_character, same,
    split, split_once, starts, text_of, texts, trim_end_of, u64_text,
    what_is_parted_alike_is_alike, Text,
};
use vstd::prelude::*;
use vstd::utf8::encode_utf8;

verus! {

/// The name of the file that says when a cache was filled.
pub const META_FILE: &'static str = "meta.json";

/// The age at which a cache is filled again, in seconds.
pub const REFRESH_SECS: u64 = 86400;

/// Endings of files that are read where no others are configured.
pub const DOC_EXTENSIONS: [&'static str; 4] = [".md", ".markdown", ".mdx", ".txt"];

/// Whether a byte stands for itself in the path of an address.
pub open spec fn stays(b: u8) -> bool {
    (65 <= b && b <= 90) || (97 <= b && b <= 122) || (48 <= b && b <= 57) || b == 45 || b == 95 || b
        == 46 || b == 126 || b == 47
}

/// A digit of a hexadecimal number, in capitals.
pub open spec fn hex_digit(n: int) -> char {
    if n < 10 {
        (48 + n) as char
    } else {
        (55 + n) as char
    }
}

/// How a byte is written in the path of an address.
pub open spec fn byte_in_path(b: u8) -> Text {
    if stays(b) {
        seq![b as char]
    } else {
        seq!['%', hex_digit(b as int / 16), hex_digit(b as int % 16)]
    }
}

/// How bytes are written in the path of an address.
pub open spec fn bytes_in_path(bytes: Seq<u8>) -> Text
    decreases bytes.len(),
{
    if bytes.len() == 0 {
        Seq::empty()
    } else {
        bytes_in_path(bytes.drop_last()) + byte_in_path(bytes.last())
    }
}

/// A path as it stands in an address.
pub open spec fn path_in_address(path: Text) -> Text {
    bytes_in_path(vstd::utf8::encode_utf8(path))
}

/// A digit of a hexadecimal number, in capitals.
fn hex_char(n: u8) -> (r: char)
    requires
        n < 16,
    ensures
        r == hex_digit(n as int),
{
    if n < 10 {
        (48 + n) as char
    } else {
        (55 + n) as char
    }
}

/// A path as it stands in an address: letters, digits, `-`, `_`, `.`, `~` and `/`
/// stay, every other byte becomes `%` and two digits.
pub fn percent_encode_path(path: &str) -> (r: String)
    ensures
        r@ == path_in_address(path@),
{
    let bytes = bytes_of(path);
    let ghost all = bytes@;
    let mut out = String::new();
    let mut i: usize = 0;
    assert(out@ =~= bytes_in_path(all.take(0)));
    while i < bytes.len()
        invariant
            i <= bytes@.len(),
            all == bytes@,
            out@ == bytes_in_path(all.take(i as int)),
        decreases bytes@.len() - i,
    {
        let b: u8 = bytes[i];
        let ghost first = out@;
        assert(all.take(i + 1).drop_last() =~= all.take(i as int));
        assert(all.take(i + 1).last() == b);
        if (65 <= b && b <= 90) || (97 <= b && b <= 122) || (48 <= b && b <= 57) || b == 45 || b
            == 95 || b == 46 || b == 126 || b == 47 {
            out.push(b as char);
        } else {
            out.push('%');
            out.push(hex_char(b / 16));
            out.push(hex_char(b % 16));
        }
        assert(out@ =~= first + byte_in_path(b));
        i = i + 1;
    }
    assert(all.take(i as int) =~= all);
    out
}

/// Whether a character may stand in the path of an address.
pub open spec fn in_address(c: char) -> bool {
    ('A' <= c && c <= 'Z') || ('a' <= c && c <= 'z') || ('0' <= c && c <= '9') || c == '-' || c == '_'
        || c == '.' || c == '~' || c == '/' || c == '%'
}

/// A path in an address is made of characters that may stand there.
pub proof fn an_address_is_plain(bytes: Seq<u8>)
    ensures
        forall|i: int|
            0 <= i < bytes_in_path(bytes).len() ==> in_address(#[trigger] bytes_in_path(bytes)[i]),
    decreases bytes.len(),
{
    if bytes.len() > 0 {
        an_address_is_plain(bytes.drop_last());
        let first = bytes_in_path(bytes.drop_last());
        let last = byte_in_path(bytes.last());
        let all = bytes_in_path(bytes);
        assert forall|i: int| 0 <= i < all.len() implies in_address(#[trigger] all[i]) by {
            if i < first.len() {
                assert(all[i] == first[i]);
            } else {
                assert(all[i] == last[i - first.len()]);
            }
        }
    }
}

/// Whether a character is a digit of a hexadecimal number, in capitals.
pub open spec fn is_hex_digit(c: char) -> bool {
    ('0' <= c && c <= '9') || ('A' <= c && c <= 'F')
}

/// Each percent sign in an address has two digits behind it, in capitals.
pub proof fn an_escape_has_two_digits(bytes: Seq<u8>)
    ensures
        forall|i: int|
            0 <= i < bytes_in_path(bytes).len() && #[trigger] bytes_in_path(bytes)[i] == '%' ==> {
                &&& i + 2 < bytes_in_path(bytes).len()
                &&& is_hex_digit(bytes_in_path(bytes)[i + 1])
                &&& is_hex_digit(bytes_in_path(bytes)[i + 2])
            },
    decreases bytes.len(),
{
    if bytes.len() > 0 {
        an_escape_has_two_digits(bytes.drop_last());
        let first = bytes_in_path(bytes.drop_last());
        let last = byte_in_path(bytes.last());
        let all = bytes_in_path(bytes);
        let n = first.len() as int;
        assert forall|i: int| 0 <= i < all.len() && #[trigger] all[i] == '%' implies i + 2
            < all.len() && is_hex_digit(all[i + 1]) && is_hex_digit(all[i + 2]) by {
            if i < n {
                assert(all[i] == first[i]);
                assert(all[i + 1] == first[i + 1]);
                assert(all[i + 2] == first[i + 2]);
            } else {
                assert(all[i] == last[i - n]);
                assert(i == n && last.len() == 3);
                assert(all[i + 1] == last[1]);
                assert(all[i + 2] == last[2]);
            }
        }
    }
}

/// What bytes are in an address begins with what their first byte is there.
proof fn lemma_first_in_path(bytes: Seq<u8>)
    requires
        bytes.len() > 0,
    ensures
        bytes_in_path(bytes) == byte_in_path(bytes[0]) + bytes_in_path(bytes.drop_first()),
    decreases bytes.len(),
{
    let rest = bytes.drop_first();
    if bytes.len() == 1 {
        assert(bytes.drop_last() =~= Seq::<u8>::empty());
        assert(rest =~= Seq::<u8>::empty());
        assert(bytes_in_path(bytes) =~= byte_in_path(bytes[0]) + bytes_in_path(rest));
    } else {
        lemma_first_in_path(bytes.drop_last());
        assert(bytes.drop_last().drop_first() =~= rest.drop_last());
        assert(bytes_in_path(bytes) =~= byte_in_path(bytes[0]) + bytes_in_path(rest));
    }
}

/// The bytes of an address, each of which is one character.
proof fn lemma_address_bytes(bytes: Seq<u8>)
    ensures
        encode_utf8(bytes_in_path(bytes)).len() == bytes_in_path(bytes).len(),
        forall|i: int|
            0 <= i < bytes_in_path(bytes).len() ==> #[trigger] encode_utf8(
                bytes_in_path(bytes),
            )[i] == bytes_in_path(bytes)[i] as u8,
{
    let text = bytes_in_path(bytes);
    an_address_is_plain(bytes);
    assert forall|i: int| 0 <= i < text.len() implies '\0' <= #[trigger] text[i] <= '\u{7f}' by {
        assert(in_address(text[i]));
    }
    assert(vstd::utf8::is_ascii_chars(text));
    vstd::utf8::is_ascii_chars_encode_utf8(text);
}

/// Decoding what bytes are in an address gives the bytes back.
proof fn lemma_path_decodes(bytes: Seq<u8>)
    ensures
        unescaped(encode_utf8(bytes_in_path(bytes))) == bytes,
    decreases bytes.len(),
{
    let e = encode_utf8(bytes_in_path(bytes));
    lemma_address_bytes(bytes);
    if bytes.len() == 0 {
        assert(e =~= Seq::<u8>::empty());
        assert(unescaped(e) =~= bytes);
    } else {
        let b = bytes[0];
        let rest = bytes.drop_first();
        let head = byte_in_path(b);
        let text = bytes_in_path(bytes);
        lemma_first_in_path(bytes);
        lemma_path_decodes(rest);
        lemma_address_bytes(rest);
        let n = head.len() as int;
        assert(e.subrange(n, e.len() as int) =~= encode_utf8(bytes_in_path(rest)));
        assert(text[0] == head[0]);
        if stays(b) {
            assert(e[0] == b);
        } else {
            assert(text[1] == head[1] && text[2] == head[2]);
            assert(e[0] == 37);
            assert(hex_value(e[1]) == Some((b / 16) as u8));
            assert(hex_value(e[2]) == Some((b % 16) as u8));
        }
        assert(unescaped(e) =~= seq![b] + rest);
        assert(seq![b] + rest =~= bytes);
    }
}

/// Decoding a path in an address gives the path back.
pub proof fn a_path_is_decoded_again(path: Text)
    ensures
        component(path_in_address(path)) == path,
{
    lemma_path_decodes(encode_utf8(path));
    vstd::utf8::encode_utf8_valid_utf8(path);
    vstd::utf8::encode_utf8_decode_utf8(path);
}

/// Whether a character stays in the name of a cache.
pub open spec fn slug_char(c: char) -> bool {
    ('a' <= c && c <= 'z') || ('A' <= c && c <= 'Z') || ('0' <= c && c <= '9') || c == '-' || c
        == '_'
}

/// The name of a repository's cache.
pub open spec fn slug_of(repo: Text) -> Text {
    if repo.len() == 0 {
        "repo"@
    } else {
        Seq::new(
            repo.len(),
            |i: int|
                if slug_char(repo[i]) {
                    repo[i]
                } else {
                    '-'
                },
        )
    }
}

/// The name of a repository's cache: letters, digits, `-` and `_` stay, anything else
/// becomes `-`.
pub fn repo_slug(repo: &str) -> (r: String)
    ensures
        r@ == slug_of(repo@),
{
    let v = chars_of(repo);
    let mut out = String::new();
    let mut i: usize = 0;
    while i < v.len()
        invariant
            i <= v@.len(),
            v@ == repo@,
            out@.len() == i,
            forall|k: int|
                0 <= k < i ==> (#[trigger] out@[k]) == if slug_char(repo@[k]) {
                    repo@[k]
                } else {
                    '-'
                },
        decreases v@.len() - i,
    {
        let c: char = v[i];
        if ('a' <= c && c <= 'z') || ('A' <= c && c <= 'Z') || ('0' <= c && c <= '9') || c == '-'
            || c == '_' {
            out.push(c);
        } else {
            out.push('-');
        }
        i = i + 1;
    }
    if v.len() == 0 {
        return "repo".to_owned();
    }
    assert(out@ =~= slug_of(repo@));
    out
}

/// The name of a cache is a single name: it is not empty and holds nothing that
/// leads elsewhere.
pub proof fn a_cache_name_is_one_name(repo: Text)
    ensures
        slug_of(repo).len() > 0,
        forall|i: int| 0 <= i < slug_of(repo).len() ==> slug_char(#[trigger] slug_of(repo)[i]),
{
    reveal_strlit("repo");
}

/// A path without the ending of a document.
pub open spec fn without_ending(path: Text) -> Text {
    if ends(path, ".markdown"@) {
        path.subrange(0, path.len() - ".markdown"@.len())
    } else if ends(path, ".md"@) {
        path.subrange(0, path.len() - ".md"@.len())
    } else {
        path
    }
}

/// A path without the ending of a document.
pub fn strip_doc_extension(path: &str) -> (r: String)
    ensures
        r@ == without_ending(path@),
{
    proof {
        reveal_strlit(".markdown");
        reveal_strlit(".md");
    }
    let v = chars_of(path);
    if finishes(path, ".markdown") {
        text_of(&v, 0, v.len() - 9)
    } else if finishes(path, ".md") {
        text_of(&v, 0, v.len() - 3)
    } else {
        path.to_owned()
    }
}

/// A path behind another: an absolute one stands for itself.
pub open spec fn path_joined(base: Text, rel: Text) -> Text {
    if begins(rel, "/"@) || base.len() == 0 {
        rel
    } else if ends(base, "/"@) {
        base + rel
    } else {
        base + "/"@ + rel
    }
}

/// A path behind another.
pub fn join_path(base: &str, rel: &str) -> (r: String)
    ensures
        r@ == path_joined(base@, rel@),
{
    if starts(rel, "/") || base.is_empty() {
        rel.to_owned()
    } else if finishes(base, "/") {
        join2(base, rel)
    } else {
        join3(base, "/", rel)
    }
}

/// What [`read_tarball`] finds: of each entry the byte of its kind, whether its header
/// is one of ustar, its path and its data; nothing where the bytes cannot be read.
pub uninterp spec fn tarball_entries(bytes: Seq<u8>) -> Option<
    Seq<(u8, bool, Seq<char>, Seq<u8>)>,
>;

/// What a list of entries holds.
pub open spec fn entries_held(v: Seq<(u8, bool, String, Vec<u8>)>) -> Seq<
    (u8, bool, Text, Seq<u8>),
> {
    Seq::new(v.len(), |i: int| (v[i].0, v[i].1, v[i].2@, v[i].3@))
}

/// The bytes that a gzip stream holds, up to where it ends or breaks off.
pub uninterp spec fn gunzipped(bytes: Seq<u8>) -> Seq<u8>;

/// Reads `flate2::read::GzDecoder` to its end, or byte by byte up to its first error: the
/// bytes that come out depend on the stream alone.
#[verifier::external_body]
fn gunzip(bytes: &[u8]) -> (r: Vec<u8>)
    ensures
        r@ == gunzipped(bytes@),
{
    let mut out = Vec::new();
    match std::io::Read::read_to_end(&mut flate2::read::GzDecoder::new(bytes), &mut out) {
        Ok(_) => out,
        Err(_) => std::io::Read::bytes(flate2::read::GzDecoder::new(bytes)).map_while(|b| b.ok()).collect(),
    }
}

/// Number of bytes in a block of a tarball.
pub const TAR_BLOCK: usize = 512;

/// Whether a block of a tarball can be the header of an entry of this kind: the kind
/// stands in it, and so does the word by which headers with extensions are known.
pub open spec fn header_at(p: Seq<u8>, k: int, kind: u8) -> bool {
    &&& 0 <= k
    &&& TAR_BLOCK * k + TAR_BLOCK <= p.len()
    &&& p[TAR_BLOCK * k + 156] == kind
    &&& p[TAR_BLOCK * k + 257] == 117
    &&& p[TAR_BLOCK * k + 258] == 115
    &&& p[TAR_BLOCK * k + 259] == 116
    &&& p[TAR_BLOCK * k + 260] == 97
    &&& p[TAR_BLOCK * k + 261] == 114
}

/// Whether a byte of a number in a header adds nothing to it in front.
pub open spec fn is_filler(b: u8) -> bool {
    b == 48 || b == 32
}

/// Whether the numbers in the header of a sparse file are small: its size in the tarball
/// is written in octal digits, and its size on disk in no more than ten of them.
pub open spec fn small_sparse(p: Seq<u8>, k: int) -> bool {
    &&& p[TAR_BLOCK * k + 124] < 128
    &&& is_filler(p[TAR_BLOCK * k + 483])
    &&& is_filler(p[TAR_BLOCK * k + 484]) || !(48 <= p[TAR_BLOCK * k + 494]
        && p[TAR_BLOCK * k + 494] <= 57)
}

/// Whether the sparse files in a tarball are small, and no extended header says
/// otherwise. The kind `S` is a sparse file, and `x` an extended header.
pub open spec fn sparse_in_range(p: Seq<u8>) -> bool {
    forall|k: int| #[trigger] header_at(p, k, 83) ==> small_sparse(p, k) && no_extended(p)
}

/// Whether a tarball has no extended header.
pub open spec fn no_extended(p: Seq<u8>) -> bool {
    forall|k: int| !(#[trigger] header_at(p, k, 120))
}

/// Whether a block can be the header of an entry of this kind.
fn is_header(p: &Vec<u8>, k: usize, kind: u8) -> (r: bool)
    requires
        TAR_BLOCK * k + TAR_BLOCK <= p@.len(),
    ensures
        r == header_at(p@, k as int, kind),
{
    assert(p@.len() <= usize::MAX) by {
        vstd::std_specs::vec::axiom_spec_len(p);
    }
    let at: usize = TAR_BLOCK * k;
    p[at + 156] == kind && p[at + 257] == 117 && p[at + 258] == 115 && p[at + 259] == 116 && p[at
        + 260] == 97 && p[at + 261] == 114
}

/// Whether a tarball has no extended header.
fn lacks_extended(p: &Vec<u8>) -> (r: bool)
    ensures
        r == no_extended(p@),
{
    let n: usize = p.len() / TAR_BLOCK;
    let mut k: usize = 0;
    while k < n
        invariant
            k <= n,
            n == p@.len() / 512,
            forall|i: int| 0 <= i < k ==> !(#[trigger] header_at(p@, i, 120)),
        decreases n - k,
    {
        if is_header(p, k, 120) {
            return false;
        }
        k = k + 1;
    }
    true
}

/// Whether the sparse files in a tarball are small, and no extended header says
/// otherwise.
pub fn is_in_range(p: &Vec<u8>) -> (r: bool)
    ensures
        r == sparse_in_range(p@),
{
    let plain = lacks_extended(p);
    let n: usize = p.len() / TAR_BLOCK;
    let mut k: usize = 0;
    while k < n
        invariant
            k <= n,
            n == p@.len() / 512,
            plain == no_extended(p@),
            p@.len() <= usize::MAX,
            forall|i: int| 0 <= i < k && #[trigger] header_at(p@, i, 83) ==> small_sparse(p@, i)
                && no_extended(p@),
        decreases n - k,
    {
        if is_header(p, k, 83) {
            let at: usize = TAR_BLOCK * k;
            let first: u8 = p[at + 483];
            let second: u8 = p[at + 484];
            let last: u8 = p[at + 494];
            let small = p[at + 124] < 128 && (first == 48 || first == 32) && ((second == 48 || second
                == 32) || !(48 <= last && last <= 57));
            assert(small == small_sparse(p@, k as int));
            if !small || !plain {
                return false;
            }
        }
        k = k + 1;
    }
    true
}

/// Reads a gzipped tarball with `tar::Archive` over `flate2::read::GzDecoder`: of each
/// entry in turn the byte of its kind, whether `Header::as_ustar` takes its header, its
/// path and its data. What comes out, or that it cannot be read, is a function of the
/// bytes; what the error says is left open. Sparse files that are not small are left
/// out: `tar` adds to where such an entry ends without looking whether that fits, and
/// their holes would be filled.
#[verifier::external_body]
fn read_tarball(bytes: &[u8]) -> (r: Result<Vec<(u8, bool, String, Vec<u8>)>, String>)
    requires
        sparse_in_range(gunzipped(bytes@)),
    ensures
        match r {
            Ok(v) => tarball_entries(bytes@) == Some(entries_held(v@)),
            Err(_) => tarball_entries(bytes@) is None,
        },
{
    let mut archive = tar::Archive::new(flate2::read::GzDecoder::new(bytes));
    let mut out = Vec::new();
    for entry in archive.entries().map_err(|e| e.to_string())? {
        let mut entry = entry.map_err(|e| e.to_string())?;
        let kind = entry.header().entry_type().as_byte();
        let ustar = entry.header().as_ustar().is_some();
        let path = entry.path().map_err(|e| e.to_string())?.to_string_lossy().into_owned();
        let mut data = Vec::new();
        std::io::Read::read_to_end(&mut entry, &mut data).map_err(|e| e.to_string())?;
        out.push((kind, ustar, path, data));
    }
    Ok(out)
}

/// Whether entries of a kind are unpacked: files, directories and sparse files are.
pub open spec fn unpacked_kind(kind: u8) -> bool {
    kind == 48 || kind == 53 || kind == 83
}

/// The names on a path.
pub open spec fn names_of(parts: Seq<Text>) -> Seq<Text>
    decreases parts.len(),
{
    if parts.len() == 0 {
        Seq::empty()
    } else if parts.last().len() == 0 || parts.last() == "."@ {
        names_of(parts.drop_last())
    } else {
        names_of(parts.drop_last()).push(parts.last())
    }
}

/// Where an entry is unpacked to: its path without the first name, which is that of
/// the tarball's own directory. Nothing where that leaves no name, or where a name
/// leads upwards.
pub open spec fn target_of(path: Text) -> Option<Text> {
    let names = names_of(pieces(path, '/'));
    if names.contains(".."@) || names.len() < 2 {
        None
    } else {
        Some(joined(names.subrange(1, names.len() as int), "/"@))
    }
}

/// Where an entry is unpacked to.
fn find_target(path: &str) -> (r: Option<String>)
    ensures
        match r {
            Some(t) => target_of(path@) == Some(t@),
            None => target_of(path@) is None,
        },
{
    let parts = split(path, '/');
    let ghost p = texts(parts@);
    let mut names: Vec<String> = Vec::new();
    let mut up = false;
    let mut i: usize = 0;
    assert(texts(names@) =~= names_of(p.take(0)));
    while i < parts.len()
        invariant
            i <= parts@.len(),
            p == texts(parts@),
            texts(names@) == names_of(p.take(i as int)),
            up == texts(names@).contains(".."@),
        decreases parts@.len() - i,
    {
        let part = parts[i].clone();
        assert(p.take(i + 1).drop_last() =~= p.take(i as int));
        assert(p.take(i + 1).last() == part@);
        if !part.as_str().is_empty() && !same(part.as_str(), ".") {
            let above = same(part.as_str(), "..");
            let ghost first = texts(names@);
            let ghost pv = part@;
            push_text(&mut names, part);
            proof {
                assert(texts(names@) == first.push(pv));
                assert(first.push(pv)[first.len() as int] == pv);
                if first.contains(".."@) {
                    let k = choose|k: int| 0 <= k < first.len() && first[k] == ".."@;
                    assert(first.push(pv)[k] == ".."@);
                }
            }
            if above {
                up = true;
            }
        }
        i = i + 1;
    }
    assert(p.take(i as int) =~= p);
    if up || names.len() < 2 {
        return None;
    }
    let ghost n = texts(names@);
    let mut rest: Vec<String> = Vec::new();
    let mut k: usize = 1;
    while k < names.len()
        invariant
            1 <= k <= names@.len(),
            n == texts(names@),
            rest@.len() == k - 1,
            forall|m: int| 0 <= m < rest@.len() ==> (#[trigger] rest@[m])@ == n[m + 1],
        decreases names@.len() - k,
    {
        rest.push(names[k].clone());
        k = k + 1;
    }
    assert(texts(rest@) =~= n.subrange(1, n.len() as int));
    Some(join(&rest, "/"))
}

/// A file or a directory to write.
#[derive(Debug)]
pub struct Unpacked {
    /// Its path, from the cache.
    pub path: String,
    pub is_dir: bool,
    pub data: Vec<u8>,
}

/// What an [`Unpacked`] holds.
pub struct UnpackedV {
    pub path: Text,
    pub is_dir: bool,
    pub data: Seq<u8>,
}

impl View for Unpacked {
    type V = UnpackedV;

    open spec fn view(&self) -> UnpackedV {
        UnpackedV { path: self.path@, is_dir: self.is_dir, data: self.data@ }
    }
}

/// What a list of files holds.
pub open spec fn unpacked_held(v: Seq<Unpacked>) -> Seq<UnpackedV> {
    Seq::new(v.len(), |i: int| v[i]@)
}

/// Whether an entry makes a directory: by its kind, or, where its header is not one of
/// ustar, by a slash at the end of its path.
pub open spec fn makes_dir(kind: u8, ustar: bool, path: Text) -> bool {
    kind == 53 || (!ustar && path.len() > 0 && path.last() == '/')
}

/// The files and directories that entries make.
pub open spec fn unpacked(entries: Seq<(u8, bool, Text, Seq<u8>)>) -> Seq<UnpackedV>
    decreases entries.len(),
{
    if entries.len() == 0 {
        Seq::empty()
    } else {
        let e = entries.last();
        let rest = unpacked(entries.drop_last());
        if unpacked_kind(e.0) && target_of(e.2) is Some {
            rest.push(
                UnpackedV {
                    path: target_of(e.2)->0,
                    is_dir: makes_dir(e.0, e.1, e.2),
                    data: e.3,
                },
            )
        } else {
            rest
        }
    }
}

/// The files and directories that entries make: links and the like are left out, and
/// so is what leads upwards.
pub fn unpack_entries(entries: Vec<(u8, bool, String, Vec<u8>)>) -> (r: Vec<Unpacked>)
    ensures
        unpacked_held(r@) == unpacked(entries_held(entries@)),
{
    let ghost all = entries_held(entries@);
    let mut out: Vec<Unpacked> = Vec::new();
    let mut i: usize = 0;
    assert(unpacked_held(out@) =~= unpacked(all.take(0)));
    while i < entries.len()
        invariant
            i <= entries@.len(),
            all == entries_held(entries@),
            unpacked_held(out@) == unpacked(all.take(i as int)),
        decreases entries@.len() - i,
    {
        assert(all.take(i + 1).drop_last() =~= all.take(i as int));
        assert(all.take(i + 1).last() == all[i as int]);
        let kind = entries[i].0;
        if kind == 48 || kind == 53 || kind == 83 {
            match find_target(entries[i].2.as_str()) {
                Some(path) => {
                    let ghost first = out@;
                    let data = vstd::slice::slice_to_vec(entries[i].3.as_slice());
                    let is_dir = kind == 53 || (!entries[i].1 && finishes(
                        entries[i].2.as_str(),
                        "/",
                    ));
                    proof {
                        let p = entries@[i as int].2@;
                        reveal_strlit("/");
                        assert(ends(p, "/"@) == (p.len() > 0 && p.last() == '/')) by {
                            if p.len() > 0 {
                                let end = p.subrange(p.len() - 1, p.len() as int);
                                assert(end[0] == p.last());
                                assert(end =~= seq![p.last()]);
                                assert("/"@ =~= seq!['/']);
                            }
                        }
                    }
                    let one = Unpacked { path, is_dir, data };
                    let ghost ov = one@;
                    out.push(one);
                    assert(unpacked_held(out@) =~= unpacked_held(first).push(ov));
                },
                None => {},
            }
        }
        i = i + 1;
    }
    assert(all.take(i as int) =~= all);
    out
}

/// What is said of a tarball with a sparse file that is not small.
pub const TOO_SPARSE: &'static str = "解压失败: 稀疏文件过大";

/// The files and directories that a tarball makes; where it cannot be read, why.
pub fn extract_tarball(bytes: &[u8]) -> (r: Result<Vec<Unpacked>, String>)
    ensures
        if sparse_in_range(gunzipped(bytes@)) {
            match tarball_entries(bytes@) {
                Some(entries) => r is Ok && unpacked_held(r->Ok_0@) == unpacked(entries),
                None => r is Err && begins(r->Err_0@, "解压失败: "@),
            }
        } else {
            r is Err && r->Err_0@ == TOO_SPARSE@
        },
{
    let plain = gunzip(bytes);
    if !is_in_range(&plain) {
        return Err(TOO_SPARSE.to_owned());
    }
    match read_tarball(bytes) {
        Ok(entries) => Ok(unpack_entries(entries)),
        Err(m) => {
            let text = join2("解压失败: ", m.as_str());
            assert(begins(text@, "解压失败: "@)) by {
                assert(text@.subrange(0, "解压失败: "@.len() as int) =~= "解压失败: "@);
            }
            Err(text)
        },
    }
}

/// Whether nothing on a path leads out of the directory that it is taken in.
pub open spec fn stays_inside(names: Seq<Text>) -> bool {
    forall|i: int|
        0 <= i < names.len() ==> (#[trigger] names[i]).len() > 0 && names[i] != "."@ && names[i]
            != ".."@
}

/// The names on a path are neither empty nor a dot.
proof fn lemma_names(parts: Seq<Text>)
    ensures
        forall|i: int|
            0 <= i < names_of(parts).len() ==> (#[trigger] names_of(parts)[i]).len() > 0
                && names_of(parts)[i] != "."@,
    decreases parts.len(),
{
    if parts.len() > 0 {
        lemma_names(parts.drop_last());
        let rest = names_of(parts.drop_last());
        let all = names_of(parts);
        assert forall|i: int| 0 <= i < all.len() implies (#[trigger] all[i]).len() > 0 && all[i]
            != "."@ by {
            if i < rest.len() {
                assert(all[i] == rest[i]);
            }
        }
    }
}

/// Nothing is unpacked outside the cache: where an entry is unpacked to is a path of
/// names none of which leads upwards or to the root.
pub proof fn nothing_is_unpacked_outside(path: Text)
    requires
        target_of(path) is Some,
    ensures
        ({
            let names = names_of(pieces(path, '/'));
            let kept = names.subrange(1, names.len() as int);
            &&& kept.len() > 0
            &&& stays_inside(kept)
            &&& target_of(path) == Some(joined(kept, "/"@))
        }),
{
    let names = names_of(pieces(path, '/'));
    lemma_names(pieces(path, '/'));
    let kept = names.subrange(1, names.len() as int);
    assert forall|i: int| 0 <= i < kept.len() implies (#[trigger] kept[i]).len() > 0 && kept[i]
        != "."@ && kept[i] != ".."@ by {
        assert(kept[i] == names[i + 1]);
        if names[i + 1] == ".."@ {
            assert(names.contains(".."@));
        }
    }
}

/// A GitHub repository, or a tarball by its address.
#[derive(Debug, Clone)]
pub struct RepoSource {
    pub name: String,
    /// The owner and the name with a slash between them, or an address.
    pub repo: String,
    pub branch: String,
    /// The directory in the repository to read.
    pub subdir: Option<String>,
    /// The site that shows the documents.
    pub site_url: Option<String>,
    pub extensions: Vec<String>,
    /// The directory that the repository is unpacked into.
    pub cache_dir: String,
}

/// A text, where it is not empty.
pub open spec fn unless_empty(s: Text) -> Option<Text> {
    if s.len() == 0 {
        None
    } else {
        Some(s)
    }
}

/// A text, where it is not empty.
fn some_text(s: &str) -> (r: Option<String>)
    ensures
        crate::agent::llm::text_held(r) == unless_empty(s@),
{
    if s.is_empty() {
        None
    } else {
        Some(s.to_owned())
    }
}

impl DocumentSource for RepoSource {
    open spec fn label(&self) -> Text {
        self.name@
    }

    fn name(&self) -> (r: &String) {
        &self.name
    }
}

/// The address of a repository's tarball.
pub open spec fn tarball_address(repo: Text, branch: Text) -> Text {
    if has(repo, "://"@) {
        repo
    } else {
        "https://codeload.github.com/"@ + repo + "/tar.gz/refs/heads/"@ + branch
    }
}

/// When a cache was filled, by its file.
pub open spec fn filled_at(meta: Option<Seq<u8>>) -> Option<u64> {
    match meta {
        Some(bytes) => match json_read(bytes) {
            Ok(j) => match j.field("downloaded_at"@) {
                Some(v) => v.as_nat(),
                None => None,
            },
            Err(_) => None,
        },
        None => None,
    }
}

/// Whether a cache is less than a day old.
pub open spec fn is_fresh(meta: Option<Seq<u8>>, now: u64) -> bool {
    match filled_at(meta) {
        Some(at) => now - at < REFRESH_SECS,
        None => false,
    }
}

/// What the bytes of a file hold, where it is there.
pub open spec fn file_held(meta: Option<Vec<u8>>) -> Option<Seq<u8>> {
    match meta {
        Some(v) => Some(v@),
        None => None,
    }
}

/// The file that says when a cache was filled.
pub open spec fn meta_json(now: u64) -> JsonV {
    JsonV::Object(seq![("downloaded_at"@, JsonV::Num(NumberV::Pos(now)))])
}

/// What to do to have a cache.
#[derive(Debug)]
pub enum Preparation {
    /// Use what is there.
    Use,
    /// Fetch the tarball of this address.
    Download(String),
}

/// What came of it.
#[derive(Debug)]
pub enum Prepared {
    /// The cache was filled; this goes into its file.
    Refreshed(String),
    /// The old cache is used.
    Old,
    /// There is nothing to search in.
    Nothing,
}

/// A hit of a repository as it is given: under the address of its document.
pub open spec fn repo_hit(
    repo: Text,
    branch: Text,
    site_url: Option<Text>,
    hit: DocHitV,
) -> DocHitV {
    DocHitV {
        title: hit.title,
        locator: document_address(repo, branch, site_url, hit.locator),
        snippet: hit.snippet,
    }
}

/// The address that shows a document by its path.
pub open spec fn document_address(
    repo: Text,
    branch: Text,
    site_url: Option<Text>,
    locator: Text,
) -> Text {
    let normal = replaced(locator, "\\"@, "/"@);
    let path = match cut(normal, ':') {
        Some((path, _)) => path,
        None => normal,
    };
    match site_url {
        Some(site) => drop_back(site, among("/"@)) + "/"@ + path_in_address(without_ending(path)),
        None => "https://github.com/"@ + repo + "/blob/"@ + branch + "/"@ + path_in_address(path),
    }
}

impl RepoSource {
    /// A repository. Without a directory all of it is read; without a site the
    /// repository's own pages are shown.
    pub fn new(
        name: &str,
        repo: &str,
        branch: &str,
        subdir: &str,
        site_url: &str,
        extensions: &Vec<String>,
        cache_root: &str,
    ) -> (r: Self)
        ensures
            r.name@ == name@,
            r.repo@ == repo@,
            r.branch@ == branch@,
            crate::agent::llm::text_held(r.subdir) == unless_empty(subdir@),
            crate::agent::llm::text_held(r.site_url) == unless_empty(site_url@),
            texts(r.extensions@) == texts(extensions@),
            r.cache_dir@ == path_joined(cache_root@, slug_of(repo@)),
    {
        let slug = repo_slug(repo);
        RepoSource {
            name: name.to_owned(),
            repo: repo.to_owned(),
            branch: branch.to_owned(),
            subdir: some_text(subdir),
            site_url: some_text(site_url),
            extensions: copy_texts(extensions),
            cache_dir: join_path(cache_root, slug.as_str()),
        }
    }

    /// The address of the tarball.
    pub fn tarball_url(&self) -> (r: String)
        ensures
            r@ == tarball_address(self.repo@, self.branch@),
    {
        if contains(self.repo.as_str(), "://") {
            self.repo.clone()
        } else {
            let head = join3(
                "https://codeload.github.com/",
                self.repo.as_str(),
                "/tar.gz/refs/heads/",
            );
            join2(head.as_str(), self.branch.as_str())
        }
    }

    /// Whether a cache is less than a day old, by the bytes of its file.
    pub fn cache_fresh(meta: Option<Vec<u8>>, now: u64) -> (r: bool)
        ensures
            r == is_fresh(file_held(meta), now),
    {
        let bytes = match meta {
            Some(b) => b,
            None => return false,
        };
        let j = match parse_json(bytes.as_slice()) {
            Ok(j) => j,
            Err(_) => return false,
        };
        let at: u64 = match j.get("downloaded_at") {
            Some(v) => match v.as_u64() {
                Some(n) => n,
                None => return false,
            },
            None => return false,
        };
        at >= now || now - at < REFRESH_SECS
    }

    /// What to do to have a cache, by the bytes of the file of the one that is there.
    pub fn prepare(&self, meta: Option<Vec<u8>>, now: u64) -> (r: Preparation)
        ensures
            match r {
                Preparation::Use => is_fresh(file_held(meta), now),
                Preparation::Download(url) => {
                    &&& !is_fresh(file_held(meta), now)
                    &&& url@ == tarball_address(self.repo@, self.branch@)
                },
            },
    {
        if Self::cache_fresh(meta, now) {
            Preparation::Use
        } else {
            Preparation::Download(self.tarball_url())
        }
    }

    /// The tarball that came back; where it did not, why.
    pub fn downloaded(reply: Result<(u16, Vec<u8>), String>) -> (r: Result<Vec<u8>, String>)
        ensures
            match reply {
                Ok(p) => if 200 <= p.0 < 300 {
                    r == Result::<Vec<u8>, String>::Ok(p.1)
                } else {
                    r is Err && r->Err_0@ == "HTTP "@ + decimal(p.0 as nat)
                },
                Err(m) => r is Err && r->Err_0@ == "请求失败: "@ + m@,
            },
    {
        match reply {
            Ok(p) => if p.0 >= 200 && p.0 < 300 {
                Ok(p.1)
            } else {
                let digits = u64_text(p.0 as u64);
                Err(join2("HTTP ", digits.as_str()))
            },
            Err(m) => Err(join2("请求失败: ", m.as_str())),
        }
    }

    /// What came of fetching and unpacking: a cache that is filled now, the old one
    /// where there still is one, or nothing. A cache that is filled now is fresh for a
    /// day, by the file that is written for it.
    pub fn prepared(filled: bool, has_snapshot: bool, now: u64) -> (r: Prepared)
        ensures
            match r {
                Prepared::Refreshed(text) => {
                    &&& filled
                    &&& text@ == json_text_of(meta_json(now))
                    &&& forall|later: u64|
                        is_fresh(Some(vstd::utf8::encode_utf8(text@)), later) <==> later - now
                            < REFRESH_SECS
                },
                Prepared::Old => !filled && has_snapshot,
                Prepared::Nothing => !filled && !has_snapshot,
            },
    {
        if filled {
            let meta = object1("downloaded_at", Json::Num(Number::Pos(now)));
            let text = json_text(&meta);
            proof {
                assert(meta@->Object_0[0] == ("downloaded_at"@, JsonV::Num(NumberV::Pos(now))));
                assert(exact_to(meta@->Object_0[0].1, 99));
                assert(is_exact(meta@));
                assert(meta@.field("downloaded_at"@) == Some(JsonV::Num(NumberV::Pos(now))));
            }
            Prepared::Refreshed(text)
        } else if has_snapshot {
            Prepared::Old
        } else {
            Prepared::Nothing
        }
    }

    /// The directory to search in, once there is a cache.
    pub fn build_inner(&self) -> (r: LocalDocSource)
        ensures
            r.name@ == self.name@,
            r.root@ == (match self.subdir {
                Some(sub) => path_joined(self.cache_dir@, sub@),
                None => self.cache_dir@,
            }),
            texts(r.extensions@) == crate::agent::local::endings(
                if self.extensions@.len() == 0 {
                    Seq::new(4, |i: int| DOC_EXTENSIONS[i]@)
                } else {
                    texts(self.extensions@)
                },
            ),
    {
        let root = match &self.subdir {
            Some(sub) => join_path(self.cache_dir.as_str(), sub.as_str()),
            None => self.cache_dir.clone(),
        };
        if self.extensions.len() == 0 {
            let own: Vec<String> = vec![
                DOC_EXTENSIONS[0].to_owned(),
                DOC_EXTENSIONS[1].to_owned(),
                DOC_EXTENSIONS[2].to_owned(),
                DOC_EXTENSIONS[3].to_owned(),
            ];
            assert(texts(own@) =~= Seq::new(4, |i: int| DOC_EXTENSIONS[i]@));
            LocalDocSource::new(self.name.as_str(), root.as_str(), &own)
        } else {
            LocalDocSource::new(self.name.as_str(), root.as_str(), &self.extensions)
        }
    }

    /// The address that shows what was found at a path with lines.
    pub fn map_locator(&self, locator: &str) -> (r: String)
        ensures
            r@ == document_address(
                self.repo@,
                self.branch@,
                crate::agent::llm::text_held(self.site_url),
                locator@,
            ),
    {
        proof {
            reveal_strlit("\\");
        }
        let normal = replace(locator, "\\", "/");
        let path = match split_once(normal.as_str(), ':') {
            Some(p) => p.0,
            None => normal,
        };
        match &self.site_url {
            Some(site) => {
                let base = trim_end_of(site.as_str(), "/");
                let rel = strip_doc_extension(path.as_str());
                let tail = percent_encode_path(rel.as_str());
                join3(base.as_str(), "/", tail.as_str())
            },
            None => {
                let head = join3("https://github.com/", self.repo.as_str(), "/blob/");
                let full = join3(head.as_str(), self.branch.as_str(), "/");
                let tail = percent_encode_path(path.as_str());
                join2(full.as_str(), tail.as_str())
            },
        }
    }

    /// What was found, with the addresses that show it.
    pub fn found(&self, hits: &Vec<DocHit>) -> (r: Vec<DocHit>)
        ensures
            hits_held(r@) == Seq::new(
                hits@.len(),
                |i: int|
                    (DocHitV {
                        title: hits@[i]@.title,
                        locator: document_address(
                            self.repo@,
                            self.branch@,
                            crate::agent::llm::text_held(self.site_url),
                            hits@[i]@.locator,
                        ),
                        snippet: hits@[i]@.snippet,
                    }),
            ),
            forall|i: int|
                0 <= i < hits@.len() ==> (#[trigger] hits_held(r@)[i]) == repo_hit(
                    self.repo@,
                    self.branch@,
                    crate::agent::llm::text_held(self.site_url),
                    hits@[i]@,
                ),
    {
        let mut out: Vec<DocHit> = Vec::new();
        let mut i: usize = 0;
        while i < hits.len()
            invariant
                i <= hits@.len(),
                out@.len() == i,
                forall|k: int|
                    0 <= k < i ==> (#[trigger] out@[k])@ == (DocHitV {
                        title: hits@[k]@.title,
                        locator: document_address(
                            self.repo@,
                            self.branch@,
                            crate::agent::llm::text_held(self.site_url),
                            hits@[k]@.locator,
                        ),
                        snippet: hits@[k]@.snippet,
                    }),
            decreases hits@.len() - i,
        {
            let hit = DocHit {
                title: hits[i].title.clone(),
                locator: self.map_locator(hits[i].locator.as_str()),
                snippet: hits[i].snippet.clone(),
            };
            out.push(hit);
            i = i + 1;
        }
        assert(hits_held(out@) =~= Seq::new(
            hits@.len(),
            |i: int|
                (DocHitV {
                    title: hits@[i]@.title,
                    locator: document_address(
                        self.repo@,
                        self.branch@,
                        crate::agent::llm::text_held(self.site_url),
                        hits@[i]@.locator,
                    ),
                    snippet: hits@[i]@.snippet,
                }),
        ));
        out
    }
}

// ---- what a repository keeps to ----

/// The name of a cache is that of the repository, sign for sign, with a dash for each
/// sign that cannot stand in it.
pub proof fn a_cache_is_named_by_its_repository(repo: Text)
    requires
        repo.len() > 0,
    ensures
        slug_of(repo).len() == repo.len(),
        forall|i: int|
            0 <= i < repo.len() ==> (#[trigger] slug_of(repo)[i]) == repo[i] || slug_of(repo)[i]
                == '-' && !(('a' <= repo[i] && repo[i] <= 'z') || ('A' <= repo[i] && repo[i] <= 'Z')
                || ('0' <= repo[i] && repo[i] <= '9') || repo[i] == '_'),
        !slug_of(repo).contains('/'),
        !slug_of(repo).contains('.'),
        !slug_of(repo).contains(':'),
        !slug_of(repo).contains('\\'),
{
}

/// A document is shown on its site without its ending, and any other path as it is.
pub proof fn an_ending_is_left_away(path: Text)
    ensures
        without_ending(path + ".md"@) == path,
        without_ending(path + ".markdown"@) == path,
        !ends(path, ".md"@) && !ends(path, ".markdown"@) ==> without_ending(path) == path,
{
    reveal_strlit(".md");
    reveal_strlit(".markdown");
    let a = path + ".md"@;
    let b = path + ".markdown"@;
    assert(a.subrange(path.len() as int, a.len() as int) =~= ".md"@);
    assert(b.subrange(path.len() as int, b.len() as int) =~= ".markdown"@);
    assert(a.subrange(0, path.len() as int) =~= path);
    assert(b.subrange(0, path.len() as int) =~= path);
    if ends(a, ".markdown"@) {
        let t = a.subrange(a.len() - ".markdown"@.len(), a.len() as int);
        assert(t[8] == a.last());
        assert(a.last() == 'd');
    }
}

/// A path under a directory begins with the directory, ends with its own names and has
/// one slash between them; a path from the root stays as it is.
pub proof fn a_path_stands_under_its_directory(base: Text, rel: Text)
    ensures
        ends(path_joined(base, rel), rel),
        !begins(rel, "/"@) ==> begins(path_joined(base, rel), base),
        begins(rel, "/"@) ==> path_joined(base, rel) == rel,
        !begins(rel, "/"@) && base.len() > 0 && !ends(base, "/"@) ==> path_joined(base, rel) == base
            + seq!['/'] + rel,
        !begins(rel, "/"@) && ends(base, "/"@) ==> path_joined(base, rel) == base + rel,
{
    reveal_strlit("/");
    assert("/"@ =~= seq!['/']);
    let p = path_joined(base, rel);
    assert(p.subrange(p.len() - rel.len(), p.len() as int) =~= rel);
    if !begins(rel, "/"@) {
        assert(p.subrange(0, base.len() as int) =~= base);
    }
}

/// The names of a path are its parts that name something, in their order.
proof fn lemma_names_stay(names: Seq<Text>)
    requires
        forall|i: int| 0 <= i < names.len() ==> (#[trigger] names[i]).len() > 0 && names[i] != "."@,
    ensures
        names_of(names) == names,
    decreases names.len(),
{
    if names.len() > 0 {
        let init = names.drop_last();
        assert forall|i: int| 0 <= i < init.len() implies (#[trigger] init[i]).len() > 0 && init[i]
            != "."@ by {
            assert(init[i] == names[i]);
        }
        lemma_names_stay(init);
        assert(names[names.len() - 1] == names.last());
        assert(init.push(names.last()) =~= names);
    } else {
        assert(names_of(names) =~= names);
    }
}

/// A file of an archive is unpacked under its path without the first directory, which is
/// that of the archive: all the names behind it are kept.
pub proof fn a_file_is_unpacked_under_its_path(top: Text, names: Seq<Text>)
    requires
        names.len() > 0,
        stays_inside(seq![top] + names),
        forall|i: int|
            0 <= i < (seq![top] + names).len() ==> !(#[trigger] (seq![top] + names)[i]).contains(
                '/',
            ),
    ensures
        target_of(top + seq!['/'] + joined(names, "/"@)) == Some(joined(names, "/"@)),
        target_of(top) is None,
{
    reveal_strlit("/");
    assert("/"@ =~= seq!['/']);
    let all = seq![top] + names;
    lemma_joined_front(top, names);
    joined_texts_come_apart(all, '/');
    assert forall|i: int| 0 <= i < all.len() implies (#[trigger] all[i]).len() > 0 && all[i] != "."@
        && all[i] != ".."@ by {}
    lemma_names_stay(all);
    assert(!all.contains(".."@)) by {
        if all.contains(".."@) {
            let k = choose|k: int| 0 <= k < all.len() && all[k] == ".."@;
            assert(all[k] != ".."@);
        }
    }
    assert(all.subrange(1, all.len() as int) =~= names);
    assert(all[0] == top);
    let one = seq![top];
    assert forall|i: int| 0 <= i < one.len() implies !(#[trigger] one[i]).contains('/') by {
        assert(all[i] == one[i]);
    }
    joined_texts_come_apart(one, '/');
    assert(joined(one, seq!['/']) == top);
    lemma_names_stay(one);
}

/// Joined texts with one more in front.
proof fn lemma_joined_front(top: Text, names: Seq<Text>)
    requires
        names.len() > 0,
    ensures
        joined(seq![top] + names, seq!['/']) == top + seq!['/'] + joined(names, seq!['/']),
    decreases names.len(),
{
    let all = seq![top] + names;
    let sep = seq!['/'];
    assert(all.last() == names.last());
    if names.len() == 1 {
        assert(all.drop_last() =~= seq![top]);
        assert(joined(seq![top], sep) == top);
        assert(joined(all, sep) =~= top + sep + names[0]);
    } else {
        let init = names.drop_last();
        assert(all.drop_last() =~= seq![top] + init);
        lemma_joined_front(top, init);
        assert(joined(all, sep) =~= top + sep + joined(names, sep));
    }
}

/// What is unpacked of two lists of entries is what is unpacked of the one and then of
/// the other; a file with a path in the archive is unpacked with its bytes as they are,
/// and what is neither a file nor a directory is not unpacked.
pub proof fn files_are_unpacked_whole(
    a: Seq<(u8, bool, Text, Seq<u8>)>,
    b: Seq<(u8, bool, Text, Seq<u8>)>,
    kind: u8,
    ustar: bool,
    path: Text,
    data: Seq<u8>,
)
    ensures
        unpacked(a + b) == unpacked(a) + unpacked(b),
        (target_of(path) matches Some(target) ==> (kind == 48 && ustar ==> unpacked(
            seq![(kind, ustar, path, data)],
        ) == seq![UnpackedV { path: target, is_dir: false, data }])),
        (target_of(path) matches Some(target) ==> (kind == 53 ==> unpacked(
            seq![(kind, ustar, path, data)],
        ) == seq![UnpackedV { path: target, is_dir: true, data }])),
        target_of(path) is None ==> unpacked(seq![(kind, ustar, path, data)]).len() == 0,
        kind == 49 || kind == 50 ==> unpacked(seq![(kind, ustar, path, data)]).len() == 0,
    decreases b.len(),
{
    let none = Seq::<(u8, bool, Text, Seq<u8>)>::empty();
    let one = seq![(kind, ustar, path, data)];
    assert(one.drop_last() =~= none);
    assert(one.last() == (kind, ustar, path, data));
    assert(unpacked(none) =~= Seq::<UnpackedV>::empty());
    match target_of(path) {
        Some(target) => {
            let u = UnpackedV { path: target, is_dir: makes_dir(kind, ustar, path), data };
            assert(Seq::<UnpackedV>::empty().push(u) =~= seq![u]);
        },
        None => {},
    }
    if b.len() == 0 {
        assert(a + b =~= a);
        assert(b =~= none);
        assert(unpacked(a) + unpacked(b) =~= unpacked(a));
    } else {
        files_are_unpacked_whole(a, b.drop_last(), kind, ustar, path, data);
        assert((a + b).drop_last() =~= a + b.drop_last());
        assert((a + b).last() == b.last());
        assert(unpacked(a + b) =~= unpacked(a) + unpacked(b));
    }
}

/// A repository is fetched from its address where it is given by one, and otherwise from
/// the archive of its branch.
pub proof fn a_repository_is_fetched_by_name_or_address(repo: Text, branch: Text)
    ensures
        has(repo, "://"@) ==> tarball_address(repo, branch) == repo,
        !(has(repo, "://"@)) ==> has(tarball_address(repo, branch), repo) && ends(
            tarball_address(repo, branch),
            "/tar.gz/refs/heads/"@ + branch,
        ) && begins(tarball_address(repo, branch), "https://codeload.github.com/"@),
{
    let a = "https://codeload.github.com/"@;
    let b = "/tar.gz/refs/heads/"@ + branch;
    let t = a + repo + "/tar.gz/refs/heads/"@ + branch;
    assert(t =~= a + repo + b);
    a_part_occurs(a, repo, b);
    assert(t.subrange(t.len() - b.len(), t.len() as int) =~= b);
    assert(t.subrange(0, a.len() as int) =~= a);
}

/// A cache serves for a day from when it was filled, by what was written beside it; one
/// without such a note does not.
pub proof fn a_cache_serves_for_a_day(bytes: Seq<u8>, at: u64, now: u64)
    requires
        json_read(bytes) == Ok::<JsonV, Text>(meta_json(at)),
    ensures
        is_fresh(Some(bytes), now) <==> now < at + 86400,
        !is_fresh(None, now),
{
    match meta_json(at) {
        JsonV::Object(m) => {
            a_member_is_found(m, 0);
        },
        _ => {},
    }
}

/// A document is addressed by its path, whatever lines of it were found: on its site
/// without the ending, and otherwise in the branch of its repository.
pub proof fn a_document_is_addressed_by_its_path(
    repo: Text,
    branch: Text,
    site: Text,
    path: Text,
    lines: Text,
)
    requires
        !path.contains(':'),
        !path.contains('\\'),
        !lines.contains('\\'),
    ensures
        document_address(repo, branch, None, path + seq![':'] + lines) == "https://github.com/"@
            + repo + "/blob/"@ + branch + "/"@ + path_in_address(path),
        document_address(repo, branch, None, path) == document_address(
            repo,
            branch,
            None,
            path + seq![':'] + lines,
        ),
        site.len() > 0 && site.last() != '/' ==> document_address(
            repo,
            branch,
            Some(site),
            path + seq![':'] + lines,
        ) == site + "/"@ + path_in_address(without_ending(path)),
        document_address(repo, branch, Some(site + "/"@), path) == document_address(
            repo,
            branch,
            Some(site),
            path,
        ),
{
    reveal_strlit("\\");
    reveal_strlit("/");
    assert("\\"@ =~= seq!['\\']);
    let s = path + seq![':'] + lines;
    assert(!s.contains('\\')) by {
        if s.contains('\\') {
            let k = choose|k: int| 0 <= k < s.len() && s[k] == '\\';
            if k < path.len() {
                assert(path[k] == '\\');
            } else if k > path.len() {
                assert(lines[k - path.len() - 1] == '\\');
            }
        }
    }
    lemma_unreplaced(s);
    lemma_unreplaced(path);
    a_cut_is_at_the_first(s, ':');
    assert(s[path.len() as int] == ':');
    match cut(s, ':') {
        Some((h, r)) => {
            what_is_parted_alike_is_alike(h, r, path, lines, ':');
        },
        None => {},
    }
    a_cut_is_at_the_first(path, ':');
    match cut(path, ':') {
        Some((h, r)) => {
            assert(path[h.len() as int] == ':');
        },
        None => {},
    }
    let p = among("/"@);
    if site.len() > 0 && site.last() != '/' {
        assert("/"@[0] == '/');
        assert(!p(site[site.len() - 1]));
    }
    let t = site + "/"@;
    assert("/"@[0] == '/');
    assert(p(t[t.len() - 1])) by {
        assert(t[t.len() - 1] == '/');
    }
    assert(t.subrange(0, t.len() - 1) =~= site);
}

/// A text without backslashes stays as it is.
proof fn lemma_unreplaced(s: Text)
    requires
        !s.contains('\\'),
    ensures
        replaced(s, "\\"@, "/"@) == s,
{
    reveal_strlit("\\");
    assert("\\"@ =~= seq!['\\']);
    replacing_a_character(s, '\\', "/"@);
    let one = seq![s];
    joined_texts_come_apart(one, '\\');
    assert(joined(one, seq!['\\']) == s);
    assert(joined(one, "/"@) == s);
}

/// Files, sparse files and directories with a path in the archive are unpacked, and no
/// other kind of entry is.
pub proof fn files_and_directories_are_unpacked(
    kind: u8,
    ustar: bool,
    path: Text,
    data: Seq<u8>,
)
    requires
        target_of(path) is Some,
    ensures
        unpacked(seq![(kind, ustar, path, data)]).len() == if kind == '0' as u8 || kind
            == '5' as u8 || kind == 'S' as u8 {
            1nat
        } else {
            0
        },
{
    let none = Seq::<(u8, bool, Text, Seq<u8>)>::empty();
    let one = seq![(kind, ustar, path, data)];
    assert(one.drop_last() =~= none);
    assert(one.last() == (kind, ustar, path, data));
    assert(unpacked(none) =~= Seq::<UnpackedV>::empty());
}

/// An entry makes a directory where its kind says so, or, in old archives, where its path
/// ends with a slash; a regular file of a newer archive never does.
pub proof fn directories_are_told_by_kind_or_slash(kind: u8, path: Text, s: Text)
    ensures
        makes_dir('5' as u8, true, path),
        makes_dir('5' as u8, false, path),
        kind != '5' as u8 ==> !makes_dir(kind, true, path),
        kind != '5' as u8 ==> (makes_dir(kind, false, path) <==> ends(path, "/"@)),
        s.len() == 0 ==> unless_empty(s) is None,
        s.len() > 0 ==> unless_empty(s) == Some(s),
{
    reveal_strlit("/");
    assert("/"@ =~= seq!['/']);
    if path.len() > 0 {
        let t = path.subrange(path.len() - 1, path.len() as int);
        assert(t[0] == path.last());
        if path.last() == '/' {
            assert(t =~= "/"@);
        }
    }
}

/// A hit of a repository keeps its title and its text and leads to its document.
pub proof fn a_repository_hit_leads_to_its_document(
    repo: Text,
    branch: Text,
    site_url: Option<Text>,
    hit: DocHitV,
)
    ensures
        repo_hit(repo, branch, site_url, hit).title == hit.title,
        repo_hit(repo, branch, site_url, hit).snippet == hit.snippet,
        repo_hit(repo, branch, site_url, hit).locator == document_address(
            repo,
            branch,
            site_url,
            hit.locator,
        ),
{
}

} // verus!
