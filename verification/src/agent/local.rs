//! Search in a directory of documents or source code.
//!
//! Files are cut into chunks: documents at their headings, other files every
//! [`CODE_WINDOW_LINES`] lines. Of a chunk only its place, its title and how often
//! each word occurs in it are kept; its text is read again when it is shown.

use crate::agent::{DocHit, DocHitV, DocumentSource};
use crate::text::{
    alike_behind_a_head, all_white, among, ascii_lower, before, begins, chars_of, contains,
    decimal, different_numbers_differ, digits_hold_digits, drop_front, ends, finishes, has,
    is_before, is_white, join, join2, join3, joined, joined_texts_come_apart, lemma_drop_back,
    lemma_drop_front, lines, lines_make_the_text, lines_of, lowercase_of, no_capitals, pieces,
    push_text, same, small_letters_are_small, starts, text_of, texts, to_ascii_lower, to_lowercase,
    trim, trim_start_of, trimmed, u64_text, what_is_parted_alike_is_alike, white, whites, Text,
};
use vstd::prelude::*;

verus! {

/// Greatest size of a file that is read, in bytes.
pub const MAX_FILE_BYTES: u64 = 20971520;

/// Number of lines in a chunk of source code.
pub const CODE_WINDOW_LINES: usize = 60;

/// Greatest number of lines of a chunk that are shown.
pub const SNIPPET_MAX_LINES: usize = 12;

/// Endings of files that are cut at their headings.
pub const MARKDOWN_EXTS: [&'static str; 2] = [".md", ".txt"];

/// Endings of files that are read where no others are configured.
pub const DEFAULT_EXTS: [&'static str; 11] = [
    ".md",
    ".txt",
    ".java",
    ".kt",
    ".py",
    ".json",
    ".toml",
    ".yaml",
    ".yml",
    ".cfg",
    ".properties",
];

/// Directories that are passed over; so are those that begin with a dot.
pub const SKIPPED_DIRS: [&'static str; 3] = ["target", "node_modules", ".git"];

// ---- words ----

/// Whether a character is an ideograph.
pub open spec fn ideograph(c: char) -> bool {
    ('\u{4E00}' <= c && c <= '\u{9FFF}') || ('\u{3400}' <= c && c <= '\u{4DBF}') || ('\u{F900}' <= c
        && c <= '\u{FAFF}')
}

/// Whether a character is an ideograph.
pub fn is_cjk(ch: char) -> (r: bool)
    ensures
        r == ideograph(ch),
{
    ('\u{4E00}' <= ch && ch <= '\u{9FFF}') || ('\u{3400}' <= ch && ch <= '\u{4DBF}') || (
    '\u{F900}' <= ch && ch <= '\u{FAFF}')
}

/// Whether any character of a text is an ideograph.
pub open spec fn has_ideograph(s: Text) -> bool {
    exists|i: int| 0 <= i < s.len() && ideograph(#[trigger] s[i])
}

/// Whether any character of a text is an ideograph.
pub fn any_cjk(s: &str) -> (r: bool)
    ensures
        r == has_ideograph(s@),
{
    let v = chars_of(s);
    let mut i: usize = 0;
    while i < v.len()
        invariant
            i <= v@.len(),
            v@ == s@,
            forall|k: int| 0 <= k < i ==> !ideograph(#[trigger] s@[k]),
        decreases v@.len() - i,
    {
        let c: char = v[i];
        if is_cjk(c) {
            assert(ideograph(s@[i as int]));
            return true;
        }
        i = i + 1;
    }
    false
}

/// Whether a character is an ASCII letter or digit.
pub open spec fn word_char(c: char) -> bool {
    ('a' <= c && c <= 'z') || ('A' <= c && c <= 'Z') || ('0' <= c && c <= '9')
}

/// Whether a character is an ASCII letter or digit.
fn is_word_char(c: char) -> (r: bool)
    ensures
        r == word_char(c),
{
    ('a' <= c && c <= 'z') || ('A' <= c && c <= 'Z') || ('0' <= c && c <= '9')
}

/// The word that a run of letters and digits makes.
pub open spec fn word_token(w: Text) -> Seq<Text> {
    if w.len() == 0 {
        Seq::empty()
    } else {
        seq![w]
    }
}

/// The words that a run of ideographs makes: all its neighbouring pairs, or the one
/// ideograph that stands alone.
pub open spec fn pair_tokens(c: Text) -> Seq<Text> {
    if c.len() == 0 {
        Seq::empty()
    } else if c.len() == 1 {
        seq![c]
    } else {
        Seq::new((c.len() - 1) as nat, |i: int| c.subrange(i, i + 2))
    }
}

/// A text that was read so far: the words in it, and the run of letters and digits or
/// of ideographs at its end.
pub struct Reading {
    pub tokens: Seq<Text>,
    pub word: Text,
    pub run: Text,
}

/// How a text reads.
pub open spec fn reading(s: Text) -> Reading
    decreases s.len(),
{
    if s.len() == 0 {
        Reading { tokens: Seq::empty(), word: Seq::empty(), run: Seq::empty() }
    } else {
        let r = reading(s.drop_last());
        let c = s.last();
        if word_char(c) {
            Reading {
                tokens: r.tokens + pair_tokens(r.run),
                word: r.word.push(c),
                run: Seq::empty(),
            }
        } else if ideograph(c) {
            Reading {
                tokens: r.tokens + word_token(r.word),
                word: Seq::empty(),
                run: r.run.push(c),
            }
        } else {
            Reading {
                tokens: r.tokens + word_token(r.word) + pair_tokens(r.run),
                word: Seq::empty(),
                run: Seq::empty(),
            }
        }
    }
}

/// The words of a text whose letters are small.
pub open spec fn small_tokens(s: Text) -> Seq<Text> {
    let r = reading(s);
    r.tokens + word_token(r.word) + pair_tokens(r.run)
}

/// The words of a text in small letters.
pub open spec fn tokens_of(text: Text) -> Seq<Text> {
    small_tokens(lowercase_of(text))
}

/// Ends a run of letters and digits.
pub fn flush_word(word: &mut String, tokens: &mut Vec<String>)
    ensures
        final(word)@ == Seq::<char>::empty(),
        texts(final(tokens)@) == texts(old(tokens)@) + word_token(old(word)@),
{
    if !word.as_str().is_empty() {
        let done = word.clone();
        push_text(tokens, done);
        *word = String::new();
        assert(texts(tokens@) =~= texts(old(tokens)@) + word_token(old(word)@));
    } else {
        assert(word@ =~= Seq::<char>::empty());
        assert(texts(tokens@) =~= texts(old(tokens)@) + word_token(old(word)@));
    }
}

/// Ends a run of ideographs.
pub fn flush_cjk(cjk: &mut Vec<char>, tokens: &mut Vec<String>)
    ensures
        final(cjk)@ == Seq::<char>::empty(),
        texts(final(tokens)@) == texts(old(tokens)@) + pair_tokens(old(cjk)@),
{
    let ghost first = texts(tokens@);
    let ghost run = cjk@;
    if cjk.len() == 1 {
        let one = text_of(cjk, 0, 1);
        assert(run.subrange(0, 1) =~= run);
        push_text(tokens, one);
        assert(texts(tokens@) =~= first + pair_tokens(run));
    } else if cjk.len() > 1 {
        let mut i: usize = 0;
        assert(texts(tokens@) =~= first + pair_tokens(run).take(0));
        while i < cjk.len() - 1
            invariant
                cjk@ == run,
                run.len() > 1,
                i < run.len(),
                texts(tokens@) == first + pair_tokens(run).take(i as int),
            decreases run.len() - i,
        {
            let pair = text_of(cjk, i, i + 2);
            push_text(tokens, pair);
            assert(pair_tokens(run)[i as int] == run.subrange(i as int, i + 2));
            assert(texts(tokens@) =~= first + pair_tokens(run).take(i + 1));
            i = i + 1;
        }
        assert(pair_tokens(run).take(i as int) =~= pair_tokens(run));
    } else {
        assert(texts(tokens@) =~= first + pair_tokens(run));
    }
    *cjk = Vec::new();
    assert(cjk@ =~= Seq::<char>::empty());
}

/// The words of a text whose letters are small: runs of ASCII letters and digits, and
/// the neighbouring pairs in runs of ideographs.
pub fn tokenize_small(lower: &str) -> (r: Vec<String>)
    ensures
        texts(r@) == small_tokens(lower@),
{
    let v = chars_of(lower);
    let ghost s = lower@;
    let mut tokens: Vec<String> = Vec::new();
    let mut word = String::new();
    let mut cjk: Vec<char> = Vec::new();
    let mut i: usize = 0;
    assert(texts(tokens@) =~= reading(s.take(0)).tokens);
    assert(word@ =~= reading(s.take(0)).word);
    assert(cjk@ =~= reading(s.take(0)).run);
    while i < v.len()
        invariant
            i <= v@.len(),
            v@ == s,
            texts(tokens@) == reading(s.take(i as int)).tokens,
            word@ == reading(s.take(i as int)).word,
            cjk@ == reading(s.take(i as int)).run,
        decreases v@.len() - i,
    {
        let c: char = v[i];
        assert(s.take(i + 1).drop_last() =~= s.take(i as int));
        assert(s.take(i + 1).last() == c);
        if is_word_char(c) {
            flush_cjk(&mut cjk, &mut tokens);
            word.push(c);
        } else if is_cjk(c) {
            flush_word(&mut word, &mut tokens);
            cjk.push(c);
        } else {
            flush_word(&mut word, &mut tokens);
            flush_cjk(&mut cjk, &mut tokens);
        }
        i = i + 1;
    }
    assert(s.take(i as int) =~= s);
    flush_word(&mut word, &mut tokens);
    flush_cjk(&mut cjk, &mut tokens);
    tokens
}

/// The words of a text: runs of ASCII letters and digits, in small letters, and the
/// neighbouring pairs in runs of ideographs. A space parts words: those of a text are
/// those of what stands before it and then those of what stands behind it.
pub fn tokenize(text: &str) -> (r: Vec<String>)
    ensures
        texts(r@) == tokens_of(text@),
        are_tokens(texts(r@)),
        forall|i: int|
            0 <= i < text@.len() && #[trigger] text@[i] == ' ' ==> texts(r@) == tokens_of(
                text@.take(i),
            ) + tokens_of(text@.skip(i + 1)),
{
    let lower = to_lowercase(text);
    proof {
        words_are_runs_or_pairs(lower@);
        assert forall|i: int| 0 <= i < text@.len() && #[trigger] text@[i] == ' ' implies tokens_of(
            text@,
        ) == tokens_of(text@.take(i)) + tokens_of(text@.skip(i + 1)) by {
            a_blank_parts_words(lowercase_of(text@.take(i)), lowercase_of(text@.skip(i + 1)));
        }
    }
    tokenize_small(lower.as_str())
}

/// No word is empty.
pub proof fn no_word_is_empty(text: Text)
    ensures
        forall|i: int| 0 <= i < tokens_of(text).len() ==> (#[trigger] tokens_of(text)[i]).len() > 0,
{
    let s = lowercase_of(text);
    lemma_reading(s);
    let r = reading(s);
    lemma_filled(r.tokens, word_token(r.word));
    lemma_filled(r.tokens + word_token(r.word), pair_tokens(r.run));
}

/// Whether no text of a list is empty.
pub open spec fn filled(t: Seq<Text>) -> bool {
    forall|i: int| 0 <= i < t.len() ==> (#[trigger] t[i]).len() > 0
}

proof fn lemma_filled(a: Seq<Text>, b: Seq<Text>)
    requires
        filled(a),
        filled(b),
    ensures
        filled(a + b),
{
    assert forall|i: int| 0 <= i < (a + b).len() implies (#[trigger] (a + b)[i]).len() > 0 by {
        if i < a.len() {
            assert((a + b)[i] == a[i]);
        } else {
            assert((a + b)[i] == b[i - a.len()]);
        }
    }
}

proof fn lemma_reading(s: Text)
    ensures
        filled(reading(s).tokens),
    decreases s.len(),
{
    if s.len() > 0 {
        lemma_reading(s.drop_last());
        let r = reading(s.drop_last());
        lemma_filled(r.tokens, pair_tokens(r.run));
        lemma_filled(r.tokens, word_token(r.word));
        lemma_filled(r.tokens + word_token(r.word), pair_tokens(r.run));
    }
}

/// Whether a character is a small letter of ASCII or a digit.
pub open spec fn small_char(c: char) -> bool {
    ('a' <= c && c <= 'z') || ('0' <= c && c <= '9')
}

/// Whether a text is a run of small letters and digits, or one or two ideographs.
pub open spec fn is_token(t: Text) -> bool {
    ||| t.len() > 0 && forall|i: int| 0 <= i < t.len() ==> small_char(#[trigger] t[i])
    ||| 1 <= t.len() <= 2 && forall|i: int| 0 <= i < t.len() ==> ideograph(#[trigger] t[i])
}

/// Whether all texts of a list are runs of small letters and digits or ideographs.
pub open spec fn are_tokens(t: Seq<Text>) -> bool {
    forall|i: int| 0 <= i < t.len() ==> is_token(#[trigger] t[i])
}

proof fn lemma_are_tokens(a: Seq<Text>, b: Seq<Text>)
    requires
        are_tokens(a),
        are_tokens(b),
    ensures
        are_tokens(a + b),
{
    assert forall|i: int| 0 <= i < (a + b).len() implies is_token(#[trigger] (a + b)[i]) by {
        if i < a.len() {
            assert((a + b)[i] == a[i]);
        } else {
            assert((a + b)[i] == b[i - a.len()]);
        }
    }
}

proof fn lemma_reading_tokens(s: Text)
    requires
        no_capitals(s),
    ensures
        are_tokens(reading(s).tokens),
        are_tokens(word_token(reading(s).word)),
        are_tokens(pair_tokens(reading(s).run)),
        forall|i: int| 0 <= i < reading(s).word.len() ==> small_char(#[trigger] reading(s).word[i]),
        forall|i: int| 0 <= i < reading(s).run.len() ==> ideograph(#[trigger] reading(s).run[i]),
    decreases s.len(),
{
    if s.len() > 0 {
        assert(no_capitals(s.drop_last())) by {
            assert forall|i: int| 0 <= i < s.len() - 1 implies !('A' <= #[trigger] s.drop_last()[i]
                && s.drop_last()[i] <= 'Z') by {
                assert(s.drop_last()[i] == s[i]);
            }
        }
        assert(s.last() == s[s.len() - 1]);
        lemma_reading_tokens(s.drop_last());
        let r = reading(s.drop_last());
        lemma_are_tokens(r.tokens, pair_tokens(r.run));
        lemma_are_tokens(r.tokens, word_token(r.word));
        lemma_are_tokens(r.tokens + word_token(r.word), pair_tokens(r.run));
    }
    let run = reading(s).run;
    let pairs = pair_tokens(run);
    assert forall|i: int| 0 <= i < pairs.len() implies is_token(#[trigger] pairs[i]) by {
        let t = pairs[i];
        assert forall|k: int| 0 <= k < t.len() implies ideograph(#[trigger] t[k]) by {
            assert(t[k] == run[i + k]);
        }
    }
}

/// Every word of a text without capital letters is a run of small letters and digits,
/// or one or two ideographs.
pub proof fn words_are_runs_or_pairs(s: Text)
    requires
        no_capitals(s),
    ensures
        are_tokens(small_tokens(s)),
{
    lemma_reading_tokens(s);
    let r = reading(s);
    lemma_are_tokens(r.tokens, word_token(r.word));
    lemma_are_tokens(r.tokens + word_token(r.word), pair_tokens(r.run));
}

/// How a text reads behind another one and a blank.
proof fn lemma_reading_behind(a: Text, b: Text)
    ensures
        reading(a + seq![' '] + b).tokens == small_tokens(a) + reading(b).tokens,
        reading(a + seq![' '] + b).word == reading(b).word,
        reading(a + seq![' '] + b).run == reading(b).run,
    decreases b.len(),
{
    let all = a + seq![' '] + b;
    if b.len() == 0 {
        assert(all.drop_last() =~= a);
        assert(reading(all).tokens =~= small_tokens(a) + reading(b).tokens);
    } else {
        lemma_reading_behind(a, b.drop_last());
        assert(all.drop_last() =~= a + seq![' '] + b.drop_last());
        assert(all.last() == b.last());
        assert(reading(all).tokens =~= small_tokens(a) + reading(b).tokens);
    }
}

/// A blank parts words: those of two texts with a blank between them are those of the
/// one and those of the other.
pub proof fn a_blank_parts_words(a: Text, b: Text)
    ensures
        small_tokens(a + seq![' '] + b) == small_tokens(a) + small_tokens(b),
{
    lemma_reading_behind(a, b);
    assert(small_tokens(a + seq![' '] + b) =~= small_tokens(a) + small_tokens(b));
}

// ---- how often words occur ----

/// One more, as far as numbers go.
pub open spec fn one_more(n: u64) -> u64 {
    if n == u64::MAX {
        n
    } else {
        (n + 1) as u64
    }
}

/// How often a word occurs, by a list of words and counts.
pub open spec fn count_in(tally: Seq<(Text, u64)>, word: Text) -> u64
    decreases tally.len(),
{
    if tally.len() == 0 {
        0
    } else if tally[0].0 == word {
        tally[0].1
    } else {
        count_in(tally.drop_first(), word)
    }
}

/// A list of words and counts with a word counted once more.
pub open spec fn counted(tally: Seq<(Text, u64)>, word: Text) -> Seq<(Text, u64)>
    decreases tally.len(),
{
    if tally.len() == 0 {
        seq![(word, 1u64)]
    } else if tally[0].0 == word {
        seq![(word, one_more(tally[0].1))] + tally.drop_first()
    } else {
        seq![tally[0]] + counted(tally.drop_first(), word)
    }
}

/// The words of a list with how often each occurs.
pub open spec fn tally_of(words: Seq<Text>) -> Seq<(Text, u64)>
    decreases words.len(),
{
    if words.len() == 0 {
        Seq::empty()
    } else {
        counted(tally_of(words.drop_last()), words.last())
    }
}

/// How often a word occurs in a list.
pub open spec fn occurrences(words: Seq<Text>, word: Text) -> nat
    decreases words.len(),
{
    if words.len() == 0 {
        0
    } else {
        occurrences(words.drop_last(), word) + if words.last() == word {
            1nat
        } else {
            0
        }
    }
}

/// Counting a word adds one to its count and leaves the others.
proof fn lemma_counted(tally: Seq<(Text, u64)>, word: Text, other: Text)
    ensures
        count_in(counted(tally, word), other) == if other == word {
            one_more(count_in(tally, word))
        } else {
            count_in(tally, other)
        },
    decreases tally.len(),
{
    let next = counted(tally, word);
    if tally.len() == 0 {
        assert(next.drop_first() =~= Seq::empty());
        reveal_with_fuel(count_in, 2);
    } else if tally[0].0 == word {
        assert(next.drop_first() =~= tally.drop_first());
    } else {
        assert(next[0] == tally[0]);
        assert(next.drop_first() =~= counted(tally.drop_first(), word));
        lemma_counted(tally.drop_first(), word, other);
    }
}

/// The counts of a list of words are how often each occurs in it.
pub proof fn counts_are_occurrences(words: Seq<Text>, word: Text)
    requires
        words.len() <= u64::MAX,
    ensures
        count_in(tally_of(words), word) == occurrences(words, word),
        occurrences(words, word) <= words.len(),
    decreases words.len(),
{
    if words.len() > 0 {
        counts_are_occurrences(words.drop_last(), word);
        lemma_counted(tally_of(words.drop_last()), words.last(), word);
    }
}

/// What a list of words and counts holds.
pub open spec fn tally_held(v: Seq<(String, u64)>) -> Seq<(Text, u64)> {
    Seq::new(v.len(), |i: int| (v[i].0@, v[i].1))
}

/// Counts a word.
fn count_word(tally: &mut Vec<(String, u64)>, word: &str)
    ensures
        tally_held(final(tally)@) == counted(tally_held(old(tally)@), word@),
{
    let ghost t = tally_held(tally@);
    let mut i: usize = 0;
    assert(t.skip(0) =~= t);
    assert(t.take(0) + counted(t.skip(0), word@) =~= counted(t, word@));
    while i < tally.len()
        invariant
            i <= tally@.len(),
            t == tally_held(tally@),
            *tally == *old(tally),
            t.take(i as int) + counted(t.skip(i as int), word@) == counted(t, word@),
        decreases tally@.len() - i,
    {
        let ghost rest = t.skip(i as int);
        assert(rest[0] == t[i as int]);
        assert(rest.drop_first() =~= t.skip(i + 1));
        if same(tally[i].0.as_str(), word) {
            let n = tally[i].1;
            let up: u64 = n.saturating_add(1);
            tally.set(i, (word.to_owned(), up));
            assert(tally_held(tally@) =~= t.take(i as int) + counted(rest, word@));
            return;
        }
        assert(t.take(i + 1) + counted(t.skip(i + 1), word@) =~= t.take(i as int) + counted(
            rest,
            word@,
        ));
        i = i + 1;
    }
    assert(t.skip(i as int) =~= Seq::empty());
    tally.push((word.to_owned(), 1));
    assert(tally_held(tally@) =~= t.take(i as int) + counted(t.skip(i as int), word@));
}

/// How often a word occurs.
fn find_count(tally: &Vec<(String, u64)>, word: &str) -> (r: u64)
    ensures
        r == count_in(tally_held(tally@), word@),
{
    let ghost t = tally_held(tally@);
    let mut i: usize = 0;
    assert(t.skip(0) =~= t);
    while i < tally.len()
        invariant
            i <= tally@.len(),
            t == tally_held(tally@),
            count_in(t, word@) == count_in(t.skip(i as int), word@),
        decreases tally@.len() - i,
    {
        assert(t.skip(i as int)[0] == t[i as int]);
        assert(t.skip(i as int).drop_first() =~= t.skip(i + 1));
        if same(tally[i].0.as_str(), word) {
            return tally[i].1;
        }
        i = i + 1;
    }
    assert(t.skip(i as int) =~= Seq::empty());
    0
}

// ---- chunks ----

/// A chunk of a file.
#[derive(Debug)]
pub struct Chunk {
    /// The path of the file, from the root, with slashes.
    pub rel_path: String,
    /// The first line, counted from 1.
    pub start_line: usize,
    /// The last line.
    pub end_line: usize,
    /// The heading, or the name of the file.
    pub title: String,
    /// The words with how often each occurs.
    pub tf: Vec<(String, u64)>,
}

/// What a [`Chunk`] holds.
pub struct ChunkV {
    pub rel_path: Text,
    pub start_line: nat,
    pub end_line: nat,
    pub title: Text,
    pub tf: Seq<(Text, u64)>,
}

impl View for Chunk {
    type V = ChunkV;

    open spec fn view(&self) -> ChunkV {
        ChunkV {
            rel_path: self.rel_path@,
            start_line: self.start_line as nat,
            end_line: self.end_line as nat,
            title: self.title@,
            tf: tally_held(self.tf@),
        }
    }
}

/// What a list of chunks holds.
pub open spec fn chunks_held(v: Seq<Chunk>) -> Seq<ChunkV> {
    Seq::new(v.len(), |i: int| v[i]@)
}

/// The chunk that lines `start` to `end` of a file make.
pub open spec fn chunk_of(
    all: Seq<Text>,
    rel_path: Text,
    start: nat,
    end: nat,
    title: Text,
) -> ChunkV {
    ChunkV {
        rel_path,
        start_line: start,
        end_line: end,
        title,
        tf: tally_of(tokens_of(joined(all.subrange(start - 1, end as int), "\n"@))),
    }
}

/// Adds the chunk that lines `start` to `end` of a file make.
pub fn push_chunk(
    all: &Vec<String>,
    rel_path: &str,
    start: usize,
    end: usize,
    title: String,
    chunks: &mut Vec<Chunk>,
)
    requires
        1 <= start <= end <= all@.len(),
    ensures
        chunks_held(final(chunks)@) == chunks_held(old(chunks)@).push(
            chunk_of(texts(all@), rel_path@, start as nat, end as nat, title@),
        ),
{
    let ghost t = texts(all@);
    let mut part: Vec<String> = Vec::new();
    let mut i: usize = start - 1;
    while i < end
        invariant
            1 <= start <= end <= all@.len(),
            start - 1 <= i <= end,
            t == texts(all@),
            part@.len() == i - (start - 1),
            forall|k: int| 0 <= k < part@.len() ==> (#[trigger] part@[k])@ == t[start - 1 + k],
        decreases end - i,
    {
        part.push(all[i].clone());
        i = i + 1;
    }
    assert(texts(part@) =~= t.subrange(start - 1, end as int));
    let text = join(&part, "\n");
    let words = tokenize(text.as_str());
    let ghost w = texts(words@);
    let mut tf: Vec<(String, u64)> = Vec::new();
    let mut k: usize = 0;
    assert(tally_held(tf@) =~= tally_of(w.take(0)));
    while k < words.len()
        invariant
            k <= words@.len(),
            w == texts(words@),
            tally_held(tf@) == tally_of(w.take(k as int)),
        decreases words@.len() - k,
    {
        assert(w.take(k + 1).drop_last() =~= w.take(k as int));
        assert(w.take(k + 1).last() == words@[k as int]@);
        count_word(&mut tf, words[k].as_str());
        k = k + 1;
    }
    assert(w.take(k as int) =~= w);
    let ghost first = chunks@;
    let ghost tv = title@;
    chunks.push(
        Chunk { rel_path: rel_path.to_owned(), start_line: start, end_line: end, title, tf },
    );
    assert(chunks_held(chunks@) =~= chunks_held(first).push(
        chunk_of(t, rel_path@, start as nat, end as nat, tv),
    ));
}

/// The number of `#` that a line begins with, but at most six.
pub open spec fn hashes(line: Text, n: nat) -> nat
    decreases 6 - n,
{
    if n < 6 && n < line.len() && line[n as int] == '#' {
        hashes(line, n + 1)
    } else {
        n
    }
}

/// Whether a line is a heading: one to six `#` and a blank.
pub open spec fn heading(line: Text) -> bool {
    let n = hashes(line, 0);
    0 < n < line.len() && is_white(line[n as int])
}

/// Whether a line is a heading: one to six `#` and a blank.
pub fn is_heading_line(line: &str) -> (r: bool)
    ensures
        r == heading(line@),
{
    let v = chars_of(line);
    let mut n: usize = 0;
    while n < 6 && n < v.len() && v[n] == '#'
        invariant
            n <= 6,
            n <= v@.len(),
            v@ == line@,
            hashes(line@, 0) == hashes(line@, n as nat),
        decreases 6 - n,
    {
        n = n + 1;
    }
    n > 0 && n < v.len() && white(v[n])
}

/// A section: its first line, its last line, and the line of its heading where it has
/// one.
pub type Section = (nat, nat, Option<nat>);

/// The sections that end in the lines read so far, and where the one that goes on
/// begins.
pub open spec fn sections_open(all: Seq<Text>) -> (Seq<Section>, nat, Option<nat>)
    decreases all.len(),
{
    if all.len() == 0 {
        (Seq::empty(), 1, None)
    } else {
        let (done, start, head) = sections_open(all.drop_last());
        let no = all.len();
        if heading(all.last()) {
            (
                if no > start {
                    done.push((start, (no - 1) as nat, head))
                } else {
                    done
                },
                no,
                Some(no),
            )
        } else {
            (done, start, head)
        }
    }
}

/// The sections of a document.
pub open spec fn sections_of(all: Seq<Text>) -> Seq<Section> {
    let (done, start, head) = sections_open(all);
    done.push((start, all.len(), head))
}

/// What a list of sections holds.
pub open spec fn sections_held(v: Seq<(usize, usize, Option<usize>)>) -> Seq<Section> {
    Seq::new(
        v.len(),
        |i: int|
            (
                v[i].0 as nat,
                v[i].1 as nat,
                match v[i].2 {
                    Some(n) => Some(n as nat),
                    None => None,
                },
            ),
    )
}

/// The sections of a document: each begins at a heading, but for the one before the
/// first heading.
pub fn markdown_sections(all: &Vec<String>) -> (r: Vec<(usize, usize, Option<usize>)>)
    ensures
        sections_held(r@) == sections_of(texts(all@)),
{
    let ghost t = texts(all@);
    let mut out: Vec<(usize, usize, Option<usize>)> = Vec::new();
    let mut start: usize = 1;
    let mut head: Option<usize> = None;
    let mut i: usize = 0;
    assert(sections_held(out@) =~= sections_open(t.take(0)).0);
    while i < all.len()
        invariant
            i <= all@.len(),
            t == texts(all@),
            1 <= start,
            start <= i || start == 1,
            sections_held(out@) == sections_open(t.take(i as int)).0,
            start == sections_open(t.take(i as int)).1,
            match head {
                Some(n) => sections_open(t.take(i as int)).2 == Some(n as nat),
                None => sections_open(t.take(i as int)).2 is None,
            },
        decreases all@.len() - i,
    {
        let no: usize = i + 1;
        assert(t.take(i + 1).drop_last() =~= t.take(i as int));
        assert(t.take(i + 1).last() == all@[i as int]@);
        if is_heading_line(all[i].as_str()) {
            if no > start {
                let ghost first = out@;
                out.push((start, no - 1, head));
                assert(sections_held(out@) =~= sections_held(first).push(
                    (start as nat, (no - 1) as nat, sections_open(t.take(i as int)).2),
                ));
            }
            start = no;
            head = Some(no);
        }
        i = i + 1;
    }
    assert(t.take(i as int) =~= t);
    let ghost first = out@;
    out.push((start, all.len(), head));
    assert(sections_held(out@) =~= sections_held(first).push(
        (start as nat, all@.len(), sections_open(t).2),
    ));
    out
}

/// What holds of the sections that were read so far.
proof fn lemma_sections(all: Seq<Text>)
    ensures
        ({
            let (done, start, head) = sections_open(all);
            &&& 1 <= start
            &&& start <= all.len() || (start == 1 && all.len() == 0)
            &&& done.len() == 0 ==> start == 1
            &&& done.len() > 0 ==> done[0].0 == 1 && done[done.len() - 1].1 + 1 == start
            &&& forall|i: int| 0 <= i < done.len() ==> (#[trigger] done[i]).0 <= done[i].1
            &&& forall|i: int|
                0 < i < done.len() ==> (#[trigger] done[i]).0 == done[i - 1].1 + 1
            &&& match head {
                Some(n) => n == start && heading(all[n - 1]),
                None => start == 1 && done.len() == 0,
            }
            &&& forall|i: int|
                0 <= i < done.len() ==> match (#[trigger] done[i]).2 {
                    Some(n) => n == done[i].0 && heading(all[n - 1]),
                    None => i == 0,
                }
        }),
    decreases all.len(),
{
    if all.len() > 0 {
        let init = all.drop_last();
        lemma_sections(init);
        let (done0, start0, head0) = sections_open(init);
        let (done, start, head) = sections_open(all);
        assert forall|i: int| 0 <= i < done.len() implies match (#[trigger] done[i]).2 {
            Some(n) => n == done[i].0 && heading(all[n - 1]),
            None => i == 0,
        } by {
            if i < done0.len() {
                assert(done[i] == done0[i]);
                match done0[i].2 {
                    Some(n) => {
                        lemma_sections_bound(init, i);
                        assert(all[n - 1] == init[n - 1]);
                    },
                    None => {},
                }
            } else {
                match head0 {
                    Some(n) => {
                        assert(all[n - 1] == init[n - 1]);
                    },
                    None => {},
                }
            }
        }
        match head {
            Some(n) => {
                if !heading(all.last()) {
                    assert(all[n - 1] == init[n - 1]);
                }
            },
            None => {},
        }
    }
}

/// A section that has ended ended before the one that goes on.
proof fn lemma_sections_bound(all: Seq<Text>, i: int)
    requires
        0 <= i < sections_open(all).0.len(),
    ensures
        1 <= sections_open(all).0[i].0 <= sections_open(all).0[i].1 < sections_open(all).1
            <= all.len(),
    decreases all.len(),
{
    if all.len() > 0 {
        let init = all.drop_last();
        let done0 = sections_open(init).0;
        lemma_open_start(init);
        if i < done0.len() {
            lemma_sections_bound(init, i);
        }
    }
}

/// The section that goes on begins at one of the lines.
proof fn lemma_open_start(all: Seq<Text>)
    ensures
        1 <= sections_open(all).1,
        sections_open(all).1 <= all.len() || (sections_open(all).1 == 1 && all.len() == 0),
    decreases all.len(),
{
    if all.len() > 0 {
        lemma_open_start(all.drop_last());
    }
}

/// The sections of a document cover its lines from the first to the last, one after
/// the other; each but the first begins at its heading.
pub proof fn sections_cover_the_lines(all: Seq<Text>)
    requires
        all.len() > 0,
    ensures
        ({
            let s = sections_of(all);
            &&& s.len() > 0
            &&& s[0].0 == 1
            &&& s[s.len() - 1].1 == all.len()
            &&& forall|i: int| 0 <= i < s.len() ==> (#[trigger] s[i]).0 <= s[i].1
            &&& forall|i: int| 0 < i < s.len() ==> (#[trigger] s[i]).0 == s[i - 1].1 + 1
            &&& forall|i: int|
                0 <= i < s.len() ==> match (#[trigger] s[i]).2 {
                    Some(n) => n == s[i].0 && heading(all[n - 1]),
                    None => i == 0,
                }
        }),
{
    lemma_sections(all);
    let (done, start, head) = sections_open(all);
    let s = sections_of(all);
    assert forall|i: int| 0 <= i < s.len() implies (#[trigger] s[i]).0 <= s[i].1 by {
        if i < done.len() {
            assert(s[i] == done[i]);
        }
    }
    assert forall|i: int| 0 < i < s.len() implies (#[trigger] s[i]).0 == s[i - 1].1 + 1 by {
        assert(s[i - 1] == done[i - 1]);
        if i < done.len() {
            assert(s[i] == done[i]);
        }
    }
    assert forall|i: int| 0 <= i < s.len() implies match (#[trigger] s[i]).2 {
        Some(n) => n == s[i].0 && heading(all[n - 1]),
        None => i == 0,
    } by {
        if i < done.len() {
            assert(s[i] == done[i]);
        }
    }
}

/// Whether a section begins at a line.
pub open spec fn begins_at(s: Seq<Section>, line: int) -> bool {
    exists|i: int| 0 <= i < s.len() && (#[trigger] s[i]).0 == line
}

/// A heading begins the section that goes on, or began one that has ended.
proof fn lemma_heading_begins(all: Seq<Text>, k: int)
    requires
        0 <= k < all.len(),
        heading(all[k]),
    ensures
        sections_open(all).1 == k + 1 || begins_at(sections_open(all).0, k + 1),
    decreases all.len(),
{
    let init = all.drop_last();
    if k < init.len() {
        assert(init[k] == all[k]);
        lemma_heading_begins(init, k);
        lemma_open_start(init);
        let (done0, start0, _) = sections_open(init);
        let done = sections_open(all).0;
        if start0 == k + 1 {
            if heading(all.last()) {
                assert(done[done0.len() as int].0 == k + 1);
            }
        } else {
            let i = choose|i: int| 0 <= i < done0.len() && (#[trigger] done0[i]).0 == k + 1;
            assert(done[i] == done0[i]);
        }
    }
}

/// Every heading of a document begins a section.
pub proof fn every_heading_begins_a_section(all: Seq<Text>)
    ensures
        forall|k: int|
            0 <= k < all.len() && heading(#[trigger] all[k]) ==> begins_at(sections_of(all), k + 1),
{
    let s = sections_of(all);
    let (done, start, _) = sections_open(all);
    assert forall|k: int| 0 <= k < all.len() && heading(#[trigger] all[k]) implies begins_at(
        s,
        k + 1,
    ) by {
        lemma_heading_begins(all, k);
        if start == k + 1 {
            assert(s[done.len() as int].0 == k + 1);
        } else {
            let i = choose|i: int| 0 <= i < done.len() && (#[trigger] done[i]).0 == k + 1;
            assert(s[i] == done[i]);
        }
    }
}

// ---- files ----

/// The path of an entry of a directory, from the root.
pub open spec fn path_under(prefix: Text, name: Text) -> Text {
    if prefix.len() == 0 {
        name
    } else {
        prefix + "/"@ + name
    }
}

/// The path of an entry of a directory, from the root.
pub fn join_rel(prefix: &str, name: &str) -> (r: String)
    ensures
        r@ == path_under(prefix@, name@),
{
    if prefix.is_empty() {
        name.to_owned()
    } else {
        join3(prefix, "/", name)
    }
}

/// Whether a name ends with one of these endings, in either case.
pub open spec fn listed(name: Text, extensions: Seq<Text>) -> bool {
    exists|i: int|
        0 <= i < extensions.len() && ends(ascii_lower(name), #[trigger] extensions[i])
}

/// Whether a name ends with one of these endings, in either case.
fn is_listed(name: &str, extensions: &Vec<String>) -> (r: bool)
    ensures
        r == listed(name@, texts(extensions@)),
{
    let lower = to_ascii_lower(name);
    let ghost all = texts(extensions@);
    let mut i: usize = 0;
    while i < extensions.len()
        invariant
            i <= extensions@.len(),
            all == texts(extensions@),
            lower@ == ascii_lower(name@),
            forall|k: int| 0 <= k < i ==> !ends(ascii_lower(name@), #[trigger] all[k]),
        decreases extensions@.len() - i,
    {
        assert(all[i as int] == extensions@[i as int]@);
        if finishes(lower.as_str(), extensions[i].as_str()) {
            return true;
        }
        i = i + 1;
    }
    false
}

/// What to do with an entry of a directory.
#[derive(Debug)]
pub enum Visit {
    Skip,
    /// Go into the directory of this path.
    Enter(String),
    /// Read the file of this path.
    Read(String),
}

/// Whether a directory is passed over.
pub open spec fn passed_over(name: Text) -> bool {
    begins(name, "."@) || name == SKIPPED_DIRS[0]@ || name == SKIPPED_DIRS[1]@ || name
        == SKIPPED_DIRS[2]@
}

/// What a [`Visit`] says.
pub enum VisitV {
    Skip,
    Enter(Text),
    Read(Text),
}

impl View for Visit {
    type V = VisitV;

    open spec fn view(&self) -> VisitV {
        match self {
            Visit::Skip => VisitV::Skip,
            Visit::Enter(path) => VisitV::Enter(path@),
            Visit::Read(path) => VisitV::Read(path@),
        }
    }
}

/// What is done with an entry of a directory.
pub open spec fn visiting(
    prefix: Text,
    name: Text,
    is_dir: bool,
    is_file: bool,
    extensions: Seq<Text>,
) -> VisitV {
    if is_dir {
        if passed_over(name) {
            VisitV::Skip
        } else {
            VisitV::Enter(path_under(prefix, name))
        }
    } else if is_file && !begins(name, "."@) && listed(name, extensions) {
        VisitV::Read(path_under(prefix, name))
    } else {
        VisitV::Skip
    }
}

/// What to do with an entry of the directory `prefix`: directories are gone into and
/// files of the listed endings are read, unless they are passed over. What is
/// neither, such as a link, is left alone.
pub fn visit(prefix: &str, name: &str, is_dir: bool, is_file: bool, extensions: &Vec<String>) -> (r:
    Visit)
    ensures
        match r {
            Visit::Enter(path) => {
                &&& is_dir
                &&& !passed_over(name@)
                &&& path@ == path_under(prefix@, name@)
            },
            Visit::Read(path) => {
                &&& !is_dir
                &&& is_file
                &&& !begins(name@, "."@)
                &&& listed(name@, texts(extensions@))
                &&& path@ == path_under(prefix@, name@)
            },
            Visit::Skip => if is_dir {
                passed_over(name@)
            } else {
                begins(name@, "."@) || !is_file || !listed(name@, texts(extensions@))
            },
        },
        r@ == visiting(prefix@, name@, is_dir, is_file, texts(extensions@)),
{
    if starts(name, ".") {
        return Visit::Skip;
    }
    let path = join_rel(prefix, name);
    if is_dir {
        if same(name, SKIPPED_DIRS[0]) || same(name, SKIPPED_DIRS[1]) || same(
            name,
            SKIPPED_DIRS[2],
        ) {
            Visit::Skip
        } else {
            Visit::Enter(path)
        }
    } else if is_file && is_listed(name, extensions) {
        Visit::Read(path)
    } else {
        Visit::Skip
    }
}

/// The title of a section: its heading without the `#` before it, or the name of the
/// file.
pub open spec fn section_title(all: Seq<Text>, head: Option<nat>, file_name: Text) -> Text {
    match head {
        Some(n) => trimmed(drop_front(all[n - 1], among("#"@))),
        None => file_name,
    }
}

/// The chunks that sections make.
pub open spec fn section_chunks(
    all: Seq<Text>,
    sections: Seq<Section>,
    rel_path: Text,
    file_name: Text,
) -> Seq<ChunkV> {
    Seq::new(
        sections.len(),
        |i: int|
            chunk_of(
                all,
                rel_path,
                sections[i].0,
                sections[i].1,
                section_title(all, sections[i].2, file_name),
            ),
    )
}

/// The last line of a window of source code.
pub open spec fn window_end(lines: nat, start: nat) -> nat {
    if start + CODE_WINDOW_LINES - 1 < lines {
        (start + CODE_WINDOW_LINES - 1) as nat
    } else {
        lines
    }
}

/// The chunks that windows of source code make, from line `start` on.
pub open spec fn window_chunks(
    all: Seq<Text>,
    start: nat,
    rel_path: Text,
    file_name: Text,
) -> Seq<ChunkV>
    decreases (if start > all.len() {
        0
    } else {
        all.len() + 1 - start
    }),
{
    if start == 0 || start > all.len() {
        Seq::empty()
    } else {
        seq![chunk_of(all, rel_path, start, window_end(all.len(), start), file_name)]
            + window_chunks(all, start + CODE_WINDOW_LINES as nat, rel_path, file_name)
    }
}

/// Whether a file is cut at its headings.
pub open spec fn is_document(file_name: Text) -> bool {
    ends(ascii_lower(file_name), MARKDOWN_EXTS[0]@) || ends(
        ascii_lower(file_name),
        MARKDOWN_EXTS[1]@,
    )
}

/// The chunks of a file.
pub open spec fn file_chunks(rel_path: Text, file_name: Text, content: Text) -> Seq<ChunkV> {
    let all = lines_of(content);
    if all.len() == 0 {
        Seq::empty()
    } else if is_document(file_name) {
        section_chunks(all, sections_of(all), rel_path, file_name)
    } else {
        window_chunks(all, 1, rel_path, file_name)
    }
}

/// Whether a file of this size is read.
pub fn small_enough(size: u64) -> (r: bool)
    ensures
        r == (size <= MAX_FILE_BYTES),
        r == (size <= 20 * 1024 * 1024),
{
    size <= MAX_FILE_BYTES
}

/// Adds the chunks of a file that has lines.
fn cut_document(all: &Vec<String>, rel_path: &str, file_name: &str, chunks: &mut Vec<Chunk>)
    requires
        all@.len() > 0,
    ensures
        chunks_held(final(chunks)@) == chunks_held(old(chunks)@) + section_chunks(
            texts(all@),
            sections_of(texts(all@)),
            rel_path@,
            file_name@,
        ),
{
    let ghost t = texts(all@);
    let ghost first = chunks_held(chunks@);
    let sections = markdown_sections(all);
    let ghost s = sections_held(sections@);
    let ghost goal = section_chunks(t, s, rel_path@, file_name@);
    proof {
        sections_cover_the_lines(t);
    }
    let mut i: usize = 0;
    assert(chunks_held(chunks@) =~= first + goal.take(0));
    while i < sections.len()
        invariant
            i <= sections@.len(),
            t == texts(all@),
            s == sections_held(sections@),
            s == sections_of(t),
            t.len() > 0,
            goal == section_chunks(t, s, rel_path@, file_name@),
            chunks_held(chunks@) == first + goal.take(i as int),
        decreases sections@.len() - i,
    {
        let section = sections[i];
        proof {
            sections_cover_the_lines(t);
            lemma_section_in_range(t, i as int);
            assert(s[i as int].0 == section.0 && s[i as int].1 == section.1);
        }
        let title = match section.2 {
            Some(n) => {
                let bare = trim_start_of(all[n - 1].as_str(), "#");
                trim(bare.as_str())
            },
            None => file_name.to_owned(),
        };
        assert(goal[i as int] == chunk_of(
            t,
            rel_path@,
            section.0 as nat,
            section.1 as nat,
            title@,
        ));
        push_chunk(all, rel_path, section.0, section.1, title, chunks);
        assert(chunks_held(chunks@) =~= first + goal.take(i + 1));
        i = i + 1;
    }
    assert(goal.take(i as int) =~= goal);
}

/// A section's lines, and that of its heading, are lines of the document.
proof fn lemma_section_in_range(all: Seq<Text>, i: int)
    requires
        all.len() > 0,
        0 <= i < sections_of(all).len(),
    ensures
        1 <= sections_of(all)[i].0 <= sections_of(all)[i].1 <= all.len(),
        match sections_of(all)[i].2 {
            Some(n) => 1 <= n <= all.len(),
            None => true,
        },
{
    let (done, start, head) = sections_open(all);
    lemma_sections(all);
    sections_cover_the_lines(all);
    lemma_open_start(all);
    if i < done.len() {
        lemma_sections_bound(all, i);
        assert(sections_of(all)[i] == done[i]);
    }
}

/// Adds the chunks of a file that is cut every so many lines.
fn cut_code(all: &Vec<String>, rel_path: &str, file_name: &str, chunks: &mut Vec<Chunk>)
    ensures
        chunks_held(final(chunks)@) == chunks_held(old(chunks)@) + window_chunks(
            texts(all@),
            1,
            rel_path@,
            file_name@,
        ),
{
    let ghost t = texts(all@);
    let ghost goal = chunks_held(chunks@) + window_chunks(t, 1, rel_path@, file_name@);
    let mut start: usize = 1;
    let mut more = all.len() >= 1;
    if !more {
        assert(chunks_held(chunks@) =~= goal);
    }
    while more
        invariant
            t == texts(all@),
            1 <= start,
            more ==> start <= all@.len(),
            chunks_held(chunks@) + (if more {
                window_chunks(t, start as nat, rel_path@, file_name@)
            } else {
                Seq::empty()
            }) == goal,
        decreases (if more {
            all@.len() + 1 - start
        } else {
            0
        }),
    {
        let end: usize = if all.len() - start >= CODE_WINDOW_LINES {
            start + (CODE_WINDOW_LINES - 1)
        } else {
            all.len()
        };
        let ghost held = chunks_held(chunks@);
        assert(end == window_end(t.len(), start as nat));
        push_chunk(all, rel_path, start, end, file_name.to_owned(), chunks);
        let ghost one = chunk_of(t, rel_path@, start as nat, end as nat, file_name@);
        if all.len() - start >= CODE_WINDOW_LINES {
            proof {
                let rest = window_chunks(
                    t,
                    (start + CODE_WINDOW_LINES) as nat,
                    rel_path@,
                    file_name@,
                );
                assert(held.push(one) + rest =~= held + (seq![one] + rest));
            }
            start = start + CODE_WINDOW_LINES;
        } else {
            proof {
                let rest = window_chunks(
                    t,
                    (start + CODE_WINDOW_LINES) as nat,
                    rel_path@,
                    file_name@,
                );
                assert(rest =~= Seq::empty());
                assert(held.push(one) + Seq::<ChunkV>::empty() =~= held + (seq![one] + rest));
            }
            more = false;
        }
    }
    assert(chunks_held(chunks@) =~= goal);
}

/// The chunks of the files that were read.
#[derive(Debug)]
pub struct Index {
    pub chunks: Vec<Chunk>,
}

impl Default for Index {
    fn default() -> (r: Self)
        ensures
            r.chunks@.len() == 0,
    {
        Index { chunks: Vec::new() }
    }
}

impl Index {
    /// Adds the chunks of a file.
    pub fn index_file(&mut self, rel_path: &str, file_name: &str, content: &str)
        ensures
            chunks_held(final(self).chunks@) == chunks_held(old(self).chunks@) + file_chunks(
                rel_path@,
                file_name@,
                content@,
            ),
    {
        let all = lines(content);
        if all.len() == 0 {
            assert(texts(all@) =~= Seq::empty());
            assert(chunks_held(self.chunks@) =~= chunks_held(self.chunks@) + Seq::empty());
            return;
        }
        assert(texts(all@).len() == all@.len());
        let lower = to_ascii_lower(file_name);
        if finishes(lower.as_str(), MARKDOWN_EXTS[0]) || finishes(
            lower.as_str(),
            MARKDOWN_EXTS[1],
        ) {
            cut_document(&all, rel_path, file_name, &mut self.chunks);
        } else {
            cut_code(&all, rel_path, file_name, &mut self.chunks);
        }
    }
}

// ---- search ----

/// A list of texts with each only once, at its first place.
pub open spec fn once(words: Seq<Text>) -> Seq<Text>
    decreases words.len(),
{
    if words.len() == 0 {
        Seq::empty()
    } else if once(words.drop_last()).contains(words.last()) {
        once(words.drop_last())
    } else {
        once(words.drop_last()).push(words.last())
    }
}

/// Keeps each text once.
fn keep_once(words: &Vec<String>) -> (r: Vec<String>)
    ensures
        texts(r@) == once(texts(words@)),
{
    let ghost w = texts(words@);
    let mut out: Vec<String> = Vec::new();
    let mut i: usize = 0;
    assert(texts(out@) =~= once(w.take(0)));
    while i < words.len()
        invariant
            i <= words@.len(),
            w == texts(words@),
            texts(out@) == once(w.take(i as int)),
        decreases words@.len() - i,
    {
        assert(w.take(i + 1).drop_last() =~= w.take(i as int));
        assert(w.take(i + 1).last() == words@[i as int]@);
        if !is_among(&out, words[i].as_str()) {
            push_text(&mut out, words[i].clone());
        }
        i = i + 1;
    }
    assert(w.take(i as int) =~= w);
    out
}

/// Whether a text is in a list.
fn is_among(all: &Vec<String>, text: &str) -> (r: bool)
    ensures
        r == texts(all@).contains(text@),
{
    let ghost t = texts(all@);
    let mut i: usize = 0;
    while i < all.len()
        invariant
            i <= all@.len(),
            t == texts(all@),
            forall|k: int| 0 <= k < i ==> t[k] != text@,
        decreases all@.len() - i,
    {
        if same(all[i].as_str(), text) {
            assert(t[i as int] == text@);
            return true;
        }
        i = i + 1;
    }
    false
}

/// What a word adds to the score of a chunk: how often it occurs there, three times
/// as much where the title holds it.
pub open spec fn word_score(chunk: ChunkV, word: Text) -> nat {
    if has(lowercase_of(chunk.title), word) {
        3 * count_in(chunk.tf, word) as nat
    } else {
        count_in(chunk.tf, word) as nat
    }
}

/// The score of a chunk for words.
pub open spec fn score(chunk: ChunkV, words: Seq<Text>) -> nat
    decreases words.len(),
{
    if words.len() == 0 {
        0
    } else {
        score(chunk, words.drop_last()) + word_score(chunk, words.last())
    }
}

/// A score as far as numbers go.
pub open spec fn capped(n: nat) -> u64 {
    if n > u64::MAX {
        u64::MAX
    } else {
        n as u64
    }
}

/// The score of a chunk for words.
fn score_of(chunk: &Chunk, words: &Vec<String>) -> (r: u64)
    ensures
        r == capped(score(chunk@, texts(words@))),
{
    let ghost w = texts(words@);
    let title = to_lowercase(chunk.title.as_str());
    let mut total: u64 = 0;
    let mut i: usize = 0;
    while i < words.len()
        invariant
            i <= words@.len(),
            w == texts(words@),
            title@ == lowercase_of(chunk@.title),
            total == capped(score(chunk@, w.take(i as int))),
        decreases words@.len() - i,
    {
        assert(w.take(i + 1).drop_last() =~= w.take(i as int));
        assert(w.take(i + 1).last() == words@[i as int]@);
        let n: u64 = find_count(&chunk.tf, words[i].as_str());
        total = total.saturating_add(n);
        if contains(title.as_str(), words[i].as_str()) {
            total = total.saturating_add(n);
            total = total.saturating_add(n);
        }
        i = i + 1;
    }
    assert(w.take(i as int) =~= w);
    total
}

/// A chunk that fits, by its place in the index.
pub type Ranked = (u64, int);

/// Whether one chunk that fits goes before another: the one of the higher score, or
/// else the one whose path comes first, or else the one that begins first.
pub open spec fn goes_before(chunks: Seq<ChunkV>, a: Ranked, b: Ranked) -> bool {
    let x = chunks[a.1];
    let y = chunks[b.1];
    a.0 > b.0 || (a.0 == b.0 && (before(x.rel_path, y.rel_path) || (x.rel_path == y.rel_path
        && x.start_line < y.start_line)))
}

/// A list in order with one chunk more, behind those that do not go after it.
pub open spec fn placed(chunks: Seq<ChunkV>, s: Seq<Ranked>, x: Ranked) -> Seq<Ranked>
    decreases s.len(),
{
    if s.len() > 0 && goes_before(chunks, x, s.last()) {
        placed(chunks, s.drop_last(), x).push(s.last())
    } else {
        s.push(x)
    }
}

/// The chunks among the first `n` that fit the words, in order.
pub open spec fn ranking(chunks: Seq<ChunkV>, words: Seq<Text>, n: nat) -> Seq<Ranked>
    decreases n,
{
    if n == 0 {
        Seq::empty()
    } else {
        let s = capped(score(chunks[n - 1], words));
        let rest = ranking(chunks, words, (n - 1) as nat);
        if s > 0 {
            placed(chunks, rest, (s, n - 1))
        } else {
            rest
        }
    }
}

/// What a list of places holds.
pub open spec fn places_held(v: Seq<(u64, usize)>) -> Seq<Ranked> {
    Seq::new(v.len(), |i: int| (v[i].0, v[i].1 as int))
}

/// Whether one chunk that fits goes before another.
fn is_ahead(chunks: &Vec<Chunk>, a: (u64, usize), b: (u64, usize)) -> (r: bool)
    requires
        a.1 < chunks@.len(),
        b.1 < chunks@.len(),
    ensures
        r == goes_before(chunks_held(chunks@), (a.0, a.1 as int), (b.0, b.1 as int)),
{
    if a.0 != b.0 {
        return a.0 > b.0;
    }
    let x = &chunks[a.1];
    let y = &chunks[b.1];
    assert(chunks_held(chunks@)[a.1 as int] == x@);
    assert(chunks_held(chunks@)[b.1 as int] == y@);
    is_before(x.rel_path.as_str(), y.rel_path.as_str()) || (same(
        x.rel_path.as_str(),
        y.rel_path.as_str(),
    ) && x.start_line < y.start_line)
}

/// Where a chunk goes in a list: behind the last one that does not go after it.
proof fn lemma_placed(chunks: Seq<ChunkV>, s: Seq<Ranked>, x: Ranked, p: int)
    requires
        0 <= p <= s.len(),
        forall|k: int| p <= k < s.len() ==> goes_before(chunks, x, #[trigger] s[k]),
        p > 0 ==> !goes_before(chunks, x, s[p - 1]),
    ensures
        placed(chunks, s, x) == s.insert(p, x),
    decreases s.len(),
{
    if p == s.len() {
        assert(s.insert(p, x) =~= s.push(x));
    } else {
        assert(goes_before(chunks, x, s[s.len() - 1]));
        lemma_placed(chunks, s.drop_last(), x, p);
        assert(s.drop_last().insert(p, x).push(s.last()) =~= s.insert(p, x));
    }
}

/// The chunks that fit the words, in order.
fn rank(chunks: &Vec<Chunk>, words: &Vec<String>) -> (r: Vec<(u64, usize)>)
    ensures
        places_held(r@) == ranking(chunks_held(chunks@), texts(words@), chunks@.len()),
        forall|k: int| 0 <= k < r@.len() ==> (#[trigger] r@[k]).1 < chunks@.len(),
{
    let ghost c = chunks_held(chunks@);
    let ghost w = texts(words@);
    let mut out: Vec<(u64, usize)> = Vec::new();
    let mut n: usize = 0;
    assert(places_held(out@) =~= ranking(c, w, 0));
    while n < chunks.len()
        invariant
            n <= chunks@.len(),
            c == chunks_held(chunks@),
            w == texts(words@),
            places_held(out@) == ranking(c, w, n as nat),
            forall|k: int| 0 <= k < out@.len() ==> (#[trigger] out@[k]).1 < chunks@.len(),
        decreases chunks@.len() - n,
    {
        let s = score_of(&chunks[n], words);
        if s > 0 {
            let x: (u64, usize) = (s, n);
            let ghost first = places_held(out@);
            let mut p: usize = out.len();
            while p > 0 && is_ahead(chunks, x, out[p - 1])
                invariant
                    p <= out@.len(),
                    n < chunks@.len(),
                    x.1 == n,
                    c == chunks_held(chunks@),
                    first == places_held(out@),
                    forall|k: int| 0 <= k < out@.len() ==> (#[trigger] out@[k]).1 < chunks@.len(),
                    forall|k: int|
                        p <= k < first.len() ==> goes_before(
                            c,
                            (x.0, x.1 as int),
                            #[trigger] first[k],
                        ),
                decreases p,
            {
                assert(first[p - 1] == (out@[p - 1].0, out@[p - 1].1 as int));
                p = p - 1;
            }
            proof {
                if p > 0 {
                    assert(first[p - 1] == (out@[p - 1].0, out@[p - 1].1 as int));
                }
                lemma_placed(c, first, (x.0, x.1 as int), p as int);
            }
            out.insert(p, x);
            assert(places_held(out@) =~= first.insert(p as int, (x.0, x.1 as int)));
        }
        n = n + 1;
    }
    out
}

/// Whether a list of chunks that fit is in order.
pub open spec fn in_rank(chunks: Seq<ChunkV>, s: Seq<Ranked>) -> bool {
    forall|i: int, j: int| 0 <= i < j < s.len() ==> !goes_before(chunks, s[j], s[i])
}

proof fn lemma_goes_before(chunks: Seq<ChunkV>, a: Ranked, b: Ranked, c: Ranked)
    ensures
        !goes_before(chunks, a, a),
        goes_before(chunks, a, b) ==> !goes_before(chunks, b, a),
        !goes_before(chunks, b, a) && !goes_before(chunks, c, b) ==> !goes_before(chunks, c, a),
{
    let x = chunks[a.1].rel_path;
    let y = chunks[b.1].rel_path;
    let z = chunks[c.1].rel_path;
    crate::text::lemma_before(x, y, z);
    crate::text::lemma_before(x, z, y);
    crate::text::lemma_before(y, x, z);
    crate::text::lemma_before(y, z, x);
    crate::text::lemma_before(z, x, y);
    crate::text::lemma_before(z, y, x);
}

/// Putting a chunk in its place keeps the order and the others.
proof fn lemma_placed_keeps(chunks: Seq<ChunkV>, s: Seq<Ranked>, x: Ranked)
    requires
        in_rank(chunks, s),
    ensures
        in_rank(chunks, placed(chunks, s, x)),
        placed(chunks, s, x).to_multiset() == s.to_multiset().insert(x),
        placed(chunks, s, x).len() == s.len() + 1,
        forall|k: int|
            0 <= k <= s.len() ==> (#[trigger] placed(chunks, s, x)[k]) == x || s.contains(
                placed(chunks, s, x)[k],
            ),
    decreases s.len(),
{
    let r = placed(chunks, s, x);
    broadcast use vstd::seq_lib::group_to_multiset_ensures;

    if s.len() > 0 && goes_before(chunks, x, s.last()) {
        let init = s.drop_last();
        lemma_placed_keeps(chunks, init, x);
        let inner = placed(chunks, init, x);
        assert(init.push(s.last()) =~= s);
        assert(r == inner.push(s.last()));
        assert forall|i: int, j: int| 0 <= i < j < r.len() implies !goes_before(
            chunks,
            r[j],
            r[i],
        ) by {
            if j == r.len() - 1 {
                assert(r[j] == s.last());
                assert(r[i] == inner[i]);
                if inner[i] == x {
                    lemma_goes_before(chunks, x, s.last(), x);
                } else {
                    assert(init.contains(inner[i]));
                    let m = choose|m: int| 0 <= m < init.len() && init[m] == inner[i];
                    assert(s[m] == inner[i]);
                    assert(!goes_before(chunks, s[s.len() - 1], s[m]));
                }
            } else {
                assert(r[i] == inner[i] && r[j] == inner[j]);
            }
        }
        assert forall|k: int| 0 <= k <= s.len() implies (#[trigger] r[k]) == x || s.contains(
            r[k],
        ) by {
            if k < inner.len() {
                assert(r[k] == inner[k]);
                if inner[k] != x {
                    let m = choose|m: int| 0 <= m < init.len() && init[m] == inner[k];
                    assert(s[m] == inner[k]);
                }
            } else {
                assert(s[s.len() - 1] == r[k]);
            }
        }
    } else {
        assert(r == s.push(x));
        assert forall|i: int, j: int| 0 <= i < j < r.len() implies !goes_before(
            chunks,
            r[j],
            r[i],
        ) by {
            if j == s.len() {
                if i < s.len() - 1 {
                    assert(!goes_before(chunks, s[s.len() - 1], s[i]));
                    lemma_goes_before(chunks, s[i], s[s.len() - 1], x);
                }
            } else {
                assert(r[i] == s[i] && r[j] == s[j]);
            }
        }
        assert forall|k: int| 0 <= k <= s.len() implies (#[trigger] r[k]) == x || s.contains(
            r[k],
        ) by {
            if k < s.len() {
                assert(r[k] == s[k]);
            }
        }
    }
}

/// What is found is in order: no chunk of a higher score comes behind one of a lower
/// score, and among equal scores paths and lines ascend. Each chunk that holds one of
/// the words is there with its score, and no other.
pub proof fn ranking_is_in_order_and_complete(chunks: Seq<ChunkV>, words: Seq<Text>, n: nat)
    requires
        n <= chunks.len(),
    ensures
        in_rank(chunks, ranking(chunks, words, n)),
        forall|k: int|
            0 <= k < ranking(chunks, words, n).len() ==> {
                let x = #[trigger] ranking(chunks, words, n)[k];
                0 <= x.1 < n && x.0 == capped(score(chunks[x.1], words)) && x.0 > 0
            },
        forall|i: int|
            0 <= i < n && score(#[trigger] chunks[i], words) > 0 ==> ranking(
                chunks,
                words,
                n,
            ).contains((capped(score(chunks[i], words)), i)),
    decreases n,
{
    if n > 0 {
        ranking_is_in_order_and_complete(chunks, words, (n - 1) as nat);
        let rest = ranking(chunks, words, (n - 1) as nat);
        let all = ranking(chunks, words, n);
        let s = capped(score(chunks[n - 1], words));
        let x: Ranked = (s, n - 1);
        if s > 0 {
            lemma_placed_keeps(chunks, rest, x);
            broadcast use vstd::seq_lib::group_to_multiset_ensures;

            assert forall|k: int| 0 <= k < all.len() implies {
                let y = #[trigger] all[k];
                0 <= y.1 < n && y.0 == capped(score(chunks[y.1], words)) && y.0 > 0
            } by {
                if all[k] != x {
                    assert(rest.contains(all[k]));
                    let m = choose|m: int| 0 <= m < rest.len() && rest[m] == all[k];
                    assert(rest[m] == all[k]);
                }
            }
            assert forall|i: int|
                0 <= i < n && score(#[trigger] chunks[i], words) > 0 implies all.contains(
                (capped(score(chunks[i], words)), i),
            ) by {
                let y: Ranked = (capped(score(chunks[i], words)), i);
                if i == n - 1 {
                    assert(all.to_multiset().count(x) > 0);
                } else {
                    assert(rest.contains(y));
                    assert(rest.to_multiset().count(y) > 0);
                    assert(all.to_multiset().count(y) > 0);
                }
            }
        }
    }
}

/// A chunk that was found, with what is needed to show it.
#[derive(Debug)]
pub struct LocalHit {
    pub title: String,
    pub locator: String,
    pub rel_path: String,
    pub start_line: usize,
    pub end_line: usize,
}

/// What a [`LocalHit`] holds.
pub struct LocalHitV {
    pub title: Text,
    pub locator: Text,
    pub rel_path: Text,
    pub start_line: nat,
    pub end_line: nat,
}

impl View for LocalHit {
    type V = LocalHitV;

    open spec fn view(&self) -> LocalHitV {
        LocalHitV {
            title: self.title@,
            locator: self.locator@,
            rel_path: self.rel_path@,
            start_line: self.start_line as nat,
            end_line: self.end_line as nat,
        }
    }
}

/// What a list of found chunks holds.
pub open spec fn local_held(v: Seq<LocalHit>) -> Seq<LocalHitV> {
    Seq::new(v.len(), |i: int| v[i]@)
}

/// Where a chunk is: its path and its lines.
pub open spec fn place_of(chunk: ChunkV) -> Text {
    chunk.rel_path + ":"@ + decimal(chunk.start_line) + "-"@ + decimal(chunk.end_line)
}

/// What is shown of a chunk.
pub open spec fn local_hit(chunk: ChunkV) -> LocalHitV {
    LocalHitV {
        title: chunk.title,
        locator: place_of(chunk),
        rel_path: chunk.rel_path,
        start_line: chunk.start_line,
        end_line: chunk.end_line,
    }
}

/// What a search in chunks finds: the first `limit` of those that fit.
pub open spec fn local_hits(chunks: Seq<ChunkV>, query: Text, limit: nat) -> Seq<LocalHitV> {
    let all = ranking(chunks, once(tokens_of(query)), chunks.len());
    Seq::new(
        if all.len() < limit {
            all.len()
        } else {
            limit
        },
        |i: int| local_hit(chunks[all[i].1]),
    )
}

impl Index {
    /// What a search finds.
    pub fn search(&self, query: &str, limit: usize) -> (r: Vec<LocalHit>)
        ensures
            local_held(r@) == local_hits(chunks_held(self.chunks@), query@, limit as nat),
            r@.len() <= limit,
    {
        let ghost c = chunks_held(self.chunks@);
        let tokens = tokenize(query);
        let words = keep_once(&tokens);
        let order = rank(&self.chunks, &words);
        let ghost all = places_held(order@);
        let mut out: Vec<LocalHit> = Vec::new();
        let mut i: usize = 0;
        while i < order.len() && i < limit
            invariant
                i <= order@.len(),
                i <= limit,
                c == chunks_held(self.chunks@),
                all == places_held(order@),
                out@.len() == i,
                forall|k: int|
                    0 <= k < order@.len() ==> (#[trigger] order@[k]).1 < self.chunks@.len(),
                forall|k: int| 0 <= k < i ==> (#[trigger] out@[k])@ == local_hit(c[all[k].1]),
            decreases order@.len() - i,
        {
            let chunk = &self.chunks[order[i].1];
            assert(c[all[i as int].1] == chunk@);
            let from = u64_text(chunk.start_line as u64);
            let to = u64_text(chunk.end_line as u64);
            let head = join3(chunk.rel_path.as_str(), ":", from.as_str());
            let hit = LocalHit {
                title: chunk.title.clone(),
                locator: join3(head.as_str(), "-", to.as_str()),
                rel_path: chunk.rel_path.clone(),
                start_line: chunk.start_line,
                end_line: chunk.end_line,
            };
            out.push(hit);
            i = i + 1;
        }
        assert(local_held(out@) =~= local_hits(c, query@, limit as nat));
        out
    }
}

/// The lines that are shown of a file.
pub open spec fn shown_lines(content: Text, start: nat, end: nat) -> Text {
    let all = lines_of(content);
    let from = if start == 0 {
        0
    } else {
        start - 1
    };
    let most: int = if end < start {
        1
    } else if end - start + 1 < SNIPPET_MAX_LINES {
        end - start + 1
    } else {
        SNIPPET_MAX_LINES as int
    };
    if from >= all.len() {
        Seq::empty()
    } else if from + most <= all.len() {
        joined(all.subrange(from, from + most), "\n"@)
    } else {
        joined(all.subrange(from, all.len() as int), "\n"@)
    }
}

/// The lines that are shown of a file: those of the chunk, but at most
/// [`SNIPPET_MAX_LINES`], as far as the file has them now.
pub fn read_snippet(content: &str, start: usize, end: usize) -> (r: String)
    ensures
        r@ == shown_lines(content@, start as nat, end as nat),
{
    let all = lines(content);
    let ghost t = texts(all@);
    let from: usize = if start == 0 {
        0
    } else {
        start - 1
    };
    let most: usize = if end < start {
        1
    } else if end - start < SNIPPET_MAX_LINES {
        end - start + 1
    } else {
        SNIPPET_MAX_LINES
    };
    let mut part: Vec<String> = Vec::new();
    if from >= all.len() {
        return String::new();
    }
    let mut i: usize = from;
    while i < all.len() && i - from < most
        invariant
            from <= i <= all@.len(),
            i - from <= most,
            t == texts(all@),
            part@.len() == i - from,
            forall|k: int| 0 <= k < part@.len() ==> (#[trigger] part@[k])@ == t[from + k],
        decreases all@.len() - i,
    {
        part.push(all[i].clone());
        i = i + 1;
    }
    assert(texts(part@) =~= t.subrange(from as int, i as int));
    join(&part, "\n")
}

/// A directory of documents.
#[derive(Debug, Clone)]
pub struct LocalDocSource {
    pub name: String,
    pub root: String,
    /// The endings of the files to read, in small letters.
    pub extensions: Vec<String>,
}

/// A hit as it is given: with the lines of its chunk, where the file can be read.
pub open spec fn given_hit(found: LocalHitV, content: Option<Text>) -> DocHitV {
    DocHitV {
        title: found.title,
        locator: found.locator,
        snippet: match content {
            Some(text) => shown_lines(text, found.start_line, found.end_line),
            None => Seq::empty(),
        },
    }
}

/// An ending in small letters, with the dot before it.
pub open spec fn dotted(ext: Text) -> Text {
    let lower = ascii_lower(ext);
    if begins(lower, "."@) {
        lower
    } else {
        "."@ + lower
    }
}

/// The endings of the files to read.
pub open spec fn endings(configured: Seq<Text>) -> Seq<Text> {
    if configured.len() == 0 {
        Seq::new(11, |i: int| DEFAULT_EXTS[i]@)
    } else {
        Seq::new(configured.len(), |i: int| dotted(configured[i]))
    }
}

/// The endings of the files to read.
fn read_endings(configured: &Vec<String>) -> (r: Vec<String>)
    ensures
        texts(r@) == endings(texts(configured@)),
{
    let mut out: Vec<String> = Vec::new();
    let mut i: usize = 0;
    if configured.len() == 0 {
        while i < 11
            invariant
                i <= 11,
                out@.len() == i,
                forall|k: int| 0 <= k < i ==> (#[trigger] out@[k])@ == DEFAULT_EXTS[k]@,
            decreases 11 - i,
        {
            out.push(DEFAULT_EXTS[i].to_owned());
            i = i + 1;
        }
    } else {
        let ghost all = texts(configured@);
        while i < configured.len()
            invariant
                i <= configured@.len(),
                out@.len() == i,
                all == texts(configured@),
                forall|k: int| 0 <= k < i ==> (#[trigger] out@[k])@ == dotted(all[k]),
            decreases configured@.len() - i,
        {
            let lower = to_ascii_lower(configured[i].as_str());
            if starts(lower.as_str(), ".") {
                out.push(lower);
            } else {
                out.push(join2(".", lower.as_str()));
            }
            i = i + 1;
        }
    }
    assert(texts(out@) =~= endings(texts(configured@)));
    out
}

impl DocumentSource for LocalDocSource {
    open spec fn label(&self) -> Text {
        self.name@
    }

    fn name(&self) -> (r: &String) {
        &self.name
    }
}

impl LocalDocSource {
    /// A directory; the usual endings where none are given.
    pub fn new(name: &str, root: &str, extensions: &Vec<String>) -> (r: Self)
        ensures
            r.name@ == name@,
            r.root@ == root@,
            texts(r.extensions@) == endings(texts(extensions@)),
    {
        LocalDocSource {
            name: name.to_owned(),
            root: root.to_owned(),
            extensions: read_endings(extensions),
        }
    }

    /// A chunk that was found, with its lines; without any where its file cannot be
    /// read any more.
    pub fn hit(found: &LocalHit, content: &Option<String>) -> (r: DocHit)
        ensures
            r@ == (DocHitV {
                title: found@.title,
                locator: found@.locator,
                snippet: match *content {
                    Some(text) => shown_lines(text@, found@.start_line, found@.end_line),
                    None => Seq::empty(),
                },
            }),
            r@ == given_hit(
                found@,
                match *content {
                    Some(text) => Some(text@),
                    None => None,
                },
            ),
    {
        DocHit {
            title: found.title.clone(),
            locator: found.locator.clone(),
            snippet: match content {
                Some(text) => read_snippet(text.as_str(), found.start_line, found.end_line),
                None => String::new(),
            },
        }
    }
}

/// A query without words finds nothing.
pub proof fn without_words_nothing_is_found(chunks: Seq<ChunkV>, query: Text, limit: nat)
    requires
        tokens_of(query).len() == 0,
    ensures
        local_hits(chunks, query, limit).len() == 0,
{
    lemma_no_words(chunks, chunks.len());
    assert(tokens_of(query) =~= Seq::empty());
}

proof fn lemma_no_words(chunks: Seq<ChunkV>, n: nat)
    ensures
        ranking(chunks, Seq::empty(), n).len() == 0,
    decreases n,
{
    if n > 0 {
        lemma_no_words(chunks, (n - 1) as nat);
        assert(score(chunks[n - 1], Seq::empty()) == 0);
    }
}

// ---- what the cutting and the search keep to ----

/// Whether chunks stand in a row: the first begins at a line, each next begins one line
/// behind the end of the one before, and the last ends at a line.
pub open spec fn in_a_row(chunks: Seq<ChunkV>, first: nat, last: nat) -> bool {
    &&& chunks.len() > 0
    &&& chunks[0].start_line == first
    &&& chunks[chunks.len() - 1].end_line == last
    &&& forall|i: int|
        0 <= i < chunks.len() ==> (#[trigger] chunks[i]).start_line <= chunks[i].end_line
    &&& forall|i: int|
        0 < i < chunks.len() ==> (#[trigger] chunks[i]).start_line == chunks[i - 1].end_line + 1
}

/// Whether a chunk counts the words of the lines that it names, each as often as it
/// occurs there.
pub open spec fn counts_its_lines(all: Seq<Text>, chunk: ChunkV) -> bool {
    let words = tokens_of(
        joined(all.subrange(chunk.start_line - 1, chunk.end_line as int), "\n"@),
    );
    words.len() <= u64::MAX ==> forall|w: Text|
        count_in(chunk.tf, w) == #[trigger] occurrences(words, w)
}

/// A chunk that is made of lines counts the words of these lines.
proof fn lemma_counts(all: Seq<Text>, rel_path: Text, start: nat, end: nat, title: Text)
    ensures
        counts_its_lines(all, chunk_of(all, rel_path, start, end, title)),
{
    let words = tokens_of(joined(all.subrange(start - 1, end as int), "\n"@));
    if words.len() <= u64::MAX {
        assert forall|w: Text|
            count_in(chunk_of(all, rel_path, start, end, title).tf, w) == #[trigger] occurrences(
                words,
                w,
            ) by {
            counts_are_occurrences(words, w);
        }
    }
}

/// The windows from a line on.
proof fn lemma_windows(all: Seq<Text>, start: nat, rel_path: Text, file_name: Text)
    requires
        1 <= start <= all.len(),
    ensures
        ({
            let w = window_chunks(all, start, rel_path, file_name);
            &&& in_a_row(w, start, all.len())
            &&& forall|i: int|
                0 <= i < w.len() ==> (#[trigger] w[i]).rel_path == rel_path && w[i].title
                    == file_name && w[i].end_line - w[i].start_line < 60 && counts_its_lines(
                    all,
                    w[i],
                )
            &&& forall|i: int|
                0 <= i < w.len() - 1 ==> (#[trigger] w[i]).end_line - w[i].start_line == 59
        }),
    decreases all.len() - start,
{
    let end = window_end(all.len(), start);
    let first = chunk_of(all, rel_path, start, end, file_name);
    let next = start + CODE_WINDOW_LINES as nat;
    let rest = window_chunks(all, next, rel_path, file_name);
    let w = window_chunks(all, start, rel_path, file_name);
    lemma_counts(all, rel_path, start, end, file_name);
    assert(w == seq![first] + rest);
    assert(w[0] == first);
    if next > all.len() {
        assert(rest.len() == 0);
        assert(w.len() == 1);
    } else {
        lemma_windows(all, next, rel_path, file_name);
        assert forall|i: int| 0 <= i < w.len() implies w[i] == if i == 0 {
            first
        } else {
            rest[i - 1]
        } by {}
        assert(w[w.len() - 1] == rest[rest.len() - 1]);
        assert forall|i: int| 0 < i < w.len() implies (#[trigger] w[i]).start_line == w[i
            - 1].end_line + 1 by {
            assert(w[i] == rest[i - 1]);
            if i > 1 {
                assert(w[i - 1] == rest[i - 2]);
                assert(rest[i - 1].start_line == rest[i - 2].end_line + 1);
            }
        }
        assert forall|i: int| 0 <= i < w.len() implies (#[trigger] w[i]).start_line
            <= w[i].end_line by {
            if i > 0 {
                assert(rest[i - 1].start_line <= rest[i - 1].end_line);
            }
        }
        assert forall|i: int| 0 <= i < w.len() implies (#[trigger] w[i]).rel_path == rel_path
            && w[i].title == file_name && w[i].end_line - w[i].start_line < 60 && counts_its_lines(
            all,
            w[i],
        ) by {
            if i > 0 {
                assert(rest[i - 1].rel_path == rel_path);
            }
        }
        assert forall|i: int| 0 <= i < w.len() - 1 implies (#[trigger] w[i]).end_line
            - w[i].start_line == 59 by {
            if i > 0 {
                assert(rest[i - 1].end_line - rest[i - 1].start_line == 59);
            }
        }
    }
}

/// The windows of a file cover its lines without gap or overlap: the first begins at
/// line one, each next begins one line behind the end of the one before, the last ends
/// at the last line. All but the last have sixty lines, and each counts the words of the
/// lines that it names.
pub proof fn windows_cover_the_lines(all: Seq<Text>, rel_path: Text, file_name: Text)
    requires
        all.len() > 0,
    ensures
        ({
            let w = window_chunks(all, 1, rel_path, file_name);
            &&& in_a_row(w, 1, all.len())
            &&& forall|i: int|
                0 <= i < w.len() ==> (#[trigger] w[i]).rel_path == rel_path && w[i].title
                    == file_name && w[i].end_line - w[i].start_line < 60 && counts_its_lines(
                    all,
                    w[i],
                )
            &&& forall|i: int|
                0 <= i < w.len() - 1 ==> (#[trigger] w[i]).end_line - w[i].start_line == 59
        }),
{
    lemma_windows(all, 1, rel_path, file_name);
}

/// Whether a line lies in one of the chunks.
pub open spec fn holds_line(chunks: Seq<ChunkV>, line: int) -> bool {
    exists|i: int|
        0 <= i < chunks.len() && (#[trigger] chunks[i]).start_line <= line <= chunks[i].end_line
}

/// Of chunks in a row each line between the first and the last lies in one of them.
pub proof fn a_row_holds_every_line(chunks: Seq<ChunkV>, first: nat, last: nat, line: nat)
    requires
        in_a_row(chunks, first, last),
        first <= line <= last,
    ensures
        holds_line(chunks, line as int),
    decreases chunks.len(),
{
    let n = chunks.len();
    let tail = chunks[n - 1];
    if tail.start_line <= line {
        assert(chunks[n - 1].start_line <= line <= chunks[n - 1].end_line);
    } else {
        let init = chunks.drop_last();
        assert(n > 1);
        assert(chunks[n - 1].start_line == chunks[n - 2].end_line + 1);
        assert(init[init.len() - 1] == chunks[n - 2]);
        assert forall|i: int| 0 < i < init.len() implies (#[trigger] init[i]).start_line == init[i
            - 1].end_line + 1 by {
            assert(chunks[i].start_line == chunks[i - 1].end_line + 1);
        }
        assert forall|i: int| 0 <= i < init.len() implies (#[trigger] init[i]).start_line
            <= init[i].end_line by {
            assert(chunks[i].start_line <= chunks[i].end_line);
        }
        a_row_holds_every_line(init, first, chunks[n - 2].end_line, line);
        let i = choose|i: int|
            0 <= i < init.len() && (#[trigger] init[i]).start_line <= line <= init[i].end_line;
        assert(chunks[i] == init[i]);
    }
}

/// Every line of a file that is indexed is in a chunk of it, and the chunk counts its
/// words: the chunks of a file stand in a row from its first line to its last, whatever
/// the file is, and carry the path of the file.
pub proof fn every_line_is_in_a_chunk(rel_path: Text, file_name: Text, content: Text)
    requires
        lines_of(content).len() > 0,
    ensures
        ({
            let all = lines_of(content);
            let chunks = file_chunks(rel_path, file_name, content);
            &&& in_a_row(chunks, 1, all.len())
            &&& forall|i: int|
                0 <= i < chunks.len() ==> (#[trigger] chunks[i]).rel_path == rel_path
                    && counts_its_lines(all, chunks[i])
            &&& forall|line: int| 1 <= line <= all.len() ==> #[trigger] holds_line(chunks, line)
        }),
{
    let all = lines_of(content);
    let chunks = file_chunks(rel_path, file_name, content);
    if is_document(file_name) {
        lemma_section_row(all, rel_path, file_name);
    } else {
        windows_cover_the_lines(all, rel_path, file_name);
    }
    assert forall|line: int| 1 <= line <= all.len() implies #[trigger] holds_line(
        chunks,
        line,
    ) by {
        a_row_holds_every_line(chunks, 1, all.len(), line as nat);
    }
}

/// The chunks of the sections of a document stand in a row.
proof fn lemma_section_row(all: Seq<Text>, rel_path: Text, file_name: Text)
    requires
        all.len() > 0,
    ensures
        ({
            let chunks = section_chunks(all, sections_of(all), rel_path, file_name);
            &&& in_a_row(chunks, 1, all.len())
            &&& forall|i: int|
                0 <= i < chunks.len() ==> (#[trigger] chunks[i]).rel_path == rel_path
                    && counts_its_lines(all, chunks[i])
        }),
{
    let s = sections_of(all);
    let chunks = section_chunks(all, s, rel_path, file_name);
    sections_cover_the_lines(all);
    assert forall|i: int| 0 <= i < chunks.len() implies (#[trigger] chunks[i]).rel_path == rel_path
        && counts_its_lines(all, chunks[i]) by {
        lemma_counts(all, rel_path, s[i].0, s[i].1, section_title(all, s[i].2, file_name));
    }
    assert forall|i: int| 0 <= i < chunks.len() implies (#[trigger] chunks[i]).start_line
        <= chunks[i].end_line by {
        assert(s[i].0 <= s[i].1);
    }
    assert forall|i: int| 0 < i < chunks.len() implies (#[trigger] chunks[i]).start_line
        == chunks[i - 1].end_line + 1 by {
        assert(s[i].0 == s[i - 1].1 + 1);
    }
}

/// What stands before the first heading of a document is titled by the name of the
/// file; every other section begins with a heading.
pub proof fn only_the_first_section_has_no_heading(
    all: Seq<Text>,
    rel_path: Text,
    file_name: Text,
    i: int,
)
    requires
        0 <= i < section_chunks(all, sections_of(all), rel_path, file_name).len(),
        all.len() > 0,
        !heading(
            all[section_chunks(all, sections_of(all), rel_path, file_name)[i].start_line - 1],
        ),
    ensures
        i == 0,
        section_chunks(all, sections_of(all), rel_path, file_name)[i].title == file_name,
{
    sections_cover_the_lines(all);
    let s = sections_of(all);
    assert(s[i].0 == section_chunks(all, s, rel_path, file_name)[i].start_line);
}

/// A section of a document that begins with a heading is titled by it, without the marks
/// and the blanks before it.
pub proof fn a_section_is_titled_by_its_heading(
    all: Seq<Text>,
    rel_path: Text,
    file_name: Text,
    i: int,
    marks: Text,
    blanks: Text,
    title: Text,
)
    requires
        all.len() > 0,
        0 <= i < section_chunks(all, sections_of(all), rel_path, file_name).len(),
        all[section_chunks(all, sections_of(all), rel_path, file_name)[i].start_line - 1] == marks
            + blanks + title,
        1 <= marks.len() <= 6,
        forall|k: int| 0 <= k < marks.len() ==> marks[k] == '#',
        blanks.len() > 0,
        all_white(blanks),
        title.len() > 0,
        !is_white(title[0]),
        !is_white(title.last()),
    ensures
        section_chunks(all, sections_of(all), rel_path, file_name)[i].title == title,
{
    let s = sections_of(all);
    sections_cover_the_lines(all);
    assert(s[i].0 == section_chunks(all, s, rel_path, file_name)[i].start_line);
    lemma_heading_title(marks, blanks, title);
    assert(heading(all[s[i].0 - 1]));
    lemma_head_of_section(all, i);
}

/// A section that begins with a heading has it as its head.
proof fn lemma_head_of_section(all: Seq<Text>, i: int)
    requires
        all.len() > 0,
        0 <= i < sections_of(all).len(),
        heading(all[sections_of(all)[i].0 - 1]),
    ensures
        sections_of(all)[i].2 == Some(sections_of(all)[i].0),
{
    sections_cover_the_lines(all);
    if i == 0 {
        lemma_first_head(all);
    } else {
        assert(sections_of(all)[i].2 is Some);
    }
}

/// Where the first line is a heading, the section that is open from it has it as its
/// head, and so has the first one that ended.
proof fn lemma_first_head(all: Seq<Text>)
    requires
        all.len() > 0,
        heading(all[0]),
    ensures
        sections_open(all).0.len() == 0 ==> sections_open(all).2 == Some(sections_open(all).1),
        sections_open(all).0.len() > 0 ==> sections_open(all).0[0].2 == Some(1nat),
        sections_of(all)[0].2 == Some(1nat),
        sections_open(all).1 >= 1,
        sections_open(all).0.len() == 0 ==> sections_open(all).1 == 1,
    decreases all.len(),
{
    let init = all.drop_last();
    if all.len() == 1 {
        assert(all.last() == all[0]);
        assert(init =~= Seq::<Text>::empty());
        assert(sections_open(init) == (Seq::<Section>::empty(), 1nat, None::<nat>));
    } else {
        assert(init[0] == all[0]);
        lemma_first_head(init);
    }
}

/// A heading reads as its marks and its title.
proof fn lemma_heading_title(marks: Text, blanks: Text, title: Text)
    requires
        1 <= marks.len() <= 6,
        forall|k: int| 0 <= k < marks.len() ==> marks[k] == '#',
        blanks.len() > 0,
        all_white(blanks),
        title.len() > 0,
        !is_white(title[0]),
        !is_white(title.last()),
    ensures
        heading(marks + blanks + title),
        trimmed(drop_front(marks + blanks + title, among("#"@))) == title,
{
    let line = marks + blanks + title;
    let m = marks.len() as int;
    assert(is_white(blanks[0]));
    assert(line[m] == blanks[0]);
    assert forall|k: int| 0 <= k < m implies #[trigger] line[k] == '#' by {
        assert(line[k] == marks[k]);
    }
    lemma_hashes(line, 0, marks.len());
    reveal_strlit("#");
    let p = among("#"@);
    assert forall|k: int| 0 <= k < m implies p(#[trigger] line[k]) by {
        assert("#"@[0] == '#');
    }
    assert(line[m] != '#');
    lemma_drop_front(line, p, m);
    let rest = blanks + title;
    assert(line.subrange(m, line.len() as int) =~= rest);
    let w = whites();
    let b = blanks.len() as int;
    assert forall|k: int| 0 <= k < b implies w(#[trigger] rest[k]) by {
        assert(rest[k] == blanks[k]);
    }
    assert(rest[b] == title[0]);
    lemma_drop_front(rest, w, b);
    assert(rest.subrange(b, rest.len() as int) =~= title);
    lemma_drop_back(title, w, title.len() as int);
    assert(title.subrange(0, title.len() as int) =~= title);
}

/// The marks of a heading are counted up to what is no mark.
proof fn lemma_hashes(line: Text, n: nat, m: nat)
    requires
        n <= m <= 6,
        m < line.len(),
        forall|k: int| n <= k < m ==> line[k] == '#',
        line[m as int] != '#',
    ensures
        hashes(line, n) == m,
    decreases m - n,
{
    if n < m {
        assert(line[n as int] == '#');
        lemma_hashes(line, n + 1, m);
    }
}

/// A character that is neither of a word nor an ideograph parts words, as a blank does.
pub proof fn other_characters_part_words(a: Text, c: char, b: Text)
    requires
        !word_char(c),
        !ideograph(c),
    ensures
        small_tokens(a + seq![c] + b) == small_tokens(a) + small_tokens(b),
{
    lemma_reading_parted(a, c, b);
    assert(small_tokens(a + seq![c] + b) =~= small_tokens(a) + small_tokens(b));
}

/// How a text reads behind another one and a character that parts words.
proof fn lemma_reading_parted(a: Text, c: char, b: Text)
    requires
        !word_char(c),
        !ideograph(c),
    ensures
        reading(a + seq![c] + b).tokens == small_tokens(a) + reading(b).tokens,
        reading(a + seq![c] + b).word == reading(b).word,
        reading(a + seq![c] + b).run == reading(b).run,
    decreases b.len(),
{
    let all = a + seq![c] + b;
    if b.len() == 0 {
        assert(all.drop_last() =~= a);
        assert(reading(all).tokens =~= small_tokens(a) + reading(b).tokens);
    } else {
        lemma_reading_parted(a, c, b.drop_last());
        assert(all.drop_last() =~= a + seq![c] + b.drop_last());
        assert(all.last() == b.last());
        assert(reading(all).tokens =~= small_tokens(a) + reading(b).tokens);
    }
}

/// How letters and digits in a row read.
proof fn lemma_reading_word(w: Text)
    requires
        forall|i: int| 0 <= i < w.len() ==> word_char(#[trigger] w[i]),
    ensures
        reading(w) == (Reading { tokens: Seq::empty(), word: w, run: Seq::empty() }),
    decreases w.len(),
{
    let none = Seq::<Text>::empty();
    let r = reading(w);
    if w.len() == 0 {
        assert(r.word =~= w);
    } else {
        lemma_reading_word(w.drop_last());
        assert(word_char(w[w.len() - 1]));
        assert(r.tokens =~= none);
        assert(r.word =~= w);
    }
}

/// How ideographs in a row read behind a word.
proof fn lemma_reading_run(w: Text, run: Text)
    requires
        forall|i: int| 0 <= i < w.len() ==> word_char(#[trigger] w[i]),
        forall|i: int| 0 <= i < run.len() ==> ideograph(#[trigger] run[i]),
        run.len() > 0,
    ensures
        reading(w + run) == (Reading { tokens: word_token(w), word: Seq::empty(), run }),
    decreases run.len(),
{
    let s = w + run;
    let r = reading(s);
    let rest = run.drop_last();
    assert(s.drop_last() =~= w + rest);
    assert(s.last() == run[run.len() - 1]);
    assert(ideograph(s.last()));
    if rest.len() == 0 {
        assert(w + rest =~= w);
        lemma_reading_word(w);
        assert(r.tokens =~= word_token(w));
        assert(r.run =~= run);
    } else {
        lemma_reading_run(w, rest);
        assert(r.tokens =~= word_token(w));
        assert(r.run =~= run);
    }
}

/// Letters and digits in a row are one word; ideographs in a row are the words of two
/// that stand side by side, or the one where there is only one; and where ideographs
/// follow letters and digits, the words are those of the two.
pub proof fn runs_read_as_words_and_pairs(w: Text, run: Text)
    requires
        w.len() > 0,
        run.len() > 0,
        forall|i: int| 0 <= i < w.len() ==> word_char(#[trigger] w[i]),
        forall|i: int| 0 <= i < run.len() ==> ideograph(#[trigger] run[i]),
    ensures
        small_tokens(w) == seq![w],
        run.len() == 1 ==> small_tokens(run) == seq![run],
        run.len() > 1 ==> small_tokens(run).len() == run.len() - 1 && forall|i: int|
            0 <= i < run.len() - 1 ==> #[trigger] small_tokens(run)[i] == seq![run[i], run[i + 1]],
        small_tokens(w + run) == small_tokens(w) + small_tokens(run),
{
    let none = Seq::<char>::empty();
    lemma_reading_word(w);
    assert(small_tokens(w) =~= seq![w]);
    lemma_reading_run(none, run);
    assert(none + run =~= run);
    assert(small_tokens(run) =~= pair_tokens(run));
    lemma_reading_run(w, run);
    assert(small_tokens(w + run) =~= small_tokens(w) + small_tokens(run));
    if run.len() > 1 {
        assert forall|i: int| 0 <= i < run.len() - 1 implies #[trigger] small_tokens(run)[i]
            == seq![run[i], run[i + 1]] by {
            assert(run.subrange(i, i + 2) =~= seq![run[i], run[i + 1]]);
        }
    }
}

/// A hit names its file and its lines: hits of one file that name the same place are
/// of the same lines.
pub proof fn a_hit_names_its_lines(a: ChunkV, b: ChunkV)
    ensures
        begins(local_hit(a).locator, a.rel_path + ":"@),
        local_hit(a).title == a.title,
        local_hit(a).rel_path == a.rel_path,
        local_hit(a).start_line == a.start_line,
        local_hit(a).end_line == a.end_line,
        a.rel_path == b.rel_path && local_hit(a).locator == local_hit(b).locator ==> a.start_line
            == b.start_line && a.end_line == b.end_line,
{
    reveal_strlit("-");
    let head = a.rel_path + ":"@;
    let x = decimal(a.start_line) + seq!['-'] + decimal(a.end_line);
    let y = decimal(b.start_line) + seq!['-'] + decimal(b.end_line);
    assert("-"@ =~= seq!['-']);
    assert(place_of(a) =~= head + x);
    assert((head + x).subrange(0, head.len() as int) =~= head);
    if a.rel_path == b.rel_path && place_of(a) == place_of(b) {
        assert(place_of(b) =~= head + y);
        alike_behind_a_head(head, x, y);
        digits_hold_digits(a.start_line, '-');
        digits_hold_digits(b.start_line, '-');
        what_is_parted_alike_is_alike(
            decimal(a.start_line),
            decimal(a.end_line),
            decimal(b.start_line),
            decimal(b.end_line),
            '-',
        );
        different_numbers_differ(a.start_line, b.start_line);
        different_numbers_differ(a.end_line, b.end_line);
    }
}

/// The words of a query are each counted once: none is left out, none comes twice and
/// none is added.
pub proof fn each_word_counts_once(words: Seq<Text>)
    ensures
        once(words).no_duplicates(),
        forall|w: Text| #[trigger] once(words).contains(w) <==> words.contains(w),
    decreases words.len(),
{
    if words.len() > 0 {
        let init = words.drop_last();
        let before = once(init);
        each_word_counts_once(init);
        assert forall|w: Text| #[trigger] once(words).contains(w) <==> words.contains(w) by {
            if words.contains(w) {
                let k = choose|k: int| 0 <= k < words.len() && words[k] == w;
                if k < init.len() {
                    assert(init[k] == w);
                    assert(before.contains(w));
                    let i = choose|i: int| 0 <= i < before.len() && before[i] == w;
                    assert(once(words)[i] == w);
                } else if !before.contains(w) {
                    assert(once(words)[before.len() as int] == w);
                }
            }
            if once(words).contains(w) {
                let k = choose|k: int| 0 <= k < once(words).len() && once(words)[k] == w;
                if k < before.len() {
                    assert(before[k] == w);
                    assert(before.contains(w));
                    let i = choose|i: int| 0 <= i < init.len() && init[i] == w;
                    assert(words[i] == w);
                } else {
                    assert(words[words.len() - 1] == w);
                }
            }
        }
        if !before.contains(words.last()) {
            assert forall|i: int, j: int|
                0 <= i < j < once(words).len() implies once(words)[i] != once(words)[j] by {
                assert(once(words)[i] == before[i]);
                assert(before.contains(before[i]));
                if j < before.len() {
                    assert(once(words)[j] == before[j]);
                }
            }
        }
    }
}

/// What a chunk scores for two lists of words is what it scores for the one and for the
/// other; for one word it is how often the word is counted, thrice that where the word
/// is in the title. So a chunk scores where one of the words is counted, and only there.
pub proof fn a_score_adds_up(chunk: ChunkV, a: Seq<Text>, b: Seq<Text>, w: Text)
    ensures
        score(chunk, a + b) == score(chunk, a) + score(chunk, b),
        !(has(lowercase_of(chunk.title), w)) ==> score(chunk, seq![w]) == count_in(chunk.tf, w),
        has(lowercase_of(chunk.title), w) ==> score(chunk, seq![w]) == 3 * count_in(chunk.tf, w),
        score(chunk, a) > 0 <==> exists|i: int|
            0 <= i < a.len() && count_in(chunk.tf, #[trigger] a[i]) > 0,
    decreases b.len(), a.len(),
{
    let none = Seq::<Text>::empty();
    assert(seq![w].drop_last() =~= none);
    assert(seq![w].last() == w);
    assert(score(chunk, none) == 0);
    if b.len() == 0 {
        assert(a + b =~= a);
    } else {
        a_score_adds_up(chunk, a, b.drop_last(), w);
        assert((a + b).drop_last() =~= a + b.drop_last());
        assert((a + b).last() == b.last());
    }
    if a.len() > 0 {
        lemma_scoring(chunk, a);
    }
}

/// A chunk scores where one of the words is counted.
proof fn lemma_scoring(chunk: ChunkV, a: Seq<Text>)
    ensures
        score(chunk, a) > 0 <==> exists|i: int|
            0 <= i < a.len() && count_in(chunk.tf, #[trigger] a[i]) > 0,
    decreases a.len(),
{
    if a.len() > 0 {
        let init = a.drop_last();
        lemma_scoring(chunk, init);
        if score(chunk, init) > 0 {
            let i = choose|i: int| 0 <= i < init.len() && count_in(chunk.tf, #[trigger] init[i]) > 0;
            assert(a[i] == init[i]);
        }
        if score(chunk, a) == 0 {
            assert(score(chunk, init) == 0);
            assert forall|i: int| 0 <= i < a.len() implies count_in(chunk.tf, #[trigger] a[i])
                == 0 by {
                if i < init.len() {
                    assert(init[i] == a[i]);
                }
            }
        } else if score(chunk, init) == 0 {
            assert(count_in(chunk.tf, a[a.len() - 1]) > 0);
        }
    }
}

/// Whether a hit is one of a chunk that fits, and none that fits better is left out
/// before it.
pub open spec fn is_best_left(
    chunks: Seq<ChunkV>,
    words: Seq<Text>,
    earlier: Seq<LocalHitV>,
    hit: LocalHitV,
    k: int,
) -> bool {
    &&& 0 <= k < chunks.len()
    &&& hit == local_hit(chunks[k])
    &&& score(chunks[k], words) > 0
    &&& forall|m: int|
        0 <= m < chunks.len() ==> earlier.contains(local_hit(#[trigger] chunks[m])) || capped(
            score(chunks[m], words),
        ) <= capped(score(chunks[k], words))
}

/// Whether the hit at a place is of the best chunk that is left there.
pub open spec fn best_at(
    chunks: Seq<ChunkV>,
    words: Seq<Text>,
    hits: Seq<LocalHitV>,
    i: int,
) -> bool {
    exists|k: int| is_best_left(chunks, words, hits.take(i), hits[i], k)
}

/// A search gives as many hits as asked or, where fewer chunks fit, all that fit; each
/// hit is of a chunk with a word of the query, and no chunk that comes later or is left
/// out scores more.
pub proof fn a_search_finds_the_best(chunks: Seq<ChunkV>, query: Text, limit: nat)
    ensures
        ({
            let words = once(tokens_of(query));
            let hits = local_hits(chunks, query, limit);
            &&& hits.len() <= limit
            &&& forall|i: int| 0 <= i < hits.len() ==> #[trigger] best_at(chunks, words, hits, i)
            &&& hits.len() < limit ==> forall|m: int|
                0 <= m < chunks.len() && score(#[trigger] chunks[m], words) > 0 ==> hits.contains(
                    local_hit(chunks[m]),
                )
        }),
{
    let words = once(tokens_of(query));
    let hits = local_hits(chunks, query, limit);
    let all = ranking(chunks, words, chunks.len());
    ranking_is_in_order_and_complete(chunks, words, chunks.len());
    assert forall|i: int| 0 <= i < hits.len() implies #[trigger] best_at(
        chunks,
        words,
        hits,
        i,
    ) by {
        let k = all[i].1;
        assert(all[i].0 > 0);
        assert forall|m: int| 0 <= m < chunks.len() implies hits.take(i).contains(
            local_hit(#[trigger] chunks[m]),
        ) || capped(score(chunks[m], words)) <= capped(score(chunks[k], words)) by {
            if score(chunks[m], words) > 0 {
                let q = choose|q: int|
                    0 <= q < all.len() && all[q] == (capped(score(chunks[m], words)), m);
                if q < i {
                    assert(hits.take(i)[q] == local_hit(chunks[m]));
                } else if q > i {
                    assert(!goes_before(chunks, all[q], all[i]));
                }
            }
        }
        assert(is_best_left(chunks, words, hits.take(i), hits[i], k));
    }
    if hits.len() < limit {
        assert forall|m: int|
            0 <= m < chunks.len() && score(#[trigger] chunks[m], words) > 0 implies hits.contains(
            local_hit(chunks[m]),
        ) by {
            let q = choose|q: int|
                0 <= q < all.len() && all[q] == (capped(score(chunks[m], words)), m);
            assert(hits[q] == local_hit(chunks[m]));
        }
    }
}

/// What is shown of a chunk are its first lines as they stand in the file, at most
/// twelve of them.
pub proof fn a_snippet_shows_the_first_lines(content: Text, start: nat, end: nat)
    requires
        1 <= start <= end <= lines_of(content).len(),
    ensures
        pieces(shown_lines(content, start, end), '\n') == lines_of(content).subrange(
            start - 1,
            if end - start < 12 {
                end as int
            } else {
                (start + 11) as int
            },
        ),
{
    reveal_strlit("\n");
    assert("\n"@ =~= seq!['\n']);
    let all = lines_of(content);
    let to = if end - start < 12 {
        end as int
    } else {
        (start + 11) as int
    };
    let some = all.subrange(start - 1, to);
    lines_make_the_text(content);
    assert forall|i: int| 0 <= i < some.len() implies !(#[trigger] some[i]).contains('\n') by {
        assert(some[i] == all[start - 1 + i]);
    }
    joined_texts_come_apart(some, '\n');
}

/// Configured endings are read in small letters with a dot in front, one for each; the
/// dot may be left away in the settings.
pub proof fn endings_begin_with_a_dot(configured: Seq<Text>)
    requires
        configured.len() > 0,
    ensures
        endings(configured).len() == configured.len(),
        forall|i: int|
            0 <= i < configured.len() ==> {
                let e = #[trigger] endings(configured)[i];
                &&& begins(e, "."@)
                &&& no_capitals(e)
                &&& ends(e, ascii_lower(configured[i]))
                &&& e.len() <= configured[i].len() + 1
                &&& begins(configured[i], "."@) ==> e.len() == configured[i].len()
            },
{
    reveal_strlit(".");
    assert forall|i: int| 0 <= i < configured.len() implies {
        let e = #[trigger] endings(configured)[i];
        &&& begins(e, "."@)
        &&& no_capitals(e)
        &&& ends(e, ascii_lower(configured[i]))
        &&& e.len() <= configured[i].len() + 1
        &&& begins(configured[i], "."@) ==> e.len() == configured[i].len()
    } by {
        let c = configured[i];
        let l = ascii_lower(c);
        let e = endings(configured)[i];
        small_letters_are_small(c);
        assert(("."@ + l).subrange(0, 1) =~= "."@);
        assert(("."@ + l).subrange(1, 1 + l.len() as int) =~= l);
        assert(l.subrange(0, l.len() as int) =~= l);
        if begins(c, "."@) {
            assert(c[0] == c.subrange(0, 1)[0]);
            assert(l[0] == '.');
            assert(l.subrange(0, 1) =~= "."@);
        }
    }
}

/// A file is read where its name ends with one of the endings in whatever case, and only
/// there.
pub proof fn a_listed_ending_is_taken(stem: Text, ending: Text, extensions: Seq<Text>)
    ensures
        extensions.contains(ascii_lower(ending)) ==> listed(stem + ending, extensions),
        extensions.len() == 0 ==> !listed(stem + ending, extensions),
        listed(stem + ending, extensions) == listed(ascii_lower(stem + ending), extensions),
{
    let s = stem + ending;
    let l = ascii_lower(s);
    assert(l.subrange(stem.len() as int, l.len() as int) =~= ascii_lower(ending));
    if extensions.contains(ascii_lower(ending)) {
        let i = choose|i: int| 0 <= i < extensions.len() && extensions[i] == ascii_lower(ending);
        assert(ends(l, extensions[i]));
    }
    small_letters_are_small(s);
}

/// Documents are the files whose names end with `.md` or `.txt`, in whatever case.
pub proof fn documents_are_told_by_their_ending(stem: Text, name: Text)
    ensures
        is_document(stem + ".md"@),
        is_document(stem + ".txt"@),
        is_document(name) == is_document(ascii_lower(name)),
        is_document(name) ==> ends(ascii_lower(name), ".md"@) || ends(ascii_lower(name), ".txt"@),
{
    reveal_strlit(".md");
    reveal_strlit(".txt");
    let a = ascii_lower(stem + ".md"@);
    let b = ascii_lower(stem + ".txt"@);
    assert(a.subrange(stem.len() as int, a.len() as int) =~= ".md"@);
    assert(b.subrange(stem.len() as int, b.len() as int) =~= ".txt"@);
    small_letters_are_small(name);
}

/// A directory is passed over where its name begins with a dot or is one of the two that
/// hold what is built or installed; an entry stands under its directory by its name.
pub proof fn hidden_directories_are_passed_over(name: Text, prefix: Text)
    ensures
        passed_over("."@ + name),
        passed_over("target"@),
        passed_over("node_modules"@),
        !begins(name, "."@) && name != "target"@ && name != "node_modules"@ ==> !passed_over(name),
        ends(path_under(prefix, name), name),
        begins(path_under(prefix, name), prefix),
        prefix.len() > 0 ==> path_under(prefix, name) == prefix + seq!['/'] + name,
        prefix.len() == 0 ==> path_under(prefix, name) == name,
{
    reveal_strlit(".");
    reveal_strlit(".git");
    reveal_strlit("/");
    assert("/"@ =~= seq!['/']);
    assert(("."@ + name).subrange(0, 1) =~= "."@);
    assert(".git"@.subrange(0, 1) =~= "."@);
    let p = path_under(prefix, name);
    assert(p.subrange(p.len() - name.len(), p.len() as int) =~= name);
    assert(p.subrange(0, prefix.len() as int) =~= prefix);
}

/// Chunks that score alike stand in the order of their paths, and those of one file in
/// the order of their lines; those that score more stand before those that score less.
pub proof fn hits_stand_in_order(chunks: Seq<ChunkV>, words: Seq<Text>, i: int, k: int)
    requires
        0 <= i < k < ranking(chunks, words, chunks.len()).len(),
    ensures
        ({
            let all = ranking(chunks, words, chunks.len());
            let a = chunks[all[i].1];
            let b = chunks[all[k].1];
            let x = capped(score(a, words));
            let y = capped(score(b, words));
            &&& x >= y
            &&& x == y ==> !before(b.rel_path, a.rel_path)
            &&& x == y && a.rel_path == b.rel_path ==> a.start_line <= b.start_line
        }),
{
    ranking_is_in_order_and_complete(chunks, words, chunks.len());
    let all = ranking(chunks, words, chunks.len());
    assert(!goes_before(chunks, all[k], all[i]));
}

/// A line is no heading where it does not begin with a mark, where no white space follows
/// its marks, or where it has more than six of them.
pub proof fn other_lines_are_no_headings(line: Text, marks: Text, c: char, rest: Text)
    requires
        1 <= marks.len(),
        forall|k: int| 0 <= k < marks.len() ==> marks[k] == '#',
        c != '#',
    ensures
        line.len() == 0 || line[0] != '#' ==> !heading(line),
        marks.len() <= 6 && !is_white(c) ==> !heading(marks + seq![c] + rest),
        marks.len() > 6 ==> !heading(marks + seq![c] + rest),
        !heading(marks),
{
    let s = marks + seq![c] + rest;
    let m = marks.len();
    assert forall|k: int| 0 <= k < m implies #[trigger] s[k] == '#' by {
        assert(s[k] == marks[k]);
    }
    assert(s[m as int] == c);
    if m <= 6 {
        lemma_hashes(s, 0, m);
    } else {
        lemma_six_hashes(s, 0);
    }
    lemma_only_hashes(marks, 0);
}

/// No more than six marks are counted.
proof fn lemma_six_hashes(line: Text, n: nat)
    requires
        n <= 6,
        line.len() > 6,
        forall|k: int| 0 <= k < 7 ==> line[k] == '#',
    ensures
        hashes(line, n) == 6,
    decreases 6 - n,
{
    if n < 6 {
        assert(line[n as int] == '#');
        lemma_six_hashes(line, n + 1);
    }
}

/// Behind marks alone nothing follows, or another mark.
proof fn lemma_only_hashes(line: Text, n: nat)
    requires
        n <= 6,
        n <= line.len(),
        forall|k: int| 0 <= k < line.len() ==> line[k] == '#',
    ensures
        hashes(line, n) == line.len() || hashes(line, n) < line.len() && line[hashes(
            line,
            n,
        ) as int] == '#',
    decreases 6 - n,
{
    if n < 6 && n < line.len() {
        assert(line[n as int] == '#');
        lemma_only_hashes(line, n + 1);
    } else if n < line.len() {
        assert(line[n as int] == '#');
    }
}

/// A directory is gone into under its path unless it is passed over; a file is read under
/// its path where its ending is listed and it is not hidden; anything else is left alone.
pub proof fn entries_are_visited_under_their_paths(
    prefix: Text,
    stem: Text,
    ending: Text,
    extensions: Seq<Text>,
)
    requires
        prefix.len() > 0,
        stem.len() > 0,
        stem[0] != '.',
        extensions.contains(ascii_lower(ending)),
    ensures
        visiting(prefix, stem + ending, false, true, extensions) == VisitV::Read(
            prefix + seq!['/'] + (stem + ending),
        ),
        visiting(prefix, stem + ending, false, false, extensions) is Skip,
        visiting(prefix, "."@ + stem, true, false, extensions) is Skip,
        visiting(prefix, "."@ + stem + ending, false, true, extensions) is Skip,
        stem != "target"@ && stem != "node_modules"@ ==> visiting(
            prefix,
            stem,
            true,
            false,
            extensions,
        ) == VisitV::Enter(prefix + seq!['/'] + stem),
{
    reveal_strlit(".");
    let name = stem + ending;
    a_listed_ending_is_taken(stem, ending, extensions);
    hidden_directories_are_passed_over(name, prefix);
    hidden_directories_are_passed_over(stem, prefix);
    assert(!begins(name, "."@)) by {
        if begins(name, "."@) {
            assert(name.subrange(0, 1)[0] == name[0]);
        }
    }
    assert(!begins(stem, "."@)) by {
        if begins(stem, "."@) {
            assert(stem.subrange(0, 1)[0] == stem[0]);
        }
    }
    let hidden = "."@ + stem + ending;
    assert(hidden.subrange(0, 1) =~= "."@);
}

/// A hit is given under its own title and place, with the first lines of its chunk as
/// they stand in the file.
pub proof fn a_hit_is_given_with_its_lines(found: LocalHitV, content: Text)
    requires
        1 <= found.start_line <= found.end_line <= lines_of(content).len(),
    ensures
        given_hit(found, Some(content)).title == found.title,
        given_hit(found, Some(content)).locator == found.locator,
        pieces(given_hit(found, Some(content)).snippet, '\n').len() > 0,
        pieces(given_hit(found, Some(content)).snippet, '\n')[0] == lines_of(
            content,
        )[found.start_line - 1],
        given_hit(found, None).snippet.len() == 0,
{
    a_snippet_shows_the_first_lines(content, found.start_line, found.end_line);
}

/// The case of letters does not count: texts that are the same in small letters have the
/// same words, and chunks whose titles are the same in small letters score the same.
pub proof fn case_does_not_count(
    a: Text,
    b: Text,
    chunk: ChunkV,
    words: Seq<Text>,
    chunks: Seq<ChunkV>,
    limit: nat,
)
    requires
        lowercase_of(a) == lowercase_of(b),
    ensures
        tokens_of(a) == tokens_of(b),
        score(ChunkV { title: a, ..chunk }, words) == score(ChunkV { title: b, ..chunk }, words),
        local_hits(chunks, a, limit) == local_hits(chunks, b, limit),
    decreases words.len(),
{
    if words.len() > 0 {
        case_does_not_count(a, b, chunk, words.drop_last(), chunks, limit);
    }
}

/// Letters and digits of ASCII make words, and nothing else does; a text has an ideograph
/// where one stands anywhere in it.
pub proof fn words_are_made_of_letters_and_digits(c: char, a: Text, b: Text)
    ensures
        'a' <= c && c <= 'z' ==> word_char(c),
        'A' <= c && c <= 'Z' ==> word_char(c),
        '0' <= c && c <= '9' ==> word_char(c),
        word_char(c) ==> !ideograph(c) && c <= 'z' && '0' <= c,
        ideograph(c) ==> has_ideograph(a + seq![c] + b),
        has_ideograph(a) || has_ideograph(b) ==> has_ideograph(a + b),
        !has_ideograph(a) && !has_ideograph(b) ==> !has_ideograph(a + b),
{
    let s = a + seq![c] + b;
    assert(s[a.len() as int] == c);
    let t = a + b;
    if has_ideograph(a) {
        let i = choose|i: int| 0 <= i < a.len() && ideograph(#[trigger] a[i]);
        assert(ideograph(t[i]));
    }
    if has_ideograph(b) {
        let i = choose|i: int| 0 <= i < b.len() && ideograph(#[trigger] b[i]);
        assert(ideograph(t[a.len() + i]));
    }
    if has_ideograph(t) {
        let i = choose|i: int| 0 <= i < t.len() && ideograph(#[trigger] t[i]);
        if i < a.len() {
            assert(ideograph(a[i]));
        } else {
            assert(ideograph(b[i - a.len()]));
        }
    }
}

} // verus!
