//! Search on a MediaWiki site, by its `api.php`.
//!
//! A search takes up to three kinds of requests: the words of the query tried as the
//! titles of pages, a search through all pages, and the texts of the pages that it
//! found. Whatever goes wrong ends it with nothing found.

use crate::agent::{hits_held, DocHit, DocHitV, DocumentSource};
use crate::json::{items, json_read, parse_json, reply_bytes, Json, JsonV};
use crate::text::{
    a_prefix_is_a_beginning, among, begins, drop_back, drop_front, finishes, has, is_white, join,
    join3, joined, parse_u64, pieces, prefix, replace, replaced, replacing_a_character, same,
    stands_at, text_of, texts, trim, trim_end_of, trim_start_of, trimmed, truncate_chars, u64_text,
    u64_value, words, words_of, words_open, Text,
};
use vstd::prelude::*;

verus! {

/// Greatest number of characters of a page that are given back.
pub const SNIPPET_MAX_CHARS: usize = 1600;

/// Greatest number of pages whose texts are asked for at once.
pub const EXTRACT_BATCH_SIZE: usize = 50;

/// Greatest number of words that are tried as titles.
pub const TITLE_LOOKUP_MAX_TERMS: usize = 3;

/// Words that make a question but name nothing, longer ones before those that they
/// hold.
pub const QUESTION_STOPWORDS: [&'static str; 25] = [
    "查询一下",
    "查一下",
    "查询",
    "查下",
    "帮我查",
    "帮我",
    "请问",
    "看看",
    "想知道",
    "是多少",
    "是什么意思",
    "是什么",
    "什么叫",
    "什么是",
    "怎么用",
    "怎么做",
    "怎么样",
    "怎么",
    "如何",
    "为什么",
    "为啥",
    "多少",
    "几个",
    "哪些",
    "一下",
];

/// Marks that do not belong to a word.
pub const MARKS: &'static str = "？?。，,！!、·~";

/// Particles that may end a word without belonging to it.
pub const PARTICLES: &'static str = "是的了吗呢吧啊";

/// No word of the list is empty or holds a blank.
proof fn lemma_stopwords()
    ensures
        forall|i: int| 0 <= i < 25 ==> (#[trigger] QUESTION_STOPWORDS[i])@.len() > 0,
        forall|i: int| 0 <= i < 25 ==> unbroken((#[trigger] QUESTION_STOPWORDS[i])@),
{
    reveal_strlit("查询一下");
    reveal_strlit("查一下");
    reveal_strlit("查询");
    reveal_strlit("查下");
    reveal_strlit("帮我查");
    reveal_strlit("帮我");
    reveal_strlit("请问");
    reveal_strlit("看看");
    reveal_strlit("想知道");
    reveal_strlit("是多少");
    reveal_strlit("是什么意思");
    reveal_strlit("是什么");
    reveal_strlit("什么叫");
    reveal_strlit("什么是");
    reveal_strlit("怎么用");
    reveal_strlit("怎么做");
    reveal_strlit("怎么样");
    reveal_strlit("怎么");
    reveal_strlit("如何");
    reveal_strlit("为什么");
    reveal_strlit("为啥");
    reveal_strlit("多少");
    reveal_strlit("几个");
    reveal_strlit("哪些");
    reveal_strlit("一下");
}

/// A text with the first `n` words of the list put to blanks, one after the other.
pub open spec fn without_stopwords(s: Text, n: nat) -> Text
    decreases n,
{
    if n == 0 {
        s
    } else {
        replaced(without_stopwords(s, (n - 1) as nat), QUESTION_STOPWORDS[n - 1]@, " "@)
    }
}

/// A word without the marks around it.
pub open spec fn bare_word(s: Text) -> Text {
    drop_back(drop_front(s, among(MARKS@)), among(MARKS@))
}

/// Words without the marks around them, where anything is left.
pub open spec fn bare_words(w: Seq<Text>) -> Seq<Text>
    decreases w.len(),
{
    if w.len() == 0 {
        Seq::empty()
    } else if bare_word(w.last()).len() == 0 {
        bare_words(w.drop_last())
    } else {
        bare_words(w.drop_last()).push(bare_word(w.last()))
    }
}

/// What to search for where a question is asked.
pub open spec fn search_text(query: Text) -> Text {
    joined(bare_words(words_of(without_stopwords(query, 25))), " "@)
}

/// What to search for where a question is asked: its words without those that only
/// make it a question, and without the marks around them.
pub fn clean_search_query(query: &str) -> (r: String)
    ensures
        r@ == search_text(query@),
{
    proof {
        lemma_stopwords();
    }
    let mut cleaned = query.to_owned();
    let mut n: usize = 0;
    while n < 25
        invariant
            n <= 25,
            cleaned@ == without_stopwords(query@, n as nat),
            forall|i: int| 0 <= i < 25 ==> (#[trigger] QUESTION_STOPWORDS[i])@.len() > 0,
        decreases 25 - n,
    {
        let word = QUESTION_STOPWORDS[n];
        assert(QUESTION_STOPWORDS[n as int]@.len() > 0);
        cleaned = replace(cleaned.as_str(), word, " ");
        n = n + 1;
    }
    let all = words(cleaned.as_str());
    let ghost w = texts(all@);
    let mut kept: Vec<String> = Vec::new();
    let mut i: usize = 0;
    assert(texts(kept@) =~= bare_words(w.take(0)));
    while i < all.len()
        invariant
            i <= all@.len(),
            w == texts(all@),
            texts(kept@) == bare_words(w.take(i as int)),
        decreases all@.len() - i,
    {
        let front = trim_start_of(all[i].as_str(), MARKS);
        let bare = trim_end_of(front.as_str(), MARKS);
        assert(w.take(i + 1).drop_last() =~= w.take(i as int));
        assert(w.take(i + 1).last() == all@[i as int]@);
        if !bare.as_str().is_empty() {
            crate::text::push_text(&mut kept, bare);
        }
        i = i + 1;
    }
    assert(w.take(i as int) =~= w);
    join(&kept, " ")
}

/// Whether a text is not empty and holds no blank.
spec fn unbroken(u: Text) -> bool {
    u.len() > 0 && forall|i: int| 0 <= i < u.len() ==> #[trigger] u[i] != ' '
}

/// What occurs in a part of a text occurs in the text.
proof fn lemma_part_has(s: Text, a: int, b: int, u: Text)
    requires
        0 <= a <= b <= s.len(),
        has(s.subrange(a, b), u),
    ensures
        has(s, u),
{
    let t = s.subrange(a, b);
    let i = choose|i: int| stands_at(t, u, i);
    assert(s.subrange(a + i, a + i + u.len()) =~= t.subrange(i, i + u.len()));
    assert(stands_at(s, u, a + i));
}

/// Where a text occurs that is replaced by a blank, what begins without a blank began
/// so before.
proof fn lemma_replaced_begins(s: Text, w: Text, u: Text)
    requires
        w.len() > 0,
        unbroken(u),
        begins(replaced(s, w, " "@), u),
    ensures
        begins(s, u),
        !begins(s, w),
    decreases s.len(),
{
    reveal_strlit(" ");
    let r = replaced(s, w, " "@);
    assert(r.subrange(0, u.len() as int)[0] == u[0]);
    assert(s.len() > 0);
    if begins(s, w) {
        assert(r[0] == ' ');
    } else {
        let rest = s.subrange(1, s.len() as int);
        let tail = replaced(rest, w, " "@);
        let v = u.subrange(1, u.len() as int);
        assert(r[0] == s[0]);
        assert(r.subrange(1, r.len() as int) =~= tail);
        if u.len() > 1 {
            assert forall|i: int| 0 <= i < v.len() implies #[trigger] v[i] != ' ' by {
                assert(v[i] == u[i + 1]);
            }
            assert(tail.subrange(0, v.len() as int) =~= v) by {
                assert forall|i: int| 0 <= i < v.len() implies tail[i] == v[i] by {
                    assert(tail[i] == r[i + 1]);
                    assert(r.subrange(0, u.len() as int)[i + 1] == u[i + 1]);
                }
            }
            lemma_replaced_begins(rest, w, v);
            assert(s.subrange(0, u.len() as int) =~= u) by {
                assert forall|i: int| 0 <= i < u.len() implies s[i] == u[i] by {
                    if i > 0 {
                        assert(rest.subrange(0, v.len() as int)[i - 1] == v[i - 1]);
                    }
                }
            }
        } else {
            assert(s.subrange(0, 1) =~= u);
        }
    }
}

/// Replacing a text by blanks leaves it nowhere, and lets no other text occur that did
/// not occur before.
proof fn lemma_replaced_has(s: Text, w: Text, u: Text)
    requires
        w.len() > 0,
        unbroken(u),
        has(replaced(s, w, " "@), u),
    ensures
        has(s, u),
        u != w,
    decreases s.len(),
{
    reveal_strlit(" ");
    let r = replaced(s, w, " "@);
    let i = choose|i: int| stands_at(r, u, i);
    assert(s.len() > 0) by {
        if s.len() == 0 {
            assert(r.len() == 0);
        }
    }
    if i == 0 {
        lemma_replaced_begins(s, w, u);
        assert(stands_at(s, u, 0));
    } else {
        let step = if begins(s, w) {
            w.len() as int
        } else {
            1
        };
        let rest = s.subrange(step, s.len() as int);
        let tail = replaced(rest, w, " "@);
        assert(r.subrange(1, r.len() as int) =~= tail);
        assert(tail.subrange(i - 1, i - 1 + u.len()) =~= r.subrange(i, i + u.len()));
        assert(stands_at(tail, u, i - 1));
        lemma_replaced_has(rest, w, u);
        lemma_part_has(s, step, s.len() as int, u);
    }
}

/// Replacing a text that does not occur changes nothing.
proof fn lemma_replaced_none(s: Text, w: Text, t: Text)
    requires
        w.len() > 0,
        !(has(s, w)),
    ensures
        replaced(s, w, t) == s,
    decreases s.len(),
{
    if s.len() > 0 {
        let rest = s.subrange(1, s.len() as int);
        if begins(s, w) {
            assert(stands_at(s, w, 0));
        }
        if has(rest, w) {
            lemma_part_has(s, 1, s.len() as int, w);
        }
        lemma_replaced_none(rest, w, t);
        assert(seq![s[0]] + rest =~= s);
    }
}

/// The words that were put to blanks occur no more.
proof fn lemma_without_stopwords(s: Text, n: nat, k: int)
    requires
        n <= 25,
        0 <= k < n,
    ensures
        !(has(without_stopwords(s, n), QUESTION_STOPWORDS[k]@)),
    decreases n,
{
    lemma_stopwords();
    let u = QUESTION_STOPWORDS[k]@;
    let before = without_stopwords(s, (n - 1) as nat);
    assert(unbroken(u));
    assert(QUESTION_STOPWORDS[n - 1]@.len() > 0);
    if has(without_stopwords(s, n), u) {
        lemma_replaced_has(before, QUESTION_STOPWORDS[n - 1]@, u);
        assert(k < n - 1);
        lemma_without_stopwords(s, (n - 1) as nat, k);
    }
}

/// A text without any of the words stays as it is.
proof fn lemma_no_stopwords(s: Text, n: nat)
    requires
        n <= 25,
        forall|k: int| 0 <= k < 25 ==> !(has(s, (#[trigger] QUESTION_STOPWORDS[k])@)),
    ensures
        without_stopwords(s, n) == s,
    decreases n,
{
    if n > 0 {
        lemma_stopwords();
        lemma_no_stopwords(s, (n - 1) as nat);
        assert(QUESTION_STOPWORDS[n - 1]@.len() > 0);
        lemma_replaced_none(s, QUESTION_STOPWORDS[n - 1]@, " "@);
    }
}

/// Whether a text is not empty and holds no white space.
pub open spec fn is_word(w: Text) -> bool {
    w.len() > 0 && forall|i: int| 0 <= i < w.len() ==> !is_white(#[trigger] w[i])
}

/// Words are not empty, hold no white space and are parts of the text.
proof fn lemma_words(s: Text, u: Text)
    ensures
        forall|i: int| 0 <= i < words_open(s).0.len() ==> is_word(#[trigger] words_open(s).0[i]),
        forall|i: int|
            0 <= i < words_open(s).0.len() && has(#[trigger] words_open(s).0[i], u) ==> has(s, u),
        words_open(s).1.len() <= s.len(),
        words_open(s).1 == s.subrange(s.len() - words_open(s).1.len(), s.len() as int),
        words_open(s).1.len() > 0 ==> is_word(words_open(s).1),
        forall|i: int| 0 <= i < words_of(s).len() ==> is_word(#[trigger] words_of(s)[i]),
        forall|i: int|
            0 <= i < words_of(s).len() && has(#[trigger] words_of(s)[i], u) ==> has(s, u),
    decreases s.len(),
{
    let (w, cur) = words_open(s);
    if s.len() == 0 {
        assert(cur =~= s.subrange(0, 0));
    } else {
        let t = s.drop_last();
        lemma_words(t, u);
        let (w0, cur0) = words_open(t);
        assert(t == s.subrange(0, s.len() - 1));
        assert forall|i: int| 0 <= i < w.len() && has(#[trigger] w[i], u) implies has(s, u) by {
            assert(w[i] == words_of(t)[i] || w[i] == w0[i]);
            if is_white(s.last()) {
                assert(w == words_of(t));
                assert(has(words_of(t)[i], u));
            } else {
                assert(has(w0[i], u));
            }
            lemma_part_has(s, 0, s.len() - 1, u);
        }
        assert(cur =~= s.subrange(s.len() - cur.len(), s.len() as int));
        if !is_white(s.last()) {
            assert(is_word(cur)) by {
                assert forall|i: int| 0 <= i < cur.len() implies !is_white(#[trigger] cur[i]) by {
                    if i < cur0.len() {
                        assert(cur[i] == cur0[i]);
                    }
                }
            }
        }
    }
    let all = words_of(s);
    assert forall|i: int| 0 <= i < all.len() implies is_word(#[trigger] all[i]) by {
        if i < w.len() {
            assert(all[i] == w[i]);
        }
    }
    assert forall|i: int| 0 <= i < all.len() && has(#[trigger] all[i], u) implies has(s, u) by {
        if i < w.len() {
            assert(all[i] == w[i]);
        } else {
            assert(all[i] == cur);
            lemma_part_has(s, s.len() - cur.len(), s.len() as int, u);
        }
    }
}

/// What is left after dropping from the front is an end.
proof fn lemma_drop_front_part(s: Text, p: spec_fn(char) -> bool)
    ensures
        drop_front(s, p).len() <= s.len(),
        drop_front(s, p) == s.subrange(s.len() - drop_front(s, p).len(), s.len() as int),
    decreases s.len(),
{
    if s.len() > 0 && p(s[0]) {
        let t = s.subrange(1, s.len() as int);
        lemma_drop_front_part(t, p);
        assert(drop_front(s, p) =~= s.subrange(s.len() - drop_front(s, p).len(), s.len() as int));
    } else {
        assert(s =~= s.subrange(0, s.len() as int));
    }
}

/// Whether a word has no mark at either end.
pub open spec fn is_bare(w: Text) -> bool {
    is_word(w) && !MARKS@.contains(w[0]) && !MARKS@.contains(w.last())
}

/// A word without the marks around it is a part of it that has none at its ends.
proof fn lemma_bare_word(w: Text, u: Text)
    requires
        is_word(w),
    ensures
        bare_word(w).len() > 0 ==> is_bare(bare_word(w)),
        has(bare_word(w), u) ==> has(w, u),
{
    let p = among(MARKS@);
    let f = drop_front(w, p);
    let b = drop_back(f, p);
    lemma_drop_front_part(w, p);
    crate::text::lemma_drop_front_ends(w, p);
    crate::text::lemma_drop_back_ends(f, p);
    let a = w.len() - f.len();
    assert(b =~= w.subrange(a, a + b.len()));
    if has(b, u) {
        lemma_part_has(w, a, a + b.len(), u);
    }
    if b.len() > 0 {
        assert(b[0] == f[0]);
        assert(!p(f[0]));
        assert forall|i: int| 0 <= i < b.len() implies !is_white(#[trigger] b[i]) by {
            assert(b[i] == w[a + i]);
        }
    }
}

/// A word that has no mark at either end stays as it is.
proof fn lemma_bare_stays(w: Text)
    requires
        is_bare(w),
    ensures
        bare_word(w) == w,
{
    let p = among(MARKS@);
    assert(!p(w[0]));
    assert(!p(w[w.len() - 1]));
    assert(drop_front(w, p) == w);
}

/// Words without the marks around them are bare and hold nothing that the words do not.
proof fn lemma_bare_words(w: Seq<Text>, u: Text)
    requires
        forall|i: int| 0 <= i < w.len() ==> is_word(#[trigger] w[i]),
        forall|i: int| 0 <= i < w.len() ==> !(has(#[trigger] w[i], u)),
    ensures
        forall|i: int| 0 <= i < bare_words(w).len() ==> is_bare(#[trigger] bare_words(w)[i]),
        forall|i: int| 0 <= i < bare_words(w).len() ==> !(has(#[trigger] bare_words(w)[i], u)),
    decreases w.len(),
{
    if w.len() > 0 {
        let t = w.drop_last();
        assert forall|i: int| 0 <= i < t.len() implies is_word(#[trigger] t[i]) && !(has(t[i], u)) by {
            assert(t[i] == w[i]);
        }
        lemma_bare_words(t, u);
        assert(w.last() == w[w.len() - 1]);
        lemma_bare_word(w.last(), u);
        let before = bare_words(t);
        let all = bare_words(w);
        assert forall|i: int| 0 <= i < all.len() implies is_bare(#[trigger] all[i]) && !(has(
            all[i],
            u,
        )) by {
            if i < before.len() {
                assert(all[i] == before[i]);
            }
        }
    }
}

/// Bare words stay as they are.
proof fn lemma_bare_words_stay(w: Seq<Text>)
    requires
        forall|i: int| 0 <= i < w.len() ==> is_bare(#[trigger] w[i]),
    ensures
        bare_words(w) == w,
    decreases w.len(),
{
    if w.len() > 0 {
        let t = w.drop_last();
        assert forall|i: int| 0 <= i < t.len() implies is_bare(#[trigger] t[i]) by {
            assert(t[i] == w[i]);
        }
        lemma_bare_words_stay(t);
        assert(w.last() == w[w.len() - 1]);
        lemma_bare_stays(w.last());
        assert(t.push(w.last()) =~= w);
    } else {
        assert(bare_words(w) =~= w);
    }
}

/// What occurs in joined words without a blank occurs in one of them.
proof fn lemma_joined_has(w: Seq<Text>, u: Text)
    requires
        unbroken(u),
        forall|i: int| 0 <= i < w.len() ==> !(has(#[trigger] w[i], u)),
    ensures
        !(has(joined(w, " "@), u)),
    decreases w.len(),
{
    reveal_strlit(" ");
    let all = joined(w, " "@);
    if has(all, u) {
        let i = choose|i: int| stands_at(all, u, i);
        if w.len() == 0 {
        } else if w.len() == 1 {
            assert(!(has(w[0], u)));
        } else {
            let t = w.drop_last();
            assert forall|k: int| 0 <= k < t.len() implies !(has(#[trigger] t[k], u)) by {
                assert(t[k] == w[k]);
            }
            lemma_joined_has(t, u);
            let first = joined(t, " "@);
            let n = first.len() as int;
            let last = w.last();
            assert(last == w[w.len() - 1]);
            assert(all[n] == ' ');
            if i + u.len() <= n {
                assert(first.subrange(i, i + u.len()) =~= all.subrange(i, i + u.len()));
                assert(stands_at(first, u, i));
            } else if i > n {
                assert(last.subrange(i - n - 1, i - n - 1 + u.len()) =~= all.subrange(
                    i,
                    i + u.len(),
                ));
                assert(stands_at(last, u, i - n - 1));
            } else {
                assert(all.subrange(i, i + u.len())[n - i] == ' ');
                assert(u[n - i] == ' ');
            }
        }
    }
}

/// What follows without white space goes on with the last word.
proof fn lemma_words_go_on(s: Text, t: Text)
    requires
        forall|i: int| 0 <= i < t.len() ==> !is_white(#[trigger] t[i]),
    ensures
        words_open(s + t) == (words_open(s).0, words_open(s).1 + t),
    decreases t.len(),
{
    if t.len() == 0 {
        assert(s + t =~= s);
        assert(words_open(s).1 + t =~= words_open(s).1);
    } else {
        let t0 = t.drop_last();
        assert forall|i: int| 0 <= i < t0.len() implies !is_white(#[trigger] t0[i]) by {
            assert(t0[i] == t[i]);
        }
        lemma_words_go_on(s, t0);
        assert((s + t).drop_last() =~= s + t0);
        assert((s + t).last() == t[t.len() - 1]);
        assert((words_open(s).1 + t0).push(t.last()) =~= words_open(s).1 + t);
    }
}

/// The words of joined words are those words.
proof fn lemma_words_joined(w: Seq<Text>)
    requires
        forall|i: int| 0 <= i < w.len() ==> is_word(#[trigger] w[i]),
    ensures
        words_of(joined(w, " "@)) == w,
    decreases w.len(),
{
    reveal_strlit(" ");
    if w.len() == 0 {
        assert(words_of(joined(w, " "@)) =~= w);
    } else {
        let last = w.last();
        assert(last == w[w.len() - 1]);
        let none = Seq::<char>::empty();
        if w.len() == 1 {
            lemma_words_go_on(none, last);
            assert(none + last =~= last);
            assert(words_of(last) =~= w);
        } else {
            let t = w.drop_last();
            assert forall|i: int| 0 <= i < t.len() implies is_word(#[trigger] t[i]) by {
                assert(t[i] == w[i]);
            }
            lemma_words_joined(t);
            let first = joined(t, " "@);
            let open = first + " "@;
            assert(open.drop_last() =~= first);
            assert(open.last() == ' ');
            assert(is_white(' '));
            lemma_words_go_on(open, last);
            assert(none + last =~= last);
            assert(words_of(open + last) =~= t.push(last));
            assert(t.push(last) =~= w);
        }
    }
}

/// The words of a cleaned query.
proof fn lemma_cleaned(query: Text, k: int)
    requires
        0 <= k < 25,
    ensures
        ({
            let kept = bare_words(words_of(without_stopwords(query, 25)));
            &&& forall|i: int| 0 <= i < kept.len() ==> is_bare(#[trigger] kept[i])
            &&& words_of(search_text(query)) == kept
            &&& !(has(search_text(query), QUESTION_STOPWORDS[k]@))
        }),
{
    let s = without_stopwords(query, 25);
    let u = QUESTION_STOPWORDS[k]@;
    lemma_stopwords();
    assert(unbroken(u));
    lemma_without_stopwords(query, 25, k);
    lemma_words(s, u);
    let w = words_of(s);
    lemma_bare_words(w, u);
    let kept = bare_words(w);
    lemma_joined_has(kept, u);
    assert forall|i: int| 0 <= i < kept.len() implies is_word(#[trigger] kept[i]) by {
        assert(is_bare(kept[i]));
    }
    lemma_words_joined(kept);
}

/// No word that only makes a question is left in a cleaned query.
pub proof fn no_stopword_is_left(query: Text)
    ensures
        forall|k: int|
            0 <= k < 25 ==> !(has(search_text(query), (#[trigger] QUESTION_STOPWORDS[k])@)),
{
    assert forall|k: int| 0 <= k < 25 implies !(has(
        search_text(query),
        (#[trigger] QUESTION_STOPWORDS[k])@,
    )) by {
        lemma_cleaned(query, k);
    }
}

/// A cleaned query is its words with single blanks between them, and none of them
/// begins or ends with a mark.
pub proof fn a_cleaned_query_is_bare_words(query: Text)
    ensures
        search_text(query) == joined(words_of(search_text(query)), " "@),
        forall|i: int|
            0 <= i < words_of(search_text(query)).len() ==> is_bare(
                #[trigger] words_of(search_text(query))[i],
            ),
{
    lemma_cleaned(query, 0);
}

/// Cleaning a query twice is cleaning it once.
pub proof fn cleaning_twice_is_cleaning_once(query: Text)
    ensures
        search_text(search_text(query)) == search_text(query),
{
    let r = search_text(query);
    no_stopword_is_left(query);
    lemma_no_stopwords(r, 25);
    a_cleaned_query_is_bare_words(query);
    lemma_bare_words_stay(words_of(r));
}

/// A word without the particles that end it, unless it is made of them.
pub open spec fn without_particles(s: Text) -> Text {
    let bare = drop_back(s, among(PARTICLES@));
    if bare.len() == 0 {
        s
    } else {
        bare
    }
}

/// A word without the particles that end it, unless it is made of them.
pub fn strip_trailing_particles(term: &str) -> (r: String)
    ensures
        r@ == without_particles(term@),
{
    let bare = trim_end_of(term, PARTICLES);
    if bare.as_str().is_empty() {
        term.to_owned()
    } else {
        bare
    }
}

/// Whether a text ends inside a tag.
pub open spec fn ends_in_tag(s: Text) -> bool
    decreases s.len(),
{
    if s.len() == 0 {
        false
    } else if s.last() == '<' {
        true
    } else if s.last() == '>' {
        false
    } else {
        ends_in_tag(s.drop_last())
    }
}

/// A text without its tags.
pub open spec fn without_tags(s: Text) -> Text
    decreases s.len(),
{
    if s.len() == 0 {
        s
    } else if s.last() == '<' || s.last() == '>' || ends_in_tag(s.drop_last()) {
        without_tags(s.drop_last())
    } else {
        without_tags(s.drop_last()).push(s.last())
    }
}

/// A text without its tags. What is written with `&` stays as it is.
pub fn strip_html_tags(html: &str) -> (r: String)
    ensures
        r@ == without_tags(html@),
{
    let v = crate::text::chars_of(html);
    let mut out = String::new();
    let mut in_tag = false;
    let mut i: usize = 0;
    assert(out@ =~= without_tags(html@.take(0)));
    while i < v.len()
        invariant
            i <= v@.len(),
            v@ == html@,
            in_tag == ends_in_tag(html@.take(i as int)),
            out@ == without_tags(html@.take(i as int)),
        decreases v@.len() - i,
    {
        let c: char = v[i];
        assert(html@.take(i + 1).drop_last() =~= html@.take(i as int));
        assert(html@.take(i + 1).last() == c);
        if c == '<' {
            in_tag = true;
        } else if c == '>' {
            in_tag = false;
        } else if !in_tag {
            out.push(c);
        }
        i = i + 1;
    }
    assert(html@.take(i as int) =~= html@);
    out
}

/// No tag is left in a text without its tags.
pub proof fn no_tag_is_left(s: Text)
    ensures
        forall|i: int|
            0 <= i < without_tags(s).len() ==> (#[trigger] without_tags(s)[i]) != '<'
                && without_tags(s)[i] != '>',
    decreases s.len(),
{
    if s.len() > 0 {
        no_tag_is_left(s.drop_last());
        let rest = without_tags(s.drop_last());
        assert forall|i: int| 0 <= i < without_tags(s).len() implies (#[trigger] without_tags(s)[i])
            != '<' && without_tags(s)[i] != '>' by {
            if i < rest.len() {
                assert(without_tags(s)[i] == rest[i]);
            }
        }
    }
}

/// The parameters of a request.
pub open spec fn params_held(v: Seq<(String, String)>) -> Seq<(Text, Text)> {
    Seq::new(v.len(), |i: int| (v[i].0@, v[i].1@))
}

/// What a reply says: nothing where there was none, its status is no success or its
/// body is no JSON.
pub open spec fn reply_value(reply: Option<(u16, Seq<u8>)>) -> Option<JsonV> {
    match reply {
        Some((status, body)) => if 200 <= status < 300 {
            match json_read(body) {
                Ok(j) => Some(j),
                Err(_) => None,
            }
        } else {
            None
        },
        None => None,
    }
}

/// What a value that may be missing holds.
pub open spec fn value_held(j: Option<Json>) -> Option<JsonV> {
    match j {
        Some(j) => Some(j@),
        None => None,
    }
}

/// What a reply says: nothing where there was none, its status is no success or its
/// body is no JSON.
pub fn get_json(reply: Option<(u16, Vec<u8>)>) -> (r: Option<Json>)
    ensures
        value_held(r) == reply_value(reply_bytes(reply)),
{
    match reply {
        Some(p) => if p.0 >= 200 && p.0 < 300 {
            match parse_json(p.1.as_slice()) {
                Ok(j) => Some(j),
                Err(_) => None,
            }
        } else {
            None
        },
        None => None,
    }
}

/// The words that are tried as titles.
pub open spec fn title_terms(cleaned: Text) -> Seq<Text> {
    let w = words_of(cleaned);
    Seq::new(
        if w.len() < 3 {
            w.len()
        } else {
            3
        },
        |i: int| without_particles(w[i]),
    )
}

/// The parameters that ask for the pages of these titles.
pub open spec fn title_params(terms: Seq<Text>) -> Seq<(Text, Text)> {
    seq![
        ("action"@, "query"@),
        ("format"@, "json"@),
        ("redirects"@, "1"@),
        ("prop"@, "extracts"@),
        ("explaintext"@, "1"@),
        ("titles"@, joined(terms, "|"@)),
    ]
}

/// The parameters that search all pages.
pub open spec fn search_params(cleaned: Text, limit: nat) -> Seq<(Text, Text)> {
    seq![
        ("action"@, "query"@),
        ("format"@, "json"@),
        ("list"@, "search"@),
        ("srlimit"@, crate::text::decimal(limit)),
        ("srsearch"@, cleaned),
    ]
}

/// The parameters that ask for the texts of pages.
pub open spec fn extract_params(titles: Seq<Text>) -> Seq<(Text, Text)> {
    seq![
        ("action"@, "query"@),
        ("format"@, "json"@),
        ("prop"@, "extracts"@),
        ("explaintext"@, "1"@),
        ("exlimit"@, "max"@),
        ("titles"@, joined(titles, "|"@)),
    ]
}

/// The pages that a reply lists, with their keys.
pub open spec fn pages_in(body: JsonV) -> Seq<(Text, JsonV)> {
    match body.field("query"@) {
        Some(q) => match q.field("pages"@) {
            Some(JsonV::Object(m)) => m,
            _ => Seq::empty(),
        },
        None => Seq::empty(),
    }
}

/// The title and the text of a page that is there.
pub open spec fn page_text(page: JsonV) -> Option<(Text, Text)> {
    if page.field("missing"@) is Some {
        None
    } else {
        match (page.field("title"@), page.field("extract"@)) {
            (Some(t), Some(e)) => match (t.as_text(), e.as_text()) {
                (Some(t), Some(e)) => Some((t, e)),
                _ => None,
            },
            _ => None,
        }
    }
}

/// The titles and texts of the pages that are there.
pub open spec fn page_texts(pages: Seq<(Text, JsonV)>) -> Seq<(Text, Text)>
    decreases pages.len(),
{
    if pages.len() == 0 {
        Seq::empty()
    } else {
        match page_text(pages.last().1) {
            Some(p) => page_texts(pages.drop_last()).push(p),
            None => page_texts(pages.drop_last()),
        }
    }
}

/// The members of a reply's pages.
fn get_pages(body: &Json) -> (r: Vec<(String, Json)>)
    ensures
        crate::json::members(r@) == pages_in(body@),
{
    broadcast use crate::json::object_view;

    let none: Vec<(String, Json)> = Vec::new();
    assert(crate::json::members(none@) =~= Seq::empty());
    match body.get("query") {
        Some(q) => match q.get("pages") {
            Some(pages) => match pages {
                Json::Object(m) => {
                    assert(pages@ == Json::Object(*m)@);
                    crate::json::copy_members(m)
                },
                _ => none,
            },
            None => none,
        },
        None => none,
    }
}

/// The title and the text of a page that is there.
fn read_page(page: &Json) -> (r: Option<(String, String)>)
    ensures
        match r {
            Some(p) => page_text(page@) == Some((p.0@, p.1@)),
            None => page_text(page@) is None,
        },
{
    if page.get("missing").is_some() {
        return None;
    }
    let title = match page.get("title") {
        Some(t) => match t.as_str() {
            Some(t) => t.clone(),
            None => return None,
        },
        None => return None,
    };
    let text = match page.get("extract") {
        Some(t) => match t.as_str() {
            Some(t) => t.clone(),
            None => return None,
        },
        None => return None,
    };
    Some((title, text))
}

/// The titles and texts of the pages that a reply has.
pub open spec fn direct_in(reply: Option<JsonV>) -> Seq<(Text, Text)> {
    match reply {
        Some(body) => page_texts(pages_in(body)),
        None => Seq::empty(),
    }
}

/// The titles and texts of the pages that a reply has.
fn read_direct(reply: &Option<Json>) -> (r: Vec<(String, String)>)
    ensures
        params_held(r@) == direct_in(value_held(*reply)),
{
    let mut out: Vec<(String, String)> = Vec::new();
    assert(params_held(out@) =~= Seq::empty());
    let body = match reply {
        Some(body) => body,
        None => return out,
    };
    let pages = get_pages(body);
    let ghost all = crate::json::members(pages@);
    let mut i: usize = 0;
    assert(params_held(out@) =~= page_texts(all.take(0)));
    while i < pages.len()
        invariant
            i <= pages@.len(),
            all == crate::json::members(pages@),
            params_held(out@) == page_texts(all.take(i as int)),
        decreases pages@.len() - i,
    {
        let ghost before = out@;
        assert(all.take(i + 1).drop_last() =~= all.take(i as int));
        assert(all.take(i + 1).last() == (pages@[i as int].0@, pages@[i as int].1@));
        match read_page(&pages[i].1) {
            Some(p) => {
                let ghost pv = (p.0@, p.1@);
                out.push(p);
                assert(params_held(out@) =~= params_held(before).push(pv));
            },
            None => {},
        }
        i = i + 1;
    }
    assert(all.take(i as int) =~= all);
    out
}

/// A page that a search found.
#[derive(Debug)]
pub struct Found {
    pub title: String,
    pub pageid: Option<u64>,
    /// What the search shows of the page, with tags.
    pub html: String,
}

/// What a [`Found`] holds.
pub struct FoundV {
    pub title: Text,
    pub pageid: Option<u64>,
    pub html: Text,
}

impl View for Found {
    type V = FoundV;

    open spec fn view(&self) -> FoundV {
        FoundV { title: self.title@, pageid: self.pageid, html: self.html@ }
    }
}

/// What a list of found pages holds.
pub open spec fn found_held(v: Seq<Found>) -> Seq<FoundV> {
    Seq::new(v.len(), |i: int| v[i]@)
}

/// The page that an item of a search's result names.
pub open spec fn found_in(item: JsonV) -> Option<FoundV> {
    match item.field("title"@) {
        Some(t) => match t.as_text() {
            Some(title) => Some(
                FoundV {
                    title,
                    pageid: match item.field("pageid"@) {
                        Some(p) => p.as_nat(),
                        None => None,
                    },
                    html: match item.field("snippet"@) {
                        Some(s) => match s.as_text() {
                            Some(html) => html,
                            None => Seq::empty(),
                        },
                        None => Seq::empty(),
                    },
                },
            ),
            None => None,
        },
        None => None,
    }
}

/// The result of a search.
pub open spec fn results_in(body: JsonV) -> Seq<JsonV> {
    match body.field("query"@) {
        Some(q) => match q.field("search"@) {
            Some(JsonV::Array(s)) => s,
            _ => Seq::empty(),
        },
        None => Seq::empty(),
    }
}

/// Whether a title is among these.
pub open spec fn is_title(direct: Seq<(Text, Text)>, title: Text) -> bool {
    exists|i: int| 0 <= i < direct.len() && (#[trigger] direct[i]).0 == title
}

/// The pages of a search's result that are not among those found by their titles.
pub open spec fn fresh(results: Seq<JsonV>, direct: Seq<(Text, Text)>) -> Seq<FoundV>
    decreases results.len(),
{
    if results.len() == 0 {
        Seq::empty()
    } else {
        match found_in(results.last()) {
            Some(f) if !is_title(direct, f.title) => fresh(results.drop_last(), direct).push(f),
            _ => fresh(results.drop_last(), direct),
        }
    }
}

/// Whether a title is among these.
fn has_title(direct: &Vec<(String, String)>, title: &str) -> (r: bool)
    ensures
        r == is_title(params_held(direct@), title@),
{
    let ghost all = params_held(direct@);
    let mut i: usize = 0;
    while i < direct.len()
        invariant
            i <= direct@.len(),
            all == params_held(direct@),
            forall|k: int| 0 <= k < i ==> (#[trigger] all[k]).0 != title@,
        decreases direct@.len() - i,
    {
        assert(all[i as int].0 == direct@[i as int].0@);
        if same(direct[i].0.as_str(), title) {
            return true;
        }
        i = i + 1;
    }
    false
}

/// The page that an item of a search's result names.
fn read_found(item: &Json) -> (r: Option<Found>)
    ensures
        match r {
            Some(f) => found_in(item@) == Some(f@),
            None => found_in(item@) is None,
        },
{
    let title = match item.get("title") {
        Some(t) => match t.as_str() {
            Some(t) => t.clone(),
            None => return None,
        },
        None => return None,
    };
    let pageid = match item.get("pageid") {
        Some(p) => p.as_u64(),
        None => None,
    };
    let html = match item.get("snippet") {
        Some(s) => match s.as_str() {
            Some(html) => html.clone(),
            None => String::new(),
        },
        None => String::new(),
    };
    Some(Found { title, pageid, html })
}

/// The items of a search's result.
fn get_results(body: &Json) -> (r: Vec<Json>)
    ensures
        items(r@) == results_in(body@),
{
    let none: Vec<Json> = Vec::new();
    assert(items(none@) =~= Seq::empty());
    match body.get("query") {
        Some(q) => match q.get("search") {
            Some(found) => match found.as_array() {
                Some(v) => crate::json::copy_items(v),
                None => none,
            },
            None => none,
        },
        None => none,
    }
}

/// The pages of a search's result that are not among those found by their titles.
fn read_fresh(body: &Json, direct: &Vec<(String, String)>) -> (r: Vec<Found>)
    ensures
        found_held(r@) == fresh(results_in(body@), params_held(direct@)),
{
    let results = get_results(body);
    let ghost all = items(results@);
    let ghost d = params_held(direct@);
    let mut out: Vec<Found> = Vec::new();
    let mut i: usize = 0;
    assert(found_held(out@) =~= fresh(all.take(0), d));
    while i < results.len()
        invariant
            i <= results@.len(),
            all == items(results@),
            d == params_held(direct@),
            found_held(out@) == fresh(all.take(i as int), d),
        decreases results@.len() - i,
    {
        let ghost before = out@;
        assert(all.take(i + 1).drop_last() =~= all.take(i as int));
        assert(all.take(i + 1).last() == results@[i as int]@);
        match read_found(&results[i]) {
            Some(f) => {
                if !has_title(direct, f.title.as_str()) {
                    let ghost fv = f@;
                    out.push(f);
                    assert(found_held(out@) =~= found_held(before).push(fv));
                }
            },
            None => {},
        }
        i = i + 1;
    }
    assert(all.take(i as int) =~= all);
    out
}

/// What a list of numbered texts holds.
pub open spec fn numbered(v: Seq<(u64, String)>) -> Seq<(u64, Text)> {
    Seq::new(v.len(), |i: int| (v[i].0, v[i].1@))
}

/// The number and the text of a page, where it has them.
pub open spec fn numbered_page(key: Text, page: JsonV) -> Option<(u64, Text)> {
    match (u64_value(key), page.field("extract"@)) {
        (Some(n), Some(e)) => match e.as_text() {
            Some(t) => Some((n, t)),
            None => None,
        },
        _ => None,
    }
}

/// The numbers and the texts of pages.
pub open spec fn numbered_pages(pages: Seq<(Text, JsonV)>) -> Seq<(u64, Text)>
    decreases pages.len(),
{
    if pages.len() == 0 {
        Seq::empty()
    } else {
        match numbered_page(pages.last().0, pages.last().1) {
            Some(p) => numbered_pages(pages.drop_last()).push(p),
            None => numbered_pages(pages.drop_last()),
        }
    }
}

/// Adds the numbers and the texts of a reply's pages.
fn read_extracts(body: &Json, out: &mut Vec<(u64, String)>)
    ensures
        numbered(final(out)@) == numbered(old(out)@) + numbered_pages(pages_in(body@)),
{
    let pages = get_pages(body);
    let ghost all = crate::json::members(pages@);
    let ghost first = numbered(out@);
    let mut i: usize = 0;
    assert(numbered(out@) =~= first + numbered_pages(all.take(0)));
    while i < pages.len()
        invariant
            i <= pages@.len(),
            all == crate::json::members(pages@),
            numbered(out@) == first + numbered_pages(all.take(i as int)),
        decreases pages@.len() - i,
    {
        let ghost before = out@;
        assert(all.take(i + 1).drop_last() =~= all.take(i as int));
        assert(all.take(i + 1).last() == (pages@[i as int].0@, pages@[i as int].1@));
        let n = parse_u64(pages[i].0.as_str());
        let text = match pages[i].1.get("extract") {
            Some(e) => match e.as_str() {
                Some(t) => Some(t.clone()),
                None => None,
            },
            None => None,
        };
        match (n, text) {
            (Some(n), Some(t)) => {
                let ghost pair = (n, t@);
                out.push((n, t));
                assert(numbered(out@) =~= numbered(before).push(pair));
                assert(numbered(out@) =~= first + numbered_pages(all.take(i as int)).push(pair));
            },
            _ => {},
        }
        i = i + 1;
    }
    assert(all.take(i as int) =~= all);
}

/// The text of a page by its number; where it was given twice, the later one.
pub open spec fn extract_of(extracts: Seq<(u64, Text)>, id: u64) -> Option<Text>
    decreases extracts.len(),
{
    if extracts.len() == 0 {
        None
    } else if extracts.last().0 == id {
        Some(extracts.last().1)
    } else {
        extract_of(extracts.drop_last(), id)
    }
}

/// The text of a page by its number.
fn find_extract(extracts: &Vec<(u64, String)>, id: u64) -> (r: Option<String>)
    ensures
        match r {
            Some(t) => extract_of(numbered(extracts@), id) == Some(t@),
            None => extract_of(numbered(extracts@), id) is None,
        },
{
    let ghost all = numbered(extracts@);
    let mut i: usize = extracts.len();
    assert(all.take(i as int) =~= all);
    while i > 0
        invariant
            i <= extracts@.len(),
            all == numbered(extracts@),
            extract_of(all, id) == extract_of(all.take(i as int), id),
        decreases i,
    {
        assert(all.take(i as int).drop_last() =~= all.take(i - 1));
        assert(all.take(i as int).last() == (extracts@[i - 1].0, extracts@[i - 1].1@));
        if extracts[i - 1].0 == id {
            return Some(extracts[i - 1].1.clone());
        }
        i = i - 1;
    }
    None
}

/// The address of a page.
pub open spec fn page_address(base: Text, title: Text) -> Text {
    base + "/wiki/"@ + replaced(title, " "@, "_"@)
}

/// The hit for a page by its title and text.
pub open spec fn page_hit(base: Text, title: Text, extract: Text) -> DocHitV {
    DocHitV {
        title,
        locator: page_address(base, title),
        snippet: prefix(extract, SNIPPET_MAX_CHARS as nat),
    }
}

/// The hit for a page that a search found: the beginning of its text, or what the
/// search shows of it.
pub open spec fn found_hit(base: Text, f: FoundV, extracts: Seq<(u64, Text)>) -> DocHitV {
    DocHitV {
        title: f.title,
        locator: page_address(base, f.title),
        snippet: match f.pageid {
            Some(id) => match extract_of(extracts, id) {
                Some(e) => prefix(e, SNIPPET_MAX_CHARS as nat),
                None => without_tags(f.html),
            },
            None => without_tags(f.html),
        },
    }
}

/// The hits for the first pages that were found by their titles.
pub open spec fn direct_hits(base: Text, direct: Seq<(Text, Text)>, limit: nat) -> Seq<DocHitV> {
    Seq::new(
        if direct.len() < limit {
            direct.len()
        } else {
            limit
        },
        |i: int| page_hit(base, direct[i].0, direct[i].1),
    )
}

/// The hits for the first pages that a search found.
pub open spec fn found_hits(
    base: Text,
    found: Seq<FoundV>,
    extracts: Seq<(u64, Text)>,
    limit: int,
) -> Seq<DocHitV> {
    Seq::new(
        if limit < 0 {
            0
        } else if found.len() < limit {
            found.len()
        } else {
            limit as nat
        },
        |i: int| found_hit(base, found[i], extracts),
    )
}

/// All hits of a search: the pages of that title first.
pub open spec fn all_hits(
    base: Text,
    direct: Seq<(Text, Text)>,
    found: Seq<FoundV>,
    extracts: Seq<(u64, Text)>,
    limit: nat,
) -> Seq<DocHitV> {
    direct_hits(base, direct, limit) + found_hits(base, found, extracts, limit - direct.len())
}

/// What a search is waiting for.
#[derive(Debug, Clone, Copy, PartialEq, Eq, Structural)]
pub enum Stage {
    /// The pages of the titles.
    Titles,
    /// The result of the search.
    Search,
    /// The texts of the pages that were found.
    Extracts,
}

/// A search under way.
#[derive(Debug)]
pub struct WikiSearch {
    pub limit: usize,
    pub cleaned: String,
    pub stage: Stage,
    /// The pages found by their titles, with their texts.
    pub direct: Vec<(String, String)>,
    pub found: Vec<Found>,
    /// The texts of found pages, by the numbers of the pages.
    pub extracts: Vec<(u64, String)>,
    /// How many of the found pages came before those that are asked for.
    pub asked: usize,
}

/// What a [`WikiSearch`] holds.
pub struct WikiSearchV {
    pub limit: nat,
    pub cleaned: Text,
    pub stage: Stage,
    pub direct: Seq<(Text, Text)>,
    pub found: Seq<FoundV>,
    pub extracts: Seq<(u64, Text)>,
    pub asked: int,
}

impl View for WikiSearch {
    type V = WikiSearchV;

    open spec fn view(&self) -> WikiSearchV {
        WikiSearchV {
            limit: self.limit as nat,
            cleaned: self.cleaned@,
            stage: self.stage,
            direct: params_held(self.direct@),
            found: found_held(self.found@),
            extracts: numbered(self.extracts@),
            asked: self.asked as int,
        }
    }
}

/// What to do next in a search.
#[derive(Debug)]
pub enum WikiStep {
    /// Send a request with these parameters, and hand in what comes back.
    Ask(Vec<(String, String)>),
    /// The search is over.
    Done(Vec<DocHit>),
}

/// What a [`WikiStep`] holds.
pub enum WikiStepV {
    Ask(Seq<(Text, Text)>),
    Done(Seq<DocHitV>),
}

impl View for WikiStep {
    type V = WikiStepV;

    open spec fn view(&self) -> WikiStepV {
        match self {
            WikiStep::Ask(p) => WikiStepV::Ask(params_held(p@)),
            WikiStep::Done(h) => WikiStepV::Done(hits_held(h@)),
        }
    }
}

/// The titles of the next pages to ask for.
pub open spec fn batch_titles(found: Seq<FoundV>, from: int) -> Seq<Text> {
    Seq::new(
        if found.len() - from < EXTRACT_BATCH_SIZE {
            (found.len() - from) as nat
        } else {
            EXTRACT_BATCH_SIZE as nat
        },
        |i: int| found[from + i].title,
    )
}

/// How a search for `query` begins.
pub open spec fn opening(query: Text, limit: nat) -> (WikiSearchV, WikiStepV) {
    let cleaned = search_text(query);
    let terms = title_terms(cleaned);
    let s = WikiSearchV {
        limit,
        cleaned,
        stage: Stage::Titles,
        direct: Seq::empty(),
        found: Seq::empty(),
        extracts: Seq::empty(),
        asked: 0,
    };
    if limit == 0 || trimmed(query).len() == 0 || cleaned.len() == 0 {
        (s, WikiStepV::Done(Seq::empty()))
    } else if terms.len() == 0 {
        (
            WikiSearchV { stage: Stage::Search, ..s },
            WikiStepV::Ask(search_params(cleaned, limit)),
        )
    } else {
        (s, WikiStepV::Ask(title_params(terms)))
    }
}

/// How a search goes on with a reply; nothing stands for one that failed.
pub open spec fn going_on(base: Text, s: WikiSearchV, reply: Option<JsonV>) -> (
    WikiSearchV,
    WikiStepV,
) {
    match s.stage {
        Stage::Titles => {
            let direct = direct_in(reply);
            let t = WikiSearchV { direct, ..s };
            if direct.len() >= s.limit {
                (t, WikiStepV::Done(direct_hits(base, direct, s.limit)))
            } else {
                (
                    WikiSearchV { stage: Stage::Search, ..t },
                    WikiStepV::Ask(search_params(s.cleaned, s.limit)),
                )
            }
        },
        Stage::Search => match reply {
            None => (s, WikiStepV::Done(Seq::empty())),
            Some(body) => {
                let found = fresh(results_in(body), s.direct);
                let t = WikiSearchV { found, ..s };
                if found.len() == 0 {
                    (t, WikiStepV::Done(direct_hits(base, s.direct, s.limit)))
                } else {
                    (
                        WikiSearchV { stage: Stage::Extracts, asked: 0, ..t },
                        WikiStepV::Ask(extract_params(batch_titles(found, 0))),
                    )
                }
            },
        },
        Stage::Extracts => match reply {
            None => (s, WikiStepV::Done(Seq::empty())),
            Some(body) => {
                let extracts = s.extracts + numbered_pages(pages_in(body));
                let t = WikiSearchV { extracts, ..s };
                if s.found.len() - s.asked > EXTRACT_BATCH_SIZE {
                    let asked = s.asked + EXTRACT_BATCH_SIZE;
                    (
                        WikiSearchV { asked, ..t },
                        WikiStepV::Ask(extract_params(batch_titles(s.found, asked))),
                    )
                } else {
                    (t, WikiStepV::Done(all_hits(base, s.direct, s.found, extracts, s.limit)))
                }
            },
        },
    }
}

/// A MediaWiki site.
#[derive(Debug, Clone)]
pub struct MediaWikiSource {
    pub name: String,
    /// The address of `api.php`.
    pub api_url: String,
    /// What the addresses of pages begin with.
    pub base_url: String,
}

/// What stands before `/api.php` at the end of an address, or all of it.
pub open spec fn site_of(api_url: Text) -> Text {
    if crate::text::ends(api_url, "/api.php"@) {
        api_url.subrange(0, api_url.len() - "/api.php"@.len())
    } else {
        api_url
    }
}

impl DocumentSource for MediaWikiSource {
    open spec fn label(&self) -> Text {
        self.name@
    }

    fn name(&self) -> (r: &String) {
        &self.name
    }
}

/// One parameter.
fn param(key: &str, value: &str) -> (r: (String, String))
    ensures
        r.0@ == key@,
        r.1@ == value@,
{
    (key.to_owned(), value.to_owned())
}

/// Whether the stages of a search were gone through in order.
pub open spec fn in_order(s: WikiSearchV) -> bool {
    &&& s.stage != Stage::Titles ==> s.direct.len() < s.limit
    &&& s.stage == Stage::Extracts ==> 0 <= s.asked < s.found.len()
}

impl MediaWikiSource {
    /// A site by the address of its `api.php`.
    pub fn new(name: &str, api_url: &str) -> (r: Self)
        ensures
            r.name@ == name@,
            r.api_url@ == api_url@,
            r.base_url@ == site_of(api_url@),
    {
        let base_url = if finishes(api_url, "/api.php") {
            let v = crate::text::chars_of(api_url);
            proof {
                reveal_strlit("/api.php");
            }
            text_of(&v, 0, v.len() - 8)
        } else {
            api_url.to_owned()
        };
        MediaWikiSource { name: name.to_owned(), api_url: api_url.to_owned(), base_url }
    }

    /// The hit for a page by its title and text.
    fn doc_hit_from_extract(&self, title: &str, extract: &str) -> (r: DocHit)
        ensures
            r@ == page_hit(self.base_url@, title@, extract@),
    {
        DocHit {
            title: title.to_owned(),
            locator: self.address(title),
            snippet: truncate_chars(extract, SNIPPET_MAX_CHARS),
        }
    }

    /// The address of a page.
    fn address(&self, title: &str) -> (r: String)
        ensures
            r@ == page_address(self.base_url@, title@),
    {
        proof {
            reveal_strlit(" ");
        }
        let tail = replace(title, " ", "_");
        join3(self.base_url.as_str(), "/wiki/", tail.as_str())
    }

    /// The hits for the first pages that were found by their titles.
    fn hits_for_titles(&self, direct: &Vec<(String, String)>, limit: usize) -> (r: Vec<DocHit>)
        ensures
            hits_held(r@) == direct_hits(self.base_url@, params_held(direct@), limit as nat),
    {
        let ghost d = params_held(direct@);
        let mut out: Vec<DocHit> = Vec::new();
        let mut i: usize = 0;
        while i < direct.len() && i < limit
            invariant
                i <= direct@.len(),
                i <= limit,
                d == params_held(direct@),
                out@.len() == i,
                forall|k: int|
                    0 <= k < i ==> (#[trigger] out@[k])@ == page_hit(
                        self.base_url@,
                        d[k].0,
                        d[k].1,
                    ),
            decreases direct@.len() - i,
        {
            out.push(self.doc_hit_from_extract(direct[i].0.as_str(), direct[i].1.as_str()));
            i = i + 1;
        }
        assert(hits_held(out@) =~= direct_hits(self.base_url@, d, limit as nat));
        out
    }

    /// The request that searches all pages.
    fn ask_search(cleaned: &str, limit: usize) -> (r: WikiStep)
        ensures
            r@ == WikiStepV::Ask(search_params(cleaned@, limit as nat)),
    {
        let count = u64_text(limit as u64);
        let p: Vec<(String, String)> = vec![
            param("action", "query"),
            param("format", "json"),
            param("list", "search"),
            param("srlimit", count.as_str()),
            param("srsearch", cleaned),
        ];
        assert(params_held(p@) =~= search_params(cleaned@, limit as nat));
        WikiStep::Ask(p)
    }

    /// The request for the texts of the pages from `from` on.
    fn ask_extracts(found: &Vec<Found>, from: usize) -> (r: WikiStep)
        requires
            from < found@.len(),
        ensures
            r@ == WikiStepV::Ask(extract_params(batch_titles(found_held(found@), from as int))),
    {
        let ghost f = found_held(found@);
        let mut titles: Vec<String> = Vec::new();
        let mut n: usize = 0;
        while n < EXTRACT_BATCH_SIZE && n < found.len() - from
            invariant
                from < found@.len(),
                n <= EXTRACT_BATCH_SIZE,
                n <= found@.len() - from,
                titles@.len() == n,
                f == found_held(found@),
                forall|k: int| 0 <= k < n ==> (#[trigger] titles@[k])@ == f[from + k].title,
            decreases EXTRACT_BATCH_SIZE - n,
        {
            titles.push(found[from + n].title.clone());
            n = n + 1;
        }
        assert(texts(titles@) =~= batch_titles(f, from as int));
        let names = join(&titles, "|");
        let p: Vec<(String, String)> = vec![
            param("action", "query"),
            param("format", "json"),
            param("prop", "extracts"),
            param("explaintext", "1"),
            param("exlimit", "max"),
            param("titles", names.as_str()),
        ];
        assert(params_held(p@) =~= extract_params(batch_titles(f, from as int)));
        WikiStep::Ask(p)
    }

    /// The request for the pages of the titles; nothing where there is no title to
    /// try.
    fn lookup_titles(cleaned: &str) -> (r: Option<WikiStep>)
        ensures
            match r {
                Some(step) => {
                    &&& title_terms(cleaned@).len() > 0
                    &&& step@ == WikiStepV::Ask(title_params(title_terms(cleaned@)))
                },
                None => title_terms(cleaned@).len() == 0,
            },
    {
        let all = words(cleaned);
        let ghost w = texts(all@);
        let mut terms: Vec<String> = Vec::new();
        let mut i: usize = 0;
        while i < all.len() && i < TITLE_LOOKUP_MAX_TERMS
            invariant
                i <= all@.len(),
                i <= TITLE_LOOKUP_MAX_TERMS,
                w == texts(all@),
                terms@.len() == i,
                forall|k: int| 0 <= k < i ==> (#[trigger] terms@[k])@ == without_particles(w[k]),
            decreases all@.len() - i,
        {
            terms.push(strip_trailing_particles(all[i].as_str()));
            i = i + 1;
        }
        assert(texts(terms@) =~= title_terms(cleaned@));
        if terms.len() == 0 {
            return None;
        }
        let names = join(&terms, "|");
        let p: Vec<(String, String)> = vec![
            param("action", "query"),
            param("format", "json"),
            param("redirects", "1"),
            param("prop", "extracts"),
            param("explaintext", "1"),
            param("titles", names.as_str()),
        ];
        assert(params_held(p@) =~= title_params(title_terms(cleaned@)));
        Some(WikiStep::Ask(p))
    }

    /// Begins a search for at most `limit` hits.
    pub fn search(&self, query: &str, limit: usize) -> (r: (WikiSearch, WikiStep))
        ensures
            (r.0@, r.1@) == opening(query@, limit as nat),
            in_order(r.0@) || r.1 is Done,
    {
        let cleaned = clean_search_query(query);
        let mut s = WikiSearch {
            limit,
            cleaned: cleaned.clone(),
            stage: Stage::Titles,
            direct: Vec::new(),
            found: Vec::new(),
            extracts: Vec::new(),
            asked: 0,
        };
        assert(s@.direct =~= Seq::empty());
        assert(s@.found =~= Seq::empty());
        assert(s@.extracts =~= Seq::empty());
        let inner = trim(query);
        if limit == 0 || inner.as_str().is_empty() || cleaned.as_str().is_empty() {
            let none: Vec<DocHit> = Vec::new();
            assert(hits_held(none@) =~= Seq::empty());
            return (s, WikiStep::Done(none));
        }
        match Self::lookup_titles(cleaned.as_str()) {
            Some(step) => (s, step),
            None => {
                s.stage = Stage::Search;
                (s, Self::ask_search(cleaned.as_str(), limit))
            },
        }
    }

    /// Goes on with what came back for a request: its value, or nothing where it
    /// failed.
    pub fn answered(&self, s: &mut WikiSearch, reply: Option<Json>) -> (r: WikiStep)
        requires
            in_order(old(s)@),
        ensures
            (final(s)@, r@) == going_on(self.base_url@, old(s)@, value_held(reply)),
            in_order(final(s)@) || r is Done,
    {
        match s.stage {
            Stage::Titles => {
                s.direct = read_direct(&reply);
                if s.direct.len() >= s.limit {
                    WikiStep::Done(self.hits_for_titles(&s.direct, s.limit))
                } else {
                    s.stage = Stage::Search;
                    Self::ask_search(s.cleaned.as_str(), s.limit)
                }
            },
            Stage::Search => match reply {
                None => {
                    let none: Vec<DocHit> = Vec::new();
                    assert(hits_held(none@) =~= Seq::empty());
                    WikiStep::Done(none)
                },
                Some(body) => {
                    s.found = read_fresh(&body, &s.direct);
                    if s.found.len() == 0 {
                        WikiStep::Done(self.hits_for_titles(&s.direct, s.limit))
                    } else {
                        s.stage = Stage::Extracts;
                        s.asked = 0;
                        Self::ask_extracts(&s.found, 0)
                    }
                },
            },
            Stage::Extracts => match reply {
                None => {
                    let none: Vec<DocHit> = Vec::new();
                    assert(hits_held(none@) =~= Seq::empty());
                    WikiStep::Done(none)
                },
                Some(body) => {
                    read_extracts(&body, &mut s.extracts);
                    if s.found.len() - s.asked > EXTRACT_BATCH_SIZE {
                        s.asked = s.asked + EXTRACT_BATCH_SIZE;
                        Self::ask_extracts(&s.found, s.asked)
                    } else {
                        WikiStep::Done(self.merge(s))
                    }
                },
            },
        }
    }

    /// All hits of a search.
    fn merge(&self, s: &WikiSearch) -> (r: Vec<DocHit>)
        ensures
            hits_held(r@) == all_hits(
                self.base_url@,
                s@.direct,
                s@.found,
                s@.extracts,
                s@.limit,
            ),
    {
        let mut out = self.hits_for_titles(&s.direct, s.limit);
        let ghost first = hits_held(out@);
        let ghost v = s@;
        let ghost base = self.base_url@;
        assert(first.len() == out@.len());
        let mut i: usize = 0;
        while i < s.found.len() && out.len() < s.limit
            invariant
                i <= s.found@.len(),
                v == s@,
                base == self.base_url@,
                out@.len() == first.len() + i,
                out@.len() <= s.limit,
                first == direct_hits(base, v.direct, v.limit),
                forall|k: int| 0 <= k < first.len() ==> (#[trigger] out@[k])@ == first[k],
                forall|k: int|
                    first.len() <= k < out@.len() ==> (#[trigger] out@[k])@ == found_hit(
                        base,
                        v.found[k - first.len()],
                        v.extracts,
                    ),
            decreases s.found@.len() - i,
        {
            let f = &s.found[i];
            let extract = match f.pageid {
                Some(id) => find_extract(&s.extracts, id),
                None => None,
            };
            let snippet = match extract {
                Some(e) => truncate_chars(e.as_str(), SNIPPET_MAX_CHARS),
                None => strip_html_tags(f.html.as_str()),
            };
            let hit = DocHit {
                title: f.title.clone(),
                locator: self.address(f.title.as_str()),
                snippet,
            };
            assert(hit@ == found_hit(base, v.found[i as int], v.extracts));
            out.push(hit);
            i = i + 1;
        }
        assert(hits_held(out@) =~= all_hits(base, v.direct, v.found, v.extracts, v.limit));
        out
    }
}

/// A search gives no more hits than were asked for.
pub proof fn a_search_gives_no_more_than_asked(base: Text, s: WikiSearchV, reply: Option<JsonV>)
    requires
        in_order(s),
    ensures
        match going_on(base, s, reply).1 {
            WikiStepV::Done(hits) => hits.len() <= s.limit,
            WikiStepV::Ask(_) => in_order(going_on(base, s, reply).0) && going_on(
                base,
                s,
                reply,
            ).0.limit == s.limit,
        },
{
}

/// The pages whose titles are words of the query come first.
pub proof fn titles_come_first(
    base: Text,
    direct: Seq<(Text, Text)>,
    found: Seq<FoundV>,
    extracts: Seq<(u64, Text)>,
    limit: nat,
)
    ensures
        forall|i: int|
            0 <= i < direct.len() && i < limit ==> (#[trigger] all_hits(
                base,
                direct,
                found,
                extracts,
                limit,
            )[i]) == page_hit(base, direct[i].0, direct[i].1),
{
}

/// A page is not given twice: none of those that the search adds has a title under
/// which a page was found already.
pub proof fn a_title_is_not_repeated(results: Seq<JsonV>, direct: Seq<(Text, Text)>)
    ensures
        forall|i: int|
            0 <= i < fresh(results, direct).len() ==> !is_title(
                direct,
                (#[trigger] fresh(results, direct)[i]).title,
            ),
    decreases results.len(),
{
    if results.len() > 0 {
        a_title_is_not_repeated(results.drop_last(), direct);
    }
}

/// A request that fails leaves nothing to show, except that of the titles, behind
/// which all pages are still searched.
pub proof fn a_failed_request_finds_nothing(base: Text, s: WikiSearchV)
    requires
        in_order(s),
        s.limit > 0,
    ensures
        s.stage != Stage::Titles ==> going_on(base, s, None).1 == WikiStepV::Done(Seq::empty()),
        s.stage == Stage::Titles ==> going_on(base, s, None).1 == WikiStepV::Ask(
            search_params(s.cleaned, s.limit),
        ),
{
}

// ---- what a search keeps to ----

/// The text that is found for a page number is one that stands beside that very number,
/// the last such one; nothing is found only where no entry has the number.
pub proof fn a_text_stands_beside_its_number(extracts: Seq<(u64, Text)>, id: u64)
    ensures
        match extract_of(extracts, id) {
            Some(t) => extracts.contains((id, t)) && exists|i: int|
                0 <= i < extracts.len() && #[trigger] extracts[i] == (id, t) && forall|k: int|
                    i < k < extracts.len() ==> (#[trigger] extracts[k]).0 != id,
            None => forall|i: int| 0 <= i < extracts.len() ==> (#[trigger] extracts[i]).0 != id,
        },
    decreases extracts.len(),
{
    if extracts.len() > 0 {
        let n = extracts.len() - 1;
        let init = extracts.drop_last();
        if extracts.last().0 == id {
            assert(extracts[n] == (id, extracts.last().1));
        } else {
            a_text_stands_beside_its_number(init, id);
            match extract_of(init, id) {
                Some(t) => {
                    let i = choose|i: int|
                        0 <= i < init.len() && #[trigger] init[i] == (id, t) && forall|k: int|
                            i < k < init.len() ==> (#[trigger] init[k]).0 != id;
                    assert(extracts[i] == (id, t));
                    assert forall|k: int| i < k < extracts.len() implies (#[trigger] extracts[k]).0
                        != id by {
                        if k < n {
                            assert(init[k] == extracts[k]);
                        }
                    }
                },
                None => {
                    assert forall|i: int| 0 <= i < extracts.len() implies (
                    #[trigger] extracts[i]).0 != id by {
                        if i < n {
                            assert(init[i] == extracts[i]);
                        }
                    }
                },
            }
        }
    }
}

/// Whether a page of a reply has this number and this text.
pub open spec fn page_says(page: (Text, JsonV), id: u64, text: Text) -> bool {
    u64_value(page.0) == Some(id) && page.1.field("extract"@) == Some(JsonV::Str(text))
}

/// The numbers and texts of a reply are those of its pages: each comes from a page of
/// the reply, and no page with a number and a text is left out.
pub proof fn numbered_texts_come_from_the_pages(pages: Seq<(Text, JsonV)>)
    ensures
        forall|i: int|
            0 <= i < numbered_pages(pages).len() ==> exists|k: int|
                0 <= k < pages.len() && page_says(
                    #[trigger] pages[k],
                    (#[trigger] numbered_pages(pages)[i]).0,
                    numbered_pages(pages)[i].1,
                ),
        forall|k: int, id: u64, t: Text|
            0 <= k < pages.len() && page_says(#[trigger] pages[k], id, t)
                ==> #[trigger] numbered_pages(pages).contains((id, t)),
    decreases pages.len(),
{
    if pages.len() > 0 {
        let init = pages.drop_last();
        let before = numbered_pages(init);
        let all = numbered_pages(pages);
        let n = pages.len() - 1;
        numbered_texts_come_from_the_pages(init);
        assert forall|i: int| 0 <= i < all.len() implies exists|k: int|
            0 <= k < pages.len() && page_says(#[trigger] pages[k], (#[trigger] all[i]).0, all[i].1) by {
            if i < before.len() {
                assert(all[i] == before[i]);
                let k = choose|k: int|
                    0 <= k < init.len() && page_says(#[trigger] init[k], before[i].0, before[i].1);
                assert(pages[k] == init[k]);
            } else {
                assert(page_says(pages[n], all[i].0, all[i].1));
            }
        }
        assert forall|k: int, id: u64, t: Text|
            0 <= k < pages.len() && page_says(
                #[trigger] pages[k],
                id,
                t,
            ) implies #[trigger] all.contains((id, t)) by {
            if k < n {
                assert(init[k] == pages[k]);
                assert(before.contains((id, t)));
                let i = choose|i: int| 0 <= i < before.len() && before[i] == (id, t);
                assert(all[i] == (id, t));
            } else {
                assert(all[before.len() as int] == (id, t));
            }
        }
    }
}

/// What is shown of a page that was found is the beginning of the text of the page with
/// the number of the hit: of no other page, and as much of it as is shown of any. Where
/// no page has the number, it is what the site itself quotes, without tags.
pub proof fn a_hit_shows_its_own_page(base: Text, f: FoundV, pages: Seq<(Text, JsonV)>)
    ensures
        ({
            let hit = found_hit(base, f, numbered_pages(pages));
            &&& hit.title == f.title
            &&& match f.pageid {
                Some(id) => {
                    ||| exists|k: int, t: Text|
                        0 <= k < pages.len() && #[trigger] page_says(pages[k], id, t)
                            && hit.snippet == prefix(t, 1600)
                    ||| hit.snippet == without_tags(f.html) && forall|k: int, t: Text|
                        0 <= k < pages.len() ==> !(#[trigger] page_says(pages[k], id, t))
                },
                None => hit.snippet == without_tags(f.html),
            }
        }),
{
    let extracts = numbered_pages(pages);
    numbered_texts_come_from_the_pages(pages);
    match f.pageid {
        Some(id) => {
            a_text_stands_beside_its_number(extracts, id);
            match extract_of(extracts, id) {
                Some(t) => {
                    let i = choose|i: int| 0 <= i < extracts.len() && extracts[i] == (id, t);
                    let k = choose|k: int|
                        0 <= k < pages.len() && page_says(
                            #[trigger] pages[k],
                            extracts[i].0,
                            extracts[i].1,
                        );
                    assert(page_says(pages[k], id, t));
                },
                None => {
                    assert forall|k: int, t: Text| 0 <= k < pages.len() implies !(
                    #[trigger] page_says(pages[k], id, t)) by {
                        if page_says(pages[k], id, t) {
                            assert(extracts.contains((id, t)));
                        }
                    }
                },
            }
        },
        None => {},
    }
}

/// Whether a page of a reply is there with this title and this text.
pub open spec fn page_reads(page: (Text, JsonV), title: Text, text: Text) -> bool {
    page.1.field("missing"@) is None && page.1.field("title"@) == Some(JsonV::Str(title))
        && page.1.field("extract"@) == Some(JsonV::Str(text))
}

/// The titles and texts of a reply are those of its pages that are not missing: each
/// comes from such a page, and none of them is left out.
pub proof fn titled_texts_come_from_the_pages(pages: Seq<(Text, JsonV)>)
    ensures
        forall|i: int|
            0 <= i < page_texts(pages).len() ==> exists|k: int|
                0 <= k < pages.len() && page_reads(
                    #[trigger] pages[k],
                    (#[trigger] page_texts(pages)[i]).0,
                    page_texts(pages)[i].1,
                ),
        forall|k: int, title: Text, t: Text|
            0 <= k < pages.len() && page_reads(#[trigger] pages[k], title, t)
                ==> #[trigger] page_texts(pages).contains((title, t)),
    decreases pages.len(),
{
    if pages.len() > 0 {
        let init = pages.drop_last();
        let before = page_texts(init);
        let all = page_texts(pages);
        let n = pages.len() - 1;
        titled_texts_come_from_the_pages(init);
        assert forall|i: int| 0 <= i < all.len() implies exists|k: int|
            0 <= k < pages.len() && page_reads(#[trigger] pages[k], (#[trigger] all[i]).0, all[i].1) by {
            if i < before.len() {
                assert(all[i] == before[i]);
                let k = choose|k: int|
                    0 <= k < init.len() && page_reads(#[trigger] init[k], before[i].0, before[i].1);
                assert(pages[k] == init[k]);
            } else {
                assert(page_reads(pages[n], all[i].0, all[i].1));
            }
        }
        assert forall|k: int, title: Text, t: Text|
            0 <= k < pages.len() && page_reads(
                #[trigger] pages[k],
                title,
                t,
            ) implies #[trigger] all.contains((title, t)) by {
            if k < n {
                assert(init[k] == pages[k]);
                assert(before.contains((title, t)));
                let i = choose|i: int| 0 <= i < before.len() && before[i] == (title, t);
                assert(all[i] == (title, t));
            } else {
                assert(all[before.len() as int] == (title, t));
            }
        }
    }
}

/// The fields of a result of a search are read by their names: its title, its number and
/// what the site quotes. Without a title it is none.
pub proof fn a_result_is_read_by_its_fields(item: JsonV)
    ensures
        match found_in(item) {
            Some(f) => {
                &&& item.field("title"@) == Some(JsonV::Str(f.title))
                &&& (item.field("pageid"@) matches Some(p) ==> f.pageid == p.as_nat())
                &&& (item.field("pageid"@) is None ==> f.pageid is None)
                &&& (item.field("snippet"@) matches Some(JsonV::Str(html)) ==> f.html == html)
                &&& (item.field("snippet"@) is None ==> f.html.len() == 0)
            },
            None => !(item.field("title"@) matches Some(JsonV::Str(_))),
        },
{
}

/// Of the results of a search none is left out whose title did not name a page before,
/// and they keep their order: those of two lists are those of the one and then those of
/// the other.
pub proof fn no_result_is_left_out(a: Seq<JsonV>, b: Seq<JsonV>, direct: Seq<(Text, Text)>)
    ensures
        fresh(a + b, direct) == fresh(a, direct) + fresh(b, direct),
        forall|item: JsonV|
            #![trigger found_in(item)]
            match found_in(item) {
                Some(f) => fresh(seq![item], direct) == if is_title(direct, f.title) {
                    Seq::empty()
                } else {
                    seq![f]
                },
                None => fresh(seq![item], direct).len() == 0,
            },
    decreases b.len(),
{
    assert forall|item: JsonV|
        #![trigger found_in(item)]
        match found_in(item) {
            Some(f) => fresh(seq![item], direct) == if is_title(direct, f.title) {
                Seq::empty()
            } else {
                seq![f]
            },
            None => fresh(seq![item], direct).len() == 0,
        } by {
        let none = Seq::<JsonV>::empty();
        assert(seq![item].drop_last() =~= none);
        assert(seq![item].last() == item);
        assert(fresh(none, direct) =~= Seq::<FoundV>::empty());
        match found_in(item) {
            Some(f) => {
                if !is_title(direct, f.title) {
                    assert(fresh(seq![item], direct) =~= seq![f]);
                }
            },
            None => {},
        }
    }
    if b.len() == 0 {
        assert(a + b =~= a);
        assert(fresh(b, direct) =~= Seq::<FoundV>::empty());
        assert(fresh(a, direct) + fresh(b, direct) =~= fresh(a, direct));
    } else {
        no_result_is_left_out(a, b.drop_last(), direct);
        assert((a + b).drop_last() =~= a + b.drop_last());
        assert((a + b).last() == b.last());
        assert(fresh(a + b, direct) =~= fresh(a, direct) + fresh(b, direct));
    }
}

/// All that was found is given back, up to the number asked for: first the pages that
/// the query names, then the others, each in its order and under its title.
pub proof fn all_that_was_found_is_given(
    base: Text,
    direct: Seq<(Text, Text)>,
    found: Seq<FoundV>,
    extracts: Seq<(u64, Text)>,
    limit: nat,
)
    requires
        direct.len() <= limit,
    ensures
        ({
            let hits = all_hits(base, direct, found, extracts, limit);
            &&& hits.len() == if direct.len() + found.len() < limit {
                direct.len() + found.len()
            } else {
                limit
            }
            &&& forall|i: int|
                0 <= i < hits.len() ==> (#[trigger] hits[i]).title == if i < direct.len() {
                    direct[i].0
                } else {
                    found[i - direct.len()].title
                }
            &&& forall|i: int|
                0 <= i < hits.len() && i < direct.len() ==> begins(
                    direct[i].1,
                    (#[trigger] hits[i]).snippet,
                ) && hits[i].snippet.len() == if direct[i].1.len() < 1600 {
                    direct[i].1.len()
                } else {
                    1600
                }
        }),
{
    let hits = all_hits(base, direct, found, extracts, limit);
    assert forall|i: int| 0 <= i < hits.len() && i < direct.len() implies begins(
        direct[i].1,
        (#[trigger] hits[i]).snippet,
    ) && hits[i].snippet.len() == if direct[i].1.len() < 1600 {
        direct[i].1.len()
    } else {
        1600
    } by {
        a_prefix_is_a_beginning(direct[i].1, 1600);
    }
}

/// A hit leads to the page of its title at the site: the address is the title behind
/// `/wiki/`, with a low line for each blank and nothing else changed.
pub proof fn a_hit_leads_to_its_page(
    base: Text,
    f: FoundV,
    extracts: Seq<(u64, Text)>,
    title: Text,
    text: Text,
)
    ensures
        found_hit(base, f, extracts).locator == base + "/wiki/"@ + joined(
            pieces(f.title, ' '),
            "_"@,
        ),
        page_hit(base, title, text).locator == base + "/wiki/"@ + joined(pieces(title, ' '), "_"@),
{
    reveal_strlit(" ");
    assert(" "@ =~= seq![' ']);
    replacing_a_character(f.title, ' ', "_"@);
    replacing_a_character(title, ' ', "_"@);
}

/// Whether a text holds no angle bracket.
pub open spec fn without_brackets(s: Text) -> bool {
    !s.contains('<') && !s.contains('>')
}

/// A text without angle brackets stays as it is, and of one with a tag in it the tag goes
/// and all the rest stays.
pub proof fn only_tags_go(a: Text, tag: Text, b: Text)
    requires
        without_brackets(a),
        without_brackets(tag),
        without_brackets(b),
    ensures
        without_tags(a) == a,
        without_tags(a + seq!['<'] + tag + seq!['>'] + b) == a + b,
{
    let none = Seq::<char>::empty();
    lemma_tags_go_on(none, a);
    assert(none + a =~= a);
    assert(without_tags(none) =~= none);
    let open = a + seq!['<'];
    assert(open.drop_last() =~= a);
    lemma_in_tag(open, tag);
    let shut = open + tag + seq!['>'];
    assert(shut.drop_last() =~= open + tag);
    assert(!ends_in_tag(shut));
    lemma_tags_go_on(shut, b);
    assert(without_tags(a + seq!['<'] + tag + seq!['>'] + b) =~= a + b);
}

/// Outside of tags all that has no bracket is kept.
proof fn lemma_tags_go_on(s: Text, t: Text)
    requires
        !ends_in_tag(s),
        without_brackets(t),
    ensures
        without_tags(s + t) == without_tags(s) + t,
        !ends_in_tag(s + t),
    decreases t.len(),
{
    if t.len() == 0 {
        assert(s + t =~= s);
        assert(without_tags(s) + t =~= without_tags(s));
    } else {
        let init = t.drop_last();
        assert(without_brackets(init)) by {
            assert forall|i: int| 0 <= i < init.len() implies init[i] == t[i] by {}
        }
        lemma_tags_go_on(s, init);
        assert((s + t).drop_last() =~= s + init);
        assert((s + t).last() == t[t.len() - 1]);
        assert(t.contains(t[t.len() - 1]));
        assert(without_tags(s + t) =~= without_tags(s) + t);
    }
}

/// Inside of a tag nothing is kept.
proof fn lemma_in_tag(s: Text, t: Text)
    requires
        ends_in_tag(s),
        without_brackets(t),
    ensures
        without_tags(s + t) == without_tags(s),
        ends_in_tag(s + t),
    decreases t.len(),
{
    if t.len() == 0 {
        assert(s + t =~= s);
    } else {
        let init = t.drop_last();
        assert(without_brackets(init)) by {
            assert forall|i: int| 0 <= i < init.len() implies init[i] == t[i] by {}
        }
        lemma_in_tag(s, init);
        assert((s + t).drop_last() =~= s + init);
        assert((s + t).last() == t[t.len() - 1]);
        assert(t.contains(t[t.len() - 1]));
    }
}

/// No title is left out when texts are asked for: the first request is for the first
/// titles, each next one goes on right behind those asked for before, and the search
/// ends when the last title was asked for.
pub proof fn no_title_is_left_out(base: Text, s: WikiSearchV, body: JsonV)
    requires
        in_order(s),
        s.stage == Stage::Extracts,
    ensures
        ({
            let n = batch_titles(s.found, s.asked).len();
            &&& 0 < n <= 50
            &&& s.asked + n <= s.found.len()
            &&& forall|i: int|
                0 <= i < n ==> #[trigger] batch_titles(s.found, s.asked)[i] == s.found[s.asked
                    + i].title
            &&& match going_on(base, s, Some(body)) {
                (t, WikiStepV::Ask(params)) => {
                    &&& s.asked + n < s.found.len()
                    &&& t.asked == s.asked + n
                    &&& t.found == s.found
                    &&& params.contains(("titles"@, joined(batch_titles(t.found, t.asked), "|"@)))
                },
                (t, WikiStepV::Done(_)) => s.asked + n == s.found.len(),
            }
        }),
{
    match going_on(base, s, Some(body)) {
        (t, WikiStepV::Ask(params)) => {
            assert(params[5] == ("titles"@, joined(batch_titles(t.found, t.asked), "|"@)));
        },
        _ => {},
    }
}

/// The first request for texts is for the titles from the first one on.
pub proof fn texts_are_asked_from_the_first_title(base: Text, s: WikiSearchV, body: JsonV)
    requires
        in_order(s),
        s.stage == Stage::Search,
        fresh(results_in(body), s.direct).len() > 0,
    ensures
        match going_on(base, s, Some(body)) {
            (t, WikiStepV::Ask(params)) => {
                &&& t.stage == Stage::Extracts
                &&& t.asked == 0
                &&& t.direct == s.direct
                &&& t.found == fresh(results_in(body), s.direct)
                &&& params.contains(("titles"@, joined(batch_titles(t.found, 0), "|"@)))
            },
            (t, WikiStepV::Done(_)) => false,
        },
{
    match going_on(base, s, Some(body)) {
        (t, WikiStepV::Ask(params)) => {
            assert(params[5] == ("titles"@, joined(batch_titles(t.found, 0), "|"@)));
        },
        _ => {},
    }
}

/// A search asks for the words of the query, for as many results as are wanted, in the
/// form that it reads.
pub proof fn a_search_asks_for_the_query(cleaned: Text, limit: nat, terms: Seq<Text>)
    ensures
        search_params(cleaned, limit).contains(("srsearch"@, cleaned)),
        search_params(cleaned, limit).contains(("srlimit"@, crate::text::decimal(limit))),
        search_params(cleaned, limit).contains(("list"@, "search"@)),
        title_params(terms).contains(("titles"@, joined(terms, "|"@))),
        title_params(terms).contains(("redirects"@, "1"@)),
        forall|p: Seq<(Text, Text)>|
            p == search_params(cleaned, limit) || p == title_params(terms) || p
                == extract_params(terms) ==> #[trigger] p.contains(("action"@, "query"@))
                && p.contains(("format"@, "json"@)),
        title_params(terms).contains(("prop"@, "extracts"@)),
        extract_params(terms).contains(("prop"@, "extracts"@)),
{
    let s = search_params(cleaned, limit);
    let t = title_params(terms);
    let e = extract_params(terms);
    assert(s[4] == ("srsearch"@, cleaned));
    assert(s[3] == ("srlimit"@, crate::text::decimal(limit)));
    assert(s[2] == ("list"@, "search"@));
    assert(t[5] == ("titles"@, joined(terms, "|"@)));
    assert(t[2] == ("redirects"@, "1"@));
    assert(t[3] == ("prop"@, "extracts"@));
    assert(e[2] == ("prop"@, "extracts"@));
    assert forall|p: Seq<(Text, Text)>|
        p == s || p == t || p == e implies #[trigger] p.contains(("action"@, "query"@))
        && p.contains(("format"@, "json"@)) by {
        assert(p[0] == ("action"@, "query"@));
        assert(p[1] == ("format"@, "json"@));
    }
}

/// What is tried as titles are the first three words of the query in their order, each
/// without the particles at its end: a beginning of the word, and what is left away are
/// particles alone. A word made of particles stays whole.
pub proof fn titles_are_the_first_words(cleaned: Text, w: Text)
    ensures
        title_terms(cleaned).len() == if words_of(cleaned).len() < 3 {
            words_of(cleaned).len()
        } else {
            3
        },
        forall|i: int|
            0 <= i < title_terms(cleaned).len() ==> begins(
                words_of(cleaned)[i],
                #[trigger] title_terms(cleaned)[i],
            ),
        begins(w, without_particles(w)),
        w.len() > 0 ==> without_particles(w).len() > 0,
        forall|i: int|
            without_particles(w).len() <= i < w.len() ==> PARTICLES@.contains(#[trigger] w[i]),
        without_particles(w).len() > 0 && !PARTICLES@.contains(w[0]) ==> !PARTICLES@.contains(
            without_particles(w).last(),
        ),
{
    lemma_particles(w);
    assert forall|i: int| 0 <= i < title_terms(cleaned).len() implies begins(
        words_of(cleaned)[i],
        #[trigger] title_terms(cleaned)[i],
    ) by {
        lemma_particles(words_of(cleaned)[i]);
    }
}

/// What a word is without its particles.
proof fn lemma_particles(w: Text)
    ensures
        begins(w, without_particles(w)),
        w.len() > 0 ==> without_particles(w).len() > 0,
        forall|i: int|
            without_particles(w).len() <= i < w.len() ==> PARTICLES@.contains(#[trigger] w[i]),
        without_particles(w).len() > 0 && !PARTICLES@.contains(w[0]) ==> !PARTICLES@.contains(
            without_particles(w).last(),
        ),
{
    let p = among(PARTICLES@);
    crate::text::lemma_drop_back_ends(w, p);
    crate::text::what_is_dropped_at_the_back(w, p);
    let bare = drop_back(w, p);
    assert(w.subrange(0, w.len() as int) =~= w);
    assert forall|i: int|
        without_particles(w).len() <= i < w.len() implies PARTICLES@.contains(#[trigger] w[i]) by {
        assert(p(w[i]));
    }
    if bare.len() > 0 {
        assert(!p(bare[bare.len() - 1]));
    } else if w.len() > 0 {
        assert(p(w[0]));
    }
}

/// A query that is bare words with a blank between them and no word that only asks is
/// searched for as it is.
pub proof fn a_bare_query_is_kept(words: Seq<Text>)
    requires
        forall|i: int| 0 <= i < words.len() ==> is_bare(#[trigger] words[i]),
        forall|k: int|
            0 <= k < 25 ==> !(has(joined(words, " "@), (#[trigger] QUESTION_STOPWORDS[k])@)),
    ensures
        search_text(joined(words, " "@)) == joined(words, " "@),
{
    lemma_no_stopwords(joined(words, " "@), 25);
    assert forall|i: int| 0 <= i < words.len() implies is_word(#[trigger] words[i]) by {
        assert(is_bare(words[i]));
    }
    lemma_words_joined(words);
    lemma_bare_words_stay(words);
}

/// The site of an API address is what stands before `/api.php`.
pub proof fn a_site_is_before_its_api(site: Text)
    ensures
        site_of(site + "/api.php"@) == site,
        !crate::text::ends(site, "/api.php"@) ==> site_of(site) == site,
{
    let s = site + "/api.php"@;
    assert(s.subrange(s.len() - "/api.php"@.len(), s.len() as int) =~= "/api.php"@);
    assert(s.subrange(0, s.len() - "/api.php"@.len()) =~= site);
}

/// Pages and results are read from where the site puts them.
pub proof fn replies_are_read_where_they_stand(
    body: JsonV,
    q: JsonV,
    pages: Seq<(Text, JsonV)>,
    results: Seq<JsonV>,
)
    requires
        body.field("query"@) == Some(q),
    ensures
        q.field("pages"@) == Some(JsonV::Object(pages)) ==> pages_in(body) == pages,
        q.field("pages"@) is None ==> pages_in(body).len() == 0,
        q.field("search"@) == Some(JsonV::Array(results)) ==> results_in(body) == results,
        q.field("search"@) is None ==> results_in(body).len() == 0,
{
}

/// Only a reply of success that can be read says anything.
pub proof fn only_a_reply_of_success_is_read(status: u16, body: Seq<u8>)
    ensures
        !(200 <= status < 300) ==> reply_value(Some((status, body))) is None,
        200 <= status < 300 ==> (json_read(body) matches Ok(j) ==> reply_value(
            Some((status, body)),
        ) == Some(j)),
        200 <= status < 300 && json_read(body) is Err ==> reply_value(Some((status, body))) is None,
        reply_value(None) is None,
{
}

/// A search begins with the first words of the query as titles; a query that says nothing,
/// or of which no hit is wanted, is not searched for.
pub proof fn a_search_begins_with_titles(query: Text, limit: nat)
    ensures
        ({
            let (s, step) = opening(query, limit);
            &&& s.limit == limit
            &&& s.cleaned == search_text(query)
            &&& s.direct.len() == 0 && s.found.len() == 0 && s.extracts.len() == 0
            &&& limit == 0 || trimmed(query).len() == 0 || search_text(query).len() == 0
                ==> step == WikiStepV::Done(Seq::empty())
            &&& limit > 0 && trimmed(query).len() > 0 && words_of(search_text(query)).len() > 0
                && search_text(query).len() > 0 ==> s.stage == Stage::Titles && (
            step matches WikiStepV::Ask(p) && p.contains(
                ("titles"@, joined(title_terms(search_text(query)), "|"@)),
            ))
        }),
{
    let terms = title_terms(search_text(query));
    let p = title_params(terms);
    assert(p[5] == ("titles"@, joined(terms, "|"@)));
}

/// The pages that the titles named are kept: they are the hits where there are as many as
/// wanted, and otherwise the search goes on with them in hand.
pub proof fn named_pages_are_kept(base: Text, s: WikiSearchV, body: JsonV)
    requires
        s.stage == Stage::Titles,
    ensures
        ({
            let direct = page_texts(pages_in(body));
            let (t, step) = going_on(base, s, Some(body));
            &&& t.direct == direct
            &&& t.limit == s.limit
            &&& t.cleaned == s.cleaned
            &&& direct.len() >= s.limit ==> (step matches WikiStepV::Done(hits) && hits.len()
                == s.limit && forall|i: int|
                0 <= i < hits.len() ==> (#[trigger] hits[i]).title == direct[i].0)
            &&& direct.len() < s.limit ==> t.stage == Stage::Search && (
            step matches WikiStepV::Ask(p) && p.contains(("srsearch"@, s.cleaned)))
        }),
{
    let p = search_params(s.cleaned, s.limit);
    assert(p[4] == ("srsearch"@, s.cleaned));
}

/// The texts of every reply are kept until the end: the hits are made of the texts that
/// came before and of those that came last.
pub proof fn texts_are_kept_until_the_end(base: Text, s: WikiSearchV, body: JsonV)
    requires
        in_order(s),
        s.stage == Stage::Extracts,
    ensures
        ({
            let (t, step) = going_on(base, s, Some(body));
            &&& t.direct == s.direct
            &&& t.found == s.found
            &&& t.limit == s.limit
            &&& forall|i: int|
                0 <= i < s.extracts.len() ==> t.extracts.contains(#[trigger] s.extracts[i])
            &&& forall|i: int|
                0 <= i < numbered_pages(pages_in(body)).len() ==> t.extracts.contains(
                    #[trigger] numbered_pages(pages_in(body))[i],
                )
            &&& (step matches WikiStepV::Done(hits) ==> hits == all_hits(
                base,
                s.direct,
                s.found,
                t.extracts,
                s.limit,
            ))
        }),
{
    let new = numbered_pages(pages_in(body));
    let all = going_on(base, s, Some(body)).0.extracts;
    assert forall|i: int| 0 <= i < s.extracts.len() implies all.contains(
        #[trigger] s.extracts[i],
    ) by {
        assert(all[i] == s.extracts[i]);
    }
    assert forall|i: int| 0 <= i < new.len() implies all.contains(#[trigger] new[i]) by {
        assert(all[s.extracts.len() + i] == new[i]);
    }
}

/// Marks around a word do not belong to it: they are taken away, and the word stays.
pub proof fn marks_around_a_word_are_taken_away(left: Text, w: Text, right: Text)
    requires
        is_bare(w),
        forall|i: int| 0 <= i < left.len() ==> MARKS@.contains(#[trigger] left[i]),
        forall|i: int| 0 <= i < right.len() ==> MARKS@.contains(#[trigger] right[i]),
    ensures
        bare_word(left + w + right) == w,
{
    let p = among(MARKS@);
    let s = left + w + right;
    let n = left.len() as int;
    assert forall|i: int| 0 <= i < n implies p(#[trigger] s[i]) by {
        assert(s[i] == left[i]);
    }
    assert(s[n] == w[0]);
    assert(!p(s[n]));
    crate::text::lemma_drop_front(s, p, n);
    let t = w + right;
    assert(s.subrange(n, s.len() as int) =~= t);
    let k = w.len() as int;
    assert forall|i: int| k <= i < t.len() implies p(#[trigger] t[i]) by {
        assert(t[i] == right[i - k]);
    }
    assert(t[k - 1] == w.last());
    assert(!p(t[k - 1]));
    crate::text::lemma_drop_back(t, p, k);
    assert(t.subrange(0, k) =~= w);
}

} // verus!
