//! Text as sequences of characters: the small string operations that the rest
//! of the library is built from, each with an exact meaning on `Seq<char>`.

use vstd::prelude::*;

verus! {

/// `String::push` of std: appends one character to the end of the string.
pub assume_specification[ String::push ](s: &mut String, c: char)
    ensures
        final(s)@ == old(s)@.push(c),
;

/// `==` on `str` of std: two string slices are equal when they hold the same
/// characters.
pub assume_specification[ <str as PartialEq>::eq ](a: &str, b: &str) -> (r: bool)
    ensures
        r == (a@ == b@),
;

/// A text, seen as its characters.
pub type Text = Seq<char>;

/// Whether `a` and `b` hold the same characters.
pub fn same(a: &str, b: &str) -> (r: bool)
    ensures
        r == (a@ == b@),
{
    *a == *b
}

/// The characters of `s`.
pub fn chars_of(s: &str) -> (r: Vec<char>)
    ensures
        r@ == s@,
{
    let mut out: Vec<char> = Vec::new();
    for c in it: s.chars()
        invariant
            out@ == it.seq().take(it.index() as int),
            it.seq() == s@,
    {
        out.push(c);
        assert(it.seq().take(it.index() + 1) =~= it.seq().take(it.index() as int).push(c));
    }
    assert(s@.take(s@.len() as int) =~= s@);
    out
}

/// The text that the characters of `v` from `from` up to `to` make.
pub fn text_of(v: &Vec<char>, from: usize, to: usize) -> (r: String)
    requires
        from <= to <= v@.len(),
    ensures
        r@ == v@.subrange(from as int, to as int),
{
    let mut out = String::new();
    let mut i: usize = from;
    while i < to
        invariant
            from <= i <= to <= v@.len(),
            out@ == v@.subrange(from as int, i as int),
        decreases to - i,
    {
        out.push(v[i]);
        assert(v@.subrange(from as int, i + 1) =~= v@.subrange(from as int, i as int).push(v@[i as int]));
        i = i + 1;
    }
    out
}

/// `a` followed by `b`.
pub fn join2(a: &str, b: &str) -> (r: String)
    ensures
        r@ == a@ + b@,
{
    let mut out = String::new();
    out.append(a);
    out.append(b);
    assert(out@ =~= a@ + b@);
    out
}

/// `a`, `b` and `c` in a row.
pub fn join3(a: &str, b: &str, c: &str) -> (r: String)
    ensures
        r@ == a@ + b@ + c@,
{
    let mut out = join2(a, b);
    out.append(c);
    out
}

/// Whether `c` has the Unicode property White_Space.
pub open spec fn is_white(c: char) -> bool {
    let n = c as u32;
    ||| 0x9 <= n <= 0xd
    ||| n == 0x20
    ||| n == 0x85
    ||| n == 0xa0
    ||| n == 0x1680
    ||| 0x2000 <= n <= 0x200a
    ||| n == 0x2028
    ||| n == 0x2029
    ||| n == 0x202f
    ||| n == 0x205f
    ||| n == 0x3000
}

/// Whether `c` is white space.
pub fn white(c: char) -> (r: bool)
    ensures
        r == is_white(c),
{
    let n: u32 = c as u32;
    (0x9 <= n && n <= 0xd) || n == 0x20 || n == 0x85 || n == 0xa0 || n == 0x1680 || (0x2000 <= n
        && n <= 0x200a) || n == 0x2028 || n == 0x2029 || n == 0x202f || n == 0x205f || n == 0x3000
}

/// The characters that are white space.
pub open spec fn whites() -> spec_fn(char) -> bool {
    |c: char| is_white(c)
}

/// The characters that occur in `set`.
pub open spec fn among(set: Text) -> spec_fn(char) -> bool {
    |c: char| set.contains(c)
}

/// `s` without the longest beginning whose characters all meet `p`.
pub open spec fn drop_front(s: Text, p: spec_fn(char) -> bool) -> Text
    decreases s.len(),
{
    if s.len() > 0 && p(s[0]) {
        drop_front(s.subrange(1, s.len() as int), p)
    } else {
        s
    }
}

/// `s` without the longest end whose characters all meet `p`.
pub open spec fn drop_back(s: Text, p: spec_fn(char) -> bool) -> Text
    decreases s.len(),
{
    if s.len() > 0 && p(s[s.len() - 1]) {
        drop_back(s.subrange(0, s.len() - 1), p)
    } else {
        s
    }
}

/// `s` without white space at both ends.
pub open spec fn trimmed(s: Text) -> Text {
    drop_back(drop_front(s, whites()), whites())
}

/// Where dropping from the front stops.
pub proof fn lemma_drop_front(s: Text, p: spec_fn(char) -> bool, k: int)
    requires
        0 <= k <= s.len(),
        forall|i: int| 0 <= i < k ==> p(#[trigger] s[i]),
        k < s.len() ==> !p(s[k]),
    ensures
        drop_front(s, p) == s.subrange(k, s.len() as int),
    decreases k,
{
    if k == 0 {
        assert(s.subrange(0, s.len() as int) =~= s);
    } else {
        let t = s.subrange(1, s.len() as int);
        assert(p(s[0]));
        assert forall|i: int| 0 <= i < k - 1 implies p(#[trigger] t[i]) by {
            assert(t[i] == s[i + 1]);
        }
        lemma_drop_front(t, p, k - 1);
        assert(t.subrange(k - 1, t.len() as int) =~= s.subrange(k, s.len() as int));
    }
}

/// Where dropping from the back stops.
pub proof fn lemma_drop_back(s: Text, p: spec_fn(char) -> bool, k: int)
    requires
        0 <= k <= s.len(),
        forall|i: int| k <= i < s.len() ==> p(#[trigger] s[i]),
        k > 0 ==> !p(s[k - 1]),
    ensures
        drop_back(s, p) == s.subrange(0, k),
    decreases s.len() - k,
{
    if k == s.len() {
        assert(s.subrange(0, s.len() as int) =~= s);
    } else {
        let t = s.subrange(0, s.len() - 1);
        assert(p(s[s.len() - 1]));
        lemma_drop_back(t, p, k);
        assert(t.subrange(0, k) =~= s.subrange(0, k));
    }
}

/// What is left after dropping from the front neither grows nor begins with a
/// character to drop.
pub proof fn lemma_drop_front_ends(s: Text, p: spec_fn(char) -> bool)
    ensures
        drop_front(s, p).len() <= s.len(),
        drop_front(s, p).len() > 0 ==> !p(drop_front(s, p)[0]),
    decreases s.len(),
{
    if s.len() > 0 && p(s[0]) {
        lemma_drop_front_ends(s.subrange(1, s.len() as int), p);
    }
}

/// What is left after dropping from the back is a beginning that does not end
/// with a character to drop.
pub proof fn lemma_drop_back_ends(s: Text, p: spec_fn(char) -> bool)
    ensures
        drop_back(s, p).len() <= s.len(),
        drop_back(s, p) == s.subrange(0, drop_back(s, p).len() as int),
        drop_back(s, p).len() > 0 ==> !p(drop_back(s, p)[drop_back(s, p).len() - 1]),
    decreases s.len(),
{
    if s.len() > 0 && p(s[s.len() - 1]) {
        let t = s.subrange(0, s.len() - 1);
        lemma_drop_back_ends(t, p);
        assert(t.subrange(0, drop_back(t, p).len() as int) =~= s.subrange(
            0,
            drop_back(t, p).len() as int,
        ));
    } else {
        assert(s.subrange(0, s.len() as int) =~= s);
    }
}

/// Trimming a trimmed text changes nothing.
pub proof fn trimming_twice_is_trimming_once(s: Text)
    ensures
        trimmed(trimmed(s)) == trimmed(s),
{
    let a = drop_front(s, whites());
    let t = trimmed(s);
    lemma_drop_front_ends(s, whites());
    lemma_drop_back_ends(a, whites());
    if t.len() > 0 {
        assert(t[0] == a[0]);
        lemma_drop_front(t, whites(), 0);
        lemma_drop_back(t, whites(), t.len() as int);
        assert(t.subrange(0, t.len() as int) =~= t);
    }
}

/// `s` without white space at both ends.
pub fn trim(s: &str) -> (r: String)
    ensures
        r@ == trimmed(s@),
{
    let v = chars_of(s);
    let mut a: usize = 0;
    while a < v.len() && white(v[a])
        invariant
            a <= v@.len(),
            forall|i: int| 0 <= i < a ==> is_white(#[trigger] v@[i]),
        decreases v@.len() - a,
    {
        a = a + 1;
    }
    let ghost rest = v@.subrange(a as int, v@.len() as int);
    proof {
        lemma_drop_front(v@, whites(), a as int);
    }
    let mut b: usize = v.len();
    while b > a && white(v[b - 1])
        invariant
            a <= b <= v@.len(),
            forall|i: int| b <= i < v@.len() ==> is_white(#[trigger] v@[i]),
        decreases b,
    {
        b = b - 1;
    }
    proof {
        assert forall|i: int| b - a <= i < rest.len() implies whites()(#[trigger] rest[i]) by {
            assert(rest[i] == v@[i + a]);
        }
        lemma_drop_back(rest, whites(), b - a);
        assert(rest.subrange(0, b - a) =~= v@.subrange(a as int, b as int));
    }
    text_of(&v, a, b)
}

/// Whether `c` occurs among the first `n` characters of `set`.
fn occurs(set: &Vec<char>, c: char) -> (r: bool)
    ensures
        r == set@.contains(c),
{
    let mut i: usize = 0;
    while i < set.len()
        invariant
            i <= set@.len(),
            forall|j: int| 0 <= j < i ==> set@[j] != c,
        decreases set@.len() - i,
    {
        if set[i] == c {
            assert(set@[i as int] == c);
            return true;
        }
        i = i + 1;
    }
    false
}

/// `s` without the characters of `set` at its end.
pub fn trim_end_of(s: &str, set: &str) -> (r: String)
    ensures
        r@ == drop_back(s@, among(set@)),
{
    let v = chars_of(s);
    let set = chars_of(set);
    let mut b: usize = v.len();
    while b > 0 && occurs(&set, v[b - 1])
        invariant
            b <= v@.len(),
            forall|i: int| b <= i < v@.len() ==> set@.contains(#[trigger] v@[i]),
        decreases b,
    {
        b = b - 1;
    }
    proof {
        lemma_drop_back(v@, among(set@), b as int);
    }
    text_of(&v, 0, b)
}

/// `s` without the characters of `set` at its beginning.
pub fn trim_start_of(s: &str, set: &str) -> (r: String)
    ensures
        r@ == drop_front(s@, among(set@)),
{
    let v = chars_of(s);
    let set = chars_of(set);
    let mut a: usize = 0;
    while a < v.len() && occurs(&set, v[a])
        invariant
            a <= v@.len(),
            forall|i: int| 0 <= i < a ==> set@.contains(#[trigger] v@[i]),
        decreases v@.len() - a,
    {
        a = a + 1;
    }
    proof {
        lemma_drop_front(v@, among(set@), a as int);
    }
    let n: usize = v.len();
    text_of(&v, a, n)
}

/// Whether `s` begins with `p`.
pub open spec fn begins(s: Text, p: Text) -> bool {
    p.len() <= s.len() && s.subrange(0, p.len() as int) == p
}

/// Whether `s` ends with `p`.
pub open spec fn ends(s: Text, p: Text) -> bool {
    p.len() <= s.len() && s.subrange(s.len() - p.len(), s.len() as int) == p
}

/// Whether `p` stands in `s` at position `i`.
pub open spec fn stands_at(s: Text, p: Text, i: int) -> bool {
    0 <= i && i + p.len() <= s.len() && s.subrange(i, i + p.len()) == p
}

/// Whether `p` occurs in `s`.
pub open spec fn has(s: Text, p: Text) -> bool {
    exists|i: int| stands_at(s, p, i)
}

/// Whether `p` stands in `v` at position `i`.
pub fn at(v: &Vec<char>, p: &Vec<char>, i: usize) -> (r: bool)
    requires
        i <= v@.len(),
    ensures
        r == stands_at(v@, p@, i as int),
{
    if p.len() > v.len() - i {
        return false;
    }
    let mut j: usize = 0;
    while j < p.len()
        invariant
            j <= p@.len(),
            i + p.len() <= v.len(),
            forall|k: int| 0 <= k < j ==> v@[i + k] == p@[k],
        decreases p@.len() - j,
    {
        if v[i + j] != p[j] {
            assert(v@.subrange(i as int, i + p@.len())[j as int] == v@[i + j]);
            return false;
        }
        j = j + 1;
    }
    assert(v@.subrange(i as int, i + p@.len()) =~= p@);
    true
}

/// Whether `s` begins with `p`.
pub fn starts(s: &str, p: &str) -> (r: bool)
    ensures
        r == begins(s@, p@),
{
    let v = chars_of(s);
    let p = chars_of(p);
    at(&v, &p, 0)
}

/// Whether `s` ends with `p`.
pub fn finishes(s: &str, p: &str) -> (r: bool)
    ensures
        r == ends(s@, p@),
{
    let v = chars_of(s);
    let p = chars_of(p);
    if p.len() > v.len() {
        return false;
    }
    at(&v, &p, v.len() - p.len())
}

/// Whether `p` occurs in `s`.
pub fn contains(s: &str, p: &str) -> (r: bool)
    ensures
        r == has(s@, p@),
{
    let v = chars_of(s);
    let pat = chars_of(p);
    if pat.len() > v.len() {
        return false;
    }
    let last: usize = v.len() - pat.len();
    let mut i: usize = 0;
    while i < last
        invariant
            i <= last,
            last == v@.len() - pat@.len(),
            v@ == s@,
            pat@ == p@,
            forall|k: int| 0 <= k < i ==> !stands_at(v@, pat@, k),
        ensures
            i == last,
        decreases last - i,
    {
        if at(&v, &pat, i) {
            proof {
                assert(stands_at(v@, pat@, i as int));
            }
            return true;
        }
        i = i + 1;
    }
    let r = at(&v, &pat, last);
    proof {
        assert(r == stands_at(v@, pat@, last as int));
    }
    r
}

/// `s` with every occurrence of `p`, taken from the left without overlap,
/// replaced by `t`; `p` is not empty.
pub open spec fn replaced(s: Text, p: Text, t: Text) -> Text
    decreases s.len(),
{
    if p.len() == 0 || s.len() == 0 {
        s
    } else if begins(s, p) {
        t + replaced(s.subrange(p.len() as int, s.len() as int), p, t)
    } else {
        seq![s[0]] + replaced(s.subrange(1, s.len() as int), p, t)
    }
}

/// `s` with every occurrence of `p` replaced by `t`.
pub fn replace(s: &str, p: &str, t: &str) -> (r: String)
    requires
        p@.len() > 0,
    ensures
        r@ == replaced(s@, p@, t@),
{
    let v = chars_of(s);
    let pat = chars_of(p);
    let mut out = String::new();
    let mut i: usize = 0;
    proof {
        assert(v@.subrange(0, v@.len() as int) =~= v@);
        assert(Seq::<char>::empty() + replaced(v@, p@, t@) =~= replaced(v@, p@, t@));
    }
    while i < v.len()
        invariant
            i <= v@.len(),
            v@ == s@,
            pat@ == p@,
            p@.len() > 0,
            out@ + replaced(v@.subrange(i as int, v@.len() as int), p@, t@) == replaced(s@, p@, t@),
        decreases v@.len() - i,
    {
        let ghost rest = v@.subrange(i as int, v@.len() as int);
        let here = at(&v, &pat, i);
        proof {
            if i + p@.len() <= v@.len() {
                assert(rest.subrange(0, p@.len() as int) =~= v@.subrange(i as int, i + p@.len()));
            }
            assert(here == begins(rest, p@));
        }
        if here {
            let ghost before = out@;
            out.append(t);
            proof {
                let next = rest.subrange(p@.len() as int, rest.len() as int);
                assert(next =~= v@.subrange(i + p@.len(), v@.len() as int));
                assert(before + (t@ + replaced(next, p@, t@)) =~= out@ + replaced(next, p@, t@));
            }
            i = i + pat.len();
        } else {
            let ghost before = out@;
            out.push(v[i]);
            proof {
                let next = rest.subrange(1, rest.len() as int);
                assert(next =~= v@.subrange(i + 1, v@.len() as int));
                assert(before + (seq![rest[0]] + replaced(next, p@, t@)) =~= out@ + replaced(
                    next,
                    p@,
                    t@,
                ));
            }
            i = i + 1;
        }
    }
    proof {
        assert(v@.subrange(i as int, v@.len() as int) =~= Seq::<char>::empty());
        assert(out@ + Seq::<char>::empty() =~= out@);
    }
    out
}

/// The texts that a list of strings holds.
pub open spec fn texts(v: Seq<String>) -> Seq<Text> {
    Seq::new(v.len(), |i: int| v[i]@)
}

/// Adding a string to a list adds its text.
pub proof fn lemma_texts_push(v: Seq<String>, s: String)
    ensures
        texts(v.push(s)) == texts(v).push(s@),
{
    assert(texts(v.push(s)) =~= texts(v).push(s@));
}

/// `s` cut at every `c`: one more piece than there are separators.
pub open spec fn pieces(s: Text, c: char) -> Seq<Text>
    decreases s.len(),
{
    if s.len() == 0 {
        seq![Seq::<char>::empty()]
    } else {
        let before = pieces(s.drop_last(), c);
        if s.last() == c {
            before.push(Seq::<char>::empty())
        } else {
            before.drop_last().push(before.last().push(s.last()))
        }
    }
}

/// There is always a piece.
pub proof fn lemma_pieces_nonempty(s: Text, c: char)
    ensures
        pieces(s, c).len() >= 1,
    decreases s.len(),
{
    if s.len() > 0 {
        lemma_pieces_nonempty(s.drop_last(), c);
    }
}

/// Cuts `s` at every `c`.
pub fn split(s: &str, c: char) -> (r: Vec<String>)
    ensures
        texts(r@) == pieces(s@, c),
        r@.len() >= 1,
{
    let v = chars_of(s);
    let mut out: Vec<String> = Vec::new();
    let mut cur = String::new();
    let mut i: usize = 0;
    assert(texts(out@).push(cur@) =~= pieces(v@.take(0), c));
    while i < v.len()
        invariant
            i <= v@.len(),
            texts(out@).push(cur@) == pieces(v@.take(i as int), c),
        decreases v@.len() - i,
    {
        let ghost before = pieces(v@.take(i as int), c);
        assert(v@.take(i + 1).drop_last() =~= v@.take(i as int));
        assert(before.drop_last() =~= texts(out@));
        assert(before.last() == cur@);
        if v[i] == c {
            proof {
                lemma_texts_push(out@, cur);
            }
            out.push(cur);
            cur = String::new();
        } else {
            cur.push(v[i]);
        }
        i = i + 1;
    }
    assert(v@.take(i as int) =~= s@);
    proof {
        lemma_texts_push(out@, cur);
    }
    out.push(cur);
    out
}

/// The pieces of `parts` from `from` on, with `sep` between neighbours.
pub open spec fn joined(parts: Seq<Text>, sep: Text) -> Text
    decreases parts.len(),
{
    if parts.len() == 0 {
        Seq::<char>::empty()
    } else if parts.len() == 1 {
        parts[0]
    } else {
        joined(parts.drop_last(), sep) + sep + parts.last()
    }
}

/// The strings of `parts`, with `sep` between neighbours.
pub fn join(parts: &Vec<String>, sep: &str) -> (r: String)
    ensures
        r@ == joined(texts(parts@), sep@),
{
    let mut out = String::new();
    let mut i: usize = 0;
    assert(texts(parts@).take(0) =~= Seq::<Text>::empty());
    while i < parts.len()
        invariant
            i <= parts@.len(),
            out@ == joined(texts(parts@).take(i as int), sep@),
        decreases parts@.len() - i,
    {
        proof {
            let next = texts(parts@).take(i + 1);
            assert(next.drop_last() =~= texts(parts@).take(i as int));
            assert(next.last() == parts@[i as int]@);
        }
        if i > 0 {
            out.append(sep);
        }
        out.append(parts[i].as_str());
        proof {
            let next = texts(parts@).take(i + 1);
            if i == 0 {
                assert(out@ =~= next[0]);
            } else {
                assert(out@ =~= joined(next, sep@));
            }
        }
        i = i + 1;
    }
    assert(texts(parts@).take(i as int) =~= texts(parts@));
    out
}

/// The first `n` characters of `s`, or all of it where it has fewer.
pub open spec fn prefix(s: Text, n: nat) -> Text {
    if s.len() <= n {
        s
    } else {
        s.subrange(0, n as int)
    }
}

/// The first `max` characters of `s`.
pub fn truncate_chars(s: &str, max: usize) -> (r: String)
    ensures
        r@ == prefix(s@, max as nat),
{
    let v = chars_of(s);
    let n: usize = if v.len() <= max { v.len() } else { max };
    let r = text_of(&v, 0, n);
    assert(s@.subrange(0, s@.len() as int) =~= s@);
    r
}

/// The decimal digit of value `d`.
pub open spec fn digit(d: nat) -> char {
    (48 + d) as char
}

/// `n` written in decimal, without leading zeros.
pub open spec fn decimal(n: nat) -> Text
    decreases n,
{
    if n < 10 {
        seq![digit(n)]
    } else {
        decimal(n / 10).push(digit(n % 10))
    }
}

/// `i` written in decimal, with a minus sign where it is negative.
pub open spec fn int_text(i: int) -> Text {
    if i < 0 {
        seq!['-'] + decimal((-i) as nat)
    } else {
        decimal(i as nat)
    }
}

/// `n` in decimal.
pub fn u64_text(n: u64) -> (r: String)
    ensures
        r@ == decimal(n as nat),
    decreases n,
{
    let last: u8 = (n % 10) as u8;
    let c: char = (48 + last) as char;
    if n < 10 {
        let mut out = String::new();
        out.push(c);
        assert(out@ =~= decimal(n as nat));
        out
    } else {
        let mut out = u64_text(n / 10);
        out.push(c);
        out
    }
}

/// `i` in decimal.
pub fn i64_text(i: i64) -> (r: String)
    ensures
        r@ == int_text(i as int),
{
    if i < 0 {
        let m: u64 = (-(i as i128)) as u64;
        let d = u64_text(m);
        let r = join2("-", d.as_str());
        proof {
            reveal_strlit("-");
            assert("-"@ =~= seq!['-']);
        }
        r
    } else {
        u64_text(i as u64)
    }
}

/// Whether `c` is one of `0` to `9`.
pub open spec fn is_digit(c: char) -> bool {
    '0' <= c && c <= '9'
}

/// Whether `s` is one or more decimal digits and nothing else.
pub open spec fn all_digits(s: Text) -> bool {
    s.len() > 0 && forall|i: int| 0 <= i < s.len() ==> is_digit(#[trigger] s[i])
}

/// The number that the digits of `s` write.
pub open spec fn digits_value(s: Text) -> nat
    decreases s.len(),
{
    if s.len() == 0 {
        0
    } else {
        (digits_value(s.drop_last()) * 10 + (s.last() as u32 - 48)) as nat
    }
}

/// The integer that `s` writes: an optional sign, then digits only.
pub open spec fn int_value(s: Text) -> Option<int> {
    if all_digits(s) {
        Some(digits_value(s) as int)
    } else if s.len() > 0 && (s[0] == '+' || s[0] == '-') && all_digits(
        s.subrange(1, s.len() as int),
    ) {
        let m = digits_value(s.subrange(1, s.len() as int)) as int;
        Some(if s[0] == '-' { -m } else { m })
    } else {
        None
    }
}

/// `s` read as an `i64`: nothing where it does not write one.
pub open spec fn i64_value(s: Text) -> Option<i64> {
    match int_value(s) {
        Some(n) if i64::MIN <= n <= i64::MAX => Some(n as i64),
        _ => None,
    }
}

/// `s` read as a `u64`; a minus sign is refused, also before zero.
pub open spec fn u64_value(s: Text) -> Option<u64> {
    match int_value(s) {
        Some(n) if s[0] != '-' && 0 <= n <= u64::MAX => Some(n as u64),
        _ => None,
    }
}

/// The value of the digits of `v` from `from` on, where it is at most
/// `u64::MAX`; nothing where a character is no digit or there is none.
fn digits_from(v: &Vec<char>, from: usize) -> (r: Option<Option<u64>>)
    requires
        from <= v@.len(),
    ensures
        ({
            let s = v@.subrange(from as int, v@.len() as int);
            match r {
                None => !all_digits(s),
                Some(None) => all_digits(s) && digits_value(s) > u64::MAX,
                Some(Some(n)) => all_digits(s) && digits_value(s) == n,
            }
        }),
{
    let ghost s = v@.subrange(from as int, v@.len() as int);
    if from == v.len() {
        return None;
    }
    let mut acc: u128 = 0;
    let mut big: bool = false;
    let mut i: usize = from;
    assert(s.take(0).len() == 0);
    while i < v.len()
        invariant
            from <= i <= v@.len(),
            s == v@.subrange(from as int, v@.len() as int),
            forall|k: int| 0 <= k < i - from ==> is_digit(#[trigger] s[k]),
            acc <= u64::MAX,
            !big ==> digits_value(s.take(i - from)) == acc,
            big ==> digits_value(s.take(i - from)) > u64::MAX,
        decreases v@.len() - i,
    {
        let c = v[i];
        assert(s[i - from] == c);
        if !(c >= '0' && c <= '9') {
            return None;
        }
        let d: u128 = (c as u32 - 48) as u128;
        let ghost next = s.take(i - from + 1);
        assert(next.drop_last() =~= s.take(i - from));
        assert(next.last() == c);
        if !big {
            let wide: u128 = acc * 10 + d;
            if wide > 0xffff_ffff_ffff_ffff {
                big = true;
                acc = 0;
            } else {
                acc = wide;
            }
        }
        i = i + 1;
    }
    assert(s.take(i - from) =~= s);
    if big {
        Some(None)
    } else {
        Some(Some(acc as u64))
    }
}

/// Whether `s` is decimal digits only, and at least one.
pub fn is_digits(s: &str) -> (r: bool)
    ensures
        r == all_digits(s@),
{
    let v = chars_of(s);
    let r = digits_from(&v, 0);
    assert(v@.subrange(0, v@.len() as int) =~= s@);
    r.is_some()
}

/// Reads `s` as an `i64`.
pub fn parse_i64(s: &str) -> (r: Option<i64>)
    ensures
        r == i64_value(s@),
{
    let v = chars_of(s);
    let whole = digits_from(&v, 0);
    assert(v@.subrange(0, v@.len() as int) =~= s@);
    match whole {
        Some(Some(n)) => if n <= 0x7fff_ffff_ffff_ffff {
            Some(n as i64)
        } else {
            None
        },
        Some(None) => None,
        None => {
            if v.len() == 0 {
                return None;
            }
            if v[0] != '+' && v[0] != '-' {
                return None;
            }
            match digits_from(&v, 1) {
                Some(Some(n)) => {
                    if v[0] == '-' {
                        if n <= 0x8000_0000_0000_0000 {
                            Some((-(n as i128)) as i64)
                        } else {
                            None
                        }
                    } else if n <= 0x7fff_ffff_ffff_ffff {
                        Some(n as i64)
                    } else {
                        None
                    }
                },
                _ => None,
            }
        },
    }
}

/// Reads `s` as a `u64`.
pub fn parse_u64(s: &str) -> (r: Option<u64>)
    ensures
        r == u64_value(s@),
{
    let v = chars_of(s);
    let whole = digits_from(&v, 0);
    assert(v@.subrange(0, v@.len() as int) =~= s@);
    match whole {
        Some(Some(n)) => {
            assert(is_digit(s@[0]));
            Some(n)
        },
        Some(None) => None,
        None => {
            if v.len() == 0 || v[0] != '+' {
                return None;
            }
            match digits_from(&v, 1) {
                Some(Some(n)) => Some(n),
                _ => None,
            }
        },
    }
}

/// `c` with an ASCII capital letter made small.
pub open spec fn ascii_lower_char(c: char) -> char {
    if 'A' <= c && c <= 'Z' {
        (c as u32 + 32) as char
    } else {
        c
    }
}

/// `s` with its ASCII capital letters made small.
pub open spec fn ascii_lower(s: Text) -> Text {
    Seq::new(s.len(), |i: int| ascii_lower_char(s[i]))
}

/// `c` with an ASCII capital letter made small.
pub fn lower_char(c: char) -> (r: char)
    ensures
        r == ascii_lower_char(c),
{
    if c >= 'A' && c <= 'Z' {
        let n: u8 = (c as u32) as u8;
        (n + 32) as char
    } else {
        c
    }
}

/// `s` with its ASCII capital letters made small.
pub fn to_ascii_lower(s: &str) -> (r: String)
    ensures
        r@ == ascii_lower(s@),
{
    let mut out = String::new();
    let v = chars_of(s);
    let mut i: usize = 0;
    assert(out@ =~= ascii_lower(v@.take(0)));
    while i < v.len()
        invariant
            i <= v@.len(),
            out@ == ascii_lower(v@.take(i as int)),
        decreases v@.len() - i,
    {
        out.push(lower_char(v[i]));
        assert(out@ =~= ascii_lower(v@.take(i + 1)));
        i = i + 1;
    }
    assert(v@.take(i as int) =~= s@);
    out
}

/// Whether `a` and `b` are the same but for the case of ASCII letters.
pub fn same_ignoring_case(a: &str, b: &str) -> (r: bool)
    ensures
        r == (ascii_lower(a@) == ascii_lower(b@)),
{
    let a = to_ascii_lower(a);
    let b = to_ascii_lower(b);
    same(a.as_str(), b.as_str())
}

/// Position of the first `c` in `s`.
pub open spec fn first_at(s: Text, c: char) -> Option<int>
    decreases s.len(),
{
    if s.len() == 0 {
        None
    } else {
        match first_at(s.drop_last(), c) {
            Some(i) => Some(i),
            None => if s.last() == c {
                Some(s.len() - 1)
            } else {
                None
            },
        }
    }
}

/// What `first_at` says of the characters.
pub proof fn lemma_first_at(s: Text, c: char)
    ensures
        match first_at(s, c) {
            Some(i) => 0 <= i < s.len() && s[i] == c && forall|j: int| 0 <= j < i ==> s[j] != c,
            None => !s.contains(c),
        },
    decreases s.len(),
{
    if s.len() > 0 {
        lemma_first_at(s.drop_last(), c);
        assert forall|j: int| 0 <= j < s.len() && first_at(s, c) is None implies s[j] != c by {
            if j < s.len() - 1 {
                assert(s.drop_last()[j] == s[j]);
            }
        }
        match first_at(s.drop_last(), c) {
            Some(i) => {
                assert forall|j: int| 0 <= j < i implies s[j] != c by {
                    assert(s.drop_last()[j] == s[j]);
                }
            },
            None => {
                assert forall|j: int| 0 <= j < s.len() - 1 implies s[j] != c by {
                    assert(s.drop_last()[j] == s[j]);
                }
            },
        }
    }
}

/// Position of the first `c` in `v`.
pub fn find_char(v: &Vec<char>, c: char) -> (r: Option<usize>)
    ensures
        match r {
            Some(i) => first_at(v@, c) == Some(i as int) && i < v@.len(),
            None => first_at(v@, c) is None,
        },
{
    let mut i: usize = 0;
    while i < v.len()
        invariant
            i <= v@.len(),
            forall|j: int| 0 <= j < i ==> v@[j] != c,
        decreases v@.len() - i,
    {
        if v[i] == c {
            proof {
                lemma_first_at(v@, c);
            }
            return Some(i);
        }
        i = i + 1;
    }
    proof {
        lemma_first_at(v@, c);
    }
    None
}

/// What stands before the first `c` and what stands after it.
pub open spec fn cut(s: Text, c: char) -> Option<(Text, Text)> {
    match first_at(s, c) {
        Some(i) => Some((s.subrange(0, i), s.subrange(i + 1, s.len() as int))),
        None => None,
    }
}

/// Cuts `s` at the first `c`.
pub fn split_once(s: &str, c: char) -> (r: Option<(String, String)>)
    ensures
        match r {
            Some(p) => cut(s@, c) == Some((p.0@, p.1@)),
            None => cut(s@, c) is None,
        },
{
    let v = chars_of(s);
    match find_char(&v, c) {
        Some(i) => {
            let n: usize = v.len();
            Some((text_of(&v, 0, i), text_of(&v, i + 1, n)))
        },
        None => None,
    }
}

/// A line without the carriage return that may end it.
pub open spec fn without_cr(s: Text) -> Text {
    if s.len() > 0 && s.last() == '\r' {
        s.drop_last()
    } else {
        s
    }
}

/// The lines of `s`: the pieces between line feeds, each without a carriage
/// return before its line feed; a last piece that is empty is no line.
pub open spec fn lines_of(s: Text) -> Seq<Text> {
    let p = pieces(s, '\n');
    let ended = Seq::new((p.len() - 1) as nat, |i: int| without_cr(p[i]));
    if p.last().len() == 0 {
        ended
    } else {
        ended.push(p.last())
    }
}

/// The lines of `s`.
pub fn lines(s: &str) -> (r: Vec<String>)
    ensures
        texts(r@) == lines_of(s@),
{
    let parts = split(s, '\n');
    let ghost p = pieces(s@, '\n');
    let mut out: Vec<String> = Vec::new();
    let n: usize = parts.len() - 1;
    let mut i: usize = 0;
    while i < n
        invariant
            i <= n,
            n == parts@.len() - 1,
            p == texts(parts@),
            texts(out@) == Seq::new(i as nat, |k: int| without_cr(p[k])),
        decreases n - i,
    {
        let line = chars_of(parts[i].as_str());
        let mut m: usize = line.len();
        if m > 0 && line[m - 1] == '\r' {
            m = m - 1;
        }
        let t = text_of(&line, 0, m);
        proof {
            assert(line@.subrange(0, line@.len() as int) =~= line@);
            assert(line@.subrange(0, line@.len() - 1) =~= line@.drop_last());
            assert(t@ == without_cr(p[i as int]));
            lemma_texts_push(out@, t);
        }
        out.push(t);
        assert(texts(out@) =~= Seq::new((i + 1) as nat, |k: int| without_cr(p[k])));
        i = i + 1;
    }
    if parts[n].as_str().is_empty() {
        assert(texts(out@) =~= lines_of(s@));
    } else {
        let last = parts[n].clone();
        proof {
            lemma_texts_push(out@, last);
        }
        out.push(last);
        assert(texts(out@) =~= lines_of(s@));
    }
    out
}

/// The words read so far, and the word that is not yet closed.
pub open spec fn words_open(s: Text) -> (Seq<Text>, Text)
    decreases s.len(),
{
    if s.len() == 0 {
        (Seq::<Text>::empty(), Seq::<char>::empty())
    } else {
        let (w, cur) = words_open(s.drop_last());
        if is_white(s.last()) {
            (closed_words(w, cur), Seq::<char>::empty())
        } else {
            (w, cur.push(s.last()))
        }
    }
}

/// `w` and the word `cur`, unless that is empty.
pub open spec fn closed_words(w: Seq<Text>, cur: Text) -> Seq<Text> {
    if cur.len() == 0 {
        w
    } else {
        w.push(cur)
    }
}

/// The words of `s`: its longest runs without white space.
pub open spec fn words_of(s: Text) -> Seq<Text> {
    closed_words(words_open(s).0, words_open(s).1)
}

/// The words of `s`.
pub fn words(s: &str) -> (r: Vec<String>)
    ensures
        texts(r@) == words_of(s@),
{
    let v = chars_of(s);
    let mut out: Vec<String> = Vec::new();
    let mut cur = String::new();
    let mut i: usize = 0;
    assert(texts(out@) =~= words_open(v@.take(0)).0);
    while i < v.len()
        invariant
            i <= v@.len(),
            (texts(out@), cur@) == words_open(v@.take(i as int)),
        decreases v@.len() - i,
    {
        assert(v@.take(i + 1).drop_last() =~= v@.take(i as int));
        if white(v[i]) {
            if !cur.as_str().is_empty() {
                proof {
                    lemma_texts_push(out@, cur);
                }
                out.push(cur);
                cur = String::new();
            }
            assert(cur@ =~= Seq::<char>::empty());
        } else {
            cur.push(v[i]);
        }
        i = i + 1;
    }
    assert(v@.take(i as int) =~= s@);
    if !cur.as_str().is_empty() {
        proof {
            lemma_texts_push(out@, cur);
        }
        out.push(cur);
    }
    out
}

/// What `str::to_lowercase` of std makes of a text.
pub uninterp spec fn lowercase_of(s: Seq<char>) -> Seq<char>;

/// Whether a text holds none of the capital letters of ASCII.
pub open spec fn no_capitals(s: Text) -> bool {
    forall|i: int| 0 <= i < s.len() ==> !('A' <= #[trigger] s[i] && s[i] <= 'Z')
}

/// Calls `str::to_lowercase` of std: the Unicode lowercase of the text, which
/// depends on the text alone. For ASCII it makes capital letters small. Each character
/// becomes one or more, so that no text becomes empty, and no capital letter of ASCII
/// is left. Of what stands around a character only the word that it is in counts (a
/// sigma at the end of a word has a form of its own), so that what stands before a space
/// and what stands behind it become what they become alone. The tables for other
/// characters are not stated.
#[verifier::external_body]
pub(crate) fn to_lowercase(s: &str) -> (r: String)
    ensures
        r@ == lowercase_of(s@),
        vstd::utf8::is_ascii_chars(s@) ==> r@ == ascii_lower(s@),
        s@.len() > 0 ==> r@.len() > 0,
        no_capitals(r@),
        forall|i: int|
            0 <= i < s@.len() && #[trigger] s@[i] == ' ' ==> r@ == lowercase_of(s@.take(i)) + seq![
                ' ',
            ] + lowercase_of(s@.skip(i + 1)),
{
    s.to_lowercase()
}

/// The capital letter of a small ASCII letter; any other character stays.
pub open spec fn ascii_upper_char(c: char) -> char {
    if 'a' <= c && c <= 'z' {
        (c as u32 - 32) as char
    } else {
        c
    }
}

/// A text with its small ASCII letters made capital.
pub open spec fn ascii_upper(s: Text) -> Text {
    Seq::new(s.len(), |i: int| ascii_upper_char(s[i]))
}

/// What `str::to_uppercase` of std makes of a text.
pub uninterp spec fn uppercase_of(s: Seq<char>) -> Seq<char>;

/// Calls `str::to_uppercase` of std: the Unicode uppercase of the text, which
/// depends on the text alone. For ASCII it makes small letters capital; the tables for
/// other characters are not stated.
#[verifier::external_body]
pub(crate) fn to_uppercase(s: &str) -> (r: String)
    ensures
        r@ == uppercase_of(s@),
        vstd::utf8::is_ascii_chars(s@) ==> r@ == ascii_upper(s@),
{
    s.to_uppercase()
}

/// Calls `String::from_utf8` of std: gives the text that the bytes encode where
/// they are well-formed UTF-8, and fails otherwise.
#[verifier::external_body]
pub(crate) fn utf8_text(bytes: Vec<u8>) -> (r: Option<String>)
    ensures
        match r {
            Some(s) => vstd::utf8::valid_utf8(bytes@) && s@ == vstd::utf8::decode_utf8(bytes@),
            None => !vstd::utf8::valid_utf8(bytes@),
        },
{
    String::from_utf8(bytes).ok()
}

/// The bytes of `s` in UTF-8.
pub fn bytes_of(s: &str) -> (r: Vec<u8>)
    ensures
        r@ == vstd::utf8::encode_utf8(s@),
{
    s.as_bytes_vec()
}

/// The rest of `s` behind `p`, where `s` begins with `p` but for the case of
/// ASCII letters.
pub open spec fn behind(s: Text, p: Text) -> Option<Text> {
    if p.len() <= s.len() && ascii_lower(s.subrange(0, p.len() as int)) == ascii_lower(p) {
        Some(s.subrange(p.len() as int, s.len() as int))
    } else {
        None
    }
}

/// The rest of `s` behind `p`.
pub fn rest_behind(s: &str, p: &str) -> (r: Option<String>)
    ensures
        match r {
            Some(t) => behind(s@, p@) == Some(t@),
            None => behind(s@, p@) is None,
        },
{
    let v = chars_of(s);
    let n: usize = chars_of(p).len();
    if n > v.len() {
        return None;
    }
    let head = text_of(&v, 0, n);
    if same_ignoring_case(head.as_str(), p) {
        let m: usize = v.len();
        Some(text_of(&v, n, m))
    } else {
        None
    }
}

/// Position of the last character of `s` that occurs in `set`.
pub open spec fn last_in(s: Text, set: Text) -> Option<int>
    decreases s.len(),
{
    if s.len() == 0 {
        None
    } else if set.contains(s.last()) {
        Some(s.len() - 1)
    } else {
        last_in(s.drop_last(), set)
    }
}

/// Position of the last character of `v` that occurs in `set`.
pub fn find_last(v: &Vec<char>, set: &str) -> (r: Option<usize>)
    ensures
        match r {
            Some(i) => last_in(v@, set@) == Some(i as int) && i < v@.len(),
            None => last_in(v@, set@) is None,
        },
{
    let wanted = chars_of(set);
    let mut i: usize = v.len();
    assert(v@.take(v@.len() as int) =~= v@);
    while i > 0
        invariant
            i <= v@.len(),
            wanted@ == set@,
            last_in(v@, set@) == last_in(v@.take(i as int), set@),
        decreases i,
    {
        assert(v@.take(i as int).drop_last() =~= v@.take(i - 1));
        assert(v@.take(i as int).last() == v@[i - 1]);
        if occurs(&wanted, v[i - 1]) {
            return Some(i - 1);
        }
        i = i - 1;
    }
    None
}

/// The same texts again.
pub fn copy_texts(v: &Vec<String>) -> (r: Vec<String>)
    ensures
        texts(r@) == texts(v@),
{
    let mut out: Vec<String> = Vec::new();
    let mut i: usize = 0;
    while i < v.len()
        invariant
            i <= v@.len(),
            out@.len() == i,
            forall|k: int| 0 <= k < i ==> (#[trigger] out@[k])@ == v@[k]@,
        decreases v@.len() - i,
    {
        out.push(v[i].clone());
        i = i + 1;
    }
    assert(texts(out@) =~= texts(v@));
    out
}

/// Adds a string to a list.
pub fn push_text(v: &mut Vec<String>, s: String)
    ensures
        texts(final(v)@) == texts(old(v)@).push(s@),
{
    proof {
        lemma_texts_push(v@, s);
    }
    v.push(s);
}

/// Whether `a` comes before `b` in the order of their characters.
pub open spec fn before(a: Text, b: Text) -> bool
    decreases a.len(),
{
    if b.len() == 0 {
        false
    } else if a.len() == 0 {
        true
    } else if a[0] != b[0] {
        (a[0] as int) < (b[0] as int)
    } else {
        before(a.subrange(1, a.len() as int), b.subrange(1, b.len() as int))
    }
}

/// Whether `a` comes before `b`.
pub fn is_before(a: &str, b: &str) -> (r: bool)
    ensures
        r == before(a@, b@),
{
    let v = chars_of(a);
    let w = chars_of(b);
    let mut i: usize = 0;
    proof {
        assert(v@.subrange(0, v@.len() as int) =~= v@);
        assert(w@.subrange(0, w@.len() as int) =~= w@);
    }
    while i < v.len() && i < w.len()
        invariant
            i <= v@.len(),
            i <= w@.len(),
            v@ == a@,
            w@ == b@,
            before(v@, w@) == before(
                v@.subrange(i as int, v@.len() as int),
                w@.subrange(i as int, w@.len() as int),
            ),
        decreases v@.len() - i,
    {
        let ghost p = v@.subrange(i as int, v@.len() as int);
        let ghost q = w@.subrange(i as int, w@.len() as int);
        assert(p[0] == v@[i as int] && q[0] == w@[i as int]);
        let x: char = v[i];
        let y: char = w[i];
        if x != y {
            return x < y;
        }
        assert(p.subrange(1, p.len() as int) =~= v@.subrange(i + 1, v@.len() as int));
        assert(q.subrange(1, q.len() as int) =~= w@.subrange(i + 1, w@.len() as int));
        i = i + 1;
    }
    i < w.len()
}

/// The order of texts is strict, total and transitive.
pub proof fn lemma_before(a: Text, b: Text, c: Text)
    ensures
        !before(a, a),
        a == b || before(a, b) || before(b, a),
        !(before(a, b) && before(b, a)),
        before(a, b) && before(b, c) ==> before(a, c),
    decreases a.len(),
{
    if a.len() == 0 {
        if b.len() == 0 {
            assert(a =~= b);
        }
    } else {
        let a1 = a.subrange(1, a.len() as int);
        let b1 = b.subrange(1, b.len() as int);
        let c1 = c.subrange(1, c.len() as int);
        lemma_before(a1, a1, a1);
        if b.len() > 0 {
            lemma_before(a1, b1, c1);
            if a[0] == b[0] && a1 == b1 {
                assert(a =~= seq![a[0]] + a1);
                assert(b =~= seq![b[0]] + b1);
                assert(a == b);
            }
            if c.len() > 0 {
                lemma_before(a1, b1, c1);
            }
        }
    }
}

// ---- what the operations keep to ----

/// Whether all characters of a text are white space.
pub open spec fn all_white(s: Text) -> bool {
    forall|i: int| 0 <= i < s.len() ==> is_white(#[trigger] s[i])
}

/// Dropping from the front takes away a beginning that meets the test.
proof fn lemma_dropped_front(s: Text, p: spec_fn(char) -> bool)
    ensures
        drop_front(s, p).len() <= s.len(),
        drop_front(s, p) == s.subrange(s.len() - drop_front(s, p).len(), s.len() as int),
        forall|i: int| 0 <= i < s.len() - drop_front(s, p).len() ==> p(#[trigger] s[i]),
    decreases s.len(),
{
    if s.len() > 0 && p(s[0]) {
        let t = s.subrange(1, s.len() as int);
        lemma_dropped_front(t, p);
        let n = drop_front(s, p).len();
        assert(drop_front(s, p) =~= s.subrange(s.len() - n, s.len() as int));
        assert forall|i: int| 0 <= i < s.len() - n implies p(#[trigger] s[i]) by {
            if i > 0 {
                assert(t[i - 1] == s[i]);
            }
        }
    } else {
        assert(s =~= s.subrange(0, s.len() as int));
    }
}

/// Dropping from the back takes away an end that meets the test.
proof fn lemma_dropped_back(s: Text, p: spec_fn(char) -> bool)
    ensures
        drop_back(s, p).len() <= s.len(),
        forall|i: int| drop_back(s, p).len() <= i < s.len() ==> p(#[trigger] s[i]),
    decreases s.len(),
{
    if s.len() > 0 && p(s[s.len() - 1]) {
        let t = s.subrange(0, s.len() - 1);
        lemma_dropped_back(t, p);
        assert forall|i: int| drop_back(s, p).len() <= i < s.len() implies p(#[trigger] s[i]) by {
            if i < t.len() {
                assert(t[i] == s[i]);
            }
        }
    }
}

/// Trimming takes away white space at both ends and nothing else: what is left is a
/// part of the text that neither begins nor ends with white space.
pub proof fn trimming_takes_white_space_away(s: Text)
    ensures
        exists|a: int, b: int|
            0 <= a <= b <= s.len() && trimmed(s) == #[trigger] s.subrange(a, b) && all_white(
                s.subrange(0, a),
            ) && all_white(s.subrange(b, s.len() as int)),
        trimmed(s).len() > 0 ==> !is_white(trimmed(s)[0]) && !is_white(trimmed(s).last()),
{
    let w = whites();
    let f = drop_front(s, w);
    let t = drop_back(f, w);
    lemma_dropped_front(s, w);
    lemma_drop_front_ends(s, w);
    lemma_dropped_back(f, w);
    lemma_drop_back_ends(f, w);
    let a = s.len() - f.len();
    let b = a + t.len();
    assert(t =~= s.subrange(a, b));
    assert forall|i: int| 0 <= i < a implies is_white(#[trigger] s.subrange(0, a)[i]) by {
        assert(w(s[i]));
    }
    let rest = s.subrange(b, s.len() as int);
    assert forall|i: int| 0 <= i < rest.len() implies is_white(#[trigger] rest[i]) by {
        assert(f[t.len() + i] == rest[i]);
        assert(w(f[t.len() + i]));
    }
    if t.len() > 0 {
        assert(t[0] == f[0]);
        assert(!w(f[0]));
        assert(!w(t[t.len() - 1]));
    }
}

/// A text that neither begins nor ends with white space is trimmed to itself.
pub proof fn what_is_trimmed_stays(s: Text)
    requires
        s.len() > 0 ==> !is_white(s[0]) && !is_white(s.last()),
    ensures
        trimmed(s) == s,
{
    let w = whites();
    if s.len() > 0 {
        assert(!w(s[0]));
        assert(!w(s[s.len() - 1]));
    }
    assert(drop_front(s, w) == s);
}

/// What occurs in a text, and neither begins nor ends with white space, is not trimmed
/// away.
pub proof fn trimming_loses_no_word(s: Text, u: Text)
    requires
        has(s, u),
        u.len() > 0,
        !is_white(u[0]),
        !is_white(u.last()),
    ensures
        has(trimmed(s), u),
{
    trimming_takes_white_space_away(s);
    let (a, b) = choose|a: int, b: int|
        0 <= a <= b <= s.len() && trimmed(s) == #[trigger] s.subrange(a, b) && all_white(
            s.subrange(0, a),
        ) && all_white(s.subrange(b, s.len() as int));
    let i = choose|i: int| stands_at(s, u, i);
    let n = u.len() as int;
    assert(s.subrange(i, i + n)[0] == s[i]);
    assert(s.subrange(i, i + n)[n - 1] == s[i + n - 1]);
    if i < a {
        assert(s.subrange(0, a)[i] == s[i]);
    }
    if i + n > b {
        let rest = s.subrange(b, s.len() as int);
        assert(i + n - 1 >= b);
        assert(rest[i + n - 1 - b] == s[i + n - 1]);
    }
    assert(s.subrange(a, b).subrange(i - a, i - a + n) =~= s.subrange(i, i + n));
    assert(stands_at(trimmed(s), u, i - a));
}

/// What occurs in one of two texts occurs in both together.
pub proof fn joining_loses_nothing(a: Text, b: Text, u: Text)
    requires
        has(a, u) || has(b, u),
    ensures
        has(a + b, u),
{
    if has(a, u) {
        let i = choose|i: int| stands_at(a, u, i);
        assert((a + b).subrange(i, i + u.len()) =~= a.subrange(i, i + u.len()));
        assert(stands_at(a + b, u, i));
    } else {
        let i = choose|i: int| stands_at(b, u, i);
        let k = a.len() + i;
        assert((a + b).subrange(k, k + u.len()) =~= b.subrange(i, i + u.len()));
        assert(stands_at(a + b, u, k));
    }
}

/// A text occurs in itself, and between any two others.
pub proof fn a_part_occurs(a: Text, u: Text, b: Text)
    ensures
        has(a + u + b, u),
{
    let s = a + u + b;
    let k = a.len() as int;
    assert(s.subrange(k, k + u.len()) =~= u);
    assert(stands_at(s, u, k));
}

/// Each of the joined texts occurs in what they are joined to.
pub proof fn every_part_is_joined(parts: Seq<Text>, sep: Text, i: int)
    requires
        0 <= i < parts.len(),
    ensures
        has(joined(parts, sep), parts[i]),
    decreases parts.len(),
{
    let none = Seq::<char>::empty();
    if parts.len() == 1 {
        a_part_occurs(none, parts[0], none);
        assert(none + parts[0] + none =~= parts[0]);
    } else {
        let first = joined(parts.drop_last(), sep);
        if i == parts.len() - 1 {
            a_part_occurs(first + sep, parts.last(), none);
            assert(first + sep + parts.last() + none =~= first + sep + parts.last());
        } else {
            every_part_is_joined(parts.drop_last(), sep, i);
            assert(parts.drop_last()[i] == parts[i]);
            joining_loses_nothing(first, sep, parts[i]);
            joining_loses_nothing(first + sep, parts.last(), parts[i]);
        }
    }
}

/// No piece holds the character at which a text is cut, and the pieces with the
/// character between them are the text again.
pub proof fn pieces_make_the_text(s: Text, c: char)
    ensures
        joined(pieces(s, c), seq![c]) == s,
        forall|i: int| 0 <= i < pieces(s, c).len() ==> !(#[trigger] pieces(s, c)[i]).contains(c),
    decreases s.len(),
{
    let p = pieces(s, c);
    if s.len() == 0 {
        assert(joined(p, seq![c]) =~= s);
    } else {
        let t = s.drop_last();
        let q = pieces(t, c);
        pieces_make_the_text(t, c);
        lemma_pieces_nonempty(t, c);
        assert(s =~= t.push(s.last()));
        if s.last() == c {
            assert(p.drop_last() =~= q);
            assert(joined(p, seq![c]) =~= s);
            assert forall|i: int| 0 <= i < p.len() implies !(#[trigger] p[i]).contains(c) by {
                if i < q.len() {
                    assert(p[i] == q[i]);
                }
            }
        } else {
            assert(p.drop_last() =~= q.drop_last());
            assert(joined(p, seq![c]) =~= joined(q, seq![c]).push(s.last()));
            assert forall|i: int| 0 <= i < p.len() implies !(#[trigger] p[i]).contains(c) by {
                if i < q.len() - 1 {
                    assert(p[i] == q[i]);
                } else {
                    let last = q.last();
                    assert(!q[q.len() - 1].contains(c));
                    if p[i].contains(c) {
                        let k = choose|k: int| 0 <= k < p[i].len() && p[i][k] == c;
                        assert(k < last.len());
                        assert(last[k] == c);
                    }
                }
            }
        }
    }
}

/// Texts without a character, joined by it, are cut to those texts again.
pub proof fn joined_texts_come_apart(parts: Seq<Text>, c: char)
    requires
        parts.len() > 0,
        forall|i: int| 0 <= i < parts.len() ==> !(#[trigger] parts[i]).contains(c),
    ensures
        pieces(joined(parts, seq![c]), c) == parts,
    decreases parts.len(),
{
    let last = parts.last();
    assert(last == parts[parts.len() - 1]);
    if parts.len() == 1 {
        let none = Seq::<char>::empty();
        lemma_pieces_go_on(none, last, c);
        assert(none + last =~= last);
        assert(pieces(last, c) =~= parts);
    } else {
        let init = parts.drop_last();
        assert forall|i: int| 0 <= i < init.len() implies !(#[trigger] init[i]).contains(c) by {
            assert(init[i] == parts[i]);
        }
        joined_texts_come_apart(init, c);
        let first = joined(init, seq![c]);
        let open = first + seq![c];
        assert(open.drop_last() =~= first);
        assert(open.last() == c);
        lemma_pieces_go_on(open, last, c);
        assert(pieces(open + last, c) =~= parts);
    }
}

/// What follows without the character goes on with the last piece.
proof fn lemma_pieces_go_on(s: Text, t: Text, c: char)
    requires
        !t.contains(c),
    ensures
        pieces(s + t, c) == pieces(s, c).drop_last().push(pieces(s, c).last() + t),
    decreases t.len(),
{
    lemma_pieces_nonempty(s, c);
    let p = pieces(s, c);
    if t.len() == 0 {
        assert(s + t =~= s);
        assert(p.last() + t =~= p.last());
        assert(p.drop_last().push(p.last()) =~= p);
    } else {
        let t0 = t.drop_last();
        assert(t[t.len() - 1] != c);
        assert(!t0.contains(c)) by {
            if t0.contains(c) {
                let k = choose|k: int| 0 <= k < t0.len() && t0[k] == c;
                assert(t[k] == c);
            }
        }
        lemma_pieces_go_on(s, t0, c);
        assert((s + t).drop_last() =~= s + t0);
        assert((s + t).last() == t.last());
        assert((p.last() + t0).push(t.last()) =~= p.last() + t);
        assert(pieces(s + t, c) =~= p.drop_last().push(p.last() + t));
    }
}

/// A line holds no line feed, and lines without carriage returns, with line feeds
/// between them, are the text again but for a line feed at its end.
pub proof fn lines_make_the_text(s: Text)
    ensures
        forall|i: int| 0 <= i < lines_of(s).len() ==> !(#[trigger] lines_of(s)[i]).contains('\n'),
        !s.contains('\r') && s.len() > 0 ==> ({
            let back = joined(lines_of(s), seq!['\n']);
            if s.last() == '\n' {
                back.push('\n') == s
            } else {
                back == s
            }
        }),
{
    let p = pieces(s, '\n');
    let l = lines_of(s);
    pieces_make_the_text(s, '\n');
    lemma_pieces_nonempty(s, '\n');
    assert forall|i: int| 0 <= i < l.len() implies !(#[trigger] l[i]).contains('\n') by {
        assert(!p[i].contains('\n'));
        if l[i].contains('\n') {
            let k = choose|k: int| 0 <= k < l[i].len() && l[i][k] == '\n';
            assert(p[i][k] == '\n');
        }
    }
    if !s.contains('\r') && s.len() > 0 {
        assert forall|i: int| 0 <= i < p.len() implies without_cr(#[trigger] p[i]) == p[i] by {
            if p[i].len() > 0 && p[i].last() == '\r' {
                every_part_is_joined(p, seq!['\n'], i);
                let k = choose|k: int| stands_at(s, p[i], k);
                let u = s.subrange(k, k + p[i].len());
                assert(u[u.len() - 1] == '\r');
                assert(s[k + p[i].len() - 1] == '\r');
            }
        }
        if p.last().len() == 0 {
            assert(l =~= p.drop_last());
            if p.len() == 1 {
                assert(joined(p, seq!['\n']).len() == 0);
            }
            assert(s =~= joined(l, seq!['\n']).push('\n'));
            assert(s.last() == '\n');
        } else {
            assert(l =~= p);
            if s.last() == '\n' {
                assert(s.last() == p.last().last());
                assert(!p[p.len() - 1].contains('\n'));
                assert(p.last().contains(p.last()[p.last().len() - 1]));
            }
        }
    }
}

/// Cutting at a character gives what stands before its first occurrence and what
/// stands behind it.
pub proof fn a_cut_is_at_the_first(s: Text, c: char)
    ensures
        match cut(s, c) {
            Some((head, rest)) => s == head + seq![c] + rest && !head.contains(c),
            None => !s.contains(c),
        },
{
    lemma_first_at(s, c);
    match cut(s, c) {
        Some((head, rest)) => {
            assert(s =~= head + seq![c] + rest);
            if head.contains(c) {
                let k = choose|k: int| 0 <= k < head.len() && head[k] == c;
                assert(s[k] == c);
            }
        },
        None => {},
    }
}

/// Replacing one character puts the other text wherever it stands and keeps the rest.
pub proof fn replacing_a_character(s: Text, c: char, t: Text)
    ensures
        replaced(s, seq![c], t) == joined(pieces(s, c), t),
    decreases s.len(),
{
    if s.len() == 0 {
        assert(joined(pieces(s, c), t) =~= s);
    } else {
        let init = s.drop_last();
        replacing_a_character(init, c, t);
        lemma_replaced_push(init, c, t, s.last());
        assert(init.push(s.last()) =~= s);
        let q = pieces(init, c);
        let p = pieces(s, c);
        lemma_pieces_nonempty(init, c);
        if s.last() == c {
            assert(p.drop_last() =~= q);
            assert(joined(p, t) =~= joined(q, t) + t);
        } else {
            assert(p.drop_last() =~= q.drop_last());
            assert(joined(p, t) =~= joined(q, t).push(s.last()));
        }
    }
}

/// One more character behind a text in which a character is replaced.
proof fn lemma_replaced_push(s: Text, c: char, t: Text, x: char)
    ensures
        replaced(s.push(x), seq![c], t) == replaced(s, seq![c], t) + if x == c {
            t
        } else {
            seq![x]
        },
    decreases s.len(),
{
    let p = seq![c];
    let all = s.push(x);
    assert(begins(all, p) == (all[0] == c)) by {
        assert(all.subrange(0, 1) =~= seq![all[0]]);
        if all[0] != c {
            assert(all.subrange(0, 1)[0] == all[0]);
        }
    }
    if s.len() == 0 {
        let none = Seq::<char>::empty();
        assert(all.subrange(1, all.len() as int) =~= none);
        assert(s =~= none);
        assert(replaced(none, p, t) == none);
        assert(replaced(all, p, t) =~= replaced(s, p, t) + if x == c {
            t
        } else {
            seq![x]
        });
    } else {
        let rest = s.subrange(1, s.len() as int);
        lemma_replaced_push(rest, c, t, x);
        assert(all.subrange(1, all.len() as int) =~= rest.push(x));
        assert(begins(s, p) == (s[0] == c)) by {
            assert(s.subrange(0, 1) =~= seq![s[0]]);
            if s[0] != c {
                assert(s.subrange(0, 1)[0] == s[0]);
            }
        }
        assert(replaced(all, p, t) =~= replaced(s, p, t) + if x == c {
            t
        } else {
            seq![x]
        });
    }
}

/// The first characters of a text are a beginning of it, as long as they may be.
pub proof fn a_prefix_is_a_beginning(s: Text, n: nat)
    ensures
        begins(s, prefix(s, n)),
        prefix(s, n).len() == if s.len() < n {
            s.len()
        } else {
            n
        },
{
    assert(s.subrange(0, prefix(s, n).len() as int) =~= prefix(s, n));
}

/// The digits of a number are digits, do not begin with a zero unless the number is
/// zero, and have its value.
pub proof fn digits_have_the_value(n: nat)
    ensures
        all_digits(decimal(n)),
        digits_value(decimal(n)) == n,
        decimal(n).len() > 1 ==> decimal(n)[0] != '0',
        n > 0 ==> decimal(n)[0] != '0',
    decreases n,
{
    let s = decimal(n);
    if n < 10 {
        assert(s.drop_last() =~= Seq::<char>::empty());
        assert(digits_value(s.drop_last()) == 0);
        assert(s[0] as u32 == 48 + n);
        assert(s.last() as u32 == 48 + n);
    } else {
        digits_have_the_value(n / 10);
        let t = decimal(n / 10);
        assert(s.drop_last() =~= t);
        assert(s.last() as u32 == 48 + n % 10);
        assert(s[0] == t[0]);
        assert forall|i: int| 0 <= i < s.len() implies is_digit(#[trigger] s[i]) by {
            if i < t.len() {
                assert(s[i] == t[i]);
            }
        }
    }
}

/// A number that is written is read as that number.
pub proof fn a_number_is_read_back(i: int)
    ensures
        int_value(int_text(i)) == Some(i),
        i64::MIN <= i <= i64::MAX ==> i64_value(int_text(i)) == Some(i as i64),
        0 <= i <= u64::MAX ==> u64_value(int_text(i)) == Some(i as u64),
        i >= 0 ==> int_text(i) == decimal(i as nat) && all_digits(int_text(i)),
{
    let s = int_text(i);
    if i < 0 {
        let d = decimal((-i) as nat);
        digits_have_the_value((-i) as nat);
        assert(s.subrange(1, s.len() as int) =~= d);
        assert(!is_digit(s[0]));
    } else {
        digits_have_the_value(i as nat);
        assert(is_digit(s[0]));
    }
}

/// Two numbers that are written alike are the same.
pub proof fn different_numbers_differ(a: nat, b: nat)
    ensures
        decimal(a) == decimal(b) ==> a == b,
{
    digits_have_the_value(a);
    digits_have_the_value(b);
}

/// Small letters: each character stays but for the capital letters of ASCII, and no
/// capital letter is left.
pub proof fn small_letters_are_small(s: Text)
    ensures
        ascii_lower(s).len() == s.len(),
        no_capitals(ascii_lower(s)),
        ascii_lower(ascii_lower(s)) == ascii_lower(s),
        forall|i: int|
            0 <= i < s.len() && !('A' <= #[trigger] s[i] && s[i] <= 'Z') ==> ascii_lower(s)[i]
                == s[i],
        forall|i: int|
            0 <= i < s.len() && 'A' <= #[trigger] s[i] && s[i] <= 'Z' ==> ascii_lower(s)[i] as int
                == s[i] as int + 32,
{
    assert(ascii_lower(ascii_lower(s)) =~= ascii_lower(s));
}

/// What stands behind a beginning: beginning and rest are the text, and the beginning
/// is the asked one but for the case of its letters.
pub proof fn what_is_behind_follows(s: Text, p: Text)
    ensures
        match behind(s, p) {
            Some(rest) => s == s.subrange(0, p.len() as int) + rest && ascii_lower(
                s.subrange(0, p.len() as int),
            ) == ascii_lower(p),
            None => !begins(s, p),
        },
        behind(p + s, p) == Some(s),
{
    match behind(s, p) {
        Some(rest) => {
            assert(s =~= s.subrange(0, p.len() as int) + rest);
        },
        None => {},
    }
    assert((p + s).subrange(0, p.len() as int) =~= p);
    assert((p + s).subrange(p.len() as int, (p + s).len() as int) =~= s);
}

/// Of two texts the one goes before whose first different character is smaller, or
/// that the other goes on from.
pub proof fn the_first_difference_decides(p: Text, c: char, d: char, x: Text, y: Text)
    ensures
        (c as int) < (d as int) ==> before(p + seq![c] + x, p + seq![d] + y),
        before(p, p + seq![c] + x),
    decreases p.len(),
{
    let a = p + seq![c] + x;
    let b = p + seq![d] + y;
    if p.len() > 0 {
        let q = p.subrange(1, p.len() as int);
        the_first_difference_decides(q, c, d, x, y);
        assert(a.subrange(1, a.len() as int) =~= q + seq![c] + x);
        assert(b.subrange(1, b.len() as int) =~= q + seq![d] + y);
        assert(a[0] == p[0] && b[0] == p[0]);
    } else {
        assert(a[0] == c && b[0] == d);
    }
}

/// The place of the last of some characters: behind it stands none of them.
pub proof fn the_last_place_is_the_last(s: Text, set: Text)
    ensures
        match last_in(s, set) {
            Some(i) => 0 <= i < s.len() && set.contains(s[i]) && forall|k: int|
                i < k < s.len() ==> !set.contains(#[trigger] s[k]),
            None => forall|k: int| 0 <= k < s.len() ==> !set.contains(#[trigger] s[k]),
        },
    decreases s.len(),
{
    if s.len() > 0 && !set.contains(s.last()) {
        the_last_place_is_the_last(s.drop_last(), set);
        let t = s.drop_last();
        assert forall|k: int| 0 <= k < t.len() implies t[k] == #[trigger] s[k] by {}
    }
}

/// The characters of a text that are no white space.
pub open spec fn without_white(s: Text) -> Text
    decreases s.len(),
{
    if s.len() == 0 {
        s
    } else if is_white(s.last()) {
        without_white(s.drop_last())
    } else {
        without_white(s.drop_last()).push(s.last())
    }
}

/// Words in a row without anything between them.
pub open spec fn run_together(w: Seq<Text>) -> Text {
    joined(w, Seq::<char>::empty())
}

/// Every character of a text that is no white space stands in one of its words, in
/// order, and no word is empty or holds white space.
pub proof fn words_hold_every_character(s: Text)
    ensures
        run_together(words_of(s)) == without_white(s),
        forall|i: int|
            0 <= i < words_of(s).len() ==> (#[trigger] words_of(s)[i]).len() > 0 && forall|k: int|
                0 <= k < words_of(s)[i].len() ==> !is_white(#[trigger] words_of(s)[i][k]),
{
    lemma_words_hold(s);
    let (w, cur) = words_open(s);
    lemma_closed(w, cur);
    let all = words_of(s);
    assert forall|i: int| 0 <= i < all.len() implies (#[trigger] all[i]).len() > 0 && forall|k: int|
        0 <= k < all[i].len() ==> !is_white(#[trigger] all[i][k]) by {
        if i < w.len() {
            assert(all[i] == w[i]);
        }
    }
}

proof fn lemma_closed(w: Seq<Text>, cur: Text)
    ensures
        run_together(closed_words(w, cur)) == run_together(w) + cur,
{
    if cur.len() == 0 {
        assert(run_together(w) + cur =~= run_together(w));
    } else {
        assert(w.push(cur).drop_last() =~= w);
        assert(run_together(w.push(cur)) =~= run_together(w) + cur);
    }
}

proof fn lemma_words_hold(s: Text)
    ensures
        run_together(words_open(s).0) + words_open(s).1 == without_white(s),
        forall|i: int|
            0 <= i < words_open(s).0.len() ==> (#[trigger] words_open(s).0[i]).len() > 0
                && forall|k: int|
                0 <= k < words_open(s).0[i].len() ==> !is_white(#[trigger] words_open(s).0[i][k]),
        forall|k: int| 0 <= k < words_open(s).1.len() ==> !is_white(#[trigger] words_open(s).1[k]),
    decreases s.len(),
{
    if s.len() == 0 {
        assert(run_together(words_open(s).0) + words_open(s).1 =~= s);
    } else {
        let t = s.drop_last();
        lemma_words_hold(t);
        let (w0, cur0) = words_open(t);
        let (w, cur) = words_open(s);
        lemma_closed(w0, cur0);
        assert forall|i: int| 0 <= i < w.len() implies (#[trigger] w[i]).len() > 0 && forall|k: int|
            0 <= k < w[i].len() ==> !is_white(#[trigger] w[i][k]) by {
            if i < w0.len() {
                assert(w[i] == w0[i]);
            }
        }
        assert(run_together(w) + cur =~= without_white(s));
    }
}

/// Two texts that are made alike of a head without a character, the character and a
/// rest have the same head and the same rest.
pub proof fn what_is_parted_alike_is_alike(a: Text, x: Text, b: Text, y: Text, c: char)
    requires
        a + seq![c] + x == b + seq![c] + y,
        !a.contains(c),
        !b.contains(c),
    ensures
        a == b,
        x == y,
{
    let s = a + seq![c] + x;
    let t = b + seq![c] + y;
    assert(s[a.len() as int] == c);
    assert(t[b.len() as int] == c);
    if a.len() < b.len() {
        assert(t[a.len() as int] == b[a.len() as int]);
        assert(b.contains(b[a.len() as int]));
    }
    if b.len() < a.len() {
        assert(s[b.len() as int] == a[b.len() as int]);
        assert(a.contains(a[b.len() as int]));
    }
    assert(s.subrange(0, a.len() as int) =~= a);
    assert(t.subrange(0, b.len() as int) =~= b);
    assert(s.subrange((a.len() + 1) as int, s.len() as int) =~= x);
    assert(t.subrange((b.len() + 1) as int, t.len() as int) =~= y);
}

/// Two texts that begin alike are alike where their rests are, and only there.
pub proof fn alike_behind_a_head(p: Text, x: Text, y: Text)
    ensures
        p + x == p + y ==> x == y,
{
    assert((p + x).subrange(p.len() as int, (p + x).len() as int) =~= x);
    assert((p + y).subrange(p.len() as int, (p + y).len() as int) =~= y);
}

/// Two texts that end alike are alike where what stands before the end is, and only
/// there.
pub proof fn alike_before_a_tail(x: Text, y: Text, p: Text)
    ensures
        x + p == y + p ==> x == y,
{
    assert((x + p).subrange(0, (x + p).len() - p.len()) =~= x);
    assert((y + p).subrange(0, (y + p).len() - p.len()) =~= y);
}

/// The digits of a number hold no other character.
pub proof fn digits_hold_digits(n: nat, c: char)
    requires
        !is_digit(c),
    ensures
        !decimal(n).contains(c),
{
    digits_have_the_value(n);
    if decimal(n).contains(c) {
        let k = choose|k: int| 0 <= k < decimal(n).len() && decimal(n)[k] == c;
        assert(is_digit(decimal(n)[k]));
    }
}

/// What is dropped at the back meets the test.
pub proof fn what_is_dropped_at_the_back(s: Text, p: spec_fn(char) -> bool)
    ensures
        forall|i: int| drop_back(s, p).len() <= i < s.len() ==> p(#[trigger] s[i]),
{
    lemma_dropped_back(s, p);
}

/// What occurs in a text occurs where that text does.
pub proof fn occurring_passes_on(s: Text, t: Text, u: Text)
    requires
        has(s, t),
        has(t, u),
    ensures
        has(s, u),
{
    let i = choose|i: int| stands_at(s, t, i);
    let k = choose|k: int| stands_at(t, u, k);
    assert(s.subrange(i, i + t.len()) == t);
    assert(s.subrange(i + k, i + k + u.len()) =~= t.subrange(k, k + u.len()));
    assert(stands_at(s, u, i + k));
}

/// The first piece is what stands before the first of the characters, whatever follows.
pub proof fn first_piece_stays(a: Text, c: char, b: Text)
    requires
        !a.contains(c),
    ensures
        pieces(a + seq![c] + b, c)[0] == a,
    decreases b.len(),
{
    let s = a + seq![c] + b;
    if b.len() == 0 {
        assert(s.drop_last() =~= a);
        joined_texts_come_apart(seq![a], c);
        assert(joined(seq![a], seq![c]) == a);
        assert(pieces(a, c) == seq![a]);
    } else {
        first_piece_stays(a, c, b.drop_last());
        assert(s.drop_last() =~= a + seq![c] + b.drop_last());
        let p = pieces(s.drop_last(), c);
        lemma_two_pieces(a, c, b.drop_last());
    }
}

/// Where the character stands there are two pieces at least.
proof fn lemma_two_pieces(a: Text, c: char, b: Text)
    ensures
        pieces(a + seq![c] + b, c).len() >= 2,
    decreases b.len(),
{
    let s = a + seq![c] + b;
    if b.len() == 0 {
        assert(s.drop_last() =~= a);
        lemma_pieces_nonempty(a, c);
    } else {
        lemma_two_pieces(a, c, b.drop_last());
        assert(s.drop_last() =~= a + seq![c] + b.drop_last());
    }
}

/// Behind a word without white space a text is trimmed only at its end: what stands
/// behind the word, trimmed, is the text, trimmed.
pub proof fn trimming_behind_a_word(p: Text, s: Text)
    requires
        p.len() > 0,
        !is_white(p[0]),
        !is_white(p.last()),
    ensures
        begins(trimmed(p + s), p),
        behind(trimmed(p + s), p) matches Some(rest) && trimmed(rest) == trimmed(s) && (rest.len()
            > 0 ==> rest[0] == s[0] && s.len() > 0),
{
    let w = whites();
    let all = p + s;
    assert(all[0] == p[0]);
    assert(!w(all[0]));
    lemma_drop_front(all, w, 0);
    assert(all.subrange(0, all.len() as int) =~= all);
    let t = drop_back(all, w);
    lemma_drop_back_ends(all, w);
    lemma_dropped_back(all, w);
    let n = p.len() as int;
    assert(t.len() >= n) by {
        if t.len() < n {
            assert(w(all[n - 1]));
            assert(all[n - 1] == p.last());
        }
    }
    assert(t.subrange(0, n) =~= p);
    let rest = t.subrange(n, t.len() as int);
    assert(rest =~= s.subrange(0, rest.len() as int));
    assert forall|i: int| rest.len() <= i < s.len() implies w(#[trigger] s[i]) by {
        assert(all[n + i] == s[i]);
    }
    if rest.len() > 0 {
        assert(rest.last() == t.last());
        assert(!w(t[t.len() - 1]));
        assert(rest[0] == s[0]);
    }
    lemma_trimmed_cut(s, rest.len() as int);
}

/// A text that ends with white space is trimmed as it is without that.
proof fn lemma_trimmed_cut(s: Text, k: int)
    requires
        0 <= k <= s.len(),
        forall|i: int| k <= i < s.len() ==> is_white(#[trigger] s[i]),
        k > 0 ==> !is_white(s[k - 1]),
    ensures
        trimmed(s.subrange(0, k)) == trimmed(s),
{
    let w = whites();
    let r = s.subrange(0, k);
    if k == 0 {
        lemma_drop_front(s, w, s.len() as int);
        assert(s.subrange(s.len() as int, s.len() as int) =~= r);
        lemma_drop_front(r, w, 0);
        assert(r.subrange(0, 0) =~= r);
    } else {
        lemma_dropped_front(s, w);
        lemma_drop_front_ends(s, w);
        let f = drop_front(s, w);
        let a = s.len() - f.len();
        assert(a < k) by {
            if a >= k {
                assert(w(s[k - 1]));
            }
        }
        assert(f[0] == s[a]);
        assert forall|i: int| 0 <= i < a implies w(#[trigger] r[i]) by {
            assert(r[i] == s[i]);
        }
        assert(r[a] == s[a]);
        assert(!w(r[a]));
        lemma_drop_front(r, w, a);
        let g = drop_front(r, w);
        assert(g =~= s.subrange(a, k));
        assert(f =~= s.subrange(a, s.len() as int));
        assert forall|i: int| k - a <= i < f.len() implies w(#[trigger] f[i]) by {
            assert(f[i] == s[a + i]);
        }
        assert(f[k - a - 1] == s[k - 1]);
        lemma_drop_back(f, w, k - a);
        assert(f.subrange(0, k - a) =~= g);
        assert(g[g.len() - 1] == s[k - 1]);
        assert(!w(g[g.len() - 1]));
    }
}

/// Capitals: each character stays but for the small letters of ASCII, and putting a text
/// into capitals does not change it in small letters.
pub proof fn capitals_are_the_same_letters(s: Text)
    ensures
        ascii_upper(s).len() == s.len(),
        ascii_lower(ascii_upper(s)) == ascii_lower(s),
        ascii_upper(ascii_lower(s)) == ascii_upper(s),
        forall|i: int|
            0 <= i < s.len() && !('a' <= #[trigger] s[i] && s[i] <= 'z') ==> ascii_upper(s)[i]
                == s[i],
{
    assert forall|i: int| 0 <= i < s.len() implies ascii_lower_char(
        ascii_upper_char(#[trigger] s[i]),
    ) == ascii_lower_char(s[i]) && ascii_upper_char(ascii_lower_char(s[i])) == ascii_upper_char(
        s[i],
    ) by {}
    assert(ascii_lower(ascii_upper(s)) =~= ascii_lower(s));
    assert(ascii_upper(ascii_lower(s)) =~= ascii_upper(s));
}

} // verus!
