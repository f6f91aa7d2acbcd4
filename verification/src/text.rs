//! Text as sequences of characters: the handful of string operations that the
//! rest of the library is built from, each with an exact meaning.
use vstd::prelude::*;
use vstd::string::*;

verus! {

broadcast use vstd::string::group_string_axioms;

/// `String::push`: appends one character and changes nothing else.
pub assume_specification[ String::push ](s: &mut String, c: char)
    ensures
        final(s)@ == old(s)@.push(c),
;

// ---------------------------------------------------------------------------
// Meaning
// ---------------------------------------------------------------------------
/// The characters with the Unicode property `White_Space`.
pub open spec fn is_white(c: char) -> bool {
    ||| ('\u{9}' <= c && c <= '\u{d}')
    ||| c == ' '
    ||| c == '\u{85}'
    ||| c == '\u{a0}'
    ||| c == '\u{1680}'
    ||| ('\u{2000}' <= c && c <= '\u{200a}')
    ||| c == '\u{2028}'
    ||| c == '\u{2029}'
    ||| c == '\u{202f}'
    ||| c == '\u{205f}'
    ||| c == '\u{3000}'
}

/// An ASCII digit.
pub open spec fn is_digit(c: char) -> bool {
    '0' <= c && c <= '9'
}

/// An ASCII letter or digit.
pub open spec fn is_alnum(c: char) -> bool {
    ('a' <= c && c <= 'z') || ('A' <= c && c <= 'Z') || is_digit(c)
}

/// `s` without its leading white space.
pub open spec fn trim_start(s: Seq<char>) -> Seq<char>
    decreases s.len(),
{
    if s.len() > 0 && is_white(s[0]) {
        trim_start(s.skip(1))
    } else {
        s
    }
}

/// `s` without its trailing white space.
pub open spec fn trim_end(s: Seq<char>) -> Seq<char>
    decreases s.len(),
{
    if s.len() > 0 && is_white(s.last()) {
        trim_end(s.drop_last())
    } else {
        s
    }
}

/// `s` without white space at either end.
pub open spec fn trim(s: Seq<char>) -> Seq<char> {
    trim_end(trim_start(s))
}

/// The position of the first `c` in `s`, or the length of `s` when there is none.
pub open spec fn find(s: Seq<char>, c: char) -> int
    decreases s.len(),
{
    if s.len() == 0 || s[0] == c {
        0
    } else {
        1 + find(s.skip(1), c)
    }
}

/// The pieces of `s` between the occurrences of `c`; always at least one piece.
pub open spec fn split(s: Seq<char>, c: char) -> Seq<Seq<char>>
    decreases s.len(),
    via split_decreases
{
    let n = find(s, c);
    if n < s.len() {
        seq![s.take(n)] + split(s.skip(n + 1), c)
    } else {
        seq![s]
    }
}

#[via_fn]
proof fn split_decreases(s: Seq<char>, c: char) {
    lemma_find(s, c);
}

/// `line` without one carriage return at its end.
pub open spec fn strip_cr(line: Seq<char>) -> Seq<char> {
    if line.len() > 0 && line.last() == '\r' {
        line.drop_last()
    } else {
        line
    }
}

/// The lines of `s`. A line ends in `\n` or `\r\n`, which is not part of it; the
/// last line may lack its line ending, and then keeps a carriage return.
pub open spec fn lines(s: Seq<char>) -> Seq<Seq<char>>
    decreases s.len(),
    via lines_decreases
{
    let n = find(s, '\n');
    if s.len() == 0 {
        seq![]
    } else if n < s.len() {
        seq![strip_cr(s.take(n))] + lines(s.skip(n + 1))
    } else {
        seq![s]
    }
}

#[via_fn]
proof fn lines_decreases(s: Seq<char>) {
    lemma_find(s, '\n');
}

/// The number of characters before the first white space of `s`.
pub open spec fn word_len(s: Seq<char>) -> int
    decreases s.len(),
{
    if s.len() == 0 || is_white(s[0]) {
        0
    } else {
        1 + word_len(s.skip(1))
    }
}

/// The words of `s`: its longest stretches without white space, in order.
pub open spec fn words(s: Seq<char>) -> Seq<Seq<char>>
    decreases s.len(),
    via words_decreases
{
    if s.len() == 0 {
        seq![]
    } else if is_white(s[0]) {
        words(s.skip(1))
    } else {
        seq![s.take(word_len(s))] + words(s.skip(word_len(s)))
    }
}

#[via_fn]
proof fn words_decreases(s: Seq<char>) {
    lemma_word_len(s);
}

/// The pieces one after the other, with `sep` between neighbours.
pub open spec fn join(parts: Seq<Seq<char>>, sep: Seq<char>) -> Seq<char>
    decreases parts.len(),
{
    if parts.len() == 0 {
        seq![]
    } else if parts.len() == 1 {
        parts[0]
    } else {
        parts[0] + sep + join(parts.skip(1), sep)
    }
}

/// `s` with every `c` replaced by `t`.
pub open spec fn replace_char(s: Seq<char>, c: char, t: Seq<char>) -> Seq<char>
    decreases s.len(),
{
    if s.len() == 0 {
        seq![]
    } else if s.last() == c {
        replace_char(s.drop_last(), c, t) + t
    } else {
        replace_char(s.drop_last(), c, t).push(s.last())
    }
}

/// The digit character of `d`.
pub open spec fn digit_char(d: nat) -> char {
    (48 + d) as char
}

/// `n` in decimal, without leading zeros.
pub open spec fn decimal(n: nat) -> Seq<char>
    decreases n,
{
    if n < 10 {
        seq![digit_char(n)]
    } else {
        decimal(n / 10).push(digit_char(n % 10))
    }
}

/// The contents of a list of strings.
pub open spec fn texts(v: Seq<String>) -> Seq<Seq<char>> {
    Seq::new(v.len(), |i: int| v[i]@)
}

/// The contents of a list of character vectors.
pub open spec fn vec_texts(v: Seq<Vec<char>>) -> Seq<Seq<char>> {
    Seq::new(v.len(), |i: int| v[i]@)
}

// ---------------------------------------------------------------------------
// Facts
// ---------------------------------------------------------------------------
/// `find` gives a position inside the text exactly when the character occurs,
/// and nothing before that position equals it.
pub proof fn lemma_find(s: Seq<char>, c: char)
    ensures
        0 <= find(s, c) <= s.len(),
        find(s, c) < s.len() ==> s[find(s, c)] == c,
        forall|i: int| 0 <= i < find(s, c) ==> s[i] != c,
        find(s, c) == s.len() <==> !s.contains(c),
    decreases s.len(),
{
    if s.len() > 0 && s[0] != c {
        lemma_find(s.skip(1), c);
        assert forall|i: int| 0 <= i < find(s, c) implies s[i] != c by {
            if i > 0 {
                assert(s[i] == s.skip(1)[i - 1]);
            }
        }
        if s.contains(c) {
            let j = choose|j: int| 0 <= j < s.len() && s[j] == c;
            assert(s.skip(1)[j - 1] == c);
        }
        if s.skip(1).contains(c) {
            let j = choose|j: int| 0 <= j < s.skip(1).len() && s.skip(1)[j] == c;
            assert(s[j + 1] == c);
        }
    } else if s.len() > 0 {
        assert(s[0] == c);
    }
}

/// A position with `c` and without `c` before it is the one that `find` gives.
pub proof fn lemma_find_unique(s: Seq<char>, c: char, n: int)
    requires
        0 <= n <= s.len(),
        n < s.len() ==> s[n] == c,
        forall|i: int| 0 <= i < n ==> s[i] != c,
    ensures
        find(s, c) == n,
{
    lemma_find(s, c);
    if find(s, c) < n {
        assert(s[find(s, c)] == c);
    }
}

/// `word_len` stops at the first white space.
pub proof fn lemma_word_len(s: Seq<char>)
    ensures
        0 <= word_len(s) <= s.len(),
        s.len() > 0 && !is_white(s[0]) ==> word_len(s) > 0,
        word_len(s) < s.len() ==> is_white(s[word_len(s)]),
        forall|i: int| 0 <= i < word_len(s) ==> !is_white(s[i]),
    decreases s.len(),
{
    if s.len() > 0 && !is_white(s[0]) {
        lemma_word_len(s.skip(1));
        assert forall|i: int| 0 <= i < word_len(s) implies !is_white(s[i]) by {
            if i > 0 {
                assert(s[i] == s.skip(1)[i - 1]);
            }
        }
    }
}

/// The first white space decides `word_len`.
pub proof fn lemma_word_len_unique(s: Seq<char>, n: int)
    requires
        0 <= n <= s.len(),
        n < s.len() ==> is_white(s[n]),
        forall|i: int| 0 <= i < n ==> !is_white(s[i]),
    ensures
        word_len(s) == n,
{
    lemma_word_len(s);
    if word_len(s) < n {
        assert(is_white(s[word_len(s)]));
    }
}

// ---------------------------------------------------------------------------
// Operations
// ---------------------------------------------------------------------------
/// Tests for white space.
pub fn char_is_white(c: char) -> (r: bool)
    ensures
        r == is_white(c),
{
    ('\u{9}' <= c && c <= '\u{d}') || c == ' ' || c == '\u{85}' || c == '\u{a0}' || c == '\u{1680}'
        || ('\u{2000}' <= c && c <= '\u{200a}') || c == '\u{2028}' || c == '\u{2029}' || c
        == '\u{202f}' || c == '\u{205f}' || c == '\u{3000}'
}

/// Tests for an ASCII digit.
pub fn char_is_digit(c: char) -> (r: bool)
    ensures
        r == is_digit(c),
{
    '0' <= c && c <= '9'
}

/// Tests for an ASCII letter or digit.
pub fn char_is_alnum(c: char) -> (r: bool)
    ensures
        r == is_alnum(c),
{
    ('a' <= c && c <= 'z') || ('A' <= c && c <= 'Z') || ('0' <= c && c <= '9')
}

/// The characters of a string.
pub fn to_chars(s: &str) -> (r: Vec<char>)
    ensures
        r@ == s@,
{
    let mut v: Vec<char> = Vec::new();
    for c in it: s.chars()
        invariant
            it.seq() == s@,
            v@ == it.seq().take(it.index()),
    {
        assert(it.seq().take(it.index() + 1) == it.seq().take(it.index()).push(c));
        v.push(c);
    }
    assert(s@.take(s@.len() as int) == s@);
    v
}

/// The string of some characters.
pub fn to_text(v: &[char]) -> (r: String)
    ensures
        r@ == v@,
{
    let mut s: String = String::new();
    for i in 0..v.len()
        invariant
            s@ == v@.take(i as int),
    {
        assert(v@.take(i + 1) == v@.take(i as int).push(v@[i as int]));
        s.push(v[i]);
    }
    assert(v@.take(v@.len() as int) == v@);
    s
}

/// Tests two strings for equality.
pub fn same_text(a: &str, b: &str) -> (r: bool)
    ensures
        r == (a@ == b@),
{
    let x: String = a.to_owned();
    let y: String = b.to_owned();
    x == y
}

/// Tests two character sequences for equality.
pub fn same_chars(a: &[char], b: &[char]) -> (r: bool)
    ensures
        r == (a@ == b@),
{
    if a.len() != b.len() {
        return false;
    }
    let mut i: usize = 0;
    while i < a.len()
        invariant
            i <= a.len(),
            a.len() == b.len(),
            forall|j: int| 0 <= j < i ==> a@[j] == b@[j],
        decreases a.len() - i,
    {
        if a[i] != b[i] {
            assert(a@[i as int] != b@[i as int]);
            return false;
        }
        i = i + 1;
    }
    assert(a@ =~= b@);
    true
}

/// The characters of `s` from `from` up to `to`.
pub fn slice_of(s: &[char], from: usize, to: usize) -> (r: Vec<char>)
    requires
        from <= to <= s@.len(),
    ensures
        r@ == s@.subrange(from as int, to as int),
{
    let mut v: Vec<char> = Vec::new();
    let mut i: usize = from;
    while i < to
        invariant
            from <= i <= to <= s@.len(),
            v@ == s@.subrange(from as int, i as int),
        decreases to - i,
    {
        assert(s@.subrange(from as int, i + 1) == s@.subrange(from as int, i as int).push(
            s@[i as int],
        ));
        v.push(s[i]);
        i = i + 1;
    }
    v
}

/// The position of the first `c`, or the length of `s`.
pub fn find_char(s: &[char], c: char) -> (r: usize)
    ensures
        r == find(s@, c),
{
    let mut i: usize = 0;
    while i < s.len() && s[i] != c
        invariant
            i <= s.len(),
            forall|j: int| 0 <= j < i ==> s@[j] != c,
        decreases s.len() - i,
    {
        i = i + 1;
    }
    proof {
        lemma_find_unique(s@, c, i as int);
    }
    i
}

/// Dropping leading white space one step at a time reaches `trim_start`.
proof fn lemma_trim_start_from(s: Seq<char>, i: int)
    requires
        0 <= i <= s.len(),
        forall|j: int| 0 <= j < i ==> is_white(s[j]),
    ensures
        trim_start(s) == trim_start(s.skip(i)),
    decreases i,
{
    if i > 0 {
        assert forall|j: int| 0 <= j < i - 1 implies is_white(s.skip(1)[j]) by {
            assert(s.skip(1)[j] == s[j + 1]);
        }
        lemma_trim_start_from(s.skip(1), i - 1);
        assert(s.skip(1).skip(i - 1) == s.skip(i));
        assert(is_white(s[0]));
    } else {
        assert(s.skip(0) == s);
    }
}

/// Dropping trailing white space one step at a time reaches `trim_end`.
proof fn lemma_trim_end_from(s: Seq<char>, n: int)
    requires
        0 <= n <= s.len(),
        forall|j: int| n <= j < s.len() ==> is_white(s[j]),
    ensures
        trim_end(s) == trim_end(s.take(n)),
    decreases s.len() - n,
{
    if n < s.len() {
        lemma_trim_end_from(s.drop_last(), n);
        assert(s.drop_last().take(n) == s.take(n));
        assert(is_white(s.last()));
    } else {
        assert(s.take(n) == s);
    }
}

/// `s` without white space at either end.
pub fn trimmed(s: &[char]) -> (r: Vec<char>)
    ensures
        r@ == trim(s@),
{
    let mut a: usize = 0;
    while a < s.len() && char_is_white(s[a])
        invariant
            a <= s.len(),
            forall|j: int| 0 <= j < a ==> is_white(s@[j]),
        decreases s.len() - a,
    {
        a = a + 1;
    }
    proof {
        lemma_trim_start_from(s@, a as int);
        assert(trim_start(s@) == s@.skip(a as int)) by {
            if a < s@.len() {
                assert(s@.skip(a as int)[0] == s@[a as int]);
            }
        }
    }
    let mut b: usize = s.len();
    while b > a && char_is_white(s[b - 1])
        invariant
            a <= b <= s.len(),
            forall|j: int| b <= j < s.len() ==> is_white(s@[j]),
        decreases b,
    {
        b = b - 1;
    }
    proof {
        let t = s@.skip(a as int);
        assert forall|j: int| b - a <= j < t.len() implies is_white(t[j]) by {
            assert(t[j] == s@[j + a]);
        }
        lemma_trim_end_from(t, b - a);
        let u = t.take(b - a);
        assert(u == s@.subrange(a as int, b as int));
        if b > a {
            assert(u.last() == s@[b - 1]);
        }
        assert(trim_end(u) == u);
    }
    slice_of(s, a, b)
}

/// `a` followed by what is left of a text after its first `n` characters.
proof fn lemma_skip_skip(s: Seq<char>, m: int, n: int)
    requires
        0 <= m,
        0 <= n,
        m + n <= s.len(),
    ensures
        s.skip(m).skip(n) == s.skip(m + n),
{
    assert(s.skip(m).skip(n) =~= s.skip(m + n));
}

/// The pieces of `s` between the occurrences of `c`.
pub fn split_at_char(s: &[char], c: char) -> (r: Vec<Vec<char>>)
    ensures
        vec_texts(r@) == split(s@, c),
        r@.len() > 0,
{
    let mut out: Vec<Vec<char>> = Vec::new();
    let mut start: usize = 0;
    let mut i: usize = 0;
    proof {
        assert(s@.skip(0) == s@);
        assert(vec_texts(out@) + split(s@.skip(0), c) == split(s@, c));
    }
    while i < s.len()
        invariant
            start <= i <= s.len(),
            forall|j: int| start <= j < i ==> s@[j] != c,
            vec_texts(out@) + split(s@.skip(start as int), c) == split(s@, c),
        decreases s.len() - i,
    {
        if s[i] == c {
            let ghost before = vec_texts(out@);
            let ghost rest = s@.skip(start as int);
            proof {
                lemma_find_unique(rest, c, i - start);
                lemma_skip_skip(s@, start as int, i - start + 1);
                assert(rest.take(i - start) == s@.subrange(start as int, i as int));
            }
            let piece = slice_of(s, start, i);
            out.push(piece);
            start = i + 1;
            proof {
                assert(vec_texts(out@) == before.push(rest.take(find(rest, c))));
                assert(vec_texts(out@) + split(s@.skip(start as int), c) =~= before + split(
                    rest,
                    c,
                ));
            }
        }
        i = i + 1;
    }
    let ghost before = vec_texts(out@);
    let ghost rest = s@.skip(start as int);
    proof {
        lemma_find_unique(rest, c, i - start);
        assert(rest == s@.subrange(start as int, i as int));
    }
    let piece = slice_of(s, start, s.len());
    out.push(piece);
    proof {
        assert(vec_texts(out@) =~= before + split(rest, c));
    }
    out
}

/// The lines of `s`.
pub fn split_lines(s: &[char]) -> (r: Vec<Vec<char>>)
    ensures
        vec_texts(r@) == lines(s@),
{
    let mut out: Vec<Vec<char>> = Vec::new();
    let mut start: usize = 0;
    let mut i: usize = 0;
    proof {
        assert(s@.skip(0) == s@);
        assert(vec_texts(out@) + lines(s@.skip(0)) == lines(s@));
    }
    while i < s.len()
        invariant
            start <= i <= s.len(),
            forall|j: int| start <= j < i ==> s@[j] != '\n',
            vec_texts(out@) + lines(s@.skip(start as int)) == lines(s@),
        decreases s.len() - i,
    {
        if s[i] == '\n' {
            let ghost before = vec_texts(out@);
            let ghost rest = s@.skip(start as int);
            proof {
                lemma_find_unique(rest, '\n', i - start);
                lemma_skip_skip(s@, start as int, i - start + 1);
                assert(rest.take(i - start) == s@.subrange(start as int, i as int));
            }
            let end: usize = if i > start && s[i - 1] == '\r' {
                i - 1
            } else {
                i
            };
            let piece = slice_of(s, start, end);
            proof {
                assert(piece@ =~= strip_cr(rest.take(find(rest, '\n'))));
            }
            out.push(piece);
            start = i + 1;
            proof {
                assert(vec_texts(out@) == before.push(strip_cr(rest.take(find(rest, '\n')))));
                assert(vec_texts(out@) + lines(s@.skip(start as int)) =~= before + lines(rest));
            }
        }
        i = i + 1;
    }
    let ghost before = vec_texts(out@);
    let ghost rest = s@.skip(start as int);
    proof {
        lemma_find_unique(rest, '\n', i - start);
        assert(rest == s@.subrange(start as int, i as int));
    }
    if start < s.len() {
        let piece = slice_of(s, start, s.len());
        out.push(piece);
    }
    proof {
        assert(vec_texts(out@) =~= before + lines(rest));
    }
    out
}

/// The words of `s`.
pub fn split_words(s: &[char]) -> (r: Vec<Vec<char>>)
    ensures
        vec_texts(r@) == words(s@),
{
    let mut out: Vec<Vec<char>> = Vec::new();
    let mut i: usize = 0;
    proof {
        assert(s@.skip(0) == s@);
        assert(vec_texts(out@) + words(s@.skip(0)) == words(s@));
    }
    while i < s.len()
        invariant
            i <= s.len(),
            vec_texts(out@) + words(s@.skip(i as int)) == words(s@),
        decreases s.len() - i,
    {
        let ghost rest = s@.skip(i as int);
        assert(rest[0] == s@[i as int]);
        if char_is_white(s[i]) {
            i = i + 1;
            proof {
                lemma_skip_skip(s@, i - 1, 1);
            }
        } else {
            let ghost before = vec_texts(out@);
            let mut j: usize = i;
            while j < s.len() && !char_is_white(s[j])
                invariant
                    i <= j <= s.len(),
                    forall|k: int| i <= k < j ==> !is_white(s@[k]),
                decreases s.len() - j,
            {
                j = j + 1;
            }
            proof {
                lemma_word_len_unique(rest, j - i);
                assert(rest.take(j - i) == s@.subrange(i as int, j as int));
                lemma_skip_skip(s@, i as int, j - i);
                lemma_word_len(rest);
            }
            let piece = slice_of(s, i, j);
            out.push(piece);
            i = j;
            proof {
                assert(vec_texts(out@) == before.push(rest.take(word_len(rest))));
                assert(vec_texts(out@) + words(s@.skip(i as int)) =~= before + words(rest));
            }
        }
    }
    proof {
        assert(s@.skip(i as int) =~= seq![]);
        assert(vec_texts(out@) =~= words(s@));
    }
    out
}

/// Appends the characters of `t`.
pub fn push_chars(v: &mut Vec<char>, t: &[char])
    ensures
        final(v)@ == old(v)@ + t@,
{
    let ghost before = v@;
    let mut i: usize = 0;
    while i < t.len()
        invariant
            i <= t.len(),
            v@ == before + t@.take(i as int),
        decreases t.len() - i,
    {
        assert(before + t@.take(i + 1) == (before + t@.take(i as int)).push(t@[i as int]));
        v.push(t[i]);
        i = i + 1;
    }
    assert(t@.take(t@.len() as int) == t@);
}

/// Adding one piece at the end.
pub proof fn lemma_join_push(parts: Seq<Seq<char>>, sep: Seq<char>, p: Seq<char>)
    requires
        parts.len() > 0,
    ensures
        join(parts.push(p), sep) == join(parts, sep) + sep + p,
    decreases parts.len(),
{
    let all = parts.push(p);
    if parts.len() == 1 {
        assert(all.skip(1) =~= seq![p]);
        assert(join(all.skip(1), sep) == p);
        assert(join(all, sep) == parts[0] + sep + p);
    } else {
        lemma_join_push(parts.skip(1), sep, p);
        assert(all.skip(1) =~= parts.skip(1).push(p));
        assert(join(all, sep) =~= join(parts, sep) + sep + p);
    }
}

/// The strings one after the other, with `sep` between neighbours.
pub fn join_texts(parts: &[String], sep: &str) -> (r: String)
    ensures
        r@ == join(texts(parts@), sep@),
{
    let mut out: String = String::new();
    let mut i: usize = 0;
    while i < parts.len()
        invariant
            i <= parts.len(),
            out@ == join(texts(parts@).take(i as int), sep@),
        decreases parts.len() - i,
    {
        let ghost done = texts(parts@).take(i as int);
        proof {
            assert(texts(parts@).take(i + 1) =~= done.push(parts@[i as int]@));
            if i > 0 {
                lemma_join_push(done, sep@, parts@[i as int]@);
            }
        }
        if i > 0 {
            out.append(sep);
        }
        out.append(parts[i].as_str());
        i = i + 1;
    }
    assert(texts(parts@).take(parts@.len() as int) =~= texts(parts@));
    out
}

/// `s` with every `c` replaced by `t`.
pub fn replaced(s: &str, c: char, t: &str) -> (r: String)
    ensures
        r@ == replace_char(s@, c, t@),
{
    let v = to_chars(s);
    let mut out: String = String::new();
    let mut i: usize = 0;
    while i < v.len()
        invariant
            i <= v.len(),
            out@ == replace_char(v@.take(i as int), c, t@),
        decreases v.len() - i,
    {
        assert(v@.take(i + 1).drop_last() =~= v@.take(i as int));
        if v[i] == c {
            out.append(t);
        } else {
            out.push(v[i]);
        }
        i = i + 1;
    }
    assert(v@.take(v@.len() as int) =~= v@);
    out
}

/// The digit character of `d`.
fn digit_of(d: u8) -> (c: char)
    requires
        d < 10,
    ensures
        c == digit_char(d as nat),
{
    (48 + d) as char
}

/// `n` in decimal.
pub fn decimal_text(n: u64) -> (r: String)
    ensures
        r@ == decimal(n as nat),
    decreases n,
{
    if n < 10 {
        let mut s: String = String::new();
        s.push(digit_of(n as u8));
        assert(s@ =~= decimal(n as nat));
        s
    } else {
        let mut s: String = decimal_text(n / 10);
        s.push(digit_of((n % 10) as u8));
        s
    }
}

// ---------------------------------------------------------------------------
// Numbers
// ---------------------------------------------------------------------------
/// At least one character, and ASCII digits only.
pub open spec fn is_number(s: Seq<char>) -> bool {
    s.len() > 0 && forall|i: int| 0 <= i < s.len() ==> is_digit(#[trigger] s[i])
}

/// The number that a sequence of decimal digits stands for.
pub open spec fn number_value(s: Seq<char>) -> nat
    decreases s.len(),
{
    if s.len() == 0 {
        0
    } else {
        number_value(s.drop_last()) * 10 + (s.last() as nat - 48) as nat
    }
}

/// `decimal` writes digits only, stands for its argument, and has no leading zero.
pub proof fn lemma_decimal(n: nat)
    ensures
        is_number(decimal(n)),
        number_value(decimal(n)) == n,
        decimal(n)[0] == '0' ==> n == 0,
        n == 0 ==> decimal(n) == seq!['0'],
    decreases n,
{
    let s = decimal(n);
    if n < 10 {
        assert(s.drop_last() =~= seq![]);
        assert(number_value(s.drop_last()) == 0);
    } else {
        lemma_decimal(n / 10);
        assert(s.drop_last() =~= decimal(n / 10));
        assert(s[0] == decimal(n / 10)[0]);
        assert(is_digit(digit_char(n % 10)));
        assert forall|i: int| 0 <= i < s.len() implies is_digit(#[trigger] s[i]) by {
            if i < s.len() - 1 {
                assert(s[i] == decimal(n / 10)[i]);
            }
        }
    }
}

/// A number without a leading zero is the decimal text of its value.
pub proof fn lemma_number_is_decimal(s: Seq<char>)
    requires
        is_number(s),
        s.len() == 1 || s[0] != '0',
    ensures
        s == decimal(number_value(s)),
        s.len() > 1 ==> number_value(s) >= 10,
    decreases s.len(),
{
    let d = s.last();
    let init = s.drop_last();
    assert(is_digit(d));
    if s.len() == 1 {
        assert(init =~= seq![]);
        assert(number_value(init) == 0);
        assert(s =~= seq![digit_char(number_value(s))]);
    } else {
        assert(init[0] == s[0]);
        assert forall|i: int| 0 <= i < init.len() implies is_digit(#[trigger] init[i]) by {
            assert(init[i] == s[i]);
        }
        if init.len() == 1 {
            lemma_number_is_decimal(init);
            lemma_decimal(0);
            if number_value(init) == 0 {
                assert(init == decimal(0));
                assert(init[0] == '0');
            }
        } else {
            lemma_number_is_decimal(init);
        }
        let v = number_value(s);
        assert(v / 10 == number_value(init));
        assert(v % 10 == (d as nat - 48) as nat);
        assert(s =~= init.push(d));
    }
}

/// A longer number is at least as large as each of its beginnings.
proof fn lemma_number_prefix(s: Seq<char>, n: int)
    requires
        0 <= n <= s.len(),
    ensures
        number_value(s.take(n)) <= number_value(s),
    decreases s.len(),
{
    if n < s.len() {
        lemma_number_prefix(s.drop_last(), n);
        assert(s.drop_last().take(n) =~= s.take(n));
    } else {
        assert(s.take(n) =~= s);
    }
}

/// Reads a decimal number of at most `max`. Leading zeros are accepted.
pub fn read_number(s: &[char], max: u64) -> (r: Option<u64>)
    requires
        max < 0x1000_0000_0000_0000,
    ensures
        match r {
            Some(v) => is_number(s@) && v == number_value(s@) && v <= max,
            None => !is_number(s@) || number_value(s@) > max,
        },
{
    if s.len() == 0 {
        return None;
    }
    let mut v: u64 = 0;
    let mut i: usize = 0;
    assert(s@.take(0) =~= seq![]);
    while i < s.len()
        invariant
            i <= s.len(),
            max < 0x1000_0000_0000_0000,
            v <= max,
            forall|j: int| 0 <= j < i ==> is_digit(s@[j]),
            v == number_value(s@.take(i as int)),
        decreases s.len() - i,
    {
        let c = s[i];
        if !char_is_digit(c) {
            assert(!is_digit(s@[i as int]));
            return None;
        }
        let ghost t = s@.take(i + 1);
        proof {
            assert(t.drop_last() =~= s@.take(i as int));
            lemma_number_prefix(s@, i + 1);
        }
        v = v * 10 + (c as u64 - 48);
        if v > max {
            return None;
        }
        i = i + 1;
    }
    assert(s@.take(s@.len() as int) =~= s@);
    Some(v)
}

/// A lower-case hexadecimal digit.
pub open spec fn hex_char(d: nat) -> char {
    if d < 10 {
        (48 + d) as char
    } else {
        (87 + d) as char
    }
}

/// The value of a hexadecimal digit, upper or lower case; 16 for any other character.
pub open spec fn hex_digit(c: char) -> nat {
    if '0' <= c && c <= '9' {
        (c as nat - 48) as nat
    } else if 'a' <= c && c <= 'f' {
        (c as nat - 87) as nat
    } else if 'A' <= c && c <= 'F' {
        (c as nat - 55) as nat
    } else {
        16
    }
}

/// Hexadecimal digits only.
pub open spec fn is_hex(s: Seq<char>) -> bool {
    forall|i: int| 0 <= i < s.len() ==> hex_digit(#[trigger] s[i]) < 16
}

/// The number that hexadecimal digits stand for.
pub open spec fn hex_value(s: Seq<char>) -> nat
    decreases s.len(),
{
    if s.len() == 0 {
        0
    } else {
        hex_value(s.drop_last()) * 16 + hex_digit(s.last())
    }
}

/// `n` in lower-case hexadecimal, without leading zeros.
pub open spec fn hexadecimal(n: nat) -> Seq<char>
    decreases n,
{
    if n < 16 {
        seq![hex_char(n)]
    } else {
        hexadecimal(n / 16).push(hex_char(n % 16))
    }
}

/// `hexadecimal` writes one to four digits for a 16-bit number and stands for it.
pub proof fn lemma_hexadecimal(n: nat)
    ensures
        is_hex(hexadecimal(n)),
        hexadecimal(n).len() > 0,
        hex_value(hexadecimal(n)) == n,
        n < 0x10 ==> hexadecimal(n).len() == 1,
        n < 0x100 ==> hexadecimal(n).len() <= 2,
        n < 0x1000 ==> hexadecimal(n).len() <= 3,
        n < 0x1_0000 ==> hexadecimal(n).len() <= 4,
    decreases n,
{
    let s = hexadecimal(n);
    assert(hex_digit(hex_char(n % 16)) == n % 16);
    if n < 16 {
        assert(s.drop_last() =~= seq![]);
        assert(hex_value(s.drop_last()) == 0);
    } else {
        lemma_hexadecimal(n / 16);
        assert(s.drop_last() =~= hexadecimal(n / 16));
        assert forall|i: int| 0 <= i < s.len() implies hex_digit(#[trigger] s[i]) < 16 by {
            if i < s.len() - 1 {
                assert(s[i] == hexadecimal(n / 16)[i]);
            }
        }
    }
}

/// At most four hexadecimal digits fit in 16 bits.
pub proof fn lemma_hex_bound(s: Seq<char>)
    requires
        is_hex(s),
    ensures
        s.len() == 0 ==> hex_value(s) == 0,
        s.len() <= 1 ==> hex_value(s) < 0x10,
        s.len() <= 2 ==> hex_value(s) < 0x100,
        s.len() <= 3 ==> hex_value(s) < 0x1000,
        s.len() <= 4 ==> hex_value(s) < 0x1_0000,
    decreases s.len(),
{
    if s.len() > 0 {
        let init = s.drop_last();
        assert forall|i: int| 0 <= i < init.len() implies hex_digit(#[trigger] init[i]) < 16 by {
            assert(init[i] == s[i]);
        }
        lemma_hex_bound(init);
        assert(hex_digit(s.last()) < 16);
    }
}

/// The value of a hexadecimal digit, or 16.
fn hex_digit_of(c: char) -> (d: u16)
    ensures
        d == hex_digit(c),
{
    if '0' <= c && c <= '9' {
        (c as u32 - 48) as u16
    } else if 'a' <= c && c <= 'f' {
        (c as u32 - 87) as u16
    } else if 'A' <= c && c <= 'F' {
        (c as u32 - 55) as u16
    } else {
        16
    }
}

/// Reads one to four hexadecimal digits.
pub fn read_hex(s: &[char]) -> (r: Option<u16>)
    ensures
        match r {
            Some(v) => 1 <= s@.len() <= 4 && is_hex(s@) && v == hex_value(s@),
            None => !(1 <= s@.len() <= 4 && is_hex(s@)),
        },
{
    if s.len() == 0 || s.len() > 4 {
        return None;
    }
    let mut v: u32 = 0;
    let mut i: usize = 0;
    assert(s@.take(0) =~= seq![]);
    while i < s.len()
        invariant
            i <= s.len() <= 4,
            is_hex(s@.take(i as int)),
            v == hex_value(s@.take(i as int)),
        decreases s.len() - i,
    {
        let d = hex_digit_of(s[i]);
        if d == 16 {
            assert(hex_digit(s@[i as int]) == 16);
            return None;
        }
        let ghost t = s@.take(i + 1);
        proof {
            assert(t.drop_last() =~= s@.take(i as int));
            lemma_hex_bound(s@.take(i as int));
            assert forall|j: int| 0 <= j < t.len() implies hex_digit(#[trigger] t[j]) < 16 by {
                if j < i {
                    assert(t[j] == s@.take(i as int)[j]);
                }
            }
        }
        v = v * 16 + d as u32;
        i = i + 1;
    }
    assert(s@.take(s@.len() as int) =~= s@);
    proof {
        lemma_hex_bound(s@);
    }
    Some(v as u16)
}

/// The lower-case hexadecimal digit of `d`.
fn hex_char_of(d: u8) -> (c: char)
    requires
        d < 16,
    ensures
        c == hex_char(d as nat),
{
    if d < 10 {
        (48 + d) as char
    } else {
        (87 + d) as char
    }
}

/// `n` in lower-case hexadecimal.
pub fn hex_text(n: u128) -> (r: String)
    ensures
        r@ == hexadecimal(n as nat),
    decreases n,
{
    if n < 16 {
        let mut s: String = String::new();
        s.push(hex_char_of(n as u8));
        assert(s@ =~= hexadecimal(n as nat));
        s
    } else {
        let mut s: String = hex_text(n / 16);
        s.push(hex_char_of((n % 16) as u8));
        s
    }
}

// ---------------------------------------------------------------------------
// Splitting and joining
// ---------------------------------------------------------------------------
/// The first occurrence of `c` in `p + [c] + rest`, where `p` has none.
pub proof fn lemma_find_after(p: Seq<char>, c: char, rest: Seq<char>)
    requires
        !p.contains(c),
    ensures
        find(p + seq![c] + rest, c) == p.len(),
        (p + seq![c] + rest).take(p.len() as int) == p,
        (p + seq![c] + rest).skip(p.len() as int + 1) == rest,
{
    let s = p + seq![c] + rest;
    assert forall|i: int| 0 <= i < p.len() implies s[i] != c by {
        assert(s[i] == p[i]);
        assert(p.contains(p[i]));
    }
    lemma_find_unique(s, c, p.len() as int);
    assert(s.take(p.len() as int) =~= p);
    assert(s.skip(p.len() as int + 1) =~= rest);
}

/// Joining with a character and splitting at it gives the pieces back.
pub proof fn lemma_split_join(parts: Seq<Seq<char>>, c: char)
    requires
        parts.len() > 0,
        forall|i: int| 0 <= i < parts.len() ==> !(#[trigger] parts[i]).contains(c),
    ensures
        split(join(parts, seq![c]), c) == parts,
    decreases parts.len(),
{
    let s = join(parts, seq![c]);
    if parts.len() == 1 {
        lemma_find(s, c);
        assert(!parts[0].contains(c));
        assert(split(s, c) =~= parts);
    } else {
        let rest = parts.skip(1);
        assert forall|i: int| 0 <= i < rest.len() implies !(#[trigger] rest[i]).contains(c) by {
            assert(rest[i] == parts[i + 1]);
        }
        lemma_split_join(rest, c);
        assert(!parts[0].contains(c));
        lemma_find_after(parts[0], c, join(rest, seq![c]));
        assert(split(s, c) =~= parts);
    }
}

/// Splitting at a character and joining with it gives the text back, and no
/// piece holds the character.
pub proof fn lemma_join_split(s: Seq<char>, c: char)
    ensures
        join(split(s, c), seq![c]) == s,
        split(s, c).len() > 0,
        forall|i: int| 0 <= i < split(s, c).len() ==> !(#[trigger] split(s, c)[i]).contains(c),
    decreases s.len(),
{
    lemma_find(s, c);
    let n = find(s, c);
    let parts = split(s, c);
    if n < s.len() {
        let rest = s.skip(n + 1);
        lemma_join_split(rest, c);
        assert(parts.skip(1) =~= split(rest, c));
        assert(join(parts, seq![c]) =~= s);
        assert forall|i: int| 0 <= i < parts.len() implies !(#[trigger] parts[i]).contains(c) by {
            if i > 0 {
                assert(parts[i] == split(rest, c)[i - 1]);
            }
        }
    } else {
        assert(parts[0] == s);
    }
}

// ---------------------------------------------------------------------------
// Beginnings and ends
// ---------------------------------------------------------------------------
/// Whether `s` begins with `p`.
pub open spec fn begins(s: Seq<char>, p: Seq<char>) -> bool {
    p.len() <= s.len() && s.take(p.len() as int) == p
}

/// Whether `s` ends with `p`.
pub open spec fn ends(s: Seq<char>, p: Seq<char>) -> bool {
    p.len() <= s.len() && s.skip(s.len() - p.len()) == p
}

/// Tests how a text begins.
pub fn has_start(s: &[char], p: &str) -> (r: bool)
    ensures
        r == begins(s@, p@),
{
    let q = to_chars(p);
    if q.len() > s.len() {
        return false;
    }
    let head = slice_of(s, 0, q.len());
    assert(head@ =~= s@.take(q@.len() as int));
    same_chars(&head, &q)
}

/// Tests how a text ends.
pub fn has_end(s: &[char], p: &str) -> (r: bool)
    ensures
        r == ends(s@, p@),
{
    let q = to_chars(p);
    if q.len() > s.len() {
        return false;
    }
    let tail = slice_of(s, s.len() - q.len(), s.len());
    assert(tail@ =~= s@.skip(s@.len() - q@.len()));
    same_chars(&tail, &q)
}

/// Whether `p` occurs in `s` at a place.
pub open spec fn occurs_at(s: Seq<char>, p: Seq<char>, i: int) -> bool {
    0 <= i && i + p.len() <= s.len() && s.subrange(i, i + p.len()) == p
}

/// Whether `p` occurs in `s`.
pub open spec fn occurs(s: Seq<char>, p: Seq<char>) -> bool {
    exists|i: int| occurs_at(s, p, i)
}

/// Tests whether a text occurs in another.
pub fn has_part(s: &[char], p: &str) -> (r: bool)
    ensures
        r == occurs(s@, p@),
{
    let q = to_chars(p);
    if q.len() > s.len() {
        assert(forall|j: int| !#[trigger] occurs_at(s@, p@, j));
        return false;
    }
    let last: usize = s.len() - q.len();
    let mut i: usize = 0;
    loop
        invariant
            i <= last,
            last + q.len() == s.len(),
            q@ == p@,
            forall|j: int| 0 <= j < i ==> !#[trigger] occurs_at(s@, p@, j),
        ensures
            forall|j: int| !#[trigger] occurs_at(s@, p@, j),
        decreases last - i,
    {
        let part = slice_of(s, i, i + q.len());
        assert(part@ =~= s@.subrange(i as int, i + q@.len()));
        if same_chars(&part, &q) {
            assert(occurs_at(s@, p@, i as int));
            return true;
        }
        if i == last {
            break;
        }
        i = i + 1;
    }
    false
}

// ---------------------------------------------------------------------------
// Numbers with a sign
// ---------------------------------------------------------------------------
/// The number that a text stands for, if that is at most `max`: decimal digits, with
/// a plus sign before them or without.
pub open spec fn unsigned(s: Seq<char>, max: nat) -> Option<nat> {
    let t = if s.len() > 0 && s[0] == '+' {
        s.skip(1)
    } else {
        s
    };
    if is_number(t) && number_value(t) <= max {
        Some(number_value(t))
    } else {
        None
    }
}

/// Reads a number of at most `max`.
pub fn read_unsigned(s: &[char], max: u64) -> (r: Option<u64>)
    requires
        max < 0x1000_0000_0000_0000,
    ensures
        match r {
            Some(v) => unsigned(s@, max as nat) == Some(v as nat),
            None => unsigned(s@, max as nat) is None,
        },
{
    if s.len() > 0 && s[0] == '+' {
        let t = slice_of(s, 1, s.len());
        assert(t@ =~= s@.skip(1));
        read_number(&t, max)
    } else {
        read_number(s, max)
    }
}

} // verus!
