//! What the operations on texts do, said of characters and places.
use vstd::prelude::*;

verus! {

// ---------------------------------------------------------------------------
// Characters
// ---------------------------------------------------------------------------
/// White space, by the numbers of its characters.
pub proof fn white_space_by_number(c: char)
    ensures
        crate::text::is_white(c) <==> 9 <= c as u32 <= 13 || c as u32 == 0x20 || c as u32 == 0x85
            || c as u32 == 0xa0 || c as u32 == 0x1680 || 0x2000 <= c as u32 <= 0x200a || c as u32
            == 0x2028 || c as u32 == 0x2029 || c as u32 == 0x202f || c as u32 == 0x205f || c as u32
            == 0x3000,
{
}

/// Digits and letters, by the numbers of their characters.
pub proof fn letters_and_digits_by_number(c: char)
    ensures
        crate::text::is_digit(c) <==> 0x30 <= c as u32 <= 0x39,
        crate::text::is_alnum(c) <==> 0x30 <= c as u32 <= 0x39 || 0x41 <= c as u32 <= 0x5a || 0x61
            <= c as u32 <= 0x7a,
{
}

/// The texts of a list are those of its members, in order.
pub proof fn texts_are_the_members(v: Seq<String>, w: Seq<Vec<char>>)
    ensures
        crate::text::texts(v).len() == v.len(),
        forall|i: int| 0 <= i < v.len() ==> #[trigger] crate::text::texts(v)[i] == v[i]@,
        crate::text::vec_texts(w).len() == w.len(),
        forall|i: int| 0 <= i < w.len() ==> #[trigger] crate::text::vec_texts(w)[i] == w[i]@,
{
}

// ---------------------------------------------------------------------------
// Parts of a text
// ---------------------------------------------------------------------------
/// A character is found at the first place that holds it, whatever else the text holds.
pub proof fn the_first_place_is_found(p: Seq<char>, c: char, rest: Seq<char>)
    requires
        forall|i: int| 0 <= i < p.len() ==> p[i] != c,
    ensures
        crate::text::find(p + seq![c] + rest, c) == p.len(),
        crate::text::find(p, c) == p.len(),
{
    crate::text::lemma_find_unique(p, c, p.len() as int);
    assert(!p.contains(c));
    crate::text::lemma_find_after(p, c, rest);
}

/// White space is taken off both ends, all of it and nothing else.
pub proof fn trimming_takes_the_ends_off(a: Seq<char>, t: Seq<char>, b: Seq<char>)
    requires
        forall|i: int| 0 <= i < a.len() ==> crate::text::is_white(#[trigger] a[i]),
        forall|i: int| 0 <= i < b.len() ==> crate::text::is_white(#[trigger] b[i]),
        t.len() > 0 ==> !crate::text::is_white(t[0]) && !crate::text::is_white(t.last()),
    ensures
        crate::text::trim(a + t + b) == t,
{
    lemma_trim_front(a, t + b);
    assert(a + t + b =~= a + (t + b));
    if t.len() > 0 {
        let s = t + b;
        assert(s[0] == t[0]);
        lemma_trim_back(t, b);
        assert(crate::text::trim_start(s) == s);
    } else {
        assert(t + b =~= b);
        lemma_trim_front(b, seq![]);
        assert(b + Seq::<char>::empty() =~= b);
        assert(crate::text::trim_start(seq![]) =~= seq![]);
        assert(crate::text::trim_start(b) =~= seq![]);
        assert(crate::text::trim_end(Seq::<char>::empty()) =~= seq![]);
        assert(t =~= seq![]);
    }
}

/// White space in front is taken off.
proof fn lemma_trim_front(a: Seq<char>, s: Seq<char>)
    requires
        forall|i: int| 0 <= i < a.len() ==> crate::text::is_white(#[trigger] a[i]),
    ensures
        crate::text::trim_start(a + s) == crate::text::trim_start(s),
    decreases a.len(),
{
    if a.len() == 0 {
        assert(a + s =~= s);
    } else {
        let rest = a.skip(1);
        assert((a + s)[0] == a[0]);
        assert((a + s).skip(1) =~= rest + s);
        assert forall|i: int| 0 <= i < rest.len() implies crate::text::is_white(
            #[trigger] rest[i],
        ) by {
            assert(rest[i] == a[i + 1]);
        }
        lemma_trim_front(rest, s);
    }
}

/// White space at the end is taken off.
proof fn lemma_trim_back(t: Seq<char>, b: Seq<char>)
    requires
        t.len() > 0,
        !crate::text::is_white(t.last()),
        forall|i: int| 0 <= i < b.len() ==> crate::text::is_white(#[trigger] b[i]),
    ensures
        crate::text::trim_end(t + b) == t,
    decreases b.len(),
{
    if b.len() == 0 {
        assert(t + b =~= t);
    } else {
        let init = b.drop_last();
        assert((t + b).last() == b[b.len() - 1]);
        assert((t + b).drop_last() =~= t + init);
        assert forall|i: int| 0 <= i < init.len() implies crate::text::is_white(
            #[trigger] init[i],
        ) by {
            assert(init[i] == b[i]);
        }
        lemma_trim_back(t, init);
    }
}

/// Every text is what trimming leaves of it, between white space.
pub proof fn only_white_space_is_trimmed(s: Seq<char>) -> (o: (int, int))
    ensures
        0 <= o.0 <= o.1 <= s.len(),
        crate::text::trim(s) == s.subrange(o.0, o.1),
        forall|i: int| 0 <= i < o.0 ==> crate::text::is_white(#[trigger] s[i]),
        forall|i: int| o.1 <= i < s.len() ==> crate::text::is_white(#[trigger] s[i]),
        o.0 < o.1 ==> !crate::text::is_white(s[o.0]) && !crate::text::is_white(s[o.1 - 1]),
{
    let a = lemma_start_of(s, 0);
    let b = lemma_end_of(s, a, s.len() as int);
    let front = s.take(a);
    let t = s.subrange(a, b);
    let back = s.skip(b);
    assert(s =~= front + t + back);
    assert forall|i: int| 0 <= i < back.len() implies crate::text::is_white(#[trigger] back[i]) by {
        assert(back[i] == s[i + b]);
    }
    trimming_takes_the_ends_off(front, t, back);
    (a, b)
}

/// The first place from `i` on that holds no white space.
proof fn lemma_start_of(s: Seq<char>, i: int) -> (a: int)
    requires
        0 <= i <= s.len(),
        forall|k: int| 0 <= k < i ==> crate::text::is_white(#[trigger] s[k]),
    ensures
        i <= a <= s.len(),
        forall|k: int| 0 <= k < a ==> crate::text::is_white(#[trigger] s[k]),
        a < s.len() ==> !crate::text::is_white(s[a]),
    decreases s.len() - i,
{
    if i < s.len() && crate::text::is_white(s[i]) {
        lemma_start_of(s, i + 1)
    } else {
        i
    }
}

/// The last place from `a` on behind which there is white space only.
proof fn lemma_end_of(s: Seq<char>, a: int, j: int) -> (b: int)
    requires
        0 <= a <= j <= s.len(),
        forall|k: int| j <= k < s.len() ==> crate::text::is_white(#[trigger] s[k]),
        a < s.len() ==> !crate::text::is_white(s[a]),
    ensures
        a <= b <= s.len(),
        forall|k: int| b <= k < s.len() ==> crate::text::is_white(#[trigger] s[k]),
        a < b ==> !crate::text::is_white(s[b - 1]),
    decreases j,
{
    if a < j && crate::text::is_white(s[j - 1]) {
        lemma_end_of(s, a, j - 1)
    } else {
        j
    }
}

/// Splitting cuts at every place with the character, and nowhere else: the piece in front
/// of the first one comes first, and the rest is split in the same way.
pub proof fn splitting_cuts_at_the_character(p: Seq<char>, c: char, rest: Seq<char>)
    requires
        forall|i: int| 0 <= i < p.len() ==> p[i] != c,
    ensures
        crate::text::split(p, c) == seq![p],
        crate::text::split(p + seq![c] + rest, c) == seq![p] + crate::text::split(rest, c),
{
    the_first_place_is_found(p, c, rest);
    assert(!p.contains(c));
    crate::text::lemma_find_after(p, c, rest);
}

/// Joining puts the separator between the parts, and nowhere else.
pub proof fn joining_puts_separators_between(
    p: Seq<char>,
    parts: Seq<Seq<char>>,
    sep: Seq<char>,
)
    ensures
        crate::text::join(Seq::empty(), sep) == Seq::<char>::empty(),
        crate::text::join(seq![p], sep) == p,
        parts.len() > 0 ==> crate::text::join(seq![p] + parts, sep) == p + sep
            + crate::text::join(parts, sep),
{
    assert(crate::text::join(Seq::empty(), sep) =~= Seq::<char>::empty());
    assert((seq![p] + parts).skip(1) =~= parts);
}

/// A line ends at a line feed, which does not belong to it, nor does one carriage return in
/// front of it. What follows the last line feed is a line if it holds anything.
pub proof fn lines_end_at_line_feeds(l: Seq<char>, rest: Seq<char>)
    requires
        forall|i: int| 0 <= i < l.len() ==> l[i] != '\n',
    ensures
        crate::text::lines(Seq::<char>::empty()) == Seq::<Seq<char>>::empty(),
        l.len() > 0 ==> crate::text::lines(l) == seq![l],
        l.len() == 0 || l.last() != '\r' ==> crate::text::lines(l + seq!['\n'] + rest) == seq![l]
            + crate::text::lines(rest),
        crate::text::lines(l + seq!['\r', '\n'] + rest) == seq![l] + crate::text::lines(rest),
{
    the_first_place_is_found(l, '\n', rest);
    assert(!l.contains('\n'));
    crate::text::lemma_find_after(l, '\n', rest);
    let m = l.push('\r');
    assert forall|i: int| 0 <= i < m.len() implies m[i] != '\n' by {}
    the_first_place_is_found(m, '\n', rest);
    assert(!m.contains('\n'));
    crate::text::lemma_find_after(m, '\n', rest);
    assert(l + seq!['\r', '\n'] + rest =~= m + seq!['\n'] + rest);
    assert(m.drop_last() =~= l);
}

/// Words are what stands between white space: white space in front does not count, and a
/// word goes up to the next white space or to the end.
pub proof fn words_stand_between_white_space(a: Seq<char>, w: Seq<char>, rest: Seq<char>)
    requires
        forall|i: int| 0 <= i < a.len() ==> crate::text::is_white(#[trigger] a[i]),
        w.len() > 0,
        forall|i: int| 0 <= i < w.len() ==> !crate::text::is_white(#[trigger] w[i]),
        rest.len() > 0 ==> crate::text::is_white(rest[0]),
    ensures
        crate::text::words(a) == Seq::<Seq<char>>::empty(),
        crate::text::words(a + w + rest) == seq![w] + crate::text::words(rest),
{
    lemma_words_front(a, Seq::empty());
    assert(a + Seq::<char>::empty() =~= a);
    assert(crate::text::words(Seq::<char>::empty()) =~= seq![]);
    lemma_words_front(a, w + rest);
    assert(a + w + rest =~= a + (w + rest));
    crate::hosts::round_trip::lemma_words_first(w, rest);
}

/// White space in front does not count.
pub proof fn lemma_words_front(a: Seq<char>, s: Seq<char>)
    requires
        forall|i: int| 0 <= i < a.len() ==> crate::text::is_white(#[trigger] a[i]),
    ensures
        crate::text::words(a + s) == crate::text::words(s),
    decreases a.len(),
{
    if a.len() == 0 {
        assert(a + s =~= s);
    } else {
        let rest = a.skip(1);
        assert((a + s)[0] == a[0]);
        assert((a + s).skip(1) =~= rest + s);
        assert forall|i: int| 0 <= i < rest.len() implies crate::text::is_white(
            #[trigger] rest[i],
        ) by {
            assert(rest[i] == a[i + 1]);
        }
        lemma_words_front(rest, s);
    }
}

/// Replacing goes through a text character by character: each `c` becomes `t`, and any other
/// character stays.
pub proof fn replacing_goes_by_characters(a: Seq<char>, b: Seq<char>, c: char, t: Seq<char>)
    ensures
        crate::text::replace_char(a + b, c, t) == crate::text::replace_char(a, c, t)
            + crate::text::replace_char(b, c, t),
        forall|x: char| #[trigger]
            crate::text::replace_char(seq![x], c, t) == if x == c {
                t
            } else {
                seq![x]
            },
        crate::text::replace_char(Seq::empty(), c, t) == Seq::<char>::empty(),
    decreases b.len(),
{
    assert(crate::text::replace_char(Seq::empty(), c, t) =~= Seq::<char>::empty());
    assert forall|x: char| #[trigger] crate::text::replace_char(seq![x], c, t) == if x == c {
        t
    } else {
        seq![x]
    } by {
        assert(seq![x].drop_last() =~= seq![]);
        assert(seq![x].last() == x);
        assert(crate::text::replace_char(seq![x].drop_last(), c, t) =~= seq![]);
        assert(Seq::<char>::empty() + t =~= t);
        assert(Seq::<char>::empty().push(x) =~= seq![x]);
    }
    if b.len() == 0 {
        assert(a + b =~= a);
        assert(crate::text::replace_char(b, c, t) =~= seq![]);
        assert(crate::text::replace_char(a, c, t) + Seq::<char>::empty()
            =~= crate::text::replace_char(a, c, t));
    } else {
        let init = b.drop_last();
        replacing_goes_by_characters(a, init, c, t);
        assert((a + b).drop_last() =~= a + init);
        assert((a + b).last() == b.last());
        assert(crate::text::replace_char(a + b, c, t) =~= crate::text::replace_char(a, c, t)
            + crate::text::replace_char(b, c, t));
    }
}

/// A text begins with what it starts with, ends with what it stops with, and holds what
/// stands anywhere in it; and with nothing else.
pub proof fn beginnings_ends_and_parts(s: Seq<char>, p: Seq<char>)
    ensures
        crate::text::begins(s, p) <==> exists|x: Seq<char>| s == p + x,
        crate::text::ends(s, p) <==> exists|x: Seq<char>| s == x + p,
        crate::text::occurs(s, p) <==> exists|x: Seq<char>, y: Seq<char>| s == x + p + y,
{
    if crate::text::begins(s, p) {
        assert(s =~= p + s.skip(p.len() as int));
    }
    if exists|x: Seq<char>| s == p + x {
        let x = choose|x: Seq<char>| s == p + x;
        assert(s.take(p.len() as int) =~= p);
    }
    if crate::text::ends(s, p) {
        assert(s =~= s.take(s.len() - p.len()) + p);
    }
    if exists|x: Seq<char>| s == x + p {
        let x = choose|x: Seq<char>| s == x + p;
        assert(s.skip(s.len() - p.len()) =~= p);
    }
    if crate::text::occurs(s, p) {
        let i = choose|i: int| crate::text::occurs_at(s, p, i);
        assert(s =~= s.take(i) + p + s.skip(i + p.len()));
    }
    if exists|x: Seq<char>, y: Seq<char>| s == x + p + y {
        let (x, y) = choose|x: Seq<char>, y: Seq<char>| s == x + p + y;
        assert(s.subrange(x.len() as int, x.len() as int + p.len()) =~= p);
        assert(crate::text::occurs_at(s, p, x.len() as int));
    }
}

// ---------------------------------------------------------------------------
// Numbers
// ---------------------------------------------------------------------------
/// The value of digits: each one more counts ten times what stands before it, and itself.
/// The digits of a number have its value, and start with `0` only for zero.
pub proof fn decimal_digits_have_their_value(s: Seq<char>, d: char, n: nat)
    ensures
        crate::text::number_value(Seq::empty()) == 0,
        0x30 <= d as u32 <= 0x39 ==> crate::text::number_value(s.push(d)) == 10
            * crate::text::number_value(s) + (d as u32 - 0x30),
        crate::text::is_number(s) <==> s.len() > 0 && forall|i: int|
            0 <= i < s.len() ==> '0' <= (#[trigger] s[i]) <= '9',
        crate::text::is_number(crate::text::decimal(n)),
        crate::text::number_value(crate::text::decimal(n)) == n,
        crate::text::decimal(n)[0] == '0' ==> n == 0 && crate::text::decimal(n).len() == 1,
{
    assert(s.push(d).drop_last() =~= s);
    crate::text::lemma_decimal(n);
    if crate::text::is_number(s) {
        assert forall|i: int| 0 <= i < s.len() implies '0' <= (#[trigger] s[i]) <= '9' by {
            assert(crate::text::is_digit(s[i]));
        }
    }
}

/// The value of hexadecimal digits: each one more counts sixteen times what stands before it,
/// and itself; and the digits of a number have its value.
pub proof fn hexadecimal_digits_have_their_value(s: Seq<char>, d: char, n: nat)
    ensures
        crate::text::hex_value(Seq::empty()) == 0,
        0x30 <= d as u32 <= 0x39 ==> crate::text::hex_value(s.push(d)) == 16
            * crate::text::hex_value(s) + (d as u32 - 0x30),
        0x61 <= d as u32 <= 0x66 ==> crate::text::hex_value(s.push(d)) == 16
            * crate::text::hex_value(s) + (d as u32 - 0x61 + 10),
        0x41 <= d as u32 <= 0x46 ==> crate::text::hex_value(s.push(d)) == 16
            * crate::text::hex_value(s) + (d as u32 - 0x41 + 10),
        crate::text::is_hex(s) <==> forall|i: int|
            0 <= i < s.len() ==> '0' <= (#[trigger] s[i]) <= '9' || 'a' <= s[i] <= 'f' || 'A' <= s[i] <= 'F',
        crate::text::is_hex(crate::text::hexadecimal(n)),
        crate::text::hex_value(crate::text::hexadecimal(n)) == n,
{
    assert(s.push(d).drop_last() =~= s);
    crate::text::lemma_hexadecimal(n);
    if crate::text::is_hex(s) {
        assert forall|i: int| 0 <= i < s.len() implies '0' <= (#[trigger] s[i]) <= '9'
            || 'a' <= s[i] <= 'f' || 'A' <= s[i] <= 'F' by {
            assert(crate::text::hex_digit(s[i]) < 16);
        }
    }
    if forall|i: int|
        0 <= i < s.len() ==> '0' <= (#[trigger] s[i]) <= '9' || 'a' <= s[i] <= 'f'
            || 'A' <= s[i] <= 'F' {
        assert forall|i: int| 0 <= i < s.len() implies crate::text::hex_digit(#[trigger] s[i])
            < 16 by {}
    }
}

/// A number is read with or without a plus sign in front, and with any zeros in front, if it
/// is not too large; and nothing but digits behind such a sign is.
pub proof fn numbers_are_read(s: Seq<char>, max: nat, n: nat)
    ensures
        n <= max ==> crate::text::unsigned(crate::text::decimal(n), max) == Some(n)
            && crate::text::unsigned(seq!['+'] + crate::text::decimal(n), max) == Some(n),
        n > max ==> crate::text::unsigned(crate::text::decimal(n), max) is None
            && crate::text::unsigned(seq!['+'] + crate::text::decimal(n), max) is None,
        crate::text::is_number(s) ==> crate::text::unsigned(seq!['0'] + s, max)
            == crate::text::unsigned(s, max),
        crate::text::unsigned(s, max) is Some ==> crate::text::is_number(s) || (s.len() > 1 && s[0]
            == '+' && crate::text::is_number(s.skip(1))),
{
    let d = crate::text::decimal(n);
    crate::text::lemma_decimal(n);
    assert(crate::text::is_digit(d[0]));
    assert((seq!['+'] + d).skip(1) =~= d);
    if crate::text::is_number(s) {
        let z = seq!['0'] + s;
        assert(crate::text::is_digit(s[0]));
        assert forall|i: int| 0 <= i < z.len() implies crate::text::is_digit(#[trigger] z[i]) by {
            if i > 0 {
                assert(z[i] == s[i - 1]);
            }
        }
        lemma_leading_zero(s);
    }
}

/// A zero in front does not change the value.
proof fn lemma_leading_zero(s: Seq<char>)
    ensures
        crate::text::number_value(seq!['0'] + s) == crate::text::number_value(s),
    decreases s.len(),
{
    let z = seq!['0'] + s;
    if s.len() == 0 {
        assert(z =~= seq!['0']);
        assert(z.drop_last() =~= seq![]);
        assert(crate::text::number_value(z.drop_last()) == 0);
    } else {
        lemma_leading_zero(s.drop_last());
        assert(z.drop_last() =~= seq!['0'] + s.drop_last());
        assert(z.last() == s.last());
    }
}

/// Hexadecimal digits are written with small letters, and without a zero in front but for
/// zero itself.
pub proof fn hexadecimal_digits_are_small(n: nat)
    ensures
        forall|i: int|
            0 <= i < crate::text::hexadecimal(n).len() ==> ('0' <= (
            #[trigger] crate::text::hexadecimal(n)[i]) <= '9') || ('a' <= crate::text::hexadecimal(
                n,
            )[i] <= 'f'),
        crate::text::hexadecimal(n)[0] == '0' ==> n == 0,
        n == 0 ==> crate::text::hexadecimal(n) == seq!['0'],
    decreases n,
{
    let s = crate::text::hexadecimal(n);
    if n >= 16 {
        let t = crate::text::hexadecimal(n / 16);
        hexadecimal_digits_are_small(n / 16);
        crate::text::lemma_hexadecimal(n / 16);
        assert(s[0] == t[0]);
        assert forall|i: int| 0 <= i < s.len() implies ('0' <= (#[trigger] s[i]) <= '9') || ('a'
            <= s[i] <= 'f') by {
            if i < t.len() {
                assert(s[i] == t[i]);
            }
        }
    }
}

} // verus!
