//! The managed block of a hosts file: the lines between the two markers.
use vstd::prelude::*;
use vstd::string::*;

use crate::hosts::parser::Parser;
use crate::text::{same_chars, split_lines, to_chars, to_text, trimmed};

verus! {

broadcast use vstd::string::group_string_axioms;

/// Whether line `i` is the marker `m`. White space around it does not count.
pub open spec fn is_mark(lines: Seq<Seq<char>>, i: int, m: Seq<char>) -> bool {
    0 <= i < lines.len() && crate::text::trim(lines[i]) == m
}

/// The one line that is the marker `m`, if exactly one is.
pub open spec fn only_mark(lines: Seq<Seq<char>>, m: Seq<char>) -> Option<int> {
    if exists|i: int| is_mark(lines, i, m) && forall|j: int| is_mark(lines, j, m) ==> i == j {
        Some(choose|i: int| is_mark(lines, i, m) && forall|j: int| is_mark(lines, j, m) ==> i == j)
    } else {
        None
    }
}

/// Whether no line is the marker `m`.
pub open spec fn no_mark(lines: Seq<Seq<char>>, m: Seq<char>) -> bool {
    forall|i: int| !is_mark(lines, i, m)
}

/// The first and the last line of the managed block: each marker occurs exactly
/// once, and the start comes before the end.
pub open spec fn managed_range(lines: Seq<Seq<char>>) -> Option<(int, int)> {
    match (
        only_mark(lines, crate::hosts::formatter::start_marker()),
        only_mark(lines, crate::hosts::formatter::end_marker()),
    ) {
        (Some(s), Some(e)) => if s <= e {
            Some((s, e))
        } else {
            None
        },
        _ => None,
    }
}

/// The lines between the markers.
pub open spec fn managed_lines(lines: Seq<Seq<char>>) -> Option<Seq<Seq<char>>> {
    match managed_range(lines) {
        Some((s, e)) => if e <= s + 1 {
            Some(seq![])
        } else {
            Some(lines.subrange(s + 1, e))
        },
        None => None,
    }
}

/// The text between the markers, without a line ending at its end.
pub open spec fn managed_content(text: Seq<char>) -> Option<Seq<char>> {
    match managed_lines(crate::text::lines(text)) {
        Some(l) => Some(crate::text::join(l, seq!['\n'])),
        None => None,
    }
}

/// Where line `k` starts; the length of the text for lines past its end.
pub open spec fn line_offset(s: Seq<char>, k: int) -> int
    decreases k,
{
    let n = crate::text::find(s, '\n');
    if k <= 0 {
        0
    } else if n < s.len() {
        n + 1 + line_offset(s.skip(n + 1), k - 1)
    } else {
        s.len() as int
    }
}

/// The characters of the managed block: its lines with their line endings.
pub open spec fn managed_span(s: Seq<char>) -> Option<(int, int)> {
    match managed_range(crate::text::lines(s)) {
        Some((a, b)) => Some((line_offset(s, a), line_offset(s, b + 1))),
        None => None,
    }
}

/// One line that is the marker, and no other, is the one that `only_mark` gives.
pub proof fn lemma_only_mark(lines: Seq<Seq<char>>, m: Seq<char>, i: int)
    requires
        is_mark(lines, i, m),
        forall|j: int| is_mark(lines, j, m) ==> i == j,
    ensures
        only_mark(lines, m) == Some(i),
{
}

/// The two markers differ.
pub proof fn lemma_markers_differ()
    ensures
        crate::hosts::formatter::start_marker() != crate::hosts::formatter::end_marker(),
{
    reveal_strlit("# ---- mHost start ----");
    reveal_strlit("# ---- mHost end ----");
    assert(crate::hosts::formatter::start_marker().len() == 23);
    assert(crate::hosts::formatter::end_marker().len() == 21);
}

/// The one marker `m` among the lines, or how many there are otherwise.
fn find_mark(lines: &Vec<Vec<char>>, m: &[char]) -> (r: Option<usize>)
    ensures
        match r {
            Some(i) => only_mark(crate::text::vec_texts(lines@), m@) == Some(i as int),
            None => only_mark(crate::text::vec_texts(lines@), m@) is None,
        },
{
    let ghost ls = crate::text::vec_texts(lines@);
    let mut found: Option<usize> = None;
    let mut i: usize = 0;
    while i < lines.len()
        invariant
            i <= lines@.len(),
            ls == crate::text::vec_texts(lines@),
            match found {
                Some(k) => k < i && is_mark(ls, k as int, m@) && forall|j: int|
                    j < i && is_mark(ls, j, m@) ==> j == k,
                None => forall|j: int| j < i ==> !is_mark(ls, j, m@),
            },
        decreases lines.len() - i,
    {
        let t = trimmed(&lines[i]);
        assert(ls[i as int] == lines@[i as int]@);
        if same_chars(&t, m) {
            assert(is_mark(ls, i as int, m@));
            match found {
                Some(k) => {
                    assert(is_mark(ls, k as int, m@));
                    return None;
                },
                None => {
                    found = Some(i);
                },
            }
        }
        i = i + 1;
    }
    assert(ls.len() == lines@.len());
    proof {
        match found {
            Some(k) => {
                lemma_only_mark(ls, m@, k as int);
            },
            None => {},
        }
    }
    found
}

/// The first and the last line of the managed block.
fn find_block(lines: &Vec<Vec<char>>) -> (r: Option<(usize, usize)>)
    ensures
        match r {
            Some((s, e)) => managed_range(crate::text::vec_texts(lines@)) == Some(
                (s as int, e as int),
            ) && s <= e < lines@.len(),
            None => managed_range(crate::text::vec_texts(lines@)) is None,
        },
{
    let start = to_chars("# ---- mHost start ----");
    let end = to_chars("# ---- mHost end ----");
    let ghost ls = crate::text::vec_texts(lines@);
    match (find_mark(lines, &start), find_mark(lines, &end)) {
        (Some(s), Some(e)) => {
            if s <= e {
                assert(is_mark(ls, e as int, end@));
                Some((s, e))
            } else {
                None
            }
        },
        _ => None,
    }
}

/// Where line `k` starts.
fn offset_of(v: &[char], k: usize) -> (r: usize)
    ensures
        r == line_offset(v@, k as int),
        r <= v@.len(),
{
    let mut left: usize = k;
    let mut at: usize = 0;
    assert(v@.skip(0) =~= v@);
    while left > 0
        invariant
            at <= v@.len(),
            left <= k,
            line_offset(v@, k as int) == at + line_offset(v@.skip(at as int), left as int),
        decreases left,
    {
        let ghost rest = v@.skip(at as int);
        let mut i: usize = at;
        while i < v.len() && v[i] != '\n'
            invariant
                at <= i <= v@.len(),
                forall|j: int| at <= j < i ==> v@[j] != '\n',
            decreases v.len() - i,
        {
            i = i + 1;
        }
        proof {
            crate::text::lemma_find_unique(rest, '\n', i - at);
        }
        if i == v.len() {
            return v.len();
        }
        proof {
            assert(rest.skip(i - at + 1) =~= v@.skip(i + 1));
        }
        at = i + 1;
        left = left - 1;
    }
    at
}

impl Parser {
    /// The first and the last line of the managed block, counted from 0. There is
    /// none unless each marker occurs exactly once and the start comes first.
    pub fn extract_managed_block(input: &str) -> (r: Option<(usize, usize)>)
        ensures
            match r {
                Some((s, e)) => managed_range(crate::text::lines(input@)) == Some(
                    (s as int, e as int),
                ),
                None => managed_range(crate::text::lines(input@)) is None,
            },
    {
        let v = to_chars(input);
        let lines = split_lines(&v);
        find_block(&lines)
    }

    /// The text between the markers, without them and without a line ending at its
    /// end; the empty text when the end follows the start at once.
    pub fn extract_managed_block_content(input: &str) -> (r: Option<String>)
        ensures
            match r {
                Some(t) => managed_content(input@) == Some(t@),
                None => managed_content(input@) is None,
            },
    {
        let v = to_chars(input);
        let lines = split_lines(&v);
        let ghost ls = crate::text::lines(input@);
        match find_block(&lines) {
            Some((s, e)) => {
                let mut out: Vec<char> = Vec::new();
                if e - s <= 1 {
                    let r = to_text(&out);
                    assert(r@ =~= crate::text::join(seq![], seq!['\n']));
                    return Some(r);
                }
                let mut i: usize = s + 1;
                while i < e
                    invariant
                        s + 1 <= i <= e < lines@.len(),
                        ls == crate::text::vec_texts(lines@),
                        out@ == crate::text::join(ls.subrange(s + 1, i as int), seq!['\n']),
                    decreases e - i,
                {
                    let ghost done = ls.subrange(s + 1, i as int);
                    let ghost line = lines@[i as int]@;
                    proof {
                        assert(ls.subrange(s + 1, i + 1) =~= done.push(line));
                        if i > s + 1 {
                            crate::text::lemma_join_push(done, seq!['\n'], line);
                        } else {
                            assert(done.push(line) =~= seq![line]);
                        }
                    }
                    if i > s + 1 {
                        out.push('\n');
                    }
                    crate::text::push_chars(&mut out, &lines[i]);
                    i = i + 1;
                    assert(out@ =~= crate::text::join(ls.subrange(s + 1, i as int), seq!['\n']));
                }
                Some(to_text(&out))
            },
            None => None,
        }
    }

    /// The characters of the managed block, as positions in the text: its lines
    /// with their line endings.
    pub fn extract_managed_block_span(input: &[char]) -> (r: Option<(usize, usize)>)
        ensures
            match r {
                Some((a, b)) => managed_span(input@) == Some((a as int, b as int)) && a <= b
                    <= input@.len(),
                None => managed_span(input@) is None,
            },
    {
        let lines = split_lines(input);
        match find_block(&lines) {
            Some((s, e)) => {
                let total: usize = lines.len();
                assert(e < total);
                let a = offset_of(input, s);
                let b = offset_of(input, e + 1);
                proof {
                    lemma_offset_monotone(input@, s as int, e + 1);
                }
                Some((a, b))
            },
            None => None,
        }
    }
}

/// Later lines start later.
pub proof fn lemma_offset_monotone(s: Seq<char>, j: int, k: int)
    requires
        0 <= j <= k,
    ensures
        0 <= line_offset(s, j) <= line_offset(s, k) <= s.len(),
    decreases k,
{
    crate::text::lemma_find(s, '\n');
    let n = crate::text::find(s, '\n');
    if n < s.len() && k > 0 {
        let rest = s.skip(n + 1);
        if j > 0 {
            lemma_offset_monotone(rest, j - 1, k - 1);
        } else {
            lemma_offset_monotone(rest, 0, k - 1);
        }
    }
}

// ---------------------------------------------------------------------------
// Lines of a text that is put together
// ---------------------------------------------------------------------------
/// A line that a text can hold as it is: no line ending inside, and no carriage
/// return at its end.
pub open spec fn clean_line(l: Seq<char>) -> bool {
    !l.contains('\n') && (l.len() > 0 ==> l.last() != '\r')
}

/// A text that ends where a line ends.
pub open spec fn ends_line(s: Seq<char>) -> bool {
    s.len() == 0 || s.last() == '\n'
}

/// The lines of two texts, one after the other, where the first ends a line.
pub proof fn lemma_lines_add(a: Seq<char>, b: Seq<char>)
    requires
        ends_line(a),
    ensures
        crate::text::lines(a + b) == crate::text::lines(a) + crate::text::lines(b),
    decreases a.len(),
{
    if a.len() == 0 {
        assert(a + b =~= b);
        assert(seq![] + crate::text::lines(b) =~= crate::text::lines(b));
    } else {
        crate::text::lemma_find(a, '\n');
        let n = crate::text::find(a, '\n');
        assert(a.contains('\n')) by {
            assert(a[a.len() - 1] == '\n');
        }
        let rest = a.skip(n + 1);
        if rest.len() > 0 {
            assert(rest.last() == a.last());
        }
        lemma_lines_add(rest, b);
        let s = a + b;
        crate::text::lemma_find_unique(s, '\n', n);
        assert(s.take(n) =~= a.take(n));
        assert(s.skip(n + 1) =~= rest + b);
        assert(crate::text::lines(s) =~= crate::text::lines(a) + crate::text::lines(b));
    }
}

/// One clean line with its line ending.
pub proof fn lemma_lines_single(l: Seq<char>)
    requires
        clean_line(l),
    ensures
        crate::text::lines(l.push('\n')) == seq![l],
{
    let s = l.push('\n');
    assert(s =~= l + seq!['\n'] + seq![]);
    crate::text::lemma_find_after(l, '\n', seq![]);
    assert(crate::text::lines(seq![]) =~= seq![]);
    assert(s.skip(l.len() as int + 1) =~= seq![]);
    assert(s.take(l.len() as int) =~= l);
    assert(crate::text::strip_cr(l) == l);
    assert(crate::text::lines(s) =~= seq![l]);
}

/// The text of clean lines holds exactly these lines.
pub proof fn lemma_lines_of_text(ls: Seq<Seq<char>>)
    requires
        forall|i: int| 0 <= i < ls.len() ==> clean_line(#[trigger] ls[i]),
    ensures
        crate::text::lines(crate::hosts::formatter::lines_text(ls)) == ls,
        ends_line(crate::hosts::formatter::lines_text(ls)),
    decreases ls.len(),
{
    if ls.len() == 0 {
        assert(crate::text::lines(seq![]) =~= seq![]);
        assert(ls =~= seq![]);
    } else {
        let init = ls.drop_last();
        assert forall|i: int| 0 <= i < init.len() implies clean_line(#[trigger] init[i]) by {
            assert(init[i] == ls[i]);
        }
        lemma_lines_of_text(init);
        assert(clean_line(ls.last()));
        lemma_lines_single(ls.last());
        lemma_lines_add(
            crate::hosts::formatter::lines_text(init),
            ls.last().push('\n'),
        );
        assert(init + seq![ls.last()] =~= ls);
    }
}

/// Cutting a text where line `k` starts cuts its lines there.
pub proof fn lemma_cut_lines(s: Seq<char>, k: int)
    requires
        0 <= k <= crate::text::lines(s).len(),
    ensures
        crate::text::lines(s.skip(line_offset(s, k))) == crate::text::lines(s).skip(k),
        k < crate::text::lines(s).len() ==> ends_line(s.take(line_offset(s, k))),
        k < crate::text::lines(s).len() || ends_line(s) ==> crate::text::lines(
            s.take(line_offset(s, k)),
        ) == crate::text::lines(s).take(k) && ends_line(s.take(line_offset(s, k))),
        0 <= line_offset(s, k) <= s.len(),
    decreases k,
{
    let ls = crate::text::lines(s);
    crate::text::lemma_find(s, '\n');
    let n = crate::text::find(s, '\n');
    lemma_offset_monotone(s, 0, k);
    if k == 0 {
        assert(s.skip(0) =~= s);
        assert(ls.skip(0) =~= ls);
        assert(s.take(0) =~= seq![]);
        assert(crate::text::lines(seq![]) =~= seq![]);
        assert(ls.take(0) =~= seq![]);
    } else if n < s.len() {
        let rest = s.skip(n + 1);
        let o = line_offset(rest, k - 1);
        assert(ls.skip(1) =~= crate::text::lines(rest));
        lemma_cut_lines(rest, k - 1);
        assert(s.skip(n + 1 + o) =~= rest.skip(o));
        assert(ls.skip(k) =~= crate::text::lines(rest).skip(k - 1));
        let head = s.take(n + 1);
        assert(s.take(n + 1 + o) =~= head + rest.take(o));
        if rest.len() > 0 {
            assert(rest.last() == s.last());
        }
        if k < ls.len() || ends_line(s) {
            lemma_lines_add(head, rest.take(o));
            crate::text::lemma_find_unique(head, '\n', n);
            assert(head.take(n) =~= s.take(n));
            assert(head.skip(n + 1) =~= seq![]);
            assert(crate::text::lines(seq![]) =~= seq![]);
            assert(crate::text::lines(head) =~= seq![ls[0]]);
            assert(seq![ls[0]] + crate::text::lines(rest).take(k - 1) =~= ls.take(k));
            let t = head + rest.take(o);
            if rest.take(o).len() > 0 {
                assert(t.last() == rest.take(o).last());
            } else {
                assert(t =~= head);
            }
        }
    } else {
        assert(ls =~= seq![s] || s.len() == 0);
        assert(s.skip(s.len() as int) =~= seq![]);
        assert(crate::text::lines(seq![]) =~= seq![]);
        assert(ls.skip(k) =~= seq![]);
        if ends_line(s) && s.len() > 0 {
            assert(s[s.len() - 1] == '\n');
            assert(s.contains('\n'));
        }
    }
}

/// One line without a line ending.
pub proof fn lemma_open_line(l: Seq<char>)
    requires
        l.len() > 0,
        !l.contains('\n'),
    ensures
        crate::text::lines(l) == seq![l],
{
    crate::text::lemma_find(l, '\n');
}

/// Clean lines with line endings between them are read back.
pub proof fn lemma_joined_lines(ls: Seq<Seq<char>>)
    requires
        ls.len() > 0,
        forall|i: int|
            0 <= i < ls.len() ==> (#[trigger] ls[i]).len() > 0
                && clean_line(ls[i]),
    ensures
        crate::text::lines(crate::text::join(ls, seq!['\n'])) == ls,
    decreases ls.len(),
{
    let s = crate::text::join(ls, seq!['\n']);
    let l = ls[0];
    assert(l.len() > 0 && clean_line(l));
    if ls.len() == 1 {
        lemma_open_line(l);
        assert(seq![l] =~= ls);
    } else {
        let rest = ls.skip(1);
        assert forall|i: int| 0 <= i < rest.len() implies (#[trigger] rest[i]).len() > 0
            && clean_line(rest[i]) by {
            assert(rest[i] == ls[i + 1]);
        }
        lemma_joined_lines(rest);
        let t = crate::text::join(rest, seq!['\n']);
        assert(s =~= l.push('\n') + t);
        lemma_lines_single(l);
        lemma_lines_add(l.push('\n'), t);
        assert(seq![l] + rest =~= ls);
    }
}

/// The markers start with `#`, have no white space at their ends, and fit a line.
pub proof fn lemma_markers()
    ensures
        clean_line(crate::hosts::formatter::start_marker()),
        clean_line(crate::hosts::formatter::end_marker()),
        crate::text::trim(crate::hosts::formatter::start_marker())
            == crate::hosts::formatter::start_marker(),
        crate::text::trim(crate::hosts::formatter::end_marker())
            == crate::hosts::formatter::end_marker(),
        crate::hosts::formatter::start_marker().len() > 0,
        crate::hosts::formatter::end_marker().len() > 0,
        crate::hosts::formatter::start_marker()[0] == '#',
        crate::hosts::formatter::end_marker()[0] == '#',
        crate::hosts::formatter::start_marker() != crate::hosts::formatter::end_marker(),
{
    reveal_strlit("# ---- mHost start ----");
    reveal_strlit("# ---- mHost end ----");
    let s = crate::hosts::formatter::start_marker();
    let e = crate::hosts::formatter::end_marker();
    assert(s.len() == 23 && e.len() == 21);
    assert(s =~= seq![
        '#', ' ', '-', '-', '-', '-', ' ', 'm', 'H', 'o', 's', 't', ' ', 's', 't', 'a', 'r', 't',
        ' ', '-', '-', '-', '-',
    ]);
    assert(e =~= seq![
        '#', ' ', '-', '-', '-', '-', ' ', 'm', 'H', 'o', 's', 't', ' ', 'e', 'n', 'd', ' ', '-',
        '-', '-', '-',
    ]);
    crate::hosts::parser::lemma_trim_fixed(s);
    crate::hosts::parser::lemma_trim_fixed(e);
}

} // verus!
