//! What holds of writing a plan, checking it, and planning again.
use vstd::prelude::*;

verus! {

use crate::models::ResolvedRule;

/// A domain that one line can hold: no line ending inside, and no carriage return
/// at its end.
pub open spec fn fits_a_line(domain: Seq<char>) -> bool {
    crate::hosts::block::clean_line(domain)
}

/// Rules whose domains each fit a line.
pub open spec fn writable(rules: Seq<ResolvedRule>) -> bool {
    forall|i: int| 0 <= i < rules.len() ==> fits_a_line((#[trigger] rules[i]).domain@)
}

/// A text without either marker.
pub open spec fn unmarked(text: Seq<char>) -> bool {
    crate::hosts::block::no_mark(
        crate::text::lines(text),
        crate::hosts::formatter::start_marker(),
    ) && crate::hosts::block::no_mark(
        crate::text::lines(text),
        crate::hosts::formatter::end_marker(),
    )
}

/// A text that a plan with rules can be written into: it has one managed block, or
/// no marker at all.
pub open spec fn well_marked(text: Seq<char>) -> bool {
    crate::hosts::block::managed_range(crate::text::lines(text)) is Some || unmarked(text)
}

/// The lines of the block: the markers, and a line for each rule between them.
spec fn block_lines(rules: Seq<ResolvedRule>) -> Seq<Seq<char>> {
    seq![crate::hosts::formatter::start_marker()] + crate::apply::diff::target_lines(rules) + seq![
        crate::hosts::formatter::end_marker(),
    ]
}

/// A line that starts with neither white space nor `#` is no marker.
proof fn lemma_not_marker(l: Seq<char>, m: Seq<char>)
    requires
        l.len() > 0,
        !crate::text::is_white(l[0]),
        l[0] != '#',
        m.len() > 0,
        m[0] == '#',
    ensures
        crate::text::trim(l) != m,
{
    crate::hosts::parser::lemma_trim_end_prefix(l);
}

/// The line of a rule starts with an address, and fits a line when its domain does.
proof fn lemma_host_line(ip: crate::net::IpAddr, d: Seq<char>)
    requires
        fits_a_line(d),
    ensures
        ({
            let l = crate::hosts::formatter::host_line(ip, d);
            &&& l.len() > 0
            &&& !crate::text::is_white(l[0])
            &&& l[0] != '#'
            &&& crate::hosts::block::clean_line(l)
        }),
{
    let a = crate::net::ip_text(ip);
    let l = crate::hosts::formatter::host_line(ip, d);
    crate::net::lemma_ip_chars(ip);
    assert(l[0] == a[0]);
    assert(crate::net::is_addr_char(a[0]));
    assert forall|i: int| 0 <= i < l.len() implies l[i] != '\n' by {
        if i < a.len() {
            assert(l[i] == a[i]);
            assert(crate::net::is_addr_char(a[i]));
        } else if i > a.len() {
            assert(l[i] == d[i - a.len() - 1]);
            assert(d.contains(d[i - a.len() - 1]));
        }
    }
    if d.len() > 0 {
        assert(l.last() == d.last());
    } else {
        assert(l.last() == ' ');
    }
}

/// The lines of the rules of a plan are its target lines.
proof fn lemma_rule_lines(rules: Seq<ResolvedRule>)
    ensures
        crate::hosts::formatter::all_lines(crate::apply::plan::hosts_rules(rules))
            == crate::apply::diff::target_lines(rules),
    decreases rules.len(),
{
    let facts = crate::apply::plan::hosts_rules(rules);
    let target = crate::apply::diff::target_lines(rules);
    if rules.len() == 0 {
        assert(target =~= seq![]);
    } else {
        lemma_rule_lines(rules.drop_last());
        assert(facts.drop_last() =~= crate::apply::plan::hosts_rules(rules.drop_last()));
        let last = rules.last();
        let line = crate::hosts::formatter::host_line(last.ip, last.domain@);
        assert(crate::hosts::formatter::rule_lines(facts.last()) =~= seq![line]);
        assert(target =~= crate::apply::diff::target_lines(rules.drop_last()).push(line));
        assert(crate::hosts::formatter::all_lines(facts) =~= target);
    }
}

/// The block of some writable rules: its lines, and that it ends a line.
proof fn lemma_block(rules: Seq<ResolvedRule>)
    requires
        writable(rules),
    ensures
        rules.len() > 0 ==> crate::text::lines(crate::apply::plan::hosts_block(rules))
            == block_lines(rules),
        rules.len() == 0 ==> crate::text::lines(crate::apply::plan::hosts_block(rules)) == Seq::<
            Seq<char>,
        >::empty(),
        crate::hosts::block::ends_line(crate::apply::plan::hosts_block(rules)),
        forall|i: int|
            0 <= i < rules.len() ==> {
                let l = #[trigger] crate::apply::diff::target_lines(rules)[i];
                l.len() > 0 && !crate::text::is_white(l[0]) && l[0] != '#'
                    && crate::hosts::block::clean_line(l)
            },
{
    let block = crate::apply::plan::hosts_block(rules);
    let target = crate::apply::diff::target_lines(rules);
    let s = crate::hosts::formatter::start_marker();
    let e = crate::hosts::formatter::end_marker();
    crate::hosts::block::lemma_markers();
    lemma_rule_lines(rules);
    assert forall|i: int| 0 <= i < rules.len() implies {
        let l = #[trigger] target[i];
        l.len() > 0 && !crate::text::is_white(l[0]) && l[0] != '#'
            && crate::hosts::block::clean_line(l)
    } by {
        assert(fits_a_line(rules[i].domain@));
        lemma_host_line(rules[i].ip, rules[i].domain@);
    }
    if rules.len() == 0 {
        assert(crate::apply::plan::hosts_rules(rules).len() == 0);
        assert(block =~= seq![]);
        assert(crate::text::lines(block) =~= seq![]);
    } else {
        let all = block_lines(rules);
        assert forall|i: int| 0 <= i < all.len() implies crate::hosts::block::clean_line(
            #[trigger] all[i],
        ) by {
            if 0 < i && i < all.len() - 1 {
                assert(all[i] == target[i - 1]);
            }
        }
        crate::hosts::block::lemma_lines_of_text(all);
        crate::hosts::formatter::lemma_lines_text_add(seq![s] + target, seq![e]);
        crate::hosts::formatter::lemma_lines_text_add(seq![s], target);
        lemma_one_line(s);
        lemma_one_line(e);
        assert(block =~= crate::hosts::formatter::lines_text(all));
    }
}

/// The text of one line.
proof fn lemma_one_line(l: Seq<char>)
    ensures
        crate::hosts::formatter::lines_text(seq![l]) == l.push('\n'),
{
    assert(seq![l].drop_last() =~= seq![]);
    assert(crate::hosts::formatter::lines_text(seq![l].drop_last()) =~= seq![]);
    assert(crate::hosts::formatter::lines_text(seq![l]) =~= l.push('\n'));
}

/// A line ending behind an open last line leaves all lines as they are, but for a
/// carriage return that now belongs to the line ending.
proof fn lemma_close_lines(s: Seq<char>)
    requires
        s.len() > 0,
        s.last() != '\n',
    ensures
        crate::text::lines(s.push('\n')).len() == crate::text::lines(s).len(),
        forall|i: int|
            0 <= i < crate::text::lines(s).len() ==> crate::text::trim(
                #[trigger] crate::text::lines(s.push('\n'))[i],
            ) == crate::text::trim(crate::text::lines(s)[i]),
    decreases s.len(),
{
    let t = s.push('\n');
    crate::text::lemma_find(s, '\n');
    let n = crate::text::find(s, '\n');
    let a = crate::text::lines(s);
    let b = crate::text::lines(t);
    if n < s.len() {
        crate::text::lemma_find_unique(t, '\n', n);
        let rest = s.skip(n + 1);
        if n + 1 == s.len() {
            assert(s.last() == s[n]);
        }
        assert(rest.last() == s.last());
        lemma_close_lines(rest);
        assert(t.skip(n + 1) =~= rest.push('\n'));
        assert(t.take(n) =~= s.take(n));
        assert forall|i: int| 0 <= i < a.len() implies crate::text::trim(#[trigger] b[i])
            == crate::text::trim(a[i]) by {
            if i > 0 {
                assert(a[i] == crate::text::lines(rest)[i - 1]);
                assert(b[i] == crate::text::lines(rest.push('\n'))[i - 1]);
            }
        }
    } else {
        crate::text::lemma_find_unique(t, '\n', s.len() as int);
        assert(t.take(s.len() as int) =~= s);
        assert(t.skip(s.len() as int + 1) =~= seq![]);
        assert(crate::text::lines(seq![]) =~= seq![]);
        assert(a =~= seq![s]);
        assert(b =~= seq![crate::text::strip_cr(s)]);
        if s.last() == '\r' {
            crate::hosts::parser::lemma_trim_drop_last(s);
        }
    }
}

/// Closing a text moves no marker.
proof fn lemma_close_marks(s: Seq<char>, m: Seq<char>)
    ensures
        crate::text::lines(crate::apply::content::closed_text(s)).len() == crate::text::lines(
            s,
        ).len(),
        forall|i: int|
            crate::hosts::block::is_mark(
                crate::text::lines(crate::apply::content::closed_text(s)),
                i,
                m,
            ) == crate::hosts::block::is_mark(crate::text::lines(s), i, m),
        crate::hosts::block::ends_line(crate::apply::content::closed_text(s)),
{
    if s.len() > 0 && s.last() != '\n' {
        lemma_close_lines(s);
    }
}

/// The text before and behind the place of the block, and the lines of each.
spec fn before_block(current: Seq<char>) -> Seq<char> {
    match crate::hosts::block::managed_span(current) {
        Some((a, b)) => current.take(a),
        None => crate::apply::content::closed_text(current),
    }
}

spec fn behind_block(current: Seq<char>) -> Seq<char> {
    match crate::hosts::block::managed_span(current) {
        Some((a, b)) => current.skip(b),
        None => seq![],
    }
}

/// Neither the text before the block nor the text behind it holds a marker.
proof fn lemma_surroundings(current: Seq<char>)
    requires
        well_marked(current),
    ensures
        crate::hosts::block::ends_line(before_block(current)),
        unmarked(before_block(current)),
        unmarked(behind_block(current)),
{
    let ls = crate::text::lines(current);
    let sm = crate::hosts::formatter::start_marker();
    let em = crate::hosts::formatter::end_marker();
    match crate::hosts::block::managed_range(ls) {
        Some((s, e)) => {
            assert(crate::hosts::block::is_mark(ls, s, sm));
            assert(crate::hosts::block::is_mark(ls, e, em));
            crate::hosts::block::lemma_cut_lines(current, s);
            crate::hosts::block::lemma_cut_lines(current, e + 1);
            crate::hosts::block::lemma_markers_differ();
            assert(s < e);
            let a = crate::text::lines(before_block(current));
            let b = crate::text::lines(behind_block(current));
            assert(a == ls.take(s));
            assert(b == ls.skip(e + 1));
            assert forall|i: int| !crate::hosts::block::is_mark(a, i, sm) by {
                if crate::hosts::block::is_mark(a, i, sm) {
                    assert(crate::hosts::block::is_mark(ls, i, sm));
                }
            }
            assert forall|i: int| !crate::hosts::block::is_mark(a, i, em) by {
                if crate::hosts::block::is_mark(a, i, em) {
                    assert(crate::hosts::block::is_mark(ls, i, em));
                }
            }
            assert forall|i: int| !crate::hosts::block::is_mark(b, i, sm) by {
                if crate::hosts::block::is_mark(b, i, sm) {
                    assert(crate::hosts::block::is_mark(ls, i + e + 1, sm));
                }
            }
            assert forall|i: int| !crate::hosts::block::is_mark(b, i, em) by {
                if crate::hosts::block::is_mark(b, i, em) {
                    assert(crate::hosts::block::is_mark(ls, i + e + 1, em));
                }
            }
        },
        None => {
            lemma_close_marks(current, sm);
            lemma_close_marks(current, em);
            let c = crate::text::lines(before_block(current));
            assert forall|i: int| !crate::hosts::block::is_mark(c, i, sm) by {
                assert(!crate::hosts::block::is_mark(ls, i, sm));
            }
            assert forall|i: int| !crate::hosts::block::is_mark(c, i, em) by {
                assert(!crate::hosts::block::is_mark(ls, i, em));
            }
            assert(crate::text::lines(seq![]) =~= seq![]);
        },
    }
}

/// The block of writable rules between two unmarked texts is the managed block.
proof fn lemma_placed(p: Seq<char>, q: Seq<char>, rules: Seq<ResolvedRule>)
    requires
        writable(rules),
        rules.len() > 0,
        crate::hosts::block::ends_line(p),
        unmarked(p),
        unmarked(q),
    ensures
        ({
            let text = p + crate::apply::plan::hosts_block(rules) + q;
            let n = crate::text::lines(p).len() as int;
            &&& crate::hosts::block::managed_range(crate::text::lines(text)) == Some(
                (n, n + rules.len() + 1),
            )
            &&& crate::hosts::block::managed_lines(crate::text::lines(text)) == Some(
                crate::apply::diff::target_lines(rules),
            )
        }),
{
    let block = crate::apply::plan::hosts_block(rules);
    let text = p + block + q;
    let sm = crate::hosts::formatter::start_marker();
    let em = crate::hosts::formatter::end_marker();
    let target = crate::apply::diff::target_lines(rules);
    lemma_block(rules);
    crate::hosts::block::lemma_markers();
    let pl = crate::text::lines(p);
    let ql = crate::text::lines(q);
    let bl = block_lines(rules);
    let n = pl.len() as int;
    crate::hosts::block::lemma_lines_add(block, q);
    assert(p + block + q =~= p + (block + q));
    crate::hosts::block::lemma_lines_add(p, block + q);
    let ls = crate::text::lines(text);
    assert(ls =~= pl + (bl + ql));
    let e = n + rules.len() + 1;
    assert(ls[n] == bl[0]);
    assert(ls[e] == bl[bl.len() - 1]);
    assert(crate::hosts::block::is_mark(ls, n, sm));
    assert(crate::hosts::block::is_mark(ls, e, em));
    assert forall|i: int| 0 <= i < ls.len() implies (crate::hosts::block::is_mark(ls, i, sm) ==> i
        == n) && (crate::hosts::block::is_mark(ls, i, em) ==> i == e) by {
        if i < n {
            assert(ls[i] == pl[i]);
            assert(!crate::hosts::block::is_mark(pl, i, sm));
            assert(!crate::hosts::block::is_mark(pl, i, em));
        } else if n < i && i < e {
            assert(ls[i] == bl[i - n]);
            assert(bl[i - n] == target[i - n - 1]);
            lemma_not_marker(target[i - n - 1], sm);
            lemma_not_marker(target[i - n - 1], em);
        } else if i > e {
            assert(ls[i] == ql[i - e - 1]);
            assert(!crate::hosts::block::is_mark(ql, i - e - 1, sm));
            assert(!crate::hosts::block::is_mark(ql, i - e - 1, em));
        }
    }
    crate::hosts::block::lemma_only_mark(ls, sm, n);
    crate::hosts::block::lemma_only_mark(ls, em, e);
    assert(ls.subrange(n + 1, e) =~= target);
}

/// No rule is missing from its own lines.
proof fn lemma_none_missing(rules: Seq<ResolvedRule>, lines: Seq<Seq<char>>)
    requires
        forall|i: int|
            0 <= i < rules.len() ==> lines.contains(
                #[trigger] crate::apply::diff::target_lines(rules)[i],
            ),
    ensures
        crate::apply::verification::first_missing(rules, lines) is None,
    decreases rules.len(),
{
    let target = crate::apply::diff::target_lines(rules);
    if rules.len() > 0 {
        let rest = rules.skip(1);
        assert(lines.contains(target[0]));
        assert forall|i: int| 0 <= i < rest.len() implies lines.contains(
            #[trigger] crate::apply::diff::target_lines(rest)[i],
        ) by {
            assert(crate::apply::diff::target_lines(rest)[i] == target[i + 1]);
        }
        lemma_none_missing(rest, lines);
    }
}

/// The new text as the surroundings with the block between them.
proof fn lemma_new_content(current: Seq<char>, rules: Seq<ResolvedRule>)
    ensures
        crate::apply::content::new_content(current, rules) == before_block(current)
            + crate::apply::plan::hosts_block(rules) + behind_block(current),
{
    let block = crate::apply::plan::hosts_block(rules);
    if crate::hosts::block::managed_span(current) is None {
        assert(before_block(current) + block + seq![] =~= before_block(current) + block);
    }
}

/// What is written passes the check: the new text of a hosts file holds every rule
/// of the plan, and no managed block when the plan has no rules. The domains fit a
/// line each, and a text that rules are written into is not marked in disorder.
pub proof fn written_content_passes_the_check(current: Seq<char>, rules: Seq<ResolvedRule>)
    requires
        writable(rules),
        rules.len() > 0 ==> well_marked(current),
    ensures
        crate::apply::verification::shortcoming(
            crate::apply::content::new_content(current, rules),
            rules,
        ) is None,
{
    let text = crate::apply::content::new_content(current, rules);
    let target = crate::apply::diff::target_lines(rules);
    lemma_new_content(current, rules);
    lemma_block(rules);
    if rules.len() > 0 {
        lemma_surroundings(current);
        lemma_placed(before_block(current), behind_block(current), rules);
        crate::hosts::block::lemma_joined_lines(target);
        assert forall|i: int| 0 <= i < rules.len() implies target.contains(#[trigger] target[i]) by {
        }
        lemma_none_missing(rules, target);
    } else {
        no_rules_no_block(current, rules);
    }
}

/// Writing a plan without rules leaves no managed block.
pub proof fn no_rules_no_block(current: Seq<char>, rules: Seq<ResolvedRule>)
    requires
        rules.len() == 0,
    ensures
        crate::hosts::block::managed_range(
            crate::text::lines(crate::apply::content::new_content(current, rules)),
        ) is None,
{
    let text = crate::apply::content::new_content(current, rules);
    let ls = crate::text::lines(current);
    let sm = crate::hosts::formatter::start_marker();
    let em = crate::hosts::formatter::end_marker();
    lemma_new_content(current, rules);
    lemma_block(rules);
    assert(crate::apply::plan::hosts_rules(rules).len() == 0);
    let p = before_block(current);
    let q = behind_block(current);
    assert(text =~= p + q);
    match crate::hosts::block::managed_range(ls) {
        Some(_) => {
            lemma_surroundings(current);
            crate::hosts::block::lemma_lines_add(p, q);
            let a = crate::text::lines(p);
            let b = crate::text::lines(q);
            assert forall|i: int| !crate::hosts::block::is_mark(a + b, i, sm) by {
                if crate::hosts::block::is_mark(a + b, i, sm) {
                    if i < a.len() {
                        assert(crate::hosts::block::is_mark(a, i, sm));
                    } else {
                        assert(crate::hosts::block::is_mark(b, i - a.len(), sm));
                    }
                }
            }
            assert(crate::hosts::block::only_mark(a + b, sm) is None);
        },
        None => {
            assert(text =~= p);
            lemma_close_marks(current, sm);
            lemma_close_marks(current, em);
            let c = crate::text::lines(p);
            lemma_same_marks(ls, c, sm);
            lemma_same_marks(ls, c, em);
        },
    }
}

/// Lists of lines with the same markers have the same only marker.
proof fn lemma_same_marks(a: Seq<Seq<char>>, b: Seq<Seq<char>>, m: Seq<char>)
    requires
        forall|i: int|
            crate::hosts::block::is_mark(b, i, m) == crate::hosts::block::is_mark(a, i, m),
    ensures
        crate::hosts::block::only_mark(a, m) == crate::hosts::block::only_mark(b, m),
{
    match crate::hosts::block::only_mark(a, m) {
        Some(i) => {
            assert(crate::hosts::block::is_mark(b, i, m));
            crate::hosts::block::lemma_only_mark(b, m, i);
        },
        None => {
            if crate::hosts::block::only_mark(b, m) is Some {
                let i = crate::hosts::block::only_mark(b, m)->0;
                assert(crate::hosts::block::is_mark(a, i, m));
                crate::hosts::block::lemma_only_mark(a, m, i);
            }
        },
    }
}

/// Where the lines of a second text start.
pub(crate) proof fn lemma_offset_add(a: Seq<char>, b: Seq<char>, k: int)
    requires
        crate::hosts::block::ends_line(a),
        k >= 0,
    ensures
        crate::hosts::block::line_offset(a + b, crate::text::lines(a).len() + k) == a.len()
            + crate::hosts::block::line_offset(b, k),
    decreases a.len(),
{
    if a.len() == 0 {
        assert(a + b =~= b);
        assert(crate::text::lines(a) =~= seq![]);
    } else {
        crate::text::lemma_find(a, '\n');
        let n = crate::text::find(a, '\n');
        assert(a.contains('\n')) by {
            assert(a[a.len() - 1] == '\n');
        }
        let rest = a.skip(n + 1);
        if rest.len() > 0 {
            assert(rest.last() == a.last());
        }
        lemma_offset_add(rest, b, k);
        let s = a + b;
        crate::text::lemma_find_unique(s, '\n', n);
        assert(s.skip(n + 1) =~= rest + b);
        assert(crate::text::lines(a).len() == 1 + crate::text::lines(rest).len());
    }
}

/// The last plan that is written decides: writing a plan over another one gives what
/// writing it alone would have given.
pub proof fn the_last_plan_decides(
    current: Seq<char>,
    rules: Seq<ResolvedRule>,
    others: Seq<ResolvedRule>,
)
    requires
        writable(rules),
        rules.len() > 0,
        well_marked(current),
    ensures
        crate::apply::content::new_content(
            crate::apply::content::new_content(current, rules),
            others,
        ) == crate::apply::content::new_content(current, others),
{
    let text = crate::apply::content::new_content(current, rules);
    let block = crate::apply::plan::hosts_block(rules);
    let p = before_block(current);
    let q = behind_block(current);
    lemma_new_content(current, rules);
    lemma_new_content(current, others);
    lemma_surroundings(current);
    lemma_placed(p, q, rules);
    lemma_block(rules);
    let n = crate::text::lines(p).len() as int;
    let m = crate::text::lines(block).len() as int;
    assert(m == rules.len() + 2);
    assert(text =~= p + (block + q));
    lemma_offset_add(p, block + q, 0);
    lemma_offset_add(p, block + q, m);
    lemma_offset_add(block, q, 0);
    assert(crate::hosts::block::line_offset(q, 0) == 0);
    assert(crate::hosts::block::line_offset(block + q, 0) == 0);
    assert(crate::hosts::block::managed_span(text) == Some(
        (p.len() as int, (p.len() + block.len()) as int),
    ));
    assert(text.take(p.len() as int) =~= p);
    assert(text.skip((p.len() + block.len()) as int) =~= q);
}

/// Writing the same plan again changes nothing.
pub proof fn writing_twice_is_writing_once(current: Seq<char>, rules: Seq<ResolvedRule>)
    requires
        writable(rules),
        rules.len() > 0,
        well_marked(current),
    ensures
        crate::apply::content::new_content(
            crate::apply::content::new_content(current, rules),
            rules,
        ) == crate::apply::content::new_content(current, rules),
{
    the_last_plan_decides(current, rules, rules);
}

/// The text of the user survives: once a plan is written into a text without markers and
/// then taken out again, the text is back, with a line ending at its end.
pub proof fn taking_out_undoes_writing(
    current: Seq<char>,
    rules: Seq<ResolvedRule>,
    none: Seq<ResolvedRule>,
)
    requires
        writable(rules),
        rules.len() > 0,
        unmarked(current),
        none.len() == 0,
    ensures
        crate::apply::content::new_content(
            crate::apply::content::new_content(current, rules),
            none,
        ) == crate::apply::content::closed_text(current),
{
    let ls = crate::text::lines(current);
    let sm = crate::hosts::formatter::start_marker();
    the_last_plan_decides(current, rules, none);
    assert(crate::hosts::block::only_mark(ls, sm) is None);
    lemma_block(none);
    assert(crate::apply::plan::hosts_rules(none).len() == 0);
    assert(crate::apply::content::new_content(current, none)
        =~= crate::apply::content::closed_text(current));
}

/// The lines of rules with valid domains read back as these rules.
proof fn lemma_target_rules(rules: Seq<ResolvedRule>)
    requires
        forall|i: int|
            0 <= i < rules.len() ==> crate::hosts::validator::valid_domain(
                (#[trigger] rules[i]).domain@,
            ),
    ensures
        crate::hosts::parser::rules_in(crate::apply::diff::target_lines(rules))
            == crate::apply::plan::hosts_rules(rules),
        crate::apply::diff::all_plain_lines(crate::apply::plan::hosts_rules(rules))
            == crate::apply::diff::target_lines(rules),
    decreases rules.len(),
{
    let target = crate::apply::diff::target_lines(rules);
    let facts = crate::apply::plan::hosts_rules(rules);
    if rules.len() == 0 {
        assert(target =~= seq![]);
        assert(facts =~= seq![]);
        assert(crate::hosts::parser::rules_in(target) =~= facts);
    } else {
        let init = rules.drop_last();
        assert forall|i: int| 0 <= i < init.len() implies crate::hosts::validator::valid_domain(
            (#[trigger] init[i]).domain@,
        ) by {
            assert(init[i] == rules[i]);
        }
        lemma_target_rules(init);
        let last = rules[rules.len() - 1];
        assert(crate::hosts::validator::valid_domain(last.domain@));
        let line = crate::hosts::formatter::host_line(last.ip, last.domain@);
        crate::hosts::round_trip::lemma_domain_line(last.ip, last.domain@, None);
        assert(target =~= crate::apply::diff::target_lines(init).push(line));
        assert(target.drop_last() =~= crate::apply::diff::target_lines(init));
        let fact = crate::models::rule_facts(last.ip, seq![last.domain@]);
        assert(facts =~= crate::apply::plan::hosts_rules(init).push(fact));
        assert(facts.drop_last() =~= crate::apply::plan::hosts_rules(init));
        assert(target.last() == line);
        assert(crate::apply::diff::plain_lines(fact) =~= seq![line]);
        assert(crate::apply::diff::all_plain_lines(facts) =~= target);
    }
}

/// A domain fits a line.
proof fn lemma_domain_fits(d: Seq<char>)
    requires
        crate::hosts::validator::valid_domain(d),
    ensures
        fits_a_line(d),
{
    crate::hosts::validator::lemma_domain_chars(d);
    assert forall|i: int| 0 <= i < d.len() implies d[i] != '\n' by {}
}

/// Once a plan is written, planning the same rules again finds nothing to change:
/// nothing to add, nothing to remove, and so no backup to keep.
pub proof fn nothing_changes_after_writing(
    current: Seq<char>,
    rules: Seq<ResolvedRule>,
    d: crate::models::HostsDiff,
)
    requires
        forall|i: int|
            0 <= i < rules.len() ==> crate::hosts::validator::valid_domain(
                (#[trigger] rules[i]).domain@,
            ),
        rules.len() > 0 ==> well_marked(current),
        crate::apply::diff::diff_between(
            d,
            crate::apply::diff::existing_lines(
                crate::apply::content::new_content(current, rules),
            ),
            crate::apply::diff::target_lines(rules),
        ),
    ensures
        d.added@.len() == 0,
        d.removed@.len() == 0,
{
    let text = crate::apply::content::new_content(current, rules);
    let target = crate::apply::diff::target_lines(rules);
    assert forall|i: int| 0 <= i < rules.len() implies fits_a_line(
        (#[trigger] rules[i]).domain@,
    ) by {
        lemma_domain_fits(rules[i].domain@);
    }
    if rules.len() > 0 {
        lemma_new_content(current, rules);
        lemma_surroundings(current);
        lemma_placed(before_block(current), behind_block(current), rules);
        lemma_block(rules);
        crate::hosts::block::lemma_joined_lines(target);
        lemma_target_rules(rules);
        assert(crate::apply::diff::existing_lines(text) == target);
    } else {
        no_rules_no_block(current, rules);
        assert(crate::apply::diff::existing_lines(text) =~= target);
    }
    assert(target.to_set().difference(target.to_set()) =~= Set::empty());
    crate::apply::diff::lemma_lists_nothing(
        d.added@,
        target.to_set().difference(target.to_set()),
    );
    crate::apply::diff::lemma_lists_nothing(
        d.removed@,
        target.to_set().difference(target.to_set()),
    );
}

} // verus!
