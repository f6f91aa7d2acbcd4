//! Writing and reading undo each other.
use vstd::prelude::*;

verus! {

use crate::models::RuleFacts;

/// A comment as reading produces it: it says something, has no white space at its
/// ends, and stays on one line.
pub open spec fn neat(c: Seq<char>) -> bool {
    c.len() > 0 && !crate::text::is_white(c[0]) && !crate::text::is_white(c.last())
        && !c.contains('\n')
}

/// A rule as reading produces it.
pub open spec fn readable(r: RuleFacts) -> bool {
    &&& r.manual
    &&& r.line_number is None
    &&& match r.ip {
        Some(_) => {
            &&& r.enabled
            &&& r.domains.len() > 0
            &&& forall|i: int|
                0 <= i < r.domains.len() ==> crate::hosts::validator::valid_domain(
                    #[trigger] r.domains[i],
                )
            &&& r.comment matches Some(c) ==> neat(c)
        },
        None => {
            &&& !r.enabled
            &&& r.domains.len() == 0
            &&& r.comment matches Some(c) && neat(c) && c[0] == '#'
        },
    }
}

/// A rule as one rule for each of its domains.
pub open spec fn single_domain_rules(r: RuleFacts) -> Seq<RuleFacts> {
    if r.ip is None {
        seq![r]
    } else {
        Seq::new(r.domains.len(), |i: int| RuleFacts { domains: seq![r.domains[i]], ..r })
    }
}

/// Rules as one rule for each domain.
pub open spec fn one_per_domain(rules: Seq<RuleFacts>) -> Seq<RuleFacts>
    decreases rules.len(),
{
    if rules.len() == 0 {
        seq![]
    } else {
        one_per_domain(rules.drop_last()) + single_domain_rules(rules.last())
    }
}

/// A word in front is the first word.
pub proof fn lemma_words_first(a: Seq<char>, rest: Seq<char>)
    requires
        a.len() > 0,
        forall|i: int| 0 <= i < a.len() ==> !crate::text::is_white(#[trigger] a[i]),
        rest.len() > 0 ==> crate::text::is_white(rest[0]),
    ensures
        crate::text::words(a + rest) == seq![a] + crate::text::words(rest),
{
    let s = a + rest;
    assert(s[0] == a[0]);
    assert forall|i: int| 0 <= i < a.len() implies !crate::text::is_white(s[i]) by {
        assert(s[i] == a[i]);
    }
    crate::text::lemma_word_len_unique(s, a.len() as int);
    assert(s.take(a.len() as int) =~= a);
    assert(s.skip(a.len() as int) =~= rest);
}

/// White space in front does not count.
pub proof fn lemma_words_space(w: char, rest: Seq<char>)
    requires
        crate::text::is_white(w),
    ensures
        crate::text::words(seq![w] + rest) == crate::text::words(rest),
{
    let s = seq![w] + rest;
    assert(s.skip(1) =~= rest);
}

/// No bad word means that all are domains.
proof fn lemma_first_bad(ws: Seq<Seq<char>>)
    requires
        crate::hosts::parser::first_bad(ws) is None,
    ensures
        forall|i: int|
            0 <= i < ws.len() ==> crate::hosts::validator::valid_domain(#[trigger] ws[i]),
    decreases ws.len(),
{
    if ws.len() > 0 {
        lemma_first_bad(ws.skip(1));
        assert forall|i: int| 0 <= i < ws.len() implies crate::hosts::validator::valid_domain(
            #[trigger] ws[i],
        ) by {
            if i > 0 {
                assert(ws[i] == ws.skip(1)[i - 1]);
            }
        }
    }
}

/// A line of a text holds no line ending.
pub proof fn lemma_lines_have_no_newline(s: Seq<char>)
    ensures
        forall|i: int|
            0 <= i < crate::text::lines(s).len() ==> !(#[trigger] crate::text::lines(
                s,
            )[i]).contains('\n'),
    decreases s.len(),
{
    crate::text::lemma_find(s, '\n');
    let n = crate::text::find(s, '\n');
    let ls = crate::text::lines(s);
    if s.len() > 0 && n < s.len() {
        let rest = s.skip(n + 1);
        lemma_lines_have_no_newline(rest);
        assert forall|i: int| 0 <= i < ls.len() implies !(#[trigger] ls[i]).contains('\n') by {
            if i > 0 {
                assert(ls[i] == crate::text::lines(rest)[i - 1]);
            } else {
                let l = ls[0];
                assert forall|j: int| 0 <= j < l.len() implies l[j] != '\n' by {
                    assert(l[j] == s[j]);
                }
            }
        }
    } else if s.len() > 0 {
        assert(ls[0] == s);
    }
}

/// Reading a line without a line ending gives a rule of the readable kind.
proof fn lemma_line_readable(line: Seq<char>)
    requires
        !line.contains('\n'),
    ensures
        crate::hosts::parser::line_meaning(line) matches crate::hosts::parser::Line::Rule(r)
            ==> readable(r),
{
    let t = crate::text::trim(line);
    crate::hosts::parser::lemma_trim(line);
    assert(!t.contains('\n')) by {
        if t.contains('\n') {
            let i = choose|i: int| 0 <= i < t.len() && t[i] == '\n';
            assert(line.contains(t[i]));
        }
    }
    crate::text::lemma_find(t, '#');
    let n = crate::text::find(t, '#');
    let words = crate::text::words(t.take(n));
    match crate::hosts::parser::line_meaning(line) {
        crate::hosts::parser::Line::Rule(r) => {
            if t[0] != '#' {
                lemma_first_bad(words.skip(1));
                if n < t.len() {
                    let tail = t.skip(n + 1);
                    crate::hosts::parser::lemma_trim(tail);
                    let c = crate::text::trim(tail);
                    assert(!c.contains('\n')) by {
                        if c.contains('\n') {
                            let i = choose|i: int| 0 <= i < c.len() && c[i] == '\n';
                            assert(tail.contains(c[i]));
                            let j = choose|j: int| 0 <= j < tail.len() && tail[j] == c[i];
                            assert(t[j + n + 1] == '\n');
                        }
                    }
                }
            }
        },
        _ => {},
    }
}

/// Reading a text gives rules of the readable kind.
pub proof fn lemma_parsed_are_readable(lines: Seq<Seq<char>>)
    requires
        forall|i: int| 0 <= i < lines.len() ==> !(#[trigger] lines[i]).contains('\n'),
    ensures
        forall|i: int|
            0 <= i < crate::hosts::parser::rules_in(lines).len() ==> readable(
                #[trigger] crate::hosts::parser::rules_in(lines)[i],
            ),
    decreases lines.len(),
{
    if lines.len() > 0 {
        let init = lines.drop_last();
        assert forall|i: int| 0 <= i < init.len() implies !(#[trigger] init[i]).contains('\n') by {
            assert(init[i] == lines[i]);
        }
        lemma_parsed_are_readable(init);
        assert(!lines[lines.len() - 1].contains('\n'));
        lemma_line_readable(lines.last());
        let r = crate::hosts::parser::rules_in(lines);
        let r0 = crate::hosts::parser::rules_in(init);
        assert forall|i: int| 0 <= i < r.len() implies readable(#[trigger] r[i]) by {
            if i < r0.len() {
                assert(r[i] == r0[i]);
            }
        }
    }
}

/// The words of an address, a space and a domain.
proof fn lemma_two_words(ip: crate::net::IpAddr, d: Seq<char>, tail: Seq<char>)
    requires
        crate::hosts::validator::valid_domain(d),
        tail =~= seq![] || tail =~= seq![' '],
    ensures
        crate::text::words(crate::hosts::formatter::host_line(ip, d) + tail) == seq![
            crate::net::ip_text(ip),
            d,
        ],
{
    let a = crate::net::ip_text(ip);
    crate::net::lemma_ip_chars(ip);
    crate::hosts::validator::lemma_domain_chars(d);
    assert forall|i: int| 0 <= i < a.len() implies !crate::text::is_white(#[trigger] a[i]) by {
        assert(crate::net::is_addr_char(a[i]));
    }
    assert forall|i: int| 0 <= i < d.len() implies !crate::text::is_white(#[trigger] d[i]) by {}
    let rest = seq![' '] + (d + tail);
    assert(crate::hosts::formatter::host_line(ip, d) + tail =~= a + rest);
    lemma_words_first(a, rest);
    lemma_words_space(' ', d + tail);
    lemma_words_first(d, tail);
    if tail.len() > 0 {
        lemma_words_space(' ', seq![]);
        assert(seq![' '] + seq![] =~= tail);
    }
    assert(crate::text::words(seq![]) =~= seq![]);
    assert(crate::text::words(tail) =~= seq![]);
    assert(seq![a] + (seq![d] + crate::text::words(tail)) =~= seq![a, d]);
}

/// The line of a domain reads back as the rule of that domain.
pub proof fn lemma_domain_line(ip: crate::net::IpAddr, d: Seq<char>, comment: Option<Seq<char>>)
    requires
        crate::hosts::validator::valid_domain(d),
        comment matches Some(c) ==> neat(c),
    ensures
        crate::hosts::parser::line_meaning(crate::hosts::formatter::domain_line(ip, d, comment))
            == crate::hosts::parser::Line::Rule(
            RuleFacts { comment, ..crate::models::rule_facts(ip, seq![d]) },
        ),
        crate::hosts::block::clean_line(crate::hosts::formatter::domain_line(ip, d, comment)),
        crate::hosts::formatter::domain_line(ip, d, comment).len() > 0,
{
    let a = crate::net::ip_text(ip);
    let line = crate::hosts::formatter::domain_line(ip, d, comment);
    let h = crate::hosts::formatter::host_line(ip, d);
    crate::net::lemma_ip_chars(ip);
    crate::net::lemma_parse_ip_text(ip);
    crate::hosts::validator::lemma_domain_chars(d);
    assert forall|i: int| 0 <= i < h.len() implies h[i] != '#' && h[i] != '\n' by {
        if i < a.len() {
            assert(h[i] == a[i]);
            assert(crate::net::is_addr_char(a[i]));
        } else if i > a.len() {
            assert(h[i] == d[i - a.len() - 1]);
        }
    }
    assert(line[0] == a[0]);
    assert(crate::net::is_addr_char(a[0]));
    assert(h.last() == d.last());
    match comment {
        Some(c) => {
            let sep = seq![' ', '#', ' '];
            assert(line.last() == c.last());
            crate::hosts::parser::lemma_trim_fixed(line);
            let p = h + seq![' '];
            assert forall|i: int| 0 <= i < p.len() implies p[i] != '#' by {
                if i < h.len() {
                    assert(p[i] == h[i]);
                }
            }
            assert(line =~= p + seq!['#'] + (seq![' '] + c));
            assert(!p.contains('#'));
            crate::text::lemma_find_after(p, '#', seq![' '] + c);
            lemma_two_words(ip, d, seq![' ']);
            let tail = seq![' '] + c;
            assert(crate::text::trim(tail) == c) by {
                assert(tail.skip(1) =~= c);
                assert(crate::text::trim_start(tail) == crate::text::trim_start(c));
            }
            assert forall|i: int| 0 <= i < line.len() implies line[i] != '\n' by {
                if i < h.len() {
                    assert(line[i] == h[i]);
                } else if i < h.len() + 3 {
                    assert(line[i] == sep[i - h.len()]);
                } else {
                    assert(line[i] == c[i - h.len() - 3]);
                    assert(c.contains(c[i - h.len() - 3]));
                }
            }
        },
        None => {
            crate::hosts::parser::lemma_trim_fixed(line);
            crate::text::lemma_find_unique(line, '#', line.len() as int);
            assert(line.take(line.len() as int) =~= h + seq![]);
            lemma_two_words(ip, d, seq![]);
        },
    }
    let ws = seq![a, d];
    assert(ws.skip(1) =~= seq![d]);
    assert(seq![d].skip(1) =~= seq![]);
    assert(crate::hosts::parser::first_bad(seq![d].skip(1)) is None);
    assert(seq![d][0] == d);
    assert(crate::hosts::parser::first_bad(seq![d]) is None);
}

/// A neat comment line reads back as itself.
proof fn lemma_comment_line(c: Seq<char>)
    requires
        neat(c),
        c[0] == '#',
    ensures
        crate::hosts::parser::line_meaning(c) == crate::hosts::parser::Line::Rule(
            crate::models::comment_facts(c),
        ),
        crate::hosts::block::clean_line(c),
{
    crate::hosts::parser::lemma_trim_fixed(c);
}

/// Rules and faults of two lists of lines, one after the other.
pub proof fn lemma_rules_in_add(a: Seq<Seq<char>>, b: Seq<Seq<char>>)
    ensures
        crate::hosts::parser::rules_in(a + b) == crate::hosts::parser::rules_in(a)
            + crate::hosts::parser::rules_in(b),
        crate::hosts::parser::faults_in(a + b) == crate::hosts::parser::faults_in(a)
            + crate::hosts::parser::faults_in(b),
    decreases b.len(),
{
    if b.len() == 0 {
        assert(a + b =~= a);
        assert(crate::hosts::parser::rules_in(a) + seq![] =~= crate::hosts::parser::rules_in(a));
        assert(crate::hosts::parser::faults_in(a) + seq![] =~= crate::hosts::parser::faults_in(a));
    } else {
        lemma_rules_in_add(a, b.drop_last());
        assert((a + b).drop_last() =~= a + b.drop_last());
        assert((a + b).last() == b.last());
        assert(crate::hosts::parser::rules_in(a + b) =~= crate::hosts::parser::rules_in(a)
            + crate::hosts::parser::rules_in(b));
        assert(crate::hosts::parser::faults_in(a + b) =~= crate::hosts::parser::faults_in(a)
            + crate::hosts::parser::faults_in(b));
    }
}

/// The first lines of a rule read back as its first domains.
proof fn lemma_some_lines(r: RuleFacts, n: int)
    requires
        readable(r),
        r.ip is Some,
        0 <= n <= r.domains.len(),
    ensures
        ({
            let ls = crate::hosts::formatter::rule_lines(r).take(n);
            &&& crate::hosts::parser::rules_in(ls) == single_domain_rules(r).take(n)
            &&& crate::hosts::parser::faults_in(ls) == Seq::<crate::hosts::parser::Fault>::empty()
            &&& forall|i: int|
                0 <= i < ls.len() ==> crate::hosts::block::clean_line(#[trigger] ls[i])
        }),
    decreases n,
{
    let all = crate::hosts::formatter::rule_lines(r);
    let ls = all.take(n);
    let out = single_domain_rules(r);
    if n == 0 {
        assert(crate::hosts::parser::rules_in(ls) =~= out.take(0));
    } else {
        lemma_some_lines(r, n - 1);
        assert(ls.drop_last() =~= all.take(n - 1));
        lemma_domain_line(r.ip->0, r.domains[n - 1], r.comment);
        assert(ls.last() == crate::hosts::formatter::domain_line(
            r.ip->0,
            r.domains[n - 1],
            r.comment,
        ));
        assert(out.take(n) =~= out.take(n - 1).push(out[n - 1]));
        assert(out[n - 1].domains =~= seq![r.domains[n - 1]]);
        assert forall|i: int| 0 <= i < ls.len() implies crate::hosts::block::clean_line(
            #[trigger] ls[i],
        ) by {
            if i < n - 1 {
                assert(ls[i] == all.take(n - 1)[i]);
            }
        }
    }
}

/// The lines of a readable rule read back as that rule, one for each domain.
proof fn lemma_rule_lines(r: RuleFacts)
    requires
        readable(r),
    ensures
        ({
            let ls = crate::hosts::formatter::rule_lines(r);
            &&& crate::hosts::parser::rules_in(ls) == single_domain_rules(r)
            &&& crate::hosts::parser::faults_in(ls) == Seq::<crate::hosts::parser::Fault>::empty()
            &&& forall|i: int|
                0 <= i < ls.len() ==> crate::hosts::block::clean_line(#[trigger] ls[i])
        }),
{
    let ls = crate::hosts::formatter::rule_lines(r);
    if r.ip is Some {
        lemma_some_lines(r, r.domains.len() as int);
        assert(ls.take(r.domains.len() as int) =~= ls);
        assert(single_domain_rules(r).take(r.domains.len() as int) =~= single_domain_rules(r));
    } else {
        let c = r.comment->0;
        lemma_comment_line(c);
        assert(ls =~= seq![c]);
        assert(ls.drop_last() =~= seq![]);
        assert(crate::hosts::parser::rules_in(ls.drop_last()) =~= seq![]);
        assert(crate::hosts::parser::faults_in(ls.drop_last()) =~= seq![]);
        assert(r.domains =~= seq![]);
        assert(r =~= crate::models::comment_facts(c));
        assert(crate::hosts::parser::rules_in(ls) =~= seq![r]);
        assert(crate::hosts::parser::faults_in(ls) =~= seq![]);
    }
}

/// The lines of readable rules read back as these rules, one for each domain.
proof fn lemma_all_lines(rules: Seq<RuleFacts>)
    requires
        forall|i: int| 0 <= i < rules.len() ==> readable(#[trigger] rules[i]),
    ensures
        ({
            let ls = crate::hosts::formatter::all_lines(rules);
            &&& crate::hosts::parser::rules_in(ls) == one_per_domain(rules)
            &&& crate::hosts::parser::faults_in(ls) == Seq::<crate::hosts::parser::Fault>::empty()
            &&& forall|i: int|
                0 <= i < ls.len() ==> crate::hosts::block::clean_line(#[trigger] ls[i])
        }),
    decreases rules.len(),
{
    let ls = crate::hosts::formatter::all_lines(rules);
    if rules.len() == 0 {
        assert(crate::hosts::parser::rules_in(ls) =~= seq![]);
        assert(crate::hosts::parser::faults_in(ls) =~= seq![]);
    } else {
        let init = rules.drop_last();
        assert forall|i: int| 0 <= i < init.len() implies readable(#[trigger] init[i]) by {
            assert(init[i] == rules[i]);
        }
        lemma_all_lines(init);
        assert(readable(rules[rules.len() - 1]));
        lemma_rule_lines(rules.last());
        let a = crate::hosts::formatter::all_lines(init);
        let b = crate::hosts::formatter::rule_lines(rules.last());
        lemma_rules_in_add(a, b);
        assert(crate::hosts::parser::faults_in(ls) =~= seq![]);
        assert forall|i: int| 0 <= i < ls.len() implies crate::hosts::block::clean_line(
            #[trigger] ls[i],
        ) by {
            if i < a.len() {
                assert(ls[i] == a[i]);
            } else {
                assert(ls[i] == b[i - a.len()]);
            }
        }
    }
}

/// Writing rules and reading the text gives the rules back, one for each domain,
/// without errors. The rules are of the kind that reading produces.
pub proof fn format_then_parse(rules: Seq<RuleFacts>)
    requires
        forall|i: int| 0 <= i < rules.len() ==> readable(#[trigger] rules[i]),
    ensures
        ({
            let text = crate::hosts::formatter::rules_text(rules);
            &&& crate::hosts::parser::rules_in(crate::text::lines(text)) == one_per_domain(rules)
            &&& crate::hosts::parser::faults_in(crate::text::lines(text)).len() == 0
        }),
{
    lemma_all_lines(rules);
    crate::hosts::block::lemma_lines_of_text(crate::hosts::formatter::all_lines(rules));
}

/// What was read from any text can be written and read again: the rules come back
/// as they were, one for each domain, without errors.
pub proof fn parse_format_parse(text: Seq<char>)
    ensures
        ({
            let rules = crate::hosts::parser::rules_in(crate::text::lines(text));
            let again = crate::text::lines(crate::hosts::formatter::rules_text(rules));
            &&& crate::hosts::parser::rules_in(again) == one_per_domain(rules)
            &&& crate::hosts::parser::faults_in(again).len() == 0
        }),
{
    lemma_lines_have_no_newline(text);
    lemma_parsed_are_readable(crate::text::lines(text));
    format_then_parse(crate::hosts::parser::rules_in(crate::text::lines(text)));
}

/// A text without the line ending at its end.
pub open spec fn without_last_ending(s: Seq<char>) -> Seq<char> {
    if s.len() > 0 && s.last() == '\n' {
        s.drop_last()
    } else {
        s
    }
}

/// Whether a line of a text ends in a carriage return.
pub open spec fn has_carriage_return(s: Seq<char>) -> bool {
    exists|i: int| 0 <= i && i + 1 < s.len() && #[trigger] s[i] == '\r' && s[i + 1] == '\n'
}

/// The text of lines ends a line.
proof fn lemma_text_ends_line(ls: Seq<Seq<char>>)
    ensures
        crate::hosts::block::ends_line(crate::hosts::formatter::lines_text(ls)),
{
}

/// The lines of a text with line endings between them are the text, but for the line
/// ending at its end.
proof fn lemma_lines_joined(s: Seq<char>)
    requires
        crate::hosts::block::ends_line(s),
        !has_carriage_return(s),
    ensures
        crate::text::join(crate::text::lines(s), seq!['\n']) == without_last_ending(s),
    decreases s.len(),
{
    if s.len() == 0 {
        assert(crate::text::lines(s) =~= seq![]);
    } else {
        crate::text::lemma_find(s, '\n');
        let n = crate::text::find(s, '\n');
        assert(s.contains('\n')) by {
            assert(s[s.len() - 1] == '\n');
        }
        let l = s.take(n);
        let rest = s.skip(n + 1);
        assert(crate::text::strip_cr(l) == l) by {
            if n > 0 {
                assert(l.last() == s[n - 1]);
                assert(!(s[n - 1] == '\r' && s[n - 1 + 1] == '\n'));
            }
        }
        assert(!has_carriage_return(rest)) by {
            if has_carriage_return(rest) {
                let i = choose|i: int|
                    0 <= i && i + 1 < rest.len() && #[trigger] rest[i] == '\r' && rest[i + 1] == '\n';
                assert(s[i + n + 1] == '\r' && s[i + n + 1 + 1] == '\n');
            }
        }
        if rest.len() > 0 {
            assert(rest.last() == s.last());
        }
        lemma_lines_joined(rest);
        let ls = crate::text::lines(s);
        let more = crate::text::lines(rest);
        assert(ls =~= seq![l] + more);
        assert(ls.skip(1) =~= more);
        if rest.len() == 0 {
            assert(more =~= seq![]);
            assert(s.drop_last() =~= l);
        } else {
            crate::text::lemma_find(rest, '\n');
            assert(more.len() > 0);
            assert(s.drop_last() =~= l + seq!['\n'] + rest.drop_last());
        }
    }
}

/// What is read out of a block that was written is the text of the rules, without the line
/// ending at its end. No line of that text may be a marker, or end in a carriage return,
/// which is read as part of the line ending.
pub proof fn a_block_holds_its_rules(rules: Seq<RuleFacts>)
    requires
        rules.len() > 0,
        crate::hosts::block::no_mark(
            crate::text::lines(crate::hosts::formatter::rules_text(rules)),
            crate::hosts::formatter::start_marker(),
        ),
        crate::hosts::block::no_mark(
            crate::text::lines(crate::hosts::formatter::rules_text(rules)),
            crate::hosts::formatter::end_marker(),
        ),
        !has_carriage_return(crate::hosts::formatter::rules_text(rules)),
    ensures
        crate::hosts::block::managed_content(crate::hosts::formatter::block_text(rules)) == Some(
            without_last_ending(crate::hosts::formatter::rules_text(rules)),
        ),
{
    let sm = crate::hosts::formatter::start_marker();
    let em = crate::hosts::formatter::end_marker();
    let t = crate::hosts::formatter::rules_text(rules);
    let block = crate::hosts::formatter::block_text(rules);
    crate::hosts::block::lemma_markers();
    lemma_text_ends_line(crate::hosts::formatter::all_lines(rules));
    crate::hosts::block::lemma_lines_single(sm);
    crate::hosts::block::lemma_lines_single(em);
    let tl = crate::text::lines(t);
    let n = tl.len() as int;
    assert(block =~= sm.push('\n') + (t + em.push('\n')));
    crate::hosts::block::lemma_lines_add(t, em.push('\n'));
    crate::hosts::block::lemma_lines_add(sm.push('\n'), t + em.push('\n'));
    let ls = crate::text::lines(block);
    assert(ls =~= seq![sm] + (tl + seq![em]));
    assert(ls[0] == sm && ls[n + 1] == em);
    assert(crate::hosts::block::is_mark(ls, 0, sm));
    assert(crate::hosts::block::is_mark(ls, n + 1, em));
    assert forall|i: int| 0 <= i < ls.len() implies (crate::hosts::block::is_mark(ls, i, sm) ==> i
        == 0) && (crate::hosts::block::is_mark(ls, i, em) ==> i == n + 1) by {
        if 0 < i && i < n + 1 {
            assert(ls[i] == tl[i - 1]);
            assert(!crate::hosts::block::is_mark(tl, i - 1, sm));
            assert(!crate::hosts::block::is_mark(tl, i - 1, em));
        }
    }
    crate::hosts::block::lemma_only_mark(ls, sm, 0);
    crate::hosts::block::lemma_only_mark(ls, em, n + 1);
    assert(n > 0 ==> ls.subrange(1, n + 1) =~= tl);
    assert(n == 0 ==> tl =~= seq![]);
    lemma_lines_joined(t);
}

/// Without rules the block is empty, and nothing is read out of it.
pub proof fn no_rules_no_block_text(rules: Seq<RuleFacts>)
    requires
        rules.len() == 0,
    ensures
        crate::hosts::formatter::block_text(rules).len() == 0,
        crate::hosts::block::managed_content(crate::hosts::formatter::block_text(rules)) is None,
{
    let block = crate::hosts::formatter::block_text(rules);
    assert(crate::text::lines(block) =~= seq![]);
    assert(crate::hosts::block::only_mark(
        crate::text::lines(block),
        crate::hosts::formatter::start_marker(),
    ) is None);
}

} // verus!
