//! What reading a hosts file gives, said of the characters of its lines.
use vstd::prelude::*;

use crate::error::ParseError;
use crate::hosts::parser::{ParseErrorAtLine, ParseResult, Parser, ValidateResult};

verus! {

use crate::hosts::parser::{Fault, Line};
use crate::models::RuleFacts;

/// Words with something in front of each.
pub open spec fn spaced(gaps: Seq<Seq<char>>, words: Seq<Seq<char>>) -> Seq<char>
    decreases words.len(),
{
    if words.len() == 0 {
        seq![]
    } else {
        gaps[0] + words[0] + spaced(gaps.skip(1), words.skip(1))
    }
}

/// Words that a line can hold, with white space in front of each: between two words there is
/// some, and the first may have none.
pub open spec fn well_spaced(gaps: Seq<Seq<char>>, words: Seq<Seq<char>>) -> bool {
    &&& gaps.len() == words.len()
    &&& forall|m: int, i: int|
        0 <= m < gaps.len() && 0 <= i < gaps[m].len() ==> crate::text::is_white(
            #[trigger] gaps[m][i],
        )
    &&& forall|m: int| 0 < m < gaps.len() ==> (#[trigger] gaps[m]).len() > 0
    &&& forall|m: int| 0 <= m < words.len() ==> (#[trigger] words[m]).len() > 0
    &&& forall|m: int, i: int|
        0 <= m < words.len() && 0 <= i < words[m].len() ==> !crate::text::is_white(
            #[trigger] words[m][i],
        ) && words[m][i] != '#'
}

/// What follows the words of a line: white space, and a comment behind a `#`, if any.
pub open spec fn line_end(back: Seq<char>, comment: Option<Seq<char>>) -> Seq<char> {
    match comment {
        Some(c) => back + seq!['#'] + c,
        None => back,
    }
}

/// The words without the first are spaced as well.
proof fn lemma_rest_spaced(gaps: Seq<Seq<char>>, words: Seq<Seq<char>>)
    requires
        well_spaced(gaps, words),
        words.len() > 0,
    ensures
        well_spaced(gaps.skip(1), words.skip(1)),
{
    let g = gaps.skip(1);
    let w = words.skip(1);
    assert forall|m: int, i: int| 0 <= m < g.len() && 0 <= i < g[m].len() implies crate::text::is_white(
        #[trigger] g[m][i],
    ) by {
        assert(gaps[m + 1][i] == g[m][i]);
    }
    assert forall|m: int| 0 < m < g.len() implies (#[trigger] g[m]).len() > 0 by {
        assert(gaps[m + 1] == g[m]);
    }
    assert forall|m: int| 0 <= m < w.len() implies (#[trigger] w[m]).len() > 0 by {
        assert(words[m + 1] == w[m]);
    }
    assert forall|m: int, i: int|
        0 <= m < w.len() && 0 <= i < w[m].len() implies !crate::text::is_white(#[trigger] w[m][i])
        && w[m][i] != '#' by {
        assert(words[m + 1][i] == w[m][i]);
    }
}

/// Spaced words hold no `#`, and end with no white space.
proof fn lemma_spaced_chars(gaps: Seq<Seq<char>>, words: Seq<Seq<char>>)
    requires
        well_spaced(gaps, words),
    ensures
        forall|i: int| 0 <= i < spaced(gaps, words).len() ==> #[trigger] spaced(gaps, words)[i] != '#',
        words.len() > 0 ==> spaced(gaps, words).len() > 0 && !crate::text::is_white(
            spaced(gaps, words).last(),
        ),
    decreases words.len(),
{
    if words.len() > 0 {
        let g = gaps.skip(1);
        let w = words.skip(1);
        lemma_rest_spaced(gaps, words);
        lemma_spaced_chars(g, w);
        let s = spaced(gaps, words);
        let n = gaps[0].len() as int;
        let k = words[0].len() as int;
        assert forall|i: int| 0 <= i < s.len() implies #[trigger] s[i] != '#' by {
            if i < n {
                assert(s[i] == gaps[0][i]);
            } else if i < n + k {
                assert(s[i] == words[0][i - n]);
            } else {
                assert(s[i] == spaced(g, w)[i - n - k]);
            }
        }
        assert(words[0].len() > 0);
        if w.len() == 0 {
            assert(spaced(g, w) =~= seq![]);
            assert(s.last() == words[0][k - 1]);
        } else {
            assert(s.last() == spaced(g, w).last());
        }
    }
}

/// The words of spaced words, whatever white space follows, are these words.
pub proof fn spaced_words_are_read(gaps: Seq<Seq<char>>, words: Seq<Seq<char>>, back: Seq<char>)
    requires
        well_spaced(gaps, words),
        forall|i: int| 0 <= i < back.len() ==> crate::text::is_white(#[trigger] back[i]),
    ensures
        crate::text::words(spaced(gaps, words) + back) == words,
    decreases words.len(),
{
    if words.len() == 0 {
        assert(spaced(gaps, words) + back =~= back);
        crate::text_laws::lemma_words_front(back, Seq::empty());
        assert(back + Seq::<char>::empty() =~= back);
        assert(crate::text::words(Seq::<char>::empty()) =~= seq![]);
        assert(words =~= seq![]);
    } else {
        let g = gaps.skip(1);
        let w = words.skip(1);
        lemma_rest_spaced(gaps, words);
        spaced_words_are_read(g, w, back);
        let rest = spaced(g, w) + back;
        assert(words[0].len() > 0);
        assert forall|i: int| 0 <= i < gaps[0].len() implies crate::text::is_white(
            #[trigger] gaps[0][i],
        ) by {}
        assert forall|i: int| 0 <= i < words[0].len() implies !crate::text::is_white(
            #[trigger] words[0][i],
        ) by {}
        if rest.len() > 0 {
            if w.len() > 0 {
                assert(g[0] == gaps[1]);
                assert(rest[0] == gaps[1][0]);
            } else {
                assert(spaced(g, w) =~= seq![]);
                assert(rest[0] == back[0]);
            }
        }
        crate::text_laws::words_stand_between_white_space(gaps[0], words[0], rest);
        assert(spaced(gaps, words) + back =~= gaps[0] + words[0] + rest);
        assert(seq![words[0]] + w =~= words);
    }
}

/// What a line of words comes to: the text that counts starts with the first word, the words
/// stand before its first `#`, and the comment is what was behind it.
proof fn lemma_line_parts(
    gaps: Seq<Seq<char>>,
    words: Seq<Seq<char>>,
    back: Seq<char>,
    comment: Option<Seq<char>>,
)
    requires
        well_spaced(gaps, words),
        words.len() > 0,
        forall|i: int| 0 <= i < back.len() ==> crate::text::is_white(#[trigger] back[i]),
    ensures
        ({
            let t = crate::text::trim(spaced(gaps, words) + line_end(back, comment));
            &&& t.len() > 0
            &&& t[0] == words[0][0]
            &&& crate::text::words(t.take(crate::text::find(t, '#'))) == words
            &&& crate::hosts::parser::inline_comment(t) == match comment {
                Some(c) => if crate::text::trim(c).len() > 0 {
                    Some(crate::text::trim(c))
                } else {
                    None
                },
                None => None,
            }
        }),
{
    let g = gaps.skip(1);
    let w = words.skip(1);
    let line = spaced(gaps, words) + line_end(back, comment);
    let body = words[0] + spaced(g, w);
    let none = gaps.update(0, seq![]);
    lemma_spaced_chars(gaps, words);
    assert(spaced(gaps, words) =~= gaps[0] + body);
    assert(words[0].len() > 0);
    assert(body[0] == words[0][0]);
    assert(!crate::text::is_white(words[0][0]) && words[0][0] != '#');
    assert forall|i: int| 0 <= i < gaps[0].len() implies crate::text::is_white(
        #[trigger] gaps[0][i],
    ) by {}
    assert(well_spaced(none, words)) by {
        assert forall|m: int, i: int|
            0 <= m < none.len() && 0 <= i < none[m].len() implies crate::text::is_white(
            #[trigger] none[m][i],
        ) by {
            assert(m > 0);
            assert(gaps[m][i] == none[m][i]);
        }
        assert forall|m: int| 0 < m < none.len() implies (#[trigger] none[m]).len() > 0 by {
            assert(gaps[m] == none[m]);
        }
    }
    assert(none.skip(1) =~= g);
    assert(spaced(none, words) =~= body);
    lemma_spaced_chars(none, words);
    match comment {
        None => {
            assert(line =~= gaps[0] + body + back);
            crate::text_laws::trimming_takes_the_ends_off(gaps[0], body, back);
            crate::text_laws::the_first_place_is_found(body, '#', seq![]);
            assert(body.take(body.len() as int) =~= body);
            spaced_words_are_read(none, words, seq![]);
            assert(body + Seq::<char>::empty() =~= body);
        },
        Some(c) => {
            let o = crate::text_laws::only_white_space_is_trimmed(c);
            let h = body + back;
            let e: int = if o.0 < o.1 {
                o.1
            } else {
                0
            };
            if o.0 == o.1 {
                assert forall|i: int| 0 <= i < c.len() implies crate::text::is_white(
                    #[trigger] c[i],
                ) by {}
            }
            let kept = c.take(e);
            let gone = c.skip(e);
            let t = h + seq!['#'] + kept;
            assert forall|i: int| 0 <= i < gone.len() implies crate::text::is_white(
                #[trigger] gone[i],
            ) by {
                assert(gone[i] == c[i + e]);
            }
            assert(line =~= gaps[0] + t + gone);
            assert(t[0] == body[0]);
            if e > 0 {
                assert(t.last() == c[e - 1]);
            } else {
                assert(t.last() == '#');
            }
            crate::text_laws::trimming_takes_the_ends_off(gaps[0], t, gone);
            assert forall|i: int| 0 <= i < h.len() implies h[i] != '#' by {
                if i < body.len() {
                    assert(h[i] == body[i]);
                } else {
                    assert(h[i] == back[i - body.len()]);
                }
            }
            crate::text_laws::the_first_place_is_found(h, '#', kept);
            assert(t.take(h.len() as int) =~= h);
            assert(t.skip(h.len() as int + 1) =~= kept);
            spaced_words_are_read(none, words, back);
            if e > 0 {
                let front = c.take(o.0);
                let mid = c.subrange(o.0, o.1);
                assert(kept =~= front + mid + Seq::<char>::empty());
                crate::text_laws::trimming_takes_the_ends_off(front, mid, Seq::empty());
            } else {
                assert(kept =~= seq![]);
                assert(crate::text::trim(kept) =~= seq![]) by {
                    crate::text_laws::trimming_takes_the_ends_off(
                        Seq::empty(),
                        Seq::empty(),
                        Seq::empty(),
                    );
                    assert(Seq::<char>::empty() + Seq::<char>::empty() + Seq::<char>::empty()
                        =~= kept);
                }
            }
        },
    }
}

/// Words that are all domains have no bad one among them, and otherwise the first bad one is
/// named.
proof fn lemma_first_bad(words: Seq<Seq<char>>, b: int)
    requires
        0 <= b <= words.len(),
        forall|m: int| 0 <= m < b ==> crate::hosts::validator::valid_domain(#[trigger] words[m]),
        b < words.len() ==> !crate::hosts::validator::valid_domain(words[b]),
    ensures
        crate::hosts::parser::first_bad(words) == if b < words.len() {
            Some(words[b])
        } else {
            None
        },
    decreases words.len(),
{
    if b > 0 {
        assert(crate::hosts::validator::valid_domain(words[0]));
        let rest = words.skip(1);
        assert forall|m: int| 0 <= m < b - 1 implies crate::hosts::validator::valid_domain(
            #[trigger] rest[m],
        ) by {
            assert(rest[m] == words[m + 1]);
        }
        lemma_first_bad(rest, b - 1);
    }
}

/// A line of an address and one or more domains, with any white space between and around
/// them, is a rule in force that gives the address to these domains. A comment behind a `#`
/// is kept without the white space at its ends, if that leaves anything.
pub proof fn an_address_and_domains_are_a_rule(
    gaps: Seq<Seq<char>>,
    words: Seq<Seq<char>>,
    back: Seq<char>,
    comment: Option<Seq<char>>,
    ip: crate::net::IpAddr,
)
    requires
        well_spaced(gaps, words),
        forall|i: int| 0 <= i < back.len() ==> crate::text::is_white(#[trigger] back[i]),
        words.len() >= 2,
        crate::net::parse_ip(words[0]) == Some(ip),
        forall|m: int|
            1 <= m < words.len() ==> crate::hosts::validator::valid_domain(#[trigger] words[m]),
    ensures
        crate::hosts::parser::line_meaning(spaced(gaps, words) + line_end(back, comment))
            == Line::Rule(
            RuleFacts {
                ip: Some(ip),
                domains: words.skip(1),
                enabled: true,
                comment: match comment {
                    Some(c) => if crate::text::trim(c).len() > 0 {
                        Some(crate::text::trim(c))
                    } else {
                        None
                    },
                    None => None,
                },
                manual: true,
                line_number: None,
            },
        ),
{
    lemma_line_parts(gaps, words, back, comment);
    let rest = words.skip(1);
    assert forall|m: int| 0 <= m < rest.len() implies crate::hosts::validator::valid_domain(
        #[trigger] rest[m],
    ) by {
        assert(rest[m] == words[m + 1]);
    }
    lemma_first_bad(rest, rest.len() as int);
    assert(!crate::text::is_white(words[0][0]) && words[0][0] != '#');
}

/// A line with an address and something that is no domain is refused, and the first such
/// word is named.
pub proof fn the_first_bad_domain_is_named(
    gaps: Seq<Seq<char>>,
    words: Seq<Seq<char>>,
    back: Seq<char>,
    comment: Option<Seq<char>>,
    b: int,
)
    requires
        well_spaced(gaps, words),
        forall|i: int| 0 <= i < back.len() ==> crate::text::is_white(#[trigger] back[i]),
        1 <= b < words.len(),
        crate::net::parse_ip(words[0]) is Some,
        forall|m: int| 1 <= m < b ==> crate::hosts::validator::valid_domain(#[trigger] words[m]),
        !crate::hosts::validator::valid_domain(words[b]),
    ensures
        crate::hosts::parser::line_meaning(spaced(gaps, words) + line_end(back, comment))
            == Line::Bad(Fault::InvalidDomain(words[b])),
{
    lemma_line_parts(gaps, words, back, comment);
    let rest = words.skip(1);
    assert forall|m: int| 0 <= m < b - 1 implies crate::hosts::validator::valid_domain(
        #[trigger] rest[m],
    ) by {
        assert(rest[m] == words[m + 1]);
    }
    lemma_first_bad(rest, b - 1);
    assert(!crate::text::is_white(words[0][0]) && words[0][0] != '#');
}

/// A line whose first word is no address is refused: the word is named if it was meant as
/// one, and otherwise the whole line is. So is a line of an address alone.
pub proof fn a_line_without_address_or_domain_is_refused(
    gaps: Seq<Seq<char>>,
    words: Seq<Seq<char>>,
    back: Seq<char>,
    comment: Option<Seq<char>>,
)
    requires
        well_spaced(gaps, words),
        forall|i: int| 0 <= i < back.len() ==> crate::text::is_white(#[trigger] back[i]),
        words.len() > 0,
        crate::net::parse_ip(words[0]) is None || words.len() == 1,
    ensures
        crate::hosts::parser::line_meaning(spaced(gaps, words) + line_end(back, comment))
            == Line::Bad(
            if crate::net::parse_ip(words[0]) is None && crate::hosts::validator::address_like(
                words[0],
            ) {
                Fault::InvalidIp(words[0])
            } else {
                Fault::MalformedLine(spaced(gaps, words) + line_end(back, comment))
            },
        ),
{
    lemma_line_parts(gaps, words, back, comment);
    assert(!crate::text::is_white(words[0][0]) && words[0][0] != '#');
}

/// A line of white space is nothing, and a line that starts with a `#`, behind any white
/// space, is a comment: it is kept without the white space at its ends.
pub proof fn blank_lines_and_comments(a: Seq<char>, c: Seq<char>)
    requires
        forall|i: int| 0 <= i < a.len() ==> crate::text::is_white(#[trigger] a[i]),
    ensures
        crate::hosts::parser::line_meaning(a) == Line::Blank,
        crate::hosts::parser::line_meaning(a + seq!['#'] + c) == Line::Rule(
            RuleFacts {
                ip: None,
                domains: Seq::empty(),
                enabled: false,
                comment: Some(crate::text::trim(a + seq!['#'] + c)),
                manual: true,
                line_number: None,
            },
        ),
        crate::text::trim(a + seq!['#'] + c)[0] == '#',
{
    crate::text_laws::trimming_takes_the_ends_off(a, Seq::empty(), Seq::empty());
    assert(a + Seq::<char>::empty() + Seq::<char>::empty() =~= a);
    let line = a + seq!['#'] + c;
    let o = crate::text_laws::only_white_space_is_trimmed(line);
    assert(line[a.len() as int] == '#');
    assert(o.0 <= a.len() < o.1);
    if o.0 < a.len() {
        assert(line[o.0] == a[o.0]);
    }
    assert(crate::text::trim(line)[0] == '#');
}

/// A text gives the rules and the faults of its lines, in order: one line more adds what it
/// holds, and nothing else, with the number of the line where that is asked for.
pub proof fn every_line_adds_what_it_holds(lines: Seq<Seq<char>>, l: Seq<char>)
    requires
        lines.len() < usize::MAX,
    ensures
        crate::hosts::parser::rules_in(Seq::empty()).len() == 0,
        crate::hosts::parser::faults_in(Seq::empty()).len() == 0,
        crate::hosts::parser::numbered_rules(Seq::empty()).len() == 0,
        crate::hosts::parser::numbered_faults(Seq::empty()).len() == 0,
        match crate::hosts::parser::line_meaning(l) {
            Line::Rule(r) => {
                &&& crate::hosts::parser::rules_in(lines.push(l)) == crate::hosts::parser::rules_in(
                    lines,
                ).push(r)
                &&& crate::hosts::parser::faults_in(lines.push(l))
                    == crate::hosts::parser::faults_in(lines)
                &&& crate::hosts::parser::numbered_rules(lines.push(l))
                    == crate::hosts::parser::numbered_rules(lines).push(
                    RuleFacts {
                        ip: r.ip,
                        domains: r.domains,
                        enabled: r.enabled,
                        comment: r.comment,
                        manual: r.manual,
                        line_number: Some((lines.len() + 1) as usize),
                    },
                )
                &&& crate::hosts::parser::numbered_faults(lines.push(l))
                    == crate::hosts::parser::numbered_faults(lines)
            },
            Line::Blank => {
                &&& crate::hosts::parser::rules_in(lines.push(l)) == crate::hosts::parser::rules_in(
                    lines,
                )
                &&& crate::hosts::parser::faults_in(lines.push(l))
                    == crate::hosts::parser::faults_in(lines)
                &&& crate::hosts::parser::numbered_rules(lines.push(l))
                    == crate::hosts::parser::numbered_rules(lines)
                &&& crate::hosts::parser::numbered_faults(lines.push(l))
                    == crate::hosts::parser::numbered_faults(lines)
            },
            Line::Bad(f) => {
                &&& crate::hosts::parser::rules_in(lines.push(l)) == crate::hosts::parser::rules_in(
                    lines,
                )
                &&& crate::hosts::parser::faults_in(lines.push(l))
                    == crate::hosts::parser::faults_in(lines).push(f)
                &&& crate::hosts::parser::numbered_rules(lines.push(l))
                    == crate::hosts::parser::numbered_rules(lines)
                &&& crate::hosts::parser::numbered_faults(lines.push(l))
                    == crate::hosts::parser::numbered_faults(lines).push((lines.len() + 1, f))
            },
        },
{
    assert(lines.push(l).drop_last() =~= lines);
}

/// A text of one line, an address, a space and labels with dots between them, reads as one
/// rule that gives the address to this domain, whatever the labels hold of letters, digits
/// and hyphens.
pub proof fn an_address_and_a_domain_parse(
    ip: crate::net::IpAddr,
    labels: Seq<Seq<char>>,
    text: &str,
    r: ParseResult,
)
    requires
        call_ensures(Parser::parse, (text,), r),
        text@ == crate::net::ip_text(ip) + seq![' '] + crate::text::join(labels, seq!['.']),
        labels.len() > 0,
        forall|m: int| 0 <= m < labels.len() ==> (#[trigger] labels[m]).len() > 0,
        forall|m: int, i: int|
            0 <= m < labels.len() && 0 <= i < labels[m].len() ==> ('a' <= (
            #[trigger] labels[m][i]) <= 'z') || ('A' <= labels[m][i] <= 'Z') || ('0' <= labels[m][i]
                <= '9') || labels[m][i] == '-',
        forall|m: int|
            0 <= m < labels.len() ==> (#[trigger] labels[m])[0] != '-' && labels[m][labels[m].len()
                - 1] != '-',
        forall|m: int|
            0 <= m < labels.len() ==> (#[trigger] labels[m]).len() > 0 && exists|i: int|
                0 <= i < labels[m].len() && !('0' <= (#[trigger] labels[m][i]) <= '9'),
    ensures
        r.errors@.len() == 0,
        r.rules@.len() == 1,
        r.rules@[0].ip == Some(ip),
        r.rules@[0].domains@.len() == 1,
        r.rules@[0].domains@[0]@ == crate::text::join(labels, seq!['.']),
        r.rules@[0].enabled,
        r.rules@[0].comment is None,
        r.rules@[0].source is Manual,
{
    let d = crate::text::join(labels, seq!['.']);
    let a = crate::net::ip_text(ip);
    crate::hosts::validator_laws::labels_with_dots_are_a_domain(labels);
    crate::hosts::validator::lemma_domain_chars(d);
    crate::net::lemma_ip_chars(ip);
    crate::net::lemma_parse_ip_text(ip);
    let gaps = seq![Seq::<char>::empty(), seq![' ']];
    let words = seq![a, d];
    assert forall|m: int, i: int|
        0 <= m < words.len() && 0 <= i < words[m].len() implies !crate::text::is_white(
        #[trigger] words[m][i],
    ) && words[m][i] != '#' by {
        if m == 0 {
            assert(crate::net::is_addr_char(a[i]));
        } else {
            assert(crate::text::is_alnum(d[i]) || d[i] == '-' || d[i] == '.');
        }
    }
    assert(well_spaced(gaps, words));
    assert(gaps.skip(1) =~= seq![seq![' ']]);
    assert(words.skip(1) =~= seq![d]);
    assert(gaps.skip(1).skip(1) =~= seq![]);
    assert(words.skip(1).skip(1) =~= seq![]);
    assert(spaced(gaps.skip(1).skip(1), words.skip(1).skip(1)) =~= seq![]);
    assert(spaced(gaps.skip(1), words.skip(1)) =~= seq![' '] + d);
    assert(spaced(gaps, words) + line_end(seq![], None) =~= text@);
    an_address_and_domains_are_a_rule(gaps, words, seq![], None, ip);
    let l = text@;
    assert forall|i: int| 0 <= i < l.len() implies l[i] != '\n' by {
        if i < a.len() {
            assert(l[i] == words[0][i]);
        } else if i > a.len() {
            assert(l[i] == words[1][i - a.len() - 1]);
        }
    }
    crate::text_laws::lines_end_at_line_feeds(l, seq![]);
    every_line_adds_what_it_holds(Seq::empty(), l);
    assert(Seq::<Seq<char>>::empty().push(l) =~= seq![l]);
    assert(crate::hosts::parser::facts_of(r.rules@).len() == 1);
    assert(crate::hosts::parser::faults_of(r.errors@).len() == 0);
    assert(crate::hosts::parser::facts_of(r.rules@)[0] == r.rules@[0]@);
    assert(crate::text::texts(r.rules@[0].domains@) == words.skip(1));
    assert(crate::text::texts(r.rules@[0].domains@)[0] == r.rules@[0].domains@[0]@);
}

/// A text of one line with an address and domains reads as one rule, with everything that the
/// line says: the address, the domains in order, and the comment, if it says anything.
pub proof fn a_line_is_read_in_full(
    gaps: Seq<Seq<char>>,
    words: Seq<Seq<char>>,
    back: Seq<char>,
    comment: Option<Seq<char>>,
    ip: crate::net::IpAddr,
    text: &str,
    r: ParseResult,
)
    requires
        call_ensures(Parser::parse, (text,), r),
        text@ == spaced(gaps, words) + line_end(back, comment),
        forall|i: int| 0 <= i < text@.len() ==> text@[i] != '\n',
        well_spaced(gaps, words),
        forall|i: int| 0 <= i < back.len() ==> crate::text::is_white(#[trigger] back[i]),
        words.len() >= 2,
        crate::net::parse_ip(words[0]) == Some(ip),
        forall|m: int|
            1 <= m < words.len() ==> crate::hosts::validator::valid_domain(#[trigger] words[m]),
    ensures
        r.errors@.len() == 0,
        r.rules@.len() == 1,
        r.rules@[0].ip == Some(ip),
        r.rules@[0].domains@.len() == words.len() - 1,
        forall|m: int|
            0 <= m < words.len() - 1 ==> (#[trigger] r.rules@[0].domains@[m])@ == words[m + 1],
        r.rules@[0].enabled,
        r.rules@[0].source is Manual,
        r.rules@[0].line_number is None,
        match comment {
            Some(c) => if crate::text::trim(c).len() > 0 {
                r.rules@[0].comment matches Some(t) && t@ == crate::text::trim(c)
            } else {
                r.rules@[0].comment is None
            },
            None => r.rules@[0].comment is None,
        },
{
    let l = text@;
    an_address_and_domains_are_a_rule(gaps, words, back, comment, ip);
    assert(words[0].len() > 0);
    assert(spaced(gaps, words).len() > 0);
    crate::text_laws::lines_end_at_line_feeds(l, seq![]);
    every_line_adds_what_it_holds(Seq::empty(), l);
    assert(Seq::<Seq<char>>::empty().push(l) =~= seq![l]);
    assert(crate::hosts::parser::facts_of(r.rules@).len() == 1);
    assert(crate::hosts::parser::faults_of(r.errors@).len() == 0);
    assert(crate::hosts::parser::facts_of(r.rules@)[0] == r.rules@[0]@);
    let d = crate::text::texts(r.rules@[0].domains@);
    assert(d == words.skip(1));
    assert(d.len() == r.rules@[0].domains@.len());
    assert forall|m: int| 0 <= m < words.len() - 1 implies (#[trigger] r.rules@[0].domains@[m])@
        == words[m + 1] by {
        assert(d[m] == words.skip(1)[m]);
    }
}

/// A text is read part by part: where the first part ends a line, the rules and the errors of
/// the whole are those of the two parts, one after the other.
pub proof fn texts_are_read_part_by_part(
    a: &str,
    b: &str,
    whole: &str,
    x: ParseResult,
    y: ParseResult,
    r: ParseResult,
)
    requires
        a@.len() == 0 || a@.last() == '\n',
        whole@ == a@ + b@,
        call_ensures(Parser::parse, (a,), x),
        call_ensures(Parser::parse, (b,), y),
        call_ensures(Parser::parse, (whole,), r),
    ensures
        r.rules@.len() == x.rules@.len() + y.rules@.len(),
        forall|k: int| 0 <= k < x.rules@.len() ==> (#[trigger] r.rules@[k])@ == x.rules@[k]@,
        forall|k: int|
            x.rules@.len() <= k < r.rules@.len() ==> (#[trigger] r.rules@[k])@ == y.rules@[k
                - x.rules@.len()]@,
        r.errors@.len() == x.errors@.len() + y.errors@.len(),
        forall|k: int| 0 <= k < x.errors@.len() ==> (#[trigger] r.errors@[k])@ == x.errors@[k]@,
        forall|k: int|
            x.errors@.len() <= k < r.errors@.len() ==> (#[trigger] r.errors@[k])@ == y.errors@[k
                - x.errors@.len()]@,
{
    crate::hosts::block::lemma_lines_add(a@, b@);
    crate::hosts::round_trip::lemma_rules_in_add(crate::text::lines(a@), crate::text::lines(b@));
    let f = crate::hosts::parser::facts_of(x.rules@);
    let g = crate::hosts::parser::facts_of(y.rules@);
    let h = crate::hosts::parser::facts_of(r.rules@);
    assert(h == f + g);
    assert(h.len() == r.rules@.len());
    assert forall|k: int| 0 <= k < x.rules@.len() implies (#[trigger] r.rules@[k])@
        == x.rules@[k]@ by {
        assert(h[k] == f[k]);
    }
    assert forall|k: int| x.rules@.len() <= k < r.rules@.len() implies (#[trigger] r.rules@[k])@
        == y.rules@[k - x.rules@.len()]@ by {
        assert(h[k] == g[k - x.rules@.len()]);
    }
    let e = crate::hosts::parser::faults_of(x.errors@);
    let m = crate::hosts::parser::faults_of(y.errors@);
    let n = crate::hosts::parser::faults_of(r.errors@);
    assert(n == e + m);
    assert(n.len() == r.errors@.len());
    assert forall|k: int| 0 <= k < x.errors@.len() implies (#[trigger] r.errors@[k])@
        == x.errors@[k]@ by {
        assert(n[k] == e[k]);
    }
    assert forall|k: int| x.errors@.len() <= k < r.errors@.len() implies (
    #[trigger] r.errors@[k])@ == y.errors@[k - x.errors@.len()]@ by {
        assert(n[k] == m[k - x.errors@.len()]);
    }
}

/// The rules with their lines.
proof fn lemma_numbered(ls: Seq<Seq<char>>)
    requires
        ls.len() <= usize::MAX,
    ensures
        crate::hosts::parser::numbered_rules(ls).len() == crate::hosts::parser::rules_in(ls).len(),
        crate::hosts::parser::numbered_faults(ls).len() == crate::hosts::parser::faults_in(
            ls,
        ).len(),
        forall|k: int|
            0 <= k < crate::hosts::parser::rules_in(ls).len() ==> ({
                let m = #[trigger] crate::hosts::parser::numbered_rules(ls)[k];
                let r = crate::hosts::parser::rules_in(ls)[k];
                &&& m == RuleFacts { line_number: m.line_number, ..r }
                &&& m.line_number matches Some(n) && 1 <= n <= ls.len()
                    && crate::hosts::parser::line_meaning(ls[n - 1]) == Line::Rule(r)
            }),
        forall|k: int|
            0 <= k < crate::hosts::parser::faults_in(ls).len() ==> ({
                let m = #[trigger] crate::hosts::parser::numbered_faults(ls)[k];
                &&& m.1 == crate::hosts::parser::faults_in(ls)[k]
                &&& 1 <= m.0 <= ls.len()
                &&& crate::hosts::parser::line_meaning(ls[m.0 - 1]) == Line::Bad(m.1)
            }),
        forall|a: int, b: int|
            0 <= a < b < crate::hosts::parser::numbered_rules(ls).len() ==> (
            #[trigger] crate::hosts::parser::numbered_rules(ls)[a]).line_number->0 < (
            #[trigger] crate::hosts::parser::numbered_rules(ls)[b]).line_number->0,
        forall|a: int, b: int|
            0 <= a < b < crate::hosts::parser::numbered_faults(ls).len() ==> (
            #[trigger] crate::hosts::parser::numbered_faults(ls)[a]).0 < (
            #[trigger] crate::hosts::parser::numbered_faults(ls)[b]).0,
    decreases ls.len(),
{
    if ls.len() > 0 {
        let head = ls.drop_last();
        lemma_numbered(head);
        let r0 = crate::hosts::parser::rules_in(head);
        let n0 = crate::hosts::parser::numbered_rules(head);
        let f0 = crate::hosts::parser::faults_in(head);
        let g0 = crate::hosts::parser::numbered_faults(head);
        let r = crate::hosts::parser::rules_in(ls);
        let n = crate::hosts::parser::numbered_rules(ls);
        let f = crate::hosts::parser::faults_in(ls);
        let g = crate::hosts::parser::numbered_faults(ls);
        assert(ls[ls.len() - 1] == ls.last());
        assert forall|k: int| 0 <= k < r.len() implies ({
            let m = #[trigger] n[k];
            &&& m == RuleFacts { line_number: m.line_number, ..r[k] }
            &&& m.line_number matches Some(x) && 1 <= x <= ls.len()
                && crate::hosts::parser::line_meaning(ls[x - 1]) == Line::Rule(r[k])
        }) by {
            if k < r0.len() {
                assert(n[k] == n0[k] && r[k] == r0[k]);
                let x = n0[k].line_number->0;
                assert(head[x - 1] == ls[x - 1]);
            }
        }
        assert forall|k: int| 0 <= k < f.len() implies ({
            let m = #[trigger] g[k];
            &&& m.1 == f[k]
            &&& 1 <= m.0 <= ls.len()
            &&& crate::hosts::parser::line_meaning(ls[m.0 - 1]) == Line::Bad(m.1)
        }) by {
            if k < f0.len() {
                assert(g[k] == g0[k] && f[k] == f0[k]);
                assert(head[g0[k].0 - 1] == ls[g0[k].0 - 1]);
            }
        }
        assert forall|a: int, b: int| 0 <= a < b < n.len() implies (
        #[trigger] n[a]).line_number->0 < (#[trigger] n[b]).line_number->0 by {
            assert(n[a] == n0[a]);
            if b < n0.len() {
                assert(n[b] == n0[b]);
            }
        }
        assert forall|a: int, b: int| 0 <= a < b < g.len() implies (#[trigger] g[a]).0 < (
        #[trigger] g[b]).0 by {
            assert(g[a] == g0[a]);
            if b < g0.len() {
                assert(g[b] == g0[b]);
            }
        }
    }
}

/// Reading with lines gives the same rules and errors as reading without, each with the number
/// of the line that it stands on, counted from 1; and so does reading the errors alone.
pub proof fn lines_are_numbered_from_one(
    text: &str,
    r: ParseResult,
    v: ValidateResult,
    e: Vec<ParseErrorAtLine>,
)
    requires
        crate::text::lines(text@).len() <= usize::MAX,
        call_ensures(Parser::parse, (text,), r),
        call_ensures(Parser::parse_with_lines, (text,), v),
        call_ensures(Parser::parse_errors_only, (text,), e),
    ensures
        v.rules@.len() == r.rules@.len(),
        forall|k: int|
            0 <= k < v.rules@.len() ==> (#[trigger] v.rules@[k]).ip == r.rules@[k].ip
                && crate::text::texts(v.rules@[k].domains@) == crate::text::texts(
                r.rules@[k].domains@,
            ) && v.rules@[k].enabled == r.rules@[k].enabled && crate::models::text_of(
                v.rules@[k].comment,
            ) == crate::models::text_of(r.rules@[k].comment),
        forall|k: int|
            0 <= k < v.rules@.len() ==> ((#[trigger] v.rules@[k]).line_number matches Some(n) && 1
                <= n <= crate::text::lines(text@).len() && crate::hosts::parser::line_meaning(
                crate::text::lines(text@)[n - 1],
            ) == Line::Rule(r.rules@[k]@)),
        forall|a: int, b: int|
            0 <= a < b < v.rules@.len() ==> (#[trigger] v.rules@[a]).line_number->0 < (
            #[trigger] v.rules@[b]).line_number->0,
        v.errors@.len() == r.errors@.len(),
        e@.len() == r.errors@.len(),
        forall|k: int|
            0 <= k < r.errors@.len() ==> (#[trigger] v.errors@[k]).error@ == r.errors@[k]@ && 1
                <= v.errors@[k].line_number <= crate::text::lines(text@).len()
                && crate::hosts::parser::line_meaning(
                crate::text::lines(text@)[v.errors@[k].line_number - 1],
            ) == Line::Bad(r.errors@[k]@),
        forall|k: int|
            0 <= k < r.errors@.len() ==> (#[trigger] e@[k]).error@ == v.errors@[k].error@
                && e@[k].line_number == v.errors@[k].line_number,
{
    let ls = crate::text::lines(text@);
    lemma_numbered(ls);
    let f = crate::hosts::parser::facts_of(r.rules@);
    let n = crate::hosts::parser::facts_of(v.rules@);
    let g = crate::hosts::parser::faults_of(r.errors@);
    let m = crate::hosts::parser::located_faults(v.errors@);
    let o = crate::hosts::parser::located_faults(e@);
    assert(n.len() == v.rules@.len() && f.len() == r.rules@.len());
    assert(m.len() == v.errors@.len() && g.len() == r.errors@.len() && o.len() == e@.len());
    assert forall|k: int| 0 <= k < v.rules@.len() implies (#[trigger] v.rules@[k]).ip
        == r.rules@[k].ip && crate::text::texts(v.rules@[k].domains@) == crate::text::texts(
        r.rules@[k].domains@,
    ) && v.rules@[k].enabled == r.rules@[k].enabled && crate::models::text_of(v.rules@[k].comment)
        == crate::models::text_of(r.rules@[k].comment) by {
        assert(n[k] == v.rules@[k]@ && f[k] == r.rules@[k]@);
        assert(n[k] == crate::hosts::parser::numbered_rules(ls)[k]);
    }
    assert forall|k: int| 0 <= k < v.rules@.len() implies ((
    #[trigger] v.rules@[k]).line_number matches Some(q) && 1 <= q <= ls.len()
        && crate::hosts::parser::line_meaning(ls[q - 1]) == Line::Rule(r.rules@[k]@)) by {
        assert(n[k] == v.rules@[k]@ && f[k] == r.rules@[k]@);
        assert(n[k] == crate::hosts::parser::numbered_rules(ls)[k]);
    }
    assert forall|a: int, b: int| 0 <= a < b < v.rules@.len() implies (
    #[trigger] v.rules@[a]).line_number->0 < (#[trigger] v.rules@[b]).line_number->0 by {
        assert(n[a] == v.rules@[a]@ && n[b] == v.rules@[b]@);
        assert(n[a] == crate::hosts::parser::numbered_rules(ls)[a]);
        assert(n[b] == crate::hosts::parser::numbered_rules(ls)[b]);
    }
    assert forall|k: int| 0 <= k < r.errors@.len() implies (#[trigger] v.errors@[k]).error@
        == r.errors@[k]@ && 1 <= v.errors@[k].line_number <= ls.len()
        && crate::hosts::parser::line_meaning(ls[v.errors@[k].line_number - 1]) == Line::Bad(
        r.errors@[k]@,
    ) by {
        assert(m[k] == (v.errors@[k].line_number as nat, v.errors@[k].error@));
        assert(g[k] == r.errors@[k]@);
        assert(m[k] == crate::hosts::parser::numbered_faults(ls)[k]);
    }
    assert forall|k: int| 0 <= k < r.errors@.len() implies (#[trigger] e@[k]).error@
        == v.errors@[k].error@ && e@[k].line_number == v.errors@[k].line_number by {
        assert(m[k] == (v.errors@[k].line_number as nat, v.errors@[k].error@));
        assert(o[k] == (e@[k].line_number as nat, e@[k].error@));
        assert(m[k] == o[k]);
    }
}

/// A text of one line gives what the line holds, and nothing else: a rule, or an error that
/// names the word that is wrong or the whole line, or nothing at all.
pub proof fn a_single_line_is_told(text: &str, r: ParseResult)
    requires
        call_ensures(Parser::parse, (text,), r),
        forall|i: int| 0 <= i < text@.len() ==> text@[i] != '\n',
    ensures
        match crate::hosts::parser::line_meaning(text@) {
            Line::Rule(f) => r.errors@.len() == 0 && r.rules@.len() == 1 && r.rules@[0]@ == f,
            Line::Blank => r.errors@.len() == 0 && r.rules@.len() == 0,
            Line::Bad(f) => r.rules@.len() == 0 && r.errors@.len() == 1 && r.errors@[0]@ == f,
        },
{
    let facts = crate::hosts::parser::facts_of(r.rules@);
    let faults = crate::hosts::parser::faults_of(r.errors@);
    assert(facts.len() == r.rules@.len());
    assert(faults.len() == r.errors@.len());
    let none = Seq::<Seq<char>>::empty();
    every_line_adds_what_it_holds(none, text@);
    assert(crate::hosts::parser::rules_in(none) =~= Seq::empty());
    assert(crate::hosts::parser::faults_in(none) =~= Seq::empty());
    if text@.len() == 0 {
        blank_lines_and_comments(text@, text@);
        assert(crate::text::lines(text@) =~= none);
    } else {
        assert(!text@.contains('\n'));
        crate::hosts::block::lemma_open_line(text@);
        assert(none.push(text@) =~= seq![text@]);
    }
    if facts.len() == 1 {
        assert(facts[0] == r.rules@[0]@);
    }
    if faults.len() == 1 {
        assert(faults[0] == r.errors@[0]@);
    }
}

/// An error says which kind of fault it is and holds the text that is wrong; a copy of it says
/// the same.
pub proof fn errors_hold_what_is_wrong(e: ParseError, c: ParseError, t: Seq<char>)
    requires
        call_ensures(ParseError::copy, (&e,), c),
    ensures
        e@ == Fault::InvalidIp(t) <==> (e matches ParseError::InvalidIp(x) && x@ == t),
        e@ == Fault::InvalidDomain(t) <==> (e matches ParseError::InvalidDomain(x) && x@ == t),
        e@ == Fault::MalformedLine(t) <==> (e matches ParseError::MalformedLine(x) && x@ == t),
        c == e,
{
}

} // verus!
