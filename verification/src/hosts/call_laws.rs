//! What the calls that read, check and write hosts files come to.
use vstd::prelude::*;
use vstd::string::*;

use crate::hosts::formatter::{format_managed_block, format_rules};
use crate::hosts::parser::{ParseResult, Parser};
use crate::hosts::validator::{is_valid_domain, looks_like_ip};
use crate::models::HostRule;

verus! {

broadcast use vstd::string::group_string_axioms;

/// Labels with dots between them are told to be a domain, whatever their letters and digits
/// are.
pub proof fn labels_are_told_to_be_a_domain(domain: &str, r: bool, labels: Seq<Seq<char>>)
    requires
        call_ensures(is_valid_domain, (domain,), r),
        domain@ == crate::text::join(labels, seq!['.']),
        labels.len() > 0,
        forall|m: int| 0 <= m < labels.len() ==> (#[trigger] labels[m]).len() > 0,
        forall|m: int, i: int|
            0 <= m < labels.len() && 0 <= i < labels[m].len() ==> ('a' <= (
            #[trigger] labels[m][i]) <= 'z') || ('A' <= labels[m][i] <= 'Z') || ('0' <= labels[m][i]
                <= '9') || labels[m][i] == '-',
        forall|m: int|
            0 <= m < labels.len() ==> (#[trigger] labels[m])[0] != '-' && labels[m][labels[m].len()
                - 1] != '-',
        forall|m: int|
            0 <= m < labels.len() ==> (#[trigger] labels[m]).len() > 0 && exists|i: int|
                0 <= i < labels[m].len() && !('0' <= (#[trigger] labels[m][i]) <= '9'),
    ensures
        r,
{
    crate::hosts::validator_laws::labels_with_dots_are_a_domain(labels);
}

/// What is told to be a domain is labels with dots between them: letters, digits and hyphens,
/// with no hyphen at either end, and not digits alone.
pub proof fn only_labels_are_told_to_be_a_domain(domain: &str) -> (labels: Seq<Seq<char>>)
    requires
        call_ensures(is_valid_domain, (domain,), true),
    ensures
        labels.len() > 0,
        domain@ == crate::text::join(labels, seq!['.']),
        forall|m: int| 0 <= m < labels.len() ==> (#[trigger] labels[m]).len() > 0,
        forall|m: int, i: int|
            0 <= m < labels.len() && 0 <= i < labels[m].len() ==> ('a' <= (
            #[trigger] labels[m][i]) <= 'z') || ('A' <= labels[m][i] <= 'Z') || ('0' <= labels[m][i]
                <= '9') || labels[m][i] == '-',
        forall|m: int|
            0 <= m < labels.len() ==> (#[trigger] labels[m])[0] != '-' && labels[m][labels[m].len()
                - 1] != '-',
        forall|m: int|
            0 <= m < labels.len() ==> (#[trigger] labels[m]).len() > 0 && exists|i: int|
                0 <= i < labels[m].len() && !('0' <= (#[trigger] labels[m][i]) <= '9'),
{
    crate::hosts::validator_laws::a_domain_is_labels_with_dots(domain@)
}

/// A word with a colon is taken as meant for an address; and one without is if it holds digits
/// and dots only, a dot among them, and has a digit at either end.
pub proof fn words_are_taken_as_addresses(word: &str, r: bool)
    requires
        call_ensures(looks_like_ip, (word,), r),
    ensures
        (exists|i: int| 0 <= i < word@.len() && #[trigger] word@[i] == ':') ==> r,
        (forall|i: int| 0 <= i < word@.len() ==> #[trigger] word@[i] != ':') ==> (r <==> word@.len()
            > 0 && (forall|i: int|
            0 <= i < word@.len() ==> ('0' <= (#[trigger] word@[i]) <= '9') || word@[i] == '.') && (
        exists|i: int| 0 <= i < word@.len() && #[trigger] word@[i] == '.') && '0' <= word@[0] <= '9'
            && '0' <= word@[word@.len() - 1] <= '9'),
{
    crate::hosts::validator_laws::words_meant_as_addresses(word@);
}

/// What was read is written, and what was written is read again: the same rules, one for each
/// domain, and no error. Both ways of writing rules write the same.
pub proof fn what_was_read_is_read_again(
    text: &str,
    first: ParseResult,
    rules: &[HostRule],
    written: String,
    other: String,
    again: &str,
    second: ParseResult,
)
    requires
        call_ensures(Parser::parse, (text,), first),
        rules@ == first.rules@,
        call_ensures(format_rules, (rules,), written),
        call_ensures(Parser::format, (rules,), other),
        again@ == written@,
        call_ensures(Parser::parse, (again,), second),
    ensures
        other@ == written@,
        second.errors@.len() == 0,
        crate::hosts::parser::facts_of(second.rules@) == crate::hosts::round_trip::one_per_domain(
            crate::hosts::parser::facts_of(first.rules@),
        ),
{
    crate::hosts::round_trip::parse_format_parse(text@);
    assert(crate::hosts::parser::faults_of(second.errors@).len() == second.errors@.len());
}

/// Rules are written one after the other, those without an address as their comment, the
/// others as one line for each domain, whoever asks for it; and the block is what was written,
/// between its marks.
pub proof fn rules_are_written_line_by_line(
    rules: &[HostRule],
    t: String,
    block: String,
    more: &[HostRule],
    longer: String,
    r: HostRule,
    ip: crate::net::IpAddr,
    d: String,
)
    requires
        call_ensures(format_rules, (rules,), t),
        call_ensures(format_managed_block, (rules,), block),
        more@ == rules@.push(r),
        call_ensures(format_rules, (more,), longer),
    ensures
        rules@.len() == 0 ==> t@.len() == 0 && block@.len() == 0,
        rules@.len() > 0 ==> block@ == "# ---- mHost start ----"@ + seq!['\n'] + t@
            + "# ---- mHost end ----"@ + seq!['\n'],
        r.ip is None && r.comment is None ==> longer@ == t@,
        r.ip is None && r.comment is Some ==> longer@ == t@ + r.comment->0@ + seq!['\n'],
        r.ip == Some(ip) && r.domains@ == seq![d] ==> longer@ == t@ + crate::net::ip_text(ip) + seq![
            ' ',
        ] + d@ + (match r.comment {
            Some(c) => seq![' ', '#', ' '] + c@,
            None => seq![],
        }) + seq!['\n'],
{
    let a = crate::hosts::parser::facts_of(rules@);
    let b = crate::hosts::parser::facts_of(more@);
    assert(b =~= a + seq![r@]);
    crate::hosts::block_laws::rules_are_written_in_order(a, seq![r@]);
    crate::hosts::block_laws::the_block_stands_between_two_marks(a);
    if rules@.len() == 0 {
        assert(a =~= seq![]);
    }
    if r.ip is None {
        crate::hosts::block_laws::a_comment_is_written_as_it_is(r@);
        if r.comment is Some {
            assert(t@ + r.comment->0@.push('\n') =~= t@ + r.comment->0@ + seq!['\n']);
        } else {
            assert(t@ + seq![] =~= t@);
        }
    }
    if r.ip == Some(ip) && r.domains@ == seq![d] {
        let bare = crate::models::RuleFacts { domains: seq![], ..r@ };
        crate::hosts::block_laws::every_domain_is_written(bare, ip, d@);
        assert(r@.domains =~= seq![d@]);
        assert(bare.domains.push(d@) =~= r@.domains);
        assert(crate::models::RuleFacts { domains: bare.domains.push(d@), ..bare } == r@);
        let c: Seq<char> = match r.comment {
            Some(c) => seq![' ', '#', ' '] + c@,
            None => seq![],
        };
        let none = crate::hosts::formatter::rules_text(seq![bare]);
        assert(none.len() == 0);
        assert(t@ + (none + crate::net::ip_text(ip) + seq![' '] + d@ + c + seq!['\n']) =~= t@
            + crate::net::ip_text(ip) + seq![' '] + d@ + c + seq!['\n']);
    }
}

/// The block of a file is found between its marks: the numbers of the marks' lines, the lines
/// between them, and the characters from the one line to the end of the other.
pub proof fn the_block_of_a_file_is_found(
    input: &str,
    range: Option<(usize, usize)>,
    content: Option<String>,
    a: Seq<Seq<char>>,
    s: Seq<char>,
    b: Seq<Seq<char>>,
    e: Seq<char>,
    c: Seq<Seq<char>>,
)
    requires
        call_ensures(Parser::extract_managed_block, (input,), range),
        call_ensures(Parser::extract_managed_block_content, (input,), content),
        crate::text::lines(input@) == a + seq![s] + b + seq![e] + c,
        crate::text::trim(s) == "# ---- mHost start ----"@,
        crate::text::trim(e) == "# ---- mHost end ----"@,
        forall|k: int|
            0 <= k < a.len() ==> crate::text::trim(#[trigger] a[k]) != "# ---- mHost start ----"@
                && crate::text::trim(a[k]) != "# ---- mHost end ----"@,
        forall|k: int|
            0 <= k < b.len() ==> crate::text::trim(#[trigger] b[k]) != "# ---- mHost start ----"@
                && crate::text::trim(b[k]) != "# ---- mHost end ----"@,
        forall|k: int|
            0 <= k < c.len() ==> crate::text::trim(#[trigger] c[k]) != "# ---- mHost start ----"@
                && crate::text::trim(c[k]) != "# ---- mHost end ----"@,
    ensures
        range matches Some((x, y)) && x == a.len() && y == a.len() + 1 + b.len(),
        content matches Some(t) && t@ == crate::text::join(b, seq!['\n']),
{
    crate::hosts::block_laws::the_block_is_between_its_marks(a, s, b, e, c);
    crate::hosts::block_laws::the_content_is_the_lines_between(input@);
}

/// Without the first mark, or without the second, with one of them twice, or with the second
/// before the first, no block is found.
pub proof fn without_marks_no_block_is_found(
    input: &str,
    chars: &[char],
    range: Option<(usize, usize)>,
    content: Option<String>,
    span: Option<(usize, usize)>,
)
    requires
        call_ensures(Parser::extract_managed_block, (input,), range),
        call_ensures(Parser::extract_managed_block_content, (input,), content),
        call_ensures(Parser::extract_managed_block_span, (chars,), span),
        chars@ == input@,
        ({
            let lines = crate::text::lines(input@);
            (forall|i: int|
                0 <= i < lines.len() ==> crate::text::trim(#[trigger] lines[i])
                    != "# ---- mHost start ----"@) || (forall|i: int|
                0 <= i < lines.len() ==> crate::text::trim(#[trigger] lines[i])
                    != "# ---- mHost end ----"@) || (exists|i: int, j: int|
                0 <= i < j < lines.len() && crate::text::trim(#[trigger] lines[i])
                    == "# ---- mHost start ----"@ && crate::text::trim(#[trigger] lines[j])
                    == "# ---- mHost start ----"@) || (exists|i: int, j: int|
                0 <= i < j < lines.len() && crate::text::trim(#[trigger] lines[i])
                    == "# ---- mHost end ----"@ && crate::text::trim(#[trigger] lines[j])
                    == "# ---- mHost end ----"@) || (exists|i: int, j: int|
                0 <= i < j < lines.len() && crate::text::trim(#[trigger] lines[i])
                    == "# ---- mHost end ----"@ && crate::text::trim(#[trigger] lines[j])
                    == "# ---- mHost start ----"@)
        }),
    ensures
        range is None,
        content is None,
        span is None,
{
    crate::hosts::block_laws::marks_in_disorder_are_no_block(crate::text::lines(input@));
    crate::hosts::block_laws::the_content_is_the_lines_between(input@);
}

} // verus!
