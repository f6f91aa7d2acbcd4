//! Reading a hosts file.
use vstd::prelude::*;
use vstd::string::*;

use crate::error::ParseError;
use crate::hosts::formatter::format_rules;
use crate::hosts::validator::{check_duplicates, is_valid_domain, looks_like_ip};
use crate::models::{DuplicateRule, HostRule};
use crate::net::IpAddr;
use crate::text::{
    find_char, slice_of, split_lines, split_words, to_chars, to_text, trimmed,
};

verus! {

broadcast use vstd::string::group_string_axioms;

/// The rules and the errors of a text.
#[derive(Debug, PartialEq)]
pub struct ParseResult {
    pub rules: Vec<HostRule>,
    pub errors: Vec<ParseError>,
}

/// An error with the number of its line, counted from 1.
#[derive(Debug, Clone, PartialEq, Eq)]
pub struct ParseErrorAtLine {
    pub line_number: usize,
    pub error: ParseError,
}

/// The rules of a text with their lines, its errors, and its duplicates.
#[derive(Debug, Clone, PartialEq, Eq)]
pub struct ValidateResult {
    pub rules: Vec<HostRule>,
    pub errors: Vec<ParseErrorAtLine>,
    pub duplicates: Vec<DuplicateRule>,
}

/// Reads and writes hosts files.
pub struct Parser;

// ---------------------------------------------------------------------------
// Meaning
// ---------------------------------------------------------------------------
/// What is wrong with a line.
pub enum Fault {
    InvalidIp(Seq<char>),
    InvalidDomain(Seq<char>),
    MalformedLine(Seq<char>),
}

impl View for ParseError {
    type V = Fault;

    open spec fn view(&self) -> Fault {
        match self {
            ParseError::InvalidIp(t) => Fault::InvalidIp(t@),
            ParseError::InvalidDomain(t) => Fault::InvalidDomain(t@),
            ParseError::MalformedLine(t) => Fault::MalformedLine(t@),
        }
    }
}

/// What a line holds: a rule, nothing, or a fault.
pub enum Line {
    Rule(crate::models::RuleFacts),
    Blank,
    Bad(Fault),
}

/// The first word of a list that is no domain.
pub open spec fn first_bad(words: Seq<Seq<char>>) -> Option<Seq<char>>
    decreases words.len(),
{
    if words.len() == 0 {
        None
    } else if !crate::hosts::validator::valid_domain(words[0]) {
        Some(words[0])
    } else {
        first_bad(words.skip(1))
    }
}

/// The comment behind the `#` of a line, where it says anything.
pub open spec fn inline_comment(t: Seq<char>) -> Option<Seq<char>> {
    let n = crate::text::find(t, '#');
    if n < t.len() && crate::text::trim(t.skip(n + 1)).len() > 0 {
        Some(crate::text::trim(t.skip(n + 1)))
    } else {
        None
    }
}

/// What a line of a hosts file means. White space at its ends does not count. A
/// line that starts with `#` is a comment alone. Otherwise what stands before the
/// first `#` must be an address followed by one or more domains.
pub open spec fn line_meaning(line: Seq<char>) -> Line {
    let t = crate::text::trim(line);
    let words = crate::text::words(t.take(crate::text::find(t, '#')));
    if t.len() == 0 {
        Line::Blank
    } else if t[0] == '#' {
        Line::Rule(crate::models::comment_facts(t))
    } else {
        match crate::net::parse_ip(words[0]) {
            None => if crate::hosts::validator::address_like(words[0]) {
                Line::Bad(Fault::InvalidIp(words[0]))
            } else {
                Line::Bad(Fault::MalformedLine(line))
            },
            Some(ip) => if words.len() < 2 {
                Line::Bad(Fault::MalformedLine(line))
            } else {
                match first_bad(words.skip(1)) {
                    Some(d) => Line::Bad(Fault::InvalidDomain(d)),
                    None => Line::Rule(
                        crate::models::RuleFacts {
                            comment: inline_comment(t),
                            ..crate::models::rule_facts(ip, words.skip(1))
                        },
                    ),
                }
            },
        }
    }
}

/// The rules of some lines, in order.
pub open spec fn rules_in(lines: Seq<Seq<char>>) -> Seq<crate::models::RuleFacts>
    decreases lines.len(),
{
    if lines.len() == 0 {
        seq![]
    } else {
        match line_meaning(lines.last()) {
            Line::Rule(r) => rules_in(lines.drop_last()).push(r),
            _ => rules_in(lines.drop_last()),
        }
    }
}

/// The faults of some lines, in order.
pub open spec fn faults_in(lines: Seq<Seq<char>>) -> Seq<Fault>
    decreases lines.len(),
{
    if lines.len() == 0 {
        seq![]
    } else {
        match line_meaning(lines.last()) {
            Line::Bad(f) => faults_in(lines.drop_last()).push(f),
            _ => faults_in(lines.drop_last()),
        }
    }
}

/// The rules of some lines, each with its line counted from 1.
pub open spec fn numbered_rules(lines: Seq<Seq<char>>) -> Seq<crate::models::RuleFacts>
    decreases lines.len(),
{
    if lines.len() == 0 {
        seq![]
    } else {
        match line_meaning(lines.last()) {
            Line::Rule(r) => numbered_rules(lines.drop_last()).push(
                crate::models::RuleFacts { line_number: Some(lines.len() as usize), ..r },
            ),
            _ => numbered_rules(lines.drop_last()),
        }
    }
}

/// The faults of some lines, each with its line counted from 1.
pub open spec fn numbered_faults(lines: Seq<Seq<char>>) -> Seq<(nat, Fault)>
    decreases lines.len(),
{
    if lines.len() == 0 {
        seq![]
    } else {
        match line_meaning(lines.last()) {
            Line::Bad(f) => numbered_faults(lines.drop_last()).push((lines.len(), f)),
            _ => numbered_faults(lines.drop_last()),
        }
    }
}

/// What a list of rules says.
pub open spec fn facts_of(rules: Seq<HostRule>) -> Seq<crate::models::RuleFacts> {
    Seq::new(rules.len(), |i: int| rules[i]@)
}

/// What a list of errors says.
pub open spec fn faults_of(errors: Seq<ParseError>) -> Seq<Fault> {
    Seq::new(errors.len(), |i: int| errors[i]@)
}

/// What a list of errors with lines says.
pub open spec fn located_faults(errors: Seq<ParseErrorAtLine>) -> Seq<(nat, Fault)> {
    Seq::new(errors.len(), |i: int| (errors[i].line_number as nat, errors[i].error@))
}

// ---------------------------------------------------------------------------
// Facts
// ---------------------------------------------------------------------------
/// Trimming leaves a part of the text that has no white space at its ends.
pub proof fn lemma_trim(s: Seq<char>)
    ensures
        crate::text::trim(s).len() > 0 ==> !crate::text::is_white(crate::text::trim(s)[0])
            && !crate::text::is_white(crate::text::trim(s).last()),
        forall|i: int|
            0 <= i < crate::text::trim(s).len() ==> s.contains(#[trigger] crate::text::trim(s)[i]),
        crate::text::trim(s).len() <= s.len(),
{
    lemma_trim_start(s);
    let t = crate::text::trim_start(s);
    lemma_trim_end(t);
    let u = crate::text::trim(s);
    assert forall|i: int| 0 <= i < u.len() implies s.contains(#[trigger] u[i]) by {
        assert(u[i] == t[i]);
        assert(s.contains(t[i]));
    }
}

/// Trimming the start.
proof fn lemma_trim_start(s: Seq<char>)
    ensures
        crate::text::trim_start(s).len() <= s.len(),
        crate::text::trim_start(s).len() > 0 ==> !crate::text::is_white(
            crate::text::trim_start(s)[0],
        ),
        forall|i: int|
            0 <= i < crate::text::trim_start(s).len() ==> s.contains(
                #[trigger] crate::text::trim_start(s)[i],
            ),
    decreases s.len(),
{
    if s.len() > 0 && crate::text::is_white(s[0]) {
        lemma_trim_start(s.skip(1));
        let t = crate::text::trim_start(s);
        assert forall|i: int| 0 <= i < t.len() implies s.contains(#[trigger] t[i]) by {
            assert(s.skip(1).contains(t[i]));
            let k = choose|k: int| 0 <= k < s.skip(1).len() && s.skip(1)[k] == t[i];
            assert(s[k + 1] == t[i]);
        }
    }
}

/// Trimming the end.
proof fn lemma_trim_end(s: Seq<char>)
    ensures
        crate::text::trim_end(s).len() <= s.len(),
        crate::text::trim_end(s).len() > 0 ==> !crate::text::is_white(
            crate::text::trim_end(s).last(),
        ),
        crate::text::trim_end(s) == s.take(crate::text::trim_end(s).len() as int),
        s.len() > 0 && !crate::text::is_white(s[0]) ==> crate::text::trim_end(s).len() > 0,
    decreases s.len(),
{
    if s.len() > 0 && crate::text::is_white(s.last()) {
        lemma_trim_end(s.drop_last());
        let n = crate::text::trim_end(s).len() as int;
        assert(s.drop_last().take(n) =~= s.take(n));
    } else {
        assert(s.take(s.len() as int) =~= s);
    }
}

/// A text without white space at its ends is its own trimmed form.
pub proof fn lemma_trim_fixed(s: Seq<char>)
    requires
        s.len() > 0 ==> !crate::text::is_white(s[0]) && !crate::text::is_white(s.last()),
    ensures
        crate::text::trim(s) == s,
{
}

/// Trimming keeps a first character that is no white space.
pub proof fn lemma_trim_end_prefix(s: Seq<char>)
    requires
        s.len() > 0,
        !crate::text::is_white(s[0]),
    ensures
        crate::text::trim(s).len() > 0,
        crate::text::trim(s)[0] == s[0],
{
    lemma_trim_end(s);
}

/// White space at the end does not count.
pub proof fn lemma_trim_drop_last(s: Seq<char>)
    requires
        s.len() > 0,
        crate::text::is_white(s.last()),
    ensures
        crate::text::trim(s.drop_last()) == crate::text::trim(s),
    decreases s.len(),
{
    let t = s.drop_last();
    if s.len() > 0 && crate::text::is_white(s[0]) {
        if s.len() == 1 {
            assert(t =~= seq![]);
            assert(crate::text::trim_start(s.skip(1)) == s.skip(1));
            assert(s.skip(1) =~= seq![]);
            assert(crate::text::trim_start(s) =~= seq![]);
            assert(crate::text::trim_start(t) =~= seq![]);
        } else {
            assert(s.skip(1).last() == s.last());
            lemma_trim_drop_last(s.skip(1));
            assert(s.skip(1).drop_last() =~= t.skip(1));
            assert(t[0] == s[0]);
        }
    } else if t.len() > 0 {
        assert(t[0] == s[0]);
    }
}

/// A line that is neither blank nor a comment has a first word.
proof fn lemma_has_word(t: Seq<char>)
    requires
        t.len() > 0,
        !crate::text::is_white(t[0]),
        t[0] != '#',
    ensures
        crate::text::words(t.take(crate::text::find(t, '#'))).len() > 0,
{
    crate::text::lemma_find(t, '#');
    let h = t.take(crate::text::find(t, '#'));
    assert(crate::text::find(t, '#') > 0);
    assert(h[0] == t[0]);
}

// ---------------------------------------------------------------------------
// Reading
// ---------------------------------------------------------------------------
/// Reads one line.
fn parse_line(line: &[char]) -> (r: Result<Option<HostRule>, ParseError>)
    ensures
        match r {
            Ok(Some(rule)) => line_meaning(line@) == Line::Rule(rule@) && crate::ident::is_version_4(
                rule.id.0.0,
            ),
            Ok(None) => line_meaning(line@) == Line::Blank,
            Err(e) => line_meaning(line@) == Line::Bad(e@),
        },
{
    let t = trimmed(line);
    if t.len() == 0 {
        return Ok(None);
    }
    if t[0] == '#' {
        let text = to_text(&t);
        return Ok(Some(HostRule::comment_only(text.as_str())));
    }
    let n = find_char(&t, '#');
    proof {
        crate::text::lemma_find(t@, '#');
        lemma_trim(line@);
        lemma_has_word(t@);
    }
    let head = slice_of(&t, 0, n);
    assert(head@ =~= t@.take(n as int));
    let tokens = split_words(&head);
    let ghost words = crate::text::words(t@.take(n as int));
    assert(tokens@.len() == words.len());
    assert(words[0] == tokens@[0]@);
    let first = to_text(&tokens[0]);
    let ip = match IpAddr::read(&tokens[0]) {
        Some(ip) => ip,
        None => {
            if looks_like_ip(first.as_str()) {
                return Err(ParseError::InvalidIp(first));
            } else {
                return Err(ParseError::MalformedLine(to_text(line)));
            }
        },
    };
    if tokens.len() < 2 {
        return Err(ParseError::MalformedLine(to_text(line)));
    }
    let mut domains: Vec<String> = Vec::new();
    let mut i: usize = 1;
    assert(words.skip(1).take(0) =~= crate::text::texts(domains@));
    while i < tokens.len()
        invariant
            1 <= i <= tokens@.len(),
            tokens@.len() == words.len(),
            words == crate::text::vec_texts(tokens@),
            crate::text::texts(domains@) == words.skip(1).take(i - 1),
            first_bad(words.skip(1)) == first_bad(words.skip(i as int)),
            line_meaning(line@) == (match first_bad(words.skip(1)) {
                Some(d) => Line::Bad(Fault::InvalidDomain(d)),
                None => Line::Rule(
                    crate::models::RuleFacts {
                        comment: inline_comment(t@),
                        ..crate::models::rule_facts(ip, words.skip(1))
                    },
                ),
            }),
        decreases tokens.len() - i,
    {
        let d = to_text(&tokens[i]);
        let ghost rest = words.skip(i as int);
        assert(rest[0] == words[i as int]);
        assert(words[i as int] == tokens@[i as int]@);
        assert(rest.skip(1) =~= words.skip(i + 1));
        if !is_valid_domain(d.as_str()) {
            return Err(ParseError::InvalidDomain(d));
        }
        let ghost before = crate::text::texts(domains@);
        domains.push(d);
        assert(crate::text::texts(domains@) =~= before.push(words[i as int]));
        assert(words.skip(1).take(i as int) =~= words.skip(1).take(i - 1).push(words[i as int]));
        i = i + 1;
    }
    proof {
        assert(words.skip(i as int).len() == 0);
        assert(words.skip(1).take(i - 1) =~= words.skip(1));
    }
    let mut rule = HostRule::new(ip, domains);
    if n < t.len() {
        let tail = slice_of(&t, n + 1, t.len());
        assert(tail@ =~= t@.skip(n + 1));
        let c = trimmed(&tail);
        if c.len() > 0 {
            rule.comment = Some(to_text(&c));
        }
    }
    Ok(Some(rule))
}

impl Parser {
    /// Reads a text: the rules of its good lines and the errors of its bad lines,
    /// each in order.
    pub fn parse(input: &str) -> (r: ParseResult)
        ensures
            facts_of(r.rules@) == rules_in(crate::text::lines(input@)),
            faults_of(r.errors@) == faults_in(crate::text::lines(input@)),
            forall|i: int|
                0 <= i < r.rules@.len() ==> crate::ident::is_version_4(
                    (#[trigger] r.rules@[i]).id.0.0,
                ),
    {
        let v = to_chars(input);
        let all = split_lines(&v);
        let ghost ls = crate::text::lines(input@);
        assert(all@.len() == ls.len());
        let mut rules: Vec<HostRule> = Vec::new();
        let mut errors: Vec<ParseError> = Vec::new();
        let mut i: usize = 0;
        assert(facts_of(rules@) =~= rules_in(ls.take(0)));
        assert(faults_of(errors@) =~= faults_in(ls.take(0)));
        while i < all.len()
            invariant
                i <= all@.len(),
                ls == crate::text::vec_texts(all@),
                facts_of(rules@) == rules_in(ls.take(i as int)),
                faults_of(errors@) == faults_in(ls.take(i as int)),
                forall|k: int|
                    0 <= k < rules@.len() ==> crate::ident::is_version_4(
                        (#[trigger] rules@[k]).id.0.0,
                    ),
            decreases all.len() - i,
        {
            let ghost r0 = facts_of(rules@);
            let ghost e0 = faults_of(errors@);
            proof {
                assert(ls.take(i + 1).drop_last() =~= ls.take(i as int));
                assert(ls.take(i + 1).last() == all@[i as int]@);
            }
            match parse_line(&all[i]) {
                Ok(Some(rule)) => {
                    rules.push(rule);
                    assert(facts_of(rules@) =~= r0.push(rule@));
                },
                Ok(None) => {},
                Err(e) => {
                    errors.push(e);
                    assert(faults_of(errors@) =~= e0.push(e@));
                },
            }
            i = i + 1;
        }
        assert(ls.take(i as int) =~= ls);
        ParseResult { rules, errors }
    }

    /// Reads a text with the numbers of its lines, counted from 1, and looks for
    /// duplicates among its rules.
    pub fn parse_with_lines(text: &str) -> (r: ValidateResult)
        ensures
            facts_of(r.rules@) == numbered_rules(crate::text::lines(text@)),
            located_faults(r.errors@) == numbered_faults(crate::text::lines(text@)),
            forall|i: int|
                0 <= i < r.rules@.len() ==> crate::ident::is_version_4(
                    (#[trigger] r.rules@[i]).id.0.0,
                ),
            ({
                let m = crate::hosts::validator::mentions(r.rules@);
                let d = crate::hosts::validator::repeated(
                    crate::hosts::validator::domains_of(m),
                    m,
                );
                &&& r.duplicates@.len() == d.len()
                &&& forall|k: int|
                    0 <= k < d.len() ==> crate::hosts::validator::reports(
                        #[trigger] r.duplicates@[k],
                        d[k],
                        m,
                    )
            }),
    {
        let v = to_chars(text);
        let all = split_lines(&v);
        let ghost ls = crate::text::lines(text@);
        assert(all@.len() == ls.len());
        let mut rules: Vec<HostRule> = Vec::new();
        let mut errors: Vec<ParseErrorAtLine> = Vec::new();
        let mut i: usize = 0;
        assert(facts_of(rules@) =~= numbered_rules(ls.take(0)));
        assert(located_faults(errors@) =~= numbered_faults(ls.take(0)));
        while i < all.len()
            invariant
                i <= all@.len(),
                ls == crate::text::vec_texts(all@),
                facts_of(rules@) == numbered_rules(ls.take(i as int)),
                located_faults(errors@) == numbered_faults(ls.take(i as int)),
                forall|k: int|
                    0 <= k < rules@.len() ==> crate::ident::is_version_4(
                        (#[trigger] rules@[k]).id.0.0,
                    ),
            decreases all.len() - i,
        {
            let ghost r0 = facts_of(rules@);
            let ghost e0 = located_faults(errors@);
            proof {
                assert(ls.take(i + 1).drop_last() =~= ls.take(i as int));
                assert(ls.take(i + 1).last() == all@[i as int]@);
            }
            match parse_line(&all[i]) {
                Ok(Some(rule)) => {
                    let mut rule = rule;
                    rule.line_number = Some(i + 1);
                    rules.push(rule);
                    assert(facts_of(rules@) =~= r0.push(rule@));
                },
                Ok(None) => {},
                Err(error) => {
                    errors.push(ParseErrorAtLine { line_number: i + 1, error });
                    assert(located_faults(errors@) =~= e0.push(((i + 1) as nat, error@)));
                },
            }
            i = i + 1;
        }
        assert(ls.take(i as int) =~= ls);
        let duplicates = check_duplicates(&rules);
        ValidateResult { rules, errors, duplicates }
    }

    /// The errors of a text with the numbers of their lines, counted from 1.
    pub fn parse_errors_only(text: &str) -> (r: Vec<ParseErrorAtLine>)
        ensures
            located_faults(r@) == numbered_faults(crate::text::lines(text@)),
    {
        let v = to_chars(text);
        let all = split_lines(&v);
        let ghost ls = crate::text::lines(text@);
        assert(all@.len() == ls.len());
        let mut errors: Vec<ParseErrorAtLine> = Vec::new();
        let mut i: usize = 0;
        assert(located_faults(errors@) =~= numbered_faults(ls.take(0)));
        while i < all.len()
            invariant
                i <= all@.len(),
                ls == crate::text::vec_texts(all@),
                located_faults(errors@) == numbered_faults(ls.take(i as int)),
            decreases all.len() - i,
        {
            let ghost e0 = located_faults(errors@);
            proof {
                assert(ls.take(i + 1).drop_last() =~= ls.take(i as int));
                assert(ls.take(i + 1).last() == all@[i as int]@);
            }
            match parse_line(&all[i]) {
                Ok(_) => {},
                Err(error) => {
                    errors.push(ParseErrorAtLine { line_number: i + 1, error });
                    assert(located_faults(errors@) =~= e0.push(((i + 1) as nat, error@)));
                },
            }
            i = i + 1;
        }
        assert(ls.take(i as int) =~= ls);
        errors
    }

    /// The text of some rules, one line per domain.
    pub fn format(rules: &[HostRule]) -> (r: String)
        ensures
            r@ == crate::hosts::formatter::rules_text(facts_of(rules@)),
    {
        format_rules(rules)
    }
}

} // verus!
