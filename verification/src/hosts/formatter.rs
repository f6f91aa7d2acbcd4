//! Writing a hosts file.
use vstd::prelude::*;
use vstd::string::*;

use crate::models::HostRule;

verus! {

broadcast use vstd::string::group_string_axioms;

/// The line that starts the managed block.
pub open spec fn start_marker() -> Seq<char> {
    "# ---- mHost start ----"@
}

/// The line that ends the managed block.
pub open spec fn end_marker() -> Seq<char> {
    "# ---- mHost end ----"@
}

/// Each line followed by a line ending.
pub open spec fn lines_text(lines: Seq<Seq<char>>) -> Seq<char>
    decreases lines.len(),
{
    if lines.len() == 0 {
        seq![]
    } else {
        lines_text(lines.drop_last()) + lines.last().push('\n')
    }
}

/// An address and a domain, as one line of a hosts file.
pub open spec fn host_line(ip: crate::net::IpAddr, domain: Seq<char>) -> Seq<char> {
    crate::net::ip_text(ip).push(' ') + domain
}

/// The line of one domain of a rule.
pub open spec fn domain_line(
    ip: crate::net::IpAddr,
    domain: Seq<char>,
    comment: Option<Seq<char>>,
) -> Seq<char> {
    match comment {
        Some(c) => host_line(ip, domain) + seq![' ', '#', ' '] + c,
        None => host_line(ip, domain),
    }
}

/// The lines of a rule: its comment where it is a comment alone, otherwise one
/// line for each domain.
pub open spec fn rule_lines(r: crate::models::RuleFacts) -> Seq<Seq<char>> {
    match (r.ip, r.comment) {
        (Some(ip), _) => Seq::new(
            r.domains.len(),
            |i: int| domain_line(ip, r.domains[i], r.comment),
        ),
        (None, Some(c)) => seq![c],
        (None, None) => seq![],
    }
}

/// The lines of some rules.
pub open spec fn all_lines(rules: Seq<crate::models::RuleFacts>) -> Seq<Seq<char>>
    decreases rules.len(),
{
    if rules.len() == 0 {
        seq![]
    } else {
        all_lines(rules.drop_last()) + rule_lines(rules.last())
    }
}

/// The text of some rules.
pub open spec fn rules_text(rules: Seq<crate::models::RuleFacts>) -> Seq<char> {
    lines_text(all_lines(rules))
}

/// The text of some rules between the markers; nothing when there are no rules.
pub open spec fn block_text(rules: Seq<crate::models::RuleFacts>) -> Seq<char> {
    if rules.len() == 0 {
        seq![]
    } else {
        start_marker().push('\n') + rules_text(rules) + end_marker().push('\n')
    }
}

/// The texts of two lists of lines, one after the other.
pub proof fn lemma_lines_text_add(a: Seq<Seq<char>>, b: Seq<Seq<char>>)
    ensures
        lines_text(a + b) == lines_text(a) + lines_text(b),
    decreases b.len(),
{
    if b.len() == 0 {
        assert(a + b =~= a);
        assert(lines_text(a) + seq![] =~= lines_text(a));
    } else {
        lemma_lines_text_add(a, b.drop_last());
        assert((a + b).drop_last() =~= a + b.drop_last());
        assert((a + b).last() == b.last());
        assert(lines_text(a + b) =~= lines_text(a) + lines_text(b));
    }
}

/// The text of some rules: one line for each domain, with the comment of the rule
/// behind a `#`; the comment itself for a rule that is a comment alone.
pub fn format_rules(rules: &[HostRule]) -> (r: String)
    ensures
        r@ == rules_text(crate::hosts::parser::facts_of(rules@)),
{
    let ghost facts = crate::hosts::parser::facts_of(rules@);
    let mut out: String = String::new();
    let mut i: usize = 0;
    assert(facts.take(0) =~= seq![]);
    assert(out@ =~= rules_text(facts.take(0)));
    while i < rules.len()
        invariant
            i <= rules@.len(),
            facts == crate::hosts::parser::facts_of(rules@),
            out@ == rules_text(facts.take(i as int)),
        decreases rules.len() - i,
    {
        let rule = &rules[i];
        let ghost before = out@;
        let ghost mine = rule_lines(rule@);
        proof {
            assert(facts.take(i + 1).drop_last() =~= facts.take(i as int));
            assert(facts.take(i + 1).last() == rule@);
            lemma_lines_text_add(all_lines(facts.take(i as int)), mine);
        }
        match (&rule.ip, &rule.comment) {
            (Some(ip), _) => {
                let mut j: usize = 0;
                assert(lines_text(mine.take(0)) =~= seq![]);
                assert(before + seq![] =~= before);
                while j < rule.domains.len()
                    invariant
                        j <= rule.domains@.len(),
                        rule.ip == Some(*ip),
                        mine == rule_lines(rule@),
                        out@ == before + lines_text(mine.take(j as int)),
                    decreases rule.domains.len() - j,
                {
                    let ghost at = out@;
                    out.append(ip.to_text().as_str());
                    out.push(' ');
                    out.append(rule.domains[j].as_str());
                    match &rule.comment {
                        Some(c) => {
                            out.append(" # ");
                            out.append(c.as_str());
                        },
                        None => {},
                    }
                    out.push('\n');
                    proof {
                        reveal_strlit(" # ");
                        assert(" # "@ =~= seq![' ', '#', ' ']);
                        let line = domain_line(*ip, rule.domains@[j as int]@, rule@.comment);
                        assert(mine[j as int] == line);
                        assert(out@ =~= at + line.push('\n'));
                        assert(mine.take(j + 1).drop_last() =~= mine.take(j as int));
                        assert(out@ =~= before + lines_text(mine.take(j + 1)));
                    }
                    j = j + 1;
                }
                assert(mine.take(j as int) =~= mine);
            },
            (None, Some(c)) => {
                out.append(c.as_str());
                out.push('\n');
                proof {
                    assert(mine =~= seq![c@]);
                    assert(mine.drop_last() =~= seq![]);
                    assert(lines_text(mine.drop_last()) =~= seq![]);
                    assert(lines_text(mine) =~= c@.push('\n'));
                    assert(out@ =~= before + lines_text(mine));
                }
            },
            (None, None) => {
                assert(lines_text(mine) =~= seq![]);
                assert(before + lines_text(mine) =~= before);
            },
        }
        i = i + 1;
    }
    assert(facts.take(i as int) =~= facts);
    out
}

/// The text of some rules between the markers of the managed block; the empty text
/// when there are no rules.
pub fn format_managed_block(rules: &[HostRule]) -> (r: String)
    ensures
        r@ == block_text(crate::hosts::parser::facts_of(rules@)),
{
    if rules.len() == 0 {
        return String::new();
    }
    let mut out: String = "# ---- mHost start ----".to_owned();
    out.push('\n');
    out.append(format_rules(rules).as_str());
    out.append("# ---- mHost end ----");
    out.push('\n');
    assert(out@ =~= block_text(crate::hosts::parser::facts_of(rules@)));
    out
}

} // verus!
