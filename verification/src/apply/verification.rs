//! Checking a hosts file against the plan that it was written from.
use vstd::prelude::*;
use vstd::string::*;

use crate::apply::diff::host_line_text;
use crate::error::{ApplyError, MhostError};
use crate::hosts::parser::Parser;
use crate::models::ApplyPlan;
use crate::order::{holds, sorted_unique};
use crate::text::{split_lines, to_chars, to_text};

verus! {

use crate::models::ResolvedRule;

broadcast use vstd::string::group_string_axioms;

/// The line of the first rule that is not among `lines`.
pub open spec fn first_missing(rules: Seq<ResolvedRule>, lines: Seq<Seq<char>>) -> Option<Seq<char>>
    decreases rules.len(),
{
    if rules.len() == 0 {
        None
    } else {
        let line = crate::hosts::formatter::host_line(rules[0].ip, rules[0].domain@);
        if lines.contains(line) {
            first_missing(rules.skip(1), lines)
        } else {
            Some(line)
        }
    }
}

/// What is wrong with a text that should hold `rules`, if anything: a managed block
/// that should not be there, none that should, or a line that it lacks.
pub open spec fn shortcoming(written: Seq<char>, rules: Seq<ResolvedRule>) -> Option<Seq<char>> {
    match crate::hosts::block::managed_content(written) {
        Some(content) => if rules.len() == 0 {
            Some("expected no managed block but found one"@)
        } else {
            match first_missing(rules, crate::text::lines(content)) {
                Some(line) => Some("expected rule '"@ + line + "' not found"@),
                None => None,
            }
        },
        None => if rules.len() == 0 {
            None
        } else {
            Some("managed block missing"@)
        },
    }
}

/// Checks that `written` is what `plan` asked for: without rules there is no managed
/// block; with rules there is one, and each rule is a line of it.
pub fn verify(written: &str, plan: &ApplyPlan) -> (r: Result<(), MhostError>)
    ensures
        match shortcoming(written@, plan.rules@) {
            None => r is Ok,
            Some(t) => r matches Err(MhostError::Apply(ApplyError::VerificationFailed(m))) && m@
                == t,
        },
{
    let content = Parser::extract_managed_block_content(written);
    if plan.rules.len() == 0 {
        return match content {
            Some(_) => Err(
                MhostError::Apply(
                    ApplyError::VerificationFailed(
                        "expected no managed block but found one".to_owned(),
                    ),
                ),
            ),
            None => Ok(()),
        };
    }
    let content = match content {
        Some(c) => c,
        None => {
            return Err(
                MhostError::Apply(
                    ApplyError::VerificationFailed("managed block missing".to_owned()),
                ),
            );
        },
    };
    let v = to_chars(content.as_str());
    let split = split_lines(&v);
    let ghost ls = crate::text::lines(content@);
    let mut texts: Vec<String> = Vec::new();
    let mut i: usize = 0;
    assert(crate::text::texts(texts@) =~= ls.take(0));
    assert(ls.len() == split@.len());
    while i < split.len()
        invariant
            i <= split@.len(),
            ls == crate::text::vec_texts(split@),
            crate::text::texts(texts@) == ls.take(i as int),
        decreases split.len() - i,
    {
        let ghost before = crate::text::texts(texts@);
        texts.push(to_text(&split[i]));
        assert(crate::text::texts(texts@) =~= before.push(ls[i as int]));
        assert(ls.take(i + 1) =~= ls.take(i as int).push(ls[i as int]));
        i = i + 1;
    }
    assert(ls.take(i as int) =~= ls);
    let known = sorted_unique(&texts);
    let ghost k = crate::text::texts(known@);
    proof {
        assert forall|s: Seq<char>| k.contains(s) == ls.contains(s) by {
            assert(k.to_set().contains(s) == ls.to_set().contains(s));
        }
    }
    let mut j: usize = 0;
    assert(plan.rules@.skip(0) =~= plan.rules@);
    while j < plan.rules.len()
        invariant
            j <= plan.rules@.len(),
            plan.rules@.len() > 0,
            k == crate::text::texts(known@),
            crate::order::increasing(k),
            forall|s: Seq<char>| k.contains(s) == ls.contains(s),
            crate::hosts::block::managed_content(written@) == Some(content@),
            ls == crate::text::lines(content@),
            first_missing(plan.rules@, ls) == first_missing(plan.rules@.skip(j as int), ls),
        decreases plan.rules.len() - j,
    {
        let rule = &plan.rules[j];
        let line = host_line_text(&rule.ip, rule.domain.as_str());
        let ghost rest = plan.rules@.skip(j as int);
        assert(rest[0] == plan.rules@[j as int]);
        assert(rest.skip(1) =~= plan.rules@.skip(j + 1));
        if !holds(&known, line.as_str()) {
            let mut m: String = "expected rule '".to_owned();
            m.append(line.as_str());
            m.append("' not found");
            return Err(MhostError::Apply(ApplyError::VerificationFailed(m)));
        }
        j = j + 1;
    }
    assert(plan.rules@.skip(j as int).len() == 0);
    Ok(())
}

} // verus!
