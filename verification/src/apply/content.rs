//! The new text of a hosts file.
use vstd::prelude::*;
use vstd::string::*;

use crate::apply::plan::format_as_hosts;
use crate::hosts::parser::Parser;
use crate::models::ApplyPlan;
use crate::text::{slice_of, to_chars, to_text};

verus! {

use crate::models::ResolvedRule;

broadcast use vstd::string::group_string_axioms;

/// A text with a line ending at its end, unless it is empty.
pub open spec fn closed_text(s: Seq<char>) -> Seq<char> {
    if s.len() > 0 && s.last() != '\n' {
        s.push('\n')
    } else {
        s
    }
}

/// The text with its managed block replaced by that of `rules`, or with that block
/// behind it when there was none. Everything else stays as it is.
pub open spec fn new_content(current: Seq<char>, rules: Seq<ResolvedRule>) -> Seq<char> {
    let block = crate::apply::plan::hosts_block(rules);
    match crate::hosts::block::managed_span(current) {
        Some((a, b)) => current.take(a) + block + current.skip(b),
        None => closed_text(current) + block,
    }
}

/// The hosts file that a plan asks for. The managed block of `current`, with its
/// line endings, is replaced by the block of the plan's rules; where there is no
/// managed block the new one is appended, on a line of its own. All other text is
/// kept character by character.
pub fn build_hosts_content(current: &str, plan: &ApplyPlan) -> (r: String)
    ensures
        r@ == new_content(current@, plan.rules@),
{
    let block = format_as_hosts(&plan.rules);
    let v = to_chars(current);
    match Parser::extract_managed_block_span(&v) {
        Some((a, b)) => {
            let head = slice_of(&v, 0, a);
            let tail = slice_of(&v, b, v.len());
            assert(head@ =~= current@.take(a as int));
            assert(tail@ =~= current@.skip(b as int));
            let mut out: String = to_text(&head);
            out.append(block.as_str());
            out.append(to_text(&tail).as_str());
            out
        },
        None => {
            let mut out: String = current.to_owned();
            if v.len() > 0 && v[v.len() - 1] != '\n' {
                out.push('\n');
            }
            out.append(block.as_str());
            out
        },
    }
}

} // verus!
