//! The plan: what to write, what conflicts, and what changes.
use vstd::prelude::*;
use vstd::string::*;

use crate::apply::diff::calculate_diff;
use crate::apply::merge::Merger;
use crate::error::MhostError;
use crate::hosts::formatter::format_managed_block;
use crate::models::{ApplyPlan, HostRule, Profile, ResolvedRule};

verus! {

use crate::models::RuleFacts;

broadcast use vstd::string::group_string_axioms;

/// Each resolved rule as a rule of a hosts file.
pub open spec fn hosts_rules(rules: Seq<ResolvedRule>) -> Seq<RuleFacts> {
    Seq::new(
        rules.len(),
        |i: int| crate::models::rule_facts(rules[i].ip, seq![rules[i].domain@]),
    )
}

/// The managed block of some resolved rules.
pub open spec fn hosts_block(rules: Seq<ResolvedRule>) -> Seq<char> {
    crate::hosts::formatter::block_text(hosts_rules(rules))
}

/// The plan that applies the enabled profiles to a hosts file with the text
/// `current_hosts`: the merged rules, their conflicts, the lines that change, and
/// whether anything changes, in which case the old file is worth keeping.
pub fn generate_plan(profiles: &[Profile], current_hosts: &str) -> (r: Result<
    ApplyPlan,
    MhostError,
>)
    ensures
        r matches Ok(p) && {
            &&& crate::apply::merge::rules_complete(
                crate::apply::merge::entries(profiles@),
                p.rules@,
            )
            &&& crate::apply::merge::conflicts_complete(
                crate::apply::merge::entries(profiles@),
                p.conflicts@,
            )
            &&& crate::apply::diff::diff_between(
                p.diff,
                crate::apply::diff::existing_lines(current_hosts@),
                crate::apply::diff::target_lines(p.rules@),
            )
            &&& p.backup_required == (p.diff.added@.len() > 0 || p.diff.removed@.len() > 0)
        },
{
    let merged = Merger::merge(profiles);
    let diff = calculate_diff(current_hosts, &merged.rules);
    let backup_required = diff.added.len() > 0 || diff.removed.len() > 0;
    Ok(ApplyPlan { rules: merged.rules, conflicts: merged.conflicts, diff, backup_required })
}

/// The managed block of some resolved rules, markers included; the empty text when
/// there are none.
pub fn format_as_hosts(rules: &[ResolvedRule]) -> (r: String)
    ensures
        r@ == hosts_block(rules@),
{
    let mut host_rules: Vec<HostRule> = Vec::new();
    let ghost all = hosts_rules(rules@);
    let mut i: usize = 0;
    assert(crate::hosts::parser::facts_of(host_rules@) =~= all.take(0));
    while i < rules.len()
        invariant
            i <= rules@.len(),
            all == hosts_rules(rules@),
            crate::hosts::parser::facts_of(host_rules@) == all.take(i as int),
        decreases rules.len() - i,
    {
        let ghost before = crate::hosts::parser::facts_of(host_rules@);
        let mut domains: Vec<String> = Vec::new();
        domains.push(rules[i].domain.clone());
        assert(crate::text::texts(domains@) =~= seq![rules@[i as int].domain@]);
        let rule = HostRule::new(rules[i].ip, domains);
        let ghost facts = rule@;
        host_rules.push(rule);
        proof {
            assert(facts == all[i as int]);
            assert(crate::hosts::parser::facts_of(host_rules@) =~= before.push(facts));
            assert(all.take(i + 1) =~= all.take(i as int).push(facts));
        }
        i = i + 1;
    }
    assert(all.take(i as int) =~= all);
    format_managed_block(&host_rules)
}

} // verus!
