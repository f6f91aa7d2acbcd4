//! Questions about conflicts.
use vstd::prelude::*;
use vstd::string::*;

use crate::models::{ResolvedRule, RuleConflict};
use crate::order::sorted_unique;
use crate::text::same_text;

verus! {

broadcast use vstd::string::group_string_axioms;

/// The number of rules in all conflicts.
pub open spec fn rules_in_conflicts(conflicts: Seq<RuleConflict>) -> nat
    decreases conflicts.len(),
{
    if conflicts.len() == 0 {
        0
    } else {
        rules_in_conflicts(conflicts.drop_last()) + conflicts.last().rules@.len()
    }
}

/// The first conflict about a domain.
pub open spec fn conflict_about(conflicts: Seq<RuleConflict>, domain: Seq<char>) -> Option<
    RuleConflict,
>
    decreases conflicts.len(),
{
    if conflicts.len() == 0 {
        None
    } else if conflicts[0].domain@ == domain {
        Some(conflicts[0])
    } else {
        conflict_about(conflicts.skip(1), domain)
    }
}

/// The addresses of some rules, as text.
pub open spec fn ips_of(rules: Seq<ResolvedRule>) -> Seq<Seq<char>> {
    Seq::new(rules.len(), |i: int| crate::net::ip_text(rules[i].ip))
}

/// The names of the profiles of some rules.
pub open spec fn sources_of(rules: Seq<ResolvedRule>) -> Seq<Seq<char>> {
    Seq::new(rules.len(), |i: int| rules[i].source_profile_name@)
}

/// Whether any conflict is about `domain`.
pub fn is_conflicted(domain: &str, conflicts: &[RuleConflict]) -> (r: bool)
    ensures
        r == crate::apply::merge::conflict_names(conflicts@).contains(domain@),
{
    let ghost names = crate::apply::merge::conflict_names(conflicts@);
    let mut i: usize = 0;
    while i < conflicts.len()
        invariant
            i <= conflicts@.len(),
            names == crate::apply::merge::conflict_names(conflicts@),
            forall|j: int| 0 <= j < i ==> names[j] != domain@,
        decreases conflicts.len() - i,
    {
        if same_text(conflicts[i].domain.as_str(), domain) {
            assert(names[i as int] == domain@);
            return true;
        }
        i = i + 1;
    }
    false
}

/// The domains of the conflicts, in order, each once.
pub fn conflict_domains(conflicts: &[RuleConflict]) -> (r: Vec<String>)
    ensures
        crate::apply::diff::lists(
            r@,
            crate::apply::merge::conflict_names(conflicts@).to_set(),
        ),
{
    let ghost names = crate::apply::merge::conflict_names(conflicts@);
    let mut v: Vec<String> = Vec::new();
    let mut i: usize = 0;
    assert(crate::text::texts(v@) =~= names.take(0));
    while i < conflicts.len()
        invariant
            i <= conflicts@.len(),
            names == crate::apply::merge::conflict_names(conflicts@),
            crate::text::texts(v@) == names.take(i as int),
        decreases conflicts.len() - i,
    {
        let ghost before = crate::text::texts(v@);
        v.push(conflicts[i].domain.clone());
        assert(crate::text::texts(v@) =~= before.push(names[i as int]));
        assert(names.take(i + 1) =~= names.take(i as int).push(names[i as int]));
        i = i + 1;
    }
    assert(names.take(i as int) =~= names);
    sorted_unique(&v)
}

/// The number of rules in all conflicts, which must fit the machine's integers.
pub fn total_conflicted_rules(conflicts: &[RuleConflict]) -> (r: usize)
    requires
        rules_in_conflicts(conflicts@) <= usize::MAX,
    ensures
        r == rules_in_conflicts(conflicts@),
{
    let mut n: usize = 0;
    let mut i: usize = 0;
    while i < conflicts.len()
        invariant
            i <= conflicts@.len(),
            n == rules_in_conflicts(conflicts@.take(i as int)),
            rules_in_conflicts(conflicts@) <= usize::MAX,
        decreases conflicts.len() - i,
    {
        proof {
            assert(conflicts@.take(i + 1).drop_last() =~= conflicts@.take(i as int));
            lemma_total_prefix(conflicts@, i + 1);
        }
        n = n + conflicts[i].rules.len();
        i = i + 1;
    }
    assert(conflicts@.take(i as int) =~= conflicts@);
    n
}

/// Fewer conflicts hold no more rules.
proof fn lemma_total_prefix(conflicts: Seq<RuleConflict>, n: int)
    requires
        0 <= n <= conflicts.len(),
    ensures
        rules_in_conflicts(conflicts.take(n)) <= rules_in_conflicts(conflicts),
    decreases conflicts.len(),
{
    if n < conflicts.len() {
        lemma_total_prefix(conflicts.drop_last(), n);
        assert(conflicts.drop_last().take(n) =~= conflicts.take(n));
    } else {
        assert(conflicts.take(n) =~= conflicts);
    }
}

/// The place of the first conflict about `domain`.
fn find_conflict(conflicts: &[RuleConflict], domain: &str) -> (r: Option<usize>)
    ensures
        match r {
            Some(i) => i < conflicts@.len() && conflict_about(conflicts@, domain@) == Some(
                conflicts@[i as int],
            ),
            None => conflict_about(conflicts@, domain@) is None,
        },
{
    let mut i: usize = 0;
    assert(conflicts@.skip(0) =~= conflicts@);
    while i < conflicts.len()
        invariant
            i <= conflicts@.len(),
            conflict_about(conflicts@, domain@) == conflict_about(conflicts@.skip(i as int), domain@),
        decreases conflicts.len() - i,
    {
        let ghost rest = conflicts@.skip(i as int);
        assert(rest[0] == conflicts@[i as int]);
        assert(rest.skip(1) =~= conflicts@.skip(i + 1));
        if same_text(conflicts[i].domain.as_str(), domain) {
            return Some(i);
        }
        i = i + 1;
    }
    None
}

/// The addresses of the conflict about `domain`, as text in the order of texts, each
/// once; none when there is no such conflict.
pub fn conflict_ips(conflicts: &[RuleConflict], domain: &str) -> (r: Vec<String>)
    ensures
        match conflict_about(conflicts@, domain@) {
            Some(c) => crate::apply::diff::lists(r@, ips_of(c.rules@).to_set()),
            None => r@.len() == 0,
        },
{
    match find_conflict(conflicts, domain) {
        None => Vec::new(),
        Some(k) => {
            let rules = &conflicts[k].rules;
            let ghost all = ips_of(rules@);
            let mut v: Vec<String> = Vec::new();
            let mut i: usize = 0;
            assert(crate::text::texts(v@) =~= all.take(0));
            while i < rules.len()
                invariant
                    i <= rules@.len(),
                    all == ips_of(rules@),
                    crate::text::texts(v@) == all.take(i as int),
                decreases rules.len() - i,
            {
                let ghost before = crate::text::texts(v@);
                v.push(rules[i].ip.to_text());
                assert(crate::text::texts(v@) =~= before.push(all[i as int]));
                assert(all.take(i + 1) =~= all.take(i as int).push(all[i as int]));
                i = i + 1;
            }
            assert(all.take(i as int) =~= all);
            sorted_unique(&v)
        },
    }
}

/// The names of the profiles in the conflict about `domain`, in order, each once;
/// none when there is no such conflict.
pub fn conflict_sources(conflicts: &[RuleConflict], domain: &str) -> (r: Vec<String>)
    ensures
        match conflict_about(conflicts@, domain@) {
            Some(c) => crate::apply::diff::lists(r@, sources_of(c.rules@).to_set()),
            None => r@.len() == 0,
        },
{
    match find_conflict(conflicts, domain) {
        None => Vec::new(),
        Some(k) => {
            let rules = &conflicts[k].rules;
            let ghost all = sources_of(rules@);
            let mut v: Vec<String> = Vec::new();
            let mut i: usize = 0;
            assert(crate::text::texts(v@) =~= all.take(0));
            while i < rules.len()
                invariant
                    i <= rules@.len(),
                    all == sources_of(rules@),
                    crate::text::texts(v@) == all.take(i as int),
                decreases rules.len() - i,
            {
                let ghost before = crate::text::texts(v@);
                v.push(rules[i].source_profile_name.clone());
                assert(crate::text::texts(v@) =~= before.push(all[i as int]));
                assert(all.take(i + 1) =~= all.take(i as int).push(all[i as int]));
                i = i + 1;
            }
            assert(all.take(i as int) =~= all);
            sorted_unique(&v)
        },
    }
}

} // verus!
