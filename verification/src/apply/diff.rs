//! What a plan changes in the managed block.
use vstd::prelude::*;
use vstd::string::*;

use crate::hosts::parser::Parser;
use crate::models::{HostsDiff, ResolvedRule};
use crate::net::IpAddr;
use crate::order::{holds, sorted_unique};

verus! {

use crate::models::RuleFacts;

broadcast use vstd::string::group_string_axioms;

/// The line of each resolved rule.
pub open spec fn target_lines(rules: Seq<ResolvedRule>) -> Seq<Seq<char>> {
    Seq::new(
        rules.len(),
        |i: int| crate::hosts::formatter::host_line(rules[i].ip, rules[i].domain@),
    )
}

/// The line of each domain of a rule, without the comment.
pub open spec fn plain_lines(r: RuleFacts) -> Seq<Seq<char>> {
    match r.ip {
        Some(ip) => Seq::new(
            r.domains.len(),
            |i: int| crate::hosts::formatter::host_line(ip, r.domains[i]),
        ),
        None => seq![],
    }
}

/// The lines of some rules, without their comments.
pub open spec fn all_plain_lines(rules: Seq<RuleFacts>) -> Seq<Seq<char>>
    decreases rules.len(),
{
    if rules.len() == 0 {
        seq![]
    } else {
        all_plain_lines(rules.drop_last()) + plain_lines(rules.last())
    }
}

/// The rules inside the managed block, as plain lines. What stands outside the
/// block does not count.
pub open spec fn existing_lines(current: Seq<char>) -> Seq<Seq<char>> {
    match crate::hosts::block::managed_content(current) {
        Some(t) => all_plain_lines(crate::hosts::parser::rules_in(crate::text::lines(t))),
        None => seq![],
    }
}

/// A list in order, without repetitions, that holds exactly the members of `s`.
pub open spec fn lists(v: Seq<String>, s: Set<Seq<char>>) -> bool {
    crate::order::increasing(crate::text::texts(v)) && crate::text::texts(v).to_set() == s
}

/// What a diff says of the lines that are there and the lines that are wanted.
pub open spec fn diff_between(
    d: HostsDiff,
    existing: Seq<Seq<char>>,
    target: Seq<Seq<char>>,
) -> bool {
    &&& lists(d.added@, target.to_set().difference(existing.to_set()))
    &&& lists(d.removed@, existing.to_set().difference(target.to_set()))
    &&& lists(d.unchanged@, existing.to_set().intersect(target.to_set()))
}

/// An address and a domain as one line.
pub fn host_line_text(ip: &IpAddr, domain: &str) -> (r: String)
    ensures
        r@ == crate::hosts::formatter::host_line(*ip, domain@),
{
    let mut s: String = ip.to_text();
    s.push(' ');
    s.append(domain);
    s
}

/// The rules inside the managed block of the current text, as plain lines.
fn extract_existing_lines(current_hosts: &str) -> (r: Vec<String>)
    ensures
        crate::text::texts(r@) == existing_lines(current_hosts@),
{
    let mut out: Vec<String> = Vec::new();
    match Parser::extract_managed_block_content(current_hosts) {
        None => {
            assert(crate::text::texts(out@) =~= seq![]);
            out
        },
        Some(content) => {
            let parsed = Parser::parse(content.as_str());
            let rules = &parsed.rules;
            let ghost facts = crate::hosts::parser::facts_of(rules@);
            let mut i: usize = 0;
            assert(crate::text::texts(out@) =~= all_plain_lines(facts.take(0)));
            while i < rules.len()
                invariant
                    i <= rules@.len(),
                    facts == crate::hosts::parser::facts_of(rules@),
                    crate::text::texts(out@) == all_plain_lines(facts.take(i as int)),
                decreases rules.len() - i,
            {
                let rule = &rules[i];
                let ghost before = crate::text::texts(out@);
                let ghost mine = plain_lines(rule@);
                proof {
                    assert(facts.take(i + 1).drop_last() =~= facts.take(i as int));
                    assert(facts.take(i + 1).last() == rule@);
                }
                match &rule.ip {
                    Some(ip) => {
                        let mut j: usize = 0;
                        assert(before + mine.take(0) =~= before);
                        while j < rule.domains.len()
                            invariant
                                j <= rule.domains@.len(),
                                rule.ip == Some(*ip),
                                mine == plain_lines(rule@),
                                crate::text::texts(out@) == before + mine.take(j as int),
                            decreases rule.domains.len() - j,
                        {
                            let ghost at = crate::text::texts(out@);
                            let line = host_line_text(ip, rule.domains[j].as_str());
                            let ghost text = line@;
                            out.push(line);
                            proof {
                                assert(mine[j as int] == text);
                                assert(crate::text::texts(out@) =~= at.push(text));
                                assert(before + mine.take(j + 1) =~= (before + mine.take(
                                    j as int,
                                )).push(text));
                            }
                            j = j + 1;
                        }
                        assert(mine.take(j as int) =~= mine);
                    },
                    None => {
                        assert(before + mine =~= before);
                    },
                }
                i = i + 1;
            }
            assert(facts.take(i as int) =~= facts);
            out
        },
    }
}

/// Whether `s` is among the first `i` members of `t`, and in `o` as wanted.
spec fn picked(
    t: Seq<Seq<char>>,
    o: Seq<Seq<char>>,
    want: bool,
    i: int,
    s: Seq<char>,
) -> bool {
    exists|q: int| 0 <= q < i && (#[trigger] t[q]) == s && o.contains(s) == want
}

/// The members of an increasing list that another increasing list holds, or that
/// it does not hold.
fn select(v: &Vec<String>, other: &Vec<String>, want: bool) -> (r: Vec<String>)
    requires
        crate::order::increasing(crate::text::texts(v@)),
        crate::order::increasing(crate::text::texts(other@)),
    ensures
        crate::order::increasing(crate::text::texts(r@)),
        forall|s: Seq<char>| #[trigger]
            crate::text::texts(r@).to_set().contains(s) <==> crate::text::texts(
                v@,
            ).to_set().contains(s) && crate::text::texts(other@).to_set().contains(s) == want,
{
    let mut out: Vec<String> = Vec::new();
    let ghost t = crate::text::texts(v@);
    let ghost o = crate::text::texts(other@);
    let mut i: usize = 0;
    while i < v.len()
        invariant
            i <= v@.len(),
            t == crate::text::texts(v@),
            o == crate::text::texts(other@),
            crate::order::increasing(t),
            crate::order::increasing(o),
            crate::order::increasing(crate::text::texts(out@)),
            forall|k: int|
                0 <= k < out@.len() ==> picked(t, o, want, i as int, (#[trigger] out@[k])@),
            forall|q: int|
                0 <= q < i && o.contains(#[trigger] t[q]) == want ==> crate::text::texts(
                    out@,
                ).contains(t[q]),
        decreases v.len() - i,
    {
        let ghost out0 = out@;
        let ghost before = crate::text::texts(out@);
        assert(t[i as int] == v@[i as int]@);
        if holds(other, v[i].as_str()) == want {
            out.push(v[i].clone());
            proof {
                let after = crate::text::texts(out@);
                assert(after =~= before.push(t[i as int]));
                assert forall|a: int, b: int| 0 <= a < b < after.len() implies crate::order::text_lt(
                    #[trigger] after[a],
                    #[trigger] after[b],
                ) by {
                    if b == before.len() {
                        assert(out0[a]@ == after[a]);
                        assert(picked(t, o, want, i as int, out0[a]@));
                        let q = choose|q: int|
                            0 <= q < i && (#[trigger] t[q]) == out0[a]@ && o.contains(out0[a]@)
                                == want;
                        assert(crate::order::text_lt(t[q], t[i as int]));
                    } else {
                        assert(after[a] == before[a] && after[b] == before[b]);
                    }
                }
                assert forall|k: int| 0 <= k < out@.len() implies picked(
                    t,
                    o,
                    want,
                    i + 1,
                    (#[trigger] out@[k])@,
                ) by {
                    if k < out0.len() {
                        assert(out@[k] == out0[k]);
                        assert(picked(t, o, want, i as int, out0[k]@));
                    } else {
                        assert(t[i as int] == out@[k]@);
                    }
                }
                assert forall|q: int| 0 <= q < i + 1 && o.contains(#[trigger] t[q])
                    == want implies after.contains(t[q]) by {
                    if q < i {
                        let k = choose|k: int| 0 <= k < before.len() && before[k] == t[q];
                        assert(after[k] == t[q]);
                    } else {
                        assert(after[before.len() as int] == t[q]);
                    }
                }
            }
        }
        i = i + 1;
    }
    proof {
        let r = crate::text::texts(out@);
        assert forall|s: Seq<char>| #[trigger]
            r.to_set().contains(s) <==> t.to_set().contains(s) && o.to_set().contains(s)
                == want by {
            if r.to_set().contains(s) {
                let k = choose|k: int| 0 <= k < r.len() && r[k] == s;
                assert(out@[k]@ == s);
                assert(picked(t, o, want, i as int, out@[k]@));
                let q = choose|q: int|
                    0 <= q < i && (#[trigger] t[q]) == s && o.contains(s) == want;
                assert(t[q] == s);
            }
            if t.to_set().contains(s) && o.to_set().contains(s) == want {
                let q = choose|q: int| 0 <= q < t.len() && t[q] == s;
                assert(o.contains(t[q]) == want);
            }
        }
    }
    out
}

/// What changes when the managed block of `current_hosts` is replaced by the lines
/// of `resolved_rules`: the lines that come, that go, and that stay, each list in
/// order and without repetitions.
pub fn calculate_diff(current_hosts: &str, resolved_rules: &[ResolvedRule]) -> (r: HostsDiff)
    ensures
        diff_between(r, existing_lines(current_hosts@), target_lines(resolved_rules@)),
{
    let existing = extract_existing_lines(current_hosts);
    let mut target: Vec<String> = Vec::new();
    let ghost wanted = target_lines(resolved_rules@);
    let mut i: usize = 0;
    assert(crate::text::texts(target@) =~= wanted.take(0));
    while i < resolved_rules.len()
        invariant
            i <= resolved_rules@.len(),
            wanted == target_lines(resolved_rules@),
            crate::text::texts(target@) == wanted.take(i as int),
        decreases resolved_rules.len() - i,
    {
        let ghost before = crate::text::texts(target@);
        let rule = &resolved_rules[i];
        let line = host_line_text(&rule.ip, rule.domain.as_str());
        let ghost text = line@;
        target.push(line);
        proof {
            assert(wanted[i as int] == text);
            assert(crate::text::texts(target@) =~= before.push(text));
            assert(wanted.take(i + 1) =~= wanted.take(i as int).push(text));
        }
        i = i + 1;
    }
    assert(wanted.take(i as int) =~= wanted);
    let e = sorted_unique(&existing);
    let t = sorted_unique(&target);
    let added = select(&t, &e, false);
    let removed = select(&e, &t, false);
    let unchanged = select(&e, &t, true);
    proof {
        let a = existing_lines(current_hosts@).to_set();
        let b = wanted.to_set();
        assert(crate::text::texts(added@).to_set() =~= b.difference(a));
        assert(crate::text::texts(removed@).to_set() =~= a.difference(b));
        assert(crate::text::texts(unchanged@).to_set() =~= a.intersect(b));
    }
    HostsDiff { added, removed, unchanged }
}

/// A diff accounts for every line once: what is there is what goes and what stays,
/// what is wanted is what comes and what stays, and no line is in two of the three.
pub proof fn diff_is_a_partition(
    d: HostsDiff,
    existing: Seq<Seq<char>>,
    target: Seq<Seq<char>>,
)
    requires
        diff_between(d, existing, target),
    ensures
        ({
            let added = crate::text::texts(d.added@).to_set();
            let removed = crate::text::texts(d.removed@).to_set();
            let unchanged = crate::text::texts(d.unchanged@).to_set();
            &&& existing.to_set() == removed.union(unchanged)
            &&& target.to_set() == added.union(unchanged)
            &&& added.disjoint(removed)
            &&& added.disjoint(unchanged)
            &&& removed.disjoint(unchanged)
        }),
{
    let added = crate::text::texts(d.added@).to_set();
    let removed = crate::text::texts(d.removed@).to_set();
    let unchanged = crate::text::texts(d.unchanged@).to_set();
    assert(existing.to_set() =~= removed.union(unchanged));
    assert(target.to_set() =~= added.union(unchanged));
}

/// A list of the empty set is empty.
pub proof fn lemma_lists_nothing(v: Seq<String>, s: Set<Seq<char>>)
    requires
        lists(v, s),
    ensures
        v.len() == 0 <==> s =~= Set::empty(),
{
    let t = crate::text::texts(v);
    if v.len() > 0 {
        assert(t.to_set().contains(t[0]));
    } else {
        assert(t.to_set() =~= Set::empty());
    }
}

} // verus!
