//! What planning, writing and checking do, said of lines and lists.
use vstd::prelude::*;
use vstd::string::*;

use crate::apply::backup::{backups_to_remove, BackupFile};
use crate::apply::conflict::{conflict_domains, conflict_ips, conflict_sources, is_conflicted};
use crate::apply::diff::calculate_diff;
use crate::apply::merge::{MergeResult, Merger};
use crate::apply::plan::generate_plan;
use crate::apply::verification::verify;
use crate::error::MhostError;
use crate::models::{ApplyPlan, HostsDiff, Profile, ResolvedRule, RuleConflict};

verus! {

use crate::models::RuleFacts;

broadcast use vstd::string::group_string_axioms;

// ---------------------------------------------------------------------------
// The new text
// ---------------------------------------------------------------------------
/// Everything outside the managed block is kept, character by character: in a text with a
/// block only the block is replaced by that of the new rules.
pub proof fn everything_outside_the_block_is_kept(
    p: Seq<char>,
    block: Seq<char>,
    q: Seq<char>,
    rules: Seq<ResolvedRule>,
)
    requires
        p.len() == 0 || p.last() == '\n',
        block.len() > 0,
        block.last() == '\n',
        crate::text::lines(block).len() >= 2,
        crate::text::trim(crate::text::lines(block)[0]) == "# ---- mHost start ----"@,
        crate::text::trim(crate::text::lines(block).last()) == "# ---- mHost end ----"@,
        forall|k: int|
            0 <= k < crate::text::lines(p).len() ==> crate::text::trim(
                #[trigger] crate::text::lines(p)[k],
            ) != "# ---- mHost start ----"@ && crate::text::trim(crate::text::lines(p)[k])
                != "# ---- mHost end ----"@,
        forall|k: int|
            0 <= k < crate::text::lines(q).len() ==> crate::text::trim(
                #[trigger] crate::text::lines(q)[k],
            ) != "# ---- mHost start ----"@ && crate::text::trim(crate::text::lines(q)[k])
                != "# ---- mHost end ----"@,
        forall|k: int|
            1 <= k < crate::text::lines(block).len() - 1 ==> crate::text::trim(
                #[trigger] crate::text::lines(block)[k],
            ) != "# ---- mHost start ----"@ && crate::text::trim(crate::text::lines(block)[k])
                != "# ---- mHost end ----"@,
    ensures
        crate::apply::content::new_content(p + block + q, rules) == p
            + crate::apply::plan::hosts_block(rules) + q,
{
    crate::hosts::block_laws::the_span_is_that_of_the_block(p, block, q);
    let s = p + block + q;
    assert(s.take(p.len() as int) =~= p);
    assert(s.skip((p.len() + block.len()) as int) =~= q);
}

/// A text without a block stays as it is, and the block of the rules is put behind it, on a
/// line of its own.
pub proof fn a_first_block_is_put_at_the_end(current: Seq<char>, rules: Seq<ResolvedRule>)
    requires
        crate::hosts::block::managed_range(crate::text::lines(current)) is None,
    ensures
        crate::apply::content::new_content(current, rules) == current + (if current.len() == 0
            || current.last() == '\n' {
            Seq::empty()
        } else {
            seq!['\n']
        }) + crate::apply::plan::hosts_block(rules),
{
    assert(crate::apply::content::new_content(current, rules) =~= current + (if current.len() == 0
        || current.last() == '\n' {
        Seq::empty()
    } else {
        seq!['\n']
    }) + crate::apply::plan::hosts_block(rules));
}

/// The block of some rules is a line for each of them, an address, a space and a domain,
/// between the two marks; without rules it is nothing.
pub proof fn the_block_has_a_line_for_each_rule(rules: Seq<ResolvedRule>, r: ResolvedRule)
    ensures
        crate::apply::plan::hosts_block(Seq::empty()) == Seq::<char>::empty(),
        rules.len() > 0 ==> crate::apply::plan::hosts_block(rules) == "# ---- mHost start ----"@
            + seq!['\n'] + crate::hosts::formatter::rules_text(
            crate::apply::plan::hosts_rules(rules),
        ) + "# ---- mHost end ----"@ + seq!['\n'],
        crate::hosts::formatter::rules_text(crate::apply::plan::hosts_rules(Seq::empty())) == Seq::<
            char,
        >::empty(),
        crate::hosts::formatter::rules_text(crate::apply::plan::hosts_rules(rules.push(r)))
            == crate::hosts::formatter::rules_text(crate::apply::plan::hosts_rules(rules))
            + crate::net::ip_text(r.ip) + seq![' '] + r.domain@ + seq!['\n'],
{
    let none = crate::apply::plan::hosts_rules(Seq::empty());
    assert(none =~= seq![]);
    crate::hosts::block_laws::the_block_stands_between_two_marks(
        crate::apply::plan::hosts_rules(rules),
    );
    crate::hosts::block_laws::rules_are_written_in_order(seq![], seq![]);
    let m = crate::models::rule_facts(r.ip, seq![r.domain@]);
    let a = crate::apply::plan::hosts_rules(rules);
    assert(crate::apply::plan::hosts_rules(rules.push(r)) =~= a + seq![m]);
    crate::hosts::block_laws::rules_are_written_in_order(a, seq![m]);
    let e = RuleFacts { domains: Seq::empty(), ..m };
    crate::hosts::block_laws::every_domain_is_written(e, r.ip, r.domain@);
    assert(e.domains.push(r.domain@) =~= m.domains);
    assert(RuleFacts { domains: e.domains.push(r.domain@), ..e } == m);
    assert(crate::hosts::formatter::rules_text(a + seq![m]) =~= crate::hosts::formatter::rules_text(
        a,
    ) + crate::net::ip_text(r.ip) + seq![' '] + r.domain@ + seq!['\n']);
}

// ---------------------------------------------------------------------------
// The check
// ---------------------------------------------------------------------------
/// What was written passes the check exactly if the block holds a line for every rule of the
/// plan, an address, a space and a domain; and, for a plan without rules, if there is none.
pub proof fn the_check_asks_for_every_rule(
    written: &str,
    plan: &ApplyPlan,
    r: Result<(), MhostError>,
)
    requires
        call_ensures(verify, (written, plan), r),
    ensures
        plan.rules@.len() == 0 ==> (r is Ok <==> crate::hosts::block::managed_content(written@)
            is None),
        plan.rules@.len() > 0 ==> (r is Ok <==> (crate::hosts::block::managed_content(written@)
            matches Some(c) && forall|k: int|
            0 <= k < plan.rules@.len() ==> crate::text::lines(c).contains(
                crate::net::ip_text((#[trigger] plan.rules@[k]).ip) + seq![' ']
                    + plan.rules@[k].domain@,
            ))),
{
    match crate::hosts::block::managed_content(written@) {
        Some(c) => {
            lemma_missing(plan.rules@, crate::text::lines(c));
        },
        None => {},
    }
}

/// Nothing is missing exactly if every line is there.
proof fn lemma_missing(rules: Seq<ResolvedRule>, lines: Seq<Seq<char>>)
    ensures
        crate::apply::verification::first_missing(rules, lines) is None <==> forall|k: int|
            0 <= k < rules.len() ==> lines.contains(
                crate::net::ip_text((#[trigger] rules[k]).ip) + seq![' '] + rules[k].domain@,
            ),
    decreases rules.len(),
{
    if rules.len() > 0 {
        let rest = rules.skip(1);
        lemma_missing(rest, lines);
        let l = crate::net::ip_text(rules[0].ip) + seq![' '] + rules[0].domain@;
        assert(crate::hosts::formatter::host_line(rules[0].ip, rules[0].domain@) =~= l);
        if crate::apply::verification::first_missing(rules, lines) is None {
            assert forall|k: int| 0 <= k < rules.len() implies lines.contains(
                crate::net::ip_text((#[trigger] rules[k]).ip) + seq![' '] + rules[k].domain@,
            ) by {
                if k > 0 {
                    assert(rest[k - 1] == rules[k]);
                }
            }
        }
        if forall|k: int|
            0 <= k < rules.len() ==> lines.contains(
                crate::net::ip_text((#[trigger] rules[k]).ip) + seq![' '] + rules[k].domain@,
            ) {
            assert(lines.contains(l));
            assert forall|k: int| 0 <= k < rest.len() implies lines.contains(
                crate::net::ip_text((#[trigger] rest[k]).ip) + seq![' '] + rest[k].domain@,
            ) by {
                assert(rest[k] == rules[k + 1]);
            }
        }
    }
}

// ---------------------------------------------------------------------------
// The difference
// ---------------------------------------------------------------------------
/// A list of a set holds its members.
proof fn lemma_lists(v: Seq<String>, s: Set<Seq<char>>, t: Seq<char>)
    requires
        crate::apply::diff::lists(v, s),
    ensures
        s.contains(t) <==> exists|m: int| 0 <= m < v.len() && (#[trigger] v[m])@ == t,
        forall|a: int, b: int|
            0 <= a < b < v.len() ==> crate::order::text_lt(
                (#[trigger] v[a])@,
                (#[trigger] v[b])@,
            ),
{
    let w = crate::text::texts(v);
    if s.contains(t) {
        assert(w.to_set().contains(t));
        let m = choose|m: int| 0 <= m < w.len() && w[m] == t;
        assert(v[m]@ == t);
    }
    if exists|m: int| 0 <= m < v.len() && (#[trigger] v[m])@ == t {
        let m = choose|m: int| 0 <= m < v.len() && (#[trigger] v[m])@ == t;
        assert(w[m] == t);
        assert(w.to_set().contains(t));
    }
    assert forall|a: int, b: int| 0 <= a < b < v.len() implies crate::order::text_lt(
        (#[trigger] v[a])@,
        (#[trigger] v[b])@,
    ) by {
        assert(w[a] == v[a]@ && w[b] == v[b]@);
        assert(crate::order::text_lt(w[a], w[b]));
    }
}

/// The lines of some rules are those of their domains.
proof fn lemma_plain_line(rules: Seq<RuleFacts>, t: Seq<char>)
    ensures
        crate::apply::diff::all_plain_lines(rules).contains(t) <==> exists|j: int, i: int|
            0 <= j < rules.len() && rules[j].ip is Some && 0 <= i < rules[j].domains.len() && t
                == crate::net::ip_text(rules[j].ip->0) + seq![' '] + (
            #[trigger] rules[j].domains[i]),
    decreases rules.len(),
{
    let all = crate::apply::diff::all_plain_lines(rules);
    if rules.len() > 0 {
        let head = rules.drop_last();
        let r = rules.last();
        let a = crate::apply::diff::all_plain_lines(head);
        let b = crate::apply::diff::plain_lines(r);
        lemma_plain_line(head, t);
        if all.contains(t) {
            let k = choose|k: int| 0 <= k < all.len() && all[k] == t;
            if k < a.len() {
                assert(a[k] == t);
                let (j, i) = choose|j: int, i: int|
                    0 <= j < head.len() && head[j].ip is Some && 0 <= i < head[j].domains.len() && t
                        == crate::net::ip_text(head[j].ip->0) + seq![' '] + (
                    #[trigger] head[j].domains[i]);
                assert(rules[j].domains[i] == head[j].domains[i]);
            } else {
                let i = k - a.len();
                assert(b[i] == t);
                assert(t =~= crate::net::ip_text(r.ip->0) + seq![' '] + r.domains[i]);
                assert(rules[rules.len() - 1].domains[i] == r.domains[i]);
            }
        }
        if exists|j: int, i: int|
            0 <= j < rules.len() && rules[j].ip is Some && 0 <= i < rules[j].domains.len() && t
                == crate::net::ip_text(rules[j].ip->0) + seq![' '] + (
            #[trigger] rules[j].domains[i]) {
            let (j, i) = choose|j: int, i: int|
                0 <= j < rules.len() && rules[j].ip is Some && 0 <= i < rules[j].domains.len() && t
                    == crate::net::ip_text(rules[j].ip->0) + seq![' '] + (
                #[trigger] rules[j].domains[i]);
            if j < head.len() {
                assert(head[j].domains[i] == rules[j].domains[i]);
                let k = choose|k: int| 0 <= k < a.len() && a[k] == t;
                assert(all[k] == t);
            } else {
                assert(b[i] =~= t);
                assert(all[a.len() + i] == t);
            }
        }
    }
}

/// Whether a text is the line of one of some rules.
proof fn lemma_target_line(rules: Seq<ResolvedRule>, t: Seq<char>)
    ensures
        crate::apply::diff::target_lines(rules).contains(t) <==> exists|k: int|
            0 <= k < rules.len() && t == crate::net::ip_text((#[trigger] rules[k]).ip) + seq![' ']
                + rules[k].domain@,
{
    let all = crate::apply::diff::target_lines(rules);
    if all.contains(t) {
        let k = choose|k: int| 0 <= k < all.len() && all[k] == t;
        assert(t =~= crate::net::ip_text(rules[k].ip) + seq![' '] + rules[k].domain@);
    }
    if exists|k: int|
        0 <= k < rules.len() && t == crate::net::ip_text((#[trigger] rules[k]).ip) + seq![' ']
            + rules[k].domain@ {
        let k = choose|k: int|
            0 <= k < rules.len() && t == crate::net::ip_text((#[trigger] rules[k]).ip) + seq![' ']
                + rules[k].domain@;
        assert(all[k] =~= t);
    }
}

/// What comes, goes and stays, line by line.
proof fn lemma_lines_of_diff(
    current: Seq<char>,
    rules: Seq<ResolvedRule>,
    d: HostsDiff,
    t: Seq<char>,
)
    requires
        crate::apply::diff::diff_between(
            d,
            crate::apply::diff::existing_lines(current),
            crate::apply::diff::target_lines(rules),
        ),
    ensures
        ({
            let wanted = exists|k: int|
                0 <= k < rules.len() && t == crate::net::ip_text((#[trigger] rules[k]).ip) + seq![
                    ' ',
                ] + rules[k].domain@;
            let there = crate::hosts::block::managed_content(current) matches Some(c)
                && exists|j: int, i: int|
                0 <= j < crate::hosts::parser::rules_in(crate::text::lines(c)).len()
                    && crate::hosts::parser::rules_in(crate::text::lines(c))[j].ip is Some && 0 <= i
                    < crate::hosts::parser::rules_in(crate::text::lines(c))[j].domains.len() && t
                    == crate::net::ip_text(
                    crate::hosts::parser::rules_in(crate::text::lines(c))[j].ip->0,
                ) + seq![' '] + (#[trigger] crate::hosts::parser::rules_in(
                    crate::text::lines(c),
                )[j].domains[i]);
            &&& (exists|m: int| 0 <= m < d.added@.len() && (#[trigger] d.added@[m])@ == t)
                <==> wanted && !there
            &&& (exists|m: int| 0 <= m < d.removed@.len() && (#[trigger] d.removed@[m])@ == t)
                <==> there && !wanted
            &&& (exists|m: int| 0 <= m < d.unchanged@.len() && (#[trigger] d.unchanged@[m])@ == t)
                <==> there && wanted
        }),
{
    let target = crate::apply::diff::target_lines(rules);
    let existing = crate::apply::diff::existing_lines(current);
    lemma_target_line(rules, t);
    match crate::hosts::block::managed_content(current) {
        Some(c) => {
            lemma_plain_line(crate::hosts::parser::rules_in(crate::text::lines(c)), t);
        },
        None => {
            assert(!existing.contains(t));
        },
    }
    assert(target.to_set().contains(t) <==> target.contains(t));
    assert(existing.to_set().contains(t) <==> existing.contains(t));
    lemma_lists(d.added@, target.to_set().difference(existing.to_set()), t);
    lemma_lists(d.removed@, existing.to_set().difference(target.to_set()), t);
    lemma_lists(d.unchanged@, existing.to_set().intersect(target.to_set()), t);
}

/// What comes, goes and stays, line by line. A line is wanted if it is the address and domain
/// of a rule, and there if it is the address and a domain of a rule in the managed block. It
/// comes if it is wanted and not there, goes if it is there and not wanted, and stays if it is
/// both.
pub proof fn lines_come_go_or_stay(
    current: &str,
    rules: &[ResolvedRule],
    d: HostsDiff,
    t: Seq<char>,
)
    requires
        call_ensures(calculate_diff, (current, rules), d),
    ensures
        ({
            let wanted = exists|k: int|
                0 <= k < rules@.len() && t == crate::net::ip_text((#[trigger] rules@[k]).ip) + seq![
                    ' ',
                ] + rules@[k].domain@;
            let there = crate::hosts::block::managed_content(current@) matches Some(c)
                && exists|j: int, i: int|
                0 <= j < crate::hosts::parser::rules_in(crate::text::lines(c)).len()
                    && crate::hosts::parser::rules_in(crate::text::lines(c))[j].ip is Some && 0 <= i
                    < crate::hosts::parser::rules_in(crate::text::lines(c))[j].domains.len() && t
                    == crate::net::ip_text(
                    crate::hosts::parser::rules_in(crate::text::lines(c))[j].ip->0,
                ) + seq![' '] + (#[trigger] crate::hosts::parser::rules_in(
                    crate::text::lines(c),
                )[j].domains[i]);
            &&& (exists|m: int| 0 <= m < d.added@.len() && (#[trigger] d.added@[m])@ == t)
                <==> wanted && !there
            &&& (exists|m: int| 0 <= m < d.removed@.len() && (#[trigger] d.removed@[m])@ == t)
                <==> there && !wanted
            &&& (exists|m: int| 0 <= m < d.unchanged@.len() && (#[trigger] d.unchanged@[m])@ == t)
                <==> there && wanted
        }),
{
    lemma_lines_of_diff(current@, rules@, d, t);
}

/// So it is with the difference that a plan holds: a line is wanted if it is the address and
/// domain of one of its rules, and there if it is the address and a domain of a rule in the
/// managed block. It comes if it is wanted and not there, goes if it is there and not wanted,
/// and stays if it is both.
pub proof fn lines_of_a_plan_come_go_or_stay(
    profiles: &[Profile],
    current: &str,
    p: ApplyPlan,
    t: Seq<char>,
)
    requires
        call_ensures(generate_plan, (profiles, current), Ok(p)),
    ensures
        ({
            let wanted = exists|k: int|
                0 <= k < p.rules@.len() && t == crate::net::ip_text((#[trigger] p.rules@[k]).ip) + seq![
                    ' ',
                ] + p.rules@[k].domain@;
            let there = crate::hosts::block::managed_content(current@) matches Some(c)
                && exists|j: int, i: int|
                0 <= j < crate::hosts::parser::rules_in(crate::text::lines(c)).len()
                    && crate::hosts::parser::rules_in(crate::text::lines(c))[j].ip is Some && 0 <= i
                    < crate::hosts::parser::rules_in(crate::text::lines(c))[j].domains.len() && t
                    == crate::net::ip_text(
                    crate::hosts::parser::rules_in(crate::text::lines(c))[j].ip->0,
                ) + seq![' '] + (#[trigger] crate::hosts::parser::rules_in(
                    crate::text::lines(c),
                )[j].domains[i]);
            &&& (exists|m: int| 0 <= m < p.diff.added@.len() && (#[trigger] p.diff.added@[m])@ == t)
                <==> wanted && !there
            &&& (exists|m: int| 0 <= m < p.diff.removed@.len() && (#[trigger] p.diff.removed@[m])@ == t)
                <==> there && !wanted
            &&& (exists|m: int| 0 <= m < p.diff.unchanged@.len() && (#[trigger] p.diff.unchanged@[m])@ == t)
                <==> there && wanted
        }),
{
    lemma_lines_of_diff(current@, p.rules@, p.diff, t);
}

/// A plan has the rules and the conflicts of the merged profiles, and asks for a backup as
/// soon as a line comes or goes.
pub proof fn a_plan_holds_the_merged_profiles(
    profiles: &[Profile],
    current: &str,
    p: ApplyPlan,
    m: MergeResult,
)
    requires
        call_ensures(generate_plan, (profiles, current), Ok(p)),
        call_ensures(Merger::merge, (profiles,), m),
    ensures
        p.rules@.len() == m.rules@.len(),
        forall|k: int| 0 <= k < p.rules@.len() ==> (#[trigger] p.rules@[k])@ == m.rules@[k]@,
        p.conflicts@.len() == m.conflicts@.len(),
        forall|k: int|
            0 <= k < p.conflicts@.len() ==> (#[trigger] p.conflicts@[k]).domain@
                == m.conflicts@[k].domain@ && p.conflicts@[k].rules@.len()
                == m.conflicts@[k].rules@.len(),
        forall|k: int, q: int|
            0 <= k < p.conflicts@.len() && 0 <= q < p.conflicts@[k].rules@.len() ==> (
            #[trigger] p.conflicts@[k].rules@[q])@ == m.conflicts@[k].rules@[q]@,
        p.backup_required <==> p.diff.added@.len() + p.diff.removed@.len() > 0,
{
    let all = crate::apply::merge::entries(profiles@);
    let x = MergeResult { rules: p.rules, conflicts: p.conflicts };
    crate::apply::merge::merging_does_not_depend_on_order(profiles@, profiles@, x, m);
    assert forall|k: int| 0 <= k < p.rules@.len() implies (#[trigger] p.rules@[k])@
        == m.rules@[k]@ by {
        assert(x.rules@[k].domain@ == m.rules@[k].domain@);
        lemma_first_unique(all, p.rules@[k]@, m.rules@[k]@);
    }
    assert forall|k: int| 0 <= k < p.conflicts@.len() implies (#[trigger] p.conflicts@[k]).domain@
        == m.conflicts@[k].domain@ && p.conflicts@[k].rules@.len()
        == m.conflicts@[k].rules@.len() by {
        assert(x.conflicts@[k].domain@ == m.conflicts@[k].domain@);
    }
    assert forall|k: int, q: int|
        0 <= k < p.conflicts@.len() && 0 <= q < p.conflicts@[k].rules@.len() implies (
    #[trigger] p.conflicts@[k].rules@[q])@ == m.conflicts@[k].rules@[q]@ by {
        assert(x.conflicts@[k].domain@ == m.conflicts@[k].domain@);
        assert(x.conflicts@[k].rules@[q].ip == m.conflicts@[k].rules@[q].ip);
        assert(crate::apply::merge::conflict_complete(all, p.conflicts@[k]));
        assert(crate::apply::merge::conflict_complete(all, m.conflicts@[k]));
        assert(p.conflicts@[k].rules@[q].domain@ == p.conflicts@[k].domain@);
        assert(m.conflicts@[k].rules@[q].domain@ == m.conflicts@[k].domain@);
        lemma_first_unique(all, p.conflicts@[k].rules@[q]@, m.conflicts@[k].rules@[q]@);
    }
}

/// There is one first entry for a domain and an address.
proof fn lemma_first_unique(
    all: Seq<crate::models::ResolvedFacts>,
    x: crate::models::ResolvedFacts,
    y: crate::models::ResolvedFacts,
)
    requires
        crate::apply::merge::is_first(all, x),
        crate::apply::merge::is_first(all, y),
        x.domain == y.domain,
        x.ip == y.ip,
    ensures
        x == y,
{
    reveal(crate::apply::merge::is_first);
    let i = choose|i: int|
        #![trigger all[i]]
        0 <= i < all.len() && all[i] == x && forall|j: int|
            0 <= j < i ==> (#[trigger] all[j]).domain != x.domain || all[j].ip != x.ip;
    let k = choose|k: int|
        #![trigger all[k]]
        0 <= k < all.len() && all[k] == y && forall|j: int|
            0 <= j < k ==> (#[trigger] all[j]).domain != y.domain || all[j].ip != y.ip;
    assert(all[i].domain == all[k].domain);
    assert(i == k);
}

/// The lines of each part of a difference are in order, with none twice.
pub proof fn a_difference_is_in_order(current: &str, rules: &[ResolvedRule], d: HostsDiff)
    requires
        call_ensures(calculate_diff, (current, rules), d),
    ensures
        forall|a: int, b: int|
            0 <= a < b < d.added@.len() ==> crate::order::text_lt(
                (#[trigger] d.added@[a])@,
                (#[trigger] d.added@[b])@,
            ),
        forall|a: int, b: int|
            0 <= a < b < d.removed@.len() ==> crate::order::text_lt(
                (#[trigger] d.removed@[a])@,
                (#[trigger] d.removed@[b])@,
            ),
        forall|a: int, b: int|
            0 <= a < b < d.unchanged@.len() ==> crate::order::text_lt(
                (#[trigger] d.unchanged@[a])@,
                (#[trigger] d.unchanged@[b])@,
            ),
{
    let target = crate::apply::diff::target_lines(rules@);
    let existing = crate::apply::diff::existing_lines(current@);
    lemma_lists(d.added@, target.to_set().difference(existing.to_set()), seq![]);
    lemma_lists(d.removed@, existing.to_set().difference(target.to_set()), seq![]);
    lemma_lists(d.unchanged@, existing.to_set().intersect(target.to_set()), seq![]);
}

// ---------------------------------------------------------------------------
// Conflicts
// ---------------------------------------------------------------------------
/// A domain is in conflict exactly if a conflict is about it; the domains in conflict are
/// listed in order, each once.
pub proof fn conflicts_name_their_domains(
    domain: &str,
    conflicts: &[RuleConflict],
    r: bool,
    v: Vec<String>,
)
    requires
        call_ensures(is_conflicted, (domain, conflicts), r),
        call_ensures(conflict_domains, (conflicts,), v),
    ensures
        r <==> exists|c: int|
            0 <= c < conflicts@.len() && (#[trigger] conflicts@[c]).domain@ == domain@,
        (exists|m: int| 0 <= m < v@.len() && (#[trigger] v@[m])@ == domain@) <==> r,
        forall|a: int, b: int|
            0 <= a < b < v@.len() ==> crate::order::text_lt(
                (#[trigger] v@[a])@,
                (#[trigger] v@[b])@,
            ),
{
    let names = crate::apply::merge::conflict_names(conflicts@);
    if names.contains(domain@) {
        let c = choose|c: int| 0 <= c < names.len() && names[c] == domain@;
        assert(conflicts@[c].domain@ == domain@);
    }
    if exists|c: int| 0 <= c < conflicts@.len() && (#[trigger] conflicts@[c]).domain@ == domain@ {
        let c = choose|c: int|
            0 <= c < conflicts@.len() && (#[trigger] conflicts@[c]).domain@ == domain@;
        assert(names[c] == domain@);
    }
    assert(names.to_set().contains(domain@) <==> names.contains(domain@));
    lemma_lists(v@, names.to_set(), domain@);
}

/// Every conflict adds its rules to the number of those in conflict.
pub proof fn every_conflict_counts(conflicts: Seq<RuleConflict>, c: RuleConflict)
    ensures
        crate::apply::conflict::rules_in_conflicts(Seq::empty()) == 0,
        crate::apply::conflict::rules_in_conflicts(conflicts.push(c))
            == crate::apply::conflict::rules_in_conflicts(conflicts) + c.rules@.len(),
{
    assert(conflicts.push(c).drop_last() =~= conflicts);
}

/// The first conflict about a domain says which addresses it is given and by which profiles:
/// all of them, in order, each once. Without such a conflict there are none.
pub proof fn the_first_conflict_tells(
    conflicts: &[RuleConflict],
    domain: &str,
    ips: Vec<String>,
    sources: Vec<String>,
    c: int,
    t: Seq<char>,
)
    requires
        call_ensures(conflict_ips, (conflicts, domain), ips),
        call_ensures(conflict_sources, (conflicts, domain), sources),
        0 <= c <= conflicts@.len(),
        forall|k: int| 0 <= k < c ==> (#[trigger] conflicts@[k]).domain@ != domain@,
        c < conflicts@.len() ==> conflicts@[c].domain@ == domain@,
    ensures
        c == conflicts@.len() ==> ips@.len() == 0 && sources@.len() == 0,
        c < conflicts@.len() ==> ((exists|m: int| 0 <= m < ips@.len() && (#[trigger] ips@[m])@ == t)
            <==> exists|k: int|
            0 <= k < conflicts@[c].rules@.len() && crate::net::ip_text(
                (#[trigger] conflicts@[c].rules@[k]).ip,
            ) == t),
        c < conflicts@.len() ==> ((exists|m: int|
            0 <= m < sources@.len() && (#[trigger] sources@[m])@ == t) <==> exists|k: int|
            0 <= k < conflicts@[c].rules@.len() && (
            #[trigger] conflicts@[c].rules@[k]).source_profile_name@ == t),
        forall|a: int, b: int|
            0 <= a < b < ips@.len() ==> crate::order::text_lt(
                (#[trigger] ips@[a])@,
                (#[trigger] ips@[b])@,
            ),
        forall|a: int, b: int|
            0 <= a < b < sources@.len() ==> crate::order::text_lt(
                (#[trigger] sources@[a])@,
                (#[trigger] sources@[b])@,
            ),
{
    lemma_conflict_about(conflicts@, domain@, c);
    if c < conflicts@.len() {
        let rules = conflicts@[c].rules@;
        let i = crate::apply::conflict::ips_of(rules);
        let s = crate::apply::conflict::sources_of(rules);
        lemma_lists(ips@, i.to_set(), t);
        lemma_lists(sources@, s.to_set(), t);
        assert(i.to_set().contains(t) <==> i.contains(t));
        assert(s.to_set().contains(t) <==> s.contains(t));
        if i.contains(t) {
            let k = choose|k: int| 0 <= k < i.len() && i[k] == t;
            assert(crate::net::ip_text(conflicts@[c].rules@[k].ip) == t);
        }
        if exists|k: int|
            0 <= k < rules.len() && crate::net::ip_text((#[trigger] conflicts@[c].rules@[k]).ip) == t {
            let k = choose|k: int|
                0 <= k < rules.len() && crate::net::ip_text((#[trigger] conflicts@[c].rules@[k]).ip)
                    == t;
            assert(i[k] == t);
        }
        if s.contains(t) {
            let k = choose|k: int| 0 <= k < s.len() && s[k] == t;
            assert(conflicts@[c].rules@[k].source_profile_name@ == t);
        }
        if exists|k: int|
            0 <= k < rules.len() && (#[trigger] conflicts@[c].rules@[k]).source_profile_name@ == t {
            let k = choose|k: int|
                0 <= k < rules.len() && (#[trigger] conflicts@[c].rules@[k]).source_profile_name@
                    == t;
            assert(s[k] == t);
        }
    }
}

/// The first conflict about a domain is the one that is found.
proof fn lemma_conflict_about(conflicts: Seq<RuleConflict>, domain: Seq<char>, c: int)
    requires
        0 <= c <= conflicts.len(),
        forall|k: int| 0 <= k < c ==> (#[trigger] conflicts[k]).domain@ != domain,
        c < conflicts.len() ==> conflicts[c].domain@ == domain,
    ensures
        crate::apply::conflict::conflict_about(conflicts, domain) == if c < conflicts.len() {
            Some(conflicts[c])
        } else {
            None
        },
    decreases c,
{
    if c > 0 {
        let rest = conflicts.skip(1);
        assert(conflicts[0].domain@ != domain);
        assert forall|k: int| 0 <= k < c - 1 implies (#[trigger] rest[k]).domain@ != domain by {
            assert(rest[k] == conflicts[k + 1]);
        }
        lemma_conflict_about(rest, domain, c - 1);
    }
}

// ---------------------------------------------------------------------------
// Backups
// ---------------------------------------------------------------------------
/// A backup is a file whose name starts with `hosts-` and ends with `.bak`, whatever stands
/// between.
pub proof fn backups_by_their_name(name: Seq<char>)
    ensures
        crate::apply::backup::is_backup_name(name) <==> exists|mid: Seq<char>|
            name == "hosts-"@ + mid + ".bak"@,
{
    reveal_strlit("hosts-");
    reveal_strlit(".bak");
    let a = "hosts-"@;
    let b = ".bak"@;
    if crate::apply::backup::is_backup_name(name) {
        assert(name.take(6)[5] == '-');
        assert(name.skip(name.len() - 4)[0] == '.');
        let n = name.len() as int;
        if n < 10 {
            assert(n >= 6);
            if n == 9 {
                assert(name[5] == name.skip(n - 4)[0]);
            } else if n == 8 {
                assert(name[5] == name.skip(n - 4)[1]);
                assert(b[1] == 'b');
            } else if n == 7 {
                assert(name[5] == name.skip(n - 4)[2]);
                assert(b[2] == 'a');
            } else {
                assert(name[5] == name.skip(n - 4)[3]);
                assert(b[3] == 'k');
            }
        }
        let mid = name.subrange(6, n - 4);
        assert(name =~= name.take(6) + mid + name.skip(n - 4));
    }
    if exists|mid: Seq<char>| name == "hosts-"@ + mid + ".bak"@ {
        let mid = choose|mid: Seq<char>| name == "hosts-"@ + mid + ".bak"@;
        assert(name.take(6) =~= a);
        assert(name.skip(name.len() - 4) =~= b);
    }
}

/// The latest backup is the one that was modified last, the first of them where several
/// were.
pub proof fn the_latest_backup_was_modified_last(files: Seq<BackupFile>, i: int)
    requires
        crate::apply::backup::is_latest(files, i),
    ensures
        0 <= i < files.len(),
        crate::apply::backup::is_backup_name(files[i].name@),
        forall|j: int|
            0 <= j < files.len() && crate::apply::backup::is_backup_name(
                (#[trigger] files[j]).name@,
            ) ==> files[j].modified <= files[i].modified && (files[j].modified == files[i].modified
                ==> i <= j),
{
    assert(crate::apply::backup::is_backup(files, i));
    assert forall|j: int|
        0 <= j < files.len() && crate::apply::backup::is_backup_name(
            (#[trigger] files[j]).name@,
        ) implies files[j].modified <= files[i].modified && (files[j].modified
        == files[i].modified ==> i <= j) by {
        assert(crate::apply::backup::is_backup(files, j));
    }
}

/// Ten backups stay, or all where there are fewer. Those that go are backups, no file goes
/// twice, and none that goes was modified after one that stays.
pub proof fn the_ten_latest_backups_stay(files: &Vec<BackupFile>, gone: Vec<usize>)
    requires
        call_ensures(backups_to_remove, (files,), gone),
    ensures
        crate::apply::backup::backup_count(files@) <= 10 ==> gone@.len() == 0,
        crate::apply::backup::backup_count(files@) > 10 ==> gone@.len()
            == crate::apply::backup::backup_count(files@) - 10,
        forall|k: int|
            0 <= k < gone@.len() ==> #[trigger] gone@[k] < files@.len()
                && crate::apply::backup::is_backup_name(files@[gone@[k] as int].name@),
        forall|a: int, b: int|
            0 <= a < b < gone@.len() ==> #[trigger] gone@[a] != #[trigger] gone@[b],
        forall|k: int, i: int|
            #![trigger gone@[k], files@[i]]
            0 <= k < gone@.len() && 0 <= i < files@.len() && crate::apply::backup::is_backup_name(
                files@[i].name@,
            ) && !gone@.contains(i as usize) ==> files@[gone@[k] as int].modified
                <= files@[i].modified,
{
    assert forall|k: int| 0 <= k < gone@.len() implies #[trigger] gone@[k] < files@.len()
        && crate::apply::backup::is_backup_name(files@[gone@[k] as int].name@) by {
        assert(crate::apply::backup::is_backup(files@, gone@[k] as int));
    }
    assert forall|a: int, b: int| 0 <= a < b < gone@.len() implies #[trigger] gone@[a]
        != #[trigger] gone@[b] by {
        assert(crate::apply::backup::older(files@, gone@[a] as int, gone@[b] as int));
    }
    assert forall|k: int, i: int|
        #![trigger gone@[k], files@[i]]
        0 <= k < gone@.len() && 0 <= i < files@.len() && crate::apply::backup::is_backup_name(
            files@[i].name@,
        ) && !gone@.contains(i as usize) implies files@[gone@[k] as int].modified
        <= files@[i].modified by {
        assert(crate::apply::backup::is_backup(files@, i));
        assert(crate::apply::backup::older(files@, gone@[k] as int, i));
    }
}

/// Every file with the name of a backup counts as one, and no other does.
pub proof fn every_backup_counts(files: Seq<BackupFile>, f: BackupFile)
    ensures
        crate::apply::backup::backup_count(Seq::empty()) == 0,
        crate::apply::backup::backup_count(files.push(f)) == crate::apply::backup::backup_count(
            files,
        ) + if crate::apply::backup::is_backup_name(f.name@) {
            1nat
        } else {
            0nat
        },
{
    assert(files.push(f).drop_last() =~= files);
}

} // verus!
