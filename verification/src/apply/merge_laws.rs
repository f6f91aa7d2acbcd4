//! What merging does to the rules of the profiles, said of profiles, rules and domains.
use vstd::prelude::*;

use crate::apply::merge::{MergeResult, Merger};
use crate::models::{HostRule, Profile};

verus! {

use crate::models::ResolvedFacts;

/// The entry for one domain of a rule.
spec fn entry(p: Profile, ip: crate::net::IpAddr, domain: Seq<char>) -> ResolvedFacts {
    ResolvedFacts { ip, domain, source_profile_id: p.id, source_profile_name: p.name@ }
}

/// A domain of a rule in force has an entry among those of the rules.
proof fn lemma_rule_entry(rules: Seq<HostRule>, p: Profile, j: int, k: int) -> (n: int)
    requires
        0 <= j < rules.len(),
        rules[j].enabled,
        rules[j].ip is Some,
        0 <= k < rules[j].domains@.len(),
    ensures
        0 <= n < crate::apply::merge::rules_entries(rules, p).len(),
        crate::apply::merge::rules_entries(rules, p)[n] == entry(
            p,
            rules[j].ip->0,
            rules[j].domains@[k]@,
        ),
    decreases rules.len(),
{
    let head = rules.drop_last();
    if j == rules.len() - 1 {
        crate::apply::merge::rules_entries(head, p).len() + k
    } else {
        assert(head[j] == rules[j]);
        lemma_rule_entry(head, p, j, k)
    }
}

/// An entry of some rules is that of a domain of a rule in force.
proof fn lemma_rule_of_entry(rules: Seq<HostRule>, p: Profile, n: int) -> (o: (int, int))
    requires
        0 <= n < crate::apply::merge::rules_entries(rules, p).len(),
    ensures
        0 <= o.0 < rules.len(),
        rules[o.0].enabled,
        rules[o.0].ip is Some,
        0 <= o.1 < rules[o.0].domains@.len(),
        crate::apply::merge::rules_entries(rules, p)[n] == entry(
            p,
            rules[o.0].ip->0,
            rules[o.0].domains@[o.1]@,
        ),
    decreases rules.len(),
{
    let head = rules.drop_last();
    let m = crate::apply::merge::rules_entries(head, p).len();
    if n < m {
        let o = lemma_rule_of_entry(head, p, n);
        assert(head[o.0] == rules[o.0]);
        o
    } else {
        (rules.len() - 1, n - m)
    }
}

/// The entries of the first profiles come first.
proof fn lemma_entries_prefix(profiles: Seq<Profile>, i: int)
    requires
        0 <= i <= profiles.len(),
    ensures
        crate::apply::merge::entries(profiles.take(i)).len() <= crate::apply::merge::entries(
            profiles,
        ).len(),
        forall|n: int|
            0 <= n < crate::apply::merge::entries(profiles.take(i)).len()
                ==> #[trigger] crate::apply::merge::entries(profiles)[n]
                == crate::apply::merge::entries(profiles.take(i))[n],
    decreases profiles.len(),
{
    if i == profiles.len() {
        assert(profiles.take(i) =~= profiles);
    } else {
        let head = profiles.drop_last();
        lemma_entries_prefix(head, i);
        assert(head.take(i) =~= profiles.take(i));
        assert forall|n: int|
            0 <= n < crate::apply::merge::entries(
                profiles.take(i),
            ).len() implies #[trigger] crate::apply::merge::entries(profiles)[n]
            == crate::apply::merge::entries(profiles.take(i))[n] by {
            assert(crate::apply::merge::entries(head)[n] == crate::apply::merge::entries(
                profiles.take(i),
            )[n]);
        }
    }
}

/// A domain of a rule in force has an entry, which stands behind those of the profiles
/// before.
proof fn lemma_entry_at(profiles: Seq<Profile>, i: int, j: int, k: int) -> (n: int)
    requires
        0 <= i < profiles.len(),
        profiles[i].enabled,
        0 <= j < profiles[i].rules@.len(),
        profiles[i].rules@[j].enabled,
        profiles[i].rules@[j].ip is Some,
        0 <= k < profiles[i].rules@[j].domains@.len(),
    ensures
        0 <= n < crate::apply::merge::entries(profiles.take(i + 1)).len(),
        crate::apply::merge::entries(profiles.take(i + 1)).len() <= crate::apply::merge::entries(
            profiles,
        ).len(),
        crate::apply::merge::entries(profiles)[n] == entry(
            profiles[i],
            profiles[i].rules@[j].ip->0,
            profiles[i].rules@[j].domains@[k]@,
        ),
{
    let p = profiles[i];
    let upto = profiles.take(i + 1);
    assert(upto.drop_last() =~= profiles.take(i));
    assert(upto.last() == p);
    let m = lemma_rule_entry(p.rules@, p, j, k);
    lemma_entries_prefix(profiles, i + 1);
    let n = crate::apply::merge::entries(profiles.take(i)).len() + m;
    assert(crate::apply::merge::entries(profiles)[n] == crate::apply::merge::entries(upto)[n]);
    n
}

/// An entry is that of a domain of a rule in force, of an enabled profile behind whose
/// predecessors' entries it stands.
proof fn lemma_entry_from(profiles: Seq<Profile>, n: int) -> (o: (int, int, int))
    requires
        0 <= n < crate::apply::merge::entries(profiles).len(),
    ensures
        0 <= o.0 < profiles.len(),
        profiles[o.0].enabled,
        0 <= o.1 < profiles[o.0].rules@.len(),
        profiles[o.0].rules@[o.1].enabled,
        profiles[o.0].rules@[o.1].ip is Some,
        0 <= o.2 < profiles[o.0].rules@[o.1].domains@.len(),
        crate::apply::merge::entries(profiles)[n] == entry(
            profiles[o.0],
            profiles[o.0].rules@[o.1].ip->0,
            profiles[o.0].rules@[o.1].domains@[o.2]@,
        ),
        crate::apply::merge::entries(profiles.take(o.0)).len() <= n,
    decreases profiles.len(),
{
    let head = profiles.drop_last();
    let m = crate::apply::merge::entries(head).len();
    if n < m {
        let o = lemma_entry_from(head, n);
        assert(head[o.0] == profiles[o.0]);
        assert(head.take(o.0) =~= profiles.take(o.0));
        o
    } else {
        let p = profiles.last();
        let o = lemma_rule_of_entry(p.rules@, p, n - m);
        assert(profiles.take(profiles.len() - 1) =~= head);
        (profiles.len() - 1, o.0, o.1)
    }
}

/// Every domain of every rule in force of every enabled profile is in the result, as a
/// rule with the address that it is given, or in a conflict that lists this address.
pub proof fn every_rule_in_force_is_merged(
    profiles: &[Profile],
    r: MergeResult,
    i: int,
    j: int,
    k: int,
)
    requires
        call_ensures(Merger::merge, (profiles,), r),
        0 <= i < profiles@.len(),
        profiles@[i].enabled,
        0 <= j < profiles@[i].rules@.len(),
        profiles@[i].rules@[j].enabled,
        profiles@[i].rules@[j].ip is Some,
        0 <= k < profiles@[i].rules@[j].domains@.len(),
    ensures
        (exists|a: int|
            0 <= a < r.rules@.len() && (#[trigger] r.rules@[a]).domain@
                == profiles@[i].rules@[j].domains@[k]@ && Some(r.rules@[a].ip)
                == profiles@[i].rules@[j].ip) || (exists|c: int, m: int|
            0 <= c < r.conflicts@.len() && 0 <= m < r.conflicts@[c].rules@.len()
                && r.conflicts@[c].domain@ == profiles@[i].rules@[j].domains@[k]@ && Some(
                (#[trigger] r.conflicts@[c].rules@[m]).ip,
            ) == profiles@[i].rules@[j].ip),
{
    let all = crate::apply::merge::entries(profiles@);
    let d = profiles@[i].rules@[j].domains@[k]@;
    let n = lemma_entry_at(profiles@, i, j, k);
    assert(all[n].domain == d);
    if crate::apply::merge::conflicted(all, d) {
        let names = crate::apply::merge::conflict_names(r.conflicts@);
        assert(names.contains(all[n].domain));
        let c = choose|c: int| 0 <= c < names.len() && names[c] == d;
        assert(r.conflicts@[c].domain@ == d);
        assert(crate::apply::merge::conflict_complete(all, r.conflicts@[c]));
        let m = choose|m: int|
            0 <= m < r.conflicts@[c].rules@.len() && (#[trigger] r.conflicts@[c].rules@[m]).ip
                == all[n].ip;
        assert(Some(r.conflicts@[c].rules@[m].ip) == profiles@[i].rules@[j].ip);
    } else {
        let names = crate::apply::merge::rule_domains(r.rules@);
        assert(names.contains(all[n].domain));
        let a = choose|a: int| 0 <= a < names.len() && names[a] == d;
        assert(r.rules@[a].domain@ == d);
        let q = crate::apply::merge::first_index(all, r.rules@[a]@);
        assert(all[q].domain == d && all[q].ip == all[n].ip);
        assert(Some(r.rules@[a].ip) == profiles@[i].rules@[j].ip);
    }
}

/// A merged entry names its place: the first enabled profile with a rule in force that
/// gives this address to this domain.
proof fn lemma_first_source(profiles: Seq<Profile>, x: ResolvedFacts) -> (o: (int, int, int))
    requires
        crate::apply::merge::is_first(crate::apply::merge::entries(profiles), x),
    ensures
        0 <= o.0 < profiles.len(),
        profiles[o.0].enabled,
        0 <= o.1 < profiles[o.0].rules@.len(),
        profiles[o.0].rules@[o.1].enabled,
        profiles[o.0].rules@[o.1].ip == Some(x.ip),
        0 <= o.2 < profiles[o.0].rules@[o.1].domains@.len(),
        profiles[o.0].rules@[o.1].domains@[o.2]@ == x.domain,
        profiles[o.0].id == x.source_profile_id,
        profiles[o.0].name@ == x.source_profile_name,
        forall|i: int, j: int, k: int|
            #![trigger profiles[i].rules@[j].domains@[k]]
            0 <= i < profiles.len() && profiles[i].enabled && 0 <= j < profiles[i].rules@.len()
                && profiles[i].rules@[j].enabled && profiles[i].rules@[j].ip == Some(x.ip) && 0
                <= k < profiles[i].rules@[j].domains@.len()
                && profiles[i].rules@[j].domains@[k]@ == x.domain ==> o.0 <= i,
{
    reveal(crate::apply::merge::is_first);
    let all = crate::apply::merge::entries(profiles);
    let n = choose|n: int|
        #![trigger all[n]]
        0 <= n < all.len() && all[n] == x && forall|j: int|
            0 <= j < n ==> (#[trigger] all[j]).domain != x.domain || all[j].ip != x.ip;
    let o = lemma_entry_from(profiles, n);
    assert forall|i: int, j: int, k: int|
        #![trigger profiles[i].rules@[j].domains@[k]]
        0 <= i < profiles.len() && profiles[i].enabled && 0 <= j < profiles[i].rules@.len()
            && profiles[i].rules@[j].enabled && profiles[i].rules@[j].ip == Some(x.ip) && 0 <= k
            < profiles[i].rules@[j].domains@.len() && profiles[i].rules@[j].domains@[k]@
            == x.domain implies o.0 <= i by {
        if i < o.0 {
            let m = lemma_entry_at(profiles, i, j, k);
            lemma_entries_prefix(profiles.take(o.0), i + 1);
            assert(profiles.take(o.0).take(i + 1) =~= profiles.take(i + 1));
            assert(all[m].domain == x.domain && all[m].ip == x.ip);
        }
    }
    o
}

/// A merged rule comes from a rule in force of an enabled profile that gives its address to
/// its domain; it names the first such profile; and no rule in force of an enabled profile
/// gives another address to the domain.
pub proof fn a_merged_rule_has_a_source(profiles: &[Profile], r: MergeResult, a: int) -> (o: (
    int,
    int,
    int,
))
    requires
        call_ensures(Merger::merge, (profiles,), r),
        0 <= a < r.rules@.len(),
    ensures
        0 <= o.0 < profiles@.len(),
        profiles@[o.0].enabled,
        0 <= o.1 < profiles@[o.0].rules@.len(),
        profiles@[o.0].rules@[o.1].enabled,
        profiles@[o.0].rules@[o.1].ip == Some(r.rules@[a].ip),
        0 <= o.2 < profiles@[o.0].rules@[o.1].domains@.len(),
        profiles@[o.0].rules@[o.1].domains@[o.2]@ == r.rules@[a].domain@,
        r.rules@[a].source_profile_id == profiles@[o.0].id,
        r.rules@[a].source_profile_name@ == profiles@[o.0].name@,
        forall|i: int, j: int, k: int|
            #![trigger profiles@[i].rules@[j].domains@[k]]
            0 <= i < profiles@.len() && profiles@[i].enabled && 0 <= j
                < profiles@[i].rules@.len() && profiles@[i].rules@[j].enabled
                && profiles@[i].rules@[j].ip is Some && 0 <= k
                < profiles@[i].rules@[j].domains@.len() && profiles@[i].rules@[j].domains@[k]@
                == r.rules@[a].domain@ ==> o.0 <= i && profiles@[i].rules@[j].ip == Some(
                r.rules@[a].ip,
            ),
{
    let all = crate::apply::merge::entries(profiles@);
    let x = r.rules@[a]@;
    let o = lemma_first_source(profiles@, x);
    let q = crate::apply::merge::first_index(all, x);
    assert forall|i: int, j: int, k: int|
        #![trigger profiles@[i].rules@[j].domains@[k]]
        0 <= i < profiles@.len() && profiles@[i].enabled && 0 <= j < profiles@[i].rules@.len()
            && profiles@[i].rules@[j].enabled && profiles@[i].rules@[j].ip is Some && 0 <= k
            < profiles@[i].rules@[j].domains@.len() && profiles@[i].rules@[j].domains@[k]@
            == r.rules@[a].domain@ implies o.0 <= i && profiles@[i].rules@[j].ip == Some(
        r.rules@[a].ip,
    ) by {
        let n = lemma_entry_at(profiles@, i, j, k);
        assert(all[n].domain == x.domain && all[q].domain == x.domain);
        assert(!crate::apply::merge::conflicted(all, x.domain));
        assert(all[n].ip == all[q].ip);
    }
    o
}

/// An address that a conflict lists comes from a rule in force of an enabled profile that
/// gives it to the domain of the conflict; it names the first such profile; and another
/// address is listed with it.
pub proof fn a_conflicting_address_has_a_source(
    profiles: &[Profile],
    r: MergeResult,
    c: int,
    m: int,
) -> (o: (int, int, int))
    requires
        call_ensures(Merger::merge, (profiles,), r),
        0 <= c < r.conflicts@.len(),
        0 <= m < r.conflicts@[c].rules@.len(),
    ensures
        r.conflicts@[c].rules@[m].domain@ == r.conflicts@[c].domain@,
        0 <= o.0 < profiles@.len(),
        profiles@[o.0].enabled,
        0 <= o.1 < profiles@[o.0].rules@.len(),
        profiles@[o.0].rules@[o.1].enabled,
        profiles@[o.0].rules@[o.1].ip == Some(r.conflicts@[c].rules@[m].ip),
        0 <= o.2 < profiles@[o.0].rules@[o.1].domains@.len(),
        profiles@[o.0].rules@[o.1].domains@[o.2]@ == r.conflicts@[c].domain@,
        r.conflicts@[c].rules@[m].source_profile_id == profiles@[o.0].id,
        r.conflicts@[c].rules@[m].source_profile_name@ == profiles@[o.0].name@,
        forall|i: int, j: int, k: int|
            #![trigger profiles@[i].rules@[j].domains@[k]]
            0 <= i < profiles@.len() && profiles@[i].enabled && 0 <= j
                < profiles@[i].rules@.len() && profiles@[i].rules@[j].enabled
                && profiles@[i].rules@[j].ip == Some(r.conflicts@[c].rules@[m].ip) && 0 <= k
                < profiles@[i].rules@[j].domains@.len() && profiles@[i].rules@[j].domains@[k]@
                == r.conflicts@[c].domain@ ==> o.0 <= i,
        exists|q: int|
            0 <= q < r.conflicts@[c].rules@.len() && (#[trigger] r.conflicts@[c].rules@[q]).ip
                != r.conflicts@[c].rules@[m].ip,
{
    let all = crate::apply::merge::entries(profiles@);
    let x = r.conflicts@[c];
    assert(crate::apply::merge::conflict_complete(all, x));
    assert(x.rules@[m].domain@ == x.domain@);
    crate::apply::merge::a_conflict_has_two_addresses(all, r.conflicts@);
    assert(x.rules@.len() >= 2);
    let q: int = if m == 0 {
        1
    } else {
        0
    };
    if q < m {
        assert(crate::net::ip_rank(x.rules@[q].ip) < crate::net::ip_rank(x.rules@[m].ip));
    } else {
        assert(crate::net::ip_rank(x.rules@[m].ip) < crate::net::ip_rank(x.rules@[q].ip));
    }
    lemma_first_source(profiles@, x.rules@[m]@)
}

/// Rules come in the order of their domains and conflicts in that of theirs, with no domain
/// twice among both; and the addresses of a conflict come in the order of addresses, IPv4
/// before IPv6, with none twice.
pub proof fn a_merge_is_in_order(profiles: &[Profile], r: MergeResult)
    requires
        call_ensures(Merger::merge, (profiles,), r),
    ensures
        forall|a: int, b: int|
            0 <= a < b < r.rules@.len() ==> crate::order::text_lt(
                (#[trigger] r.rules@[a]).domain@,
                (#[trigger] r.rules@[b]).domain@,
            ),
        forall|a: int, b: int|
            0 <= a < b < r.conflicts@.len() ==> crate::order::text_lt(
                (#[trigger] r.conflicts@[a]).domain@,
                (#[trigger] r.conflicts@[b]).domain@,
            ),
        forall|a: int, c: int|
            0 <= a < r.rules@.len() && 0 <= c < r.conflicts@.len() ==> (
            #[trigger] r.rules@[a]).domain@ != (#[trigger] r.conflicts@[c]).domain@,
        forall|c: int, a: int, b: int|
            0 <= c < r.conflicts@.len() && 0 <= a < b < r.conflicts@[c].rules@.len()
                ==> crate::net::ip_rank((#[trigger] r.conflicts@[c].rules@[a]).ip)
                < crate::net::ip_rank((#[trigger] r.conflicts@[c].rules@[b]).ip),
{
    let d = crate::apply::merge::rule_domains(r.rules@);
    let g = crate::apply::merge::conflict_names(r.conflicts@);
    assert forall|a: int, b: int| 0 <= a < b < r.rules@.len() implies crate::order::text_lt(
        (#[trigger] r.rules@[a]).domain@,
        (#[trigger] r.rules@[b]).domain@,
    ) by {
        assert(crate::order::text_lt(d[a], d[b]));
    }
    assert forall|a: int, b: int| 0 <= a < b < r.conflicts@.len() implies crate::order::text_lt(
        (#[trigger] r.conflicts@[a]).domain@,
        (#[trigger] r.conflicts@[b]).domain@,
    ) by {
        assert(crate::order::text_lt(g[a], g[b]));
    }
    assert forall|c: int, a: int, b: int|
        0 <= c < r.conflicts@.len() && 0 <= a < b
            < r.conflicts@[c].rules@.len() implies crate::net::ip_rank(
        (#[trigger] r.conflicts@[c].rules@[a]).ip,
    ) < crate::net::ip_rank((#[trigger] r.conflicts@[c].rules@[b]).ip) by {
        assert(crate::apply::merge::conflict_complete(
            crate::apply::merge::entries(profiles@),
            r.conflicts@[c],
        ));
    }
}

} // verus!
