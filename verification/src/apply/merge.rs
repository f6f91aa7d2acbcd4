//! The rules of all enabled profiles as one list, and the domains on which the
//! profiles disagree.
use vstd::prelude::*;
use vstd::string::*;

use crate::models::{HostRule, Profile, ProfileId, ResolvedRule, RuleConflict};
use crate::order::text_before;
use crate::text::same_text;

verus! {

use crate::models::ResolvedFacts;

broadcast use vstd::string::group_string_axioms;

/// The merged rules, and the conflicts among them.
#[derive(Debug, Clone, PartialEq)]
pub struct MergeResult {
    pub rules: Vec<ResolvedRule>,
    pub conflicts: Vec<RuleConflict>,
}

/// Combines the rules of profiles.
pub struct Merger;

// ---------------------------------------------------------------------------
// Meaning
// ---------------------------------------------------------------------------
/// One entry for each domain of a rule that is in force.
pub open spec fn rule_entries(r: HostRule, p: Profile) -> Seq<ResolvedFacts> {
    match r.ip {
        Some(ip) => if r.enabled {
            Seq::new(
                r.domains@.len(),
                |i: int|
                    ResolvedFacts {
                        ip,
                        domain: r.domains@[i]@,
                        source_profile_id: p.id,
                        source_profile_name: p.name@,
                    },
            )
        } else {
            seq![]
        },
        None => seq![],
    }
}

/// The entries of some rules of a profile.
pub open spec fn rules_entries(rules: Seq<HostRule>, p: Profile) -> Seq<ResolvedFacts>
    decreases rules.len(),
{
    if rules.len() == 0 {
        seq![]
    } else {
        rules_entries(rules.drop_last(), p) + rule_entries(rules.last(), p)
    }
}

/// The entries of all enabled profiles, in order.
pub open spec fn entries(profiles: Seq<Profile>) -> Seq<ResolvedFacts>
    decreases profiles.len(),
{
    if profiles.len() == 0 {
        seq![]
    } else if profiles.last().enabled {
        entries(profiles.drop_last()) + rules_entries(profiles.last().rules@, profiles.last())
    } else {
        entries(profiles.drop_last())
    }
}

/// Whether `x` is the first entry with its domain and address.
#[verifier::opaque]
pub open spec fn is_first(all: Seq<ResolvedFacts>, x: ResolvedFacts) -> bool {
    exists|i: int|
        #![trigger all[i]]
        0 <= i < all.len() && all[i] == x && forall|j: int|
            0 <= j < i ==> (#[trigger] all[j]).domain != x.domain || all[j].ip != x.ip
}

/// Whether entries give different addresses to a domain.
pub open spec fn conflicted(all: Seq<ResolvedFacts>, domain: Seq<char>) -> bool {
    exists|i: int, j: int|
        #![trigger all[i], all[j]]
        0 <= i < all.len() && 0 <= j < all.len() && all[i].domain == domain && all[j].domain
            == domain && all[i].ip != all[j].ip
}

/// The domains of some rules.
pub open spec fn rule_domains(rules: Seq<ResolvedRule>) -> Seq<Seq<char>> {
    Seq::new(rules.len(), |i: int| rules[i].domain@)
}

/// The domains of some conflicts.
pub open spec fn conflict_names(conflicts: Seq<RuleConflict>) -> Seq<Seq<char>> {
    Seq::new(conflicts.len(), |i: int| conflicts[i].domain@)
}

/// A conflict holds every address that the entries give to its domain, in the order
/// of addresses, each from the first entry that gives it.
pub open spec fn conflict_complete(all: Seq<ResolvedFacts>, c: RuleConflict) -> bool {
    &&& forall|a: int, b: int|
        0 <= a < b < c.rules@.len() ==> crate::net::ip_rank((#[trigger] c.rules@[a]).ip)
            < crate::net::ip_rank((#[trigger] c.rules@[b]).ip)
    &&& forall|a: int|
        0 <= a < c.rules@.len() ==> (#[trigger] c.rules@[a]).domain@ == c.domain@ && is_first(
            all,
            c.rules@[a]@,
        )
    &&& forall|i: int|
        0 <= i < all.len() && (#[trigger] all[i]).domain == c.domain@ ==> exists|a: int|
            0 <= a < c.rules@.len() && (#[trigger] c.rules@[a]).ip == all[i].ip
}

/// The rules hold each domain on which the entries agree, in order, each from the
/// first entry that gives it.
pub open spec fn rules_complete(all: Seq<ResolvedFacts>, rules: Seq<ResolvedRule>) -> bool {
    &&& crate::order::increasing(rule_domains(rules))
    &&& forall|k: int|
        0 <= k < rules.len() ==> is_first(all, (#[trigger] rules[k])@) && !conflicted(
            all,
            rules[k].domain@,
        )
    &&& forall|i: int|
        0 <= i < all.len() && !conflicted(all, (#[trigger] all[i]).domain) ==> rule_domains(
            rules,
        ).contains(all[i].domain)
}

/// The conflicts hold each domain on which the entries disagree, in order.
pub open spec fn conflicts_complete(
    all: Seq<ResolvedFacts>,
    conflicts: Seq<RuleConflict>,
) -> bool {
    &&& crate::order::increasing(conflict_names(conflicts))
    &&& forall|k: int|
        0 <= k < conflicts.len() ==> conflicted(all, (#[trigger] conflicts[k]).domain@)
            && conflict_complete(all, conflicts[k])
    &&& forall|i: int|
        0 <= i < all.len() && conflicted(all, (#[trigger] all[i]).domain) ==> conflict_names(
            conflicts,
        ).contains(all[i].domain)
}

// ---------------------------------------------------------------------------
// The order of entries
// ---------------------------------------------------------------------------
/// By domain, then by address.
spec fn key_lt(a: ResolvedFacts, b: ResolvedFacts) -> bool {
    crate::order::text_lt(a.domain, b.domain) || (a.domain == b.domain && crate::net::ip_rank(a.ip)
        < crate::net::ip_rank(b.ip))
}

/// The same domain and address.
spec fn same_key(a: ResolvedFacts, b: ResolvedFacts) -> bool {
    a.domain == b.domain && a.ip == b.ip
}

proof fn lemma_key_irreflexive(a: ResolvedFacts, b: ResolvedFacts)
    requires
        same_key(a, b),
    ensures
        !key_lt(a, b),
{
    crate::order::lemma_irreflexive(a.domain);
}

proof fn lemma_key_transitive(a: ResolvedFacts, b: ResolvedFacts, c: ResolvedFacts)
    requires
        key_lt(a, b),
        key_lt(b, c),
    ensures
        key_lt(a, c),
{
    if crate::order::text_lt(a.domain, b.domain) && crate::order::text_lt(b.domain, c.domain) {
        crate::order::lemma_transitive(a.domain, b.domain, c.domain);
    }
}

proof fn lemma_key_total(a: ResolvedFacts, b: ResolvedFacts)
    ensures
        key_lt(a, b) || same_key(a, b) || key_lt(b, a),
{
    crate::order::lemma_total(a.domain, b.domain);
    if a.domain == b.domain && crate::net::ip_rank(a.ip) == crate::net::ip_rank(b.ip) {
        crate::net::lemma_rank_injective(a.ip, b.ip);
    }
}

/// Whether `a` comes before `b`, by domain and then by address.
fn key_before(a: &ResolvedRule, b: &ResolvedRule) -> (r: bool)
    ensures
        r == key_lt(a@, b@),
{
    if text_before(a.domain.as_str(), b.domain.as_str()) {
        true
    } else if same_text(a.domain.as_str(), b.domain.as_str()) {
        a.ip.is_before(&b.ip)
    } else {
        false
    }
}

/// A copy of a rule.
pub fn copy_rule(r: &ResolvedRule) -> (c: ResolvedRule)
    ensures
        c@ == r@,
{
    ResolvedRule {
        ip: r.ip,
        domain: r.domain.clone(),
        source_profile_id: r.source_profile_id,
        source_profile_name: r.source_profile_name.clone(),
    }
}

/// Whether a member of `v` has the domain and address of `x`.
spec fn represented(v: Seq<ResolvedRule>, x: ResolvedFacts) -> bool {
    exists|k: int| 0 <= k < v.len() && same_key((#[trigger] v[k])@, x)
}

/// In order, with nothing twice; each member the first entry of its kind; and
/// every entry represented.
spec fn index_of_entries(v: Seq<ResolvedRule>, all: Seq<ResolvedFacts>) -> bool {
    &&& forall|a: int, b: int|
        0 <= a < b < v.len() ==> key_lt((#[trigger] v[a])@, (#[trigger] v[b])@)
    &&& forall|k: int| 0 <= k < v.len() ==> is_first(all, (#[trigger] v[k])@)
    &&& forall|i: int| 0 <= i < all.len() ==> represented(v, #[trigger] all[i])
}

/// A first entry stays the first when entries are added behind it.
proof fn lemma_first_kept(all: Seq<ResolvedFacts>, y: ResolvedFacts, x: ResolvedFacts)
    requires
        is_first(all, x),
    ensures
        is_first(all.push(y), x),
{
    reveal(is_first);
    let i = choose|i: int|
        #![trigger all[i]]
        0 <= i < all.len() && all[i] == x && forall|j: int|
            0 <= j < i ==> (#[trigger] all[j]).domain != x.domain || all[j].ip != x.ip;
    let n = all.push(y);
    assert(n[i] == x);
    assert forall|j: int| 0 <= j < i implies (#[trigger] n[j]).domain != x.domain || n[j].ip
        != x.ip by {
        assert(n[j] == all[j]);
    }
}

/// Where a first entry stands.
pub(crate) proof fn first_index(all: Seq<ResolvedFacts>, x: ResolvedFacts) -> (i: int)
    requires
        is_first(all, x),
    ensures
        0 <= i < all.len(),
        all[i] == x,
{
    reveal(is_first);
    choose|i: int|
        #![trigger all[i]]
        0 <= i < all.len() && all[i] == x && forall|j: int|
            0 <= j < i ==> (#[trigger] all[j]).domain != x.domain || all[j].ip != x.ip
}

/// Adds one entry.
fn add_entry(v: &mut Vec<ResolvedRule>, x: ResolvedRule, Ghost(all): Ghost<Seq<ResolvedFacts>>)
    requires
        index_of_entries(old(v)@, all),
    ensures
        index_of_entries(final(v)@, all.push(x@)),
{
    let ghost v0 = v@;
    let ghost n = all.push(x@);
    let mut lo: usize = 0;
    let mut hi: usize = v.len();
    while lo < hi
        invariant
            lo <= hi <= v@.len(),
            index_of_entries(v@, all),
            forall|i: int| 0 <= i < lo ==> key_lt((#[trigger] v@[i])@, x@),
            forall|i: int| hi <= i < v@.len() ==> !key_lt((#[trigger] v@[i])@, x@),
        decreases hi - lo,
    {
        let mid: usize = lo + (hi - lo) / 2;
        if key_before(&v[mid], &x) {
            proof {
                assert forall|i: int| 0 <= i < mid + 1 implies key_lt((#[trigger] v@[i])@, x@) by {
                    if i < mid {
                        lemma_key_transitive(v@[i]@, v@[mid as int]@, x@);
                    }
                }
            }
            lo = mid + 1;
        } else {
            proof {
                assert forall|i: int| mid <= i < v@.len() implies !key_lt(
                    (#[trigger] v@[i])@,
                    x@,
                ) by {
                    if i > mid && key_lt(v@[i]@, x@) {
                        lemma_key_transitive(v@[mid as int]@, v@[i]@, x@);
                    }
                }
            }
            hi = mid;
        }
    }
    proof {
        assert forall|k: int| 0 <= k < v@.len() implies is_first(n, (#[trigger] v@[k])@) by {
            lemma_first_kept(all, x@, v@[k]@);
        }
    }
    if lo < v.len() && same_text(v[lo].domain.as_str(), x.domain.as_str()) && v[lo].ip == x.ip {
        proof {
            assert forall|i: int| 0 <= i < n.len() implies represented(v@, #[trigger] n[i]) by {
                if i < all.len() {
                    assert(n[i] == all[i]);
                } else {
                    assert(same_key(v@[lo as int]@, n[i]));
                }
            }
        }
        return ;
    }
    let ghost fresh = x@;
    proof {
        assert forall|k: int| 0 <= k < v@.len() implies !same_key((#[trigger] v@[k])@, fresh) by {
            if same_key(v@[k]@, fresh) {
                lemma_key_irreflexive(v@[k]@, fresh);
                assert(k >= lo);
                if k > lo {
                    assert(key_lt(v@[lo as int]@, v@[k]@));
                    assert(key_lt(v@[lo as int]@, fresh));
                }
            }
        }
        assert(is_first(n, fresh)) by {
            reveal(is_first);
            assert(n[all.len() as int] == fresh);
            assert forall|j: int| 0 <= j < all.len() implies (#[trigger] n[j]).domain
                != fresh.domain || n[j].ip != fresh.ip by {
                assert(n[j] == all[j]);
                assert(represented(v@, all[j]));
                let k = choose|k: int|
                    0 <= k < v@.len() && same_key((#[trigger] v@[k])@, all[j]);
                assert(!same_key(v@[k]@, fresh));
            }
        }
    }
    v.insert(lo, x);
    proof {
        let w = v@;
        assert forall|a: int, b: int| 0 <= a < b < w.len() implies key_lt(
            (#[trigger] w[a])@,
            (#[trigger] w[b])@,
        ) by {
            let p = if a < lo {
                a
            } else {
                a - 1
            };
            let q = if b < lo {
                b
            } else {
                b - 1
            };
            if a == lo {
                assert(w[b] == v0[q]);
                lemma_key_total(fresh, v0[q]@);
            } else if b == lo {
                assert(w[a] == v0[a]);
            } else {
                assert(w[a] == v0[p] && w[b] == v0[q]);
            }
        }
        assert forall|k: int| 0 <= k < w.len() implies is_first(n, (#[trigger] w[k])@) by {
            if k < lo {
                assert(w[k] == v0[k]);
            } else if k > lo {
                assert(w[k] == v0[k - 1]);
            }
        }
        assert forall|i: int| 0 <= i < n.len() implies represented(w, #[trigger] n[i]) by {
            if i < all.len() {
                assert(n[i] == all[i]);
                assert(represented(v0, all[i]));
                let k = choose|k: int|
                    0 <= k < v0.len() && same_key((#[trigger] v0[k])@, all[i]);
                if k < lo {
                    assert(w[k] == v0[k]);
                } else {
                    assert(w[k + 1] == v0[k]);
                }
            } else {
                assert(same_key(w[lo as int]@, n[i]));
            }
        }
    }
}

/// All entries of the enabled profiles, in order, each kind once.
fn collect(profiles: &[Profile]) -> (r: Vec<ResolvedRule>)
    ensures
        index_of_entries(r@, entries(profiles@)),
{
    let mut v: Vec<ResolvedRule> = Vec::new();
    let ghost mut all: Seq<ResolvedFacts> = seq![];
    let mut i: usize = 0;
    while i < profiles.len()
        invariant
            i <= profiles@.len(),
            all == entries(profiles@.take(i as int)),
            index_of_entries(v@, all),
        decreases profiles.len() - i,
    {
        let p = &profiles[i];
        proof {
            assert(profiles@.take(i + 1).drop_last() =~= profiles@.take(i as int));
        }
        if p.enabled {
            let ghost base = all;
            let mut j: usize = 0;
            assert(base + rules_entries(p.rules@.take(0), *p) =~= base);
            while j < p.rules.len()
                invariant
                    j <= p.rules@.len(),
                    all == base + rules_entries(p.rules@.take(j as int), *p),
                    index_of_entries(v@, all),
                decreases p.rules.len() - j,
            {
                let rule = &p.rules[j];
                let ghost before = all;
                let ghost mine = rule_entries(*rule, *p);
                proof {
                    assert(p.rules@.take(j + 1).drop_last() =~= p.rules@.take(j as int));
                    assert(before + mine =~= base + rules_entries(p.rules@.take(j + 1), *p));
                }
                match rule.ip {
                    Some(ip) => {
                        if rule.enabled {
                            let mut k: usize = 0;
                            assert(before + mine.take(0) =~= before);
                            while k < rule.domains.len()
                                invariant
                                    k <= rule.domains@.len(),
                                    rule.ip == Some(ip),
                                    rule.enabled,
                                    mine == rule_entries(*rule, *p),
                                    all == before + mine.take(k as int),
                                    index_of_entries(v@, all),
                                decreases rule.domains.len() - k,
                            {
                                let x = ResolvedRule {
                                    ip,
                                    domain: rule.domains[k].clone(),
                                    source_profile_id: p.id,
                                    source_profile_name: p.name.clone(),
                                };
                                let ghost fresh = x@;
                                add_entry(&mut v, x, Ghost(all));
                                proof {
                                    all = all.push(fresh);
                                    assert(mine[k as int] == fresh);
                                    assert(all =~= before + mine.take(k + 1));
                                }
                                k = k + 1;
                            }
                            assert(mine.take(k as int) =~= mine);
                        } else {
                            assert(before + mine =~= before);
                        }
                    },
                    None => {
                        assert(before + mine =~= before);
                    },
                }
                j = j + 1;
            }
            assert(p.rules@.take(j as int) =~= p.rules@);
        }
        i = i + 1;
    }
    assert(profiles@.take(i as int) =~= profiles@);
    v
}

/// What the first `i` of the collected entries come to.
spec fn merged_so_far(
    v: Seq<ResolvedRule>,
    i: int,
    all: Seq<ResolvedFacts>,
    rules: Seq<ResolvedRule>,
    conflicts: Seq<RuleConflict>,
) -> bool {
    &&& crate::order::increasing(rule_domains(rules))
    &&& crate::order::increasing(conflict_names(conflicts))
    &&& forall|k: int|
        0 <= k < rules.len() ==> is_first(all, (#[trigger] rules[k])@) && !conflicted(
            all,
            rules[k].domain@,
        ) && exists|q: int| 0 <= q < i && (#[trigger] v[q]).domain@ == rules[k].domain@
    &&& forall|k: int|
        0 <= k < conflicts.len() ==> conflicted(all, (#[trigger] conflicts[k]).domain@)
            && conflict_complete(all, conflicts[k]) && exists|q: int|
            0 <= q < i && (#[trigger] v[q]).domain@ == conflicts[k].domain@
    &&& forall|q: int|
        0 <= q < i ==> if conflicted(all, (#[trigger] v[q]).domain@) {
            conflict_names(conflicts).contains(v[q].domain@)
        } else {
            rule_domains(rules).contains(v[q].domain@)
        }
}

/// A stretch of two or more collected entries with one domain is a conflict, a
/// stretch of one is none.
proof fn lemma_stretch(v: Seq<ResolvedRule>, all: Seq<ResolvedFacts>, i: int, j: int)
    requires
        index_of_entries(v, all),
        0 <= i < j <= v.len(),
        forall|q: int| i <= q < j ==> (#[trigger] v[q]).domain@ == v[i].domain@,
        j < v.len() ==> v[j].domain@ != v[i].domain@,
        i > 0 ==> v[i - 1].domain@ != v[i].domain@,
    ensures
        conflicted(all, v[i].domain@) == (j - i > 1),
        forall|k: int|
            0 <= k < all.len() && (#[trigger] all[k]).domain == v[i].domain@ ==> exists|q: int|
                i <= q < j && same_key((#[trigger] v[q])@, all[k]),
        forall|q: int| 0 <= q < i ==> crate::order::text_lt((#[trigger] v[q]).domain@, v[i].domain@),
{
    let d = v[i].domain@;
    assert forall|q: int| 0 <= q < i implies crate::order::text_lt(
        (#[trigger] v[q]).domain@,
        d,
    ) by {
        assert(key_lt(v[q]@, v[i]@));
        if v[q].domain@ == d {
            if q < i - 1 {
                assert(key_lt(v[q]@, v[i - 1]@));
                assert(key_lt(v[i - 1]@, v[i]@));
                if crate::order::text_lt(v[i - 1].domain@, d) {
                    if crate::order::text_lt(d, v[i - 1].domain@) {
                        crate::order::lemma_transitive(d, v[i - 1].domain@, d);
                    }
                    crate::order::lemma_irreflexive(d);
                }
            }
        }
    }
    assert forall|q: int| j <= q < v.len() implies (#[trigger] v[q]).domain@ != d by {
        if v[q].domain@ == d {
            assert(key_lt(v[i]@, v[j]@));
            if q > j {
                assert(key_lt(v[j]@, v[q]@));
                if crate::order::text_lt(v[j].domain@, d) && crate::order::text_lt(
                    d,
                    v[j].domain@,
                ) {
                    crate::order::lemma_transitive(d, v[j].domain@, d);
                }
                crate::order::lemma_irreflexive(d);
            }
        }
    }
    assert forall|k: int| 0 <= k < all.len() && (#[trigger] all[k]).domain == d implies exists|q: int|
        i <= q < j && same_key((#[trigger] v[q])@, all[k]) by {
        assert(represented(v, all[k]));
        let q = choose|q: int| 0 <= q < v.len() && same_key((#[trigger] v[q])@, all[k]);
        if q < i {
            assert(crate::order::text_lt(v[q].domain@, d));
            crate::order::lemma_irreflexive(d);
        }
    }
    if j - i > 1 {
        let a = first_index(all, v[i]@);
        let b = first_index(all, v[i + 1]@);
        assert(key_lt(v[i]@, v[i + 1]@));
        assert(v[i + 1].domain@ == d);
        crate::order::lemma_irreflexive(d);
        assert(all[a].ip != all[b].ip);
        assert(all[a].domain == d && all[b].domain == d);
        assert(conflicted(all, d));
    } else if conflicted(all, d) {
        let (a, b) = choose|a: int, b: int|
            #![trigger all[a], all[b]]
            0 <= a < all.len() && 0 <= b < all.len() && all[a].domain == d && all[b].domain == d
                && all[a].ip != all[b].ip;
        let p = choose|q: int| i <= q < j && same_key((#[trigger] v[q])@, all[a]);
        let q = choose|q: int| i <= q < j && same_key((#[trigger] v[q])@, all[b]);
        assert(p == i && q == i);
    }
}

/// A name behind all others keeps a list increasing.
proof fn lemma_push_increasing(s: Seq<Seq<char>>, x: Seq<char>)
    requires
        crate::order::increasing(s),
        forall|k: int| 0 <= k < s.len() ==> crate::order::text_lt(#[trigger] s[k], x),
    ensures
        crate::order::increasing(s.push(x)),
{
}

impl Merger {
    /// Merges the rules of all enabled profiles. Each domain of a rule that is in
    /// force counts for itself; comment lines do not count. A domain with one
    /// address becomes a rule; a domain with several becomes a conflict that lists
    /// them. Of several profiles that say the same, the first is named. Rules and
    /// conflicts are in the order of their domains, the addresses of a conflict in
    /// the order of addresses.
    pub fn merge(profiles: &[Profile]) -> (r: MergeResult)
        ensures
            rules_complete(entries(profiles@), r.rules@),
            conflicts_complete(entries(profiles@), r.conflicts@),
    {
        let v = collect(profiles);
        let ghost all = entries(profiles@);
        let mut rules: Vec<ResolvedRule> = Vec::new();
        let mut conflicts: Vec<RuleConflict> = Vec::new();
        let mut i: usize = 0;
        while i < v.len()
            invariant
                i <= v@.len(),
                index_of_entries(v@, all),
                merged_so_far(v@, i as int, all, rules@, conflicts@),
                0 < i < v@.len() ==> v@[i - 1].domain@ != v@[i as int].domain@,
            decreases v.len() - i,
        {
            let ghost d = v@[i as int].domain@;
            let mut j: usize = i + 1;
            while j < v.len() && same_text(v[j].domain.as_str(), v[i].domain.as_str())
                invariant
                    i < j <= v@.len(),
                    forall|q: int| i <= q < j ==> (#[trigger] v@[q]).domain@ == v@[i as int].domain@,
                decreases v.len() - j,
            {
                j = j + 1;
            }
            proof {
                lemma_stretch(v@, all, i as int, j as int);
                assert forall|k: int| 0 <= k < rules@.len() implies crate::order::text_lt(
                    #[trigger] rule_domains(rules@)[k],
                    d,
                ) by {
                    let q = choose|q: int|
                        0 <= q < i && (#[trigger] v@[q]).domain@ == rules@[k].domain@;
                    assert(crate::order::text_lt(v@[q].domain@, d));
                }
                assert forall|k: int| 0 <= k < conflicts@.len() implies crate::order::text_lt(
                    #[trigger] conflict_names(conflicts@)[k],
                    d,
                ) by {
                    let q = choose|q: int|
                        0 <= q < i && (#[trigger] v@[q]).domain@ == conflicts@[k].domain@;
                    assert(crate::order::text_lt(v@[q].domain@, d));
                }
            }
            let ghost rules0 = rules@;
            let ghost conflicts0 = conflicts@;
            if j - i == 1 {
                rules.push(copy_rule(&v[i]));
                proof {
                    assert(rule_domains(rules@) =~= rule_domains(rules0).push(d));
                    lemma_push_increasing(rule_domains(rules0), d);
                }
            } else {
                let mut list: Vec<ResolvedRule> = Vec::new();
                let mut k: usize = i;
                while k < j
                    invariant
                        i <= k <= j <= v@.len(),
                        list@.len() == k - i,
                        forall|q: int| 0 <= q < list@.len() ==> (#[trigger] list@[q])@ == v@[i + q]@,
                    decreases j - k,
                {
                    list.push(copy_rule(&v[k]));
                    k = k + 1;
                }
                let c = RuleConflict { domain: v[i].domain.clone(), rules: list };
                proof {
                    assert(conflict_complete(all, c)) by {
                        assert forall|a: int, b: int| 0 <= a < b < list@.len() implies crate::net::ip_rank(
                            (#[trigger] list@[a]).ip,
                        ) < crate::net::ip_rank((#[trigger] list@[b]).ip) by {
                            assert(list@[a]@ == v@[i + a]@);
                            assert(list@[b]@ == v@[i + b]@);
                            assert(key_lt(v@[i + a]@, v@[i + b]@));
                            assert(v@[i + a].domain@ == d && v@[i + b].domain@ == d);
                            crate::order::lemma_irreflexive(d);
                        }
                        assert forall|a: int| 0 <= a < list@.len() implies (#[trigger] list@[a]).domain@
                            == d && is_first(all, list@[a]@) by {
                            assert(list@[a]@ == v@[i + a]@);
                        }
                        assert forall|k: int|
                            0 <= k < all.len() && (#[trigger] all[k]).domain == d implies exists|a: int|
                            0 <= a < list@.len() && (#[trigger] list@[a]).ip == all[k].ip by {
                            let q = choose|q: int|
                                i <= q < j && same_key((#[trigger] v@[q])@, all[k]);
                            assert(list@[q - i]@ == v@[i + (q - i)]@);
                        }
                    }
                }
                conflicts.push(c);
                proof {
                    assert(conflict_names(conflicts@) =~= conflict_names(conflicts0).push(d));
                    lemma_push_increasing(conflict_names(conflicts0), d);
                }
            }
            proof {
                lemma_step(v@, all, i as int, j as int, rules0, conflicts0, rules@, conflicts@);
            }
            i = j;
        }
        proof {
            assert forall|k: int| 0 <= k < all.len() implies if conflicted(
                all,
                (#[trigger] all[k]).domain,
            ) {
                conflict_names(conflicts@).contains(all[k].domain)
            } else {
                rule_domains(rules@).contains(all[k].domain)
            } by {
                assert(represented(v@, all[k]));
                let q = choose|q: int| 0 <= q < v@.len() && same_key((#[trigger] v@[q])@, all[k]);
                assert(v@[q].domain@ == all[k].domain);
            }
        }
        MergeResult { rules, conflicts }
    }
}

/// One stretch more.
proof fn lemma_step(
    v: Seq<ResolvedRule>,
    all: Seq<ResolvedFacts>,
    i: int,
    j: int,
    rules0: Seq<ResolvedRule>,
    conflicts0: Seq<RuleConflict>,
    rules: Seq<ResolvedRule>,
    conflicts: Seq<RuleConflict>,
)
    requires
        index_of_entries(v, all),
        merged_so_far(v, i, all, rules0, conflicts0),
        0 <= i < j <= v.len(),
        forall|q: int| i <= q < j ==> (#[trigger] v[q]).domain@ == v[i].domain@,
        crate::order::increasing(rule_domains(rules)),
        crate::order::increasing(conflict_names(conflicts)),
        if conflicted(all, v[i].domain@) {
            rules == rules0 && conflicts.len() == conflicts0.len() + 1 && conflicts.drop_last()
                =~= conflicts0 && conflicts.last().domain@ == v[i].domain@ && conflict_complete(
                all,
                conflicts.last(),
            )
        } else {
            conflicts == conflicts0 && rules.len() == rules0.len() + 1 && rules.drop_last()
                =~= rules0 && rules.last()@ == v[i]@
        },
    ensures
        merged_so_far(v, j, all, rules, conflicts),
{
    let d = v[i].domain@;
    assert forall|k: int| 0 <= k < rules.len() implies is_first(all, (#[trigger] rules[k])@)
        && !conflicted(all, rules[k].domain@) && exists|q: int|
        0 <= q < j && (#[trigger] v[q]).domain@ == rules[k].domain@ by {
        if k < rules0.len() {
            assert(rules[k] == rules0[k]);
            let q = choose|q: int| 0 <= q < i && (#[trigger] v[q]).domain@ == rules0[k].domain@;
            assert(v[q].domain@ == rules[k].domain@);
        } else {
            assert(rules[k]@ == v[i]@);
            assert(v[i].domain@ == rules[k].domain@);
        }
    }
    assert forall|k: int| 0 <= k < conflicts.len() implies conflicted(
        all,
        (#[trigger] conflicts[k]).domain@,
    ) && conflict_complete(all, conflicts[k]) && exists|q: int|
        0 <= q < j && (#[trigger] v[q]).domain@ == conflicts[k].domain@ by {
        if k < conflicts0.len() {
            assert(conflicts[k] == conflicts0[k]);
            let q = choose|q: int|
                0 <= q < i && (#[trigger] v[q]).domain@ == conflicts0[k].domain@;
            assert(v[q].domain@ == conflicts[k].domain@);
        } else {
            assert(v[i].domain@ == conflicts[k].domain@);
        }
    }
    assert forall|q: int| 0 <= q < j implies if conflicted(all, (#[trigger] v[q]).domain@) {
        conflict_names(conflicts).contains(v[q].domain@)
    } else {
        rule_domains(rules).contains(v[q].domain@)
    } by {
        if q < i {
            if conflicted(all, v[q].domain@) {
                let k = choose|k: int|
                    0 <= k < conflict_names(conflicts0).len() && conflict_names(conflicts0)[k]
                        == v[q].domain@;
                assert(conflicts[k] == conflicts0[k]);
                assert(conflict_names(conflicts)[k] == v[q].domain@);
            } else {
                let k = choose|k: int|
                    0 <= k < rule_domains(rules0).len() && rule_domains(rules0)[k] == v[q].domain@;
                assert(rules[k] == rules0[k]);
                assert(rule_domains(rules)[k] == v[q].domain@);
            }
        } else {
            if conflicted(all, d) {
                assert(conflict_names(conflicts)[conflicts0.len() as int] == d);
            } else {
                assert(rules.last().domain@ == d);
                assert(rule_domains(rules)[rules0.len() as int] == d);
            }
        }
    }
}

/// No domain is both a rule and a conflict.
pub proof fn rules_and_conflicts_are_disjoint(
    all: Seq<ResolvedFacts>,
    rules: Seq<ResolvedRule>,
    conflicts: Seq<RuleConflict>,
)
    requires
        rules_complete(all, rules),
        conflicts_complete(all, conflicts),
    ensures
        forall|d: Seq<char>|
            !(rule_domains(rules).contains(d) && #[trigger] conflict_names(conflicts).contains(d)),
{
    assert forall|d: Seq<char>|
        !(rule_domains(rules).contains(d) && #[trigger] conflict_names(conflicts).contains(d)) by {
        if rule_domains(rules).contains(d) && conflict_names(conflicts).contains(d) {
            let a = choose|a: int| 0 <= a < rules.len() && rule_domains(rules)[a] == d;
            let b = choose|b: int| 0 <= b < conflicts.len() && conflict_names(conflicts)[b] == d;
            assert(rules[a].domain@ == d);
            assert(conflicts[b].domain@ == d);
        }
    }
}

/// A conflict names at least two addresses.
pub proof fn a_conflict_has_two_addresses(all: Seq<ResolvedFacts>, conflicts: Seq<RuleConflict>)
    requires
        conflicts_complete(all, conflicts),
    ensures
        forall|k: int| 0 <= k < conflicts.len() ==> (#[trigger] conflicts[k]).rules@.len() >= 2,
{
    assert forall|k: int| 0 <= k < conflicts.len() implies (#[trigger] conflicts[k]).rules@.len()
        >= 2 by {
        let c = conflicts[k];
        let d = c.domain@;
        let (i, j) = choose|i: int, j: int|
            #![trigger all[i], all[j]]
            0 <= i < all.len() && 0 <= j < all.len() && all[i].domain == d && all[j].domain == d
                && all[i].ip != all[j].ip;
        let a = choose|a: int| 0 <= a < c.rules@.len() && (#[trigger] c.rules@[a]).ip == all[i].ip;
        let b = choose|b: int| 0 <= b < c.rules@.len() && (#[trigger] c.rules@[b]).ip == all[j].ip;
        assert(a != b);
    }
}

/// An entry stands among those of some profiles where an enabled one of them gives it.
proof fn lemma_entry_of(profiles: Seq<Profile>, x: ResolvedFacts)
    ensures
        entries(profiles).contains(x) <==> exists|p: Profile| #[trigger]
            profiles.contains(p) && p.enabled && rules_entries(p.rules@, p).contains(x),
    decreases profiles.len(),
{
    if profiles.len() > 0 {
        let head = profiles.drop_last();
        let p = profiles.last();
        let own = rules_entries(p.rules@, p);
        lemma_entry_of(head, x);
        assert(profiles =~= head.push(p));
        assert(profiles[profiles.len() - 1] == p);
        assert(profiles.contains(p));
        assert forall|q: Profile| #[trigger] head.contains(q) implies profiles.contains(q) by {
            let k = choose|k: int| 0 <= k < head.len() && head[k] == q;
            assert(profiles[k] == q);
        }
        assert forall|q: Profile| #[trigger] profiles.contains(q) && q != p implies head.contains(
            q,
        ) by {
            let k = choose|k: int| 0 <= k < profiles.len() && profiles[k] == q;
            assert(head[k] == q);
        }
        if p.enabled {
            let all = entries(head) + own;
            if entries(head).contains(x) {
                let k = choose|k: int| 0 <= k < entries(head).len() && entries(head)[k] == x;
                assert(all[k] == x);
            }
            if own.contains(x) {
                let k = choose|k: int| 0 <= k < own.len() && own[k] == x;
                assert(all[entries(head).len() + k] == x);
            }
            if all.contains(x) {
                let k = choose|k: int| 0 <= k < all.len() && all[k] == x;
                if k < entries(head).len() {
                    assert(entries(head)[k] == x);
                } else {
                    assert(own[k - entries(head).len()] == x);
                }
            }
        }
    }
}

/// Entries that are the same but for their order and number disagree on the same domains.
proof fn lemma_conflicted_of(a: Seq<ResolvedFacts>, b: Seq<ResolvedFacts>, domain: Seq<char>)
    requires
        forall|x: ResolvedFacts| #[trigger] a.contains(x) ==> b.contains(x),
        conflicted(a, domain),
    ensures
        conflicted(b, domain),
{
    let (i, j) = choose|i: int, j: int|
        #![trigger a[i], a[j]]
        0 <= i < a.len() && 0 <= j < a.len() && a[i].domain == domain && a[j].domain == domain
            && a[i].ip != a[j].ip;
    assert(a.contains(a[i]) && a.contains(a[j]));
    let k = choose|k: int| 0 <= k < b.len() && b[k] == a[i];
    let m = choose|m: int| 0 <= m < b.len() && b[m] == a[j];
    assert(b[k].ip != b[m].ip);
}

/// A domain among the rules for some entries is among those for entries that are the same
/// but for their order and number.
proof fn lemma_rule_kept(
    a: Seq<ResolvedFacts>,
    b: Seq<ResolvedFacts>,
    x: Seq<ResolvedRule>,
    y: Seq<ResolvedRule>,
    domain: Seq<char>,
)
    requires
        forall|e: ResolvedFacts| #[trigger] a.contains(e) <==> b.contains(e),
        rules_complete(a, x),
        rules_complete(b, y),
        rule_domains(x).contains(domain),
    ensures
        rule_domains(y).contains(domain),
{
    let k = choose|k: int| 0 <= k < x.len() && rule_domains(x)[k] == domain;
    let i = first_index(a, x[k]@);
    assert(a.contains(a[i]));
    let j = choose|j: int| 0 <= j < b.len() && b[j] == a[i];
    if conflicted(b, domain) {
        lemma_conflicted_of(b, a, domain);
    }
    assert(!conflicted(b, b[j].domain));
}

/// The same of the domains of the conflicts.
proof fn lemma_conflict_kept(
    a: Seq<ResolvedFacts>,
    b: Seq<ResolvedFacts>,
    x: Seq<RuleConflict>,
    y: Seq<RuleConflict>,
    domain: Seq<char>,
)
    requires
        forall|e: ResolvedFacts| #[trigger] a.contains(e) <==> b.contains(e),
        conflicts_complete(a, x),
        conflicts_complete(b, y),
        conflict_names(x).contains(domain),
    ensures
        conflict_names(y).contains(domain),
{
    let k = choose|k: int| 0 <= k < x.len() && conflict_names(x)[k] == domain;
    assert(conflicted(a, x[k].domain@));
    lemma_conflicted_of(a, b, domain);
    let (i, j) = choose|i: int, j: int|
        #![trigger b[i], b[j]]
        0 <= i < b.len() && 0 <= j < b.len() && b[i].domain == domain && b[j].domain == domain
            && b[i].ip != b[j].ip;
    assert(conflicted(b, b[i].domain));
}

/// The addresses of a conflict.
spec fn addresses(c: RuleConflict) -> Seq<crate::net::IpAddr> {
    Seq::new(c.rules@.len(), |i: int| c.rules@[i].ip)
}

/// Whether addresses are in order, with none twice.
spec fn ranked(s: Seq<crate::net::IpAddr>) -> bool {
    forall|i: int, j: int|
        0 <= i < j < s.len() ==> crate::net::ip_rank(#[trigger] s[i]) < crate::net::ip_rank(
            #[trigger] s[j],
        )
}

/// Two lists of addresses in order with the same members are the same list.
proof fn lemma_ranked_unique(a: Seq<crate::net::IpAddr>, b: Seq<crate::net::IpAddr>)
    requires
        ranked(a),
        ranked(b),
        forall|ip: crate::net::IpAddr| #[trigger] a.contains(ip) <==> b.contains(ip),
    ensures
        a == b,
    decreases a.len(),
{
    if a.len() == 0 {
        if b.len() > 0 {
            assert(b.contains(b[0]));
            assert(a.contains(b[0]));
        }
        assert(a =~= b);
    } else {
        assert(a.contains(a.last()));
        let j = choose|j: int| 0 <= j < b.len() && b[j] == a.last();
        assert(b.contains(b.last()));
        assert(a.contains(b.last()));
        let i = choose|i: int| 0 <= i < a.len() && a[i] == b.last();
        if a.last() != b.last() {
            assert(crate::net::ip_rank(a[i]) < crate::net::ip_rank(a[a.len() - 1]));
            assert(crate::net::ip_rank(b[j]) < crate::net::ip_rank(b[b.len() - 1]));
        }
        let x = a.drop_last();
        let y = b.drop_last();
        assert forall|ip: crate::net::IpAddr| #[trigger] x.contains(ip) <==> y.contains(ip) by {
            if x.contains(ip) {
                let k = choose|k: int| 0 <= k < x.len() && x[k] == ip;
                assert(a[k] == ip && a.contains(ip));
                let m = choose|m: int| 0 <= m < b.len() && b[m] == ip;
                assert(crate::net::ip_rank(a[k]) < crate::net::ip_rank(a[a.len() - 1]));
                assert(y[m] == ip);
            }
            if y.contains(ip) {
                let k = choose|k: int| 0 <= k < y.len() && y[k] == ip;
                assert(b[k] == ip && b.contains(ip));
                assert(a.contains(ip));
                let m = choose|m: int| 0 <= m < a.len() && a[m] == ip;
                assert(crate::net::ip_rank(b[k]) < crate::net::ip_rank(b[b.len() - 1]));
                assert(x[m] == ip);
            }
        }
        lemma_ranked_unique(x, y);
        assert(a =~= x.push(a.last()));
        assert(b =~= y.push(b.last()));
    }
}

/// An address in a conflict for some entries is in that for entries that are the same but
/// for their order and number.
proof fn lemma_address_kept(
    a: Seq<ResolvedFacts>,
    b: Seq<ResolvedFacts>,
    c: RuleConflict,
    d: RuleConflict,
    ip: crate::net::IpAddr,
)
    requires
        forall|e: ResolvedFacts| #[trigger] a.contains(e) ==> b.contains(e),
        conflict_complete(a, c),
        conflict_complete(b, d),
        c.domain@ == d.domain@,
        addresses(c).contains(ip),
    ensures
        addresses(d).contains(ip),
{
    let k = choose|k: int| 0 <= k < c.rules@.len() && addresses(c)[k] == ip;
    let i = first_index(a, c.rules@[k]@);
    assert(a.contains(a[i]));
    let j = choose|j: int| 0 <= j < b.len() && b[j] == a[i];
    assert(b[j].domain == d.domain@);
    let m = choose|m: int| 0 <= m < d.rules@.len() && (#[trigger] d.rules@[m]).ip == b[j].ip;
    assert(addresses(d)[m] == ip);
}

/// The order in which the profiles are given changes no domain and no address, neither of
/// the rules nor of the conflicts: both results list the same ones, in the same places.
/// Only the profile that a rule is from can be another.
pub proof fn merging_does_not_depend_on_order(
    a: Seq<Profile>,
    b: Seq<Profile>,
    x: MergeResult,
    y: MergeResult,
)
    requires
        forall|p: Profile|
            #![trigger a.contains(p)]
            #![trigger b.contains(p)]
            a.contains(p) <==> b.contains(p),
        rules_complete(entries(a), x.rules@),
        conflicts_complete(entries(a), x.conflicts@),
        rules_complete(entries(b), y.rules@),
        conflicts_complete(entries(b), y.conflicts@),
    ensures
        x.rules@.len() == y.rules@.len(),
        forall|k: int|
            0 <= k < x.rules@.len() ==> (#[trigger] x.rules@[k]).domain@ == y.rules@[k].domain@
                && x.rules@[k].ip == y.rules@[k].ip,
        x.conflicts@.len() == y.conflicts@.len(),
        forall|k: int|
            0 <= k < x.conflicts@.len() ==> (#[trigger] x.conflicts@[k]).domain@
                == y.conflicts@[k].domain@ && x.conflicts@[k].rules@.len()
                == y.conflicts@[k].rules@.len(),
        forall|k: int, m: int|
            0 <= k < x.conflicts@.len() && 0 <= m < x.conflicts@[k].rules@.len() ==> (
            #[trigger] x.conflicts@[k].rules@[m]).ip == y.conflicts@[k].rules@[m].ip,
{
    let all = entries(a);
    let other = entries(b);
    assert forall|e: ResolvedFacts| #[trigger] all.contains(e) <==> other.contains(e) by {
        lemma_entry_of(a, e);
        lemma_entry_of(b, e);
    }
    let d = rule_domains(x.rules@);
    let f = rule_domains(y.rules@);
    assert forall|t: Seq<char>| #[trigger] d.to_set().contains(t) <==> f.to_set().contains(t) by {
        if d.contains(t) {
            lemma_rule_kept(all, other, x.rules@, y.rules@, t);
        }
        if f.contains(t) {
            lemma_rule_kept(other, all, y.rules@, x.rules@, t);
        }
    }
    assert(d.to_set() =~= f.to_set());
    crate::order::lemma_increasing_unique(d, f);
    assert forall|k: int| 0 <= k < x.rules@.len() implies (#[trigger] x.rules@[k]).domain@
        == y.rules@[k].domain@ && x.rules@[k].ip == y.rules@[k].ip by {
        assert(d[k] == f[k]);
        let i = first_index(all, x.rules@[k]@);
        let j = first_index(other, y.rules@[k]@);
        assert(all.contains(all[i]));
        let m = choose|m: int| 0 <= m < other.len() && other[m] == all[i];
        assert(!conflicted(other, y.rules@[k].domain@));
        assert(other[m].domain == other[j].domain);
    }
    let g = conflict_names(x.conflicts@);
    let h = conflict_names(y.conflicts@);
    assert forall|t: Seq<char>| #[trigger] g.to_set().contains(t) <==> h.to_set().contains(t) by {
        if g.contains(t) {
            lemma_conflict_kept(all, other, x.conflicts@, y.conflicts@, t);
        }
        if h.contains(t) {
            lemma_conflict_kept(other, all, y.conflicts@, x.conflicts@, t);
        }
    }
    assert(g.to_set() =~= h.to_set());
    crate::order::lemma_increasing_unique(g, h);
    assert forall|k: int| 0 <= k < x.conflicts@.len() implies (#[trigger] x.conflicts@[k]).domain@
        == y.conflicts@[k].domain@ && addresses(x.conflicts@[k]) == addresses(
        y.conflicts@[k],
    ) by {
        assert(g[k] == h[k]);
        let c = x.conflicts@[k];
        let e = y.conflicts@[k];
        assert(conflict_complete(all, c) && conflict_complete(other, e));
        assert forall|ip: crate::net::IpAddr| #[trigger]
            addresses(c).contains(ip) <==> addresses(e).contains(ip) by {
            if addresses(c).contains(ip) {
                lemma_address_kept(all, other, c, e, ip);
            }
            if addresses(e).contains(ip) {
                lemma_address_kept(other, all, e, c, ip);
            }
        }
        lemma_ranked_unique(addresses(c), addresses(e));
    }
    assert forall|k: int, m: int|
        0 <= k < x.conflicts@.len() && 0 <= m < x.conflicts@[k].rules@.len() implies (
    #[trigger] x.conflicts@[k].rules@[m]).ip == y.conflicts@[k].rules@[m].ip by {
        let c = x.conflicts@[k];
        let e = y.conflicts@[k];
        assert(addresses(c) == addresses(e));
        assert(addresses(c)[m] == c.rules@[m].ip);
        assert(addresses(e)[m] == e.rules@[m].ip);
    }
    assert forall|k: int| 0 <= k < x.conflicts@.len() implies (#[trigger] x.conflicts@[k]).rules@.len()
        == y.conflicts@[k].rules@.len() by {
        assert(addresses(x.conflicts@[k]).len() == addresses(y.conflicts@[k]).len());
    }
}

} // verus!
