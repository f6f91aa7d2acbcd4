//! The rules of the DNS mode: which address a name has.
use vstd::prelude::*;
use vstd::hash_map::StringHashMap;
use vstd::string::*;

use crate::dns::adblock::nearest_address;
use crate::models::{HostRule, Profile, ProfileMode};
use crate::net::IpAddr;
use crate::order::text_before;

verus! {

broadcast use {vstd::string::group_string_axioms, vstd::hash_map::group_hash_map_axioms};

/// The address of each name.
pub struct RuleEngine {
    rules: StringHashMap<IpAddr>,
}

impl View for RuleEngine {
    type V = Map<Seq<char>, IpAddr>;

    closed spec fn view(&self) -> Map<Seq<char>, IpAddr> {
        self.rules@
    }
}

/// The profiles that are enabled and in DNS mode, in order.
pub open spec fn active(profiles: Seq<Profile>) -> Seq<Profile>
    decreases profiles.len(),
{
    if profiles.len() == 0 {
        seq![]
    } else if profiles.last().mode == ProfileMode::Dns && profiles.last().enabled {
        active(profiles.drop_last()).push(profiles.last())
    } else {
        active(profiles.drop_last())
    }
}

/// A list in the order of names with one profile more, behind those of its own name.
pub open spec fn insert_by_name(s: Seq<Profile>, p: Profile) -> Seq<Profile>
    decreases s.len(),
{
    if s.len() == 0 || !crate::order::text_lt(p.name@, s.last().name@) {
        s.push(p)
    } else {
        insert_by_name(s.drop_last(), p).push(s.last())
    }
}

/// Profiles in the order of their names; those of one name stay in the order given.
pub open spec fn by_name(s: Seq<Profile>) -> Seq<Profile>
    decreases s.len(),
{
    if s.len() == 0 {
        seq![]
    } else {
        insert_by_name(by_name(s.drop_last()), s.last())
    }
}

/// The names that a rule in force gives an address to.
pub open spec fn rule_pairs(r: HostRule) -> Seq<(Seq<char>, IpAddr)> {
    match r.ip {
        Some(ip) => if r.enabled {
            Seq::new(r.domains@.len(), |i: int| (r.domains@[i]@, ip))
        } else {
            seq![]
        },
        None => seq![],
    }
}

/// The names that some rules give an address to, in order.
pub open spec fn rules_pairs(rules: Seq<HostRule>) -> Seq<(Seq<char>, IpAddr)>
    decreases rules.len(),
{
    if rules.len() == 0 {
        seq![]
    } else {
        rules_pairs(rules.drop_last()) + rule_pairs(rules.last())
    }
}

/// The names that some profiles give an address to, in order.
pub open spec fn profiles_pairs(profiles: Seq<Profile>) -> Seq<(Seq<char>, IpAddr)>
    decreases profiles.len(),
{
    if profiles.len() == 0 {
        seq![]
    } else {
        profiles_pairs(profiles.drop_last()) + rules_pairs(profiles.last().rules@)
    }
}

/// The table of some pairs; of pairs with one name the first counts.
pub open spec fn first_wins(pairs: Seq<(Seq<char>, IpAddr)>) -> Map<Seq<char>, IpAddr>
    decreases pairs.len(),
{
    if pairs.len() == 0 {
        Map::empty()
    } else {
        let m = first_wins(pairs.drop_last());
        if m.contains_key(pairs.last().0) {
            m
        } else {
            m.insert(pairs.last().0, pairs.last().1)
        }
    }
}

/// The addresses that some profiles come to.
pub open spec fn dns_rules(profiles: Seq<Profile>) -> Map<Seq<char>, IpAddr> {
    first_wins(profiles_pairs(by_name(active(profiles))))
}

/// The profiles at some places.
spec fn at_places(profiles: Seq<Profile>, places: Seq<usize>) -> Seq<Profile> {
    Seq::new(places.len(), |i: int| profiles[places[i] as int])
}

/// Inserting a profile by its name puts it before the first profile with a later name
/// among those at the end.
pub(crate) proof fn lemma_insert_place(s: Seq<Profile>, p: Profile, k: int)
    requires
        0 <= k <= s.len(),
        forall|i: int| k <= i < s.len() ==> crate::order::text_lt(p.name@, (#[trigger] s[i]).name@),
        k > 0 ==> !crate::order::text_lt(p.name@, s[k - 1].name@),
    ensures
        insert_by_name(s, p) == s.insert(k, p),
    decreases s.len(),
{
    if k == s.len() {
        assert(s.insert(k, p) =~= s.push(p));
    } else {
        let t = s.drop_last();
        assert(crate::order::text_lt(p.name@, s[s.len() - 1].name@));
        lemma_insert_place(t, p, k);
        assert(t.insert(k, p).push(s.last()) =~= s.insert(k, p));
    }
}

/// The places of the active profiles in the order of their names.
fn places_by_name(profiles: &[Profile]) -> (r: Vec<usize>)
    ensures
        forall|i: int| 0 <= i < r@.len() ==> #[trigger] r@[i] < profiles@.len(),
        at_places(profiles@, r@) == by_name(active(profiles@)),
{
    let mut v: Vec<usize> = Vec::new();
    let mut i: usize = 0;
    assert(at_places(profiles@, v@) =~= by_name(active(profiles@.take(0))));
    while i < profiles.len()
        invariant
            i <= profiles@.len(),
            forall|k: int| 0 <= k < v@.len() ==> #[trigger] v@[k] < profiles@.len(),
            at_places(profiles@, v@) == by_name(active(profiles@.take(i as int))),
        decreases profiles.len() - i,
    {
        let p = &profiles[i];
        proof {
            assert(profiles@.take(i + 1).drop_last() =~= profiles@.take(i as int));
            assert(profiles@.take(i + 1).last() == *p);
        }
        let is_dns = match p.mode {
            ProfileMode::Dns => true,
            ProfileMode::Hosts => false,
        };
        if is_dns && p.enabled {
            let ghost s = at_places(profiles@, v@);
            let mut k: usize = v.len();
            while k > 0 && text_before(p.name.as_str(), profiles[v[k - 1]].name.as_str())
                invariant
                    k <= v@.len(),
                    i < profiles@.len(),
                    *p == profiles@[i as int],
                    s == at_places(profiles@, v@),
                    forall|q: int| 0 <= q < v@.len() ==> #[trigger] v@[q] < profiles@.len(),
                    forall|q: int|
                        k <= q < s.len() ==> crate::order::text_lt(
                            p.name@,
                            (#[trigger] s[q]).name@,
                        ),
                decreases k,
            {
                assert(s[k - 1] == profiles@[v@[k - 1] as int]);
                k = k - 1;
            }
            proof {
                if k > 0 {
                    assert(s[k - 1] == profiles@[v@[k - 1] as int]);
                }
                lemma_insert_place(s, *p, k as int);
                let a = active(profiles@.take(i as int));
                assert(a.push(*p).drop_last() =~= a);
            }
            let ghost v0 = v@;
            v.insert(k, i);
            proof {
                assert(at_places(profiles@, v@) =~= s.insert(k as int, *p));
            }
        }
        i = i + 1;
    }
    assert(profiles@.take(i as int) =~= profiles@);
    v
}

impl RuleEngine {
    /// No rules.
    pub fn new() -> (r: Self)
        ensures
            r@ == Map::<Seq<char>, IpAddr>::empty(),
    {
        RuleEngine { rules: StringHashMap::new() }
    }

    /// Replaces all rules by those of the profiles that are enabled and in DNS mode.
    /// Only rules in force count, and comment lines do not. Where several give an
    /// address to one name, the first counts, with the profiles in the order of their
    /// names.
    pub fn rebuild(&mut self, profiles: &[Profile])
        ensures
            final(self)@ == dns_rules(profiles@),
            forall|i: int, j: int, k: int|
                #![trigger profiles@[i].rules@[j].domains@[k]]
                0 <= i < profiles@.len() && profiles@[i].enabled && profiles@[i].mode
                    == ProfileMode::Dns && 0 <= j < profiles@[i].rules@.len()
                    && profiles@[i].rules@[j].enabled && profiles@[i].rules@[j].ip is Some && 0 <= k
                    < profiles@[i].rules@[j].domains@.len() ==> final(self)@.contains_key(
                    profiles@[i].rules@[j].domains@[k]@,
                ),
            forall|d: Seq<char>| #[trigger]
                final(self)@.contains_key(d) ==> exists|i: int, j: int, k: int|
                    #![trigger profiles@[i].rules@[j].domains@[k]]
                    0 <= i < profiles@.len() && profiles@[i].enabled && profiles@[i].mode
                        == ProfileMode::Dns && 0 <= j < profiles@[i].rules@.len()
                        && profiles@[i].rules@[j].enabled && profiles@[i].rules@[j].ip == Some(
                        final(self)@[d],
                    ) && 0 <= k < profiles@[i].rules@[j].domains@.len()
                        && profiles@[i].rules@[j].domains@[k]@ == d,
    {
        proof {
            assert forall|i: int, j: int, k: int|
                #![trigger profiles@[i].rules@[j].domains@[k]]
                0 <= i < profiles@.len() && profiles@[i].enabled && profiles@[i].mode
                    == ProfileMode::Dns && 0 <= j < profiles@[i].rules@.len()
                    && profiles@[i].rules@[j].enabled && profiles@[i].rules@[j].ip is Some && 0 <= k
                    < profiles@[i].rules@[j].domains@.len() implies dns_rules(
                profiles@,
            ).contains_key(profiles@[i].rules@[j].domains@[k]@) by {
                crate::dns::resolver_laws::every_dns_rule_counts(profiles@, i, j, k);
            }
            assert forall|d: Seq<char>| #[trigger]
                dns_rules(profiles@).contains_key(d) implies exists|i: int, j: int, k: int|
                #![trigger profiles@[i].rules@[j].domains@[k]]
                0 <= i < profiles@.len() && profiles@[i].enabled && profiles@[i].mode
                    == ProfileMode::Dns && 0 <= j < profiles@[i].rules@.len()
                    && profiles@[i].rules@[j].enabled && profiles@[i].rules@[j].ip == Some(
                    dns_rules(profiles@)[d],
                ) && 0 <= k < profiles@[i].rules@[j].domains@.len()
                    && profiles@[i].rules@[j].domains@[k]@ == d by {
                let o = crate::dns::resolver_laws::the_first_dns_rule_counts(profiles@, d);
                assert(profiles@[o.0].rules@[o.1].domains@[o.2]@ == d);
            }
        }
        let places = places_by_name(profiles);
        let ghost sorted = by_name(active(profiles@));
        let mut table: StringHashMap<IpAddr> = StringHashMap::new();
        let ghost mut pairs: Seq<(Seq<char>, IpAddr)> = seq![];
        let mut i: usize = 0;
        assert(sorted.take(0) =~= seq![]);
        while i < places.len()
            invariant
                i <= places@.len(),
                forall|k: int| 0 <= k < places@.len() ==> #[trigger] places@[k] < profiles@.len(),
                sorted == at_places(profiles@, places@),
                pairs == profiles_pairs(sorted.take(i as int)),
                table@ == first_wins(pairs),
            decreases places.len() - i,
        {
            let p = &profiles[places[i]];
            let ghost base = pairs;
            proof {
                assert(sorted.take(i + 1).drop_last() =~= sorted.take(i as int));
                assert(sorted.take(i + 1).last() == *p);
            }
            let mut j: usize = 0;
            assert(base + rules_pairs(p.rules@.take(0)) =~= base);
            while j < p.rules.len()
                invariant
                    j <= p.rules@.len(),
                    pairs == base + rules_pairs(p.rules@.take(j as int)),
                    table@ == first_wins(pairs),
                decreases p.rules.len() - j,
            {
                let rule = &p.rules[j];
                let ghost before = pairs;
                let ghost mine = rule_pairs(*rule);
                proof {
                    assert(p.rules@.take(j + 1).drop_last() =~= p.rules@.take(j as int));
                    assert(before + mine =~= base + rules_pairs(p.rules@.take(j + 1)));
                }
                match rule.ip {
                    Some(ip) => {
                        if rule.enabled {
                            let mut k: usize = 0;
                            assert(before + mine.take(0) =~= before);
                            while k < rule.domains.len()
                                invariant
                                    k <= rule.domains@.len(),
                                    rule.ip == Some(ip),
                                    rule.enabled,
                                    mine == rule_pairs(*rule),
                                    pairs == before + mine.take(k as int),
                                    table@ == first_wins(pairs),
                                decreases rule.domains.len() - k,
                            {
                                let ghost pair = (rule.domains@[k as int]@, ip);
                                proof {
                                    assert(pairs.push(pair).drop_last() =~= pairs);
                                    assert(mine[k as int] == pair);
                                    assert(pairs.push(pair) =~= before + mine.take(k + 1));
                                }
                                if !table.contains_key(rule.domains[k].as_str()) {
                                    table.insert(rule.domains[k].clone(), ip);
                                }
                                proof {
                                    pairs = pairs.push(pair);
                                }
                                k = k + 1;
                            }
                            assert(mine.take(k as int) =~= mine);
                        } else {
                            assert(before + mine =~= before);
                        }
                    },
                    None => {
                        assert(before + mine =~= before);
                    },
                }
                j = j + 1;
            }
            assert(p.rules@.take(j as int) =~= p.rules@);
            i = i + 1;
        }
        assert(sorted.take(i as int) =~= sorted);
        self.rules = table;
    }

    /// The address of `domain`, or of its nearest parent that has one.
    pub fn resolve(&self, domain: &str) -> (r: Option<IpAddr>)
        ensures
            r == crate::dns::matcher::nearest(self@, crate::dns::matcher::parents(domain@)),
    {
        nearest_address(&self.rules, domain)
    }

    /// The number of names that have an address.
    pub fn rule_count(&self) -> (r: usize)
        ensures
            r == self@.dom().len(),
    {
        self.rules.len()
    }
}

impl Default for RuleEngine {
    fn default() -> (r: Self)
        ensures
            r@ == Map::<Seq<char>, IpAddr>::empty(),
    {
        RuleEngine::new()
    }
}

// ---------------------------------------------------------------------------
// Laws
// ---------------------------------------------------------------------------
/// In the order of names, with no name twice.
pub open spec fn names_increase(s: Seq<Profile>) -> bool {
    forall|i: int, j: int|
        0 <= i < j < s.len() ==> crate::order::text_lt(
            (#[trigger] s[i]).name@,
            (#[trigger] s[j]).name@,
        )
}

/// No two profiles have the same name.
pub open spec fn names_differ(s: Seq<Profile>) -> bool {
    forall|i: int, j: int|
        0 <= i < j < s.len() ==> (#[trigger] s[i]).name@ != (#[trigger] s[j]).name@
}

/// Inserting a profile with a new name keeps the order and adds that profile.
proof fn lemma_insert_by_name(s: Seq<Profile>, p: Profile)
    requires
        names_increase(s),
        forall|i: int| 0 <= i < s.len() ==> (#[trigger] s[i]).name@ != p.name@,
    ensures
        names_increase(insert_by_name(s, p)),
        forall|x: Profile| #[trigger]
            insert_by_name(s, p).contains(x) <==> s.contains(x) || x == p,
    decreases s.len(),
{
    let r = insert_by_name(s, p);
    if s.len() == 0 || !crate::order::text_lt(p.name@, s.last().name@) {
        assert forall|i: int, j: int| 0 <= i < j < r.len() implies crate::order::text_lt(
            (#[trigger] r[i]).name@,
            (#[trigger] r[j]).name@,
        ) by {
            if j == s.len() {
                crate::order::lemma_total(p.name@, s.last().name@);
                assert(s[s.len() - 1].name@ != p.name@);
                if i < s.len() - 1 {
                    assert(crate::order::text_lt(s[i].name@, s[s.len() - 1].name@));
                    crate::order::lemma_transitive(s[i].name@, s.last().name@, p.name@);
                }
            }
        }
        assert forall|x: Profile| #[trigger] r.contains(x) <==> s.contains(x) || x == p by {
            if r.contains(x) {
                let i = choose|i: int| 0 <= i < r.len() && r[i] == x;
                if i < s.len() {
                    assert(s[i] == x);
                }
            }
            if s.contains(x) {
                let i = choose|i: int| 0 <= i < s.len() && s[i] == x;
                assert(r[i] == x);
            }
            assert(r[s.len() as int] == p);
        }
    } else {
        let t = s.drop_last();
        assert forall|i: int| 0 <= i < t.len() implies (#[trigger] t[i]).name@ != p.name@ by {
            assert(t[i] == s[i]);
        }
        lemma_insert_by_name(t, p);
        let u = insert_by_name(t, p);
        assert forall|i: int, j: int| 0 <= i < j < r.len() implies crate::order::text_lt(
            (#[trigger] r[i]).name@,
            (#[trigger] r[j]).name@,
        ) by {
            if j == u.len() {
                assert(u.contains(u[i]));
                if u[i] != p {
                    let q = choose|q: int| 0 <= q < t.len() && t[q] == u[i];
                    assert(s[q] == u[i]);
                    assert(crate::order::text_lt(s[q].name@, s[s.len() - 1].name@));
                }
            }
        }
        assert forall|x: Profile| #[trigger] r.contains(x) <==> s.contains(x) || x == p by {
            assert(u.contains(x) <==> t.contains(x) || x == p);
            if r.contains(x) {
                let i = choose|i: int| 0 <= i < r.len() && r[i] == x;
                if i < u.len() {
                    assert(u[i] == x);
                    if t.contains(x) {
                        let q = choose|q: int| 0 <= q < t.len() && t[q] == x;
                        assert(s[q] == x);
                    }
                } else {
                    assert(s[s.len() - 1] == x);
                }
            }
            if s.contains(x) {
                let i = choose|i: int| 0 <= i < s.len() && s[i] == x;
                if i < t.len() {
                    assert(t[i] == x);
                    let q = choose|q: int| 0 <= q < u.len() && u[q] == x;
                    assert(r[q] == x);
                } else {
                    assert(r[u.len() as int] == x);
                }
            }
            if x == p {
                let q = choose|q: int| 0 <= q < u.len() && u[q] == x;
                assert(r[q] == x);
            }
        }
    }
}

/// Sorting profiles of different names puts them in order and keeps all of them.
proof fn lemma_by_name(s: Seq<Profile>)
    requires
        names_differ(s),
    ensures
        names_increase(by_name(s)),
        forall|x: Profile| #[trigger] by_name(s).contains(x) <==> s.contains(x),
    decreases s.len(),
{
    if s.len() > 0 {
        let t = s.drop_last();
        assert forall|i: int, j: int| 0 <= i < j < t.len() implies (#[trigger] t[i]).name@ != (
        #[trigger] t[j]).name@ by {
            assert(t[i] == s[i] && t[j] == s[j]);
        }
        lemma_by_name(t);
        let u = by_name(t);
        assert forall|i: int| 0 <= i < u.len() implies (#[trigger] u[i]).name@ != s.last().name@ by {
            assert(u.contains(u[i]));
            let q = choose|q: int| 0 <= q < t.len() && t[q] == u[i];
            assert(s[q] == u[i]);
            assert(s[q].name@ != s[s.len() - 1].name@);
        }
        lemma_insert_by_name(u, s.last());
        assert forall|x: Profile| #[trigger] by_name(s).contains(x) <==> s.contains(x) by {
            assert(u.contains(x) <==> t.contains(x));
            if s.contains(x) {
                let i = choose|i: int| 0 <= i < s.len() && s[i] == x;
                if i < t.len() {
                    assert(t[i] == x);
                }
            }
            if t.contains(x) {
                let i = choose|i: int| 0 <= i < t.len() && t[i] == x;
                assert(s[i] == x);
            }
            assert(s[s.len() - 1] == s.last());
        }
    }
}

/// Two lists in the order of names with the same members are the same list.
proof fn lemma_same_order(a: Seq<Profile>, b: Seq<Profile>)
    requires
        names_increase(a),
        names_increase(b),
        forall|x: Profile| #[trigger] a.contains(x) <==> b.contains(x),
    ensures
        a == b,
    decreases a.len(),
{
    if a.len() == 0 {
        if b.len() > 0 {
            assert(b.contains(b[0]));
            assert(a.contains(b[0]));
        }
        assert(a =~= b);
    } else {
        let x = a[a.len() - 1];
        assert(a.contains(x));
        assert(b.contains(x));
        let j = choose|j: int| 0 <= j < b.len() && b[j] == x;
        let y = b[b.len() - 1];
        assert(b.contains(y));
        assert(a.contains(y));
        let i = choose|i: int| 0 <= i < a.len() && a[i] == y;
        if x != y {
            assert(crate::order::text_lt(a[i].name@, a[a.len() - 1].name@));
            assert(crate::order::text_lt(b[j].name@, b[b.len() - 1].name@));
            crate::order::lemma_transitive(y.name@, x.name@, y.name@);
            crate::order::lemma_irreflexive(y.name@);
        }
        let p = a.drop_last();
        let q = b.drop_last();
        assert forall|z: Profile| #[trigger] p.contains(z) <==> q.contains(z) by {
            if p.contains(z) {
                let k = choose|k: int| 0 <= k < p.len() && p[k] == z;
                assert(a[k] == z);
                assert(crate::order::text_lt(a[k].name@, a[a.len() - 1].name@));
                crate::order::lemma_irreflexive(x.name@);
                assert(a.contains(z));
                let m = choose|m: int| 0 <= m < b.len() && b[m] == z;
                assert(q[m] == z);
            }
            if q.contains(z) {
                let k = choose|k: int| 0 <= k < q.len() && q[k] == z;
                assert(b[k] == z);
                assert(crate::order::text_lt(b[k].name@, b[b.len() - 1].name@));
                crate::order::lemma_irreflexive(y.name@);
                assert(b.contains(z));
                assert(a.contains(z));
                let m = choose|m: int| 0 <= m < a.len() && a[m] == z;
                assert(p[m] == z);
            }
        }
        lemma_same_order(p, q);
        assert(a =~= p.push(x));
        assert(b =~= q.push(y));
    }
}

/// The rules do not depend on the order in which profiles are given: the same active
/// profiles, of different names, always come to the same addresses.
pub proof fn rules_do_not_depend_on_order(a: Seq<Profile>, b: Seq<Profile>)
    requires
        names_differ(active(a)),
        names_differ(active(b)),
        active(a).to_set() == active(b).to_set(),
    ensures
        dns_rules(a) == dns_rules(b),
{
    let x = active(a);
    let y = active(b);
    lemma_by_name(x);
    lemma_by_name(y);
    assert forall|p: Profile| #[trigger] by_name(x).contains(p) <==> by_name(y).contains(p) by {
        assert(x.contains(p) <==> x.to_set().contains(p));
        assert(y.contains(p) <==> y.to_set().contains(p));
        assert(by_name(y).contains(p) <==> y.contains(p));
    }
    lemma_same_order(by_name(x), by_name(y));
}

/// The nearest entry wins: where a name has an address of its own, its parents do not
/// count.
pub proof fn own_address_wins(m: Map<Seq<char>, IpAddr>, domain: Seq<char>)
    requires
        m.contains_key(domain),
    ensures
        crate::dns::matcher::nearest(m, crate::dns::matcher::parents(domain)) == Some(m[domain]),
{
}

} // verus!
