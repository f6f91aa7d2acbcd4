//! Which address a name has in DNS mode, said of profiles, rules and domains.
use vstd::prelude::*;

use crate::models::{HostRule, Profile, ProfileMode};

verus! {

/// Where a profile goes in a list in the order of names: behind all that are not later.
proof fn lemma_place(s: Seq<Profile>, p: Profile) -> (k: int)
    ensures
        0 <= k <= s.len(),
        forall|i: int| k <= i < s.len() ==> crate::order::text_lt(p.name@, (#[trigger] s[i]).name@),
        k > 0 ==> !crate::order::text_lt(p.name@, s[k - 1].name@),
    decreases s.len(),
{
    if s.len() == 0 || !crate::order::text_lt(p.name@, s.last().name@) {
        s.len() as int
    } else {
        let t = s.drop_last();
        let k = lemma_place(t, p);
        assert forall|i: int| k <= i < s.len() implies crate::order::text_lt(
            p.name@,
            (#[trigger] s[i]).name@,
        ) by {
            if i < t.len() {
                assert(t[i] == s[i]);
            }
        }
        k
    }
}

/// Whether the profile at place `a` goes before that at place `b`: by name, and by place
/// where the names are the same.
spec fn goes_before(profiles: Seq<Profile>, a: int, b: int) -> bool {
    crate::order::text_lt(profiles[a].name@, profiles[b].name@) || (profiles[a].name@
        == profiles[b].name@ && a < b)
}

/// The profiles that count, in order, by their places.
spec fn sorted_places(profiles: Seq<Profile>, v: Seq<int>) -> bool {
    &&& crate::dns::resolver::by_name(crate::dns::resolver::active(profiles)).len() == v.len()
    &&& forall|x: int|
        0 <= x < v.len() ==> 0 <= #[trigger] v[x] < profiles.len() && profiles[v[x]].enabled
            && profiles[v[x]].mode == ProfileMode::Dns && crate::dns::resolver::by_name(
            crate::dns::resolver::active(profiles),
        )[x] == profiles[v[x]]
    &&& forall|x: int, y: int|
        0 <= x < y < v.len() ==> goes_before(profiles, #[trigger] v[x], #[trigger] v[y])
    &&& forall|i: int|
        0 <= i < profiles.len() && (#[trigger] profiles[i]).enabled && profiles[i].mode
            == ProfileMode::Dns ==> v.contains(i)
}

/// Such a list of places exists.
proof fn lemma_sorted_places(profiles: Seq<Profile>) -> (v: Seq<int>)
    ensures
        sorted_places(profiles, v),
    decreases profiles.len(),
{
    if profiles.len() == 0 {
        seq![]
    } else {
        let head = profiles.drop_last();
        let n = profiles.len() - 1;
        let p = profiles[n];
        let u = lemma_sorted_places(head);
        let s = crate::dns::resolver::by_name(crate::dns::resolver::active(head));
        assert forall|x: int, y: int| 0 <= x < y < u.len() implies goes_before(
            profiles,
            #[trigger] u[x],
            #[trigger] u[y],
        ) by {
            assert(goes_before(head, u[x], u[y]));
            assert(head[u[x]] == profiles[u[x]] && head[u[y]] == profiles[u[y]]);
        }
        if p.mode == ProfileMode::Dns && p.enabled {
            let a = crate::dns::resolver::active(head);
            assert(a.push(p).drop_last() =~= a);
            let k = lemma_place(s, p);
            crate::dns::resolver::lemma_insert_place(s, p, k);
            let r = s.insert(k, p);
            assert(crate::dns::resolver::by_name(crate::dns::resolver::active(profiles)) == r);
            let v = u.insert(k, n);
            assert forall|x: int| 0 <= x < v.len() implies 0 <= #[trigger] v[x] < profiles.len()
                && profiles[v[x]].enabled && profiles[v[x]].mode == ProfileMode::Dns && r[x]
                == profiles[v[x]] by {
                if x < k {
                    assert(v[x] == u[x]);
                    assert(head[u[x]] == profiles[u[x]]);
                } else if x > k {
                    assert(v[x] == u[x - 1]);
                    assert(head[u[x - 1]] == profiles[u[x - 1]]);
                }
            }
            assert forall|x: int, y: int| 0 <= x < y < v.len() implies goes_before(
                profiles,
                #[trigger] v[x],
                #[trigger] v[y],
            ) by {
                if y == k {
                    assert(v[x] == u[x]);
                    let last = u[k - 1];
                    assert(s[k - 1] == head[last] && head[last] == profiles[last]);
                    assert(s[x] == head[u[x]] && head[u[x]] == profiles[u[x]]);
                    crate::order::lemma_total(profiles[last].name@, p.name@);
                    if x < k - 1 {
                        assert(goes_before(profiles, u[x], u[k - 1]));
                        if crate::order::text_lt(profiles[u[x]].name@, profiles[last].name@)
                            && crate::order::text_lt(profiles[last].name@, p.name@) {
                            crate::order::lemma_transitive(
                                profiles[u[x]].name@,
                                profiles[last].name@,
                                p.name@,
                            );
                        }
                    }
                } else if x == k {
                    assert(v[y] == u[y - 1]);
                    assert(s[y - 1] == head[u[y - 1]] && head[u[y - 1]] == profiles[u[y - 1]]);
                } else {
                    let x0 = if x < k {
                        x
                    } else {
                        x - 1
                    };
                    let y0 = if y < k {
                        y
                    } else {
                        y - 1
                    };
                    assert(v[x] == u[x0] && v[y] == u[y0]);
                }
            }
            assert forall|i: int|
                0 <= i < profiles.len() && (#[trigger] profiles[i]).enabled && profiles[i].mode
                    == ProfileMode::Dns implies v.contains(i) by {
                if i < n {
                    assert(head[i] == profiles[i]);
                    let x = choose|x: int| 0 <= x < u.len() && u[x] == i;
                    if x < k {
                        assert(v[x] == i);
                    } else {
                        assert(v[x + 1] == i);
                    }
                } else {
                    assert(v[k] == i);
                }
            }
            v
        } else {
            assert forall|x: int| 0 <= x < u.len() implies 0 <= #[trigger] u[x] < profiles.len()
                && profiles[u[x]].enabled && profiles[u[x]].mode == ProfileMode::Dns && s[x]
                == profiles[u[x]] by {
                assert(head[u[x]] == profiles[u[x]]);
            }
            assert forall|i: int|
                0 <= i < profiles.len() && (#[trigger] profiles[i]).enabled && profiles[i].mode
                    == ProfileMode::Dns implies u.contains(i) by {
                assert(head[i] == profiles[i]);
            }
            u
        }
    }
}

/// The pairs of the first rules come first.
proof fn lemma_rules_prefix(rules: Seq<HostRule>, j: int)
    requires
        0 <= j <= rules.len(),
    ensures
        crate::dns::resolver::rules_pairs(rules.take(j)).len() <= crate::dns::resolver::rules_pairs(
            rules,
        ).len(),
        forall|n: int|
            0 <= n < crate::dns::resolver::rules_pairs(rules.take(j)).len()
                ==> #[trigger] crate::dns::resolver::rules_pairs(rules)[n]
                == crate::dns::resolver::rules_pairs(rules.take(j))[n],
    decreases rules.len(),
{
    if j == rules.len() {
        assert(rules.take(j) =~= rules);
    } else {
        let head = rules.drop_last();
        lemma_rules_prefix(head, j);
        assert(head.take(j) =~= rules.take(j));
        assert forall|n: int|
            0 <= n < crate::dns::resolver::rules_pairs(
                rules.take(j),
            ).len() implies #[trigger] crate::dns::resolver::rules_pairs(rules)[n]
            == crate::dns::resolver::rules_pairs(rules.take(j))[n] by {
            assert(crate::dns::resolver::rules_pairs(head)[n] == crate::dns::resolver::rules_pairs(
                rules.take(j),
            )[n]);
        }
    }
}

/// The pairs of the first profiles come first.
proof fn lemma_profiles_prefix(s: Seq<Profile>, x: int)
    requires
        0 <= x <= s.len(),
    ensures
        crate::dns::resolver::profiles_pairs(s.take(x)).len()
            <= crate::dns::resolver::profiles_pairs(s).len(),
        forall|n: int|
            0 <= n < crate::dns::resolver::profiles_pairs(s.take(x)).len()
                ==> #[trigger] crate::dns::resolver::profiles_pairs(s)[n]
                == crate::dns::resolver::profiles_pairs(s.take(x))[n],
    decreases s.len(),
{
    if x == s.len() {
        assert(s.take(x) =~= s);
    } else {
        let head = s.drop_last();
        lemma_profiles_prefix(head, x);
        assert(head.take(x) =~= s.take(x));
        assert forall|n: int|
            0 <= n < crate::dns::resolver::profiles_pairs(
                s.take(x),
            ).len() implies #[trigger] crate::dns::resolver::profiles_pairs(s)[n]
            == crate::dns::resolver::profiles_pairs(s.take(x))[n] by {
            assert(crate::dns::resolver::profiles_pairs(head)[n]
                == crate::dns::resolver::profiles_pairs(s.take(x))[n]);
        }
    }
}

/// Where the pair for a domain of a rule in force stands among those of the rules.
proof fn lemma_rule_pair(rules: Seq<HostRule>, j: int, k: int) -> (n: int)
    requires
        0 <= j < rules.len(),
        rules[j].enabled,
        rules[j].ip is Some,
        0 <= k < rules[j].domains@.len(),
    ensures
        0 <= n < crate::dns::resolver::rules_pairs(rules.take(j + 1)).len(),
        crate::dns::resolver::rules_pairs(rules.take(j + 1)).len()
            <= crate::dns::resolver::rules_pairs(rules).len(),
        crate::dns::resolver::rules_pairs(rules)[n] == (rules[j].domains@[k]@, rules[j].ip->0),
{
    let upto = rules.take(j + 1);
    assert(upto.drop_last() =~= rules.take(j));
    assert(upto.last() == rules[j]);
    lemma_rules_prefix(rules, j + 1);
    let n = crate::dns::resolver::rules_pairs(rules.take(j)).len() + k;
    assert(crate::dns::resolver::rules_pairs(rules)[n] == crate::dns::resolver::rules_pairs(
        upto,
    )[n]);
    n
}

/// Which domain of which rule in force a pair is for.
proof fn lemma_rule_of_pair(rules: Seq<HostRule>, n: int) -> (o: (int, int))
    requires
        0 <= n < crate::dns::resolver::rules_pairs(rules).len(),
    ensures
        0 <= o.0 < rules.len(),
        rules[o.0].enabled,
        rules[o.0].ip is Some,
        0 <= o.1 < rules[o.0].domains@.len(),
        crate::dns::resolver::rules_pairs(rules)[n] == (
            rules[o.0].domains@[o.1]@,
            rules[o.0].ip->0,
        ),
        crate::dns::resolver::rules_pairs(rules.take(o.0)).len() <= n,
    decreases rules.len(),
{
    let head = rules.drop_last();
    let m = crate::dns::resolver::rules_pairs(head).len();
    if n < m {
        let o = lemma_rule_of_pair(head, n);
        assert(head[o.0] == rules[o.0]);
        assert(head.take(o.0) =~= rules.take(o.0));
        o
    } else {
        assert(rules.take(rules.len() - 1) =~= head);
        (rules.len() - 1, n - m)
    }
}

/// Where the pair for a domain of a rule in force stands among those of the profiles.
proof fn lemma_pair_at(s: Seq<Profile>, x: int, j: int, k: int) -> (o: (int, int))
    requires
        0 <= x < s.len(),
        0 <= j < s[x].rules@.len(),
        s[x].rules@[j].enabled,
        s[x].rules@[j].ip is Some,
        0 <= k < s[x].rules@[j].domains@.len(),
    ensures
        0 <= o.0 < crate::dns::resolver::profiles_pairs(s).len(),
        crate::dns::resolver::profiles_pairs(s)[o.0] == (
            s[x].rules@[j].domains@[k]@,
            s[x].rules@[j].ip->0,
        ),
        o.0 == crate::dns::resolver::profiles_pairs(s.take(x)).len() + o.1,
        o.0 < crate::dns::resolver::profiles_pairs(s.take(x + 1)).len(),
        0 <= o.1 < crate::dns::resolver::rules_pairs(s[x].rules@.take(j + 1)).len(),
{
    let upto = s.take(x + 1);
    assert(upto.drop_last() =~= s.take(x));
    assert(upto.last() == s[x]);
    let m = lemma_rule_pair(s[x].rules@, j, k);
    lemma_profiles_prefix(s, x + 1);
    let n = crate::dns::resolver::profiles_pairs(s.take(x)).len() + m;
    assert(crate::dns::resolver::profiles_pairs(s)[n] == crate::dns::resolver::profiles_pairs(
        upto,
    )[n]);
    (n, m)
}

/// Which domain of which rule of which profile a pair is for.
proof fn lemma_pair_from(s: Seq<Profile>, n: int) -> (o: (int, int, int))
    requires
        0 <= n < crate::dns::resolver::profiles_pairs(s).len(),
    ensures
        0 <= o.0 < s.len(),
        0 <= o.1 < s[o.0].rules@.len(),
        s[o.0].rules@[o.1].enabled,
        s[o.0].rules@[o.1].ip is Some,
        0 <= o.2 < s[o.0].rules@[o.1].domains@.len(),
        crate::dns::resolver::profiles_pairs(s)[n] == (
            s[o.0].rules@[o.1].domains@[o.2]@,
            s[o.0].rules@[o.1].ip->0,
        ),
        crate::dns::resolver::profiles_pairs(s.take(o.0)).len()
            + crate::dns::resolver::rules_pairs(s[o.0].rules@.take(o.1)).len() <= n,
    decreases s.len(),
{
    let head = s.drop_last();
    let m = crate::dns::resolver::profiles_pairs(head).len();
    if n < m {
        let o = lemma_pair_from(head, n);
        assert(head[o.0] == s[o.0]);
        assert(head.take(o.0) =~= s.take(o.0));
        o
    } else {
        let o = lemma_rule_of_pair(s.last().rules@, n - m);
        assert(s.take(s.len() - 1) =~= head);
        (s.len() - 1, o.0, o.1)
    }
}

/// The table holds what is paired, each name with the address of its first pair.
proof fn lemma_first_wins(pairs: Seq<(Seq<char>, crate::net::IpAddr)>, d: Seq<char>)
    ensures
        crate::dns::resolver::first_wins(pairs).contains_key(d) <==> exists|n: int|
            0 <= n < pairs.len() && (#[trigger] pairs[n]).0 == d,
        crate::dns::resolver::first_wins(pairs).contains_key(d) ==> exists|n: int|
            #![trigger pairs[n]]
            0 <= n < pairs.len() && pairs[n].0 == d && pairs[n].1
                == crate::dns::resolver::first_wins(pairs)[d] && forall|m: int|
                0 <= m < n ==> (#[trigger] pairs[m]).0 != d,
    decreases pairs.len(),
{
    if pairs.len() > 0 {
        let head = pairs.drop_last();
        let t = crate::dns::resolver::first_wins(head);
        lemma_first_wins(head, d);
        lemma_first_wins(head, pairs.last().0);
        if t.contains_key(d) {
            let n = choose|n: int|
                #![trigger head[n]]
                0 <= n < head.len() && head[n].0 == d && head[n].1 == t[d] && forall|m: int|
                    0 <= m < n ==> (#[trigger] head[m]).0 != d;
            assert(pairs[n] == head[n]);
            assert forall|m: int| 0 <= m < n implies (#[trigger] pairs[m]).0 != d by {
                assert(head[m] == pairs[m]);
            }
        } else {
            assert forall|m: int| 0 <= m < head.len() implies (#[trigger] pairs[m]).0 != d by {
                assert(head[m] == pairs[m]);
            }
            if pairs.last().0 == d {
                assert(pairs[pairs.len() - 1].0 == d);
            } else {
                assert forall|m: int| 0 <= m < pairs.len() implies (#[trigger] pairs[m]).0
                    != d by {}
            }
        }
    }
}

/// Every name that a rule in force of an enabled profile in DNS mode gives an address to has
/// one; and it is this one, if no other rule in force of such a profile names it.
pub proof fn every_dns_rule_counts(profiles: Seq<Profile>, i: int, j: int, k: int)
    requires
        0 <= i < profiles.len(),
        profiles[i].enabled,
        profiles[i].mode == ProfileMode::Dns,
        0 <= j < profiles[i].rules@.len(),
        profiles[i].rules@[j].enabled,
        profiles[i].rules@[j].ip is Some,
        0 <= k < profiles[i].rules@[j].domains@.len(),
    ensures
        crate::dns::resolver::dns_rules(profiles).contains_key(
            profiles[i].rules@[j].domains@[k]@,
        ),
        (forall|p: int, q: int, m: int|
            #![trigger profiles[p].rules@[q].domains@[m]]
            0 <= p < profiles.len() && profiles[p].enabled && profiles[p].mode == ProfileMode::Dns
                && 0 <= q < profiles[p].rules@.len() && profiles[p].rules@[q].enabled
                && profiles[p].rules@[q].ip is Some && 0 <= m
                < profiles[p].rules@[q].domains@.len() && profiles[p].rules@[q].domains@[m]@
                == profiles[i].rules@[j].domains@[k]@ ==> p == i && q == j) ==> Some(
            crate::dns::resolver::dns_rules(profiles)[profiles[i].rules@[j].domains@[k]@],
        ) == profiles[i].rules@[j].ip,
{
    let d = profiles[i].rules@[j].domains@[k]@;
    let v = lemma_sorted_places(profiles);
    let s = crate::dns::resolver::by_name(crate::dns::resolver::active(profiles));
    let pairs = crate::dns::resolver::profiles_pairs(s);
    assert(v.contains(i));
    let x = choose|x: int| 0 <= x < v.len() && v[x] == i;
    assert(s[x] == profiles[v[x]]);
    let o = lemma_pair_at(s, x, j, k);
    lemma_first_wins(pairs, d);
    assert(pairs[o.0].0 == d);
    let w = the_first_dns_rule_counts(profiles, d);
    assert(profiles[w.0].rules@[w.1].domains@[w.2]@ == d);
}

/// The address of a name is that of a rule in force of an enabled profile in DNS mode that
/// names it, and of no rule that comes before: neither one of a profile with an earlier name,
/// nor, of profiles with the same name, of an earlier one, nor an earlier one of its profile.
pub proof fn the_first_dns_rule_counts(profiles: Seq<Profile>, d: Seq<char>) -> (o: (
    int,
    int,
    int,
))
    requires
        crate::dns::resolver::dns_rules(profiles).contains_key(d),
    ensures
        0 <= o.0 < profiles.len(),
        profiles[o.0].enabled,
        profiles[o.0].mode == ProfileMode::Dns,
        0 <= o.1 < profiles[o.0].rules@.len(),
        profiles[o.0].rules@[o.1].enabled,
        profiles[o.0].rules@[o.1].ip == Some(crate::dns::resolver::dns_rules(profiles)[d]),
        0 <= o.2 < profiles[o.0].rules@[o.1].domains@.len(),
        profiles[o.0].rules@[o.1].domains@[o.2]@ == d,
        forall|i: int, j: int, k: int|
            #![trigger profiles[i].rules@[j].domains@[k]]
            0 <= i < profiles.len() && profiles[i].enabled && profiles[i].mode == ProfileMode::Dns
                && 0 <= j < profiles[i].rules@.len() && profiles[i].rules@[j].enabled
                && profiles[i].rules@[j].ip is Some && 0 <= k
                < profiles[i].rules@[j].domains@.len() && profiles[i].rules@[j].domains@[k]@ == d
                ==> !crate::order::text_lt(profiles[i].name@, profiles[o.0].name@) && (
            profiles[i].name@ == profiles[o.0].name@ ==> o.0 <= i && (i == o.0 ==> o.1 <= j)),
{
    let v = lemma_sorted_places(profiles);
    let s = crate::dns::resolver::by_name(crate::dns::resolver::active(profiles));
    let pairs = crate::dns::resolver::profiles_pairs(s);
    lemma_first_wins(pairs, d);
    let n = choose|n: int|
        #![trigger pairs[n]]
        0 <= n < pairs.len() && pairs[n].0 == d && pairs[n].1
            == crate::dns::resolver::first_wins(pairs)[d] && forall|m: int|
            0 <= m < n ==> (#[trigger] pairs[m]).0 != d;
    let w = lemma_pair_from(s, n);
    let place = v[w.0];
    assert(s[w.0] == profiles[place]);
    assert forall|i: int, j: int, k: int|
        #![trigger profiles[i].rules@[j].domains@[k]]
        0 <= i < profiles.len() && profiles[i].enabled && profiles[i].mode == ProfileMode::Dns && 0
            <= j < profiles[i].rules@.len() && profiles[i].rules@[j].enabled
            && profiles[i].rules@[j].ip is Some && 0 <= k < profiles[i].rules@[j].domains@.len()
            && profiles[i].rules@[j].domains@[k]@ == d implies !crate::order::text_lt(
        profiles[i].name@,
        profiles[place].name@,
    ) && (profiles[i].name@ == profiles[place].name@ ==> place <= i && (i == place ==> w.1
        <= j)) by {
        assert(v.contains(i));
        let x = choose|x: int| 0 <= x < v.len() && v[x] == i;
        assert(s[x] == profiles[v[x]]);
        let o = lemma_pair_at(s, x, j, k);
        assert(pairs[o.0].0 == d);
        assert(n <= o.0);
        crate::order::lemma_irreflexive(profiles[i].name@);
        if x < w.0 {
            lemma_profiles_prefix(s.take(w.0), x + 1);
            assert(s.take(w.0).take(x + 1) =~= s.take(x + 1));
        } else if x > w.0 {
            assert(goes_before(profiles, v[w.0], v[x]));
            if crate::order::text_lt(profiles[i].name@, profiles[place].name@)
                && crate::order::text_lt(profiles[place].name@, profiles[i].name@) {
                crate::order::lemma_transitive(
                    profiles[i].name@,
                    profiles[place].name@,
                    profiles[i].name@,
                );
            }
        } else if j < w.1 {
            let rules = profiles[i].rules@;
            lemma_rules_prefix(rules.take(w.1), j + 1);
            assert(rules.take(w.1).take(j + 1) =~= rules.take(j + 1));
        }
    }
    (place, w.1, w.2)
}

} // verus!
