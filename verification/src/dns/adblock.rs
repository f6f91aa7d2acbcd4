//! The ad blocker: which domains are blocked, and how a blocked domain is answered.
use vstd::prelude::*;
use vstd::hash_map::StringHashMap;
use vstd::hash_set::StringHashSet;
use vstd::string::*;

use crate::dns::matcher::walk_parents;
use crate::net::IpAddr;

verus! {

broadcast use {
    vstd::string::group_string_axioms,
    vstd::hash_map::group_hash_map_axioms,
    vstd::hash_set::group_hash_set_axioms,
};

/// How a blocked domain is answered.
#[derive(Debug, Clone, Copy, PartialEq, Eq, Structural)]
pub enum AdBlockAction {
    /// With this address.
    ZeroAddress(IpAddr),
    /// As a domain that does not exist.
    NxDomain,
}

/// The rules of an ad blocker.
#[verifier::ext_equal]
pub struct BlockRules {
    pub zero_addr: Map<Seq<char>, IpAddr>,
    pub nxdomain: Set<Seq<char>>,
    pub whitelist: Set<Seq<char>>,
}

/// The rules of an ad blocker: domains answered with an address, domains answered as
/// not existing, and domains that are never blocked.
pub struct AdBlockEngine {
    zero_addr: StringHashMap<IpAddr>,
    nxdomain: StringHashSet,
    whitelist: StringHashSet,
}

impl View for AdBlockEngine {
    type V = BlockRules;

    closed spec fn view(&self) -> BlockRules {
        BlockRules {
            zero_addr: self.zero_addr@,
            nxdomain: self.nxdomain@,
            whitelist: self.whitelist@,
        }
    }
}

/// Whether a set holds one of some candidates.
pub open spec fn listed(s: Set<Seq<char>>, candidates: Seq<Seq<char>>) -> bool {
    exists|k: int| 0 <= k < candidates.len() && s.contains(#[trigger] candidates[k])
}

/// The table of a list of pairs; of pairs with one domain the last counts.
pub open spec fn table(pairs: Seq<(String, IpAddr)>) -> Map<Seq<char>, IpAddr>
    decreases pairs.len(),
{
    if pairs.len() == 0 {
        Map::empty()
    } else {
        table(pairs.drop_last()).insert(pairs.last().0@, pairs.last().1)
    }
}

/// What the rules say of a domain and its parents: nothing where one of them is never
/// blocked; otherwise that it does not exist, where one of them is answered so; and
/// otherwise the address of the nearest that has one.
pub open spec fn verdict(rules: BlockRules, domain: Seq<char>) -> Option<AdBlockAction> {
    let c = crate::dns::matcher::parents(domain);
    if listed(rules.whitelist, c) {
        None
    } else if listed(rules.nxdomain, c) {
        Some(AdBlockAction::NxDomain)
    } else {
        match crate::dns::matcher::nearest(rules.zero_addr, c) {
            Some(ip) => Some(AdBlockAction::ZeroAddress(ip)),
            None => None,
        }
    }
}

/// A walk with a predicate that asks a set tells whether it holds a candidate.
proof fn lemma_walk_is_listed<F: Fn(&str) -> Option<bool>>(
    predicate: F,
    s: Set<Seq<char>>,
    candidates: Seq<Seq<char>>,
    r: Option<bool>,
    k: int,
)
    requires
        crate::dns::matcher::walked(predicate, candidates, r, k),
        forall|t: &str, o: Option<bool>| #[trigger]
            call_ensures(predicate, (t,), o) ==> (o is Some <==> s.contains(t@)),
    ensures
        r is Some <==> listed(s, candidates),
{
    if r is Some {
        assert(crate::dns::matcher::can_answer(predicate, candidates[k], r));
        let t = choose|t: &str| t@ == candidates[k] && #[trigger] call_ensures(predicate, (t,), r);
        assert(s.contains(candidates[k]));
    } else if listed(s, candidates) {
        let j = choose|j: int| 0 <= j < candidates.len() && s.contains(#[trigger] candidates[j]);
        assert(crate::dns::matcher::can_answer(predicate, candidates[j], None));
        let t = choose|t: &str|
            t@ == candidates[j] && #[trigger] call_ensures(predicate, (t,), None::<bool>);
        assert(!s.contains(candidates[j]));
    }
}

/// Whether the set holds the domain or one of its parents.
fn holds_parent(s: &StringHashSet, domain: &str) -> (r: bool)
    ensures
        r == listed(s@, crate::dns::matcher::parents(domain@)),
{
    let predicate = |d: &str| -> (o: Option<bool>)
        ensures
            o is Some <==> s@.contains(d@),
        {
            if s.contains(d) {
                Some(true)
            } else {
                None
            }
        };
    let r = walk_parents(domain, predicate);
    proof {
        let c = crate::dns::matcher::parents(domain@);
        let k = choose|k: int| #[trigger] crate::dns::matcher::walked(predicate, c, r, k);
        lemma_walk_is_listed(predicate, s@, c, r, k);
    }
    r.is_some()
}

/// The address of the domain or of its nearest parent that has one.
pub fn nearest_address(table: &StringHashMap<IpAddr>, domain: &str) -> (r: Option<IpAddr>)
    ensures
        r == crate::dns::matcher::nearest(table@, crate::dns::matcher::parents(domain@)),
{
    let predicate = |d: &str| -> (o: Option<IpAddr>)
        ensures
            o == (if table@.contains_key(d@) {
                Some(table@[d@])
            } else {
                None
            }),
        {
            match table.get(d) {
                Some(ip) => Some(*ip),
                None => None,
            }
        };
    let r = walk_parents(domain, predicate);
    proof {
        let c = crate::dns::matcher::parents(domain@);
        let k = choose|k: int| #[trigger] crate::dns::matcher::walked(predicate, c, r, k);
        crate::dns::matcher::lemma_walk_is_nearest(predicate, table@, c, r, k);
    }
    r
}

/// The set of some texts.
fn set_of(v: Vec<String>) -> (r: StringHashSet)
    ensures
        r@ == crate::text::texts(v@).to_set(),
{
    let mut s = StringHashSet::new();
    let ghost t = crate::text::texts(v@);
    let mut i: usize = 0;
    assert(s@ =~= t.take(0).to_set());
    while i < v.len()
        invariant
            i <= v@.len(),
            t == crate::text::texts(v@),
            s@ == t.take(i as int).to_set(),
        decreases v.len() - i,
    {
        s.insert(v[i].clone());
        proof {
            crate::order::lemma_take_set(t, i as int);
        }
        i = i + 1;
    }
    assert(t.take(i as int) =~= t);
    s
}

impl AdBlockEngine {
    /// An ad blocker without rules.
    pub fn new() -> (r: Self)
        ensures
            r@ == (BlockRules {
                zero_addr: Map::empty(),
                nxdomain: Set::empty(),
                whitelist: Set::empty(),
            }),
    {
        AdBlockEngine {
            zero_addr: StringHashMap::new(),
            nxdomain: StringHashSet::new(),
            whitelist: StringHashSet::new(),
        }
    }

    /// Replaces all rules.
    pub fn rebuild(
        &mut self,
        zero_addr_rules: Vec<(String, IpAddr)>,
        nxdomain_rules: Vec<String>,
        whitelist: Vec<String>,
    )
        ensures
            final(self)@ == (BlockRules {
                zero_addr: table(zero_addr_rules@),
                nxdomain: crate::text::texts(nxdomain_rules@).to_set(),
                whitelist: crate::text::texts(whitelist@).to_set(),
            }),
            forall|i: int|
                0 <= i < zero_addr_rules@.len() ==> final(self)@.zero_addr.contains_key(
                    (#[trigger] zero_addr_rules@[i]).0@,
                ),
            forall|i: int|
                0 <= i < zero_addr_rules@.len() && (forall|j: int|
                    i < j < zero_addr_rules@.len() ==> (#[trigger] zero_addr_rules@[j]).0@
                        != zero_addr_rules@[i].0@) ==> final(self)@.zero_addr[(
                #[trigger] zero_addr_rules@[i]).0@] == zero_addr_rules@[i].1,
            forall|d: Seq<char>| #[trigger]
                final(self)@.zero_addr.contains_key(d) ==> exists|i: int|
                    0 <= i < zero_addr_rules@.len() && (#[trigger] zero_addr_rules@[i]).0@ == d,
            forall|d: Seq<char>| #[trigger]
                final(self)@.nxdomain.contains(d) <==> exists|i: int|
                    0 <= i < nxdomain_rules@.len() && (#[trigger] nxdomain_rules@[i])@ == d,
            forall|d: Seq<char>| #[trigger]
                final(self)@.whitelist.contains(d) <==> exists|i: int|
                    0 <= i < whitelist@.len() && (#[trigger] whitelist@[i])@ == d,
    {
        proof {
            every_pair_is_in_the_table(zero_addr_rules@);
            lemma_texts_set(nxdomain_rules@);
            lemma_texts_set(whitelist@);
        }
        let mut zero: StringHashMap<IpAddr> = StringHashMap::new();
        let mut i: usize = 0;
        while i < zero_addr_rules.len()
            invariant
                i <= zero_addr_rules@.len(),
                zero@ == table(zero_addr_rules@.take(i as int)),
            decreases zero_addr_rules.len() - i,
        {
            assert(zero_addr_rules@.take(i + 1).drop_last() =~= zero_addr_rules@.take(i as int));
            zero.insert(zero_addr_rules[i].0.clone(), zero_addr_rules[i].1);
            i = i + 1;
        }
        assert(zero_addr_rules@.take(i as int) =~= zero_addr_rules@);
        self.zero_addr = zero;
        self.nxdomain = set_of(nxdomain_rules);
        self.whitelist = set_of(whitelist);
    }

    /// How a query for `domain` is answered, if it is blocked.
    pub fn check(&self, domain: &str) -> (r: Option<AdBlockAction>)
        ensures
            r == verdict(self@, domain@),
    {
        if self.zero_addr.is_empty() && self.nxdomain.is_empty() {
            proof {
                let c = crate::dns::matcher::parents(domain@);
                lemma_nothing_near(self.zero_addr@, c);
                assert(!listed(self.nxdomain@, c));
            }
            return None;
        }
        if holds_parent(&self.whitelist, domain) {
            return None;
        }
        if holds_parent(&self.nxdomain, domain) {
            return Some(AdBlockAction::NxDomain);
        }
        match nearest_address(&self.zero_addr, domain) {
            Some(ip) => Some(AdBlockAction::ZeroAddress(ip)),
            None => None,
        }
    }

    /// The number of all rules, those that forbid blocking included. It must fit the
    /// machine's integers.
    pub fn rule_count(&self) -> (r: usize)
        requires
            self@.zero_addr.dom().len() + self@.nxdomain.len() + self@.whitelist.len()
                <= usize::MAX,
        ensures
            r == self@.zero_addr.dom().len() + self@.nxdomain.len() + self@.whitelist.len(),
    {
        self.zero_addr.len() + self.nxdomain.len() + self.whitelist.len()
    }

    /// The number of domains that are never blocked.
    pub fn whitelist_size(&self) -> (r: usize)
        ensures
            r == self@.whitelist.len(),
    {
        self.whitelist.len()
    }

    /// The number of domains that are answered with an address.
    pub fn zero_addr_count(&self) -> (r: usize)
        ensures
            r == self@.zero_addr.dom().len(),
    {
        self.zero_addr.len()
    }

    /// The number of domains that are answered as not existing.
    pub fn nxdomain_count(&self) -> (r: usize)
        ensures
            r == self@.nxdomain.len(),
    {
        self.nxdomain.len()
    }
}

impl Default for AdBlockEngine {
    fn default() -> (r: Self)
        ensures
            r@ == (BlockRules {
                zero_addr: Map::empty(),
                nxdomain: Set::empty(),
                whitelist: Set::empty(),
            }),
    {
        AdBlockEngine::new()
    }
}

/// The set of some texts holds each of them, and nothing else.
proof fn lemma_texts_set(v: Seq<String>)
    ensures
        forall|d: Seq<char>| #[trigger]
            crate::text::texts(v).to_set().contains(d) <==> exists|i: int|
                0 <= i < v.len() && (#[trigger] v[i])@ == d,
{
    let t = crate::text::texts(v);
    assert forall|d: Seq<char>| #[trigger] t.to_set().contains(d) <==> exists|i: int|
        0 <= i < v.len() && (#[trigger] v[i])@ == d by {
        if t.contains(d) {
            let i = choose|i: int| 0 <= i < t.len() && t[i] == d;
            assert(v[i]@ == d);
        }
        if exists|i: int| 0 <= i < v.len() && (#[trigger] v[i])@ == d {
            let i = choose|i: int| 0 <= i < v.len() && (#[trigger] v[i])@ == d;
            assert(t[i] == d);
        }
    }
}

/// An empty table answers nothing.
proof fn lemma_nothing_near(m: Map<Seq<char>, IpAddr>, c: Seq<Seq<char>>)
    requires
        m.is_empty(),
    ensures
        crate::dns::matcher::nearest(m, c) is None,
    decreases c.len(),
{
    if c.len() > 0 {
        lemma_nothing_near(m, c.skip(1));
    }
}

/// A domain that is never blocked is not blocked, and neither is any domain under it,
/// whatever else is registered.
pub proof fn whitelist_wins(rules: BlockRules, domain: Seq<char>, k: int)
    requires
        0 <= k < crate::dns::matcher::parents(domain).len(),
        rules.whitelist.contains(crate::dns::matcher::parents(domain)[k]),
    ensures
        verdict(rules, domain) is None,
{
}

/// Where a domain or one of its parents is answered as not existing, that goes before
/// any address.
pub proof fn nxdomain_goes_first(rules: BlockRules, domain: Seq<char>, k: int)
    requires
        0 <= k < crate::dns::matcher::parents(domain).len(),
        rules.nxdomain.contains(crate::dns::matcher::parents(domain)[k]),
        !listed(rules.whitelist, crate::dns::matcher::parents(domain)),
    ensures
        verdict(rules, domain) == Some(AdBlockAction::NxDomain),
{
}

/// Without rules that block, nothing is blocked.
pub proof fn no_rules_no_blocking(rules: BlockRules, domain: Seq<char>)
    requires
        rules.zero_addr.is_empty(),
        rules.nxdomain.is_empty(),
    ensures
        verdict(rules, domain) is None,
{
    lemma_nothing_near(rules.zero_addr, crate::dns::matcher::parents(domain));
}

/// A blocked domain blocks every domain under it, unless that is never blocked.
pub proof fn blocking_covers_subdomains(rules: BlockRules, sub: Seq<char>, domain: Seq<char>)
    requires
        rules.zero_addr.contains_key(domain) || rules.nxdomain.contains(domain),
        !listed(rules.whitelist, crate::dns::matcher::parents(sub + seq!['.'] + domain)),
    ensures
        verdict(rules, sub + seq!['.'] + domain) is Some,
{
    let s = sub + seq!['.'] + domain;
    if rules.zero_addr.contains_key(domain) {
        crate::dns::matcher::an_entry_covers_subdomains(rules.zero_addr, sub, domain);
    } else {
        crate::dns::matcher::parents_follow_dots(s);
        let n = sub.len() as int + 1;
        assert(crate::dns::matcher::starts_parent(s, n));
        assert(s.skip(n) =~= domain);
        assert(crate::dns::matcher::parents(s).contains(domain));
    }
}

/// Every listed domain is in the table, with the address of the last pair that has it; and
/// nothing else is.
pub proof fn every_pair_is_in_the_table(pairs: Seq<(String, IpAddr)>)
    ensures
        forall|i: int|
            0 <= i < pairs.len() ==> table(pairs).contains_key((#[trigger] pairs[i]).0@),
        forall|i: int|
            0 <= i < pairs.len() && (forall|j: int|
                i < j < pairs.len() ==> (#[trigger] pairs[j]).0@ != pairs[i].0@) ==> table(
                pairs,
            )[(#[trigger] pairs[i]).0@] == pairs[i].1,
        forall|d: Seq<char>| #[trigger]
            table(pairs).contains_key(d) ==> exists|i: int|
                0 <= i < pairs.len() && (#[trigger] pairs[i]).0@ == d,
    decreases pairs.len(),
{
    if pairs.len() > 0 {
        let head = pairs.drop_last();
        let last = pairs.len() - 1;
        every_pair_is_in_the_table(head);
        assert forall|i: int| 0 <= i < pairs.len() implies table(pairs).contains_key(
            (#[trigger] pairs[i]).0@,
        ) by {
            if i < last {
                assert(head[i] == pairs[i]);
            }
        }
        assert forall|i: int|
            0 <= i < pairs.len() && (forall|j: int|
                i < j < pairs.len() ==> (#[trigger] pairs[j]).0@ != pairs[i].0@) implies table(
            pairs,
        )[(#[trigger] pairs[i]).0@] == pairs[i].1 by {
            if i < last {
                assert(head[i] == pairs[i]);
                assert(pairs[last].0@ != pairs[i].0@);
                assert forall|j: int| i < j < head.len() implies (#[trigger] head[j]).0@
                    != head[i].0@ by {
                    assert(head[j] == pairs[j]);
                }
            }
        }
        assert forall|d: Seq<char>| #[trigger] table(pairs).contains_key(d) implies exists|i: int|
            0 <= i < pairs.len() && (#[trigger] pairs[i]).0@ == d by {
            if d == pairs[last].0@ {
            } else {
                assert(table(head).contains_key(d));
                let i = choose|i: int| 0 <= i < head.len() && (#[trigger] head[i]).0@ == d;
                assert(pairs[i] == head[i]);
            }
        }
    }
}

/// Whether one of some domains is a name or follows one of its dots.
proof fn lemma_listed(s: Set<Seq<char>>, domain: Seq<char>)
    ensures
        listed(s, crate::dns::matcher::parents(domain)) <==> exists|n: int|
            0 <= n <= domain.len() && (n == 0 || domain[n - 1] == '.') && s.contains(
                #[trigger] domain.skip(n),
            ),
{
    let c = crate::dns::matcher::parents(domain);
    crate::dns::matcher::parents_follow_dots(domain);
    if listed(s, c) {
        let k = choose|k: int| 0 <= k < c.len() && s.contains(#[trigger] c[k]);
        let n = choose|n: int| #[trigger]
            crate::dns::matcher::starts_parent(domain, n) && domain.skip(n) == c[k];
        assert(s.contains(domain.skip(n)));
    }
    if exists|n: int|
        0 <= n <= domain.len() && (n == 0 || domain[n - 1] == '.') && s.contains(
            #[trigger] domain.skip(n),
        ) {
        let n = choose|n: int|
            0 <= n <= domain.len() && (n == 0 || domain[n - 1] == '.') && s.contains(
                #[trigger] domain.skip(n),
            );
        assert(crate::dns::matcher::starts_parent(domain, n));
        assert(c.contains(domain.skip(n)));
        let k = choose|k: int| 0 <= k < c.len() && c[k] == domain.skip(n);
        assert(s.contains(c[k]));
    }
}

/// What the rules say of a domain, by its parts: the domain itself and what follows each of
/// its dots. If a part is never blocked, nothing is. Else, if a part is answered as not
/// existing, so is the domain. Else the longest part that has an address gives it, and
/// without one the domain is not blocked.
pub proof fn parts_decide(rules: BlockRules, domain: Seq<char>)
    ensures
        (exists|n: int|
            0 <= n <= domain.len() && (n == 0 || domain[n - 1] == '.') && rules.whitelist.contains(
                #[trigger] domain.skip(n),
            )) ==> verdict(rules, domain) is None,
        (forall|n: int|
            0 <= n <= domain.len() && (n == 0 || domain[n - 1] == '.')
                ==> !rules.whitelist.contains(#[trigger] domain.skip(n))) && (exists|n: int|
            0 <= n <= domain.len() && (n == 0 || domain[n - 1] == '.') && rules.nxdomain.contains(
                #[trigger] domain.skip(n),
            )) ==> verdict(rules, domain) == Some(AdBlockAction::NxDomain),
        forall|n: int|
            0 <= n <= domain.len() && (n == 0 || domain[n - 1] == '.')
                && rules.zero_addr.contains_key(#[trigger] domain.skip(n)) && (forall|k: int|
                0 <= k <= domain.len() && (k == 0 || domain[k - 1] == '.')
                    ==> !rules.whitelist.contains(#[trigger] domain.skip(k))
                    && !rules.nxdomain.contains(domain.skip(k)) && (k < n
                    ==> !rules.zero_addr.contains_key(domain.skip(k)))) ==> verdict(rules, domain)
                == Some(AdBlockAction::ZeroAddress(rules.zero_addr[domain.skip(n)])),
        (forall|n: int|
            0 <= n <= domain.len() && (n == 0 || domain[n - 1] == '.')
                ==> !rules.nxdomain.contains(#[trigger] domain.skip(n))
                && !rules.zero_addr.contains_key(domain.skip(n))) ==> verdict(rules, domain)
            is None,
{
    lemma_listed(rules.whitelist, domain);
    lemma_listed(rules.nxdomain, domain);
    assert forall|n: int|
        0 <= n <= domain.len() && (n == 0 || domain[n - 1] == '.')
            && rules.zero_addr.contains_key(#[trigger] domain.skip(n)) && (forall|k: int|
            0 <= k <= domain.len() && (k == 0 || domain[k - 1] == '.')
                ==> !rules.whitelist.contains(#[trigger] domain.skip(k))
                && !rules.nxdomain.contains(domain.skip(k)) && (k < n
                ==> !rules.zero_addr.contains_key(domain.skip(k)))) implies verdict(rules, domain)
        == Some(AdBlockAction::ZeroAddress(rules.zero_addr[domain.skip(n)])) by {
        crate::dns::matcher::the_longest_part_answers(rules.zero_addr, domain, n);
    }
    if forall|n: int|
        0 <= n <= domain.len() && (n == 0 || domain[n - 1] == '.') ==> !rules.nxdomain.contains(
            #[trigger] domain.skip(n),
        ) && !rules.zero_addr.contains_key(domain.skip(n)) {
        crate::dns::matcher::no_part_no_answer(rules.zero_addr, domain);
    }
}

/// A listed pair answers for its domain: after the rules were replaced by some lists, the
/// domain of the pair is answered with its address, unless the domain or what follows one of
/// its dots is in one of the other lists, or a later pair has the same domain.
pub proof fn a_listed_pair_answers(
    pairs: Seq<(String, IpAddr)>,
    nx: Seq<String>,
    white: Seq<String>,
    rules: BlockRules,
    i: int,
)
    requires
        rules.zero_addr == table(pairs),
        rules.nxdomain == crate::text::texts(nx).to_set(),
        rules.whitelist == crate::text::texts(white).to_set(),
        0 <= i < pairs.len(),
        forall|j: int| i < j < pairs.len() ==> (#[trigger] pairs[j]).0@ != pairs[i].0@,
        forall|n: int, j: int|
            #![trigger pairs[i].0@.skip(n), nx[j]]
            0 <= n <= pairs[i].0@.len() && (n == 0 || pairs[i].0@[n - 1] == '.') && 0 <= j
                < nx.len() ==> nx[j]@ != pairs[i].0@.skip(n),
        forall|n: int, j: int|
            #![trigger pairs[i].0@.skip(n), white[j]]
            0 <= n <= pairs[i].0@.len() && (n == 0 || pairs[i].0@[n - 1] == '.') && 0 <= j
                < white.len() ==> white[j]@ != pairs[i].0@.skip(n),
    ensures
        verdict(rules, pairs[i].0@) == Some(AdBlockAction::ZeroAddress(pairs[i].1)),
{
    let d = pairs[i].0@;
    every_pair_is_in_the_table(pairs);
    lemma_texts_set(nx);
    lemma_texts_set(white);
    assert(d.skip(0) =~= d);
    assert forall|k: int| 0 <= k <= d.len() && (k == 0 || d[k - 1] == '.') implies !rules.whitelist.contains(
        #[trigger] d.skip(k),
    ) && !rules.nxdomain.contains(d.skip(k)) by {
        if rules.whitelist.contains(d.skip(k)) {
            let j = choose|j: int| 0 <= j < white.len() && (#[trigger] white[j])@ == d.skip(k);
            assert(white[j]@ != d.skip(k));
        }
        if rules.nxdomain.contains(d.skip(k)) {
            let j = choose|j: int| 0 <= j < nx.len() && (#[trigger] nx[j])@ == d.skip(k);
            assert(nx[j]@ != d.skip(k));
        }
    }
    parts_decide(rules, d);
    assert(rules.zero_addr.contains_key(d.skip(0)));
}

} // verus!
