//! Which words of a hosts file are domains, and which are meant as addresses.
use vstd::prelude::*;
use vstd::hash_map::StringHashMap;
use vstd::string::*;

use crate::models::{DuplicateKind, DuplicateRule, HostRule};
use crate::net::IpAddr;
use crate::text::{char_is_alnum, char_is_digit, find_char, split_at_char, to_chars};

verus! {

broadcast use {vstd::string::group_string_axioms, vstd::hash_map::group_hash_map_axioms};

/// A label of a domain: letters, digits and hyphens, not starting or ending with a
/// hyphen, and not digits alone.
pub open spec fn valid_label(l: Seq<char>) -> bool {
    &&& l.len() > 0
    &&& forall|i: int| 0 <= i < l.len() ==> crate::text::is_alnum(#[trigger] l[i]) || l[i] == '-'
    &&& l[0] != '-'
    &&& l.last() != '-'
    &&& !crate::text::is_number(l)
}

/// A domain: one or more labels with dots between them.
pub open spec fn valid_domain(s: Seq<char>) -> bool {
    forall|i: int|
        0 <= i < crate::text::split(s, '.').len() ==> valid_label(
            #[trigger] crate::text::split(s, '.')[i],
        )
}

/// A word that is meant as an IPv4 address: digits and dots only, with one of
/// each, and no dot at either end.
pub open spec fn dotted_digits(s: Seq<char>) -> bool {
    &&& forall|i: int| 0 <= i < s.len() ==> crate::text::is_digit(#[trigger] s[i]) || s[i] == '.'
    &&& s.contains('.')
    &&& exists|i: int| 0 <= i < s.len() && crate::text::is_digit(#[trigger] s[i])
    &&& s[0] != '.'
    &&& s.last() != '.'
}

/// A word that is meant as an address: it holds a colon, or digits and dots.
pub open spec fn address_like(s: Seq<char>) -> bool {
    s.contains(':') || dotted_digits(s)
}

/// Tests a label.
fn check_label(l: &[char]) -> (r: bool)
    ensures
        r == valid_label(l@),
{
    if l.len() == 0 || l[0] == '-' || l[l.len() - 1] == '-' {
        return false;
    }
    let mut digits = true;
    let mut i: usize = 0;
    while i < l.len()
        invariant
            i <= l@.len(),
            forall|j: int| 0 <= j < i ==> crate::text::is_alnum(#[trigger] l@[j]) || l@[j] == '-',
            digits == (forall|j: int| 0 <= j < i ==> crate::text::is_digit(#[trigger] l@[j])),
        decreases l.len() - i,
    {
        if !char_is_alnum(l[i]) && l[i] != '-' {
            return false;
        }
        if !char_is_digit(l[i]) {
            assert(!crate::text::is_digit(l@[i as int]));
            digits = false;
        }
        i = i + 1;
    }
    !digits
}

/// Whether `domain` is a domain: labels of letters, digits and hyphens with dots
/// between them, where no label is empty, starts or ends with a hyphen, or is made
/// of digits alone.
pub fn is_valid_domain(domain: &str) -> (r: bool)
    ensures
        r == valid_domain(domain@),
{
    let v = to_chars(domain);
    let labels = split_at_char(&v, '.');
    let ghost t = crate::text::split(domain@, '.');
    assert(t.len() == labels@.len());
    let mut i: usize = 0;
    while i < labels.len()
        invariant
            i <= labels@.len(),
            t == crate::text::vec_texts(labels@),
            t == crate::text::split(domain@, '.'),
            forall|j: int| 0 <= j < i ==> valid_label(#[trigger] t[j]),
        decreases labels.len() - i,
    {
        assert(t[i as int] == labels@[i as int]@);
        if !check_label(&labels[i]) {
            return false;
        }
        i = i + 1;
    }
    true
}

/// Whether `token` is meant as an address: it holds a colon, or it is made of
/// digits and dots, with at least one of each and no dot at either end.
pub fn looks_like_ip(token: &str) -> (r: bool)
    ensures
        r == address_like(token@),
{
    let v = to_chars(token);
    proof {
        crate::text::lemma_find(v@, ':');
        crate::text::lemma_find(v@, '.');
    }
    if find_char(&v, ':') < v.len() {
        return true;
    }
    if v.len() == 0 || v[0] == '.' || v[v.len() - 1] == '.' || find_char(&v, '.') == v.len() {
        return false;
    }
    let mut i: usize = 0;
    while i < v.len()
        invariant
            i <= v@.len(),
            v@ == token@,
            !v@.contains(':'),
            forall|j: int| 0 <= j < i ==> crate::text::is_digit(#[trigger] v@[j]) || v@[j] == '.',
        decreases v.len() - i,
    {
        if !char_is_digit(v[i]) && v[i] != '.' {
            return false;
        }
        i = i + 1;
    }
    assert(crate::text::is_digit(v@[0]));
    true
}

/// A domain consists of letters, digits, hyphens and dots, starts with a letter or
/// digit, and ends with one.
pub proof fn lemma_domain_chars(s: Seq<char>)
    requires
        valid_domain(s),
    ensures
        s.len() > 0,
        forall|i: int|
            0 <= i < s.len() ==> crate::text::is_alnum(#[trigger] s[i]) || s[i] == '-' || s[i]
                == '.',
        crate::text::is_alnum(s[0]),
        crate::text::is_alnum(s.last()),
    decreases s.len(),
{
    crate::text::lemma_find(s, '.');
    let n = crate::text::find(s, '.');
    let parts = crate::text::split(s, '.');
    assert(valid_label(parts[0]));
    if n < s.len() {
        let rest = s.skip(n + 1);
        assert forall|i: int| 0 <= i < crate::text::split(rest, '.').len() implies valid_label(
            #[trigger] crate::text::split(rest, '.')[i],
        ) by {
            assert(parts[i + 1] == crate::text::split(rest, '.')[i]);
        }
        lemma_domain_chars(rest);
        assert(s.last() == rest.last());
        assert(s[0] == parts[0][0]);
        assert forall|i: int| 0 <= i < s.len() implies crate::text::is_alnum(#[trigger] s[i])
            || s[i] == '-' || s[i] == '.' by {
            if i < n {
                assert(s[i] == parts[0][i]);
            } else if i > n {
                assert(s[i] == rest[i - n - 1]);
            }
        }
    } else {
        assert(parts[0] == s);
    }
}

// ---------------------------------------------------------------------------
// Duplicates
// ---------------------------------------------------------------------------
/// One domain of one line, with the address that the line gives to it.
#[verifier::ext_equal]
pub struct Mention {
    pub domain: Seq<char>,
    pub ip: IpAddr,
    pub line: usize,
}

/// The domains of one rule, where the rule is in force and its line is known.
pub open spec fn rule_mentions(r: crate::models::RuleFacts) -> Seq<Mention> {
    match (r.ip, r.line_number) {
        (Some(ip), Some(line)) => if r.enabled {
            Seq::new(r.domains.len(), |i: int| Mention { domain: r.domains[i], ip, line })
        } else {
            seq![]
        },
        _ => seq![],
    }
}

/// The domains of all rules, in order.
pub open spec fn mentions(rules: Seq<HostRule>) -> Seq<Mention>
    decreases rules.len(),
{
    if rules.len() == 0 {
        seq![]
    } else {
        mentions(rules.drop_last()) + rule_mentions(rules.last()@)
    }
}

/// The domains mentioned, each once, in the order of their first mention.
pub open spec fn domains_of(m: Seq<Mention>) -> Seq<Seq<char>>
    decreases m.len(),
{
    if m.len() == 0 {
        seq![]
    } else {
        let d = domains_of(m.drop_last());
        if d.contains(m.last().domain) {
            d
        } else {
            d.push(m.last().domain)
        }
    }
}

/// The lines that mention a domain, in order.
pub open spec fn lines_with(m: Seq<Mention>, domain: Seq<char>) -> Seq<usize>
    decreases m.len(),
{
    if m.len() == 0 {
        seq![]
    } else if m.last().domain == domain {
        lines_with(m.drop_last(), domain).push(m.last().line)
    } else {
        lines_with(m.drop_last(), domain)
    }
}

/// Whether all mentions of a domain give it the same address.
pub open spec fn agree(m: Seq<Mention>, domain: Seq<char>) -> bool {
    forall|i: int, j: int|
        #![trigger m[i], m[j]]
        0 <= i < m.len() && 0 <= j < m.len() && m[i].domain == domain && m[j].domain == domain
            ==> m[i].ip == m[j].ip
}

/// The domains of `d` that are mentioned more than once.
pub open spec fn repeated(d: Seq<Seq<char>>, m: Seq<Mention>) -> Seq<Seq<char>>
    decreases d.len(),
{
    if d.len() == 0 {
        seq![]
    } else if lines_with(m, d.last()).len() > 1 {
        repeated(d.drop_last(), m).push(d.last())
    } else {
        repeated(d.drop_last(), m)
    }
}

/// What a duplicate says of its domain.
pub open spec fn reports(r: DuplicateRule, domain: Seq<char>, m: Seq<Mention>) -> bool {
    &&& r.domain@ == domain
    &&& r.lines@ == lines_with(m, domain)
    &&& r.kind == if agree(m, domain) {
        DuplicateKind::SameIp
    } else {
        DuplicateKind::DifferentIp
    }
}

/// One domain under construction.
struct Group {
    domain: String,
    lines: Vec<usize>,
    ip: IpAddr,
    same: bool,
}

/// A group holds all that the mentions say of its domain.
spec fn group_ok(g: Group, m: Seq<Mention>) -> bool {
    &&& g.lines@ == lines_with(m, g.domain@)
    &&& g.lines@.len() > 0
    &&& exists|i: int| 0 <= i < m.len() && m[i].domain == g.domain@ && (#[trigger] m[i]).ip == g.ip
    &&& g.same == (forall|i: int|
        0 <= i < m.len() && (#[trigger] m[i]).domain == g.domain@ ==> m[i].ip == g.ip)
}

/// The groups and their index hold all that the mentions say.
spec fn groups_ok(groups: Seq<Group>, index: Map<Seq<char>, usize>, m: Seq<Mention>) -> bool {
    &&& groups.len() == domains_of(m).len()
    &&& forall|k: int|
        0 <= k < groups.len() ==> (#[trigger] groups[k]).domain@ == domains_of(m)[k] && group_ok(
            groups[k],
            m,
        )
    &&& forall|d: Seq<char>| #[trigger] index.contains_key(d) <==> domains_of(m).contains(d)
    &&& forall|d: Seq<char>| #[trigger] index.contains_key(d) ==> index[d] < groups.len()
        && groups[index[d] as int].domain@ == d
}

/// The domains mentioned are exactly those with a line.
pub(crate) proof fn lemma_domains_of(m: Seq<Mention>)
    ensures
        forall|d: Seq<char>| #[trigger]
            domains_of(m).contains(d) <==> lines_with(m, d).len() > 0,
        forall|i: int, j: int|
            0 <= i < j < domains_of(m).len() ==> domains_of(m)[i] != domains_of(m)[j],
    decreases m.len(),
{
    if m.len() > 0 {
        let init = m.drop_last();
        lemma_domains_of(init);
        let x = m.last().domain;
        let d0 = domains_of(init);
        assert forall|d: Seq<char>| #[trigger]
            domains_of(m).contains(d) <==> lines_with(m, d).len() > 0 by {
            assert(d0.contains(d) <==> lines_with(init, d).len() > 0);
            if !d0.contains(x) {
                let d1 = d0.push(x);
                assert(d1[d0.len() as int] == x);
                if d0.contains(d) {
                    let k = choose|k: int| 0 <= k < d0.len() && d0[k] == d;
                    assert(d1[k] == d);
                }
                if d1.contains(d) {
                    let k = choose|k: int| 0 <= k < d1.len() && d1[k] == d;
                    if k < d0.len() {
                        assert(d0[k] == d);
                    }
                }
            }
        }
        assert forall|i: int, j: int| 0 <= i < j < domains_of(m).len() implies domains_of(m)[i]
            != domains_of(m)[j] by {
            if !d0.contains(x) && j == d0.len() {
                assert(d0.contains(d0[i]));
            }
        }
    }
}

/// Records one more mention.
fn record(
    groups: &mut Vec<Group>,
    index: &mut StringHashMap<usize>,
    domain: &String,
    ip: IpAddr,
    line: usize,
    Ghost(m): Ghost<Seq<Mention>>,
)
    requires
        groups_ok(old(groups)@, old(index)@, m),
    ensures
        groups_ok(
            final(groups)@,
            final(index)@,
            m.push(Mention { domain: domain@, ip, line }),
        ),
{
    let ghost x = Mention { domain: domain@, ip, line };
    let ghost n = m.push(x);
    let ghost g0 = groups@;
    let ghost i0 = index@;
    proof {
        lemma_domains_of(m);
        lemma_domains_of(n);
        assert(n.drop_last() =~= m);
    }
    match index.get(domain.as_str()) {
        Some(k) => {
            let k: usize = *k;
            let ghost before = groups@[k as int];
            groups[k].lines.push(line);
            if groups[k].ip != ip {
                groups[k].same = false;
            }
            let ghost g = groups@[k as int];
            proof {
                let w = choose|i: int|
                    0 <= i < m.len() && m[i].domain == before.domain@ && (#[trigger] m[i]).ip
                        == before.ip;
                assert(n[w] == m[w]);
                assert(n[m.len() as int] == x);
                assert(g.same == (forall|i: int|
                    0 <= i < n.len() && (#[trigger] n[i]).domain == g.domain@ ==> n[i].ip
                        == g.ip)) by {
                    if before.same && x.ip == before.ip {
                        assert forall|i: int|
                            0 <= i < n.len() && (#[trigger] n[i]).domain == g.domain@ implies n[i].ip
                            == g.ip by {
                            if i < m.len() {
                                assert(n[i] == m[i]);
                            }
                        }
                    }
                    if !before.same {
                        let b = choose|i: int|
                            0 <= i < m.len() && (#[trigger] m[i]).domain == g.domain@ && m[i].ip
                                != g.ip;
                        assert(n[b] == m[b]);
                    }
                }
                assert(group_ok(g, n));
            }
            proof {
                assert(groups@ =~= g0.update(k as int, g));
                assert(domains_of(n) == domains_of(m));
                assert forall|j: int| 0 <= j < groups@.len() implies (#[trigger] groups@[j]).domain@
                    == domains_of(n)[j] && group_ok(groups@[j], n) by {
                    if j != k {
                        assert(groups@[j] == g0[j]);
                        assert(domains_of(m)[j] != domains_of(m)[k as int]);
                        lemma_group_unchanged(g0[j], m, x);
                    }
                }
            }
        },
        None => {
            let mut lines: Vec<usize> = Vec::new();
            lines.push(line);
            let k: usize = groups.len();
            let g = Group { domain: domain.clone(), lines, ip, same: true };
            proof {
                assert(!domains_of(m).contains(x.domain));
                assert(lines_with(m, x.domain).len() == 0);
                assert(lines_with(n, x.domain) =~= seq![line]);
                assert(n[m.len() as int] == x);
                assert forall|i: int| 0 <= i < n.len() && (#[trigger] n[i]).domain
                    == x.domain implies n[i].ip == ip by {
                    if i < m.len() {
                        lemma_lines_with_member(m, i);
                    }
                }
                assert(group_ok(g, n));
            }
            groups.push(g);
            index.insert(domain.clone(), k);
            proof {
                assert(domains_of(n) == domains_of(m).push(x.domain));
                assert forall|j: int| 0 <= j < groups@.len() implies (#[trigger] groups@[j]).domain@
                    == domains_of(n)[j] && group_ok(groups@[j], n) by {
                    if j < g0.len() {
                        assert(groups@[j] == g0[j]);
                        assert(domains_of(m).contains(domains_of(m)[j]));
                        lemma_group_unchanged(g0[j], m, x);
                    }
                }
                assert forall|d: Seq<char>| #[trigger]
                    index@.contains_key(d) <==> domains_of(n).contains(d) by {
                    let a = domains_of(m);
                    let b = domains_of(n);
                    assert(b[a.len() as int] == x.domain);
                    assert(i0.contains_key(d) <==> a.contains(d));
                    if a.contains(d) {
                        let q = choose|q: int| 0 <= q < a.len() && a[q] == d;
                        assert(b[q] == d);
                    }
                    if b.contains(d) {
                        let q = choose|q: int| 0 <= q < b.len() && b[q] == d;
                        if q < a.len() {
                            assert(a[q] == d);
                        }
                    }
                }
            }
        },
    }
}

/// A mention of another domain leaves a group as it is.
proof fn lemma_group_unchanged(g: Group, m: Seq<Mention>, x: Mention)
    requires
        group_ok(g, m),
        g.domain@ != x.domain,
    ensures
        group_ok(g, m.push(x)),
{
    let n = m.push(x);
    assert(n.drop_last() =~= m);
    let w = choose|i: int|
        0 <= i < m.len() && m[i].domain == g.domain@ && (#[trigger] m[i]).ip == g.ip;
    assert(n[w] == m[w]);
    if g.same {
        assert forall|i: int| 0 <= i < n.len() && (#[trigger] n[i]).domain == g.domain@ implies n[i].ip
            == g.ip by {
            if i < m.len() {
                assert(n[i] == m[i]);
            }
        }
    } else {
        let b = choose|i: int|
            0 <= i < m.len() && (#[trigger] m[i]).domain == g.domain@ && m[i].ip != g.ip;
        assert(n[b] == m[b]);
    }
}

/// A mention of a domain is among its lines.
proof fn lemma_lines_with_member(m: Seq<Mention>, i: int)
    requires
        0 <= i < m.len(),
    ensures
        lines_with(m, m[i].domain).len() > 0,
    decreases m.len(),
{
    if i < m.len() - 1 {
        lemma_lines_with_member(m.drop_last(), i);
        assert(m.drop_last()[i] == m[i]);
    }
}

/// The domains that the rules in force give an address to more than once, in the
/// order of their first mention, each with its lines and whether these agree.
/// Comment lines, rules that are switched off and rules without a known line take
/// no part.
pub fn check_duplicates(rules: &Vec<HostRule>) -> (r: Vec<DuplicateRule>)
    ensures
        ({
            let m = mentions(rules@);
            let d = repeated(domains_of(m), m);
            &&& r@.len() == d.len()
            &&& forall|k: int| 0 <= k < d.len() ==> reports(#[trigger] r@[k], d[k], m)
        }),
{
    let mut groups: Vec<Group> = Vec::new();
    let mut index: StringHashMap<usize> = StringHashMap::new();
    let ghost mut m: Seq<Mention> = seq![];
    let mut i: usize = 0;
    while i < rules.len()
        invariant
            i <= rules@.len(),
            m == mentions(rules@.take(i as int)),
            groups_ok(groups@, index@, m),
        decreases rules.len() - i,
    {
        let rule = &rules[i];
        let ghost base = m;
        proof {
            assert(rules@.take(i + 1).drop_last() =~= rules@.take(i as int));
        }
        match (rule.ip, rule.line_number) {
            (Some(ip), Some(line)) => {
                if rule.enabled {
                    let ghost all = rule_mentions(rule@);
                    let mut j: usize = 0;
                    assert(all.take(0) =~= seq![]);
                    assert(base + all.take(0) =~= base);
                    while j < rule.domains.len()
                        invariant
                            j <= rule.domains@.len(),
                            m == base + all.take(j as int),
                            all == rule_mentions(rule@),
                            rule.ip == Some(ip),
                            rule.line_number == Some(line),
                            rule.enabled,
                            groups_ok(groups@, index@, m),
                        decreases rule.domains.len() - j,
                    {
                        record(&mut groups, &mut index, &rule.domains[j], ip, line, Ghost(m));
                        proof {
                            m = m.push(Mention { domain: rule.domains@[j as int]@, ip, line });
                            assert(all[j as int] == (Mention {
                                domain: rule.domains@[j as int]@,
                                ip,
                                line,
                            }));
                            assert(m =~= base + all.take(j + 1));
                        }
                        j = j + 1;
                    }
                    assert(all.take(j as int) =~= all);
                } else {
                    assert(base + seq![] =~= base);
                }
            },
            _ => {
                assert(base + seq![] =~= base);
            },
        }
        i = i + 1;
    }
    assert(rules@.take(i as int) =~= rules@);
    let ghost d = domains_of(m);
    let mut out: Vec<DuplicateRule> = Vec::new();
    let mut k: usize = 0;
    assert(repeated(d.take(0), m) =~= seq![]);
    while k < groups.len()
        invariant
            k <= groups@.len(),
            d == domains_of(m),
            groups_ok(groups@, index@, m),
            out@.len() == repeated(d.take(k as int), m).len(),
            forall|q: int|
                0 <= q < out@.len() ==> reports(
                    #[trigger] out@[q],
                    repeated(d.take(k as int), m)[q],
                    m,
                ),
        decreases groups.len() - k,
    {
        let g = &groups[k];
        let ghost done = repeated(d.take(k as int), m);
        proof {
            assert(group_ok(*g, m));
            assert(d.take(k + 1).drop_last() =~= d.take(k as int));
            assert(d.take(k + 1).last() == g.domain@);
        }
        if g.lines.len() > 1 {
            let kind = if g.same {
                DuplicateKind::SameIp
            } else {
                DuplicateKind::DifferentIp
            };
            proof {
                let w = choose|i: int|
                    0 <= i < m.len() && m[i].domain == g.domain@ && (#[trigger] m[i]).ip == g.ip;
                if agree(m, g.domain@) {
                    assert forall|i: int|
                        0 <= i < m.len() && (#[trigger] m[i]).domain == g.domain@ implies m[i].ip
                        == g.ip by {
                        assert(m[w].domain == g.domain@);
                    }
                }
                assert(agree(m, g.domain@) == g.same);
            }
            let ghost before = out@;
            let lines = copy_lines(&g.lines);
            let dup = DuplicateRule { domain: g.domain.clone(), lines, kind };
            out.push(dup);
            proof {
                assert(repeated(d.take(k + 1), m) == done.push(g.domain@));
                assert forall|q: int| 0 <= q < out@.len() implies reports(
                    #[trigger] out@[q],
                    repeated(d.take(k + 1), m)[q],
                    m,
                ) by {
                    if q < before.len() {
                        assert(out@[q] == before[q]);
                    }
                }
            }
        }
        k = k + 1;
    }
    assert(d.take(k as int) =~= d);
    out
}

/// A copy of a list of line numbers.
fn copy_lines(v: &Vec<usize>) -> (r: Vec<usize>)
    ensures
        r@ == v@,
{
    let mut out: Vec<usize> = Vec::new();
    let mut i: usize = 0;
    while i < v.len()
        invariant
            i <= v@.len(),
            out@ == v@.take(i as int),
        decreases v.len() - i,
    {
        assert(v@.take(i + 1) =~= v@.take(i as int).push(v@[i as int]));
        out.push(v[i]);
        i = i + 1;
    }
    assert(v@.take(i as int) =~= v@);
    out
}

} // verus!
