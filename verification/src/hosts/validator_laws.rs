//! Which texts are domains and which are meant as addresses, said of characters.
use vstd::prelude::*;

use crate::hosts::validator::check_duplicates;
use crate::models::{DuplicateKind, DuplicateRule, HostRule};

verus! {

/// One or more labels with dots between them are a domain, whatever their letters and digits
/// are: each label holds letters, digits and hyphens, neither starts nor ends with a hyphen,
/// and holds something that is no digit.
pub proof fn labels_with_dots_are_a_domain(labels: Seq<Seq<char>>)
    requires
        labels.len() > 0,
        forall|m: int| 0 <= m < labels.len() ==> (#[trigger] labels[m]).len() > 0,
        forall|m: int, i: int|
            0 <= m < labels.len() && 0 <= i < labels[m].len() ==> ('a' <= (
            #[trigger] labels[m][i]) <= 'z') || ('A' <= labels[m][i] <= 'Z') || ('0' <= labels[m][i]
                <= '9') || labels[m][i] == '-',
        forall|m: int|
            0 <= m < labels.len() ==> (#[trigger] labels[m])[0] != '-' && labels[m][labels[m].len()
                - 1] != '-',
        forall|m: int|
            0 <= m < labels.len() ==> (#[trigger] labels[m]).len() > 0 && exists|i: int|
                0 <= i < labels[m].len() && !('0' <= (#[trigger] labels[m][i]) <= '9'),
    ensures
        crate::hosts::validator::valid_domain(crate::text::join(labels, seq!['.'])),
{
    let s = crate::text::join(labels, seq!['.']);
    assert forall|m: int| 0 <= m < labels.len() implies !(#[trigger] labels[m]).contains('.') by {
        if labels[m].contains('.') {
            let i = choose|i: int| 0 <= i < labels[m].len() && labels[m][i] == '.';
            assert(labels[m][i] == '.');
        }
    }
    crate::text::lemma_split_join(labels, '.');
    assert forall|m: int|
        0 <= m < crate::text::split(s, '.').len() implies crate::hosts::validator::valid_label(
        #[trigger] crate::text::split(s, '.')[m],
    ) by {
        let l = labels[m];
        assert forall|i: int| 0 <= i < l.len() implies crate::text::is_alnum(#[trigger] l[i])
            || l[i] == '-' by {
            assert(labels[m][i] == l[i]);
        }
        let i = choose|i: int| 0 <= i < labels[m].len() && !('0' <= (#[trigger] labels[m][i])
            <= '9');
        assert(!crate::text::is_digit(l[i]));
    }
}

/// A domain is one or more labels with dots between them, and each label is as it should be.
pub proof fn a_domain_is_labels_with_dots(s: Seq<char>) -> (labels: Seq<Seq<char>>)
    requires
        crate::hosts::validator::valid_domain(s),
    ensures
        labels.len() > 0,
        s == crate::text::join(labels, seq!['.']),
        forall|m: int| 0 <= m < labels.len() ==> (#[trigger] labels[m]).len() > 0,
        forall|m: int, i: int|
            0 <= m < labels.len() && 0 <= i < labels[m].len() ==> ('a' <= (
            #[trigger] labels[m][i]) <= 'z') || ('A' <= labels[m][i] <= 'Z') || ('0' <= labels[m][i]
                <= '9') || labels[m][i] == '-',
        forall|m: int|
            0 <= m < labels.len() ==> (#[trigger] labels[m])[0] != '-' && labels[m][labels[m].len()
                - 1] != '-',
        forall|m: int|
            0 <= m < labels.len() ==> (#[trigger] labels[m]).len() > 0 && exists|i: int|
                0 <= i < labels[m].len() && !('0' <= (#[trigger] labels[m][i]) <= '9'),
{
    let labels = crate::text::split(s, '.');
    crate::text::lemma_join_split(s, '.');
    assert forall|m: int, i: int| 0 <= m < labels.len() && 0 <= i < labels[m].len() implies ('a'
        <= (#[trigger] labels[m][i]) <= 'z') || ('A' <= labels[m][i] <= 'Z') || ('0'
        <= labels[m][i] <= '9') || labels[m][i] == '-' by {
        assert(crate::hosts::validator::valid_label(labels[m]));
        assert(crate::text::is_alnum(labels[m][i]) || labels[m][i] == '-');
    }
    assert forall|m: int| 0 <= m < labels.len() implies (#[trigger] labels[m]).len() > 0
        && exists|i: int|
        0 <= i < labels[m].len() && !('0' <= (#[trigger] labels[m][i]) <= '9') by {
        let l = labels[m];
        assert(crate::hosts::validator::valid_label(l));
        let i = choose|i: int| 0 <= i < l.len() && !crate::text::is_digit(#[trigger] l[i]);
        assert(!('0' <= labels[m][i] <= '9'));
    }
    assert forall|m: int| 0 <= m < labels.len() implies (#[trigger] labels[m]).len() > 0 by {
        assert(crate::hosts::validator::valid_label(labels[m]));
    }
    assert forall|m: int| 0 <= m < labels.len() implies (#[trigger] labels[m])[0] != '-'
        && labels[m][labels[m].len() - 1] != '-' by {
        assert(crate::hosts::validator::valid_label(labels[m]));
    }
    labels
}

/// A word with a colon is meant as an address; and one without is if it holds digits and dots
/// only, a dot among them, and has a digit at either end.
pub proof fn words_meant_as_addresses(s: Seq<char>)
    ensures
        (exists|i: int| 0 <= i < s.len() && #[trigger] s[i] == ':')
            ==> crate::hosts::validator::address_like(s),
        (forall|i: int| 0 <= i < s.len() ==> #[trigger] s[i] != ':') ==> (
        crate::hosts::validator::address_like(s) <==> s.len() > 0 && (forall|i: int|
            0 <= i < s.len() ==> ('0' <= (#[trigger] s[i]) <= '9') || s[i] == '.') && (exists|i: int|
            0 <= i < s.len() && #[trigger] s[i] == '.') && '0' <= s[0] <= '9' && '0'
            <= s[s.len() - 1] <= '9'),
{
    if exists|i: int| 0 <= i < s.len() && #[trigger] s[i] == ':' {
        let i = choose|i: int| 0 <= i < s.len() && #[trigger] s[i] == ':';
        assert(s.contains(':'));
    }
    if forall|i: int| 0 <= i < s.len() ==> #[trigger] s[i] != ':' {
        assert(!s.contains(':'));
        if crate::hosts::validator::dotted_digits(s) {
            let i = choose|i: int| 0 <= i < s.len() && s[i] == '.';
            assert(s[i] == '.');
            assert forall|i: int| 0 <= i < s.len() implies ('0' <= (#[trigger] s[i]) <= '9') || s[i]
                == '.' by {
                assert(crate::text::is_digit(s[i]) || s[i] == '.');
            }
            assert(crate::text::is_digit(s[0]) || s[0] == '.');
            assert(crate::text::is_digit(s[s.len() - 1]) || s[s.len() - 1] == '.');
        }
        if s.len() > 0 && (forall|i: int|
            0 <= i < s.len() ==> ('0' <= (#[trigger] s[i]) <= '9') || s[i] == '.') && (exists|i: int|
            0 <= i < s.len() && #[trigger] s[i] == '.') && '0' <= s[0] <= '9' && '0'
            <= s[s.len() - 1] <= '9' {
            let i = choose|i: int| 0 <= i < s.len() && #[trigger] s[i] == '.';
            assert(s.contains('.'));
            assert(crate::text::is_digit(s[0]));
            assert(s.last() == s[s.len() - 1]);
        }
    }
}

// ---------------------------------------------------------------------------
// Duplicates
// ---------------------------------------------------------------------------
/// Whether a rule takes part in the search for duplicates with a domain: it is in force, has
/// an address and a known line, and names the domain at this place.
pub open spec fn names_at(rules: Seq<HostRule>, p: (int, int), d: Seq<char>) -> bool {
    &&& 0 <= p.0 < rules.len()
    &&& rules[p.0].enabled
    &&& rules[p.0].ip is Some
    &&& rules[p.0].line_number is Some
    &&& 0 <= p.1 < rules[p.0].domains@.len()
    &&& rules[p.0].domains@[p.1]@ == d
}

/// Whether a place is before another: in an earlier rule, or earlier in the same rule.
pub open spec fn comes_before(p: (int, int), q: (int, int)) -> bool {
    p.0 < q.0 || (p.0 == q.0 && p.1 < q.1)
}

/// The places of all mentions.
spec fn all_places(rules: Seq<HostRule>) -> Seq<(int, int)>
    decreases rules.len(),
{
    if rules.len() == 0 {
        seq![]
    } else {
        let r = rules.last();
        all_places(rules.drop_last()) + if r.enabled && r.ip is Some && r.line_number is Some {
            Seq::new(r.domains@.len(), |k: int| (rules.len() - 1, k))
        } else {
            seq![]
        }
    }
}

/// The places belong to the mentions, are in order, and are all there are.
proof fn lemma_places(rules: Seq<HostRule>)
    ensures
        ({
            let m = crate::hosts::validator::mentions(rules);
            let w = all_places(rules);
            &&& w.len() == m.len()
            &&& forall|t: int|
                #![trigger w[t]]
                #![trigger m[t]]
                0 <= t < w.len() ==> names_at(rules, w[t], m[t].domain) && rules[w[t].0].ip == Some(
                    m[t].ip,
                ) && rules[w[t].0].line_number == Some(m[t].line)
            &&& forall|t: int, u: int|
                0 <= t < u < w.len() ==> comes_before(#[trigger] w[t], #[trigger] w[u])
        }),
        forall|p: (int, int), d: Seq<char>| #[trigger]
            names_at(rules, p, d) ==> all_places(rules).contains(p),
    decreases rules.len(),
{
    let m = crate::hosts::validator::mentions(rules);
    let w = all_places(rules);
    if rules.len() > 0 {
        let head = rules.drop_last();
        let r = rules.last();
        let m0 = crate::hosts::validator::mentions(head);
        let w0 = all_places(head);
        lemma_places(head);
        let own = crate::hosts::validator::rule_mentions(r@);
        assert(r@.domains.len() == r.domains@.len());
        assert forall|t: int|
            #![trigger w[t]]
            #![trigger m[t]]
            0 <= t < w.len() implies names_at(rules, w[t], m[t].domain) && rules[w[t].0].ip == Some(
            m[t].ip,
        ) && rules[w[t].0].line_number == Some(m[t].line) by {
            if t < w0.len() {
                assert(w[t] == w0[t] && m[t] == m0[t]);
                assert(head[w0[t].0] == rules[w0[t].0]);
            } else {
                assert(m[t] == own[t - w0.len()]);
            }
        }
        assert forall|t: int, u: int| 0 <= t < u < w.len() implies comes_before(
            #[trigger] w[t],
            #[trigger] w[u],
        ) by {
            if u < w0.len() {
                assert(w[t] == w0[t] && w[u] == w0[u]);
            } else if t < w0.len() {
                assert(w[t] == w0[t]);
                assert(names_at(head, w0[t], m0[t].domain));
            }
        }
        assert forall|p: (int, int), d: Seq<char>| #[trigger] names_at(rules, p, d) implies w.contains(
            p,
        ) by {
            if p.0 < head.len() {
                assert(head[p.0] == rules[p.0]);
                assert(names_at(head, p, d));
                let t = choose|t: int| 0 <= t < w0.len() && w0[t] == p;
                assert(w[t] == p);
            } else {
                assert(w[w0.len() + p.1] == p);
            }
        }
    }
}

/// The mentions of one domain: their lines, and their places.
proof fn lemma_places_of(m: Seq<crate::hosts::validator::Mention>, w: Seq<(int, int)>, d: Seq<char>) -> (v: Seq<int>)
    requires
        m.len() == w.len(),
    ensures
        v.len() == crate::hosts::validator::lines_with(m, d).len(),
        forall|a: int|
            0 <= a < v.len() ==> 0 <= #[trigger] v[a] < m.len() && m[v[a]].domain == d
                && crate::hosts::validator::lines_with(m, d)[a] == m[v[a]].line,
        forall|a: int, b: int| 0 <= a < b < v.len() ==> #[trigger] v[a] < #[trigger] v[b],
        forall|t: int| 0 <= t < m.len() && (#[trigger] m[t]).domain == d ==> v.contains(t),
    decreases m.len(),
{
    if m.len() == 0 {
        seq![]
    } else {
        let head = m.drop_last();
        let n = m.len() - 1;
        let u = lemma_places_of(head, w.drop_last(), d);
        if m.last().domain == d {
            let v = u.push(n);
            assert forall|a: int| 0 <= a < v.len() implies 0 <= #[trigger] v[a] < m.len()
                && m[v[a]].domain == d && crate::hosts::validator::lines_with(m, d)[a]
                == m[v[a]].line by {
                if a < u.len() {
                    assert(v[a] == u[a]);
                    assert(head[u[a]] == m[u[a]]);
                }
            }
            assert forall|t: int| 0 <= t < m.len() && (#[trigger] m[t]).domain == d implies v.contains(
                t,
            ) by {
                if t < n {
                    assert(head[t] == m[t]);
                    let a = choose|a: int| 0 <= a < u.len() && u[a] == t;
                    assert(v[a] == t);
                } else {
                    assert(v[u.len() as int] == t);
                }
            }
            v
        } else {
            assert forall|a: int| 0 <= a < u.len() implies 0 <= #[trigger] u[a] < m.len()
                && m[u[a]].domain == d && crate::hosts::validator::lines_with(m, d)[a]
                == m[u[a]].line by {
                assert(head[u[a]] == m[u[a]]);
            }
            assert forall|t: int| 0 <= t < m.len() && (#[trigger] m[t]).domain == d implies u.contains(
                t,
            ) by {
                assert(head[t] == m[t]);
            }
            u
        }
    }
}

/// The domains that are repeated are those with more than one line.
proof fn lemma_repeated(d: Seq<Seq<char>>, m: Seq<crate::hosts::validator::Mention>, x: Seq<char>)
    ensures
        crate::hosts::validator::repeated(d, m).contains(x) <==> d.contains(x)
            && crate::hosts::validator::lines_with(m, x).len() > 1,
    decreases d.len(),
{
    if d.len() > 0 {
        let head = d.drop_last();
        let y = d.last();
        let r0 = crate::hosts::validator::repeated(head, m);
        let r = crate::hosts::validator::repeated(d, m);
        lemma_repeated(head, m, x);
        if d.contains(x) {
            let i = choose|i: int| 0 <= i < d.len() && d[i] == x;
            if i < head.len() {
                assert(head[i] == x);
            }
        }
        if head.contains(x) {
            let i = choose|i: int| 0 <= i < head.len() && head[i] == x;
            assert(d[i] == x);
        }
        assert(d[d.len() - 1] == y);
        if r0.contains(x) {
            let i = choose|i: int| 0 <= i < r0.len() && r0[i] == x;
            assert(r[i] == x);
        }
        if crate::hosts::validator::lines_with(m, y).len() > 1 {
            assert(r[r0.len() as int] == y);
            if r.contains(x) {
                let i = choose|i: int| 0 <= i < r.len() && r[i] == x;
                if i < r0.len() {
                    assert(r0[i] == x);
                }
            }
        }
    }
}

/// A reported domain is named at two or more places. Its lines are those of all these places,
/// in order; and they are said to agree exactly if all of them give the same address.
pub proof fn a_report_tells_all_places(
    rules: &Vec<HostRule>,
    r: Vec<DuplicateRule>,
    q: int,
) -> (places: Seq<(int, int)>)
    requires
        call_ensures(check_duplicates, (rules,), r),
        0 <= q < r@.len(),
    ensures
        places.len() >= 2,
        r@[q].lines@.len() == places.len(),
        forall|a: int|
            0 <= a < places.len() ==> names_at(rules@, #[trigger] places[a], r@[q].domain@)
                && rules@[places[a].0].line_number == Some(r@[q].lines@[a]),
        forall|a: int, b: int|
            0 <= a < b < places.len() ==> comes_before(#[trigger] places[a], #[trigger] places[b]),
        forall|p: (int, int)| #[trigger]
            names_at(rules@, p, r@[q].domain@) ==> places.contains(p),
        r@[q].kind == DuplicateKind::SameIp <==> forall|a: int, b: int|
            0 <= a < places.len() && 0 <= b < places.len() ==> rules@[(#[trigger] places[a]).0].ip
                == rules@[(#[trigger] places[b]).0].ip,
{
    let m = crate::hosts::validator::mentions(rules@);
    let w = all_places(rules@);
    let doms = crate::hosts::validator::domains_of(m);
    let rep = crate::hosts::validator::repeated(doms, m);
    let d = r@[q].domain@;
    assert(crate::hosts::validator::reports(r@[q], rep[q], m));
    assert(rep.contains(d)) by {
        assert(rep[q] == d);
    }
    lemma_repeated(doms, m, d);
    lemma_places(rules@);
    let v = lemma_places_of(m, w, d);
    let places = Seq::new(v.len(), |a: int| w[v[a]]);
    assert forall|a: int| 0 <= a < places.len() implies names_at(
        rules@,
        #[trigger] places[a],
        d,
    ) && rules@[places[a].0].line_number == Some(r@[q].lines@[a]) by {
        assert(places[a] == w[v[a]]);
        assert(m[v[a]].domain == d);
    }
    assert forall|a: int, b: int| 0 <= a < b < places.len() implies comes_before(
        #[trigger] places[a],
        #[trigger] places[b],
    ) by {
        assert(v[a] < v[b]);
        assert(comes_before(w[v[a]], w[v[b]]));
    }
    assert forall|p: (int, int)| #[trigger] names_at(rules@, p, d) implies places.contains(p) by {
        assert(w.contains(p));
        let t = choose|t: int| 0 <= t < w.len() && w[t] == p;
        assert(m[t].domain == d);
        let a = choose|a: int| 0 <= a < v.len() && v[a] == t;
        assert(places[a] == p);
    }
    if crate::hosts::validator::agree(m, d) {
        assert forall|a: int, b: int| 0 <= a < places.len() && 0 <= b < places.len() implies rules@[(
        #[trigger] places[a]).0].ip == rules@[(#[trigger] places[b]).0].ip by {
            assert(places[a] == w[v[a]] && places[b] == w[v[b]]);
            assert(m[v[a]].ip == m[v[b]].ip);
        }
    } else {
        let (i, j) = choose|i: int, j: int|
            #![trigger m[i], m[j]]
            0 <= i < m.len() && 0 <= j < m.len() && m[i].domain == d && m[j].domain == d && m[i].ip
                != m[j].ip;
        let a = choose|a: int| 0 <= a < v.len() && v[a] == i;
        let b = choose|b: int| 0 <= b < v.len() && v[b] == j;
        assert(places[a] == w[i] && places[b] == w[j]);
        assert(rules@[places[a].0].ip != rules@[places[b].0].ip);
    }
    places
}

/// A domain that is named at two places is reported, once.
pub proof fn every_repeated_domain_is_reported(
    rules: &Vec<HostRule>,
    r: Vec<DuplicateRule>,
    p: (int, int),
    q: (int, int),
    d: Seq<char>,
)
    requires
        call_ensures(check_duplicates, (rules,), r),
        names_at(rules@, p, d),
        names_at(rules@, q, d),
        p != q,
    ensures
        exists|k: int| 0 <= k < r@.len() && (#[trigger] r@[k]).domain@ == d,
        forall|a: int, b: int|
            0 <= a < b < r@.len() ==> (#[trigger] r@[a]).domain@ != (#[trigger] r@[b]).domain@,
{
    let m = crate::hosts::validator::mentions(rules@);
    let w = all_places(rules@);
    let doms = crate::hosts::validator::domains_of(m);
    let rep = crate::hosts::validator::repeated(doms, m);
    lemma_places(rules@);
    let v = lemma_places_of(m, w, d);
    let t = choose|t: int| 0 <= t < w.len() && w[t] == p;
    let u = choose|u: int| 0 <= u < w.len() && w[u] == q;
    assert(m[t].domain == d && m[u].domain == d);
    assert(v.contains(t) && v.contains(u));
    let a = choose|a: int| 0 <= a < v.len() && v[a] == t;
    let b = choose|b: int| 0 <= b < v.len() && v[b] == u;
    assert(a != b);
    assert(crate::hosts::validator::lines_with(m, d).len() > 1);
    crate::hosts::validator::lemma_domains_of(m);
    assert(doms.contains(d));
    lemma_repeated(doms, m, d);
    let k = choose|k: int| 0 <= k < rep.len() && rep[k] == d;
    assert(crate::hosts::validator::reports(r@[k], rep[k], m));
    lemma_repeated_once(doms, m);
    assert forall|a: int, b: int| 0 <= a < b < r@.len() implies (#[trigger] r@[a]).domain@ != (
    #[trigger] r@[b]).domain@ by {
        assert(crate::hosts::validator::reports(r@[a], rep[a], m));
        assert(crate::hosts::validator::reports(r@[b], rep[b], m));
        assert(rep[a] != rep[b]);
    }
}

/// Nothing is repeated twice.
proof fn lemma_repeated_once(d: Seq<Seq<char>>, m: Seq<crate::hosts::validator::Mention>)
    requires
        forall|i: int, j: int| 0 <= i < j < d.len() ==> d[i] != d[j],
    ensures
        forall|i: int, j: int|
            0 <= i < j < crate::hosts::validator::repeated(d, m).len()
                ==> crate::hosts::validator::repeated(d, m)[i]
                != crate::hosts::validator::repeated(d, m)[j],
    decreases d.len(),
{
    if d.len() > 0 {
        let head = d.drop_last();
        assert forall|i: int, j: int| 0 <= i < j < head.len() implies head[i] != head[j] by {
            assert(d[i] != d[j]);
        }
        lemma_repeated_once(head, m);
        let r0 = crate::hosts::validator::repeated(head, m);
        let r = crate::hosts::validator::repeated(d, m);
        assert forall|i: int, j: int| 0 <= i < j < r.len() implies r[i] != r[j] by {
            if j == r0.len() {
                assert(r0.contains(r0[i]));
                lemma_repeated(head, m, r0[i]);
                let k = choose|k: int| 0 <= k < head.len() && head[k] == r0[i];
                assert(d[k] != d[d.len() - 1]);
            } else {
                assert(r0[i] != r0[j]);
            }
        }
    }
}

/// The domains that are mentioned come in the order of their first mention.
proof fn lemma_domains_in_order(m: Seq<crate::hosts::validator::Mention>, i: int, j: int) -> (t: int)
    requires
        0 <= i < j < crate::hosts::validator::domains_of(m).len(),
    ensures
        0 <= t < m.len(),
        m[t].domain == crate::hosts::validator::domains_of(m)[i],
        forall|u: int|
            0 <= u <= t ==> (#[trigger] m[u]).domain != crate::hosts::validator::domains_of(m)[j],
    decreases m.len(),
{
    let head = m.drop_last();
    let d0 = crate::hosts::validator::domains_of(head);
    let d = crate::hosts::validator::domains_of(m);
    if j < d0.len() {
        assert(d[i] == d0[i] && d[j] == d0[j]);
        let t = lemma_domains_in_order(head, i, j);
        assert(m[t] == head[t]);
        assert forall|u: int| 0 <= u <= t implies (#[trigger] m[u]).domain != d[j] by {
            assert(head[u] == m[u]);
        }
        t
    } else {
        crate::hosts::validator::lemma_domains_of(head);
        assert(d[i] == d0[i]);
        assert(d0.contains(d0[i]));
        let v = lemma_places_of(head, Seq::new(head.len(), |k: int| (k, 0int)), d0[i]);
        let t = v[0];
        assert(m[t] == head[t]);
        assert(!d0.contains(d[j]));
        assert forall|u: int| 0 <= u <= t implies (#[trigger] m[u]).domain != d[j] by {
            assert(head[u] == m[u]);
            let w = lemma_places_of(head, Seq::new(head.len(), |k: int| (k, 0int)), d[j]);
            if m[u].domain == d[j] {
                assert(w.contains(u));
                assert(crate::hosts::validator::lines_with(head, d[j]).len() > 0);
                assert(d0.contains(d[j]));
            }
        }
        t
    }
}

/// The repeated domains keep the order of all domains.
proof fn lemma_repeated_in_order(
    d: Seq<Seq<char>>,
    m: Seq<crate::hosts::validator::Mention>,
    a: int,
    b: int,
) -> (o: (int, int))
    requires
        0 <= a < b < crate::hosts::validator::repeated(d, m).len(),
    ensures
        0 <= o.0 < o.1 < d.len(),
        d[o.0] == crate::hosts::validator::repeated(d, m)[a],
        d[o.1] == crate::hosts::validator::repeated(d, m)[b],
    decreases d.len(),
{
    let head = d.drop_last();
    let r0 = crate::hosts::validator::repeated(head, m);
    let r = crate::hosts::validator::repeated(d, m);
    if b < r0.len() {
        assert(r[a] == r0[a] && r[b] == r0[b]);
        let o = lemma_repeated_in_order(head, m, a, b);
        assert(d[o.0] == head[o.0] && d[o.1] == head[o.1]);
        o
    } else {
        assert(r[a] == r0[a]);
        assert(r0.contains(r0[a]));
        lemma_repeated(head, m, r0[a]);
        let k = choose|k: int| 0 <= k < head.len() && head[k] == r0[a];
        assert(d[k] == head[k]);
        (k, d.len() - 1)
    }
}

/// Reports come in the order in which their domains are first named: before the first place of
/// a later one there is a place of each earlier one.
pub proof fn reports_come_in_order(
    rules: &Vec<HostRule>,
    r: Vec<DuplicateRule>,
    a: int,
    b: int,
) -> (p: (int, int))
    requires
        call_ensures(check_duplicates, (rules,), r),
        0 <= a < b < r@.len(),
    ensures
        names_at(rules@, p, r@[a].domain@),
        forall|q: (int, int)| #[trigger]
            names_at(rules@, q, r@[b].domain@) ==> comes_before(p, q),
{
    let m = crate::hosts::validator::mentions(rules@);
    let w = all_places(rules@);
    let doms = crate::hosts::validator::domains_of(m);
    let rep = crate::hosts::validator::repeated(doms, m);
    assert(crate::hosts::validator::reports(r@[a], rep[a], m));
    assert(crate::hosts::validator::reports(r@[b], rep[b], m));
    lemma_places(rules@);
    let o = lemma_repeated_in_order(doms, m, a, b);
    let t = lemma_domains_in_order(m, o.0, o.1);
    let p = w[t];
    assert(m[t].domain == r@[a].domain@);
    assert forall|q: (int, int)| #[trigger] names_at(rules@, q, r@[b].domain@) implies comes_before(
        p,
        q,
    ) by {
        let u = choose|u: int| 0 <= u < w.len() && w[u] == q;
        assert(m[u].domain == r@[b].domain@);
        assert(u > t);
        assert(comes_before(w[t], w[u]));
    }
    p
}

} // verus!
