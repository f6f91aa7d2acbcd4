//! What calls come to one after the other: rules that are loaded answer for their names, lists
//! that are loaded block theirs, and what was learned is given again.
use vstd::prelude::*;
use vstd::string::*;

use crate::dns::adblock::{AdBlockAction, AdBlockEngine};
use crate::dns::cache::{AnswerCache, Remembered};
use crate::dns::config::DnsConfig;
use crate::dns::matcher::walk_parents;
use crate::dns::platform::disable::StateFile;
use crate::dns::platform::{validate_interface_name, PlatformError};
use crate::dns::proxy::{
    check_shutdown_signal, proxy_ports, read_original_dns, validate_dns_entries, DnsProxy, ExitPlan,
    ProxyAction, ProxyError, ProxyEvent,
};
use crate::dns::resolver::RuleEngine;
use crate::dns::server::{
    make_cache_key, matching_record, server_addresses, Decision, DnsError, DnsServer, Pending, RefreshStep,
    Step, TaskEnd, Upstream, UpstreamRecord,
};
use crate::dns::trie::Trie;
use crate::dns::wire::{DnsQuery, QueryFacts};
use crate::models::{Profile, ProfileMode};
use crate::net::{IpAddr, SocketAddr};

verus! {

broadcast use vstd::string::group_string_axioms;

/// Once the rules of some profiles are loaded, a name resolves to the address of the only rule
/// in force, of an enabled profile in DNS mode, that names it or the longest part of it that
/// any such rule names, where a part is the name itself or what follows one of its dots.
pub proof fn loaded_rules_resolve(
    e: &mut RuleEngine,
    profiles: &[Profile],
    name: &str,
    r: Option<IpAddr>,
    n: int,
    i: int,
    j: int,
    k: int,
)
    requires
        call_ensures(RuleEngine::rebuild, (e, profiles), ()),
        call_ensures(RuleEngine::resolve, (&*final(e), name), r),
        0 <= i < profiles@.len(),
        profiles@[i].enabled,
        profiles@[i].mode == ProfileMode::Dns,
        0 <= j < profiles@[i].rules@.len(),
        profiles@[i].rules@[j].enabled,
        profiles@[i].rules@[j].ip is Some,
        0 <= k < profiles@[i].rules@[j].domains@.len(),
        0 <= n <= name@.len(),
        n == 0 || name@[n - 1] == '.',
        profiles@[i].rules@[j].domains@[k]@ == name@.skip(n),
        forall|p: int, q: int, m: int|
            #![trigger profiles@[p].rules@[q].domains@[m]]
            0 <= p < profiles@.len() && profiles@[p].enabled && profiles@[p].mode
                == ProfileMode::Dns && 0 <= q < profiles@[p].rules@.len()
                && profiles@[p].rules@[q].enabled && profiles@[p].rules@[q].ip is Some && 0 <= m
                < profiles@[p].rules@[q].domains@.len() ==> (profiles@[p].rules@[q].domains@[m]@
                == name@.skip(n) ==> p == i && q == j) && (forall|x: int|
                0 <= x < n && (x == 0 || name@[x - 1] == '.')
                    ==> profiles@[p].rules@[q].domains@[m]@ != #[trigger] name@.skip(x)),
    ensures
        r == profiles@[i].rules@[j].ip,
{
    let rules = crate::dns::resolver::dns_rules(profiles@);
    let d = name@.skip(n);
    crate::dns::resolver_laws::every_dns_rule_counts(profiles@, i, j, k);
    let o = crate::dns::resolver_laws::the_first_dns_rule_counts(profiles@, d);
    assert(profiles@[o.0].rules@[o.1].domains@[o.2]@ == d);
    assert forall|x: int| 0 <= x < n && (x == 0 || name@[x - 1] == '.') implies !rules.contains_key(
        #[trigger] name@.skip(x),
    ) by {
        if rules.contains_key(name@.skip(x)) {
            let w = crate::dns::resolver_laws::the_first_dns_rule_counts(profiles@, name@.skip(x));
            assert(profiles@[w.0].rules@[w.1].domains@[w.2]@ == name@.skip(x));
        }
    }
    crate::dns::matcher::the_longest_part_answers(rules, name@, n);
}

/// Once the rules of some profiles are loaded, a name of which no part is named by a rule in
/// force of an enabled profile in DNS mode does not resolve.
pub proof fn other_names_do_not_resolve(
    e: &mut RuleEngine,
    profiles: &[Profile],
    name: &str,
    r: Option<IpAddr>,
)
    requires
        call_ensures(RuleEngine::rebuild, (e, profiles), ()),
        call_ensures(RuleEngine::resolve, (&*final(e), name), r),
        forall|p: int, q: int, m: int, x: int|
            #![trigger profiles@[p].rules@[q].domains@[m], name@.skip(x)]
            0 <= p < profiles@.len() && profiles@[p].enabled && profiles@[p].mode
                == ProfileMode::Dns && 0 <= q < profiles@[p].rules@.len()
                && profiles@[p].rules@[q].enabled && profiles@[p].rules@[q].ip is Some && 0 <= m
                < profiles@[p].rules@[q].domains@.len() && 0 <= x <= name@.len() && (x == 0
                || name@[x - 1] == '.') ==> profiles@[p].rules@[q].domains@[m]@ != name@.skip(x),
    ensures
        r is None,
{
    let rules = crate::dns::resolver::dns_rules(profiles@);
    assert forall|x: int| 0 <= x <= name@.len() && (x == 0 || name@[x - 1] == '.') implies !rules.contains_key(
        #[trigger] name@.skip(x),
    ) by {
        if rules.contains_key(name@.skip(x)) {
            let w = crate::dns::resolver_laws::the_first_dns_rule_counts(profiles@, name@.skip(x));
            assert(profiles@[w.0].rules@[w.1].domains@[w.2]@ == name@.skip(x));
        }
    }
    crate::dns::matcher::no_part_no_answer(rules, name@);
}

/// Once the rules of some profiles are loaded, an address that a name resolves to is that of a
/// rule in force of an enabled profile in DNS mode that names a part of it. No such rule names
/// a longer part; and of those that name this one, none comes before: neither one of a profile
/// with an earlier name, nor, of profiles with the same name, of an earlier one, nor an
/// earlier one of its profile.
pub proof fn a_resolved_address_is_that_of_the_first_rule(
    e: &mut RuleEngine,
    profiles: &[Profile],
    name: &str,
    ip: IpAddr,
) -> (o: (int, int, int, int))
    requires
        call_ensures(RuleEngine::rebuild, (e, profiles), ()),
        call_ensures(RuleEngine::resolve, (&*final(e), name), Some(ip)),
    ensures
        0 <= o.0 <= name@.len(),
        o.0 == 0 || name@[o.0 - 1] == '.',
        0 <= o.1 < profiles@.len(),
        profiles@[o.1].enabled,
        profiles@[o.1].mode == ProfileMode::Dns,
        0 <= o.2 < profiles@[o.1].rules@.len(),
        profiles@[o.1].rules@[o.2].enabled,
        profiles@[o.1].rules@[o.2].ip == Some(ip),
        0 <= o.3 < profiles@[o.1].rules@[o.2].domains@.len(),
        profiles@[o.1].rules@[o.2].domains@[o.3]@ == name@.skip(o.0),
        forall|p: int, q: int, m: int|
            #![trigger profiles@[p].rules@[q].domains@[m]]
            0 <= p < profiles@.len() && profiles@[p].enabled && profiles@[p].mode
                == ProfileMode::Dns && 0 <= q < profiles@[p].rules@.len()
                && profiles@[p].rules@[q].enabled && profiles@[p].rules@[q].ip is Some && 0 <= m
                < profiles@[p].rules@[q].domains@.len() ==> (profiles@[p].rules@[q].domains@[m]@
                == name@.skip(o.0) ==> !crate::order::text_lt(
                profiles@[p].name@,
                profiles@[o.1].name@,
            ) && (profiles@[p].name@ == profiles@[o.1].name@ ==> o.1 <= p && (p == o.1 ==> o.2
                <= q))) && (forall|x: int|
                0 <= x < o.0 && (x == 0 || name@[x - 1] == '.')
                    ==> profiles@[p].rules@[q].domains@[m]@ != #[trigger] name@.skip(x)),
{
    let rules = crate::dns::resolver::dns_rules(profiles@);
    crate::dns::matcher::only_parents_answer(rules, name@);
    let some = choose|n: int| #[trigger]
        crate::dns::matcher::starts_parent(name@, n) && rules.contains_key(name@.skip(n));
    let n = lemma_longest_part(rules, name@, 0, some);
    crate::dns::matcher::the_longest_part_answers(rules, name@, n);
    let o = crate::dns::resolver_laws::the_first_dns_rule_counts(profiles@, name@.skip(n));
    assert forall|p: int, q: int, m: int, x: int|
        #![trigger profiles@[p].rules@[q].domains@[m], name@.skip(x)]
        0 <= p < profiles@.len() && profiles@[p].enabled && profiles@[p].mode == ProfileMode::Dns
            && 0 <= q < profiles@[p].rules@.len() && profiles@[p].rules@[q].enabled
            && profiles@[p].rules@[q].ip is Some && 0 <= m < profiles@[p].rules@[q].domains@.len()
            && 0 <= x < n && (x == 0 || name@[x - 1]
            == '.') implies profiles@[p].rules@[q].domains@[m]@ != name@.skip(x) by {
        crate::dns::resolver_laws::every_dns_rule_counts(profiles@, p, q, m);
    }
    (n, o.0, o.1, o.2)
}

/// The longest part of a name that a map holds, from a place on.
proof fn lemma_longest_part<V>(m: Map<Seq<char>, V>, s: Seq<char>, from: int, some: int) -> (n: int)
    requires
        0 <= from <= some <= s.len(),
        some == 0 || s[some - 1] == '.',
        m.contains_key(s.skip(some)),
        forall|x: int|
            0 <= x < from && (x == 0 || s[x - 1] == '.') ==> !m.contains_key(#[trigger] s.skip(x)),
    ensures
        0 <= n <= s.len(),
        n == 0 || s[n - 1] == '.',
        m.contains_key(s.skip(n)),
        forall|x: int|
            0 <= x < n && (x == 0 || s[x - 1] == '.') ==> !m.contains_key(#[trigger] s.skip(x)),
    decreases some - from,
{
    if (from == 0 || s[from - 1] == '.') && m.contains_key(s.skip(from)) {
        from
    } else {
        lemma_longest_part(m, s, from + 1, some)
    }
}

/// Once some lists are loaded, a domain is answered by its parts, the domain itself and what
/// follows each of its dots. If one of them is in the list of what is never blocked, it is not
/// blocked; else, if one is in the list of what does not exist, it does not exist; else the
/// longest one that is paired with an address is answered with the last address that it is
/// paired with; and without one it is not blocked.
pub proof fn loaded_lists_block(
    e: &mut AdBlockEngine,
    pairs: Vec<(String, IpAddr)>,
    nx: Vec<String>,
    white: Vec<String>,
    domain: &str,
    r: Option<AdBlockAction>,
    n: int,
    i: int,
)
    requires
        call_ensures(AdBlockEngine::rebuild, (e, pairs, nx, white), ()),
        call_ensures(AdBlockEngine::check, (&*final(e), domain), r),
        0 <= n <= domain@.len(),
        n == 0 || domain@[n - 1] == '.',
    ensures
        0 <= i < white@.len() && white@[i]@ == domain@.skip(n) ==> r is None,
        (forall|x: int, k: int|
            #![trigger domain@.skip(x), white@[k]]
            0 <= x <= domain@.len() && (x == 0 || domain@[x - 1] == '.') && 0 <= k < white@.len()
                ==> white@[k]@ != domain@.skip(x)) && 0 <= i < nx@.len() && nx@[i]@
            == domain@.skip(n) ==> r == Some(AdBlockAction::NxDomain),
        (forall|x: int, k: int|
            #![trigger domain@.skip(x), white@[k]]
            0 <= x <= domain@.len() && (x == 0 || domain@[x - 1] == '.') && 0 <= k < white@.len()
                ==> white@[k]@ != domain@.skip(x)) && (forall|x: int, k: int|
            #![trigger domain@.skip(x), nx@[k]]
            0 <= x <= domain@.len() && (x == 0 || domain@[x - 1] == '.') && 0 <= k < nx@.len()
                ==> nx@[k]@ != domain@.skip(x)) && (forall|x: int, k: int|
            #![trigger domain@.skip(x), pairs@[k]]
            0 <= x < n && (x == 0 || domain@[x - 1] == '.') && 0 <= k < pairs@.len()
                ==> pairs@[k].0@ != domain@.skip(x)) && 0 <= i < pairs@.len() && pairs@[i].0@
            == domain@.skip(n) && (forall|k: int|
            i < k < pairs@.len() ==> (#[trigger] pairs@[k]).0@ != pairs@[i].0@) ==> r == Some(
            AdBlockAction::ZeroAddress(pairs@[i].1),
        ),
        (forall|x: int, k: int|
            #![trigger domain@.skip(x), nx@[k]]
            0 <= x <= domain@.len() && (x == 0 || domain@[x - 1] == '.') && 0 <= k < nx@.len()
                ==> nx@[k]@ != domain@.skip(x)) && (forall|x: int, k: int|
            #![trigger domain@.skip(x), pairs@[k]]
            0 <= x <= domain@.len() && (x == 0 || domain@[x - 1] == '.') && 0 <= k < pairs@.len()
                ==> pairs@[k].0@ != domain@.skip(x)) ==> r is None,
{
    let d = domain@;
    let rules = final(e)@;
    crate::dns::adblock::every_pair_is_in_the_table(pairs@);
    crate::dns::adblock::parts_decide(rules, d);
    if 0 <= i < white@.len() && white@[i]@ == d.skip(n) {
        assert(rules.whitelist.contains(d.skip(n)));
    }
    let no_white = forall|x: int, k: int|
        #![trigger d.skip(x), white@[k]]
        0 <= x <= d.len() && (x == 0 || d[x - 1] == '.') && 0 <= k < white@.len() ==> white@[k]@
            != d.skip(x);
    let no_nx = forall|x: int, k: int|
        #![trigger d.skip(x), nx@[k]]
        0 <= x <= d.len() && (x == 0 || d[x - 1] == '.') && 0 <= k < nx@.len() ==> nx@[k]@
            != d.skip(x);
    if no_white {
        assert forall|x: int| 0 <= x <= d.len() && (x == 0 || d[x - 1] == '.') implies !rules.whitelist.contains(
            #[trigger] d.skip(x),
        ) by {
            if rules.whitelist.contains(d.skip(x)) {
                let k = choose|k: int| 0 <= k < white@.len() && (#[trigger] white@[k])@ == d.skip(x);
                assert(white@[k]@ != d.skip(x));
            }
        }
    }
    if no_nx {
        assert forall|x: int| 0 <= x <= d.len() && (x == 0 || d[x - 1] == '.') implies !rules.nxdomain.contains(
            #[trigger] d.skip(x),
        ) by {
            if rules.nxdomain.contains(d.skip(x)) {
                let k = choose|k: int| 0 <= k < nx@.len() && (#[trigger] nx@[k])@ == d.skip(x);
                assert(nx@[k]@ != d.skip(x));
            }
        }
    }
    if 0 <= i < nx@.len() && nx@[i]@ == d.skip(n) {
        assert(rules.nxdomain.contains(d.skip(n)));
    }
    if no_white && no_nx && (forall|x: int, k: int|
        #![trigger d.skip(x), pairs@[k]]
        0 <= x < n && (x == 0 || d[x - 1] == '.') && 0 <= k < pairs@.len() ==> pairs@[k].0@
            != d.skip(x)) && 0 <= i < pairs@.len() && pairs@[i].0@ == d.skip(n) && (forall|k: int|
        i < k < pairs@.len() ==> (#[trigger] pairs@[k]).0@ != pairs@[i].0@) {
        assert(rules.zero_addr.contains_key(d.skip(n)));
        assert(rules.zero_addr[pairs@[i].0@] == pairs@[i].1);
        assert forall|x: int| 0 <= x < n && (x == 0 || d[x - 1] == '.') implies !rules.zero_addr.contains_key(
            #[trigger] d.skip(x),
        ) by {
            if rules.zero_addr.contains_key(d.skip(x)) {
                let k = choose|k: int| 0 <= k < pairs@.len() && (#[trigger] pairs@[k]).0@
                    == d.skip(x);
                assert(pairs@[k].0@ != d.skip(x));
            }
        }
    }
    if no_nx && (forall|x: int, k: int|
        #![trigger d.skip(x), pairs@[k]]
        0 <= x <= d.len() && (x == 0 || d[x - 1] == '.') && 0 <= k < pairs@.len() ==> pairs@[k].0@
            != d.skip(x)) {
        assert forall|x: int| 0 <= x <= d.len() && (x == 0 || d[x - 1] == '.') implies !rules.zero_addr.contains_key(
            #[trigger] d.skip(x),
        ) by {
            if rules.zero_addr.contains_key(d.skip(x)) {
                let k = choose|k: int| 0 <= k < pairs@.len() && (#[trigger] pairs@[k]).0@
                    == d.skip(x);
                assert(pairs@[k].0@ != d.skip(x));
            }
        }
    }
}

/// Where each name has its answer, or none, a walk over a name and its parts gives the answer
/// of the longest part that has one, and none if no part has.
pub proof fn a_walk_finds_the_longest_part<T, F: Fn(&str) -> Option<T>>(
    name: &str,
    predicate: F,
    r: Option<T>,
    answers: Map<Seq<char>, T>,
    n: int,
)
    requires
        call_ensures(walk_parents::<T, F>, (name, predicate), r),
        forall|s: &str, v: Option<T>| #[trigger]
            call_ensures(predicate, (s,), v) ==> v == if answers.contains_key(s@) {
                Some(answers[s@])
            } else {
                None
            },
        0 <= n <= name@.len() + 1,
        n <= name@.len() ==> (n == 0 || name@[n - 1] == '.') && answers.contains_key(name@.skip(n)),
        forall|x: int|
            0 <= x < n && x <= name@.len() && (x == 0 || name@[x - 1] == '.')
                ==> !answers.contains_key(#[trigger] name@.skip(x)),
    ensures
        n <= name@.len() ==> r == Some(answers[name@.skip(n)]),
        n == name@.len() + 1 ==> r is None,
{
    let c = crate::dns::matcher::parents(name@);
    let k = choose|k: int| #[trigger] crate::dns::matcher::walked(predicate, c, r, k);
    assert(crate::dns::matcher::walked(predicate, c, r, k));
    assert forall|j: int| 0 <= j < k implies !answers.contains_key(#[trigger] c[j]) by {
        assert(crate::dns::matcher::can_answer(predicate, c[j], None));
    }
    if k < c.len() {
        assert(crate::dns::matcher::can_answer(predicate, c[k], r));
    }
    lemma_nearest_at(answers, c, k);
    if n <= name@.len() {
        crate::dns::matcher::the_longest_part_answers(answers, name@, n);
    } else {
        crate::dns::matcher::no_part_no_answer(answers, name@);
    }
}

/// The first candidate that a map holds.
proof fn lemma_nearest_at<V>(m: Map<Seq<char>, V>, c: Seq<Seq<char>>, k: int)
    requires
        0 <= k <= c.len(),
        forall|j: int| 0 <= j < k ==> !m.contains_key(#[trigger] c[j]),
        k < c.len() ==> m.contains_key(c[k]),
    ensures
        crate::dns::matcher::nearest(m, c) == if k < c.len() {
            Some(m[c[k]])
        } else {
            None
        },
    decreases k,
{
    if k > 0 {
        let rest = c.skip(1);
        assert(!m.contains_key(c[0]));
        assert forall|j: int| 0 <= j < k - 1 implies !m.contains_key(#[trigger] rest[j]) by {
            assert(rest[j] == c[j + 1]);
        }
        lemma_nearest_at(m, rest, k - 1);
    }
}

// ---------------------------------------------------------------------------
// The server
// ---------------------------------------------------------------------------
/// Whether a request asks for a name, with or without dots behind it.
pub open spec fn asks(request: Seq<u8>, name: Seq<char>, dots: Seq<char>, kind: u16) -> bool {
    &&& crate::dns::wire::decoded(request) == Some(
        QueryFacts { is_query: true, is_standard: true, question: Some((name + dots, kind)) },
    )
    &&& name.len() == 0 || name.last() != '.'
    &&& forall|i: int| 0 <= i < dots.len() ==> #[trigger] dots[i] == '.'
}

/// What a request asks for.
proof fn lemma_asks(request: Seq<u8>, name: Seq<char>, dots: Seq<char>, kind: u16)
    requires
        asks(request, name, dots, kind),
    ensures
        crate::dns::server::question_of(crate::dns::wire::decoded(request)) == Some((name, kind)),
{
    crate::dns::answer_laws::dots_at_the_end_do_not_count(name, dots);
}

/// Right after the rules are loaded, a request for a name with a rule, or for a name below
/// it, is answered with the address of the rule, for 300 seconds, if its type is that of the
/// address, and with a reply without an answer if it is the other type for addresses. The
/// answer from the rule is remembered as long as it counts.
pub proof fn a_rule_answers_requests(
    a: &mut DnsServer,
    profiles: &[Profile],
    b: &mut DnsServer,
    request: &[u8],
    now: u128,
    r: Step,
    name: &str,
    dots: Seq<char>,
    kind: u16,
    n: int,
    i: int,
    j: int,
    k: int,
    made: Seq<u8>,
)
    requires
        old(a).wf(),
        call_ensures(DnsServer::reload_rules, (a, profiles), ()),
        *old(b) == *final(a),
        now <= 0x4000_0000_0000_0000_0000_0000_0000_0000,
        call_ensures(DnsServer::receive, (b, request, now), r),
        asks(request@, name@, dots, kind),
        0 <= i < profiles@.len(),
        profiles@[i].enabled,
        profiles@[i].mode == ProfileMode::Dns,
        0 <= j < profiles@[i].rules@.len(),
        profiles@[i].rules@[j].enabled,
        profiles@[i].rules@[j].ip is Some,
        0 <= k < profiles@[i].rules@[j].domains@.len(),
        0 <= n <= name@.len(),
        n == 0 || name@[n - 1] == '.',
        profiles@[i].rules@[j].domains@[k]@ == name@.skip(n),
        forall|p: int, q: int, m: int|
            #![trigger profiles@[p].rules@[q].domains@[m]]
            0 <= p < profiles@.len() && profiles@[p].enabled && profiles@[p].mode
                == ProfileMode::Dns && 0 <= q < profiles@[p].rules@.len()
                && profiles@[p].rules@[q].enabled && profiles@[p].rules@[q].ip is Some && 0 <= m
                < profiles@[p].rules@[q].domains@.len() ==> (profiles@[p].rules@[q].domains@[m]@
                == name@.skip(n) ==> p == i && q == j) && (forall|x: int|
                0 <= x < n && (x == 0 || name@[x - 1] == '.')
                    ==> profiles@[p].rules@[q].domains@[m]@ != #[trigger] name@.skip(x)),
    ensures
        ({
            let ip = profiles@[i].rules@[j].ip->0;
            let record = crate::dns::wire::address_record(request@, 300, ip);
            &&& (ip is V4 && kind == 1 || ip is V6 && kind == 28) && record is Some
                && crate::dns::wire::answer_reply(request@, false, true, record->0) == Some(made)
                ==> {
                &&& r matches Step::Reply(v) && v@ == made
                &&& crate::dns::wire::gives_address(made, 300, ip)
                &&& final(b).items().len() == 1
                &&& final(b).items()[0].record == record->0
                &&& final(b).items()[0].expires == now + 300_000_000_000
            }
            &&& (ip is V4 && kind == 28 || ip is V6 && kind == 1)
                && crate::dns::wire::status_reply(request@, false, true, 0) == Some(made) ==> {
                &&& r matches Step::Reply(v) && v@ == made
                &&& final(b).items().len() == 0
            }
        }),
{
    lemma_asks(request@, name@, dots, kind);
    let rules = crate::dns::resolver::dns_rules(profiles@);
    let d = name@.skip(n);
    crate::dns::resolver_laws::every_dns_rule_counts(profiles@, i, j, k);
    let o = crate::dns::resolver_laws::the_first_dns_rule_counts(profiles@, d);
    assert(profiles@[o.0].rules@[o.1].domains@[o.2]@ == d);
    assert forall|x: int| 0 <= x < n && (x == 0 || name@[x - 1] == '.') implies !rules.contains_key(
        #[trigger] name@.skip(x),
    ) by {
        if rules.contains_key(name@.skip(x)) {
            let w = crate::dns::resolver_laws::the_first_dns_rule_counts(profiles@, name@.skip(x));
            assert(profiles@[w.0].rules@[w.1].domains@[w.2]@ == name@.skip(x));
        }
    }
    crate::dns::matcher::the_longest_part_answers(rules, name@, n);
    let key = crate::dns::server::cache_key(name@, kind);
    crate::dns::answer_laws::a_key_finds_its_entry(Seq::empty(), key, 0);
    let ip = profiles@[i].rules@[j].ip->0;
    match crate::dns::wire::address_record(request@, 300, ip) {
        Some(record) => {
            let x = Remembered { key, record, expires: (now + 300_000_000_000) as u128 };
            crate::dns::server::lemma_wf(*old(b));
            crate::dns::answer_laws::new_answers_come_first(
                Seq::empty(),
                x,
                Seq::empty(),
                old(b).limit(),
                x,
            );
        },
        None => {},
    }
}

/// Right after the rules are loaded, a request for a name of which no part has a rule is left
/// to another server, and nothing is remembered of it. A request for anything but an address
/// is answered with the code 4.
pub proof fn other_requests_are_left_to_others(
    a: &mut DnsServer,
    profiles: &[Profile],
    b: &mut DnsServer,
    request: &[u8],
    now: u128,
    r: Step,
    servers: Vec<String>,
    name: &str,
    dots: Seq<char>,
    kind: u16,
    made: Seq<u8>,
)
    requires
        old(a).wf(),
        call_ensures(DnsServer::reload_rules, (a, profiles), ()),
        *old(b) == *final(a),
        now <= 0x4000_0000_0000_0000_0000_0000_0000_0000,
        call_ensures(DnsServer::receive, (b, request, now), r),
        call_ensures(DnsServer::upstream, (&*old(a),), servers),
        asks(request@, name@, dots, kind),
    ensures
        final(b).items().len() == 0 || kind == 1 || kind == 28,
        kind != 1 && kind != 28 && crate::dns::wire::status_reply(request@, false, true, 4) == Some(
            made,
        ) ==> (r matches Step::Reply(v) && v@ == made),
        (kind == 1 || kind == 28) && (forall|p: int, q: int, m: int, x: int|
            #![trigger profiles@[p].rules@[q].domains@[m], name@.skip(x)]
            0 <= p < profiles@.len() && profiles@[p].enabled && profiles@[p].mode
                == ProfileMode::Dns && 0 <= q < profiles@[p].rules@.len()
                && profiles@[p].rules@[q].enabled && profiles@[p].rules@[q].ip is Some && 0 <= m
                < profiles@[p].rules@[q].domains@.len() && 0 <= x <= name@.len() && (x == 0
                || name@[x - 1] == '.') ==> profiles@[p].rules@[q].domains@[m]@ != name@.skip(x))
            ==> {
            &&& final(b).items().len() == 0
            &&& r matches Step::Lookup(p) && p.request@ == request@ && p.name@ == name@ && p.kind
                == kind && p.received == now && crate::text::texts(p.servers@)
                == crate::text::texts(servers@)
        },
{
    lemma_asks(request@, name@, dots, kind);
    let rules = crate::dns::resolver::dns_rules(profiles@);
    let key = crate::dns::server::cache_key(name@, kind);
    crate::dns::answer_laws::a_key_finds_its_entry(Seq::empty(), key, 0);
    if forall|p: int, q: int, m: int, x: int|
        #![trigger profiles@[p].rules@[q].domains@[m], name@.skip(x)]
        0 <= p < profiles@.len() && profiles@[p].enabled && profiles@[p].mode == ProfileMode::Dns
            && 0 <= q < profiles@[p].rules@.len() && profiles@[p].rules@[q].enabled
            && profiles@[p].rules@[q].ip is Some && 0 <= m
            < profiles@[p].rules@[q].domains@.len() && 0 <= x <= name@.len() && (x == 0
            || name@[x - 1] == '.') ==> profiles@[p].rules@[q].domains@[m]@ != name@.skip(x) {
        assert forall|x: int|
            0 <= x <= name@.len() && (x == 0 || name@[x - 1] == '.') implies !rules.contains_key(
            #[trigger] name@.skip(x),
        ) by {
            if rules.contains_key(name@.skip(x)) {
                let w = crate::dns::resolver_laws::the_first_dns_rule_counts(
                    profiles@,
                    name@.skip(x),
                );
                assert(profiles@[w.0].rules@[w.1].domains@[w.2]@ == name@.skip(x));
            }
        }
        crate::dns::matcher::no_part_no_answer(rules, name@);
    }
}

/// What another server said about a question is the answer to the next request with that
/// question, for as many seconds as it counts from when the first request came. Later the
/// question is left to another server again.
pub proof fn what_was_learned_is_given_again(
    a: &mut DnsServer,
    first: &[u8],
    before: u128,
    pending: Pending,
    b: &mut DnsServer,
    ttl: u32,
    record: Vec<u8>,
    told: Step,
    c: &mut DnsServer,
    next: &[u8],
    now: u128,
    r: Step,
    name: Seq<char>,
    dots: Seq<char>,
    more_dots: Seq<char>,
    kind: u16,
    made: Seq<u8>,
)
    requires
        old(a).wf(),
        before <= 0x4000_0000_0000_0000_0000_0000_0000_0000,
        call_ensures(DnsServer::receive, (a, first, before), Step::Lookup(pending)),
        *old(b) == *final(a),
        call_ensures(
            DnsServer::upstream_answered,
            (b, pending, (Upstream::Record { ttl, record })),
            told,
        ),
        *old(c) == *final(b),
        now <= 0x4000_0000_0000_0000_0000_0000_0000_0000,
        call_ensures(DnsServer::receive, (c, next, now), r),
        asks(first@, name, dots, kind),
        asks(next@, name, more_dots, kind),
    ensures
        crate::dns::wire::answer_reply(first@, false, true, record@) == Some(made) ==> (
        told matches Step::Reply(v) && v@ == made),
        ttl > 0 && now < before + ttl * 1_000_000_000 && crate::dns::wire::answer_reply(
            next@,
            false,
            true,
            record@,
        ) == Some(made) ==> (r matches Step::Reply(v) && v@ == made),
        ttl > 0 && before + ttl * 1_000_000_000 <= now ==> (r matches Step::Lookup(p) && p.request@
            == next@ && p.name@ == name && p.kind == kind && p.received == now),
{
    lemma_asks(first@, name, dots, kind);
    lemma_asks(next@, name, more_dots, kind);
    crate::dns::server::lemma_wf(*old(b));
    let key = crate::dns::server::cache_key(name, kind);
    assert(pending.key@ == key);
    if ttl > 0 {
        let x = Remembered {
            key,
            record: record@,
            expires: (before + ttl * 1_000_000_000) as u128,
        };
        let items = crate::dns::cache::with_item(old(b).items(), old(b).limit(), x);
        assert(final(b).items() == items);
        assert(items[0] == x);
        crate::dns::answer_laws::a_key_finds_its_entry(items, key, 0);
    }
}

/// What another server said is passed on: no record as a reply without an answer, and a
/// failure as one with the code 2. Nothing is remembered of it, nor of a record that counts
/// for no time.
pub proof fn bad_news_is_not_remembered(
    a: &mut DnsServer,
    pending: Pending,
    said: Upstream,
    r: Step,
    made: Seq<u8>,
)
    requires
        old(a).wf(),
        pending.received <= 0x4000_0000_0000_0000_0000_0000_0000_0000,
        call_ensures(DnsServer::upstream_answered, (a, pending, said), r),
    ensures
        said is Nothing && crate::dns::wire::status_reply(pending.request@, false, true, 0) == Some(
            made,
        ) ==> (r matches Step::Reply(v) && v@ == made),
        said is Failure && crate::dns::wire::status_reply(pending.request@, false, true, 2) == Some(
            made,
        ) ==> (r matches Step::Reply(v) && v@ == made),
        said is Nothing || said is Failure || (said matches Upstream::Record { ttl, record } && ttl
            == 0) ==> final(a).items() == old(a).items(),
{
}

/// A server starts once. It starts again after it was stopped, or after its socket could not
/// be bound, and not while it runs.
pub proof fn a_server_runs_once(
    a: &mut DnsServer,
    started: bool,
    b: &mut DnsServer,
    again: bool,
    c: &mut DnsServer,
    ended: TaskEnd,
    stopped: Result<(), DnsError>,
    d: &mut DnsServer,
    reason: &str,
    e: DnsError,
    runs: bool,
    runs_yet: bool,
    runs_still: bool,
    runs_then: bool,
    port: u16,
)
    requires
        old(a).wf(),
        call_ensures(DnsServer::is_running, (&*old(a),), runs),
        call_ensures(DnsServer::port, (&*old(a),), port),
        call_ensures(DnsServer::try_start, (a,), started),
        *old(b) == *final(a),
        call_ensures(DnsServer::try_start, (b,), again),
        call_ensures(DnsServer::is_running, (&*final(b),), runs_yet),
        *old(c) == *final(b),
        call_ensures(DnsServer::stop, (c, ended), stopped),
        call_ensures(DnsServer::is_running, (&*final(c),), runs_still),
        *old(d) == *final(b),
        call_ensures(DnsServer::bind_failed, (d, reason), e),
        call_ensures(DnsServer::is_running, (&*final(d),), runs_then),
    ensures
        started == !runs,
        !again,
        runs_yet,
        ended is NotStarted || ended is Cancelled || ended == TaskEnd::Returned(Ok(()))
            ==> stopped is Ok && !runs_still,
        ended matches TaskEnd::Returned(Err(f)) ==> stopped == Err::<(), DnsError>(f) && runs_still,
        ended matches TaskEnd::Broken(t) ==> stopped == Err::<(), DnsError>(DnsError::Server(t))
            && runs_still,
        !runs_then,
        e matches DnsError::Bind(m) && m@ == "127.0.0.1:"@ + crate::text::decimal(port as nat)
            + ": "@ + reason@,
{
}

/// A list of servers is taken into use as a whole or, with something in it that is no
/// address, not at all. The one in use is not taken again, and a bad one is not taken either.
pub proof fn servers_are_swapped_as_a_whole(
    a: &mut DnsServer,
    list: Vec<String>,
    r: Result<(), DnsError>,
    was: Vec<String>,
    now: Vec<String>,
    tick: RefreshStep,
)
    requires
        old(a).wf(),
        call_ensures(DnsServer::upstream, (&*old(a),), was),
        call_ensures(DnsServer::refresh_tick, (&*old(a), &list), tick),
        call_ensures(DnsServer::set_upstream_for_test, (a, list), r),
        call_ensures(DnsServer::upstream, (&*final(a),), now),
    ensures
        (forall|i: int|
            0 <= i < list@.len() ==> crate::net::parse_socket((#[trigger] list@[i])@) is Some
                || crate::net::parse_ip(list@[i]@) is Some) ==> r is Ok && crate::text::texts(now@)
            == crate::text::texts(list@) && (crate::text::texts(list@) != crate::text::texts(was@)
            ==> tick is Swap),
        (exists|i: int|
            0 <= i < list@.len() && crate::net::parse_socket((#[trigger] list@[i])@) is None
                && crate::net::parse_ip(list@[i]@) is None) ==> (r matches Err(
            DnsError::Upstream(_),
        )) && crate::text::texts(now@) == crate::text::texts(was@) && (crate::text::texts(list@)
            != crate::text::texts(was@) ==> (tick matches RefreshStep::Keep(DnsError::Upstream(_)))),
        tick is Unchanged <==> crate::text::texts(list@) == crate::text::texts(was@),
        final(a).items() == old(a).items(),
        final(a).rules() == old(a).rules(),
{
    let t = crate::text::texts(list@);
    if forall|i: int|
        0 <= i < list@.len() ==> crate::net::parse_socket((#[trigger] list@[i])@) is Some
            || crate::net::parse_ip(list@[i]@) is Some {
        assert forall|j: int| 0 <= j < t.len() implies crate::net::parse_socket(#[trigger] t[j])
            is Some || crate::net::parse_ip(t[j]) is Some by {
            assert(t[j] == list@[j]@);
        }
        crate::dns::answer_laws::the_first_bad_server_is_named(t, t.len() as int);
    }
    if exists|i: int|
        0 <= i < list@.len() && crate::net::parse_socket((#[trigger] list@[i])@) is None
            && crate::net::parse_ip(list@[i]@) is None {
        let i = choose|i: int|
            0 <= i < list@.len() && crate::net::parse_socket((#[trigger] list@[i])@) is None
                && crate::net::parse_ip(list@[i]@) is None;
        assert(t[i] == list@[i]@);
        crate::dns::answer_laws::lemma_some_bad_server(t, i);
    }
}

/// A new server has the settings that it is given, with room for one answer at least, knows
/// no rule and no answer, and does not run.
pub proof fn a_new_server_is_empty(
    config: DnsConfig,
    r: Result<DnsServer, DnsError>,
    servers: Vec<String>,
    room: usize,
    rules: usize,
    runs: bool,
    port: u16,
    timeout: u64,
    refreshes: bool,
)
    requires
        call_ensures(DnsServer::new, (config,), r),
        r matches Ok(s) ==> call_ensures(DnsServer::upstream, (&s,), servers) && call_ensures(
            DnsServer::cache_capacity,
            (&s,),
            room,
        ) && call_ensures(DnsServer::rule_count, (&s,), rules) && call_ensures(
            DnsServer::is_running,
            (&s,),
            runs,
        ) && call_ensures(DnsServer::port, (&s,), port) && call_ensures(
            DnsServer::timeout_ms,
            (&s,),
            timeout,
        ) && call_ensures(DnsServer::refreshes_upstream, (&s,), refreshes),
    ensures
        r is Ok,
        crate::text::texts(servers@) == crate::text::texts(config.upstream@),
        config.cache_size > 0 ==> room == config.cache_size,
        config.cache_size == 0 ==> room == 1,
        rules == 0,
        !runs,
        port == config.port,
        timeout == config.timeout_ms,
        refreshes == config.refresh_upstream,
{
}

// ---------------------------------------------------------------------------
// Remembered answers
// ---------------------------------------------------------------------------
/// What was put under a key is found under it until its time is over, and is gone from then
/// on. Nothing changes for another key that has an answer, as long as there is room.
pub proof fn what_was_put_is_found(
    a: &mut AnswerCache,
    key: String,
    record: Vec<u8>,
    expires: u128,
    b: &mut AnswerCache,
    asked: &str,
    now: u128,
    r: Option<Vec<u8>>,
    c: &mut AnswerCache,
    was: Option<Vec<u8>>,
)
    requires
        old(a).wf(),
        call_ensures(AnswerCache::put, (a, key, record, expires), ()),
        *old(b) == *final(a),
        call_ensures(AnswerCache::fresh, (b, asked, now), r),
        *old(c) == *old(a),
        call_ensures(AnswerCache::fresh, (c, asked, now), was),
    ensures
        asked@ == key@ && now < expires ==> (r matches Some(v) && v@ == record@),
        asked@ == key@ && expires <= now ==> r is None,
        asked@ != key@ && old(a).items().len() < old(a).limit() ==> (r is Some <==> was is Some)
            && (r is Some ==> r->0@ == was->0@),
{
    let items = old(a).items();
    let limit = old(a).limit();
    let x = Remembered { key: key@, record: record@, expires };
    let new = crate::dns::cache::with_item(items, limit, x);
    assert(new[0] == x);
    if asked@ == key@ {
        crate::dns::answer_laws::a_key_finds_its_entry(new, key@, 0);
    } else if items.len() < limit {
        lemma_same_answer(items, limit, x, asked@);
    }
}

/// Putting an answer in leaves those under other keys.
proof fn lemma_same_answer(items: Seq<Remembered>, limit: nat, x: Remembered, key: Seq<char>)
    requires
        key != x.key,
        crate::dns::cache::keys_differ(items),
        items.len() < limit,
    ensures
        crate::dns::cache::find_item(crate::dns::cache::with_item(items, limit, x), key)
            == crate::dns::cache::find_item(items, key),
{
    let rest = crate::dns::cache::without_key(items, x.key);
    lemma_without_shorter(items, x.key);
    let new = crate::dns::cache::with_item(items, limit, x);
    assert(new =~= seq![x] + rest);
    assert(new.skip(1) =~= rest);
    lemma_find_without(items, x.key, key);
}

proof fn lemma_without_shorter(items: Seq<Remembered>, key: Seq<char>)
    ensures
        crate::dns::cache::without_key(items, key).len() <= items.len(),
    decreases items.len(),
{
    if items.len() > 0 {
        lemma_without_shorter(items.drop_last(), key);
    }
}

/// Forgetting one key leaves what another one finds.
proof fn lemma_find_without(items: Seq<Remembered>, gone: Seq<char>, key: Seq<char>)
    requires
        gone != key,
    ensures
        crate::dns::cache::find_item(crate::dns::cache::without_key(items, gone), key)
            == crate::dns::cache::find_item(items, key),
    decreases items.len(),
{
    if items.len() > 0 {
        lemma_find_without(items.drop_last(), gone, key);
        lemma_find_push(items.drop_last(), items.last(), key);
        assert(items.drop_last().push(items.last()) =~= items);
        lemma_find_push(
            crate::dns::cache::without_key(items.drop_last(), gone),
            items.last(),
            key,
        );
    }
}

/// What is found with one more entry at the end.
proof fn lemma_find_push(items: Seq<Remembered>, x: Remembered, key: Seq<char>)
    ensures
        crate::dns::cache::find_item(items.push(x), key) == match crate::dns::cache::find_item(
            items,
            key,
        ) {
            Some(y) => Some(y),
            None => if x.key == key {
                Some(x)
            } else {
                None
            },
        },
    decreases items.len(),
{
    let all = items.push(x);
    if items.len() == 0 {
        assert(all.skip(1) =~= Seq::<Remembered>::empty());
        assert(crate::dns::cache::find_item(all.skip(1), key) is None);
    } else {
        assert(all[0] == items[0]);
        assert(all.skip(1) =~= items.skip(1).push(x));
        lemma_find_push(items.skip(1), x, key);
    }
}

// ---------------------------------------------------------------------------
// The proxy
// ---------------------------------------------------------------------------
/// A new proxy passes 1024 queries on at a time: with that many on their way the next one is
/// dropped, and each one that is done with makes room for another. After a failure to receive
/// the proxy waits for 100 milliseconds.
pub proof fn the_proxy_counts_its_queries(
    p: &mut DnsProxy,
    event: &ProxyEvent,
    r: ProxyAction,
    was: usize,
    left: usize,
)
    requires
        old(p).wf(),
        event is QueryDone ==> old(p).free() < 1024,
        call_ensures(DnsProxy::available_permits, (&*old(p),), was),
        call_ensures(DnsProxy::step, (p, event), r),
        call_ensures(DnsProxy::available_permits, (&*final(p),), left),
    ensures
        was <= 1024 && left <= 1024,
        event is Query && was > 0 ==> r == ProxyAction::Forward && left == was - 1,
        event is Query && was == 0 ==> r == ProxyAction::Drop && left == 0,
        event is QueryDone ==> r == ProxyAction::Wait && left == was + 1,
        event is ReceiveFailed ==> r == (ProxyAction::BackOff { ms: 100 }) && left == was,
        event is Polled ==> left == was && (r == ProxyAction::RestoreAndStop || r
            == ProxyAction::Wait),
{
}

/// The proxy restores the settings and stops once the signal file says `shutdown`, whatever
/// white space stands around it, and goes on waiting as long as it says anything else.
pub proof fn the_proxy_stops_at_the_signal(
    p: &mut DnsProxy,
    content: Option<String>,
    r: ProxyAction,
)
    requires
        old(p).wf(),
        call_ensures(DnsProxy::step, (p, &ProxyEvent::Polled(content)), r),
    ensures
        r == ProxyAction::RestoreAndStop <==> (content matches Some(t) && crate::text::trim(t@)
            == "shutdown"@),
        r == ProxyAction::RestoreAndStop || r == ProxyAction::Wait,
{
}

/// A new proxy listens and passes queries on at this machine, at the two ports, has 1024
/// places, and knows the servers in the file: its lines without the white space around them.
pub proof fn a_new_proxy(
    listen: u16,
    target: u16,
    text: &str,
    p: DnsProxy,
    q: DnsProxy,
    here: SocketAddr,
    there: SocketAddr,
    free: usize,
    known: bool,
    servers: Vec<String>,
    none: Vec<String>,
)
    requires
        call_ensures(DnsProxy::new, (listen, target, Some(text)), p),
        call_ensures(DnsProxy::new, (listen, target, None), q),
        call_ensures(DnsProxy::listen_addr, (&p,), here),
        call_ensures(DnsProxy::target_addr, (&p,), there),
        call_ensures(DnsProxy::available_permits, (&p,), free),
        call_ensures(DnsProxy::has_original, (&p,), known),
        call_ensures(read_original_dns, (Some(text),), servers),
        call_ensures(read_original_dns, (None,), none),
    ensures
        here.ip == there.ip && (here.ip matches IpAddr::V4(o) && o.a == 127 && o.b == 0 && o.c == 0
            && o.d == 1),
        here.port == listen && there.port == target,
        free == 1024,
        crate::text::texts(servers@) == crate::dns::platform::entries(crate::text::lines(text@)),
        p.servers() == crate::text::texts(servers@),
        known <==> servers@.len() > 0,
        none@.len() == 0 && q.servers().len() == 0,
{
    crate::dns::system_laws::the_files_of_the_proxy(seq![], seq![], text@);
    assert(crate::text::texts(servers@).len() == servers@.len());
    assert(crate::text::texts(none@).len() == none@.len());
}

/// The signal to stop is `shutdown`, with any white space around it, and nothing else; without
/// a file there is none.
pub proof fn the_signal_to_stop(text: &str, r: bool, none: bool)
    requires
        call_ensures(check_shutdown_signal, (Some(text),), r),
        call_ensures(check_shutdown_signal, (None,), none),
    ensures
        r <==> crate::text::trim(text@) == "shutdown"@,
        !none,
{
    crate::dns::system_laws::the_files_of_the_proxy(seq![], seq![], text@);
}

/// Entries are told apart into addresses and others: every entry goes into one of two lists,
/// and both keep the order.
pub proof fn entries_go_into_two_lists(
    entries: &[String],
    r: (Vec<String>, Vec<String>),
    more: &[String],
    longer: (Vec<String>, Vec<String>),
    e: String,
)
    requires
        call_ensures(validate_dns_entries, (entries,), r),
        more@ == entries@.push(e),
        call_ensures(validate_dns_entries, (more,), longer),
    ensures
        entries@.len() == 0 ==> r.0@.len() == 0 && r.1@.len() == 0,
        crate::net::parse_ip(e@) is Some ==> crate::text::texts(longer.0@) == crate::text::texts(
            r.0@,
        ).push(e@) && crate::text::texts(longer.1@) == crate::text::texts(r.1@),
        crate::net::parse_ip(e@) is None ==> crate::text::texts(longer.1@) == crate::text::texts(
            r.1@,
        ).push(e@) && crate::text::texts(longer.0@) == crate::text::texts(r.0@),
{
    let t = crate::text::texts(entries@);
    crate::dns::system_laws::addresses_are_told_apart(t, e@);
    assert(crate::text::texts(more@) =~= t.push(e@));
    if entries@.len() == 0 {
        assert(t =~= Seq::empty());
        assert(crate::text::texts(r.0@).len() == r.0@.len());
        assert(crate::text::texts(r.1@).len() == r.1@.len());
    }
}

/// A proxy that leaves restores the servers that it knows, at a valid interface: those of them
/// that are addresses, or none if none is. It removes the signal file and the file with the
/// servers in any case.
pub proof fn a_proxy_restores_what_it_knows(
    p: DnsProxy,
    name: String,
    text: &str,
    valid: Result<(), PlatformError>,
    known: bool,
    r: ExitPlan,
    x: PlatformError,
    without: ExitPlan,
)
    requires
        call_ensures(DnsProxy::has_original, (&p,), known),
        text@ == name@,
        call_ensures(validate_interface_name, (text,), valid),
        call_ensures(DnsProxy::restore_dns_and_exit, (&p, &Ok(name)), r),
        call_ensures(DnsProxy::restore_dns_and_exit, (&p, &Err(x)), without),
    ensures
        r.remove@ == seq![StateFile::Signal, StateFile::Original],
        without.remove@ == seq![StateFile::Signal, StateFile::Original],
        without.args is None,
        r.args is Some <==> known && valid is Ok,
        r.args is Some && (forall|i: int|
            0 <= i < p.servers().len() ==> crate::net::parse_ip(#[trigger] p.servers()[i]) is None)
            ==> crate::text::texts(r.args->0@) == seq!["-setdnsservers"@, name@, "Empty"@],
        r.args is Some && (exists|i: int|
            0 <= i < p.servers().len() && crate::net::parse_ip(#[trigger] p.servers()[i]) is Some)
            ==> crate::text::texts(r.args->0@) == seq!["-setdnsservers"@, name@]
            + crate::dns::proxy::entries_that(p.servers(), true),
{
    crate::dns::system_laws::recorded_addresses_are_restored(name@, p.servers());
    crate::dns::system_laws::names_of_interfaces_are_checked(text, valid);
    crate::dns::system_laws::characters_of_interfaces(name@);
}

/// The ports are 53 and 1053. The argument behind `--listen` or `--target` takes their place
/// if it is a port; other arguments do not count, nor does the first one of all, the program.
pub proof fn the_ports_of_the_proxy(args: &[String], r: (u16, u16), n: nat)
    requires
        call_ensures(proxy_ports, (args,), r),
        n <= 65535,
    ensures
        args@.len() <= 2 ==> r == (53u16, 1053u16),
        args@.len() == 3 && args@[1]@ == "--listen"@ && args@[2]@ == crate::text::decimal(n) ==> r.0
            == n && r.1 == 1053,
        args@.len() == 3 && args@[1]@ == "--target"@ && args@[2]@ == crate::text::decimal(n) ==> r.0
            == 53 && r.1 == n,
        (forall|i: int|
            1 <= i < args@.len() ==> (#[trigger] args@[i])@ != "--listen"@ && args@[i]@
                != "--target"@) ==> r == (53u16, 1053u16),
{
    let t = crate::text::texts(args@);
    crate::text_laws::numbers_are_read(seq![], 65535, n);
    crate::dns::system_laws::options_take_the_argument_behind(t, 1, 53, 1053);
    crate::dns::system_laws::options_take_the_argument_behind(t, 2, 53, 1053);
    crate::dns::system_laws::options_take_the_argument_behind(t, 3, n as u16, 1053);
    crate::dns::system_laws::options_take_the_argument_behind(t, 3, 53, n as u16);
    reveal_strlit("--listen");
    reveal_strlit("--target");
    assert("--listen"@[2] != "--target"@[2]);
    if args@.len() == 3 {
        assert(t[1] == args@[1]@);
        assert(t[2] == args@[2]@);
    }
    if forall|i: int|
        1 <= i < args@.len() ==> (#[trigger] args@[i])@ != "--listen"@ && args@[i]@ != "--target"@ {
        assert forall|i: int| 1 <= i < t.len() implies (#[trigger] t[i]) != "--listen"@ && t[i]
            != "--target"@ by {
            assert(t[i] == args@[i]@);
        }
        lemma_no_option(t, 1);
    }
}

/// Without an option the ports stay.
proof fn lemma_no_option(t: Seq<Seq<char>>, i: int)
    requires
        1 <= i,
        forall|k: int| i <= k < t.len() ==> (#[trigger] t[k]) != "--listen"@ && t[k] != "--target"@,
    ensures
        crate::dns::proxy::ports_from(t, i, 53, 1053) == (53u16, 1053u16),
    decreases t.len() - i,
{
    crate::dns::system_laws::options_take_the_argument_behind(t, i, 53, 1053);
    if i < t.len() {
        assert(t[i] != "--listen"@);
        lemma_no_option(t, i + 1);
    }
}

/// Errors of the proxy and of the server say what failed, and what they hold.
pub proof fn errors_say_what_failed(p: ProxyError, pt: String, d: DnsError, dt: String)
    requires
        call_ensures(ProxyError::to_text, (&p,), pt),
        call_ensures(DnsError::to_text, (&d,), dt),
    ensures
        p matches ProxyError::BindFailed { addr, reason } ==> pt@ == "bind failed on "@
            + crate::net::socket_text(addr) + ": "@ + reason@,
        p matches ProxyError::Io(t) ==> pt@ == "io error: "@ + t@,
        p matches ProxyError::UpstreamTimeout(n) ==> pt@ == "upstream timeout after "@
            + crate::text::decimal(n as nat) + "s"@,
        d matches DnsError::Bind(t) ==> dt@ == "failed to bind DNS socket: "@ + t@,
        d matches DnsError::Server(t) ==> dt@ == "DNS server error: "@ + t@,
        d matches DnsError::Upstream(t) ==> dt@ == "failed to resolve upstream: "@ + t@,
        d matches DnsError::Codec(t) ==> dt@ == "DNS message codec error: "@ + t@,
        d matches DnsError::Resolver(t) ==> dt@ == "failed to build resolver: "@ + t@,
{
}

// ---------------------------------------------------------------------------
// Other servers
// ---------------------------------------------------------------------------
/// Of some records the first one of the type counts, as it was sent; and without one there is
/// none.
pub proof fn a_record_is_taken(records: Vec<UpstreamRecord>, kind: u16, r: Upstream, i: int)
    requires
        call_ensures(matching_record, (records, kind), r),
        0 <= i <= records@.len(),
        forall|j: int| 0 <= j < i ==> (#[trigger] records@[j]).kind != kind,
        i < records@.len() ==> records@[i].kind == kind,
    ensures
        i < records@.len() ==> (r matches Upstream::Record { ttl, record } && ttl == records@[i].ttl
            && record@ == records@[i].record@),
        i == records@.len() ==> r is Nothing,
{
    crate::dns::answer_laws::the_first_record_of_the_type_counts(records@, kind, i);
}

/// A server is asked at its port, or at 53 where it names none; the first one that is no
/// address is named.
pub proof fn servers_are_addresses(
    list: &Vec<String>,
    r: Result<Vec<SocketAddr>, DnsError>,
    i: int,
)
    requires
        call_ensures(server_addresses, (list,), r),
        0 <= i <= list@.len(),
        forall|j: int|
            0 <= j < i ==> crate::net::parse_socket((#[trigger] list@[j])@) is Some
                || crate::net::parse_ip(list@[j]@) is Some,
        i < list@.len() ==> crate::net::parse_socket(list@[i]@) is None && crate::net::parse_ip(
            list@[i]@,
        ) is None,
    ensures
        i < list@.len() ==> (r matches Err(DnsError::Upstream(m)) && m@
            == crate::dns::server::bad_server_message(list@[i]@)),
        i == list@.len() ==> (r matches Ok(v) && v@.len() == list@.len() && forall|j: int|
            0 <= j < v@.len() ==> match crate::net::parse_socket(list@[j]@) {
                Some(a) => #[trigger] v@[j] == a,
                None => Some(v@[j].ip) == crate::net::parse_ip(list@[j]@) && v@[j].port == 53,
            }),
{
    let t = crate::text::texts(list@);
    assert forall|j: int| 0 <= j < i implies crate::net::parse_socket(#[trigger] t[j]) is Some
        || crate::net::parse_ip(t[j]) is Some by {
        assert(t[j] == list@[j]@);
    }
    if i < list@.len() {
        assert(t[i] == list@[i]@);
    }
    crate::dns::answer_laws::the_first_bad_server_is_named(t, i);
    if i == list@.len() {
        assert forall|j: int| 0 <= j < list@.len() implies match crate::net::parse_socket(
            list@[j]@,
        ) {
            Some(a) => #[trigger] r->Ok_0@[j] == a,
            None => Some(r->Ok_0@[j].ip) == crate::net::parse_ip(list@[j]@) && r->Ok_0@[j].port
                == 53,
        } by {
            assert(crate::dns::server::server_address(list@[j]@) == Some(r->Ok_0@[j]));
        }
    }
}

/// Questions for addresses have one key exactly if they are the same.
pub proof fn keys_are_those_of_questions(
    name: &str,
    kind: u16,
    key: String,
    other: &str,
    other_kind: u16,
    other_key: String,
)
    requires
        call_ensures(make_cache_key, (name, kind), key),
        call_ensures(make_cache_key, (other, other_kind), other_key),
        kind == 1 || kind == 28,
        other_kind == 1 || other_kind == 28,
    ensures
        key@ == other_key@ <==> name@ == other@ && kind == other_kind,
{
    crate::dns::answer_laws::keys_tell_questions_apart(name@, kind, other@, other_kind);
}

/// What a request asks is answered as what it reads as: bytes that were read as a query are
/// answered by the bytes alone just so.
pub proof fn requests_are_answered_as_they_read(
    a: &mut DnsServer,
    b: &mut DnsServer,
    request: &[u8],
    query: DnsQuery,
    now: u128,
    r: Step,
    s: Step,
)
    requires
        old(a).wf(),
        now <= 0x4000_0000_0000_0000_0000_0000_0000_0000,
        *old(b) == *old(a),
        crate::dns::wire::decoded(request@) == Some(query@),
        call_ensures(DnsServer::receive, (a, request, now), r),
        call_ensures(DnsServer::answer_query, (b, request, Some(query), now), s),
    ensures
        final(a).items() == final(b).items(),
        r is Ignore <==> s is Ignore,
        r is Lookup <==> s is Lookup,
        r is Reply && s is Reply ==> r->Reply_0@ == s->Reply_0@,
        r is Lookup && s is Lookup ==> r->Lookup_0.name@ == s->Lookup_0.name@ && r->Lookup_0.kind
            == s->Lookup_0.kind && r->Lookup_0.key@ == s->Lookup_0.key@,
{
}

/// What asks nothing is told of a format error, if it is long enough to have a number; and
/// nothing is remembered or forgotten.
pub proof fn what_asks_nothing_is_refused(
    a: &mut DnsServer,
    request: &[u8],
    now: u128,
    r: Step,
)
    requires
        old(a).wf(),
        now <= 0x4000_0000_0000_0000_0000_0000_0000_0000,
        call_ensures(DnsServer::receive, (a, request, now), r),
        crate::dns::wire::decoded(request@) matches Some(f) ==> !f.is_query || !f.is_standard
            || f.question is None,
    ensures
        request@.len() >= 2 ==> (r matches Step::Reply(v) && v@ == seq![
            request@[0],
            request@[1],
            0x80u8,
            1,
            0,
            0,
            0,
            0,
            0,
            0,
            0,
            0,
        ]),
        request@.len() < 2 ==> r is Ignore,
        final(a).items() == old(a).items(),
{
}

// ---------------------------------------------------------------------------
// Tables
// ---------------------------------------------------------------------------
/// A new tree finds nothing. A value that is put in for a domain is found for the domain, and
/// one is found for every domain below it.
pub proof fn what_is_put_into_a_tree_is_found<T>(
    a: &mut Trie<T>,
    parts: Seq<Seq<char>>,
    domain: &str,
    value: T,
    r: Option<&T>,
    front: Seq<Seq<char>>,
    below: &str,
    s: Option<&T>,
    t: Trie<T>,
    u: Option<&T>,
)
    requires
        old(a).wf(),
        parts.len() > 0,
        forall|i: int|
            0 <= i < parts.len() ==> (#[trigger] parts[i]).len() > 0 && !parts[i].contains('.'),
        forall|i: int|
            0 <= i < front.len() ==> (#[trigger] front[i]).len() > 0 && !front[i].contains('.'),
        domain@ == crate::text::join(parts, seq!['.']),
        below@ == crate::text::join(front + parts, seq!['.']),
        call_ensures(Trie::<T>::insert, (a, domain, value), ()),
        call_ensures(Trie::<T>::find_longest_suffix_match, (&*final(a), domain), r),
        call_ensures(Trie::<T>::find_longest_suffix_match, (&*final(a), below), s),
        call_ensures(Trie::<T>::new, (), t),
        call_ensures(Trie::<T>::find_longest_suffix_match, (&t, domain), u),
    ensures
        r matches Some(v) && *v == value,
        s is Some,
        u is None,
{
    let ls = crate::dns::trie::labels(domain@);
    crate::dns::system_laws::labels_go_from_the_end(parts);
    assert(ls.take(ls.len() as int) =~= ls);
    crate::dns::system_laws::the_longest_beginning_answers(
        final(a)@,
        ls,
        ls.len() as int,
        ls.len() as int,
    );
    let all = front + parts;
    assert forall|i: int| 0 <= i < all.len() implies (#[trigger] all[i]).len() > 0
        && !all[i].contains('.') by {
        if i < front.len() {
            assert(all[i] == front[i]);
        } else {
            assert(all[i] == parts[i - front.len()]);
        }
    }
    crate::dns::system_laws::labels_go_from_the_end(all);
    let bl = crate::dns::trie::labels(below@);
    assert(bl.take(ls.len() as int) =~= ls) by {
        assert forall|i: int| 0 <= i < ls.len() implies bl[i] == ls[i] by {
            assert(bl[i] == all[all.len() - 1 - i]);
            assert(ls[i] == parts[parts.len() - 1 - i]);
        }
    }
    crate::dns::trie::registered_domain_answers(final(a)@, domain@, below@);
    crate::dns::system_laws::the_longest_beginning_answers(
        t@,
        ls,
        ls.len() as int,
        -1,
    );
}

/// A new engine holds nothing, and blocks nothing.
pub proof fn new_engines_hold_nothing(
    e: AdBlockEngine,
    domain: &str,
    r: Option<AdBlockAction>,
    n: usize,
    w: usize,
    z: usize,
    x: usize,
    rules: RuleEngine,
    m: usize,
    a: Option<IpAddr>,
)
    requires
        call_ensures(AdBlockEngine::new, (), e),
        call_ensures(AdBlockEngine::check, (&e, domain), r),
        call_ensures(AdBlockEngine::rule_count, (&e,), n),
        call_ensures(AdBlockEngine::whitelist_size, (&e,), w),
        call_ensures(AdBlockEngine::zero_addr_count, (&e,), z),
        call_ensures(AdBlockEngine::nxdomain_count, (&e,), x),
        call_ensures(RuleEngine::new, (), rules),
        call_ensures(RuleEngine::rule_count, (&rules,), m),
        call_ensures(RuleEngine::resolve, (&rules, domain), a),
    ensures
        r is None,
        n == 0 && w == 0 && z == 0 && x == 0,
        m == 0,
        a is None,
{
    crate::dns::adblock::parts_decide(e@, domain@);
    crate::dns::matcher::no_part_no_answer(rules@, domain@);
}

/// The count of rules is that of all three lists together, each entry once.
pub proof fn engines_count_their_entries(
    e: &mut AdBlockEngine,
    pairs: Vec<(String, IpAddr)>,
    nx: Vec<String>,
    white: Vec<String>,
    n: usize,
    w: usize,
    z: usize,
    x: usize,
)
    requires
        call_ensures(AdBlockEngine::rebuild, (e, pairs, nx, white), ()),
        call_ensures(AdBlockEngine::rule_count, (&*final(e),), n),
        call_ensures(AdBlockEngine::whitelist_size, (&*final(e),), w),
        call_ensures(AdBlockEngine::zero_addr_count, (&*final(e),), z),
        call_ensures(AdBlockEngine::nxdomain_count, (&*final(e),), x),
    ensures
        n == w + z + x,
{
}

/// What is decided once the rules of some profiles are loaded: a name with a rule in force, or
/// below one, gets the address of the only rule for the longest part of it that any such rule
/// names, if it is of the type; a name without gets nothing from here; and only addresses are
/// asked for.
pub proof fn loaded_rules_decide(
    a: &mut DnsServer,
    profiles: &[Profile],
    e: &mut RuleEngine,
    name: &str,
    kind: u16,
    found: Option<IpAddr>,
    r: Decision,
    rules: usize,
    names: usize,
)
    requires
        old(a).wf(),
        call_ensures(DnsServer::reload_rules, (a, profiles), ()),
        call_ensures(RuleEngine::rebuild, (e, profiles), ()),
        call_ensures(RuleEngine::resolve, (&*final(e), name), found),
        call_ensures(RuleEngine::rule_count, (&*final(e),), rules),
        call_ensures(DnsServer::rule_count, (&*final(a),), names),
        call_ensures(DnsServer::decide, (&*final(a), name, kind), r),
    ensures
        kind != 1 && kind != 28 ==> r is NotSupported,
        (kind == 1 || kind == 28) && found is None ==> r is Forward,
        kind == 1 && (found matches Some(ip) && ip is V4) ==> r == Decision::Answer(found->0),
        kind == 28 && (found matches Some(ip) && ip is V6) ==> r == Decision::Answer(found->0),
        kind == 1 && (found matches Some(ip) && ip is V6) ==> r is NoRecord,
        kind == 28 && (found matches Some(ip) && ip is V4) ==> r is NoRecord,
        rules == names,
{
    assert(final(a).rules() =~= final(e)@);
}

/// A cache has room for as many answers as it is made for, and for one at least. A new one,
/// and one that was cleared, gives no answer.
pub proof fn empty_caches_give_nothing(
    size: usize,
    c: AnswerCache,
    room: usize,
    a: &mut AnswerCache,
    b: &mut AnswerCache,
    key: &str,
    now: u128,
    r: Option<Vec<u8>>,
    d: &mut AnswerCache,
    s: Option<Vec<u8>>,
)
    requires
        call_ensures(AnswerCache::new, (size,), c),
        call_ensures(AnswerCache::capacity, (&c,), room),
        old(a).wf(),
        call_ensures(AnswerCache::clear, (a,), ()),
        *old(b) == *final(a),
        call_ensures(AnswerCache::fresh, (b, key, now), r),
        *old(d) == c,
        call_ensures(AnswerCache::fresh, (d, key, now), s),
    ensures
        size > 0 ==> room == size,
        size == 0 ==> room == 1,
        r is None,
        s is None,
{
    crate::dns::answer_laws::a_key_finds_its_entry(Seq::empty(), key@, 0);
}

/// Servers that are taken into use are the servers in use.
pub proof fn servers_are_taken_into_use(a: &mut DnsServer, list: Vec<String>, now: Vec<String>)
    requires
        old(a).wf(),
        call_ensures(DnsServer::use_upstream, (a, list), ()),
        call_ensures(DnsServer::upstream, (&*final(a),), now),
    ensures
        crate::text::texts(now@) == crate::text::texts(list@),
        final(a).items() == old(a).items(),
        final(a).rules() == old(a).rules(),
{
}

/// A value that is put into a tree changes nothing for a domain that is neither its own domain
/// nor below it.
pub proof fn other_domains_find_what_they_found<T>(
    a: &mut Trie<T>,
    domain: &str,
    value: T,
    other: &str,
    before: Option<&T>,
    after: Option<&T>,
)
    requires
        old(a).wf(),
        call_ensures(Trie::<T>::find_longest_suffix_match, (&*old(a), other), before),
        call_ensures(Trie::<T>::insert, (a, domain, value), ()),
        call_ensures(Trie::<T>::find_longest_suffix_match, (&*final(a), other), after),
        !crate::dns::trie::leads_to(
            crate::dns::trie::labels(domain@),
            crate::dns::trie::labels(other@),
        ),
    ensures
        before is None <==> after is None,
        before is Some && after is Some ==> *before->0 == *after->0,
{
    let k = crate::dns::trie::labels(domain@);
    let path = crate::dns::trie::labels(other@);
    if k.len() > 0 {
        lemma_same_deepest(old(a)@, k, value, path, path.len() as int);
    }
}

/// An entry that does not lead to a list of labels does not matter for it.
proof fn lemma_same_deepest<T>(
    m: Map<Seq<Seq<char>>, T>,
    k: Seq<Seq<char>>,
    v: T,
    path: Seq<Seq<char>>,
    n: int,
)
    requires
        !crate::dns::trie::leads_to(k, path),
        n <= path.len(),
    ensures
        crate::dns::trie::deepest(m.insert(k, v), path, n) == crate::dns::trie::deepest(m, path, n),
    decreases n + 1,
{
    if n >= 0 {
        let p = path.take(n);
        if p == k {
            assert(path.take(k.len() as int) =~= k);
            assert(crate::dns::trie::leads_to(k, path));
        }
        assert(m.insert(k, v).contains_key(p) == m.contains_key(p));
        lemma_same_deepest(m, k, v, path, n - 1);
    }
}

/// A new tree holds nothing. A domain that is put in counts, unless it is there already.
pub proof fn trees_count_their_domains<T>(
    t: Trie<T>,
    empty: bool,
    n: usize,
    nodes: usize,
    a: &mut Trie<T>,
    domain: &str,
    value: T,
    parts: Seq<Seq<char>>,
    before: usize,
    after: usize,
    empty_after: bool,
)
    requires
        call_ensures(Trie::<T>::new, (), t),
        call_ensures(Trie::<T>::is_empty, (&t,), empty),
        call_ensures(Trie::<T>::len, (&t,), n),
        call_ensures(Trie::<T>::node_count, (&t,), nodes),
        old(a).wf(),
        parts.len() > 0,
        forall|i: int|
            0 <= i < parts.len() ==> (#[trigger] parts[i]).len() > 0 && !parts[i].contains('.'),
        domain@ == crate::text::join(parts, seq!['.']),
        call_ensures(Trie::<T>::len, (&*old(a),), before),
        call_ensures(Trie::<T>::insert, (a, domain, value), ()),
        call_ensures(Trie::<T>::len, (&*final(a),), after),
        call_ensures(Trie::<T>::is_empty, (&*final(a),), empty_after),
    ensures
        empty,
        n == 0,
        nodes == 1,
        !empty_after,
        after == before || after == before + 1,
        after == before <==> old(a)@.contains_key(crate::dns::trie::labels(domain@)),
{
    crate::dns::system_laws::labels_go_from_the_end(parts);
    let k = crate::dns::trie::labels(domain@);
    assert(t@.dom() =~= Set::empty());
    assert(crate::dns::trie::stems(t@) =~= Set::empty().insert(Seq::<Seq<char>>::empty())) by {
        assert forall|p: Seq<Seq<char>>|
            crate::dns::trie::stems(t@).contains(p) implies p =~= Seq::<Seq<char>>::empty() by {
            crate::dns::system_laws::stems_are_beginnings(t@, p);
        }
    }
    assert(final(a)@.contains_key(k));
    assert(final(a)@.dom() =~= old(a)@.dom().insert(k));
    assert(final(a)@.dom().contains(k));
}

} // verus!
