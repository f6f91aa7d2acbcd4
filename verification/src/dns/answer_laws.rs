//! What is answered, remembered and asked, said of names, times and lists.
use vstd::prelude::*;

use crate::dns::server::{
    resolver_plan, Decision, DnsError, ResolverPlan, Step, UpstreamRecord,
};
use crate::net::{IpAddr, SocketAddr};

verus! {

use crate::dns::cache::Remembered;
use crate::dns::wire::QueryFacts;

// ---------------------------------------------------------------------------
// What is remembered
// ---------------------------------------------------------------------------
/// A key finds the first entry that has it, and nothing if none has.
pub proof fn a_key_finds_its_entry(items: Seq<Remembered>, key: Seq<char>, i: int)
    requires
        0 <= i <= items.len(),
        forall|j: int| 0 <= j < i ==> (#[trigger] items[j]).key != key,
        i < items.len() ==> items[i].key == key,
    ensures
        crate::dns::cache::find_item(items, key) == if i < items.len() {
            Some(items[i])
        } else {
            None
        },
    decreases i,
{
    if i > 0 {
        let rest = items.skip(1);
        assert(items[0].key != key);
        assert forall|j: int| 0 <= j < i - 1 implies (#[trigger] rest[j]).key != key by {
            assert(rest[j] == items[j + 1]);
        }
        a_key_finds_its_entry(rest, key, i - 1);
    }
}

/// Forgetting a key takes its entry out and leaves all others, in order; and where no entry
/// has the key, nothing changes.
pub proof fn forgetting_takes_one_entry_out(
    a: Seq<Remembered>,
    x: Remembered,
    b: Seq<Remembered>,
)
    requires
        forall|i: int| 0 <= i < a.len() ==> (#[trigger] a[i]).key != x.key,
        forall|i: int| 0 <= i < b.len() ==> (#[trigger] b[i]).key != x.key,
    ensures
        crate::dns::cache::without_key(a + seq![x] + b, x.key) == a + b,
        crate::dns::cache::without_key(b, x.key) == b,
    decreases b.len(),
{
    if b.len() == 0 {
        lemma_nothing_to_forget(a, x.key);
        assert((a + seq![x] + b).drop_last() =~= a);
        assert((a + seq![x] + b).last() == x);
        assert(a + b =~= a);
        assert(b =~= seq![]);
    } else {
        let init = b.drop_last();
        assert forall|i: int| 0 <= i < init.len() implies (#[trigger] init[i]).key != x.key by {
            assert(init[i] == b[i]);
        }
        forgetting_takes_one_entry_out(a, x, init);
        lemma_nothing_to_forget(b, x.key);
        assert((a + seq![x] + b).drop_last() =~= a + seq![x] + init);
        assert((a + seq![x] + b).last() == b[b.len() - 1]);
        assert((a + init).push(b.last()) =~= a + b);
    }
}

/// Where no entry has a key, forgetting it changes nothing.
proof fn lemma_nothing_to_forget(a: Seq<Remembered>, key: Seq<char>)
    requires
        forall|i: int| 0 <= i < a.len() ==> (#[trigger] a[i]).key != key,
    ensures
        crate::dns::cache::without_key(a, key) == a,
    decreases a.len(),
{
    if a.len() == 0 {
        assert(a =~= seq![]);
    } else {
        let init = a.drop_last();
        assert forall|i: int| 0 <= i < init.len() implies (#[trigger] init[i]).key != key by {
            assert(init[i] == a[i]);
        }
        lemma_nothing_to_forget(init, key);
        assert(a[a.len() - 1].key != key);
        assert(init.push(a.last()) =~= a);
    }
}

/// A new answer is put in front. It takes the place of one under the same key; otherwise all
/// others stay behind it, but for the last one where there is no room.
pub proof fn new_answers_come_first(
    a: Seq<Remembered>,
    y: Remembered,
    b: Seq<Remembered>,
    limit: nat,
    x: Remembered,
)
    requires
        forall|i: int| 0 <= i < a.len() ==> (#[trigger] a[i]).key != x.key,
        forall|i: int| 0 <= i < b.len() ==> (#[trigger] b[i]).key != x.key,
        y.key == x.key,
    ensures
        a.len() + b.len() < limit ==> crate::dns::cache::with_item(a + seq![y] + b, limit, x)
            == seq![x] + a + b,
        a.len() < limit ==> crate::dns::cache::with_item(a, limit, x) == seq![x] + a,
        a.len() == limit && limit > 0 ==> crate::dns::cache::with_item(a, limit, x) == seq![x]
            + a.drop_last(),
{
    forgetting_takes_one_entry_out(a, y, b);
    lemma_nothing_to_forget(a, x.key);
    assert(seq![x] + (a + b) =~= seq![x] + a + b);
    if a.len() == limit && limit > 0 {
        assert((seq![x] + a).take(limit as int) =~= seq![x] + a.drop_last());
    }
}

/// A remembered answer is given until its time is over. Once it is, the answer is forgotten
/// and not given any more; all others stay.
pub proof fn answers_count_until_their_time(
    a: Seq<Remembered>,
    x: Remembered,
    b: Seq<Remembered>,
    now: u128,
    request: Seq<u8>,
)
    requires
        forall|i: int| 0 <= i < a.len() ==> (#[trigger] a[i]).key != x.key,
        forall|i: int| 0 <= i < b.len() ==> (#[trigger] b[i]).key != x.key,
    ensures
        now < x.expires ==> crate::dns::server::remembered_reply(
            a + seq![x] + b,
            x.key,
            now,
            request,
        ) == crate::dns::server::answer(request, x.record) && crate::dns::cache::swept(
            a + seq![x] + b,
            x.key,
            now,
        ) == a + seq![x] + b,
        x.expires <= now ==> crate::dns::server::remembered_reply(
            a + seq![x] + b,
            x.key,
            now,
            request,
        ) is None && crate::dns::cache::swept(a + seq![x] + b, x.key, now) == a + b,
        crate::dns::server::remembered_reply(a, x.key, now, request) is None,
        crate::dns::cache::swept(a, x.key, now) == a,
{
    let all = a + seq![x] + b;
    assert forall|j: int| 0 <= j < a.len() implies (#[trigger] all[j]).key != x.key by {
        assert(all[j] == a[j]);
    }
    assert(all[a.len() as int] == x);
    a_key_finds_its_entry(all, x.key, a.len() as int);
    a_key_finds_its_entry(a, x.key, a.len() as int);
    forgetting_takes_one_entry_out(a, x, b);
}

// ---------------------------------------------------------------------------
// Questions
// ---------------------------------------------------------------------------
/// The dots at the end of a name do not count, and nothing else is taken off.
pub proof fn dots_at_the_end_do_not_count(s: Seq<char>, dots: Seq<char>)
    requires
        s.len() == 0 || s.last() != '.',
        forall|i: int| 0 <= i < dots.len() ==> #[trigger] dots[i] == '.',
    ensures
        crate::dns::server::trim_dots(s + dots) == s,
    decreases dots.len(),
{
    if dots.len() == 0 {
        assert(s + dots =~= s);
    } else {
        let init = dots.drop_last();
        assert forall|i: int| 0 <= i < init.len() implies #[trigger] init[i] == '.' by {
            assert(init[i] == dots[i]);
        }
        assert((s + dots).last() == dots[dots.len() - 1]);
        assert((s + dots).drop_last() =~= s + init);
        dots_at_the_end_do_not_count(s, init);
    }
}

/// A standard query asks its first question, for the name without the dots at its end.
/// Nothing else is a question.
pub proof fn only_standard_queries_ask(f: QueryFacts, name: Seq<char>, kind: u16)
    ensures
        crate::dns::server::question_of(None) is None,
        !f.is_query || !f.is_standard || f.question is None ==> crate::dns::server::question_of(
            Some(f),
        ) is None,
        f.is_query && f.is_standard && f.question == Some((name, kind))
            ==> crate::dns::server::question_of(Some(f)) == Some(
            (crate::dns::server::trim_dots(name), kind),
        ),
{
}

/// Answers for two questions are remembered under the same key only if name and type are the
/// same, of the types 1 and 28.
pub proof fn keys_tell_questions_apart(name: Seq<char>, kind: u16, other: Seq<char>, other_kind: u16)
    requires
        kind == 1 || kind == 28,
        other_kind == 1 || other_kind == 28,
    ensures
        crate::dns::server::cache_key(name, kind) == crate::dns::server::cache_key(other, other_kind)
            <==> name == other && kind == other_kind,
{
    let a = crate::dns::server::cache_key(name, kind);
    let b = crate::dns::server::cache_key(other, other_kind);
    if a == b {
        assert(a.last() == b.last());
        assert(name =~= a.drop_last().drop_last());
        assert(other =~= b.drop_last().drop_last());
    }
}

/// What cannot be answered gets a reply that is its header alone, with the number of the
/// request and the code for a format error, if the request is long enough to have a number.
pub proof fn what_cannot_be_answered_is_told_so(request: Seq<u8>)
    ensures
        crate::dns::server::sent(request, None) == if request.len() >= 2 {
            Some(seq![request[0], request[1], 0x80u8, 1, 0, 0, 0, 0, 0, 0, 0, 0])
        } else {
            None
        },
        forall|b: Seq<u8>| #[trigger] crate::dns::server::sent(request, Some(b)) == Some(b),
{
}

/// An answer from a rule counts for 300 seconds: what was decided at `now` is remembered
/// until `now` and 300 000 000 000 nanoseconds, under the key of the question, in front of
/// all else.
pub proof fn rule_answers_count_for_five_minutes(
    rules: Map<Seq<char>, IpAddr>,
    request: Seq<u8>,
    name: Seq<char>,
    kind: u16,
    now: u128,
    servers: Seq<Seq<char>>,
    limit: nat,
    before: Seq<Remembered>,
    after: Seq<Remembered>,
    step: Step,
    ip: IpAddr,
    record: Seq<u8>,
)
    requires
        now <= crate::dns::server::LAST_INSTANT,
        crate::dns::server::decision(rules, name, kind) == Decision::Answer(ip),
        crate::dns::wire::address_record(request, 300, ip) == Some(record),
        crate::dns::server::decided(
            crate::dns::server::decision(rules, name, kind),
            request,
            name,
            kind,
            now,
            servers,
            limit,
            before,
            after,
            step,
        ),
        forall|i: int|
            0 <= i < before.len() ==> (#[trigger] before[i]).key != crate::dns::server::cache_key(
                name,
                kind,
            ),
        before.len() < limit,
    ensures
        after == seq![
            Remembered {
                key: crate::dns::server::cache_key(name, kind),
                record,
                expires: (now + 300_000_000_000) as u128,
            },
        ] + before,
        crate::dns::wire::gives_address(record, 300, ip),
{
    let x = Remembered {
        key: crate::dns::server::cache_key(name, kind),
        record,
        expires: (now + 300_000_000_000) as u128,
    };
    new_answers_come_first(before, x, Seq::empty(), limit, x);
}

/// A question that is left to another server is handed out as it came, with the servers in
/// use, and nothing is remembered or forgotten.
pub proof fn open_questions_are_handed_out(
    request: Seq<u8>,
    name: Seq<char>,
    kind: u16,
    now: u128,
    servers: Seq<Seq<char>>,
    limit: nat,
    before: Seq<Remembered>,
    after: Seq<Remembered>,
    step: Step,
)
    requires
        crate::dns::server::decided(
            Decision::Forward,
            request,
            name,
            kind,
            now,
            servers,
            limit,
            before,
            after,
            step,
        ),
    ensures
        after == before,
        step matches Step::Lookup(p) && p.request@ == request && p.name@ == name && p.kind == kind
            && p.key@ == crate::dns::server::cache_key(name, kind) && p.received == now
            && p.servers@.len() == servers.len(),
        step matches Step::Lookup(p) ==> forall|i: int|
            0 <= i < servers.len() ==> (#[trigger] p.servers@[i])@ == servers[i],
{
    match step {
        Step::Lookup(p) => {
            assert forall|i: int| 0 <= i < servers.len() implies (#[trigger] p.servers@[i])@
                == servers[i] by {
                assert(crate::text::texts(p.servers@)[i] == servers[i]);
            }
            assert(crate::text::texts(p.servers@).len() == p.servers@.len());
        },
        _ => {},
    }
}

// ---------------------------------------------------------------------------
// Other servers
// ---------------------------------------------------------------------------
/// Of the records that another server sent, the first one of the type that was asked for
/// counts, whatever else was sent.
pub proof fn the_first_record_of_the_type_counts(records: Seq<UpstreamRecord>, kind: u16, i: int)
    requires
        0 <= i <= records.len(),
        forall|j: int| 0 <= j < i ==> (#[trigger] records[j]).kind != kind,
        i < records.len() ==> records[i].kind == kind,
    ensures
        crate::dns::server::first_of(records, kind) == if i < records.len() {
            Some(records[i])
        } else {
            None
        },
    decreases i,
{
    if i > 0 {
        let rest = records.skip(1);
        assert(records[0].kind != kind);
        assert forall|j: int| 0 <= j < i - 1 implies (#[trigger] rest[j]).kind != kind by {
            assert(rest[j] == records[j + 1]);
        }
        the_first_record_of_the_type_counts(rest, kind, i - 1);
    }
}

/// A server is asked at the port that it is given with, or at port 53. What is neither a
/// socket address nor an address is no server.
pub proof fn servers_are_asked_at_their_port(s: Seq<char>)
    ensures
        crate::dns::server::server_address(s) == match (
            crate::net::parse_socket(s),
            crate::net::parse_ip(s),
        ) {
            (Some(a), _) => Some(a),
            (None, Some(ip)) => Some(SocketAddr { ip, port: 53, scope_id: 0 }),
            (None, None) => None,
        },
{
}

/// The first of some servers that is no address is named, and none if all are.
pub proof fn the_first_bad_server_is_named(servers: Seq<Seq<char>>, i: int)
    requires
        0 <= i <= servers.len(),
        forall|j: int|
            0 <= j < i ==> crate::net::parse_socket(#[trigger] servers[j]) is Some
                || crate::net::parse_ip(servers[j]) is Some,
        i < servers.len() ==> crate::net::parse_socket(servers[i]) is None && crate::net::parse_ip(
            servers[i],
        ) is None,
    ensures
        crate::dns::server::first_bad_server(servers) == if i < servers.len() {
            Some(servers[i])
        } else {
            None
        },
    decreases i,
{
    if i > 0 {
        let rest = servers.skip(1);
        assert(crate::net::parse_socket(servers[0]) is Some || crate::net::parse_ip(servers[0])
            is Some);
        assert forall|j: int| 0 <= j < i - 1 implies crate::net::parse_socket(#[trigger] rest[j])
            is Some || crate::net::parse_ip(rest[j]) is Some by {
            assert(rest[j] == servers[j + 1]);
        }
        if i < servers.len() {
            assert(rest[i - 1] == servers[i]);
        }
        the_first_bad_server_is_named(rest, i - 1);
    }
}

/// What was made is what is sent: a reply with a code and without an answer, or one with the
/// record of the rule, marked as that of a server that asks others and is no authority. Where
/// none could be made, the sender is told of a format error, or nothing at all.
pub proof fn replies_are_sent_as_they_were_made(
    d: Decision,
    request: Seq<u8>,
    name: Seq<char>,
    kind: u16,
    now: u128,
    servers: Seq<Seq<char>>,
    limit: nat,
    before: Seq<Remembered>,
    after: Seq<Remembered>,
    step: Step,
)
    requires
        crate::dns::server::decided(
            d,
            request,
            name,
            kind,
            now,
            servers,
            limit,
            before,
            after,
            step,
        ),
        d != Decision::Forward,
    ensures
        ({
            let made = match d {
                Decision::NotSupported => crate::dns::wire::status_reply(request, false, true, 4),
                Decision::NoRecord => crate::dns::wire::status_reply(request, false, true, 0),
                Decision::Answer(ip) => match crate::dns::wire::address_record(request, 300, ip) {
                    Some(record) => crate::dns::wire::answer_reply(request, false, true, record),
                    None => None,
                },
                Decision::Forward => None,
            };
            match made {
                Some(b) => step matches Step::Reply(v) && v@ == b,
                None => if request.len() >= 2 {
                    step matches Step::Reply(v) && v@ == seq![
                        request[0],
                        request[1],
                        0x80u8,
                        1,
                        0,
                        0,
                        0,
                        0,
                        0,
                        0,
                        0,
                        0,
                    ]
                } else {
                    step is Ignore
                },
            }
        }),
        !(d is Answer) ==> after == before,
{
}

/// So it is with what another server said: its record is sent as an answer, no record as a
/// reply without one, and a failure as one with the code 2.
pub proof fn what_another_server_said_is_sent(
    step: Step,
    request: Seq<u8>,
    record: Seq<u8>,
    code: u8,
    b: Seq<u8>,
)
    ensures
        crate::dns::server::step_sends(
            step,
            request,
            crate::dns::server::answer(request, record),
            code,
        ) && crate::dns::wire::answer_reply(request, false, true, record) == Some(b) ==> (
        step matches Step::Reply(v) && v@ == b),
        crate::dns::server::step_says(step, request, code) && crate::dns::wire::status_reply(
            request,
            false,
            true,
            code,
        ) == Some(b) ==> (step matches Step::Reply(v) && v@ == b && crate::dns::wire::repeats(
            v@,
            request,
        ) && crate::dns::wire::counts(v@, 0)),
        crate::dns::wire::SERV_FAIL == 2,
        crate::dns::server::SECOND == 1_000_000_000,
{
}

/// Names are looked up at the servers of a list, each at its port, in order; at those of the
/// system where the list is empty; and a list with something that is no address is refused.
pub proof fn a_list_of_servers_is_used_as_it_is(
    upstream: &Vec<String>,
    r: Result<ResolverPlan, DnsError>,
)
    requires
        call_ensures(resolver_plan, (upstream,), r),
    ensures
        upstream@.len() == 0 ==> r == Ok::<ResolverPlan, DnsError>(ResolverPlan::System),
        upstream@.len() > 0 && (forall|i: int|
            0 <= i < upstream@.len() ==> crate::net::parse_socket((#[trigger] upstream@[i])@)
                is Some || crate::net::parse_ip(upstream@[i]@) is Some) ==> (r matches Ok(
            ResolverPlan::Servers(v),
        ) && v@.len() == upstream@.len() && forall|i: int|
            0 <= i < v@.len() ==> Some(#[trigger] v@[i]) == crate::dns::server::server_address(
                upstream@[i]@,
            )),
        (exists|i: int|
            0 <= i < upstream@.len() && crate::net::parse_socket((#[trigger] upstream@[i])@)
                is None && crate::net::parse_ip(upstream@[i]@) is None) ==> (r matches Err(
            DnsError::Upstream(_),
        )),
{
    let t = crate::text::texts(upstream@);
    if upstream@.len() == 0 {
        the_first_bad_server_is_named(t, 0);
    }
    if forall|i: int|
        0 <= i < upstream@.len() ==> crate::net::parse_socket((#[trigger] upstream@[i])@) is Some
            || crate::net::parse_ip(upstream@[i]@) is Some {
        assert forall|j: int| 0 <= j < t.len() implies crate::net::parse_socket(#[trigger] t[j])
            is Some || crate::net::parse_ip(t[j]) is Some by {
            assert(t[j] == upstream@[j]@);
        }
        the_first_bad_server_is_named(t, t.len() as int);
    }
    if exists|i: int|
        0 <= i < upstream@.len() && crate::net::parse_socket((#[trigger] upstream@[i])@) is None
            && crate::net::parse_ip(upstream@[i]@) is None {
        let i = choose|i: int|
            0 <= i < upstream@.len() && crate::net::parse_socket((#[trigger] upstream@[i])@)
                is None && crate::net::parse_ip(upstream@[i]@) is None;
        assert(t[i] == upstream@[i]@);
        lemma_some_bad_server(t, i);
    }
}

/// Where a server is no address, a bad server is found.
pub(crate) proof fn lemma_some_bad_server(t: Seq<Seq<char>>, i: int)
    requires
        0 <= i < t.len(),
        crate::net::parse_socket(t[i]) is None,
        crate::net::parse_ip(t[i]) is None,
    ensures
        crate::dns::server::first_bad_server(t) is Some,
    decreases i,
{
    if i > 0 && crate::dns::server::server_address(t[0]) is Some {
        assert(t.skip(1)[i - 1] == t[i]);
        lemma_some_bad_server(t.skip(1), i - 1);
    }
}

} // verus!
