//! How addresses are written, read and ordered, said of characters and numbers.
use vstd::prelude::*;

use crate::net::{IpAddr, Ipv4Addr, Ipv6Addr, SocketAddr};

verus! {

// ---------------------------------------------------------------------------
// IPv4
// ---------------------------------------------------------------------------
/// An IPv4 address is its four numbers in decimal digits with dots between them, and reads
/// from this text and no other.
pub proof fn four_numbers_with_dots(s: Seq<char>, o: Ipv4Addr)
    ensures
        crate::net::ip_text(IpAddr::V4(o)) == crate::text::decimal(o.a as nat) + seq!['.']
            + crate::text::decimal(o.b as nat) + seq!['.'] + crate::text::decimal(o.c as nat)
            + seq!['.'] + crate::text::decimal(o.d as nat),
        crate::net::parse_v4(s) == Some(o) <==> s == crate::text::decimal(o.a as nat) + seq!['.']
            + crate::text::decimal(o.b as nat) + seq!['.'] + crate::text::decimal(o.c as nat)
            + seq!['.'] + crate::text::decimal(o.d as nat),
        crate::net::parse_ip(s) == Some(IpAddr::V4(o)) <==> s == crate::text::decimal(o.a as nat)
            + seq!['.'] + crate::text::decimal(o.b as nat) + seq!['.'] + crate::text::decimal(
            o.c as nat,
        ) + seq!['.'] + crate::text::decimal(o.d as nat),
{
    let a = crate::text::decimal(o.a as nat);
    let b = crate::text::decimal(o.b as nat);
    let c = crate::text::decimal(o.c as nat);
    let d = crate::text::decimal(o.d as nat);
    let dot = seq!['.'];
    crate::text::lemma_join_push(seq![a], dot, b);
    crate::text::lemma_join_push(seq![a, b], dot, c);
    crate::text::lemma_join_push(seq![a, b, c], dot, d);
    assert(seq![a].push(b) =~= seq![a, b]);
    assert(seq![a, b].push(c) =~= seq![a, b, c]);
    assert(seq![a, b, c].push(d) =~= seq![a, b, c, d]);
    assert(crate::text::join(seq![a], dot) == a);
    assert(crate::net::v4_text(o) == a + dot + b + dot + c + dot + d);
    crate::net::lemma_parse_v4_text(o);
    if crate::net::parse_v4(s) == Some(o) {
        let x = choose|x: Ipv4Addr| s == crate::net::v4_text(x);
        assert(x == o);
    }
}

// ---------------------------------------------------------------------------
// IPv6
// ---------------------------------------------------------------------------
/// Parts that spell groups of an IPv6 address: one to four hexadecimal digits for each, and
/// for the last two, if `o` says so, an IPv4 address.
pub open spec fn spelled(parts: Seq<Seq<char>>, o: Option<Ipv4Addr>, g: Seq<u16>) -> bool {
    let n = match o {
        Some(_) => parts.len() - 1,
        None => parts.len() as int,
    };
    &&& n >= 0
    &&& forall|i: int|
        0 <= i < n ==> 1 <= (#[trigger] parts[i]).len() <= 4 && crate::text::is_hex(parts[i])
            && g[i] == crate::text::hex_value(parts[i])
    &&& match o {
        Some(x) => g.len() == n + 2 && parts[n] == crate::net::ip_text(IpAddr::V4(x)) && g[n] == x.a
            * 256 + x.b && g[n + 1] == x.c * 256 + x.d,
        None => g.len() == n,
    }
}

/// Spelled parts hold something, and no colon.
proof fn lemma_spelled_chars(parts: Seq<Seq<char>>, o: Option<Ipv4Addr>, g: Seq<u16>)
    requires
        spelled(parts, o, g),
    ensures
        forall|i: int|
            0 <= i < parts.len() ==> (#[trigger] parts[i]).len() > 0 && !parts[i].contains(':'),
{
    assert forall|i: int| 0 <= i < parts.len() implies (#[trigger] parts[i]).len() > 0
        && !parts[i].contains(':') by {
        if o is Some && i == parts.len() - 1 {
            crate::net::lemma_v4_no_colon(o->0);
        } else {
            if parts[i].contains(':') {
                let j = choose|j: int| 0 <= j < parts[i].len() && parts[i][j] == ':';
                assert(crate::text::hex_digit(parts[i][j]) < 16);
            }
        }
    }
}

/// A group of hexadecimal digits is no dotted address.
proof fn lemma_no_dots(t: Seq<char>)
    requires
        crate::text::is_hex(t),
    ensures
        crate::net::parse_v4(t) is None,
{
    if crate::net::parse_v4(t) is Some {
        let o = crate::net::parse_v4(t)->0;
        four_numbers_with_dots(t, o);
        let k = crate::text::decimal(o.a as nat).len() as int;
        assert(t[k] == '.');
        assert(crate::text::hex_digit(t[k]) < 16);
    }
}

/// A dotted address is no group of hexadecimal digits.
proof fn lemma_not_a_group(o: Ipv4Addr)
    ensures
        crate::net::group_value(crate::net::v4_text(o)) is None,
{
    let t = crate::net::v4_text(o);
    crate::net::lemma_parse_v4_text(o);
    if crate::text::is_hex(t) {
        lemma_no_dots(t);
    }
}

/// Spelled parts give their groups.
proof fn lemma_groups_of_spelled(
    parts: Seq<Seq<char>>,
    o: Option<Ipv4Addr>,
    g: Seq<u16>,
    dotted: bool,
)
    requires
        spelled(parts, o, g),
        o is Some ==> dotted,
    ensures
        crate::net::groups_of(parts, dotted) == Some(g),
    decreases parts.len(),
{
    if parts.len() == 0 {
        assert(g =~= seq![]);
    } else if o is Some && parts.len() == 1 {
        crate::net::lemma_parse_v4_text(o->0);
        assert(g =~= crate::net::dotted_groups(o->0));
    } else {
        let rest = parts.skip(1);
        let tail = g.skip(1);
        assert(1 <= parts[0].len() <= 4 && crate::text::is_hex(parts[0]));
        assert forall|i: int|
            0 <= i < (match o {
                Some(_) => rest.len() - 1,
                None => rest.len() as int,
            }) implies 1 <= (#[trigger] rest[i]).len() <= 4 && crate::text::is_hex(rest[i]) && tail[i]
            == crate::text::hex_value(rest[i]) by {
            assert(parts[i + 1] == rest[i]);
            assert(g[i + 1] == tail[i]);
        }
        lemma_groups_of_spelled(rest, o, tail, dotted);
        lemma_no_dots(parts[0]);
        assert(crate::net::group_value(parts[0]) == Some(g[0]));
        assert(seq![g[0]] + tail =~= g);
    }
}

/// Parts that give groups spell them.
proof fn lemma_spelled_of_groups(parts: Seq<Seq<char>>, g: Seq<u16>, dotted: bool) -> (o: Option<
    Ipv4Addr,
>)
    requires
        crate::net::groups_of(parts, dotted) == Some(g),
    ensures
        spelled(parts, o, g),
        o is Some ==> dotted,
    decreases parts.len(),
{
    if parts.len() == 0 {
        None
    } else if parts.len() == 1 && dotted && crate::net::parse_v4(parts[0]) is Some {
        let x = crate::net::parse_v4(parts[0])->0;
        four_numbers_with_dots(parts[0], x);
        Some(x)
    } else {
        let rest = parts.skip(1);
        let tail = crate::net::groups_of(rest, dotted)->0;
        let o = lemma_spelled_of_groups(rest, tail, dotted);
        let n = match o {
            Some(_) => parts.len() - 1,
            None => parts.len() as int,
        };
        assert(g == seq![g[0]] + tail);
        crate::text::lemma_hex_bound(parts[0]);
        assert forall|i: int| 0 <= i < n implies 1 <= (#[trigger] parts[i]).len() <= 4
            && crate::text::is_hex(parts[i]) && g[i] == crate::text::hex_value(parts[i]) by {
            if i > 0 {
                assert(rest[i - 1] == parts[i]);
                assert(g[i] == tail[i - 1]);
            }
        }
        if o is Some {
            assert(parts[n] == rest[n - 1]);
            assert(g[n] == tail[n - 1] && g[n + 1] == tail[n]);
        }
        o
    }
}

/// Eight groups with colons between them are the IPv6 address of these groups, and so are six
/// groups and an IPv4 address.
pub proof fn eight_groups_are_an_address(
    parts: Seq<Seq<char>>,
    o: Option<Ipv4Addr>,
    g: Seq<u16>,
)
    requires
        spelled(parts, o, g),
        g.len() == 8,
    ensures
        crate::net::parse_ip(crate::text::join(parts, seq![':'])) == Some(
            IpAddr::V6(
                Ipv6Addr {
                    s0: g[0],
                    s1: g[1],
                    s2: g[2],
                    s3: g[3],
                    s4: g[4],
                    s5: g[5],
                    s6: g[6],
                    s7: g[7],
                },
            ),
        ),
{
    let s = crate::text::join(parts, seq![':']);
    lemma_spelled_chars(parts, o, g);
    assert(parts.len() > 1);
    crate::net::lemma_join_no_double(parts);
    crate::net::lemma_double_colon_unique(s, s.len() as int);
    crate::text::lemma_split_join(parts, ':');
    lemma_groups_of_spelled(parts, o, g, true);
    assert(s == parts[0] + seq![':'] + crate::text::join(parts.skip(1), seq![':']));
    lemma_colon_is_no_v4(s, parts[0].len() as int);
}

/// Groups on both sides of a double colon, seven at most, are the IPv6 address that has zeros
/// in between, up to eight groups. Either side may be empty, and the right one may end with an
/// IPv4 address.
pub proof fn a_double_colon_stands_for_zeros(
    head: Seq<Seq<char>>,
    h: Seq<u16>,
    tail: Seq<Seq<char>>,
    o: Option<Ipv4Addr>,
    t: Seq<u16>,
    g: Seq<u16>,
)
    requires
        spelled(head, None, h),
        spelled(tail, o, t),
        h.len() + t.len() <= 7,
        g.len() == 8,
        forall|i: int| 0 <= i < h.len() ==> #[trigger] g[i] == h[i],
        forall|i: int| h.len() <= i < 8 - t.len() ==> #[trigger] g[i] == 0,
        forall|i: int| 8 - t.len() <= i < 8 ==> #[trigger] g[i] == t[i - 8 + t.len()],
    ensures
        crate::net::parse_ip(
            crate::text::join(head, seq![':']) + seq![':', ':'] + crate::text::join(
                tail,
                seq![':'],
            ),
        ) == Some(
            IpAddr::V6(
                Ipv6Addr {
                    s0: g[0],
                    s1: g[1],
                    s2: g[2],
                    s3: g[3],
                    s4: g[4],
                    s5: g[5],
                    s6: g[6],
                    s7: g[7],
                },
            ),
        ),
{
    let a = crate::text::join(head, seq![':']);
    let b = crate::text::join(tail, seq![':']);
    let s = a + seq![':', ':'] + b;
    lemma_spelled_chars(head, None, h);
    lemma_spelled_chars(tail, o, t);
    lemma_groups_of_spelled(head, None, h, false);
    lemma_groups_of_spelled(tail, o, t, true);
    if head.len() > 0 {
        crate::net::lemma_join_no_double(head);
        crate::text::lemma_split_join(head, ':');
    } else {
        assert(a =~= seq![]);
        assert(h =~= seq![]);
    }
    if tail.len() > 0 {
        crate::net::lemma_join_no_double(tail);
        crate::text::lemma_split_join(tail, ':');
    } else {
        assert(b =~= seq![]);
        assert(t =~= seq![]);
    }
    assert forall|i: int| 0 <= i < a.len() && i + 1 < s.len() implies !(#[trigger] s[i] == ':'
        && s[i + 1] == ':') by {
        assert(s[i] == a[i]);
        if i + 1 < a.len() {
            assert(s[i + 1] == a[i + 1]);
        } else {
            assert(a.last() == a[i]);
        }
    }
    assert(s[a.len() as int] == ':');
    assert(s[a.len() as int + 1] == ':');
    crate::net::lemma_double_colon_unique(s, a.len() as int);
    assert(s.take(a.len() as int) =~= a);
    assert(s.skip(a.len() as int + 2) =~= b);
    assert(h + crate::net::zero_groups(8 - h.len() - t.len()) + t =~= g);
    lemma_colon_is_no_v4(s, a.len() as int);
}

/// A text with a colon is no IPv4 address.
proof fn lemma_colon_is_no_v4(s: Seq<char>, k: int)
    requires
        0 <= k < s.len(),
        s[k] == ':',
    ensures
        crate::net::parse_v4(s) is None,
{
    if crate::net::parse_v4(s) is Some {
        let o = choose|o: Ipv4Addr| s == crate::net::v4_text(o);
        crate::net::lemma_v4_no_colon(o);
        assert(s.contains(s[k]));
    }
}

/// Nothing else is an IPv6 address: a text that reads as one is eight groups with colons
/// between them, or has a double colon with seven groups at most around it.
pub proof fn only_groups_are_an_address(s: Seq<char>, x: Ipv6Addr)
    requires
        crate::net::parse_ip(s) == Some(IpAddr::V6(x)),
    ensures
        (exists|parts: Seq<Seq<char>>, o: Option<Ipv4Addr>, g: Seq<u16>| #[trigger]
            spelled(parts, o, g) && g.len() == 8 && s == crate::text::join(parts, seq![':'])) || (
        exists|
            head: Seq<Seq<char>>,
            h: Seq<u16>,
            tail: Seq<Seq<char>>,
            o: Option<Ipv4Addr>,
            t: Seq<u16>,
        |
            #[trigger] spelled(head, None, h) && #[trigger] spelled(tail, o, t) && h.len() + t.len()
                <= 7 && s == crate::text::join(head, seq![':']) + seq![':', ':']
                + crate::text::join(tail, seq![':'])),
{
    let p = crate::net::double_colon(s);
    crate::net::lemma_double_colon(s);
    if p < s.len() {
        let a = s.take(p);
        let b = s.skip(p + 2);
        let h = crate::net::chunk_groups(a, false)->0;
        let t = crate::net::chunk_groups(b, true)->0;
        let head = if a.len() == 0 {
            seq![]
        } else {
            crate::text::split(a, ':')
        };
        let tail = if b.len() == 0 {
            seq![]
        } else {
            crate::text::split(b, ':')
        };
        crate::text::lemma_join_split(a, ':');
        crate::text::lemma_join_split(b, ':');
        assert(crate::net::groups_of(head, false) == Some(h));
        assert(crate::net::groups_of(tail, true) == Some(t));
        let o0 = lemma_spelled_of_groups(head, h, false);
        let o = lemma_spelled_of_groups(tail, t, true);
        assert(o0 is None);
        assert(crate::text::join(head, seq![':']) =~= a);
        assert(crate::text::join(tail, seq![':']) =~= b);
        assert(s =~= a + seq![':', ':'] + b);
        assert(spelled(head, None, h) && spelled(tail, o, t));
    } else {
        let parts = crate::text::split(s, ':');
        let g = crate::net::groups_of(parts, true)->0;
        let o = lemma_spelled_of_groups(parts, g, true);
        crate::text::lemma_join_split(s, ':');
        assert(spelled(parts, o, g));
    }
}

/// An IPv6 address is written with its first longest run of two or more zero groups as a
/// double colon, and every other group in hexadecimal digits.
pub proof fn the_first_longest_run_of_zeros_is_left_out(x: Ipv6Addr, st: int, len: int)
    requires
        !(x.s0 == 0 && x.s1 == 0 && x.s2 == 0 && x.s3 == 0 && x.s4 == 0 && x.s5 == 0xffff),
        0 <= st,
        2 <= len,
        st + len <= 8,
        ({
            let g = seq![x.s0, x.s1, x.s2, x.s3, x.s4, x.s5, x.s6, x.s7];
            &&& forall|i: int| st <= i < st + len ==> #[trigger] g[i] == 0
            &&& forall|a: int, l: int|
                #![trigger g.subrange(a, a + l)]
                0 <= a && 0 < l && a + l <= 8 && (forall|i: int| a <= i < a + l ==> g[i] == 0)
                    ==> l < len || (l == len && st <= a)
        }),
    ensures
        ({
            let g = seq![x.s0, x.s1, x.s2, x.s3, x.s4, x.s5, x.s6, x.s7];
            crate::net::ip_text(IpAddr::V6(x)) == crate::net::groups_text(g.take(st)) + seq![
                ':',
                ':',
            ] + crate::net::groups_text(g.skip(st + len))
        }),
{
    let g = crate::net::v6_groups(x);
    assert forall|i: int| 0 <= i < 8 implies #[trigger] crate::net::run_len(g, i) < len || (
    crate::net::run_len(g, i) == len && st <= i) by {
        crate::net::lemma_run(g, i);
        let l = crate::net::run_len(g, i) as int;
        if l > 0 {
            let r = g.subrange(i, i + l);
            assert(forall|k: int| i <= k < i + l ==> g[k] == 0);
        }
    }
    lemma_run_at_least(g, st, len);
    lemma_best_is_first(g, 8, st);
}

/// A run is at least as long as the zeros that are known.
proof fn lemma_run_at_least(g: Seq<u16>, i: int, len: int)
    requires
        0 <= i,
        0 <= len,
        i + len <= g.len(),
        forall|k: int| i <= k < i + len ==> #[trigger] g[k] == 0,
    ensures
        crate::net::run_len(g, i) >= len,
    decreases len,
{
    if len > 0 {
        assert(g[i] == 0);
        lemma_run_at_least(g, i + 1, len - 1);
    }
}

/// The best run is the first of the longest ones.
proof fn lemma_best_is_first(g: Seq<u16>, n: int, st: int)
    requires
        1 <= n <= g.len(),
        0 <= st < n,
        forall|i: int|
            0 <= i < n ==> #[trigger] crate::net::run_len(g, i) < crate::net::run_len(g, st) || (
            crate::net::run_len(g, i) == crate::net::run_len(g, st) && st <= i),
    ensures
        crate::net::best_run(g, n) == st,
    decreases n,
{
    if n > 1 {
        crate::net::lemma_best_run(g, n - 1);
        let b = crate::net::best_run(g, n - 1);
        if st < n - 1 {
            lemma_best_is_first(g, n - 1, st);
            assert(crate::net::run_len(g, n - 1) <= crate::net::run_len(g, st));
        } else {
            assert(crate::net::run_len(g, b) < crate::net::run_len(g, st));
        }
    }
}

/// An IPv6 address without two zero groups in a row is written with all its groups, and one
/// that stands for an IPv4 address with that address at its end. Groups are written in
/// hexadecimal digits with colons between them.
pub proof fn other_addresses_are_written_out(x: Ipv6Addr)
    ensures
        x.s0 == 0 && x.s1 == 0 && x.s2 == 0 && x.s3 == 0 && x.s4 == 0 && x.s5 == 0xffff
            ==> crate::net::ip_text(IpAddr::V6(x)) == seq![':', ':', 'f', 'f', 'f', 'f', ':']
            + crate::net::ip_text(
            IpAddr::V4(
                Ipv4Addr {
                    a: (x.s6 / 256) as u8,
                    b: (x.s6 % 256) as u8,
                    c: (x.s7 / 256) as u8,
                    d: (x.s7 % 256) as u8,
                },
            ),
        ),
        ({
            let g = seq![x.s0, x.s1, x.s2, x.s3, x.s4, x.s5, x.s6, x.s7];
            (forall|i: int| 0 <= i < 7 ==> !(#[trigger] g[i] == 0 && g[i + 1] == 0))
                ==> crate::net::ip_text(IpAddr::V6(x)) == crate::net::groups_text(g)
        }),
        forall|g: Seq<u16>| #[trigger]
            crate::net::groups_text(g) == crate::text::join(
                Seq::new(g.len(), |i: int| crate::text::hexadecimal(g[i] as nat)),
                seq![':'],
            ),
{
    let g = crate::net::v6_groups(x);
    if forall|i: int| 0 <= i < 7 ==> !(#[trigger] g[i] == 0 && g[i + 1] == 0) {
        let st = crate::net::best_run(g, 8);
        crate::net::lemma_best_run(g, 8);
        crate::net::lemma_run(g, st);
        if crate::net::run_len(g, st) > 1 {
            assert(g[st] == 0 && g[st + 1] == 0);
        }
        if crate::net::is_mapped(x) {
            assert(g[0] == 0 && g[1] == 0);
        }
    }
    assert forall|h: Seq<u16>| #[trigger] crate::net::groups_text(h) == crate::text::join(
        Seq::new(h.len(), |i: int| crate::text::hexadecimal(h[i] as nat)),
        seq![':'],
    ) by {
        assert(crate::net::hex_parts(h) =~= Seq::new(
            h.len(),
            |i: int| crate::text::hexadecimal(h[i] as nat),
        ));
    }
}

// ---------------------------------------------------------------------------
// Order and kinds
// ---------------------------------------------------------------------------
/// IPv4 addresses come before IPv6 addresses; those of one family are ordered by the first
/// number in which they differ.
pub proof fn addresses_are_ordered_by_their_numbers(p: Ipv4Addr, q: Ipv4Addr, x: Ipv6Addr, y: Ipv6Addr)
    ensures
        crate::net::ip_rank(IpAddr::V4(p)) < crate::net::ip_rank(IpAddr::V6(x)),
        crate::net::ip_rank(IpAddr::V4(p)) < crate::net::ip_rank(IpAddr::V4(q)) <==> p.a < q.a || (
        p.a == q.a && (p.b < q.b || (p.b == q.b && (p.c < q.c || (p.c == q.c && p.d < q.d))))),
        crate::net::ip_rank(IpAddr::V6(x)) < crate::net::ip_rank(IpAddr::V6(y)) <==> x.s0 < y.s0
            || (x.s0 == y.s0 && (x.s1 < y.s1 || (x.s1 == y.s1 && (x.s2 < y.s2 || (x.s2 == y.s2 && (
        x.s3 < y.s3 || (x.s3 == y.s3 && (x.s4 < y.s4 || (x.s4 == y.s4 && (x.s5 < y.s5 || (x.s5
            == y.s5 && (x.s6 < y.s6 || (x.s6 == y.s6 && x.s7 < y.s7))))))))))))),
{
}

/// Which addresses are those of this machine, and which are no address in particular.
pub proof fn loopback_and_unspecified_by_their_numbers(o: Ipv4Addr, x: Ipv6Addr)
    ensures
        crate::net::is_loopback(IpAddr::V4(o)) <==> o.a == 127,
        crate::net::is_unspecified(IpAddr::V4(o)) <==> o.a == 0 && o.b == 0 && o.c == 0 && o.d == 0,
        crate::net::is_loopback(IpAddr::V6(x)) <==> x.s0 == 0 && x.s1 == 0 && x.s2 == 0 && x.s3
            == 0 && x.s4 == 0 && x.s5 == 0 && x.s6 == 0 && x.s7 == 1,
        crate::net::is_unspecified(IpAddr::V6(x)) <==> x.s0 == 0 && x.s1 == 0 && x.s2 == 0 && x.s3
            == 0 && x.s4 == 0 && x.s5 == 0 && x.s6 == 0 && x.s7 == 0,
{
}

// ---------------------------------------------------------------------------
// Sockets and resolvers
// ---------------------------------------------------------------------------
/// An IPv4 address, a colon and a number that fits a port are a socket address.
pub proof fn an_address_and_a_port(o: Ipv4Addr, port: Seq<char>)
    requires
        crate::text::is_number(port),
    ensures
        crate::net::parse_socket(crate::net::ip_text(IpAddr::V4(o)) + seq![':'] + port)
            == if crate::text::number_value(port) <= 65535 {
            Some(
                SocketAddr {
                    ip: IpAddr::V4(o),
                    port: crate::text::number_value(port) as u16,
                    scope_id: 0,
                },
            )
        } else {
            None
        },
{
    let a = crate::net::v4_text(o);
    let s = a + seq![':'] + port;
    crate::net::lemma_v4_no_colon(o);
    crate::net::lemma_parse_v4_text(o);
    crate::text::lemma_find_after(a, ':', port);
    assert(s[0] == a[0]);
    assert(a[0] != '[') by {
        assert(crate::text::is_digit(a[0]) || a[0] == '.');
    }
}

/// An IPv6 address in square brackets, a colon and a number that fits a port are a socket
/// address, with the zone that may stand behind a `%` in the brackets.
pub proof fn an_address_in_brackets_and_a_port(
    inner: Seq<char>,
    x: Ipv6Addr,
    zone: Option<Seq<char>>,
    port: Seq<char>,
)
    requires
        crate::net::parse_v6(inner) == Some(x),
        !inner.contains(']'),
        !inner.contains('%'),
        crate::text::is_number(port),
        crate::text::number_value(port) <= 65535,
        zone matches Some(z) ==> crate::text::is_number(z) && crate::text::number_value(z)
            <= 0xffff_ffff,
    ensures
        crate::net::parse_socket(
            seq!['['] + (match zone {
                Some(z) => inner + seq!['%'] + z,
                None => inner,
            }) + seq![']', ':'] + port,
        ) == Some(
            SocketAddr {
                ip: IpAddr::V6(x),
                port: crate::text::number_value(port) as u16,
                scope_id: match zone {
                    Some(z) => crate::text::number_value(z) as u32,
                    None => 0,
                },
            },
        ),
{
    let mid = match zone {
        Some(z) => inner + seq!['%'] + z,
        None => inner,
    };
    let s = seq!['['] + mid + seq![']', ':'] + port;
    let p = seq!['['] + mid;
    assert forall|i: int| 0 <= i < p.len() implies p[i] != ']' by {
        if i > 0 {
            assert(p[i] == mid[i - 1]);
            if i - 1 < inner.len() {
                assert(mid[i - 1] == inner[i - 1]);
                assert(inner.contains(inner[i - 1]));
            } else if zone is Some && i - 1 > inner.len() {
                let z = zone->0;
                assert(mid[i - 1] == z[i - 2 - inner.len()]);
                assert(crate::text::is_digit(z[i - 2 - inner.len()]));
            }
        }
    }
    crate::text_laws::the_first_place_is_found(p, ']', seq![':'] + port);
    assert(s =~= p + seq![']'] + (seq![':'] + port));
    let m = p.len() as int;
    assert(s[m + 1] == ':');
    assert(s.subrange(1, m) =~= mid);
    assert(s.skip(m + 2) =~= port);
    match zone {
        Some(z) => {
            crate::text::lemma_find_after(inner, '%', z);
        },
        None => {
            crate::text::lemma_find(inner, '%');
        },
    }
    let n = crate::text::find(s, ':');
    crate::text::lemma_find(s, ':');
    if n < s.len() && crate::net::parse_v4(s.take(n)) is Some {
        let o = choose|o: Ipv4Addr| s.take(n) == crate::net::v4_text(o);
        crate::net::lemma_v4_no_colon(o);
        assert(s[0] == '[');
        if n > 0 {
            assert(s.take(n)[0] == '[');
            assert(crate::text::is_digit(crate::net::v4_text(o)[0]) || crate::net::v4_text(o)[0]
                == '.');
        }
    }
}

/// A server is this machine exactly if its address, with or without a port, is one of this
/// machine or no address in particular; what is no address is none.
pub proof fn servers_of_this_machine(s: Seq<char>)
    ensures
        match (crate::net::parse_socket(s), crate::net::parse_ip(s)) {
            (Some(a), _) => crate::net::is_local(s) <==> crate::net::is_loopback(a.ip)
                || crate::net::is_unspecified(a.ip),
            (None, Some(ip)) => crate::net::is_local(s) <==> crate::net::is_loopback(ip)
                || crate::net::is_unspecified(ip),
            (None, None) => !crate::net::is_local(s),
        },
{
}

/// A socket address is written as its address, a colon and its port; an IPv6 address stands in
/// square brackets, with its zone behind a `%` if it has one.
pub proof fn sockets_are_written(a: SocketAddr)
    ensures
        crate::net::socket_text(a) == match a.ip {
            IpAddr::V4(_) => crate::net::ip_text(a.ip) + seq![':'] + crate::text::decimal(
                a.port as nat,
            ),
            IpAddr::V6(_) => seq!['['] + crate::net::ip_text(a.ip) + (if a.scope_id == 0 {
                Seq::empty()
            } else {
                seq!['%'] + crate::text::decimal(a.scope_id as nat)
            }) + seq![']', ':'] + crate::text::decimal(a.port as nat),
        },
{
    reveal_strlit(":");
    reveal_strlit("[");
    reveal_strlit("]:");
    reveal_strlit("%");
    assert(":"@ =~= seq![':']);
    assert("["@ =~= seq!['[']);
    assert("]:"@ =~= seq![']', ':']);
    assert("%"@ =~= seq!['%']);
    match a.ip {
        IpAddr::V4(_) => {},
        IpAddr::V6(_) => {
            assert(crate::net::socket_text(a) =~= seq!['['] + crate::net::ip_text(a.ip) + (
            if a.scope_id == 0 {
                Seq::empty()
            } else {
                seq!['%'] + crate::text::decimal(a.scope_id as nat)
            }) + seq![']', ':'] + crate::text::decimal(a.port as nat));
        },
    }
}

} // verus!
