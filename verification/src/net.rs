//! IP addresses and socket addresses: their text, their order, and which of
//! them point back at this machine.
use vstd::prelude::*;
use vstd::string::*;

use crate::text::{
    decimal_text, find_char, hex_text, read_hex, read_number, slice_of, split_at_char, to_chars,
};

verus! {

broadcast use vstd::string::group_string_axioms;

/// An IPv4 address, by its four octets.
#[derive(Clone, Copy, Debug, PartialEq, Eq, Structural, Hash)]
pub struct Ipv4Addr {
    pub a: u8,
    pub b: u8,
    pub c: u8,
    pub d: u8,
}

/// An IPv6 address, by its eight groups of 16 bits.
#[derive(Clone, Copy, Debug, PartialEq, Eq, Structural, Hash)]
pub struct Ipv6Addr {
    pub s0: u16,
    pub s1: u16,
    pub s2: u16,
    pub s3: u16,
    pub s4: u16,
    pub s5: u16,
    pub s6: u16,
    pub s7: u16,
}

/// An IP address of either family.
#[derive(Clone, Copy, Debug, PartialEq, Eq, Structural, Hash)]
pub enum IpAddr {
    V4(Ipv4Addr),
    V6(Ipv6Addr),
}

/// The text given is not an address.
#[derive(Clone, Copy, Debug, PartialEq, Eq, Structural)]
pub struct AddrParseError;

// ---------------------------------------------------------------------------
// Text of an address
// ---------------------------------------------------------------------------
/// The dotted-decimal text of an IPv4 address.
pub open spec fn v4_text(o: Ipv4Addr) -> Seq<char> {
    crate::text::join(
        seq![
            crate::text::decimal(o.a as nat),
            crate::text::decimal(o.b as nat),
            crate::text::decimal(o.c as nat),
            crate::text::decimal(o.d as nat),
        ],
        seq!['.'],
    )
}

/// The IPv4 address whose text is `s`.
pub open spec fn parse_v4(s: Seq<char>) -> Option<Ipv4Addr> {
    if exists|o: Ipv4Addr| s == v4_text(o) {
        Some(choose|o: Ipv4Addr| s == v4_text(o))
    } else {
        None
    }
}

/// The eight groups in order.
pub open spec fn v6_groups(x: Ipv6Addr) -> Seq<u16> {
    seq![x.s0, x.s1, x.s2, x.s3, x.s4, x.s5, x.s6, x.s7]
}

/// The address of eight groups.
pub open spec fn v6_of_groups(g: Seq<u16>) -> Ipv6Addr {
    Ipv6Addr { s0: g[0], s1: g[1], s2: g[2], s3: g[3], s4: g[4], s5: g[5], s6: g[6], s7: g[7] }
}

/// One group: one to four hexadecimal digits.
pub open spec fn group_value(t: Seq<char>) -> Option<u16> {
    if 1 <= t.len() <= 4 && crate::text::is_hex(t) {
        Some(crate::text::hex_value(t) as u16)
    } else {
        None
    }
}

/// An IPv4 address as two groups.
pub open spec fn dotted_groups(o: Ipv4Addr) -> Seq<u16> {
    seq![(o.a * 256 + o.b) as u16, (o.c * 256 + o.d) as u16]
}

/// The groups of a list of pieces. Where `dotted` allows it, the last piece may
/// be a dotted IPv4 address, which counts for two groups.
pub open spec fn groups_of(parts: Seq<Seq<char>>, dotted: bool) -> Option<Seq<u16>>
    decreases parts.len(),
{
    if parts.len() == 0 {
        Some(seq![])
    } else if parts.len() == 1 && dotted && parse_v4(parts[0]) is Some {
        Some(dotted_groups(parse_v4(parts[0])->0))
    } else {
        match (group_value(parts[0]), groups_of(parts.skip(1), dotted)) {
            (Some(g), Some(rest)) => Some(seq![g] + rest),
            _ => None,
        }
    }
}

/// The groups of a text with colons between them; none for the empty text.
pub open spec fn chunk_groups(s: Seq<char>, dotted: bool) -> Option<Seq<u16>> {
    if s.len() == 0 {
        Some(seq![])
    } else {
        groups_of(crate::text::split(s, ':'), dotted)
    }
}

/// The position of the first `::`, or the length of the text.
pub open spec fn double_colon(s: Seq<char>) -> int
    decreases s.len(),
{
    if s.len() == 0 {
        0
    } else if s.len() >= 2 && s[0] == ':' && s[1] == ':' {
        0
    } else {
        1 + double_colon(s.skip(1))
    }
}

/// `n` groups of zero.
pub open spec fn zero_groups(n: int) -> Seq<u16> {
    Seq::new(n as nat, |i: int| 0u16)
}

/// The eight groups that an IPv6 text stands for. `::` stands for one or more
/// groups of zero.
pub open spec fn parse_groups(s: Seq<char>) -> Option<Seq<u16>> {
    let p = double_colon(s);
    if p < s.len() {
        match (chunk_groups(s.take(p), false), chunk_groups(s.skip(p + 2), true)) {
            (Some(h), Some(t)) => if h.len() + t.len() <= 7 {
                Some(h + zero_groups(8 - h.len() - t.len()) + t)
            } else {
                None
            },
            _ => None,
        }
    } else {
        match groups_of(crate::text::split(s, ':'), true) {
            Some(g) => if g.len() == 8 {
                Some(g)
            } else {
                None
            },
            None => None,
        }
    }
}

/// The IPv6 address that a text stands for.
pub open spec fn parse_v6(s: Seq<char>) -> Option<Ipv6Addr> {
    match parse_groups(s) {
        Some(g) => Some(v6_of_groups(g)),
        None => None,
    }
}

/// The address that a text stands for.
pub open spec fn parse_ip(s: Seq<char>) -> Option<IpAddr> {
    match parse_v4(s) {
        Some(o) => Some(IpAddr::V4(o)),
        None => match parse_v6(s) {
            Some(x) => Some(IpAddr::V6(x)),
            None => None,
        },
    }
}

/// How many groups from `i` on are zero without a break.
pub open spec fn run_len(g: Seq<u16>, i: int) -> nat
    decreases g.len() - i,
{
    if i < 0 || i >= g.len() || g[i] != 0 {
        0
    } else {
        1 + run_len(g, i + 1)
    }
}

/// Where, below `n`, the longest run of zeros starts; the first of equals.
pub open spec fn best_run(g: Seq<u16>, n: int) -> int
    decreases n,
{
    if n <= 1 {
        0
    } else {
        let b = best_run(g, n - 1);
        if run_len(g, n - 1) > run_len(g, b) {
            n - 1
        } else {
            b
        }
    }
}

/// The hexadecimal texts of some groups.
pub open spec fn hex_parts(g: Seq<u16>) -> Seq<Seq<char>> {
    Seq::new(g.len(), |i: int| crate::text::hexadecimal(g[i] as nat))
}

/// Groups with colons between them.
pub open spec fn groups_text(g: Seq<u16>) -> Seq<char> {
    crate::text::join(hex_parts(g), seq![':'])
}

/// An IPv4-mapped address, `::ffff:0:0/96`.
pub open spec fn is_mapped(x: Ipv6Addr) -> bool {
    x.s0 == 0 && x.s1 == 0 && x.s2 == 0 && x.s3 == 0 && x.s4 == 0 && x.s5 == 0xffff
}

/// The IPv4 address inside the last two groups.
pub open spec fn mapped_v4(x: Ipv6Addr) -> Ipv4Addr {
    Ipv4Addr {
        a: (x.s6 / 256) as u8,
        b: (x.s6 % 256) as u8,
        c: (x.s7 / 256) as u8,
        d: (x.s7 % 256) as u8,
    }
}

/// The text of an IPv6 address: the first longest run of two or more zero groups
/// is written `::`, and a mapped IPv4 address is written dotted.
pub open spec fn v6_text(x: Ipv6Addr) -> Seq<char> {
    let g = v6_groups(x);
    let st = best_run(g, 8);
    let len = run_len(g, st);
    if is_mapped(x) {
        seq![':', ':', 'f', 'f', 'f', 'f', ':'] + v4_text(mapped_v4(x))
    } else if len > 1 {
        groups_text(g.take(st)) + seq![':', ':'] + groups_text(g.skip(st + len))
    } else {
        groups_text(g)
    }
}

/// The text of an address.
pub open spec fn ip_text(ip: IpAddr) -> Seq<char> {
    match ip {
        IpAddr::V4(o) => v4_text(o),
        IpAddr::V6(x) => v6_text(x),
    }
}

// ---------------------------------------------------------------------------
// IPv4
// ---------------------------------------------------------------------------
/// The four pieces of a dotted address hold digits only.
proof fn lemma_v4_parts(o: Ipv4Addr)
    ensures
        crate::text::split(v4_text(o), '.') == seq![
            crate::text::decimal(o.a as nat),
            crate::text::decimal(o.b as nat),
            crate::text::decimal(o.c as nat),
            crate::text::decimal(o.d as nat),
        ],
{
    let parts = seq![
        crate::text::decimal(o.a as nat),
        crate::text::decimal(o.b as nat),
        crate::text::decimal(o.c as nat),
        crate::text::decimal(o.d as nat),
    ];
    crate::text::lemma_decimal(o.a as nat);
    crate::text::lemma_decimal(o.b as nat);
    crate::text::lemma_decimal(o.c as nat);
    crate::text::lemma_decimal(o.d as nat);
    assert forall|i: int| 0 <= i < parts.len() implies !(#[trigger] parts[i]).contains('.') by {
        assert(crate::text::is_number(parts[i]));
        if parts[i].contains('.') {
            let j = choose|j: int| 0 <= j < parts[i].len() && parts[i][j] == '.';
            assert(crate::text::is_digit(parts[i][j]));
        }
    }
    crate::text::lemma_split_join(parts, '.');
}

/// Different IPv4 addresses have different texts.
pub proof fn lemma_v4_text_injective(x: Ipv4Addr, y: Ipv4Addr)
    requires
        v4_text(x) == v4_text(y),
    ensures
        x == y,
{
    lemma_v4_parts(x);
    lemma_v4_parts(y);
    let p = crate::text::split(v4_text(x), '.');
    crate::text::lemma_decimal(x.a as nat);
    crate::text::lemma_decimal(x.b as nat);
    crate::text::lemma_decimal(x.c as nat);
    crate::text::lemma_decimal(x.d as nat);
    crate::text::lemma_decimal(y.a as nat);
    crate::text::lemma_decimal(y.b as nat);
    crate::text::lemma_decimal(y.c as nat);
    crate::text::lemma_decimal(y.d as nat);
    assert(p[0] == crate::text::decimal(x.a as nat) && p[0] == crate::text::decimal(y.a as nat));
    assert(p[1] == crate::text::decimal(x.b as nat) && p[1] == crate::text::decimal(y.b as nat));
    assert(p[2] == crate::text::decimal(x.c as nat) && p[2] == crate::text::decimal(y.c as nat));
    assert(p[3] == crate::text::decimal(x.d as nat) && p[3] == crate::text::decimal(y.d as nat));
}

/// Reading the text of an IPv4 address gives that address.
pub proof fn lemma_parse_v4_text(o: Ipv4Addr)
    ensures
        parse_v4(v4_text(o)) == Some(o),
{
    let c = choose|c: Ipv4Addr| v4_text(o) == v4_text(c);
    lemma_v4_text_injective(o, c);
}

/// Reads an octet: its decimal text without leading zeros.
fn read_octet(s: &[char]) -> (r: Option<u8>)
    ensures
        match r {
            Some(n) => s@ == crate::text::decimal(n as nat),
            None => forall|n: nat| n < 256 ==> s@ != #[trigger] crate::text::decimal(n),
        },
{
    proof {
        assert forall|n: nat| n < 256 && s@ == #[trigger] crate::text::decimal(n) implies
            crate::text::is_number(s@) && crate::text::number_value(s@) == n && (s@[0] == '0'
            ==> s@ == seq!['0']) by {
            crate::text::lemma_decimal(n);
        }
    }
    if s.len() > 1 && s[0] == '0' {
        return None;
    }
    match read_number(s, 255) {
        Some(v) => {
            proof {
                crate::text::lemma_number_is_decimal(s@);
            }
            Some(v as u8)
        },
        None => None,
    }
}

impl Ipv4Addr {
    /// The address of four octets.
    pub fn new(a: u8, b: u8, c: u8, d: u8) -> (r: Self)
        ensures
            r == (Ipv4Addr { a, b, c, d }),
    {
        Ipv4Addr { a, b, c, d }
    }

    /// Reads a dotted-decimal address.
    pub fn read(s: &[char]) -> (r: Option<Self>)
        ensures
            r == parse_v4(s@),
    {
        let parts = split_at_char(s, '.');
        let ghost pieces = crate::text::split(s@, '.');
        proof {
            assert forall|o: Ipv4Addr| s@ == #[trigger] v4_text(o) implies pieces == seq![
                crate::text::decimal(o.a as nat),
                crate::text::decimal(o.b as nat),
                crate::text::decimal(o.c as nat),
                crate::text::decimal(o.d as nat),
            ] by {
                lemma_v4_parts(o);
            }
            crate::text::lemma_join_split(s@, '.');
            assert forall|i: int| 0 <= i < parts@.len() implies (#[trigger] parts@[i])@
                == pieces[i] by {
                assert(crate::text::vec_texts(parts@)[i] == parts@[i]@);
            }
            assert(crate::text::vec_texts(parts@).len() == parts@.len());
        }
        if parts.len() != 4 {
            return None;
        }
        let a = read_octet(&parts[0]);
        let b = read_octet(&parts[1]);
        let c = read_octet(&parts[2]);
        let d = read_octet(&parts[3]);
        proof {
            assert forall|o: Ipv4Addr| s@ == #[trigger] v4_text(o) implies a is Some && b is Some
                && c is Some && d is Some by {
                assert(parts@[0]@ == crate::text::decimal(o.a as nat));
                assert(parts@[1]@ == crate::text::decimal(o.b as nat));
                assert(parts@[2]@ == crate::text::decimal(o.c as nat));
                assert(parts@[3]@ == crate::text::decimal(o.d as nat));
            }
        }
        match (a, b, c, d) {
            (Some(a), Some(b), Some(c), Some(d)) => {
                let o = Ipv4Addr { a, b, c, d };
                proof {
                    assert(pieces =~= seq![
                        crate::text::decimal(o.a as nat),
                        crate::text::decimal(o.b as nat),
                        crate::text::decimal(o.c as nat),
                        crate::text::decimal(o.d as nat),
                    ]);
                    assert(s@ == v4_text(o));
                    lemma_parse_v4_text(o);
                }
                Some(o)
            },
            _ => None,
        }
    }

    /// The dotted-decimal text.
    pub fn to_text(&self) -> (r: String)
        ensures
            r@ == v4_text(*self),
    {
        let mut s: String = decimal_text(self.a as u64);
        s.push('.');
        s.append(decimal_text(self.b as u64).as_str());
        s.push('.');
        s.append(decimal_text(self.c as u64).as_str());
        s.push('.');
        s.append(decimal_text(self.d as u64).as_str());
        proof {
            let a = crate::text::decimal(self.a as nat);
            let b = crate::text::decimal(self.b as nat);
            let c = crate::text::decimal(self.c as nat);
            let d = crate::text::decimal(self.d as nat);
            let dot = seq!['.'];
            crate::text::lemma_join_push(seq![a], dot, b);
            crate::text::lemma_join_push(seq![a, b], dot, c);
            crate::text::lemma_join_push(seq![a, b, c], dot, d);
            assert(seq![a].push(b) =~= seq![a, b]);
            assert(seq![a, b].push(c) =~= seq![a, b, c]);
            assert(seq![a, b, c].push(d) =~= seq![a, b, c, d]);
            assert(crate::text::join(seq![a], dot) == a);
            assert(s@ =~= v4_text(*self));
        }
        s
    }
}

// ---------------------------------------------------------------------------
// IPv6
// ---------------------------------------------------------------------------
/// `double_colon` is the first place where two colons meet.
pub(crate) proof fn lemma_double_colon(s: Seq<char>)
    ensures
        0 <= double_colon(s) <= s.len(),
        double_colon(s) < s.len() ==> double_colon(s) + 1 < s.len() && s[double_colon(s)] == ':'
            && s[double_colon(s) + 1] == ':',
        forall|i: int|
            0 <= i < double_colon(s) && i + 1 < s.len() ==> !(#[trigger] s[i] == ':' && s[i + 1]
                == ':'),
    decreases s.len(),
{
    if s.len() > 0 && !(s.len() >= 2 && s[0] == ':' && s[1] == ':') {
        lemma_double_colon(s.skip(1));
        let t = s.skip(1);
        assert forall|i: int| 0 <= i < double_colon(s) && i + 1 < s.len() implies !(#[trigger] s[i]
            == ':' && s[i + 1] == ':') by {
            if i > 0 {
                assert(t[i - 1] == s[i]);
                assert(t[i] == s[i + 1]);
            }
        }
    }
}

/// The first place where two colons meet is unique.
pub(crate) proof fn lemma_double_colon_unique(s: Seq<char>, n: int)
    requires
        0 <= n <= s.len(),
        n < s.len() ==> n + 1 < s.len() && s[n] == ':' && s[n + 1] == ':',
        forall|i: int|
            0 <= i < n && i + 1 < s.len() ==> !(#[trigger] s[i] == ':' && s[i + 1] == ':'),
    ensures
        double_colon(s) == n,
{
    lemma_double_colon(s);
    let d = double_colon(s);
    if d < n {
        assert(s[d] == ':');
    }
    if n < d {
        assert(s[n] == ':');
    }
}

/// Reads the groups of a list of pieces.
fn read_groups(parts: &Vec<Vec<char>>, dotted: bool) -> (r: Option<Vec<u16>>)
    ensures
        match r {
            Some(v) => groups_of(crate::text::vec_texts(parts@), dotted) == Some(v@),
            None => groups_of(crate::text::vec_texts(parts@), dotted) is None,
        },
{
    let ghost all = crate::text::vec_texts(parts@);
    let mut out: Vec<u16> = Vec::new();
    let mut i: usize = 0;
    assert(all.skip(0) =~= all);
    while i < parts.len()
        invariant
            i <= parts.len(),
            all == crate::text::vec_texts(parts@),
            match groups_of(all.skip(i as int), dotted) {
                Some(rest) => groups_of(all, dotted) == Some(out@ + rest),
                None => groups_of(all, dotted) is None,
            },
        decreases parts.len() - i,
    {
        let ghost rest = all.skip(i as int);
        assert(rest[0] == parts@[i as int]@);
        assert(rest.skip(1) =~= all.skip(i + 1));
        if i + 1 == parts.len() && dotted {
            match Ipv4Addr::read(&parts[i]) {
                Some(o) => {
                    let ghost before = out@;
                    let hi: u16 = o.a as u16 * 256 + o.b as u16;
                    let lo: u16 = o.c as u16 * 256 + o.d as u16;
                    out.push(hi);
                    out.push(lo);
                    assert(out@ =~= before + dotted_groups(o));
                    return Some(out);
                },
                None => {},
            }
        }
        match read_hex(&parts[i]) {
            Some(g) => {
                let ghost before = out@;
                out.push(g);
                proof {
                    crate::text::lemma_hex_bound(rest[0]);
                    match groups_of(all.skip(i + 1), dotted) {
                        Some(t) => {
                            assert(out@ + t =~= before + (seq![g] + t));
                        },
                        None => {},
                    }
                }
            },
            None => {
                return None;
            },
        }
        i = i + 1;
    }
    assert(all.skip(i as int) =~= seq![]);
    assert(out@ + seq![] =~= out@);
    Some(out)
}

/// Reads the groups of a text with colons between them.
fn read_chunk(s: &[char], dotted: bool) -> (r: Option<Vec<u16>>)
    ensures
        match r {
            Some(v) => chunk_groups(s@, dotted) == Some(v@),
            None => chunk_groups(s@, dotted) is None,
        },
{
    if s.len() == 0 {
        let v: Vec<u16> = Vec::new();
        assert(v@ =~= seq![]);
        Some(v)
    } else {
        let parts = split_at_char(s, ':');
        read_groups(&parts, dotted)
    }
}

/// The groups joined by colons, where every piece is non-empty and free of
/// colons: no two colons meet, and neither end is a colon.
pub(crate) proof fn lemma_join_no_double(parts: Seq<Seq<char>>)
    requires
        parts.len() > 0,
        forall|i: int|
            0 <= i < parts.len() ==> (#[trigger] parts[i]).len() > 0 && !parts[i].contains(':'),
    ensures
        ({
            let s = crate::text::join(parts, seq![':']);
            &&& s.len() > 0
            &&& s[0] != ':'
            &&& s.last() != ':'
            &&& forall|i: int|
                0 <= i < s.len() - 1 ==> !(#[trigger] s[i] == ':' && s[i + 1] == ':')
        }),
    decreases parts.len(),
{
    let s = crate::text::join(parts, seq![':']);
    let p = parts[0];
    assert forall|i: int| 0 <= i < p.len() implies p[i] != ':' by {
        assert(p.contains(p[i]));
    }
    if parts.len() > 1 {
        let rest = parts.skip(1);
        assert forall|i: int| 0 <= i < rest.len() implies (#[trigger] rest[i]).len() > 0
            && !rest[i].contains(':') by {
            assert(rest[i] == parts[i + 1]);
        }
        lemma_join_no_double(rest);
        let t = crate::text::join(rest, seq![':']);
        assert(s == p + seq![':'] + t);
        assert(s[0] == p[0]);
        assert(s.last() == t.last());
        assert forall|i: int| 0 <= i < s.len() - 1 implies !(#[trigger] s[i] == ':' && s[i + 1]
            == ':') by {
            if i < p.len() {
                assert(s[i] == p[i]);
            } else if i == p.len() {
                assert(s[i + 1] == t[0]);
            } else {
                assert(s[i] == t[i - p.len() - 1]);
                assert(s[i + 1] == t[i - p.len()]);
            }
        }
    }
}

/// Hexadecimal pieces are non-empty, free of colons, and read back.
proof fn lemma_hex_parts(g: Seq<u16>)
    ensures
        forall|i: int|
            0 <= i < g.len() ==> (#[trigger] hex_parts(g)[i]).len() > 0
                && !hex_parts(g)[i].contains(':') && group_value(hex_parts(g)[i]) == Some(g[i])
                && parse_v4(hex_parts(g)[i]) is None,
{
    assert forall|i: int| 0 <= i < g.len() implies (#[trigger] hex_parts(g)[i]).len() > 0
        && !hex_parts(g)[i].contains(':') && group_value(hex_parts(g)[i]) == Some(g[i])
        && parse_v4(hex_parts(g)[i]) is None by {
        let t = hex_parts(g)[i];
        crate::text::lemma_hexadecimal(g[i] as nat);
        if t.contains(':') {
            let j = choose|j: int| 0 <= j < t.len() && t[j] == ':';
            assert(crate::text::hex_digit(t[j]) < 16);
        }
        if parse_v4(t) is Some {
            let o = choose|o: Ipv4Addr| t == v4_text(o);
            lemma_v4_parts(o);
            crate::text::lemma_find(t, '.');
            if !t.contains('.') {
                assert(crate::text::split(t, '.') =~= seq![t]);
                assert(crate::text::split(t, '.').len() == 1);
            }
            let j = choose|j: int| 0 <= j < t.len() && t[j] == '.';
            assert(crate::text::hex_digit(t[j]) < 16);
        }
    }
}

/// Hexadecimal pieces read back as the groups that they were written from.
proof fn lemma_groups_of_hex(g: Seq<u16>, dotted: bool)
    ensures
        groups_of(hex_parts(g), dotted) == Some(g),
    decreases g.len(),
{
    lemma_hex_parts(g);
    if g.len() > 0 {
        lemma_groups_of_hex(g.skip(1), dotted);
        assert(hex_parts(g).skip(1) =~= hex_parts(g.skip(1)));
        assert(hex_parts(g)[0] == crate::text::hexadecimal(g[0] as nat));
        assert(seq![g[0]] + g.skip(1) =~= g);
        assert(parse_v4(hex_parts(g)[0]) is None);
    } else {
        assert(hex_parts(g) =~= seq![]);
        assert(g =~= seq![]);
    }
}

/// The text of some groups reads back as these groups.
proof fn lemma_chunk_of_text(g: Seq<u16>, dotted: bool)
    ensures
        chunk_groups(groups_text(g), dotted) == Some(g),
        g.len() > 0 ==> crate::text::split(groups_text(g), ':') == hex_parts(g),
{
    lemma_hex_parts(g);
    lemma_groups_of_hex(g, dotted);
    if g.len() > 0 {
        assert(hex_parts(g).len() == g.len());
        lemma_join_no_double(hex_parts(g));
        crate::text::lemma_split_join(hex_parts(g), ':');
    } else {
        assert(hex_parts(g) =~= seq![]);
        assert(g =~= seq![]);
    }
}

/// A run of zeros consists of zeros and stays inside the groups.
pub(crate) proof fn lemma_run(g: Seq<u16>, i: int)
    requires
        0 <= i <= g.len(),
    ensures
        i + run_len(g, i) <= g.len(),
        forall|j: int| i <= j < i + run_len(g, i) ==> g[j] == 0,
    decreases g.len() - i,
{
    if i < g.len() && g[i] == 0 {
        lemma_run(g, i + 1);
    }
}

/// The best run starts inside the groups.
pub(crate) proof fn lemma_best_run(g: Seq<u16>, n: int)
    requires
        n <= g.len(),
    ensures
        0 <= best_run(g, n),
        n >= 1 ==> best_run(g, n) < n,
        n < 1 ==> best_run(g, n) == 0,
    decreases n,
{
    if n > 1 {
        lemma_best_run(g, n - 1);
    }
}

/// Reading a text with `::` between two groups texts.
proof fn lemma_parse_compressed(h: Seq<u16>, t: Seq<u16>)
    requires
        h.len() + t.len() <= 7,
    ensures
        parse_groups(groups_text(h) + seq![':', ':'] + groups_text(t)) == Some(
            h + zero_groups(8 - h.len() - t.len()) + t,
        ),
{
    let a = groups_text(h);
    let b = groups_text(t);
    let s = a + seq![':', ':'] + b;
    lemma_hex_parts(h);
    lemma_chunk_of_text(h, false);
    lemma_chunk_of_text(t, true);
    if h.len() > 0 {
        assert(hex_parts(h).len() == h.len());
        lemma_join_no_double(hex_parts(h));
    } else {
        assert(hex_parts(h) =~= seq![]);
    }
    assert forall|i: int| 0 <= i < a.len() && i + 1 < s.len() implies !(#[trigger] s[i] == ':'
        && s[i + 1] == ':') by {
        assert(s[i] == a[i]);
        if i + 1 < a.len() {
            assert(s[i + 1] == a[i + 1]);
            assert(!(a[i] == ':' && a[i + 1] == ':'));
        } else {
            assert(a.last() == a[i]);
        }
    }
    lemma_double_colon_unique(s, a.len() as int);
    assert(s.take(a.len() as int) =~= a);
    assert(s.skip(a.len() as int + 2) =~= b);
}

/// Reading the text of an IPv6 address gives that address.
pub proof fn lemma_parse_v6_text(x: Ipv6Addr)
    ensures
        parse_v6(v6_text(x)) == Some(x),
{
    let g = v6_groups(x);
    let st = best_run(g, 8);
    let len = run_len(g, st);
    lemma_best_run(g, 8);
    lemma_run(g, st);
    if is_mapped(x) {
        let o = mapped_v4(x);
        let v4 = v4_text(o);
        let s = v6_text(x);
        let ffff = seq!['f', 'f', 'f', 'f'];
        lemma_parse_v4_text(o);
        assert(s.take(0) =~= seq![]);
        let tail = s.skip(2);
        assert(double_colon(s) == 0);
        let parts = seq![ffff, v4];
        assert(tail =~= ffff + seq![':'] + v4);
        assert(parts.skip(1) =~= seq![v4]);
        assert(crate::text::join(parts.skip(1), seq![':']) == v4);
        assert(crate::text::join(parts, seq![':']) == tail);
        lemma_v4_parts(o);
        assert(!v4.contains(':')) by {
            lemma_v4_no_colon(o);
        }
        assert(!ffff.contains(':'));
        crate::text::lemma_split_join(parts, ':');
        assert(groups_of(seq![v4], true) == Some(dotted_groups(o)));
        lemma_ffff();
        assert(parts[0] == ffff);
        assert(groups_of(parts, true) == Some(seq![0xffffu16] + dotted_groups(o)));
        assert((x.s6 / 256) as u8 * 256 + (x.s6 % 256) as u8 == x.s6);
        assert((x.s7 / 256) as u8 * 256 + (x.s7 % 256) as u8 == x.s7);
        let t = seq![0xffffu16] + dotted_groups(o);
        assert(parse_groups(s) == Some(seq![] + zero_groups(8 - 0 - t.len()) + t));
        assert(seq![] + zero_groups(8 - 0 - t.len()) + t =~= g);
    } else if len > 1 {
        lemma_parse_compressed(g.take(st), g.skip(st + len));
        assert(g.take(st) + zero_groups(8 - st - (8 - st - len)) + g.skip(st + len) =~= g);
    } else {
        lemma_hex_parts(g);
        assert(hex_parts(g).len() == 8);
        lemma_join_no_double(hex_parts(g));
        lemma_chunk_of_text(g, true);
        let s = groups_text(g);
        lemma_double_colon_unique(s, s.len() as int);
    }
}

/// `ffff` is the group 0xffff.
proof fn lemma_ffff()
    ensures
        group_value(seq!['f', 'f', 'f', 'f']) == Some(0xffffu16),
{
    let t = seq!['f', 'f', 'f', 'f'];
    reveal_with_fuel(crate::text::hex_value, 5);
    assert(crate::text::hex_value(t) == 0xffff) by {
        assert(t.drop_last().len() == 3);
        assert(t.drop_last().drop_last().len() == 2);
        assert(t.drop_last().drop_last().drop_last().len() == 1);
        assert(t.drop_last().drop_last().drop_last().drop_last().len() == 0);
    }
}

/// A dotted address holds digits and dots only.
pub(crate) proof fn lemma_v4_no_colon(o: Ipv4Addr)
    ensures
        forall|i: int|
            0 <= i < v4_text(o).len() ==> crate::text::is_digit(#[trigger] v4_text(o)[i])
                || v4_text(o)[i] == '.',
        !v4_text(o).contains(':'),
        v4_text(o).len() > 0,
{
    let a = crate::text::decimal(o.a as nat);
    let b = crate::text::decimal(o.b as nat);
    let c = crate::text::decimal(o.c as nat);
    let d = crate::text::decimal(o.d as nat);
    let dot = seq!['.'];
    crate::text::lemma_decimal(o.a as nat);
    crate::text::lemma_decimal(o.b as nat);
    crate::text::lemma_decimal(o.c as nat);
    crate::text::lemma_decimal(o.d as nat);
    let s = v4_text(o);
    assert(seq![a, b, c, d].skip(1) =~= seq![b, c, d]);
    assert(seq![b, c, d].skip(1) =~= seq![c, d]);
    assert(seq![c, d].skip(1) =~= seq![d]);
    assert(crate::text::join(seq![d], dot) == d);
    assert(crate::text::join(seq![c, d], dot) == c + dot + d);
    assert(crate::text::join(seq![b, c, d], dot) == b + dot + (c + dot + d));
    assert(s == a + dot + (b + dot + (c + dot + d)));
    assert(s.len() == a.len() + b.len() + c.len() + d.len() + 3);
    let k1 = a.len() as int;
    let k2 = k1 + 1 + b.len();
    let k3 = k2 + 1 + c.len();
    assert forall|i: int| 0 <= i < s.len() implies crate::text::is_digit(#[trigger] s[i]) || s[i]
        == '.' by {
        if i < k1 {
            assert(s[i] == a[i]);
        } else if i == k1 {
            assert(s[i] == dot[0]);
        } else if i < k2 {
            assert(s[i] == b[i - k1 - 1]);
        } else if i == k2 {
            assert(s[i] == dot[0]);
        } else if i < k3 {
            assert(s[i] == c[i - k2 - 1]);
        } else if i == k3 {
            assert(s[i] == dot[0]);
        } else {
            assert(s[i] == d[i - k3 - 1]);
        }
    }
}

/// The position of the first `::`, or the length of the text.
fn find_double_colon(s: &[char]) -> (r: usize)
    ensures
        r == double_colon(s@),
{
    let mut i: usize = 0;
    while i < s.len() && !(s.len() - i >= 2 && s[i] == ':' && s[i + 1] == ':')
        invariant
            i <= s.len(),
            forall|j: int|
                0 <= j < i && j + 1 < s@.len() ==> !(#[trigger] s@[j] == ':' && s@[j + 1] == ':'),
        decreases s.len() - i,
    {
        i = i + 1;
    }
    proof {
        lemma_double_colon_unique(s@, i as int);
    }
    i
}

/// Appends one group list to another, with `n` groups of zero between them.
fn with_zeros(h: &Vec<u16>, n: usize, t: &Vec<u16>) -> (r: Vec<u16>)
    ensures
        r@ == h@ + zero_groups(n as int) + t@,
{
    let mut out: Vec<u16> = Vec::new();
    let mut i: usize = 0;
    while i < h.len()
        invariant
            i <= h.len(),
            out@ == h@.take(i as int),
        decreases h.len() - i,
    {
        assert(h@.take(i + 1) =~= h@.take(i as int).push(h@[i as int]));
        out.push(h[i]);
        i = i + 1;
    }
    assert(h@.take(i as int) =~= h@);
    let mut k: usize = 0;
    while k < n
        invariant
            k <= n,
            out@ == h@ + zero_groups(k as int),
        decreases n - k,
    {
        out.push(0);
        k = k + 1;
        assert(out@ =~= h@ + zero_groups(k as int));
    }
    let ghost before = out@;
    let mut j: usize = 0;
    while j < t.len()
        invariant
            j <= t.len(),
            out@ == before + t@.take(j as int),
        decreases t.len() - j,
    {
        assert(before + t@.take(j + 1) =~= (before + t@.take(j as int)).push(t@[j as int]));
        out.push(t[j]);
        j = j + 1;
    }
    assert(t@.take(j as int) =~= t@);
    out
}

/// Some groups with colons between them.
fn write_groups(g: &[u16], from: usize, to: usize) -> (r: String)
    requires
        from <= to <= g@.len(),
    ensures
        r@ == groups_text(g@.subrange(from as int, to as int)),
{
    let mut out: String = String::new();
    let mut i: usize = from;
    assert(hex_parts(g@.subrange(from as int, from as int)) =~= seq![]);
    while i < to
        invariant
            from <= i <= to <= g@.len(),
            out@ == groups_text(g@.subrange(from as int, i as int)),
        decreases to - i,
    {
        let ghost done = hex_parts(g@.subrange(from as int, i as int));
        proof {
            assert(hex_parts(g@.subrange(from as int, i + 1)) =~= done.push(
                crate::text::hexadecimal(g@[i as int] as nat),
            ));
            if i > from {
                crate::text::lemma_join_push(
                    done,
                    seq![':'],
                    crate::text::hexadecimal(g@[i as int] as nat),
                );
            }
        }
        if i > from {
            out.push(':');
        }
        out.append(hex_text(g[i] as u128).as_str());
        i = i + 1;
        proof {
            if i == from + 1 {
                assert(hex_parts(g@.subrange(from as int, i as int)).len() == 1);
            }
            assert(out@ =~= groups_text(g@.subrange(from as int, i as int)));
        }
    }
    out
}

/// How many groups from `i` on are zero without a break.
fn zero_run(g: &[u16], i: usize) -> (r: usize)
    requires
        i <= g@.len(),
    ensures
        r == run_len(g@, i as int),
    decreases g@.len() - i,
{
    if i >= g.len() || g[i] != 0 {
        0
    } else {
        proof {
            lemma_run(g@, i + 1);
        }
        1 + zero_run(g, i + 1)
    }
}

impl Ipv6Addr {
    /// The address of eight groups.
    pub fn new(
        s0: u16,
        s1: u16,
        s2: u16,
        s3: u16,
        s4: u16,
        s5: u16,
        s6: u16,
        s7: u16,
    ) -> (r: Self)
        ensures
            r == (Ipv6Addr { s0, s1, s2, s3, s4, s5, s6, s7 }),
    {
        Ipv6Addr { s0, s1, s2, s3, s4, s5, s6, s7 }
    }

    /// Reads an IPv6 address.
    pub fn read(s: &[char]) -> (r: Option<Self>)
        ensures
            r == parse_v6(s@),
    {
        let p = find_double_colon(s);
        proof {
            lemma_double_colon(s@);
        }
        let groups: Vec<u16> = if p < s.len() {
            let head = slice_of(s, 0, p);
            let tail = slice_of(s, p + 2, s.len());
            assert(head@ =~= s@.take(p as int));
            assert(tail@ =~= s@.skip(p + 2));
            match (read_chunk(&head, false), read_chunk(&tail, true)) {
                (Some(h), Some(t)) => {
                    if h.len() > 7 || t.len() > 7 - h.len() {
                        return None;
                    }
                    with_zeros(&h, 8 - h.len() - t.len(), &t)
                },
                _ => {
                    return None;
                },
            }
        } else {
            let parts = split_at_char(s, ':');
            match read_groups(&parts, true) {
                Some(g) => {
                    if g.len() != 8 {
                        return None;
                    }
                    g
                },
                None => {
                    return None;
                },
            }
        };
        Some(
            Ipv6Addr {
                s0: groups[0],
                s1: groups[1],
                s2: groups[2],
                s3: groups[3],
                s4: groups[4],
                s5: groups[5],
                s6: groups[6],
                s7: groups[7],
            },
        )
    }

    /// The text of the address.
    pub fn to_text(&self) -> (r: String)
        ensures
            r@ == v6_text(*self),
    {
        if self.s0 == 0 && self.s1 == 0 && self.s2 == 0 && self.s3 == 0 && self.s4 == 0 && self.s5
            == 0xffff {
            let o = Ipv4Addr {
                a: (self.s6 / 256) as u8,
                b: (self.s6 % 256) as u8,
                c: (self.s7 / 256) as u8,
                d: (self.s7 % 256) as u8,
            };
            let mut s: String = String::new();
            s.append("::ffff:");
            s.append(o.to_text().as_str());
            proof {
                reveal_strlit("::ffff:");
                assert(s@ =~= seq![':', ':', 'f', 'f', 'f', 'f', ':'] + v4_text(o));
            }
            return s;
        }
        let g: Vec<u16> = vec![
            self.s0,
            self.s1,
            self.s2,
            self.s3,
            self.s4,
            self.s5,
            self.s6,
            self.s7,
        ];
        assert(g@ =~= v6_groups(*self));
        let mut st: usize = 0;
        let mut i: usize = 1;
        while i < 8
            invariant
                1 <= i <= 8,
                g@.len() == 8,
                st < i,
                st == best_run(g@, i as int),
            decreases 8 - i,
        {
            if zero_run(&g, i) > zero_run(&g, st) {
                st = i;
            }
            i = i + 1;
        }
        let len = zero_run(&g, st);
        proof {
            lemma_run(g@, st as int);
        }
        if len > 1 {
            let mut s: String = write_groups(&g, 0, st);
            s.append("::");
            s.append(write_groups(&g, st + len, 8).as_str());
            proof {
                reveal_strlit("::");
                assert("::"@ =~= seq![':', ':']);
                assert(g@.subrange(0, st as int) =~= g@.take(st as int));
                assert(g@.subrange(st + len, 8) =~= g@.skip(st + len));
            }
            s
        } else {
            assert(g@.subrange(0, 8) =~= g@);
            write_groups(&g, 0, 8)
        }
    }
}

// ---------------------------------------------------------------------------
// Either family
// ---------------------------------------------------------------------------
/// An IPv6 text holds a colon.
proof fn lemma_v6_text_has_colon(x: Ipv6Addr)
    ensures
        v6_text(x).contains(':'),
        v6_text(x).len() > 0,
{
    let g = v6_groups(x);
    let st = best_run(g, 8);
    let len = run_len(g, st);
    let s = v6_text(x);
    if is_mapped(x) {
        assert(s[0] == ':');
    } else if len > 1 {
        assert(s[groups_text(g.take(st)).len() as int] == ':');
    } else {
        let parts = hex_parts(g);
        assert(parts.len() == 8);
        assert(s == parts[0] + seq![':'] + crate::text::join(parts.skip(1), seq![':']));
        assert(s[parts[0].len() as int] == ':');
    }
}

/// Reading the text of an address gives that address.
pub proof fn lemma_parse_ip_text(ip: IpAddr)
    ensures
        parse_ip(ip_text(ip)) == Some(ip),
        ip_text(ip).len() > 0,
{
    match ip {
        IpAddr::V4(o) => {
            lemma_parse_v4_text(o);
            lemma_v4_no_colon(o);
        },
        IpAddr::V6(x) => {
            lemma_parse_v6_text(x);
            lemma_v6_text_has_colon(x);
            if parse_v4(v6_text(x)) is Some {
                let o = choose|o: Ipv4Addr| v6_text(x) == v4_text(o);
                lemma_v4_no_colon(o);
            }
        },
    }
}

/// The number that an IPv4 address is, in network order.
pub open spec fn v4_number(o: Ipv4Addr) -> int {
    ((o.a * 256 + o.b) * 256 + o.c) * 256 + o.d
}

/// The number that an IPv6 address is, in network order.
pub open spec fn v6_number(x: Ipv6Addr) -> int {
    ((((((x.s0 * 65536 + x.s1) * 65536 + x.s2) * 65536 + x.s3) * 65536 + x.s4) * 65536 + x.s5)
        * 65536 + x.s6) * 65536 + x.s7
}

/// The place of an address in the order of addresses: IPv4 before IPv6, and by
/// number within a family.
pub open spec fn ip_rank(ip: IpAddr) -> int {
    match ip {
        IpAddr::V4(o) => v4_number(o),
        IpAddr::V6(x) => 0x1_0000_0000 + v6_number(x),
    }
}

/// A number is its high part and its low 16 bits.
proof fn lemma_low_16(h: int, l: u16, k: int, m: u16)
    requires
        h * 65536 + l == k * 65536 + m,
    ensures
        h == k,
        l == m,
{
}

/// IPv6 addresses with the same number are the same.
proof fn lemma_v6_number_injective(p: Ipv6Addr, q: Ipv6Addr)
    requires
        v6_number(p) == v6_number(q),
    ensures
        p == q,
{
    let p1 = p.s0 * 65536 + p.s1;
    let q1 = q.s0 * 65536 + q.s1;
    let p2 = p1 * 65536 + p.s2;
    let q2 = q1 * 65536 + q.s2;
    let p3 = p2 * 65536 + p.s3;
    let q3 = q2 * 65536 + q.s3;
    let p4 = p3 * 65536 + p.s4;
    let q4 = q3 * 65536 + q.s4;
    let p5 = p4 * 65536 + p.s5;
    let q5 = q4 * 65536 + q.s5;
    let p6 = p5 * 65536 + p.s6;
    let q6 = q5 * 65536 + q.s6;
    lemma_low_16(p6, p.s7, q6, q.s7);
    lemma_low_16(p5, p.s6, q5, q.s6);
    lemma_low_16(p4, p.s5, q4, q.s5);
    lemma_low_16(p3, p.s4, q3, q.s4);
    lemma_low_16(p2, p.s3, q2, q.s3);
    lemma_low_16(p1, p.s2, q1, q.s2);
    lemma_low_16(p.s0 as int, p.s1, q.s0 as int, q.s1);
}

/// Two addresses have the same place only if they are the same.
pub proof fn lemma_rank_injective(x: IpAddr, y: IpAddr)
    requires
        ip_rank(x) == ip_rank(y),
    ensures
        x == y,
{
    match (x, y) {
        (IpAddr::V4(p), IpAddr::V4(q)) => {
            assert(p.d == q.d);
            assert(p.c == q.c);
            assert(p.b == q.b);
        },
        (IpAddr::V6(p), IpAddr::V6(q)) => {
            lemma_v6_number_injective(p, q);
        },
        (IpAddr::V4(p), IpAddr::V6(q)) => {
            assert(v4_number(p) < 0x1_0000_0000);
            assert(v6_number(q) >= 0);
        },
        (IpAddr::V6(p), IpAddr::V4(q)) => {
            assert(v4_number(q) < 0x1_0000_0000);
            assert(v6_number(p) >= 0);
        },
    }
}

/// An address that leads back to this machine: `127.0.0.0/8` or `::1`.
pub open spec fn is_loopback(ip: IpAddr) -> bool {
    match ip {
        IpAddr::V4(o) => o.a == 127,
        IpAddr::V6(x) => x == (Ipv6Addr {
            s0: 0,
            s1: 0,
            s2: 0,
            s3: 0,
            s4: 0,
            s5: 0,
            s6: 0,
            s7: 1,
        }),
    }
}

/// The address of all zeros.
pub open spec fn is_unspecified(ip: IpAddr) -> bool {
    match ip {
        IpAddr::V4(o) => o == (Ipv4Addr { a: 0, b: 0, c: 0, d: 0 }),
        IpAddr::V6(x) => x == (Ipv6Addr {
            s0: 0,
            s1: 0,
            s2: 0,
            s3: 0,
            s4: 0,
            s5: 0,
            s6: 0,
            s7: 0,
        }),
    }
}

impl IpAddr {
    /// Reads an address of either family.
    pub fn read(s: &[char]) -> (r: Option<Self>)
        ensures
            r == parse_ip(s@),
    {
        match Ipv4Addr::read(s) {
            Some(o) => Some(IpAddr::V4(o)),
            None => match Ipv6Addr::read(s) {
                Some(x) => Some(IpAddr::V6(x)),
                None => None,
            },
        }
    }

    /// Reads an address from a string.
    pub fn parse_text(s: &str) -> (r: Option<Self>)
        ensures
            r == parse_ip(s@),
    {
        let v = to_chars(s);
        IpAddr::read(&v)
    }

    /// The text of the address.
    pub fn to_text(&self) -> (r: String)
        ensures
            r@ == ip_text(*self),
    {
        match self {
            IpAddr::V4(o) => o.to_text(),
            IpAddr::V6(x) => x.to_text(),
        }
    }

    /// Whether the address leads back to this machine.
    pub fn is_loopback(&self) -> (r: bool)
        ensures
            r == is_loopback(*self),
    {
        match self {
            IpAddr::V4(o) => o.a == 127,
            IpAddr::V6(x) => x.s0 == 0 && x.s1 == 0 && x.s2 == 0 && x.s3 == 0 && x.s4 == 0 && x.s5
                == 0 && x.s6 == 0 && x.s7 == 1,
        }
    }

    /// Whether the address is all zeros.
    pub fn is_unspecified(&self) -> (r: bool)
        ensures
            r == is_unspecified(*self),
    {
        match self {
            IpAddr::V4(o) => o.a == 0 && o.b == 0 && o.c == 0 && o.d == 0,
            IpAddr::V6(x) => x.s0 == 0 && x.s1 == 0 && x.s2 == 0 && x.s3 == 0 && x.s4 == 0 && x.s5
                == 0 && x.s6 == 0 && x.s7 == 0,
        }
    }

    /// Whether the address comes before `other` in the order of addresses.
    pub fn is_before(&self, other: &Self) -> (r: bool)
        ensures
            r == (ip_rank(*self) < ip_rank(*other)),
    {
        match (self, other) {
            (IpAddr::V4(p), IpAddr::V4(q)) => {
                if p.a != q.a {
                    p.a < q.a
                } else if p.b != q.b {
                    p.b < q.b
                } else if p.c != q.c {
                    p.c < q.c
                } else {
                    p.d < q.d
                }
            },
            (IpAddr::V4(p), IpAddr::V6(q)) => {
                assert(v4_number(*p) < 0x1_0000_0000);
                assert(v6_number(*q) >= 0);
                true
            },
            (IpAddr::V6(p), IpAddr::V4(q)) => {
                assert(v4_number(*q) < 0x1_0000_0000);
                assert(v6_number(*p) >= 0);
                false
            },
            (IpAddr::V6(p), IpAddr::V6(q)) => {
                if p.s0 != q.s0 {
                    p.s0 < q.s0
                } else if p.s1 != q.s1 {
                    p.s1 < q.s1
                } else if p.s2 != q.s2 {
                    p.s2 < q.s2
                } else if p.s3 != q.s3 {
                    p.s3 < q.s3
                } else if p.s4 != q.s4 {
                    p.s4 < q.s4
                } else if p.s5 != q.s5 {
                    p.s5 < q.s5
                } else if p.s6 != q.s6 {
                    p.s6 < q.s6
                } else {
                    p.s7 < q.s7
                }
            },
        }
    }
}

impl std::str::FromStr for IpAddr {
    type Err = AddrParseError;

    fn from_str(s: &str) -> (r: Result<Self, AddrParseError>)
        ensures
            r == match parse_ip(s@) {
                Some(ip) => Ok::<IpAddr, AddrParseError>(ip),
                None => Err::<IpAddr, AddrParseError>(AddrParseError),
            },
    {
        match IpAddr::parse_text(s) {
            Some(ip) => Ok(ip),
            None => Err(AddrParseError),
        }
    }
}

// ---------------------------------------------------------------------------
// Socket addresses
// ---------------------------------------------------------------------------
/// An address with a port. `scope_id` is the zone of an IPv6 address, 0 without one.
#[derive(Clone, Copy, Debug, PartialEq, Eq, Structural)]
pub struct SocketAddr {
    pub ip: IpAddr,
    pub port: u16,
    pub scope_id: u32,
}

/// A decimal number of at most `max`; leading zeros are accepted.
pub open spec fn bounded_number(s: Seq<char>, max: nat) -> Option<nat> {
    if crate::text::is_number(s) && crate::text::number_value(s) <= max {
        Some(crate::text::number_value(s))
    } else {
        None
    }
}

/// `a.b.c.d:port`.
pub open spec fn parse_socket_v4(s: Seq<char>) -> Option<SocketAddr> {
    let n = crate::text::find(s, ':');
    if n < s.len() {
        match (parse_v4(s.take(n)), bounded_number(s.skip(n + 1), 65535)) {
            (Some(o), Some(p)) => Some(
                SocketAddr { ip: IpAddr::V4(o), port: p as u16, scope_id: 0 },
            ),
            _ => None,
        }
    } else {
        None
    }
}

/// An IPv6 address, with its zone behind a `%` where it has one.
pub open spec fn parse_zoned(s: Seq<char>) -> Option<(Ipv6Addr, u32)> {
    let n = crate::text::find(s, '%');
    if n < s.len() {
        match (parse_v6(s.take(n)), bounded_number(s.skip(n + 1), 0xffff_ffff)) {
            (Some(x), Some(z)) => Some((x, z as u32)),
            _ => None,
        }
    } else {
        match parse_v6(s) {
            Some(x) => Some((x, 0u32)),
            None => None,
        }
    }
}

/// `[v6]:port` or `[v6%zone]:port`.
pub open spec fn parse_socket_v6(s: Seq<char>) -> Option<SocketAddr> {
    let m = crate::text::find(s, ']');
    if s.len() > 0 && s[0] == '[' && m + 1 < s.len() && s[m + 1] == ':' {
        match (parse_zoned(s.subrange(1, m)), bounded_number(s.skip(m + 2), 65535)) {
            (Some((x, z)), Some(p)) => Some(
                SocketAddr { ip: IpAddr::V6(x), port: p as u16, scope_id: z },
            ),
            _ => None,
        }
    } else {
        None
    }
}

/// The socket address that a text stands for.
pub open spec fn parse_socket(s: Seq<char>) -> Option<SocketAddr> {
    match parse_socket_v4(s) {
        Some(a) => Some(a),
        None => parse_socket_v6(s),
    }
}

/// The address part of `host:port`, or of a bare address.
pub open spec fn resolver_ip(s: Seq<char>) -> Option<IpAddr> {
    match parse_socket(s) {
        Some(a) => Some(a.ip),
        None => parse_ip(s),
    }
}

/// A resolver that is this machine itself. Text that is no address is not local.
pub open spec fn is_local(s: Seq<char>) -> bool {
    match resolver_ip(s) {
        Some(ip) => is_loopback(ip) || is_unspecified(ip),
        None => false,
    }
}

/// Reads `a.b.c.d:port`.
fn read_socket_v4(s: &[char]) -> (r: Option<SocketAddr>)
    ensures
        r == parse_socket_v4(s@),
{
    let n = find_char(s, ':');
    proof {
        crate::text::lemma_find(s@, ':');
    }
    if n >= s.len() {
        return None;
    }
    let host = slice_of(s, 0, n);
    let port = slice_of(s, n + 1, s.len());
    assert(host@ =~= s@.take(n as int));
    assert(port@ =~= s@.skip(n + 1));
    match (Ipv4Addr::read(&host), read_number(&port, 65535)) {
        (Some(o), Some(p)) => Some(
            SocketAddr { ip: IpAddr::V4(o), port: p as u16, scope_id: 0 },
        ),
        _ => None,
    }
}

/// Reads an IPv6 address with an optional zone.
fn read_zoned(s: &[char]) -> (r: Option<(Ipv6Addr, u32)>)
    ensures
        r == parse_zoned(s@),
{
    let n = find_char(s, '%');
    proof {
        crate::text::lemma_find(s@, '%');
    }
    if n < s.len() {
        let host = slice_of(s, 0, n);
        let zone = slice_of(s, n + 1, s.len());
        assert(host@ =~= s@.take(n as int));
        assert(zone@ =~= s@.skip(n + 1));
        match (Ipv6Addr::read(&host), read_number(&zone, 0xffff_ffff)) {
            (Some(x), Some(z)) => Some((x, z as u32)),
            _ => None,
        }
    } else {
        match Ipv6Addr::read(s) {
            Some(x) => Some((x, 0u32)),
            None => None,
        }
    }
}

/// Reads `[v6]:port` or `[v6%zone]:port`.
fn read_socket_v6(s: &[char]) -> (r: Option<SocketAddr>)
    ensures
        r == parse_socket_v6(s@),
{
    let m = find_char(s, ']');
    proof {
        crate::text::lemma_find(s@, ']');
    }
    if s.len() == 0 || s[0] != '[' || m >= s.len() - 1 || s[m + 1] != ':' {
        return None;
    }
    assert(m >= 1);
    let host = slice_of(s, 1, m);
    let port = slice_of(s, m + 2, s.len());
    assert(port@ =~= s@.skip(m + 2));
    match (read_zoned(&host), read_number(&port, 65535)) {
        (Some((x, z)), Some(p)) => Some(
            SocketAddr { ip: IpAddr::V6(x), port: p as u16, scope_id: z },
        ),
        _ => None,
    }
}

impl SocketAddr {
    /// Reads a socket address.
    pub fn parse_text(s: &str) -> (r: Option<Self>)
        ensures
            r == parse_socket(s@),
    {
        let v = to_chars(s);
        match read_socket_v4(&v) {
            Some(a) => Some(a),
            None => read_socket_v6(&v),
        }
    }
}

/// The text of a socket address.
pub open spec fn socket_text(a: SocketAddr) -> Seq<char> {
    let port = crate::text::decimal(a.port as nat);
    match a.ip {
        IpAddr::V4(o) => v4_text(o) + ":"@ + port,
        IpAddr::V6(x) => if a.scope_id == 0 {
            "["@ + v6_text(x) + "]:"@ + port
        } else {
            "["@ + v6_text(x) + "%"@ + crate::text::decimal(a.scope_id as nat) + "]:"@ + port
        },
    }
}

impl SocketAddr {
    /// The text of the address.
    pub fn to_text(&self) -> (r: String)
        ensures
            r@ == socket_text(*self),
    {
        match self.ip {
            IpAddr::V4(o) => {
                let mut out: String = o.to_text();
                out.append(":");
                out.append(decimal_text(self.port as u64).as_str());
                out
            },
            IpAddr::V6(x) => {
                let mut out: String = "[".to_owned();
                out.append(x.to_text().as_str());
                if self.scope_id != 0 {
                    out.append("%");
                    out.append(decimal_text(self.scope_id as u64).as_str());
                }
                out.append("]:");
                out.append(decimal_text(self.port as u64).as_str());
                out
            },
        }
    }
}

/// Whether a DNS server, given as `host`, `host:port` or `[host]:port`, is this
/// machine itself: a loopback or unspecified address.
pub fn is_local_resolver(server: &str) -> (r: bool)
    ensures
        r == is_local(server@),
{
    let ip = match SocketAddr::parse_text(server) {
        Some(a) => Some(a.ip),
        None => IpAddr::parse_text(server),
    };
    match ip {
        Some(ip) => ip.is_loopback() || ip.is_unspecified(),
        None => false,
    }
}

/// The word `Empty` is no address.
pub proof fn lemma_word_is_not_local()
    ensures
        !is_local("Empty"@),
{
    let s = "Empty"@;
    reveal_strlit("Empty");
    assert(s =~= seq!['E', 'm', 'p', 't', 'y']);
    crate::text::lemma_find(s, ':');
    crate::text::lemma_find(s, ']');
    assert(parse_socket(s) is None);
    if parse_v4(s) is Some {
        let o = choose|o: Ipv4Addr| s == v4_text(o);
        lemma_v4_no_colon(o);
        assert(s[0] == 'E');
    }
    lemma_double_colon_unique(s, 5);
    assert(crate::text::split(s, ':') =~= seq![s]);
    assert(crate::text::hex_digit(s[1]) == 16);
    assert(parse_groups(s) is None);
}

/// A character that the text of an address can hold.
pub open spec fn is_addr_char(c: char) -> bool {
    crate::text::is_digit(c) || ('a' <= c && c <= 'f') || c == ':' || c == '.'
}

/// Characters that the text of an address can hold, and no others.
pub open spec fn addr_chars(s: Seq<char>) -> bool {
    forall|i: int| 0 <= i < s.len() ==> is_addr_char(#[trigger] s[i])
}

/// `hexadecimal` writes digits and the letters `a` to `f`.
proof fn lemma_hex_addr_chars(n: nat)
    ensures
        addr_chars(crate::text::hexadecimal(n)),
    decreases n,
{
    let s = crate::text::hexadecimal(n);
    if n >= 16 {
        lemma_hex_addr_chars(n / 16);
        let t = crate::text::hexadecimal(n / 16);
        assert forall|i: int| 0 <= i < s.len() implies is_addr_char(#[trigger] s[i]) by {
            if i < t.len() {
                assert(s[i] == t[i]);
            }
        }
    }
}

/// Groups with colons between them.
proof fn lemma_groups_addr_chars(g: Seq<u16>)
    ensures
        addr_chars(groups_text(g)),
    decreases g.len(),
{
    let parts = hex_parts(g);
    let s = groups_text(g);
    if g.len() == 1 {
        lemma_hex_addr_chars(g[0] as nat);
    } else if g.len() > 1 {
        lemma_hex_addr_chars(g[0] as nat);
        lemma_groups_addr_chars(g.skip(1));
        assert(parts.skip(1) =~= hex_parts(g.skip(1)));
        let t = groups_text(g.skip(1));
        assert(s == parts[0] + seq![':'] + t);
        assert forall|i: int| 0 <= i < s.len() implies is_addr_char(#[trigger] s[i]) by {
            if i < parts[0].len() {
                assert(s[i] == parts[0][i]);
            } else if i > parts[0].len() {
                assert(s[i] == t[i - parts[0].len() - 1]);
            }
        }
    }
}

/// The text of an address holds digits, the letters `a` to `f`, colons and dots.
pub proof fn lemma_ip_chars(ip: IpAddr)
    ensures
        addr_chars(ip_text(ip)),
        ip_text(ip).len() > 0,
{
    lemma_parse_ip_text(ip);
    match ip {
        IpAddr::V4(o) => {
            lemma_v4_no_colon(o);
        },
        IpAddr::V6(x) => {
            let g = v6_groups(x);
            let st = best_run(g, 8);
            let len = run_len(g, st);
            let s = v6_text(x);
            if is_mapped(x) {
                let o = mapped_v4(x);
                lemma_v4_no_colon(o);
                let p = seq![':', ':', 'f', 'f', 'f', 'f', ':'];
                assert forall|i: int| 0 <= i < s.len() implies is_addr_char(#[trigger] s[i]) by {
                    if i < 7 {
                        assert(s[i] == p[i]);
                    } else {
                        assert(s[i] == v4_text(o)[i - 7]);
                    }
                }
            } else if len > 1 {
                let a = groups_text(g.take(st));
                let b = groups_text(g.skip(st + len));
                lemma_groups_addr_chars(g.take(st));
                lemma_groups_addr_chars(g.skip(st + len));
                assert forall|i: int| 0 <= i < s.len() implies is_addr_char(#[trigger] s[i]) by {
                    if i < a.len() {
                        assert(s[i] == a[i]);
                    } else if i >= a.len() + 2 {
                        assert(s[i] == b[i - a.len() - 2]);
                    }
                }
            } else {
                lemma_groups_addr_chars(g);
            }
        },
    }
}

} // verus!
