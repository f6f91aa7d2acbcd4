//! What the shared types say: the fields of a rule, the texts of errors, and settings that
//! were found.
use vstd::prelude::*;
use vstd::string::*;

use crate::error::{ApplyError, MhostError, ParseError, StorageError};
use crate::ident::Uuid;
use crate::models::{
    HostRule, OriginalDns, Profile, ProfileId, ProfileMode, ResolvedRule, RuleId, SourceId,
};
use crate::net::{is_local_resolver, IpAddr, SocketAddr};

verus! {

broadcast use vstd::string::group_string_axioms;

/// What a rule says are its fields, all of them but its identifier.
pub proof fn a_rule_says_its_fields(r: HostRule)
    ensures
        r@.ip == r.ip,
        r@.domains.len() == r.domains@.len(),
        forall|i: int| 0 <= i < r.domains@.len() ==> #[trigger] r@.domains[i] == r.domains@[i]@,
        r@.enabled == r.enabled,
        r@.comment is Some <==> r.comment is Some,
        r.comment matches Some(c) ==> r@.comment == Some(c@),
        r@.manual <==> r.source is Manual,
        r@.line_number == r.line_number,
{
}

/// So it is with a merged rule.
pub proof fn a_merged_rule_says_its_fields(r: ResolvedRule)
    ensures
        r@.ip == r.ip,
        r@.domain == r.domain@,
        r@.source_profile_id == r.source_profile_id,
        r@.source_profile_name == r.source_profile_name@,
{
}

/// A new rule is in force, entered by hand, without a comment, and gives its address to the
/// domains in the order given, whatever they are; a rule that is a comment alone is not in
/// force and gives no address.
pub proof fn new_rules(
    ip: IpAddr,
    domains: Vec<String>,
    r: HostRule,
    text: &str,
    c: HostRule,
    b: bool,
    d: bool,
)
    requires
        call_ensures(HostRule::new, (ip, domains), r),
        call_ensures(HostRule::comment_only, (text,), c),
        call_ensures(HostRule::is_comment_only, (&r,), b),
        call_ensures(HostRule::is_comment_only, (&c,), d),
    ensures
        r.ip == Some(ip),
        r.domains == domains,
        r.enabled,
        r.comment is None,
        r.source is Manual,
        r.line_number is None,
        !b,
        c.ip is None,
        c.domains@.len() == 0,
        !c.enabled,
        c.comment matches Some(x) && x@ == text@,
        c.source is Manual,
        c.line_number is None,
        d,
{
    assert(r@.ip == Some(ip));
    assert(c@.domains.len() == c.domains@.len());
}

/// An error says which kind it is, and what it was made with, unchanged.
pub proof fn errors_say_what_they_hold(t: String, expected: u32, found: u32)
    ensures
        ParseError::InvalidIp(t).message() == "invalid IP address: "@ + t@,
        ParseError::InvalidDomain(t).message() == "invalid domain: "@ + t@,
        ParseError::MalformedLine(t).message() == "malformed line: "@ + t@,
        ApplyError::PermissionDenied(t).message() == "permission denied: "@ + t@,
        ApplyError::HostsFileNotFound.message() == "hosts file not found"@,
        ApplyError::BackupFailed(t).message() == "backup failed: "@ + t@,
        ApplyError::ExternalModification.message() == "external modification detected"@,
        ApplyError::VerificationFailed(t).message() == "verification failed: "@ + t@,
        StorageError::ManifestCorrupted(t).message() == "manifest corrupted: "@ + t@,
        (StorageError::VersionMismatch { expected, found }).message()
            == "version mismatch: expected "@ + crate::text::decimal(expected as nat)
            + ", found "@ + crate::text::decimal(found as nat),
        StorageError::Io(t).message() == "io error: "@ + t@,
        MhostError::Io(t).message() == "io error: "@ + t@,
        MhostError::InvalidInput(t).message() == "invalid input: "@ + t@,
{
}

/// An error around another one says which part it is from, and what the other says.
pub proof fn errors_pass_on_what_others_say(p: ParseError, a: ApplyError, s: StorageError)
    ensures
        MhostError::Parse(p).message() == "parse error: "@ + p.message(),
        MhostError::Apply(a).message() == "apply error: "@ + a.message(),
        MhostError::Storage(s).message() == "storage error: "@ + s.message(),
{
}

/// Settings with servers are kept without those of this machine. Settings from an earlier
/// version say `Empty`, or name no other server, where the user had entered none.
pub proof fn settings_are_kept(servers: &Vec<String>, tagged: OriginalDns, legacy: OriginalDns)
    requires
        call_ensures(OriginalDns::from_tagged, (servers,), tagged),
        call_ensures(OriginalDns::from_legacy, (servers,), legacy),
    ensures
        tagged matches OriginalDns::Manual(v) && crate::text::texts(v@) == crate::models::foreign(
            crate::text::texts(servers@),
        ),
        (forall|i: int| 0 <= i < servers@.len() ==> crate::net::is_local((#[trigger] servers@[i])@))
            ==> legacy is DhcpEmpty,
        (exists|i: int| 0 <= i < servers@.len() && (#[trigger] servers@[i])@ == "Empty"@)
            ==> legacy is DhcpEmpty,
        (exists|i: int|
            0 <= i < servers@.len() && !crate::net::is_local((#[trigger] servers@[i])@)) && (forall|
            i: int,
        |
            0 <= i < servers@.len() ==> (#[trigger] servers@[i])@ != "Empty"@) ==> (
        legacy matches OriginalDns::Manual(v) && crate::text::texts(v@) == crate::models::foreign(
            crate::text::texts(servers@),
        )),
{
    let t = crate::text::texts(servers@);
    let f = crate::models::foreign(t);
    crate::models::lemma_foreign(t);
    crate::dns::system_laws::lemma_foreign_nothing(t);
    if forall|i: int| 0 <= i < servers@.len() ==> crate::net::is_local((#[trigger] servers@[i])@) {
        assert forall|i: int| 0 <= i < t.len() implies crate::net::is_local(#[trigger] t[i]) by {
            assert(t[i] == servers@[i]@);
        }
        assert(f.len() == 0);
    }
    if exists|i: int| 0 <= i < servers@.len() && (#[trigger] servers@[i])@ == "Empty"@ {
        let i = choose|i: int| 0 <= i < servers@.len() && (#[trigger] servers@[i])@ == "Empty"@;
        crate::net::lemma_word_is_not_local();
        assert(t[i] == "Empty"@);
        assert(t.contains("Empty"@));
        assert(f.contains("Empty"@));
    }
    if (exists|i: int| 0 <= i < servers@.len() && !crate::net::is_local((#[trigger] servers@[i])@))
        && (forall|i: int| 0 <= i < servers@.len() ==> (#[trigger] servers@[i])@ != "Empty"@) {
        let i = choose|i: int|
            0 <= i < servers@.len() && !crate::net::is_local((#[trigger] servers@[i])@);
        assert(t[i] == servers@[i]@);
        assert(!crate::net::is_local(t[i]));
        assert(f.len() > 0);
        if f.contains("Empty"@) {
            assert(t.contains("Empty"@));
            let k = choose|k: int| 0 <= k < t.len() && t[k] == "Empty"@;
            assert(servers@[k]@ == t[k]);
        }
    }
}

/// Errors are told as they say.
pub proof fn errors_are_told(
    p: ParseError,
    pt: String,
    a: ApplyError,
    at: String,
    s: StorageError,
    st: String,
    m: MhostError,
    mt: String,
)
    requires
        call_ensures(ParseError::to_text, (&p,), pt),
        call_ensures(ApplyError::to_text, (&a,), at),
        call_ensures(StorageError::to_text, (&s,), st),
        call_ensures(MhostError::to_text, (&m,), mt),
    ensures
        p matches ParseError::InvalidIp(t) ==> pt@ == "invalid IP address: "@ + t@,
        p matches ParseError::InvalidDomain(t) ==> pt@ == "invalid domain: "@ + t@,
        p matches ParseError::MalformedLine(t) ==> pt@ == "malformed line: "@ + t@,
        a matches ApplyError::PermissionDenied(t) ==> at@ == "permission denied: "@ + t@,
        a is HostsFileNotFound ==> at@ == "hosts file not found"@,
        a matches ApplyError::BackupFailed(t) ==> at@ == "backup failed: "@ + t@,
        a is ExternalModification ==> at@ == "external modification detected"@,
        a matches ApplyError::VerificationFailed(t) ==> at@ == "verification failed: "@ + t@,
        s matches StorageError::ManifestCorrupted(t) ==> st@ == "manifest corrupted: "@ + t@,
        s matches StorageError::VersionMismatch { expected, found } ==> st@
            == "version mismatch: expected "@ + crate::text::decimal(expected as nat) + ", found "@
            + crate::text::decimal(found as nat),
        s matches StorageError::Io(t) ==> st@ == "io error: "@ + t@,
        m matches MhostError::Io(t) ==> mt@ == "io error: "@ + t@,
        m matches MhostError::InvalidInput(t) ==> mt@ == "invalid input: "@ + t@,
        m == MhostError::Parse(p) ==> mt@ == "parse error: "@ + pt@,
        m == MhostError::Apply(a) ==> mt@ == "apply error: "@ + at@,
        m == MhostError::Storage(s) ==> mt@ == "storage error: "@ + st@,
{
}

/// A new profile has the name that it is given, and nothing else: it is switched off, not
/// protected, without rules, and for the hosts file.
pub proof fn a_new_profile_is_empty(name: &str, p: Profile)
    requires
        call_ensures(Profile::new, (name,), p),
    ensures
        p.name@ == name@,
        p.description is None,
        !p.enabled,
        !p.protected,
        p.tags@.len() == 0,
        p.rules@.len() == 0,
        p.mode == ProfileMode::Hosts,
        p.created_at == p.updated_at,
{
}

/// An identifier that is written is read back as it was, whoever reads it.
pub proof fn identifiers_are_read_back(
    u: Uuid,
    t: String,
    text: &str,
    r: Result<Uuid, String>,
    p: Result<ProfileId, MhostError>,
    pt: String,
    rt: String,
    st: String,
    nil: Uuid,
    new: Uuid,
)
    requires
        call_ensures(Uuid::to_text, (&u,), t),
        text@ == t@,
        call_ensures(Uuid::parse_str, (text,), r),
        call_ensures(ProfileId::parse_text, (text,), p),
        call_ensures(ProfileId::to_text, (&ProfileId(u),), pt),
        call_ensures(RuleId::to_text, (&RuleId(u),), rt),
        call_ensures(SourceId::to_text, (&SourceId(u),), st),
        call_ensures(Uuid::nil, (), nil),
        call_ensures(Uuid::new_v4, (), new),
    ensures
        r == Ok::<Uuid, String>(u),
        p == Ok::<ProfileId, MhostError>(ProfileId(u)),
        pt@ == t@ && rt@ == t@ && st@ == t@,
        nil.0 == 0,
        (new.0 / 0x1000_0000_0000_0000_0000) % 16 == 4,
        (new.0 / 0x4000_0000_0000_0000) % 4 == 2,
{
    assert(crate::ident::hyphenated(u.0) == text@);
}

/// The settings that are handed back are the servers that the user had entered, without those
/// of this machine, or the word `Empty` where there are none.
pub proof fn settings_are_handed_back(
    o: OriginalDns,
    r: Vec<String>,
    manual: bool,
    servers: &Vec<String>,
    foreign: Vec<String>,
)
    requires
        call_ensures(OriginalDns::restore_argv, (&o,), r),
        call_ensures(OriginalDns::is_manual, (&o,), manual),
        call_ensures(crate::models::without_local, (servers,), foreign),
        o matches OriginalDns::Manual(v) ==> v@ == servers@,
    ensures
        manual <==> o is Manual,
        o is DhcpEmpty ==> r@.len() == 1 && r@[0]@ == "Empty"@,
        o is Manual && foreign@.len() == 0 ==> r@.len() == 1 && r@[0]@ == "Empty"@,
        o is Manual && foreign@.len() > 0 ==> crate::text::texts(r@) == crate::text::texts(
            foreign@,
        ),
{
    let t = crate::text::texts(r@);
    assert(t.len() == r@.len());
    assert(crate::text::texts(foreign@).len() == foreign@.len());
    if o is DhcpEmpty || foreign@.len() == 0 {
        assert(t.len() == 1);
        assert(t[0] == r@[0]@);
    }
}

/// Servers are kept or left out one by one, by whether they are of this machine.
pub proof fn servers_are_left_out_one_by_one(
    servers: &Vec<String>,
    r: Vec<String>,
    more: &Vec<String>,
    longer: Vec<String>,
    s: String,
    text: &str,
    local: bool,
)
    requires
        call_ensures(crate::models::without_local, (servers,), r),
        more@ == servers@.push(s),
        call_ensures(crate::models::without_local, (more,), longer),
        text@ == s@,
        call_ensures(is_local_resolver, (text,), local),
    ensures
        servers@.len() == 0 ==> r@.len() == 0,
        local ==> crate::text::texts(longer@) == crate::text::texts(r@),
        !local ==> crate::text::texts(longer@) == crate::text::texts(r@).push(s@),
{
    let t = crate::text::texts(servers@);
    assert(crate::text::texts(more@) =~= t.push(s@));
    crate::dns::system_laws::servers_of_this_machine_are_left_out(t, s@);
    if servers@.len() == 0 {
        assert(t =~= Seq::empty());
        assert(crate::text::texts(r@).len() == r@.len());
    }
}

/// An address that is written is read back as it was. One of four numbers is read exactly from
/// these numbers, without needless zeros, with dots between them.
pub proof fn addresses_are_read_back(
    ip: IpAddr,
    t: String,
    text: &str,
    r: Option<IpAddr>,
    o: crate::net::Ipv4Addr,
    s: &str,
    read: Option<IpAddr>,
)
    requires
        call_ensures(IpAddr::to_text, (&ip,), t),
        text@ == t@,
        call_ensures(IpAddr::parse_text, (text,), r),
        call_ensures(IpAddr::parse_text, (s,), read),
    ensures
        r == Some(ip),
        read == Some(IpAddr::V4(o)) <==> s@ == crate::text::decimal(o.a as nat) + seq!['.']
            + crate::text::decimal(o.b as nat) + seq!['.'] + crate::text::decimal(o.c as nat)
            + seq!['.'] + crate::text::decimal(o.d as nat),
{
    crate::net::lemma_parse_ip_text(ip);
    crate::net_laws::four_numbers_with_dots(s@, o);
}

/// Addresses of this machine are those that begin with 127 and `::1`, and the ones of zeros
/// alone; a server is of this machine if it has such an address, with or without a port.
pub proof fn servers_of_this_machine_are_told(
    ip: IpAddr,
    loopback: bool,
    unspecified: bool,
    text: &str,
    local: bool,
    read: Option<IpAddr>,
    socket: Option<SocketAddr>,
)
    requires
        call_ensures(IpAddr::is_loopback, (&ip,), loopback),
        call_ensures(IpAddr::is_unspecified, (&ip,), unspecified),
        call_ensures(is_local_resolver, (text,), local),
        call_ensures(IpAddr::parse_text, (text,), read),
        call_ensures(SocketAddr::parse_text, (text,), socket),
    ensures
        ip matches IpAddr::V4(o) ==> (loopback <==> o.a == 127) && (unspecified <==> o.a == 0 && o.b
            == 0 && o.c == 0 && o.d == 0),
        ip matches IpAddr::V6(x) ==> (loopback <==> x.s0 == 0 && x.s1 == 0 && x.s2 == 0 && x.s3 == 0
            && x.s4 == 0 && x.s5 == 0 && x.s6 == 0 && x.s7 == 1) && (unspecified <==> x.s0 == 0
            && x.s1 == 0 && x.s2 == 0 && x.s3 == 0 && x.s4 == 0 && x.s5 == 0 && x.s6 == 0 && x.s7
            == 0),
        socket is None && read is None ==> !local,
        socket is None && read == Some(ip) ==> (local <==> loopback || unspecified),
        (socket matches Some(a) && a.ip == ip) ==> (local <==> loopback || unspecified),
{
    crate::net_laws::servers_of_this_machine(text@);
    match ip {
        IpAddr::V4(o) => {
            let x = crate::net::Ipv6Addr {
                s0: 0,
                s1: 0,
                s2: 0,
                s3: 0,
                s4: 0,
                s5: 0,
                s6: 0,
                s7: 0,
            };
            crate::net_laws::loopback_and_unspecified_by_their_numbers(o, x);
        },
        IpAddr::V6(x) => {
            let o = crate::net::Ipv4Addr { a: 0, b: 0, c: 0, d: 0 };
            crate::net_laws::loopback_and_unspecified_by_their_numbers(o, x);
        },
    }
}

/// Four numbers are written with dots between them, and a socket as its address and its port
/// with a colon between, the address in brackets if it is of the longer kind.
pub proof fn addresses_are_written(
    o: crate::net::Ipv4Addr,
    t: String,
    ip: IpAddr,
    w: String,
    a: SocketAddr,
    s: String,
)
    requires
        call_ensures(crate::net::Ipv4Addr::to_text, (&o,), t),
        ip == IpAddr::V4(o),
        call_ensures(IpAddr::to_text, (&ip,), w),
        call_ensures(SocketAddr::to_text, (&a,), s),
    ensures
        t@ == crate::text::decimal(o.a as nat) + seq!['.'] + crate::text::decimal(o.b as nat)
            + seq!['.'] + crate::text::decimal(o.c as nat) + seq!['.'] + crate::text::decimal(
            o.d as nat,
        ),
        w@ == t@,
        a.ip == ip ==> s@ == t@ + seq![':'] + crate::text::decimal(a.port as nat),
        a.ip is V6 && a.scope_id == 0 ==> s@ == seq!['['] + crate::net::ip_text(a.ip) + seq![
            ']',
            ':',
        ] + crate::text::decimal(a.port as nat),
        a.ip is V6 && a.scope_id != 0 ==> s@ == seq!['['] + crate::net::ip_text(a.ip) + seq!['%']
            + crate::text::decimal(a.scope_id as nat) + seq![']', ':'] + crate::text::decimal(
            a.port as nat,
        ),
{
    crate::net_laws::four_numbers_with_dots(t@, o);
    crate::net_laws::sockets_are_written(a);
    if a.ip is V6 && a.scope_id == 0 {
        assert(seq!['['] + crate::net::ip_text(a.ip) + Seq::<char>::empty() =~= seq!['[']
            + crate::net::ip_text(a.ip));
    }
    if a.ip is V6 && a.scope_id != 0 {
        assert(seq!['['] + crate::net::ip_text(a.ip) + (seq!['%'] + crate::text::decimal(
            a.scope_id as nat,
        )) =~= seq!['['] + crate::net::ip_text(a.ip) + seq!['%'] + crate::text::decimal(
            a.scope_id as nat,
        ));
    }
}

/// Addresses stand in order: those of four numbers first, and else by the first number in
/// which they differ; no address stands before itself, and of two different ones one stands
/// before the other.
pub proof fn addresses_stand_in_order(x: IpAddr, y: IpAddr, before: bool, after: bool)
    requires
        call_ensures(IpAddr::is_before, (&x, &y), before),
        call_ensures(IpAddr::is_before, (&y, &x), after),
    ensures
        !(before && after),
        !before && !after <==> x == y,
        x is V4 && y is V6 ==> before,
        (x matches IpAddr::V4(p) && (y matches IpAddr::V4(q) && (p.a < q.a || (p.a == q.a && (p.b
            < q.b || (p.b == q.b && (p.c < q.c || (p.c == q.c && p.d < q.d)))))))) ==> before,
{
    if !before && !after {
        crate::net::lemma_rank_injective(x, y);
    }
    match (x, y) {
        (IpAddr::V4(p), IpAddr::V6(q)) => {
            crate::net_laws::addresses_are_ordered_by_their_numbers(p, p, q, q);
        },
        (IpAddr::V4(p), IpAddr::V4(q)) => {
            let z = crate::net::Ipv6Addr {
                s0: 0,
                s1: 0,
                s2: 0,
                s3: 0,
                s4: 0,
                s5: 0,
                s6: 0,
                s7: 0,
            };
            crate::net_laws::addresses_are_ordered_by_their_numbers(p, q, z, z);
        },
        _ => {},
    }
}

/// An error is passed on as it is, as one of the part that it is from.
pub proof fn errors_are_passed_on(p: ParseError, a: ApplyError, s: StorageError)
    ensures
        <MhostError as vstd::std_specs::convert::FromSpec<ParseError>>::from_spec(p)
            == MhostError::Parse(p),
        <MhostError as vstd::std_specs::convert::FromSpec<ApplyError>>::from_spec(a)
            == MhostError::Apply(a),
        <MhostError as vstd::std_specs::convert::FromSpec<StorageError>>::from_spec(s)
            == MhostError::Storage(s),
{
}

} // verus!
