//! The proxy that passes DNS queries from the privileged port on to the server: what it
//! does about queries and signals, and how it restores the settings of the system when it
//! stops. Sockets, tools and waiting are left to the caller.
use vstd::prelude::*;
use vstd::string::*;

use crate::dns::platform::disable::StateFile;
use crate::dns::platform::{list_entries, validate_interface_name, PlatformError};
use crate::error::prefixed;
use crate::net::{IpAddr, Ipv4Addr, SocketAddr};
use crate::text::{decimal_text, read_unsigned, same_chars, same_text, to_chars, trimmed};

verus! {

broadcast use vstd::string::group_string_axioms;

/// What the signal file holds while the proxy is to run.
pub const RUNNING_SIGNAL: &'static str = "running";

/// What the signal file holds once the proxy is to stop.
pub const SHUTDOWN_SIGNAL: &'static str = "shutdown";

/// How often the proxy looks at the signal file, in seconds.
pub const SHUTDOWN_POLL_SECS: u64 = 1;

/// How long the proxy waits after a failure to receive, in milliseconds.
pub const BACK_OFF_MS: u64 = 100;

/// How many queries are passed on at a time.
pub const MAX_CONCURRENT_CLIENT_QUERIES: usize = 1024;

/// How long the proxy waits for the server, in seconds.
pub const UPSTREAM_TIMEOUT_SECS: u64 = 5;

/// A failure of the proxy.
#[derive(Debug, Clone, PartialEq, Eq)]
pub enum ProxyError {
    BindFailed { addr: SocketAddr, reason: String },
    Io(String),
    /// No answer after this many seconds.
    UpstreamTimeout(u64),
}

impl ProxyError {
    /// The message of the error.
    pub open spec fn message(&self) -> Seq<char> {
        match self {
            ProxyError::BindFailed { addr, reason } => "bind failed on "@
                + crate::net::socket_text(*addr) + ": "@ + reason@,
            ProxyError::Io(t) => "io error: "@ + t@,
            ProxyError::UpstreamTimeout(n) => "upstream timeout after "@ + crate::text::decimal(
                *n as nat,
            ) + "s"@,
        }
    }

    /// The message of the error.
    pub fn to_text(&self) -> (r: String)
        ensures
            r@ == self.message(),
    {
        match self {
            ProxyError::BindFailed { addr, reason } => {
                let mut out: String = prefixed("bind failed on ", addr.to_text().as_str());
                out.append(": ");
                out.append(reason.as_str());
                out
            },
            ProxyError::Io(t) => prefixed("io error: ", t.as_str()),
            ProxyError::UpstreamTimeout(n) => {
                let mut out: String = prefixed(
                    "upstream timeout after ",
                    decimal_text(*n).as_str(),
                );
                out.append("s");
                out
            },
        }
    }
}

// ---------------------------------------------------------------------------
// Meaning
// ---------------------------------------------------------------------------
/// The entries of a list that are addresses, or those that are none, in order.
pub open spec fn entries_that(entries: Seq<Seq<char>>, valid: bool) -> Seq<Seq<char>>
    decreases entries.len(),
{
    if entries.len() == 0 {
        seq![]
    } else if (crate::net::parse_ip(entries.last()) is Some) == valid {
        entries_that(entries.drop_last(), valid).push(entries.last())
    } else {
        entries_that(entries.drop_last(), valid)
    }
}

/// The servers that the file with the user's servers holds.
pub open spec fn recorded_servers(content: Option<Seq<char>>) -> Seq<Seq<char>> {
    match content {
        Some(t) => crate::dns::platform::entries(crate::text::lines(t)),
        None => seq![],
    }
}

/// Whether the signal file tells the proxy to stop.
pub open spec fn says_shutdown(content: Option<Seq<char>>) -> bool {
    match content {
        Some(t) => crate::text::trim(t) == SHUTDOWN_SIGNAL@,
        None => false,
    }
}

/// The arguments of `networksetup` that restore servers on an interface: those that are
/// addresses, or `Empty` when there are none.
pub open spec fn restore_args(interface: Seq<char>, servers: Seq<Seq<char>>) -> Seq<Seq<char>> {
    let valid = entries_that(servers, true);
    seq!["-setdnsservers"@, interface] + if valid.len() == 0 {
        seq!["Empty"@]
    } else {
        valid
    }
}

/// An address of this machine.
pub open spec fn local_addr(port: u16) -> SocketAddr {
    SocketAddr { ip: IpAddr::V4(Ipv4Addr { a: 127, b: 0, c: 0, d: 1 }), port, scope_id: 0 }
}

/// The port that an argument gives; what is no port stands for another.
pub open spec fn port_or(arg: Seq<char>, other: u16) -> u16 {
    match crate::text::unsigned(arg, 65535) {
        Some(n) => n as u16,
        None => other,
    }
}

/// The ports after the arguments from a place on: `--listen` and `--target` set them, and
/// everything else is passed over.
pub open spec fn ports_from(args: Seq<Seq<char>>, i: int, listen: u16, target: u16) -> (u16, u16)
    decreases args.len() - i,
{
    if i < 0 || i >= args.len() {
        (listen, target)
    } else if args[i] == "--listen"@ {
        if i + 1 < args.len() {
            ports_from(args, i + 2, port_or(args[i + 1], 53), target)
        } else {
            (listen, target)
        }
    } else if args[i] == "--target"@ {
        if i + 1 < args.len() {
            ports_from(args, i + 2, listen, port_or(args[i + 1], 1053))
        } else {
            (listen, target)
        }
    } else {
        ports_from(args, i + 1, listen, target)
    }
}

// ---------------------------------------------------------------------------
// Files and arguments
// ---------------------------------------------------------------------------
/// The servers that the file with the user's servers holds, one on each line. Without a
/// file there are none.
pub fn read_original_dns(content: Option<&str>) -> (r: Vec<String>)
    ensures
        crate::text::texts(r@) == recorded_servers(
            match content {
                Some(t) => Some(t@),
                None => None,
            },
        ),
{
    match content {
        Some(t) => list_entries(&to_chars(t)),
        None => {
            let v: Vec<String> = Vec::new();
            assert(crate::text::texts(v@) =~= seq![]);
            v
        },
    }
}

/// The entries of a list that are addresses, and those that are none.
pub fn validate_dns_entries(entries: &[String]) -> (r: (Vec<String>, Vec<String>))
    ensures
        crate::text::texts(r.0@) == entries_that(crate::text::texts(entries@), true),
        crate::text::texts(r.1@) == entries_that(crate::text::texts(entries@), false),
{
    let ghost t = crate::text::texts(entries@);
    let mut valid: Vec<String> = Vec::new();
    let mut invalid: Vec<String> = Vec::new();
    let mut i: usize = 0;
    assert(crate::text::texts(valid@) =~= entries_that(t.take(0), true));
    assert(crate::text::texts(invalid@) =~= entries_that(t.take(0), false));
    while i < entries.len()
        invariant
            i <= entries@.len(),
            t == crate::text::texts(entries@),
            crate::text::texts(valid@) == entries_that(t.take(i as int), true),
            crate::text::texts(invalid@) == entries_that(t.take(i as int), false),
        decreases entries.len() - i,
    {
        let ghost v = crate::text::texts(valid@);
        let ghost w = crate::text::texts(invalid@);
        proof {
            assert(t.take(i + 1).drop_last() =~= t.take(i as int));
            assert(t.take(i + 1).last() == entries@[i as int]@);
        }
        let copy = entries[i].clone();
        match IpAddr::parse_text(entries[i].as_str()) {
            Some(_) => {
                valid.push(copy);
                assert(crate::text::texts(valid@) =~= v.push(entries@[i as int]@));
            },
            None => {
                invalid.push(copy);
                assert(crate::text::texts(invalid@) =~= w.push(entries@[i as int]@));
            },
        }
        i = i + 1;
    }
    assert(t.take(i as int) =~= t);
    (valid, invalid)
}

/// Tests whether the signal file tells the proxy to stop. Without a file, or while it is
/// empty, it does not.
pub fn check_shutdown_signal(content: Option<&str>) -> (r: bool)
    ensures
        r == says_shutdown(
            match content {
                Some(t) => Some(t@),
                None => None,
            },
        ),
{
    match content {
        Some(t) => same_chars(&trimmed(&to_chars(t)), &to_chars(SHUTDOWN_SIGNAL)),
        None => false,
    }
}

/// A port, or another where the argument is none.
fn read_port(arg: &str, other: u16) -> (r: u16)
    ensures
        r == port_or(arg@, other),
{
    match read_unsigned(&to_chars(arg), 65535) {
        Some(n) => n as u16,
        None => other,
    }
}

/// The ports that the arguments of the program give, after its name: the one to listen
/// on, which is 53 unless `--listen` sets it, and the one to pass queries on to, which is
/// 1053 unless `--target` does.
pub fn proxy_ports(args: &[String]) -> (r: (u16, u16))
    ensures
        r == ports_from(crate::text::texts(args@), 1, 53, 1053),
{
    let ghost t = crate::text::texts(args@);
    let mut listen: u16 = 53;
    let mut target: u16 = 1053;
    let mut i: usize = 1;
    while i < args.len()
        invariant
            1 <= i,
            t == crate::text::texts(args@),
            ports_from(t, 1, 53, 1053) == ports_from(t, i as int, listen, target),
        decreases args.len() - i,
    {
        assert(t[i as int] == args@[i as int]@);
        if same_text(args[i].as_str(), "--listen") {
            if i + 1 < args.len() {
                assert(t[i + 1] == args@[i + 1]@);
                listen = read_port(args[i + 1].as_str(), 53);
            } else {
                return (listen, target);
            }
            i = i + 1;
        } else if same_text(args[i].as_str(), "--target") {
            if i + 1 < args.len() {
                assert(t[i + 1] == args@[i + 1]@);
                target = read_port(args[i + 1].as_str(), 1053);
            } else {
                return (listen, target);
            }
            i = i + 1;
        }
        i = i + 1;
    }
    (listen, target)
}

// ---------------------------------------------------------------------------
// The proxy
// ---------------------------------------------------------------------------
/// What the caller has to do.
#[derive(Debug, Clone, Copy, PartialEq, Eq, Structural)]
pub enum ProxyAction {
    /// Wait for what comes next.
    Wait,
    /// Pass the query on. When that is done, the caller says so.
    Forward,
    /// Drop the query: too many are on their way.
    Drop,
    /// Wait so many milliseconds after a failure to receive.
    BackOff { ms: u64 },
    /// Restore the settings of the system, and stop.
    RestoreAndStop,
}

/// What happened.
#[derive(Debug, Clone, PartialEq, Eq)]
pub enum ProxyEvent {
    /// The signal file was read, if there is one.
    Polled(Option<String>),
    /// A query came.
    Query,
    /// Nothing could be received.
    ReceiveFailed,
    /// A query that was passed on is done with.
    QueryDone,
}

/// How the proxy leaves the system: the arguments of `networksetup` that restore the
/// settings, if it can restore them, and the files to remove once that has been tried,
/// whatever came of it.
#[derive(Debug, Clone, PartialEq, Eq)]
pub struct ExitPlan {
    pub args: Option<Vec<String>>,
    pub remove: Vec<StateFile>,
}

/// The proxy: where it listens, where it passes queries on to, the servers that the user
/// had, and how many more queries can be on their way.
pub struct DnsProxy {
    listen_addr: SocketAddr,
    target_addr: SocketAddr,
    original_dns: Vec<String>,
    available: usize,
}

impl DnsProxy {
    /// Where the proxy listens.
    pub closed spec fn listens_on(&self) -> SocketAddr {
        self.listen_addr
    }

    /// Where the proxy passes queries on to.
    pub closed spec fn forwards_to(&self) -> SocketAddr {
        self.target_addr
    }

    /// The servers that the user had.
    pub closed spec fn servers(&self) -> Seq<Seq<char>> {
        crate::text::texts(self.original_dns@)
    }

    /// How many more queries can be on their way.
    pub closed spec fn free(&self) -> nat {
        self.available as nat
    }

    /// No more than the limit can be on their way.
    pub open spec fn wf(&self) -> bool {
        self.free() <= MAX_CONCURRENT_CLIENT_QUERIES
    }

    /// A proxy on this machine, with the servers that the file with the user's servers
    /// holds. No query is on its way.
    pub fn new(listen_port: u16, target_port: u16, original: Option<&str>) -> (r: Self)
        ensures
            r.wf(),
            r.free() == MAX_CONCURRENT_CLIENT_QUERIES,
            r.listens_on() == local_addr(listen_port),
            r.forwards_to() == local_addr(target_port),
            r.servers() == recorded_servers(
                match original {
                    Some(t) => Some(t@),
                    None => None,
                },
            ),
    {
        let here = IpAddr::V4(Ipv4Addr { a: 127, b: 0, c: 0, d: 1 });
        DnsProxy {
            listen_addr: SocketAddr { ip: here, port: listen_port, scope_id: 0 },
            target_addr: SocketAddr { ip: here, port: target_port, scope_id: 0 },
            original_dns: read_original_dns(original),
            available: MAX_CONCURRENT_CLIENT_QUERIES,
        }
    }

    /// Where the proxy listens.
    pub fn listen_addr(&self) -> (r: SocketAddr)
        ensures
            r == self.listens_on(),
    {
        self.listen_addr
    }

    /// Where the proxy passes queries on to.
    pub fn target_addr(&self) -> (r: SocketAddr)
        ensures
            r == self.forwards_to(),
    {
        self.target_addr
    }

    /// How many more queries can be on their way.
    pub fn available_permits(&self) -> (r: usize)
        ensures
            r == self.free(),
    {
        self.available
    }

    /// What to do about what happened. A query is passed on as long as fewer than the
    /// limit are on their way.
    pub fn step(&mut self, event: &ProxyEvent) -> (r: ProxyAction)
        requires
            old(self).wf(),
            event is QueryDone ==> old(self).free() < MAX_CONCURRENT_CLIENT_QUERIES,
        ensures
            final(self).wf(),
            final(self).listens_on() == old(self).listens_on(),
            final(self).forwards_to() == old(self).forwards_to(),
            final(self).servers() == old(self).servers(),
            match event {
                ProxyEvent::Polled(content) => final(self).free() == old(self).free() && r == if says_shutdown(
                    crate::models::text_of(*content),
                ) {
                    ProxyAction::RestoreAndStop
                } else {
                    ProxyAction::Wait
                },
                ProxyEvent::Query => if old(self).free() > 0 {
                    r is Forward && final(self).free() == old(self).free() - 1
                } else {
                    r is Drop && final(self).free() == 0
                },
                ProxyEvent::ReceiveFailed => r == (ProxyAction::BackOff { ms: BACK_OFF_MS })
                    && final(self).free() == old(self).free(),
                ProxyEvent::QueryDone => r is Wait && final(self).free() == old(self).free() + 1,
            },
    {
        match event {
            ProxyEvent::Polled(content) => {
                let stop = match content {
                    Some(t) => check_shutdown_signal(Some(t.as_str())),
                    None => false,
                };
                if stop {
                    ProxyAction::RestoreAndStop
                } else {
                    ProxyAction::Wait
                }
            },
            ProxyEvent::Query => {
                if self.available > 0 {
                    self.available = self.available - 1;
                    ProxyAction::Forward
                } else {
                    ProxyAction::Drop
                }
            },
            ProxyEvent::ReceiveFailed => ProxyAction::BackOff { ms: BACK_OFF_MS },
            ProxyEvent::QueryDone => {
                self.available = self.available + 1;
                ProxyAction::Wait
            },
        }
    }

    /// Whether there is anything to restore.
    pub fn has_original(&self) -> (r: bool)
        ensures
            r == (self.servers().len() > 0),
    {
        self.original_dns.len() > 0
    }

    /// How the proxy leaves the system when it stops. The settings are restored unless it
    /// knows of no servers, or of no valid interface. The signal file and the file with the
    /// user's servers are removed in any case.
    pub fn restore_dns_and_exit(&self, interface: &Result<String, PlatformError>) -> (r: ExitPlan)
        ensures
            match interface {
                Ok(i) => if self.servers().len() > 0 && i@.len() > 0
                    && crate::dns::platform::interface_chars(i@) {
                    r.args matches Some(v) && crate::text::texts(v@) == restore_args(
                        i@,
                        self.servers(),
                    )
                } else {
                    r.args is None
                },
                Err(_) => r.args is None,
            },
            r.remove@ == seq![StateFile::Signal, StateFile::Original],
    {
        let args = self.restoring_args(interface);
        let mut remove: Vec<StateFile> = Vec::new();
        remove.push(StateFile::Signal);
        remove.push(StateFile::Original);
        assert(remove@ =~= seq![StateFile::Signal, StateFile::Original]);
        ExitPlan { args, remove }
    }

    /// The arguments of `networksetup` that restore the settings.
    fn restoring_args(&self, interface: &Result<String, PlatformError>) -> (r: Option<Vec<String>>)
        ensures
            match interface {
                Ok(i) => if self.servers().len() > 0 && i@.len() > 0
                    && crate::dns::platform::interface_chars(i@) {
                    r matches Some(v) && crate::text::texts(v@) == restore_args(
                        i@,
                        self.servers(),
                    )
                } else {
                    r is None
                },
                Err(_) => r is None,
            },
    {
        if self.original_dns.len() == 0 {
            return None;
        }
        let name = match interface {
            Ok(i) => i,
            Err(_) => {
                return None;
            },
        };
        if validate_interface_name(name.as_str()).is_err() {
            return None;
        }
        let (valid, _invalid) = validate_dns_entries(&self.original_dns);
        let ghost t = crate::text::texts(valid@);
        assert(t.len() == valid@.len());
        let mut args: Vec<String> = Vec::new();
        args.push("-setdnsservers".to_owned());
        args.push(name.clone());
        let ghost head = seq!["-setdnsservers"@, name@];
        assert(crate::text::texts(args@) =~= head);
        if valid.len() == 0 {
            args.push("Empty".to_owned());
            assert(crate::text::texts(args@) =~= head + seq!["Empty"@]);
        } else {
            let mut i: usize = 0;
            assert(crate::text::texts(args@) =~= head + t.take(0));
            while i < valid.len()
                invariant
                    i <= valid@.len(),
                    t == crate::text::texts(valid@),
                    crate::text::texts(args@) == head + t.take(i as int),
                decreases valid.len() - i,
            {
                let ghost before = crate::text::texts(args@);
                args.push(valid[i].clone());
                assert(crate::text::texts(args@) =~= before.push(t[i as int]));
                assert(t.take(i + 1) =~= t.take(i as int).push(t[i as int]));
                assert(before.push(t[i as int]) =~= head + t.take(i + 1));
                i = i + 1;
            }
            assert(t.take(i as int) =~= t);
        }
        Some(args)
    }
}

// ---------------------------------------------------------------------------
// Laws
// ---------------------------------------------------------------------------
/// Every entry of a list is an address or none, and is found in the one part or the other.
pub proof fn entries_are_split(entries: Seq<Seq<char>>)
    ensures
        entries_that(entries, true).len() + entries_that(entries, false).len() == entries.len(),
        forall|e: Seq<char>| #[trigger]
            entries_that(entries, true).contains(e) <==> entries.contains(e)
                && crate::net::parse_ip(e) is Some,
        forall|e: Seq<char>| #[trigger]
            entries_that(entries, false).contains(e) <==> entries.contains(e)
                && crate::net::parse_ip(e) is None,
    decreases entries.len(),
{
    if entries.len() > 0 {
        entries_are_split(entries.drop_last());
        lemma_part(entries, true);
        lemma_part(entries, false);
    }
}

/// One part of a list, from that of the list without its last entry.
proof fn lemma_part(entries: Seq<Seq<char>>, valid: bool)
    requires
        entries.len() > 0,
        forall|e: Seq<char>| #[trigger]
            entries_that(entries.drop_last(), valid).contains(e) <==> entries.drop_last().contains(
                e,
            ) && (crate::net::parse_ip(e) is Some) == valid,
    ensures
        forall|e: Seq<char>| #[trigger]
            entries_that(entries, valid).contains(e) <==> entries.contains(e) && (
            crate::net::parse_ip(e) is Some) == valid,
{
    let init = entries.drop_last();
    let last = entries.last();
    let a = entries_that(init, valid);
    let b = entries_that(entries, valid);
    assert forall|e: Seq<char>| #[trigger] b.contains(e) <==> entries.contains(e) && (
    crate::net::parse_ip(e) is Some) == valid by {
        assert(a.contains(e) <==> init.contains(e) && (crate::net::parse_ip(e) is Some) == valid);
        assert(entries =~= init.push(last));
        if entries.contains(e) {
            let i = choose|i: int| 0 <= i < entries.len() && entries[i] == e;
            if i < init.len() {
                assert(init[i] == e);
            }
        }
        if init.contains(e) {
            let i = choose|i: int| 0 <= i < init.len() && init[i] == e;
            assert(entries[i] == e);
        }
        if e == last {
            assert(entries[entries.len() - 1] == e);
        }
        if b != a {
            assert(b == a.push(last));
            if b.contains(e) {
                let i = choose|i: int| 0 <= i < b.len() && b[i] == e;
                if i < a.len() {
                    assert(a[i] == e);
                }
            }
            if a.contains(e) {
                let i = choose|i: int| 0 <= i < a.len() && a[i] == e;
                assert(b[i] == e);
            }
            assert(b[a.len() as int] == last);
        }
    }
}

/// What the proxy hands to `networksetup` behind the name of the interface are addresses,
/// or the word `Empty`, whatever the file with the user's servers holds.
pub proof fn only_addresses_are_restored(interface: Seq<char>, servers: Seq<Seq<char>>, i: int)
    requires
        2 <= i < restore_args(interface, servers).len(),
    ensures
        restore_args(interface, servers)[i] == "Empty"@ || crate::net::parse_ip(
            restore_args(interface, servers)[i],
        ) is Some,
{
    let valid = entries_that(servers, true);
    entries_are_split(servers);
    if valid.len() > 0 {
        assert(restore_args(interface, servers)[i] == valid[i - 2]);
        assert(valid.contains(valid[i - 2]));
    }
}

/// What is written to the signal file to stop the proxy is what the proxy stops for; what
/// is written when it starts is not.
pub proof fn lemma_signals()
    ensures
        says_shutdown(Some(SHUTDOWN_SIGNAL@)),
        !says_shutdown(Some(RUNNING_SIGNAL@)),
{
    reveal_strlit("shutdown");
    reveal_strlit("running");
    crate::hosts::parser::lemma_trim_fixed(SHUTDOWN_SIGNAL@);
    crate::hosts::parser::lemma_trim_fixed(RUNNING_SIGNAL@);
    assert(SHUTDOWN_SIGNAL@.len() == 8 && RUNNING_SIGNAL@.len() == 7);
}

/// An entry that the file with the user's servers can hold: not empty, on one line, and
/// without white space at its ends.
pub open spec fn plain_entry(s: Seq<char>) -> bool {
    s.len() > 0 && !s.contains('\n') && crate::text::trim(s) == s
}

/// The servers that were written down when the mode was entered are those that the proxy
/// reads.
pub proof fn written_servers_are_read(servers: Seq<Seq<char>>)
    requires
        servers.len() > 0,
        forall|i: int| 0 <= i < servers.len() ==> plain_entry(#[trigger] servers[i]),
    ensures
        recorded_servers(Some(crate::text::join(servers, "\n"@))) == servers,
{
    reveal_strlit("\n");
    assert("\n"@ =~= seq!['\n']);
    assert forall|i: int| 0 <= i < servers.len() implies (#[trigger] servers[i]).len() > 0
        && crate::hosts::block::clean_line(servers[i]) by {
        let s = servers[i];
        assert(plain_entry(s));
        crate::hosts::parser::lemma_trim(s);
    }
    crate::hosts::block::lemma_joined_lines(servers);
    lemma_plain_entries(servers);
}

/// The servers that the system's tools list are such that they can be written down and
/// read again.
pub proof fn listed_servers_are_plain(output: Seq<char>, i: int)
    requires
        0 <= i < crate::dns::platform::listed_servers(output).len(),
    ensures
        plain_entry(crate::dns::platform::listed_servers(output)[i]),
{
    let ls = crate::text::lines(crate::text::trim(output));
    crate::hosts::round_trip::lemma_lines_have_no_newline(crate::text::trim(output));
    lemma_entries_are_plain(ls);
}

/// Entries of lines are plain.
proof fn lemma_entries_are_plain(ls: Seq<Seq<char>>)
    requires
        forall|i: int| 0 <= i < ls.len() ==> !(#[trigger] ls[i]).contains('\n'),
    ensures
        forall|i: int|
            0 <= i < crate::dns::platform::entries(ls).len() ==> plain_entry(
                #[trigger] crate::dns::platform::entries(ls)[i],
            ),
    decreases ls.len(),
{
    if ls.len() > 0 {
        let init = ls.drop_last();
        assert forall|i: int| 0 <= i < init.len() implies !(#[trigger] init[i]).contains('\n') by {
            assert(init[i] == ls[i]);
        }
        lemma_entries_are_plain(init);
        let l = ls[ls.len() - 1];
        assert(!l.contains('\n'));
        let t = crate::text::trim(l);
        crate::hosts::parser::lemma_trim(l);
        crate::hosts::parser::lemma_trim_fixed(t);
        if t.contains('\n') {
            let j = choose|j: int| 0 <= j < t.len() && t[j] == '\n';
            assert(l.contains(t[j]));
        }
        let a = crate::dns::platform::entries(init);
        let b = crate::dns::platform::entries(ls);
        assert forall|i: int| 0 <= i < b.len() implies plain_entry(#[trigger] b[i]) by {
            if i < a.len() {
                assert(b[i] == a[i]);
            } else {
                assert(b[i] == t);
            }
        }
    }
}

/// Plain entries are kept as they are.
proof fn lemma_plain_entries(servers: Seq<Seq<char>>)
    requires
        forall|i: int| 0 <= i < servers.len() ==> plain_entry(#[trigger] servers[i]),
    ensures
        crate::dns::platform::entries(servers) == servers,
    decreases servers.len(),
{
    if servers.len() > 0 {
        let init = servers.drop_last();
        assert forall|i: int| 0 <= i < init.len() implies plain_entry(#[trigger] init[i]) by {
            assert(init[i] == servers[i]);
        }
        lemma_plain_entries(init);
        assert(plain_entry(servers[servers.len() - 1]));
        assert(init.push(servers.last()) =~= servers);
    } else {
        assert(servers =~= seq![]);
    }
}

} // verus!
