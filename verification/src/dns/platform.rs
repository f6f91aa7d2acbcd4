//! The DNS settings of the system: where the mode keeps its files, how the output of the
//! system's tools is read, and which servers are used.
use vstd::prelude::*;
use vstd::string::*;

use crate::error::prefixed;
use crate::models::{without_local, OriginalDns};
use crate::net::is_local_resolver;
use crate::text::{
    char_is_alnum, has_part, has_start, same_chars, same_text, slice_of, split_lines, split_words,
    to_chars, to_text, trimmed,
};

pub mod call_laws;
pub mod disable;
pub mod enable;
pub mod pid_file;
pub mod privileged;
pub mod run_laws;
pub mod script;

verus! {

broadcast use vstd::string::group_string_axioms;

/// A failure to read or to change the DNS settings of the system.
#[derive(Debug, Clone, PartialEq, Eq)]
pub enum PlatformError {
    GetDns(String),
    SetDns(String),
    RestoreDns(String),
    DetectInterface(String),
    InvalidInterfaceName(String),
    TempScript(String),
    EmptyInterfaceName,
}

impl PlatformError {
    /// The message of the error.
    pub open spec fn message(&self) -> Seq<char> {
        match self {
            PlatformError::GetDns(t) => "failed to get system DNS: "@ + t@,
            PlatformError::SetDns(t) => "failed to set system DNS: "@ + t@,
            PlatformError::RestoreDns(t) => "failed to restore system DNS: "@ + t@,
            PlatformError::DetectInterface(t) => "failed to detect active network interface: "@
                + t@,
            PlatformError::InvalidInterfaceName(t) => "invalid interface name: "@ + t@,
            PlatformError::TempScript(t) => "failed to write temp script: "@ + t@,
            PlatformError::EmptyInterfaceName => "interface name is empty"@,
        }
    }

    /// The message of the error.
    pub fn to_text(&self) -> (r: String)
        ensures
            r@ == self.message(),
    {
        match self {
            PlatformError::GetDns(t) => prefixed("failed to get system DNS: ", t.as_str()),
            PlatformError::SetDns(t) => prefixed("failed to set system DNS: ", t.as_str()),
            PlatformError::RestoreDns(t) => prefixed("failed to restore system DNS: ", t.as_str()),
            PlatformError::DetectInterface(t) => prefixed(
                "failed to detect active network interface: ",
                t.as_str(),
            ),
            PlatformError::InvalidInterfaceName(t) => prefixed(
                "invalid interface name: ",
                t.as_str(),
            ),
            PlatformError::TempScript(t) => prefixed("failed to write temp script: ", t.as_str()),
            PlatformError::EmptyInterfaceName => "interface name is empty".to_owned(),
        }
    }
}

// ---------------------------------------------------------------------------
// Files
// ---------------------------------------------------------------------------
/// A path in a directory.
pub open spec fn joined(dir: Seq<char>, name: Seq<char>) -> Seq<char> {
    if dir.len() == 0 {
        name
    } else if dir.last() == '/' {
        dir + name
    } else {
        dir + "/"@ + name
    }
}

/// A path in a directory, for a name that does not start with a slash.
pub fn join_path(dir: &str, name: &str) -> (r: String)
    ensures
        r@ == joined(dir@, name@),
{
    let v = to_chars(dir);
    let mut out: String = dir.to_owned();
    if v.len() > 0 && v[v.len() - 1] != '/' {
        out.append("/");
    }
    out.append(name);
    assert(dir@.len() == 0 ==> out@ =~= name@);
    out
}

/// The directory for the files of the DNS mode: the one that was asked for, or else one
/// in the directory for data, in the home directory, or in `/tmp`.
pub fn runtime_dir(asked: Option<&str>, data_dir: Option<&str>, home_dir: Option<&str>) -> (r:
    String)
    ensures
        r@ == match asked {
            Some(p) => p@,
            None => {
                let base = match data_dir {
                    Some(d) => d@,
                    None => match home_dir {
                        Some(h) => h@,
                        None => "/tmp"@,
                    },
                };
                joined(joined(base, "mHost"@), ".runtime"@)
            },
        },
{
    match asked {
        Some(p) => p.to_owned(),
        None => {
            let base = match data_dir {
                Some(d) => d,
                None => match home_dir {
                    Some(h) => h,
                    None => "/tmp",
                },
            };
            join_path(join_path(base, "mHost").as_str(), ".runtime")
        },
    }
}

/// The file that names the process of the proxy.
pub fn proxy_pid_file(runtime_dir: &str) -> (r: String)
    ensures
        r@ == joined(runtime_dir@, "mhost-dns-proxy.pid"@),
{
    join_path(runtime_dir, "mhost-dns-proxy.pid")
}

/// The file with the servers that the user had before the mode was enabled.
pub fn original_dns_file(runtime_dir: &str) -> (r: String)
    ensures
        r@ == joined(runtime_dir@, "mhost-dns-original.txt"@),
{
    join_path(runtime_dir, "mhost-dns-original.txt")
}

/// The file that tells the proxy to stop.
pub fn shutdown_signal_file(runtime_dir: &str) -> (r: String)
    ensures
        r@ == joined(runtime_dir@, "mhost-dns-shutdown.signal"@),
{
    join_path(runtime_dir, "mhost-dns-shutdown.signal")
}

/// The file that says that the settings still have to be restored.
pub fn disable_recovery_marker_file(runtime_dir: &str) -> (r: String)
    ensures
        r@ == joined(runtime_dir@, "mhost-dns-disable-recovery.marker"@),
{
    join_path(runtime_dir, "mhost-dns-disable-recovery.marker")
}

// ---------------------------------------------------------------------------
// Interfaces
// ---------------------------------------------------------------------------
/// The characters that the name of an interface may hold.
pub open spec fn is_interface_char(c: char) -> bool {
    crate::text::is_alnum(c) || c == ' ' || c == '.' || c == '_' || c == '-' || c == '/'
}

/// Whether a text holds only such characters.
pub open spec fn interface_chars(s: Seq<char>) -> bool {
    forall|i: int| 0 <= i < s.len() ==> is_interface_char(#[trigger] s[i])
}

/// What std's `Debug` writes for a text: the text in quotes, with escapes.
pub uninterp spec fn debug_form(s: Seq<char>) -> Seq<char>;

/// The formatting of a `str` with `{:?}` in std. The text depends on the argument alone.
#[verifier::external_body]
fn debug_text(s: &str) -> (r: String)
    ensures
        r@ == debug_form(s@),
{
    format!("{:?}", s)
}

/// Tests one character of the name of an interface.
fn is_valid_interface_char(c: char) -> (r: bool)
    ensures
        r == is_interface_char(c),
{
    char_is_alnum(c) || c == ' ' || c == '.' || c == '_' || c == '-' || c == '/'
}

/// Accepts the name of an interface if it is not empty and holds only letters, digits,
/// spaces and `.`, `_`, `-`, `/`.
pub fn validate_interface_name(name: &str) -> (r: Result<(), PlatformError>)
    ensures
        if name@.len() == 0 {
            r == Err::<(), PlatformError>(PlatformError::EmptyInterfaceName)
        } else if interface_chars(name@) {
            r is Ok
        } else {
            r matches Err(PlatformError::InvalidInterfaceName(m)) && m@
                == "name contains disallowed characters: "@ + debug_form(name@)
        },
{
    let v = to_chars(name);
    if v.len() == 0 {
        return Err(PlatformError::EmptyInterfaceName);
    }
    let mut i: usize = 0;
    while i < v.len()
        invariant
            i <= v@.len(),
            v@ == name@,
            v@.len() > 0,
            forall|j: int| 0 <= j < i ==> is_interface_char(#[trigger] v@[j]),
        decreases v.len() - i,
    {
        if !is_valid_interface_char(v[i]) {
            return Err(
                PlatformError::InvalidInterfaceName(
                    prefixed("name contains disallowed characters: ", debug_text(name).as_str()),
                ),
            );
        }
        i = i + 1;
    }
    Ok(())
}

// ---------------------------------------------------------------------------
// Output of the system's tools
// ---------------------------------------------------------------------------
/// What came of running a tool of the system.
#[derive(Debug, Clone, PartialEq, Eq)]
pub enum ToolOutcome {
    /// It could not be run.
    NotRun(String),
    /// It failed, with this error output.
    Failed(String),
    /// It succeeded, with this output.
    Finished(String),
}

/// The second word of the first line that starts with `interface:` and has two words.
pub open spec fn route_device(lines: Seq<Seq<char>>) -> Option<Seq<char>>
    decreases lines.len(),
{
    if lines.len() == 0 {
        None
    } else {
        let line = crate::text::trim(lines[0]);
        if crate::text::begins(line, "interface:"@) && crate::text::words(line).len() >= 2 {
            Some(crate::text::words(line)[1])
        } else {
            route_device(lines.skip(1))
        }
    }
}

/// The port that is named last before the line of a device.
pub open spec fn port_of(
    lines: Seq<Seq<char>>,
    device: Seq<char>,
    port: Option<Seq<char>>,
) -> Option<Seq<char>>
    decreases lines.len(),
{
    if lines.len() == 0 {
        None
    } else {
        let line = crate::text::trim(lines[0]);
        if crate::text::begins(line, "Hardware Port:"@) {
            port_of(lines.skip(1), device, Some(crate::text::trim(line.skip(14))))
        } else if crate::text::begins(line, "Device:"@) && crate::text::trim(line.skip(7))
            == device {
            port
        } else {
            port_of(lines.skip(1), device, port)
        }
    }
}

/// The lines without the white space at their ends, but for those that hold no more.
pub open spec fn entries(lines: Seq<Seq<char>>) -> Seq<Seq<char>>
    decreases lines.len(),
{
    if lines.len() == 0 {
        seq![]
    } else {
        let t = crate::text::trim(lines.last());
        if t.len() == 0 {
            entries(lines.drop_last())
        } else {
            entries(lines.drop_last()).push(t)
        }
    }
}

/// Whether a tool says, without white space at the ends, that there are no servers.
pub open spec fn lists_none(t: Seq<char>) -> bool {
    crate::text::occurs(t, "There aren't any DNS Servers set"@) || t.len() == 0 || t == "Empty"@
}

/// The servers that `networksetup` lists, one on each line.
pub open spec fn listed_servers(output: Seq<char>) -> Seq<Seq<char>> {
    let t = crate::text::trim(output);
    if lists_none(t) {
        seq![]
    } else {
        entries(crate::text::lines(t))
    }
}

/// The servers that `ipconfig` lists, one on each line or several on a line with white
/// space between them: each word is one.
pub open spec fn leased_servers(output: Seq<char>) -> Seq<Seq<char>> {
    let t = crate::text::trim(output);
    if lists_none(t) {
        seq![]
    } else {
        crate::text::words(t)
    }
}

/// The device of the default route, in the output of `route -n get default`.
pub fn parse_route_interface(output: &str) -> (r: Option<String>)
    ensures
        match r {
            Some(d) => route_device(crate::text::lines(output@)) == Some(d@),
            None => route_device(crate::text::lines(output@)) is None,
        },
{
    let all = split_lines(&to_chars(output));
    let ghost ls = crate::text::lines(output@);
    let mut i: usize = 0;
    assert(ls.skip(0) =~= ls);
    while i < all.len()
        invariant
            i <= all@.len(),
            ls == crate::text::vec_texts(all@),
            ls == crate::text::lines(output@),
            route_device(ls) == route_device(ls.skip(i as int)),
        decreases all.len() - i,
    {
        let line = trimmed(&all[i]);
        let ghost rest = ls.skip(i as int);
        assert(rest[0] == all@[i as int]@);
        assert(rest.skip(1) =~= ls.skip(i + 1));
        if has_start(&line, "interface:") {
            let parts = split_words(&line);
            assert(crate::text::vec_texts(parts@).len() == parts@.len());
            if parts.len() >= 2 {
                assert(crate::text::words(line@)[1] == parts@[1]@);
                return Some(to_text(&parts[1]));
            }
        }
        i = i + 1;
    }
    assert(ls.skip(i as int).len() == 0);
    None
}

/// The port of a device, in the output of `networksetup -listallhardwareports`.
pub fn parse_hardware_port(output: &str, device: &str) -> (r: Option<String>)
    ensures
        match r {
            Some(p) => port_of(crate::text::lines(output@), device@, None) == Some(p@),
            None => port_of(crate::text::lines(output@), device@, None) is None,
        },
{
    let all = split_lines(&to_chars(output));
    let wanted = to_chars(device);
    let ghost ls = crate::text::lines(output@);
    let mut port: Option<Vec<char>> = None;
    let ghost mut known: Option<Seq<char>> = None;
    let mut i: usize = 0;
    assert(ls.skip(0) =~= ls);
    while i < all.len()
        invariant
            i <= all@.len(),
            wanted@ == device@,
            ls == crate::text::vec_texts(all@),
            ls == crate::text::lines(output@),
            match port {
                Some(p) => known == Some(p@),
                None => known is None,
            },
            port_of(ls, device@, None) == port_of(ls.skip(i as int), device@, known),
        decreases all.len() - i,
    {
        let line = trimmed(&all[i]);
        let ghost rest = ls.skip(i as int);
        proof {
            assert(rest[0] == all@[i as int]@);
            assert(rest.skip(1) =~= ls.skip(i + 1));
            reveal_strlit("Hardware Port:");
            reveal_strlit("Device:");
        }
        if has_start(&line, "Hardware Port:") {
            let tail = slice_of(&line, 14, line.len());
            assert(tail@ =~= line@.skip(14));
            let name = trimmed(&tail);
            proof {
                known = Some(name@);
            }
            port = Some(name);
        } else if has_start(&line, "Device:") {
            let tail = slice_of(&line, 7, line.len());
            assert(tail@ =~= line@.skip(7));
            if same_chars(&trimmed(&tail), &wanted) {
                return match port {
                    Some(p) => Some(to_text(&p)),
                    None => None,
                };
            }
        }
        i = i + 1;
    }
    assert(ls.skip(i as int).len() == 0);
    None
}

/// The lines of a text without the white space at their ends, but for those that hold no
/// more.
pub fn list_entries(s: &[char]) -> (r: Vec<String>)
    ensures
        crate::text::texts(r@) == entries(crate::text::lines(s@)),
{
    let all = split_lines(s);
    let ghost ls = crate::text::lines(s@);
    let mut out: Vec<String> = Vec::new();
    let mut i: usize = 0;
    assert(crate::text::texts(out@) =~= entries(ls.take(0)));
    while i < all.len()
        invariant
            i <= all@.len(),
            ls == crate::text::vec_texts(all@),
            crate::text::texts(out@) == entries(ls.take(i as int)),
        decreases all.len() - i,
    {
        let ghost before = crate::text::texts(out@);
        let line = trimmed(&all[i]);
        proof {
            assert(ls.take(i + 1).drop_last() =~= ls.take(i as int));
            assert(ls.take(i + 1).last() == all@[i as int]@);
        }
        if line.len() > 0 {
            out.push(to_text(&line));
            assert(crate::text::texts(out@) =~= before.push(line@));
        }
        i = i + 1;
    }
    assert(ls.take(i as int) =~= ls);
    out
}

/// Tests whether a tool says that there are no servers.
fn says_none(t: &[char]) -> (r: bool)
    ensures
        r == lists_none(t@),
{
    has_part(t, "There aren't any DNS Servers set") || t.len() == 0 || same_chars(
        t,
        &to_chars("Empty"),
    )
}

/// The servers in the output of `networksetup -getdnsservers`.
pub fn parse_dns_servers(output: &str) -> (r: Result<Vec<String>, PlatformError>)
    ensures
        r matches Ok(v) && crate::text::texts(v@) == listed_servers(output@),
{
    let t = trimmed(&to_chars(output));
    let empty: Vec<String> = Vec::new();
    assert(crate::text::texts(empty@) =~= seq![]);
    if says_none(&t) {
        return Ok(empty);
    }
    Ok(list_entries(&t))
}

/// The servers in the output of `ipconfig getoption <device> domain_name_server`.
pub fn parse_leased_servers(output: &str) -> (r: Vec<String>)
    ensures
        crate::text::texts(r@) == leased_servers(output@),
{
    let t = trimmed(&to_chars(output));
    let mut out: Vec<String> = Vec::new();
    if says_none(&t) {
        assert(crate::text::texts(out@) =~= seq![]);
        return out;
    }
    let all = split_words(&t);
    let ghost ws = crate::text::words(t@);
    let mut i: usize = 0;
    assert(crate::text::texts(out@) =~= ws.take(0));
    while i < all.len()
        invariant
            i <= all@.len(),
            ws == crate::text::vec_texts(all@),
            crate::text::texts(out@) == ws.take(i as int),
        decreases all.len() - i,
    {
        let ghost before = crate::text::texts(out@);
        out.push(to_text(&all[i]));
        assert(crate::text::texts(out@) =~= before.push(ws[i as int]));
        assert(ws.take(i + 1) =~= ws.take(i as int).push(ws[i as int]));
        i = i + 1;
    }
    assert(ws.take(i as int) =~= ws);
    out
}

/// The device of the default route, from what came of `route -n get default`.
pub fn default_device(route: &ToolOutcome) -> (r: Result<String, PlatformError>)
    ensures
        match route {
            ToolOutcome::NotRun(e) => r matches Err(PlatformError::DetectInterface(m)) && m@
                == "route command failed: "@ + e@,
            ToolOutcome::Failed(e) => r matches Err(PlatformError::DetectInterface(m)) && m@
                == "route failed: "@ + e@,
            ToolOutcome::Finished(t) => match route_device(crate::text::lines(t@)) {
                Some(d) => r matches Ok(x) && x@ == d,
                None => r matches Err(PlatformError::DetectInterface(m)) && m@
                    == "could not parse default interface from route output"@,
            },
        },
{
    match route {
        ToolOutcome::NotRun(e) => Err(
            PlatformError::DetectInterface(prefixed("route command failed: ", e.as_str())),
        ),
        ToolOutcome::Failed(e) => Err(
            PlatformError::DetectInterface(prefixed("route failed: ", e.as_str())),
        ),
        ToolOutcome::Finished(t) => match parse_route_interface(t.as_str()) {
            Some(d) => Ok(d),
            None => Err(
                PlatformError::DetectInterface(
                    "could not parse default interface from route output".to_owned(),
                ),
            ),
        },
    }
}

/// The name of the active interface: the port of the device of the default route, from
/// what came of `networksetup -listallhardwareports`. A name that is not valid is refused.
pub fn get_active_network_interface(device: &str, list: &ToolOutcome) -> (r: Result<
    String,
    PlatformError,
>)
    ensures
        match list {
            ToolOutcome::NotRun(e) => r matches Err(PlatformError::DetectInterface(m)) && m@
                == "networksetup command failed: "@ + e@,
            ToolOutcome::Failed(e) => r matches Err(PlatformError::DetectInterface(m)) && m@
                == "networksetup failed: "@ + e@,
            ToolOutcome::Finished(t) => match port_of(crate::text::lines(t@), device@, None) {
                None => r matches Err(PlatformError::DetectInterface(m)) && m@
                    == "no hardware port found for device '"@ + device@ + "'"@,
                Some(p) => if p.len() == 0 {
                    r == Err::<String, PlatformError>(PlatformError::EmptyInterfaceName)
                } else if interface_chars(p) {
                    r matches Ok(x) && x@ == p
                } else {
                    r matches Err(PlatformError::InvalidInterfaceName(m)) && m@
                        == "name contains disallowed characters: "@ + debug_form(p)
                },
            },
        },
{
    match list {
        ToolOutcome::NotRun(e) => Err(
            PlatformError::DetectInterface(prefixed("networksetup command failed: ", e.as_str())),
        ),
        ToolOutcome::Failed(e) => Err(
            PlatformError::DetectInterface(prefixed("networksetup failed: ", e.as_str())),
        ),
        ToolOutcome::Finished(t) => match parse_hardware_port(t.as_str(), device) {
            None => {
                let mut m: String = "no hardware port found for device '".to_owned();
                m.append(device);
                m.append("'");
                Err(PlatformError::DetectInterface(m))
            },
            Some(p) => match validate_interface_name(p.as_str()) {
                Ok(()) => Ok(p),
                Err(e) => Err(e),
            },
        },
    }
}

/// The error of a tool that lists servers.
pub open spec fn list_failure(tool: ToolOutcome, not_run: Seq<char>, failed: Seq<char>) -> Option<
    Seq<char>,
> {
    match tool {
        ToolOutcome::NotRun(e) => Some(not_run + e@),
        ToolOutcome::Failed(e) => Some(failed + e@),
        ToolOutcome::Finished(_) => None,
    }
}

/// The servers that the user has entered, from what came of
/// `networksetup -getdnsservers`. Servers that are this machine itself are left out.
pub fn networksetup_get_dns(tool: &ToolOutcome) -> (r: Result<Vec<String>, PlatformError>)
    ensures
        match list_failure(*tool, "networksetup command failed: "@, "networksetup failed: "@) {
            Some(t) => r matches Err(PlatformError::GetDns(m)) && m@ == t,
            None => r matches Ok(v) && crate::text::texts(v@) == crate::models::foreign(
                listed_servers(tool->Finished_0@),
            ),
        },
{
    match current_servers(tool) {
        Ok(v) => Ok(without_local(&v)),
        Err(e) => Err(e),
    }
}

/// All servers that the system uses on an interface, from what came of
/// `networksetup -getdnsservers`.
pub fn current_servers(tool: &ToolOutcome) -> (r: Result<Vec<String>, PlatformError>)
    ensures
        match list_failure(*tool, "networksetup command failed: "@, "networksetup failed: "@) {
            Some(t) => r matches Err(PlatformError::GetDns(m)) && m@ == t,
            None => r matches Ok(v) && crate::text::texts(v@) == listed_servers(
                tool->Finished_0@,
            ),
        },
{
    match tool {
        ToolOutcome::NotRun(e) => Err(
            PlatformError::GetDns(prefixed("networksetup command failed: ", e.as_str())),
        ),
        ToolOutcome::Failed(e) => Err(
            PlatformError::GetDns(prefixed("networksetup failed: ", e.as_str())),
        ),
        ToolOutcome::Finished(t) => parse_dns_servers(t.as_str()),
    }
}

/// The servers that came with the lease, from what came of
/// `ipconfig getoption <device> domain_name_server`.
pub fn ipconfig_get_dns(tool: &ToolOutcome) -> (r: Result<Vec<String>, PlatformError>)
    ensures
        match list_failure(*tool, "ipconfig failed: "@, "ipconfig failed: "@) {
            Some(t) => r matches Err(PlatformError::GetDns(m)) && m@ == t,
            None => r matches Ok(v) && crate::text::texts(v@) == leased_servers(
                tool->Finished_0@,
            ),
        },
{
    match tool {
        ToolOutcome::NotRun(e) | ToolOutcome::Failed(e) => Err(
            PlatformError::GetDns(prefixed("ipconfig failed: ", e.as_str())),
        ),
        ToolOutcome::Finished(t) => Ok(parse_leased_servers(t.as_str())),
    }
}

// ---------------------------------------------------------------------------
// Servers
// ---------------------------------------------------------------------------
/// Where the servers that names are looked up at come from.
#[derive(Debug, Clone, Copy, PartialEq, Eq, Structural)]
pub enum UpstreamTier {
    /// The user has entered them.
    Networksetup,
    /// They came with the lease.
    Ipconfig,
    /// They are public ones.
    Public,
}

/// The public servers.
pub open spec fn public_servers() -> Seq<Seq<char>> {
    seq!["8.8.8.8"@, "1.1.1.1"@]
}

/// The servers to use, and where they come from.
pub open spec fn chosen(tier1: Seq<Seq<char>>, tier2: Seq<Seq<char>>) -> (
    Seq<Seq<char>>,
    UpstreamTier,
) {
    if crate::models::foreign(tier1).len() > 0 {
        (crate::models::foreign(tier1), UpstreamTier::Networksetup)
    } else if crate::models::foreign(tier2).len() > 0 {
        (crate::models::foreign(tier2), UpstreamTier::Ipconfig)
    } else {
        (public_servers(), UpstreamTier::Public)
    }
}

/// The public servers.
pub fn tier3_fallback() -> (r: Vec<String>)
    ensures
        crate::text::texts(r@) == public_servers(),
{
    let mut v: Vec<String> = Vec::new();
    v.push("8.8.8.8".to_owned());
    v.push("1.1.1.1".to_owned());
    assert(crate::text::texts(v@) =~= public_servers());
    v
}

/// The servers to use: those that the user has entered, or else those that came with the
/// lease, in both cases without this machine itself, or else public ones.
pub fn select_upstream(tier1: Vec<String>, tier2: Vec<String>) -> (r: (Vec<String>, UpstreamTier))
    ensures
        (crate::text::texts(r.0@), r.1) == chosen(
            crate::text::texts(tier1@),
            crate::text::texts(tier2@),
        ),
{
    let first = without_local(&tier1);
    assert(crate::text::texts(first@).len() == first@.len());
    if first.len() > 0 {
        return (first, UpstreamTier::Networksetup);
    }
    let second = without_local(&tier2);
    assert(crate::text::texts(second@).len() == second@.len());
    if second.len() > 0 {
        return (second, UpstreamTier::Ipconfig);
    }
    (tier3_fallback(), UpstreamTier::Public)
}

/// The texts of a list that could be had, and none where it could not.
pub open spec fn or_none(r: Result<Vec<String>, PlatformError>) -> Seq<Seq<char>> {
    match r {
        Ok(v) => crate::text::texts(v@),
        Err(_) => seq![],
    }
}

/// The servers to look names up at. Without an active interface these are the public
/// ones; a list that cannot be had counts as empty.
pub fn get_upstream_resolvers(
    has_interface: bool,
    entered: Result<Vec<String>, PlatformError>,
    leased: Option<Result<Vec<String>, PlatformError>>,
) -> (r: (Vec<String>, UpstreamTier))
    ensures
        (crate::text::texts(r.0@), r.1) == if has_interface {
            chosen(
                or_none(entered),
                match leased {
                    Some(l) => or_none(l),
                    None => seq![],
                },
            )
        } else {
            (public_servers(), UpstreamTier::Public)
        },
{
    if !has_interface {
        return (tier3_fallback(), UpstreamTier::Public);
    }
    let none1: Vec<String> = Vec::new();
    let none2: Vec<String> = Vec::new();
    assert(crate::text::texts(none1@) =~= seq![]);
    assert(crate::text::texts(none2@) =~= seq![]);
    let first = match entered {
        Ok(v) => v,
        Err(_) => none1,
    };
    let second = match leased {
        Some(Ok(v)) => v,
        Some(Err(_)) => none2,
        None => none2,
    };
    select_upstream(first, second)
}

/// The settings to go back to: the servers that the user has entered, if there are any.
pub fn capture_dns_state(
    interface: Result<String, PlatformError>,
    entered: Result<Vec<String>, PlatformError>,
) -> (r: Result<OriginalDns, PlatformError>)
    ensures
        match interface {
            Err(e) => r == Err::<OriginalDns, PlatformError>(e),
            Ok(_) => r matches Ok(o) && (if or_none(entered).len() > 0 {
                o matches OriginalDns::Manual(v) && crate::text::texts(v@) == or_none(entered)
            } else {
                o is DhcpEmpty
            }),
        },
{
    match interface {
        Err(e) => Err(e),
        Ok(_) => match entered {
            Ok(v) => {
                assert(crate::text::texts(v@).len() == v@.len());
                if v.len() > 0 {
                    Ok(OriginalDns::Manual(v))
                } else {
                    Ok(OriginalDns::DhcpEmpty)
                }
            },
            Err(_) => Ok(OriginalDns::DhcpEmpty),
        },
    }
}

/// Whether a server of a list is this machine itself.
pub open spec fn some_local(servers: Seq<Seq<char>>) -> bool {
    exists|i: int| 0 <= i < servers.len() && crate::net::is_local(#[trigger] servers[i])
}

/// Tests whether a server of a list is this machine itself.
pub fn any_local_resolver(servers: &[String]) -> (r: bool)
    ensures
        r == some_local(crate::text::texts(servers@)),
{
    let ghost t = crate::text::texts(servers@);
    let mut i: usize = 0;
    while i < servers.len()
        invariant
            i <= servers@.len(),
            t == crate::text::texts(servers@),
            forall|j: int| 0 <= j < i ==> !crate::net::is_local(#[trigger] t[j]),
        decreases servers.len() - i,
    {
        if is_local_resolver(servers[i].as_str()) {
            assert(crate::net::is_local(t[i as int]));
            return true;
        }
        i = i + 1;
    }
    false
}

/// Whether the settings are restored: no server that the system uses is this machine
/// itself. Without an answer of the system that is not known.
pub fn verify_dns_restored_against_loopback(
    interface: Result<String, PlatformError>,
    tool: &ToolOutcome,
) -> (r: Result<bool, PlatformError>)
    ensures
        match interface {
            Err(e) => r == Err::<bool, PlatformError>(e),
            Ok(_) => match list_failure(
                *tool,
                "networksetup command failed: "@,
                "networksetup failed: "@,
            ) {
                Some(t) => r matches Err(PlatformError::GetDns(m)) && m@ == t,
                None => r == Ok::<bool, PlatformError>(
                    !some_local(listed_servers(tool->Finished_0@)),
                ),
            },
        },
{
    match interface {
        Err(e) => Err(e),
        Ok(_) => match current_servers(tool) {
            Ok(v) => Ok(!any_local_resolver(&v)),
            Err(e) => Err(e),
        },
    }
}

/// Names are never looked up at this machine itself.
pub proof fn upstream_is_never_local(tier1: Seq<Seq<char>>, tier2: Seq<Seq<char>>)
    ensures
        !some_local(chosen(tier1, tier2).0),
        chosen(tier1, tier2).0.len() > 0,
{
    lemma_foreign_is_not_local(tier1);
    lemma_foreign_is_not_local(tier2);
    lemma_public();
}

/// What is kept of a list is not this machine itself.
proof fn lemma_foreign_is_not_local(servers: Seq<Seq<char>>)
    ensures
        !some_local(crate::models::foreign(servers)),
{
    let r = crate::models::foreign(servers);
    crate::models::lemma_foreign(servers);
    assert forall|i: int| 0 <= i < r.len() implies !crate::net::is_local(#[trigger] r[i]) by {
        assert(r.contains(r[i]));
    }
}

/// The public servers are not this machine itself.
proof fn lemma_public()
    ensures
        !crate::net::is_local("8.8.8.8"@),
        !crate::net::is_local("1.1.1.1"@),
{
    lemma_one_digit_address(8);
    lemma_one_digit_address(1);
    reveal_strlit("8.8.8.8");
    reveal_strlit("1.1.1.1");
    let a = crate::net::ip_text(
        crate::net::IpAddr::V4(crate::net::Ipv4Addr { a: 8, b: 8, c: 8, d: 8 }),
    );
    let b = crate::net::ip_text(
        crate::net::IpAddr::V4(crate::net::Ipv4Addr { a: 1, b: 1, c: 1, d: 1 }),
    );
    assert("8.8.8.8"@ =~= a);
    assert("1.1.1.1"@ =~= b);
}

/// An address made of one digit four times stands for itself.
proof fn lemma_one_digit_address(d: u8)
    requires
        0 < d < 10,
    ensures
        ({
            let c = crate::text::digit_char(d as nat);
            let s = crate::net::ip_text(
                crate::net::IpAddr::V4(crate::net::Ipv4Addr { a: d, b: d, c: d, d }),
            );
            &&& s == seq![c, '.', c, '.', c, '.', c]
            &&& !crate::net::is_local(s)
        }),
{
    let c = crate::text::digit_char(d as nat);
    let ip = crate::net::IpAddr::V4(crate::net::Ipv4Addr { a: d, b: d, c: d, d });
    let s = crate::net::ip_text(ip);
    assert(crate::text::decimal(d as nat) =~= seq![c]);
    let x = seq![c];
    let sep = seq!['.'];
    assert(seq![x, x, x, x].skip(1) =~= seq![x, x, x]);
    assert(seq![x, x, x].skip(1) =~= seq![x, x]);
    assert(seq![x, x].skip(1) =~= seq![x]);
    assert(crate::text::join(seq![x], sep) == x);
    assert(crate::text::join(seq![x, x], sep) == x + sep + x);
    assert(crate::text::join(seq![x, x, x], sep) == x + sep + (x + sep + x));
    assert(s == x + sep + (x + sep + (x + sep + x)));
    assert(s =~= seq![c, '.', c, '.', c, '.', c]);
    crate::net::lemma_parse_ip_text(ip);
    crate::text::lemma_find(s, ':');
    crate::text::lemma_find(s, ']');
    assert(crate::net::parse_socket(s) is None);
}

/// Servers that were captured as the user's own are never this machine itself.
pub proof fn captured_settings_are_foreign(output: Seq<char>)
    ensures
        !some_local(crate::models::foreign(listed_servers(output))),
{
    lemma_foreign_is_not_local(listed_servers(output));
}

} // verus!
