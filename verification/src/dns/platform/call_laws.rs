//! What the calls that read and change the settings of the system come to.
use vstd::prelude::*;
use vstd::string::*;

use crate::dns::platform::disable::{
    disable_dns_mode, force_dns_restore_if_needed, legacy_tmp_files, restore_outcome, DisableStep,
    StateFile,
};
use crate::dns::platform::enable::{enable_dns_mode, validate_proxy_binary, EnableStep};
use crate::dns::platform::pid_file::{
    file_name_of, is_same_program, read_proxy_expected_basename, read_proxy_pid,
};
use crate::dns::platform::privileged::{run_with_privileges_timeout, RunAction, RunState};
use crate::dns::platform::script::{
    build_disable_script, build_enable_script, build_osascript_command, force_restore_script,
    generate_nonce, restore_script, shell_single_quote, temp_script_name, DisableScriptInputs,
    EnableScriptInputs,
};
use crate::dns::platform::{
    any_local_resolver, default_device, disable_recovery_marker_file, get_active_network_interface,
    join_path, list_entries, original_dns_file, parse_dns_servers, parse_hardware_port,
    parse_leased_servers, parse_route_interface, proxy_pid_file, runtime_dir, shutdown_signal_file,
    tier3_fallback, validate_interface_name, PlatformError, ToolOutcome,
};
use crate::models::OriginalDns;

verus! {

broadcast use vstd::string::group_string_axioms;

// ---------------------------------------------------------------------------
// Files
// ---------------------------------------------------------------------------
/// A path is a directory and a name with one slash between them, and each file of the proxy
/// has a name of its own.
pub proof fn files_have_their_places(
    dir: &str,
    name: &str,
    path: String,
    pid: String,
    original: String,
    signal: String,
    marker: String,
)
    requires
        call_ensures(join_path, (dir, name), path),
        call_ensures(proxy_pid_file, (dir,), pid),
        call_ensures(original_dns_file, (dir,), original),
        call_ensures(shutdown_signal_file, (dir,), signal),
        call_ensures(disable_recovery_marker_file, (dir,), marker),
    ensures
        dir@.len() == 0 ==> path@ == name@,
        dir@.len() > 0 && dir@.last() == '/' ==> path@ == dir@ + name@,
        dir@.len() > 0 && dir@.last() != '/' ==> path@ == dir@ + seq!['/'] + name@,
        name@ == "mhost-dns-proxy.pid"@ ==> pid@ == path@,
        name@ == "mhost-dns-original.txt"@ ==> original@ == path@,
        name@ == "mhost-dns-shutdown.signal"@ ==> signal@ == path@,
        name@ == "mhost-dns-disable-recovery.marker"@ ==> marker@ == path@,
{
    if dir@.len() > 0 && dir@.last() != '/' {
        crate::dns::system_laws::one_slash_stands_between(dir@, name@);
    }
}

/// The files are in the directory that was asked for, or else below the one for data, the
/// home directory, or `/tmp`, whichever is there first.
pub proof fn the_directory_is_found(
    asked: Option<&str>,
    data_dir: Option<&str>,
    home_dir: Option<&str>,
    r: String,
    base: &str,
    part: String,
    of_part: &str,
    whole: String,
)
    requires
        call_ensures(runtime_dir, (asked, data_dir, home_dir), r),
        call_ensures(join_path, (base, "mHost"), part),
        of_part@ == part@,
        call_ensures(join_path, (of_part, ".runtime"), whole),
    ensures
        asked matches Some(p) ==> r@ == p@,
        asked is None && (data_dir matches Some(d) && d@ == base@) ==> r@ == whole@,
        asked is None && data_dir is None && (home_dir matches Some(h) && h@ == base@) ==> r@
            == whole@,
        asked is None && data_dir is None && home_dir is None && base@ == "/tmp"@ ==> r@ == whole@,
{
}

/// The files of earlier versions are those in `/tmp`.
pub proof fn files_of_earlier_versions(r: Vec<String>)
    requires
        call_ensures(legacy_tmp_files, (), r),
    ensures
        r@.len() == 4,
        r@[0]@ == "/tmp/mhost-dns-proxy.pid"@,
        r@[1]@ == "/tmp/mhost-dns-original.txt"@,
        r@[2]@ == "/tmp/mhost-dns-shutdown.signal"@,
        r@[3]@ == "/tmp/mhost-dns-disable-recovery.marker"@,
{
    let t = crate::text::texts(r@);
    assert(t.len() == 4);
    assert(t[0] == r@[0]@);
    assert(t[1] == r@[1]@);
    assert(t[2] == r@[2]@);
    assert(t[3] == r@[3]@);
}

// ---------------------------------------------------------------------------
// What tools print
// ---------------------------------------------------------------------------
/// The device of the default route is the word behind `interface:` on the first line that has
/// one. A tool that was not run, or failed, or printed no such line, gives none.
pub proof fn the_default_device_is_read(
    output: String,
    text: &str,
    device: Option<String>,
    why: String,
    found: Result<String, PlatformError>,
    not_run: Result<String, PlatformError>,
    failed: Result<String, PlatformError>,
    i: int,
)
    requires
        text@ == output@,
        call_ensures(parse_route_interface, (text,), device),
        call_ensures(default_device, (&ToolOutcome::Finished(output),), found),
        call_ensures(default_device, (&ToolOutcome::NotRun(why),), not_run),
        call_ensures(default_device, (&ToolOutcome::Failed(why),), failed),
        0 <= i <= crate::text::lines(output@).len(),
        forall|k: int|
            0 <= k < i ==> !(crate::text::begins(
                crate::text::trim(#[trigger] crate::text::lines(output@)[k]),
                "interface:"@,
            ) && crate::text::words(crate::text::trim(crate::text::lines(output@)[k])).len() >= 2),
        i < crate::text::lines(output@).len() ==> crate::text::begins(
            crate::text::trim(crate::text::lines(output@)[i]),
            "interface:"@,
        ) && crate::text::words(crate::text::trim(crate::text::lines(output@)[i])).len() >= 2,
    ensures
        i < crate::text::lines(output@).len() ==> (device matches Some(d) && d@
            == crate::text::words(crate::text::trim(crate::text::lines(output@)[i]))[1]) && (
        found matches Ok(d) && d@ == crate::text::words(
            crate::text::trim(crate::text::lines(output@)[i]),
        )[1]),
        i == crate::text::lines(output@).len() ==> device is None && (found matches Err(
            PlatformError::DetectInterface(m),
        ) && m@ == "could not parse default interface from route output"@),
        not_run matches Err(PlatformError::DetectInterface(m)) && m@ == "route command failed: "@
            + why@,
        failed matches Err(PlatformError::DetectInterface(m)) && m@ == "route failed: "@ + why@,
{
    crate::dns::system_laws::the_device_of_the_default_route(crate::text::lines(output@), i);
}

/// The interface of a device is the port that is printed before it, if its name is valid. A
/// tool that was not run, or failed, or printed no port for the device, gives none.
pub proof fn the_interface_of_a_device_is_read(
    output: String,
    text: &str,
    device: &str,
    port: Option<String>,
    why: String,
    found: Result<String, PlatformError>,
    not_run: Result<String, PlatformError>,
    failed: Result<String, PlatformError>,
    name: &str,
    valid: Result<(), PlatformError>,
)
    requires
        text@ == output@,
        call_ensures(parse_hardware_port, (text, device), port),
        call_ensures(get_active_network_interface, (device, &ToolOutcome::Finished(output)), found),
        call_ensures(get_active_network_interface, (device, &ToolOutcome::NotRun(why)), not_run),
        call_ensures(get_active_network_interface, (device, &ToolOutcome::Failed(why)), failed),
        port matches Some(p) ==> name@ == p@,
        call_ensures(validate_interface_name, (name,), valid),
    ensures
        found is Ok <==> port is Some && valid is Ok,
        found matches Ok(x) ==> (port matches Some(p) && x@ == p@),
        port is None ==> (found matches Err(PlatformError::DetectInterface(m)) && m@
            == "no hardware port found for device '"@ + device@ + "'"@),
        port is Some && name@.len() == 0 ==> found matches Err(PlatformError::EmptyInterfaceName),
        port is Some && name@.len() > 0 && valid is Err ==> (found matches Err(
            PlatformError::InvalidInterfaceName(_),
        )),
        not_run matches Err(PlatformError::DetectInterface(m)) && m@
            == "networksetup command failed: "@ + why@,
        failed matches Err(PlatformError::DetectInterface(m)) && m@ == "networksetup failed: "@
            + why@,
{
    crate::dns::system_laws::names_of_interfaces_are_checked(name, valid);
    crate::dns::system_laws::characters_of_interfaces(name@);
}

/// The port of a device is the rest of the last line before it that starts with
/// `Hardware Port:`.
pub proof fn the_port_of_a_device_is_read(
    output: &str,
    device: &str,
    port: Option<String>,
    p: int,
    i: int,
)
    requires
        call_ensures(parse_hardware_port, (output, device), port),
        -1 <= p < i <= crate::text::lines(output@).len(),
        p >= 0 ==> crate::dns::system_laws::names_a_port(crate::text::lines(output@)[p]),
        forall|k: int|
            p < k < i ==> !crate::dns::system_laws::names_a_port(
                #[trigger] crate::text::lines(output@)[k],
            ),
        forall|k: int|
            0 <= k < i ==> !crate::dns::system_laws::names_the_device(
                #[trigger] crate::text::lines(output@)[k],
                device@,
            ),
        i < crate::text::lines(output@).len() ==> crate::dns::system_laws::names_the_device(
            crate::text::lines(output@)[i],
            device@,
        ),
    ensures
        p >= 0 && i < crate::text::lines(output@).len() ==> (port matches Some(t) && t@
            == crate::text::trim(crate::text::trim(crate::text::lines(output@)[p]).skip(14))),
        p < 0 || i == crate::text::lines(output@).len() ==> port is None,
{
    crate::dns::system_laws::the_port_before_its_device(
        crate::text::lines(output@),
        device@,
        None,
        p,
        i,
    );
}

/// The servers that a tool prints are its lines, or its words, but for white space around
/// them; and none if it prints nothing, or says that there are none.
pub proof fn printed_servers_are_returned(
    output: &str,
    entered: Result<Vec<String>, PlatformError>,
    leased: Vec<String>,
)
    requires
        call_ensures(parse_dns_servers, (output,), entered),
        call_ensures(parse_leased_servers, (output,), leased),
    ensures
        entered is Ok,
        ({
            let t = crate::text::trim(output@);
            let none = t.len() == 0 || t == "Empty"@ || exists|x: Seq<char>, y: Seq<char>|
                t == x + "There aren't any DNS Servers set"@ + y;
            &&& none ==> entered->Ok_0@.len() == 0 && leased@.len() == 0
            &&& !none ==> crate::text::texts(entered->Ok_0@) == crate::dns::platform::entries(
                crate::text::lines(t),
            ) && crate::text::texts(leased@) == crate::text::words(t)
        }),
{
    crate::dns::system_laws::printed_servers_are_read(output@);
    assert(crate::text::texts(entered->Ok_0@).len() == entered->Ok_0@.len());
    assert(crate::text::texts(leased@).len() == leased@.len());
}

/// The entries of a list are its lines without the white space around them, those of white
/// space alone left out.
pub proof fn entries_are_lines(
    s: &[char],
    r: Vec<String>,
    more: &[char],
    longer: Vec<String>,
    l: Seq<char>,
)
    requires
        call_ensures(list_entries, (s,), r),
        call_ensures(list_entries, (more,), longer),
        crate::text::lines(more@) == crate::text::lines(s@).push(l),
    ensures
        crate::text::lines(s@).len() == 0 ==> r@.len() == 0,
        crate::text::trim(l).len() == 0 ==> crate::text::texts(longer@) == crate::text::texts(r@),
        crate::text::trim(l).len() > 0 ==> crate::text::texts(longer@) == crate::text::texts(
            r@,
        ).push(crate::text::trim(l)),
{
    crate::dns::system_laws::every_line_with_something_is_an_entry(crate::text::lines(s@), l);
    if crate::text::lines(s@).len() == 0 {
        assert(crate::text::lines(s@) =~= Seq::empty());
        assert(crate::text::texts(r@).len() == r@.len());
    }
}

/// Servers are of this machine if one of them is; and without any other, two public ones are
/// asked.
pub proof fn servers_are_looked_through(servers: &[String], r: bool, public: Vec<String>)
    requires
        call_ensures(any_local_resolver, (servers,), r),
        call_ensures(tier3_fallback, (), public),
    ensures
        r <==> exists|i: int|
            0 <= i < servers@.len() && crate::net::is_local((#[trigger] servers@[i])@),
        public@.len() == 2,
        public@[0]@ == "8.8.8.8"@,
        public@[1]@ == "1.1.1.1"@,
{
    let t = crate::text::texts(servers@);
    if r {
        let i = choose|i: int| 0 <= i < t.len() && crate::net::is_local(#[trigger] t[i]);
        assert(t[i] == servers@[i]@);
    }
    if exists|i: int| 0 <= i < servers@.len() && crate::net::is_local((#[trigger] servers@[i])@) {
        let i = choose|i: int|
            0 <= i < servers@.len() && crate::net::is_local((#[trigger] servers@[i])@);
        assert(t[i] == servers@[i]@);
        assert(crate::net::is_local(t[i]));
    }
    let p = crate::text::texts(public@);
    assert(p.len() == 2);
    assert(p[0] == public@[0]@);
    assert(p[1] == public@[1]@);
}

// ---------------------------------------------------------------------------
// The process
// ---------------------------------------------------------------------------
/// The file of the process names it in its first word, and its program in the rest; without
/// the file there is none.
pub proof fn the_file_of_the_process_is_read(
    content: &str,
    pid: Option<u32>,
    program: Option<String>,
    no_pid: Option<u32>,
    no_program: Option<String>,
    path: &[char],
    name: Option<Vec<char>>,
)
    requires
        call_ensures(read_proxy_pid, (Some(content),), pid),
        call_ensures(read_proxy_pid, (None,), no_pid),
        call_ensures(read_proxy_expected_basename, (Some(content),), program),
        call_ensures(read_proxy_expected_basename, (None,), no_program),
        path@ == crate::text::join(crate::text::words(content@).skip(1), seq![' ']),
        call_ensures(file_name_of, (path,), name),
    ensures
        no_pid is None && no_program is None,
        crate::text::words(content@).len() == 0 ==> pid is None,
        crate::text::words(content@).len() > 0 ==> match crate::text::unsigned(
            crate::text::words(content@)[0],
            4_294_967_295,
        ) {
            Some(n) => pid matches Some(p) && p == n,
            None => pid is None,
        },
        crate::text::words(content@).len() < 2 || name is None ==> program is None,
        crate::text::words(content@).len() >= 2 && name is Some ==> if forall|i: int|
            0 <= i < name->0@.len() ==> ('a' <= (#[trigger] name->0@[i]) <= 'z') || ('A'
                <= name->0@[i] <= 'Z') || ('0' <= name->0@[i] <= '9') || name->0@[i] == '.'
                || name->0@[i] == '_' || name->0@[i] == '-' {
            program matches Some(t) && t@ == name->0@
        } else {
            program is None
        },
{
    crate::dns::system_laws::the_first_word_is_the_process(content@);
    let n: Seq<char> = match name {
        Some(v) => v@,
        None => seq![],
    };
    crate::dns::system_laws::the_last_part_is_the_program(content@, n);
}

/// The name of a path is what stands behind its last slash, slashes at its end aside; two
/// programs are the same if their names are.
pub proof fn names_are_the_last_part(
    path: &[char],
    r: Option<Vec<char>>,
    command: &[char],
    same: bool,
    p: Seq<char>,
    name: Seq<char>,
    slashes: Seq<char>,
    q: Seq<char>,
    other: Seq<char>,
)
    requires
        call_ensures(file_name_of, (path,), r),
        call_ensures(is_same_program, (path, command), same),
        path@ == p + name + slashes,
        p.len() == 0 || p.last() == '/',
        name.len() > 0,
        !name.contains('/'),
        name != seq!['.'],
        name != seq!['.', '.'],
        forall|i: int| 0 <= i < slashes.len() ==> #[trigger] slashes[i] == '/',
        crate::text::trim(command@) == q + other,
        q.len() == 0 || q.last() == '/',
        other.len() > 0,
        !other.contains('/'),
        other != seq!['.'],
        other != seq!['.', '.'],
    ensures
        r matches Some(v) && v@ == name,
        same <==> name == other,
{
    crate::dns::system_laws::the_name_follows_the_last_slash(p, name, slashes);
    crate::dns::system_laws::the_name_follows_the_last_slash(q, other, Seq::empty());
    assert(q + other + Seq::<char>::empty() =~= q + other);
    crate::dns::system_laws::programs_are_compared_by_their_last_part(path@, command@);
}

// ---------------------------------------------------------------------------
// Scripts
// ---------------------------------------------------------------------------
/// A text is one word of a command between quotes. Quotes in it are closed, escaped and
/// opened again, and nothing else is changed.
pub proof fn texts_are_quoted(
    s: &str,
    r: String,
    more: &str,
    longer: String,
    c: char,
    inner: Seq<char>,
)
    requires
        call_ensures(shell_single_quote, (s,), r),
        more@ == s@.push(c),
        call_ensures(shell_single_quote, (more,), longer),
        r@ == seq!['\''] + inner + seq!['\''],
    ensures
        s@.len() == 0 ==> inner.len() == 0,
        c != '\'' ==> longer@ == seq!['\''] + inner + seq![c] + seq!['\''],
        c == '\'' ==> longer@ == seq!['\''] + inner + seq!['\'', '\\', '\'', '\''] + seq!['\''],
{
    let quote = seq!['\'', '\\', '\'', '\''];
    crate::dns::system_laws::quoting_goes_by_characters(s@);
    crate::dns::system_laws::quoting_goes_by_characters(more@);
    let body = crate::text::replace_char(s@, '\'', quote);
    assert(r@.len() == 1 + body.len() + 1);
    assert((seq!['\''] + inner + seq!['\'']).len() == 1 + inner.len() + 1);
    assert(r@.subrange(1, (1 + body.len()) as int) =~= body);
    assert(r@.subrange(1, (1 + inner.len()) as int) =~= inner);
    crate::text_laws::replacing_goes_by_characters(s@, seq![c], '\'', quote);
    assert(s@ + seq![c] =~= more@);
    if s@.len() == 0 {
        assert(s@ =~= Seq::empty());
    }
    assert(crate::text::replace_char(seq![c], '\'', quote) == if c == '\'' {
        quote
    } else {
        seq![c]
    });
}

/// The scripts hold what they are given, each as one quoted word, and the port as it is. The
/// script that restores the settings is that of its settings as one word; and the one that
/// restores them by force leaves no server.
pub proof fn scripts_hold_what_they_are_given(
    e: EnableScriptInputs,
    enable: String,
    original: OriginalDns,
    argv: Vec<String>,
    target: String,
    interface: String,
    pid: Option<u32>,
    basename: Option<String>,
    disable: String,
    restore: String,
    force: String,
    i: &str,
    quoted: String,
)
    requires
        call_ensures(build_enable_script, (&e,), enable),
        call_ensures(OriginalDns::restore_argv, (&original,), argv),
        target@ == crate::text::join(crate::text::texts(argv@), seq![' ']),
        call_ensures(
            build_disable_script,
            (&(DisableScriptInputs {
                interface,
                target,
                proxy_pid: pid,
                expected_basename: basename,
            }),),
            disable,
        ),
        i@ == interface@,
        call_ensures(restore_script, (&original, i, pid, &basename), restore),
        call_ensures(force_restore_script, (i,), force),
        call_ensures(shell_single_quote, (i,), quoted),
    ensures
        restore@ == disable@,
        force@ == "networksetup -setdnsservers "@ + quoted@ + " Empty"@,
        crate::text::begins(
            enable@,
            "#!/bin/sh\nset -e\n\nPROXY="@ + crate::dns::platform::script::quoted(e.proxy_path@)
                + "\nPID_FILE="@ + crate::dns::platform::script::quoted(e.pid_file@)
                + "\nLOG_FILE="@ + crate::dns::platform::script::quoted(e.log_path@)
                + "\nIFACE="@ + crate::dns::platform::script::quoted(e.interface@),
        ),
{
    reveal_strlit(" ");
    assert(" "@ =~= seq![' ']);
    let d = DisableScriptInputs {
        interface,
        target,
        proxy_pid: pid,
        expected_basename: basename,
    };
    crate::dns::system_laws::the_script_restores_the_settings(d);
    crate::dns::system_laws::scripts_differ_in_what_they_are_for(e);
    let head = "#!/bin/sh\nset -e\n\nPROXY="@ + crate::dns::platform::script::quoted(e.proxy_path@)
        + "\nPID_FILE="@ + crate::dns::platform::script::quoted(e.pid_file@) + "\nLOG_FILE="@
        + crate::dns::platform::script::quoted(e.log_path@) + "\nIFACE="@
        + crate::dns::platform::script::quoted(e.interface@);
    assert(enable@.take(head.len() as int) =~= head);
    assert(restore@ =~= disable@);
}

/// A script is run by a command that names its file, escaped, and carries a mark; the mark and
/// the name of the file are made of numbers with hyphens between them.
pub proof fn commands_carry_a_mark(
    path: &str,
    nonce: &str,
    r: String,
    escaped: String,
    nanos: u128,
    pid: u32,
    counter: u64,
    mark: String,
    name: String,
)
    requires
        call_ensures(build_osascript_command, (path, nonce), r),
        call_ensures(crate::apply::platform::escape_text, (path,), escaped),
        call_ensures(generate_nonce, (nanos, pid, counter), mark),
        call_ensures(temp_script_name, (pid, counter), name),
    ensures
        r@ == "do shell script \"sh \" & quoted form of POSIX path of \""@ + escaped@
            + "\" & \" #nonce"@ + nonce@ + "\" with administrator privileges"@,
        mark@ == crate::text::hexadecimal(nanos as nat) + seq!['-'] + crate::text::decimal(
            pid as nat,
        ) + seq!['-'] + crate::text::decimal(counter as nat),
        name@ == "mhost-dns-"@ + crate::text::decimal(pid as nat) + "-"@ + crate::text::decimal(
            counter as nat,
        ) + ".sh"@,
{
    let a = crate::text::hexadecimal(nanos as nat);
    let b = crate::text::decimal(pid as nat);
    let c = crate::text::decimal(counter as nat);
    let dash = seq!['-'];
    crate::text_laws::joining_puts_separators_between(a, seq![b, c], dash);
    crate::text_laws::joining_puts_separators_between(b, seq![c], dash);
    crate::text_laws::joining_puts_separators_between(c, seq![], dash);
    assert(seq![a] + seq![b, c] =~= seq![a, b, c]);
    assert(seq![b] + seq![c] =~= seq![b, c]);
    assert(a + dash + (b + dash + c) =~= a + dash + b + dash + c);
}

// ---------------------------------------------------------------------------
// Works
// ---------------------------------------------------------------------------
/// Where each work begins.
pub proof fn works_begin(
    enable: EnableStep,
    disable: DisableStep,
    run: (RunState, RunAction),
)
    requires
        call_ensures(enable_dns_mode, (), enable),
        call_ensures(disable_dns_mode, (), disable),
        call_ensures(run_with_privileges_timeout, (), run),
    ensures
        enable.state is FindingInterface && enable.action is FindInterface && enable.remove@.len()
            == 0,
        disable.state is Preparing && disable.action is PrepareDir && disable.remove@.len() == 0,
        run.0 is Writing && run.1 is WriteScript,
{
}

/// The proxy's program has to be there, and one of the three bits for running it has to be
/// set.
pub proof fn the_program_is_checked(
    path: &str,
    mode: u32,
    why: String,
    there: Result<(), PlatformError>,
    missing: Result<(), PlatformError>,
)
    requires
        call_ensures(validate_proxy_binary, (path, &Ok(mode)), there),
        call_ensures(validate_proxy_binary, (path, &Err(why)), missing),
    ensures
        there is Ok <==> (mode / 64) % 2 == 1 || (mode / 8) % 2 == 1 || mode % 2 == 1,
        there matches Err(e) ==> e is SetDns,
        missing matches Err(PlatformError::SetDns(_)),
{
    assert((mode & 0o111 == 0) == !((mode / 64) % 2 == 1 || (mode / 8) % 2 == 1 || mode % 2 == 1))
        by (bit_vector);
}

/// A restore succeeds exactly if the tool did; only one by force that succeeded takes the mark
/// away.
pub proof fn restores_are_told(
    output: String,
    why: String,
    done: Result<(), PlatformError>,
    not_run: Result<(), PlatformError>,
    failed: Result<(), PlatformError>,
    force_done: (Vec<StateFile>, Result<(), PlatformError>),
    force_not_run: (Vec<StateFile>, Result<(), PlatformError>),
    force_failed: (Vec<StateFile>, Result<(), PlatformError>),
)
    requires
        call_ensures(restore_outcome, (&ToolOutcome::Finished(output),), done),
        call_ensures(restore_outcome, (&ToolOutcome::NotRun(why),), not_run),
        call_ensures(restore_outcome, (&ToolOutcome::Failed(why),), failed),
        call_ensures(force_dns_restore_if_needed, (&ToolOutcome::Finished(output),), force_done),
        call_ensures(force_dns_restore_if_needed, (&ToolOutcome::NotRun(why),), force_not_run),
        call_ensures(force_dns_restore_if_needed, (&ToolOutcome::Failed(why),), force_failed),
    ensures
        done is Ok,
        not_run matches Err(PlatformError::RestoreDns(m)) && m@
            == "invoke osascript for disable-time restore: "@ + why@,
        failed matches Err(PlatformError::RestoreDns(m)) && m@ == "disable-time restore failed: "@
            + why@,
        force_done.1 is Ok && force_done.0@ == seq![StateFile::Marker],
        force_not_run.0@.len() == 0 && (force_not_run.1 matches Err(PlatformError::RestoreDns(m))
            && m@ == "invoke osascript for force restore: "@ + why@),
        force_failed.0@.len() == 0 && (force_failed.1 matches Err(PlatformError::RestoreDns(m))
            && m@ == "force restore failed: "@ + why@),
{
}

/// Errors say what failed, and what they hold.
pub proof fn errors_say_what_failed(e: PlatformError, r: String)
    requires
        call_ensures(PlatformError::to_text, (&e,), r),
    ensures
        e matches PlatformError::GetDns(t) ==> r@ == "failed to get system DNS: "@ + t@,
        e matches PlatformError::SetDns(t) ==> r@ == "failed to set system DNS: "@ + t@,
        e matches PlatformError::RestoreDns(t) ==> r@ == "failed to restore system DNS: "@ + t@,
        e matches PlatformError::DetectInterface(t) ==> r@
            == "failed to detect active network interface: "@ + t@,
        e matches PlatformError::InvalidInterfaceName(t) ==> r@ == "invalid interface name: "@ + t@,
        e matches PlatformError::TempScript(t) ==> r@ == "failed to write temp script: "@ + t@,
        e is EmptyInterfaceName ==> r@ == "interface name is empty"@,
{
}

} // verus!
