//! What is read from the tools and files of the system, said of lines and words.
use vstd::prelude::*;

use crate::dns::platform::script::{DisableScriptInputs, EnableScriptInputs};
use crate::dns::platform::{
    capture_dns_state, current_servers, get_upstream_resolvers, ipconfig_get_dns,
    networksetup_get_dns, select_upstream, validate_interface_name,
    verify_dns_restored_against_loopback, PlatformError, ToolOutcome, UpstreamTier,
};
use crate::models::OriginalDns;

verus! {

// ---------------------------------------------------------------------------
// Servers
// ---------------------------------------------------------------------------
/// Servers of this machine are left out of a list, and all others stay, in order.
pub proof fn servers_of_this_machine_are_left_out(servers: Seq<Seq<char>>, s: Seq<char>)
    ensures
        crate::models::foreign(Seq::empty()) == Seq::<Seq<char>>::empty(),
        crate::models::foreign(servers.push(s)) == if crate::net::is_local(s) {
            crate::models::foreign(servers)
        } else {
            crate::models::foreign(servers).push(s)
        },
{
    assert(servers.push(s).drop_last() =~= servers);
    assert(crate::models::foreign(Seq::empty()) =~= Seq::<Seq<char>>::empty());
}

/// The settings that were found are restored as they were, without servers of this machine;
/// where nothing is left, the list of servers is emptied.
pub proof fn settings_are_restored(o: OriginalDns)
    ensures
        match o {
            OriginalDns::Manual(v) => o.restored() == if forall|i: int|
                0 <= i < v@.len() ==> crate::net::is_local((#[trigger] v@[i])@) {
                seq!["Empty"@]
            } else {
                crate::models::foreign(crate::text::texts(v@))
            },
            OriginalDns::DhcpEmpty => o.restored() == seq!["Empty"@],
        },
{
    match o {
        OriginalDns::Manual(v) => {
            let t = crate::text::texts(v@);
            lemma_foreign_nothing(t);
            if forall|i: int| 0 <= i < v@.len() ==> crate::net::is_local((#[trigger] v@[i])@) {
                assert forall|i: int| 0 <= i < t.len() implies crate::net::is_local(
                    #[trigger] t[i],
                ) by {
                    assert(t[i] == v@[i]@);
                }
            } else {
                let i = choose|i: int|
                    0 <= i < v@.len() && !crate::net::is_local((#[trigger] v@[i])@);
                assert(t[i] == v@[i]@);
                assert(!crate::net::is_local(t[i]));
            }
        },
        OriginalDns::DhcpEmpty => {},
    }
}

/// Nothing is left exactly if all servers are this machine.
pub(crate) proof fn lemma_foreign_nothing(servers: Seq<Seq<char>>)
    ensures
        crate::models::foreign(servers).len() == 0 <==> forall|i: int|
            0 <= i < servers.len() ==> crate::net::is_local(#[trigger] servers[i]),
    decreases servers.len(),
{
    if servers.len() > 0 {
        let head = servers.drop_last();
        lemma_foreign_nothing(head);
        if crate::models::foreign(servers).len() == 0 {
            assert forall|i: int| 0 <= i < servers.len() implies crate::net::is_local(
                #[trigger] servers[i],
            ) by {
                if i < head.len() {
                    assert(head[i] == servers[i]);
                }
            }
        }
        if forall|i: int| 0 <= i < servers.len() ==> crate::net::is_local(#[trigger] servers[i]) {
            assert(crate::net::is_local(servers[servers.len() - 1]));
            assert forall|i: int| 0 <= i < head.len() implies crate::net::is_local(
                #[trigger] head[i],
            ) by {
                assert(head[i] == servers[i]);
            }
        }
    }
}

/// The servers that the user entered come first, those of the lease second, and public ones
/// last: a list counts as soon as it names a server that is not this machine.
pub proof fn entered_servers_come_first(entered: Seq<Seq<char>>, leased: Seq<Seq<char>>, i: int)
    ensures
        0 <= i < entered.len() && !crate::net::is_local(entered[i])
            ==> crate::dns::platform::chosen(entered, leased) == (
            crate::models::foreign(entered),
            UpstreamTier::Networksetup,
        ),
        (forall|k: int| 0 <= k < entered.len() ==> crate::net::is_local(#[trigger] entered[k])) && 0
            <= i < leased.len() && !crate::net::is_local(leased[i])
            ==> crate::dns::platform::chosen(entered, leased) == (
            crate::models::foreign(leased),
            UpstreamTier::Ipconfig,
        ),
        (forall|k: int| 0 <= k < entered.len() ==> crate::net::is_local(#[trigger] entered[k])) && (
        forall|k: int| 0 <= k < leased.len() ==> crate::net::is_local(#[trigger] leased[k]))
            ==> crate::dns::platform::chosen(entered, leased) == (
            seq!["8.8.8.8"@, "1.1.1.1"@],
            UpstreamTier::Public,
        ),
{
    lemma_foreign_nothing(entered);
    lemma_foreign_nothing(leased);
}

// ---------------------------------------------------------------------------
// Output of tools
// ---------------------------------------------------------------------------
/// Every line that holds more than white space is an entry, without the white space at its
/// ends, in order.
pub proof fn every_line_with_something_is_an_entry(lines: Seq<Seq<char>>, l: Seq<char>)
    ensures
        crate::dns::platform::entries(Seq::empty()) == Seq::<Seq<char>>::empty(),
        crate::dns::platform::entries(lines.push(l)) == if crate::text::trim(l).len() == 0 {
            crate::dns::platform::entries(lines)
        } else {
            crate::dns::platform::entries(lines).push(crate::text::trim(l))
        },
{
    assert(lines.push(l).drop_last() =~= lines);
    assert(crate::dns::platform::entries(Seq::empty()) =~= Seq::<Seq<char>>::empty());
}

/// A list of servers that was printed is its entries, unless it says that there are none: it
/// is blank, or `Empty`, or holds the sentence that the tool prints in that case. That of a
/// lease is split at white space instead.
pub proof fn printed_servers_are_read(output: Seq<char>)
    ensures
        ({
            let t = crate::text::trim(output);
            let none = t.len() == 0 || t == "Empty"@ || exists|x: Seq<char>, y: Seq<char>|
                t == x + "There aren't any DNS Servers set"@ + y;
            &&& none ==> crate::dns::platform::listed_servers(output) == Seq::<Seq<char>>::empty()
                && crate::dns::platform::leased_servers(output) == Seq::<Seq<char>>::empty()
            &&& !none ==> crate::dns::platform::listed_servers(output)
                == crate::dns::platform::entries(crate::text::lines(t))
                && crate::dns::platform::leased_servers(output) == crate::text::words(t)
        }),
{
    let t = crate::text::trim(output);
    crate::text_laws::beginnings_ends_and_parts(t, "There aren't any DNS Servers set"@);
}

/// The device of the default route is the second word of the first line that starts with
/// `interface:` and has one.
pub proof fn the_device_of_the_default_route(lines: Seq<Seq<char>>, i: int)
    requires
        0 <= i <= lines.len(),
        forall|k: int|
            0 <= k < i ==> !(crate::text::begins(
                crate::text::trim(#[trigger] lines[k]),
                "interface:"@,
            ) && crate::text::words(crate::text::trim(lines[k])).len() >= 2),
        i < lines.len() ==> crate::text::begins(crate::text::trim(lines[i]), "interface:"@)
            && crate::text::words(crate::text::trim(lines[i])).len() >= 2,
    ensures
        crate::dns::platform::route_device(lines) == if i < lines.len() {
            Some(crate::text::words(crate::text::trim(lines[i]))[1])
        } else {
            None
        },
    decreases i,
{
    if i > 0 {
        let rest = lines.skip(1);
        assert(!(crate::text::begins(crate::text::trim(lines[0]), "interface:"@)
            && crate::text::words(crate::text::trim(lines[0])).len() >= 2));
        assert forall|k: int| 0 <= k < i - 1 implies !(crate::text::begins(
            crate::text::trim(#[trigger] rest[k]),
            "interface:"@,
        ) && crate::text::words(crate::text::trim(rest[k])).len() >= 2) by {
            assert(rest[k] == lines[k + 1]);
        }
        the_device_of_the_default_route(rest, i - 1);
    }
}

/// Whether a line names a hardware port.
pub open spec fn names_a_port(l: Seq<char>) -> bool {
    crate::text::begins(crate::text::trim(l), "Hardware Port:"@)
}

/// Whether a line, which names no hardware port, names a device.
pub open spec fn names_the_device(l: Seq<char>, device: Seq<char>) -> bool {
    !names_a_port(l) && crate::text::begins(crate::text::trim(l), "Device:"@) && crate::text::trim(
        crate::text::trim(l).skip(7),
    ) == device
}

/// The hardware port of a device is the last one that is named before the first line that
/// names the device. Without such a line there is none.
pub proof fn the_port_before_its_device(
    lines: Seq<Seq<char>>,
    device: Seq<char>,
    before: Option<Seq<char>>,
    p: int,
    i: int,
)
    requires
        -1 <= p < i <= lines.len(),
        p >= 0 ==> names_a_port(lines[p]),
        forall|k: int| p < k < i ==> !names_a_port(#[trigger] lines[k]),
        forall|k: int| 0 <= k < i ==> !names_the_device(#[trigger] lines[k], device),
        i < lines.len() ==> names_the_device(lines[i], device),
    ensures
        crate::dns::platform::port_of(lines, device, before) == if i < lines.len() {
            if p >= 0 {
                Some(crate::text::trim(crate::text::trim(lines[p]).skip(14)))
            } else {
                before
            }
        } else {
            None
        },
    decreases i,
{
    if i > 0 {
        let rest = lines.skip(1);
        assert(!names_the_device(lines[0], device));
        if i < lines.len() {
            assert(rest[i - 1] == lines[i]);
        }
        assert forall|k: int| p - 1 < k < i - 1 && 0 <= k implies !names_a_port(
            #[trigger] rest[k],
        ) by {
            assert(rest[k] == lines[k + 1]);
        }
        assert forall|k: int| 0 <= k < i - 1 implies !names_the_device(#[trigger] rest[k], device) by {
            assert(rest[k] == lines[k + 1]);
        }
        if p > 0 {
            assert(rest[p - 1] == lines[p]);
            let b = if names_a_port(lines[0]) {
                Some(crate::text::trim(crate::text::trim(lines[0]).skip(14)))
            } else {
                before
            };
            the_port_before_its_device(rest, device, b, p - 1, i - 1);
        } else if p == 0 {
            the_port_before_its_device(
                rest,
                device,
                Some(crate::text::trim(crate::text::trim(lines[0]).skip(14))),
                -1,
                i - 1,
            );
        } else {
            assert(!names_a_port(lines[0]));
            the_port_before_its_device(rest, device, before, -1, i - 1);
        }
    }
}

/// The characters that the name of an interface can hold: letters, digits, spaces, dots,
/// underscores, hyphens and slashes.
pub proof fn characters_of_interfaces(s: Seq<char>)
    ensures
        crate::dns::platform::interface_chars(s) <==> forall|i: int|
            0 <= i < s.len() ==> ('a' <= (#[trigger] s[i]) <= 'z') || ('A' <= s[i] <= 'Z') || ('0'
                <= s[i] <= '9') || s[i] == ' ' || s[i] == '.' || s[i] == '_' || s[i] == '-' || s[i]
                == '/',
{
    if crate::dns::platform::interface_chars(s) {
        assert forall|i: int| 0 <= i < s.len() implies ('a' <= (#[trigger] s[i]) <= 'z') || ('A'
            <= s[i] <= 'Z') || ('0' <= s[i] <= '9') || s[i] == ' ' || s[i] == '.' || s[i] == '_'
            || s[i] == '-' || s[i] == '/' by {
            assert(crate::dns::platform::is_interface_char(s[i]));
        }
    }
}

/// A file in a directory: one slash stands between the two, and none where the directory is
/// not given.
pub proof fn one_slash_stands_between(dir: Seq<char>, name: Seq<char>)
    requires
        dir.len() > 0,
        dir.last() != '/',
    ensures
        crate::dns::platform::joined(dir, name) == dir + seq!['/'] + name,
        crate::dns::platform::joined(dir + seq!['/'], name) == dir + seq!['/'] + name,
        crate::dns::platform::joined(Seq::empty(), name) == name,
{
    reveal_strlit("/");
    assert("/"@ =~= seq!['/']);
    assert((dir + seq!['/']).last() == '/');
}

// ---------------------------------------------------------------------------
// The file of the proxy
// ---------------------------------------------------------------------------
/// The name of a file is what follows the last slash, slashes at the end aside. Two dots are
/// no name.
pub proof fn the_name_follows_the_last_slash(p: Seq<char>, name: Seq<char>, slashes: Seq<char>)
    requires
        p.len() == 0 || p.last() == '/',
        name.len() > 0,
        !name.contains('/'),
        name != seq!['.'],
        forall|i: int| 0 <= i < slashes.len() ==> #[trigger] slashes[i] == '/',
    ensures
        crate::dns::platform::pid_file::file_name(p + name + slashes) == if name == seq!['.', '.'] {
            None
        } else {
            Some(name)
        },
    decreases slashes.len(),
{
    let s = p + name + slashes;
    if slashes.len() > 0 {
        let init = slashes.drop_last();
        assert forall|i: int| 0 <= i < init.len() implies #[trigger] init[i] == '/' by {
            assert(init[i] == slashes[i]);
        }
        assert(s.last() == slashes[slashes.len() - 1]);
        assert(s.drop_last() =~= p + name + init);
        the_name_follows_the_last_slash(p, name, init);
    } else {
        assert(s =~= p + name);
        assert(name.contains(name[name.len() - 1]));
        assert(s.last() == name[name.len() - 1]);
        lemma_after_slash(p, name);
        assert(s.skip(p.len() as int) =~= name);
    }
}

/// A single dot at the end of a path does not count.
pub proof fn a_single_dot_does_not_count(p: Seq<char>)
    requires
        p.len() > 0,
        p.last() == '/',
    ensures
        crate::dns::platform::pid_file::file_name(p + seq!['.'])
            == crate::dns::platform::pid_file::file_name(p),
{
    let s = p + seq!['.'];
    assert(!seq!['.'].contains('/')) by {
        if seq!['.'].contains('/') {
            let i = choose|i: int| 0 <= i < 1 && seq!['.'][i] == '/';
            assert(seq!['.'][0] == '.');
        }
    }
    lemma_after_slash(p, seq!['.']);
    assert(s.skip(p.len() as int) =~= seq!['.']);
    assert(s.take(p.len() as int) =~= p);
    assert(seq!['.'].len() != seq!['.', '.'].len());
}

/// What follows the last slash.
proof fn lemma_after_slash(p: Seq<char>, name: Seq<char>)
    requires
        p.len() == 0 || p.last() == '/',
        !name.contains('/'),
    ensures
        crate::dns::platform::pid_file::after_slash(p + name) == p.len(),
    decreases name.len(),
{
    if name.len() == 0 {
        assert(p + name =~= p);
    } else {
        let init = name.drop_last();
        assert(!init.contains('/')) by {
            if init.contains('/') {
                let i = choose|i: int| 0 <= i < init.len() && init[i] == '/';
                assert(name[i] == '/');
            }
        }
        assert(name.contains(name[name.len() - 1]));
        assert((p + name).last() == name[name.len() - 1]);
        assert((p + name).drop_last() =~= p + init);
        lemma_after_slash(p, init);
    }
}

/// The file of the proxy names a process by its first word, a number that fits 32 bits, and
/// its program by the others, with single spaces between them.
pub proof fn the_first_word_is_the_process(content: Seq<char>)
    ensures
        crate::text::words(content).len() == 0
            ==> crate::dns::platform::pid_file::named_process(content) is None,
        crate::text::words(content).len() > 0
            ==> crate::dns::platform::pid_file::named_process(content) == match crate::text::unsigned(
            crate::text::words(content)[0],
            4_294_967_295,
        ) {
            Some(n) => Some(n as u32),
            None => None,
        },
        crate::dns::platform::pid_file::recorded_path(content) == crate::text::join(
            crate::text::words(content).skip(1),
            seq![' '],
        ),
{
}

/// The program that a file names is the last part of the path in it, if that holds letters,
/// digits, dots, underscores and hyphens only. Without a path it names none.
pub proof fn the_last_part_is_the_program(content: Seq<char>, name: Seq<char>)
    ensures
        crate::text::words(content).len() < 2 ==> crate::dns::platform::pid_file::named_program(
            content,
        ) is None,
        crate::text::words(content).len() >= 2 && crate::dns::platform::pid_file::file_name(
            crate::text::join(crate::text::words(content).skip(1), seq![' ']),
        ) == Some(name) ==> crate::dns::platform::pid_file::named_program(content) == if forall|
            i: int,
        |
            0 <= i < name.len() ==> ('a' <= (#[trigger] name[i]) <= 'z') || ('A' <= name[i] <= 'Z')
                || ('0' <= name[i] <= '9') || name[i] == '.' || name[i] == '_' || name[i] == '-' {
            Some(name)
        } else {
            None
        },
        crate::text::words(content).len() >= 2 && crate::dns::platform::pid_file::file_name(
            crate::text::join(crate::text::words(content).skip(1), seq![' ']),
        ) is None ==> crate::dns::platform::pid_file::named_program(content) is None,
{
    if crate::dns::platform::pid_file::program_chars(name) {
        assert forall|i: int| 0 <= i < name.len() implies ('a' <= (#[trigger] name[i]) <= 'z') || (
        'A' <= name[i] <= 'Z') || ('0' <= name[i] <= '9') || name[i] == '.' || name[i] == '_'
            || name[i] == '-' by {
            assert(crate::dns::platform::pid_file::is_program_char(name[i]));
        }
    }
    if forall|i: int|
        0 <= i < name.len() ==> ('a' <= (#[trigger] name[i]) <= 'z') || ('A' <= name[i] <= 'Z') || (
        '0' <= name[i] <= '9') || name[i] == '.' || name[i] == '_' || name[i] == '-' {
        assert forall|i: int|
            0 <= i < name.len() implies crate::dns::platform::pid_file::is_program_char(
            #[trigger] name[i],
        ) by {}
    }
}

/// A process runs the recorded program if what it runs as has the same last part, white space
/// around it aside; a path without such a part is compared as it is.
pub proof fn programs_are_compared_by_their_last_part(path: Seq<char>, command: Seq<char>)
    ensures
        crate::dns::platform::pid_file::runs_program(path, command) <==> (
        match crate::dns::platform::pid_file::file_name(crate::text::trim(command)) {
            Some(n) => n,
            None => crate::text::trim(command),
        }) == (match crate::dns::platform::pid_file::file_name(path) {
            Some(n) => n,
            None => path,
        }),
{
}

// ---------------------------------------------------------------------------
// The proxy
// ---------------------------------------------------------------------------
/// Entries that are addresses are told from those that are not; both stay in order.
pub proof fn addresses_are_told_apart(entries: Seq<Seq<char>>, e: Seq<char>)
    ensures
        crate::dns::proxy::entries_that(Seq::empty(), true) == Seq::<Seq<char>>::empty(),
        crate::dns::proxy::entries_that(Seq::empty(), false) == Seq::<Seq<char>>::empty(),
        crate::dns::proxy::entries_that(entries.push(e), true) == if crate::net::parse_ip(e)
            is Some {
            crate::dns::proxy::entries_that(entries, true).push(e)
        } else {
            crate::dns::proxy::entries_that(entries, true)
        },
        crate::dns::proxy::entries_that(entries.push(e), false) == if crate::net::parse_ip(e)
            is None {
            crate::dns::proxy::entries_that(entries, false).push(e)
        } else {
            crate::dns::proxy::entries_that(entries, false)
        },
{
    assert(entries.push(e).drop_last() =~= entries);
    assert(crate::dns::proxy::entries_that(Seq::empty(), true) =~= Seq::<Seq<char>>::empty());
    assert(crate::dns::proxy::entries_that(Seq::empty(), false) =~= Seq::<Seq<char>>::empty());
}

/// The proxy restores the recorded addresses of the interface, and empties its list where
/// none was recorded.
pub proof fn recorded_addresses_are_restored(interface: Seq<char>, servers: Seq<Seq<char>>)
    ensures
        (forall|i: int| 0 <= i < servers.len() ==> crate::net::parse_ip(#[trigger] servers[i]) is None)
            ==> crate::dns::proxy::restore_args(interface, servers) == seq![
            "-setdnsservers"@,
            interface,
            "Empty"@,
        ],
        (exists|i: int| 0 <= i < servers.len() && crate::net::parse_ip(#[trigger] servers[i]) is Some)
            ==> crate::dns::proxy::restore_args(interface, servers) == seq![
            "-setdnsservers"@,
            interface,
        ] + crate::dns::proxy::entries_that(servers, true),
{
    lemma_no_addresses(servers);
    if forall|i: int| 0 <= i < servers.len() ==> crate::net::parse_ip(#[trigger] servers[i]) is None {
        assert(seq!["-setdnsservers"@, interface] + seq!["Empty"@] =~= seq![
            "-setdnsservers"@,
            interface,
            "Empty"@,
        ]);
    }
}

/// No addresses are left exactly if none is there.
proof fn lemma_no_addresses(entries: Seq<Seq<char>>)
    ensures
        crate::dns::proxy::entries_that(entries, true).len() == 0 <==> forall|i: int|
            0 <= i < entries.len() ==> crate::net::parse_ip(#[trigger] entries[i]) is None,
    decreases entries.len(),
{
    if entries.len() > 0 {
        let head = entries.drop_last();
        lemma_no_addresses(head);
        if crate::dns::proxy::entries_that(entries, true).len() == 0 {
            assert forall|i: int| 0 <= i < entries.len() implies crate::net::parse_ip(
                #[trigger] entries[i],
            ) is None by {
                if i < head.len() {
                    assert(head[i] == entries[i]);
                }
            }
        }
        if forall|i: int| 0 <= i < entries.len() ==> crate::net::parse_ip(#[trigger] entries[i])
            is None {
            assert(crate::net::parse_ip(entries[entries.len() - 1]) is None);
            assert forall|i: int| 0 <= i < head.len() implies crate::net::parse_ip(
                #[trigger] head[i],
            ) is None by {
                assert(head[i] == entries[i]);
            }
        }
    }
}

/// The signal to stop is the word `shutdown` alone, white space around it aside; and the
/// recorded servers are the entries of their file, none without one.
pub proof fn the_files_of_the_proxy(a: Seq<char>, b: Seq<char>, t: Seq<char>)
    requires
        forall|i: int| 0 <= i < a.len() ==> crate::text::is_white(#[trigger] a[i]),
        forall|i: int| 0 <= i < b.len() ==> crate::text::is_white(#[trigger] b[i]),
    ensures
        crate::dns::proxy::says_shutdown(Some(a + "shutdown"@ + b)),
        crate::dns::proxy::says_shutdown(Some(t)) <==> crate::text::trim(t) == "shutdown"@,
        !crate::dns::proxy::says_shutdown(None),
        crate::dns::proxy::recorded_servers(Some(t)) == crate::dns::platform::entries(
            crate::text::lines(t),
        ),
        crate::dns::proxy::recorded_servers(None) == Seq::<Seq<char>>::empty(),
{
    reveal_strlit("shutdown");
    crate::text_laws::trimming_takes_the_ends_off(a, "shutdown"@, b);
}

/// The ports of the proxy: each option takes the argument behind it, a number that fits a
/// port, and its own default where that is none; an option at the end is without effect, and
/// anything else is passed over.
pub proof fn options_take_the_argument_behind(
    args: Seq<Seq<char>>,
    i: int,
    listen: u16,
    target: u16,
)
    requires
        0 <= i,
    ensures
        i >= args.len() ==> crate::dns::proxy::ports_from(args, i, listen, target) == (
            listen,
            target,
        ),
        i == args.len() - 1 ==> crate::dns::proxy::ports_from(args, i, listen, target) == (
            listen,
            target,
        ),
        i < args.len() - 1 && args[i] == "--listen"@ ==> crate::dns::proxy::ports_from(
            args,
            i,
            listen,
            target,
        ) == crate::dns::proxy::ports_from(
            args,
            i + 2,
            match crate::text::unsigned(args[i + 1], 65535) {
                Some(n) => n as u16,
                None => 53,
            },
            target,
        ),
        i < args.len() - 1 && args[i] == "--target"@ ==> crate::dns::proxy::ports_from(
            args,
            i,
            listen,
            target,
        ) == crate::dns::proxy::ports_from(
            args,
            i + 2,
            listen,
            match crate::text::unsigned(args[i + 1], 65535) {
                Some(n) => n as u16,
                None => 1053,
            },
        ),
        i < args.len() && args[i] != "--listen"@ && args[i] != "--target"@
            ==> crate::dns::proxy::ports_from(args, i, listen, target)
            == crate::dns::proxy::ports_from(args, i + 1, listen, target),
{
    reveal_strlit("--listen");
    reveal_strlit("--target");
    assert("--listen"@[2] == 'l');
    assert("--target"@[2] == 't');
    if i == args.len() - 1 {
        assert(crate::dns::proxy::ports_from(args, i + 1, listen, target) == (listen, target));
    }
}

// ---------------------------------------------------------------------------
// The tree of domains
// ---------------------------------------------------------------------------
/// The labels of a domain go from its end to its start.
pub proof fn labels_go_from_the_end(parts: Seq<Seq<char>>)
    requires
        parts.len() > 0,
        forall|i: int|
            0 <= i < parts.len() ==> (#[trigger] parts[i]).len() > 0 && !parts[i].contains('.'),
    ensures
        crate::dns::trie::labels(crate::text::join(parts, seq!['.'])).len() == parts.len(),
        forall|i: int|
            0 <= i < parts.len() ==> #[trigger] crate::dns::trie::labels(
                crate::text::join(parts, seq!['.']),
            )[i] == parts[parts.len() - 1 - i],
{
    crate::text::lemma_split_join(parts, '.');
    lemma_from_the_end(parts);
}

/// Parts that all hold something are turned round.
proof fn lemma_from_the_end(parts: Seq<Seq<char>>)
    requires
        forall|i: int| 0 <= i < parts.len() ==> (#[trigger] parts[i]).len() > 0,
    ensures
        crate::dns::trie::from_the_end(parts).len() == parts.len(),
        forall|i: int|
            0 <= i < parts.len() ==> #[trigger] crate::dns::trie::from_the_end(parts)[i]
                == parts[parts.len() - 1 - i],
    decreases parts.len(),
{
    if parts.len() > 0 {
        let head = parts.drop_last();
        assert forall|i: int| 0 <= i < head.len() implies (#[trigger] head[i]).len() > 0 by {
            assert(head[i] == parts[i]);
        }
        lemma_from_the_end(head);
        assert(parts[parts.len() - 1].len() > 0);
        let r = crate::dns::trie::from_the_end(parts);
        assert forall|i: int| 0 <= i < parts.len() implies #[trigger] r[i] == parts[parts.len() - 1
            - i] by {
            if i > 0 {
                assert(r[i] == crate::dns::trie::from_the_end(head)[i - 1]);
                assert(head[head.len() - 1 - (i - 1)] == parts[parts.len() - 1 - i]);
            }
        }
    }
}

/// Labels are taken from the end up to the first empty one: a domain that ends with a dot has
/// none, and of one with two dots in a row only what follows them counts.
pub proof fn an_empty_label_ends_the_labels(front: Seq<Seq<char>>, parts: Seq<Seq<char>>)
    requires
        forall|i: int| 0 <= i < parts.len() ==> (#[trigger] parts[i]).len() > 0,
    ensures
        crate::dns::trie::from_the_end(front.push(Seq::empty()) + parts)
            == crate::dns::trie::from_the_end(parts),
    decreases parts.len(),
{
    let all = front.push(Seq::empty()) + parts;
    if parts.len() == 0 {
        assert(all =~= front.push(Seq::empty()));
        assert(all.last().len() == 0);
    } else {
        let head = parts.drop_last();
        assert forall|i: int| 0 <= i < head.len() implies (#[trigger] head[i]).len() > 0 by {
            assert(head[i] == parts[i]);
        }
        an_empty_label_ends_the_labels(front, head);
        assert(all.drop_last() =~= front.push(Seq::empty()) + head);
        assert(all.last() == parts[parts.len() - 1]);
    }
}

/// The longest registered beginning of a path answers, and without one nothing does.
pub proof fn the_longest_beginning_answers<T>(
    m: Map<Seq<Seq<char>>, T>,
    path: Seq<Seq<char>>,
    n: int,
    k: int,
)
    requires
        -1 <= k <= n,
        k >= 0 ==> m.contains_key(path.take(k)),
        forall|j: int| k < j <= n ==> !m.contains_key(#[trigger] path.take(j)),
    ensures
        crate::dns::trie::deepest(m, path, n) == if k >= 0 {
            Some(m[path.take(k)])
        } else {
            None
        },
    decreases n - k,
{
    if k < n {
        assert(!m.contains_key(path.take(n)));
        if n >= 0 {
            the_longest_beginning_answers(m, path, n - 1, k);
        }
    }
}

/// Whether the stem of a path counts as a place in the tree: the start does, and so does every
/// beginning of a path with a value.
pub proof fn stems_are_beginnings<T>(m: Map<Seq<Seq<char>>, T>, p: Seq<Seq<char>>)
    ensures
        crate::dns::trie::stems(m).contains(p) <==> p.len() == 0 || exists|q: Seq<Seq<char>>|
            #[trigger] m.contains_key(q) && p.len() <= q.len() && forall|i: int|
                0 <= i < p.len() ==> p[i] == q[i],
{
    if crate::dns::trie::stems(m).contains(p) && p.len() > 0 {
        let q = choose|q: Seq<Seq<char>>| #[trigger]
            m.contains_key(q) && crate::dns::trie::leads_to(p, q);
        assert forall|i: int| 0 <= i < p.len() implies p[i] == q[i] by {
            assert(q.take(p.len() as int)[i] == q[i]);
        }
    }
    if exists|q: Seq<Seq<char>>| #[trigger]
        m.contains_key(q) && p.len() <= q.len() && forall|i: int| 0 <= i < p.len() ==> p[i] == q[i] {
        let q = choose|q: Seq<Seq<char>>| #[trigger]
            m.contains_key(q) && p.len() <= q.len() && forall|i: int|
                0 <= i < p.len() ==> p[i] == q[i];
        assert(q.take(p.len() as int) =~= p);
        assert(crate::dns::trie::leads_to(p, q));
    }
}

// ---------------------------------------------------------------------------
// Calls
// ---------------------------------------------------------------------------
/// The name of an interface is accepted exactly if it holds something, and nothing but
/// letters, digits, spaces, dots, underscores, hyphens and slashes.
pub proof fn names_of_interfaces_are_checked(name: &str, r: Result<(), PlatformError>)
    requires
        call_ensures(validate_interface_name, (name,), r),
    ensures
        r is Ok <==> name@.len() > 0 && forall|i: int|
            0 <= i < name@.len() ==> ('a' <= (#[trigger] name@[i]) <= 'z') || ('A' <= name@[i]
                <= 'Z') || ('0' <= name@[i] <= '9') || name@[i] == ' ' || name@[i] == '.' || name@[i]
                == '_' || name@[i] == '-' || name@[i] == '/',
{
    characters_of_interfaces(name@);
}

/// What the user has entered is what the tool lists, without servers of this machine; what the
/// system uses is what it lists; and what came with the lease is what it lists there.
pub proof fn lists_of_servers_are_read(
    output: String,
    entered: Result<Vec<String>, PlatformError>,
    current: Result<Vec<String>, PlatformError>,
    leased: Result<Vec<String>, PlatformError>,
)
    requires
        call_ensures(networksetup_get_dns, (&ToolOutcome::Finished(output),), entered),
        call_ensures(current_servers, (&ToolOutcome::Finished(output),), current),
        call_ensures(ipconfig_get_dns, (&ToolOutcome::Finished(output),), leased),
    ensures
        entered matches Ok(v) && crate::text::texts(v@) == crate::models::foreign(
            crate::dns::platform::listed_servers(output@),
        ),
        current matches Ok(v) && crate::text::texts(v@) == crate::dns::platform::listed_servers(
            output@,
        ),
        leased matches Ok(v) && crate::text::texts(v@) == crate::dns::platform::leased_servers(
            output@,
        ),
{
}

/// The settings count as restored exactly if no server that the tool lists is this machine.
pub proof fn restored_means_no_server_of_this_machine(
    i: String,
    output: String,
    r: Result<bool, PlatformError>,
)
    requires
        call_ensures(
            verify_dns_restored_against_loopback,
            (Ok(i), &ToolOutcome::Finished(output)),
            r,
        ),
    ensures
        r matches Ok(b) && (b <==> forall|k: int|
            0 <= k < crate::dns::platform::listed_servers(output@).len() ==> !crate::net::is_local(
                #[trigger] crate::dns::platform::listed_servers(output@)[k],
            )),
{
}

/// The settings that are found are the servers that the user entered, if there are any.
pub proof fn entered_servers_are_captured(
    i: String,
    v: Vec<String>,
    x: PlatformError,
    some: Result<OriginalDns, PlatformError>,
    none: Result<OriginalDns, PlatformError>,
)
    requires
        call_ensures(capture_dns_state, (Ok(i), Ok(v)), some),
        call_ensures(capture_dns_state, (Ok(i), Err(x)), none),
    ensures
        v@.len() > 0 ==> (some matches Ok(OriginalDns::Manual(w)) && crate::text::texts(w@)
            == crate::text::texts(v@)),
        v@.len() == 0 ==> (some matches Ok(o) && o is DhcpEmpty),
        none matches Ok(o) && o is DhcpEmpty,
{
    assert(crate::text::texts(v@).len() == v@.len());
}

/// Without an interface, public servers are asked; with one, those that were entered, or, as
/// far as these are of this machine or not known, those of the lease, or public ones.
pub proof fn servers_to_ask(
    entered: Vec<String>,
    leased: Vec<String>,
    x: PlatformError,
    both: (Vec<String>, UpstreamTier),
    second: (Vec<String>, UpstreamTier),
    nowhere: (Vec<String>, UpstreamTier),
    chosen: (Vec<String>, UpstreamTier),
)
    requires
        call_ensures(get_upstream_resolvers, (true, Ok(entered), Some(Ok(leased))), both),
        call_ensures(get_upstream_resolvers, (true, Err(x), Some(Ok(leased))), second),
        call_ensures(get_upstream_resolvers, (false, Ok(entered), Some(Ok(leased))), nowhere),
        call_ensures(select_upstream, (entered, leased), chosen),
    ensures
        (crate::text::texts(both.0@), both.1) == crate::dns::platform::chosen(
            crate::text::texts(entered@),
            crate::text::texts(leased@),
        ),
        (crate::text::texts(chosen.0@), chosen.1) == crate::dns::platform::chosen(
            crate::text::texts(entered@),
            crate::text::texts(leased@),
        ),
        (crate::text::texts(second.0@), second.1) == crate::dns::platform::chosen(
            Seq::empty(),
            crate::text::texts(leased@),
        ),
        crate::text::texts(nowhere.0@) == seq!["8.8.8.8"@, "1.1.1.1"@],
        nowhere.1 is Public,
{
}

// ---------------------------------------------------------------------------
// Scripts
// ---------------------------------------------------------------------------
/// A path may hold letters, digits, slashes, dots, underscores, hyphens, backslashes and double
/// quotes; the first character that is something else is named.
pub proof fn the_first_bad_character_is_named(s: Seq<char>, i: int)
    requires
        0 <= i <= s.len(),
        forall|k: int|
            0 <= k < i ==> ('a' <= (#[trigger] s[k]) <= 'z') || ('A' <= s[k] <= 'Z') || ('0' <= s[k]
                <= '9') || s[k] == '/' || s[k] == '.' || s[k] == '_' || s[k] == '-' || s[k] == '\\'
                || s[k] == '"',
        i < s.len() ==> !('a' <= s[i] <= 'z') && !('A' <= s[i] <= 'Z') && !('0' <= s[i] <= '9')
            && s[i] != '/' && s[i] != '.' && s[i] != '_' && s[i] != '-' && s[i] != '\\' && s[i]
            != '"',
    ensures
        crate::apply::platform::first_illegal(s) == if i < s.len() {
            Some(s[i])
        } else {
            None
        },
    decreases i,
{
    if i > 0 {
        let rest = s.skip(1);
        assert(crate::apply::platform::is_path_char(s[0]));
        assert forall|k: int| 0 <= k < i - 1 implies ('a' <= (#[trigger] rest[k]) <= 'z') || ('A'
            <= rest[k] <= 'Z') || ('0' <= rest[k] <= '9') || rest[k] == '/' || rest[k] == '.'
            || rest[k] == '_' || rest[k] == '-' || rest[k] == '\\' || rest[k] == '"' by {
            assert(rest[k] == s[k + 1]);
        }
        the_first_bad_character_is_named(rest, i - 1);
    }
}

/// Escaping goes character by character: a backslash is put in front of each backslash and
/// each double quote, and nothing else changes.
pub proof fn escaping_goes_by_characters(s: Seq<char>, c: char)
    ensures
        crate::apply::platform::escaped(Seq::empty()) == Seq::<char>::empty(),
        crate::apply::platform::escaped(s.push(c)) == if c == '\\' || c == '"' {
            crate::apply::platform::escaped(s).push('\\').push(c)
        } else {
            crate::apply::platform::escaped(s).push(c)
        },
{
    assert(s.push(c).drop_last() =~= s);
    assert(crate::apply::platform::escaped(Seq::empty()) =~= Seq::<char>::empty());
}

/// A file is moved by one command with both paths escaped, run as administrator.
pub proof fn the_command_moves_the_file(from: Seq<char>, to: Seq<char>)
    ensures
        crate::apply::platform::move_command(from, to) == "do shell script \"mv "@
            + crate::apply::platform::escaped(from) + " "@ + crate::apply::platform::escaped(to)
            + "\" with administrator privileges"@,
{
}

/// Two scripts that enter the mode differ in what they were made for and in nothing else: each
/// text goes in as one quoted word, at the same place, and the port as a number.
pub proof fn scripts_differ_in_what_they_are_for(i: EnableScriptInputs)
    ensures
        crate::dns::platform::script::enable_script(i) == "#!/bin/sh\nset -e\n\nPROXY="@
            + crate::dns::platform::script::quoted(i.proxy_path@) + "\nPID_FILE="@
            + crate::dns::platform::script::quoted(i.pid_file@) + "\nLOG_FILE="@
            + crate::dns::platform::script::quoted(i.log_path@) + "\nIFACE="@
            + crate::dns::platform::script::quoted(i.interface@) + "\n"@
            + crate::dns::platform::script::ENABLE_SCRIPT_PREPARE@ + crate::text::decimal(
            i.dns_port as nat,
        ) + crate::dns::platform::script::ENABLE_SCRIPT_FINISH@,
{
}

/// A quoted word is the text between single quotes, with each single quote in it written as
/// one that ends the word, an escaped one, and one that goes on with the word.
pub proof fn quoting_goes_by_characters(s: Seq<char>)
    ensures
        crate::dns::platform::script::quoted(s) == seq!['\''] + crate::text::replace_char(
            s,
            '\'',
            seq!['\'', '\\', '\'', '\''],
        ) + seq!['\''],
{
    reveal_strlit("'");
    reveal_strlit("'\\''");
    assert("'"@ =~= seq!['\'']);
    assert("'\\''"@ =~= seq!['\'', '\\', '\'', '\'']);
}

/// The script that restores the settings stops the process, if one is given, and sets the
/// servers of the interface; with a program given, only a process that runs it is stopped.
pub proof fn the_script_restores_the_settings(i: DisableScriptInputs)
    ensures
        ({
            let set = "networksetup -setdnsservers "@ + crate::dns::platform::script::quoted(
                i.interface@,
            ) + " "@ + crate::dns::platform::script::quoted(i.target@);
            crate::dns::platform::script::disable_script(i) == match (
                i.proxy_pid,
                i.expected_basename,
            ) {
                (None, _) => set,
                (Some(p), Some(name)) => "EXPECTED="@ + crate::dns::platform::script::quoted(name@)
                    + "\nACTUAL=$(ps -p "@ + crate::dns::platform::script::quoted(
                    crate::text::decimal(p as nat),
                )
                    + " -o comm= 2>/dev/null | xargs -I{} basename {} 2>/dev/null)\nif [ \"$ACTUAL\" = \"$EXPECTED\" ]; then kill -9 "@
                    + crate::text::decimal(p as nat) + " 2>/dev/null; fi\ntrue\n"@ + set,
                (Some(p), None) => "echo \"WARNING: skipping #81 comm check for legacy PID file "@
                    + crate::text::decimal(p as nat) + "\" >&2\nkill -9 "@ + crate::text::decimal(
                    p as nat,
                ) + " 2>/dev/null\ntrue\n"@ + set,
            }
        }),
{
    let set = "networksetup -setdnsservers "@ + crate::dns::platform::script::quoted(i.interface@)
        + " "@ + crate::dns::platform::script::quoted(i.target@);
    let all = crate::dns::platform::script::disable_script(i);
    match (i.proxy_pid, i.expected_basename) {
        (None, _) => {
            assert(all =~= set);
        },
        (Some(p), Some(name)) => {
            assert(all =~= "EXPECTED="@ + crate::dns::platform::script::quoted(name@)
                + "\nACTUAL=$(ps -p "@ + crate::dns::platform::script::quoted(
                crate::text::decimal(p as nat),
            )
                + " -o comm= 2>/dev/null | xargs -I{} basename {} 2>/dev/null)\nif [ \"$ACTUAL\" = \"$EXPECTED\" ]; then kill -9 "@
                + crate::text::decimal(p as nat) + " 2>/dev/null; fi\ntrue\n"@ + set);
        },
        (Some(p), None) => {
            assert(all =~= "echo \"WARNING: skipping #81 comm check for legacy PID file "@
                + crate::text::decimal(p as nat) + "\" >&2\nkill -9 "@ + crate::text::decimal(
                p as nat,
            ) + " 2>/dev/null\ntrue\n"@ + set);
        },
    }
}

} // verus!
