//! Entering and leaving the DNS mode.
use mhost::dns::platform::disable::{
    disable_dns_mode, disable_step, force_dns_restore_if_needed, legacy_tmp_files, restore_outcome,
    DisableAction, DisableEvent, StateFile,
};
use mhost::dns::platform::enable::{
    enable_dns_mode, enable_step, validate_proxy_binary, EnableAction, EnableEvent, EnablePlan,
};
use mhost::dns::platform::pid_file::KillOutcome;
use mhost::dns::platform::script::{
    build_enable_script, force_restore_script, generate_nonce, restore_script, shell_single_quote,
    temp_script_name, EnableScriptInputs,
};
use mhost::dns::platform::{
    capture_dns_state, current_servers, default_device, disable_recovery_marker_file,
    get_active_network_interface, get_upstream_resolvers, ipconfig_get_dns, networksetup_get_dns,
    original_dns_file, proxy_pid_file, runtime_dir, shutdown_signal_file, tier3_fallback,
    validate_interface_name, verify_dns_restored_against_loopback, PlatformError, ToolOutcome,
    UpstreamTier,
};
use mhost::models::OriginalDns;

fn text(s: &str) -> String {
    s.to_string()
}

fn finished(s: &str) -> ToolOutcome {
    ToolOutcome::Finished(text(s))
}

// ---------------------------------------------------------------------------
// Files
// ---------------------------------------------------------------------------
#[test]
fn test_runtime_dir_respects_env_var() {
    assert_eq!(runtime_dir(Some("/x/y"), Some("/data"), Some("/home/me")), "/x/y");
    assert_eq!(runtime_dir(None, Some("/data"), Some("/home/me")), "/data/mHost/.runtime");
    assert_eq!(runtime_dir(None, None, Some("/home/me/")), "/home/me/mHost/.runtime");
    assert_eq!(runtime_dir(None, None, None), "/tmp/mHost/.runtime");
}

#[test]
fn where_the_files_are() {
    assert_eq!(proxy_pid_file("/r"), "/r/mhost-dns-proxy.pid");
    assert_eq!(original_dns_file("/r"), "/r/mhost-dns-original.txt");
    assert_eq!(shutdown_signal_file("/r/"), "/r/mhost-dns-shutdown.signal");
}

#[test]
fn test_disable_recovery_marker_file_path_is_canonical() {
    let runtime = runtime_dir(None, Some("/data"), None);
    let path = disable_recovery_marker_file(&runtime);
    assert!(!path.starts_with("/tmp/"));
    assert!(path.starts_with(&runtime));
    assert!(path.ends_with("/mhost-dns-disable-recovery.marker"));
}

#[test]
fn test_try_recover_dns_reads_canonical_marker_path() {
    let marker = disable_recovery_marker_file("/r");
    assert_ne!(marker, "/tmp/mhost-dns-disable-recovery.marker");
    let step = disable_dns_mode();
    let step = disable_step(step.state, false, &marker, DisableEvent::Done(Ok(())));
    let step = disable_step(step.state, false, &marker, DisableEvent::Done(Ok(())));
    let step = disable_step(step.state, false, &marker, DisableEvent::PidFile(None));
    match step.action {
        DisableAction::Finish(Err(e)) => assert!(e.to_text().contains(&marker)),
        other => panic!("unexpected {:?}", other),
    }
}

#[test]
fn old_files_were_in_tmp() {
    let files = legacy_tmp_files();
    assert_eq!(files.len(), 4);
    assert!(files.iter().all(|f| f.starts_with("/tmp/mhost-dns-")));
}

// ---------------------------------------------------------------------------
// Tools
// ---------------------------------------------------------------------------
#[test]
fn the_active_interface_is_found_in_two_steps() {
    let route = finished("  interface: en0\n");
    let device = default_device(&route).unwrap();
    assert_eq!(device, "en0");
    let ports = finished("Hardware Port: Wi-Fi\nDevice: en0\n");
    assert_eq!(get_active_network_interface(&device, &ports), Ok(text("Wi-Fi")));
    assert_eq!(
        get_active_network_interface("en9", &ports).unwrap_err().to_text(),
        "failed to detect active network interface: no hardware port found for device 'en9'"
    );
    assert_eq!(
        default_device(&finished("nothing")).unwrap_err().to_text(),
        "failed to detect active network interface: could not parse default interface from route output"
    );
    assert_eq!(
        default_device(&ToolOutcome::Failed(text("no"))),
        Err(PlatformError::DetectInterface(text("route failed: no")))
    );
    assert_eq!(
        get_active_network_interface("en0", &finished("Hardware Port: a;b\nDevice: en0\n")),
        Err(PlatformError::InvalidInterfaceName(text(
            "name contains disallowed characters: \"a;b\""
        )))
    );
    assert_eq!(
        get_active_network_interface("en0", &finished("Hardware Port:\nDevice: en0\n")),
        Err(PlatformError::EmptyInterfaceName)
    );
}

#[test]
fn a_refused_name_is_shown_with_its_escapes() {
    assert_eq!(
        validate_interface_name("a\n\"b"),
        Err(PlatformError::InvalidInterfaceName(text(
            "name contains disallowed characters: \"a\\n\\\"b\""
        )))
    );
    assert_eq!(validate_interface_name(""), Err(PlatformError::EmptyInterfaceName));
}

#[test]
fn servers_from_the_tools() {
    let both = finished("127.0.0.1\n8.8.8.8\n");
    assert_eq!(networksetup_get_dns(&both), Ok(vec![text("8.8.8.8")]));
    assert_eq!(current_servers(&both), Ok(vec![text("127.0.0.1"), text("8.8.8.8")]));
    assert_eq!(
        networksetup_get_dns(&ToolOutcome::NotRun(text("x"))),
        Err(PlatformError::GetDns(text("networksetup command failed: x")))
    );
    assert_eq!(
        ipconfig_get_dns(&ToolOutcome::Failed(text("x"))),
        Err(PlatformError::GetDns(text("ipconfig failed: x")))
    );
    assert_eq!(ipconfig_get_dns(&finished("10.0.0.1")), Ok(vec![text("10.0.0.1")]));
    let two = Ok(vec![text("8.8.8.8"), text("1.1.1.1")]);
    assert_eq!(ipconfig_get_dns(&finished("8.8.8.8 1.1.1.1\n")), two);
    assert_eq!(ipconfig_get_dns(&finished("8.8.8.8\n1.1.1.1\n")), two);
    assert_eq!(ipconfig_get_dns(&finished(" \n")), Ok(vec![]));
}

#[test]
fn settings_that_are_captured() {
    let port = Ok(text("Wi-Fi"));
    assert_eq!(
        capture_dns_state(port.clone(), Ok(vec![text("8.8.8.8")])),
        Ok(OriginalDns::Manual(vec![text("8.8.8.8")]))
    );
    assert_eq!(capture_dns_state(port.clone(), Ok(vec![])), Ok(OriginalDns::DhcpEmpty));
    let failed = Err(PlatformError::GetDns(text("x")));
    assert_eq!(capture_dns_state(port, failed), Ok(OriginalDns::DhcpEmpty));
    assert_eq!(
        capture_dns_state(Err(PlatformError::EmptyInterfaceName), Ok(vec![text("8.8.8.8")])),
        Err(PlatformError::EmptyInterfaceName)
    );
}

#[test]
fn servers_that_are_used() {
    let failed = || Err(PlatformError::GetDns(text("x")));
    assert_eq!(
        get_upstream_resolvers(false, Ok(vec![text("9.9.9.9")]), None),
        (tier3_fallback(), UpstreamTier::Public)
    );
    assert_eq!(
        get_upstream_resolvers(true, Ok(vec![text("9.9.9.9")]), None),
        (vec![text("9.9.9.9")], UpstreamTier::Networksetup)
    );
    assert_eq!(
        get_upstream_resolvers(true, failed(), Some(Ok(vec![text("10.0.0.1")]))),
        (vec![text("10.0.0.1")], UpstreamTier::Ipconfig)
    );
    assert_eq!(
        get_upstream_resolvers(true, failed(), Some(failed())),
        (tier3_fallback(), UpstreamTier::Public)
    );
}

#[test]
fn restored_means_not_this_machine() {
    let port = || Ok(text("Wi-Fi"));
    assert_eq!(verify_dns_restored_against_loopback(port(), &finished("8.8.8.8")), Ok(true));
    assert_eq!(verify_dns_restored_against_loopback(port(), &finished("Empty")), Ok(true));
    assert_eq!(
        verify_dns_restored_against_loopback(port(), &finished("8.8.8.8\n127.0.0.1")),
        Ok(false)
    );
    assert!(verify_dns_restored_against_loopback(
        Err(PlatformError::EmptyInterfaceName),
        &finished("8.8.8.8")
    )
    .is_err());
}

// ---------------------------------------------------------------------------
// Scripts
// ---------------------------------------------------------------------------
#[test]
fn test_pid_file_content_format() {
    let pid_file = "/tmp/fake/pid file with space/mhost-dns-proxy.pid";
    let script = build_enable_script(&EnableScriptInputs {
        proxy_path: text("/usr/local/bin/mhost-dns-proxy"),
        dns_port: 1053,
        pid_file: text(pid_file),
        log_path: text("/tmp/fake/log path/mhost-dns-proxy.log"),
        interface: text("Wi-Fi"),
    });
    assert!(script.contains(r#"echo "$PROXY_PID $PROXY" > "$PID_FILE""#));
    assert!(script.contains(&format!(
        "PROXY={}",
        shell_single_quote("/usr/local/bin/mhost-dns-proxy")
    )));
    assert!(script.contains(&format!("PID_FILE={}", shell_single_quote(pid_file))));
}

#[test]
fn test_enable_script_contains_safety_layers() {
    let proxy = "/Users/test/Library/Application Support/mHost/mhost-dns-proxy";
    let pid_file = proxy_pid_file("/tmp/some dir");
    let log_path = "/tmp/some dir/log file with space.log";
    let interface = "Thunderbolt Ethernet";
    let script = build_enable_script(&EnableScriptInputs {
        proxy_path: text(proxy),
        dns_port: 1053,
        pid_file: pid_file.clone(),
        log_path: text(log_path),
        interface: text(interface),
    });
    assert!(script.contains("[ ! -x \"$PROXY\" ]") && script.contains("exit 127"));
    assert!(script.contains("kill -0 \"$PROXY_PID\""));
    assert!(script.contains("cat \"$LOG_FILE\" >&2"));
    assert!(script.contains("PROXY_PID=$!"));
    assert!(!script.contains("echo \"$! "));
    let kill_zero_pos = script.find("kill -0").expect("kill -0 missing");
    let networksetup_pos = script
        .find("networksetup -setdnsservers")
        .expect("networksetup missing");
    assert!(kill_zero_pos < networksetup_pos);
    assert!(script.contains("trap cleanup EXIT"));
    assert!(script.contains("trap - EXIT"));
    let networksetup_end = networksetup_pos + script[networksetup_pos..].find('\n').unwrap();
    let disarm_pos = script.find("trap - EXIT").expect("disarm missing");
    assert!(disarm_pos > networksetup_end);
    assert!(script.contains(&format!("PROXY={}", shell_single_quote(proxy))));
    assert!(script.contains(&format!("PID_FILE={}", shell_single_quote(&pid_file))));
    assert!(script.contains(&format!("LOG_FILE={}", shell_single_quote(log_path))));
    assert!(script.contains(&format!("IFACE='{interface}'")));
    assert!(script.contains("\"$PROXY\" --listen 53 --target 1053 >\"$LOG_FILE\" 2>&1 &\n"));
}

#[test]
fn the_parts_of_the_enabling_script_stand_apart() {
    let script = build_enable_script(&EnableScriptInputs {
        proxy_path: text("/p"),
        dns_port: 1053,
        pid_file: text("/f"),
        log_path: text("/l"),
        interface: text("Wi-Fi"),
    });
    assert!(script.starts_with(
        "#!/bin/sh\nset -e\n\nPROXY='/p'\nPID_FILE='/f'\nLOG_FILE='/l'\nIFACE='Wi-Fi'\n\nPROXY_PID=\"\"\n\n# EXIT trap "
    ));
    assert!(script.contains("    done\nfi\n\n# Layer 1\u{ff1a}"));
    assert!(script.contains("\ndisown\n\n# Layer 2\u{ff1a}"));
    assert!(script.ends_with("\ntrap - EXIT\n"));
}

#[test]
fn test_generate_nonce_is_unique_across_calls() {
    let n1 = generate_nonce(0x1234_abcd, 77, 0);
    let n2 = generate_nonce(0x1234_abcd, 77, 1);
    let n3 = generate_nonce(0x1234_abcd, 77, 2);
    assert_eq!(n1, "1234abcd-77-0");
    assert!(!n1.is_empty());
    assert_ne!(n1, n2);
    assert_ne!(n2, n3);
    assert_ne!(n1, n3);
}

#[test]
fn the_names_of_scripts_count_up() {
    assert_eq!(temp_script_name(77, 3), "mhost-dns-77-3.sh");
}

#[test]
fn scripts_that_restore() {
    let original = OriginalDns::Manual(vec![text("8.8.8.8"), text("127.0.0.1"), text("1.1.1.1")]);
    assert_eq!(
        restore_script(&original, "Wi-Fi", None, &None),
        "networksetup -setdnsservers 'Wi-Fi' '8.8.8.8 1.1.1.1'"
    );
    let script = restore_script(&OriginalDns::DhcpEmpty, "Wi-Fi", Some(9), &Some(text("p")));
    assert!(script.starts_with("EXPECTED='p'\n"));
    assert!(script.ends_with("networksetup -setdnsservers 'Wi-Fi' 'Empty'"));
    assert_eq!(force_restore_script("Wi-Fi"), "networksetup -setdnsservers 'Wi-Fi' Empty");
    assert_eq!(
        force_restore_script("Thunderbolt Ethernet"),
        "networksetup -setdnsservers 'Thunderbolt Ethernet' Empty"
    );
}

// ---------------------------------------------------------------------------
// Entering the mode
// ---------------------------------------------------------------------------
fn plan(original: OriginalDns) -> EnablePlan {
    EnablePlan {
        proxy_path: text("/bin/mhost-dns-proxy"),
        dns_port: 1053,
        pid_file: text("/r/mhost-dns-proxy.pid"),
        log_path: text("/r/mhost-dns-proxy.log"),
        original,
    }
}

/// What the world says while the mode is entered.
struct World {
    interface: Result<String, PlatformError>,
    stat: Result<u32, String>,
    fail_at: Option<&'static str>,
    script: ToolOutcome,
}

fn world() -> World {
    World {
        interface: Ok(text("Wi-Fi")),
        stat: Ok(0o755),
        fail_at: None,
        script: finished(""),
    }
}

fn enter(w: World, p: &EnablePlan) -> (Result<(), PlatformError>, Vec<String>) {
    let mut log = vec![];
    let mut step = enable_dns_mode();
    loop {
        for f in &step.remove {
            log.push(format!("remove {:?}", f));
        }
        let done = |what: &str| {
            if w.fail_at == Some(what) {
                EnableEvent::Done(Err(text("no")))
            } else {
                EnableEvent::Done(Ok(()))
            }
        };
        let event = match step.action {
            EnableAction::FindInterface => EnableEvent::Interface(w.interface.clone()),
            EnableAction::StatProxy => EnableEvent::Stat(w.stat.clone()),
            EnableAction::PrepareDir => done("dir"),
            EnableAction::WriteOriginal(t) => {
                log.push(format!("original {:?}", t));
                done("original")
            }
            EnableAction::WriteRunning(t) => {
                log.push(t);
                done("running")
            }
            EnableAction::PrepareLogDir => done("log"),
            EnableAction::RunScript(s) => {
                assert!(s.contains("IFACE='Wi-Fi'"));
                log.push(text("script"));
                EnableEvent::Script(w.script.clone())
            }
            EnableAction::Finish(r) => return (r, log),
        };
        step = enable_step(step.state, p, event);
    }
}

#[test]
fn entering_writes_down_what_to_go_back_to() {
    let original = OriginalDns::Manual(vec![text("127.0.0.1"), text("8.8.8.8"), text("1.1.1.1")]);
    let (r, log) = enter(world(), &plan(original));
    assert_eq!(r, Ok(()));
    assert_eq!(log, vec!["original \"8.8.8.8\\n1.1.1.1\"", "running", "script"]);
}

#[test]
fn entering_without_own_servers_removes_the_old_list() {
    let local = OriginalDns::Manual(vec![text("127.0.0.1")]);
    for original in [OriginalDns::DhcpEmpty, local] {
        let (r, log) = enter(world(), &plan(original));
        assert_eq!(r, Ok(()));
        assert_eq!(log, vec!["remove Original", "running", "script"]);
    }
}

#[test]
fn entering_fails_with_each_of_its_errors() {
    let p = plan(OriginalDns::Manual(vec![text("8.8.8.8")]));
    let message = |w: World| enter(w, &p).0.unwrap_err().to_text();
    let at = |what: &'static str| World { fail_at: Some(what), ..world() };
    assert_eq!(message(at("dir")), "failed to set system DNS: create runtime dir: no");
    assert_eq!(message(at("original")), "failed to set system DNS: write original dns file: no");
    assert_eq!(message(at("running")), "failed to set system DNS: write shutdown signal file: no");
    assert_eq!(message(at("log")), "failed to set system DNS: create runtime dir for log: no");
    assert_eq!(
        message(World { script: ToolOutcome::NotRun(text("x")), ..world() }),
        "failed to set system DNS: enable dns mode failed: x"
    );
    assert_eq!(
        message(World { interface: Ok(text("a;b")), ..world() }),
        "invalid interface name: name contains disallowed characters: \"a;b\""
    );
    assert_eq!(
        message(World { interface: Ok(text("")), ..world() }),
        "interface name is empty"
    );
    assert_eq!(
        message(World { interface: Err(PlatformError::TempScript(text("t"))), ..world() }),
        "failed to write temp script: t"
    );
}

#[test]
fn a_script_that_fails_leaves_no_files() {
    let p = plan(OriginalDns::DhcpEmpty);
    let w = World { script: ToolOutcome::Failed(text("port in use")), ..world() };
    let (r, log) = enter(w, &p);
    assert_eq!(
        r,
        Err(PlatformError::SetDns(text("proxy failed to start: port in use")))
    );
    assert!(log.ends_with(&[text("script"), text("remove Original"), text("remove Signal")]));
}

#[test]
fn nothing_happens_without_the_program() {
    let p = plan(OriginalDns::DhcpEmpty);
    for stat in [Ok(0o644), Err(text("gone"))] {
        let (r, log) = enter(World { stat, ..world() }, &p);
        assert!(r.is_err());
        assert!(log.is_empty());
    }
}

#[test]
fn the_program_must_be_there_and_executable() {
    assert_eq!(validate_proxy_binary("/p", &Ok(0o100)), Ok(()));
    assert_eq!(validate_proxy_binary("/p", &Ok(0o010)), Ok(()));
    assert_eq!(
        validate_proxy_binary("/p", &Ok(0o666)).unwrap_err().to_text(),
        "failed to set system DNS: mhost-dns-proxy at /p is not executable; rebuild with `cd src-tauri && cargo build -p mhost-dns --bin mhost-dns-proxy`"
    );
    let missing = validate_proxy_binary("/p", &Err(text("gone"))).unwrap_err().to_text();
    assert!(missing.contains("mhost-dns-proxy binary not found at /p (gone). This usually means"));
    assert!(missing.ends_with("See doc/dev-guide.md for details."));
}

// ---------------------------------------------------------------------------
// Leaving the mode
// ---------------------------------------------------------------------------
/// What the world says while the mode is left.
struct Exit {
    pid_file: Option<&'static str>,
    /// Whether the process is there, at each look.
    alive: Vec<bool>,
    polls: usize,
    verified: Result<bool, PlatformError>,
    restored: Result<(), PlatformError>,
    fail_at: Option<&'static str>,
}

fn exit() -> Exit {
    Exit {
        pid_file: Some("12345 /usr/local/bin/mhost-dns-proxy\n"),
        alive: vec![true, true, false],
        polls: 50,
        verified: Ok(true),
        restored: Ok(()),
        fail_at: None,
    }
}

fn leave(mut w: Exit, interactive: bool) -> (Result<(), PlatformError>, Vec<String>) {
    let mut log = vec![];
    let mut step = disable_dns_mode();
    w.alive.reverse();
    loop {
        for f in &step.remove {
            log.push(format!("remove {:?}", f));
        }
        let done = |what: &str| {
            if w.fail_at == Some(what) {
                DisableEvent::Done(Err(text("no")))
            } else {
                DisableEvent::Done(Ok(()))
            }
        };
        let event = match step.action {
            DisableAction::PrepareDir => done("dir"),
            DisableAction::WriteMarker(t) => {
                assert_eq!(t, "pending");
                log.push(text("mark"));
                done("mark")
            }
            DisableAction::ReadPidFile => DisableEvent::PidFile(w.pid_file.map(text)),
            DisableAction::Probe(_) => DisableEvent::Alive(w.alive.pop().unwrap_or(true)),
            DisableAction::WaitAndProbe { ms, .. } => {
                assert_eq!(ms, 100);
                DisableEvent::Alive(w.alive.pop().unwrap_or(true))
            }
            DisableAction::WriteShutdown(t) => {
                log.push(t);
                done("shutdown")
            }
            DisableAction::CheckTime => {
                if w.polls == 0 {
                    DisableEvent::Elapsed(5000)
                } else {
                    w.polls -= 1;
                    DisableEvent::Elapsed(4999)
                }
            }
            DisableAction::VerifyRestored => DisableEvent::Verified(w.verified.clone()),
            DisableAction::KillProxy => {
                log.push(text("kill"));
                DisableEvent::Killed(KillOutcome::PidReusedOrMismatch)
            }
            DisableAction::Restore { pid, program } => {
                log.push(format!("restore {:?} {:?}", pid, program));
                DisableEvent::Restored(w.restored.clone())
            }
            DisableAction::Finish(r) => return (r, log),
        };
        step = disable_step(step.state, interactive, "/r/marker", event);
    }
}

#[test]
fn a_proxy_that_restores_the_settings() {
    for interactive in [true, false] {
        let (r, log) = leave(exit(), interactive);
        assert_eq!(r, Ok(()));
        assert_eq!(
            log,
            vec!["mark", "shutdown", "remove Pid", "remove Original", "remove Marker"]
        );
    }
}

#[test]
fn test_disable_dns_mode_passes_pid_to_osascript_restore() {
    let restore = "restore Some(12345) Some(\"mhost-dns-proxy\")";
    let (r, log) = leave(Exit { alive: vec![true], polls: 3, ..exit() }, true);
    assert_eq!(r, Ok(()));
    assert_eq!(
        log,
        vec![
            "mark",
            "shutdown",
            "kill",
            restore,
            "remove Pid",
            "remove Original",
            "remove Signal",
            "remove Marker"
        ]
    );
    let (r, log) = leave(Exit { alive: vec![false], ..exit() }, true);
    assert_eq!(r, Ok(()));
    assert_eq!(
        log,
        vec![
            "mark",
            "remove Pid",
            restore,
            "remove Original",
            "remove Signal",
            "remove Marker"
        ]
    );
    for outcome in [
        KillOutcome::Killed,
        KillOutcome::PidReusedOrMismatch,
        KillOutcome::PidDeadAlready,
        KillOutcome::FileMissing,
    ] {
        let step = disable_dns_mode();
        let mut step = step;
        for event in [
            DisableEvent::Done(Ok(())),
            DisableEvent::Done(Ok(())),
            DisableEvent::PidFile(Some(text("5 /x/p"))),
            DisableEvent::Alive(true),
            DisableEvent::Done(Ok(())),
            DisableEvent::Elapsed(5000),
            DisableEvent::Killed(outcome),
        ] {
            step = disable_step(step.state, true, "/m", event);
        }
        assert_eq!(
            step.action,
            DisableAction::Restore { pid: Some(5), program: Some(text("p")) }
        );
    }
}

#[test]
fn a_proxy_that_did_not_restore_the_settings() {
    let wrong = || Exit { verified: Ok(false), ..exit() };
    let (r, log) = leave(wrong(), true);
    assert_eq!(r, Ok(()));
    assert_eq!(
        log,
        vec![
            "mark",
            "shutdown",
            "remove Pid",
            "remove Original",
            "remove Signal",
            "restore Some(12345) Some(\"mhost-dns-proxy\")",
            "remove Marker"
        ]
    );
    let (r, log) = leave(wrong(), false);
    assert_eq!(
        r.unwrap_err().to_text(),
        "failed to restore system DNS: proxy exited but system DNS still points at loopback; recovery marker left at /r/marker"
    );
    assert!(!log.contains(&text("remove Marker")));
    let unknown = Exit { verified: Err(PlatformError::EmptyInterfaceName), ..exit() };
    assert_eq!(
        leave(unknown, false).0.unwrap_err().to_text(),
        "failed to restore system DNS: post-restore verify failed: interface name is empty; recovery marker left at /r/marker"
    );
}

#[test]
fn the_mark_stays_when_nothing_helps() {
    let no = || Err(PlatformError::RestoreDns(text("denied")));
    let stuck = Exit { alive: vec![true], polls: 2, restored: no(), ..exit() };
    let (r, log) = leave(stuck, true);
    assert_eq!(
        r.unwrap_err().to_text(),
        "failed to restore system DNS: dns proxy did not exit within 5s; recovery marker left at /r/marker"
    );
    assert!(!log.contains(&text("remove Marker")));
    let gone = Exit { pid_file: None, restored: no(), ..exit() };
    let (r, log) = leave(gone, true);
    assert_eq!(
        r.unwrap_err().to_text(),
        "failed to restore system DNS: proxy not running and osascript restore failed; recovery marker left at /r/marker"
    );
    assert_eq!(log, vec!["mark", "restore None None"]);
}

#[test]
fn without_the_user_nothing_is_elevated() {
    let (r, log) = leave(Exit { alive: vec![false], ..exit() }, false);
    assert_eq!(
        r.unwrap_err().to_text(),
        "failed to restore system DNS: proxy not running; recovery marker left at /r/marker for next-launch force restore"
    );
    assert_eq!(log, vec!["mark", "remove Pid", "remove Original", "remove Signal"]);
    let (r, log) = leave(Exit { alive: vec![true], polls: 1, ..exit() }, false);
    assert!(r.is_err());
    assert_eq!(log, vec!["mark", "shutdown"]);
}

#[test]
fn leaving_fails_with_each_of_its_errors() {
    let message = |what: &'static str| {
        leave(Exit { fail_at: Some(what), ..exit() }, true).0.unwrap_err().to_text()
    };
    assert_eq!(
        message("dir"),
        "failed to restore system DNS: create runtime dir for recovery marker: no"
    );
    assert_eq!(message("mark"), "failed to restore system DNS: write recovery marker: no");
    assert_eq!(message("shutdown"), "failed to restore system DNS: write shutdown signal: no");
}

#[test]
fn what_came_of_restoring() {
    assert_eq!(restore_outcome(&finished("")), Ok(()));
    assert_eq!(
        restore_outcome(&ToolOutcome::Failed(text("x"))),
        Err(PlatformError::RestoreDns(text("disable-time restore failed: x")))
    );
    assert_eq!(
        restore_outcome(&ToolOutcome::NotRun(text("x"))),
        Err(PlatformError::RestoreDns(text("invoke osascript for disable-time restore: x")))
    );
    assert_eq!(
        force_dns_restore_if_needed(&finished("")),
        (vec![StateFile::Marker], Ok(()))
    );
    assert_eq!(
        force_dns_restore_if_needed(&ToolOutcome::Failed(text("x"))),
        (vec![], Err(PlatformError::RestoreDns(text("force restore failed: x"))))
    );
    assert_eq!(
        force_dns_restore_if_needed(&ToolOutcome::NotRun(text("x"))),
        (vec![], Err(PlatformError::RestoreDns(text("invoke osascript for force restore: x"))))
    );
}
