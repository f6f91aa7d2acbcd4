//! The process of the proxy.
use mhost::dns::platform::pid_file::{
    file_name_of, is_same_program, kill_proxy_via_pid_file, kill_step, read_proxy_expected_basename,
    read_proxy_pid, KillAction, KillEvent, KillOutcome,
};

fn chars(s: &str) -> Vec<char> {
    s.chars().collect()
}

fn name(s: &str) -> Option<String> {
    file_name_of(&chars(s)).map(|v| v.into_iter().collect())
}

#[test]
fn names_at_the_end_of_paths() {
    assert_eq!(name("/usr/bin/"), Some("bin".to_string()));
    assert_eq!(name("tmp/foo.txt"), Some("foo.txt".to_string()));
    assert_eq!(name("foo.txt/."), Some("foo.txt".to_string()));
    assert_eq!(name("foo.txt/.//"), Some("foo.txt".to_string()));
    assert_eq!(name("foo.txt/.."), None);
    assert_eq!(name("/"), None);
    assert_eq!(name("."), None);
    assert_eq!(name(""), None);
    assert_eq!(name("..."), Some("...".to_string()));
}

#[test]
fn test_parse_pid_file_with_binary_path() {
    let content = "12345 /usr/local/bin/mhost-dns-proxy\n";
    assert_eq!(read_proxy_pid(Some(content)), Some(12345));
    assert_eq!(
        read_proxy_expected_basename(Some(content)),
        Some("mhost-dns-proxy".to_string())
    );
}

#[test]
fn test_parse_pid_file_legacy_format() {
    let content = "12345\n";
    assert_eq!(read_proxy_pid(Some(content)), Some(12345));
    assert!(read_proxy_expected_basename(Some(content)).is_none());
}

#[test]
fn numbers_of_processes() {
    assert_eq!(read_proxy_pid(None), None);
    assert_eq!(read_proxy_pid(Some("")), None);
    assert_eq!(read_proxy_pid(Some("x 1")), None);
    assert_eq!(read_proxy_pid(Some("+7 /x")), Some(7));
    assert_eq!(read_proxy_pid(Some("-7 /x")), None);
    assert_eq!(read_proxy_pid(Some("4294967295")), Some(u32::MAX));
    assert_eq!(read_proxy_pid(Some("4294967296")), None);
}

#[test]
fn test_process_name_contains_proxy_marker() {
    let cases = [
        (
            "/usr/local/bin/mhost-dns-proxy",
            "/usr/local/bin/mhost-dns-proxy\n",
            true,
        ),
        ("/usr/local/bin/mhost-dns-proxy", "mhost-dns-proxy\n", true),
        (
            "/usr/local/bin/mhost-dns-proxy",
            "not-mhost-dns-proxy\n",
            false,
        ),
        ("/usr/local/bin/mhost-dns-proxy", "/bin/sh\n", false),
        ("/usr/local/bin/mhost-dns-proxy", "/usr/bin/ssh\n", false),
        ("/usr/local/bin/mhost-dns-proxy", "cargo\n", false),
    ];
    for (recorded, ps_line, expected) in &cases {
        assert_eq!(
            is_same_program(&chars(recorded), &chars(ps_line)),
            *expected,
            "recorded={:?}, ps={:?}",
            recorded,
            ps_line
        );
    }
}

#[test]
fn test_read_proxy_expected_basename_new_format() {
    assert_eq!(
        read_proxy_expected_basename(Some("12345 /usr/local/bin/mhost-dns-proxy\n")),
        Some("mhost-dns-proxy".to_string()),
    );
}

#[test]
fn test_read_proxy_expected_basename_legacy_format() {
    assert_eq!(read_proxy_expected_basename(Some("12345\n")), None);
}

#[test]
fn test_read_proxy_expected_basename_empty_second_field() {
    assert_eq!(read_proxy_expected_basename(Some("12345 \n")), None);
}

#[test]
fn test_read_proxy_expected_basename_no_pid_file() {
    assert_eq!(read_proxy_expected_basename(None), None);
}

#[test]
fn test_read_proxy_expected_basename_rejects_non_basename_chars() {
    assert_eq!(read_proxy_expected_basename(Some("12345 evil;rm -rf /\n")), None);
    assert_eq!(
        read_proxy_expected_basename(Some("12345 /path/with-dashes_and.dots\n")),
        Some("with-dashes_and.dots".to_string())
    );
}

/// Plays a process: whether it is there, what it runs as, and whether it heeds a request
/// to stop. Gives back the outcome and what was done to it.
fn play(
    content: Option<&str>,
    mut alive: bool,
    command: Option<&str>,
    heeds: bool,
) -> (KillOutcome, Vec<String>) {
    let mut done = vec![];
    let (mut state, mut action) = kill_proxy_via_pid_file(content);
    loop {
        let event = match action {
            KillAction::Probe(_) => KillEvent::Alive(alive),
            KillAction::AskCommand(_) => KillEvent::Command(command.map(|c| c.to_string())),
            KillAction::Terminate { pid, grace_ms } => {
                assert_eq!(grace_ms, 150);
                done.push(format!("term {}", pid));
                if heeds {
                    alive = false;
                }
                KillEvent::Sent
            }
            KillAction::Kill(p) => {
                done.push(format!("kill {}", p));
                KillEvent::Sent
            }
            KillAction::Reap(p) => {
                done.push(format!("reap {}", p));
                KillEvent::Sent
            }
            KillAction::Finish(r) => return (r, done),
        };
        let next = kill_step(state, event);
        state = next.0;
        action = next.1;
    }
}

#[test]
fn test_kill_proxy_via_pid_file_stuck_proxy_sigkill_escalates() {
    let (r, done) = play(Some("7 /x/proxy\n"), true, Some("/x/proxy\n"), false);
    assert_eq!(r, KillOutcome::Killed);
    assert_eq!(done, vec!["term 7", "kill 7", "reap 7"]);
}

#[test]
fn a_process_that_heeds_is_not_forced() {
    let (r, done) = play(Some("7 /x/proxy\n"), true, Some("proxy"), true);
    assert_eq!(r, KillOutcome::Killed);
    assert_eq!(done, vec!["term 7", "reap 7"]);
}

#[test]
fn test_kill_proxy_via_pid_file_pid_dead() {
    let (r, done) = play(Some("7 /x/proxy\n"), false, Some("proxy"), true);
    assert_eq!(r, KillOutcome::PidDeadAlready);
    assert!(done.is_empty());
}

#[test]
fn test_kill_proxy_via_pid_file_missing() {
    assert_eq!(play(None, true, Some("proxy"), true).0, KillOutcome::FileMissing);
    assert_eq!(play(Some(" "), true, Some("proxy"), true).0, KillOutcome::FileMissing);
    assert_eq!(play(Some("x y"), true, Some("proxy"), true).0, KillOutcome::FileMissing);
}

#[test]
fn test_kill_proxy_via_pid_file_comm_mismatch_blocks_kill() {
    for command in [Some("/bin/sh"), Some("not-proxy"), None] {
        let (r, done) = play(Some("7 /x/proxy\n"), true, command, true);
        assert_eq!(r, KillOutcome::PidReusedOrMismatch);
        assert!(done.is_empty());
    }
}

#[test]
fn a_file_without_a_path_stops_nothing() {
    let (r, done) = play(Some("7\n"), true, Some("proxy"), true);
    assert_eq!(r, KillOutcome::PidReusedOrMismatch);
    assert!(done.is_empty());
}

#[test]
fn the_program_is_the_last_part_of_the_whole_path() {
    assert_eq!(
        read_proxy_expected_basename(Some("12345 /Applications/My App/mhost-dns-proxy\n")),
        Some("mhost-dns-proxy".to_string())
    );
    assert_eq!(read_proxy_expected_basename(Some("12345 /usr/bin/my proxy\n")), None);
}

#[test]
fn a_path_may_hold_spaces() {
    let (r, _) = play(Some("7 /Library/App Support/my proxy\n"), true, Some("my proxy\n"), true);
    assert_eq!(r, KillOutcome::Killed);
}
