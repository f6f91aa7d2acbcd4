//! Writing the hosts file.
use mhost::apply::backup::BackupFile;
use mhost::apply::content::build_hosts_content;
use mhost::apply::plan::generate_plan;
use mhost::apply::verification::verify;
use mhost::apply::writer::{
    apply_start, apply_step, check_regular_file, rollback_outcome, rollback_start, rollback_step,
    ApplyAction, ApplyEvent, FileStat, RollbackAction, RollbackEvent,
};
use mhost::error::{ApplyError, MhostError};
use mhost::ident::Uuid;
use mhost::models::{ApplyPlan, HostRule, HostsDiff, Profile, ProfileId, ResolvedRule};
use mhost::net::IpAddr;

fn plan_with_rules(rules: Vec<ResolvedRule>) -> ApplyPlan {
    ApplyPlan {
        rules,
        conflicts: vec![],
        diff: HostsDiff {
            added: vec![],
            removed: vec![],
            unchanged: vec![],
        },
        backup_required: true,
    }
}

fn resolved_rule(ip: &str, domain: &str, profile_name: &str) -> ResolvedRule {
    ResolvedRule {
        ip: ip.parse().unwrap(),
        domain: domain.to_string(),
        source_profile_id: ProfileId(Uuid::new_v4()),
        source_profile_name: profile_name.to_string(),
    }
}

fn make_plan(rules: Vec<(IpAddr, &str)>) -> ApplyPlan {
    ApplyPlan {
        rules: rules
            .into_iter()
            .map(|(ip, domain)| ResolvedRule {
                ip,
                domain: domain.to_string(),
                source_profile_id: Profile::new("src").id,
                source_profile_name: "src".to_string(),
            })
            .collect(),
        conflicts: vec![],
        diff: HostsDiff {
            added: vec![],
            removed: vec![],
            unchanged: vec![],
        },
        backup_required: true,
    }
}

fn profile_with_rules(name: &str, rules: Vec<(&str, &str)>) -> Profile {
    let mut profile = Profile::new(name);
    profile.enabled = true;
    for (ip, domain) in rules {
        profile.rules.push(HostRule::new(
            ip.parse::<IpAddr>().unwrap(),
            vec![domain.to_string()],
        ));
    }
    profile
}

#[test]
fn writer_test_build_content_first_write_appends_block() {
    let current = "# original content\n";
    let plan = plan_with_rules(vec![resolved_rule("127.0.0.1", "example.com", "p1")]);
    let content = build_hosts_content(current, &plan);

    assert!(content.contains("# original content"));
    assert!(content.contains("# ---- mHost start ----"));
    assert!(content.contains("# ---- mHost end ----"));
    assert!(content.contains("127.0.0.1 example.com"));
}

#[test]
fn writer_test_build_content_update_replaces_block() {
    let current = "# before\n# ---- mHost start ----\n127.0.0.1 old.com\n# ---- mHost end ----\n# after\n";
    let plan = plan_with_rules(vec![resolved_rule("127.0.0.1", "new.com", "p1")]);
    let content = build_hosts_content(current, &plan);

    assert!(content.contains("# before"));
    assert!(content.contains("# after"));
    assert!(!content.contains("old.com"));
    assert!(content.contains("127.0.0.1 new.com"));
}

#[test]
fn writer_test_build_content_empty_rules_no_block() {
    let current = "# original\n";
    let plan = plan_with_rules(vec![]);
    let content = build_hosts_content(current, &plan);

    assert!(content.contains("# original"));
    assert!(!content.contains("# ---- mHost start ----"));
}

#[test]
fn writer_test_build_content_preserves_trailing_newlines() {
    let current =
        "# before\n\n# ---- mHost start ----\n127.0.0.1 old.com\n# ---- mHost end ----\n\n";
    let plan = plan_with_rules(vec![resolved_rule("127.0.0.1", "new.com", "p1")]);
    let content = build_hosts_content(current, &plan);

    assert!(content.contains("# before"));
    assert!(!content.contains("old.com"));
    assert!(content.contains("127.0.0.1 new.com"));
    assert!(
        content.ends_with("\n\n"),
        "trailing newlines should be preserved, got: {:?}",
        content
    );
}

#[test]
fn writer_test_build_content_preserves_trailing_blank_lines_no_block() {
    let current = "# original\n\n";
    let plan = plan_with_rules(vec![resolved_rule("127.0.0.1", "example.com", "p1")]);
    let content = build_hosts_content(current, &plan);

    assert!(content.contains("# original"));
    assert!(content.contains("127.0.0.1 example.com"));
    assert!(content.contains("# original\n\n# ---- mHost start ----"));
}

#[test]
fn tests_test_build_content_first_write_appends_block() {
    let current = "# original content\n";
    let plan = plan_with_rules(vec![resolved_rule("127.0.0.1", "example.com", "p1")]);
    let content = build_hosts_content(current, &plan);

    assert!(content.contains("# original content"));
    assert!(content.contains("# ---- mHost start ----"));
    assert!(content.contains("# ---- mHost end ----"));
    assert!(content.contains("127.0.0.1 example.com"));
}

#[test]
fn tests_test_build_content_update_replaces_block() {
    let current =
        "# before\n# ---- mHost start ----\n127.0.0.1 old.com\n# ---- mHost end ----\n# after\n";
    let plan = plan_with_rules(vec![resolved_rule("127.0.0.1", "new.com", "p1")]);
    let content = build_hosts_content(current, &plan);

    assert!(content.contains("# before"));
    assert!(content.contains("# after"));
    assert!(!content.contains("old.com"));
    assert!(content.contains("127.0.0.1 new.com"));
}

#[test]
fn tests_test_build_content_empty_rules_no_block() {
    let current = "# original\n";
    let plan = plan_with_rules(vec![]);
    let content = build_hosts_content(current, &plan);

    assert!(content.contains("# original"));
    assert!(!content.contains("# ---- mHost start ----"));
}

#[test]
fn tests_test_build_content_preserves_trailing_newlines() {
    let current =
        "# before\n\n# ---- mHost start ----\n127.0.0.1 old.com\n# ---- mHost end ----\n\n";
    let plan = plan_with_rules(vec![resolved_rule("127.0.0.1", "new.com", "p1")]);
    let content = build_hosts_content(current, &plan);

    assert!(content.contains("# before"));
    assert!(!content.contains("old.com"));
    assert!(content.contains("127.0.0.1 new.com"));
    assert!(
        content.ends_with("\n\n"),
        "trailing newlines should be preserved, got: {:?}",
        content
    );
}

#[test]
fn tests_test_build_content_preserves_trailing_blank_lines_no_block() {
    let current = "# original\n\n";
    let plan = plan_with_rules(vec![resolved_rule("127.0.0.1", "example.com", "p1")]);
    let content = build_hosts_content(current, &plan);

    assert!(content.contains("# original"));
    assert!(content.contains("127.0.0.1 example.com"));
    assert!(content.contains("# original\n\n# ---- mHost start ----"));
}

#[test]
fn test_build_hosts_content_empty_file() {
    let current = "";
    let plan = plan_with_rules(vec![resolved_rule("127.0.0.1", "example.com", "p1")]);
    let content = build_hosts_content(current, &plan);

    assert!(content.contains("# ---- mHost start ----"));
    assert!(content.contains("# ---- mHost end ----"));
    assert!(content.contains("127.0.0.1 example.com"));
}

#[test]
fn test_verify_multiple_rules_match() {
    let managed =
        "# ---- mHost start ----\n127.0.0.1 a.com\n192.168.1.1 b.com\n# ---- mHost end ----";
    let plan = make_plan(vec![
        ("127.0.0.1".parse().unwrap(), "a.com"),
        ("192.168.1.1".parse().unwrap(), "b.com"),
    ]);
    assert!(verify(managed, &plan).is_ok());
}

#[test]
fn test_verify_missing_rule_fails() {
    let managed = "# ---- mHost start ----\n127.0.0.1 a.com\n# ---- mHost end ----";
    let plan = make_plan(vec![
        ("127.0.0.1".parse().unwrap(), "a.com"),
        ("192.168.1.1".parse().unwrap(), "missing.com"),
    ]);
    let err = verify(managed, &plan).unwrap_err();
    assert!(err.to_text().contains("missing.com"));
}

#[test]
fn test_verify_no_rules_no_block() {
    let no_block = "127.0.0.1 unmanaged.com";
    let empty_plan = ApplyPlan {
        rules: vec![],
        conflicts: vec![],
        diff: HostsDiff {
            added: vec![],
            removed: vec![],
            unchanged: vec![],
        },
        backup_required: false,
    };
    assert!(verify(no_block, &empty_plan).is_ok());

    let with_block = "# ---- mHost start ----\n# ---- mHost end ----";
    assert!(verify(with_block, &empty_plan).is_err());
}

#[test]
fn test_verify_ipv6_rule() {
    let managed = "# ---- mHost start ----\n::1 localhost\n# ---- mHost end ----";
    let plan = make_plan(vec![("::1".parse::<IpAddr>().unwrap(), "localhost")]);
    assert!(verify(managed, &plan).is_ok());
}

/// A hosts file and its backups in memory.
struct Disk {
    hosts: String,
    backups: Vec<String>,
    flushes: usize,
    fail_write: bool,
    /// Whether the file cannot be written again once it was.
    fail_restore: bool,
    /// What a write leaves in the file instead of the text, at the next write.
    garbles: Option<String>,
    lost_backup: bool,
    /// Whether the file cannot be read once it was written.
    unreadable: bool,
}

fn run_apply(disk: &mut Disk, plan: &ApplyPlan) -> Result<(), MhostError> {
    let (mut state, mut action) = apply_start();
    loop {
        let event = match action {
            ApplyAction::CheckFile => {
                ApplyEvent::Checked(check_regular_file("/etc/hosts", FileStat::Regular))
            }
            ApplyAction::ReadHosts => {
                if disk.unreadable && disk.flushes > 0 {
                    disk.unreadable = false;
                    ApplyEvent::Read(Err(MhostError::Io("unreadable".to_string())))
                } else {
                    ApplyEvent::Read(Ok(disk.hosts.clone()))
                }
            }
            ApplyAction::CreateBackup(t) => {
                disk.backups.push(t);
                ApplyEvent::Written(Ok(()))
            }
            ApplyAction::WriteHosts(t) => {
                if disk.fail_write || disk.fail_restore && disk.flushes > 0 {
                    ApplyEvent::Written(Err(MhostError::Io("disk full".to_string())))
                } else {
                    disk.hosts = disk.garbles.take().unwrap_or(t);
                    ApplyEvent::Written(Ok(()))
                }
            }
            ApplyAction::FlushCache => {
                disk.flushes += 1;
                ApplyEvent::Flushed
            }
            ApplyAction::ReadBackup => {
                if disk.lost_backup {
                    ApplyEvent::Read(Err(MhostError::Io("gone".to_string())))
                } else {
                    ApplyEvent::Read(Ok(disk.backups.last().unwrap().clone()))
                }
            }
            ApplyAction::Finish(r) => return r,
        };
        let next = apply_step(state, plan, event);
        state = next.0;
        action = next.1;
    }
}

fn disk(hosts: &str) -> Disk {
    Disk {
        hosts: hosts.to_string(),
        backups: vec![],
        flushes: 0,
        fail_write: false,
        fail_restore: false,
        garbles: None,
        lost_backup: false,
        unreadable: false,
    }
}

#[test]
fn the_first_write_creates_the_block() {
    let mut d = disk("# original content\n");
    let plan = plan_with_rules(vec![resolved_rule("127.0.0.1", "example.com", "p1")]);
    assert_eq!(run_apply(&mut d, &plan), Ok(()));
    assert_eq!(
        d.hosts,
        "# original content\n# ---- mHost start ----\n127.0.0.1 example.com\n# ---- mHost end ----\n"
    );
    assert_eq!(d.backups, vec!["# original content\n"]);
    assert_eq!(d.flushes, 1);
}

#[test]
fn without_need_no_backup_is_made() {
    let mut d = disk("original");
    let mut plan = plan_with_rules(vec![resolved_rule("127.0.0.1", "example.com", "p1")]);
    plan.backup_required = false;
    assert_eq!(run_apply(&mut d, &plan), Ok(()));
    assert!(d.backups.is_empty());
    assert!(d.hosts.contains("127.0.0.1 example.com"));
}

#[test]
fn a_failed_write_leaves_the_file_alone() {
    let mut d = disk("original");
    d.fail_write = true;
    let plan = plan_with_rules(vec![resolved_rule("127.0.0.1", "example.com", "p1")]);
    assert_eq!(run_apply(&mut d, &plan), Err(MhostError::Io("disk full".to_string())));
    assert_eq!(d.hosts, "original");
}

#[test]
fn a_failed_check_goes_back_to_the_backup() {
    let plan = plan_with_rules(vec![resolved_rule("127.0.0.1", "a\nb", "p1")]);
    let mut d = disk("# mine\n");
    let r = run_apply(&mut d, &plan);
    assert!(matches!(
        r,
        Err(MhostError::Apply(ApplyError::VerificationFailed(_)))
    ));
    assert_eq!(d.hosts, "# mine\n");
}

#[test]
fn the_file_is_read_back_and_checked() {
    let plan = plan_with_rules(vec![resolved_rule("127.0.0.1", "a.com", "p1")]);
    let mut d = disk("# mine\n");
    d.garbles = Some("# cut".to_string());
    assert_eq!(
        run_apply(&mut d, &plan).unwrap_err().to_text(),
        "apply error: verification failed: verify failed: apply error: verification failed: managed block missing"
    );
    assert_eq!(d.hosts, "# mine\n");
}

#[test]
fn a_file_that_cannot_be_read_back_is_restored() {
    let plan = plan_with_rules(vec![resolved_rule("127.0.0.1", "a.com", "p1")]);
    let mut d = disk("# mine\n");
    d.unreadable = true;
    let r = run_apply(&mut d, &plan);
    assert!(matches!(r, Err(MhostError::Apply(ApplyError::VerificationFailed(_)))));
    assert_eq!(d.hosts, "# mine\n");
}

#[test]
fn a_backup_that_cannot_be_read_is_told() {
    let plan = plan_with_rules(vec![resolved_rule("127.0.0.1", "a.com", "p1")]);
    let mut d = disk("# mine\n");
    d.garbles = Some("# cut".to_string());
    d.lost_backup = true;
    assert_eq!(run_apply(&mut d, &plan), Err(MhostError::Io("gone".to_string())));
    assert_eq!(d.backups, vec!["# mine\n"]);
}

#[test]
fn a_backup_that_cannot_be_written_back_is_told() {
    let plan = plan_with_rules(vec![resolved_rule("127.0.0.1", "a.com", "p1")]);
    let mut d = disk("# mine\n");
    d.garbles = Some("# cut".to_string());
    d.fail_restore = true;
    assert_eq!(
        run_apply(&mut d, &plan),
        Err(MhostError::Apply(ApplyError::VerificationFailed(
            "verify failed (apply error: verification failed: managed block missing), rollback also failed (io error: disk full)"
                .to_string()
        )))
    );
}

fn run_rollback(
    hosts: &mut String,
    backups: &[(&str, i128, &str)],
) -> Result<(), MhostError> {
    run_rollback_to_end(hosts, backups).0
}

/// What going back comes to, and which backups are removed.
fn run_rollback_to_end(
    hosts: &mut String,
    backups: &[(&str, i128, &str)],
) -> (Result<(), MhostError>, Vec<String>) {
    let mut removed = vec![];
    let (mut state, mut action) = rollback_start();
    loop {
        let event = match action {
            RollbackAction::CheckFile => RollbackEvent::Checked(Ok(())),
            RollbackAction::ListBackups => RollbackEvent::Listed(Ok(backups
                .iter()
                .map(|b| BackupFile { name: b.0.to_string(), modified: b.1 })
                .collect())),
            RollbackAction::ReadBackup(name) => {
                let found = backups.iter().find(|b| b.0 == name).unwrap();
                RollbackEvent::Read(Ok(found.2.to_string()))
            }
            RollbackAction::WriteHosts(t) => {
                *hosts = t;
                RollbackEvent::Written(Ok(()))
            }
            RollbackAction::ReadHosts => RollbackEvent::Read(Ok(hosts.clone())),
            RollbackAction::RemoveBackups(names) => {
                removed = names;
                RollbackEvent::Removed
            }
            RollbackAction::Finish(r) => return (r, removed),
        };
        let next = rollback_step(state, event);
        state = next.0;
        action = next.1;
    }
}

#[test]
fn going_back_gives_the_former_text() {
    let plan = plan_with_rules(vec![resolved_rule("127.0.0.1", "a.com", "p1")]);
    let mut d = disk("# mine\n");
    assert_eq!(run_apply(&mut d, &plan), Ok(()));
    let backups = [
        ("hosts-2.bak", 5, "older"),
        ("hosts-1.bak", 9, d.backups[0].as_str()),
        ("notes.txt", 99, "no backup"),
    ];
    let mut hosts = d.hosts.clone();
    assert_eq!(run_rollback(&mut hosts, &backups), Ok(()));
    assert_eq!(hosts, "# mine\n");
}

#[test]
fn going_back_without_a_backup_changes_nothing() {
    let mut hosts = "# mine\n".to_string();
    assert_eq!(
        run_rollback(&mut hosts, &[("notes.txt", 1, "x")]),
        Err(MhostError::Apply(ApplyError::BackupFailed("no backup found".to_string())))
    );
    assert_eq!(hosts, "# mine\n");
}

#[test]
fn going_back_keeps_ten_backups() {
    let names: Vec<String> = (0..12).map(|i| format!("hosts-{:02}.bak", i)).collect();
    let backups: Vec<(&str, i128, &str)> = names
        .iter()
        .enumerate()
        .map(|(i, n)| (n.as_str(), i as i128, if i == 11 { "last" } else { "older" }))
        .collect();
    let mut hosts = String::new();
    let (r, removed) = run_rollback_to_end(&mut hosts, &backups);
    assert_eq!(r, Ok(()));
    assert_eq!(hosts, "last");
    assert_eq!(removed, vec!["hosts-00.bak", "hosts-01.bak"]);
}

#[test]
fn going_back_ends_with_the_first_failure() {
    let fail = || Err(MhostError::Io("no".to_string()));
    let (s, _) = rollback_start();
    assert_eq!(
        rollback_step(s, RollbackEvent::Checked(fail())).1,
        RollbackAction::Finish(Err(MhostError::Io("no".to_string())))
    );
    let (s, _) = rollback_step(rollback_start().0, RollbackEvent::Checked(Ok(())));
    assert_eq!(
        rollback_step(s, RollbackEvent::Listed(Err(MhostError::Io("no".to_string())))).1,
        RollbackAction::Finish(Err(MhostError::Io("no".to_string())))
    );
}

#[test]
fn writing_a_plan_twice_changes_nothing_more() {
    let p = profile_with_rules("p", vec![("127.0.0.1", "a.com"), ("::1", "b.com")]);
    let mut d = disk("# top\n127.0.0.1 localhost\n");
    let plan = generate_plan(&[p.clone()], &d.hosts).unwrap();
    assert_eq!(run_apply(&mut d, &plan), Ok(()));
    let once = d.hosts.clone();
    let again = generate_plan(&[p], &d.hosts).unwrap();
    assert!(again.diff.added.is_empty());
    assert!(again.diff.removed.is_empty());
    assert!(!again.backup_required);
    assert_eq!(build_hosts_content(&once, &again), once);
}

#[test]
fn no_rules_remove_the_block() {
    let mut d = disk("# a\n# ---- mHost start ----\n127.0.0.1 x.com\n# ---- mHost end ----\n# b\n");
    let plan = plan_with_rules(vec![]);
    assert_eq!(run_apply(&mut d, &plan), Ok(()));
    assert!(!d.hosts.contains("mHost"));
    assert!(d.hosts.contains("# a\n"));
    assert!(d.hosts.contains("# b\n"));
}

#[test]
fn only_a_regular_file_is_written() {
    assert_eq!(check_regular_file("/x", FileStat::Regular), Ok(()));
    assert_eq!(
        check_regular_file("/x", FileStat::Other).unwrap_err().to_text(),
        "invalid input: '/x' is not a regular file (may be a symlink or special file). Refusing to write."
    );
    assert_eq!(
        check_regular_file("/x", FileStat::Failed("gone".to_string())),
        Err(MhostError::Io("Cannot stat '/x': gone".to_string()))
    );
}

#[test]
fn going_back_must_give_the_backup() {
    assert_eq!(rollback_outcome("a", "a"), Ok(()));
    assert_eq!(
        rollback_outcome("a", "b"),
        Err(MhostError::Apply(ApplyError::BackupFailed(
            "rollback content mismatch".to_string()
        )))
    );
}

#[test]
fn the_last_plan_decides() {
    let first = make_plan(vec![("10.0.0.1".parse().unwrap(), "a.test")]);
    let second = make_plan(vec![("10.0.0.2".parse().unwrap(), "b.test")]);
    let current = "127.0.0.1 localhost\n";
    let once = build_hosts_content(current, &first);
    assert_eq!(build_hosts_content(&once, &second), build_hosts_content(current, &second));
}

#[test]
fn taking_out_undoes_writing() {
    let plan = make_plan(vec![("10.0.0.1".parse().unwrap(), "a.test")]);
    let none = make_plan(vec![]);
    let written = build_hosts_content("127.0.0.1 localhost\n\n# mine\n", &plan);
    assert_eq!(build_hosts_content(&written, &none), "127.0.0.1 localhost\n\n# mine\n");
    let written = build_hosts_content("127.0.0.1 localhost", &plan);
    assert_eq!(build_hosts_content(&written, &none), "127.0.0.1 localhost\n");
}
