//! Plans for the hosts file.
use mhost::apply::plan::{format_as_hosts, generate_plan};
use mhost::models::{HostRule, Profile};
use mhost::net::IpAddr;

fn profile_with_rules(name: &str, rules: Vec<(&str, &str)>) -> Profile {
    let mut profile = Profile::new(name);
    profile.enabled = true;
    for (ip, domain) in rules {
        profile.rules.push(HostRule::new(
            ip.parse::<IpAddr>().unwrap(),
            vec![domain.to_string()],
        ));
    }
    profile
}

#[test]
fn test_generate_plan_basic() {
    let p1 = profile_with_rules("p1", vec![("127.0.0.1", "a.com")]);
    let current = "# existing hosts\n";

    let plan = generate_plan(&[p1], current).unwrap();
    assert_eq!(plan.rules.len(), 1);
    assert!(plan.conflicts.is_empty());
    assert_eq!(plan.diff.added.len(), 1);
    assert_eq!(plan.diff.added[0], "127.0.0.1 a.com");
    assert!(plan.backup_required);
}

#[test]
fn test_generate_plan_with_conflict() {
    let p1 = profile_with_rules("p1", vec![("127.0.0.1", "x.com")]);
    let p2 = profile_with_rules("p2", vec![("192.168.1.1", "x.com")]);

    let plan = generate_plan(&[p1, p2], "# empty\n").unwrap();
    assert!(plan.rules.is_empty());
    assert_eq!(plan.conflicts.len(), 1);
    assert_eq!(plan.conflicts[0].domain, "x.com");
}

#[test]
fn test_generate_plan_empty_profiles() {
    let plan = generate_plan(&[], "# empty\n").unwrap();
    assert!(plan.rules.is_empty());
    assert!(plan.conflicts.is_empty());
    assert!(plan.diff.added.is_empty());
    assert!(plan.diff.removed.is_empty());
    assert!(!plan.backup_required);
}

#[test]
fn test_generate_managed_block() {
    let p1 = profile_with_rules("p1", vec![("127.0.0.1", "x.com")]);
    let plan = generate_plan(&[p1], "# empty\n").unwrap();
    let hosts_text = format_as_hosts(&plan.rules);
    assert!(hosts_text.contains("# ---- mHost start ----"));
    assert!(hosts_text.contains("# ---- mHost end ----"));
    assert!(hosts_text.contains("127.0.0.1 x.com"));
}

#[test]
fn test_generate_managed_block_empty_rules() {
    let hosts_text = format_as_hosts(&[]);
    assert_eq!(hosts_text, "");
}

#[test]
fn test_generate_plan_multiple_rules() {
    let p1 = profile_with_rules(
        "p1",
        vec![
            ("127.0.0.1", "a.com"),
            ("127.0.0.1", "b.com"),
            ("::1", "localhost"),
        ],
    );

    let plan = generate_plan(&[p1], "# empty\n").unwrap();
    assert_eq!(plan.rules.len(), 3);

    let hosts_text = format_as_hosts(&plan.rules);
    assert!(hosts_text.contains("127.0.0.1 a.com"));
    assert!(hosts_text.contains("127.0.0.1 b.com"));
    assert!(hosts_text.contains("::1 localhost"));
}

#[test]
fn test_generate_plan_with_existing_rules() {
    let current = "127.0.0.1 a.com\n::1 localhost\n";
    let p1 = profile_with_rules("p1", vec![("127.0.0.1", "a.com"), ("127.0.0.1", "b.com")]);

    let plan = generate_plan(&[p1], current).unwrap();
    assert_eq!(plan.diff.added.len(), 2);
    assert!(plan.diff.added.contains(&"127.0.0.1 a.com".to_string()));
    assert!(plan.diff.added.contains(&"127.0.0.1 b.com".to_string()));
    assert!(plan.diff.removed.is_empty());
    assert!(plan.diff.unchanged.is_empty());
}

#[test]
fn test_generate_plan_with_existing_managed_block() {
    let current = r#"# ---- mHost start ----
127.0.0.1 a.com
::1 localhost
# ---- mHost end ----
"#;
    let p1 = profile_with_rules("p1", vec![("127.0.0.1", "a.com"), ("127.0.0.1", "b.com")]);

    let plan = generate_plan(&[p1], current).unwrap();
    assert_eq!(plan.diff.added.len(), 1);
    assert_eq!(plan.diff.added[0], "127.0.0.1 b.com");
    assert_eq!(plan.diff.removed.len(), 1);
    assert_eq!(plan.diff.removed[0], "::1 localhost");
    assert_eq!(plan.diff.unchanged.len(), 1);
    assert_eq!(plan.diff.unchanged[0], "127.0.0.1 a.com");
}

#[test]
fn the_text_of_a_block() {
    let p1 = profile_with_rules("p1", vec![("127.0.0.1", "x.com")]);
    let plan = generate_plan(&[p1], "").unwrap();
    assert_eq!(
        format_as_hosts(&plan.rules),
        "# ---- mHost start ----\n127.0.0.1 x.com\n# ---- mHost end ----\n"
    );
}
