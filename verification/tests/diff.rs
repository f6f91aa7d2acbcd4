//! What a plan changes in the hosts file.
use mhost::apply::diff::{calculate_diff, host_line_text};
use mhost::ident::Uuid;
use mhost::models::{ProfileId, ResolvedRule};

fn make_rule(ip: &str, domain: &str, profile_name: &str) -> ResolvedRule {
    ResolvedRule {
        ip: ip.parse().unwrap(),
        domain: domain.to_string(),
        source_profile_id: ProfileId(Uuid::new_v4()),
        source_profile_name: profile_name.to_string(),
    }
}

#[test]
fn test_diff_all_new() {
    let current = "# Some existing comment\n";
    let rules = vec![
        make_rule("127.0.0.1", "a.com", "p1"),
        make_rule("127.0.0.1", "b.com", "p1"),
    ];

    let diff = calculate_diff(current, &rules);
    assert_eq!(diff.added.len(), 2);
    assert!(diff.added.contains(&"127.0.0.1 a.com".to_string()));
    assert!(diff.added.contains(&"127.0.0.1 b.com".to_string()));
    assert!(diff.removed.is_empty());
    assert!(diff.unchanged.is_empty());
}

#[test]
fn test_diff_no_change_in_managed_block() {
    let current = r#"# ---- mHost start ----
127.0.0.1 a.com
127.0.0.1 b.com
# ---- mHost end ----
"#;
    let rules = vec![
        make_rule("127.0.0.1", "a.com", "p1"),
        make_rule("127.0.0.1", "b.com", "p1"),
    ];

    let diff = calculate_diff(current, &rules);
    assert!(diff.added.is_empty());
    assert!(diff.removed.is_empty());
    assert_eq!(diff.unchanged.len(), 2);
    assert!(diff.unchanged.contains(&"127.0.0.1 a.com".to_string()));
    assert!(diff.unchanged.contains(&"127.0.0.1 b.com".to_string()));
}

#[test]
fn test_diff_some_added_some_removed_in_managed_block() {
    let current = r#"# ---- mHost start ----
127.0.0.1 a.com
127.0.0.1 old.com
# ---- mHost end ----
"#;
    let rules = vec![
        make_rule("127.0.0.1", "a.com", "p1"),
        make_rule("127.0.0.1", "b.com", "p1"),
    ];

    let diff = calculate_diff(current, &rules);
    assert_eq!(diff.added.len(), 1);
    assert_eq!(diff.added[0], "127.0.0.1 b.com");
    assert_eq!(diff.removed.len(), 1);
    assert_eq!(diff.removed[0], "127.0.0.1 old.com");
    assert_eq!(diff.unchanged.len(), 1);
    assert_eq!(diff.unchanged[0], "127.0.0.1 a.com");
}

#[test]
fn test_diff_with_managed_block() {
    let current = r#"# Original content
# ---- mHost start ----
127.0.0.1 a.com
# ---- mHost end ----
# Footer
"#;
    let rules = vec![
        make_rule("127.0.0.1", "a.com", "p1"),
        make_rule("127.0.0.1", "b.com", "p1"),
    ];

    let diff = calculate_diff(current, &rules);
    assert_eq!(diff.added.len(), 1);
    assert_eq!(diff.added[0], "127.0.0.1 b.com");
    assert!(diff.removed.is_empty());
    assert_eq!(diff.unchanged.len(), 1);
    assert_eq!(diff.unchanged[0], "127.0.0.1 a.com");
}

#[test]
fn test_diff_empty_current() {
    let rules = vec![make_rule("127.0.0.1", "example.com", "p1")];
    let diff = calculate_diff("", &rules);
    assert_eq!(diff.added.len(), 1);
    assert_eq!(diff.added[0], "127.0.0.1 example.com");
    assert!(diff.removed.is_empty());
    assert!(diff.unchanged.is_empty());
}

#[test]
fn test_diff_empty_rules() {
    let current = "127.0.0.1 example.com\n";
    let diff = calculate_diff(current, &[]);
    assert!(diff.added.is_empty());
    assert!(diff.removed.is_empty());
    assert!(diff.unchanged.is_empty());
}

#[test]
fn test_diff_empty_rules_in_managed_block() {
    let current = r#"# ---- mHost start ----
127.0.0.1 example.com
# ---- mHost end ----
"#;
    let diff = calculate_diff(current, &[]);
    assert!(diff.added.is_empty());
    assert_eq!(diff.removed.len(), 1);
    assert_eq!(diff.removed[0], "127.0.0.1 example.com");
    assert!(diff.unchanged.is_empty());
}

#[test]
fn test_diff_both_empty() {
    let diff = calculate_diff("", &[]);
    assert!(diff.added.is_empty());
    assert!(diff.removed.is_empty());
    assert!(diff.unchanged.is_empty());
}

#[test]
fn test_diff_ip_change_in_managed_block() {
    let current = r#"# ---- mHost start ----
127.0.0.1 example.com
# ---- mHost end ----
"#;
    let rules = vec![make_rule("192.168.1.1", "example.com", "p1")];

    let diff = calculate_diff(current, &rules);
    assert_eq!(diff.added.len(), 1);
    assert_eq!(diff.added[0], "192.168.1.1 example.com");
    assert_eq!(diff.removed.len(), 1);
    assert_eq!(diff.removed[0], "127.0.0.1 example.com");
    assert!(diff.unchanged.is_empty());
}

#[test]
fn test_diff_with_comments_and_empty_lines_in_managed_block() {
    let current = r#"# ---- mHost start ----
# Header
127.0.0.1 a.com

# Another comment
::1 localhost
# ---- mHost end ----
"#;
    let rules = vec![
        make_rule("127.0.0.1", "a.com", "p1"),
        make_rule("::1", "localhost", "p1"),
    ];

    let diff = calculate_diff(current, &rules);
    assert!(diff.added.is_empty());
    assert!(diff.removed.is_empty());
    assert_eq!(diff.unchanged.len(), 2);
}

#[test]
fn test_diff_multi_domain_rule_in_managed_block() {
    let current = r#"# ---- mHost start ----
127.0.0.1 a.com b.com
# ---- mHost end ----
"#;
    let rules = vec![make_rule("127.0.0.1", "a.com", "p1")];

    let diff = calculate_diff(current, &rules);
    assert!(diff.added.is_empty());
    assert_eq!(diff.removed.len(), 1);
    assert_eq!(diff.removed[0], "127.0.0.1 b.com");
    assert_eq!(diff.unchanged.len(), 1);
    assert_eq!(diff.unchanged[0], "127.0.0.1 a.com");
}

#[test]
fn test_diff_outside_managed_block_ignored() {
    let current = r#"# Original content
127.0.0.1 a.com
# ---- mHost start ----
127.0.0.1 b.com
# ---- mHost end ----
# Footer
"#;
    let rules = vec![make_rule("127.0.0.1", "b.com", "p1")];

    let diff = calculate_diff(current, &rules);
    assert!(diff.added.is_empty());
    assert!(diff.removed.is_empty());
    assert_eq!(diff.unchanged.len(), 1);
    assert_eq!(diff.unchanged[0], "127.0.0.1 b.com");
}

#[test]
fn lines_are_sorted_and_come_once() {
    let rules = vec![
        make_rule("10.0.0.2", "b.com", "p1"),
        make_rule("10.0.0.1", "a.com", "p1"),
        make_rule("10.0.0.2", "b.com", "p2"),
    ];
    let diff = calculate_diff("", &rules);
    assert_eq!(diff.added, vec!["10.0.0.1 a.com", "10.0.0.2 b.com"]);
}

#[test]
fn the_line_of_a_rule() {
    let ip = "2001:db8::5".parse().unwrap();
    assert_eq!(host_line_text(&ip, "x.com"), "2001:db8::5 x.com");
}
