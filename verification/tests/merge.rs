//! Merging profiles.
use mhost::apply::merge::Merger;
use mhost::ident::Uuid;
use mhost::models::{HostRule, Profile};
use mhost::net::IpAddr;

fn profile_with_rules(name: &str, rules: Vec<(&str, &str)>) -> Profile {
    let mut profile = Profile::new(name);
    profile.enabled = true;
    for (ip, domain) in rules {
        profile.rules.push(HostRule::new(
            ip.parse::<IpAddr>().unwrap(),
            vec![domain.to_string()],
        ));
    }
    profile
}

fn profile_with_multi_domain_rule(name: &str, ip: &str, domains: Vec<&str>) -> Profile {
    let mut profile = Profile::new(name);
    profile.enabled = true;
    profile.rules.push(HostRule::new(
        ip.parse::<IpAddr>().unwrap(),
        domains.into_iter().map(|s| s.to_string()).collect(),
    ));
    profile
}

#[test]
fn test_merge_single_profile() {
    let mut profile = Profile::new("dev");
    profile.enabled = true;
    profile.rules.push(HostRule::new(
        "127.0.0.1".parse().unwrap(),
        vec!["a.com".to_string(), "b.com".to_string()],
    ));

    let result = Merger::merge(&[profile]);
    assert_eq!(result.rules.len(), 2, "expected 2 rules (one per domain)");
    assert!(result.conflicts.is_empty());

    let domains: Vec<_> = result.rules.iter().map(|r| r.domain.as_str()).collect();
    assert!(domains.contains(&"a.com"));
    assert!(domains.contains(&"b.com"));
}

#[test]
fn test_merge_no_conflict() {
    let cases = vec![
        (
            "different_domains",
            vec![
                profile_with_rules("p1", vec![("127.0.0.1", "a.com")]),
                profile_with_rules("p2", vec![("127.0.0.1", "b.com")]),
            ],
            2usize,
            0usize,
        ),
        (
            "different_ips_different_domains",
            vec![
                profile_with_rules("p1", vec![("127.0.0.1", "a.com")]),
                profile_with_rules("p2", vec![("192.168.1.1", "b.com")]),
            ],
            2,
            0,
        ),
    ];

    for (name, profiles, expected_rules, expected_conflicts) in cases {
        let result = Merger::merge(&profiles);
        assert_eq!(
            result.rules.len(),
            expected_rules,
            "case: {} - rule count mismatch",
            name
        );
        assert_eq!(
            result.conflicts.len(),
            expected_conflicts,
            "case: {} - conflict count mismatch",
            name
        );
    }
}

#[test]
fn test_merge_same_domain_same_ip() {
    let p1 = profile_with_rules("p1", vec![("127.0.0.1", "x.com")]);
    let p2 = profile_with_rules("p2", vec![("127.0.0.1", "x.com")]);

    let result = Merger::merge(&[p1, p2]);
    assert_eq!(
        result.rules.len(),
        1,
        "same domain+ip should merge into one rule"
    );
    assert!(result.conflicts.is_empty());
    assert_eq!(result.rules[0].domain, "x.com");
    assert_eq!(result.rules[0].ip.to_text(), "127.0.0.1");
}

#[test]
fn test_merge_same_domain_different_ip() {
    let p1 = profile_with_rules("p1", vec![("127.0.0.1", "x.com")]);
    let p2 = profile_with_rules("p2", vec![("192.168.1.1", "x.com")]);

    let result = Merger::merge(&[p1, p2]);
    assert_eq!(
        result.rules.len(),
        0,
        "conflicted domain should not appear in rules"
    );
    assert_eq!(result.conflicts.len(), 1);
    assert_eq!(result.conflicts[0].domain, "x.com");
    assert_eq!(result.conflicts[0].rules.len(), 2);
}

#[test]
fn test_merge_disabled_profile_ignored() {
    let mut p1 = profile_with_rules("p1", vec![("127.0.0.1", "a.com")]);
    p1.enabled = false;
    let p2 = profile_with_rules("p2", vec![("127.0.0.1", "b.com")]);

    let result = Merger::merge(&[p1, p2]);
    assert_eq!(result.rules.len(), 1);
    assert_eq!(result.rules[0].domain, "b.com");
}

#[test]
fn test_merge_disabled_rule_ignored() {
    let mut p1 = profile_with_rules("p1", vec![("127.0.0.1", "a.com")]);
    p1.rules[0].enabled = false;
    let p2 = profile_with_rules("p2", vec![("127.0.0.1", "b.com")]);

    let result = Merger::merge(&[p1, p2]);
    assert_eq!(result.rules.len(), 1);
    assert_eq!(result.rules[0].domain, "b.com");
}

#[test]
fn test_merge_multi_domain_rule_expansion() {
    let p1 = profile_with_multi_domain_rule("p1", "127.0.0.1", vec!["a.com", "b.com"]);

    let result = Merger::merge(&[p1]);
    assert_eq!(result.rules.len(), 2);
    let domains: Vec<_> = result.rules.iter().map(|r| r.domain.as_str()).collect();
    assert!(domains.contains(&"a.com"));
    assert!(domains.contains(&"b.com"));
}

#[test]
fn test_merge_conflict_preserves_all_variants() {
    let p1 = profile_with_rules("p1", vec![("127.0.0.1", "x.com")]);
    let p2 = profile_with_rules("p2", vec![("192.168.1.1", "x.com")]);
    let p3 = profile_with_rules("p3", vec![("10.0.0.1", "x.com")]);

    let result = Merger::merge(&[p1, p2, p3]);
    assert_eq!(result.conflicts.len(), 1);
    assert_eq!(result.conflicts[0].rules.len(), 3);

    let ips: Vec<_> = result.conflicts[0]
        .rules
        .iter()
        .map(|r| r.ip.to_text())
        .collect();
    assert!(ips.contains(&"127.0.0.1".to_string()));
    assert!(ips.contains(&"192.168.1.1".to_string()));
    assert!(ips.contains(&"10.0.0.1".to_string()));
}

#[test]
fn test_merge_empty_profiles() {
    let result = Merger::merge(&[]);
    assert!(result.rules.is_empty());
    assert!(result.conflicts.is_empty());
}

#[test]
fn test_merge_no_enabled_profiles() {
    let mut p1 = profile_with_rules("p1", vec![("127.0.0.1", "a.com")]);
    p1.enabled = false;

    let result = Merger::merge(&[p1]);
    assert!(result.rules.is_empty());
    assert!(result.conflicts.is_empty());
}

#[test]
fn test_merge_source_profile_info() {
    let p1 = profile_with_rules("dev-profile", vec![("127.0.0.1", "example.com")]);

    let result = Merger::merge(&[p1]);
    assert_eq!(result.rules.len(), 1);
    assert_eq!(result.rules[0].source_profile_name, "dev-profile");
    assert_ne!(result.rules[0].source_profile_id.0, Uuid::nil());
}

#[test]
fn test_merge_comment_only_rule_ignored() {
    let mut p1 = profile_with_rules("p1", vec![("127.0.0.1", "a.com")]);
    p1.rules.push(HostRule::comment_only("# a comment"));

    let result = Merger::merge(&[p1]);
    assert_eq!(result.rules.len(), 1);
    assert_eq!(result.rules[0].domain, "a.com");
}

#[test]
fn the_first_profile_that_says_so_is_the_source() {
    let p1 = profile_with_rules("p1", vec![("127.0.0.1", "x.com")]);
    let p2 = profile_with_rules("p2", vec![("127.0.0.1", "x.com")]);
    let id = p1.id;
    let result = Merger::merge(&[p1, p2]);
    assert_eq!(result.rules[0].source_profile_name, "p1");
    assert_eq!(result.rules[0].source_profile_id, id);
}

#[test]
fn no_domain_is_both_merged_and_in_conflict() {
    let p1 = profile_with_rules("p1", vec![("127.0.0.1", "x.com"), ("127.0.0.1", "y.com")]);
    let p2 = profile_with_rules("p2", vec![("127.0.0.2", "x.com")]);
    let result = Merger::merge(&[p1, p2]);
    assert_eq!(result.rules.len(), 1);
    assert_eq!(result.rules[0].domain, "y.com");
    assert_eq!(result.conflicts.len(), 1);
    assert_eq!(result.conflicts[0].domain, "x.com");
}

#[test]
fn the_order_of_profiles_changes_no_domain_and_no_address() {
    let p1 = profile_with_rules("p1", vec![("10.0.0.2", "x.com"), ("10.0.0.1", "b.com")]);
    let p2 = profile_with_rules("p2", vec![("10.0.0.1", "x.com"), ("10.0.0.1", "a.com")]);
    let p3 = profile_with_rules("p3", vec![("::1", "x.com"), ("10.0.0.1", "b.com")]);
    let one = Merger::merge(&[p1.clone(), p2.clone(), p3.clone()]);
    let other = Merger::merge(&[p3, p1, p2]);
    let rules = |r: &mhost::apply::merge::MergeResult| -> Vec<(String, IpAddr)> {
        r.rules.iter().map(|x| (x.domain.clone(), x.ip)).collect()
    };
    let conflicts = |r: &mhost::apply::merge::MergeResult| -> Vec<(String, Vec<IpAddr>)> {
        r.conflicts
            .iter()
            .map(|c| (c.domain.clone(), c.rules.iter().map(|x| x.ip).collect()))
            .collect()
    };
    assert_eq!(
        rules(&one),
        vec![
            ("a.com".to_string(), "10.0.0.1".parse::<IpAddr>().unwrap()),
            ("b.com".to_string(), "10.0.0.1".parse::<IpAddr>().unwrap()),
        ]
    );
    assert_eq!(rules(&one), rules(&other));
    assert_eq!(conflicts(&one).len(), 1);
    assert_eq!(conflicts(&one)[0].1.len(), 3);
    assert_eq!(conflicts(&one), conflicts(&other));
    assert_eq!(one.rules[1].source_profile_name, "p1");
    assert_eq!(other.rules[1].source_profile_name, "p3");
}
