//! Conflicts between profiles.
use mhost::apply::conflict::{
    conflict_domains, conflict_ips, conflict_sources, is_conflicted, total_conflicted_rules,
};
use mhost::ident::Uuid;
use mhost::models::{ProfileId, ResolvedRule, RuleConflict};

fn make_conflict(domain: &str, ips: Vec<&str>, profiles: Vec<&str>) -> RuleConflict {
    let rules = ips
        .into_iter()
        .zip(profiles.into_iter())
        .map(|(ip, profile)| ResolvedRule {
            ip: ip.parse().unwrap(),
            domain: domain.to_string(),
            source_profile_id: ProfileId(Uuid::new_v4()),
            source_profile_name: profile.to_string(),
        })
        .collect();
    RuleConflict {
        domain: domain.to_string(),
        rules,
    }
}

#[test]
fn test_is_conflicted() {
    let conflicts = vec![make_conflict(
        "x.com",
        vec!["127.0.0.1", "192.168.1.1"],
        vec!["p1", "p2"],
    )];

    let cases = vec![("x.com", true), ("y.com", false), ("x.co", false)];

    for (domain, expected) in cases {
        assert_eq!(
            is_conflicted(domain, &conflicts),
            expected,
            "case: {}",
            domain
        );
    }
}

#[test]
fn test_conflict_domains() {
    let conflicts = vec![
        make_conflict("a.com", vec!["127.0.0.1", "192.168.1.1"], vec!["p1", "p2"]),
        make_conflict("b.com", vec!["10.0.0.1", "10.0.0.2"], vec!["p3", "p4"]),
    ];

    let domains = conflict_domains(&conflicts);
    assert_eq!(domains, vec!["a.com", "b.com"]);
}

#[test]
fn test_total_conflicted_rules() {
    let cases = vec![
        (
            "two_rules",
            vec![make_conflict(
                "x.com",
                vec!["127.0.0.1", "192.168.1.1"],
                vec!["p1", "p2"],
            )],
            2usize,
        ),
        (
            "three_rules",
            vec![make_conflict(
                "x.com",
                vec!["127.0.0.1", "192.168.1.1", "10.0.0.1"],
                vec!["p1", "p2", "p3"],
            )],
            3usize,
        ),
        ("empty", vec![], 0usize),
    ];

    for (name, conflicts, expected) in cases {
        assert_eq!(
            total_conflicted_rules(&conflicts),
            expected,
            "case: {}",
            name
        );
    }
}

#[test]
fn test_conflict_ips() {
    let conflicts = vec![make_conflict(
        "x.com",
        vec!["127.0.0.1", "192.168.1.1"],
        vec!["p1", "p2"],
    )];

    let ips = conflict_ips(&conflicts, "x.com");
    assert_eq!(ips, vec!["127.0.0.1", "192.168.1.1"]);

    let empty = conflict_ips(&conflicts, "y.com");
    assert!(empty.is_empty());
}

#[test]
fn test_conflict_sources() {
    let conflicts = vec![make_conflict(
        "x.com",
        vec!["127.0.0.1", "192.168.1.1"],
        vec!["dev", "staging"],
    )];

    let sources = conflict_sources(&conflicts, "x.com");
    assert_eq!(sources, vec!["dev", "staging"]);

    let empty = conflict_sources(&conflicts, "y.com");
    assert!(empty.is_empty());
}
