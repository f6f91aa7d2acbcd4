//! The rules of the DNS server.
use mhost::dns::resolver::RuleEngine;
use mhost::ident::Uuid;
use mhost::models::{HostRule, Profile, ProfileMode, RuleId, RuleSource};
use mhost::net::IpAddr;

fn make_profile(name: &str, mode: ProfileMode, enabled: bool, rules: Vec<HostRule>) -> Profile {
    let mut p = Profile::new(name);
    p.mode = mode;
    p.enabled = enabled;
    p.rules = rules;
    p
}

fn make_rule(ip: Option<&str>, domains: Vec<&str>, enabled: bool) -> HostRule {
    HostRule {
        id: RuleId(Uuid::new_v4()),
        ip: ip.map(|s| s.parse().unwrap()),
        domains: domains.iter().map(|d| d.to_string()).collect(),
        enabled,
        comment: None,
        source: RuleSource::Manual,
        line_number: None,
    }
}

#[test]
fn test_empty_rules() {
    let mut engine = RuleEngine::new();
    engine.rebuild(&[]);
    assert_eq!(engine.rule_count(), 0);
    assert_eq!(engine.resolve("example.com"), None);
}

#[test]
fn test_single_profile_single_rule() {
    let mut engine = RuleEngine::new();
    let profile = make_profile(
        "p1",
        ProfileMode::Dns,
        true,
        vec![make_rule(Some("127.0.0.1"), vec!["example.com"], true)],
    );
    engine.rebuild(&[profile]);

    assert_eq!(engine.rule_count(), 1);
    assert_eq!(
        engine.resolve("example.com"),
        Some("127.0.0.1".parse::<IpAddr>().unwrap())
    );
    assert_eq!(engine.resolve("notfound.com"), None);
}

#[test]
fn test_multi_profile_union() {
    let mut engine = RuleEngine::new();
    let p1 = make_profile(
        "p1",
        ProfileMode::Dns,
        true,
        vec![make_rule(Some("127.0.0.1"), vec!["a.com"], true)],
    );
    let p2 = make_profile(
        "p2",
        ProfileMode::Dns,
        true,
        vec![make_rule(Some("192.168.1.1"), vec!["b.com"], true)],
    );
    engine.rebuild(&[p1, p2]);

    assert_eq!(engine.rule_count(), 2);
    assert_eq!(
        engine.resolve("a.com"),
        Some("127.0.0.1".parse::<IpAddr>().unwrap())
    );
    assert_eq!(
        engine.resolve("b.com"),
        Some("192.168.1.1".parse::<IpAddr>().unwrap())
    );
}

#[test]
fn test_domain_conflict_keep_first() {
    let mut engine = RuleEngine::new();
    let p1 = make_profile(
        "p1",
        ProfileMode::Dns,
        true,
        vec![make_rule(Some("127.0.0.1"), vec!["example.com"], true)],
    );
    let p2 = make_profile(
        "p2",
        ProfileMode::Dns,
        true,
        vec![make_rule(Some("192.168.1.1"), vec!["example.com"], true)],
    );
    engine.rebuild(&[p1, p2]);

    assert_eq!(engine.rule_count(), 1);
    assert_eq!(
        engine.resolve("example.com"),
        Some("127.0.0.1".parse::<IpAddr>().unwrap())
    );
}

#[test]
fn test_rebuild_sort_by_name_deterministic() {
    let zeta = make_profile(
        "zeta",
        ProfileMode::Dns,
        true,
        vec![make_rule(Some("10.0.0.1"), vec!["shared.com"], true)],
    );
    let alpha = make_profile(
        "alpha",
        ProfileMode::Dns,
        true,
        vec![make_rule(Some("10.0.0.2"), vec!["shared.com"], true)],
    );
    let mut engine = RuleEngine::new();
    engine.rebuild(&[zeta, alpha]);
    assert_eq!(
        engine.resolve("shared.com"),
        Some("10.0.0.2".parse::<IpAddr>().unwrap()),
        "alpha should win by name order, not input order"
    );

    let alpha2 = make_profile(
        "alpha",
        ProfileMode::Dns,
        true,
        vec![make_rule(Some("10.0.0.3"), vec!["shared.com"], true)],
    );
    let zeta2 = make_profile(
        "zeta",
        ProfileMode::Dns,
        true,
        vec![make_rule(Some("10.0.0.4"), vec!["shared.com"], true)],
    );
    let mut engine2 = RuleEngine::new();
    engine2.rebuild(&[alpha2, zeta2]);
    assert_eq!(
        engine2.resolve("shared.com"),
        Some("10.0.0.3".parse::<IpAddr>().unwrap()),
        "reversed input order must yield same winner (alpha)"
    );
}

#[test]
fn test_comment_line_skipped() {
    let mut engine = RuleEngine::new();
    let profile = make_profile(
        "p1",
        ProfileMode::Dns,
        true,
        vec![
            make_rule(Some("127.0.0.1"), vec!["a.com"], true),
            make_rule(None, vec![], true),
        ],
    );
    engine.rebuild(&[profile]);

    assert_eq!(engine.rule_count(), 1);
    assert_eq!(
        engine.resolve("a.com"),
        Some("127.0.0.1".parse::<IpAddr>().unwrap())
    );
}

#[test]
fn test_disabled_rule_skipped() {
    let mut engine = RuleEngine::new();
    let profile = make_profile(
        "p1",
        ProfileMode::Dns,
        true,
        vec![
            make_rule(Some("127.0.0.1"), vec!["a.com"], true),
            make_rule(Some("192.168.1.1"), vec!["b.com"], false),
        ],
    );
    engine.rebuild(&[profile]);

    assert_eq!(engine.rule_count(), 1);
    assert_eq!(engine.resolve("a.com"), Some("127.0.0.1".parse().unwrap()));
    assert_eq!(engine.resolve("b.com"), None);
}

#[test]
fn test_disabled_profile_skipped() {
    let mut engine = RuleEngine::new();
    let p1 = make_profile(
        "p1",
        ProfileMode::Dns,
        false,
        vec![make_rule(Some("127.0.0.1"), vec!["a.com"], true)],
    );
    engine.rebuild(&[p1]);

    assert_eq!(engine.rule_count(), 0);
    assert_eq!(engine.resolve("a.com"), None);
}

#[test]
fn test_hosts_mode_profile_skipped() {
    let mut engine = RuleEngine::new();
    let p1 = make_profile(
        "p1",
        ProfileMode::Hosts,
        true,
        vec![make_rule(Some("127.0.0.1"), vec!["a.com"], true)],
    );
    engine.rebuild(&[p1]);

    assert_eq!(engine.rule_count(), 0);
    assert_eq!(engine.resolve("a.com"), None);
}

#[test]
fn test_multi_domain_per_rule() {
    let mut engine = RuleEngine::new();
    let profile = make_profile(
        "p1",
        ProfileMode::Dns,
        true,
        vec![make_rule(
            Some("127.0.0.1"),
            vec!["a.com", "b.com", "c.com"],
            true,
        )],
    );
    engine.rebuild(&[profile]);

    assert_eq!(engine.rule_count(), 3);
    assert_eq!(engine.resolve("a.com"), Some("127.0.0.1".parse().unwrap()));
    assert_eq!(engine.resolve("b.com"), Some("127.0.0.1".parse().unwrap()));
    assert_eq!(engine.resolve("c.com"), Some("127.0.0.1".parse().unwrap()));
}

#[test]
fn test_rebuild_replaces_old_rules() {
    let mut engine = RuleEngine::new();
    let p1 = make_profile(
        "p1",
        ProfileMode::Dns,
        true,
        vec![make_rule(Some("127.0.0.1"), vec!["a.com"], true)],
    );
    engine.rebuild(&[p1]);
    assert_eq!(engine.rule_count(), 1);

    let p2 = make_profile(
        "p2",
        ProfileMode::Dns,
        true,
        vec![make_rule(Some("192.168.1.1"), vec!["b.com"], true)],
    );
    engine.rebuild(&[p2]);
    assert_eq!(engine.rule_count(), 1);
    assert_eq!(engine.resolve("a.com"), None);
    assert_eq!(
        engine.resolve("b.com"),
        Some("192.168.1.1".parse().unwrap())
    );
}

#[test]
fn test_resolve_suffix_match_basic() {
    let mut engine = RuleEngine::new();
    let profile = make_profile(
        "p1",
        ProfileMode::Dns,
        true,
        vec![make_rule(Some("0.0.0.0"), vec!["example.com"], true)],
    );
    engine.rebuild(&[profile]);

    assert_eq!(
        engine.resolve("example.com"),
        Some("0.0.0.0".parse().unwrap())
    );
    assert_eq!(
        engine.resolve("ad.example.com"),
        Some("0.0.0.0".parse().unwrap())
    );
    assert_eq!(
        engine.resolve("a.b.c.example.com"),
        Some("0.0.0.0".parse().unwrap())
    );
    assert_eq!(engine.resolve("notexample.com"), None);
    assert_eq!(engine.resolve("example.org"), None);
    assert_eq!(engine.resolve("google.com"), None);
}

#[test]
fn test_resolve_specificity_more_specific_wins() {
    let mut engine = RuleEngine::new();
    let profile = make_profile(
        "p1",
        ProfileMode::Dns,
        true,
        vec![
            make_rule(Some("0.0.0.0"), vec!["example.com"], true),
            make_rule(Some("127.0.0.1"), vec!["sub.example.com"], true),
        ],
    );
    engine.rebuild(&[profile]);

    assert_eq!(
        engine.resolve("a.sub.example.com"),
        Some("127.0.0.1".parse().unwrap())
    );
    assert_eq!(
        engine.resolve("b.example.com"),
        Some("0.0.0.0".parse().unwrap())
    );
    assert_eq!(
        engine.resolve("example.com"),
        Some("0.0.0.0".parse().unwrap())
    );
}

#[test]
fn test_resolve_no_match_unrelated_tld() {
    let mut engine = RuleEngine::new();
    let profile = make_profile(
        "p1",
        ProfileMode::Dns,
        true,
        vec![make_rule(Some("0.0.0.0"), vec!["example.com"], true)],
    );
    engine.rebuild(&[profile]);

    assert_eq!(engine.resolve("com.example.org"), None);
    assert_eq!(engine.resolve("example.org"), None);
    assert_eq!(
        engine.resolve("sub.example.com"),
        Some("0.0.0.0".parse().unwrap())
    );
}

#[test]
fn test_resolve_tld_alone_requires_explicit_rule() {
    let mut engine = RuleEngine::new();
    let profile = make_profile(
        "p1",
        ProfileMode::Dns,
        true,
        vec![make_rule(Some("0.0.0.0"), vec!["example.com"], true)],
    );
    engine.rebuild(&[profile]);

    assert_eq!(engine.resolve("com"), None);
    let profile2 = make_profile(
        "p2",
        ProfileMode::Dns,
        true,
        vec![make_rule(Some("0.0.0.0"), vec!["com"], true)],
    );
    engine.rebuild(&[profile2]);
    assert_eq!(engine.resolve("com"), Some("0.0.0.0".parse().unwrap()));
    assert_eq!(
        engine.resolve("anything.com"),
        Some("0.0.0.0".parse().unwrap())
    );
}
