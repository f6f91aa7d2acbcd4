//! Ad blocking.
use mhost::dns::adblock::{AdBlockAction, AdBlockEngine};
use mhost::net::{IpAddr, Ipv4Addr};

fn za(domains: &[&str]) -> Vec<(String, IpAddr)> {
    domains
        .iter()
        .map(|d| ((*d).to_string(), IpAddr::V4(Ipv4Addr::new(0, 0, 0, 0))))
        .collect()
}

fn nx(domains: &[&str]) -> Vec<String> {
    domains.iter().map(|d| (*d).to_string()).collect()
}

fn wl(domains: &[&str]) -> Vec<String> {
    domains.iter().map(|d| (*d).to_string()).collect()
}

#[test]
fn empty_engine_returns_none() {
    let engine = AdBlockEngine::new();
    assert_eq!(engine.check("anything.com"), None);
    assert_eq!(engine.rule_count(), 0);
}

#[test]
fn empty_engine_short_circuits_before_locking() {
    let engine = AdBlockEngine::new();
    assert_eq!(engine.rule_count(), 0);
    assert_eq!(engine.check("a.b.c.example.com"), None);
}

#[test]
fn zero_address_hit_returns_zero_address() {
    let mut engine = AdBlockEngine::new();
    engine.rebuild(za(&["ad.example.com"]), nx(&[]), wl(&[]));
    let action = engine.check("ad.example.com");
    assert_eq!(
        action,
        Some(AdBlockAction::ZeroAddress(IpAddr::V4(Ipv4Addr::new(
            0, 0, 0, 0
        ))))
    );
}

#[test]
fn nxdomain_hit_returns_nxdomain() {
    let mut engine = AdBlockEngine::new();
    engine.rebuild(za(&[]), nx(&["tracker.example.com"]), wl(&[]));
    assert_eq!(
        engine.check("tracker.example.com"),
        Some(AdBlockAction::NxDomain)
    );
}

#[test]
fn suffix_walk_matches_subdomains() {
    let mut engine = AdBlockEngine::new();
    engine.rebuild(za(&["example.com"]), nx(&[]), wl(&[]));
    for d in ["example.com", "ad.example.com", "deep.ad.example.com"] {
        assert!(
            matches!(engine.check(d), Some(AdBlockAction::ZeroAddress(_))),
            "{} should hit",
            d
        );
    }
    assert_eq!(engine.check("example.org"), None);
}

#[test]
fn nxdomain_consulted_before_zero_addr() {
    let mut engine = AdBlockEngine::new();
    engine.rebuild(
        za(&["specific.ad.example.com"]),
        nx(&["example.com"]),
        wl(&[]),
    );
    assert_eq!(
        engine.check("specific.ad.example.com"),
        Some(AdBlockAction::NxDomain)
    );
    assert_eq!(
        engine.check("specific.ad.other.com"),
        None,
        "other.com not under the nxdomain rule, and not registered in zero_addr"
    );
}

#[test]
fn whitelist_overrides_everything() {
    let mut engine = AdBlockEngine::new();
    engine.rebuild(
        za(&["example.com"]),
        nx(&["example.com"]),
        wl(&["good.example.com"]),
    );
    assert_eq!(engine.check("good.example.com"), None);
    assert_eq!(engine.check("api.good.example.com"), None);
    assert!(engine.check("ad.example.com").is_some());
}

#[test]
fn rebuild_replaces_state_atomically() {
    let mut engine = AdBlockEngine::new();
    engine.rebuild(za(&["a.com"]), nx(&["b.com"]), wl(&["c.com"]));
    assert_eq!(engine.zero_addr_count(), 1);
    assert_eq!(engine.nxdomain_count(), 1);
    assert_eq!(engine.whitelist_size(), 1);

    engine.rebuild(za(&["d.com", "e.com"]), nx(&[]), wl(&[]));
    assert_eq!(engine.zero_addr_count(), 2);
    assert_eq!(engine.nxdomain_count(), 0);
    assert_eq!(engine.whitelist_size(), 0);
    assert_eq!(engine.check("a.com"), None);
    assert_eq!(engine.check("b.com"), None);
    assert!(matches!(
        engine.check("d.com"),
        Some(AdBlockAction::ZeroAddress(_))
    ));
}

#[test]
fn rule_count_sums_both_sets() {
    let mut engine = AdBlockEngine::new();
    engine.rebuild(
        za(&["a.com", "b.com"]),
        nx(&["c.com", "d.com", "e.com"]),
        wl(&[]),
    );
    assert_eq!(engine.rule_count(), 5);
}

#[test]
fn rule_count_includes_whitelist() {
    let mut engine = AdBlockEngine::new();
    engine.rebuild(za(&["a.com"]), nx(&[]), wl(&["w1", "w2", "w3"]));
    assert_eq!(engine.rule_count(), 4);
}

#[test]
fn rebuild_updates_cached_total() {
    let mut engine = AdBlockEngine::new();
    engine.rebuild(za(&["a.com"]), nx(&[]), wl(&[]));
    assert_eq!(engine.rule_count(), 1);

    engine.rebuild(za(&[]), nx(&[]), wl(&[]));
    assert_eq!(
        engine.rule_count(),
        0,
        "size must drop to 0 after empty rebuild"
    );
    assert_eq!(engine.check("a.com"), None, "fast-path should now fire");
}

#[test]
fn adblock_tld_alone_matches_every_subdomain() {
    let mut engine = AdBlockEngine::new();
    engine.rebuild(za(&["com"]), nx(&[]), wl(&[]));
    assert!(matches!(
        engine.check("example.com"),
        Some(AdBlockAction::ZeroAddress(_))
    ));
    assert!(matches!(
        engine.check("anything.anything.com"),
        Some(AdBlockAction::ZeroAddress(_))
    ));
    assert_eq!(engine.check("example.org"), None);
}

#[test]
fn the_nearest_blocked_parent_gives_the_address() {
    let mut engine = AdBlockEngine::new();
    engine.rebuild(
        vec![
            ("com".to_string(), IpAddr::V4(Ipv4Addr::new(1, 1, 1, 1))),
            ("b.com".to_string(), IpAddr::V4(Ipv4Addr::new(2, 2, 2, 2))),
        ],
        nx(&[]),
        wl(&[]),
    );
    assert_eq!(
        engine.check("a.b.com"),
        Some(AdBlockAction::ZeroAddress(IpAddr::V4(Ipv4Addr::new(2, 2, 2, 2))))
    );
}
