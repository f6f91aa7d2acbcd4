//! The tree of names.
use mhost::dns::trie::Trie;
use mhost::net::{IpAddr, Ipv4Addr};

#[test]
fn empty_trie_returns_none() {
    let t: Trie<()> = Trie::new();
    assert!(t.is_empty());
    assert_eq!(t.len(), 0);
    assert_eq!(t.find_longest_suffix_match("anything.com"), None);
}

#[test]
fn exact_match_returns_value() {
    let mut t: Trie<()> = Trie::new();
    t.insert("ad.example.com", ());
    assert_eq!(t.len(), 1);
    assert!(!t.is_empty());
    assert!(t.find_longest_suffix_match("ad.example.com").is_some());
    assert!(t.find_longest_suffix_match("tracker.example.com").is_none());
}

#[test]
fn longest_suffix_match_walks_inward() {
    let mut t: Trie<()> = Trie::new();
    t.insert("com", ());
    t.insert("example.com", ());
    t.insert("ad.example.com", ());

    assert!(t.find_longest_suffix_match("a.b.example.com").is_some());
    assert!(t.find_longest_suffix_match("x.com").is_some());
    assert!(t.find_longest_suffix_match("unrelated.org").is_none());
    assert_eq!(t.len(), 3);
}

#[test]
fn trie_tld_alone_matches_every_subdomain() {
    let mut t: Trie<()> = Trie::new();
    t.insert("com", ());

    for d in ["example.com", "a.b.example.com", "anything.anything.com"] {
        assert!(t.find_longest_suffix_match(d).is_some(), "{d} should hit",);
    }
    assert!(t.find_longest_suffix_match("example.org").is_none());
}

#[test]
fn zero_addr_value_is_returned() {
    let mut t: Trie<IpAddr> = Trie::new();
    let ip = IpAddr::V4(Ipv4Addr::new(1, 2, 3, 4));
    t.insert("ads.example.com", ip);

    match t.find_longest_suffix_match("ads.example.com") {
        Some(got) => assert_eq!(*got, ip),
        None => panic!("exact lookup must hit"),
    }
    match t.find_longest_suffix_match("x.ads.example.com") {
        Some(got) => assert_eq!(*got, ip),
        None => panic!("subdomain lookup must hit"),
    }
}

#[test]
fn insert_overwrites_existing() {
    let mut t: Trie<IpAddr> = Trie::new();
    t.insert(
        "ad.example.com",
        IpAddr::V4(Ipv4Addr::new(1, 1, 1, 1)),
    );
    t.insert(
        "ad.example.com",
        IpAddr::V4(Ipv4Addr::new(2, 2, 2, 2)),
    );
    assert_eq!(t.len(), 1, "overwrite must not duplicate");
    assert_eq!(
        *t.find_longest_suffix_match("ad.example.com").unwrap(),
        IpAddr::V4(Ipv4Addr::new(2, 2, 2, 2)),
    );
}

#[test]
fn shared_prefix_is_deduplicated() {
    let mut t: Trie<()> = Trie::new();
    for i in 0..100_000 {
        t.insert(&format!("ad{i:07}.example.com"), ());
    }
    assert_eq!(t.len(), 100_000);
    assert_eq!(
        t.node_count(),
        100_003,
        "shared-prefix compression must keep node_count = root + 2 + leaves",
    );
}

#[test]
fn empty_domain_is_noop() {
    let mut t: Trie<()> = Trie::new();
    t.insert("", ());
    assert!(t.is_empty());
    assert_eq!(t.len(), 0);
    assert_eq!(t.find_longest_suffix_match("anything.com"), None);
}

#[test]
fn single_label_domain() {
    let mut t: Trie<()> = Trie::new();
    t.insert("com", ());
    assert_eq!(t.len(), 1);
    assert!(t.find_longest_suffix_match("com").is_some());
    assert!(t.find_longest_suffix_match("example.com").is_some());
    assert!(t.find_longest_suffix_match("a.b.example.com").is_some());
    assert!(t.find_longest_suffix_match("example.org").is_none());
}

#[test]
fn default_matches_new() {
    let a: Trie<()> = Trie::default();
    let b: Trie<()> = Trie::new();
    assert_eq!(a.len(), b.len());
    assert_eq!(a.is_empty(), b.is_empty());
}

#[test]
fn the_longest_suffix_gives_the_value() {
    let mut t: Trie<u32> = Trie::new();
    t.insert("com", 1);
    t.insert("example.com", 2);
    assert_eq!(t.find_longest_suffix_match("a.example.com"), Some(&2));
    assert_eq!(t.find_longest_suffix_match("b.com"), Some(&1));
    assert_eq!(t.node_count(), 3);
}
