//! The settings of the DNS server.
use mhost::dns::config::DnsConfig;

#[test]
fn test_dns_config_default() {
    let config = DnsConfig::default();
    assert_eq!(config.port, 53);
    assert_eq!(config.upstream, vec!["8.8.8.8", "1.1.1.1"]);
    assert_eq!(config.cache_size, 1000);
}

#[test]
fn the_other_defaults() {
    let config = DnsConfig::default();
    assert!(!config.refresh_upstream);
    assert!(config.timeout_ms > 0);
}
