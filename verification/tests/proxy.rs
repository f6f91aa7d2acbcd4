//! The proxy.
use mhost::dns::platform::disable::StateFile;
use mhost::dns::platform::PlatformError;
use mhost::dns::proxy::{
    check_shutdown_signal, proxy_ports, read_original_dns, validate_dns_entries, DnsProxy,
    ProxyAction, ProxyError, ProxyEvent, MAX_CONCURRENT_CLIENT_QUERIES, UPSTREAM_TIMEOUT_SECS,
};

fn texts(v: &[&str]) -> Vec<String> {
    v.iter().map(|s| s.to_string()).collect()
}

#[test]
fn test_check_shutdown_signal() {
    assert!(!check_shutdown_signal(None));
    assert!(!check_shutdown_signal(Some("running")));
    assert!(check_shutdown_signal(Some("shutdown")));
    assert!(check_shutdown_signal(Some("  shutdown  \n")));
    assert!(!check_shutdown_signal(Some("")));
    assert!(!check_shutdown_signal(Some("shutdown now")));
}

#[test]
fn test_read_original_dns_from_file() {
    assert!(read_original_dns(None).is_empty());
    assert_eq!(read_original_dns(Some("192.168.1.1")), vec!["192.168.1.1"]);
    assert_eq!(
        read_original_dns(Some("8.8.8.8\n1.1.1.1\n9.9.9.9")),
        vec!["8.8.8.8", "1.1.1.1", "9.9.9.9"]
    );
    assert_eq!(
        read_original_dns(Some("8.8.8.8\n\n  \n1.1.1.1")),
        vec!["8.8.8.8", "1.1.1.1"]
    );
}

#[test]
fn test_validate_dns_entries_rejects_injection() {
    let entries = vec![
        "8.8.8.8".to_string(),
        "1.1.1.1".to_string(),
        "127.0.0.1; rm -rf /".to_string(),
        "8.8.8.8 && curl evil.com".to_string(),
        "8.8.8.8$(whoami)".to_string(),
        "8.8.8.8`id`".to_string(),
        "::1".to_string(),
        "not_an_ip".to_string(),
        "".to_string(),
    ];
    let (valid, invalid) = validate_dns_entries(&entries);
    assert_eq!(valid, vec!["8.8.8.8", "1.1.1.1", "::1"]);
    assert_eq!(
        invalid,
        vec![
            "127.0.0.1; rm -rf /",
            "8.8.8.8 && curl evil.com",
            "8.8.8.8$(whoami)",
            "8.8.8.8`id`",
            "not_an_ip",
            "",
        ]
    );
}

/// How the proxy restores the settings; its files go in any case.
fn left(proxy: &DnsProxy, interface: &Result<String, PlatformError>) -> Option<Vec<String>> {
    let plan = proxy.restore_dns_and_exit(interface);
    assert_eq!(plan.remove, vec![StateFile::Signal, StateFile::Original]);
    plan.args
}

#[test]
fn test_restore_dns_and_exit_rejects_injection_payload() {
    let proxy = DnsProxy::new(53, 1053, Some("127.0.0.1; rm -rf /tmp/test-injection\n8.8.8.8"));
    assert_eq!(
        left(&proxy, &Ok("Wi-Fi".to_string())),
        Some(texts(&["-setdnsservers", "Wi-Fi", "8.8.8.8"]))
    );
    let only = DnsProxy::new(53, 1053, Some("127.0.0.1; rm -rf /tmp/test-injection"));
    assert_eq!(
        left(&only, &Ok("Wi-Fi".to_string())),
        Some(texts(&["-setdnsservers", "Wi-Fi", "Empty"]))
    );
}

#[test]
fn nothing_is_restored_without_servers_or_interface() {
    let none = DnsProxy::new(53, 1053, None);
    assert!(!none.has_original());
    assert_eq!(left(&none, &Ok("Wi-Fi".to_string())), None);
    let some = DnsProxy::new(53, 1053, Some("8.8.8.8\n"));
    assert!(some.has_original());
    assert_eq!(left(&some, &Err(PlatformError::EmptyInterfaceName)), None);
    assert_eq!(left(&some, &Ok("".to_string())), None);
    assert_eq!(left(&some, &Ok("a;b".to_string())), None);
}

#[test]
fn what_was_written_down_is_read() {
    let servers = texts(&["8.8.8.8", "fe80::1", "10.0.0.1"]);
    assert_eq!(read_original_dns(Some(&servers.join("\n"))), servers);
}

#[test]
fn queries_are_dropped_beyond_the_limit() {
    let mut proxy = DnsProxy::new(53, 1053, None);
    assert_eq!(proxy.available_permits(), MAX_CONCURRENT_CLIENT_QUERIES);
    for _ in 0..MAX_CONCURRENT_CLIENT_QUERIES {
        assert_eq!(proxy.step(&ProxyEvent::Query), ProxyAction::Forward);
    }
    assert_eq!(proxy.available_permits(), 0);
    assert_eq!(proxy.step(&ProxyEvent::Query), ProxyAction::Drop);
    assert_eq!(proxy.step(&ProxyEvent::QueryDone), ProxyAction::Wait);
    assert_eq!(proxy.available_permits(), 1);
    assert_eq!(proxy.step(&ProxyEvent::Query), ProxyAction::Forward);
}

#[test]
fn the_signal_file_stops_the_proxy() {
    let mut proxy = DnsProxy::new(53, 1053, None);
    assert_eq!(proxy.step(&ProxyEvent::Polled(None)), ProxyAction::Wait);
    assert_eq!(
        proxy.step(&ProxyEvent::Polled(Some("running".to_string()))),
        ProxyAction::Wait
    );
    assert_eq!(
        proxy.step(&ProxyEvent::Polled(Some("shutdown\n".to_string()))),
        ProxyAction::RestoreAndStop
    );
    assert_eq!(proxy.step(&ProxyEvent::ReceiveFailed), ProxyAction::BackOff { ms: 100 });
    assert_eq!(proxy.available_permits(), MAX_CONCURRENT_CLIENT_QUERIES);
}

#[test]
fn ports_come_from_the_arguments() {
    let ports = |v: &[&str]| proxy_ports(&texts(v));
    assert_eq!(ports(&[]), (53, 1053));
    assert_eq!(ports(&["prog"]), (53, 1053));
    assert_eq!(ports(&["--listen", "--listen", "5"]), (5, 1053));
    assert_eq!(ports(&["p", "--listen", "54", "--target", "1054"]), (54, 1054));
    assert_eq!(ports(&["p", "x", "--target", "+9", "y"]), (53, 9));
    assert_eq!(ports(&["p", "--listen", "99999", "--target", "z"]), (53, 1053));
    assert_eq!(ports(&["p", "--listen", "7", "--listen", "bad"]), (53, 1053));
    assert_eq!(ports(&["p", "--listen"]), (53, 1053));
    assert_eq!(ports(&["p", "--listen", "--target", "8"]), (53, 1053));
}

#[test]
fn where_the_proxy_is() {
    let proxy = DnsProxy::new(5301, 5302, None);
    assert_eq!(proxy.listen_addr().to_text(), "127.0.0.1:5301");
    assert_eq!(proxy.target_addr().to_text(), "127.0.0.1:5302");
}

#[test]
fn messages_of_the_proxy() {
    let addr = DnsProxy::new(53, 1053, None).listen_addr();
    assert_eq!(
        ProxyError::BindFailed { addr, reason: "in use".to_string() }.to_text(),
        "bind failed on 127.0.0.1:53: in use"
    );
    assert_eq!(ProxyError::Io("gone".to_string()).to_text(), "io error: gone");
    assert_eq!(
        ProxyError::UpstreamTimeout(UPSTREAM_TIMEOUT_SECS).to_text(),
        "upstream timeout after 5s"
    );
}
