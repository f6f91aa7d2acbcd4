//! The data of the library.
use mhost::error::MhostError;
use mhost::ident::Uuid;
use mhost::models::{
    AdBlockResponse, AdBlockState, HostRule, OriginalDns, Profile, ProfileId, ProfileMode, RuleId,
    RuleSource, SourceId,
};

#[test]
fn test_profile_default_values() {
    let p = Profile::new("dev");
    assert!(!p.enabled);
    assert!(!p.protected);
    assert!(p.tags.is_empty());
    assert!(p.rules.is_empty());
    assert!(p.description.is_none());
    assert_eq!(p.mode, ProfileMode::Hosts);
}

#[test]
fn test_host_rule_new_defaults() {
    let rule = HostRule::new(
        "192.168.1.1".parse().unwrap(),
        vec!["example.com".to_string()],
    );
    assert!(rule.enabled);
    assert!(rule.comment.is_none());
    assert_eq!(rule.source, RuleSource::Manual);
    assert_eq!(rule.domains.len(), 1);
}

#[test]
fn test_host_rule_multi_domain() {
    let rule = HostRule::new(
        "127.0.0.1".parse().unwrap(),
        vec!["a.com".to_string(), "b.com".to_string()],
    );
    assert_eq!(rule.domains.len(), 2);
    assert_eq!(rule.domains[0], "a.com");
    assert_eq!(rule.domains[1], "b.com");
}

#[test]
fn test_ad_block_response_default_is_zero_address() {
    assert_eq!(AdBlockResponse::default(), AdBlockResponse::ZeroAddress);
}

#[test]
fn test_ad_block_state_default() {
    let state = AdBlockState::default();
    assert!(!state.enabled);
    assert!(state.sources.is_empty());
    assert!(state.whitelist.is_empty());
    assert!(state.auto_refresh_enabled);
    assert_eq!(state.refresh_interval_hours, 24);
}

#[test]
fn test_id_display() {
    let uuid = Uuid::new_v4();
    let pid = ProfileId(uuid);
    let rid = RuleId(uuid);
    let sid = SourceId(uuid);

    assert_eq!(pid.to_text(), uuid.to_text());
    assert_eq!(rid.to_text(), uuid.to_text());
    assert_eq!(sid.to_text(), uuid.to_text());
}

#[test]
fn test_original_dns_restore_argv() {
    assert_eq!(
        OriginalDns::Manual(vec!["8.8.8.8".to_string()]).restore_argv(),
        vec!["8.8.8.8".to_string()]
    );
    assert_eq!(
        OriginalDns::DhcpEmpty.restore_argv(),
        vec!["Empty".to_string()]
    );
}

#[test]
fn test_original_dns_restore_argv_strips_loopback() {
    assert_eq!(
        OriginalDns::Manual(vec![
            "127.0.0.1".to_string(),
            "8.8.8.8".to_string(),
            "::1".to_string(),
            "1.1.1.1".to_string(),
        ])
        .restore_argv(),
        vec!["8.8.8.8".to_string(), "1.1.1.1".to_string()]
    );

    assert_eq!(
        OriginalDns::Manual(vec!["127.0.0.1".to_string(), "::1".to_string()]).restore_argv(),
        vec!["Empty".to_string()]
    );

    assert_eq!(
        OriginalDns::Manual(vec!["0.0.0.0".to_string(), "8.8.8.8".to_string()]).restore_argv(),
        vec!["8.8.8.8".to_string()]
    );

    assert_eq!(
        OriginalDns::Manual(vec!["127.0.0.1:53".to_string(), "8.8.8.8".to_string()])
            .restore_argv(),
        vec!["8.8.8.8".to_string()]
    );

    assert_eq!(
        OriginalDns::DhcpEmpty.restore_argv(),
        vec!["Empty".to_string()]
    );
}

#[test]
fn test_original_dns_is_manual() {
    assert!(OriginalDns::Manual(vec!["1.1.1.1".to_string()]).is_manual());
    assert!(!OriginalDns::DhcpEmpty.is_manual());
}

#[test]
fn test_original_dns_deserialize_legacy_vec_with_loopback_filters() {
    let legacy = r#"["127.0.0.1", "8.8.8.8"]"#;
    let restored = OriginalDns::from_legacy(&serde_json::from_str(legacy).unwrap());
    assert_eq!(restored, OriginalDns::Manual(vec!["8.8.8.8".to_string()]));

    let legacy = r#"["127.0.0.1"]"#;
    let restored = OriginalDns::from_legacy(&serde_json::from_str(legacy).unwrap());
    assert_eq!(restored, OriginalDns::DhcpEmpty);

    let legacy = r#"["0.0.0.0"]"#;
    let restored = OriginalDns::from_legacy(&serde_json::from_str(legacy).unwrap());
    assert_eq!(restored, OriginalDns::DhcpEmpty);

    let legacy = r#"["Empty", "127.0.0.1"]"#;
    let restored = OriginalDns::from_legacy(&serde_json::from_str(legacy).unwrap());
    assert_eq!(restored, OriginalDns::DhcpEmpty);
}

#[test]
fn test_original_dns_deserialize_legacy_vec_non_empty() {
    let legacy_json = r#"["192.168.1.1", "8.8.8.8"]"#;
    let restored = OriginalDns::from_legacy(&serde_json::from_str(legacy_json).unwrap());
    assert_eq!(
        restored,
        OriginalDns::Manual(vec!["192.168.1.1".to_string(), "8.8.8.8".to_string()])
    );
}

#[test]
fn test_original_dns_deserialize_legacy_vec_empty() {
    let legacy_json = r#"[]"#;
    let restored = OriginalDns::from_legacy(&serde_json::from_str(legacy_json).unwrap());
    assert_eq!(restored, OriginalDns::DhcpEmpty);
}

#[test]
fn test_original_dns_deserialize_legacy_vec_placeholder() {
    let legacy_json = r#"["Empty"]"#;
    let restored = OriginalDns::from_legacy(&serde_json::from_str(legacy_json).unwrap());
    assert_eq!(restored, OriginalDns::DhcpEmpty);
}

#[test]
fn test_original_dns_deserialize_tagged_manual_with_loopback_filters() {
    let servers: Vec<String> = serde_json::from_str(r#"["127.0.0.1", "8.8.8.8"]"#).unwrap();
    let restored = OriginalDns::from_tagged(&servers);
    assert_eq!(restored, OriginalDns::Manual(vec!["8.8.8.8".to_string()]));

    let servers: Vec<String> = serde_json::from_str(r#"["127.0.0.1"]"#).unwrap();
    let restored = OriginalDns::from_tagged(&servers);
    assert_eq!(restored, OriginalDns::Manual(vec![]));
    assert_eq!(restored.restore_argv(), vec!["Empty".to_string()]);
}

#[test]
fn test_original_dns_deserialize_tagged_manual() {
    let servers: Vec<String> = serde_json::from_str(r#"["1.1.1.1"]"#).unwrap();
    assert_eq!(
        OriginalDns::from_tagged(&servers),
        OriginalDns::Manual(vec!["1.1.1.1".to_string()])
    );
}

#[test]
fn identifiers_are_read_back() {
    let id = ProfileId(Uuid::new_v4());
    assert_eq!(ProfileId::parse_text(&id.to_text()), Ok(id));
    let other = ProfileId(Uuid::new_v4());
    assert_ne!(id, other);
}

#[test]
fn identifiers_are_written_with_hyphens() {
    let id = ProfileId(Uuid(0x0123_4567_89ab_cdef_0123_4567_89ab_cdef));
    assert_eq!(id.to_text(), "01234567-89ab-cdef-0123-456789abcdef");
    assert_eq!(
        "01234567-89AB-CDEF-0123-456789ABCDEF".parse::<ProfileId>(),
        Ok(id)
    );
}

#[test]
fn other_text_is_no_identifier() {
    assert!(matches!(
        ProfileId::parse_text("nonsense"),
        Err(MhostError::InvalidInput(m)) if m.starts_with("invalid profile id: ")
    ));
}

#[test]
fn new_identifiers_are_random_ones() {
    let n = Uuid::new_v4().0;
    assert_eq!((n >> 76) & 0xf, 4);
    assert_eq!((n >> 62) & 0x3, 2);
}

#[test]
fn a_new_profile_was_changed_when_it_was_made() {
    let p = Profile::new("dev");
    assert_eq!(p.name, "dev");
    assert_eq!(p.created_at, p.updated_at);
    assert!(p.created_at.secs > 1_600_000_000);
}

#[test]
fn a_comment_alone_has_no_address() {
    let r = HostRule::comment_only("# x");
    assert!(r.is_comment_only());
    assert_eq!(r.ip, None);
    assert_eq!(r.comment, Some("# x".to_string()));
    assert!(!HostRule::new("1.2.3.4".parse().unwrap(), vec![]).is_comment_only());
}
