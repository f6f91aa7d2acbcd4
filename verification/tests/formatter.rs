//! Writing hosts files.
use mhost::hosts::formatter::{format_managed_block, format_rules};
use mhost::hosts::parser::Parser;
use mhost::models::HostRule;
use mhost::net::IpAddr;

fn make_rule(ip: &str, domains: Vec<&str>) -> HostRule {
    HostRule::new(
        ip.parse::<IpAddr>().unwrap(),
        domains.into_iter().map(|s| s.to_string()).collect(),
    )
}

#[test]
fn test_format_rules_single_domain() {
    let rules = vec![make_rule("127.0.0.1", vec!["example.com"])];
    assert_eq!(format_rules(&rules), "127.0.0.1 example.com\n");
}

#[test]
fn test_format_rules_multi_domain() {
    let rules = vec![make_rule("127.0.0.1", vec!["a.com", "b.com"])];
    assert_eq!(format_rules(&rules), "127.0.0.1 a.com\n127.0.0.1 b.com\n");
}

#[test]
fn test_format_rules_with_comment() {
    let mut rule = make_rule("127.0.0.1", vec!["example.com"]);
    rule.comment = Some("dev".to_string());
    assert_eq!(format_rules(&[rule]), "127.0.0.1 example.com # dev\n");
}

#[test]
fn test_format_rules_empty() {
    assert_eq!(format_rules(&[]), "");
}

#[test]
fn test_format_managed_block() {
    let rules = vec![make_rule("127.0.0.1", vec!["x.com"])];
    let output = format_managed_block(&rules);
    assert!(output.contains("# ---- mHost start ----"));
    assert!(output.contains("127.0.0.1 x.com"));
    assert!(output.contains("# ---- mHost end ----"));
}

#[test]
fn test_format_managed_block_empty() {
    assert_eq!(format_managed_block(&[]), "");
}

#[test]
fn a_comment_alone_is_a_line_of_its_own() {
    assert_eq!(format_rules(&[HostRule::comment_only("# hello")]), "# hello\n");
}

#[test]
fn a_block_holds_its_rules() {
    let rules = vec![
        make_rule("127.0.0.1", vec!["x.com", "y.com"]),
        HostRule::comment_only("# hello"),
    ];
    let block = format_managed_block(&rules);
    assert_eq!(
        Parser::extract_managed_block_content(&block),
        Some("127.0.0.1 x.com\n127.0.0.1 y.com\n# hello".to_string())
    );
    assert_eq!(Parser::extract_managed_block_content(&format_managed_block(&[])), None);
}
