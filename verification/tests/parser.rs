//! Reading hosts files.
use mhost::error::ParseError;
use mhost::hosts::parser::Parser;
use mhost::models::{DuplicateKind, HostRule, RuleSource};
use mhost::net::IpAddr;

fn make_rule(ip: &str, domains: Vec<&str>) -> HostRule {
    HostRule::new(
        ip.parse::<IpAddr>().unwrap(),
        domains.into_iter().map(|s| s.to_string()).collect(),
    )
}

fn assert_rules_eq(actual: &[HostRule], expected: &[HostRule]) {
    assert_eq!(actual.len(), expected.len(), "rule count mismatch");
    for (a, e) in actual.iter().zip(expected.iter()) {
        assert_eq!(a.ip, e.ip, "IP mismatch");
        assert_eq!(a.domains, e.domains, "domains mismatch");
        assert_eq!(a.enabled, e.enabled, "enabled mismatch");
        assert_eq!(a.comment, e.comment, "comment mismatch");
        assert_eq!(a.source, e.source, "source mismatch");
    }
}

#[test]
fn test_parse_standard_line() {
    let cases = vec![
        (
            "ipv4_single",
            "127.0.0.1 example.com",
            vec![make_rule("127.0.0.1", vec!["example.com"])],
        ),
        (
            "ipv6_single",
            "::1 localhost",
            vec![make_rule("::1", vec!["localhost"])],
        ),
        (
            "ipv6_full",
            "2001:db8::1 example.com",
            vec![make_rule("2001:db8::1", vec!["example.com"])],
        ),
        (
            "multi_domain",
            "127.0.0.1 a.com b.com",
            vec![make_rule("127.0.0.1", vec!["a.com", "b.com"])],
        ),
        (
            "with_comment",
            "127.0.0.1 example.com # dev",
            vec![{
                let mut r = make_rule("127.0.0.1", vec!["example.com"]);
                r.comment = Some("dev".to_string());
                r
            }],
        ),
    ];

    for (name, input, expected) in cases {
        let result = Parser::parse(input);
        assert!(
            result.errors.is_empty(),
            "case: {} - unexpected errors: {:?}",
            name,
            result.errors
        );
        assert_rules_eq(&result.rules, &expected);
    }
}

#[test]
fn test_parse_errors() {
    let cases = vec![
        (
            "invalid_ip",
            "999.999.999.999 x.com",
            ParseError::InvalidIp("999.999.999.999".to_string()),
        ),
        (
            "invalid_domain",
            "127.0.0.1 -bad.com",
            ParseError::InvalidDomain("-bad.com".to_string()),
        ),
        (
            "malformed",
            "example.com 127.0.0.1",
            ParseError::MalformedLine("example.com 127.0.0.1".to_string()),
        ),
    ];

    for (name, input, expected_err) in cases {
        let result = Parser::parse(input);
        assert!(
            result.rules.is_empty(),
            "case: {} - expected no rules, got {:?}",
            name,
            result.rules
        );
        assert_eq!(
            result.errors.len(),
            1,
            "case: {} - expected exactly one error",
            name
        );
        assert_eq!(result.errors[0], expected_err, "case: {}", name);
    }
}

#[test]
fn test_parse_comment_and_empty() {
    let cases = vec![
        ("comment", "# this is a comment", 1),
        ("empty", "", 0),
        ("whitespace", "   ", 0),
    ];

    for (name, input, expected_rules) in cases {
        let result = Parser::parse(input);
        assert_eq!(
            result.rules.len(),
            expected_rules,
            "case: {} - expected {} rules",
            name,
            expected_rules
        );
        assert!(
            result.errors.is_empty(),
            "case: {} - unexpected errors: {:?}",
            name,
            result.errors
        );
    }

    let comment_result = Parser::parse("# this is a comment");
    assert!(comment_result.rules[0].is_comment_only());
    assert_eq!(comment_result.rules[0].comment, Some("# this is a comment".to_string()));
    assert_eq!(comment_result.rules[0].ip, None);
}

#[test]
fn test_extract_managed_block() {
    let input =
        "# line 1\n# ---- mHost start ----\n127.0.0.1 x.com\n# ---- mHost end ----\n# line 5";
    assert_eq!(Parser::extract_managed_block(input), Some((1, 3)));
}

#[test]
fn test_extract_managed_block_missing() {
    assert_eq!(
        Parser::extract_managed_block("# no markers\n127.0.0.1 a.com"),
        None
    );
    assert_eq!(
        Parser::extract_managed_block("# ---- mHost start ----\n127.0.0.1 a.com"),
        None
    );
    assert_eq!(
        Parser::extract_managed_block("127.0.0.1 a.com\n# ---- mHost end ----"),
        None
    );
}

#[test]
fn test_extract_managed_block_reversed() {
    let input = "# ---- mHost end ----\n127.0.0.1 a.com\n# ---- mHost start ----";
    assert_eq!(Parser::extract_managed_block(input), None);
}

#[test]
fn test_extract_managed_block_multiple_starts() {
    let input = "# ---- mHost start ----\n127.0.0.1 a.com\n# ---- mHost start ----\n127.0.0.1 b.com\n# ---- mHost end ----";
    assert_eq!(Parser::extract_managed_block(input), None);
}

#[test]
fn test_extract_managed_block_multiple_ends() {
    let input = "# ---- mHost start ----\n127.0.0.1 a.com\n# ---- mHost end ----\n127.0.0.1 b.com\n# ---- mHost end ----";
    assert_eq!(Parser::extract_managed_block(input), None);
}

#[test]
fn test_extract_managed_block_multiple_blocks() {
    let input = "# ---- mHost start ----\n127.0.0.1 a.com\n# ---- mHost end ----\n# ---- mHost start ----\n127.0.0.1 b.com\n# ---- mHost end ----";
    assert_eq!(Parser::extract_managed_block(input), None);
}

#[test]
fn test_format_roundtrip() {
    let input = "127.0.0.1 example.com\n::1 localhost\n";
    let result = Parser::parse(input);
    let formatted = Parser::format(&result.rules);
    let reparsed = Parser::parse(&formatted);
    assert_rules_eq(&result.rules, &reparsed.rules);
}

#[test]
fn test_format_roundtrip_with_comments() {
    let input = "# header comment\n127.0.0.1 example.com\n# footer comment\n";
    let result = Parser::parse(input);
    assert_eq!(result.rules.len(), 3); // 2 comment-only + 1 host rule
    let formatted = Parser::format(&result.rules);
    assert_eq!(formatted, "# header comment\n127.0.0.1 example.com\n# footer comment\n");
    let reparsed = Parser::parse(&formatted);
    assert_rules_eq(&result.rules, &reparsed.rules);
}

#[test]
fn test_format_multi_domain_expansion() {
    let rules = vec![make_rule("127.0.0.1", vec!["a.com", "b.com"])];
    let formatted = Parser::format(&rules);
    let expected = "127.0.0.1 a.com\n127.0.0.1 b.com\n";
    assert_eq!(formatted, expected);
}

#[test]
fn test_format_with_comment() {
    let mut rule = make_rule("127.0.0.1", vec!["example.com"]);
    rule.comment = Some("dev".to_string());
    let formatted = Parser::format(&[rule]);
    assert_eq!(formatted, "127.0.0.1 example.com # dev\n");
}

#[test]
fn test_parse_inline_comment_only() {
    let input = "127.0.0.1 example.com #";
    let result = Parser::parse(input);
    assert!(result.errors.is_empty());
    assert_eq!(result.rules.len(), 1);
    assert_eq!(result.rules[0].ip, Some("127.0.0.1".parse::<IpAddr>().unwrap()));
    assert_eq!(result.rules[0].domains, vec!["example.com"]);
    assert_eq!(result.rules[0].comment, None);
}

#[test]
fn test_parse_leading_trailing_whitespace() {
    let input = "  127.0.0.1   example.com  ";
    let result = Parser::parse(input);
    assert!(result.errors.is_empty());
    assert_eq!(result.rules.len(), 1);
    assert_eq!(result.rules[0].domains, vec!["example.com"]);
}

#[test]
fn test_parse_multiple_lines() {
    let input = "# header\n127.0.0.1 a.com\n\n::1 localhost\n# footer\n";
    let result = Parser::parse(input);
    assert!(result.errors.is_empty());
    assert_eq!(result.rules.len(), 4);
    assert!(result.rules[0].is_comment_only());
    assert_eq!(result.rules[0].comment, Some("# header".to_string()));
    assert_eq!(result.rules[1].ip, Some("127.0.0.1".parse::<IpAddr>().unwrap()));
    assert_eq!(result.rules[1].domains, vec!["a.com"]);
    assert_eq!(result.rules[2].ip, Some("::1".parse::<IpAddr>().unwrap()));
    assert_eq!(result.rules[2].domains, vec!["localhost"]);
    assert!(result.rules[3].is_comment_only());
    assert_eq!(result.rules[3].comment, Some("# footer".to_string()));
}

#[test]
fn test_parse_invalid_ip_returns_invalid_ip_not_malformed() {
    let result = Parser::parse("999.999.999.999 x.com");
    assert_eq!(result.errors.len(), 1);
    assert_eq!(
        result.errors[0],
        ParseError::InvalidIp("999.999.999.999".to_string())
    );
}

#[test]
fn test_parse_default_enabled_and_source() {
    let input = "127.0.0.1 example.com\n::1 localhost # dev\n";
    let result = Parser::parse(input);
    assert!(result.errors.is_empty());
    assert_eq!(result.rules.len(), 2);

    assert!(
        result.rules[0].enabled,
        "rule 0 should be enabled by default"
    );
    assert!(
        result.rules[1].enabled,
        "rule 1 should be enabled by default"
    );

    assert_eq!(
        result.rules[0].source,
        RuleSource::Manual,
        "rule 0 source should be Manual by default"
    );
    assert_eq!(
        result.rules[1].source,
        RuleSource::Manual,
        "rule 1 source should be Manual by default"
    );

    let formatted = Parser::format(&result.rules);
    assert!(!formatted.contains("enabled"));
    assert!(!formatted.contains("Manual"));
    assert!(!formatted.contains("Remote"));
    assert!(!formatted.contains("AdBlock"));
}

#[test]
fn test_extract_managed_block_content_with_block() {
    let input = "# some comment\n# ---- mHost start ----\n127.0.0.1 example.com\n# ---- mHost end ----\n# tail";
    let result = Parser::extract_managed_block_content(input);
    assert_eq!(result, Some("127.0.0.1 example.com".to_string()));
}

#[test]
fn test_extract_managed_block_content_without_block() {
    let input = "# no block here\n127.0.0.1 example.com";
    let result = Parser::extract_managed_block_content(input);
    assert_eq!(result, None);
}

#[test]
fn test_extract_managed_block_content_empty_block() {
    let input = "# ---- mHost start ----\n# ---- mHost end ----";
    let result = Parser::extract_managed_block_content(input);
    assert_eq!(result, Some(String::new()));
}

#[test]
fn test_extract_managed_block_content_multi_line() {
    let input = "# ---- mHost start ----\n127.0.0.1 a.com\n192.168.1.1 b.com\n# ---- mHost end ----";
    let result = Parser::extract_managed_block_content(input);
    assert_eq!(result, Some("127.0.0.1 a.com\n192.168.1.1 b.com".to_string()));
}

#[test]
fn test_extract_managed_block_content_with_surrounding_content() {
    let input = "127.0.0.1 pre-existing.com\n# ---- mHost start ----\n::1 managed.local\n# ---- mHost end ----\n192.168.1.1 post-existing.com";
    let result = Parser::extract_managed_block_content(input);
    assert_eq!(result, Some("::1 managed.local".to_string()));
}

#[test]
fn test_parse_with_lines_valid() {
    let cases = vec![
        ("single_ipv4", "127.0.0.1 example.com",
         vec![("127.0.0.1", vec!["example.com"])], 0),
        ("ipv6", "::1 localhost",
         vec![("::1", vec!["localhost"])], 0),
        ("multi_domain", "127.0.0.1 a.com b.com",
         vec![("127.0.0.1", vec!["a.com", "b.com"])], 0),
        ("with_comment", "127.0.0.1 x.com # dev",
         vec![("127.0.0.1", vec!["x.com"])], 0),
        ("empty_lines", "\n\n127.0.0.1 x.com\n\n",
         vec![("127.0.0.1", vec!["x.com"])], 0),
    ];
    for (name, input, expected_rules, expected_errors) in cases {
        let result = Parser::parse_with_lines(input);
        assert_eq!(result.rules.len(), expected_rules.len(), "case: {}", name);
        for (i, (expected_ip, expected_domains)) in expected_rules.iter().enumerate() {
            assert_eq!(result.rules[i].ip, Some(expected_ip.parse::<IpAddr>().unwrap()), "case: {} rule {} ip", name, i);
            assert_eq!(result.rules[i].domains, *expected_domains, "case: {} rule {} domains", name, i);
        }
        assert_eq!(result.errors.len(), expected_errors, "case: {}", name);
    }

    let comment_result = Parser::parse_with_lines("# this is a comment");
    assert_eq!(comment_result.rules.len(), 1);
    assert!(comment_result.rules[0].is_comment_only());
    assert_eq!(comment_result.rules[0].comment, Some("# this is a comment".to_string()));
    assert_eq!(comment_result.errors.len(), 0);
}

#[test]
fn test_parse_with_lines_invalid() {
    let cases = vec![
        ("bad_ip", "999.999.999.999 x.com", "invalid ip"),
        ("bad_domain", "127.0.0.1 -bad", "invalid domain"),
        ("no_ip", "example.com 127.0.0.1", "malformed"),
    ];
    for (name, input, expected_msg_contains) in cases {
        let result = Parser::parse_with_lines(input);
        assert!(!result.errors.is_empty(), "case: {} should have errors", name);
        let msg = result.errors[0].error.to_text().to_lowercase();
        assert!(msg.contains(expected_msg_contains),
            "case: {} error '{}' should contain '{}'", name, msg, expected_msg_contains);
    }
}

#[test]
fn test_parse_with_lines_error_line_numbers() {
    let result = Parser::parse_with_lines("127.0.0.1 valid.com\n999.999.999.999 bad.com");
    assert_eq!(result.errors.len(), 1);
    assert_eq!(result.errors[0].line_number, 2);
}

#[test]
fn test_parse_with_lines_multiple_errors() {
    let result = Parser::parse_with_lines(
        "127.0.0.1 ok.com\nbad_line\n127.0.0.1 ok2.com\n999.999.999.999 bad.com"
    );
    assert_eq!(result.errors.len(), 2);
    assert_eq!(result.errors[0].line_number, 2);
    assert_eq!(result.errors[1].line_number, 4);
}

#[test]
fn test_no_duplicates_for_unique_domains() {
    let input = "127.0.0.1 a.com\n127.0.0.1 b.com";
    let result = Parser::parse_with_lines(input);
    assert!(result.duplicates.is_empty());
}

#[test]
fn test_same_ip_duplicates_detected() {
    let input = "127.0.0.1 a.com\n127.0.0.1 a.com";
    let result = Parser::parse_with_lines(input);
    assert_eq!(result.duplicates.len(), 1);
    assert_eq!(result.duplicates[0].domain, "a.com");
    assert_eq!(result.duplicates[0].lines, vec![1, 2]);
    assert!(matches!(result.duplicates[0].kind, DuplicateKind::SameIp));
}

#[test]
fn test_different_ip_duplicates_detected() {
    let input = "127.0.0.1 a.com\n192.168.1.1 a.com";
    let result = Parser::parse_with_lines(input);
    assert_eq!(result.duplicates.len(), 1);
    assert!(matches!(result.duplicates[0].kind, DuplicateKind::DifferentIp));
}

#[test]
fn test_disabled_rules_not_checked() {
    let input = "127.0.0.1 a.com\n# 127.0.0.1 a.com";
    let result = Parser::parse_with_lines(input);
    assert!(result.duplicates.is_empty());
}

#[test]
fn test_comment_only_lines_not_checked() {
    let input = "127.0.0.1 a.com\n# just a comment";
    let result = Parser::parse_with_lines(input);
    assert!(result.duplicates.is_empty());
}

#[test]
fn test_duplicate_across_multiple_rules() {
    let input = "127.0.0.1 a.com b.com\n127.0.0.1 a.com";
    let result = Parser::parse_with_lines(input);
    assert_eq!(result.duplicates.len(), 1);
    assert_eq!(result.duplicates[0].domain, "a.com");
}

#[test]
fn parse_errors_only_gives_the_same_errors() {
    let text = "127.0.0.1 ok.com\nbad_line\n127.0.0.1 ok2.com\n999.999.999.999 bad.com";
    let only = Parser::parse_errors_only(text);
    let all = Parser::parse_with_lines(text);
    assert_eq!(only.len(), 2);
    for (a, b) in only.iter().zip(all.errors.iter()) {
        assert_eq!(a.line_number, b.line_number);
        assert_eq!(a.error, b.error);
    }
}

#[test]
fn line_numbers_are_kept_with_the_rules() {
    let r = Parser::parse_with_lines("# top\n\n10.0.0.1 a.com\n");
    assert_eq!(r.rules.len(), 2);
    assert_eq!(r.rules[0].line_number, Some(1));
    assert_eq!(r.rules[1].line_number, Some(3));
}

#[test]
fn a_carriage_return_ends_a_line_with_its_newline() {
    let r = Parser::parse("127.0.0.1 a.com\r\n::1 b.com\r\n");
    assert!(r.errors.is_empty());
    assert_eq!(r.rules[0].domains, vec!["a.com"]);
    assert_eq!(r.rules[1].domains, vec!["b.com"]);
}

#[test]
fn what_was_formatted_parses_to_the_same_rules() {
    let rules = vec![
        make_rule("2001:db8::1", vec!["a.com"]),
        HostRule::comment_only("# note"),
        make_rule("10.0.0.1", vec!["b.com", "c.com"]),
    ];
    let text = Parser::format(&rules);
    assert_eq!(text, "2001:db8::1 a.com\n# note\n10.0.0.1 b.com\n10.0.0.1 c.com\n");
    let once = Parser::parse(&text);
    assert_eq!(Parser::format(&once.rules), text);
}

#[test]
fn the_span_of_the_block_covers_its_marks() {
    let text = "a\n# ---- mHost start ----\nx\n# ---- mHost end ----\nb\n";
    let chars: Vec<char> = text.chars().collect();
    let (from, to) = Parser::extract_managed_block_span(&chars).unwrap();
    let span: String = chars[from..to].iter().collect();
    assert!(span.starts_with("# ---- mHost start ----"));
    assert!(span.contains("x"));
    assert!(span.trim_end().ends_with("# ---- mHost end ----"));
    assert!(!span.contains("b"));
}

#[test]
fn parsed_rules_have_random_identifiers() {
    let text = "127.0.0.1 a.com\n# note\n::1 b.com c.com\n";
    let mut rules = Parser::parse(text).rules;
    rules.append(&mut Parser::parse_with_lines(text).rules);
    for rule in &rules {
        let bits = rule.id.0 .0;
        assert_eq!((bits >> 76) & 0xf, 4);
        assert_eq!((bits >> 62) & 0x3, 2);
    }
    for i in 0..rules.len() {
        for j in 0..i {
            assert_ne!(rules[i].id, rules[j].id);
        }
    }
}
