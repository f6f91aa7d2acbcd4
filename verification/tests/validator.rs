//! Names and addresses in hosts files.
use mhost::hosts::validator::{check_duplicates, is_valid_domain, looks_like_ip};
use mhost::hosts::parser::Parser;
use mhost::models::DuplicateKind;

#[test]
fn test_valid_domain() {
    let cases = vec![
        ("simple", "example.com", true),
        ("subdomain", "sub.example.com", true),
        ("hyphen", "my-site.com", true),
        ("localhost", "localhost", true),
        ("starts_with_hyphen", "-bad.com", false),
        ("ends_with_hyphen_label", "bad-.com", false),
        ("empty", "", false),
        ("invalid_char", "bad@com", false),
        ("underscore", "bad_com", false),
        ("ends_with_dot", "example.com.", false),
        ("all_digits_label", "123.456", false),
        ("all_digits", "12345", false),
        ("mixed_label", "123.example.com", false),
    ];

    for (name, domain, expected) in cases {
        assert_eq!(
            is_valid_domain(domain),
            expected,
            "case: {} - domain: {}",
            name,
            domain
        );
    }
}

#[test]
fn test_looks_like_ip() {
    let cases = vec![
        ("ipv4", "127.0.0.1", true),
        ("invalid_ipv4", "999.999.999.999", true),
        ("ipv6", "::1", true),
        ("ipv6_full", "2001:db8::1", true),
        ("domain", "example.com", false),
        ("text", "abc", false),
        ("empty", "", false),
        ("dot_only", ".", false),
        ("trailing_dot", "1.", false),
        ("double_colon", "::", true),
        ("hex_colon", "abc:def", true),
    ];

    for (name, token, expected) in cases {
        assert_eq!(
            looks_like_ip(token),
            expected,
            "case: {} - token: {}",
            name,
            token
        );
    }
}

#[test]
fn duplicates_come_in_the_order_of_their_first_lines() {
    let r = Parser::parse_with_lines(
        "10.0.0.1 b.com a.com\n10.0.0.2 a.com\n10.0.0.1 b.com\n",
    );
    let d = check_duplicates(&r.rules);
    assert_eq!(d.len(), 2);
    assert_eq!(d[0].domain, "b.com");
    assert_eq!(d[0].lines, vec![1, 3]);
    assert_eq!(d[0].kind, DuplicateKind::SameIp);
    assert_eq!(d[1].domain, "a.com");
    assert_eq!(d[1].lines, vec![1, 2]);
    assert_eq!(d[1].kind, DuplicateKind::DifferentIp);
}
