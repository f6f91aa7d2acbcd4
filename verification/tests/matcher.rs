//! Names and their parents.
use mhost::dns::matcher::walk_parents;

#[test]
fn walk_parents_first_match_wins() {
    let r = walk_parents("a.b.example.com", |d| match d {
        "a.b.example.com" => Some(1),
        "b.example.com" => Some(2),
        "example.com" => Some(3),
        _ => None,
    });
    assert_eq!(r, Some(1));
}

#[test]
fn walk_parents_falls_through_to_parent() {
    let r = walk_parents("a.b.example.com", |d| match d {
        "example.com" => Some("hit"),
        _ => None,
    });
    assert_eq!(r, Some("hit"));
}

#[test]
fn walk_parents_visits_single_label_parent_once() {
    let r = walk_parents("example.com", |d| match d {
        "com" => Some("hit"),
        _ => None,
    });
    assert_eq!(r, Some("hit"));
}

#[test]
fn walk_parents_no_hit() {
    let r = walk_parents("a.b.example.com", |_| None::<()>);
    assert_eq!(r, None);
}

#[test]
fn walk_parents_registered_tld_matches_every_subdomain() {
    let r = walk_parents("deeply.nested.subdomain.example.com", |d| match d {
        "com" => Some("TLD-hit"),
        _ => None,
    });
    assert_eq!(r, Some("TLD-hit"));

    let r = walk_parents("example.com", |d| match d {
        "com" => Some("TLD-hit"),
        _ => None,
    });
    assert_eq!(r, Some("TLD-hit"));

    let r = walk_parents("example.org", |d| match d {
        "com" => Some("TLD-hit"),
        _ => None,
    });
    assert_eq!(r, None);
}
