//! Addresses.
use mhost::net::{is_local_resolver, IpAddr, Ipv4Addr, Ipv6Addr, SocketAddr};

fn text(s: &str) -> Option<String> {
    IpAddr::parse_text(s).map(|ip| ip.to_text())
}

#[test]
fn addresses_are_written_as_they_are_read() {
    for (input, output) in [
        ("127.0.0.1", "127.0.0.1"),
        ("0.0.0.0", "0.0.0.0"),
        ("255.255.255.255", "255.255.255.255"),
        ("::", "::"),
        ("::1", "::1"),
        ("1::", "1::"),
        ("2001:db8::1", "2001:db8::1"),
        ("2001:DB8:0:0:0:0:0:1", "2001:db8::1"),
        ("1:0:0:2:0:0:0:3", "1:0:0:2::3"),
        ("1:0:0:2:0:0:3:4", "1::2:0:0:3:4"),
        ("1:2:3:4:5:6:7:8", "1:2:3:4:5:6:7:8"),
        ("1:0:3:4:5:6:7:8", "1:0:3:4:5:6:7:8"),
        ("::ffff:1.2.3.4", "::ffff:1.2.3.4"),
        ("::ffff:102:304", "::ffff:1.2.3.4"),
        ("64:ff9b::1.2.3.4", "64:ff9b::102:304"),
        ("::1.2.3.4", "::102:304"),
    ] {
        assert_eq!(text(input), Some(output.to_string()), "{}", input);
    }
}

#[test]
fn other_texts_are_no_addresses() {
    for input in [
        "",
        "1.2.3",
        "1.2.3.4.5",
        "256.1.1.1",
        "01.2.3.4",
        "1.2.3.4 ",
        " 1.2.3.4",
        "1..2.3",
        ":",
        ":::",
        "1:2:3:4:5:6:7",
        "1:2:3:4:5:6:7:8:9",
        "12345::",
        "::g",
        "1::2::3",
        "[::1]",
        "::1%1",
        "localhost",
        "1.2.3.4::",
    ] {
        assert_eq!(text(input), None, "{}", input);
    }
}

#[test]
fn addresses_parse_like_any_text() {
    assert_eq!("1.2.3.4".parse::<IpAddr>().unwrap(), IpAddr::V4(Ipv4Addr::new(1, 2, 3, 4)));
    assert_eq!(
        "1:2:3:4:5:6:7:8".parse::<IpAddr>().unwrap(),
        IpAddr::V6(Ipv6Addr::new(1, 2, 3, 4, 5, 6, 7, 8))
    );
    assert!("x".parse::<IpAddr>().is_err());
}

#[test]
fn sockets_have_a_port() {
    let a = SocketAddr::parse_text("10.0.0.1:53").unwrap();
    assert_eq!(a.port, 53);
    assert_eq!(a.ip.to_text(), "10.0.0.1");
    assert_eq!(a.to_text(), "10.0.0.1:53");
    let b = SocketAddr::parse_text("[fe80::1%7]:5353").unwrap();
    assert_eq!(b.scope_id, 7);
    assert_eq!(b.to_text(), "[fe80::1%7]:5353");
    let c = SocketAddr::parse_text("[::1]:1").unwrap();
    assert_eq!(c.to_text(), "[::1]:1");
    for bad in ["10.0.0.1", "10.0.0.1:", "10.0.0.1:65536", "::1:53", "[::1]", "[::1]53", ":53"] {
        assert!(SocketAddr::parse_text(bad).is_none(), "{}", bad);
    }
}

#[test]
fn which_addresses_are_this_machine() {
    for local in ["127.9.9.9", "::1", "::", "0.0.0.0", "[::]:53", "127.0.0.1:53"] {
        assert!(is_local_resolver(local), "{}", local);
    }
    for other in ["::ffff:127.0.0.1", "128.0.0.1", "0.0.0.1", "::2", "Empty", "::1:53"] {
        assert!(!is_local_resolver(other), "{}", other);
    }
}

#[test]
fn addresses_have_an_order() {
    let a: IpAddr = "9.9.9.9".parse().unwrap();
    let b: IpAddr = "10.0.0.0".parse().unwrap();
    let c: IpAddr = "::".parse().unwrap();
    assert!(a.is_before(&b));
    assert!(!b.is_before(&a));
    assert!(b.is_before(&c));
    assert!(!a.is_before(&a));
}
