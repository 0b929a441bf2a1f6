use battle_net::address::{parse_address, parse_input, parse_port};
use battle_net::protocol::DEFAULT_PORT;

#[test]
fn address_with_port() {
    assert_eq!(parse_address("127.0.0.1:4000"), ("127.0.0.1".to_string(), 4000));
}

#[test]
fn address_without_port_uses_default() {
    assert_eq!(parse_address("example.org"), ("example.org".to_string(), DEFAULT_PORT));
    assert_eq!(DEFAULT_PORT, 28528);
}

#[test]
fn unreadable_port_uses_default() {
    assert_eq!(parse_address("host:abc"), ("host".to_string(), DEFAULT_PORT));
    assert_eq!(parse_address("host:70000"), ("host".to_string(), DEFAULT_PORT));
    assert_eq!(parse_address("host:"), ("host".to_string(), DEFAULT_PORT));
    assert_eq!(parse_address("host:12:34"), ("host".to_string(), 12));
}

#[test]
fn ports_read_like_rust() {
    assert_eq!(parse_port("0"), Some(0));
    assert_eq!(parse_port("65535"), Some(65535));
    assert_eq!(parse_port("65536"), None);
    assert_eq!(parse_port("+80"), Some(80));
    assert_eq!(parse_port("+"), None);
    assert_eq!(parse_port(""), None);
    assert_eq!(parse_port("-1"), None);
    assert_eq!(parse_port("8a"), None);
    assert_eq!(parse_port("0000000000000000000080"), Some(80));
    for s in ["0", "1", "443", "+7", "99999", "x", "", "12 "] {
        assert_eq!(parse_port(s), s.parse::<u16>().ok());
    }
}

#[test]
fn input_with_address_and_name() {
    let r = parse_input("  localhost:1234   Red  extra").unwrap();
    assert_eq!(r.host, "localhost");
    assert_eq!(r.port, 1234);
    assert_eq!(r.name, Some("Red".to_string()));
}

#[test]
fn input_with_address_only() {
    let r = parse_input("10.0.0.2\t").unwrap();
    assert_eq!(r.host, "10.0.0.2");
    assert_eq!(r.port, DEFAULT_PORT);
    assert_eq!(r.name, None);
}

#[test]
fn empty_input_gives_nothing() {
    assert!(parse_input("").is_none());
    assert!(parse_input(" \t\r\n").is_none());
}
