use swarm_proxy::net::{parse_ipv4, Ipv4};

#[test]
fn wildcard_address_parses() {
    assert_eq!(parse_ipv4("0.0.0.0"), Some(Ipv4::new(0, 0, 0, 0)));
}

#[test]
fn loopback_parses() {
    assert_eq!(parse_ipv4("127.0.0.1"), Some(Ipv4::new(127, 0, 0, 1)));
}

#[test]
fn extreme_octets_parse() {
    assert_eq!(parse_ipv4("255.255.255.255"), Some(Ipv4::new(255, 255, 255, 255)));
}

#[test]
fn out_of_range_octet_rejected() {
    assert_eq!(parse_ipv4("256.0.0.1"), None);
}

#[test]
fn wrong_shape_rejected() {
    assert_eq!(parse_ipv4("1.2.3"), None);
    assert_eq!(parse_ipv4("1.2.3.4.5"), None);
    assert_eq!(parse_ipv4(""), None);
    assert_eq!(parse_ipv4("a.b.c.d"), None);
}

#[test]
fn leading_zero_rejected() {
    assert_eq!(parse_ipv4("01.2.3.4"), None);
    assert_eq!(parse_ipv4("1.2.3.04"), None);
}
