use netparse::{normalize, parse_host, parse_ip, Ipv4Addr, SocketAddrV4};

#[test]
fn four_components_keep_their_order() {
    assert_eq!(parse_ip("10.200.0.255"), Ok(Ipv4Addr::new(10, 200, 0, 255)));
    assert_eq!(parse_ip("0.0.0.0"), Ok(Ipv4Addr::new(0, 0, 0, 0)));
    assert_eq!(parse_ip("255.255.255.255"), Ok(Ipv4Addr::new(255, 255, 255, 255)));
}

#[test]
fn component_over_255_fails() {
    assert_eq!(parse_ip("1.2.3.256"), Err(()));
    assert_eq!(parse_ip("256"), Err(()));
}

#[test]
fn non_numeric_component_fails() {
    assert_eq!(parse_ip("1.a.3.4"), Err(()));
    assert_eq!(parse_ip("1.2.3.-4"), Err(()));
    assert_eq!(parse_ip(" 1.2.3.4"), Err(()));
    assert_eq!(parse_ip("1.2.3.4."), Err(()));
    assert_eq!(parse_ip("\u{ff11}.2.3.4"), Err(()));
}

#[test]
fn more_than_four_components_fail() {
    assert_eq!(parse_ip("1.2.3.4.5"), Err(()));
}

#[test]
fn empty_address_fails() {
    assert_eq!(parse_ip(""), Err(()));
    assert_eq!(parse_host(""), Err(()));
}

#[test]
fn leading_zeros_and_plus_sign_are_decimal() {
    assert_eq!(parse_ip("001.002.003.004"), Ok(Ipv4Addr::new(1, 2, 3, 4)));
    assert_eq!(parse_ip("+1.2.3.4"), Ok(Ipv4Addr::new(1, 2, 3, 4)));
    assert_eq!(parse_ip("+.2.3.4"), Err(()));
    assert_eq!(parse_host("1.2.3.4:+80"), Ok(SocketAddrV4::new(Ipv4Addr::new(1, 2, 3, 4), 80)));
}

#[test]
fn port_bounds() {
    assert_eq!(
        parse_host("1.2.3.4:65535"),
        Ok(SocketAddrV4::new(Ipv4Addr::new(1, 2, 3, 4), 65535))
    );
    assert_eq!(parse_host("1.2.3.4:0"), Ok(SocketAddrV4::new(Ipv4Addr::new(1, 2, 3, 4), 0)));
    assert_eq!(parse_host("1.2.3.4:65536"), Err(()));
}

#[test]
fn host_with_short_address() {
    assert_eq!(parse_host("1.2.3:22"), Ok(SocketAddrV4::new(Ipv4Addr::new(1, 0, 2, 3), 22)));
    assert_eq!(parse_host("7"), Ok(SocketAddrV4::new(Ipv4Addr::new(0, 0, 0, 7), 0)));
}

#[test]
fn more_than_one_colon_fails() {
    assert_eq!(parse_host("1.2.3.4:5:6"), Err(()));
    assert_eq!(parse_host("1.2.3.4::"), Err(()));
}

#[test]
fn empty_address_or_port_around_colon_fails() {
    assert_eq!(parse_host(":5678"), Err(()));
    assert_eq!(parse_host("1.2.3.4:"), Err(()));
}

#[test]
fn normalize_places_components() {
    assert_eq!(normalize(&[9]), Ipv4Addr::new(0, 0, 0, 9));
    assert_eq!(normalize(&[9, 8]), Ipv4Addr::new(9, 0, 0, 8));
    assert_eq!(normalize(&[9, 8, 7]), Ipv4Addr::new(9, 0, 8, 7));
    assert_eq!(normalize(&[9, 8, 7, 6]), Ipv4Addr::new(9, 8, 7, 6));
}

#[test]
fn canonical_text() {
    assert_eq!(Ipv4Addr::new(10, 0, 200, 5).to_string(), "10.0.200.5");
    assert_eq!(Ipv4Addr::new(255, 1, 99, 100).to_string(), "255.1.99.100");
    assert_eq!(
        SocketAddrV4::new(Ipv4Addr::new(1, 2, 3, 4), 65535).to_string(),
        "1.2.3.4:65535"
    );
    assert_eq!(SocketAddrV4::new(Ipv4Addr::new(0, 0, 0, 0), 0).to_string(), "0.0.0.0:0");
}

#[test]
fn ip_canonical_text_parses_back() {
    let ip = parse_ip("001.2.+30").unwrap();
    assert_eq!(ip, Ipv4Addr::new(1, 0, 2, 30));
    assert_eq!(ip.to_string(), "1.0.2.30");
    assert_eq!(parse_ip(&ip.to_string()), Ok(ip));
}

#[test]
fn host_canonical_text_parses_back() {
    let h = parse_host("010.7:0080").unwrap();
    assert_eq!(h.to_string(), "10.0.0.7:80");
    assert_eq!(parse_host(&h.to_string()), Ok(h));
}

#[test]
fn accessors() {
    let h = SocketAddrV4::new(Ipv4Addr::new(4, 3, 2, 1), 443);
    assert_eq!(h.ip(), Ipv4Addr::new(4, 3, 2, 1));
    assert_eq!(h.port(), 443);
    assert_eq!(h.ip().octets(), [4, 3, 2, 1]);
}
