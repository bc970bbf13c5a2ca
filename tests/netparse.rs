use netparse::{parse_host, parse_ip, Ipv4Addr, SocketAddrV4};

fn construct_expected(ok: bool, a: u8, b: u8, c: u8, d: u8, port: u16) -> Result<SocketAddrV4, ()> {
    if ok {
        Ok(SocketAddrV4::new(Ipv4Addr::new(a, b, c, d), port))
    } else {
        Err(())
    }
}

#[test]
fn test_ip_parse_basic() {
    assert_eq!(parse_ip("1.2.3.4"), Ok(Ipv4Addr::new(1, 2, 3, 4)));
}

#[test]
fn test_ip_parse_fails() {
    assert_eq!(parse_ip("1..3.4"), Err(()));
}

#[test]
fn test_ip_parse_single_octet() {
    assert_eq!(parse_ip("1"), Ok(Ipv4Addr::new(0, 0, 0, 1)));
}

#[test]
fn test_ip_parse_two_octets() {
    assert_eq!(parse_ip("1.2"), Ok(Ipv4Addr::new(1, 0, 0, 2)));
}

#[test]
fn test_ip_parse_three_octets() {
    assert_eq!(parse_ip("1.2.3"), Ok(Ipv4Addr::new(1, 0, 2, 3)));
}

#[test]
fn test_host_parse_basic() {
    let expect = construct_expected(true, 1, 2, 3, 4, 5678);
    assert_eq!(parse_host("1.2.3.4:5678"), expect);
}

#[test]
fn test_host_parse_no_port_and_colon() {
    let expect = construct_expected(true, 1, 2, 3, 4, 0);
    assert_eq!(parse_host("1.2.3.4"), expect);
}

#[test]
fn test_host_parse_bad_ip() {
    let expect = construct_expected(false, 0, 0, 0, 0, 0);
    assert_eq!(parse_host("asdf:5678"), expect);
}

#[test]
fn test_host_parse_bad_ip_overflow() {
    let expect = construct_expected(false, 0, 0, 0, 0, 0);
    assert_eq!(parse_host("365.1.2.3:5678"), expect);
}

#[test]
fn test_host_parse_bad_port() {
    let expect = construct_expected(false, 0, 0, 0, 0, 0);
    assert_eq!(parse_host("365.1.2.3:asdf"), expect);
}

#[test]
fn test_host_parse_bad_port_overflow() {
    let expect = construct_expected(false, 0, 0, 0, 0, 0);
    assert_eq!(parse_host("365.1.2.3:88888"), expect);
}
