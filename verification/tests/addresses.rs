use tcp_proxy::ip::{parse_ip, parse_ipv4, parse_ipv6, IpAddress};
use tcp_proxy::num::{parse_hex_group, parse_ipv4_octet, parse_u16};

#[test]
fn ipv4_literals() {
    assert_eq!(parse_ipv4(b"192.168.0.100"), Some((192, 168, 0, 100)));
    assert_eq!(parse_ipv4(b"0.0.0.0"), Some((0, 0, 0, 0)));
    assert_eq!(parse_ipv4(b"255.255.255.255"), Some((255, 255, 255, 255)));
}

#[test]
fn ipv4_rejects() {
    assert_eq!(parse_ipv4(b"256.0.0.1"), None);
    assert_eq!(parse_ipv4(b"1.2.3"), None);
    assert_eq!(parse_ipv4(b"1.2.3.4.5"), None);
    // A leading zero on a multi-digit octet is refused.
    assert_eq!(parse_ipv4(b"01.2.3.4"), None);
    assert_eq!(parse_ipv4(b"1.2.3."), None);
    assert_eq!(parse_ipv4(b""), None);
    assert_eq!(parse_ipv4(b"1.2.3.x"), None);
}

#[test]
fn ipv6_full_form() {
    assert_eq!(
        parse_ipv6(b"1:2:3:4:5:6:7:8"),
        Some(vec![1, 2, 3, 4, 5, 6, 7, 8])
    );
    assert_eq!(
        parse_ipv6(b"2001:db8:0:0:0:0:0:1"),
        Some(vec![0x2001, 0xdb8, 0, 0, 0, 0, 0, 1])
    );
}

#[test]
fn ipv6_compressed_form() {
    assert_eq!(parse_ipv6(b"::"), Some(vec![0; 8]));
    assert_eq!(parse_ipv6(b"::1"), Some(vec![0, 0, 0, 0, 0, 0, 0, 1]));
    assert_eq!(parse_ipv6(b"1::"), Some(vec![1, 0, 0, 0, 0, 0, 0, 0]));
    assert_eq!(
        parse_ipv6(b"2001:db8::ff"),
        Some(vec![0x2001, 0xdb8, 0, 0, 0, 0, 0, 0xff])
    );
    assert_eq!(
        parse_ipv6(b"1:2:3:4:5:6:7::"),
        Some(vec![1, 2, 3, 4, 5, 6, 7, 0])
    );
}

#[test]
fn ipv6_embedded_ipv4() {
    assert_eq!(
        parse_ipv6(b"::ffff:192.168.0.1"),
        Some(vec![0, 0, 0, 0, 0, 0xffff, 0xc0a8, 0x0001])
    );
    assert_eq!(
        parse_ipv6(b"1:2:3:4:5:6:7.8.9.10"),
        Some(vec![1, 2, 3, 4, 5, 6, 0x0708, 0x090a])
    );
}

#[test]
fn ipv6_rejects() {
    assert_eq!(parse_ipv6(b":::"), None);
    assert_eq!(parse_ipv6(b"1::2::3"), None);
    assert_eq!(parse_ipv6(b"1:2:3:4:5:6:7"), None);
    assert_eq!(parse_ipv6(b"1:2:3:4:5:6:7:8:9"), None);
    assert_eq!(parse_ipv6(b"1:2:3:4:5:6:7:8::"), None);
    assert_eq!(parse_ipv6(b"12345::"), None);
    assert_eq!(parse_ipv6(b"g::"), None);
    assert_eq!(parse_ipv6(b":1::2"), None);
    assert_eq!(parse_ipv6(b"1.2.3.4::"), None);
    assert_eq!(parse_ipv6(b""), None);
}

#[test]
fn ip_dispatch() {
    assert_eq!(
        parse_ip(b"127.0.0.1"),
        Some(IpAddress::V4 { a: 127, b: 0, c: 0, d: 1 })
    );
    assert_eq!(
        parse_ip(b"::1"),
        Some(IpAddress::V6 { g0: 0, g1: 0, g2: 0, g3: 0, g4: 0, g5: 0, g6: 0, g7: 1 })
    );
    assert_eq!(parse_ip(b"localhost"), None);
    assert_eq!(parse_ip(b"[::1]"), None);
}

#[test]
fn u16_parsing() {
    assert_eq!(parse_u16(b"0"), Some(0));
    assert_eq!(parse_u16(b"80"), Some(80));
    assert_eq!(parse_u16(b"0080"), Some(80));
    assert_eq!(parse_u16(b"+80"), Some(80));
    assert_eq!(parse_u16(b"65535"), Some(65535));
    assert_eq!(parse_u16(b"65536"), None);
    assert_eq!(parse_u16(b"999999999999999999999"), None);
    assert_eq!(parse_u16(b""), None);
    assert_eq!(parse_u16(b"+"), None);
    assert_eq!(parse_u16(b"-1"), None);
    assert_eq!(parse_u16(b"8x"), None);
}

#[test]
fn octets_and_groups() {
    assert_eq!(parse_ipv4_octet(b"0"), Some(0));
    assert_eq!(parse_ipv4_octet(b"255"), Some(255));
    assert_eq!(parse_ipv4_octet(b"256"), None);
    assert_eq!(parse_ipv4_octet(b"00"), None);
    assert_eq!(parse_hex_group(b"ffff"), Some(0xffff));
    assert_eq!(parse_hex_group(b"DB8"), Some(0xdb8));
    assert_eq!(parse_hex_group(b"00000"), None);
    assert_eq!(parse_hex_group(b""), None);
}
