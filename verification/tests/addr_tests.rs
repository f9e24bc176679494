//! Tests for the textual address grammar.

use ip_sniffer::addr::parse_ip_addr;
use ip_sniffer::IpAddress;

#[test]
fn ipv4_valid_forms() {
    assert_eq!(parse_ip_addr("127.0.0.1"), Some(IpAddress::V4(127, 0, 0, 1)));
    assert_eq!(parse_ip_addr("0.0.0.0"), Some(IpAddress::V4(0, 0, 0, 0)));
    assert_eq!(parse_ip_addr("255.255.255.255"), Some(IpAddress::V4(255, 255, 255, 255)));
    assert_eq!(parse_ip_addr("192.168.10.250"), Some(IpAddress::V4(192, 168, 10, 250)));
}

#[test]
fn ipv4_invalid_forms() {
    assert_eq!(parse_ip_addr(""), None);
    assert_eq!(parse_ip_addr("1.2.3"), None);
    assert_eq!(parse_ip_addr("1.2.3.4.5"), None);
    assert_eq!(parse_ip_addr("256.0.0.1"), None);
    assert_eq!(parse_ip_addr("01.2.3.4"), None);
    assert_eq!(parse_ip_addr("1..2.3"), None);
    assert_eq!(parse_ip_addr("1.2.3.4 "), None);
    assert_eq!(parse_ip_addr("a.b.c.d"), None);
    assert_eq!(parse_ip_addr("1.2.3.-4"), None);
}

#[test]
fn ipv6_valid_forms() {
    assert_eq!(parse_ip_addr("::1"), Some(IpAddress::V6(0, 0, 0, 0, 0, 0, 0, 1)));
    assert_eq!(parse_ip_addr("::"), Some(IpAddress::V6(0, 0, 0, 0, 0, 0, 0, 0)));
    assert_eq!(parse_ip_addr("1:2:3:4:5:6:7:8"), Some(IpAddress::V6(1, 2, 3, 4, 5, 6, 7, 8)));
    assert_eq!(
        parse_ip_addr("2001:db8::8a2e:370:7334"),
        Some(IpAddress::V6(0x2001, 0xdb8, 0, 0, 0, 0x8a2e, 0x370, 0x7334))
    );
    assert_eq!(parse_ip_addr("fe80::"), Some(IpAddress::V6(0xfe80, 0, 0, 0, 0, 0, 0, 0)));
    assert_eq!(
        parse_ip_addr("1:2:3:4:5:6:7::"),
        Some(IpAddress::V6(1, 2, 3, 4, 5, 6, 7, 0))
    );
    assert_eq!(
        parse_ip_addr("::ffff:192.168.0.1"),
        Some(IpAddress::V6(0, 0, 0, 0, 0, 0xffff, 0xc0a8, 0x0001))
    );
    assert_eq!(
        parse_ip_addr("1:2:3:4:5:6:77.77.88.88"),
        Some(IpAddress::V6(1, 2, 3, 4, 5, 6, 0x4d4d, 0x5858))
    );
    assert_eq!(
        parse_ip_addr("ABCD:ef01::9"),
        Some(IpAddress::V6(0xabcd, 0xef01, 0, 0, 0, 0, 0, 9))
    );
}

#[test]
fn ipv6_invalid_forms() {
    assert_eq!(parse_ip_addr(":"), None);
    assert_eq!(parse_ip_addr(":::"), None);
    assert_eq!(parse_ip_addr("1::2::3"), None);
    assert_eq!(parse_ip_addr("1:2:3:4:5:6:7"), None);
    assert_eq!(parse_ip_addr("1:2:3:4:5:6:7:8:9"), None);
    assert_eq!(parse_ip_addr("1:2:3:4:5:6:7:8::"), None);
    assert_eq!(parse_ip_addr("12345::"), None);
    assert_eq!(parse_ip_addr("1:2"), None);
    assert_eq!(parse_ip_addr(":1:2:3:4:5:6:7"), None);
    assert_eq!(parse_ip_addr("1:2:3:4:5:6:7:"), None);
    assert_eq!(parse_ip_addr("::1.2.3.4.5"), None);
    assert_eq!(parse_ip_addr("1.2.3.4::"), None);
    assert_eq!(parse_ip_addr("g::1"), None);
    assert_eq!(parse_ip_addr("fe80::%eth0"), None);
}

#[test]
fn plain_words_are_no_address() {
    assert_eq!(parse_ip_addr("localhost"), None);
    assert_eq!(parse_ip_addr("notanip"), None);
}
