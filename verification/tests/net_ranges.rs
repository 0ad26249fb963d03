use bench_im::net::{
    is_trusted_proxy, parse_ip_address, parse_ipv4, parse_ipv6, parse_trusted_proxies, IpAddress,
    IpRange,
};
use bench_im::text::chars_of;

fn addr(s: &str) -> IpAddress {
    parse_ip_address(&chars_of(s)).unwrap()
}

#[test]
fn ipv4_text_reads_as_octets() {
    assert_eq!(parse_ipv4(&chars_of("192.168.1.20")), Some([192, 168, 1, 20]));
    assert_eq!(parse_ipv4(&chars_of("0.0.0.0")), Some([0, 0, 0, 0]));
    assert_eq!(parse_ipv4(&chars_of("1.2.3.04")), None);
    assert_eq!(parse_ipv4(&chars_of("1.2.3.4.")), None);
    assert_eq!(parse_ipv4(&chars_of("1.2.3.256")), None);
}

#[test]
fn ipv6_text_reads_as_groups() {
    assert_eq!(parse_ipv6(&chars_of("::1")), Some([0, 0, 0, 0, 0, 0, 0, 1]));
    assert_eq!(
        parse_ipv6(&chars_of("2001:db8::8:800:200c:417a")),
        Some([0x2001, 0xdb8, 0, 0, 0x8, 0x800, 0x200c, 0x417a])
    );
    assert_eq!(parse_ipv6(&chars_of("::")), Some([0; 8]));
    assert_eq!(
        parse_ipv6(&chars_of("::ffff:10.0.0.1")),
        Some([0, 0, 0, 0, 0, 0xffff, 0x0a00, 0x0001])
    );
    assert_eq!(parse_ipv6(&chars_of("1::2::3")), None);
    assert_eq!(parse_ipv6(&chars_of("12345::")), None);
}

#[test]
fn single_address_ranges() {
    let r: IpRange = "10.0.0.1".parse().unwrap();
    assert!(r.contains(&addr("10.0.0.1")));
    assert!(!r.contains(&addr("10.0.0.2")));
    assert!(!r.contains(&addr("::1")));
}

#[test]
fn network_ranges_use_ipnet() {
    let r = IpRange::parse("10.0.0.0/8").unwrap();
    assert!(r.contains(&addr("10.255.3.4")));
    assert!(!r.contains(&addr("11.0.0.1")));
    let r6 = IpRange::parse("2001:db8::/32").unwrap();
    assert!(r6.contains(&addr("2001:db8:ffff::1")));
    assert!(!r6.contains(&addr("2001:db9::1")));
    let odd = IpRange::parse("192.168.0.0/23").unwrap();
    assert!(odd.contains(&addr("192.168.1.255")));
    assert!(!odd.contains(&addr("192.168.2.0")));
}

#[test]
fn range_errors_name_the_text() {
    assert_eq!(
        IpRange::parse("10.0.0.0/33").err().unwrap(),
        "Invalid CIDR 10.0.0.0/33: invalid IP address syntax"
    );
    assert_eq!(
        IpRange::parse("proxy.local").err().unwrap(),
        "Invalid IP proxy.local: invalid IP address syntax"
    );
}

#[test]
fn trusted_proxy_setting() {
    let list = parse_trusted_proxies(" 127.0.0.1, 10.0.0.0/8 ,, bad, ::1 ").unwrap();
    assert_eq!(list.len(), 3);
    assert!(is_trusted_proxy(&addr("127.0.0.1"), &list));
    assert!(is_trusted_proxy(&addr("10.1.2.3"), &list));
    assert!(is_trusted_proxy(&addr("::1"), &list));
    assert!(!is_trusted_proxy(&addr("192.168.0.1"), &list));
    assert!(parse_trusted_proxies("   ").is_none());
    assert!(parse_trusted_proxies("bad, worse").is_none());
}
