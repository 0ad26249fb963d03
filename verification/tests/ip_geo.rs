use bench_im::geo::{
    geo_from_record, init_searcher, is_applicant_machine, is_ipv4, is_ipv6, normalize_isp,
    parse_ip, IpSearcher,
};

#[test]
fn test_is_applicant_machine() {
    assert!(is_applicant_machine("北京联通001"));
    assert!(is_applicant_machine("上海电信002"));
    assert!(is_applicant_machine("内蒙古移动010"));
    assert!(!is_applicant_machine("test-server"));
    assert!(!is_applicant_machine("北京联通01"));
    assert!(!is_applicant_machine("北京联通0001"));
}

#[test]
fn test_ip_version_check() {
    assert!(is_ipv4("192.168.1.1"));
    assert!(is_ipv4("1.2.3.4"));
    assert!(!is_ipv4("2001:db8::1"));

    assert!(is_ipv6("2001:db8::1"));
    assert!(is_ipv6("::1"));
    assert!(!is_ipv6("192.168.1.1"));
}

#[test]
fn applicant_names_need_an_accepted_carrier_and_province() {
    assert!(is_applicant_machine("黑龙江省铁通123"));
    assert!(is_applicant_machine("广东广电999"));
    assert!(!is_applicant_machine("北京教育001"));
    assert!(!is_applicant_machine("京联通001"));
    assert!(!is_applicant_machine("北京联通00a"));
    assert!(!is_applicant_machine("Beijing联通001"));
    assert!(!is_applicant_machine(""));
}

#[test]
fn applicant_digits_follow_the_pattern_digit_class() {
    // `\d` is Unicode's decimal digit class.
    assert!(is_applicant_machine("北京联通١٢٣"));
}

#[test]
fn addresses_rejected_by_both_readers() {
    assert!(!is_ipv4("1.2.3"));
    assert!(!is_ipv4("01.2.3.4"));
    assert!(!is_ipv4("256.1.1.1"));
    assert!(!is_ipv6("1:2:3:4:5:6:7"));
    assert!(!is_ipv6(":::1"));
    assert!(is_ipv6("::ffff:1.2.3.4"));
    assert!(is_ipv6("1:2:3:4:5:6:7:8"));
}

#[test]
fn carriers_normalise() {
    assert_eq!(normalize_isp("联通"), "联通");
    assert_eq!(normalize_isp("广电"), "广电");
    assert_eq!(normalize_isp("教育网"), "其他");
    assert_eq!(normalize_isp(""), "其他");
}

#[test]
fn record_fields_are_read() {
    let g = geo_from_record("中国|江苏省|0|联通|CN").unwrap();
    assert_eq!(g.country, "中国");
    assert_eq!(g.province, "江苏省");
    assert_eq!(g.isp, "联通");
    let h = geo_from_record("中国|北京|北京市|鹏博士|CN").unwrap();
    assert_eq!(h.isp, "其他");
    assert!(geo_from_record("中国|江苏省|0|联通").is_none());
}

#[test]
fn searcher_reports_both_load_failures() {
    let v4: Result<ip2region::Searcher, String> = Err("no such file".to_string());
    let v6: Result<ip2region::Searcher, String> = Err("bad header".to_string());
    match init_searcher(v4, v6) {
        Err(msg) => assert_eq!(msg, "Failed to load both databases: IPv4: no such file, IPv6: bad header"),
        Ok(_) => panic!("expected an error"),
    }
}

#[test]
fn lookups_without_databases_find_nothing() {
    let s = IpSearcher { v4: None, v6: None };
    assert!(!s.is_available());
    assert!(parse_ip(&s, "1.2.3.4").is_none());
    assert!(parse_ip(&s, "2001:db8::1").is_none());
    assert!(parse_ip(&s, "not an address").is_none());
}
