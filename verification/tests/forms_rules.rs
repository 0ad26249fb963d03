use bench_im::forms::{
    validate_domain, validate_ip, validate_ipv4, validate_ipv6, CreateMachineRequest,
    CreatePingRequest, FieldIssue, MachineCreateAdmin, PingCreate, PingFilter, TargetCreateAdmin,
};

fn codes(v: &[FieldIssue]) -> Vec<(String, String)> {
    v.iter().map(|i| (i.field.clone(), i.code.clone())).collect()
}

#[test]
fn address_fields() {
    assert!(validate_ip("10.0.0.1"));
    assert!(validate_ip("fe80::1"));
    assert!(!validate_ip("10.0.0"));
    assert!(validate_ipv4("8.8.8.8"));
    assert!(!validate_ipv4("::1"));
    assert!(validate_ipv6("::1"));
    assert!(!validate_ipv6("8.8.8.8"));
}

#[test]
fn domain_names() {
    assert!(validate_domain("example.com"));
    assert!(validate_domain("a-b.c1.org"));
    assert!(validate_domain("localhost"));
    assert!(!validate_domain("-bad.com"));
    assert!(!validate_domain("bad-.com"));
    assert!(!validate_domain("a..b"));
    assert!(!validate_domain("example.com."));
    assert!(!validate_domain(""));
    assert!(!validate_domain("ex_ample.com"));
    let long_label = "a".repeat(64);
    assert!(!validate_domain(&format!("{}.com", long_label)));
    let max_label = "a".repeat(63);
    assert!(validate_domain(&format!("{}.com", max_label)));
}

#[test]
fn ping_reports() {
    let ok = PingCreate { ipv6: false, min: 10, avg: 20, fail: 0 };
    assert!(ok.validate().is_empty());
    let bad = PingCreate { ipv6: false, min: 0, avg: 1001, fail: 21 };
    assert_eq!(
        codes(&bad.validate()),
        vec![
            ("min".to_string(), "range".to_string()),
            ("avg".to_string(), "range".to_string()),
            ("fail".to_string(), "range".to_string()),
        ]
    );
    let inverted = CreatePingRequest { ipv6: true, min: 30, avg: 20, fail: 0 };
    assert_eq!(
        codes(&inverted.validate()),
        vec![("__all__".to_string(), "min_cannot_exceed_avg".to_string())]
    );
    // the schema rule is only checked once the fields pass
    let both = CreatePingRequest { ipv6: true, min: 30, avg: 20, fail: 25 };
    assert_eq!(codes(&both.validate()), vec![("fail".to_string(), "range".to_string())]);
}

#[test]
fn ping_filter_defaults_to_ipv4() {
    assert!(!PingFilter { ipv6: None }.wants_ipv6());
    assert!(!PingFilter { ipv6: Some(false) }.wants_ipv6());
    assert!(PingFilter { ipv6: Some(true) }.wants_ipv6());
}

#[test]
fn machine_forms() {
    let ok = MachineCreateAdmin { name: "m1".to_string(), ip: "1.2.3.4".to_string(), key: "k".to_string() };
    assert!(ok.validate().is_empty());
    let bad = CreateMachineRequest { name: String::new(), ip: "nope".to_string(), key: String::new() };
    let issues = bad.validate();
    assert_eq!(
        codes(&issues),
        vec![
            ("name".to_string(), "length".to_string()),
            ("ip".to_string(), "invalid_ip".to_string()),
            ("key".to_string(), "length".to_string()),
        ]
    );
    assert_eq!(issues[1].message.as_deref(), Some("必须是有效的IPv4或IPv6地址"));
    let empty_ip = CreateMachineRequest { name: "x".to_string(), ip: String::new(), key: "k".to_string() };
    assert_eq!(
        codes(&empty_ip.validate()),
        vec![("ip".to_string(), "length".to_string()), ("ip".to_string(), "invalid_ip".to_string())]
    );
}

#[test]
fn target_forms() {
    let ok = TargetCreateAdmin {
        name: "Google".to_string(),
        domain: Some("google.com".to_string()),
        ipv4: None,
        ipv6: Some("2001:4860:4860::8888".to_string()),
    };
    assert!(ok.validate().is_empty());
    let bad = TargetCreateAdmin {
        name: "x".repeat(101),
        domain: Some("bad_domain".to_string()),
        ipv4: Some("1.2.3.4.5.6.7.8.9".to_string()),
        ipv6: Some("1.2.3.4".to_string()),
    };
    assert_eq!(
        codes(&bad.validate()),
        vec![
            ("name".to_string(), "length".to_string()),
            ("domain".to_string(), "invalid_domain".to_string()),
            ("ipv4".to_string(), "length".to_string()),
            ("ipv4".to_string(), "invalid_ipv4".to_string()),
            ("ipv6".to_string(), "invalid_ipv6".to_string()),
        ]
    );
}
