use bench_im::application::{count_by_province_isp, generate_machine_name, has_active_application};
use bench_im::dto::MachineRecord;
use bench_im::timing::expired_applicant_ids;
use bench_im::client::{client_token, native_summary, PingData};
use bench_im::forms::PingCreate;
use bench_im::geo::is_applicant_machine;
use bench_im::net::{parse_ip_address, IpRange};
use bench_im::text::chars_of;
use bench_im::timing::round_to_slot;
use bench_im::web::{admin_page_authorized, asset_url, extract_cookie, login_cookie, parse_api_token, static_reply, AssetFile, Assets, StaticReply};

#[test]
fn client_token_reads_back() {
    for (mid, key) in [(1, "abc"), (-7, "k:with:colons"), (2147483647, ""), (-2147483648, "x")] {
        let t = client_token(mid, key);
        assert_eq!(parse_api_token(&t), Some((mid, key.to_string())));
    }
}

#[test]
fn login_cookie_reads_back() {
    for pw in ["pw", "p w", "", "ä-密码"] {
        let set = login_cookie(pw, true);
        let pair = set.split(';').next().unwrap().to_string();
        assert_eq!(pair, format!("admin_token={}", pw));
        let got = extract_cookie(&vec![pair], "admin_token");
        assert_eq!(got, Some(pw.to_string()));
        assert!(admin_page_authorized(&got, pw));
    }
}

#[test]
fn new_names_count_above_and_are_applicants() {
    let mut names: Vec<String> = vec!["北京联通007".to_string()];
    for expected in ["北京联通008", "北京联通009", "北京联通010"] {
        let n = generate_machine_name("北京", "联通", &names);
        assert_eq!(n, expected);
        assert!(is_applicant_machine(&n));
        names.push(n);
    }
    // past 999 the name no longer has three digits
    let n = generate_machine_name("北京", "联通", &vec!["北京联通999".to_string()]);
    assert!(!is_applicant_machine(&n));
}

#[test]
fn client_summaries_pass_the_server_checks() {
    let times: Vec<u16> = vec![1, 1000, 500, 3];
    let d = native_summary(&times, false).unwrap();
    assert_eq!(d, PingData { ipv6: false, min: 1, avg: 376, fail: 16 });
    let form = PingCreate { ipv6: d.ipv6, min: d.min, avg: d.avg, fail: d.fail };
    assert!(form.validate().is_empty());
}

#[test]
fn slots_are_stable() {
    for ts in [0i64, 1, 299, 300, 1_700_000_123, -1, -301] {
        let s = round_to_slot(ts);
        assert_eq!(round_to_slot(s), s);
        assert!(s <= ts && ts < s + 300);
    }
}

#[test]
fn ranges_hold_their_own_address() {
    let a = parse_ip_address(&chars_of("10.1.2.3")).unwrap();
    assert!(IpRange::Single(a).contains(&a));
    let net = IpRange::parse("10.1.2.3/32").unwrap();
    assert!(net.contains(&a));
    assert!(!net.contains(&parse_ip_address(&chars_of("10.1.2.4")).unwrap()));
    let all = IpRange::parse("0.0.0.0/0").unwrap();
    assert!(all.contains(&parse_ip_address(&chars_of("255.255.255.255")).unwrap()));
    assert!(!all.contains(&parse_ip_address(&chars_of("::1")).unwrap()));
}

#[test]
fn asset_urls_carry_the_served_version() {
    let assets = Assets::new(vec![
        AssetFile { path: "js/app.js".to_string(), sha256: [7u8; 32], len: 100 },
        AssetFile { path: "css/app.css".to_string(), sha256: [9u8; 32], len: 50 },
    ])
    .unwrap();
    let versions = assets.versions();
    for path in ["js/app.js", "css/app.css"] {
        let url = asset_url(&versions, path);
        let v = url.split("?v=").nth(1).unwrap().to_string();
        let served = assets.lookup(path);
        assert!(matches!(static_reply(path, served, &Some(v), &None), StaticReply::Content(_, _)));
    }
}

#[test]
fn no_text_is_both_address_versions() {
    use_both_checks(&["1.2.3.4", "::1", "::ffff:1.2.3.4", "1.2.3.4:80", "", "a.b.c.d", "1:2:3:4:5:6:7:8"]);
}

fn use_both_checks(texts: &[&str]) {
    for t in texts {
        assert!(!(bench_im::geo::is_ipv4(t) && bench_im::geo::is_ipv6(t)));
    }
}

fn record(id: i32, name: &str, ip: &str, updated: Option<i64>) -> MachineRecord {
    MachineRecord { id, name: name.to_string(), ip: ip.to_string(), key: "k".to_string(), created: 0, updated }
}

#[test]
fn new_applicants_are_counted() {
    let mut machines = vec![record(1, "北京联通001", "1.1.1.1", Some(10))];
    let before = count_by_province_isp(&machines, "北京", "联通");
    let names: Vec<String> = machines.iter().map(|m| m.name.clone()).collect();
    let name = generate_machine_name("北京", "联通", &names);
    machines.push(record(2, &name, "2.2.2.2", None));
    assert_eq!(count_by_province_isp(&machines, "北京", "联通"), before + 1);
}

#[test]
fn active_applications_are_kept() {
    let machines = vec![record(1, "北京联通001", "1.1.1.1", Some(500)), record(2, "上海电信001", "2.2.2.2", Some(50))];
    assert!(has_active_application(&machines, "1.1.1.1", 100));
    assert_eq!(expired_applicant_ids(&machines, 100), vec![2]);
}
