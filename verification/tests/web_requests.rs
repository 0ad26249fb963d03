use bench_im::dto::Machine;
use bench_im::net::{parse_ip_address, parse_trusted_proxies};
use bench_im::text::chars_of;
use bench_im::web::{
    admin_api_authorized, admin_login_reply, admin_logout_reply, admin_page_authorized,
    api_client_begin, api_client_finish, asset_url, asset_version, client_ip_source,
    client_key_accepted, extract_cookie, extract_ip_from_header, header_client_ip, is_https,
    login_cookie, logout_cookie, lookup_version, parse_api_token, static_reply, AdminAuth,
    AdminUserWeb, ApiClientStep, AssetFile, AssetQuery, Assets, ClientIp, ClientIpSource, StaticReply,
};

fn some(s: &str) -> Option<String> {
    Some(s.to_string())
}

#[test]
fn header_addresses() {
    assert_eq!(extract_ip_from_header(" 1.2.3.4 "), some("1.2.3.4"));
    assert_eq!(extract_ip_from_header("1.2.3.4:8080"), some("1.2.3.4"));
    assert_eq!(extract_ip_from_header("[2001:db8::1]:443"), some("2001:db8::1"));
    assert_eq!(extract_ip_from_header("2001:db8::1"), some("2001:db8::1"));
    assert_eq!(extract_ip_from_header("   "), None);
    assert_eq!(extract_ip_from_header("[broken"), some("[broken"));
}

#[test]
fn forwarded_for_uses_its_last_entry() {
    assert_eq!(header_client_ip(some("9.9.9.9, 10.0.0.1"), some("5.5.5.5")), some("10.0.0.1"));
    assert_eq!(header_client_ip(some(" , "), some("5.5.5.5")), some("5.5.5.5"));
    assert_eq!(header_client_ip(None, some("5.5.5.5:80")), some("5.5.5.5"));
    assert_eq!(header_client_ip(None, None), None);
}

#[test]
fn client_address_sources() {
    let peer = parse_ip_address(&chars_of("10.0.0.2")).unwrap();
    let outsider = parse_ip_address(&chars_of("8.8.8.8")).unwrap();
    let trusted = parse_trusted_proxies("10.0.0.0/8");
    assert!(matches!(client_ip_source(Some(peer), some("1.2.3.4"), &None), ClientIpSource::Peer));
    match client_ip_source(Some(peer), some("1.2.3.4"), &trusted) {
        ClientIpSource::Header(h) => assert_eq!(h, "1.2.3.4"),
        _ => panic!("the header counts from a trusted proxy"),
    }
    assert!(matches!(client_ip_source(Some(outsider), some("1.2.3.4"), &trusted), ClientIpSource::Peer));
    assert!(matches!(client_ip_source(None, None, &trusted), ClientIpSource::Unknown));
    assert!(matches!(client_ip_source(None, some("1.2.3.4"), &None), ClientIpSource::Unknown));

    let ClientIp(ip) = ClientIp::resolve(Some((peer, "10.0.0.2".to_string())), some("1.2.3.4"), &trusted);
    assert_eq!(ip, "1.2.3.4");
    let ClientIp(ip) = ClientIp::resolve(Some((outsider, "8.8.8.8".to_string())), some("1.2.3.4"), &trusted);
    assert_eq!(ip, "8.8.8.8");
    let ClientIp(ip) = ClientIp::resolve(None, None, &None);
    assert_eq!(ip, "");
}

#[test]
fn cookies() {
    let headers = vec!["theme=dark; admin_token=pw1".to_string(), "admin_token=pw2".to_string()];
    assert_eq!(extract_cookie(&headers, "admin_token"), some("pw1"));
    assert_eq!(extract_cookie(&headers, "theme"), some("dark"));
    assert_eq!(extract_cookie(&headers, "missing"), None);
    assert_eq!(extract_cookie(&vec!["x_admin_token=1".to_string()], "admin_token"), None);
    assert_eq!(extract_cookie(&vec![], "admin_token"), None);
}

#[test]
fn admin_authorization() {
    assert!(admin_page_authorized(&some("pw"), "pw"));
    assert!(!admin_page_authorized(&some("PW"), "pw"));
    assert!(!admin_page_authorized(&None, "pw"));
    assert!(admin_api_authorized(&None, &some("pw"), "pw"));
    assert!(!admin_api_authorized(&some("x"), &some("y"), "pw"));
    assert!(matches!(AdminAuth::authorize(&some("pw"), &None, "pw"), Ok(AdminAuth)));
    match AdminAuth::authorize(&None, &None, "pw") {
        Err((401, m)) => assert_eq!(m, "Login required"),
        _ => panic!("expected 401"),
    }
    assert!(matches!(AdminUserWeb::authorize(&some("pw"), "pw"), Ok(AdminUserWeb)));
    match AdminUserWeb::authorize(&some("nope"), "pw") {
        Err((401, page)) => assert!(page.contains("window.location.href='/admin/login'")),
        _ => panic!("expected 401"),
    }
}

#[test]
fn client_tokens() {
    assert_eq!(parse_api_token("12:abc"), Some((12, "abc".to_string())));
    assert_eq!(parse_api_token("x:abc:d"), Some((0, "abc:d".to_string())));
    assert_eq!(parse_api_token("-3:"), Some((-3, String::new())));
    assert_eq!(parse_api_token("noseparator"), None);
    assert!(client_key_accepted("k1", "k1"));
    assert!(!client_key_accepted("k1", "k2"));
}

#[test]
fn client_authentication_steps() {
    match api_client_begin(&None) {
        ApiClientStep::Refuse(m) => assert_eq!(m, "Api token required"),
        _ => panic!(),
    }
    match api_client_begin(&some("token")) {
        ApiClientStep::Refuse(m) => assert_eq!(m, "Invalid API token format"),
        _ => panic!(),
    }
    match api_client_begin(&some("5:key")) {
        ApiClientStep::Lookup(id, key) => assert_eq!((id, key.as_str()), (5, "key")),
        _ => panic!(),
    }
    let m = Machine { id: 5, name: "m".to_string(), ip: "1.1.1.1".to_string(), key: "key".to_string(), created: 0, updated: None };
    match api_client_finish(Some(m), "key") {
        Ok(c) => assert_eq!(c.0.id, 5),
        Err(_) => panic!(),
    }
    let m = Machine { id: 5, name: "m".to_string(), ip: "1.1.1.1".to_string(), key: "key".to_string(), created: 0, updated: None };
    assert!(matches!(api_client_finish(Some(m), "other"), Err((401, _))));
    assert!(matches!(api_client_finish(None, "key"), Err((401, _))));
}

#[test]
fn login_cookies() {
    assert!(!is_https(&None, &None));
    assert!(is_https(&some("https"), &None));
    assert!(is_https(&some("http"), &some("https")));
    assert_eq!(login_cookie("pw", false), "admin_token=pw; Path=/; HttpOnly; SameSite=Strict; ");
    assert_eq!(login_cookie("pw", true), "admin_token=pw; Path=/; HttpOnly; SameSite=Strict; Secure; ");
    assert_eq!(
        logout_cookie(false),
        "admin_token=; Path=/; Expires=Thu, 01 Jan 1970 00:00:00 GMT; HttpOnly; SameSite=Strict; "
    );
    let r = admin_login_reply("pw", "pw", &some("https"), &None);
    assert_eq!((r.status, r.body.as_str()), (200, "Login successful"));
    assert_eq!(r.cookie.unwrap(), "admin_token=pw; Path=/; HttpOnly; SameSite=Strict; Secure; ");
    let r = admin_login_reply("pw", "wrong", &None, &None);
    assert_eq!((r.status, r.body.as_str()), (401, "Invalid password"));
    assert!(r.cookie.is_none());
    let r = admin_logout_reply(&None, &None);
    assert_eq!(r.body, "Logout successful");
    assert!(r.cookie.unwrap().starts_with("admin_token=;"));
}

#[test]
fn asset_versions_and_urls() {
    let mut hash = [0u8; 32];
    hash[0] = 0xa3;
    hash[1] = 0xf2;
    hash[2] = 0xb1;
    hash[3] = 0xc0;
    hash[7] = 0x0f;
    hash[8] = 0xff;
    assert_eq!(asset_version(&hash), "a3f2b1c0");
    let versions = vec![("js/app.js".to_string(), "a3f2b1c0".to_string())];
    assert_eq!(asset_url(&versions, "js/app.js"), "/static/js/app.js?v=a3f2b1c0");
    assert_eq!(asset_url(&versions, "css/site.css"), "/static/css/site.css");
    assert_eq!(lookup_version(&versions, "js/app.js"), some("a3f2b1c0"));
}

#[test]
fn embedded_assets() {
    let assets = Assets::new(vec![
        AssetFile { path: "a.js".to_string(), sha256: [1u8; 32], len: 10 },
        AssetFile { path: "b.css".to_string(), sha256: [0xabu8; 32], len: 20 },
    ])
    .unwrap();
    let v = assets.versions();
    assert_eq!(v[1], ("b.css".to_string(), "abababab".to_string()));
    assert_eq!(assets.lookup("a.js"), Some(("01010101".to_string(), 10)));
    assert_eq!(assets.lookup("c.png"), None);
    assert_eq!(asset_url(&v, "b.css"), "/static/b.css?v=abababab");
    let dup = Assets::new(vec![
        AssetFile { path: "a.js".to_string(), sha256: [1u8; 32], len: 10 },
        AssetFile { path: "a.js".to_string(), sha256: [2u8; 32], len: 11 },
    ]);
    assert!(dup.is_none());
}

#[test]
fn serving_assets() {
    let assets = Assets::new(vec![AssetFile { path: "a.js".to_string(), sha256: [0x12u8; 32], len: 7 }]).unwrap();
    let q = |v: Option<&str>| AssetQuery { v: v.map(|s| s.to_string()) };
    match assets.serve("a.js", &q(Some("12121212")), &None) {
        StaticReply::Content(tag, mime) => {
            assert_eq!(tag, "\"12121212-7\"");
            assert_eq!(mime, "text/javascript");
        }
        _ => panic!("expected the content"),
    }
    assert!(matches!(assets.serve("a.js", &q(None), &some("\"12121212-7\"")), StaticReply::NotModified));
    assert!(matches!(assets.serve("a.js", &q(Some("0000")), &None), StaticReply::VersionMismatch(_)));
    assert!(matches!(assets.serve("b.js", &q(None), &None), StaticReply::NotFound));
}

#[test]
fn static_replies() {
    assert!(matches!(static_reply("a.css", None, &None, &None), StaticReply::NotFound));
    match static_reply("a.css", Some(("abc".to_string(), 12)), &some("old"), &None) {
        StaticReply::VersionMismatch(m) => assert_eq!(m, "Asset version mismatch. Expected: abc, Got: old"),
        _ => panic!(),
    }
    assert!(matches!(
        static_reply("a.css", Some(("abc".to_string(), 12)), &some("abc"), &some("\"abc-12\"")),
        StaticReply::NotModified
    ));
    match static_reply("img/logo.PNG", Some(("abc".to_string(), 12)), &None, &some("\"zzz-1\"")) {
        StaticReply::Content(tag, mime) => {
            assert_eq!(tag, "\"abc-12\"");
            assert_eq!(mime, "image/png");
        }
        _ => panic!(),
    }
    match static_reply("fonts/LICENSE", Some(("abc".to_string(), 12)), &None, &None) {
        StaticReply::Content(_, mime) => assert_eq!(mime, "application/octet-stream"),
        _ => panic!(),
    }
}
