use bench_im::application::ApplicationResult;
use bench_im::config::{Config, EnvSettings};
use bench_im::dto::{self, MachineListItem};
use bench_im::error::ServiceError;
use bench_im::geo::IpSearcher;
use bench_im::pages::{
    apply_page_step, apply_submit_step, AdminMachine, AdminTarget, ApplyAction, ApplyContext,
    ApplyEvent, ApplyPage, DeleteTemplate, Machine, Target,
};

fn ctx(enable_apply: bool) -> ApplyContext {
    ApplyContext {
        site_name: "Bench.im".to_string(),
        ip: "1.2.3.4".to_string(),
        enable_apply,
        machines: vec![MachineListItem { id: 1, name: "m".to_string(), updated: 0 }],
    }
}

fn no_db() -> IpSearcher {
    IpSearcher { v4: None, v6: None }
}

fn dto_target() -> dto::Target {
    dto::Target {
        id: 3,
        name: "dns".to_string(),
        domain: None,
        ipv4: Some("8.8.8.8".to_string()),
        ipv6: None,
        created: 1,
        updated: None,
    }
}

#[test]
fn list_rows() {
    let t = Target::from_dto(&dto_target());
    assert_eq!((t.id, t.name.as_str(), t.updated), (3, "dns", 0));
    let a = AdminTarget::from_dto(&dto_target());
    assert_eq!((a.domain.as_str(), a.ipv4.as_str(), a.ipv6.as_str()), ("", "8.8.8.8", ""));
    let m = dto::Machine { id: 2, name: "n".to_string(), ip: "9.9.9.9".to_string(), key: "k".to_string(), created: 0, updated: Some(5) };
    let am = AdminMachine::from_dto(&m);
    assert_eq!(am.ip, "9.9.9.9");
    let pm = Machine::from_dto(&m);
    assert_eq!((pm.id, pm.name.as_str()), (2, "n"));
}

#[test]
fn delete_confirmations() {
    let d = DeleteTemplate::for_machine("S".to_string(), "m".to_string(), "1.1.1.1".to_string(), vec![], 4, true);
    assert_eq!((d.item_type.as_str(), d.ip.as_str(), d.current_machine_id, d.is_admin), ("机器", "1.1.1.1", 4, true));
    let t = DeleteTemplate::for_target("S".to_string(), "t".to_string(), Some("a.com".to_string()), None, None, vec![], false);
    assert_eq!((t.item_type.as_str(), t.domain.as_str(), t.ipv4.as_str(), t.current_machine_id), ("目标", "a.com", "", 0));
}

#[test]
fn closed_applications_show_the_closed_page() {
    match apply_page_step(ctx(false), &no_db(), ApplyEvent::Opened) {
        ApplyAction::Render(ApplyPage::Disabled(t)) => {
            assert_eq!(t.site_name, "Bench.im");
            assert_eq!(t.machines.len(), 1);
            assert!(!t.is_admin);
        }
        _ => panic!("expected the closed page"),
    }
    assert!(matches!(
        apply_submit_step(ctx(false), &no_db(), ApplyEvent::Opened),
        ApplyAction::Render(ApplyPage::Disabled(_))
    ));
}

#[test]
fn the_form_shows_eligibility() {
    assert!(matches!(apply_page_step(ctx(true), &no_db(), ApplyEvent::Opened), ApplyAction::CheckEligibility));
    let ev = ApplyEvent::Eligibility(Ok(("北京".to_string(), "联通".to_string(), 2)));
    match apply_page_step(ctx(true), &no_db(), ev) {
        ApplyAction::Render(ApplyPage::Form(t)) => {
            assert!(t.eligible);
            assert_eq!((t.province.as_str(), t.isp.as_str(), t.current_count, t.max_count), ("北京", "联通", 2, 3));
            assert_eq!(t.reason, "");
            assert_eq!(t.ip, "1.2.3.4");
        }
        _ => panic!("expected the form"),
    }
    let ev = ApplyEvent::Eligibility(Err(ServiceError::Application("仅支持中国大陆地区申请".to_string())));
    match apply_page_step(ctx(true), &no_db(), ev) {
        ApplyAction::Render(ApplyPage::Form(t)) => {
            assert!(!t.eligible);
            assert_eq!(t.reason, "Application error: 仅支持中国大陆地区申请");
            assert_eq!((t.province.as_str(), t.isp.as_str(), t.current_count), ("", "", 0));
        }
        _ => panic!("expected the form"),
    }
}

#[test]
fn filing_an_application() {
    assert!(matches!(apply_submit_step(ctx(true), &no_db(), ApplyEvent::Opened), ApplyAction::CheckEligibility));
    let ev = ApplyEvent::Eligibility(Ok(("北京".to_string(), "联通".to_string(), 0)));
    match apply_submit_step(ctx(true), &no_db(), ev) {
        ApplyAction::Submit(req) => {
            assert_eq!((req.ip.as_str(), req.province.as_str(), req.isp.as_str()), ("1.2.3.4", "北京", "联通"));
        }
        _ => panic!("expected the filing"),
    }
    let done = ApplicationResult { id: 8, name: "北京联通001".to_string(), key: "K".to_string(), command: "bim".to_string() };
    match apply_submit_step(ctx(true), &no_db(), ApplyEvent::Submitted(Ok(done))) {
        ApplyAction::Render(ApplyPage::Success(t)) => {
            assert_eq!((t.machine_id, t.name.as_str(), t.key.as_str(), t.command.as_str()), (8, "北京联通001", "K", "bim"));
        }
        _ => panic!("expected the success page"),
    }
    let failed = ApplyEvent::Submitted(Err(ServiceError::conflict("dup".to_string())));
    match apply_submit_step(ctx(true), &no_db(), failed) {
        ApplyAction::Render(ApplyPage::Form(t)) => assert_eq!(t.reason, "Conflict: dup"),
        _ => panic!("expected the form"),
    }
}

fn settings() -> EnvSettings {
    EnvSettings {
        listen_address: None,
        admin_password: None,
        site_name: None,
        server_url: None,
        enable_apply: None,
        ip2region_v4_db: None,
        ip2region_v6_db: None,
        trusted_proxies: None,
    }
}

#[test]
fn configuration_defaults() {
    let c = Config::from_settings("sqlite://bench.db".to_string(), settings());
    assert_eq!(c.database_url, "sqlite://bench.db");
    assert_eq!(c.listen_address, "127.0.0.1:3000");
    assert_eq!(c.admin_password, "fake-admin-password");
    assert!(c.uses_default_password());
    assert_eq!(c.site_name, "Bench.im");
    assert_eq!(c.server_url, "https://your-server.fake-url");
    assert!(!c.enable_apply);
    assert_eq!(c.ip2region_v4_path, "server/ip2region_v4.xdb");
    assert_eq!(c.ip2region_v6_path, "server/ip2region_v6.xdb");
    assert!(c.trusted_proxies.is_none());
    assert!(!c.apply_enabled(&no_db()));
}

#[test]
fn configuration_settings() {
    let mut s = settings();
    s.admin_password = Some("s3cret".to_string());
    s.enable_apply = Some("true".to_string());
    s.trusted_proxies = Some("127.0.0.1, 10.0.0.0/8".to_string());
    let c = Config::from_settings("db".to_string(), s);
    assert!(c.verify_admin("s3cret"));
    assert!(!c.verify_admin("fake-admin-password"));
    assert!(!c.uses_default_password());
    assert!(c.enable_apply);
    assert_eq!(c.trusted_proxies.as_ref().map(|v| v.len()), Some(2));
    // applications also need a region database
    assert!(!c.apply_enabled(&no_db()));
    let mut yes = settings();
    yes.enable_apply = Some("TRUE".to_string());
    assert!(!Config::from_settings("db".to_string(), yes).enable_apply);
}
