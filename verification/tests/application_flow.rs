use bench_im::application::highest_sequence;
use bench_im::application::{
    admit_applicant, application_result, count_by_province_isp, eligibility_screen,
    eligibility_verdict, find_text, generate_machine_name, generate_random_key,
    has_active_application, screen_applicant, screen_located, ApplicationService, ApplyError,
    MAX_APPLICANTS,
};
use bench_im::dto::MachineRecord;
use bench_im::error::ServiceError;
use bench_im::geo::{IpGeoInfo, IpSearcher};
use bench_im::text::chars_of;

fn geo(country: &str, province: &str, isp: &str) -> Option<IpGeoInfo> {
    Some(IpGeoInfo { country: country.to_string(), province: province.to_string(), isp: isp.to_string() })
}

fn app_message(e: ServiceError) -> String {
    match e {
        ServiceError::Application(m) => m,
        _ => panic!("expected an application error"),
    }
}

fn rec(name: &str, ip: &str, updated: Option<i64>) -> MachineRecord {
    MachineRecord { id: 1, name: name.to_string(), ip: ip.to_string(), key: "k".to_string(), created: 0, updated }
}

#[test]
fn screening() {
    assert_eq!(screen_applicant(geo("中国", "北京", "联通")), Ok(("北京".to_string(), "联通".to_string())));
    assert_eq!(screen_applicant(geo("美国", "加州", "联通")), Err(ApplyError::NotInChina));
    assert_eq!(screen_applicant(geo("中国", "北京", "其他")), Err(ApplyError::IspNotSupported));
    assert_eq!(screen_applicant(None), Err(ApplyError::ParseFailed));
    assert_eq!(app_message(screen_located(None).unwrap_err()), "IP解析失败");
    assert_eq!(app_message(screen_located(geo("日本", "东京", "联通")).unwrap_err()), "仅支持中国大陆地区申请");
}

#[test]
fn admission() {
    assert_eq!(MAX_APPLICANTS, 3);
    assert_eq!(admit_applicant(false, 2), Ok(2));
    assert_eq!(admit_applicant(false, 3), Err(ApplyError::ProvinceFull));
    assert_eq!(admit_applicant(true, 0), Err(ApplyError::IpAlreadyApplied));
    let ok = match eligibility_verdict("北京".to_string(), "联通".to_string(), false, 1) {
        Ok(v) => v,
        Err(_) => panic!("expected eligibility"),
    };
    assert_eq!(ok, ("北京".to_string(), "联通".to_string(), 1));
    let full = eligibility_verdict("北京".to_string(), "联通".to_string(), false, 3).unwrap_err();
    assert_eq!(app_message(full), "该地区该运营商申请人数已达上限（3/3）");
    let dup = eligibility_verdict("北京".to_string(), "联通".to_string(), true, 3).unwrap_err();
    assert_eq!(app_message(dup), "该IP已有有效申请，请勿重复申请");
}

#[test]
fn refusal_texts() {
    assert_eq!(ApplyError::NotInChina.message(), "仅支持中国大陆地区申请");
    assert_eq!(ApplyError::IspNotSupported.message(), "当前仅支持联通、电信、移动、铁通、广电运营商");
    assert_eq!(ApplyError::ProvinceFull.message(), "该地区该运营商申请人数已达上限");
    assert_eq!(ApplyError::DatabaseError.message(), "数据库错误");
    assert_eq!(app_message(ApplyError::ProvinceFull.to_service_error(4)), "该地区该运营商申请人数已达上限（4/3）");
}

#[test]
fn eligibility_without_databases() {
    let s = IpSearcher { v4: None, v6: None };
    assert_eq!(app_message(eligibility_screen(&s, "1.2.3.4").unwrap_err()), "IP解析失败");
}

#[test]
fn machine_names_count_up() {
    let none: Vec<String> = vec![];
    assert_eq!(generate_machine_name("北京", "联通", &none), "北京联通001");
    let some = vec!["北京联通001".to_string(), "北京联通003".to_string(), "北京联通abc".to_string(), "上海电信009".to_string()];
    assert_eq!(generate_machine_name("北京", "联通", &some), "北京联通004");
    let big = vec!["广东移动999".to_string()];
    assert_eq!(generate_machine_name("广东", "移动", &big), "广东移动1000");
    let neg = vec!["广东移动-5".to_string()];
    assert_eq!(generate_machine_name("广东", "移动", &neg), "广东移动-04");
}

#[test]
fn keys_are_43_url_safe_characters() {
    let a = generate_random_key();
    let b = generate_random_key();
    assert_eq!(a.len(), 43);
    assert!(a.chars().all(|c| c.is_ascii_alphanumeric() || c == '-' || c == '_'));
    assert_ne!(a, b);
}

#[test]
fn accepted_applicants_get_a_command() {
    let r = application_result(12, "北京联通001".to_string(), "KEY".to_string(), "https://bench.im");
    assert_eq!(r.id, 12);
    assert_eq!(r.command, "bim -m 12 \\\n  -t KEY \\\n  -s https://bench.im");
}

#[test]
fn records_consulted() {
    let machines = vec![
        rec("北京联通001", "1.1.1.1", Some(1000)),
        rec("北京联通002", "2.2.2.2", Some(10)),
        rec("my-server", "3.3.3.3", Some(1000)),
        rec("北京联通003", "4.4.4.4", None),
        rec("上海电信001", "5.5.5.5", Some(1000)),
    ];
    assert!(has_active_application(&machines, "1.1.1.1", 100));
    assert!(!has_active_application(&machines, "2.2.2.2", 100));
    assert!(!has_active_application(&machines, "3.3.3.3", 100));
    assert!(!has_active_application(&machines, "4.4.4.4", 100));
    assert!(!has_active_application(&machines, "9.9.9.9", 100));
    assert_eq!(count_by_province_isp(&machines, "北京", "联通"), 3);
    assert_eq!(count_by_province_isp(&machines, "上海", "电信"), 1);
    assert_eq!(count_by_province_isp(&machines, "广东", "移动"), 0);
    assert!(find_text(&chars_of("abcde"), &chars_of("cd")));
    assert!(!find_text(&chars_of("abcde"), &chars_of("dc")));
    assert!(find_text(&chars_of("abc"), &chars_of("")));
}

#[test]
fn applicant_names_through_the_service() {
    assert!(ApplicationService::is_applicant_machine("北京联通001"));
    assert!(!ApplicationService::is_applicant_machine("北京联通1"));
}

#[test]
fn highest_sequence_in_use() {
    let names = vec!["北京联通002".to_string(), "北京联通010".to_string(), "北京电信099".to_string()];
    assert_eq!(highest_sequence("北京", "联通", &names), Some(10));
    assert_eq!(highest_sequence("上海", "联通", &names), None);
    assert_eq!(highest_sequence("北京", "联通", &vec!["北京联通+7".to_string()]), Some(7));
}

#[test]
fn pending_applicants_hold_their_address() {
    let pending = MachineRecord {
        id: 9,
        name: "北京联通004".to_string(),
        ip: "6.6.6.6".to_string(),
        key: "k".to_string(),
        created: 500,
        updated: None,
    };
    let machines = vec![pending];
    assert!(has_active_application(&machines, "6.6.6.6", 100));
    assert!(!has_active_application(&machines, "6.6.6.6", 600));
}
