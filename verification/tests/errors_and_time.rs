use bench_im::error::check_target_name_free;
use bench_im::error::{check_found, check_machine_name_free, ApiError, ServiceError};
use bench_im::dto::{MachineRecord, PingRecord};
use bench_im::forms::CreatePingRequest;
use bench_im::pings::{group_by_target, new_ping};
use bench_im::timing::{
    applicant_cutoff, expired_applicant_ids, ping_retention_cutoff, ping_since, ping_window_seconds,
    round_to_slot,
};

#[test]
fn service_error_texts() {
    assert_eq!(ServiceError::not_found("Machine", 42).message(), "Resource not found: Machine 42 not found");
    assert_eq!(ServiceError::validation("bad".to_string()).message(), "Validation failed: bad");
    assert_eq!(ServiceError::conflict("dup".to_string()).message(), "Conflict: dup");
    assert_eq!(ServiceError::Application("no".to_string()).message(), "Application error: no");
    assert_eq!(ServiceError::IpGeo("down".to_string()).message(), "IP geo service error: down");
    assert_eq!(ServiceError::Unauthorized("who".to_string()).message(), "Unauthorized: who");
}

#[test]
fn database_errors_keep_their_label() {
    let e = ServiceError::Database(sea_orm::DbErr::Custom("disk full".to_string()));
    let m = e.message();
    assert!(m.starts_with("Database error: "));
    assert!(m.contains("disk full"));
}

#[test]
fn api_errors_answer_with_status() {
    assert_eq!(ApiError::from_service_error(ServiceError::not_found("Target", 3)).response(), (404, "Target 3 not found".to_string()));
    assert_eq!(ApiError::from_service_error(ServiceError::Application("满".to_string())).response(), (400, "满".to_string()));
    assert_eq!(ApiError::from_service_error(ServiceError::Unauthorized("x".to_string())).response(), (401, "Unauthorized".to_string()));
    assert_eq!(ApiError::from_service_error(ServiceError::conflict("c".to_string())).response(), (409, "c".to_string()));
    let db = ApiError::from_db_error(&sea_orm::DbErr::Custom("secret detail".to_string()));
    assert_eq!(db.response(), (500, "Internal server error".to_string()));
    assert!(db.message().contains("secret detail"));
    assert_eq!(ApiError::from_service_error(ServiceError::IpGeo("geo".to_string())).response(), (500, "Internal server error".to_string()));
}

#[test]
fn existence_checks() {
    assert!(check_found(true, "Machine", 1).is_ok());
    match check_found(false, "Target", 9) {
        Err(e) => assert_eq!(e.message(), "Resource not found: Target 9 not found"),
        Ok(_) => panic!("expected not found"),
    }
    assert!(check_machine_name_free(false, "m").is_ok());
    match check_machine_name_free(true, "m") {
        Err(e) => assert_eq!(e.message(), "Conflict: Machine with name 'm' already exists"),
        Ok(_) => panic!("expected a conflict"),
    }
}

#[test]
fn chart_windows() {
    assert_eq!(ping_window_seconds("7d"), 604800);
    assert_eq!(ping_window_seconds("1d"), 86400);
    assert_eq!(ping_window_seconds(""), 86400);
    assert_eq!(ping_since(1_000_000, "7d"), 1_000_000 - 604800);
    assert_eq!(ping_retention_cutoff(1_000_000), 1_000_000 - 604800);
    assert_eq!(applicant_cutoff(1_000_000), 1_000_000 - 86400);
}

#[test]
fn five_minute_slots() {
    assert_eq!(round_to_slot(1_700_000_123), 1_700_000_100);
    assert_eq!(round_to_slot(600), 600);
    assert_eq!(round_to_slot(899), 600);
    assert_eq!(round_to_slot(-1), -300);
    assert_eq!(round_to_slot(-300), -300);
    assert_eq!(round_to_slot(round_to_slot(12_345)), round_to_slot(12_345));
}

#[test]
fn new_pings_are_filed_under_their_slot() {
    let req = CreatePingRequest { ipv6: true, min: 5, avg: 7, fail: 2 };
    let p = new_ping(1, 2, &req, 1_000_123);
    assert_eq!(p.created, 999_900);
    assert_eq!((p.machine_id, p.target_id, p.ipv6, p.min, p.avg, p.fail), (1, 2, true, 5, 7, 2));
}

#[test]
fn stale_applicants_are_picked() {
    let rec = |id: i32, name: &str, created: i64, updated: Option<i64>| MachineRecord {
        id,
        name: name.to_string(),
        ip: "1.1.1.1".to_string(),
        key: "k".to_string(),
        created,
        updated,
    };
    let machines = vec![
        rec(1, "北京联通001", 0, Some(50)),
        rec(2, "北京联通002", 0, Some(500)),
        rec(3, "my-server", 0, None),
        rec(4, "上海电信001", 10, None),
        rec(5, "上海电信002", 1000, None),
    ];
    assert_eq!(expired_applicant_ids(&machines, 100), vec![1, 4]);
}

#[test]
fn series_are_grouped_by_target() {
    let row = |id: i32, target_id: i32, created: i64| PingRecord {
        id,
        machine_id: 1,
        target_id,
        ipv6: false,
        created,
        min: id,
        avg: id + 1,
        fail: 0,
    };
    let rows = vec![row(1, 10, 100), row(2, 20, 200), row(3, 10, 300)];
    let g = group_by_target(&rows);
    assert_eq!(g.len(), 2);
    assert_eq!(g[&10], vec![(100, 1, 2, 0), (300, 3, 4, 0)]);
    assert_eq!(g[&20], vec![(200, 2, 3, 0)]);
    assert!(group_by_target(&vec![]).is_empty());
}

#[test]
fn target_names_must_be_free() {
    assert!(check_target_name_free(false).is_ok());
    match check_target_name_free(true) {
        Err(e) => assert_eq!(e.response(), (409, "Target with this name already exists".to_string())),
        Ok(_) => panic!("expected a conflict"),
    }
}
