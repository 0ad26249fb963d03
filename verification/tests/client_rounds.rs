use bench_im::client::sum_of_times_fits;
use bench_im::client::{
    client_token, configured_addresses, native_summary, pick_resolved, plan_target, reply_times,
    system_summary, target_data_url, targets_reply_error, targets_url, NativeRound, PingData,
    PingReply, Target,
};
use bench_im::net::{parse_ip_address, IpAddress};
use bench_im::text::chars_of;

fn addr(s: &str) -> IpAddress {
    parse_ip_address(&chars_of(s)).unwrap()
}

fn target(domain: Option<&str>, ipv4: Option<&str>, ipv6: Option<&str>) -> Target {
    Target {
        id: 4,
        name: "t".to_string(),
        domain: domain.map(|s| s.to_string()),
        ipv4: ipv4.map(|s| s.to_string()),
        ipv6: ipv6.map(|s| s.to_string()),
    }
}

#[test]
fn requests() {
    assert_eq!(client_token(12, "abc"), "12:abc");
    assert_eq!(client_token(-1, "k"), "-1:k");
    assert_eq!(targets_url("https://bench.im"), "https://bench.im/api/client/targets/");
    assert_eq!(target_data_url("https://bench.im", 9), "https://bench.im/api/client/targets/9");
    assert_eq!(targets_reply_error(None), Some("Network error".to_string()));
    assert_eq!(targets_reply_error(Some(401)), Some("Invalid mid or token".to_string()));
    assert_eq!(targets_reply_error(Some(200)), None);
}

#[test]
fn native_summaries() {
    assert_eq!(native_summary(&vec![], false), None);
    assert_eq!(
        native_summary(&vec![10, 20, 31], true),
        Some(PingData { ipv6: true, min: 10, avg: 20, fail: 17 })
    );
    let full: Vec<u16> = (1..=20).collect();
    assert_eq!(native_summary(&full, false), Some(PingData { ipv6: false, min: 1, avg: 10, fail: 0 }));
}

#[test]
fn system_summaries_count_failures_as_a_byte() {
    assert_eq!(system_summary(&vec![5, 7], false), Some(PingData { ipv6: false, min: 5, avg: 6, fail: 18 }));
    let many: Vec<u16> = vec![1; 21];
    assert_eq!(system_summary(&many, false), Some(PingData { ipv6: false, min: 1, avg: 1, fail: 255 }));
}

#[test]
fn system_summaries_divide_by_the_count_as_sixteen_bits() {
    let mut long: Vec<u16> = vec![0; 65537];
    long[0] = 3;
    assert_eq!(system_summary(&long, true), Some(PingData { ipv6: true, min: 0, avg: 3, fail: 19 }));
}

#[test]
fn native_rounds() {
    let mut round = NativeRound::new(true);
    assert!(!round.finished());
    assert!(!round.pause_after());
    round.record(PingReply::Reply { v6: true, millis: 30 });
    assert!(round.pause_after());
    round.record(PingReply::Reply { v6: false, millis: 1 });
    round.record(PingReply::Lost);
    for _ in 3..20 {
        round.record(PingReply::Reply { v6: true, millis: 10 });
    }
    assert!(round.finished());
    assert!(!round.pause_after());
    assert_eq!(round.times.len(), 18);
    assert_eq!(round.summary(), Some(PingData { ipv6: true, min: 10, avg: 11, fail: 2 }));
}

#[test]
fn system_ping_output() {
    let linux = "PING 1.1.1.1 (1.1.1.1) 56(84) bytes of data.\n\
64 bytes from 1.1.1.1: icmp_seq=1 ttl=57 time=12.3 ms\n\
64 bytes from 1.1.1.1: icmp_seq=2 ttl=57 time=9.87 ms\n\
Request timeout for icmp_seq 3\n\
rtt min/avg/max/mdev = 9.870/11.085/12.300/1.215 ms\n";
    assert_eq!(reply_times(linux), vec!["12.3".to_string(), "9.87".to_string()]);
    let windows = "Reply from 8.8.8.8: bytes=32 time=14ms TTL=117\r\nReply from 8.8.8.8: bytes=32 time<1ms TTL=117\r\n";
    assert_eq!(reply_times(windows), vec!["14".to_string()]);
    assert_eq!(reply_times("x=. ms"), vec![".".to_string()]);
    assert_eq!(reply_times("a=1 b=2ms"), vec!["2".to_string()]);
    assert!(reply_times("").is_empty());
}

#[test]
fn addresses_to_ping() {
    let t = target(None, Some("1.2.3.4"), Some("bad"));
    let (v4, v6) = configured_addresses(&t);
    assert_eq!(v4, Some(addr("1.2.3.4")));
    assert_eq!(v6, None);
    let jobs = plan_target(&t, None);
    assert_eq!(jobs.len(), 1);
    assert_eq!((jobs[0].target_id, jobs[0].ipv6), (4, false));

    let d = target(Some("example.com"), Some("1.2.3.4"), None);
    assert!(plan_target(&d, None).is_empty());
    let resolved = pick_resolved(&vec![addr("2001:db8::1"), addr("5.6.7.8"), addr("9.9.9.9"), addr("2001:db8::2")]);
    assert_eq!(resolved, (Some(addr("5.6.7.8")), Some(addr("2001:db8::1"))));
    let jobs = plan_target(&d, Some(resolved));
    assert_eq!(jobs.len(), 2);
    assert_eq!((jobs[0].addr, jobs[0].ipv6), (addr("5.6.7.8"), false));
    assert_eq!((jobs[1].addr, jobs[1].ipv6), (addr("2001:db8::1"), true));
    assert_eq!(pick_resolved(&vec![]), (None, None));
}

#[test]
fn sums_that_fit() {
    assert!(sum_of_times_fits(&vec![]));
    assert!(sum_of_times_fits(&vec![65000, 535]));
    assert!(!sum_of_times_fits(&vec![65000, 536]));
    assert!(!sum_of_times_fits(&vec![65535, 65535, 0]));
}
