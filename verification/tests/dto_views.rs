use bench_im::dto::{Machine, MachineDetail, MachineRecord, PingRecord, PingResponse, Target, TargetRecord};

fn machine(ip: &str) -> Machine {
    Machine {
        id: 7,
        name: "北京联通001".to_string(),
        ip: ip.to_string(),
        key: "secret".to_string(),
        created: 1_700_000_000,
        updated: Some(1_700_000_300),
    }
}

#[test]
fn ipv4_addresses_keep_two_octets() {
    assert_eq!(Machine::mask_ip("1.2.3.4"), "1.2.*.*");
    assert_eq!(Machine::mask_ip("192.168.10.200"), "192.168.*.*");
}

#[test]
fn ipv6_addresses_lose_their_tail() {
    assert_eq!(Machine::mask_ip("2001:db8:1:2:3:4:5:6"), "2001:db8:1:2::*");
    assert_eq!(Machine::mask_ip("2001:db8::1"), "2001:db8:::*");
    assert_eq!(Machine::mask_ip("::1"), ":::*");
    assert_eq!(Machine::mask_ip("localhost"), "localhost::*");
}

#[test]
fn masked_machine_drops_the_key() {
    let m = machine("10.20.30.40").masked();
    assert_eq!(m.id, 7);
    assert_eq!(m.name, "北京联通001");
    assert_eq!(m.ip, "10.20.*.*");
    assert_eq!(m.created, 1_700_000_000);
    assert_eq!(m.updated, Some(1_700_000_300));
}

#[test]
fn list_items_show_zero_when_never_updated() {
    let mut m = machine("1.1.1.1");
    m.updated = None;
    let item = m.list_item();
    assert_eq!(item.updated, 0);
    assert_eq!(machine("1.1.1.1").list_item().updated, 1_700_000_300);
}

#[test]
fn machine_detail_masks_and_keeps_targets() {
    let m = machine("8.8.4.4");
    let t = Target {
        id: 3,
        name: "dns".to_string(),
        domain: Some("dns.google".to_string()),
        ipv4: None,
        ipv6: None,
        created: 1,
        updated: None,
    };
    let d = MachineDetail::new(&m, vec![t]);
    assert_eq!(d.machine.ip, "8.8.*.*");
    assert_eq!(d.targets.len(), 1);
    assert_eq!(d.targets[0].name, "dns");
}

#[test]
fn records_become_outputs() {
    let m = Machine::from_record(MachineRecord {
        id: 1,
        name: "n".to_string(),
        ip: "1.2.3.4".to_string(),
        key: "k".to_string(),
        created: 5,
        updated: None,
    });
    assert_eq!(m.key, "k");
    let t = Target::from_record(TargetRecord {
        id: 2,
        name: "t".to_string(),
        domain: None,
        ipv4: Some("1.1.1.1".to_string()),
        ipv6: None,
        created: 9,
        updated: Some(10),
    });
    let p = t.public();
    assert_eq!(p.id, 2);
    assert_eq!(p.created, 9);
    assert_eq!(p.updated, Some(10));
}

#[test]
fn ping_points() {
    let r = PingRecord { id: 1, machine_id: 2, target_id: 3, ipv6: false, created: 600, min: 10, avg: 12, fail: 1 };
    let p = PingResponse::from_record(&r);
    assert_eq!(p.timestamp, 600);
    assert_eq!(p.to_data(), (600, 10, 12, 1));
}
