use bench_im::geo::{init_searcher, parse_ip};
use bench_im::region::{lookup_bounds_ok, RegionDb};

const VECTOR_END: usize = 256 + 256 * 256 * 8;

fn put32(b: &mut [u8], at: usize, v: u32) {
    b[at..at + 4].copy_from_slice(&v.to_le_bytes());
}

/// A database whose vector index sends 1.2.x.x to one segment entry
/// covering 1.2.0.0 to 1.2.255.255, with a five-byte record.
fn small_db(first_start: u32) -> Vec<u8> {
    let mut b = vec![0u8; VECTOR_END + 14 + 5];
    let s = VECTOR_END as u32;
    let v = 256 + 1 * 2048 + 2 * 8;
    put32(&mut b, v, s);
    put32(&mut b, v + 4, s + 14);
    put32(&mut b, VECTOR_END, first_start);
    put32(&mut b, VECTOR_END + 4, 0x0102ffff);
    b[VECTOR_END + 8] = 5;
    b[VECTOR_END + 9] = 0;
    put32(&mut b, VECTOR_END + 10, s + 14);
    b
}

#[test]
fn bounds_of_a_search() {
    let db = small_db(0x01020000);
    assert!(lookup_bounds_ok(&db, &[1, 2, 3, 4]));
    // an empty segment is searched without leaving the bytes
    assert!(lookup_bounds_ok(&db, &[9, 9, 9, 9]));
    // below the segment's first entry the search would step below it
    assert!(!lookup_bounds_ok(&small_db(0x01020005), &[1, 2, 0, 1]));
    // a truncated file
    assert!(!lookup_bounds_ok(&db[..100].to_vec(), &[1, 2, 3, 4]));
    let mut short = db.clone();
    short.truncate(VECTOR_END + 14 + 4);
    assert!(!lookup_bounds_ok(&short, &[1, 2, 3, 4]));
}

/// A database whose 1.2.x.x segment has three entries: 1.2.0.x, 1.2.1.x and
/// the rest of 1.2.x.x. Only the middle entry's data lies in the file.
fn three_entry_db() -> Vec<u8> {
    let mut b = vec![0u8; VECTOR_END + 42 + 5];
    let s = VECTOR_END as u32;
    let v = 256 + 1 * 2048 + 2 * 8;
    put32(&mut b, v, s);
    put32(&mut b, v + 4, s + 42);
    let ranges = [(0x01020000u32, 0x010200ffu32), (0x01020100, 0x010201ff), (0x01020200, 0x0102ffff)];
    for (k, (lo, hi)) in ranges.iter().enumerate() {
        let at = VECTOR_END + 14 * k;
        put32(&mut b, at, *lo);
        put32(&mut b, at + 4, *hi);
        b[at + 8] = 5;
        let data = if k == 1 { s + 42 } else { 0xfffffff0 };
        put32(&mut b, at + 10, data);
    }
    b
}

#[test]
fn only_the_probed_entries_must_be_in_bounds() {
    let db = three_entry_db();
    // the first probe finds the middle entry; the others are never read
    assert!(lookup_bounds_ok(&db, &[1, 2, 1, 7]));
    // below the middle entry the search ends without reading entry 0
    assert!(lookup_bounds_ok(&db, &[1, 2, 0, 7]));
    // above it the search finds the last entry, whose data is past the end
    assert!(!lookup_bounds_ok(&db, &[1, 2, 3, 4]));
}

#[test]
fn segment_pointers_past_the_end() {
    let mut db = small_db(0x01020000);
    let len = db.len() as u32;
    let v = 256 + 1 * 2048 + 2 * 8;
    // a probe at an offset past the end would panic
    put32(&mut db, v, len + 100);
    put32(&mut db, v + 4, len + 114);
    assert!(!lookup_bounds_ok(&db, &[1, 2, 3, 4]));
    // fewer than 14 bytes at the probe only make the search fail
    put32(&mut db, v, len - 5);
    put32(&mut db, v + 4, len + 9);
    assert!(lookup_bounds_ok(&db, &[1, 2, 3, 4]));
    // segment pointers that run backwards would wrap
    put32(&mut db, v, len);
    put32(&mut db, v + 4, len - 14);
    assert!(!lookup_bounds_ok(&db, &[1, 2, 3, 4]));
}

#[test]
fn an_empty_database_finds_nothing_without_failing() {
    let db = RegionDb::new(ip2region::Searcher::default());
    assert_eq!(db.lookup("1.2.3.4"), None);
    assert_eq!(db.lookup("::1"), None);
    let v6: Result<ip2region::Searcher, String> = Err("missing".to_string());
    let s = match init_searcher(Ok(ip2region::Searcher::default()), v6) {
        Ok(s) => s,
        Err(_) => panic!("one database loaded"),
    };
    assert!(s.is_available());
    assert!(parse_ip(&s, "1.2.3.4").is_none());
    assert!(parse_ip(&s, "2001:db8::1").is_none());
}
