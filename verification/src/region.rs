//! The region database as loaded: the bytes of an xdb file, the bounds its
//! search relies on for one address, and the lookups made on it.
use vstd::prelude::*;
use crate::net::{ipv4_text_octets, parse_ipv4};
use crate::text::chars_of;

verus! {

#[verifier::external_type_specification]
#[verifier::external_body]
pub struct ExSearcher(ip2region::Searcher);

/// The bytes a searcher holds: the database file it loaded.
pub uninterp spec fn searcher_content(s: ip2region::Searcher) -> Seq<u8>;

/// The record that `ip2region`'s search finds for the text `ip` in the
/// database bytes `content`.
pub uninterp spec fn region_record(content: Seq<u8>, ip: Seq<char>) -> Option<Seq<char>>;

/// A copy of the bytes a searcher holds, with `Searcher::content`.
///
/// Trusted: the crate's `content` clones the bytes the searcher read from
/// its file, which is what the named contents stand for.
#[verifier::external_body]
fn content_of(s: &ip2region::Searcher) -> (res: Vec<u8>)
    ensures
        res@ == searcher_content(*s),
{
    s.content()
}

/// Looks `ip` up with `ip2region::Searcher::search`.
///
/// Trusted: the record is the named search result of the searcher's bytes
/// and the text. The crate's search first reads `ip` as an `Ipv4Addr` and
/// fails when it is not one, so a text that is not a dotted quad gives no
/// record. For a dotted quad the search slices the bytes at the address's
/// vector-index entry, at each segment entry its binary search probes and at
/// the data of the entry it finds, and does its offset arithmetic in `u32`;
/// the `requires` is the condition under which none of those slices is out
/// of bounds and no `u32` subtraction or addition overflows (the entries read
/// little-endian, as the crate's `speedy` reads them by default). A probed
/// entry with fewer than 14 bytes left, and data that is not UTF-8, make the
/// search fail, which the named record stands for.
#[verifier::external_body]
fn search_record(searcher: &ip2region::Searcher, ip: &str) -> (res: Option<String>)
    requires
        ipv4_text_octets(ip@) matches Some(o) ==> lookup_in_bounds(searcher_content(*searcher), o),
    ensures
        match res {
            Some(r) => region_record(searcher_content(*searcher), ip@) == Some(r@),
            None => region_record(searcher_content(*searcher), ip@) is None,
        },
        ipv4_text_octets(ip@) is None ==> res is None,
{
    searcher.search(ip).ok()
}

// ---------------------------------------------------------------- the xdb layout

/// The little-endian 32-bit number at `i`.
pub open spec fn le32(c: Seq<u8>, i: int) -> int {
    c[i] + c[i + 1] * 256 + c[i + 2] * 65536 + c[i + 3] * 16777216
}

/// The little-endian 16-bit number at `i`.
pub open spec fn le16(c: Seq<u8>, i: int) -> int {
    c[i] + c[i + 1] * 256
}

/// Where the vector-index entry of an address lies: after the 256-byte
/// header, eight bytes for each pair of first two octets.
pub open spec fn vector_entry(o: Seq<u8>) -> int {
    256 + o[0] * 2048 + o[1] * 8
}

/// The address as a 32-bit number, first octet highest.
pub open spec fn ip_number(o: Seq<u8>) -> int {
    o[0] * 16777216 + o[1] * 65536 + o[2] * 256 + o[3]
}

/// The binary search of the address number `ip` over the 14-byte entries
/// `l` to `h` of the segment that starts at `s` stays in bounds.
///
/// Each round probes the middle entry `m`: the bytes from its offset on must
/// exist (an offset past the end panics; fewer than 14 bytes there only makes
/// the search fail). Below the entry's start address the search goes on with
/// the entries `l` to `m - 1`, where `m` must not be entry 0 (the search's
/// `u32` index would go below zero); above its end address with `m + 1` to
/// `h`. An entry that holds the address is the one found: its data, from its
/// offset (at 10) for its length (at 8), must end within the bytes and within
/// `u32::MAX`. Entries that no round probes are never read.
pub open spec fn probes_in_bounds(c: Seq<u8>, s: int, ip: int, l: int, h: int) -> bool
    decreases h - l + 1,
{
    if l < h {
        let m = (l + h) / 2;
        let p = s + 14 * m;
        if p > c.len() {
            false
        } else if p + 14 > c.len() {
            true
        } else if ip < le32(c, p) {
            m > 0 && probes_in_bounds(c, s, ip, l, m - 1)
        } else if ip > le32(c, p + 4) {
            probes_in_bounds(c, s, ip, m + 1, h)
        } else {
            let end = le32(c, p + 10) + le16(c, p + 8);
            end <= c.len() && end <= u32::MAX
        }
    } else {
        true
    }
}

/// The search of the address `o` stays in bounds: its vector-index entry
/// (eight bytes) is in the file, the segment pointers it holds run forwards,
/// and the entries that the binary search probes for this address, with the
/// data of the one it finds, are in bounds as `probes_in_bounds` says.
/// Entries that the search never probes may hold anything.
pub open spec fn lookup_in_bounds(c: Seq<u8>, o: Seq<u8>) -> bool {
    let v = vector_entry(o);
    &&& v + 8 <= c.len()
    &&& le32(c, v) <= le32(c, v + 4)
    &&& probes_in_bounds(c, le32(c, v), ip_number(o), 0, (le32(c, v + 4) - le32(c, v)) / 14)
}

fn read_le32(c: &Vec<u8>, i: usize) -> (r: u64)
    requires
        i + 4 <= c.len(),
    ensures
        r == le32(c@, i as int),
{
    c[i] as u64 + (c[i + 1] as u64) * 256 + (c[i + 2] as u64) * 65536 + (c[i + 3] as u64)
        * 16777216
}

fn read_le16(c: &Vec<u8>, i: usize) -> (r: u64)
    requires
        i + 2 <= c.len(),
    ensures
        r == le16(c@, i as int),
{
    c[i] as u64 + (c[i + 1] as u64) * 256
}

/// Checks that the search of `o` stays in bounds in the bytes `c`, by
/// following the same probes.
pub fn lookup_bounds_ok(c: &Vec<u8>, o: &[u8; 4]) -> (r: bool)
    ensures
        r == lookup_in_bounds(c@, o@),
{
    let len = c.len();
    let v: usize = 256 + (o[0] as usize) * 2048 + (o[1] as usize) * 8;
    if len < 8 || v > len - 8 {
        return false;
    }
    let s = read_le32(c, v);
    let e = read_le32(c, v + 4);
    if s > e {
        return false;
    }
    let n = (e - s) / 14;
    proof {
        assert(14 * n <= e - s) by (nonlinear_arith)
            requires
                n == (e - s) / 14,
                s <= e,
        ;
    }
    let ip: u64 = (o[0] as u64) * 16777216 + (o[1] as u64) * 65536 + (o[2] as u64) * 256
        + (o[3] as u64);
    let mut l: u64 = 0;
    let mut h: u64 = n;
    while l < h
        invariant
            l <= h + 1,
            h <= n,
            14 * n <= e - s,
            e <= u32::MAX,
            len == c.len(),
            ip == ip_number(o@),
            lookup_in_bounds(c@, o@) == probes_in_bounds(c@, s as int, ip as int, l as int, h as int),
        decreases h + 1 - l,
    {
        let m = (l + h) / 2;
        let p = s + 14 * m;
        if p > len as u64 {
            return false;
        }
        if p + 14 > len as u64 {
            return true;
        }
        let pu = p as usize;
        let start = read_le32(c, pu);
        let stop = read_le32(c, pu + 4);
        if ip < start {
            if m == 0 {
                return false;
            }
            h = m - 1;
        } else if ip > stop {
            l = m + 1;
        } else {
            let end = read_le32(c, pu + 10) + read_le16(c, pu + 8);
            return end <= len as u64 && end <= 4294967295;
        }
    }
    true
}

// ---------------------------------------------------------------- a loaded database

/// A region database as loaded, with a copy of the bytes its searcher
/// holds, kept to check a lookup's bounds before the search.
pub struct RegionDb {
    searcher: ip2region::Searcher,
    bytes: Vec<u8>,
}

impl RegionDb {
    #[verifier::type_invariant]
    spec fn holds_its_bytes(self) -> bool {
        self.bytes@ == searcher_content(self.searcher)
    }

    /// The bytes of the database.
    pub closed spec fn content(self) -> Seq<u8> {
        self.bytes@
    }

    /// The database a searcher loaded.
    pub fn new(searcher: ip2region::Searcher) -> (res: RegionDb)
        ensures
            res.content() == searcher_content(searcher),
    {
        let bytes = content_of(&searcher);
        RegionDb { searcher, bytes }
    }

    /// The record of `ip`: only a dotted quad can have one, and only when
    /// its search stays in bounds; then it is what the search finds.
    pub fn lookup(&self, ip: &str) -> (res: Option<String>)
        ensures
            match lookup_result(self.content(), ip@) {
                Some(r) => res matches Some(t) && t@ == r,
                None => res is None,
            },
    {
        proof {
            use_type_invariant(self);
        }
        match parse_ipv4(&chars_of(ip)) {
            Some(o) => {
                if lookup_bounds_ok(&self.bytes, &o) {
                    search_record(&self.searcher, ip)
                } else {
                    None
                }
            },
            None => None,
        }
    }
}

/// The record a lookup of `ip` in the bytes `content` gives.
pub open spec fn lookup_result(content: Seq<u8>, ip: Seq<char>) -> Option<Seq<char>> {
    match ipv4_text_octets(ip) {
        Some(o) => if lookup_in_bounds(content, o) {
            region_record(content, ip)
        } else {
            None
        },
        None => None,
    }
}

} // verus!
