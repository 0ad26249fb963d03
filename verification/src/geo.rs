//! IP geolocation: reading the region database's records and recognising
//! the names given to machines that applied to join.
use vstd::prelude::*;
use crate::text::{chars_of, chars_equal, split_char, split_chars, string_from_chars};
use crate::net::{parse_ipv4, parse_ipv6, ipv4_text_octets, ipv6_text_groups};
use crate::region::{RegionDb, lookup_result};

verus! {

/// Where an address is: country, province and carrier.
pub struct IpGeoInfo {
    pub country: String,
    pub province: String,
    pub isp: String,
}

/// The region databases that were loaded, for IPv4 and IPv6 addresses.
pub struct IpSearcher {
    pub v4: Option<RegionDb>,
    pub v6: Option<RegionDb>,
}

/// Whether `s` is an IPv6 address (`Ipv6Addr` reads it).
pub fn is_ipv6(ip: &str) -> (r: bool)
    ensures
        r == ipv6_text_groups(ip@) is Some,
{
    let cs = chars_of(ip);
    parse_ipv6(&cs).is_some()
}

/// Whether `s` is an IPv4 address (`Ipv4Addr` reads it).
pub fn is_ipv4(ip: &str) -> (r: bool)
    ensures
        r == ipv4_text_octets(ip@) is Some,
{
    let cs = chars_of(ip);
    parse_ipv4(&cs).is_some()
}

/// The carriers applications are accepted from.
pub open spec fn is_carrier(s: Seq<char>) -> bool {
    ||| s == "联通"@
    ||| s == "电信"@
    ||| s == "移动"@
    ||| s == "铁通"@
    ||| s == "广电"@
}

/// A carrier name as the application rules know it: the five carriers keep
/// their name, every other is "其他".
pub open spec fn normalized_isp(isp: Seq<char>) -> Seq<char> {
    if is_carrier(isp) {
        isp
    } else {
        "其他"@
    }
}

fn carrier(s: &Vec<char>) -> (r: bool)
    ensures
        r == is_carrier(s@),
{
    chars_equal(s, &chars_of("联通")) || chars_equal(s, &chars_of("电信")) || chars_equal(
        s,
        &chars_of("移动"),
    ) || chars_equal(s, &chars_of("铁通")) || chars_equal(s, &chars_of("广电"))
}

/// Normalises a carrier name.
pub fn normalize_isp(isp: &str) -> (res: String)
    ensures
        res@ == normalized_isp(isp@),
{
    let cs = chars_of(isp);
    if carrier(&cs) {
        string_from_chars(&cs)
    } else {
        "其他".to_string()
    }
}

/// What a database record says, as (country, province, carrier): the
/// record is `country|region|province-or-city|carrier|...` and needs at
/// least five fields; the carrier comes out normalised.
pub open spec fn geo_of_record(record: Seq<char>) -> Option<(Seq<char>, Seq<char>, Seq<char>)> {
    let p = split_char(record, '|');
    if p.len() < 5 {
        None
    } else {
        Some((p[0], p[1], normalized_isp(p[3])))
    }
}

/// Reads a database record.
pub fn geo_from_record(record: &str) -> (res: Option<IpGeoInfo>)
    ensures
        match geo_of_record(record@) {
            Some((c, p, i)) => res matches Some(g) && g.country@ == c && g.province@ == p
                && g.isp@ == i,
            None => res is None,
        },
{
    let cs = chars_of(record);
    let parts = split_chars(&cs, '|');
    if parts.len() < 5 {
        return None;
    }
    let isp_text = string_from_chars(&parts[3]);
    Some(
        IpGeoInfo {
            country: string_from_chars(&parts[0]),
            province: string_from_chars(&parts[1]),
            isp: normalize_isp(isp_text.as_str()),
        },
    )
}

impl IpSearcher {
    /// Whether any database was loaded.
    pub fn is_available(&self) -> (r: bool)
        ensures
            r == (self.v4 is Some || self.v6 is Some),
    {
        self.v4.is_some() || self.v6.is_some()
    }
}

/// Builds the searcher from the outcome of loading each database: it holds
/// whichever loaded; when neither did, the error names both failures.
pub fn init_searcher(
    v4: Result<ip2region::Searcher, String>,
    v6: Result<ip2region::Searcher, String>,
) -> (res: Result<IpSearcher, String>)
    ensures
        match (v4, v6) {
            (Err(e4), Err(e6)) => res matches Err(msg) && msg@ == "Failed to load both databases: IPv4: "@
                + e4@ + ", IPv6: "@ + e6@,
            _ => res matches Ok(s) && (match v4 {
                Ok(x) => s.v4 matches Some(d) && d.content() == crate::region::searcher_content(x),
                Err(_) => s.v4 is None,
            }) && (match v6 {
                Ok(x) => s.v6 matches Some(d) && d.content() == crate::region::searcher_content(x),
                Err(_) => s.v6 is None,
            }),
        },
{
    match (v4, v6) {
        (Err(e4), Err(e6)) => {
            let a = chars_of("Failed to load both databases: IPv4: ");
            let b = chars_of(e4.as_str());
            let c = chars_of(", IPv6: ");
            let d = chars_of(e6.as_str());
            let ab = crate::text::concat_chars(&a, &b);
            let abc = crate::text::concat_chars(&ab, &c);
            let all = crate::text::concat_chars(&abc, &d);
            Err(string_from_chars(&all))
        },
        (r4, r6) => Ok(
            IpSearcher {
                v4: match r4 {
                    Ok(s) => Some(RegionDb::new(s)),
                    Err(_) => None,
                },
                v6: match r6 {
                    Ok(s) => Some(RegionDb::new(s)),
                    Err(_) => None,
                },
            },
        ),
    }
}

/// An address and its place, as text: country, province and carrier.
pub open spec fn geo_view(geo: Option<IpGeoInfo>) -> Option<(Seq<char>, Seq<char>, Seq<char>)> {
    match geo {
        Some(g) => Some((g.country@, g.province@, g.isp@)),
        None => None,
    }
}

/// The database an address is looked up in: the IPv6 database for an
/// IPv6 address, the IPv4 database for an IPv4 address, none otherwise.
pub open spec fn db_for(searcher: IpSearcher, ip: Seq<char>) -> Option<RegionDb> {
    if ipv6_text_groups(ip) is Some {
        searcher.v6
    } else if ipv4_text_octets(ip) is Some {
        searcher.v4
    } else {
        None
    }
}

/// Where an address is: the record its lookup finds in its database, read
/// as (country, province, carrier).
pub open spec fn located_ip(searcher: IpSearcher, ip: Seq<char>) -> Option<
    (Seq<char>, Seq<char>, Seq<char>),
> {
    match db_for(searcher, ip) {
        Some(db) => match lookup_result(db.content(), ip) {
            Some(r) => geo_of_record(r),
            None => None,
        },
        None => None,
    }
}

/// Picks the database an address is looked up in.
pub fn searcher_for<'a>(searcher: &'a IpSearcher, ip: &str) -> (res: Option<&'a RegionDb>)
    ensures
        match db_for(*searcher, ip@) {
            Some(d) => res matches Some(r) && *r == d,
            None => res is None,
        },
{
    if is_ipv6(ip) {
        match &searcher.v6 {
            Some(d) => Some(d),
            None => None,
        }
    } else if is_ipv4(ip) {
        match &searcher.v4 {
            Some(d) => Some(d),
            None => None,
        }
    } else {
        None
    }
}

/// Looks an address up: IPv6 addresses in the IPv6 database, IPv4
/// addresses in the IPv4 database, and reads the record found. The region
/// crate's search reads only dotted quads, so an IPv6 address is never
/// located; a lookup whose search would leave the bytes of the database
/// finds nothing.
pub fn parse_ip(searcher: &IpSearcher, ip: &str) -> (res: Option<IpGeoInfo>)
    ensures
        geo_view(res) == located_ip(*searcher, ip@),
        ipv4_text_octets(ip@) is None ==> res is None,
{
    let record = match searcher_for(searcher, ip) {
        Some(db) => db.lookup(ip),
        None => {
            return None;
        },
    };
    match record {
        Some(r) => geo_from_record(r.as_str()),
        None => None,
    }
}

// ---------------------------------------------------------------- applicant names

/// Whether `c` is a decimal digit as the `regex` crate's `\d` reads it.
pub uninterp spec fn regex_decimal_digit(c: char) -> bool;

/// Tests `c` against `\d` with the `regex` crate.
///
/// Trusted: the result is the named predicate of the character; the crate
/// documents `\d` as Unicode's `Nd` class, whose ASCII members are `0`–`9`,
/// so for an ASCII character it is the ASCII digit test.
#[verifier::external_body]
pub(crate) fn regex_digit(c: char) -> (r: bool)
    ensures
        r == regex_decimal_digit(c),
        (c as u32) < 128 ==> (r <==> '0' <= c <= '9'),
{
    let mut buf = [0u8; 4];
    regex::Regex::new(r"^\d$").map(|re| re.is_match(c.encode_utf8(&mut buf))).unwrap_or(false)
}

/// A CJK unified ideograph in U+4E00..=U+9FA5.
pub open spec fn is_cjk(c: char) -> bool {
    0x4e00 <= c as u32 <= 0x9fa5
}

/// The name given to machines that applied to join, as the pattern
/// `^[\u4e00-\u9fa5]{2,4}(联通|电信|移动|铁通|广电)\d{3}$` reads it: a
/// province of two to four CJK ideographs, a carrier, and three digits.
/// (Every carrier name is itself two such ideographs, so the province is
/// all that comes before the last five characters.)
pub open spec fn is_applicant_name(s: Seq<char>) -> bool {
    let n = s.len() as int;
    &&& 7 <= n <= 9
    &&& forall|i: int| 0 <= i < n - 5 ==> is_cjk(#[trigger] s[i])
    &&& is_carrier(s.subrange(n - 5, n - 3))
    &&& forall|i: int| n - 3 <= i < n ==> regex_decimal_digit(#[trigger] s[i])
}

/// Whether `name` is the name of a machine that applied to join.
pub fn is_applicant_machine(name: &str) -> (r: bool)
    ensures
        r == is_applicant_name(name@),
{
    let s = chars_of(name);
    let n = s.len();
    if n < 7 || n > 9 {
        return false;
    }
    let mut i: usize = 0;
    while i < n - 5
        invariant
            7 <= n <= 9,
            n == s.len(),
            s@ == name@,
            i <= n - 5,
            forall|k: int| 0 <= k < i ==> is_cjk(#[trigger] s@[k]),
        decreases n - 5 - i,
    {
        let u = s[i] as u32;
        if u < 0x4e00 || u > 0x9fa5 {
            assert(!is_cjk(s@[i as int]));
            return false;
        }
        i = i + 1;
    }
    let mid = crate::text::slice_chars(&s, n - 5, n - 3);
    if !carrier(&mid) {
        return false;
    }
    let mut j: usize = n - 3;
    while j < n
        invariant
            7 <= n <= 9,
            n == s.len(),
            s@ == name@,
            n - 3 <= j <= n,
            forall|k: int| n - 3 <= k < j ==> regex_decimal_digit(#[trigger] s@[k]),
        decreases n - j,
    {
        if !regex_digit(s[j]) {
            assert(!regex_decimal_digit(s@[j as int]));
            return false;
        }
        j = j + 1;
    }
    true
}

} // verus!
