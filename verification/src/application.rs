//! Joining as a monitoring node: who may apply, how an applicant's machine
//! is named, and what the applicant is handed back.
use vstd::prelude::*;
use crate::text::{
    chars_of, concat_chars, int_text, int_text_width3, int_to_text, int_to_text_width3,
    string_from_chars, starts_with, slice_chars, parse_i32, i32_text_value,
};
use crate::geo::{IpGeoInfo, IpSearcher, parse_ip, geo_view, located_ip};
use crate::net::{ipv4_text_octets, ipv6_text_groups};
use crate::dto::MachineRecord;
use crate::text::chars_equal;
use crate::error::ServiceError;

verus! {

/// An application as submitted: the applicant's address and where it is.
pub struct ApplyRequest {
    pub ip: String,
    pub province: String,
    pub isp: String,
}

/// An application as the service takes it.
pub struct CreateApplicationRequest {
    pub ip: String,
    pub province: String,
    pub isp: String,
}

/// What an accepted applicant is handed back.
pub struct ApplyResult {
    pub id: i32,
    pub name: String,
    pub key: String,
    pub command: String,
}

/// What an accepted applicant is handed back.
pub struct ApplicationResult {
    pub id: i32,
    pub name: String,
    pub key: String,
    pub command: String,
}

/// Why an application is refused.
#[derive(Debug, Clone, Copy, PartialEq, Eq, Structural)]
pub enum ApplyError {
    NotInChina,
    IspNotSupported,
    ProvinceFull,
    IpAlreadyApplied,
    ParseFailed,
    DatabaseError,
}

/// The number of applicants a (province, carrier) pair accepts.
pub const MAX_APPLICANTS: i32 = 3;

impl ApplyError {
    /// The text shown for the refusal.
    pub open spec fn spec_message(self) -> Seq<char> {
        match self {
            ApplyError::NotInChina => "仅支持中国大陆地区申请"@,
            ApplyError::IspNotSupported => "当前仅支持联通、电信、移动、铁通、广电运营商"@,
            ApplyError::ProvinceFull => "该地区该运营商申请人数已达上限"@,
            ApplyError::IpAlreadyApplied => "该IP已有有效申请，请勿重复申请"@,
            ApplyError::ParseFailed => "IP解析失败"@,
            ApplyError::DatabaseError => "数据库错误"@,
        }
    }

    /// The text shown for the refusal.
    pub fn message(&self) -> (res: String)
        ensures
            res@ == self.spec_message(),
    {
        match self {
            ApplyError::NotInChina => "仅支持中国大陆地区申请".to_string(),
            ApplyError::IspNotSupported => "当前仅支持联通、电信、移动、铁通、广电运营商".to_string(),
            ApplyError::ProvinceFull => "该地区该运营商申请人数已达上限".to_string(),
            ApplyError::IpAlreadyApplied => "该IP已有有效申请，请勿重复申请".to_string(),
            ApplyError::ParseFailed => "IP解析失败".to_string(),
            ApplyError::DatabaseError => "数据库错误".to_string(),
        }
    }

    /// The service error for the refusal: the same text, except that a full
    /// (province, carrier) pair also shows the count against the limit.
    pub fn to_service_error(&self, count: i32) -> (res: ServiceError)
        ensures
            res matches ServiceError::Application(m) && m@ == (match self {
                ApplyError::ProvinceFull => "该地区该运营商申请人数已达上限（"@ + int_text(
                    count as int,
                ) + "/3）"@,
                _ => self.spec_message(),
            }),
    {
        match self {
            ApplyError::ProvinceFull => {
                let a = chars_of("该地区该运营商申请人数已达上限（");
                let b = int_to_text(count as i64);
                let c = chars_of("/3）");
                let ab = concat_chars(&a, &b);
                let all = concat_chars(&ab, &c);
                ServiceError::Application(string_from_chars(&all))
            },
            _ => ServiceError::Application(self.message()),
        }
    }
}

/// The first checks on an applicant, from where its address is: it must
/// have been located, be in China, and use one of the accepted carriers.
pub open spec fn screening(geo: Option<(Seq<char>, Seq<char>, Seq<char>)>) -> Result<
    (Seq<char>, Seq<char>),
    ApplyError,
> {
    match geo {
        None => Err(ApplyError::ParseFailed),
        Some((country, province, isp)) => if country != "中国"@ {
            Err(ApplyError::NotInChina)
        } else if isp == "其他"@ {
            Err(ApplyError::IspNotSupported)
        } else {
            Ok((province, isp))
        },
    }
}

/// Screens an applicant by where its address is.
pub fn screen_applicant(geo: Option<IpGeoInfo>) -> (res: Result<(String, String), ApplyError>)
    ensures
        match screening(geo_view(geo)) {
            Ok((p, i)) => res matches Ok((rp, ri)) && rp@ == p && ri@ == i,
            Err(e) => res == Err::<(String, String), ApplyError>(e),
        },
{
    match geo {
        None => Err(ApplyError::ParseFailed),
        Some(g) => {
            let country = chars_of(g.country.as_str());
            if !crate::text::chars_equal(&country, &chars_of("中国")) {
                return Err(ApplyError::NotInChina);
            }
            let isp = chars_of(g.isp.as_str());
            if crate::text::chars_equal(&isp, &chars_of("其他")) {
                return Err(ApplyError::IspNotSupported);
            }
            Ok((g.province, g.isp))
        },
    }
}

/// The last checks, once the records are counted: the address must not
/// hold an active application, and the pair must not be full.
pub open spec fn admission(has_active: bool, count: i32) -> Result<i32, ApplyError> {
    if has_active {
        Err(ApplyError::IpAlreadyApplied)
    } else if count >= MAX_APPLICANTS {
        Err(ApplyError::ProvinceFull)
    } else {
        Ok(count)
    }
}

/// Admits or refuses a screened applicant.
pub fn admit_applicant(has_active: bool, count: i32) -> (res: Result<i32, ApplyError>)
    ensures
        res == admission(has_active, count),
{
    if has_active {
        Err(ApplyError::IpAlreadyApplied)
    } else if count >= MAX_APPLICANTS {
        Err(ApplyError::ProvinceFull)
    } else {
        Ok(count)
    }
}

/// The sequence number a machine name carries after `prefix`, if the rest of
/// the name reads as an `i32`.
pub open spec fn name_sequence(name: Seq<char>, prefix: Seq<char>) -> Option<i32> {
    if prefix.len() <= name.len() && name.subrange(0, prefix.len() as int) == prefix {
        i32_text_value(name.subrange(prefix.len() as int, name.len() as int))
    } else {
        None
    }
}

/// The largest sequence number among the names, if any carries one.
pub open spec fn max_sequence(names: Seq<Seq<char>>, prefix: Seq<char>) -> Option<i32>
    decreases names.len(),
{
    if names.len() == 0 {
        None
    } else {
        let rest = max_sequence(names.drop_last(), prefix);
        match name_sequence(names.last(), prefix) {
            Some(v) => match rest {
                Some(m) => Some(if v > m {
                    v
                } else {
                    m
                }),
                None => Some(v),
            },
            None => rest,
        }
    }
}

/// The name of the next applicant machine: the prefix and, written with at
/// least three digits, one more than the largest sequence number in use
/// (none in use counts as 0).
pub open spec fn next_name(prefix: Seq<char>, names: Seq<Seq<char>>) -> Seq<char> {
    let m = match max_sequence(names, prefix) {
        Some(v) => v as int,
        None => 0,
    };
    prefix + int_text_width3(m + 1)
}

/// Every sequence number in use is at most the largest one.
pub proof fn lemma_max_sequence_bound(names: Seq<Seq<char>>, prefix: Seq<char>, i: int)
    requires
        0 <= i < names.len(),
        name_sequence(names[i], prefix) is Some,
    ensures
        max_sequence(names, prefix) is Some,
        name_sequence(names[i], prefix)->0 <= max_sequence(names, prefix)->0,
    decreases names.len(),
{
    if i < names.len() - 1 {
        lemma_max_sequence_bound(names.drop_last(), prefix, i);
    }
}

/// The largest sequence number in use after `province` and `isp` among the
/// names, if any name carries one.
pub fn highest_sequence(province: &str, isp: &str, existing: &Vec<String>) -> (res: Option<i32>)
    ensures
        res == max_sequence(existing@.map_values(|n: String| n@), province@ + isp@),
{
    let p = chars_of(province);
    let q = chars_of(isp);
    let prefix = concat_chars(&p, &q);
    let ghost names = existing@.map_values(|n: String| n@);
    let mut best: Option<i32> = None;
    let mut i: usize = 0;
    assert(names.take(0) =~= Seq::<Seq<char>>::empty());
    while i < existing.len()
        invariant
            i <= existing.len(),
            names == existing@.map_values(|n: String| n@),
            prefix@ == province@ + isp@,
            best == max_sequence(names.take(i as int), prefix@),
        decreases existing.len() - i,
    {
        let name = chars_of(existing[i].as_str());
        assert(names.take(i + 1).drop_last() =~= names.take(i as int));
        assert(names[i as int] == name@);
        let seq = if starts_with(&name, &prefix) {
            let rest = slice_chars(&name, prefix.len(), name.len());
            parse_i32(&rest)
        } else {
            None
        };
        match seq {
            Some(v) => {
                best = match best {
                    Some(m) => Some(
                        if v > m {
                            v
                        } else {
                            m
                        },
                    ),
                    None => Some(v),
                };
            },
            None => {},
        }
        i = i + 1;
    }
    assert(names.take(existing.len() as int) =~= names);
    best
}

/// Names the next machine for `province` and `isp`, given the names of the
/// machines whose name begins with them.
pub fn generate_machine_name(province: &str, isp: &str, existing: &Vec<String>) -> (res: String)
    requires
        max_sequence(
            existing@.map_values(|n: String| n@),
            province@ + isp@,
        ) != Some(i32::MAX),
    ensures
        res@ == next_name(province@ + isp@, existing@.map_values(|n: String| n@)),
{
    let best = highest_sequence(province, isp, existing);
    let m: i32 = match best {
        Some(v) => v,
        None => 0,
    };
    let prefix = concat_chars(&chars_of(province), &chars_of(isp));
    let digits = int_to_text_width3(m as i64 + 1);
    let out = concat_chars(&prefix, &digits);
    string_from_chars(&out)
}

/// The base64 alphabet for URLs: `A`–`Z`, `a`–`z`, `0`–`9`, `-`, `_`.
pub open spec fn b64url_char(v: nat) -> char {
    if v < 26 {
        (('A' as u32) + v) as char
    } else if v < 52 {
        (('a' as u32) + (v - 26)) as char
    } else if v < 62 {
        (('0' as u32) + (v - 52)) as char
    } else if v == 62 {
        '-'
    } else {
        '_'
    }
}

/// Base64 with the URL alphabet and no padding (RFC 4648, section 5): each
/// three bytes become four characters, a final one or two bytes two or
/// three.
pub open spec fn b64url_nopad(b: Seq<u8>) -> Seq<char>
    decreases b.len(),
{
    if b.len() == 0 {
        Seq::<char>::empty()
    } else if b.len() == 1 {
        seq![b64url_char(b[0] as nat / 4), b64url_char((b[0] as nat % 4) * 16)]
    } else if b.len() == 2 {
        seq![
            b64url_char(b[0] as nat / 4),
            b64url_char((b[0] as nat % 4) * 16 + b[1] as nat / 16),
            b64url_char((b[1] as nat % 16) * 4),
        ]
    } else {
        seq![
            b64url_char(b[0] as nat / 4),
            b64url_char((b[0] as nat % 4) * 16 + b[1] as nat / 16),
            b64url_char((b[1] as nat % 16) * 4 + b[2] as nat / 64),
            b64url_char(b[2] as nat % 64),
        ] + b64url_nopad(b.subrange(3, b.len() as int))
    }
}

/// Encodes bytes with `base64`'s `URL_SAFE_NO_PAD` engine.
///
/// Trusted: the crate documents this engine as the URL-safe alphabet of
/// RFC 4648 without padding, which is what the contract spells out.
#[verifier::external_body]
fn encode_b64url_nopad(bytes: &[u8]) -> (res: String)
    ensures
        res@ == b64url_nopad(bytes@),
{
    base64::Engine::encode(&base64::engine::general_purpose::URL_SAFE_NO_PAD, bytes)
}

/// Thirty-two random bytes from `rand::random`.
///
/// Trusted, with nothing promised of the bytes: they come from the
/// thread-local generator.
#[verifier::external_body]
fn random_bytes() -> (res: [u8; 32]) {
    rand::random::<[u8; 32]>()
}

/// A fresh machine key: 32 random bytes, base64 without padding.
pub fn generate_random_key() -> (res: String)
    ensures
        exists|b: Seq<u8>| b.len() == 32 && res@ == #[trigger] b64url_nopad(b),
{
    let bytes = random_bytes();
    let res = encode_b64url_nopad(&bytes);
    assert(bytes@.len() == 32);
    res
}

/// The command that starts the client for a new machine.
pub open spec fn client_command(id: i32, key: Seq<char>, server_url: Seq<char>) -> Seq<char> {
    "bim -m "@ + int_text(id as int) + " \\\n  -t "@ + key + " \\\n  -s "@ + server_url
}

/// What an accepted applicant is handed: the new machine's id, name and key,
/// and the command that starts its client against `server_url`.
pub fn application_result(id: i32, name: String, key: String, server_url: &str) -> (res:
    ApplicationResult)
    ensures
        res.id == id,
        res.name@ == name@,
        res.key@ == key@,
        res.command@ == client_command(id, key@, server_url@),
{
    let a = chars_of("bim -m ");
    let b = int_to_text(id as i64);
    let c = chars_of(" \\\n  -t ");
    let d = chars_of(key.as_str());
    let e = chars_of(" \\\n  -s ");
    let f = chars_of(server_url);
    let ab = concat_chars(&a, &b);
    let abc = concat_chars(&ab, &c);
    let abcd = concat_chars(&abc, &d);
    let abcde = concat_chars(&abcd, &e);
    let all = concat_chars(&abcde, &f);
    ApplicationResult { id, name, key, command: string_from_chars(&all) }
}

// ---------------------------------------------------------------- the eligibility check

/// The outcome of screening a located address, as the service reports it:
/// the province and carrier, or the refusal as an application error.
pub open spec fn screening_reported(
    geo: Option<IpGeoInfo>,
    res: Result<(String, String), ServiceError>,
) -> bool {
    screening_reported_of(geo_view(geo), res)
}

/// The outcome of screening an address whose place (country, province,
/// carrier) is `place`, as the service reports it.
pub open spec fn screening_reported_of(
    place: Option<(Seq<char>, Seq<char>, Seq<char>)>,
    res: Result<(String, String), ServiceError>,
) -> bool {
    match screening(place) {
        Ok((p, i)) => res matches Ok((rp, ri)) && rp@ == p && ri@ == i,
        Err(e) => res matches Err(ServiceError::Application(m)) && m@ == e.spec_message(),
    }
}

/// Screens an address by where it is, reporting a refusal as the service
/// does.
pub fn screen_located(geo: Option<IpGeoInfo>) -> (res: Result<(String, String), ServiceError>)
    ensures
        screening_reported(geo, res),
{
    let ghost g = geo;
    match screen_applicant(geo) {
        Ok(pi) => Ok(pi),
        Err(e) => {
            assert(e != ApplyError::ProvinceFull);
            Err(e.to_service_error(0))
        },
    }
}

/// The first half of the eligibility check: the visitor's address is
/// located in the region databases (see `parse_ip`) and screened. An
/// address that is not a dotted quad cannot be located.
pub fn eligibility_screen(searcher: &IpSearcher, ip: &str) -> (res: Result<
    (String, String),
    ServiceError,
>)
    ensures
        screening_reported_of(located_ip(*searcher, ip@), res),
        ipv4_text_octets(ip@) is None ==> screening_reported(None, res),
{
    let g = parse_ip(searcher, ip);
    screen_located(g)
}

/// The outcome of the last checks, as the service reports it: the province,
/// carrier and count of applicants, or the refusal (a full pair shows the
/// count against the limit).
pub open spec fn verdict_reported(
    province: Seq<char>,
    isp: Seq<char>,
    has_active: bool,
    count: i32,
    res: Result<(String, String, i32), ServiceError>,
) -> bool {
    match admission(has_active, count) {
        Ok(c) => res matches Ok((p, i, rc)) && p@ == province && i@ == isp && rc == c,
        Err(ApplyError::ProvinceFull) => res matches Err(ServiceError::Application(m)) && m@
            == "该地区该运营商申请人数已达上限（"@ + int_text(count as int) + "/3）"@,
        Err(e) => res matches Err(ServiceError::Application(m)) && m@ == e.spec_message(),
    }
}

/// The second half of the eligibility check, once the records were
/// consulted: whether the address holds an active application, and how many
/// applicants the pair has.
pub fn eligibility_verdict(province: String, isp: String, has_active: bool, count: i32) -> (res:
    Result<(String, String, i32), ServiceError>)
    ensures
        verdict_reported(province@, isp@, has_active, count, res),
{
    match admit_applicant(has_active, count) {
        Ok(c) => Ok((province, isp, c)),
        Err(e) => Err(e.to_service_error(count)),
    }
}

// ---------------------------------------------------------------- the records consulted

/// Whether `t` occurs in `s`.
pub open spec fn contains_text(s: Seq<char>, t: Seq<char>) -> bool {
    exists|i: int| 0 <= i && i + t.len() <= s.len() && #[trigger] s.subrange(i, i + t.len()) == t
}

fn text_at(s: &Vec<char>, t: &Vec<char>, i: usize) -> (r: bool)
    requires
        i + t.len() <= s.len(),
    ensures
        r == (s@.subrange(i as int, i + t.len()) == t@),
{
    let mut k: usize = 0;
    while k < t.len()
        invariant
            k <= t.len(),
            i + t.len() <= s.len(),
            forall|j: int| 0 <= j < k ==> s@[i + j] == t@[j],
        decreases t.len() - k,
    {
        if s[i + k] != t[k] {
            assert(s@.subrange(i as int, i + t.len())[k as int] != t@[k as int]);
            return false;
        }
        k = k + 1;
    }
    assert(s@.subrange(i as int, i + t.len()) =~= t@);
    true
}

/// Whether `t` occurs in `s`.
pub fn find_text(s: &Vec<char>, t: &Vec<char>) -> (r: bool)
    ensures
        r == contains_text(s@, t@),
{
    if t.len() > s.len() {
        return false;
    }
    if t.len() == 0 {
        assert(s@.subrange(0int, 0int + t@.len()) =~= t@);
        return true;
    }
    let last = s.len() - t.len();
    let mut i: usize = 0;
    while i <= last
        invariant
            0 < t.len() <= s.len(),
            last == s.len() - t.len(),
            i <= last + 1,
            forall|j: int| 0 <= j < i ==> #[trigger] s@.subrange(j, j + t.len()) != t@,
        decreases last + 1 - i,
    {
        if text_at(s, t, i) {
            return true;
        }
        i = i + 1;
    }
    false
}

/// Whether a machine name mentions one of the accepted carriers.
pub open spec fn names_carrier(name: Seq<char>) -> bool {
    ||| contains_text(name, "联通"@)
    ||| contains_text(name, "电信"@)
    ||| contains_text(name, "移动"@)
    ||| contains_text(name, "铁通"@)
    ||| contains_text(name, "广电"@)
}

fn mentions_carrier(name: &Vec<char>) -> (r: bool)
    ensures
        r == names_carrier(name@),
{
    find_text(name, &chars_of("联通")) || find_text(name, &chars_of("电信")) || find_text(
        name,
        &chars_of("移动"),
    ) || find_text(name, &chars_of("铁通")) || find_text(name, &chars_of("广电"))
}

/// An applicant's machine still counts at `cutoff`: online (heard from
/// after it) or pending (never heard from, and created after it).
pub open spec fn is_current(created: i64, updated: Option<i64>, cutoff: i64) -> bool {
    match updated {
        Some(u) => u > cutoff,
        None => created > cutoff,
    }
}

/// An active application from `ip`: a machine at that address whose name
/// mentions a carrier, online or pending at `cutoff`.
pub open spec fn is_active_application(m: MachineRecord, ip: Seq<char>, cutoff: i64) -> bool {
    &&& m.ip@ == ip
    &&& is_current(m.created, m.updated, cutoff)
    &&& names_carrier(m.name@)
}

/// Whether an active application comes from `ip`.
pub fn has_active_application(machines: &Vec<MachineRecord>, ip: &str, cutoff: i64) -> (r: bool)
    ensures
        r == exists|i: int|
            0 <= i < machines@.len() && #[trigger] is_active_application(machines@[i], ip@, cutoff),
{
    let addr = chars_of(ip);
    let mut i: usize = 0;
    while i < machines.len()
        invariant
            i <= machines.len(),
            addr@ == ip@,
            forall|j: int|
                0 <= j < i ==> !#[trigger] is_active_application(machines@[j], ip@, cutoff),
        decreases machines.len() - i,
    {
        let m = &machines[i];
        let fresh = match m.updated {
            Some(u) => u > cutoff,
            None => m.created > cutoff,
        };
        if fresh && chars_equal(&chars_of(m.ip.as_str()), &addr) && mentions_carrier(
            &chars_of(m.name.as_str()),
        ) {
            assert(is_active_application(machines@[i as int], ip@, cutoff));
            return true;
        }
        i = i + 1;
    }
    false
}

/// How many of the names begin with `prefix`.
pub open spec fn prefix_count(names: Seq<Seq<char>>, prefix: Seq<char>) -> nat
    decreases names.len(),
{
    if names.len() == 0 {
        0
    } else {
        prefix_count(names.drop_last(), prefix) + if prefix.len() <= names.last().len()
            && names.last().subrange(0, prefix.len() as int) == prefix {
            1nat
        } else {
            0nat
        }
    }
}

/// How many applicants a (province, carrier) pair has: the machines whose
/// name begins with the two.
pub fn count_by_province_isp(machines: &Vec<MachineRecord>, province: &str, isp: &str) -> (res: i32)
    requires
        machines.len() <= i32::MAX,
    ensures
        res == prefix_count(
            machines@.map_values(|m: MachineRecord| m.name@),
            province@ + isp@,
        ),
{
    let prefix = concat_chars(&chars_of(province), &chars_of(isp));
    let ghost names = machines@.map_values(|m: MachineRecord| m.name@);
    let mut count: i32 = 0;
    let mut i: usize = 0;
    assert(names.take(0) =~= Seq::<Seq<char>>::empty());
    while i < machines.len()
        invariant
            i <= machines.len() <= i32::MAX,
            names == machines@.map_values(|m: MachineRecord| m.name@),
            prefix@ == province@ + isp@,
            count == prefix_count(names.take(i as int), prefix@),
            count <= i,
        decreases machines.len() - i,
    {
        assert(names.take(i + 1).drop_last() =~= names.take(i as int));
        assert(names[i as int] == machines@[i as int].name@);
        if starts_with(&chars_of(machines[i].name.as_str()), &prefix) {
            count = count + 1;
        }
        i = i + 1;
    }
    assert(names.take(machines.len() as int) =~= names);
    count
}

/// The application service, for the helpers that need no database.
pub struct ApplicationService;

impl ApplicationService {
    /// Whether `name` is the name of a machine that applied to join.
    pub fn is_applicant_machine(name: &str) -> (r: bool)
        ensures
            r == crate::geo::is_applicant_name(name@),
    {
        crate::geo::is_applicant_machine(name)
    }
}

} // verus!
