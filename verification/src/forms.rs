//! The forms the server accepts and the rules each field must meet.
use vstd::prelude::*;
use crate::text::{chars_of, split_char, split_chars};
use crate::net::{parse_ipv4, parse_ipv6, ipv4_text_octets, ipv6_text_groups};

verus! {

/// A field that breaks a rule: the field, the rule's code, and the message
/// shown for it (if the rule has one).
pub struct FieldIssue {
    pub field: String,
    pub code: String,
    pub message: Option<String>,
}

/// An issue as (field, code, message) text.
pub open spec fn issue_view(i: FieldIssue) -> (Seq<char>, Seq<char>, Option<Seq<char>>) {
    (
        i.field@,
        i.code@,
        match i.message {
            Some(m) => Some(m@),
            None => None,
        },
    )
}

/// The issues as (field, code, message) text, in order.
pub open spec fn issues_view(v: Seq<FieldIssue>) -> Seq<(Seq<char>, Seq<char>, Option<Seq<char>>)> {
    v.map_values(|i: FieldIssue| issue_view(i))
}

fn issue(field: &str, code: &str, message: Option<&str>) -> (res: FieldIssue)
    ensures
        issue_view(res) == (field@, code@, match message {
            Some(m) => Some(m@),
            None => None::<Seq<char>>,
        }),
{
    FieldIssue {
        field: field.to_string(),
        code: code.to_string(),
        message: match message {
            Some(m) => Some(m.to_string()),
            None => None,
        },
    }
}

fn push_issue(v: &mut Vec<FieldIssue>, i: FieldIssue)
    ensures
        issues_view(final(v)@) == issues_view(old(v)@).push(issue_view(i)),
{
    v.push(i);
    assert(issues_view(v@) =~= issues_view(old(v)@).push(issue_view(i)));
}

// ---------------------------------------------------------------- field rules

/// An address either `Ipv4Addr` or `Ipv6Addr` reads.
pub open spec fn is_ip_text(s: Seq<char>) -> bool {
    ipv4_text_octets(s) is Some || ipv6_text_groups(s) is Some
}

/// Checks an address field; the code on failure is `invalid_ip`.
pub fn validate_ip(ip: &str) -> (r: bool)
    ensures
        r == is_ip_text(ip@),
{
    let cs = chars_of(ip);
    parse_ipv4(&cs).is_some() || parse_ipv6(&cs).is_some()
}

/// Checks an IPv4 field; the code on failure is `invalid_ipv4`.
pub fn validate_ipv4(ip: &str) -> (r: bool)
    ensures
        r == ipv4_text_octets(ip@) is Some,
{
    let cs = chars_of(ip);
    parse_ipv4(&cs).is_some()
}

/// Checks an IPv6 field; the code on failure is `invalid_ipv6`.
pub fn validate_ipv6(ip: &str) -> (r: bool)
    ensures
        r == ipv6_text_groups(ip@) is Some,
{
    let cs = chars_of(ip);
    parse_ipv6(&cs).is_some()
}

/// An ASCII letter or digit.
pub open spec fn is_ascii_alnum(c: char) -> bool {
    ||| 'a' <= c <= 'z'
    ||| 'A' <= c <= 'Z'
    ||| '0' <= c <= '9'
}

/// A domain label: 1 to 63 ASCII letters, digits and hyphens, beginning
/// and ending with a letter or digit.
pub open spec fn is_domain_label(l: Seq<char>) -> bool {
    &&& 1 <= l.len() <= 63
    &&& is_ascii_alnum(l[0])
    &&& is_ascii_alnum(l.last())
    &&& forall|i: int| 0 <= i < l.len() ==> (is_ascii_alnum(#[trigger] l[i]) || l[i] == '-')
}

/// A domain name as the pattern
/// `^[a-zA-Z0-9]([a-zA-Z0-9-]{0,61}[a-zA-Z0-9])?(\.[a-zA-Z0-9]([a-zA-Z0-9-]{0,61}[a-zA-Z0-9])?)*$`
/// reads it: labels separated by dots.
pub open spec fn is_domain_name(s: Seq<char>) -> bool {
    let labels = split_char(s, '.');
    forall|k: int| 0 <= k < labels.len() ==> is_domain_label(#[trigger] labels[k])
}

fn alnum(c: char) -> (r: bool)
    ensures
        r == is_ascii_alnum(c),
{
    ('a' <= c && c <= 'z') || ('A' <= c && c <= 'Z') || ('0' <= c && c <= '9')
}

fn domain_label(l: &Vec<char>) -> (r: bool)
    ensures
        r == is_domain_label(l@),
{
    let n = l.len();
    if n < 1 || n > 63 {
        return false;
    }
    if !alnum(l[0]) || !alnum(l[n - 1]) {
        return false;
    }
    let mut i: usize = 0;
    while i < n
        invariant
            i <= n == l.len(),
            forall|k: int| 0 <= k < i ==> (is_ascii_alnum(#[trigger] l@[k]) || l@[k] == '-'),
        decreases n - i,
    {
        if !alnum(l[i]) && l[i] != '-' {
            assert(!(is_ascii_alnum(l@[i as int]) || l@[i as int] == '-'));
            return false;
        }
        i = i + 1;
    }
    true
}

/// Checks a domain field; the code on failure is `invalid_domain`.
pub fn validate_domain(domain: &str) -> (r: bool)
    ensures
        r == is_domain_name(domain@),
{
    let cs = chars_of(domain);
    let labels = split_chars(&cs, '.');
    let mut k: usize = 0;
    while k < labels.len()
        invariant
            k <= labels.len() == split_char(domain@, '.').len(),
            forall|j: int| 0 <= j < labels@.len() ==> #[trigger] labels@[j]@ == split_char(
                domain@,
                '.',
            )[j],
            forall|j: int| 0 <= j < k ==> is_domain_label(#[trigger] split_char(domain@, '.')[j]),
        decreases labels.len() - k,
    {
        if !domain_label(&labels[k]) {
            assert(!is_domain_label(split_char(domain@, '.')[k as int]));
            return false;
        }
        k = k + 1;
    }
    true
}

/// The minimum of a ping must not exceed its average.
pub open spec fn ping_consistent(min: u16, avg: u16) -> bool {
    min <= avg
}

// ---------------------------------------------------------------- ping forms

/// A ping result a client reports.
pub struct PingCreate {
    pub ipv6: bool,
    pub min: u16,
    pub avg: u16,
    pub fail: u8,
}

/// The issues of a ping report: `min` and `avg` in 1..=1000, `fail` at most
/// 20 (code `range`); only when those hold, the schema rule that `min` does
/// not exceed `avg` (code `min_cannot_exceed_avg`, on the whole form).
pub open spec fn ping_issues(min: u16, avg: u16, fail: u8) -> Seq<
    (Seq<char>, Seq<char>, Option<Seq<char>>),
> {
    let a = if 1 <= min <= 1000 {
        Seq::empty()
    } else {
        seq![("min"@, "range"@, None)]
    };
    let b = if 1 <= avg <= 1000 {
        Seq::empty()
    } else {
        seq![("avg"@, "range"@, None)]
    };
    let c = if fail <= 20 {
        Seq::empty()
    } else {
        seq![("fail"@, "range"@, None)]
    };
    let fields = a + b + c;
    if fields.len() == 0 && !ping_consistent(min, avg) {
        seq![("__all__"@, "min_cannot_exceed_avg"@, None)]
    } else {
        fields
    }
}

fn check_ping(min: u16, avg: u16, fail: u8) -> (res: Vec<FieldIssue>)
    ensures
        issues_view(res@) == ping_issues(min, avg, fail),
{
    let mut v: Vec<FieldIssue> = Vec::new();
    if !(1 <= min && min <= 1000) {
        push_issue(&mut v, issue("min", "range", None));
    }
    if !(1 <= avg && avg <= 1000) {
        push_issue(&mut v, issue("avg", "range", None));
    }
    if fail > 20 {
        push_issue(&mut v, issue("fail", "range", None));
    }
    if v.len() == 0 && min > avg {
        push_issue(&mut v, issue("__all__", "min_cannot_exceed_avg", None));
    }
    assert(issues_view(v@) =~= ping_issues(min, avg, fail));
    v
}

impl PingCreate {
    /// The rules this report breaks; none when it is valid.
    pub fn validate(&self) -> (res: Vec<FieldIssue>)
        ensures
            issues_view(res@) == ping_issues(self.min, self.avg, self.fail),
    {
        check_ping(self.min, self.avg, self.fail)
    }
}

/// A ping result a client reports (service form).
pub struct CreatePingRequest {
    pub ipv6: bool,
    pub min: u16,
    pub avg: u16,
    pub fail: u8,
}

impl CreatePingRequest {
    /// The rules this report breaks; none when it is valid.
    pub fn validate(&self) -> (res: Vec<FieldIssue>)
        ensures
            issues_view(res@) == ping_issues(self.min, self.avg, self.fail),
    {
        check_ping(self.min, self.avg, self.fail)
    }
}

/// Which pings to list: IPv4 (the default) or IPv6.
pub struct PingFilter {
    pub ipv6: Option<bool>,
}

impl PingFilter {
    /// Whether IPv6 results are asked for.
    pub fn wants_ipv6(&self) -> (r: bool)
        ensures
            r == (self.ipv6 == Some(true)),
    {
        match self.ipv6 {
            Some(b) => b,
            None => false,
        }
    }
}

// ---------------------------------------------------------------- machine forms

/// The issues of a machine form: `name` of 1 to 100 characters, `ip` of 1
/// to 255 characters and an address, `key` of 1 to 255 characters; each
/// with the message the form shows.
pub open spec fn machine_issues(name: Seq<char>, ip: Seq<char>, key: Seq<char>) -> Seq<
    (Seq<char>, Seq<char>, Option<Seq<char>>),
> {
    let a = if 1 <= name.len() <= 100 {
        Seq::empty()
    } else {
        seq![("name"@, "length"@, Some("名称不能为空且不能超过100字符"@))]
    };
    let b = if 1 <= ip.len() <= 255 {
        Seq::empty()
    } else {
        seq![("ip"@, "length"@, Some("IP不能为空"@))]
    };
    let c = if is_ip_text(ip) {
        Seq::empty()
    } else {
        seq![("ip"@, "invalid_ip"@, Some("必须是有效的IPv4或IPv6地址"@))]
    };
    let d = if 1 <= key.len() <= 255 {
        Seq::empty()
    } else {
        seq![("key"@, "length"@, Some("密钥不能为空"@))]
    };
    a + b + c + d
}

fn check_machine(name: &str, ip: &str, key: &str) -> (res: Vec<FieldIssue>)
    ensures
        issues_view(res@) == machine_issues(name@, ip@, key@),
{
    let mut v: Vec<FieldIssue> = Vec::new();
    let n = chars_of(name).len();
    if !(1 <= n && n <= 100) {
        push_issue(&mut v, issue("name", "length", Some("名称不能为空且不能超过100字符")));
    }
    let m = chars_of(ip).len();
    if !(1 <= m && m <= 255) {
        push_issue(&mut v, issue("ip", "length", Some("IP不能为空")));
    }
    if !validate_ip(ip) {
        push_issue(&mut v, issue("ip", "invalid_ip", Some("必须是有效的IPv4或IPv6地址")));
    }
    let k = chars_of(key).len();
    if !(1 <= k && k <= 255) {
        push_issue(&mut v, issue("key", "length", Some("密钥不能为空")));
    }
    assert(issues_view(v@) =~= machine_issues(name@, ip@, key@));
    v
}

/// A machine as the administrator creates or edits it.
pub struct MachineCreateAdmin {
    pub name: String,
    pub ip: String,
    pub key: String,
}

impl MachineCreateAdmin {
    /// The rules this form breaks; none when it is valid.
    pub fn validate(&self) -> (res: Vec<FieldIssue>)
        ensures
            issues_view(res@) == machine_issues(self.name@, self.ip@, self.key@),
    {
        check_machine(self.name.as_str(), self.ip.as_str(), self.key.as_str())
    }
}

/// A machine as the administrator creates or edits it (service form).
pub struct CreateMachineRequest {
    pub name: String,
    pub ip: String,
    pub key: String,
}

/// The form for editing a machine is the form for creating one.
pub type UpdateMachineRequest = CreateMachineRequest;

impl CreateMachineRequest {
    /// The rules this form breaks; none when it is valid.
    pub fn validate(&self) -> (res: Vec<FieldIssue>)
        ensures
            issues_view(res@) == machine_issues(self.name@, self.ip@, self.key@),
    {
        check_machine(self.name.as_str(), self.ip.as_str(), self.key.as_str())
    }
}

// ---------------------------------------------------------------- target forms

/// The text of an optional field.
pub open spec fn opt_text(o: Option<String>) -> Option<Seq<char>> {
    match o {
        Some(s) => Some(s@),
        None => None,
    }
}

/// The issues of the optional `domain` field: when given, at most 255
/// characters and a domain name.
pub open spec fn domain_issues(domain: Option<Seq<char>>) -> Seq<
    (Seq<char>, Seq<char>, Option<Seq<char>>),
> {
    match domain {
        Some(d) => (if d.len() <= 255 {
            Seq::empty()
        } else {
            seq![("domain"@, "length"@, None)]
        }) + (if is_domain_name(d) {
            Seq::empty()
        } else {
            seq![("domain"@, "invalid_domain"@, Some("无效的域名格式"@))]
        }),
        None => Seq::empty(),
    }
}

/// The issues of the optional `ipv4` field: when given, at most 15
/// characters and an IPv4 address.
pub open spec fn ipv4_issues(ipv4: Option<Seq<char>>) -> Seq<
    (Seq<char>, Seq<char>, Option<Seq<char>>),
> {
    match ipv4 {
        Some(d) => (if d.len() <= 15 {
            Seq::empty()
        } else {
            seq![("ipv4"@, "length"@, None)]
        }) + (if ipv4_text_octets(d) is Some {
            Seq::empty()
        } else {
            seq![("ipv4"@, "invalid_ipv4"@, Some("无效的IPv4地址"@))]
        }),
        None => Seq::empty(),
    }
}

/// The issues of the optional `ipv6` field: when given, at most 45
/// characters and an IPv6 address.
pub open spec fn ipv6_issues(ipv6: Option<Seq<char>>) -> Seq<
    (Seq<char>, Seq<char>, Option<Seq<char>>),
> {
    match ipv6 {
        Some(d) => (if d.len() <= 45 {
            Seq::empty()
        } else {
            seq![("ipv6"@, "length"@, None)]
        }) + (if ipv6_text_groups(d) is Some {
            Seq::empty()
        } else {
            seq![("ipv6"@, "invalid_ipv6"@, Some("无效的IPv6地址"@))]
        }),
        None => Seq::empty(),
    }
}

/// The issues of a target form: `name` of 1 to 100 characters, then those
/// of each optional field.
pub open spec fn target_issues(
    name: Seq<char>,
    domain: Option<Seq<char>>,
    ipv4: Option<Seq<char>>,
    ipv6: Option<Seq<char>>,
) -> Seq<(Seq<char>, Seq<char>, Option<Seq<char>>)> {
    let a = if 1 <= name.len() <= 100 {
        Seq::empty()
    } else {
        seq![("name"@, "length"@, Some("名称不能为空且不能超过100字符"@))]
    };
    a + domain_issues(domain) + ipv4_issues(ipv4) + ipv6_issues(ipv6)
}

fn check_domain(v: &mut Vec<FieldIssue>, domain: &Option<String>)
    ensures
        issues_view(final(v)@) == issues_view(old(v)@) + domain_issues(opt_text(*domain)),
{
    let ghost s0 = issues_view(v@);
    match domain {
        Some(d) => {
            if chars_of(d.as_str()).len() > 255 {
                push_issue(v, issue("domain", "length", None));
            }
            if !validate_domain(d.as_str()) {
                push_issue(v, issue("domain", "invalid_domain", Some("无效的域名格式")));
            }
        },
        None => {},
    }
    assert(issues_view(v@) =~= s0 + domain_issues(opt_text(*domain)));
}

fn check_ipv4(v: &mut Vec<FieldIssue>, ipv4: &Option<String>)
    ensures
        issues_view(final(v)@) == issues_view(old(v)@) + ipv4_issues(opt_text(*ipv4)),
{
    let ghost s0 = issues_view(v@);
    match ipv4 {
        Some(d) => {
            if chars_of(d.as_str()).len() > 15 {
                push_issue(v, issue("ipv4", "length", None));
            }
            if !validate_ipv4(d.as_str()) {
                push_issue(v, issue("ipv4", "invalid_ipv4", Some("无效的IPv4地址")));
            }
        },
        None => {},
    }
    assert(issues_view(v@) =~= s0 + ipv4_issues(opt_text(*ipv4)));
}

fn check_ipv6(v: &mut Vec<FieldIssue>, ipv6: &Option<String>)
    ensures
        issues_view(final(v)@) == issues_view(old(v)@) + ipv6_issues(opt_text(*ipv6)),
{
    let ghost s0 = issues_view(v@);
    match ipv6 {
        Some(d) => {
            if chars_of(d.as_str()).len() > 45 {
                push_issue(v, issue("ipv6", "length", None));
            }
            if !validate_ipv6(d.as_str()) {
                push_issue(v, issue("ipv6", "invalid_ipv6", Some("无效的IPv6地址")));
            }
        },
        None => {},
    }
    assert(issues_view(v@) =~= s0 + ipv6_issues(opt_text(*ipv6)));
}

/// A target as the administrator creates or edits it.
pub struct TargetCreateAdmin {
    pub name: String,
    pub domain: Option<String>,
    pub ipv4: Option<String>,
    pub ipv6: Option<String>,
}

impl TargetCreateAdmin {
    /// The rules this form breaks; none when it is valid.
    pub fn validate(&self) -> (res: Vec<FieldIssue>)
        ensures
            issues_view(res@) == target_issues(
                self.name@,
                opt_text(self.domain),
                opt_text(self.ipv4),
                opt_text(self.ipv6),
            ),
    {
        let mut v: Vec<FieldIssue> = Vec::new();
        let n = chars_of(self.name.as_str()).len();
        if !(1 <= n && n <= 100) {
            push_issue(&mut v, issue("name", "length", Some("名称不能为空且不能超过100字符")));
        }
        let ghost s1 = issues_view(v@);
        check_domain(&mut v, &self.domain);
        check_ipv4(&mut v, &self.ipv4);
        check_ipv6(&mut v, &self.ipv6);
        assert(issues_view(v@) =~= target_issues(
            self.name@,
            opt_text(self.domain),
            opt_text(self.ipv4),
            opt_text(self.ipv6),
        ));
        v
    }
}

} // verus!
