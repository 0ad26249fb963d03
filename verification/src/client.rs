//! The monitoring client: its requests to the server, where it pings each
//! target, and how it sums up twenty pings.
use vstd::prelude::*;
use crate::text::{
    chars_of, concat_chars, int_text, int_to_text, is_white_space, white_space, split_char,
    split_chars, slice_chars, string_from_chars,
};
use crate::net::{IpAddress, ip_text_address, parse_ip_address};
use crate::geo::regex_decimal_digit;

verus! {

/// A target as the server lists it to clients.
pub struct Target {
    pub id: i32,
    pub name: String,
    pub domain: Option<String>,
    pub ipv4: Option<String>,
    pub ipv6: Option<String>,
}

/// The server's reply to a report.
pub struct Message {
    pub msg: String,
}

/// The summary of twenty pings to one address.
#[derive(Clone, Copy, Debug, PartialEq, Eq, Structural)]
pub struct PingData {
    pub ipv6: bool,
    pub min: u16,
    pub avg: u16,
    pub fail: u8,
}

/// How many pings each round sends to an address.
pub const PINGS_PER_ROUND: u8 = 20;

// ---------------------------------------------------------------- requests

/// The bearer token the client sends: `mid:token`.
pub open spec fn client_token_text(mid: i32, token: Seq<char>) -> Seq<char> {
    int_text(mid as int) + seq![':'] + token
}

/// Builds the client's bearer token.
pub fn client_token(mid: i32, token: &str) -> (res: String)
    ensures
        res@ == client_token_text(mid, token@),
{
    let a = int_to_text(mid as i64);
    let mut colon: Vec<char> = Vec::new();
    colon.push(':');
    let b = chars_of(token);
    let ac = concat_chars(&a, &colon);
    let all = concat_chars(&ac, &b);
    assert(colon@ =~= seq![':']);
    string_from_chars(&all)
}

/// The URL the client lists its targets at.
pub fn targets_url(server_url: &str) -> (res: String)
    ensures
        res@ == server_url@ + "/api/client/targets/"@,
{
    let a = chars_of(server_url);
    let b = chars_of("/api/client/targets/");
    string_from_chars(&concat_chars(&a, &b))
}

/// The URL the client reports a target's pings to.
pub fn target_data_url(server_url: &str, target_id: i32) -> (res: String)
    ensures
        res@ == server_url@ + "/api/client/targets/"@ + int_text(target_id as int),
{
    let a = chars_of(server_url);
    let b = chars_of("/api/client/targets/");
    let c = int_to_text(target_id as i64);
    let ab = concat_chars(&a, &b);
    string_from_chars(&concat_chars(&ab, &c))
}

/// The address a configured field names, read as `IpAddr` reads it.
pub open spec fn field_address(field: Option<String>) -> Option<IpAddress> {
    match field {
        Some(s) => ip_text_address(s@),
        None => None,
    }
}

fn address_of(field: &Option<String>) -> (res: Option<IpAddress>)
    ensures
        res == field_address(*field),
{
    match field {
        Some(s) => parse_ip_address(&chars_of(s.as_str())),
        None => None,
    }
}

/// The addresses to ping for a target that has no domain: its configured
/// IPv4 and IPv6 fields, each when it reads as an address.
pub fn configured_addresses(target: &Target) -> (res: (Option<IpAddress>, Option<IpAddress>))
    ensures
        res == (field_address(target.ipv4), field_address(target.ipv6)),
{
    (address_of(&target.ipv4), address_of(&target.ipv6))
}

// ---------------------------------------------------------------- summaries

/// The sum of the times.
pub open spec fn sum_of(s: Seq<u16>) -> nat
    decreases s.len(),
{
    if s.len() == 0 {
        0
    } else {
        sum_of(s.drop_last()) + s.last() as nat
    }
}

/// The smallest of the times (the first, for a single time).
pub open spec fn min_of(s: Seq<u16>) -> u16
    decreases s.len(),
{
    if s.len() <= 1 {
        s[0]
    } else {
        let m = min_of(s.drop_last());
        if s.last() < m {
            s.last()
        } else {
            m
        }
    }
}

proof fn lemma_sum_prefix(s: Seq<u16>, i: int)
    requires
        0 <= i <= s.len(),
    ensures
        sum_of(s.take(i)) <= sum_of(s),
    decreases s.len() - i,
{
    if i < s.len() {
        lemma_sum_prefix(s, i + 1);
        assert(s.take(i + 1).drop_last() =~= s.take(i));
    } else {
        assert(s.take(i) =~= s);
    }
}

/// The smallest time and the sum of the times.
fn min_and_sum(times: &Vec<u16>) -> (res: (u16, u16))
    requires
        times.len() > 0,
        sum_of(times@) <= u16::MAX,
    ensures
        res.0 == min_of(times@),
        res.1 == sum_of(times@),
{
    let mut m: u16 = times[0];
    let mut total: u16 = times[0];
    let mut i: usize = 1;
    assert(times@.take(1).drop_last() =~= Seq::<u16>::empty());
    assert(times@.take(1).last() == times@[0]);
    assert(sum_of(Seq::<u16>::empty()) == 0);
    while i < times.len()
        invariant
            1 <= i <= times.len(),
            sum_of(times@) <= u16::MAX,
            m == min_of(times@.take(i as int)),
            total == sum_of(times@.take(i as int)),
        decreases times.len() - i,
    {
        proof {
            lemma_sum_prefix(times@, i + 1);
        }
        assert(times@.take(i + 1).drop_last() =~= times@.take(i as int));
        if times[i] < m {
            m = times[i];
        }
        total = total + times[i];
        i = i + 1;
    }
    assert(times@.take(times.len() as int) =~= times@);
    (m, total)
}

/// Whether the times add up to at most `u16::MAX`, so that they can be
/// summed up.
pub fn sum_of_times_fits(times: &Vec<u16>) -> (r: bool)
    ensures
        r == (sum_of(times@) <= u16::MAX),
{
    let mut total: u64 = 0;
    let mut i: usize = 0;
    assert(times@.take(0) =~= Seq::<u16>::empty());
    while i < times.len()
        invariant
            i <= times.len(),
            total == sum_of(times@.take(i as int)),
            total <= u16::MAX,
        decreases times.len() - i,
    {
        assert(times@.take(i + 1).drop_last() =~= times@.take(i as int));
        total = total + times[i] as u64;
        if total > 65535 {
            proof {
                lemma_sum_prefix(times@, i + 1);
            }
            return false;
        }
        i = i + 1;
    }
    assert(times@.take(times.len() as int) =~= times@);
    true
}

/// The summary of one round: `None` when no ping came back; otherwise the
/// fastest time, the integer mean of the times, and how many of the twenty
/// failed.
pub open spec fn native_summary_of(times: Seq<u16>, ipv6: bool) -> Option<PingData> {
    if times.len() == 0 {
        None
    } else {
        Some(
            PingData {
                ipv6,
                min: min_of(times),
                avg: (sum_of(times) / times.len()) as u16,
                fail: (20 - times.len()) as u8,
            },
        )
    }
}

/// Sums up a round of native pings.
pub fn native_summary(times: &Vec<u16>, ipv6: bool) -> (res: Option<PingData>)
    requires
        times.len() <= 20,
        sum_of(times@) <= u16::MAX,
    ensures
        res == native_summary_of(times@, ipv6),
{
    if times.len() == 0 {
        return None;
    }
    let (m, total) = min_and_sum(times);
    let n = times.len() as u16;
    Some(PingData { ipv6, min: m, avg: total / n, fail: 20 - times.len() as u8 })
}

/// The summary of a round of system pings: as for native pings, except
/// that the mean divides by the count of replies kept to sixteen bits, and
/// the failures are `20` minus that count kept to eight bits, as the casts
/// do.
pub open spec fn system_summary_of(times: Seq<u16>, ipv6: bool) -> Option<PingData> {
    if times.len() == 0 {
        None
    } else {
        Some(
            PingData {
                ipv6,
                min: min_of(times),
                avg: (sum_of(times) / (times.len() % 65536)) as u16,
                fail: ((20 - times.len()) % 256) as u8,
            },
        )
    }
}

/// Sums up a round of system pings.
pub fn system_summary(times: &Vec<u16>, ipv6: bool) -> (res: Option<PingData>)
    requires
        times.len() <= i32::MAX,
        times.len() == 0 || times.len() % 65536 != 0,
        sum_of(times@) <= u16::MAX,
    ensures
        res == system_summary_of(times@, ipv6),
{
    if times.len() == 0 {
        return None;
    }
    let (m, total) = min_and_sum(times);
    let n: u16 = (times.len() % 65536) as u16;
    let k: u64 = (times.len() % 256) as u64;
    let fail: u8 = if k <= 20 {
        (20 - k) as u8
    } else {
        (276 - k) as u8
    };
    assert(((20 - times.len()) % 256) as u8 == fail) by (nonlinear_arith)
        requires
            k == times.len() % 256,
            fail == (if k <= 20 {
                20 - k
            } else {
                276 - k
            }),
    ;
    Some(PingData { ipv6, min: m, avg: total / n, fail })
}

// ---------------------------------------------------------------- a round of native pings

/// What one native ping brought back.
#[derive(Clone, Copy)]
pub enum PingReply {
    /// A reply, of the given family, after this many milliseconds.
    Reply { v6: bool, millis: u16 },
    /// No reply.
    Lost,
}

/// A round of native pings to one address: the family pinged, how many
/// pings were sent, and the times of the replies of that family.
pub struct NativeRound {
    pub ipv6: bool,
    pub sent: u8,
    pub times: Vec<u16>,
}

impl NativeRound {
    /// A round that has sent nothing yet.
    pub fn new(ipv6: bool) -> (res: NativeRound)
        ensures
            res.ipv6 == ipv6,
            res.sent == 0,
            res.times@.len() == 0,
    {
        NativeRound { ipv6, sent: 0, times: Vec::new() }
    }

    /// Whether all twenty pings were sent.
    pub fn finished(&self) -> (r: bool)
        ensures
            r == (self.sent >= PINGS_PER_ROUND),
    {
        self.sent >= PINGS_PER_ROUND
    }

    /// Whether to pause before the next ping: after every ping but the last.
    pub fn pause_after(&self) -> (r: bool)
        ensures
            r == (0 < self.sent < PINGS_PER_ROUND),
    {
        0 < self.sent && self.sent < PINGS_PER_ROUND
    }

    /// Records one ping: a reply counts only when it is of the family
    /// pinged.
    pub fn record(&mut self, reply: PingReply)
        requires
            old(self).sent < PINGS_PER_ROUND,
        ensures
            final(self).ipv6 == old(self).ipv6,
            final(self).sent == old(self).sent + 1,
            final(self).times@ == (match reply {
                PingReply::Reply { v6, millis } => if v6 == old(self).ipv6 {
                    old(self).times@.push(millis)
                } else {
                    old(self).times@
                },
                PingReply::Lost => old(self).times@,
            }),
    {
        match reply {
            PingReply::Reply { v6, millis } => {
                if v6 == self.ipv6 {
                    self.times.push(millis);
                }
            },
            PingReply::Lost => {},
        }
        self.sent = self.sent + 1;
    }

    /// The summary of the round.
    pub fn summary(&self) -> (res: Option<PingData>)
        requires
            self.times@.len() <= 20,
            sum_of(self.times@) <= u16::MAX,
        ensures
            res == native_summary_of(self.times@, self.ipv6),
    {
        native_summary(&self.times, self.ipv6)
    }
}

/// An address to ping, and whether it is the target's IPv6 address.
#[derive(Clone, Copy)]
pub struct PingJob {
    pub target_id: i32,
    pub addr: IpAddress,
    pub ipv6: bool,
}

/// The first IPv4 and the first IPv6 address among those a name resolved to.
pub open spec fn first_of_each(addrs: Seq<IpAddress>) -> (Option<IpAddress>, Option<IpAddress>)
    decreases addrs.len(),
{
    if addrs.len() == 0 {
        (None, None)
    } else {
        let (v4, v6) = first_of_each(addrs.drop_first());
        match addrs[0] {
            IpAddress::V4(_) => (Some(addrs[0]), v6),
            IpAddress::V6(_) => (v4, Some(addrs[0])),
        }
    }
}

/// Picks the first IPv4 and the first IPv6 address a domain resolved to.
pub fn pick_resolved(addrs: &Vec<IpAddress>) -> (res: (Option<IpAddress>, Option<IpAddress>))
    ensures
        res == first_of_each(addrs@),
{
    let mut v4: Option<IpAddress> = None;
    let mut v6: Option<IpAddress> = None;
    let mut i: usize = addrs.len();
    assert(addrs@.subrange(i as int, addrs@.len() as int) =~= Seq::<IpAddress>::empty());
    while i > 0
        invariant
            i <= addrs.len(),
            (v4, v6) == first_of_each(addrs@.subrange(i as int, addrs@.len() as int)),
        decreases i,
    {
        let ghost tail = addrs@.subrange(i as int, addrs@.len() as int);
        i = i - 1;
        assert(addrs@.subrange(i as int, addrs@.len() as int).drop_first() =~= tail);
        match addrs[i] {
            IpAddress::V4(_) => {
                v4 = Some(addrs[i]);
            },
            IpAddress::V6(_) => {
                v6 = Some(addrs[i]);
            },
        }
    }
    assert(addrs@.subrange(0, addrs@.len() as int) =~= addrs@);
    (v4, v6)
}

/// The addresses a target is pinged at: for a target with a domain, what
/// the domain resolved to (nothing when it did not resolve); otherwise its
/// configured addresses.
pub open spec fn target_addresses(
    target: Target,
    resolved: Option<(Option<IpAddress>, Option<IpAddress>)>,
) -> (Option<IpAddress>, Option<IpAddress>) {
    if target.domain is Some {
        match resolved {
            Some(r) => r,
            None => (None, None),
        }
    } else {
        (field_address(target.ipv4), field_address(target.ipv6))
    }
}

/// The pings of a round for one target: its IPv4 address, then its IPv6
/// address, each when it has one.
pub open spec fn target_jobs(target_id: i32, addrs: (Option<IpAddress>, Option<IpAddress>)) -> Seq<
    PingJob,
> {
    let first = match addrs.0 {
        Some(a) => seq![PingJob { target_id, addr: a, ipv6: false }],
        None => Seq::<PingJob>::empty(),
    };
    match addrs.1 {
        Some(a) => first.push(PingJob { target_id, addr: a, ipv6: true }),
        None => first,
    }
}

/// Plans the pings for one target, given what its domain resolved to (for
/// a target with a domain; `None` when the lookup failed).
pub fn plan_target(target: &Target, resolved: Option<(Option<IpAddress>, Option<IpAddress>)>) -> (res:
    Vec<PingJob>)
    ensures
        res@ == target_jobs(target.id, target_addresses(*target, resolved)),
{
    let addrs = if target.domain.is_some() {
        match resolved {
            Some(r) => r,
            None => (None, None),
        }
    } else {
        configured_addresses(target)
    };
    let mut jobs: Vec<PingJob> = Vec::new();
    match addrs.0 {
        Some(a) => jobs.push(PingJob { target_id: target.id, addr: a, ipv6: false }),
        None => {},
    }
    match addrs.1 {
        Some(a) => jobs.push(PingJob { target_id: target.id, addr: a, ipv6: true }),
        None => {},
    }
    assert(jobs@ =~= target_jobs(target.id, addrs));
    jobs
}

/// What the target list request came back with: the error the client
/// reports when the request failed or was refused.
pub fn targets_reply_error(status: Option<u16>) -> (res: Option<String>)
    ensures
        match status {
            None => res matches Some(m) && m@ == "Network error"@,
            Some(s) => if s == 200 {
                res is None
            } else {
                res matches Some(m) && m@ == "Invalid mid or token"@
            },
        },
{
    match status {
        None => Some("Network error".to_string()),
        Some(s) => if s == 200 {
            None
        } else {
            Some("Invalid mid or token".to_string())
        },
    }
}

// ---------------------------------------------------------------- system ping output

/// The lines of a text as `str::lines` gives them: split at `\n`, a `\r`
/// before the `\n` dropped, no empty line after a final `\n`.
pub open spec fn text_lines(s: Seq<char>) -> Seq<Seq<char>> {
    let pieces = split_char(s, '\n');
    let n = pieces.len();
    let ended = Seq::new((n - 1) as nat, |i: int| without_cr(pieces[i]));
    if pieces[n - 1].len() == 0 {
        ended
    } else {
        ended.push(pieces[n - 1])
    }
}

/// A line that ended at `\n`, without the `\r` before it.
pub open spec fn without_cr(p: Seq<char>) -> Seq<char> {
    if p.len() > 0 && p.last() == '\r' {
        p.drop_last()
    } else {
        p
    }
}

fn strip_cr(piece: &Vec<char>, ended: bool) -> (line: Vec<char>)
    ensures
        line@ == (if ended {
            without_cr(piece@)
        } else {
            piece@
        }),
{
    if ended && piece.len() > 0 && piece[piece.len() - 1] == '\r' {
        let r = slice_chars(piece, 0, piece.len() - 1);
        assert(piece@.drop_last() =~= piece@.subrange(0, piece@.len() - 1));
        r
    } else {
        let r = slice_chars(piece, 0, piece.len());
        assert(piece@.subrange(0, piece@.len() as int) =~= piece@);
        r
    }
}

/// A character of a reply time: a digit as `\d` reads it, or `.`.
pub open spec fn is_time_char(c: char) -> bool {
    regex_decimal_digit(c) || c == '.'
}

/// The length of the run of characters from `i` that satisfy `p`.
pub open spec fn run_len(s: Seq<char>, i: int, time_chars: bool) -> nat
    decreases s.len() - i,
{
    if 0 <= i < s.len() && (if time_chars {
        is_time_char(s[i])
    } else {
        is_white_space(s[i])
    }) {
        1 + run_len(s, i + 1, time_chars)
    } else {
        0
    }
}

/// The pattern `=([\d.]+)\s*ms` matches at `p`: `=`, a run of time
/// characters, white space, then `ms`.
pub open spec fn time_match_at(s: Seq<char>, p: int) -> bool {
    let r = run_len(s, p + 1, true);
    let q = p + 1 + r + run_len(s, p + 1 + r, false);
    &&& 0 <= p < s.len()
    &&& s[p] == '='
    &&& r >= 1
    &&& q + 1 < s.len()
    &&& s[q] == 'm'
    &&& s[q + 1] == 's'
}

/// The reply time the pattern captures in a line: the run after the first
/// position where it matches.
#[verifier::opaque]
pub open spec fn line_time(line: Seq<char>) -> Option<Seq<char>> {
    if exists|p: int| time_match_at(line, p) {
        let p = choose|p: int|
            time_match_at(line, p) && forall|j: int| 0 <= j < p ==> !time_match_at(line, j);
        Some(line.subrange(p + 1, p + 1 + run_len(line, p + 1, true)))
    } else {
        None
    }
}

/// The reply times captured in the lines, in order.
pub open spec fn captured_times(lines: Seq<Seq<char>>) -> Seq<Seq<char>>
    decreases lines.len(),
{
    if lines.len() == 0 {
        Seq::<Seq<char>>::empty()
    } else {
        let rest = captured_times(lines.drop_last());
        match line_time(lines.last()) {
            Some(t) => rest.push(t),
            None => rest,
        }
    }
}

/// Tests `c` against `\d` (see `geo`).
fn time_char(c: char) -> (r: bool)
    ensures
        r == is_time_char(c),
{
    crate::geo::regex_digit(c) || c == '.'
}

fn class_char(c: char, time_chars: bool) -> (r: bool)
    ensures
        r == (if time_chars {
            is_time_char(c)
        } else {
            is_white_space(c)
        }),
{
    if time_chars {
        time_char(c)
    } else {
        white_space(c)
    }
}

fn run_from(s: &Vec<char>, i: usize, time_chars: bool) -> (res: usize)
    requires
        i <= s.len(),
    ensures
        res == run_len(s@, i as int, time_chars),
        i + res <= s.len(),
{
    let mut j: usize = i;
    while j < s.len() && class_char(s[j], time_chars)
        invariant
            i <= j <= s.len(),
            run_len(s@, i as int, time_chars) == (j - i) + run_len(s@, j as int, time_chars),
        decreases s.len() - j,
    {
        j = j + 1;
    }
    (j - i)
}

fn match_at(s: &Vec<char>, p: usize) -> (res: bool)
    requires
        p < s.len(),
    ensures
        res == time_match_at(s@, p as int),
{
    if s[p] != '=' {
        return false;
    }
    let r = run_from(s, p + 1, true);
    if r < 1 {
        return false;
    }
    let w = run_from(s, p + 1 + r, false);
    let q = p + 1 + r + w;
    s.len() - q > 1 && s[q] == 'm' && s[q + 1] == 's'
}

/// Finds the reply time in one line.
fn find_line_time(line: &Vec<char>) -> (res: Option<Vec<char>>)
    ensures
        match line_time(line@) {
            Some(t) => res matches Some(v) && v@ == t,
            None => res is None,
        },
{
    let mut p: usize = 0;
    while p < line.len()
        invariant
            p <= line.len(),
            forall|j: int| 0 <= j < p ==> !time_match_at(line@, j),
        decreases line.len() - p,
    {
        reveal(line_time);
        if match_at(line, p) {
            let r = run_from(line, p + 1, true);
            let ghost pp = choose|q: int|
                time_match_at(line@, q) && forall|j: int| 0 <= j < q ==> !time_match_at(line@, j);
            assert(pp == p) by {
                if pp < p {
                    assert(!time_match_at(line@, pp));
                }
                if pp > p {
                    assert(time_match_at(line@, p as int));
                }
            }
            return Some(slice_chars(line, p + 1, p + 1 + r));
        }
        p = p + 1;
    }
    assert forall|q: int| !time_match_at(line@, q) by {
        if 0 <= q < p {
        } else {
            assert(!(0 <= q < line@.len()));
        }
    }
    reveal(line_time);
    None
}

/// The lines of a text, piece by piece: each piece split at `\n` but the
/// last is a line without its `\r`; the last piece is a line unless empty.
proof fn lemma_text_lines(s: Seq<char>)
    ensures
        ({
            let ps = split_char(s, '\n');
            let n = ps.len();
            let lines = text_lines(s);
            &&& n >= 1
            &&& lines.len() == (if ps[n - 1].len() == 0 {
                n - 1
            } else {
                n as int
            })
            &&& forall|k: int|
                0 <= k < lines.len() ==> #[trigger] lines[k] == (if k + 1 < n {
                    without_cr(ps[k])
                } else {
                    ps[k]
                })
        }),
{
    crate::text::lemma_split_char_nonempty(s, '\n');
}

/// Appends the reply time of `line`, if it has one.
fn push_line_time(out: &mut Vec<String>, time: Option<Vec<char>>)
    ensures
        final(out)@.map_values(|t: String| t@) == (match time {
            Some(t) => old(out)@.map_values(|t: String| t@).push(t@),
            None => old(out)@.map_values(|t: String| t@),
        }),
{
    match time {
        Some(t) => {
            let ghost prev = out@;
            out.push(string_from_chars(&t));
            assert(out@.map_values(|t: String| t@) =~= prev.map_values(|t: String| t@).push(t@));
        },
        None => {},
    }
}

/// Finds the reply times in the output of the system `ping` command; the
/// caller reads each as a number.
pub fn reply_times(output: &str) -> (res: Vec<String>)
    ensures
        res@.map_values(|t: String| t@) == captured_times(text_lines(output@)),
{
    let cs = chars_of(output);
    let pieces = split_chars(&cs, '\n');
    let ghost ps = split_char(output@, '\n');
    let ghost lines = text_lines(output@);
    proof {
        lemma_text_lines(output@);
    }
    let n = pieces.len();
    let mut out: Vec<String> = Vec::new();
    let mut i: usize = 0;
    let count = if pieces[n - 1].len() == 0 {
        n - 1
    } else {
        n
    };
    assert(lines.take(0) =~= Seq::<Seq<char>>::empty());
    while i < count
        invariant
            i <= count <= n == pieces.len() == ps.len(),
            lines.len() == count,
            forall|k: int| 0 <= k < pieces@.len() ==> #[trigger] pieces@[k]@ == ps[k],
            forall|k: int|
                0 <= k < lines.len() ==> #[trigger] lines[k] == (if k + 1 < n {
                    without_cr(ps[k])
                } else {
                    ps[k]
                }),
            out@.map_values(|t: String| t@) == captured_times(lines.take(i as int)),
        decreases count - i,
    {
        let line = strip_cr(&pieces[i], i + 1 < n);
        assert(line@ == lines[i as int]);
        assert(lines.take(i + 1).drop_last() =~= lines.take(i as int));
        let time = find_line_time(&line);
        push_line_time(&mut out, time);
        i = i + 1;
    }
    assert(lines.take(count as int) =~= lines);
    out
}

} // verus!
