//! IP addresses in their textual form, as the standard library reads them
//! (`Ipv4Addr`, `Ipv6Addr` and `IpAddr` from `str`).
use vstd::prelude::*;
use crate::text::{
    split_char, split_chars, slice_chars, decimal_value, all_ascii_digits, ascii_digit, chars_of,
    contains_char, trim, trim_chars, concat_chars, string_from_chars,
};
use vstd::arithmetic::power2::pow2;

verus! {

broadcast use vstd::array::group_array_axioms;

/// An IP address: four octets, or eight 16-bit groups.
#[derive(Clone, Copy, Debug, PartialEq, Eq)]
pub enum IpAddress {
    V4([u8; 4]),
    V6([u16; 8]),
}

// ---------------------------------------------------------------- IPv4

/// A decimal octet as `Ipv4Addr` accepts it: one to three ASCII digits,
/// no leading zero unless the octet is `0`, value at most 255.
pub open spec fn is_octet_text(f: Seq<char>) -> bool {
    &&& 1 <= f.len() <= 3
    &&& all_ascii_digits(f)
    &&& (f.len() > 1 ==> f[0] != '0')
    &&& decimal_value(f) <= 255
}

/// The octets of `s` read as a dotted-quad IPv4 address, or `None` when `s`
/// is not one: exactly four octets separated by `.`.
pub open spec fn ipv4_text_octets(s: Seq<char>) -> Option<Seq<u8>> {
    let f = split_char(s, '.');
    if f.len() == 4 && forall|k: int| 0 <= k < 4 ==> is_octet_text(#[trigger] f[k]) {
        Some(Seq::new(4, |k: int| decimal_value(f[k]) as u8))
    } else {
        None
    }
}

/// Reads a decimal octet.
fn parse_octet(f: &Vec<char>) -> (res: Option<u8>)
    ensures
        res is Some <==> is_octet_text(f@),
        res matches Some(v) ==> v == decimal_value(f@),
{
    let n = f.len();
    if n < 1 || n > 3 {
        return None;
    }
    if n > 1 && f[0] == '0' {
        return None;
    }
    let mut v: u32 = 0;
    let mut i: usize = 0;
    while i < n
        invariant
            i <= n <= 3,
            n == f.len(),
            v == decimal_value(f@.take(i as int)),
            all_ascii_digits(f@.take(i as int)),
            i == 0 ==> v == 0,
            i <= 1 ==> v < 10,
            i <= 2 ==> v < 100,
            v < 1000,
        decreases n - i,
    {
        let c = f[i];
        if !ascii_digit(c) {
            assert(!all_ascii_digits(f@));
            return None;
        }
        assert(f@.take(i + 1).drop_last() =~= f@.take(i as int));
        v = v * 10 + (c as u32 - '0' as u32);
        i = i + 1;
        assert(all_ascii_digits(f@.take(i as int)));
    }
    assert(f@.take(n as int) =~= f@);
    if v > 255 {
        None
    } else {
        Some(v as u8)
    }
}

/// Reads a dotted-quad IPv4 address.
pub fn parse_ipv4(s: &Vec<char>) -> (res: Option<[u8; 4]>)
    ensures
        match res {
            Some(a) => ipv4_text_octets(s@) == Some(a@),
            None => ipv4_text_octets(s@) is None,
        },
{
    let fields = split_chars(s, '.');
    let ghost f = split_char(s@, '.');
    if fields.len() != 4 {
        return None;
    }
    let o0 = match parse_octet(&fields[0]) {
        Some(v) => v,
        None => {
            assert(!is_octet_text(f[0]));
            return None;
        },
    };
    let o1 = match parse_octet(&fields[1]) {
        Some(v) => v,
        None => {
            assert(!is_octet_text(f[1]));
            return None;
        },
    };
    let o2 = match parse_octet(&fields[2]) {
        Some(v) => v,
        None => {
            assert(!is_octet_text(f[2]));
            return None;
        },
    };
    let o3 = match parse_octet(&fields[3]) {
        Some(v) => v,
        None => {
            assert(!is_octet_text(f[3]));
            return None;
        },
    };
    let a = [o0, o1, o2, o3];
    assert forall|k: int| 0 <= k < 4 implies is_octet_text(#[trigger] f[k]) by {
        assert(fields@[k]@ == f[k]);
    }
    assert(a@ =~= Seq::new(4, |k: int| decimal_value(f[k]) as u8));
    Some(a)
}

// ---------------------------------------------------------------- IPv6

/// An ASCII hexadecimal digit, either case.
pub open spec fn is_hex_digit(c: char) -> bool {
    ||| '0' <= c <= '9'
    ||| 'a' <= c <= 'f'
    ||| 'A' <= c <= 'F'
}

/// The value of a hexadecimal digit.
pub open spec fn hex_digit_value(c: char) -> nat {
    if '0' <= c <= '9' {
        (c as u32 - '0' as u32) as nat
    } else if 'a' <= c <= 'f' {
        (c as u32 - 'a' as u32 + 10) as nat
    } else {
        (c as u32 - 'A' as u32 + 10) as nat
    }
}

/// The value of a string of hexadecimal digits.
pub open spec fn hex_value(s: Seq<char>) -> nat
    decreases s.len(),
{
    if s.len() == 0 {
        0
    } else {
        hex_value(s.drop_last()) * 16 + hex_digit_value(s.last())
    }
}

/// A 16-bit group as `Ipv6Addr` accepts it: one to four hexadecimal digits.
pub open spec fn is_hex_group(f: Seq<char>) -> bool {
    &&& 1 <= f.len() <= 4
    &&& forall|i: int| 0 <= i < f.len() ==> is_hex_digit(#[trigger] f[i])
}

/// The groups that one colon-separated field stands for: one group for a hex
/// group, two for an embedded dotted quad, none for anything else.
pub open spec fn field_groups(f: Seq<char>) -> Seq<u16> {
    if is_hex_group(f) {
        seq![hex_value(f) as u16]
    } else {
        match ipv4_text_octets(f) {
            Some(o) => seq![(o[0] * 256 + o[1]) as u16, (o[2] * 256 + o[3]) as u16],
            None => Seq::<u16>::empty(),
        }
    }
}

/// The groups of a list of fields, in order.
pub open spec fn fields_groups(fs: Seq<Seq<char>>) -> Seq<u16>
    decreases fs.len(),
{
    if fs.len() == 0 {
        Seq::<u16>::empty()
    } else {
        fields_groups(fs.drop_last()) + field_groups(fs.last())
    }
}

/// Every field is a hex group.
pub open spec fn all_hex_fields(fs: Seq<Seq<char>>) -> bool {
    forall|k: int| 0 <= k < fs.len() ==> is_hex_group(#[trigger] fs[k])
}

/// Every field is a hex group, except that the last may be a dotted quad.
pub open spec fn group_fields(fs: Seq<Seq<char>>) -> bool {
    &&& forall|k: int| 0 <= k < fs.len() - 1 ==> is_hex_group(#[trigger] fs[k])
    &&& fs.len() > 0 ==> (is_hex_group(fs.last()) || ipv4_text_octets(fs.last()) is Some)
}

/// The colon-separated fields of `p`; none when `p` is empty.
pub open spec fn colon_fields(p: Seq<char>) -> Seq<Seq<char>> {
    if p.len() == 0 {
        Seq::<Seq<char>>::empty()
    } else {
        split_char(p, ':')
    }
}

/// `::` starts at position `k`.
pub open spec fn is_double_colon_at(s: Seq<char>, k: int) -> bool {
    0 <= k && k + 1 < s.len() && s[k] == ':' && s[k + 1] == ':'
}

/// `k` is where the first `::` starts.
pub open spec fn is_first_double_colon(s: Seq<char>, k: int) -> bool {
    &&& is_double_colon_at(s, k)
    &&& forall|j: int| 0 <= j < k ==> !is_double_colon_at(s, j)
}

/// The eight groups of `s` read as an IPv6 address, or `None`.
///
/// Without `::`, `s` is eight hex groups separated by `:`, of which the
/// last two may be written as one dotted quad. With `::` (its first
/// occurrence), the part before is hex groups only and the part after is
/// hex groups of which the last may be a dotted quad; together they hold at
/// most seven groups, and `::` stands for the zero groups in between.
pub open spec fn ipv6_text_groups(s: Seq<char>) -> Option<Seq<u16>> {
    if exists|k: int| is_double_colon_at(s, k) {
        let k = choose|k: int| is_first_double_colon(s, k);
        let hf = colon_fields(s.subrange(0, k));
        let tf = colon_fields(s.subrange(k + 2, s.len() as int));
        let tg = fields_groups(tf);
        if all_hex_fields(hf) && group_fields(tf) && hf.len() + tg.len() <= 7 {
            Some(
                fields_groups(hf) + Seq::new((8 - hf.len() - tg.len()) as nat, |i: int| 0u16)
                    + tg,
            )
        } else {
            None
        }
    } else {
        let fs = split_char(s, ':');
        if group_fields(fs) && fields_groups(fs).len() == 8 {
            Some(fields_groups(fs))
        } else {
            None
        }
    }
}

/// The address `s` denotes, read first as IPv4 and then as IPv6, as
/// `IpAddr` reads it.
pub open spec fn ip_text_address(s: Seq<char>) -> Option<IpAddress> {
    match ipv4_text_octets(s) {
        Some(o) => Some(IpAddress::V4([o[0], o[1], o[2], o[3]])),
        None => match ipv6_text_groups(s) {
            Some(g) => Some(IpAddress::V6([g[0], g[1], g[2], g[3], g[4], g[5], g[6], g[7]])),
            None => None,
        },
    }
}

fn hex_digit(c: char) -> (r: Option<u32>)
    ensures
        r is Some <==> is_hex_digit(c),
        r matches Some(v) ==> v == hex_digit_value(c) && v < 16,
{
    if '0' <= c && c <= '9' {
        Some(c as u32 - '0' as u32)
    } else if 'a' <= c && c <= 'f' {
        Some(c as u32 - 'a' as u32 + 10)
    } else if 'A' <= c && c <= 'F' {
        Some(c as u32 - 'A' as u32 + 10)
    } else {
        None
    }
}

/// Reads a hex group.
fn parse_hex_group(f: &Vec<char>) -> (res: Option<u16>)
    ensures
        res is Some <==> is_hex_group(f@),
        res matches Some(v) ==> v == hex_value(f@),
{
    let n = f.len();
    if n < 1 || n > 4 {
        return None;
    }
    let mut v: u32 = 0;
    let mut i: usize = 0;
    while i < n
        invariant
            i <= n <= 4,
            n == f.len(),
            v == hex_value(f@.take(i as int)),
            forall|j: int| 0 <= j < i ==> is_hex_digit(#[trigger] f@[j]),
            i == 0 ==> v == 0,
            i <= 1 ==> v < 16,
            i <= 2 ==> v < 256,
            i <= 3 ==> v < 4096,
            v < 65536,
        decreases n - i,
    {
        let d = match hex_digit(f[i]) {
            Some(d) => d,
            None => {
                return None;
            },
        };
        assert(f@.take(i + 1).drop_last() =~= f@.take(i as int));
        v = v * 16 + d;
        i = i + 1;
    }
    assert(f@.take(n as int) =~= f@);
    Some(v as u16)
}

/// The groups one field stands for, or `None` when the field is neither a
/// hex group nor (where `allow_quad`) a dotted quad.
fn parse_field(f: &Vec<char>, allow_quad: bool) -> (res: Option<Vec<u16>>)
    ensures
        res is Some <==> (is_hex_group(f@) || (allow_quad && ipv4_text_octets(f@) is Some)),
        res matches Some(g) ==> g@ == field_groups(f@),
{
    match parse_hex_group(f) {
        Some(v) => {
            let mut g: Vec<u16> = Vec::new();
            g.push(v);
            assert(g@ =~= field_groups(f@));
            Some(g)
        },
        None => {
            if !allow_quad {
                return None;
            }
            match parse_ipv4(f) {
                Some(o) => {
                    let mut g: Vec<u16> = Vec::new();
                    g.push((o[0] as u16) * 256 + o[1] as u16);
                    g.push((o[2] as u16) * 256 + o[3] as u16);
                    assert(g@ =~= field_groups(f@));
                    Some(g)
                },
                None => None,
            }
        },
    }
}

proof fn lemma_fields_groups_step(fs: Seq<Seq<char>>, i: int)
    requires
        0 <= i < fs.len(),
    ensures
        fields_groups(fs.take(i + 1)) == fields_groups(fs.take(i)) + field_groups(fs[i]),
{
    assert(fs.take(i + 1).drop_last() =~= fs.take(i));
}

/// The groups of a list of fields, when every field is a hex group except
/// that (where `quad_last`) the last may be a dotted quad.
fn parse_fields(fs: &Vec<Vec<char>>, quad_last: bool) -> (res: Option<Vec<u16>>)
    ensures
        ({
            let v = fs@.map_values(|f: Vec<char>| f@);
            &&& res is Some <==> (if quad_last {
                group_fields(v)
            } else {
                all_hex_fields(v)
            })
            &&& res matches Some(g) ==> g@ == fields_groups(v)
        }),
{
    let ghost v = fs@.map_values(|f: Vec<char>| f@);
    let mut out: Vec<u16> = Vec::new();
    let n = fs.len();
    let mut i: usize = 0;
    assert(v.take(0) =~= Seq::<Seq<char>>::empty());
    while i < n
        invariant
            i <= n == fs.len(),
            v == fs@.map_values(|f: Vec<char>| f@),
            out@ == fields_groups(v.take(i as int)),
            forall|k: int| 0 <= k < i ==> is_hex_group(#[trigger] v[k]),
        decreases n - i,
    {
        let allow = quad_last && i + 1 == n;
        let g = match parse_field(&fs[i], allow) {
            Some(g) => g,
            None => {
                assert(!is_hex_group(v[i as int]));
                if quad_last {
                    if i + 1 < n {
                        assert(!group_fields(v));
                    } else {
                        assert(v.last() == v[i as int]);
                    }
                }
                return None;
            },
        };
        proof {
            lemma_fields_groups_step(v, i as int);
        }
        let mut k: usize = 0;
        let ghost before = out@;
        while k < g.len()
            invariant
                k <= g.len(),
                out@ == before + g@.take(k as int),
            decreases g.len() - k,
        {
            out.push(g[k]);
            k = k + 1;
            assert(out@ =~= before + g@.take(k as int));
        }
        assert(g@.take(g@.len() as int) =~= g@);
        if g.len() != 1 {
            // only the last field may be a dotted quad, and only where allowed
            assert(!is_hex_group(v[i as int]));
            assert(allow);
            assert(i + 1 == n);
            assert(v.take((i + 1) as int) =~= v);
            assert(out@ == fields_groups(v));
            assert(group_fields(v));
            return Some(out);
        }
        i = i + 1;
    }
    assert(v.take(n as int) =~= v);
    assert(all_hex_fields(v));
    Some(out)
}

/// The fields of `p` split at `:`, none when `p` is empty.
fn colon_fields_of(p: &Vec<char>) -> (res: Vec<Vec<char>>)
    ensures
        res@.map_values(|f: Vec<char>| f@) == colon_fields(p@),
{
    if p.len() == 0 {
        let res: Vec<Vec<char>> = Vec::new();
        assert(res@.map_values(|f: Vec<char>| f@) =~= colon_fields(p@));
        res
    } else {
        let res = split_chars(p, ':');
        assert(res@.map_values(|f: Vec<char>| f@) =~= colon_fields(p@));
        res
    }
}

/// The first position of `::` in `s`.
fn find_double_colon(s: &Vec<char>) -> (res: Option<usize>)
    ensures
        match res {
            Some(k) => is_first_double_colon(s@, k as int),
            None => !exists|k: int| is_double_colon_at(s@, k),
        },
{
    let n = s.len();
    let mut i: usize = 0;
    while n > 0 && i < n - 1
        invariant
            n == s.len(),
            forall|j: int| 0 <= j < i ==> !is_double_colon_at(s@, j),
        decreases n - i,
    {
        if s[i] == ':' && s[i + 1] == ':' {
            return Some(i);
        }
        i = i + 1;
    }
    assert forall|k: int| !is_double_colon_at(s@, k) by {
        if is_double_colon_at(s@, k) {
            assert(k < i);
        }
    }
    None
}

fn groups_array(g: &Vec<u16>) -> (a: [u16; 8])
    requires
        g@.len() == 8,
    ensures
        a@ == g@,
{
    let a = [g[0], g[1], g[2], g[3], g[4], g[5], g[6], g[7]];
    assert(a@ =~= g@);
    a
}

/// Reads an IPv6 address.
pub fn parse_ipv6(s: &Vec<char>) -> (res: Option<[u16; 8]>)
    ensures
        match res {
            Some(a) => ipv6_text_groups(s@) == Some(a@),
            None => ipv6_text_groups(s@) is None,
        },
{
    match find_double_colon(s) {
        None => {
            let fields = split_chars(s, ':');
            assert(fields@.map_values(|f: Vec<char>| f@) =~= split_char(s@, ':'));
            match parse_fields(&fields, true) {
                Some(g) => {
                    if g.len() == 8 {
                        Some(groups_array(&g))
                    } else {
                        None
                    }
                },
                None => None,
            }
        },
        Some(k) => {
            let ghost kk = choose|k: int| is_first_double_colon(s@, k);
            assert(kk == k as int) by {
                assert(is_first_double_colon(s@, kk));
                if kk < k as int {
                    assert(!is_double_colon_at(s@, kk));
                }
                if kk > k as int {
                    assert(!is_double_colon_at(s@, k as int));
                }
            }
            assert(is_double_colon_at(s@, k as int));
            assert(k + 2 <= s.len());
            let head = slice_chars(s, 0, k);
            let tail = slice_chars(s, k + 2, s.len());
            let hf = colon_fields_of(&head);
            let tf = colon_fields_of(&tail);
            let hg = match parse_fields(&hf, false) {
                Some(g) => g,
                None => {
                    return None;
                },
            };
            let tg = match parse_fields(&tf, true) {
                Some(g) => g,
                None => {
                    return None;
                },
            };
            proof {
                let hv = hf@.map_values(|f: Vec<char>| f@);
                assert(hv.len() == hf@.len());
                assert forall|j: int| 0 <= j < hv.len() implies #[trigger] field_groups(hv[j]).len()
                    == 1 by {}
                lemma_hex_fields_count(hv);
            }
            if hf.len() > 7 || tg.len() > 7 - hf.len() {
                return None;
            }
            let gap = 8 - hf.len() - tg.len();
            let mut out: Vec<u16> = Vec::new();
            let mut i: usize = 0;
            while i < hg.len()
                invariant
                    i <= hg.len(),
                    out@ == hg@.take(i as int),
                decreases hg.len() - i,
            {
                out.push(hg[i]);
                i = i + 1;
                assert(out@ =~= hg@.take(i as int));
            }
            assert(hg@.take(hg@.len() as int) =~= hg@);
            let mut z: usize = 0;
            while z < gap
                invariant
                    z <= gap,
                    out@ == hg@ + Seq::new(z as nat, |i: int| 0u16),
                decreases gap - z,
            {
                out.push(0u16);
                z = z + 1;
                assert(out@ =~= hg@ + Seq::new(z as nat, |i: int| 0u16));
            }
            let ghost mid = out@;
            let mut t: usize = 0;
            while t < tg.len()
                invariant
                    t <= tg.len(),
                    out@ == mid + tg@.take(t as int),
                decreases tg.len() - t,
            {
                out.push(tg[t]);
                t = t + 1;
                assert(out@ =~= mid + tg@.take(t as int));
            }
            assert(tg@.take(tg@.len() as int) =~= tg@);
            Some(groups_array(&out))
        },
    }
}

proof fn lemma_hex_fields_count(fs: Seq<Seq<char>>)
    requires
        all_hex_fields(fs),
    ensures
        fields_groups(fs).len() == fs.len(),
    decreases fs.len(),
{
    if fs.len() > 0 {
        assert(all_hex_fields(fs.drop_last()));
        lemma_hex_fields_count(fs.drop_last());
        assert(is_hex_group(fs[fs.len() - 1]));
    }
}

/// Reads an IP address, IPv4 first, then IPv6.
pub fn parse_ip_address(s: &Vec<char>) -> (res: Option<IpAddress>)
    ensures
        res == ip_text_address(s@),
{
    match parse_ipv4(s) {
        Some(o) => {
            let ghost q = o@;
            assert([q[0], q[1], q[2], q[3]] =~= o);
            Some(IpAddress::V4(o))
        },
        None => match parse_ipv6(s) {
            Some(g) => {
                let ghost q = g@;
                assert([q[0], q[1], q[2], q[3], q[4], q[5], q[6], q[7]] =~= g);
                Some(IpAddress::V6(g))
            },
            None => None,
        },
    }
}


// ---------------------------------------------------------------- networks

/// A network: an address and the number of leading bits that identify it.
#[derive(Clone, Copy, Debug)]
pub struct IpNetwork {
    pub addr: IpAddress,
    pub prefix_len: u8,
}

impl IpNetwork {
    /// The prefix fits the address family.
    pub open spec fn well_formed(self) -> bool {
        match self.addr {
            IpAddress::V4(_) => self.prefix_len <= 32,
            IpAddress::V6(_) => self.prefix_len <= 128,
        }
    }
}

/// The first `p` bits of the octets `a` and `b` agree.
pub open spec fn octets_prefix_match(a: Seq<u8>, b: Seq<u8>, p: nat) -> bool {
    &&& forall|i: int| 0 <= i < p / 8 ==> a[i] == b[i]
    &&& p % 8 != 0 ==> a[(p / 8) as int] as nat / pow2((8 - p % 8) as nat) == b[(p
        / 8) as int] as nat / pow2((8 - p % 8) as nat)
}

/// The first `p` bits of the 16-bit groups `a` and `b` agree.
pub open spec fn groups_prefix_match(a: Seq<u16>, b: Seq<u16>, p: nat) -> bool {
    &&& forall|i: int| 0 <= i < p / 16 ==> a[i] == b[i]
    &&& p % 16 != 0 ==> a[(p / 16) as int] as nat / pow2((16 - p % 16) as nat) == b[(p
        / 16) as int] as nat / pow2((16 - p % 16) as nat)
}

/// `ip` lies in `net`: same family, and its first `prefix_len` bits are
/// those of the network's address (so it lies between the network address
/// and the broadcast address).
pub open spec fn network_contains(net: IpNetwork, ip: IpAddress) -> bool {
    match (net.addr, ip) {
        (IpAddress::V4(n), IpAddress::V4(a)) => octets_prefix_match(n@, a@, net.prefix_len as nat),
        (IpAddress::V6(n), IpAddress::V6(a)) => groups_prefix_match(n@, a@, net.prefix_len as nat),
        _ => false,
    }
}

/// Two addresses are the same: same family, same octets or groups.
pub fn same_address(a: &IpAddress, b: &IpAddress) -> (r: bool)
    ensures
        r == (*a == *b),
{
    match a {
        IpAddress::V4(x) => match b {
            IpAddress::V4(y) => {
                let mut i: usize = 0;
                while i < 4
                    invariant
                        i <= 4,
                        *a == IpAddress::V4(*x),
                        *b == IpAddress::V4(*y),
                        forall|k: int| 0 <= k < i ==> x@[k] == y@[k],
                    decreases 4 - i,
                {
                    if x[i] != y[i] {
                        assert(*a == IpAddress::V4(*x));
                        assert(*b == IpAddress::V4(*y));
                        assert(*x != *y) by {
                            if *x == *y {
                                assert(x@[i as int] == y@[i as int]);
                            }
                        }
                        return false;
                    }
                    i = i + 1;
                }
                assert(*x =~= *y);
                true
            },
            IpAddress::V6(_) => false,
        },
        IpAddress::V6(x) => match b {
            IpAddress::V6(y) => {
                let mut i: usize = 0;
                while i < 8
                    invariant
                        i <= 8,
                        *a == IpAddress::V6(*x),
                        *b == IpAddress::V6(*y),
                        forall|k: int| 0 <= k < i ==> x@[k] == y@[k],
                    decreases 8 - i,
                {
                    if x[i] != y[i] {
                        assert(*a == IpAddress::V6(*x));
                        assert(*b == IpAddress::V6(*y));
                        assert(*x != *y) by {
                            if *x == *y {
                                assert(x@[i as int] == y@[i as int]);
                            }
                        }
                        return false;
                    }
                    i = i + 1;
                }
                assert(*x =~= *y);
                true
            },
            IpAddress::V4(_) => false,
        },
    }
}

fn octets_match(a: &[u8; 4], b: &[u8; 4], p: u8) -> (r: bool)
    requires
        p <= 32,
    ensures
        r == octets_prefix_match(a@, b@, p as nat),
{
    let q = (p / 8) as usize;
    let rem = p % 8;
    let mut i: usize = 0;
    while i < q
        invariant
            i <= q <= 4,
            q == p / 8,
            forall|k: int| 0 <= k < i ==> a@[k] == b@[k],
        decreases q - i,
    {
        if a[i] != b[i] {
            return false;
        }
        i = i + 1;
    }
    if rem == 0 {
        return true;
    }
    let shift: u8 = 8 - rem;
    proof {
        vstd::bits::lemma_u8_shr_is_div(a[q as int], shift);
        vstd::bits::lemma_u8_shr_is_div(b[q as int], shift);
    }
    (a[q] >> shift) == (b[q] >> shift)
}

fn groups_match(a: &[u16; 8], b: &[u16; 8], p: u8) -> (r: bool)
    requires
        p <= 128,
    ensures
        r == groups_prefix_match(a@, b@, p as nat),
{
    let q = (p / 16) as usize;
    let rem = p % 16;
    let mut i: usize = 0;
    while i < q
        invariant
            i <= q <= 8,
            q == p / 16,
            forall|k: int| 0 <= k < i ==> a@[k] == b@[k],
        decreases q - i,
    {
        if a[i] != b[i] {
            return false;
        }
        i = i + 1;
    }
    if rem == 0 {
        return true;
    }
    let shift: u16 = 16 - rem as u16;
    proof {
        vstd::bits::lemma_u16_shr_is_div(a[q as int], shift);
        vstd::bits::lemma_u16_shr_is_div(b[q as int], shift);
    }
    (a[q] >> shift) == (b[q] >> shift)
}

impl IpNetwork {
    /// Whether `ip` lies in this network.
    pub fn contains(&self, ip: &IpAddress) -> (r: bool)
        requires
            self.well_formed(),
        ensures
            r == network_contains(*self, *ip),
    {
        match (&self.addr, ip) {
            (IpAddress::V4(n), IpAddress::V4(a)) => octets_match(n, a, self.prefix_len),
            (IpAddress::V6(n), IpAddress::V6(a)) => groups_match(n, a, self.prefix_len),
            _ => false,
        }
    }
}

/// The network that `ipnet` reads from `s` (`IpNet::from_str`).
pub uninterp spec fn ipnet_text_network(s: Seq<char>) -> Option<IpNetwork>;

/// Reads a network in CIDR notation with `ipnet::IpNet::from_str`.
///
/// Trusted: the result is the named function of the text; the crate's parser
/// reads the prefix length with an upper bound of 33 (IPv4) or 129 (IPv6)
/// exclusive, so a parsed prefix always fits its family. How `ipnet` reads
/// the address part is not restated here.
#[verifier::external_body]
fn parse_ipnet(s: &str) -> (res: Option<IpNetwork>)
    ensures
        res == ipnet_text_network(s@),
        res matches Some(n) ==> n.well_formed(),
{
    match s.parse::<ipnet::IpNet>() {
        Ok(ipnet::IpNet::V4(n)) => Some(
            IpNetwork { addr: IpAddress::V4(n.addr().octets()), prefix_len: n.prefix_len() },
        ),
        Ok(ipnet::IpNet::V6(n)) => Some(
            IpNetwork { addr: IpAddress::V6(n.addr().segments()), prefix_len: n.prefix_len() },
        ),
        Err(_) => None,
    }
}

/// A trusted-proxy entry: one address, or a network.
#[derive(Clone, Copy, Debug)]
pub enum IpRange {
    Single(IpAddress),
    Cidr(IpNetwork),
}

impl IpRange {
    pub open spec fn well_formed(self) -> bool {
        match self {
            IpRange::Single(_) => true,
            IpRange::Cidr(n) => n.well_formed(),
        }
    }

    /// Whether `ip` falls in this range.
    pub open spec fn spec_contains(self, ip: IpAddress) -> bool {
        match self {
            IpRange::Single(a) => a == ip,
            IpRange::Cidr(n) => network_contains(n, ip),
        }
    }

    /// Checks whether `ip` falls in this range.
    pub fn contains(&self, ip: &IpAddress) -> (r: bool)
        requires
            self.well_formed(),
        ensures
            r == self.spec_contains(*ip),
    {
        match self {
            IpRange::Single(a) => same_address(a, ip),
            IpRange::Cidr(n) => n.contains(ip),
        }
    }

    /// Reads a range: CIDR notation when the text holds `/`, otherwise one
    /// address; on failure, the message names the text.
    pub fn parse(s: &str) -> (res: Result<IpRange, String>)
        ensures
            match ip_range_text(s@) {
                Some(r) => res == Ok::<IpRange, String>(r) && r.well_formed(),
                None => res matches Err(msg) && msg@ == ip_range_error(s@),
            },
    {
        let cs = chars_of(s);
        if contains_char(&cs, '/') {
            match parse_ipnet(s) {
                Some(n) => Ok(IpRange::Cidr(n)),
                None => Err(error_message("Invalid CIDR ", &cs)),
            }
        } else {
            match parse_ip_address(&cs) {
                Some(a) => Ok(IpRange::Single(a)),
                None => Err(error_message("Invalid IP ", &cs)),
            }
        }
    }
}

/// What the text of a range denotes, or `None`.
pub open spec fn ip_range_text(s: Seq<char>) -> Option<IpRange> {
    if s.contains('/') {
        match ipnet_text_network(s) {
            Some(n) => Some(IpRange::Cidr(n)),
            None => None,
        }
    } else {
        match ip_text_address(s) {
            Some(a) => Some(IpRange::Single(a)),
            None => None,
        }
    }
}

/// The message for a range that does not read: the kind, the text, and the
/// address parsers' own message.
pub open spec fn ip_range_error(s: Seq<char>) -> Seq<char> {
    if s.contains('/') {
        "Invalid CIDR "@ + s + ": invalid IP address syntax"@
    } else {
        "Invalid IP "@ + s + ": invalid IP address syntax"@
    }
}

fn error_message(kind: &str, text: &Vec<char>) -> (msg: String)
    ensures
        msg@ == kind@ + text@ + ": invalid IP address syntax"@,
{
    let k = chars_of(kind);
    let tail = chars_of(": invalid IP address syntax");
    let a = concat_chars(&k, text);
    let b = concat_chars(&a, &tail);
    string_from_chars(&b)
}

impl core::str::FromStr for IpRange {
    type Err = String;

    fn from_str(s: &str) -> (res: Result<IpRange, String>)
        ensures
            match ip_range_text(s@) {
                Some(r) => res == Ok::<IpRange, String>(r) && r.well_formed(),
                None => res matches Err(msg) && msg@ == ip_range_error(s@),
            },
    {
        IpRange::parse(s)
    }
}

/// Whether `ip` falls in one of the ranges.
pub open spec fn in_any_range(ip: IpAddress, trusted: Seq<IpRange>) -> bool {
    exists|i: int| 0 <= i < trusted.len() && (#[trigger] trusted[i]).spec_contains(ip)
}

/// Checks whether `ip` is one of the trusted proxies.
pub fn is_trusted_proxy(ip: &IpAddress, trusted: &[IpRange]) -> (r: bool)
    requires
        forall|i: int| 0 <= i < trusted@.len() ==> (#[trigger] trusted@[i]).well_formed(),
    ensures
        r == in_any_range(*ip, trusted@),
{
    let mut i: usize = 0;
    while i < trusted.len()
        invariant
            i <= trusted.len(),
            forall|k: int| 0 <= k < trusted@.len() ==> (#[trigger] trusted@[k]).well_formed(),
            forall|k: int| 0 <= k < i ==> !(#[trigger] trusted@[k]).spec_contains(*ip),
        decreases trusted.len() - i,
    {
        if trusted[i].contains(ip) {
            return true;
        }
        i = i + 1;
    }
    false
}

// ---------------------------------------------------------------- trusted proxies

/// The entries of a trusted-proxy list: the text trimmed, split at `,`,
/// each piece trimmed, empty pieces left out.
pub open spec fn proxy_entries(value: Seq<char>) -> Seq<Seq<char>> {
    nonblank_trimmed(split_char(trim(value), ','))
}

/// The pieces trimmed, those left empty dropped.
pub open spec fn nonblank_trimmed(pieces: Seq<Seq<char>>) -> Seq<Seq<char>>
    decreases pieces.len(),
{
    if pieces.len() == 0 {
        Seq::<Seq<char>>::empty()
    } else {
        let rest = nonblank_trimmed(pieces.drop_last());
        let t = trim(pieces.last());
        if t.len() > 0 {
            rest.push(t)
        } else {
            rest
        }
    }
}

/// The ranges of the entries that read, in order; the others are skipped.
pub open spec fn readable_ranges(entries: Seq<Seq<char>>) -> Seq<IpRange>
    decreases entries.len(),
{
    if entries.len() == 0 {
        Seq::<IpRange>::empty()
    } else {
        let rest = readable_ranges(entries.drop_last());
        match ip_range_text(entries.last()) {
            Some(r) => rest.push(r),
            None => rest,
        }
    }
}

/// The trusted proxies a setting lists: none when the setting is blank or
/// no entry reads.
pub open spec fn trusted_proxies_of(value: Seq<char>) -> Option<Seq<IpRange>> {
    if trim(value).len() == 0 {
        None
    } else {
        let rs = readable_ranges(proxy_entries(value));
        if rs.len() == 0 {
            None
        } else {
            Some(rs)
        }
    }
}

/// Reads the trusted-proxy setting: comma-separated addresses or networks.
pub fn parse_trusted_proxies(value: &str) -> (res: Option<Vec<IpRange>>)
    ensures
        match trusted_proxies_of(value@) {
            Some(rs) => res matches Some(v) && v@ == rs,
            None => res is None,
        },
        res matches Some(v) ==> forall|i: int|
            0 <= i < v@.len() ==> (#[trigger] v@[i]).well_formed(),
{
    let all = chars_of(value);
    let t = trim_chars(&all);
    if t.len() == 0 {
        return None;
    }
    let parts = split_chars(&t, ',');
    let ghost pieces = split_char(trim(value@), ',');
    let mut ranges: Vec<IpRange> = Vec::new();
    let mut i: usize = 0;
    while i < parts.len()
        invariant
            i <= parts.len() == pieces.len(),
            forall|k: int| 0 <= k < parts@.len() ==> #[trigger] parts@[k]@ == pieces[k],
            ranges@ == readable_ranges(nonblank_trimmed(pieces.take(i as int))),
            forall|k: int| 0 <= k < ranges@.len() ==> (#[trigger] ranges@[k]).well_formed(),
        decreases parts.len() - i,
    {
        let piece = trim_chars(&parts[i]);
        assert(pieces.take(i + 1).drop_last() =~= pieces.take(i as int));
        if piece.len() > 0 {
            let text = string_from_chars(&piece);
            let ghost entries = nonblank_trimmed(pieces.take(i + 1));
            assert(entries.drop_last() == nonblank_trimmed(pieces.take(i as int)));
            match IpRange::parse(text.as_str()) {
                Ok(r) => {
                    ranges.push(r);
                },
                Err(_) => {},
            }
        }
        i = i + 1;
    }
    assert(pieces.take(parts.len() as int) =~= pieces);
    if ranges.len() == 0 {
        None
    } else {
        Some(ranges)
    }
}

} // verus!
