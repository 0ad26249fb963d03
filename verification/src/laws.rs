//! Properties that span several parts of the library: what one side writes
//! and the other reads back, and what the rules keep.
use vstd::prelude::*;
use crate::text::{
    int_text, int_text_width3, is_first_index, first_index, is_white_space, lemma_first_index,
    lemma_int_text_chars, lemma_int_text_value, lemma_int_text_width3_value, split_char,
    before_first, lemma_split_first_piece, lemma_split_char_nonempty, lemma_split_len_count, trim,
    trim_start, trim_end, is_ascii_digit, all_ascii_digits, lemma_int_text_width3_digits,
};
use crate::geo::{is_cjk, is_carrier, normalized_isp, located_ip, geo_of_record, IpSearcher};
use crate::region::lookup_result;
use crate::forms::{is_domain_name, is_domain_label, is_ascii_alnum};
use crate::web::{
    AssetFile, asset_versions, version_of, resolved_ip, distinct_paths, asset_version_text,
    lemma_version_of_distinct,
};
use crate::net::in_any_range;
use crate::client::{client_token_text, native_summary_of, min_of, sum_of, PingData};
use crate::web::{api_token_parts, cookie_value, cookie_pieces, first_with_prefix, login_cookie_text};
use crate::application::{
    name_sequence, max_sequence, next_name, lemma_max_sequence_bound, prefix_count,
    is_active_application, contains_text,
};
use crate::dto::MachineRecord;
use crate::timing::is_stale;
use crate::forms::ping_issues;
use crate::timing::slot_start;
use crate::address_numbers::{address_number, address_width, digits_in_base, lemma_leading_bits_agree};
use vstd::arithmetic::power2::{pow2, lemma2_to64};
use crate::net::{
    IpAddress, IpNetwork, IpRange, network_contains, ipv4_text_octets, ipv6_text_groups,
    is_double_colon_at, fields_groups, field_groups,
};

verus! {

broadcast use vstd::array::group_array_axioms;

// ---------------------------------------------------------------- client tokens

/// The token a client sends reads back, on the server, as the machine id
/// and key it was made from.
pub proof fn law_client_token_reads_back(mid: i32, key: Seq<char>)
    ensures
        api_token_parts(client_token_text(mid, key)) == Some((mid, key)),
{
    let t = int_text(mid as int);
    let s = client_token_text(mid, key);
    lemma_int_text_chars(mid as int);
    assert forall|j: int| 0 <= j < t.len() implies s[j] != ':' by {
        assert(s[j] == t[j]);
        assert(is_ascii_digit(t[j]) || t[j] == '-');
    }
    assert(s[t.len() as int] == ':');
    assert(is_first_index(s, ':', t.len() as int));
    lemma_first_index(s, ':', t.len() as int);
    assert(s.contains(':'));
    assert(s.subrange(0, t.len() as int) =~= t);
    lemma_int_text_value(mid);
    assert(s.subrange(t.len() as int + 1, s.len() as int) =~= key);
}

// ---------------------------------------------------------------- login cookies

proof fn lemma_split_without_sep(s: Seq<char>, c: char)
    requires
        !s.contains(c),
    ensures
        split_char(s, c) == seq![s],
{
    lemma_split_char_nonempty(s, c);
    if split_char(s, c).len() > 1 {
        lemma_split_len_count(s, c);
    }
    lemma_split_first_piece(s, c);
    assert(split_char(s, c) =~= seq![s]);
}

proof fn lemma_trim_end_last(s: Seq<char>)
    ensures
        trim_end(s).len() > 0 ==> !is_white_space(trim_end(s).last()),
    decreases s.len(),
{
    if s.len() > 0 && is_white_space(s.last()) {
        lemma_trim_end_last(s.drop_last());
    }
}

proof fn lemma_trim_end_is_end(s: Seq<char>)
    requires
        s.len() > 0 ==> !is_white_space(s.last()),
    ensures
        trim_end(s) == s,
{
}

proof fn lemma_trim_start_is_start(s: Seq<char>)
    requires
        s.len() > 0 ==> !is_white_space(s[0]),
    ensures
        trim_start(s) == s,
{
}

/// The login cookie carries the password as its `admin_token` pair, and
/// that pair, sent back in a `Cookie` header, reads back as the password:
/// a password without `;` and without white space at either end.
pub proof fn law_login_cookie_reads_back(password: Seq<char>, https: bool)
    requires
        !password.contains(';'),
        trim(password) == password,
    ensures
        split_char(login_cookie_text(password, https), ';')[0] == "admin_token="@ + password,
        cookie_value(seq!["admin_token="@ + password], "admin_token"@) == Some(password),
{
    reveal_strlit("admin_token=");
    reveal_strlit("admin_token");
    reveal_strlit("; Path=/; HttpOnly; SameSite=Strict; ");
    let head = "admin_token="@;
    let pair = head + password;
    let s = login_cookie_text(password, https);
    // the first `;` of the cookie ends the pair
    assert forall|j: int| 0 <= j < pair.len() implies s[j] != ';' by {
        assert(s[j] == pair[j]);
        if j >= head.len() {
            assert(pair[j] == password[j - head.len()]);
        }
    }
    assert(s[pair.len() as int] == ';');
    assert(is_first_index(s, ';', pair.len() as int));
    lemma_first_index(s, ';', pair.len() as int);
    assert(s.contains(';'));
    lemma_split_first_piece(s, ';');
    assert(s.subrange(0, pair.len() as int) =~= pair);
    // the pair is one piece, and trimming keeps it
    assert(!pair.contains(';')) by {
        if pair.contains(';') {
            let j = choose|j: int| 0 <= j < pair.len() && pair[j] == ';';
            if j >= head.len() {
                assert(password[j - head.len()] == ';');
            }
        }
    }
    lemma_split_without_sep(pair, ';');
    lemma_trim_end_last(trim_start(password));
    if password.len() > 0 {
        assert(!is_white_space(password.last()));
        assert(pair.last() == password.last());
    }
    lemma_trim_start_is_start(pair);
    lemma_trim_end_is_end(pair);
    assert(trim(pair) == pair);
    let headers = seq![pair];
    assert(headers.drop_last() =~= Seq::<Seq<char>>::empty());
    assert(cookie_pieces(Seq::<Seq<char>>::empty()) =~= Seq::<Seq<char>>::empty());
    let mapped = split_char(pair, ';').map_values(|p: Seq<char>| trim(p));
    assert(mapped.len() == 1 && mapped[0] == pair);
    assert(cookie_pieces(headers) == cookie_pieces(Seq::<Seq<char>>::empty()) + mapped);
    assert(cookie_pieces(headers) =~= seq![pair]);
    let key = "admin_token"@.push('=');
    assert(key =~= head);
    assert(pair.subrange(0, key.len() as int) =~= key);
    assert(pair.subrange(key.len() as int, pair.len() as int) =~= password);
}

// ---------------------------------------------------------------- applicant names

/// The sequence number a new applicant name carries: one more than the
/// largest in use, or 1.
pub open spec fn next_sequence(prefix: Seq<char>, names: Seq<Seq<char>>) -> int {
    match max_sequence(names, prefix) {
        Some(v) => v as int + 1,
        None => 1,
    }
}

/// A new applicant name reads back with its sequence number, which is
/// above every sequence number in use; once it is in use, it is the
/// largest.
pub proof fn law_next_name_numbered_above(prefix: Seq<char>, names: Seq<Seq<char>>)
    requires
        max_sequence(names, prefix) != Some(i32::MAX),
    ensures
        name_sequence(next_name(prefix, names), prefix) == Some(
            next_sequence(prefix, names) as i32,
        ),
        forall|i: int|
            0 <= i < names.len() && (#[trigger] name_sequence(names[i], prefix)) is Some
                ==> name_sequence(names[i], prefix)->0 < next_sequence(prefix, names),
        max_sequence(names.push(next_name(prefix, names)), prefix) == Some(
            next_sequence(prefix, names) as i32,
        ),
{
    let k = next_sequence(prefix, names);
    let name = next_name(prefix, names);
    assert(i32::MIN < k <= i32::MAX);
    lemma_int_text_width3_value(k as i32);
    assert(name.subrange(0, prefix.len() as int) =~= prefix);
    assert(name.subrange(prefix.len() as int, name.len() as int) =~= int_text_width3(k));
    assert forall|i: int|
        0 <= i < names.len() && (#[trigger] name_sequence(names[i], prefix)) is Some implies name_sequence(
        names[i],
        prefix,
    )->0 < k by {
        lemma_max_sequence_bound(names, prefix, i);
    }
    let all = names.push(name);
    assert(all.drop_last() =~= names);
}

// ---------------------------------------------------------------- ping summaries

proof fn lemma_min_is_member(s: Seq<u16>)
    requires
        s.len() > 0,
    ensures
        exists|i: int| 0 <= i < s.len() && s[i] == min_of(s),
        forall|i: int| 0 <= i < s.len() ==> min_of(s) <= #[trigger] s[i],
    decreases s.len(),
{
    if s.len() > 1 {
        let t = s.drop_last();
        lemma_min_is_member(t);
        let j = choose|j: int| 0 <= j < t.len() && t[j] == min_of(t);
        assert(s[j] == t[j]);
        assert forall|i: int| 0 <= i < s.len() implies min_of(s) <= #[trigger] s[i] by {
            if i < s.len() - 1 {
                assert(s[i] == t[i]);
            }
        }
        if s.last() < min_of(t) {
            assert(s[s.len() - 1] == min_of(s));
        } else {
            assert(s[j] == min_of(s));
        }
    } else {
        assert(s[0] == min_of(s));
    }
}

proof fn lemma_sum_bounds(s: Seq<u16>, lo: int, hi: int)
    requires
        forall|i: int| 0 <= i < s.len() ==> lo <= #[trigger] s[i] <= hi,
    ensures
        s.len() * lo <= sum_of(s) <= s.len() * hi,
    decreases s.len(),
{
    if s.len() > 0 {
        let t = s.drop_last();
        assert forall|i: int| 0 <= i < t.len() implies lo <= #[trigger] t[i] <= hi by {
            assert(t[i] == s[i]);
        }
        lemma_sum_bounds(t, lo, hi);
        assert(lo <= s[s.len() - 1] <= hi);
        assert(s.len() * lo == t.len() * lo + lo) by (nonlinear_arith)
            requires
                s.len() == t.len() + 1,
        ;
        assert(s.len() * hi == t.len() * hi + hi) by (nonlinear_arith)
            requires
                s.len() == t.len() + 1,
        ;
    }
}

proof fn lemma_mean_between(sum: int, n: int, lo: int, hi: int)
    requires
        n >= 1,
        n * lo <= sum <= n * hi,
    ensures
        lo <= sum / n <= hi,
{
    assert(lo <= sum / n) by (nonlinear_arith)
        requires
            n >= 1,
            n * lo <= sum,
    ;
    assert(sum / n <= hi) by (nonlinear_arith)
        requires
            n >= 1,
            sum <= n * hi,
    ;
}

/// The summary a client makes of a round whose replies all took between 1
/// and 1000 ms passes the server's checks on a reported ping.
pub proof fn law_client_summary_passes_validation(times: Seq<u16>, ipv6: bool)
    requires
        1 <= times.len() <= 20,
        forall|i: int| 0 <= i < times.len() ==> 1 <= #[trigger] times[i] <= 1000,
    ensures
        native_summary_of(times, ipv6) matches Some(d) && ping_issues(d.min, d.avg, d.fail)
            == Seq::<(Seq<char>, Seq<char>, Option<Seq<char>>)>::empty(),
{
    lemma_min_is_member(times);
    let m = min_of(times);
    let j = choose|j: int| 0 <= j < times.len() && times[j] == m;
    assert(1 <= times[j] <= 1000);
    lemma_sum_bounds(times, m as int, 1000);
    lemma_mean_between(sum_of(times) as int, times.len() as int, m as int, 1000);
    let d = native_summary_of(times, ipv6)->0;
    assert(d.avg == sum_of(times) / times.len());
    assert(ping_issues(d.min, d.avg, d.fail) =~= Seq::<
        (Seq<char>, Seq<char>, Option<Seq<char>>),
    >::empty());
}

// ---------------------------------------------------------------- time slots

/// Filing a time under its slot twice files it under the same slot.
pub proof fn law_slot_is_stable(ts: int)
    ensures
        slot_start(slot_start(ts)) == slot_start(ts),
        slot_start(ts) <= ts < slot_start(ts) + 300,
{
    assert((ts - ts % 300) % 300 == 0) by (nonlinear_arith);
}

// ---------------------------------------------------------------- address ranges

/// A network holds its own address.
pub proof fn law_network_holds_its_address(net: IpNetwork)
    ensures
        network_contains(net, net.addr),
        IpRange::Cidr(net).spec_contains(net.addr),
        IpRange::Single(net.addr).spec_contains(net.addr),
{
}

/// A network with a zero prefix holds every address of its family.
pub proof fn law_zero_prefix_holds_family(net: IpNetwork, ip: IpAddress)
    requires
        net.prefix_len == 0,
        (net.addr is V4) == (ip is V4),
    ensures
        network_contains(net, ip),
{
}

/// An IPv4 network with a full prefix holds exactly its own address.
pub proof fn law_full_prefix_is_single(net: IpNetwork, ip: IpAddress)
    requires
        net.addr is V4,
        net.prefix_len == 32,
    ensures
        network_contains(net, ip) <==> IpRange::Single(net.addr).spec_contains(ip),
{
    if network_contains(net, ip) {
        let (n, a) = match (net.addr, ip) {
            (IpAddress::V4(n), IpAddress::V4(a)) => (n, a),
            _ => (net.addr->V4_0, net.addr->V4_0),
        };
        assert(forall|i: int| 0 <= i < 4 ==> n@[i] == a@[i]);
        assert(n@ =~= a@);
        assert(n == a);
    }
}

/// A network range holds an address exactly when the address is of the
/// network's family and its first `prefix_len` bits are the network
/// address's: read as numbers, the two agree once the remaining bits are
/// cut off, so the range runs from the network address to the broadcast
/// address of the prefix.
pub proof fn law_network_is_its_leading_bits(net: IpNetwork, ip: IpAddress)
    requires
        net.well_formed(),
    ensures
        IpRange::Cidr(net).spec_contains(ip) == (address_width(ip) == address_width(net.addr)
            && address_number(ip) / (pow2((address_width(ip) - net.prefix_len) as nat) as int)
            == address_number(net.addr) / (pow2(
            (address_width(ip) - net.prefix_len) as nat,
        ) as int)),
{
    lemma2_to64();
    match (net.addr, ip) {
        (IpAddress::V4(n), IpAddress::V4(a)) => {
            let d1 = n@.map_values(|x: u8| x as int);
            let d2 = a@.map_values(|x: u8| x as int);
            let p = net.prefix_len as nat;
            assert(digits_in_base(d1, 4, 8));
            assert(digits_in_base(d2, 4, 8));
            lemma_leading_bits_agree(d1, d2, 4, 8, p);
            assert(p / 8 <= 4);
            assert forall|i: int| 0 <= i < 4 implies d1[i] == n@[i] as int && d2[i] == a@[i] as int by {}
            if forall|i: int| 0 <= i < p / 8 ==> d1[i] == d2[i] {
                assert forall|i: int| 0 <= i < p / 8 implies n@[i] == a@[i] by {
                    assert(d1[i] == d2[i]);
                }
            }
            if forall|i: int| 0 <= i < p / 8 ==> n@[i] == a@[i] {
                assert forall|i: int| 0 <= i < p / 8 implies d1[i] == d2[i] by {
                    assert(n@[i] == a@[i]);
                }
            }
        },
        (IpAddress::V6(n), IpAddress::V6(a)) => {
            let d1 = n@.map_values(|x: u16| x as int);
            let d2 = a@.map_values(|x: u16| x as int);
            let p = net.prefix_len as nat;
            assert(digits_in_base(d1, 8, 16));
            assert(digits_in_base(d2, 8, 16));
            lemma_leading_bits_agree(d1, d2, 8, 16, p);
            assert(p / 16 <= 8);
            assert forall|i: int| 0 <= i < 8 implies d1[i] == n@[i] as int && d2[i] == a@[i] as int by {}
            if forall|i: int| 0 <= i < p / 16 ==> d1[i] == d2[i] {
                assert forall|i: int| 0 <= i < p / 16 implies n@[i] == a@[i] by {
                    assert(d1[i] == d2[i]);
                }
            }
            if forall|i: int| 0 <= i < p / 16 ==> n@[i] == a@[i] {
                assert forall|i: int| 0 <= i < p / 16 implies d1[i] == d2[i] by {
                    assert(n@[i] == a@[i]);
                }
            }
        },
        _ => {},
    }
}

/// What an entry of a trusted-proxy list holds, by the address's bits: a
/// single address holds only itself; a network, the addresses of its family
/// whose leading bits, as many as its prefix, are the network address's.
pub open spec fn entry_holds(entry: IpRange, ip: IpAddress) -> bool {
    match entry {
        IpRange::Single(a) => a == ip,
        IpRange::Cidr(n) => address_width(ip) == address_width(n.addr) && address_number(ip) / (pow2(
            (address_width(ip) - n.prefix_len) as nat,
        ) as int) == address_number(n.addr) / (pow2((address_width(ip) - n.prefix_len) as nat) as int),
    }
}

/// An address is a trusted proxy exactly when one of the entries of the
/// list holds it.
pub proof fn law_trusted_proxies_are_their_entries(ip: IpAddress, trusted: Seq<IpRange>)
    requires
        forall|k: int| 0 <= k < trusted.len() ==> (#[trigger] trusted[k]).well_formed(),
    ensures
        in_any_range(ip, trusted) == exists|k: int|
            0 <= k < trusted.len() && entry_holds(#[trigger] trusted[k], ip),
{
    assert forall|k: int| 0 <= k < trusted.len() implies (#[trigger] trusted[k]).spec_contains(ip)
        == entry_holds(trusted[k], ip) by {
        match trusted[k] {
            IpRange::Cidr(n) => {
                assert(n.well_formed());
                law_network_is_its_leading_bits(n, ip);
            },
            IpRange::Single(_) => {},
        }
    }
    if in_any_range(ip, trusted) {
        let k = choose|k: int| 0 <= k < trusted.len() && (#[trigger] trusted[k]).spec_contains(ip);
        assert(entry_holds(trusted[k], ip));
    }
    if exists|k: int| 0 <= k < trusted.len() && entry_holds(#[trigger] trusted[k], ip) {
        let k = choose|k: int| 0 <= k < trusted.len() && entry_holds(#[trigger] trusted[k], ip);
        assert(trusted[k].spec_contains(ip));
    }
}

/// A name with the shape of an applicant's: a province of two to four CJK
/// ideographs, a carrier, and three ASCII digits.
pub open spec fn has_applicant_shape(s: Seq<char>) -> bool {
    let n = s.len() as int;
    &&& 7 <= n <= 9
    &&& forall|i: int| 0 <= i < n - 5 ==> is_cjk(#[trigger] s[i])
    &&& is_carrier(s.subrange(n - 5, n - 3))
    &&& forall|i: int| n - 3 <= i < n ==> is_ascii_digit(#[trigger] s[i])
}

/// While fewer than a thousand applicants are numbered, a new applicant's
/// name (province, carrier, sequence number) has the shape that marks
/// applicants for clean-up.
pub proof fn law_new_names_have_applicant_shape(
    province: Seq<char>,
    isp: Seq<char>,
    names: Seq<Seq<char>>,
)
    requires
        2 <= province.len() <= 4,
        forall|i: int| 0 <= i < province.len() ==> is_cjk(#[trigger] province[i]),
        is_carrier(isp),
        1 <= next_sequence(province + isp, names) <= 999,
    ensures
        has_applicant_shape(next_name(province + isp, names)),
{
    reveal_strlit("联通");
    reveal_strlit("电信");
    reveal_strlit("移动");
    reveal_strlit("铁通");
    reveal_strlit("广电");
    let prefix = province + isp;
    let k = next_sequence(prefix, names);
    lemma_int_text_width3_digits(k);
    let digits = int_text_width3(k);
    let s = next_name(prefix, names);
    assert(isp.len() == 2);
    let n = s.len() as int;
    assert(n == province.len() + 5);
    assert forall|i: int| 0 <= i < n - 5 implies is_cjk(#[trigger] s[i]) by {
        assert(s[i] == province[i]);
    }
    assert(s.subrange(n - 5, n - 3) =~= isp);
    assert forall|i: int| n - 3 <= i < n implies is_ascii_digit(#[trigger] s[i]) by {
        assert(s[i] == digits[i - (n - 3)]);
    }
}

// ---------------------------------------------------------------- static assets

/// When no two assets share a path, the version an asset's URL carries is
/// the version its content is served under. (Every `Assets` value keeps its
/// paths distinct, and its `versions`, `lookup` and `serve` state this for
/// it.)
pub proof fn law_asset_url_version_served(files: Seq<AssetFile>, i: int)
    requires
        0 <= i < files.len(),
        distinct_paths(files),
    ensures
        version_of(asset_versions(files), files[i].path@) == Some(
            asset_version_text(files[i].sha256@),
        ),
{
    lemma_version_of_distinct(files, i);
}

// ---------------------------------------------------------------- client addresses

/// Without trusted proxies, or from a peer that is not one of them, the
/// forwarding headers are ignored: the request is credited to its peer.
pub proof fn law_untrusted_headers_ignored(
    peer: IpAddress,
    text: Seq<char>,
    header_ip: Option<Seq<char>>,
    trusted: Option<Seq<IpRange>>,
)
    requires
        trusted matches Some(list) ==> !in_any_range(peer, list),
    ensures
        resolved_ip(Some((peer, text)), header_ip, trusted) == text,
{
}

// ---------------------------------------------------------------- address versions

proof fn lemma_split_keeps_char(s: Seq<char>, sep: char, c: char)
    requires
        s.contains(c),
        c != sep,
    ensures
        exists|k: int|
            0 <= k < split_char(s, sep).len() && #[trigger] split_char(s, sep)[k].contains(c),
    decreases s.len(),
{
    let t = s.drop_last();
    lemma_split_char_nonempty(t, sep);
    let r = split_char(t, sep);
    let i = choose|i: int| 0 <= i < s.len() && s[i] == c;
    if i == s.len() - 1 {
        let p = split_char(s, sep);
        assert(p[r.len() - 1] == r.last().push(c));
        assert(p[r.len() - 1][r.last().len() as int] == c);
        assert(p[r.len() - 1].contains(c));
    } else {
        assert(t[i] == c);
        lemma_split_keeps_char(t, sep, c);
        let k = choose|k: int| 0 <= k < r.len() && #[trigger] r[k].contains(c);
        let j = choose|j: int| 0 <= j < r[k].len() && r[k][j] == c;
        let p = split_char(s, sep);
        if s.last() == sep {
            assert(p[k] == r[k]);
        } else if k < r.len() - 1 {
            assert(p[k] == r[k]);
        } else {
            assert(p[k] == r[k].push(s.last()));
            assert(p[k][j] == c);
        }
        assert(p[k].contains(c));
    }
}

/// No text reads both as an IPv4 and as an IPv6 address.
pub proof fn law_address_versions_exclusive(s: Seq<char>)
    ensures
        !(ipv4_text_octets(s) is Some && ipv6_text_groups(s) is Some),
{
    if ipv4_text_octets(s) is Some {
        let f = split_char(s, '.');
        // a dotted quad holds no colon
        assert(!s.contains(':')) by {
            if s.contains(':') {
                lemma_split_keeps_char(s, '.', ':');
                let k = choose|k: int| 0 <= k < f.len() && #[trigger] f[k].contains(':');
                assert(crate::net::is_octet_text(f[k]));
                let j = choose|j: int| 0 <= j < f[k].len() && f[k][j] == ':';
                assert(is_ascii_digit(f[k][j]));
            }
        }
        assert forall|k: int| !is_double_colon_at(s, k) by {
            if is_double_colon_at(s, k) {
                assert(s[k] == ':');
            }
        }
        lemma_split_without_sep(s, ':');
        let fs = split_char(s, ':');
        assert(fs.drop_last() =~= Seq::<Seq<char>>::empty());
        assert(fields_groups(fs) == fields_groups(Seq::<Seq<char>>::empty()) + field_groups(s));
        assert(field_groups(s).len() <= 2);
    }
}

// ---------------------------------------------------------------- applicant records

/// Once a new applicant's machine is stored, its (province, carrier) pair
/// counts one applicant more.
pub proof fn law_new_applicant_is_counted(prefix: Seq<char>, names: Seq<Seq<char>>)
    ensures
        prefix_count(names.push(next_name(prefix, names)), prefix) == prefix_count(names, prefix)
            + 1,
{
    let name = next_name(prefix, names);
    let all = names.push(name);
    assert(all.drop_last() =~= names);
    assert(name.subrange(0, prefix.len() as int) =~= prefix);
}

/// A machine that holds an active application is never removed as a stale
/// applicant at the same cut-off time.
pub proof fn law_active_applications_are_kept(m: MachineRecord, ip: Seq<char>, cutoff: i64)
    requires
        is_active_application(m, ip, cutoff),
    ensures
        !is_stale(m.created, m.updated, cutoff),
{
}

// ---------------------------------------------------------------- carriers and places

/// The five carriers that applications are accepted from keep their names,
/// every other carrier name becomes 其他, and a name once normalised stays
/// as it is.
pub proof fn law_carriers_keep_their_names(isp: Seq<char>)
    ensures
        (isp == "联通"@ || isp == "电信"@ || isp == "移动"@ || isp == "铁通"@ || isp == "广电"@)
            ==> normalized_isp(isp) == isp,
        !(isp == "联通"@ || isp == "电信"@ || isp == "移动"@ || isp == "铁通"@ || isp == "广电"@)
            ==> normalized_isp(isp) == "其他"@,
        normalized_isp(normalized_isp(isp)) == normalized_isp(isp),
{
    reveal_strlit("联通");
    reveal_strlit("电信");
    reveal_strlit("移动");
    reveal_strlit("铁通");
    reveal_strlit("广电");
    reveal_strlit("其他");
    assert("其他"@[0] != "联通"@[0]);
    assert("其他"@[0] != "电信"@[0]);
    assert("其他"@[0] != "移动"@[0]);
    assert("其他"@[0] != "铁通"@[0]);
    assert("其他"@[0] != "广电"@[0]);
}

/// An address is located with the database of its own family alone: two
/// searchers with the same IPv4 database locate every IPv4 address alike,
/// whatever their IPv6 databases hold, and the same for IPv6; without the
/// database of its family an address is not located.
pub proof fn law_addresses_use_their_family_database(s1: IpSearcher, s2: IpSearcher, ip: Seq<char>)
    ensures
        ipv4_text_octets(ip) is Some && s1.v4 == s2.v4 ==> located_ip(s1, ip) == located_ip(s2, ip),
        ipv6_text_groups(ip) is Some && s1.v6 == s2.v6 ==> located_ip(s1, ip) == located_ip(s2, ip),
        ipv4_text_octets(ip) is Some && s1.v4 is None ==> located_ip(s1, ip) is None,
        ipv6_text_groups(ip) is Some && s1.v6 is None ==> located_ip(s1, ip) is None,
        s1.v4 matches Some(db) ==> (ipv4_text_octets(ip) is Some ==> located_ip(s1, ip)
            == match lookup_result(db.content(), ip) {
            Some(r) => geo_of_record(r),
            None => None,
        }),
{
    law_address_versions_exclusive(ip);
}

// ---------------------------------------------------------------- active applications

/// A machine whose name holds one of the five carriers anywhere, at the
/// address and online or pending at the cut-off, is an active application
/// of that address.
pub proof fn law_carrier_names_hold_applications(
    m: MachineRecord,
    ip: Seq<char>,
    cutoff: i64,
    carrier: Seq<char>,
    at: int,
)
    requires
        carrier == "联通"@ || carrier == "电信"@ || carrier == "移动"@ || carrier == "铁通"@
            || carrier == "广电"@,
        0 <= at,
        at + carrier.len() <= m.name@.len(),
        m.name@.subrange(at, at + carrier.len()) == carrier,
        m.ip@ == ip,
        match m.updated {
            Some(u) => u > cutoff,
            None => m.created > cutoff,
        },
    ensures
        is_active_application(m, ip, cutoff),
{
    assert(contains_text(m.name@, carrier));
}

/// The machine of a new applicant, named after its province and one of
/// the five carriers, holds an active application of its address while it
/// is online or pending.
pub proof fn law_new_applicants_hold_applications(
    province: Seq<char>,
    isp: Seq<char>,
    names: Seq<Seq<char>>,
    m: MachineRecord,
    cutoff: i64,
)
    requires
        isp == "联通"@ || isp == "电信"@ || isp == "移动"@ || isp == "铁通"@ || isp == "广电"@,
        m.name@ == next_name(province + isp, names),
        match m.updated {
            Some(u) => u > cutoff,
            None => m.created > cutoff,
        },
    ensures
        is_active_application(m, m.ip@, cutoff),
{
    let name = m.name@;
    let prefix = province + isp;
    assert(name.subrange(0, prefix.len() as int) =~= prefix);
    assert(name.subrange(province.len() as int, (province.len() + isp.len()) as int) =~= isp);
    law_carrier_names_hold_applications(m, m.ip@, cutoff, isp, province.len() as int);
}

/// Only such machines count: an active application of `ip` is a machine
/// at `ip`, online or pending at the cut-off, whose name holds one of the
/// five carriers somewhere.
pub proof fn law_active_applications_name_a_carrier(m: MachineRecord, ip: Seq<char>, cutoff: i64)
    requires
        is_active_application(m, ip, cutoff),
    ensures
        m.ip@ == ip,
        match m.updated {
            Some(u) => u > cutoff,
            None => m.created > cutoff,
        },
        exists|carrier: Seq<char>, at: int|
            (carrier == "联通"@ || carrier == "电信"@ || carrier == "移动"@ || carrier == "铁通"@
                || carrier == "广电"@) && 0 <= at && at + carrier.len() <= m.name@.len()
                && #[trigger] m.name@.subrange(at, at + carrier.len()) == carrier,
{
    let name = m.name@;
    let c = if contains_text(name, "联通"@) {
        "联通"@
    } else if contains_text(name, "电信"@) {
        "电信"@
    } else if contains_text(name, "移动"@) {
        "移动"@
    } else if contains_text(name, "铁通"@) {
        "铁通"@
    } else {
        "广电"@
    };
    assert(contains_text(name, c));
    let at = choose|at: int| 0 <= at && at + c.len() <= name.len() && #[trigger] name.subrange(
        at,
        at + c.len(),
    ) == c;
    assert(name.subrange(at, at + c.len()) == c);
}

// ---------------------------------------------------------------- region records

/// Splitting at a separator the text of two parts joined by it gives the
/// pieces of the first part, then those of the second.
proof fn lemma_split_joined(s: Seq<char>, t: Seq<char>, c: char)
    ensures
        split_char(s + seq![c] + t, c) == split_char(s, c) + split_char(t, c),
    decreases t.len(),
{
    let u = s + seq![c] + t;
    lemma_split_char_nonempty(s, c);
    if t.len() == 0 {
        assert(u.drop_last() =~= s);
        assert(u.last() == c);
        assert(split_char(t, c) == seq![Seq::<char>::empty()]);
        assert(split_char(s, c).push(Seq::<char>::empty()) =~= split_char(s, c) + seq![
            Seq::<char>::empty(),
        ]);
    } else {
        let t0 = t.drop_last();
        lemma_split_joined(s, t0, c);
        lemma_split_char_nonempty(t0, c);
        assert(u.drop_last() =~= s + seq![c] + t0);
        assert(u.last() == t.last());
        let a = split_char(s, c);
        let b0 = split_char(t0, c);
        if t.last() == c {
            assert((a + b0).push(Seq::<char>::empty()) =~= a + b0.push(Seq::<char>::empty()));
        } else {
            let ab = a + b0;
            assert(ab.last() == b0.last());
            assert(ab.update(ab.len() - 1, ab.last().push(t.last())) =~= a + b0.update(
                b0.len() - 1,
                b0.last().push(t.last()),
            ));
        }
    }
}

/// A record is read by its fields: of `country|province|city|carrier|...`
/// the country, the province and the carrier normalised come out, whatever
/// follows the carrier; a record of four fields alone gives nothing.
pub proof fn law_records_read_by_field(
    country: Seq<char>,
    province: Seq<char>,
    city: Seq<char>,
    isp: Seq<char>,
    rest: Seq<char>,
)
    requires
        !country.contains('|'),
        !province.contains('|'),
        !city.contains('|'),
        !isp.contains('|'),
    ensures
        geo_of_record(
            country + seq!['|'] + province + seq!['|'] + city + seq!['|'] + isp + seq!['|'] + rest,
        ) == Some((country, province, normalized_isp(isp))),
        geo_of_record(country + seq!['|'] + province + seq!['|'] + city + seq!['|'] + isp) is None,
{
    let bar = seq!['|'];
    let r4 = isp + bar + rest;
    let r3 = city + bar + r4;
    let r2 = province + bar + r3;
    let r1 = country + bar + r2;
    assert(country + bar + province + bar + city + bar + isp + bar + rest =~= r1);
    lemma_split_without_sep(country, '|');
    lemma_split_without_sep(province, '|');
    lemma_split_without_sep(city, '|');
    lemma_split_without_sep(isp, '|');
    lemma_split_char_nonempty(rest, '|');
    lemma_split_joined(isp, rest, '|');
    lemma_split_joined(city, r4, '|');
    lemma_split_joined(province, r3, '|');
    lemma_split_joined(country, r2, '|');
    let p = split_char(r1, '|');
    assert(p == seq![country] + (seq![province] + (seq![city] + (seq![isp] + split_char(rest, '|')))));
    assert(p.len() >= 5);
    assert(p[0] == country && p[1] == province && p[3] == isp);
    let q3 = city + bar + isp;
    let q2 = province + bar + q3;
    let q1 = country + bar + q2;
    assert(country + bar + province + bar + city + bar + isp =~= q1);
    lemma_split_joined(city, isp, '|');
    lemma_split_joined(province, q3, '|');
    lemma_split_joined(country, q2, '|');
    assert(split_char(q1, '|').len() == 4);
}

// ---------------------------------------------------------------- domain names

/// The code of an ASCII letter (capital or small) or digit.
pub open spec fn is_letter_or_digit_code(c: char) -> bool {
    ||| 48 <= (c as int) && (c as int) <= 57
    ||| 65 <= (c as int) && (c as int) <= 90
    ||| 97 <= (c as int) && (c as int) <= 122
}

/// `t` is `s` with some of its ASCII letters and digits replaced by other
/// ASCII letters or digits (a capital written small among them).
pub open spec fn swaps_letters_of(s: Seq<char>, t: Seq<char>) -> bool {
    &&& s.len() == t.len()
    &&& forall|i: int|
        0 <= i < s.len() ==> #[trigger] s[i] == t[i] || (is_letter_or_digit_code(s[i])
            && is_letter_or_digit_code(t[i]))
}

/// Pieces that are, one for one, the same but for letters and digits.
pub open spec fn pieces_swap_letters_of(a: Seq<Seq<char>>, b: Seq<Seq<char>>) -> bool {
    &&& a.len() == b.len()
    &&& forall|k: int| 0 <= k < a.len() ==> swaps_letters_of(#[trigger] a[k], b[k])
}

proof fn lemma_split_swaps_letters(s: Seq<char>, t: Seq<char>)
    requires
        swaps_letters_of(s, t),
    ensures
        pieces_swap_letters_of(split_char(s, '.'), split_char(t, '.')),
    decreases s.len(),
{
    if s.len() == 0 {
        assert(t.len() == 0);
        assert(swaps_letters_of(Seq::<char>::empty(), Seq::<char>::empty()));
    } else {
        let s0 = s.drop_last();
        let t0 = t.drop_last();
        assert(swaps_letters_of(s0, t0)) by {
            assert forall|i: int| 0 <= i < s0.len() implies #[trigger] s0[i] == t0[i] || (
            is_letter_or_digit_code(s0[i]) && is_letter_or_digit_code(t0[i])) by {
                assert(s0[i] == s[i] && t0[i] == t[i]);
            }
        }
        lemma_split_swaps_letters(s0, t0);
        lemma_split_char_nonempty(s0, '.');
        lemma_split_char_nonempty(t0, '.');
        let r = split_char(s0, '.');
        let q = split_char(t0, '.');
        let n = s.len() - 1;
        assert(s[n] == t[n] || (is_letter_or_digit_code(s[n]) && is_letter_or_digit_code(t[n])));
        assert(s.last() == s[n] && t.last() == t[n]);
        if s.last() == '.' {
            assert(t.last() == '.');
            let a = split_char(s, '.');
            let b = split_char(t, '.');
            assert(a == r.push(Seq::<char>::empty()));
            assert(b == q.push(Seq::<char>::empty()));
            assert forall|k: int| 0 <= k < a.len() implies swaps_letters_of(#[trigger] a[k], b[k]) by {
                if k < r.len() {
                    assert(a[k] == r[k] && b[k] == q[k]);
                } else {
                    assert(a[k] == Seq::<char>::empty() && b[k] == Seq::<char>::empty());
                }
            }
        } else {
            assert(t.last() != '.');
            let a = split_char(s, '.');
            let b = split_char(t, '.');
            let last_a = r.last().push(s.last());
            let last_b = q.last().push(t.last());
            assert(a == r.update(r.len() - 1, last_a));
            assert(b == q.update(q.len() - 1, last_b));
            assert(swaps_letters_of(r[r.len() - 1], q[q.len() - 1]));
            assert(swaps_letters_of(last_a, last_b)) by {
                assert forall|i: int| 0 <= i < last_a.len() implies #[trigger] last_a[i] == last_b[i]
                    || (is_letter_or_digit_code(last_a[i]) && is_letter_or_digit_code(last_b[i])) by {
                    if i < r.last().len() {
                        assert(last_a[i] == r.last()[i] && last_b[i] == q.last()[i]);
                    } else {
                        assert(last_a[i] == s.last() && last_b[i] == t.last());
                    }
                }
            }
            assert forall|k: int| 0 <= k < a.len() implies swaps_letters_of(#[trigger] a[k], b[k]) by {
                if k < r.len() - 1 {
                    assert(a[k] == r[k] && b[k] == q[k]);
                } else {
                    assert(a[k] == last_a && b[k] == last_b);
                }
            }
        }
    }
}

proof fn lemma_label_swaps_letters(l: Seq<char>, m: Seq<char>)
    requires
        swaps_letters_of(l, m),
    ensures
        is_domain_label(l) == is_domain_label(m),
{
    assert forall|i: int| 0 <= i < l.len() implies (is_ascii_alnum(#[trigger] l[i]) == is_ascii_alnum(
        m[i],
    ) && (l[i] == '-') == (m[i] == '-')) by {
        if l[i] != m[i] {
            assert(is_letter_or_digit_code(l[i]) && is_letter_or_digit_code(m[i]));
        }
    }
    if l.len() > 0 {
        assert(l.last() == l[l.len() - 1] && m.last() == m[m.len() - 1]);
        assert(is_ascii_alnum(l[0]) == is_ascii_alnum(m[0]));
        assert(is_ascii_alnum(l[l.len() - 1]) == is_ascii_alnum(m[m.len() - 1]));
    }
    if forall|i: int| 0 <= i < l.len() ==> (is_ascii_alnum(#[trigger] l[i]) || l[i] == '-') {
        assert forall|i: int| 0 <= i < m.len() implies (is_ascii_alnum(#[trigger] m[i]) || m[i]
            == '-') by {
            assert(is_ascii_alnum(l[i]) || l[i] == '-');
        }
    }
    if forall|i: int| 0 <= i < m.len() ==> (is_ascii_alnum(#[trigger] m[i]) || m[i] == '-') {
        assert forall|i: int| 0 <= i < l.len() implies (is_ascii_alnum(#[trigger] l[i]) || l[i]
            == '-') by {
            assert(is_ascii_alnum(m[i]) || m[i] == '-');
        }
    }
}

/// Whether a domain name is valid does not depend on which ASCII letters
/// and digits it uses, nor on their case: writing any letter or digit in
/// place of another, a capital in place of a small letter among them, keeps
/// it valid or invalid.
pub proof fn law_domain_names_ignore_letters(s: Seq<char>, t: Seq<char>)
    requires
        swaps_letters_of(s, t),
    ensures
        is_domain_name(s) == is_domain_name(t),
{
    lemma_split_swaps_letters(s, t);
    let a = split_char(s, '.');
    let b = split_char(t, '.');
    assert forall|k: int| 0 <= k < a.len() implies is_domain_label(#[trigger] a[k]) == is_domain_label(
        b[k],
    ) by {
        lemma_label_swaps_letters(a[k], b[k]);
    }
    if is_domain_name(s) {
        assert forall|k: int| 0 <= k < b.len() implies is_domain_label(#[trigger] b[k]) by {
            assert(is_domain_label(a[k]));
        }
    }
    if is_domain_name(t) {
        assert forall|k: int| 0 <= k < a.len() implies is_domain_label(#[trigger] a[k]) by {
            assert(is_domain_label(b[k]));
        }
    }
}

} // verus!
