//! Addresses as numbers: the octets or groups of an address read as the
//! digits of one binary number, and what the leading bits of such a number
//! are.
use vstd::prelude::*;
use vstd::arithmetic::power2::{pow2, lemma_pow2_adds, lemma_pow2_pos, lemma2_to64};
use vstd::arithmetic::div_mod::{
    lemma_div_denominator, lemma_hoist_over_denominator, lemma_fundamental_div_mod_converse,
    lemma_multiply_divide_lt, lemma_div_pos_is_pos,
};
use crate::net::IpAddress;

verus! {

/// The number that the first `k` digits of `d` spell in base `2^w`, the
/// first digit highest.
pub open spec fn digits_value(d: Seq<int>, k: nat, w: nat) -> int
    decreases k,
{
    if k == 0 {
        0
    } else {
        digits_value(d, (k - 1) as nat, w) * pow2(w) + d[k - 1]
    }
}

/// Every digit of `d` up to `m` is a digit of base `2^w`.
pub open spec fn digits_in_base(d: Seq<int>, m: nat, w: nat) -> bool {
    forall|i: int| 0 <= i < m ==> 0 <= #[trigger] d[i] < pow2(w)
}

/// The number whose binary digits are the address's bits, its first octet
/// or group highest.
pub open spec fn address_number(a: IpAddress) -> int {
    match a {
        IpAddress::V4(o) => digits_value(o@.map_values(|x: u8| x as int), 4, 8),
        IpAddress::V6(g) => digits_value(g@.map_values(|x: u16| x as int), 8, 16),
    }
}

/// How many bits an address has: 32 for IPv4, 128 for IPv6.
pub open spec fn address_width(a: IpAddress) -> nat {
    match a {
        IpAddress::V4(_) => 32,
        IpAddress::V6(_) => 128,
    }
}

proof fn lemma_digits_value_nonneg(d: Seq<int>, k: nat, m: nat, w: nat)
    requires
        k <= m,
        digits_in_base(d, m, w),
    ensures
        digits_value(d, k, w) >= 0,
    decreases k,
{
    if k > 0 {
        lemma_digits_value_nonneg(d, (k - 1) as nat, m, w);
        lemma_pow2_pos(w);
        let v = digits_value(d, (k - 1) as nat, w);
        assert(v * pow2(w) >= 0) by (nonlinear_arith)
            requires
                v >= 0,
                pow2(w) > 0,
        ;
        assert(d[k - 1] >= 0);
    }
}

/// Dropping the last `m - k` digits of a number of `m` digits leaves the
/// number of its first `k` digits.
proof fn lemma_digits_value_high(d: Seq<int>, k: nat, m: nat, w: nat)
    requires
        k <= m,
        digits_in_base(d, m, w),
    ensures
        digits_value(d, m, w) / (pow2(w * (m - k) as nat) as int) == digits_value(d, k, w),
    decreases m - k,
{
    if k == m {
        assert(w * (m - k) as nat == 0) by (nonlinear_arith)
            requires
                k == m,
        ;
        assert(pow2(0) == 1) by {
            lemma2_to64();
        }
    } else {
        lemma_digits_value_high(d, k + 1, m, w);
        let e1 = w * (m - k - 1) as nat;
        assert(w * (m - k) as nat == e1 + w) by (nonlinear_arith)
            requires
                k < m,
                e1 == w * (m - k - 1) as nat,
        ;
        lemma_pow2_adds(e1, w);
        lemma_pow2_pos(e1);
        lemma_pow2_pos(w);
        lemma_digits_value_nonneg(d, m, m, w);
        lemma_digits_value_nonneg(d, k, m, w);
        let x = digits_value(d, m, w);
        lemma_div_denominator(x, pow2(e1) as int, pow2(w) as int);
        let v = digits_value(d, k, w);
        assert(digits_value(d, k + 1, w) == v * pow2(w) + d[k as int]);
        lemma_fundamental_div_mod_converse(v * pow2(w) + d[k as int], pow2(w) as int, v, d[k as int]);
    }
}

/// Two numbers of `k` digits are equal exactly when all their digits are.
proof fn lemma_digits_value_injective(d1: Seq<int>, d2: Seq<int>, k: nat, m: nat, w: nat)
    requires
        k <= m,
        digits_in_base(d1, m, w),
        digits_in_base(d2, m, w),
    ensures
        (digits_value(d1, k, w) == digits_value(d2, k, w)) == (forall|i: int|
            0 <= i < k ==> d1[i] == d2[i]),
    decreases k,
{
    if k > 0 {
        let j = (k - 1) as nat;
        lemma_digits_value_injective(d1, d2, j, m, w);
        lemma_pow2_pos(w);
        let v1 = digits_value(d1, j, w);
        let v2 = digits_value(d2, j, w);
        let b = pow2(w) as int;
        if digits_value(d1, k, w) == digits_value(d2, k, w) {
            lemma_fundamental_div_mod_converse(v1 * b + d1[j as int], b, v1, d1[j as int]);
            lemma_fundamental_div_mod_converse(v2 * b + d2[j as int], b, v2, d2[j as int]);
            assert forall|i: int| 0 <= i < k implies d1[i] == d2[i] by {
                if i < j {
                } else {
                    assert(i == j);
                }
            }
        }
        if forall|i: int| 0 <= i < k ==> d1[i] == d2[i] {
            assert forall|i: int| 0 <= i < j implies d1[i] == d2[i] by {
                assert(0 <= i < k);
            }
            assert(d1[j as int] == d2[j as int]);
        }
    }
}

/// The first `p` bits of a number of `m` digits of `w` bits: the first
/// `p / w` digits, and then the leading `p % w` bits of the next digit.
proof fn lemma_leading_bits(d: Seq<int>, m: nat, w: nat, p: nat)
    requires
        w > 0,
        p <= w * m,
        digits_in_base(d, m, w),
    ensures
        p % w == 0 ==> digits_value(d, m, w) / (pow2((w * m - p) as nat) as int) == digits_value(
            d,
            p / w,
            w,
        ),
        p % w != 0 ==> p / w < m && digits_value(d, m, w) / (pow2((w * m - p) as nat) as int) == digits_value(
            d,
            p / w,
            w,
        ) * pow2(p % w) + d[(p / w) as int] / (pow2((w - p % w) as nat) as int),
{
    let q = p / w;
    let r = p % w;
    assert(p == w * q + r && 0 <= r < w) by (nonlinear_arith)
        requires
            w > 0,
            q == p / w,
            r == p % w,
    ;
    assert(q <= m) by (nonlinear_arith)
        requires
            p <= w * m,
            p == w * q + r,
            r >= 0,
            w > 0,
    ;
    if r == 0 {
        assert((w * m - p) as nat == w * (m - q) as nat) by (nonlinear_arith)
            requires
                p == w * q,
                q <= m,
        ;
        lemma_digits_value_high(d, q, m, w);
    } else {
        assert(q < m) by (nonlinear_arith)
            requires
                p <= w * m,
                p == w * q + r,
                r > 0,
                w > 0,
        ;
        let e1 = w * (m - q - 1) as nat;
        let e2 = (w - r) as nat;
        assert((w * m - p) as nat == e1 + e2) by (nonlinear_arith)
            requires
                p == w * q + r,
                q < m,
                r < w,
                e1 == w * (m - q - 1) as nat,
                e2 == w - r,
        ;
        lemma_pow2_adds(e1, e2);
        lemma_pow2_pos(e1);
        lemma_pow2_pos(e2);
        lemma_pow2_pos(r);
        lemma_digits_value_nonneg(d, m, m, w);
        lemma_digits_value_high(d, q + 1, m, w);
        assert(w * (m - (q + 1)) as nat == e1);
        let x = digits_value(d, m, w);
        lemma_div_denominator(x, pow2(e1) as int, pow2(e2) as int);
        // x / 2^e1 is the number of the first q + 1 digits
        let v = digits_value(d, q, w);
        let dq = d[q as int];
        assert(digits_value(d, q + 1, w) == v * pow2(w) + dq);
        assert(r + e2 == w);
        lemma_pow2_adds(r, e2);
        assert(v * pow2(w) == (v * pow2(r)) * pow2(e2)) by (nonlinear_arith)
            requires
                pow2(w) == pow2(r) * pow2(e2),
        ;
        lemma_hoist_over_denominator(dq, v * pow2(r), pow2(e2));
    }
}

/// Two numbers of `m` digits of `w` bits agree in their first `p` bits
/// exactly when their first `p / w` digits agree and, where `p` is not a
/// whole number of digits, the leading `p % w` bits of the next digit.
pub proof fn lemma_leading_bits_agree(d1: Seq<int>, d2: Seq<int>, m: nat, w: nat, p: nat)
    requires
        w > 0,
        p <= w * m,
        digits_in_base(d1, m, w),
        digits_in_base(d2, m, w),
    ensures
        (digits_value(d1, m, w) / (pow2((w * m - p) as nat) as int) == digits_value(d2, m, w) / (pow2(
            (w * m - p) as nat,
        ) as int)) == ((forall|i: int| 0 <= i < p / w ==> d1[i] == d2[i]) && (p % w != 0 ==> d1[(p
            / w) as int] / (pow2((w - p % w) as nat) as int) == d2[(p / w) as int] / (pow2(
            (w - p % w) as nat,
        ) as int))),
{
    let q = p / w;
    let r = p % w;
    lemma_leading_bits(d1, m, w, p);
    lemma_leading_bits(d2, m, w, p);
    assert(q <= m) by (nonlinear_arith)
        requires
            p <= w * m,
            q == p / w,
            w > 0,
    ;
    lemma_digits_value_injective(d1, d2, q, m, w);
    if r != 0 {
        let e2 = (w - r) as nat;
        let v1 = digits_value(d1, q, w);
        let v2 = digits_value(d2, q, w);
        lemma_pow2_pos(e2);
        lemma_pow2_pos(r);
        lemma_pow2_adds(r, e2);
        assert(r + e2 == w);
        assert(pow2(w) == pow2(r) * pow2(e2));
        assert((pow2(w) as int) == (pow2(e2) as int) * (pow2(r) as int)) by (nonlinear_arith)
            requires
                pow2(w) == pow2(r) * pow2(e2),
        ;
        let t1 = d1[q as int] / (pow2(e2) as int);
        let t2 = d2[q as int] / (pow2(e2) as int);
        assert(0 <= d1[q as int] < pow2(w));
        assert(0 <= d2[q as int] < pow2(w));
        lemma_div_pos_is_pos(d1[q as int], pow2(e2) as int);
        lemma_div_pos_is_pos(d2[q as int], pow2(e2) as int);
        lemma_multiply_divide_lt(d1[q as int], pow2(e2) as int, pow2(r) as int);
        lemma_multiply_divide_lt(d2[q as int], pow2(e2) as int, pow2(r) as int);
        if v1 * pow2(r) + t1 == v2 * pow2(r) + t2 {
            lemma_fundamental_div_mod_converse(v1 * pow2(r) + t1, pow2(r) as int, v1, t1);
            lemma_fundamental_div_mod_converse(v2 * pow2(r) + t2, pow2(r) as int, v2, t2);
        }
    }
}

} // verus!
