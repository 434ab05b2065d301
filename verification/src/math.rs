//! Widening multiply/divide with explicit rounding. All arithmetic is checked;
//! an overflow returns `None` and the caller must treat it as a program error.
use vstd::arithmetic::div_mod::*;
use vstd::arithmetic::power2::*;
use vstd::bits::*;
use vstd::prelude::*;

verus! {

/// 2^64 as a mathematical integer.
pub open spec fn two_pow_64() -> int {
    0x1_0000_0000_0000_0000
}

/// 2^128 as a mathematical integer.
pub open spec fn two_pow_128() -> int {
    two_pow_64() * two_pow_64()
}

/// The 256-bit number whose high and low 128-bit halves are `hi` and `lo`.
pub open spec fn wide_value(hi: u128, lo: u128) -> int {
    hi * two_pow_128() + lo
}

/// `n / d` rounded up, for `n >= 0` and `d > 0`.
pub open spec fn ceil_div(n: int, d: int) -> int {
    n / d + (if n % d == 0 { 0int } else { 1int })
}

/// `Some(v)` when `v` fits in a `u128`, `None` otherwise.
pub open spec fn fit_u128(v: int) -> Option<u128> {
    if 0 <= v <= u128::MAX {
        Some(v as u128)
    } else {
        None
    }
}

/// `floor(x * y / d)` when `d != 0` and the quotient fits in 128 bits.
pub open spec fn spec_mul_div_down(x: u128, y: u128, d: u128) -> Option<u128> {
    if d == 0 {
        None
    } else {
        fit_u128((x * y) / (d as int))
    }
}

/// `ceil(x * y / d)` when `d != 0` and the quotient fits in 128 bits.
pub open spec fn spec_mul_div_up(x: u128, y: u128, d: u128) -> Option<u128> {
    if d == 0 {
        None
    } else {
        fit_u128(ceil_div(x * y, d as int))
    }
}

proof fn lemma_pow2_64_128()
    ensures
        pow2(64) == two_pow_64(),
        pow2(128) == two_pow_128(),
{
    lemma2_to64_rest();
    lemma_pow2_adds(64, 64);
}

/// Splitting a `u128` into its 64-bit halves.
proof fn lemma_split_u128(v: u128)
    ensures
        v == (v >> 64u128) * two_pow_64() + (v & 0xffff_ffff_ffff_ffffu128),
        (v >> 64u128) < two_pow_64(),
        (v & 0xffff_ffff_ffff_ffffu128) < two_pow_64(),
{
    assert(v == (v >> 64u128) * 0x1_0000_0000_0000_0000u128 + (v & 0xffff_ffff_ffff_ffffu128))
        by (bit_vector);
    assert((v >> 64u128) < 0x1_0000_0000_0000_0000u128) by (bit_vector);
    assert((v & 0xffff_ffff_ffff_ffffu128) < 0x1_0000_0000_0000_0000u128) by (bit_vector);
}

proof fn lemma_product_of_halves(a: int, b: int)
    requires
        0 <= a < two_pow_64(),
        0 <= b < two_pow_64(),
    ensures
        0 <= a * b < two_pow_128(),
{
    assert(0 <= a * b <= 0xffff_ffff_ffff_ffff * 0xffff_ffff_ffff_ffff) by (nonlinear_arith)
        requires
            0 <= a <= 0xffff_ffff_ffff_ffff,
            0 <= b <= 0xffff_ffff_ffff_ffff,
    ;
}

proof fn lemma_four_products(
    x: int,
    y: int,
    x0: int,
    x1: int,
    y0: int,
    y1: int,
)
    requires
        x == x1 * two_pow_64() + x0,
        y == y1 * two_pow_64() + y0,
    ensures
        x * y == (x1 * y1) * two_pow_128() + (x0 * y1 + x1 * y0) * two_pow_64() + x0 * y0,
{
    let b = two_pow_64();
    let xh = x1 * b;
    let yh = y1 * b;
    assert(x * y == xh * yh + x0 * yh + xh * y0 + x0 * y0) by (nonlinear_arith)
        requires
            x == xh + x0,
            y == yh + y0,
    ;
    assert(xh * yh == (x1 * y1) * (b * b)) by (nonlinear_arith)
        requires
            xh == x1 * b,
            yh == y1 * b,
    ;
    assert(x0 * yh == (x0 * y1) * b) by (nonlinear_arith)
        requires
            yh == y1 * b,
    ;
    assert(xh * y0 == (x1 * y0) * b) by (nonlinear_arith)
        requires
            xh == x1 * b,
    ;
    assert(b * b == two_pow_128());
}

proof fn lemma_product_bound(x: u128, y: u128)
    ensures
        0 <= x * y < two_pow_128() * two_pow_128(),
{
    assert(0 <= x * y <= (two_pow_128() - 1) * (two_pow_128() - 1)) by (nonlinear_arith)
        requires
            0 <= x < two_pow_128(),
            0 <= y < two_pow_128(),
    ;
}

/// Full 128×128 → 256-bit product as `(hi, lo)`.
pub fn widening_mul(x: u128, y: u128) -> (r: (u128, u128))
    ensures
        wide_value(r.0, r.1) == x * y,
{
    let (x0, x1) = (x & u64::MAX as u128, x >> 64);
    let (y0, y1) = (y & u64::MAX as u128, y >> 64);
    proof {
        lemma_split_u128(x);
        lemma_split_u128(y);
        lemma_product_of_halves(x0 as int, y0 as int);
        lemma_product_of_halves(x0 as int, y1 as int);
        lemma_product_of_halves(x1 as int, y0 as int);
        lemma_product_of_halves(x1 as int, y1 as int);
    }
    let p00 = x0 * y0;
    let p01 = x0 * y1;
    let p10 = x1 * y0;
    let p11 = x1 * y1;
    proof {
        lemma_split_u128(p00);
        lemma_split_u128(p01);
        lemma_split_u128(p10);
    }
    let mid = (p00 >> 64) + (p01 & u64::MAX as u128) + (p10 & u64::MAX as u128);
    let lo = (mid << 64) | (p00 & u64::MAX as u128);
    proof {
        lemma_split_u128(mid);
        assert((mid << 64u128) | (p00 & 0xffff_ffff_ffff_ffffu128) == (mid
            & 0xffff_ffff_ffff_ffffu128) * 0x1_0000_0000_0000_0000u128 + (p00
            & 0xffff_ffff_ffff_ffffu128)) by (bit_vector);
        lemma_four_products(x as int, y as int, x0 as int, x1 as int, y0 as int, y1 as int);
        lemma_product_bound(x, y);
        let hi_math = p11 + (p01 >> 64u128) + (p10 >> 64u128) + (mid >> 64u128);
        assert(x * y == hi_math * two_pow_128() + lo);
        assert(hi_math < two_pow_128()) by (nonlinear_arith)
            requires
                x * y == hi_math * two_pow_128() + lo,
                0 <= lo,
                x * y < two_pow_128() * two_pow_128(),
                two_pow_128() > 0,
        ;
    }
    let hi = p11 + (p01 >> 64) + (p10 >> 64) + (mid >> 64);
    (hi, lo)
}

/// One step of reading `lo` from its top bit down: the prefix above bit `j`
/// is twice the prefix above bit `j + 1`, plus bit `j`.
proof fn lemma_prefix_step(lo: u128, j: u32)
    requires
        j < 128,
    ensures
        lo as nat / pow2(j as nat) == 2 * (lo as nat / pow2((j + 1) as nat)) + ((lo >> j) & 1),
        ((lo >> j) & 1) <= 1,
{
    lemma_u128_shr_is_div(lo, j as u128);
    let t = lo >> j;
    assert(t & 1u128 == t % 2) by (bit_vector);
    assert(t & 1u128 <= 1) by (bit_vector);
    lemma_pow2_pos(j as nat);
    lemma_pow2_unfold((j + 1) as nat);
    lemma_div_denominator(lo as int, pow2(j as nat) as int, 2);
    lemma_fundamental_div_mod(t as int, 2);
    assert(pow2((j + 1) as nat) == pow2(j as nat) * 2);
}

/// Shifting the running remainder left by one and bringing in `bit`, as a
/// 128-bit value: the top bit of `rem` falls off.
proof fn lemma_shift_in(rem: u128, bit: u128)
    requires
        bit <= 1,
    ensures
        (rem >> 127u128) <= 1,
        (rem >> 127u128) == 0 ==> ((rem << 1u128) | bit) == 2 * rem + bit,
        (rem >> 127u128) == 1 ==> ((rem << 1u128) | bit) == 2 * rem + bit - two_pow_128(),
{
    assert((rem >> 127u128) <= 1) by (bit_vector);
    assert((rem >> 127u128) == 0 ==> ((rem << 1u128) | bit) == 2 * rem + bit) by (bit_vector)
        requires
            bit <= 1,
    ;
    assert((rem >> 127u128) == 1 ==> (rem >= 0x8000_0000_0000_0000_0000_0000_0000_0000u128 && (
    (rem << 1u128) | bit) == 2 * (rem - 0x8000_0000_0000_0000_0000_0000_0000_0000u128) + bit))
        by (bit_vector)
        requires
            bit <= 1,
    ;
}

proof fn lemma_double_bits(q: u128)
    requires
        q < 0x8000_0000_0000_0000_0000_0000_0000_0000u128,
    ensures
        q << 1u128 == 2 * q,
        (q << 1u128) | 1u128 == 2 * q + 1,
{
    assert(q << 1u128 == 2 * q) by (bit_vector)
        requires
            q < 0x8000_0000_0000_0000_0000_0000_0000_0000u128,
    ;
    assert((q << 1u128) | 1u128 == 2 * q + 1) by (bit_vector)
        requires
            q < 0x8000_0000_0000_0000_0000_0000_0000_0000u128,
    ;
}

/// The quotient of a 256-bit value `(hi, lo)` by `d`, when it fits in 128 bits.
pub open spec fn spec_div_wide(hi: u128, lo: u128, d: u128) -> Option<u128> {
    if hi >= d {
        None
    } else {
        Some((wide_value(hi, lo) / (d as int)) as u128)
    }
}

/// Divide a 256-bit value `(hi, lo)` by a 128-bit `d`. `None` if the quotient
/// does not fit in 128 bits.
pub fn div_256_by_128(hi: u128, lo: u128, d: u128) -> (r: Option<u128>)
    ensures
        r == spec_div_wide(hi, lo, d),
        r is Some ==> r->0 == wide_value(hi, lo) / (d as int),
{
    if hi >= d {
        return None;
    }
    if hi == 0 {
        return Some(lo / d);
    }
    // Bitwise long division; 256 iterations max, cheap in the zkVM relative to
    // the account hashing that dominates a transaction.
    let mut rem: u128 = hi;
    let mut q: u128 = 0;
    let mut i: u32 = 128;
    proof {
        lemma2_to64();
        lemma_prefix_empty(lo);
        assert(hi * pow2(0) == hi);
    }
    // After the bits of `lo` above bit `i` have been brought in, the value read
    // so far (hi followed by those bits) is q * d + rem with rem < d.
    while i > 0
        invariant
            i <= 128,
            hi < d,
            rem < d,
            hi * pow2((128 - i) as nat) + lo as nat / pow2(i as nat) == q * d + rem,
            q < pow2((128 - i) as nat),
        decreases i,
    {
        let ghost q0 = q;
        let ghost rem0 = rem;
        i -= 1;
        let bit = (lo >> i) & 1;
        let carry = rem >> 127;
        proof {
            lemma_prefix_step(lo, i);
            lemma_shift_in(rem, bit);
            lemma_pow2_unfold((128 - i) as nat);
            lemma_pow2_unfold(128);
            lemma_pow2_64_128();
            if i > 0 {
                lemma_pow2_strictly_increases((127 - i) as nat, 127);
            }
            lemma_double_bits(q);
        }
        rem = (rem << 1) | bit;
        q <<= 1;
        if carry == 1 || rem >= d {
            rem = rem.wrapping_sub(d);
            q |= 1;
        }
        proof {
            // the true shifted remainder 2 * rem0 + bit is below 2 * d; it was
            // reduced by d exactly when it reached d (a carried-out top bit
            // means it exceeds 2^128 > d)
            let bitv = ((lo >> i) & 1) as int;
            let big = 2 * rem0 + bitv;
            assert(q * d + rem == 2 * (q0 * d + rem0) + bitv) by (nonlinear_arith)
                requires
                    (q == 2 * q0 + 1 && rem == big - d) || (q == 2 * q0 && rem == big),
                    big == 2 * rem0 + bitv,
            ;
            let a = hi * pow2((128 - i) as nat);
            let b = hi * pow2((127 - i) as nat);
            let c = lo as nat / pow2(i as nat);
            let e = lo as nat / pow2((i + 1) as nat);
            assert(a == 2 * b) by (nonlinear_arith)
                requires
                    a == hi * pow2((128 - i) as nat),
                    b == hi * pow2((127 - i) as nat),
                    pow2((128 - i) as nat) == 2 * pow2((127 - i) as nat),
            ;
            assert(a + c == q * d + rem) by (nonlinear_arith)
                requires
                    a == 2 * b,
                    c == 2 * e + bitv,
                    b + e == q0 * d + rem0,
                    q * d + rem == 2 * (q0 * d + rem0) + bitv,
            ;
        }
    }
    proof {
        lemma2_to64();
        lemma_pow2_64_128();
        assert(lo as nat / pow2(0) == lo);
        lemma_fundamental_div_mod_converse(wide_value(hi, lo), d as int, q as int, rem as int);
    }
    Some(q)
}

/// Before any bit of `lo` is read, its prefix is empty.
proof fn lemma_prefix_empty(lo: u128)
    ensures
        lo as nat / pow2(128) == 0,
{
    lemma_pow2_64_128();
    lemma_basic_div(lo as int, pow2(128) as int);
}

/// The quotient of a 256-bit value by `d` fits in 128 bits exactly when the
/// high half is below `d`.
proof fn lemma_quotient_fits(hi: u128, lo: u128, d: u128)
    requires
        d > 0,
    ensures
        (hi >= d) <==> wide_value(hi, lo) / (d as int) > u128::MAX,
{
    let n = wide_value(hi, lo);
    let t = two_pow_128();
    if hi >= d {
        assert(n >= (d as int) * t) by (nonlinear_arith)
            requires
                n == hi * t + lo,
                hi >= d,
                lo >= 0,
                t > 0,
        ;
        lemma_div_is_ordered((d as int) * t, n, d as int);
        lemma_div_by_multiple(t, d as int);
        assert((d as int) * t == t * (d as int)) by (nonlinear_arith);
    } else {
        assert(n < (d as int) * t) by (nonlinear_arith)
            requires
                n == hi * t + lo,
                hi + 1 <= d,
                lo < t,
        ;
        lemma_div_strictly_below(n, d as int, t);
    }
}

proof fn lemma_div_strictly_below(n: int, d: int, t: int)
    requires
        d > 0,
        0 <= n < d * t,
    ensures
        n / d < t,
{
    lemma_fundamental_div_mod(n, d);
    lemma_mod_bound(n, d);
    let q = n / d;
    assert(q < t) by (nonlinear_arith)
        requires
            n == d * q + n % d,
            n % d >= 0,
            n < d * t,
            d > 0,
    ;
}

/// Two 256-bit representations with 128-bit low halves are equal only when
/// both halves are equal.
proof fn lemma_wide_unique(a: u128, b: u128, c: u128, e: u128)
    requires
        wide_value(a, b) == wide_value(c, e),
    ensures
        a == c,
        b == e,
{
    let t = two_pow_128();
    lemma_fundamental_div_mod_converse(wide_value(a, b), t, a as int, b as int);
    lemma_fundamental_div_mod_converse(wide_value(c, e), t, c as int, e as int);
}

/// Multiply `x * y` then divide by `d`, rounding down. `None` on overflow or `d == 0`.
pub fn mul_div_down(x: u128, y: u128, d: u128) -> (r: Option<u128>)
    ensures
        r == spec_mul_div_down(x, y, d),
{
    if d == 0 {
        return None;
    }
    let (hi, lo) = widening_mul(x, y);
    proof {
        lemma_quotient_fits(hi, lo, d);
        lemma_div_pos_is_pos(x * y, d as int);
    }
    div_256_by_128(hi, lo, d)
}

/// Multiply `x * y` then divide by `d`, rounding up. `None` on overflow or `d == 0`.
pub fn mul_div_up(x: u128, y: u128, d: u128) -> (r: Option<u128>)
    ensures
        r == spec_mul_div_up(x, y, d),
{
    if d == 0 {
        return None;
    }
    let (hi, lo) = widening_mul(x, y);
    proof {
        lemma_quotient_fits(hi, lo, d);
        lemma_div_pos_is_pos(x * y, d as int);
    }
    let q = match div_256_by_128(hi, lo, d) {
        Some(q) => q,
        None => {
            return None;
        },
    };
    // remainder = (x*y) - q*d, computed in 256 bits to avoid overflow
    let (qh, ql) = widening_mul(q, d);
    let exact = qh == hi && ql == lo;
    proof {
        let n = x * y;
        lemma_fundamental_div_mod(n, d as int);
        lemma_mod_bound(n, d as int);
        assert(q * d == (d as int) * q) by (nonlinear_arith);
        assert(q == n / (d as int));
        if exact {
            assert(n % (d as int) == 0);
            assert(ceil_div(n, d as int) == q);
        } else {
            if n % (d as int) == 0 {
                assert(wide_value(qh, ql) == wide_value(hi, lo));
                lemma_wide_unique(qh, ql, hi, lo);
            }
            assert(ceil_div(n, d as int) == q + 1);
        }
    }
    if exact {
        Some(q)
    } else {
        q.checked_add(1)
    }
}

/// `x * y / WAD`, rounding down.
pub fn w_mul_down(x: u128, y: u128) -> (r: Option<u128>)
    ensures
        r == spec_mul_div_down(x, y, crate::WAD),
{
    mul_div_down(x, y, crate::WAD)
}

/// `x * WAD / y`, rounding down.
pub fn w_div_down(x: u128, y: u128) -> (r: Option<u128>)
    ensures
        r == spec_mul_div_down(x, crate::WAD, y),
{
    mul_div_down(x, crate::WAD, y)
}

/// `x * WAD / y`, rounding up.
pub fn w_div_up(x: u128, y: u128) -> (r: Option<u128>)
    ensures
        r == spec_mul_div_up(x, crate::WAD, y),
{
    mul_div_up(x, crate::WAD, y)
}

/// Rounding up gives the rounded-down quotient or one more: whenever the
/// rounded-up quotient exists, so does the rounded-down one, and the two are
/// equal exactly when `d` divides `x * y`.
pub proof fn lemma_up_is_down_or_down_plus_one(x: u128, y: u128, d: u128)
    ensures
        spec_mul_div_up(x, y, d) is Some ==> spec_mul_div_down(x, y, d) is Some,
        (spec_mul_div_down(x, y, d), spec_mul_div_up(x, y, d)) matches (Some(dn), Some(up)) ==> (
        up == dn || up == dn + 1),
        (spec_mul_div_down(x, y, d), spec_mul_div_up(x, y, d)) matches (Some(dn), Some(up)) ==> (
        up == dn <==> (x * y) % (d as int) == 0),
{
    if d != 0 {
        lemma_div_pos_is_pos(x * y, d as int);
    }
}

/// When the product `x * y` itself fits in 128 bits, both roundings agree
/// with native 128-bit arithmetic: `p / d`, and `p / d` plus one when `d`
/// does not divide `p`.
pub proof fn lemma_matches_native_when_product_fits(x: u128, y: u128, d: u128)
    requires
        d > 0,
        x * y <= u128::MAX,
    ensures
        spec_mul_div_down(x, y, d) == Some(((x * y) / (d as int)) as u128),
        spec_mul_div_up(x, y, d) == Some(
            ((x * y) / (d as int) + (if (x * y) % (d as int) != 0 { 1int } else { 0int })) as u128,
        ),
{
    let p = x * y;
    lemma_div_pos_is_pos(p, d as int);
    lemma_div_is_ordered_by_denominator(p, 1, d as int);
    if p % (d as int) != 0 {
        // d does not divide p, so d >= 2 and p / d <= p / 2 < p
        assert(d != 1) by {
            if d == 1 {
                assert(p % 1 == 0) by (nonlinear_arith);
            }
        }
        lemma_div_is_ordered_by_denominator(p, 2, d as int);
        assert(p > 0) by {
            if p == 0 {
                lemma_small_mod(0, d as nat);
            }
        }
        assert(p / 2 < p) by (nonlinear_arith)
            requires
                p > 0,
        ;
    }
}

/// What rounding down means: the result `q` is the one multiple count with
/// `q * d <= x * y < q * d + d`, and there is no result exactly when `d` is
/// zero or `x * y / d` reaches 2^128.
pub proof fn lemma_mul_div_down_is_floor(x: u128, y: u128, d: u128)
    ensures
        spec_mul_div_down(x, y, d) is None <==> (d == 0 || x * y >= (u128::MAX + 1) * d),
        spec_mul_div_down(x, y, d) matches Some(q) ==> q * d <= x * y < q * d + d,
{
    if d > 0 {
        let n = x * y;
        let dd = d as int;
        lemma_fundamental_div_mod(n, dd);
        lemma_mod_bound(n, dd);
        lemma_div_pos_is_pos(n, dd);
        let q = n / dd;
        let r = n % dd;
        assert(q <= u128::MAX <==> n < (u128::MAX + 1) * dd) by (nonlinear_arith)
            requires
                n == dd * q + r,
                0 <= r < dd,
        ;
        assert(q * dd <= n < q * dd + dd) by (nonlinear_arith)
            requires
                n == dd * q + r,
                0 <= r < dd,
        ;
    }
}

/// What rounding up means: the result `q` is the one multiple count with
/// `x * y <= q * d < x * y + d`, and there is no result exactly when `d` is
/// zero or `x * y` exceeds `u128::MAX * d`.
pub proof fn lemma_mul_div_up_is_ceiling(x: u128, y: u128, d: u128)
    ensures
        spec_mul_div_up(x, y, d) is None <==> (d == 0 || x * y > u128::MAX * d),
        spec_mul_div_up(x, y, d) matches Some(q) ==> x * y <= q * d < x * y + d,
{
    if d > 0 {
        let n = x * y;
        let dd = d as int;
        lemma_fundamental_div_mod(n, dd);
        lemma_mod_bound(n, dd);
        lemma_div_pos_is_pos(n, dd);
        let q = n / dd;
        let r = n % dd;
        let c = ceil_div(n, dd);
        assert(c == q + (if r == 0 { 0int } else { 1int }));
        assert(c <= u128::MAX <==> n <= u128::MAX * dd) by (nonlinear_arith)
            requires
                n == dd * q + r,
                0 <= r < dd,
                c == q + (if r == 0 { 0int } else { 1int }),
        ;
        assert(n <= c * dd < n + dd) by (nonlinear_arith)
            requires
                n == dd * q + r,
                0 <= r < dd,
                c == q + (if r == 0 { 0int } else { 1int }),
        ;
        assert(c >= 0);
    }
}

} // verus!
