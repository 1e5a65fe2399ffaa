//! Fixed-point scalars: `i64` values in units of `1 / SCALE`.
//!
//! Multiplication and division rescale by [`SCALE`] and truncate toward zero,
//! exactly as stated by [`mul_fx`] and [`div_fx`]. The square root is the
//! integer square root of the rescaled radicand. All intermediate products are
//! taken in 128-bit arithmetic, so the contracts only ask that the final
//! result fit in an `i64`.

use vstd::arithmetic::div_mod::{
    lemma_div_is_ordered, lemma_div_multiples_vanish, lemma_div_nonincreasing,
    lemma_div_pos_is_pos, lemma_fundamental_div_mod, lemma_mod_pos_bound,
};
use vstd::math::abs;
use vstd::prelude::*;

verus! {

/// Number of fixed-point units in 1.0.
pub const SCALE: i64 = 1_000_000;

/// The value fits in an `i64`.
pub open spec fn fits(v: int) -> bool {
    i64::MIN <= v <= i64::MAX
}

/// Division rounding toward zero, the rounding of Rust's `/` on signed
/// integers (ghost `/` alone is Euclidean). Meaningful for `b != 0`.
pub open spec fn div_trunc(a: int, b: int) -> int {
    let n = if b >= 0 {
        a
    } else {
        -a
    };
    let d = if b >= 0 {
        b
    } else {
        -b
    };
    if n >= 0 {
        n / d
    } else {
        -(-n / d)
    }
}

/// Fixed-point product: `a * b` rescaled, truncated toward zero.
pub open spec fn mul_fx(a: int, b: int) -> int {
    div_trunc(a * b, SCALE as int)
}

/// Fixed-point quotient: `a / b` rescaled, truncated toward zero.
pub open spec fn div_fx(a: int, b: int) -> int {
    div_trunc(a * SCALE, b)
}

/// `r` is the integer square root of `n`.
pub open spec fn is_sqrt_of(n: int, r: int) -> bool {
    0 <= r && r * r <= n && n < (r + 1) * (r + 1)
}

/// The integer square root of `n` (meaningful for `n >= 0`).
pub open spec fn sqrt_int(n: int) -> int {
    choose|r: int| is_sqrt_of(n, r)
}

/// Fixed-point square root: the root of the radicand brought to scale.
pub open spec fn sqrt_fx(x: int) -> int {
    sqrt_int(x * SCALE)
}

/// An integer has at most one integer square root.
pub proof fn lemma_sqrt_unique(n: int, r1: int, r2: int)
    by (nonlinear_arith)
    requires
        is_sqrt_of(n, r1),
        is_sqrt_of(n, r2),
    ensures
        r1 == r2,
{
}

/// Ties a witness of `is_sqrt_of` to the `sqrt_int` function.
pub proof fn lemma_sqrt_int_is(n: int, r: int)
    requires
        is_sqrt_of(n, r),
    ensures
        sqrt_int(n) == r,
{
    assert(exists|q: int| is_sqrt_of(n, q)) by {
        assert(is_sqrt_of(n, r));
    }
    let c = choose|q: int| is_sqrt_of(n, q);
    lemma_sqrt_unique(n, r, c);
}

/// Every nonnegative integer has an integer square root, so `sqrt_int`
/// satisfies its defining bracket.
pub proof fn lemma_sqrt_int_exists(n: int)
    requires
        0 <= n,
    ensures
        is_sqrt_of(n, sqrt_int(n)),
    decreases n,
{
    if n == 0 {
        assert(is_sqrt_of(0, 0)) by (nonlinear_arith);
        lemma_sqrt_int_is(0, 0);
    } else {
        lemma_sqrt_int_exists(n - 1);
        let r = sqrt_int(n - 1);
        if (r + 1) * (r + 1) <= n {
            assert(is_sqrt_of(n, r + 1)) by (nonlinear_arith)
                requires is_sqrt_of(n - 1, r) && (r + 1) * (r + 1) <= n;
            lemma_sqrt_int_is(n, r + 1);
        } else {
            assert(is_sqrt_of(n, r));
            lemma_sqrt_int_is(n, r);
        }
    }
}

/// Flipping the signs of both operands leaves `div_trunc` unchanged.
pub proof fn lemma_div_trunc_neg(a: int, b: int)
    requires
        b != 0,
    ensures
        div_trunc(-a, -b) == div_trunc(a, b),
{
}

/// Truncating division by a positive divisor shrinks magnitudes:
/// from `|a| <= m * b` follows `|div_trunc(a, b)| <= m`.
pub proof fn lemma_div_trunc_le(a: int, b: int, m: int)
    requires
        b > 0,
        0 <= m,
        abs(a) <= m * b,
    ensures
        abs(div_trunc(a, b)) <= m,
{
    assert(m * b == b * m) by (nonlinear_arith);
    lemma_div_multiples_vanish(m, b);
    if a >= 0 {
        lemma_div_pos_is_pos(a, b);
        lemma_div_is_ordered(a, m * b, b);
    } else {
        lemma_div_pos_is_pos(-a, b);
        lemma_div_is_ordered(-a, m * b, b);
    }
}

/// Truncating division of an exact multiple is exact.
pub proof fn lemma_div_trunc_exact(k: int, b: int)
    requires
        b > 0,
    ensures
        div_trunc(k * b, b) == k,
{
    if k >= 0 {
        assert(k * b >= 0 && k * b == b * k) by (nonlinear_arith)
            requires k >= 0 && b > 0;
        lemma_div_multiples_vanish(k, b);
    } else {
        assert(k * b < 0 && -(k * b) == b * (-k)) by (nonlinear_arith)
            requires k < 0 && b > 0;
        lemma_div_multiples_vanish(-k, b);
    }
}

/// Truncating division by a positive divisor keeps the numerator's sign and
/// underestimates nonnegative quotients.
pub proof fn lemma_div_trunc_sign(a: int, b: int)
    requires
        b > 0,
    ensures
        a >= 0 ==> div_trunc(a, b) >= 0,
        a <= 0 ==> div_trunc(a, b) <= 0,
        a >= 0 ==> div_trunc(a, b) * b <= a,
{
    if a >= 0 {
        lemma_div_pos_is_pos(a, b);
        lemma_fundamental_div_mod(a, b);
        lemma_mod_pos_bound(a, b);
        assert(b * (a / b) == (a / b) * b) by (nonlinear_arith);
    } else {
        lemma_div_pos_is_pos(-a, b);
    }
}

/// A nonnegative numerator lies between consecutive multiples of the divisor
/// around its truncated quotient.
pub proof fn lemma_div_trunc_range(a: int, b: int)
    requires
        0 <= a,
        b > 0,
    ensures
        div_trunc(a, b) * b <= a < (div_trunc(a, b) + 1) * b,
{
    lemma_div_trunc_sign(a, b);
    lemma_fundamental_div_mod(a, b);
    lemma_mod_pos_bound(a, b);
    assert(b * (a / b) == (a / b) * b) by (nonlinear_arith);
    assert((a / b + 1) * b == (a / b) * b + b) by (nonlinear_arith);
}

/// Truncating division by a positive divisor reaches `m` once the numerator
/// reaches `m * b`.
pub proof fn lemma_div_trunc_ge(a: int, b: int, m: int)
    requires
        b > 0,
        0 <= m,
        m * b <= a,
    ensures
        m <= div_trunc(a, b),
{
    assert(m * b == b * m && 0 <= m * b) by (nonlinear_arith)
        requires 0 <= m && b > 0;
    lemma_div_multiples_vanish(m, b);
    lemma_div_is_ordered(m * b, a, b);
}

/// Monotonicity of truncating division in the numerator, for nonnegative
/// numerators and a positive divisor.
pub proof fn lemma_div_trunc_ordered(a1: int, a2: int, b: int)
    requires
        0 <= a1 <= a2,
        b > 0,
    ensures
        div_trunc(a1, b) <= div_trunc(a2, b),
{
    lemma_div_is_ordered(a1, a2, b);
}

/// Monotonicity of truncating division in the numerator, for any signs and a
/// positive divisor.
pub proof fn lemma_div_trunc_monotone(a1: int, a2: int, b: int)
    requires
        a1 <= a2,
        b > 0,
    ensures
        div_trunc(a1, b) <= div_trunc(a2, b),
{
    if 0 <= a1 {
        lemma_div_is_ordered(a1, a2, b);
    } else if a2 < 0 {
        lemma_div_is_ordered(-a2, -a1, b);
    } else {
        lemma_div_trunc_sign(a1, b);
        lemma_div_trunc_sign(a2, b);
    }
}

/// Magnitude bound for the fixed-point product.
pub proof fn lemma_mul_fx_le(a: int, b: int, m: int)
    requires
        0 <= m,
        abs(a * b) <= m * SCALE,
    ensures
        abs(mul_fx(a, b)) <= m,
{
    lemma_div_trunc_le(a * b, SCALE as int, m);
}

/// Magnitude bound for the fixed-point quotient.
pub proof fn lemma_div_fx_le(a: int, b: int, m: int)
    requires
        b != 0,
        0 <= m,
        abs(a) * SCALE <= m * abs(b),
    ensures
        abs(div_fx(a, b)) <= m,
{
    assert(abs(a * SCALE) == abs(a) * SCALE) by (nonlinear_arith);
    if b > 0 {
        lemma_div_trunc_le(a * SCALE, b, m);
    } else {
        lemma_div_trunc_neg(-(a * SCALE), -b);
        lemma_div_trunc_le(-(a * SCALE), -b, m);
        assert(abs(-(a * SCALE)) == abs(a * SCALE));
    }
}

/// Truncating division, executable, on 128-bit intermediates.
pub(crate) fn div_trunc_i128(a: i128, b: i128) -> (r: i128)
    requires
        b != 0,
        a > i128::MIN,
        b > i128::MIN,
    ensures
        r as int == div_trunc(a as int, b as int),
{
    let (n, d): (i128, i128) = if b < 0 {
        (-a, -b)
    } else {
        (a, b)
    };
    if n >= 0 {
        proof {
            lemma_div_pos_is_pos(n as int, d as int);
            lemma_div_nonincreasing(n as int, d as int);
        }
        n / d
    } else {
        proof {
            lemma_div_pos_is_pos(-(n as int), d as int);
            lemma_div_nonincreasing(-(n as int), d as int);
        }
        -((-n) / d)
    }
}

/// Fixed-point multiplication. The 128-bit product cannot overflow; the
/// contract asks only that the rescaled result fit.
pub fn fx_mul(a: i64, b: i64) -> (r: i64)
    requires
        fits(mul_fx(a as int, b as int)),
    ensures
        r as int == mul_fx(a as int, b as int),
{
    proof {
        assert((a as int) * (b as int) < i128::MAX && (a as int) * (b as int) > i128::MIN)
            by (nonlinear_arith)
            requires i64::MIN <= a <= i64::MAX && i64::MIN <= b <= i64::MAX;
    }
    let p: i128 = (a as i128) * (b as i128);
    let q: i128 = div_trunc_i128(p, SCALE as i128);
    q as i64
}

/// Fixed-point division. Truncates toward zero; the divisor must be nonzero
/// and the rescaled result must fit.
pub fn fx_div(a: i64, b: i64) -> (r: i64)
    requires
        b != 0,
        fits(div_fx(a as int, b as int)),
    ensures
        r as int == div_fx(a as int, b as int),
{
    proof {
        assert((a as int) * (SCALE as int) < i128::MAX && (a as int) * (SCALE as int)
            > i128::MIN) by (nonlinear_arith)
            requires i64::MIN <= a <= i64::MAX && SCALE == 1_000_000;
    }
    let n: i128 = (a as i128) * (SCALE as i128);
    let q: i128 = div_trunc_i128(n, b as i128);
    q as i64
}

/// Integer square root by bisection.
fn isqrt_u128(n: u128) -> (r: u128)
    ensures
        is_sqrt_of(n as int, r as int),
{
    let mut lo: u128 = 0;
    let mut hi: u128 = 0x1_0000_0000_0000_0000;
    proof {
        assert((hi as int) * (hi as int) > n as int) by (nonlinear_arith)
            requires hi == 0x1_0000_0000_0000_0000u128 && n <= u128::MAX;
    }
    while lo + 1 < hi
        invariant
            lo < hi <= 0x1_0000_0000_0000_0000,
            (lo as int) * (lo as int) <= n as int,
            (n as int) < (hi as int) * (hi as int),
        decreases hi - lo,
    {
        let mid: u128 = lo + (hi - lo) / 2;
        proof {
            assert((mid as int) * (mid as int) <= u128::MAX) by (nonlinear_arith)
                requires mid < 0x1_0000_0000_0000_0000u128;
        }
        if mid * mid <= n {
            lo = mid;
        } else {
            hi = mid;
        }
    }
    lo
}

/// Fixed-point square root of a nonnegative value.
pub fn fx_sqrt(x: i64) -> (r: i64)
    requires
        0 <= x,
    ensures
        0 <= r,
        is_sqrt_of((x as int) * SCALE, r as int),
        r as int == sqrt_fx(x as int),
{
    proof {
        assert((x as int) * (SCALE as int) <= u128::MAX) by (nonlinear_arith)
            requires 0 <= x <= i64::MAX && SCALE == 1_000_000;
    }
    let n: u128 = (x as u128) * (SCALE as u128);
    let r0: u128 = isqrt_u128(n);
    proof {
        assert(n as int == (x as int) * (SCALE as int));
        assert(r0 as int <= i64::MAX) by (nonlinear_arith)
            requires
                is_sqrt_of(n as int, r0 as int) && n as int <= (i64::MAX as int) * (SCALE as int)
                    && SCALE == 1_000_000;
        lemma_sqrt_int_is(n as int, r0 as int);
    }
    r0 as i64
}

} // verus!
