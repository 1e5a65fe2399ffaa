//! Three-component fixed-point vectors, used as points, directions and colors.
//!
//! The mathematical model is [`V3`], a triple of unbounded integers in fixed-
//! point units; every executable operation states its result exactly over that
//! model, rounding included.

use crate::fixed::{
    div_fx, div_trunc, div_trunc_i128, fits, fx_div, fx_mul, fx_sqrt, lemma_div_fx_le,
    lemma_div_trunc_le, lemma_div_trunc_range, lemma_div_trunc_sign, mul_fx, sqrt_fx, SCALE,
};
use crate::rng::RandomSource;
use vstd::math::abs;
use vstd::prelude::*;

verus! {

/// Component magnitude up to which dot and cross products are accepted; keeps
/// the 128-bit sums of products in range with a wide margin.
pub const WIDE_LIMIT: i64 = 1_000_000_000_000_000_000;

/// The mathematical value of a vector: three fixed-point components.
pub ghost struct V3 {
    pub x: int,
    pub y: int,
    pub z: int,
}

/// All three components lie in `[-b, b]`.
pub open spec fn bounded_v(u: V3, b: int) -> bool {
    -b <= u.x <= b && -b <= u.y <= b && -b <= u.z <= b
}

pub open spec fn add_v(u: V3, v: V3) -> V3 {
    V3 { x: u.x + v.x, y: u.y + v.y, z: u.z + v.z }
}

pub open spec fn sub_v(u: V3, v: V3) -> V3 {
    V3 { x: u.x - v.x, y: u.y - v.y, z: u.z - v.z }
}

pub open spec fn neg_v(u: V3) -> V3 {
    V3 { x: -u.x, y: -u.y, z: -u.z }
}

/// Scaling by a fixed-point factor, each component rounded toward zero.
pub open spec fn scale_v(k: int, u: V3) -> V3 {
    V3 { x: mul_fx(k, u.x), y: mul_fx(k, u.y), z: mul_fx(k, u.z) }
}

/// Component-wise product (color filtering), rounded toward zero.
pub open spec fn comp_mul_v(u: V3, v: V3) -> V3 {
    V3 { x: mul_fx(u.x, v.x), y: mul_fx(u.y, v.y), z: mul_fx(u.z, v.z) }
}

/// Division by a fixed-point scalar, each component rounded toward zero.
pub open spec fn div_scalar_v(u: V3, k: int) -> V3 {
    V3 { x: div_fx(u.x, k), y: div_fx(u.y, k), z: div_fx(u.z, k) }
}

/// The unscaled sum of component products. Its sign is the exact sign of the
/// dot product, free of rounding.
pub open spec fn dot_raw_v(u: V3, v: V3) -> int {
    u.x * v.x + u.y * v.y + u.z * v.z
}

/// The fixed-point dot product: one rescaling of the exact sum.
pub open spec fn dot_v(u: V3, v: V3) -> int {
    div_trunc(dot_raw_v(u, v), SCALE as int)
}

/// The squared Euclidean norm, in fixed-point units.
pub open spec fn norm_sq_v(u: V3) -> int {
    dot_v(u, u)
}

/// The Euclidean norm: fixed-point square root of the squared norm.
pub open spec fn len_v(u: V3) -> int {
    sqrt_fx(norm_sq_v(u))
}

pub open spec fn cross_v(u: V3, v: V3) -> V3 {
    V3 {
        x: mul_fx(u.y, v.z) - mul_fx(u.z, v.y),
        y: mul_fx(u.z, v.x) - mul_fx(u.x, v.z),
        z: mul_fx(u.x, v.y) - mul_fx(u.y, v.x),
    }
}

/// Each component divided by the norm.
pub open spec fn unit_v(u: V3) -> V3 {
    div_scalar_v(u, len_v(u))
}

/// The fixed-point rendering of the near-zero test: every component smaller in
/// magnitude than one quantum, hence exactly zero.
pub open spec fn near_zero_v(u: V3) -> bool {
    u.x == 0 && u.y == 0 && u.z == 0
}

/// A color with every channel in the unit range.
pub open spec fn color_in_range(c: V3) -> bool {
    0 <= c.x <= SCALE && 0 <= c.y <= SCALE && 0 <= c.z <= SCALE
}

/// Filtering one color by another stays in the unit range.
pub proof fn lemma_color_mul_range(a: V3, b: V3)
    requires
        color_in_range(a),
        color_in_range(b),
    ensures
        fits(mul_fx(a.x, b.x)),
        fits(mul_fx(a.y, b.y)),
        fits(mul_fx(a.z, b.z)),
        color_in_range(comp_mul_v(a, b)),
{
    lemma_unit_product_range(a.x, b.x);
    lemma_unit_product_range(a.y, b.y);
    lemma_unit_product_range(a.z, b.z);
}

/// The rescaled product of two unit-range channels is a unit-range channel.
pub proof fn lemma_unit_product_range(a: int, b: int)
    requires
        0 <= a <= SCALE,
        0 <= b <= SCALE,
    ensures
        0 <= mul_fx(a, b) <= a,
        mul_fx(a, b) <= SCALE,
{
    assert(0 <= a * b && a * b <= a * SCALE) by (nonlinear_arith)
        requires 0 <= a <= SCALE as int && 0 <= b <= SCALE as int;
    lemma_div_trunc_sign(a * b, SCALE as int);
    crate::fixed::lemma_div_trunc_ordered(a * b, a * SCALE, SCALE as int);
    crate::fixed::lemma_div_trunc_exact(a, SCALE as int);
}

/// A vector with a positive squared norm is not the zero vector.
pub proof fn lemma_positive_norm_not_zero(u: V3)
    requires
        1 <= norm_sq_v(u),
    ensures
        !near_zero_v(u),
{
    if near_zero_v(u) {
        assert(dot_raw_v(u, u) == 0) by (nonlinear_arith)
            requires u.x == 0 && u.y == 0 && u.z == 0;
        lemma_div_trunc_sign(0, SCALE as int);
    }
}

/// The unscaled sum of products of bounded components is bounded.
pub proof fn lemma_dot_raw_le(u: V3, v: V3, bu: int, bv: int)
    by (nonlinear_arith)
    requires
        0 <= bu,
        0 <= bv,
        bounded_v(u, bu),
        bounded_v(v, bv),
    ensures
        abs(dot_raw_v(u, v)) <= 3 * bu * bv,
{
}

/// Bound for the fixed-point dot product of bounded vectors.
pub proof fn lemma_dot_v_le(u: V3, v: V3, bu: int, bv: int, m: int)
    requires
        0 <= bu,
        0 <= bv,
        0 <= m,
        bounded_v(u, bu),
        bounded_v(v, bv),
        3 * bu * bv <= m * SCALE,
    ensures
        abs(dot_v(u, v)) <= m,
{
    lemma_dot_raw_le(u, v, bu, bv);
    lemma_div_trunc_le(dot_raw_v(u, v), SCALE as int, m);
}

/// Bound for scaling a bounded vector by a bounded factor.
pub proof fn lemma_scale_v_le(k: int, u: V3, bk: int, bu: int, m: int)
    requires
        0 <= bk,
        0 <= bu,
        0 <= m,
        -bk <= k <= bk,
        bounded_v(u, bu),
        bk * bu <= m * SCALE,
    ensures
        bounded_v(scale_v(k, u), m),
{
    assert(abs(k * u.x) <= bk * bu && abs(k * u.y) <= bk * bu && abs(k * u.z) <= bk * bu)
        by (nonlinear_arith)
        requires -bk <= k <= bk && bounded_v(u, bu) && 0 <= bk && 0 <= bu;
    lemma_div_trunc_le(k * u.x, SCALE as int, m);
    lemma_div_trunc_le(k * u.y, SCALE as int, m);
    lemma_div_trunc_le(k * u.z, SCALE as int, m);
}

/// Bound for the component-wise product of bounded vectors.
pub proof fn lemma_comp_mul_v_le(u: V3, v: V3, bu: int, bv: int, m: int)
    requires
        0 <= bu,
        0 <= bv,
        0 <= m,
        bounded_v(u, bu),
        bounded_v(v, bv),
        bu * bv <= m * SCALE,
    ensures
        bounded_v(comp_mul_v(u, v), m),
{
    assert(abs(u.x * v.x) <= bu * bv && abs(u.y * v.y) <= bu * bv && abs(u.z * v.z) <= bu * bv)
        by (nonlinear_arith)
        requires bounded_v(u, bu) && bounded_v(v, bv) && 0 <= bu && 0 <= bv;
    lemma_div_trunc_le(u.x * v.x, SCALE as int, m);
    lemma_div_trunc_le(u.y * v.y, SCALE as int, m);
    lemma_div_trunc_le(u.z * v.z, SCALE as int, m);
}

/// Bound for the cross product of bounded vectors: each term of a component
/// is a rescaled product, so the component is at most twice `h`.
pub proof fn lemma_cross_v_le(u: V3, v: V3, bu: int, bv: int, h: int)
    requires
        0 <= bu,
        0 <= bv,
        0 <= h,
        bounded_v(u, bu),
        bounded_v(v, bv),
        bu * bv <= h * SCALE,
    ensures
        bounded_v(cross_v(u, v), 2 * h),
{
    assert(abs(u.y * v.z) <= bu * bv && abs(u.z * v.y) <= bu * bv && abs(u.z * v.x) <= bu * bv
        && abs(u.x * v.z) <= bu * bv && abs(u.x * v.y) <= bu * bv && abs(u.y * v.x) <= bu * bv)
        by (nonlinear_arith)
        requires bounded_v(u, bu) && bounded_v(v, bv) && 0 <= bu && 0 <= bv;
    lemma_div_trunc_le(u.y * v.z, SCALE as int, h);
    lemma_div_trunc_le(u.z * v.y, SCALE as int, h);
    lemma_div_trunc_le(u.z * v.x, SCALE as int, h);
    lemma_div_trunc_le(u.x * v.z, SCALE as int, h);
    lemma_div_trunc_le(u.x * v.y, SCALE as int, h);
    lemma_div_trunc_le(u.y * v.x, SCALE as int, h);
}

/// In-range conditions for the cross product of bounded vectors, with the
/// bound on the result.
pub proof fn lemma_cross_fits(u: V3, v: V3, bu: int, bv: int, h: int)
    requires
        0 <= bu,
        0 <= bv,
        0 <= h,
        2 * h <= i64::MAX,
        bounded_v(u, bu),
        bounded_v(v, bv),
        bu * bv <= h * SCALE,
    ensures
        fits(mul_fx(u.y, v.z)),
        fits(mul_fx(u.z, v.y)),
        fits(mul_fx(u.z, v.x)),
        fits(mul_fx(u.x, v.z)),
        fits(mul_fx(u.x, v.y)),
        fits(mul_fx(u.y, v.x)),
        fits(cross_v(u, v).x),
        fits(cross_v(u, v).y),
        fits(cross_v(u, v).z),
        bounded_v(cross_v(u, v), 2 * h),
{
    lemma_cross_v_le(u, v, bu, bv, h);
    assert(abs(u.y * v.z) <= bu * bv && abs(u.z * v.y) <= bu * bv && abs(u.z * v.x) <= bu * bv
        && abs(u.x * v.z) <= bu * bv && abs(u.x * v.y) <= bu * bv && abs(u.y * v.x) <= bu * bv)
        by (nonlinear_arith)
        requires bounded_v(u, bu) && bounded_v(v, bv) && 0 <= bu && 0 <= bv;
    lemma_div_trunc_le(u.y * v.z, SCALE as int, h);
    lemma_div_trunc_le(u.z * v.y, SCALE as int, h);
    lemma_div_trunc_le(u.z * v.x, SCALE as int, h);
    lemma_div_trunc_le(u.x * v.z, SCALE as int, h);
    lemma_div_trunc_le(u.x * v.y, SCALE as int, h);
    lemma_div_trunc_le(u.y * v.x, SCALE as int, h);
}

/// In-range conditions for dividing a bounded vector by a scalar of bounded
/// reciprocal.
pub proof fn lemma_div_scalar_fits(u: V3, k: int, bu: int, m: int)
    requires
        k != 0,
        0 <= bu,
        0 <= m <= i64::MAX,
        bounded_v(u, bu),
        bu * SCALE <= m * abs(k),
    ensures
        fits(div_fx(u.x, k)),
        fits(div_fx(u.y, k)),
        fits(div_fx(u.z, k)),
        bounded_v(div_scalar_v(u, k), m),
{
    assert(abs(u.x) * (SCALE as int) <= m * abs(k) && abs(u.y) * (SCALE as int) <= m * abs(k)
        && abs(u.z) * (SCALE as int) <= m * abs(k)) by (nonlinear_arith)
        requires
            bounded_v(u, bu) && 0 <= bu && bu * SCALE <= m * abs(k) && SCALE == 1_000_000i64;
    lemma_div_fx_le(u.x, k, m);
    lemma_div_fx_le(u.y, k, m);
    lemma_div_fx_le(u.z, k, m);
}

/// The squared norm is never negative, and the raw sum of squares brackets it.
pub proof fn lemma_norm_sq_nonneg(u: V3)
    ensures
        0 <= norm_sq_v(u),
        norm_sq_v(u) * SCALE <= dot_raw_v(u, u) < (norm_sq_v(u) + 1) * SCALE,
        u.x * u.x <= dot_raw_v(u, u),
        u.y * u.y <= dot_raw_v(u, u),
        u.z * u.z <= dot_raw_v(u, u),
{
    assert(0 <= u.x * u.x && 0 <= u.y * u.y && 0 <= u.z * u.z) by (nonlinear_arith);
    lemma_div_trunc_sign(dot_raw_v(u, u), SCALE as int);
    lemma_div_trunc_range(dot_raw_v(u, u), SCALE as int);
}

/// A vector as a point, free direction or color.
#[derive(Clone, Copy, Debug, PartialEq, Eq, Structural)]
pub struct Vec3 {
    pub x: i64,
    pub y: i64,
    pub z: i64,
}

pub type Point3 = Vec3;

pub type Color = Vec3;

impl View for Vec3 {
    type V = V3;

    open spec fn view(&self) -> V3 {
        V3 { x: self.x as int, y: self.y as int, z: self.z as int }
    }
}

impl Vec3 {
    pub fn new(x: i64, y: i64, z: i64) -> (r: Vec3)
        ensures
            r@ == (V3 { x: x as int, y: y as int, z: z as int }),
    {
        Vec3 { x, y, z }
    }

    pub fn add(&self, other: &Vec3) -> (r: Vec3)
        requires
            fits(self@.x + other@.x),
            fits(self@.y + other@.y),
            fits(self@.z + other@.z),
        ensures
            r@ == add_v(self@, other@),
    {
        Vec3 { x: self.x + other.x, y: self.y + other.y, z: self.z + other.z }
    }

    pub fn sub(&self, other: &Vec3) -> (r: Vec3)
        requires
            fits(self@.x - other@.x),
            fits(self@.y - other@.y),
            fits(self@.z - other@.z),
        ensures
            r@ == sub_v(self@, other@),
    {
        Vec3 { x: self.x - other.x, y: self.y - other.y, z: self.z - other.z }
    }

    pub fn neg(&self) -> (r: Vec3)
        requires
            fits(-self@.x),
            fits(-self@.y),
            fits(-self@.z),
        ensures
            r@ == neg_v(self@),
    {
        Vec3 { x: -self.x, y: -self.y, z: -self.z }
    }

    /// Scalar multiplication by the fixed-point factor `k`.
    pub fn scale(&self, k: i64) -> (r: Vec3)
        requires
            fits(mul_fx(k as int, self@.x)),
            fits(mul_fx(k as int, self@.y)),
            fits(mul_fx(k as int, self@.z)),
        ensures
            r@ == scale_v(k as int, self@),
    {
        Vec3 { x: fx_mul(k, self.x), y: fx_mul(k, self.y), z: fx_mul(k, self.z) }
    }

    /// Component-wise product, used to filter a color by an attenuation.
    pub fn comp_mul(&self, other: &Vec3) -> (r: Vec3)
        requires
            fits(mul_fx(self@.x, other@.x)),
            fits(mul_fx(self@.y, other@.y)),
            fits(mul_fx(self@.z, other@.z)),
        ensures
            r@ == comp_mul_v(self@, other@),
    {
        Vec3 {
            x: fx_mul(self.x, other.x),
            y: fx_mul(self.y, other.y),
            z: fx_mul(self.z, other.z),
        }
    }

    /// Division by the fixed-point scalar `k`.
    pub fn div_scalar(&self, k: i64) -> (r: Vec3)
        requires
            k != 0,
            fits(div_fx(self@.x, k as int)),
            fits(div_fx(self@.y, k as int)),
            fits(div_fx(self@.z, k as int)),
        ensures
            r@ == div_scalar_v(self@, k as int),
    {
        Vec3 { x: fx_div(self.x, k), y: fx_div(self.y, k), z: fx_div(self.z, k) }
    }

    pub fn dot(&self, other: &Vec3) -> (r: i64)
        requires
            bounded_v(self@, WIDE_LIMIT as int),
            bounded_v(other@, WIDE_LIMIT as int),
            fits(dot_v(self@, other@)),
        ensures
            r as int == dot_v(self@, other@),
    {
        let p: i128 = self.dot_raw(other);
        let q: i128 = div_trunc_i128(p, SCALE as i128);
        q as i64
    }

    /// The exact sum of component products, on 128 bits: its sign is the sign
    /// of the dot product free of rounding.
    fn dot_raw(&self, other: &Vec3) -> (r: i128)
        requires
            bounded_v(self@, WIDE_LIMIT as int),
            bounded_v(other@, WIDE_LIMIT as int),
        ensures
            r as int == dot_raw_v(self@, other@),
    {
        proof {
            lemma_dot_raw_le(self@, other@, WIDE_LIMIT as int, WIDE_LIMIT as int);
            assert(abs(self@.x * other@.x) <= (WIDE_LIMIT as int) * (WIDE_LIMIT as int)
                && abs(self@.y * other@.y) <= (WIDE_LIMIT as int) * (WIDE_LIMIT as int)
                && abs(self@.z * other@.z) <= (WIDE_LIMIT as int) * (WIDE_LIMIT as int))
                by (nonlinear_arith)
                requires
                    bounded_v(self@, WIDE_LIMIT as int) && bounded_v(other@, WIDE_LIMIT as int)
                        && WIDE_LIMIT == 1_000_000_000_000_000_000i64;
        }
        (self.x as i128) * (other.x as i128) + (self.y as i128) * (other.y as i128) + (
        self.z as i128) * (other.z as i128)
    }

    /// Whether the dot product is strictly negative, decided on the exact
    /// unscaled sum.
    pub fn dot_is_neg(&self, other: &Vec3) -> (r: bool)
        requires
            bounded_v(self@, WIDE_LIMIT as int),
            bounded_v(other@, WIDE_LIMIT as int),
        ensures
            r == (dot_raw_v(self@, other@) < 0),
    {
        self.dot_raw(other) < 0
    }

    /// Whether the dot product is strictly positive, decided on the exact
    /// unscaled sum.
    pub fn dot_is_pos(&self, other: &Vec3) -> (r: bool)
        requires
            bounded_v(self@, WIDE_LIMIT as int),
            bounded_v(other@, WIDE_LIMIT as int),
        ensures
            r == (dot_raw_v(self@, other@) > 0),
    {
        self.dot_raw(other) > 0
    }

    /// The squared norm.
    pub fn norm(&self) -> (r: i64)
        requires
            bounded_v(self@, WIDE_LIMIT as int),
            fits(norm_sq_v(self@)),
        ensures
            r as int == norm_sq_v(self@),
            r >= 0,
    {
        proof {
            lemma_norm_sq_nonneg(self@);
        }
        self.dot(self)
    }

    pub fn cross(&self, other: &Vec3) -> (r: Vec3)
        requires
            fits(mul_fx(self@.y, other@.z)),
            fits(mul_fx(self@.z, other@.y)),
            fits(mul_fx(self@.z, other@.x)),
            fits(mul_fx(self@.x, other@.z)),
            fits(mul_fx(self@.x, other@.y)),
            fits(mul_fx(self@.y, other@.x)),
            fits(cross_v(self@, other@).x),
            fits(cross_v(self@, other@).y),
            fits(cross_v(self@, other@).z),
        ensures
            r@ == cross_v(self@, other@),
    {
        Vec3 {
            x: fx_mul(self.y, other.z) - fx_mul(self.z, other.y),
            y: fx_mul(self.z, other.x) - fx_mul(self.x, other.z),
            z: fx_mul(self.x, other.y) - fx_mul(self.y, other.x),
        }
    }

    /// The Euclidean norm.
    pub fn length(&self) -> (r: i64)
        requires
            bounded_v(self@, WIDE_LIMIT as int),
            fits(norm_sq_v(self@)),
        ensures
            r as int == len_v(self@),
            r >= 0,
            crate::fixed::is_sqrt_of(norm_sq_v(self@) * SCALE, r as int),
    {
        let ns: i64 = self.norm();
        fx_sqrt(ns)
    }

    /// The vector rescaled to unit length. The squared norm must be at least
    /// one quantum, which keeps the division well defined; the result's
    /// components stay within three units.
    pub fn normalize(&self) -> (r: Vec3)
        requires
            bounded_v(self@, WIDE_LIMIT as int),
            fits(norm_sq_v(self@)),
            1 <= norm_sq_v(self@),
        ensures
            r@ == unit_v(self@),
            bounded_v(r@, 3 * SCALE),
    {
        let len: i64 = self.length();
        proof {
            lemma_normalize_bounds(self@, len as int);
            lemma_div_fx_le(self@.x, len_v(self@), 3 * SCALE);
            lemma_div_fx_le(self@.y, len_v(self@), 3 * SCALE);
            lemma_div_fx_le(self@.z, len_v(self@), 3 * SCALE);
        }
        Vec3 { x: fx_div(self.x, len), y: fx_div(self.y, len), z: fx_div(self.z, len) }
    }

    /// Every component is smaller in magnitude than one quantum.
    pub fn near_zero(&self) -> (r: bool)
        ensures
            r == near_zero_v(self@),
    {
        self.x == 0 && self.y == 0 && self.z == 0
    }

    /// Each component drawn uniformly from `[lo, hi)`.
    pub fn vec3_random_range(rng: &mut RandomSource, lo: i64, hi: i64) -> (r: Vec3)
        requires
            lo < hi,
        ensures
            lo <= r@.x < hi,
            lo <= r@.y < hi,
            lo <= r@.z < hi,
    {
        let x: i64 = rng.next_in(lo, hi);
        let y: i64 = rng.next_in(lo, hi);
        let z: i64 = rng.next_in(lo, hi);
        Vec3::new(x, y, z)
    }

    /// A point drawn inside the unit ball by bounded rejection sampling:
    /// draws in the cube `[-1, 1)^3` are kept when their squared norm is
    /// strictly inside the unit ball and at least one quantum (an exactly
    /// degenerate draw would poison later normalizations). After a fixed
    /// number of misses — all but impossible — a fixed interior point stands
    /// in, so the function provably terminates.
    pub fn random_in_unit_sphere(rng: &mut RandomSource) -> (r: Vec3)
        ensures
            1 <= norm_sq_v(r@) < SCALE,
            bounded_v(r@, SCALE as int),
    {
        let mut attempts: u8 = 64;
        while attempts > 0
            decreases attempts,
        {
            let p: Vec3 = Vec3::vec3_random_range(rng, -SCALE, SCALE);
            proof {
                lemma_dot_v_le(p@, p@, SCALE as int, SCALE as int, 3 * SCALE);
            }
            let ns: i64 = p.norm();
            if 1 <= ns && ns < SCALE {
                return p;
            }
            attempts = attempts - 1;
        }
        let f: Vec3 = Vec3::new(SCALE / 2, 0, 0);
        proof {
            assert(f@.x * f@.x + f@.y * f@.y + f@.z * f@.z == 250000 * (SCALE as int))
                by (nonlinear_arith)
                requires f@.x == 500000 && f@.y == 0 && f@.z == 0 && SCALE == 1_000_000i64;
            crate::fixed::lemma_div_trunc_exact(250000, SCALE as int);
        }
        f
    }

    /// A unit-length direction: a unit-ball sample, normalized.
    pub fn random_unit_vector(rng: &mut RandomSource) -> (r: Vec3)
        ensures
            bounded_v(r@, 3 * SCALE),
            exists|p: V3| #![auto] 1 <= norm_sq_v(p) < SCALE && r@ == unit_v(p),
    {
        let p: Vec3 = Self::random_in_unit_sphere(rng);
        let u: Vec3 = p.normalize();
        proof {
            assert(1 <= norm_sq_v(p@) < SCALE && u@ == unit_v(p@));
        }
        u
    }

    /// A unit-ball sample on the same side as this vector: the draw is kept
    /// when the dot product is positive and flipped otherwise.
    pub fn random_in_hemisphere(&self, rng: &mut RandomSource) -> (r: Vec3)
        requires
            bounded_v(self@, WIDE_LIMIT as int),
        ensures
            1 <= norm_sq_v(r@) < SCALE,
            bounded_v(r@, SCALE as int),
            dot_raw_v(self@, r@) >= 0,
    {
        let p: Vec3 = Self::random_in_unit_sphere(rng);
        if self.dot_is_pos(&p) {
            p
        } else {
            let q: Vec3 = p.neg();
            proof {
                assert(dot_raw_v(self@, neg_v(p@)) == -dot_raw_v(self@, p@)) by (nonlinear_arith);
                assert(dot_raw_v(neg_v(p@), neg_v(p@)) == dot_raw_v(p@, p@)) by (nonlinear_arith);
            }
            q
        }
    }

    /// A point drawn inside the unit disk of the `z = 0` plane, by the same
    /// bounded rejection sampling as the unit ball; used for lens sampling.
    pub fn random_in_unit_disk(rng: &mut RandomSource) -> (r: Vec3)
        ensures
            0 <= norm_sq_v(r@) < SCALE,
            bounded_v(r@, SCALE as int),
            r@.z == 0,
    {
        let mut attempts: u8 = 64;
        while attempts > 0
            decreases attempts,
        {
            let x: i64 = rng.next_in(-SCALE, SCALE);
            let y: i64 = rng.next_in(-SCALE, SCALE);
            let p: Vec3 = Vec3::new(x, y, 0);
            proof {
                lemma_dot_v_le(p@, p@, SCALE as int, SCALE as int, 3 * SCALE);
                lemma_norm_sq_nonneg(p@);
            }
            let ns: i64 = p.norm();
            if ns < SCALE {
                return p;
            }
            attempts = attempts - 1;
        }
        let o: Vec3 = Vec3::new(0, 0, 0);
        proof {
            lemma_div_trunc_sign(dot_raw_v(o@, o@), SCALE as int);
        }
        o
    }
}

/// A component with square below `raw` is within a factor of three of a norm
/// whose square brackets `raw`.
proof fn lemma_component_vs_len(c: int, raw: int, len: int)
    requires
        c * c <= raw,
        raw < (len + 1) * (len + 1) + SCALE,
        1000 <= len,
    ensures
        abs(c) * SCALE <= (3 * SCALE) * len,
{
    assert(abs(c) <= 3 * len) by (nonlinear_arith)
        requires c * c < (len + 1) * (len + 1) + SCALE && 1000 <= len && SCALE == 1_000_000i64;
    assert(abs(c) * SCALE <= (3 * len) * SCALE && (3 * len) * SCALE == (3 * SCALE) * len)
        by (nonlinear_arith)
        requires abs(c) <= 3 * len && 0 <= len && SCALE == 1_000_000i64;
}

/// For a vector whose squared norm is at least one quantum, any integer root
/// `len` of the rescaled squared norm is at least a thousand quanta and bounds
/// every component to within a factor of three.
pub proof fn lemma_normalize_bounds(u: V3, len: int)
    requires
        1 <= norm_sq_v(u),
        crate::fixed::is_sqrt_of(norm_sq_v(u) * SCALE, len),
    ensures
        1000 <= len,
        abs(u.x) * SCALE <= (3 * SCALE) * len,
        abs(u.y) * SCALE <= (3 * SCALE) * len,
        abs(u.z) * SCALE <= (3 * SCALE) * len,
{
    lemma_norm_sq_nonneg(u);
    let raw = dot_raw_v(u, u);
    let ns = norm_sq_v(u);
    assert(1000 <= len) by (nonlinear_arith)
        requires
            0 <= len && 1 <= ns && ns * SCALE < (len + 1) * (len + 1) && SCALE == 1_000_000i64;
    assert(raw < (len + 1) * (len + 1) + SCALE) by (nonlinear_arith)
        requires
            raw < (ns + 1) * SCALE && ns * SCALE < (len + 1) * (len + 1) && SCALE == 1_000_000i64;
    lemma_component_vs_len(u.x, raw, len);
    lemma_component_vs_len(u.y, raw, len);
    lemma_component_vs_len(u.z, raw, len);
}

} // verus!
