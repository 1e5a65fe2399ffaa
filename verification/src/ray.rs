//! Rays, and the free geometric helpers: mirror reflection and Snell
//! refraction.

use crate::fixed::{
    fits, fx_sqrt, is_sqrt_of, lemma_div_trunc_exact, lemma_sqrt_int_is, mul_fx, sqrt_fx, SCALE,
};
use crate::vec3::{
    add_v, bounded_v, dot_raw_v, dot_v, lemma_dot_v_le, lemma_scale_v_le, neg_v, norm_sq_v,
    scale_v, sub_v, Point3, Vec3, V3,
};
use vstd::math::abs;
use vstd::prelude::*;

verus! {

/// The mathematical value of a ray.
pub ghost struct RayV {
    pub origin: V3,
    pub direction: V3,
}

/// Origin and direction; the direction need not be unit length.
#[derive(Clone, Copy, Debug)]
pub struct Ray {
    pub origin: Point3,
    pub direction: Vec3,
}

impl View for Ray {
    type V = RayV;

    open spec fn view(&self) -> RayV {
        RayV { origin: self.origin@, direction: self.direction@ }
    }
}

/// The point reached after parameter `t` along the ray.
pub open spec fn ray_at_v(r: RayV, t: int) -> V3 {
    add_v(r.origin, scale_v(t, r.direction))
}

impl Ray {
    pub fn new(origin: Point3, direction: Vec3) -> (r: Ray)
        ensures
            r@.origin == origin@,
            r@.direction == direction@,
    {
        Ray { origin, direction }
    }

    /// `origin + t * direction`.
    pub fn at(&self, t: i64) -> (p: Point3)
        requires
            fits(mul_fx(t as int, self@.direction.x)),
            fits(mul_fx(t as int, self@.direction.y)),
            fits(mul_fx(t as int, self@.direction.z)),
            fits(self@.origin.x + mul_fx(t as int, self@.direction.x)),
            fits(self@.origin.y + mul_fx(t as int, self@.direction.y)),
            fits(self@.origin.z + mul_fx(t as int, self@.direction.z)),
        ensures
            p@ == ray_at_v(self@, t as int),
    {
        let step: Vec3 = self.direction.scale(t);
        self.origin.add(&step)
    }

    pub fn origin(&self) -> (r: &Point3)
        ensures
            r@ == self@.origin,
    {
        &self.origin
    }

    pub fn direction(&self) -> (r: &Vec3)
        ensures
            r@ == self@.direction,
    {
        &self.direction
    }
}

/// Mirror reflection about a unit normal: `v - 2 (v . n) n`, every product
/// rounded as [`mul_fx`] states.
pub open spec fn reflect_v(v: V3, n: V3) -> V3 {
    sub_v(v, scale_v(2 * dot_v(v, n), n))
}

/// Mirror reflection. The bounds admit any vector up to a thousand units long
/// against a near-unit normal and keep every intermediate in range.
pub fn reflect(v: &Vec3, normal: &Vec3) -> (r: Vec3)
    requires
        bounded_v(v@, 1000 * SCALE),
        bounded_v(normal@, 4 * SCALE),
    ensures
        r@ == reflect_v(v@, normal@),
        bounded_v(r@, 100_000 * SCALE),
{
    proof {
        assert(3 * (1000 * SCALE) * (4 * SCALE) <= (12_000 * SCALE) * (SCALE as int)
            && (24_000 * SCALE) * (4 * SCALE) <= (96_000 * SCALE) * (SCALE as int))
            by (nonlinear_arith)
            requires SCALE == 1_000_000i64;
        lemma_dot_v_le(v@, normal@, 1000 * SCALE, 4 * SCALE, 12_000 * SCALE);
    }
    let d: i64 = v.dot(normal);
    let s: i64 = 2 * d;
    proof {
        lemma_scale_v_le(s as int, normal@, 24_000 * SCALE, 4 * SCALE, 96_000 * SCALE);
    }
    let sn: Vec3 = normal.scale(s);
    v.sub(&sn)
}

/// Snell refraction of the unit direction `uv` at a surface with unit normal
/// `n` and refraction ratio `eta`:
/// the perpendicular part is `eta (uv + cos(theta) n)` with
/// `cos(theta) = min((-uv) . n, 1)`, the parallel part is
/// `-sqrt(|1 - |perp|^2|) n`, and the result is their sum, every step rounded
/// as the fixed-point operations state.
pub open spec fn refract_v(uv: V3, n: V3, eta: int) -> V3 {
    let cos = if dot_v(neg_v(uv), n) < SCALE {
        dot_v(neg_v(uv), n)
    } else {
        SCALE as int
    };
    let perp = scale_v(eta, add_v(uv, scale_v(cos, n)));
    let par_len = sqrt_fx(abs(SCALE - norm_sq_v(perp)) as int);
    add_v(perp, scale_v(-par_len, n))
}

/// Snell refraction. `uv` is expected unit length and `normal` a near-unit
/// oriented normal; the bounds keep every intermediate in range for any
/// refraction ratio up to ten.
pub fn refract(uv: &Vec3, normal: &Vec3, eta_i_over_eta_t: i64) -> (r: Vec3)
    requires
        bounded_v(uv@, 3 * SCALE),
        bounded_v(normal@, 4 * SCALE),
        0 < eta_i_over_eta_t <= 10 * SCALE,
    ensures
        r@ == refract_v(uv@, normal@, eta_i_over_eta_t as int),
        bounded_v(r@, 20_000_000_000),
{
    let m_uv: Vec3 = uv.neg();
    proof {
        assert(3 * (3 * SCALE) * (4 * SCALE) <= (36 * SCALE) * (SCALE as int) && (36 * SCALE) * (4
            * SCALE) <= (144 * SCALE) * (SCALE as int) && (10 * SCALE) * (147 * SCALE) <= (1470
            * SCALE) * (SCALE as int) && 3 * (1470 * SCALE) * (1470 * SCALE) <= (6_482_700 * SCALE)
            * (SCALE as int) && 2_600_000_000 * (4 * SCALE) <= 10_400_000_000 * (SCALE as int))
            by (nonlinear_arith)
            requires SCALE == 1_000_000i64;
        lemma_dot_v_le(m_uv@, normal@, 3 * SCALE, 4 * SCALE, 36 * SCALE);
    }
    let d: i64 = m_uv.dot(normal);
    let cos_theta: i64 = if d < SCALE {
        d
    } else {
        SCALE
    };
    proof {
        lemma_scale_v_le(cos_theta as int, normal@, 36 * SCALE, 4 * SCALE, 144 * SCALE);
    }
    let scaled_n: Vec3 = normal.scale(cos_theta);
    let inner: Vec3 = uv.add(&scaled_n);
    proof {
        lemma_scale_v_le(
            eta_i_over_eta_t as int,
            inner@,
            10 * SCALE,
            147 * SCALE,
            1470 * SCALE,
        );
        lemma_dot_v_le(
            scale_v(eta_i_over_eta_t as int, inner@),
            scale_v(eta_i_over_eta_t as int, inner@),
            1470 * SCALE,
            1470 * SCALE,
            6_482_700 * SCALE,
        );
    }
    let r_out_perp: Vec3 = inner.scale(eta_i_over_eta_t);
    let ns_perp: i64 = r_out_perp.norm();
    let w: i64 = SCALE - ns_perp;
    let w_abs: i64 = if w < 0 {
        -w
    } else {
        w
    };
    let par_len: i64 = fx_sqrt(w_abs);
    proof {
        assert(par_len as int <= 2_600_000_000) by (nonlinear_arith)
            requires
                is_sqrt_of((w_abs as int) * SCALE, par_len as int)
                    && w_abs as int <= 6_482_701 * (SCALE as int) && SCALE == 1_000_000i64;
        lemma_scale_v_le(
            -(par_len as int),
            normal@,
            2_600_000_000,
            4 * SCALE,
            10_400_000_000,
        );
    }
    let r_out_par: Vec3 = normal.scale(-par_len);
    r_out_perp.add(&r_out_par)
}

/// Exact mirror reflection in unrounded integer algebra, scaled by
/// `s = n . n`: `s v - 2 (v . n) n`.
pub open spec fn reflect_exact_v(v: V3, n: V3) -> V3 {
    V3 {
        x: dot_raw_v(n, n) * v.x - 2 * dot_raw_v(v, n) * n.x,
        y: dot_raw_v(n, n) * v.y - 2 * dot_raw_v(v, n) * n.y,
        z: dot_raw_v(n, n) * v.z - 2 * dot_raw_v(v, n) * n.z,
    }
}

/// Square of one component of the exact reflection, expanded.
proof fn lemma_reflect_comp_sq(s: int, d: int, vc: int, nc: int, e: int, a: int, b: int, c: int)
    requires
        e == s * vc - 2 * d * nc,
        a == vc * nc,
        b == nc * nc,
        c == vc * vc,
    ensures
        e * e == s * s * c - 4 * (s * d) * a + 4 * (d * d) * b,
{
    let p = s * vc;
    let q = 2 * (d * nc);
    assert(e == p - q) by (nonlinear_arith)
        requires e == s * vc - 2 * d * nc && p == s * vc && q == 2 * (d * nc);
    assert(e * e == p * p - 2 * (p * q) + q * q) by (nonlinear_arith)
        requires e == p - q;
    assert(p * p == s * s * c) by (nonlinear_arith)
        requires p == s * vc && c == vc * vc;
    assert(p * q == 2 * ((s * d) * a)) by (nonlinear_arith)
        requires p == s * vc && q == 2 * (d * nc) && a == vc * nc;
    assert(q * q == 4 * ((d * d) * b)) by (nonlinear_arith)
        requires q == 2 * (d * nc) && b == nc * nc;
    assert(2 * (2 * ((s * d) * a)) == 4 * (s * d) * a) by (nonlinear_arith);
    assert(4 * ((d * d) * b) == 4 * (d * d) * b) by (nonlinear_arith);
}

/// Law of reflection, in exact integer algebra. For any `v` and `n`, writing
/// `s = n . n` for the squared length of the normal, the exact reflection
/// `r = s v - 2 (v . n) n` satisfies `r . n == -s (v . n)` — the angle of
/// incidence equals the angle of reflection — and `r . r == s^2 (v . v)` —
/// the length of `v` is preserved. For a unit normal `s` is the square of the
/// fixed-point scale, the factor forced by staying in integers.
pub proof fn lemma_reflect_law(v: V3, n: V3)
    ensures
        dot_raw_v(reflect_exact_v(v, n), n) == -dot_raw_v(n, n) * dot_raw_v(v, n),
        dot_raw_v(reflect_exact_v(v, n), reflect_exact_v(v, n)) == dot_raw_v(n, n) * dot_raw_v(
            n,
            n,
        ) * dot_raw_v(v, v),
{
    let s = dot_raw_v(n, n);
    let d = dot_raw_v(v, n);
    let vv = dot_raw_v(v, v);
    let r = reflect_exact_v(v, n);
    let ax = v.x * n.x;
    let ay = v.y * n.y;
    let az = v.z * n.z;
    let bx = n.x * n.x;
    let by = n.y * n.y;
    let bz = n.z * n.z;
    let cx = v.x * v.x;
    let cy = v.y * v.y;
    let cz = v.z * v.z;
    assert(r.x * n.x == s * ax - 2 * d * bx) by (nonlinear_arith)
        requires r.x == s * v.x - 2 * d * n.x && ax == v.x * n.x && bx == n.x * n.x;
    assert(r.y * n.y == s * ay - 2 * d * by) by (nonlinear_arith)
        requires r.y == s * v.y - 2 * d * n.y && ay == v.y * n.y && by == n.y * n.y;
    assert(r.z * n.z == s * az - 2 * d * bz) by (nonlinear_arith)
        requires r.z == s * v.z - 2 * d * n.z && az == v.z * n.z && bz == n.z * n.z;
    assert(s * ax + s * ay + s * az == s * d) by (nonlinear_arith)
        requires d == ax + ay + az;
    assert(2 * d * bx + 2 * d * by + 2 * d * bz == 2 * (d * s)) by (nonlinear_arith)
        requires s == bx + by + bz;
    assert(s * d - 2 * (d * s) == -s * d) by (nonlinear_arith);
    lemma_reflect_comp_sq(s, d, v.x, n.x, r.x, ax, bx, cx);
    lemma_reflect_comp_sq(s, d, v.y, n.y, r.y, ay, by, cy);
    lemma_reflect_comp_sq(s, d, v.z, n.z, r.z, az, bz, cz);
    assert(s * s * cx + s * s * cy + s * s * cz == s * s * vv) by (nonlinear_arith)
        requires vv == cx + cy + cz;
    assert(4 * (s * d) * ax + 4 * (s * d) * ay + 4 * (s * d) * az == 4 * (s * d) * d)
        by (nonlinear_arith)
        requires d == ax + ay + az;
    assert(4 * (d * d) * bx + 4 * (d * d) * by + 4 * (d * d) * bz == 4 * (d * d) * s)
        by (nonlinear_arith)
        requires s == bx + by + bz;
    assert(4 * (s * d) * d == 4 * (d * d) * s) by (nonlinear_arith);
}

/// At exactly normal incidence the fixed-point refraction is exact: for a
/// normal whose fixed-point squared norm is exactly one, the incoming
/// direction `-n` refracts to `-n` for every refraction ratio. Applied twice,
/// once with a ratio and once with its inverse, it recovers the original
/// direction exactly — the record of the refraction round trip that rounding
/// cannot disturb.
pub proof fn lemma_refract_normal_incidence(n: V3, eta: int)
    requires
        dot_v(n, n) == SCALE,
    ensures
        refract_v(neg_v(n), n, eta) == neg_v(n),
{
    let uv = neg_v(n);
    assert(neg_v(uv) == n);
    let cos = SCALE as int;
    assert(dot_v(neg_v(uv), n) == SCALE);
    assert(mul_fx(cos, n.x) == n.x && mul_fx(cos, n.y) == n.y && mul_fx(cos, n.z) == n.z) by {
        assert(n.x * (SCALE as int) == (SCALE as int) * n.x && n.y * (SCALE as int) == (
        SCALE as int) * n.y && n.z * (SCALE as int) == (SCALE as int) * n.z) by (nonlinear_arith);
        lemma_div_trunc_exact(n.x, SCALE as int);
        lemma_div_trunc_exact(n.y, SCALE as int);
        lemma_div_trunc_exact(n.z, SCALE as int);
    }
    let inner = add_v(uv, scale_v(cos, n));
    assert(inner == (V3 { x: 0, y: 0, z: 0 }));
    assert(mul_fx(eta, 0) == 0 && dot_v(V3 { x: 0, y: 0, z: 0 }, V3 { x: 0, y: 0, z: 0 }) == 0)
        by {
        assert(eta * 0 == 0 && 0 * (SCALE as int) == 0 && (0int) * 0 == 0) by (nonlinear_arith);
        lemma_div_trunc_exact(0, SCALE as int);
    }
    let perp = scale_v(eta, inner);
    assert(perp == (V3 { x: 0, y: 0, z: 0 }));
    assert(norm_sq_v(perp) == 0);
    assert(abs(SCALE - 0) == SCALE as int);
    assert(sqrt_fx(SCALE as int) == SCALE) by {
        assert(is_sqrt_of((SCALE as int) * SCALE, SCALE as int)) by (nonlinear_arith)
            requires SCALE == 1_000_000i64;
        lemma_sqrt_int_is((SCALE as int) * SCALE, SCALE as int);
    }
    assert(mul_fx(-(SCALE as int), n.x) == -n.x && mul_fx(-(SCALE as int), n.y) == -n.y && mul_fx(
        -(SCALE as int),
        n.z,
    ) == -n.z) by {
        assert(-(SCALE as int) * n.x == (-n.x) * (SCALE as int) && -(SCALE as int) * n.y == (-n.y)
            * (SCALE as int) && -(SCALE as int) * n.z == (-n.z) * (SCALE as int))
            by (nonlinear_arith);
        lemma_div_trunc_exact(-n.x, SCALE as int);
        lemma_div_trunc_exact(-n.y, SCALE as int);
        lemma_div_trunc_exact(-n.z, SCALE as int);
    }
}

} // verus!
