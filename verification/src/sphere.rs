//! The sphere primitive and its ray intersection.

use crate::fixed::{
    div_fx, fits, fx_div, fx_mul, fx_sqrt, is_sqrt_of, lemma_div_fx_le, lemma_div_trunc_sign,
    lemma_mul_fx_le, mul_fx, sqrt_fx, SCALE,
};
use crate::hittable::{
    lemma_direction_ok_fits, ray_within_limits, HitRecord, HitRecordV, T_LIMIT,
};
use crate::material::{wf_material, Material};
use crate::ray::{ray_at_v, Ray, RayV};
use crate::vec3::{
    bounded_v, div_scalar_v, dot_raw_v, dot_v, lemma_dot_v_le, neg_v, sub_v, Point3, Vec3, V3,
};
use vstd::math::abs;
use vstd::prelude::*;

verus! {

/// Largest component magnitude of a sphere center: a thousand units.
pub const CENTER_LIMIT: i64 = 1_000_000_000;

/// Smallest accepted radius magnitude: a thousandth of a unit.
pub const RADIUS_MIN: i64 = 1_000;

/// Largest accepted radius magnitude: a thousand units.
pub const RADIUS_LIMIT: i64 = 1_000_000_000;

/// A sphere. A negative radius flips the outward normal, which builds hollow
/// glass shells.
#[derive(Clone, Copy, Debug)]
pub struct Sphere {
    pub center: Point3,
    pub radius: i64,
    pub material: Material,
}

/// A sphere the scene accepts: center and radius within the world limits,
/// radius magnitude large enough to divide by, material well formed.
pub open spec fn wf_sphere(s: Sphere) -> bool {
    &&& bounded_v(s.center@, CENTER_LIMIT as int)
    &&& RADIUS_MIN <= abs(s.radius as int) <= RADIUS_LIMIT
    &&& wf_material(s.material)
}

/// The quadratic's leading coefficient: the direction's squared norm.
pub open spec fn hit_a(r: RayV) -> int {
    dot_v(r.direction, r.direction)
}

/// Half the quadratic's linear coefficient.
pub open spec fn hit_half_b(center: V3, r: RayV) -> int {
    dot_v(sub_v(r.origin, center), r.direction)
}

/// The quadratic's constant coefficient.
pub open spec fn hit_c(center: V3, radius: int, r: RayV) -> int {
    dot_v(sub_v(r.origin, center), sub_v(r.origin, center)) - mul_fx(radius, radius)
}

/// The discriminant in half-b form.
pub open spec fn hit_disc(center: V3, radius: int, r: RayV) -> int {
    mul_fx(hit_half_b(center, r), hit_half_b(center, r)) - mul_fx(
        hit_a(r),
        hit_c(center, radius, r),
    )
}

/// The record built at parameter `root`: hit point, outward normal scaled by
/// the radius (a negative radius flips it), oriented against the ray.
pub open spec fn hit_record_at(
    center: V3,
    radius: int,
    material: Material,
    r: RayV,
    root: int,
) -> HitRecordV {
    let p = ray_at_v(r, root);
    let outward = div_scalar_v(sub_v(p, center), radius);
    let front = dot_raw_v(r.direction, outward) < 0;
    HitRecordV {
        p,
        normal: if front {
            outward
        } else {
            neg_v(outward)
        },
        material,
        t: root,
        front_face: front,
    }
}

/// The full intersection: no hit when the discriminant is negative; otherwise
/// the smaller root of the quadratic, or the larger when the smaller lies
/// outside `[t_min, t_max]`; no hit when both do.
pub open spec fn spec_sphere_hit(
    center: V3,
    radius: int,
    material: Material,
    r: RayV,
    t_min: int,
    t_max: int,
) -> Option<HitRecordV> {
    let a = hit_a(r);
    let half_b = hit_half_b(center, r);
    let disc = hit_disc(center, radius, r);
    if disc < 0 {
        Option::None
    } else {
        let sq = sqrt_fx(disc);
        let root1 = div_fx(-half_b - sq, a);
        let root = if root1 < t_min || t_max < root1 {
            div_fx(-half_b + sq, a)
        } else {
            root1
        };
        if root < t_min || t_max < root {
            Option::None
        } else {
            Option::Some(hit_record_at(center, radius, material, r, root))
        }
    }
}

impl Sphere {
    pub fn new(center: Point3, radius: i64, material: Material) -> (s: Sphere)
        requires
            bounded_v(center@, CENTER_LIMIT as int),
            RADIUS_MIN <= abs(radius as int) <= RADIUS_LIMIT,
            wf_material(material),
        ensures
            s.center == center,
            s.radius == radius,
            s.material == material,
            wf_sphere(s),
    {
        Sphere { center, radius, material }
    }

    /// Closest intersection of the ray with this sphere in `[t_min, t_max]`,
    /// solving the quadratic in half-b form; exactly [`spec_sphere_hit`].
    pub fn hit(&self, r: &Ray, t_min: i64, t_max: i64) -> (res: Option<HitRecord>)
        requires
            wf_sphere(*self),
            ray_within_limits(r@),
            0 <= t_min <= t_max <= T_LIMIT,
        ensures
            res matches Some(rec) ==> Some(rec@) == spec_sphere_hit(
                self.center@,
                self.radius as int,
                self.material,
                r@,
                t_min as int,
                t_max as int,
            ),
            res is None ==> spec_sphere_hit(
                self.center@,
                self.radius as int,
                self.material,
                r@,
                t_min as int,
                t_max as int,
            ) is None,
            res matches Some(rec) ==> {
                &&& t_min <= rec@.t <= t_max
                &&& rec@.material == self.material
                &&& rec@.p == ray_at_v(r@, rec@.t)
            },
    {
        let oc: Vec3 = r.origin().sub(&self.center);
        proof {
            lemma_direction_ok_fits(r@.direction);
            assert(3 * 2_000_000_000int * 100_000_000int <= (600_000 * (SCALE as int)) * (
            SCALE as int) && 3 * 2_000_000_000int * 2_000_000_000int <= (12_000_000 * (
            SCALE as int)) * (SCALE as int)) by (nonlinear_arith)
                requires SCALE == 1_000_000i64;
            lemma_dot_v_le(oc@, r@.direction, 2_000_000_000, 100_000_000, 600_000 * SCALE);
            lemma_dot_v_le(oc@, oc@, 2_000_000_000, 2_000_000_000, 12_000_000 * SCALE);
            assert(abs((self.radius as int) * (self.radius as int)) <= (1_000_000 * (SCALE as int))
                * (SCALE as int)) by (nonlinear_arith)
                requires abs(self.radius as int) <= 1_000_000_000int && SCALE == 1_000_000i64;
            lemma_mul_fx_le(self.radius as int, self.radius as int, 1_000_000 * SCALE);
        }
        let a: i64 = r.direction().norm();
        let half_b: i64 = oc.dot(r.direction());
        let c: i64 = oc.dot(&oc) - fx_mul(self.radius, self.radius);
        proof {
            assert(abs((half_b as int) * (half_b as int)) <= (360_000_000_000 * (SCALE as int)) * (
            SCALE as int)) by (nonlinear_arith)
                requires abs(half_b as int) <= 600_000 * (SCALE as int) && SCALE == 1_000_000i64;
            lemma_mul_fx_le(half_b as int, half_b as int, 360_000_000_000 * SCALE);
            assert(abs((a as int) * (c as int)) <= (390_000_000_000 * (SCALE as int)) * (
            SCALE as int)) by (nonlinear_arith)
                requires
                    0 <= a as int <= 30_000 * (SCALE as int) && abs(c as int) <= 13_000_000 * (
                    SCALE as int) && SCALE == 1_000_000i64;
            lemma_mul_fx_le(a as int, c as int, 390_000_000_000 * SCALE);
        }
        let discriminant: i64 = fx_mul(half_b, half_b) - fx_mul(a, c);
        if discriminant < 0 {
            return None;
        }
        let sqrtd: i64 = fx_sqrt(discriminant);
        proof {
            assert(sqrtd as int <= 900_000 * (SCALE as int)) by (nonlinear_arith)
                requires
                    is_sqrt_of((discriminant as int) * (SCALE as int), sqrtd as int) && 0
                        <= discriminant as int <= 750_000_000_000 * (SCALE as int) && SCALE
                        == 1_000_000i64;
            assert(abs((-(half_b as int) - (sqrtd as int)) * (SCALE as int)) <= (
            1_510_000_000_000_000_000int) * 1int && abs((-(half_b as int) + (sqrtd as int)) * (
            SCALE as int)) <= (1_510_000_000_000_000_000int) * 1int) by (nonlinear_arith)
                requires
                    abs(half_b as int) <= 600_000 * (SCALE as int) && 0 <= sqrtd as int <= 900_000
                        * (SCALE as int) && SCALE == 1_000_000i64;
            lemma_root_fits(-(half_b as int) - (sqrtd as int), a as int);
            lemma_root_fits(-(half_b as int) + (sqrtd as int), a as int);
        }
        let mut root: i64 = fx_div(-half_b - sqrtd, a);
        if root < t_min || t_max < root {
            root = fx_div(-half_b + sqrtd, a);
            if root < t_min || t_max < root {
                return None;
            }
        }
        proof {
            lemma_at_root_fits(r@, root as int);
        }
        let p: Point3 = r.at(root);
        let pc: Vec3 = p.sub(&self.center);
        proof {
            lemma_outward_fits(pc@, self.radius as int);
        }
        let outward_normal: Vec3 = pc.div_scalar(self.radius);
        Some(HitRecord::from_face_normal(r, p, &outward_normal, root, self.material))
    }
}

/// A ray that starts outside a sphere and does not run toward it never hits
/// it, whatever the upper distance bound: when the constant coefficient is
/// positive (the origin is outside the sphere) and the half-b coefficient is
/// nonnegative (the direction points away from the center), the intersection
/// is none. This holds of the fixed-point computation itself, rounding
/// included.
pub proof fn lemma_ray_away_misses(
    center: V3,
    radius: int,
    material: Material,
    r: RayV,
    t_min: int,
    t_max: int,
)
    requires
        1 <= hit_a(r),
        hit_c(center, radius, r) > 0,
        hit_half_b(center, r) >= 0,
        t_min > 0,
    ensures
        spec_sphere_hit(center, radius, material, r, t_min, t_max) is None,
{
    let a = hit_a(r);
    let hb = hit_half_b(center, r);
    let c = hit_c(center, radius, r);
    let disc = hit_disc(center, radius, r);
    if disc >= 0 {
        assert(disc * SCALE >= 0 && hb * hb >= 0 && a * c >= 0) by (nonlinear_arith)
            requires disc >= 0 && hb >= 0 && 1 <= a && c > 0 && SCALE == 1_000_000i64;
        crate::fixed::lemma_sqrt_int_exists(disc * SCALE);
        let sq = sqrt_fx(disc);
        lemma_div_trunc_sign(a * c, SCALE as int);
        lemma_div_trunc_sign(hb * hb, SCALE as int);
        assert(disc * SCALE <= mul_fx(hb, hb) * SCALE) by (nonlinear_arith)
            requires disc <= mul_fx(hb, hb) && SCALE == 1_000_000i64;
        assert(sq <= hb) by (nonlinear_arith)
            requires 0 <= sq && 0 <= hb && sq * sq <= disc * SCALE <= hb * hb;
        assert((-hb - sq) * SCALE <= 0 && (-hb + sq) * SCALE <= 0) by (nonlinear_arith)
            requires 0 <= sq <= hb && SCALE == 1_000_000i64;
        lemma_div_trunc_sign((-hb - sq) * SCALE, a);
        lemma_div_trunc_sign((-hb + sq) * SCALE, a);
    }
}

/// A ray through the exact center of a sphere, in exact (unrounded) integer
/// algebra: writing `a = d . d` for the leading coefficient, the half-b
/// coefficient is `-t0 a`, so the midpoint of the two roots, `-half_b / a`,
/// is exactly `t0` — the parameter at which the center projects onto the ray
/// — and the discriminant is `a r^2`, so the roots `t0 -+ r / |d|` are
/// symmetric about that midpoint.
pub proof fn lemma_hit_through_center(o: V3, c: V3, d: V3, t0: int, radius: int)
    requires
        c.x - o.x == t0 * d.x,
        c.y - o.y == t0 * d.y,
        c.z - o.z == t0 * d.z,
    ensures
        dot_raw_v(sub_v(o, c), d) == -t0 * dot_raw_v(d, d),
        dot_raw_v(sub_v(c, o), d) == t0 * dot_raw_v(d, d),
        dot_raw_v(sub_v(o, c), d) * dot_raw_v(sub_v(o, c), d) - dot_raw_v(d, d) * (dot_raw_v(
            sub_v(o, c),
            sub_v(o, c),
        ) - radius * radius) == dot_raw_v(d, d) * (radius * radius),
{
    let a = dot_raw_v(d, d);
    let oc = sub_v(o, c);
    assert(oc.x * d.x == -t0 * (d.x * d.x) && oc.y * d.y == -t0 * (d.y * d.y) && oc.z * d.z == -t0
        * (d.z * d.z)) by (nonlinear_arith)
        requires oc.x == -(t0 * d.x) && oc.y == -(t0 * d.y) && oc.z == -(t0 * d.z);
    assert(-t0 * (d.x * d.x) + -t0 * (d.y * d.y) + -t0 * (d.z * d.z) == -t0 * a)
        by (nonlinear_arith)
        requires a == d.x * d.x + d.y * d.y + d.z * d.z;
    assert(oc.x * oc.x == (t0 * t0) * (d.x * d.x) && oc.y * oc.y == (t0 * t0) * (d.y * d.y)
        && oc.z * oc.z == (t0 * t0) * (d.z * d.z)) by (nonlinear_arith)
        requires oc.x == -(t0 * d.x) && oc.y == -(t0 * d.y) && oc.z == -(t0 * d.z);
    assert((t0 * t0) * (d.x * d.x) + (t0 * t0) * (d.y * d.y) + (t0 * t0) * (d.z * d.z) == (t0
        * t0) * a) by (nonlinear_arith)
        requires a == d.x * d.x + d.y * d.y + d.z * d.z;
    let hb = dot_raw_v(oc, d);
    assert(hb * hb - a * ((t0 * t0) * a - radius * radius) == a * (radius * radius))
        by (nonlinear_arith)
        requires hb == -t0 * a;
    let co = sub_v(c, o);
    assert(co.x * d.x == -(oc.x * d.x) && co.y * d.y == -(oc.y * d.y) && co.z * d.z == -(oc.z
        * d.z)) by (nonlinear_arith)
        requires co.x == -oc.x && co.y == -oc.y && co.z == -oc.z;
    assert(-t0 * a == -(t0 * a)) by (nonlinear_arith);
}

/// A root numerator over a positive leading coefficient fits in an `i64`.
proof fn lemma_root_fits(num: int, a: int)
    requires
        1 <= a,
        abs(num * SCALE) <= 1_510_000_000_000_000_000 * 1,
    ensures
        fits(div_fx(num, a)),
        abs(div_fx(num, a)) <= 1_510_000_000_000_000_000,
{
    assert(abs(num) * (SCALE as int) == abs(num * SCALE)) by (nonlinear_arith);
    assert(1_510_000_000_000_000_000 * 1 <= 1_510_000_000_000_000_000int * a)
        by (nonlinear_arith)
        requires 1 <= a;
    assert(abs(num) * (SCALE as int) <= 1_510_000_000_000_000_000int * abs(a)) by (nonlinear_arith)
        requires abs(num) * (SCALE as int) <= 1_510_000_000_000_000_000int * a && 1 <= a;
    lemma_div_fx_le(num, a, 1_510_000_000_000_000_000);
}

/// Stepping a bounded ray to a parameter within the horizon stays in range.
proof fn lemma_at_root_fits(r: RayV, root: int)
    requires
        ray_within_limits(r),
        0 <= root <= T_LIMIT,
    ensures
        fits(mul_fx(root, r.direction.x)),
        fits(mul_fx(root, r.direction.y)),
        fits(mul_fx(root, r.direction.z)),
        fits(r.origin.x + mul_fx(root, r.direction.x)),
        fits(r.origin.y + mul_fx(root, r.direction.y)),
        fits(r.origin.z + mul_fx(root, r.direction.z)),
        bounded_v(ray_at_v(r, root), 201_000_000_000_000),
{
    assert(abs(root * r.direction.x) <= (200_000_000_000_000int) * (SCALE as int) && abs(root
        * r.direction.y) <= (200_000_000_000_000int) * (SCALE as int) && abs(root * r.direction.z)
        <= (200_000_000_000_000int) * (SCALE as int)) by (nonlinear_arith)
        requires
            0 <= root <= 2_000_000_000_000int && abs(r.direction.x) <= 100_000_000int && abs(
                r.direction.y,
            ) <= 100_000_000int && abs(r.direction.z) <= 100_000_000int && SCALE == 1_000_000i64;
    crate::fixed::lemma_mul_fx_le(root, r.direction.x, 200_000_000_000_000);
    crate::fixed::lemma_mul_fx_le(root, r.direction.y, 200_000_000_000_000);
    crate::fixed::lemma_mul_fx_le(root, r.direction.z, 200_000_000_000_000);
}

/// Dividing the hit-point offset by a radius of accepted magnitude stays in
/// range.
proof fn lemma_outward_fits(pc: V3, radius: int)
    requires
        bounded_v(pc, 202_000_000_000_000),
        RADIUS_MIN <= abs(radius),
    ensures
        radius != 0,
        fits(div_fx(pc.x, radius)),
        fits(div_fx(pc.y, radius)),
        fits(div_fx(pc.z, radius)),
        bounded_v(div_scalar_v(pc, radius), 202_000_000_000_000_000),
{
    assert(abs(pc.x) * (SCALE as int) <= (202_000_000_000_000_000int) * abs(radius) && abs(pc.y)
        * (SCALE as int) <= (202_000_000_000_000_000int) * abs(radius) && abs(pc.z) * (
    SCALE as int) <= (202_000_000_000_000_000int) * abs(radius)) by (nonlinear_arith)
        requires
            abs(pc.x) <= 202_000_000_000_000int && abs(pc.y) <= 202_000_000_000_000int && abs(pc.z)
                <= 202_000_000_000_000int && 1000 <= abs(radius) && SCALE == 1_000_000i64;
    lemma_div_fx_le(pc.x, radius, 202_000_000_000_000_000);
    lemma_div_fx_le(pc.y, radius, 202_000_000_000_000_000);
    lemma_div_fx_le(pc.z, radius, 202_000_000_000_000_000);
}

} // verus!
