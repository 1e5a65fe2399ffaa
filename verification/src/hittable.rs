//! Surface-hit records and the world limits within which the tracer works.
//!
//! The limits bound every quantity a ray can carry: origins within a thousand
//! units, directions within a hundred, oriented normals within four.
//! Arithmetic all through the tracer is proved in range under them, and the
//! tracer checks them at run time wherever a computed value is not proved to
//! satisfy them, failing fast instead of propagating a degenerate value — the
//! fixed-point counterpart of refusing to let a NaN poison a pixel.

use crate::fixed::SCALE;
use crate::material::Material;
use crate::ray::{Ray, RayV};
use crate::vec3::{bounded_v, dot_raw_v, neg_v, norm_sq_v, Point3, Vec3, V3};
use crate::vec3::{lemma_dot_v_le, WIDE_LIMIT};
use vstd::prelude::*;

verus! {

/// Largest component magnitude of a ray origin or hit point: a thousand units.
pub const ORIGIN_LIMIT: i64 = 1_000_000_000;

/// Largest component magnitude of a ray direction: a hundred units.
pub const DIR_LIMIT: i64 = 100_000_000;

/// Largest component magnitude of an oriented surface normal: four units.
pub const NORMAL_LIMIT: i64 = 4_000_000;

/// Largest accepted hit distance: two million units stand in for infinity.
pub const T_LIMIT: i64 = 2_000_000_000_000;

/// A direction the tracer accepts: bounded components and a squared norm of
/// at least one quantum, so it can be normalized.
pub open spec fn direction_ok(d: V3) -> bool {
    bounded_v(d, DIR_LIMIT as int) && 1 <= norm_sq_v(d)
}

/// A ray the tracer accepts.
pub open spec fn ray_within_limits(r: RayV) -> bool {
    bounded_v(r.origin, ORIGIN_LIMIT as int) && direction_ok(r.direction)
}

/// The mathematical value of a hit record.
pub ghost struct HitRecordV {
    pub p: V3,
    pub normal: V3,
    pub material: Material,
    pub t: int,
    pub front_face: bool,
}

/// The result of a successful intersection: hit point, normal oriented
/// against the incoming ray, material at the point, distance, and which side
/// of the surface the ray came from.
#[derive(Clone, Copy, Debug)]
pub struct HitRecord {
    pub p: Point3,
    pub normal: Vec3,
    pub material: Material,
    pub t: i64,
    pub front_face: bool,
}

impl View for HitRecord {
    type V = HitRecordV;

    open spec fn view(&self) -> HitRecordV {
        HitRecordV {
            p: self.p@,
            normal: self.normal@,
            material: self.material,
            t: self.t as int,
            front_face: self.front_face,
        }
    }
}

/// A hit record the tracer hands to a material: point and normal within the
/// world limits, the normal long enough to stand in for a unit vector.
pub open spec fn hit_within_limits(h: HitRecordV) -> bool {
    bounded_v(h.p, ORIGIN_LIMIT as int) && bounded_v(h.normal, NORMAL_LIMIT as int) && 1
        <= norm_sq_v(h.normal)
}

impl HitRecord {
    /// Builds the record with the normal oriented against the ray: the ray
    /// hit the front face exactly when it runs against the outward normal,
    /// and the stored normal is the outward normal or its negation so that it
    /// always opposes the ray.
    pub fn from_face_normal(
        r: &Ray,
        p: Point3,
        outward_normal: &Vec3,
        t: i64,
        material: Material,
    ) -> (rec: HitRecord)
        requires
            bounded_v(r@.direction, WIDE_LIMIT as int),
            bounded_v(outward_normal@, WIDE_LIMIT as int),
        ensures
            rec@.front_face == (dot_raw_v(r@.direction, outward_normal@) < 0),
            rec@.normal == if rec@.front_face {
                outward_normal@
            } else {
                neg_v(outward_normal@)
            },
            rec@.p == p@,
            rec@.t == t as int,
            rec@.material == material,
    {
        let front_face: bool = r.direction().dot_is_neg(outward_normal);
        let normal: Vec3 = if front_face {
            *outward_normal
        } else {
            outward_normal.neg()
        };
        HitRecord { p, normal, material, t, front_face }
    }
}

/// An accepted direction has a small, nonnegative squared norm.
pub proof fn lemma_direction_ok_fits(d: V3)
    requires
        direction_ok(d),
    ensures
        crate::fixed::fits(norm_sq_v(d)),
        0 <= norm_sq_v(d) <= 30_000 * SCALE,
{
    assert(3 * (DIR_LIMIT as int) * (DIR_LIMIT as int) <= (30_000 * (SCALE as int)) * (
    SCALE as int)) by (nonlinear_arith)
        requires DIR_LIMIT == 100_000_000i64 && SCALE == 1_000_000i64;
    lemma_dot_v_le(d, d, DIR_LIMIT as int, DIR_LIMIT as int, 30_000 * (SCALE as int));
    crate::vec3::lemma_norm_sq_nonneg(d);
}

/// Run-time check of [`ray_within_limits`].
pub fn check_ray_within_limits(r: &Ray) -> (b: bool)
    ensures
        b == ray_within_limits(r@),
{
    let o: &Vec3 = r.origin();
    let d: &Vec3 = r.direction();
    if o.x < -ORIGIN_LIMIT || o.x > ORIGIN_LIMIT || o.y < -ORIGIN_LIMIT || o.y > ORIGIN_LIMIT
        || o.z < -ORIGIN_LIMIT || o.z > ORIGIN_LIMIT {
        return false;
    }
    if d.x < -DIR_LIMIT || d.x > DIR_LIMIT || d.y < -DIR_LIMIT || d.y > DIR_LIMIT || d.z
        < -DIR_LIMIT || d.z > DIR_LIMIT {
        return false;
    }
    proof {
        assert(3 * (DIR_LIMIT as int) * (DIR_LIMIT as int) <= (30_000 * (SCALE as int)) * (
        SCALE as int)) by (nonlinear_arith)
            requires DIR_LIMIT == 100_000_000i64 && SCALE == 1_000_000i64;
        lemma_dot_v_le(r@.direction, r@.direction, DIR_LIMIT as int, DIR_LIMIT as int, 30_000 * (
        SCALE as int));
    }
    let ns: i64 = d.norm();
    1 <= ns
}

/// Run-time check of [`hit_within_limits`].
pub fn check_hit_within_limits(rec: &HitRecord) -> (b: bool)
    ensures
        b == hit_within_limits(rec@),
{
    let p: &Vec3 = &rec.p;
    let n: &Vec3 = &rec.normal;
    if p.x < -ORIGIN_LIMIT || p.x > ORIGIN_LIMIT || p.y < -ORIGIN_LIMIT || p.y > ORIGIN_LIMIT
        || p.z < -ORIGIN_LIMIT || p.z > ORIGIN_LIMIT {
        return false;
    }
    if n.x < -NORMAL_LIMIT || n.x > NORMAL_LIMIT || n.y < -NORMAL_LIMIT || n.y > NORMAL_LIMIT
        || n.z < -NORMAL_LIMIT || n.z > NORMAL_LIMIT {
        return false;
    }
    proof {
        assert(3 * (NORMAL_LIMIT as int) * (NORMAL_LIMIT as int) <= (48 * (SCALE as int)) * (
        SCALE as int)) by (nonlinear_arith)
            requires NORMAL_LIMIT == 4_000_000i64 && SCALE == 1_000_000i64;
        lemma_dot_v_le(rec@.normal, rec@.normal, NORMAL_LIMIT as int, NORMAL_LIMIT as int, 48 * (
        SCALE as int));
    }
    let ns: i64 = n.norm();
    1 <= ns
}

} // verus!
