//! The thin-lens camera: an orthonormal basis built from the view
//! configuration, a viewport rectangle in world space, and a lens radius for
//! depth of field.

use crate::fixed::{
    div_fx, fits, fx_mul, lemma_div_trunc_exact, lemma_mul_fx_le, mul_fx, SCALE,
};
use crate::ray::{Ray, RayV};
use crate::rng::RandomSource;
use crate::vec3::{
    add_v, bounded_v, cross_v, div_scalar_v, lemma_cross_fits, lemma_div_scalar_fits,
    lemma_dot_v_le, lemma_scale_v_le, norm_sq_v, scale_v, sub_v, unit_v, Point3, Vec3, V3,
};
use vstd::math::abs;
use vstd::prelude::*;

verus! {

/// Largest component magnitude of the camera's position inputs: a hundred
/// units.
pub const CAM_LIMIT: i64 = 100_000_000;

/// An immutable camera configuration, shared read-only across workers.
#[derive(Clone, Copy, Debug)]
pub struct Camera {
    pub origin: Point3,
    pub lower_left_corner: Point3,
    pub horizontal: Vec3,
    pub vertical: Vec3,
    pub u: Vec3,
    pub v: Vec3,
    pub w: Vec3,
    pub lens_radius: i64,
}

/// Field bounds every constructed camera satisfies; they keep the ray
/// computation in range.
pub open spec fn wf_camera(c: Camera) -> bool {
    &&& bounded_v(c.origin@, CAM_LIMIT as int)
    &&& bounded_v(c.lower_left_corner@, 60_000_000_000)
    &&& bounded_v(c.horizontal@, 60_000_000_000)
    &&& bounded_v(c.vertical@, 40_000_000_000)
    &&& bounded_v(c.u@, 3 * SCALE)
    &&& bounded_v(c.v@, 18 * SCALE)
    &&& bounded_v(c.w@, 3 * SCALE)
    &&& 0 <= c.lens_radius <= 5 * SCALE
}

/// The view configuration a camera can be built from: positions within a
/// hundred units, a positive field of view and aspect ratio, a nonnegative
/// aperture, a focus distance between a thousandth and a hundred units, a
/// view direction of usable length, and an up vector not parallel to it.
pub open spec fn camera_inputs_ok(
    lookfrom: V3,
    lookat: V3,
    viewup: V3,
    tan_half_fov: int,
    aspect_ratio: int,
    aperture: int,
    focus_dist: int,
) -> bool {
    &&& bounded_v(lookfrom, CAM_LIMIT as int)
    &&& bounded_v(lookat, CAM_LIMIT as int)
    &&& bounded_v(viewup, CAM_LIMIT as int)
    &&& 0 < tan_half_fov <= 10 * SCALE
    &&& 0 < aspect_ratio <= 10 * SCALE
    &&& 0 <= aperture <= 10 * SCALE
    &&& 1_000 <= focus_dist <= CAM_LIMIT
    &&& 1 <= norm_sq_v(sub_v(lookfrom, lookat))
    &&& 1 <= norm_sq_v(cross_v(viewup, unit_v(sub_v(lookfrom, lookat))))
}

/// The ray cast for normalized image coordinates `(s, t)` and a drawn lens
/// sample: the origin is displaced across the lens disk, and the direction
/// points at the focus-plane point of the pixel.
pub open spec fn spec_get_ray(c: Camera, s: int, t: int, disk: V3) -> RayV {
    let rd = scale_v(c.lens_radius as int, disk);
    let offset = add_v(scale_v(rd.x, c.u@), scale_v(rd.y, c.v@));
    RayV {
        origin: add_v(c.origin@, offset),
        direction: sub_v(
            sub_v(
                add_v(
                    add_v(c.lower_left_corner@, scale_v(s, c.horizontal@)),
                    scale_v(t, c.vertical@),
                ),
                c.origin@,
            ),
            offset,
        ),
    }
}

impl Camera {
    /// Builds the camera, or nothing when the configuration is out of range
    /// or degenerate (a zero-length view direction, or an up vector parallel
    /// to it), exactly as [`camera_inputs_ok`] states. The vertical field of
    /// view enters as the tangent of its half angle; the viewport is
    /// `2 * tan_half_fov` high and `aspect_ratio` times as wide, both scaled
    /// by the focus distance.
    pub fn new(
        lookfrom: Point3,
        lookat: Point3,
        viewup: Vec3,
        tan_half_fov: i64,
        aspect_ratio: i64,
        aperture: i64,
        focus_dist: i64,
    ) -> (res: Option<Camera>)
        ensures
            res is Some <==> camera_inputs_ok(
                lookfrom@,
                lookat@,
                viewup@,
                tan_half_fov as int,
                aspect_ratio as int,
                aperture as int,
                focus_dist as int,
            ),
            res matches Some(cam) ==> {
                &&& wf_camera(cam)
                &&& cam.origin == lookfrom
                &&& cam.w@ == unit_v(sub_v(lookfrom@, lookat@))
                &&& cam.u@ == unit_v(cross_v(viewup@, cam.w@))
                &&& cam.v@ == cross_v(cam.w@, cam.u@)
                &&& cam.horizontal@ == scale_v(
                    mul_fx(
                        focus_dist as int,
                        mul_fx(aspect_ratio as int, 2 * tan_half_fov),
                    ),
                    cam.u@,
                )
                &&& cam.vertical@ == scale_v(
                    mul_fx(focus_dist as int, 2 * tan_half_fov),
                    cam.v@,
                )
                &&& cam.lower_left_corner@ == sub_v(
                    sub_v(
                        sub_v(lookfrom@, div_scalar_v(cam.horizontal@, 2 * SCALE)),
                        div_scalar_v(cam.vertical@, 2 * SCALE),
                    ),
                    scale_v(focus_dist as int, cam.w@),
                )
                &&& cam.lens_radius == aperture / 2
            },
    {
        if lookfrom.x < -CAM_LIMIT || lookfrom.x > CAM_LIMIT || lookfrom.y < -CAM_LIMIT
            || lookfrom.y > CAM_LIMIT || lookfrom.z < -CAM_LIMIT || lookfrom.z > CAM_LIMIT {
            return None;
        }
        if lookat.x < -CAM_LIMIT || lookat.x > CAM_LIMIT || lookat.y < -CAM_LIMIT || lookat.y
            > CAM_LIMIT || lookat.z < -CAM_LIMIT || lookat.z > CAM_LIMIT {
            return None;
        }
        if viewup.x < -CAM_LIMIT || viewup.x > CAM_LIMIT || viewup.y < -CAM_LIMIT || viewup.y
            > CAM_LIMIT || viewup.z < -CAM_LIMIT || viewup.z > CAM_LIMIT {
            return None;
        }
        if tan_half_fov <= 0 || tan_half_fov > 10 * SCALE {
            return None;
        }
        if aspect_ratio <= 0 || aspect_ratio > 10 * SCALE {
            return None;
        }
        if aperture < 0 || aperture > 10 * SCALE {
            return None;
        }
        if focus_dist < 1_000 || focus_dist > CAM_LIMIT {
            return None;
        }
        let diff: Vec3 = lookfrom.sub(&lookat);
        proof {
            assert(3 * 200_000_000int * 200_000_000int <= (120_000 * (SCALE as int)) * (
            SCALE as int)) by (nonlinear_arith)
                requires SCALE == 1_000_000i64;
            lemma_dot_v_le(diff@, diff@, 200_000_000, 200_000_000, 120_000 * SCALE);
        }
        let ns_diff: i64 = diff.norm();
        if ns_diff < 1 {
            return None;
        }
        let w: Vec3 = diff.normalize();
        proof {
            assert((CAM_LIMIT as int) * (3 * SCALE) <= (300 * (SCALE as int)) * (SCALE as int)
                && 3 * (600 * (SCALE as int)) * (600 * (SCALE as int)) <= (1_080_000 * (
            SCALE as int)) * (SCALE as int)) by (nonlinear_arith)
                requires SCALE == 1_000_000i64 && CAM_LIMIT == 100_000_000i64;
            lemma_cross_fits(viewup@, w@, CAM_LIMIT as int, 3 * SCALE, 300 * SCALE);
            lemma_dot_v_le(cross_v(viewup@, w@), cross_v(viewup@, w@), 600 * SCALE, 600 * SCALE,
                1_080_000 * SCALE);
        }
        let cr: Vec3 = viewup.cross(&w);
        let ns_cr: i64 = cr.norm();
        if ns_cr < 1 {
            return None;
        }
        let u: Vec3 = cr.normalize();
        proof {
            assert((3 * (SCALE as int)) * (3 * SCALE) <= (9 * (SCALE as int)) * (SCALE as int))
                by (nonlinear_arith)
                requires SCALE == 1_000_000i64;
            lemma_cross_fits(w@, u@, 3 * SCALE, 3 * SCALE, 9 * SCALE);
        }
        let v: Vec3 = w.cross(&u);
        let viewport_height: i64 = 2 * tan_half_fov;
        proof {
            assert(abs((aspect_ratio as int) * (viewport_height as int)) <= (200 * (SCALE as int))
                * (SCALE as int)) by (nonlinear_arith)
                requires
                    0 < aspect_ratio as int <= 10 * (SCALE as int) && 0 < viewport_height as int
                        <= 20 * (SCALE as int) && SCALE == 1_000_000i64;
            lemma_mul_fx_le(aspect_ratio as int, viewport_height as int, 200 * SCALE);
        }
        let viewport_width: i64 = fx_mul(aspect_ratio, viewport_height);
        proof {
            assert(abs((focus_dist as int) * (viewport_width as int)) <= (20_000 * (SCALE as int))
                * (SCALE as int) && abs((focus_dist as int) * (viewport_height as int)) <= (2_000
                * (SCALE as int)) * (SCALE as int)) by (nonlinear_arith)
                requires
                    1_000 <= focus_dist as int <= 100_000_000int && abs(viewport_width as int)
                        <= 200 * (SCALE as int) && 0 < viewport_height as int <= 20 * (SCALE as int)
                        && SCALE == 1_000_000i64;
            lemma_mul_fx_le(focus_dist as int, viewport_width as int, 20_000 * SCALE);
            lemma_mul_fx_le(focus_dist as int, viewport_height as int, 2_000 * SCALE);
        }
        let fw: i64 = fx_mul(focus_dist, viewport_width);
        let fh: i64 = fx_mul(focus_dist, viewport_height);
        proof {
            assert((20_000 * (SCALE as int)) * (3 * SCALE) <= (60_000_000_000int) * (SCALE as int)
                && (2_000 * (SCALE as int)) * (18 * SCALE) <= (36_000_000_000int) * (SCALE as int)
                && (60_000_000_000int) * (SCALE as int) <= (30_000_000_000int) * abs(2 * (
            SCALE as int)) && (36_000_000_000int) * (SCALE as int) <= (18_000_000_000int) * abs(2
                * (SCALE as int)) && (CAM_LIMIT as int) * (3 * SCALE) <= (300 * (SCALE as int)) * (
            SCALE as int)) by (nonlinear_arith)
                requires SCALE == 1_000_000i64 && CAM_LIMIT == 100_000_000i64;
            lemma_scale_v_le(fw as int, u@, 20_000 * SCALE, 3 * SCALE, 60_000_000_000);
            lemma_scale_v_le(fh as int, v@, 2_000 * SCALE, 18 * SCALE, 36_000_000_000);
        }
        let horizontal: Vec3 = u.scale(fw);
        let vertical: Vec3 = v.scale(fh);
        proof {
            lemma_div_scalar_fits(horizontal@, 2 * (SCALE as int), 60_000_000_000,
                30_000_000_000);
            lemma_div_scalar_fits(vertical@, 2 * (SCALE as int), 36_000_000_000, 18_000_000_000);
            lemma_scale_v_le(focus_dist as int, w@, CAM_LIMIT as int, 3 * SCALE, 300 * SCALE);
        }
        let half_h: Vec3 = horizontal.div_scalar(2 * SCALE);
        let half_v: Vec3 = vertical.div_scalar(2 * SCALE);
        let fwv: Vec3 = w.scale(focus_dist);
        let lower_left_corner: Vec3 = lookfrom.sub(&half_h).sub(&half_v).sub(&fwv);
        let lens_radius: i64 = aperture / 2;
        Some(
            Camera {
                origin: lookfrom,
                lower_left_corner,
                horizontal,
                vertical,
                u,
                v,
                w,
                lens_radius,
            },
        )
    }

    /// The sampled ray for normalized image coordinates `(s, t)`, drawing one
    /// point of the lens disk. With a zero lens radius the camera is a
    /// pinhole and the ray is deterministic.
    pub fn get_ray(&self, s: i64, t: i64, rng: &mut RandomSource) -> (r: Ray)
        requires
            wf_camera(*self),
            0 <= s <= 2 * SCALE,
            0 <= t <= 2 * SCALE,
        ensures
            exists|disk: V3|
                #![auto]
                bounded_v(disk, SCALE as int) && norm_sq_v(disk) < SCALE && disk.z == 0 && r@
                    == spec_get_ray(*self, s as int, t as int, disk),
            self.lens_radius == 0 ==> r@ == spec_get_ray(
                *self,
                s as int,
                t as int,
                V3 { x: 0, y: 0, z: 0 },
            ),
    {
        let smp: Vec3 = Vec3::random_in_unit_disk(rng);
        proof {
            assert((5 * (SCALE as int)) * (SCALE as int) <= (5 * (SCALE as int)) * (SCALE as int)
                && (5 * (SCALE as int)) * (3 * SCALE) <= (15 * (SCALE as int)) * (SCALE as int)
                && (5 * (SCALE as int)) * (18 * SCALE) <= (90 * (SCALE as int)) * (SCALE as int))
                by (nonlinear_arith)
                requires SCALE == 1_000_000i64;
            lemma_scale_v_le(self.lens_radius as int, smp@, 5 * SCALE, SCALE as int, 5 * SCALE);
        }
        let rd: Vec3 = smp.scale(self.lens_radius);
        proof {
            lemma_scale_v_le(rd@.x, self.u@, 5 * SCALE, 3 * SCALE, 15 * SCALE);
            lemma_scale_v_le(rd@.y, self.v@, 5 * SCALE, 18 * SCALE, 90 * SCALE);
        }
        let ou: Vec3 = self.u.scale(rd.x);
        let ov: Vec3 = self.v.scale(rd.y);
        let offset: Vec3 = ou.add(&ov);
        let origin: Vec3 = self.origin.add(&offset);
        proof {
            assert((2 * (SCALE as int)) * (60_000_000_000int) <= (120_000_000_000int) * (
            SCALE as int) && (2 * (SCALE as int)) * (40_000_000_000int) <= (80_000_000_000int) * (
            SCALE as int)) by (nonlinear_arith)
                requires SCALE == 1_000_000i64;
            lemma_scale_v_le(s as int, self.horizontal@, 2 * SCALE, 60_000_000_000,
                120_000_000_000);
            lemma_scale_v_le(t as int, self.vertical@, 2 * SCALE, 40_000_000_000, 80_000_000_000);
        }
        let sh: Vec3 = self.horizontal.scale(s);
        let tv: Vec3 = self.vertical.scale(t);
        let direction: Vec3 = self.lower_left_corner.add(&sh).add(&tv).sub(&self.origin).sub(
            &offset,
        );
        let r: Ray = Ray::new(origin, direction);
        proof {
            assert(bounded_v(smp@, SCALE as int) && norm_sq_v(smp@) < SCALE && smp@.z == 0 && r@
                == spec_get_ray(*self, s as int, t as int, smp@));
            if self.lens_radius == 0 {
                lemma_zero_scale(smp@);
                lemma_zero_scale(V3 { x: 0, y: 0, z: 0 });
                assert(scale_v(0, smp@) == (V3 { x: 0, y: 0, z: 0 }));
                lemma_zero_scale_vec(self.u@);
                lemma_zero_scale_vec(self.v@);
            }
        }
        r
    }
}

/// Scaling any vector by zero gives the zero vector.
proof fn lemma_zero_scale(u: V3)
    ensures
        scale_v(0, u) == (V3 { x: 0, y: 0, z: 0 }),
{
    assert(0 * u.x == 0 && 0 * u.y == 0 && 0 * u.z == 0 && 0 * (SCALE as int) == 0)
        by (nonlinear_arith);
    lemma_div_trunc_exact(0, SCALE as int);
}

/// Scaling by the zero component of a zero vector gives the zero vector.
proof fn lemma_zero_scale_vec(u: V3)
    ensures
        scale_v((V3 { x: 0, y: 0, z: 0 }).x, u) == (V3 { x: 0, y: 0, z: 0 }),
        scale_v((V3 { x: 0, y: 0, z: 0 }).y, u) == (V3 { x: 0, y: 0, z: 0 }),
{
    lemma_zero_scale(u);
}

} // verus!
