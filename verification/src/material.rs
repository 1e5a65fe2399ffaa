//! The material model: Lambertian diffuse, fuzzy metal, and dielectric
//! refraction, dispatched through a closed enum.
//!
//! Each randomized `scatter` is factored through a deterministic direction
//! function with an exact contract; the draw is then one argument of that
//! function, so everything after the draw is verified for every value the
//! draw may take.

use crate::fixed::{
    div_fx, fits, fx_div, fx_mul, fx_sqrt, is_sqrt_of, lemma_div_trunc_exact, lemma_div_trunc_ge,
    lemma_div_trunc_le, lemma_mul_fx_le, mul_fx, sqrt_fx, SCALE,
};
use crate::hittable::{direction_ok, HitRecord, NORMAL_LIMIT};
use crate::ray::{reflect, reflect_v, refract, refract_v, Ray};
use crate::rng::RandomSource;
use crate::vec3::{
    add_v, bounded_v, color_in_range, dot_raw_v, dot_v, lemma_dot_v_le, lemma_scale_v_le,
    near_zero_v, neg_v, norm_sq_v, scale_v, unit_v, Color, Vec3, V3,
};
use vstd::math::abs;
use vstd::prelude::*;

verus! {

/// Diffuse material: scatters about the normal, filtering by its albedo.
#[derive(Clone, Copy, Debug)]
pub struct Lambertian {
    pub albedo: Color,
}

/// Reflective material with a fuzz radius in `[0, 1]`.
#[derive(Clone, Copy, Debug)]
pub struct Metal {
    pub albedo: Color,
    pub fuzz: i64,
}

/// Transparent material described by its refractive index.
#[derive(Clone, Copy, Debug)]
pub struct Dielectrics {
    pub index_of_refraction: i64,
}

/// Placeholder material: absorbs every ray.
#[derive(Clone, Copy, Debug)]
pub struct UninitMaterial {}

/// The closed set of material kinds a surface can carry.
#[derive(Clone, Copy, Debug)]
pub enum Material {
    Lambertian(Lambertian),
    Metal(Metal),
    Dielectric(Dielectrics),
    Uninit(UninitMaterial),
}

pub open spec fn wf_lambertian(m: Lambertian) -> bool {
    color_in_range(m.albedo@)
}

pub open spec fn wf_metal(m: Metal) -> bool {
    color_in_range(m.albedo@) && 0 <= m.fuzz <= SCALE
}

/// Refractive indices between a tenth and ten cover every physical medium and
/// keep the refraction arithmetic in range.
pub open spec fn wf_dielectric(m: Dielectrics) -> bool {
    SCALE / 10 <= m.index_of_refraction <= 10 * SCALE
}

pub open spec fn wf_material(m: Material) -> bool {
    match m {
        Material::Lambertian(l) => wf_lambertian(l),
        Material::Metal(mt) => wf_metal(mt),
        Material::Dielectric(d) => wf_dielectric(d),
        Material::Uninit(_) => true,
    }
}

/// The diffuse scatter direction for a drawn unit sample: normal plus sample,
/// falling back to the normal itself when the sum degenerates to zero.
pub open spec fn lambertian_dir_v(n: V3, u: V3) -> V3 {
    if near_zero_v(add_v(n, u)) {
        n
    } else {
        add_v(n, u)
    }
}

/// The metal scatter direction for a drawn unit-ball sample: the mirror
/// reflection of the unit incoming direction, displaced by `fuzz` times the
/// sample.
pub open spec fn metal_dir_v(unit_in: V3, n: V3, fuzz: int, sample: V3) -> V3 {
    add_v(reflect_v(unit_in, n), scale_v(fuzz, sample))
}

/// Fifth power, each product rounded toward zero.
pub open spec fn pow5_fx(p: int) -> int {
    mul_fx(mul_fx(mul_fx(p, p), mul_fx(p, p)), p)
}

/// Schlick's reflectance approximation:
/// `r0 + (1 - r0) (1 - cosine)^5` with `r0 = ((1 - eta) / (1 + eta))^2`.
pub open spec fn reflectance_v(cosine: int, eta: int) -> int {
    let r0 = div_fx(SCALE - eta, SCALE + eta);
    let r0s = mul_fx(r0, r0);
    r0s + mul_fx(SCALE - r0s, pow5_fx(SCALE - cosine))
}

/// Schlick's reflectance approximation, executable.
pub fn reflectance(cosine: i64, eta: i64) -> (r: i64)
    requires
        -36 * SCALE <= cosine <= SCALE,
        SCALE / 10 <= eta <= 10 * SCALE,
    ensures
        r as int == reflectance_v(cosine as int, eta as int),
{
    proof {
        lemma_div_fx_le_helper(eta as int);
    }
    let r0: i64 = fx_div(SCALE - eta, SCALE + eta);
    proof {
        assert(abs((r0 as int) * (r0 as int)) <= (81 * (SCALE as int)) * (SCALE as int))
            by (nonlinear_arith)
            requires abs(r0 as int) <= 9 * (SCALE as int) && SCALE == 1_000_000i64;
        lemma_mul_fx_le(r0 as int, r0 as int, 81 * SCALE);
    }
    let r0s: i64 = fx_mul(r0, r0);
    let p: i64 = SCALE - cosine;
    proof {
        assert(abs((p as int) * (p as int)) <= (1369 * (SCALE as int)) * (SCALE as int))
            by (nonlinear_arith)
            requires 0 <= p as int <= 37 * (SCALE as int) && SCALE == 1_000_000i64;
        lemma_mul_fx_le(p as int, p as int, 1369 * SCALE);
    }
    let p2: i64 = fx_mul(p, p);
    proof {
        assert(abs((p2 as int) * (p2 as int)) <= (1_874_161 * (SCALE as int)) * (SCALE as int))
            by (nonlinear_arith)
            requires abs(p2 as int) <= 1369 * (SCALE as int) && SCALE == 1_000_000i64;
        lemma_mul_fx_le(p2 as int, p2 as int, 1_874_161 * SCALE);
    }
    let p4: i64 = fx_mul(p2, p2);
    proof {
        assert(abs((p4 as int) * (p as int)) <= (69_343_957 * (SCALE as int)) * (SCALE as int))
            by (nonlinear_arith)
            requires
                abs(p4 as int) <= 1_874_161 * (SCALE as int) && 0 <= p as int <= 37 * (SCALE as int)
                    && SCALE == 1_000_000i64;
        lemma_mul_fx_le(p4 as int, p as int, 69_343_957 * SCALE);
    }
    let p5: i64 = fx_mul(p4, p);
    proof {
        assert(abs(((SCALE - r0s) as int) * (p5 as int)) <= (5_686_204_474 * (SCALE as int)) * (
        SCALE as int)) by (nonlinear_arith)
            requires
                abs(r0s as int) <= 81 * (SCALE as int) && abs(p5 as int) <= 69_343_957 * (
                SCALE as int) && SCALE == 1_000_000i64;
        lemma_mul_fx_le((SCALE - r0s) as int, p5 as int, 5_686_204_474 * SCALE);
    }
    let tail: i64 = fx_mul(SCALE - r0s, p5);
    r0s + tail
}

/// Bounds for the Schlick base reflectance `r0`.
proof fn lemma_div_fx_le_helper(eta: int)
    requires
        (SCALE as int) / 10 <= eta <= 10 * SCALE,
    ensures
        abs(div_fx(SCALE - eta, SCALE + eta)) <= 9 * SCALE,
        fits(div_fx(SCALE - eta, SCALE + eta)),
        SCALE + eta != 0,
    {
    assert(abs((SCALE - eta) as int) * (SCALE as int) <= (9 * (SCALE as int)) * abs((SCALE
        + eta) as int)) by (nonlinear_arith)
        requires (SCALE as int) / 10 <= eta <= 10 * (SCALE as int) && SCALE == 1_000_000i64;
    crate::fixed::lemma_div_fx_le(SCALE - eta, SCALE + eta, 9 * SCALE);
}

/// The dielectric scatter direction, deterministic in the drawn reflectance
/// threshold: with `cos = min((-unit_in) . n, 1)` and
/// `sin = sqrt(max(0, 1 - cos^2))`, the ray reflects on total internal
/// reflection (`eta sin > 1`) or when Schlick's reflectance exceeds the draw,
/// and refracts otherwise.
pub open spec fn dielectric_dir_v(unit_in: V3, n: V3, eta: int, draw: int) -> V3 {
    let cos = if dot_v(neg_v(unit_in), n) < SCALE {
        dot_v(neg_v(unit_in), n)
    } else {
        SCALE as int
    };
    let w = if SCALE - mul_fx(cos, cos) < 0 {
        0
    } else {
        SCALE - mul_fx(cos, cos)
    };
    let sin = sqrt_fx(w);
    if mul_fx(eta, sin) > SCALE || reflectance_v(cos, eta) > draw {
        reflect_v(unit_in, n)
    } else {
        refract_v(unit_in, n, eta)
    }
}

/// The dielectric scatter direction, executable.
pub fn dielectric_direction(unit_in: &Vec3, normal: &Vec3, eta: i64, draw: i64) -> (d: Vec3)
    requires
        bounded_v(unit_in@, 3 * SCALE),
        bounded_v(normal@, 4 * SCALE),
        SCALE / 10 <= eta <= 10 * SCALE,
        0 <= draw < SCALE,
    ensures
        d@ == dielectric_dir_v(unit_in@, normal@, eta as int, draw as int),
        bounded_v(d@, 20_000_000_000),
        d@ == reflect_v(unit_in@, normal@) || d@ == refract_v(unit_in@, normal@, eta as int),
{
    let m_in: Vec3 = unit_in.neg();
    proof {
        assert(3 * (3 * SCALE) * (4 * SCALE) <= (36 * SCALE) * (SCALE as int))
            by (nonlinear_arith)
            requires SCALE == 1_000_000i64;
        lemma_dot_v_le(m_in@, normal@, 3 * SCALE, 4 * SCALE, 36 * SCALE);
    }
    let dcos: i64 = m_in.dot(normal);
    let cos: i64 = if dcos < SCALE {
        dcos
    } else {
        SCALE
    };
    proof {
        assert(abs((cos as int) * (cos as int)) <= (1296 * (SCALE as int)) * (SCALE as int))
            by (nonlinear_arith)
            requires -36 * (SCALE as int) <= cos as int <= SCALE as int && SCALE == 1_000_000i64;
        lemma_mul_fx_le(cos as int, cos as int, 1296 * SCALE);
    }
    let cosq: i64 = fx_mul(cos, cos);
    let wr: i64 = SCALE - cosq;
    let w: i64 = if wr < 0 {
        0
    } else {
        wr
    };
    let sin: i64 = fx_sqrt(w);
    proof {
        assert(sin as int <= 37 * SCALE) by (nonlinear_arith)
            requires
                is_sqrt_of((w as int) * (SCALE as int), sin as int) && 0 <= w as int <= 1297 * (
                SCALE as int) && SCALE == 1_000_000i64;
        assert(abs((eta as int) * (sin as int)) <= (370 * (SCALE as int)) * (SCALE as int))
            by (nonlinear_arith)
            requires
                0 <= eta as int <= 10 * (SCALE as int) && 0 <= sin as int <= 37 * (SCALE as int)
                    && SCALE == 1_000_000i64;
        lemma_mul_fx_le(eta as int, sin as int, 370 * SCALE);
    }
    let rs: i64 = fx_mul(eta, sin);
    if rs > SCALE || reflectance(cos, eta) > draw {
        let r: Vec3 = reflect(unit_in, normal);
        proof {
            lemma_reflect_unit_bound(unit_in@, normal@, r@);
        }
        r
    } else {
        refract(unit_in, normal, eta)
    }
}

/// The reflection of a near-unit vector about a near-unit normal stays well
/// inside the dielectric direction bound.
proof fn lemma_reflect_unit_bound(v: V3, n: V3, r: V3)
    requires
        bounded_v(v, 3 * SCALE),
        bounded_v(n, 4 * SCALE),
        r == reflect_v(v, n),
    ensures
        bounded_v(r, 291 * SCALE),
{
    assert(3 * (3 * SCALE) * (4 * SCALE) <= (36 * SCALE) * (SCALE as int) && (72 * SCALE) * (4
        * SCALE) <= (288 * SCALE) * (SCALE as int)) by (nonlinear_arith)
        requires SCALE == 1_000_000i64;
    lemma_dot_v_le(v, n, 3 * SCALE, 4 * SCALE, 36 * SCALE);
    lemma_scale_v_le(2 * dot_v(v, n), n, 72 * SCALE, 4 * SCALE, 288 * SCALE);
}

/// Diffuse scatter direction for a drawn unit vector, executable; the
/// degenerate sum falls back to the normal.
pub fn lambertian_direction(normal: &Vec3, unit_sample: &Vec3) -> (d: Vec3)
    requires
        bounded_v(normal@, 4 * SCALE),
        bounded_v(unit_sample@, 3 * SCALE),
    ensures
        d@ == lambertian_dir_v(normal@, unit_sample@),
        bounded_v(d@, 7 * SCALE),
    {
    let s: Vec3 = normal.add(unit_sample);
    if s.near_zero() {
        *normal
    } else {
        s
    }
}

impl Lambertian {
    pub fn new(albedo: Color) -> (r: Self)
        requires
            color_in_range(albedo@),
        ensures
            r.albedo == albedo,
            wf_lambertian(r),
    {
        Self { albedo }
    }

    /// Diffuse scatter: the direction is the normal plus a random unit
    /// vector, falling back to the normal when the sum degenerates; the ray
    /// is always scattered, filtered by the albedo.
    pub fn scatter(&self, _r_in: &Ray, rec: &HitRecord, rng: &mut RandomSource) -> (r: Option<
        (Color, Ray),
    >)
        requires
            wf_lambertian(*self),
            bounded_v(rec@.normal, NORMAL_LIMIT as int),
            1 <= norm_sq_v(rec@.normal),
        ensures
            r is Some,
            ({
                let (att, sc) = r->Some_0;
                &&& att == self.albedo
                &&& sc@.origin == rec@.p
                &&& !near_zero_v(sc@.direction)
                &&& exists|u: V3|
                    #![auto]
                    bounded_v(u, 3 * SCALE) && sc@.direction == lambertian_dir_v(rec@.normal, u)
            }),
    {
        let u: Vec3 = Vec3::random_unit_vector(rng);
        let d: Vec3 = lambertian_direction(&rec.normal, &u);
        proof {
            if near_zero_v(add_v(rec@.normal, u@)) {
                crate::vec3::lemma_positive_norm_not_zero(rec@.normal);
            }
            assert(bounded_v(u@, 3 * SCALE) && d@ == lambertian_dir_v(rec@.normal, u@));
        }
        Some((self.albedo, Ray::new(rec.p, d)))
    }
}

impl Metal {
    /// Fuzz outside `[0, 1]` is clamped into it at construction.
    pub fn new(albedo: Color, f: i64) -> (r: Self)
        requires
            color_in_range(albedo@),
        ensures
            r.albedo == albedo,
            r.fuzz == if f < 0 {
                0i64
            } else if f < SCALE {
                f
            } else {
                SCALE
            },
            wf_metal(r),
    {
        let fuzz: i64 = if f < 0 {
            0
        } else if f < SCALE {
            f
        } else {
            SCALE
        };
        Self { albedo, fuzz }
    }

    /// Metal scatter: the unit incoming direction is mirrored and displaced
    /// by `fuzz` times a unit-ball sample; the ray is absorbed when the
    /// displaced direction points into the surface. With zero fuzz the metal
    /// is a deterministic mirror.
    pub fn scatter(&self, r_in: &Ray, rec: &HitRecord, rng: &mut RandomSource) -> (r: Option<
        (Color, Ray),
    >)
        requires
            wf_metal(*self),
            bounded_v(rec@.normal, NORMAL_LIMIT as int),
            1 <= norm_sq_v(rec@.normal),
            direction_ok(r_in@.direction),
        ensures
            r matches Some((att, sc)) ==> {
                &&& att == self.albedo
                &&& sc@.origin == rec@.p
                &&& dot_raw_v(sc@.direction, rec@.normal) > 0
                &&& exists|smp: V3|
                    #![auto]
                    bounded_v(smp, SCALE as int) && sc@.direction == metal_dir_v(
                        unit_v(r_in@.direction),
                        rec@.normal,
                        self.fuzz as int,
                        smp,
                    )
            },
            self.fuzz == 0 ==> ((r is Some) <==> dot_raw_v(
                reflect_v(unit_v(r_in@.direction), rec@.normal),
                rec@.normal,
            ) > 0),
            self.fuzz == 0 && r is Some ==> r->Some_0.1@.direction == reflect_v(
                unit_v(r_in@.direction),
                rec@.normal,
            ),
    {
        let smp: Vec3 = Vec3::random_in_unit_sphere(rng);
        proof {
            crate::hittable::lemma_direction_ok_fits(r_in@.direction);
        }
        let unit: Vec3 = r_in.direction().normalize();
        let d: Vec3 = metal_direction(&unit, &rec.normal, self.fuzz, &smp);
        let scattered: Ray = Ray::new(rec.p, d);
        if scattered.direction().dot_is_pos(&rec.normal) {
            proof {
                assert(bounded_v(smp@, SCALE as int) && d@ == metal_dir_v(
                    unit_v(r_in@.direction),
                    rec@.normal,
                    self.fuzz as int,
                    smp@,
                ));
            }
            Some((self.albedo, scattered))
        } else {
            None
        }
    }
}

impl Dielectrics {
    /// Refractive indices between a tenth and ten cover every physical
    /// medium.
    pub fn new(index_of_refraction: i64) -> (r: Self)
        requires
            SCALE / 10 <= index_of_refraction <= 10 * SCALE,
        ensures
            r.index_of_refraction == index_of_refraction,
            wf_dielectric(r),
    {
        Self { index_of_refraction }
    }

    /// The refraction ratio used at a hit: the reciprocal of the index on the
    /// front face, the index itself on the back face.
    pub open spec fn eta_at(&self, front_face: bool) -> int {
        if front_face {
            div_fx(SCALE as int, self.index_of_refraction as int)
        } else {
            self.index_of_refraction as int
        }
    }

    /// Dielectric scatter: always refracts or reflects, never absorbs, with
    /// white attenuation. The refraction ratio is the reciprocal of the index
    /// on the front face and the index itself on the back face; the choice
    /// between reflection and refraction follows total internal reflection
    /// and a Schlick-reflectance draw.
    pub fn scatter(&self, r_in: &Ray, rec: &HitRecord, rng: &mut RandomSource) -> (r: Option<
        (Color, Ray),
    >)
        requires
            wf_dielectric(*self),
            bounded_v(rec@.normal, NORMAL_LIMIT as int),
            1 <= norm_sq_v(rec@.normal),
            direction_ok(r_in@.direction),
        ensures
            r is Some,
            r->Some_0.0@ == (V3 { x: SCALE as int, y: SCALE as int, z: SCALE as int }),
            r->Some_0.1@.origin == rec@.p,
            r->Some_0.1@.direction == reflect_v(unit_v(r_in@.direction), rec@.normal)
                || r->Some_0.1@.direction == refract_v(
                unit_v(r_in@.direction),
                rec@.normal,
                self.eta_at(rec@.front_face),
            ),
            exists|draw: int|
                #![auto]
                0 <= draw < SCALE && r->Some_0.1@.direction == dielectric_dir_v(
                    unit_v(r_in@.direction),
                    rec@.normal,
                    self.eta_at(rec@.front_face),
                    draw,
                ),
    {
        let attenuation: Color = Vec3::new(SCALE, SCALE, SCALE);
        let refraction_ratio: i64 = if rec.front_face {
            proof {
                lemma_reciprocal_ratio_range(self.index_of_refraction as int);
            }
            fx_div(SCALE, self.index_of_refraction)
        } else {
            self.index_of_refraction
        };
        proof {
            crate::hittable::lemma_direction_ok_fits(r_in@.direction);
        }
        let unit: Vec3 = r_in.direction().normalize();
        let draw: i64 = rng.next_in(0, SCALE);
        let d: Vec3 = dielectric_direction(&unit, &rec.normal, refraction_ratio, draw);
        let scattered: Ray = Ray::new(rec.p, d);
        proof {
            assert(refraction_ratio as int == self.eta_at(rec@.front_face));
            assert(exists|dr: int|
                #![auto]
                0 <= dr < SCALE && d@ == dielectric_dir_v(
                    unit_v(r_in@.direction),
                    rec@.normal,
                    self.eta_at(rec@.front_face),
                    dr,
                )) by {
                assert(0 <= draw as int && (draw as int) < SCALE && d@ == dielectric_dir_v(
                    unit_v(r_in@.direction),
                    rec@.normal,
                    self.eta_at(rec@.front_face),
                    draw as int,
                ));
            }
        }
        Some((attenuation, scattered))
    }
}

/// The reciprocal of a refractive index between a tenth and ten lies in the
/// same range.
proof fn lemma_reciprocal_ratio_range(ir: int)
    requires
        (SCALE as int) / 10 <= ir <= 10 * SCALE,
    ensures
        (SCALE as int) / 10 <= div_fx(SCALE as int, ir) <= 10 * SCALE,
        fits(div_fx(SCALE as int, ir)),
{
    assert(abs((SCALE as int) * (SCALE as int)) <= (10 * (SCALE as int)) * ir && ((SCALE as int)
        / 10) * ir <= (SCALE as int) * (SCALE as int) && (SCALE as int) * (SCALE as int) == abs(
        (SCALE as int) * (SCALE as int))) by (nonlinear_arith)
        requires (SCALE as int) / 10 <= ir <= 10 * (SCALE as int) && SCALE == 1_000_000i64;
    lemma_div_trunc_le(SCALE * SCALE, ir, 10 * SCALE);
    lemma_div_trunc_ge(SCALE * SCALE, ir, (SCALE as int) / 10);
    assert(abs(div_fx(SCALE as int, ir)) <= 10 * SCALE);
}

impl UninitMaterial {
    /// The placeholder material absorbs every ray.
    pub fn scatter(&self, _r_in: &Ray, _rec: &HitRecord) -> (r: Option<(Color, Ray)>)
        ensures
            r is None,
    {
        None
    }
}

impl Material {
    /// Dispatches to the variant's scatter. Whatever the draws, a scattered
    /// ray starts at the hit point and its attenuation is a color in range.
    pub fn scatter(&self, r_in: &Ray, rec: &HitRecord, rng: &mut RandomSource) -> (r: Option<
        (Color, Ray),
    >)
        requires
            wf_material(*self),
            bounded_v(rec@.normal, NORMAL_LIMIT as int),
            1 <= norm_sq_v(rec@.normal),
            direction_ok(r_in@.direction),
        ensures
            r matches Some((att, sc)) ==> color_in_range(att@) && sc@.origin == rec@.p,
            self is Uninit ==> r is None,
    {
        match self {
            Material::Lambertian(l) => l.scatter(r_in, rec, rng),
            Material::Metal(m) => m.scatter(r_in, rec, rng),
            Material::Dielectric(d) => d.scatter(r_in, rec, rng),
            Material::Uninit(u) => u.scatter(r_in, rec),
        }
    }
}

/// A drawn unit vector that exactly cancels the normal forces the diffuse
/// fallback: the scatter direction is then the normal itself.
pub proof fn lemma_lambertian_fallback(n: V3)
    ensures
        lambertian_dir_v(n, neg_v(n)) == n,
{
    assert(add_v(n, neg_v(n)) == (V3 { x: 0, y: 0, z: 0 }));
}

/// A metal with zero fuzz is a deterministic mirror: whatever the drawn
/// sample, the scatter direction is exactly the reflection of the unit
/// incoming direction.
pub proof fn lemma_metal_mirror(unit_in: V3, n: V3, sample: V3)
    ensures
        metal_dir_v(unit_in, n, 0, sample) == reflect_v(unit_in, n),
{
    assert(0 * sample.x == 0 && 0 * sample.y == 0 && 0 * sample.z == 0 && 0 * (SCALE as int) == 0)
        by (nonlinear_arith);
    lemma_div_trunc_exact(0, SCALE as int);
    assert(scale_v(0, sample) == (V3 { x: 0, y: 0, z: 0 }));
}

/// Metal scatter direction for a drawn unit-ball sample, executable.
pub fn metal_direction(unit_in: &Vec3, normal: &Vec3, fuzz: i64, sphere_sample: &Vec3) -> (d: Vec3)
    requires
        bounded_v(unit_in@, 3 * SCALE),
        bounded_v(normal@, 4 * SCALE),
        0 <= fuzz <= SCALE,
        bounded_v(sphere_sample@, SCALE as int),
    ensures
        d@ == metal_dir_v(unit_in@, normal@, fuzz as int, sphere_sample@),
        bounded_v(d@, 400 * SCALE),
        fuzz == 0 ==> d@ == reflect_v(unit_in@, normal@),
{
    let r: Vec3 = reflect(unit_in, normal);
    proof {
        lemma_reflect_unit_bound(unit_in@, normal@, r@);
        assert((fuzz as int) * (SCALE as int) <= (SCALE as int) * (SCALE as int))
            by (nonlinear_arith)
            requires 0 <= fuzz as int <= SCALE as int && SCALE == 1_000_000i64;
        lemma_scale_v_le(fuzz as int, sphere_sample@, SCALE as int, SCALE as int, SCALE as int);
        if fuzz == 0 {
            assert(0 * sphere_sample@.x == 0 && 0 * sphere_sample@.y == 0 && 0 * sphere_sample@.z
                == 0) by (nonlinear_arith);
            assert(0 * (SCALE as int) == 0) by (nonlinear_arith);
            lemma_div_trunc_exact(0, SCALE as int);
        }
    }
    let f: Vec3 = sphere_sample.scale(fuzz);
    r.add(&f)
}

} // verus!
