//! The recursive path-tracing evaluator and the pixel scheduler.
//!
//! Each pixel draws `samples` jittered camera rays, traces each through the
//! scene with a hard bounce budget, averages, and gamma-corrects. Rows are
//! independent; [`render_parallel`] distributes them over a worker pool, each
//! row drawing from its own seeded generator, and reassembles the image in
//! row-major, top-to-bottom order whatever the completion order. A
//! numerically degenerate value fails the render fast, reporting the pixel
//! that produced it.

use crate::camera::{wf_camera, Camera};
use crate::color::{color_to_bytes, gamma_byte, sum_colors, Rgb};
use crate::fixed::{div_fx, div_trunc, fits, fx_div, lemma_div_fx_le, lemma_div_trunc_sign, SCALE};
use crate::hittable::{
    check_hit_within_limits, check_ray_within_limits, lemma_direction_ok_fits, ray_within_limits,
    T_LIMIT,
};
use crate::hittable_list::{spec_list_hit, wf_list, HittableList};
use crate::ray::Ray;
use crate::rng::RandomSource;
use crate::vec3::{
    add_v, color_in_range, lemma_color_mul_range, lemma_scale_v_le, lemma_unit_product_range,
    scale_v, unit_v, Color, Vec3, V3,
};
use rayon::iter::{IntoParallelIterator, ParallelIterator};
use vstd::math::abs;
use vstd::prelude::*;

verus! {

/// How a render fails: a configuration the pixel mapping cannot use, or a
/// numerically degenerate value at one pixel, reported by its column and its
/// row from the top.
#[derive(Clone, Copy, Debug, PartialEq, Eq, Structural)]
pub enum RenderError {
    BadConfig,
    Degenerate { x: usize, y: usize },
}

/// Distance below which an intersection counts as the surface re-hitting
/// itself and is ignored (the shadow-acne guard): a thousandth of a unit.
pub const SHADOW_EPS: i64 = 1_000;

/// Largest accepted image dimension.
pub const MAX_DIM: usize = 100_000;

/// Largest accepted sample count per pixel.
pub const MAX_SAMPLES: u32 = 1_000_000;

/// The background: a vertical blend from white to sky blue on the normalized
/// direction's vertical component. The blend parameter is clamped into the
/// unit range, which absorbs the slack a fixed-point normalization can leave.
pub open spec fn background_v(unit_dir: V3) -> V3 {
    let t0 = div_trunc(unit_dir.y + SCALE, 2);
    let t = if t0 < 0 {
        0
    } else if t0 > SCALE {
        SCALE as int
    } else {
        t0
    };
    add_v(
        scale_v(SCALE - t, V3 { x: SCALE as int, y: SCALE as int, z: SCALE as int }),
        scale_v(t, V3 { x: 500_000, y: 700_000, z: 1_000_000 }),
    )
}

/// The background of a horizontal direction is the exact even blend of white
/// and sky blue.
pub proof fn lemma_horizontal_background(unit_dir: V3)
    requires
        unit_dir.y == 0,
    ensures
        background_v(unit_dir) == (V3 { x: 750_000, y: 850_000, z: 1_000_000 }),
{
    assert(div_trunc(SCALE as int, 2) == 500_000) by {
        assert((500_000int) * 2 == SCALE as int) by (nonlinear_arith)
            requires SCALE == 1_000_000i64;
        crate::fixed::lemma_div_trunc_exact(500_000, 2);
    }
    assert(scale_v(500_000, V3 { x: SCALE as int, y: SCALE as int, z: SCALE as int }) == (V3 {
        x: 500_000,
        y: 500_000,
        z: 500_000,
    })) by {
        assert(500_000 * (SCALE as int) == 500_000 * (SCALE as int));
        crate::fixed::lemma_div_trunc_exact(500_000, SCALE as int);
        assert(500_000int * 1_000_000 == 500_000int * (SCALE as int)) by (nonlinear_arith)
            requires SCALE == 1_000_000i64;
    }
    assert(scale_v(500_000, V3 { x: 500_000, y: 700_000, z: 1_000_000 }) == (V3 {
        x: 250_000,
        y: 350_000,
        z: 500_000,
    })) by {
        assert(500_000int * 500_000 == 250_000 * (SCALE as int) && 500_000int * 700_000 == 350_000
            * (SCALE as int) && 500_000int * 1_000_000 == 500_000 * (SCALE as int))
            by (nonlinear_arith)
            requires SCALE == 1_000_000i64;
        crate::fixed::lemma_div_trunc_exact(250_000, SCALE as int);
        crate::fixed::lemma_div_trunc_exact(350_000, SCALE as int);
        crate::fixed::lemma_div_trunc_exact(500_000, SCALE as int);
    }
}

/// The color seen along a ray: black once the bounce budget is spent; the
/// scattered color filtered by the attenuation at the closest hit; black when
/// the hit absorbs the ray; the background when nothing is hit. Returns
/// nothing when a computed value leaves the world limits, the fixed-point
/// analogue of a degenerate floating-point value.
pub fn ray_color(r: &Ray, world: &HittableList, rng: &mut RandomSource, depth: u64) -> (res:
    Option<Color>)
    requires
        wf_list(*world),
        ray_within_limits(r@),
    ensures
        res matches Some(c) ==> color_in_range(c@),
        depth == 0 ==> (res matches Some(c) && c@ == (V3 { x: 0, y: 0, z: 0 })),
        depth > 0 && spec_list_hit(world.objects@, r@, SHADOW_EPS as int, T_LIMIT as int) is None
            ==> (res matches Some(c) && c@ == background_v(unit_v(r@.direction))),
        (spec_list_hit(world.objects@, r@, SHADOW_EPS as int, T_LIMIT as int) matches Some(h)
            && h.material is Uninit) ==> (res matches Some(c) ==> c@ == (V3 { x: 0, y: 0, z: 0 })),
    decreases depth,
{
    if depth == 0 {
        return Some(Vec3::new(0, 0, 0));
    }
    match world.hit(r, SHADOW_EPS, T_LIMIT) {
        Some(rec) => {
            if !check_hit_within_limits(&rec) {
                return None;
            }
            match rec.material.scatter(r, &rec, rng) {
                Some((attenuation, scattered)) => {
                    if !check_ray_within_limits(&scattered) {
                        return None;
                    }
                    match ray_color(&scattered, world, rng, depth - 1) {
                        Some(c) => {
                            proof {
                                lemma_color_mul_range(attenuation@, c@);
                            }
                            Some(attenuation.comp_mul(&c))
                        },
                        None => None,
                    }
                },
                None => Some(Vec3::new(0, 0, 0)),
            }
        },
        None => {
            proof {
                lemma_direction_ok_fits(r@.direction);
            }
            let unit: Vec3 = r.direction().normalize();
            let t0: i64 = (unit.y + SCALE) / 2;
            let t: i64 = if t0 < 0 {
                0
            } else if t0 > SCALE {
                SCALE
            } else {
                t0
            };
            let white: Vec3 = Vec3::new(SCALE, SCALE, SCALE);
            let sky: Vec3 = Vec3::new(500_000, 700_000, 1_000_000);
            proof {
                assert(((SCALE - t) as int) * (SCALE as int) <= (SCALE as int) * (SCALE as int)
                    && (t as int) * (SCALE as int) <= (SCALE as int) * (SCALE as int))
                    by (nonlinear_arith)
                    requires 0 <= t as int <= SCALE as int && SCALE == 1_000_000i64;
                lemma_scale_v_le((SCALE - t) as int, white@, SCALE as int, SCALE as int,
                    SCALE as int);
                lemma_scale_v_le(t as int, sky@, SCALE as int, SCALE as int, SCALE as int);
                crate::fixed::lemma_div_trunc_exact((SCALE - t) as int, SCALE as int);
                assert(((SCALE - t) as int) * (SCALE as int) == (SCALE as int) * ((SCALE
                    - t) as int)) by (nonlinear_arith);
                lemma_unit_product_range(t as int, 500_000);
                lemma_unit_product_range(t as int, 700_000);
                lemma_unit_product_range(t as int, 1_000_000);
            }
            let wp: Vec3 = white.scale(SCALE - t);
            let sp: Vec3 = sky.scale(t);
            let c: Vec3 = wp.add(&sp);
            Some(c)
        },
    }
}

/// In-range conditions for the jittered image-plane coordinate
/// `(i + xi) / (dim - 1)`.
proof fn lemma_pixel_coord(i: int, dim: int, xi: int)
    requires
        2 <= dim <= MAX_DIM,
        0 <= i < dim,
        0 <= xi < SCALE,
    ensures
        0 < (dim - 1) * SCALE <= 100_000_000_000,
        0 <= i * SCALE + xi <= 100_000_000_000,
        fits(div_fx(i * SCALE + xi, (dim - 1) * SCALE)),
        0 <= div_fx(i * SCALE + xi, (dim - 1) * SCALE) <= 2 * SCALE,
{
    let num = i * SCALE + xi;
    let den = (dim - 1) * SCALE;
    assert(0 < den <= 100_000_000_000 && 0 <= num <= 100_000_000_000 && abs(num) * (SCALE as int)
        <= (2 * (SCALE as int)) * abs(den)) by (nonlinear_arith)
        requires
            2 <= dim <= 100_000int && 0 <= i < dim && 0 <= xi < SCALE as int && num == i * SCALE
                + xi && den == (dim - 1) * SCALE && SCALE == 1_000_000i64;
    lemma_div_fx_le(num, den, 2 * SCALE);
    lemma_div_trunc_sign(num * SCALE, den);
    assert(num * SCALE >= 0) by (nonlinear_arith)
        requires num >= 0 && SCALE == 1_000_000i64;
}

/// The color of one pixel: `samples` jittered camera rays, traced, averaged
/// and gamma-corrected. Whatever the draws, the result is the corrected
/// average of `samples` in-range colors; nothing is returned when a traced
/// value leaves the world limits.
pub fn pixel_color(
    world: &HittableList,
    cam: &Camera,
    i: usize,
    j: usize,
    width: usize,
    height: usize,
    samples: u32,
    depth: u64,
    rng: &mut RandomSource,
) -> (res: Option<Rgb>)
    requires
        wf_list(*world),
        wf_camera(*cam),
        2 <= width <= MAX_DIM,
        2 <= height <= MAX_DIM,
        i < width,
        j < height,
        1 <= samples <= MAX_SAMPLES,
    ensures
        res matches Some(px) ==> exists|cs: Seq<V3>|
            #![auto]
            {
                &&& cs.len() == samples
                &&& (forall|k: int| 0 <= k < cs.len() ==> color_in_range(#[trigger] cs[k]))
                &&& px.r as int == gamma_byte(sum_colors(cs).x, samples as int)
                &&& px.g as int == gamma_byte(sum_colors(cs).y, samples as int)
                &&& px.b as int == gamma_byte(sum_colors(cs).z, samples as int)
            },
{
    let mut sum: Vec3 = Vec3::new(0, 0, 0);
    let ghost mut cs: Seq<V3> = Seq::empty();
    let mut s: u32 = 0;
    while s < samples
        invariant
            wf_list(*world),
            wf_camera(*cam),
            2 <= width <= MAX_DIM,
            2 <= height <= MAX_DIM,
            i < width,
            j < height,
            1 <= samples <= MAX_SAMPLES,
            0 <= s <= samples,
            cs.len() == s,
            forall|k: int| 0 <= k < cs.len() ==> color_in_range(#[trigger] cs[k]),
            sum@ == sum_colors(cs),
            0 <= sum@.x <= (s as int) * SCALE,
            0 <= sum@.y <= (s as int) * SCALE,
            0 <= sum@.z <= (s as int) * SCALE,
        decreases samples - s,
    {
        let xi1: i64 = rng.next_in(0, SCALE);
        let xi2: i64 = rng.next_in(0, SCALE);
        proof {
            lemma_pixel_coord(i as int, width as int, xi1 as int);
            lemma_pixel_coord(j as int, height as int, xi2 as int);
        }
        let su: i64 = fx_div((i as i64) * SCALE + xi1, ((width - 1) as i64) * SCALE);
        let sv: i64 = fx_div((j as i64) * SCALE + xi2, ((height - 1) as i64) * SCALE);
        let ray: Ray = cam.get_ray(su, sv, rng);
        if !check_ray_within_limits(&ray) {
            return None;
        }
        match ray_color(&ray, world, rng, depth) {
            Some(c) => {
                proof {
                    assert(sum_colors(cs.push(c@)) == add_v(sum_colors(cs), c@)) by {
                        assert(cs.push(c@).drop_last() =~= cs);
                        assert(cs.push(c@).last() == c@);
                    }
                }
                sum = sum.add(&c);
                proof {
                    cs = cs.push(c@);
                }
            },
            None => {
                return None;
            },
        }
        s = s + 1;
    }
    let px: Rgb = color_to_bytes(&sum, samples);
    proof {
        assert(cs.len() == samples && px.r as int == gamma_byte(sum_colors(cs).x, samples as int)
            && px.g as int == gamma_byte(sum_colors(cs).y, samples as int) && px.b as int
            == gamma_byte(sum_colors(cs).z, samples as int));
    }
    Some(px)
}

/// One row of the image, rendered left to right with the row's own seeded
/// generator. `row` counts from the top of the image.
pub fn render_row(
    world: &HittableList,
    cam: &Camera,
    row: usize,
    width: usize,
    height: usize,
    samples: u32,
    depth: u64,
    base_seed: u64,
) -> (res: Result<Vec<Rgb>, RenderError>)
    requires
        wf_list(*world),
        wf_camera(*cam),
        2 <= width <= MAX_DIM,
        2 <= height <= MAX_DIM,
        row < height,
        1 <= samples <= MAX_SAMPLES,
    ensures
        res matches Ok(px_row) ==> px_row@.len() == width as int,
        res matches Err(e) ==> (e matches RenderError::Degenerate { x, y } && x < width && y
            == row),
{
    let mut rng: RandomSource = RandomSource::from_seed(base_seed.wrapping_add(row as u64));
    let j: usize = height - 1 - row;
    let mut out: Vec<Rgb> = Vec::new();
    let mut i: usize = 0;
    while i < width
        invariant
            wf_list(*world),
            wf_camera(*cam),
            2 <= width <= MAX_DIM,
            2 <= height <= MAX_DIM,
            row < height,
            j < height,
            1 <= samples <= MAX_SAMPLES,
            0 <= i <= width,
            out@.len() == i,
        decreases width - i,
    {
        match pixel_color(world, cam, i, j, width, height, samples, depth, &mut rng) {
            Some(px) => {
                out.push(px);
            },
            None => {
                return Err(RenderError::Degenerate { x: i, y: row });
            },
        }
        i = i + 1;
    }
    Ok(out)
}

/// Renders the image row by row on the calling thread: `width * height`
/// pixels in row-major order, top row first. Fails on a configuration the
/// pixel mapping cannot use, or at the first numerically degenerate pixel,
/// which the error names.
pub fn render(
    world: &HittableList,
    cam: &Camera,
    image_width: usize,
    image_height: usize,
    samples_per_pixel: u32,
    max_depth: u64,
    base_seed: u64,
) -> (res: Result<Vec<Rgb>, RenderError>)
    requires
        wf_list(*world),
        wf_camera(*cam),
        image_width <= MAX_DIM,
        image_height <= MAX_DIM,
        samples_per_pixel <= MAX_SAMPLES,
    ensures
        (image_width < 2 || image_height < 2 || samples_per_pixel == 0) <==> res == Err::<
            Vec<Rgb>,
            RenderError,
        >(RenderError::BadConfig),
        res matches Ok(px) ==> px@.len() == (image_width as int) * (image_height as int),
        res matches Err(e) ==> (e is BadConfig || (e matches RenderError::Degenerate { x, y } && x
            < image_width && y < image_height)),
{
    if image_width < 2 || image_height < 2 || samples_per_pixel == 0 {
        return Err(RenderError::BadConfig);
    }
    let mut pixels: Vec<Rgb> = Vec::new();
    let mut row: usize = 0;
    while row < image_height
        invariant
            wf_list(*world),
            wf_camera(*cam),
            2 <= image_width <= MAX_DIM,
            2 <= image_height <= MAX_DIM,
            1 <= samples_per_pixel <= MAX_SAMPLES,
            0 <= row <= image_height,
            pixels@.len() == (row as int) * (image_width as int),
        decreases image_height - row,
    {
        match render_row(
            world,
            cam,
            row,
            image_width,
            image_height,
            samples_per_pixel,
            max_depth,
            base_seed,
        ) {
            Ok(mut px_row) => {
                pixels.append(&mut px_row);
            },
            Err(e) => {
                return Err(e);
            },
        }
        proof {
            assert((row as int + 1) * (image_width as int) == (row as int) * (image_width as int)
                + (image_width as int)) by (nonlinear_arith);
        }
        row = row + 1;
    }
    proof {
        assert((image_height as int) * (image_width as int) == (image_width as int) * (
        image_height as int)) by (nonlinear_arith);
    }
    Ok(pixels)
}

/// Relies on rayon's `into_par_iter().map(..).collect()` over the row range:
/// the collected vector has one entry per row index, in index order, and each
/// entry is exactly what `render_row` returned for that index — so each entry
/// satisfies `render_row`'s postcondition for its row.
#[verifier::external_body]
fn par_rows(
    world: &HittableList,
    cam: &Camera,
    image_width: usize,
    image_height: usize,
    samples_per_pixel: u32,
    max_depth: u64,
    base_seed: u64,
) -> (rows: Vec<Result<Vec<Rgb>, RenderError>>)
    requires
        wf_list(*world),
        wf_camera(*cam),
        2 <= image_width <= MAX_DIM,
        2 <= image_height <= MAX_DIM,
        1 <= samples_per_pixel <= MAX_SAMPLES,
    ensures
        rows@.len() == image_height as int,
        forall|k: int|
            0 <= k < rows@.len() ==> ((#[trigger] rows@[k]) matches Ok(px_row) ==> px_row@.len()
                == image_width as int),
        forall|k: int|
            0 <= k < rows@.len() ==> ((#[trigger] rows@[k]) matches Err(e) ==> (
            e matches RenderError::Degenerate { x, y } && x < image_width && y < image_height)),
{
    (0..image_height)
        .into_par_iter()
        .map(
            |row| render_row(world, cam, row, image_width, image_height, samples_per_pixel,
                max_depth, base_seed),
        )
        .collect()
}

/// Renders the image with rows distributed across a worker pool: the same
/// row-major, top-to-bottom output as [`render`], whatever order the workers
/// finish in. Each row draws from its own seeded generator, so no generator
/// state is shared between threads.
pub fn render_parallel(
    world: &HittableList,
    cam: &Camera,
    image_width: usize,
    image_height: usize,
    samples_per_pixel: u32,
    max_depth: u64,
    base_seed: u64,
) -> (res: Result<Vec<Rgb>, RenderError>)
    requires
        wf_list(*world),
        wf_camera(*cam),
        image_width <= MAX_DIM,
        image_height <= MAX_DIM,
        samples_per_pixel <= MAX_SAMPLES,
    ensures
        (image_width < 2 || image_height < 2 || samples_per_pixel == 0) <==> res == Err::<
            Vec<Rgb>,
            RenderError,
        >(RenderError::BadConfig),
        res matches Ok(px) ==> px@.len() == (image_width as int) * (image_height as int),
        res matches Err(e) ==> (e is BadConfig || (e matches RenderError::Degenerate { x, y } && x
            < image_width && y < image_height)),
{
    if image_width < 2 || image_height < 2 || samples_per_pixel == 0 {
        return Err(RenderError::BadConfig);
    }
    let rows: Vec<Result<Vec<Rgb>, RenderError>> = par_rows(
        world,
        cam,
        image_width,
        image_height,
        samples_per_pixel,
        max_depth,
        base_seed,
    );
    let mut pixels: Vec<Rgb> = Vec::new();
    let mut k: usize = 0;
    while k < image_height
        invariant
            rows@.len() == image_height as int,
            forall|m: int|
                0 <= m < rows@.len() ==> ((#[trigger] rows@[m]) matches Ok(px_row)
                    ==> px_row@.len() == image_width as int),
            forall|m: int|
                0 <= m < rows@.len() ==> ((#[trigger] rows@[m]) matches Err(e) ==> (
                e matches RenderError::Degenerate { x, y } && x < image_width && y
                    < image_height)),
            2 <= image_width <= MAX_DIM,
            2 <= image_height <= MAX_DIM,
            1 <= samples_per_pixel <= MAX_SAMPLES,
            0 <= k <= image_height,
            pixels@.len() == (k as int) * (image_width as int),
        decreases image_height - k,
    {
        match &rows[k] {
            Ok(px_row) => {
                let mut idx: usize = 0;
                while idx < px_row.len()
                    invariant
                        px_row@.len() == image_width as int,
                        0 <= idx <= px_row@.len(),
                        pixels@.len() == (k as int) * (image_width as int) + idx,
                    decreases px_row@.len() - idx,
                {
                    pixels.push(px_row[idx]);
                    idx = idx + 1;
                }
            },
            Err(e) => {
                proof {
                    assert(*e matches RenderError::Degenerate { x, y } && x < image_width && y
                        < image_height);
                }
                return Err(*e);
            },
        }
        proof {
            assert((k as int + 1) * (image_width as int) == (k as int) * (image_width as int) + (
            image_width as int)) by (nonlinear_arith);
        }
        k = k + 1;
    }
    proof {
        assert((image_height as int) * (image_width as int) == (image_width as int) * (
        image_height as int)) by (nonlinear_arith);
    }
    Ok(pixels)
}

} // verus!
