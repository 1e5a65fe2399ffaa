//! Color output: the per-pixel sample sum is divided by the sample count,
//! gamma-2 corrected by a square root, and scaled to integer channels.

use crate::fixed::{fx_sqrt, is_sqrt_of, sqrt_fx, SCALE};
use crate::vec3::{add_v, color_in_range, Color, V3};
use vstd::arithmetic::div_mod::{
    lemma_div_is_ordered, lemma_div_multiples_vanish, lemma_div_pos_is_pos,
};
use vstd::prelude::*;

verus! {

/// One output pixel: three gamma-corrected channels.
#[derive(Clone, Copy, Debug, PartialEq, Eq, Structural)]
pub struct Rgb {
    pub r: u8,
    pub g: u8,
    pub b: u8,
}

/// The exact component-wise sum of a sequence of colors.
pub open spec fn sum_colors(cs: Seq<V3>) -> V3
    decreases cs.len(),
{
    if cs.len() == 0 {
        V3 { x: 0, y: 0, z: 0 }
    } else {
        add_v(sum_colors(cs.drop_last()), cs.last())
    }
}

/// One channel of the gamma-corrected average: the summed channel divided by
/// the sample count, its fixed-point square root (gamma 2), scaled to the
/// byte range and clamped at the top.
pub open spec fn gamma_byte(channel: int, samples: int) -> int {
    let avg = channel / samples;
    let g = sqrt_fx(avg);
    let scaled = (g * 255_999) / 1_000_000_000;
    if scaled > 255 {
        255
    } else {
        scaled
    }
}

/// One channel, executable.
fn channel_byte(c: i64, samples: u32) -> (b: u8)
    requires
        1 <= samples,
        0 <= c <= (samples as int) * SCALE,
    ensures
        b as int == gamma_byte(c as int, samples as int),
{
    let n: i64 = samples as i64;
    proof {
        lemma_div_pos_is_pos(c as int, n as int);
        lemma_div_multiples_vanish(SCALE as int, n as int);
        assert((samples as int) * (SCALE as int) == (n as int) * (SCALE as int))
            by (nonlinear_arith)
            requires n as int == samples as int;
        lemma_div_is_ordered(c as int, (n as int) * (SCALE as int), n as int);
    }
    let avg: i64 = c / n;
    let g: i64 = fx_sqrt(avg);
    proof {
        assert(g as int <= SCALE as int) by (nonlinear_arith)
            requires
                is_sqrt_of((avg as int) * (SCALE as int), g as int) && 0 <= avg as int
                    <= SCALE as int && SCALE == 1_000_000i64;
        lemma_div_pos_is_pos((g as int) * 255_999, 1_000_000_000int);
    }
    let scaled: i64 = (g * 255_999) / 1_000_000_000;
    let bb: i64 = if scaled > 255 {
        255
    } else {
        scaled
    };
    bb as u8
}

/// The gamma-corrected average of `samples` summed colors, as bytes.
pub fn color_to_bytes(sum: &Color, samples: u32) -> (px: Rgb)
    requires
        1 <= samples,
        0 <= sum@.x <= (samples as int) * SCALE,
        0 <= sum@.y <= (samples as int) * SCALE,
        0 <= sum@.z <= (samples as int) * SCALE,
    ensures
        px.r as int == gamma_byte(sum@.x, samples as int),
        px.g as int == gamma_byte(sum@.y, samples as int),
        px.b as int == gamma_byte(sum@.z, samples as int),
{
    Rgb {
        r: channel_byte(sum.x, samples),
        g: channel_byte(sum.y, samples),
        b: channel_byte(sum.z, samples),
    }
}

} // verus!
