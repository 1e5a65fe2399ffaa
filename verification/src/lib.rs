//! A Monte Carlo path tracer over exact fixed-point arithmetic.
//!
//! Scenes of spheres with diffuse, metallic and dielectric surfaces are
//! rendered by recursive ray sampling: a camera ray per jittered pixel sample,
//! the closest intersection, a material scatter, and a bounded recursion, with
//! the per-pixel average gamma-corrected into byte channels.
//!
//! All geometric and color quantities are `i64` values in units of one
//! millionth (the constant [`fixed::SCALE`]): the value `1_500_000` stands for
//! 1.5. Every arithmetic step is proved free of overflow under documented
//! world limits (see [`hittable`]), and the rounding of each operation is
//! stated exactly in its contract, so the geometry's spec functions mirror the
//! computation to the last unit. Where a computed value cannot be proved to
//! stay within the world limits — the fixed-point counterpart of a degenerate
//! floating-point value — the tracer checks it at run time and fails the
//! render fast, naming the pixel, rather than letting the value propagate.
//!
//! Randomness is never ambient: every sampling function draws from a
//! [`rng::RandomSource`] owned by its caller, one per worker, and is verified
//! for every value a draw may take.

pub mod camera;
pub mod color;
pub mod fixed;
pub mod hittable;
pub mod hittable_list;
pub mod material;
pub mod ray;
pub mod rng;
pub mod sphere;
pub mod tracer;
pub mod vec3;

pub use fixed::SCALE;
