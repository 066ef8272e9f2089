//! Deterministic fixed-point animation core for a creature made of a body and
//! radiating multi-segment limbs.
//!
//! Each limb owns one oscillator: a frequency smoother (exponential glide from
//! a current towards a target frequency), a phase accumulator kept in `[0, 1)`
//! of a cycle, and a waveform sampler. A per-segment flex policy maps a
//! segment's position along its chain to a multiplier on the sampled angle,
//! which produces the wave-like, tapering motion of the whole chain.
//!
//! All quantities are fixed-point integers in millionths of their unit
//! (`SCALE` millionths equal one hertz, one second, one cycle, or one radian),
//! so every result is exact and every contract below is provable.

pub mod creature;
pub mod fixed;
pub mod limb;
pub mod oscillator;
