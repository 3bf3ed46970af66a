//! The decisions of a progressive Monte Carlo path tracer of spheres, apart
//! from its floating-point geometry: which intersection along a ray is the
//! nearest, when a bounced path ends, the frame of per-pixel sums, and the
//! order in which pixels are sampled and frames presented.
//!
//! Distances along a ray are handed in as `u32` keys that order as the
//! distances do.

pub mod frame;
pub mod nearest;
pub mod schedule;
pub mod trace;
