//! Fast-marching image inpainting.
//!
//! Given a row-major 8-bit RGB pixel buffer and a mask marking a region of
//! "unknown" pixels, the painter reconstructs the unknown pixels from the
//! surrounding known ones by propagating a frontier inward in order of a
//! fixed-point "arrival time", and an edge-aware smoother then re-blends the
//! reconstructed region.
//!
//! All arrival times and blend weights are unsigned fixed-point integers, so
//! every step of the propagation is deterministic and fully verified.
#![verifier::loop_isolation(false)]

pub mod bitmask;
pub mod fixed;
pub mod front;
pub mod inpaint;
pub mod laws;
pub mod painter;
pub mod smoother;
pub mod solver;
