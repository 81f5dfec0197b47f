//! A verified procedural UV-sphere mesh generator.
//!
//! The library computes, for a latitude/longitude grid given by `stacks` and
//! `sectors` and a radius, an interleaved vertex buffer (position and
//! outward normal per vertex) and a triangle index buffer ready for indexed
//! rendering. Floating-point values travel as `u32` bit patterns so that
//! the whole mesh is a proved function of the inputs.

pub mod fbits;
pub mod sphere;

pub use sphere::{generate_sphere, generate_indices, SphereError};
