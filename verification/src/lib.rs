//! A small 2D rigid-body playground: a handle-indexed set of falling balls
//! advanced by a fixed integer timestep, rasterized on demand into a voxel
//! volume and serialized to a binary interchange layout.
//!
//! All simulation quantities are fixed-point integers in milli-units
//! (1000 milli-units per world unit), so every state transition is an exact
//! function of the previous state.

use vstd::prelude::*;

pub mod world;
pub mod render;
pub mod voxel;
pub mod codec;
pub mod encode;

verus! {

/// Errors surfaced by the simulation core.
#[derive(Clone, Copy, PartialEq, Eq, Structural, Debug)]
pub enum SimError {
    /// A lookup used a handle that no live body carries.
    InvalidHandle,
    /// The scene serializer was handed a degenerate or oversized volume.
    EncodingError,
}

} // verus!
