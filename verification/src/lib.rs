//! A voxel world cut into cubic chunks.
//!
//! Terrain is generated chunk by chunk from a density test and cached while
//! it is in use ([`world`]). The visible surface of a chunk is found face by
//! face, with the neighbouring chunks consulted at the boundary
//! ([`surface`]), merged layer by layer into as few rectangles as a greedy
//! scan finds ([`greedy`]), and laid out as a triangle mesh ([`mesh`]). A
//! chunk keeps the buffers that the rendering backend made of its mesh
//! ([`chunk`]). A region is a cuboid of chunks that is fetched, drawn and
//! given back as one ([`region`]).
//!
//! The library computes with integers only. Colours are opaque codes, and
//! positions are in blocks; what a renderer makes of them is its own affair.

pub mod catalog;
pub mod chunk;
pub mod direction;
pub mod error;
pub mod greedy;
pub mod grid;
pub mod mesh;
pub mod region;
pub mod surface;
pub mod world;

use vstd::prelude::*;

verus! {

/// Side length of a chunk, in blocks.
pub const CHUNK_SIZE: usize = 32;

/// Number of cells in one layer of a chunk.
pub const SLICE_AREA: usize = 1024;

} // verus!
