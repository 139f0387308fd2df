//! A voxel world: chunks of blocks on a sparse grid, the surface mesh of each
//! chunk, the texture atlas that the mesh refers to, and the bookkeeping that
//! carries a chunk from generation to eviction as a viewpoint moves.

pub mod atlas;
pub mod block;
pub mod chunk;
pub mod coord_map;
pub mod grid;
pub mod identifier;
pub mod level;
pub mod lifecycle;
pub mod math;
pub mod mesh;
