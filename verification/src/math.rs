//! Integer vectors: positions of chunks and of blocks.

use vstd::prelude::*;

verus! {

/// Three `i32` components: a position in the world, in blocks, or a position
/// on the chunk grid, in chunks.
#[derive(Clone, Copy, Debug, PartialEq, Eq, Hash, Structural)]
pub struct IVec3 {
    pub x: i32,
    pub y: i32,
    pub z: i32,
}

impl IVec3 {
    pub fn new(x: i32, y: i32, z: i32) -> (v: Self)
        ensures
            v.x == x,
            v.y == y,
            v.z == z,
    {
        IVec3 { x, y, z }
    }

    /// The vector whose three components all are `v`.
    pub fn splat(v: i32) -> (s: Self)
        ensures
            s.x == v,
            s.y == v,
            s.z == v,
    {
        IVec3 { x: v, y: v, z: v }
    }
}

/// Three `i16` components: the position of a block inside its chunk.
#[derive(Clone, Copy, Debug, PartialEq, Eq, Hash, Structural)]
pub struct I16Vec3 {
    pub x: i16,
    pub y: i16,
    pub z: i16,
}

impl I16Vec3 {
    pub fn new(x: i16, y: i16, z: i16) -> (v: Self)
        ensures
            v.x == x,
            v.y == y,
            v.z == z,
    {
        I16Vec3 { x, y, z }
    }

    /// The vector whose three components all are `v`.
    pub fn splat(v: i16) -> (s: Self)
        ensures
            s.x == v,
            s.y == v,
            s.z == v,
    {
        I16Vec3 { x: v, y: v, z: v }
    }
}

} // verus!
