//! Small vectors. Every component is the bit pattern of an IEEE 754 single.

use vstd::prelude::*;

verus! {

/// Two singles, by their bits.
#[derive(Debug, Clone, Copy, PartialEq, Eq, Structural)]
pub struct Vec2 {
    pub x: u32,
    pub y: u32,
}

/// Three singles, by their bits.
#[derive(Debug, Clone, Copy, PartialEq, Eq, Structural)]
pub struct Vec3 {
    pub x: u32,
    pub y: u32,
    pub z: u32,
}

/// Four singles, by their bits.
#[derive(Debug, Clone, Copy, PartialEq, Eq, Structural)]
pub struct Vec4 {
    pub x: u32,
    pub y: u32,
    pub z: u32,
    pub w: u32,
}

impl Vec2 {
    pub fn new(x: u32, y: u32) -> (v: Self)
        ensures
            v == (Vec2 { x, y }),
    {
        Vec2 { x, y }
    }
}

impl Vec3 {
    pub fn new(x: u32, y: u32, z: u32) -> (v: Self)
        ensures
            v == (Vec3 { x, y, z }),
    {
        Vec3 { x, y, z }
    }
}

impl Vec4 {
    pub fn new(x: u32, y: u32, z: u32, w: u32) -> (v: Self)
        ensures
            v == (Vec4 { x, y, z, w }),
    {
        Vec4 { x, y, z, w }
    }
}

} // verus!
