use vstd::prelude::*;

verus! {

/// Identifier of one polygon inside one tile; zero means "no polygon".
pub type PolyRef = u32;

/// The null polygon reference.
pub const NULL_POLY: PolyRef = 0;

/// Status word of the mesh-query engine for a call that fully succeeded.
pub const STATUS_SUCCESS: u32 = 0x4000_0000;

/// Bit pattern of the largest finite single-precision value, which the
/// engine uses as a "nothing found" distance.
pub const F32_MAX_BITS: u32 = 0x7f7f_ffff;

/// Bit pattern of single-precision 1.0.
pub const F32_ONE_BITS: u32 = 0x3f80_0000;

/// A point or direction in space; each coordinate is the bit pattern of a
/// single-precision float.
#[derive(Clone, Copy, Debug, PartialEq, Eq, Structural)]
pub struct Vec3 {
    pub x: u32,
    pub y: u32,
    pub z: u32,
}

/// The coordinate-space origin, (+0, +0, +0).
pub open spec fn origin() -> Vec3 {
    Vec3 { x: 0, y: 0, z: 0 }
}

impl Vec3 {
    pub fn origin() -> (r: Vec3)
        ensures
            r == origin(),
    {
        Vec3 { x: 0, y: 0, z: 0 }
    }

    pub fn new(x: u32, y: u32, z: u32) -> (r: Vec3)
        ensures
            r == (Vec3 { x, y, z }),
    {
        Vec3 { x, y, z }
    }

    /// The same point with its height (the y coordinate) replaced.
    pub fn with_height(self, y: u32) -> (r: Vec3)
        ensures
            r == (Vec3 { x: self.x, y, z: self.z }),
    {
        Vec3 { x: self.x, y, z: self.z }
    }
}

/// Whether the bit pattern encodes a NaN.
pub open spec fn is_nan_bits(b: u32) -> bool {
    (b & 0x7f80_0000u32) == 0x7f80_0000u32 && (b & 0x007f_ffffu32) != 0
}

/// Whether the bit pattern encodes +0 or -0.
pub open spec fn is_zero_bits(b: u32) -> bool {
    (b & 0x7fff_ffffu32) == 0
}

/// IEEE-754 equality of two single-precision values given by their bits:
/// NaN equals nothing, the two zeros are equal, otherwise equal values have
/// equal bits.
pub open spec fn f32_eq(a: u32, b: u32) -> bool {
    !is_nan_bits(a) && !is_nan_bits(b) && (a == b || (is_zero_bits(a) && is_zero_bits(b)))
}

/// Compares two single-precision values, given by their bits, as `==` on
/// `f32` does.
pub fn same_f32(a: u32, b: u32) -> (r: bool)
    ensures
        r == f32_eq(a, b),
{
    let a_nan = (a & 0x7f80_0000u32) == 0x7f80_0000u32 && (a & 0x007f_ffffu32) != 0;
    let b_nan = (b & 0x7f80_0000u32) == 0x7f80_0000u32 && (b & 0x007f_ffffu32) != 0;
    if a_nan || b_nan {
        false
    } else {
        a == b || ((a & 0x7fff_ffffu32) == 0 && (b & 0x7fff_ffffu32) == 0)
    }
}

} // verus!
