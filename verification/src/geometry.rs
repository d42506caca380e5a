//! Integer vectors and rectangles in which sprites are placed and atlas
//! regions are measured.
//!
//! The types have the layout of the vectors of `int_math`: signed 16-bit
//! coordinates for positions, unsigned 16-bit coordinates for sizes and atlas
//! texels.

use vstd::prelude::*;
use vstd::std_specs::convert::FromSpecImpl;

verus! {

/// A size or an atlas position, in whole texels.
#[derive(Debug, Clone, Copy, PartialEq, Eq, Structural)]
pub struct UVec2 {
    pub x: u16,
    pub y: u16,
}

impl UVec2 {
    pub fn new(x: u16, y: u16) -> (v: Self)
        ensures
            v == (UVec2 { x, y }),
    {
        UVec2 { x, y }
    }
}

/// A position on the screen plane.
#[derive(Debug, Clone, Copy, PartialEq, Eq, Structural)]
pub struct Vec2 {
    pub x: i16,
    pub y: i16,
}

impl Vec2 {
    pub fn new(x: i16, y: i16) -> (v: Self)
        ensures
            v == (Vec2 { x, y }),
    {
        Vec2 { x, y }
    }
}

/// A position on the screen plane together with a depth `z`.
#[derive(Debug, Clone, Copy, PartialEq, Eq, Structural)]
pub struct Vec3 {
    pub x: i16,
    pub y: i16,
    pub z: i16,
}

impl Vec3 {
    pub fn new(x: i16, y: i16, z: i16) -> (v: Self)
        ensures
            v == (Vec3 { x, y, z }),
    {
        Vec3 { x, y, z }
    }
}

/// The 3D position of a point of the plane: the same `x` and `y`, at depth 0.
pub open spec fn at_depth_zero(v: Vec2) -> Vec3 {
    Vec3 { x: v.x, y: v.y, z: 0 }
}

/// `int_math`'s `Vec3::from(Vec2)`, on bare coordinates.
///
/// Trusted: the conversion copies `x` and `y` and sets `z` to 0, as the
/// body of `impl From<Vec2> for Vec3` in `int_math` reads.
#[verifier::external_body]
fn lift_coordinates(x: i16, y: i16) -> (r: (i16, i16, i16))
    ensures
        r == (x, y, 0i16),
{
    let lifted = int_math::Vec3::from(int_math::Vec2::new(x, y));
    (lifted.x, lifted.y, lifted.z)
}

impl From<Vec2> for Vec3 {
    fn from(v: Vec2) -> (r: Vec3) {
        let (x, y, z) = lift_coordinates(v.x, v.y);
        Vec3 { x, y, z }
    }
}

impl FromSpecImpl<Vec2> for Vec3 {
    open spec fn obeys_from_spec() -> bool {
        true
    }

    open spec fn from_spec(v: Vec2) -> Vec3 {
        at_depth_zero(v)
    }
}

/// A rectangle of an atlas texture: the texel at its lower left corner and
/// its size.
#[derive(Debug, Clone, Copy, PartialEq, Eq, Structural)]
pub struct URect {
    pub position: UVec2,
    pub size: UVec2,
}

impl URect {
    pub fn new(x: u16, y: u16, width: u16, height: u16) -> (r: Self)
        ensures
            r == (URect { position: UVec2 { x, y }, size: UVec2 { x: width, y: height } }),
    {
        URect { position: UVec2 { x, y }, size: UVec2 { x: width, y: height } }
    }

    /// The first column to the right of the rectangle.
    pub open spec fn right(self) -> int {
        self.position.x + self.size.x
    }

    /// The first row above the rectangle.
    pub open spec fn top(self) -> int {
        self.position.y + self.size.y
    }

    /// Whether the far corner of the rectangle is still a 16-bit texel
    /// coordinate.
    pub open spec fn in_atlas_range(self) -> bool {
        self.right() <= u16::MAX && self.top() <= u16::MAX
    }

    /// Decides `in_atlas_range`.
    pub fn is_in_atlas_range(&self) -> (fits: bool)
        ensures
            fits == self.in_atlas_range(),
    {
        self.position.x <= u16::MAX - self.size.x && self.position.y <= u16::MAX - self.size.y
    }
}

} // verus!
