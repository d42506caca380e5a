//! Sprites as they are queued for one frame, and the order in which a frame
//! draws them.

use vstd::prelude::*;
use crate::geometry::{URect, UVec2, Vec2, Vec3};

verus! {

/// Per-sprite drawing options.
#[derive(Debug, Clone, Copy, PartialEq, Eq)]
pub struct SpriteParams {
    pub dest_size: Option<UVec2>,
    pub source: Option<URect>,
    pub rotation: u16,
    pub flip_x: bool,
    pub flip_y: bool,
    pub pivot: Option<Vec2>,
}

impl Default for SpriteParams {
    fn default() -> (params: Self)
        ensures
            params == (SpriteParams {
                dest_size: None,
                source: None,
                rotation: 0,
                flip_x: false,
                flip_y: false,
                pivot: None,
            }),
    {
        SpriteParams {
            dest_size: None,
            source: None,
            rotation: 0,
            flip_x: false,
            flip_y: false,
            pivot: None,
        }
    }
}

/// What a sprite is drawn with: a texture-and-sampler bind group and the
/// pipeline that reads it, each named by the handle under which the GPU side
/// keeps the object. Two materials are the same when both handles agree.
#[derive(Debug, Clone, Copy, PartialEq, Eq, Structural)]
pub struct SpriteMaterial {
    pub bind_group: usize,
    pub render_pipeline: usize,
}

/// One queued sprite.
#[derive(Debug, Clone, Copy, PartialEq, Eq)]
pub struct Sprite {
    pub position: Vec3,
    pub atlas_rect: URect,
    pub material: SpriteMaterial,
    pub params: SpriteParams,
}

impl Sprite {
    /// Whether the sprite lies at depth `z` in row `y`.
    pub open spec fn at(self, z: int, y: int) -> bool {
        self.position.z == z && self.position.y == y
    }

    /// Whether `self` may be drawn before `other`: it lies at a smaller depth,
    /// or at the same depth in a row that is not higher.
    pub open spec fn draws_no_later_than(self, other: Sprite) -> bool {
        self.position.z < other.position.z || (self.position.z == other.position.z
            && self.position.y <= other.position.y)
    }

    /// Decides `draws_no_later_than`.
    pub fn is_drawn_no_later_than(&self, other: &Sprite) -> (r: bool)
        ensures
            r == self.draws_no_later_than(*other),
    {
        self.position.z < other.position.z || (self.position.z == other.position.z
            && self.position.y <= other.position.y)
    }
}

/// Whether each sprite of `sprites` may be drawn before all that follow it.
pub open spec fn in_draw_order(sprites: Seq<Sprite>) -> bool {
    forall|i: int, j: int|
        0 <= i < j < sprites.len() ==> (#[trigger] sprites[i]).draws_no_later_than(
            #[trigger] sprites[j],
        )
}

/// The sprites of `sprites` that lie at depth `z` in row `y`, in the order in
/// which they stand in `sprites`.
pub open spec fn sprites_at(sprites: Seq<Sprite>, z: int, y: int) -> Seq<Sprite>
    decreases sprites.len(),
{
    if sprites.len() == 0 {
        Seq::empty()
    } else if sprites.last().at(z, y) {
        sprites_at(sprites.drop_last(), z, y).push(sprites.last())
    } else {
        sprites_at(sprites.drop_last(), z, y)
    }
}

} // verus!
