//! The draw commands of one frame.
//!
//! A frame is drawn as a list of commands for a render pass. The list is made
//! here, from the batches of the frame; the GPU side carries it out command
//! by command.

use vstd::prelude::*;
use crate::batch::batch_views;
use crate::geometry::{UVec2, Vec2};
use crate::sprite::Sprite;

verus! {

/// The corners of the quad that every sprite is drawn with, as two triangles.
pub const INDICES: [u16; 6] = [0, 1, 2, 0, 2, 3];

/// The number of indices in `INDICES`.
pub const INDEX_COUNT: u32 = 6;

/// The bind group slot of the per-sprite uniform.
pub const UNIFORM_GROUP: u32 = 0;

/// The bind group slot of a material's texture and sampler.
pub const MATERIAL_GROUP: u32 = 1;

/// The vertex buffer slot of the quad.
pub const QUAD_SLOT: u32 = 0;

/// What the vertex stage is told about one sprite: where the unit quad is
/// moved to and how far it is stretched, and the corners of the atlas
/// rectangle that is mapped onto it.
#[derive(Debug, Clone, Copy, PartialEq, Eq, Structural)]
pub struct SpriteUniform {
    pub translation: Vec2,
    pub scale: UVec2,
    pub tex_min: UVec2,
    pub tex_max: UVec2,
}

impl SpriteUniform {
    pub fn new(translation: Vec2, scale: UVec2, tex_min: UVec2, tex_max: UVec2) -> (uniform: Self)
        ensures
            uniform == (SpriteUniform { translation, scale, tex_min, tex_max }),
    {
        SpriteUniform { translation, scale, tex_min, tex_max }
    }

    /// The uniform of a sprite: the quad goes to the sprite's `x` and `y` and
    /// takes the size of its atlas rectangle, whose corners are the texture
    /// coordinates. Depth plays no part in it.
    pub open spec fn of(sprite: Sprite) -> SpriteUniform {
        SpriteUniform {
            translation: Vec2 { x: sprite.position.x, y: sprite.position.y },
            scale: sprite.atlas_rect.size,
            tex_min: sprite.atlas_rect.position,
            tex_max: UVec2 {
                x: sprite.atlas_rect.right() as u16,
                y: sprite.atlas_rect.top() as u16,
            },
        }
    }

    /// Computes `SpriteUniform::of`.
    pub fn for_sprite(sprite: &Sprite) -> (uniform: Self)
        requires
            sprite.atlas_rect.in_atlas_range(),
        ensures
            uniform == Self::of(*sprite),
    {
        let atlas = sprite.atlas_rect;
        SpriteUniform {
            translation: Vec2 { x: sprite.position.x, y: sprite.position.y },
            scale: atlas.size,
            tex_min: atlas.position,
            tex_max: UVec2 { x: atlas.position.x + atlas.size.x, y: atlas.position.y + atlas.size.y },
        }
    }
}

/// One command of a render pass.
#[derive(Debug, Clone, Copy, PartialEq, Eq, Structural)]
pub enum DrawCommand {
    /// Select the render pipeline with this handle.
    SetPipeline { pipeline: usize },
    /// Bind the whole index buffer of the quad, with 16-bit indices.
    SetIndexBuffer,
    /// Bind the whole vertex buffer of the quad to a slot.
    SetVertexBuffer { slot: u32 },
    /// Bind the texture and sampler of a material to a bind group slot.
    SetMaterial { group: u32, bind_group: usize },
    /// Overwrite the uniform buffer, from its start, with this uniform.
    WriteUniform { uniform: SpriteUniform },
    /// Bind the uniform buffer to a bind group slot.
    SetUniform { group: u32 },
    /// Draw one instance of the quad: indices `0..index_count` from vertex 0.
    DrawIndexed { index_count: u32 },
}

/// The commands that every frame starts with.
pub open spec fn frame_setup(pipeline: usize) -> Seq<DrawCommand> {
    seq![
        DrawCommand::SetPipeline { pipeline },
        DrawCommand::SetIndexBuffer,
        DrawCommand::SetVertexBuffer { slot: QUAD_SLOT },
    ]
}

/// The commands that draw one sprite once its material is bound.
pub open spec fn sprite_commands(sprite: Sprite) -> Seq<DrawCommand> {
    seq![
        DrawCommand::WriteUniform { uniform: SpriteUniform::of(sprite) },
        DrawCommand::SetUniform { group: UNIFORM_GROUP },
        DrawCommand::DrawIndexed { index_count: INDEX_COUNT },
    ]
}

/// The commands that draw `sprites`, one after the other, with the material
/// that is bound.
pub open spec fn run_commands(sprites: Seq<Sprite>) -> Seq<DrawCommand>
    decreases sprites.len(),
{
    if sprites.len() == 0 {
        Seq::empty()
    } else {
        run_commands(sprites.drop_last()) + sprite_commands(sprites.last())
    }
}

/// The command that binds the material of a batch, that of its first sprite.
/// An empty batch binds nothing.
pub open spec fn bind_commands(batch: Seq<Sprite>) -> Seq<DrawCommand> {
    if batch.len() == 0 {
        Seq::empty()
    } else {
        seq![
            DrawCommand::SetMaterial {
                group: MATERIAL_GROUP,
                bind_group: batch.first().material.bind_group,
            },
        ]
    }
}

/// The commands of one batch: bind its material, then draw its sprites.
pub open spec fn batch_commands(batch: Seq<Sprite>) -> Seq<DrawCommand> {
    bind_commands(batch) + run_commands(batch)
}

/// The commands of `batches`, batch by batch.
pub open spec fn batches_commands(batches: Seq<Seq<Sprite>>) -> Seq<DrawCommand>
    decreases batches.len(),
{
    if batches.len() == 0 {
        Seq::empty()
    } else {
        batches_commands(batches.drop_last()) + batch_commands(batches.last())
    }
}

/// The commands of a whole frame.
pub open spec fn frame_commands(pipeline: usize, batches: Seq<Seq<Sprite>>) -> Seq<DrawCommand> {
    frame_setup(pipeline) + batches_commands(batches)
}

/// Whether every sprite of every batch has an atlas rectangle whose far
/// corner is a texel coordinate.
pub open spec fn batches_in_atlas_range(batches: Seq<Seq<Sprite>>) -> bool {
    forall|b: int, i: int|
        0 <= b < batches.len() && 0 <= i < batches[b].len() ==> (#[trigger] batches[b][i])
            .atlas_rect.in_atlas_range()
}

/// Drawing takes three commands a sprite.
pub proof fn lemma_run_command_count(sprites: Seq<Sprite>)
    ensures
        run_commands(sprites).len() == 3 * sprites.len(),
    decreases sprites.len(),
{
    if sprites.len() > 0 {
        lemma_run_command_count(sprites.drop_last());
    }
}

/// A frame takes three commands to set up, one for each batch that is not
/// empty, and three for each sprite.
pub proof fn lemma_frame_command_count(pipeline: usize, batches: Seq<Seq<Sprite>>)
    requires
        forall|b: int| 0 <= b < batches.len() ==> (#[trigger] batches[b]).len() > 0,
    ensures
        frame_commands(pipeline, batches).len() == 3 + batches.len() + 3 * batches.flatten().len(),
    decreases batches.len(),
{
    broadcast use Seq::lemma_flatten_push;

    if batches.len() == 0 {
        assert(batches.flatten() =~= Seq::<Sprite>::empty());
    } else {
        let head = batches.drop_last();
        assert(head.push(batches.last()) =~= batches);
        assert(head.push(batches.last()).flatten() =~= head.flatten() + batches.last());
        assert forall|b: int| 0 <= b < head.len() implies (#[trigger] head[b]).len() > 0 by {
            assert(head[b] == batches[b]);
        }
        lemma_frame_command_count(pipeline, head);
        lemma_run_command_count(batches.last());
    }
}

/// Writes down the commands of a frame whose sprites stand in `batches`.
pub fn encode_frame(pipeline: usize, batches: &Vec<Vec<Sprite>>) -> (commands: Vec<DrawCommand>)
    requires
        batches_in_atlas_range(batch_views(batches@)),
    ensures
        commands@ == frame_commands(pipeline, batch_views(batches@)),
{
    let ghost all = batch_views(batches@);
    let mut commands: Vec<DrawCommand> = Vec::new();
    commands.push(DrawCommand::SetPipeline { pipeline });
    commands.push(DrawCommand::SetIndexBuffer);
    commands.push(DrawCommand::SetVertexBuffer { slot: QUAD_SLOT });
    assert(commands@ =~= frame_setup(pipeline) + batches_commands(all.take(0)));
    let index_count: u32 = INDICES.len() as u32;
    let batch_count: usize = batches.len();
    let mut b: usize = 0;
    while b < batch_count
        invariant
            batch_count == batches.len(),
            b <= batch_count,
            index_count == INDEX_COUNT,
            all == batch_views(batches@),
            batches_in_atlas_range(all),
            commands@ == frame_setup(pipeline) + batches_commands(all.take(b as int)),
        decreases batch_count - b,
    {
        let batch = &batches[b];
        let ghost before = commands@;
        let ghost run = batch@;
        assert(all[b as int] == run);
        if batch.len() > 0 {
            commands.push(
                DrawCommand::SetMaterial {
                    group: MATERIAL_GROUP,
                    bind_group: batch[0].material.bind_group,
                },
            );
        }
        assert(commands@ =~= before + bind_commands(run) + run_commands(run.take(0)));
        let sprite_count: usize = batch.len();
        let mut i: usize = 0;
        while i < sprite_count
            invariant
                sprite_count == batch.len(),
                run == batch@,
                i <= sprite_count,
                index_count == INDEX_COUNT,
                0 <= b < all.len(),
                all[b as int] == run,
                batches_in_atlas_range(all),
                commands@ == before + bind_commands(run) + run_commands(run.take(i as int)),
            decreases sprite_count - i,
        {
            let sprite = &batch[i];
            assert(all[b as int][i as int].atlas_rect.in_atlas_range());
            let uniform = SpriteUniform::for_sprite(sprite);
            let ghost drawn = commands@;
            commands.push(DrawCommand::WriteUniform { uniform });
            commands.push(DrawCommand::SetUniform { group: UNIFORM_GROUP });
            commands.push(DrawCommand::DrawIndexed { index_count });
            proof {
                let shown = run.take(i + 1);
                assert(shown.drop_last() =~= run.take(i as int));
                assert(shown.last() == *sprite);
                assert(commands@ =~= drawn + sprite_commands(*sprite));
                assert(commands@ =~= before + bind_commands(run) + run_commands(shown));
            }
            i = i + 1;
        }
        proof {
            assert(run.take(sprite_count as int) =~= run);
            assert(all.take(b + 1).drop_last() =~= all.take(b as int));
            assert(all.take(b + 1).last() == run);
            assert(commands@ =~= frame_setup(pipeline) + batches_commands(all.take(b + 1)));
        }
        b = b + 1;
    }
    assert(all.take(batch_count as int) =~= all);
    commands
}

} // verus!
