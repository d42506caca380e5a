//! The sprites of the frame that is being composed, and the materials they
//! may be drawn with.

use vstd::prelude::*;
use crate::batch::{
    batch_by_material, batch_views, is_batching_of, lemma_batch_is_in_draw_order,
    lemma_batched_sprite_is_given, lemma_batches_are_batching, material_batches,
};
use crate::depth_sort::{
    lemma_sorted_holds_same_sprites, lemma_sorted_is_in_draw_order, lemma_sorted_is_permutation,
    lemma_sorted_is_stable, sort_sprites_by_z_then_y, sorted_by_depth,
};
use crate::frame::{batches_in_atlas_range, encode_frame, frame_commands, DrawCommand};
use crate::geometry::{at_depth_zero, URect, Vec2, Vec3};
use crate::sprite::{in_draw_order, sprites_at, Sprite, SpriteMaterial, SpriteParams};
use crate::texture::{load_error, load_texture_from_memory, png_rgba8, TextureError, TextureUpload};

verus! {

/// Collects the sprites of a frame and turns them into draw commands.
///
/// The GPU objects themselves live on the GPU side. Here a material is the
/// pair of handles under which that side keeps them: the bind group of the
/// `n`-th material made has handle `n`, and every material uses the one
/// pipeline of this render.
#[derive(Debug)]
pub struct Render {
    sprites: Vec<Sprite>,
    materials: Vec<SpriteMaterial>,
    pipeline: usize,
}

impl Render {
    #[verifier::type_invariant]
    spec fn well_formed(self) -> bool {
        &&& forall|i: int|
            0 <= i < self.sprites@.len() ==> (#[trigger] self.sprites@[i])
                .atlas_rect.in_atlas_range()
        &&& forall|i: int|
            0 <= i < self.materials@.len() ==> #[trigger] self.materials@[i] == (SpriteMaterial {
                bind_group: i as usize,
                render_pipeline: self.pipeline,
            })
    }

    /// The sprites queued for the frame, in the order in which they came.
    pub closed spec fn queued(&self) -> Seq<Sprite> {
        self.sprites@
    }

    /// The materials made so far, in the order in which they were made.
    pub closed spec fn materials(&self) -> Seq<SpriteMaterial> {
        self.materials@
    }

    /// The handle of the pipeline that draws the sprites.
    pub closed spec fn pipeline(&self) -> usize {
        self.pipeline
    }

    /// A render without sprites or materials, drawing with `pipeline`.
    pub fn new(pipeline: usize) -> (render: Self)
        ensures
            render.queued() == Seq::<Sprite>::empty(),
            render.materials() == Seq::<SpriteMaterial>::empty(),
            render.pipeline() == pipeline,
    {
        Render { sprites: Vec::new(), materials: Vec::new(), pipeline }
    }

    /// Puts a sprite at the end of the queue.
    fn queue(&mut self, sprite: Sprite)
        requires
            sprite.atlas_rect.in_atlas_range(),
        ensures
            final(self).queued() == old(self).queued().push(sprite),
            final(self).materials() == old(self).materials(),
            final(self).pipeline() == old(self).pipeline(),
    {
        proof {
            use_type_invariant(&*self);
        }
        let mut sprites: Vec<Sprite> = Vec::new();
        std::mem::swap(&mut sprites, &mut self.sprites);
        sprites.push(sprite);
        self.sprites = sprites;
    }

    /// Queues a sprite for the frame.
    ///
    /// The far corner of the atlas rectangle has to be a texel coordinate:
    /// the texture coordinates of the sprite are 16-bit numbers.
    pub fn render_sprite(
        &mut self,
        position: Vec3,
        atlas_rect: URect,
        material: &SpriteMaterial,
        params: SpriteParams,
    )
        requires
            atlas_rect.in_atlas_range(),
        ensures
            final(self).queued() == old(self).queued().push(
                (Sprite { position, atlas_rect, material: *material, params }),
            ),
            final(self).materials() == old(self).materials(),
            final(self).pipeline() == old(self).pipeline(),
    {
        self.queue(Sprite { position, atlas_rect, material: *material, params });
    }

    /// Queues a sprite at depth 0. The atlas rectangle is bound as in
    /// `render_sprite`.
    pub fn render_sprite_2d(
        &mut self,
        position: Vec2,
        atlas_rect: URect,
        material: &SpriteMaterial,
        params: SpriteParams,
    )
        requires
            atlas_rect.in_atlas_range(),
        ensures
            final(self).queued() == old(self).queued().push(
                (Sprite {
                    position: at_depth_zero(position),
                    atlas_rect,
                    material: *material,
                    params,
                }),
            ),
            final(self).materials() == old(self).materials(),
            final(self).pipeline() == old(self).pipeline(),
    {
        self.queue(
            Sprite { position: Vec3::from(position), atlas_rect, material: *material, params },
        );
    }

    /// Ends the frame: gives the commands that draw the queued sprites,
    /// sorted by depth and row and batched by material, and empties the queue.
    pub fn render(&mut self) -> (commands: Vec<DrawCommand>)
        ensures
            commands@ == frame_commands(old(self).pipeline(), frame_batches(old(self).queued())),
            final(self).queued() == Seq::<Sprite>::empty(),
            final(self).materials() == old(self).materials(),
            final(self).pipeline() == old(self).pipeline(),
    {
        proof {
            use_type_invariant(&*self);
        }
        let ghost queued = self.sprites@;
        let mut sprites: Vec<Sprite> = Vec::new();
        std::mem::swap(&mut sprites, &mut self.sprites);
        sort_sprites_by_z_then_y(&mut sprites);
        let batches = batch_by_material(&sprites);
        proof {
            let sorted = sorted_by_depth(queued);
            let cut = batch_views(batches@);
            assert forall|b: int, i: int|
                0 <= b < cut.len() && 0 <= i < cut[b].len() implies (#[trigger] cut[b][i])
                .atlas_rect.in_atlas_range() by {
                lemma_batched_sprite_is_given(sorted, b, i);
                lemma_sorted_holds_same_sprites(queued, cut[b][i]);
            }
        }
        encode_frame(self.pipeline, &batches)
    }

    /// Makes the next material: its bind group gets the next free handle.
    pub fn add_material(&mut self) -> (material: SpriteMaterial)
        ensures
            material == (SpriteMaterial {
                bind_group: old(self).materials().len() as usize,
                render_pipeline: old(self).pipeline(),
            }),
            final(self).materials() == old(self).materials().push(material),
            final(self).queued() == old(self).queued(),
            final(self).pipeline() == old(self).pipeline(),
    {
        proof {
            use_type_invariant(&*self);
        }
        let material = SpriteMaterial {
            bind_group: self.materials.len(),
            render_pipeline: self.pipeline,
        };
        let mut materials: Vec<SpriteMaterial> = Vec::new();
        std::mem::swap(&mut materials, &mut self.materials);
        materials.push(material);
        self.materials = materials;
        material
    }

    /// Makes a material from the bytes of a PNG file: the material, and what
    /// is to be uploaded as its texture. Where the bytes give no texture, no
    /// material is made.
    pub fn create_material_png(&mut self, png: &[u8], label: &str) -> (made: Result<
        (SpriteMaterial, TextureUpload),
        TextureError,
    >)
        ensures
            match made {
                Ok((material, upload)) => {
                    &&& png_rgba8(png@) matches Some((width, height, pixels))
                    &&& load_error(png_rgba8(png@)).is_none()
                    &&& upload.is_upload_of(width, height, pixels, label@)
                    &&& upload.fills_texture()
                    &&& material == (SpriteMaterial {
                        bind_group: old(self).materials().len() as usize,
                        render_pipeline: old(self).pipeline(),
                    })
                    &&& final(self).materials() == old(self).materials().push(material)
                },
                Err(e) => {
                    &&& load_error(png_rgba8(png@)) == Some(e)
                    &&& final(self).materials() == old(self).materials()
                },
            },
            final(self).queued() == old(self).queued(),
            final(self).pipeline() == old(self).pipeline(),
    {
        match load_texture_from_memory(png, label) {
            Ok(upload) => {
                let material = self.add_material();
                Ok((material, upload))
            },
            Err(e) => Err(e),
        }
    }
}

/// The batches of a frame, as `Render::render` draws them.
pub open spec fn frame_batches(queued: Seq<Sprite>) -> Seq<Seq<Sprite>> {
    material_batches(sorted_by_depth(queued))
}

/// Batching keeps the order of the sorted sprites. The batches of a frame,
/// read one after the other, are the queued sprites, all of them and no
/// other, by depth and then by row; the sprites of one depth and row stand as
/// they were queued; and so the sprites within each batch stand in draw order
/// too.
pub proof fn lemma_frame_keeps_draw_order(queued: Seq<Sprite>)
    ensures
        is_batching_of(frame_batches(queued), sorted_by_depth(queued)),
        in_draw_order(frame_batches(queued).flatten()),
        frame_batches(queued).flatten().to_multiset() == queued.to_multiset(),
        forall|z: int, y: int| #[trigger]
            sprites_at(frame_batches(queued).flatten(), z, y) == sprites_at(queued, z, y),
        forall|b: int|
            0 <= b < frame_batches(queued).len() ==> in_draw_order(
                #[trigger] frame_batches(queued)[b],
            ),
{
    let sorted = sorted_by_depth(queued);
    lemma_batches_are_batching(sorted);
    lemma_sorted_is_in_draw_order(queued);
    lemma_sorted_is_permutation(queued);
    assert forall|z: int, y: int| #[trigger]
        sprites_at(frame_batches(queued).flatten(), z, y) == sprites_at(queued, z, y) by {
        lemma_sorted_is_stable(queued, z, y);
    }
    assert forall|b: int| 0 <= b < frame_batches(queued).len() implies in_draw_order(
        #[trigger] frame_batches(queued)[b],
    ) by {
        lemma_batch_is_in_draw_order(sorted, b);
    }
}

} // verus!
