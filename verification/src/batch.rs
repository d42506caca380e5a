//! Grouping the sorted sprites of a frame into batches of one material.
//!
//! A batch is a run of sprites that follow one another in draw order and share
//! their material, so that the material is bound once for the whole run. The
//! batches are the longest such runs: a sprite opens a new batch only when its
//! material differs from that of the sprite drawn just before it.

use vstd::prelude::*;
use vstd::seq_lib::lemma_flatten_concat;
use crate::sprite::{in_draw_order, Sprite, SpriteMaterial};

verus! {

broadcast use Seq::lemma_flatten_push;

/// The batches of `sprites`: each sprite joins the batch of the sprite before
/// it if both have the same material, and opens a new batch otherwise.
pub open spec fn material_batches(sprites: Seq<Sprite>) -> Seq<Seq<Sprite>>
    decreases sprites.len(),
{
    if sprites.len() == 0 {
        Seq::empty()
    } else {
        let earlier = material_batches(sprites.drop_last());
        if sprites.len() >= 2 && sprites[sprites.len() - 2].material == sprites.last().material {
            earlier.drop_last().push(earlier.last().push(sprites.last()))
        } else {
            earlier.push(seq![sprites.last()])
        }
    }
}

/// Whether `batches` cuts `sprites` into its runs of one material: the
/// batches, one after the other, are `sprites`; none is empty; a batch has one
/// material; and neighbouring batches have different ones.
pub open spec fn is_batching_of(batches: Seq<Seq<Sprite>>, sprites: Seq<Sprite>) -> bool {
    &&& batches.flatten() == sprites
    &&& forall|b: int| 0 <= b < batches.len() ==> (#[trigger] batches[b]).len() > 0
    &&& forall|b: int, i: int|
        0 <= b < batches.len() && 0 <= i < batches[b].len() ==> (#[trigger] batches[b][i]).material
            == batches[b].first().material
    &&& forall|b: int, c: int|
        0 <= b < batches.len() && c == b + 1 && c < batches.len() ==> (#[trigger] batches[b])
            .last().material != (#[trigger] batches[c]).first().material
}

/// The batches of a non-empty sequence end with its last sprite.
pub proof fn lemma_batches_end_with_last(sprites: Seq<Sprite>)
    requires
        sprites.len() > 0,
    ensures
        material_batches(sprites).len() > 0,
        material_batches(sprites).last().len() > 0,
        material_batches(sprites).last().last() == sprites.last(),
    decreases sprites.len(),
{
    if sprites.len() >= 2 {
        lemma_batches_end_with_last(sprites.drop_last());
    }
}

/// `material_batches` cuts a sequence into its runs of one material.
pub proof fn lemma_batches_are_batching(sprites: Seq<Sprite>)
    ensures
        is_batching_of(material_batches(sprites), sprites),
    decreases sprites.len(),
{
    let batches = material_batches(sprites);
    if sprites.len() == 0 {
        assert(batches.flatten() =~= sprites);
    } else {
        let rest = sprites.drop_last();
        let earlier = material_batches(rest);
        lemma_batches_are_batching(rest);
        assert(rest.push(sprites.last()) =~= sprites);
        if sprites.len() >= 2 && sprites[sprites.len() - 2].material == sprites.last().material {
            lemma_batches_end_with_last(rest);
            let head = earlier.drop_last();
            let run = earlier.last();
            assert(head.push(run) =~= earlier);
            assert(batches == head.push(run.push(sprites.last())));
            assert(head.push(run).flatten() =~= head.flatten() + run);
            assert(head.push(run.push(sprites.last())).flatten() =~= head.flatten() + run.push(
                sprites.last(),
            ));
            assert(batches.flatten() =~= sprites);
            assert forall|b: int| 0 <= b < batches.len() implies (#[trigger] batches[b]).len()
                > 0 by {
                if b < head.len() {
                    assert(batches[b] == earlier[b]);
                }
            }
            assert forall|b: int, i: int|
                0 <= b < batches.len() && 0 <= i < batches[b].len() implies (
            #[trigger] batches[b][i]).material == batches[b].first().material by {
                if b < head.len() {
                    assert(batches[b] == earlier[b]);
                } else {
                    assert(run.last().material == run.first().material);
                    if i < run.len() {
                        assert(batches[b][i] == run[i]);
                    }
                }
            }
            assert forall|b: int, c: int|
                0 <= b < batches.len() && c == b + 1 && c < batches.len() implies (
            #[trigger] batches[b]).last().material != (#[trigger] batches[c]).first().material by {
                assert(batches[b] == earlier[b]);
                if c < head.len() {
                    assert(batches[c] == earlier[c]);
                } else {
                    assert(batches[c].first() == earlier[c].first());
                }
            }
        } else {
            assert(batches == earlier.push(seq![sprites.last()]));
            assert(earlier.push(seq![sprites.last()]).flatten() =~= earlier.flatten()
                + seq![sprites.last()]);
            assert(batches.flatten() =~= sprites);
            assert forall|b: int| 0 <= b < batches.len() implies (#[trigger] batches[b]).len()
                > 0 by {
                if b < earlier.len() {
                    assert(batches[b] == earlier[b]);
                }
            }
            assert forall|b: int, i: int|
                0 <= b < batches.len() && 0 <= i < batches[b].len() implies (
            #[trigger] batches[b][i]).material == batches[b].first().material by {
                if b < earlier.len() {
                    assert(batches[b] == earlier[b]);
                }
            }
            assert forall|b: int, c: int|
                0 <= b < batches.len() && c == b + 1 && c < batches.len() implies (
            #[trigger] batches[b]).last().material != (#[trigger] batches[c]).first().material by {
                assert(batches[b] == earlier[b]);
                if c < earlier.len() {
                    assert(batches[c] == earlier[c]);
                } else {
                    lemma_batches_end_with_last(rest);
                }
            }
        }
    }
}

/// Batching keeps the sprites: every sprite of a batch is one of the given
/// sprites.
pub proof fn lemma_batched_sprite_is_given(sprites: Seq<Sprite>, b: int, i: int)
    requires
        0 <= b < material_batches(sprites).len(),
        0 <= i < material_batches(sprites)[b].len(),
    ensures
        sprites.contains(material_batches(sprites)[b][i]),
    decreases sprites.len(),
{
    let batches = material_batches(sprites);
    let sprite = batches[b][i];
    let rest = sprites.drop_last();
    let earlier = material_batches(rest);
    let last = sprites.len() - 1;
    if sprites.len() >= 2 && sprites[last - 1].material == sprites[last].material {
        lemma_batches_end_with_last(rest);
        if b < earlier.len() - 1 {
            assert(sprite == earlier[b][i]);
            lemma_batched_sprite_is_given(rest, b, i);
        } else if i < earlier.last().len() {
            assert(sprite == earlier[b][i]);
            lemma_batched_sprite_is_given(rest, b, i);
        } else {
            assert(sprite == sprites[last]);
        }
    } else {
        if b < earlier.len() {
            assert(sprite == earlier[b][i]);
            lemma_batched_sprite_is_given(rest, b, i);
        } else {
            assert(sprite == sprites[last]);
        }
    }
    if rest.contains(sprite) {
        let k = choose|k: int| 0 <= k < rest.len() && rest[k] == sprite;
        assert(sprites[k] == sprite);
    }
}

/// Where a batch begins among the sprites: behind the sprites of the batches
/// before it.
pub open spec fn batch_start(batches: Seq<Seq<Sprite>>, b: int) -> int {
    batches.take(b).flatten().len() as int
}

/// A batch is a run of the given sprites: those that stand from its start on,
/// as many as it has.
pub proof fn lemma_batch_is_run(sprites: Seq<Sprite>, b: int)
    requires
        0 <= b < material_batches(sprites).len(),
    ensures
        ({
            let batches = material_batches(sprites);
            let start = batch_start(batches, b);
            &&& 0 <= start
            &&& start + batches[b].len() <= sprites.len()
            &&& batches[b] == sprites.subrange(start, start + batches[b].len())
        }),
{
    let batches = material_batches(sprites);
    let before = batches.take(b);
    let upto = batches.take(b + 1);
    let after = batches.skip(b + 1);
    lemma_batches_are_batching(sprites);
    assert(upto =~= before.push(batches[b]));
    assert(upto.flatten() =~= before.flatten() + batches[b]);
    assert(upto + after =~= batches);
    lemma_flatten_concat(upto, after);
    assert(sprites =~= before.flatten() + batches[b] + after.flatten());
    let start = batch_start(batches, b);
    assert(batches[b] =~= sprites.subrange(start, start + batches[b].len()));
}

/// The sprites of a batch stand in draw order if the given sprites do.
pub proof fn lemma_batch_is_in_draw_order(sprites: Seq<Sprite>, b: int)
    requires
        in_draw_order(sprites),
        0 <= b < material_batches(sprites).len(),
    ensures
        in_draw_order(material_batches(sprites)[b]),
{
    let batch = material_batches(sprites)[b];
    let start = batch_start(material_batches(sprites), b);
    lemma_batch_is_run(sprites, b);
    assert forall|i: int, j: int| 0 <= i < j < batch.len() implies (#[trigger] batch[i])
        .draws_no_later_than(#[trigger] batch[j]) by {
        assert(batch[i] == sprites[start + i]);
        assert(batch[j] == sprites[start + j]);
    }
}

/// A sequence has one batching: whatever cuts it into runs of one material, as
/// `is_batching_of` says, is `material_batches` of it.
pub proof fn lemma_batching_is_unique(batches: Seq<Seq<Sprite>>, sprites: Seq<Sprite>)
    requires
        is_batching_of(batches, sprites),
    ensures
        batches == material_batches(sprites),
    decreases sprites.len(),
{
    if batches.len() == 0 {
        assert(batches.flatten() =~= Seq::<Sprite>::empty());
        assert(batches =~= material_batches(sprites));
    } else {
        let head = batches.drop_last();
        let run = batches.last();
        assert(batches =~= head.push(run));
        assert(head.push(run).flatten() =~= head.flatten() + run);
        assert(run.len() > 0);
        assert(sprites.last() == run.last());
        let rest = sprites.drop_last();
        if run.len() >= 2 {
            let shorter = head.push(run.drop_last());
            assert(shorter.flatten() =~= head.flatten() + run.drop_last());
            assert(shorter.flatten() =~= rest);
            assert forall|b: int| 0 <= b < shorter.len() implies (#[trigger] shorter[b]).len()
                > 0 by {
                if b < head.len() {
                    assert(shorter[b] == batches[b]);
                }
            }
            assert forall|b: int, i: int|
                0 <= b < shorter.len() && 0 <= i < shorter[b].len() implies (
            #[trigger] shorter[b][i]).material == shorter[b].first().material by {
                if b < head.len() {
                    assert(shorter[b] == batches[b]);
                } else {
                    assert(shorter[b][i] == batches[b][i]);
                    assert(shorter[b].first() == batches[b][0]);
                }
            }
            assert forall|b: int, c: int|
                0 <= b < shorter.len() && c == b + 1 && c < shorter.len() implies (
            #[trigger] shorter[b]).last().material != (#[trigger] shorter[c]).first().material by {
                assert(shorter[b] == batches[b]);
                if c < head.len() {
                    assert(shorter[c] == batches[c]);
                } else {
                    assert(shorter[c].first() == batches[c].first());
                }
            }
            lemma_batching_is_unique(shorter, rest);
            assert(sprites[sprites.len() - 2] == run[run.len() - 2]);
            assert(run[run.len() - 2].material == run.first().material);
            assert(run[run.len() - 1].material == run.first().material);
            assert(shorter.drop_last() =~= head);
            assert(run.drop_last().push(run.last()) =~= run);
        } else {
            assert(run =~= seq![sprites.last()]);
            assert(head.flatten() =~= rest);
            assert forall|b: int| 0 <= b < head.len() implies (#[trigger] head[b]).len() > 0 by {
                assert(head[b] == batches[b]);
            }
            assert forall|b: int, i: int|
                0 <= b < head.len() && 0 <= i < head[b].len() implies (#[trigger] head[b][i])
                .material == head[b].first().material by {
                assert(head[b] == batches[b]);
            }
            assert forall|b: int, c: int|
                0 <= b < head.len() && c == b + 1 && c < head.len() implies (#[trigger] head[b])
                .last().material != (#[trigger] head[c]).first().material by {
                assert(head[b] == batches[b]);
                assert(head[c] == batches[c]);
            }
            lemma_batching_is_unique(head, rest);
            if sprites.len() >= 2 {
                lemma_batches_end_with_last(rest);
                let before = batches.len() - 2;
                assert(batches[before] == head.last());
                assert(batches[before].last().material != batches[before + 1].first().material);
            }
        }
    }
}

/// The batches of a frame as sequences of sprites.
pub open spec fn batch_views(batches: Seq<Vec<Sprite>>) -> Seq<Seq<Sprite>> {
    Seq::new(batches.len(), |b: int| batches[b]@)
}

/// Cuts sprites that stand in draw order into batches of one material.
pub fn batch_by_material(sprites: &Vec<Sprite>) -> (batches: Vec<Vec<Sprite>>)
    ensures
        batch_views(batches@) == material_batches(sprites@),
        is_batching_of(batch_views(batches@), sprites@),
{
    proof {
        lemma_batches_are_batching(sprites@);
    }
    let mut batches: Vec<Vec<Sprite>> = Vec::new();
    let mut current_batch: Vec<Sprite> = Vec::new();
    let mut current_material: Option<SpriteMaterial> = None;
    let count: usize = sprites.len();
    let mut next: usize = 0;
    while next < count
        invariant
            count == sprites.len(),
            next <= count,
            next == 0 ==> current_batch@.len() == 0 && current_material.is_none()
                && batches@.len() == 0,
            next > 0 ==> current_batch@.len() > 0 && current_material == Some(
                sprites@[next - 1].material,
            ),
            material_batches(sprites@.take(next as int)) == if current_batch@.len() > 0 {
                batch_views(batches@).push(current_batch@)
            } else {
                batch_views(batches@)
            },
        decreases count - next,
    {
        let sprite = sprites[next];
        let ghost earlier = material_batches(sprites@.take(next as int));
        let ghost closed = batch_views(batches@);
        let ghost open = current_batch@;
        proof {
            assert(sprites@.take(next + 1).drop_last() =~= sprites@.take(next as int));
            assert(sprites@.take(next + 1).last() == sprite);
            if next > 0 {
                assert(sprites@.take(next + 1)[next - 1] == sprites@[next - 1]);
                assert(closed.push(open).drop_last() =~= closed);
            }
        }
        let same_material = match current_material {
            Some(material) => material == sprite.material,
            None => false,
        };
        if !same_material {
            if current_batch.len() > 0 {
                batches.push(current_batch);
                current_batch = Vec::new();
                assert(batch_views(batches@) =~= closed.push(open));
            }
            current_material = Some(sprite.material);
        }
        current_batch.push(sprite);
        next = next + 1;
        proof {
            let shown = sprites@.take(next as int);
            if same_material {
                assert(material_batches(shown) == earlier.drop_last().push(
                    earlier.last().push(sprite),
                ));
                assert(earlier.last() == open);
                assert(current_batch@ == open.push(sprite));
            } else {
                assert(material_batches(shown) == earlier.push(seq![sprite]));
                assert(current_batch@ =~= seq![sprite]);
            }
        }
    }
    assert(sprites@.take(count as int) =~= sprites@);
    if current_batch.len() > 0 {
        let ghost closed = batch_views(batches@);
        let ghost open = current_batch@;
        batches.push(current_batch);
        assert(batch_views(batches@) =~= closed.push(open));
    }
    batches
}

} // verus!
