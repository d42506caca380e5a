//! Ordering the sprites of a frame by depth, then by row.
//!
//! The order is stable: sprites that share depth and row are drawn in the
//! order in which they were queued. `sorted_by_depth` defines the result,
//! and the lemmas of this module show that it is the one sequence that is in
//! draw order and keeps, for every depth and row, the sprites found there in
//! their queued order.

use vstd::prelude::*;
use crate::sprite::{in_draw_order, sprites_at, Sprite};

verus! {

/// `sorted` with `sprite` put right behind the last sprite that may be drawn
/// before it.
pub open spec fn insert_in_draw_order(sorted: Seq<Sprite>, sprite: Sprite) -> Seq<Sprite>
    decreases sorted.len(),
{
    if sorted.len() == 0 {
        seq![sprite]
    } else if sorted.last().draws_no_later_than(sprite) {
        sorted.push(sprite)
    } else {
        insert_in_draw_order(sorted.drop_last(), sprite).push(sorted.last())
    }
}

/// The sprites of `sprites` by depth, then by row, those of one depth and row
/// in the order in which they stand in `sprites`.
pub open spec fn sorted_by_depth(sprites: Seq<Sprite>) -> Seq<Sprite>
    decreases sprites.len(),
{
    if sprites.len() == 0 {
        Seq::empty()
    } else {
        insert_in_draw_order(sorted_by_depth(sprites.drop_last()), sprites.last())
    }
}

/// The place that `insert_in_draw_order` gives to `sprite`.
pub open spec fn insertion_point(sorted: Seq<Sprite>, sprite: Sprite) -> int
    decreases sorted.len(),
{
    if sorted.len() == 0 {
        0
    } else if sorted.last().draws_no_later_than(sprite) {
        sorted.len() as int
    } else {
        insertion_point(sorted.drop_last(), sprite)
    }
}

/// Inserting splits `sorted` at the insertion point: every sprite from there
/// on must be drawn after `sprite`, and the one just before it need not.
pub proof fn lemma_insert_splits(sorted: Seq<Sprite>, sprite: Sprite)
    ensures
        0 <= insertion_point(sorted, sprite) <= sorted.len(),
        insert_in_draw_order(sorted, sprite) == sorted.take(insertion_point(sorted, sprite)).push(
            sprite,
        ) + sorted.skip(insertion_point(sorted, sprite)),
        forall|i: int|
            insertion_point(sorted, sprite) <= i < sorted.len() ==> !(#[trigger] sorted[i])
                .draws_no_later_than(sprite),
        insertion_point(sorted, sprite) > 0 ==> sorted[insertion_point(sorted, sprite)
            - 1].draws_no_later_than(sprite),
    decreases sorted.len(),
{
    let p = insertion_point(sorted, sprite);
    if sorted.len() == 0 {
        assert(insert_in_draw_order(sorted, sprite) =~= sorted.take(p).push(sprite) + sorted.skip(
            p,
        ));
    } else if sorted.last().draws_no_later_than(sprite) {
        assert(insert_in_draw_order(sorted, sprite) =~= sorted.take(p).push(sprite) + sorted.skip(
            p,
        ));
    } else {
        let rest = sorted.drop_last();
        lemma_insert_splits(rest, sprite);
        assert(rest.take(p) =~= sorted.take(p));
        assert(rest.skip(p).push(sorted.last()) =~= sorted.skip(p));
        assert(insert_in_draw_order(sorted, sprite) =~= sorted.take(p).push(sprite) + sorted.skip(
            p,
        ));
        assert forall|i: int| p <= i < sorted.len() implies !(#[trigger] sorted[i])
            .draws_no_later_than(sprite) by {
            if i < rest.len() {
                assert(sorted[i] == rest[i]);
            }
        }
        if p > 0 {
            assert(sorted[p - 1] == rest[p - 1]);
        }
    }
}

/// Inserting into a sequence in draw order gives a sequence in draw order.
pub proof fn lemma_insert_keeps_draw_order(sorted: Seq<Sprite>, sprite: Sprite)
    requires
        in_draw_order(sorted),
    ensures
        in_draw_order(insert_in_draw_order(sorted, sprite)),
        insert_in_draw_order(sorted, sprite).len() == sorted.len() + 1,
{
    lemma_insert_splits(sorted, sprite);
    let p = insertion_point(sorted, sprite);
    let out = insert_in_draw_order(sorted, sprite);
    assert forall|i: int, j: int| 0 <= i < j < out.len() implies (#[trigger] out[i])
        .draws_no_later_than(#[trigger] out[j]) by {
        if j < p {
            assert(out[i] == sorted[i] && out[j] == sorted[j]);
        } else if j == p {
            assert(out[i] == sorted[i]);
            assert(sorted[p - 1].draws_no_later_than(sprite));
            if i < p - 1 {
                assert(sorted[i].draws_no_later_than(sorted[p - 1]));
            }
        } else if i < p {
            assert(out[i] == sorted[i] && out[j] == sorted[j - 1]);
        } else if i == p {
            assert(out[j] == sorted[j - 1]);
            assert(!sorted[j - 1].draws_no_later_than(sprite));
        } else {
            assert(out[i] == sorted[i - 1] && out[j] == sorted[j - 1]);
        }
    }
}

/// Inserting a sprite adds it behind the sprites of its own depth and row,
/// and leaves the sprites of every other depth and row as they were.
pub proof fn lemma_insert_is_stable(sorted: Seq<Sprite>, sprite: Sprite, z: int, y: int)
    ensures
        sprites_at(insert_in_draw_order(sorted, sprite), z, y) == if sprite.at(z, y) {
            sprites_at(sorted, z, y).push(sprite)
        } else {
            sprites_at(sorted, z, y)
        },
    decreases sorted.len(),
{
    if sorted.len() == 0 {
        assert(seq![sprite].drop_last() =~= sorted);
    } else if sorted.last().draws_no_later_than(sprite) {
        assert(sorted.push(sprite).drop_last() =~= sorted);
    } else {
        let rest = sorted.drop_last();
        lemma_insert_is_stable(rest, sprite, z, y);
        let inner = insert_in_draw_order(rest, sprite);
        assert(inner.push(sorted.last()).drop_last() =~= inner);
    }
}

/// The sorted sprites are in draw order, and as many as were given.
pub proof fn lemma_sorted_is_in_draw_order(sprites: Seq<Sprite>)
    ensures
        in_draw_order(sorted_by_depth(sprites)),
        sorted_by_depth(sprites).len() == sprites.len(),
    decreases sprites.len(),
{
    if sprites.len() > 0 {
        lemma_sorted_is_in_draw_order(sprites.drop_last());
        lemma_insert_keeps_draw_order(sorted_by_depth(sprites.drop_last()), sprites.last());
    }
}

/// Sorting is stable: the sprites of any one depth and row come out in the
/// order in which they went in.
pub proof fn lemma_sorted_is_stable(sprites: Seq<Sprite>, z: int, y: int)
    ensures
        sprites_at(sorted_by_depth(sprites), z, y) == sprites_at(sprites, z, y),
    decreases sprites.len(),
{
    if sprites.len() > 0 {
        lemma_sorted_is_stable(sprites.drop_last(), z, y);
        lemma_insert_is_stable(sorted_by_depth(sprites.drop_last()), sprites.last(), z, y);
    }
}

/// Sorting rearranges: it neither drops nor invents a sprite.
pub proof fn lemma_sorted_is_permutation(sprites: Seq<Sprite>)
    ensures
        sorted_by_depth(sprites).to_multiset() == sprites.to_multiset(),
    decreases sprites.len(),
{
    broadcast use vstd::seq_lib::group_to_multiset_ensures;

    if sprites.len() > 0 {
        let rest = sprites.drop_last();
        lemma_sorted_is_permutation(rest);
        lemma_insert_is_permutation(sorted_by_depth(rest), sprites.last());
        assert(rest.push(sprites.last()) =~= sprites);
    }
}

/// Inserting adds the one sprite and nothing else.
pub proof fn lemma_insert_is_permutation(sorted: Seq<Sprite>, sprite: Sprite)
    ensures
        insert_in_draw_order(sorted, sprite).to_multiset() == sorted.to_multiset().insert(sprite),
    decreases sorted.len(),
{
    broadcast use vstd::seq_lib::group_to_multiset_ensures;

    if sorted.len() == 0 {
        assert(seq![sprite] =~= sorted.push(sprite));
    } else if sorted.last().draws_no_later_than(sprite) {
    } else {
        let rest = sorted.drop_last();
        lemma_insert_is_permutation(rest, sprite);
        assert(rest.push(sorted.last()) =~= sorted);
        assert(rest.to_multiset().insert(sprite).insert(sorted.last()) =~= rest.to_multiset().insert(
            sorted.last(),
        ).insert(sprite));
    }
}

/// Sorting keeps the sprites: what stands in the sorted sequence is what
/// stands in the given one.
pub proof fn lemma_sorted_holds_same_sprites(sprites: Seq<Sprite>, sprite: Sprite)
    ensures
        sorted_by_depth(sprites).contains(sprite) <==> sprites.contains(sprite),
{
    broadcast use vstd::seq_lib::group_to_multiset_ensures;

    lemma_sorted_is_permutation(sprites);
    assert(sorted_by_depth(sprites).to_multiset().count(sprite) == sprites.to_multiset().count(
        sprite,
    ));
}

/// Every sprite found at a depth and row stands somewhere in the sequence.
proof fn lemma_sprites_at_has_source(sprites: Seq<Sprite>, z: int, y: int) -> (i: int)
    requires
        sprites_at(sprites, z, y).len() > 0,
    ensures
        0 <= i < sprites.len(),
        sprites[i].at(z, y),
    decreases sprites.len(),
{
    if sprites.last().at(z, y) {
        sprites.len() - 1
    } else {
        lemma_sprites_at_has_source(sprites.drop_last(), z, y)
    }
}

/// A sequence in draw order ends with a sprite of the same depth and row as
/// any other sequence in draw order that holds the same sprites at every
/// depth and row.
proof fn lemma_last_depths_agree(a: Seq<Sprite>, b: Seq<Sprite>)
    requires
        a.len() > 0,
        b.len() > 0,
        in_draw_order(a),
        in_draw_order(b),
        forall|z: int, y: int| #[trigger] sprites_at(a, z, y) == sprites_at(b, z, y),
    ensures
        a.last().position.z == b.last().position.z,
        a.last().position.y == b.last().position.y,
{
    let (az, ay) = (a.last().position.z as int, a.last().position.y as int);
    let (bz, by) = (b.last().position.z as int, b.last().position.y as int);
    assert(sprites_at(a, az, ay) == sprites_at(b, az, ay));
    assert(sprites_at(a, bz, by) == sprites_at(b, bz, by));
    let i = lemma_sprites_at_has_source(b, az, ay);
    let j = lemma_sprites_at_has_source(a, bz, by);
    if i < b.len() - 1 {
        assert(b[i].draws_no_later_than(b[b.len() - 1]));
    }
    if j < a.len() - 1 {
        assert(a[j].draws_no_later_than(a[a.len() - 1]));
    }
}

/// There is one stable order: two sequences in draw order that hold, at every
/// depth and row, the same sprites in the same order are the same sequence.
pub proof fn lemma_stable_draw_order_is_unique(a: Seq<Sprite>, b: Seq<Sprite>)
    requires
        in_draw_order(a),
        in_draw_order(b),
        forall|z: int, y: int| #[trigger] sprites_at(a, z, y) == sprites_at(b, z, y),
    ensures
        a == b,
    decreases a.len(),
{
    if a.len() == 0 {
        if b.len() > 0 {
            let (z, y) = (b.last().position.z as int, b.last().position.y as int);
            assert(sprites_at(a, z, y) == sprites_at(b, z, y));
        }
        assert(a =~= b);
    } else if b.len() == 0 {
        let (z, y) = (a.last().position.z as int, a.last().position.y as int);
        assert(sprites_at(a, z, y) == sprites_at(b, z, y));
    } else {
        lemma_last_depths_agree(a, b);
        let (lz, ly) = (a.last().position.z as int, a.last().position.y as int);
        assert(sprites_at(a, lz, ly) == sprites_at(b, lz, ly));
        assert(sprites_at(a, lz, ly).last() == a.last());
        assert(sprites_at(b, lz, ly).last() == b.last());
        let (a0, b0) = (a.drop_last(), b.drop_last());
        assert forall|z: int, y: int| #[trigger] sprites_at(a0, z, y) == sprites_at(b0, z, y) by {
            assert(sprites_at(a, z, y) == sprites_at(b, z, y));
            if a.last().at(z, y) {
                assert(sprites_at(a0, z, y) =~= sprites_at(a, z, y).drop_last());
                assert(sprites_at(b0, z, y) =~= sprites_at(b, z, y).drop_last());
            }
        }
        assert forall|i: int, j: int| 0 <= i < j < a0.len() implies (#[trigger] a0[i])
            .draws_no_later_than(#[trigger] a0[j]) by {
            assert(a[i].draws_no_later_than(a[j]));
        }
        assert forall|i: int, j: int| 0 <= i < j < b0.len() implies (#[trigger] b0[i])
            .draws_no_later_than(#[trigger] b0[j]) by {
            assert(b[i].draws_no_later_than(b[j]));
        }
        lemma_stable_draw_order_is_unique(a0, b0);
        assert(a =~= a0.push(a.last()));
        assert(b =~= b0.push(b.last()));
    }
}

/// No sprite at a depth and row means nothing is found there.
proof fn lemma_nothing_at(sprites: Seq<Sprite>, z: int, y: int)
    requires
        forall|k: int| 0 <= k < sprites.len() ==> !(#[trigger] sprites[k]).at(z, y),
    ensures
        sprites_at(sprites, z, y) == Seq::<Sprite>::empty(),
    decreases sprites.len(),
{
    if sprites.len() > 0 {
        let rest = sprites.drop_last();
        assert forall|k: int| 0 <= k < rest.len() implies !(#[trigger] rest[k]).at(z, y) by {
            assert(rest[k] == sprites[k]);
        }
        lemma_nothing_at(rest, z, y);
        assert(!sprites[sprites.len() - 1].at(z, y));
    }
}

/// What is found at a depth and row in two sequences put together is what is
/// found there in the first, then what is found there in the second.
pub proof fn lemma_sprites_at_concat(a: Seq<Sprite>, b: Seq<Sprite>, z: int, y: int)
    ensures
        sprites_at(a + b, z, y) == sprites_at(a, z, y) + sprites_at(b, z, y),
    decreases b.len(),
{
    if b.len() == 0 {
        assert(a + b =~= a);
        assert(sprites_at(a, z, y) + sprites_at(b, z, y) =~= sprites_at(a, z, y));
    } else {
        lemma_sprites_at_concat(a, b.drop_last(), z, y);
        assert((a + b).drop_last() =~= a + b.drop_last());
        assert((a + b).last() == b.last());
        assert(sprites_at(a + b, z, y) =~= sprites_at(a, z, y) + sprites_at(b, z, y));
    }
}

/// Merges two runs of sprites in draw order into one. Of two sprites of the
/// same depth and row, the one from `left` comes first.
fn merge_in_draw_order(left: &Vec<Sprite>, right: &Vec<Sprite>) -> (merged: Vec<Sprite>)
    requires
        in_draw_order(left@),
        in_draw_order(right@),
    ensures
        in_draw_order(merged@),
        forall|z: int, y: int| #[trigger]
            sprites_at(merged@, z, y) == sprites_at(left@, z, y) + sprites_at(right@, z, y),
{
    let mut merged: Vec<Sprite> = Vec::new();
    let mut i: usize = 0;
    let mut j: usize = 0;
    assert forall|z: int, y: int| #[trigger]
        sprites_at(merged@, z, y) == sprites_at(left@.take(0), z, y) + sprites_at(
            right@.take(0),
            z,
            y,
        ) by {
        assert(sprites_at(merged@, z, y) =~= sprites_at(left@.take(0), z, y) + sprites_at(
            right@.take(0),
            z,
            y,
        ));
    }
    while i < left.len() || j < right.len()
        invariant
            i <= left.len(),
            j <= right.len(),
            in_draw_order(left@),
            in_draw_order(right@),
            in_draw_order(merged@),
            forall|k: int|
                0 <= k < merged.len() && i < left.len() ==> (#[trigger] merged@[k])
                    .draws_no_later_than(left@[i as int]),
            forall|k: int|
                0 <= k < merged.len() && j < right.len() ==> (#[trigger] merged@[k])
                    .draws_no_later_than(right@[j as int]),
            forall|k: int|
                0 <= k < j && i < left.len() ==> !left@[i as int].draws_no_later_than(
                    #[trigger] right@[k],
                ),
            forall|z: int, y: int| #[trigger]
                sprites_at(merged@, z, y) == sprites_at(left@.take(i as int), z, y) + sprites_at(
                    right@.take(j as int),
                    z,
                    y,
                ),
        decreases left.len() - i + right.len() - j,
    {
        let from_left = if i < left.len() && j < right.len() {
            left[i].is_drawn_no_later_than(&right[j])
        } else {
            i < left.len()
        };
        let ghost before = merged@;
        if from_left {
            let sprite = left[i];
            merged.push(sprite);
            proof {
                let taken = right@.take(j as int);
                assert(left@.take(i + 1).drop_last() =~= left@.take(i as int));
                assert(left@.take(i + 1).last() == sprite);
                assert(merged@.drop_last() =~= before);
                assert forall|z: int, y: int| #[trigger]
                    sprites_at(merged@, z, y) == sprites_at(left@.take(i + 1), z, y) + sprites_at(
                        taken,
                        z,
                        y,
                    ) by {
                    assert(sprites_at(before, z, y) == sprites_at(left@.take(i as int), z, y)
                        + sprites_at(taken, z, y));
                    if sprite.at(z, y) {
                        assert forall|k: int| 0 <= k < taken.len() implies !(#[trigger] taken[k])
                            .at(z, y) by {
                            assert(!sprite.draws_no_later_than(right@[k]));
                        }
                        lemma_nothing_at(taken, z, y);
                    }
                    assert(sprites_at(merged@, z, y) =~= sprites_at(left@.take(i + 1), z, y)
                        + sprites_at(taken, z, y));
                }
                assert forall|k: int, l: int| 0 <= k < l < merged@.len() implies (
                #[trigger] merged@[k]).draws_no_later_than(#[trigger] merged@[l]) by {
                    assert(merged@[k] == before[k]);
                    if l < before.len() {
                        assert(merged@[l] == before[l]);
                    }
                }
                if i + 1 < left.len() {
                    assert(left@[i as int].draws_no_later_than(left@[i + 1]));
                    assert forall|k: int| 0 <= k < merged.len() implies (#[trigger] merged@[k])
                        .draws_no_later_than(left@[i + 1]) by {
                        if k < before.len() {
                            assert(merged@[k] == before[k]);
                        }
                    }
                }
                assert forall|k: int| 0 <= k < merged.len() && j < right.len() implies (
                #[trigger] merged@[k]).draws_no_later_than(right@[j as int]) by {
                    if k < before.len() {
                        assert(merged@[k] == before[k]);
                    }
                }
            }
            i = i + 1;
        } else {
            let sprite = right[j];
            merged.push(sprite);
            proof {
                let taken = left@.take(i as int);
                assert(right@.take(j + 1).drop_last() =~= right@.take(j as int));
                assert(right@.take(j + 1).last() == sprite);
                assert(merged@.drop_last() =~= before);
                assert forall|z: int, y: int| #[trigger]
                    sprites_at(merged@, z, y) == sprites_at(taken, z, y) + sprites_at(
                        right@.take(j + 1),
                        z,
                        y,
                    ) by {
                    assert(sprites_at(before, z, y) == sprites_at(taken, z, y) + sprites_at(
                        right@.take(j as int),
                        z,
                        y,
                    ));
                    assert(sprites_at(merged@, z, y) =~= sprites_at(taken, z, y) + sprites_at(
                        right@.take(j + 1),
                        z,
                        y,
                    ));
                }
                assert forall|k: int, l: int| 0 <= k < l < merged@.len() implies (
                #[trigger] merged@[k]).draws_no_later_than(#[trigger] merged@[l]) by {
                    assert(merged@[k] == before[k]);
                    if l < before.len() {
                        assert(merged@[l] == before[l]);
                    }
                }
                if j + 1 < right.len() {
                    assert(right@[j as int].draws_no_later_than(right@[j + 1]));
                    assert forall|k: int| 0 <= k < merged.len() implies (#[trigger] merged@[k])
                        .draws_no_later_than(right@[j + 1]) by {
                        if k < before.len() {
                            assert(merged@[k] == before[k]);
                        }
                    }
                }
                assert forall|k: int| 0 <= k < merged.len() && i < left.len() implies (
                #[trigger] merged@[k]).draws_no_later_than(left@[i as int]) by {
                    if k < before.len() {
                        assert(merged@[k] == before[k]);
                    }
                }
            }
            j = j + 1;
        }
    }
    assert(left@.take(i as int) =~= left@);
    assert(right@.take(j as int) =~= right@);
    merged
}

/// The sprites `sprites[from..to]`, sorted: each half is sorted by itself and
/// the two are merged.
fn sorted_range(sprites: &Vec<Sprite>, from: usize, to: usize) -> (sorted: Vec<Sprite>)
    requires
        from <= to <= sprites.len(),
    ensures
        sorted@ == sorted_by_depth(sprites@.subrange(from as int, to as int)),
    decreases to - from,
{
    let ghost range = sprites@.subrange(from as int, to as int);
    if to - from < 2 {
        let mut sorted: Vec<Sprite> = Vec::new();
        if from < to {
            sorted.push(sprites[from]);
        }
        proof {
            reveal_with_fuel(sorted_by_depth, 2);
            if from < to {
                assert(range.drop_last() =~= Seq::<Sprite>::empty());
            }
            assert(sorted@ =~= sorted_by_depth(range));
        }
        return sorted;
    }
    let middle = from + (to - from) / 2;
    let left = sorted_range(sprites, from, middle);
    let right = sorted_range(sprites, middle, to);
    proof {
        lemma_sorted_is_in_draw_order(sprites@.subrange(from as int, middle as int));
        lemma_sorted_is_in_draw_order(sprites@.subrange(middle as int, to as int));
    }
    let sorted = merge_in_draw_order(&left, &right);
    proof {
        let first = sprites@.subrange(from as int, middle as int);
        let second = sprites@.subrange(middle as int, to as int);
        assert(first + second =~= range);
        lemma_sorted_is_in_draw_order(range);
        assert forall|z: int, y: int| #[trigger]
            sprites_at(sorted@, z, y) == sprites_at(sorted_by_depth(range), z, y) by {
            lemma_sorted_is_stable(first, z, y);
            lemma_sorted_is_stable(second, z, y);
            lemma_sorted_is_stable(range, z, y);
            lemma_sprites_at_concat(first, second, z, y);
            assert(sprites_at(sorted@, z, y) == sprites_at(left@, z, y) + sprites_at(
                right@,
                z,
                y,
            ));
        }
        lemma_stable_draw_order_is_unique(sorted@, sorted_by_depth(range));
    }
    sorted
}

/// Puts the queued sprites into the order in which the frame draws them: by
/// depth, then by row, and those of one depth and row as they were queued.
pub fn sort_sprites_by_z_then_y(sprites: &mut Vec<Sprite>)
    ensures
        final(sprites)@ == sorted_by_depth(old(sprites)@),
        in_draw_order(final(sprites)@),
        forall|z: int, y: int| #[trigger]
            sprites_at(final(sprites)@, z, y) == sprites_at(old(sprites)@, z, y),
{
    let ghost queued = sprites@;
    let sorted = sorted_range(sprites, 0, sprites.len());
    assert(queued.subrange(0, queued.len() as int) =~= queued);
    *sprites = sorted;
    proof {
        lemma_sorted_is_in_draw_order(queued);
        assert forall|z: int, y: int| #[trigger]
            sprites_at(sprites@, z, y) == sprites_at(queued, z, y) by {
            lemma_sorted_is_stable(queued, z, y);
        }
    }
}

} // verus!
