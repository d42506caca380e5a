use swamp_render::batch::batch_by_material;
use swamp_render::depth_sort::sort_sprites_by_z_then_y;
use swamp_render::geometry::{URect, UVec2, Vec2, Vec3};
use swamp_render::sprite::{Sprite, SpriteMaterial, SpriteParams};

fn material(bind_group: usize) -> SpriteMaterial {
    SpriteMaterial { bind_group, render_pipeline: 0 }
}

fn sprite(x: i16, y: i16, z: i16, bind_group: usize) -> Sprite {
    Sprite {
        position: Vec3::new(x, y, z),
        atlas_rect: URect::new(0, 0, 16, 16),
        material: material(bind_group),
        params: SpriteParams::default(),
    }
}

#[test]
fn vec3_from_vec2_lies_at_depth_zero() {
    assert_eq!(Vec3::from(Vec2::new(-7, 9)), Vec3 { x: -7, y: 9, z: 0 });
    assert_eq!(Vec3::from(Vec2::new(i16::MIN, i16::MAX)), Vec3::new(i16::MIN, i16::MAX, 0));
}

#[test]
fn constructors_keep_their_arguments() {
    assert_eq!(UVec2::new(3, 4), UVec2 { x: 3, y: 4 });
    assert_eq!(Vec2::new(-3, 4), Vec2 { x: -3, y: 4 });
    let rect = URect::new(1, 2, 3, 4);
    assert_eq!(rect.position, UVec2 { x: 1, y: 2 });
    assert_eq!(rect.size, UVec2 { x: 3, y: 4 });
}

#[test]
fn atlas_range_ends_at_the_last_texel_coordinate() {
    assert!(URect::new(0, 0, 0, 0).is_in_atlas_range());
    assert!(URect::new(65535, 65535, 0, 0).is_in_atlas_range());
    assert!(URect::new(65000, 0, 535, 65535).is_in_atlas_range());
    assert!(!URect::new(65000, 0, 536, 0).is_in_atlas_range());
    assert!(!URect::new(0, 1, 0, 65535).is_in_atlas_range());
}

#[test]
fn default_params_are_plain() {
    let params = SpriteParams::default();
    assert_eq!(params.dest_size, None);
    assert_eq!(params.source, None);
    assert_eq!(params.rotation, 0);
    assert!(!params.flip_x);
    assert!(!params.flip_y);
    assert_eq!(params.pivot, None);
}

#[test]
fn drawn_no_later_compares_depth_before_row() {
    let near_high = sprite(0, 100, 1, 0);
    let far_low = sprite(0, -100, 2, 0);
    assert!(near_high.is_drawn_no_later_than(&far_low));
    assert!(!far_low.is_drawn_no_later_than(&near_high));
    let same_depth_lower = sprite(0, -1, 1, 0);
    assert!(same_depth_lower.is_drawn_no_later_than(&near_high));
    assert!(!near_high.is_drawn_no_later_than(&same_depth_lower));
    let twin = sprite(50, 100, 1, 3);
    assert!(near_high.is_drawn_no_later_than(&twin));
    assert!(twin.is_drawn_no_later_than(&near_high));
}

#[test]
fn sort_orders_by_depth_then_row() {
    let mut sprites = vec![
        sprite(0, 5, 2, 0),
        sprite(1, 9, 1, 0),
        sprite(2, -3, 2, 0),
        sprite(3, 9, -1, 0),
        sprite(4, 0, 1, 0),
    ];
    sort_sprites_by_z_then_y(&mut sprites);
    let order: Vec<i16> = sprites.iter().map(|s| s.position.x).collect();
    assert_eq!(order, vec![3, 4, 1, 2, 0]);
}

#[test]
fn sort_ignores_x_and_material() {
    let mut sprites = vec![sprite(9, 0, 0, 7), sprite(-9, 0, 0, 1), sprite(0, 0, 0, 4)];
    sort_sprites_by_z_then_y(&mut sprites);
    let order: Vec<i16> = sprites.iter().map(|s| s.position.x).collect();
    assert_eq!(order, vec![9, -9, 0]);
}

#[test]
fn sort_is_stable_for_equal_depth_and_row() {
    let mut sprites = vec![
        sprite(10, 1, 1, 0),
        sprite(11, 0, 0, 1),
        sprite(12, 1, 1, 2),
        sprite(13, 0, 0, 3),
        sprite(14, 1, 1, 4),
    ];
    sort_sprites_by_z_then_y(&mut sprites);
    let order: Vec<i16> = sprites.iter().map(|s| s.position.x).collect();
    assert_eq!(order, vec![11, 13, 10, 12, 14]);
}

#[test]
fn sort_handles_extreme_coordinates() {
    let mut sprites = vec![
        sprite(0, i16::MAX, i16::MAX, 0),
        sprite(1, i16::MIN, i16::MAX, 0),
        sprite(2, i16::MAX, i16::MIN, 0),
        sprite(3, i16::MIN, i16::MIN, 0),
    ];
    sort_sprites_by_z_then_y(&mut sprites);
    let order: Vec<i16> = sprites.iter().map(|s| s.position.x).collect();
    assert_eq!(order, vec![3, 2, 1, 0]);
}

#[test]
fn sort_of_nothing_and_of_one() {
    let mut none: Vec<Sprite> = Vec::new();
    sort_sprites_by_z_then_y(&mut none);
    assert!(none.is_empty());
    let mut one = vec![sprite(1, 2, 3, 4)];
    sort_sprites_by_z_then_y(&mut one);
    assert_eq!(one, vec![sprite(1, 2, 3, 4)]);
}

#[test]
fn sort_keeps_every_sprite() {
    let mut sprites: Vec<Sprite> = Vec::new();
    for i in 0..200i16 {
        sprites.push(sprite(i, (i * 37) % 11 - 5, (i * 13) % 7 - 3, (i % 3) as usize));
    }
    let queued = sprites.clone();
    sort_sprites_by_z_then_y(&mut sprites);
    assert_eq!(sprites.len(), queued.len());
    for pair in sprites.windows(2) {
        assert!(pair[0].is_drawn_no_later_than(&pair[1]));
        if pair[1].is_drawn_no_later_than(&pair[0]) {
            assert!(pair[0].position.x < pair[1].position.x);
        }
    }
    for s in &queued {
        assert!(sprites.contains(s));
    }
}

#[test]
fn batches_are_runs_of_one_material() {
    let sprites = vec![
        sprite(0, 0, 0, 1),
        sprite(1, 0, 0, 1),
        sprite(2, 0, 0, 2),
        sprite(3, 0, 0, 1),
        sprite(4, 0, 0, 1),
        sprite(5, 0, 0, 1),
    ];
    let batches = batch_by_material(&sprites);
    assert_eq!(batches.len(), 3);
    assert_eq!(batches[0], vec![sprites[0], sprites[1]]);
    assert_eq!(batches[1], vec![sprites[2]]);
    assert_eq!(batches[2], vec![sprites[3], sprites[4], sprites[5]]);
}

#[test]
fn batches_tell_materials_apart_by_both_handles() {
    let mut other_pipeline = sprite(1, 0, 0, 1);
    other_pipeline.material.render_pipeline = 9;
    let sprites = vec![sprite(0, 0, 0, 1), other_pipeline, sprite(2, 0, 0, 1)];
    let batches = batch_by_material(&sprites);
    assert_eq!(batches, vec![vec![sprites[0]], vec![sprites[1]], vec![sprites[2]]]);
}

#[test]
fn batches_of_nothing_and_of_one_material() {
    let none: Vec<Sprite> = Vec::new();
    assert!(batch_by_material(&none).is_empty());
    let same = vec![sprite(0, 0, 0, 5), sprite(1, 1, 1, 5), sprite(2, 2, 2, 5)];
    assert_eq!(batch_by_material(&same), vec![same.clone()]);
}

#[test]
fn batches_put_together_are_the_sprites() {
    let mut sprites: Vec<Sprite> = Vec::new();
    for i in 0..100i16 {
        sprites.push(sprite(i, 0, 0, ((i / 3) % 4) as usize));
    }
    let batches = batch_by_material(&sprites);
    let joined: Vec<Sprite> = batches.iter().flatten().copied().collect();
    assert_eq!(joined, sprites);
    for batch in &batches {
        assert!(!batch.is_empty());
        for s in batch {
            assert_eq!(s.material, batch[0].material);
        }
    }
    for pair in batches.windows(2) {
        assert_ne!(pair[0][0].material, pair[1][0].material);
    }
}
