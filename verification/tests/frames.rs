use swamp_render::frame::{
    encode_frame, DrawCommand, SpriteUniform, INDEX_COUNT, INDICES, MATERIAL_GROUP, QUAD_SLOT,
    UNIFORM_GROUP,
};
use swamp_render::geometry::{URect, UVec2, Vec2, Vec3};
use swamp_render::render::Render;
use swamp_render::sprite::{Sprite, SpriteMaterial, SpriteParams};

fn draw_of(x: i16, y: i16, rect: (u16, u16, u16, u16)) -> Vec<DrawCommand> {
    vec![
        DrawCommand::WriteUniform {
            uniform: SpriteUniform {
                translation: Vec2 { x, y },
                scale: UVec2 { x: rect.2, y: rect.3 },
                tex_min: UVec2 { x: rect.0, y: rect.1 },
                tex_max: UVec2 { x: rect.0 + rect.2, y: rect.1 + rect.3 },
            },
        },
        DrawCommand::SetUniform { group: 0 },
        DrawCommand::DrawIndexed { index_count: 6 },
    ]
}

fn setup_of(pipeline: usize) -> Vec<DrawCommand> {
    vec![
        DrawCommand::SetPipeline { pipeline },
        DrawCommand::SetIndexBuffer,
        DrawCommand::SetVertexBuffer { slot: 0 },
    ]
}

#[test]
fn quad_has_two_triangles() {
    assert_eq!(INDICES, [0, 1, 2, 0, 2, 3]);
    assert_eq!(INDEX_COUNT as usize, INDICES.len());
    assert_eq!(UNIFORM_GROUP, 0);
    assert_eq!(MATERIAL_GROUP, 1);
    assert_eq!(QUAD_SLOT, 0);
}

#[test]
fn uniform_of_a_sprite() {
    let sprite = Sprite {
        position: Vec3::new(-20, 30, 77),
        atlas_rect: URect::new(32, 64, 16, 8),
        material: SpriteMaterial { bind_group: 0, render_pipeline: 0 },
        params: SpriteParams::default(),
    };
    let uniform = SpriteUniform::for_sprite(&sprite);
    assert_eq!(uniform.translation, Vec2 { x: -20, y: 30 });
    assert_eq!(uniform.scale, UVec2 { x: 16, y: 8 });
    assert_eq!(uniform.tex_min, UVec2 { x: 32, y: 64 });
    assert_eq!(uniform.tex_max, UVec2 { x: 48, y: 72 });
    assert_eq!(
        uniform,
        SpriteUniform::new(
            Vec2::new(-20, 30),
            UVec2::new(16, 8),
            UVec2::new(32, 64),
            UVec2::new(48, 72)
        )
    );
}

#[test]
fn uniform_reaches_the_last_texel_coordinate() {
    let sprite = Sprite {
        position: Vec3::new(0, 0, 0),
        atlas_rect: URect::new(65000, 1, 535, 65534),
        material: SpriteMaterial { bind_group: 0, render_pipeline: 0 },
        params: SpriteParams::default(),
    };
    assert_eq!(SpriteUniform::for_sprite(&sprite).tex_max, UVec2 { x: 65535, y: 65535 });
}

#[test]
fn empty_frame_only_sets_up() {
    assert_eq!(encode_frame(4, &Vec::new()), setup_of(4));
    let mut render = Render::new(4);
    assert_eq!(render.render(), setup_of(4));
}

#[test]
fn encode_binds_once_a_batch() {
    let m1 = SpriteMaterial { bind_group: 1, render_pipeline: 0 };
    let m2 = SpriteMaterial { bind_group: 2, render_pipeline: 0 };
    let s = |x: i16, material: SpriteMaterial| Sprite {
        position: Vec3::new(x, 0, 0),
        atlas_rect: URect::new(0, 0, 4, 4),
        material,
        params: SpriteParams::default(),
    };
    let batches = vec![vec![s(1, m1), s(2, m1)], Vec::new(), vec![s(3, m2)]];
    let mut expected = setup_of(0);
    expected.push(DrawCommand::SetMaterial { group: 1, bind_group: 1 });
    expected.extend(draw_of(1, 0, (0, 0, 4, 4)));
    expected.extend(draw_of(2, 0, (0, 0, 4, 4)));
    expected.push(DrawCommand::SetMaterial { group: 1, bind_group: 2 });
    expected.extend(draw_of(3, 0, (0, 0, 4, 4)));
    assert_eq!(encode_frame(0, &batches), expected);
}

#[test]
fn frame_sorts_then_batches() {
    let mut render = Render::new(3);
    let grass = render.add_material();
    let hero = render.add_material();
    assert_eq!(grass, SpriteMaterial { bind_group: 0, render_pipeline: 3 });
    assert_eq!(hero, SpriteMaterial { bind_group: 1, render_pipeline: 3 });
    let params = SpriteParams::default();
    render.render_sprite(Vec3::new(10, 5, 1), URect::new(0, 0, 8, 8), &hero, params);
    render.render_sprite(Vec3::new(20, 0, 0), URect::new(8, 0, 8, 8), &grass, params);
    render.render_sprite_2d(Vec2::new(30, 0), URect::new(16, 0, 8, 8), &grass, params);
    render.render_sprite(Vec3::new(40, 5, 1), URect::new(0, 8, 8, 16), &hero, params);
    render.render_sprite(Vec3::new(50, -1, 1), URect::new(0, 0, 2, 2), &grass, params);

    let mut expected = setup_of(3);
    expected.push(DrawCommand::SetMaterial { group: 1, bind_group: 0 });
    expected.extend(draw_of(20, 0, (8, 0, 8, 8)));
    expected.extend(draw_of(30, 0, (16, 0, 8, 8)));
    expected.extend(draw_of(50, -1, (0, 0, 2, 2)));
    expected.push(DrawCommand::SetMaterial { group: 1, bind_group: 1 });
    expected.extend(draw_of(10, 5, (0, 0, 8, 8)));
    expected.extend(draw_of(40, 5, (0, 8, 8, 16)));
    assert_eq!(render.render(), expected);
}

#[test]
fn frame_rebinds_when_the_material_comes_back() {
    let mut render = Render::new(0);
    let a = render.add_material();
    let b = render.add_material();
    let params = SpriteParams::default();
    let rect = URect::new(0, 0, 1, 1);
    render.render_sprite(Vec3::new(1, 0, 0), rect, &a, params);
    render.render_sprite(Vec3::new(2, 0, 1), rect, &b, params);
    render.render_sprite(Vec3::new(3, 0, 2), rect, &a, params);
    let commands = render.render();
    let binds: Vec<usize> = commands
        .iter()
        .filter_map(|c| match c {
            DrawCommand::SetMaterial { bind_group, .. } => Some(*bind_group),
            _ => None,
        })
        .collect();
    assert_eq!(binds, vec![0, 1, 0]);
    assert_eq!(commands.len(), 3 + 3 + 3 * 3);
}

#[test]
fn render_empties_the_queue_and_keeps_the_materials() {
    let mut render = Render::new(2);
    let first = render.add_material();
    render.render_sprite(
        Vec3::new(1, 2, 3),
        URect::new(0, 0, 1, 1),
        &first,
        SpriteParams::default(),
    );
    assert_eq!(render.render().len(), 3 + 1 + 3);
    assert_eq!(render.render(), setup_of(2));
    assert_eq!(render.add_material(), SpriteMaterial { bind_group: 1, render_pipeline: 2 });
}

#[test]
fn depth_plays_no_part_in_the_uniform() {
    let mut render = Render::new(0);
    let m = render.add_material();
    render.render_sprite(
        Vec3::new(7, 8, 900),
        URect::new(1, 2, 3, 4),
        &m,
        SpriteParams::default(),
    );
    let commands = render.render();
    assert_eq!(commands[4..].to_vec(), draw_of(7, 8, (1, 2, 3, 4)));
}

#[test]
fn params_do_not_change_the_commands() {
    let mut render = Render::new(0);
    let m = render.add_material();
    let params = SpriteParams {
        dest_size: Some(UVec2::new(9, 9)),
        source: Some(URect::new(1, 1, 1, 1)),
        rotation: 90,
        flip_x: true,
        flip_y: true,
        pivot: Some(Vec2::new(1, 1)),
    };
    render.render_sprite(Vec3::new(7, 8, 0), URect::new(1, 2, 3, 4), &m, params);
    let commands = render.render();
    assert_eq!(commands[4..].to_vec(), draw_of(7, 8, (1, 2, 3, 4)));
}
