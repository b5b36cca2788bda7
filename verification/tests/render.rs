use rasterizer::canvas::Canvas;
use rasterizer::color::Color;
use rasterizer::geometry::{TexCoord, Vertex, ONE};
use rasterizer::project::MAX_EXTENT;
use rasterizer::render::{draw_face, render, Config, Face, Material, RenderError};
use rasterizer::shade::MODEL_LIMIT;
use rasterizer::target::{RenderTarget, FARTHEST};

const BLACK: Color = Color { r: 0, g: 0, b: 0, a: 255 };
const WHITE: Color = Color { r: 255, g: 255, b: 255, a: 255 };
const GREY: Color = Color { r: 127, g: 127, b: 127, a: 127 };

fn v(x: i32, y: i32, z: i32) -> Vertex {
    Vertex { x, y, z }
}

fn config(width: u32, height: u32) -> Config {
    Config { width, height, light: v(0, 0, -ONE), background: BLACK }
}

/// A face that covers the lower left half of the screen and looks at the
/// light.
fn lit_face() -> Face {
    Face { positions: [v(-ONE, -ONE, 0), v(ONE, -ONE, 0), v(-ONE, ONE, 0)], uvs: None }
}

/// The same face, wound the other way.
fn unlit_face() -> Face {
    Face { positions: [v(-ONE, -ONE, 0), v(-ONE, ONE, 0), v(ONE, -ONE, 0)], uvs: None }
}

fn snapshot(t: &RenderTarget) -> Vec<(i32, Color)> {
    let mut cells = Vec::new();
    for y in 0..t.height() {
        for x in 0..t.width() {
            cells.push((t.depth_at(x, y), t.color_at(x, y)));
        }
    }
    cells
}

#[test]
fn render_draws_lit_faces_top_row_first() {
    let image = render(&config(4, 4), &[lit_face()], &Material::Flat(WHITE)).unwrap();
    assert_eq!(image.width(), 4);
    assert_eq!(image.height(), 4);
    for y in 0..4u32 {
        for x in 0..4u32 {
            // Row y of the image is row 3 - y of the screen, where the face
            // covers the pixels with x + y <= 4.
            let covered = x + (3 - y) <= 4;
            let expected = if covered { WHITE } else { BLACK };
            assert_eq!(image.get(x, y), Some(expected));
        }
    }
    assert_eq!(image.get(3, 0), Some(BLACK));
    assert_eq!(image.get(3, 3), Some(WHITE));
}

#[test]
fn render_drops_faces_that_look_away_from_the_light() {
    let image = render(&config(4, 4), &[unlit_face()], &Material::Flat(WHITE)).unwrap();
    for y in 0..4 {
        for x in 0..4 {
            assert_eq!(image.get(x, y), Some(BLACK));
        }
    }
}

#[test]
fn render_without_faces_is_the_background() {
    let image = render(&config(3, 2), &[], &Material::Flat(WHITE)).unwrap();
    assert_eq!((image.width(), image.height()), (3, 2));
    for y in 0..2 {
        for x in 0..3 {
            assert_eq!(image.get(x, y), Some(BLACK));
        }
    }
}

#[test]
fn render_dims_the_flat_colour_by_the_light() {
    // The normal of this face is 60 degrees off the light: half intensity.
    let face = Face {
        positions: [v(-ONE, -ONE, 0), v(ONE, -ONE, 0), v(-ONE, 0, -113512)],
        uvs: None,
    };
    let image = render(&config(4, 4), &[face], &Material::Flat(WHITE)).unwrap();
    assert_eq!(image.get(0, 3), Some(GREY));
}

#[test]
fn render_hides_the_farther_face() {
    let near = Face {
        positions: [v(-ONE, -ONE, 100), v(ONE, -ONE, 100), v(-ONE, ONE, 100)],
        uvs: None,
    };
    let far = Face {
        positions: [v(-ONE, -ONE, -100), v(ONE, -ONE, -100), v(-ONE, ONE, -100)],
        uvs: Some([TexCoord { u: 0, v: 0 }, TexCoord { u: 0, v: 0 }, TexCoord { u: 0, v: 0 }]),
    };
    let mut red = Canvas::filled(1, 1, Color::new(255, 0, 0, 255)).unwrap();
    red.set(0, 0, Color::new(250, 0, 0, 255));
    let textured = Material::Textured(&red);
    let a = render(&config(6, 6), &[near, far], &Material::Flat(WHITE)).unwrap();
    let b = render(&config(6, 6), &[far, near], &Material::Flat(WHITE)).unwrap();
    for y in 0..6 {
        for x in 0..6 {
            assert_eq!(a.get(x, y), b.get(x, y));
        }
    }
    let mut target = RenderTarget::new(6, 6, BLACK).unwrap();
    let light = v(0, 0, -ONE);
    assert_eq!(draw_face(&mut target, 0, &far, &light, &textured), Ok(true));
    assert_eq!(target.color_at(1, 1), Color::new(250, 0, 0, 255));
    assert_eq!(target.depth_at(1, 1), -100);
    assert_eq!(draw_face(&mut target, 1, &near, &light, &Material::Flat(WHITE)), Ok(true));
    assert_eq!(target.color_at(1, 1), WHITE);
    assert_eq!(target.depth_at(1, 1), 100);
    assert_eq!(draw_face(&mut target, 2, &far, &light, &textured), Ok(true));
    assert_eq!(target.color_at(1, 1), WHITE);
    assert_eq!(target.depth_at(1, 1), 100);
}

#[test]
fn render_samples_the_texture() {
    let mut texture = Canvas::filled(2, 2, BLACK).unwrap();
    texture.set(1, 0, Color::new(200, 100, 50, 254));
    let uv = TexCoord { u: 3 * ONE / 4, v: ONE / 4 };
    let face = Face { uvs: Some([uv, uv, uv]), ..lit_face() };
    let image = render(&config(4, 4), &[face], &Material::Textured(&texture)).unwrap();
    assert_eq!(image.get(0, 3), Some(Color::new(200, 100, 50, 254)));
    assert_eq!(image.get(3, 0), Some(BLACK));
}

#[test]
fn back_facing_triangle_writes_nothing() {
    let mut target = RenderTarget::new(8, 8, BLACK).unwrap();
    target.try_write(2, 2, 5, WHITE);
    let before = snapshot(&target);
    let light = v(0, 0, -ONE);
    let out = draw_face(&mut target, 0, &unlit_face(), &light, &Material::Flat(WHITE));
    assert_eq!(out, Ok(false));
    assert_eq!(snapshot(&target), before);
    assert_eq!(target.depth_at(0, 0), FARTHEST);
}

#[test]
fn face_edge_on_to_the_light_writes_nothing() {
    let mut target = RenderTarget::new(8, 8, BLACK).unwrap();
    let before = snapshot(&target);
    let face = Face { positions: [v(0, 0, 0), v(ONE, 0, 0), v(0, 0, ONE)], uvs: None };
    let out = draw_face(&mut target, 0, &face, &v(0, 0, -ONE), &Material::Flat(WHITE));
    assert_eq!(out, Ok(false));
    assert_eq!(snapshot(&target), before);
}

#[test]
fn lit_face_is_drawn() {
    let mut target = RenderTarget::new(8, 8, BLACK).unwrap();
    let out = draw_face(&mut target, 0, &lit_face(), &v(0, 0, -ONE), &Material::Flat(WHITE));
    assert_eq!(out, Ok(true));
    assert_eq!(target.color_at(0, 0), WHITE);
    assert_eq!(target.depth_at(0, 0), 0);
    assert_eq!(target.color_at(7, 7), BLACK);
}

#[test]
fn faulty_face_is_not_drawn() {
    let mut target = RenderTarget::new(8, 8, BLACK).unwrap();
    let before = snapshot(&target);
    let texture = Canvas::filled(2, 2, WHITE).unwrap();
    let light = v(0, 0, -ONE);
    let out = draw_face(&mut target, 7, &lit_face(), &light, &Material::Textured(&texture));
    assert_eq!(out, Err(RenderError::MissingTexCoords { face: 7 }));
    let mut wide = lit_face();
    wide.positions[1].x = MODEL_LIMIT + 1;
    let out = draw_face(&mut target, 9, &wide, &light, &Material::Textured(&texture));
    assert_eq!(out, Err(RenderError::VertexOutOfRange { face: 9 }));
    assert_eq!(snapshot(&target), before);
}

#[test]
fn render_refuses_a_target_that_is_too_large() {
    let out = render(&config(MAX_EXTENT + 1, 4), &[lit_face()], &Material::Flat(WHITE));
    assert_eq!(out.err(), Some(RenderError::TargetTooLarge));
    let out = render(&config(4, u32::MAX), &[lit_face()], &Material::Flat(WHITE));
    assert_eq!(out.err(), Some(RenderError::TargetTooLarge));
}

#[test]
fn render_refuses_an_empty_texture() {
    let empty = Canvas::filled(0, 5, WHITE).unwrap();
    let out = render(&config(4, 4), &[], &Material::Textured(&empty));
    assert_eq!(out.err(), Some(RenderError::EmptyTexture));
}

#[test]
fn render_refuses_a_light_out_of_range() {
    let mut c = config(4, 4);
    c.light = v(0, MODEL_LIMIT + 1, 0);
    let out = render(&c, &[lit_face()], &Material::Flat(WHITE));
    assert_eq!(out.err(), Some(RenderError::LightOutOfRange));
    c.light = v(0, -MODEL_LIMIT, MODEL_LIMIT);
    assert!(render(&c, &[lit_face()], &Material::Flat(WHITE)).is_ok());
}

#[test]
fn render_refuses_a_vertex_out_of_range() {
    let mut far = lit_face();
    far.positions[2].z = -MODEL_LIMIT - 1;
    let out = render(&config(4, 4), &[lit_face(), far, lit_face()], &Material::Flat(WHITE));
    assert_eq!(out.err(), Some(RenderError::VertexOutOfRange { face: 1 }));
}

#[test]
fn render_refuses_a_textured_mesh_without_texture_coordinates() {
    let texture = Canvas::filled(2, 2, WHITE).unwrap();
    let uv = TexCoord { u: 0, v: 0 };
    let with = Face { uvs: Some([uv, uv, uv]), ..lit_face() };
    let out = render(&config(4, 4), &[with, with, lit_face()], &Material::Textured(&texture));
    assert_eq!(out.err(), Some(RenderError::MissingTexCoords { face: 2 }));
    assert!(render(&config(4, 4), &[with, with], &Material::Textured(&texture)).is_ok());
    assert!(render(&config(4, 4), &[lit_face()], &Material::Flat(WHITE)).is_ok());
}

#[test]
fn render_reports_the_first_fault() {
    let texture = Canvas::filled(2, 2, WHITE).unwrap();
    let mut wide = lit_face();
    wide.positions[0].y = MODEL_LIMIT + 1;
    let out = render(&config(4, 4), &[lit_face(), wide], &Material::Textured(&texture));
    assert_eq!(out.err(), Some(RenderError::MissingTexCoords { face: 0 }));
    let out = render(&config(4, 4), &[wide, lit_face()], &Material::Textured(&texture));
    assert_eq!(out.err(), Some(RenderError::VertexOutOfRange { face: 0 }));
    let mut c = config(MAX_EXTENT + 1, 4);
    c.light = v(i32::MAX, 0, 0);
    let empty = Canvas::filled(0, 0, WHITE).unwrap();
    let out = render(&c, &[wide], &Material::Textured(&empty));
    assert_eq!(out.err(), Some(RenderError::TargetTooLarge));
    c.width = 4;
    let out = render(&c, &[wide], &Material::Textured(&empty));
    assert_eq!(out.err(), Some(RenderError::EmptyTexture));
    let out = render(&c, &[wide], &Material::Textured(&texture));
    assert_eq!(out.err(), Some(RenderError::LightOutOfRange));
}
