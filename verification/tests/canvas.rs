use rasterizer::canvas::Canvas;
use rasterizer::color::Color;

const RED: Color = Color { r: 255, g: 0, b: 0, a: 255 };
const BLUE: Color = Color { r: 0, g: 0, b: 255, a: 255 };

#[test]
fn filled_canvas_reports_size_and_colour() {
    let canvas = Canvas::filled(4, 3, RED).unwrap();
    assert_eq!(canvas.width(), 4);
    assert_eq!(canvas.height(), 3);
    for y in 0..3 {
        for x in 0..4 {
            assert_eq!(canvas.get(x, y), Some(RED));
        }
    }
}

#[test]
fn get_outside_the_canvas_is_none() {
    let canvas = Canvas::filled(4, 3, RED).unwrap();
    assert_eq!(canvas.get(4, 2), None);
    assert_eq!(canvas.get(0, 3), None);
    assert_eq!(canvas.get(u32::MAX, u32::MAX), None);
}

#[test]
fn canvas_too_large_to_address_is_refused() {
    assert!(Canvas::filled(u32::MAX, u32::MAX, RED).is_none());
}

#[test]
fn empty_canvas_is_allowed() {
    let canvas = Canvas::filled(0, 7, RED).unwrap();
    assert_eq!(canvas.width(), 0);
    assert_eq!(canvas.height(), 7);
    assert_eq!(canvas.get(0, 0), None);
}

#[test]
fn set_changes_one_pixel_only() {
    let mut canvas = Canvas::filled(3, 2, RED).unwrap();
    assert!(canvas.set(2, 1, BLUE));
    for y in 0..2 {
        for x in 0..3 {
            let expected = if (x, y) == (2, 1) { BLUE } else { RED };
            assert_eq!(canvas.get(x, y), Some(expected));
        }
    }
    assert_eq!(canvas.width(), 3);
    assert_eq!(canvas.height(), 2);
}

#[test]
fn set_outside_the_canvas_stores_nothing() {
    let mut canvas = Canvas::filled(3, 2, RED).unwrap();
    assert!(!canvas.set(3, 0, BLUE));
    assert!(!canvas.set(0, 2, BLUE));
    for y in 0..2 {
        for x in 0..3 {
            assert_eq!(canvas.get(x, y), Some(RED));
        }
    }
}

#[test]
fn flip_vertical_swaps_rows() {
    let mut canvas = Canvas::filled(2, 3, RED).unwrap();
    for y in 0..3u32 {
        for x in 0..2u32 {
            canvas.set(x, y, Color::new(x as u8, y as u8, 0, 255));
        }
    }
    canvas.flip_vertical();
    assert_eq!(canvas.width(), 2);
    assert_eq!(canvas.height(), 3);
    for y in 0..3u32 {
        for x in 0..2u32 {
            assert_eq!(canvas.get(x, y), Some(Color::new(x as u8, (2 - y) as u8, 0, 255)));
        }
    }
}

#[test]
fn modulate_scales_every_channel_and_rounds_down() {
    let c = Color::new(255, 200, 101, 3);
    assert_eq!(c.modulate(65536), c);
    assert_eq!(c.modulate(32768), Color::new(127, 100, 50, 1));
    assert_eq!(c.modulate(1), Color::new(0, 0, 0, 0));
}

#[test]
fn modulate_saturates_at_the_channel_range() {
    let c = Color::new(255, 200, 1, 0);
    assert_eq!(c.modulate(2 * 65536), Color::new(255, 255, 2, 0));
    assert_eq!(c.modulate(0), Color::new(0, 0, 0, 0));
    assert_eq!(c.modulate(-65536), Color::new(0, 0, 0, 0));
    assert_eq!(c.modulate(i64::MAX), Color::new(255, 255, 255, 0));
    assert_eq!(c.modulate(i64::MIN), Color::new(0, 0, 0, 0));
}

#[test]
fn light_of_at_most_full_intensity_never_brightens() {
    for c in [0u8, 1, 2, 100, 254, 255] {
        for i in [i64::MIN, -1, 0, 1, 255, 256, 257, 32768, 65535, 65536] {
            let lit = Color::new(c, c, c, c).modulate(i);
            assert!(lit.r <= c);
            assert_eq!((lit.g, lit.b, lit.a), (lit.r, lit.r, lit.r));
        }
    }
}
