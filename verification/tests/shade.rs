use rasterizer::geometry::{Vertex, ONE};
use rasterizer::project::{world_to_screen, MAX_EXTENT};
use rasterizer::shade::{integer_sqrt, intensity, MODEL_LIMIT};

fn v(x: i32, y: i32, z: i32) -> Vertex {
    Vertex { x, y, z }
}

#[test]
fn project_maps_the_model_range_onto_the_screen() {
    let p = world_to_screen(&v(-ONE, ONE, 1234), 1023, 1023);
    assert_eq!((p.x, p.y, p.depth), (0, 1023, 1234));
    let q = world_to_screen(&v(0, 0, -ONE), 1023, 1023);
    assert_eq!((q.x, q.y, q.depth), (512, 512, -ONE));
}

#[test]
fn project_rounds_to_the_nearest_pixel() {
    // On a screen of 4 pixels a coordinate v falls on floor(2 v / ONE + 2.5).
    assert_eq!(world_to_screen(&v(ONE / 4, ONE / 4 - 1, 0), 4, 4).x, 3);
    assert_eq!(world_to_screen(&v(ONE / 4, ONE / 4 - 1, 0), 4, 4).y, 2);
    assert_eq!(world_to_screen(&v(-ONE / 4, 0, 0), 4, 4).x, 2);
    assert_eq!(world_to_screen(&v(-ONE / 4 - 1, 0, 0), 4, 4).x, 1);
}

#[test]
fn project_uses_width_and_height_separately() {
    let p = world_to_screen(&v(ONE, ONE, 7), 200, 100);
    assert_eq!((p.x, p.y, p.depth), (200, 100, 7));
    let q = world_to_screen(&v(ONE / 2, -ONE / 2, 7), 200, 100);
    assert_eq!((q.x, q.y), (150, 25));
}

#[test]
fn project_keeps_points_outside_the_model_range() {
    let p = world_to_screen(&v(-3 * ONE, 2 * ONE, 0), 100, 100);
    assert_eq!((p.x, p.y), (-100, 150));
    let q = world_to_screen(&v(-ONE - 1, 0, 0), 100, 100);
    assert_eq!(q.x, 0);
    let r = world_to_screen(&v(-ONE - 1312, 0, 0), 100, 100);
    assert_eq!(r.x, -1);
}

#[test]
fn project_handles_the_largest_inputs() {
    let p = world_to_screen(&v(i32::MAX, i32::MIN, i32::MIN), MAX_EXTENT, MAX_EXTENT);
    assert_eq!(p.x, 1_073_774_592);
    assert_eq!(p.y, -1_073_709_056);
    assert_eq!(p.depth, i32::MIN);
    let q = world_to_screen(&v(i32::MAX, i32::MIN, 0), 0, 0);
    assert_eq!((q.x, q.y), (0, 0));
}

#[test]
fn integer_sqrt_rounds_down() {
    assert_eq!(integer_sqrt(0), 0);
    assert_eq!(integer_sqrt(1), 1);
    assert_eq!(integer_sqrt(3), 1);
    assert_eq!(integer_sqrt(4), 2);
    assert_eq!(integer_sqrt(24), 4);
    assert_eq!(integer_sqrt(25), 5);
    assert_eq!(integer_sqrt(1 << 64), 1 << 32);
    assert_eq!(integer_sqrt((1 << 64) - 1), (1 << 32) - 1);
    assert_eq!(integer_sqrt(u128::MAX), u64::MAX);
}

#[test]
fn integer_sqrt_is_exact_around_squares() {
    for r in [1u128, 2, 7, 255, 65535, 65536, 4_294_967_295, 10_000_000_019, u64::MAX as u128] {
        assert_eq!(integer_sqrt(r * r) as u128, r);
        assert_eq!(integer_sqrt(r * r - 1) as u128, r - 1);
        if r < u64::MAX as u128 {
            assert_eq!(integer_sqrt(r * r + 2 * r) as u128, r);
        }
    }
}

#[test]
fn face_towards_the_light_is_fully_lit() {
    let light = v(0, 0, -ONE);
    let i = intensity(&v(0, 0, 0), &v(ONE, 0, 0), &v(0, ONE, 0), &light);
    assert_eq!(i, ONE as i64);
}

#[test]
fn face_away_from_the_light_is_unlit() {
    let light = v(0, 0, -ONE);
    let i = intensity(&v(0, 0, 0), &v(0, ONE, 0), &v(ONE, 0, 0), &light);
    assert_eq!(i, -(ONE as i64));
}

#[test]
fn face_along_the_light_has_no_intensity() {
    let light = v(0, 0, -ONE);
    let i = intensity(&v(0, 0, 0), &v(ONE, 0, 0), &v(0, 0, ONE), &light);
    assert_eq!(i, 0);
}

#[test]
fn face_without_area_has_no_intensity() {
    let light = v(0, 0, -ONE);
    assert_eq!(intensity(&v(0, 0, 0), &v(ONE, 0, 0), &v(2 * ONE, 0, 0), &light), 0);
    assert_eq!(intensity(&v(5, 5, 5), &v(5, 5, 5), &v(5, 5, 5), &light), 0);
}

#[test]
fn intensity_is_the_cosine_of_the_angle() {
    // The normal is (0, -1, -1) / sqrt(2): 45 degrees off the light.
    let light = v(0, 0, -ONE);
    let i = intensity(&v(0, 0, 0), &v(ONE, 0, 0), &v(0, ONE, -ONE), &light);
    assert_eq!(i, 46340);
    // The normal is (0, -3, -4) / 5.
    let j = intensity(&v(0, 0, 0), &v(ONE, 0, 0), &v(0, 4 * ONE, -3 * ONE), &light);
    assert_eq!(j, 52428);
    let k = intensity(&v(0, 0, 0), &v(0, 4 * ONE, -3 * ONE), &v(ONE, 0, 0), &light);
    assert_eq!(k, -52428);
}

#[test]
fn intensity_does_not_depend_on_the_size_of_the_face() {
    let light = v(0, 0, -ONE);
    let small = intensity(&v(0, 0, 0), &v(3, 0, 0), &v(0, 4, -3), &light);
    let large = intensity(
        &v(-MODEL_LIMIT, -MODEL_LIMIT, MODEL_LIMIT),
        &v(MODEL_LIMIT, -MODEL_LIMIT, MODEL_LIMIT),
        &v(-MODEL_LIMIT, MODEL_LIMIT, -MODEL_LIMIT / 2),
        &light,
    );
    assert_eq!(small, 52428);
    assert_eq!(large, 52428);
}

#[test]
fn intensity_handles_the_largest_inputs() {
    let m = MODEL_LIMIT;
    let i = intensity(&v(-m, -m, -m), &v(m, -m, -m), &v(-m, m, -m), &v(m, m, -m));
    assert_eq!(i, m as i64);
    let j = intensity(&v(-m, -m, -m), &v(-m, m, -m), &v(m, -m, -m), &v(m, m, -m));
    assert_eq!(j, -(m as i64));
}

#[test]
fn intensity_under_a_unit_light_is_at_most_one() {
    // Unit directions whose squared length is ONE * ONE or just below.
    let lights = [v(0, 0, -ONE), v(ONE, 0, 0), v(39321, 0, -52428), v(-37837, 37837, 37837)];
    let corners = [v(0, 0, 0), v(ONE, 3, -7), v(-5, ONE, 11), v(123, -456, ONE), v(-ONE, -ONE, 9)];
    for light in lights {
        for a in corners {
            for b in corners {
                for c in corners {
                    let i = intensity(&a, &b, &c, &light);
                    assert!(-(ONE as i64) <= i && i <= ONE as i64);
                    assert_eq!(intensity(&a, &c, &b, &light), -i);
                }
            }
        }
    }
}
