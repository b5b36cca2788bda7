use rasterizer::barycentric::barycentric;
use rasterizer::bbox::{bounding_box, BoundingBox};
use rasterizer::geometry::{Point, ScreenPoint};

fn sp(x: i32, y: i32) -> ScreenPoint {
    ScreenPoint { x, y, depth: 0 }
}

fn edge(a: (i64, i64), b: (i64, i64), p: (i64, i64)) -> i64 {
    (b.0 - a.0) * (p.1 - a.1) - (b.1 - a.1) * (p.0 - a.0)
}

#[test]
fn weights_of_an_interior_point() {
    let t = [sp(0, 0), sp(4, 0), sp(0, 4)];
    let w = barycentric(&t, Point { x: 1, y: 1 });
    assert_eq!((w.w0, w.w1, w.w2, w.denom), (8, 4, 4, 16));
    assert!(w.covers());
}

#[test]
fn weights_of_an_outside_point() {
    let t = [sp(0, 0), sp(4, 0), sp(0, 4)];
    let w = barycentric(&t, Point { x: 5, y: 5 });
    assert_eq!((w.w0, w.w1, w.w2, w.denom), (-24, 20, 20, 16));
    assert!(!w.covers());
}

#[test]
fn weights_follow_the_order_of_the_vertices() {
    let t = [sp(0, 0), sp(4, 0), sp(0, 4)];
    let at_v0 = barycentric(&t, Point { x: 0, y: 0 });
    let at_v1 = barycentric(&t, Point { x: 4, y: 0 });
    let at_v2 = barycentric(&t, Point { x: 0, y: 4 });
    assert_eq!((at_v0.w0, at_v0.w1, at_v0.w2, at_v0.denom), (16, 0, 0, 16));
    assert_eq!((at_v1.w0, at_v1.w1, at_v1.w2, at_v1.denom), (0, 16, 0, 16));
    assert_eq!((at_v2.w0, at_v2.w1, at_v2.w2, at_v2.denom), (0, 0, 16, 16));
}

#[test]
fn weights_do_not_depend_on_the_winding() {
    let ccw = [sp(0, 0), sp(4, 0), sp(0, 4)];
    let cw = [sp(0, 0), sp(0, 4), sp(4, 0)];
    let a = barycentric(&ccw, Point { x: 1, y: 2 });
    let b = barycentric(&cw, Point { x: 1, y: 2 });
    assert_eq!(a.denom, 16);
    assert_eq!(b.denom, 16);
    assert_eq!((a.w0, a.w1, a.w2), (4, 4, 8));
    assert_eq!((b.w0, b.w1, b.w2), (4, 8, 4));
}

#[test]
fn degenerate_triangles_have_the_sentinel() {
    let collinear = [sp(0, 0), sp(1, 1), sp(2, 2)];
    let duplicate = [sp(3, 4), sp(3, 4), sp(9, 1)];
    let point = [sp(5, 5), sp(5, 5), sp(5, 5)];
    for t in [collinear, duplicate, point] {
        for p in [Point { x: 1, y: 1 }, Point { x: 5, y: 5 }, Point { x: -3, y: 8 }] {
            let w = barycentric(&t, p);
            assert_eq!((w.w0, w.w1, w.w2, w.denom), (-1, 1, 1, 1));
            assert!(!w.covers());
        }
    }
}

#[test]
fn weights_sum_to_the_denominator_and_reproduce_the_point() {
    let t = [sp(-7, 3), sp(12, -5), sp(4, 20)];
    for y in -10..25 {
        for x in -10..15 {
            let w = barycentric(&t, Point { x, y });
            assert!(w.denom > 0);
            assert_eq!(w.w0 + w.w1 + w.w2, w.denom);
            assert_eq!(w.w0 * -7 + w.w1 * 12 + w.w2 * 4, w.denom * x as i128);
            assert_eq!(w.w0 * 3 + w.w1 * -5 + w.w2 * 20, w.denom * y as i128);
        }
    }
}

#[test]
fn weights_tell_inside_from_outside() {
    let v = [(-7i64, 3i64), (12, -5), (4, 20)];
    let t = [sp(-7, 3), sp(12, -5), sp(4, 20)];
    let area = edge(v[0], v[1], v[2]);
    assert!(area > 0);
    for y in -10..25 {
        for x in -10..15 {
            let p = (x as i64, y as i64);
            let e = [edge(v[1], v[2], p), edge(v[2], v[0], p), edge(v[0], v[1], p)];
            let w = barycentric(&t, Point { x, y });
            if e.iter().all(|s| *s > 0) {
                for n in [w.w0, w.w1, w.w2] {
                    assert!(0 < n && n < w.denom);
                }
            }
            if e.iter().any(|s| *s < 0) {
                assert!(w.w0 < 0 || w.w1 < 0 || w.w2 < 0);
                assert!(!w.covers());
            }
        }
    }
}

#[test]
fn weights_of_extreme_coordinates_do_not_overflow() {
    let t = [sp(i32::MIN, i32::MIN), sp(i32::MAX, i32::MIN), sp(i32::MIN, i32::MAX)];
    let w = barycentric(&t, Point { x: i32::MAX, y: i32::MAX });
    let side = (1i128 << 32) - 1;
    assert_eq!(w.denom, side * side);
    assert_eq!(w.w0, -(side * side));
    assert_eq!(w.w1, side * side);
    assert_eq!(w.w2, side * side);
}

#[test]
fn interpolate_is_the_weighted_sum_rounded_down() {
    let t = [sp(0, 0), sp(4, 0), sp(0, 4)];
    let w = barycentric(&t, Point { x: 1, y: 1 });
    assert_eq!(w.interpolate(0, 100, 200), 75);
    assert_eq!(w.interpolate(7, 7, 7), 7);
    assert_eq!(w.interpolate(-1, 0, 0), -1);
    assert_eq!(w.interpolate(1, 0, 0), 0);
    assert_eq!(w.interpolate(i32::MAX, i32::MAX, i32::MAX), i32::MAX);
    assert_eq!(w.interpolate(i32::MIN, i32::MIN, i32::MIN), i32::MIN);
}

#[test]
fn bounding_box_spans_the_points() {
    let t = [sp(10, 20), sp(90, 5), sp(50, 80)];
    assert_eq!(
        bounding_box(&t, 100, 100),
        BoundingBox { min_x: 10, min_y: 5, max_x: 90, max_y: 80 }
    );
}

#[test]
fn bounding_box_is_cut_to_the_screen() {
    let t = [sp(-10, 20), sp(150, -5), sp(50, 120)];
    assert_eq!(
        bounding_box(&t, 100, 60),
        BoundingBox { min_x: 0, min_y: 0, max_x: 99, max_y: 59 }
    );
}

#[test]
fn bounding_box_off_screen_is_empty() {
    let left = [sp(-10, 5), sp(-3, 8), sp(-7, 1)];
    let b = bounding_box(&left, 100, 100);
    assert_eq!(b, BoundingBox { min_x: 0, min_y: 1, max_x: -3, max_y: 8 });
    assert!(b.min_x > b.max_x);
    let right = [sp(200, 5), sp(300, 8), sp(250, 1)];
    let b = bounding_box(&right, 100, 100);
    assert_eq!(b, BoundingBox { min_x: 200, min_y: 1, max_x: 99, max_y: 8 });
    assert!(b.min_x > b.max_x);
}

#[test]
fn bounding_box_of_no_points_is_empty() {
    let b = bounding_box(&[], 100, 100);
    assert_eq!(
        b,
        BoundingBox { min_x: i32::MAX, min_y: i32::MAX, max_x: i32::MIN, max_y: i32::MIN }
    );
}

#[test]
fn bounding_box_on_an_empty_screen_is_empty() {
    let t = [sp(0, 0), sp(4, 0), sp(0, 4)];
    let b = bounding_box(&t, 0, 0);
    assert_eq!(b, BoundingBox { min_x: 0, min_y: 0, max_x: -1, max_y: -1 });
}

#[test]
fn bounding_box_takes_any_number_of_points() {
    let pts = [sp(3, 3), sp(1, 9), sp(7, 2), sp(5, 5), sp(-2, 4)];
    assert_eq!(
        bounding_box(&pts, 1000, 1000),
        BoundingBox { min_x: 0, min_y: 2, max_x: 7, max_y: 9 }
    );
    assert_eq!(
        bounding_box(&pts[..1], 1000, 1000),
        BoundingBox { min_x: 3, min_y: 3, max_x: 3, max_y: 3 }
    );
}
