//! Points, in the model and on the screen.
//!
//! Screen positions are whole pixels. Depths, model coordinates, texture
//! coordinates and light intensities are fixed-point numbers with 16
//! fractional bits: the integer [`ONE`] stands for `1.0`.

use vstd::prelude::*;

verus! {

/// The fixed-point representation of `1.0`.
pub const ONE: i32 = 65536;

/// A pixel position. `x` counts columns from the left, `y` rows from the
/// bottom.
#[derive(Clone, Copy, Debug, PartialEq, Eq, Structural)]
pub struct Point {
    pub x: i32,
    pub y: i32,
}

/// A projected vertex: a pixel position and a fixed-point depth. Larger
/// depths are nearer to the viewer.
#[derive(Clone, Copy, Debug, PartialEq, Eq, Structural)]
pub struct ScreenPoint {
    pub x: i32,
    pub y: i32,
    pub depth: i32,
}

/// A fixed-point position or direction in model space. By convention the
/// components of a position lie between `-ONE` and `ONE`.
#[derive(Clone, Copy, Debug, PartialEq, Eq, Structural)]
pub struct Vertex {
    pub x: i32,
    pub y: i32,
    pub z: i32,
}

/// A fixed-point texture coordinate; `0` and `ONE` are the edges of the
/// texture.
#[derive(Clone, Copy, Debug, PartialEq, Eq, Structural)]
pub struct TexCoord {
    pub u: i32,
    pub v: i32,
}

/// Twice the signed area of the triangle `a`, `b`, `c`: positive when the
/// three points turn counter-clockwise, negative when they turn clockwise,
/// zero when they lie on one line.
pub open spec fn orient(ax: int, ay: int, bx: int, by: int, cx: int, cy: int) -> int {
    (bx - ax) * (cy - ay) - (by - ay) * (cx - ax)
}

/// Twice the signed area of a screen triangle.
pub open spec fn doubled_area(t: [ScreenPoint; 3]) -> int {
    orient(t[0].x as int, t[0].y as int, t[1].x as int, t[1].y as int, t[2].x as int, t[2].y as int)
}

/// A triangle without area: its vertices lie on one line, or two of them
/// coincide.
pub open spec fn is_degenerate(t: [ScreenPoint; 3]) -> bool {
    doubled_area(t) == 0
}

/// Twice the signed area of the triangle spanned by the edge from vertex
/// `i` to vertex `j` and the point `(x, y)`.
pub open spec fn edge_side(t: [ScreenPoint; 3], i: int, j: int, x: int, y: int) -> int {
    orient(t[i].x as int, t[i].y as int, t[j].x as int, t[j].y as int, x, y)
}

/// `(x, y)` lies in the interior of the triangle: strictly on the inner
/// side of each of its three edges.
pub open spec fn strictly_inside(t: [ScreenPoint; 3], x: int, y: int) -> bool {
    let d = doubled_area(t);
    let e0 = edge_side(t, 1, 2, x, y);
    let e1 = edge_side(t, 2, 0, x, y);
    let e2 = edge_side(t, 0, 1, x, y);
    (d > 0 && e0 > 0 && e1 > 0 && e2 > 0) || (d < 0 && e0 < 0 && e1 < 0 && e2 < 0)
}

/// `(x, y)` lies outside the triangle and off its boundary: strictly on
/// the outer side of at least one edge of a triangle that has area.
pub open spec fn strictly_outside(t: [ScreenPoint; 3], x: int, y: int) -> bool {
    let d = doubled_area(t);
    let e0 = edge_side(t, 1, 2, x, y);
    let e1 = edge_side(t, 2, 0, x, y);
    let e2 = edge_side(t, 0, 1, x, y);
    (d > 0 && (e0 < 0 || e1 < 0 || e2 < 0)) || (d < 0 && (e0 > 0 || e1 > 0 || e2 > 0))
}

} // verus!
