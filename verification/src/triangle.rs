//! The triangle rasterizer.
//!
//! Every pixel of the target that a triangle covers gets a fragment: the
//! depth interpolated from the three vertices and a colour, flat or sampled
//! from a texture. Each fragment goes through the depth test of the target.

use vstd::prelude::*;
use crate::arith::{floor_div, lemma_product_bound};
use crate::barycentric::{
    barycentric, covered, lemma_convex_sum_between, lemma_covered_within_extent,
    lemma_degenerate_covers_nothing, weights_of, Bary, Weights,
};
use crate::bbox::{
    bounding_box, bounds_of, greatest_x, greatest_y, least_x, least_y, lemma_bounds_on_screen,
    lemma_extent,
};
use crate::canvas::{get_pixel, Canvas};
use crate::color::Color;
use crate::geometry::{is_degenerate, Point, ScreenPoint, TexCoord, ONE};
use crate::target::{Fragment, Raster, RenderTarget};

verus! {

/// Where the colours of a triangle come from.
pub enum Paint<'a> {
    /// One colour for the whole triangle.
    Flat(Color),
    /// The colours of `texture` at the texture coordinates interpolated
    /// from `uvs`, one per vertex, lit by the fixed-point `intensity`.
    Textured { texture: &'a Canvas, uvs: [TexCoord; 3], intensity: i64 },
}

/// The column or row of a texture of `extent` texels that the fixed-point
/// texture coordinate `coord` falls into: `coord * extent / ONE` rounded
/// down, and moved to the nearest texel where it falls off the texture.
pub open spec fn texel_index(coord: int, extent: int) -> int {
    let t = (coord * extent) / (ONE as int);
    if t < 0 {
        0
    } else if t >= extent {
        extent - 1
    } else {
        t
    }
}

impl<'a> Paint<'a> {
    /// A texture to sample from has at least one texel.
    pub open spec fn wf(self) -> bool {
        match self {
            Paint::Flat(_) => true,
            Paint::Textured { texture, uvs, intensity } => texture@.width > 0 && texture@.height
                > 0,
        }
    }

    /// The colour of a pixel with the barycentric weights `w`.
    pub open spec fn color_for(self, w: Bary) -> Color {
        match self {
            Paint::Flat(c) => c,
            Paint::Textured { texture, uvs, intensity } => {
                let u = w.blend(uvs[0].u as int, uvs[1].u as int, uvs[2].u as int);
                let v = w.blend(uvs[0].v as int, uvs[1].v as int, uvs[2].v as int);
                texture@.at(
                    texel_index(u, texture@.width as int),
                    texel_index(v, texture@.height as int),
                ).lit(intensity)
            },
        }
    }

    /// Computes the colour of a covered pixel from its weights.
    pub fn color(&self, w: &Weights) -> (c: Color)
        requires
            self.wf(),
            w@.wf(),
            w@.covers(),
        ensures
            c == self.color_for(w@),
    {
        match self {
            Paint::Flat(c) => *c,
            Paint::Textured { texture, uvs, intensity } => {
                let u = w.interpolate(uvs[0].u, uvs[1].u, uvs[2].u);
                let v = w.interpolate(uvs[0].v, uvs[1].v, uvs[2].v);
                let tx = texel(u, texture.width());
                let ty = texel(v, texture.height());
                get_pixel(texture, tx, ty).modulate(*intensity)
            },
        }
    }
}

/// Finds the texel column or row for a fixed-point texture coordinate.
pub fn texel(coord: i32, extent: u32) -> (t: u32)
    requires
        extent > 0,
    ensures
        t == texel_index(coord as int, extent as int),
        t < extent,
{
    proof {
        lemma_product_bound(coord as int, extent as int, 0x8000_0000, 0x1_0000_0000);
    }
    let scaled: i128 = (coord as i128) * (extent as i128);
    let q: i128 = floor_div(scaled, ONE as i128);
    if q < 0 {
        0
    } else if q >= extent as i128 {
        extent - 1
    } else {
        q as u32
    }
}

/// The depth of the triangle `t` at the pixel `(x, y)`: the depths of the
/// three vertices weighted by the barycentric weights of the pixel.
pub open spec fn depth_at(t: [ScreenPoint; 3], x: int, y: int) -> int {
    weights_of(t, x, y).blend(t[0].depth as int, t[1].depth as int, t[2].depth as int)
}

/// What the triangle `t` submits at the pixel `(x, y)`: nothing where it
/// does not cover the pixel, else its depth and colour there.
pub open spec fn fragment_at(t: [ScreenPoint; 3], paint: Paint, x: int, y: int) -> Option<
    Fragment,
> {
    if covered(t, x, y) {
        Some(
            Fragment {
                depth: depth_at(t, x, y) as i32,
                color: paint.color_for(weights_of(t, x, y)),
            },
        )
    } else {
        None
    }
}

impl Raster {
    /// The raster after the triangle `t` was drawn: each cell went through
    /// the depth test with what the triangle submits there.
    pub open spec fn painted(self, t: [ScreenPoint; 3], paint: Paint) -> Raster {
        Raster {
            cells: Map::new(
                |q: (int, int)| self.contains(q.0, q.1),
                |q: (int, int)| self.cells[q].resolved(fragment_at(t, paint, q.0, q.1)),
            ),
            ..self
        }
    }
}

/// The depth of a triangle at a pixel it covers lies between the depths of
/// its vertices, and is an `i32` like them.
pub proof fn lemma_depth_in_range(t: [ScreenPoint; 3], x: int, y: int)
    requires
        covered(t, x, y),
    ensures
        -0x8000_0000 <= depth_at(t, x, y) <= 0x7fff_ffff,
{
    crate::barycentric::lemma_weights_reproduce_point(t, x, y);
    lemma_convex_sum_between(
        weights_of(t, x, y),
        t[0].depth as int,
        t[1].depth as int,
        t[2].depth as int,
        -0x8000_0000,
        0x7fff_ffff,
    );
}

/// A pixel of the screen that a triangle covers lies in the bounding box
/// of the triangle.
pub proof fn lemma_covered_in_bounds(t: [ScreenPoint; 3], width: int, height: int, x: int, y: int)
    requires
        covered(t, x, y),
        0 <= x < width,
        0 <= y < height,
    ensures
        bounds_of(t@, width, height).contains(x, y),
{
    lemma_extent(t@);
    assert forall|i: int| 0 <= i < 3 implies least_x(t@) <= (#[trigger] t[i]).x <= greatest_x(
        t@,
    ) by {
        assert(t[i] == t@[i]);
    }
    assert forall|i: int| 0 <= i < 3 implies least_y(t@) <= (#[trigger] t[i]).y <= greatest_y(
        t@,
    ) by {
        assert(t[i] == t@[i]);
    }
    lemma_covered_within_extent(
        t,
        x,
        y,
        least_x(t@),
        greatest_x(t@),
        least_y(t@),
        greatest_y(t@),
    );
}

/// A triangle without area leaves every raster as it is: it draws no
/// pixel.
pub proof fn lemma_degenerate_paints_nothing(r: Raster, t: [ScreenPoint; 3], paint: Paint)
    requires
        r.wf(),
        is_degenerate(t),
    ensures
        r.painted(t, paint) == r,
{
    assert forall|q: (int, int)| r.contains(q.0, q.1) implies r.cells[q].resolved(
        fragment_at(t, paint, q.0, q.1),
    ) == r.cells[q] by {
        lemma_degenerate_covers_nothing(t, q.0, q.1);
    }
    assert(r.painted(t, paint).cells =~= r.cells);
}

/// Two triangles whose depths differ wherever both cover a pixel leave the
/// same raster in either order.
pub proof fn lemma_paint_order_irrelevant(
    r: Raster,
    ta: [ScreenPoint; 3],
    pa: Paint,
    tb: [ScreenPoint; 3],
    pb: Paint,
)
    requires
        forall|x: int, y: int|
            r.contains(x, y) && covered(ta, x, y) && covered(tb, x, y) ==> depth_at(ta, x, y)
                != depth_at(tb, x, y),
    ensures
        r.painted(ta, pa).painted(tb, pb) == r.painted(tb, pb).painted(ta, pa),
{
    assert forall|q: (int, int)| r.contains(q.0, q.1) implies r.painted(ta, pa).painted(
        tb,
        pb,
    ).cells[q] == r.painted(tb, pb).painted(ta, pa).cells[q] by {
        if covered(ta, q.0, q.1) && covered(tb, q.0, q.1) {
            lemma_depth_in_range(ta, q.0, q.1);
            lemma_depth_in_range(tb, q.0, q.1);
        }
    }
    assert(r.painted(ta, pa).painted(tb, pb).cells =~= r.painted(tb, pb).painted(ta, pa).cells);
}

/// Where two triangles cover one pixel at different depths, and the pixel
/// held nothing as near as the nearer of them, the pixel ends with the
/// depth and the colour of the nearer triangle, whichever was drawn first.
pub proof fn lemma_nearer_triangle_wins(
    r: Raster,
    near: [ScreenPoint; 3],
    near_paint: Paint,
    far: [ScreenPoint; 3],
    far_paint: Paint,
    x: int,
    y: int,
)
    requires
        r.contains(x, y),
        covered(near, x, y),
        covered(far, x, y),
        depth_at(near, x, y) > depth_at(far, x, y),
        r.at(x, y).depth < depth_at(near, x, y),
    ensures
        r.painted(near, near_paint).painted(far, far_paint).at(x, y) == r.painted(
            far,
            far_paint,
        ).painted(near, near_paint).at(x, y),
        r.painted(near, near_paint).painted(far, far_paint).at(x, y).depth == depth_at(near, x, y),
        r.painted(near, near_paint).painted(far, far_paint).at(x, y).color
            == near_paint.color_for(weights_of(near, x, y)),
{
    lemma_depth_in_range(near, x, y);
    lemma_depth_in_range(far, x, y);
}

/// Draws the triangle `points` into `target`. Every pixel of the target
/// that the triangle covers receives the depth interpolated from the
/// vertices and the colour that `paint` gives it, provided the depth is
/// strictly nearer than what the pixel holds; every other pixel stays as it
/// is. A triangle without area draws nothing.
pub fn triangle(target: &mut RenderTarget, points: &[ScreenPoint; 3], paint: &Paint)
    requires
        old(target).wf(),
        paint.wf(),
    ensures
        final(target).wf(),
        final(target)@ == old(target)@.painted(*points, *paint),
        is_degenerate(*points) ==> final(target)@ == old(target)@,
{
    let width = target.width();
    let height = target.height();
    let bbox = bounding_box(points.as_slice(), width, height);
    let ghost before = target@;
    proof {
        target.lemma_view_wf();
    }
    let mut x: i64 = bbox.min_x as i64;
    while x <= bbox.max_x as i64
        invariant
            target.wf(),
            paint.wf(),
            before.wf(),
            bbox == bounds_of(points@, before.width as int, before.height as int),
            bbox.min_x <= x,
            x <= bbox.max_x + 1 || bbox.min_x > bbox.max_x,
            target@.width == before.width,
            target@.height == before.height,
            forall|qx: int, qy: int|
                before.contains(qx, qy) ==> #[trigger] target@.at(qx, qy) == if bbox.contains(
                    qx,
                    qy,
                ) && qx < x {
                    before.at(qx, qy).resolved(fragment_at(*points, *paint, qx, qy))
                } else {
                    before.at(qx, qy)
                },
        decreases bbox.max_x + 1 - x,
    {
        let mut y: i64 = bbox.min_y as i64;
        while y <= bbox.max_y as i64
            invariant
                target.wf(),
                paint.wf(),
                before.wf(),
                bbox == bounds_of(points@, before.width as int, before.height as int),
                bbox.min_x <= x <= bbox.max_x,
                bbox.min_y <= y,
                y <= bbox.max_y + 1 || bbox.min_y > bbox.max_y,
                target@.width == before.width,
                target@.height == before.height,
                forall|qx: int, qy: int|
                    before.contains(qx, qy) ==> #[trigger] target@.at(qx, qy) == if bbox.contains(
                        qx,
                        qy,
                    ) && (qx < x || (qx == x && qy < y)) {
                        before.at(qx, qy).resolved(fragment_at(*points, *paint, qx, qy))
                    } else {
                        before.at(qx, qy)
                    },
            decreases bbox.max_y + 1 - y,
        {
            proof {
                lemma_bounds_on_screen(
                    points@,
                    before.width as int,
                    before.height as int,
                    x as int,
                    y as int,
                );
            }
            let ghost prev = target@;
            let w = barycentric(points, Point { x: x as i32, y: y as i32 });
            if w.covers() {
                proof {
                    lemma_depth_in_range(*points, x as int, y as int);
                }
                let depth = w.interpolate(points[0].depth, points[1].depth, points[2].depth);
                if depth > target.depth_at(x as u32, y as u32) {
                    let color = paint.color(&w);
                    target.try_write(x as u32, y as u32, depth, color);
                }
            }
            proof {
                target.lemma_view_wf();
                assert forall|qx: int, qy: int| before.contains(qx, qy) implies (
                #[trigger] target@.at(qx, qy)) == if bbox.contains(qx, qy) && (qx < x || (qx == x
                    && qy < y + 1)) {
                    before.at(qx, qy).resolved(fragment_at(*points, *paint, qx, qy))
                } else {
                    before.at(qx, qy)
                } by {
                    assert(prev.at(qx, qy) == if bbox.contains(qx, qy) && (qx < x || (qx == x && qy
                        < y)) {
                        before.at(qx, qy).resolved(fragment_at(*points, *paint, qx, qy))
                    } else {
                        before.at(qx, qy)
                    });
                }
            }
            y += 1;
        }
        x += 1;
    }
    proof {
        target.lemma_view_wf();
        let after = before.painted(*points, *paint);
        assert forall|q: (int, int)| before.contains(q.0, q.1) implies target@.cells[q]
            == after.cells[q] by {
            assert(target@.at(q.0, q.1) == target@.cells[q]);
            if covered(*points, q.0, q.1) {
                lemma_covered_in_bounds(
                    *points,
                    before.width as int,
                    before.height as int,
                    q.0,
                    q.1,
                );
            }
        }
        assert(target@.cells =~= after.cells);
        if is_degenerate(*points) {
            lemma_degenerate_paints_nothing(before, *points, *paint);
        }
    }
}

} // verus!
