//! Barycentric weights of a pixel with respect to a screen triangle.
//!
//! The weights are exact: three integer numerators over one positive
//! denominator. A weight is negative exactly when its numerator is.

use vstd::prelude::*;
use crate::arith::{floor_div, lemma_floor_div_between, lemma_product_bound};
use crate::geometry::{
    doubled_area, edge_side, is_degenerate, strictly_inside, strictly_outside, Point, ScreenPoint,
};

verus! {

/// Three rational weights `w0 / denom`, `w1 / denom`, `w2 / denom`, one for
/// each vertex of a triangle, in the order of the vertices.
pub struct Bary {
    pub w0: int,
    pub w1: int,
    pub w2: int,
    pub denom: int,
}

/// The largest denominator that weights of `i32` points can have.
pub open spec fn denom_limit() -> int {
    0x2_0000_0000_0000_0000
}

impl Bary {
    /// The weights stand over a positive denominator and sum to one.
    pub open spec fn wf(self) -> bool {
        &&& 0 < self.denom <= denom_limit()
        &&& self.w0 + self.w1 + self.w2 == self.denom
    }

    /// No weight is negative: the point the weights belong to lies in the
    /// triangle or on its boundary.
    pub open spec fn covers(self) -> bool {
        self.w0 >= 0 && self.w1 >= 0 && self.w2 >= 0
    }

    /// The weighted sum `(w0 * a + w1 * b + w2 * c) / denom` of three vertex
    /// attributes, rounded down.
    pub open spec fn blend(self, a: int, b: int, c: int) -> int {
        (self.w0 * a + self.w1 * b + self.w2 * c) / self.denom
    }
}

/// The weights that stand for "no weights": the first is negative, so the
/// point they belong to is rejected by every coverage test.
pub open spec fn sentinel() -> Bary {
    Bary { w0: -1, w1: 1, w2: 1, denom: 1 }
}

/// The cross product of `(x2 - x0, x1 - x0, x0 - px)` and
/// `(y2 - y0, y1 - y0, y0 - py)`.
pub open spec fn cross_terms(t: [ScreenPoint; 3], px: int, py: int) -> (int, int, int) {
    let ax = t[2].x - t[0].x;
    let ay = t[1].x - t[0].x;
    let az = t[0].x - px;
    let bx = t[2].y - t[0].y;
    let by = t[1].y - t[0].y;
    let bz = t[0].y - py;
    (ay * bz - az * by, az * bx - ax * bz, ax * by - ay * bx)
}

/// The barycentric weights of `(px, py)` in the triangle `t`. With `u` the cross
/// product above they are `(1 - (u.x + u.y) / u.z, u.y / u.z, u.x / u.z)`,
/// written over the common denominator `|u.z|`. A triangle without area
/// (`u.z == 0`) has the sentinel for weights.
pub open spec fn weights_of(t: [ScreenPoint; 3], px: int, py: int) -> Bary {
    let (ux, uy, uz) = cross_terms(t, px, py);
    if uz > 0 {
        Bary { w0: uz - ux - uy, w1: uy, w2: ux, denom: uz }
    } else if uz < 0 {
        Bary { w0: ux + uy - uz, w1: -uy, w2: -ux, denom: -uz }
    } else {
        sentinel()
    }
}

/// Whether the triangle `t` covers the pixel `(px, py)`: none of the
/// weights of the pixel is negative.
pub open spec fn covered(t: [ScreenPoint; 3], px: int, py: int) -> bool {
    weights_of(t, px, py).covers()
}

/// Barycentric weights as the rasterizer computes them.
#[derive(Clone, Copy, Debug)]
pub struct Weights {
    pub w0: i128,
    pub w1: i128,
    pub w2: i128,
    pub denom: i128,
}

impl View for Weights {
    type V = Bary;

    open spec fn view(&self) -> Bary {
        Bary {
            w0: self.w0 as int,
            w1: self.w1 as int,
            w2: self.w2 as int,
            denom: self.denom as int,
        }
    }
}

/// The cross product is made of the signed areas that `p` spans with the
/// edges of the triangle, negated.
pub proof fn lemma_cross_terms_are_edge_sides(t: [ScreenPoint; 3], px: int, py: int)
    ensures
        cross_terms(t, px, py).0 == -edge_side(t, 0, 1, px, py),
        cross_terms(t, px, py).1 == -edge_side(t, 2, 0, px, py),
        cross_terms(t, px, py).2 == -doubled_area(t),
        cross_terms(t, px, py).2 - cross_terms(t, px, py).0 - cross_terms(t, px, py).1
            == -edge_side(t, 1, 2, px, py),
{
    let x0 = t[0].x as int;
    let y0 = t[0].y as int;
    let x1 = t[1].x as int;
    let y1 = t[1].y as int;
    let x2 = t[2].x as int;
    let y2 = t[2].y as int;
    assert((x1 - x0) * (y0 - py) - (x0 - px) * (y1 - y0) == -((x1 - x0) * (py - y0) - (y1 - y0) * (
        px - x0))) by (nonlinear_arith);
    assert((x0 - px) * (y2 - y0) - (x2 - x0) * (y0 - py) == -((x0 - x2) * (py - y2) - (y0 - y2) * (
        px - x2))) by (nonlinear_arith);
    assert((x2 - x0) * (y1 - y0) - (x1 - x0) * (y2 - y0) == -((x1 - x0) * (y2 - y0) - (y1 - y0) * (
        x2 - x0))) by (nonlinear_arith);
    assert(((x2 - x0) * (y1 - y0) - (x1 - x0) * (y2 - y0)) - ((x1 - x0) * (y0 - py) - (x0 - px) * (
        y1 - y0)) - ((x0 - px) * (y2 - y0) - (x2 - x0) * (y0 - py)) == -((x2 - x1) * (py - y1) - (y2
        - y1) * (px - x1))) by (nonlinear_arith);
}

/// A cross product is orthogonal to both of its factors.
proof fn lemma_cross_orthogonal(ax: int, ay: int, az: int, bx: int, by: int, bz: int)
    ensures
        ax * (ay * bz - az * by) + ay * (az * bx - ax * bz) + az * (ax * by - ay * bx) == 0,
        bx * (ay * bz - az * by) + by * (az * bx - ax * bz) + bz * (ax * by - ay * bx) == 0,
{
    assert(ax * (ay * bz - az * by) == ax * ay * bz - ax * az * by) by (nonlinear_arith);
    assert(ay * (az * bx - ax * bz) == ay * az * bx - ax * ay * bz) by (nonlinear_arith);
    assert(az * (ax * by - ay * bx) == ax * az * by - ay * az * bx) by (nonlinear_arith);
    assert(bx * (ay * bz - az * by) == bx * bz * ay - bx * by * az) by (nonlinear_arith);
    assert(by * (az * bx - ax * bz) == bx * by * az - by * bz * ax) by (nonlinear_arith);
    assert(bz * (ax * by - ay * bx) == by * bz * ax - bx * bz * ay) by (nonlinear_arith);
}

/// The weights of any point are well formed, and those of a triangle with
/// area reproduce the point: the weighted sum of the vertices is `p`.
pub proof fn lemma_weights_reproduce_point(t: [ScreenPoint; 3], px: int, py: int)
    ensures
        weights_of(t, px, py).wf(),
        is_degenerate(t) ==> weights_of(t, px, py) == sentinel(),
        !is_degenerate(t) ==> {
            let w = weights_of(t, px, py);
            &&& w.denom == crate::arith::abs(doubled_area(t))
            &&& w.w0 * t[0].x + w.w1 * t[1].x + w.w2 * t[2].x == w.denom * px
            &&& w.w0 * t[0].y + w.w1 * t[1].y + w.w2 * t[2].y == w.denom * py
        },
{
    lemma_cross_terms_are_edge_sides(t, px, py);
    lemma_cross_terms_bounded(t, px, py);
    let x0 = t[0].x as int;
    let y0 = t[0].y as int;
    let x1 = t[1].x as int;
    let y1 = t[1].y as int;
    let x2 = t[2].x as int;
    let y2 = t[2].y as int;
    let (ux, uy, uz) = cross_terms(t, px, py);
    lemma_cross_orthogonal(x2 - x0, x1 - x0, x0 - px, y2 - y0, y1 - y0, y0 - py);
    assert((uz - ux - uy) * x0 + uy * x1 + ux * x2 - uz * px == (x2 - x0) * ux + (x1 - x0) * uy + (
        x0 - px) * uz) by (nonlinear_arith);
    assert((uz - ux - uy) * y0 + uy * y1 + ux * y2 - uz * py == (y2 - y0) * ux + (y1 - y0) * uy + (
        y0 - py) * uz) by (nonlinear_arith);
    if uz < 0 {
        assert((ux + uy - uz) * x0 + (-uy) * x1 + (-ux) * x2 == (-uz) * px) by (nonlinear_arith)
            requires
                (uz - ux - uy) * x0 + uy * x1 + ux * x2 == uz * px,
        ;
        assert((ux + uy - uz) * y0 + (-uy) * y1 + (-ux) * y2 == (-uz) * py) by (nonlinear_arith)
            requires
                (uz - ux - uy) * y0 + uy * y1 + ux * y2 == uz * py,
        ;
    }
}

/// The terms of the cross product fit in 66 bits: the third for every
/// point, the first two for points with `i32` coordinates.
pub proof fn lemma_cross_terms_bounded(t: [ScreenPoint; 3], px: int, py: int)
    ensures
        -denom_limit() <= cross_terms(t, px, py).2 <= denom_limit(),
        -0x8000_0000 <= px <= 0x7fff_ffff && -0x8000_0000 <= py <= 0x7fff_ffff ==> {
            &&& -denom_limit() <= cross_terms(t, px, py).0 <= denom_limit()
            &&& -denom_limit() <= cross_terms(t, px, py).1 <= denom_limit()
        },
{
    let m = 0x1_0000_0000int;
    let ax = t[2].x - t[0].x;
    let ay = t[1].x - t[0].x;
    let az = t[0].x - px;
    let bx = t[2].y - t[0].y;
    let by = t[1].y - t[0].y;
    let bz = t[0].y - py;
    assert(m * m == 0x1_0000_0000_0000_0000) by (nonlinear_arith)
        requires
            m == 0x1_0000_0000,
    ;
    lemma_product_bound(ax, by, m, m);
    lemma_product_bound(ay, bx, m, m);
    if -0x8000_0000 <= px <= 0x7fff_ffff && -0x8000_0000 <= py <= 0x7fff_ffff {
        lemma_product_bound(ay, bz, m, m);
        lemma_product_bound(az, by, m, m);
        lemma_product_bound(az, bx, m, m);
        lemma_product_bound(ax, bz, m, m);
    }
}

/// For a point strictly inside a triangle, each of the three weights lies
/// strictly between zero and one, and they sum to one.
pub proof fn lemma_weights_inside(t: [ScreenPoint; 3], px: int, py: int)
    requires
        strictly_inside(t, px, py),
    ensures
        ({
            let w = weights_of(t, px, py);
            &&& 0 < w.w0 < w.denom
            &&& 0 < w.w1 < w.denom
            &&& 0 < w.w2 < w.denom
            &&& w.w0 + w.w1 + w.w2 == w.denom
        }),
{
    lemma_cross_terms_are_edge_sides(t, px, py);
}

/// For a point strictly outside a triangle, at least one weight is
/// negative.
pub proof fn lemma_weights_outside(t: [ScreenPoint; 3], px: int, py: int)
    requires
        strictly_outside(t, px, py),
    ensures
        ({
            let w = weights_of(t, px, py);
            w.w0 < 0 || w.w1 < 0 || w.w2 < 0
        }),
{
    lemma_cross_terms_are_edge_sides(t, px, py);
}

/// A triangle without area covers no pixel.
pub proof fn lemma_degenerate_covers_nothing(t: [ScreenPoint; 3], px: int, py: int)
    requires
        is_degenerate(t),
    ensures
        !covered(t, px, py),
{
    lemma_cross_terms_are_edge_sides(t, px, py);
}

/// A covered pixel lies within the extent of the three vertices, in each
/// axis.
pub proof fn lemma_covered_within_extent(
    t: [ScreenPoint; 3],
    px: int,
    py: int,
    lo_x: int,
    hi_x: int,
    lo_y: int,
    hi_y: int,
)
    requires
        covered(t, px, py),
        forall|i: int| 0 <= i < 3 ==> lo_x <= (#[trigger] t[i]).x <= hi_x,
        forall|i: int| 0 <= i < 3 ==> lo_y <= (#[trigger] t[i]).y <= hi_y,
    ensures
        lo_x <= px <= hi_x,
        lo_y <= py <= hi_y,
{
    lemma_weights_reproduce_point(t, px, py);
    let w = weights_of(t, px, py);
    assert(!is_degenerate(t));
    assert(lo_x <= t[0].x <= hi_x && lo_x <= t[1].x <= hi_x && lo_x <= t[2].x <= hi_x);
    assert(lo_y <= t[0].y <= hi_y && lo_y <= t[1].y <= hi_y && lo_y <= t[2].y <= hi_y);
    lemma_convex_sum_between(w, t[0].x as int, t[1].x as int, t[2].x as int, lo_x, hi_x);
    lemma_convex_sum_between(w, t[0].y as int, t[1].y as int, t[2].y as int, lo_y, hi_y);
    assert(lo_x <= px <= hi_x) by (nonlinear_arith)
        requires
            w.denom > 0,
            lo_x * w.denom <= w.denom * px <= hi_x * w.denom,
    ;
    assert(lo_y <= py <= hi_y) by (nonlinear_arith)
        requires
            w.denom > 0,
            lo_y * w.denom <= w.denom * py <= hi_y * w.denom,
    ;
}

/// A weighted sum with non-negative weights lies between the smallest and
/// the largest of its terms, scaled by the denominator.
pub proof fn lemma_convex_sum_between(w: Bary, a: int, b: int, c: int, lo: int, hi: int)
    by (nonlinear_arith)
    requires
        w.wf(),
        w.covers(),
        lo <= a <= hi,
        lo <= b <= hi,
        lo <= c <= hi,
    ensures
        lo * w.denom <= w.w0 * a + w.w1 * b + w.w2 * c <= hi * w.denom,
        lo <= w.blend(a, b, c) <= hi,
{
    assert(w.w0 * lo <= w.w0 * a <= w.w0 * hi);
    assert(w.w1 * lo <= w.w1 * b <= w.w1 * hi);
    assert(w.w2 * lo <= w.w2 * c <= w.w2 * hi);
    assert(w.w0 * lo + w.w1 * lo + w.w2 * lo == lo * (w.w0 + w.w1 + w.w2));
    assert(w.w0 * hi + w.w1 * hi + w.w2 * hi == hi * (w.w0 + w.w1 + w.w2));
    lemma_floor_div_between(w.w0 * a + w.w1 * b + w.w2 * c, w.denom, lo, hi);
}

/// Computes the barycentric weights of the pixel `p` in the triangle
/// `points`.
pub fn barycentric(points: &[ScreenPoint; 3], p: Point) -> (w: Weights)
    ensures
        w@ == weights_of(*points, p.x as int, p.y as int),
        w@.wf(),
{
    let ax: i128 = points[2].x as i128 - points[0].x as i128;
    let ay: i128 = points[1].x as i128 - points[0].x as i128;
    let az: i128 = points[0].x as i128 - p.x as i128;
    let bx: i128 = points[2].y as i128 - points[0].y as i128;
    let by: i128 = points[1].y as i128 - points[0].y as i128;
    let bz: i128 = points[0].y as i128 - p.y as i128;
    proof {
        let m = 0x1_0000_0000int;
        lemma_product_bound(ay as int, bz as int, m, m);
        lemma_product_bound(az as int, by as int, m, m);
        lemma_product_bound(az as int, bx as int, m, m);
        lemma_product_bound(ax as int, bz as int, m, m);
        lemma_product_bound(ax as int, by as int, m, m);
        lemma_product_bound(ay as int, bx as int, m, m);
        assert(m * m == 0x1_0000_0000_0000_0000) by (nonlinear_arith)
            requires
                m == 0x1_0000_0000,
        ;
        lemma_weights_reproduce_point(*points, p.x as int, p.y as int);
    }
    let ux: i128 = ay * bz - az * by;
    let uy: i128 = az * bx - ax * bz;
    let uz: i128 = ax * by - ay * bx;
    if uz > 0 {
        Weights { w0: uz - ux - uy, w1: uy, w2: ux, denom: uz }
    } else if uz < 0 {
        Weights { w0: ux + uy - uz, w1: -uy, w2: -ux, denom: -uz }
    } else {
        Weights { w0: -1, w1: 1, w2: 1, denom: 1 }
    }
}

impl Weights {
    /// Whether no weight is negative.
    pub fn covers(&self) -> (b: bool)
        ensures
            b == self@.covers(),
    {
        self.w0 >= 0 && self.w1 >= 0 && self.w2 >= 0
    }

    /// The weighted sum of three vertex attributes, rounded down. With no
    /// negative weight it lies between the smallest and the largest of the
    /// three.
    pub fn interpolate(&self, a: i32, b: i32, c: i32) -> (v: i32)
        requires
            self@.wf(),
            self@.covers(),
        ensures
            v == self@.blend(a as int, b as int, c as int),
    {
        proof {
            let m = 0x8000_0000int;
            lemma_product_bound(self.w0 as int, a as int, denom_limit(), m);
            lemma_product_bound(self.w1 as int, b as int, denom_limit(), m);
            lemma_product_bound(self.w2 as int, c as int, denom_limit(), m);
            assert(denom_limit() * m == 0x1_0000_0000_0000_0000_0000_0000) by (nonlinear_arith)
                requires
                    m == 0x8000_0000,
            ;
            lemma_convex_sum_between(
                self@,
                a as int,
                b as int,
                c as int,
                -0x8000_0000,
                0x7fff_ffff,
            );
        }
        let sum: i128 = self.w0 * (a as i128) + self.w1 * (b as i128) + self.w2 * (c as i128);
        let q: i128 = floor_div(sum, self.denom);
        q as i32
    }
}

} // verus!
