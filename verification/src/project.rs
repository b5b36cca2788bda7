//! The projector: from model space to the screen.
//!
//! The projection is orthographic. The first two coordinates of a vertex are
//! moved from `[-ONE, ONE]` onto the width and height of the screen and
//! rounded to the nearest pixel; the third is kept as the depth.

use vstd::prelude::*;
use crate::arith::{floor_div, lemma_floor_div_between, lemma_product_bound};
use crate::geometry::{ScreenPoint, Vertex, ONE};

verus! {

/// The widest and highest screen that vertices can be projected onto.
pub const MAX_EXTENT: u32 = 65536;

/// The pixel that the fixed-point model coordinate `v` falls on, on a
/// screen of `extent` pixels: `(v / ONE + 1) * extent / 2 + 1 / 2`, rounded
/// down.
pub open spec fn screen_coord(v: int, extent: int) -> int {
    ((v + ONE) * extent + ONE) / (2 * ONE)
}

/// The projection of `v` onto a screen of `width` by `height` pixels.
pub open spec fn projected(v: Vertex, width: int, height: int) -> ScreenPoint {
    ScreenPoint {
        x: screen_coord(v.x as int, width) as i32,
        y: screen_coord(v.y as int, height) as i32,
        depth: v.z,
    }
}

/// On a screen no larger than [`MAX_EXTENT`], the pixel of any `i32`
/// coordinate is an `i32`.
pub proof fn lemma_screen_coord_fits(v: int, extent: int)
    requires
        -0x8000_0000 <= v <= 0x7fff_ffff,
        0 <= extent <= MAX_EXTENT,
    ensures
        -0x4000_8001 <= screen_coord(v, extent) <= 0x4000_8001,
{
    lemma_product_bound(v + ONE, extent, 0x8001_0000, 0x1_0000);
    assert(0x8001_0000int * 0x1_0000 == 0x8001_0000_0000) by (nonlinear_arith);
    assert(0x4000_8001 * (2 * ONE) == 0x8001_0002_0000) by (nonlinear_arith)
        requires
            ONE == 0x1_0000,
    ;
    assert((-0x4000_8001) * (2 * ONE) == -0x8001_0002_0000) by (nonlinear_arith)
        requires
            ONE == 0x1_0000,
    ;
    lemma_floor_div_between((v + ONE) * extent + ONE, 2 * ONE, -0x4000_8001, 0x4000_8001);
}

/// Moves one model coordinate onto a screen axis of `extent` pixels.
fn to_screen(v: i32, extent: u32) -> (c: i32)
    requires
        extent <= MAX_EXTENT,
    ensures
        c == screen_coord(v as int, extent as int),
{
    proof {
        lemma_product_bound(v as int + ONE, extent as int, 0x8001_0000, 0x1_0000);
        assert(0x8001_0000int * 0x1_0000 == 0x8001_0000_0000) by (nonlinear_arith);
        lemma_screen_coord_fits(v as int, extent as int);
    }
    let scaled: i128 = (v as i128 + ONE as i128) * (extent as i128) + ONE as i128;
    let c: i128 = floor_div(scaled, 2 * (ONE as i128));
    c as i32
}

/// Projects a vertex onto a screen of `width` by `height` pixels, neither
/// larger than [`MAX_EXTENT`]. A vertex at `-ONE` falls on pixel `0`, one at
/// `ONE` on the pixel just past the last; the depth is the third coordinate,
/// unchanged.
pub fn world_to_screen(v: &Vertex, width: u32, height: u32) -> (p: ScreenPoint)
    requires
        width <= MAX_EXTENT,
        height <= MAX_EXTENT,
    ensures
        p == projected(*v, width as int, height as int),
{
    ScreenPoint { x: to_screen(v.x, width), y: to_screen(v.y, height), depth: v.z }
}

} // verus!
