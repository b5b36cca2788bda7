//! The box of pixels that a set of screen points spans, cut to the screen.

use vstd::prelude::*;
use crate::geometry::ScreenPoint;

verus! {

/// An axis-aligned box of pixels, both corners included. A box whose
/// minimum lies above its maximum in either axis holds no pixel.
#[derive(Clone, Copy, Debug, PartialEq, Eq, Structural)]
pub struct BoundingBox {
    pub min_x: i32,
    pub min_y: i32,
    pub max_x: i32,
    pub max_y: i32,
}

impl BoundingBox {
    /// Whether the pixel `(x, y)` lies in the box.
    pub open spec fn contains(self, x: int, y: int) -> bool {
        self.min_x <= x <= self.max_x && self.min_y <= y <= self.max_y
    }
}

/// The smaller of two integers.
pub open spec fn min(a: int, b: int) -> int {
    if a <= b {
        a
    } else {
        b
    }
}

/// The larger of two integers.
pub open spec fn max(a: int, b: int) -> int {
    if a >= b {
        a
    } else {
        b
    }
}

/// The smallest `x` among the points; the largest `i32` when there are
/// none.
pub open spec fn least_x(points: Seq<ScreenPoint>) -> int
    decreases points.len(),
{
    if points.len() == 0 {
        0x7fff_ffff
    } else {
        min(least_x(points.drop_last()), points.last().x as int)
    }
}

/// The smallest `y` among the points; the largest `i32` when there are
/// none.
pub open spec fn least_y(points: Seq<ScreenPoint>) -> int
    decreases points.len(),
{
    if points.len() == 0 {
        0x7fff_ffff
    } else {
        min(least_y(points.drop_last()), points.last().y as int)
    }
}

/// The largest `x` among the points; the smallest `i32` when there are
/// none.
pub open spec fn greatest_x(points: Seq<ScreenPoint>) -> int
    decreases points.len(),
{
    if points.len() == 0 {
        -0x8000_0000
    } else {
        max(greatest_x(points.drop_last()), points.last().x as int)
    }
}

/// The largest `y` among the points; the smallest `i32` when there are
/// none.
pub open spec fn greatest_y(points: Seq<ScreenPoint>) -> int
    decreases points.len(),
{
    if points.len() == 0 {
        -0x8000_0000
    } else {
        max(greatest_y(points.drop_last()), points.last().y as int)
    }
}

/// The box spanned by the points, cut to a screen of `width` by `height`
/// pixels: its minimum is raised to `0` and its maximum lowered to the last
/// column and row. Without points the box is empty.
pub open spec fn bounds_of(points: Seq<ScreenPoint>, width: int, height: int) -> BoundingBox {
    if points.len() == 0 {
        BoundingBox { min_x: i32::MAX, min_y: i32::MAX, max_x: i32::MIN, max_y: i32::MIN }
    } else {
        BoundingBox {
            min_x: max(0, least_x(points)) as i32,
            min_y: max(0, least_y(points)) as i32,
            max_x: min(width - 1, greatest_x(points)) as i32,
            max_y: min(height - 1, greatest_y(points)) as i32,
        }
    }
}

/// Every point lies between the least and the greatest coordinate, which
/// are `i32` values themselves.
pub proof fn lemma_extent(points: Seq<ScreenPoint>)
    ensures
        forall|i: int|
            0 <= i < points.len() ==> {
                &&& least_x(points) <= (#[trigger] points[i]).x <= greatest_x(points)
                &&& least_y(points) <= points[i].y <= greatest_y(points)
            },
        -0x8000_0000 <= least_x(points) <= 0x7fff_ffff,
        -0x8000_0000 <= least_y(points) <= 0x7fff_ffff,
        -0x8000_0000 <= greatest_x(points) <= 0x7fff_ffff,
        -0x8000_0000 <= greatest_y(points) <= 0x7fff_ffff,
    decreases points.len(),
{
    if points.len() > 0 {
        let rest = points.drop_last();
        lemma_extent(rest);
        assert forall|i: int| 0 <= i < points.len() implies {
            &&& least_x(points) <= (#[trigger] points[i]).x <= greatest_x(points)
            &&& least_y(points) <= points[i].y <= greatest_y(points)
        } by {
            if i < rest.len() {
                assert(points[i] == rest[i]);
            }
        }
    }
}

/// A pixel of the box spanned by some points lies on the screen.
pub proof fn lemma_bounds_on_screen(
    points: Seq<ScreenPoint>,
    width: int,
    height: int,
    x: int,
    y: int,
)
    requires
        0 <= width,
        0 <= height,
        bounds_of(points, width, height).contains(x, y),
    ensures
        0 <= x < width,
        0 <= y < height,
{
    lemma_extent(points);
}

/// Computes the box of pixels spanned by `points`, cut to a screen of
/// `width` by `height` pixels.
pub fn bounding_box(points: &[ScreenPoint], width: u32, height: u32) -> (bbox: BoundingBox)
    ensures
        bbox == bounds_of(points@, width as int, height as int),
{
    let n = points.len();
    if n == 0 {
        return BoundingBox { min_x: i32::MAX, min_y: i32::MAX, max_x: i32::MIN, max_y: i32::MIN };
    }
    let mut lo_x: i32 = i32::MAX;
    let mut lo_y: i32 = i32::MAX;
    let mut hi_x: i32 = i32::MIN;
    let mut hi_y: i32 = i32::MIN;
    let mut i: usize = 0;
    while i < n
        invariant
            n == points@.len(),
            0 <= i <= n,
            lo_x == least_x(points@.take(i as int)),
            lo_y == least_y(points@.take(i as int)),
            hi_x == greatest_x(points@.take(i as int)),
            hi_y == greatest_y(points@.take(i as int)),
        decreases n - i,
    {
        let p = points[i];
        proof {
            let next = points@.take(i + 1);
            assert(next.drop_last() =~= points@.take(i as int));
            assert(next.last() == p);
        }
        if p.x < lo_x {
            lo_x = p.x;
        }
        if p.y < lo_y {
            lo_y = p.y;
        }
        if p.x > hi_x {
            hi_x = p.x;
        }
        if p.y > hi_y {
            hi_y = p.y;
        }
        i += 1;
    }
    proof {
        assert(points@.take(n as int) =~= points@);
    }
    let last_x: i64 = width as i64 - 1;
    let last_y: i64 = height as i64 - 1;
    BoundingBox {
        min_x: if lo_x < 0 {
            0
        } else {
            lo_x
        },
        min_y: if lo_y < 0 {
            0
        } else {
            lo_y
        },
        max_x: if (hi_x as i64) > last_x {
            last_x as i32
        } else {
            hi_x
        },
        max_y: if (hi_y as i64) > last_y {
            last_y as i32
        } else {
            hi_y
        },
    }
}

} // verus!
