//! The line rasterizer: one-pixel-wide lines between two pixels.
//!
//! A line is walked along its longer axis, one pixel per step; an integer
//! error term decides when the other coordinate moves. The pixels depend
//! on the two endpoints alone, and not on their order.

use vstd::prelude::*;
use crate::arith::{abs, lemma_floor_div_unique};
use crate::canvas::{put_pixel, Canvas, Picture};
use crate::color::Color;
use crate::geometry::Point;

verus! {

/// A line is steep when it rises further than it runs. A steep line is
/// walked along `y`, any other along `x`.
pub open spec fn is_steep(p0: Point, p1: Point) -> bool {
    abs(p1.x - p0.x) < abs(p1.y - p0.y)
}

/// The coordinate of `p` along the axis the line is walked on.
pub open spec fn major(p: Point, steep: bool) -> int {
    if steep {
        p.y as int
    } else {
        p.x as int
    }
}

/// The coordinate of `p` along the other axis.
pub open spec fn minor(p: Point, steep: bool) -> int {
    if steep {
        p.x as int
    } else {
        p.y as int
    }
}

/// The endpoint the walk starts from: the one that comes first along the
/// walked axis.
pub open spec fn line_start(p0: Point, p1: Point) -> Point {
    if major(p0, is_steep(p0, p1)) > major(p1, is_steep(p0, p1)) {
        p1
    } else {
        p0
    }
}

/// The endpoint the walk ends at.
pub open spec fn line_end(p0: Point, p1: Point) -> Point {
    if major(p0, is_steep(p0, p1)) > major(p1, is_steep(p0, p1)) {
        p0
    } else {
        p1
    }
}

/// The number of steps along the walked axis.
pub open spec fn line_run(p0: Point, p1: Point) -> int {
    let steep = is_steep(p0, p1);
    major(line_end(p0, p1), steep) - major(line_start(p0, p1), steep)
}

/// The distance to cover along the other axis.
pub open spec fn line_rise(p0: Point, p1: Point) -> int {
    let steep = is_steep(p0, p1);
    abs(minor(line_end(p0, p1), steep) - minor(line_start(p0, p1), steep))
}

/// How far the line has moved along its minor axis after `k` steps along
/// its major axis: `rise * k / run` rounded to the nearest integer, halves
/// rounded down.
pub open spec fn turns(k: int, run: int, rise: int) -> int {
    if run == 0 {
        0
    } else {
        (2 * rise * k + run - 1) / (2 * run)
    }
}

/// The pixel of the line from `p0` to `p1` after `k` steps.
pub open spec fn line_pixel(p0: Point, p1: Point, k: int) -> (int, int) {
    let steep = is_steep(p0, p1);
    let start = line_start(p0, p1);
    let end = line_end(p0, p1);
    let t = turns(k, line_run(p0, p1), line_rise(p0, p1));
    let a = major(start, steep) + k;
    let b = if minor(end, steep) > minor(start, steep) {
        minor(start, steep) + t
    } else {
        minor(start, steep) - t
    };
    if steep {
        (b, a)
    } else {
        (a, b)
    }
}

/// The pixels of the line between `p0` and `p1`, in the order of the walk.
pub open spec fn line_path(p0: Point, p1: Point) -> Seq<(int, int)> {
    Seq::new((line_run(p0, p1) + 1) as nat, |k: int| line_pixel(p0, p1, k))
}

/// The positions of a list of points.
pub open spec fn positions(points: Seq<Point>) -> Seq<(int, int)> {
    Seq::new(points.len(), |k: int| (points[k].x as int, points[k].y as int))
}

/// Two pixels touch: they differ, by at most one in each axis.
pub open spec fn adjacent(p: (int, int), q: (int, int)) -> bool {
    &&& -1 <= q.0 - p.0 <= 1
    &&& -1 <= q.1 - p.1 <= 1
    &&& p != q
}

/// What pins `turns` down: it is the integer within half a step of
/// `rise * k / run`.
pub proof fn lemma_turns(k: int, run: int, rise: int)
    requires
        0 <= rise <= run,
        0 < run,
        0 <= k,
    ensures
        2 * run * turns(k, run, rise) <= 2 * rise * k + run - 1 < 2 * run * turns(k, run, rise) + 2
            * run,
        0 <= turns(k, run, rise),
        k <= run ==> turns(k, run, rise) <= rise,
        k == 0 ==> turns(k, run, rise) == 0,
        k == run ==> turns(k, run, rise) == rise,
{
    let n = 2 * rise * k + run - 1;
    let d = 2 * run;
    let t = turns(k, run, rise);
    vstd::arithmetic::div_mod::lemma_fundamental_div_mod(n, d);
    vstd::arithmetic::div_mod::lemma_mod_bound(n, d);
    assert(0 <= rise * k) by (nonlinear_arith)
        requires
            0 <= rise,
            0 <= k,
    ;
    assert(2 * rise * k == 2 * (rise * k)) by (nonlinear_arith);
    assert(d * t == 2 * run * t) by (nonlinear_arith)
        requires
            d == 2 * run,
    ;
    if t < 0 {
        assert(d * t <= -d) by (nonlinear_arith)
            requires
                t < 0,
                d > 0,
        ;
    }
    if k <= run {
        assert(rise * k <= rise * run) by (nonlinear_arith)
            requires
                0 <= rise,
                0 <= k <= run,
        ;
        if t > rise {
            assert(d * t >= d * rise + d) by (nonlinear_arith)
                requires
                    t > rise,
                    d > 0,
            ;
            assert(d * rise == 2 * (rise * run)) by (nonlinear_arith)
                requires
                    d == 2 * run,
            ;
        }
    }
    if k == 0 {
        assert(rise * k == 0) by (nonlinear_arith)
            requires
                k == 0,
        ;
        lemma_floor_div_unique(n, d, 0);
    }
    if k == run {
        assert(rise * d == 2 * (rise * k)) by (nonlinear_arith)
            requires
                d == 2 * run,
                k == run,
        ;
        lemma_floor_div_unique(n, d, rise);
    }
}

/// With each step along the major axis the line moves by at most one
/// pixel along the minor axis, and never back.
pub proof fn lemma_turns_step(k: int, run: int, rise: int)
    requires
        0 <= rise <= run,
        0 < run,
        0 <= k,
    ensures
        turns(k, run, rise) <= turns(k + 1, run, rise) <= turns(k, run, rise) + 1,
{
    lemma_turns(k, run, rise);
    lemma_turns(k + 1, run, rise);
    let t = turns(k, run, rise);
    let u = turns(k + 1, run, rise);
    assert(2 * rise * (k + 1) == 2 * rise * k + 2 * rise) by (nonlinear_arith);
    if u < t {
        assert(2 * run * u + 2 * run <= 2 * run * t) by (nonlinear_arith)
            requires
                u < t,
                run > 0,
        ;
    }
    if u > t + 1 {
        assert(2 * run * u >= 2 * run * t + 4 * run) by (nonlinear_arith)
            requires
                u > t + 1,
                run > 0,
        ;
    }
}

/// The walk never leaves an axis further than it has to: the rise is at
/// most the run, and two endpoints with the same major coordinate are one
/// point.
pub proof fn lemma_line_shape(p0: Point, p1: Point)
    ensures
        0 <= line_rise(p0, p1) <= line_run(p0, p1),
        line_run(p0, p1) == 0 ==> p0 == p1,
        line_start(p0, p1) == p0 && line_end(p0, p1) == p1 || line_start(p0, p1) == p1 && line_end(
            p0,
            p1,
        ) == p0,
{
}

/// A line starts at one of its endpoints and ends at the other.
pub proof fn lemma_line_joins_endpoints(p0: Point, p1: Point)
    ensures
        line_path(p0, p1).len() >= 1,
        line_path(p0, p1).first() == (line_start(p0, p1).x as int, line_start(p0, p1).y as int),
        line_path(p0, p1).last() == (line_end(p0, p1).x as int, line_end(p0, p1).y as int),
        line_path(p0, p1).contains((p0.x as int, p0.y as int)),
        line_path(p0, p1).contains((p1.x as int, p1.y as int)),
{
    lemma_line_shape(p0, p1);
    let run = line_run(p0, p1);
    let rise = line_rise(p0, p1);
    let path = line_path(p0, p1);
    if run > 0 {
        lemma_turns(0, run, rise);
        lemma_turns(run, run, rise);
    }
    assert(path[0] == line_pixel(p0, p1, 0));
    assert(path[run] == line_pixel(p0, p1, run));
    assert(path.first() == (line_start(p0, p1).x as int, line_start(p0, p1).y as int));
    assert(path.last() == (line_end(p0, p1).x as int, line_end(p0, p1).y as int));
}

/// A line has no gaps: each of its pixels touches the next, side by side
/// or corner to corner.
pub proof fn lemma_line_connected(p0: Point, p1: Point, k: int)
    requires
        0 <= k < line_path(p0, p1).len() - 1,
    ensures
        adjacent(line_path(p0, p1)[k], line_path(p0, p1)[k + 1]),
{
    lemma_line_shape(p0, p1);
    lemma_turns_step(k, line_run(p0, p1), line_rise(p0, p1));
}

/// A line does not depend on the order of its endpoints: from either end
/// it is the same sequence of pixels.
pub proof fn lemma_line_symmetric(p0: Point, p1: Point)
    ensures
        line_path(p0, p1) == line_path(p1, p0),
{
    lemma_line_shape(p0, p1);
    lemma_line_shape(p1, p0);
    assert(is_steep(p0, p1) == is_steep(p1, p0));
    assert(line_start(p0, p1) == line_start(p1, p0));
    assert(line_end(p0, p1) == line_end(p1, p0));
    assert(line_path(p0, p1) =~= line_path(p1, p0));
}

/// Every pixel of a line lies in the box spanned by its endpoints.
pub proof fn lemma_line_between_endpoints(p0: Point, p1: Point, k: int)
    requires
        0 <= k < line_path(p0, p1).len(),
    ensures
        p0.x <= line_path(p0, p1)[k].0 <= p1.x || p1.x <= line_path(p0, p1)[k].0 <= p0.x,
        p0.y <= line_path(p0, p1)[k].1 <= p1.y || p1.y <= line_path(p0, p1)[k].1 <= p0.y,
{
    lemma_line_shape(p0, p1);
    if line_run(p0, p1) > 0 {
        lemma_turns(k, line_run(p0, p1), line_rise(p0, p1));
    }
}

/// Lists the pixels of the line between `p0` and `p1`, starting from the
/// endpoint that comes first along the longer axis of the line.
pub fn line_pixels(p0: Point, p1: Point) -> (pixels: Vec<Point>)
    ensures
        positions(pixels@) == line_path(p0, p1),
{
    let dx: i64 = p1.x as i64 - p0.x as i64;
    let dy: i64 = p1.y as i64 - p0.y as i64;
    let adx: i64 = if dx < 0 {
        -dx
    } else {
        dx
    };
    let ady: i64 = if dy < 0 {
        -dy
    } else {
        dy
    };
    let steep = adx < ady;
    // Swap the roles of the axes for a steep line, and walk left to right.
    let (s_major, s_minor, e_major, e_minor): (i64, i64, i64, i64) = if steep {
        if p0.y > p1.y {
            (p1.y as i64, p1.x as i64, p0.y as i64, p0.x as i64)
        } else {
            (p0.y as i64, p0.x as i64, p1.y as i64, p1.x as i64)
        }
    } else {
        if p0.x > p1.x {
            (p1.x as i64, p1.y as i64, p0.x as i64, p0.y as i64)
        } else {
            (p0.x as i64, p0.y as i64, p1.x as i64, p1.y as i64)
        }
    };
    let run: i64 = e_major - s_major;
    let rise: i64 = if e_minor > s_minor {
        e_minor - s_minor
    } else {
        s_minor - e_minor
    };
    let up = e_minor > s_minor;
    proof {
        lemma_line_shape(p0, p1);
        assert(steep == is_steep(p0, p1));
        assert(s_major == major(line_start(p0, p1), steep));
        assert(s_minor == minor(line_start(p0, p1), steep));
        assert(e_major == major(line_end(p0, p1), steep));
        assert(e_minor == minor(line_end(p0, p1), steep));
        assert(run == line_run(p0, p1));
        assert(rise == line_rise(p0, p1));
        if run > 0 {
            lemma_turns(0, run as int, rise as int);
        }
    }
    let mut pixels: Vec<Point> = Vec::new();
    let mut error2: i64 = 0;
    let mut b: i64 = s_minor;
    let mut k: i64 = 0;
    let ghost mut t: int = 0;
    while k <= run
        invariant
            0 <= k <= run + 1,
            0 <= rise <= run <= 0xffff_ffff,
            steep == is_steep(p0, p1),
            s_major == major(line_start(p0, p1), steep),
            s_minor == minor(line_start(p0, p1), steep),
            e_major == major(line_end(p0, p1), steep),
            e_minor == minor(line_end(p0, p1), steep),
            run == line_run(p0, p1),
            rise == line_rise(p0, p1),
            up == (e_minor > s_minor),
            error2 == 2 * (rise * k) - 2 * (run * t),
            -run < error2 <= run || (run == 0 && error2 == 0),
            k <= run ==> t == turns(k as int, run as int, rise as int),
            b == if up {
                s_minor + t
            } else {
                s_minor - t
            },
            pixels@.len() == k,
            forall|i: int|
                0 <= i < k ==> (#[trigger] pixels@[i].x as int, pixels@[i].y as int) == line_pixel(
                    p0,
                    p1,
                    i,
                ),
        decreases run + 1 - k,
    {
        proof {
            if run > 0 {
                lemma_turns(k as int, run as int, rise as int);
            }
        }
        let pixel = if steep {
            Point { x: b as i32, y: (s_major + k) as i32 }
        } else {
            Point { x: (s_major + k) as i32, y: b as i32 }
        };
        pixels.push(pixel);
        error2 += 2 * rise;
        if error2 > run {
            b += if up {
                1
            } else {
                -1
            };
            error2 -= 2 * run;
            proof {
                t = t + 1;
            }
        }
        proof {
            assert(rise * (k + 1) == rise * k + rise) by (nonlinear_arith);
            assert(run * (t - 1) == run * t - run) by (nonlinear_arith);
            if k + 1 <= run {
                assert(2 * rise * (k + 1) == 2 * (rise * (k + 1))) by (nonlinear_arith);
                assert(t * (2 * run) == 2 * (run * t)) by (nonlinear_arith);
                lemma_floor_div_unique(2 * rise * (k + 1) + run - 1, 2 * run, t);
            }
        }
        k += 1;
    }
    proof {
        assert(positions(pixels@) =~= line_path(p0, p1));
    }
    pixels
}

impl Picture {
    /// The picture with every pixel of `path` coloured `color`.
    pub open spec fn stroked(self, path: Seq<(int, int)>, color: Color) -> Picture {
        Picture {
            pixels: Map::new(
                |q: (int, int)| self.pixels.dom().contains(q) || path.contains(q),
                |q: (int, int)|
                    if path.contains(q) {
                        color
                    } else {
                        self.pixels[q]
                    },
            ),
            ..self
        }
    }
}

/// Draws the line between `p0` and `p1` in `color`. Both endpoints lie on
/// the canvas. The pixels of [`line_path`] take the colour; every other
/// pixel stays as it is.
pub fn draw_line(canvas: &mut Canvas, p0: Point, p1: Point, color: Color)
    requires
        old(canvas)@.contains(p0.x as int, p0.y as int),
        old(canvas)@.contains(p1.x as int, p1.y as int),
    ensures
        final(canvas)@ == old(canvas)@.stroked(line_path(p0, p1), color),
{
    let pixels = line_pixels(p0, p1);
    let ghost before = canvas@;
    let ghost path = line_path(p0, p1);
    let n = pixels.len();
    let mut i: usize = 0;
    proof {
        assert(positions(pixels@).len() == pixels@.len());
        assert(before.stroked(path.take(0), color).pixels =~= before.pixels);
    }
    while i < n
        invariant
            0 <= i <= n,
            n == pixels@.len(),
            path == line_path(p0, p1),
            positions(pixels@) == path,
            before.contains(p0.x as int, p0.y as int),
            before.contains(p1.x as int, p1.y as int),
            canvas@ == before.stroked(path.take(i as int), color),
        decreases n - i,
    {
        let p = pixels[i];
        proof {
            assert(positions(pixels@)[i as int] == (p.x as int, p.y as int));
            lemma_line_between_endpoints(p0, p1, i as int);
        }
        put_pixel(canvas, p.x as u32, p.y as u32, color);
        proof {
            let done = path.take(i as int);
            let next = path.take(i + 1);
            assert(next =~= done.push(path[i as int]));
            assert forall|q: (int, int)|
                next.contains(q) <==> (done.contains(q) || q == path[i as int]) by {
                if next.contains(q) {
                    let j = choose|j: int| 0 <= j < next.len() && next[j] == q;
                    if j < i {
                        assert(done[j] == q);
                    }
                }
                if done.contains(q) {
                    let j = choose|j: int| 0 <= j < done.len() && done[j] == q;
                    assert(next[j] == q);
                }
                if q == path[i as int] {
                    assert(next[i as int] == q);
                }
            }
            assert(canvas@.pixels =~= before.stroked(next, color).pixels);
        }
        i += 1;
    }
    proof {
        assert(path.take(n as int) =~= path);
    }
}

} // verus!
