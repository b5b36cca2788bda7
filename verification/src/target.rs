//! The render target: a colour image together with its depth buffer.
//!
//! The two buffers are owned by one value and change only together, through
//! [`RenderTarget::try_write`], so they cannot drift apart. Cells are stored
//! row by row; the index arithmetic lives in this module alone.

use vstd::prelude::*;
use crate::canvas::{get_pixel, pixels_of, put_pixel, width_of, height_of, Canvas};
use crate::color::Color;

verus! {

/// The depth of a pixel that nothing has been written to: smaller than or
/// equal to every depth, so that any fragment above it is accepted.
pub const FARTHEST: i32 = -0x8000_0000;

/// A candidate for one pixel: a colour and its fixed-point depth. Larger
/// depths are nearer to the viewer.
#[derive(Clone, Copy, Debug, PartialEq, Eq, Structural)]
pub struct Fragment {
    pub depth: i32,
    pub color: Color,
}

/// What one pixel of a render target holds.
#[derive(Clone, Copy, Debug, PartialEq, Eq, Structural)]
pub struct Cell {
    pub depth: i32,
    pub color: Color,
}

impl Cell {
    /// The depth test. A fragment strictly nearer than the cell replaces it;
    /// any other fragment, one of equal depth included, leaves it as it is.
    pub open spec fn merged(self, f: Fragment) -> Cell {
        if f.depth > self.depth {
            Cell { depth: f.depth, color: f.color }
        } else {
            self
        }
    }

    /// The depth test on a fragment that may be absent.
    pub open spec fn resolved(self, f: Option<Fragment>) -> Cell {
        match f {
            Some(f) => self.merged(f),
            None => self,
        }
    }
}

/// What a [`RenderTarget`] is to the specifications: its size and the cell
/// at each coordinate inside it.
pub struct Raster {
    pub width: nat,
    pub height: nat,
    pub cells: Map<(int, int), Cell>,
}

impl Raster {
    /// Whether `(x, y)` addresses a pixel of the raster.
    pub open spec fn contains(self, x: int, y: int) -> bool {
        0 <= x < self.width && 0 <= y < self.height
    }

    /// The cell at `(x, y)`.
    pub open spec fn at(self, x: int, y: int) -> Cell {
        self.cells[(x, y)]
    }

    /// A raster has a cell for each of its coordinates and for nothing else.
    pub open spec fn wf(self) -> bool {
        forall|p: (int, int)| self.cells.dom().contains(p) <==> self.contains(p.0, p.1)
    }

    /// The raster of the given size in which every cell has the farthest
    /// depth and the colour `background`.
    pub open spec fn blank(width: nat, height: nat, background: Color) -> Raster {
        Raster {
            width,
            height,
            cells: Map::new(
                |p: (int, int)| 0 <= p.0 < width && 0 <= p.1 < height,
                |p: (int, int)| Cell { depth: FARTHEST, color: background },
            ),
        }
    }

    /// The raster after `f` was submitted at `(x, y)`: that cell went
    /// through the depth test, every other cell is unchanged. Outside the
    /// raster nothing changes.
    pub open spec fn submit(self, x: int, y: int, f: Fragment) -> Raster {
        if self.contains(x, y) {
            Raster { cells: self.cells.insert((x, y), self.at(x, y).merged(f)), ..self }
        } else {
            self
        }
    }
}

/// Submitting the same fragment twice leaves the raster as submitting it
/// once: depths and colours are identical.
pub proof fn lemma_submit_idempotent(r: Raster, x: int, y: int, f: Fragment)
    ensures
        r.submit(x, y, f).submit(x, y, f) == r.submit(x, y, f),
{
    assert(r.submit(x, y, f).submit(x, y, f).cells =~= r.submit(x, y, f).cells);
}

/// After a fragment was submitted at a pixel, the depth of the pixel is the
/// larger of its old depth and the depth of the fragment: a cell holds the
/// greatest depth submitted to it so far.
pub proof fn lemma_submit_keeps_maximum(r: Raster, x: int, y: int, f: Fragment)
    requires
        r.contains(x, y),
    ensures
        r.submit(x, y, f).at(x, y).depth == if f.depth > r.at(x, y).depth {
            f.depth
        } else {
            r.at(x, y).depth
        },
        forall|qx: int, qy: int|
            (qx, qy) != (x, y) ==> #[trigger] r.submit(x, y, f).at(qx, qy) == r.at(qx, qy),
{
}

/// Two fragments of different depths submitted at one pixel leave the same
/// raster in either order.
pub proof fn lemma_submit_commutes(r: Raster, x: int, y: int, f: Fragment, g: Fragment)
    requires
        f.depth != g.depth,
    ensures
        r.submit(x, y, f).submit(x, y, g) == r.submit(x, y, g).submit(x, y, f),
{
    assert(r.submit(x, y, f).submit(x, y, g).cells =~= r.submit(x, y, g).submit(x, y, f).cells);
}

/// Of two fragments of different depths submitted at one pixel whose cell
/// lies behind the nearer of them, the nearer one is what the cell holds
/// afterwards, whichever came first.
pub proof fn lemma_nearer_fragment_wins(r: Raster, x: int, y: int, f: Fragment, g: Fragment)
    requires
        r.contains(x, y),
        f.depth > g.depth,
        r.at(x, y).depth < f.depth,
    ensures
        r.submit(x, y, f).submit(x, y, g).at(x, y) == (Cell { depth: f.depth, color: f.color }),
        r.submit(x, y, g).submit(x, y, f).at(x, y) == (Cell { depth: f.depth, color: f.color }),
{
}

/// The index of `(x, y)` in a buffer that stores rows of `width` cells one
/// after another.
pub open spec fn cell_index(x: int, y: int, width: int) -> int {
    y * width + x
}

proof fn lemma_cell_index_in_range(x: int, y: int, width: int, height: int)
    by (nonlinear_arith)
    requires
        0 <= x < width,
        0 <= y < height,
    ensures
        0 <= y * width <= cell_index(x, y, width) < width * height,
{
}

proof fn lemma_cell_index_injective(x1: int, y1: int, x2: int, y2: int, width: int)
    by (nonlinear_arith)
    requires
        0 <= x1 < width,
        0 <= x2 < width,
        cell_index(x1, y1, width) == cell_index(x2, y2, width),
    ensures
        x1 == x2,
        y1 == y2,
{
    if y1 < y2 {
        assert(y1 * width + width <= y2 * width);
    }
    if y2 < y1 {
        assert(y2 * width + width <= y1 * width);
    }
}

/// A colour image and its depth buffer, of one size.
pub struct RenderTarget {
    width: u32,
    height: u32,
    depth: Vec<i32>,
    canvas: Canvas,
}

impl View for RenderTarget {
    type V = Raster;

    closed spec fn view(&self) -> Raster {
        Raster {
            width: self.width as nat,
            height: self.height as nat,
            cells: Map::new(
                |p: (int, int)| 0 <= p.0 < self.width && 0 <= p.1 < self.height,
                |p: (int, int)|
                    Cell {
                        depth: self.depth@[cell_index(p.0, p.1, self.width as int)],
                        color: pixels_of(self.canvas)[p],
                    },
            ),
        }
    }
}

impl RenderTarget {
    /// The two buffers have the size of the target.
    pub closed spec fn wf(&self) -> bool {
        &&& self.depth@.len() == self.width * self.height
        &&& self.width * self.height <= usize::MAX
        &&& width_of(self.canvas) == self.width
        &&& height_of(self.canvas) == self.height
    }

    /// A well-formed target has a well-formed raster.
    pub proof fn lemma_view_wf(&self)
        ensures
            self@.wf(),
    {
    }

    /// A target of the given size with every pixel coloured `background`
    /// and at the farthest depth, or `None` when the `4 * width * height`
    /// bytes of its image cannot be addressed on this machine.
    pub fn new(width: u32, height: u32, background: Color) -> (out: Option<RenderTarget>)
        ensures
            out is Some <==> 4 * width * height <= usize::MAX,
            out matches Some(t) ==> t.wf() && t@ == Raster::blank(
                width as nat,
                height as nat,
                background,
            ),
    {
        match Canvas::filled(width, height, background) {
            None => None,
            Some(canvas) => {
                assert(0 <= width * height <= 4 * width * height) by (nonlinear_arith)
                    requires
                        0 <= width,
                        0 <= height,
                ;
                let cells: usize = (width as usize) * (height as usize);
                let depth: Vec<i32> = vec![FARTHEST; cells];
                let t = RenderTarget { width, height, depth, canvas };
                proof {
                    assert forall|p: (int, int)| 0 <= p.0 < width && 0 <= p.1 < height implies (
                    #[trigger] t@.cells[p]) == (Cell { depth: FARTHEST, color: background }) by {
                        lemma_cell_index_in_range(p.0, p.1, width as int, height as int);
                        assert(canvas@.contains(p.0, p.1));
                        assert(canvas@.at(p.0, p.1) == background);
                    }
                    assert(t@.cells =~= Raster::blank(
                        width as nat,
                        height as nat,
                        background,
                    ).cells);
                }
                Some(t)
            },
        }
    }

    /// The number of pixel columns.
    pub fn width(&self) -> (w: u32)
        ensures
            w == self@.width,
    {
        self.width
    }

    /// The number of pixel rows.
    pub fn height(&self) -> (h: u32)
        ensures
            h == self@.height,
    {
        self.height
    }

    /// The position of `(x, y)` in the depth buffer.
    fn index(&self, x: u32, y: u32) -> (i: usize)
        requires
            self.wf(),
            x < self.width,
            y < self.height,
        ensures
            i == cell_index(x as int, y as int, self.width as int),
            i < self.depth@.len(),
    {
        proof {
            lemma_cell_index_in_range(x as int, y as int, self.width as int, self.height as int);
        }
        let row: usize = (y as usize) * (self.width as usize);
        row + (x as usize)
    }

    /// The depth stored at `(x, y)`.
    pub fn depth_at(&self, x: u32, y: u32) -> (d: i32)
        requires
            self.wf(),
            self@.contains(x as int, y as int),
        ensures
            d == self@.at(x as int, y as int).depth,
    {
        let i = self.index(x, y);
        self.depth[i]
    }

    /// The colour stored at `(x, y)`.
    pub fn color_at(&self, x: u32, y: u32) -> (c: Color)
        requires
            self.wf(),
            self@.contains(x as int, y as int),
        ensures
            c == self@.at(x as int, y as int).color,
    {
        get_pixel(&self.canvas, x, y)
    }

    /// Submits a fragment at `(x, y)`. It is written, depth and colour
    /// together, when it is strictly nearer than what the pixel holds;
    /// otherwise nothing changes. Returns whether it was written.
    pub fn try_write(&mut self, x: u32, y: u32, depth: i32, color: Color) -> (written: bool)
        requires
            old(self).wf(),
            old(self)@.contains(x as int, y as int),
        ensures
            final(self).wf(),
            written == (depth > old(self)@.at(x as int, y as int).depth),
            final(self)@ == old(self)@.submit(x as int, y as int, Fragment { depth, color }),
    {
        let i = self.index(x, y);
        let ghost before = self@;
        let ghost w = self.width as int;
        if depth > self.depth[i] {
            self.depth.set(i, depth);
            put_pixel(&mut self.canvas, x, y, color);
            proof {
                let after = before.submit(x as int, y as int, Fragment { depth, color });
                assert forall|p: (int, int)| after.cells.dom().contains(p) implies (
                #[trigger] self@.cells[p]) == after.cells[p] by {
                    if p != (x as int, y as int) {
                        lemma_cell_index_in_range(p.0, p.1, w, self.height as int);
                        if cell_index(p.0, p.1, w) == cell_index(x as int, y as int, w) {
                            lemma_cell_index_injective(p.0, p.1, x as int, y as int, w);
                        }
                    }
                }
                assert(self@.cells =~= after.cells);
            }
            true
        } else {
            proof {
                let after = before.submit(x as int, y as int, Fragment { depth, color });
                assert(self@.cells =~= after.cells);
            }
            false
        }
    }

    /// Ends the pass and hands out the image, turned upside down: targets
    /// count rows from the bottom, images from the top.
    pub fn finish(self) -> (image: Canvas)
        requires
            self.wf(),
        ensures
            image@.width == self@.width,
            image@.height == self@.height,
            forall|x: int, y: int|
                self@.contains(x, y) ==> #[trigger] image@.at(x, y) == self@.at(
                    x,
                    self@.height - 1 - y,
                ).color,
    {
        let mut canvas = self.canvas;
        canvas.flip_vertical();
        canvas
    }
}

} // verus!
