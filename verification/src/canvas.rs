//! The mathematical model of a drawing surface: a grid of colours indexed by
//! column and row, with the colour that drawing uses and the colour that
//! clearing uses. Every drawing operation paints a set of cells; the cells of
//! the set that lie outside the grid are clipped away.

use vstd::prelude::*;
use crate::color::Color;

verus! {

/// The state of a drawing surface.
pub struct Canvas {
    /// Number of columns.
    pub width: int,
    /// Number of rows.
    pub height: int,
    /// The colour of each cell `(x, y)` of the grid.
    pub pixels: Map<(int, int), Color>,
    /// The colour that drawing operations write.
    pub draw_color: Color,
    /// The colour that clearing writes.
    pub clear_color: Color,
}

impl Canvas {
    /// Whether the cell in column `x` and row `y` lies on the grid.
    pub open spec fn contains(self, x: int, y: int) -> bool {
        0 <= x < self.width && 0 <= y < self.height
    }

    /// The cells of the grid.
    pub open spec fn grid(self) -> Set<(int, int)> {
        Set::new(|c: (int, int)| self.contains(c.0, c.1))
    }

    /// A canvas has at least one cell and holds a colour for exactly the
    /// cells of its grid.
    pub open spec fn wf(self) -> bool {
        &&& self.width > 0
        &&& self.height > 0
        &&& self.pixels.dom() =~= self.grid()
    }

    /// A fresh canvas: every cell transparent black, drawing in opaque
    /// white, clearing to opaque black.
    pub open spec fn blank(width: int, height: int) -> Canvas {
        Canvas {
            width,
            height,
            pixels: Map::new(
                |c: (int, int)| 0 <= c.0 < width && 0 <= c.1 < height,
                |c: (int, int)| Color { r: 0, g: 0, b: 0, a: 0 },
            ),
            draw_color: Color { r: 255, g: 255, b: 255, a: 255 },
            clear_color: Color { r: 0, g: 0, b: 0, a: 255 },
        }
    }

    /// The same canvas drawing in `color`.
    pub open spec fn with_draw_color(self, color: Color) -> Canvas {
        Canvas { draw_color: color, ..self }
    }

    /// The same canvas clearing to `color`.
    pub open spec fn with_clear_color(self, color: Color) -> Canvas {
        Canvas { clear_color: color, ..self }
    }

    /// The canvas with every cell set to the clear colour.
    pub open spec fn cleared(self) -> Canvas {
        Canvas {
            pixels: Map::new(
                |c: (int, int)| self.contains(c.0, c.1),
                |c: (int, int)| self.clear_color,
            ),
            ..self
        }
    }

    /// The canvas with the draw colour written to every cell of `cells` that
    /// lies on the grid, and every other cell as it was.
    pub open spec fn paint(self, cells: Set<(int, int)>) -> Canvas {
        Canvas {
            pixels: Map::new(
                |c: (int, int)| self.contains(c.0, c.1),
                |c: (int, int)|
                    if cells.contains(c) {
                        self.draw_color
                    } else {
                        self.pixels[c]
                    },
            ),
            ..self
        }
    }

    /// The grid as bytes: row after row, left to right, four bytes a cell in
    /// the order red, green, blue, alpha.
    pub open spec fn rgba_bytes(self) -> Seq<u8> {
        Seq::new(
            (4 * (self.width * self.height)) as nat,
            |i: int| self.pixels[((i / 4) % self.width, (i / 4) / self.width)].channel(i % 4),
        )
    }
}

/// Painting keeps a canvas well formed.
pub proof fn lemma_paint_wf(canvas: Canvas, cells: Set<(int, int)>)
    requires
        canvas.wf(),
    ensures
        canvas.paint(cells).wf(),
{
}

/// Clearing keeps a canvas well formed.
pub proof fn lemma_cleared_wf(canvas: Canvas)
    requires
        canvas.wf(),
    ensures
        canvas.cleared().wf(),
{
}

/// Clipping: painting cells none of which lies on the grid changes nothing.
pub proof fn lemma_paint_off_grid(canvas: Canvas, cells: Set<(int, int)>)
    requires
        canvas.wf(),
        forall|c: (int, int)| cells.contains(c) ==> !canvas.contains(c.0, c.1),
    ensures
        canvas.paint(cells) == canvas,
{
    assert(canvas.paint(cells).pixels =~= canvas.pixels);
}

/// Painting two sets of cells one after the other, in one draw colour, is
/// painting their union.
pub proof fn lemma_paint_twice(canvas: Canvas, first: Set<(int, int)>, second: Set<(int, int)>)
    ensures
        canvas.paint(first).paint(second) == canvas.paint(first.union(second)),
{
    assert(canvas.paint(first).paint(second).pixels =~= canvas.paint(first.union(second)).pixels);
}

/// Painting depends only on the cells of the set that lie on the grid: two
/// sets that hold the same cells of the grid paint the same canvas.
pub proof fn lemma_paint_same_on_grid(
    canvas: Canvas,
    first: Set<(int, int)>,
    second: Set<(int, int)>,
)
    requires
        forall|c: (int, int)|
            canvas.contains(c.0, c.1) ==> (first.contains(c) <==> second.contains(c)),
    ensures
        canvas.paint(first) == canvas.paint(second),
{
    assert(canvas.paint(first).pixels =~= canvas.paint(second).pixels);
}

/// After clearing, every cell of the grid reads the clear colour.
pub proof fn lemma_cleared_reads_clear_color(canvas: Canvas, x: int, y: int)
    requires
        canvas.contains(x, y),
    ensures
        canvas.cleared().pixels[(x, y)] == canvas.clear_color,
{
}

/// After painting, a cell of the grid reads the draw colour if it was
/// painted and its earlier colour if not.
pub proof fn lemma_paint_reads(canvas: Canvas, cells: Set<(int, int)>, x: int, y: int)
    requires
        canvas.contains(x, y),
    ensures
        canvas.paint(cells).pixels[(x, y)] == if cells.contains((x, y)) {
            canvas.draw_color
        } else {
            canvas.pixels[(x, y)]
        },
{
}

} // verus!
