//! The drawing surface: a pixel buffer of fixed size with a draw colour and a
//! clear colour, and the operations that rasterise points, segments, lines
//! and rectangles onto it. Nothing is ever written outside the buffer: the
//! part of a shape that lies off the surface is silently left out.

use vstd::prelude::*;
use vstd::arithmetic::div_mod::lemma_fundamental_div_mod;
use vstd::math::{abs, max, min};
use crate::canvas::{lemma_paint_off_grid, lemma_paint_same_on_grid, lemma_paint_twice, Canvas};
use crate::color::Color;
use crate::rect::{lemma_rects_cells_next, rects_cells, Rect};
use crate::line::{
    column_run, error_step, hline_cells, lemma_all_columns_done, lemma_clamped_iff_neighbours,
    lemma_column_done, lemma_column_run_grows, lemma_column_run_of_one,
    lemma_no_cells_before_first_column, lemma_no_steps_at_start, lemma_steps_at_rest,
    lemma_steps_bounded, line_cells, rows_from, sloped_cells_before, start_row, steps_after,
    vline_cells,
};

verus! {

/// A position on the plane of the surface, on it or off it.
#[derive(Clone, Copy, Debug, PartialEq, Eq, Structural)]
pub struct Point {
    pub x: i32,
    pub y: i32,
}

impl View for Point {
    type V = (int, int);

    open spec fn view(&self) -> (int, int) {
        (self.x as int, self.y as int)
    }
}

/// A surface of `width` columns and `height` rows, stored row after row.
pub struct Video {
    pixels: Vec<Color>,
    draw_color: Color,
    clear_color: Color,
    width: i32,
    height: i32,
}

/// The cell of column `x` and row `y` has a place in a buffer of `w * h`
/// cells stored row after row.
proof fn lemma_cell_index_in_range(w: int, h: int, x: int, y: int)
    by (nonlinear_arith)
    requires
        0 <= x < w,
        0 <= y < h,
    ensures
        0 <= y * w,
        y * w + x < w * h,
{
}

/// Two cells of a grid `w` columns wide that share a place in the buffer are
/// the same cell.
proof fn lemma_cell_index_injective(w: int, x1: int, y1: int, x2: int, y2: int)
    by (nonlinear_arith)
    requires
        0 <= x1 < w,
        0 <= x2 < w,
        y1 * w + x1 == y2 * w + x2,
    ensures
        x1 == x2,
        y1 == y2,
{
}

/// The place `p` of a buffer of `w * h` cells stored row after row holds the
/// cell of column `p % w` and row `p / w`.
proof fn lemma_cell_of_index(w: int, h: int, p: int)
    by (nonlinear_arith)
    requires
        0 < w,
        0 <= p < w * h,
    ensures
        0 <= p % w < w,
        0 <= p / w < h,
        (p / w) * w + p % w == p,
{
}

/// The cells at which any of the points lies.
pub open spec fn points_cells(points: Seq<Point>) -> Set<(int, int)> {
    Set::new(|c: (int, int)| exists|i: int| 0 <= i < points.len() && (#[trigger] points[i])@ == c)
}

/// The cells of the first `n + 1` points are those of the first `n` together
/// with the cell of the next.
proof fn lemma_points_cells_next(points: Seq<Point>, n: int)
    requires
        0 <= n < points.len(),
    ensures
        points_cells(points.take(n + 1)) == points_cells(points.take(n)).union(set![points[n]@]),
{
    let more = points.take(n + 1);
    let fewer = points.take(n);
    assert forall|c: (int, int)|
        points_cells(more).contains(c) == points_cells(fewer).union(set![points[n]@]).contains(
            c,
        ) by {
        if points_cells(more).contains(c) {
            let i = choose|i: int| 0 <= i < more.len() && (#[trigger] more[i])@ == c;
            if i < n {
                assert(fewer[i]@ == c);
            }
        }
        if points_cells(fewer).contains(c) {
            let i = choose|i: int| 0 <= i < fewer.len() && (#[trigger] fewer[i])@ == c;
            assert(more[i]@ == c);
        }
        if points[n]@ == c {
            assert(more[n]@ == c);
        }
    }
    assert(points_cells(more) =~= points_cells(fewer).union(set![points[n]@]));
}

/// The ten points that the test scene draws in a row.
pub open spec fn test_dots() -> Seq<Point> {
    Seq::new(10, |i: int| Point { x: ((i + 1) * 20) as i32, y: 50 })
}

/// The five rectangles that the test scene fills in a row.
pub open spec fn test_blocks() -> Seq<Rect> {
    Seq::new(5, |i: int| Rect { x: (i * 21 + 200) as i32, y: 220, w: 20, h: 20 })
}

/// The test scene drawn over `canvas`: a red horizontal and a green vertical
/// segment, a row of ten blue points, three cyan points and a cyan square,
/// a row of five yellow squares and a magenta sloped line. The canvas is
/// left drawing in magenta.
pub open spec fn test_scene(canvas: Canvas) -> Canvas {
    canvas.with_draw_color(Color { r: 255, g: 0, b: 0, a: 255 }).paint(
        hline_cells(20, 0, 380),
    ).with_draw_color(Color { r: 0, g: 255, b: 0, a: 255 }).paint(
        vline_cells(20, 0, 380),
    ).with_draw_color(Color { r: 0, g: 0, b: 255, a: 255 }).paint(
        points_cells(test_dots()),
    ).with_draw_color(Color { r: 0, g: 255, b: 255, a: 255 }).paint(
        points_cells(
            seq![Point { x: 20, y: 60 }, Point { x: 40, y: 60 }, Point { x: 60, y: 60 }],
        ),
    ).paint((Rect { x: 200, y: 200, w: 20, h: 20 }).cells()).with_draw_color(
        Color { r: 255, g: 255, b: 0, a: 255 },
    ).paint(rects_cells(test_blocks())).with_draw_color(
        Color { r: 255, g: 0, b: 255, a: 255 },
    ).paint(line_cells(50, 0, 300, 100))
}

impl View for Video {
    type V = Canvas;

    closed spec fn view(&self) -> Canvas {
        Canvas {
            width: self.width as int,
            height: self.height as int,
            pixels: Map::new(
                |c: (int, int)| 0 <= c.0 < self.width && 0 <= c.1 < self.height,
                |c: (int, int)| self.pixels@[c.1 * self.width + c.0],
            ),
            draw_color: self.draw_color,
            clear_color: self.clear_color,
        }
    }
}

impl Video {
    /// The buffer holds exactly one colour for each cell of a grid that has
    /// at least one cell, and is no larger than an allocation can be.
    pub closed spec fn wf(&self) -> bool {
        &&& self.width > 0
        &&& self.height > 0
        &&& self.pixels.len() == self.width * self.height
        &&& 4 * (self.width * self.height) <= isize::MAX
    }

    /// The canvas of a well-formed surface is well formed.
    pub proof fn lemma_view_wf(&self)
        requires
            self.wf(),
        ensures
            self@.wf(),
    {
    }

    /// A surface of `width` by `height` pixels, all transparent black, that
    /// draws in opaque white and clears to opaque black.
    ///
    /// Both sides are at least 1 and fit an `i32`, and the buffer of four
    /// bytes a pixel is no larger than an allocation can be.
    pub fn new(width: u32, height: u32) -> (video: Video)
        requires
            0 < width <= i32::MAX,
            0 < height <= i32::MAX,
            4 * (width * height) <= isize::MAX,
        ensures
            video.wf(),
            video@ == Canvas::blank(width as int, height as int),
    {
        let count: usize = (width as usize) * (height as usize);
        let pixels: Vec<Color> = vec![Color { r: 0, g: 0, b: 0, a: 0 }; count];
        let video = Video {
            pixels,
            draw_color: Color { r: 255, g: 255, b: 255, a: 255 },
            clear_color: Color { r: 0, g: 0, b: 0, a: 255 },
            width: width as i32,
            height: height as i32,
        };
        proof {
            let transparent = Color { r: 0, g: 0, b: 0, a: 0 };
            assert forall|c: (int, int)| 0 <= c.0 < width && 0 <= c.1 < height implies
                video.pixels@[c.1 * width + c.0] == transparent by {
                lemma_cell_index_in_range(width as int, height as int, c.0, c.1);
            }
            assert(video@.pixels =~= Canvas::blank(width as int, height as int).pixels);
        }
        video
    }

    /// Number of columns.
    pub fn width(&self) -> (w: i32)
        ensures
            w == self@.width,
    {
        self.width
    }

    /// Number of rows.
    pub fn height(&self) -> (h: i32)
        ensures
            h == self@.height,
    {
        self.height
    }

    /// The colour of the pixel in column `x` and row `y`, if the surface has
    /// such a pixel.
    pub fn get_pixel(&self, x: i32, y: i32) -> (color: Option<Color>)
        requires
            self.wf(),
        ensures
            color == if self@.contains(x as int, y as int) {
                Some(self@.pixels[(x as int, y as int)])
            } else {
                None
            },
    {
        if x < 0 || x >= self.width || y < 0 || y >= self.height {
            return None;
        }
        proof {
            lemma_cell_index_in_range(self.width as int, self.height as int, x as int, y as int);
        }
        let index: usize = (y as usize) * (self.width as usize) + (x as usize);
        Some(self.pixels[index])
    }

    /// Makes `color` the colour that drawing writes.
    pub fn set_draw_color(&mut self, color: Color)
        ensures
            final(self).wf() == old(self).wf(),
            final(self)@ == old(self)@.with_draw_color(color),
    {
        self.draw_color = color;
    }

    /// Makes `color` the colour that clearing writes.
    pub fn set_clear_color(&mut self, color: Color)
        ensures
            final(self).wf() == old(self).wf(),
            final(self)@ == old(self)@.with_clear_color(color),
    {
        self.clear_color = color;
    }

    /// Sets every pixel to the clear colour.
    pub fn clear(&mut self)
        requires
            old(self).wf(),
        ensures
            final(self).wf(),
            final(self)@ == old(self)@.cleared(),
    {
        let count: usize = self.pixels.len();
        let mut index: usize = 0;
        while index < count
            invariant
                self.wf(),
                count == self.pixels@.len(),
                index <= count,
                self.width == old(self).width,
                self.height == old(self).height,
                self.draw_color == old(self).draw_color,
                self.clear_color == old(self).clear_color,
                forall|i: int| 0 <= i < index ==> self.pixels@[i] == self.clear_color,
            decreases count - index,
        {
            self.pixels.set(index, self.clear_color);
            index += 1;
        }
        proof {
            assert forall|c: (int, int)| self@.contains(c.0, c.1) implies self@.pixels[c]
                == self.clear_color by {
                lemma_cell_index_in_range(self.width as int, self.height as int, c.0, c.1);
            }
            assert(self@.pixels =~= old(self)@.cleared().pixels);
        }
    }

    /// Writes the draw colour to the cell `(x, y)` if it lies on the
    /// surface, and does nothing if it does not.
    fn plot(&mut self, x: i64, y: i64)
        requires
            old(self).wf(),
        ensures
            final(self).wf(),
            final(self)@ == old(self)@.paint(set![(x as int, y as int)]),
    {
        if x < 0 || x >= self.width as i64 || y < 0 || y >= self.height as i64 {
            proof {
                lemma_paint_off_grid(self@, set![(x as int, y as int)]);
            }
            return;
        }
        proof {
            lemma_cell_index_in_range(self.width as int, self.height as int, x as int, y as int);
        }
        let index: usize = (y as usize) * (self.width as usize) + (x as usize);
        self.pixels.set(index, self.draw_color);
        proof {
            let w = self.width as int;
            let painted = old(self)@.paint(set![(x as int, y as int)]);
            assert forall|c: (int, int)| self@.contains(c.0, c.1) implies self@.pixels[c]
                == painted.pixels[c] by {
                lemma_cell_index_in_range(w, self.height as int, c.0, c.1);
                if c.1 * w + c.0 == index {
                    lemma_cell_index_injective(w, c.0, c.1, x as int, y as int);
                }
            }
            assert(self@.pixels =~= painted.pixels);
        }
    }

    /// Sets the pixel at `point` to the draw colour. A point off the surface
    /// is clipped: the surface stays as it was.
    pub fn point(&mut self, point: &Point)
        requires
            old(self).wf(),
        ensures
            final(self).wf(),
            final(self)@ == old(self)@.paint(set![point@]),
            !old(self)@.contains(point.x as int, point.y as int) ==> final(self)@ == old(self)@,
    {
        proof {
            if !self@.contains(point.x as int, point.y as int) {
                lemma_paint_off_grid(self@, set![point@]);
            }
        }
        self.plot(point.x as i64, point.y as i64);
    }

    /// Sets the pixel at each of `points` to the draw colour, in order,
    /// leaving out those off the surface.
    pub fn points(&mut self, points: &[Point])
        requires
            old(self).wf(),
        ensures
            final(self).wf(),
            final(self)@ == old(self)@.paint(points_cells(points@)),
    {
        let mut n: usize = 0;
        proof {
            lemma_paint_off_grid(self@, points_cells(points@.take(0)));
        }
        while n < points.len()
            invariant
                self.wf(),
                n <= points.len(),
                self@ == old(self)@.paint(points_cells(points@.take(n as int))),
            decreases points.len() - n,
        {
            self.point(&points[n]);
            proof {
                lemma_paint_twice(
                    old(self)@,
                    points_cells(points@.take(n as int)),
                    set![points[n as int]@],
                );
                lemma_points_cells_next(points@, n as int);
            }
            n += 1;
        }
        proof {
            assert(points@.take(n as int) =~= points@);
        }
    }

    /// Draws the horizontal segment in row `y` between the columns `x1` and
    /// `x2`, given in either order, both ends included, clipped to the
    /// surface.
    pub fn hline(&mut self, y: i32, x1: i32, x2: i32)
        requires
            old(self).wf(),
        ensures
            final(self).wf(),
            final(self)@ == old(self)@.paint(hline_cells(y as int, x1 as int, x2 as int)),
    {
        if y < 0 || y >= self.height {
            proof {
                lemma_paint_off_grid(self@, hline_cells(y as int, x1 as int, x2 as int));
            }
            return;
        }
        let lo: i32 = if x1 <= x2 { x1 } else { x2 };
        let hi: i32 = if x1 <= x2 { x2 } else { x1 };
        let first: i32 = if lo < 0 { 0 } else { lo };
        let last: i32 = if hi >= self.width { self.width - 1 } else { hi };
        let mut x: i32 = first;
        proof {
            lemma_paint_off_grid(self@, Set::new(|c: (int, int)| c.1 == y && first <= c.0 < x));
        }
        while x <= last
            invariant
                self.wf(),
                last < self.width,
                x == first || x <= last + 1,
                first <= x,
                self@ == old(self)@.paint(Set::new(|c: (int, int)| c.1 == y && first <= c.0 < x)),
            decreases last - x + 1,
        {
            let ghost done = Set::new(|c: (int, int)| c.1 == y && first <= c.0 < x);
            self.plot(x as i64, y as i64);
            proof {
                lemma_paint_twice(old(self)@, done, set![(x as int, y as int)]);
                assert(done.union(set![(x as int, y as int)]) =~= Set::new(
                    |c: (int, int)| c.1 == y && first <= c.0 < x + 1,
                ));
            }
            x += 1;
        }
        proof {
            lemma_paint_same_on_grid(
                old(self)@,
                Set::new(|c: (int, int)| c.1 == y && first <= c.0 < x),
                hline_cells(y as int, x1 as int, x2 as int),
            );
        }
    }

    /// Draws the vertical segment in column `x` between the rows `y1` and
    /// `y2`, given in either order, both ends included, clipped to the
    /// surface.
    pub fn vline(&mut self, x: i32, y1: i32, y2: i32)
        requires
            old(self).wf(),
        ensures
            final(self).wf(),
            final(self)@ == old(self)@.paint(vline_cells(x as int, y1 as int, y2 as int)),
    {
        if x < 0 || x >= self.width {
            proof {
                lemma_paint_off_grid(self@, vline_cells(x as int, y1 as int, y2 as int));
            }
            return;
        }
        let lo: i32 = if y1 <= y2 { y1 } else { y2 };
        let hi: i32 = if y1 <= y2 { y2 } else { y1 };
        let first: i32 = if lo < 0 { 0 } else { lo };
        let last: i32 = if hi >= self.height { self.height - 1 } else { hi };
        let mut y: i32 = first;
        proof {
            lemma_paint_off_grid(self@, Set::new(|c: (int, int)| c.0 == x && first <= c.1 < y));
        }
        while y <= last
            invariant
                self.wf(),
                last < self.height,
                y == first || y <= last + 1,
                first <= y,
                self@ == old(self)@.paint(Set::new(|c: (int, int)| c.0 == x && first <= c.1 < y)),
            decreases last - y + 1,
        {
            let ghost done = Set::new(|c: (int, int)| c.0 == x && first <= c.1 < y);
            self.plot(x as i64, y as i64);
            proof {
                lemma_paint_twice(old(self)@, done, set![(x as int, y as int)]);
                assert(done.union(set![(x as int, y as int)]) =~= Set::new(
                    |c: (int, int)| c.0 == x && first <= c.1 < y + 1,
                ));
            }
            y += 1;
        }
        proof {
            lemma_paint_same_on_grid(
                old(self)@,
                Set::new(|c: (int, int)| c.0 == x && first <= c.1 < y),
                vline_cells(x as int, y1 as int, y2 as int),
            );
        }
    }

    /// Draws the line from `(x1, y1)` to `(x2, y2)`, clipped to the surface.
    ///
    /// A line along a column or a row is the vertical or horizontal segment
    /// between its ends. Any other line is rasterised column by column from
    /// its leftmost column to its rightmost, the row moving as the
    /// accumulated error allows.
    pub fn line(&mut self, x1: i32, y1: i32, x2: i32, y2: i32)
        requires
            old(self).wf(),
        ensures
            final(self).wf(),
            final(self)@ == old(self)@.paint(
                line_cells(x1 as int, y1 as int, x2 as int, y2 as int),
            ),
    {
        if x1 == x2 {
            self.vline(x1, y1, y2);
            return;
        }
        if y1 == y2 {
            self.hline(y1, x1, x2);
            return;
        }
        let up: bool = x1 < x2;
        let dx: i64 = if up { x2 as i64 - x1 as i64 } else { x1 as i64 - x2 as i64 };
        let dy: i64 = if y1 < y2 { y2 as i64 - y1 as i64 } else { y1 as i64 - y2 as i64 };
        let xmin: i64 = if up { x1 as i64 } else { x2 as i64 };
        let xmax: i64 = if up { x2 as i64 } else { x1 as i64 };
        let ylow: i64 = if y1 < y2 { y1 as i64 } else { y2 as i64 };
        let yhigh: i64 = if y1 < y2 { y2 as i64 } else { y1 as i64 };
        let y0: i64 = if up { ylow } else { yhigh };
        // The error step is `num / den`, and `error` counts in units of
        // `1 / den`: it is at least one half when twice it is at least `den`.
        let num: i64 = if dx == 1 { dy - 1 } else { dy };
        let den: i64 = if dx == 1 { 1 } else { dx };
        let mut x: i64 = xmin;
        let mut y: i64 = y0;
        let mut error: i64 = 0;
        let ghost mut steps: int = 0;
        let ghost (gx1, gy1, gx2, gy2) = (x1 as int, y1 as int, x2 as int, y2 as int);
        proof {
            lemma_clamped_iff_neighbours(dx as int, dy as int);
            lemma_no_steps_at_start(num as int, den as int);
            lemma_no_cells_before_first_column(gx1, gy1, gx2, gy2);
            lemma_paint_off_grid(self@, Set::<(int, int)>::empty());
            assert(0 * num == 0 && 0 * den == 0) by (nonlinear_arith);
        }
        while x <= xmax
            invariant
                self.wf(),
                gx1 == x1 && gy1 == y1 && gx2 == x2 && gy2 == y2,
                gx1 != gx2 && gy1 != gy2,
                up == (gx1 < gx2),
                xmin == min(gx1, gx2),
                xmax == max(gx1, gx2),
                dx == abs(gx2 - gx1),
                dy == abs(gy2 - gy1),
                y0 == start_row(gx1, gy1, gx2, gy2),
                error_step(dx as int, dy as int) == (num as int, den as int),
                1 <= dx < 0x1_0000_0000,
                1 <= dy < 0x1_0000_0000,
                0 <= num <= dy,
                1 <= den <= dx,
                xmin <= x <= xmax + 1,
                0 <= steps <= 2 * dy + 1,
                steps == steps_after(num as int, den as int, x - xmin),
                error == (x - xmin) * num - steps * den,
                -den <= 2 * error < den,
                rows_from(y0 as int, up, y as int) == steps,
                self@ == old(self)@.paint(sloped_cells_before(gx1, gy1, gx2, gy2, x as int)),
            decreases xmax - x + 1,
        {
            let ghost k: int = x - xmin;
            let ghost lo: int = steps;
            let ghost before = sloped_cells_before(gx1, gy1, gx2, gy2, x as int);
            self.plot(x, y);
            error = error + num;
            proof {
                lemma_paint_twice(old(self)@, before, set![(x as int, y as int)]);
                lemma_column_run_of_one(x as int, y0 as int, up, lo, y as int);
                assert((k + 1) * num == k * num + num) by (nonlinear_arith);
            }
            while 2 * error >= den
                invariant
                    self.wf(),
                    error_step(dx as int, dy as int) == (num as int, den as int),
                    1 <= dx < 0x1_0000_0000,
                    1 <= dy < 0x1_0000_0000,
                    0 <= num <= dy,
                    1 <= den <= dx,
                    0 <= k <= dx,
                    lo <= steps <= 2 * dy + 1,
                    error == (k + 1) * num - steps * den,
                    -den <= 2 * error < den + 2 * num,
                    i32::MIN <= y0 <= i32::MAX,
                    rows_from(y0 as int, up, y as int) == steps,
                    self@ == old(self)@.paint(
                        before.union(
                            column_run(x as int, y0 as int, up, lo, max(lo + 1, steps)),
                        ),
                    ),
                decreases 2 * error + den,
            {
                let ghost run = column_run(
                    x as int,
                    y0 as int,
                    up,
                    lo,
                    max(lo + 1, steps),
                );
                self.plot(x, y);
                proof {
                    lemma_steps_bounded(dx as int, dy as int, k + 1, steps);
                    lemma_paint_twice(old(self)@, before.union(run), set![(x as int, y as int)]);
                    lemma_column_run_grows(x as int, y0 as int, up, lo, steps, y as int);
                    assert(before.union(run).union(set![(x as int, y as int)]) =~= before.union(
                        run.union(set![(x as int, y as int)]),
                    ));
                    assert((steps + 1) * den == steps * den + den) by (nonlinear_arith);
                    steps = steps + 1;
                }
                y = if up { y + 1 } else { y - 1 };
                error = error - den;
            }
            proof {
                lemma_steps_at_rest(num as int, den as int, k + 1, steps);
                lemma_column_done(gx1, gy1, gx2, gy2, x as int);
            }
            x = x + 1;
        }
        proof {
            lemma_all_columns_done(gx1, gy1, gx2, gy2);
        }
    }

    /// Fills `rect` with the draw colour, clipped to the surface: the part
    /// of the rectangle that lies on the surface is filled, the rest left
    /// out. A rectangle without width or height fills nothing.
    #[verifier::loop_isolation(false)]
    pub fn fill_rect(&mut self, rect: &Rect)
        requires
            old(self).wf(),
        ensures
            final(self).wf(),
            final(self)@ == old(self)@.paint(rect.cells()),
    {
        let left: i64 = if rect.x < 0 { 0 } else { rect.x as i64 };
        let top: i64 = if rect.y < 0 { 0 } else { rect.y as i64 };
        let right: i64 = if rect.x as i64 + rect.w as i64 > self.width as i64 {
            self.width as i64
        } else {
            rect.x as i64 + rect.w as i64
        };
        let bottom: i64 = if rect.y as i64 + rect.h as i64 > self.height as i64 {
            self.height as i64
        } else {
            rect.y as i64 + rect.h as i64
        };
        let mut row: i64 = top;
        proof {
            lemma_paint_off_grid(
                self@,
                Set::new(|c: (int, int)| left <= c.0 < right && top <= c.1 < row),
            );
        }
        while row < bottom
            invariant
                self.wf(),
                top <= row,
                row <= bottom || row == top,
                self@ == old(self)@.paint(
                    Set::new(|c: (int, int)| left <= c.0 < right && top <= c.1 < row),
                ),
            decreases bottom - row,
        {
            let ghost above = Set::new(|c: (int, int)| left <= c.0 < right && top <= c.1 < row);
            let mut column: i64 = left;
            proof {
                lemma_paint_same_on_grid(
                    old(self)@,
                    above,
                    above.union(Set::new(|c: (int, int)| c.1 == row && left <= c.0 < column)),
                );
            }
            while column < right
                invariant
                    self.wf(),
                    left <= column,
                    column <= right || column == left,
                    self@ == old(self)@.paint(
                        above.union(Set::new(|c: (int, int)| c.1 == row && left <= c.0 < column)),
                    ),
                decreases right - column,
            {
                let ghost done = above.union(
                    Set::new(|c: (int, int)| c.1 == row && left <= c.0 < column),
                );
                self.plot(column, row);
                proof {
                    lemma_paint_twice(old(self)@, done, set![(column as int, row as int)]);
                    assert(done.union(set![(column as int, row as int)]) =~= above.union(
                        Set::new(|c: (int, int)| c.1 == row && left <= c.0 < column + 1),
                    ));
                }
                column += 1;
            }
            proof {
                lemma_paint_same_on_grid(
                    old(self)@,
                    above.union(Set::new(|c: (int, int)| c.1 == row && left <= c.0 < column)),
                    Set::new(|c: (int, int)| left <= c.0 < right && top <= c.1 < row + 1),
                );
            }
            row += 1;
        }
        proof {
            lemma_paint_same_on_grid(
                old(self)@,
                Set::new(|c: (int, int)| left <= c.0 < right && top <= c.1 < row),
                rect.cells(),
            );
        }
    }

    /// Fills each of `rects` with the draw colour, in order, each clipped to
    /// the surface.
    pub fn fill_rects(&mut self, rects: &[Rect])
        requires
            old(self).wf(),
        ensures
            final(self).wf(),
            final(self)@ == old(self)@.paint(rects_cells(rects@)),
    {
        let mut n: usize = 0;
        proof {
            lemma_paint_off_grid(self@, rects_cells(rects@.take(0)));
        }
        while n < rects.len()
            invariant
                self.wf(),
                n <= rects.len(),
                self@ == old(self)@.paint(rects_cells(rects@.take(n as int))),
            decreases rects.len() - n,
        {
            self.fill_rect(&rects[n]);
            proof {
                lemma_paint_twice(
                    old(self)@,
                    rects_cells(rects@.take(n as int)),
                    rects[n as int].cells(),
                );
                lemma_rects_cells_next(rects@, n as int);
            }
            n += 1;
        }
        proof {
            assert(rects@.take(n as int) =~= rects@);
        }
    }

    /// Draws the test scene over what the surface holds.
    pub fn test(&mut self)
        requires
            old(self).wf(),
        ensures
            final(self).wf(),
            final(self)@ == test_scene(old(self)@),
    {
        self.set_draw_color(Color::rgb(255, 0, 0));
        self.hline(20, 0, 380);
        self.set_draw_color(Color::rgb(0, 255, 0));
        self.vline(20, 0, 380);

        self.set_draw_color(Color::rgb(0, 0, 255));
        let ghost base = self@;
        let ghost dots = test_dots();
        proof {
            lemma_paint_off_grid(base, points_cells(dots.take(0)));
        }
        let mut i: i32 = 0;
        while i < 10
            invariant
                self.wf(),
                0 <= i <= 10,
                dots == test_dots(),
                self@ == base.paint(points_cells(dots.take(i as int))),
            decreases 10 - i,
        {
            self.point(&Point { x: (i + 1) * 20, y: 50 });
            proof {
                lemma_paint_twice(base, points_cells(dots.take(i as int)), set![dots[i as int]@]);
                lemma_points_cells_next(dots, i as int);
            }
            i += 1;
        }
        proof {
            assert(dots.take(10) =~= dots);
        }

        self.set_draw_color(Color::rgb(0, 255, 255));
        let points: Vec<Point> = vec![
            Point { x: 20, y: 60 },
            Point { x: 40, y: 60 },
            Point { x: 60, y: 60 },
        ];
        proof {
            assert(points@ =~= seq![
                Point { x: 20, y: 60 },
                Point { x: 40, y: 60 },
                Point { x: 60, y: 60 },
            ]);
        }
        self.points(points.as_slice());

        self.fill_rect(&Rect { x: 200, y: 200, w: 20, h: 20 });
        self.set_draw_color(Color::rgb(255, 255, 0));
        let mut rects: Vec<Rect> = Vec::new();
        let mut i: i32 = 0;
        while i < 5
            invariant
                0 <= i <= 5,
                rects@ == test_blocks().take(i as int),
            decreases 5 - i,
        {
            rects.push(Rect { x: i * 21 + 200, y: 220, w: 20, h: 20 });
            proof {
                assert(rects@ =~= test_blocks().take(i + 1));
            }
            i += 1;
        }
        proof {
            assert(test_blocks().take(5) =~= test_blocks());
        }
        self.fill_rects(rects.as_slice());

        self.set_draw_color(Color::rgb(255, 0, 255));
        self.line(50, 0, 300, 100);
    }

    /// The frame as it is to be shown: the pixels row after row, left to
    /// right, four bytes a pixel in the order red, green, blue, alpha. The
    /// surface is only read.
    pub fn render(&self) -> (bytes: Vec<u8>)
        requires
            self.wf(),
        ensures
            bytes@ == self@.rgba_bytes(),
    {
        let count: usize = self.pixels.len();
        let mut bytes: Vec<u8> = Vec::new();
        let mut n: usize = 0;
        while n < count
            invariant
                self.wf(),
                count == self.pixels.len(),
                n <= count,
                bytes@.len() == 4 * n,
                forall|i: int|
                    0 <= i < 4 * n ==> bytes@[i] == (#[trigger] self.pixels@[i / 4]).channel(i % 4),
            decreases count - n,
        {
            let color: Color = self.pixels[n];
            bytes.push(color.r);
            bytes.push(color.g);
            bytes.push(color.b);
            bytes.push(color.a);
            n += 1;
        }
        proof {
            let w = self.width as int;
            let h = self.height as int;
            assert forall|i: int| 0 <= i < 4 * (w * h) implies bytes@[i] == self@.rgba_bytes()[i] by {
                let p = i / 4;
                lemma_fundamental_div_mod(p, w);
                lemma_cell_of_index(w, h, p);
                assert(self.pixels@[p] == self@.pixels[(p % w, p / w)]);
            }
            assert(bytes@ =~= self@.rgba_bytes());
        }
        bytes
    }
}

} // verus!
