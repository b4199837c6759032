//! Which cells a segment covers.
//!
//! Horizontal and vertical segments cover every cell between their ends, both
//! ends included. Any other segment is rasterised one column at a time, from
//! its leftmost column to its rightmost: an error term grows by a fixed
//! fraction in each column, and while it is at least one half the row moves
//! by one and the error drops by one. Every column is covered from the row
//! in which it is entered to the last row before the one in which it is
//! left: one cell a column on a shallow slope, a run of cells on a steep one.
//!
//! The error is kept as an exact fraction, so nothing is rounded: an error of
//! exactly one half always moves the row.

use vstd::prelude::*;
use vstd::arithmetic::div_mod::{lemma_fundamental_div_mod, lemma_fundamental_div_mod_converse};
use vstd::math::{abs, max, min};
use crate::canvas::Canvas;

verus! {

/// The cells of the horizontal segment in row `y` between the columns `x1`
/// and `x2`, in either order, both ends included.
pub open spec fn hline_cells(y: int, x1: int, x2: int) -> Set<(int, int)> {
    Set::new(|c: (int, int)| c.1 == y && min(x1, x2) <= c.0 <= max(x1, x2))
}

/// The cells of the vertical segment in column `x` between the rows `y1` and
/// `y2`, in either order, both ends included.
pub open spec fn vline_cells(x: int, y1: int, y2: int) -> Set<(int, int)> {
    Set::new(|c: (int, int)| c.0 == x && min(y1, y2) <= c.1 <= max(y1, y2))
}

/// Whether the slope `dy / dx` lies within one tenth of `dy`.
pub open spec fn slope_is_clamped(dx: int, dy: int) -> bool {
    10 * abs(dy - dy * dx) <= dx
}

/// The error added in each column, as numerator and denominator: the slope
/// `dy / dx`, or `dy - 1` where the slope is clamped.
pub open spec fn error_step(dx: int, dy: int) -> (int, int) {
    if slope_is_clamped(dx, dy) {
        (dy - 1, 1)
    } else {
        (dy, dx)
    }
}

/// The number of rows moved once `k` columns are done, for an error step of
/// `num / den`: the sum `k * num / den` rounded to the nearest integer,
/// halves upward.
pub open spec fn steps_after(num: int, den: int, k: int) -> int {
    (2 * k * num + den) / (2 * den)
}

/// The row in which a sloped segment starts, at its leftmost column: the
/// least of the two rows when the first end is left of the second, the
/// greatest otherwise.
pub open spec fn start_row(x1: int, y1: int, x2: int, y2: int) -> int {
    if x1 < x2 {
        min(y1, y2)
    } else {
        max(y1, y2)
    }
}

/// How many rows `y` lies from the row `y0`, counted in the direction of
/// travel: toward greater rows if `up`, toward lesser rows if not.
pub open spec fn rows_from(y0: int, up: bool, y: int) -> int {
    if up {
        y - y0
    } else {
        y0 - y
    }
}

/// Whether the rasterisation of a segment that is neither horizontal nor
/// vertical covers the cell `(x, y)`.
///
/// In the column that lies `k` to the right of the leftmost, the covered
/// rows begin where `k` columns of error have brought the row, and go on for
/// as many rows as this column's error moves it, at least one.
pub open spec fn sloped_covers(x1: int, y1: int, x2: int, y2: int, x: int, y: int) -> bool {
    let dx = abs(x2 - x1) as int;
    let dy = abs(y2 - y1) as int;
    let step = error_step(dx, dy);
    let k = x - min(x1, x2);
    let j = rows_from(start_row(x1, y1, x2, y2), x1 < x2, y);
    &&& 0 <= k <= dx
    &&& steps_after(step.0, step.1, k) <= j
    &&& (j == steps_after(step.0, step.1, k) || j < steps_after(step.0, step.1, k + 1))
}

/// The cells that drawing a line from `(x1, y1)` to `(x2, y2)` covers.
pub open spec fn line_cells(x1: int, y1: int, x2: int, y2: int) -> Set<(int, int)> {
    if x1 == x2 {
        vline_cells(x1, y1, y2)
    } else if y1 == y2 {
        hline_cells(y1, x1, x2)
    } else {
        Set::new(|c: (int, int)| sloped_covers(x1, y1, x2, y2, c.0, c.1))
    }
}

/// The cells of a sloped segment in the columns left of column `x`.
pub(crate) open spec fn sloped_cells_before(x1: int, y1: int, x2: int, y2: int, x: int) -> Set<
    (int, int),
> {
    Set::new(|c: (int, int)| sloped_covers(x1, y1, x2, y2, c.0, c.1) && c.0 < x)
}

/// The cells of column `x` that lie at least `lo` and less than `hi` rows
/// from the row `y0`.
pub(crate) open spec fn column_run(x: int, y0: int, up: bool, lo: int, hi: int) -> Set<(int, int)> {
    Set::new(|c: (int, int)| c.0 == x && lo <= rows_from(y0, up, c.1) < hi)
}

/// Between two distinct columns and two distinct rows the slope is clamped
/// exactly when the columns are neighbours.
pub proof fn lemma_clamped_iff_neighbours(dx: int, dy: int)
    by (nonlinear_arith)
    requires
        dx >= 1,
        dy >= 1,
    ensures
        slope_is_clamped(dx, dy) <==> dx == 1,
{
    if dx >= 2 {
        assert(dy * dx - dy >= dy);
    }
}

/// An error that has come to rest, at least minus one half and less than one
/// half, fixes the number of rows moved.
pub proof fn lemma_steps_at_rest(num: int, den: int, k: int, steps: int)
    requires
        den >= 1,
        -den <= 2 * (k * num - steps * den) < den,
    ensures
        steps == steps_after(num, den, k),
{
    let r = 2 * k * num + den - steps * (2 * den);
    assert(2 * (k * num) == 2 * k * num) by (nonlinear_arith);
    assert(2 * (steps * den) == steps * (2 * den)) by (nonlinear_arith);
    lemma_fundamental_div_mod_converse(2 * k * num + den, 2 * den, steps, r);
}

/// The row of a sloped segment never moves more than twice the distance
/// between the rows of its ends.
pub(crate) proof fn lemma_steps_bounded(dx: int, dy: int, k: int, steps: int)
    by (nonlinear_arith)
    requires
        dx >= 1,
        dy >= 1,
        0 <= k <= dx + 1,
        steps * error_step(dx, dy).1 <= k * error_step(dx, dy).0,
    ensures
        steps <= 2 * dy,
{
    if dx == 1 {
        assert(slope_is_clamped(dx, dy));
        assert(k * (dy - 1) <= 2 * (dy - 1));
    } else {
        assert(dy * dx - dy >= dy);
        assert(!slope_is_clamped(dx, dy));
        assert(k * dy <= (dx + 1) * dy);
        assert((dx + 1) * dy <= 2 * dy * dx);
        assert(steps * dx <= 2 * dy * dx);
    }
}

/// Before the first column nothing of a sloped segment is covered.
pub(crate) proof fn lemma_no_cells_before_first_column(x1: int, y1: int, x2: int, y2: int)
    ensures
        sloped_cells_before(x1, y1, x2, y2, min(x1, x2)) == Set::<(int, int)>::empty(),
{
    assert(sloped_cells_before(x1, y1, x2, y2, min(x1, x2)) =~= Set::<(int, int)>::empty());
}

/// The cell that lies `lo` rows from the start is the run of one row that
/// begins there.
pub(crate) proof fn lemma_column_run_of_one(x: int, y0: int, up: bool, lo: int, y: int)
    requires
        rows_from(y0, up, y) == lo,
    ensures
        set![(x, y)] == column_run(x, y0, up, lo, lo + 1),
{
    assert(set![(x, y)] =~= column_run(x, y0, up, lo, lo + 1));
}

/// Covering the cell that lies `steps` rows from the start lengthens a run
/// that has reached it by that cell, and leaves a run of one row that
/// begins at it as it is.
pub(crate) proof fn lemma_column_run_grows(x: int, y0: int, up: bool, lo: int, steps: int, y: int)
    requires
        lo <= steps,
        rows_from(y0, up, y) == steps,
    ensures
        column_run(x, y0, up, lo, max(lo + 1, steps)).union(set![(x, y)]) == column_run(
            x,
            y0,
            up,
            lo,
            max(lo + 1, steps + 1),
        ),
{
    assert(column_run(x, y0, up, lo, max(lo + 1, steps)).union(set![(x, y)]) =~= column_run(
        x,
        y0,
        up,
        lo,
        max(lo + 1, steps + 1),
    ));
}

/// The cells left of a column together with the run of that column are the
/// cells left of the next column.
pub(crate) proof fn lemma_column_done(x1: int, y1: int, x2: int, y2: int, x: int)
    requires
        min(x1, x2) <= x <= max(x1, x2),
    ensures
        ({
            let step = error_step(abs(x2 - x1) as int, abs(y2 - y1) as int);
            let k = x - min(x1, x2);
            let lo = steps_after(step.0, step.1, k);
            let hi = steps_after(step.0, step.1, k + 1);
            sloped_cells_before(x1, y1, x2, y2, x).union(
                column_run(x, start_row(x1, y1, x2, y2), x1 < x2, lo, max(lo + 1, hi)),
            ) == sloped_cells_before(x1, y1, x2, y2, x + 1)
        }),
{
    let step = error_step(abs(x2 - x1) as int, abs(y2 - y1) as int);
    let k = x - min(x1, x2);
    let lo = steps_after(step.0, step.1, k);
    let hi = steps_after(step.0, step.1, k + 1);
    let run = column_run(x, start_row(x1, y1, x2, y2), x1 < x2, lo, max(lo + 1, hi));
    let before = sloped_cells_before(x1, y1, x2, y2, x);
    let after = sloped_cells_before(x1, y1, x2, y2, x + 1);
    assert forall|c: (int, int)| before.union(run).contains(c) == after.contains(c) by {
        if c.0 == x {
            assert(c.0 - min(x1, x2) == k);
            assert(c.0 - min(x1, x2) + 1 == k + 1);
        }
    }
    assert(before.union(run) =~= after);
}

/// The cells left of the column after the last are all the cells of a
/// sloped line.
pub(crate) proof fn lemma_all_columns_done(x1: int, y1: int, x2: int, y2: int)
    requires
        x1 != x2,
        y1 != y2,
    ensures
        sloped_cells_before(x1, y1, x2, y2, max(x1, x2) + 1) == line_cells(x1, y1, x2, y2),
{
    assert(sloped_cells_before(x1, y1, x2, y2, max(x1, x2) + 1) =~= line_cells(x1, y1, x2, y2));
}

/// Before any column is done no row has been moved.
pub(crate) proof fn lemma_no_steps_at_start(num: int, den: int)
    requires
        den >= 1,
    ensures
        steps_after(num, den, 0) == 0,
{
    assert(0 * num == 0 && 0 * den == 0) by (nonlinear_arith);
    lemma_steps_at_rest(num, den, 0, 0);
}

/// A line from a point to itself covers that one cell: drawn on a canvas, it
/// sets the pixel there if the point lies on the grid, and changes nothing if
/// it does not.
pub proof fn lemma_line_of_one_point(canvas: Canvas, x: int, y: int)
    requires
        canvas.wf(),
    ensures
        line_cells(x, y, x, y) == set![(x, y)],
        canvas.contains(x, y) ==> canvas.paint(line_cells(x, y, x, y)).pixels
            == canvas.pixels.insert((x, y), canvas.draw_color),
        !canvas.contains(x, y) ==> canvas.paint(line_cells(x, y, x, y)) == canvas,
{
    assert(line_cells(x, y, x, y) =~= set![(x, y)]);
    if canvas.contains(x, y) {
        assert(canvas.paint(set![(x, y)]).pixels =~= canvas.pixels.insert(
            (x, y),
            canvas.draw_color,
        ));
    } else {
        assert(canvas.paint(set![(x, y)]).pixels =~= canvas.pixels);
    }
}

/// A sloped line covers at least one cell in every column between the
/// columns of its ends: in the column `x`, the cell where the error of the
/// columns before it has brought the row.
pub proof fn lemma_line_covers_every_column(x1: int, y1: int, x2: int, y2: int, x: int)
    requires
        x1 != x2,
        y1 != y2,
        min(x1, x2) <= x <= max(x1, x2),
    ensures
        ({
            let step = error_step(abs(x2 - x1) as int, abs(y2 - y1) as int);
            let moved = steps_after(step.0, step.1, x - min(x1, x2));
            let y = if x1 < x2 {
                start_row(x1, y1, x2, y2) + moved
            } else {
                start_row(x1, y1, x2, y2) - moved
            };
            line_cells(x1, y1, x2, y2).contains((x, y))
        }),
{
}

/// A line along a row covers the horizontal segment between its ends, and a
/// line along a column the vertical one.
pub proof fn lemma_line_along_axis(x1: int, y1: int, x2: int, y2: int)
    ensures
        y1 == y2 ==> line_cells(x1, y1, x2, y2) == hline_cells(y1, x1, x2),
        x1 == x2 ==> line_cells(x1, y1, x2, y2) == vline_cells(x1, y1, y2),
{
    if x1 == x2 && y1 == y2 {
        assert(vline_cells(x1, y1, y2) =~= hline_cells(y1, x1, x2));
    }
}

/// A sloped line is the same whichever of its ends has the lesser row: the
/// rows of the ends enter only through their least, their greatest and
/// their distance.
pub proof fn lemma_line_ignores_row_order(x1: int, y1: int, x2: int, y2: int)
    requires
        x1 != x2,
    ensures
        line_cells(x1, y1, x2, y2) == line_cells(x1, y2, x2, y1),
{
    assert(line_cells(x1, y1, x2, y2) =~= line_cells(x1, y2, x2, y1));
}

/// A sloped line whose first end has the lesser row, and whose ends lie at
/// least two columns apart, covers both of its ends.
pub proof fn lemma_line_covers_ends(x1: int, y1: int, x2: int, y2: int)
    requires
        y1 < y2,
        abs(x2 - x1) >= 2,
    ensures
        line_cells(x1, y1, x2, y2).contains((x1, y1)),
        line_cells(x1, y1, x2, y2).contains((x2, y2)),
{
    let dx = abs(x2 - x1) as int;
    let dy = y2 - y1;
    lemma_clamped_iff_neighbours(dx, dy);
    lemma_no_steps_at_start(dy, dx);
    assert(dx * dy - dy * dx == 0) by (nonlinear_arith);
    lemma_steps_at_rest(dy, dx, dx, dy);
}

/// When the error step is at most one, a column moves the row by at most
/// one.
pub proof fn lemma_steps_grow_slowly(num: int, den: int, k: int)
    requires
        den >= 1,
        0 <= num <= den,
    ensures
        steps_after(num, den, k) <= steps_after(num, den, k + 1) <= steps_after(num, den, k) + 1,
{
    let a = 2 * k * num + den;
    let b = 2 * (k + 1) * num + den;
    let s = steps_after(num, den, k);
    let t = steps_after(num, den, k + 1);
    lemma_fundamental_div_mod(a, 2 * den);
    lemma_fundamental_div_mod(b, 2 * den);
    assert(b == a + 2 * num) by (nonlinear_arith)
        requires
            a == 2 * k * num + den,
            b == 2 * (k + 1) * num + den,
    ;
    assert(s <= t <= s + 1) by (nonlinear_arith)
        requires
            den >= 1,
            0 <= num <= den,
            b == a + 2 * num,
            a == (2 * den) * s + a % (2 * den),
            b == (2 * den) * t + b % (2 * den),
            0 <= a % (2 * den) < 2 * den,
            0 <= b % (2 * den) < 2 * den,
    ;
}

/// A shallow line, whose ends lie at least two columns apart and no more
/// rows apart than columns, covers exactly one cell in each column between
/// the columns of its ends: the cell to which the error of the columns
/// before it has brought the row.
pub proof fn lemma_shallow_line_one_cell_a_column(
    x1: int,
    y1: int,
    x2: int,
    y2: int,
    x: int,
    y: int,
)
    requires
        y1 != y2,
        abs(x2 - x1) >= 2,
        abs(y2 - y1) <= abs(x2 - x1),
    ensures
        line_cells(x1, y1, x2, y2).contains((x, y)) <==> {
            &&& min(x1, x2) <= x <= max(x1, x2)
            &&& rows_from(start_row(x1, y1, x2, y2), x1 < x2, y) == steps_after(
                abs(y2 - y1) as int,
                abs(x2 - x1) as int,
                x - min(x1, x2),
            )
        },
{
    let dx = abs(x2 - x1) as int;
    let dy = abs(y2 - y1) as int;
    lemma_clamped_iff_neighbours(dx, dy);
    lemma_steps_grow_slowly(dy, dx, x - min(x1, x2));
}

/// Every cell of a line lies in a column between the columns of its ends.
pub proof fn lemma_line_within_columns(x1: int, y1: int, x2: int, y2: int, x: int, y: int)
    requires
        line_cells(x1, y1, x2, y2).contains((x, y)),
    ensures
        min(x1, x2) <= x <= max(x1, x2),
{
}

} // verus!
