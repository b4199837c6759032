//! Rectangles: a corner and a size, in whole cells.

use vstd::prelude::*;

verus! {

/// The rectangle whose top-left cell is `(x, y)`, `w` columns wide and `h`
/// rows high.
#[derive(Clone, Copy, Debug, PartialEq, Eq, Structural)]
pub struct Rect {
    pub x: i32,
    pub y: i32,
    pub w: i32,
    pub h: i32,
}

impl Rect {
    /// The cells that the rectangle covers: the columns from `x` up to but
    /// not including `x + w`, in the rows from `y` up to but not including
    /// `y + h`. A rectangle whose width or height is zero or less covers
    /// nothing.
    pub open spec fn cells(self) -> Set<(int, int)> {
        Set::new(
            |c: (int, int)|
                self.x <= c.0 < self.x + self.w && self.y <= c.1 < self.y + self.h,
        )
    }

    /// A rectangle at `(x, y)` of `w` by `h` cells.
    pub fn new(x: i32, y: i32, w: i32, h: i32) -> (rect: Rect)
        ensures
            rect == (Rect { x, y, w, h }),
    {
        Rect { x, y, w, h }
    }
}

/// The cells that any of the rectangles covers.
pub open spec fn rects_cells(rects: Seq<Rect>) -> Set<(int, int)> {
    Set::new(
        |c: (int, int)| exists|i: int| 0 <= i < rects.len() && (#[trigger] rects[i]).cells().contains(c),
    )
}

/// A rectangle without width or without height covers no cell.
pub proof fn lemma_empty_rect(rect: Rect)
    requires
        rect.w <= 0 || rect.h <= 0,
    ensures
        rect.cells() == Set::<(int, int)>::empty(),
{
    assert(rect.cells() =~= Set::<(int, int)>::empty());
}

/// The cells of the first `n + 1` rectangles are those of the first `n`
/// together with those of the next.
pub(crate) proof fn lemma_rects_cells_next(rects: Seq<Rect>, n: int)
    requires
        0 <= n < rects.len(),
    ensures
        rects_cells(rects.take(n + 1)) == rects_cells(rects.take(n)).union(rects[n].cells()),
{
    let more = rects.take(n + 1);
    let fewer = rects.take(n);
    assert forall|c: (int, int)|
        rects_cells(more).contains(c) == rects_cells(fewer).union(rects[n].cells()).contains(
            c,
        ) by {
        if rects_cells(more).contains(c) {
            let i = choose|i: int| 0 <= i < more.len() && (#[trigger] more[i]).cells().contains(c);
            if i < n {
                assert(fewer[i].cells().contains(c));
            }
        }
        if rects_cells(fewer).contains(c) {
            let i = choose|i: int|
                0 <= i < fewer.len() && (#[trigger] fewer[i]).cells().contains(c);
            assert(more[i].cells().contains(c));
        }
        if rects[n].cells().contains(c) {
            assert(more[n].cells().contains(c));
        }
    }
    assert(rects_cells(more) =~= rects_cells(fewer).union(rects[n].cells()));
}

} // verus!
