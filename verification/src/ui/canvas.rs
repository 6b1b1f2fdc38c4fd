//! The grid of cells that widgets draw on.

use crate::coord::{Rect, U16Rect, U16Size};
use vstd::prelude::*;

verus! {

/// The symbol of a cell that nothing was drawn on.
pub open spec fn spec_blank() -> char {
    ' '
}

/// A grid of `height` rows by `width` columns of blank cells.
pub open spec fn blank_grid(width: int, height: int) -> Seq<Seq<char>> {
    Seq::new(height as nat, |r: int| Seq::new(width as nat, |c: int| spec_blank()))
}

/// The cell at (`row`, `col`) of the grid takes a symbol when `patch` is drawn
/// with its top left corner on the top left corner of `area`: it lies inside
/// `area`, and the patch has a symbol for it.
pub open spec fn covers(area: Rect, patch: Seq<Seq<char>>, row: int, col: int) -> bool {
    &&& area.contains(col, row)
    &&& row - area.y0 < patch.len()
    &&& col - area.x0 < patch[row - area.y0].len()
}

/// The grid `cells` after `patch` was drawn with its top left corner on the
/// top left corner of `area`: a cell that the patch covers takes the symbol
/// of the patch, every other cell keeps its own.
pub open spec fn paint(cells: Seq<Seq<char>>, area: Rect, patch: Seq<Seq<char>>) -> Seq<Seq<char>> {
    Seq::new(
        cells.len(),
        |r: int|
            Seq::new(
                cells[r].len(),
                |c: int|
                    if covers(area, patch, r, c) {
                        patch[r - area.y0][c - area.x0]
                    } else {
                        cells[r][c]
                    },
            ),
    )
}

/// Drawing a patch without rows changes nothing.
pub proof fn lemma_paint_nothing(cells: Seq<Seq<char>>, area: Rect)
    ensures
        paint(cells, area, Seq::empty()) == cells,
{
    assert(paint(cells, area, Seq::empty()) =~~= cells);
}

/// The rows of a grid that is held as a vector of vectors.
pub open spec fn grid_view(rows: Seq<Vec<char>>) -> Seq<Seq<char>> {
    Seq::new(rows.len(), |r: int| rows[r]@)
}

/// A rectangular grid of symbols, addressed by row and column.
#[derive(Debug, Clone)]
pub struct Canvas {
    size: U16Size,
    cells: Vec<Vec<char>>,
}

impl View for Canvas {
    type V = Seq<Seq<char>>;

    /// The rows of the grid, top to bottom.
    closed spec fn view(&self) -> Seq<Seq<char>> {
        Seq::new(self.cells@.len(), |r: int| self.cells@[r]@)
    }
}

impl Canvas {
    pub closed spec fn spec_size(&self) -> U16Size {
        self.size
    }

    /// The grid has as many rows as its height and each row as many cells as
    /// its width.
    pub open spec fn wf(&self) -> bool {
        &&& self@.len() == self.spec_size().spec_height()
        &&& forall|r: int| 0 <= r < self@.len() ==> (#[trigger] self@[r]).len() == self.spec_size().spec_width()
    }

    /// A canvas of the given size, every cell blank.
    pub fn new(size: U16Size) -> (canvas: Self)
        ensures
            canvas.wf(),
            canvas.spec_size() == size,
            canvas@ == blank_grid(size.spec_width(), size.spec_height()),
    {
        let mut cells: Vec<Vec<char>> = Vec::new();
        let mut r: u16 = 0;
        while r < size.height()
            invariant
                r <= size.spec_height(),
                cells@.len() == r,
                forall|i: int| 0 <= i < r ==> (#[trigger] cells@[i])@ == Seq::new(
                    size.spec_width() as nat,
                    |c: int| spec_blank(),
                ),
            decreases size.spec_height() - r,
        {
            let mut row: Vec<char> = Vec::new();
            let mut c: u16 = 0;
            while c < size.width()
                invariant
                    c <= size.spec_width(),
                    row@ == Seq::new(c as nat, |k: int| spec_blank()),
                decreases size.spec_width() - c,
            {
                row.push(' ');
                c += 1;
            }
            cells.push(row);
            r += 1;
        }
        let canvas = Canvas { size, cells };
        assert(canvas@ =~= blank_grid(size.spec_width(), size.spec_height()));
        canvas
    }

    pub fn size(&self) -> (s: U16Size)
        ensures
            s == self.spec_size(),
    {
        self.size
    }

    /// The symbol at (`row`, `col`), if the grid has such a cell.
    pub fn cell(&self, row: u16, col: u16) -> (symbol: Option<char>)
        requires
            self.wf(),
        ensures
            symbol == if row < self.spec_size().spec_height() && col < self.spec_size().spec_width() {
                Some(self@[row as int][col as int])
            } else {
                None
            },
    {
        if row < self.size.height() && col < self.size.width() {
            assert(self@[row as int] == self.cells@[row as int]@);
            Some(self.cells[row as usize][col as usize])
        } else {
            None
        }
    }

    /// Writes `symbol` to the cell at (`row`, `col`) and returns `true`, or
    /// leaves the grid as it is and returns `false` where it has no such cell.
    pub fn set_cell(&mut self, row: u16, col: u16, symbol: char) -> (written: bool)
        requires
            old(self).wf(),
        ensures
            final(self).wf(),
            final(self).spec_size() == old(self).spec_size(),
            written == (row < old(self).spec_size().spec_height() && col < old(
                self,
            ).spec_size().spec_width()),
            written ==> final(self)@ == old(self)@.update(
                row as int,
                old(self)@[row as int].update(col as int, symbol),
            ),
            !written ==> final(self)@ == old(self)@,
    {
        if row < self.size.height() && col < self.size.width() {
            assert(self@[row as int] == self.cells@[row as int]@);
            let ghost before = self@;
            self.cells[row as usize][col as usize] = symbol;
            assert(self@ =~= before.update(row as int, before[row as int].update(col as int, symbol)));
            true
        } else {
            false
        }
    }

    /// The rows of the grid, top to bottom, each as its symbols from left to
    /// right.
    pub fn raw_symbols(&self) -> (rows: Vec<Vec<char>>)
        ensures
            rows@.len() == self@.len(),
            forall|r: int| 0 <= r < rows@.len() ==> (#[trigger] rows@[r])@ == self@[r],
    {
        let mut rows: Vec<Vec<char>> = Vec::new();
        let mut r: usize = 0;
        while r < self.cells.len()
            invariant
                r <= self.cells@.len(),
                rows@.len() == r,
                forall|i: int| 0 <= i < r ==> (#[trigger] rows@[i])@ == self.cells@[i]@,
            decreases self.cells@.len() - r,
        {
            let row = self.cells[r].clone();
            rows.push(row);
            r += 1;
        }
        rows
    }
}

impl Canvas {
    /// Draws `patch` with its top left corner on the top left corner of
    /// `area`. Only cells inside `area` are written, and only those that the
    /// canvas has and the patch has a symbol for.
    pub fn blit(&mut self, area: &U16Rect, patch: &Vec<Vec<char>>)
        requires
            old(self).wf(),
        ensures
            final(self).wf(),
            final(self).spec_size() == old(self).spec_size(),
            final(self)@ == paint(old(self)@, area@, grid_view(patch@)),
    {
        let ghost before = self@;
        let ghost image = grid_view(patch@);
        let y0: u16 = area.min_y();
        let x0: u16 = area.min_x();
        let y1: u16 = if area.max_y() < self.size.height() {
            area.max_y()
        } else {
            self.size.height()
        };
        let x1: u16 = if area.max_x() < self.size.width() {
            area.max_x()
        } else {
            self.size.width()
        };
        let mut r: u16 = y0;
        while r < y1
            invariant
                self.wf(),
                self.spec_size() == old(self).spec_size(),
                before == old(self)@,
                image == grid_view(patch@),
                y0 == area@.y0,
                x0 == area@.x0,
                y1 <= area@.y1,
                y1 <= self.spec_size().spec_height(),
                x1 <= area@.x1,
                x1 <= self.spec_size().spec_width(),
                y0 <= r,
                forall|rr: int, cc: int|
                    0 <= rr < self@.len() && 0 <= cc < self@[rr].len() ==> #[trigger] self@[rr][cc]
                        == if rr < r && cc < x1 && covers(area@, image, rr, cc) {
                        image[rr - area@.y0][cc - area@.x0]
                    } else {
                        before[rr][cc]
                    },
            decreases y1 - r,
        {
            let pr: usize = (r - y0) as usize;
            if pr < patch.len() {
                let mut c: u16 = x0;
                while c < x1
                    invariant
                        self.wf(),
                        self.spec_size() == old(self).spec_size(),
                        before == old(self)@,
                        image == grid_view(patch@),
                        y0 == area@.y0,
                        x0 == area@.x0,
                        y0 <= r < y1,
                        y1 <= area@.y1,
                        y1 <= self.spec_size().spec_height(),
                        x1 <= area@.x1,
                        x1 <= self.spec_size().spec_width(),
                        pr == r - y0,
                        pr < patch@.len(),
                        x0 <= c,
                        forall|rr: int, cc: int|
                            0 <= rr < self@.len() && 0 <= cc < self@[rr].len()
                                ==> #[trigger] self@[rr][cc] == if (rr < r || (rr == r && cc < c)) && cc
                                < x1 && covers(area@, image, rr, cc) {
                                image[rr - area@.y0][cc - area@.x0]
                            } else {
                                before[rr][cc]
                            },
                    decreases x1 - c,
                {
                    let pc: usize = (c - x0) as usize;
                    if pc < patch[pr].len() {
                        let symbol: char = patch[pr][pc];
                        assert(image[pr as int] == patch@[pr as int]@);
                        let ghost cur = self@;
                        self.set_cell(r, c, symbol);
                        assert(self@[r as int] == cur[r as int].update(c as int, symbol));
                    } else {
                        assert(image[pr as int] == patch@[pr as int]@);
                    }
                    c = c + 1;
                }
            }
            r = r + 1;
        }
        assert(self@ =~~= paint(before, area@, image)) by {
            assert forall|rr: int| 0 <= rr < self@.len() implies #[trigger] self@[rr] =~= paint(
                before,
                area@,
                image,
            )[rr] by {
                assert forall|cc: int| 0 <= cc < self@[rr].len() implies #[trigger] self@[rr][cc]
                    == paint(before, area@, image)[rr][cc] by {}
            }
        }
    }
}

} // verus!
