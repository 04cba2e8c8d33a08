//! The mathematical model shared by every dense two-dimensional buffer.

use vstd::prelude::*;

verus! {

/// A rectangle of cells stored row after row.
pub struct Grid<T> {
    pub width: nat,
    pub height: nat,
    pub cells: Seq<T>,
}

impl<T> Grid<T> {
    /// The buffer holds exactly one cell per position.
    pub open spec fn wf(self) -> bool {
        self.cells.len() == self.width * self.height
    }

    /// Whether `(row, col)` names a cell of the grid.
    pub open spec fn has(self, row: int, col: int) -> bool {
        0 <= row < self.height && 0 <= col < self.width
    }

    /// The cell in row `row`, column `col`.
    pub open spec fn at(self, row: int, col: int) -> T
        recommends
            self.has(row, col),
    {
        self.cells[row * self.width + col]
    }

    /// The grid with `v` stored at `(row, col)` and every other cell kept.
    pub open spec fn with(self, row: int, col: int, v: T) -> Grid<T>
        recommends
            self.has(row, col),
    {
        Grid {
            width: self.width,
            height: self.height,
            cells: self.cells.update(row * self.width + col, v),
        }
    }
}

/// The offset of `(row, col)` lies inside a buffer of `width * height` cells.
pub proof fn lemma_offset_in_bounds(width: int, height: int, row: int, col: int)
    requires
        0 <= row < height,
        0 <= col < width,
    ensures
        0 <= row * width + col < width * height,
        row * width + col == width * row + col,
{
    assert(row * width + width <= width * height) by (nonlinear_arith)
        requires
            0 <= row < height,
            0 <= width,
    ;
    assert(0 <= row * width) by (nonlinear_arith)
        requires
            0 <= row,
            0 <= width,
    ;
    assert(row * width == width * row) by (nonlinear_arith);
}

/// An offset splits into its row and column in one way only.
pub proof fn lemma_offset_split(width: int, row: int, col: int)
    requires
        0 <= row,
        0 <= col < width,
    ensures
        (row * width + col) / width == row,
        (row * width + col) % width == col,
{
    vstd::arithmetic::div_mod::lemma_fundamental_div_mod_converse(row * width + col, width, row, col);
}

/// Two positions with the same offset are the same position.
pub proof fn lemma_offset_injective(width: int, row1: int, col1: int, row2: int, col2: int)
    requires
        0 <= row1,
        0 <= row2,
        0 <= col1 < width,
        0 <= col2 < width,
        row1 * width + col1 == row2 * width + col2,
    ensures
        row1 == row2,
        col1 == col2,
{
    lemma_offset_split(width, row1, col1);
    lemma_offset_split(width, row2, col2);
}

/// Storing into one cell changes that cell and no other.
pub proof fn lemma_with_at<T>(g: Grid<T>, row: int, col: int, v: T)
    requires
        g.wf(),
        g.has(row, col),
    ensures
        g.with(row, col, v).wf(),
        g.with(row, col, v).at(row, col) == v,
        forall|r: int, c: int|
            #![trigger g.with(row, col, v).at(r, c)]
            g.has(r, c) && (r != row || c != col) ==> g.with(row, col, v).at(r, c) == g.at(r, c),
{
    let w = g.width as int;
    let h = g.height as int;
    lemma_offset_in_bounds(w, h, row, col);
    assert forall|r: int, c: int| g.has(r, c) && (r != row || c != col) implies g.with(
        row,
        col,
        v,
    ).at(r, c) == g.at(r, c) by {
        lemma_offset_in_bounds(w, h, r, c);
        if r * w + c == row * w + col {
            lemma_offset_injective(w, r, c, row, col);
        }
    }
}

} // verus!
