//! Seams: one column per row, neighbouring rows at most one column apart.

use vstd::prelude::*;
use crate::error::ResizeError;
use crate::gradient::GradientBuffer;
use crate::grid::Grid;
use crate::table::{DPTable, is_first_min, top_row};

verus! {

/// Whether `seam` names one column of each of `height` rows of a grid
/// `width` wide, with neighbouring rows at most one column apart.
pub open spec fn is_seam(seam: Seq<int>, width: nat, height: nat) -> bool {
    &&& seam.len() == height
    &&& forall|r: int| 0 <= r < seam.len() ==> 0 <= #[trigger] seam[r] < width
    &&& forall|r: int|
        0 < r < seam.len() ==> seam[r - 1] - 1 <= #[trigger] seam[r] <= seam[r - 1] + 1
}

/// The column a seam moves to when it enters `row` from column `col` of the
/// row above. It compares the gradients of the cells it can reach: it goes
/// left only where the left cell is strictly cheaper than both others, right
/// where the right cell is strictly cheaper than the one straight below, and
/// otherwise stays. So on equal gradients staying wins over right, and right
/// over left. At either edge only the two cells that exist are compared.
pub open spec fn next_column(g: Grid<u16>, row: int, col: int) -> int {
    let m = g.at(row, col);
    if col == 0 {
        if g.at(row, 1) < m {
            1
        } else {
            0
        }
    } else if col == g.width - 1 {
        if g.at(row, col - 1) < m {
            col - 1
        } else {
            col
        }
    } else {
        let l = g.at(row, col - 1);
        let r = g.at(row, col + 1);
        if l < m && l < r {
            col - 1
        } else if r < m {
            col + 1
        } else {
            col
        }
    }
}

/// The column in row `row` of the seam that starts at column `start` of the
/// top row.
pub open spec fn seam_column(g: Grid<u16>, start: int, row: int) -> int
    decreases row,
{
    if row <= 0 {
        start
    } else {
        next_column(g, row, seam_column(g, start, row - 1))
    }
}

/// The whole seam traced through `g` from column `start` of the top row.
pub open spec fn traced_seam(g: Grid<u16>, start: int) -> Seq<int> {
    Seq::new(g.height, |r: int| seam_column(g, start, r))
}

/// One step of a seam stays inside the grid and moves at most one column.
pub proof fn lemma_next_column_near(g: Grid<u16>, row: int, col: int)
    requires
        g.width >= 2,
        0 <= col < g.width,
    ensures
        0 <= next_column(g, row, col) < g.width,
        col - 1 <= next_column(g, row, col) <= col + 1,
{
}

/// A traced seam stays inside the grid.
pub proof fn lemma_seam_column_in_range(g: Grid<u16>, start: int, row: int)
    requires
        g.width >= 2,
        0 <= start < g.width,
    ensures
        0 <= seam_column(g, start, row) < g.width,
    decreases row,
{
    if row > 0 {
        lemma_seam_column_in_range(g, start, row - 1);
        lemma_next_column_near(g, row, seam_column(g, start, row - 1));
    }
}

/// A traced seam is a seam: one column in range per row, and neighbouring
/// rows at most one column apart.
pub proof fn lemma_traced_seam_is_seam(g: Grid<u16>, start: int)
    requires
        g.width >= 2,
        0 <= start < g.width,
    ensures
        is_seam(traced_seam(g, start), g.width, g.height),
{
    let seam = traced_seam(g, start);
    assert forall|r: int| 0 <= r < seam.len() implies 0 <= #[trigger] seam[r] < g.width by {
        lemma_seam_column_in_range(g, start, r);
    }
    assert forall|r: int| 0 < r < seam.len() implies seam[r - 1] - 1 <= #[trigger] seam[r]
        <= seam[r - 1] + 1 by {
        lemma_seam_column_in_range(g, start, r - 1);
        lemma_next_column_near(g, r, seam_column(g, start, r - 1));
        assert(seam[r - 1] == seam_column(g, start, r - 1));
    }
}

/// A seam through an image, with the cost the table gives its first cell.
#[derive(Debug)]
pub struct Path {
    /// The column to cut in each row, top row first.
    pub indices: Vec<usize>,
    /// The cumulative cost at the cell where the seam starts.
    pub score: u64,
}

impl View for Path {
    type V = Seq<int>;

    /// The seam's columns as mathematical integers, top row first.
    open spec fn view(&self) -> Seq<int> {
        Seq::new(self.indices@.len(), |r: int| self.indices@[r] as int)
    }
}

impl Path {
    /// Traces the seam that the cost table `table` and the gradient field
    /// `gradient` select.
    ///
    /// The seam starts in the top row at the first column of least
    /// cumulative cost. From there it walks down one row at a time by the
    /// gradients of the cells within reach, as `next_column` says.
    ///
    /// A field with fewer than two columns or without rows is refused as too
    /// narrow, and one whose size is not the table's as a mismatch.
    pub fn from_dp_table(table: &DPTable, gradient: &GradientBuffer) -> (out: Result<
        Path,
        ResizeError,
    >)
        ensures
            out is Ok <==> gradient@.width == table@.width && gradient@.height == table@.height,
            out matches Err(e) ==> e == (if gradient@.width < 2 || gradient@.height < 1 {
                ResizeError::TooNarrow
            } else {
                ResizeError::SizeMismatch
            }),
            out matches Ok(p) ==> {
                &&& is_seam(p@, table@.width, table@.height)
                &&& is_first_min(top_row(table@), p@[0])
                &&& p@ == traced_seam(gradient@, p@[0])
                &&& p.score == table@.at(0, p@[0])
            },
    {
        let w: usize = table.width();
        let h: usize = table.height();
        let gw: usize = gradient.width() as usize;
        let gh: usize = gradient.height() as usize;
        if gw < 2 || gh < 1 {
            return Err(ResizeError::TooNarrow);
        }
        if gw != w || gh != h {
            return Err(ResizeError::SizeMismatch);
        }
        let ghost g = gradient@;
        let mut v: Vec<usize> = Vec::with_capacity(h);
        let mut col: usize = table.path_start_index();
        let ghost start = col as int;
        let score: u64 = table.get(col, 0);
        v.push(col);
        let mut row: usize = 1;
        while row < h
            invariant
                1 <= row <= h,
                2 <= w,
                g == gradient@,
                g.width == w,
                g.height == h,
                0 <= start < w,
                0 <= col < w,
                v@.len() == row,
                col == v@[row - 1],
                forall|r: int| 0 <= r < row ==> #[trigger] v@[r] == seam_column(g, start, r),
                forall|r: int| 0 <= r < row ==> #[trigger] v@[r] < w,
                forall|r: int| 0 < r < row ==> v@[r - 1] - 1 <= #[trigger] v@[r] <= v@[r - 1] + 1,
            decreases h - row,
        {
            let ghost above = col as int;
            if col == 0 {
                let m: u16 = gradient.get(col, row);
                let r: u16 = gradient.get(col + 1, row);
                if r < m {
                    col += 1;
                }
            } else if col == w - 1 {
                let l: u16 = gradient.get(col - 1, row);
                let m: u16 = gradient.get(col, row);
                if l < m {
                    col -= 1;
                }
            } else {
                let l: u16 = gradient.get(col - 1, row);
                let m: u16 = gradient.get(col, row);
                let r: u16 = gradient.get(col + 1, row);
                if l < m && l < r {
                    col -= 1;
                } else if r < m {
                    col += 1;
                }
            }
            assert(col == next_column(g, row as int, above));
            assert(seam_column(g, start, row as int) == next_column(
                g,
                row as int,
                seam_column(g, start, row - 1),
            ));
            v.push(col);
            row += 1;
        }
        let path = Path { indices: v, score };
        assert(path@ =~= traced_seam(g, start));
        Ok(path)
    }
}

} // verus!
