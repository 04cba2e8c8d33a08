//! The cost table: for every cell, the cheapest total of a seam from that
//! cell down to the bottom row.

use vstd::prelude::*;
use crate::error::ResizeError;
use crate::gradient::GradientBuffer;
use crate::grid::{Grid, lemma_offset_in_bounds, lemma_with_at};

verus! {

/// The smaller of two numbers.
pub open spec fn min2(a: int, b: int) -> int {
    if a <= b {
        a
    } else {
        b
    }
}

/// The cheapest total gradient of a seam that starts at `(row, col)` and runs
/// down to the bottom row, moving at most one column sideways per row and
/// never leaving the grid. The bottom row costs its own gradient; every
/// other cell adds its gradient to the cheapest of the cells it can reach in
/// the row below: three in the middle, two at either edge.
pub open spec fn seam_cost(g: Grid<u16>, row: int, col: int) -> int
    decreases g.height - row,
{
    if row + 1 >= g.height {
        g.at(row, col) as int
    } else if col == 0 {
        g.at(row, col) + min2(seam_cost(g, row + 1, 0), seam_cost(g, row + 1, 1))
    } else if col == g.width - 1 {
        g.at(row, col) + min2(seam_cost(g, row + 1, col), seam_cost(g, row + 1, col - 1))
    } else {
        g.at(row, col) + min2(
            min2(seam_cost(g, row + 1, col - 1), seam_cost(g, row + 1, col)),
            seam_cost(g, row + 1, col + 1),
        )
    }
}

/// Whether `t` is the cost table of the gradient field `g`.
pub open spec fn is_cost_table(t: Grid<u64>, g: Grid<u16>) -> bool {
    &&& t.width == g.width
    &&& t.height == g.height
    &&& t.wf()
    &&& forall|row: int, col: int| #![trigger t.at(row, col)]
        t.has(row, col) ==> t.at(row, col) == seam_cost(g, row, col)
}

/// The costs of the top row of a table, left to right.
pub open spec fn top_row(t: Grid<u64>) -> Seq<int> {
    Seq::new(t.width, |c: int| t.at(0, c) as int)
}

/// The cost, for each column of the top row of `g`, of the cheapest seam that
/// starts there.
pub open spec fn top_costs(g: Grid<u16>) -> Seq<int> {
    Seq::new(g.width, |c: int| seam_cost(g, 0, c))
}

/// Whether `i` is the first position of the smallest entry of `s`.
pub open spec fn is_first_min(s: Seq<int>, i: int) -> bool {
    &&& 0 <= i < s.len()
    &&& forall|j: int| 0 <= j < s.len() ==> s[i] <= #[trigger] s[j]
    &&& forall|j: int| 0 <= j < i ==> s[i] < #[trigger] s[j]
}

/// The first position of the smallest entry of `s`.
pub open spec fn first_min(s: Seq<int>) -> int {
    choose|i: int| is_first_min(s, i)
}

/// A sequence has one first minimum at most, so whatever position is one is
/// `first_min`.
pub proof fn lemma_first_min_unique(s: Seq<int>, i: int)
    requires
        is_first_min(s, i),
    ensures
        first_min(s) == i,
{
    let j = first_min(s);
    assert(is_first_min(s, j));
    if j < i {
        assert(s[i] < s[j]);
        assert(s[j] <= s[i]);
    } else if i < j {
        assert(s[j] < s[i]);
        assert(s[i] <= s[j]);
    }
}

/// Every sequence that is not empty has a first minimum.
pub proof fn lemma_first_min_exists(s: Seq<int>)
    requires
        s.len() >= 1,
    ensures
        is_first_min(s, first_min(s)),
    decreases s.len(),
{
    if s.len() == 1 {
        assert(is_first_min(s, 0));
    } else {
        let t = s.drop_last();
        lemma_first_min_exists(t);
        let j = first_min(t);
        let last = s.len() - 1;
        assert forall|k: int| 0 <= k < last implies s[k] == t[k] by {}
        if s[last] < t[j] {
            assert forall|k: int| 0 <= k < last implies s[last] < #[trigger] s[k] by {
                assert(t[j] <= t[k]);
            }
            assert(is_first_min(s, last));
        } else {
            assert forall|k: int| 0 <= k < s.len() implies s[j] <= #[trigger] s[k] by {
                if k < last {
                    assert(t[j] <= t[k]);
                }
            }
            assert forall|k: int| 0 <= k < j implies s[j] < #[trigger] s[k] by {
                assert(t[j] < t[k]);
            }
            assert(is_first_min(s, j));
        }
    }
}

/// The top row of a cost table holds the costs of the cheapest seams from
/// the top.
pub proof fn lemma_cost_table_top(t: Grid<u64>, g: Grid<u16>)
    requires
        is_cost_table(t, g),
        g.height >= 1,
    ensures
        top_row(t) == top_costs(g),
{
    assert forall|c: int| 0 <= c < t.width implies top_row(t)[c] == top_costs(g)[c] by {
        assert(t.has(0, c));
        assert(t.at(0, c) == seam_cost(g, 0, c));
    }
    assert(top_row(t) =~= top_costs(g));
}

/// A cost as a 16-bit magnitude: itself where it fits, the largest magnitude
/// where it does not.
pub open spec fn clipped(v: u64) -> u16 {
    if v > u16::MAX {
        u16::MAX
    } else {
        v as u16
    }
}

/// A seam of `n` rows costs at most `n` times the largest gradient.
pub proof fn lemma_seam_cost_bounds(g: Grid<u16>, row: int, col: int)
    requires
        0 <= row < g.height,
    ensures
        0 <= seam_cost(g, row, col) <= 65535 * (g.height - row),
    decreases g.height - row,
{
    if row + 1 < g.height {
        lemma_seam_cost_bounds(g, row + 1, col - 1);
        lemma_seam_cost_bounds(g, row + 1, col);
        lemma_seam_cost_bounds(g, row + 1, col + 1);
        lemma_seam_cost_bounds(g, row + 1, 0);
        lemma_seam_cost_bounds(g, row + 1, 1);
    }
}

/// A dense table of cumulative seam costs. It always has at least two
/// columns and one row.
#[derive(Debug)]
pub struct DPTable {
    width: usize,
    height: usize,
    table: Vec<u64>,
}

impl View for DPTable {
    type V = Grid<u64>;

    closed spec fn view(&self) -> Grid<u64> {
        Grid { width: self.width as nat, height: self.height as nat, cells: self.table@ }
    }
}

fn min_u64(a: u64, b: u64) -> (m: u64)
    ensures
        m == min2(a as int, b as int),
{
    if a <= b {
        a
    } else {
        b
    }
}

impl DPTable {
    #[verifier::type_invariant]
    spec fn inv(&self) -> bool {
        &&& 2 <= self.width <= u32::MAX
        &&& 1 <= self.height <= u32::MAX
        &&& self.table.len() == self.width * self.height
    }

    /// The number of columns, never fewer than two.
    pub fn width(&self) -> (w: usize)
        ensures
            w == self@.width,
            2 <= w <= u32::MAX,
            self@.wf(),
    {
        proof {
            use_type_invariant(self);
            assert(self.table.len() == self.table@.len());
        }
        self.width
    }

    /// The number of rows, never fewer than one.
    pub fn height(&self) -> (h: usize)
        ensures
            h == self@.height,
            1 <= h <= u32::MAX,
            self@.wf(),
    {
        proof {
            use_type_invariant(self);
            assert(self.table.len() == self.table@.len());
        }
        self.height
    }

    /// The cost at column `w` of row `h`.
    pub fn get(&self, w: usize, h: usize) -> (v: u64)
        requires
            self@.has(h as int, w as int),
        ensures
            v == self@.at(h as int, w as int),
    {
        proof {
            use_type_invariant(self);
            lemma_offset_in_bounds(self.width as int, self.height as int, h as int, w as int);
            assert(self.table.len() == self.table@.len());
        }
        let i: usize = self.width * h + w;
        self.table[i]
    }

    /// Stores `v` at column `w` of row `h` and leaves every other cell alone.
    pub fn set(&mut self, w: usize, h: usize, v: u64)
        requires
            old(self)@.has(h as int, w as int),
        ensures
            final(self)@ == old(self)@.with(h as int, w as int, v),
    {
        proof {
            use_type_invariant(&*self);
            lemma_offset_in_bounds(self.width as int, self.height as int, h as int, w as int);
            assert(self.table.len() == self.table@.len());
        }
        let i: usize = self.width * h + w;
        self.table[i] = v;
    }

    /// The table as a field of 16-bit magnitudes, for display: every cost
    /// that fits is kept, every larger one becomes the largest magnitude.
    pub fn to_gradient_buffer(self) -> (out: GradientBuffer)
        ensures
            out@.width == self@.width,
            out@.height == self@.height,
            out@.cells.len() == self@.cells.len(),
            forall|i: int| 0 <= i < out@.cells.len() ==> #[trigger] out@.cells[i] == clipped(self@.cells[i]),
    {
        let w: usize = self.width();
        let h: usize = self.height();
        let n: usize = self.table.len();
        let mut data: Vec<u16> = Vec::with_capacity(n);
        let mut i: usize = 0;
        while i < n
            invariant
                0 <= i <= n,
                n == self.table@.len(),
                data@.len() == i,
                forall|j: int| 0 <= j < i ==> #[trigger] data@[j] == clipped(self.table@[j]),
            decreases n - i,
        {
            let v: u64 = self.table[i];
            let m: u16 = if v > 65535 {
                65535u16
            } else {
                v as u16
            };
            data.push(m);
            i += 1;
        }
        GradientBuffer::from_parts(w as u32, h as u32, data)
    }

    /// The column at which the cheapest seam starts: the first position of
    /// the smallest cost in the top row.
    pub fn path_start_index(&self) -> (start: usize)
        ensures
            is_first_min(top_row(self@), start as int),
            start < self@.width,
    {
        let w: usize = self.width();
        let h: usize = self.height();
        let ghost top = top_row(self@);
        let mut best: usize = 0;
        let mut best_cost: u64 = self.get(0, 0);
        let mut i: usize = 1;
        while i < w
            invariant
                1 <= i <= w,
                w == self@.width,
                h == self@.height,
                1 <= h,
                top == top_row(self@),
                0 <= best < i,
                best_cost == top[best as int],
                forall|j: int| 0 <= j < i ==> top[best as int] <= #[trigger] top[j],
                forall|j: int| 0 <= j < best ==> top[best as int] < #[trigger] top[j],
            decreases w - i,
        {
            let cost: u64 = self.get(i, 0);
            if cost < best_cost {
                best = i;
                best_cost = cost;
            }
            i += 1;
        }
        best
    }

    /// Builds the cost table of a gradient field from the bottom row up.
    ///
    /// A field with fewer than two columns, or with no row, has no seam to
    /// cost and is refused.
    pub fn from_gradient_buffer(gradient: &GradientBuffer) -> (out: Result<DPTable, ResizeError>)
        ensures
            out is Ok <==> gradient@.width >= 2 && gradient@.height >= 1,
            out matches Ok(t) ==> is_cost_table(t@, gradient@),
            out matches Err(e) ==> e == ResizeError::TooNarrow,
    {
        let w: usize = gradient.width() as usize;
        let h: usize = gradient.height() as usize;
        if w < 2 || h < 1 {
            return Err(ResizeError::TooNarrow);
        }
        let ghost g = gradient@;
        let cells: Vec<u64> = vec![0u64; w * h];
        let mut table = DPTable { width: w, height: h, table: cells };

        let mut i: usize = 0;
        while i < w
            invariant
                0 <= i <= w,
                2 <= w <= u32::MAX,
                1 <= h <= u32::MAX,
                g == gradient@,
                g.width == w,
                g.height == h,
                g.wf(),
                table@.width == w,
                table@.height == h,
                table@.wf(),
                forall|c: int| 0 <= c < i ==> #[trigger] table@.at(h - 1, c) == seam_cost(g, h - 1, c),
            decreases w - i,
        {
            let px: u64 = gradient.get(i, h - 1) as u64;
            proof {
                lemma_with_at(table@, h - 1, i as int, px);
            }
            table.set(i, h - 1, px);
            i += 1;
        }

        let mut row: usize = h - 1;
        while row > 0
            invariant
                0 <= row < h,
                2 <= w <= u32::MAX,
                1 <= h <= u32::MAX,
                g == gradient@,
                g.width == w,
                g.height == h,
                g.wf(),
                table@.width == w,
                table@.height == h,
                table@.wf(),
                forall|r: int, c: int|
                    row <= r < h && 0 <= c < w ==> #[trigger] table@.at(r, c) == seam_cost(g, r, c),
            decreases row,
        {
            row -= 1;
            let mut col: usize = 1;
            while col + 1 < w
                invariant
                    1 <= col < w,
                    0 <= row < h - 1,
                    2 <= w <= u32::MAX,
                    1 <= h <= u32::MAX,
                    g == gradient@,
                    g.width == w,
                    g.height == h,
                    g.wf(),
                    table@.width == w,
                    table@.height == h,
                    table@.wf(),
                    forall|r: int, c: int|
                        row < r < h && 0 <= c < w ==> #[trigger] table@.at(r, c) == seam_cost(g, r, c),
                    forall|c: int| 1 <= c < col ==> #[trigger] table@.at(row as int, c) == seam_cost(g, row as int, c),
                decreases w - col,
            {
                let l: u64 = table.get(col - 1, row + 1);
                let m: u64 = table.get(col, row + 1);
                let r: u64 = table.get(col + 1, row + 1);
                proof {
                    lemma_seam_cost_bounds(g, row + 1, col - 1);
                    lemma_seam_cost_bounds(g, row + 1, col as int);
                    lemma_seam_cost_bounds(g, row + 1, col + 1);
                }
                let v: u64 = gradient.get(col, row) as u64 + min_u64(min_u64(l, m), r);
                proof {
                    lemma_with_at(table@, row as int, col as int, v);
                }
                table.set(col, row, v);
                col += 1;
            }
            let l0: u64 = table.get(0, row + 1);
            let l1: u64 = table.get(1, row + 1);
            proof {
                lemma_seam_cost_bounds(g, row + 1, 0);
                lemma_seam_cost_bounds(g, row + 1, 1);
            }
            let left: u64 = gradient.get(0, row) as u64 + min_u64(l0, l1);
            proof {
                lemma_with_at(table@, row as int, 0, left);
            }
            table.set(0, row, left);
            let r0: u64 = table.get(w - 1, row + 1);
            let r1: u64 = table.get(w - 2, row + 1);
            proof {
                lemma_seam_cost_bounds(g, row + 1, w - 1);
                lemma_seam_cost_bounds(g, row + 1, w - 2);
            }
            let right: u64 = gradient.get(w - 1, row) as u64 + min_u64(r0, r1);
            proof {
                lemma_with_at(table@, row as int, w - 1, right);
            }
            table.set(w - 1, row, right);
        }
        Ok(table)
    }
}

} // verus!
