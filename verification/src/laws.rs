//! What holds of carving as a whole, proved from the definitions.

use vstd::prelude::*;
use crate::gradient::{BORDER_GRADIENT, combined_field, on_border};
use crate::grid::{Grid, lemma_offset_in_bounds, lemma_offset_split};
use crate::picture::{
    Dimensions, Raster, carved, carved_rows, cut_pixel, fits, gradient_field,
    lemma_carved_rows_len, lemma_row_in_bounds, refusal, shrunk, without_seam,
};
use crate::seam::{is_seam, lemma_traced_seam_is_seam, traced_seam};
use crate::table::{first_min, is_first_min, lemma_first_min_exists, min2, seam_cost, top_costs};

verus! {

/// Cutting a seam that fits out of an image leaves an image one column
/// narrower and as tall as before, with a buffer of the right length.
pub proof fn lemma_cut_narrows_by_one(img: Raster, seam: Seq<int>)
    requires
        img.wf(),
        img.width >= 1,
        fits(seam, img.width, img.height),
    ensures
        without_seam(img, seam).width == img.width - 1,
        without_seam(img, seam).height == img.height,
        without_seam(img, seam).wf(),
{
    lemma_carved_rows_len(img, seam, img.height);
    let w = img.width as int;
    let h = img.height as int;
    assert(h * (3 * w - 3) == (w - 1) * h * 3) by (nonlinear_arith);
}

proof fn lemma_carved_rows_index(img: Raster, seam: Seq<int>, n: nat, row: int, k: int)
    requires
        img.wf(),
        img.width >= 1,
        fits(seam, img.width, img.height),
        0 <= row < n <= img.height,
        0 <= k < img.stride() - 3,
    ensures
        0 <= row * (img.stride() - 3) + k < carved_rows(img, seam, n).len(),
        carved_rows(img, seam, n)[row * (img.stride() - 3) + k] == cut_pixel(
            img.row_bytes(row),
            seam[row],
        )[k],
    decreases n,
{
    let narrow = img.stride() - 3;
    let upper = carved_rows(img, seam, (n - 1) as nat);
    let last = cut_pixel(img.row_bytes(n - 1), seam[n - 1]);
    lemma_carved_rows_len(img, seam, (n - 1) as nat);
    lemma_carved_rows_len(img, seam, n);
    lemma_row_in_bounds(img, n - 1);
    assert(0 <= seam[n - 1] < img.width);
    assert(last.len() == narrow);
    assert(n * narrow == (n - 1) * narrow + narrow) by (nonlinear_arith);
    assert(0 <= row * narrow) by (nonlinear_arith)
        requires
            0 <= row,
            0 <= narrow,
    ;
    if row == n - 1 {
        assert(carved_rows(img, seam, n)[row * narrow + k] == last[k]);
    } else {
        assert(row * narrow + narrow <= (n - 1) * narrow) by (nonlinear_arith)
            requires
                row + 1 <= n - 1,
                0 <= narrow,
        ;
        lemma_carved_rows_index(img, seam, (n - 1) as nat, row, k);
        assert(carved_rows(img, seam, n)[row * narrow + k] == upper[row * narrow + k]);
    }
}

/// Cutting a seam moves the pixels right of it one place left and changes
/// nothing else: in every row the pixels left of the seam keep their column,
/// those right of it are found one column further left, and every channel of
/// every surviving pixel keeps its value.
pub proof fn lemma_cut_keeps_other_pixels(img: Raster, seam: Seq<int>, row: int, col: int, ch: int)
    requires
        img.wf(),
        img.width >= 1,
        fits(seam, img.width, img.height),
        0 <= row < img.height,
        0 <= col < img.width - 1,
        0 <= ch < 3,
    ensures
        without_seam(img, seam).channel(row, col, ch) == img.channel(
            row,
            if col < seam[row] {
                col
            } else {
                col + 1
            },
            ch,
        ),
{
    let k = 3 * col + ch;
    lemma_carved_rows_index(img, seam, img.height, row, k);
    lemma_row_in_bounds(img, row);
    assert(0 <= seam[row] < img.width);
    let bytes = img.row_bytes(row);
    if col < seam[row] {
        assert(cut_pixel(bytes, seam[row])[k] == bytes[k]);
    } else {
        assert(cut_pixel(bytes, seam[row])[k] == bytes[k + 3]);
    }
}

/// The seam that one round of carving selects in an image at least two
/// columns wide is a seam of that image: one column in range per row, and
/// neighbouring rows at most one column apart.
pub proof fn lemma_selected_seam_is_seam(img: Raster)
    requires
        img.width >= 2,
    ensures
        ({
            let g = gradient_field(img);
            is_seam(traced_seam(g, first_min(top_costs(g))), img.width, img.height)
        }),
{
    let g = gradient_field(img);
    lemma_first_min_exists(top_costs(g));
    lemma_traced_seam_is_seam(g, first_min(top_costs(g)));
}

/// One round of carving on an image at least two columns wide yields an
/// image exactly one column narrower and of the same height.
pub proof fn lemma_carving_narrows_by_one(img: Raster)
    requires
        img.wf(),
        img.width >= 2,
    ensures
        carved(img).width == img.width - 1,
        carved(img).height == img.height,
        carved(img).wf(),
{
    let g = gradient_field(img);
    lemma_selected_seam_is_seam(img);
    lemma_cut_narrows_by_one(img, traced_seam(g, first_min(top_costs(g))));
}

/// `n` rounds of carving on an image more than `n` columns wide yield an
/// image exactly `n` columns narrower and of the same height.
pub proof fn lemma_shrinking_narrows_by_n(img: Raster, n: nat)
    requires
        img.wf(),
        img.width >= n + 1,
    ensures
        shrunk(img, n).width == img.width - n,
        shrunk(img, n).height == img.height,
        shrunk(img, n).wf(),
    decreases n,
{
    if n > 0 {
        lemma_carving_narrows_by_one(img);
        lemma_shrinking_narrows_by_n(carved(img), (n - 1) as nat);
    }
}

/// Every cell on the border of a gradient field holds the fixed border
/// magnitude, whatever the edge magnitudes of the three planes are.
pub proof fn lemma_border_is_fixed(
    width: nat,
    height: nat,
    red: Seq<u16>,
    green: Seq<u16>,
    blue: Seq<u16>,
    row: int,
    col: int,
)
    requires
        0 <= row < height,
        0 <= col < width,
        on_border(width, height, row, col),
    ensures
        combined_field(width, height, red, green, blue).at(row, col) == BORDER_GRADIENT,
{
    lemma_offset_in_bounds(width as int, height as int, row, col);
    lemma_offset_split(width as int, row, col);
}

/// Every cell on the border of the gradient field of an image holds the
/// fixed border magnitude.
pub proof fn lemma_image_border_is_fixed(img: Raster, row: int, col: int)
    requires
        0 <= row < img.height,
        0 <= col < img.width,
        on_border(img.width, img.height, row, col),
    ensures
        gradient_field(img).at(row, col) == BORDER_GRADIENT,
{
    lemma_offset_in_bounds(img.width as int, img.height as int, row, col);
    lemma_offset_split(img.width as int, row, col);
}

/// Measuring is repeatable: two gradient fields measured on the same image
/// are the same field.
pub proof fn lemma_measuring_is_repeatable(img: Raster, first: Grid<u16>, second: Grid<u16>)
    requires
        first == gradient_field(img),
        second == gradient_field(img),
    ensures
        first == second,
{
}

/// A request for no change is served on every image and leaves it as it was.
pub proof fn lemma_no_change_is_identity(img: Raster)
    ensures
        refusal(img, Dimensions::Relative(0, 0)) is None,
        shrunk(img, 0) == img,
{
}

/// A request to widen the image is refused, whatever else it asks for.
pub proof fn lemma_growth_is_refused(img: Raster, dx: isize, dy: isize)
    requires
        dx > 0,
    ensures
        refusal(img, Dimensions::Relative(dx, dy)) == Some(crate::error::ResizeError::OnlyDownsizing),
{
}

/// The total gradient along `seam` from row `from` down to the bottom row.
pub open spec fn seam_total(g: Grid<u16>, seam: Seq<int>, from: int) -> int
    decreases g.height - from,
{
    if from >= g.height {
        0
    } else {
        g.at(from, seam[from]) + seam_total(g, seam, from + 1)
    }
}

/// Whether every step of `seam` reaches a cell from which the way down is as
/// cheap as from any cell within reach: the cost at each cell of the seam is
/// its own gradient and the cost at the next cell of the seam.
pub open spec fn follows_cheapest(g: Grid<u16>, seam: Seq<int>) -> bool {
    forall|r: int|
        #![trigger seam[r]]
        0 <= r < g.height - 1 ==> seam_cost(g, r, seam[r]) == g.at(r, seam[r]) + seam_cost(
            g,
            r + 1,
            seam[r + 1],
        )
}

/// No seam is cheaper than the cost table says: the total gradient along any
/// seam, from any of its rows down, is at least the cost at its cell in that
/// row.
pub proof fn lemma_cost_is_lower_bound(g: Grid<u16>, seam: Seq<int>, row: int)
    requires
        g.width >= 2,
        is_seam(seam, g.width, g.height),
        0 <= row < g.height,
    ensures
        seam_total(g, seam, row) >= seam_cost(g, row, seam[row]),
        row + 1 < g.height ==> seam_cost(g, row, seam[row]) <= g.at(row, seam[row]) + seam_cost(
            g,
            row + 1,
            seam[row + 1],
        ),
    decreases g.height - row,
{
    if row + 1 < g.height {
        lemma_cost_is_lower_bound(g, seam, row + 1);
        assert(0 <= seam[row] < g.width);
        assert(0 <= seam[row + 1] < g.width);
        assert(seam[row + 1 - 1] - 1 <= seam[row + 1] <= seam[row + 1 - 1] + 1);
    } else {
        assert(seam_total(g, seam, row + 1) == 0);
    }
}

/// The column in row `row + 1`, within reach of column `col`, from which the
/// way down is cheapest.
pub open spec fn cheapest_step(g: Grid<u16>, row: int, col: int) -> int {
    let m = seam_cost(g, row + 1, col);
    if col == 0 {
        if seam_cost(g, row + 1, 1) < m {
            1
        } else {
            0
        }
    } else if col == g.width - 1 {
        if seam_cost(g, row + 1, col - 1) < m {
            col - 1
        } else {
            col
        }
    } else {
        let l = seam_cost(g, row + 1, col - 1);
        let r = seam_cost(g, row + 1, col + 1);
        if l < m && l < r {
            col - 1
        } else if r < m {
            col + 1
        } else {
            col
        }
    }
}

/// The column in row `row` of the seam that starts at column `start` of the
/// top row and always steps to the cheapest cell within reach.
pub open spec fn cheapest_column(g: Grid<u16>, start: int, row: int) -> int
    decreases row,
{
    if row <= 0 {
        start
    } else {
        cheapest_step(g, row - 1, cheapest_column(g, start, row - 1))
    }
}

/// The seam from column `start` of the top row that always steps to the
/// cheapest cell within reach.
pub open spec fn cheapest_seam(g: Grid<u16>, start: int) -> Seq<int> {
    Seq::new(g.height, |r: int| cheapest_column(g, start, r))
}

proof fn lemma_cheapest_column_in_range(g: Grid<u16>, start: int, row: int)
    requires
        g.width >= 2,
        0 <= start < g.width,
    ensures
        0 <= cheapest_column(g, start, row) < g.width,
        row > 0 ==> cheapest_column(g, start, row - 1) - 1 <= cheapest_column(g, start, row)
            <= cheapest_column(g, start, row - 1) + 1,
    decreases row,
{
    if row > 0 {
        lemma_cheapest_column_in_range(g, start, row - 1);
    }
}

/// The total gradient along a seam equals the cost at its first cell exactly
/// when every step of the seam reaches a cheapest cell.
pub proof fn lemma_total_is_cost_iff_cheapest(g: Grid<u16>, seam: Seq<int>)
    requires
        g.width >= 2,
        g.height >= 1,
        is_seam(seam, g.width, g.height),
    ensures
        seam_total(g, seam, 0) == seam_cost(g, 0, seam[0]) <==> follows_cheapest(g, seam),
{
    if follows_cheapest(g, seam) {
        lemma_cheapest_steps_give_cost(g, seam, 0);
    }
    if seam_total(g, seam, 0) == seam_cost(g, 0, seam[0]) {
        assert forall|r: int| #![trigger seam[r]] 0 <= r < g.height - 1 implies seam_cost(
            g,
            r,
            seam[r],
        ) == g.at(r, seam[r]) + seam_cost(g, r + 1, seam[r + 1]) by {
            lemma_cost_forces_cheapest_steps(g, seam, r);
        }
    }
}

proof fn lemma_cheapest_steps_give_cost(g: Grid<u16>, seam: Seq<int>, row: int)
    requires
        g.width >= 2,
        is_seam(seam, g.width, g.height),
        follows_cheapest(g, seam),
        0 <= row < g.height,
    ensures
        seam_total(g, seam, row) == seam_cost(g, row, seam[row]),
    decreases g.height - row,
{
    if row + 1 < g.height {
        lemma_cheapest_steps_give_cost(g, seam, row + 1);
        assert(seam_cost(g, row, seam[row]) == g.at(row, seam[row]) + seam_cost(
            g,
            row + 1,
            seam[row + 1],
        ));
    } else {
        assert(seam_total(g, seam, row + 1) == 0);
    }
}

proof fn lemma_cost_forces_cheapest_steps(g: Grid<u16>, seam: Seq<int>, row: int)
    requires
        g.width >= 2,
        is_seam(seam, g.width, g.height),
        seam_total(g, seam, 0) == seam_cost(g, 0, seam[0]),
        0 <= row < g.height,
    ensures
        seam_total(g, seam, row) == seam_cost(g, row, seam[row]),
        row + 1 < g.height ==> seam_cost(g, row, seam[row]) == g.at(row, seam[row]) + seam_cost(
            g,
            row + 1,
            seam[row + 1],
        ),
    decreases row,
{
    if row > 0 {
        lemma_cost_forces_cheapest_steps(g, seam, row - 1);
    }
    lemma_cost_is_lower_bound(g, seam, row);
    if row + 1 < g.height {
        lemma_cost_is_lower_bound(g, seam, row + 1);
    }
}

/// The cost table tells the truth: from every cell of the top row there is a
/// seam whose total gradient is the cost at that cell, and no seam from
/// there is cheaper.
pub proof fn lemma_cost_is_attained(g: Grid<u16>, start: int)
    requires
        g.width >= 2,
        g.height >= 1,
        0 <= start < g.width,
    ensures
        is_seam(cheapest_seam(g, start), g.width, g.height),
        cheapest_seam(g, start)[0] == start,
        seam_total(g, cheapest_seam(g, start), 0) == seam_cost(g, 0, start),
        forall|other: Seq<int>|
            is_seam(other, g.width, g.height) && other[0] == start ==> #[trigger] seam_total(
                g,
                other,
                0,
            ) >= seam_cost(g, 0, start),
{
    let seam = cheapest_seam(g, start);
    assert forall|r: int| 0 <= r < seam.len() implies 0 <= #[trigger] seam[r] < g.width by {
        lemma_cheapest_column_in_range(g, start, r);
    }
    assert forall|r: int| 0 < r < seam.len() implies seam[r - 1] - 1 <= #[trigger] seam[r]
        <= seam[r - 1] + 1 by {
        lemma_cheapest_column_in_range(g, start, r);
        assert(seam[r - 1] == cheapest_column(g, start, r - 1));
    }
    assert forall|r: int| #![trigger seam[r]] 0 <= r < g.height - 1 implies seam_cost(
        g,
        r,
        seam[r],
    ) == g.at(r, seam[r]) + seam_cost(g, r + 1, seam[r + 1]) by {
        lemma_cheapest_column_in_range(g, start, r);
        assert(seam[r + 1] == cheapest_step(g, r, seam[r]));
    }
    lemma_total_is_cost_iff_cheapest(g, seam);
    assert forall|other: Seq<int>|
        is_seam(other, g.width, g.height) && other[0] == start implies #[trigger] seam_total(
        g,
        other,
        0,
    ) >= seam_cost(g, 0, start) by {
        lemma_cost_is_lower_bound(g, other, 0);
    }
}

/// Path-cost consistency. The seam that one round selects in a gradient
/// field starts where the top row of the cost table is least, and its total
/// gradient is never below that least cost. The two are equal exactly when
/// every step of the seam, which is chosen by gradient, also reaches a
/// cheapest cell of the cost table.
pub proof fn lemma_path_cost_consistency(g: Grid<u16>)
    requires
        g.width >= 2,
        g.height >= 1,
    ensures
        ({
            let start = first_min(top_costs(g));
            let seam = traced_seam(g, start);
            &&& is_first_min(top_costs(g), start)
            &&& top_costs(g)[start] == seam_cost(g, 0, start)
            &&& seam_total(g, seam, 0) >= top_costs(g)[start]
            &&& follows_cheapest(g, seam) <==> seam_total(g, seam, 0) == top_costs(g)[start]
        }),
{
    let start = first_min(top_costs(g));
    let seam = traced_seam(g, start);
    lemma_first_min_exists(top_costs(g));
    lemma_traced_seam_is_seam(g, start);
    assert(seam[0] == start);
    lemma_cost_is_lower_bound(g, seam, 0);
    lemma_total_is_cost_iff_cheapest(g, seam);
}

} // verus!
