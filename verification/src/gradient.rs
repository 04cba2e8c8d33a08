//! The gradient field: one importance value per pixel.

use vstd::prelude::*;
use crate::error::ResizeError;
use crate::grid::{Grid, lemma_offset_in_bounds, lemma_offset_split};

verus! {

/// The magnitude forced onto the outer border of every gradient field, so
/// that seams are not drawn along the edge of the image.
pub const BORDER_GRADIENT: u16 = 100;

/// Whether `(row, col)` lies in the first or last row or column.
pub open spec fn on_border(width: nat, height: nat, row: int, col: int) -> bool {
    row == 0 || row == height - 1 || col == 0 || col == width - 1
}

/// The sum of three magnitudes, held at the largest 16-bit value where the
/// true sum is larger.
pub open spec fn saturating_sum(r: u16, g: u16, b: u16) -> u16 {
    if r + g + b > u16::MAX {
        u16::MAX
    } else {
        (r + g + b) as u16
    }
}

/// The gradient field made of the edge magnitudes of the three colour
/// planes: on the border the fixed magnitude, elsewhere the saturating sum of
/// the three.
pub open spec fn combined_field(
    width: nat,
    height: nat,
    red: Seq<u16>,
    green: Seq<u16>,
    blue: Seq<u16>,
) -> Grid<u16> {
    Grid {
        width,
        height,
        cells: Seq::new(
            width * height,
            |i: int|
                if on_border(width, height, i / (width as int), i % (width as int)) {
                    BORDER_GRADIENT
                } else {
                    saturating_sum(red[i], green[i], blue[i])
                },
        ),
    }
}

/// The gray level that shows a magnitude on screen: one level per 128 units
/// of magnitude, held at the brightest level from there on.
pub open spec fn gray_level(v: u16) -> u8 {
    if v / 128 > 255 {
        255u8
    } else {
        (v / 128) as u8
    }
}

/// The edge magnitudes that the Sobel operator gives for a plane of
/// `width * height` intensities stored row after row: one magnitude per
/// intensity, in the same order.
pub uninterp spec fn sobel_magnitudes(width: nat, height: nat, plane: Seq<u8>) -> Seq<u16>;

/// Runs `imageproc::gradients::sobel_gradients` on one plane of intensities.
///
/// Trusted, not proved: the magnitudes depend on the plane and its size
/// alone, and there is one of them for every intensity, since the operator
/// pads at the edges and keeps the dimensions of its input.
#[verifier::external_body]
pub(crate) fn sobel_plane(width: u32, height: u32, plane: Vec<u8>) -> (out: Vec<u16>)
    requires
        plane@.len() == width * height,
    ensures
        out@ == sobel_magnitudes(width as nat, height as nat, plane@),
        out@.len() == width * height,
{
    let gray = ::image::GrayImage::from_raw(width, height, plane).unwrap();
    imageproc::gradients::sobel_gradients(&gray).into_raw()
}

/// A dense field of 16-bit gradient magnitudes, one per pixel.
#[derive(Debug)]
pub struct GradientBuffer {
    width: u32,
    height: u32,
    data: Vec<u16>,
}

impl View for GradientBuffer {
    type V = Grid<u16>;

    closed spec fn view(&self) -> Grid<u16> {
        Grid { width: self.width as nat, height: self.height as nat, cells: self.data@ }
    }
}

impl GradientBuffer {
    #[verifier::type_invariant]
    spec fn inv(&self) -> bool {
        self.data.len() == self.width * self.height
    }

    /// Wraps a buffer of `width * height` magnitudes; any other length is
    /// refused.
    pub fn from_raw(width: u32, height: u32, data: Vec<u16>) -> (out: Option<GradientBuffer>)
        ensures
            out is Some <==> data@.len() == width * height,
            out matches Some(g) ==> g@ == (Grid { width: width as nat, height: height as nat, cells: data@ }),
    {
        let len: usize = data.len();
        match (width as usize).checked_mul(height as usize) {
            Some(n) => if n == len {
                Some(GradientBuffer { width, height, data })
            } else {
                None
            },
            None => None,
        }
    }

    /// Combines the edge magnitudes of the red, green and blue planes of an
    /// image `width` by `height` into its gradient field.
    ///
    /// Every cell is the saturating sum of the three magnitudes at its
    /// position, but for the cells of the first and last row and column,
    /// which hold `BORDER_GRADIENT` whatever the magnitudes are. A plane that
    /// does not hold `width * height` magnitudes is refused.
    pub fn from_channels(
        width: u32,
        height: u32,
        red: &Vec<u16>,
        green: &Vec<u16>,
        blue: &Vec<u16>,
    ) -> (out: Result<GradientBuffer, ResizeError>)
        ensures
            out is Ok <==> red@.len() == width * height && green@.len() == width * height
                && blue@.len() == width * height,
            out matches Ok(f) ==> f@ == combined_field(
                width as nat,
                height as nat,
                red@,
                green@,
                blue@,
            ),
            out matches Err(e) ==> e == ResizeError::SizeMismatch,
    {
        let w: usize = width as usize;
        let h: usize = height as usize;
        let n: usize = red.len();
        if green.len() != n || blue.len() != n {
            return Err(ResizeError::SizeMismatch);
        }
        match w.checked_mul(h) {
            Some(m) => if m != n {
                return Err(ResizeError::SizeMismatch);
            },
            None => {
                return Err(ResizeError::SizeMismatch);
            },
        }
        Ok(GradientBuffer::combine(width, height, red, green, blue))
    }

    /// The work of `from_channels`, for planes already known to fit.
    pub(crate) fn combine(
        width: u32,
        height: u32,
        red: &Vec<u16>,
        green: &Vec<u16>,
        blue: &Vec<u16>,
    ) -> (out: GradientBuffer)
        requires
            red@.len() == width * height,
            green@.len() == width * height,
            blue@.len() == width * height,
        ensures
            out@ == combined_field(width as nat, height as nat, red@, green@, blue@),
    {
        let w: usize = width as usize;
        let h: usize = height as usize;
        let n: usize = red.len();
        let ghost goal = combined_field(width as nat, height as nat, red@, green@, blue@);
        let mut data: Vec<u16> = Vec::with_capacity(n);
        let mut row: usize = 0;
        while row < h
            invariant
                0 <= row <= h,
                w == width,
                h == height,
                n == w * h,
                red@.len() == n,
                green@.len() == n,
                blue@.len() == n,
                goal == combined_field(width as nat, height as nat, red@, green@, blue@),
                data@.len() == row * w,
                forall|j: int| 0 <= j < data@.len() ==> #[trigger] data@[j] == goal.cells[j],
            decreases h - row,
        {
            let mut col: usize = 0;
            while col < w
                invariant
                    0 <= col <= w,
                    0 <= row < h,
                    w == width,
                    h == height,
                    n == w * h,
                    red@.len() == n,
                    green@.len() == n,
                    blue@.len() == n,
                    goal == combined_field(width as nat, height as nat, red@, green@, blue@),
                    data@.len() == row * w + col,
                    forall|j: int| 0 <= j < data@.len() ==> #[trigger] data@[j] == goal.cells[j],
                decreases w - col,
            {
                proof {
                    lemma_offset_in_bounds(w as int, h as int, row as int, col as int);
                    lemma_offset_split(w as int, row as int, col as int);
                }
                let i: usize = row * w + col;
                let v: u16 = if row == 0 || row == h - 1 || col == 0 || col == w - 1 {
                    BORDER_GRADIENT
                } else {
                    red[i].saturating_add(green[i]).saturating_add(blue[i])
                };
                data.push(v);
                col += 1;
            }
            assert(row * w + w == (row + 1) * w) by (nonlinear_arith);
            row += 1;
        }
        assert(h * w == w * h) by (nonlinear_arith);
        assert(data@ =~= goal.cells);
        GradientBuffer { width, height, data }
    }

    /// Wraps a buffer already known to hold `width * height` magnitudes.
    pub(crate) fn from_parts(width: u32, height: u32, data: Vec<u16>) -> (out: GradientBuffer)
        requires
            data@.len() == width * height,
        ensures
            out@ == (Grid { width: width as nat, height: height as nat, cells: data@ }),
    {
        assert(data.len() == data@.len());
        GradientBuffer { width, height, data }
    }

    /// The field as gray levels for display, one per cell, row after row.
    pub fn grayscale(&self) -> (levels: Vec<u8>)
        ensures
            levels@.len() == self@.cells.len(),
            forall|i: int| 0 <= i < levels@.len() ==> #[trigger] levels@[i] == gray_level(self@.cells[i]),
    {
        let n: usize = self.data.len();
        let mut levels: Vec<u8> = Vec::with_capacity(n);
        let mut i: usize = 0;
        while i < n
            invariant
                0 <= i <= n,
                n == self.data@.len(),
                levels@.len() == i,
                forall|j: int| 0 <= j < i ==> #[trigger] levels@[j] == gray_level(self.data@[j]),
            decreases n - i,
        {
            let scaled: u16 = self.data[i] / 128;
            let level: u8 = if scaled > 255 {
                255u8
            } else {
                scaled as u8
            };
            levels.push(level);
            i += 1;
        }
        levels
    }

    /// The number of columns.
    pub fn width(&self) -> (w: u32)
        ensures
            w == self@.width,
            self@.wf(),
            self@.cells.len() <= usize::MAX,
    {
        proof {
            use_type_invariant(self);
            assert(self.data.len() == self.data@.len());
        }
        self.width
    }

    /// The number of rows.
    pub fn height(&self) -> (h: u32)
        ensures
            h == self@.height,
            self@.wf(),
            self@.cells.len() <= usize::MAX,
    {
        proof {
            use_type_invariant(self);
            assert(self.data.len() == self.data@.len());
        }
        self.height
    }

    /// The magnitude at column `col` of row `row`.
    pub fn get(&self, col: usize, row: usize) -> (v: u16)
        requires
            self@.has(row as int, col as int),
        ensures
            v == self@.at(row as int, col as int),
            self@.wf(),
    {
        proof {
            use_type_invariant(self);
            lemma_offset_in_bounds(self.width as int, self.height as int, row as int, col as int);
            assert(self.data.len() == self.data@.len());
        }
        self.data[row * (self.width as usize) + col]
    }
}

} // verus!
