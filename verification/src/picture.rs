//! The image being resized, and the operations that shrink it.

use vstd::prelude::*;
use crate::error::ResizeError;
use crate::gradient::{GradientBuffer, combined_field, sobel_magnitudes, sobel_plane};
use crate::grid::Grid;
use crate::seam::{Path, traced_seam};
use crate::table::{DPTable, first_min, top_costs, top_row, lemma_first_min_unique, lemma_cost_table_top};

verus! {

/// The mathematical model of an RGB image: three bytes per pixel, red first,
/// pixels stored row after row.
pub struct Raster {
    pub width: nat,
    pub height: nat,
    pub pixels: Seq<u8>,
}

impl Raster {
    /// The buffer holds exactly three bytes per pixel.
    pub open spec fn wf(self) -> bool {
        self.pixels.len() == self.width * self.height * 3
    }

    /// The number of bytes in one row.
    pub open spec fn stride(self) -> int {
        3 * (self.width as int)
    }

    /// Channel `ch` (0 red, 1 green, 2 blue) of the pixel at `(row, col)`.
    pub open spec fn channel(self, row: int, col: int, ch: int) -> u8
        recommends
            0 <= row < self.height,
            0 <= col < self.width,
            0 <= ch < 3,
    {
        self.pixels[row * self.stride() + 3 * col + ch]
    }

    /// The bytes of row `row`.
    pub open spec fn row_bytes(self, row: int) -> Seq<u8>
        recommends
            0 <= row < self.height,
    {
        self.pixels.subrange(row * self.stride(), (row + 1) * self.stride())
    }
}

/// Whether `seam` names one existing column for each row of an image
/// `width` by `height`.
pub open spec fn fits(seam: Seq<int>, width: nat, height: nat) -> bool {
    &&& seam.len() == height
    &&& forall|r: int| 0 <= r < seam.len() ==> 0 <= #[trigger] seam[r] < width
}

/// The bytes of one row without the three bytes of the pixel in column `col`.
pub open spec fn cut_pixel(row: Seq<u8>, col: int) -> Seq<u8> {
    row.subrange(0, 3 * col) + row.subrange(3 * col + 3, row.len() as int)
}

/// The first `n` rows of `img`, each without the pixel that `seam` names in
/// it, one after the other.
pub open spec fn carved_rows(img: Raster, seam: Seq<int>, n: nat) -> Seq<u8>
    decreases n,
{
    if n == 0 {
        Seq::empty()
    } else {
        carved_rows(img, seam, (n - 1) as nat) + cut_pixel(img.row_bytes(n - 1), seam[n - 1])
    }
}

/// The image one column narrower that is left when `seam` is cut out of
/// `img`: in every row the pixels right of the seam move one place left, and
/// nothing else changes.
pub open spec fn without_seam(img: Raster, seam: Seq<int>) -> Raster {
    Raster {
        width: (img.width - 1) as nat,
        height: img.height,
        pixels: carved_rows(img, seam, img.height),
    }
}

/// The image after one round of carving: its gradient field is measured,
/// the seam is traced from the first column of least cumulative cost in the
/// top row, and that seam is cut out.
pub open spec fn carved(img: Raster) -> Raster {
    let g = gradient_field(img);
    without_seam(img, traced_seam(g, first_min(top_costs(g))))
}

/// The image after `n` rounds of carving, each on the result of the one
/// before.
pub open spec fn shrunk(img: Raster, n: nat) -> Raster
    decreases n,
{
    if n == 0 {
        img
    } else {
        shrunk(carved(img), (n - 1) as nat)
    }
}

/// The change of width that a request asks for.
pub open spec fn width_change(dimensions: Dimensions) -> int {
    match dimensions {
        Dimensions::Relative(x, _) => x as int,
    }
}

/// The change of height that a request asks for.
pub open spec fn height_change(dimensions: Dimensions) -> int {
    match dimensions {
        Dimensions::Relative(_, y) => y as int,
    }
}

/// Why a request cannot be served on `img`, if it cannot: growth is refused
/// first, then a change of height, then a request that would need a seam in
/// an image with fewer than two columns or with no row.
pub open spec fn refusal(img: Raster, dimensions: Dimensions) -> Option<ResizeError> {
    let dx = width_change(dimensions);
    let dy = height_change(dimensions);
    if dx > 0 {
        Some(ResizeError::OnlyDownsizing)
    } else if dy != 0 {
        Some(ResizeError::OnlyHorizontal)
    } else if dx < 0 && (img.height < 1 || img.width + dx < 1) {
        Some(ResizeError::TooNarrow)
    } else {
        None
    }
}

/// Cutting a seam out of `n` rows leaves `n` rows of one pixel less.
pub proof fn lemma_carved_rows_len(img: Raster, seam: Seq<int>, n: nat)
    requires
        img.wf(),
        fits(seam, img.width, img.height),
        n <= img.height,
    ensures
        carved_rows(img, seam, n).len() == n * (img.stride() - 3),
    decreases n,
{
    if n > 0 {
        lemma_carved_rows_len(img, seam, (n - 1) as nat);
        lemma_row_in_bounds(img, n - 1);
        assert(0 <= seam[n - 1] < img.width);
        assert(cut_pixel(img.row_bytes(n - 1), seam[n - 1]).len() == img.stride() - 3);
        assert(n * (img.stride() - 3) == (n - 1) * (img.stride() - 3) + (img.stride() - 3))
            by (nonlinear_arith);
    } else {
        assert(n * (img.stride() - 3) == 0) by (nonlinear_arith)
            requires
                n == 0,
        ;
    }
}

/// Every row of a well-formed image lies inside its buffer.
pub proof fn lemma_row_in_bounds(img: Raster, row: int)
    requires
        img.wf(),
        0 <= row < img.height,
    ensures
        0 <= row * img.stride(),
        (row + 1) * img.stride() == row * img.stride() + img.stride(),
        (row + 1) * img.stride() <= img.pixels.len(),
        img.stride() <= img.pixels.len(),
        img.row_bytes(row).len() == img.stride(),
{
    let s = img.stride();
    let h = img.height as int;
    assert(0 <= row * s) by (nonlinear_arith)
        requires
            0 <= row,
            0 <= s,
    ;
    assert((row + 1) * s == row * s + s) by (nonlinear_arith);
    assert(s <= h * s) by (nonlinear_arith)
        requires
            1 <= h,
            0 <= s,
    ;
    assert((row + 1) * s <= h * s) by (nonlinear_arith)
        requires
            row + 1 <= h,
            0 <= s,
    ;
    assert(h * s == img.width * img.height * 3) by (nonlinear_arith)
        requires
            s == 3 * img.width,
            h == img.height,
    ;
}

/// One colour channel of an image as a plane of intensities, one per pixel,
/// in the order of the pixels.
pub open spec fn channel_plane(img: Raster, ch: int) -> Seq<u8> {
    Seq::new(img.width * img.height, |i: int| img.pixels[3 * i + ch])
}

/// The gradient field of an image: the Sobel magnitudes of its three colour
/// planes, combined.
pub open spec fn gradient_field(img: Raster) -> Grid<u16> {
    combined_field(
        img.width,
        img.height,
        sobel_magnitudes(img.width, img.height, channel_plane(img, 0)),
        sobel_magnitudes(img.width, img.height, channel_plane(img, 1)),
        sobel_magnitudes(img.width, img.height, channel_plane(img, 2)),
    )
}

/// A requested change of size.
#[derive(Clone, Copy, Debug, PartialEq, Eq, Structural)]
pub enum Dimensions {
    /// A change of the width and of the height, in pixels.
    Relative(isize, isize),
}

/// An RGB image held as a dense buffer of three bytes per pixel.
#[derive(Debug)]
pub struct Image {
    width: u32,
    height: u32,
    pixels: Vec<u8>,
}

impl View for Image {
    type V = Raster;

    closed spec fn view(&self) -> Raster {
        Raster { width: self.width as nat, height: self.height as nat, pixels: self.pixels@ }
    }
}

impl Image {
    #[verifier::type_invariant]
    spec fn inv(&self) -> bool {
        self.pixels.len() == self.width * self.height * 3
    }

    /// Wraps a buffer of `width * height` RGB pixels; any other length is
    /// refused.
    pub fn from_raw(width: u32, height: u32, pixels: Vec<u8>) -> (out: Option<Image>)
        ensures
            out is Some <==> pixels@.len() == width * height * 3,
            out matches Some(img) ==> img@ == (Raster {
                width: width as nat,
                height: height as nat,
                pixels: pixels@,
            }),
    {
        let len: usize = pixels.len();
        assert(width * height <= 0xFFFF_FFFF * 0xFFFF_FFFF) by (nonlinear_arith)
            requires
                width <= 0xFFFF_FFFF,
                height <= 0xFFFF_FFFF,
        ;
        let area: u64 = width as u64 * height as u64;
        if area <= (usize::MAX / 3) as u64 && area as usize * 3 == len {
            Some(Image { width, height, pixels })
        } else {
            None
        }
    }

    /// The pixel buffer: three bytes per pixel, row after row.
    pub fn get_image_data(&self) -> (data: &[u8])
        ensures
            data@ == self@.pixels,
            self@.wf(),
    {
        proof {
            use_type_invariant(self);
            assert(self.pixels.len() == self.pixels@.len());
        }
        self.pixels.as_slice()
    }

    /// The width and the height, in pixels.
    pub fn dimmensions(&self) -> (dims: (u32, u32))
        ensures
            dims.0 == self@.width,
            dims.1 == self@.height,
            self@.wf(),
    {
        proof {
            use_type_invariant(self);
            assert(self.pixels.len() == self.pixels@.len());
        }
        (self.width, self.height)
    }

    /// The change of width and of height that `dims` asks for.
    pub fn size_difference(&self, dims: Dimensions) -> (diff: (isize, isize))
        ensures
            diff.0 == width_change(dims),
            diff.1 == height_change(dims),
    {
        match dims {
            Dimensions::Relative(x, y) => (x, y),
        }
    }

    /// Narrows the image by as many columns as `dimensions` asks for, one
    /// seam at a time. Every round measures the gradient field of the image
    /// as it then is, builds its cost table, traces one seam and cuts it out.
    ///
    /// Only a request that leaves the height alone and does not widen the
    /// image is served, and only if every round finds at least two columns
    /// and one row. A request is checked as a whole before anything is
    /// touched: when it is refused the image is left as it was. A request for
    /// no change leaves the image as it was, too.
    pub fn resize_to(&mut self, dimensions: Dimensions) -> (out: Result<(), ResizeError>)
        ensures
            out is Ok <==> refusal(old(self)@, dimensions) is None,
            out is Ok ==> final(self)@ == shrunk(
                old(self)@,
                (-width_change(dimensions)) as nat,
            ),
            out matches Err(e) ==> final(self)@ == old(self)@ && refusal(old(self)@, dimensions)
                == Some(e),
    {
        let (dx, dy) = self.size_difference(dimensions);
        let (w, h) = self.dimmensions();
        if dx > 0 {
            return Err(ResizeError::OnlyDownsizing);
        }
        if dy != 0 {
            return Err(ResizeError::OnlyHorizontal);
        }
        if dx < 0 && (h < 1 || (w as i128) + (dx as i128) < 1) {
            return Err(ResizeError::TooNarrow);
        }
        let ghost goal = shrunk(old(self)@, (-dx) as nat);
        let mut xs: isize = dx;
        while xs < 0
            invariant
                dx <= xs <= 0,
                xs < 0 ==> self@.height >= 1 && self@.width + xs >= 1,
                shrunk(self@, (-xs) as nat) == goal,
            decreases -xs,
        {
            let ghost img = self@;
            let grad: GradientBuffer = self.gradient_magnitude();
            let table: DPTable = match DPTable::from_gradient_buffer(&grad) {
                Ok(t) => t,
                Err(e) => {
                    return Err(e);
                },
            };
            let path: Path = match Path::from_dp_table(&table, &grad) {
                Ok(p) => p,
                Err(e) => {
                    return Err(e);
                },
            };
            proof {
                lemma_cost_table_top(table@, grad@);
                lemma_first_min_unique(top_row(table@), path@[0]);
                assert(path@ == traced_seam(grad@, first_min(top_costs(grad@))));
            }
            match self.remove_path(path) {
                Ok(()) => {},
                Err(e) => {
                    return Err(e);
                },
            }
            assert(self@ == carved(img));
            xs += 1;
        }
        Ok(())
    }

    /// Cuts the seam `path` out of the image: every row loses the pixel in
    /// the column that the seam names for it, and the image becomes one
    /// column narrower.
    ///
    /// A seam that does not name one existing column for every row is
    /// refused, and the image is left as it was.
    pub fn remove_path(&mut self, path: Path) -> (out: Result<(), ResizeError>)
        ensures
            out is Ok <==> fits(path@, old(self)@.width, old(self)@.height) && old(self)@.width
                >= 1,
            out is Ok ==> final(self)@ == without_seam(old(self)@, path@),
            out matches Err(e) ==> final(self)@ == old(self)@ && e == (if fits(
                path@,
                old(self)@.width,
                old(self)@.height,
            ) {
                ResizeError::TooNarrow
            } else {
                ResizeError::SeamOutOfBounds
            }),
    {
        proof {
            use_type_invariant(&*self);
            assert(self.pixels.len() == self.pixels@.len());
        }
        let w: usize = self.width as usize;
        let h: usize = self.height as usize;
        let ghost img = self@;
        let ghost seam = path@;
        assert(seam.len() == path.indices@.len());
        if path.indices.len() != h {
            return Err(ResizeError::SeamOutOfBounds);
        }
        let mut r: usize = 0;
        while r < h
            invariant
                0 <= r <= h,
                w == img.width,
                h == img.height,
                img == self@,
                img == old(self)@,
                path.indices@.len() == h,
                seam == path@,
                forall|k: int| 0 <= k < r ==> 0 <= #[trigger] seam[k] < w,
            decreases h - r,
        {
            if path.indices[r] >= w {
                assert(!(0 <= seam[r as int] < w));
                return Err(ResizeError::SeamOutOfBounds);
            }
            r += 1;
        }
        if w == 0 {
            return Err(ResizeError::TooNarrow);
        }
        let mut new_pixels: Vec<u8> = Vec::new();
        let mut row: usize = 0;
        while row < h
            invariant
                0 <= row <= h,
                1 <= w,
                w == img.width,
                h == img.height,
                img.wf(),
                img.pixels == self.pixels@,
                img.pixels.len() <= usize::MAX,
                seam == path@,
                path.indices@.len() == h,
                fits(seam, img.width, img.height),
                new_pixels@ == carved_rows(img, seam, row as nat),
            decreases h - row,
        {
            proof {
                lemma_row_in_bounds(img, row as int);
            }
            let stride: usize = 3 * w;
            let start: usize = row * stride;
            let col: usize = path.indices[row];
            assert(col == seam[row as int]);
            let cut: usize = start + 3 * col;
            let end: usize = start + stride;
            let ghost before = new_pixels@;
            append_range(&mut new_pixels, &self.pixels, start, cut);
            append_range(&mut new_pixels, &self.pixels, cut + 3, end);
            proof {
                let bytes = img.row_bytes(row as int);
                assert(bytes.subrange(0, 3 * col) =~= img.pixels.subrange(
                    start as int,
                    cut as int,
                ));
                assert(bytes.subrange(3 * col + 3, bytes.len() as int) =~= img.pixels.subrange(
                    cut + 3,
                    end as int,
                ));
                assert(new_pixels@ =~= before + cut_pixel(bytes, col as int));
            }
            row += 1;
        }
        proof {
            lemma_carved_rows_len(img, seam, h as nat);
            assert(h * (3 * w - 3) == (w - 1) * h * 3) by (nonlinear_arith);
        }
        *self = Image { width: (w - 1) as u32, height: h as u32, pixels: new_pixels };
        Ok(())
    }

    /// Measures how much each pixel matters: the gradient field of the
    /// image, with the fixed magnitude on its border.
    pub fn gradient_magnitude(&self) -> (field: GradientBuffer)
        ensures
            field@ == gradient_field(self@),
    {
        let (w, h) = self.dimmensions();
        let (red, green, blue) = decompose(self);
        let r_grad: Vec<u16> = sobel_plane(w, h, red);
        let g_grad: Vec<u16> = sobel_plane(w, h, green);
        let b_grad: Vec<u16> = sobel_plane(w, h, blue);
        GradientBuffer::combine(w, h, &r_grad, &g_grad, &b_grad)
    }
}

/// Appends the bytes of `src` from position `from` up to `to` to `out`.
fn append_range(out: &mut Vec<u8>, src: &Vec<u8>, from: usize, to: usize)
    requires
        from <= to <= src@.len(),
    ensures
        final(out)@ == old(out)@ + src@.subrange(from as int, to as int),
{
    let mut i: usize = from;
    while i < to
        invariant
            from <= i <= to <= src@.len(),
            out@ == old(out)@ + src@.subrange(from as int, i as int),
        decreases to - i,
    {
        out.push(src[i]);
        assert(out@ =~= old(out)@ + src@.subrange(from as int, i + 1));
        i += 1;
    }
}

/// Splits an image into its red, green and blue planes: one intensity per
/// pixel in each, in the order of the pixels.
pub fn decompose(image: &Image) -> (planes: (Vec<u8>, Vec<u8>, Vec<u8>))
    ensures
        planes.0@ == channel_plane(image@, 0),
        planes.1@ == channel_plane(image@, 1),
        planes.2@ == channel_plane(image@, 2),
{
    let data: &[u8] = image.get_image_data();
    let n: usize = data.len() / 3;
    let ghost img = image@;
    assert(img.width * img.height == n);
    let mut red: Vec<u8> = Vec::with_capacity(n);
    let mut green: Vec<u8> = Vec::with_capacity(n);
    let mut blue: Vec<u8> = Vec::with_capacity(n);
    let mut i: usize = 0;
    while i < n
        invariant
            0 <= i <= n,
            data@ == img.pixels,
            data@.len() == n * 3,
            n * 3 <= usize::MAX,
            red@.len() == i,
            green@.len() == i,
            blue@.len() == i,
            forall|j: int| 0 <= j < i ==> #[trigger] red@[j] == img.pixels[3 * j],
            forall|j: int| 0 <= j < i ==> #[trigger] green@[j] == img.pixels[3 * j + 1],
            forall|j: int| 0 <= j < i ==> #[trigger] blue@[j] == img.pixels[3 * j + 2],
        decreases n - i,
    {
        red.push(data[3 * i]);
        green.push(data[3 * i + 1]);
        blue.push(data[3 * i + 2]);
        i += 1;
    }
    assert(red@ =~= channel_plane(img, 0));
    assert(green@ =~= channel_plane(img, 1));
    assert(blue@ =~= channel_plane(img, 2));
    (red, green, blue)
}

} // verus!
