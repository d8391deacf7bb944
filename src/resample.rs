//! Laying a palette out on an output canvas, one palette entry per row.
use crate::color::Rgb;
use vstd::prelude::*;

verus! {

/// Why a gradient could not be made.
#[derive(Clone, Copy, Debug, PartialEq, Eq, Structural)]
pub enum GradientError {
    /// The requested width or height is zero.
    InvalidDimension,
    /// A row would take an entry past the end of the palette.
    IndexOutOfRange,
    /// There is no image, or it holds no pixel.
    NoSourceImage,
}

/// An output image: `width * height` pixels in row-major order.
pub struct OutputGrid {
    width: u32,
    height: u32,
    pixels: Vec<Rgb>,
}

impl OutputGrid {
    pub closed spec fn spec_width(&self) -> u32 {
        self.width
    }

    pub closed spec fn spec_height(&self) -> u32 {
        self.height
    }

    pub closed spec fn view(&self) -> Seq<Rgb> {
        self.pixels@
    }

    pub open spec fn wf(&self) -> bool {
        self@.len() == self.spec_width() as int * self.spec_height() as int
    }

    pub fn width(&self) -> (r: u32)
        ensures
            r == self.spec_width(),
    {
        self.width
    }

    pub fn height(&self) -> (r: u32)
        ensures
            r == self.spec_height(),
    {
        self.height
    }

    /// The pixels, row after row.
    pub fn pixels(&self) -> (r: &Vec<Rgb>)
        ensures
            r@ == self@,
    {
        &self.pixels
    }

    /// The pixel in column `x` of row `y`.
    pub fn pixel(&self, x: u32, y: u32) -> (r: Rgb)
        requires
            self.wf(),
            x < self.spec_width(),
            y < self.spec_height(),
        ensures
            r == self@[y as int * self.spec_width() as int + x as int],
    {
        let w = self.width as usize;
        let n = self.pixels.len();
        proof {
            assert((y as int) * (w as int) + (x as int) < (self.spec_height() as int) * (w as int))
                by (nonlinear_arith)
                requires
                    y < self.spec_height(),
                    x < w,
            ;
            assert(0 <= (y as int) * (w as int)) by (nonlinear_arith);
        }
        self.pixels[y as usize * w + x as usize]
    }
}

/// The palette entry that row `y` of an output of `height` rows takes: the
/// source pixel count divided by the height, truncated, times `y`.
pub open spec fn row_index(count: int, height: int, y: int) -> int {
    (count / height) * y
}

/// `out` holds `width * height` pixels, and each pixel of row `y` is the
/// palette entry at `row_index(count, height, y)`.
pub open spec fn is_banded(out: Seq<Rgb>, palette: Seq<Rgb>, count: int, width: int, height: int) -> bool {
    &&& out.len() == width * height
    &&& forall|y: int, x: int|
        0 <= y < height && 0 <= x < width ==> #[trigger] out[y * width + x] == palette[row_index(
            count,
            height,
            y,
        )]
}

/// Whether every row of an output of `height` rows finds its entry in a
/// palette of `len` entries; the last row takes the largest index.
pub open spec fn rows_in_range(len: int, count: int, height: int) -> bool {
    row_index(count, height, height - 1) < len
}

/// In a banded output all pixels of one row are the same.
pub proof fn lemma_rows_uniform(
    out: Seq<Rgb>,
    palette: Seq<Rgb>,
    count: int,
    width: int,
    height: int,
    y: int,
    x1: int,
    x2: int,
)
    requires
        is_banded(out, palette, count, width, height),
        0 <= y < height,
        0 <= x1 < width,
        0 <= x2 < width,
    ensures
        out[y * width + x1] == out[y * width + x2],
{
}

proof fn lemma_earlier_row(w: int, y: int, yy: int, xx: int)
    requires
        0 <= yy < y,
        0 <= xx < w,
    ensures
        0 <= yy * w + xx < y * w,
{
    assert(0 <= yy * w + xx < y * w) by (nonlinear_arith)
        requires
            0 <= yy < y,
            0 <= xx < w,
    ;
}

/// The output of `result_width` by `result_height` pixels whose row `y` is
/// filled with `palette[row_index(source_pixel_count, result_height, y)]`.
/// Fails with `InvalidDimension` where a dimension is zero, and with
/// `IndexOutOfRange` where a row's index falls past the palette.
pub fn resample(palette: &Vec<Rgb>, source_pixel_count: usize, result_width: u32, result_height: u32)
    -> (r: Result<OutputGrid, GradientError>)
    requires
        result_width as int * result_height as int <= usize::MAX,
    ensures
        result_width == 0 || result_height == 0 ==> r == Err::<OutputGrid, GradientError>(
            GradientError::InvalidDimension,
        ),
        result_width > 0 && result_height > 0 && !rows_in_range(
            palette@.len() as int,
            source_pixel_count as int,
            result_height as int,
        ) ==> r == Err::<OutputGrid, GradientError>(GradientError::IndexOutOfRange),
        result_width > 0 && result_height > 0 && rows_in_range(
            palette@.len() as int,
            source_pixel_count as int,
            result_height as int,
        ) ==> (r matches Ok(out) && out.spec_width() == result_width && out.spec_height()
            == result_height && out.wf() && is_banded(
            out@,
            palette@,
            source_pixel_count as int,
            result_width as int,
            result_height as int,
        )),
{
    if result_width == 0 || result_height == 0 {
        return Err(GradientError::InvalidDimension);
    }
    let w = result_width as usize;
    let h = result_height as usize;
    let step: usize = source_pixel_count / h;
    proof {
        assert(step as int * (h as int - 1) <= step as int * h as int) by (nonlinear_arith)
            requires
                h >= 1,
        ;
        assert(step as int * h as int <= source_pixel_count as int) by (nonlinear_arith)
            requires
                step as int == source_pixel_count as int / h as int,
                h >= 1,
        ;
    }
    let last: usize = step * (h - 1);
    if last >= palette.len() {
        return Err(GradientError::IndexOutOfRange);
    }
    let plen = palette.len();
    let ghost count = source_pixel_count as int;
    let mut pixels: Vec<Rgb> = Vec::with_capacity(w * h);
    let mut y: usize = 0;
    while y < h
        invariant
            1 <= h,
            y <= h,
            w as int * h as int <= usize::MAX,
            step as int == count / h as int,
            plen == palette@.len(),
            step as int * (h as int - 1) < plen,
            pixels@.len() == y as int * w as int,
            forall|yy: int, xx: int|
                0 <= yy < y && 0 <= xx < w ==> #[trigger] pixels@[yy * w + xx] == palette@[row_index(
                    count,
                    h as int,
                    yy,
                )],
        decreases h - y,
    {
        proof {
            assert(step as int * y as int <= step as int * (h as int - 1)) by (nonlinear_arith)
                requires
                    y < h,
            ;
        }
        let c = palette[step * y];
        assert(row_index(count, h as int, y as int) == step as int * y as int);
        let mut x: usize = 0;
        while x < w
            invariant
                y < h,
                x <= w,
                w as int * h as int <= usize::MAX,
                c == palette@[row_index(count, h as int, y as int)],
                pixels@.len() == y as int * w as int + x as int,
                forall|yy: int, xx: int|
                    0 <= yy < y && 0 <= xx < w ==> #[trigger] pixels@[yy * w + xx]
                        == palette@[row_index(count, h as int, yy)],
                forall|xx: int| 0 <= xx < x ==> #[trigger] pixels@[y * w + xx] == c,
            decreases w - x,
        {
            proof {
                assert((y as int) * (w as int) + (x as int) < (w as int) * (h as int)) by (nonlinear_arith)
                    requires
                        y < h,
                        x < w,
                ;
            }
            let ghost prev = pixels@;
            pixels.push(c);
            proof {
                assert forall|yy: int, xx: int| 0 <= yy < y && 0 <= xx < w implies #[trigger] pixels@[yy
                    * w + xx] == palette@[row_index(count, h as int, yy)] by {
                    lemma_earlier_row(w as int, y as int, yy, xx);
                    assert(pixels@[yy * w + xx] == prev[yy * w + xx]);
                }
            }
            x += 1;
        }
        proof {
            assert(pixels@.len() == (y as int + 1) * w as int) by (nonlinear_arith)
                requires
                    pixels@.len() == y as int * w as int + w as int,
            ;
        }
        y += 1;
    }
    proof {
        assert(pixels@.len() == (w as int) * (h as int)) by (nonlinear_arith)
            requires
                pixels@.len() == (h as int) * (w as int),
        ;
        assert forall|yy: int, xx: int| 0 <= yy < h && 0 <= xx < w implies #[trigger] pixels@[yy
            * result_width as int + xx] == palette@[row_index(count, h as int, yy)] by {
            assert(pixels@[yy * w + xx] == palette@[row_index(count, h as int, yy)]);
        }
    }
    Ok(OutputGrid { width: result_width, height: result_height, pixels })
}

} // verus!
