//! Lightness gradients: the colors of a source image, ordered from darkest
//! to lightest, laid out as horizontal bands on a canvas of chosen size.
use crate::palette::{build_palette, palette_of, SourceGrid};
use crate::resample::{is_banded, resample, rows_in_range, GradientError, OutputGrid};
use vstd::prelude::*;

pub mod color;
pub mod palette;
pub mod resample;

verus! {

/// With at least one source pixel, the last row's index stays in the palette.
proof fn lemma_last_row_in_range(n: int, h: int)
    requires
        n > 0,
        h >= 1,
    ensures
        rows_in_range(n, n, h),
{
    let q = n / h;
    assert(q * h <= n) by (nonlinear_arith)
        requires
            q == n / h,
            h >= 1,
    ;
    assert(q * (h - 1) < n) by (nonlinear_arith)
        requires
            q * h <= n,
            q >= 0,
            n > 0,
            h >= 1,
    ;
}

/// The gradient of `img` on a canvas of `result_width` by `result_height`:
/// the palette of the image's pixels, one entry per row, row `y` taking the
/// entry at `row_index(pixel count, result_height, y)`.
pub fn generate_gradient(result_width: u32, result_height: u32, img: &SourceGrid) -> (r: Result<
    OutputGrid,
    GradientError,
>)
    requires
        result_width as int * result_height as int <= usize::MAX,
    ensures
        result_width == 0 || result_height == 0 ==> r == Err::<OutputGrid, GradientError>(
            GradientError::InvalidDimension,
        ),
        result_width > 0 && result_height > 0 && img@.len() == 0 ==> r == Err::<
            OutputGrid,
            GradientError,
        >(GradientError::NoSourceImage),
        result_width > 0 && result_height > 0 && img@.len() > 0 ==> (r matches Ok(out)
            && out.spec_width() == result_width && out.spec_height() == result_height && out.wf()
            && is_banded(
            out@,
            palette_of(img@),
            img@.len() as int,
            result_width as int,
            result_height as int,
        )),
{
    if result_width == 0 || result_height == 0 {
        return Err(GradientError::InvalidDimension);
    }
    let palette = build_palette(img);
    let n = palette.len();
    if n == 0 {
        return Err(GradientError::NoSourceImage);
    }
    proof {
        lemma_last_row_in_range(n as int, result_height as int);
    }
    resample(&palette, n, result_width, result_height)
}

} // verus!
