//! Active-picture detection: find the video rectangle inside letterbox
//! bars by scanning each edge of a 10-bit luma plane.

use vstd::prelude::*;

verus! {

/// The detected active-video rectangle, in luma pixels.
#[derive(Clone, Copy, Debug, PartialEq, Eq, Structural)]
pub struct CropRect {
    /// Left edge.
    pub x: u32,
    /// Top edge.
    pub y: u32,
    /// Width of the active area.
    pub width: u32,
    /// Height of the active area.
    pub height: u32,
}

impl CropRect {
    /// The rectangle covering the whole frame.
    pub fn full(width: u32, height: u32) -> (r: Self)
        ensures
            r.x == 0 && r.y == 0 && r.width == width && r.height == height,
    {
        CropRect { x: 0, y: 0, width, height }
    }
}

/// Round a coordinate down to the previous even value.
pub fn round_down_even(v: u32) -> (r: u32)
    ensures
        r == v - v % 2,
        r % 2 == 0,
        r <= v,
{
    v - v % 2
}

/// Round a length down to an even value, but never below two.
pub fn round_len_even(len: u32) -> (r: u32)
    ensures
        r == (if len <= 2 { 2u32 } else { (len - len % 2) as u32 }),
        r % 2 == 0,
        r >= 2,
{
    if len <= 2 {
        2
    } else {
        len - len % 2
    }
}

/// Whether a 10-bit limited-range luma code is visibly above black: the
/// normalized value `(code - 64) / 876` exceeds 0.01, which happens exactly
/// from code 73 up.
pub fn is_non_black_10bit_limited(code10: u16) -> (r: bool)
    ensures
        r == (code10 % 1024 >= 73),
{
    let code: u16 = code10 % 1024;
    code >= 73
}

/// The 10-bit little-endian luma code at pixel `(x, y)` of a plane, or 0
/// when the offset runs past the buffer.
pub open spec fn spec_read_luma10(data: Seq<u8>, stride: int, x: int, y: int) -> int {
    let off = y * stride + 2 * x;
    if off + 1 >= data.len() {
        0
    } else {
        data[off] + 256 * data[off + 1]
    }
}

/// Read the 16-bit container holding a 10-bit luma code, little-endian,
/// two bytes per sample; out-of-buffer reads yield black.
pub fn read_luma10(y_data: &Vec<u8>, stride: usize, x: usize, y: usize) -> (r: u16)
    requires
        stride <= 0x7FFFFFFF,
        x <= 0x7FFFFFFF,
        y <= 0x7FFFFFFF,
    ensures
        r == spec_read_luma10(y_data@, stride as int, x as int, y as int),
{
    let n: usize = y_data.len();
    proof {
        assert((y as int) * (stride as int) <= 0x7FFFFFFF * 0x7FFFFFFF)
            by (nonlinear_arith)
            requires y <= 0x7FFFFFFFusize, stride <= 0x7FFFFFFFusize;
        assert((y as int) * (stride as int) >= 0) by (nonlinear_arith)
            requires y >= 0, stride >= 0;
    }
    let off128: u128 = (y as u128) * (stride as u128) + 2 * (x as u128);
    if off128 + 1 >= n as u128 {
        return 0;
    }
    let off: usize = off128 as usize;
    let lo: u8 = y_data[off];
    let hi: u8 = y_data[off + 1];
    (lo as u16) + 256 * (hi as u16)
}

/// How many of the first `i` sampled positions of row `y` (every tenth
/// pixel) are visibly above black.
pub open spec fn spec_row_nb_count(data: Seq<u8>, stride: int, y: int, i: int) -> int
    decreases i,
{
    if i <= 0 {
        0
    } else {
        spec_row_nb_count(data, stride, y, i - 1)
            + if spec_read_luma10(data, stride, (i - 1) * 10, y) % 1024 >= 73 {
                1int
            } else {
                0int
            }
    }
}

/// How many of the first `i` sampled positions of column `x` are visibly
/// above black.
pub open spec fn spec_col_nb_count(data: Seq<u8>, stride: int, x: int, i: int) -> int
    decreases i,
{
    if i <= 0 {
        0
    } else {
        spec_col_nb_count(data, stride, x, i - 1)
            + if spec_read_luma10(data, stride, x, (i - 1) * 10) % 1024 >= 73 {
                1int
            } else {
                0int
            }
    }
}

/// The number of sampled positions along an extent of `n` pixels.
pub open spec fn spec_samples(n: int) -> int {
    (n + 9) / 10
}

/// A row is active when at least `required` of its sampled pixels are
/// above black.
pub open spec fn spec_row_active(data: Seq<u8>, stride: int, width: int, y: int, required: int) -> bool {
    spec_row_nb_count(data, stride, y, spec_samples(width)) >= required
}

/// A column is active when at least `required` of its sampled pixels are
/// above black.
pub open spec fn spec_col_active(data: Seq<u8>, stride: int, height: int, x: int, required: int) -> bool {
    spec_col_nb_count(data, stride, x, spec_samples(height)) >= required
}

/// The sampled non-black count only grows with more samples.
proof fn lemma_row_nb_monotone(data: Seq<u8>, stride: int, y: int, i: int, j: int)
    requires
        i <= j,
    ensures
        spec_row_nb_count(data, stride, y, i) <= spec_row_nb_count(data, stride, y, j),
    decreases j - i,
{
    if i < j {
        lemma_row_nb_monotone(data, stride, y, i, j - 1);
    }
}

/// The sampled non-black count only grows with more samples.
proof fn lemma_col_nb_monotone(data: Seq<u8>, stride: int, x: int, i: int, j: int)
    requires
        i <= j,
    ensures
        spec_col_nb_count(data, stride, x, i) <= spec_col_nb_count(data, stride, x, j),
    decreases j - i,
{
    if i < j {
        lemma_col_nb_monotone(data, stride, x, i, j - 1);
    }
}

/// The count never exceeds the number of samples.
proof fn lemma_row_nb_at_most(data: Seq<u8>, stride: int, y: int, i: int)
    ensures
        spec_row_nb_count(data, stride, y, i) <= (if i >= 0 { i } else { 0 }),
    decreases i,
{
    if i > 0 {
        lemma_row_nb_at_most(data, stride, y, i - 1);
    }
}

/// The count never exceeds the number of samples.
proof fn lemma_col_nb_at_most(data: Seq<u8>, stride: int, x: int, i: int)
    ensures
        spec_col_nb_count(data, stride, x, i) <= (if i >= 0 { i } else { 0 }),
    decreases i,
{
    if i > 0 {
        lemma_col_nb_at_most(data, stride, x, i - 1);
    }
}

/// Count the sampled non-black pixels of one row, stepping 10 pixels at a
/// time, and report whether the row reaches the required count.
fn row_is_active(
    y_data: &Vec<u8>,
    stride: usize,
    width: usize,
    y: usize,
    required: usize,
) -> (r: bool)
    requires
        stride <= 0x7FFFFFFF,
        width <= 0x7FFFFFFF,
        y <= 0x7FFFFFFF,
    ensures
        r == spec_row_active(y_data@, stride as int, width as int, y as int, required as int),
{
    let mut non_black: usize = 0;
    let mut x: usize = 0;
    while x < width
        invariant
            x < width + 10,
            x % 10 == 0,
            width <= 0x7FFFFFFF,
            stride <= 0x7FFFFFFF,
            y <= 0x7FFFFFFF,
            non_black <= width,
            non_black == spec_row_nb_count(y_data@, stride as int, y as int, x as int / 10),
        decreases width + 10 - x,
    {
        proof {
            // The counted samples never outnumber the positions seen.
            lemma_row_nb_at_most(y_data@, stride as int, y as int, x as int / 10);
            assert(x as int / 10 <= x as int);
        }
        let l: u16 = read_luma10(y_data, stride, x, y);
        if is_non_black_10bit_limited(l) {
            if non_black < width {
                non_black = non_black + 1;
            }
            if non_black >= required {
                proof {
                    // The final count can only be larger.
                    lemma_row_nb_monotone(y_data@, stride as int, y as int,
                        x as int / 10 + 1, spec_samples(width as int));
                    assert((x as int + 10) / 10 == x as int / 10 + 1);
                    assert(x as int / 10 + 1 <= spec_samples(width as int)) by (nonlinear_arith)
                        requires x < width, x % 10 == 0;
                }
                return true;
            }
        }
        proof {
            assert((x as int + 10) / 10 == x as int / 10 + 1);
        }
        x = x + 10;
    }
    proof {
        // All samples were visited: x is the first multiple of 10 at or
        // past the width, so x / 10 is the sample count.
        assert(x as int / 10 == spec_samples(width as int)) by (nonlinear_arith)
            requires x % 10 == 0, width <= x, x < width + 10;
    }
    non_black >= required
}

/// Count the sampled non-black pixels of one column, stepping 10 pixels at
/// a time, and report whether the column reaches the required count.
fn col_is_active(
    y_data: &Vec<u8>,
    stride: usize,
    height: usize,
    x: usize,
    required: usize,
) -> (r: bool)
    requires
        stride <= 0x7FFFFFFF,
        height <= 0x7FFFFFFF,
        x <= 0x7FFFFFFF,
    ensures
        r == spec_col_active(y_data@, stride as int, height as int, x as int, required as int),
{
    let mut non_black: usize = 0;
    let mut y: usize = 0;
    while y < height
        invariant
            y < height + 10,
            y % 10 == 0,
            height <= 0x7FFFFFFF,
            stride <= 0x7FFFFFFF,
            x <= 0x7FFFFFFF,
            non_black <= height,
            non_black == spec_col_nb_count(y_data@, stride as int, x as int, y as int / 10),
        decreases height + 10 - y,
    {
        proof {
            lemma_col_nb_at_most(y_data@, stride as int, x as int, y as int / 10);
            assert(y as int / 10 <= y as int);
        }
        let l: u16 = read_luma10(y_data, stride, x, y);
        if is_non_black_10bit_limited(l) {
            if non_black < height {
                non_black = non_black + 1;
            }
            if non_black >= required {
                proof {
                    lemma_col_nb_monotone(y_data@, stride as int, x as int,
                        y as int / 10 + 1, spec_samples(height as int));
                    assert((y as int + 10) / 10 == y as int / 10 + 1);
                    assert(y as int / 10 + 1 <= spec_samples(height as int)) by (nonlinear_arith)
                        requires y < height, y % 10 == 0;
                }
                return true;
            }
        }
        proof {
            assert((y as int + 10) / 10 == y as int / 10 + 1);
        }
        y = y + 10;
    }
    proof {
        assert(y as int / 10 == spec_samples(height as int)) by (nonlinear_arith)
            requires y % 10 == 0, height <= y, y < height + 10;
    }
    non_black >= required
}

/// The first active row at or below `y`, or 0 when none is found before
/// the bottom.
pub open spec fn spec_scan_top(
    data: Seq<u8>, stride: int, w: int, req: int, y: int, h: int,
) -> int
    decreases h - y,
{
    if y >= h {
        0
    } else if spec_row_active(data, stride, w, y, req) {
        y
    } else {
        spec_scan_top(data, stride, w, req, y + 1, h)
    }
}

/// The first active row at or above `y`, or `h - 1` when none is found.
pub open spec fn spec_scan_bottom(
    data: Seq<u8>, stride: int, w: int, req: int, y: int, h: int,
) -> int
    decreases y + 1,
{
    if y < 0 {
        h - 1
    } else if spec_row_active(data, stride, w, y, req) {
        y
    } else {
        spec_scan_bottom(data, stride, w, req, y - 1, h)
    }
}

/// The first active column at or right of `x`, or 0 when none is found.
pub open spec fn spec_scan_left(
    data: Seq<u8>, stride: int, h: int, req: int, x: int, w: int,
) -> int
    decreases w - x,
{
    if x >= w {
        0
    } else if spec_col_active(data, stride, h, x, req) {
        x
    } else {
        spec_scan_left(data, stride, h, req, x + 1, w)
    }
}

/// The first active column at or left of `x`, or `w - 1` when none is
/// found.
pub open spec fn spec_scan_right(
    data: Seq<u8>, stride: int, h: int, req: int, x: int, w: int,
) -> int
    decreases x + 1,
{
    if x < 0 {
        w - 1
    } else if spec_col_active(data, stride, h, x, req) {
        x
    } else {
        spec_scan_right(data, stride, h, req, x - 1, w)
    }
}

/// The whole detection: the four edge scans, the degeneracy fallback, and
/// the even rounding and clamping of the detected rectangle.  This is the
/// defining model of [`detect_crop`].
pub open spec fn spec_detect_crop(data: Seq<u8>, stride: int, width: u32, height: u32) -> CropRect {
    if width == 0 || height == 0 {
        CropRect { x: 0, y: 0, width, height }
    } else {
        let req_row = (spec_samples(width as int) + 9) / 10;
        let req_col = (spec_samples(height as int) + 9) / 10;
        let top = spec_scan_top(data, stride, width as int, req_row, 0, height as int);
        let bottom = spec_scan_bottom(data, stride, width as int, req_row,
            height as int - 1, height as int);
        let left = spec_scan_left(data, stride, height as int, req_col, 0, width as int);
        let right = spec_scan_right(data, stride, height as int, req_col,
            width as int - 1, width as int);
        if right <= left || bottom <= top {
            CropRect { x: 0, y: 0, width, height }
        } else {
            let x0a = left - left % 2;
            let y0a = top - top % 2;
            let w1 = right - x0a + 1;
            let h1 = bottom - y0a + 1;
            let w2 = if w1 >= 2 { w1 } else { 2int };
            let h2 = if h1 >= 2 { h1 } else { 2int };
            let cw0 = if w2 <= 2 { 2int } else { w2 - w2 % 2 };
            let ch0 = if h2 <= 2 { 2int } else { h2 - h2 % 2 };
            let xc = if x0a + cw0 > width {
                if width >= cw0 { (width - cw0, cw0) } else { (0int, width - width % 2) }
            } else {
                (x0a, cw0)
            };
            let yc = if y0a + ch0 > height {
                if height >= ch0 { (height - ch0, ch0) } else { (0int, height - height % 2) }
            } else {
                (y0a, ch0)
            };
            if xc.1 < 2 || yc.1 < 2 {
                CropRect { x: 0, y: 0, width, height }
            } else {
                CropRect { x: xc.0 as u32, y: yc.0 as u32,
                    width: xc.1 as u32, height: yc.1 as u32 }
            }
        }
    }
}

/// Detect the active video area of a 10-bit luma plane by scanning inward
/// from each edge for the first row or column where at least a tenth of the
/// sampled pixels are visibly above black.
///
/// A degenerate detection falls back to the full frame; otherwise the
/// rectangle is rounded to even coordinates and extents and clamped to the
/// frame, so chroma subsampling stays aligned.
pub fn detect_crop(y_data: &Vec<u8>, stride: usize, width: u32, height: u32) -> (r: CropRect)
    requires
        stride <= 0x7FFFFFFF,
        width <= 0x7FFFFFFF,
        height <= 0x7FFFFFFF,
    ensures
        r == spec_detect_crop(y_data@, stride as int, width, height),
        (r.x == 0 && r.y == 0 && r.width == width && r.height == height)
        || ({
            &&& r.x % 2 == 0 && r.y % 2 == 0
            &&& r.width % 2 == 0 && r.height % 2 == 0
            &&& 2 <= r.width && 2 <= r.height
            &&& r.x + r.width <= width
            &&& r.y + r.height <= height
        }),
{
    if width == 0 || height == 0 {
        return CropRect::full(width, height);
    }
    let w: usize = width as usize;
    let h: usize = height as usize;
    // At least ten percent of the sampled positions must light up.
    let row_samples: usize = (w + 9) / 10;
    let col_samples: usize = (h + 9) / 10;
    let required_row: usize = (row_samples + 9) / 10;
    let required_col: usize = (col_samples + 9) / 10;

    let ghost req_row = (spec_samples(width as int) + 9) / 10;
    let ghost req_col = (spec_samples(height as int) + 9) / 10;
    proof {
        assert(required_row as int == req_row);
        assert(required_col as int == req_col);
    }
    let mut top: u32 = 0;
    let mut y: usize = 0;
    while y < h
        invariant_except_break
            y <= h,
            top == 0,
            spec_scan_top(y_data@, stride as int, w as int, req_row, 0, h as int)
                == spec_scan_top(y_data@, stride as int, w as int, req_row, y as int, h as int),
        invariant
            1 <= h <= 0x7FFFFFFF,
            stride <= 0x7FFFFFFF,
            1 <= w <= 0x7FFFFFFF,
            h == height,
            w == width,
            required_row == req_row,
        ensures
            top < height,
            top as int == spec_scan_top(y_data@, stride as int, w as int, req_row,
                0, h as int),
        decreases h - y,
    {
        if row_is_active(y_data, stride, w, y, required_row) {
            top = y as u32;
            proof {
                assert(spec_scan_top(y_data@, stride as int, w as int, req_row,
                    y as int, h as int) == y as int);
            }
            break;
        }
        proof {
            assert(spec_scan_top(y_data@, stride as int, w as int, req_row,
                y as int, h as int)
                == spec_scan_top(y_data@, stride as int, w as int, req_row,
                    y as int + 1, h as int));
        }
        y = y + 1;
    }
    let mut bottom: u32 = height - 1;
    let mut yb: usize = h;
    while yb > 0
        invariant_except_break
            yb <= h,
            bottom == height - 1,
            spec_scan_bottom(y_data@, stride as int, w as int, req_row,
                h as int - 1, h as int)
                == spec_scan_bottom(y_data@, stride as int, w as int, req_row,
                    yb as int - 1, h as int),
        invariant
            h <= 0x7FFFFFFF,
            stride <= 0x7FFFFFFF,
            w <= 0x7FFFFFFF,
            h == height,
            w == width,
            required_row == req_row,
            bottom < height,
        ensures
            bottom < height,
            bottom as int == spec_scan_bottom(y_data@, stride as int, w as int,
                req_row, h as int - 1, h as int),
        decreases yb,
    {
        yb = yb - 1;
        if row_is_active(y_data, stride, w, yb, required_row) {
            bottom = yb as u32;
            proof {
                assert(spec_scan_bottom(y_data@, stride as int, w as int, req_row,
                    yb as int, h as int) == yb as int);
            }
            break;
        }
        proof {
            assert(spec_scan_bottom(y_data@, stride as int, w as int, req_row,
                yb as int, h as int)
                == spec_scan_bottom(y_data@, stride as int, w as int, req_row,
                    yb as int - 1, h as int));
        }
    }
    let mut left: u32 = 0;
    let mut x: usize = 0;
    while x < w
        invariant_except_break
            x <= w,
            left == 0,
            spec_scan_left(y_data@, stride as int, h as int, req_col, 0, w as int)
                == spec_scan_left(y_data@, stride as int, h as int, req_col,
                    x as int, w as int),
        invariant
            1 <= h <= 0x7FFFFFFF,
            stride <= 0x7FFFFFFF,
            1 <= w <= 0x7FFFFFFF,
            w == width,
            h == height,
            required_col == req_col,
        ensures
            left < width,
            left as int == spec_scan_left(y_data@, stride as int, h as int, req_col,
                0, w as int),
        decreases w - x,
    {
        if col_is_active(y_data, stride, h, x, required_col) {
            left = x as u32;
            proof {
                assert(spec_scan_left(y_data@, stride as int, h as int, req_col,
                    x as int, w as int) == x as int);
            }
            break;
        }
        proof {
            assert(spec_scan_left(y_data@, stride as int, h as int, req_col,
                x as int, w as int)
                == spec_scan_left(y_data@, stride as int, h as int, req_col,
                    x as int + 1, w as int));
        }
        x = x + 1;
    }
    let mut right: u32 = width - 1;
    let mut xr: usize = w;
    while xr > 0
        invariant_except_break
            xr <= w,
            right == width - 1,
            spec_scan_right(y_data@, stride as int, h as int, req_col,
                w as int - 1, w as int)
                == spec_scan_right(y_data@, stride as int, h as int, req_col,
                    xr as int - 1, w as int),
        invariant
            h <= 0x7FFFFFFF,
            stride <= 0x7FFFFFFF,
            w <= 0x7FFFFFFF,
            w == width,
            h == height,
            required_col == req_col,
            right < width,
        ensures
            right < width,
            right as int == spec_scan_right(y_data@, stride as int, h as int,
                req_col, w as int - 1, w as int),
        decreases xr,
    {
        xr = xr - 1;
        if col_is_active(y_data, stride, h, xr, required_col) {
            right = xr as u32;
            proof {
                assert(spec_scan_right(y_data@, stride as int, h as int, req_col,
                    xr as int, w as int) == xr as int);
            }
            break;
        }
        proof {
            assert(spec_scan_right(y_data@, stride as int, h as int, req_col,
                xr as int, w as int)
                == spec_scan_right(y_data@, stride as int, h as int, req_col,
                    xr as int - 1, w as int));
        }
    }
    if right <= left || bottom <= top {
        return CropRect::full(width, height);
    }
    // Round to even coordinates and clamp inside the frame.
    let mut x0: u32 = round_down_even(left);
    let mut y0: u32 = round_down_even(top);
    let w1: u32 = right - x0 + 1;
    let h1: u32 = bottom - y0 + 1;
    let mut cw: u32 = round_len_even(if w1 >= 2 { w1 } else { 2 });
    let mut ch: u32 = round_len_even(if h1 >= 2 { h1 } else { 2 });
    if x0 + cw > width {
        if width >= cw {
            x0 = width - cw;
        } else {
            x0 = 0;
            cw = width - width % 2;
        }
    }
    if y0 + ch > height {
        if height >= ch {
            y0 = height - ch;
        } else {
            y0 = 0;
            ch = height - height % 2;
        }
    }
    if cw < 2 || ch < 2 {
        return CropRect::full(width, height);
    }
    proof {
        assert(x0 % 2 == 0);
        assert(y0 % 2 == 0);
    }
    CropRect { x: x0, y: y0, width: cw, height: ch }
}

} // verus!
