//! Per-frame analysis: decode 10-bit luma rows into the v5 luminance
//! histogram and peak, derive the hue histogram from the chroma planes,
//! and optionally denoise the luma plane first.

use vstd::prelude::*;
use rayon::iter::{IntoParallelIterator, ParallelIterator};
use crate::FrameRecord;
use crate::crop::CropRect;
use crate::histogram::normalize_histogram;
use crate::codec::{SDR_PEAK_MICRO_PQ, avg_pq_mid_bin};
use crate::pq::nits_to_pq;
use crate::hlg::hlg_signal_to_nits;
use crate::{hist_sum, lemma_hist_sum_extend, lemma_hist_sum_full};

verus! {

/// What one row of analysis reports: a local histogram of bin counts, the
/// row's peak PQ, and how many pixels were actually read.
pub open spec fn row_stats_ok(hist: Seq<u32>, max_pq: u32, count: u32, span: int) -> bool {
    &&& hist.len() == 256
    &&& hist_sum(hist) == count
    &&& count <= span
    &&& max_pq <= crate::PQ_ONE
    &&& forall|i: int| 0 <= i < hist.len() ==> #[trigger] hist[i] <= count
}

/// Whether the two bytes of pixel `(x, row)` lie inside the plane.
pub open spec fn spec_pixel_in_plane(data: Seq<u8>, stride: int, x: int, row: int) -> bool {
    row * stride + 2 * x + 1 < data.len()
}

/// The PQ value the analyzer reads at pixel `(x, row)`.
pub open spec fn spec_pixel_pq(
    data: Seq<u8>, stride: int, x: int, row: int, use_hlg: bool, peak: int,
) -> int {
    spec_pq_of_code(crate::crop::spec_read_luma10(data, stride, x, row), use_hlg, peak)
}

/// How many pixels of the row span `[x_start, x_end)` are inside the plane
/// and fall into luminance bin `bin`.
pub open spec fn spec_row_bin_count(
    data: Seq<u8>, stride: int, row: int, x_start: int, x_end: int,
    use_hlg: bool, peak: int, bin: int,
) -> int
    decreases x_end - x_start,
{
    if x_start >= x_end {
        0
    } else {
        spec_row_bin_count(data, stride, row, x_start, x_end - 1, use_hlg, peak, bin)
            + if spec_pixel_in_plane(data, stride, x_end - 1, row)
                && spec_lum_bin(spec_pixel_pq(data, stride, x_end - 1, row, use_hlg, peak))
                    == bin {
                1int
            } else {
                0int
            }
    }
}

/// The peak PQ over the in-plane pixels of the row span, or 0 when none.
pub open spec fn spec_row_max_pq(
    data: Seq<u8>, stride: int, row: int, x_start: int, x_end: int,
    use_hlg: bool, peak: int,
) -> int
    decreases x_end - x_start,
{
    if x_start >= x_end {
        0
    } else {
        let rest = spec_row_max_pq(data, stride, row, x_start, x_end - 1, use_hlg, peak);
        if spec_pixel_in_plane(data, stride, x_end - 1, row) {
            let p = spec_pixel_pq(data, stride, x_end - 1, row, use_hlg, peak);
            if p > rest { p } else { rest }
        } else {
            rest
        }
    }
}

/// How many pixels of the row span lie inside the plane.
pub open spec fn spec_row_pixels(
    data: Seq<u8>, stride: int, row: int, x_start: int, x_end: int,
) -> int
    decreases x_end - x_start,
{
    if x_start >= x_end {
        0
    } else {
        spec_row_pixels(data, stride, row, x_start, x_end - 1)
            + if spec_pixel_in_plane(data, stride, x_end - 1, row) { 1int } else { 0int }
    }
}

/// Bin count over the rectangle of rows `[y_start, y_cur)`.
pub open spec fn spec_rect_bin_count(
    data: Seq<u8>, stride: int, y_start: int, y_cur: int, x_start: int, x_end: int,
    use_hlg: bool, peak: int, bin: int,
) -> int
    decreases y_cur - y_start,
{
    if y_start >= y_cur {
        0
    } else {
        spec_rect_bin_count(data, stride, y_start, y_cur - 1, x_start, x_end,
            use_hlg, peak, bin)
            + spec_row_bin_count(data, stride, y_cur - 1, x_start, x_end, use_hlg, peak, bin)
    }
}

/// Peak PQ over the rectangle of rows `[y_start, y_cur)`.
pub open spec fn spec_rect_max_pq(
    data: Seq<u8>, stride: int, y_start: int, y_cur: int, x_start: int, x_end: int,
    use_hlg: bool, peak: int,
) -> int
    decreases y_cur - y_start,
{
    if y_start >= y_cur {
        0
    } else {
        let rest = spec_rect_max_pq(data, stride, y_start, y_cur - 1, x_start, x_end,
            use_hlg, peak);
        let rm = spec_row_max_pq(data, stride, y_cur - 1, x_start, x_end, use_hlg, peak);
        if rm > rest { rm } else { rest }
    }
}

/// In-plane pixels over the rectangle of rows `[y_start, y_cur)`.
pub open spec fn spec_rect_pixels(
    data: Seq<u8>, stride: int, y_start: int, y_cur: int, x_start: int, x_end: int,
) -> int
    decreases y_cur - y_start,
{
    if y_start >= y_cur {
        0
    } else {
        spec_rect_pixels(data, stride, y_start, y_cur - 1, x_start, x_end)
            + spec_row_pixels(data, stride, y_cur - 1, x_start, x_end)
    }
}

/// The row result is exactly the per-pixel analysis of its span.
pub open spec fn row_stats_exact(
    hist: Seq<u32>, max_pq: u32, count: u32, data: Seq<u8>, stride: int, row: int,
    x_start: int, x_end: int, use_hlg: bool, peak: int,
) -> bool {
    &&& (forall|b: int| 0 <= b < 256 ==> #[trigger] hist[b]
            == spec_row_bin_count(data, stride, row, x_start, x_end, use_hlg, peak, b))
    &&& max_pq == spec_row_max_pq(data, stride, row, x_start, x_end, use_hlg, peak)
    &&& count == spec_row_pixels(data, stride, row, x_start, x_end)
}

/// The luminance histogram bin of a PQ value under the v5 layout: 64 linear
/// bins below the 100-nit anchor, 192 above, clamped to the top bin.
pub fn lum_bin_of_pq(micro_pq: u32) -> (r: usize)
    requires
        micro_pq <= crate::PQ_ONE,
    ensures
        r == spec_lum_bin(micro_pq as int),
        r < 256,
{
    if micro_pq < SDR_PEAK_MICRO_PQ {
        let b: u64 = (micro_pq as u64) * 64 / (SDR_PEAK_MICRO_PQ as u64);
        proof {
            assert((micro_pq as int) * 64 / (SDR_PEAK_MICRO_PQ as int) < 256)
                by (nonlinear_arith)
                requires micro_pq < SDR_PEAK_MICRO_PQ as u32, SDR_PEAK_MICRO_PQ == 508078u32;
        }
        if b >= 255 {
            255
        } else {
            b as usize
        }
    } else {
        let b: u64 = 64 + ((micro_pq - SDR_PEAK_MICRO_PQ) as u64) * 192
            / ((1_000_000 - SDR_PEAK_MICRO_PQ) as u64);
        if b >= 255 {
            255
        } else {
            b as usize
        }
    }
}

/// The PQ value of one 10-bit luma code: limited-range normalization, then
/// either the HLG conversion through absolute light or the value read as a
/// PQ signal directly.
pub fn pq_of_code(code10: u16, use_hlg: bool, hlg_peak_millinits: u64) -> (r: u32)
    ensures
        r == spec_pq_of_code(code10 as int, use_hlg, hlg_peak_millinits as int),
        r <= crate::PQ_ONE,
{
    let code: u32 = (code10 % 1024) as u32;
    let norm: u32 = if code <= 64 {
        0
    } else {
        let n: u64 = ((code - 64) as u64) * 1_000_000 / 876;
        if n > 1_000_000 {
            1_000_000
        } else {
            n as u32
        }
    };
    if use_hlg {
        let millinits: u64 = hlg_signal_to_nits(norm, hlg_peak_millinits);
        nits_to_pq(millinits)
    } else {
        norm
    }
}

/// Analyze one luma row inside the crop: build a 256-bin count histogram
/// and track the row peak.  Pixels past the end of the buffer are skipped.
pub fn analyze_row(
    y_data: &Vec<u8>,
    y_stride: usize,
    row: usize,
    x_start: usize,
    x_end: usize,
    use_hlg: bool,
    hlg_peak_millinits: u64,
) -> (r: (Vec<u32>, u32, u32))
    requires
        y_stride <= 0x7FFFFFFF,
        row <= 0x7FFFFFFF,
        x_start <= x_end,
        x_end <= 0x7FFFFFFF,
    ensures
        row_stats_ok(r.0@, r.1, r.2, x_end - x_start),
        row_stats_exact(r.0@, r.1, r.2, y_data@, y_stride as int, row as int,
            x_start as int, x_end as int, use_hlg, hlg_peak_millinits as int),
{
    let mut hist: Vec<u32> = Vec::new();
    let mut i: usize = 0;
    while i < 256
        invariant
            i <= 256,
            hist@.len() == i,
            forall|t: int| 0 <= t < hist@.len() ==> #[trigger] hist@[t] == 0,
        decreases 256 - i,
    {
        hist.push(0);
        i = i + 1;
    }
    proof {
        lemma_zero_hist_sum(hist@);
    }
    let mut max_pq: u32 = 0;
    let mut count: u32 = 0;
    let mut x: usize = x_start;
    while x < x_end
        invariant
            x_start <= x <= x_end,
            x_end <= 0x7FFFFFFF,
            y_stride <= 0x7FFFFFFF,
            row <= 0x7FFFFFFF,
            hist@.len() == 256,
            hist_sum(hist@) == count,
            count <= x - x_start,
            max_pq <= crate::PQ_ONE,
            forall|t: int| 0 <= t < hist@.len() ==> #[trigger] hist@[t] <= count,
            forall|b: int| 0 <= b < 256 ==> #[trigger] hist@[b]
                == spec_row_bin_count(y_data@, y_stride as int, row as int,
                    x_start as int, x as int, use_hlg, hlg_peak_millinits as int, b),
            max_pq == spec_row_max_pq(y_data@, y_stride as int, row as int,
                x_start as int, x as int, use_hlg, hlg_peak_millinits as int),
            count == spec_row_pixels(y_data@, y_stride as int, row as int,
                x_start as int, x as int),
        decreases x_end - x,
    {
        let code: u16 = crate::crop::read_luma10(y_data, y_stride, x, row);
        // An out-of-buffer read comes back as code 0; count it only when the
        // sample is really inside the plane.
        let n: usize = y_data.len();
        proof {
            assert((row as int) * (y_stride as int) <= 0x7FFFFFFF * 0x7FFFFFFF)
                by (nonlinear_arith)
                requires row <= 0x7FFFFFFFusize, y_stride <= 0x7FFFFFFFusize;
            assert((row as int) * (y_stride as int) >= 0) by (nonlinear_arith)
                requires row >= 0, y_stride >= 0;
        }
        let off128: u128 = (row as u128) * (y_stride as u128) + 2 * (x as u128);
        let ghost in_plane = spec_pixel_in_plane(y_data@, y_stride as int, x as int, row as int);
        proof {
            assert(in_plane <==> off128 + 1 < n as u128);
        }
        if off128 + 1 < n as u128 {
            let pq: u32 = pq_of_code(code, use_hlg, hlg_peak_millinits);
            proof {
                assert(pq == spec_pixel_pq(y_data@, y_stride as int, x as int, row as int,
                    use_hlg, hlg_peak_millinits as int));
            }
            if pq > max_pq {
                max_pq = pq;
            }
            let bin: usize = lum_bin_of_pq(pq);
            let ghost pre = hist@;
            let old_v: u32 = hist[bin];
            hist.set(bin, old_v + 1);
            count = count + 1;
            proof {
                lemma_hist_sum_set_incr(pre, hist@, bin as int);
                // Each bin's count extends by this pixel's contribution.
                assert forall|b: int| 0 <= b < 256 implies #[trigger] hist@[b]
                    == spec_row_bin_count(y_data@, y_stride as int, row as int,
                        x_start as int, x as int + 1, use_hlg,
                        hlg_peak_millinits as int, b) by {
                    if b == bin as int {
                        assert(hist@[b] == pre[b] + 1);
                    } else {
                        assert(hist@[b] == pre[b]);
                    }
                }
            }
        } else {
            proof {
                assert forall|b: int| 0 <= b < 256 implies #[trigger] hist@[b]
                    == spec_row_bin_count(y_data@, y_stride as int, row as int,
                        x_start as int, x as int + 1, use_hlg,
                        hlg_peak_millinits as int, b) by {
                }
            }
        }
        x = x + 1;
    }
    (hist, max_pq, count)
}

/// A freshly zeroed histogram sums to zero.
proof fn lemma_zero_hist_sum(h: Seq<u32>)
    requires
        forall|t: int| 0 <= t < h.len() ==> #[trigger] h[t] == 0,
    ensures
        hist_sum(h) == 0,
    decreases h.len(),
{
    if h.len() > 0 {
        lemma_zero_hist_sum(h.drop_last());
    }
}

/// Incrementing one bin increments the histogram sum.
proof fn lemma_hist_sum_set_incr(pre: Seq<u32>, post: Seq<u32>, bin: int)
    requires
        0 <= bin < pre.len(),
        post.len() == pre.len(),
        post[bin] == pre[bin] + 1,
        forall|t: int| 0 <= t < pre.len() && t != bin ==> post[t] == pre[t],
    ensures
        hist_sum(post) == hist_sum(pre) + 1,
    decreases pre.len(),
{
    if bin == pre.len() - 1 {
        assert(post.drop_last() =~= pre.drop_last());
    } else {
        lemma_hist_sum_set_incr(pre.drop_last(), post.drop_last(), bin);
        assert(post.last() == pre.last());
    }
}

/// Combine two row results: elementwise histogram sum and peak maximum.
pub fn combine_rows(
    acc_hist: &mut Vec<u32>,
    acc_max: &mut u32,
    acc_count: &mut u32,
    row: &(Vec<u32>, u32, u32),
)
    requires
        old(acc_hist)@.len() == 256,
        row.0@.len() == 256,
        *old(acc_max) <= crate::PQ_ONE,
        row.1 <= crate::PQ_ONE,
        hist_sum(old(acc_hist)@) == *old(acc_count),
        hist_sum(row.0@) == row.2,
        (*old(acc_count) as int) + (row.2 as int) <= 0xFFFFFFFF,
        forall|t: int| 0 <= t < 256 ==> #[trigger] old(acc_hist)@[t] <= *old(acc_count),
        forall|t: int| 0 <= t < 256 ==> #[trigger] row.0@[t] <= row.2,
    ensures
        final(acc_hist)@.len() == 256,
        *final(acc_max) <= crate::PQ_ONE,
        *final(acc_max) == (if row.1 > *old(acc_max) { row.1 } else { *old(acc_max) }),
        *final(acc_count) == *old(acc_count) + row.2,
        hist_sum(final(acc_hist)@) == *final(acc_count),
        forall|t: int| 0 <= t < 256 ==> #[trigger] final(acc_hist)@[t] <= *final(acc_count),
        forall|t: int| 0 <= t < 256
            ==> #[trigger] final(acc_hist)@[t] == old(acc_hist)@[t] + row.0@[t],
{
    let mut t: usize = 0;
    let ghost pre = acc_hist@;
    while t < 256
        invariant
            t <= 256,
            acc_hist@.len() == 256,
            pre.len() == 256,
            row.0@.len() == 256,
            hist_sum(pre) == *old(acc_count),
            hist_sum(row.0@) == row.2,
            (*old(acc_count) as int) + (row.2 as int) <= 0xFFFFFFFF,
            forall|w: int| 0 <= w < 256 ==> #[trigger] pre[w] <= *old(acc_count),
            forall|w: int| 0 <= w < 256 ==> #[trigger] row.0@[w] <= row.2,
            forall|w: int| t <= w < 256 ==> #[trigger] acc_hist@[w] == pre[w],
            forall|w: int| 0 <= w < t
                ==> #[trigger] acc_hist@[w] == pre[w] + row.0@[w],
            hist_sum(acc_hist@.subrange(0, t as int))
                == hist_sum(pre.subrange(0, t as int))
                    + hist_sum(row.0@.subrange(0, t as int)),
        decreases 256 - t,
    {
        proof {
            assert(acc_hist@.subrange(0, t as int) =~= acc_hist@.subrange(0, t as int));
        }
        let ghost before = acc_hist@;
        let a: u32 = acc_hist[t];
        let b: u32 = row.0[t];
        acc_hist.set(t, a + b);
        proof {
            lemma_hist_sum_extend(acc_hist@, t as int);
            lemma_hist_sum_extend(pre, t as int);
            lemma_hist_sum_extend(row.0@, t as int);
            assert(acc_hist@.subrange(0, t as int) =~= before.subrange(0, t as int));
        }
        t = t + 1;
    }
    proof {
        lemma_hist_sum_full(acc_hist@);
        lemma_hist_sum_full(pre);
        lemma_hist_sum_full(row.0@);
        assert(acc_hist@.subrange(0, 256) =~= acc_hist@);
        assert(pre.subrange(0, 256) =~= pre);
        assert(row.0@.subrange(0, 256) =~= row.0@);
    }
    if row.1 > *acc_max {
        *acc_max = row.1;
    }
    *acc_count = *acc_count + row.2;
}

/// Analyze a span of rows in parallel with a work-stealing pool.
///
/// Relies on rayon's parallel iterator `map` + `collect`, which applies the
/// given closure to every index of the range and collects the results in
/// order; the closure only calls the verified row analyzer, so every
/// element satisfies the row contract.
#[verifier::external_body]
fn analyze_rows_parallel(
    y_data: &Vec<u8>,
    y_stride: usize,
    y_start: usize,
    y_end: usize,
    x_start: usize,
    x_end: usize,
    use_hlg: bool,
    hlg_peak_millinits: u64,
) -> (r: Vec<(Vec<u32>, u32, u32)>)
    requires
        y_stride <= 0x7FFFFFFF,
        y_end <= 0x7FFFFFFF,
        x_start <= x_end,
        x_end <= 0x7FFFFFFF,
        y_start <= y_end,
    ensures
        r@.len() == y_end - y_start,
        forall|i: int| 0 <= i < r@.len()
            ==> row_stats_ok((#[trigger] r@[i]).0@, r@[i].1, r@[i].2, x_end - x_start),
        forall|i: int| 0 <= i < r@.len()
            ==> row_stats_exact((#[trigger] r@[i]).0@, r@[i].1, r@[i].2, y_data@,
                y_stride as int, y_start + i, x_start as int, x_end as int,
                use_hlg, hlg_peak_millinits as int),
{
    (y_start..y_end)
        .into_par_iter()
        .map(|row| analyze_row(y_data, y_stride, row, x_start, x_end, use_hlg, hlg_peak_millinits))
        .collect()
}

} // verus!

verus! {

/// Unit direction of hue sector boundary `k` (of 31 equal sectors around
/// the circle), as a Q30 cosine/sine pair; boundary 31 closes the circle.
fn hue_dir(k: usize) -> (r: (i64, i64))
    requires
        k <= 31,
    ensures
        r.0 == spec_hue_dir(k as int).0,
        r.1 == spec_hue_dir(k as int).1,
        -1073741824 <= r.0 <= 1073741824,
        -1073741824 <= r.1 <= 1073741824,
{
    match k {
        0 => (1073741824, 0),
        1 => (1051762266, 216142640),
        2 => (986723437, 423436375),
        3 => (881288034, 613394575),
        4 => (739772596, 778240329),
        5 => (567970781, 911224833),
        6 => (372916176, 1006903685),
        7 => (162594338, 1061359782),
        8 => (-54384131, 1072363684),
        9 => (-269136107, 1039464891),
        10 => (-472869620, 964010284),
        11 => (-657243794, 849088982),
        12 => (-814710331, 699405878),
        13 => (-938822530, 521089014),
        14 => (-1024499226, 321438706),
        15 => (-1068232802, 108628659),
        16 => (-1068232802, -108628659),
        17 => (-1024499226, -321438706),
        18 => (-938822530, -521089014),
        19 => (-814710331, -699405878),
        20 => (-657243794, -849088982),
        21 => (-472869620, -964010284),
        22 => (-269136107, -1039464891),
        23 => (-54384131, -1072363684),
        24 => (162594338, -1061359782),
        25 => (372916176, -1006903685),
        26 => (567970781, -911224833),
        27 => (739772596, -778240329),
        28 => (881288034, -613394575),
        29 => (986723437, -423436375),
        30 => (1051762266, -216142640),
        _ => (1073741824, 0),
    }
}

/// The hue sector of a chroma vector: which of the 31 equal angular bins
/// the angle `atan2(v, u)` falls into, decided exactly by cross products
/// with the sector boundaries.
pub fn hue_sector(u: i64, v: i64) -> (r: usize)
    requires
        -1024 <= u <= 1024,
        -1024 <= v <= 1024,
    ensures
        r == spec_hue_sector(u as int, v as int),
        r < 31,
{
    let mut k: usize = 0;
    while k < 30
        invariant
            k <= 30,
            -1024 <= u <= 1024,
            -1024 <= v <= 1024,
            spec_hue_sector(u as int, v as int)
                == spec_hue_scan(u as int, v as int, (30 - k) as nat),
        decreases 30 - k,
    {
        let d0: (i64, i64) = hue_dir(k);
        let d1: (i64, i64) = hue_dir(k + 1);
        proof {
            assert(d0.0 * v <= 1073741824 * 1024 && d0.0 * v >= -(1073741824 * 1024))
                by (nonlinear_arith)
                requires -1073741824 <= d0.0 <= 1073741824i64, -1024 <= v <= 1024i64;
            assert(d0.1 * u <= 1073741824 * 1024 && d0.1 * u >= -(1073741824 * 1024))
                by (nonlinear_arith)
                requires -1073741824 <= d0.1 <= 1073741824i64, -1024 <= u <= 1024i64;
            assert(u * d1.1 <= 1073741824 * 1024 && u * d1.1 >= -(1073741824 * 1024))
                by (nonlinear_arith)
                requires -1073741824 <= d1.1 <= 1073741824i64, -1024 <= u <= 1024i64;
            assert(v * d1.0 <= 1073741824 * 1024 && v * d1.0 >= -(1073741824 * 1024))
                by (nonlinear_arith)
                requires -1073741824 <= d1.0 <= 1073741824i64, -1024 <= v <= 1024i64;
        }
        let cross0: i64 = d0.0 * v - d0.1 * u;
        let cross1: i64 = u * d1.1 - v * d1.0;
        proof {
            // One unfolding of the sector scan.
            assert(spec_hue_scan(u as int, v as int, (30 - k) as nat)
                == (if (spec_hue_dir(k as int).0 * v - spec_hue_dir(k as int).1 * u >= 0
                        && u * spec_hue_dir(k as int + 1).1
                            - v * spec_hue_dir(k as int + 1).0 > 0) {
                    k as int
                } else {
                    spec_hue_scan(u as int, v as int, (30 - (k + 1)) as nat)
                }));
        }
        if cross0 >= 0 && cross1 > 0 {
            return k;
        }
        k = k + 1;
    }
    // The last sector reaches back to the positive x-axis from below.
    let d30: (i64, i64) = hue_dir(30);
    proof {
        assert(d30.0 * v <= 1073741824 * 1024 && d30.0 * v >= -(1073741824 * 1024))
            by (nonlinear_arith)
            requires -1073741824 <= d30.0 <= 1073741824i64, -1024 <= v <= 1024i64;
        assert(d30.1 * u <= 1073741824 * 1024 && d30.1 * u >= -(1073741824 * 1024))
            by (nonlinear_arith)
            requires -1073741824 <= d30.1 <= 1073741824i64, -1024 <= u <= 1024i64;
    }
    let cross0: i64 = d30.0 * v - d30.1 * u;
    if cross0 >= 0 && v < 0 {
        30
    } else {
        0
    }
}

/// The centered chroma components at a grid cell.
pub open spec fn spec_chroma_uc(u: Seq<u8>, us: int, cx: int, cy: int) -> int {
    crate::crop::spec_read_luma10(u, us, cx, cy) % 1024 - 512
}

/// Whether the chroma pair at a grid cell is readable and saturated: both
/// samples inside their planes and at least 10 away from neutral gray.
pub open spec fn spec_chroma_saturated(
    u: Seq<u8>, v: Seq<u8>, us: int, vs: int, cx: int, cy: int,
) -> bool {
    &&& cy * us + 2 * cx + 1 < u.len()
    &&& cy * vs + 2 * cx + 1 < v.len()
    &&& ({
        let uc = spec_chroma_uc(u, us, cx, cy);
        let vc = spec_chroma_uc(v, vs, cx, cy);
        uc * uc + vc * vc >= 100
    })
}

/// How many saturated cells of a chroma row land in `sector`.
pub open spec fn spec_hue_row_count(
    u: Seq<u8>, v: Seq<u8>, us: int, vs: int, cy: int, cx_start: int, cx_end: int,
    sector: int,
) -> int
    decreases cx_end - cx_start,
{
    if cx_start >= cx_end {
        0
    } else {
        spec_hue_row_count(u, v, us, vs, cy, cx_start, cx_end - 1, sector)
            + if spec_chroma_saturated(u, v, us, vs, cx_end - 1, cy)
                && spec_hue_sector(spec_chroma_uc(u, us, cx_end - 1, cy),
                    spec_chroma_uc(v, vs, cx_end - 1, cy)) == sector {
                1int
            } else {
                0int
            }
    }
}

/// How many saturated cells a chroma row holds.
pub open spec fn spec_hue_row_sat(
    u: Seq<u8>, v: Seq<u8>, us: int, vs: int, cy: int, cx_start: int, cx_end: int,
) -> int
    decreases cx_end - cx_start,
{
    if cx_start >= cx_end {
        0
    } else {
        spec_hue_row_sat(u, v, us, vs, cy, cx_start, cx_end - 1)
            + if spec_chroma_saturated(u, v, us, vs, cx_end - 1, cy) { 1int } else { 0int }
    }
}

/// Saturated cells landing in `sector` over the chroma grid rows
/// `[cy_start, cy_cur)`.
pub open spec fn spec_hue_rect_count(
    u: Seq<u8>, v: Seq<u8>, us: int, vs: int, cy_start: int, cy_cur: int,
    cx_start: int, cx_end: int, sector: int,
) -> int
    decreases cy_cur - cy_start,
{
    if cy_start >= cy_cur {
        0
    } else {
        spec_hue_rect_count(u, v, us, vs, cy_start, cy_cur - 1, cx_start, cx_end, sector)
            + spec_hue_row_count(u, v, us, vs, cy_cur - 1, cx_start, cx_end, sector)
    }
}

/// Saturated cells over the chroma grid rows `[cy_start, cy_cur)`.
pub open spec fn spec_hue_rect_sat(
    u: Seq<u8>, v: Seq<u8>, us: int, vs: int, cy_start: int, cy_cur: int,
    cx_start: int, cx_end: int,
) -> int
    decreases cy_cur - cy_start,
{
    if cy_start >= cy_cur {
        0
    } else {
        spec_hue_rect_sat(u, v, us, vs, cy_start, cy_cur - 1, cx_start, cx_end)
            + spec_hue_row_sat(u, v, us, vs, cy_cur - 1, cx_start, cx_end)
    }
}

/// Build the 31-bin hue histogram from the two chroma planes of a 4:2:0
/// frame: each saturated chroma sample (magnitude at least 10 away from
/// neutral) votes for its hue sector, and the counts are rescaled to
/// percentage units.  Near-gray samples and samples outside either plane
/// are skipped; an all-gray area yields an all-zero histogram.
pub fn compute_hue_histogram(
    u_data: &Vec<u8>,
    v_data: &Vec<u8>,
    u_stride: usize,
    v_stride: usize,
    crop: &CropRect,
) -> (r: Vec<u32>)
    requires
        u_stride <= 0x7FFFFFFF,
        v_stride <= 0x7FFFFFFF,
        crop.width <= 32768,
        crop.height <= 32768,
        crop.x <= 0x7FFFFFFF - 32768,
        crop.y <= 0x7FFFFFFF - 32768,
    ensures
        r@.len() == crate::HUE_BINS,
        forall|i: int| 0 <= i < r@.len() ==> #[trigger] r@[i] <= crate::HIST_FULL_SCALE,
        hist_sum(r@) == 0
            || 64000 - 31 <= hist_sum(r@) <= 64000 + 31,
        ({
            let cxs = crop.x as int / 2;
            let cys = crop.y as int / 2;
            let cxe = cxs + crop.width as int / 2;
            let cye = cys + crop.height as int / 2;
            let total = spec_hue_rect_sat(u_data@, v_data@, u_stride as int,
                v_stride as int, cys, cye, cxs, cxe);
            &&& (total == 0 ==> forall|sct: int| 0 <= sct < 31
                    ==> r@[sct] == spec_hue_rect_count(u_data@, v_data@, u_stride as int,
                        v_stride as int, cys, cye, cxs, cxe, sct))
            &&& (total > 0 ==> forall|sct: int| 0 <= sct < 31
                    ==> r@[sct] == crate::histogram::spec_rescaled_int(
                        spec_hue_rect_count(u_data@, v_data@, u_stride as int,
                            v_stride as int, cys, cye, cxs, cxe, sct), total))
        }),
{
    let mut hist: Vec<u32> = Vec::new();
    let mut i: usize = 0;
    while i < 31
        invariant
            i <= 31,
            hist@.len() == i,
            forall|t: int| 0 <= t < hist@.len() ==> #[trigger] hist@[t] == 0,
        decreases 31 - i,
    {
        hist.push(0);
        i = i + 1;
    }
    proof {
        lemma_zero_hist_sum(hist@);
    }
    let cx_start: usize = (crop.x / 2) as usize;
    let cy_start: usize = (crop.y / 2) as usize;
    let cx_end: usize = cx_start + (crop.width / 2) as usize;
    let cy_end: usize = cy_start + (crop.height / 2) as usize;
    let mut count: u32 = 0;
    let mut cy: usize = cy_start;
    while cy < cy_end
        invariant
            cy_start <= cy <= cy_end || cy == cy_start,
            cy_end <= 0x7FFFFFFF,
            cx_start <= cx_end,
            cx_end - cx_start <= 16384,
            cy_end - cy_start <= 16384,
            cx_end <= 0x7FFFFFFF,
            u_stride <= 0x7FFFFFFF,
            v_stride <= 0x7FFFFFFF,
            hist@.len() == 31,
            hist_sum(hist@) == count,
            forall|t: int| 0 <= t < hist@.len() ==> #[trigger] hist@[t] <= count,
            count <= (cy - cy_start) * 16384,
            forall|sct: int| 0 <= sct < 31 ==> #[trigger] hist@[sct]
                == spec_hue_rect_count(u_data@, v_data@, u_stride as int, v_stride as int,
                    cy_start as int, cy as int, cx_start as int, cx_end as int, sct),
            count == spec_hue_rect_sat(u_data@, v_data@, u_stride as int, v_stride as int,
                cy_start as int, cy as int, cx_start as int, cx_end as int),
        decreases cy_end - cy,
    {
        let mut cx: usize = cx_start;
        while cx < cx_end
            invariant
                cx_start <= cx <= cx_end,
                cx_end - cx_start <= 16384,
                cy_end - cy_start <= 16384,
                cy_start <= cy < cy_end,
                cx_end <= 0x7FFFFFFF,
                cy <= 0x7FFFFFFF,
                u_stride <= 0x7FFFFFFF,
                v_stride <= 0x7FFFFFFF,
                hist@.len() == 31,
                hist_sum(hist@) == count,
                forall|t: int| 0 <= t < hist@.len() ==> #[trigger] hist@[t] <= count,
                count <= (cy - cy_start) * 16384 + (cx - cx_start),
                forall|sct: int| 0 <= sct < 31 ==> #[trigger] hist@[sct]
                    == spec_hue_rect_count(u_data@, v_data@, u_stride as int,
                        v_stride as int, cy_start as int, cy as int,
                        cx_start as int, cx_end as int, sct)
                        + spec_hue_row_count(u_data@, v_data@, u_stride as int,
                            v_stride as int, cy as int, cx_start as int, cx as int, sct),
                count == spec_hue_rect_sat(u_data@, v_data@, u_stride as int,
                    v_stride as int, cy_start as int, cy as int,
                    cx_start as int, cx_end as int)
                    + spec_hue_row_sat(u_data@, v_data@, u_stride as int, v_stride as int,
                        cy as int, cx_start as int, cx as int),
            decreases cx_end - cx,
        {
            proof {
                assert((cy - cy_start) * 16384 + 16384 <= 16384 * 16384)
                    by (nonlinear_arith)
                    requires 0 <= cy - cy_start < 16384;
                assert((cy as int) * (u_stride as int) <= 0x7FFFFFFF * 0x7FFFFFFF)
                    by (nonlinear_arith)
                    requires cy <= 0x7FFFFFFFusize, u_stride <= 0x7FFFFFFFusize;
                assert((cy as int) * (u_stride as int) >= 0) by (nonlinear_arith)
                    requires cy >= 0, u_stride >= 0;
                assert((cy as int) * (v_stride as int) <= 0x7FFFFFFF * 0x7FFFFFFF)
                    by (nonlinear_arith)
                    requires cy <= 0x7FFFFFFFusize, v_stride <= 0x7FFFFFFFusize;
                assert((cy as int) * (v_stride as int) >= 0) by (nonlinear_arith)
                    requires cy >= 0, v_stride >= 0;
            }
            let un: usize = u_data.len();
            let vn: usize = v_data.len();
            let u_off: u128 = (cy as u128) * (u_stride as u128) + 2 * (cx as u128);
            let v_off: u128 = (cy as u128) * (v_stride as u128) + 2 * (cx as u128);
            if u_off + 1 < un as u128 && v_off + 1 < vn as u128 {
                let u_code: u16 = crate::crop::read_luma10(u_data, u_stride, cx, cy);
                let v_code: u16 = crate::crop::read_luma10(v_data, v_stride, cx, cy);
                let uc: i64 = (u_code % 1024) as i64 - 512;
                let vc: i64 = (v_code % 1024) as i64 - 512;
                proof {
                    assert(uc * uc <= 1024 * 1024 && uc * uc >= 0) by (nonlinear_arith)
                        requires -1024 <= uc <= 1024i64;
                    assert(vc * vc <= 1024 * 1024 && vc * vc >= 0) by (nonlinear_arith)
                        requires -1024 <= vc <= 1024i64;
                    assert(uc == spec_chroma_uc(u_data@, u_stride as int, cx as int, cy as int));
                    assert(vc == spec_chroma_uc(v_data@, v_stride as int, cx as int, cy as int));
                }
                let mag2: i64 = uc * uc + vc * vc;
                // Magnitude below 10 means a near-gray pixel.
                if mag2 >= 100 {
                    proof {
                        assert(spec_chroma_saturated(u_data@, v_data@, u_stride as int,
                            v_stride as int, cx as int, cy as int));
                    }
                    let bin: usize = hue_sector(uc, vc);
                    let ghost pre = hist@;
                    let old_v: u32 = hist[bin];
                    hist.set(bin, old_v + 1);
                    count = count + 1;
                    proof {
                        lemma_hist_sum_set_incr(pre, hist@, bin as int);
                        assert forall|sct: int| 0 <= sct < 31 implies #[trigger] hist@[sct]
                            == spec_hue_rect_count(u_data@, v_data@, u_stride as int,
                                v_stride as int, cy_start as int, cy as int,
                                cx_start as int, cx_end as int, sct)
                                + spec_hue_row_count(u_data@, v_data@, u_stride as int,
                                    v_stride as int, cy as int, cx_start as int,
                                    cx as int + 1, sct) by {
                            if sct == bin as int {
                                assert(hist@[sct] == pre[sct] + 1);
                            } else {
                                assert(hist@[sct] == pre[sct]);
                            }
                        }
                    }
                } else {
                    proof {
                        assert(!spec_chroma_saturated(u_data@, v_data@, u_stride as int,
                            v_stride as int, cx as int, cy as int));
                    }
                }
            } else {
                proof {
                    assert(!spec_chroma_saturated(u_data@, v_data@, u_stride as int,
                        v_stride as int, cx as int, cy as int));
                }
            }
            cx = cx + 1;
        }
        cy = cy + 1;
    }
    let ghost counted = hist@;
    proof {
        crate::lemma_hist_sum_nonneg(counted);
    }
    normalize_histogram(&mut hist);
    proof {
        if hist_sum(counted) == 0 {
            lemma_all_bins_le_sum_zero(counted, hist@);
        }
    }
    hist
}

/// If the pre-normalization histogram was empty, it stayed unchanged, so
/// every bin is zero and within scale.
proof fn lemma_all_bins_le_sum_zero(pre: Seq<u32>, post: Seq<u32>)
    requires
        crate::hist_sum(pre) == 0,
        post =~= pre,
        forall|t: int| 0 <= t < pre.len() ==> #[trigger] pre[t] <= crate::hist_sum(pre),
    ensures
        forall|t: int| 0 <= t < post.len() ==> #[trigger] post[t] <= 64000,
        crate::hist_sum(post) == 0,
{
}

} // verus!

verus! {

/// One cell's contribution to a 3x3 neighborhood: the 10-bit code when the
/// sample lies inside the plane, nothing otherwise.
pub open spec fn spec_nb_cell(
    data: Seq<u8>, stride: int, x: int, y: int, dy: int, dx: int,
) -> Seq<u32> {
    if spec_pixel_in_plane(data, stride, x + dx - 1, y + dy - 1) {
        seq![(crate::crop::spec_read_luma10(data, stride, x + dx - 1, y + dy - 1)
            % 1024) as u32]
    } else {
        Seq::<u32>::empty()
    }
}

/// The first `dxn` cells of one neighborhood row.
pub open spec fn spec_nb_row(
    data: Seq<u8>, stride: int, x: int, y: int, dy: int, dxn: int,
) -> Seq<u32>
    decreases dxn,
{
    if dxn <= 0 {
        Seq::<u32>::empty()
    } else {
        spec_nb_row(data, stride, x, y, dy, dxn - 1)
            + spec_nb_cell(data, stride, x, y, dy, dxn - 1)
    }
}

/// The in-plane codes of the 3x3 neighborhood around `(x, y)`, gathered
/// row by row.
pub open spec fn spec_neighbors(
    data: Seq<u8>, stride: int, x: int, y: int, dyn_: int,
) -> Seq<u32>
    decreases dyn_,
{
    if dyn_ <= 0 {
        Seq::<u32>::empty()
    } else {
        spec_neighbors(data, stride, x, y, dyn_ - 1)
            + spec_nb_row(data, stride, x, y, dyn_ - 1, 3)
    }
}

/// The median 10-bit code of the 3x3 neighborhood around `(x, y)`: the
/// middle entry of the one ascending ordering of the in-plane codes.
pub open spec fn spec_median3x3(data: Seq<u8>, stride: int, x: int, y: int) -> u32 {
    let nb = spec_neighbors(data, stride, x, y, 3);
    let t = choose|t: Seq<u32>| t.to_multiset() == nb.to_multiset()
        && crate::histogram::spec_sorted_u32(t);
    t[t.len() as int / 2]
}

/// The median 10-bit code of the 3x3 neighborhood around `(x, y)`: the
/// middle entry of the sorted in-plane codes, or nothing when the whole
/// neighborhood lies outside the plane.
pub fn median3x3_code(y_data: &Vec<u8>, stride: usize, x: usize, y: usize) -> (r: Option<u32>)
    requires
        stride <= 0x7FFFFFFF,
        1 <= x <= 0x7FFFFFFE,
        1 <= y <= 0x7FFFFFFE,
    ensures
        r is Some <==> spec_neighbors(y_data@, stride as int, x as int, y as int, 3).len() > 0,
        r is Some ==> exists|s: Seq<u32>| {
            &&& #[trigger] s.to_multiset()
                == spec_neighbors(y_data@, stride as int, x as int, y as int, 3).to_multiset()
            &&& (forall|a: int, b: int| 0 <= a < b < s.len() ==> s[a] <= s[b])
            &&& r->0 == s[s.len() as int / 2]
        },
        r is Some ==> r->0 == spec_median3x3(y_data@, stride as int, x as int, y as int),
{
    // Gather the 3x3 neighborhood that lies inside the plane.
    let mut neighbors: Vec<u32> = Vec::new();
    let mut dy: usize = 0;
    while dy < 3
        invariant
            dy <= 3,
            1 <= x <= 0x7FFFFFFE,
            1 <= y <= 0x7FFFFFFE,
            stride <= 0x7FFFFFFF,
            neighbors@ == spec_neighbors(y_data@, stride as int, x as int, y as int, dy as int),
            neighbors@.len() <= dy * 3,
        decreases 3 - dy,
    {
        let mut dx: usize = 0;
        while dx < 3
            invariant
                dx <= 3,
                1 <= x <= 0x7FFFFFFE,
                1 <= y <= 0x7FFFFFFE,
                stride <= 0x7FFFFFFF,
                dy < 3,
                neighbors@ == spec_neighbors(y_data@, stride as int, x as int, y as int,
                        dy as int)
                    + spec_nb_row(y_data@, stride as int, x as int, y as int,
                        dy as int, dx as int),
                neighbors@.len() <= dy * 3 + dx,
            decreases 3 - dx,
        {
            let ny: usize = y + dy - 1;
            let nx: usize = x + dx - 1;
            let n: usize = y_data.len();
            proof {
                assert((ny as int) * (stride as int) <= 0x80000000 * 0x7FFFFFFF)
                    by (nonlinear_arith)
                    requires ny <= 0x80000000usize, stride <= 0x7FFFFFFFusize;
                assert((ny as int) * (stride as int) >= 0) by (nonlinear_arith)
                    requires ny >= 0, stride >= 0;
            }
            let off: u128 = (ny as u128) * (stride as u128) + 2 * (nx as u128);
            let ghost pre_nb = neighbors@;
            if off + 1 < n as u128 {
                let code: u16 = crate::crop::read_luma10(y_data, stride, nx, ny);
                neighbors.push((code % 1024) as u32);
            }
            proof {
                assert(neighbors@ =~= spec_neighbors(y_data@, stride as int, x as int,
                        y as int, dy as int)
                    + spec_nb_row(y_data@, stride as int, x as int, y as int,
                        dy as int, dx as int + 1));
            }
            dx = dx + 1;
        }
        proof {
            assert(neighbors@ =~= spec_neighbors(y_data@, stride as int, x as int,
                y as int, dy as int + 1)
                + spec_nb_row(y_data@, stride as int, x as int, y as int,
                    dy as int + 1, 0));
        }
        dy = dy + 1;
    }
    proof {
        assert(neighbors@ =~= spec_neighbors(y_data@, stride as int, x as int, y as int, 3));
    }
    if neighbors.len() > 0 {
        let ghost collected = neighbors@;
        crate::histogram::sort_u32(&mut neighbors);
        let median: u32 = neighbors[neighbors.len() / 2];
        proof {
            // The sorted copy witnesses the median selection.
            assert(neighbors@.to_multiset()
                == spec_neighbors(y_data@, stride as int, x as int, y as int, 3)
                    .to_multiset());
            assert(median == neighbors@[neighbors@.len() as int / 2]);
            // The ascending ordering of a multiset is unique, so the
            // chosen ordering is the sorted buffer itself.
            let nb = spec_neighbors(y_data@, stride as int, x as int, y as int, 3);
            let t = choose|t: Seq<u32>| t.to_multiset() == nb.to_multiset()
                && crate::histogram::spec_sorted_u32(t);
            assert(neighbors@.to_multiset() == nb.to_multiset()
                && crate::histogram::spec_sorted_u32(neighbors@));
            assert(t.to_multiset() == nb.to_multiset()
                && crate::histogram::spec_sorted_u32(t));
            crate::scene::lemma_sorted_unique(t, neighbors@);
            assert(t =~= neighbors@);
            assert(median == spec_median3x3(y_data@, stride as int, x as int, y as int));
        }
        Option::Some(median)
    } else {
        Option::None
    }
}

/// The bytes the denoise pass writes: both bytes of every interior sample
/// of the crop whose 3x3 neighborhood reaches into the plane, with the
/// interior columns in `(x0, x1 - 1)` and the interior rows in `(y0, y1)`.
pub open spec fn spec_denoise_written(
    data: Seq<u8>, stride: int, x0: int, x1: int, y0: int, y1: int, i: int,
) -> bool {
    exists|x: int, y: int| {
        &&& x0 < x && x + 1 < x1
        &&& y0 < y && y < y1
        &&& (#[trigger] spec_neighbors(data, stride, x, y, 3)).len() > 0
        &&& y * stride + 2 * x + 1 < data.len()
        &&& (i == y * stride + 2 * x || i == y * stride + 2 * x + 1)
    }
}

/// What the denoise pass guarantees of its output plane: every byte
/// outside the written samples is unchanged, and when the rows cannot
/// overlap each written sample holds its neighborhood median in the
/// plane's two-byte layout.
pub open spec fn spec_denoised_plane(
    orig: Seq<u8>, plane: Seq<u8>, stride: int, crop: CropRect,
) -> bool {
    &&& plane.len() == orig.len()
    &&& (forall|i: int| 0 <= i < orig.len()
            && !spec_denoise_written(orig, stride, crop.x as int,
                crop.x + crop.width, crop.y as int, crop.y + crop.height - 1, i)
            ==> #[trigger] plane[i] == orig[i])
    &&& (stride >= 2 * (crop.x + crop.width) ==> forall|x: int, y: int|
            crop.x < x && x + 1 < crop.x + crop.width
                && crop.y < y && y < crop.y + crop.height - 1
                && (#[trigger] spec_neighbors(orig, stride, x, y, 3)).len() > 0
                && y * stride + 2 * x + 1 < orig.len()
            ==> {
                let m = spec_median3x3(orig, stride, x, y);
                &&& plane[y * stride + 2 * x] == (m % 256) as u8
                &&& plane[y * stride + 2 * x + 1] == ((m / 256) % 256) as u8
            })
}

/// Replace each interior luma sample of the crop with the median of its
/// 3x3 neighborhood, leaving the border untouched; used to stabilize
/// statistics on grainy sources.
pub fn apply_median3_denoise(y_data: &Vec<u8>, stride: usize, crop: &CropRect) -> (r: Vec<u8>)
    requires
        stride <= 0x7FFFFFFF,
        crop.width <= 32768,
        crop.height <= 32768,
        crop.x <= 0x7FFFFFFF - 32768,
        crop.y <= 0x7FFFFFFF - 32768,
    ensures
        r@.len() == y_data@.len(),
        spec_denoised_plane(y_data@, r@, stride as int, *crop),
{
    let mut output: Vec<u8> = crate::optimizer::clone_u8_vec(y_data);
    let x_start: usize = crop.x as usize;
    let y_start: usize = crop.y as usize;
    let x_end: usize = x_start + crop.width as usize;
    let y_end: usize = y_start + crop.height as usize;
    if y_end < 2 || x_end < 2 {
        return output;
    }
    let mut y: usize = y_start + 1;
    while y + 1 < y_end
        invariant
            y_start + 1 <= y,
            y <= 0x7FFFFFFF,
            y == y_start + 1 || y + 1 <= y_end,
            y_end <= 0x7FFFFFFF,
            x_start <= 0x7FFFFFFE,
            x_end <= 0x7FFFFFFF,
            stride <= 0x7FFFFFFF,
            x_start == crop.x,
            y_start == crop.y,
            x_end == crop.x + crop.width,
            y_end == crop.y + crop.height,
            output@.len() == y_data@.len(),
            forall|i: int| 0 <= i < y_data@.len()
                && !spec_denoise_written(y_data@, stride as int, x_start as int,
                    x_end as int, y_start as int, y as int, i)
                ==> (#[trigger] output@[i]) == y_data@[i],
            stride >= 2 * x_end ==> forall|xx: int, yy: int|
                x_start < xx && xx + 1 < x_end
                    && y_start < yy && yy < y
                    && (#[trigger] spec_neighbors(y_data@, stride as int, xx, yy,
                        3)).len() > 0
                    && yy * stride + 2 * xx + 1 < y_data@.len()
                ==> {
                    let m = spec_median3x3(y_data@, stride as int, xx, yy);
                    &&& output@[yy * stride + 2 * xx] == (m % 256) as u8
                    &&& output@[yy * stride + 2 * xx + 1] == ((m / 256) % 256) as u8
                },
        decreases y_end - y,
    {
        let mut x: usize = x_start + 1;
        while x + 1 < x_end
            invariant
                x_start + 1 <= x,
                x <= 0x7FFFFFFF,
                x == x_start + 1 || x + 1 <= x_end,
                x_end <= 0x7FFFFFFF,
                y_start + 1 <= y,
                y + 1 < y_end,
                y <= 0x7FFFFFFE,
                y_end <= 0x7FFFFFFF,
                stride <= 0x7FFFFFFF,
                x_start == crop.x,
                y_start == crop.y,
                x_end == crop.x + crop.width,
                y_end == crop.y + crop.height,
                output@.len() == y_data@.len(),
                forall|i: int| 0 <= i < y_data@.len()
                    && !spec_denoise_written(y_data@, stride as int, x_start as int,
                        x_end as int, y_start as int, y as int, i)
                    && !spec_denoise_written(y_data@, stride as int, x_start as int,
                        x as int + 1, y as int - 1, y as int + 1, i)
                    ==> (#[trigger] output@[i]) == y_data@[i],
                stride >= 2 * x_end ==> forall|xx: int, yy: int|
                    x_start < xx && xx + 1 < x_end
                        && y_start < yy && yy < y
                        && (#[trigger] spec_neighbors(y_data@, stride as int, xx, yy,
                            3)).len() > 0
                        && yy * stride + 2 * xx + 1 < y_data@.len()
                    ==> {
                        let m = spec_median3x3(y_data@, stride as int, xx, yy);
                        &&& output@[yy * stride + 2 * xx] == (m % 256) as u8
                        &&& output@[yy * stride + 2 * xx + 1] == ((m / 256) % 256) as u8
                    },
                stride >= 2 * x_end ==> forall|xx: int|
                    x_start < xx && xx < x
                        && (#[trigger] spec_neighbors(y_data@, stride as int, xx,
                            y as int, 3)).len() > 0
                        && (y as int) * stride + 2 * xx + 1 < y_data@.len()
                    ==> {
                        let m = spec_median3x3(y_data@, stride as int, xx, y as int);
                        &&& output@[(y as int) * stride + 2 * xx] == (m % 256) as u8
                        &&& output@[(y as int) * stride + 2 * xx + 1]
                            == ((m / 256) % 256) as u8
                    },
            decreases x_end - x,
        {
            proof {
                assert(x + 1 < x_end);
            }
            let ghost pre_out = output@;
            match median3x3_code(y_data, stride, x, y) {
                Option::Some(median) => {
                    let n2: usize = output.len();
                    proof {
                        assert((y as int) * (stride as int) <= 0x7FFFFFFF * 0x7FFFFFFF)
                            by (nonlinear_arith)
                            requires y <= 0x7FFFFFFFusize, stride <= 0x7FFFFFFFusize;
                        assert((y as int) * (stride as int) >= 0) by (nonlinear_arith)
                            requires y >= 0, stride >= 0;
                    }
                    let out_off: u128 = (y as u128) * (stride as u128) + 2 * (x as u128);
                    if out_off + 1 < n2 as u128 {
                        let o: usize = out_off as usize;
                        output.set(o, (median % 256) as u8);
                        output.set(o + 1, ((median / 256) % 256) as u8);
                        proof {
                            assert(o as int == (y as int) * (stride as int)
                                + 2 * (x as int));
                            // The two writes land in this row's written set.
                            assert(spec_denoise_written(y_data@, stride as int,
                                x_start as int, x as int + 2, y as int - 1,
                                y as int + 1, o as int));
                            assert(spec_denoise_written(y_data@, stride as int,
                                x_start as int, x as int + 2, y as int - 1,
                                y as int + 1, o as int + 1));
                            // Earlier rows' samples sit strictly below the
                            // written offsets when the rows cannot overlap.
                            if stride >= 2 * x_end {
                                assert forall|xx: int, yy: int|
                                    x_start < xx && xx + 1 < x_end
                                        && y_start < yy && yy < y
                                        && (#[trigger] spec_neighbors(y_data@,
                                            stride as int, xx, yy, 3)).len() > 0
                                    implies yy * (stride as int) + 2 * xx + 1
                                        < o as int by {
                                    assert((y as int) * (stride as int)
                                        - yy * (stride as int) >= stride as int)
                                        by (nonlinear_arith)
                                        requires
                                            yy + 1 <= y as int,
                                            stride as int >= 0;
                                }
                            }
                        }
                    }
                },
                Option::None => {},
            }
            x = x + 1;
        }
        proof {
            // A full row extends the written set by exactly that row.
            assert forall|i: int| 0 <= i < y_data@.len()
                && !spec_denoise_written(y_data@, stride as int, x_start as int,
                    x_end as int, y_start as int, y as int + 1, i)
                implies (#[trigger] output@[i]) == y_data@[i] by {
                assert(!spec_denoise_written(y_data@, stride as int, x_start as int,
                    x_end as int, y_start as int, y as int, i));
                assert(!spec_denoise_written(y_data@, stride as int, x_start as int,
                    x as int + 1, y as int - 1, y as int + 1, i));
            }
        }
        y = y + 1;
    }
    proof {
        // The rows the loop visited are exactly the interior rows.
        assert forall|i: int| 0 <= i < y_data@.len()
            && !spec_denoise_written(y_data@, stride as int, crop.x as int,
                crop.x + crop.width, crop.y as int, crop.y + crop.height - 1, i)
            implies (#[trigger] output@[i]) == y_data@[i] by {
            assert(!spec_denoise_written(y_data@, stride as int, x_start as int,
                x_end as int, y_start as int, y as int, i));
        }
    }
    output
}

/// Analyze one decoded 10-bit 4:2:0 frame inside the crop rectangle.
///
/// Luma rows are decoded in parallel into a shared 256-bin histogram and a
/// frame peak, the histogram is rescaled to percentage units, the average
/// PQ is the mid-bin weighted mean, and the chroma planes yield the hue
/// histogram.  The result always carries well-formed histograms whose sums
/// are a full population (within one percent) or zero.
pub fn analyze_native_frame_cropped(
    y_data: &Vec<u8>,
    y_stride: usize,
    u_data: &Vec<u8>,
    u_stride: usize,
    v_data: &Vec<u8>,
    v_stride: usize,
    crop_rect: &CropRect,
    denoise_median3: bool,
    use_hlg: bool,
    hlg_peak_millinits: u64,
) -> (r: FrameRecord)
    requires
        y_stride <= 0x7FFFFFFF,
        u_stride <= 0x7FFFFFFF,
        v_stride <= 0x7FFFFFFF,
        crop_rect.width <= 32768,
        crop_rect.height <= 32768,
        crop_rect.x <= 0x7FFFFFFF - 32768,
        crop_rect.y <= 0x7FFFFFFF - 32768,
    ensures
        r.wf(),
        r.target_nits is None,
        r.avg_pq == crate::codec::spec_avg_pq_mid_bin(r.lum_histogram@),
        hist_sum(r.lum_histogram@) == 0
            || 64000 - 256 <= hist_sum(r.lum_histogram@) <= 64000 + 256,
        hist_sum(r.hue_histogram@) == 0
            || 64000 - 31 <= hist_sum(r.hue_histogram@) <= 64000 + 31,
        !denoise_median3 ==> ({
            let xs = crop_rect.x as int;
            let xe = crop_rect.x + crop_rect.width;
            let ys = crop_rect.y as int;
            let ye = crop_rect.y + crop_rect.height;
            let total = spec_rect_pixels(y_data@, y_stride as int, ys, ye, xs, xe as int);
            &&& r.peak_pq_2020 == spec_rect_max_pq(y_data@, y_stride as int, ys, ye as int,
                    xs, xe as int, use_hlg, hlg_peak_millinits as int)
            &&& (total == 0 ==> forall|b: int| 0 <= b < 256
                    ==> r.lum_histogram@[b] == spec_rect_bin_count(y_data@, y_stride as int,
                        ys, ye as int, xs, xe as int, use_hlg, hlg_peak_millinits as int, b))
            &&& (total > 0 ==> forall|b: int| 0 <= b < 256
                    ==> r.lum_histogram@[b] == crate::histogram::spec_rescaled_int(
                        spec_rect_bin_count(y_data@, y_stride as int, ys, ye as int,
                            xs, xe as int, use_hlg, hlg_peak_millinits as int, b), total))
        }),
        denoise_median3 ==> exists|p: Seq<u8>| ({
            let xs = crop_rect.x as int;
            let xe = crop_rect.x + crop_rect.width;
            let ys = crop_rect.y as int;
            let ye = crop_rect.y + crop_rect.height;
            let total = spec_rect_pixels(p, y_stride as int, ys, ye, xs, xe as int);
            &&& #[trigger] spec_denoised_plane(y_data@, p, y_stride as int, *crop_rect)
            &&& r.peak_pq_2020 == spec_rect_max_pq(p, y_stride as int, ys, ye as int,
                    xs, xe as int, use_hlg, hlg_peak_millinits as int)
            &&& (total == 0 ==> forall|b: int| 0 <= b < 256
                    ==> r.lum_histogram@[b] == spec_rect_bin_count(p, y_stride as int,
                        ys, ye as int, xs, xe as int, use_hlg,
                        hlg_peak_millinits as int, b))
            &&& (total > 0 ==> forall|b: int| 0 <= b < 256
                    ==> r.lum_histogram@[b] == crate::histogram::spec_rescaled_int(
                        spec_rect_bin_count(p, y_stride as int, ys, ye as int,
                            xs, xe as int, use_hlg, hlg_peak_millinits as int, b), total))
        }),
{
    let denoised: Vec<u8>;
    let y_plane: &Vec<u8> = if denoise_median3 {
        denoised = apply_median3_denoise(y_data, y_stride, crop_rect);
        &denoised
    } else {
        y_data
    };
    let ghost plane = y_plane@;
    let x_start: usize = crop_rect.x as usize;
    let y_start: usize = crop_rect.y as usize;
    let x_end: usize = x_start + crop_rect.width as usize;
    let y_end: usize = y_start + crop_rect.height as usize;
    let rows: Vec<(Vec<u32>, u32, u32)> = analyze_rows_parallel(
        y_plane, y_stride, y_start, y_end, x_start, x_end, use_hlg, hlg_peak_millinits);
    // Sequential reduction: elementwise sum and maximum.
    let mut acc_hist: Vec<u32> = Vec::new();
    let mut i: usize = 0;
    while i < 256
        invariant
            i <= 256,
            acc_hist@.len() == i,
            forall|t: int| 0 <= t < acc_hist@.len() ==> #[trigger] acc_hist@[t] == 0,
        decreases 256 - i,
    {
        acc_hist.push(0);
        i = i + 1;
    }
    proof {
        lemma_zero_hist_sum(acc_hist@);
    }
    let mut acc_max: u32 = 0;
    let mut acc_count: u32 = 0;
    let mut k: usize = 0;
    while k < rows.len()
        invariant
            k <= rows@.len(),
            rows@.len() <= 32768,
            rows@.len() == y_end - y_start,
            acc_hist@.len() == 256,
            acc_max <= crate::PQ_ONE,
            hist_sum(acc_hist@) == acc_count,
            acc_count <= (k as int) * 32768,
            forall|t: int| 0 <= t < 256 ==> #[trigger] acc_hist@[t] <= acc_count,
            forall|t: int| 0 <= t < rows@.len()
                ==> row_stats_ok((#[trigger] rows@[t]).0@, rows@[t].1, rows@[t].2,
                    x_end - x_start),
            forall|t: int| 0 <= t < rows@.len()
                ==> row_stats_exact((#[trigger] rows@[t]).0@, rows@[t].1, rows@[t].2,
                    plane, y_stride as int, y_start + t, x_start as int, x_end as int,
                    use_hlg, hlg_peak_millinits as int),
            x_end - x_start <= 32768,
            forall|b: int| 0 <= b < 256 ==> #[trigger] acc_hist@[b]
                == spec_rect_bin_count(plane, y_stride as int, y_start as int,
                    y_start + k, x_start as int, x_end as int, use_hlg,
                    hlg_peak_millinits as int, b),
            acc_max == spec_rect_max_pq(plane, y_stride as int, y_start as int,
                y_start + k, x_start as int, x_end as int, use_hlg,
                hlg_peak_millinits as int),
            acc_count == spec_rect_pixels(plane, y_stride as int, y_start as int,
                y_start + k, x_start as int, x_end as int),
        decreases rows@.len() - k,
    {
        proof {
            assert(row_stats_ok(rows@[k as int].0@, rows@[k as int].1, rows@[k as int].2,
                x_end - x_start));
            assert(row_stats_exact(rows@[k as int].0@, rows@[k as int].1, rows@[k as int].2,
                plane, y_stride as int, y_start + k, x_start as int, x_end as int,
                use_hlg, hlg_peak_millinits as int));
            assert((k as int) * 32768 + 32768 == (k + 1) * 32768) by (nonlinear_arith);
            assert((k as int) * 32768 <= 32768 * 32768) by (nonlinear_arith)
                requires 0 <= k <= 32768;
        }
        let ghost pre_acc = acc_hist@;
        combine_rows(&mut acc_hist, &mut acc_max, &mut acc_count, &rows[k]);
        proof {
            // One row folds into the rectangle accumulators.
            assert forall|b: int| 0 <= b < 256 implies #[trigger] acc_hist@[b]
                == spec_rect_bin_count(plane, y_stride as int, y_start as int,
                    y_start + (k + 1), x_start as int, x_end as int, use_hlg,
                    hlg_peak_millinits as int, b) by {
                assert(acc_hist@[b] == pre_acc[b] + rows@[k as int].0@[b]);
            }
        }
        k = k + 1;
    }
    let ghost counted = acc_hist@;
    proof {
        crate::lemma_hist_sum_nonneg(counted);
    }
    normalize_histogram(&mut acc_hist);
    proof {
        if hist_sum(counted) == 0 {
            lemma_all_bins_le_sum_zero(counted, acc_hist@);
        }
    }
    let avg_pq: u32 = avg_pq_mid_bin(&acc_hist);
    let hue: Vec<u32> = compute_hue_histogram(u_data, v_data, u_stride, v_stride, crop_rect);
    let result = FrameRecord {
        peak_pq_2020: acc_max,
        peak_pq_dcip3: Option::None,
        peak_pq_709: Option::None,
        avg_pq,
        lum_histogram: acc_hist,
        hue_histogram: hue,
        target_nits: Option::None,
    };
    proof {
        if denoise_median3 {
            assert(spec_denoised_plane(y_data@, plane, y_stride as int, *crop_rect));
            if hist_sum(counted) > 0 {
                assert forall|b: int| 0 <= b < 256
                    implies result.lum_histogram@[b] == crate::histogram::spec_rescaled_int(
                        spec_rect_bin_count(plane, y_stride as int, crop_rect.y as int,
                            (crop_rect.y + crop_rect.height) as int, crop_rect.x as int,
                            (crop_rect.x + crop_rect.width) as int, use_hlg,
                            hlg_peak_millinits as int, b),
                        spec_rect_pixels(plane, y_stride as int, crop_rect.y as int,
                            (crop_rect.y + crop_rect.height) as int, crop_rect.x as int,
                            (crop_rect.x + crop_rect.width) as int)) by {
                    assert(result.lum_histogram@[b]
                        == crate::histogram::spec_rescaled_bin(counted[b], hist_sum(counted)));
                }
            }
        }
        if !denoise_median3 {
            assert(plane == y_data@);
            // The fold covered every row, and normalization rescaled the
            // counts; the sum of the counts equals the in-plane pixels.
            if hist_sum(counted) > 0 {
                assert forall|b: int| 0 <= b < 256
                    implies result.lum_histogram@[b] == crate::histogram::spec_rescaled_int(
                        spec_rect_bin_count(y_data@, y_stride as int, crop_rect.y as int,
                            (crop_rect.y + crop_rect.height) as int, crop_rect.x as int,
                            (crop_rect.x + crop_rect.width) as int, use_hlg,
                            hlg_peak_millinits as int, b),
                        spec_rect_pixels(y_data@, y_stride as int, crop_rect.y as int,
                            (crop_rect.y + crop_rect.height) as int, crop_rect.x as int,
                            (crop_rect.x + crop_rect.width) as int)) by {
                    assert(result.lum_histogram@[b]
                        == crate::histogram::spec_rescaled_bin(counted[b], hist_sum(counted)));
                }
            }
        }
    }
    result
}

} // verus!

verus! {

/// The flat reading's histogram bin of a 10-bit code: the code as a PQ
/// fraction of the full range, binned with half-up rounding over 256 bins.
pub open spec fn spec_flat_bin(code10: int) -> int {
    let b = ((code10 % 1024) * 510 + 1023) / 2046;
    if b >= 255 { 255int } else { b }
}

/// Flat-bin count over one row of the full frame.
pub open spec fn spec_flat_row_count(
    data: Seq<u8>, stride: int, row: int, w: int, bin: int,
) -> int
    decreases w,
{
    if w <= 0 {
        0
    } else {
        spec_flat_row_count(data, stride, row, w - 1, bin)
            + if spec_pixel_in_plane(data, stride, w - 1, row)
                && spec_flat_bin(crate::crop::spec_read_luma10(data, stride, w - 1, row))
                    == bin {
                1int
            } else {
                0int
            }
    }
}

/// The brightest 10-bit code over one row of the full frame.
pub open spec fn spec_flat_row_max(data: Seq<u8>, stride: int, row: int, w: int) -> int
    decreases w,
{
    if w <= 0 {
        0
    } else {
        let rest = spec_flat_row_max(data, stride, row, w - 1);
        if spec_pixel_in_plane(data, stride, w - 1, row) {
            let c = crate::crop::spec_read_luma10(data, stride, w - 1, row) % 1024;
            if c > rest { c } else { rest }
        } else {
            rest
        }
    }
}

/// Flat-bin count over the first `h` rows of the full frame.
pub open spec fn spec_flat_rect_count(
    data: Seq<u8>, stride: int, h: int, w: int, bin: int,
) -> int
    decreases h,
{
    if h <= 0 {
        0
    } else {
        spec_flat_rect_count(data, stride, h - 1, w, bin)
            + spec_flat_row_count(data, stride, h - 1, w, bin)
    }
}

/// The brightest 10-bit code over the first `h` rows of the full frame.
pub open spec fn spec_flat_rect_max(data: Seq<u8>, stride: int, h: int, w: int) -> int
    decreases h,
{
    if h <= 0 {
        0
    } else {
        let rest = spec_flat_rect_max(data, stride, h - 1, w);
        let rm = spec_flat_row_max(data, stride, h - 1, w);
        if rm > rest { rm } else { rest }
    }
}

/// In-plane pixels over the first `h` rows of the full frame.
pub open spec fn spec_flat_rect_pixels(data: Seq<u8>, stride: int, h: int, w: int) -> int
    decreases h,
{
    if h <= 0 {
        0
    } else {
        spec_flat_rect_pixels(data, stride, h - 1, w)
            + spec_row_pixels(data, stride, h - 1, 0, w)
    }
}

/// Analyze a full frame under the flat PQ reading: each 10-bit luma code is
/// taken directly as a PQ fraction of the code range and binned linearly
/// over the 256 bins, with the peak read from the brightest code.  This is
/// the uncropped companion of [`analyze_native_frame_cropped`].
pub fn analyze_native_frame(
    y_data: &Vec<u8>,
    y_stride: usize,
    u_data: &Vec<u8>,
    u_stride: usize,
    v_data: &Vec<u8>,
    v_stride: usize,
    width: u32,
    height: u32,
) -> (r: FrameRecord)
    requires
        y_stride <= 0x7FFFFFFF,
        u_stride <= 0x7FFFFFFF,
        v_stride <= 0x7FFFFFFF,
        width <= 32768,
        height <= 32768,
    ensures
        r.wf(),
        r.target_nits is None,
        r.avg_pq == crate::histogram::spec_avg_pq_linear(r.lum_histogram@),
        hist_sum(r.lum_histogram@) == 0
            || 64000 - 256 <= hist_sum(r.lum_histogram@) <= 64000 + 256,
        r.peak_pq_2020 == spec_flat_rect_max(y_data@, y_stride as int,
            height as int, width as int) * 1_000_000 / 1023,
        ({
            let total = spec_flat_rect_pixels(y_data@, y_stride as int,
                height as int, width as int);
            &&& (total == 0 ==> forall|b: int| 0 <= b < 256
                    ==> r.lum_histogram@[b] == spec_flat_rect_count(y_data@,
                        y_stride as int, height as int, width as int, b))
            &&& (total > 0 ==> forall|b: int| 0 <= b < 256
                    ==> r.lum_histogram@[b] == crate::histogram::spec_rescaled_int(
                        spec_flat_rect_count(y_data@, y_stride as int, height as int,
                            width as int, b), total))
        }),
{
    let mut hist: Vec<u32> = Vec::new();
    let mut i: usize = 0;
    while i < 256
        invariant
            i <= 256,
            hist@.len() == i,
            forall|t: int| 0 <= t < hist@.len() ==> #[trigger] hist@[t] == 0,
        decreases 256 - i,
    {
        hist.push(0);
        i = i + 1;
    }
    proof {
        lemma_zero_hist_sum(hist@);
    }
    let mut max_code: u16 = 0;
    let mut count: u32 = 0;
    let h: usize = height as usize;
    let w: usize = width as usize;
    let mut row: usize = 0;
    while row < h
        invariant
            row <= h,
            h <= 32768,
            w <= 32768,
            y_stride <= 0x7FFFFFFF,
            hist@.len() == 256,
            hist_sum(hist@) == count,
            max_code <= 1023,
            count <= (row as int) * 32768,
            forall|t: int| 0 <= t < hist@.len() ==> #[trigger] hist@[t] <= count,
            forall|b: int| 0 <= b < 256 ==> #[trigger] hist@[b]
                == spec_flat_rect_count(y_data@, y_stride as int, row as int, w as int, b),
            max_code as int == spec_flat_rect_max(y_data@, y_stride as int,
                row as int, w as int),
            count == spec_flat_rect_pixels(y_data@, y_stride as int, row as int, w as int),
        decreases h - row,
    {
        let mut x: usize = 0;
        while x < w
            invariant
                x <= w,
                w <= 32768,
                row <= 32768,
                y_stride <= 0x7FFFFFFF,
                hist@.len() == 256,
                hist_sum(hist@) == count,
                max_code <= 1023,
                count <= (row as int) * 32768 + x,
                forall|t: int| 0 <= t < hist@.len() ==> #[trigger] hist@[t] <= count,
                forall|b: int| 0 <= b < 256 ==> #[trigger] hist@[b]
                    == spec_flat_rect_count(y_data@, y_stride as int, row as int,
                        w as int, b)
                        + spec_flat_row_count(y_data@, y_stride as int, row as int,
                            x as int, b),
                max_code as int == (if spec_flat_row_max(y_data@, y_stride as int,
                        row as int, x as int)
                        > spec_flat_rect_max(y_data@, y_stride as int, row as int, w as int) {
                    spec_flat_row_max(y_data@, y_stride as int, row as int, x as int)
                } else {
                    spec_flat_rect_max(y_data@, y_stride as int, row as int, w as int)
                }),
                count == spec_flat_rect_pixels(y_data@, y_stride as int, row as int, w as int)
                    + spec_row_pixels(y_data@, y_stride as int, row as int, 0, x as int),
            decreases w - x,
        {
            let n: usize = y_data.len();
            proof {
                assert((row as int) * (y_stride as int) <= 32768 * 0x7FFFFFFF)
                    by (nonlinear_arith)
                    requires row <= 32768usize, y_stride <= 0x7FFFFFFFusize;
                assert((row as int) * (y_stride as int) >= 0) by (nonlinear_arith)
                    requires row >= 0, y_stride >= 0;
                assert((row as int) * 32768 + 32768 == (row + 1) * 32768) by (nonlinear_arith);
                assert((row as int) * 32768 <= 32768 * 32768) by (nonlinear_arith)
                    requires 0 <= row <= 32768;
            }
            let off128: u128 = (row as u128) * (y_stride as u128) + 2 * (x as u128);
            if off128 + 1 < n as u128 {
                let code: u16 = crate::crop::read_luma10(y_data, y_stride, x, row) % 1024;
                proof {
                    assert(code as int == crate::crop::spec_read_luma10(y_data@,
                        y_stride as int, x as int, row as int) % 1024);
                }
                if code > max_code {
                    max_code = code;
                }
                // The flat reading: the code is a PQ fraction of the full
                // 10-bit range, binned with half-up rounding over 256 bins.
                let bin64: u64 = ((code as u64) * 510 + 1023) / 2046;
                let bin: usize = if bin64 >= 255 { 255 } else { bin64 as usize };
                proof {
                    assert(bin as int == spec_flat_bin(crate::crop::spec_read_luma10(
                        y_data@, y_stride as int, x as int, row as int)));
                }
                let ghost pre = hist@;
                let old_v: u32 = hist[bin];
                hist.set(bin, old_v + 1);
                count = count + 1;
                proof {
                    lemma_hist_sum_set_incr(pre, hist@, bin as int);
                    assert forall|b: int| 0 <= b < 256 implies #[trigger] hist@[b]
                        == spec_flat_rect_count(y_data@, y_stride as int, row as int,
                            w as int, b)
                            + spec_flat_row_count(y_data@, y_stride as int, row as int,
                                x as int + 1, b) by {
                        if b == bin as int {
                            assert(hist@[b] == pre[b] + 1);
                        } else {
                            assert(hist@[b] == pre[b]);
                        }
                    }
                }
            }
            x = x + 1;
        }
        row = row + 1;
    }
    let ghost counted = hist@;
    proof {
        crate::lemma_hist_sum_nonneg(counted);
    }
    normalize_histogram(&mut hist);
    proof {
        if hist_sum(counted) == 0 {
            lemma_all_bins_le_sum_zero(counted, hist@);
        }
    }
    let peak_pq_2020: u32 = ((max_code as u64) * 1_000_000 / 1023) as u32;
    let avg_pq: u32 = crate::histogram::calculate_avg_pq_from_histogram(&hist);
    let full = CropRect { x: 0, y: 0, width, height };
    let hue: Vec<u32> = compute_hue_histogram(u_data, v_data, u_stride, v_stride, &full);
    let result = FrameRecord {
        peak_pq_2020,
        peak_pq_dcip3: Option::None,
        peak_pq_709: Option::None,
        avg_pq,
        lum_histogram: hist,
        hue_histogram: hue,
        target_nits: Option::None,
    };
    proof {
        if hist_sum(counted) > 0 {
            assert forall|b: int| 0 <= b < 256
                implies result.lum_histogram@[b] == crate::histogram::spec_rescaled_int(
                    spec_flat_rect_count(y_data@, y_stride as int, height as int,
                        width as int, b),
                    spec_flat_rect_pixels(y_data@, y_stride as int, height as int,
                        width as int)) by {
                assert(result.lum_histogram@[b]
                    == crate::histogram::spec_rescaled_bin(counted[b], hist_sum(counted)));
            }
        }
    }
    result
}

} // verus!

verus! {

/// The luminance bin of a PQ value under the v5 layout: 64 linear bins up
/// to the 100-nit anchor, 192 from there to PQ 1, clamped to the top bin.
pub open spec fn spec_lum_bin(micro_pq: int) -> int {
    if micro_pq < SDR_PEAK_MICRO_PQ {
        let b = (micro_pq * 64) / (SDR_PEAK_MICRO_PQ as int);
        if b >= 255 { 255int } else { b }
    } else {
        let b = 64 + ((micro_pq - SDR_PEAK_MICRO_PQ) * 192) / (1_000_000 - SDR_PEAK_MICRO_PQ);
        if b >= 255 { 255int } else { b }
    }
}

/// The PQ value of a 10-bit luma code: limited-range normalization
/// `(code - 64) / 876` clamped into `[0, 1]`, read as PQ directly or routed
/// through the HLG curve and the inverse EOTF.
pub open spec fn spec_pq_of_code(code10: int, use_hlg: bool, hlg_peak_millinits: int) -> int {
    let code = code10 % 1024;
    let norm = if code <= 64 {
        0int
    } else {
        let n = ((code - 64) * 1_000_000) / 876;
        if n > 1_000_000 { 1_000_000int } else { n }
    };
    if use_hlg {
        crate::pq::spec_nits_to_pq(crate::hlg::spec_hlg_to_nits(norm, hlg_peak_millinits))
    } else {
        norm
    }
}

/// The Q30 direction of hue sector boundary `k`.
pub open spec fn spec_hue_dir(k: int) -> (int, int) {
    if k == 0 { (1073741824int, 0int) } else if k == 1 { (1051762266int, 216142640int) } else if k == 2 { (986723437int, 423436375int) } else if k == 3 { (881288034int, 613394575int) } else if k == 4 { (739772596int, 778240329int) } else if k == 5 { (567970781int, 911224833int) } else if k == 6 { (372916176int, 1006903685int) } else if k == 7 { (162594338int, 1061359782int) } else if k == 8 { (-54384131int, 1072363684int) } else if k == 9 { (-269136107int, 1039464891int) } else if k == 10 { (-472869620int, 964010284int) } else if k == 11 { (-657243794int, 849088982int) } else if k == 12 { (-814710331int, 699405878int) } else if k == 13 { (-938822530int, 521089014int) } else if k == 14 { (-1024499226int, 321438706int) } else if k == 15 { (-1068232802int, 108628659int) } else if k == 16 { (-1068232802int, -108628659int) } else if k == 17 { (-1024499226int, -321438706int) } else if k == 18 { (-938822530int, -521089014int) } else if k == 19 { (-814710331int, -699405878int) } else if k == 20 { (-657243794int, -849088982int) } else if k == 21 { (-472869620int, -964010284int) } else if k == 22 { (-269136107int, -1039464891int) } else if k == 23 { (-54384131int, -1072363684int) } else if k == 24 { (162594338int, -1061359782int) } else if k == 25 { (372916176int, -1006903685int) } else if k == 26 { (567970781int, -911224833int) } else if k == 27 { (739772596int, -778240329int) } else if k == 28 { (881288034int, -613394575int) } else if k == 29 { (986723437int, -423436375int) } else if k == 30 { (1051762266int, -216142640int) } else { (1073741824int, 0int) }
}

/// The sector scan: starting from boundary `30 - fuel`, the first cone that
/// contains the chroma vector, with the wrap-around sector at the end.
pub open spec fn spec_hue_scan(u: int, v: int, fuel: nat) -> int
    decreases fuel,
{
    if fuel == 0 {
        let d30 = spec_hue_dir(30);
        if d30.0 * v - d30.1 * u >= 0 && v < 0 { 30int } else { 0int }
    } else {
        let k = 30 - fuel;
        let d0 = spec_hue_dir(k);
        let d1 = spec_hue_dir(k + 1);
        if d0.0 * v - d0.1 * u >= 0 && u * d1.1 - v * d1.0 > 0 {
            k
        } else {
            spec_hue_scan(u, v, (fuel - 1) as nat)
        }
    }
}

/// The hue sector of a chroma vector: the defining model of [`hue_sector`].
pub open spec fn spec_hue_sector(u: int, v: int) -> int {
    spec_hue_scan(u, v, 30)
}

} // verus!
