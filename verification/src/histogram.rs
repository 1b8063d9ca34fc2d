//! Luminance-histogram statistics: normalization, averages, percentiles,
//! the highlight knee, and peak selection.
//!
//! Histogram bins are shares of the pixel population in units of 1/640 of a
//! percent, so 100 % is `64000`.  PQ values are micro-PQ.

use vstd::prelude::*;
use crate::{hist_sum, suffix_sum, lemma_hist_sum_extend, lemma_hist_sum_full,
    lemma_hist_sum_nonneg, lemma_suffix_sum_unfold};

verus! {

/// Sum of all bins of a histogram.
pub fn histogram_sum(h: &Vec<u32>) -> (r: u64)
    requires
        h@.len() <= 65536,
    ensures
        r == hist_sum(h@),
{
    let mut sum: u64 = 0;
    let mut i: usize = 0;
    proof {
        assert(h@.subrange(0, 0) =~= Seq::<u32>::empty());
    }
    while i < h.len()
        invariant
            i <= h@.len(),
            h@.len() <= 65536,
            sum == hist_sum(h@.subrange(0, i as int)),
            sum <= (i as int) * 0xFFFFFFFF,
        decreases h@.len() - i,
    {
        proof {
            lemma_hist_sum_extend(h@, i as int);
            assert((i as int) * 0xFFFFFFFF + 0xFFFFFFFF == (i + 1) * 0xFFFFFFFF)
                by (nonlinear_arith);
            assert((i as int) * 0xFFFFFFFF <= 65536 * 0xFFFFFFFF) by (nonlinear_arith)
                requires 0 <= i <= 65536;
        }
        sum = sum + (h[i] as u64);
        i = i + 1;
    }
    proof {
        lemma_hist_sum_full(h@);
    }
    sum
}

/// What one bin becomes when the histogram is rescaled so that the whole
/// population is 100 %: `bin * 64000 / sum`, rounded half-up.
pub open spec fn spec_rescaled_bin(bin: u32, sum: int) -> int {
    spec_rescaled_int(bin as int, sum)
}

/// The rescaling formula over plain integers.
pub open spec fn spec_rescaled_int(bin: int, sum: int) -> int {
    (2 * bin * 64000 + sum) / (2 * sum)
}

/// Rescale a histogram in place so that its bins sum to about `64000`
/// (100 %).  An all-zero histogram is left untouched.
///
/// Each bin is scaled by `64000 / sum` with half-up rounding, so the final
/// sum can differ from `64000` by at most half a unit per bin.
pub fn normalize_histogram(h: &mut Vec<u32>)
    requires
        old(h)@.len() <= 65536,
    ensures
        final(h)@.len() == old(h)@.len(),
        hist_sum(old(h)@) == 0 ==> final(h)@ =~= old(h)@,
        hist_sum(old(h)@) > 0 ==> {
            &&& forall|j: int| 0 <= j < final(h)@.len()
                ==> final(h)@[j] == spec_rescaled_bin(old(h)@[j], hist_sum(old(h)@))
            &&& forall|j: int| 0 <= j < final(h)@.len() ==> final(h)@[j] <= 64000
            &&& 64000 - final(h)@.len() <= hist_sum(final(h)@) <= 64000 + final(h)@.len()
        },
{
    let total: u64 = histogram_sum(h);
    proof {
        lemma_hist_sum_nonneg(h@);
        crate::lemma_hist_sum_bounded(h@, 0xFFFFFFFF);
    }
    if total == 0 {
        return;
    }
    let ghost orig = h@;
    let ghost s = hist_sum(orig);
    let mut i: usize = 0;
    proof {
        assert(orig.subrange(0, 0) =~= Seq::<u32>::empty());
        assert(h@.subrange(0, 0) =~= Seq::<u32>::empty());
    }
    while i < h.len()
        invariant
            i <= h@.len(),
            h@.len() == orig.len(),
            orig.len() <= 65536,
            s == hist_sum(orig),
            0 < s <= (orig.len() as int) * 0xFFFFFFFF,
            total == s,
            forall|j: int| i <= j < h@.len() ==> h@[j] == orig[j],
            forall|j: int| 0 <= j < i ==> h@[j] == spec_rescaled_bin(orig[j], s),
            forall|j: int| 0 <= j < i ==> h@[j] <= 64000,
            2 * s * hist_sum(h@.subrange(0, i as int))
                <= 2 * 64000 * hist_sum(orig.subrange(0, i as int)) + (i as int) * s,
            2 * s * hist_sum(h@.subrange(0, i as int))
                >= 2 * 64000 * hist_sum(orig.subrange(0, i as int)) - (i as int) * s,
        decreases h@.len() - i,
    {
        let ghost pre = h@;
        let b: u64 = h[i] as u64;
        proof {
            assert(2 * (b as int) * 64000 + s <= 2 * 0xFFFFFFFF * 64000 + 65536 * 0xFFFFFFFF)
                by (nonlinear_arith)
                requires b <= 0xFFFFFFFFu64, 0 < s <= 65536 * 0xFFFFFFFF;
        }
        let q: u64 = (2 * b * 64000 + total) / (2 * total);
        proof {
            vstd::arithmetic::div_mod::lemma_fundamental_div_mod(
                (2 * (b as int) * 64000 + s) as int,
                (2 * s) as int,
            );
            // q <= 64000 because b <= s.
            assert(hist_sum(orig.subrange(0, i as int)) >= 0) by {
                lemma_hist_sum_nonneg(orig.subrange(0, i as int));
            }
            assert(b <= s) by {
                lemma_single_bin_le_sum(orig, i as int);
            }
            assert((2 * (b as int) * 64000 + s) / (2 * s) <= 64000) by (nonlinear_arith)
                requires 0 < s, b <= s;
        }
        h.set(i, q as u32);
        proof {
            lemma_hist_sum_extend(h@, i as int);
            lemma_hist_sum_extend(orig, i as int);
            assert(h@.subrange(0, i as int) =~= pre.subrange(0, i as int));
            // The division fact ties q to the exact scaled value.
            let qi = (2 * (b as int) * 64000 + s) / (2 * s);
            assert(2 * s * qi <= 2 * (b as int) * 64000 + s) by (nonlinear_arith)
                requires 0 < s, qi == (2 * (b as int) * 64000 + s) / (2 * s);
            assert(2 * s * qi > 2 * (b as int) * 64000 + s - 2 * s) by (nonlinear_arith)
                requires 0 < s, qi == (2 * (b as int) * 64000 + s) / (2 * s);
            assert(2 * s * hist_sum(h@.subrange(0, i + 1))
                == 2 * s * hist_sum(h@.subrange(0, i as int)) + 2 * s * qi)
                by (nonlinear_arith)
                requires hist_sum(h@.subrange(0, i + 1))
                    == hist_sum(h@.subrange(0, i as int)) + qi;
            assert(2 * s * hist_sum(h@.subrange(0, i + 1))
                <= 2 * 64000 * hist_sum(orig.subrange(0, i + 1)) + (i + 1) * s)
                by (nonlinear_arith)
                requires
                    2 * s * hist_sum(h@.subrange(0, i + 1))
                        == 2 * s * hist_sum(pre.subrange(0, i as int)) + 2 * s * qi,
                    h@.subrange(0, i as int) == pre.subrange(0, i as int),
                    2 * s * hist_sum(pre.subrange(0, i as int))
                        <= 2 * 64000 * hist_sum(orig.subrange(0, i as int)) + (i as int) * s,
                    2 * s * qi <= 2 * (b as int) * 64000 + s,
                    hist_sum(orig.subrange(0, i + 1))
                        == hist_sum(orig.subrange(0, i as int)) + b;
            assert(2 * s * hist_sum(h@.subrange(0, i + 1))
                >= 2 * 64000 * hist_sum(orig.subrange(0, i + 1)) - (i + 1) * s)
                by (nonlinear_arith)
                requires
                    2 * s * hist_sum(h@.subrange(0, i + 1))
                        == 2 * s * hist_sum(pre.subrange(0, i as int)) + 2 * s * qi,
                    h@.subrange(0, i as int) == pre.subrange(0, i as int),
                    2 * s * hist_sum(pre.subrange(0, i as int))
                        >= 2 * 64000 * hist_sum(orig.subrange(0, i as int)) - (i as int) * s,
                    2 * s * qi > 2 * (b as int) * 64000 + s - 2 * s,
                    hist_sum(orig.subrange(0, i + 1))
                        == hist_sum(orig.subrange(0, i as int)) + b;
        }
        i = i + 1;
    }
    proof {
        lemma_hist_sum_full(h@);
        lemma_hist_sum_full(orig);
        assert(h@.subrange(0, i as int) =~= h@);
        assert(orig.subrange(0, i as int) =~= orig);
        let n = orig.len() as int;
        let out = hist_sum(h@);
        assert(out <= 64000 + n) by (nonlinear_arith)
            requires
                2 * s * out <= 2 * 64000 * s + n * s,
                0 < s,
                0 <= n;
        assert(out >= 64000 - n) by (nonlinear_arith)
            requires
                2 * s * out >= 2 * 64000 * s - n * s,
                0 < s,
                0 <= n;
    }
}

/// A single bin never exceeds the sum of all bins.
proof fn lemma_single_bin_le_sum(h: Seq<u32>, i: int)
    requires
        0 <= i < h.len(),
    ensures
        h[i] <= hist_sum(h),
    decreases h.len(),
{
    if i == h.len() - 1 {
        lemma_hist_sum_nonneg(h.drop_last());
    } else {
        lemma_single_bin_le_sum(h.drop_last(), i);
        assert(h.drop_last()[i] == h[i]);
    }
}

/// Weighted sum of a histogram under the flat PQ ramp `bin / 255`:
/// each bin contributes `(i * 1_000_000 / 255) * h[i]`.
pub open spec fn lin_weighted_sum(h: Seq<u32>) -> int
    decreases h.len(),
{
    if h.len() == 0 {
        0
    } else {
        lin_weighted_sum(h.drop_last()) + ((h.len() - 1) * 1_000_000 / 255) * h.last()
    }
}

proof fn lemma_lin_weighted_sum_extend(h: Seq<u32>, i: int)
    requires
        0 <= i < h.len(),
    ensures
        lin_weighted_sum(h.subrange(0, i + 1))
            == lin_weighted_sum(h.subrange(0, i)) + (i * 1_000_000 / 255) * h[i],
{
    let a = h.subrange(0, i + 1);
    assert(a.drop_last() =~= h.subrange(0, i));
    assert(a.last() == h[i]);
}

/// Mean PQ of a histogram whose bins are read as a flat ramp from PQ 0 at
/// bin 0 to PQ 1 at bin 255: the weighted mean of bin midpoints, or 0 for an
/// empty histogram.
pub open spec fn spec_avg_pq_linear(h: Seq<u32>) -> int {
    if hist_sum(h) > 0 {
        lin_weighted_sum(h) / hist_sum(h)
    } else {
        0
    }
}

/// Mean PQ of a histogram under the flat `bin / 255` ramp.
///
/// Bins are weighted by their population share; an empty histogram yields 0.
pub fn calculate_avg_pq_from_histogram(histogram: &Vec<u32>) -> (r: u32)
    requires
        histogram@.len() <= 256,
    ensures
        r == spec_avg_pq_linear(histogram@),
        r <= crate::PQ_ONE,
{
    let mut ws: u64 = 0;
    let mut tot: u64 = 0;
    let mut i: usize = 0;
    proof {
        assert(histogram@.subrange(0, 0) =~= Seq::<u32>::empty());
    }
    while i < histogram.len()
        invariant
            i <= histogram@.len(),
            histogram@.len() <= 256,
            tot == hist_sum(histogram@.subrange(0, i as int)),
            ws == lin_weighted_sum(histogram@.subrange(0, i as int)),
            tot <= (i as int) * 0xFFFFFFFF,
            ws <= 1_000_000 * tot,
        decreases histogram@.len() - i,
    {
        let b: u64 = histogram[i] as u64;
        let pqv: u64 = (i as u64) * 1_000_000 / 255;
        proof {
            lemma_hist_sum_extend(histogram@, i as int);
            lemma_lin_weighted_sum_extend(histogram@, i as int);
            assert((i as int) * 1_000_000 / 255 <= 1_000_000) by (nonlinear_arith)
                requires 0 <= i < 256;
            assert((i as int) * 0xFFFFFFFF + 0xFFFFFFFF == (i + 1) * 0xFFFFFFFF)
                by (nonlinear_arith);
            assert((i as int) * 0xFFFFFFFF <= 256 * 0xFFFFFFFF) by (nonlinear_arith)
                requires 0 <= i <= 256;
            assert((pqv as int) * (b as int) <= 1_000_000 * (b as int)) by (nonlinear_arith)
                requires pqv <= 1_000_000u64;
            assert(1_000_000 * (tot as int) + 1_000_000 * (b as int)
                == 1_000_000 * ((tot as int) + (b as int))) by (nonlinear_arith);
            assert(1_000_000 * ((tot as int) + (b as int))
                <= 1_000_000 * (257 * 0xFFFFFFFF)) by (nonlinear_arith)
                requires (tot as int) + (b as int) <= 257 * 0xFFFFFFFF;
        }
        ws = ws + pqv * b;
        tot = tot + b;
        i = i + 1;
    }
    proof {
        lemma_hist_sum_full(histogram@);
        assert(histogram@.subrange(0, i as int) =~= histogram@);
    }
    if tot > 0 {
        let r: u64 = ws / tot;
        proof {
            vstd::arithmetic::div_mod::lemma_div_multiples_vanish(
                1_000_000,
                tot as int,
            );
            vstd::arithmetic::div_mod::lemma_div_is_ordered(
                ws as int,
                1_000_000 * (tot as int),
                tot as int,
            );
        }
        r as u32
    } else {
        0
    }
}

/// The bin picked by an upper-tail scan: the highest index whose suffix sum
/// reaches `target`, scanning downward from `from`.
pub open spec fn spec_pct_bin(h: Seq<u32>, target: int, from: int) -> Option<int>
    decreases from + 1,
{
    if from < 0 {
        None
    } else if suffix_sum(h, from) >= target {
        Some(from)
    } else {
        spec_pct_bin(h, target, from - 1)
    }
}

/// The highest non-empty bin at or below `from`.
pub open spec fn spec_top_bin(h: Seq<u32>, from: int) -> Option<int>
    decreases from + 1,
{
    if from < 0 {
        None
    } else if h[from] > 0 {
        Some(from)
    } else {
        spec_top_bin(h, from - 1)
    }
}

/// The PQ value an upper-tail percentile query returns: the percentile bin
/// under the flat `bin / 255` ramp, falling back to the highest non-empty
/// bin, and to PQ 1 for an empty histogram.
pub open spec fn spec_percentile_pq(h: Seq<u32>, target: int) -> int {
    match spec_pct_bin(h, target, h.len() - 1) {
        Some(b) => b * 1_000_000 / 255,
        None => match spec_top_bin(h, h.len() - 1) {
            Some(b) => b * 1_000_000 / 255,
            None => 1_000_000,
        },
    }
}

/// Upper-tail percentile of a luminance histogram, as a PQ value.
///
/// `percentile_milli` is the percentile in thousandths of a percent
/// (`99_000` for the 99th percentile).  The scan accumulates bins from the
/// top until the requested share of the population lies above, and reads
/// the bin index as PQ `bin / 255`.
pub fn compute_histogram_percentile_pq(histogram: &Vec<u32>, percentile_milli: u32) -> (r: u32)
    requires
        histogram@.len() <= 256,
        percentile_milli <= 100_000,
    ensures
        r == spec_percentile_pq(
            histogram@,
            ((100_000 - percentile_milli) as int) * 64000 / 100_000,
        ),
        r <= crate::PQ_ONE,
{
    let target: u64 = ((100_000 - percentile_milli) as u64) * 64000 / 100_000;
    let ghost t = ((100_000 - percentile_milli) as int) * 64000 / 100_000;
    let mut i: usize = histogram.len();
    let mut cum: u64 = 0;
    proof {
        assert(histogram@.subrange(i as int, histogram@.len() as int)
            =~= Seq::<u32>::empty());
    }
    while i > 0
        invariant
            i <= histogram@.len(),
            histogram@.len() <= 256,
            target == t,
            t == ((100_000 - percentile_milli) as int) * 64000 / 100_000,
            cum == suffix_sum(histogram@, i as int),
            cum <= 256 * 0xFFFFFFFF,
            spec_pct_bin(histogram@, t, histogram@.len() - 1)
                == spec_pct_bin(histogram@, t, i - 1),
        decreases i,
    {
        i = i - 1;
        proof {
            lemma_suffix_sum_unfold(histogram@, i as int);
            lemma_hist_sum_nonneg(
                histogram@.subrange(i as int, histogram@.len() as int));
            lemma_suffix_bounded(histogram@, i as int);
        }
        cum = cum + (histogram[i] as u64);
        if cum >= target {
            proof {
                assert(spec_pct_bin(histogram@, t, i as int) == Some(i as int));
                assert(spec_pct_bin(histogram@, t, histogram@.len() - 1)
                    == Some(i as int));
                assert(spec_percentile_pq(histogram@, t)
                    == (i as int) * 1_000_000 / 255);
            }
            let r: u64 = (i as u64) * 1_000_000 / 255;
            proof {
                assert((i as int) * 1_000_000 / 255 <= 1_000_000) by (nonlinear_arith)
                    requires 0 <= i < 256;
            }
            return r as u32;
        }
        proof {
            assert(spec_pct_bin(histogram@, t, i as int)
                == spec_pct_bin(histogram@, t, i - 1));
        }
    }
    // No bin reached the target share; fall back to the highest non-empty bin.
    proof {
        assert(spec_pct_bin(histogram@, t, -1) is None);
    }
    let mut j: usize = histogram.len();
    while j > 0
        invariant
            j <= histogram@.len(),
            histogram@.len() <= 256,
            spec_pct_bin(histogram@, t, histogram@.len() - 1) is None,
            t == ((100_000 - percentile_milli) as int) * 64000 / 100_000,
            spec_top_bin(histogram@, histogram@.len() - 1)
                == spec_top_bin(histogram@, j - 1),
        decreases j,
    {
        j = j - 1;
        if histogram[j] > 0 {
            proof {
                assert(spec_top_bin(histogram@, j as int) == Some(j as int));
            }
            let r: u64 = (j as u64) * 1_000_000 / 255;
            proof {
                assert((j as int) * 1_000_000 / 255 <= 1_000_000) by (nonlinear_arith)
                    requires 0 <= j < 256;
            }
            return r as u32;
        }
        proof {
            assert(spec_top_bin(histogram@, j as int)
                == spec_top_bin(histogram@, j - 1));
        }
    }
    proof {
        assert(spec_top_bin(histogram@, -1) is None);
    }
    1_000_000
}

/// A suffix sum of at most 256 bins stays below `256 * u32::MAX`.
proof fn lemma_suffix_bounded(h: Seq<u32>, i: int)
    requires
        0 <= i <= h.len(),
        h.len() <= 256,
    ensures
        suffix_sum(h, i) <= 256 * 0xFFFFFFFF,
{
    let a = h.subrange(i, h.len() as int);
    crate::lemma_hist_sum_bounded(a, 0xFFFFFFFF);
    assert(a.len() * 0xFFFFFFFF <= 256 * 0xFFFFFFFF) by (nonlinear_arith)
        requires 0 <= a.len() <= 256;
}

/// The highlight-knee bin: the highest bin where at least one percent of the
/// population lies at or above, if any.
pub fn knee_bin(histogram: &Vec<u32>) -> (r: Option<usize>)
    requires
        histogram@.len() <= 256,
    ensures
        match r {
            Some(b) => spec_pct_bin(histogram@, 640, histogram@.len() - 1)
                == Some(b as int) && b < histogram@.len(),
            None => spec_pct_bin(histogram@, 640, histogram@.len() - 1) is None,
        },
{
    let mut i: usize = histogram.len();
    let mut cum: u64 = 0;
    proof {
        assert(histogram@.subrange(i as int, histogram@.len() as int)
            =~= Seq::<u32>::empty());
    }
    while i > 0
        invariant
            i <= histogram@.len(),
            histogram@.len() <= 256,
            cum == suffix_sum(histogram@, i as int),
            cum <= 256 * 0xFFFFFFFF,
            spec_pct_bin(histogram@, 640, histogram@.len() - 1)
                == spec_pct_bin(histogram@, 640, i - 1),
        decreases i,
    {
        i = i - 1;
        proof {
            lemma_suffix_sum_unfold(histogram@, i as int);
            lemma_hist_sum_nonneg(
                histogram@.subrange(i as int, histogram@.len() as int));
            lemma_suffix_bounded(histogram@, i as int);
        }
        cum = cum + (histogram[i] as u64);
        if cum >= 640 {
            return Some(i);
        }
    }
    None
}

/// Luminance level (millinits) below which 99 % of the frame's pixels fall.
///
/// The knee bin is read as PQ `bin / 255` and converted to light; a
/// histogram without one percent of mass anywhere falls back to 1000 nits.
pub fn find_highlight_knee_nits(histogram: &Vec<u32>) -> (r: u64)
    requires
        histogram@.len() <= 256,
    ensures
        r == (match spec_pct_bin(histogram@, 640, histogram@.len() - 1) {
            Option::Some(b) => crate::pq::spec_pq_to_nits(b * 1_000_000 / 255),
            Option::None => 1_000_000int,
        }),
        r <= crate::MAX_MILLINITS,
{
    match knee_bin(histogram) {
        Some(b) => {
            let pq: u64 = (b as u64) * 1_000_000 / 255;
            proof {
                assert((b as int) * 1_000_000 / 255 <= 1_000_000) by (nonlinear_arith)
                    requires 0 <= b < 256;
            }
            crate::pq::pq_to_nits(pq as u32)
        },
        None => 1_000_000,
    }
}

/// The exponential-moving-average state one bin reaches after blending the
/// incoming bin with weight `beta` (per-mille): state is carried with 16
/// fractional bits.
pub open spec fn spec_ema_state(bin: u32, state: u64, beta: int) -> int {
    (beta * bin * 65536 + (1000 - beta) * state) / 1000
}

/// The histogram bin read back from an EMA state: the state rounded to
/// whole units.
pub open spec fn spec_ema_bin(bin: u32, state: u64, beta: int) -> int {
    (spec_ema_state(bin, state, beta) + 32768) / 65536
}

/// Blend the incoming histogram into a per-bin exponential moving average
/// and replace the histogram with the smoothed values, rescaled back to a
/// full population.
///
/// `beta_permille` is the weight of the new frame in thousandths; zero or a
/// value above 1000 disables smoothing and leaves both arguments untouched.
pub fn apply_histogram_ema(histogram: &mut Vec<u32>, ema_state: &mut Vec<u64>, beta_permille: u32)
    requires
        old(histogram)@.len() == old(ema_state)@.len(),
        old(histogram)@.len() <= 65536,
        forall|j: int| 0 <= j < old(histogram)@.len() ==> old(histogram)@[j] <= 64000,
        forall|j: int| 0 <= j < old(ema_state)@.len()
            ==> old(ema_state)@[j] <= 64000 * 65536,
    ensures
        final(histogram)@.len() == old(histogram)@.len(),
        final(ema_state)@.len() == old(ema_state)@.len(),
        (beta_permille == 0 || beta_permille > 1000) ==> {
            &&& final(histogram)@ =~= old(histogram)@
            &&& final(ema_state)@ =~= old(ema_state)@
        },
        (0 < beta_permille <= 1000) ==> forall|j: int| 0 <= j < final(ema_state)@.len()
            ==> final(ema_state)@[j] == spec_ema_state(
                old(histogram)@[j], old(ema_state)@[j], beta_permille as int),
        (0 < beta_permille <= 1000) ==> forall|j: int| 0 <= j < final(ema_state)@.len()
            ==> final(ema_state)@[j] <= 64000 * 65536,
        (0 < beta_permille <= 1000) ==> forall|j: int| 0 <= j < final(histogram)@.len()
            ==> final(histogram)@[j] <= 64000,
        (0 < beta_permille <= 1000) ==> ({
            let mid = Seq::new(old(histogram)@.len(), |j: int| spec_ema_bin(
                old(histogram)@[j], old(ema_state)@[j], beta_permille as int) as u32);
            &&& (hist_sum(mid) == 0 ==> final(histogram)@ =~= mid)
            &&& (hist_sum(mid) > 0 ==> forall|j: int| 0 <= j < final(histogram)@.len()
                    ==> final(histogram)@[j] == spec_rescaled_bin(mid[j], hist_sum(mid)))
            &&& (hist_sum(mid) > 0 ==> 64000 - final(histogram)@.len()
                    <= hist_sum(final(histogram)@) <= 64000 + final(histogram)@.len())
        }),
{
    if beta_permille == 0 || beta_permille > 1000 {
        return;
    }
    let beta: u64 = beta_permille as u64;
    let ghost orig_h = histogram@;
    let ghost orig_s = ema_state@;
    let mut i: usize = 0;
    while i < histogram.len()
        invariant
            i <= histogram@.len(),
            histogram@.len() == orig_h.len(),
            ema_state@.len() == orig_s.len(),
            orig_h.len() == orig_s.len(),
            orig_h.len() <= 65536,
            1 <= beta <= 1000,
            beta == beta_permille,
            forall|j: int| 0 <= j < orig_h.len() ==> orig_h[j] <= 64000,
            forall|j: int| 0 <= j < orig_s.len() ==> orig_s[j] <= 64000 * 65536,
            forall|j: int| i <= j < orig_h.len() ==> histogram@[j] == orig_h[j],
            forall|j: int| i <= j < orig_s.len() ==> ema_state@[j] == orig_s[j],
            forall|j: int| 0 <= j < i
                ==> ema_state@[j] == spec_ema_state(orig_h[j], orig_s[j], beta as int),
            forall|j: int| 0 <= j < i ==> ema_state@[j] <= 64000 * 65536,
            forall|j: int| 0 <= j < i
                ==> histogram@[j] == spec_ema_bin(orig_h[j], orig_s[j], beta as int),
            forall|j: int| 0 <= j < i ==> histogram@[j] <= 64000,
        decreases histogram@.len() - i,
    {
        let b: u64 = histogram[i] as u64;
        let st: u64 = ema_state[i];
        proof {
            assert(histogram@[i as int] == orig_h[i as int]);
            assert(ema_state@[i as int] == orig_s[i as int]);
            assert(b <= 64000);
            assert(st <= 64000 * 65536);
            assert((beta as int) * (b as int) * 65536
                <= 1000 * 64000 * 65536) by (nonlinear_arith)
                requires 1 <= beta <= 1000u64, b <= 64000u64;
            assert((1000 - beta as int) * (st as int) <= 1000 * (64000 * 65536))
                by (nonlinear_arith)
                requires beta >= 1u64, beta <= 1000u64, st <= 64000 * 65536;
            assert(((beta as int) * (b as int) * 65536 + (1000 - beta as int) * (st as int))
                / 1000 <= 64000 * 65536) by (nonlinear_arith)
                requires
                    1 <= beta <= 1000u64,
                    b <= 64000u64,
                    st <= 64000 * 65536;
        }
        let ns: u64 = (beta * b * 65536 + (1000 - beta) * st) / 1000;
        let nb: u64 = (ns + 32768) / 65536;
        proof {
            assert((ns as int + 32768) / 65536 <= 64000) by (nonlinear_arith)
                requires ns <= 64000 * 65536;
        }
        ema_state.set(i, ns);
        histogram.set(i, nb as u32);
        i = i + 1;
    }
    let ghost mid_actual = histogram@;
    proof {
        let mid = Seq::new(old(histogram)@.len(), |j: int| spec_ema_bin(
            old(histogram)@[j], old(ema_state)@[j], beta_permille as int) as u32);
        assert(histogram@ =~= mid);
        lemma_hist_sum_nonneg(mid_actual);
    }
    normalize_histogram(histogram);
}

/// How the reported peak of a frame is chosen.
#[derive(Clone, Copy, PartialEq, Eq, Structural)]
pub enum PeakPolicy {
    /// The direct per-pixel maximum.
    Max,
    /// The 99th-percentile upper tail of the histogram.
    Histogram99,
    /// The 99.9th-percentile upper tail of the histogram.
    Histogram999,
}

/// Select the peak PQ of a frame under the given policy: the direct maximum,
/// or an upper-tail percentile of the histogram.
pub fn select_peak_pq(histogram: &Vec<u32>, direct_max_pq: u32, peak_source: PeakPolicy) -> (r: u32)
    requires
        histogram@.len() <= 256,
        direct_max_pq <= crate::PQ_ONE,
    ensures
        r <= crate::PQ_ONE,
        peak_source == PeakPolicy::Max ==> r == direct_max_pq,
        peak_source == PeakPolicy::Histogram99
            ==> r == spec_percentile_pq(histogram@, 640),
        peak_source == PeakPolicy::Histogram999
            ==> r == spec_percentile_pq(histogram@, 64),
{
    match peak_source {
        PeakPolicy::Histogram99 => {
            let r = compute_histogram_percentile_pq(histogram, 99_000);
            proof {
                assert((100_000 - 99_000) * 64000 / 100_000 == 640int);
            }
            r
        },
        PeakPolicy::Histogram999 => {
            let r = compute_histogram_percentile_pq(histogram, 99_900);
            proof {
                assert((100_000 - 99_900) * 64000 / 100_000 == 64int);
            }
            r
        },
        PeakPolicy::Max => direct_max_pq,
    }
}

} // verus!

verus! {

/// Sort a vector of bin values ascending, keeping exactly the same values.
pub fn sort_u32(v: &mut Vec<u32>)
    ensures
        final(v)@.len() == old(v)@.len(),
        final(v)@.to_multiset() == old(v)@.to_multiset(),
        forall|a: int, b: int| 0 <= a < b < final(v)@.len()
            ==> final(v)@[a] <= final(v)@[b],
{
    broadcast use vstd::seq_lib::to_multiset_update;
    broadcast use vstd::seq_lib::to_multiset_contains;
    broadcast use vstd::multiset::group_multiset_axioms;
    broadcast use vstd::multiset::group_multiset_properties;

    if v.len() <= 1 {
        return;
    }
    let mut i: usize = 1;
    while i < v.len()
        invariant
            1 <= i <= v@.len(),
            v@.len() == old(v)@.len(),
            v@.to_multiset() == old(v)@.to_multiset(),
            forall|a: int, b: int| 0 <= a < b < i ==> v@[a] <= v@[b],
        decreases v@.len() - i,
    {
        let mut j: usize = i;
        while j > 0 && v[j - 1] > v[j]
            invariant
                0 <= j <= i < v@.len(),
                v@.len() == old(v)@.len(),
                v@.to_multiset() == old(v)@.to_multiset(),
                forall|a: int, b: int| 0 <= a < b <= i && b != j ==> v@[a] <= v@[b],
            decreases j,
        {
            let ghost pre = v@;
            let x: u32 = v[j - 1];
            let y: u32 = v[j];
            v.set(j - 1, y);
            v.set(j, x);
            proof {
                assert(v@ =~= pre.update(j - 1, pre[j as int]).update(j as int, pre[j - 1]));
                pre.to_multiset_ensures();
                assert(pre.contains(pre[j - 1]));
                assert(pre.contains(pre[j as int]));
                assert(pre.to_multiset().count(pre[j - 1]) > 0);
                assert(pre.to_multiset().count(pre[j as int]) > 0);
                let u1 = pre.update(j - 1, pre[j as int]);
                vstd::seq_lib::to_multiset_update(pre, j - 1, pre[j as int]);
                vstd::seq_lib::to_multiset_update(u1, j as int, pre[j - 1]);
                assert(u1.to_multiset()
                    == pre.to_multiset().insert(pre[j as int]).remove(pre[j - 1]));
                assert(u1[j as int] == pre[j as int]);
                assert(v@ =~= u1.update(j as int, pre[j - 1]));
                assert(v@.to_multiset()
                    == u1.to_multiset().insert(pre[j - 1]).remove(u1[j as int]));
                assert(v@.to_multiset() =~= pre.to_multiset());
            }
            j = j - 1;
        }
        i = i + 1;
    }
}

/// Every value of a sorted selection is one of the collected values, so a
/// bound on the inputs bounds the output.
proof fn lemma_multiset_member_bound(s: Seq<u32>, orig: Seq<u32>, k: int, bound: int)
    requires
        s.to_multiset() == orig.to_multiset(),
        0 <= k < s.len(),
        forall|t: int| 0 <= t < orig.len() ==> orig[t] <= bound,
    ensures
        s[k] <= bound,
{
    broadcast use vstd::seq_lib::group_to_multiset_ensures;
    assert(s.to_multiset().count(s[k]) > 0) by {
        assert(s.contains(s[k]));
    }
    assert(orig.to_multiset().count(s[k]) > 0);
    assert(orig.contains(s[k]));
    let t = choose|t: int| 0 <= t < orig.len() && orig[t] == s[k];
    assert(orig[t] <= bound);
}

/// A sequence ordered ascending.
pub open spec fn spec_sorted_u32(s: Seq<u32>) -> bool {
    forall|a: int, b: int| 0 <= a < b < s.len() ==> s[a] <= s[b]
}

/// The median of the values of `s`: the middle value of its ascending
/// ordering, or for an even count the floor-average of the two middle
/// values.  A multiset has exactly one ascending ordering, so the value is
/// fully determined.
pub open spec fn spec_seq_median(s: Seq<u32>) -> int {
    let t = choose|t: Seq<u32>| t.to_multiset() == s.to_multiset() && spec_sorted_u32(t);
    if s.len() % 2 == 0 {
        (t[s.len() as int / 2 - 1] + t[s.len() as int / 2]) / 2
    } else {
        t[s.len() as int / 2] as int
    }
}

/// The values one bin takes across the history rows, oldest first, with
/// the current histogram's bin last.
pub open spec fn spec_bin_history(hist: Seq<u32>, history: Seq<Vec<u32>>, j: int) -> Seq<u32> {
    Seq::new(history.len(), |k: int| history[k]@[j]).push(hist[j])
}

/// Replace each histogram bin with the median of that bin over the recent
/// history plus the current frame, then rescale back to a full population.
///
/// An empty history leaves the histogram untouched.
pub fn apply_histogram_temporal_median(histogram: &mut Vec<u32>, history: &Vec<Vec<u32>>)
    requires
        old(histogram)@.len() <= 65536,
        history@.len() <= 0x7FFFFFFF,
        forall|k: int| 0 <= k < history@.len()
            ==> history@[k]@.len() == old(histogram)@.len(),
        forall|j: int| 0 <= j < old(histogram)@.len() ==> old(histogram)@[j] <= 64000,
        forall|k: int, j: int| 0 <= k < history@.len()
            && 0 <= j < old(histogram)@.len() ==> history@[k]@[j] <= 64000,
    ensures
        final(histogram)@.len() == old(histogram)@.len(),
        history@.len() == 0 ==> final(histogram)@ =~= old(histogram)@,
        history@.len() > 0 ==> ({
            let mid = Seq::new(old(histogram)@.len(), |j: int|
                spec_seq_median(spec_bin_history(old(histogram)@, history@, j)) as u32);
            &&& (hist_sum(mid) == 0 ==> final(histogram)@ =~= mid)
            &&& (hist_sum(mid) > 0 ==> forall|j: int| 0 <= j < final(histogram)@.len()
                    ==> final(histogram)@[j] == spec_rescaled_bin(mid[j], hist_sum(mid)))
        }),
        history@.len() > 0 ==> forall|j: int| 0 <= j < final(histogram)@.len()
            ==> final(histogram)@[j] <= 64000,
        history@.len() > 0 ==> hist_sum(final(histogram)@)
            <= 64000 + final(histogram)@.len(),
        history@.len() > 0 ==> (hist_sum(final(histogram)@)
            >= 64000 - final(histogram)@.len() || hist_sum(final(histogram)@) == 0),
{
    if history.len() == 0 {
        return;
    }
    let ghost orig_h = histogram@;
    let mut bin_idx: usize = 0;
    while bin_idx < histogram.len()
        invariant
            bin_idx <= histogram@.len(),
            histogram@.len() == orig_h.len(),
            orig_h.len() <= 65536,
            history@.len() >= 1,
            history@.len() <= 0x7FFFFFFF,
            forall|k: int| 0 <= k < history@.len() ==> history@[k]@.len() == orig_h.len(),
            forall|j: int| 0 <= j < orig_h.len() ==> orig_h[j] <= 64000,
            forall|k: int, j: int| 0 <= k < history@.len()
                && 0 <= j < orig_h.len() ==> history@[k]@[j] <= 64000,
            forall|j: int| bin_idx <= j < orig_h.len() ==> histogram@[j] == orig_h[j],
            forall|j: int| 0 <= j < bin_idx ==> histogram@[j] <= 64000,
            forall|j: int| 0 <= j < bin_idx ==> (#[trigger] histogram@[j]) as int
                == spec_seq_median(spec_bin_history(orig_h, history@, j)),
        decreases histogram@.len() - bin_idx,
    {
        // Collect this bin across the history and the current frame.
        let mut values: Vec<u32> = Vec::new();
        let mut k: usize = 0;
        while k < history.len()
            invariant
                k <= history@.len(),
                history@.len() <= 0x7FFFFFFF,
                bin_idx < orig_h.len(),
                forall|t: int| 0 <= t < history@.len()
                    ==> history@[t]@.len() == orig_h.len(),
                forall|t: int, j: int| 0 <= t < history@.len()
                    && 0 <= j < orig_h.len() ==> history@[t]@[j] <= 64000,
                values@.len() == k,
                forall|t: int| 0 <= t < values@.len() ==> values@[t] <= 64000,
                forall|t: int| 0 <= t < values@.len()
                    ==> (#[trigger] values@[t]) == history@[t]@[bin_idx as int],
            decreases history@.len() - k,
        {
            let row: &Vec<u32> = &history[k];
            values.push(row[bin_idx]);
            k = k + 1;
        }
        let cur: u32 = histogram[bin_idx];
        proof {
            assert(histogram@[bin_idx as int] == orig_h[bin_idx as int]);
        }
        values.push(cur);
        let ghost collected = values@;
        proof {
            assert(collected =~= spec_bin_history(orig_h, history@, bin_idx as int));
        }
        sort_u32(&mut values);
        let n: usize = values.len();
        let mid: usize = n / 2;
        let med: u32 = if n % 2 == 0 {
            let a: u32 = values[mid - 1];
            let b: u32 = values[mid];
            proof {
                lemma_multiset_member_bound(values@, collected, mid - 1, 64000);
                lemma_multiset_member_bound(values@, collected, mid as int, 64000);
            }
            ((a as u64 + b as u64) / 2) as u32
        } else {
            let m: u32 = values[mid];
            proof {
                lemma_multiset_member_bound(values@, collected, mid as int, 64000);
            }
            m
        };
        proof {
            // The sorted buffer is the one ascending ordering of the
            // collected values, so the picked middle is the spec median.
            let t = choose|t: Seq<u32>|
                t.to_multiset() == collected.to_multiset() && spec_sorted_u32(t);
            assert(values@.to_multiset() == collected.to_multiset()
                && spec_sorted_u32(values@));
            assert(t.to_multiset() == collected.to_multiset() && spec_sorted_u32(t));
            crate::scene::lemma_sorted_unique(t, values@);
            assert(t =~= values@);
            values@.to_multiset_ensures();
            collected.to_multiset_ensures();
            assert(med as int
                == spec_seq_median(spec_bin_history(orig_h, history@, bin_idx as int)));
        }
        histogram.set(bin_idx, med);
        bin_idx = bin_idx + 1;
    }
    let ghost mid_actual = histogram@;
    proof {
        lemma_hist_sum_nonneg(mid_actual);
        let mid = Seq::new(old(histogram)@.len(), |j: int|
            spec_seq_median(spec_bin_history(old(histogram)@, history@, j)) as u32);
        assert(mid_actual =~= mid);
    }
    normalize_histogram(histogram);
}

} // verus!
