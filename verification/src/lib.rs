//! Verified core of an HDR video measurement pipeline.
//!
//! The library analyzes decoded 10-bit planar frames into luminance and hue
//! histograms, detects scene cuts, smooths statistics, derives a per-frame
//! tone-mapping target, and encodes everything into the versioned binary
//! measurement format.  All quantities are carried as scaled integers:
//! PQ code values in millionths (`0 ..= 1_000_000`), luminance in
//! thousandths of a nit, and histogram bins in units of 1/640 of a percent,
//! which is exactly the resolution of the on-disk format.

use vstd::prelude::*;

pub mod codec;
pub mod crop;
pub mod frame;
pub mod histogram;
pub mod hlg;
pub mod optimizer;
pub mod pq;
pub mod scene;
pub mod session;
pub mod support;

verus! {

/// One full PQ code value (1.0) in the library's fixed-point PQ unit.
pub const PQ_ONE: u32 = 1_000_000;

/// The largest luminance the PQ curve can express, in millinits.
pub const MAX_MILLINITS: u64 = 10_000_000;

/// Number of luminance histogram bins.
pub const LUM_BINS: usize = 256;

/// Number of hue histogram bins.
pub const HUE_BINS: usize = 31;

/// 100 percent in histogram units (1/640 of a percent per unit).
pub const HIST_FULL_SCALE: u32 = 64000;

/// Sum of all histogram bins, as unbounded arithmetic.
pub open spec fn hist_sum(h: Seq<u32>) -> int
    decreases h.len(),
{
    if h.len() == 0 {
        0
    } else {
        hist_sum(h.drop_last()) + h.last()
    }
}

/// Sum of the bins from index `i` (inclusive) to the end.
pub open spec fn suffix_sum(h: Seq<u32>, i: int) -> int {
    hist_sum(h.subrange(i, h.len() as int))
}

/// Extending a prefix by one element adds that element to its sum.
pub proof fn lemma_hist_sum_extend(h: Seq<u32>, i: int)
    requires
        0 <= i < h.len(),
    ensures
        hist_sum(h.subrange(0, i + 1)) == hist_sum(h.subrange(0, i)) + h[i],
{
    let a = h.subrange(0, i + 1);
    assert(a.drop_last() =~= h.subrange(0, i));
    assert(a.last() == h[i]);
}

/// A full prefix is the whole sequence.
pub proof fn lemma_hist_sum_full(h: Seq<u32>)
    ensures
        hist_sum(h.subrange(0, h.len() as int)) == hist_sum(h),
{
    assert(h.subrange(0, h.len() as int) =~= h);
}

/// Every bin sum is nonnegative.
pub proof fn lemma_hist_sum_nonneg(h: Seq<u32>)
    ensures
        hist_sum(h) >= 0,
    decreases h.len(),
{
    if h.len() > 0 {
        lemma_hist_sum_nonneg(h.drop_last());
    }
}

/// With every bin below a bound, the sum is below `len` times the bound.
pub proof fn lemma_hist_sum_bounded(h: Seq<u32>, bound: int)
    requires
        forall|i: int| 0 <= i < h.len() ==> h[i] <= bound,
        bound >= 0,
    ensures
        hist_sum(h) <= h.len() * bound,
    decreases h.len(),
{
    if h.len() == 0 {
    } else {
        lemma_hist_sum_bounded(h.drop_last(), bound);
        assert(hist_sum(h.drop_last()) <= (h.len() - 1) * bound);
        assert((h.len() - 1) * bound + bound == h.len() * bound) by (nonlinear_arith);
    }
}

/// Growing the suffix by one element on the left adds that element.
pub proof fn lemma_suffix_sum_unfold(h: Seq<u32>, i: int)
    requires
        0 <= i < h.len(),
    ensures
        suffix_sum(h, i) == h[i] + suffix_sum(h, i + 1),
    decreases h.len() - i,
{
    let a = h.subrange(i, h.len() as int);
    let b = h.subrange(i + 1, h.len() as int);
    assert(hist_sum(a) == a[0] + hist_sum(a.subrange(1, a.len() as int))) by {
        lemma_hist_sum_head(a);
    }
    assert(a.subrange(1, a.len() as int) =~= b);
    assert(a[0] == h[i]);
}

/// Splitting off the head of a sequence splits its sum.
pub proof fn lemma_hist_sum_head(h: Seq<u32>)
    requires
        h.len() > 0,
    ensures
        hist_sum(h) == h[0] + hist_sum(h.subrange(1, h.len() as int)),
    decreases h.len(),
{
    if h.len() == 1 {
        assert(h.subrange(1, h.len() as int) =~= Seq::<u32>::empty());
        assert(h.drop_last() =~= Seq::<u32>::empty());
        assert(hist_sum(h) == hist_sum(h.drop_last()) + h.last());
        assert(h[0] == h.last());
    } else {
        let t = h.drop_last();
        lemma_hist_sum_head(t);
        assert(t.subrange(1, t.len() as int) =~= h.subrange(1, h.len() as int).drop_last());
        assert(h.subrange(1, h.len() as int).last() == h.last());
    }
}

/// One per-frame measurement record, index equal to presentation order.
///
/// PQ fields are micro-PQ (`0 ..= 1_000_000`); histogram bins are shares of
/// the pixel population in units of 1/640 percent, so a full histogram sums
/// to about `64000`.
#[derive(Debug)]
pub struct FrameRecord {
    /// Peak PQ code value of the frame in the BT.2020 gamut.
    pub peak_pq_2020: u32,
    /// Approximate peak in the DCI-P3 gamut, carried by version 6 files.
    pub peak_pq_dcip3: Option<u32>,
    /// Approximate peak in the BT.709 gamut, carried by version 6 files.
    pub peak_pq_709: Option<u32>,
    /// Mid-bin weighted average PQ of the frame.
    pub avg_pq: u32,
    /// 256-bin luminance histogram.
    pub lum_histogram: Vec<u32>,
    /// 31-bin hue histogram over chroma-bearing pixels.
    pub hue_histogram: Vec<u32>,
    /// Tone-mapping target, present once the optimizer has run.
    pub target_nits: Option<u16>,
}

impl FrameRecord {
    /// Structural invariant: fixed histogram lengths, every PQ field and
    /// every bin inside its range.
    pub open spec fn wf(&self) -> bool {
        &&& self.peak_pq_2020 <= PQ_ONE
        &&& (self.peak_pq_dcip3 is Some ==> self.peak_pq_dcip3->0 <= PQ_ONE)
        &&& (self.peak_pq_709 is Some ==> self.peak_pq_709->0 <= PQ_ONE)
        &&& self.avg_pq <= PQ_ONE
        &&& self.lum_histogram@.len() == LUM_BINS
        &&& self.hue_histogram@.len() == HUE_BINS
        &&& (forall|i: int| 0 <= i < self.lum_histogram@.len()
                ==> self.lum_histogram@[i] <= HIST_FULL_SCALE)
        &&& (forall|i: int| 0 <= i < self.hue_histogram@.len()
                ==> self.hue_histogram@[i] <= HIST_FULL_SCALE)
    }
}

/// One scene: an inclusive, 0-based range of frame indices with its
/// aggregated statistics.
#[derive(Clone, Copy, Debug, PartialEq, Eq, Structural)]
pub struct SceneRecord {
    /// First frame of the scene.
    pub start: u32,
    /// Last frame of the scene, inclusive.
    pub end: u32,
    /// Peak luminance over the scene, in whole nits.
    pub peak_nits: u32,
    /// Mean of the frames' average PQ, in micro-PQ.
    pub avg_pq: u32,
}

impl SceneRecord {
    /// Structural invariant relative to the number of frames.
    pub open spec fn wf(&self, frame_count: nat) -> bool {
        &&& self.start <= self.end
        &&& (self.end as nat) < frame_count
        &&& self.avg_pq <= PQ_ONE
    }
}

} // verus!
