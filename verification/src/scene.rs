//! Scene segmentation: histogram distance, cut debouncing, conversion of
//! cut points into contiguous scenes, boundary repair, and per-scene
//! statistics.

use vstd::prelude::*;
use crate::{FrameRecord, SceneRecord, hist_sum};
use crate::histogram::sort_u32;

verus! {

/// One bin's contribution to the symmetric chi-squared distance, in
/// millionths of a percent: `(a-b)^2 / (a+b)` over percentage shares,
/// rounded up so that any difference at all, even a single quantum,
/// contributes.  A bin empty on both sides contributes nothing.
pub open spec fn spec_chi2_term(a: u32, b: u32) -> int {
    if a + b == 0 {
        0
    } else {
        ((a - b) * (a - b) * 1_000_000 + 640 * (a + b) - 1) / (640 * (a + b))
    }
}

/// Chi-squared distance over the first `n` bins.
pub open spec fn spec_chi2_prefix(h1: Seq<u32>, h2: Seq<u32>, n: int) -> int
    decreases n,
{
    if n <= 0 {
        0
    } else {
        spec_chi2_prefix(h1, h2, n - 1) + spec_chi2_term(h1[n - 1], h2[n - 1])
    }
}

/// Symmetric chi-squared distance between two histograms, over the bins the
/// shorter one has, in millionths of a percent.
pub open spec fn spec_chi2(h1: Seq<u32>, h2: Seq<u32>) -> int {
    spec_chi2_prefix(h1, h2, if h1.len() <= h2.len() { h1.len() as int } else { h2.len() as int })
}

/// Chi-squared distance between two luminance histograms, used as the
/// scene-change metric.  The distance is zero exactly when the compared
/// bins are equal; two histograms with all mass in different bins give
/// about 200 full percent units (`200_000_000` here).
pub fn calculate_histogram_difference(hist1: &Vec<u32>, hist2: &Vec<u32>) -> (r: u64)
    requires
        hist1@.len() <= 256,
        hist2@.len() <= 256,
        forall|j: int| 0 <= j < hist1@.len() ==> hist1@[j] <= 64000,
        forall|j: int| 0 <= j < hist2@.len() ==> hist2@[j] <= 64000,
    ensures
        r == spec_chi2(hist1@, hist2@),
        r <= 256 * 200_000_000,
        r == 0 <==> (forall|j: int|
            0 <= j < hist1@.len() && j < hist2@.len()
            ==> hist1@[j] == #[trigger] hist2@[j]),
{
    let len: usize = if hist1.len() <= hist2.len() {
        hist1.len()
    } else {
        hist2.len()
    };
    let mut dist: u64 = 0;
    let mut i: usize = 0;
    while i < len
        invariant
            i <= len,
            len == (if hist1@.len() <= hist2@.len() { hist1@.len() } else { hist2@.len() }),
            len <= 256,
            forall|j: int| 0 <= j < hist1@.len() ==> hist1@[j] <= 64000,
            forall|j: int| 0 <= j < hist2@.len() ==> hist2@[j] <= 64000,
            dist == spec_chi2_prefix(hist1@, hist2@, i as int),
            dist <= (i as int) * 200_000_000,
            (dist == 0 <==> (forall|j: int| 0 <= j < i
                ==> hist1@[j] == #[trigger] hist2@[j])),
        decreases len - i,
    {
        let a: u64 = hist1[i] as u64;
        let b: u64 = hist2[i] as u64;
        let term: u64 = if a + b == 0 {
            0
        } else {
            let d: u64 = if a >= b { a - b } else { b - a };
            proof {
                assert((d as int) * (d as int) * 1_000_000
                    <= 128000 * 128000 * 1_000_000) by (nonlinear_arith)
                    requires d <= 128000u64;
                assert(((a as int) - (b as int)) * ((a as int) - (b as int))
                    == (d as int) * (d as int)) by (nonlinear_arith)
                    requires
                        d == (if a >= b { (a as int) - (b as int) } else { (b as int) - (a as int) });
                // The quotient is at most (a+b) * 1_000_000 / 640 <= 200_000_000.
                assert((d as int) * (d as int) <= ((a + b) as int) * ((a + b) as int))
                    by (nonlinear_arith)
                    requires d <= a + b;
            }
            let num: u64 = d * d * 1_000_000;
            let den: u64 = 640 * (a + b);
            let q: u64 = (num + den - 1) / den;
            proof {
                let s_ = (a + b) as int;
                let x = (d as int) * (d as int) * 1_000_000 + 640 * s_ - 1;
                vstd::arithmetic::div_mod::lemma_fundamental_div_mod(x, 640 * s_);
                vstd::arithmetic::div_mod::lemma_mod_bound(x, 640 * s_);
                let qq = x / (640 * s_);
                let rr = x % (640 * s_);
                // d <= s makes the ceiling quotient at most s * 1e6 / 640.
                assert(x < (640 * s_) * 200_000_001) by (nonlinear_arith)
                    requires
                        1 <= s_ <= 128000,
                        x == (d as int) * (d as int) * 1_000_000 + 640 * s_ - 1,
                        (d as int) * (d as int) <= s_ * s_;
                assert(qq <= 200_000_000) by (nonlinear_arith)
                    requires
                        x == (640 * s_) * qq + rr,
                        rr >= 0,
                        x < (640 * s_) * 200_000_001,
                        s_ >= 1;
                // The ceiling quotient is zero exactly when the bins agree.
                if d == 0 {
                    assert(x == 640 * s_ - 1) by (nonlinear_arith)
                        requires
                            x == (d as int) * (d as int) * 1_000_000 + 640 * s_ - 1,
                            d == 0u64;
                    assert(qq == 0) by (nonlinear_arith)
                        requires
                            x == (640 * s_) * qq + rr,
                            0 <= rr < 640 * s_,
                            x == 640 * s_ - 1,
                            s_ >= 1;
                } else {
                    assert(x >= 640 * s_) by (nonlinear_arith)
                        requires
                            x == (d as int) * (d as int) * 1_000_000 + 640 * s_ - 1,
                            d >= 1u64;
                    assert(qq >= 1) by (nonlinear_arith)
                        requires
                            x == (640 * s_) * qq + rr,
                            0 <= rr < 640 * s_,
                            x >= 640 * s_,
                            s_ >= 1;
                }
            }
            q
        };
        proof {
            assert((i as int) * 200_000_000 + 200_000_000 == (i + 1) * 200_000_000)
                by (nonlinear_arith);
            assert((i as int) * 200_000_000 <= 256 * 200_000_000) by (nonlinear_arith)
                requires 0 <= i <= 256;
            assert(term == 0 <==> hist1@[i as int] == hist2@[i as int]);
        }
        dist = dist + term;
        i = i + 1;
    }
    proof {
        assert((i as int) * 200_000_000 <= 256 * 200_000_000) by (nonlinear_arith)
            requires 0 <= i <= 256;
    }
    dist
}

/// A scene cut never makes a scene shorter than the configured minimum:
/// with no previous cut, a candidate is allowed once `min_scene_len` frames
/// have passed; after a cut, once the distance to it reaches
/// `min_scene_len`.
pub fn cut_allowed(last_cut: Option<u32>, candidate_frame: u32, min_scene_len: u32) -> (r: bool)
    ensures
        r == match last_cut {
            Option::None => candidate_frame >= min_scene_len,
            Option::Some(prev) => (if candidate_frame >= prev {
                candidate_frame - prev
            } else {
                0
            }) >= min_scene_len,
        },
{
    match last_cut {
        Option::None => candidate_frame >= min_scene_len,
        Option::Some(prev) => {
            let gap: u32 = if candidate_frame >= prev {
                candidate_frame - prev
            } else {
                0
            };
            gap >= min_scene_len
        },
    }
}

/// A strictly ascending sequence of cut points that all fall inside the
/// video: the shape the segmenter produces.
pub open spec fn cuts_well_formed(cuts: Seq<u32>, total_frames: u32) -> bool {
    &&& forall|a: int, b: int| 0 <= a < b < cuts.len() ==> cuts[a] < cuts[b]
    &&& forall|a: int| 0 <= a < cuts.len() ==> 1 <= #[trigger] cuts[a] < total_frames
}

/// Two ascending sequences holding the same values are the same sequence.
pub(crate) proof fn lemma_sorted_unique(s1: Seq<u32>, s2: Seq<u32>)
    requires
        s1.to_multiset() == s2.to_multiset(),
        forall|a: int, b: int| 0 <= a < b < s1.len() ==> s1[a] <= s1[b],
        forall|a: int, b: int| 0 <= a < b < s2.len() ==> s2[a] <= s2[b],
    ensures
        s1 =~= s2,
    decreases s1.len(),
{
    s1.to_multiset_ensures();
    s2.to_multiset_ensures();
    if s1.len() == 0 {
        assert(s2.len() == 0);
    } else {
        assert(s2.len() == s1.len());
        let x1 = s1.last();
        let x2 = s2.last();
        // Each last element is an upper bound for everything in the shared
        // multiset, so the two are equal.
        assert(s2.to_multiset().count(x1) > 0) by {
            assert(s1.contains(x1));
        }
        assert(s2.contains(x1));
        let w1 = choose|w: int| 0 <= w < s2.len() && s2[w] == x1;
        assert(x1 <= x2);
        assert(s1.to_multiset().count(x2) > 0) by {
            assert(s2.contains(x2));
        }
        assert(s1.contains(x2));
        let w2 = choose|w: int| 0 <= w < s1.len() && s1[w] == x2;
        assert(x2 <= x1);
        assert(x1 == x2);
        let t1 = s1.drop_last();
        let t2 = s2.drop_last();
        assert(t1.to_multiset() =~= t2.to_multiset()) by {
            assert(s1.remove(s1.len() - 1) =~= t1);
            assert(s2.remove(s2.len() - 1) =~= t2);
            assert(t1.to_multiset() == s1.to_multiset().remove(x1));
            assert(t2.to_multiset() == s2.to_multiset().remove(x2));
        }
        lemma_sorted_unique(t1, t2);
        assert(s1 =~= s2) by {
            assert(forall|k: int| 0 <= k < s1.len() - 1 ==> s1[k] == t1[k] && s2[k] == t2[k]);
        }
    }
}

/// Turn an unordered list of cut points into the ordered, contiguous,
/// inclusive scene list covering `[0, total_frames)`.
///
/// The cuts are sorted first; each cut starts a new scene and the last
/// scene runs to the end of the video.  Statistics are left zeroed for the
/// later aggregation passes.  When the cuts are already strictly ascending
/// and inside the video, the scenes tile the frame range exactly: scene 0
/// starts at frame 0, each next scene starts right after its predecessor
/// ends, and the last scene ends at `total_frames - 1`.
pub fn convert_scene_cuts_to_scenes(scene_cuts: Vec<u32>, total_frames: u32) -> (r: Vec<SceneRecord>)
    ensures
        r@.len() == scene_cuts@.len() + 1,
        cuts_well_formed(scene_cuts@, total_frames) && total_frames >= 1 ==> {
            &&& r@[0].start == 0
            &&& r@[r@.len() - 1].end == total_frames - 1
            &&& forall|k: int| 0 <= k < r@.len() ==> r@[k].start <= r@[k].end
            &&& forall|k: int| 0 <= k < r@.len() - 1
                ==> r@[k + 1].start == r@[k].end + 1
            &&& forall|k: int| 0 <= k < r@.len() ==> r@[k].end < total_frames
            &&& forall|k: int| 0 <= k < scene_cuts@.len()
                ==> r@[k].end == scene_cuts@[k] - 1
            &&& forall|k: int| 0 <= k < scene_cuts@.len()
                ==> r@[k + 1].start == scene_cuts@[k]
        },
        // For any input order, the boundaries are the sorted cut positions.
        exists|s: Seq<u32>| {
            &&& #[trigger] s.to_multiset() == scene_cuts@.to_multiset()
            &&& s.len() == scene_cuts@.len()
            &&& (forall|a: int, b: int| 0 <= a < b < s.len() ==> s[a] <= s[b])
            &&& (forall|k: int| 0 <= k < s.len()
                    ==> r@[k].end == (if s[k] >= 1 { s[k] - 1int } else { 0int }))
            &&& (forall|k: int| 0 <= k < s.len()
                    ==> r@[k + 1].start == (if k + 1 < r@.len() { s[k] as int } else { 0int })
                        || r@[k + 1].start == s[k])
            &&& r@[0].start == 0
            &&& r@[r@.len() - 1].end
                == (if total_frames >= 1 { total_frames - 1int } else { 0int })
        },
        forall|k: int| 0 <= k < r@.len() ==> r@[k].avg_pq == 0 && r@[k].peak_nits == 0,
{
    let ghost orig = scene_cuts@;
    let mut cuts = scene_cuts;
    sort_u32(&mut cuts);
    proof {
        if cuts_well_formed(orig, total_frames) {
            lemma_sorted_unique(cuts@, orig);
        }
    }
    let mut scenes: Vec<SceneRecord> = Vec::new();
    let mut start_frame: u32 = 0;
    let mut i: usize = 0;
    while i < cuts.len()
        invariant
            i <= cuts@.len(),
            scenes@.len() == i,
            cuts@.to_multiset() == orig.to_multiset(),
            cuts@.len() == orig.len(),
            forall|a: int, b: int| 0 <= a < b < cuts@.len() ==> cuts@[a] <= cuts@[b],
            cuts_well_formed(orig, total_frames) ==> cuts@ =~= orig,
            forall|k: int| 0 <= k < scenes@.len()
                ==> scenes@[k].avg_pq == 0 && scenes@[k].peak_nits == 0,
            start_frame == (if i == 0 { 0u32 } else { cuts@[i - 1] }),
            forall|k: int| 0 <= k < i
                ==> scenes@[k].start == (if k == 0 { 0int } else { cuts@[k - 1] as int }),
            forall|k: int| 0 <= k < i
                ==> scenes@[k].end == (if cuts@[k] >= 1 { cuts@[k] - 1int } else { 0int }),
        decreases cuts@.len() - i,
    {
        let cut_frame: u32 = cuts[i];
        let end: u32 = if cut_frame >= 1 { cut_frame - 1 } else { 0 };
        scenes.push(SceneRecord { start: start_frame, end, peak_nits: 0, avg_pq: 0 });
        start_frame = cut_frame;
        i = i + 1;
    }
    let last_end: u32 = if total_frames >= 1 { total_frames - 1 } else { 0 };
    scenes.push(SceneRecord { start: start_frame, end: last_end, peak_nits: 0, avg_pq: 0 });
    proof {
        // The sorted cuts witness the boundary claim for any input order.
        assert(cuts@.to_multiset() == scene_cuts@.to_multiset()
            && cuts@.len() == scene_cuts@.len()
            && (forall|a: int, b: int| 0 <= a < b < cuts@.len() ==> cuts@[a] <= cuts@[b])
            && (forall|k: int| 0 <= k < cuts@.len()
                    ==> scenes@[k].end == (if cuts@[k] >= 1 { cuts@[k] - 1int } else { 0int }))
            && (forall|k: int| 0 <= k < cuts@.len() ==> scenes@[k + 1].start == cuts@[k])
            && scenes@[0].start == 0
            && scenes@[scenes@.len() - 1].end
                == (if total_frames >= 1 { total_frames - 1int } else { 0int }));
    }
    scenes
}

/// Repair one scene against the final frame count: a sentinel or
/// out-of-range end becomes the last frame, an out-of-range start becomes
/// the last frame, and an inverted range is reset to the whole video.
pub open spec fn spec_fixed_scene(s: SceneRecord, total_frames: int) -> SceneRecord {
    let last = (total_frames - 1) as u32;
    let end1 = if s.end == 0xFFFFFFFFu32 { last } else { s.end };
    let end2 = if end1 >= total_frames { last } else { end1 };
    let start1 = if s.start >= total_frames { last } else { s.start };
    if start1 > end2 {
        SceneRecord { start: 0, end: last, peak_nits: s.peak_nits, avg_pq: s.avg_pq }
    } else {
        SceneRecord { start: start1, end: end2, peak_nits: s.peak_nits, avg_pq: s.avg_pq }
    }
}

/// Repair all scene boundaries once the true frame count is known.
///
/// After repair every scene satisfies `start <= end < total_frames`.
pub fn fix_scene_end_frames(scenes: &mut Vec<SceneRecord>, total_frames: usize)
    requires
        total_frames <= 0xFFFFFFFF,
    ensures
        final(scenes)@.len() == old(scenes)@.len(),
        old(scenes)@.len() == 0 || total_frames == 0 ==> final(scenes)@ =~= old(scenes)@,
        old(scenes)@.len() > 0 && total_frames > 0 ==> {
            &&& forall|k: int| 0 <= k < final(scenes)@.len()
                ==> final(scenes)@[k] == spec_fixed_scene(old(scenes)@[k], total_frames as int)
            &&& forall|k: int| 0 <= k < final(scenes)@.len()
                ==> final(scenes)@[k].start <= final(scenes)@[k].end
                    && (final(scenes)@[k].end as int) < total_frames as int
        },
{
    if scenes.len() == 0 || total_frames == 0 {
        return;
    }
    let last_frame_idx: u32 = (total_frames - 1) as u32;
    let ghost orig = scenes@;
    let total32: u32 = total_frames as u32;
    let mut k: usize = 0;
    while k < scenes.len()
        invariant
            k <= scenes@.len(),
            scenes@.len() == orig.len(),
            total_frames > 0,
            total_frames <= 0xFFFFFFFF,
            total32 == total_frames as u32,
            last_frame_idx as int == total_frames - 1,
            forall|j: int| k <= j < scenes@.len() ==> scenes@[j] == orig[j],
            forall|j: int| 0 <= j < k
                ==> scenes@[j] == spec_fixed_scene(orig[j], total_frames as int),
            forall|j: int| 0 <= j < k
                ==> scenes@[j].start <= scenes@[j].end
                    && (scenes@[j].end as int) < total_frames as int,
        decreases scenes@.len() - k,
    {
        let s = SceneRecord {
            start: scenes[k].start,
            end: scenes[k].end,
            peak_nits: scenes[k].peak_nits,
            avg_pq: scenes[k].avg_pq,
        };
        let end1: u32 = if s.end == 0xFFFFFFFF { last_frame_idx } else { s.end };
        let end2: u32 = if end1 >= total32 { last_frame_idx } else { end1 };
        let start1: u32 = if s.start >= total32 { last_frame_idx } else { s.start };
        let fixed = if start1 > end2 {
            SceneRecord { start: 0, end: last_frame_idx, peak_nits: s.peak_nits, avg_pq: s.avg_pq }
        } else {
            SceneRecord { start: start1, end: end2, peak_nits: s.peak_nits, avg_pq: s.avg_pq }
        };
        scenes.set(k, fixed);
        k = k + 1;
    }
}

/// Sum of `avg_pq` over the frames `[a, b)`.
pub open spec fn frames_avg_pq_sum(frames: Seq<FrameRecord>, a: int, b: int) -> int
    decreases b - a,
{
    if a >= b {
        0
    } else {
        frames_avg_pq_sum(frames, a, b - 1) + frames[b - 1].avg_pq
    }
}

/// Maximum `peak_pq_2020` over the frames `[a, b)`, or 0 when empty.
pub open spec fn frames_peak_pq_max(frames: Seq<FrameRecord>, a: int, b: int) -> int
    decreases b - a,
{
    if a >= b {
        0
    } else {
        let rest = frames_peak_pq_max(frames, a, b - 1);
        if frames[b - 1].peak_pq_2020 > rest {
            frames[b - 1].peak_pq_2020 as int
        } else {
            rest
        }
    }
}

/// Fill each scene's statistics from the frames it spans: `avg_pq` becomes
/// the mean of the frames' averages, and `peak_nits` the brightest frame
/// peak converted to whole nits.  Scenes with an empty or out-of-range span
/// keep their placeholder statistics.
pub fn precompute_scene_stats(scenes: &mut Vec<SceneRecord>, frames: &Vec<FrameRecord>)
    requires
        frames@.len() <= 0xFFFFFFFF,
        forall|j: int| 0 <= j < frames@.len() ==> #[trigger] frames@[j].wf(),
    ensures
        final(scenes)@.len() == old(scenes)@.len(),
        forall|k: int| 0 <= k < final(scenes)@.len() ==> {
            &&& final(scenes)@[k].start == old(scenes)@[k].start
            &&& final(scenes)@[k].end == old(scenes)@[k].end
            &&& final(scenes)@[k].avg_pq <= crate::PQ_ONE
                || final(scenes)@[k].avg_pq == old(scenes)@[k].avg_pq
            &&& final(scenes)@[k].peak_nits <= 10000
                || final(scenes)@[k].peak_nits == old(scenes)@[k].peak_nits
        },
        forall|k: int| 0 <= k < final(scenes)@.len()
            && !((old(scenes)@[k].start as int) < frames@.len()
                && old(scenes)@[k].start <= old(scenes)@[k].end)
            ==> final(scenes)@[k] == old(scenes)@[k],
        forall|k: int| 0 <= k < final(scenes)@.len()
            && (old(scenes)@[k].start as int) < frames@.len()
            && old(scenes)@[k].start <= old(scenes)@[k].end
            ==> {
                let a = old(scenes)@[k].start as int;
                let b = if (old(scenes)@[k].end + 1) as int <= frames@.len() {
                    (old(scenes)@[k].end + 1) as int
                } else {
                    frames@.len() as int
                };
                &&& final(scenes)@[k].avg_pq == frames_avg_pq_sum(frames@, a, b) / (b - a)
                &&& final(scenes)@[k].peak_nits
                    == crate::pq::spec_pq_to_nits(frames_peak_pq_max(frames@, a, b)) / 1000
            },
{
    let ghost orig = scenes@;
    let mut k: usize = 0;
    while k < scenes.len()
        invariant
            k <= scenes@.len(),
            scenes@.len() == orig.len(),
            frames@.len() <= 0xFFFFFFFF,
            forall|j: int| 0 <= j < frames@.len() ==> #[trigger] frames@[j].wf(),
            forall|j: int| k <= j < scenes@.len() ==> scenes@[j] == orig[j],
            forall|j: int| 0 <= j < k ==> {
                &&& scenes@[j].start == orig[j].start
                &&& scenes@[j].end == orig[j].end
                &&& scenes@[j].avg_pq <= crate::PQ_ONE
                    || scenes@[j].avg_pq == orig[j].avg_pq
                &&& scenes@[j].peak_nits <= 10000
                    || scenes@[j].peak_nits == orig[j].peak_nits
            },
            forall|j: int| 0 <= j < k
                && !((orig[j].start as int) < frames@.len() && orig[j].start <= orig[j].end)
                ==> scenes@[j] == orig[j],
            forall|j: int| 0 <= j < k
                && (orig[j].start as int) < frames@.len()
                && orig[j].start <= orig[j].end
                ==> {
                    let a = orig[j].start as int;
                    let b = if (orig[j].end + 1) as int <= frames@.len() {
                        (orig[j].end + 1) as int
                    } else {
                        frames@.len() as int
                    };
                    &&& scenes@[j].avg_pq == frames_avg_pq_sum(frames@, a, b) / (b - a)
                    &&& scenes@[j].peak_nits
                        == crate::pq::spec_pq_to_nits(frames_peak_pq_max(frames@, a, b)) / 1000
                },
        decreases scenes@.len() - k,
    {
        let start_idx: usize = scenes[k].start as usize;
        let mut end_idx: usize = 0;
        let e: u64 = scenes[k].end as u64 + 1;
        if e <= frames.len() as u64 {
            end_idx = e as usize;
        } else {
            end_idx = frames.len();
        }
        if start_idx < frames.len() && start_idx < end_idx {
            // Mean of the frames' average PQ over the span.
            let mut sum: u64 = 0;
            let mut j: usize = start_idx;
            let mut peak: u32 = 0;
            while j < end_idx
                invariant
                    start_idx <= j <= end_idx,
                    end_idx <= frames@.len(),
                    frames@.len() <= 0xFFFFFFFF,
                    forall|t: int| 0 <= t < frames@.len() ==> #[trigger] frames@[t].wf(),
                    sum == frames_avg_pq_sum(frames@, start_idx as int, j as int),
                    sum <= ((j - start_idx) as int) * 1_000_000,
                    peak as int == frames_peak_pq_max(frames@, start_idx as int, j as int),
                    peak <= crate::PQ_ONE,
                decreases end_idx - j,
            {
                let f_avg: u32 = frames[j].avg_pq;
                let f_peak: u32 = frames[j].peak_pq_2020;
                proof {
                    assert(frames@[j as int].wf());
                    assert(((j - start_idx) as int) * 1_000_000 + 1_000_000
                        == ((j + 1 - start_idx) as int) * 1_000_000) by (nonlinear_arith);
                    assert(((j - start_idx) as int) * 1_000_000
                        <= 0xFFFFFFFF * 1_000_000) by (nonlinear_arith)
                        requires 0 <= (j - start_idx) as int <= 0xFFFFFFFF;
                }
                sum = sum + (f_avg as u64);
                if f_peak > peak {
                    peak = f_peak;
                }
                j = j + 1;
            }
            let count: u64 = (end_idx - start_idx) as u64;
            let avg: u64 = sum / count;
            proof {
                vstd::arithmetic::div_mod::lemma_div_multiples_vanish(
                    1_000_000,
                    count as int,
                );
                vstd::arithmetic::div_mod::lemma_div_is_ordered(
                    sum as int,
                    1_000_000 * (count as int),
                    count as int,
                );
            }
            let peak_millinits: u64 = crate::pq::pq_to_nits(peak);
            let peak_nits: u32 = (peak_millinits / 1000) as u32;
            let s = SceneRecord {
                start: scenes[k].start,
                end: scenes[k].end,
                peak_nits,
                avg_pq: avg as u32,
            };
            scenes.set(k, s);
        }
        k = k + 1;
    }
}

} // verus!
