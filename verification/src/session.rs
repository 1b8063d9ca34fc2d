//! The analysis pipeline: per-run configuration, the stateful scene
//! segmenter, the frame-by-frame session, the histogram smoothing pass,
//! and the ordered passes that turn finished frames into a measurement
//! file.

use vstd::prelude::*;
use crate::{FrameRecord, SceneRecord};
use crate::crop::CropRect;
use crate::histogram::PeakPolicy;
use crate::optimizer::{ConfigError, OptimizerProfile, profile_wf};
use crate::scene::{calculate_histogram_difference, cut_allowed, cuts_well_formed,
    convert_scene_cuts_to_scenes};
use crate::codec::MeasurementError;

verus! {

/// The analysis configuration handed in by the caller, already reduced to
/// plain values: thresholds in micro-units, luminances in millinits.
pub struct AnalysisConfig {
    /// Scene-change threshold on the chi-squared metric, in millionths.
    pub scene_threshold_micro: u64,
    /// Minimum scene length in frames.
    pub min_scene_length: u32,
    /// Smoothing window over the scene metric; 0 disables smoothing.
    pub scene_smoothing: u32,
    /// Analyze the full frame instead of detecting the active area.
    pub no_crop: bool,
    /// Median-denoise the luma plane before analysis.
    pub denoise_median3: bool,
    /// Treat the signal as HLG and convert through absolute light.
    pub use_hlg: bool,
    /// Nominal HLG peak, in millinits.
    pub hlg_peak_millinits: u64,
    /// Analyze every n-th frame, reusing the last analysis in between.
    pub sample_rate: u32,
}

/// Check the configuration surface that must be rejected before any frame
/// is processed: the downscale factor must be 1, 2 or 4 and the thread
/// count, when given, must not be zero.
pub fn validate_config(downscale: u32, analysis_threads: Option<u64>) -> (r: Result<(), ConfigError>)
    ensures
        r == (if !(downscale == 1 || downscale == 2 || downscale == 4) {
            Result::<(), ConfigError>::Err(ConfigError::InvalidDownscale)
        } else if analysis_threads == Option::<u64>::Some(0u64) {
            Result::<(), ConfigError>::Err(ConfigError::ZeroThreads)
        } else {
            Result::<(), ConfigError>::Ok(())
        }),
{
    if !(downscale == 1 || downscale == 2 || downscale == 4) {
        return Result::Err(ConfigError::InvalidDownscale);
    }
    match analysis_threads {
        Option::Some(t) => {
            if t == 0 {
                return Result::Err(ConfigError::ZeroThreads);
            }
        },
        Option::None => {},
    }
    Result::Ok(())
}

/// The scene segmenter: compares each analyzed histogram with the previous
/// one, smooths the distance over a window, and records debounced cuts.
pub struct SceneDetector {
    /// Histogram of the previously analyzed frame.
    pub prev_histogram: Option<Vec<u32>>,
    /// Sliding window of raw distances, newest last.
    pub diff_window: Vec<u64>,
    /// Capacity of the sliding window; 0 uses the raw distance.
    pub smoothing_window: usize,
    /// Cut threshold on the (smoothed) distance, in millionths.
    pub threshold_micro: u64,
    /// Minimum frames between cuts.
    pub min_scene_length: u32,
    /// Frame index of the last accepted cut.
    pub last_cut_frame: u32,
    /// Accepted cut frames, ascending.
    pub cuts: Vec<u32>,
    /// Frames observed so far.
    pub frame_count: u32,
}

impl SceneDetector {
    /// Structural invariant: the recorded cuts are strictly ascending cut
    /// points inside the observed range, and the distance window respects
    /// its capacity.  The window capacity is capped so that the `u64`
    /// accumulator summing distances of up to `256 * 200_000_000` each can
    /// never overflow.
    pub open spec fn wf(&self) -> bool {
        &&& cuts_well_formed(self.cuts@, self.frame_count)
        &&& self.diff_window@.len() <= self.smoothing_window + 1
        &&& self.smoothing_window <= 100_000_000
        &&& (self.prev_histogram is Some ==> {
            &&& self.prev_histogram->0@.len() == 256
            &&& forall|i: int| 0 <= i < 256 ==> #[trigger] self.prev_histogram->0@[i] <= 64000
        })
        &&& (forall|i: int| 0 <= i < self.diff_window@.len()
                ==> #[trigger] self.diff_window@[i] <= 256 * 200_000_000)
        &&& (self.prev_histogram is Some ==> self.frame_count >= 1)
    }

    /// A fresh detector with no history.
    pub fn new(threshold_micro: u64, min_scene_length: u32, smoothing_window: u32) -> (r: Self)
        ensures
            r.wf(),
            r.frame_count == 0,
            r.cuts@.len() == 0,
    {
        SceneDetector {
            prev_histogram: Option::None,
            diff_window: Vec::new(),
            smoothing_window: if smoothing_window > 100_000_000 {
                100_000_000
            } else {
                smoothing_window as usize
            },
            threshold_micro,
            min_scene_length,
            last_cut_frame: 0,
            cuts: Vec::new(),
            frame_count: 0,
        }
    }

    /// The distance window after one observation: the raw distance pushed,
    /// the oldest entry dropped once the capacity is exceeded.
    pub open spec fn spec_next_window(self, raw: int) -> Seq<u64> {
        if self.smoothing_window > 0 {
            let w2 = self.diff_window@.push(raw as u64);
            if w2.len() > self.smoothing_window {
                w2.subrange(1, w2.len() as int)
            } else {
                w2
            }
        } else {
            self.diff_window@
        }
    }

    /// Whether this observation records a cut: a previous histogram exists,
    /// the (window-smoothed) chi-squared distance exceeds the threshold,
    /// and the debounce distance to the last cut is respected.
    pub open spec fn spec_cut_taken(self, histogram: Seq<u32>) -> bool {
        &&& self.prev_histogram is Some
        &&& ({
            let raw = crate::scene::spec_chi2(histogram, self.prev_histogram->0@);
            let w = self.spec_next_window(raw);
            let decision = if self.smoothing_window > 0 {
                crate::optimizer::seq_sum_u64(w) / (w.len() as int)
            } else {
                raw
            };
            &&& decision > self.threshold_micro
            &&& (if self.frame_count >= self.last_cut_frame {
                    self.frame_count - self.last_cut_frame
                } else {
                    0int
                }) >= self.min_scene_length
        })
    }

    /// Feed the histogram of the next analyzed frame.  After the first
    /// frame, the chi-squared distance to the previous histogram (smoothed
    /// over the window when one is configured) is compared with the
    /// threshold, and a cut is recorded exactly when it fires and the
    /// debounce allows it.
    pub fn observe(&mut self, histogram: &Vec<u32>)
        requires
            old(self).wf(),
            old(self).frame_count < 0xFFFFFFFF,
            histogram@.len() == 256,
            forall|i: int| 0 <= i < 256 ==> #[trigger] histogram@[i] <= 64000,
        ensures
            final(self).wf(),
            final(self).frame_count == old(self).frame_count + 1,
            final(self).smoothing_window == old(self).smoothing_window,
            final(self).threshold_micro == old(self).threshold_micro,
            final(self).min_scene_length == old(self).min_scene_length,
            final(self).prev_histogram is Some
                && final(self).prev_histogram->0@ == histogram@,
            final(self).cuts@ == (if old(self).spec_cut_taken(histogram@) {
                old(self).cuts@.push(old(self).frame_count)
            } else {
                old(self).cuts@
            }),
            final(self).last_cut_frame == (if old(self).spec_cut_taken(histogram@) {
                old(self).frame_count
            } else {
                old(self).last_cut_frame
            }),
            final(self).diff_window@ == (if old(self).prev_histogram is Some {
                old(self).spec_next_window(
                    crate::scene::spec_chi2(histogram@, old(self).prev_histogram->0@))
            } else {
                old(self).diff_window@
            }),
    {
        match &self.prev_histogram {
            Option::Some(prev) => {
                let raw: u64 = calculate_histogram_difference(histogram, prev);
                let decision: u64 = if self.smoothing_window > 0 {
                    self.diff_window.push(raw);
                    if self.diff_window.len() > self.smoothing_window {
                        let ghost pre2 = self.diff_window@;
                        let _dropped = self.diff_window.remove(0);
                        proof {
                            assert(self.diff_window@ =~= pre2.remove(0));
                            assert(pre2.remove(0) =~= pre2.subrange(1, pre2.len() as int));
                        }
                    }
                    proof {
                        assert(self.diff_window@
                            == old(self).spec_next_window(raw as int));
                    }
                    window_mean(&self.diff_window)
                } else {
                    raw
                };
                if decision > self.threshold_micro
                    && cut_allowed(Option::Some(self.last_cut_frame), self.frame_count,
                        self.min_scene_length)
                {
                    let ghost pre_cuts = self.cuts@;
                    proof {
                        lemma_cuts_all_below(pre_cuts, self.frame_count);
                        assert(old(self).spec_cut_taken(histogram@));
                    }
                    self.cuts.push(self.frame_count);
                    self.last_cut_frame = self.frame_count;
                    proof {
                        assert(self.cuts@ =~= pre_cuts.push(self.frame_count));
                    }
                } else {
                    proof {
                        assert(!old(self).spec_cut_taken(histogram@));
                    }
                }
            },
            Option::None => {
                proof {
                    assert(!old(self).spec_cut_taken(histogram@));
                }
            },
        }
        self.prev_histogram = Option::Some(crate::optimizer::clone_u32_vec(histogram));
        self.frame_count = self.frame_count + 1;
    }

    /// Close the run: turn the recorded cuts into the contiguous scene
    /// list covering every observed frame, one scene boundary per cut.
    pub fn into_scenes(self) -> (r: Vec<SceneRecord>)
        requires
            self.wf(),
            self.frame_count >= 1,
        ensures
            r@.len() == self.cuts@.len() + 1,
            r@[0].start == 0,
            r@[r@.len() - 1].end == self.frame_count - 1,
            forall|k: int| 0 <= k < r@.len() ==> r@[k].start <= r@[k].end,
            forall|k: int| 0 <= k < r@.len() - 1 ==> r@[k + 1].start == r@[k].end + 1,
            forall|k: int| 0 <= k < r@.len() ==> r@[k].end < self.frame_count,
            forall|k: int| 0 <= k < self.cuts@.len() ==> r@[k].end == self.cuts@[k] - 1,
            forall|k: int| 0 <= k < self.cuts@.len() ==> r@[k + 1].start == self.cuts@[k],
    {
        convert_scene_cuts_to_scenes(self.cuts, self.frame_count)
    }
}

/// All recorded cuts lie strictly below the current frame counter.
proof fn lemma_cuts_all_below(cuts: Seq<u32>, frame_count: u32)
    requires
        cuts_well_formed(cuts, frame_count),
    ensures
        forall|i: int| 0 <= i < cuts.len() ==> #[trigger] cuts[i] < frame_count,
{
}

/// Mean of the values in the distance window.
fn window_mean(w: &Vec<u64>) -> (r: u64)
    requires
        w@.len() >= 1,
        w@.len() <= 100_000_001,
        forall|i: int| 0 <= i < w@.len() ==> #[trigger] w@[i] <= 256 * 200_000_000,
    ensures
        r == crate::optimizer::seq_sum_u64(w@) / (w@.len() as int),
        r <= 256 * 200_000_000,
{
    let mut sum: u64 = 0;
    let mut i: usize = 0;
    proof {
        assert(w@.subrange(0, 0) =~= Seq::<u64>::empty());
    }
    while i < w.len()
        invariant
            i <= w@.len(),
            w@.len() <= 100_000_001,
            forall|t: int| 0 <= t < w@.len() ==> #[trigger] w@[t] <= 256 * 200_000_000,
            sum <= (i as int) * (256 * 200_000_000),
            sum == crate::optimizer::seq_sum_u64(w@.subrange(0, i as int)),
        decreases w@.len() - i,
    {
        proof {
            assert((i as int) * (256 * 200_000_000) + 256 * 200_000_000
                == (i + 1) * (256 * 200_000_000)) by (nonlinear_arith);
            assert((i as int) * (256 * 200_000_000) <= 100_000_001 * (256 * 200_000_000))
                by (nonlinear_arith)
                requires 0 <= i <= 100_000_001;
            assert(w@.subrange(0, i + 1).drop_last() =~= w@.subrange(0, i as int));
            assert(w@.subrange(0, i + 1).last() == w@[i as int]);
        }
        sum = sum + w[i];
        i = i + 1;
    }
    proof {
        assert(w@.subrange(0, w@.len() as int) =~= w@);
    }
    let n: u64 = w.len() as u64;
    let m: u64 = sum / n;
    proof {
        vstd::arithmetic::div_mod::lemma_div_multiples_vanish(
            (256 * 200_000_000) as int, n as int);
        vstd::arithmetic::div_mod::lemma_div_is_ordered(
            sum as int,
            (256 * 200_000_000) * (n as int),
            n as int,
        );
        assert((n as int) * (256 * 200_000_000) == (256 * 200_000_000) * (n as int))
            by (nonlinear_arith);
        assert(sum as int <= (n as int) * (256 * 200_000_000)) by (nonlinear_arith)
            requires
                sum as int <= (w@.len() as int) * (256 * 200_000_000),
                n == w@.len();
    }
    m
}

/// One frame-analysis session: detects the crop once, analyzes every
/// `sample_rate`-th frame (reusing the last analysis in between), and runs
/// scene detection over the analyzed histograms.
pub struct AnalysisSession {
    /// Per-run configuration.
    pub config: AnalysisConfig,
    /// The scene segmenter.
    pub detector: SceneDetector,
    /// One record per observed frame, in presentation order.
    pub frames: Vec<FrameRecord>,
    /// The crop rectangle, fixed by the first frame.
    pub crop: Option<CropRect>,
    /// The most recent fully analyzed record, reused for sampled-out frames.
    pub last_analyzed: Option<FrameRecord>,
}

/// Copy a frame record field by field.
pub fn clone_frame(f: &FrameRecord) -> (r: FrameRecord)
    ensures
        r.peak_pq_2020 == f.peak_pq_2020,
        r.peak_pq_dcip3 == f.peak_pq_dcip3,
        r.peak_pq_709 == f.peak_pq_709,
        r.avg_pq == f.avg_pq,
        r.lum_histogram@ == f.lum_histogram@,
        r.hue_histogram@ == f.hue_histogram@,
        r.target_nits == f.target_nits,
        f.wf() ==> r.wf(),
{
    FrameRecord {
        peak_pq_2020: f.peak_pq_2020,
        peak_pq_dcip3: f.peak_pq_dcip3,
        peak_pq_709: f.peak_pq_709,
        avg_pq: f.avg_pq,
        lum_histogram: crate::optimizer::clone_u32_vec(&f.lum_histogram),
        hue_histogram: crate::optimizer::clone_u32_vec(&f.hue_histogram),
        target_nits: f.target_nits,
    }
}

impl AnalysisSession {
    /// Structural invariant: the detector has seen exactly the frames the
    /// session holds, and every record is well formed.
    pub open spec fn wf(&self) -> bool {
        &&& self.detector.wf()
        &&& self.detector.frame_count == self.frames@.len()
        &&& forall|j: int| 0 <= j < self.frames@.len() ==> (#[trigger] self.frames@[j]).wf()
        &&& (self.last_analyzed is Some ==> self.last_analyzed->0.wf())
        &&& (self.crop is Some ==> {
            &&& self.crop->0.width <= 32768
            &&& self.crop->0.height <= 32768
            &&& self.crop->0.x <= 0x7FFFFFFF - 32768
            &&& self.crop->0.y <= 0x7FFFFFFF - 32768
        })
    }

    /// Start a session.
    pub fn new(config: AnalysisConfig) -> (r: Self)
        ensures
            r.wf(),
            r.frames@.len() == 0,
    {
        let detector = SceneDetector::new(
            config.scene_threshold_micro,
            config.min_scene_length,
            config.scene_smoothing,
        );
        AnalysisSession {
            config,
            detector,
            frames: Vec::new(),
            crop: Option::None,
            last_analyzed: Option::None,
        }
    }

    /// Feed the next decoded frame's planes, in presentation order.
    ///
    /// The first frame fixes the crop rectangle (detected, or the full
    /// frame when cropping is off); each analyzed frame updates the scene
    /// segmenter; sampled-out frames reuse the previous analysis.
    pub fn push_frame(
        &mut self,
        y_data: &Vec<u8>,
        y_stride: usize,
        u_data: &Vec<u8>,
        u_stride: usize,
        v_data: &Vec<u8>,
        v_stride: usize,
        width: u32,
        height: u32,
    )
        requires
            old(self).wf(),
            old(self).frames@.len() < 0xFFFFFFFF,
            y_stride <= 0x7FFFFFFF,
            u_stride <= 0x7FFFFFFF,
            v_stride <= 0x7FFFFFFF,
            width <= 32768,
            height <= 32768,
        ensures
            final(self).wf(),
            final(self).frames@.len() == old(self).frames@.len() + 1,
            final(self).frames@.subrange(0, old(self).frames@.len() as int)
                == old(self).frames@,
            final(self).crop is Some,
            old(self).crop is Some ==> final(self).crop == old(self).crop,
            // The detector observed exactly the pushed record's histogram.
            final(self).detector.frame_count == old(self).detector.frame_count + 1,
            final(self).detector.prev_histogram is Some
                && final(self).detector.prev_histogram->0@
                    == final(self).frames@.last().lum_histogram@,
            final(self).detector.cuts@ == (if old(self).detector.spec_cut_taken(
                final(self).frames@.last().lum_histogram@) {
                old(self).detector.cuts@.push(old(self).detector.frame_count)
            } else {
                old(self).detector.cuts@
            }),
            // An analyzed frame (the sampling rule fires, or nothing is
            // cached yet) is the analyzer's exact result for the fixed crop.
            (!old(self).config.denoise_median3
                && ((old(self).frames@.len() as u32)
                        % (if old(self).config.sample_rate == 0 { 1u32 }
                            else { old(self).config.sample_rate }) == 0
                    || old(self).last_analyzed is None))
                ==> ({
                    let rect = final(self).crop->0;
                    let f = final(self).frames@.last();
                    let xs = rect.x as int;
                    let xe = rect.x + rect.width;
                    let ys = rect.y as int;
                    let ye = rect.y + rect.height;
                    &&& f.peak_pq_2020 == crate::frame::spec_rect_max_pq(y_data@,
                            y_stride as int, ys, ye as int, xs, xe as int,
                            old(self).config.use_hlg,
                            old(self).config.hlg_peak_millinits as int)
                    &&& f.avg_pq == crate::codec::spec_avg_pq_mid_bin(f.lum_histogram@)
                    &&& f.target_nits is None
                }),
    {
        // Fix the crop on the first frame.
        let rect: CropRect = match &self.crop {
            Option::Some(r) => {
                let c = CropRect { x: r.x, y: r.y, width: r.width, height: r.height };
                c
            },
            Option::None => {
                let detected: CropRect = if self.config.no_crop {
                    CropRect::full(width, height)
                } else {
                    crate::crop::detect_crop(y_data, y_stride, width, height)
                };
                let clamped = clamp_crop(&detected, width, height);
                self.crop = Option::Some(clamped);
                clamped
            },
        };
        let sample_rate: u32 = if self.config.sample_rate == 0 {
            1
        } else {
            self.config.sample_rate
        };
        let count32: u32 = self.frames.len() as u32;
        let should_analyze: bool = count32 % sample_rate == 0 || !matches!(
            &self.last_analyzed, Option::Some(_));
        let record: FrameRecord = if should_analyze {
            let rec = crate::frame::analyze_native_frame_cropped(
                y_data, y_stride, u_data, u_stride, v_data, v_stride, &rect,
                self.config.denoise_median3, self.config.use_hlg,
                self.config.hlg_peak_millinits,
            );
            self.detector.observe(&rec.lum_histogram);
            self.last_analyzed = Option::Some(clone_frame(&rec));
            rec
        } else {
            let cached = match &self.last_analyzed {
                Option::Some(f) => clone_frame(f),
                Option::None => crate::frame::analyze_native_frame_cropped(
                    y_data, y_stride, u_data, u_stride, v_data, v_stride, &rect,
                    self.config.denoise_median3, self.config.use_hlg,
                    self.config.hlg_peak_millinits,
                ),
            };
            self.detector.observe(&cached.lum_histogram);
            cached
        };
        let ghost pre_frames = self.frames@;
        self.frames.push(record);
        proof {
            assert(self.frames@.subrange(0, pre_frames.len() as int) =~= pre_frames);
        }
    }

    /// Close the session: the contiguous scene list and the frame records,
    /// with one scene boundary per cut the detector recorded.
    pub fn finish(self) -> (r: (Vec<SceneRecord>, Vec<FrameRecord>))
        requires
            self.wf(),
        ensures
            r.1@ == self.frames@,
            forall|j: int| 0 <= j < r.1@.len() ==> (#[trigger] r.1@[j]).wf(),
            r.1@.len() >= 1 ==> {
                &&& r.0@.len() == self.detector.cuts@.len() + 1
                &&& r.0@[0].start == 0
                &&& r.0@[r.0@.len() - 1].end == r.1@.len() - 1
                &&& forall|k: int| 0 <= k < r.0@.len() ==> r.0@[k].start <= r.0@[k].end
                &&& forall|k: int| 0 <= k < r.0@.len() - 1
                        ==> r.0@[k + 1].start == r.0@[k].end + 1
                &&& forall|k: int| 0 <= k < r.0@.len() ==> (r.0@[k].end as int) < r.1@.len()
                &&& forall|k: int| 0 <= k < self.detector.cuts@.len()
                        ==> r.0@[k].end == self.detector.cuts@[k] - 1
                &&& forall|k: int| 0 <= k < self.detector.cuts@.len()
                        ==> r.0@[k + 1].start == self.detector.cuts@[k]
            },
    {
        if self.frames.len() == 0 {
            return (Vec::new(), self.frames);
        }
        let frames = self.frames;
        let scenes = SceneDetector {
            prev_histogram: self.detector.prev_histogram,
            diff_window: self.detector.diff_window,
            smoothing_window: self.detector.smoothing_window,
            threshold_micro: self.detector.threshold_micro,
            min_scene_length: self.detector.min_scene_length,
            last_cut_frame: self.detector.last_cut_frame,
            cuts: self.detector.cuts,
            frame_count: frames.len() as u32,
        }.into_scenes();
        (scenes, frames)
    }
}

/// Clamp a crop rectangle into the frame so the analyzer's bounds hold.
fn clamp_crop(r: &CropRect, width: u32, height: u32) -> (c: CropRect)
    requires
        width <= 32768,
        height <= 32768,
    ensures
        c.width <= 32768,
        c.height <= 32768,
        c.x <= 0x7FFFFFFF - 32768,
        c.y <= 0x7FFFFFFF - 32768,
{
    let x = if r.x > width { width } else { r.x };
    let y = if r.y > height { height } else { r.y };
    let w = if r.width > width { width } else { r.width };
    let h = if r.height > height { height } else { r.height };
    CropRect { x, y, width: w, height: h }
}

} // verus!

verus! {

/// Re-smooth each scene's histograms in time and refresh the derived
/// statistics: an exponential moving average per bin (reset at every scene
/// boundary), an optional temporal median over the last few frames, a peak
/// re-selection under the configured policy, and a recomputed mid-bin
/// average.
#[verifier::rlimit(100)]
pub fn apply_histogram_smoothing_pass(
    scenes: &Vec<SceneRecord>,
    frames: &mut Vec<FrameRecord>,
    ema_beta_permille: u32,
    temporal_window: usize,
    peak_policy: PeakPolicy,
)
    requires
        forall|j: int| 0 <= j < old(frames)@.len() ==> (#[trigger] old(frames)@[j]).wf(),
        old(frames)@.len() <= 0xFFFFFFFF,
        temporal_window <= 0x7FFFFFFF,
    ensures
        final(frames)@.len() == old(frames)@.len(),
        forall|j: int| 0 <= j < final(frames)@.len() ==> (#[trigger] final(frames)@[j]).wf(),
        crate::optimizer::scenes_ordered(scenes@) ==> forall|k: int, t: int|
            #![trigger scenes@[k], final(frames)@[t]]
            0 <= k < scenes@.len() && scenes@[k].start <= t
                && t <= scenes@[k].end && 0 <= t < final(frames)@.len()
            ==> {
                &&& final(frames)@[t].avg_pq
                    == crate::codec::spec_avg_pq_mid_bin(final(frames)@[t].lum_histogram@)
                &&& final(frames)@[t].peak_pq_2020 == (match peak_policy {
                    PeakPolicy::Max => old(frames)@[t].peak_pq_2020 as int,
                    PeakPolicy::Histogram99 => crate::histogram::spec_percentile_pq(
                        final(frames)@[t].lum_histogram@, 640),
                    PeakPolicy::Histogram999 => crate::histogram::spec_percentile_pq(
                        final(frames)@[t].lum_histogram@, 64),
                })
            },
{
    let ghost orig = frames@;
    let mut s: usize = 0;
    while s < scenes.len()
        invariant
            s <= scenes@.len(),
            frames@.len() == orig.len(),
            orig.len() <= 0xFFFFFFFF,
            temporal_window <= 0x7FFFFFFF,
            forall|j: int| 0 <= j < frames@.len() ==> (#[trigger] frames@[j]).wf(),
            crate::optimizer::scenes_ordered(scenes@) ==> forall|k: int, t: int|
                #![trigger scenes@[k], frames@[t]]
                0 <= k < s && scenes@[k].start <= t
                    && t <= scenes@[k].end && 0 <= t < frames@.len()
                ==> {
                    &&& frames@[t].avg_pq
                        == crate::codec::spec_avg_pq_mid_bin(frames@[t].lum_histogram@)
                    &&& frames@[t].peak_pq_2020 == (match peak_policy {
                        PeakPolicy::Max => orig[t].peak_pq_2020 as int,
                        PeakPolicy::Histogram99 => crate::histogram::spec_percentile_pq(
                            frames@[t].lum_histogram@, 640),
                        PeakPolicy::Histogram999 => crate::histogram::spec_percentile_pq(
                            frames@[t].lum_histogram@, 64),
                    })
                },
            crate::optimizer::scenes_ordered(scenes@) ==> forall|j: int|
                0 <= j < frames@.len()
                    && (forall|k: int| 0 <= k < s
                        ==> !((#[trigger] scenes@[k]).start <= j <= scenes@[k].end))
                ==> (#[trigger] frames@[j]) == orig[j],
        decreases scenes@.len() - s,
    {
        let ghost scene_entry = frames@;
        let start: usize = scenes[s].start as usize;
        let send: u64 = scenes[s].end as u64 + 1;
        let end: usize = if send <= frames.len() as u64 {
            send as usize
        } else {
            frames.len()
        };
        // Fresh smoothing state at the scene boundary.
        let mut ema_state: Vec<u64> = Vec::new();
        let mut i: usize = 0;
        while i < 256
            invariant
                i <= 256,
                ema_state@.len() == i,
                forall|t: int| 0 <= t < ema_state@.len() ==> #[trigger] ema_state@[t] == 0,
            decreases 256 - i,
        {
            ema_state.push(0);
            i = i + 1;
        }
        let mut history: Vec<Vec<u32>> = Vec::new();
        let mut j: usize = start;
        while j < end
            invariant
                start <= j || j == start,
                j <= end || j == start,
                end <= frames@.len(),
                frames@.len() == orig.len(),
                temporal_window <= 0x7FFFFFFF,
                ema_state@.len() == 256,
                forall|t: int| 0 <= t < ema_state@.len()
                    ==> #[trigger] ema_state@[t] <= 64000 * 65536,
                history@.len() <= 0x7FFFFFFF,
                temporal_window >= 1 ==> history@.len() <= temporal_window,
                temporal_window == 0 ==> history@.len() == 0,
                forall|k: int| 0 <= k < history@.len()
                    ==> (#[trigger] history@[k])@.len() == 256,
                forall|k: int, t: int| 0 <= k < history@.len() && 0 <= t < 256
                    ==> (#[trigger] history@[k]@[t]) <= 64000,
                forall|t: int| 0 <= t < frames@.len() ==> (#[trigger] frames@[t]).wf(),
                forall|t: int| 0 <= t < frames@.len() && !(start <= t < j)
                    ==> (#[trigger] frames@[t]) == scene_entry[t],
                forall|t: int| start <= t < j ==> {
                    &&& (#[trigger] frames@[t]).avg_pq
                        == crate::codec::spec_avg_pq_mid_bin(frames@[t].lum_histogram@)
                    &&& frames@[t].peak_pq_2020 == (match peak_policy {
                        PeakPolicy::Max => scene_entry[t].peak_pq_2020 as int,
                        PeakPolicy::Histogram99 => crate::histogram::spec_percentile_pq(
                            frames@[t].lum_histogram@, 640),
                        PeakPolicy::Histogram999 => crate::histogram::spec_percentile_pq(
                            frames@[t].lum_histogram@, 64),
                    })
                },
            decreases end - j,
        {
            let direct_max_pq: u32 = frames[j].peak_pq_2020;
            let mut hist: Vec<u32> = crate::optimizer::clone_u32_vec(&frames[j].lum_histogram);
            proof {
                assert(frames@[j as int].wf());
            }
            if ema_beta_permille > 0 {
                crate::histogram::apply_histogram_ema(
                    &mut hist, &mut ema_state, ema_beta_permille);
            }
            if temporal_window > 0 && history.len() > 0 {
                crate::histogram::apply_histogram_temporal_median(&mut hist, &history);
            }
            if temporal_window > 0 {
                history.push(crate::optimizer::clone_u32_vec(&hist));
                if history.len() >= temporal_window && history.len() > 1 {
                    let ghost pre = history@;
                    let _old = history.remove(0);
                }
            }
            let peak: u32 = crate::histogram::select_peak_pq(&hist, direct_max_pq, peak_policy);
            let avg: u32 = crate::codec::avg_pq_mid_bin(&hist);
            let f = FrameRecord {
                peak_pq_2020: peak,
                peak_pq_dcip3: frames[j].peak_pq_dcip3,
                peak_pq_709: frames[j].peak_pq_709,
                avg_pq: avg,
                lum_histogram: hist,
                hue_histogram: crate::optimizer::clone_u32_vec(&frames[j].hue_histogram),
                target_nits: frames[j].target_nits,
            };
            frames.set(j, f);
            j = j + 1;
        }
        s = s + 1;
        proof {
            if crate::optimizer::scenes_ordered(scenes@) {
                // Earlier scenes lie wholly before this one, so their frames
                // kept the statistics pinned when they were processed.
                assert forall|k: int, t: int|
                    0 <= k < s && scenes@[k].start <= t
                        && t <= scenes@[k].end && 0 <= t < frames@.len()
                    implies {
                        &&& frames@[t].avg_pq
                            == crate::codec::spec_avg_pq_mid_bin(frames@[t].lum_histogram@)
                        &&& frames@[t].peak_pq_2020 == (match peak_policy {
                            PeakPolicy::Max => orig[t].peak_pq_2020 as int,
                            PeakPolicy::Histogram99 => crate::histogram::spec_percentile_pq(
                                frames@[t].lum_histogram@, 640),
                            PeakPolicy::Histogram999 => crate::histogram::spec_percentile_pq(
                                frames@[t].lum_histogram@, 64),
                        })
                    } by {
                    if k == s - 1 {
                        assert(t < end);
                        // Ordering keeps every earlier scene clear of t, so
                        // the frame still held its original peak when this
                        // scene read it.
                        assert forall|k2: int| 0 <= k2 < s - 1
                            implies !((#[trigger] scenes@[k2]).start <= t
                                <= scenes@[k2].end) by {
                            crate::optimizer::lemma_scenes_ordered_trans_pub(
                                scenes@, k2, s - 1);
                        }
                        assert(scene_entry[t] == orig[t]);
                        assert(scene_entry[t].peak_pq_2020 == orig[t].peak_pq_2020);
                    } else {
                        crate::optimizer::lemma_scenes_ordered_trans_pub(scenes@, k, s - 1);
                        assert(frames@[t] == scene_entry[t]);
                    }
                }
                assert forall|j2: int|
                    0 <= j2 < frames@.len()
                        && (forall|k: int| 0 <= k < s
                            ==> !((#[trigger] scenes@[k]).start <= j2 <= scenes@[k].end))
                    implies (#[trigger] frames@[j2]) == orig[j2] by {
                    assert(!(scenes@[s - 1].start <= j2 <= scenes@[s - 1].end));
                    assert(frames@[j2] == scene_entry[j2]);
                }
            }
        }
    }
}

/// The measurement passes, in order: repair scene bounds against the final
/// frame count, optionally re-smooth histograms, aggregate per-scene
/// statistics, run the optimizer and the optional target smoother, and
/// encode the measurement file.
///
/// Smoothing runs when `ema_beta_permille` or `temporal_window` is set;
/// the target smoother runs only together with the optimizer.
#[verifier::rlimit(50)]
pub fn run_measurement_passes(
    scenes: &mut Vec<SceneRecord>,
    frames: &mut Vec<FrameRecord>,
    ema_beta_permille: u32,
    temporal_window: usize,
    peak_policy: PeakPolicy,
    enable_optimizer: bool,
    profile: OptimizerProfile,
    smoother_ema: bool,
    smoother_alpha_permille: u32,
    smoother_bidirectional: bool,
    madvr_version: u32,
    target_peak_nits: Option<u32>,
    header_peak: PeakPolicy,
) -> (r: Result<Vec<u8>, MeasurementError>)
    requires
        forall|j: int| 0 <= j < old(frames)@.len() ==> (#[trigger] old(frames)@[j]).wf(),
        old(frames)@.len() <= 0xFFFFFFFE,
        old(scenes)@.len() <= 0xFFFFFFFF,
        temporal_window <= 0x7FFFFFFF,
        profile_wf(profile),
    ensures
        (madvr_version != 5 && madvr_version != 6) ==> r is Err,
        final(frames)@.len() == old(frames)@.len(),
        final(scenes)@.len() == old(scenes)@.len(),
        r is Err ==> (r->Err_0 == MeasurementError::UnsupportedVersion
            || r->Err_0 == MeasurementError::InvalidSceneBound
            || r->Err_0 == MeasurementError::MissingTarget),
        r is Ok ==> exists|m: crate::codec::Measurements| {
            &&& crate::codec::measurements_encodable(m)
            &&& (#[trigger] crate::codec::spec_ser_measurements(m)) == r->Ok_0@
            &&& m.header.version == madvr_version
            &&& m.header.flags == (if enable_optimizer { 3u32 } else { 2u32 })
            &&& m.header.scene_count == final(scenes)@.len()
            &&& m.header.frame_count == final(frames)@.len()
            &&& m.scenes@ == final(scenes)@
        },
{
    crate::scene::fix_scene_end_frames(scenes, frames.len());
    if ema_beta_permille > 0 || temporal_window > 0 {
        apply_histogram_smoothing_pass(
            scenes, frames, ema_beta_permille, temporal_window, peak_policy);
    }
    crate::scene::precompute_scene_stats(scenes, frames);
    if enable_optimizer {
        crate::optimizer::run_optimizer_pass(scenes, frames, &profile);
        if smoother_ema {
            crate::optimizer::apply_target_smoother(
                scenes, frames, smoother_alpha_permille, smoother_bidirectional,
                profile.max_delta_per_frame);
        }
    }
    // A sentinel end can survive only when there were no frames to repair
    // against; such a scene list cannot be encoded.
    let mut k: usize = 0;
    while k < scenes.len()
        invariant
            k <= scenes@.len(),
            scenes@.len() == old(scenes)@.len(),
            frames@.len() == old(frames)@.len(),
            forall|t: int| 0 <= t < k ==> (#[trigger] scenes@[t]).end < 0xFFFFFFFFu32,
        decreases scenes@.len() - k,
    {
        if scenes[k].end == 0xFFFFFFFF {
            return Result::Err(MeasurementError::InvalidSceneBound);
        }
        k = k + 1;
    }
    let m = match crate::codec::build_measurements(
        scenes, frames, enable_optimizer, madvr_version, target_peak_nits, header_peak) {
        Result::Ok(m) => m,
        Result::Err(e) => {
            return Result::Err(e);
        },
    };
    let bytes = crate::codec::serialize_measurements(&m);
    proof {
        // The built value witnesses the byte-level claim.
        assert(crate::codec::measurements_encodable(m)
            && crate::codec::spec_ser_measurements(m) == bytes@);
    }
    Result::Ok(bytes)
}

} // verus!
