//! The scene-aware optimizer: derives a flicker-limited tone-mapping target
//! per frame from rolling picture-level statistics and the highlight knee.

use vstd::prelude::*;
use crate::{FrameRecord, SceneRecord};
use crate::histogram::find_highlight_knee_nits;
use crate::pq::pq_to_nits;

verus! {

/// A configuration error detected before any frame is processed.
#[derive(Clone, Copy, Debug, PartialEq, Eq, Structural)]
pub enum ConfigError {
    /// The optimizer profile name is not one of the known profiles.
    InvalidProfile,
    /// The analysis downscale factor is not 1, 2 or 4.
    InvalidDownscale,
    /// The analysis thread count is zero.
    ZeroThreads,
}

/// Immutable optimizer tuning: delta limits, clamp ranges per scene class,
/// and knee handling.  Knee multipliers are percentages (100 = x1.0).
#[derive(Clone, Copy, Debug)]
pub struct OptimizerProfile {
    /// Largest change of the target between consecutive frames, in nits.
    pub max_delta_per_frame: u16,
    /// Peaks above this many nits are hard-capped at the knee.
    pub extreme_peak_threshold: u32,
    /// Target clamp range for dark scenes, in nits.
    pub dark_scene_clamp: (u32, u32),
    /// Target clamp range for medium scenes, in nits.
    pub medium_scene_clamp: (u32, u32),
    /// Target clamp range for bright scenes, in nits.
    pub bright_scene_clamp: (u32, u32),
    /// Knee headroom for dark scenes, percent.
    pub dark_knee_multiplier_percent: u32,
    /// Knee headroom for medium scenes, percent.
    pub medium_knee_multiplier_percent: u32,
    /// Knee headroom for bright scenes, percent.
    pub bright_knee_multiplier_percent: u32,
    /// Length of the rolling window that smooths the highlight knee.
    pub knee_smoothing_window: usize,
}

/// The slow, steady profile.
pub open spec fn spec_conservative() -> OptimizerProfile {
    OptimizerProfile {
        max_delta_per_frame: 100,
        extreme_peak_threshold: 3500,
        dark_scene_clamp: (600, 1500),
        medium_scene_clamp: (500, 1200),
        bright_scene_clamp: (400, 900),
        dark_knee_multiplier_percent: 110,
        medium_knee_multiplier_percent: 105,
        bright_knee_multiplier_percent: 100,
        knee_smoothing_window: 10,
    }
}

/// The default middle-ground profile.
pub open spec fn spec_balanced() -> OptimizerProfile {
    OptimizerProfile {
        max_delta_per_frame: 200,
        extreme_peak_threshold: 4000,
        dark_scene_clamp: (800, 2000),
        medium_scene_clamp: (600, 1500),
        bright_scene_clamp: (400, 1000),
        dark_knee_multiplier_percent: 120,
        medium_knee_multiplier_percent: 110,
        bright_knee_multiplier_percent: 100,
        knee_smoothing_window: 5,
    }
}

/// The fast, bright profile.
pub open spec fn spec_aggressive() -> OptimizerProfile {
    OptimizerProfile {
        max_delta_per_frame: 300,
        extreme_peak_threshold: 4500,
        dark_scene_clamp: (1000, 2500),
        medium_scene_clamp: (800, 2000),
        bright_scene_clamp: (500, 1200),
        dark_knee_multiplier_percent: 130,
        medium_knee_multiplier_percent: 115,
        bright_knee_multiplier_percent: 105,
        knee_smoothing_window: 3,
    }
}

/// A profile's fields are sane: clamp ranges ordered, bounded targets, a
/// non-empty knee window.
pub open spec fn profile_wf(p: OptimizerProfile) -> bool {
    &&& p.dark_scene_clamp.0 <= p.dark_scene_clamp.1 <= 10000
    &&& p.medium_scene_clamp.0 <= p.medium_scene_clamp.1 <= 10000
    &&& p.bright_scene_clamp.0 <= p.bright_scene_clamp.1 <= 10000
    &&& p.extreme_peak_threshold <= 10000
    &&& p.dark_knee_multiplier_percent <= 1000
    &&& p.medium_knee_multiplier_percent <= 1000
    &&& p.bright_knee_multiplier_percent <= 1000
    &&& 1 <= p.knee_smoothing_window <= 1024
}

impl OptimizerProfile {
    /// The slow, steady profile.
    pub fn conservative() -> (r: Self)
        ensures
            r == spec_conservative(),
            profile_wf(r),
    {
        OptimizerProfile {
            max_delta_per_frame: 100,
            extreme_peak_threshold: 3500,
            dark_scene_clamp: (600, 1500),
            medium_scene_clamp: (500, 1200),
            bright_scene_clamp: (400, 900),
            dark_knee_multiplier_percent: 110,
            medium_knee_multiplier_percent: 105,
            bright_knee_multiplier_percent: 100,
            knee_smoothing_window: 10,
        }
    }

    /// The default middle-ground profile.
    pub fn balanced() -> (r: Self)
        ensures
            r == spec_balanced(),
            profile_wf(r),
    {
        OptimizerProfile {
            max_delta_per_frame: 200,
            extreme_peak_threshold: 4000,
            dark_scene_clamp: (800, 2000),
            medium_scene_clamp: (600, 1500),
            bright_scene_clamp: (400, 1000),
            dark_knee_multiplier_percent: 120,
            medium_knee_multiplier_percent: 110,
            bright_knee_multiplier_percent: 100,
            knee_smoothing_window: 5,
        }
    }

    /// The fast, bright profile.
    pub fn aggressive() -> (r: Self)
        ensures
            r == spec_aggressive(),
            profile_wf(r),
    {
        OptimizerProfile {
            max_delta_per_frame: 300,
            extreme_peak_threshold: 4500,
            dark_scene_clamp: (1000, 2500),
            medium_scene_clamp: (800, 2000),
            bright_scene_clamp: (500, 1200),
            dark_knee_multiplier_percent: 130,
            medium_knee_multiplier_percent: 115,
            bright_knee_multiplier_percent: 105,
            knee_smoothing_window: 3,
        }
    }

    /// Look a profile up by name, ignoring ASCII case; an unknown name is a
    /// configuration error.
    pub fn from_name(name: &str) -> (r: Result<Self, ConfigError>)
        ensures
            r == (if spec_eq_lower(name@, "conservative"@) {
                Result::<OptimizerProfile, ConfigError>::Ok(spec_conservative())
            } else if spec_eq_lower(name@, "balanced"@) {
                Result::<OptimizerProfile, ConfigError>::Ok(spec_balanced())
            } else if spec_eq_lower(name@, "aggressive"@) {
                Result::<OptimizerProfile, ConfigError>::Ok(spec_aggressive())
            } else {
                Result::<OptimizerProfile, ConfigError>::Err(ConfigError::InvalidProfile)
            }),
    {
        if eq_ignore_ascii_case_str(name, "conservative") {
            Result::Ok(Self::conservative())
        } else if eq_ignore_ascii_case_str(name, "balanced") {
            Result::Ok(Self::balanced())
        } else if eq_ignore_ascii_case_str(name, "aggressive") {
            Result::Ok(Self::aggressive())
        } else {
            Result::Err(ConfigError::InvalidProfile)
        }
    }
}

/// An upper-case ASCII letter folded to lower case; everything else kept.
pub open spec fn spec_lower_char(c: char) -> char {
    if 'A' <= c && c <= 'Z' {
        (((c as u8) + 32) as char)
    } else {
        c
    }
}

/// Case-insensitive match of a name against an already-lower-case target.
pub open spec fn spec_eq_lower(s: Seq<char>, t: Seq<char>) -> bool {
    s.len() == t.len() && forall|i: int| 0 <= i < s.len()
        ==> spec_lower_char(s[i]) == #[trigger] t[i]
}

/// Compare a string against a lower-case pattern, folding ASCII upper case.
fn eq_ignore_ascii_case_str(name: &str, target: &str) -> (r: bool)
    ensures
        r == spec_eq_lower(name@, target@),
{
    let n: usize = name.unicode_len();
    let m: usize = target.unicode_len();
    if n != m {
        return false;
    }
    let mut i: usize = 0;
    while i < n
        invariant
            i <= n,
            n == name@.len(),
            n == target@.len(),
            forall|k: int| 0 <= k < i ==> spec_lower_char(name@[k]) == #[trigger] target@[k],
        decreases n - i,
    {
        let c: char = name.get_char(i);
        let t: char = target.get_char(i);
        let cu: u32 = c as u32;
        let lowered: u32 = if cu >= 65 && cu <= 90 {
            cu + 32
        } else {
            cu
        };
        if lowered != t as u32 {
            proof {
                assert(spec_lower_char(name@[i as int]) != target@[i as int]) by {
                    let sc = spec_lower_char(name@[i as int]);
                    assert(c == name@[i as int]);
                    if 'A' <= c && c <= 'Z' {
                        assert(cu >= 65 && cu <= 90);
                        assert(sc as u32 == cu + 32);
                    } else {
                        assert(sc == c);
                    }
                }
            }
            return false;
        }
        proof {
            let sc = spec_lower_char(name@[i as int]);
            if 'A' <= c && c <= 'Z' {
                assert(sc as u32 == cu + 32);
            } else {
                assert(sc == c);
            }
            assert(sc as u32 == t as u32);
            assert(sc == t);
        }
        i = i + 1;
    }
    true
}

/// The profiles get steadily more responsive and brighter: the frame-delta
/// cap rises from conservative through balanced to aggressive, while the
/// knee-smoothing window shrinks.
pub proof fn lemma_profile_ordering()
    ensures
        spec_conservative().max_delta_per_frame < spec_balanced().max_delta_per_frame,
        spec_balanced().max_delta_per_frame < spec_aggressive().max_delta_per_frame,
        spec_conservative().knee_smoothing_window > spec_balanced().knee_smoothing_window,
        spec_balanced().knee_smoothing_window > spec_aggressive().knee_smoothing_window,
{
}

/// What delta limiting returns: the first frame passes through, later
/// frames move toward the request by at most `max_delta` nits.
pub open spec fn spec_delta_limit(prev: Option<u16>, target: u16, max_delta: u16) -> u16 {
    match prev {
        Option::None => target,
        Option::Some(p) => {
            if target > p {
                let up = if p + max_delta > 65535 { 65535u16 } else { (p + max_delta) as u16 };
                if up < target { up } else { target }
            } else if target < p {
                let down = if p >= max_delta { (p - max_delta) as u16 } else { 0u16 };
                if down > target { down } else { target }
            } else {
                target
            }
        },
    }
}

/// Limit the frame-to-frame change of the target to `max_delta` nits in
/// either direction; the first frame of a run is unconstrained.
pub fn apply_delta_limit(prev: Option<u16>, target: u16, max_delta: u16) -> (r: u16)
    ensures
        r == spec_delta_limit(prev, target, max_delta),
        prev is None ==> r == target,
        (prev is Some && target >= prev->0)
            ==> prev->0 <= r <= target && r - prev->0 <= max_delta,
        (prev is Some && target <= prev->0)
            ==> target <= r <= prev->0 && prev->0 - r <= max_delta,
{
    match prev {
        Option::None => target,
        Option::Some(p) => {
            if target > p {
                let up: u16 = if p as u32 + max_delta as u32 > 65535 {
                    65535
                } else {
                    p + max_delta
                };
                if up < target {
                    up
                } else {
                    target
                }
            } else if target < p {
                let down: u16 = if p >= max_delta { p - max_delta } else { 0 };
                if down > target {
                    down
                } else {
                    target
                }
            } else {
                target
            }
        },
    }
}

/// The raw target the heuristics pick for one frame, before delta limiting.
///
/// Extreme peaks are capped at the smoothed knee; otherwise the stabilized
/// picture level classifies the scene as dark, medium or bright, the peak
/// is clamped into that class's range, and the knee (with the class's
/// headroom) caps the result.  Luminance arguments are in millinits.
pub open spec fn spec_advanced_heuristics(
    peak_nits: u32,
    rolling_apl_millinits: u64,
    knee_millinits: u64,
    scene_avg_apl_millinits: u64,
    profile: OptimizerProfile,
) -> int {
    if peak_nits > profile.extreme_peak_threshold {
        let capped = if knee_millinits as int <= profile.extreme_peak_threshold * 1000 {
            knee_millinits as int
        } else {
            profile.extreme_peak_threshold * 1000
        };
        capped / 1000
    } else {
        let apl_ref = (7 * rolling_apl_millinits + 3 * scene_avg_apl_millinits) / 10;
        let cls = if apl_ref < 50_000 {
            (profile.dark_scene_clamp, profile.dark_knee_multiplier_percent)
        } else if apl_ref < 150_000 {
            (profile.medium_scene_clamp, profile.medium_knee_multiplier_percent)
        } else {
            (profile.bright_scene_clamp, profile.bright_knee_multiplier_percent)
        };
        let clamped = if peak_nits < cls.0.0 {
            cls.0.0 as int
        } else if peak_nits > cls.0.1 {
            cls.0.1 as int
        } else {
            peak_nits as int
        };
        let knee_cap = (knee_millinits * cls.1) / 100;
        if clamped * 1000 <= knee_cap {
            clamped
        } else {
            knee_cap / 1000
        }
    }
}

/// Pick the raw tone-mapping target for one frame.  See
/// [`spec_advanced_heuristics`] for the decision rule.
pub fn apply_advanced_heuristics(
    peak_nits: u32,
    rolling_apl_millinits: u64,
    knee_millinits: u64,
    scene_avg_apl_millinits: u64,
    profile: &OptimizerProfile,
) -> (r: u16)
    requires
        profile_wf(*profile),
        knee_millinits <= crate::MAX_MILLINITS,
        rolling_apl_millinits <= crate::MAX_MILLINITS,
        scene_avg_apl_millinits <= crate::MAX_MILLINITS,
    ensures
        r as int == spec_advanced_heuristics(
            peak_nits, rolling_apl_millinits, knee_millinits,
            scene_avg_apl_millinits, *profile),
        r <= 10000,
{
    if peak_nits > profile.extreme_peak_threshold {
        let cap_millinits: u64 = profile.extreme_peak_threshold as u64 * 1000;
        let capped: u64 = if knee_millinits <= cap_millinits {
            knee_millinits
        } else {
            cap_millinits
        };
        (capped / 1000) as u16
    } else {
        let apl_ref: u64 = (7 * rolling_apl_millinits + 3 * scene_avg_apl_millinits) / 10;
        let clamp_range: (u32, u32);
        let mult: u32;
        if apl_ref < 50_000 {
            clamp_range = profile.dark_scene_clamp;
            mult = profile.dark_knee_multiplier_percent;
        } else if apl_ref < 150_000 {
            clamp_range = profile.medium_scene_clamp;
            mult = profile.medium_knee_multiplier_percent;
        } else {
            clamp_range = profile.bright_scene_clamp;
            mult = profile.bright_knee_multiplier_percent;
        }
        let clamped: u32 = if peak_nits < clamp_range.0 {
            clamp_range.0
        } else if peak_nits > clamp_range.1 {
            clamp_range.1
        } else {
            peak_nits
        };
        proof {
            assert((knee_millinits as int) * (mult as int) <= 10_000_000 * 1000)
                by (nonlinear_arith)
                requires knee_millinits <= 10_000_000u64, mult <= 1000u32;
        }
        let knee_cap: u64 = (knee_millinits * mult as u64) / 100;
        if clamped as u64 * 1000 <= knee_cap {
            clamped as u16
        } else {
            (knee_cap / 1000) as u16
        }
    }
}

/// The scene list is ordered and non-overlapping: every scene has a
/// forward range and ends before the next one starts.
pub open spec fn scenes_ordered(scenes: Seq<SceneRecord>) -> bool {
    &&& (forall|k: int| 0 <= k < scenes.len()
            ==> (#[trigger] scenes[k]).start <= scenes[k].end)
    &&& (forall|k: int| 0 <= k < scenes.len() - 1
            ==> (#[trigger] scenes[k]).end < scenes[k + 1].start)
}

/// The scene list tiles the frame range without gaps: ordered, each scene
/// starting right after its predecessor ends, every end inside the frames.
pub open spec fn scenes_tiled(scenes: Seq<SceneRecord>, frame_count: int) -> bool {
    &&& scenes_ordered(scenes)
    &&& (forall|k: int| 0 <= k < scenes.len() - 1
            ==> (#[trigger] scenes[k + 1]).start == scenes[k].end + 1)
    &&& (forall|k: int| 0 <= k < scenes.len() ==> (#[trigger] scenes[k]).end < frame_count)
}

/// Frames `t` and `t + 1` both carry targets, at most `max_delta` nits
/// apart.
pub open spec fn spec_pair_delta_ok(frames: Seq<FrameRecord>, t: int, max_delta: int) -> bool {
    &&& frames[t].target_nits is Some
    &&& frames[t + 1].target_nits is Some
    &&& frames[t + 1].target_nits->0 - frames[t].target_nits->0 <= max_delta
    &&& frames[t].target_nits->0 - frames[t + 1].target_nits->0 <= max_delta
}

/// In an ordered scene list every earlier scene ends before a later one
/// starts.
pub proof fn lemma_scenes_ordered_trans_pub(scenes: Seq<SceneRecord>, k: int, s: int)
    requires
        scenes_ordered(scenes),
        0 <= k < s < scenes.len(),
    ensures
        scenes[k].end < scenes[s].start,
{
    lemma_scenes_ordered_trans(scenes, k, s);
}

/// In an ordered scene list every earlier scene ends before a later one
/// starts.
proof fn lemma_scenes_ordered_trans(scenes: Seq<SceneRecord>, k: int, s: int)
    requires
        scenes_ordered(scenes),
        0 <= k < s < scenes.len(),
    ensures
        scenes[k].end < scenes[s].start,
    decreases s - k,
{
    if k + 1 < s {
        lemma_scenes_ordered_trans(scenes, k + 1, s);
    }
}

/// Run the optimizer over the scene list, writing a target into every frame
/// each scene covers.  Rolling state (picture level and knee smoothing)
/// resets at each scene boundary; the delta limiter carries across scenes
/// so the output stays flicker-free at cuts.
///
/// On an ordered, non-overlapping scene list, consecutive frames inside a
/// scene end up with targets at most `max_delta_per_frame` nits apart.
pub fn run_optimizer_pass(
    scenes: &Vec<SceneRecord>,
    frames: &mut Vec<FrameRecord>,
    profile: &OptimizerProfile,
)
    requires
        profile_wf(*profile),
        forall|j: int| 0 <= j < old(frames)@.len() ==> #[trigger] old(frames)@[j].wf(),
        old(frames)@.len() <= 0xFFFFFFFF,
    ensures
        final(frames)@.len() == old(frames)@.len(),
        forall|j: int| 0 <= j < final(frames)@.len() ==> {
            &&& (#[trigger] final(frames)@[j]).peak_pq_2020 == old(frames)@[j].peak_pq_2020
            &&& final(frames)@[j].peak_pq_dcip3 == old(frames)@[j].peak_pq_dcip3
            &&& final(frames)@[j].peak_pq_709 == old(frames)@[j].peak_pq_709
            &&& final(frames)@[j].avg_pq == old(frames)@[j].avg_pq
            &&& final(frames)@[j].lum_histogram@ == old(frames)@[j].lum_histogram@
            &&& final(frames)@[j].hue_histogram@ == old(frames)@[j].hue_histogram@
            &&& final(frames)@[j].wf()
        },
        forall|j: int| 0 <= j < final(frames)@.len()
            ==> (#[trigger] final(frames)@[j]).target_nits is Some
                || final(frames)@[j].target_nits == old(frames)@[j].target_nits,
        forall|j: int| 0 <= j < final(frames)@.len()
            && (forall|k: int| 0 <= k < scenes@.len()
                ==> !((#[trigger] scenes@[k]).start <= j <= scenes@[k].end))
            ==> (#[trigger] final(frames)@[j]).target_nits == old(frames)@[j].target_nits,
        forall|k: int, t: int|
            #![trigger scenes@[k], final(frames)@[t]]
            0 <= k < scenes@.len() && scenes@[k].start <= t
                && t <= scenes@[k].end && 0 <= t < final(frames)@.len()
            ==> final(frames)@[t].target_nits is Some,
        scenes_ordered(scenes@) ==> forall|k: int, t: int|
            #![trigger scenes@[k], final(frames)@[t]]
            0 <= k < scenes@.len() && scenes@[k].start <= t
                && t + 1 <= scenes@[k].end && 0 <= t && t + 1 < final(frames)@.len()
            ==> spec_pair_delta_ok(final(frames)@, t, profile.max_delta_per_frame as int),
        // On a gap-free tiling the limiter carries across scene boundaries:
        // only the first covered frame of the whole run is unconstrained.
        (scenes_tiled(scenes@, final(frames)@.len() as int) && scenes@.len() > 0)
            ==> forall|t: int|
                scenes@[0].start <= t && t + 1 <= scenes@[scenes@.len() - 1].end
                ==> spec_pair_delta_ok(final(frames)@, t,
                    profile.max_delta_per_frame as int),
{
    let mut prev_target: Option<u16> = Option::None;
    let ghost orig = frames@;
    let mut s: usize = 0;
    while s < scenes.len()
        invariant
            s <= scenes@.len(),
            frames@.len() == orig.len(),
            orig.len() <= 0xFFFFFFFF,
            profile_wf(*profile),
            forall|j: int| 0 <= j < orig.len() ==> #[trigger] orig[j].wf(),
            forall|j: int| 0 <= j < frames@.len() ==> {
                &&& (#[trigger] frames@[j]).peak_pq_2020 == orig[j].peak_pq_2020
                &&& frames@[j].peak_pq_dcip3 == orig[j].peak_pq_dcip3
                &&& frames@[j].peak_pq_709 == orig[j].peak_pq_709
                &&& frames@[j].avg_pq == orig[j].avg_pq
                &&& frames@[j].lum_histogram@ == orig[j].lum_histogram@
                &&& frames@[j].hue_histogram@ == orig[j].hue_histogram@
                &&& frames@[j].wf()
            },
            forall|j: int| 0 <= j < frames@.len()
                ==> (#[trigger] frames@[j]).target_nits is Some
                    || frames@[j].target_nits == orig[j].target_nits,
            forall|j: int| 0 <= j < frames@.len()
                && (forall|k: int| 0 <= k < scenes@.len()
                    ==> !((#[trigger] scenes@[k]).start <= j <= scenes@[k].end))
                ==> (#[trigger] frames@[j]).target_nits == orig[j].target_nits,
            forall|k: int, t: int|
                #![trigger scenes@[k], frames@[t]]
                0 <= k < s && scenes@[k].start <= t
                    && t <= scenes@[k].end && 0 <= t < frames@.len()
                ==> frames@[t].target_nits is Some,
            scenes_ordered(scenes@) ==> forall|k: int, t: int|
                #![trigger scenes@[k], frames@[t]]
                0 <= k < s && scenes@[k].start <= t
                    && t + 1 <= scenes@[k].end && 0 <= t && t + 1 < frames@.len()
                ==> spec_pair_delta_ok(frames@, t, profile.max_delta_per_frame as int),
            (scenes_tiled(scenes@, frames@.len() as int) && s > 0) ==> forall|t: int|
                scenes@[0].start <= t && t + 1 <= scenes@[s - 1].end
                ==> spec_pair_delta_ok(frames@, t, profile.max_delta_per_frame as int),
            (scenes_tiled(scenes@, frames@.len() as int) && scenes@.len() > 0 && s > 0)
                ==> ((#[trigger] frames@[scenes@[s - 1].end as int].target_nits) is Some
                    && prev_target == frames@[scenes@[s - 1].end as int].target_nits),
        decreases scenes@.len() - s,
    {
        let start: usize = scenes[s].start as usize;
        let send: u64 = scenes[s].end as u64 + 1;
        let end: usize = if send <= frames.len() as u64 {
            send as usize
        } else {
            frames.len()
        };
        let scene_apl_millinits: u64 = pq_to_nits(scenes[s].avg_pq);
        let window: usize = profile.knee_smoothing_window;
        let ghost snap = frames@;
        let mut rolling: Vec<u32> = Vec::new();
        let mut rolling_sum: u64 = 0;
        let mut knees: Vec<u64> = Vec::new();
        let mut knee_sum: u64 = 0;
        let mut j: usize = start;
        while j < end
            invariant
                start <= j || j == start,
                j >= start,
                j <= end || j == start,
                end <= frames@.len(),
                frames@.len() == orig.len(),
                orig.len() <= 0xFFFFFFFF,
                profile_wf(*profile),
                window == profile.knee_smoothing_window,
                1 <= window <= 1024,
                scene_apl_millinits <= crate::MAX_MILLINITS,
                forall|t: int| 0 <= t < orig.len() ==> #[trigger] orig[t].wf(),
                forall|t: int| 0 <= t < frames@.len() ==> {
                    &&& (#[trigger] frames@[t]).peak_pq_2020 == orig[t].peak_pq_2020
                    &&& frames@[t].peak_pq_dcip3 == orig[t].peak_pq_dcip3
                    &&& frames@[t].peak_pq_709 == orig[t].peak_pq_709
                    &&& frames@[t].avg_pq == orig[t].avg_pq
                    &&& frames@[t].lum_histogram@ == orig[t].lum_histogram@
                    &&& frames@[t].hue_histogram@ == orig[t].hue_histogram@
                    &&& frames@[t].wf()
                },
                forall|t: int| 0 <= t < frames@.len() && !(start <= t < j)
                    ==> (#[trigger] frames@[t]).target_nits == snap[t].target_nits,
                forall|t: int| start <= t < j
                    ==> (#[trigger] frames@[t]).target_nits is Some,
                forall|t: int| 0 <= t < frames@.len()
                    ==> (#[trigger] snap[t]).target_nits is Some
                        || snap[t].target_nits == orig[t].target_nits,
                forall|t: int| start <= t && t + 1 < j
                    ==> spec_pair_delta_ok(frames@, t, profile.max_delta_per_frame as int),
                j > start ==> ((#[trigger] frames@[j - 1].target_nits) is Some
                    && prev_target == frames@[j - 1].target_nits),
                (scenes_tiled(scenes@, frames@.len() as int) && s > 0)
                    ==> forall|t: int| scenes@[0].start <= t && t + 1 < j
                    ==> spec_pair_delta_ok(frames@, t, profile.max_delta_per_frame as int),
                (scenes_tiled(scenes@, frames@.len() as int) && s > 0)
                    ==> (j >= 1 && frames@[j - 1].target_nits is Some
                        && prev_target == frames@[j - 1].target_nits),
                (scenes_tiled(scenes@, frames@.len() as int) && s > 0)
                    ==> start as int == scenes@[s - 1].end + 1,
                (scenes_tiled(scenes@, frames@.len() as int))
                    ==> end as int == scenes@[s as int].end + 1,
                rolling@.len() <= 240,
                forall|t: int| 0 <= t < rolling@.len() ==> #[trigger] rolling@[t] <= 1_000_000,
                rolling_sum == seq_sum_u32(rolling@),
                rolling_sum <= 240 * 1_000_000,
                knees@.len() <= 1024,
                forall|t: int| 0 <= t < knees@.len()
                    ==> #[trigger] knees@[t] <= crate::MAX_MILLINITS,
                knee_sum == seq_sum_u64(knees@),
                knee_sum <= 1024 * crate::MAX_MILLINITS,
            decreases end - j,
        {
            // Rolling average picture level over up to 240 frames.
            let avg: u32 = frames[j].avg_pq;
            proof {
                assert(frames@[j as int].wf());
                lemma_seq_sum_u32_push(rolling@, avg);
            }
            rolling.push(avg);
            rolling_sum = rolling_sum + avg as u64;
            if rolling.len() > 240 {
                let ghost pre_roll = rolling@;
                let dropped: u32 = rolling.remove(0);
                proof {
                    lemma_seq_sum_u32_head(pre_roll, dropped);
                    lemma_seq_sum_u32_bounds(pre_roll.remove(0), 1_000_000);
                }
                rolling_sum = rolling_sum - dropped as u64;
            }
            let rolling_avg_pq: u32 = (rolling_sum / rolling.len() as u64) as u32;
            proof {
                lemma_mean_bounded_u32(rolling@, rolling_sum as int);
            }
            let rolling_apl_millinits: u64 = pq_to_nits(rolling_avg_pq);
            let blended_apl_millinits: u64 =
                (6 * rolling_apl_millinits + 4 * scene_apl_millinits) / 10;

            // Peak luminance and smoothed highlight knee.
            let peak_millinits: u64 = pq_to_nits(frames[j].peak_pq_2020);
            let peak_nits: u32 = (peak_millinits / 1000) as u32;
            let raw_knee: u64 = find_highlight_knee_nits(&frames[j].lum_histogram);
            proof {
                lemma_seq_sum_u64_push(knees@, raw_knee);
            }
            knees.push(raw_knee);
            knee_sum = knee_sum + raw_knee;
            if knees.len() > window {
                let ghost pre_knees = knees@;
                let dropped: u64 = knees.remove(0);
                proof {
                    lemma_seq_sum_u64_head(pre_knees, dropped);
                    lemma_seq_sum_u64_bounds(pre_knees.remove(0), crate::MAX_MILLINITS as int);
                }
                knee_sum = knee_sum - dropped;
            }
            let smoothed_knee: u64 = knee_sum / knees.len() as u64;
            proof {
                lemma_mean_bounded_u64(knees@, knee_sum as int);
            }

            let blended_capped: u64 = if blended_apl_millinits > 10_000_000 {
                10_000_000
            } else {
                blended_apl_millinits
            };
            let raw_target: u16 = apply_advanced_heuristics(
                peak_nits,
                blended_capped,
                smoothed_knee,
                scene_apl_millinits,
                profile,
            );
            let final_target: u16 = apply_delta_limit(
                prev_target,
                raw_target,
                profile.max_delta_per_frame,
            );
            let f = FrameRecord {
                peak_pq_2020: frames[j].peak_pq_2020,
                peak_pq_dcip3: frames[j].peak_pq_dcip3,
                peak_pq_709: frames[j].peak_pq_709,
                avg_pq: frames[j].avg_pq,
                lum_histogram: clone_u32_vec(&frames[j].lum_histogram),
                hue_histogram: clone_u32_vec(&frames[j].hue_histogram),
                target_nits: Option::Some(final_target),
            };
            let ghost pre_frames = frames@;
            frames.set(j, f);
            prev_target = Option::Some(final_target);
            proof {
                // Earlier pairs are untouched by the write at j; the new
                // pair (j-1, j) is bounded by the delta limiter.
                assert forall|t: int| start <= t && t + 1 < j + 1
                    implies spec_pair_delta_ok(frames@, t,
                        profile.max_delta_per_frame as int) by {
                    if t + 1 < j {
                        assert(spec_pair_delta_ok(pre_frames, t,
                            profile.max_delta_per_frame as int));
                        assert(frames@[t] == pre_frames[t]);
                        assert(frames@[t + 1] == pre_frames[t + 1]);
                    } else {
                        assert(t == j - 1);
                        assert(frames@[t].target_nits == pre_frames[t].target_nits);
                        assert(frames@[j as int].target_nits == Option::Some(final_target));
                    }
                }
                if scenes_tiled(scenes@, frames@.len() as int) && s > 0 {
                    // On a tiling the chain reaches back through the scene
                    // boundary, because the limiter never reset.
                    assert forall|t: int| scenes@[0].start <= t && t + 1 < j + 1
                        implies spec_pair_delta_ok(frames@, t,
                            profile.max_delta_per_frame as int) by {
                        if t + 1 < j {
                            assert(spec_pair_delta_ok(pre_frames, t,
                                profile.max_delta_per_frame as int));
                            assert(frames@[t] == pre_frames[t]);
                            assert(frames@[t + 1] == pre_frames[t + 1]);
                        } else {
                            assert(t == j - 1);
                            assert(frames@[t].target_nits == pre_frames[t].target_nits);
                            assert(frames@[j as int].target_nits
                                == Option::Some(final_target));
                        }
                    }
                }
            }
            j = j + 1;
            proof {
                lemma_seq_sum_u32_bounds(rolling@, 1_000_000);
                assert((rolling@.len() as int) * 1_000_000 <= 240 * 1_000_000)
                    by (nonlinear_arith)
                    requires rolling@.len() <= 240;
                lemma_seq_sum_u64_bounds(knees@, crate::MAX_MILLINITS as int);
                assert((knees@.len() as int) * (crate::MAX_MILLINITS as int)
                    <= 1024 * (crate::MAX_MILLINITS as int))
                    by (nonlinear_arith)
                    requires knees@.len() <= 1024;
            }
        }
        s = s + 1;
        proof {
            // Frames of scene s-1 inside the vector were all given targets;
            // everything else kept the target it had when the scene began.
            assert forall|k: int, t: int|
                0 <= k < s && scenes@[k].start <= t
                    && t <= scenes@[k].end && 0 <= t < frames@.len()
                implies frames@[t].target_nits is Some by {
                if k == s - 1 {
                    if start <= t < end {
                        assert(frames@[t].target_nits is Some);
                    } else {
                        // The scene span was clipped to the frame count.
                        assert(t < end);
                        assert(frames@[t].target_nits is Some);
                    }
                } else {
                    if start <= t < end {
                        assert(frames@[t].target_nits is Some);
                    } else {
                        assert(frames@[t].target_nits == snap[t].target_nits);
                        assert(snap[t].target_nits is Some);
                    }
                }
            }
            // A frame covered by no scene at all was outside this scene's
            // write range, so its target survives.
            assert forall|j: int| 0 <= j < frames@.len()
                && (forall|k: int| 0 <= k < scenes@.len()
                    ==> !((#[trigger] scenes@[k]).start <= j <= scenes@[k].end))
                implies (#[trigger] frames@[j]).target_nits == orig[j].target_nits by {
                assert(!(scenes@[s - 1].start <= j <= scenes@[s - 1].end));
                assert(!(start <= j < end));
                assert(frames@[j].target_nits == snap[j].target_nits);
            }
            if scenes_tiled(scenes@, frames@.len() as int) && scenes@.len() > 0 {
                // The span was the whole scene (no clipping on a tiling),
                // so the chain now reaches the scene's end.
                assert(end as int == scenes@[s - 1].end + 1);
                assert(j == end);
                assert forall|t: int|
                    scenes@[0].start <= t && t + 1 <= scenes@[s - 1].end
                    implies spec_pair_delta_ok(frames@, t,
                        profile.max_delta_per_frame as int) by {
                    assert(t + 1 < j);
                    if s > 1 {
                        assert(spec_pair_delta_ok(frames@, t,
                            profile.max_delta_per_frame as int));
                    } else {
                        assert(start as int == scenes@[0].start as int);
                        assert(spec_pair_delta_ok(frames@, t,
                            profile.max_delta_per_frame as int));
                    }
                }
                assert(frames@[scenes@[s - 1].end as int].target_nits is Some
                    && prev_target == frames@[scenes@[s - 1].end as int].target_nits);
            }
            if scenes_ordered(scenes@) {
                // Earlier scenes lie wholly before this one, so their pairs
                // were untouched; this scene's pairs came from the limiter.
                assert forall|k: int, t: int|
                    0 <= k < s && scenes@[k].start <= t
                        && t + 1 <= scenes@[k].end && 0 <= t && t + 1 < frames@.len()
                    implies spec_pair_delta_ok(frames@, t,
                        profile.max_delta_per_frame as int) by {
                    if k == s - 1 {
                        assert(t + 1 < end);
                        assert(spec_pair_delta_ok(frames@, t,
                            profile.max_delta_per_frame as int));
                    } else {
                        lemma_scenes_ordered_trans(scenes@, k, s - 1);
                        assert(t + 1 <= scenes@[k].end as int);
                        assert((scenes@[k].end as int) < start);
                        assert(frames@[t].target_nits == snap[t].target_nits);
                        assert(frames@[t + 1].target_nits == snap[t + 1].target_nits);
                        assert(spec_pair_delta_ok(snap, t,
                            profile.max_delta_per_frame as int));
                    }
                }
            }
        }
    }
    proof {
        if scenes_ordered(scenes@) {
            assert forall|k: int, t: int|
                0 <= k < scenes@.len() && scenes@[k].start <= t
                    && t + 1 <= scenes@[k].end && 0 <= t && t + 1 < frames@.len()
                implies spec_pair_delta_ok(frames@, t,
                    profile.max_delta_per_frame as int) by {
                assert(spec_pair_delta_ok(frames@, t, profile.max_delta_per_frame as int));
            }
        }
    }
}

/// Smooth the per-frame targets of each scene with a forward (and
/// optionally backward) exponential moving average, then re-apply delta
/// limiting inside the scene.
///
/// `alpha_permille` is the EMA weight of the current frame in thousandths;
/// zero or a value above 1000 disables the pass.  A scene in which any
/// frame lacks a target is left untouched, as are all non-target fields.
/// The frame index one past the end of a scene's span, clipped to the
/// frame count.
pub open spec fn spec_span_end(s: SceneRecord, len: int) -> int {
    if s.end + 1 <= len { s.end + 1 } else { len }
}

/// Every frame of the half-open span carries a target.
pub open spec fn span_targets_present(frames: Seq<FrameRecord>, a: int, b: int) -> bool {
    forall|w: int| a <= w < b ==> (#[trigger] frames[w]).target_nits is Some
}

/// The targets of the half-open span, in thousandths of a nit.
pub open spec fn spec_span_values(frames: Seq<FrameRecord>, a: int, b: int) -> Seq<u64> {
    Seq::new((b - a) as nat, |w: int| ((frames[a + w].target_nits->0 as u64) * 1000) as u64)
}

/// The forward exponential moving average of `vals` at index `i`, with
/// weight `alpha` per-mille for each incoming value.
pub open spec fn spec_ema_fwd(vals: Seq<u64>, alpha: int, i: int) -> int
    decreases i,
{
    if i <= 0 {
        vals[0] as int
    } else {
        (alpha * vals[i] + (1000 - alpha) * spec_ema_fwd(vals, alpha, i - 1)) / 1000
    }
}

/// The backward exponential moving average of `vals`, `i` steps in from
/// its last value.
pub open spec fn spec_ema_rev(vals: Seq<u64>, alpha: int, i: int) -> int
    decreases i,
{
    if i <= 0 {
        vals[vals.len() - 1] as int
    } else {
        (alpha * vals[vals.len() - 1 - i] + (1000 - alpha) * spec_ema_rev(vals, alpha, i - 1))
            / 1000
    }
}

/// The smoothed value at `i`: the forward average, or for a bidirectional
/// pass its mean with the backward average that ends at `i`.
pub open spec fn spec_smoothed(vals: Seq<u64>, alpha: int, bidir: bool, i: int) -> int {
    if bidir {
        (spec_ema_fwd(vals, alpha, i) + spec_ema_rev(vals, alpha, vals.len() - 1 - i)) / 2
    } else {
        spec_ema_fwd(vals, alpha, i)
    }
}

/// The target written at span offset `i`: the smoothed value rounded to
/// whole nits, clamped to `u16`, and delta-limited against the previous
/// written target; the first frame of a span has no previous target.
pub open spec fn spec_smoothed_target(
    vals: Seq<u64>,
    alpha: int,
    bidir: bool,
    max_delta: u16,
    i: int,
) -> u16
    decreases i,
{
    let d0 = (spec_smoothed(vals, alpha, bidir, i) + 500) / 1000;
    let d = if d0 > 65535 { 65535u16 } else { d0 as u16 };
    if i <= 0 {
        spec_delta_limit(Option::None, d, max_delta)
    } else {
        spec_delta_limit(
            Option::Some(spec_smoothed_target(vals, alpha, bidir, max_delta, i - 1)),
            d,
            max_delta,
        )
    }
}

#[verifier::rlimit(100)]
pub fn apply_target_smoother(
    scenes: &Vec<SceneRecord>,
    frames: &mut Vec<FrameRecord>,
    alpha_permille: u32,
    bidirectional: bool,
    max_delta: u16,
)
    requires
        forall|j: int| 0 <= j < old(frames)@.len() ==> #[trigger] old(frames)@[j].wf(),
        old(frames)@.len() <= 0xFFFFFFFF,
    ensures
        final(frames)@.len() == old(frames)@.len(),
        forall|j: int| 0 <= j < final(frames)@.len() ==> {
            &&& (#[trigger] final(frames)@[j]).peak_pq_2020 == old(frames)@[j].peak_pq_2020
            &&& final(frames)@[j].peak_pq_dcip3 == old(frames)@[j].peak_pq_dcip3
            &&& final(frames)@[j].peak_pq_709 == old(frames)@[j].peak_pq_709
            &&& final(frames)@[j].avg_pq == old(frames)@[j].avg_pq
            &&& final(frames)@[j].lum_histogram@ == old(frames)@[j].lum_histogram@
            &&& final(frames)@[j].hue_histogram@ == old(frames)@[j].hue_histogram@
            &&& final(frames)@[j].wf()
        },
        (alpha_permille == 0 || alpha_permille > 1000) ==> final(frames)@ =~= old(frames)@,
        forall|j: int| 0 <= j < final(frames)@.len()
            ==> (#[trigger] final(frames)@[j]).target_nits is Some
                || final(frames)@[j].target_nits == old(frames)@[j].target_nits,
        forall|j: int| 0 <= j < final(frames)@.len()
            && (#[trigger] old(frames)@[j]).target_nits is Some
            ==> final(frames)@[j].target_nits is Some,
        (1 <= alpha_permille <= 1000 && scenes_ordered(scenes@)) ==> forall|k: int, t: int|
            #![trigger scenes@[k], final(frames)@[t]]
            0 <= k < scenes@.len() && scenes@[k].start <= t
                && t + 1 <= scenes@[k].end && 0 <= t && t + 1 < final(frames)@.len()
                && span_targets_present(old(frames)@, scenes@[k].start as int,
                    spec_span_end(scenes@[k], old(frames)@.len() as int))
            ==> spec_pair_delta_ok(final(frames)@, t, max_delta as int),
        // A frame covered by no scene is untouched entirely.
        forall|j: int| 0 <= j < final(frames)@.len()
            && (forall|k: int| 0 <= k < scenes@.len()
                ==> !((#[trigger] scenes@[k]).start <= j <= scenes@[k].end))
            ==> (#[trigger] final(frames)@[j]) == old(frames)@[j],
        // A scene with a target-less frame is left entirely untouched.
        scenes_ordered(scenes@) ==> forall|k: int, t: int|
            #![trigger scenes@[k], final(frames)@[t]]
            0 <= k < scenes@.len() && scenes@[k].start <= t
                && t <= scenes@[k].end && 0 <= t < final(frames)@.len()
                && !span_targets_present(old(frames)@, scenes@[k].start as int,
                    spec_span_end(scenes@[k], old(frames)@.len() as int))
            ==> final(frames)@[t] == old(frames)@[t],
        // A fully-covered span gets the smoothed, delta-limited targets,
        // reset at each scene boundary.
        (1 <= alpha_permille <= 1000 && scenes_ordered(scenes@)) ==> forall|k: int, t: int|
            #![trigger scenes@[k], final(frames)@[t]]
            0 <= k < scenes@.len() && scenes@[k].start <= t
                && t <= scenes@[k].end && 0 <= t < final(frames)@.len()
                && span_targets_present(old(frames)@, scenes@[k].start as int,
                    spec_span_end(scenes@[k], old(frames)@.len() as int))
            ==> final(frames)@[t].target_nits == Option::Some(spec_smoothed_target(
                    spec_span_values(old(frames)@, scenes@[k].start as int,
                        spec_span_end(scenes@[k], old(frames)@.len() as int)),
                    alpha_permille as int, bidirectional, max_delta,
                    t - scenes@[k].start)),
{
    if alpha_permille == 0 || alpha_permille > 1000 {
        return;
    }
    let alpha: u64 = alpha_permille as u64;
    let ghost orig = frames@;
    let mut s: usize = 0;
    while s < scenes.len()
        invariant
            s <= scenes@.len(),
            frames@.len() == orig.len(),
            orig.len() <= 0xFFFFFFFF,
            1 <= alpha <= 1000,
            forall|j: int| 0 <= j < orig.len() ==> #[trigger] orig[j].wf(),
            forall|j: int| 0 <= j < frames@.len() ==> {
                &&& (#[trigger] frames@[j]).peak_pq_2020 == orig[j].peak_pq_2020
                &&& frames@[j].peak_pq_dcip3 == orig[j].peak_pq_dcip3
                &&& frames@[j].peak_pq_709 == orig[j].peak_pq_709
                &&& frames@[j].avg_pq == orig[j].avg_pq
                &&& frames@[j].lum_histogram@ == orig[j].lum_histogram@
                &&& frames@[j].hue_histogram@ == orig[j].hue_histogram@
                &&& frames@[j].wf()
            },
            forall|j: int| 0 <= j < frames@.len()
                ==> (#[trigger] frames@[j]).target_nits is Some
                    || frames@[j].target_nits == orig[j].target_nits,
            forall|j: int| 0 <= j < frames@.len()
                && (#[trigger] orig[j]).target_nits is Some
                ==> frames@[j].target_nits is Some,
            scenes_ordered(scenes@) ==> forall|k: int, t: int|
                #![trigger scenes@[k], frames@[t]]
                0 <= k < s && scenes@[k].start <= t
                    && t + 1 <= scenes@[k].end && 0 <= t && t + 1 < frames@.len()
                    && span_targets_present(orig, scenes@[k].start as int,
                        spec_span_end(scenes@[k], orig.len() as int))
                ==> spec_pair_delta_ok(frames@, t, max_delta as int),
            forall|j: int| 0 <= j < frames@.len()
                && (forall|k: int| 0 <= k < s
                    ==> !((#[trigger] scenes@[k]).start <= j <= scenes@[k].end))
                ==> (#[trigger] frames@[j]) == orig[j],
            scenes_ordered(scenes@) ==> forall|k: int, t: int|
                #![trigger scenes@[k], frames@[t]]
                0 <= k < s && scenes@[k].start <= t
                    && t <= scenes@[k].end && 0 <= t < frames@.len()
                    && !span_targets_present(orig, scenes@[k].start as int,
                        spec_span_end(scenes@[k], orig.len() as int))
                ==> frames@[t] == orig[t],
            scenes_ordered(scenes@) ==> forall|k: int, t: int|
                #![trigger scenes@[k], frames@[t]]
                0 <= k < s && scenes@[k].start <= t
                    && t <= scenes@[k].end && 0 <= t < frames@.len()
                    && span_targets_present(orig, scenes@[k].start as int,
                        spec_span_end(scenes@[k], orig.len() as int))
                ==> frames@[t].target_nits == Option::Some(spec_smoothed_target(
                        spec_span_values(orig, scenes@[k].start as int,
                            spec_span_end(scenes@[k], orig.len() as int)),
                        alpha as int, bidirectional, max_delta, t - scenes@[k].start)),
        decreases scenes@.len() - s,
    {
        let ghost scene_entry = frames@;
        let start: usize = scenes[s].start as usize;
        let send: u64 = scenes[s].end as u64 + 1;
        let end: usize = if send <= frames.len() as u64 {
            send as usize
        } else {
            frames.len()
        };
        if start < end && start < frames.len() {
            // Collect the scene's targets, in thousandths of a nit.
            let mut values: Vec<u64> = Vec::new();
            let mut any_none = false;
            let mut j: usize = start;
            while j < end
                invariant
                    start <= j <= end,
                    end <= frames@.len(),
                    values@.len() == (if any_none { 0int } else { j - start }),
                    forall|t: int| 0 <= t < values@.len()
                        ==> #[trigger] values@[t] <= 65535 * 1000,
                    frames@ == scene_entry,
                    any_none ==> exists|w: int| start <= w < j
                        && (#[trigger] frames@[w].target_nits) is None,
                    !any_none ==> forall|w: int| start <= w < j
                        ==> (#[trigger] frames@[w].target_nits) is Some,
                    !any_none ==> forall|t: int| 0 <= t < values@.len()
                        ==> (#[trigger] values@[t])
                            == (frames@[start + t].target_nits->0 as u64) * 1000,
                decreases end - j,
            {
                match frames[j].target_nits {
                    Option::Some(v) => {
                        if !any_none {
                            values.push(v as u64 * 1000);
                        }
                    },
                    Option::None => {
                        proof {
                            assert(frames@[j as int].target_nits is None);
                        }
                        any_none = true;
                        values = Vec::new();
                    },
                }
                j = j + 1;
            }
            if !any_none && values.len() > 0 {
                let n: usize = values.len();
                // Forward EMA.
                let mut fwd: Vec<u64> = Vec::new();
                fwd.push(values[0]);
                let mut i: usize = 1;
                while i < n
                    invariant
                        1 <= i <= n,
                        n == values@.len(),
                        fwd@.len() == i,
                        1 <= alpha <= 1000,
                        frames@ == scene_entry,
                        forall|t: int| 0 <= t < values@.len()
                            ==> #[trigger] values@[t] <= 65535 * 1000,
                        forall|t: int| 0 <= t < fwd@.len()
                            ==> #[trigger] fwd@[t] <= 65535 * 1000,
                        forall|t: int| 0 <= t < fwd@.len()
                            ==> (#[trigger] fwd@[t]) as int
                                == spec_ema_fwd(values@, alpha as int, t),
                    decreases n - i,
                {
                    let prev_val: u64 = fwd[i - 1];
                    proof {
                        assert(alpha * values@[i as int] + (1000 - alpha) * prev_val
                            <= 1000 * (65535 * 1000)) by (nonlinear_arith)
                            requires
                                1 <= alpha <= 1000u64,
                                values@[i as int] <= 65535 * 1000,
                                prev_val <= 65535 * 1000u64;
                        assert((alpha * values@[i as int] + (1000 - alpha) * prev_val) / 1000
                            <= 65535 * 1000) by (nonlinear_arith)
                            requires
                                alpha * values@[i as int] + (1000 - alpha) * prev_val
                                    <= 1000 * (65535 * 1000);
                    }
                    let nv: u64 = (alpha * values[i] + (1000 - alpha) * prev_val) / 1000;
                    fwd.push(nv);
                    i = i + 1;
                }
                // Optional backward EMA, averaged with the forward pass.
                let smoothed: Vec<u64> = if bidirectional {
                    let mut bwd: Vec<u64> = Vec::new();
                    // Build back-to-front, then reverse by indexed reads.
                    let mut rev: Vec<u64> = Vec::new();
                    rev.push(values[n - 1]);
                    let mut i2: usize = 1;
                    while i2 < n
                        invariant
                            1 <= i2 <= n,
                            n == values@.len(),
                            rev@.len() == i2,
                            1 <= alpha <= 1000,
                            frames@ == scene_entry,
                            forall|t: int| 0 <= t < values@.len()
                                ==> #[trigger] values@[t] <= 65535 * 1000,
                            forall|t: int| 0 <= t < rev@.len()
                                ==> #[trigger] rev@[t] <= 65535 * 1000,
                            forall|t: int| 0 <= t < rev@.len()
                                ==> (#[trigger] rev@[t]) as int
                                    == spec_ema_rev(values@, alpha as int, t),
                        decreases n - i2,
                    {
                        let prev_val: u64 = rev[i2 - 1];
                        proof {
                            assert(alpha * values@[n - 1 - i2] + (1000 - alpha) * prev_val
                                <= 1000 * (65535 * 1000)) by (nonlinear_arith)
                                requires
                                    1 <= alpha <= 1000u64,
                                    values@[n - 1 - i2] <= 65535 * 1000,
                                    prev_val <= 65535 * 1000u64;
                            assert((alpha * values@[n - 1 - i2] + (1000 - alpha) * prev_val)
                                / 1000 <= 65535 * 1000) by (nonlinear_arith)
                                requires
                                    alpha * values@[n - 1 - i2] + (1000 - alpha) * prev_val
                                        <= 1000 * (65535 * 1000);
                        }
                        let nv: u64 = (alpha * values[n - 1 - i2] + (1000 - alpha) * prev_val)
                            / 1000;
                        rev.push(nv);
                        i2 = i2 + 1;
                    }
                    let mut i3: usize = 0;
                    while i3 < n
                        invariant
                            i3 <= n,
                            n == rev@.len(),
                            n == fwd@.len(),
                            bwd@.len() == i3,
                            n == values@.len(),
                            frames@ == scene_entry,
                            forall|t: int| 0 <= t < rev@.len()
                                ==> #[trigger] rev@[t] <= 65535 * 1000,
                            forall|t: int| 0 <= t < fwd@.len()
                                ==> #[trigger] fwd@[t] <= 65535 * 1000,
                            forall|t: int| 0 <= t < bwd@.len()
                                ==> #[trigger] bwd@[t] <= 65535 * 1000,
                            forall|t: int| 0 <= t < fwd@.len()
                                ==> (#[trigger] fwd@[t]) as int
                                    == spec_ema_fwd(values@, alpha as int, t),
                            forall|t: int| 0 <= t < rev@.len()
                                ==> (#[trigger] rev@[t]) as int
                                    == spec_ema_rev(values@, alpha as int, t),
                            forall|t: int| 0 <= t < bwd@.len()
                                ==> (#[trigger] bwd@[t]) as int
                                    == spec_smoothed(values@, alpha as int, true, t),
                        decreases n - i3,
                    {
                        let a: u64 = fwd[i3];
                        let b: u64 = rev[n - 1 - i3];
                        bwd.push((a + b) / 2);
                        i3 = i3 + 1;
                    }
                    bwd
                } else {
                    fwd
                };
                proof {
                    assert forall|t: int| 0 <= t < n
                        implies (#[trigger] smoothed@[t]) as int
                            == spec_smoothed(values@, alpha as int, bidirectional, t) by {}
                }
                // Delta-limit the smoothed sequence back into the frames.
                let mut prev: Option<u16> = Option::None;
                let mut i4: usize = 0;
                let ghost snap = frames@;
                while i4 < n
                    invariant
                        i4 <= n,
                        n == smoothed@.len(),
                        start + n <= end,
                        end <= frames@.len(),
                        frames@.len() == orig.len(),
                        forall|t: int| 0 <= t < smoothed@.len()
                            ==> #[trigger] smoothed@[t] <= 65535 * 1000,
                        forall|t: int| 0 <= t < orig.len() ==> #[trigger] orig[t].wf(),
                        forall|t: int| 0 <= t < frames@.len() ==> {
                            &&& (#[trigger] frames@[t]).peak_pq_2020 == orig[t].peak_pq_2020
                            &&& frames@[t].peak_pq_dcip3 == orig[t].peak_pq_dcip3
                            &&& frames@[t].peak_pq_709 == orig[t].peak_pq_709
                            &&& frames@[t].avg_pq == orig[t].avg_pq
                            &&& frames@[t].lum_histogram@ == orig[t].lum_histogram@
                            &&& frames@[t].hue_histogram@ == orig[t].hue_histogram@
                            &&& frames@[t].wf()
                        },
                        forall|t: int| 0 <= t < frames@.len() && !(start <= t < start + i4)
                            ==> (#[trigger] frames@[t]) == snap[t],
                        forall|t: int| start <= t < start + i4
                            ==> (#[trigger] frames@[t]).target_nits is Some,
                        forall|t: int| 0 <= t < frames@.len()
                            ==> (#[trigger] snap[t]).target_nits is Some
                                || snap[t].target_nits == orig[t].target_nits,
                        forall|t: int| start <= t && t + 1 < start + i4
                            ==> spec_pair_delta_ok(frames@, t, max_delta as int),
                        i4 > 0 ==> ((#[trigger] frames@[start + i4 - 1].target_nits) is Some
                            && prev == frames@[start + i4 - 1].target_nits),
                        i4 == 0 ==> prev is None,
                        forall|t: int| 0 <= t < smoothed@.len()
                            ==> (#[trigger] smoothed@[t]) as int
                                == spec_smoothed(values@, alpha as int, bidirectional, t),
                        forall|t: int| 0 <= t < i4
                            ==> (#[trigger] frames@[start + t]).target_nits
                                == Option::Some(spec_smoothed_target(values@, alpha as int,
                                    bidirectional, max_delta, t)),
                    decreases n - i4,
                {
                    let desired64: u64 = (smoothed[i4] + 500) / 1000;
                    let desired: u16 = if desired64 > 65535 { 65535 } else { desired64 as u16 };
                    let limited: u16 = apply_delta_limit(prev, desired, max_delta);
                    proof {
                        assert((smoothed@[i4 as int] as int)
                            == spec_smoothed(values@, alpha as int, bidirectional, i4 as int));
                        if i4 > 0 {
                            assert(frames@[start + (i4 - 1)].target_nits
                                == Option::Some(spec_smoothed_target(values@, alpha as int,
                                    bidirectional, max_delta, i4 - 1)));
                        }
                        assert(limited == spec_smoothed_target(values@, alpha as int,
                            bidirectional, max_delta, i4 as int));
                    }
                    let idx: usize = start + i4;
                    let f = FrameRecord {
                        peak_pq_2020: frames[idx].peak_pq_2020,
                        peak_pq_dcip3: frames[idx].peak_pq_dcip3,
                        peak_pq_709: frames[idx].peak_pq_709,
                        avg_pq: frames[idx].avg_pq,
                        lum_histogram: clone_u32_vec(&frames[idx].lum_histogram),
                        hue_histogram: clone_u32_vec(&frames[idx].hue_histogram),
                        target_nits: Option::Some(limited),
                    };
                    let ghost pre_frames = frames@;
                    frames.set(idx, f);
                    prev = Option::Some(limited);
                    proof {
                        // Earlier pairs survive the write; the new pair is
                        // bounded by the limiter.
                        assert forall|t: int| start <= t && t + 1 < start + i4 + 1
                            implies spec_pair_delta_ok(frames@, t, max_delta as int) by {
                            if t + 1 < start + i4 {
                                assert(spec_pair_delta_ok(pre_frames, t, max_delta as int));
                                assert(frames@[t] == pre_frames[t]);
                                assert(frames@[t + 1] == pre_frames[t + 1]);
                            } else {
                                assert(t == idx - 1);
                                assert(frames@[t].target_nits == pre_frames[t].target_nits);
                                assert(frames@[idx as int].target_nits
                                    == Option::Some(limited));
                            }
                        }
                    }
                    i4 = i4 + 1;
                }
                proof {
                    // The writes stayed inside the span: everything else
                    // still holds its scene-entry record.
                    assert(start + n == end);
                    assert forall|t: int| 0 <= t < frames@.len() && !(start <= t < end)
                        implies (#[trigger] frames@[t]) == scene_entry[t] by {
                        assert(frames@[t] == snap[t]);
                    }
                    // The span got the smoothed targets of its entry values.
                    assert(values@ =~= spec_span_values(scene_entry, start as int,
                        end as int));
                    assert forall|t: int| start <= t < end
                        implies (#[trigger] frames@[t]).target_nits
                            == Option::Some(spec_smoothed_target(
                                spec_span_values(scene_entry, start as int, end as int),
                                alpha as int, bidirectional, max_delta, t - start)) by {
                        assert(frames@[start + (t - start)].target_nits
                            == Option::Some(spec_smoothed_target(values@, alpha as int,
                                bidirectional, max_delta, t - start)));
                    }
                }
            }
            proof {
                // Either every frame of the span entered with a target, or
                // the scene was skipped and the frames are untouched.
                assert(span_targets_present(scene_entry, start as int, end as int)
                    || frames@ == scene_entry);
                assert forall|t: int| 0 <= t < frames@.len() && !(start <= t < end)
                    implies (#[trigger] frames@[t]) == scene_entry[t] by {}
                assert(span_targets_present(scene_entry, start as int, end as int)
                    ==> forall|t: int| start <= t < end
                        ==> (#[trigger] frames@[t]).target_nits
                            == Option::Some(spec_smoothed_target(
                                spec_span_values(scene_entry, start as int, end as int),
                                alpha as int, bidirectional, max_delta, t - start)));
            }
        }
        s = s + 1;
        proof {
            // A frame outside every processed scene kept its value: this
            // scene only wrote inside its own span.
            assert forall|j: int| 0 <= j < frames@.len()
                && (forall|k: int| 0 <= k < s
                    ==> !((#[trigger] scenes@[k]).start <= j <= scenes@[k].end))
                implies (#[trigger] frames@[j]) == orig[j] by {
                assert(!(scenes@[s - 1].start <= j <= scenes@[s - 1].end));
                assert(!(start <= j < end));
                assert(frames@[j] == scene_entry[j]);
                assert forall|k: int| 0 <= k < s - 1
                    implies !((#[trigger] scenes@[k]).start <= j
                        <= scenes@[k].end) by {}
                assert(scene_entry[j] == orig[j]);
            }
            if scenes_ordered(scenes@) {
                // A scene whose span was missing a target was skipped whole:
                // earlier scenes never touched it, and the collection saw
                // the missing target.
                assert forall|k: int, t: int|
                    #![trigger scenes@[k], frames@[t]]
                    0 <= k < s && scenes@[k].start <= t
                        && t <= scenes@[k].end && 0 <= t < frames@.len()
                        && !span_targets_present(orig, scenes@[k].start as int,
                            spec_span_end(scenes@[k], orig.len() as int))
                    implies frames@[t] == orig[t] by {
                    if k == s - 1 {
                        assert forall|u: int| 0 <= u < frames@.len()
                            && scenes@[s - 1].start <= u <= scenes@[s - 1].end
                            implies #[trigger] scene_entry[u] == orig[u] by {
                            assert forall|k2: int| 0 <= k2 < s - 1
                                implies !((#[trigger] scenes@[k2]).start <= u
                                    <= scenes@[k2].end) by {
                                lemma_scenes_ordered_trans(scenes@, k2, s - 1);
                            }
                        }
                        if start < end && start < frames@.len() {
                            let w = choose|w: int|
                                scenes@[s - 1].start <= w
                                    < spec_span_end(scenes@[s - 1], orig.len() as int)
                                && !((orig[w]).target_nits is Some);
                            assert(scenes@[s - 1].start <= w
                                < spec_span_end(scenes@[s - 1], orig.len() as int)
                                && !(orig[w].target_nits is Some));
                            assert(scene_entry[w] == orig[w]);
                            assert(!span_targets_present(scene_entry, start as int,
                                end as int));
                            assert(frames@ == scene_entry);
                        } else {
                            assert(frames@ == scene_entry);
                        }
                        assert(frames@[t] == orig[t]);
                    } else {
                        lemma_scenes_ordered_trans(scenes@, k, s - 1);
                        assert(frames@[t] == orig[t]);
                    }
                }
                // A fully-covered span now carries the smoothed targets of
                // its starting values; earlier spans kept theirs.
                assert forall|k: int, t: int|
                    #![trigger scenes@[k], frames@[t]]
                    0 <= k < s && scenes@[k].start <= t
                        && t <= scenes@[k].end && 0 <= t < frames@.len()
                        && span_targets_present(orig, scenes@[k].start as int,
                            spec_span_end(scenes@[k], orig.len() as int))
                    implies frames@[t].target_nits == Option::Some(spec_smoothed_target(
                        spec_span_values(orig, scenes@[k].start as int,
                            spec_span_end(scenes@[k], orig.len() as int)),
                        alpha as int, bidirectional, max_delta,
                        t - scenes@[k].start)) by {
                    if k == s - 1 {
                        assert forall|u: int| 0 <= u < frames@.len()
                            && scenes@[s - 1].start <= u <= scenes@[s - 1].end
                            implies #[trigger] scene_entry[u] == orig[u] by {
                            assert forall|k2: int| 0 <= k2 < s - 1
                                implies !((#[trigger] scenes@[k2]).start <= u
                                    <= scenes@[k2].end) by {
                                lemma_scenes_ordered_trans(scenes@, k2, s - 1);
                            }
                        }
                        assert(start == scenes@[s - 1].start);
                        assert(end as int == spec_span_end(scenes@[s - 1],
                            orig.len() as int));
                        assert forall|w: int| start <= w < end
                            implies (#[trigger] scene_entry[w]).target_nits is Some by {
                            assert(scene_entry[w] == orig[w]);
                        }
                        assert(span_targets_present(scene_entry, start as int,
                            end as int));
                        assert(spec_span_values(scene_entry, start as int, end as int)
                            =~= spec_span_values(orig, start as int, end as int));
                        assert(frames@[t].target_nits == Option::Some(
                            spec_smoothed_target(
                                spec_span_values(orig, start as int, end as int),
                                alpha as int, bidirectional, max_delta, t - start)));
                    } else {
                        lemma_scenes_ordered_trans(scenes@, k, s - 1);
                        assert(frames@[t] == scene_entry[t]);
                    }
                }
                // Scene s-1's span pairs are bounded when its targets were
                // all present; earlier scenes lie wholly before it.
                assert forall|k: int, t: int|
                    0 <= k < s && scenes@[k].start <= t
                        && t + 1 <= scenes@[k].end && 0 <= t && t + 1 < frames@.len()
                        && span_targets_present(orig, scenes@[k].start as int,
                            spec_span_end(scenes@[k], orig.len() as int))
                    implies spec_pair_delta_ok(frames@, t, max_delta as int) by {
                    if k == s - 1 {
                        // The span was present in the starting frames, so the
                        // collection saw only targets and the scene was
                        // processed in full.
                        assert(start <= t && t + 1 < end);
                        assert(spec_pair_delta_ok(frames@, t, max_delta as int));
                    } else {
                        lemma_scenes_ordered_trans(scenes@, k, s - 1);
                        assert(spec_pair_delta_ok(frames@, t, max_delta as int));
                    }
                }
            }
        }
    }
}

/// Sum of a sequence of PQ values.
pub open spec fn seq_sum_u32(s: Seq<u32>) -> int
    decreases s.len(),
{
    if s.len() == 0 {
        0
    } else {
        seq_sum_u32(s.drop_last()) + s.last()
    }
}

/// Sum of a sequence of luminance values.
pub open spec fn seq_sum_u64(s: Seq<u64>) -> int
    decreases s.len(),
{
    if s.len() == 0 {
        0
    } else {
        seq_sum_u64(s.drop_last()) + s.last()
    }
}

proof fn lemma_seq_sum_u32_push(s: Seq<u32>, v: u32)
    ensures
        seq_sum_u32(s.push(v)) == seq_sum_u32(s) + v,
{
    assert(s.push(v).drop_last() =~= s);
}

proof fn lemma_seq_sum_u64_push(s: Seq<u64>, v: u64)
    ensures
        seq_sum_u64(s.push(v)) == seq_sum_u64(s) + v,
{
    assert(s.push(v).drop_last() =~= s);
}

proof fn lemma_seq_sum_u32_head(s: Seq<u32>, h: u32)
    requires
        s.len() > 0,
        s[0] == h,
    ensures
        seq_sum_u32(s.remove(0)) == seq_sum_u32(s) - h,
    decreases s.len(),
{
    if s.len() == 1 {
        assert(s.remove(0) =~= Seq::<u32>::empty());
        assert(s.drop_last() =~= Seq::<u32>::empty());
    } else {
        let t = s.drop_last();
        lemma_seq_sum_u32_head(t, h);
        assert(s.remove(0).drop_last() =~= t.remove(0));
        assert(s.remove(0).last() == s.last());
    }
}

proof fn lemma_seq_sum_u64_head(s: Seq<u64>, h: u64)
    requires
        s.len() > 0,
        s[0] == h,
    ensures
        seq_sum_u64(s.remove(0)) == seq_sum_u64(s) - h,
    decreases s.len(),
{
    if s.len() == 1 {
        assert(s.remove(0) =~= Seq::<u64>::empty());
        assert(s.drop_last() =~= Seq::<u64>::empty());
    } else {
        let t = s.drop_last();
        lemma_seq_sum_u64_head(t, h);
        assert(s.remove(0).drop_last() =~= t.remove(0));
        assert(s.remove(0).last() == s.last());
    }
}

/// The mean of PQ values bounded by one stays bounded by one.
proof fn lemma_mean_bounded_u32(s: Seq<u32>, sum: int)
    requires
        s.len() > 0,
        sum == seq_sum_u32(s),
        forall|t: int| 0 <= t < s.len() ==> #[trigger] s[t] <= 1_000_000,
    ensures
        sum / (s.len() as int) <= 1_000_000,
        sum >= 0,
{
    lemma_seq_sum_u32_bounds(s, 1_000_000);
    vstd::arithmetic::div_mod::lemma_div_multiples_vanish(1_000_000, s.len() as int);
    vstd::arithmetic::div_mod::lemma_div_is_ordered(sum, 1_000_000 * (s.len() as int), s.len() as int);
}

/// The mean of luminances bounded by the PQ maximum stays bounded by it.
proof fn lemma_mean_bounded_u64(s: Seq<u64>, sum: int)
    requires
        s.len() > 0,
        sum == seq_sum_u64(s),
        forall|t: int| 0 <= t < s.len() ==> #[trigger] s[t] <= crate::MAX_MILLINITS,
    ensures
        sum / (s.len() as int) <= crate::MAX_MILLINITS,
        sum >= 0,
{
    lemma_seq_sum_u64_bounds(s, crate::MAX_MILLINITS as int);
    vstd::arithmetic::div_mod::lemma_div_multiples_vanish(
        crate::MAX_MILLINITS as int, s.len() as int);
    vstd::arithmetic::div_mod::lemma_div_is_ordered(
        sum, (crate::MAX_MILLINITS as int) * (s.len() as int), s.len() as int);
}

proof fn lemma_seq_sum_u32_bounds(s: Seq<u32>, bound: int)
    requires
        bound >= 0,
        forall|t: int| 0 <= t < s.len() ==> #[trigger] s[t] <= bound,
    ensures
        0 <= seq_sum_u32(s) <= s.len() * bound,
    decreases s.len(),
{
    if s.len() == 0 {
    } else {
        lemma_seq_sum_u32_bounds(s.drop_last(), bound);
        assert((s.len() - 1) * bound + bound == s.len() * bound) by (nonlinear_arith);
    }
}

proof fn lemma_seq_sum_u64_bounds(s: Seq<u64>, bound: int)
    requires
        bound >= 0,
        forall|t: int| 0 <= t < s.len() ==> #[trigger] s[t] <= bound,
    ensures
        0 <= seq_sum_u64(s) <= s.len() * bound,
    decreases s.len(),
{
    if s.len() == 0 {
    } else {
        lemma_seq_sum_u64_bounds(s.drop_last(), bound);
        assert((s.len() - 1) * bound + bound == s.len() * bound) by (nonlinear_arith);
    }
}

/// Copy a byte buffer element by element.
pub fn clone_u8_vec(v: &Vec<u8>) -> (r: Vec<u8>)
    ensures
        r@ == v@,
{
    let mut out: Vec<u8> = Vec::new();
    let mut i: usize = 0;
    while i < v.len()
        invariant
            i <= v@.len(),
            out@ =~= v@.subrange(0, i as int),
        decreases v@.len() - i,
    {
        out.push(v[i]);
        i = i + 1;
    }
    proof {
        assert(v@.subrange(0, v@.len() as int) =~= v@);
    }
    out
}

/// Copy a histogram vector element by element.
pub fn clone_u32_vec(v: &Vec<u32>) -> (r: Vec<u32>)
    ensures
        r@ == v@,
{
    let mut out: Vec<u32> = Vec::new();
    let mut i: usize = 0;
    while i < v.len()
        invariant
            i <= v@.len(),
            out@ =~= v@.subrange(0, i as int),
        decreases v@.len() - i,
    {
        out.push(v[i]);
        i = i + 1;
    }
    proof {
        assert(v@.subrange(0, v@.len() as int) =~= v@);
    }
    out
}

} // verus!
