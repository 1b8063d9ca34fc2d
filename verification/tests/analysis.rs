//! Behavioral tests for the transfer math, histograms, scene segmentation,
//! and the optimizer.

use std::collections::VecDeque;

use hdr_measure::pq::{nits_to_pq, pq_to_nits};
use hdr_measure::hlg::{hlg_signal_to_relative, hlg_signal_to_nits};
use hdr_measure::histogram::{
    calculate_avg_pq_from_histogram, compute_histogram_percentile_pq,
    find_highlight_knee_nits, select_peak_pq, apply_histogram_ema,
    apply_histogram_temporal_median, normalize_histogram, sort_u32, PeakPolicy,
};
use hdr_measure::scene::{
    calculate_histogram_difference, cut_allowed, convert_scene_cuts_to_scenes,
    fix_scene_end_frames, precompute_scene_stats,
};
use hdr_measure::optimizer::{apply_delta_limit, apply_target_smoother, run_optimizer_pass,
    ConfigError, OptimizerProfile};
use hdr_measure::session::{validate_config, SceneDetector};
use hdr_measure::support::{format_duration, is_quiet, is_verbose, set_quiet, set_verbose,
    OutputFlags};
use hdr_measure::{FrameRecord, SceneRecord};

fn make_frame(avg_pq: u32, peak_pq: u32, target: Option<u16>) -> FrameRecord {
    FrameRecord {
        peak_pq_2020: peak_pq,
        peak_pq_dcip3: None,
        peak_pq_709: None,
        avg_pq,
        lum_histogram: vec![0u32; 256],
        hue_histogram: vec![0u32; 31],
        target_nits: target,
    }
}

#[test]
fn test_pq_nits_round_trip() {
    let test_values = vec![0.0f64, 10.0, 100.0, 1000.0, 4000.0, 10000.0];
    for nits in test_values {
        let pq = nits_to_pq((nits * 1000.0).round() as u64);
        let back_to_nits = pq_to_nits(pq) as f64 / 1000.0;
        let error = (nits - back_to_nits).abs();
        assert!(
            error < 0.1 || error / nits.max(1.0) < 0.001,
            "Round-trip failed: {} -> {} -> {}, error: {}",
            nits,
            pq,
            back_to_nits,
            error
        );
    }
}

#[test]
fn test_histogram_binning_v5_boundaries() {
    let sdr_peak_pq = nits_to_pq(100 * 1000) as f64 / 1e6;
    let sdr_step = sdr_peak_pq / 64.0;
    let hdr_step = (1.0 - sdr_peak_pq) / 192.0;

    assert!(sdr_step > 0.0 && sdr_step < 0.01);

    let bin_64_nits = pq_to_nits(nits_to_pq(100 * 1000)) as f64 / 1000.0;
    assert!((bin_64_nits - 100.0).abs() < 1.0);

    let bin_255_pq = sdr_peak_pq + 192.0 * hdr_step;
    assert!((bin_255_pq - 1.0).abs() < 0.01);
}

#[test]
fn test_find_highlight_knee() {
    // 98% in lower bins, 2% in high bins, in 1/640-percent units.
    let mut histogram = vec![0u32; 256];
    histogram[100] = 98 * 640;
    histogram[250] = 640 + 320;
    histogram[255] = 320;

    let knee_millinits = find_highlight_knee_nits(&histogram);
    assert!(
        knee_millinits > 1000 * 1000,
        "Knee should be in high range, got {} millinits",
        knee_millinits
    );
}

#[test]
fn test_hlg_relative_low_segment() {
    let rel = hlg_signal_to_relative(250_000) as f64 / 4294967296.0;
    let expected = (0.25f64 * 0.25) / 3.0;
    assert!((rel - expected).abs() <= 1e-7, "expected {rel} ~ {expected}");
}

#[test]
fn test_hlg_relative_high_segment() {
    let rel = hlg_signal_to_relative(750_000) as f64 / 4294967296.0;
    assert!((rel - 0.265).abs() <= 0.02, "expected {rel} ~ 0.265");
}

#[test]
fn test_hlg_signal_to_nits() {
    let nits = hlg_signal_to_nits(750_000, 1000 * 1000) as f64 / 1000.0;
    assert!((nits - 265.0).abs() <= 20.0, "expected {nits} ~ 265");
}

#[test]
fn test_histogram_diff_smoothing_behaves() {
    // A simple increasing sequence; smoothing should be lower than the last
    // raw value for a window longer than one.
    let diffs = [0.1f64, 0.2, 0.5, 1.0];
    let mut dq: VecDeque<f64> = VecDeque::with_capacity(3);
    let mut smoothed = Vec::new();
    for d in diffs {
        dq.push_back(d);
        if dq.len() > 3 {
            dq.pop_front();
        }
        smoothed.push(dq.iter().sum::<f64>() / dq.len() as f64)
    }
    assert!(
        smoothed[3] < 1.0,
        "smoothed value should be below last raw value"
    );
    assert!((smoothed[0] - 0.1f64).abs() < 1e-9);
}

#[test]
fn test_cut_allowed_min_len() {
    assert!(!cut_allowed(Some(0), 10, 24));
    assert!(cut_allowed(Some(0), 24, 24));
    assert!(!cut_allowed(Some(24), 40, 24));
    assert!(cut_allowed(Some(24), 48, 24));
}

#[test]
fn test_histogram_diff_identical() {
    // 1.0 percent per bin is 640 units per bin.
    let hist1 = vec![640u32; 256];
    let hist2 = vec![640u32; 256];
    let diff = calculate_histogram_difference(&hist1, &hist2);
    assert_eq!(diff, 0, "Identical histograms should have zero diff");
}

#[test]
fn test_histogram_diff_opposite() {
    let mut hist1 = vec![0u32; 256];
    hist1[0] = 64000;
    let mut hist2 = vec![0u32; 256];
    hist2[255] = 64000;
    let diff = calculate_histogram_difference(&hist1, &hist2);
    // 0.5 percent units is 500_000 in millionths.
    assert!(diff > 500_000, "Opposite histograms should have high diff, got {}", diff);
}

#[test]
fn test_scene_detection_threshold() {
    assert!(cut_allowed(None, 100, 24));
    assert!(!cut_allowed(Some(100), 110, 24));
    assert!(cut_allowed(Some(100), 124, 24));
}

#[test]
fn test_apply_delta_limit() {
    assert_eq!(apply_delta_limit(None, 800, 200), 800);
    assert_eq!(apply_delta_limit(Some(600), 1000, 200), 800);
    assert_eq!(apply_delta_limit(Some(900), 400, 200), 700);
    assert_eq!(apply_delta_limit(Some(700), 820, 200), 820);
}

#[test]
fn test_optimizer_profile_from_name() {
    assert!(OptimizerProfile::from_name("conservative").is_ok());
    assert!(OptimizerProfile::from_name("balanced").is_ok());
    assert!(OptimizerProfile::from_name("aggressive").is_ok());
    assert!(OptimizerProfile::from_name("BALANCED").is_ok());
    assert!(OptimizerProfile::from_name("invalid").is_err());

    let conservative = OptimizerProfile::from_name("conservative").unwrap();
    let aggressive = OptimizerProfile::from_name("aggressive").unwrap();
    assert!(
        conservative.max_delta_per_frame < aggressive.max_delta_per_frame,
        "Conservative should have lower delta limit"
    );
    assert!(
        conservative.knee_smoothing_window > aggressive.knee_smoothing_window,
        "Conservative should smooth more"
    );
}

#[test]
fn test_profile_ordering_balanced() {
    let c = OptimizerProfile::conservative();
    let b = OptimizerProfile::balanced();
    let a = OptimizerProfile::aggressive();
    assert!(c.max_delta_per_frame < b.max_delta_per_frame);
    assert!(b.max_delta_per_frame < a.max_delta_per_frame);
    assert!(c.knee_smoothing_window > b.knee_smoothing_window);
    assert!(b.knee_smoothing_window > a.knee_smoothing_window);
}

#[test]
fn test_from_name_error_variant() {
    assert_eq!(
        OptimizerProfile::from_name("vivid").unwrap_err(),
        ConfigError::InvalidProfile
    );
}

#[test]
fn test_validate_config_errors() {
    assert_eq!(validate_config(3, None).unwrap_err(), ConfigError::InvalidDownscale);
    assert_eq!(validate_config(2, Some(0)).unwrap_err(), ConfigError::ZeroThreads);
    assert!(validate_config(1, Some(8)).is_ok());
    assert!(validate_config(4, None).is_ok());
}

#[test]
fn test_apply_target_smoother_reduces_variation() {
    let mut frames: Vec<FrameRecord> = (0..10)
        .map(|i| make_frame(0, 0, Some(if i % 2 == 0 { 1000 } else { 500 })))
        .collect();
    let scenes = vec![SceneRecord { start: 0, end: 9, peak_nits: 0, avg_pq: 0 }];

    // Alpha 0.2, bidirectional, delta cap 300.
    apply_target_smoother(&scenes, &mut frames, 200, true, 300);

    let mut max_delta = 0u16;
    for w in frames.windows(2) {
        let a = w[0].target_nits.unwrap();
        let b = w[1].target_nits.unwrap();
        let d = if a > b { a - b } else { b - a };
        if d > max_delta {
            max_delta = d;
        }
    }
    assert!(max_delta < 500, "Smoother should reduce large adjacent deltas");
}

#[test]
fn test_apply_target_smoother_resets_per_scene() {
    let mut frames: Vec<FrameRecord> = Vec::new();
    for _ in 0..5 {
        frames.push(make_frame(0, 0, Some(1000)));
    }
    for _ in 0..5 {
        frames.push(make_frame(0, 0, Some(500)));
    }
    let scenes = vec![
        SceneRecord { start: 0, end: 4, peak_nits: 0, avg_pq: 0 },
        SceneRecord { start: 5, end: 9, peak_nits: 0, avg_pq: 0 },
    ];

    apply_target_smoother(&scenes, &mut frames, 300, true, 300);

    assert_eq!(frames[0].target_nits.unwrap(), 1000);
    assert_eq!(frames[5].target_nits.unwrap(), 500);
}

#[test]
fn test_format_duration() {
    assert_eq!(format_duration(5).as_str(), "5s");
    assert_eq!(format_duration(65).as_str(), "1m5s");
    assert_eq!(format_duration(3665).as_str(), "1h1m5s");
}

#[test]
fn test_verbose_mode() {
    let mut flags = OutputFlags::new();
    set_verbose(&mut flags, true);
    assert!(is_verbose(&flags));
    set_verbose(&mut flags, false);
    assert!(!is_verbose(&flags));
    set_quiet(&mut flags, true);
    assert!(is_quiet(&flags));
}

#[test]
fn test_end_to_end_two_scenes() {
    // A 48-frame run with a histogram step change at frame 24: threshold
    // 0.3, minimum scene length 24, no smoothing window.
    let mut hist_a = vec![0u32; 256];
    hist_a[10] = 64000;
    let mut hist_b = vec![0u32; 256];
    hist_b[200] = 64000;

    let mut det = SceneDetector::new(300_000, 24, 0);
    for i in 0..48 {
        if i < 24 {
            det.observe(&hist_a);
        } else {
            det.observe(&hist_b);
        }
    }
    let scenes = det.into_scenes();
    assert_eq!(scenes.len(), 2);
    assert_eq!(scenes[0].start, 0);
    assert_eq!(scenes[0].end, 23);
    assert_eq!(scenes[1].start, 24);
    assert_eq!(scenes[1].end, 47);
}

#[test]
fn test_scene_coverage_after_repair() {
    // Sentinel and out-of-range bounds are repaired into a tiling of the
    // frame range.
    let mut scenes = vec![
        SceneRecord { start: 0, end: u32::MAX, peak_nits: 0, avg_pq: 0 },
    ];
    fix_scene_end_frames(&mut scenes, 48);
    assert_eq!(scenes[0].start, 0);
    assert_eq!(scenes[0].end, 47);

    let mut broken = vec![SceneRecord { start: 90, end: 10, peak_nits: 0, avg_pq: 0 }];
    fix_scene_end_frames(&mut broken, 48);
    assert_eq!(broken[0].start, 0);
    assert_eq!(broken[0].end, 47);

    // Converting cuts always tiles [0, total) exactly.
    let scenes2 = convert_scene_cuts_to_scenes(vec![24, 90], 120);
    assert_eq!(scenes2.len(), 3);
    assert_eq!(scenes2[0].start, 0);
    assert_eq!(scenes2[0].end, 23);
    assert_eq!(scenes2[1].start, 24);
    assert_eq!(scenes2[1].end, 89);
    assert_eq!(scenes2[2].start, 90);
    assert_eq!(scenes2[2].end, 119);
    let covered: u64 = scenes2.iter().map(|s| (s.end - s.start + 1) as u64).sum();
    assert_eq!(covered, 120);
}

#[test]
fn test_avg_pq_linear_exact() {
    // All mass in bin 51 of the flat ramp: 51/255 = 0.2 in PQ.
    let mut hist = vec![0u32; 256];
    hist[51] = 64000;
    assert_eq!(calculate_avg_pq_from_histogram(&hist), 200_000);
    // An empty histogram yields zero.
    assert_eq!(calculate_avg_pq_from_histogram(&vec![0u32; 256]), 0);
}

#[test]
fn test_percentile_pq_and_peak_selection() {
    let mut hist = vec![0u32; 256];
    hist[100] = 63360; // 99 percent
    hist[200] = 640; // 1 percent
    // The 99th percentile from the top lands on bin 200.
    let p99 = compute_histogram_percentile_pq(&hist, 99_000);
    assert_eq!(p99, 200 * 1_000_000 / 255);
    assert_eq!(select_peak_pq(&hist, 123_456, PeakPolicy::Max), 123_456);
    assert_eq!(select_peak_pq(&hist, 123_456, PeakPolicy::Histogram99), p99);
    // An empty histogram falls back to PQ 1.
    let empty = vec![0u32; 256];
    assert_eq!(compute_histogram_percentile_pq(&empty, 99_000), 1_000_000);
}

#[test]
fn test_histogram_ema_exact_state() {
    let mut hist = vec![64000u32, 0];
    let mut state = vec![0u64, 0];
    // Beta 0.5: the state moves halfway to the input.
    apply_histogram_ema(&mut hist, &mut state, 500);
    assert_eq!(state[0], (500u64 * 64000 * 65536) / 1000);
    assert_eq!(state[1], 0);
    // After renormalization all mass stays in bin 0.
    assert_eq!(hist[0], 64000);
    assert_eq!(hist[1], 0);
    // Beta 0 leaves everything untouched.
    let mut hist2 = vec![100u32, 200];
    let mut state2 = vec![7u64, 8];
    apply_histogram_ema(&mut hist2, &mut state2, 0);
    assert_eq!(hist2, vec![100, 200]);
    assert_eq!(state2, vec![7, 8]);
}

#[test]
fn test_temporal_median_and_sort() {
    let mut v = vec![5u32, 1, 4, 2, 3];
    sort_u32(&mut v);
    assert_eq!(v, vec![1, 2, 3, 4, 5]);

    let mut hist = vec![64000u32, 0];
    let history = vec![vec![0u32, 64000], vec![0u32, 64000]];
    apply_histogram_temporal_median(&mut hist, &history);
    // The median of {0, 0, 64000} in bin 0 is 0; bin 1 gets everything.
    assert_eq!(hist[0], 0);
    assert_eq!(hist[1], 64000);
}

#[test]
fn test_normalize_histogram_exact() {
    let mut h = vec![1u32, 1, 2];
    normalize_histogram(&mut h);
    assert_eq!(h, vec![16000, 16000, 32000]);
    let sum: u64 = h.iter().map(|v| *v as u64).sum();
    assert!(sum >= 64000 - 3 && sum <= 64000 + 3);
    // An all-zero histogram stays untouched.
    let mut z = vec![0u32; 4];
    normalize_histogram(&mut z);
    assert_eq!(z, vec![0, 0, 0, 0]);
}

#[test]
fn test_optimizer_pass_sets_targets() {
    let avg = nits_to_pq(120 * 1000);
    let peak = nits_to_pq(2000 * 1000);
    let mut frames: Vec<FrameRecord> = (0..30)
        .map(|_| {
            let mut f = make_frame(avg, peak, None);
            f.lum_histogram[100] = 64000;
            f
        })
        .collect();
    let mut scenes = vec![SceneRecord { start: 0, end: 29, peak_nits: 0, avg_pq: 0 }];
    precompute_scene_stats(&mut scenes, &frames);
    assert_eq!(scenes[0].avg_pq, avg);
    assert!((scenes[0].peak_nits as i64 - 2000).abs() <= 1);

    let profile = OptimizerProfile::balanced();
    run_optimizer_pass(&scenes, &mut frames, &profile);
    for f in &frames {
        let t = f.target_nits.expect("every covered frame gets a target");
        assert!(t <= 10000);
    }
    // Consecutive targets respect the delta limit.
    for w in frames.windows(2) {
        let a = w[0].target_nits.unwrap() as i64;
        let b = w[1].target_nits.unwrap() as i64;
        assert!((a - b).abs() <= profile.max_delta_per_frame as i64);
    }
}

#[test]
fn test_sdr_peak_anchor_consistency() {
    // The v5 bin layout's 100-nit anchor equals the curve's own value.
    assert_eq!(nits_to_pq(100 * 1000), hdr_measure::codec::SDR_PEAK_MICRO_PQ);
}

#[test]
fn test_scene_detection_with_smoothing() {
    // With a short smoothing window the averaged distance still crosses a
    // small threshold at the step change.
    let mut hist_a = vec![0u32; 256];
    hist_a[10] = 64000;
    let mut hist_b = vec![0u32; 256];
    hist_b[200] = 64000;

    let mut det = SceneDetector::new(300_000, 24, 3);
    for i in 0..48 {
        if i < 24 {
            det.observe(&hist_a);
        } else {
            det.observe(&hist_b);
        }
    }
    let scenes = det.into_scenes();
    assert_eq!(scenes.len(), 2);
    assert_eq!(scenes[0].end, 23);
    assert_eq!(scenes[1].start, 24);
}

#[test]
fn test_decimal_formatting_edges() {
    assert_eq!(format_duration(0).as_str(), "0s");
    assert_eq!(format_duration(59).as_str(), "59s");
    assert_eq!(format_duration(60).as_str(), "1m0s");
    assert_eq!(format_duration(3600).as_str(), "1h0m0s");
}

#[test]
fn test_histogram_diff_single_quantum() {
    // Any difference at all registers: one bin off by one quantum gives a
    // positive distance, and equality gives exactly zero.
    let mut hist1 = vec![0u32; 256];
    hist1[40] = 64000;
    let mut hist2 = vec![0u32; 256];
    hist2[40] = 63999;
    hist2[41] = 1;
    assert!(calculate_histogram_difference(&hist1, &hist2) >= 1);
    assert_eq!(calculate_histogram_difference(&hist1, &hist1), 0);
}

#[test]
fn test_knee_value_matches_conversion() {
    // The knee is the PQ-to-light conversion of the knee bin read as a
    // flat PQ fraction.
    let mut histogram = vec![0u32; 256];
    histogram[100] = 63360;
    histogram[200] = 640;
    let knee = find_highlight_knee_nits(&histogram);
    assert_eq!(knee, pq_to_nits(200 * 1_000_000 / 255));
}

#[test]
fn test_apply_target_smoother_exact_forward_ema() {
    // Forward-only EMA with alpha 0.5: 100 stays, then
    // (500*200000 + 500*100000) / 1000 = 150000 -> 150 nits.
    let mut frames = vec![
        make_frame(0, 0, Some(100)),
        make_frame(0, 0, Some(200)),
    ];
    let scenes = vec![SceneRecord { start: 0, end: 1, peak_nits: 0, avg_pq: 0 }];
    apply_target_smoother(&scenes, &mut frames, 500, false, 1000);
    assert_eq!(frames[0].target_nits, Some(100));
    assert_eq!(frames[1].target_nits, Some(150));
}

#[test]
fn test_apply_target_smoother_skips_scene_with_missing_target() {
    // One frame without a target freezes its whole scene; the covered
    // scene after it is still smoothed.
    let mut frames = vec![
        make_frame(0, 0, Some(100)),
        make_frame(0, 0, None),
        make_frame(0, 0, Some(400)),
        make_frame(0, 0, Some(600)),
    ];
    let scenes = vec![
        SceneRecord { start: 0, end: 1, peak_nits: 0, avg_pq: 0 },
        SceneRecord { start: 2, end: 3, peak_nits: 0, avg_pq: 0 },
    ];
    apply_target_smoother(&scenes, &mut frames, 500, false, 1000);
    assert_eq!(frames[0].target_nits, Some(100));
    assert_eq!(frames[1].target_nits, None);
    assert_eq!(frames[2].target_nits, Some(400));
    assert_eq!(frames[3].target_nits, Some(500));
}
