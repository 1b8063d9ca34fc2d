//! Tests of the measurement codec, the frame analyzer, and crop detection,
//! including cross-checks of the byte layout against the madvr_parse crate.

use hdr_measure::codec::{
    avg_pq_mid_bin, build_measurements, compute_falls, parse_measurements,
    percentile_u32, serialize_measurements, validate_flags_vs_data,
    validate_measurement_data, MeasurementError,
};
use hdr_measure::crop::{detect_crop, CropRect};
use hdr_measure::frame::{analyze_native_frame_cropped, apply_median3_denoise, hue_sector};
use hdr_measure::histogram::PeakPolicy;
use hdr_measure::pq::nits_to_pq;
use hdr_measure::{FrameRecord, SceneRecord};

fn make_frame(avg_pq: u32, peak_pq: u32, target: Option<u16>) -> FrameRecord {
    let mut lum = vec![0u32; 256];
    lum[128] = 64000;
    let mut hue = vec![0u32; 31];
    hue[3] = 64000;
    FrameRecord {
        peak_pq_2020: peak_pq,
        peak_pq_dcip3: None,
        peak_pq_709: None,
        avg_pq,
        lum_histogram: lum,
        hue_histogram: hue,
        target_nits: target,
    }
}

#[test]
fn test_gamut_peak_approximation() {
    let bt2020_peak = 0.8_f64;
    let peak_dcip3 = (bt2020_peak * 0.99).min(1.0);
    let peak_709 = (bt2020_peak * 0.95).min(1.0);

    assert!(peak_dcip3 <= bt2020_peak);
    assert!(peak_709 <= peak_dcip3);
    assert!(peak_dcip3 > 0.7);
    assert!(peak_709 > 0.7);
}

#[test]
fn test_gamut_peaks_in_built_file() {
    let frames = vec![make_frame(200_000, 800_000, Some(600))];
    let scenes = vec![SceneRecord { start: 0, end: 0, peak_nits: 100, avg_pq: 200_000 }];
    let m = build_measurements(&scenes, &frames, true, 6, None, PeakPolicy::Max).unwrap();
    let f = &m.frames[0];
    let d = f.peak_pq_dcip3.unwrap();
    let n = f.peak_pq_709.unwrap();
    assert_eq!(d, 800_000 * 99 / 100);
    assert_eq!(n, 800_000 * 95 / 100);
    assert!(n <= d && d <= 800_000);
}

#[test]
fn test_compute_falls() {
    let frames = vec![
        make_frame(nits_to_pq(100 * 1000), 0, None),
        make_frame(nits_to_pq(200 * 1000), 0, None),
        make_frame(nits_to_pq(300 * 1000), 0, None),
    ];
    let (maxfall, avgfall) = compute_falls(&frames);
    assert!((299..=301).contains(&maxfall), "maxfall ~300, got {}", maxfall);
    assert!((199..=201).contains(&avgfall), "avgfall ~200, got {}", avgfall);
}

#[test]
fn test_percentile_u32() {
    let v = vec![1u32, 2, 3, 4, 5, 6, 7, 8, 9, 10];
    assert_eq!(percentile_u32(&v, 0), 1);
    assert_eq!(percentile_u32(&v, 500), 5);
    assert!(percentile_u32(&v, 990) >= 9);
    assert_eq!(percentile_u32(&Vec::new(), 500), 0);
}

#[test]
fn test_avg_pq_mid_bin_values() {
    // All mass below the anchor: bin 32 weighs 32 * 3/128 of the anchor.
    let mut hist = vec![0u32; 256];
    hist[32] = 64000;
    let expected = (32u64 * 508078 * 3 / 128) as u32;
    assert_eq!(avg_pq_mid_bin(&hist), expected);
    assert_eq!(avg_pq_mid_bin(&vec![0u32; 256]), 0);
}

#[test]
fn test_serialize_parse_round_trip_v6() {
    let frames = vec![
        make_frame(300_000, 700_000, Some(500)),
        make_frame(400_000, 900_000, Some(650)),
    ];
    let scenes = vec![SceneRecord { start: 0, end: 1, peak_nits: 3000, avg_pq: 350_000 }];
    let m = build_measurements(&scenes, &frames, true, 6, Some(1200), PeakPolicy::Max).unwrap();
    assert_eq!(m.header.version, 6);
    assert_eq!(m.header.header_size, 36);
    assert_eq!(m.header.flags, 3);
    assert_eq!(m.header.target_peak_nits, 1200);

    let bytes = serialize_measurements(&m);
    assert_eq!(&bytes[0..4], b"mvr+");
    let back = parse_measurements(&bytes).expect("own bytes parse back");
    assert_eq!(back.header.version, 6);
    assert_eq!(back.header.scene_count, 1);
    assert_eq!(back.header.frame_count, 2);
    assert_eq!(back.scenes[0].start, 0);
    assert_eq!(back.scenes[0].end, 1);
    assert_eq!(back.scenes[0].peak_nits, 3000);
    assert_eq!(back.frames[0].target_nits, Some(500));
    assert_eq!(back.frames[1].target_nits, Some(650));
    // The peak survives the 1/64000 quantization within half a step.
    let peak_back = back.frames[0].peak_pq_2020 as i64;
    assert!((peak_back - 700_000).abs() <= 8);
    assert_eq!(back.frames[0].lum_histogram, frames[0].lum_histogram);
    assert_eq!(back.frames[0].hue_histogram, frames[0].hue_histogram);
    // A parsed file is structurally valid.
    assert!(validate_measurement_data(&back.scenes, &back.frames).is_ok());
    assert!(validate_flags_vs_data(true, &back.frames));
}

#[test]
fn test_bytes_parse_with_madvr_parse_crate() {
    // The emitted layout is the one the madvr_parse crate reads.
    let frames = vec![make_frame(250_000, 650_000, Some(480))];
    let scenes = vec![SceneRecord { start: 0, end: 0, peak_nits: 2500, avg_pq: 250_000 }];
    let m = build_measurements(&scenes, &frames, true, 5, None, PeakPolicy::Max).unwrap();
    let bytes = serialize_measurements(&m);

    let parsed = madvr_parse::MadVRMeasurements::parse_measurements(&bytes)
        .expect("madvr_parse accepts the bytes");
    assert_eq!(parsed.header.version, 5);
    assert_eq!(parsed.header.header_size, 32);
    assert_eq!(parsed.header.scene_count, 1);
    assert_eq!(parsed.header.frame_count, 1);
    assert_eq!(parsed.header.flags, 3);
    assert_eq!(parsed.header.maxcll, m.header.maxcll);
    assert_eq!(parsed.header.maxfall, m.header.maxfall);
    assert_eq!(parsed.scenes[0].start, 0);
    assert_eq!(parsed.scenes[0].end, 0);
    assert_eq!(parsed.scenes[0].peak_nits, 2500);
    assert_eq!(parsed.frames[0].target_nits, Some(480));
    let peak = parsed.frames[0].peak_pq_2020;
    assert!((peak - 0.65).abs() < 0.001);
    // Histogram bin 128 carries the whole population.
    assert!((parsed.frames[0].lum_histogram[128] - 100.0).abs() < 0.01);
}

#[test]
fn test_parse_accepts_madvr_parse_output() {
    // Bytes written by the madvr_parse crate parse back through this codec.
    let mv = madvr_parse::MadVRMeasurements {
        header: madvr_parse::MadVRHeader {
            version: 5,
            header_size: 32,
            scene_count: 1,
            frame_count: 1,
            flags: 2,
            maxcll: 1000,
            maxfall: 300,
            avgfall: 200,
            target_peak_nits: 0,
        },
        scenes: vec![madvr_parse::MadVRScene {
            start: 0,
            end: 0,
            peak_nits: 1000,
            ..Default::default()
        }],
        frames: vec![madvr_parse::MadVRFrame {
            peak_pq_2020: 0.75,
            lum_histogram: {
                let mut h = vec![0.0f64; 256];
                h[100] = 100.0;
                h
            },
            hue_histogram: Some(vec![0.0f64; 31]),
            ..Default::default()
        }],
    };
    let bytes = mv.write_measurements().unwrap();
    let back = parse_measurements(&bytes).expect("codec reads madvr_parse bytes");
    assert_eq!(back.header.maxcll, 1000);
    assert_eq!(back.scenes[0].peak_nits, 1000);
    assert!((back.frames[0].peak_pq_2020 as i64 - 750_000).abs() <= 8);
    assert_eq!(back.frames[0].lum_histogram[100], 64000);
}

#[test]
fn test_parse_error_variants() {
    assert_eq!(parse_measurements(&vec![1, 2]).unwrap_err(), MeasurementError::Truncated);
    assert_eq!(
        parse_measurements(&vec![b'x'; 40]).unwrap_err(),
        MeasurementError::BadMagic
    );
    // A valid magic with a zero flags field is an unfinished file.
    let mut incomplete = b"mvr+".to_vec();
    incomplete.extend_from_slice(&5u32.to_le_bytes());
    incomplete.extend_from_slice(&32u32.to_le_bytes());
    incomplete.extend_from_slice(&0u32.to_le_bytes());
    incomplete.extend_from_slice(&0u32.to_le_bytes());
    incomplete.extend_from_slice(&0u32.to_le_bytes()); // flags
    incomplete.extend_from_slice(&0u32.to_le_bytes());
    assert_eq!(
        parse_measurements(&incomplete).unwrap_err(),
        MeasurementError::IncompleteFile
    );
    // An unsupported version.
    let mut v4 = b"mvr+".to_vec();
    v4.extend_from_slice(&4u32.to_le_bytes());
    v4.extend_from_slice(&28u32.to_le_bytes());
    v4.extend_from_slice(&0u32.to_le_bytes());
    v4.extend_from_slice(&0u32.to_le_bytes());
    v4.extend_from_slice(&2u32.to_le_bytes());
    v4.extend_from_slice(&0u32.to_le_bytes());
    assert_eq!(
        parse_measurements(&v4).unwrap_err(),
        MeasurementError::UnsupportedVersion
    );
    // A truncated body.
    let frames = vec![make_frame(1000, 2000, None)];
    let scenes = vec![SceneRecord { start: 0, end: 0, peak_nits: 1, avg_pq: 0 }];
    let m = build_measurements(&scenes, &frames, false, 5, None, PeakPolicy::Max).unwrap();
    let mut bytes = serialize_measurements(&m);
    bytes.truncate(bytes.len() - 10);
    assert_eq!(parse_measurements(&bytes).unwrap_err(), MeasurementError::Truncated);
}

#[test]
fn test_build_rejects_missing_target() {
    let frames = vec![make_frame(1000, 2000, None)];
    let scenes = vec![SceneRecord { start: 0, end: 0, peak_nits: 1, avg_pq: 0 }];
    assert_eq!(
        build_measurements(&scenes, &frames, true, 5, None, PeakPolicy::Max).unwrap_err(),
        MeasurementError::MissingTarget
    );
    assert_eq!(
        build_measurements(&scenes, &frames, false, 7, None, PeakPolicy::Max).unwrap_err(),
        MeasurementError::UnsupportedVersion
    );
}

#[test]
fn test_validate_flags_vs_data_cases() {
    let with = vec![make_frame(0, 0, Some(1))];
    let without = vec![make_frame(0, 0, None)];
    assert!(validate_flags_vs_data(true, &with));
    assert!(!validate_flags_vs_data(true, &without));
    assert!(validate_flags_vs_data(false, &without));
    assert!(!validate_flags_vs_data(false, &with));
}

/// Build a 10-bit planar 4:2:0 frame from a luma function.
fn synth_planes(width: usize, height: usize, f: impl Fn(usize, usize) -> u16)
    -> (Vec<u8>, Vec<u8>, Vec<u8>) {
    let stride = width * 2;
    let mut y = vec![0u8; stride * height];
    for row in 0..height {
        for col in 0..width {
            let code = f(col, row);
            let off = row * stride + col * 2;
            y[off] = (code & 0xFF) as u8;
            y[off + 1] = (code >> 8) as u8;
        }
    }
    // Neutral chroma everywhere.
    let cw = width / 2;
    let ch = height / 2;
    let mut u = vec![0u8; cw * 2 * ch];
    let mut v = vec![0u8; cw * 2 * ch];
    for i in 0..(cw * ch) {
        u[2 * i] = 0x00;
        u[2 * i + 1] = 0x02; // 512
        v[2 * i] = 0x00;
        v[2 * i + 1] = 0x02;
    }
    (y, u, v)
}

#[test]
fn test_analyze_frame_histogram_population() {
    // A uniform mid-gray frame: every pixel lands in one bin and the
    // histogram sums to a full population.
    let (y, u, v) = synth_planes(16, 8, |_, _| 500);
    let crop = CropRect { x: 0, y: 0, width: 16, height: 8 };
    let rec = analyze_native_frame_cropped(&y, 32, &u, 16, &v, 16, &crop, false, false, 0);
    let sum: u64 = rec.lum_histogram.iter().map(|b| *b as u64).sum();
    assert!(sum >= 64000 - 256 && sum <= 64000 + 256, "sum {}", sum);
    assert_eq!(rec.lum_histogram.iter().filter(|b| **b > 0).count(), 1);
    // Peak PQ equals the normalized code (500-64)/876.
    let expected = (500u64 - 64) * 1_000_000 / 876;
    assert_eq!(rec.peak_pq_2020 as u64, expected);
    // Neutral chroma leaves the hue histogram empty.
    assert!(rec.hue_histogram.iter().all(|b| *b == 0));
}

#[test]
fn test_analyze_frame_hlg_path_differs() {
    let (y, u, v) = synth_planes(8, 4, |_, _| 700);
    let crop = CropRect { x: 0, y: 0, width: 8, height: 4 };
    let pq_rec = analyze_native_frame_cropped(&y, 16, &u, 8, &v, 8, &crop, false, false, 0);
    let hlg_rec = analyze_native_frame_cropped(
        &y, 16, &u, 8, &v, 8, &crop, false, true, 1000 * 1000);
    assert_ne!(pq_rec.peak_pq_2020, hlg_rec.peak_pq_2020);
}

#[test]
fn test_median_denoise_removes_speck() {
    // A single bright outlier inside a flat area is flattened.
    let (y, _, _) = synth_planes(8, 8, |x, yy| if x == 4 && yy == 4 { 900 } else { 200 });
    let crop = CropRect { x: 0, y: 0, width: 8, height: 8 };
    let out = apply_median3_denoise(&y, 16, &crop);
    let off = 4 * 16 + 4 * 2;
    let code = (out[off] as u16) | ((out[off + 1] as u16) << 8);
    assert_eq!(code, 200);
}

#[test]
fn test_detect_crop_finds_letterbox() {
    // Black bars of 16 rows above and below a bright centre.
    let (y, _, _) = synth_planes(64, 64, |_, row| if (16..48).contains(&row) { 600 } else { 0 });
    let r = detect_crop(&y, 128, 64, 64);
    assert_eq!(r.x, 0);
    assert_eq!(r.width, 64);
    assert_eq!(r.y, 16);
    assert_eq!(r.height, 32);
    // An all-black frame falls back to the full frame.
    let (yb, _, _) = synth_planes(32, 32, |_, _| 0);
    let rb = detect_crop(&yb, 64, 32, 32);
    assert_eq!((rb.x, rb.y, rb.width, rb.height), (0, 0, 32, 32));
}

#[test]
fn test_hue_sector_matches_angle() {
    // The integer sector classifier agrees with the floating-point angle.
    for u in (-500i64..=500).step_by(37) {
        for v in (-500i64..=500).step_by(41) {
            if u * u + v * v < 100 {
                continue;
            }
            let got = hue_sector(u, v);
            let deg = ((v as f64).atan2(u as f64).to_degrees() + 360.0) % 360.0;
            let expected = ((deg * 31.0 / 360.0).floor() as usize).min(30);
            assert_eq!(got, expected, "u={} v={} deg={}", u, v, deg);
        }
    }
}

#[test]
fn test_validator_rejects_pq_out_of_range() {
    let mut f = make_frame(200_000, 800_000, None);
    f.peak_pq_2020 = 2_000_000;
    let scenes: Vec<SceneRecord> = Vec::new();
    assert_eq!(
        validate_measurement_data(&scenes, &vec![f]).unwrap_err(),
        MeasurementError::InvalidPqRange
    );
    let mut g = make_frame(200_000, 800_000, None);
    g.avg_pq = 1_000_001;
    assert_eq!(
        validate_measurement_data(&scenes, &vec![g]).unwrap_err(),
        MeasurementError::InvalidPqRange
    );
    // The warning count reports suspicious scenes exactly.
    let ok_frame = make_frame(200_000, 800_000, None);
    let sus = vec![
        SceneRecord { start: 5, end: 2, peak_nits: 0, avg_pq: 0 },
        SceneRecord { start: 0, end: 0, peak_nits: 0, avg_pq: 0 },
    ];
    assert_eq!(validate_measurement_data(&sus, &vec![ok_frame]).unwrap(), 1);
}
