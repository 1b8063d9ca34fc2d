//! The binary measurement file: a little-endian, magic-prefixed layout with
//! a versioned header, a scene table, per-frame peaks and histograms, and an
//! optional trailing block of per-frame targets.
//!
//! On disk, PQ code values are `u16` in units of 1/64000 and histogram bins
//! are `u16` in units of 1/640 percent — exactly the units the in-memory
//! records use, so encoding is a pure layout concern.

use vstd::prelude::*;
use crate::{FrameRecord, SceneRecord};

verus! {

/// File magic: the ASCII bytes of "mvr+".
pub open spec fn spec_magic() -> Seq<u8> {
    seq![0x6du8, 0x76u8, 0x72u8, 0x2bu8]
}

/// The measurement header.  `header_size` counts the header bytes after the
/// magic; `flags` is 3 when per-frame targets follow the frame table and 2
/// otherwise.
#[derive(Clone, Copy, Debug)]
pub struct MeasurementHeader {
    /// Layout version; this codec speaks versions 5 and 6.
    pub version: u32,
    /// Header size in bytes, after the magic: 32 for v5, 36 for v6.
    pub header_size: u32,
    /// Number of scene records.
    pub scene_count: u32,
    /// Number of frame records.
    pub frame_count: u32,
    /// 3 when per-frame targets are present, 2 otherwise.
    pub flags: u32,
    /// Peak content light level over all frames, in nits.
    pub maxcll: u32,
    /// Maximum frame-average light level, in nits.
    pub maxfall: u32,
    /// Mean frame-average light level, in nits.
    pub avgfall: u32,
    /// Mastering target for version-6 files, in nits.
    pub target_peak_nits: u32,
}

/// A parsed or buildable measurement file.
#[derive(Debug)]
pub struct Measurements {
    /// The header.
    pub header: MeasurementHeader,
    /// Ordered scene table.
    pub scenes: Vec<SceneRecord>,
    /// Ordered frame table.
    pub frames: Vec<FrameRecord>,
}

/// A `u32` as four little-endian bytes.
pub open spec fn spec_le32(x: u32) -> Seq<u8> {
    seq![
        (x % 256) as u8,
        ((x / 256) % 256) as u8,
        ((x / 65536) % 256) as u8,
        ((x / 16777216) % 256) as u8,
    ]
}

/// A `u16` as two little-endian bytes.
pub open spec fn spec_le16(x: u16) -> Seq<u8> {
    seq![(x % 256) as u8, ((x / 256) % 256) as u8]
}

/// A micro-PQ value as the file's 1/64000 code, rounded half-up.
pub open spec fn spec_pq_code(micro_pq: u32) -> u16 {
    (((micro_pq * 64000) + 500_000) / 1_000_000) as u16
}

/// Header bytes: six fixed fields, the FALL pair, and for version 6 the
/// mastering target.
pub open spec fn spec_ser_header(h: MeasurementHeader) -> Seq<u8> {
    spec_le32(h.version) + spec_le32(h.header_size) + spec_le32(h.scene_count)
        + spec_le32(h.frame_count) + spec_le32(h.flags) + spec_le32(h.maxcll)
        + spec_le32(h.maxfall) + spec_le32(h.avgfall)
        + (if h.version >= 6 { spec_le32(h.target_peak_nits) } else { Seq::<u8>::empty() })
}

/// The scene table stores all starts, then all ends (exclusive), then all
/// scene peaks.
pub open spec fn spec_ser_scene_starts(scenes: Seq<SceneRecord>) -> Seq<u8>
    decreases scenes.len(),
{
    if scenes.len() == 0 {
        Seq::<u8>::empty()
    } else {
        spec_ser_scene_starts(scenes.drop_last()) + spec_le32(scenes.last().start)
    }
}

/// Ends are stored one past the inclusive end index.
pub open spec fn spec_ser_scene_ends(scenes: Seq<SceneRecord>) -> Seq<u8>
    decreases scenes.len(),
{
    if scenes.len() == 0 {
        Seq::<u8>::empty()
    } else {
        spec_ser_scene_ends(scenes.drop_last()) + spec_le32((scenes.last().end + 1) as u32)
    }
}

/// Scene peak luminances, in nits.
pub open spec fn spec_ser_scene_peaks(scenes: Seq<SceneRecord>) -> Seq<u8>
    decreases scenes.len(),
{
    if scenes.len() == 0 {
        Seq::<u8>::empty()
    } else {
        spec_ser_scene_peaks(scenes.drop_last()) + spec_le32(scenes.last().peak_nits)
    }
}

/// A histogram as consecutive `u16` bins.
pub open spec fn spec_ser_histogram(h: Seq<u32>) -> Seq<u8>
    decreases h.len(),
{
    if h.len() == 0 {
        Seq::<u8>::empty()
    } else {
        spec_ser_histogram(h.drop_last()) + spec_le16(h.last() as u16)
    }
}

/// One frame: the peak code (three gamut peaks for version 6), then the
/// luminance and hue histograms.
pub open spec fn spec_ser_frame(f: FrameRecord, version: u32) -> Seq<u8> {
    spec_le16(spec_pq_code(f.peak_pq_2020))
        + (if version >= 6 {
            spec_le16(spec_pq_code(f.peak_pq_dcip3->0))
                + spec_le16(spec_pq_code(f.peak_pq_709->0))
        } else {
            Seq::<u8>::empty()
        })
        + spec_ser_histogram(f.lum_histogram@)
        + spec_ser_histogram(f.hue_histogram@)
}

/// The frame table.
pub open spec fn spec_ser_frames(frames: Seq<FrameRecord>, version: u32) -> Seq<u8>
    decreases frames.len(),
{
    if frames.len() == 0 {
        Seq::<u8>::empty()
    } else {
        spec_ser_frames(frames.drop_last(), version) + spec_ser_frame(frames.last(), version)
    }
}

/// The trailing per-frame targets, present when `flags == 3`.
pub open spec fn spec_ser_targets(frames: Seq<FrameRecord>) -> Seq<u8>
    decreases frames.len(),
{
    if frames.len() == 0 {
        Seq::<u8>::empty()
    } else {
        spec_ser_targets(frames.drop_last()) + spec_le16(frames.last().target_nits->0)
    }
}

/// The whole file: magic, header, scene table, frame table, and the target
/// block when the flags announce it.
pub open spec fn spec_ser_measurements(m: Measurements) -> Seq<u8> {
    spec_magic() + spec_ser_header(m.header) + spec_ser_scene_starts(m.scenes@)
        + spec_ser_scene_ends(m.scenes@) + spec_ser_scene_peaks(m.scenes@)
        + spec_ser_frames(m.frames@, m.header.version)
        + (if m.header.flags == 3 { spec_ser_targets(m.frames@) } else { Seq::<u8>::empty() })
}

/// Everything the layout needs from a measurement value: supported version,
/// matching counts, present gamut peaks for v6, present targets when the
/// flags say so, fixed histogram lengths, and scene ends below the sentinel.
pub open spec fn measurements_encodable(m: Measurements) -> bool {
    &&& (m.header.version == 5 || m.header.version == 6)
    &&& m.header.flags != 0
    &&& m.scenes@.len() == m.header.scene_count
    &&& m.frames@.len() == m.header.frame_count
    &&& (forall|k: int| 0 <= k < m.scenes@.len()
            ==> (#[trigger] m.scenes@[k]).end < 0xFFFFFFFFu32)
    &&& (forall|j: int| 0 <= j < m.frames@.len() ==> (#[trigger] m.frames@[j]).wf())
    &&& (m.header.version >= 6 ==> forall|j: int| 0 <= j < m.frames@.len()
            ==> (#[trigger] m.frames@[j]).peak_pq_dcip3 is Some
                && m.frames@[j].peak_pq_709 is Some)
    &&& (m.header.flags == 3 ==> forall|j: int| 0 <= j < m.frames@.len()
            ==> (#[trigger] m.frames@[j]).target_nits is Some)
}

/// The announced content needs at least the header bytes themselves.
proof fn lemma_needed_at_least_body(b: Seq<u8>)
    ensures
        spec_needed_len(b) >= spec_body_pos(b),
{
    assert(12 * spec_read_le32(b, 12) >= 0) by (nonlinear_arith)
        requires spec_read_le32(b, 12) >= 0;
    assert(((if spec_read_le32(b, 4) >= 6 { 580int } else { 576int })
        + (if spec_read_le32(b, 20) == 3 { 2int } else { 0int }))
        * spec_read_le32(b, 16) >= 0) by (nonlinear_arith)
        requires spec_read_le32(b, 16) >= 0;
}

/// Append a `u32` in little-endian order.
fn push_le32(out: &mut Vec<u8>, x: u32)
    ensures
        final(out)@ == old(out)@ + spec_le32(x),
{
    out.push((x % 256) as u8);
    out.push(((x / 256) % 256) as u8);
    out.push(((x / 65536) % 256) as u8);
    out.push(((x / 16777216) % 256) as u8);
    proof {
        assert(final(out)@ =~= old(out)@ + spec_le32(x));
    }
}

/// Append a `u16` in little-endian order.
fn push_le16(out: &mut Vec<u8>, x: u16)
    ensures
        final(out)@ == old(out)@ + spec_le16(x),
{
    out.push((x % 256) as u8);
    out.push(((x / 256) % 256) as u8);
    proof {
        assert(final(out)@ =~= old(out)@ + spec_le16(x));
    }
}

/// A micro-PQ value as the file's 1/64000 code.
fn pq_code(micro_pq: u32) -> (r: u16)
    requires
        micro_pq <= crate::PQ_ONE,
    ensures
        r == spec_pq_code(micro_pq),
        r <= 64000,
{
    let wide: u64 = ((micro_pq as u64) * 64000 + 500_000) / 1_000_000;
    proof {
        assert(((micro_pq as int) * 64000 + 500_000) / 1_000_000 <= 64000)
            by (nonlinear_arith)
            requires micro_pq <= 1_000_000u32;
    }
    wide as u16
}

/// Append a histogram as `u16` bins.
fn push_histogram(out: &mut Vec<u8>, h: &Vec<u32>)
    requires
        forall|j: int| 0 <= j < h@.len() ==> #[trigger] h@[j] <= crate::HIST_FULL_SCALE,
    ensures
        final(out)@ == old(out)@ + spec_ser_histogram(h@),
{
    let mut i: usize = 0;
    proof {
        assert(h@.subrange(0, 0) =~= Seq::<u32>::empty());
        assert(out@ =~= old(out)@ + spec_ser_histogram(h@.subrange(0, 0)));
    }
    while i < h.len()
        invariant
            i <= h@.len(),
            forall|j: int| 0 <= j < h@.len() ==> #[trigger] h@[j] <= crate::HIST_FULL_SCALE,
            out@ == old(out)@ + spec_ser_histogram(h@.subrange(0, i as int)),
        decreases h@.len() - i,
    {
        let b: u32 = h[i];
        push_le16(out, b as u16);
        proof {
            let a = h@.subrange(0, i + 1);
            assert(a.drop_last() =~= h@.subrange(0, i as int));
            assert(a.last() == h@[i as int]);
            assert(out@ =~= old(out)@ + spec_ser_histogram(h@.subrange(0, i + 1)));
        }
        i = i + 1;
    }
    proof {
        assert(h@.subrange(0, h@.len() as int) =~= h@);
    }
}

/// Serialize a measurement value to the exact on-disk byte sequence.
pub fn serialize_measurements(m: &Measurements) -> (r: Vec<u8>)
    requires
        measurements_encodable(*m),
    ensures
        r@ == spec_ser_measurements(*m),
{
    let ghost gm = *m;
    let mut out: Vec<u8> = Vec::new();
    out.push(0x6d);
    out.push(0x76);
    out.push(0x72);
    out.push(0x2b);
    proof {
        assert(out@ =~= spec_magic());
    }
    // Header.
    push_le32(&mut out, m.header.version);
    push_le32(&mut out, m.header.header_size);
    push_le32(&mut out, m.header.scene_count);
    push_le32(&mut out, m.header.frame_count);
    push_le32(&mut out, m.header.flags);
    push_le32(&mut out, m.header.maxcll);
    push_le32(&mut out, m.header.maxfall);
    push_le32(&mut out, m.header.avgfall);
    if m.header.version >= 6 {
        push_le32(&mut out, m.header.target_peak_nits);
    }
    proof {
        assert(out@ =~= spec_magic() + spec_ser_header(gm.header));
    }
    // Scene table: starts, exclusive ends, peaks.
    let ghost base1 = out@;
    let mut k: usize = 0;
    proof {
        assert(gm.scenes@.subrange(0, 0) =~= Seq::<SceneRecord>::empty());
        assert(out@ =~= base1 + spec_ser_scene_starts(gm.scenes@.subrange(0, 0)));
    }
    while k < m.scenes.len()
        invariant
            k <= gm.scenes@.len(),
            m.scenes@ == gm.scenes@,
            out@ == base1 + spec_ser_scene_starts(gm.scenes@.subrange(0, k as int)),
        decreases gm.scenes@.len() - k,
    {
        push_le32(&mut out, m.scenes[k].start);
        proof {
            let a = gm.scenes@.subrange(0, k + 1);
            assert(a.drop_last() =~= gm.scenes@.subrange(0, k as int));
            assert(out@ =~= base1 + spec_ser_scene_starts(gm.scenes@.subrange(0, k + 1)));
        }
        k = k + 1;
    }
    proof {
        assert(gm.scenes@.subrange(0, gm.scenes@.len() as int) =~= gm.scenes@);
    }
    let ghost base2 = out@;
    let mut k2: usize = 0;
    proof {
        assert(gm.scenes@.subrange(0, 0) =~= Seq::<SceneRecord>::empty());
        assert(out@ =~= base2 + spec_ser_scene_ends(gm.scenes@.subrange(0, 0)));
    }
    while k2 < m.scenes.len()
        invariant
            k2 <= gm.scenes@.len(),
            m.scenes@ == gm.scenes@,
            forall|t: int| 0 <= t < gm.scenes@.len()
                ==> (#[trigger] gm.scenes@[t]).end < 0xFFFFFFFFu32,
            out@ == base2 + spec_ser_scene_ends(gm.scenes@.subrange(0, k2 as int)),
        decreases gm.scenes@.len() - k2,
    {
        push_le32(&mut out, m.scenes[k2].end + 1);
        proof {
            let a = gm.scenes@.subrange(0, k2 + 1);
            assert(a.drop_last() =~= gm.scenes@.subrange(0, k2 as int));
            assert(out@ =~= base2 + spec_ser_scene_ends(gm.scenes@.subrange(0, k2 + 1)));
        }
        k2 = k2 + 1;
    }
    proof {
        assert(gm.scenes@.subrange(0, gm.scenes@.len() as int) =~= gm.scenes@);
    }
    let ghost base3 = out@;
    let mut k3: usize = 0;
    proof {
        assert(gm.scenes@.subrange(0, 0) =~= Seq::<SceneRecord>::empty());
        assert(out@ =~= base3 + spec_ser_scene_peaks(gm.scenes@.subrange(0, 0)));
    }
    while k3 < m.scenes.len()
        invariant
            k3 <= gm.scenes@.len(),
            m.scenes@ == gm.scenes@,
            out@ == base3 + spec_ser_scene_peaks(gm.scenes@.subrange(0, k3 as int)),
        decreases gm.scenes@.len() - k3,
    {
        push_le32(&mut out, m.scenes[k3].peak_nits);
        proof {
            let a = gm.scenes@.subrange(0, k3 + 1);
            assert(a.drop_last() =~= gm.scenes@.subrange(0, k3 as int));
            assert(out@ =~= base3 + spec_ser_scene_peaks(gm.scenes@.subrange(0, k3 + 1)));
        }
        k3 = k3 + 1;
    }
    proof {
        assert(gm.scenes@.subrange(0, gm.scenes@.len() as int) =~= gm.scenes@);
    }
    // Frame table.
    let ghost base4 = out@;
    let mut j: usize = 0;
    proof {
        assert(gm.frames@.subrange(0, 0) =~= Seq::<FrameRecord>::empty());
        assert(out@ =~= base4 + spec_ser_frames(gm.frames@.subrange(0, 0), gm.header.version));
    }
    while j < m.frames.len()
        invariant
            j <= gm.frames@.len(),
            m.frames@ == gm.frames@,
            m.header == gm.header,
            measurements_encodable(gm),
            out@ == base4 + spec_ser_frames(gm.frames@.subrange(0, j as int), gm.header.version),
        decreases gm.frames@.len() - j,
    {
        proof {
            assert(gm.frames@[j as int].wf());
        }
        let ghost fbase = out@;
        let code: u16 = pq_code(m.frames[j].peak_pq_2020);
        push_le16(&mut out, code);
        if m.header.version >= 6 {
            let d: u32 = match m.frames[j].peak_pq_dcip3 {
                Option::Some(v) => v,
                Option::None => 0,
            };
            let n: u32 = match m.frames[j].peak_pq_709 {
                Option::Some(v) => v,
                Option::None => 0,
            };
            push_le16(&mut out, pq_code(d));
            push_le16(&mut out, pq_code(n));
        }
        push_histogram(&mut out, &m.frames[j].lum_histogram);
        push_histogram(&mut out, &m.frames[j].hue_histogram);
        proof {
            assert(out@ =~= fbase + spec_ser_frame(gm.frames@[j as int], gm.header.version));
            let a = gm.frames@.subrange(0, j + 1);
            assert(a.drop_last() =~= gm.frames@.subrange(0, j as int));
            assert(out@ =~= base4
                + spec_ser_frames(gm.frames@.subrange(0, j + 1), gm.header.version));
        }
        j = j + 1;
    }
    proof {
        assert(gm.frames@.subrange(0, gm.frames@.len() as int) =~= gm.frames@);
    }
    // Trailing per-frame targets.
    if m.header.flags == 3 {
        let ghost base5 = out@;
        let mut j2: usize = 0;
        proof {
            assert(gm.frames@.subrange(0, 0) =~= Seq::<FrameRecord>::empty());
            assert(out@ =~= base5 + spec_ser_targets(gm.frames@.subrange(0, 0)));
        }
        while j2 < m.frames.len()
            invariant
                j2 <= gm.frames@.len(),
                m.frames@ == gm.frames@,
                m.header == gm.header,
                measurements_encodable(gm),
                gm.header.flags == 3,
                out@ == base5 + spec_ser_targets(gm.frames@.subrange(0, j2 as int)),
            decreases gm.frames@.len() - j2,
        {
            let t: u16 = match m.frames[j2].target_nits {
                Option::Some(v) => v,
                Option::None => 0,
            };
            push_le16(&mut out, t);
            proof {
                let a = gm.frames@.subrange(0, j2 + 1);
                assert(a.drop_last() =~= gm.frames@.subrange(0, j2 as int));
                assert(out@ =~= base5 + spec_ser_targets(gm.frames@.subrange(0, j2 + 1)));
            }
            j2 = j2 + 1;
        }
        proof {
            assert(gm.frames@.subrange(0, gm.frames@.len() as int) =~= gm.frames@);
        }
    }
    proof {
        assert(out@ =~= spec_ser_measurements(gm));
    }
    out
}

} // verus!

verus! {

/// PQ code value of bin 100 nits, in micro-PQ: the anchor of the v5
/// two-segment bin layout.
pub const SDR_PEAK_MICRO_PQ: u32 = 508078;

/// Errors a measurement file can raise: structural corruption is an error,
/// statistical oddities are left to the validator.
#[derive(Clone, Copy, Debug, PartialEq, Eq, Structural)]
pub enum MeasurementError {
    /// The file does not start with the magic bytes.
    BadMagic,
    /// The file ends before the announced content.
    Truncated,
    /// The version is not 5 or 6.
    UnsupportedVersion,
    /// The flags field is zero: the file was never finished.
    IncompleteFile,
    /// A scene end of zero cannot encode an inclusive range.
    InvalidSceneBound,
    /// The optimizer block was requested but a frame has no target.
    MissingTarget,
    /// A luminance histogram has the wrong length or an impossible sum.
    InvalidHistogram,
    /// A frame's peak or average PQ lies outside the code range.
    InvalidPqRange,
}

/// The mid-bin PQ weight of luminance bin `i` under the v5 layout: 64 linear
/// bins up to the 100-nit anchor, 192 bins from there to PQ 1.  Bin 0 weighs
/// nothing, so the black-bar exclusion of bin 0 is implicit.
pub open spec fn spec_mid_bin_weight(i: int) -> int {
    if i <= 64 {
        (i * SDR_PEAK_MICRO_PQ * 3) / 128
    } else {
        SDR_PEAK_MICRO_PQ + ((i - 63) * (1_000_000 - SDR_PEAK_MICRO_PQ) * 3) / 384
    }
}

/// Weighted sum of a histogram under the mid-bin weights.
pub open spec fn spec_mid_weighted_sum(h: Seq<u32>) -> int
    decreases h.len(),
{
    if h.len() == 0 {
        0
    } else {
        spec_mid_weighted_sum(h.drop_last())
            + spec_mid_bin_weight(h.len() - 1) * h.last()
    }
}

/// The mid-bin weighted mean PQ of a histogram, clamped to PQ 1; an empty
/// histogram yields 0.
pub open spec fn spec_avg_pq_mid_bin(h: Seq<u32>) -> int {
    if crate::hist_sum(h) > 0 {
        let m = spec_mid_weighted_sum(h) / crate::hist_sum(h);
        if m > 1_000_000 { 1_000_000 } else { m }
    } else {
        0
    }
}

proof fn lemma_mid_weight_bounds(i: int)
    requires
        0 <= i < 256,
    ensures
        0 <= spec_mid_bin_weight(i) <= 1_250_000,
{
    if i <= 64 {
        assert((i * 508078 * 3) / 128 <= 1_250_000) by (nonlinear_arith)
            requires 0 <= i <= 64;
        assert(i * 508078 * 3 >= 0) by (nonlinear_arith)
            requires i >= 0;
    } else {
        assert(((i - 63) * 491922 * 3) / 384 <= 741922) by (nonlinear_arith)
            requires 64 < i < 256;
        assert((i - 63) * 491922 * 3 >= 0) by (nonlinear_arith)
            requires i > 63;
    }
}

proof fn lemma_mid_weighted_sum_extend(h: Seq<u32>, i: int)
    requires
        0 <= i < h.len(),
    ensures
        spec_mid_weighted_sum(h.subrange(0, i + 1))
            == spec_mid_weighted_sum(h.subrange(0, i)) + spec_mid_bin_weight(i) * h[i],
{
    let a = h.subrange(0, i + 1);
    assert(a.drop_last() =~= h.subrange(0, i));
    assert(a.last() == h[i]);
}

/// Mean PQ of a luminance histogram under the v5 mid-bin weights, used both
/// after temporal smoothing and when a file is read back.
pub fn avg_pq_mid_bin(histogram: &Vec<u32>) -> (r: u32)
    requires
        histogram@.len() <= 256,
    ensures
        r == spec_avg_pq_mid_bin(histogram@),
        r <= crate::PQ_ONE,
{
    let mut ws: u64 = 0;
    let mut tot: u64 = 0;
    let mut i: usize = 0;
    proof {
        assert(histogram@.subrange(0, 0) =~= Seq::<u32>::empty());
    }
    while i < histogram.len()
        invariant
            i <= histogram@.len(),
            histogram@.len() <= 256,
            tot == crate::hist_sum(histogram@.subrange(0, i as int)),
            ws == spec_mid_weighted_sum(histogram@.subrange(0, i as int)),
            tot <= (i as int) * 0xFFFFFFFF,
            ws <= 1_250_000 * tot,
        decreases histogram@.len() - i,
    {
        let b: u64 = histogram[i] as u64;
        let w: u64 = if i <= 64 {
            (i as u64 * 508078 * 3) / 128
        } else {
            508078 + (((i - 63) as u64 * 491922 * 3) / 384)
        };
        proof {
            crate::lemma_hist_sum_extend(histogram@, i as int);
            lemma_mid_weighted_sum_extend(histogram@, i as int);
            lemma_mid_weight_bounds(i as int);
            assert(w == spec_mid_bin_weight(i as int));
            assert((i as int) * 0xFFFFFFFF + 0xFFFFFFFF == (i + 1) * 0xFFFFFFFF)
                by (nonlinear_arith);
            assert((i as int) * 0xFFFFFFFF <= 256 * 0xFFFFFFFF) by (nonlinear_arith)
                requires 0 <= i <= 256;
            assert((w as int) * (b as int) <= 1_250_000 * (b as int)) by (nonlinear_arith)
                requires w <= 1_250_000u64;
            assert(1_250_000 * (tot as int) + 1_250_000 * (b as int)
                == 1_250_000 * ((tot as int) + (b as int))) by (nonlinear_arith);
            assert(1_250_000 * ((tot as int) + (b as int))
                <= 1_250_000 * (257 * 0xFFFFFFFF)) by (nonlinear_arith)
                requires (tot as int) + (b as int) <= 257 * 0xFFFFFFFF;
        }
        ws = ws + w * b;
        tot = tot + b;
        i = i + 1;
    }
    proof {
        crate::lemma_hist_sum_full(histogram@);
        assert(histogram@.subrange(0, i as int) =~= histogram@);
    }
    if tot > 0 {
        let m: u64 = ws / tot;
        proof {
            vstd::arithmetic::div_mod::lemma_div_multiples_vanish(1_250_000, tot as int);
            vstd::arithmetic::div_mod::lemma_div_is_ordered(
                ws as int,
                1_250_000 * (tot as int),
                tot as int,
            );
        }
        if m > 1_000_000 {
            1_000_000
        } else {
            m as u32
        }
    } else {
        0
    }
}

/// Read a `u32` from four little-endian bytes.
fn read_le32(data: &Vec<u8>, pos: usize) -> (r: u32)
    requires
        pos + 4 <= data@.len(),
    ensures
        r == data@[pos as int] + 256 * data@[pos + 1] + 65536 * data@[pos + 2]
            + 16777216 * data@[pos + 3],
{
    let n: usize = data.len();
    (data[pos] as u32) + 256 * (data[pos + 1] as u32) + 65536 * (data[pos + 2] as u32)
        + 16777216 * (data[pos + 3] as u32)
}

/// Read a `u16` from two little-endian bytes.
fn read_le16(data: &Vec<u8>, pos: usize) -> (r: u16)
    requires
        pos + 2 <= data@.len(),
    ensures
        r == data@[pos as int] + 256 * data@[pos + 1],
{
    let n: usize = data.len();
    (data[pos] as u16) + 256 * (data[pos + 1] as u16)
}

/// A file peak code as a micro-PQ value, clamped into `[0, 1]`.
fn pq_from_code(code: u16) -> (r: u32)
    ensures
        r <= crate::PQ_ONE,
{
    let micro: u32 = ((code as u32) * 125 + 4) / 8;
    if micro > 1_000_000 {
        1_000_000
    } else {
        micro
    }
}

/// The little-endian `u32` at a byte offset.
pub open spec fn spec_read_le32(b: Seq<u8>, pos: int) -> int {
    b[pos] + 256 * b[pos + 1] + 65536 * b[pos + 2] + 16777216 * b[pos + 3]
}

/// The first four bytes are the file magic.
pub open spec fn spec_has_magic(b: Seq<u8>) -> bool {
    b.len() >= 4 && b.subrange(0, 4) =~= spec_magic()
}

/// Where the scene table starts: after the magic, the six fixed header
/// fields, the FALL pair, and for version 6 the mastering target.
pub open spec fn spec_body_pos(b: Seq<u8>) -> int {
    if spec_read_le32(b, 4) >= 6 { 40 } else { 36 }
}

/// The total size the announced content needs.
pub open spec fn spec_needed_len(b: Seq<u8>) -> int {
    let per_frame = (if spec_read_le32(b, 4) >= 6 { 580int } else { 576int })
        + (if spec_read_le32(b, 20) == 3 { 2int } else { 0int });
    spec_body_pos(b) + 12 * spec_read_le32(b, 12) + per_frame * spec_read_le32(b, 16)
}

/// When parsing succeeds: the magic and a whole header are present, the
/// flags are set, the version is supported, the announced content fits,
/// and no scene-end word is zero.
pub open spec fn spec_parse_ok(b: Seq<u8>) -> bool {
    &&& spec_has_magic(b)
    &&& b.len() >= 28
    &&& spec_read_le32(b, 20) != 0
    &&& (spec_read_le32(b, 4) == 5 || spec_read_le32(b, 4) == 6)
    &&& spec_needed_len(b) <= b.len()
    &&& (forall|k: int| 0 <= k < spec_read_le32(b, 12)
            ==> #[trigger] spec_read_le32(b,
                spec_body_pos(b) + 4 * spec_read_le32(b, 12) + 4 * k) != 0)
}

/// Parse a measurement file.
///
/// Parsing succeeds exactly when the file is structurally sound
/// ([`spec_parse_ok`]); a bad magic, a truncated body, an unsupported
/// version, zeroed flags, or an impossible scene bound is an error, and
/// statistical checks are the validator's job.
pub fn parse_measurements(data: &Vec<u8>) -> (r: Result<Measurements, MeasurementError>)
    ensures
        r is Ok <==> spec_parse_ok(data@),
        r is Ok ==> measurements_encodable(r->Ok_0),
        r is Ok ==> (r->Ok_0.header.version == 5 || r->Ok_0.header.version == 6),
        data@.len() < 4 ==> r == Result::<Measurements, MeasurementError>::Err(
            MeasurementError::Truncated),
        data@.len() >= 4 && !spec_has_magic(data@)
            ==> r == Result::<Measurements, MeasurementError>::Err(MeasurementError::BadMagic),
        spec_has_magic(data@) && data@.len() < 28
            ==> r == Result::<Measurements, MeasurementError>::Err(MeasurementError::Truncated),
        spec_has_magic(data@) && data@.len() >= 28 && spec_read_le32(data@, 20) == 0
            ==> r == Result::<Measurements, MeasurementError>::Err(
                MeasurementError::IncompleteFile),
        spec_has_magic(data@) && data@.len() >= 28 && spec_read_le32(data@, 20) != 0
            && !(spec_read_le32(data@, 4) == 5 || spec_read_le32(data@, 4) == 6)
            ==> r == Result::<Measurements, MeasurementError>::Err(
                MeasurementError::UnsupportedVersion),
{
    proof {
        if data@.len() >= 4 {
            assert(spec_has_magic(data@) <==> (data@[0] == 0x6du8 && data@[1] == 0x76u8
                && data@[2] == 0x72u8 && data@[3] == 0x2bu8)) by {
                if data@[0] == 0x6du8 && data@[1] == 0x76u8
                    && data@[2] == 0x72u8 && data@[3] == 0x2bu8 {
                    assert(data@.subrange(0, 4) =~= spec_magic());
                }
                if data@.subrange(0, 4) =~= spec_magic() {
                    assert(data@.subrange(0, 4)[0] == 0x6du8);
                    assert(data@.subrange(0, 4)[1] == 0x76u8);
                    assert(data@.subrange(0, 4)[2] == 0x72u8);
                    assert(data@.subrange(0, 4)[3] == 0x2bu8);
                }
            }
        }
    }
    if data.len() < 28 {
        if data.len() < 4 {
            return Result::Err(MeasurementError::Truncated);
        }
        if !(data[0] == 0x6d && data[1] == 0x76 && data[2] == 0x72 && data[3] == 0x2b) {
            return Result::Err(MeasurementError::BadMagic);
        }
        return Result::Err(MeasurementError::Truncated);
    }
    if !(data[0] == 0x6d && data[1] == 0x76 && data[2] == 0x72 && data[3] == 0x2b) {
        return Result::Err(MeasurementError::BadMagic);
    }
    let version: u32 = read_le32(data, 4);
    let header_size: u32 = read_le32(data, 8);
    let scene_count: u32 = read_le32(data, 12);
    let frame_count: u32 = read_le32(data, 16);
    let flags: u32 = read_le32(data, 20);
    let maxcll: u32 = read_le32(data, 24);
    proof {
        assert(version == spec_read_le32(data@, 4));
        assert(scene_count == spec_read_le32(data@, 12));
        assert(frame_count == spec_read_le32(data@, 16));
        assert(flags == spec_read_le32(data@, 20));
    }
    if flags == 0 {
        return Result::Err(MeasurementError::IncompleteFile);
    }
    if version < 5 || version > 6 {
        return Result::Err(MeasurementError::UnsupportedVersion);
    }
    let mut pos: usize = 28;
    if pos + 8 > data.len() {
        proof {
            // The announced content cannot fit in fewer bytes than the
            // header itself.
            lemma_needed_at_least_body(data@);
        }
        return Result::Err(MeasurementError::Truncated);
    }
    let maxfall: u32 = read_le32(data, pos);
    let avgfall: u32 = read_le32(data, pos + 4);
    pos = pos + 8;
    let mut target_peak_nits: u32 = 0;
    if version >= 6 {
        if pos + 4 > data.len() {
            proof {
                lemma_needed_at_least_body(data@);
            }
            return Result::Err(MeasurementError::Truncated);
        }
        target_peak_nits = read_le32(data, pos);
        pos = pos + 4;
    }
    proof {
        assert(pos as int == spec_body_pos(data@));
    }
    // The whole remaining size is known up front; check it once.
    let per_frame: u64 = if version >= 6 { 580u64 } else { 576u64 }
        + if flags == 3 { 2u64 } else { 0u64 };
    proof {
        assert((per_frame as int) * (frame_count as int) <= 582 * 0xFFFFFFFF)
            by (nonlinear_arith)
            requires per_frame <= 582u64, frame_count <= 0xFFFFFFFFu32;
        assert((per_frame as int) * (frame_count as int) >= 0)
            by (nonlinear_arith)
            requires per_frame >= 0u64, frame_count >= 0u32;
    }
    let needed: u64 = pos as u64 + 12 * (scene_count as u64) + per_frame * (frame_count as u64);
    proof {
        assert(needed as int == spec_needed_len(data@));
    }
    let dlen: usize = data.len();
    if needed > dlen as u64 {
        return Result::Err(MeasurementError::Truncated);
    }
    let sc: usize = scene_count as usize;
    let fc: usize = frame_count as usize;
    let peak_bytes: usize = if version >= 6 { 6 } else { 2 };
    proof {
        // Split the frame bytes into the table part and the target part.
        assert((per_frame as int) * (fc as int)
            == ((peak_bytes + 574) as int) * (fc as int)
                + (if flags == 3 { 2int } else { 0int }) * (fc as int))
            by (nonlinear_arith)
            requires per_frame as int == (peak_bytes + 574) as int
                + (if flags == 3 { 2int } else { 0int });
        assert(((peak_bytes + 574) as int) * (fc as int) >= 0) by (nonlinear_arith)
            requires peak_bytes >= 0, fc >= 0;
        assert((if flags == 3 { 2int } else { 0int }) * (fc as int) >= 0) by (nonlinear_arith)
            requires fc >= 0;
    }
    // Scene table.
    let mut scenes: Vec<SceneRecord> = Vec::new();
    let mut k: usize = 0;
    while k < sc
        invariant
            k <= sc,
            scenes@.len() == k,
            dlen == data@.len(),
            pos + 12 * sc <= dlen,
            spec_has_magic(data@),
            data@.len() >= 28,
            spec_read_le32(data@, 20) != 0,
            spec_read_le32(data@, 4) == 5 || spec_read_le32(data@, 4) == 6,
            spec_needed_len(data@) <= data@.len(),
            pos as int == spec_body_pos(data@),
            sc == spec_read_le32(data@, 12),
            forall|t: int| 0 <= t < k
                ==> #[trigger] spec_read_le32(data@,
                    spec_body_pos(data@) + 4 * spec_read_le32(data@, 12) + 4 * t) != 0,
            forall|t: int| 0 <= t < scenes@.len()
                ==> (#[trigger] scenes@[t]).end < 0xFFFFFFFFu32
                    && scenes@[t].avg_pq <= crate::PQ_ONE,
        decreases sc - k,
    {
        let start: u32 = read_le32(data, pos + 4 * k);
        let raw_end: u32 = read_le32(data, pos + 4 * sc + 4 * k);
        proof {
            assert(raw_end == spec_read_le32(data@,
                spec_body_pos(data@) + 4 * spec_read_le32(data@, 12) + 4 * (k as int)));
        }
        if raw_end == 0 {
            proof {
                assert(!spec_parse_ok(data@));
            }
            return Result::Err(MeasurementError::InvalidSceneBound);
        }
        let peak: u32 = read_le32(data, pos + 8 * sc + 4 * k);
        scenes.push(SceneRecord { start, end: raw_end - 1, peak_nits: peak, avg_pq: 0 });
        k = k + 1;
    }
    pos = pos + 12 * sc;
    // Frame table.
    let mut frames: Vec<FrameRecord> = Vec::new();
    let mut j: usize = 0;
    while j < fc
        invariant
            j <= fc,
            frames@.len() == j,
            version == 5 || version == 6,
            peak_bytes == (if version >= 6 { 6int } else { 2int }),
            dlen == data@.len(),
            pos + (peak_bytes + 574) * fc <= dlen,
            forall|t: int| 0 <= t < frames@.len() ==> (#[trigger] frames@[t]).wf(),
            forall|t: int| 0 <= t < frames@.len()
                ==> (version >= 6 ==> (#[trigger] frames@[t]).peak_pq_dcip3 is Some
                        && frames@[t].peak_pq_709 is Some),
        decreases fc - j,
    {
        proof {
            assert((peak_bytes + 574) * (j + 1) <= (peak_bytes + 574) * fc)
                by (nonlinear_arith)
                requires j + 1 <= fc, peak_bytes >= 0;
            assert((peak_bytes + 574) * (j + 1) == (peak_bytes + 574) * j + (peak_bytes + 574))
                by (nonlinear_arith);
            assert((peak_bytes + 574) * j >= 0) by (nonlinear_arith)
                requires peak_bytes >= 0, j >= 0;
        }
        let base: usize = pos + (peak_bytes + 574) * j;
        let peak_pq_2020: u32 = pq_from_code(read_le16(data, base));
        let mut peak_pq_dcip3: Option<u32> = Option::None;
        let mut peak_pq_709: Option<u32> = Option::None;
        if version >= 6 {
            peak_pq_dcip3 = Option::Some(pq_from_code(read_le16(data, base + 2)));
            peak_pq_709 = Option::Some(pq_from_code(read_le16(data, base + 4)));
        }
        let hist_base: usize = base + peak_bytes;
        let mut lum: Vec<u32> = Vec::new();
        let mut b: usize = 0;
        while b < 256
            invariant
                b <= 256,
                lum@.len() == b,
                dlen == data@.len(),
                hist_base + 574 <= dlen,
                forall|t: int| 0 <= t < lum@.len()
                    ==> #[trigger] lum@[t] <= crate::HIST_FULL_SCALE,
            decreases 256 - b,
        {
            let v: u16 = read_le16(data, hist_base + 2 * b);
            let capped: u32 = if v as u32 > 64000 { 64000 } else { v as u32 };
            lum.push(capped);
            b = b + 1;
        }
        let mut hue: Vec<u32> = Vec::new();
        let mut b2: usize = 0;
        while b2 < 31
            invariant
                b2 <= 31,
                hue@.len() == b2,
                dlen == data@.len(),
                hist_base + 574 <= dlen,
                forall|t: int| 0 <= t < hue@.len()
                    ==> #[trigger] hue@[t] <= crate::HIST_FULL_SCALE,
            decreases 31 - b2,
        {
            let v: u16 = read_le16(data, hist_base + 512 + 2 * b2);
            let capped: u32 = if v as u32 > 64000 { 64000 } else { v as u32 };
            hue.push(capped);
            b2 = b2 + 1;
        }
        let avg_pq: u32 = avg_pq_mid_bin(&lum);
        frames.push(FrameRecord {
            peak_pq_2020,
            peak_pq_dcip3,
            peak_pq_709,
            avg_pq,
            lum_histogram: lum,
            hue_histogram: hue,
            target_nits: Option::None,
        });
        j = j + 1;
    }
    proof {
        assert((peak_bytes + 574) * fc >= 0) by (nonlinear_arith)
            requires peak_bytes >= 0, fc >= 0;
    }
    let frames_bytes: usize = (peak_bytes + 574) * fc;
    proof {
        assert(pos + frames_bytes + (if flags == 3 { 2int } else { 0int }) * (fc as int) <= dlen);
    }
    pos = pos + frames_bytes;
    // Trailing per-frame targets.
    if flags == 3 {
        let mut j2: usize = 0;
        let mut out_frames: Vec<FrameRecord> = Vec::new();
        while j2 < fc
            invariant
                j2 <= fc,
                frames@.len() == fc,
                out_frames@.len() == j2,
                dlen == data@.len(),
                pos + 2 * fc <= dlen,
                version == 5 || version == 6,
                forall|t: int| 0 <= t < frames@.len() ==> (#[trigger] frames@[t]).wf(),
                forall|t: int| 0 <= t < frames@.len()
                    ==> (version >= 6 ==> (#[trigger] frames@[t]).peak_pq_dcip3 is Some
                            && frames@[t].peak_pq_709 is Some),
                forall|t: int| 0 <= t < out_frames@.len()
                    ==> (#[trigger] out_frames@[t]).wf()
                        && out_frames@[t].target_nits is Some
                        && (version >= 6 ==> out_frames@[t].peak_pq_dcip3 is Some
                            && out_frames@[t].peak_pq_709 is Some),
            decreases fc - j2,
        {
            let t: u16 = read_le16(data, pos + 2 * j2);
            let f = FrameRecord {
                peak_pq_2020: frames[j2].peak_pq_2020,
                peak_pq_dcip3: frames[j2].peak_pq_dcip3,
                peak_pq_709: frames[j2].peak_pq_709,
                avg_pq: frames[j2].avg_pq,
                lum_histogram: crate::optimizer::clone_u32_vec(&frames[j2].lum_histogram),
                hue_histogram: crate::optimizer::clone_u32_vec(&frames[j2].hue_histogram),
                target_nits: Option::Some(t),
            };
            out_frames.push(f);
            j2 = j2 + 1;
        }
        frames = out_frames;
    }
    let header = MeasurementHeader {
        version,
        header_size,
        scene_count,
        frame_count,
        flags,
        maxcll,
        maxfall,
        avgfall,
        target_peak_nits,
    };
    Result::Ok(Measurements { header, scenes, frames })
}

} // verus!

verus! {

/// The brightest frame-average light level over the first `n` frames, in
/// millinits.
pub open spec fn spec_fall_max(frames: Seq<FrameRecord>, n: int) -> int
    decreases n,
{
    if n <= 0 {
        0
    } else {
        let f = crate::pq::spec_pq_to_nits(frames[n - 1].avg_pq as int);
        let rest = spec_fall_max(frames, n - 1);
        if f > rest { f } else { rest }
    }
}

/// The summed frame-average light levels over the first `n` frames, in
/// millinits.
pub open spec fn spec_fall_sum(frames: Seq<FrameRecord>, n: int) -> int
    decreases n,
{
    if n <= 0 {
        0
    } else {
        spec_fall_sum(frames, n - 1)
            + crate::pq::spec_pq_to_nits(frames[n - 1].avg_pq as int)
    }
}

/// Maximum and mean frame-average light level over all frames, in whole
/// nits, rounded half-up; an empty frame list yields zeroes.
pub fn compute_falls(frames: &Vec<FrameRecord>) -> (r: (u32, u32))
    requires
        forall|j: int| 0 <= j < frames@.len() ==> (#[trigger] frames@[j]).wf(),
        frames@.len() <= 0xFFFFFFFF,
    ensures
        r.0 <= 10000,
        r.1 <= 10000,
        frames@.len() == 0 ==> r == (0u32, 0u32),
        frames@.len() > 0 ==> {
            &&& r.0 == (spec_fall_max(frames@, frames@.len() as int) + 500) / 1000
            &&& r.1 == ((spec_fall_sum(frames@, frames@.len() as int)
                    / (frames@.len() as int)) + 500) / 1000
        },
{
    if frames.len() == 0 {
        return (0, 0);
    }
    let mut max_milli: u64 = 0;
    let mut sum_milli: u64 = 0;
    let mut j: usize = 0;
    while j < frames.len()
        invariant
            j <= frames@.len(),
            frames@.len() <= 0xFFFFFFFF,
            forall|t: int| 0 <= t < frames@.len() ==> (#[trigger] frames@[t]).wf(),
            max_milli <= crate::MAX_MILLINITS,
            sum_milli <= (j as int) * (crate::MAX_MILLINITS as int),
            max_milli == spec_fall_max(frames@, j as int),
            sum_milli == spec_fall_sum(frames@, j as int),
        decreases frames@.len() - j,
    {
        proof {
            assert(frames@[j as int].wf());
            assert((j as int) * (crate::MAX_MILLINITS as int) + (crate::MAX_MILLINITS as int)
                == (j + 1) * (crate::MAX_MILLINITS as int)) by (nonlinear_arith);
            assert((j as int) * (crate::MAX_MILLINITS as int)
                <= 0xFFFFFFFF * (crate::MAX_MILLINITS as int)) by (nonlinear_arith)
                requires 0 <= j <= 0xFFFFFFFF;
        }
        let fall: u64 = crate::pq::pq_to_nits(frames[j].avg_pq);
        if fall > max_milli {
            max_milli = fall;
        }
        sum_milli = sum_milli + fall;
        j = j + 1;
    }
    let n: u64 = frames.len() as u64;
    let avg_milli: u64 = sum_milli / n;
    proof {
        vstd::arithmetic::div_mod::lemma_div_multiples_vanish(
            crate::MAX_MILLINITS as int, n as int);
        vstd::arithmetic::div_mod::lemma_div_is_ordered(
            sum_milli as int,
            (crate::MAX_MILLINITS as int) * (n as int),
            n as int,
        );
        assert((n as int) * (crate::MAX_MILLINITS as int)
            == (crate::MAX_MILLINITS as int) * (n as int)) by (nonlinear_arith);
    }
    let maxfall: u32 = ((max_milli + 500) / 1000) as u32;
    let avgfall: u32 = ((avg_milli + 500) / 1000) as u32;
    (maxfall, avgfall)
}

/// The index an inclusive percentile reads in a sorted list of `n` values:
/// `ceil(p * n) - 1` clamped into the list, with `p` in thousandths.
pub open spec fn spec_percentile_index(n: int, p: int) -> int {
    let scaled = (p * n + 999) / 1000;
    let i0 = if scaled >= 1 { scaled - 1 } else { 0 };
    if i0 >= n { n - 1 } else { i0 }
}

/// The value at an inclusive percentile of a list: the entry of the sorted
/// list at `ceil(p * n) - 1`, with `p` in thousandths.  An empty list
/// yields zero.
pub fn percentile_u32(values: &Vec<u32>, p_milli: u32) -> (r: u32)
    requires
        p_milli <= 1000,
        values@.len() <= 0xFFFFFFFF,
    ensures
        values@.len() == 0 ==> r == 0,
        values@.len() > 0 ==> values@.contains(r),
        values@.len() > 0 ==> exists|s: Seq<u32>| {
            &&& #[trigger] s.to_multiset() == values@.to_multiset()
            &&& (forall|a: int, b: int| 0 <= a < b < s.len() ==> s[a] <= s[b])
            &&& r == s[spec_percentile_index(values@.len() as int, p_milli as int)]
        },
{
    if values.len() == 0 {
        return 0;
    }
    let mut v = crate::optimizer::clone_u32_vec(values);
    crate::histogram::sort_u32(&mut v);
    let n: u64 = v.len() as u64;
    proof {
        assert((p_milli as int) * (n as int) <= 1000 * 0xFFFFFFFF) by (nonlinear_arith)
            requires p_milli <= 1000u32, n <= 0xFFFFFFFFu64;
    }
    let scaled: u64 = ((p_milli as u64) * n + 999) / 1000;
    let idx0: u64 = if scaled >= 1 { scaled - 1 } else { 0 };
    let idx: usize = if idx0 >= n { (n - 1) as usize } else { idx0 as usize };
    let r: u32 = v[idx];
    proof {
        v@.to_multiset_ensures();
        values@.to_multiset_ensures();
        assert(v@.contains(r));
        assert(v@.to_multiset().count(r) > 0);
        assert(values@.to_multiset().count(r) > 0);
        // The sorted copy witnesses the percentile selection.
        assert(idx as int == spec_percentile_index(values@.len() as int, p_milli as int));
        assert(v@.to_multiset() == values@.to_multiset()
            && (forall|a: int, b: int| 0 <= a < b < v@.len() ==> v@[a] <= v@[b])
            && r == v@[spec_percentile_index(values@.len() as int, p_milli as int)]);
    }
    r
}

/// The percentile a header peak policy reads, in thousandths; the plain
/// maximum reads none.
pub open spec fn spec_header_peak_percentile(policy: crate::histogram::PeakPolicy) -> int {
    match policy {
        crate::histogram::PeakPolicy::Max => 1000,
        crate::histogram::PeakPolicy::Histogram99 => 990,
        crate::histogram::PeakPolicy::Histogram999 => 999,
    }
}

/// Pick the header's MaxCLL from the per-frame peak luminances under the
/// configured policy: the plain maximum, or an upper percentile.
pub fn select_header_peak(peaks_nits: &Vec<u32>, policy: crate::histogram::PeakPolicy) -> (r: u32)
    requires
        peaks_nits@.len() <= 0xFFFFFFFF,
    ensures
        peaks_nits@.len() == 0 ==> r == 0,
        policy == crate::histogram::PeakPolicy::Max ==> (peaks_nits@.len() > 0 ==> {
            &&& peaks_nits@.contains(r)
            &&& forall|t: int| 0 <= t < peaks_nits@.len() ==> #[trigger] peaks_nits@[t] <= r
        }),
        policy != crate::histogram::PeakPolicy::Max
            ==> (peaks_nits@.len() > 0 ==> exists|s: Seq<u32>| {
                &&& #[trigger] s.to_multiset() == peaks_nits@.to_multiset()
                &&& (forall|a: int, b: int| 0 <= a < b < s.len() ==> s[a] <= s[b])
                &&& r == s[spec_percentile_index(peaks_nits@.len() as int,
                        spec_header_peak_percentile(policy))]
            }),
        policy != crate::histogram::PeakPolicy::Max
            ==> (peaks_nits@.len() > 0 ==> peaks_nits@.contains(r)),
{
    match policy {
        crate::histogram::PeakPolicy::Histogram99 => percentile_u32(peaks_nits, 990),
        crate::histogram::PeakPolicy::Histogram999 => percentile_u32(peaks_nits, 999),
        crate::histogram::PeakPolicy::Max => {
            if peaks_nits.len() == 0 {
                return 0;
            }
            let mut best: u32 = peaks_nits[0];
            let mut t: usize = 1;
            proof {
                assert(peaks_nits@.contains(peaks_nits@[0]));
            }
            while t < peaks_nits.len()
                invariant
                    1 <= t <= peaks_nits@.len(),
                    peaks_nits@.len() > 0,
                    peaks_nits@.contains(best),
                    forall|w: int| 0 <= w < t ==> #[trigger] peaks_nits@[w] <= best,
                decreases peaks_nits@.len() - t,
            {
                if peaks_nits[t] > best {
                    best = peaks_nits[t];
                    proof {
                        assert(peaks_nits@.contains(peaks_nits@[t as int]));
                    }
                }
                t = t + 1;
            }
            best
        },
    }
}

/// One frame's peak luminance in whole nits, as the MaxCLL policies read it.
pub open spec fn spec_frame_peak_nits(f: FrameRecord) -> int {
    (crate::pq::spec_pq_to_nits(f.peak_pq_2020 as int) + 500) / 1000
}

/// The per-frame peak luminances, in order.
pub open spec fn spec_peaks_seq(frames: Seq<FrameRecord>) -> Seq<u32> {
    Seq::new(frames.len(), |j: int| spec_frame_peak_nits(frames[j]) as u32)
}

/// Assemble a measurement value from finalized scenes and frames.
///
/// MaxCLL comes from the per-frame peaks under `header_peak`, the FALL pair
/// from the frame averages; version 6 adds the approximate DCI-P3 (99 %)
/// and BT.709 (95 %) peaks per frame and a mastering target.  An
/// unsupported version, or a missing target while the optimizer block is
/// requested, is an error.
pub fn build_measurements(
    scenes: &Vec<SceneRecord>,
    frames: &Vec<FrameRecord>,
    enable_optimizer: bool,
    version: u32,
    target_peak_nits: Option<u32>,
    header_peak: crate::histogram::PeakPolicy,
) -> (r: Result<Measurements, MeasurementError>)
    requires
        forall|j: int| 0 <= j < frames@.len() ==> (#[trigger] frames@[j]).wf(),
        forall|k: int| 0 <= k < scenes@.len() ==> (#[trigger] scenes@[k]).end < 0xFFFFFFFFu32,
        frames@.len() <= 0xFFFFFFFF,
        scenes@.len() <= 0xFFFFFFFF,
    ensures
        (version != 5 && version != 6) ==> r == Result::<Measurements, MeasurementError>::Err(
            MeasurementError::UnsupportedVersion),
        r is Err ==> (r->Err_0 == MeasurementError::UnsupportedVersion
            || r->Err_0 == MeasurementError::MissingTarget),
        r is Ok ==> ({
            let m = r->Ok_0;
            &&& measurements_encodable(m)
            &&& m.header.version == version
            &&& m.header.header_size == (if version >= 6 { 36u32 } else { 32u32 })
            &&& m.header.flags == (if enable_optimizer { 3u32 } else { 2u32 })
            &&& m.header.scene_count == scenes@.len()
            &&& m.header.frame_count == frames@.len()
            &&& (version >= 6 ==> m.header.target_peak_nits == (match target_peak_nits {
                    Option::Some(t) => t,
                    Option::None => m.header.maxcll,
                }))
            &&& m.scenes@ == scenes@
            &&& m.frames@.len() == frames@.len()
            // The frame table passes every field through, adding the v6
            // gamut approximations (99 % and 95 % of the 2020 peak).
            &&& (forall|j: int| 0 <= j < frames@.len() ==> {
                &&& (#[trigger] m.frames@[j]).peak_pq_2020 == frames@[j].peak_pq_2020
                &&& m.frames@[j].avg_pq == frames@[j].avg_pq
                &&& m.frames@[j].lum_histogram@ == frames@[j].lum_histogram@
                &&& m.frames@[j].hue_histogram@ == frames@[j].hue_histogram@
                &&& m.frames@[j].target_nits == frames@[j].target_nits
                &&& m.frames@[j].peak_pq_dcip3 == (if version >= 6 {
                    Option::Some((if frames@[j].peak_pq_2020 as int * 99 / 100 > 1_000_000 {
                        1_000_000int
                    } else {
                        frames@[j].peak_pq_2020 as int * 99 / 100
                    }) as u32)
                } else {
                    frames@[j].peak_pq_dcip3
                })
                &&& m.frames@[j].peak_pq_709 == (if version >= 6 {
                    Option::Some((if frames@[j].peak_pq_2020 as int * 95 / 100 > 1_000_000 {
                        1_000_000int
                    } else {
                        frames@[j].peak_pq_2020 as int * 95 / 100
                    }) as u32)
                } else {
                    frames@[j].peak_pq_709
                })
            })
            // The FALL header fields are the aggregation formulas.
            &&& (frames@.len() > 0 ==> {
                &&& m.header.maxfall
                    == (spec_fall_max(frames@, frames@.len() as int) + 500) / 1000
                &&& m.header.avgfall == ((spec_fall_sum(frames@, frames@.len() as int)
                        / (frames@.len() as int)) + 500) / 1000
            })
            &&& (frames@.len() == 0 ==> m.header.maxcll == 0
                    && m.header.maxfall == 0 && m.header.avgfall == 0)
            // MaxCLL follows the policy over the per-frame peak luminances.
            &&& (header_peak == crate::histogram::PeakPolicy::Max && frames@.len() > 0 ==> {
                &&& spec_peaks_seq(frames@).contains(m.header.maxcll)
                &&& forall|t: int| 0 <= t < frames@.len()
                        ==> #[trigger] spec_peaks_seq(frames@)[t] <= m.header.maxcll
            })
            &&& (header_peak != crate::histogram::PeakPolicy::Max && frames@.len() > 0
                    ==> exists|sp: Seq<u32>| {
                &&& #[trigger] sp.to_multiset() == spec_peaks_seq(frames@).to_multiset()
                &&& (forall|a: int, b: int| 0 <= a < b < sp.len() ==> sp[a] <= sp[b])
                &&& m.header.maxcll == sp[spec_percentile_index(frames@.len() as int,
                        spec_header_peak_percentile(header_peak))]
            })
        }),
        (version == 5 || version == 6) && (enable_optimizer ==> forall|j: int|
            0 <= j < frames@.len() ==> (#[trigger] frames@[j]).target_nits is Some)
            ==> r is Ok,
{
    if version != 5 && version != 6 {
        return Result::Err(MeasurementError::UnsupportedVersion);
    }
    // Per-frame peak luminances in nits, for the MaxCLL policy.
    let mut peaks_nits: Vec<u32> = Vec::new();
    let mut j: usize = 0;
    while j < frames.len()
        invariant
            j <= frames@.len(),
            frames@.len() <= 0xFFFFFFFF,
            peaks_nits@.len() == j,
            forall|t: int| 0 <= t < frames@.len() ==> (#[trigger] frames@[t]).wf(),
            forall|t: int| 0 <= t < j
                ==> #[trigger] peaks_nits@[t] == spec_frame_peak_nits(frames@[t]) as u32,
        decreases frames@.len() - j,
    {
        let p: u64 = crate::pq::pq_to_nits(frames[j].peak_pq_2020);
        peaks_nits.push(((p + 500) / 1000) as u32);
        j = j + 1;
    }
    proof {
        assert(peaks_nits@ =~= spec_peaks_seq(frames@));
    }
    let maxcll: u32 = select_header_peak(&peaks_nits, header_peak);
    let falls: (u32, u32) = compute_falls(frames);
    let flags: u32 = if enable_optimizer { 3 } else { 2 };
    let header = MeasurementHeader {
        version,
        header_size: if version >= 6 { 36 } else { 32 },
        scene_count: scenes.len() as u32,
        frame_count: frames.len() as u32,
        flags,
        maxcll,
        maxfall: falls.0,
        avgfall: falls.1,
        target_peak_nits: if version >= 6 {
            match target_peak_nits {
                Option::Some(t) => t,
                Option::None => maxcll,
            }
        } else {
            0
        },
    };
    // Copy scenes; copy frames, attaching the v6 gamut approximations.
    let mut out_scenes: Vec<SceneRecord> = Vec::new();
    let mut k: usize = 0;
    while k < scenes.len()
        invariant
            k <= scenes@.len(),
            out_scenes@.len() == k,
            out_scenes@ =~= scenes@.subrange(0, k as int),
        decreases scenes@.len() - k,
    {
        let sc = SceneRecord {
            start: scenes[k].start,
            end: scenes[k].end,
            peak_nits: scenes[k].peak_nits,
            avg_pq: scenes[k].avg_pq,
        };
        out_scenes.push(sc);
        k = k + 1;
    }
    proof {
        assert(scenes@.subrange(0, scenes@.len() as int) =~= scenes@);
    }
    let mut out_frames: Vec<FrameRecord> = Vec::new();
    let mut j2: usize = 0;
    while j2 < frames.len()
        invariant
            j2 <= frames@.len(),
            out_frames@.len() == j2,
            version == 5 || version == 6,
            flags == (if enable_optimizer { 3u32 } else { 2u32 }),
            forall|t: int| 0 <= t < frames@.len() ==> (#[trigger] frames@[t]).wf(),
            enable_optimizer ==> forall|t: int| 0 <= t < out_frames@.len()
                ==> (#[trigger] out_frames@[t]).target_nits is Some,
            forall|t: int| 0 <= t < out_frames@.len() ==> (#[trigger] out_frames@[t]).wf(),
            version >= 6 ==> forall|t: int| 0 <= t < out_frames@.len()
                ==> (#[trigger] out_frames@[t]).peak_pq_dcip3 is Some
                    && out_frames@[t].peak_pq_709 is Some,
            forall|t: int| 0 <= t < j2 ==> {
                &&& (#[trigger] out_frames@[t]).peak_pq_2020 == frames@[t].peak_pq_2020
                &&& out_frames@[t].avg_pq == frames@[t].avg_pq
                &&& out_frames@[t].lum_histogram@ == frames@[t].lum_histogram@
                &&& out_frames@[t].hue_histogram@ == frames@[t].hue_histogram@
                &&& out_frames@[t].target_nits == frames@[t].target_nits
                &&& out_frames@[t].peak_pq_dcip3 == (if version >= 6 {
                    Option::Some((if frames@[t].peak_pq_2020 as int * 99 / 100 > 1_000_000 {
                        1_000_000int
                    } else {
                        frames@[t].peak_pq_2020 as int * 99 / 100
                    }) as u32)
                } else {
                    frames@[t].peak_pq_dcip3
                })
                &&& out_frames@[t].peak_pq_709 == (if version >= 6 {
                    Option::Some((if frames@[t].peak_pq_2020 as int * 95 / 100 > 1_000_000 {
                        1_000_000int
                    } else {
                        frames@[t].peak_pq_2020 as int * 95 / 100
                    }) as u32)
                } else {
                    frames@[t].peak_pq_709
                })
            },
        decreases frames@.len() - j2,
    {
        proof {
            assert(frames@[j2 as int].wf());
        }
        if enable_optimizer {
            match frames[j2].target_nits {
                Option::Some(_) => {},
                Option::None => {
                    return Result::Err(MeasurementError::MissingTarget);
                },
            }
        }
        let peak: u32 = frames[j2].peak_pq_2020;
        let dcip3: Option<u32>;
        let p709: Option<u32>;
        if version >= 6 {
            let d: u32 = peak / 100 * 99 + peak % 100 * 99 / 100;
            let n: u32 = peak / 100 * 95 + peak % 100 * 95 / 100;
            dcip3 = Option::Some(if d > 1_000_000 { 1_000_000 } else { d });
            p709 = Option::Some(if n > 1_000_000 { 1_000_000 } else { n });
        } else {
            dcip3 = frames[j2].peak_pq_dcip3;
            p709 = frames[j2].peak_pq_709;
        }
        let f = FrameRecord {
            peak_pq_2020: peak,
            peak_pq_dcip3: dcip3,
            peak_pq_709: p709,
            avg_pq: frames[j2].avg_pq,
            lum_histogram: crate::optimizer::clone_u32_vec(&frames[j2].lum_histogram),
            hue_histogram: crate::optimizer::clone_u32_vec(&frames[j2].hue_histogram),
            target_nits: frames[j2].target_nits,
        };
        out_frames.push(f);
        j2 = j2 + 1;
    }
    Result::Ok(Measurements { header, scenes: out_scenes, frames: out_frames })
}

/// A histogram's sum is close enough to 100 percent: within one full
/// percent either way.
pub open spec fn spec_hist_sum_ok(h: Seq<u32>) -> bool {
    64000 - 640 <= crate::hist_sum(h) <= 64000 + 640
}

/// A scene is suspicious when its range is inverted or reaches past the
/// frame table.
pub open spec fn spec_scene_suspicious(s: SceneRecord, frame_count: int) -> bool {
    s.end < s.start || s.start >= frame_count || s.end >= frame_count
}

/// How many of the first `n` scenes are suspicious.
pub open spec fn spec_suspicious_count(scenes: Seq<SceneRecord>, frame_count: int, n: int) -> int
    decreases n,
{
    if n <= 0 {
        0
    } else {
        spec_suspicious_count(scenes, frame_count, n - 1)
            + if spec_scene_suspicious(scenes[n - 1], frame_count) { 1int } else { 0int }
    }
}

/// Validate parsed measurement data: a structural check of every frame.
///
/// Succeeds exactly when every luminance histogram has 256 bins and sums to
/// 100 percent within tolerance, and every peak and average PQ lies inside
/// the code range.  The result counts the scenes whose frame ranges are
/// inverted or out of bounds; those are reported rather than rejected.
pub fn validate_measurement_data(scenes: &Vec<SceneRecord>, frames: &Vec<FrameRecord>)
    -> (r: Result<u32, MeasurementError>)
    requires
        scenes@.len() <= 0xFFFFFFFF,
    ensures
        r is Ok <==> forall|j: int| 0 <= j < frames@.len() ==> {
            &&& (#[trigger] frames@[j]).lum_histogram@.len() == 256
            &&& spec_hist_sum_ok(frames@[j].lum_histogram@)
            &&& frames@[j].peak_pq_2020 <= crate::PQ_ONE
            &&& frames@[j].avg_pq <= crate::PQ_ONE
        },
        r is Ok ==> r->Ok_0
            == spec_suspicious_count(scenes@, frames@.len() as int, scenes@.len() as int),
{
    let mut j: usize = 0;
    while j < frames.len()
        invariant
            j <= frames@.len(),
            forall|t: int| 0 <= t < j ==> {
                &&& (#[trigger] frames@[t]).lum_histogram@.len() == 256
                &&& spec_hist_sum_ok(frames@[t].lum_histogram@)
                &&& frames@[t].peak_pq_2020 <= crate::PQ_ONE
                &&& frames@[t].avg_pq <= crate::PQ_ONE
            },
        decreases frames@.len() - j,
    {
        if frames[j].lum_histogram.len() != 256 {
            return Result::Err(MeasurementError::InvalidHistogram);
        }
        let sum: u64 = crate::histogram::histogram_sum(&frames[j].lum_histogram);
        if sum < 64000 - 640 || sum > 64000 + 640 {
            return Result::Err(MeasurementError::InvalidHistogram);
        }
        if frames[j].peak_pq_2020 > 1_000_000 || frames[j].avg_pq > 1_000_000 {
            return Result::Err(MeasurementError::InvalidPqRange);
        }
        j = j + 1;
    }
    // Count suspicious scenes; they are warnings, not failures.
    let mut warnings: u32 = 0;
    let mut k: usize = 0;
    while k < scenes.len()
        invariant
            k <= scenes@.len(),
            scenes@.len() <= 0xFFFFFFFF,
            warnings <= k,
            warnings == spec_suspicious_count(scenes@, frames@.len() as int, k as int),
        decreases scenes@.len() - k,
    {
        let s_start: u32 = scenes[k].start;
        let s_end: u32 = scenes[k].end;
        if s_end < s_start || s_start as u64 >= frames.len() as u64
            || s_end as u64 >= frames.len() as u64 {
            warnings = warnings + 1;
        }
        k = k + 1;
    }
    Result::Ok(warnings)
}

/// Every frame carries a target.
pub open spec fn all_targets_present(frames: Seq<FrameRecord>) -> bool {
    forall|j: int| 0 <= j < frames.len()
        ==> (#[trigger] frames[j]).target_nits is Some
}

/// No frame carries a target.
pub open spec fn all_targets_absent(frames: Seq<FrameRecord>) -> bool {
    forall|j: int| 0 <= j < frames.len()
        ==> (#[trigger] frames[j]).target_nits is None
}

/// Check that the optimizer flag and the per-frame targets agree: with the
/// flag every frame carries a target, without it none does.
pub fn validate_flags_vs_data(has_optimizer: bool, frames: &Vec<FrameRecord>) -> (r: bool)
    ensures
        has_optimizer ==> (r <==> all_targets_present(frames@)),
        !has_optimizer ==> (r <==> all_targets_absent(frames@)),
{
    let mut j: usize = 0;
    if has_optimizer {
        while j < frames.len()
            invariant
                has_optimizer,
                j <= frames@.len(),
                forall|t: int| 0 <= t < j ==> (#[trigger] frames@[t]).target_nits is Some,
            decreases frames@.len() - j,
        {
            match frames[j].target_nits {
                Option::Some(_) => {},
                Option::None => {
                    proof {
                        assert(frames@[j as int].target_nits is None);
                        assert(!all_targets_present(frames@));
                    }
                    return false;
                },
            }
            j = j + 1;
        }
        true
    } else {
        while j < frames.len()
            invariant
                !has_optimizer,
                j <= frames@.len(),
                forall|t: int| 0 <= t < j ==> (#[trigger] frames@[t]).target_nits is None,
            decreases frames@.len() - j,
        {
            match frames[j].target_nits {
                Option::Some(_) => {
                    proof {
                        assert(frames@[j as int].target_nits is Some);
                        assert(!all_targets_absent(frames@));
                    }
                    return false;
                },
                Option::None => {},
            }
            j = j + 1;
        }
        true
    }
}

/// Whether a header field agrees with its derived value within two percent
/// of the derived value or ten nits, whichever is larger.
pub open spec fn spec_fall_within_tolerance(derived: int, header: int) -> bool {
    let tol = if derived / 50 > 10 { derived / 50 } else { 10int };
    let diff = if derived >= header { derived - header } else { header - derived };
    diff <= tol
}

/// Check the header's FALL fields against values derived from the frames,
/// within two percent or ten nits, whichever is larger.
pub fn validate_fall_consistency(
    frames: &Vec<FrameRecord>,
    header_maxfall: u32,
    header_avgfall: u32,
) -> (r: bool)
    requires
        forall|j: int| 0 <= j < frames@.len() ==> (#[trigger] frames@[j]).wf(),
        frames@.len() <= 0xFFFFFFFF,
    ensures
        frames@.len() == 0 ==> r == true,
        frames@.len() > 0 ==> (r <==> {
            let n = frames@.len() as int;
            &&& spec_fall_within_tolerance(
                (spec_fall_max(frames@, n) + 500) / 1000, header_maxfall as int)
            &&& spec_fall_within_tolerance(
                ((spec_fall_sum(frames@, n) / n) + 500) / 1000, header_avgfall as int)
        }),
{
    if frames.len() == 0 {
        return true;
    }
    let falls: (u32, u32) = compute_falls(frames);
    let max_tol: u32 = if falls.0 / 50 > 10 { falls.0 / 50 } else { 10 };
    let avg_tol: u32 = if falls.1 / 50 > 10 { falls.1 / 50 } else { 10 };
    let max_diff: u32 = if falls.0 >= header_maxfall {
        falls.0 - header_maxfall
    } else {
        header_maxfall - falls.0
    };
    let avg_diff: u32 = if falls.1 >= header_avgfall {
        falls.1 - header_avgfall
    } else {
        header_avgfall - falls.1
    };
    max_diff <= max_tol && avg_diff <= avg_tol
}

/// Reading four little-endian bytes back gives the written word.
proof fn lemma_read_le32_at(b: Seq<u8>, pos: int, x: u32)
    requires
        0 <= pos,
        pos + 4 <= b.len(),
        b.subrange(pos, pos + 4) =~= spec_le32(x),
    ensures
        spec_read_le32(b, pos) == x,
{
    assert(b[pos] == (x % 256) as u8);
    assert(b[pos + 1] == ((x / 256) % 256) as u8);
    assert(b[pos + 2] == ((x / 65536) % 256) as u8);
    assert(b[pos + 3] == ((x / 16777216) % 256) as u8);
    let xi = x as int;
    vstd::arithmetic::div_mod::lemma_fundamental_div_mod(xi, 256);
    vstd::arithmetic::div_mod::lemma_fundamental_div_mod(xi / 256, 256);
    vstd::arithmetic::div_mod::lemma_fundamental_div_mod(xi / 65536, 256);
    vstd::arithmetic::div_mod::lemma_div_denominator(xi, 256, 256);
    vstd::arithmetic::div_mod::lemma_div_denominator(xi, 65536, 256);
    assert((xi / 16777216) % 256 == xi / 16777216) by (nonlinear_arith)
        requires 0 <= xi < 0x100000000;
    assert(xi == xi % 256 + 256 * ((xi / 256) % 256) + 65536 * ((xi / 65536) % 256)
        + 16777216 * ((xi / 16777216) % 256)) by (nonlinear_arith)
        requires
            xi == 256 * (xi / 256) + xi % 256,
            xi / 256 == 256 * ((xi / 256) / 256) + (xi / 256) % 256,
            xi / 65536 == 256 * ((xi / 65536) / 256) + (xi / 65536) % 256,
            (xi / 256) / 256 == xi / 65536,
            (xi / 65536) / 256 == xi / 16777216,
            (xi / 16777216) % 256 == xi / 16777216;
}

/// Each scene table block holds one word per scene.
proof fn lemma_ser_scene_starts_len(s: Seq<SceneRecord>)
    ensures
        spec_ser_scene_starts(s).len() == 4 * s.len(),
    decreases s.len(),
{
    if s.len() > 0 {
        lemma_ser_scene_starts_len(s.drop_last());
    }
}

proof fn lemma_ser_scene_ends_len(s: Seq<SceneRecord>)
    ensures
        spec_ser_scene_ends(s).len() == 4 * s.len(),
    decreases s.len(),
{
    if s.len() > 0 {
        lemma_ser_scene_ends_len(s.drop_last());
    }
}

proof fn lemma_ser_scene_peaks_len(s: Seq<SceneRecord>)
    ensures
        spec_ser_scene_peaks(s).len() == 4 * s.len(),
    decreases s.len(),
{
    if s.len() > 0 {
        lemma_ser_scene_peaks_len(s.drop_last());
    }
}

/// A histogram serializes to two bytes per bin.
proof fn lemma_ser_histogram_len(h: Seq<u32>)
    ensures
        spec_ser_histogram(h).len() == 2 * h.len(),
    decreases h.len(),
{
    if h.len() > 0 {
        lemma_ser_histogram_len(h.drop_last());
    }
}

/// A well-formed frame serializes to the fixed per-frame size.
proof fn lemma_ser_frame_len(f: FrameRecord, version: u32)
    requires
        f.wf(),
    ensures
        spec_ser_frame(f, version).len() == (if version >= 6 { 580int } else { 576int }),
{
    lemma_ser_histogram_len(f.lum_histogram@);
    lemma_ser_histogram_len(f.hue_histogram@);
}

proof fn lemma_ser_frames_len(frames: Seq<FrameRecord>, version: u32)
    requires
        forall|j: int| 0 <= j < frames.len() ==> (#[trigger] frames[j]).wf(),
    ensures
        spec_ser_frames(frames, version).len()
            == frames.len() * (if version >= 6 { 580int } else { 576int }),
    decreases frames.len(),
{
    let c: int = if version >= 6 { 580 } else { 576 };
    if frames.len() > 0 {
        assert(forall|j: int| 0 <= j < frames.drop_last().len()
            ==> (#[trigger] frames.drop_last()[j]).wf());
        lemma_ser_frames_len(frames.drop_last(), version);
        lemma_ser_frame_len(frames.last(), version);
        assert((frames.len() - 1) * c + c == frames.len() * c) by (nonlinear_arith);
    } else {
        assert(0int * c == 0) by (nonlinear_arith);
    }
}

/// The target block holds two bytes per frame.
proof fn lemma_ser_targets_len(frames: Seq<FrameRecord>)
    ensures
        spec_ser_targets(frames).len() == 2 * frames.len(),
    decreases frames.len(),
{
    if frames.len() > 0 {
        lemma_ser_targets_len(frames.drop_last());
    }
}

/// The scene-end word for scene `k` sits at offset `4 * k` of the end
/// table and holds one past the inclusive end index.
proof fn lemma_ser_scene_ends_at(s: Seq<SceneRecord>, k: int)
    requires
        0 <= k < s.len(),
    ensures
        spec_ser_scene_ends(s).len() == 4 * s.len(),
        spec_ser_scene_ends(s).subrange(4 * k, 4 * k + 4)
            =~= spec_le32((s[k].end + 1) as u32),
    decreases s.len(),
{
    lemma_ser_scene_ends_len(s);
    lemma_ser_scene_ends_len(s.drop_last());
    if k == s.len() - 1 {
        assert(spec_ser_scene_ends(s).subrange(4 * k, 4 * k + 4)
            =~= spec_le32((s[k].end + 1) as u32));
    } else {
        lemma_ser_scene_ends_at(s.drop_last(), k);
        assert(spec_ser_scene_ends(s).subrange(4 * k, 4 * k + 4)
            =~= spec_ser_scene_ends(s.drop_last()).subrange(4 * k, 4 * k + 4));
    }
}

/// The serializer's output is structurally sound: parsing accepts every
/// byte sequence that `serialize_measurements` can produce.
#[verifier::rlimit(100)]
pub proof fn lemma_parse_accepts_serialized(m: Measurements)
    requires
        measurements_encodable(m),
    ensures
        spec_parse_ok(spec_ser_measurements(m)),
{
    let b = spec_ser_measurements(m);
    let hdr = spec_ser_header(m.header);
    let v6 = m.header.version >= 6;
    let hl: int = if v6 { 36 } else { 32 };
    assert(hdr.len() == hl);
    lemma_ser_scene_starts_len(m.scenes@);
    lemma_ser_scene_ends_len(m.scenes@);
    lemma_ser_scene_peaks_len(m.scenes@);
    lemma_ser_frames_len(m.frames@, m.header.version);
    lemma_ser_targets_len(m.frames@);
    let sc = m.scenes@.len() as int;
    let fc = m.frames@.len() as int;
    let pf: int = if v6 { 580 } else { 576 };
    let tl: int = if m.header.flags == 3 { 2 * fc } else { 0 };
    assert(b.len() == 4 + hl + 12 * sc + pf * fc + tl);
    // The header words read back as written.
    assert(b.subrange(0, 4) =~= spec_magic());
    assert(b.subrange(4, 8) =~= spec_le32(m.header.version));
    assert(b.subrange(12, 16) =~= spec_le32(m.header.scene_count));
    assert(b.subrange(16, 20) =~= spec_le32(m.header.frame_count));
    assert(b.subrange(20, 24) =~= spec_le32(m.header.flags));
    lemma_read_le32_at(b, 4, m.header.version);
    lemma_read_le32_at(b, 12, m.header.scene_count);
    lemma_read_le32_at(b, 16, m.header.frame_count);
    lemma_read_le32_at(b, 20, m.header.flags);
    assert(spec_has_magic(b));
    assert(spec_body_pos(b) == 4 + hl);
    assert((pf + 2) * fc == pf * fc + 2 * fc) by (nonlinear_arith);
    assert(spec_needed_len(b) == b.len());
    // No serialized scene-end word is zero.
    assert forall|k: int| 0 <= k < spec_read_le32(b, 12)
        implies #[trigger] spec_read_le32(b,
            spec_body_pos(b) + 4 * spec_read_le32(b, 12) + 4 * k) != 0 by {
        lemma_ser_scene_ends_at(m.scenes@, k);
        let p = 4 + hl + 4 * sc + 4 * k;
        assert(b.subrange(p, p + 4) =~= spec_le32((m.scenes@[k].end + 1) as u32));
        lemma_read_le32_at(b, p, (m.scenes@[k].end + 1) as u32);
        assert((m.scenes@[k].end + 1) as u32 != 0);
    }
}

} // verus!
