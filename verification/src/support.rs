//! Small supporting pieces around the pipeline: duration formatting,
//! global output verbosity modeled as an explicit value, the HDR format
//! classification, and helpers for locating companion files.

use vstd::prelude::*;
use vstd::string::*;

verus! {

/// The decimal digits of a nonnegative number, most significant first.
pub open spec fn spec_decimal(n: int) -> Seq<char>
    decreases n,
{
    if n < 10 {
        seq![spec_digit_char(n)]
    } else {
        spec_decimal(n / 10) + seq![spec_digit_char(n % 10)]
    }
}

/// One decimal digit as its character.
pub open spec fn spec_digit_char(d: int) -> char {
    (('0' as u8) + d) as char
}

/// One decimal digit as a string slice.
fn digit_str(d: u64) -> (r: &'static str)
    requires
        d < 10,
    ensures
        r@ =~= seq![spec_digit_char(d as int)],
{
    proof {
        reveal_strlit("0");
        reveal_strlit("1");
        reveal_strlit("2");
        reveal_strlit("3");
        reveal_strlit("4");
        reveal_strlit("5");
        reveal_strlit("6");
        reveal_strlit("7");
        reveal_strlit("8");
        reveal_strlit("9");
    }
    match d {
        0 => "0",
        1 => "1",
        2 => "2",
        3 => "3",
        4 => "4",
        5 => "5",
        6 => "6",
        7 => "7",
        8 => "8",
        _ => "9",
    }
}

/// A number in decimal.
pub fn u64_to_string(n: u64) -> (s: String)
    ensures
        s@ == spec_decimal(n as int),
    decreases n,
{
    if n < 10 {
        let s = String::from_str(digit_str(n));
        proof {
            assert(s@ =~= spec_decimal(n as int));
        }
        s
    } else {
        let mut s = u64_to_string(n / 10);
        s.append(digit_str(n % 10));
        proof {
            assert(s@ =~= spec_decimal(n as int));
        }
        s
    }
}

/// What a duration looks like when printed: seconds alone under a minute,
/// then minutes and seconds, then hours, minutes and seconds.
pub open spec fn spec_format_duration(secs: int) -> Seq<char> {
    if secs < 60 {
        spec_decimal(secs) + seq!['s']
    } else if secs < 3600 {
        spec_decimal(secs / 60) + seq!['m'] + spec_decimal(secs % 60) + seq!['s']
    } else {
        spec_decimal(secs / 3600) + seq!['h'] + spec_decimal((secs % 3600) / 60) + seq!['m']
            + spec_decimal(secs % 60) + seq!['s']
    }
}

/// Format an elapsed duration, given in whole seconds, the way progress
/// lines show it: `5s`, `1m5s` or `1h1m5s`.
pub fn format_duration(total_seconds: u64) -> (r: String)
    ensures
        r@ == spec_format_duration(total_seconds as int),
{
    proof {
        reveal_strlit("s");
        reveal_strlit("m");
        reveal_strlit("h");
    }
    let secs = total_seconds;
    if secs < 60 {
        let mut s = u64_to_string(secs);
        s.append("s");
        proof {
            assert(s@ =~= spec_format_duration(total_seconds as int));
        }
        s
    } else if secs < 3600 {
        let mut s = u64_to_string(secs / 60);
        s.append("m");
        let sec_part = u64_to_string(secs % 60);
        s.append(sec_part.as_str());
        s.append("s");
        proof {
            assert(s@ =~= spec_format_duration(total_seconds as int));
        }
        s
    } else {
        let mut s = u64_to_string(secs / 3600);
        s.append("h");
        let min_part = u64_to_string((secs % 3600) / 60);
        s.append(min_part.as_str());
        s.append("m");
        let sec_part = u64_to_string(secs % 60);
        s.append(sec_part.as_str());
        s.append("s");
        proof {
            assert(s@ =~= spec_format_duration(total_seconds as int));
        }
        s
    }
}

/// Global output verbosity, held as an explicit value rather than process
/// state, so every transition is visible to the caller.
#[derive(Clone, Copy, Debug, PartialEq, Eq, Structural)]
pub struct OutputFlags {
    /// Raw command output is shown.
    pub verbose: bool,
    /// Only errors are shown.
    pub quiet: bool,
}

impl OutputFlags {
    /// Both modes off.
    pub fn new() -> (r: Self)
        ensures
            !r.verbose && !r.quiet,
    {
        OutputFlags { verbose: false, quiet: false }
    }
}

/// Turn verbose mode on or off.
pub fn set_verbose(flags: &mut OutputFlags, v: bool)
    ensures
        final(flags).verbose == v,
        final(flags).quiet == old(flags).quiet,
{
    flags.verbose = v;
}

/// Turn quiet mode on or off.
pub fn set_quiet(flags: &mut OutputFlags, q: bool)
    ensures
        final(flags).quiet == q,
        final(flags).verbose == old(flags).verbose,
{
    flags.quiet = q;
}

/// Whether verbose mode is on.
pub fn is_verbose(flags: &OutputFlags) -> (r: bool)
    ensures
        r == flags.verbose,
{
    flags.verbose
}

/// Whether quiet mode is on.
pub fn is_quiet(flags: &OutputFlags) -> (r: bool)
    ensures
        r == flags.quiet,
{
    flags.quiet
}

/// The HDR flavor of an input, as classified from its container metadata.
#[derive(Clone, Copy, Debug, PartialEq, Eq, Structural)]
pub enum HdrFormat {
    /// HDR10 with dynamic metadata.
    Hdr10Plus,
    /// HDR10 with a measurement file on disk.
    Hdr10WithMeasurements,
    /// HDR10 without measurements; they must be generated.
    Hdr10Unsupported,
    /// Hybrid log-gamma.
    Hlg,
    /// Anything else.
    Unsupported,
}

impl HdrFormat {
    /// The format's display name.
    pub fn name(&self) -> (r: &'static str)
        ensures
            *self == HdrFormat::Hdr10Plus ==> r@ == "HDR10+"@,
            *self == HdrFormat::Hdr10WithMeasurements ==> r@ == "HDR10 (with measurements)"@,
            *self == HdrFormat::Hdr10Unsupported ==> r@ == "HDR10 (no measurements)"@,
            *self == HdrFormat::Hlg ==> r@ == "HLG"@,
            *self == HdrFormat::Unsupported ==> r@ == "Unsupported"@,
    {
        match self {
            HdrFormat::Hdr10Plus => "HDR10+",
            HdrFormat::Hdr10WithMeasurements => "HDR10 (with measurements)",
            HdrFormat::Hdr10Unsupported => "HDR10 (no measurements)",
            HdrFormat::Hlg => "HLG",
            HdrFormat::Unsupported => "Unsupported",
        }
    }
}

/// The index of the first existing candidate, if any.
pub open spec fn spec_first_existing(exists: Seq<bool>, i: int) -> Option<int>
    decreases exists.len() - i,
{
    if i < 0 || i >= exists.len() {
        Option::None
    } else if exists[i] {
        Option::Some(i)
    } else {
        spec_first_existing(exists, i + 1)
    }
}

/// Pick the measurement file among the candidate paths: the first one the
/// caller found on disk.
pub fn find_measurements_file(candidates: &Vec<String>, exists: &Vec<bool>) -> (r: Option<String>)
    requires
        candidates@.len() == exists@.len(),
    ensures
        r is Some <==> spec_first_existing(exists@, 0) is Some,
        r is Some ==> r->0@ == candidates@[spec_first_existing(exists@, 0)->0]@,
{
    let mut i: usize = 0;
    while i < candidates.len()
        invariant
            i <= candidates@.len(),
            candidates@.len() == exists@.len(),
            spec_first_existing(exists@, 0) == spec_first_existing(exists@, i as int),
        decreases candidates@.len() - i,
    {
        if exists[i] {
            proof {
                assert(spec_first_existing(exists@, i as int) == Option::Some(i as int));
            }
            return Option::Some(candidates[i].clone());
        }
        proof {
            assert(spec_first_existing(exists@, i as int)
                == spec_first_existing(exists@, i + 1));
        }
        i = i + 1;
    }
    proof {
        assert(spec_first_existing(exists@, i as int) is None);
    }
    Option::None
}

/// Pick the details file among the candidate paths: the first one the
/// caller found on disk.
pub fn find_details_file(candidates: &Vec<String>, exists: &Vec<bool>) -> (r: Option<String>)
    requires
        candidates@.len() == exists@.len(),
    ensures
        r is Some <==> spec_first_existing(exists@, 0) is Some,
        r is Some ==> r->0@ == candidates@[spec_first_existing(exists@, 0)->0]@,
{
    find_measurements_file(candidates, exists)
}

/// The video transfer characteristic the analyzer distinguishes.
#[derive(Clone, Copy, Debug, PartialEq, Eq, Structural)]
pub enum TransferFunction {
    /// SMPTE ST.2084 perceptual quantizer.
    Pq,
    /// ARIB STD-B67 hybrid log-gamma.
    Hlg,
    /// Anything unrecognized is analyzed as PQ.
    Unknown,
}

/// Stream metadata the pipeline needs from the decoder.
#[derive(Clone, Copy, Debug)]
pub struct VideoInfo {
    /// Frame width in pixels.
    pub width: u32,
    /// Frame height in pixels.
    pub height: u32,
    /// Estimated total frame count, when the container offers one.
    pub total_frames: Option<u32>,
    /// The stream's transfer characteristic.
    pub transfer_function: TransferFunction,
}

/// Hardware decode hint.
#[derive(Clone, Copy, Debug, PartialEq, Eq, Structural)]
pub enum HwAccel {
    /// Software decode.
    Off,
    /// NVIDIA decode.
    Cuda,
}

/// Which peak statistic downstream metadata generation reads.
#[derive(Clone, Copy, Debug, PartialEq, Eq, Structural)]
pub enum PeakSource {
    /// The mastering metadata peak.
    MaxSclLuminance,
    /// The histogram maximum.
    Histogram,
    /// The 99th percentile of the histogram.
    Histogram99,
}

impl PeakSource {
    /// The flag value downstream tools expect.
    pub fn name(&self) -> (r: &'static str)
        ensures
            *self == PeakSource::MaxSclLuminance ==> r@ == "max-scl-luminance"@,
            *self == PeakSource::Histogram ==> r@ == "histogram"@,
            *self == PeakSource::Histogram99 ==> r@ == "histogram99"@,
    {
        match self {
            PeakSource::MaxSclLuminance => "max-scl-luminance",
            PeakSource::Histogram => "histogram",
            PeakSource::Histogram99 => "histogram99",
        }
    }
}

/// Boost mode promotes the conservative peak sources to the brighter 99th
/// percentile and leaves the percentile choice alone.
pub fn apply_boost(source: PeakSource, boost: bool) -> (r: PeakSource)
    ensures
        r == (if boost { PeakSource::Histogram99 } else { source }),
{
    if boost {
        PeakSource::Histogram99
    } else {
        source
    }
}

} // verus!
