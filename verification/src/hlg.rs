//! Fixed-point BT.2100 hybrid-log-gamma (HLG) inverse OETF.
//!
//! Signals are micro-units of the normalized `[0, 1]` range; relative light
//! is Q32 fixed point with 1.0 at the nominal peak; absolute light is in
//! millinits, capped at 10 000 nits like the PQ curve.

use vstd::prelude::*;
use crate::pq::{exp2_neg_q32, exp2_pos_q32, spec_exp2_neg, spec_exp2_pos, Q32_ONE};

verus! {

/// BT.2100 HLG constant b = 0.28466892, in Q32.
pub const HLG_B_Q32: u64 = 1222643702;
/// BT.2100 HLG constant c = 0.55991073, in Q32.
pub const HLG_C_Q32: u64 = 2404798274;
/// 1/a for the BT.2100 HLG constant a = 0.17883277, in Q32.
pub const HLG_INV_A_Q32: u64 = 24016668176;
/// log2(e) in Q32.
pub const LOG2E_Q32: u64 = 6196328019;

/// The fixed-point HLG inverse OETF on Q32 values: the square law below
/// half signal, the exponential segment above, both through the binary
/// exponential kernel.  This is the defining model of
/// [`hlg_signal_to_relative`].
pub open spec fn spec_hlg_relative(signal_micro: int) -> int {
    let s = if signal_micro > 1_000_000 { 1_000_000int } else { signal_micro };
    let x = (s * 0x100000000) / 1_000_000;
    if x <= 2147483648 {
        ((x * x) / 0x100000000) / 3
    } else if x >= HLG_C_Q32 {
        let z = ((x - HLG_C_Q32) * HLG_INV_A_Q32) / 0x100000000;
        let p = (z * LOG2E_Q32) / 0x100000000;
        let r = (spec_exp2_pos(p) + HLG_B_Q32) / 12;
        if r > 2 * Q32_ONE { 2 * (Q32_ONE as int) } else { r }
    } else {
        let z = ((HLG_C_Q32 - x) * HLG_INV_A_Q32) / 0x100000000;
        let p = (z * LOG2E_Q32) / 0x100000000;
        (spec_exp2_neg(p) + HLG_B_Q32) / 12
    }
}

/// Relative HLG light scaled by the nominal peak and capped at 10 000
/// nits: the defining model of [`hlg_signal_to_nits`].
pub open spec fn spec_hlg_to_nits(signal_micro: int, peak_millinits: int) -> int {
    let scaled = (spec_hlg_relative(signal_micro) * peak_millinits) / (Q32_ONE as int);
    if scaled > 10_000_000 { 10_000_000 } else { scaled }
}

/// Convert a normalized HLG signal (micro-units, clamped to `[0, 1]`) to
/// relative linear light in Q32, where `2^32` is the nominal peak.
///
/// Below half signal the curve is the exact square law `x^2 / 3`; above it
/// the exponential segment `(exp((x - c)/a) + b) / 12` is evaluated with the
/// fixed-point exponential kernel.
pub fn hlg_signal_to_relative(signal_micro: u32) -> (r: u64)
    ensures
        r == spec_hlg_relative(signal_micro as int),
        r <= 2 * Q32_ONE,
        signal_micro == 0 ==> r == 0,
{
    let s: u64 = if signal_micro > 1_000_000 {
        1_000_000
    } else {
        signal_micro as u64
    };
    proof {
        assert((s as int) * (Q32_ONE as int) <= 1_000_000 * 4294967296)
            by (nonlinear_arith)
            requires s <= 1_000_000u64;
        assert((1_000_000int * 4294967296int) / 1_000_000int == 4294967296int);
        vstd::arithmetic::div_mod::lemma_div_is_ordered(
            (s as int) * (Q32_ONE as int),
            1_000_000int * 4294967296int,
            1_000_000int,
        );
    }
    let x: u64 = (((s as u128) * (Q32_ONE as u128)) / 1_000_000) as u64;
    if x <= 2147483648 {
        // x^2 / 3 in Q32; the square of a Q32 value needs one rescale.
        proof {
            assert((x as int) * (x as int) <= 2147483648 * 2147483648)
                by (nonlinear_arith)
                requires x <= 2147483648u64;
        }
        let sq: u64 = (((x as u128) * (x as u128)) / (Q32_ONE as u128)) as u64;
        proof {
            vstd::arithmetic::div_mod::lemma_div_is_ordered(
                (x as int) * (x as int),
                2147483648int * 2147483648int,
                Q32_ONE as int,
            );
        }
        let r = sq / 3;
        proof {
            if signal_micro == 0 {
                assert(x == 0);
            }
        }
        r
    } else if x >= HLG_C_Q32 {
        proof {
            assert(((x - HLG_C_Q32) as int) * (HLG_INV_A_Q32 as int)
                <= 4294967296int * 24016668176)
                by (nonlinear_arith)
                requires x - HLG_C_Q32 <= 4294967296u64, HLG_INV_A_Q32 == 24016668176u64;
        }
        let z: u64 = ((((x - HLG_C_Q32) as u128) * (HLG_INV_A_Q32 as u128))
            / (Q32_ONE as u128)) as u64;
        proof {
            vstd::arithmetic::div_mod::lemma_div_is_ordered(
                ((x - HLG_C_Q32) as int) * (HLG_INV_A_Q32 as int),
                4294967296int * 24016668176int,
                Q32_ONE as int,
            );
            assert((z as int) * (LOG2E_Q32 as int) <= 24016668176int * 6196328019)
                by (nonlinear_arith)
                requires z <= 24016668176u64, LOG2E_Q32 == 6196328019u64;
        }
        let p: u64 = (((z as u128) * (LOG2E_Q32 as u128)) / (Q32_ONE as u128)) as u64;
        let ex: u64 = exp2_pos_q32(p);
        let r: u64 = (ex + HLG_B_Q32) / 12;
        if r > 2 * Q32_ONE {
            2 * Q32_ONE
        } else {
            r
        }
    } else {
        proof {
            assert(((HLG_C_Q32 - x) as int) * (HLG_INV_A_Q32 as int)
                <= 4294967296int * 24016668176)
                by (nonlinear_arith)
                requires HLG_C_Q32 - x <= 4294967296u64, HLG_INV_A_Q32 == 24016668176u64;
        }
        let z: u64 = ((((HLG_C_Q32 - x) as u128) * (HLG_INV_A_Q32 as u128))
            / (Q32_ONE as u128)) as u64;
        proof {
            vstd::arithmetic::div_mod::lemma_div_is_ordered(
                ((HLG_C_Q32 - x) as int) * (HLG_INV_A_Q32 as int),
                4294967296int * 24016668176int,
                Q32_ONE as int,
            );
            assert((z as int) * (LOG2E_Q32 as int) <= 24016668176int * 6196328019)
                by (nonlinear_arith)
                requires z <= 24016668176u64, LOG2E_Q32 == 6196328019u64;
        }
        let p: u64 = (((z as u128) * (LOG2E_Q32 as u128)) / (Q32_ONE as u128)) as u64;
        let ex: u64 = exp2_neg_q32(p);
        (ex + HLG_B_Q32) / 12
    }
}

/// Convert a normalized HLG signal directly to absolute light in millinits,
/// scaling the relative light by the nominal peak and capping at 10 000 nits.
#[verifier::rlimit(50)]
pub fn hlg_signal_to_nits(signal_micro: u32, peak_millinits: u64) -> (r: u64)
    ensures
        r == spec_hlg_to_nits(signal_micro as int, peak_millinits as int),
        r <= crate::MAX_MILLINITS,
        signal_micro == 0 ==> r == 0,
{
    let rel: u64 = hlg_signal_to_relative(signal_micro);
    proof {
        assert((rel as int) * (peak_millinits as int)
            <= 0xFFFFFFFFFFFFFFFF * (0xFFFFFFFFFFFFFFFF as int))
            by (nonlinear_arith)
            requires rel <= 0xFFFFFFFFFFFFFFFFu64, peak_millinits <= 0xFFFFFFFFFFFFFFFFu64;
        if rel == 0 {
            assert((rel as int) * (peak_millinits as int) == 0) by (nonlinear_arith)
                requires rel == 0u64;
        }
    }
    let scaled: u128 = (rel as u128) * (peak_millinits as u128) / (Q32_ONE as u128);
    if scaled > 10_000_000 {
        10_000_000
    } else {
        scaled as u64
    }
}

} // verus!
