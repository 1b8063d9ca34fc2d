//! Fixed-point ST.2084 (PQ) transfer-function math.
//!
//! All values are unsigned fixed-point numbers.  A "Q32" value represents
//! `v / 2^32`; the public API speaks millinits (thousandths of a nit) and
//! micro-PQ (millionths of a PQ code value).  The transcendental kernel
//! computes `x^e` through binary logarithm and exponential loops, each
//! carrying about 32 fractional bits, which keeps the relative error of the
//! conversions well below one part in a million.

use vstd::prelude::*;
use vstd::arithmetic::power2::*;

verus! {

/// 1.0 in Q32 fixed point.
pub const Q32_ONE: u64 = 4294967296;

/// ST.2084 constant m1 = 2610/16384, in Q32.
pub const PQ_M1_Q32: u64 = 684195840;
/// ST.2084 constant m2 = (2523/4096)*128, in Q32.
pub const PQ_M2_Q32: u64 = 338631327744;
/// 1/m1 in Q32.
pub const PQ_INV_M1_Q32: u64 = 26961204666;
/// 1/m2 in Q32.
pub const PQ_INV_M2_Q32: u64 = 54474417;
/// ST.2084 constant c1 = 3424/4096, in Q32.
pub const PQ_C1_Q32: u64 = 3590324224;
/// ST.2084 constant c2 = (2413/4096)*32, in Q32.
pub const PQ_C2_Q32: u64 = 80966844416;
/// ST.2084 constant c3 = (2392/4096)*32, in Q32.
pub const PQ_C3_Q32: u64 = 80262201344;

/// `2^e` as a machine word.
pub fn pow2_u64(e: u64) -> (r: u64)
    requires
        e <= 63,
    ensures
        r == pow2(e as nat),
{
    proof {
        lemma2_to64();
        lemma2_to64_rest();
    }
    match e {
        0 => 0x1,
        1 => 0x2,
        2 => 0x4,
        3 => 0x8,
        4 => 0x10,
        5 => 0x20,
        6 => 0x40,
        7 => 0x80,
        8 => 0x100,
        9 => 0x200,
        10 => 0x400,
        11 => 0x800,
        12 => 0x1000,
        13 => 0x2000,
        14 => 0x4000,
        15 => 0x8000,
        16 => 0x10000,
        17 => 0x20000,
        18 => 0x40000,
        19 => 0x80000,
        20 => 0x100000,
        21 => 0x200000,
        22 => 0x400000,
        23 => 0x800000,
        24 => 0x1000000,
        25 => 0x2000000,
        26 => 0x4000000,
        27 => 0x8000000,
        28 => 0x10000000,
        29 => 0x20000000,
        30 => 0x40000000,
        31 => 0x80000000,
        32 => 0x100000000,
        33 => 0x200000000,
        34 => 0x400000000,
        35 => 0x800000000,
        36 => 0x1000000000,
        37 => 0x2000000000,
        38 => 0x4000000000,
        39 => 0x8000000000,
        40 => 0x10000000000,
        41 => 0x20000000000,
        42 => 0x40000000000,
        43 => 0x80000000000,
        44 => 0x100000000000,
        45 => 0x200000000000,
        46 => 0x400000000000,
        47 => 0x800000000000,
        48 => 0x1000000000000,
        49 => 0x2000000000000,
        50 => 0x4000000000000,
        51 => 0x8000000000000,
        52 => 0x10000000000000,
        53 => 0x20000000000000,
        54 => 0x40000000000000,
        55 => 0x80000000000000,
        56 => 0x100000000000000,
        57 => 0x200000000000000,
        58 => 0x400000000000000,
        59 => 0x800000000000000,
        60 => 0x1000000000000000,
        61 => 0x2000000000000000,
        62 => 0x4000000000000000,
        _ => 0x8000000000000000,
    }
}

/// Powers of two are strictly ordered, so a bounded power pins the exponent.
proof fn lemma_pow2_bound(a: nat, b: nat)
    requires
        pow2(a) < pow2(b),
    ensures
        a < b,
{
    if a >= b {
        if a > b {
            lemma_pow2_strictly_increases(b, a);
        }
        assert(false);
    }
}

/// Monotonicity of `pow2` in the non-strict form.
proof fn lemma_pow2_increases(a: nat, b: nat)
    requires
        a <= b,
    ensures
        pow2(a) <= pow2(b),
{
    if a < b {
        lemma_pow2_strictly_increases(a, b);
    }
}

/// `2^(2^-(k+1))` in Q62, for the fractional bits of a rising exponential.
fn exp2_pos_step(k: usize) -> (r: u64)
    requires
        k < 32,
    ensures
        4611686018427387904 <= r < 9223372036854775808,
        r == spec_exp2_pos_step(k as int),
{
    match k {
        0 => 6521908912666391106,
        1 => 5484249825272419512,
        2 => 5029079263719320435,
        3 => 4815862801830788490,
        4 => 4712668792719003884,
        5 => 4661903986662671290,
        6 => 4636727017470743990,
        7 => 4624189567668517720,
        8 => 4617933561212708776,
        9 => 4614808732577250068,
        10 => 4613247111281068008,
        11 => 4612466498810092975,
        12 => 4612076242109103707,
        13 => 4611881126141011236,
        14 => 4611783571252412754,
        15 => 4611734794581956353,
        16 => 4611710406440186476,
        17 => 4611698212417665819,
        18 => 4611692115418496524,
        19 => 4611689066921934630,
        20 => 4611687542674409371,
        21 => 4611686780550835664,
        22 => 4611686399489096040,
        23 => 4611686208958238036,
        24 => 4611686113692811986,
        25 => 4611686066060099699,
        26 => 4611686042243743740,
        27 => 4611686030335565807,
        28 => 4611686024381476851,
        29 => 4611686021404432377,
        30 => 4611686019915910140,
        _ => 4611686019171649022,
    }
}

/// `2^(-2^-(k+1))` in Q63, for the fractional bits of a decaying exponential.
fn exp2_neg_step(k: usize) -> (r: u64)
    requires
        k < 32,
    ensures
        4611686018427387904 <= r < 9223372036854775808,
        r == spec_exp2_neg_step(k as int),
{
    match k {
        0 => 6521908912666391106,
        1 => 7755900482342532474,
        2 => 8457869449776733335,
        3 => 8832331321595618838,
        4 => 9025734193507008925,
        5 => 9124017994966720698,
        6 => 9173560510430823462,
        7 => 9198432556164277331,
        8 => 9210893855724328809,
        9 => 9217130834664616070,
        10 => 9220250907674776491,
        11 => 9221811340221203999,
        12 => 9222591655524303666,
        13 => 9222981837935769002,
        14 => 9223176935331786073,
        15 => 9223274485577403901,
        16 => 9223323261087119913,
        17 => 9223347648938705290,
        18 => 9223359842888679895,
        19 => 9223365939869712687,
        20 => 9223368988361740456,
        21 => 9223370512608132184,
        22 => 9223371274731422509,
        23 => 9223371655793091287,
        24 => 9223371846323931579,
        25 => 9223371941589353202,
        26 => 9223371989222064382,
        27 => 9223372013038420064,
        28 => 9223372024946597928,
        29 => 9223372030900686866,
        30 => 9223372033877731337,
        _ => 9223372035366253572,
    }
}

/// `-log2(x / 2^32)` in Q32 for `x` in `(0, 1]`.
///
/// The integer part comes from normalizing `x` into `[1, 2)`; the fractional
/// bits come from repeated squaring of the mantissa.
pub fn neg_log2_q32(x: u64) -> (r: u64)
    requires
        1 <= x <= Q32_ONE,
    ensures
        r == spec_neg_log2(x as int),
        r <= 32 * Q32_ONE,
        x == Q32_ONE ==> r == 0,
        x < Q32_ONE ==> 1 <= r,
{
    if x == Q32_ONE {
        return 0;
    }
    proof {
        lemma2_to64();
    }
    // m carries the value scaled to Q62; normalize so that m in [2^62, 2^63).
    let mut m: u64 = x * 0x40000000;
    let mut ip: u64 = 0;
    while m < 0x4000000000000000
        invariant
            1 <= x < Q32_ONE,
            m >= 0x40000000,
            m < 0x8000000000000000,
            m == x * 0x40000000 * pow2(ip as nat),
            ip <= 32,
            spec_log2_norm((x * 0x40000000) as int, 0, 62)
                == spec_log2_norm(m as int, ip as int, (62 - ip) as nat),
        decreases 0x8000000000000000u64 - m,
    {
        proof {
            // pow2(ip) stays below 2^32 while the loop runs, so ip < 32.
            lemma_pow2_pos(ip as nat);
            assert(m >= 0x40000000 * pow2(ip as nat)) by (nonlinear_arith)
                requires
                    m == x * 0x40000000 * pow2(ip as nat),
                    x >= 1,
                    pow2(ip as nat) >= 1;
            assert(pow2(ip as nat) < 0x100000000) by (nonlinear_arith)
                requires
                    m >= 0x40000000 * pow2(ip as nat),
                    m < 0x4000000000000000u64;
            assert(pow2(32) == 0x100000000) by {
                lemma2_to64();
            }
            lemma_pow2_bound(ip as nat, 32);
        }
        proof {
            // One unfolding of the normalization recursion.
            assert(spec_log2_norm(m as int, ip as int, (62 - ip) as nat)
                == spec_log2_norm(2 * (m as int), ip as int + 1, (62 - (ip + 1)) as nat));
        }
        m = m * 2;
        ip = ip + 1;
        proof {
            lemma_pow2_unfold(ip as nat);
            assert(m == x * 0x40000000 * pow2(ip as nat)) by (nonlinear_arith)
                requires
                    m == (x * 0x40000000 * pow2((ip - 1) as nat)) * 2,
                    pow2(ip as nat) == 2 * pow2((ip - 1) as nat);
        }
    }
    proof {
        // The loop exits normalized, so the recursion has reached its base.
        assert(spec_log2_norm(m as int, ip as int, (62 - ip) as nat)
            == (m as int, ip as int));
    }
    let ghost m_norm = m;
    proof {
        // x < 2^32 means the initial m was below 2^62, so at least one doubling happened.
        if ip == 0 {
            assert(m == x * 0x40000000 * 1);
            assert(x * 0x40000000 < 4294967296u64 * 0x40000000) by (nonlinear_arith)
                requires x < 4294967296u64;
            assert(false);
        }
    }
    let mut frac: u64 = 0;
    let mut k: u64 = 0;
    while k < 32
        invariant
            0x4000000000000000 <= m < 0x8000000000000000,
            k <= 32,
            frac < pow2(k as nat),
            frac < 0x100000000,
            spec_log2_frac(m_norm as int, 0, 32)
                == spec_log2_frac(m as int, frac as int, (32 - k) as nat),
        decreases 32 - k,
    {
        proof {
            assert((m as int) * (m as int) < 0x4000000000000000 * 0x10000000000000000)
                by (nonlinear_arith)
                requires m < 0x8000000000000000u64;
            assert((m as int) * (m as int) >= 0x4000000000000000 * 0x4000000000000000)
                by (nonlinear_arith)
                requires m >= 0x4000000000000000u64;
            lemma_pow2_unfold((k + 1) as nat);
            assert(pow2(k as nat) <= pow2(31)) by {
                lemma_pow2_increases(k as nat, 31);
            }
            lemma2_to64();
        }
        let sq: u128 = (m as u128) * (m as u128) / 0x4000000000000000;
        proof {
            // One unfolding of the fraction recursion.
            let sqi = ((m as int) * (m as int)) / 0x4000000000000000;
            if sqi >= 0x8000000000000000 {
                assert(spec_log2_frac(m as int, frac as int, (32 - k) as nat)
                    == spec_log2_frac(sqi / 2, 2 * (frac as int) + 1, (32 - (k + 1)) as nat));
            } else {
                assert(spec_log2_frac(m as int, frac as int, (32 - k) as nat)
                    == spec_log2_frac(sqi, 2 * (frac as int), (32 - (k + 1)) as nat));
            }
        }
        if sq >= 0x8000000000000000 {
            frac = frac * 2 + 1;
            m = (sq / 2) as u64;
        } else {
            frac = frac * 2;
            m = sq as u64;
        }
        k = k + 1;
    }
    proof {
        assert(spec_log2_frac(m_norm as int, 0, 32) == frac as int);
    }
    // r = ip - fractional part, as a Q32 quantity; ip >= 1 here.
    ip * Q32_ONE - frac
}

/// `2^(-p / 2^32)` in Q32; decays from `2^32` at `p == 0` towards zero.
pub fn exp2_neg_q32(p: u64) -> (r: u64)
    ensures
        r == spec_exp2_neg(p as int),
        r <= Q32_ONE,
        p == 0 ==> r == Q32_ONE,
{
    let ip: u64 = p / Q32_ONE;
    let mut fr: u64 = p % Q32_ONE;
    let mut m: u64 = 0x8000000000000000;
    let mut t: u64 = 0x80000000;
    let mut k: u64 = 0;
    while k < 32
        invariant
            m <= 0x8000000000000000,
            k <= 32,
            p == 0 ==> (m == 0x8000000000000000 && fr == 0),
            spec_exp2_neg_mant(0x8000000000000000, (p % Q32_ONE) as int, 0x80000000, 32)
                == spec_exp2_neg_mant(m as int, fr as int, t as int, (32 - k) as nat),
        decreases 32 - k,
    {
        if fr >= t && t > 0 {
            let c: u64 = exp2_neg_step(k as usize);
            proof {
                assert((m as int) * (c as int) <= 0x8000000000000000 * 0x8000000000000000)
                    by (nonlinear_arith)
                    requires m <= 0x8000000000000000u64, c <= 0x8000000000000000u64;
                vstd::arithmetic::div_mod::lemma_div_is_ordered(
                    (m as int) * (c as int),
                    (0x8000000000000000 as int) * (0x8000000000000000 as int),
                    0x8000000000000000 as int,
                );
                // One unfolding of the mantissa recursion, taken bit.
                assert(32 - (k as int) - 1 == 32 - ((k + 1) as int));
                assert(spec_exp2_neg_mant(m as int, fr as int, t as int, (32 - k) as nat)
                    == spec_exp2_neg_mant(
                        ((m as int) * (c as int)) / 0x8000000000000000,
                        fr as int - t as int, t as int / 2, (32 - (k + 1)) as nat));
            }
            let prod: u128 = (m as u128) * (c as u128) / 0x8000000000000000;
            m = prod as u64;
            fr = fr - t;
        } else {
            proof {
                // One unfolding of the mantissa recursion, skipped bit.
                assert(spec_exp2_neg_mant(m as int, fr as int, t as int, (32 - k) as nat)
                    == spec_exp2_neg_mant(m as int, fr as int, t as int / 2,
                        (32 - (k + 1)) as nat));
            }
        }
        t = t / 2;
        k = k + 1;
    }
    proof {
        assert(spec_exp2_neg_mant(0x8000000000000000, (p % Q32_ONE) as int, 0x80000000, 32)
            == m as int);
    }
    if ip >= 33 {
        return 0;
    }
    // Divide the Q63 mantissa down by 2^(31 + ip).
    let d: u64 = pow2_u64(31 + ip);
    proof {
        assert(pow2(31) == 0x80000000) by {
            lemma2_to64();
        }
        lemma_pow2_increases(31, (31 + ip) as nat);
    }
    let r: u64 = m / d;
    proof {
        if p == 0 {
            assert(ip == 0);
            assert(d == 0x80000000);
            assert(0x8000000000000000int / 0x80000000int == 0x100000000) by (nonlinear_arith);
        }
        assert(ip as int == (p as int) / 0x100000000);
    }
    if r > Q32_ONE {
        Q32_ONE
    } else {
        r
    }
}

/// `2^(p / 2^32)` in Q32, for positive exponents; saturates at `2^31`.
pub fn exp2_pos_q32(p: u64) -> (r: u64)
    ensures
        r == spec_exp2_pos(p as int),
        r <= 0x8000000000000000,
{
    let ip: u64 = p / Q32_ONE;
    proof {
        assert(ip as int == (p as int) / 0x100000000);
    }
    if ip >= 31 {
        return 0x8000000000000000;
    }
    let mut fr: u64 = p % Q32_ONE;
    let mut m: u64 = 0x4000000000000000;
    let mut t: u64 = 0x80000000;
    let mut k: u64 = 0;
    while k < 32
        invariant
            m < 0x8000000000000000,
            k <= 32,
            spec_exp2_pos_mant(0x4000000000000000, (p % Q32_ONE) as int, 0x80000000, 32)
                == spec_exp2_pos_mant(m as int, fr as int, t as int, (32 - k) as nat),
        decreases 32 - k,
    {
        if fr >= t && t > 0 {
            let c: u64 = exp2_pos_step(k as usize);
            proof {
                assert((m as int) * (c as int) < 0x8000000000000000 * 0x8000000000000000)
                    by (nonlinear_arith)
                    requires m < 0x8000000000000000u64, c < 0x8000000000000000u64;
                // One unfolding of the mantissa recursion, taken bit.
                let prodi = ((m as int) * (c as int)) / 0x4000000000000000;
                let m2 = if prodi >= 0x8000000000000000 {
                    0x8000000000000000 - 1int
                } else {
                    prodi
                };
                assert(spec_exp2_pos_mant(m as int, fr as int, t as int, (32 - k) as nat)
                    == spec_exp2_pos_mant(m2, fr as int - t as int, t as int / 2,
                        (32 - (k + 1)) as nat));
            }
            let prod: u128 = (m as u128) * (c as u128) / 0x4000000000000000;
            if prod >= 0x8000000000000000 {
                m = 0x7FFFFFFFFFFFFFFF;
            } else {
                m = prod as u64;
            }
            fr = fr - t;
        } else {
            proof {
                // One unfolding of the mantissa recursion, skipped bit.
                assert(spec_exp2_pos_mant(m as int, fr as int, t as int, (32 - k) as nat)
                    == spec_exp2_pos_mant(m as int, fr as int, t as int / 2,
                        (32 - (k + 1)) as nat));
            }
        }
        t = t / 2;
        k = k + 1;
    }
    proof {
        assert(spec_exp2_pos_mant(0x4000000000000000, (p % Q32_ONE) as int, 0x80000000, 32)
            == m as int);
    }
    // Multiply the Q62 mantissa up by 2^ip, then scale Q62 -> Q32.
    let mul: u64 = pow2_u64(ip);
    proof {
        assert(pow2(ip as nat) < 0x80000000) by {
            lemma2_to64();
            lemma_pow2_increases(ip as nat, 30);
        }
        assert((m as int) * (mul as int) < 0x8000000000000000 * 0x80000000)
            by (nonlinear_arith)
            requires m < 0x8000000000000000u64, mul < 0x80000000u64;
    }
    let acc: u128 = (m as u128) * (mul as u128) / 0x40000000;
    if acc > 0x8000000000000000 {
        0x8000000000000000
    } else {
        acc as u64
    }
}

/// `x^e` for a base in `[0, 1]` and a nonnegative Q32 exponent; Q32 in and out.
///
/// Zero stays zero and one stays one; every other result lies strictly
/// between, computed as `2^(-e * (-log2 x))`.
pub fn pow_frac_q32(x: u64, e: u64) -> (r: u64)
    requires
        x <= Q32_ONE,
    ensures
        r == spec_pow_frac(x as int, e as int),
        r <= Q32_ONE,
        x == 0 ==> r == 0,
        x == Q32_ONE ==> r == Q32_ONE,
{
    if x == 0 {
        return 0;
    }
    let nl: u64 = neg_log2_q32(x);
    proof {
        assert((nl as int) * (e as int) <= (32 * 4294967296) * 0xFFFFFFFFFFFFFFFF)
            by (nonlinear_arith)
            requires nl <= 32 * 4294967296u64, e <= 0xFFFFFFFFFFFFFFFFu64;
        if nl == 0 {
            assert((nl as int) * (e as int) == 0) by (nonlinear_arith)
                requires nl == 0u64;
        }
    }
    let p128: u128 = (nl as u128) * (e as u128) / (Q32_ONE as u128);
    let p: u64 = if p128 > 0xFFFFFFFFFFFFFFFF {
        0xFFFFFFFFFFFFFFFF
    } else {
        p128 as u64
    };
    proof {
        if x == Q32_ONE {
            assert(p128 == 0);
        }
    }
    exp2_neg_q32(p)
}

/// Luminance (millinits) to PQ code value (micro-PQ), the ST.2084 inverse EOTF.
///
/// The curve is clamped at both ends: zero light is PQ 0 and 10 000 nits or
/// more is PQ 1.  Interior values follow `((c1 + c2 y^m1)/(1 + c3 y^m1))^m2`
/// with `y` the luminance relative to 10 000 nits.
pub fn nits_to_pq(millinits: u64) -> (r: u32)
    ensures
        r == spec_nits_to_pq(millinits as int),
        r <= crate::PQ_ONE,
        millinits == 0 ==> r == 0,
        millinits >= crate::MAX_MILLINITS ==> r == crate::PQ_ONE,
{
    if millinits == 0 {
        return 0;
    }
    if millinits >= 10_000_000 {
        return 1_000_000;
    }
    proof {
        assert((millinits as int) * (Q32_ONE as int) < 10_000_000 * 4294967296)
            by (nonlinear_arith)
            requires millinits < 10_000_000u64;
        assert(((millinits as int) * (Q32_ONE as int)) / 10_000_000 <= Q32_ONE as int)
            by (nonlinear_arith)
            requires millinits < 10_000_000u64;
    }
    let y: u64 = (((millinits as u128) * (Q32_ONE as u128)) / 10_000_000) as u64;
    let yp: u64 = pow_frac_q32(y, PQ_M1_Q32);
    proof {
        assert((PQ_C2_Q32 as int) * (yp as int) <= (PQ_C2_Q32 as int) * (Q32_ONE as int))
            by (nonlinear_arith)
            requires yp <= Q32_ONE;
        assert((PQ_C3_Q32 as int) * (yp as int) <= (PQ_C3_Q32 as int) * (Q32_ONE as int))
            by (nonlinear_arith)
            requires yp <= Q32_ONE;
        assert(((PQ_C2_Q32 as int) * (Q32_ONE as int)) / (Q32_ONE as int) == PQ_C2_Q32 as int);
        assert(((PQ_C3_Q32 as int) * (Q32_ONE as int)) / (Q32_ONE as int) == PQ_C3_Q32 as int);
    }
    let c2p: u128 = (PQ_C2_Q32 as u128) * (yp as u128) / (Q32_ONE as u128);
    let c3p: u128 = (PQ_C3_Q32 as u128) * (yp as u128) / (Q32_ONE as u128);
    proof {
        vstd::arithmetic::div_mod::lemma_div_is_ordered(
            (PQ_C2_Q32 as int) * (yp as int),
            (PQ_C2_Q32 as int) * (Q32_ONE as int),
            Q32_ONE as int,
        );
        vstd::arithmetic::div_mod::lemma_div_is_ordered(
            (PQ_C3_Q32 as int) * (yp as int),
            (PQ_C3_Q32 as int) * (Q32_ONE as int),
            Q32_ONE as int,
        );
    }
    let num: u64 = PQ_C1_Q32 + (c2p as u64);
    let den: u64 = Q32_ONE + (c3p as u64);
    proof {
        assert((num as int) * (Q32_ONE as int) <= 0x100000000000 * 4294967296)
            by (nonlinear_arith)
            requires num <= 0x100000000000u64;
    }
    let ratio128: u128 = (num as u128) * (Q32_ONE as u128) / (den as u128);
    let ratio: u64 = if ratio128 > Q32_ONE as u128 {
        Q32_ONE
    } else {
        ratio128 as u64
    };
    let r: u64 = pow_frac_q32(ratio, PQ_M2_Q32);
    proof {
        assert((r as int) * 1_000_000 <= (Q32_ONE as int) * 1_000_000)
            by (nonlinear_arith)
            requires r <= Q32_ONE;
    }
    let out: u64 = (((r as u128) * 1_000_000 + 2147483648) / (Q32_ONE as u128)) as u64;
    if out > 1_000_000 {
        1_000_000
    } else {
        out as u32
    }
}

/// PQ code value (micro-PQ) to luminance (millinits), the ST.2084 EOTF.
///
/// Exact inverse of `nits_to_pq` at the endpoints; interior values follow
/// `((p^(1/m2) - c1)/(c2 - c3 p^(1/m2)))^(1/m1)` scaled to 10 000 nits.
pub fn pq_to_nits(micro_pq: u32) -> (r: u64)
    ensures
        r == spec_pq_to_nits(micro_pq as int),
        r <= crate::MAX_MILLINITS,
        micro_pq == 0 ==> r == 0,
        micro_pq >= crate::PQ_ONE ==> r == crate::MAX_MILLINITS,
{
    if micro_pq == 0 {
        return 0;
    }
    if micro_pq >= 1_000_000 {
        return 10_000_000;
    }
    proof {
        assert((micro_pq as int) * (Q32_ONE as int) < 1_000_000 * 4294967296)
            by (nonlinear_arith)
            requires micro_pq < 1_000_000u32;
        assert(((micro_pq as int) * (Q32_ONE as int)) / 1_000_000 <= Q32_ONE as int)
            by (nonlinear_arith)
            requires micro_pq < 1_000_000u32;
    }
    let p: u64 = (((micro_pq as u128) * (Q32_ONE as u128)) / 1_000_000) as u64;
    let t: u64 = pow_frac_q32(p, PQ_INV_M2_Q32);
    if t <= PQ_C1_Q32 {
        return 0;
    }
    let num: u64 = t - PQ_C1_Q32;
    proof {
        assert((PQ_C3_Q32 as int) * (t as int) <= (PQ_C3_Q32 as int) * (Q32_ONE as int))
            by (nonlinear_arith)
            requires t <= Q32_ONE;
        assert(((PQ_C3_Q32 as int) * (Q32_ONE as int)) / (Q32_ONE as int) == PQ_C3_Q32 as int);
        vstd::arithmetic::div_mod::lemma_div_is_ordered(
            (PQ_C3_Q32 as int) * (t as int),
            (PQ_C3_Q32 as int) * (Q32_ONE as int),
            Q32_ONE as int,
        );
    }
    let c3t: u64 = ((PQ_C3_Q32 as u128) * (t as u128) / (Q32_ONE as u128)) as u64;
    if c3t >= PQ_C2_Q32 {
        return 10_000_000;
    }
    let den: u64 = PQ_C2_Q32 - c3t;
    proof {
        assert((num as int) * (Q32_ONE as int) <= (Q32_ONE as int) * (Q32_ONE as int))
            by (nonlinear_arith)
            requires num <= Q32_ONE;
    }
    let ratio128: u128 = (num as u128) * (Q32_ONE as u128) / (den as u128);
    let ratio: u64 = if ratio128 > Q32_ONE as u128 {
        Q32_ONE
    } else {
        ratio128 as u64
    };
    let y: u64 = pow_frac_q32(ratio, PQ_INV_M1_Q32);
    proof {
        assert((y as int) * 10_000_000 <= (Q32_ONE as int) * 10_000_000)
            by (nonlinear_arith)
            requires y <= Q32_ONE;
    }
    let out: u64 = (((y as u128) * 10_000_000 + 2147483648) / (Q32_ONE as u128)) as u64;
    if out > 10_000_000 {
        10_000_000
    } else {
        out
    }
}

} // verus!

verus! {

/// The Q62 constant `2^(2^-(k+1))`, as the rising exponential's spec table.
pub open spec fn spec_exp2_pos_step(k: int) -> int {
    if k == 0 { 6521908912666391106 } else if k == 1 { 5484249825272419512 } else if k == 2 { 5029079263719320435 } else if k == 3 { 4815862801830788490 } else if k == 4 { 4712668792719003884 } else if k == 5 { 4661903986662671290 } else if k == 6 { 4636727017470743990 } else if k == 7 { 4624189567668517720 } else if k == 8 { 4617933561212708776 } else if k == 9 { 4614808732577250068 } else if k == 10 { 4613247111281068008 } else if k == 11 { 4612466498810092975 } else if k == 12 { 4612076242109103707 } else if k == 13 { 4611881126141011236 } else if k == 14 { 4611783571252412754 } else if k == 15 { 4611734794581956353 } else if k == 16 { 4611710406440186476 } else if k == 17 { 4611698212417665819 } else if k == 18 { 4611692115418496524 } else if k == 19 { 4611689066921934630 } else if k == 20 { 4611687542674409371 } else if k == 21 { 4611686780550835664 } else if k == 22 { 4611686399489096040 } else if k == 23 { 4611686208958238036 } else if k == 24 { 4611686113692811986 } else if k == 25 { 4611686066060099699 } else if k == 26 { 4611686042243743740 } else if k == 27 { 4611686030335565807 } else if k == 28 { 4611686024381476851 } else if k == 29 { 4611686021404432377 } else if k == 30 { 4611686019915910140 } else { 4611686019171649022 }
}

/// The Q63 constant `2^(-2^-(k+1))`, as the decaying exponential's spec table.
pub open spec fn spec_exp2_neg_step(k: int) -> int {
    if k == 0 { 6521908912666391106 } else if k == 1 { 7755900482342532474 } else if k == 2 { 8457869449776733335 } else if k == 3 { 8832331321595618838 } else if k == 4 { 9025734193507008925 } else if k == 5 { 9124017994966720698 } else if k == 6 { 9173560510430823462 } else if k == 7 { 9198432556164277331 } else if k == 8 { 9210893855724328809 } else if k == 9 { 9217130834664616070 } else if k == 10 { 9220250907674776491 } else if k == 11 { 9221811340221203999 } else if k == 12 { 9222591655524303666 } else if k == 13 { 9222981837935769002 } else if k == 14 { 9223176935331786073 } else if k == 15 { 9223274485577403901 } else if k == 16 { 9223323261087119913 } else if k == 17 { 9223347648938705290 } else if k == 18 { 9223359842888679895 } else if k == 19 { 9223365939869712687 } else if k == 20 { 9223368988361740456 } else if k == 21 { 9223370512608132184 } else if k == 22 { 9223371274731422509 } else if k == 23 { 9223371655793091287 } else if k == 24 { 9223371846323931579 } else if k == 25 { 9223371941589353202 } else if k == 26 { 9223371989222064382 } else if k == 27 { 9223372013038420064 } else if k == 28 { 9223372024946597928 } else if k == 29 { 9223372030900686866 } else if k == 30 { 9223372033877731337 } else { 9223372035366253572 }
}

/// Normalization of the Q62 logarithm argument: double the mantissa until
/// it reaches `[2^62, 2^63)`, counting the doublings.  This tail recursion
/// is the definition of what the normalization loop computes.
pub open spec fn spec_log2_norm(m: int, ip: int, fuel: nat) -> (int, int)
    decreases fuel,
{
    if m >= 0x4000000000000000 || fuel == 0 {
        (m, ip)
    } else {
        spec_log2_norm(2 * m, ip + 1, (fuel - 1) as nat)
    }
}

/// The 32 fractional bits of the binary logarithm, produced by repeated
/// squaring of the normalized mantissa.
pub open spec fn spec_log2_frac(m: int, frac: int, fuel: nat) -> int
    decreases fuel,
{
    if fuel == 0 {
        frac
    } else {
        let sq = (m * m) / 0x4000000000000000;
        if sq >= 0x8000000000000000 {
            spec_log2_frac(sq / 2, 2 * frac + 1, (fuel - 1) as nat)
        } else {
            spec_log2_frac(sq, 2 * frac, (fuel - 1) as nat)
        }
    }
}

/// `-log2(x / 2^32)` in Q32: integer part from normalization, fractional
/// bits from mantissa squaring.  This is the defining model of
/// [`neg_log2_q32`].
pub open spec fn spec_neg_log2(x: int) -> int {
    if x == 0x100000000 {
        0
    } else {
        let norm = spec_log2_norm(x * 0x40000000, 0, 62);
        norm.1 * 0x100000000 - spec_log2_frac(norm.0, 0, 32)
    }
}

/// The decaying exponential's mantissa product over the 32 fraction bits.
pub open spec fn spec_exp2_neg_mant(m: int, fr: int, t: int, fuel: nat) -> int
    decreases fuel,
{
    if fuel == 0 {
        m
    } else if fr >= t && t > 0 {
        spec_exp2_neg_mant(
            (m * spec_exp2_neg_step(32 - fuel)) / 0x8000000000000000,
            fr - t, t / 2, (fuel - 1) as nat)
    } else {
        spec_exp2_neg_mant(m, fr, t / 2, (fuel - 1) as nat)
    }
}

/// `2^(-p / 2^32)` in Q32: the defining model of [`exp2_neg_q32`].
pub open spec fn spec_exp2_neg(p: int) -> int {
    let ip = p / 0x100000000;
    if ip >= 33 {
        0
    } else {
        let m = spec_exp2_neg_mant(0x8000000000000000, p % 0x100000000, 0x80000000, 32);
        let r = m / (pow2((31 + ip) as nat) as int);
        if r > 0x100000000 { 0x100000000 } else { r }
    }
}

/// The rising exponential's mantissa product, saturated below `2^63`.
pub open spec fn spec_exp2_pos_mant(m: int, fr: int, t: int, fuel: nat) -> int
    decreases fuel,
{
    if fuel == 0 {
        m
    } else if fr >= t && t > 0 {
        let prod = (m * spec_exp2_pos_step(32 - fuel)) / 0x4000000000000000;
        let m2 = if prod >= 0x8000000000000000 { 0x8000000000000000 - 1 } else { prod };
        spec_exp2_pos_mant(m2, fr - t, t / 2, (fuel - 1) as nat)
    } else {
        spec_exp2_pos_mant(m, fr, t / 2, (fuel - 1) as nat)
    }
}

/// `2^(p / 2^32)` in Q32, saturated at `2^31`: the defining model of
/// [`exp2_pos_q32`].
pub open spec fn spec_exp2_pos(p: int) -> int {
    let ip = p / 0x100000000;
    if ip >= 31 {
        0x8000000000000000
    } else {
        let m = spec_exp2_pos_mant(0x4000000000000000, p % 0x100000000, 0x80000000, 32);
        let acc = (m * (pow2(ip as nat) as int)) / 0x40000000;
        if acc > 0x8000000000000000 { 0x8000000000000000 } else { acc }
    }
}

/// `x^e` over Q32 fixed point as `2^(-e * (-log2 x))`: the defining model
/// of [`pow_frac_q32`].
pub open spec fn spec_pow_frac(x: int, e: int) -> int {
    if x == 0 {
        0
    } else {
        let p = (spec_neg_log2(x) * e) / 0x100000000;
        let pc = if p > 0xFFFFFFFFFFFFFFFF { 0xFFFFFFFFFFFFFFFF } else { p };
        spec_exp2_neg(pc)
    }
}

/// The full fixed-point inverse EOTF, millinits to micro-PQ: the defining
/// model of [`nits_to_pq`].
pub open spec fn spec_nits_to_pq(millinits: int) -> int {
    if millinits <= 0 {
        0
    } else if millinits >= 10_000_000 {
        1_000_000
    } else {
        let y = (millinits * 0x100000000) / 10_000_000;
        let yp = spec_pow_frac(y, PQ_M1_Q32 as int);
        let num = PQ_C1_Q32 + (PQ_C2_Q32 * yp) / 0x100000000;
        let den = 0x100000000 + (PQ_C3_Q32 * yp) / 0x100000000;
        let ratio0 = (num * 0x100000000) / den;
        let ratio = if ratio0 > 0x100000000 { 0x100000000int } else { ratio0 };
        let r = spec_pow_frac(ratio, PQ_M2_Q32 as int);
        let out = (r * 1_000_000 + 2147483648) / 0x100000000;
        if out > 1_000_000 { 1_000_000 } else { out }
    }
}

/// The full fixed-point EOTF, micro-PQ to millinits: the defining model of
/// [`pq_to_nits`].
pub open spec fn spec_pq_to_nits(micro_pq: int) -> int {
    if micro_pq <= 0 {
        0
    } else if micro_pq >= 1_000_000 {
        10_000_000
    } else {
        let p = (micro_pq * 0x100000000) / 1_000_000;
        let t = spec_pow_frac(p, PQ_INV_M2_Q32 as int);
        if t <= PQ_C1_Q32 {
            0
        } else {
            let num = t - PQ_C1_Q32;
            let c3t = (PQ_C3_Q32 * t) / 0x100000000;
            if c3t >= PQ_C2_Q32 {
                10_000_000
            } else {
                let den = PQ_C2_Q32 - c3t;
                let ratio0 = (num * 0x100000000) / den;
                let ratio = if ratio0 > 0x100000000 { 0x100000000int } else { ratio0 };
                let y = spec_pow_frac(ratio, PQ_INV_M1_Q32 as int);
                let out = (y * 10_000_000 + 2147483648) / 0x100000000;
                if out > 10_000_000 { 10_000_000 } else { out }
            }
        }
    }
}

} // verus!
