//! Verified square root of an IEEE binary32 value carried as a `u32`
//! bit pattern.
//!
//! The value is decomposed into an integer significand and a power of
//! two; an exact integer square root of the suitably scaled significand
//! yields the 24-bit result significand together with a rounding bit.
//! Because the square root of a non-square integer is irrational,
//! round-to-nearest ties cannot occur, so rounding is decided by the
//! discarded low bits of the integer root alone.  The result of a
//! positive finite input is always a normal number.

use vstd::prelude::*;
use vstd::arithmetic::power2::{pow2, lemma2_to64, lemma_pow2_unfold, lemma_pow2_strictly_increases};
use crate::fbits::{f32_sign, f32_exp, f32_frac, f32_mag, f32_is_nan};

verus! {

/// The integer square root: the unique q with q^2 <= a < (q+1)^2.
pub open spec fn spec_isqrt(a: nat) -> nat {
    choose|q: nat| #[trigger] (q * q) <= a && a < (q + 1) * (q + 1)
}

/// Two integers satisfying the square-root characterization are equal.
proof fn lemma_isqrt_unique(a: nat, q1: nat, q2: nat)
    requires
        q1 * q1 <= a < (q1 + 1) * (q1 + 1),
        q2 * q2 <= a < (q2 + 1) * (q2 + 1),
    ensures
        q1 == q2,
{
    if q1 < q2 {
        assert((q1 + 1) * (q1 + 1) <= q2 * q2) by (nonlinear_arith)
            requires q1 < q2;
    }
    if q2 < q1 {
        assert((q2 + 1) * (q2 + 1) <= q1 * q1) by (nonlinear_arith)
            requires q2 < q1;
    }
}

/// Integer square root of a 64-bit value below 2^52, by bisection.
pub fn isqrt64(a: u64) -> (r: u64)
    requires
        a < 0x10_0000_0000_0000,
    ensures
        r * r <= a < (r + 1) * (r + 1),
        r == spec_isqrt(a as nat),
{
    let mut lo: u64 = 0;
    let mut hi: u64 = 0x400_0000;
    assert(hi * hi == 0x10_0000_0000_0000) by (nonlinear_arith)
        requires hi == 0x400_0000;
    while lo + 1 < hi
        invariant
            lo < hi <= 0x400_0000,
            lo * lo <= a,
            a < hi * hi,
        decreases hi - lo,
    {
        let mid: u64 = lo + (hi - lo) / 2;
        proof {
            assert(mid * mid <= 0x10_0000_0000_0000) by (nonlinear_arith)
                requires mid <= 0x400_0000;
        }
        if mid * mid <= a {
            lo = mid;
        } else {
            hi = mid;
        }
    }
    proof {
        assert(a < (lo + 1) * (lo + 1));
        assert(exists|q: nat| #[trigger] (q * q) <= a && a < (q + 1) * (q + 1)) by {
            assert((lo as nat) * (lo as nat) <= a && a < (lo as nat + 1) * (lo as nat + 1));
        }
        let q0 = spec_isqrt(a as nat);
        lemma_isqrt_unique(a as nat, q0, lo as nat);
    }
    lo
}

/// Repeated doubling of the significand until it is normalized to
/// [2^23, 2^24), with the exponent of its weight adjusted in step.
pub open spec fn norm_shift(m: nat, t: int) -> (nat, int)
    decreases 0x100_0000 - m
        when 1 <= m
{
    if m < 0x80_0000 {
        norm_shift(2 * m, t - 1)
    } else {
        (m, t)
    }
}

/// The square root of the encoded value, rounded to nearest even, as a
/// bit pattern.  A NaN is returned quiet; the zeros and positive
/// infinity return themselves; a negative value returns the canonical
/// quiet NaN.
pub open spec fn f32_sqrt(x: u32) -> u32 {
    if f32_is_nan(x) {
        if (x / 0x40_0000) % 2 == 1 { x } else { (x + 0x40_0000) as u32 }
    } else if f32_mag(x) == 0 {
        x
    } else if f32_sign(x) == 1 {
        0x7FC0_0000
    } else if f32_exp(x) == 255 {
        x
    } else {
        let m0: nat = if f32_exp(x) == 0 { f32_frac(x) as nat } else { (f32_frac(x) + 0x80_0000) as nat };
        let t0: int = if f32_exp(x) == 0 { -149 } else { f32_exp(x) - 150 };
        let (m, t) = norm_shift(m0, t0);
        if t % 2 == 0 {
            let q = spec_isqrt(m * 0x400_0000);
            let rm = q / 2 + q % 2;
            let er = t / 2 + 138;
            (er * 0x80_0000 + rm - 0x80_0000) as u32
        } else {
            let q = spec_isqrt(m * 0x800_0000);
            let rm = q / 4 + (if q % 4 >= 2 { 1int } else { 0int });
            let er = (t - 1) / 2 + 139;
            (er * 0x80_0000 + rm - 0x80_0000) as u32
        }
    }
}

/// Square root of an encoded binary32 value, round to nearest even.
pub fn float_sqrt(x: u32) -> (r: u32)
    ensures
        r == f32_sqrt(x),
{
    let e: u32 = (x / 0x80_0000) % 0x100;
    let f: u32 = x % 0x80_0000;
    if e == 255 && f != 0 {
        // quiet the NaN
        if (x / 0x40_0000) % 2 == 1 {
            return x;
        } else {
            assert(x / 0x40_0000 <= 0x3FE);
            return x + 0x40_0000;
        }
    }
    if x % 0x8000_0000 == 0 {
        return x;
    }
    if x / 0x8000_0000 == 1 {
        return 0x7FC0_0000;
    }
    if e == 255 {
        return x;
    }

    let ghost m0: nat = if e == 0 { f as nat } else { (f + 0x80_0000) as nat };
    let ghost t0: int = if e == 0 { -149 } else { e - 150 };

    let mut m: u32 = if e == 0 { f } else { f + 0x80_0000 };
    let mut t: i64 = if e == 0 { -149 } else { e as i64 - 150 };
    let ghost mstart: nat = m as nat;
    let mut j: u32 = 0;
    proof {
        lemma2_to64();
    }
    while m < 0x80_0000
        invariant
            1 <= m < 0x100_0000,
            j <= 23,
            t == t0 - j,
            -172 <= t <= 104,
            m as nat == mstart * pow2(j as nat),
            1 <= mstart,
            norm_shift(m as nat, t as int) == norm_shift(m0, t0),
            m0 == mstart,
            -149 <= t0 <= 104,
        decreases 0x100_0000 - m,
    {
        proof {
            lemma2_to64();
            if j >= 23 {
                lemma_pow2_strictly_increases(22, j as nat);
                assert(mstart * pow2(j as nat) >= pow2(j as nat)) by (nonlinear_arith)
                    requires mstart >= 1;
            }
            lemma_pow2_unfold((j + 1) as nat);
            assert(mstart * pow2((j + 1) as nat) == 2 * (mstart * pow2(j as nat))) by (nonlinear_arith)
                requires pow2((j + 1) as nat) == 2 * pow2(j as nat);
        }
        m = m * 2;
        t = t - 1;
        j = j + 1;
    }
    proof {
        assert(norm_shift(m as nat, t as int) == (m as nat, t as int));
    }

    let q: u64;
    let rm: u32;
    let er: u32;
    if t % 2 == 0 {
        let a: u64 = (m as u64) * 0x400_0000;
        q = isqrt64(a);
        proof {
            assert(a >= 0x2_0000_0000_0000);
            if q < 0x100_0000 {
                assert((q + 1) * (q + 1) <= 0x100_0001 * 0x100_0001) by (nonlinear_arith)
                    requires q + 1 <= 0x100_0001;
                assert(false);
            }
            if q >= 0x1FF_FFFF {
                assert(q * q >= 0x1FF_FFFF * 0x1FF_FFFF) by (nonlinear_arith)
                    requires q >= 0x1FF_FFFF;
                assert(false);
            }
        }
        rm = (q / 2 + q % 2) as u32;
        let e64: i64 = t / 2 + 138;
        er = e64 as u32;
    } else {
        let a: u64 = (m as u64) * 0x800_0000;
        q = isqrt64(a);
        proof {
            assert(a >= 0x4_0000_0000_0000);
            if q < 0x200_0000 {
                assert((q + 1) * (q + 1) <= 0x200_0000 * 0x200_0000) by (nonlinear_arith)
                    requires q + 1 <= 0x200_0000;
                assert(false);
            }
            if q / 4 + (if q % 4 >= 2 { 1u64 } else { 0u64 }) >= 0x100_0000 {
                assert(q >= 0x3FF_FFFC);
                assert(q * q >= 0x3FF_FFFC * 0x3FF_FFFC) by (nonlinear_arith)
                    requires q >= 0x3FF_FFFC;
                assert(false);
            }
        }
        rm = (q / 4 + (if q % 4 >= 2 { 1u64 } else { 0u64 })) as u32;
        let e64: i64 = (t - 1) / 2 + 139;
        er = e64 as u32;
    }
    er * 0x80_0000 + (rm - 0x80_0000)
}

} // verus!
