//! Ordering over IEEE-754 binary64 bit patterns.
//!
//! Numeric track fields such as duration or bitrate are stored as the 64-bit
//! encoding of their binary64 value, so that the library itself only handles
//! plain integers. For two encodings that are not NaN, the order of `n64_key`
//! coincides with the numeric order of the encoded values, and the two zero
//! encodings compare equal: the encoding of a binary64 value is monotone in
//! the value once the sign is split off.

use vstd::prelude::*;

verus! {

/// The encoding with the sign bit cleared.
pub open spec fn n64_magnitude(bits: u64) -> int {
    (bits % 0x8000_0000_0000_0000) as int
}

/// Whether the sign bit is set.
pub open spec fn n64_negative(bits: u64) -> bool {
    bits >= 0x8000_0000_0000_0000
}

/// NaN encodings: exponent all ones and a non-zero mantissa.
pub open spec fn n64_is_nan(bits: u64) -> bool {
    n64_magnitude(bits) > 0x7FF0_0000_0000_0000
}

/// Signed comparison key; both zero encodings map to 0.
pub open spec fn n64_key(bits: u64) -> int {
    if n64_negative(bits) {
        -n64_magnitude(bits)
    } else {
        n64_magnitude(bits)
    }
}

pub open spec fn n64_le(a: u64, b: u64) -> bool {
    n64_key(a) <= n64_key(b)
}

pub fn is_nan_bits(bits: u64) -> (r: bool)
    ensures
        r == n64_is_nan(bits),
{
    bits % 0x8000_0000_0000_0000 > 0x7FF0_0000_0000_0000
}

/// Doubles `m` until it reaches the mantissa range `[2^52, 2^53)`,
/// lowering the exponent once per doubling; `fuel` only bounds the
/// recursion and is never exhausted for a positive start value.
pub open spec fn n64_normalize(m: nat, e: int, fuel: nat) -> (nat, int)
    decreases fuel,
{
    if fuel == 0 || m >= 0x10_0000_0000_0000 {
        (m, e)
    } else {
        n64_normalize(m * 2, e - 1, (fuel - 1) as nat)
    }
}

/// The binary64 encoding of the integer `v`: sign bit, biased exponent,
/// and the normalized mantissa with its hidden bit dropped. Meaningful
/// for `|v| < 2^53`, where every integer has an exact encoding.
pub open spec fn n64_of_int(v: int) -> u64 {
    if v == 0 {
        0
    } else {
        let m0 = (if v < 0 {
            -v
        } else {
            v
        }) as nat;
        let norm = n64_normalize(m0, 52, 52);
        let sign: int = if v < 0 {
            0x8000_0000_0000_0000
        } else {
            0
        };
        (sign + (norm.1 + 1023) * 0x10_0000_0000_0000 + (norm.0 - 0x10_0000_0000_0000)) as u64
    }
}

/// The exact binary64 encoding of an integer, or `None` beyond `2^53`,
/// where integers stop being exactly representable.
pub fn int_to_n64_bits(v: i64) -> (r: Option<u64>)
    ensures
        match r {
            Some(b) => {
                &&& -0x20_0000_0000_0000 < v < 0x20_0000_0000_0000
                &&& b == n64_of_int(v as int)
                &&& !n64_is_nan(b)
            },
            None => v <= -0x20_0000_0000_0000 || v >= 0x20_0000_0000_0000,
        },
{
    if v <= -0x20_0000_0000_0000 || v >= 0x20_0000_0000_0000 {
        return None;
    }
    if v == 0 {
        return Some(0);
    }
    let m0: u64 = if v < 0 {
        (-v) as u64
    } else {
        v as u64
    };
    let mut m: u64 = m0;
    let mut fuel: u64 = 52;
    proof {
        vstd::arithmetic::power2::lemma2_to64();
        vstd::arithmetic::power2::lemma2_to64_rest();
        assert(vstd::arithmetic::power2::pow2(52) == 0x10_0000_0000_0000);
    }
    while m < 0x10_0000_0000_0000
        invariant
            1 <= m0 < 0x20_0000_0000_0000,
            fuel <= 52,
            m < 0x20_0000_0000_0000,
            m >= 1,
            m as nat * vstd::arithmetic::power2::pow2(fuel as nat) >= 0x10_0000_0000_0000,
            n64_normalize(m as nat, 52 - (52 - fuel as int), fuel as nat) == n64_normalize(
                m0 as nat,
                52,
                52,
            ),
        decreases fuel,
    {
        proof {
            if fuel == 0 {
                assert(vstd::arithmetic::power2::pow2(0) == 1) by {
                    vstd::arithmetic::power2::lemma2_to64();
                }
                assert(m as nat * 1 == m as nat);
                assert(false);
            }
            let p1 = vstd::arithmetic::power2::pow2((fuel - 1) as nat);
            let p = vstd::arithmetic::power2::pow2(fuel as nat);
            vstd::arithmetic::power2::lemma_pow2_unfold(fuel as nat);
            assert((m * 2) as nat * p1 == m as nat * p) by (nonlinear_arith)
                requires
                    p == 2 * p1,
            ;
        }
        m = m * 2;
        fuel = fuel - 1;
    }
    let e: u64 = fuel;
    let sign: u64 = if v < 0 {
        0x8000_0000_0000_0000
    } else {
        0
    };
    let bits: u64 = sign + (e + 1023) * 0x10_0000_0000_0000 + (m - 0x10_0000_0000_0000);
    proof {
        assert(n64_normalize(m as nat, e as int, fuel as nat) == (m as nat, e as int));
        assert(n64_of_int(v as int) == bits);
        assert(bits % 0x8000_0000_0000_0000 == (e + 1023) * 0x10_0000_0000_0000 + (m
            - 0x10_0000_0000_0000));
        assert(!n64_is_nan(bits));
    }
    Some(bits)
}

pub fn le_bits(a: u64, b: u64) -> (r: bool)
    ensures
        r == n64_le(a, b),
{
    let mag_a = a % 0x8000_0000_0000_0000;
    let mag_b = b % 0x8000_0000_0000_0000;
    let neg_a = a >= 0x8000_0000_0000_0000;
    let neg_b = b >= 0x8000_0000_0000_0000;
    if neg_a && neg_b {
        mag_b <= mag_a
    } else if neg_a {
        true
    } else if neg_b {
        mag_a == 0 && mag_b == 0
    } else {
        mag_a <= mag_b
    }
}

} // verus!
