//! Fixed-point arithmetic in millionths, used to rank moves without
//! floating point: an integer square root and a base-two logarithm scaled
//! to the natural one.
use vstd::prelude::*;

use vstd::arithmetic::power2::lemma2_to64;
use vstd::arithmetic::power2::lemma_pow2_adds;
use vstd::arithmetic::power2::pow2;

verus! {

/// The natural logarithm of two, in millionths.
pub const LN2_MICRO: u64 = 693_147;

/// The whole part of the base-two logarithm.
pub open spec fn log2_floor(n: u64) -> int
    decreases n,
{
    if n < 2 {
        0
    } else {
        1 + log2_floor(n / 2)
    }
}

/// The base-two logarithm never exceeds the bit width: two raised to it
/// fits below the argument, which fits in a word.
pub proof fn lemma_log2_floor_bound(n: u64)
    ensures
        0 <= log2_floor(n) <= 63,
        n >= 1 ==> pow2(log2_floor(n) as nat) <= n,
    decreases n,
{
    lemma2_to64();
    if n >= 2 {
        lemma_log2_floor_bound(n / 2);
        let l = log2_floor(n / 2);
        lemma_pow2_adds(l as nat, 1);
        assert(pow2((l + 1) as nat) == pow2(l as nat) * 2);
        if l + 1 > 63 {
            assert(pow2(63) <= n / 2);
        }
    }
}

/// The whole part of the base-two logarithm, by repeated halving.
pub fn log2(n: u64) -> (r: u32)
    ensures
        r as int == log2_floor(n),
        r <= 63,
{
    proof {
        lemma_log2_floor_bound(n);
    }
    let mut v: u64 = n;
    let mut r: u32 = 0;
    while v >= 2
        invariant
            log2_floor(n) == r + log2_floor(v),
            r + log2_floor(v) <= 63,
        decreases v,
    {
        proof {
            lemma_log2_floor_bound(v / 2);
        }
        v = v / 2;
        r = r + 1;
    }
    r
}

/// An approximation of the natural logarithm in millionths: the whole
/// base-two logarithm times the natural logarithm of two.
pub open spec fn ln_micro_spec(n: u64) -> int {
    log2_floor(n) * (LN2_MICRO as int)
}

/// See `ln_micro_spec`.
pub fn ln_micro(n: u64) -> (r: u64)
    ensures
        r as int == ln_micro_spec(n),
        r <= 63 * 693_147,
{
    let l = log2(n);
    (l as u64) * LN2_MICRO
}

/// The whole part of the square root.
pub open spec fn is_sqrt_floor(x: u64, r: u64) -> bool {
    r * r <= x && x < (r + 1) * (r + 1)
}

/// The whole part of the square root, found one result bit at a time from
/// the highest down.
pub fn isqrt64(x: u64) -> (r: u64)
    ensures
        is_sqrt_floor(x, r),
{
    let mut r: u64 = 0;
    let mut shift: u32 = 32;
    proof {
        assert(1u64 << 32u32 == 0x1_0000_0000u64) by (bit_vector);
        assert((x as int) < (0 + 0x1_0000_0000int) * (0 + 0x1_0000_0000int));
    }
    while shift > 0
        invariant
            shift <= 32,
            r * r <= x,
            (x as int) < (r + (1u64 << shift)) * (r + (1u64 << shift)),
            r + (1u64 << shift) <= 0x1_0000_0000,
        decreases shift,
    {
        shift = shift - 1;
        proof {
            assert((1u64 << shift) + (1u64 << shift) == (1u64 << ((shift + 1) as u32))
                && 1u64 << shift >= 1) by (bit_vector)
                requires
                    shift < 32,
            ;
        }
        let c: u64 = r + (1u64 << shift);
        proof {
            assert(c * c <= 0xFFFF_FFFFu64 * 0xFFFF_FFFFu64) by (nonlinear_arith)
                requires
                    c <= 0xFFFF_FFFFu64,
            ;
            assert((c as int) * (c as int) == (c * c) as int || c * c > x || c * c <= x);
        }
        if c * c <= x {
            r = c;
        }
    }
    proof {
        assert(1u64 << 0u32 == 1u64) by (bit_vector);
    }
    r
}

} // verus!
