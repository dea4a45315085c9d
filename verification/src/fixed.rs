//! The fixed-point number format, its constants, and the two rounding
//! primitives (floor square root, floor division) the estimators share.

use vstd::arithmetic::div_mod::{
    lemma_div_nonincreasing, lemma_fundamental_div_mod, lemma_fundamental_div_mod_converse,
};
use vstd::arithmetic::power2::{lemma2_to64, lemma_pow2_strictly_increases, lemma_pow2_unfold, pow2};
use vstd::prelude::*;

verus! {

/// Number of fractional bits of every fixed-point quantity.
pub const FRACTION_BITS: u32 = 24;

/// The real number 1.0.
pub const ONE: i64 = 16_777_216;

/// Smallest magnitude treated as different from zero: 2^-23.
pub const EPSILON: i64 = 2;

/// Longest window, in samples, that the estimators accept. With it every
/// intermediate sum and product fits in 128 bits.
pub const MAX_WINDOW: usize = 1_048_576;

/// Number of lags examined for a window of `MAX_WINDOW` samples.
pub const MAX_LAGS: usize = 524_288;

/// Bound on the square of the difference of two samples: 2^64.
pub const SQUARE_LIMIT: u128 = 0x1_0000_0000_0000_0000;

/// Bound on one entry of a difference array over at most `MAX_LAGS` lags:
/// `MAX_LAGS * SQUARE_LIMIT`, which is 2^83.
pub const DIFFERENCE_LIMIT: u128 = 0x8_0000_0000_0000_0000_0000;

/// Largest divisor that `scaled_ratio` accepts: 2^127.
pub const RATIO_LIMIT: u128 = 0x8000_0000_0000_0000_0000_0000_0000_0000;

/// `n` has floor square root `r`: `r` is the largest integer whose square
/// does not exceed `n`.
pub open spec fn is_floor_sqrt(r: int, n: int) -> bool {
    0 <= r && r * r <= n < (r + 1) * (r + 1)
}

/// The floor of the square root of `n`, for `n >= 0`.
pub open spec fn floor_sqrt(n: int) -> int {
    choose|r: int| is_floor_sqrt(r, n)
}

/// Squaring is monotone on the non-negative integers.
pub proof fn lemma_square_monotone(a: int, b: int)
    requires
        0 <= a <= b,
    ensures
        a * a <= b * b,
{
    assert(a * a <= b * b) by (nonlinear_arith)
        requires
            0 <= a <= b,
    ;
}

/// A number has at most one floor square root, so finding one determines
/// `floor_sqrt`.
pub proof fn lemma_floor_sqrt_unique(r: int, n: int)
    requires
        is_floor_sqrt(r, n),
    ensures
        floor_sqrt(n) == r,
{
    let q = floor_sqrt(n);
    assert(is_floor_sqrt(q, n));
    if q < r {
        lemma_square_monotone(q + 1, r);
    } else if r < q {
        lemma_square_monotone(r + 1, q);
    }
}

/// Computes the floor square root of `n` by bisection.
pub fn integer_sqrt(n: u128) -> (r: u64)
    ensures
        is_floor_sqrt(r as int, n as int),
        r as int == floor_sqrt(n as int),
{
    let mut lo: u128 = 0;
    let mut hi: u128 = 0x1_0000_0000_0000_0000;
    assert(0x1_0000_0000_0000_0000int * 0x1_0000_0000_0000_0000int
        == 0x1_0000_0000_0000_0000_0000_0000_0000_0000int) by (nonlinear_arith);
    while hi - lo > 1
        invariant
            lo < hi <= 0x1_0000_0000_0000_0000,
            lo * lo <= n,
            n < hi * hi,
        decreases hi - lo,
    {
        let mid: u128 = lo + (hi - lo) / 2;
        proof {
            lemma_square_monotone(mid as int, 0xFFFF_FFFF_FFFF_FFFFint);
            assert(0xFFFF_FFFF_FFFF_FFFFint * 0xFFFF_FFFF_FFFF_FFFFint
                < 0x1_0000_0000_0000_0000_0000_0000_0000_0000int) by (nonlinear_arith);
        }
        if mid * mid <= n {
            lo = mid;
        } else {
            hi = mid;
        }
    }
    proof {
        lemma_floor_sqrt_unique(lo as int, n as int);
    }
    lo as u64
}

/// Quotient of `n` by a positive `d`, rounded toward negative infinity.
pub fn floor_div(n: i128, d: i128) -> (q: i128)
    requires
        d > 0,
    ensures
        q == n / d,
        n >= 0 ==> 0 <= q <= n,
        n < 0 ==> n <= q < 0,
{
    if n >= 0 {
        let q: u128 = (n as u128) / (d as u128);
        proof {
            lemma_div_nonincreasing(n as int, d as int);
        }
        q as i128
    } else {
        let below: u128 = (-(n + 1)) as u128;
        let q: u128 = below / (d as u128);
        let r: u128 = below % (d as u128);
        proof {
            lemma_fundamental_div_mod(below as int, d as int);
            lemma_div_nonincreasing(below as int, d as int);
            assert(d * (-(q as int) - 1) == -(d * q) - d) by (nonlinear_arith);
            lemma_fundamental_div_mod_converse(
                n as int,
                d as int,
                -(q as int) - 1,
                d - r - 1,
            );
        }
        -(q as i128) - 1
    }
}

/// The ratio of `value` to a larger `total` as a fixed-point number,
/// rounded down. The quotient is built one fractional bit at a time, so no
/// intermediate exceeds twice the divisor.
pub fn scaled_ratio(value: u128, total: u128) -> (ratio: i64)
    requires
        value < total <= RATIO_LIMIT,
    ensures
        ratio == value * ONE / (total as int),
        0 <= ratio < ONE,
{
    let mut quotient: i64 = 0;
    let mut remainder: u128 = value;
    let mut bits: u32 = 0;
    proof {
        lemma2_to64();
    }
    while bits < FRACTION_BITS
        invariant
            bits <= FRACTION_BITS,
            remainder < total <= RATIO_LIMIT,
            0 <= quotient < pow2(bits as nat),
            value * pow2(bits as nat) == quotient * total + remainder,
        decreases FRACTION_BITS - bits,
    {
        proof {
            lemma2_to64();
            lemma_pow2_unfold((bits + 1) as nat);
            if bits + 1 < FRACTION_BITS {
                lemma_pow2_strictly_increases((bits + 1) as nat, FRACTION_BITS as nat);
            }
            let scale: int = pow2(bits as nat) as int;
            assert(value * (2 * scale) == (2 * quotient) * total + 2 * remainder
                && (2 * quotient + 1) * total == (2 * quotient) * total + total)
                by (nonlinear_arith)
                requires
                    value * scale == quotient * total + remainder,
            ;
        }
        let doubled: u128 = remainder * 2;
        if doubled >= total {
            quotient = 2 * quotient + 1;
            remainder = doubled - total;
        } else {
            quotient = 2 * quotient;
            remainder = doubled;
        }
        bits = bits + 1;
    }
    proof {
        lemma2_to64();
        assert(value * ONE == total * quotient + remainder) by (nonlinear_arith)
            requires
                value * ONE == quotient * total + remainder,
        ;
        lemma_fundamental_div_mod_converse(
            value * ONE,
            total as int,
            quotient as int,
            remainder as int,
        );
    }
    quotient
}

} // verus!
