//! Fixed-point arithmetic for rewards and value estimates.
//!
//! Every scalar quantity in this library (a reward, a Q estimate, a state
//! value, an exploration rate, a confidence constant) is an integer number of
//! millionths: the value `1.5` is held as `1_500_000`. [`UNIT`] is the scale
//! factor. [`REWARD_LIMIT`] bounds the magnitude that the learning code
//! accepts, which keeps all intermediate arithmetic inside `i64`.

use vstd::prelude::*;

verus! {

use vstd::arithmetic::power2::*;

/// One whole unit, in millionths.
pub const UNIT: i64 = 1_000_000;

/// Largest magnitude, in millionths, accepted for an arm mean or one noise
/// sample: half of [`REWARD_LIMIT`], so a mean plus a sample is a reward.
pub const MEAN_LIMIT: i64 = 500_000_000_000;

/// Largest magnitude, in millionths, accepted for a reward or an estimate.
pub const REWARD_LIMIT: i64 = 1_000_000_000_000;

/// Division truncating toward zero, the semantics of `i64` division.
pub open spec fn div_trunc(a: int, b: int) -> int
    recommends
        b >= 1,
{
    if a >= 0 {
        a / b
    } else {
        -((-a) / b)
    }
}

/// The incremental sample-mean update: the new estimate after observing
/// reward `r` when the visit count, including the visit being updated, is
/// `n`. Division truncates toward zero, as `i64` division does.
pub open spec fn new_q_spec(q: int, r: int, n: int) -> int
    recommends
        n >= 1,
{
    q + div_trunc(r - q, n)
}

/// The estimate a single update can produce never leaves the interval
/// spanned by the old estimate and the reward.
pub proof fn lemma_new_q_bounds(q: int, r: int, n: int)
    requires
        n >= 1,
    ensures
        q <= r ==> q <= new_q_spec(q, r, n) <= r,
        r <= q ==> r <= new_q_spec(q, r, n) <= q,
{
    if q <= r {
        assert(0 <= (r - q) / n <= r - q) by (nonlinear_arith)
            requires n >= 1 && r - q >= 0;
    } else {
        assert(0 <= (q - r) / n <= q - r) by (nonlinear_arith)
            requires n >= 1 && q - r >= 0;
    }
}

/// The estimate after `n` consecutive updates at one (state, action) pair,
/// all with the same reward `r`, starting from an estimate of zero.
pub open spec fn repeated_update(r: int, n: nat) -> int
    decreases n,
{
    if n == 0 {
        0
    } else {
        new_q_spec(repeated_update(r, (n - 1) as nat), r, n as int)
    }
}

/// Incremental mean identity: after any positive number of consecutive
/// updates at one (state, action) pair with the same reward `r`, starting
/// from an estimate of zero, the estimate equals `r` exactly.
pub proof fn lemma_incremental_mean_identity(r: int, n: nat)
    requires
        n >= 1,
    ensures
        repeated_update(r, n) == r,
    decreases n,
{
    if n == 1 {
        assert(repeated_update(r, 0) == 0);
        assert(new_q_spec(0, r, 1) == r);
    } else {
        lemma_incremental_mean_identity(r, (n - 1) as nat);
        assert(new_q_spec(r, r, n as int) == r);
    }
}

/// Computes [`new_q_spec`] on fixed-point values.
pub fn incremental_mean(q: i64, r: i64, n: i64) -> (nq: i64)
    requires
        n >= 1,
        -REWARD_LIMIT <= q <= REWARD_LIMIT,
        -REWARD_LIMIT <= r <= REWARD_LIMIT,
    ensures
        nq == new_q_spec(q as int, r as int, n as int),
        -REWARD_LIMIT <= nq <= REWARD_LIMIT,
{
    proof {
        lemma_new_q_bounds(q as int, r as int, n as int);
    }
    let step: i64 = (r - q) / n;
    q + step
}

/// The integer square root: the largest `r` with `r * r <= x`.
pub open spec fn is_sqrt_floor(x: int, r: int) -> bool {
    r >= 0 && r * r <= x < (r + 1) * (r + 1)
}

/// The integer square root as a function.
pub open spec fn sqrt_floor(x: int) -> int
    decreases x,
{
    if x <= 0 {
        0
    } else if (sqrt_floor(x - 1) + 1) * (sqrt_floor(x - 1) + 1) <= x {
        sqrt_floor(x - 1) + 1
    } else {
        sqrt_floor(x - 1)
    }
}

/// [`sqrt_floor`] satisfies [`is_sqrt_floor`], and is the only value that
/// does.
pub proof fn lemma_sqrt_floor(x: int, r: int)
    requires
        is_sqrt_floor(x, r),
    ensures
        r == sqrt_floor(x),
    decreases x,
{
    if x <= 0 {
        assert(r == 0) by (nonlinear_arith)
            requires r >= 0 && r * r <= x <= 0;
    } else {
        let s = sqrt_floor(x - 1);
        if r * r <= x - 1 {
            lemma_sqrt_floor(x - 1, r);
            assert(!((r + 1) * (r + 1) <= x));
        } else {
            // r * r == x, so r - 1 is the root of x - 1.
            assert(r >= 1) by (nonlinear_arith)
                requires r >= 0 && r * r > x - 1 && x >= 1;
            assert((r - 1) * (r - 1) <= x - 1) by (nonlinear_arith)
                requires r >= 1 && r * r <= x;
            lemma_sqrt_floor(x - 1, r - 1);
            assert(s + 1 == r && (s + 1) * (s + 1) <= x);
        }
    }
}

/// Computes the integer square root by bisection.
pub fn isqrt_u64(x: u64) -> (r: u64)
    ensures
        is_sqrt_floor(x as int, r as int),
        r as int == sqrt_floor(x as int),
{
    let mut lo: u64 = 0;
    let mut hi: u64 = 0x1_0000_0000;
    while lo + 1 < hi
        invariant
            lo < hi <= 0x1_0000_0000,
            lo * lo <= x,
            (hi as int) * (hi as int) > x,
        decreases hi - lo,
    {
        let mid: u64 = lo + (hi - lo) / 2;
        assert(mid * mid <= 0xffff_ffff * 0xffff_ffff) by (nonlinear_arith)
            requires mid <= 0xffff_ffff;
        if mid * mid <= x {
            lo = mid;
        } else {
            hi = mid;
        }
    }
    proof {
        lemma_sqrt_floor(x as int, lo as int);
    }
    lo
}

/// The natural logarithm of 2, in millionths.
pub const LN2_MICROS: u64 = 693_147;

/// The binary logarithm, rounded down.
pub open spec fn log2_floor(n: nat) -> nat
    decreases n,
{
    if n < 2 {
        0
    } else {
        1 + log2_floor(n / 2)
    }
}

/// `log2_floor` names the exponent of the octave that holds `n`.
pub proof fn lemma_log2_floor(n: nat)
    requires
        n >= 1,
    ensures
        pow2(log2_floor(n)) <= n < pow2(log2_floor(n) + 1),
    decreases n,
{
    if n < 2 {
        lemma2_to64();
    } else {
        lemma_log2_floor(n / 2);
        let k = log2_floor(n / 2);
        lemma_pow2_unfold(k + 1);
        lemma_pow2_unfold(k + 2);
    }
}

/// The piecewise-linear fixed-point approximation of the natural logarithm
/// that this library uses: with `k = log2_floor(n)`, the value is `k * ln 2`
/// plus a linear interpolation across the octave, in millionths. It is exact
/// on powers of two, overestimates the logarithm by less than a tenth
/// elsewhere, and is monotone in `n`.
pub open spec fn ln_approx_micros(n: nat) -> int
    recommends
        n >= 1,
{
    log2_floor(n) * LN2_MICROS + ((n - pow2(log2_floor(n))) * LN2_MICROS) / (
    pow2(log2_floor(n)) as int)
}

/// Computes [`ln_approx_micros`].
pub fn ln_micros(n: u64) -> (r: u64)
    requires
        n >= 1,
    ensures
        r == ln_approx_micros(n as nat),
        r <= 64 * LN2_MICROS,
{
    proof {
        lemma2_to64();
        lemma2_to64_rest();
    }
    let mut k: u64 = 0;
    let mut p: u64 = 1;
    while p <= n / 2
        invariant
            1 <= p <= n,
            p == pow2(k as nat),
            k <= 63,
            k as nat == log2_floor(p as nat),
        decreases n - p,
    {
        proof {
            if k >= 63 {
                lemma2_to64_rest();
                assert(false);
            }
            lemma_pow2_unfold((k + 1) as nat);
            assert(log2_floor(2 * p as nat) == 1 + log2_floor(p as nat));
        }
        p = p * 2;
        k = k + 1;
    }
    proof {
        lemma_pow2_unfold((k + 1) as nat);
        lemma_log2_within_octave(n as nat, k as nat);
    }
    let frac128: u128 = (((n - p) as u128) * (LN2_MICROS as u128)) / (p as u128);
    assert(frac128 < LN2_MICROS) by (nonlinear_arith)
        requires
            frac128 == ((n - p) as int * LN2_MICROS) / (p as int),
            0 <= ((n - p) as int) && ((n - p) as int) < (p as int),
            p >= 1,
    ;
    let frac: u64 = frac128 as u64;
    k * LN2_MICROS + frac
}

/// A number in the octave `[pow2(k), pow2(k + 1))` has binary logarithm `k`.
proof fn lemma_log2_within_octave(n: nat, k: nat)
    requires
        pow2(k) <= n < pow2(k + 1),
    ensures
        log2_floor(n) == k,
    decreases k,
{
    lemma2_to64();
    if k == 0 {
    } else {
        lemma_pow2_unfold(k);
        lemma_pow2_unfold(k + 1);
        lemma_log2_within_octave(n / 2, (k - 1) as nat);
    }
}

} // verus!
