//! Q16.16 fixed-point arithmetic for the analyzer's signal path.
//!
//! Every real-valued quantity of the pipeline (samples, window
//! coefficients, magnitudes, decibel values) is carried as an `i64`
//! scaled by `FP_ONE`.  The operations here have exact integer
//! contracts, so every downstream stage can state precisely what it
//! computes.

use vstd::prelude::*;

verus! {

/// The fixed-point scale: one in Q16.16.
pub const FP_ONE: i64 = 65536;

/// Largest magnitude accepted by the fixed-point helpers; products of
/// two such values still fit in an `i64`.
pub const FP_LIMIT: i64 = 2147483648;

/// A value the fixed-point helpers accept.
pub open spec fn fp_in_range(v: int) -> bool {
    -FP_LIMIT <= v <= FP_LIMIT
}

/// Mathematical value of a Q16.16 product, rounded toward minus
/// infinity (ghost division by a positive divisor is flooring).
pub open spec fn fp_mul_spec(a: int, b: int) -> int {
    (a * b) / (FP_ONE as int)
}

/// Fixed-point multiply: `r` is the floor of `a * b / 2^16`.
pub fn fp_mul(a: i64, b: i64) -> (r: i64)
    requires
        -FP_LIMIT <= a <= FP_LIMIT,
        -FP_LIMIT <= b <= FP_LIMIT,
    ensures
        r == fp_mul_spec(a as int, b as int),
{
    proof {
        assert(-(FP_LIMIT * FP_LIMIT) <= a * b <= FP_LIMIT * FP_LIMIT) by (nonlinear_arith)
            requires
                -FP_LIMIT <= a <= FP_LIMIT,
                -FP_LIMIT <= b <= FP_LIMIT,
        ;
    }
    let p: i64 = a * b;
    if p >= 0 {
        let q: u64 = (p as u64) / 65536;
        q as i64
    } else {
        let m: u64 = (-p) as u64;
        let d: u64 = (m + 65535) / 65536;
        proof {
            lemma_neg_div_floor(m as int, FP_ONE as int);
        }
        -(d as i64)
    }
}

/// For positive `m` and positive divisor `q`, flooring `-m / q` is the
/// negated ceiling of `m / q`.
proof fn lemma_neg_div_floor(m: int, q: int)
    requires
        m > 0,
        q > 0,
    ensures
        (-m) / q == -((m + q - 1) / q),
{
    let k = m / q;
    let s = m % q;
    vstd::arithmetic::div_mod::lemma_fundamental_div_mod(m, q);
    if s == 0 {
        assert(m == q * k);
        assert((m + q - 1) / q == k) by (nonlinear_arith)
            requires m == q * k && q > 0 && m > 0,
        ;
        assert((-m) / q == -k) by (nonlinear_arith)
            requires m == q * k && q > 0,
        ;
    } else {
        assert(m == q * k + s && 0 < s < q);
        assert((m + q - 1) / q == k + 1) by (nonlinear_arith)
            requires m == q * k + s && 0 < s < q && q > 0,
        ;
        assert((-m) / q == -(k + 1)) by (nonlinear_arith)
            requires m == q * k + s && 0 < s < q && q > 0,
        ;
    }
}

/// Floor of the square root, as a recursive mathematical definition.
pub open spec fn sqrt_floor(x: nat) -> nat
    decreases x,
{
    if x == 0 {
        0
    } else {
        let r = sqrt_floor((x - 1) as nat);
        if (r + 1) * (r + 1) <= x {
            r + 1
        } else {
            r
        }
    }
}

/// `sqrt_floor(x)` brackets `x` between consecutive squares.
pub proof fn lemma_sqrt_floor_bracket(x: nat)
    ensures
        sqrt_floor(x) * sqrt_floor(x) <= x,
        x < (sqrt_floor(x) + 1) * (sqrt_floor(x) + 1),
    decreases x,
{
    let s = sqrt_floor(x);
    if x == 0 {
        assert(s == 0);
        assert(s * s <= x) by (nonlinear_arith)
            requires s == 0nat && x == 0nat,
        ;
        assert(x < (s + 1) * (s + 1)) by (nonlinear_arith)
            requires s == 0nat && x == 0nat,
        ;
    } else {
        lemma_sqrt_floor_bracket((x - 1) as nat);
        let r = sqrt_floor((x - 1) as nat);
        if (r + 1) * (r + 1) <= x {
            assert(s == r + 1);
            assert(s * s <= x) by (nonlinear_arith)
                requires s == r + 1 && (r + 1) * (r + 1) <= x,
            ;
            assert(x < (s + 1) * (s + 1)) by (nonlinear_arith)
                requires s == r + 1 && x - 1 < (r + 1) * (r + 1),
            ;
        } else {
            assert(s == r);
            assert(s * s <= x) by (nonlinear_arith)
                requires s == r && r * r <= x - 1,
            ;
            assert(x < (s + 1) * (s + 1)) by (nonlinear_arith)
                requires s == r && x < (r + 1) * (r + 1),
            ;
        }
    }
}

/// The bracketing property pins the root down uniquely.
pub proof fn lemma_sqrt_floor_unique(x: nat, r: nat)
    requires
        r * r <= x,
        x < (r + 1) * (r + 1),
    ensures
        r == sqrt_floor(x),
{
    let s = sqrt_floor(x);
    lemma_sqrt_floor_bracket(x);
    if r < s {
        assert((r + 1) * (r + 1) <= s * s) by (nonlinear_arith)
            requires r + 1 <= s,
        ;
    }
    if s < r {
        assert((s + 1) * (s + 1) <= r * r) by (nonlinear_arith)
            requires s + 1 <= r,
        ;
    }
}

/// Integer square root by binary search.
pub fn isqrt(x: u64) -> (r: u64)
    ensures
        r == sqrt_floor(x as nat),
        r * r <= x,
        x < (r + 1) * (r + 1),
{
    let mut lo: u64 = 0;
    let mut hi: u64 = 4294967296;
    proof {
        assert((hi * hi) as int > u64::MAX as int) by (nonlinear_arith)
            requires hi == 4294967296u64,
        ;
    }
    while lo + 1 < hi
        invariant
            lo < hi <= 4294967296,
            (lo * lo) as int <= x as int,
            (x as int) < (hi * hi) as int,
        decreases hi - lo,
    {
        let mid: u64 = lo + (hi - lo) / 2;
        proof {
            assert(mid as int * mid as int <= 4294967296int * 4294967296int) by (nonlinear_arith)
                requires 0 <= mid as int <= 4294967296int,
            ;
        }
        let sq: u128 = (mid as u128) * (mid as u128);
        if sq <= x as u128 {
            lo = mid;
        } else {
            hi = mid;
        }
    }
    proof {
        lemma_sqrt_floor_unique(x as nat, lo as nat);
    }
    lo
}

} // verus!
