//! Analysis-window coefficient tables.
//!
//! Two variants are supported: the half-sine window (`w[n] =
//! sin(n/N * pi)`, the shape the downstream decibel calibration
//! assumes) and the canonical three-term Blackman window.  The
//! trigonometric factors are evaluated in Q16.16 with a quadratic
//! approximation of the sine that is exact at the endpoints and
//! exactly symmetric, so the window properties below (first
//! coefficient zero, mirror symmetry) hold as integer identities.

use vstd::prelude::*;

verus! {

/// Largest supported transform length.
pub const MAX_N: usize = 1048576;

/// Blackman term weights in Q16.16: approximately 0.42, 0.5 and 0.08.
/// They are calibrated so that `A0 - A1 + A2` is exactly zero, which
/// makes the first Blackman coefficient vanish exactly.
pub const BLACKMAN_A0: u64 = 27525;

/// Second Blackman term weight (0.5 in Q16.16).
pub const BLACKMAN_A1: u64 = 32768;

/// Third Blackman term weight (approximately 0.08 in Q16.16).
pub const BLACKMAN_A2: u64 = 5243;

/// Which analysis window a pipeline applies.
#[derive(Clone, Copy, PartialEq, Eq, Structural, Debug)]
pub enum WindowKind {
    /// Half-sine window: `w[n] = sin(n/N * pi)`.
    Hann,
    /// Canonical Blackman window.
    Blackman,
}

/// Q16.16 approximation of `sin(pi * num / den)` for `0 <= num <= den`:
/// the symmetric parabola `4 * num * (den - num) / den^2`, scaled.
/// It is zero exactly at both endpoints and exactly one at the middle.
pub open spec fn sin_half_spec(num: int, den: int) -> int {
    (4 * 65536 * num * (den - num)) / (den * den)
}

/// Q16.16 value of `1 + cos(pi * m / den)` for `0 <= m <= 2 * den`,
/// through the identity `1 + cos(t) = 2 - 2 * sin(t / 2)^2`.
pub open spec fn cos1_spec(m: int, den: int) -> int {
    let s = sin_half_spec(m, 2 * den);
    2 * 65536 - (2 * (s * s)) / 65536
}

/// Reduce a phase in `[0, 4 * den)` into the period `[0, 2 * den)`.
pub open spec fn fold_phase(m: int, den: int) -> int {
    if m < 2 * den {
        m
    } else {
        m - 2 * den
    }
}

/// Half-sine window coefficient `i` of `n`, in Q16.16.
pub open spec fn hann_coef_spec(i: int, n: int) -> int {
    sin_half_spec(i, n)
}

/// Blackman window coefficient `i` of `n`, in Q16.16:
/// `A0 - A1 * cos(2 pi i / n) + A2 * cos(4 pi i / n)`, rewritten over
/// the nonnegative `1 + cos` form so that every division is on
/// nonnegative operands.
pub open spec fn blackman_coef_spec(i: int, n: int) -> int {
    let c1 = cos1_spec(2 * i, n);
    let c2 = cos1_spec(fold_phase(4 * i, n), n);
    (BLACKMAN_A0 + BLACKMAN_A1 - BLACKMAN_A2) + (BLACKMAN_A2 * c2) / 65536 - (BLACKMAN_A1 * c1)
        / 65536
}

/// Coefficient of the selected window variant.
pub open spec fn window_coef_spec(kind: WindowKind, i: int, n: int) -> int {
    match kind {
        WindowKind::Hann => hann_coef_spec(i, n),
        WindowKind::Blackman => blackman_coef_spec(i, n),
    }
}

/// Every coefficient of either window lies in this Q16.16 range.
pub open spec fn coef_in_range(c: int) -> bool {
    -65536 <= c <= 131072
}

fn sin_half(num: u64, den: u64) -> (r: u64)
    requires
        0 < den <= 2097152,
        num <= den,
    ensures
        r as int == sin_half_spec(num as int, den as int),
        r <= 65536,
{
    proof {
        assert(4 * 65536 * num <= 4 * 65536 * 2097152u64) by (nonlinear_arith)
            requires 0 <= num <= 2097152u64,
        ;
        assert(den * den <= 2097152u64 * 2097152u64) by (nonlinear_arith)
            requires 0 < den <= 2097152u64,
        ;
        assert(den * den > 0) by (nonlinear_arith)
            requires den > 0,
        ;
    }
    let a: u64 = 4 * 65536 * num;
    let b: u64 = den - num;
    let denom: u64 = den * den;
    proof {
        assert(a * b <= 65536 * denom && 65536 * denom <= 65536u64 * (2097152u64 * 2097152u64))
            by (nonlinear_arith)
            requires
                a == 4 * 65536 * num,
                b == den - num,
                denom == den * den,
                0 <= num <= den,
                den <= 2097152u64,
        ;
    }
    let numer: u64 = a * b;
    let r: u64 = numer / denom;
    proof {
        assert(numer / denom <= 65536) by (nonlinear_arith)
            requires numer <= 65536 * denom && denom > 0,
        ;
    }
    r
}

fn cos1(m: u64, den: u64) -> (r: u64)
    requires
        0 < den <= 1048576,
        m <= 2 * den,
    ensures
        r as int == cos1_spec(m as int, den as int),
        r <= 131072,
{
    let s: u64 = sin_half(m, 2 * den);
    proof {
        assert(s * s <= 65536u64 * 65536u64) by (nonlinear_arith)
            requires 0 <= s <= 65536u64,
        ;
        assert((2 * (s * s)) / 65536 <= 131072) by (nonlinear_arith)
            requires s * s <= 65536u64 * 65536u64,
        ;
    }
    2 * 65536 - (2 * (s * s)) / 65536
}

/// Fill `w` with the Blackman coefficient table for its length.
pub fn blackman_window(w: &mut Vec<i64>)
    requires
        0 < old(w).len() <= MAX_N,
    ensures
        final(w).len() == old(w).len(),
        forall|i: int|
            0 <= i < final(w).len() ==> final(w)@[i] == blackman_coef_spec(
                i,
                old(w).len() as int,
            ),
        forall|i: int| 0 <= i < final(w).len() ==> coef_in_range(final(w)@[i] as int),
{
    let n = w.len();
    let mut i: usize = 0;
    while i < n
        invariant
            0 < n <= MAX_N,
            i <= n,
            w.len() == n,
            forall|j: int| 0 <= j < i ==> w@[j] == blackman_coef_spec(j, n as int),
            forall|j: int| 0 <= j < i ==> coef_in_range(w@[j] as int),
        decreases n - i,
    {
        let iu: u64 = i as u64;
        let nu: u64 = n as u64;
        let c1: u64 = cos1(2 * iu, nu);
        let m2: u64 = if 4 * iu < 2 * nu {
            4 * iu
        } else {
            4 * iu - 2 * nu
        };
        let c2: u64 = cos1(m2, nu);
        proof {
            assert(BLACKMAN_A1 * c1 <= 32768u64 * 131072u64) by (nonlinear_arith)
                requires BLACKMAN_A1 == 32768u64 && c1 <= 131072u64,
            ;
            assert(BLACKMAN_A2 * c2 <= 5243u64 * 131072u64) by (nonlinear_arith)
                requires BLACKMAN_A2 == 5243u64 && c2 <= 131072u64,
            ;
            assert((BLACKMAN_A1 * c1) / 65536 <= 65536u64) by (nonlinear_arith)
                requires BLACKMAN_A1 * c1 <= 32768u64 * 131072u64,
            ;
            assert((BLACKMAN_A2 * c2) / 65536 <= 10486u64) by (nonlinear_arith)
                requires BLACKMAN_A2 * c2 <= 5243u64 * 131072u64,
            ;
        }
        let t1: u64 = (BLACKMAN_A1 * c1) / 65536;
        let t2: u64 = (BLACKMAN_A2 * c2) / 65536;
        let v: i64 = 55050 + (t2 as i64) - (t1 as i64);
        w[i] = v;
        i += 1;
    }
}

/// Fill `w` with the half-sine coefficient table for its length.
pub fn hann_window(w: &mut Vec<i64>)
    requires
        0 < old(w).len() <= MAX_N,
    ensures
        final(w).len() == old(w).len(),
        forall|i: int|
            0 <= i < final(w).len() ==> final(w)@[i] == hann_coef_spec(i, old(w).len() as int),
        forall|i: int| 0 <= i < final(w).len() ==> coef_in_range(final(w)@[i] as int),
{
    let n = w.len();
    let mut i: usize = 0;
    while i < n
        invariant
            0 < n <= MAX_N,
            i <= n,
            w.len() == n,
            forall|j: int| 0 <= j < i ==> w@[j] == hann_coef_spec(j, n as int),
            forall|j: int| 0 <= j < i ==> coef_in_range(w@[j] as int),
        decreases n - i,
    {
        let s: u64 = sin_half(i as u64, n as u64);
        w[i] = s as i64;
        i += 1;
    }
}

/// The half-sine window starts at exactly zero.
pub proof fn lemma_hann_first_zero(n: int)
    requires
        n > 0,
    ensures
        hann_coef_spec(0, n) == 0,
{
    assert(4 * 65536 * 0 * (n - 0) == 0) by (nonlinear_arith);
    assert(n * n >= 1) by (nonlinear_arith)
        requires n >= 1,
    ;
    assert(0int / (n * n) == 0) by (nonlinear_arith)
        requires n * n >= 1,
    ;
}

/// The parabolic sine is exactly mirror-symmetric on its half period.
pub proof fn lemma_sin_half_sym(a: int, den: int)
    requires
        0 <= a <= den,
        den > 0,
    ensures
        sin_half_spec(a, den) == sin_half_spec(den - a, den),
{
    assert(4 * 65536 * a * (den - a) == 4 * 65536 * (den - a) * (den - (den - a)))
        by (nonlinear_arith);
}

/// `1 + cos` is exactly symmetric about the middle of its period.
pub proof fn lemma_cos1_sym(m: int, den: int)
    requires
        0 <= m <= 2 * den,
        den > 0,
    ensures
        cos1_spec(m, den) == cos1_spec(2 * den - m, den),
{
    lemma_sin_half_sym(m, 2 * den);
}

/// The half-sine window is exactly symmetric: `w[k] == w[n - k]`.
pub proof fn lemma_hann_symmetric(k: int, n: int)
    requires
        0 <= k <= n,
        n > 0,
    ensures
        hann_coef_spec(k, n) == hann_coef_spec(n - k, n),
{
    lemma_sin_half_sym(k, n);
}

/// The off-by-one near symmetry of the half-sine window, made exact:
/// `w[k]` and `w[N-1-k]` are mirror neighbours, so they differ by at
/// most one sample step of the parabola — less than `4/N` of full
/// scale plus one rounding unit, stated multiplicatively so it stays
/// in integers.
pub proof fn lemma_hann_near_symmetric(k: int, n: int)
    requires
        0 <= k <= n - 1,
        n > 0,
    ensures
        -(4 * 65536 + n) <= n * (hann_coef_spec(k, n) - hann_coef_spec(n - 1 - k, n)),
        n * (hann_coef_spec(k, n) - hann_coef_spec(n - 1 - k, n)) <= 4 * 65536 + n,
{
    lemma_hann_symmetric(n - 1 - k, n);
    assert(hann_coef_spec(n - 1 - k, n) == hann_coef_spec(k + 1, n));
    assert(n * n > 0) by (nonlinear_arith)
        requires n > 0,
    ;
    let d = n * n;
    let a = 4 * 65536 * k * (n - k);
    let b = 4 * 65536 * (k + 1) * (n - (k + 1));
    vstd::arithmetic::div_mod::lemma_fundamental_div_mod(a, d);
    vstd::arithmetic::div_mod::lemma_fundamental_div_mod(b, d);
    vstd::arithmetic::div_mod::lemma_mod_division_less_than_divisor(a, d);
    vstd::arithmetic::div_mod::lemma_mod_division_less_than_divisor(b, d);
    assert(-(4 * 65536 * n) <= b - a <= 4 * 65536 * n) by (nonlinear_arith)
        requires
            a == 4 * 65536 * k * (n - k),
            b == 4 * 65536 * (k + 1) * (n - (k + 1)),
            0 <= k <= n - 1,
    ;
    assert(-(4 * 65536 + n) <= n * (a / d - b / d) && n * (a / d - b / d) <= 4 * 65536 + n)
        by (nonlinear_arith)
        requires
            a == d * (a / d) + a % d,
            b == d * (b / d) + b % d,
            0 <= a % d < d,
            0 <= b % d < d,
            -(4 * 65536 * n) <= b - a <= 4 * 65536 * n,
            d == n * n,
            n > 0,
    ;
}

/// The Blackman window starts at exactly zero: with the calibrated
/// Q16.16 weights, `A0 - A1 + A2` cancels without remainder.
pub proof fn lemma_blackman_first_zero(n: int)
    requires
        n > 0,
    ensures
        blackman_coef_spec(0, n) == 0,
{
    assert(4 * 65536 * 0 * (2 * n - 0) == 0) by (nonlinear_arith);
    assert((2 * n) * (2 * n) >= 1) by (nonlinear_arith)
        requires n >= 1,
    ;
    assert(0int / ((2 * n) * (2 * n)) == 0) by (nonlinear_arith)
        requires (2 * n) * (2 * n) >= 1,
    ;
    assert(sin_half_spec(0, 2 * n) == 0);
    assert(fold_phase(0, n) == 0);
    assert((2 * (0int * 0int)) / 65536 == 0) by (nonlinear_arith);
    assert(cos1_spec(0, n) == 131072);
    assert((BLACKMAN_A2 * 131072) / 65536 == 10486) by (nonlinear_arith)
        requires BLACKMAN_A2 == 5243u64,
    ;
    assert((BLACKMAN_A1 * 131072) / 65536 == 65536) by (nonlinear_arith)
        requires BLACKMAN_A1 == 32768u64,
    ;
}

/// The Blackman window is exactly symmetric: `w[k] == w[n - k]`.
pub proof fn lemma_blackman_symmetric(k: int, n: int)
    requires
        0 <= k <= n,
        n > 0,
    ensures
        blackman_coef_spec(k, n) == blackman_coef_spec(n - k, n),
{
    lemma_cos1_sym(2 * k, n);
    let mk = fold_phase(4 * k, n);
    let mr = fold_phase(4 * (n - k), n);
    if 4 * k < 2 * n {
        if 4 * (n - k) < 2 * n {
            // both phases already reduced; they are mirror images only
            // when they coincide at the quarter points
            assert(4 * k + 4 * (n - k) == 4 * n);
            assert(false);
        } else {
            assert(mr == 4 * n - 4 * k - 2 * n);
            assert(mk + mr == 2 * n);
            lemma_cos1_sym(mk, n);
        }
    } else {
        if 4 * (n - k) < 2 * n {
            assert(mk == 4 * k - 2 * n);
            assert(mk + mr == 2 * n);
            lemma_cos1_sym(mk, n);
        } else {
            // only possible when both reduced phases are zero
            assert(4 * k >= 2 * n && 4 * (n - k) >= 2 * n);
            assert(4 * k == 2 * n);
            assert(mk == 0 && mr == 0);
        }
    }
}

} // verus!
