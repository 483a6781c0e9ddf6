//! Decibel mapping: from a linear Q16.16 magnitude to a normalized
//! bar height in `[0, 1]` (Q16.16).
//!
//! The mapping is `clamp(20 * log10(m), dbmin, dbmax)` rescaled to
//! `[0, 1]`.  The logarithm is computed in fixed point: the argument
//! is normalized into `[1, 2)` by doublings and halvings (the integer
//! part of `log2`), then sixteen squaring steps extract the fraction
//! bits.  A zero magnitude stands for minus infinity and maps to
//! exactly zero.

use vstd::prelude::*;

verus! {

/// `20 * log10(2)` in Q16.16: converts a base-two logarithm to
/// decibels.
pub const DB_PER_OCTAVE: u64 = 394566;

/// `16 * DB_PER_OCTAVE`: the decibel offset that cancels the Q16.16
/// scale of the magnitude (`log2` of `2^16`).
pub const DB_SCALE_OFFSET: i64 = 6313056;

/// Most negative decibel bound the mapper accepts (machine limit: it
/// keeps the rescaling arithmetic inside 64 bits).
pub const DB_BOUND: i64 = 137438953472;

/// Halve `y` until it is below `2^17`, counting the steps.
pub open spec fn norm_shrink(y: int) -> (int, int)
    decreases y,
{
    if y >= 131072 {
        let (z, s) = norm_shrink(y / 2);
        (z, s + 1)
    } else {
        (y, 0)
    }
}

/// Double `y` until it reaches `2^16`, counting the steps.
pub open spec fn norm_grow(y: int) -> (int, int)
    decreases 131072 - y,
{
    if 1 <= y < 65536 {
        let (z, s) = norm_grow(2 * y);
        (z, s + 1)
    } else {
        (y, 0)
    }
}

/// One fraction step: square the normalized mantissa; if it leaves
/// `[1, 2)` the next fraction bit is one and it is halved back.
pub open spec fn frac_step(y: int) -> (int, int) {
    let sq = (y * y) / 65536;
    if sq >= 131072 {
        (sq / 2, 1)
    } else {
        (sq, 0)
    }
}

/// Mantissa and accumulated fraction bits after `k` squaring steps.
pub open spec fn frac_iter(y: int, k: nat) -> (int, int)
    decreases k,
{
    if k == 0 {
        (y, 0)
    } else {
        let (y1, a1) = frac_iter(y, (k - 1) as nat);
        let (y2, b) = frac_step(y1);
        (y2, 2 * a1 + b)
    }
}

/// `log2(m) + 16` in Q16.16, for `m >= 1`: always nonnegative because
/// a positive integer magnitude is at least `2^-16` in real value.
pub open spec fn log2_offset_spec(m: int) -> int {
    let (y1, up) = norm_shrink(m);
    let (y2, down) = norm_grow(y1);
    let (y3, frac) = frac_iter(y2, 16);
    (16 + up - down) * 65536 + frac
}

/// Decibel value of a magnitude with offset logarithm `lpos`.
pub open spec fn db_of_log_spec(lpos: int) -> int {
    (lpos * DB_PER_OCTAVE) / 65536 - DB_SCALE_OFFSET
}

/// Clamp a decibel value to `[dbmin, dbmax]` and rescale to Q16.16
/// `[0, 1]`; both bounds saturate inclusively.
pub open spec fn db_norm_spec(db: int, dbmin: int, dbmax: int) -> int {
    if db <= dbmin {
        0
    } else if db >= dbmax {
        65536
    } else {
        ((db - dbmin) * 65536) / (dbmax - dbmin)
    }
}

/// The whole mapping from a linear Q16.16 magnitude to the normalized
/// bar height; zero magnitude is minus infinity and gives exactly 0.
pub open spec fn bar_norm_spec(mag: int, dbmin: int, dbmax: int) -> int {
    if mag <= 0 {
        0
    } else {
        db_norm_spec(db_of_log_spec(log2_offset_spec(mag)), dbmin, dbmax)
    }
}

/// Shrinking keeps the value at least one, lands below `2^17`, and
/// never shrinks a value that is already in range.
proof fn lemma_norm_shrink(y: int)
    requires
        y >= 1,
    ensures
        1 <= norm_shrink(y).0 < 131072,
        norm_shrink(y).1 >= 0,
        y >= 65536 ==> norm_shrink(y).0 >= 65536,
    decreases y,
{
    if y >= 131072 {
        lemma_norm_shrink(y / 2);
    }
}

/// Growing lands in `[2^16, 2^17)` within sixteen steps, and the
/// mantissa is the input scaled by an exact power of two.
proof fn lemma_norm_grow(y: int)
    requires
        1 <= y < 131072,
    ensures
        65536 <= norm_grow(y).0 < 131072,
        0 <= norm_grow(y).1 <= 16,
        y >= 65536 ==> norm_grow(y).1 == 0,
        norm_grow(y).0 == y * pow2_spec(norm_grow(y).1),
    decreases 131072 - y,
{
    if 1 <= y < 65536 {
        lemma_norm_grow(2 * y);
        assert(pow2_spec(0) == 1);
        assert(pow2_spec(1) == 2);
        lemma_norm_grow_steps(2 * y, 1);
        let s = norm_grow(2 * y).1;
        assert(pow2_spec(s + 1) == 2 * pow2_spec(s));
        assert((2 * y) * pow2_spec(s) == y * (2 * pow2_spec(s))) by (nonlinear_arith);
    } else {
        assert(pow2_spec(0) == 1);
        assert(y * 1 == y) by (nonlinear_arith);
    }
}

/// If `y >= 2^k` then growing takes at most `16 - k` steps.
proof fn lemma_norm_grow_steps(y: int, k: int)
    requires
        0 <= k <= 16,
        y >= pow2_spec(k),
    ensures
        norm_grow(y).1 <= 16 - k,
    decreases 131072 - y,
{
    pow2_positive(k);
    if 1 <= y < 65536 {
        if k < 16 {
            assert(2 * y >= pow2_spec(k + 1));
            lemma_norm_grow_steps(2 * y, k + 1);
        } else {
            assert(pow2_spec(16) == 65536) by {
                pow2_value_16();
            }
        }
    }
}

/// `2^k` for small nonnegative `k`.
pub open spec fn pow2_spec(k: int) -> int
    decreases k,
{
    if k <= 0 {
        1
    } else {
        2 * pow2_spec(k - 1)
    }
}

proof fn pow2_positive(k: int)
    ensures
        pow2_spec(k) >= 1,
    decreases k,
{
    if k > 0 {
        pow2_positive(k - 1);
    }
}

proof fn pow2_value_16()
    ensures
        pow2_spec(16) == 65536,
{
    reveal_with_fuel(pow2_spec, 17);
}

proof fn pow2_value_47()
    ensures
        pow2_spec(47) == 140737488355328,
{
    reveal_with_fuel(pow2_spec, 48);
}

/// For a magnitude below `2^63` the shrink phase takes at most 47
/// steps.
proof fn lemma_shrink_steps_47(m: int)
    requires
        1 <= m < 0x8000000000000000,
    ensures
        norm_shrink(m).1 <= 47,
{
    pow2_value_47();
    assert(131072 * pow2_spec(47) == 18446744073709551616int) by (nonlinear_arith)
        requires pow2_spec(47) == 140737488355328,
    ;
    lemma_norm_shrink_steps(m, 47);
}

/// A squaring step keeps the mantissa in `[2^16, 2^17)` and the bit
/// binary.
proof fn lemma_frac_step(y: int)
    requires
        65536 <= y < 131072,
    ensures
        65536 <= frac_step(y).0 < 131072,
        0 <= frac_step(y).1 <= 1,
{
    assert(65536 <= (y * y) / 65536 < 262144) by (nonlinear_arith)
        requires 65536 <= y < 131072,
    ;
}

/// All mantissas along the fraction extraction stay in range and the
/// accumulator stays below `2^k`.
proof fn lemma_frac_iter(y: int, k: nat)
    requires
        65536 <= y < 131072,
    ensures
        65536 <= frac_iter(y, k).0 < 131072,
        0 <= frac_iter(y, k).1 < pow2_spec(k as int),
    decreases k,
{
    if k == 0 {
    } else {
        lemma_frac_iter(y, (k - 1) as nat);
        lemma_frac_step(frac_iter(y, (k - 1) as nat).0);
    }
}

/// Range of the offset logarithm: for `1 <= m < 2^63` it lies in
/// `[0, 64 * 2^16)`.
pub proof fn lemma_log2_offset_range(m: int)
    requires
        1 <= m < 0x8000000000000000,
    ensures
        0 <= log2_offset_spec(m) < 4194304,
{
    lemma_norm_shrink(m);
    let (y1, up) = norm_shrink(m);
    lemma_norm_grow(y1);
    let (y2, down) = norm_grow(y1);
    lemma_frac_iter(y2, 16);
    pow2_value_16();
    if y1 >= 65536 {
        assert(down == 0);
    }
    lemma_shrink_steps_47(m);
    assert((16 + up - down) * 65536 <= 63 * 65536 && (16 + up - down) * 65536 >= 0)
        by (nonlinear_arith)
        requires 0 <= 16 + up - down <= 63,
    ;
}

/// Shrinking a value below `2^(17 + k)` takes at most `k` steps.
proof fn lemma_norm_shrink_steps(y: int, k: int)
    requires
        k >= 0,
        y < 131072 * pow2_spec(k),
    ensures
        norm_shrink(y).1 <= k,
    decreases y,
{
    pow2_positive(k);
    if y >= 131072 {
        assert(k >= 1);
        assert(y / 2 < 131072 * pow2_spec(k - 1)) by (nonlinear_arith)
            requires
                y < 131072 * pow2_spec(k) && pow2_spec(k) == 2 * pow2_spec(k - 1) && y >= 131072,
        ;
        lemma_norm_shrink_steps(y / 2, k - 1);
    }
}

/// Saturation of the decibel mapping: magnitudes whose decibel value
/// reaches `dbmax` give exactly one, those at or below `dbmin` give
/// exactly zero, and a zero magnitude gives exactly zero.
pub proof fn lemma_db_saturates(mag: int, dbmin: int, dbmax: int)
    requires
        dbmin < dbmax,
    ensures
        mag <= 0 ==> bar_norm_spec(mag, dbmin, dbmax) == 0,
        mag > 0 && db_of_log_spec(log2_offset_spec(mag)) >= dbmax ==> bar_norm_spec(
            mag,
            dbmin,
            dbmax,
        ) == 65536,
        mag > 0 && db_of_log_spec(log2_offset_spec(mag)) <= dbmin ==> bar_norm_spec(
            mag,
            dbmin,
            dbmax,
        ) == 0,
{
}

/// The normalized value always lies in `[0, 1]` in Q16.16.
pub proof fn lemma_bar_norm_range(mag: int, dbmin: int, dbmax: int)
    requires
        dbmin < dbmax,
    ensures
        0 <= bar_norm_spec(mag, dbmin, dbmax) <= 65536,
{
    if mag > 0 {
        let db = db_of_log_spec(log2_offset_spec(mag));
        if dbmin < db < dbmax {
            assert(0 <= ((db - dbmin) * 65536) / (dbmax - dbmin) <= 65536) by (nonlinear_arith)
                requires dbmin < db < dbmax,
            ;
        }
    }
}

/// Map one magnitude to its normalized bar height.
pub fn bar_norm(mag: u64, dbmin: i64, dbmax: i64) -> (r: u64)
    requires
        -DB_BOUND <= dbmin < dbmax <= 0,
        mag < 0x8000000000000000,
    ensures
        r == bar_norm_spec(mag as int, dbmin as int, dbmax as int),
        r <= 65536,
{
    if mag == 0 {
        return 0;
    }
    proof {
        lemma_log2_offset_range(mag as int);
        lemma_shrink_steps_47(mag as int);
        lemma_norm_shrink(mag as int);
    }
    let mut y: u64 = mag;
    let mut up: u64 = 0;
    while y >= 131072
        invariant
            y >= 1,
            norm_shrink(mag as int).0 == norm_shrink(y as int).0,
            norm_shrink(mag as int).1 == up + norm_shrink(y as int).1,
            norm_shrink(mag as int).1 <= 47,
            norm_shrink(y as int).1 >= 0,
            up <= 47,
        decreases y,
    {
        proof {
            lemma_norm_shrink((y / 2) as int);
        }
        y = y / 2;
        up = up + 1;
    }
    let mut down: u64 = 0;
    proof {
        lemma_norm_shrink(mag as int);
        lemma_norm_grow(y as int);
    }
    let y_mid: Ghost<int> = Ghost(y as int);
    while y < 65536
        invariant
            1 <= y < 131072,
            norm_grow(y_mid@).0 == norm_grow(y as int).0,
            norm_grow(y_mid@).1 == down + norm_grow(y as int).1,
            norm_grow(y_mid@).1 <= 16,
            down <= 16,
        decreases 131072 - y,
    {
        proof {
            lemma_norm_grow(y as int);
            lemma_norm_grow((2 * y) as int);
        }
        y = 2 * y;
        down = down + 1;
    }
    let y_norm: Ghost<int> = Ghost(y as int);
    proof {
        lemma_norm_grow(y_mid@);
    }
    let mut acc: u64 = 0;
    let mut i: u64 = 0;
    while i < 16
        invariant
            0 <= i <= 16,
            65536 <= y < 131072,
            frac_iter(y_norm@, i as nat).0 == y as int,
            frac_iter(y_norm@, i as nat).1 == acc as int,
            acc < 65536,
            65536 <= y_norm@ < 131072,
        decreases 16 - i,
    {
        proof {
            lemma_frac_iter(y_norm@, i as nat);
            lemma_frac_step(y as int);
            assert((y as int) * (y as int) < 131072int * 131072int) by (nonlinear_arith)
                requires (y as int) < 131072,
            ;
            assert(frac_iter(y_norm@, (i + 1) as nat).0 == frac_step(y as int).0);
            assert(frac_iter(y_norm@, (i + 1) as nat).1 == 2 * (acc as int) + frac_step(
                y as int,
            ).1);
            lemma_frac_iter(y_norm@, (i + 1) as nat);
            pow2_value_16();
            lemma_pow2_mono(i as int + 1, 16);
        }
        let sq: u64 = (y * y) / 65536;
        if sq >= 131072 {
            y = sq / 2;
            acc = 2 * acc + 1;
        } else {
            y = sq;
            acc = 2 * acc;
        }
        i = i + 1;
    }
    let lpos: u64 = (16 + up - down) * 65536 + acc;
    proof {
        assert(lpos as int == log2_offset_spec(mag as int));
        assert(lpos * DB_PER_OCTAVE <= 4194304u64 * 394566u64) by (nonlinear_arith)
            requires lpos < 4194304u64 && DB_PER_OCTAVE == 394566u64,
        ;
    }
    let t: u64 = (lpos * DB_PER_OCTAVE) / 65536;
    proof {
        assert(t <= 4194304u64 * 394566u64) by (nonlinear_arith)
            requires lpos * DB_PER_OCTAVE <= 4194304u64 * 394566u64 && t == (lpos
                * DB_PER_OCTAVE) / 65536,
        ;
    }
    let db: i64 = (t as i64) - DB_SCALE_OFFSET;
    if db <= dbmin {
        0
    } else if db >= dbmax {
        65536
    } else {
        let num: u64 = ((db - dbmin) as u64) * 65536;
        let den: u64 = (dbmax - dbmin) as u64;
        let r: u64 = num / den;
        proof {
            assert(((db - dbmin) * 65536) / (dbmax - dbmin) < 65536) by (nonlinear_arith)
                requires dbmin < db < dbmax,
            ;
            assert(((db - dbmin) * 65536) / (dbmax - dbmin) >= 0) by (nonlinear_arith)
                requires dbmin < db < dbmax,
            ;
        }
        r
    }
}

proof fn lemma_pow2_mono(a: int, b: int)
    requires
        a <= b,
    ensures
        pow2_spec(a) <= pow2_spec(b),
    decreases b - a,
{
    if a < b {
        lemma_pow2_mono(a, b - 1);
        pow2_positive(b - 1);
    }
}

proof fn lemma_pow2_strict(a: int, b: int)
    requires
        a < b,
        a >= 0,
    ensures
        2 * pow2_spec(a) <= pow2_spec(b),
    decreases b - a,
{
    if a + 1 < b {
        lemma_pow2_strict(a, b - 1);
        pow2_positive(b - 1);
    }
}

/// The shrink phase computes a floored scaling: the result and count
/// bracket the input between consecutive multiples of `2^up`.
proof fn lemma_shrink_char(m: int)
    requires
        m >= 1,
    ensures
        norm_shrink(m).0 * pow2_spec(norm_shrink(m).1) <= m,
        m < (norm_shrink(m).0 + 1) * pow2_spec(norm_shrink(m).1),
    decreases m,
{
    if m >= 131072 {
        lemma_shrink_char(m / 2);
        let z = norm_shrink(m / 2).0;
        let s = norm_shrink(m / 2).1;
        lemma_norm_shrink(m / 2);
        assert(pow2_spec(s + 1) == 2 * pow2_spec(s));
        assert(z * (2 * pow2_spec(s)) <= m && m < (z + 1) * (2 * pow2_spec(s)))
            by (nonlinear_arith)
            requires
                z * pow2_spec(s) <= m / 2,
                m / 2 < (z + 1) * pow2_spec(s),
                2 * (m / 2) <= m < 2 * (m / 2) + 2,
        ;
    } else {
        assert(pow2_spec(0) == 1);
        assert(m * 1 == m && (m + 1) * 1 == m + 1) by (nonlinear_arith);
    }
}

/// Joint characterization of the two normalization phases: exactly
/// one of them runs, the mantissa lands in `[2^16, 2^17)`, and it
/// brackets the input scaled by the net power of two.
proof fn lemma_norm_char(m: int)
    requires
        1 <= m < 0x8000000000000000,
    ensures
        ({
            let (y1, up) = norm_shrink(m);
            let (y, down) = norm_grow(y1);
            &&& up == 0 || down == 0
            &&& 65536 <= y < 131072
            &&& y * pow2_spec(up) <= m * pow2_spec(down)
            &&& m * pow2_spec(down) < (y + 1) * pow2_spec(up)
        }),
{
    lemma_norm_shrink(m);
    lemma_shrink_char(m);
    let y1 = norm_shrink(m).0;
    let up = norm_shrink(m).1;
    lemma_norm_grow(y1);
    let y = norm_grow(y1).0;
    let down = norm_grow(y1).1;
    if up > 0 {
        // the shrink loop only runs on values at least 2^17, whose
        // floored halvings stay at or above 2^16
        assert(y1 >= 65536);
        assert(down == 0);
        assert(pow2_spec(0) == 1);
        assert(y == y1 && m * 1 == m) by (nonlinear_arith)
            requires y == y1 * pow2_spec(0) && pow2_spec(0) == 1,
        ;
    } else {
        assert(pow2_spec(0) == 1);
        assert(y1 * 1 == y1) by (nonlinear_arith);
        // growing scales exactly: y == y1 * 2^down, so the bracket on
        // m (trivial at up == 0) scales to the mantissa
        assert(y <= m * pow2_spec(down) && m * pow2_spec(down) < y + 1) by (nonlinear_arith)
            requires y == y1 * pow2_spec(down) && y1 == m,
        ;
    }
}

/// The fraction extraction is monotone: a larger mantissa never
/// yields smaller fraction bits, and on equal bits the mantissas stay
/// ordered.
proof fn lemma_frac_mono(ya: int, yb: int, k: nat)
    requires
        65536 <= ya <= yb < 131072,
    ensures
        frac_iter(ya, k).1 <= frac_iter(yb, k).1,
        frac_iter(ya, k).1 == frac_iter(yb, k).1 ==> frac_iter(ya, k).0 <= frac_iter(yb, k).0,
    decreases k,
{
    if k > 0 {
        lemma_frac_mono(ya, yb, (k - 1) as nat);
        let ma = frac_iter(ya, (k - 1) as nat).0;
        let mb = frac_iter(yb, (k - 1) as nat).0;
        let aa = frac_iter(ya, (k - 1) as nat).1;
        let ab = frac_iter(yb, (k - 1) as nat).1;
        lemma_frac_iter(ya, (k - 1) as nat);
        lemma_frac_iter(yb, (k - 1) as nat);
        lemma_frac_step(ma);
        lemma_frac_step(mb);
        if aa == ab {
            assert((ma * ma) / 65536 <= (mb * mb) / 65536) by (nonlinear_arith)
                requires 0 <= ma <= mb,
            ;
            assert((ma * ma) / 65536 / 2 <= (mb * mb) / 65536 / 2) by (nonlinear_arith)
                requires (ma * ma) / 65536 <= (mb * mb) / 65536,
            ;
        }
    }
}

/// The offset logarithm is monotone in the magnitude.
pub proof fn lemma_log2_offset_mono(ma: int, mb: int)
    requires
        1 <= ma <= mb < 0x8000000000000000,
    ensures
        log2_offset_spec(ma) <= log2_offset_spec(mb),
{
    lemma_norm_char(ma);
    lemma_norm_char(mb);
    let (v1, upa) = norm_shrink(ma);
    let (ya, downa) = norm_grow(v1);
    let (v2, upb) = norm_shrink(mb);
    let (yb, downb) = norm_grow(v2);
    lemma_norm_shrink(ma);
    lemma_norm_shrink(mb);
    lemma_norm_grow(v1);
    lemma_norm_grow(v2);
    lemma_frac_iter(ya, 16);
    lemma_frac_iter(yb, 16);
    pow2_value_16();
    let ea = upa - downa;
    let eb = upb - downb;
    // scaling both brackets to a common denominator shows the net
    // exponents are ordered with the magnitudes
    pow2_positive(upa);
    pow2_positive(upb);
    pow2_positive(downa);
    pow2_positive(downb);
    assert(pow2_spec(upa) * pow2_spec(downb) < 2 * (pow2_spec(upb) * pow2_spec(downa)))
        by (nonlinear_arith)
        requires
            65536 <= ya,
            yb + 1 <= 2 * 65536,
            ya * pow2_spec(upa) <= ma * pow2_spec(downa),
            mb * pow2_spec(downb) < (yb + 1) * pow2_spec(upb),
            ma <= mb,
            pow2_spec(upa) > 0,
            pow2_spec(upb) > 0,
            pow2_spec(downa) > 0,
            pow2_spec(downb) > 0,
            ma >= 1,
    ;
    lemma_pow2_sum(upa, downb);
    lemma_pow2_sum(upb, downa);
    if ea > eb {
        // then upa + downb >= upb + downa + 1, so the left power is at
        // least twice the right one: contradiction
        lemma_pow2_strict(upb + downa, upa + downb);
        assert(2 * (pow2_spec(upb) * pow2_spec(downa)) == 2 * pow2_spec(upb + downa));
        assert(pow2_spec(upa) * pow2_spec(downb) == pow2_spec(upa + downb));
        assert(false);
    }
    if ea == eb {
        // equal exponents: the mantissa brackets overlap only in order
        assert(upa + downb == upb + downa);
        assert(ya < yb + 1) by (nonlinear_arith)
            requires
                ya * pow2_spec(upa) <= ma * pow2_spec(downa),
                mb * pow2_spec(downb) < (yb + 1) * pow2_spec(upb),
                ma <= mb,
                pow2_spec(upa) * pow2_spec(downb) == pow2_spec(upa + downb),
                pow2_spec(upb) * pow2_spec(downa) == pow2_spec(upb + downa),
                pow2_spec(upa + downb) == pow2_spec(upb + downa),
                pow2_spec(upa) > 0,
                pow2_spec(upb) > 0,
                pow2_spec(downa) > 0,
                pow2_spec(downb) > 0,
                ma >= 1,
                mb >= 1,
        ;
        lemma_frac_mono(ya, yb, 16);
    } else {
        // ea < eb: a whole octave separates the terms and the
        // fraction is below one
        assert((16 + ea) * 65536 + 65536 <= (16 + eb) * 65536) by (nonlinear_arith)
            requires ea + 1 <= eb,
        ;
    }
}

proof fn lemma_pow2_sum(a: int, b: int)
    requires
        a >= 0,
        b >= 0,
    ensures
        pow2_spec(a) * pow2_spec(b) == pow2_spec(a + b),
    decreases b,
{
    if b == 0 {
        assert(pow2_spec(0) == 1);
        assert(pow2_spec(a) * 1 == pow2_spec(a)) by (nonlinear_arith);
    } else {
        lemma_pow2_sum(a, b - 1);
        assert(pow2_spec(a) * (2 * pow2_spec(b - 1)) == 2 * (pow2_spec(a) * pow2_spec(b - 1)))
            by (nonlinear_arith);
    }
}

/// The whole decibel mapping is monotone in the linear magnitude.
pub proof fn lemma_bar_norm_mono(ma: int, mb: int, dbmin: int, dbmax: int)
    requires
        0 <= ma <= mb < 0x8000000000000000,
        dbmin < dbmax,
    ensures
        bar_norm_spec(ma, dbmin, dbmax) <= bar_norm_spec(mb, dbmin, dbmax),
{
    lemma_bar_norm_range(ma, dbmin, dbmax);
    lemma_bar_norm_range(mb, dbmin, dbmax);
    if ma > 0 {
        lemma_log2_offset_mono(ma, mb);
        let la = log2_offset_spec(ma);
        let lb = log2_offset_spec(mb);
        assert((la * DB_PER_OCTAVE) / 65536 <= (lb * DB_PER_OCTAVE) / 65536) by (nonlinear_arith)
            requires la <= lb && DB_PER_OCTAVE == 394566u64,
        ;
        let dba = db_of_log_spec(la);
        let dbb = db_of_log_spec(lb);
        if dbmin < dba < dbmax && dbmin < dbb < dbmax {
            assert(((dba - dbmin) * 65536) / (dbmax - dbmin) <= ((dbb - dbmin) * 65536) / (dbmax
                - dbmin)) by (nonlinear_arith)
                requires dba <= dbb && dbmin < dbmax,
            ;
        }
    }
}

/// The saturation boundaries transfer along monotonicity: anything at
/// or above a magnitude that reaches `dbmax` maps to exactly one, and
/// anything at or below a magnitude that stays at or under `dbmin`
/// (zero included) maps to exactly zero.
pub proof fn lemma_db_mapping_boundary(m: int, m_ref: int, dbmin: int, dbmax: int)
    requires
        dbmin < dbmax,
        0 <= m < 0x8000000000000000,
        0 <= m_ref < 0x8000000000000000,
    ensures
        m >= m_ref && bar_norm_spec(m_ref, dbmin, dbmax) == 65536 ==> bar_norm_spec(
            m,
            dbmin,
            dbmax,
        ) == 65536,
        m <= m_ref && bar_norm_spec(m_ref, dbmin, dbmax) == 0 ==> bar_norm_spec(m, dbmin, dbmax)
            == 0,
{
    if m >= m_ref {
        lemma_bar_norm_mono(m_ref, m, dbmin, dbmax);
        lemma_bar_norm_range(m, dbmin, dbmax);
    } else {
        lemma_bar_norm_mono(m, m_ref, dbmin, dbmax);
        lemma_bar_norm_range(m, dbmin, dbmax);
    }
}

} // verus!
