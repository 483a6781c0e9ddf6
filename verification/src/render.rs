//! Render-side pipeline: per-bin magnitude normalization, exponential
//! smoothing across frames, decibel mapping, and bar geometry.
//!
//! Per bin and per frame: the complex bin's magnitude is divided by
//! the transform length, fed through the exponential moving average
//! `s' = stc * s + (1 - stc) * m`, mapped to decibels, clamped and
//! rescaled, and turned into one mirrored bar rectangle.  All of it
//! is Q16.16 integer arithmetic with exact contracts; the lemmas
//! state the smoother's convergence behaviour.

use vstd::prelude::*;

use crate::db::{bar_norm, bar_norm_spec, DB_BOUND};
use crate::fixed::{isqrt, sqrt_floor, FP_LIMIT};
use crate::utils::{Color, Rect};
use crate::window::MAX_N;

verus! {

/// Largest smoothed magnitude the renderer tracks; magnitudes are
/// normalized by the transform length and stay far below this.
pub const INTERP_LIMIT: i64 = 4294967296;

/// One exponential smoothing step with time constant `stc` (Q16.16):
/// `(stc * prev + (1 - stc) * mag)`, floored.
pub open spec fn smooth_step_spec(stc: int, prev: int, mag: int) -> int {
    (stc * prev + (65536 - stc) * mag) / 65536
}

/// The smoothed value after `k` frames of constant magnitude `mag`,
/// starting from `start`.
pub open spec fn smooth_iter_spec(stc: int, start: int, mag: int, k: nat) -> int
    decreases k,
{
    if k == 0 {
        start
    } else {
        smooth_step_spec(stc, smooth_iter_spec(stc, start, mag, (k - 1) as nat), mag)
    }
}

/// Magnitude of one complex bin normalized by the transform length.
pub open spec fn bin_mag_spec(re: int, im: int, n: int) -> int {
    (sqrt_floor((re * re + im * im) as nat) as int) / n
}

/// Every bin of a frame lies within the fixed-point range the
/// magnitude computation accepts.
pub open spec fn bins_bounded(s: Seq<(i64, i64)>) -> bool {
    forall|j: int|
        0 <= j < s.len() ==> -FP_LIMIT <= (#[trigger] s[j]).0 <= FP_LIMIT && -FP_LIMIT <= s[j].1
            <= FP_LIMIT
}

/// From below, one smoothing step never falls and never overshoots
/// the input magnitude.
pub proof fn lemma_smooth_rises(stc: int, prev: int, mag: int)
    requires
        0 <= stc < 65536,
        0 <= prev <= mag,
    ensures
        prev <= smooth_step_spec(stc, prev, mag) <= mag,
{
    assert(prev <= (stc * prev + (65536 - stc) * mag) / 65536 <= mag) by (nonlinear_arith)
        requires 0 <= stc < 65536 && 0 <= prev <= mag,
    ;
}

/// From above, one smoothing step never rises and never undershoots
/// the input magnitude.
pub proof fn lemma_smooth_falls(stc: int, prev: int, mag: int)
    requires
        0 <= stc < 65536,
        0 <= mag <= prev,
    ensures
        mag <= smooth_step_spec(stc, prev, mag) <= prev,
{
    assert(mag <= (stc * prev + (65536 - stc) * mag) / 65536 <= prev) by (nonlinear_arith)
        requires 0 <= stc < 65536 && 0 <= mag <= prev,
    ;
}

/// On silence, a positive smoothed value strictly decreases.
pub proof fn lemma_smooth_zero_strict(stc: int, prev: int)
    requires
        0 <= stc < 65536,
        prev >= 1,
    ensures
        0 <= smooth_step_spec(stc, prev, 0) < prev,
{
    assert(0 <= (stc * prev + (65536 - stc) * 0) / 65536 < prev) by (nonlinear_arith)
        requires 0 <= stc < 65536 && prev >= 1,
    ;
}

/// Held at a constant magnitude from below, the smoothed sequence is
/// monotone nondecreasing and never overshoots the magnitude.
pub proof fn lemma_smoother_converges(stc: int, start: int, mag: int, k: nat)
    requires
        0 <= stc < 65536,
        0 <= start <= mag,
    ensures
        start <= smooth_iter_spec(stc, start, mag, k),
        smooth_iter_spec(stc, start, mag, k) <= mag,
        smooth_iter_spec(stc, start, mag, k) <= smooth_iter_spec(stc, start, mag, (k + 1) as nat),
        smooth_iter_spec(stc, start, mag, (k + 1) as nat) <= mag,
    decreases k,
{
    if k == 0 {
        lemma_smooth_rises(stc, start, mag);
    } else {
        lemma_smoother_converges(stc, start, mag, (k - 1) as nat);
        lemma_smooth_rises(stc, smooth_iter_spec(stc, start, mag, k), mag);
    }
}

/// The exact fixed-point form of geometric convergence: one step
/// closes the gap to the held magnitude to `stc` times the old gap,
/// rounded up to the next Q16.16 unit.
pub proof fn lemma_smooth_geometric(stc: int, prev: int, mag: int)
    requires
        0 <= stc <= 65536,
        0 <= prev <= mag,
    ensures
        mag - smooth_step_spec(stc, prev, mag) == (stc * (mag - prev) + 65535) / 65536,
{
    assert(stc * prev + (65536 - stc) * mag == 65536 * mag - stc * (mag - prev))
        by (nonlinear_arith);
    assert(stc * (mag - prev) >= 0) by (nonlinear_arith)
        requires stc >= 0 && prev <= mag,
    ;
    let x = stc * (mag - prev);
    if x == 0 {
        assert((65536 * mag) / 65536 == mag) by (nonlinear_arith);
        assert(65535int / 65536 == 0);
    } else {
        let k = x / 65536;
        let s = x % 65536;
        vstd::arithmetic::div_mod::lemma_fundamental_div_mod(x, 65536);
        if s == 0 {
            assert((65536 * mag - x) / 65536 == mag - k) by (nonlinear_arith)
                requires x == 65536 * k,
            ;
            assert((x + 65535) / 65536 == k) by (nonlinear_arith)
                requires x == 65536 * k && x > 0,
            ;
        } else {
            assert((65536 * mag - x) / 65536 == mag - k - 1) by (nonlinear_arith)
                requires x == 65536 * k + s && 0 < s < 65536,
            ;
            assert((x + 65535) / 65536 == k + 1) by (nonlinear_arith)
                requires x == 65536 * k + s && 0 < s < 65536,
            ;
        }
    }
}

/// Unrolling the smoother from the front: `k` steps from `start` are
/// one step followed by `k - 1` steps.
proof fn lemma_smooth_iter_shift(stc: int, start: int, mag: int, k: nat)
    requires
        k >= 1,
    ensures
        smooth_iter_spec(stc, start, mag, k) == smooth_iter_spec(
            stc,
            smooth_step_spec(stc, start, mag),
            mag,
            (k - 1) as nat,
        ),
    decreases k,
{
    let s1 = smooth_step_spec(stc, start, mag);
    if k == 1 {
        assert(smooth_iter_spec(stc, start, mag, 1) == smooth_step_spec(
            stc,
            smooth_iter_spec(stc, start, mag, 0),
            mag,
        ));
        assert(smooth_iter_spec(stc, start, mag, 0) == start);
        assert(smooth_iter_spec(stc, s1, mag, 0) == s1);
    } else {
        lemma_smooth_iter_shift(stc, start, mag, (k - 1) as nat);
        assert(smooth_iter_spec(stc, start, mag, k) == smooth_step_spec(
            stc,
            smooth_iter_spec(stc, start, mag, (k - 1) as nat),
            mag,
        ));
        assert(smooth_iter_spec(stc, s1, mag, (k - 1) as nat) == smooth_step_spec(
            stc,
            smooth_iter_spec(stc, s1, mag, (k - 2) as nat),
            mag,
        ));
    }
}

/// Silence drives the smoothed value to exactly zero: the floored
/// average loses at least one unit per frame, so after `start` frames
/// of zero magnitude the state is exactly zero.
pub proof fn lemma_smoother_zeroes(stc: int, start: int, k: nat)
    requires
        0 <= stc < 65536,
        start >= 0,
        k >= start,
    ensures
        smooth_iter_spec(stc, start, 0, k) == 0,
    decreases start,
{
    if start == 0 {
        lemma_smooth_iter_zero_stays(stc, k);
    } else {
        lemma_smooth_zero_strict(stc, start);
        let s1 = smooth_step_spec(stc, start, 0);
        lemma_smooth_iter_shift(stc, start, 0, k);
        lemma_smoother_zeroes(stc, s1, (k - 1) as nat);
    }
}

/// Zero is a fixed point of the smoother.
proof fn lemma_smooth_iter_zero_stays(stc: int, k: nat)
    requires
        0 <= stc < 65536,
    ensures
        smooth_iter_spec(stc, 0, 0, k) == 0,
    decreases k,
{
    assert((stc * 0 + (65536 - stc) * 0) / 65536 == 0) by (nonlinear_arith)
        requires 0 <= stc < 65536,
    ;
    if k > 0 {
        lemma_smooth_iter_zero_stays(stc, (k - 1) as nat);
    }
}

/// A silent spectrum settles at the bottom of the scale: a zero bin
/// has zero magnitude, enough frames of it drive the smoothed state
/// to exactly zero, and zero maps to exactly the `dbmin` end of the
/// display range — a hard boundary, not an approximation.
pub proof fn lemma_silence_reaches_floor(
    stc: int,
    start: int,
    k: nat,
    n: int,
    dbmin: int,
    dbmax: int,
)
    requires
        0 <= stc < 65536,
        start >= 0,
        k >= start,
        n > 0,
        dbmin < dbmax,
    ensures
        bin_mag_spec(0, 0, n) == 0,
        smooth_iter_spec(stc, start, 0, k) == 0,
        bar_norm_spec(0, dbmin, dbmax) == 0,
{
    assert(0int * 0 + 0 * 0 == 0) by (nonlinear_arith);
    assert(sqrt_floor(0nat) == 0);
    assert(0int / n == 0) by (nonlinear_arith)
        requires n > 0,
    ;
    lemma_smoother_zeroes(stc, start, k);
}

/// One exponential smoothing step, executable.
pub fn smooth_step(stc: i64, prev: i64, mag: i64) -> (r: i64)
    requires
        0 <= stc <= 65536,
        0 <= prev <= INTERP_LIMIT,
        0 <= mag <= INTERP_LIMIT,
    ensures
        r == smooth_step_spec(stc as int, prev as int, mag as int),
        0 <= r <= INTERP_LIMIT,
{
    proof {
        assert(stc * prev + (65536 - stc) * mag <= 65536 * INTERP_LIMIT) by (nonlinear_arith)
            requires
                0 <= stc <= 65536 && 0 <= prev <= INTERP_LIMIT && 0 <= mag <= INTERP_LIMIT,
        ;
        assert(stc * prev >= 0 && (65536 - stc) * mag >= 0) by (nonlinear_arith)
            requires 0 <= stc <= 65536 && 0 <= prev && 0 <= mag,
        ;
        assert((stc * prev + (65536 - stc) * mag) / 65536 <= INTERP_LIMIT) by (nonlinear_arith)
            requires
                0 <= stc * prev + (65536 - stc) * mag <= 65536 * INTERP_LIMIT,
        ;
    }
    let a: u64 = (stc as u64) * (prev as u64);
    let b: u64 = ((65536 - stc) as u64) * (mag as u64);
    let r: u64 = (a + b) / 65536;
    r as i64
}

/// Geometry of one bar: position `i` of `x_max` across the width,
/// mirrored about the horizontal center line, with height drawn from
/// the normalized bar value `nb` (Q16.16 in `[0, 1]`).
pub open spec fn rect_matches(r: Rect, i: int, width: int, height: int, x_max: int, nb: int) -> bool {
    &&& r.x == i * ((width * 65536) / x_max)
    &&& r.y == height * 32768 - (nb * height) / 2
    &&& r.w == (width * 65536) / x_max
    &&& r.h == 2 * ((nb * height) / 2)
}

/// Bars stay on the screen: for any displayed bin and any normalized
/// bar value in `[0, 1]`, the rectangle lies inside the display area
/// (Q16.16 pixel coordinates, y growing downward).
pub proof fn lemma_rect_on_screen(r: Rect, i: int, width: int, height: int, x_max: int, nb: int)
    requires
        rect_matches(r, i, width, height, x_max, nb),
        0 <= i < x_max,
        0 < width,
        0 < height,
        0 <= nb <= 65536,
    ensures
        0 <= r.x,
        r.x + r.w <= width * 65536,
        0 <= r.y,
        r.y + r.h <= height * 65536,
{
    assert((width * 65536) / x_max >= 0) by (nonlinear_arith)
        requires width > 0 && x_max > 0,
    ;
    let xs = (width * 65536) / x_max;
    assert(i * xs >= 0) by (nonlinear_arith)
        requires i >= 0 && xs >= 0,
    ;
    assert(i * xs + xs == (i + 1) * xs) by (nonlinear_arith);
    assert((i + 1) * xs <= x_max * xs) by (nonlinear_arith)
        requires i + 1 <= x_max && xs >= 0,
    ;
    assert(x_max * ((width * 65536) / x_max) <= width * 65536) by (nonlinear_arith)
        requires x_max > 0 && width * 65536 >= 0,
    ;
    assert(0 <= (nb * height) / 2 && (nb * height) / 2 <= height * 32768) by (nonlinear_arith)
        requires 0 <= nb <= 65536 && height > 0,
    ;
    assert(height * 32768 + height * 32768 == height * 65536) by (nonlinear_arith);
}

/// Render-side state: the smoothing memory, the geometry table and
/// the display configuration.
pub struct Renderer {
    /// Bar geometry recomputed every frame, one slot per bin.
    pub rects: Vec<Rect>,
    /// Smoothed magnitude per bin, Q16.16; persists across frames.
    pub interp: Vec<i64>,
    /// Smoothing time constant in Q16.16, in `[0, 1]`.
    pub stc: i64,
    /// Lower decibel bound (Q16.16, negative).
    pub dbmin: i64,
    /// Upper decibel bound (Q16.16, at most zero).
    pub dbmax: i64,
    /// Display width in pixels.
    pub width: u32,
    /// Display height in pixels.
    pub height: u32,
    /// Number of bins mapped to the screen.
    pub x_max: usize,
    /// Transform length `N`, the magnitude normalizer.
    pub fftsize: usize,
    /// Bar color.
    pub fg: Color,
    /// Background color.
    pub bg: Color,
}

/// The number of displayed bins: `max_freq / resolution` rounded to
/// nearest, clamped to the spectrum length.
pub open spec fn x_max_spec(max_freq: int, samplerate: int, fftsize: int, fftlen: int) -> int {
    let raw = (2 * max_freq * fftsize + samplerate) / (2 * samplerate);
    if raw > fftlen {
        fftlen
    } else {
        raw
    }
}

impl Renderer {
    /// Structural invariant of the render state.
    pub open spec fn wf(self) -> bool {
        &&& self.interp@.len() == self.rects@.len()
        &&& 0 < self.interp@.len() <= MAX_N
        &&& self.x_max <= self.interp@.len()
        &&& 0 <= self.stc <= 65536
        &&& -DB_BOUND <= self.dbmin < self.dbmax <= 0
        &&& 0 < self.width <= 32768
        &&& 0 < self.height <= 32768
        &&& 0 < self.fftsize <= MAX_N
        &&& forall|i: int| 0 <= i < self.interp@.len() ==> 0 <= #[trigger] self.interp@[i] <= INTERP_LIMIT
    }

    /// Build the render state for a spectrum of `fftlen` bins out of a
    /// transform of length `fftsize`.  The configuration is validated
    /// by the caller: bounded dimensions, a smoothing constant below
    /// one, and decibel bounds `dbmin < dbmax <= 0`.
    pub fn new(
        fftlen: usize,
        stc: i64,
        dbmin: i64,
        dbmax: i64,
        width: u32,
        height: u32,
        max_freq: u32,
        samplerate: u32,
        fftsize: usize,
        fg: Color,
        bg: Color,
    ) -> (r: Renderer)
        requires
            0 < fftlen <= MAX_N,
            0 < fftsize <= MAX_N,
            0 <= stc <= 65536,
            -DB_BOUND <= dbmin < dbmax <= 0,
            0 < width <= 32768,
            0 < height <= 32768,
            samplerate > 0,
        ensures
            r.wf(),
            r.interp@.len() == fftlen,
            r.rects@.len() == fftlen,
            forall|i: int| 0 <= i < fftlen ==> r.interp@[i] == 0i64,
            forall|i: int|
                0 <= i < fftlen ==> r.rects@[i] == (Rect { x: 0i64, y: 0i64, w: 0i64, h: 0i64 }),
            r.x_max as int == x_max_spec(
                max_freq as int,
                samplerate as int,
                fftsize as int,
                fftlen as int,
            ),
            r.stc == stc,
            r.dbmin == dbmin,
            r.dbmax == dbmax,
            r.width == width,
            r.height == height,
            r.fftsize == fftsize,
            r.fg == fg,
            r.bg == bg,
    {
        proof {
            assert(2 * (max_freq as int) * (fftsize as int) <= 2 * 4294967295int * 1048576int)
                by (nonlinear_arith)
                requires max_freq <= 4294967295u32 && 0 <= fftsize <= 1048576,
            ;
            assert(2 * (max_freq as int) * (fftsize as int) >= 0) by (nonlinear_arith)
                requires max_freq >= 0 && fftsize >= 0,
            ;
        }
        let num: u64 = 2 * (max_freq as u64) * (fftsize as u64) + (samplerate as u64);
        let den: u64 = 2 * (samplerate as u64);
        let raw: u64 = num / den;
        let x_max: usize = if raw > (fftlen as u64) {
            fftlen
        } else {
            raw as usize
        };
        Renderer {
            rects: vec![Rect { x: 0, y: 0, w: 0, h: 0 }; fftlen],
            interp: vec![0i64; fftlen],
            stc,
            dbmin,
            dbmax,
            width,
            height,
            x_max,
            fftsize,
            fg,
            bg,
        }
    }

    /// Consume one spectrum frame: smooth every displayed bin and
    /// rebuild its bar rectangle.  Bins past `x_max` keep their state.
    /// The frame length must match the configured spectrum length;
    /// a mismatch is a contract violation, not a runtime condition.
    pub fn render(&mut self, fftdata: &Vec<(i64, i64)>)
        requires
            old(self).wf(),
            fftdata@.len() == old(self).interp@.len(),
            bins_bounded(fftdata@),
        ensures
            final(self).wf(),
            final(self).interp@.len() == old(self).interp@.len(),
            final(self).rects@.len() == old(self).rects@.len(),
            final(self).stc == old(self).stc,
            final(self).dbmin == old(self).dbmin,
            final(self).dbmax == old(self).dbmax,
            final(self).width == old(self).width,
            final(self).height == old(self).height,
            final(self).x_max == old(self).x_max,
            final(self).fftsize == old(self).fftsize,
            final(self).fg == old(self).fg,
            final(self).bg == old(self).bg,
            forall|j: int|
                0 <= j < old(self).x_max ==> final(self).interp@[j] == smooth_step_spec(
                    old(self).stc as int,
                    old(self).interp@[j] as int,
                    bin_mag_spec(fftdata@[j].0 as int, fftdata@[j].1 as int, old(self).fftsize as int),
                ),
            forall|j: int|
                old(self).x_max <= j < old(self).interp@.len() ==> final(self).interp@[j] == old(
                    self,
                ).interp@[j],
            forall|j: int|
                0 <= j < old(self).x_max ==> rect_matches(
                    final(self).rects@[j],
                    j,
                    old(self).width as int,
                    old(self).height as int,
                    old(self).x_max as int,
                    bar_norm_spec(
                        final(self).interp@[j] as int,
                        old(self).dbmin as int,
                        old(self).dbmax as int,
                    ),
                ),
            forall|j: int|
                old(self).x_max <= j < old(self).rects@.len() ==> final(self).rects@[j] == old(
                    self,
                ).rects@[j],
    {
        let xm: usize = self.x_max;
        let stc: i64 = self.stc;
        let dbmin: i64 = self.dbmin;
        let dbmax: i64 = self.dbmax;
        let width: u32 = self.width;
        let height: u32 = self.height;
        let fftsize: usize = self.fftsize;
        let mut i: usize = 0;
        while i < xm
            invariant
                i <= xm,
                self.stc == old(self).stc,
                self.dbmin == old(self).dbmin,
                self.dbmax == old(self).dbmax,
                self.width == old(self).width,
                self.height == old(self).height,
                self.x_max == old(self).x_max,
                self.fftsize == old(self).fftsize,
                self.fg == old(self).fg,
                self.bg == old(self).bg,
                self.interp@.len() == old(self).interp@.len(),
                self.rects@.len() == old(self).rects@.len(),
                xm == old(self).x_max,
                stc == old(self).stc,
                dbmin == old(self).dbmin,
                dbmax == old(self).dbmax,
                width == old(self).width,
                height == old(self).height,
                fftsize == old(self).fftsize,
                old(self).wf(),
                fftdata@.len() == old(self).interp@.len(),
                bins_bounded(fftdata@),
                forall|j: int| 0 <= j < self.interp@.len() ==> 0 <= #[trigger] self.interp@[j] <= INTERP_LIMIT,
                forall|j: int|
                    0 <= j < i ==> self.interp@[j] == smooth_step_spec(
                        old(self).stc as int,
                        old(self).interp@[j] as int,
                        bin_mag_spec(
                            fftdata@[j].0 as int,
                            fftdata@[j].1 as int,
                            old(self).fftsize as int,
                        ),
                    ),
                forall|j: int|
                    i <= j < self.interp@.len() ==> self.interp@[j] == old(self).interp@[j],
                forall|j: int|
                    0 <= j < i ==> rect_matches(
                        self.rects@[j],
                        j,
                        old(self).width as int,
                        old(self).height as int,
                        old(self).x_max as int,
                        bar_norm_spec(
                            self.interp@[j] as int,
                            old(self).dbmin as int,
                            old(self).dbmax as int,
                        ),
                    ),
                forall|j: int| i <= j < self.rects@.len() ==> self.rects@[j] == old(self).rects@[j],
            decreases xm - i,
        {
            let bin: (i64, i64) = fftdata[i];
            let re: i64 = bin.0;
            let im: i64 = bin.1;
            let ra: u64 = if re >= 0 {
                re as u64
            } else {
                (-re) as u64
            };
            let ia: u64 = if im >= 0 {
                im as u64
            } else {
                (-im) as u64
            };
            proof {
                assert((ra as int) * (ra as int) == (re as int) * (re as int) && ra
                    <= 2147483648u64) by (nonlinear_arith)
                    requires
                        (ra as int == re as int || ra as int == -(re as int)) && -2147483648
                            <= re as int <= 2147483648,
                ;
                assert((ia as int) * (ia as int) == (im as int) * (im as int) && ia
                    <= 2147483648u64) by (nonlinear_arith)
                    requires
                        (ia as int == im as int || ia as int == -(im as int)) && -2147483648
                            <= im as int <= 2147483648,
                ;
                assert(ra * ra + ia * ia <= 9223372036854775808u64) by (nonlinear_arith)
                    requires ra <= 2147483648u64 && ia <= 2147483648u64,
                ;
            }
            let sq: u64 = ra * ra + ia * ia;
            let babs: u64 = isqrt(sq);
            proof {
                assert(babs < 4294967296u64) by (nonlinear_arith)
                    requires babs * babs <= 9223372036854775808u64,
                ;
            }
            let mag: u64 = babs / (fftsize as u64);
            let prev: i64 = self.interp[i];
            let sm: i64 = smooth_step(stc, prev, mag as i64);
            self.set_interp(i, sm);
            let nb: u64 = bar_norm(sm as u64, dbmin, dbmax);
            proof {
                assert(nb * (height as u64) <= 65536u64 * 32768u64) by (nonlinear_arith)
                    requires nb <= 65536u64 && height <= 32768u32,
                ;
                assert((nb * (height as u64)) / 2 <= (65536 * (height as int)) / 2)
                    by (nonlinear_arith)
                    requires nb <= 65536u64,
                ;
                assert((width as u64) * 65536 <= 32768u64 * 65536u64) by (nonlinear_arith)
                    requires width <= 32768u32,
                ;
            }
            let bh: u64 = (nb * (height as u64)) / 2;
            let xs: u64 = ((width as u64) * 65536) / (xm as u64);
            proof {
                assert((i as u64) * xs <= 1048576u64 * 2147483648u64) by (nonlinear_arith)
                    requires i <= 1048576usize && xs <= 2147483648u64,
                ;
                assert((i as int) * (xs as int) >= 0) by (nonlinear_arith)
                    requires i >= 0 && xs >= 0,
                ;
            }
            let x_px: u64 = (i as u64) * xs;
            let y_px: u64 = (height as u64) * 32768 - bh;
            let rect = Rect {
                x: x_px as i64,
                y: y_px as i64,
                w: xs as i64,
                h: (2 * bh) as i64,
            };
            self.set_rect(i, rect);
            i += 1;
        }
    }

    fn set_interp(&mut self, i: usize, v: i64)
        requires
            i < old(self).interp@.len(),
        ensures
            *final(self) == (Renderer { interp: final(self).interp, ..*old(self) }),
            final(self).interp@ == old(self).interp@.update(i as int, v),
    {
        self.interp[i] = v;
    }

    fn set_rect(&mut self, i: usize, r: Rect)
        requires
            i < old(self).rects@.len(),
        ensures
            *final(self) == (Renderer { rects: final(self).rects, ..*old(self) }),
            final(self).rects@ == old(self).rects@.update(i as int, r),
    {
        self.rects[i] = r;
    }
}

} // verus!
