use specan::db::bar_norm;
use specan::render::{smooth_step, Renderer};
use specan::utils::Color;

const DBMIN: i64 = -5242880; // -80 dB in Q16.16
const DBMAX: i64 = -393216; // -6 dB in Q16.16

fn gray() -> Color {
    Color { r: 128, g: 128, b: 128, a: 255 }
}

#[test]
fn smooth_step_exact_midpoint() {
    // stc = 0.5: halfway between state and input
    assert_eq!(smooth_step(32768, 0, 65536), 32768);
    assert_eq!(smooth_step(32768, 65536, 0), 32768);
}

#[test]
fn smooth_step_zero_constant_passes_input_through() {
    assert_eq!(smooth_step(0, 12345, 678), 678);
}

#[test]
fn smooth_step_constant_one_freezes_the_state() {
    assert_eq!(smooth_step(65536, 12345, 678), 12345);
}

#[test]
fn smoother_converges_monotonically_without_overshoot() {
    // constant magnitude held for many frames: never decreasing,
    // never above the input
    let mag: i64 = 50000;
    let stc: i64 = 52429; // 0.8
    let mut s: i64 = 0;
    for _ in 0..200 {
        let next = smooth_step(stc, s, mag);
        assert!(next >= s);
        assert!(next <= mag);
        s = next;
    }
    assert!(s > 49000);
}

#[test]
fn silence_drives_state_to_exactly_zero() {
    let mut s: i64 = 100;
    let stc: i64 = 65535; // slowest decay the contract admits
    for _ in 0..100 {
        s = smooth_step(stc, s, 0);
    }
    assert_eq!(s, 0);
}

#[test]
fn zero_magnitude_maps_to_exactly_zero() {
    assert_eq!(bar_norm(0, DBMIN, DBMAX), 0);
}

#[test]
fn magnitude_at_or_above_dbmax_saturates_to_one() {
    // 65536 is 0 dB, far above -6 dB
    assert_eq!(bar_norm(65536, DBMIN, DBMAX), 65536);
    assert_eq!(bar_norm(43008, DBMIN, DBMAX), 65536);
    assert_eq!(bar_norm(u64::MAX / 2, DBMIN, DBMAX), 65536);
}

#[test]
fn magnitude_at_or_below_dbmin_saturates_to_zero() {
    // one Q16.16 unit is about -96 dB, far below -80 dB
    assert_eq!(bar_norm(1, DBMIN, DBMAX), 0);
    assert_eq!(bar_norm(2, DBMIN, DBMAX), 0);
}

#[test]
fn intermediate_magnitudes_fall_strictly_inside() {
    assert_eq!(bar_norm(32768, DBMIN, DBMAX), 65517);
    assert_eq!(bar_norm(2048, DBMIN, DBMAX), 44189);
    assert_eq!(bar_norm(5792, DBMIN, DBMAX), 52186);
    let lo = bar_norm(2048, DBMIN, DBMAX);
    let hi = bar_norm(32768, DBMIN, DBMAX);
    assert!(0 < lo && lo < hi && hi < 65536);
}

#[test]
fn renderer_clamps_and_rounds_x_max() {
    // 16000 Hz at 48000/1024 Hz per bin is 341.33 bins, rounded down
    let r = Renderer::new(513, 52429, DBMIN, DBMAX, 800, 600, 16000, 48000, 1024, gray(), gray());
    assert_eq!(r.x_max, 341);
    // a huge cutoff clamps at the spectrum length
    let r = Renderer::new(513, 52429, DBMIN, DBMAX, 800, 600, 4000000, 48000, 1024, gray(), gray());
    assert_eq!(r.x_max, 513);
    // half the bin resolution rounds up to one bin
    let r = Renderer::new(513, 52429, DBMIN, DBMAX, 800, 600, 24, 48000, 1024, gray(), gray());
    assert_eq!(r.x_max, 1);
}

#[test]
fn renderer_starts_silent() {
    let r = Renderer::new(5, 52429, DBMIN, DBMAX, 800, 600, 8, 8, 8, gray(), gray());
    assert_eq!(r.interp, vec![0i64; 5]);
}

#[test]
fn silent_frame_gives_flat_bars_at_dbmin() {
    let mut r = Renderer::new(4, 52429, DBMIN, DBMAX, 640, 480, 4, 8, 8, gray(), gray());
    r.render(&vec![(0, 0); 4]);
    assert_eq!(r.interp, vec![0i64; 4]);
    let xs = (640i64 * 65536) / r.x_max as i64;
    for (i, rect) in r.rects.iter().take(r.x_max).enumerate() {
        assert_eq!(rect.h, 0);
        assert_eq!(rect.y, 480 * 32768); // bars sit on the center line
        assert_eq!(rect.w, xs);
        assert_eq!(rect.x, i as i64 * xs);
    }
}

#[test]
fn loud_frame_fills_half_height() {
    let mut r = Renderer::new(2, 0, DBMIN, DBMAX, 640, 480, 8, 8, 8, gray(), gray());
    // 0 dB per bin: normalized bar is exactly 1, mirrored to full height
    r.render(&vec![(8 * 65536, 0), (0, -8 * 65536)]);
    assert_eq!(r.interp, vec![65536, 65536]);
    for rect in r.rects.iter().take(r.x_max) {
        assert_eq!(rect.h, 480 * 65536); // 2 * half height
        assert_eq!(rect.y, 0);
    }
}

#[test]
fn bins_past_x_max_keep_their_state() {
    let mut r = Renderer::new(4, 0, DBMIN, DBMAX, 640, 480, 1, 8, 8, gray(), gray());
    assert_eq!(r.x_max, 1);
    r.render(&vec![(8 * 65536, 0); 4]);
    assert_eq!(r.interp[0], 65536);
    assert_eq!(&r.interp[1..], &[0, 0, 0]);
}
