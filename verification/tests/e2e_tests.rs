//! Whole-pipeline scenarios: capture-side buffering and windowing,
//! the real spectral transform, and the render-side smoothing and
//! mapping, glued exactly as the running program glues them.

use realfft::RealFftPlanner;
use specan::fft::FftCompute;
use specan::render::Renderer;
use specan::store::SpectrumStore;
use specan::utils::Color;
use specan::window::WindowKind;

const DBMIN: i64 = -5242880; // -80 dB
const DBMAX: i64 = -393216; // -6 dB

fn gray() -> Color {
    Color { r: 128, g: 128, b: 128, a: 255 }
}

fn to_q16(x: f32) -> i64 {
    (x * 65536.0) as i64
}

/// One capture-side step followed by the transform: feed a block,
/// window, run the forward FFT, and hand back Q16.16 complex bins.
fn transform_block(pipe: &mut FftCompute, block: &Vec<i64>) -> Vec<(i64, i64)> {
    pipe.callback(block);
    let mut input: Vec<f32> = pipe.frame().iter().map(|&v| v as f32 / 65536.0).collect();
    let mut planner = RealFftPlanner::<f32>::new();
    let fft = planner.plan_fft_forward(input.len());
    let mut spectrum = fft.make_output_vec();
    fft.process(&mut input, &mut spectrum).unwrap();
    spectrum.iter().map(|c| (to_q16(c.re), to_q16(c.im))).collect()
}

#[test]
fn sine_at_bin_two_peaks_at_bin_two() {
    // N = 8, sample rate 8, amplitude-one sine at bin 2, no smoothing:
    // the smoothed spectrum has a strict local maximum at bin 2
    let mut pipe = FftCompute::new(8, WindowKind::Hann);
    let samples: Vec<i64> = (0..8)
        .map(|t| to_q16((std::f32::consts::TAU * 2.0 * t as f32 / 8.0).sin()))
        .collect();
    let bins = transform_block(&mut pipe, &samples);
    assert_eq!(bins.len(), 5);

    let mut r = Renderer::new(5, 0, DBMIN, DBMAX, 800, 600, 8, 8, 8, gray(), gray());
    r.render(&bins);
    for j in [0usize, 1, 3, 4] {
        assert!(r.interp[2] > r.interp[j]);
    }
    // the fixed-point reference value for the peak bin
    assert!((r.interp[2] - 22528).abs() <= 32);
}

#[test]
fn dc_bin_zero_magnitude_is_proportional_to_level() {
    let mut low = FftCompute::new(8, WindowKind::Hann);
    let mut high = FftCompute::new(8, WindowKind::Hann);
    let bins_low = transform_block(&mut low, &vec![to_q16(0.5); 8]);
    let bins_high = transform_block(&mut high, &vec![to_q16(1.0); 8]);

    let mut r_low = Renderer::new(5, 0, DBMIN, DBMAX, 800, 600, 8, 8, 8, gray(), gray());
    let mut r_high = Renderer::new(5, 0, DBMIN, DBMAX, 800, 600, 8, 8, 8, gray(), gray());
    r_low.render(&bins_low);
    r_high.render(&bins_high);

    assert!(r_low.interp[0] > 0);
    // doubling the input level doubles the bin-0 magnitude
    assert!((r_high.interp[0] - 2 * r_low.interp[0]).abs() <= 4);
}

#[test]
fn silence_after_sound_decays_to_exactly_dbmin() {
    let mut pipe = FftCompute::new(8, WindowKind::Hann);
    let loud = transform_block(&mut pipe, &vec![to_q16(1.0); 8]);

    let mut r = Renderer::new(5, 52429, DBMIN, DBMAX, 800, 600, 8, 8, 8, gray(), gray());
    r.render(&loud);
    assert!(r.interp[0] > 0);

    // enough silent frames drive every smoothed bin to exactly zero,
    // and the zero magnitude clamps to exactly dbmin: flat bars
    for _ in 0..200 {
        let silent = transform_block(&mut pipe, &vec![0i64; 8]);
        r.render(&silent);
    }
    assert_eq!(r.interp, vec![0i64; 5]);
    for rect in r.rects.iter().take(r.x_max) {
        assert_eq!(rect.h, 0);
    }
}

#[test]
fn capture_to_store_to_renderer_hand_off() {
    // writer side publishes whole frames; reader side takes and
    // renders them, or skips when nothing new arrived
    let mut pipe = FftCompute::new(8, WindowKind::Blackman);
    let mut store = SpectrumStore::new();
    let mut r = Renderer::new(5, 0, DBMIN, DBMAX, 800, 600, 8, 8, 8, gray(), gray());

    let bins = transform_block(&mut pipe, &vec![to_q16(1.0); 8]);
    store.publish(bins.clone());

    match store.take() {
        Some(frame) => {
            assert_eq!(frame, bins);
            r.render(&frame);
        },
        None => panic!("a frame was pending"),
    }
    assert!(r.interp[0] > 0);
    // nothing new: the reader skips this cycle
    assert_eq!(store.take(), None);
}
