use specan::fft::FftCompute;
use specan::window::{blackman_window, hann_window, WindowKind};

fn filled(n: usize, f: fn(&mut Vec<i64>)) -> Vec<i64> {
    let mut w = vec![0i64; n];
    f(&mut w);
    w
}

#[test]
fn hann_eight_point_table() {
    let w = filled(8, hann_window);
    assert_eq!(w, vec![0, 28672, 49152, 61440, 65536, 61440, 49152, 28672]);
}

#[test]
fn hann_starts_at_zero() {
    for n in [1usize, 2, 3, 8, 1000] {
        let w = filled(n, hann_window);
        assert_eq!(w[0], 0);
    }
}

#[test]
fn hann_is_symmetric() {
    let n = 1024;
    let w = filled(n, hann_window);
    for k in 1..n {
        assert_eq!(w[k], w[n - k]);
    }
}

#[test]
fn hann_last_matches_first_step() {
    // w[N-1] is the half-sine evaluated at (N-1)/N, the mirror of w[1]
    let w = filled(512, hann_window);
    assert_eq!(w[511], w[1]);
    assert!(w[511] > 0);
}

#[test]
fn hann_peaks_at_one_in_the_middle() {
    let w = filled(8, hann_window);
    assert_eq!(w[4], 65536);
}

#[test]
fn blackman_eight_point_table() {
    let w = filled(8, blackman_window);
    assert_eq!(w, vec![0, 6645, 26378, 51701, 65536, 51701, 26378, 6645]);
}

#[test]
fn blackman_starts_at_exactly_zero() {
    for n in [1usize, 2, 4, 8, 333, 1024] {
        let w = filled(n, blackman_window);
        assert_eq!(w[0], 0);
    }
}

#[test]
fn blackman_is_symmetric() {
    let n = 1000;
    let w = filled(n, blackman_window);
    for k in 1..n {
        assert_eq!(w[k], w[n - k]);
    }
}

#[test]
fn hann_near_symmetry_off_by_one() {
    // w[k] and w[N-1-k] are mirror neighbours: they differ by at most
    // one parabola step, under (4 * 65536 + N) / N of full scale
    let n = 1024i64;
    let w = filled(n as usize, hann_window);
    for k in 0..n as usize {
        let gap = (w[k] - w[n as usize - 1 - k]).abs();
        assert!(n * gap <= 4 * 65536 + n);
    }
}

#[test]
fn blackman_near_symmetry_off_by_one() {
    // same shape of bound as the half-sine window, with room for the
    // steeper three-term slope
    let n = 1024i64;
    let w = filled(n as usize, blackman_window);
    for k in 0..n as usize {
        let gap = (w[k] - w[n as usize - 1 - k]).abs();
        assert!(n * gap <= 4 * (4 * 65536 + n));
    }
}

#[test]
fn blackman_values_stay_in_range() {
    let w = filled(1024, blackman_window);
    for &c in w.iter() {
        assert!(-65536 <= c && c <= 131072);
    }
}

#[test]
fn pipeline_uses_selected_window() {
    let hann = FftCompute::new(16, WindowKind::Hann);
    let blackman = FftCompute::new(16, WindowKind::Blackman);
    assert_eq!(hann.coefs().clone(), filled(16, hann_window));
    assert_eq!(blackman.coefs().clone(), filled(16, blackman_window));
}
