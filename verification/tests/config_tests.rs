use specan::cli::Args;
use specan::utils::Color;
use specan::window::WindowKind;

#[test]
fn stock_configuration_matches_the_published_defaults() {
    let a = Args::default();
    assert_eq!(a.fftsize, 1024);
    assert_eq!(a.framerate, 60);
    assert_eq!(a.width, 800);
    assert_eq!(a.height, 600);
    assert_eq!(a.samplerate, 48000);
    assert_eq!(a.max_frequency, 16000);
    assert_eq!(a.stc, 52429); // 0.8 in Q16.16
    assert_eq!(a.dbmin, -5242880); // -80 dB
    assert_eq!(a.dbmax, -393216); // -6 dB
    assert_eq!(a.fgcolor, Color { r: 0xBB, g: 0xB6, b: 0xA5, a: 0xFF });
    assert_eq!(a.bgcolor, Color { r: 0x2A, g: 0x2F, b: 0x33, a: 0xFF });
    assert_eq!(a.window, WindowKind::Blackman);
    assert_eq!(a.device, None);
    assert!(!a.list_devices);
}

#[test]
fn derived_sizes() {
    let a = Args::default();
    assert_eq!(a.spectrum_len(), 513);
    assert_eq!(a.block_size(), 800);
}
