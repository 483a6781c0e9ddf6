//! Immutable per-run configuration.
//!
//! One record holds every parameter of the pipeline: transform size,
//! rates, display dimensions, smoothing constant, decibel bounds and
//! colors.  It is created once at startup, validated by the embedding
//! program before the pipeline is built, and read-only afterwards;
//! `valid` is the precondition every pipeline constructor relies on.

use vstd::prelude::*;

use crate::db::DB_BOUND;
use crate::utils::Color;
use crate::window::{WindowKind, MAX_N};

verus! {

/// Per-run parameters, fixed-point where the quantity is fractional:
/// `stc`, `dbmin` and `dbmax` are Q16.16.
pub struct Args {
    /// Transform size `N` in samples.
    pub fftsize: usize,
    /// Display refresh rate, frames per second.
    pub framerate: u32,
    /// Width of the visualizer window in pixels.
    pub width: u32,
    /// Height of the visualizer window in pixels.
    pub height: u32,
    /// Audio sample rate in hertz.
    pub samplerate: u32,
    /// Highest frequency mapped to the screen, in hertz.
    pub max_frequency: u32,
    /// Smoothing time constant in Q16.16, in `[0, 1]`.
    pub stc: i64,
    /// Minimum decibels (Q16.16, negative).
    pub dbmin: i64,
    /// Maximum decibels (Q16.16, at most zero).
    pub dbmax: i64,
    /// Color of the frequency bars.
    pub fgcolor: Color,
    /// Color of the background.
    pub bgcolor: Color,
    /// Analysis window variant.
    pub window: WindowKind,
    /// Capture device index, if one was chosen.
    pub device: Option<u32>,
    /// Whether to list capture devices and exit.
    pub list_devices: bool,
}

impl Args {
    /// A configuration the pipeline accepts: positive sizes within
    /// machine bounds, a smoothing constant of at most one, and
    /// decibel bounds `dbmin < dbmax <= 0`.
    pub open spec fn valid(self) -> bool {
        &&& 0 < self.fftsize <= MAX_N
        &&& 0 < self.framerate
        &&& 0 < self.samplerate
        &&& self.framerate <= self.samplerate
        &&& 0 < self.width <= 32768
        &&& 0 < self.height <= 32768
        &&& 0 <= self.stc <= 65536
        &&& -DB_BOUND <= self.dbmin < self.dbmax <= 0
    }

    /// Number of bins the transform produces: `N / 2 + 1`.
    pub open spec fn spectrum_len_spec(self) -> int {
        self.fftsize as int / 2 + 1
    }

    /// Number of bins the transform produces: `N / 2 + 1`.
    pub fn spectrum_len(&self) -> (r: usize)
        requires
            self.valid(),
        ensures
            r as int == self.spectrum_len_spec(),
    {
        self.fftsize / 2 + 1
    }

    /// Samples per capture block: the sample rate over the frame
    /// rate, so that one block arrives per displayed frame.
    pub fn block_size(&self) -> (r: u32)
        requires
            self.valid(),
        ensures
            r as int == self.samplerate as int / self.framerate as int,
    {
        self.samplerate / self.framerate
    }
}

impl core::default::Default for Args {
    /// The stock configuration: a 1024-point transform at 48 kHz,
    /// 60 frames per second, an 800 x 600 window showing up to
    /// 16 kHz, smoothing constant 0.8, bounds -80 dB to -6 dB, and
    /// the Blackman window.
    fn default() -> (r: Args)
        ensures
            r.valid(),
            r.fftsize == 1024,
            r.framerate == 60,
            r.width == 800,
            r.height == 600,
            r.samplerate == 48000,
            r.max_frequency == 16000,
            r.stc == 52429,
            r.dbmin == -5242880,
            r.dbmax == -393216,
            r.fgcolor == (Color { r: 0xBB, g: 0xB6, b: 0xA5, a: 0xFF }),
            r.bgcolor == (Color { r: 0x2A, g: 0x2F, b: 0x33, a: 0xFF }),
            r.window == WindowKind::Blackman,
            r.device is None,
            r.list_devices == false,
    {
        Args {
            fftsize: 1024,
            framerate: 60,
            width: 800,
            height: 600,
            samplerate: 48000,
            max_frequency: 16000,
            stc: 52429,
            dbmin: -5242880,
            dbmax: -393216,
            fgcolor: Color { r: 0xBB, g: 0xB6, b: 0xA5, a: 0xFF },
            bgcolor: Color { r: 0x2A, g: 0x2F, b: 0x33, a: 0xFF },
            window: WindowKind::Blackman,
            device: None,
            list_devices: false,
        }
    }
}

} // verus!
