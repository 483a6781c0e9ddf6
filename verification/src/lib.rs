//! Verified core of a real-time audio spectrum analyzer.
//!
//! The signal path — sliding sample buffer, analysis window, magnitude
//! normalization, temporal smoothing, decibel mapping and the shared
//! spectrum hand-off — is implemented here over fixed-point integers
//! (Q16.16) and carries machine-checked contracts.  The unverifiable
//! edges (audio capture, the floating-point spectral transform, and the
//! drawing backend) live outside the library and exchange plain values
//! with it.

pub mod cli;
pub mod db;
pub mod fft;
pub mod fixed;
pub mod render;
pub mod store;
pub mod utils;
pub mod window;
