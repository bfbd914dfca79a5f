//! The core of a flicker scope: a viewer for the photocurrent that a Pico samples behind a
//! transimpedance amplifier.
//!
//! - `pico`: the wire protocol, from bytes to readings and status lines;
//! - `samples`: the buffer of the newest samples, and a synthetic source for it;
//! - `window`: the samples that a view shows, and their range;
//! - `fft`: sizes, caches, jobs and results of the spectrum;
//! - `scope`: the view and its history, the pace of the spectra, and the keys;
//! - `ports`: the choice of the serial port and of the source;
//! - `perf`: timings of the last frames;
//! - `si`, `labels`, `text`: what is shown and written;
//! - `ieee`, `figures`: the order of floating point numbers and their first figure, on their
//!   encodings.

pub mod fft;
pub mod figures;
pub mod ieee;
pub mod labels;
pub mod perf;
pub mod pico;
pub mod ports;
pub mod samples;
pub mod scope;
pub mod si;
pub mod text;
pub mod window;
