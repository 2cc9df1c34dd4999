//! The counting core of a polyphonic synthesizer: delay lines and their
//! cursors, envelope timing in ticks of the sample clock, the lifecycle of
//! voices keyed by note number, the order of the effects chain, and the pull
//! of one sample through all of them.
//!
//! Sample arithmetic is the caller's. Every type here is written for any
//! sample, oscillator, mixer and effect, and says exactly which value is
//! read, kept, moved or dropped, and when; what the caller's parts compute
//! enters the contracts as what those parts themselves promise.

pub mod chain;
pub mod contour;
pub mod ring;
pub mod synth;
pub mod voices;
pub mod waveform;
