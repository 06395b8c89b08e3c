//! A polyphonic wavetable synthesiser core in Q16.16 fixed-point arithmetic.
//!
//! The library produces one audio sample per call: a fixed pool of voices
//! (wavetable oscillator, resonant low-pass filter, ADSR envelope) is driven
//! by note and control events, summed, and sent through a modulated chorus
//! and a fixed-offset delay.  Every signal value is an `i64` holding a
//! Q16.16 fixed-point number, so the whole signal path is exact integer
//! arithmetic.

pub mod fixed;
pub mod envelope;
pub mod filter;
pub mod osc;
pub mod delay;
pub mod chorus;
pub mod midi;
pub mod engine;
