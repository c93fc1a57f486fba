//! Signal-generation core of a real-time oscillator plugin.
//!
//! - `dsp`: numeric primitives on single-precision bit patterns;
//! - `phase`: the phase accumulator;
//! - `oscapi`: the host interface, with the addressing of the host's tables
//!   (`oscapi::lut`), the hook table (`oscapi::hooks`) and the dispatch layer
//!   (`oscapi::dispatch`);
//! - `modem`: an FSK modem sequencer;
//! - `noise`: the choices of a wavetable oscillator.
//!
//! The crate holds no floating-point arithmetic. Where a value is a
//! single-precision number it is carried as its IEEE-754 bit pattern, and
//! only operations that are exact on that encoding are computed here: the
//! operations that round are the caller's.

pub mod dsp;
pub mod modem;
pub mod noise;
pub mod oscapi;
pub mod phase;
