//! The wavetable oscillator: which wavetable it plays, and which of the
//! host's parameters it answers.
//!
//! The oscillator reads one table of wave bank A at its phase, crushes the
//! sample to the resolution that the shift-shape parameter sets, and turns it
//! into a fixed-point sample. The sample arithmetic is the caller's; the
//! choices are made here.

use vstd::prelude::*;

use crate::oscapi::lut::{index_of, position_index};
use crate::oscapi::OscParam;

verus! {

/// What a parameter asks of the oscillator.
#[derive(Clone, Copy, Debug, PartialEq, Eq, Structural)]
pub enum ParamAction {
    /// Choose the wavetable by the parameter's value.
    SelectWave,
    /// Set the bit-crush amount by the parameter's value.
    SetBitcrush,
    /// Nothing: the oscillator has no use for the parameter.
    Ignore,
}

/// What the oscillator does on `param`.
pub open spec fn action_of(param: OscParam) -> ParamAction {
    match param {
        OscParam::ParamShape => ParamAction::SelectWave,
        OscParam::ParamShiftShape => ParamAction::SetBitcrush,
        _ => ParamAction::Ignore,
    }
}

/// The integer state of the oscillator: the wavetable it plays.
#[derive(Clone, Copy, Debug)]
pub struct Noise {
    wave: usize,
}

impl View for Noise {
    type V = usize;

    /// The place of the wavetable in its bank.
    closed spec fn view(&self) -> usize {
        self.wave
    }
}

impl Noise {
    /// An oscillator on the first wavetable of the bank.
    pub fn new() -> (noise: Self)
        ensures
            noise@ == 0,
    {
        Noise { wave: 0 }
    }

    /// The place of the wavetable in its bank.
    pub fn wave(&self) -> (wave: usize)
        ensures
            wave == self@,
    {
        self.wave
    }

    /// What the oscillator does on `param`.
    pub fn param(param: OscParam) -> (action: ParamAction)
        ensures
            action == action_of(param),
    {
        match param {
            OscParam::ParamShape => ParamAction::SelectWave,
            OscParam::ParamShiftShape => ParamAction::SetBitcrush,
            _ => ParamAction::Ignore,
        }
    }

    /// Chooses the wavetable at the scaled position `xf` of a bank of
    /// `waves` tables. A position past the bank leaves the choice as it was.
    pub fn select_wave(&mut self, waves: usize, xf: u32)
        ensures
            final(self)@ == if index_of(xf) < waves {
                index_of(xf) as usize
            } else {
                old(self)@
            },
    {
        match position_index(xf) {
            Some(index) => {
                if index < waves as u64 {
                    self.wave = index as usize;
                }
            },
            None => {},
        }
    }
}

} // verus!
