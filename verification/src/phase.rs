//! The phase accumulator: an oscillator's place in its cycle.

use vstd::arithmetic::power2::lemma2_to64;
use vstd::prelude::*;

use crate::dsp::{
    lemma_below_one, scaled_magnitude, split_pow2, unit, ONE_BITS, TWO_POW_32_BITS,
};

verus! {

/// A phase: a single-precision number in `[0, 1)`, held as its bit pattern.
#[derive(Clone, Copy, Debug)]
pub struct Phi {
    bits: u32,
}

impl View for Phi {
    type V = u32;

    /// The bit pattern of the phase.
    closed spec fn view(&self) -> u32 {
        self.bits
    }
}

impl Phi {
    /// The phase is a number from zero up to, but not including, one.
    pub open spec fn wf(&self) -> bool {
        self@ < ONE_BITS
    }

    /// The start of a cycle.
    pub fn new() -> (phi: Self)
        ensures
            phi@ == 0,
            phi.wf(),
    {
        Phi { bits: 0 }
    }

    /// The bit pattern of the phase.
    pub fn bits(&self) -> (bits: u32)
        ensures
            bits == self@,
    {
        self.bits
    }

    /// Moves the phase on to the fraction of `sum`.
    ///
    /// `sum` is the phase plus the increment of one sample, which the caller
    /// adds in single precision. It must not be negative and must be below
    /// 2^32, as the sum of a phase and an increment below one is. Its
    /// fraction is exact.
    pub fn advance(&mut self, sum: u32)
        requires
            sum < TWO_POW_32_BITS,
        ensures
            final(self).wf(),
            scaled_magnitude(final(self)@) == scaled_magnitude(sum) % unit(),
    {
        proof {
            lemma2_to64();
            assert(scaled_magnitude(sum) * 1 == scaled_magnitude(sum));
        }
        let (_, next) = split_pow2(sum, 0);
        self.bits = next;
    }
}

/// A phase is below one cycle.
pub proof fn lemma_phase_is_below_one(phi: Phi)
    requires
        phi.wf(),
    ensures
        scaled_magnitude(phi@) < unit(),
{
    lemma_below_one(phi@);
}

} // verus!
