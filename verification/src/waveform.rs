//! The waveform selection of a voice.
//!
//! The engine offers five fixed waveforms and additive synthesis, which sums
//! harmonics of the fundamental according to a table of weights. The table's
//! type is left open.

use vstd::prelude::*;

verus! {

/// The number of harmonics that additive synthesis sums at most.
pub const MAX_HARMONICS: usize = 16;

/// A waveform; `W` is the table of harmonic weights.
#[derive(Debug, PartialEq)]
pub enum Waveform<W> {
    Sine,
    Square,
    Sawtooth,
    Triangle,
    Noise,
    Additive { num_harmonics: usize, harmonic_weights: W },
}

impl<W: Copy> Clone for Waveform<W> {
    fn clone(&self) -> (copy: Self)
        ensures
            copy == *self,
    {
        *self
    }
}

impl<W: Copy> Copy for Waveform<W> {

}

impl<W> Waveform<W> {
    /// The waveform a new voice gets when this one is selected: the selection
    /// itself, but for additive synthesis with the harmonic count and the
    /// weights as they are set now.
    pub open spec fn snapshot_spec(self, num_harmonics: usize, harmonic_weights: W) -> Waveform<
        W,
    > {
        match self {
            Waveform::Additive { .. } => Waveform::Additive { num_harmonics, harmonic_weights },
            other => other,
        }
    }

    /// How many harmonics a voice with this waveform sums: the count it was
    /// given, but no more than [`MAX_HARMONICS`]; none unless it is additive.
    pub open spec fn harmonics_spec(self) -> nat {
        match self {
            Waveform::Additive { num_harmonics, .. } => if num_harmonics <= MAX_HARMONICS {
                num_harmonics as nat
            } else {
                MAX_HARMONICS as nat
            },
            _ => 0,
        }
    }

    /// The waveform a new voice gets when this one is selected.
    pub fn snapshot(self, num_harmonics: usize, harmonic_weights: W) -> (taken: Waveform<W>)
        ensures
            taken == self.snapshot_spec(num_harmonics, harmonic_weights),
    {
        match self {
            Waveform::Additive { .. } => Waveform::Additive { num_harmonics, harmonic_weights },
            other => other,
        }
    }

    /// How many harmonics a voice with this waveform sums.
    pub fn harmonics(&self) -> (count: usize)
        ensures
            count == self.harmonics_spec(),
            count <= MAX_HARMONICS,
    {
        match self {
            Waveform::Additive { num_harmonics, .. } => {
                if *num_harmonics <= MAX_HARMONICS {
                    *num_harmonics
                } else {
                    MAX_HARMONICS
                }
            },
            _ => 0,
        }
    }
}

} // verus!
