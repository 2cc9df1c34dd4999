//! The engine as a whole: the voices, a mixer and the effects chain, pulled
//! one sample at a time.

use crate::chain::{in_chain, EffectStack, Stage};
use crate::contour::Timing;
use crate::voices::{lemma_silent_bank, BankModel, Oscillator, VoiceBank};
use vstd::prelude::*;

verus! {

/// What turns the samples of the voices into one.
///
/// The trait promises nothing of the result. A mixer type states on its own
/// methods what it gives, and the contract of [`Synth::next_sample`] refers to
/// whatever it states.
pub trait Mixer {
    /// What a sample is.
    type Signal;

    /// The sample of an engine without voices.
    fn silence(&self) -> Self::Signal;

    /// One sample for a frame that holds at least one.
    fn mix(&self, frame: &Vec<Self::Signal>) -> Self::Signal;
}

/// The voices, the mixer and the effects chain of one engine.
pub struct Synth<T: Oscillator, E, M> {
    pub voices: VoiceBank<T>,
    pub effects: EffectStack<E>,
    pub mixer: M,
    pub sample_rate: T::Signal,
    /// The samples of the voices in the frame last pulled.
    pub frame: Vec<T::Signal>,
}

impl<T, E, M> Synth<T, E, M> where
    T: Oscillator,
    T::Signal: Copy,
    E: Stage<Signal = T::Signal>,
    M: Mixer<Signal = T::Signal>,
{
    /// An engine without voices and without effects, its clock at zero.
    pub fn new(
        amplitude: Timing,
        pitch: Timing,
        mixer: M,
        sample_rate: T::Signal,
    ) -> (synth: Self)
        ensures
            synth.voices@ == BankModel::<T>::empty(amplitude, pitch),
            synth.effects@ == Seq::<E>::empty(),
            synth.mixer == mixer,
            synth.sample_rate == sample_rate,
            synth.frame@ == Seq::<T::Signal>::empty(),
    {
        Synth {
            voices: VoiceBank::new(amplitude, pitch),
            effects: EffectStack::new(),
            mixer,
            sample_rate,
            frame: Vec::new(),
        }
    }

    /// Spawns a voice for `note` with the given tone, unless the note is held;
    /// says whether it did.
    pub fn note_on(&mut self, note: u8, tone: T) -> (spawned: bool)
        ensures
            final(self).voices@ == old(self).voices@.note_on(note, tone),
            spawned == !old(self).voices@.is_held(note),
            final(self).effects == old(self).effects,
            final(self).mixer == old(self).mixer,
            final(self).sample_rate == old(self).sample_rate,
            final(self).frame == old(self).frame,
    {
        self.voices.note_on(note, tone)
    }

    /// Releases the voice of `note`, if there is one.
    pub fn note_off(&mut self, note: u8)
        ensures
            final(self).voices@ == old(self).voices@.note_off(note),
            final(self).effects == old(self).effects,
            final(self).mixer == old(self).mixer,
            final(self).sample_rate == old(self).sample_rate,
            final(self).frame == old(self).frame,
    {
        self.voices.note_off(note);
    }

    /// Pulls the next sample: retires the voices that have sounded out, takes
    /// one sample from each voice that is left, mixes them, passes the mix
    /// through the effects chain, and moves the clock on by one tick.
    ///
    /// But for the tones, the bank is left as one pull leaves it. The frame
    /// holds the samples of the voices that were left after retiring, in
    /// ascending order of note number, each taken by the voice's oscillator
    /// for the places of its envelopes before the clock moved. The chain is
    /// fed the mixer's `mix` of the frame, or its `silence` if no voice is
    /// left, and the result is what the chain gives.
    pub fn next_sample(&mut self) -> (out: T::Signal)
        ensures
            final(self).mixer == old(self).mixer,
            final(self).sample_rate == old(self).sample_rate,
            final(self).voices@.agrees(old(self).voices@.pull()),
            final(self).frame@.len() == old(self).voices@.retire().sounding(),
            forall|note: u8|
                #[trigger] old(self).voices@.retire().voices.contains_key(note) ==> exists|tone: &mut T|
                    *tone == old(self).voices@.voices[note].tone
                    && *final(tone) == final(self).voices@.voices[note].tone
                    && #[trigger] call_ensures(
                        T::sample,
                        (
                            tone,
                            old(self).voices@.voices[note].amplitude.position(old(self).voices@.clock),
                            old(self).voices@.voices[note].pitch.position(old(self).voices@.clock),
                            old(self).sample_rate,
                        ),
                        final(self).frame@[old(self).voices@.retire().sounding_below(note as nat) as int],
                    ),
            final(self).effects@.len() == old(self).effects@.len(),
            exists|trace: Seq<T::Signal>|
                (#[trigger] trace.len()) == old(self).effects@.len() + 1
                && (if old(self).voices@.retire().sounding() == 0 {
                    call_ensures(M::silence, (&old(self).mixer,), trace[0])
                } else {
                    call_ensures(M::mix, (&old(self).mixer, &final(self).frame), trace[0])
                })
                && trace.last() == out
                && forall|i: int|
                    #[trigger] in_chain(i, old(self).effects@.len()) ==> exists|stage: &mut E|
                        *stage == old(self).effects@[i]
                        && *final(stage) == final(self).effects@[i]
                        && #[trigger] call_ensures(
                            E::process,
                            (stage, trace[i], old(self).sample_rate),
                            trace[i + 1],
                        ),
    {
        let live: usize = self.voices.retire();
        let ghost left = self.voices@;
        let mixed: T::Signal = if live == 0 {
            proof {
                lemma_silent_bank(left);
            }
            self.frame.clear();
            self.mixer.silence()
        } else {
            self.voices.render(self.sample_rate, &mut self.frame);
            self.mixer.mix(&self.frame)
        };
        self.voices.advance();
        self.effects.process(mixed, self.sample_rate)
    }
}

} // verus!
