//! The voices of the engine, keyed by note number, and their lifecycle.
//!
//! A voice is spawned by a note-on, released by a note-off, and retired once
//! the release time of its amplitude envelope has run out. The bank owns the
//! sample clock, which every envelope reads, and the envelope timings that a
//! new voice is given. What a voice sounds like (its oscillator state and the
//! settings it was spawned with) is the caller's: the bank keeps it as the
//! voice's tone and never looks inside; to take a sample it asks the tone,
//! handing it the places of the voice's two envelopes.

use crate::contour::{at_rest, Anchor, Contour, ContourModel, Position, Timing};
use vstd::prelude::*;

verus! {

/// How many note numbers there are.
pub const NOTES: usize = 256;

/// What makes the sound of a voice: an oscillator with whatever state and
/// settings it needs.
///
/// The trait promises nothing of the samples. An oscillator type states on its
/// own `sample` what it gives, and the contract of [`VoiceBank::render`] refers
/// to whatever it states.
pub trait Oscillator {
    /// What a sample is.
    type Signal;

    /// Gives the next sample of the voice, for the places its amplitude and
    /// frequency envelopes are at, and moves the oscillator on.
    fn sample(&mut self, amplitude: Position, pitch: Position, sample_rate: Self::Signal) -> Self::Signal;
}

/// One sounding note.
pub struct Voice<T> {
    amplitude: Contour,
    pitch: Contour,
    tone: T,
}

/// What a [`Voice`] holds.
pub struct VoiceModel<T> {
    pub amplitude: ContourModel,
    pub pitch: ContourModel,
    pub tone: T,
}

/// What a [`VoiceBank`] holds: the voices by note number, the sample clock,
/// and the timings that the next voice's two envelopes will get.
pub struct BankModel<T> {
    pub voices: Map<u8, VoiceModel<T>>,
    pub clock: u64,
    pub amplitude: Timing,
    pub pitch: Timing,
}

/// The voices of the engine, at most one per note number.
pub struct VoiceBank<T> {
    slots: Vec<Option<Voice<T>>>,
    clock: u64,
    amplitude: Timing,
    pitch: Timing,
}

impl<T> VoiceModel<T> {
    /// Whether the voice can have come about by `now`: both envelopes were
    /// started, together, and were released together or not at all, at ticks
    /// that the clock has reached.
    pub open spec fn sound(self, now: u64) -> bool {
        &&& self.amplitude.started is Some
        &&& self.pitch.started == self.amplitude.started
        &&& self.pitch.released == self.amplitude.released
        &&& self.amplitude.started->0 <= now
        &&& self.amplitude.released is Some ==> self.amplitude.released->0 <= now
    }

    /// The voice after a release at `now`: both envelopes are released, the
    /// tone is untouched.
    pub open spec fn release(self, now: u64) -> VoiceModel<T> {
        VoiceModel {
            amplitude: self.amplitude.release(now),
            pitch: self.pitch.release(now),
            tone: self.tone,
        }
    }

    /// Whether the voice has sounded out at `now`: only the amplitude
    /// envelope decides.
    pub open spec fn finished(self, now: u64) -> bool {
        self.amplitude.finished(now)
    }
}

impl<T> BankModel<T> {
    /// A bank without voices, its clock at zero.
    pub open spec fn empty(amplitude: Timing, pitch: Timing) -> BankModel<T> {
        BankModel { voices: Map::empty(), clock: 0, amplitude, pitch }
    }

    /// Whether every voice can have come about by the bank's clock. A bank
    /// that was made empty and changed by note-ons, note-offs, retiring and
    /// ticks of the clock is always so.
    pub open spec fn valid(self) -> bool {
        forall|note: u8| #[trigger]
            self.voices.contains_key(note) ==> self.voices[note].sound(self.clock)
    }

    /// Whether `note` has a voice that was not released yet.
    pub open spec fn is_held(self, note: u8) -> bool {
        self.voices.contains_key(note) && self.voices[note].amplitude.released is None
    }

    /// The voice that a note-on spawns now: both envelopes get the bank's
    /// current timings and start at the same tick.
    pub open spec fn spawn(self, tone: T) -> VoiceModel<T> {
        VoiceModel {
            amplitude: ContourModel::fresh(self.amplitude).start(self.clock),
            pitch: ContourModel::fresh(self.pitch).start(self.clock),
            tone,
        }
    }

    /// The bank after a note-on: nothing changes while the note is held;
    /// otherwise a new voice takes the note's place.
    pub open spec fn note_on(self, note: u8, tone: T) -> BankModel<T> {
        if self.is_held(note) {
            self
        } else {
            BankModel { voices: self.voices.insert(note, self.spawn(tone)), ..self }
        }
    }

    /// The bank after a note-off: the note's voice, if there is one, is
    /// released at the current tick.
    pub open spec fn note_off(self, note: u8) -> BankModel<T> {
        if self.voices.contains_key(note) {
            BankModel {
                voices: self.voices.insert(note, self.voices[note].release(self.clock)),
                ..self
            }
        } else {
            self
        }
    }

    /// The bank without the voices that have sounded out.
    pub open spec fn retire(self) -> BankModel<T> {
        BankModel {
            voices: Map::new(
                |note: u8| self.voices.contains_key(note) && !self.voices[note].finished(self.clock),
                |note: u8| self.voices[note],
            ),
            ..self
        }
    }

    /// The bank `ticks` samples later; the clock stops at the largest value it
    /// can hold.
    pub open spec fn advance(self, ticks: nat) -> BankModel<T> {
        BankModel {
            clock: if self.clock + ticks <= u64::MAX {
                (self.clock + ticks) as u64
            } else {
                u64::MAX
            },
            ..self
        }
    }

    /// The bank after one pull of a sample: the voices that have sounded out
    /// are retired, then the clock moves on by one tick.
    pub open spec fn pull(self) -> BankModel<T> {
        self.retire().advance(1)
    }

    /// The bank after `count` pulls.
    pub open spec fn pulls(self, count: nat) -> BankModel<T>
        decreases count,
    {
        if count == 0 {
            self
        } else {
            self.pull().pulls((count - 1) as nat)
        }
    }

    /// Whether two banks agree in everything but the tones: the same clock
    /// and timings, voices for the same notes, and the same envelopes.
    pub open spec fn agrees(self, other: BankModel<T>) -> bool {
        &&& self.clock == other.clock
        &&& self.amplitude == other.amplitude
        &&& self.pitch == other.pitch
        &&& self.voices.dom() == other.voices.dom()
        &&& forall|note: u8| #[trigger]
            self.voices.contains_key(note) ==> self.voices[note].amplitude
                == other.voices[note].amplitude && self.voices[note].pitch
                == other.voices[note].pitch
    }

    /// The bank with the tone of the voice of `note` replaced.
    pub open spec fn with_tone(self, note: u8, tone: T) -> BankModel<T> {
        BankModel {
            voices: self.voices.insert(note, VoiceModel { tone, ..self.voices[note] }),
            ..self
        }
    }

    /// Where the amplitude envelope of the voice of `note` is at the current
    /// tick, if the note has a voice.
    pub open spec fn amplitude_position(self, note: u8) -> Option<Position> {
        if self.voices.contains_key(note) {
            Some(self.voices[note].amplitude.position(self.clock))
        } else {
            None
        }
    }

    /// Where the frequency envelope of the voice of `note` is at the current
    /// tick, if the note has a voice.
    pub open spec fn pitch_position(self, note: u8) -> Option<Position> {
        if self.voices.contains_key(note) {
            Some(self.voices[note].pitch.position(self.clock))
        } else {
            None
        }
    }

    /// How many of the notes below `limit` have a voice.
    pub open spec fn sounding_below(self, limit: nat) -> nat
        decreases limit,
    {
        if limit == 0 {
            0
        } else {
            let rest = self.sounding_below((limit - 1) as nat);
            if self.voices.contains_key((limit - 1) as u8) {
                rest + 1
            } else {
                rest
            }
        }
    }

    /// How many voices there are.
    pub open spec fn sounding(self) -> nat {
        self.sounding_below(NOTES as nat)
    }
}

impl<T> View for Voice<T> {
    type V = VoiceModel<T>;

    closed spec fn view(&self) -> VoiceModel<T> {
        VoiceModel { amplitude: self.amplitude@, pitch: self.pitch@, tone: self.tone }
    }
}

impl<T> VoiceBank<T> {
    #[verifier::type_invariant]
    spec fn well_formed(self) -> bool {
        self.slots.len() == NOTES
    }

    /// What the bank holds.
    pub closed spec fn view(&self) -> BankModel<T> {
        BankModel {
            voices: Map::new(
                |note: u8| self.slots@[note as int] is Some,
                |note: u8| self.slots@[note as int].unwrap()@,
            ),
            clock: self.clock,
            amplitude: self.amplitude,
            pitch: self.pitch,
        }
    }

    /// A bank without voices, its clock at zero, that will give new voices the
    /// two timings.
    pub fn new(amplitude: Timing, pitch: Timing) -> (bank: Self)
        ensures
            bank@ == BankModel::<T>::empty(amplitude, pitch),
    {
        let mut slots: Vec<Option<Voice<T>>> = Vec::new();
        while slots.len() < NOTES
            invariant
                slots.len() <= NOTES,
                forall|i: int| 0 <= i < slots.len() ==> slots@[i] is None,
            decreases NOTES - slots.len(),
        {
            slots.push(None);
        }
        let bank = VoiceBank { slots, clock: 0, amplitude, pitch };
        assert(bank@.voices =~= Map::empty());
        bank
    }

    /// The current tick of the sample clock.
    pub fn clock(&self) -> (now: u64)
        ensures
            now == self@.clock,
    {
        self.clock
    }

    /// Whether `note` has a voice that was not released yet.
    pub fn is_held(&self, note: u8) -> (yes: bool)
        ensures
            yes == self@.is_held(note),
    {
        proof {
            use_type_invariant(self);
        }
        match &self.slots[note as usize] {
            Some(voice) => !voice.amplitude.is_released(),
            None => false,
        }
    }

    /// Spawns a voice for `note` with the given tone, unless the note is held;
    /// says whether it did. A held note keeps its voice, envelope clocks and
    /// tone included, and the offered tone is dropped.
    pub fn note_on(&mut self, note: u8, tone: T) -> (spawned: bool)
        ensures
            final(self)@ == old(self)@.note_on(note, tone),
            spawned == !old(self)@.is_held(note),
    {
        proof {
            use_type_invariant(&*self);
        }
        if self.is_held(note) {
            return false;
        }
        let mut amplitude = Contour::new(self.amplitude);
        amplitude.start(self.clock);
        let mut pitch = Contour::new(self.pitch);
        pitch.start(self.clock);
        self.slots[note as usize] = Some(Voice { amplitude, pitch, tone });
        assert(self@.voices =~= old(self)@.voices.insert(note, old(self)@.spawn(tone)));
        true
    }

    /// Releases the voice of `note` at the current tick, if there is one.
    pub fn note_off(&mut self, note: u8)
        ensures
            final(self)@ == old(self)@.note_off(note),
    {
        proof {
            use_type_invariant(&*self);
        }
        let now: u64 = self.clock;
        match &mut self.slots[note as usize] {
            Some(voice) => {
                voice.amplitude.release(now);
                voice.pitch.release(now);
            },
            None => {},
        }
        assert(self@.voices =~= old(self)@.note_off(note).voices);
    }

    /// The tone of the voice of `note`, to read and to change.
    pub fn tone_mut(&mut self, note: u8) -> (tone: Option<&mut T>)
        ensures
            match tone {
                Some(place) => {
                    &&& old(self)@.voices.contains_key(note)
                    &&& *place == old(self)@.voices[note].tone
                    &&& final(self)@.voices =~= old(self)@.with_tone(note, *final(place)).voices
                    &&& final(self)@ == old(self)@.with_tone(note, *final(place))
                },
                None => !old(self)@.voices.contains_key(note) && final(self)@ == old(self)@,
            },
    {
        proof {
            use_type_invariant(&*self);
        }
        if self.slots[note as usize].is_none() {
            return None;
        }
        match &mut self.slots[note as usize] {
            Some(voice) => Some(&mut voice.tone),
            None => None,
        }
    }

    /// Whether `note` has a voice, held or released.
    pub fn contains(&self, note: u8) -> (yes: bool)
        ensures
            yes == self@.voices.contains_key(note),
    {
        proof {
            use_type_invariant(self);
        }
        self.slots[note as usize].is_some()
    }

    /// The tone of the voice of `note`, to read.
    pub fn tone(&self, note: u8) -> (tone: Option<&T>)
        ensures
            match tone {
                Some(place) => self@.voices.contains_key(note) && *place == self@.voices[note].tone,
                None => !self@.voices.contains_key(note),
            },
    {
        proof {
            use_type_invariant(self);
        }
        match &self.slots[note as usize] {
            Some(voice) => Some(&voice.tone),
            None => None,
        }
    }

    /// Where the amplitude envelope of the voice of `note` is at the current
    /// tick.
    pub fn amplitude_position(&self, note: u8) -> (place: Option<Position>)
        ensures
            place == self@.amplitude_position(note),
    {
        proof {
            use_type_invariant(self);
        }
        match &self.slots[note as usize] {
            Some(voice) => Some(voice.amplitude.position(self.clock)),
            None => None,
        }
    }

    /// Where the frequency envelope of the voice of `note` is at the current
    /// tick.
    pub fn pitch_position(&self, note: u8) -> (place: Option<Position>)
        ensures
            place == self@.pitch_position(note),
    {
        proof {
            use_type_invariant(self);
        }
        match &self.slots[note as usize] {
            Some(voice) => Some(voice.pitch.position(self.clock)),
            None => None,
        }
    }

    /// The timing that the amplitude envelope of the next voice will get.
    pub fn amplitude_timing(&self) -> (timing: Timing)
        ensures
            timing == self@.amplitude,
    {
        self.amplitude
    }

    /// The timing that the frequency envelope of the next voice will get.
    pub fn pitch_timing(&self) -> (timing: Timing)
        ensures
            timing == self@.pitch,
    {
        self.pitch
    }

    /// Sets the timing for the amplitude envelopes of voices spawned from now
    /// on. Voices that already sound keep theirs.
    pub fn set_amplitude_timing(&mut self, timing: Timing)
        ensures
            final(self)@ == (BankModel { amplitude: timing, ..old(self)@ }),
    {
        proof {
            use_type_invariant(&*self);
        }
        self.amplitude = timing;
    }

    /// Sets the timing for the frequency envelopes of voices spawned from now
    /// on. Voices that already sound keep theirs.
    pub fn set_pitch_timing(&mut self, timing: Timing)
        ensures
            final(self)@ == (BankModel { pitch: timing, ..old(self)@ }),
    {
        proof {
            use_type_invariant(&*self);
        }
        self.pitch = timing;
    }

    /// Removes every voice whose amplitude envelope has run out its release
    /// time, and says how many voices are left.
    pub fn retire(&mut self) -> (live: usize)
        ensures
            final(self)@ == old(self)@.retire(),
            live == final(self)@.sounding(),
    {
        proof {
            use_type_invariant(&*self);
        }
        let now: u64 = self.clock;
        let mut live: usize = 0;
        let mut i: usize = 0;
        while i < NOTES
            invariant
                i <= NOTES,
                self.slots.len() == NOTES,
                self.clock == now,
                self.clock == old(self).clock,
                self.amplitude == old(self).amplitude,
                self.pitch == old(self).pitch,
                forall|j: int| i <= j < NOTES ==> self.slots@[j] == old(self).slots@[j],
                forall|j: int|
                    0 <= j < i ==> self.slots@[j] == (if old(self).slots@[j] is Some && old(
                        self,
                    ).slots@[j].unwrap()@.finished(now) {
                        None
                    } else {
                        old(self).slots@[j]
                    }),
                live == old(self)@.retire().sounding_below(i as nat),
                live <= i,
            decreases NOTES - i,
        {
            let gone: bool = match &self.slots[i] {
                Some(voice) => voice.amplitude.is_finished(now),
                None => false,
            };
            if gone {
                self.slots[i] = None;
            } else if self.slots[i].is_some() {
                live += 1;
            }
            i += 1;
        }
        assert(self@.voices =~= old(self)@.retire().voices);
        live
    }

    /// How many voices there are.
    pub fn voice_count(&self) -> (live: usize)
        ensures
            live == self@.sounding(),
    {
        proof {
            use_type_invariant(self);
        }
        let mut live: usize = 0;
        let mut i: usize = 0;
        while i < NOTES
            invariant
                i <= NOTES,
                self.slots.len() == NOTES,
                live == self@.sounding_below(i as nat),
                live <= i,
            decreases NOTES - i,
        {
            if self.slots[i].is_some() {
                live += 1;
            }
            i += 1;
        }
        live
    }

    /// Takes one sample from every voice, in ascending order of note number,
    /// and leaves the samples in `frame` in that order, in place of whatever
    /// `frame` held.
    ///
    /// Each voice is sampled exactly once, for the places its two envelopes
    /// are at on the current tick, and keeps its envelopes; what its sample is
    /// and what becomes of its tone is what its oscillator says. No voice
    /// comes or goes, and the clock stands.
    pub fn render(&mut self, sample_rate: T::Signal, frame: &mut Vec<T::Signal>) where
        T: Oscillator,
        T::Signal: Copy,

        ensures
            final(self)@.agrees(old(self)@),
            final(frame)@.len() == old(self)@.sounding(),
            forall|note: u8|
                #[trigger] old(self)@.voices.contains_key(note) ==> exists|tone: &mut T|
                    *tone == old(self)@.voices[note].tone
                    && *final(tone) == final(self)@.voices[note].tone
                    && #[trigger] call_ensures(
                        T::sample,
                        (
                            tone,
                            old(self)@.voices[note].amplitude.position(old(self)@.clock),
                            old(self)@.voices[note].pitch.position(old(self)@.clock),
                            sample_rate,
                        ),
                        final(frame)@[old(self)@.sounding_below(note as nat) as int],
                    ),
    {
        proof {
            use_type_invariant(&*self);
        }
        frame.clear();
        let now: u64 = self.clock;
        let mut i: usize = 0;
        while i < NOTES
            invariant
                i <= NOTES,
                self.slots.len() == NOTES,
                self.clock == now,
                self.clock == old(self).clock,
                self.amplitude == old(self).amplitude,
                self.pitch == old(self).pitch,
                frame@.len() == old(self)@.sounding_below(i as nat),
                forall|j: int| i <= j < NOTES ==> self.slots@[j] == old(self).slots@[j],
                forall|j: int|
                    0 <= j < i ==> (#[trigger] self.slots@[j] is Some) == (old(self).slots@[j] is Some),
                forall|j: int|
                    0 <= j < i && #[trigger] old(self).slots@[j] is Some ==> {
                        &&& self.slots@[j].unwrap().amplitude == old(self).slots@[j].unwrap().amplitude
                        &&& self.slots@[j].unwrap().pitch == old(self).slots@[j].unwrap().pitch
                        &&& old(self)@.sounding_below(j as nat) < frame@.len()
                        &&& exists|tone: &mut T|
                            {
                                &&& *tone == old(self).slots@[j].unwrap().tone
                                &&& *final(tone) == self.slots@[j].unwrap().tone
                                &&& #[trigger] call_ensures(
                                    T::sample,
                                    (
                                        tone,
                                        old(self).slots@[j].unwrap().amplitude@.position(now),
                                        old(self).slots@[j].unwrap().pitch@.position(now),
                                        sample_rate,
                                    ),
                                    frame@[old(self)@.sounding_below(j as nat) as int],
                                )
                            }
                    },
            decreases NOTES - i,
        {
            let ghost before = self.slots@;
            let ghost earlier = frame@;
            let ghost at = i as int;
            match &mut self.slots[i] {
                Some(voice) => {
                    let amplitude_at = voice.amplitude.position(now);
                    let pitch_at = voice.pitch.position(now);
                    let sample = voice.tone.sample(amplitude_at, pitch_at, sample_rate);
                    frame.push(sample);
                },
                None => {},
            }
            i += 1;
            proof {
                assert forall|j: int|
                    0 <= j < i && #[trigger] old(self).slots@[j] is Some implies {
                    &&& self.slots@[j].unwrap().amplitude == old(self).slots@[j].unwrap().amplitude
                    &&& self.slots@[j].unwrap().pitch == old(self).slots@[j].unwrap().pitch
                    &&& old(self)@.sounding_below(j as nat) < frame@.len()
                    &&& exists|tone: &mut T|
                        {
                            &&& *tone == old(self).slots@[j].unwrap().tone
                            &&& *final(tone) == self.slots@[j].unwrap().tone
                            &&& #[trigger] call_ensures(
                                T::sample,
                                (
                                    tone,
                                    old(self).slots@[j].unwrap().amplitude@.position(now),
                                    old(self).slots@[j].unwrap().pitch@.position(now),
                                    sample_rate,
                                ),
                                frame@[old(self)@.sounding_below(j as nat) as int],
                            )
                        }
                } by {
                    lemma_sounding_below_grows(old(self)@, j as nat, at as nat);
                    if j < at {
                        assert(self.slots@[j] == before[j]);
                        let tone = choose|tone: &mut T|
                            {
                                &&& *tone == old(self).slots@[j].unwrap().tone
                                &&& *final(tone) == before[j].unwrap().tone
                                &&& #[trigger] call_ensures(
                                    T::sample,
                                    (
                                        tone,
                                        old(self).slots@[j].unwrap().amplitude@.position(now),
                                        old(self).slots@[j].unwrap().pitch@.position(now),
                                        sample_rate,
                                    ),
                                    earlier[old(self)@.sounding_below(j as nat) as int],
                                )
                            };
                        assert(frame@[old(self)@.sounding_below(j as nat) as int]
                            == earlier[old(self)@.sounding_below(j as nat) as int]);
                    } else {
                        assert(before[at] == old(self).slots@[j]);
                        assert(frame@.len() == earlier.len() + 1);
                        assert(frame@[old(self)@.sounding_below(j as nat) as int] == frame@.last());
                    }
                }
            }
        }
        proof {
            assert(self@.voices.dom() =~= old(self)@.voices.dom());
            assert forall|note: u8| #[trigger] old(self)@.voices.contains_key(note) implies {
                &&& self@.voices[note].amplitude == old(self)@.voices[note].amplitude
                &&& self@.voices[note].pitch == old(self)@.voices[note].pitch
                &&& exists|tone: &mut T|
                    {
                        &&& *tone == old(self)@.voices[note].tone
                        &&& *final(tone) == self@.voices[note].tone
                        &&& #[trigger] call_ensures(
                            T::sample,
                            (
                                tone,
                                old(self)@.voices[note].amplitude.position(old(self)@.clock),
                                old(self)@.voices[note].pitch.position(old(self)@.clock),
                                sample_rate,
                            ),
                            frame@[old(self)@.sounding_below(note as nat) as int],
                        )
                    }
            } by {
                let j = note as int;
                assert(old(self).slots@[j] is Some);
                let tone = choose|tone: &mut T|
                    {
                        &&& *tone == old(self).slots@[j].unwrap().tone
                        &&& *final(tone) == self.slots@[j].unwrap().tone
                        &&& #[trigger] call_ensures(
                            T::sample,
                            (
                                tone,
                                old(self).slots@[j].unwrap().amplitude@.position(now),
                                old(self).slots@[j].unwrap().pitch@.position(now),
                                sample_rate,
                            ),
                            frame@[old(self)@.sounding_below(j as nat) as int],
                        )
                    };
                assert(*tone == old(self)@.voices[note].tone);
            }
        }
    }

    /// Moves the sample clock on by one tick. The clock stops at the largest
    /// value it can hold.
    pub fn advance(&mut self)
        ensures
            final(self)@ == old(self)@.advance(1),
    {
        proof {
            use_type_invariant(&*self);
        }
        if self.clock < u64::MAX {
            self.clock += 1;
        }
    }
}

/// A note-on for a note that is held changes nothing: the voice keeps its
/// envelope clocks, so the note is not triggered again.
pub proof fn lemma_held_note_is_not_retriggered<T>(bank: BankModel<T>, note: u8, tone: T)
    requires
        bank.is_held(note),
    ensures
        bank.note_on(note, tone) == bank,
        bank.note_on(note, tone).voices[note].amplitude.started
            == bank.voices[note].amplitude.started,
        bank.note_on(note, tone).voices[note].pitch.started == bank.voices[note].pitch.started,
{
}

/// A note-on for a note that is not held spawns a voice whose two envelopes
/// start at the current tick with the bank's timings; every other note keeps
/// what it had.
pub proof fn lemma_note_on_spawns<T>(bank: BankModel<T>, note: u8, tone: T)
    requires
        !bank.is_held(note),
    ensures
        bank.note_on(note, tone).is_held(note),
        bank.note_on(note, tone).voices[note] == bank.spawn(tone),
        bank.spawn(tone).amplitude.started == Some(bank.clock),
        bank.spawn(tone).pitch.started == Some(bank.clock),
        bank.spawn(tone).amplitude.timing == bank.amplitude,
        bank.spawn(tone).pitch.timing == bank.pitch,
        forall|other: u8|
            other != note ==> bank.note_on(note, tone).voices.contains_key(other)
                == bank.voices.contains_key(other) && bank.note_on(note, tone).voices[other]
                == bank.voices[other],
{
}

/// The voice of a released note lives through the pulls that fall within its
/// release time and no longer. On a bank whose clock has not run past the
/// release by more than the release time, the voice is there after `count`
/// pulls exactly if `count` is zero or the pull before found time left, and
/// while it is there it is as it was, `count` ticks later.
pub proof fn lemma_pulls_of_released_voice<T>(bank: BankModel<T>, note: u8, count: nat)
    requires
        bank.voices.contains_key(note),
        bank.voices[note].amplitude.released is Some,
        bank.voices[note].amplitude.released->0 <= bank.clock,
        bank.clock + count <= u64::MAX,
    ensures
        ({
            let voice = bank.voices[note];
            let run = bank.clock - voice.amplitude.released->0;
            let later = bank.pulls(count);
            &&& later.clock == bank.clock + count
            &&& later.voices.contains_key(note) <==> count == 0 || run + count - 1
                < voice.amplitude.timing.release
            &&& later.voices.contains_key(note) ==> later.voices[note] == voice
        }),
    decreases count,
{
    if count > 0 {
        let next = bank.pull();
        if next.voices.contains_key(note) {
            lemma_pulls_of_released_voice(next, note, (count - 1) as nat);
        } else {
            lemma_pulls_keep_out(next, note, (count - 1) as nat);
        }
    }
}

/// Pulls bring no voice in: a note without a voice has none after any number
/// of pulls.
pub proof fn lemma_pulls_keep_out<T>(bank: BankModel<T>, note: u8, count: nat)
    requires
        !bank.voices.contains_key(note),
    ensures
        !bank.pulls(count).voices.contains_key(note),
        bank.pulls(count).clock == bank.advance(count).clock,
    decreases count,
{
    if count > 0 {
        lemma_pulls_keep_out(bank.pull(), note, (count - 1) as nat);
    }
}

/// A note that is switched on and at once off again sounds out over its
/// release time, pull by pull: after `count` pulls short of the release time
/// its amplitude envelope is `count` parts in `release` of the way from the
/// sustain value to the base, after exactly `release` pulls it rests at the
/// base, and one pull later the voice is gone for good.
pub proof fn lemma_released_note_sounds_out<T>(bank: BankModel<T>, note: u8, tone: T, count: nat)
    requires
        bank.valid(),
        bank.clock + count <= u64::MAX,
    ensures
        ({
            let released = bank.note_on(note, tone).note_off(note);
            let release = released.voices[note].amplitude.timing.release;
            let later = released.pulls(count);
            &&& count < release ==> later.amplitude_position(note) == Some(
                Position {
                    from: Anchor::Sustain,
                    to: Anchor::Base,
                    num: count as u64,
                    den: release,
                },
            )
            &&& count == release ==> later.amplitude_position(note) == Some(at_rest())
            &&& count > release ==> later.amplitude_position(note) is None
        }),
{
    let released = bank.note_on(note, tone).note_off(note);
    lemma_pulls_of_released_voice(released, note, count);
}

/// Every change a bank can undergo keeps it valid.
pub proof fn lemma_valid_is_kept<T>(bank: BankModel<T>, note: u8, tone: T, ticks: nat)
    requires
        bank.valid(),
    ensures
        BankModel::<T>::empty(bank.amplitude, bank.pitch).valid(),
        bank.note_on(note, tone).valid(),
        bank.note_off(note).valid(),
        bank.retire().valid(),
        bank.advance(ticks).valid(),
        bank.pull().valid(),
        bank.voices.contains_key(note) ==> bank.with_tone(note, tone).valid(),
        forall|other: BankModel<T>| #[trigger] other.agrees(bank) ==> other.valid(),
{
    assert forall|other: BankModel<T>| #[trigger] other.agrees(bank) implies other.valid() by {
        assert forall|key: u8| #[trigger] other.voices.contains_key(key) implies other.voices[key].sound(
            other.clock,
        ) by {
            assert(bank.voices.contains_key(key));
        }
    }
    assert(bank.retire().valid()) by {
        assert forall|key: u8| #[trigger]
            bank.retire().voices.contains_key(key) implies bank.retire().voices[key].sound(
            bank.clock,
        ) by {
            assert(bank.voices.contains_key(key));
        }
    }
    assert(bank.pull().valid()) by {
        assert forall|key: u8| #[trigger]
            bank.pull().voices.contains_key(key) implies bank.pull().voices[key].sound(
            bank.pull().clock,
        ) by {
            assert(bank.voices.contains_key(key));
        }
    }
}

/// Pulling keeps agreement: two banks that agree in everything but the tones
/// still do after a pull each.
pub proof fn lemma_pull_keeps_agreement<T>(one: BankModel<T>, other: BankModel<T>)
    requires
        one.agrees(other),
    ensures
        one.pull().agrees(other.pull()),
{
    assert(one.pull().voices.dom() =~= other.pull().voices.dom()) by {
        assert forall|note: u8|
            one.pull().voices.contains_key(note) == other.pull().voices.contains_key(note) by {
            if one.voices.contains_key(note) {
                assert(other.voices.contains_key(note));
            }
            if other.voices.contains_key(note) {
                assert(one.voices.contains_key(note));
            }
        }
    }
    assert forall|note: u8| #[trigger] one.pull().voices.contains_key(note) implies one.pull().voices[note].amplitude
        == other.pull().voices[note].amplitude && one.pull().voices[note].pitch
        == other.pull().voices[note].pitch by {
        assert(one.voices.contains_key(note));
    }
}

/// Changing the timings for voices yet to come leaves the voices that sound as
/// they are.
pub proof fn lemma_timing_is_fixed_at_note_on<T>(
    bank: BankModel<T>,
    amplitude: Timing,
    pitch: Timing,
    note: u8,
)
    requires
        bank.voices.contains_key(note),
    ensures
        (BankModel { amplitude, pitch, ..bank }).voices[note] == bank.voices[note],
        (BankModel { amplitude, pitch, ..bank }).amplitude_position(note)
            == bank.amplitude_position(note),
        (BankModel { amplitude, pitch, ..bank }).pitch_position(note) == bank.pitch_position(note),
{
}

/// The count of voices below a limit does not shrink as the limit rises, and
/// a voice at `low` is counted from `low + 1` on.
pub proof fn lemma_sounding_below_grows<T>(bank: BankModel<T>, low: nat, high: nat)
    requires
        low <= high <= NOTES,
    ensures
        bank.sounding_below(low) <= bank.sounding_below(high),
        low < high && bank.voices.contains_key(low as u8) ==> bank.sounding_below(low)
            < bank.sounding_below(high),
    decreases high - low,
{
    if low < high {
        lemma_sounding_below_grows(bank, low, (high - 1) as nat);
    }
}

/// A bank counts no voices exactly when no note has one.
pub proof fn lemma_silent_bank<T>(bank: BankModel<T>)
    ensures
        bank.sounding() == 0 <==> (forall|note: u8| !bank.voices.contains_key(note)),
{
    lemma_sounding_below(bank, NOTES as nat);
}

/// The count of voices below a limit is at most the limit, and is zero exactly
/// when no note below the limit has a voice.
pub proof fn lemma_sounding_below<T>(bank: BankModel<T>, limit: nat)
    requires
        limit <= NOTES,
    ensures
        bank.sounding_below(limit) <= limit,
        bank.sounding_below(limit) == 0 <==> (forall|note: u8|
            note < limit ==> !bank.voices.contains_key(note)),
    decreases limit,
{
    if limit > 0 {
        lemma_sounding_below(bank, (limit - 1) as nat);
        if bank.sounding_below(limit) == 0 {
            assert forall|note: u8| note < limit implies !bank.voices.contains_key(note) by {
                if note == limit - 1 {
                    assert(note == (limit - 1) as u8);
                }
            }
        } else if bank.voices.contains_key((limit - 1) as u8) {
            assert(((limit - 1) as u8) < limit);
        }
    }
}

/// The notes below `limit` that have a voice.
pub open spec fn notes_below<T>(bank: BankModel<T>, limit: nat) -> Set<u8> {
    Set::new(|note: u8| note < limit && bank.voices.contains_key(note))
}

/// Counting voices note by note gives the size of the set of sounding notes.
pub proof fn lemma_sounding_is_cardinality<T>(bank: BankModel<T>, limit: nat)
    requires
        limit <= NOTES,
    ensures
        notes_below(bank, limit).finite(),
        notes_below(bank, limit).len() == bank.sounding_below(limit),
        limit == NOTES ==> notes_below(bank, limit) == bank.voices.dom(),
    decreases limit,
{
    if limit == 0 {
        assert(notes_below(bank, limit) =~= Set::<u8>::empty());
    } else {
        let last = (limit - 1) as u8;
        lemma_sounding_is_cardinality(bank, (limit - 1) as nat);
        let before = notes_below(bank, (limit - 1) as nat);
        if bank.voices.contains_key(last) {
            assert(notes_below(bank, limit) =~= before.insert(last));
        } else {
            assert(notes_below(bank, limit) =~= before);
        }
    }
    if limit == NOTES {
        assert(notes_below(bank, limit) =~= bank.voices.dom());
    }
}

} // verus!
