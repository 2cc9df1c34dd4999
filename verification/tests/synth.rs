use polysynth::chain::Stage;
use polysynth::contour::{Anchor, Position, Timing};
use polysynth::ring::DelayLine;
use polysynth::synth::{Mixer, Synth};
use polysynth::voices::Oscillator;

/// A voice of constant level, scaled by its amplitude envelope with a sustain
/// level of one half.
struct Steady {
    level: f32,
    taken: u32,
}

impl Oscillator for Steady {
    type Signal = f32;

    fn sample(&mut self, amplitude: Position, _pitch: Position, _sample_rate: f32) -> f32 {
        let pick = |anchor: Anchor| match anchor {
            Anchor::Base => 0.0,
            Anchor::Peak => 1.0,
            Anchor::Sustain => 0.5,
        };
        let from = pick(amplitude.from);
        let to = pick(amplitude.to);
        self.taken += 1;
        self.level * (from + (to - from) * (amplitude.num as f32 / amplitude.den as f32))
    }
}

struct Mean;

impl Mixer for Mean {
    type Signal = f32;

    fn silence(&self) -> f32 {
        0.0
    }

    fn mix(&self, frame: &Vec<f32>) -> f32 {
        frame.iter().sum::<f32>() / frame.len() as f32
    }
}

struct Sum;

impl Mixer for Sum {
    type Signal = f32;

    fn silence(&self) -> f32 {
        -1.0
    }

    fn mix(&self, frame: &Vec<f32>) -> f32 {
        frame.iter().sum::<f32>()
    }
}

/// A stage that doubles.
struct Double;

impl Stage for Double {
    type Signal = f32;

    fn process(&mut self, sample: f32, _sample_rate: f32) -> f32 {
        sample * 2.0
    }

    fn reset(&mut self) {}
}

fn instant() -> Timing {
    Timing { attack: 0, decay: 0, release: 2 }
}

fn steady(level: f32) -> Steady {
    Steady { level, taken: 0 }
}

#[test]
fn engine_without_voices_gives_the_mixers_silence() {
    let mut synth: Synth<Steady, Double, Sum> = Synth::new(instant(), instant(), Sum, 44100.0);
    assert_eq!(synth.next_sample(), -1.0);
    assert!(synth.frame.is_empty());
    synth.effects.add_effect(Double);
    assert_eq!(synth.next_sample(), -2.0);
    assert_eq!(synth.voices.clock(), 2);
}

#[test]
fn equal_voices_mix_to_their_common_level() {
    for k in [1u8, 2, 3, 5, 8, 64] {
        let mut synth: Synth<Steady, Double, Mean> =
            Synth::new(instant(), instant(), Mean, 44100.0);
        for note in 0..k {
            assert!(synth.note_on(note, steady(0.25)));
        }
        // held at a sustain level of one half
        assert_eq!(synth.next_sample(), 0.125);
        assert_eq!(synth.frame.len(), k as usize);
    }
}

#[test]
fn the_mix_goes_through_the_chain() {
    let mut synth: Synth<Steady, Double, Mean> = Synth::new(instant(), instant(), Mean, 44100.0);
    synth.effects.add_effect(Double);
    synth.effects.add_effect(Double);
    synth.note_on(60, steady(1.0));
    synth.note_on(61, steady(3.0));
    assert_eq!(synth.frame, Vec::<f32>::new());
    assert_eq!(synth.next_sample(), 4.0);
    assert_eq!(synth.frame, vec![0.5, 1.5]);
}

#[test]
fn released_voice_sounds_for_its_release_time_and_is_then_retired() {
    for note in [0u8, 1, 60, 127, 128, 255] {
        let mut synth: Synth<Steady, Double, Mean> =
            Synth::new(instant(), instant(), Mean, 44100.0);
        synth.note_on(note, steady(1.0));
        synth.note_off(note);
        assert_eq!(synth.next_sample(), 0.5);
        assert_eq!(synth.next_sample(), 0.25);
        assert!(synth.voices.contains(note));
        assert_eq!(synth.next_sample(), 0.0);
        assert!(!synth.voices.contains(note));
        assert!(synth.frame.is_empty());
        assert_eq!(synth.next_sample(), 0.0);
        assert_eq!(synth.voices.clock(), 4);
    }
}

#[test]
fn a_retired_voice_is_not_sampled() {
    let mut synth: Synth<Steady, Double, Sum> = Synth::new(instant(), instant(), Sum, 44100.0);
    synth.note_on(1, steady(1.0));
    synth.note_on(2, steady(4.0));
    synth.note_off(1);
    assert_eq!(synth.next_sample(), 2.5);
    assert_eq!(synth.next_sample(), 2.25);
    assert_eq!(synth.next_sample(), 2.0);
    assert_eq!(synth.frame, vec![2.0]);
    assert_eq!(synth.voices.tone(2).map(|tone| tone.taken), Some(3));
    assert!(!synth.voices.contains(1));
}

#[test]
fn note_on_for_a_held_note_keeps_the_voice() {
    let mut synth: Synth<Steady, Double, Mean> = Synth::new(
        Timing { attack: 4, decay: 0, release: 1 },
        instant(),
        Mean,
        44100.0,
    );
    assert!(synth.note_on(9, steady(1.0)));
    assert_eq!(synth.next_sample(), 0.0);
    assert_eq!(synth.next_sample(), 0.25);
    assert!(!synth.note_on(9, steady(100.0)));
    assert_eq!(synth.next_sample(), 0.5);
    assert_eq!(synth.next_sample(), 0.75);
    assert_eq!(synth.next_sample(), 0.5);
}

#[test]
fn delay_lines_serve_as_the_chain_of_an_engine() {
    let mut synth: Synth<Steady, DelayLine<f32>, Mean> =
        Synth::new(instant(), instant(), Mean, 44100.0);
    synth.effects.add_effect(DelayLine::new(2, 0.0));
    synth.note_on(5, steady(2.0));
    assert_eq!(synth.next_sample(), 0.0);
    assert_eq!(synth.next_sample(), 0.0);
    assert_eq!(synth.next_sample(), 1.0);
}
