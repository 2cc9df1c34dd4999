use polysynth::waveform::{Waveform, MAX_HARMONICS};

type Wave = Waveform<[f32; 16]>;

fn table() -> [f32; 16] {
    [
        1.0, 0.5, 0.33, 0.25, 0.2, 0.17, 0.14, 0.13, 0.11, 0.1, 0.09, 0.08, 0.07, 0.06, 0.05, 0.04,
    ]
}

#[test]
fn fixed_waveforms_are_taken_as_they_are() {
    for wave in [Wave::Sine, Wave::Square, Wave::Sawtooth, Wave::Triangle, Wave::Noise] {
        assert!(wave.snapshot(8, table()) == wave);
        assert_eq!(wave.harmonics(), 0);
    }
}

#[test]
fn additive_takes_the_current_count_and_weights() {
    let selected = Wave::Additive { num_harmonics: 1, harmonic_weights: [0.0; 16] };
    let taken = selected.snapshot(8, table());
    assert!(taken == Wave::Additive { num_harmonics: 8, harmonic_weights: table() });
    assert_eq!(taken.harmonics(), 8);
}

#[test]
fn harmonics_are_capped() {
    assert_eq!(MAX_HARMONICS, 16);
    let weights = table();
    let count = |n: usize| Wave::Additive { num_harmonics: n, harmonic_weights: weights }.harmonics();
    assert_eq!(count(0), 0);
    assert_eq!(count(1), 1);
    assert_eq!(count(15), 15);
    assert_eq!(count(16), 16);
    assert_eq!(count(17), 16);
    assert_eq!(count(usize::MAX), 16);
}
