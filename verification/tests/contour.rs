use polysynth::contour::{ticks_since, Anchor, Contour, Position, Timing};

/// The level a position stands for, given the three anchor values.
fn level(place: Position, base: f32, peak: f32, sustain: f32) -> f32 {
    let pick = |anchor: Anchor| match anchor {
        Anchor::Base => base,
        Anchor::Peak => peak,
        Anchor::Sustain => sustain,
    };
    let from = pick(place.from);
    let to = pick(place.to);
    from + (to - from) * (place.num as f32 / place.den as f32)
}

fn amplitude(contour: &Contour, now: u64, sustain: f32) -> f32 {
    level(contour.position(now), 0.0, 1.0, sustain)
}

fn rest() -> Position {
    Position { from: Anchor::Base, to: Anchor::Base, num: 0, den: 1 }
}

fn hold() -> Position {
    Position { from: Anchor::Sustain, to: Anchor::Sustain, num: 0, den: 1 }
}

#[test]
fn ticks_since_counts_and_stops_at_zero() {
    assert_eq!(ticks_since(10, 4), 6);
    assert_eq!(ticks_since(4, 4), 0);
    assert_eq!(ticks_since(3, 4), 0);
    assert_eq!(ticks_since(u64::MAX, 0), u64::MAX);
    assert_eq!(ticks_since(0, u64::MAX), 0);
}

#[test]
fn new_contour_is_not_started() {
    let timing = Timing { attack: 10, decay: 20, release: 30 };
    let contour = Contour::new(timing);
    assert_eq!(contour.timing(), timing);
    assert_eq!(contour.started_at(), None);
    assert_eq!(contour.released_at(), None);
    assert!(!contour.is_released());
    assert!(!contour.is_finished(1000));
    assert_eq!(contour.position(0), rest());
    assert_eq!(contour.position(12345), rest());
    assert_eq!(amplitude(&contour, 5, 0.7), 0.0);
    assert_eq!(level(contour.position(5), 1.0, 2.0, 1.5), 1.0);
}

#[test]
fn amplitude_meets_at_the_stage_boundaries() {
    // attack 0.1 s, decay 0.1 s, sustain 0.7, at 1000 samples per second
    let mut contour = Contour::new(Timing { attack: 100, decay: 100, release: 300 });
    contour.start(0);
    assert_eq!(amplitude(&contour, 0, 0.7), 0.0);
    assert_eq!(amplitude(&contour, 100, 0.7), 1.0);
    assert_eq!(amplitude(&contour, 200, 0.7), 0.7);
    assert_eq!(amplitude(&contour, 201, 0.7), 0.7);
    assert_eq!(amplitude(&contour, 5000, 0.7), 0.7);
    assert_eq!(amplitude(&contour, u64::MAX, 0.7), 0.7);
    assert_eq!(amplitude(&contour, 50, 0.7), 0.5);
    let mid = amplitude(&contour, 150, 0.7);
    assert!((mid - 0.85).abs() < 1e-6);
}

#[test]
fn positions_through_attack_decay_and_hold() {
    let mut contour = Contour::new(Timing { attack: 4, decay: 2, release: 3 });
    contour.start(10);
    assert_eq!(contour.started_at(), Some(10));
    assert_eq!(contour.position(10), Position { from: Anchor::Base, to: Anchor::Peak, num: 0, den: 4 });
    assert_eq!(contour.position(13), Position { from: Anchor::Base, to: Anchor::Peak, num: 3, den: 4 });
    assert_eq!(contour.position(14), Position { from: Anchor::Peak, to: Anchor::Sustain, num: 0, den: 2 });
    assert_eq!(contour.position(15), Position { from: Anchor::Peak, to: Anchor::Sustain, num: 1, den: 2 });
    assert_eq!(contour.position(16), hold());
    assert_eq!(contour.position(1_000_000), hold());
    // a clock reading before the start counts as the start
    assert_eq!(contour.position(3), Position { from: Anchor::Base, to: Anchor::Peak, num: 0, den: 4 });
}

#[test]
fn release_ramps_from_sustain_to_base_and_ends_exactly() {
    let mut contour = Contour::new(Timing { attack: 4, decay: 2, release: 4 });
    contour.start(0);
    contour.release(20);
    assert!(contour.is_released());
    assert_eq!(contour.released_at(), Some(20));
    assert_eq!(contour.position(20), Position { from: Anchor::Sustain, to: Anchor::Base, num: 0, den: 4 });
    assert_eq!(contour.position(21), Position { from: Anchor::Sustain, to: Anchor::Base, num: 1, den: 4 });
    assert_eq!(contour.position(23), Position { from: Anchor::Sustain, to: Anchor::Base, num: 3, den: 4 });
    assert!(!contour.is_finished(23));
    assert_eq!(contour.position(24), rest());
    assert!(contour.is_finished(24));
    assert_eq!(contour.position(25), rest());
    assert!(contour.is_finished(u64::MAX));
    assert_eq!(amplitude(&contour, 20, 0.8), 0.8);
    assert_eq!(amplitude(&contour, 22, 0.8), 0.4);
    assert_eq!(amplitude(&contour, 24, 0.8), 0.0);
    assert_eq!(amplitude(&contour, 9999, 0.8), 0.0);
}

#[test]
fn release_during_attack_starts_from_sustain() {
    let mut contour = Contour::new(Timing { attack: 100, decay: 100, release: 10 });
    contour.start(0);
    contour.release(1);
    assert_eq!(contour.position(1), Position { from: Anchor::Sustain, to: Anchor::Base, num: 0, den: 10 });
    assert_eq!(contour.position(6), Position { from: Anchor::Sustain, to: Anchor::Base, num: 5, den: 10 });
    assert_eq!(contour.position(11), rest());
}

#[test]
fn frequency_multiplier_returns_to_unity() {
    // multipliers: start 1.0, peak 2.0, sustain 1.5
    let mut contour = Contour::new(Timing { attack: 10, decay: 20, release: 30 });
    assert_eq!(level(contour.position(0), 1.0, 2.0, 1.5), 1.0);
    contour.start(0);
    assert_eq!(level(contour.position(0), 1.0, 2.0, 1.5), 1.0);
    assert_eq!(level(contour.position(5), 1.0, 2.0, 1.5), 1.5);
    assert_eq!(level(contour.position(10), 1.0, 2.0, 1.5), 2.0);
    assert_eq!(level(contour.position(20), 1.0, 2.0, 1.5), 1.75);
    assert_eq!(level(contour.position(30), 1.0, 2.0, 1.5), 1.5);
    assert_eq!(level(contour.position(400), 1.0, 2.0, 1.5), 1.5);
    contour.release(400);
    assert_eq!(level(contour.position(400), 1.0, 2.0, 1.5), 1.5);
    assert_eq!(level(contour.position(415), 1.0, 2.0, 1.5), 1.25);
    assert_eq!(level(contour.position(430), 1.0, 2.0, 1.5), 1.0);
    assert_eq!(level(contour.position(431), 1.0, 2.0, 1.5), 1.0);
}

#[test]
fn zero_length_stages_are_skipped() {
    let mut no_attack = Contour::new(Timing { attack: 0, decay: 4, release: 0 });
    no_attack.start(7);
    assert_eq!(no_attack.position(7), Position { from: Anchor::Peak, to: Anchor::Sustain, num: 0, den: 4 });
    no_attack.release(8);
    assert_eq!(no_attack.position(8), rest());
    assert!(no_attack.is_finished(8));

    let mut no_decay = Contour::new(Timing { attack: 2, decay: 0, release: 1 });
    no_decay.start(0);
    assert_eq!(no_decay.position(1), Position { from: Anchor::Base, to: Anchor::Peak, num: 1, den: 2 });
    assert_eq!(no_decay.position(2), hold());

    let mut nothing = Contour::new(Timing { attack: 0, decay: 0, release: 0 });
    nothing.start(0);
    assert_eq!(nothing.position(0), hold());
}

#[test]
fn the_first_start_counts() {
    let mut contour = Contour::new(Timing { attack: 10, decay: 10, release: 10 });
    contour.start(5);
    contour.start(9);
    assert_eq!(contour.started_at(), Some(5));
    assert_eq!(contour.position(9), Position { from: Anchor::Base, to: Anchor::Peak, num: 4, den: 10 });
}

#[test]
fn a_second_release_restarts_the_release_clock() {
    let mut contour = Contour::new(Timing { attack: 1, decay: 1, release: 10 });
    contour.start(0);
    contour.release(50);
    contour.release(55);
    assert_eq!(contour.released_at(), Some(55));
    assert!(!contour.is_finished(60));
    assert_eq!(contour.position(60), Position { from: Anchor::Sustain, to: Anchor::Base, num: 5, den: 10 });
    assert!(contour.is_finished(65));
}

#[test]
fn release_of_an_unstarted_contour_rests_but_finishes() {
    let mut contour = Contour::new(Timing { attack: 1, decay: 1, release: 10 });
    contour.release(3);
    assert_eq!(contour.position(5), rest());
    assert!(!contour.is_finished(12));
    assert!(contour.is_finished(13));
}

#[test]
fn long_timings_do_not_overflow() {
    let mut contour = Contour::new(Timing { attack: u64::MAX, decay: u64::MAX, release: u64::MAX });
    contour.start(0);
    assert_eq!(
        contour.position(u64::MAX - 1),
        Position { from: Anchor::Base, to: Anchor::Peak, num: u64::MAX - 1, den: u64::MAX }
    );
    assert_eq!(
        contour.position(u64::MAX),
        Position { from: Anchor::Peak, to: Anchor::Sustain, num: 0, den: u64::MAX }
    );
    contour.release(0);
    assert!(!contour.is_finished(u64::MAX - 1));
    assert!(contour.is_finished(u64::MAX));
}
