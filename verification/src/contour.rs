//! Envelope timing, counted in ticks of the engine's sample clock.
//!
//! An amplitude envelope and a frequency envelope have the same shape: a ramp
//! from a base value to a peak over the attack, a ramp from the peak to a
//! sustain value over the decay, a hold at the sustain value, and after the
//! release a ramp from the sustain value back to the base. They differ only in
//! what the three values are (silence, full level and the sustain level for
//! amplitude; unity, the peak ratio and the sustain ratio for frequency). A
//! [`Contour`] keeps the timing and says, for any tick, on which ramp the
//! envelope is and how far along it: a [`Position`]. Turning a position into a
//! level is left to the caller, who knows the three values.

use vstd::prelude::*;

verus! {

/// One of the three values an envelope moves between.
#[derive(Clone, Copy, Debug, PartialEq, Eq, Structural)]
pub enum Anchor {
    /// Where the envelope starts and where it returns after release.
    Base,
    /// Where the attack ends.
    Peak,
    /// Where the decay ends and the envelope is held.
    Sustain,
}

/// A point on the straight line from one anchor to another: `num / den` of the
/// way from `from` to `to`.
#[derive(Clone, Copy, Debug, PartialEq, Eq, Structural)]
pub struct Position {
    pub from: Anchor,
    pub to: Anchor,
    pub num: u64,
    pub den: u64,
}

/// Durations of the three timed stages, in ticks.
#[derive(Clone, Copy, Debug, PartialEq, Eq, Structural)]
pub struct Timing {
    pub attack: u64,
    pub decay: u64,
    pub release: u64,
}

/// The timing and the clock readings of one envelope.
#[derive(Clone, Copy, Debug)]
pub struct Contour {
    timing: Timing,
    started: Option<u64>,
    released: Option<u64>,
}

/// What a [`Contour`] holds: its timing, the tick at which it was started, if
/// it was, and the tick of its latest release, if it was released.
pub struct ContourModel {
    pub timing: Timing,
    pub started: Option<u64>,
    pub released: Option<u64>,
}

/// Ticks from `since` to `now`; zero while `now` has not passed `since`.
pub open spec fn elapsed(now: u64, since: u64) -> u64 {
    if now >= since {
        (now - since) as u64
    } else {
        0
    }
}

/// The position of an envelope that rests at its base value.
pub open spec fn at_rest() -> Position {
    Position { from: Anchor::Base, to: Anchor::Base, num: 0, den: 1 }
}

/// The position of an envelope that is held at its sustain value.
pub open spec fn held() -> Position {
    Position { from: Anchor::Sustain, to: Anchor::Sustain, num: 0, den: 1 }
}

impl Anchor {
    /// The value this anchor stands for, given all three.
    pub open spec fn pick(self, base: int, peak: int, sustain: int) -> int {
        match self {
            Anchor::Base => base,
            Anchor::Peak => peak,
            Anchor::Sustain => sustain,
        }
    }
}

impl Position {
    /// A position is proper when it lies on its line and short of the far end.
    pub open spec fn proper(self) -> bool {
        self.num < self.den
    }

    /// The level at this position, multiplied by `den`, for the given anchor
    /// values: the linear interpolation `from + (to - from) * num / den`.
    pub open spec fn scaled(self, base: int, peak: int, sustain: int) -> int {
        self.from.pick(base, peak, sustain) * (self.den - self.num) + self.to.pick(
            base,
            peak,
            sustain,
        ) * self.num
    }
}

impl ContourModel {
    /// An envelope with this timing that was never started.
    pub open spec fn fresh(timing: Timing) -> ContourModel {
        ContourModel { timing, started: None, released: None }
    }

    /// The envelope after a start at `now`: the first start counts, a later
    /// one changes nothing.
    pub open spec fn start(self, now: u64) -> ContourModel {
        if self.started is Some {
            self
        } else {
            ContourModel { started: Some(now), ..self }
        }
    }

    /// The envelope after a release at `now`: the release clock runs from the
    /// latest release.
    pub open spec fn release(self, now: u64) -> ContourModel {
        ContourModel { released: Some(now), ..self }
    }

    /// Whether the envelope was released and its release time has run out.
    pub open spec fn finished(self, now: u64) -> bool {
        match self.released {
            Some(at) => elapsed(now, at) >= self.timing.release,
            None => false,
        }
    }

    /// Where the envelope is at tick `now`.
    ///
    /// Before it is started it rests at the base. Once released it runs from
    /// the sustain value to the base over the release time, whatever stage it
    /// was in, and rests at the base afterwards. Otherwise it runs from the
    /// base to the peak over the attack, from the peak to the sustain value
    /// over the decay, and is then held.
    pub open spec fn position(self, now: u64) -> Position {
        match self.started {
            None => at_rest(),
            Some(since) => match self.released {
                Some(at) => {
                    if elapsed(now, at) >= self.timing.release {
                        at_rest()
                    } else {
                        Position {
                            from: Anchor::Sustain,
                            to: Anchor::Base,
                            num: elapsed(now, at),
                            den: self.timing.release,
                        }
                    }
                },
                None => {
                    let run = elapsed(now, since);
                    if run < self.timing.attack {
                        Position {
                            from: Anchor::Base,
                            to: Anchor::Peak,
                            num: run,
                            den: self.timing.attack,
                        }
                    } else if run - self.timing.attack < self.timing.decay {
                        Position {
                            from: Anchor::Peak,
                            to: Anchor::Sustain,
                            num: (run - self.timing.attack) as u64,
                            den: self.timing.decay,
                        }
                    } else {
                        held()
                    }
                },
            },
        }
    }
}

impl View for Contour {
    type V = ContourModel;

    closed spec fn view(&self) -> ContourModel {
        ContourModel { timing: self.timing, started: self.started, released: self.released }
    }
}

/// Ticks from `since` to `now`; zero while `now` has not passed `since`.
pub fn ticks_since(now: u64, since: u64) -> (run: u64)
    ensures
        run == elapsed(now, since),
{
    if now >= since {
        now - since
    } else {
        0
    }
}

impl Contour {
    /// An envelope with the given timing, not yet started.
    pub fn new(timing: Timing) -> (contour: Contour)
        ensures
            contour@ == ContourModel::fresh(timing),
    {
        Contour { timing, started: None, released: None }
    }

    /// Starts the envelope's clock at `now`, unless it is already running.
    pub fn start(&mut self, now: u64)
        ensures
            final(self)@ == old(self)@.start(now),
    {
        if self.started.is_none() {
            self.started = Some(now);
        }
    }

    /// Releases the envelope at `now`.
    pub fn release(&mut self, now: u64)
        ensures
            final(self)@ == old(self)@.release(now),
    {
        self.released = Some(now);
    }

    /// The timing the envelope was made with.
    pub fn timing(&self) -> (timing: Timing)
        ensures
            timing == self@.timing,
    {
        self.timing
    }

    /// The tick at which the envelope was started, if it was.
    pub fn started_at(&self) -> (at: Option<u64>)
        ensures
            at == self@.started,
    {
        self.started
    }

    /// The tick of the latest release, if there was one.
    pub fn released_at(&self) -> (at: Option<u64>)
        ensures
            at == self@.released,
    {
        self.released
    }

    /// Whether the envelope was released.
    pub fn is_released(&self) -> (yes: bool)
        ensures
            yes == (self@.released is Some),
    {
        self.released.is_some()
    }

    /// Whether the envelope was released and its release time has run out at
    /// `now`.
    pub fn is_finished(&self, now: u64) -> (yes: bool)
        ensures
            yes == self@.finished(now),
    {
        match self.released {
            Some(at) => ticks_since(now, at) >= self.timing.release,
            None => false,
        }
    }

    /// Where the envelope is at tick `now`.
    pub fn position(&self, now: u64) -> (place: Position)
        ensures
            place == self@.position(now),
            place.proper(),
    {
        match self.started {
            None => Position { from: Anchor::Base, to: Anchor::Base, num: 0, den: 1 },
            Some(since) => match self.released {
                Some(at) => {
                    let run: u64 = ticks_since(now, at);
                    if run >= self.timing.release {
                        Position { from: Anchor::Base, to: Anchor::Base, num: 0, den: 1 }
                    } else {
                        Position {
                            from: Anchor::Sustain,
                            to: Anchor::Base,
                            num: run,
                            den: self.timing.release,
                        }
                    }
                },
                None => {
                    let run: u64 = ticks_since(now, since);
                    if run < self.timing.attack {
                        Position {
                            from: Anchor::Base,
                            to: Anchor::Peak,
                            num: run,
                            den: self.timing.attack,
                        }
                    } else if run - self.timing.attack < self.timing.decay {
                        Position {
                            from: Anchor::Peak,
                            to: Anchor::Sustain,
                            num: run - self.timing.attack,
                            den: self.timing.decay,
                        }
                    } else {
                        Position { from: Anchor::Sustain, to: Anchor::Sustain, num: 0, den: 1 }
                    }
                },
            },
        }
    }
}

/// Every position an envelope can be in lies on its line, short of the far
/// end, so the level it stands for is between the two anchors.
pub proof fn lemma_position_proper(contour: ContourModel, now: u64)
    ensures
        contour.position(now).proper(),
{
}

/// The level at a proper position lies between the values of its two anchors.
pub proof fn lemma_level_between(place: Position, base: int, peak: int, sustain: int)
    requires
        place.proper(),
    ensures
        ({
            let from = place.from.pick(base, peak, sustain);
            let to = place.to.pick(base, peak, sustain);
            let level = place.scaled(base, peak, sustain);
            &&& from <= to ==> from * place.den <= level <= to * place.den
            &&& from >= to ==> from * place.den >= level >= to * place.den
        }),
{
    let from = place.from.pick(base, peak, sustain);
    let to = place.to.pick(base, peak, sustain);
    let num = place.num as int;
    let den = place.den as int;
    assert(from * (den - num) + to * num == from * den + (to - from) * num) by (nonlinear_arith);
    assert(from * (den - num) + to * num == to * den - (to - from) * (den - num))
        by (nonlinear_arith);
    assert(from <= to ==> (to - from) * num >= 0 && (to - from) * (den - num) >= 0)
        by (nonlinear_arith)
        requires
            0 <= num < den,
    ;
    assert(from >= to ==> (to - from) * num <= 0 && (to - from) * (den - num) <= 0)
        by (nonlinear_arith)
        requires
            0 <= num < den,
    ;
}

/// Once the release time has run out the envelope rests at its base and stays
/// there: with a base of zero its level is exactly zero, whatever the peak and
/// the sustain value are.
pub proof fn lemma_release_ends_at_base(
    contour: ContourModel,
    at: u64,
    now: u64,
    peak: int,
    sustain: int,
)
    requires
        now >= at,
        now - at >= contour.timing.release,
    ensures
        contour.release(at).position(now) == at_rest(),
        contour.release(at).finished(now),
        contour.release(at).position(now).scaled(0, peak, sustain) == 0,
{
}

/// While the release time has not run out the envelope is not finished, and if
/// it was started it is on the ramp from the sustain value to the base, as far
/// along as time has passed since the release.
pub proof fn lemma_release_ramp(contour: ContourModel, at: u64, now: u64)
    requires
        now >= at,
        now - at < contour.timing.release,
    ensures
        !contour.release(at).finished(now),
        contour.started is Some ==> contour.release(at).position(now) == (Position {
            from: Anchor::Sustain,
            to: Anchor::Base,
            num: (now - at) as u64,
            den: contour.timing.release,
        }),
{
}

/// The ramps meet: an envelope that is started at `since` and not released is
/// at its base at the start (if it has an attack at all), exactly at its peak
/// when the attack ends (if it has a decay at all), and exactly at its sustain
/// value from the end of the decay on.
pub proof fn lemma_stages_meet(
    timing: Timing,
    since: u64,
    now: u64,
    base: int,
    peak: int,
    sustain: int,
)
    requires
        now >= since,
    ensures
        ({
            let contour = ContourModel::fresh(timing).start(since);
            let place = contour.position(now);
            let level = place.scaled(base, peak, sustain);
            &&& now - since == 0 && timing.attack > 0 ==> level == base * place.den
            &&& now - since == timing.attack && timing.decay > 0 ==> level == peak * place.den
            &&& now - since >= timing.attack + timing.decay ==> place == held() && level
                == sustain
        }),
{
    let place = ContourModel::fresh(timing).start(since).position(now);
    let from = place.from.pick(base, peak, sustain);
    let to = place.to.pick(base, peak, sustain);
    if place.num == 0 {
        assert(from * (place.den - place.num) + to * place.num == from * place.den)
            by (nonlinear_arith)
            requires
                place.num == 0,
        ;
        assert(place.den == 1 ==> from * place.den == from) by (nonlinear_arith);
    }
}

/// On the attack ramp the level climbs in equal steps: one tick later it has
/// moved by one part in `attack` of the way from the base to the peak. The
/// same holds on the decay ramp, from the peak to the sustain value.
pub proof fn lemma_ramps_are_linear(
    timing: Timing,
    since: u64,
    now: u64,
    base: int,
    peak: int,
    sustain: int,
)
    requires
        now >= since,
        now < u64::MAX,
    ensures
        ({
            let contour = ContourModel::fresh(timing).start(since);
            let here = contour.position(now).scaled(base, peak, sustain);
            let next = contour.position((now + 1) as u64).scaled(base, peak, sustain);
            let run = now - since;
            &&& run + 1 < timing.attack ==> next - here == peak - base
            &&& timing.attack <= run && run + 1 - timing.attack < timing.decay ==> next - here
                == sustain - peak
        }),
{
    let contour = ContourModel::fresh(timing).start(since);
    let run = now - since;
    if run + 1 < timing.attack {
        let a = timing.attack as int;
        assert(base * (a - run) + peak * run + (peak - base) == base * (a - (run + 1)) + peak * (run
            + 1)) by (nonlinear_arith);
    }
    if timing.attack <= run && run + 1 - timing.attack < timing.decay {
        let d = timing.decay as int;
        let k = run - timing.attack;
        assert(peak * (d - k) + sustain * k + (sustain - peak) == peak * (d - (k + 1)) + sustain
            * (k + 1)) by (nonlinear_arith);
    }
}

} // verus!
