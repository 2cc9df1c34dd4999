//! The effects chain: stages applied one after another to the mixed signal.
//!
//! What a stage does to a sample is its own business: the chain is written
//! for any stage type and any sample type. It fixes the order (insertion
//! order is processing order) and says of its result what the stages say of
//! theirs: a stage type that states what its `process` returns makes the
//! result of the whole chain known.

use vstd::prelude::*;

verus! {

/// One stage of the chain: a stateful processor of single samples.
///
/// The trait promises nothing of what a stage computes. A stage type states
/// that on its own `process` and `reset`, and the contracts of the chain refer
/// to whatever it states.
pub trait Stage {
    /// What a sample is.
    type Signal;

    /// Takes one input sample and gives one output sample, at the given
    /// sample rate.
    fn process(&mut self, sample: Self::Signal, sample_rate: Self::Signal) -> Self::Signal;

    /// Returns the stage's internal state to silence; its settings stay.
    fn reset(&mut self);
}

/// Whether `index` is a position in a chain of `len` stages.
pub open spec fn in_chain(index: int, len: nat) -> bool {
    0 <= index < len
}

/// An ordered pipeline of stages.
pub struct EffectStack<E> {
    effects: Vec<E>,
}

impl<E> EffectStack<E> {
    /// The stages in processing order.
    pub closed spec fn view(&self) -> Seq<E> {
        self.effects@
    }

    /// A chain without stages.
    pub fn new() -> (stack: Self)
        ensures
            stack@ == Seq::<E>::empty(),
    {
        EffectStack { effects: Vec::new() }
    }

    /// Appends a stage: it will process after all the stages already there.
    pub fn add_effect(&mut self, effect: E)
        ensures
            final(self)@ == old(self)@.push(effect),
    {
        self.effects.push(effect);
    }

    /// Removes every stage.
    pub fn clear(&mut self)
        ensures
            final(self)@ == Seq::<E>::empty(),
    {
        self.effects = Vec::new();
    }

    /// The number of stages.
    pub fn len(&self) -> (n: usize)
        ensures
            n == self@.len(),
    {
        self.effects.len()
    }

    /// The stage at `index`, if there is one.
    pub fn effect(&self, index: usize) -> (stage: Option<&E>)
        ensures
            match stage {
                Some(found) => index < self@.len() && *found == self@[index as int],
                None => index >= self@.len(),
            },
    {
        if index < self.effects.len() {
            Some(&self.effects[index])
        } else {
            None
        }
    }

    /// The stage at `index`, if there is one, to read and to change. The
    /// other stages and the order stay.
    pub fn effect_mut(&mut self, index: usize) -> (stage: Option<&mut E>)
        ensures
            match stage {
                Some(found) => {
                    &&& index < old(self)@.len()
                    &&& *found == old(self)@[index as int]
                    &&& final(self)@ == old(self)@.update(index as int, *final(found))
                },
                None => index >= old(self)@.len() && final(self)@ == old(self)@,
            },
    {
        if index < self.effects.len() {
            Some(&mut self.effects[index])
        } else {
            None
        }
    }

    /// Passes `sample` through every stage in order and returns what the last
    /// one gives.
    ///
    /// The contract is stated over what the stages themselves promise: there
    /// is a trace of signals, one more than there are stages, that begins with
    /// `sample` and ends with the result, and stage `i` was called once, on
    /// element `i` of the trace, returned element `i + 1`, and was left as the
    /// chain now holds it. A chain without stages returns the sample as it
    /// came and stays as it was.
    pub fn process(&mut self, sample: E::Signal, sample_rate: E::Signal) -> (out: E::Signal) where
        E: Stage,
        E::Signal: Copy,

        ensures
            final(self)@.len() == old(self)@.len(),
            old(self)@.len() == 0 ==> out == sample && final(self)@ == old(self)@,
            exists|trace: Seq<E::Signal>|
                (#[trigger] trace.len()) == old(self)@.len() + 1
                && trace[0] == sample
                && trace.last() == out
                && forall|i: int|
                    #[trigger] in_chain(i, old(self)@.len()) ==> exists|stage: &mut E|
                        *stage == old(self)@[i]
                        && *final(stage) == final(self)@[i]
                        && #[trigger] call_ensures(
                            E::process,
                            (stage, trace[i], sample_rate),
                            trace[i + 1],
                        ),
    {
        let mut processed: E::Signal = sample;
        let ghost mut trace: Seq<E::Signal> = seq![sample];
        let mut i: usize = 0;
        while i < self.effects.len()
            invariant
                i <= self.effects.len(),
                self.effects.len() == old(self).effects.len(),
                i == 0 ==> self.effects@ == old(self).effects@,
                trace.len() == i + 1,
                trace[0] == sample,
                trace.last() == processed,
                forall|k: int| i <= k < self.effects.len() ==> self.effects@[k] == old(
                    self,
                ).effects@[k],
                forall|k: int|
                    #[trigger] in_chain(k, i as nat) ==> exists|stage: &mut E|
                        *stage == old(self).effects@[k]
                        && *final(stage) == self.effects@[k]
                        && #[trigger] call_ensures(
                            E::process,
                            (stage, trace[k], sample_rate),
                            trace[k + 1],
                        ),
            decreases self.effects.len() - i,
        {
            let ghost before = self.effects@;
            let ghost earlier = trace;
            let ghost j = i as int;
            let input = processed;
            processed = self.effects[i].process(input, sample_rate);
            i += 1;
            proof {
                trace = trace.push(processed);
                assert forall|k: int| #[trigger] in_chain(k, i as nat) implies exists|stage: &mut E|
                    *stage == old(self).effects@[k]
                    && *final(stage) == self.effects@[k]
                    && #[trigger] call_ensures(
                        E::process,
                        (stage, trace[k], sample_rate),
                        trace[k + 1],
                    ) by {
                    if k < j {
                        assert(in_chain(k, j as nat));
                        let stage = choose|stage: &mut E|
                            *stage == old(self).effects@[k]
                            && *final(stage) == before[k]
                            && #[trigger] call_ensures(
                                E::process,
                                (stage, earlier[k], sample_rate),
                                earlier[k + 1],
                            );
                        assert(call_ensures(
                            E::process,
                            (stage, trace[k], sample_rate),
                            trace[k + 1],
                        ));
                    } else {
                        assert(trace[k] == input);
                        assert(trace[k + 1] == processed);
                        assert(before[j] == old(self).effects@[k]);
                    }
                }
            }
        }
        proof {
            assert(trace.len() == old(self)@.len() + 1);
        }
        processed
    }

    /// Resets every stage, each exactly once, and keeps the order: stage `i`
    /// is left as its own `reset` leaves it.
    pub fn reset(&mut self) where E: Stage
        ensures
            final(self)@.len() == old(self)@.len(),
            old(self)@.len() == 0 ==> final(self)@ == old(self)@,
            forall|i: int|
                #[trigger] in_chain(i, old(self)@.len()) ==> exists|stage: &mut E|
                    *stage == old(self)@[i]
                    && *final(stage) == final(self)@[i]
                    && #[trigger] call_ensures(E::reset, (stage,), ()),
    {
        let mut i: usize = 0;
        while i < self.effects.len()
            invariant
                i <= self.effects.len(),
                self.effects.len() == old(self).effects.len(),
                i == 0 ==> self.effects@ == old(self).effects@,
                forall|k: int| i <= k < self.effects.len() ==> self.effects@[k] == old(
                    self,
                ).effects@[k],
                forall|k: int|
                    #[trigger] in_chain(k, i as nat) ==> exists|stage: &mut E|
                        *stage == old(self).effects@[k]
                        && *final(stage) == self.effects@[k]
                        && #[trigger] call_ensures(E::reset, (stage,), ()),
            decreases self.effects.len() - i,
        {
            let ghost before = self.effects@;
            let ghost j = i as int;
            self.effects[i].reset();
            i += 1;
            proof {
                assert forall|k: int| #[trigger] in_chain(k, i as nat) implies exists|stage: &mut E|
                    *stage == old(self).effects@[k]
                    && *final(stage) == self.effects@[k]
                    && #[trigger] call_ensures(E::reset, (stage,), ()) by {
                    if k < j {
                        assert(in_chain(k, j as nat));
                        let stage = choose|stage: &mut E|
                            *stage == old(self).effects@[k]
                            && *final(stage) == before[k]
                            && #[trigger] call_ensures(E::reset, (stage,), ());
                        assert(*final(stage) == self.effects@[k]);
                    } else {
                        assert(before[j] == old(self).effects@[k]);
                    }
                }
            }
        }
    }
}

} // verus!
