//! A fixed-length delay line: the circular buffer behind the delay, chorus and
//! reverb stages.
//!
//! The line is modelled as a sequence in age order: element `0` is the value
//! that was written longest ago (the next one to be read and overwritten), the
//! last element is the value written most recently. The element type is left
//! open; an audio engine stores its samples in it. A line remembers the value
//! it was made with as its silence, and a reset returns every element to it.

use crate::chain::Stage;
use vstd::prelude::*;

verus! {

/// A circular buffer of fixed, non-zero length with a single cursor.
pub struct DelayLine<T> {
    cells: Vec<T>,
    cursor: usize,
    silence: T,
}

/// The contents of a line after `inputs` have been pushed into it one by one.
pub open spec fn fed<T>(line: Seq<T>, inputs: Seq<T>) -> Seq<T>
    decreases inputs.len(),
{
    if inputs.len() == 0 {
        line
    } else {
        fed(line.drop_first().push(inputs[0]), inputs.drop_first())
    }
}

/// The values read from a line while `inputs` are pushed into it, each one
/// read just before the push that overwrites it.
pub open spec fn emitted<T>(line: Seq<T>, inputs: Seq<T>) -> Seq<T>
    decreases inputs.len(),
{
    if inputs.len() == 0 {
        Seq::empty()
    } else {
        seq![line[0]] + emitted(line.drop_first().push(inputs[0]), inputs.drop_first())
    }
}

/// A line in which every element is `value`.
pub open spec fn uniform<T>(len: nat, value: T) -> Seq<T> {
    Seq::new(len, |i: int| value)
}

/// Where in age order a tap `delay` steps behind the cursor reads.
pub open spec fn tap_index(len: int, delay: int) -> int {
    if delay % len == 0 {
        0
    } else {
        len - delay % len
    }
}

impl<T> DelayLine<T> {
    #[verifier::type_invariant]
    spec fn well_formed(self) -> bool {
        self.cursor < self.cells.len()
    }

    /// The value that every element has after a reset.
    pub closed spec fn silence(&self) -> T {
        self.silence
    }

    /// The contents in age order, oldest first.
    pub closed spec fn view(&self) -> Seq<T> {
        self.cells@.subrange(self.cursor as int, self.cells@.len() as int) + self.cells@.subrange(
            0,
            self.cursor as int,
        )
    }
}

impl<T: Copy> DelayLine<T> {
    /// A line of `len` elements, all `silence`. A length of zero is raised to
    /// one.
    pub fn new(len: usize, silence: T) -> (line: Self)
        ensures
            line@ == uniform(floored(len), silence),
            line.silence() == silence,
    {
        let target: usize = if len == 0 { 1 } else { len };
        let mut cells: Vec<T> = Vec::new();
        while cells.len() < target
            invariant
                cells.len() <= target,
                forall|i: int| 0 <= i < cells.len() ==> cells@[i] == silence,
            decreases target - cells.len(),
        {
            cells.push(silence);
        }
        let line = DelayLine { cells, cursor: 0, silence };
        assert(line@ =~= uniform(target as nat, silence));
        line
    }

    /// The number of elements, which never changes and is at least one.
    pub fn len(&self) -> (n: usize)
        ensures
            n == self@.len(),
            n >= 1,
    {
        proof {
            use_type_invariant(self);
        }
        self.cells.len()
    }

    /// The element under the cursor: the one written `len` pushes ago.
    pub fn oldest(&self) -> (value: T)
        ensures
            self@.len() >= 1,
            value == self@[0],
    {
        proof {
            use_type_invariant(self);
        }
        self.cells[self.cursor]
    }

    /// The element written `delay` pushes ago, counted modulo the length: a
    /// delay of one reads the newest element, a delay of zero (or of the whole
    /// length) the oldest.
    pub fn tap(&self, delay: usize) -> (value: T)
        ensures
            self@.len() >= 1,
            value == self@[tap_index(self@.len() as int, delay as int)],
    {
        proof {
            use_type_invariant(self);
        }
        let back: usize = delay % self.cells.len();
        let at: usize = if back <= self.cursor {
            self.cursor - back
        } else {
            self.cells.len() - (back - self.cursor)
        };
        self.cells[at]
    }

    /// Overwrites the oldest element with `value` and moves the cursor on, so
    /// that `value` becomes the newest element.
    pub fn push(&mut self, value: T)
        ensures
            old(self)@.len() >= 1,
            final(self)@ == old(self)@.drop_first().push(value),
            final(self).silence() == old(self).silence(),
    {
        proof {
            use_type_invariant(&*self);
        }
        let at: usize = self.cursor;
        let next: usize = if at + 1 == self.cells.len() { 0 } else { at + 1 };
        self.cells[at] = value;
        self.cursor = next;
        assert(self@ =~= old(self)@.drop_first().push(value));
    }

    /// Gives the line the requested length, unless it has it already: a line
    /// whose length differs from `len` is replaced by a silent one of that
    /// length (raised to one if zero); says whether it was. A request for
    /// length zero therefore always replaces the line.
    pub fn resize(&mut self, len: usize) -> (replaced: bool)
        ensures
            replaced == (old(self)@.len() != len),
            final(self)@ == if replaced {
                uniform(floored(len), old(self).silence())
            } else {
                old(self)@
            },
            final(self).silence() == old(self).silence(),
    {
        if self.len() != len {
            *self = DelayLine::new(len, self.silence);
            true
        } else {
            false
        }
    }

    /// Returns every element to silence and the cursor to the start.
    pub fn reset(&mut self)
        ensures
            final(self)@ == uniform(old(self)@.len(), old(self).silence()),
            final(self).silence() == old(self).silence(),
    {
        let fill: T = self.silence;
        proof {
            use_type_invariant(&*self);
        }
        let n: usize = self.cells.len();
        let mut i: usize = 0;
        while i < n
            invariant
                i <= n,
                n == self.cells.len(),
                n == old(self).cells.len(),
                self.cursor < n,
                self.silence == fill,
                forall|k: int| 0 <= k < i ==> self.cells@[k] == fill,
            decreases n - i,
        {
            self.cells[i] = fill;
            i += 1;
        }
        self.cursor = 0;
        assert(self@ =~= uniform(old(self)@.len(), old(self).silence()));
    }
}

/// The length a line of requested length `len` gets: at least one.
pub open spec fn floored(len: usize) -> nat {
    if len == 0 {
        1
    } else {
        len as nat
    }
}

/// One silent line for each of the given lengths, in their order.
pub fn lines_of<T: Copy>(lengths: &Vec<usize>, silence: T) -> (lines: Vec<DelayLine<T>>)
    ensures
        lines.len() == lengths.len(),
        forall|i: int|
            0 <= i < lengths.len() ==> (#[trigger] lines@[i])@ == uniform(
                floored(lengths@[i]),
                silence,
            ) && lines@[i].silence() == silence,
{
    let mut lines: Vec<DelayLine<T>> = Vec::new();
    let mut i: usize = 0;
    while i < lengths.len()
        invariant
            i <= lengths.len(),
            lines.len() == i,
            forall|k: int|
                0 <= k < i ==> (#[trigger] lines@[k])@ == uniform(floored(lengths@[k]), silence)
                    && lines@[k].silence() == silence,
        decreases lengths.len() - i,
    {
        lines.push(DelayLine::new(lengths[i], silence));
        i += 1;
    }
    lines
}

/// Resets every line; each keeps its length and its silence.
pub fn reset_lines<T: Copy>(lines: &mut Vec<DelayLine<T>>)
    ensures
        final(lines).len() == old(lines).len(),
        forall|i: int|
            0 <= i < old(lines).len() ==> (#[trigger] final(lines)@[i])@ == uniform(
                old(lines)@[i]@.len(),
                old(lines)@[i].silence(),
            ) && final(lines)@[i].silence() == old(lines)@[i].silence(),
{
    let mut i: usize = 0;
    while i < lines.len()
        invariant
            i <= lines.len(),
            lines.len() == old(lines).len(),
            forall|k: int| i <= k < lines.len() ==> lines@[k] == old(lines)@[k],
            forall|k: int|
                0 <= k < i ==> (#[trigger] lines@[k])@ == uniform(
                    old(lines)@[k]@.len(),
                    old(lines)@[k].silence(),
                ) && lines@[k].silence() == old(lines)@[k].silence(),
        decreases lines.len() - i,
    {
        lines[i].reset();
        i += 1;
    }
}

/// A delay line is itself the simplest stage of an effects chain: a delay
/// by its length, all wet and without feedback. The sample rate plays no part.
impl<T: Copy> Stage for DelayLine<T> {
    type Signal = T;

    /// Gives the oldest element and takes `sample` in its place.
    fn process(&mut self, sample: T, _sample_rate: T) -> (out: T)
        ensures
            old(self)@.len() >= 1,
            out == old(self)@[0],
            final(self)@ == old(self)@.drop_first().push(sample),
            final(self).silence() == old(self).silence(),
    {
        let out: T = self.oldest();
        self.push(sample);
        out
    }

    /// Returns every element to silence.
    fn reset(&mut self)
        ensures
            final(self)@ == uniform(old(self)@.len(), old(self).silence()),
            final(self).silence() == old(self).silence(),
    {
        DelayLine::reset(self)
    }
}

/// Pushing `inputs` into a line shifts them in from the newest end: what the
/// line holds afterwards is the tail of the old contents followed by the
/// inputs.
pub proof fn lemma_fed_is_window<T>(line: Seq<T>, inputs: Seq<T>)
    requires
        line.len() >= 1,
    ensures
        fed(line, inputs) == (line + inputs).skip(inputs.len() as int),
        fed(line, inputs).len() == line.len(),
    decreases inputs.len(),
{
    if inputs.len() == 0 {
        assert((line + inputs).skip(0) =~= line);
    } else {
        let next = line.drop_first().push(inputs[0]);
        let rest = inputs.drop_first();
        lemma_fed_is_window(next, rest);
        assert((next + rest).skip(rest.len() as int) =~= (line + inputs).skip(
            inputs.len() as int,
        ));
    }
}

/// A delay line delays exactly by its length: the stream read from it is the
/// old contents followed by the inputs, cut to as many values as were pushed.
/// So output `i` is input `i - len` once `i` has reached `len`, and the
/// initial contents before that.
pub proof fn lemma_exact_delay<T>(line: Seq<T>, inputs: Seq<T>)
    requires
        line.len() >= 1,
    ensures
        emitted(line, inputs) == (line + inputs).take(inputs.len() as int),
        forall|i: int|
            line.len() <= i < inputs.len() ==> #[trigger] emitted(line, inputs)[i] == inputs[i
                - line.len()],
        forall|i: int|
            0 <= i < inputs.len() && i < line.len() ==> #[trigger] emitted(line, inputs)[i]
                == line[i],
    decreases inputs.len(),
{
    if inputs.len() == 0 {
        assert(emitted(line, inputs) =~= (line + inputs).take(0));
    } else {
        let next = line.drop_first().push(inputs[0]);
        let rest = inputs.drop_first();
        lemma_exact_delay(next, rest);
        assert(emitted(line, inputs) =~= (line + inputs).take(inputs.len() as int));
    }
}

/// A tap reads back what was pushed: after `inputs` have been pushed, a tap
/// `delay` steps back, for a delay from one up to the length of the line and
/// no more than the number of inputs, finds the input that was pushed `delay`
/// pushes ago.
pub proof fn lemma_tap_reads_back<T>(line: Seq<T>, inputs: Seq<T>, delay: int)
    requires
        line.len() >= 1,
        1 <= delay <= line.len(),
        delay <= inputs.len(),
    ensures
        fed(line, inputs)[tap_index(line.len() as int, delay)] == inputs[inputs.len() - delay],
{
    lemma_fed_is_window(line, inputs);
    let len = line.len() as int;
    if delay == len {
        assert(delay % len == 0) by (nonlinear_arith)
            requires
                delay == len,
                len >= 1,
        ;
    } else {
        assert(delay % len == delay) by (nonlinear_arith)
            requires
                0 <= delay < len,
        ;
    }
}

/// A line that holds nothing but `value` and is fed nothing but `value` stays
/// that way and reads back nothing but `value`.
pub proof fn lemma_uniform_stays<T>(len: nat, value: T, count: nat)
    requires
        len >= 1,
    ensures
        fed(uniform(len, value), uniform(count, value)) == uniform(len, value),
        emitted(uniform(len, value), uniform(count, value)) == uniform(count, value),
{
    let line = uniform(len, value);
    let inputs = uniform(count, value);
    lemma_fed_is_window(line, inputs);
    lemma_exact_delay(line, inputs);
    assert((line + inputs).skip(count as int) =~= line);
    assert((line + inputs).take(count as int) =~= inputs);
}

} // verus!
