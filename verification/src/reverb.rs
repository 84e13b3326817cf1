//! A feedback delay line used as a simple reverb.
//!
//! Each output is the input plus the previous output times a decay factor.
//! The outputs are kept in a bounded queue, oldest first. This is a
//! single-tap feedback filter, not a convolution reverb: it has no room
//! response and only its newest entry feeds back.

use crate::fixed::{lemma_scaled_bounds, scale, scaled, ONE};
use std::collections::VecDeque;
use vstd::prelude::*;

verus! {

/// The largest magnitude of an output.
pub const OUTPUT_LIMIT: i64 = 1_000_000_001_000_000_000;

/// A bounded queue of past outputs and the decay applied to the newest of them.
pub struct Reverb {
    buffer: VecDeque<i64>,
    capacity: usize,
    decay: i64,
}

/// What a [`Reverb`] holds, as mathematical values.
pub struct ReverbView {
    /// The past outputs, oldest first.
    pub buffer: Seq<int>,
    /// The largest number of outputs kept.
    pub capacity: int,
    /// The decay factor, at least 0 and below 1.
    pub decay: int,
}

/// The bound on an output `y` for a decay `d`: `|y| · (1 − d) ≤ 1`, with room
/// for one rounding step.
pub open spec fn within_headroom(y: int, decay: int) -> bool {
    &&& y * (ONE - decay) <= ONE * (ONE + 1)
    &&& -y * (ONE - decay) <= ONE * (ONE + 1)
}

impl ReverbView {
    /// The queue is within its capacity and every entry is within the bound
    /// that the decay allows.
    pub open spec fn wf(self) -> bool {
        &&& 0 <= self.decay < ONE
        &&& 0 <= self.capacity
        &&& self.buffer.len() <= self.capacity
        &&& forall|i: int| 0 <= i < self.buffer.len() ==> within_headroom(#[trigger] self.buffer[i], self.decay)
    }

    /// An empty reverb.
    pub open spec fn fresh(capacity: int, decay: int) -> ReverbView {
        ReverbView { buffer: Seq::empty(), capacity, decay }
    }

    /// The output for `input`: the input plus the decayed newest entry.
    pub open spec fn output(self, input: int) -> int {
        if self.buffer.len() == 0 {
            input
        } else {
            input + scaled(self.buffer.last(), self.decay)
        }
    }

    /// The reverb after `input`: the output joins the queue, and the oldest
    /// entry leaves if the queue is then over its capacity.
    pub open spec fn processed(self, input: int) -> ReverbView {
        let grown = self.buffer.push(self.output(input));
        ReverbView {
            buffer: if grown.len() > self.capacity {
                grown.drop_first()
            } else {
                grown
            },
            ..self
        }
    }
}

/// An entry within the bound is within the range of a 64-bit integer.
proof fn lemma_headroom_range(y: int, decay: int)
    requires
        0 <= decay < ONE,
        within_headroom(y, decay),
    ensures
        -ONE * (ONE + 1) <= y <= ONE * (ONE + 1),
{
    let room = ONE - decay;
    assert(y <= ONE * (ONE + 1) && -y <= ONE * (ONE + 1)) by (nonlinear_arith)
        requires
            room >= 1,
            y * room <= ONE * (ONE + 1),
            -y * room <= ONE * (ONE + 1),
    ;
}

/// The output for an input between −1 and 1 is within the bound again.
proof fn lemma_output_headroom(last: int, decay: int, input: int)
    requires
        0 <= decay < ONE,
        within_headroom(last, decay),
        -ONE <= input <= ONE,
    ensures
        within_headroom(input + scaled(last, decay), decay),
{
    let one = ONE as int;
    let room = one - decay;
    let fed = scaled(last, decay);
    let limit = one * (one + 1);
    vstd::arithmetic::div_mod::lemma_fundamental_div_mod(last * decay, one);
    let rem = (last * decay) % one;
    assert(one * fed == last * decay - rem);
    assert(0 <= rem < one);
    // one · (input + fed) · room = one · input · room + (last · decay − rem) · room
    assert(one * ((input + fed) * room) <= one * limit && one * (-(input + fed) * room) <= one
        * limit) by (nonlinear_arith)
        requires
            one == 1_000_000_000,
            limit == one * (one + 1),
            room == one - decay,
            0 <= decay < one,
            -one <= input <= one,
            one * fed == last * decay - rem,
            0 <= rem < one,
            last * room <= limit,
            -last * room <= limit,
    {
        assert(one * ((input + fed) * room) == one * input * room + (last * room) * decay - rem
            * room);
        assert(one * input * room <= one * one * room);
        assert(-(one * input * room) <= one * one * room);
        assert((last * room) * decay <= limit * decay);
        assert(-((last * room) * decay) <= limit * decay);
        assert(0 <= rem * room <= one * room);
        assert(one * one * room + limit * decay + one * room == one * limit);
    }
    assert((input + fed) * room <= limit && -(input + fed) * room <= limit) by (nonlinear_arith)
        requires
            one * ((input + fed) * room) <= one * limit,
            one * (-(input + fed) * room) <= one * limit,
            one > 0,
    ;
}

/// Processing an input between −1 and 1 keeps a reverb well-formed.
pub proof fn lemma_processed_wf(r: ReverbView, input: int)
    requires
        r.wf(),
        -ONE <= input <= ONE,
    ensures
        r.processed(input).wf(),
        within_headroom(r.output(input), r.decay),
{
    let out = r.output(input);
    if r.buffer.len() == 0 {
        assert(within_headroom(input, r.decay)) by (nonlinear_arith)
            requires
                -ONE <= input <= ONE,
                0 <= r.decay < ONE,
        ;
    } else {
        lemma_output_headroom(r.buffer.last(), r.decay, input);
    }
    let grown = r.buffer.push(out);
    assert forall|i: int| 0 <= i < grown.len() implies within_headroom(
        #[trigger] grown[i],
        r.decay,
    ) by {
        if i < r.buffer.len() {
            assert(grown[i] == r.buffer[i]);
        }
    }
    let after = r.processed(input);
    assert forall|i: int| 0 <= i < after.buffer.len() implies within_headroom(
        #[trigger] after.buffer[i],
        r.decay,
    ) by {
        if grown.len() > r.capacity {
            assert(after.buffer[i] == grown[i + 1]);
        }
    }
}

impl View for Reverb {
    type V = ReverbView;

    closed spec fn view(&self) -> ReverbView {
        ReverbView {
            buffer: self.buffer@.map_values(|y: i64| y as int),
            capacity: self.capacity as int,
            decay: self.decay as int,
        }
    }
}

impl Reverb {
    /// The reverb's invariant: see [`ReverbView::wf`].
    pub open spec fn wf(&self) -> bool {
        self@.wf()
    }

    /// Creates an empty reverb that keeps up to `buffer_size` outputs and
    /// feeds the newest back with the factor `decay`.
    pub fn new(buffer_size: usize, decay: i64) -> (reverb: Self)
        requires
            0 <= decay < ONE,
        ensures
            reverb@ == ReverbView::fresh(buffer_size as int, decay as int),
            reverb.wf(),
    {
        let reverb = Reverb { buffer: VecDeque::with_capacity(buffer_size), capacity: buffer_size, decay };
        assert(reverb@.buffer =~= Seq::empty());
        reverb
    }

    /// The number of outputs in the queue, never more than the capacity.
    pub fn len(&self) -> (n: usize)
        requires
            self.wf(),
        ensures
            n == self@.buffer.len(),
            n <= self@.capacity,
    {
        self.buffer.len()
    }

    /// Takes one input sample between −1 and 1 and returns the output.
    pub fn process(&mut self, input: i64) -> (output: i64)
        requires
            old(self).wf(),
            -ONE <= input <= ONE,
        ensures
            output == old(self)@.output(input as int),
            final(self)@ == old(self)@.processed(input as int),
            final(self).wf(),
            -OUTPUT_LIMIT <= output <= OUTPUT_LIMIT,
    {
        let ghost before = self@;
        proof {
            lemma_processed_wf(before, input as int);
            lemma_headroom_range(before.output(input as int), before.decay);
        }
        let len = self.buffer.len();
        let output = if len > 0 {
            let last = self.buffer[len - 1];
            proof {
                assert(before.buffer[len - 1] == last as int);
                lemma_headroom_range(last as int, before.decay);
                lemma_scaled_bounds(last as int, before.decay);
            }
            input + scale(last, self.decay)
        } else {
            input
        };
        if self.capacity > 0 {
            if len == self.capacity {
                let _ = self.buffer.pop_front();
            }
            self.buffer.push_back(output);
        }
        assert(self@.buffer =~= before.processed(input as int).buffer);
        output
    }
}

} // verus!
