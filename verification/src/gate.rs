//! Gates: edge detection on a control signal.
use vstd::prelude::*;
use crate::node::{Input, InputContext, Reading};
use crate::sample::{Sample, ZERO};

verus! {

/// State of a gate. The two edges are transitional: each lasts one sample.
#[derive(Copy, Clone, Debug, PartialEq, Eq, Structural)]
pub enum GateState {
    Low,
    RisingEdge,
    High,
    FallingEdge,
}

/// Bits of 0.05, the threshold of a gate made by [`Gate::new`].
pub const GATE_THRESHOLD: u32 = 0x3d4c_cccd;

/// An edge detector over one input, with a fixed threshold.
#[derive(Clone, Copy, Debug)]
pub struct Gate {
    /// The control signal.
    pub input: Input,
    /// State after the most recent update.
    pub state: GateState,
    /// The input's sample at the most recent update.
    pub last: Sample,
    /// Level that separates low from high.
    pub threshold: Sample,
}

impl GateState {
    /// The state that follows `self` on the sample `s`.
    ///
    /// A NaN is neither above, at nor below the threshold: it keeps `Low` and
    /// `High`, and swaps the two edges.
    pub open spec fn after(self, s: Sample, threshold: Sample) -> GateState {
        match self {
            GateState::Low => if s.greater(threshold) {
                GateState::RisingEdge
            } else {
                GateState::Low
            },
            GateState::RisingEdge => if s.greater_eq(threshold) {
                GateState::High
            } else {
                GateState::FallingEdge
            },
            GateState::High => if s.less(threshold) {
                GateState::FallingEdge
            } else {
                GateState::High
            },
            GateState::FallingEdge => if s.less_eq(threshold) {
                GateState::Low
            } else {
                GateState::RisingEdge
            },
        }
    }

    /// The state after the samples `signal`, one update each, in order.
    pub open spec fn after_all(self, signal: Seq<Sample>, threshold: Sample) -> GateState
        decreases signal.len(),
    {
        if signal.len() == 0 {
            self
        } else {
            self.after_all(signal.drop_last(), threshold).after(signal.last(), threshold)
        }
    }

    /// The signal has just gone high.
    pub fn is_rising_edge(self) -> (b: bool)
        ensures
            b == (self == GateState::RisingEdge),
    {
        match self {
            GateState::RisingEdge => true,
            _ => false,
        }
    }

    /// The signal has just gone low.
    pub fn is_falling_edge(self) -> (b: bool)
        ensures
            b == (self == GateState::FallingEdge),
    {
        match self {
            GateState::FallingEdge => true,
            _ => false,
        }
    }

    /// The signal is high, or has just gone high.
    pub fn is_highish(self) -> (b: bool)
        ensures
            b == (self == GateState::RisingEdge || self == GateState::High),
    {
        match self {
            GateState::RisingEdge => true,
            GateState::High => true,
            _ => false,
        }
    }

    /// The signal is low, or has just gone low.
    pub fn is_lowish(self) -> (b: bool)
        ensures
            b == (self == GateState::FallingEdge || self == GateState::Low),
    {
        match self {
            GateState::FallingEdge => true,
            GateState::Low => true,
            _ => false,
        }
    }
}

impl Gate {
    /// What [`Gate::new`] makes over `input`.
    pub open spec fn with(input: Input) -> Gate {
        Gate { input, state: GateState::Low, last: Sample(ZERO), threshold: Sample(GATE_THRESHOLD) }
    }

    /// A gate over `input` in state `Low`, with the threshold 0.05.
    pub fn new(input: Input) -> (g: Self)
        ensures
            g == Self::with(input),
    {
        Gate { input, state: GateState::Low, last: Sample(ZERO), threshold: Sample(GATE_THRESHOLD) }
    }

    /// A gate over `input` in state `Low`, with a threshold of the caller's.
    pub fn with_threshold(input: Input, threshold: Sample) -> (g: Self)
        ensures
            g == (Gate { input, state: GateState::Low, last: Sample(ZERO), threshold }),
    {
        Gate { input, state: GateState::Low, last: Sample(ZERO), threshold }
    }

    /// This gate after one update against `r`.
    pub open spec fn updated(self, r: Reading) -> Gate {
        Gate {
            input: self.input,
            state: self.state.after(self.input.value(r), self.threshold),
            last: self.input.value(r),
            threshold: self.threshold,
        }
    }

    /// Reads the input once, moves to the state that follows, and returns it.
    pub fn update(&mut self, ctx: InputContext) -> (state: GateState)
        requires
            old(self).input.resolves(ctx@),
        ensures
            *final(self) == old(self).updated(ctx@),
            state == final(self).state,
    {
        let input_sample = self.input.evaluate(ctx);
        self.last = input_sample;

        self.state = match self.state {
            GateState::Low => {
                if input_sample.gt(self.threshold) {
                    GateState::RisingEdge
                } else {
                    GateState::Low
                }
            },
            GateState::RisingEdge => {
                if input_sample.ge(self.threshold) {
                    GateState::High
                } else {
                    GateState::FallingEdge
                }
            },
            GateState::High => {
                if input_sample.lt(self.threshold) {
                    GateState::FallingEdge
                } else {
                    GateState::High
                }
            },
            GateState::FallingEdge => {
                if input_sample.le(self.threshold) {
                    GateState::Low
                } else {
                    GateState::RisingEdge
                }
            },
        };

        self.state
    }
}

/// A gate in `Low` stays in `Low` for as long as no sample is above the
/// threshold.
pub proof fn lemma_low_while_not_above(signal: Seq<Sample>, threshold: Sample)
    requires
        forall|i: int| 0 <= i < signal.len() ==> !signal[i].greater(threshold),
    ensures
        GateState::Low.after_all(signal, threshold) == GateState::Low,
    decreases signal.len(),
{
    if signal.len() > 0 {
        lemma_low_while_not_above(signal.drop_last(), threshold);
    }
}

/// A step input walks a gate through all four states: from `Low`, a sample
/// above the threshold gives `RisingEdge`, a second one `High`; then a sample
/// below the threshold gives `FallingEdge`, and a second one `Low`.
pub proof fn lemma_step_input(above: Sample, below: Sample, threshold: Sample)
    requires
        above.greater(threshold),
        below.less(threshold),
    ensures
        GateState::Low.after(above, threshold) == GateState::RisingEdge,
        GateState::RisingEdge.after(above, threshold) == GateState::High,
        GateState::High.after(below, threshold) == GateState::FallingEdge,
        GateState::FallingEdge.after(below, threshold) == GateState::Low,
        GateState::Low.after_all(seq![above, above, below, below], threshold) == GateState::Low,
{
    let s = seq![above, above, below, below];
    let s3 = s.drop_last();
    let s2 = s3.drop_last();
    let s1 = s2.drop_last();
    let s0 = s1.drop_last();
    assert(s0.len() == 0);
    assert(GateState::Low.after_all(s0, threshold) == GateState::Low);
    assert(s1.last() == above);
    assert(GateState::Low.after_all(s1, threshold) == GateState::RisingEdge);
    assert(s2.last() == above);
    assert(GateState::Low.after_all(s2, threshold) == GateState::High);
    assert(s3.last() == below);
    assert(GateState::Low.after_all(s3, threshold) == GateState::FallingEdge);
    assert(s.last() == below);
}

/// While the input holds one level above the threshold, a gate is in
/// `RisingEdge` for exactly the first sample and in `High` from then on.
pub proof fn lemma_high_while_above(signal: Seq<Sample>, threshold: Sample)
    requires
        signal.len() >= 2,
        forall|i: int| 0 <= i < signal.len() ==> signal[i].greater(threshold),
    ensures
        GateState::Low.after_all(signal.take(1), threshold) == GateState::RisingEdge,
        GateState::Low.after_all(signal, threshold) == GateState::High,
    decreases signal.len(),
{
    let first = signal.take(1);
    assert(first.drop_last().len() == 0);
    assert(GateState::Low.after_all(first.drop_last(), threshold) == GateState::Low);
    assert(first.last() == signal[0]);
    if signal.len() == 2 {
        assert(signal.drop_last() =~= first);
    } else {
        let front = signal.drop_last();
        assert(front.take(1) =~= first);
        lemma_high_while_above(front, threshold);
    }
}

} // verus!
