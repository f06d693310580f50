//! Parameters: scalars of one synth that other threads set between buffers.
use vstd::prelude::*;
use crate::sample::{Sample, ZERO};
use crate::synth::SynthID;

verus! {

/// Names one parameter of one synth.
#[derive(PartialEq, Eq, Copy, Clone, Debug, Structural)]
pub struct ParameterID {
    /// The synth that holds the parameter.
    pub owner: SynthID,
    /// Place of the parameter among that synth's parameters.
    pub id: u32,
}

/// A scalar that is read while a buffer is rendered and written between buffers.
#[derive(Clone, Copy, Debug)]
pub struct Parameter {
    value: Sample,
}

impl Parameter {
    /// The value that the parameter holds.
    pub closed spec fn value(&self) -> Sample {
        self.value
    }

    /// A parameter at zero.
    pub fn new() -> (p: Self)
        ensures
            p.value() == Sample(ZERO),
    {
        Parameter { value: Sample(ZERO) }
    }

    /// Reads the parameter.
    pub fn evaluate(&self) -> (v: Sample)
        ensures
            v == self.value(),
    {
        self.value
    }

    /// Overwrites the parameter.
    pub fn set_value(&mut self, val: Sample)
        ensures
            final(self).value() == val,
    {
        self.value = val;
    }
}

/// How a parameter's value is carried from one buffer to the next.
#[derive(Clone, Copy, Debug)]
pub enum SampleMode {
    Linear,
}

/// Reads one parameter as the output of a node.
#[derive(Clone, Copy, Debug)]
pub struct ParameterSampler {
    pub parameter: ParameterID,
    pub sample_mode: SampleMode,
}

/// The values of a parameter list, in order.
pub open spec fn values(parameters: Seq<Parameter>) -> Seq<Sample> {
    Seq::new(parameters.len(), |i: int| parameters[i].value())
}

impl ParameterSampler {
    /// A sampler of `parameter`.
    pub fn new(parameter: ParameterID, sample_mode: SampleMode) -> (s: Self)
        ensures
            s.parameter == parameter,
            s.sample_mode == sample_mode,
    {
        ParameterSampler { parameter, sample_mode }
    }

    /// The parameter's current value; the sampler keeps no state of its own.
    pub fn sample(&mut self, parameters: &[Parameter]) -> (v: Sample)
        requires
            old(self).parameter.id < parameters@.len(),
        ensures
            v == parameters@[old(self).parameter.id as int].value(),
            *final(self) == *old(self),
    {
        let new_sample = parameters[self.parameter.id as usize].evaluate();
        new_sample
    }
}

} // verus!
