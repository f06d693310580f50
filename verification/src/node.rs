//! Nodes: the operations of a synth, each with its own state.
use vstd::prelude::*;
use vstd::std_specs::convert::{FromSpecImpl, IntoSpec};
use crate::buffer::{BufferID, BufferSampler, SamplerContext, Sequencer, Shelf};
use crate::context::EvaluationContext;
use crate::envelope::{ADSR, AR};
use crate::gate::{Gate, GateState};
use crate::kernel::{apply, functional, graph, interpolation, lerp, total, Arithmetic, Op};
use crate::parameter::{values, Parameter, ParameterID, ParameterSampler, SampleMode};
use crate::sample::{
    Sample, FOUR, FULL_TURN, HALF, MINUS_ONE, ONE, QUARTER, THREE_QUARTERS, TWO, ZERO,
};
use crate::synth::{writes, StoreID};

verus! {

/// Names one instruction of a synth: its place in the instruction list.
#[derive(Debug, Copy, Clone)]
pub struct NodeID(pub u32);

/// Where a node takes an operand from. It is resolved at each evaluation.
///
/// A `Node` input reads the arena slot of that instruction. Instructions are
/// evaluated in list order, so the slot of an earlier instruction holds this
/// sample's value, and the slot of a later one, or of the reading instruction
/// itself, still holds the value of the sample before.
#[derive(Debug, Clone, Copy)]
pub enum Input {
    Literal(Sample),
    Node(NodeID),
    Store(StoreID),
    Parameter(ParameterID),
}

/// What inputs are resolved against, as plain values.
pub struct Reading {
    /// Samples per second.
    pub rate: Sample,
    /// Seconds per sample.
    pub dt: Sample,
    /// The most recent output of each instruction.
    pub arena: Seq<Sample>,
    /// The registers of the value store.
    pub store: Seq<Sample>,
    /// The values of the parameters.
    pub parameters: Seq<Sample>,
}

/// What inputs are resolved against.
#[derive(Clone, Copy)]
pub struct InputContext<'eval_ctx, 'synth> {
    pub eval_ctx: &'eval_ctx EvaluationContext,
    pub value_store: &'synth Vec<Sample>,
    pub parameters: &'synth Vec<Parameter>,
}

impl<'eval_ctx, 'synth> View for InputContext<'eval_ctx, 'synth> {
    type V = Reading;

    open spec fn view(&self) -> Reading {
        Reading {
            rate: self.eval_ctx.sample_rate,
            dt: self.eval_ctx.sample_dt,
            arena: self.eval_ctx.sample_arena@,
            store: self.value_store@,
            parameters: values(self.parameters@),
        }
    }
}

impl Input {
    /// The input names something that `r` holds.
    pub open spec fn resolves(self, r: Reading) -> bool {
        match self {
            Input::Literal(_) => true,
            Input::Node(NodeID(idx)) => idx < r.arena.len(),
            Input::Store(StoreID(idx)) => idx < r.store.len(),
            Input::Parameter(ParameterID { id, .. }) => id < r.parameters.len(),
        }
    }

    /// The sample that the input stands for in `r`.
    pub open spec fn value(self, r: Reading) -> Sample {
        match self {
            Input::Literal(f) => f,
            Input::Node(NodeID(idx)) => r.arena[idx as int],
            Input::Store(StoreID(idx)) => r.store[idx as int],
            Input::Parameter(ParameterID { id, .. }) => r.parameters[id as int],
        }
    }

    /// Whether the input names something that is there, where the arena
    /// has `arena_len` slots, the value store `store_len` registers, and
    /// the synth `parameter_count` parameters.
    pub fn fits(self, arena_len: usize, store_len: usize, parameter_count: usize) -> (ok: bool)
        ensures
            forall|r: Reading|
                r.arena.len() == arena_len && r.store.len() == store_len && r.parameters.len()
                    == parameter_count ==> ok == #[trigger] self.resolves(r),
    {
        match self {
            Input::Literal(_) => true,
            Input::Node(NodeID(idx)) => (idx as usize) < arena_len,
            Input::Store(StoreID(idx)) => (idx as usize) < store_len,
            Input::Parameter(ParameterID { id, .. }) => (id as usize) < parameter_count,
        }
    }

    /// Resolves the input: the literal itself, the arena slot of a node, a
    /// register, or a parameter's value.
    pub fn evaluate(self, ctx: InputContext) -> (v: Sample)
        requires
            self.resolves(ctx@),
        ensures
            v == self.value(ctx@),
    {
        match self {
            Input::Literal(f) => f,
            Input::Node(NodeID(idx)) => ctx.eval_ctx.sample_arena[idx as usize],
            Input::Store(StoreID(idx)) => ctx.value_store[idx as usize],
            Input::Parameter(ParameterID { id, .. }) => ctx.parameters[id as usize].evaluate(),
        }
    }
}

impl From<Sample> for Input {
    fn from(v: Sample) -> (r: Input) {
        Input::Literal(v)
    }
}

impl FromSpecImpl<Sample> for Input {
    open spec fn obeys_from_spec() -> bool {
        true
    }

    open spec fn from_spec(v: Sample) -> Input {
        Input::Literal(v)
    }
}

impl From<NodeID> for Input {
    fn from(v: NodeID) -> (r: Input) {
        Input::Node(v)
    }
}

impl FromSpecImpl<NodeID> for Input {
    open spec fn obeys_from_spec() -> bool {
        true
    }

    open spec fn from_spec(v: NodeID) -> Input {
        Input::Node(v)
    }
}

impl From<StoreID> for Input {
    fn from(v: StoreID) -> (r: Input) {
        Input::Store(v)
    }
}

impl FromSpecImpl<StoreID> for Input {
    open spec fn obeys_from_spec() -> bool {
        true
    }

    open spec fn from_spec(v: StoreID) -> Input {
        Input::Store(v)
    }
}

impl From<ParameterID> for Input {
    fn from(v: ParameterID) -> (r: Input) {
        Input::Parameter(v)
    }
}

impl FromSpecImpl<ParameterID> for Input {
    open spec fn obeys_from_spec() -> bool {
        true
    }

    open spec fn from_spec(v: ParameterID) -> Input {
        Input::Parameter(v)
    }
}

/// What `x` becomes as an input, where `I` keeps to its stated conversion.
pub open spec fn input_of<I: Into<Input>>(x: I) -> Input {
    x.into_spec()
}

/// The phase accumulator of an oscillator.
#[derive(Debug, Clone, Copy)]
pub struct Phase {
    /// Place in the cycle, from 0 up to the period.
    pub phase: Sample,
    /// Length of one cycle in units of phase.
    pub period: Sample,
    /// Cycles per second.
    pub freq: Input,
}

impl Phase {
    /// An accumulator at 0 with the period 1.
    pub fn new(freq: Input) -> (p: Phase)
        ensures
            p == (Phase { phase: Sample(ZERO), period: Sample(ONE), freq }),
    {
        Phase { phase: Sample(ZERO), period: Sample(ONE), freq }
    }

    /// An accumulator at 0 with the given period.
    pub fn with_period(freq: Input, period: Sample) -> (p: Phase)
        ensures
            p == (Phase { phase: Sample(ZERO), period, freq }),
    {
        Phase { phase: Sample(ZERO), period, freq }
    }

    /// The accumulator one sample on: `(phase + period * freq / rate) % period`.
    pub open spec fn advanced(self, f: Arithmetic, r: Reading) -> Phase {
        let turn = f(Op::Div(f(Op::Mul(self.period, self.freq.value(r))), r.rate));
        Phase { phase: f(Op::Rem(f(Op::Add(self.phase, turn)), self.period)), ..self }
    }

    /// Moves the phase one sample on and returns it.
    pub fn advance<K: Fn(Op) -> Sample>(&mut self, ctx: InputContext, k: &K) -> (phase: Sample)
        requires
            total(k),
            old(self).freq.resolves(ctx@),
        ensures
            phase == final(self).phase,
            final(self).period == old(self).period,
            final(self).freq == old(self).freq,
            functional(k) ==> *final(self) == old(self).advanced(graph(k), ctx@),
    {
        let freq = self.freq.evaluate(ctx);

        let cycles = apply(k, Op::Mul(self.period, freq));
        let turn = apply(k, Op::Div(cycles, ctx.eval_ctx.sample_rate));
        let sum = apply(k, Op::Add(self.phase, turn));
        self.phase = apply(k, Op::Rem(sum, self.period));
        self.phase
    }
}

/// One operation of a synth, with its configuration and its own state.
#[derive(Debug, Clone, Copy)]
pub enum Node {
    Sine(Phase),
    Triangle(Phase),
    Square(Phase),
    Saw(Phase),
    LowPass { input: Input, freq: Input, prev_result: Sample },
    HighPass { input: Input, freq: Input, prev_sample_diff: Sample },
    Clamp { input: Input, lb: Input, ub: Input },
    Remap { input: Input, in_lb: Sample, in_ub: Sample, out_lb: Sample, out_ub: Sample },
    Mix { a: Input, b: Input, mix: Input },
    Add(Input, Input),
    Subtract(Input, Input),
    Multiply(Input, Input),
    Divide(Input, Input),
    Power(Input, Input),
    StoreWrite(StoreID, Input),
    Sampler { sampler: BufferSampler, reset: Gate },
    Sequencer { seq: Sequencer, advance: Gate, reset: Gate },
    ParameterSampler(ParameterSampler),
    EnvAR(AR),
    EnvADSR(ADSR),
}

/// Sine wave: `sin(phase)`, for a period of one full turn.
pub open spec fn sine_wave(f: Arithmetic, phase: Sample) -> Sample {
    f(Op::Sin(phase))
}

/// Sawtooth: `phase * 2 - 1`, for a period of 1.
pub open spec fn saw_wave(f: Arithmetic, phase: Sample) -> Sample {
    f(Op::Sub(f(Op::Mul(phase, Sample(TWO))), Sample(ONE)))
}

/// Square wave: `1 - floor(phase + 0.5) * 2`, for a period of 1.
pub open spec fn square_wave(f: Arithmetic, phase: Sample) -> Sample {
    f(Op::Sub(Sample(ONE), f(Op::Mul(f(Op::Floor(f(Op::Add(phase, Sample(HALF))))), Sample(TWO)))))
}

/// Triangle wave: `(phase - 0.25) * 4` up to the phase 0.5, from there
/// `(0.75 - phase) * 4`, for a period of 1.
pub open spec fn triangle_wave(f: Arithmetic, phase: Sample) -> Sample {
    if phase.less_eq(Sample(HALF)) {
        f(Op::Mul(f(Op::Sub(phase, Sample(QUARTER))), Sample(FOUR)))
    } else {
        f(Op::Mul(f(Op::Sub(Sample(THREE_QUARTERS), phase)), Sample(FOUR)))
    }
}

/// `1 / (2 pi cutoff)`: the time constant of a one-pole filter.
pub open spec fn time_constant(f: Arithmetic, cutoff: Sample) -> Sample {
    f(Op::Div(Sample(ONE), f(Op::Mul(Sample(FULL_TURN), cutoff))))
}

/// One-pole lowpass: the state moves from `prev` towards `sample` by
/// `dt / (dt + 1 / (2 pi cutoff))`. A cutoff that is not above 0 gives 0.
pub open spec fn lowpass(f: Arithmetic, prev: Sample, sample: Sample, cutoff: Sample, dt: Sample)
    -> Sample {
    if cutoff.greater(Sample(ZERO)) {
        let a = f(Op::Div(dt, f(Op::Add(dt, time_constant(f, cutoff)))));
        interpolation(f, prev, sample, a)
    } else {
        Sample(ZERO)
    }
}

/// One-pole highpass: `a * (prev_diff + sample)` with `a = rc / (rc + dt)`
/// and `rc = 1 / (2 pi cutoff)`.
pub open spec fn highpass(
    f: Arithmetic,
    prev_diff: Sample,
    sample: Sample,
    cutoff: Sample,
    dt: Sample,
) -> Sample {
    let rc = time_constant(f, cutoff);
    let a = f(Op::Div(rc, f(Op::Add(rc, dt))));
    f(Op::Mul(a, f(Op::Add(prev_diff, sample))))
}

/// `sample` held within `lb` and `ub`: `min(max(sample, lb), ub)`.
pub open spec fn clamped(f: Arithmetic, sample: Sample, lb: Sample, ub: Sample) -> Sample {
    f(Op::Min(f(Op::Max(sample, lb)), ub))
}

/// Linear rescale of `sample` from `in_lb..in_ub` to `out_lb..out_ub`:
/// `(sample - in_lb) / (in_ub - in_lb) * (out_ub - out_lb) + out_lb`.
pub open spec fn remapped(
    f: Arithmetic,
    sample: Sample,
    in_lb: Sample,
    in_ub: Sample,
    out_lb: Sample,
    out_ub: Sample,
) -> Sample {
    let normalised = f(Op::Div(f(Op::Sub(sample, in_lb)), f(Op::Sub(in_ub, in_lb))));
    f(Op::Add(f(Op::Mul(normalised, f(Op::Sub(out_ub, out_lb)))), out_lb))
}

impl Node {
    /// Everything that the node names is there: its inputs resolve in `r`,
    /// its register and its parameter exist, and a reader stands inside a
    /// buffer of `shelf`.
    pub open spec fn ready(self, r: Reading, shelf: Shelf) -> bool {
        match self {
            Node::Sine(p) | Node::Triangle(p) | Node::Square(p) | Node::Saw(p) => p.freq.resolves(
                r,
            ),
            Node::LowPass { input, freq, .. } | Node::HighPass { input, freq, .. } => {
                input.resolves(r) && freq.resolves(r)
            },
            Node::Clamp { input, lb, ub } => input.resolves(r) && lb.resolves(r) && ub.resolves(r),
            Node::Remap { input, .. } => input.resolves(r),
            Node::Mix { a, b, mix } => a.resolves(r) && b.resolves(r) && mix.resolves(r),
            Node::Add(a, b)
            | Node::Subtract(a, b)
            | Node::Multiply(a, b)
            | Node::Divide(a, b)
            | Node::Power(a, b) => a.resolves(r) && b.resolves(r),
            Node::StoreWrite(StoreID(idx), input) => idx < r.store.len() && input.resolves(r),
            Node::Sampler { sampler, reset } => {
                reset.input.resolves(r) && sampler.0.ready(shelf)
            },
            Node::Sequencer { seq, advance, reset } => {
                advance.input.resolves(r) && reset.input.resolves(r) && seq.ready(shelf)
            },
            Node::ParameterSampler(sampler) => sampler.parameter.id < r.parameters.len(),
            Node::EnvAR(env) => env.gate.input.resolves(r),
            Node::EnvADSR(env) => env.gate.input.resolves(r),
        }
    }

    /// Whether everything that the node names is there, where the arena
    /// has `arena_len` slots, the value store `store_len` registers, and
    /// the synth `parameter_count` parameters.
    pub fn fits(
        &self,
        arena_len: usize,
        store_len: usize,
        parameter_count: usize,
        sampler_ctx: SamplerContext,
    ) -> (ok: bool)
        ensures
            forall|r: Reading|
                r.arena.len() == arena_len && r.store.len() == store_len && r.parameters.len()
                    == parameter_count ==> ok == #[trigger] self.ready(r, sampler_ctx@),
    {
        match *self {
            Node::Sine(p) | Node::Triangle(p) | Node::Square(p) | Node::Saw(p) => p.freq.fits(
                arena_len,
                store_len,
                parameter_count,
            ),
            Node::LowPass { input, freq, .. } | Node::HighPass { input, freq, .. } => {
                input.fits(arena_len, store_len, parameter_count) && freq.fits(
                    arena_len,
                    store_len,
                    parameter_count,
                )
            },
            Node::Clamp { input, lb, ub } => {
                input.fits(arena_len, store_len, parameter_count) && lb.fits(
                    arena_len,
                    store_len,
                    parameter_count,
                ) && ub.fits(arena_len, store_len, parameter_count)
            },
            Node::Remap { input, .. } => input.fits(arena_len, store_len, parameter_count),
            Node::Mix { a, b, mix } => {
                a.fits(arena_len, store_len, parameter_count) && b.fits(
                    arena_len,
                    store_len,
                    parameter_count,
                ) && mix.fits(arena_len, store_len, parameter_count)
            },
            Node::Add(a, b)
            | Node::Subtract(a, b)
            | Node::Multiply(a, b)
            | Node::Divide(a, b)
            | Node::Power(a, b) => {
                a.fits(arena_len, store_len, parameter_count) && b.fits(
                    arena_len,
                    store_len,
                    parameter_count,
                )
            },
            Node::StoreWrite(StoreID(idx), input) => {
                (idx as usize) < store_len && input.fits(arena_len, store_len, parameter_count)
            },
            Node::Sampler { sampler, reset } => {
                reset.input.fits(arena_len, store_len, parameter_count) && sampler.0.fits(
                    sampler_ctx,
                )
            },
            Node::Sequencer { seq, advance, reset } => {
                advance.input.fits(arena_len, store_len, parameter_count) && reset.input.fits(
                    arena_len,
                    store_len,
                    parameter_count,
                ) && seq.fits(sampler_ctx)
            },
            Node::ParameterSampler(sampler) => (sampler.parameter.id as usize) < parameter_count,
            Node::EnvAR(env) => env.gate.input.fits(arena_len, store_len, parameter_count),
            Node::EnvADSR(env) => env.gate.input.fits(arena_len, store_len, parameter_count),
        }
    }

    /// The node asks nothing of the kernel on this sample: it moves samples
    /// only, or it is a lowpass whose cutoff is not above 0.
    pub open spec fn settled(self, r: Reading) -> bool {
        match self {
            Node::StoreWrite(..) | Node::Sampler { .. } | Node::Sequencer { .. }
            | Node::ParameterSampler(_) => true,
            Node::LowPass { freq, .. } => !freq.value(r).greater(Sample(ZERO)),
            _ => false,
        }
    }

    /// The node one sample on, and the sample it puts out, in the
    /// arithmetic `f`.
    pub open spec fn stepped(self, f: Arithmetic, r: Reading, shelf: Shelf) -> (Node, Sample) {
        match self {
            Node::Sine(p) => (
                Node::Sine(p.advanced(f, r)),
                sine_wave(f, p.advanced(f, r).phase),
            ),
            Node::Saw(p) => (Node::Saw(p.advanced(f, r)), saw_wave(f, p.advanced(f, r).phase)),
            Node::Square(p) => (
                Node::Square(p.advanced(f, r)),
                square_wave(f, p.advanced(f, r).phase),
            ),
            Node::Triangle(p) => (
                Node::Triangle(p.advanced(f, r)),
                triangle_wave(f, p.advanced(f, r).phase),
            ),
            Node::LowPass { input, freq, prev_result } => {
                let out = lowpass(f, prev_result, input.value(r), freq.value(r), r.dt);
                (Node::LowPass { input, freq, prev_result: out }, out)
            },
            Node::HighPass { input, freq, prev_sample_diff } => {
                let out = highpass(f, prev_sample_diff, input.value(r), freq.value(r), r.dt);
                (
                    Node::HighPass {
                        input,
                        freq,
                        prev_sample_diff: f(Op::Sub(out, input.value(r))),
                    },
                    out,
                )
            },
            Node::Clamp { input, lb, ub } => (
                self,
                clamped(f, input.value(r), lb.value(r), ub.value(r)),
            ),
            Node::Remap { input, in_lb, in_ub, out_lb, out_ub } => (
                self,
                remapped(f, input.value(r), in_lb, in_ub, out_lb, out_ub),
            ),
            Node::Mix { a, b, mix } => (
                self,
                interpolation(f, a.value(r), b.value(r), mix.value(r)),
            ),
            Node::Add(a, b) => (self, f(Op::Add(a.value(r), b.value(r)))),
            Node::Subtract(a, b) => (self, f(Op::Sub(a.value(r), b.value(r)))),
            Node::Multiply(a, b) => (self, f(Op::Mul(a.value(r), b.value(r)))),
            Node::Divide(a, b) => (self, f(Op::Div(a.value(r), b.value(r)))),
            Node::Power(a, b) => (self, f(Op::Pow(a.value(r), b.value(r)))),
            Node::StoreWrite(_, input) => (self, input.value(r)),
            Node::Sampler { sampler, reset } => {
                let reset = reset.updated(r);
                let at = if reset.state == GateState::RisingEdge {
                    Sequencer { position: 0, ..sampler.0 }
                } else {
                    sampler.0
                };
                let buffer = shelf.content(at.buffer_id);
                (
                    Node::Sampler { sampler: BufferSampler(at.stepped(buffer.len())), reset },
                    buffer[at.position as int],
                )
            },
            Node::ParameterSampler(sampler) => (self, r.parameters[sampler.parameter.id as int]),
            Node::Sequencer { seq, advance, reset } => {
                let advance = advance.updated(r);
                let reset = reset.updated(r);
                let buffer = shelf.content(seq.buffer_id);
                let moved = if advance.state == GateState::RisingEdge {
                    seq.stepped(buffer.len())
                } else {
                    seq
                };
                let at = if reset.state == GateState::RisingEdge {
                    Sequencer { position: 0, ..moved }
                } else {
                    moved
                };
                (Node::Sequencer { seq: at, advance, reset }, buffer[at.position as int])
            },
            Node::EnvAR(env) => (Node::EnvAR(env.advanced(f, r)), env.position),
            Node::EnvADSR(env) => (Node::EnvADSR(env.advanced(f, r)), env.position),
        }
    }

    /// Evaluates the node for one sample: resolves its inputs, moves its own
    /// state one sample on, and returns its output.
    pub fn evaluate<K: Fn(Op) -> Sample>(
        &mut self,
        input_ctx: InputContext,
        sampler_ctx: SamplerContext,
        k: &K,
    ) -> (sample: Sample)
        requires
            total(k),
            old(self).ready(input_ctx@, sampler_ctx@),
        ensures
            final(self).ready(input_ctx@, sampler_ctx@),
            functional(k) || old(self).settled(input_ctx@) ==> (*final(self), sample) == old(
                self,
            ).stepped(graph(k), input_ctx@, sampler_ctx@),
            *old(self) matches Node::LowPass { freq, .. } && !freq.value(input_ctx@).greater(
                Sample(ZERO),
            ) ==> sample == Sample(ZERO),
            forall|reg: u32| #[trigger] writes(*final(self), reg) == writes(*old(self), reg),
    {
        let node = *self;
        match node {
            Node::Sine(mut phase) => {
                let ph = phase.advance(input_ctx, k);
                *self = Node::Sine(phase);
                apply(k, Op::Sin(ph))
            },
            Node::Saw(mut phase) => {
                let ph = phase.advance(input_ctx, k);
                *self = Node::Saw(phase);
                let doubled = apply(k, Op::Mul(ph, Sample(TWO)));
                apply(k, Op::Sub(doubled, Sample(ONE)))
            },
            Node::Square(mut phase) => {
                let ph = phase.advance(input_ctx, k);
                *self = Node::Square(phase);
                let shifted = apply(k, Op::Add(ph, Sample(HALF)));
                let whole = apply(k, Op::Floor(shifted));
                let doubled = apply(k, Op::Mul(whole, Sample(TWO)));
                apply(k, Op::Sub(Sample(ONE), doubled))
            },
            Node::Triangle(mut phase) => {
                let ph = phase.advance(input_ctx, k);
                *self = Node::Triangle(phase);
                if ph.le(Sample(HALF)) {
                    let d = apply(k, Op::Sub(ph, Sample(QUARTER)));
                    apply(k, Op::Mul(d, Sample(FOUR)))
                } else {
                    let d = apply(k, Op::Sub(Sample(THREE_QUARTERS), ph));
                    apply(k, Op::Mul(d, Sample(FOUR)))
                }
            },
            Node::LowPass { input, freq, prev_result } => {
                let sample = input.evaluate(input_ctx);
                let cutoff = freq.evaluate(input_ctx);

                let out = if cutoff.gt(Sample(ZERO)) {
                    let dt = input_ctx.eval_ctx.sample_dt;
                    let turns = apply(k, Op::Mul(Sample(FULL_TURN), cutoff));
                    let rc = apply(k, Op::Div(Sample(ONE), turns));
                    let whole = apply(k, Op::Add(dt, rc));
                    let a = apply(k, Op::Div(dt, whole));
                    lerp(prev_result, sample, a, k)
                } else {
                    Sample(ZERO)
                };

                *self = Node::LowPass { input, freq, prev_result: out };
                out
            },
            Node::HighPass { input, freq, prev_sample_diff } => {
                let sample = input.evaluate(input_ctx);
                let cutoff = freq.evaluate(input_ctx);

                let turns = apply(k, Op::Mul(Sample(FULL_TURN), cutoff));
                let rc = apply(k, Op::Div(Sample(ONE), turns));
                let whole = apply(k, Op::Add(rc, input_ctx.eval_ctx.sample_dt));
                let a = apply(k, Op::Div(rc, whole));

                let sum = apply(k, Op::Add(prev_sample_diff, sample));
                let result = apply(k, Op::Mul(a, sum));
                let diff = apply(k, Op::Sub(result, sample));

                *self = Node::HighPass { input, freq, prev_sample_diff: diff };
                result
            },
            Node::Clamp { input, lb, ub } => {
                let sample = input.evaluate(input_ctx);
                let lb_val = lb.evaluate(input_ctx);
                let ub_val = ub.evaluate(input_ctx);
                let raised = apply(k, Op::Max(sample, lb_val));
                apply(k, Op::Min(raised, ub_val))
            },
            Node::Remap { input, in_lb, in_ub, out_lb, out_ub } => {
                let sample = input.evaluate(input_ctx);
                let offset = apply(k, Op::Sub(sample, in_lb));
                let width = apply(k, Op::Sub(in_ub, in_lb));
                let normalised = apply(k, Op::Div(offset, width));
                let span = apply(k, Op::Sub(out_ub, out_lb));
                let scaled = apply(k, Op::Mul(normalised, span));
                apply(k, Op::Add(scaled, out_lb))
            },
            Node::Mix { a, b, mix } => {
                lerp(
                    a.evaluate(input_ctx),
                    b.evaluate(input_ctx),
                    mix.evaluate(input_ctx),
                    k,
                )
            },
            Node::Add(a, b) => apply(k, Op::Add(a.evaluate(input_ctx), b.evaluate(input_ctx))),
            Node::Subtract(a, b) => apply(
                k,
                Op::Sub(a.evaluate(input_ctx), b.evaluate(input_ctx)),
            ),
            Node::Multiply(a, b) => apply(
                k,
                Op::Mul(a.evaluate(input_ctx), b.evaluate(input_ctx)),
            ),
            Node::Divide(a, b) => apply(k, Op::Div(a.evaluate(input_ctx), b.evaluate(input_ctx))),
            Node::Power(a, b) => apply(k, Op::Pow(a.evaluate(input_ctx), b.evaluate(input_ctx))),
            Node::StoreWrite(_, input) => input.evaluate(input_ctx),
            Node::Sampler { mut sampler, mut reset } => {
                if reset.update(input_ctx).is_rising_edge() {
                    sampler.reset();
                }

                let sample = sampler.sample(sampler_ctx);
                *self = Node::Sampler { sampler, reset };
                sample
            },
            Node::ParameterSampler(mut sampler) => {
                sampler.sample(input_ctx.parameters.as_slice())
            },
            Node::Sequencer { mut seq, mut advance, mut reset } => {
                if advance.update(input_ctx).is_rising_edge() {
                    seq.advance(sampler_ctx);
                }

                if reset.update(input_ctx).is_rising_edge() {
                    seq.reset();
                }

                let sample = seq.sample(sampler_ctx);
                *self = Node::Sequencer { seq, advance, reset };
                sample
            },
            Node::EnvAR(mut env_ar) => {
                let sample = env_ar.advance(input_ctx, k);
                *self = Node::EnvAR(env_ar);
                sample
            },
            Node::EnvADSR(mut env_adsr) => {
                let sample = env_adsr.advance(input_ctx, k);
                *self = Node::EnvADSR(env_adsr);
                sample
            },
        }
    }
}

/// A lowpass whose cutoff is at or below 0 puts out exactly 0 and holds 0,
/// whatever its input, its state and the arithmetic are.
pub proof fn lemma_lowpass_silent(
    f: Arithmetic,
    input: Input,
    freq: Input,
    prev_result: Sample,
    r: Reading,
    shelf: Shelf,
)
    requires
        freq.value(r).less_eq(Sample(ZERO)),
    ensures
        (Node::LowPass { input, freq, prev_result }).stepped(f, r, shelf) == (
            Node::LowPass { input, freq, prev_result: Sample(ZERO) },
            Sample(ZERO),
        ),
        (Node::LowPass { input, freq, prev_result }).settled(r),
{
}

/// `after` is `before` with one instruction appended, the instruction `id`.
pub open spec fn extended(before: Seq<Node>, after: Seq<Node>, id: NodeID) -> bool {
    &&& after.len() == before.len() + 1
    &&& after.drop_last() == before
    &&& id.0 == before.len()
}

/// Something that holds an instruction list and can be built up node by
/// node. Each `new_` method appends one node in its initial state and
/// returns its id. No reference is checked here: a node may name what is
/// not there yet.
pub trait NodeContainer: Sized {
    /// The instruction list.
    spec fn nodes(&self) -> Seq<Node>;

    /// `self` and `other` differ in their instruction lists at most.
    spec fn alike(&self, other: &Self) -> bool;

    /// Appends an instruction.
    fn add_node(&mut self, inst: Node) -> (id: NodeID)
        requires
            old(self).nodes().len() < u32::MAX,
        ensures
            old(self).alike(final(self)),
            extended(old(self).nodes(), final(self).nodes(), id),
            final(self).nodes() == old(self).nodes().push(inst),
    ;

    /// A sine oscillator at `freq` cycles per second.
    fn new_sine<I: Into<Input>>(&mut self, freq: I) -> (id: NodeID)
        requires
            old(self).nodes().len() < u32::MAX,
        ensures
            old(self).alike(final(self)),
            extended(old(self).nodes(), final(self).nodes(), id),
            I::obeys_into_spec() ==> final(self).nodes() == old(self).nodes().push(
                Node::Sine(
                    Phase { phase: Sample(ZERO), period: Sample(FULL_TURN), freq: input_of(freq) },
                ),
            ),
    {
        self.add_node(Node::Sine(Phase::with_period(freq.into(), Sample(FULL_TURN))))
    }

    /// A triangle oscillator at `freq` cycles per second.
    fn new_triangle<I: Into<Input>>(&mut self, freq: I) -> (id: NodeID)
        requires
            old(self).nodes().len() < u32::MAX,
        ensures
            old(self).alike(final(self)),
            extended(old(self).nodes(), final(self).nodes(), id),
            I::obeys_into_spec() ==> final(self).nodes() == old(self).nodes().push(
                Node::Triangle(
                    Phase { phase: Sample(ZERO), period: Sample(ONE), freq: input_of(freq) },
                ),
            ),
    {
        self.add_node(Node::Triangle(Phase::new(freq.into())))
    }

    /// A sawtooth oscillator at `freq` cycles per second.
    fn new_saw<I: Into<Input>>(&mut self, freq: I) -> (id: NodeID)
        requires
            old(self).nodes().len() < u32::MAX,
        ensures
            old(self).alike(final(self)),
            extended(old(self).nodes(), final(self).nodes(), id),
            I::obeys_into_spec() ==> final(self).nodes() == old(self).nodes().push(
                Node::Saw(Phase { phase: Sample(ZERO), period: Sample(ONE), freq: input_of(freq) }),
            ),
    {
        self.add_node(Node::Saw(Phase::new(freq.into())))
    }

    /// A square oscillator at `freq` cycles per second.
    fn new_square<I: Into<Input>>(&mut self, freq: I) -> (id: NodeID)
        requires
            old(self).nodes().len() < u32::MAX,
        ensures
            old(self).alike(final(self)),
            extended(old(self).nodes(), final(self).nodes(), id),
            I::obeys_into_spec() ==> final(self).nodes() == old(self).nodes().push(
                Node::Square(
                    Phase { phase: Sample(ZERO), period: Sample(ONE), freq: input_of(freq) },
                ),
            ),
    {
        self.add_node(Node::Square(Phase::new(freq.into())))
    }

    /// A one-pole lowpass over `input` with the cutoff `freq`, at rest.
    fn new_lowpass<I: Into<Input>, I2: Into<Input>>(&mut self, input: I, freq: I2) -> (id: NodeID)
        requires
            old(self).nodes().len() < u32::MAX,
        ensures
            old(self).alike(final(self)),
            extended(old(self).nodes(), final(self).nodes(), id),
            I::obeys_into_spec() && I2::obeys_into_spec() ==> final(self).nodes() == old(self).nodes().push(
                Node::LowPass {
                    input: input_of(input),
                    freq: input_of(freq),
                    prev_result: Sample(ZERO),
                },
            ),
    {
        self.add_node(
            Node::LowPass { input: input.into(), freq: freq.into(), prev_result: Sample(ZERO) },
        )
    }

    /// A one-pole highpass over `input` with the cutoff `freq`, at rest.
    fn new_highpass<I: Into<Input>, I2: Into<Input>>(&mut self, input: I, freq: I2) -> (id: NodeID)
        requires
            old(self).nodes().len() < u32::MAX,
        ensures
            old(self).alike(final(self)),
            extended(old(self).nodes(), final(self).nodes(), id),
            I::obeys_into_spec() && I2::obeys_into_spec() ==> final(self).nodes() == old(self).nodes().push(
                Node::HighPass {
                    input: input_of(input),
                    freq: input_of(freq),
                    prev_sample_diff: Sample(ZERO),
                },
            ),
    {
        self.add_node(
            Node::HighPass {
                input: input.into(),
                freq: freq.into(),
                prev_sample_diff: Sample(ZERO),
            },
        )
    }

    /// `input` held within `lb` and `ub`.
    fn new_clamp<I: Into<Input>, L: Into<Input>, U: Into<Input>>(
        &mut self,
        input: I,
        lb: L,
        ub: U,
    ) -> (id: NodeID)
        requires
            old(self).nodes().len() < u32::MAX,
        ensures
            old(self).alike(final(self)),
            extended(old(self).nodes(), final(self).nodes(), id),
            I::obeys_into_spec() && L::obeys_into_spec() && U::obeys_into_spec() ==> final(self).nodes() == old(self).nodes().push(
                Node::Clamp { input: input_of(input), lb: input_of(lb), ub: input_of(ub) },
            ),
    {
        self.add_node(Node::Clamp { input: input.into(), lb: lb.into(), ub: ub.into() })
    }

    /// `input` rescaled from the range `in_lb..in_ub` to `out_lb..out_ub`.
    fn new_remap<I: Into<Input>>(
        &mut self,
        input: I,
        in_lb: Sample,
        in_ub: Sample,
        out_lb: Sample,
        out_ub: Sample,
    ) -> (id: NodeID)
        requires
            old(self).nodes().len() < u32::MAX,
        ensures
            old(self).alike(final(self)),
            extended(old(self).nodes(), final(self).nodes(), id),
            I::obeys_into_spec() ==> final(self).nodes() == old(self).nodes().push(
                Node::Remap { input: input_of(input), in_lb, in_ub, out_lb, out_ub },
            ),
    {
        self.add_node(Node::Remap { input: input.into(), in_lb, in_ub, out_lb, out_ub })
    }

    /// `input` rescaled from a signal, -1 to 1, to a control value, 0 to 1.
    fn new_signal_to_control<I: Into<Input>>(&mut self, input: I) -> (id: NodeID)
        requires
            old(self).nodes().len() < u32::MAX,
        ensures
            old(self).alike(final(self)),
            extended(old(self).nodes(), final(self).nodes(), id),
            I::obeys_into_spec() ==> final(self).nodes() == old(self).nodes().push(
                Node::Remap {
                    input: input_of(input),
                    in_lb: Sample(MINUS_ONE),
                    in_ub: Sample(ONE),
                    out_lb: Sample(ZERO),
                    out_ub: Sample(ONE),
                },
            ),
    {
        self.new_remap(input, Sample(MINUS_ONE), Sample(ONE), Sample(ZERO), Sample(ONE))
    }

    /// `input` rescaled from a control value, 0 to 1, to a signal, -1 to 1.
    fn new_control_to_signal<I: Into<Input>>(&mut self, input: I) -> (id: NodeID)
        requires
            old(self).nodes().len() < u32::MAX,
        ensures
            old(self).alike(final(self)),
            extended(old(self).nodes(), final(self).nodes(), id),
            I::obeys_into_spec() ==> final(self).nodes() == old(self).nodes().push(
                Node::Remap {
                    input: input_of(input),
                    in_lb: Sample(ZERO),
                    in_ub: Sample(ONE),
                    out_lb: Sample(MINUS_ONE),
                    out_ub: Sample(ONE),
                },
            ),
    {
        self.new_remap(input, Sample(ZERO), Sample(ONE), Sample(MINUS_ONE), Sample(ONE))
    }

    /// Linear interpolation from `a` to `b` by `m`.
    fn new_mix<A: Into<Input>, B: Into<Input>, M: Into<Input>>(&mut self, a: A, b: B, m: M) -> (id:
        NodeID)
        requires
            old(self).nodes().len() < u32::MAX,
        ensures
            old(self).alike(final(self)),
            extended(old(self).nodes(), final(self).nodes(), id),
            A::obeys_into_spec() && B::obeys_into_spec() && M::obeys_into_spec() ==> final(self).nodes() == old(self).nodes().push(
                Node::Mix { a: input_of(a), b: input_of(b), mix: input_of(m) },
            ),
    {
        self.add_node(Node::Mix { a: a.into(), b: b.into(), mix: m.into() })
    }

    /// `a + b`
    fn new_add<I: Into<Input>, I2: Into<Input>>(&mut self, a: I, b: I2) -> (id: NodeID)
        requires
            old(self).nodes().len() < u32::MAX,
        ensures
            old(self).alike(final(self)),
            extended(old(self).nodes(), final(self).nodes(), id),
            I::obeys_into_spec() && I2::obeys_into_spec() ==> final(self).nodes() == old(self).nodes().push(
                Node::Add(input_of(a), input_of(b)),
            ),
    {
        self.add_node(Node::Add(a.into(), b.into()))
    }

    /// `a - b`
    fn new_sub<I: Into<Input>, I2: Into<Input>>(&mut self, a: I, b: I2) -> (id: NodeID)
        requires
            old(self).nodes().len() < u32::MAX,
        ensures
            old(self).alike(final(self)),
            extended(old(self).nodes(), final(self).nodes(), id),
            I::obeys_into_spec() && I2::obeys_into_spec() ==> final(self).nodes() == old(self).nodes().push(
                Node::Subtract(input_of(a), input_of(b)),
            ),
    {
        self.add_node(Node::Subtract(a.into(), b.into()))
    }

    /// `a * b`
    fn new_multiply<I: Into<Input>, I2: Into<Input>>(&mut self, a: I, b: I2) -> (id: NodeID)
        requires
            old(self).nodes().len() < u32::MAX,
        ensures
            old(self).alike(final(self)),
            extended(old(self).nodes(), final(self).nodes(), id),
            I::obeys_into_spec() && I2::obeys_into_spec() ==> final(self).nodes() == old(self).nodes().push(
                Node::Multiply(input_of(a), input_of(b)),
            ),
    {
        self.add_node(Node::Multiply(a.into(), b.into()))
    }

    /// `a / b`
    fn new_divide<I: Into<Input>, I2: Into<Input>>(&mut self, a: I, b: I2) -> (id: NodeID)
        requires
            old(self).nodes().len() < u32::MAX,
        ensures
            old(self).alike(final(self)),
            extended(old(self).nodes(), final(self).nodes(), id),
            I::obeys_into_spec() && I2::obeys_into_spec() ==> final(self).nodes() == old(self).nodes().push(
                Node::Divide(input_of(a), input_of(b)),
            ),
    {
        self.add_node(Node::Divide(a.into(), b.into()))
    }

    /// `a` raised to the power `b`
    fn new_power<I: Into<Input>, I2: Into<Input>>(&mut self, a: I, b: I2) -> (id: NodeID)
        requires
            old(self).nodes().len() < u32::MAX,
        ensures
            old(self).alike(final(self)),
            extended(old(self).nodes(), final(self).nodes(), id),
            I::obeys_into_spec() && I2::obeys_into_spec() ==> final(self).nodes() == old(self).nodes().push(
                Node::Power(input_of(a), input_of(b)),
            ),
    {
        self.add_node(Node::Power(a.into(), b.into()))
    }

    /// Writes `v` to the register `store` and puts the same value out.
    fn new_store_write<I: Into<Input>>(&mut self, store: StoreID, v: I) -> (id: NodeID)
        requires
            old(self).nodes().len() < u32::MAX,
        ensures
            old(self).alike(final(self)),
            extended(old(self).nodes(), final(self).nodes(), id),
            I::obeys_into_spec() ==> final(self).nodes() == old(self).nodes().push(
                Node::StoreWrite(store, input_of(v)),
            ),
    {
        self.add_node(Node::StoreWrite(store, v.into()))
    }

    /// Plays the buffer sample by sample, from the start again after its
    /// end and after each rising edge of `reset`.
    fn new_sampler<R: Into<Input>>(&mut self, buffer_id: BufferID, reset: R) -> (id: NodeID)
        requires
            old(self).nodes().len() < u32::MAX,
        ensures
            old(self).alike(final(self)),
            extended(old(self).nodes(), final(self).nodes(), id),
            R::obeys_into_spec() ==> final(self).nodes() == old(self).nodes().push(
                Node::Sampler {
                    sampler: BufferSampler(Sequencer { buffer_id, position: 0 }),
                    reset: Gate::with(input_of(reset)),
                },
            ),
    {
        self.add_node(
            Node::Sampler {
                sampler: BufferSampler::new(buffer_id),
                reset: Gate::new(reset.into()),
            },
        )
    }

    /// Puts out the value of the parameter.
    fn new_param_sampler(&mut self, param_id: ParameterID, samp_mode: SampleMode) -> (id: NodeID)
        requires
            old(self).nodes().len() < u32::MAX,
        ensures
            old(self).alike(final(self)),
            extended(old(self).nodes(), final(self).nodes(), id),
            final(self).nodes() == old(self).nodes().push(
                Node::ParameterSampler(
                    ParameterSampler { parameter: param_id, sample_mode: samp_mode },
                ),
            ),
    {
        self.add_node(Node::ParameterSampler(ParameterSampler::new(param_id, samp_mode)))
    }

    /// Holds one sample of the buffer, moves one sample on at each rising
    /// edge of `advance`, and goes back to the start at each rising edge of
    /// `reset`.
    fn new_sequencer<A: Into<Input>, R: Into<Input>>(
        &mut self,
        buffer_id: BufferID,
        advance: A,
        reset: R,
    ) -> (id: NodeID)
        requires
            old(self).nodes().len() < u32::MAX,
        ensures
            old(self).alike(final(self)),
            extended(old(self).nodes(), final(self).nodes(), id),
            A::obeys_into_spec() && R::obeys_into_spec() ==> final(self).nodes() == old(self).nodes().push(
                Node::Sequencer {
                    seq: Sequencer { buffer_id, position: 0 },
                    advance: Gate::with(input_of(advance)),
                    reset: Gate::with(input_of(reset)),
                },
            ),
    {
        self.add_node(
            Node::Sequencer {
                seq: Sequencer::new(buffer_id),
                advance: Gate::new(advance.into()),
                reset: Gate::new(reset.into()),
            },
        )
    }

    /// An attack and release envelope; see [`AR::new`].
    fn new_env_ar<G: Into<Input>, K: Fn(Op) -> Sample>(
        &mut self,
        attack: Sample,
        release: Sample,
        gate: G,
        k: &K,
    ) -> (id: NodeID)
        requires
            old(self).nodes().len() < u32::MAX,
            total(k),
        ensures
            old(self).alike(final(self)),
            extended(old(self).nodes(), final(self).nodes(), id),
            G::obeys_into_spec() && functional(k) ==> final(self).nodes() == old(self).nodes().push(
                Node::EnvAR(AR::made(graph(k), attack, release, input_of(gate))),
            ),
    {
        self.add_node(Node::EnvAR(AR::new(attack, release, gate, k)))
    }

    /// An attack, decay, sustain and release envelope; see [`ADSR::new`].
    fn new_env_adsr<G: Into<Input>, K: Fn(Op) -> Sample>(
        &mut self,
        attack: Sample,
        decay: Sample,
        sustain: Sample,
        release: Sample,
        gate: G,
        k: &K,
    ) -> (id: NodeID)
        requires
            old(self).nodes().len() < u32::MAX,
            total(k),
        ensures
            old(self).alike(final(self)),
            extended(old(self).nodes(), final(self).nodes(), id),
            G::obeys_into_spec() && functional(k) ==> final(self).nodes() == old(self).nodes().push(
                Node::EnvADSR(
                    ADSR::made(graph(k), attack, decay, sustain, release, input_of(gate)),
                ),
            ),
    {
        self.add_node(Node::EnvADSR(ADSR::new(attack, decay, sustain, release, gate, k)))
    }
}

} // verus!
