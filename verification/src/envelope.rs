//! Envelope generators: amplitude contours driven by a gate.
use vstd::prelude::*;
use vstd::std_specs::convert::IntoSpec;
use crate::gate::{Gate, GateState};
use crate::kernel::{apply, functional, graph, total, Arithmetic, Op};
use crate::node::{input_of, Input, InputContext, Reading};
use crate::sample::{Sample, ONE, ZERO};

verus! {

/// Stage of an envelope.
#[derive(Copy, Clone, Debug, PartialEq, Eq, Structural)]
pub enum State {
    Silence,
    Attack,
    Decay,
    Sustain,
    Release,
}

/// Bits of 0.00001, the shortest time in seconds that a stage may take.
pub const SHORTEST_TIME: u32 = 0x3727_c5ac;

/// `span / max(time, 0.00001)`: the change per second of a stage that
/// crosses `span` in `time` seconds.
pub open spec fn rate_over(f: Arithmetic, span: Sample, time: Sample) -> Sample {
    f(Op::Div(span, f(Op::Max(time, Sample(SHORTEST_TIME)))))
}

/// `position + inc * dt`
pub open spec fn raised(f: Arithmetic, position: Sample, inc: Sample, dt: Sample) -> Sample {
    f(Op::Add(position, f(Op::Mul(inc, dt))))
}

/// `position - inc * dt`
pub open spec fn lowered(f: Arithmetic, position: Sample, inc: Sample, dt: Sample) -> Sample {
    f(Op::Sub(position, f(Op::Mul(inc, dt))))
}

fn rate<K: Fn(Op) -> Sample>(span: Sample, time: Sample, k: &K) -> (r: Sample)
    requires
        total(k),
    ensures
        functional(k) ==> r == rate_over(graph(k), span, time),
{
    let floored = apply(k, Op::Max(time, Sample(SHORTEST_TIME)));
    apply(k, Op::Div(span, floored))
}

fn raise<K: Fn(Op) -> Sample>(position: Sample, inc: Sample, dt: Sample, k: &K) -> (r: Sample)
    requires
        total(k),
    ensures
        functional(k) ==> r == raised(graph(k), position, inc, dt),
{
    let step = apply(k, Op::Mul(inc, dt));
    apply(k, Op::Add(position, step))
}

fn lower<K: Fn(Op) -> Sample>(position: Sample, inc: Sample, dt: Sample, k: &K) -> (r: Sample)
    requires
        total(k),
    ensures
        functional(k) ==> r == lowered(graph(k), position, inc, dt),
{
    let step = apply(k, Op::Mul(inc, dt));
    apply(k, Op::Sub(position, step))
}

/// Attack, decay, sustain, release.
#[derive(Clone, Copy, Debug)]
pub struct ADSR {
    pub state: State,
    /// The contour's level; it is the output.
    pub position: Sample,
    pub gate: Gate,
    /// Rise per second during attack.
    pub atk_inc: Sample,
    /// Fall per second during decay.
    pub dec_inc: Sample,
    /// Level held during sustain, within 0 and 1.
    pub sus_lvl: Sample,
    /// Fall per second during release.
    pub rel_inc: Sample,
}

impl ADSR {
    /// The envelope that [`ADSR::new`] makes in the arithmetic `f`.
    pub open spec fn made(
        f: Arithmetic,
        atk: Sample,
        dec: Sample,
        sus: Sample,
        rel: Sample,
        gate: Input,
    ) -> ADSR {
        let sus_lvl = f(Op::Min(f(Op::Max(sus, Sample(ZERO))), Sample(ONE)));
        ADSR {
            state: State::Silence,
            position: Sample(ZERO),
            gate: Gate::with(gate),
            atk_inc: rate_over(f, Sample(ONE), atk),
            dec_inc: rate_over(f, f(Op::Sub(Sample(ONE), sus_lvl)), dec),
            sus_lvl,
            rel_inc: rate_over(f, sus_lvl, rel),
        }
    }

    /// A silent envelope. `atk`, `dec` and `rel` are times in seconds, each
    /// taken as at least 0.00001; `sus` is a level, clamped to 0 and 1.
    pub fn new<G: Into<Input>, K: Fn(Op) -> Sample>(
        atk: Sample,
        dec: Sample,
        sus: Sample,
        rel: Sample,
        gate: G,
        k: &K,
    ) -> (e: ADSR)
        requires
            total(k),
        ensures
            e.state == State::Silence,
            e.position == Sample(ZERO),
            G::obeys_into_spec() ==> e.gate == Gate::with(input_of(gate)),
            G::obeys_into_spec() && functional(k) ==> e == Self::made(
                graph(k),
                atk,
                dec,
                sus,
                rel,
                input_of(gate),
            ),
    {
        Self::over(atk, dec, sus, rel, gate.into(), k)
    }

    /// A silent envelope over the signal `gate`; see [`ADSR::new`].
    pub fn over<K: Fn(Op) -> Sample>(
        atk: Sample,
        dec: Sample,
        sus: Sample,
        rel: Sample,
        gate: Input,
        k: &K,
    ) -> (e: ADSR)
        requires
            total(k),
        ensures
            e.state == State::Silence,
            e.position == Sample(ZERO),
            e.gate == Gate::with(gate),
            functional(k) ==> e == Self::made(graph(k), atk, dec, sus, rel, gate),
    {
        let floor = apply(k, Op::Max(sus, Sample(ZERO)));
        let sus_lvl = apply(k, Op::Min(floor, Sample(ONE)));
        let fall = apply(k, Op::Sub(Sample(ONE), sus_lvl));

        ADSR {
            state: State::Silence,
            position: Sample(ZERO),
            gate: Gate::new(gate),
            atk_inc: rate(Sample(ONE), atk, k),
            dec_inc: rate(fall, dec, k),
            sus_lvl,
            rel_inc: rate(sus_lvl, rel, k),
        }
    }

    /// The envelope one sample on, in the arithmetic `f`: `gate` is what the
    /// gate has just read, `dt` the seconds that one sample takes.
    ///
    /// Silence waits for a rising edge and then starts the attack at 0. The
    /// attack rises to 1 and turns into decay. Decay falls to the sustain
    /// level and holds there until its gate is low; release falls to 0.
    /// A rising edge during decay, sustain or release starts a new attack
    /// from the level reached, which is never below the sustain level in
    /// decay and never below 0 in release.
    pub open spec fn updated(self, f: Arithmetic, gate: GateState, dt: Sample) -> ADSR {
        let rising = gate == GateState::RisingEdge;
        let lowish = gate == GateState::FallingEdge || gate == GateState::Low;
        match self.state {
            State::Silence => if rising {
                ADSR { state: State::Attack, position: Sample(ZERO), ..self }
            } else {
                self
            },
            State::Attack => {
                let p = raised(f, self.position, self.atk_inc, dt);
                if p.greater_eq(Sample(ONE)) {
                    ADSR { state: State::Decay, position: Sample(ONE), ..self }
                } else {
                    ADSR { state: State::Attack, position: p, ..self }
                }
            },
            State::Decay => {
                let p = lowered(f, self.position, self.dec_inc, dt);
                let position = if p.less_eq(self.sus_lvl) {
                    self.sus_lvl
                } else {
                    p
                };
                if rising {
                    ADSR { state: State::Attack, position, ..self }
                } else if p.less_eq(self.sus_lvl) {
                    ADSR { state: State::Sustain, position, ..self }
                } else {
                    ADSR { state: State::Decay, position, ..self }
                }
            },
            State::Sustain => if lowish {
                ADSR { state: State::Release, ..self }
            } else if rising {
                ADSR { state: State::Attack, ..self }
            } else {
                self
            },
            State::Release => {
                let p = lowered(f, self.position, self.rel_inc, dt);
                let position = if p.less_eq(Sample(ZERO)) {
                    Sample(ZERO)
                } else {
                    p
                };
                if rising {
                    ADSR { state: State::Attack, position, ..self }
                } else if p.less_eq(Sample(ZERO)) {
                    ADSR { state: State::Silence, position, ..self }
                } else {
                    ADSR { state: State::Release, position, ..self }
                }
            },
        }
    }

    /// Moves the contour one sample on.
    pub fn update<K: Fn(Op) -> Sample>(&mut self, gate: GateState, dt: Sample, k: &K)
        requires
            total(k),
        ensures
            final(self).gate == old(self).gate,
            functional(k) ==> *final(self) == old(self).updated(graph(k), gate, dt),
            old(self).state == State::Silence || old(self).state == State::Sustain ==> *final(self)
                == old(self).updated(graph(k), gate, dt),
    {
        self.state = match self.state {
            State::Silence => if gate.is_rising_edge() {
                self.position = Sample(ZERO);
                State::Attack
            } else {
                State::Silence
            },
            State::Attack => {
                self.position = raise(self.position, self.atk_inc, dt, k);

                if self.position.ge(Sample(ONE)) {
                    self.position = Sample(ONE);
                    State::Decay
                } else {
                    State::Attack
                }
            },
            State::Decay => {
                self.position = lower(self.position, self.dec_inc, dt, k);

                if self.position.le(self.sus_lvl) {
                    self.position = self.sus_lvl;

                    if gate.is_rising_edge() {
                        State::Attack
                    } else {
                        State::Sustain
                    }
                } else {
                    if gate.is_rising_edge() {
                        State::Attack
                    } else {
                        State::Decay
                    }
                }
            },
            State::Sustain => if gate.is_lowish() {
                State::Release
            } else if gate.is_rising_edge() {
                State::Attack
            } else {
                State::Sustain
            },
            State::Release => {
                self.position = lower(self.position, self.rel_inc, dt, k);

                if self.position.le(Sample(ZERO)) {
                    self.position = Sample(ZERO);

                    if gate.is_rising_edge() {
                        State::Attack
                    } else {
                        State::Silence
                    }
                } else {
                    if gate.is_rising_edge() {
                        State::Attack
                    } else {
                        State::Release
                    }
                }
            },
        }
    }

    /// The envelope after one call of [`ADSR::advance`] against `r`.
    pub open spec fn advanced(self, f: Arithmetic, r: Reading) -> ADSR {
        let gate = self.gate.updated(r);
        (ADSR { gate, ..self }).updated(f, gate.state, r.dt)
    }

    /// Returns the level, then updates its gate and moves the contour one
    /// sample on.
    pub fn advance<K: Fn(Op) -> Sample>(&mut self, input_ctx: InputContext, k: &K) -> (sample:
        Sample)
        requires
            total(k),
            old(self).gate.input.resolves(input_ctx@),
        ensures
            sample == old(self).position,
            final(self).gate == old(self).gate.updated(input_ctx@),
            functional(k) ==> *final(self) == old(self).advanced(graph(k), input_ctx@),
    {
        let sample = self.position;
        let gate = self.gate.update(input_ctx);
        self.update(gate, input_ctx.eval_ctx.sample_dt, k);
        sample
    }
}

/// Attack and release.
#[derive(Clone, Copy, Debug)]
pub struct AR {
    pub state: State,
    /// The contour's level; it is the output.
    pub position: Sample,
    pub gate: Gate,
    /// Rise per second during attack.
    pub atk_inc: Sample,
    /// Fall per second during release.
    pub rel_inc: Sample,
}

impl AR {
    /// The envelope that [`AR::new`] makes in the arithmetic `f`.
    pub open spec fn made(f: Arithmetic, atk: Sample, rel: Sample, gate: Input) -> AR {
        AR {
            state: State::Silence,
            position: Sample(ZERO),
            gate: Gate::with(gate),
            atk_inc: rate_over(f, Sample(ONE), atk),
            rel_inc: rate_over(f, Sample(ONE), rel),
        }
    }

    /// A silent envelope. `atk` and `rel` are times in seconds, each taken
    /// as at least 0.00001.
    pub fn new<G: Into<Input>, K: Fn(Op) -> Sample>(atk: Sample, rel: Sample, gate: G, k: &K) -> (e:
        AR)
        requires
            total(k),
        ensures
            e.state == State::Silence,
            e.position == Sample(ZERO),
            G::obeys_into_spec() ==> e.gate == Gate::with(input_of(gate)),
            G::obeys_into_spec() && functional(k) ==> e == Self::made(
                graph(k),
                atk,
                rel,
                input_of(gate),
            ),
    {
        Self::over(atk, rel, gate.into(), k)
    }

    /// A silent envelope over the signal `gate`; see [`AR::new`].
    pub fn over<K: Fn(Op) -> Sample>(atk: Sample, rel: Sample, gate: Input, k: &K) -> (e: AR)
        requires
            total(k),
        ensures
            e.state == State::Silence,
            e.position == Sample(ZERO),
            e.gate == Gate::with(gate),
            functional(k) ==> e == Self::made(graph(k), atk, rel, gate),
    {
        AR {
            state: State::Silence,
            position: Sample(ZERO),
            gate: Gate::new(gate),
            atk_inc: rate(Sample(ONE), atk, k),
            rel_inc: rate(Sample(ONE), rel, k),
        }
    }

    /// The envelope one sample on, in the arithmetic `f`: `gate` is what the
    /// gate has just read, `inc` the seconds that one sample takes.
    ///
    /// Silence waits for a rising edge and then starts the attack at 0. The
    /// attack rises to 1 and turns into release, which falls to 0. A rising
    /// edge during release starts a new attack from the level reached.
    pub open spec fn updated(self, f: Arithmetic, gate: GateState, inc: Sample) -> AR {
        let rising = gate == GateState::RisingEdge;
        match self.state {
            State::Silence => if rising {
                AR { state: State::Attack, position: Sample(ZERO), ..self }
            } else {
                self
            },
            State::Attack => {
                let p = raised(f, self.position, self.atk_inc, inc);
                if p.greater_eq(Sample(ONE)) {
                    AR { state: State::Release, position: Sample(ONE), ..self }
                } else {
                    AR { state: State::Attack, position: p, ..self }
                }
            },
            State::Release => {
                let p = lowered(f, self.position, self.rel_inc, inc);
                let position = if p.less_eq(Sample(ZERO)) {
                    Sample(ZERO)
                } else {
                    p
                };
                if rising {
                    AR { state: State::Attack, position, ..self }
                } else if p.less_eq(Sample(ZERO)) {
                    AR { state: State::Silence, position, ..self }
                } else {
                    AR { state: State::Release, position, ..self }
                }
            },
            _ => AR { state: State::Silence, ..self },
        }
    }

    /// Moves the contour one sample on.
    pub fn update<K: Fn(Op) -> Sample>(&mut self, gate: GateState, inc: Sample, k: &K)
        requires
            total(k),
        ensures
            final(self).gate == old(self).gate,
            functional(k) ==> *final(self) == old(self).updated(graph(k), gate, inc),
            old(self).state != State::Attack && old(self).state != State::Release ==> *final(self)
                == old(self).updated(graph(k), gate, inc),
    {
        self.state = match self.state {
            State::Silence => if gate.is_rising_edge() {
                self.position = Sample(ZERO);
                State::Attack
            } else {
                State::Silence
            },
            State::Attack => {
                self.position = raise(self.position, self.atk_inc, inc, k);
                if self.position.ge(Sample(ONE)) {
                    self.position = Sample(ONE);
                    State::Release
                } else {
                    State::Attack
                }
            },
            State::Release => {
                self.position = lower(self.position, self.rel_inc, inc, k);
                if self.position.le(Sample(ZERO)) {
                    self.position = Sample(ZERO);

                    if gate.is_rising_edge() {
                        State::Attack
                    } else {
                        State::Silence
                    }
                } else {
                    if gate.is_rising_edge() {
                        State::Attack
                    } else {
                        State::Release
                    }
                }
            },
            _ => State::Silence,
        }
    }

    /// The envelope after one call of [`AR::advance`] against `r`.
    pub open spec fn advanced(self, f: Arithmetic, r: Reading) -> AR {
        let gate = self.gate.updated(r);
        (AR { gate, ..self }).updated(f, gate.state, r.dt)
    }

    /// Returns the level, then updates its gate and moves the contour one
    /// sample on.
    pub fn advance<K: Fn(Op) -> Sample>(&mut self, input_ctx: InputContext, k: &K) -> (sample:
        Sample)
        requires
            total(k),
            old(self).gate.input.resolves(input_ctx@),
        ensures
            sample == old(self).position,
            final(self).gate == old(self).gate.updated(input_ctx@),
            functional(k) ==> *final(self) == old(self).advanced(graph(k), input_ctx@),
    {
        let sample = self.position;
        let gate = self.gate.update(input_ctx);
        self.update(gate, input_ctx.eval_ctx.sample_dt, k);
        sample
    }
}

/// The level of an ADSR keeps to its range on the side that the envelope
/// itself holds, in every arithmetic and on a rising edge too: out of the
/// attack it is at 1 or below, out of decay at the sustain level or above,
/// out of release at 0 or above. The one exception is a level that the
/// arithmetic has made a NaN.
pub proof fn lemma_adsr_bounds(e: ADSR, f: Arithmetic, gate: GateState, dt: Sample)
    requires
        !e.sus_lvl.is_nan(),
    ensures
        e.state == State::Attack ==> e.updated(f, gate, dt).position.less_eq(Sample(ONE))
            || e.updated(f, gate, dt).position.is_nan(),
        e.state == State::Decay ==> e.updated(f, gate, dt).position.greater_eq(e.sus_lvl)
            || e.updated(f, gate, dt).position.is_nan(),
        e.state == State::Release ==> e.updated(f, gate, dt).position.greater_eq(Sample(ZERO))
            || e.updated(f, gate, dt).position.is_nan(),
{
}

/// The level of an AR keeps to its range on the side that the envelope
/// itself holds, in every arithmetic and on a rising edge too: out of the
/// attack it is at 1 or below, out of release at 0 or above. The one
/// exception is a level that the arithmetic has made a NaN.
pub proof fn lemma_ar_bounds(e: AR, f: Arithmetic, gate: GateState, inc: Sample)
    ensures
        e.state == State::Attack ==> e.updated(f, gate, inc).position.less_eq(Sample(ONE))
            || e.updated(f, gate, inc).position.is_nan(),
        e.state == State::Release ==> e.updated(f, gate, inc).position.greater_eq(Sample(ZERO))
            || e.updated(f, gate, inc).position.is_nan(),
{
}

} // verus!
