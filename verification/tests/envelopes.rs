use voi_synth::context::EvaluationContext;
use voi_synth::envelope::{State, ADSR, AR};
use voi_synth::gate::GateState;
use voi_synth::kernel::Op;
use voi_synth::node::{Input, InputContext};
use voi_synth::parameter::Parameter;
use voi_synth::sample::Sample;
use voi_synth::synth::StoreID;

fn arithmetic(op: Op) -> Sample {
    let v = |s: Sample| f32::from_bits(s.0);
    let r = match op {
        Op::Add(a, b) => v(a) + v(b),
        Op::Sub(a, b) => v(a) - v(b),
        Op::Mul(a, b) => v(a) * v(b),
        Op::Div(a, b) => v(a) / v(b),
        Op::Rem(a, b) => v(a) % v(b),
        Op::Pow(a, b) => v(a).powf(v(b)),
        Op::Max(a, b) => v(a).max(v(b)),
        Op::Min(a, b) => v(a).min(v(b)),
        Op::Sin(a) => v(a).sin(),
        Op::Exp(a) => v(a).exp(),
        Op::Floor(a) => v(a).floor(),
    };
    Sample(r.to_bits())
}

fn s(x: f32) -> Sample {
    Sample(x.to_bits())
}

fn f(x: Sample) -> f32 {
    f32::from_bits(x.0)
}

fn advance_ar(env: &mut AR, ctx: &EvaluationContext, gate: f32) -> f32 {
    let store = vec![s(gate)];
    let parameters: Vec<Parameter> = Vec::new();
    f(env.advance(
        InputContext { eval_ctx: ctx, value_store: &store, parameters: &parameters },
        &arithmetic,
    ))
}

fn advance_adsr(env: &mut ADSR, ctx: &EvaluationContext, gate: f32) -> f32 {
    let store = vec![s(gate)];
    let parameters: Vec<Parameter> = Vec::new();
    f(env.advance(
        InputContext { eval_ctx: ctx, value_store: &store, parameters: &parameters },
        &arithmetic,
    ))
}

#[test]
fn ar_increments_are_one_over_the_times() {
    let env = AR::new(s(0.1), s(0.2), Input::Store(StoreID(0)), &arithmetic);
    assert_eq!(f(env.atk_inc), 1.0 / 0.1f32);
    assert_eq!(f(env.rel_inc), 1.0 / 0.2f32);
    assert_eq!(env.state, State::Silence);
    assert_eq!(f(env.position), 0.0);
}

#[test]
fn times_are_floored_at_a_small_epsilon() {
    let env = AR::new(s(0.0), s(-3.0), Input::Store(StoreID(0)), &arithmetic);
    assert_eq!(f(env.atk_inc), 1.0 / 0.00001f32);
    assert_eq!(f(env.rel_inc), 1.0 / 0.00001f32);
    assert!(f(env.atk_inc).is_finite());
}

#[test]
fn ar_rises_in_ten_samples_and_falls_in_twenty() {
    let ctx = EvaluationContext::new(s(100.0), &arithmetic);
    assert_eq!(f(ctx.sample_dt), 0.01);
    let mut env = AR::new(s(0.1), s(0.2), Input::Store(StoreID(0)), &arithmetic);

    // the rising edge starts the attack at 0
    advance_ar(&mut env, &ctx, 1.0);
    assert_eq!(env.state, State::Attack);
    assert_eq!(f(env.position), 0.0);

    for _ in 0..9 {
        advance_ar(&mut env, &ctx, 1.0);
        assert_eq!(env.state, State::Attack);
        assert!(f(env.position) < 1.0);
    }
    advance_ar(&mut env, &ctx, 1.0);
    assert_eq!(env.state, State::Release);
    assert_eq!(f(env.position), 1.0);

    for _ in 0..19 {
        advance_ar(&mut env, &ctx, 1.0);
        assert_eq!(env.state, State::Release);
        assert!(f(env.position) > 0.0);
    }
    advance_ar(&mut env, &ctx, 1.0);
    assert_eq!(env.state, State::Silence);
    assert_eq!(f(env.position), 0.0);
}

#[test]
fn advance_returns_the_level_before_the_step() {
    let ctx = EvaluationContext::new(s(100.0), &arithmetic);
    let mut env = AR::new(s(0.1), s(0.2), Input::Store(StoreID(0)), &arithmetic);
    assert_eq!(advance_ar(&mut env, &ctx, 1.0), 0.0);
    assert_eq!(advance_ar(&mut env, &ctx, 1.0), 0.0);
    let second = advance_ar(&mut env, &ctx, 1.0);
    assert_eq!(second, 0.0 + 10.0f32 * 0.01f32);
}

#[test]
fn ar_stays_silent_without_a_rising_edge() {
    let ctx = EvaluationContext::new(s(100.0), &arithmetic);
    let mut env = AR::new(s(0.1), s(0.2), Input::Store(StoreID(0)), &arithmetic);
    for _ in 0..50 {
        assert_eq!(advance_ar(&mut env, &ctx, 0.0), 0.0);
        assert_eq!(env.state, State::Silence);
    }
}

#[test]
fn ar_retriggers_during_release() {
    let ctx = EvaluationContext::new(s(100.0), &arithmetic);
    let mut env = AR::new(s(0.1), s(0.2), Input::Store(StoreID(0)), &arithmetic);
    for _ in 0..11 {
        advance_ar(&mut env, &ctx, 1.0);
    }
    assert_eq!(env.state, State::Release);
    advance_ar(&mut env, &ctx, 0.0); // falling edge
    advance_ar(&mut env, &ctx, 0.0); // low
    assert_eq!(env.state, State::Release);
    let before = f(env.position);
    advance_ar(&mut env, &ctx, 1.0); // rising edge
    assert_eq!(env.gate.state, GateState::RisingEdge);
    assert_eq!(env.state, State::Attack);
    assert_eq!(f(env.position), before - 5.0f32 * 0.01f32);
}

#[test]
fn ar_leaves_a_stage_of_the_other_envelope_for_silence() {
    let mut env = AR::new(s(0.1), s(0.2), Input::Store(StoreID(0)), &arithmetic);
    env.state = State::Sustain;
    env.update(GateState::High, s(0.01), &arithmetic);
    assert_eq!(env.state, State::Silence);
    env.state = State::Decay;
    env.update(GateState::RisingEdge, s(0.01), &arithmetic);
    assert_eq!(env.state, State::Silence);
}

#[test]
fn adsr_increments() {
    let env = ADSR::new(s(0.01), s(0.1), s(0.8), s(1.0), Input::Store(StoreID(0)), &arithmetic);
    assert_eq!(f(env.sus_lvl), 0.8);
    assert_eq!(f(env.atk_inc), 1.0 / 0.01f32);
    assert_eq!(f(env.dec_inc), (1.0 - 0.8f32) / 0.1f32);
    assert_eq!(f(env.rel_inc), 0.8f32 / 1.0f32);
}

#[test]
fn adsr_clamps_the_sustain_level() {
    let high = ADSR::new(s(0.1), s(0.1), s(3.0), s(0.1), Input::Store(StoreID(0)), &arithmetic);
    assert_eq!(f(high.sus_lvl), 1.0);
    assert_eq!(f(high.dec_inc), 0.0);
    let low = ADSR::new(s(0.1), s(0.1), s(-3.0), s(0.1), Input::Store(StoreID(0)), &arithmetic);
    assert_eq!(f(low.sus_lvl), 0.0);
    assert_eq!(f(low.rel_inc), 0.0);
}

#[test]
fn adsr_walks_through_its_stages() {
    let ctx = EvaluationContext::new(s(100.0), &arithmetic);
    let mut env =
        ADSR::new(s(0.02), s(0.04), s(0.5), s(0.05), Input::Store(StoreID(0)), &arithmetic);

    advance_adsr(&mut env, &ctx, 1.0);
    assert_eq!(env.state, State::Attack);
    assert_eq!(f(env.position), 0.0);

    let mut guard = 0;
    while env.state == State::Attack {
        advance_adsr(&mut env, &ctx, 1.0);
        guard += 1;
        assert!(guard < 100);
    }
    assert_eq!(env.state, State::Decay);
    assert_eq!(f(env.position), 1.0);

    while env.state == State::Decay {
        advance_adsr(&mut env, &ctx, 1.0);
        guard += 1;
        assert!(guard < 100);
    }
    assert_eq!(env.state, State::Sustain);
    assert_eq!(f(env.position), 0.5);

    for _ in 0..10 {
        advance_adsr(&mut env, &ctx, 1.0);
        assert_eq!(env.state, State::Sustain);
        assert_eq!(f(env.position), 0.5);
    }

    advance_adsr(&mut env, &ctx, 0.0);
    assert_eq!(env.state, State::Release);

    while env.state == State::Release {
        advance_adsr(&mut env, &ctx, 0.0);
        guard += 1;
        assert!(guard < 100);
    }
    assert_eq!(env.state, State::Silence);
    assert_eq!(f(env.position), 0.0);
}

#[test]
fn adsr_retriggers_from_decay_and_sustain() {
    let mut env =
        ADSR::new(s(0.02), s(0.04), s(0.5), s(0.05), Input::Store(StoreID(0)), &arithmetic);
    env.state = State::Decay;
    env.position = s(0.9);
    env.update(GateState::RisingEdge, s(0.01), &arithmetic);
    assert_eq!(env.state, State::Attack);

    env.state = State::Sustain;
    env.position = s(0.5);
    env.update(GateState::RisingEdge, s(0.01), &arithmetic);
    assert_eq!(env.state, State::Attack);
    assert_eq!(f(env.position), 0.5);
}

#[test]
fn adsr_decay_is_not_cut_short_by_a_falling_edge() {
    let mut env =
        ADSR::new(s(0.02), s(0.04), s(0.5), s(0.05), Input::Store(StoreID(0)), &arithmetic);
    env.state = State::Decay;
    env.position = s(0.9);
    env.update(GateState::FallingEdge, s(0.01), &arithmetic);
    assert_eq!(env.state, State::Decay);
    let dec_inc = (1.0 - 0.5f32) / 0.04f32;
    assert_eq!(f(env.position), 0.9f32 - dec_inc * 0.01f32);
}

#[test]
fn adsr_sustain_turns_to_release_when_the_gate_is_low() {
    let mut env =
        ADSR::new(s(0.02), s(0.04), s(0.5), s(0.05), Input::Store(StoreID(0)), &arithmetic);
    env.state = State::Sustain;
    env.position = s(0.5);
    env.update(GateState::High, s(0.01), &arithmetic);
    assert_eq!(env.state, State::Sustain);
    env.update(GateState::Low, s(0.01), &arithmetic);
    assert_eq!(env.state, State::Release);
    assert_eq!(f(env.position), 0.5);
}

#[test]
fn adsr_retrigger_in_release_starts_at_zero_or_above() {
    // two samples per second: the attack takes one step, the release two
    let ctx = EvaluationContext::new(s(2.0), &arithmetic);
    let mut env =
        ADSR::new(s(0.5), s(0.5), s(0.75), s(0.75), Input::Store(StoreID(0)), &arithmetic);
    let mut heard = Vec::new();
    for gate in [1.0f32, 1.0, 1.0, 0.0, 0.0, 1.0, 1.0] {
        heard.push(advance_adsr(&mut env, &ctx, gate));
    }
    assert_eq!(heard, vec![0.0, 0.0, 1.0, 0.75, 0.75, 0.25, 0.0]);
    assert_eq!(env.state, State::Decay);
    assert_eq!(f(env.position), 1.0);
}

#[test]
fn adsr_retrigger_in_decay_starts_at_the_sustain_level_or_above() {
    let mut env =
        ADSR::new(s(0.5), s(0.5), s(0.75), s(0.75), Input::Store(StoreID(0)), &arithmetic);
    env.state = State::Decay;
    env.position = s(0.8);
    env.update(GateState::RisingEdge, s(0.5), &arithmetic);
    assert_eq!(env.state, State::Attack);
    assert_eq!(f(env.position), 0.75);

    env.state = State::Decay;
    env.position = s(1.0);
    env.update(GateState::RisingEdge, s(0.25), &arithmetic);
    assert_eq!(env.state, State::Attack);
    assert_eq!(f(env.position), 1.0 - 0.5f32 * 0.25f32);
}

#[test]
fn adsr_level_stays_within_zero_and_one() {
    let ctx = EvaluationContext::new(s(7.0), &arithmetic);
    let mut env =
        ADSR::new(s(0.3), s(0.4), s(0.6), s(0.5), Input::Store(StoreID(0)), &arithmetic);
    // a gate that goes up and down at every length from one sample to six
    let mut gate = Vec::new();
    for run in 1..7 {
        for level in [1.0f32, 0.0, 1.0, 0.0] {
            for _ in 0..run {
                gate.push(level);
            }
        }
    }
    for level in gate {
        let out = advance_adsr(&mut env, &ctx, level);
        assert!(0.0 <= out && out <= 1.0, "{}", out);
    }
}
