use voi_synth::context::EvaluationContext;
use voi_synth::gate::{Gate, GateState};
use voi_synth::kernel::Op;
use voi_synth::node::{Input, InputContext};
use voi_synth::parameter::Parameter;
use voi_synth::sample::Sample;
use voi_synth::synth::StoreID;

fn arithmetic(op: Op) -> Sample {
    let v = |s: Sample| f32::from_bits(s.0);
    let r = match op {
        Op::Add(a, b) => v(a) + v(b),
        Op::Sub(a, b) => v(a) - v(b),
        Op::Mul(a, b) => v(a) * v(b),
        Op::Div(a, b) => v(a) / v(b),
        Op::Rem(a, b) => v(a) % v(b),
        Op::Pow(a, b) => v(a).powf(v(b)),
        Op::Max(a, b) => v(a).max(v(b)),
        Op::Min(a, b) => v(a).min(v(b)),
        Op::Sin(a) => v(a).sin(),
        Op::Exp(a) => v(a).exp(),
        Op::Floor(a) => v(a).floor(),
    };
    Sample(r.to_bits())
}

fn s(x: f32) -> Sample {
    Sample(x.to_bits())
}

/// Feeds the signal through the register 0 and returns the states it gives.
fn states(gate: &mut Gate, signal: &[f32]) -> Vec<GateState> {
    let ctx = EvaluationContext::new(s(100.0), &arithmetic);
    let parameters: Vec<Parameter> = Vec::new();
    let mut out = Vec::new();
    for &x in signal {
        let store = vec![s(x)];
        let input_ctx = InputContext { eval_ctx: &ctx, value_store: &store, parameters: &parameters };
        out.push(gate.update(input_ctx));
    }
    out
}

fn in_state(state: GateState, threshold: f32) -> Gate {
    let mut gate = Gate::with_threshold(Input::Store(StoreID(0)), s(threshold));
    gate.state = state;
    gate
}

#[test]
fn gate_starts_low() {
    let gate = Gate::new(Input::Literal(s(1.0)));
    assert_eq!(gate.state, GateState::Low);
    assert_eq!(gate.threshold.0, 0.05f32.to_bits());
}

#[test]
fn constant_input_below_threshold_stays_low() {
    let mut gate = Gate::new(Input::Store(StoreID(0)));
    let signal = vec![0.01f32; 200];
    for state in states(&mut gate, &signal) {
        assert_eq!(state, GateState::Low);
    }
}

#[test]
fn step_input_visits_the_four_states_in_order() {
    let mut gate = Gate::new(Input::Store(StoreID(0)));
    let seen = states(&mut gate, &[1.0, 1.0, 0.0, 0.0]);
    assert_eq!(
        seen,
        vec![GateState::RisingEdge, GateState::High, GateState::FallingEdge, GateState::Low]
    );
}

#[test]
fn edges_last_one_sample() {
    let mut gate = Gate::new(Input::Store(StoreID(0)));
    let seen = states(&mut gate, &[1.0, 1.0, 1.0, 1.0, 0.0, 0.0, 0.0]);
    assert_eq!(
        seen,
        vec![
            GateState::RisingEdge,
            GateState::High,
            GateState::High,
            GateState::High,
            GateState::FallingEdge,
            GateState::Low,
            GateState::Low,
        ]
    );
}

#[test]
fn single_spike_rises_and_falls() {
    let mut gate = Gate::new(Input::Store(StoreID(0)));
    let seen = states(&mut gate, &[0.0, 1.0, 0.0, 0.0]);
    assert_eq!(
        seen,
        vec![GateState::Low, GateState::RisingEdge, GateState::FallingEdge, GateState::Low]
    );
}

#[test]
fn falling_edge_retriggers_on_a_sample_above() {
    let mut gate = Gate::new(Input::Store(StoreID(0)));
    let seen = states(&mut gate, &[1.0, 1.0, 0.0, 1.0]);
    assert_eq!(seen[3], GateState::RisingEdge);
}

#[test]
fn sample_at_the_threshold() {
    let t = 0.05f32;
    assert_eq!(states(&mut in_state(GateState::Low, t), &[t]), vec![GateState::Low]);
    assert_eq!(states(&mut in_state(GateState::RisingEdge, t), &[t]), vec![GateState::High]);
    assert_eq!(states(&mut in_state(GateState::High, t), &[t]), vec![GateState::High]);
    assert_eq!(states(&mut in_state(GateState::FallingEdge, t), &[t]), vec![GateState::Low]);
}

#[test]
fn nan_keeps_levels_and_swaps_edges() {
    let t = 0.05f32;
    let nan = f32::NAN;
    assert_eq!(states(&mut in_state(GateState::Low, t), &[nan]), vec![GateState::Low]);
    assert_eq!(
        states(&mut in_state(GateState::RisingEdge, t), &[nan]),
        vec![GateState::FallingEdge]
    );
    assert_eq!(states(&mut in_state(GateState::High, t), &[nan]), vec![GateState::High]);
    assert_eq!(
        states(&mut in_state(GateState::FallingEdge, t), &[nan]),
        vec![GateState::RisingEdge]
    );
}

#[test]
fn threshold_of_the_caller() {
    let mut gate = Gate::with_threshold(Input::Store(StoreID(0)), s(0.5));
    let seen = states(&mut gate, &[0.4, 0.6, 0.6, 0.4, 0.4]);
    assert_eq!(
        seen,
        vec![
            GateState::Low,
            GateState::RisingEdge,
            GateState::High,
            GateState::FallingEdge,
            GateState::Low,
        ]
    );
}

#[test]
fn update_keeps_the_sample_it_read() {
    let mut gate = Gate::new(Input::Store(StoreID(0)));
    states(&mut gate, &[0.25]);
    assert_eq!(gate.last.0, 0.25f32.to_bits());
}

#[test]
fn predicates_name_the_transitional_states_strictly() {
    assert!(GateState::RisingEdge.is_rising_edge());
    assert!(!GateState::High.is_rising_edge());
    assert!(!GateState::Low.is_rising_edge());
    assert!(!GateState::FallingEdge.is_rising_edge());

    assert!(GateState::FallingEdge.is_falling_edge());
    assert!(!GateState::Low.is_falling_edge());
    assert!(!GateState::High.is_falling_edge());
    assert!(!GateState::RisingEdge.is_falling_edge());

    assert!(GateState::RisingEdge.is_highish());
    assert!(GateState::High.is_highish());
    assert!(!GateState::Low.is_highish());
    assert!(!GateState::FallingEdge.is_highish());

    assert!(GateState::FallingEdge.is_lowish());
    assert!(GateState::Low.is_lowish());
    assert!(!GateState::High.is_lowish());
    assert!(!GateState::RisingEdge.is_lowish());
}
