use voi_synth::buffer::Buffer;
use voi_synth::context::EvaluationContext;
use voi_synth::kernel::Op;
use voi_synth::node::{Input, Node, NodeContainer, NodeID};
use voi_synth::parameter::{ParameterID, SampleMode};
use voi_synth::sample::Sample;
use voi_synth::synth::{StoreID, Synth, SynthCounter, SynthID};

fn arithmetic(op: Op) -> Sample {
    let v = |s: Sample| f32::from_bits(s.0);
    let r = match op {
        Op::Add(a, b) => v(a) + v(b),
        Op::Sub(a, b) => v(a) - v(b),
        Op::Mul(a, b) => v(a) * v(b),
        Op::Div(a, b) => v(a) / v(b),
        Op::Rem(a, b) => v(a) % v(b),
        Op::Pow(a, b) => v(a).powf(v(b)),
        Op::Max(a, b) => v(a).max(v(b)),
        Op::Min(a, b) => v(a).min(v(b)),
        Op::Sin(a) => v(a).sin(),
        Op::Exp(a) => v(a).exp(),
        Op::Floor(a) => v(a).floor(),
    };
    Sample(r.to_bits())
}

fn s(x: f32) -> Sample {
    Sample(x.to_bits())
}

fn f(x: Sample) -> f32 {
    f32::from_bits(x.0)
}

fn context(rate: f32, slots: usize) -> EvaluationContext {
    let mut ctx = EvaluationContext::new(s(rate), &arithmetic);
    ctx.sample_arena = vec![s(0.0); slots];
    ctx
}

/// Evaluates one sample, after the check that the library asks for.
fn sample(synth: &mut Synth, ctx: &mut EvaluationContext) -> f32 {
    assert!(synth.is_playable(ctx));
    assert!(ctx.sample_arena.len() >= synth.instructions.len());
    f(synth.evaluate_sample(ctx, &arithmetic))
}

#[test]
fn empty_synth_puts_out_zero() {
    let mut synth = Synth::new(SynthID(0));
    let mut ctx = context(44100.0, 0);
    let out = synth.evaluate_sample(&mut ctx, &arithmetic);
    assert_eq!(out.0, 0);
    synth.set_output(NodeID(0));
    ctx.sample_arena = vec![s(9.0); 4];
    let out = synth.evaluate_sample(&mut ctx, &arithmetic);
    assert_eq!(out.0, 0);
}

#[test]
fn counter_issues_rising_ids() {
    let mut counter = SynthCounter::new();
    assert_eq!(counter.issue(), Some(SynthID(0)));
    assert_eq!(counter.issue(), Some(SynthID(1)));
    assert_eq!(counter.issue(), Some(SynthID(2)));
    let mut last = SynthCounter { next: u32::MAX - 1 };
    assert_eq!(last.issue(), Some(SynthID(u32::MAX - 1)));
    assert_eq!(last.issue(), None);
    assert_eq!(last.issue(), None);
}

#[test]
fn builders_return_the_place_in_the_list() {
    let mut synth = Synth::new(SynthID(3));
    let a = synth.new_sine(s(440.0));
    let b = synth.new_add(a, s(1.0));
    let c = synth.new_multiply(a, b);
    assert_eq!((a.0, b.0, c.0), (0, 1, 2));
    assert_eq!(synth.instructions.len(), 3);
    match synth.instructions[1] {
        Node::Add(Input::Node(NodeID(0)), Input::Literal(x)) => assert_eq!(f(x), 1.0),
        ref other => panic!("unexpected node {:?}", other),
    }
    let store = synth.new_value_store();
    let store2 = synth.new_value_store();
    assert_eq!((store.0, store2.0), (0, 1));
    let p = synth.new_parameter();
    let p2 = synth.new_parameter();
    assert_eq!(p, ParameterID { owner: SynthID(3), id: 0 });
    assert_eq!(p2, ParameterID { owner: SynthID(3), id: 1 });
}

#[test]
fn output_is_the_last_instruction_unless_set() {
    let mut synth = Synth::new(SynthID(0));
    let first = synth.new_add(s(1.0), s(2.0));
    synth.new_add(s(10.0), s(20.0));
    let mut ctx = context(100.0, 2);
    assert_eq!(sample(&mut synth, &mut ctx), 30.0);
    synth.set_output(first);
    assert_eq!(sample(&mut synth, &mut ctx), 3.0);
}

#[test]
fn arithmetic_nodes() {
    let mut synth = Synth::new(SynthID(0));
    let a = synth.new_add(s(1.5), s(2.0));
    let b = synth.new_sub(a, s(0.5));
    let c = synth.new_multiply(b, b);
    let d = synth.new_divide(c, s(4.0));
    let e = synth.new_power(d, s(2.0));
    let mut ctx = context(100.0, 5);
    assert_eq!(sample(&mut synth, &mut ctx), ((3.5f32 - 0.5) * 3.0 / 4.0).powf(2.0));
    let arena: Vec<f32> = ctx.sample_arena.iter().map(|x| f(*x)).collect();
    assert_eq!(arena, vec![3.5, 3.0, 9.0, 2.25, 2.25f32.powf(2.0)]);
    assert_eq!(e.0, 4);
}

#[test]
fn division_by_zero_flows_through() {
    let mut synth = Synth::new(SynthID(0));
    let inf = synth.new_divide(s(1.0), s(0.0));
    let nan = synth.new_divide(s(0.0), s(0.0));
    synth.new_add(inf, nan);
    let mut ctx = context(100.0, 3);
    assert!(sample(&mut synth, &mut ctx).is_nan());
    assert_eq!(f(ctx.sample_arena[0]), f32::INFINITY);
    assert!(f(ctx.sample_arena[1]).is_nan());
}

#[test]
fn clamp_remap_and_mix() {
    let mut synth = Synth::new(SynthID(0));
    synth.new_clamp(s(5.0), s(-1.0), s(1.0));
    synth.new_clamp(s(-5.0), s(-1.0), s(1.0));
    synth.new_clamp(s(0.25), s(-1.0), s(1.0));
    synth.new_remap(s(0.5), s(0.0), s(1.0), s(0.0), s(880.0));
    synth.new_signal_to_control(s(-1.0));
    synth.new_signal_to_control(s(0.5));
    synth.new_control_to_signal(s(0.25));
    synth.new_mix(s(2.0), s(4.0), s(0.25));
    synth.new_remap(s(0.5), s(1.0), s(1.0), s(0.0), s(1.0));
    let mut ctx = context(100.0, 9);
    sample(&mut synth, &mut ctx);
    let arena: Vec<f32> = ctx.sample_arena.iter().map(|x| f(*x)).collect();
    assert_eq!(&arena[0..8], &[1.0, -1.0, 0.25, 440.0, 0.0, 0.75, -0.5, 2.5]);
    // a source range of width zero divides by zero
    assert!(arena[8].is_infinite());
}

#[test]
fn saw_square_and_triangle_follow_the_phase() {
    let mut synth = Synth::new(SynthID(0));
    synth.new_saw(s(10.0));
    synth.new_square(s(10.0));
    synth.new_triangle(s(10.0));
    let mut ctx = context(100.0, 3);
    let mut phase = 0.0f32;
    for _ in 0..25 {
        sample(&mut synth, &mut ctx);
        phase += 1.0 * 10.0f32 / 100.0f32;
        phase %= 1.0;
        assert_eq!(f(ctx.sample_arena[0]), phase * 2.0 - 1.0);
        assert_eq!(f(ctx.sample_arena[1]), 1.0 - (phase + 0.5).floor() * 2.0);
        let triangle = if phase <= 0.5 { (phase - 0.25) * 4.0 } else { (0.75 - phase) * 4.0 };
        assert_eq!(f(ctx.sample_arena[2]), triangle);
    }
}

#[test]
fn sine_follows_the_phase() {
    let mut synth = Synth::new(SynthID(0));
    synth.new_sine(s(441.0));
    let mut ctx = context(44100.0, 1);
    let period = 2.0 * std::f32::consts::PI;
    let mut phase = 0.0f32;
    for _ in 0..300 {
        let out = sample(&mut synth, &mut ctx);
        phase += period * 441.0f32 / 44100.0f32;
        phase %= period;
        assert_eq!(out, phase.sin());
    }
}

#[test]
fn sine_phase_is_back_at_its_start_after_a_whole_period() {
    // frequency 1 at 4 samples per second: a period is 4 samples
    let mut synth = Synth::new(SynthID(0));
    synth.new_sine(s(1.0));
    let mut ctx = context(4.0, 1);
    for _ in 0..4 {
        sample(&mut synth, &mut ctx);
    }
    match synth.instructions[0] {
        Node::Sine(phase) => assert_eq!(f(phase.phase), 0.0),
        ref other => panic!("unexpected node {:?}", other),
    }
}

#[test]
fn lowpass_moves_towards_its_input() {
    let mut synth = Synth::new(SynthID(0));
    synth.new_lowpass(s(1.0), s(10.0));
    let mut ctx = context(100.0, 1);
    let dt = 1.0f32 / 100.0;
    let a = dt / (dt + 1.0 / (2.0 * std::f32::consts::PI * 10.0f32));
    let mut state = 0.0f32;
    for _ in 0..10 {
        state = state + (1.0 - state) * a;
        assert_eq!(sample(&mut synth, &mut ctx), state);
    }
}

#[test]
fn lowpass_with_a_cutoff_not_above_zero_is_silent() {
    for cutoff in [0.0f32, -0.0, -10.0, f32::NEG_INFINITY, f32::NAN] {
        let mut synth = Synth::new(SynthID(0));
        synth.new_lowpass(s(123.0), s(cutoff));
        match &mut synth.instructions[0] {
            Node::LowPass { prev_result, .. } => *prev_result = s(0.5),
            other => panic!("unexpected node {:?}", other),
        }
        let mut ctx = context(100.0, 1);
        for _ in 0..3 {
            let out = synth.evaluate_sample(&mut ctx, &arithmetic);
            assert_eq!(out.0, 0);
        }
        match synth.instructions[0] {
            Node::LowPass { prev_result, .. } => assert_eq!(prev_result.0, 0),
            ref other => panic!("unexpected node {:?}", other),
        }
    }
}

#[test]
fn highpass_differences() {
    let mut synth = Synth::new(SynthID(0));
    synth.new_highpass(s(1.0), s(10.0));
    let mut ctx = context(100.0, 1);
    let dt = 1.0f32 / 100.0;
    let rc = 1.0 / (2.0 * std::f32::consts::PI * 10.0f32);
    let a = rc / (rc + dt);
    let mut prev_diff = 0.0f32;
    for _ in 0..10 {
        let result = a * (prev_diff + 1.0);
        prev_diff = result - 1.0;
        assert_eq!(sample(&mut synth, &mut ctx), result);
    }
}

#[test]
fn store_write_is_seen_in_the_same_pass() {
    let mut synth = Synth::new(SynthID(0));
    let store = synth.new_value_store();
    let write = synth.new_store_write(store, s(3.5));
    let read = synth.new_add(store, s(0.0));
    let mut ctx = context(100.0, 2);
    assert_eq!(sample(&mut synth, &mut ctx), 3.5);
    assert_eq!(f(ctx.sample_arena[write.0 as usize]), 3.5);
    assert_eq!(f(ctx.sample_arena[read.0 as usize]), 3.5);
    assert_eq!(f(synth.value_store[0]), 3.5);
}

#[test]
fn store_write_is_seen_by_an_earlier_node_in_the_next_sample() {
    let mut synth = Synth::new(SynthID(0));
    let store = synth.new_value_store();
    let read = synth.new_add(store, s(0.0));
    let grow = synth.new_add(read, s(1.0));
    synth.new_store_write(store, grow);
    synth.set_output(read);
    let mut ctx = context(100.0, 3);
    assert_eq!(sample(&mut synth, &mut ctx), 0.0);
    assert_eq!(sample(&mut synth, &mut ctx), 1.0);
    assert_eq!(sample(&mut synth, &mut ctx), 2.0);
    assert_eq!(f(synth.value_store[0]), 3.0);
}

#[test]
fn registers_keep_their_value_from_buffer_to_buffer() {
    let mut synth = Synth::new(SynthID(0));
    let store = synth.new_value_store();
    let next = synth.new_add(store, s(1.0));
    synth.new_store_write(store, next);
    let mut ctx = context(100.0, 0);
    let mut buffer = Buffer::new(4);
    assert!(synth.is_playable(&ctx));
    synth.evaluate_into_buffer(&mut buffer, &mut ctx, &arithmetic);
    let heard: Vec<f32> = buffer.data.iter().map(|x| f(*x)).collect();
    assert_eq!(heard, vec![1.0, 2.0, 3.0, 4.0]);
    let mut buffer = Buffer::new(2);
    synth.evaluate_into_buffer(&mut buffer, &mut ctx, &arithmetic);
    let heard: Vec<f32> = buffer.data.iter().map(|x| f(*x)).collect();
    assert_eq!(heard, vec![5.0, 6.0]);
}

#[test]
fn node_that_names_a_later_node_reads_the_sample_before() {
    let mut synth = Synth::new(SynthID(0));
    let stale = synth.new_add(NodeID(1), s(0.0));
    let store = synth.new_value_store();
    let count = synth.new_add(store, s(1.0));
    synth.new_store_write(store, count);
    synth.set_output(stale);
    let mut ctx = context(100.0, 3);
    assert_eq!(sample(&mut synth, &mut ctx), 0.0);
    assert_eq!(sample(&mut synth, &mut ctx), 1.0);
    assert_eq!(sample(&mut synth, &mut ctx), 2.0);
}

#[test]
fn evaluate_into_buffer_adds_the_output_times_the_gain() {
    let mut synth = Synth::new(SynthID(0));
    synth.new_add(s(0.5), s(0.25));
    synth.set_gain(s(0.3));
    let mut ctx = context(100.0, 0);
    let mut buffer = Buffer { data: vec![s(1.0), s(2.0), s(-1.0)] };
    assert!(synth.is_playable(&ctx));
    synth.evaluate_into_buffer(&mut buffer, &mut ctx, &arithmetic);
    let heard: Vec<f32> = buffer.data.iter().map(|x| f(*x)).collect();
    let value = 0.75f32 * 0.3f32;
    assert_eq!(heard, vec![1.0 + value, 2.0 + value, -1.0 + value]);
}

#[test]
fn arena_grows_to_the_instruction_count_and_never_shrinks() {
    let mut long = Synth::new(SynthID(0));
    for _ in 0..5 {
        long.new_add(s(1.0), s(1.0));
    }
    let mut short = Synth::new(SynthID(1));
    short.new_add(s(1.0), s(1.0));
    let mut ctx = context(100.0, 2);
    let mut buffer = Buffer::new(1);
    short.evaluate_into_buffer(&mut buffer, &mut ctx, &arithmetic);
    assert_eq!(ctx.sample_arena.len(), 2);
    long.evaluate_into_buffer(&mut buffer, &mut ctx, &arithmetic);
    assert_eq!(ctx.sample_arena.len(), 5);
    short.prewarm(3, &mut ctx, &arithmetic);
    assert_eq!(ctx.sample_arena.len(), 5);
}

#[test]
fn prewarm_moves_the_state_on() {
    let mut synth = Synth::new(SynthID(0));
    let store = synth.new_value_store();
    let next = synth.new_add(store, s(1.0));
    synth.new_store_write(store, next);
    let mut ctx = context(100.0, 0);
    assert!(synth.is_playable(&ctx));
    synth.prewarm(10, &mut ctx, &arithmetic);
    assert_eq!(f(synth.value_store[0]), 10.0);
    assert_eq!(sample(&mut synth, &mut ctx), 11.0);
}

#[test]
fn sampler_plays_its_buffer_in_a_loop() {
    let mut synth = Synth::new(SynthID(0));
    let buffer = synth.new_buffer(vec![s(1.0), s(2.0), s(3.0), s(4.0)]);
    synth.new_sampler(buffer, s(0.0));
    let mut ctx = context(100.0, 1);
    let heard: Vec<f32> = (0..5).map(|_| sample(&mut synth, &mut ctx)).collect();
    assert_eq!(heard, vec![1.0, 2.0, 3.0, 4.0, 1.0]);
}

#[test]
fn sampler_starts_again_on_a_rising_edge_of_its_reset() {
    let mut synth = Synth::new(SynthID(0));
    let buffer = synth.new_buffer(vec![s(1.0), s(2.0), s(3.0), s(4.0)]);
    let reset = synth.new_parameter();
    synth.new_sampler(buffer, reset);
    let mut ctx = context(100.0, 1);
    let mut heard = Vec::new();
    for gate in [0.0f32, 0.0, 0.0, 1.0, 1.0, 1.0, 0.0] {
        synth.get_parameter(reset).set_value(s(gate));
        heard.push(sample(&mut synth, &mut ctx));
    }
    assert_eq!(heard, vec![1.0, 2.0, 3.0, 1.0, 2.0, 3.0, 4.0]);
}

#[test]
fn sequencer_moves_on_rising_edges_only() {
    let mut synth = Synth::new(SynthID(0));
    let buffer = synth.new_buffer(vec![s(55.0), s(110.0), s(220.0)]);
    let advance = synth.new_parameter();
    let reset = synth.new_parameter();
    synth.new_sequencer(buffer, advance, reset);
    let mut ctx = context(100.0, 1);
    let mut heard = Vec::new();
    for (a, r) in [
        (0.0f32, 0.0f32),
        (1.0, 0.0),
        (1.0, 0.0),
        (0.0, 0.0),
        (1.0, 0.0),
        (0.0, 0.0),
        (0.0, 0.0),
        (1.0, 0.0),
        (0.0, 0.0),
        (0.0, 0.0),
        (1.0, 1.0),
    ] {
        synth.get_parameter(advance).set_value(s(a));
        synth.get_parameter(reset).set_value(s(r));
        heard.push(sample(&mut synth, &mut ctx));
    }
    assert_eq!(
        heard,
        vec![55.0, 110.0, 110.0, 110.0, 220.0, 220.0, 220.0, 55.0, 55.0, 55.0, 55.0]
    );
}

#[test]
fn parameter_sampler_reads_the_parameter() {
    let mut synth = Synth::new(SynthID(0));
    let p = synth.new_parameter();
    synth.new_param_sampler(p, SampleMode::Linear);
    let mut ctx = context(100.0, 1);
    assert_eq!(sample(&mut synth, &mut ctx), 0.0);
    synth.get_parameter(p).set_value(s(440.0));
    assert_eq!(sample(&mut synth, &mut ctx), 440.0);
    assert_eq!(f(synth.get_parameter(p).evaluate()), 440.0);
}

#[test]
fn parameter_as_an_input() {
    let mut synth = Synth::new(SynthID(0));
    let p = synth.new_parameter();
    synth.new_multiply(p, s(2.0));
    assert!(synth.has_parameter(p));
    assert!(!synth.has_parameter(ParameterID { owner: SynthID(1), id: 0 }));
    assert!(!synth.has_parameter(ParameterID { owner: SynthID(0), id: 1 }));
    let mut ctx = context(100.0, 1);
    synth.get_parameter(p).set_value(s(21.0));
    assert_eq!(sample(&mut synth, &mut ctx), 42.0);
}

#[test]
fn envelope_nodes_put_out_their_level() {
    let mut synth = Synth::new(SynthID(0));
    let gate = synth.new_parameter();
    synth.new_env_ar(s(0.1), s(0.2), gate, &arithmetic);
    synth.new_env_adsr(s(0.1), s(0.1), s(0.5), s(0.1), gate, &arithmetic);
    let mut ctx = context(100.0, 2);
    synth.get_parameter(gate).set_value(s(1.0));
    let mut ar = Vec::new();
    let mut adsr = Vec::new();
    for _ in 0..4 {
        sample(&mut synth, &mut ctx);
        ar.push(f(ctx.sample_arena[0]));
        adsr.push(f(ctx.sample_arena[1]));
    }
    let step = 10.0f32 * 0.01f32;
    assert_eq!(ar, vec![0.0, 0.0, step, step + step]);
    assert_eq!(adsr, vec![0.0, 0.0, step, step + step]);
}

#[test]
fn synth_with_a_reference_to_nothing_is_not_playable() {
    let ctx = context(100.0, 0);

    let mut synth = Synth::new(SynthID(0));
    synth.new_add(NodeID(7), s(0.0));
    assert!(!synth.is_playable(&ctx));
    assert!(synth.is_playable(&context(100.0, 8)));

    let mut synth = Synth::new(SynthID(0));
    synth.new_add(StoreID(0), s(0.0));
    assert!(!synth.is_playable(&ctx));
    synth.new_value_store();
    assert!(synth.is_playable(&ctx));

    let mut synth = Synth::new(SynthID(0));
    synth.new_store_write(StoreID(2), s(0.0));
    assert!(!synth.is_playable(&ctx));

    let mut synth = Synth::new(SynthID(0));
    synth.new_add(ParameterID { owner: SynthID(0), id: 0 }, s(0.0));
    assert!(!synth.is_playable(&ctx));

    let mut synth = Synth::new(SynthID(0));
    let empty = synth.new_buffer(Vec::new());
    synth.new_sampler(empty, s(0.0));
    assert!(!synth.is_playable(&ctx));

    let mut synth = Synth::new(SynthID(0));
    synth.new_add(s(0.0), s(0.0));
    synth.set_output(NodeID(5));
    assert!(!synth.is_playable(&ctx));
    assert!(synth.is_playable(&context(100.0, 6)));
}

/// A kernel that answers every operation with the same odd number.
fn stubborn(_op: Op) -> Sample {
    Sample(0x1234_5678)
}

#[test]
fn silence_does_not_hang_on_the_kernel() {
    // an empty synth, and a lowpass with its cutoff at zero, ask nothing of it
    let mut synth = Synth::new(SynthID(0));
    let mut ctx = context(100.0, 1);
    assert_eq!(synth.evaluate_sample(&mut ctx, &stubborn).0, 0);
    synth.new_lowpass(s(5.0), s(0.0));
    assert_eq!(synth.evaluate_sample(&mut ctx, &stubborn).0, 0);
    // any other node puts out what the kernel says
    synth.new_add(s(1.0), s(1.0));
    assert_eq!(synth.evaluate_sample(&mut ctx_of(2), &stubborn).0, 0x1234_5678);
}

fn ctx_of(slots: usize) -> EvaluationContext {
    context(100.0, slots)
}

#[test]
fn what_needs_no_arithmetic_holds_with_any_kernel() {
    let mut synth = Synth::new(SynthID(0));
    let written = synth.new_value_store();
    let kept = synth.new_value_store();
    synth.value_store[kept.0 as usize] = s(-3.0);
    let noise = synth.new_add(s(1.0), kept);
    synth.new_store_write(written, noise);
    // the cutoff is what the register holds that nothing writes
    let shut = synth.new_lowpass(noise, kept);
    synth.set_output(shut);
    let mut ctx = context(100.0, 5);
    ctx.sample_arena[3] = s(7.0);
    ctx.sample_arena[4] = s(8.0);

    assert_eq!(synth.evaluate_sample(&mut ctx, &stubborn).0, 0);
    assert_eq!(ctx.sample_arena[shut.0 as usize].0, 0);
    assert_eq!(f(ctx.sample_arena[3]), 7.0);
    assert_eq!(f(ctx.sample_arena[4]), 8.0);
    assert_eq!(f(synth.value_store[kept.0 as usize]), -3.0);
    assert_eq!(synth.value_store[written.0 as usize].0, 0x1234_5678);

    let mut buffer = Buffer::new(6);
    synth.evaluate_into_buffer(&mut buffer, &mut ctx, &stubborn);
    synth.prewarm(3, &mut ctx, &stubborn);
    assert_eq!(ctx.sample_arena[shut.0 as usize].0, 0);
    assert_eq!(f(ctx.sample_arena[3]), 7.0);
    assert_eq!(f(ctx.sample_arena[4]), 8.0);
    assert_eq!(f(synth.value_store[kept.0 as usize]), -3.0);
    match synth.instructions[shut.0 as usize] {
        Node::LowPass { prev_result, .. } => assert_eq!(prev_result.0, 0),
        ref other => panic!("unexpected node {:?}", other),
    }
}

#[test]
fn lowpass_is_silent_where_its_cutoff_comes_from_a_node() {
    // the cutoff is the output of an earlier node: minus two
    let mut synth = Synth::new(SynthID(0));
    let cutoff = synth.new_sub(s(1.0), s(3.0));
    let tone = synth.new_sine(s(440.0));
    synth.new_lowpass(tone, cutoff);
    let mut ctx = context(44100.0, 3);
    for _ in 0..10 {
        assert_eq!(synth.evaluate_sample(&mut ctx, &arithmetic).0, 0);
    }
}
