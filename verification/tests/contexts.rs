use voi_synth::buffer::{Buffer, BufferID, BufferUsageType};
use voi_synth::context::{EvaluationContext, SharedContext, SynthEvent};
use voi_synth::kernel::Op;
use voi_synth::node::{NodeContainer, NodeID};
use voi_synth::parameter::ParameterID;
use voi_synth::sample::Sample;
use voi_synth::synth::{Synth, SynthID};

fn arithmetic(op: Op) -> Sample {
    let v = |s: Sample| f32::from_bits(s.0);
    let r = match op {
        Op::Add(a, b) => v(a) + v(b),
        Op::Sub(a, b) => v(a) - v(b),
        Op::Mul(a, b) => v(a) * v(b),
        Op::Div(a, b) => v(a) / v(b),
        Op::Rem(a, b) => v(a) % v(b),
        Op::Pow(a, b) => v(a).powf(v(b)),
        Op::Max(a, b) => v(a).max(v(b)),
        Op::Min(a, b) => v(a).min(v(b)),
        Op::Sin(a) => v(a).sin(),
        Op::Exp(a) => v(a).exp(),
        Op::Floor(a) => v(a).floor(),
    };
    Sample(r.to_bits())
}

fn s(x: f32) -> Sample {
    Sample(x.to_bits())
}

fn f(x: Sample) -> f32 {
    f32::from_bits(x.0)
}

fn floats(b: &Buffer) -> Vec<f32> {
    b.data.iter().map(|x| f(*x)).collect()
}

/// A synth that puts out `level` on every sample.
fn constant(id: u32, level: f32) -> Synth {
    let mut synth = Synth::new(SynthID(id));
    synth.new_add(s(level), s(0.0));
    synth
}

/// The master bus as the formulas give it.
struct Bus {
    dc: f32,
    envelope: f32,
}

impl Bus {
    fn step(&mut self, input: f32, rate: f32) -> f32 {
        let attack = 1.0 - (-1.0 / ((5.0f32 / 1000.0) * rate)).exp();
        let release = 1.0 - (-1.0 / ((200.0f32 / 1000.0) * rate)).exp();
        let mut sample = input;
        self.dc = self.dc + (sample - self.dc) * (0.5 / rate);
        sample -= self.dc;
        let abs = sample.abs();
        if abs > self.envelope {
            self.envelope = self.envelope + (abs - self.envelope) * attack;
        } else {
            self.envelope = self.envelope + (abs - self.envelope) * release;
        }
        self.envelope = self.envelope.max(1.0);
        (sample * 0.6 / self.envelope).max(-1.0).min(1.0)
    }
}

#[test]
fn evaluation_context_holds_rate_and_period() {
    let ctx = EvaluationContext::new(s(44100.0), &arithmetic);
    assert_eq!(f(ctx.sample_rate), 44100.0);
    assert_eq!(f(ctx.sample_dt), 1.0 / 44100.0f32);
    assert!(ctx.sample_arena.is_empty());
    assert!(ctx.shared_buffers.is_empty());
}

#[test]
fn new_shared_context() {
    let shared = SharedContext::new(&arithmetic);
    assert!(shared.synths.is_empty());
    assert_eq!(f(shared.envelope), 1000.0);
    assert_eq!(f(shared.signal_dc), 0.0);
    assert_eq!(f(shared.average_fill_time), 0.0);
    assert_eq!(f(shared.get_sample_rate()), 22050.0);
    assert_eq!(f(shared.evaluation_ctx.sample_dt), 1.0 / 22050.0f32);
    assert!(shared.is_ready());
}

#[test]
fn silence_stays_silence_through_a_fill_pass() {
    let mut shared = SharedContext::new(&arithmetic);
    let mut buffer = Buffer { data: vec![s(0.7); 256] };
    shared.fill_buffer(&mut buffer, &Vec::new(), &arithmetic);
    assert_eq!(buffer.len(), 256);
    assert!(buffer.data.iter().all(|x| x.0 == 0));
    assert_eq!(f(shared.signal_dc), 0.0);
    assert!(f(shared.envelope) >= 1.0);
}

#[test]
fn silent_synth_leaves_silence() {
    let mut shared = SharedContext::new(&arithmetic);
    shared.push_synth(constant(0, 0.0));
    let mut buffer = Buffer::new(64);
    shared.fill_buffer(&mut buffer, &Vec::new(), &arithmetic);
    assert!(buffer.data.iter().all(|x| f(*x) == 0.0));
}

#[test]
fn fill_pass_clears_what_the_buffer_held() {
    let mut shared = SharedContext::new(&arithmetic);
    shared.push_synth(constant(0, 0.5));
    let mut first = Buffer { data: vec![s(100.0); 8] };
    shared.fill_buffer(&mut first, &Vec::new(), &arithmetic);

    let mut other = SharedContext::new(&arithmetic);
    other.push_synth(constant(0, 0.5));
    let mut second = Buffer::new(8);
    other.fill_buffer(&mut second, &Vec::new(), &arithmetic);
    assert_eq!(floats(&first), floats(&second));
}

#[test]
fn master_bus_follows_its_formulas() {
    let mut shared = SharedContext::new(&arithmetic);
    shared.set_sample_rate(s(100.0), &arithmetic);
    shared.push_synth(constant(0, 0.5));
    shared.push_synth(constant(1, 0.25));
    let mut buffer = Buffer::new(32);
    shared.fill_buffer(&mut buffer, &Vec::new(), &arithmetic);

    let mut bus = Bus { dc: 0.0, envelope: 1000.0 };
    let expected: Vec<f32> = (0..32).map(|_| bus.step(0.0 + 0.5 + 0.25, 100.0)).collect();
    assert_eq!(floats(&buffer), expected);
    assert_eq!(f(shared.signal_dc), bus.dc);
    assert_eq!(f(shared.envelope), bus.envelope);
    assert!(expected[0] != 0.0);
}

#[test]
fn master_bus_holds_the_output_within_one() {
    let mut shared = SharedContext::new(&arithmetic);
    shared.envelope = s(1.0);
    let mut buffer = Buffer { data: vec![s(1000.0), s(-1000.0), s(f32::NAN), s(0.0)] };
    shared.master(&mut buffer, &arithmetic);
    let mut bus = Bus { dc: 0.0, envelope: 1.0 };
    let heard = floats(&buffer);
    assert_eq!(heard[0], bus.step(1000.0, 22050.0));
    assert_eq!(heard[1], bus.step(-1000.0, 22050.0));
    assert!(heard.iter().all(|x| -1.0 <= *x && *x <= 1.0));
    assert_eq!(heard[0], 1.0);
    assert_eq!(heard[1], -1.0);
}

#[test]
fn synths_are_summed_in_the_order_they_were_pushed() {
    let mut shared = SharedContext::new(&arithmetic);
    assert_eq!(shared.push_synth(constant(7, 1.0e8)), SynthID(7));
    assert_eq!(shared.push_synth(constant(3, 1.0)), SynthID(3));
    assert_eq!(shared.push_synth(constant(5, -1.0e8)), SynthID(5));
    let ids: Vec<u32> = shared.synths.iter().map(|x| x.id.0).collect();
    assert_eq!(ids, vec![7, 3, 5]);
    let mut buffer = Buffer::new(1);
    shared.render(&mut buffer, &arithmetic);
    // ((0 + 1e8) + 1) - 1e8 loses the 1; another order would keep it
    assert_eq!(floats(&buffer), vec![((0.0f32 + 1.0e8) + 1.0) + -1.0e8]);
    assert_eq!(floats(&buffer), vec![0.0]);
}

#[test]
fn remove_synth_takes_out_every_synth_of_that_id() {
    let mut shared = SharedContext::new(&arithmetic);
    shared.push_synth(constant(1, 0.1));
    shared.push_synth(constant(2, 0.2));
    shared.push_synth(constant(1, 0.3));
    shared.push_synth(constant(3, 0.4));
    shared.remove_synth(SynthID(1));
    let ids: Vec<u32> = shared.synths.iter().map(|x| x.id.0).collect();
    assert_eq!(ids, vec![2, 3]);
    shared.remove_synth(SynthID(9));
    assert_eq!(shared.synths.len(), 2);
    shared.remove_synth(SynthID(3));
    shared.remove_synth(SynthID(2));
    assert!(shared.synths.is_empty());
}

#[test]
fn set_sample_rate_sets_the_period_too() {
    let mut shared = SharedContext::new(&arithmetic);
    shared.set_sample_rate(s(48000.0), &arithmetic);
    assert_eq!(f(shared.get_sample_rate()), 48000.0);
    assert_eq!(f(shared.evaluation_ctx.sample_dt), 1.0 / 48000.0f32);
}

#[test]
fn shared_buffers_are_numbered_in_order() {
    let mut shared = SharedContext::new(&arithmetic);
    let a = shared.create_shared_buffer(vec![s(1.0), s(2.0)]);
    let b = shared.create_shared_buffer(vec![s(3.0)]);
    assert!(matches!(a, BufferID(BufferUsageType::Shared, 0)));
    assert!(matches!(b, BufferID(BufferUsageType::Shared, 1)));
    assert_eq!(shared.evaluation_ctx.shared_buffers.len(), 2);

    let mut synth = Synth::new(SynthID(0));
    synth.new_sampler(a, s(0.0));
    shared.push_synth(synth);
    assert!(shared.is_ready());
    let mut buffer = Buffer::new(5);
    shared.render(&mut buffer, &arithmetic);
    assert_eq!(floats(&buffer), vec![1.0, 2.0, 1.0, 2.0, 1.0]);
}

#[test]
fn events_set_parameters_before_the_buffer_is_rendered() {
    let mut shared = SharedContext::new(&arithmetic);
    let mut synth = Synth::new(SynthID(4));
    let level = synth.new_parameter();
    synth.new_add(level, s(0.0));
    shared.push_synth(synth);

    let mut buffer = Buffer::new(4);
    shared.apply_events(&vec![SynthEvent::SetParam(level, s(0.5)), SynthEvent::SetParam(level, s(0.25))]);
    shared.render(&mut buffer, &arithmetic);
    assert_eq!(floats(&buffer), vec![0.25; 4]);

    // the whole buffer hears the value: a change takes effect once per buffer
    let mut filled = Buffer::new(4);
    shared.fill_buffer(&mut filled, &vec![SynthEvent::SetParam(level, s(0.75))], &arithmetic);
    assert_eq!(f(shared.synths[0].get_parameter(level).evaluate()), 0.75);
    let mut again = Buffer::new(4);
    shared.fill_buffer(&mut again, &Vec::new(), &arithmetic);
    assert_eq!(f(shared.synths[0].get_parameter(level).evaluate()), 0.75);
}

#[test]
fn event_for_a_synth_that_is_gone_is_dropped() {
    let mut shared = SharedContext::new(&arithmetic);
    let mut synth = Synth::new(SynthID(4));
    let level = synth.new_parameter();
    synth.new_add(level, s(0.0));
    shared.push_synth(synth);

    assert!(shared.set_parameter(level, s(1.0)));
    assert!(!shared.set_parameter(ParameterID { owner: SynthID(5), id: 0 }, s(2.0)));
    assert!(!shared.set_parameter(ParameterID { owner: SynthID(4), id: 1 }, s(2.0)));
    assert_eq!(f(shared.synths[0].get_parameter(level).evaluate()), 1.0);

    shared.remove_synth(SynthID(4));
    assert!(!shared.set_parameter(level, s(3.0)));
    let mut buffer = Buffer::new(2);
    shared.fill_buffer(&mut buffer, &vec![SynthEvent::SetParam(level, s(3.0))], &arithmetic);
    assert!(buffer.data.iter().all(|x| x.0 == 0));
}

#[test]
fn event_goes_to_the_first_synth_of_the_id() {
    let mut shared = SharedContext::new(&arithmetic);
    let mut first = Synth::new(SynthID(4));
    let level = first.new_parameter();
    let mut second = Synth::new(SynthID(4));
    second.new_parameter();
    shared.push_synth(first);
    shared.push_synth(second);
    assert!(shared.set_parameter(level, s(1.0)));
    assert_eq!(f(shared.synths[0].get_parameter(level).evaluate()), 1.0);
    assert_eq!(f(shared.synths[1].get_parameter(level).evaluate()), 0.0);
}

#[test]
fn malformed_synth_makes_the_context_unready() {
    let mut shared = SharedContext::new(&arithmetic);
    shared.push_synth(constant(0, 0.5));
    assert!(shared.is_ready());
    let mut broken = Synth::new(SynthID(1));
    broken.new_add(NodeID(40), s(0.0));
    assert!(!broken.is_playable(&shared.evaluation_ctx));
    shared.push_synth(broken);
    assert!(!shared.is_ready());
    shared.remove_synth(SynthID(1));
    assert!(shared.is_ready());
}

#[test]
fn fill_time_is_averaged_with_a_weight_of_a_tenth() {
    let mut shared = SharedContext::new(&arithmetic);
    shared.record_fill_time(s(100.0), &arithmetic);
    assert_eq!(f(shared.average_fill_time), 0.0 + (100.0f32 - 0.0) * 0.1);
    shared.record_fill_time(s(50.0), &arithmetic);
    let first = 0.0 + (100.0f32 - 0.0) * 0.1;
    assert_eq!(f(shared.average_fill_time), first + (50.0f32 - first) * 0.1);
}

#[test]
fn binary32_keeps_zero_on_the_master_bus() {
    let zero = s(0.0);
    let one = s(1.0);
    for rate in [100.0f32, 22050.0, 44100.0, 192000.0] {
        let weight = arithmetic(Op::Div(s(0.5), s(rate)));
        assert_eq!(arithmetic(Op::Mul(zero, weight)).0, 0);
    }
    assert_eq!(arithmetic(Op::Sub(zero, zero)).0, 0);
    assert_eq!(arithmetic(Op::Add(zero, zero)).0, 0);
    assert_eq!(arithmetic(Op::Mul(zero, s(0.6))).0, 0);
    assert_eq!(arithmetic(Op::Max(zero, s(-1.0))).0, 0);
    assert_eq!(arithmetic(Op::Min(zero, one)).0, 0);
    for a in [0.0f32, -0.0, 0.5, 1.0, 1000.0, -7.0, f32::INFINITY, f32::NEG_INFINITY, f32::NAN] {
        let held = arithmetic(Op::Max(s(a), one));
        assert!(held.ge(one), "{:?}", a);
        assert_eq!(arithmetic(Op::Div(zero, held)).0, 0);
    }
    for e in [1.0f32, 1.0000001, 2.0, 1000.0, f32::MAX, f32::INFINITY] {
        assert_eq!(arithmetic(Op::Div(zero, s(e))).0, 0);
    }
}

#[test]
fn silence_stays_silence_buffer_after_buffer() {
    let mut shared = SharedContext::new(&arithmetic);
    shared.set_sample_rate(s(44100.0), &arithmetic);
    for len in [0usize, 1, 7, 256] {
        let mut buffer = Buffer { data: vec![s(-0.3); len] };
        shared.fill_buffer(&mut buffer, &Vec::new(), &arithmetic);
        assert_eq!(buffer.len(), len);
        assert!(buffer.data.iter().all(|x| x.0 == 0));
        assert_eq!(shared.signal_dc.0, 0);
    }
}

#[test]
fn shared_buffers_run_out_of_names() {
    let mut ctx = match voi_synth::Context::new(1, 4, &arithmetic) {
        Ok(ctx) => ctx,
        Err(e) => panic!("context refused: {:?}", e),
    };
    for i in 0..=u16::MAX {
        let id = ctx.create_shared_buffer(Vec::new()).unwrap();
        assert!(matches!(id, BufferID(BufferUsageType::Shared, n) if n == i));
    }
    assert_eq!(
        ctx.create_shared_buffer(Vec::new()).map(|id| id.1),
        Err(voi_synth::pipeline::ContextError::TooManyBuffers)
    );
    assert_eq!(ctx.shared_context.evaluation_ctx.shared_buffers.len(), 65536);
}

#[test]
fn binary32_holds_the_levels_of_the_master_bus() {
    let one = s(1.0);
    let minus_one = s(-1.0);
    for x in [
        0.0f32,
        -0.0,
        0.5,
        -0.5,
        1.0,
        -1.0,
        1.0000001,
        -1.0000001,
        1000.0,
        -1000.0,
        f32::MAX,
        f32::MIN,
        f32::INFINITY,
        f32::NEG_INFINITY,
        f32::NAN,
        -f32::NAN,
    ] {
        let held = arithmetic(Op::Max(s(x), one));
        assert!(held.ge(one), "{:?}", x);
        let floored = arithmetic(Op::Max(s(x), minus_one));
        let out = arithmetic(Op::Min(floored, one));
        assert!(out.ge(minus_one) && out.le(one), "{:?}", x);
    }
}

#[test]
fn master_bus_limits_whatever_comes() {
    let mut shared = SharedContext::new(&arithmetic);
    let mut buffer = Buffer {
        data: vec![
            s(0.1),
            s(5.0e8),
            s(-5.0e8),
            s(f32::INFINITY),
            s(f32::NAN),
            s(f32::NEG_INFINITY),
            s(3.0),
            s(0.0),
        ],
    };
    shared.master(&mut buffer, &arithmetic);
    for x in floats(&buffer) {
        assert!(-1.0 <= x && x <= 1.0, "{}", x);
    }
    assert!(f(shared.envelope).is_nan() || f(shared.envelope) >= 1.0);
}

#[test]
fn quiet_synths_leave_silence() {
    let mut shared = SharedContext::new(&arithmetic);
    // no instruction at all, a constant zero at a negative gain, a lowpass
    // that is shut, and an envelope that is never triggered
    shared.push_synth(Synth::new(SynthID(0)));
    let mut negative = constant(1, 0.0);
    negative.set_gain(s(-0.3));
    shared.push_synth(negative);
    let mut shut = Synth::new(SynthID(2));
    let tone = shut.new_sine(s(440.0));
    shut.new_lowpass(tone, s(0.0));
    shared.push_synth(shut);
    let mut closed = Synth::new(SynthID(3));
    closed.new_env_ar(s(0.1), s(0.1), s(0.0), &arithmetic);
    shared.push_synth(closed);
    assert!(shared.is_ready());
    for _ in 0..3 {
        let mut buffer = Buffer { data: vec![s(9.0); 64] };
        shared.fill_buffer(&mut buffer, &Vec::new(), &arithmetic);
        assert!(buffer.data.iter().all(|x| x.0 == 0));
        assert_eq!(shared.signal_dc.0, 0);
    }
}
