use voi_synth::buffer::{Buffer, BufferID, BufferUsageType};
use voi_synth::kernel::Op;
use voi_synth::node::{NodeContainer, NodeID};
use voi_synth::pipeline::{Context, ContextError, QUEUE_DEPTH};
use voi_synth::sample::Sample;
use voi_synth::synth::SynthID;

fn arithmetic(op: Op) -> Sample {
    let v = |s: Sample| f32::from_bits(s.0);
    let r = match op {
        Op::Add(a, b) => v(a) + v(b),
        Op::Sub(a, b) => v(a) - v(b),
        Op::Mul(a, b) => v(a) * v(b),
        Op::Div(a, b) => v(a) / v(b),
        Op::Rem(a, b) => v(a) % v(b),
        Op::Pow(a, b) => v(a).powf(v(b)),
        Op::Max(a, b) => v(a).max(v(b)),
        Op::Min(a, b) => v(a).min(v(b)),
        Op::Sin(a) => v(a).sin(),
        Op::Exp(a) => v(a).exp(),
        Op::Floor(a) => v(a).floor(),
    };
    Sample(r.to_bits())
}

fn s(x: f32) -> Sample {
    Sample(x.to_bits())
}

fn f(x: Sample) -> f32 {
    f32::from_bits(x.0)
}

fn context(buffer_count: usize, buffer_size: usize) -> Context {
    match Context::new(buffer_count, buffer_size, &arithmetic) {
        Ok(context) => context,
        Err(e) => panic!("context refused: {:?}", e),
    }
}

#[test]
fn new_context_queues_its_pool_as_empty_buffers() {
    let ctx = context(3, 256);
    assert_eq!(ctx.queued_buffers.len(), 3);
    assert_eq!(ctx.ready_buffers.len(), 0);
    assert!(ctx.queued_buffers.iter().all(|b| b.len() == 256));
    assert!(ctx.queued_buffers.iter().all(|b| b.data.iter().all(|x| x.0 == 0)));
    assert_eq!(ctx.get_buffer_size(), 256);
    assert_eq!(f(ctx.get_sample_rate()), 22050.0);
    assert!(ctx.shared_context.synths.is_empty());
    assert!(ctx.pending.is_empty());
}

#[test]
fn pool_larger_than_the_queue_is_refused() {
    assert!(Context::new(QUEUE_DEPTH, 4, &arithmetic).is_ok());
    match Context::new(QUEUE_DEPTH + 1, 4, &arithmetic) {
        Err(e) => assert_eq!(e, ContextError::QueueFull),
        Ok(_) => panic!("a pool of 17 was taken"),
    }
    assert!(Context::new(0, 4, &arithmetic).is_ok());
}

#[test]
fn pool_of_n_gives_exactly_n_ready_buffers() {
    for n in [0usize, 1, 3, 16] {
        let mut ctx = context(n, 64);
        // nothing is ready before the evaluation has run
        assert!(ctx.get_ready_buffer().is_none());
        for _ in 0..n {
            assert!(ctx.evaluate(&arithmetic));
        }
        // no buffer is left to fill
        assert!(!ctx.evaluate(&arithmetic));
        for _ in 0..n {
            let buffer = ctx.get_ready_buffer().expect("a ready buffer");
            assert_eq!(buffer.len(), 64);
            assert!(buffer.data.iter().all(|x| x.0 == 0));
        }
        assert!(ctx.get_ready_buffer().is_none());
        assert!(!ctx.evaluate(&arithmetic));
    }
}

#[test]
fn buffers_cycle_in_order() {
    let mut ctx = context(2, 4);
    let mut synth = ctx.new_synth().unwrap();
    let store = synth.new_value_store();
    let next = synth.new_add(store, s(0.125));
    synth.new_store_write(store, next);
    ctx.push_synth(synth).unwrap();
    // keep the level follower out of the way
    ctx.shared_context.envelope = s(1.0);

    assert!(ctx.evaluate(&arithmetic));
    assert!(ctx.evaluate(&arithmetic));
    let first = ctx.get_ready_buffer().unwrap();
    let second = ctx.get_ready_buffer().unwrap();
    assert!(f(first.data[0]) < f(first.data[3]));
    assert!(f(first.data[3]) < f(second.data[0]));
    assert!(ctx.queue_empty_buffer(first).is_ok());
    assert!(ctx.evaluate(&arithmetic));
    let third = ctx.get_ready_buffer().unwrap();
    assert!(f(second.data[3]) < f(third.data[0]));
}

#[test]
fn queued_buffer_is_given_the_buffer_size() {
    let mut ctx = context(0, 8);
    assert!(ctx.queue_empty_buffer(Buffer { data: vec![s(1.0); 3] }).is_ok());
    assert!(ctx.queue_empty_buffer(Buffer { data: vec![s(1.0); 20] }).is_ok());
    ctx.set_buffer_size(5);
    assert_eq!(ctx.get_buffer_size(), 5);
    assert!(ctx.queue_empty_buffer(Buffer::new(100)).is_ok());
    let lens: Vec<usize> = ctx.queued_buffers.iter().map(|b| b.len()).collect();
    assert_eq!(lens, vec![8, 8, 5]);
    let first: Vec<f32> = ctx.queued_buffers[0].data.iter().map(|x| f(*x)).collect();
    assert_eq!(first, vec![1.0, 1.0, 1.0, 0.0, 0.0, 0.0, 0.0, 0.0]);
}

#[test]
fn full_queue_refuses_another_buffer() {
    let mut ctx = context(QUEUE_DEPTH, 2);
    assert_eq!(ctx.queue_empty_buffer(Buffer::new(2)), Err(ContextError::QueueFull));
    assert_eq!(ctx.queued_buffers.len(), QUEUE_DEPTH);
    assert!(ctx.evaluate(&arithmetic));
    assert_eq!(ctx.queue_empty_buffer(Buffer::new(2)), Ok(()));
}

#[test]
fn evaluation_waits_while_the_ready_queue_is_full() {
    let mut ctx = context(QUEUE_DEPTH, 2);
    for _ in 0..QUEUE_DEPTH {
        assert!(ctx.evaluate(&arithmetic));
    }
    assert!(ctx.queue_empty_buffer(Buffer::new(2)).is_ok());
    assert!(!ctx.evaluate(&arithmetic));
    assert_eq!(ctx.queued_buffers.len(), 1);
    assert!(ctx.get_ready_buffer().is_some());
    assert!(ctx.evaluate(&arithmetic));
    assert_eq!(ctx.queued_buffers.len(), 0);
    assert_eq!(ctx.ready_buffers.len(), QUEUE_DEPTH);
}

#[test]
fn parameters_change_at_the_start_of_the_next_fill_pass() {
    let mut ctx = context(3, 4);
    let mut synth = ctx.new_synth().unwrap();
    let level = synth.new_parameter();
    synth.new_add(level, s(0.0));
    ctx.push_synth(synth).unwrap();
    ctx.shared_context.envelope = s(1.0);

    assert!(ctx.evaluate(&arithmetic));
    ctx.set_parameter(level, s(0.25));
    ctx.set_parameter(level, s(0.5));
    assert_eq!(ctx.pending.len(), 2);
    // the buffer that is ready already has not heard of the change
    let silent = ctx.get_ready_buffer().unwrap();
    assert!(silent.data.iter().all(|x| f(*x) == 0.0));
    assert!(ctx.evaluate(&arithmetic));
    assert!(ctx.pending.is_empty());
    let loud = ctx.get_ready_buffer().unwrap();
    assert!(loud.data.iter().all(|x| f(*x) > 0.0));
    assert_eq!(f(ctx.shared_context.synths[0].get_parameter(level).evaluate()), 0.5);
}

#[test]
fn events_wait_while_no_buffer_is_filled() {
    let mut ctx = context(0, 4);
    let mut synth = ctx.new_synth().unwrap();
    let level = synth.new_parameter();
    ctx.push_synth(synth).unwrap();
    ctx.set_parameter(level, s(0.25));
    assert!(!ctx.evaluate(&arithmetic));
    assert_eq!(ctx.pending.len(), 1);
    assert_eq!(f(ctx.shared_context.synths[0].get_parameter(level).evaluate()), 0.0);
}

#[test]
fn synths_of_a_context_get_ids_of_their_own() {
    let mut ctx = context(1, 4);
    let a = ctx.new_synth().unwrap();
    let b = ctx.new_synth().unwrap();
    assert_eq!(a.id, SynthID(0));
    assert_eq!(b.id, SynthID(1));
    assert_eq!(ctx.push_synth(a), Ok(SynthID(0)));
    assert_eq!(ctx.push_synth(b), Ok(SynthID(1)));
    ctx.remove_synth(SynthID(0));
    let c = ctx.new_synth().unwrap();
    assert_eq!(c.id, SynthID(2));
    ctx.ids.next = u32::MAX;
    assert!(matches!(ctx.new_synth(), Err(ContextError::OutOfIds)));
}

#[test]
fn malformed_synth_is_refused_when_it_is_pushed() {
    let mut ctx = context(1, 4);
    let mut synth = ctx.new_synth().unwrap();
    synth.new_add(NodeID(9), s(0.0));
    assert_eq!(ctx.push_synth(synth), Err(ContextError::MalformedSynth));
    assert!(ctx.shared_context.synths.is_empty());
    let mut synth = ctx.new_synth().unwrap();
    synth.new_sampler(BufferID(BufferUsageType::Shared, 0), s(0.0));
    assert_eq!(ctx.push_synth(synth), Err(ContextError::MalformedSynth));
    let shared = ctx.create_shared_buffer(vec![s(0.5)]).unwrap();
    let mut synth = ctx.new_synth().unwrap();
    synth.new_sampler(shared, s(0.0));
    assert!(ctx.push_synth(synth).is_ok());
    assert!(ctx.evaluate(&arithmetic));
}

#[test]
fn context_sets_the_sample_rate() {
    let mut ctx = context(1, 4);
    ctx.set_sample_rate(s(44100.0), &arithmetic);
    assert_eq!(f(ctx.get_sample_rate()), 44100.0);
    assert_eq!(f(ctx.shared_context.evaluation_ctx.sample_dt), 1.0 / 44100.0f32);
}

#[test]
fn new_context_has_the_scene_of_its_start() {
    let ctx = context(3, 16);
    assert_eq!(f(ctx.get_sample_rate()), 22050.0);
    assert_eq!(f(ctx.shared_context.evaluation_ctx.sample_dt), 1.0 / 22050.0f32);
    assert_eq!(f(ctx.shared_context.signal_dc), 0.0);
    assert_eq!(f(ctx.shared_context.envelope), 1000.0);
    assert_eq!(f(ctx.shared_context.average_fill_time), 0.0);
    assert!(ctx.shared_context.evaluation_ctx.sample_arena.is_empty());
    assert!(ctx.shared_context.evaluation_ctx.shared_buffers.is_empty());
    assert_eq!(ctx.ids.next, 0);
}

#[test]
fn fresh_pool_hands_out_silence_of_the_buffer_size() {
    for n in 1..=QUEUE_DEPTH {
        let mut ctx = context(n, 32);
        for _ in 0..n {
            assert!(ctx.evaluate(&arithmetic));
        }
        for _ in 0..n {
            let buffer = ctx.get_ready_buffer().expect("a ready buffer");
            assert_eq!(buffer.len(), 32);
            assert!(buffer.data.iter().all(|x| x.0 == 0));
        }
        assert!(ctx.get_ready_buffer().is_none());
        assert_eq!(ctx.shared_context.signal_dc.0, 0);
    }
}
