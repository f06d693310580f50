use voi_synth::buffer::{
    Buffer, BufferID, BufferSampler, BufferUsageType, ByteOrder, SamplerContext, Sequencer,
};
use voi_synth::context::EvaluationContext;
use voi_synth::kernel::Op;
use voi_synth::sample::Sample;

fn arithmetic(op: Op) -> Sample {
    let v = |s: Sample| f32::from_bits(s.0);
    let r = match op {
        Op::Add(a, b) => v(a) + v(b),
        Op::Sub(a, b) => v(a) - v(b),
        Op::Mul(a, b) => v(a) * v(b),
        Op::Div(a, b) => v(a) / v(b),
        Op::Rem(a, b) => v(a) % v(b),
        Op::Pow(a, b) => v(a).powf(v(b)),
        Op::Max(a, b) => v(a).max(v(b)),
        Op::Min(a, b) => v(a).min(v(b)),
        Op::Sin(a) => v(a).sin(),
        Op::Exp(a) => v(a).exp(),
        Op::Floor(a) => v(a).floor(),
    };
    Sample(r.to_bits())
}

fn s(x: f32) -> Sample {
    Sample(x.to_bits())
}

fn floats(b: &Buffer) -> Vec<f32> {
    b.data.iter().map(|x| f32::from_bits(x.0)).collect()
}

fn buffer_of(data: &[f32]) -> Buffer {
    Buffer { data: data.iter().map(|&x| s(x)).collect() }
}

#[test]
fn new_buffer_is_silent() {
    let b = Buffer::new(5);
    assert_eq!(b.len(), 5);
    assert_eq!(floats(&b), vec![0.0; 5]);
    assert!(b.data.iter().all(|x| x.0 == 0));
    assert_eq!(Buffer::new(0).len(), 0);
}

#[test]
fn resize_grows_with_silence_and_keeps_the_front() {
    let mut b = buffer_of(&[1.0, 2.0, 3.0]);
    b.resize(5);
    assert_eq!(floats(&b), vec![1.0, 2.0, 3.0, 0.0, 0.0]);
    b.resize(2);
    assert_eq!(floats(&b), vec![1.0, 2.0]);
    b.resize(2);
    assert_eq!(floats(&b), vec![1.0, 2.0]);
    b.resize(0);
    assert_eq!(b.len(), 0);
}

#[test]
fn clear_keeps_the_length() {
    let mut b = buffer_of(&[1.0, -2.0, 3.0]);
    b.clear();
    assert_eq!(b.len(), 3);
    assert!(b.data.iter().all(|x| x.0 == 0));
}

#[test]
fn copy_to_writes_whole_samples_in_the_order_asked_for() {
    let b = buffer_of(&[1.0, -2.5, 3.25]);
    let mut dst = [0xaau8; 12];
    let n = b.copy_to(&mut dst, ByteOrder::LittleEndian);
    assert_eq!(n, 3);
    let mut expected = Vec::new();
    for x in [1.0f32, -2.5, 3.25] {
        expected.extend_from_slice(&x.to_le_bytes());
    }
    assert_eq!(dst.to_vec(), expected);

    let mut dst = [0xaau8; 12];
    let n = b.copy_to(&mut dst, ByteOrder::BigEndian);
    assert_eq!(n, 3);
    let mut expected = Vec::new();
    for x in [1.0f32, -2.5, 3.25] {
        expected.extend_from_slice(&x.to_be_bytes());
    }
    assert_eq!(dst.to_vec(), expected);
}

#[test]
fn copy_to_stops_at_the_room_in_the_destination() {
    let b = buffer_of(&[1.0, 2.0, 3.0]);
    let mut dst = [0xaau8; 11];
    let n = b.copy_to(&mut dst, ByteOrder::LittleEndian);
    assert_eq!(n, 2);
    assert_eq!(&dst[0..4], &1.0f32.to_le_bytes());
    assert_eq!(&dst[4..8], &2.0f32.to_le_bytes());
    assert_eq!(&dst[8..], &[0xaa, 0xaa, 0xaa]);
}

#[test]
fn copy_to_stops_at_the_end_of_the_buffer() {
    let b = buffer_of(&[1.0]);
    let mut dst = [0xaau8; 9];
    let n = b.copy_to(&mut dst, ByteOrder::LittleEndian);
    assert_eq!(n, 1);
    assert_eq!(&dst[0..4], &1.0f32.to_le_bytes());
    assert_eq!(&dst[4..], &[0xaa; 5]);

    let mut none: [u8; 0] = [];
    assert_eq!(b.copy_to(&mut none, ByteOrder::LittleEndian), 0);
    let mut short = [7u8; 3];
    assert_eq!(b.copy_to(&mut short, ByteOrder::LittleEndian), 0);
    assert_eq!(short, [7u8; 3]);
}

#[test]
fn copy_to_stereo_duplicates_each_sample() {
    let b = buffer_of(&[1.0, -2.5, 3.25]);
    let mut dst = [0xaau8; 20];
    let n = b.copy_to_stereo(&mut dst, ByteOrder::LittleEndian);
    assert_eq!(n, 2);
    let mut expected = Vec::new();
    for x in [1.0f32, 1.0, -2.5, -2.5] {
        expected.extend_from_slice(&x.to_le_bytes());
    }
    expected.extend_from_slice(&[0xaa; 4]);
    assert_eq!(dst.to_vec(), expected);
}

#[test]
fn sequencer_wraps_around() {
    let ctx = EvaluationContext::new(s(100.0), &arithmetic);
    let local = vec![buffer_of(&[10.0, 20.0, 30.0, 40.0])];
    let sampler_ctx = SamplerContext { eval_ctx: &ctx, local_buffers: &local };
    let mut seq = Sequencer::new(BufferID(BufferUsageType::Local, 0));
    assert_eq!(seq.position, 0);
    let mut places = Vec::new();
    for _ in 0..5 {
        seq.advance(sampler_ctx);
        places.push(seq.position);
    }
    assert_eq!(places, vec![1, 2, 3, 0, 1]);
    assert_eq!(f32::from_bits(seq.sample(sampler_ctx).0), 20.0);
    seq.reset();
    assert_eq!(seq.position, 0);
    assert_eq!(f32::from_bits(seq.sample(sampler_ctx).0), 10.0);
}

#[test]
fn sampler_returns_to_its_start_on_the_fifth_sample_of_four() {
    let ctx = EvaluationContext::new(s(100.0), &arithmetic);
    let local = vec![buffer_of(&[10.0, 20.0, 30.0, 40.0])];
    let sampler_ctx = SamplerContext { eval_ctx: &ctx, local_buffers: &local };
    let mut sampler = BufferSampler::new(BufferID(BufferUsageType::Local, 0));
    let mut heard = Vec::new();
    for _ in 0..5 {
        heard.push(f32::from_bits(sampler.sample(sampler_ctx).0));
    }
    assert_eq!(heard, vec![10.0, 20.0, 30.0, 40.0, 10.0]);
    assert_eq!(sampler.0.position, 1);
    sampler.reset();
    assert_eq!(sampler.0.position, 0);
}

#[test]
fn four_steps_in_a_buffer_of_four_come_back_to_the_start() {
    let ctx = EvaluationContext::new(s(100.0), &arithmetic);
    let local = vec![buffer_of(&[10.0, 20.0, 30.0, 40.0])];
    let sampler_ctx = SamplerContext { eval_ctx: &ctx, local_buffers: &local };
    for start in 0..4usize {
        let mut seq = Sequencer { buffer_id: BufferID(BufferUsageType::Local, 0), position: start };
        for _ in 0..4 {
            seq.advance(sampler_ctx);
        }
        assert_eq!(seq.position, start);
    }
}

#[test]
fn readers_find_shared_buffers_in_the_context() {
    let mut ctx = EvaluationContext::new(s(100.0), &arithmetic);
    ctx.shared_buffers.push(buffer_of(&[7.0, 8.0]));
    let local = vec![buffer_of(&[1.0])];
    let sampler_ctx = SamplerContext { eval_ctx: &ctx, local_buffers: &local };
    let mut shared = Sequencer::new(BufferID(BufferUsageType::Shared, 0));
    assert!(shared.fits(sampler_ctx));
    shared.advance(sampler_ctx);
    assert_eq!(f32::from_bits(shared.sample(sampler_ctx).0), 8.0);
    let mut own = Sequencer::new(BufferID(BufferUsageType::Local, 0));
    own.advance(sampler_ctx);
    assert_eq!(own.position, 0);
    assert_eq!(f32::from_bits(own.sample(sampler_ctx).0), 1.0);
    assert_eq!(sampler_ctx.get_buffer(BufferID(BufferUsageType::Shared, 0)).len(), 2);
}

#[test]
fn reader_outside_its_buffer_does_not_fit() {
    let ctx = EvaluationContext::new(s(100.0), &arithmetic);
    let local = vec![buffer_of(&[1.0, 2.0]), buffer_of(&[])];
    let sampler_ctx = SamplerContext { eval_ctx: &ctx, local_buffers: &local };
    let missing = Sequencer::new(BufferID(BufferUsageType::Local, 2));
    assert!(!missing.fits(sampler_ctx));
    let no_shared = Sequencer::new(BufferID(BufferUsageType::Shared, 0));
    assert!(!no_shared.fits(sampler_ctx));
    let empty = Sequencer::new(BufferID(BufferUsageType::Local, 1));
    assert!(!empty.fits(sampler_ctx));
    let past = Sequencer { buffer_id: BufferID(BufferUsageType::Local, 0), position: 2 };
    assert!(!past.fits(sampler_ctx));
    let inside = Sequencer { buffer_id: BufferID(BufferUsageType::Local, 0), position: 1 };
    assert!(inside.fits(sampler_ctx));
}
