use voi_synth::kernel::{apply, lerp, Op};
use voi_synth::sample::Sample;

fn arithmetic(op: Op) -> Sample {
    let v = |s: Sample| f32::from_bits(s.0);
    let r = match op {
        Op::Add(a, b) => v(a) + v(b),
        Op::Sub(a, b) => v(a) - v(b),
        Op::Mul(a, b) => v(a) * v(b),
        Op::Div(a, b) => v(a) / v(b),
        Op::Rem(a, b) => v(a) % v(b),
        Op::Pow(a, b) => v(a).powf(v(b)),
        Op::Max(a, b) => v(a).max(v(b)),
        Op::Min(a, b) => v(a).min(v(b)),
        Op::Sin(a) => v(a).sin(),
        Op::Exp(a) => v(a).exp(),
        Op::Floor(a) => v(a).floor(),
    };
    Sample(r.to_bits())
}

fn s(x: f32) -> Sample {
    Sample(x.to_bits())
}

fn interesting() -> Vec<f32> {
    vec![
        0.0,
        -0.0,
        1.0,
        -1.0,
        0.05,
        0.049999997,
        0.050000004,
        -0.05,
        0.5,
        2.5,
        -2.5,
        1.0e-40,
        -1.0e-40,
        f32::MIN_POSITIVE,
        f32::MAX,
        f32::MIN,
        f32::INFINITY,
        f32::NEG_INFINITY,
        f32::NAN,
        -f32::NAN,
        f32::from_bits(0x7f80_0001),
        f32::from_bits(0xffff_ffff),
    ]
}

#[test]
fn ordering_agrees_with_binary32_on_every_pair() {
    let values = interesting();
    for &a in values.iter() {
        for &b in values.iter() {
            assert_eq!(s(a).lt(s(b)), a < b, "{:?} < {:?}", a, b);
            assert_eq!(s(a).le(s(b)), a <= b, "{:?} <= {:?}", a, b);
            assert_eq!(s(a).gt(s(b)), a > b, "{:?} > {:?}", a, b);
            assert_eq!(s(a).ge(s(b)), a >= b, "{:?} >= {:?}", a, b);
        }
    }
}

#[test]
fn both_zeros_rank_equal() {
    assert!(s(0.0).le(s(-0.0)));
    assert!(s(-0.0).le(s(0.0)));
    assert!(!s(0.0).lt(s(-0.0)));
    assert!(!s(-0.0).lt(s(0.0)));
}

#[test]
fn nan_is_unordered() {
    let nan = s(f32::NAN);
    assert!(nan.nan());
    assert!(!nan.lt(nan));
    assert!(!nan.le(nan));
    assert!(!nan.gt(s(0.0)));
    assert!(!s(0.0).ge(nan));
    assert!(!s(f32::INFINITY).nan());
    assert!(!s(f32::NEG_INFINITY).nan());
}

#[test]
fn abs_clears_the_sign_bit() {
    for &a in interesting().iter() {
        assert_eq!(s(a).abs().0, a.abs().to_bits());
    }
    assert_eq!(s(-2.5).abs().0, 2.5f32.to_bits());
    assert_eq!(s(-0.0).abs().0, 0);
}

#[test]
fn constants_are_the_bits_of_their_numbers() {
    assert_eq!(voi_synth::sample::ZERO, 0.0f32.to_bits());
    assert_eq!(voi_synth::sample::ONE, 1.0f32.to_bits());
    assert_eq!(voi_synth::sample::MINUS_ONE, (-1.0f32).to_bits());
    assert_eq!(voi_synth::sample::TWO, 2.0f32.to_bits());
    assert_eq!(voi_synth::sample::FOUR, 4.0f32.to_bits());
    assert_eq!(voi_synth::sample::HALF, 0.5f32.to_bits());
    assert_eq!(voi_synth::sample::QUARTER, 0.25f32.to_bits());
    assert_eq!(voi_synth::sample::THREE_QUARTERS, 0.75f32.to_bits());
    assert_eq!(voi_synth::sample::FULL_TURN, (2.0 * std::f32::consts::PI).to_bits());
    assert_eq!(voi_synth::gate::GATE_THRESHOLD, 0.05f32.to_bits());
    assert_eq!(voi_synth::envelope::SHORTEST_TIME, 0.00001f32.to_bits());
    assert_eq!(voi_synth::context::ATTACK_TIME, (5.0f32 / 1000.0).to_bits());
    assert_eq!(voi_synth::context::RELEASE_TIME, (200.0f32 / 1000.0).to_bits());
    assert_eq!(voi_synth::context::HEADROOM, 0.6f32.to_bits());
    assert_eq!(voi_synth::context::INITIAL_ENVELOPE, 1000.0f32.to_bits());
    assert_eq!(voi_synth::context::INITIAL_SAMPLE_RATE, 22050.0f32.to_bits());
    assert_eq!(voi_synth::context::FILL_TIME_WEIGHT, 0.1f32.to_bits());
}

#[test]
fn apply_hands_the_operation_to_the_kernel() {
    assert_eq!(apply(&arithmetic, Op::Add(s(1.5), s(2.0))).0, 3.5f32.to_bits());
    assert_eq!(apply(&arithmetic, Op::Div(s(1.0), s(0.0))).0, f32::INFINITY.to_bits());
    assert_eq!(apply(&arithmetic, Op::Floor(s(-0.5))).0, (-1.0f32).to_bits());
}

#[test]
fn lerp_is_from_plus_span_times_amount() {
    let r = lerp(s(2.0), s(4.0), s(0.25), &arithmetic);
    assert_eq!(f32::from_bits(r.0), 2.5);
}

#[test]
fn lerp_does_not_clamp_the_amount() {
    let r = lerp(s(2.0), s(4.0), s(2.0), &arithmetic);
    assert_eq!(f32::from_bits(r.0), 6.0);
    let r = lerp(s(2.0), s(4.0), s(-1.0), &arithmetic);
    assert_eq!(f32::from_bits(r.0), 0.0);
}

#[test]
fn to_count_cuts_off_towards_zero_and_saturates() {
    let mut values = interesting();
    values.extend_from_slice(&[
        0.99999994,
        1.5,
        2.0,
        2.9999998,
        3.0,
        220.5,
        8388607.5,
        8388608.0,
        16777216.0,
        16777218.0,
        4294967040.0,
        4294967296.0,
        1.0e10,
        1.8446742e19,
        1.8446744e19,
        3.0e20,
        3.0e38,
    ]);
    for &a in values.iter() {
        assert_eq!(s(a).to_count(), a as usize, "{:?}", a);
    }
    assert_eq!(s(220.5).to_count(), 220);
    assert_eq!(s(-3.0).to_count(), 0);
    assert_eq!(s(f32::NAN).to_count(), 0);
    assert_eq!(s(f32::INFINITY).to_count(), usize::MAX);
}
