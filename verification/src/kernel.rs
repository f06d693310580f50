//! The arithmetic kernel.
//!
//! Every rounding operation on samples is requested from a kernel: a function
//! from [`Op`] to [`Sample`] that the caller supplies. The engine decides which
//! operations are asked for, on which operands and in which order; contracts
//! state results over the kernel's graph, an [`Arithmetic`].
use vstd::prelude::*;
use crate::sample::Sample;

verus! {

/// One rounding operation on binary32 numbers.
#[derive(Clone, Copy, Debug)]
pub enum Op {
    /// `a + b`
    Add(Sample, Sample),
    /// `a - b`
    Sub(Sample, Sample),
    /// `a * b`
    Mul(Sample, Sample),
    /// `a / b`; by zero it gives an infinity or a NaN
    Div(Sample, Sample),
    /// remainder of `a / b`, with the sign of `a`
    Rem(Sample, Sample),
    /// `a` raised to the power `b`
    Pow(Sample, Sample),
    /// the larger of `a` and `b`; the other one where one is a NaN
    Max(Sample, Sample),
    /// the smaller of `a` and `b`; the other one where one is a NaN
    Min(Sample, Sample),
    /// sine of `a` radians
    Sin(Sample),
    /// `e` raised to the power `a`
    Exp(Sample),
    /// largest whole number not above `a`
    Floor(Sample),
}

/// An arithmetic: what each operation results in.
pub type Arithmetic = spec_fn(Op) -> Sample;

/// The kernel accepts every operation.
pub open spec fn total<K: Fn(Op) -> Sample>(k: &K) -> bool {
    forall|op: Op| #[trigger] k.requires((op,))
}

/// The kernel is a function: one operation has one result.
pub open spec fn functional<K: Fn(Op) -> Sample>(k: &K) -> bool {
    forall|op: Op, a: Sample, b: Sample|
        #[trigger] k.ensures((op,), a) && #[trigger] k.ensures((op,), b) ==> a == b
}

/// The arithmetic that a functional kernel computes.
pub open spec fn graph<K: Fn(Op) -> Sample>(k: &K) -> Arithmetic {
    |op: Op| choose|r: Sample| k.ensures((op,), r)
}

/// Asks the kernel for one operation.
pub fn apply<K: Fn(Op) -> Sample>(k: &K, op: Op) -> (r: Sample)
    requires
        total(k),
    ensures
        k.ensures((op,), r),
        functional(k) ==> r == graph(k)(op),
{
    let r = k(op);
    proof {
        if functional(k) {
            let c = choose|c: Sample| k.ensures((op,), c);
            assert(k.ensures((op,), c));
        }
    }
    r
}

/// `from + (to - from) * amt` in the arithmetic `f`.
pub open spec fn interpolation(f: Arithmetic, from: Sample, to: Sample, amt: Sample) -> Sample {
    f(Op::Add(from, f(Op::Mul(f(Op::Sub(to, from)), amt))))
}

/// Linear interpolation from `from` to `to` by `amt`, which is not clamped.
pub fn lerp<K: Fn(Op) -> Sample>(from: Sample, to: Sample, amt: Sample, k: &K) -> (r: Sample)
    requires
        total(k),
    ensures
        functional(k) ==> r == interpolation(graph(k), from, to, amt),
{
    let span = apply(k, Op::Sub(to, from));
    let part = apply(k, Op::Mul(span, amt));
    apply(k, Op::Add(from, part))
}

} // verus!
