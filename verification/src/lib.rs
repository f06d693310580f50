//! A graph-based audio synthesis engine.
//!
//! A synth is a flat list of nodes that is evaluated once per sample, in list
//! order; a shared context sums the synths that sound and runs the master bus
//! over the sum. Samples are carried as binary32 bit patterns. The engine
//! orders and moves them itself and asks an arithmetic kernel, which the
//! caller supplies, for every operation that rounds.
use vstd::prelude::*;

pub mod buffer;
pub mod context;
pub mod envelope;
pub mod gate;
pub mod kernel;
pub mod lisp_frontend;
pub mod lisp_laws;
pub mod midi;
pub mod node;
pub mod parameter;
pub mod pipeline;
pub mod reader;
pub mod sample;
pub mod synth;

pub use buffer::Buffer;
pub use context::SharedContext;
pub use kernel::lerp;
pub use node::{NodeContainer, NodeID};
pub use parameter::ParameterID;
pub use pipeline::Context;
pub use sample::Sample;
pub use synth::{Synth, SynthID};

verus! {

} // verus!
