//! A synth: one voice, as an ordered list of nodes with its private state.
use vstd::prelude::*;
use crate::buffer::{contents, Buffer, BufferID, BufferUsageType, SamplerContext, Shelf};
use crate::context::{EvaluationContext, Stage};
use crate::kernel::{apply, functional, graph, total, Arithmetic, Op};
use crate::node::{Input, InputContext, Node, NodeContainer, NodeID, Reading};
use crate::parameter::{values, Parameter, ParameterID};
use crate::sample::{Sample, ONE, ZERO};

verus! {

/// Names one synth. Issued once, never reused.
#[derive(Copy, Clone, Debug, PartialEq, Eq, Structural)]
pub struct SynthID(pub u32);

/// Names one register of a synth's value store.
#[derive(Copy, Clone, Debug)]
pub struct StoreID(pub u32);

/// Issues the ids of synths, each one above the last.
#[derive(Clone, Copy, Debug)]
pub struct SynthCounter {
    /// The id that is issued next.
    pub next: u32,
}

impl SynthCounter {
    /// A counter that starts at 0.
    pub fn new() -> (c: Self)
        ensures
            c.next == 0,
    {
        SynthCounter { next: 0 }
    }

    /// The next id. `None` once every id has been issued: no id comes twice.
    pub fn issue(&mut self) -> (id: Option<SynthID>)
        ensures
            old(self).next < u32::MAX ==> id == Some(SynthID(old(self).next)) && final(self).next
                == old(self).next + 1,
            old(self).next == u32::MAX ==> id.is_none() && final(self).next == old(self).next,
    {
        if self.next < u32::MAX {
            let id = SynthID(self.next);
            self.next = self.next + 1;
            Some(id)
        } else {
            None
        }
    }
}

/// An ordered instruction list with the state that belongs to it.
#[derive(Clone, Debug)]
pub struct Synth {
    pub id: SynthID,
    /// Factor on the output.
    pub gain: Sample,
    /// The instruction whose value is the output; the last one if `None`.
    pub output_node: Option<usize>,
    pub instructions: Vec<Node>,
    /// Registers that keep their value from sample to sample.
    pub value_store: Vec<Sample>,
    pub local_buffers: Vec<Buffer>,
    pub parameters: Vec<Parameter>,
}

/// A synth as plain values.
pub struct Voice {
    pub id: SynthID,
    pub gain: Sample,
    pub output_node: Option<usize>,
    /// The instruction list.
    pub nodes: Seq<Node>,
    /// The registers of the value store.
    pub store: Seq<Sample>,
    /// The values of the parameters.
    pub parameters: Seq<Sample>,
    /// The contents of the local buffers.
    pub local: Seq<Seq<Sample>>,
}

impl View for Synth {
    type V = Voice;

    open spec fn view(&self) -> Voice {
        Voice {
            id: self.id,
            gain: self.gain,
            output_node: self.output_node,
            nodes: self.instructions@,
            store: self.value_store@,
            parameters: values(self.parameters@),
            local: contents(self.local_buffers@),
        }
    }
}

/// What one evaluation changes: the nodes, the registers and the arena.
pub struct Frame {
    pub nodes: Seq<Node>,
    pub store: Seq<Sample>,
    pub arena: Seq<Sample>,
}

/// What one evaluation reads and leaves as it is.
pub struct Setting {
    /// Samples per second.
    pub rate: Sample,
    /// Seconds per sample.
    pub dt: Sample,
    /// The values of the synth's parameters.
    pub parameters: Seq<Sample>,
    /// The buffers in reach.
    pub shelf: Shelf,
}

/// `arena`, filled up with zeros to `len` slots if it has fewer.
pub open spec fn grown(arena: Seq<Sample>, len: nat) -> Seq<Sample> {
    if arena.len() >= len {
        arena
    } else {
        Seq::new(len, |i: int| if i < arena.len() { arena[i] } else { Sample(ZERO) })
    }
}

impl Frame {
    /// What the inputs of the nodes are resolved against.
    pub open spec fn reading(self, s: Setting) -> Reading {
        Reading {
            rate: s.rate,
            dt: s.dt,
            arena: self.arena,
            store: self.store,
            parameters: s.parameters,
        }
    }

    /// Every instruction has its arena slot, and whatever it names is there.
    pub open spec fn ready(self, s: Setting) -> bool {
        &&& self.nodes.len() <= self.arena.len()
        &&& forall|i: int|
            0 <= i < self.nodes.len() ==> (#[trigger] self.nodes[i]).ready(self.reading(s), s.shelf)
    }

    /// The frame after the instruction `idx` is evaluated: the node has
    /// moved one sample on, its output stands in its arena slot, and a
    /// store write has put the same value into its register.
    pub open spec fn step(self, f: Arithmetic, s: Setting, idx: int) -> Frame {
        let (node, sample) = self.nodes[idx].stepped(f, self.reading(s), s.shelf);
        Frame {
            nodes: self.nodes.update(idx, node),
            store: match self.nodes[idx] {
                Node::StoreWrite(StoreID(reg), _) => self.store.update(reg as int, sample),
                _ => self.store,
            },
            arena: self.arena.update(idx, sample),
        }
    }

    /// The frame after the first `upto` instructions are evaluated, in list
    /// order.
    pub open spec fn run(self, f: Arithmetic, s: Setting, upto: nat) -> Frame
        decreases upto,
    {
        if upto == 0 {
            self
        } else {
            self.run(f, s, (upto - 1) as nat).step(f, s, upto - 1)
        }
    }

    /// The frame after one sample: every instruction evaluated once.
    pub open spec fn sample(self, f: Arithmetic, s: Setting) -> Frame {
        self.run(f, s, self.nodes.len())
    }

    /// The frame after `count` samples.
    pub open spec fn play(self, f: Arithmetic, s: Setting, count: nat) -> Frame
        decreases count,
    {
        if count == 0 {
            self
        } else {
            self.play(f, s, (count - 1) as nat).sample(f, s)
        }
    }

    /// The output: the slot of the instruction `output_node`, of the last
    /// instruction if that is `None`, and 0 where there is no instruction.
    pub open spec fn output(self, output_node: Option<usize>) -> Sample {
        if self.nodes.len() > 0 {
            match output_node {
                Some(node) => self.arena[node as int],
                None => self.arena[self.nodes.len() - 1],
            }
        } else {
            Sample(ZERO)
        }
    }

    /// The frames have the same shape: as many nodes, registers and slots.
    pub open spec fn shaped_like(self, other: Frame) -> bool {
        &&& self.nodes.len() == other.nodes.len()
        &&& self.store.len() == other.store.len()
        &&& self.arena.len() == other.arena.len()
    }
}

/// `b` holds every buffer that `a` holds, by the same name and of the same
/// length.
pub open spec fn shelf_extends(a: Shelf, b: Shelf) -> bool {
    &&& a.local.len() <= b.local.len()
    &&& a.shared.len() <= b.shared.len()
    &&& forall|i: int| 0 <= i < a.local.len() ==> (#[trigger] b.local[i]).len() == a.local[i].len()
    &&& forall|i: int|
        0 <= i < a.shared.len() ==> (#[trigger] b.shared[i]).len() == a.shared[i].len()
}

/// Readiness looks at lengths only: a node that is ready stays ready
/// where nothing has become shorter.
pub proof fn lemma_ready_by_lengths(node: Node, a: Reading, b: Reading, from: Shelf, to: Shelf)
    requires
        node.ready(a, from),
        a.arena.len() <= b.arena.len(),
        a.store.len() <= b.store.len(),
        a.parameters.len() <= b.parameters.len(),
        shelf_extends(from, to),
    ensures
        node.ready(b, to),
{
}

impl Synth {
    /// A synth without instructions, with the gain 1.
    pub fn new(id: SynthID) -> (s: Self)
        ensures
            s.id == id,
            s.gain == Sample(ONE),
            s.output_node.is_none(),
            s.instructions@.len() == 0,
            s.value_store@.len() == 0,
            s.local_buffers@.len() == 0,
            s.parameters@.len() == 0,
    {
        Synth {
            id,
            gain: Sample(ONE),
            output_node: None,
            instructions: Vec::new(),
            value_store: Vec::new(),
            local_buffers: Vec::new(),
            parameters: Vec::new(),
        }
    }

    /// A new register, at 0.
    pub fn new_value_store(&mut self) -> (id: StoreID)
        requires
            old(self).value_store@.len() < u32::MAX,
        ensures
            id.0 == old(self).value_store@.len(),
            final(self).value_store@ == old(self).value_store@.push(Sample(ZERO)),
            final(self).id == old(self).id,
            final(self).gain == old(self).gain,
            final(self).output_node == old(self).output_node,
            final(self).instructions == old(self).instructions,
            final(self).local_buffers == old(self).local_buffers,
            final(self).parameters == old(self).parameters,
    {
        self.value_store.push(Sample(ZERO));
        StoreID((self.value_store.len() - 1) as u32)
    }

    /// A new parameter, at 0.
    pub fn new_parameter(&mut self) -> (id: ParameterID)
        requires
            old(self).parameters@.len() < u32::MAX,
        ensures
            id.owner == old(self).id,
            id.id == old(self).parameters@.len(),
            final(self).parameters@.len() == old(self).parameters@.len() + 1,
            final(self).parameters@.drop_last() == old(self).parameters@,
            final(self).parameters@.last().value() == Sample(ZERO),
            final(self).id == old(self).id,
            final(self).gain == old(self).gain,
            final(self).output_node == old(self).output_node,
            final(self).instructions == old(self).instructions,
            final(self).value_store == old(self).value_store,
            final(self).local_buffers == old(self).local_buffers,
    {
        self.parameters.push(Parameter::new());
        assert(self.parameters@.drop_last() =~= old(self).parameters@);
        ParameterID { owner: self.id, id: (self.parameters.len() - 1) as u32 }
    }

    /// The synth owns the parameter `id`.
    pub open spec fn owns(&self, id: ParameterID) -> bool {
        id.owner == self.id && id.id < self.parameters@.len()
    }

    /// Whether the synth owns the parameter `id`.
    pub fn has_parameter(&self, id: ParameterID) -> (b: bool)
        ensures
            b == self.owns(id),
    {
        id.owner == self.id && (id.id as usize) < self.parameters.len()
    }

    /// The parameter `id`, to read or to set.
    pub fn get_parameter(&mut self, id: ParameterID) -> (p: &mut Parameter)
        requires
            old(self).owns(id),
        ensures
            *p == old(self).parameters@[id.id as int],
            final(self).parameters@ == old(self).parameters@.update(id.id as int, *final(p)),
            final(self).id == old(self).id,
            final(self).gain == old(self).gain,
            final(self).output_node == old(self).output_node,
            final(self).instructions == old(self).instructions,
            final(self).value_store == old(self).value_store,
            final(self).local_buffers == old(self).local_buffers,
    {
        let ParameterID { owner, id } = id;
        &mut self.parameters[id as usize]
    }

    /// A new local buffer that holds `data`.
    pub fn new_buffer(&mut self, data: Vec<Sample>) -> (id: BufferID)
        requires
            old(self).local_buffers@.len() < u16::MAX,
        ensures
            id.0 is Local,
            id.1 == old(self).local_buffers@.len(),
            contents(final(self).local_buffers@) == contents(old(self).local_buffers@).push(data@),
            final(self).id == old(self).id,
            final(self).gain == old(self).gain,
            final(self).output_node == old(self).output_node,
            final(self).instructions == old(self).instructions,
            final(self).value_store == old(self).value_store,
            final(self).parameters == old(self).parameters,
    {
        self.local_buffers.push(Buffer { data });
        assert(contents(self.local_buffers@) =~= contents(old(self).local_buffers@).push(data@));
        BufferID(BufferUsageType::Local, (self.local_buffers.len() - 1) as u16)
    }

    /// Sets the factor on the output.
    pub fn set_gain(&mut self, gain: Sample)
        ensures
            *final(self) == (Synth { gain, ..*old(self) }),
    {
        self.gain = gain
    }

    /// Makes the instruction `output` the one whose value is the output.
    pub fn set_output(&mut self, output: NodeID)
        ensures
            *final(self) == (Synth { output_node: Some(output.0 as usize), ..*old(self) }),
    {
        let NodeID(output) = output;
        self.output_node = Some(output as usize);
    }
}

/// The node is a store write to the register `reg`.
pub open spec fn writes(node: Node, reg: u32) -> bool {
    node matches Node::StoreWrite(StoreID(r), _) && r == reg
}

/// A node that is ready stays ready when it moves one sample on, and a
/// store write stays the store write it is.
pub proof fn lemma_stepped_ready(node: Node, f: Arithmetic, r: Reading, shelf: Shelf)
    requires
        node.ready(r, shelf),
    ensures
        node.stepped(f, r, shelf).0.ready(r, shelf),
        forall|reg: u32| #[trigger] writes(node.stepped(f, r, shelf).0, reg) == writes(node, reg),
{
    match node {
        Node::Sampler { sampler, reset } => {
            let reset = reset.updated(r);
            let at = if reset.state == crate::gate::GateState::RisingEdge {
                crate::buffer::Sequencer { position: 0, ..sampler.0 }
            } else {
                sampler.0
            };
            let len = shelf.content(at.buffer_id).len();
            vstd::arithmetic::div_mod::lemma_mod_bound(at.position + 1, len as int);
        },
        Node::Sequencer { seq, advance, reset } => {
            let len = shelf.content(seq.buffer_id).len();
            vstd::arithmetic::div_mod::lemma_mod_bound(seq.position + 1, len as int);
        },
        _ => {},
    }
}

/// One step keeps a ready frame ready and its lengths as they are, and
/// every instruction stays a store write to the register it wrote to, or
/// none.
pub proof fn lemma_step_ready(frame: Frame, f: Arithmetic, s: Setting, idx: int)
    requires
        frame.ready(s),
        0 <= idx < frame.nodes.len(),
    ensures
        frame.step(f, s, idx).ready(s),
        frame.step(f, s, idx).shaped_like(frame),
        forall|j: int, reg: u32|
            0 <= j < frame.nodes.len() ==> #[trigger] writes(frame.step(f, s, idx).nodes[j], reg)
                == writes(frame.nodes[j], reg),
{
    let after = frame.step(f, s, idx);
    lemma_stepped_ready(frame.nodes[idx], f, frame.reading(s), s.shelf);
    assert forall|i: int| 0 <= i < after.nodes.len() implies (#[trigger] after.nodes[i]).ready(
        after.reading(s),
        s.shelf,
    ) by {
        lemma_ready_by_lengths(
            if i == idx {
                frame.nodes[idx].stepped(f, frame.reading(s), s.shelf).0
            } else {
                frame.nodes[i]
            },
            frame.reading(s),
            after.reading(s),
            s.shelf,
            s.shelf,
        );
    }
}

/// Evaluation keeps a ready frame ready and its lengths as they are. Every
/// instruction stays a store write to the register it wrote to, or none,
/// and the instructions that have not been evaluated yet are as they were.
pub proof fn lemma_run_ready(frame: Frame, f: Arithmetic, s: Setting, upto: nat)
    requires
        frame.ready(s),
        upto <= frame.nodes.len(),
    ensures
        frame.run(f, s, upto).ready(s),
        frame.run(f, s, upto).shaped_like(frame),
        forall|j: int, reg: u32|
            0 <= j < frame.nodes.len() ==> #[trigger] writes(frame.run(f, s, upto).nodes[j], reg)
                == writes(frame.nodes[j], reg),
        forall|j: int|
            upto <= j < frame.nodes.len() ==> #[trigger] frame.run(f, s, upto).nodes[j]
                == frame.nodes[j],
    decreases upto,
{
    if upto > 0 {
        lemma_run_ready(frame, f, s, (upto - 1) as nat);
        lemma_step_ready(frame.run(f, s, (upto - 1) as nat), f, s, upto - 1);
    }
}

/// A register keeps its value while the instructions from `from` up to
/// `upto` are evaluated, if none of them is a store write to it.
pub proof fn lemma_register_keeps(
    frame: Frame,
    f: Arithmetic,
    s: Setting,
    from: nat,
    upto: nat,
    reg: u32,
)
    requires
        frame.ready(s),
        from <= upto <= frame.nodes.len(),
        reg < frame.store.len(),
        forall|j: int| from <= j < upto ==> !writes(#[trigger] frame.nodes[j], reg),
    ensures
        frame.run(f, s, upto).store[reg as int] == frame.run(f, s, from).store[reg as int],
    decreases upto,
{
    if upto > from {
        let before = frame.run(f, s, (upto - 1) as nat);
        lemma_register_keeps(frame, f, s, from, (upto - 1) as nat, reg);
        lemma_run_ready(frame, f, s, (upto - 1) as nat);
        assert(writes(before.nodes[upto - 1], reg) == writes(frame.nodes[upto - 1], reg));
        assert(before.nodes[upto - 1].ready(before.reading(s), s.shelf));
    }
}

/// An arena slot keeps its value while instructions other than its own
/// are evaluated.
pub proof fn lemma_slot_keeps(
    frame: Frame,
    f: Arithmetic,
    s: Setting,
    from: nat,
    upto: nat,
    idx: int,
)
    requires
        frame.ready(s),
        from <= upto <= frame.nodes.len(),
        0 <= idx < frame.arena.len(),
        !(from <= idx < upto),
    ensures
        frame.run(f, s, upto).arena[idx] == frame.run(f, s, from).arena[idx],
    decreases upto,
{
    if upto > from {
        lemma_slot_keeps(frame, f, s, from, (upto - 1) as nat, idx);
        lemma_run_ready(frame, f, s, (upto - 1) as nat);
    }
}

/// Same-pass visibility of a store write. Let the instruction `idx` write
/// the register `reg`. Then its output is the value of its input, and
/// every later instruction `at` of the same pass that reads the register
/// reads that value, if no instruction in between writes the register
/// again.
pub proof fn lemma_store_write_same_pass(
    frame: Frame,
    f: Arithmetic,
    s: Setting,
    idx: nat,
    at: nat,
    reg: u32,
    input: Input,
)
    requires
        frame.ready(s),
        idx < at <= frame.nodes.len(),
        frame.nodes[idx as int] == Node::StoreWrite(StoreID(reg), input),
        forall|j: int| idx < j < at ==> !writes(#[trigger] frame.nodes[j], reg),
    ensures
        Input::Store(StoreID(reg)).value(frame.run(f, s, at).reading(s)) == input.value(
            frame.run(f, s, idx).reading(s),
        ),
        frame.run(f, s, at).arena[idx as int] == input.value(frame.run(f, s, idx).reading(s)),
{
    let before = frame.run(f, s, idx);
    lemma_run_ready(frame, f, s, idx);
    assert(before.nodes[idx as int] == frame.nodes[idx as int]);
    assert(before.nodes[idx as int].ready(before.reading(s), s.shelf));
    assert(frame.run(f, s, idx + 1) == before.step(f, s, idx as int));
    lemma_register_keeps(frame, f, s, idx + 1, at, reg);
    lemma_slot_keeps(frame, f, s, idx + 1, at, idx as int);
}

/// Cross-sample persistence of a store write. Let the instruction `idx` be
/// the last one that writes the register `reg`. Then in the next sample
/// every instruction `at` that reads the register before a store write to
/// it is evaluated reads the value written in the sample before.
pub proof fn lemma_store_write_next_sample(
    frame: Frame,
    f: Arithmetic,
    s: Setting,
    idx: nat,
    at: nat,
    reg: u32,
    input: Input,
)
    requires
        frame.ready(s),
        idx < frame.nodes.len(),
        at <= frame.nodes.len(),
        frame.nodes[idx as int] == Node::StoreWrite(StoreID(reg), input),
        forall|j: int| idx < j < frame.nodes.len() ==> !writes(#[trigger] frame.nodes[j], reg),
        forall|j: int| 0 <= j < at ==> !writes(#[trigger] frame.nodes[j], reg),
    ensures
        Input::Store(StoreID(reg)).value(frame.sample(f, s).run(f, s, at).reading(s))
            == input.value(frame.run(f, s, idx).reading(s)),
{
    let next = frame.sample(f, s);
    lemma_store_write_same_pass(frame, f, s, idx, frame.nodes.len(), reg, input);
    lemma_run_ready(frame, f, s, frame.nodes.len());
    assert forall|j: int| 0 <= j < at implies !writes(#[trigger] next.nodes[j], reg) by {
        assert(writes(next.nodes[j], reg) == writes(frame.nodes[j], reg));
    }
    lemma_register_keeps(next, f, s, 0, at, reg);
}

/// A synth without instructions puts out 0 and changes nothing.
pub proof fn lemma_empty_is_silent(frame: Frame, f: Arithmetic, s: Setting, output_node: Option<usize>)
    requires
        frame.nodes.len() == 0,
    ensures
        frame.sample(f, s) == frame,
        frame.sample(f, s).output(output_node) == Sample(ZERO),
{
}

impl Frame {
    /// None of the first `upto` instructions is a store write to the
    /// register `reg`.
    pub open spec fn unwritten(self, reg: u32, upto: int) -> bool {
        forall|i: int| 0 <= i < upto && i < self.nodes.len() ==> !writes(#[trigger] self.nodes[i], reg)
    }

    /// What the input `input` of the instruction `at` resolves to at its
    /// turn within the sample that leads from `self` to `after`, where that
    /// is the same for every arithmetic: a literal and a parameter to
    /// themselves, a node to its slot, which an earlier node has filled in
    /// this sample and a later one in the sample before, and a register to
    /// its value where no earlier instruction writes it.
    pub open spec fn at_turn(self, after: Frame, s: Setting, input: Input, at: int) -> Option<
        Sample,
    > {
        match input {
            Input::Literal(c) => Some(c),
            Input::Parameter(p) => Some(s.parameters[p.id as int]),
            Input::Node(NodeID(j)) => if j < at {
                Some(after.arena[j as int])
            } else {
                Some(self.arena[j as int])
            },
            Input::Store(StoreID(r)) => if self.unwritten(r, at) {
                Some(self.store[r as int])
            } else {
                None
            },
        }
    }

    /// The instruction `at`, if it is a lowpass whose cutoff is not above 0
    /// at its turn, has put out 0 and holds 0.
    pub open spec fn hushed_at(self, after: Frame, s: Setting, at: int) -> bool {
        match self.nodes[at] {
            Node::LowPass { input, freq, .. } => match self.at_turn(after, s, freq, at) {
                Some(c) => !c.greater(Sample(ZERO)) ==> after.arena[at] == Sample(ZERO)
                    && after.nodes[at] == (Node::LowPass {
                    input,
                    freq,
                    prev_result: Sample(ZERO),
                }),
                None => true,
            },
            _ => true,
        }
    }

    /// What the evaluation of the first `upto` instructions does in every
    /// arithmetic, from `self` to `after`: it keeps the lengths; it leaves
    /// the slots and the nodes from `upto` on as they are; it leaves every
    /// register that none of these instructions writes; every instruction
    /// stays a store write to the register it wrote to, or none; and a
    /// lowpass whose cutoff is not above 0 has put out 0.
    pub open spec fn settled_by(self, after: Frame, s: Setting, upto: int) -> bool {
        &&& after.shaped_like(self)
        &&& forall|j: int| upto <= j < self.arena.len() ==> #[trigger] after.arena[j] == self.arena[j]
        &&& forall|j: int| upto <= j < self.nodes.len() ==> #[trigger] after.nodes[j] == self.nodes[j]
        &&& forall|reg: u32|
            reg < self.store.len() && self.unwritten(reg, upto) ==> #[trigger] after.store[reg as int]
                == self.store[reg as int]
        &&& forall|i: int, reg: u32|
            0 <= i < self.nodes.len() ==> #[trigger] writes(after.nodes[i], reg) == writes(
                self.nodes[i],
                reg,
            )
        &&& forall|i: int| 0 <= i < upto && i < self.nodes.len() ==> #[trigger] self.hushed_at(after, s, i)
    }

    /// The input resolves to the same sample from sample to sample: it is
    /// a literal, a parameter, a register that no instruction writes, or a
    /// slot behind the instructions.
    pub open spec fn constant(self, input: Input) -> bool {
        match input {
            Input::Literal(_) => true,
            Input::Parameter(_) => true,
            Input::Node(NodeID(j)) => j >= self.nodes.len(),
            Input::Store(StoreID(r)) => self.unwritten(r, self.nodes.len() as int),
        }
    }

    /// The instruction `at`, if it is a lowpass whose cutoff is constant
    /// and not above 0, has put out 0 and holds 0.
    pub open spec fn calm_at(self, after: Frame, s: Setting, at: int) -> bool {
        match self.nodes[at] {
            Node::LowPass { input, freq, .. } => self.constant(freq) && !freq.value(
                self.reading(s),
            ).greater(Sample(ZERO)) ==> after.arena[at] == Sample(ZERO) && after.nodes[at] == (
                Node::LowPass { input, freq, prev_result: Sample(ZERO) }
            ),
            _ => true,
        }
    }

    /// What any number of samples does in every arithmetic, from `self` to
    /// `after`: it keeps the lengths; it leaves the slots behind the
    /// instructions as they are; it leaves every register that no
    /// instruction writes; and every instruction stays a store write to
    /// the register it wrote to, or none.
    pub open spec fn rested(self, after: Frame) -> bool {
        &&& after.shaped_like(self)
        &&& forall|j: int|
            self.nodes.len() <= j < self.arena.len() ==> #[trigger] after.arena[j] == self.arena[j]
        &&& forall|reg: u32|
            reg < self.store.len() && self.unwritten(reg, self.nodes.len() as int)
                ==> #[trigger] after.store[reg as int] == self.store[reg as int]
        &&& forall|i: int, reg: u32|
            0 <= i < self.nodes.len() ==> #[trigger] writes(after.nodes[i], reg) == writes(
                self.nodes[i],
                reg,
            )
    }

    /// After a sample or more, every lowpass whose cutoff is constant and
    /// not above 0 has put out 0 and holds 0.
    pub open spec fn calm(self, after: Frame, s: Setting) -> bool {
        forall|i: int| 0 <= i < self.nodes.len() ==> #[trigger] self.calm_at(after, s, i)
    }
}

/// One more instruction leaves settled what the instructions before it
/// have settled. `next` comes from `current` by the evaluation of the
/// instruction `idx`, of which is known what holds in every arithmetic.
pub proof fn lemma_settled_on(
    start: Frame,
    current: Frame,
    next: Frame,
    s: Setting,
    f: Arithmetic,
    idx: int,
)
    requires
        start.ready(s),
        0 <= idx < start.nodes.len(),
        start.settled_by(current, s, idx),
        next.shaped_like(current),
        current.nodes[idx].settled(current.reading(s)) ==> next == current.step(f, s, idx),
        forall|j: int| 0 <= j < current.nodes.len() && j != idx ==> next.nodes[j] == current.nodes[j],
        forall|j: int| 0 <= j < current.arena.len() && j != idx ==> next.arena[j] == current.arena[j],
        forall|reg: u32|
            reg < current.store.len() && !writes(current.nodes[idx], reg) ==> next.store[reg as int]
                == current.store[reg as int],
        forall|reg: u32| writes(next.nodes[idx], reg) == writes(current.nodes[idx], reg),
    ensures
        start.settled_by(next, s, idx + 1),
{
    assert(current.nodes[idx] == start.nodes[idx]);
    assert forall|reg: u32|
        reg < start.store.len() && start.unwritten(reg, idx + 1) implies #[trigger] next.store[reg as int]
        == start.store[reg as int] by {
        assert(!writes(start.nodes[idx], reg));
        assert(start.unwritten(reg, idx));
        assert(current.store[reg as int] == start.store[reg as int]);
    }
    assert forall|i: int, reg: u32| 0 <= i < start.nodes.len() implies #[trigger] writes(
        next.nodes[i],
        reg,
    ) == writes(start.nodes[i], reg) by {
        assert(writes(current.nodes[i], reg) == writes(start.nodes[i], reg));
    }
    assert forall|j: int| idx + 1 <= j < start.arena.len() implies #[trigger] next.arena[j]
        == start.arena[j] by {
        assert(current.arena[j] == start.arena[j]);
    }
    assert forall|j: int| idx + 1 <= j < start.nodes.len() implies #[trigger] next.nodes[j]
        == start.nodes[j] by {
        assert(current.nodes[j] == start.nodes[j]);
    }
    assert forall|i: int| 0 <= i < idx + 1 && i < start.nodes.len() implies #[trigger] start.hushed_at(
        next,
        s,
        i,
    ) by {
        match start.nodes[i] {
            Node::LowPass { input, freq, prev_result } => {
                if i < idx {
                    assert(start.hushed_at(current, s, i));
                    match freq {
                        Input::Node(NodeID(j)) => {
                            if j < i {
                                assert(next.arena[j as int] == current.arena[j as int]);
                            }
                        },
                        _ => {},
                    }
                } else {
                    assert(start.nodes[i].ready(start.reading(s), s.shelf));
                    match freq {
                        Input::Node(NodeID(j)) => {
                            if j < idx {
                                assert(next.arena[j as int] == current.arena[j as int]);
                            } else {
                                assert(current.arena[j as int] == start.arena[j as int]);
                            }
                        },
                        Input::Store(StoreID(r)) => {
                            if start.unwritten(r, idx) {
                                assert(current.store[r as int] == start.store[r as int]);
                            }
                        },
                        _ => {},
                    }
                    if start.at_turn(next, s, freq, i) matches Some(c) && !c.greater(Sample(ZERO)) {
                        assert(freq.value(current.reading(s)) == start.at_turn(
                            next,
                            s,
                            freq,
                            i,
                        )->Some_0);
                        assert(current.nodes[idx].settled(current.reading(s)));
                    }
                }
            },
            _ => {},
        }
    }
}

/// One more sample, in whatever arithmetic, leaves at rest what the
/// samples before it have left at rest, and calms every lowpass whose
/// cutoff is constant and not above 0.
pub proof fn lemma_sample_rests(start: Frame, middle: Frame, after: Frame, s: Setting)
    requires
        start.ready(s),
        start.rested(middle),
        middle == start || start.calm(middle, s),
        middle.settled_by(after, s, middle.nodes.len() as int),
    ensures
        start.rested(after),
        start.calm(after, s),
{
    let n = start.nodes.len() as int;
    assert forall|reg: u32| start.unwritten(reg, n) implies middle.unwritten(reg, n) by {
        assert forall|i: int| 0 <= i < n && i < middle.nodes.len() implies !writes(
            #[trigger] middle.nodes[i],
            reg,
        ) by {
            assert(writes(middle.nodes[i], reg) == writes(start.nodes[i], reg));
        }
    }
    assert forall|reg: u32|
        reg < start.store.len() && start.unwritten(reg, n) implies #[trigger] after.store[reg as int]
        == start.store[reg as int] by {
        assert(middle.unwritten(reg, n));
        assert(middle.store[reg as int] == start.store[reg as int]);
    }
    assert forall|i: int, reg: u32| 0 <= i < n implies #[trigger] writes(after.nodes[i], reg)
        == writes(start.nodes[i], reg) by {
        assert(writes(middle.nodes[i], reg) == writes(start.nodes[i], reg));
    }
    assert forall|j: int| n <= j < start.arena.len() implies #[trigger] after.arena[j]
        == start.arena[j] by {
        assert(middle.arena[j] == start.arena[j]);
    }
    assert forall|i: int| 0 <= i < n implies #[trigger] start.calm_at(after, s, i) by {
        match start.nodes[i] {
            Node::LowPass { input, freq, prev_result } => {
                if start.constant(freq) && !freq.value(start.reading(s)).greater(Sample(ZERO)) {
                    assert(start.nodes[i].ready(start.reading(s), s.shelf));
                    if middle != start {
                        assert(start.calm_at(middle, s, i));
                    }
                    assert(middle.nodes[i] matches Node::LowPass { input: a, freq: b, .. } && a
                        == input && b == freq);
                    match freq {
                        Input::Store(StoreID(r)) => {
                            assert(middle.unwritten(r, n));
                            assert(middle.unwritten(r, i));
                            assert(middle.store[r as int] == start.store[r as int]);
                        },
                        Input::Node(NodeID(j)) => {
                            assert(middle.arena[j as int] == start.arena[j as int]);
                        },
                        _ => {},
                    }
                    assert(middle.at_turn(after, s, freq, i) == Some(freq.value(start.reading(s))));
                    assert(middle.hushed_at(after, s, i));
                }
            },
            _ => {},
        }
    }
}

/// What a synth adds to `buffer` over as many samples as the buffer has,
/// from the frame `start`: to the sample `j` the output of the synth's
/// sample `j`, times `gain`.
pub open spec fn mixed_into(
    f: Arithmetic,
    start: Frame,
    s: Setting,
    output_node: Option<usize>,
    gain: Sample,
    buffer: Seq<Sample>,
) -> Seq<Sample> {
    Seq::new(
        buffer.len(),
        |j: int|
            f(
                Op::Add(
                    buffer[j],
                    f(Op::Mul(start.play(f, s, (j + 1) as nat).output(output_node), gain)),
                ),
            ),
    )
}

impl Voice {
    /// What an evaluation changes, over the arena `arena`.
    pub open spec fn frame(self, arena: Seq<Sample>) -> Frame {
        Frame { nodes: self.nodes, store: self.store, arena }
    }

    /// The frame that an evaluation starts from once the arena has a slot
    /// for every instruction.
    pub open spec fn start(self, arena: Seq<Sample>) -> Frame {
        self.frame(grown(arena, self.nodes.len()))
    }

    /// What an evaluation on `stage` reads and leaves as it is.
    pub open spec fn setting(self, stage: Stage) -> Setting {
        Setting {
            rate: stage.rate,
            dt: stage.dt,
            parameters: self.parameters,
            shelf: Shelf { local: self.local, shared: stage.shared },
        }
    }

    /// The voice can be evaluated as it stands: the arena has a slot for
    /// every instruction and for the output, and whatever the instructions
    /// name is there.
    pub open spec fn ready(self, arena: Seq<Sample>, stage: Stage) -> bool {
        &&& self.frame(arena).ready(self.setting(stage))
        &&& self.output_node matches Some(node) ==> node < arena.len()
    }

    /// The voice can be evaluated once the arena has a slot for every
    /// instruction.
    pub open spec fn playable(self, arena: Seq<Sample>, stage: Stage) -> bool {
        self.ready(grown(arena, self.nodes.len()), stage)
    }

    /// An evaluation has left of the voice what it does not change: `self`
    /// and `before` differ in the state of their nodes and in the values of
    /// their registers at most.
    pub open spec fn kept(self, before: Voice) -> bool {
        &&& self.id == before.id
        &&& self.gain == before.gain
        &&& self.output_node == before.output_node
        &&& self.parameters == before.parameters
        &&& self.local == before.local
        &&& self.nodes.len() == before.nodes.len()
        &&& self.store.len() == before.store.len()
    }

    /// The voice with the nodes and the registers of `frame`.
    pub open spec fn with_frame(self, frame: Frame) -> Voice {
        Voice { nodes: frame.nodes, store: frame.store, ..self }
    }

    /// The voice after it has rendered `count` samples from `arena`.
    pub open spec fn played(self, f: Arithmetic, arena: Seq<Sample>, stage: Stage, count: nat)
        -> Frame {
        self.start(arena).play(f, self.setting(stage), count)
    }
}

/// A voice that can be evaluated still can where the arena has not become
/// shorter, the shared buffers are all still there, and the voice has
/// changed in the state of its nodes and the values of its registers and
/// parameters at most.
pub proof fn lemma_playable_by_lengths(
    before: Voice,
    after: Voice,
    arena: Seq<Sample>,
    stage: Stage,
    longer: Seq<Sample>,
    wider: Stage,
)
    requires
        before.playable(arena, stage),
        arena.len() <= longer.len(),
        stage.shared.len() <= wider.shared.len(),
        forall|i: int|
            0 <= i < stage.shared.len() ==> (#[trigger] wider.shared[i]).len()
                == stage.shared[i].len(),
        after.nodes == before.nodes,
        after.output_node == before.output_node,
        after.store.len() == before.store.len(),
        after.parameters.len() == before.parameters.len(),
        after.local == before.local,
    ensures
        after.playable(longer, wider),
{
    let count = before.nodes.len();
    let old_frame = before.frame(grown(arena, count));
    let new_frame = after.frame(grown(longer, count));
    assert forall|i: int| 0 <= i < count implies (#[trigger] new_frame.nodes[i]).ready(
        new_frame.reading(after.setting(wider)),
        after.setting(wider).shelf,
    ) by {
        lemma_ready_by_lengths(
            old_frame.nodes[i],
            old_frame.reading(before.setting(stage)),
            new_frame.reading(after.setting(wider)),
            before.setting(stage).shelf,
            after.setting(wider).shelf,
        );
    }
}

/// A voice that is ready can be evaluated.
pub proof fn lemma_ready_is_playable(voice: Voice, arena: Seq<Sample>, stage: Stage)
    requires
        voice.ready(arena, stage),
    ensures
        voice.playable(arena, stage),
{
}

fn grow_arena(eval_ctx: &mut EvaluationContext, len: usize)
    ensures
        final(eval_ctx).sample_arena@ == grown(old(eval_ctx).sample_arena@, len as nat),
        final(eval_ctx).sample_rate == old(eval_ctx).sample_rate,
        final(eval_ctx).sample_dt == old(eval_ctx).sample_dt,
        final(eval_ctx).shared_buffers == old(eval_ctx).shared_buffers,
        final(eval_ctx).stage() == old(eval_ctx).stage(),
{
    if eval_ctx.sample_arena.len() < len {
        while eval_ctx.sample_arena.len() < len
            invariant
                old(eval_ctx).sample_arena@.len() <= eval_ctx.sample_arena@.len() <= len,
                forall|i: int|
                    0 <= i < old(eval_ctx).sample_arena@.len() ==> eval_ctx.sample_arena@[i] == old(
                        eval_ctx,
                    ).sample_arena@[i],
                forall|i: int|
                    old(eval_ctx).sample_arena@.len() <= i < eval_ctx.sample_arena@.len()
                        ==> eval_ctx.sample_arena@[i] == Sample(ZERO),
                eval_ctx.sample_rate == old(eval_ctx).sample_rate,
                eval_ctx.sample_dt == old(eval_ctx).sample_dt,
                eval_ctx.shared_buffers == old(eval_ctx).shared_buffers,
            decreases len - eval_ctx.sample_arena@.len(),
        {
            eval_ctx.sample_arena.push(Sample(ZERO));
        }
        assert(eval_ctx.sample_arena@ =~= grown(old(eval_ctx).sample_arena@, len as nat));
    }
}

impl Synth {
    /// What an evaluation against `ctx` changes.
    pub open spec fn frame(&self, ctx: &EvaluationContext) -> Frame {
        self@.frame(ctx.sample_arena@)
    }

    /// What an evaluation against `ctx` reads and leaves as it is.
    pub open spec fn setting(&self, ctx: &EvaluationContext) -> Setting {
        self@.setting(ctx.stage())
    }

    /// The synth can be evaluated against `ctx` as it stands.
    pub open spec fn ready(&self, ctx: &EvaluationContext) -> bool {
        self@.ready(ctx.sample_arena@, ctx.stage())
    }

    /// The frame that an evaluation starts from once the arena has a slot
    /// for every instruction.
    pub open spec fn start(&self, ctx: &EvaluationContext) -> Frame {
        self@.start(ctx.sample_arena@)
    }

    /// The synth can be evaluated against `ctx` once the arena has a slot
    /// for every instruction.
    pub open spec fn playable(&self, ctx: &EvaluationContext) -> bool {
        self@.playable(ctx.sample_arena@, ctx.stage())
    }

    /// Whether the synth can be evaluated against `ctx`: whether the arena,
    /// once it has a slot for every instruction, has one for the output
    /// too, and whatever the instructions name is there.
    pub fn is_playable(&self, ctx: &EvaluationContext) -> (ok: bool)
        ensures
            ok == self.playable(ctx),
    {
        let count = self.instructions.len();
        let arena_len = if ctx.sample_arena.len() >= count {
            ctx.sample_arena.len()
        } else {
            count
        };
        let ghost frame = self.start(ctx);
        let ghost setting = self.setting(ctx);
        let output_fits = match self.output_node {
            Some(node) => node < arena_len,
            None => true,
        };
        if !output_fits {
            return false;
        }
        let sampler_ctx = SamplerContext { eval_ctx: ctx, local_buffers: &self.local_buffers };
        let mut i: usize = 0;
        while i < count
            invariant
                i <= count,
                count == self.instructions@.len(),
                arena_len == frame.arena.len(),
                frame == self.start(ctx),
                setting == self.setting(ctx),
                sampler_ctx@ == setting.shelf,
                forall|j: int|
                    0 <= j < i ==> (#[trigger] frame.nodes[j]).ready(
                        frame.reading(setting),
                        setting.shelf,
                    ),
            decreases count - i,
        {
            let ok = self.instructions[i].fits(
                arena_len,
                self.value_store.len(),
                self.parameters.len(),
                sampler_ctx,
            );
            assert(ok == frame.nodes[i as int].ready(frame.reading(setting), setting.shelf));
            if !ok {
                return false;
            }
            i = i + 1;
        }
        true
    }

    /// An evaluation has left of the synth what it does not change: `self`
    /// and `before` differ in the state of their nodes and in the values of
    /// their registers at most.
    pub open spec fn kept(&self, before: &Synth) -> bool {
        &&& self.id == before.id
        &&& self.gain == before.gain
        &&& self.output_node == before.output_node
        &&& self.local_buffers == before.local_buffers
        &&& self.parameters == before.parameters
        &&& self.instructions@.len() == before.instructions@.len()
        &&& self.value_store@.len() == before.value_store@.len()
    }

    /// Evaluates the instruction `idx` and puts its output into its slot.
    fn step<K: Fn(Op) -> Sample>(&mut self, idx: usize, eval_ctx: &mut EvaluationContext, k: &K)
        requires
            total(k),
            idx < old(self).instructions@.len(),
            old(self).ready(old(eval_ctx)),
        ensures
            final(self).kept(old(self)),
            final(self).ready(final(eval_ctx)),
            final(self).setting(final(eval_ctx)) == old(self).setting(old(eval_ctx)),
            final(eval_ctx).stage() == old(eval_ctx).stage(),
            final(eval_ctx).sample_arena@.len() == old(eval_ctx).sample_arena@.len(),
            functional(k) || old(self).instructions@[idx as int].settled(
                old(self).frame(old(eval_ctx)).reading(old(self).setting(old(eval_ctx))),
            ) ==> final(self).frame(final(eval_ctx)) == old(self).frame(old(eval_ctx)).step(
                graph(k),
                old(self).setting(old(eval_ctx)),
                idx as int,
            ),
            forall|j: int|
                0 <= j < old(self).instructions@.len() && j != idx
                    ==> #[trigger] final(self).instructions@[j] == old(self).instructions@[j],
            forall|j: int|
                0 <= j < old(eval_ctx).sample_arena@.len() && j != idx
                    ==> #[trigger] final(eval_ctx).sample_arena@[j] == old(eval_ctx).sample_arena@[j],
            forall|reg: u32|
                reg < old(self).value_store@.len() && !writes(
                    old(self).instructions@[idx as int],
                    reg,
                ) ==> #[trigger] final(self).value_store@[reg as int] == old(
                    self,
                ).value_store@[reg as int],
            forall|reg: u32|
                #[trigger] writes(final(self).instructions@[idx as int], reg) == writes(
                    old(self).instructions@[idx as int],
                    reg,
                ),
    {
        let ghost before = self.frame(eval_ctx);
        let ghost setting = self.setting(eval_ctx);
        let mut node = self.instructions[idx];
        let sample = node.evaluate(
            InputContext {
                eval_ctx: &*eval_ctx,
                value_store: &self.value_store,
                parameters: &self.parameters,
            },
            SamplerContext { eval_ctx: &*eval_ctx, local_buffers: &self.local_buffers },
            k,
        );
        if let Node::StoreWrite(StoreID(reg), _) = self.instructions[idx] {
            self.value_store[reg as usize] = sample;
        }
        self.instructions[idx] = node;
        eval_ctx.sample_arena[idx] = sample;
        proof {
            let after = self.frame(eval_ctx);
            assert forall|i: int| 0 <= i < after.nodes.len() implies (#[trigger] after.nodes[i]).ready(
                after.reading(setting),
                setting.shelf,
            ) by {
                if i == idx {
                    lemma_ready_by_lengths(
                        node,
                        before.reading(setting),
                        after.reading(setting),
                        setting.shelf,
                        setting.shelf,
                    );
                } else {
                    lemma_ready_by_lengths(
                        before.nodes[i],
                        before.reading(setting),
                        after.reading(setting),
                        setting.shelf,
                        setting.shelf,
                    );
                }
            }
        }
    }

    /// Evaluates every instruction once, in list order, and returns the
    /// output: the value of the output instruction, of the last one if none
    /// is set, and 0 if the list is empty.
    pub fn evaluate_sample<K: Fn(Op) -> Sample>(
        &mut self,
        eval_ctx: &mut EvaluationContext,
        k: &K,
    ) -> (out: Sample)
        requires
            total(k),
            old(self).ready(old(eval_ctx)),
        ensures
            final(self).kept(old(self)),
            final(self).ready(final(eval_ctx)),
            final(self).setting(final(eval_ctx)) == old(self).setting(old(eval_ctx)),
            final(eval_ctx).stage() == old(eval_ctx).stage(),
            final(eval_ctx).sample_arena@.len() == old(eval_ctx).sample_arena@.len(),
            out == final(self).frame(final(eval_ctx)).output(old(self).output_node),
            old(self).instructions@.len() == 0 ==> out == Sample(ZERO),
            old(self).frame(old(eval_ctx)).settled_by(
                final(self).frame(final(eval_ctx)),
                old(self).setting(old(eval_ctx)),
                old(self).instructions@.len() as int,
            ),
            functional(k) ==> final(self).frame(final(eval_ctx)) == old(self).frame(
                old(eval_ctx),
            ).sample(graph(k), old(self).setting(old(eval_ctx))),
    {
        let count = self.instructions.len();
        let mut idx: usize = 0;
        while idx < count
            invariant
                total(k),
                idx <= count,
                count == old(self).instructions@.len(),
                old(self).ready(old(eval_ctx)),
                old(self).frame(old(eval_ctx)).settled_by(
                    self.frame(eval_ctx),
                    old(self).setting(old(eval_ctx)),
                    idx as int,
                ),
                self.kept(old(self)),
                self.ready(eval_ctx),
                self.setting(eval_ctx) == old(self).setting(old(eval_ctx)),
                eval_ctx.stage() == old(eval_ctx).stage(),
                eval_ctx.sample_arena@.len() == old(eval_ctx).sample_arena@.len(),
                functional(k) ==> self.frame(eval_ctx) == old(self).frame(old(eval_ctx)).run(
                    graph(k),
                    old(self).setting(old(eval_ctx)),
                    idx as nat,
                ),
            decreases count - idx,
        {
            let ghost current = self.frame(eval_ctx);
            self.step(idx, eval_ctx, k);
            proof {
                lemma_settled_on(
                    old(self).frame(old(eval_ctx)),
                    current,
                    self.frame(eval_ctx),
                    old(self).setting(old(eval_ctx)),
                    graph(k),
                    idx as int,
                );
            }
            idx = idx + 1;
        }

        if count > 0 {
            let output_node = match self.output_node {
                Some(node) => node,
                None => count - 1,
            };
            eval_ctx.sample_arena[output_node]
        } else {
            Sample(ZERO)
        }
    }

    /// Renders as many samples as `buffer` holds and adds each, times the
    /// gain, to the sample of `buffer` at its place. The arena is first
    /// grown to one slot for every instruction.
    pub fn evaluate_into_buffer<K: Fn(Op) -> Sample>(
        &mut self,
        buffer: &mut Buffer,
        eval_ctx: &mut EvaluationContext,
        k: &K,
    )
        requires
            total(k),
            old(self).playable(old(eval_ctx)),
        ensures
            final(self).kept(old(self)),
            final(self).ready(final(eval_ctx)),
            final(self).setting(final(eval_ctx)) == old(self).setting(old(eval_ctx)),
            final(eval_ctx).sample_arena@.len() == old(self).start(old(eval_ctx)).arena.len(),
            final(buffer)@.len() == old(buffer)@.len(),
            old(self).start(old(eval_ctx)).rested(final(self).frame(final(eval_ctx))),
            old(buffer)@.len() > 0 ==> old(self).start(old(eval_ctx)).calm(
                final(self).frame(final(eval_ctx)),
                old(self).setting(old(eval_ctx)),
            ),
            final(self)@.kept(old(self)@),
            final(eval_ctx).stage() == old(eval_ctx).stage(),
            functional(k) ==> final(self)@ == old(self)@.with_frame(
                old(self)@.played(
                    graph(k),
                    old(eval_ctx).sample_arena@,
                    old(eval_ctx).stage(),
                    old(buffer)@.len(),
                ),
            ),
            functional(k) ==> final(eval_ctx).sample_arena@ == old(self)@.played(
                graph(k),
                old(eval_ctx).sample_arena@,
                old(eval_ctx).stage(),
                old(buffer)@.len(),
            ).arena,
            functional(k) ==> final(self).frame(final(eval_ctx)) == old(self).start(
                old(eval_ctx),
            ).play(graph(k), old(self).setting(old(eval_ctx)), old(buffer)@.len()),
            functional(k) ==> final(buffer)@ == mixed_into(
                graph(k),
                old(self).start(old(eval_ctx)),
                old(self).setting(old(eval_ctx)),
                old(self).output_node,
                old(self).gain,
                old(buffer)@,
            ),
    {
        grow_arena(eval_ctx, self.instructions.len());

        let ghost start = self.frame(eval_ctx);
        let ghost setting = self.setting(eval_ctx);
        let len = buffer.data.len();
        let mut i: usize = 0;
        while i < len
            invariant
                total(k),
                i <= len,
                len == old(buffer)@.len(),
                buffer@.len() == len,
                start == old(self).start(old(eval_ctx)),
                setting == old(self).setting(old(eval_ctx)),
                self.kept(old(self)),
                self.ready(eval_ctx),
                self.setting(eval_ctx) == setting,
                eval_ctx.stage() == old(eval_ctx).stage(),
                eval_ctx.sample_arena@.len() == start.arena.len(),
                start.ready(setting),
                start.rested(self.frame(eval_ctx)),
                i == 0 ==> self.frame(eval_ctx) == start,
                i > 0 ==> start.calm(self.frame(eval_ctx), setting),
                forall|j: int| i <= j < len ==> buffer@[j] == old(buffer)@[j],
                functional(k) ==> self.frame(eval_ctx) == start.play(graph(k), setting, i as nat),
                functional(k) ==> forall|j: int|
                    0 <= j < i ==> buffer@[j] == mixed_into(
                        graph(k),
                        start,
                        setting,
                        self.output_node,
                        self.gain,
                        old(buffer)@,
                    )[j],
            decreases len - i,
        {
            let ghost before = self.frame(eval_ctx);
            let out = self.evaluate_sample(eval_ctx, k);
            proof {
                lemma_sample_rests(start, before, self.frame(eval_ctx), setting);
            }
            let value = apply(k, Op::Mul(out, self.gain));
            let sum = apply(k, Op::Add(buffer.data[i], value));
            buffer.data[i] = sum;
            i = i + 1;
        }
        proof {
            if functional(k) {
                assert(buffer@ =~= mixed_into(
                    graph(k),
                    start,
                    setting,
                    self.output_node,
                    self.gain,
                    old(buffer)@,
                ));
            }
        }
    }

    /// Renders `num_samples` samples and drops them; the state of the synth
    /// moves on as if they had been played.
    pub fn prewarm<K: Fn(Op) -> Sample>(
        &mut self,
        num_samples: usize,
        eval_ctx: &mut EvaluationContext,
        k: &K,
    )
        requires
            total(k),
            old(self).playable(old(eval_ctx)),
        ensures
            final(self).kept(old(self)),
            final(self).ready(final(eval_ctx)),
            final(self).setting(final(eval_ctx)) == old(self).setting(old(eval_ctx)),
            final(eval_ctx).sample_arena@.len() == old(self).start(old(eval_ctx)).arena.len(),
            old(self).start(old(eval_ctx)).rested(final(self).frame(final(eval_ctx))),
            num_samples > 0 ==> old(self).start(old(eval_ctx)).calm(
                final(self).frame(final(eval_ctx)),
                old(self).setting(old(eval_ctx)),
            ),
            final(self)@.kept(old(self)@),
            final(eval_ctx).stage() == old(eval_ctx).stage(),
            functional(k) ==> final(self).frame(final(eval_ctx)) == old(self).start(
                old(eval_ctx),
            ).play(graph(k), old(self).setting(old(eval_ctx)), num_samples as nat),
    {
        grow_arena(eval_ctx, self.instructions.len());

        let ghost start = self.frame(eval_ctx);
        let ghost setting = self.setting(eval_ctx);
        let mut i: usize = 0;
        while i < num_samples
            invariant
                total(k),
                i <= num_samples,
                start == old(self).start(old(eval_ctx)),
                setting == old(self).setting(old(eval_ctx)),
                self.kept(old(self)),
                self.ready(eval_ctx),
                self.setting(eval_ctx) == setting,
                eval_ctx.stage() == old(eval_ctx).stage(),
                eval_ctx.sample_arena@.len() == start.arena.len(),
                start.ready(setting),
                start.rested(self.frame(eval_ctx)),
                i == 0 ==> self.frame(eval_ctx) == start,
                i > 0 ==> start.calm(self.frame(eval_ctx), setting),
                functional(k) ==> self.frame(eval_ctx) == start.play(graph(k), setting, i as nat),
            decreases num_samples - i,
        {
            let ghost before = self.frame(eval_ctx);
            self.evaluate_sample(eval_ctx, k);
            proof {
                lemma_sample_rests(start, before, self.frame(eval_ctx), setting);
            }
            i = i + 1;
        }
    }
}

impl NodeContainer for Synth {
    open spec fn nodes(&self) -> Seq<Node> {
        self.instructions@
    }

    open spec fn alike(&self, other: &Self) -> bool {
        &&& self.id == other.id
        &&& self.gain == other.gain
        &&& self.output_node == other.output_node
        &&& self.value_store == other.value_store
        &&& self.local_buffers == other.local_buffers
        &&& self.parameters == other.parameters
    }

    fn add_node(&mut self, inst: Node) -> (id: NodeID) {
        self.instructions.push(inst);
        assert(self.instructions@.drop_last() =~= old(self).instructions@);
        NodeID((self.instructions.len() - 1) as u32)
    }
}

} // verus!
