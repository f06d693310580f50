//! The buffer pipeline: the pool of buffers that cycles between the
//! evaluation and the audio output, and the events that wait for the next
//! fill pass.
//!
//! A [`Context`] takes one step at a time and never waits. Where a caller
//! would have to wait, for a free place in a queue or for a buffer to be
//! ready, the step says so and changes nothing; waiting is the caller's.
use std::collections::VecDeque;
use vstd::prelude::*;
use crate::buffer::{silence, Buffer, BufferID};
use crate::context::{
    keeps_zero, lemma_fill_keeps_silence, Bus, Scene, SharedContext, SynthEvent,
    INITIAL_ENVELOPE, INITIAL_SAMPLE_RATE,
};
use crate::kernel::{functional, graph, total, Arithmetic, Op};
use crate::parameter::ParameterID;
use crate::sample::Sample;
use crate::synth::{Synth, SynthCounter, SynthID};

verus! {

/// Places in each of the two queues of buffers.
pub const QUEUE_DEPTH: usize = 16;

/// Why a context has refused a request.
#[derive(Clone, Copy, Debug, PartialEq, Eq, Structural)]
pub enum ContextError {
    /// The queue has no free place: the caller would have to wait.
    QueueFull,
    /// The synth names something that is not there.
    MalformedSynth,
    /// Every name of a shared buffer is taken.
    TooManyBuffers,
    /// Every id of a synth has been issued.
    OutOfIds,
}

/// The synths that sound, the two queues of buffers between evaluation and
/// output, and the events that wait for the next fill pass.
pub struct Context {
    pub shared_context: SharedContext,
    /// Issues the ids of new synths.
    pub ids: SynthCounter,
    /// Events that the next fill pass applies, oldest first.
    pub pending: Vec<SynthEvent>,
    /// Buffers that wait to be filled, oldest first.
    pub queued_buffers: VecDeque<Buffer>,
    /// Filled buffers that wait to be played, oldest first.
    pub ready_buffers: VecDeque<Buffer>,
    /// The length that a buffer is given when it is queued.
    pub buffer_size: usize,
}

/// The contents of a queue of buffers, oldest first.
pub open spec fn queue(buffers: Seq<Buffer>) -> Seq<Seq<Sample>> {
    Seq::new(buffers.len(), |i: int| buffers[i]@)
}

/// A context as plain values.
pub struct Desk {
    pub scene: Scene,
    pub next_id: u32,
    pub pending: Seq<SynthEvent>,
    pub queued: Seq<Seq<Sample>>,
    pub ready: Seq<Seq<Sample>>,
    pub buffer_size: usize,
}

impl View for Context {
    type V = Desk;

    open spec fn view(&self) -> Desk {
        Desk {
            scene: self.shared_context@,
            next_id: self.ids.next,
            pending: self.pending@,
            queued: queue(self.queued_buffers@),
            ready: queue(self.ready_buffers@),
            buffer_size: self.buffer_size,
        }
    }
}

impl Desk {
    /// Neither queue holds more than its depth, and every synth can be
    /// evaluated.
    pub open spec fn wf(self) -> bool {
        &&& self.queued.len() <= QUEUE_DEPTH
        &&& self.ready.len() <= QUEUE_DEPTH
        &&& self.scene.ready()
    }

    /// A fill pass can be made: a buffer waits to be filled, and the queue
    /// of filled buffers has a free place.
    pub open spec fn can_fill(self) -> bool {
        self.queued.len() > 0 && self.ready.len() < QUEUE_DEPTH
    }

    /// The desk after one step of the evaluation: the oldest waiting buffer
    /// is filled, with the waiting events applied first, and queued as
    /// ready. Where no fill pass can be made the desk stays as it is.
    pub open spec fn evaluated(self, f: Arithmetic) -> Desk {
        if self.can_fill() {
            let (scene, filled) = self.scene.filled(f, self.pending, self.queued[0].len());
            Desk {
                scene,
                pending: Seq::empty(),
                queued: self.queued.skip(1),
                ready: self.ready.push(filled),
                ..self
            }
        } else {
            self
        }
    }

    /// The desk after `steps` steps of the evaluation.
    pub open spec fn evaluated_by(self, f: Arithmetic, steps: nat) -> Desk
        decreases steps,
    {
        if steps == 0 {
            self
        } else {
            self.evaluated_by(f, (steps - 1) as nat).evaluated(f)
        }
    }

    /// The desk after the output has taken the oldest ready buffer, if
    /// there is one.
    pub open spec fn taken(self) -> Desk {
        if self.ready.len() > 0 {
            Desk { ready: self.ready.skip(1), ..self }
        } else {
            self
        }
    }

    /// The desk after the output has asked for a ready buffer `count`
    /// times.
    pub open spec fn taken_by(self, count: nat) -> Desk
        decreases count,
    {
        if count == 0 {
            self
        } else {
            self.taken_by((count - 1) as nat).taken()
        }
    }
}

impl Context {
    /// The context is well formed.
    pub open spec fn wf(&self) -> bool {
        self@.wf()
    }

    /// Whether the context is well formed.
    pub fn is_wf(&self) -> (ok: bool)
        ensures
            ok == self.wf(),
    {
        proof {
            assert(queue(self.queued_buffers@).len() == self.queued_buffers@.len());
            assert(queue(self.ready_buffers@).len() == self.ready_buffers@.len());
        }
        self.queued_buffers.len() <= QUEUE_DEPTH && self.ready_buffers.len() <= QUEUE_DEPTH
            && self.shared_context.is_ready()
    }

    /// A context without synths whose pool holds `buffer_count` silent
    /// buffers of `buffer_size` samples, all waiting to be filled. It runs
    /// at 22050 samples per second, with the master bus at its start: the
    /// moving average at 0 and the follower at 1000. A pool that the queue
    /// cannot hold is refused.
    pub fn new<K: Fn(Op) -> Sample>(buffer_count: usize, buffer_size: usize, k: &K) -> (made: Result<
        Context,
        ContextError,
    >)
        requires
            total(k),
        ensures
            buffer_count > QUEUE_DEPTH <==> made is Err,
            made matches Err(e) ==> e == ContextError::QueueFull,
            made matches Ok(context) ==> {
                &&& context.wf()
                &&& context@.scene.voices.len() == 0
                &&& context@.scene.arena.len() == 0
                &&& context@.scene.stage.rate == Sample(INITIAL_SAMPLE_RATE)
                &&& functional(k) ==> context@.scene.stage.dt == graph(k)(
                    Op::Div(Sample(crate::sample::ONE), Sample(INITIAL_SAMPLE_RATE)),
                )
                &&& context@.scene.stage.shared.len() == 0
                &&& context@.scene.bus == (Bus {
                    signal_dc: Sample(crate::sample::ZERO),
                    envelope: Sample(INITIAL_ENVELOPE),
                })
                &&& context@.scene.average_fill_time == Sample(crate::sample::ZERO)
                &&& context@.next_id == 0
                &&& context@.pending.len() == 0
                &&& context@.queued == Seq::new(
                    buffer_count as nat,
                    |i: int| silence(buffer_size as nat),
                )
                &&& context@.ready.len() == 0
                &&& context@.buffer_size == buffer_size
            },
    {
        if buffer_count > QUEUE_DEPTH {
            return Err(ContextError::QueueFull);
        }
        let mut queued_buffers: VecDeque<Buffer> = VecDeque::new();
        let mut i: usize = 0;
        while i < buffer_count
            invariant
                i <= buffer_count,
                queued_buffers@.len() == i,
                queue(queued_buffers@) == Seq::new(i as nat, |j: int| silence(buffer_size as nat)),
            decreases buffer_count - i,
        {
            let ghost before = queued_buffers@;
            queued_buffers.push_back(Buffer::new(buffer_size));
            i = i + 1;
            assert forall|j: int| 0 <= j < i implies queue(queued_buffers@)[j] == silence(
                buffer_size as nat,
            ) by {
                if j < i - 1 {
                    assert(queued_buffers@[j] == before[j]);
                    assert(queue(before)[j] == silence(buffer_size as nat));
                }
            }
            assert(queue(queued_buffers@) =~= Seq::new(
                i as nat,
                |j: int| silence(buffer_size as nat),
            ));
        }
        let context = Context {
            shared_context: SharedContext::new(k),
            ids: SynthCounter::new(),
            pending: Vec::new(),
            queued_buffers,
            ready_buffers: VecDeque::new(),
            buffer_size,
        };
        assert(queue(context.ready_buffers@).len() == 0);
        Ok(context)
    }

    /// A new synth without instructions, under an id that no other synth
    /// of this context has been given.
    pub fn new_synth(&mut self) -> (made: Result<Synth, ContextError>)
        ensures
            old(self).ids.next == u32::MAX <==> made is Err,
            made matches Err(e) ==> e == ContextError::OutOfIds,
            made matches Ok(synth) ==> {
                &&& synth@.id == SynthID(old(self).ids.next)
                &&& synth@.gain == Sample(crate::sample::ONE)
                &&& synth@.nodes.len() == 0
                &&& synth@.store.len() == 0
                &&& synth@.parameters.len() == 0
                &&& synth@.local.len() == 0
                &&& synth@.output_node.is_none()
                &&& final(self)@ == (Desk { next_id: (old(self).ids.next + 1) as u32, ..old(self)@ })
            },
            made is Err ==> final(self)@ == old(self)@,
    {
        match self.ids.issue() {
            Some(id) => Ok(Synth::new(id)),
            None => Err(ContextError::OutOfIds),
        }
    }

    /// Appends a synth to the active ones and returns its id. A synth that
    /// cannot be evaluated, because it names what is not there, is refused.
    pub fn push_synth(&mut self, synth: Synth) -> (pushed: Result<SynthID, ContextError>)
        requires
            old(self).wf(),
        ensures
            final(self).wf(),
            synth.playable(&old(self).shared_context.evaluation_ctx) <==> pushed is Ok,
            pushed matches Ok(id) ==> id == synth.id,
            pushed matches Err(e) ==> e == ContextError::MalformedSynth,
            pushed is Ok ==> final(self)@ == (Desk {
                scene: Scene { voices: old(self)@.scene.voices.push(synth@), ..old(self)@.scene },
                ..old(self)@
            }),
            pushed is Err ==> final(self)@ == old(self)@,
    {
        if synth.is_playable(&self.shared_context.evaluation_ctx) {
            Ok(self.shared_context.push_synth(synth))
        } else {
            Err(ContextError::MalformedSynth)
        }
    }

    /// Takes every synth of that id out of the active ones.
    pub fn remove_synth(&mut self, synth_id: SynthID)
        requires
            old(self).wf(),
        ensures
            final(self).wf(),
            final(self)@ == (Desk {
                scene: Scene {
                    voices: crate::context::without(old(self)@.scene.voices, synth_id),
                    ..old(self)@.scene
                },
                ..old(self)@
            }),
    {
        self.shared_context.remove_synth(synth_id);
    }

    /// Sets the sample rate, and the sample period to one over the rate.
    pub fn set_sample_rate<K: Fn(Op) -> Sample>(&mut self, sample_rate: Sample, k: &K)
        requires
            total(k),
            old(self).wf(),
        ensures
            final(self).wf(),
            final(self)@.scene.stage.rate == sample_rate,
            functional(k) ==> final(self)@.scene.stage.dt == graph(k)(
                Op::Div(Sample(crate::sample::ONE), sample_rate),
            ),
            final(self)@.scene.stage.shared == old(self)@.scene.stage.shared,
            final(self)@.scene.voices == old(self)@.scene.voices,
            final(self)@.scene.arena == old(self)@.scene.arena,
            final(self)@.scene.bus == old(self)@.scene.bus,
            final(self)@.scene.average_fill_time == old(self)@.scene.average_fill_time,
            final(self)@.next_id == old(self)@.next_id,
            final(self)@.pending == old(self)@.pending,
            final(self)@.queued == old(self)@.queued,
            final(self)@.ready == old(self)@.ready,
            final(self)@.buffer_size == old(self)@.buffer_size,
    {
        self.shared_context.set_sample_rate(sample_rate, k);
    }

    /// The sample rate.
    pub fn get_sample_rate(&self) -> (rate: Sample)
        ensures
            rate == self@.scene.stage.rate,
    {
        self.shared_context.get_sample_rate()
    }

    /// Sets the length that buffers are given when they are queued from now
    /// on. The buffers that are in a queue keep their length.
    pub fn set_buffer_size(&mut self, buffer_size: usize)
        ensures
            final(self)@ == (Desk { buffer_size, ..old(self)@ }),
    {
        self.buffer_size = buffer_size;
    }

    /// The length that buffers are given when they are queued.
    pub fn get_buffer_size(&self) -> (size: usize)
        ensures
            size == self@.buffer_size,
    {
        self.buffer_size
    }

    /// Asks for a parameter to be set. The event waits for the next fill
    /// pass, behind the events that wait already.
    pub fn set_parameter(&mut self, param_id: ParameterID, value: Sample)
        ensures
            final(self)@ == (Desk {
                pending: old(self)@.pending.push(SynthEvent::SetParam(param_id, value)),
                ..old(self)@
            }),
    {
        self.pending.push(SynthEvent::SetParam(param_id, value));
    }

    /// A new shared buffer that holds `data`. It is refused where no name
    /// is left for it.
    pub fn create_shared_buffer(&mut self, data: Vec<Sample>) -> (made: Result<
        BufferID,
        ContextError,
    >)
        requires
            old(self).wf(),
        ensures
            final(self).wf(),
            old(self)@.scene.stage.shared.len() > u16::MAX <==> made is Err,
            made matches Err(e) ==> e == ContextError::TooManyBuffers,
            made matches Ok(id) ==> {
                &&& id.0 is Shared
                &&& id.1 == old(self)@.scene.stage.shared.len()
                &&& final(self)@ == (Desk {
                    scene: Scene {
                        stage: crate::context::Stage {
                            shared: old(self)@.scene.stage.shared.push(data@),
                            ..old(self)@.scene.stage
                        },
                        ..old(self)@.scene
                    },
                    ..old(self)@
                })
            },
            made is Err ==> final(self)@ == old(self)@,
    {
        if self.shared_context.evaluation_ctx.shared_buffers.len() > u16::MAX as usize {
            return Err(ContextError::TooManyBuffers);
        }
        Ok(self.shared_context.create_shared_buffer(data))
    }

    /// Takes the oldest ready buffer. `None` where none is ready: the
    /// output has outrun the evaluation.
    pub fn get_ready_buffer(&mut self) -> (taken: Option<Buffer>)
        ensures
            final(self)@ == old(self)@.taken(),
            old(self)@.ready.len() == 0 <==> taken.is_none(),
            taken matches Some(buffer) ==> buffer@ == old(self)@.ready[0],
            old(self).wf() ==> final(self).wf(),
    {
        let taken = self.ready_buffers.pop_front();
        proof {
            if taken.is_some() {
                assert(queue(self.ready_buffers@) =~= queue(old(self).ready_buffers@).skip(1));
            } else {
                assert(queue(old(self).ready_buffers@).len() == 0);
            }
        }
        taken
    }

    /// Hands a buffer back to be filled again. It is first cut or filled up
    /// to the buffer size. It is refused where the queue has no free place.
    pub fn queue_empty_buffer(&mut self, buffer: Buffer) -> (queued: Result<(), ContextError>)
        ensures
            old(self)@.queued.len() >= QUEUE_DEPTH <==> queued is Err,
            queued matches Err(e) ==> e == ContextError::QueueFull,
            queued is Ok ==> {
                &&& final(self)@.queued.len() == old(self)@.queued.len() + 1
                &&& final(self)@.queued.drop_last() == old(self)@.queued
                &&& final(self)@.queued.last().len() == old(self)@.buffer_size
                &&& forall|i: int|
                    0 <= i < buffer@.len() && i < old(self)@.buffer_size
                        ==> final(self)@.queued.last()[i] == buffer@[i]
                &&& forall|i: int|
                    buffer@.len() <= i < old(self)@.buffer_size ==> final(self)@.queued.last()[i]
                        == Sample(crate::sample::ZERO)
                &&& final(self)@ == (Desk { queued: final(self)@.queued, ..old(self)@ })
            },
            queued is Err ==> final(self)@ == old(self)@,
            old(self).wf() ==> final(self).wf(),
    {
        if self.queued_buffers.len() >= QUEUE_DEPTH {
            assert(queue(self.queued_buffers@).len() >= QUEUE_DEPTH);
            return Err(ContextError::QueueFull);
        }
        let mut buffer = buffer;
        buffer.resize(self.buffer_size);
        self.queued_buffers.push_back(buffer);
        proof {
            assert(queue(self.queued_buffers@).drop_last() =~= queue(old(self).queued_buffers@));
        }
        Ok(())
    }

    /// One step of the evaluation: takes the oldest waiting buffer, makes a
    /// fill pass over it with the waiting events, and queues it as ready.
    /// Says whether it has filled a buffer; where it has not, because no
    /// buffer waits or the ready queue is full, nothing has changed.
    pub fn evaluate<K: Fn(Op) -> Sample>(&mut self, k: &K) -> (filled: bool)
        requires
            total(k),
            old(self).wf(),
        ensures
            final(self).wf(),
            filled == old(self)@.can_fill(),
            !filled ==> final(self)@ == old(self)@,
            filled ==> {
                &&& final(self)@.queued == old(self)@.queued.skip(1)
                &&& final(self)@.ready.len() == old(self)@.ready.len() + 1
                &&& final(self)@.ready.drop_last() == old(self)@.ready
                &&& final(self)@.ready.last().len() == old(self)@.queued[0].len()
                &&& final(self)@.pending.len() == 0
                &&& final(self)@.next_id == old(self)@.next_id
                &&& final(self)@.buffer_size == old(self)@.buffer_size
            },
            functional(k) ==> final(self)@ == old(self)@.evaluated(graph(k)),
    {
        if self.queued_buffers.len() == 0 || self.ready_buffers.len() >= QUEUE_DEPTH {
            assert(queue(self.queued_buffers@).len() == self.queued_buffers@.len());
            assert(queue(self.ready_buffers@).len() == self.ready_buffers@.len());
            return false;
        }
        assert(queue(self.queued_buffers@).len() == self.queued_buffers@.len());
        assert(queue(self.ready_buffers@).len() == self.ready_buffers@.len());
        match self.queued_buffers.pop_front() {
            Some(buffer) => {
                let mut buffer = buffer;
                self.shared_context.fill_buffer(&mut buffer, &self.pending, k);
                self.pending.clear();
                self.ready_buffers.push_back(buffer);
                proof {
                    assert(queue(self.queued_buffers@) =~= queue(old(self).queued_buffers@).skip(1));
                    assert(queue(self.ready_buffers@).drop_last() =~= queue(
                        old(self).ready_buffers@,
                    ));
                    if functional(k) {
                        assert(queue(self.ready_buffers@) =~= queue(old(self).ready_buffers@).push(
                            buffer@,
                        ));
                        assert(self.pending@ =~= Seq::<SynthEvent>::empty());
                    }
                }
                true
            },
            None => false,
        }
    }
}

/// Liveness of the pool. Take a desk whose pool of `count` buffers all
/// wait to be filled. Then each of `count` steps of the evaluation fills
/// one buffer, a further step changes nothing, and the output can take
/// exactly `count` buffers: after that none is ready.
pub proof fn lemma_pool_liveness(desk: Desk, f: Arithmetic, count: nat)
    requires
        desk.queued.len() == count,
        desk.ready.len() == 0,
        count <= QUEUE_DEPTH,
    ensures
        forall|steps: nat|
            steps <= count ==> #[trigger] desk.evaluated_by(f, steps).ready.len() == steps
                && desk.evaluated_by(f, steps).queued.len() == count - steps,
        desk.evaluated_by(f, count).evaluated(f) == desk.evaluated_by(f, count),
        forall|taken: nat|
            taken <= count ==> #[trigger] desk.evaluated_by(f, count).taken_by(taken).ready.len()
                == count - taken,
        desk.evaluated_by(f, count).taken_by(count).taken() == desk.evaluated_by(
            f,
            count,
        ).taken_by(count),
{
    assert forall|steps: nat| steps <= count implies #[trigger] desk.evaluated_by(
        f,
        steps,
    ).ready.len() == steps && desk.evaluated_by(f, steps).queued.len() == count - steps by {
        lemma_evaluated_by(desk, f, count, steps);
    }
    lemma_evaluated_by(desk, f, count, count);
    let full = desk.evaluated_by(f, count);
    assert forall|taken: nat| taken <= count implies #[trigger] full.taken_by(taken).ready.len()
        == count - taken by {
        lemma_taken_by(full, taken);
    }
    lemma_taken_by(full, count);
}

/// Each step of the evaluation moves one buffer from the waiting ones to
/// the ready ones, for as long as one waits.
pub proof fn lemma_evaluated_by(desk: Desk, f: Arithmetic, count: nat, steps: nat)
    requires
        desk.queued.len() == count,
        desk.ready.len() == 0,
        count <= QUEUE_DEPTH,
        steps <= count,
    ensures
        desk.evaluated_by(f, steps).ready.len() == steps,
        desk.evaluated_by(f, steps).queued.len() == count - steps,
    decreases steps,
{
    if steps > 0 {
        lemma_evaluated_by(desk, f, count, (steps - 1) as nat);
    }
}

/// Each buffer that the output takes is one ready buffer fewer, for as
/// long as one is ready.
pub proof fn lemma_taken_by(desk: Desk, taken: nat)
    requires
        taken <= desk.ready.len(),
    ensures
        desk.taken_by(taken).ready.len() == desk.ready.len() - taken,
        desk.taken_by(taken).queued == desk.queued,
    decreases taken,
{
    if taken > 0 {
        lemma_taken_by(desk, (taken - 1) as nat);
    }
}

/// A pool without synths fills with silence. Take a desk without voices
/// whose master bus is at rest, whose buffers all wait to be filled, and
/// an arithmetic that keeps zero. Then each step of the evaluation hands
/// the oldest waiting buffer on as silence of its length, in the order in
/// which the buffers waited, and leaves the bus at rest.
pub proof fn lemma_pool_silence(desk: Desk, f: Arithmetic, steps: nat)
    requires
        desk.scene.voices.len() == 0,
        desk.scene.bus.signal_dc == Sample(crate::sample::ZERO),
        keeps_zero(f, desk.scene.stage.rate),
        desk.ready.len() == 0,
        steps <= desk.queued.len() <= QUEUE_DEPTH,
    ensures
        desk.evaluated_by(f, steps).ready.len() == steps,
        desk.evaluated_by(f, steps).queued == desk.queued.skip(steps as int),
        forall|i: int|
            0 <= i < steps ==> #[trigger] desk.evaluated_by(f, steps).ready[i] == silence(
                desk.queued[i].len(),
            ),
        desk.evaluated_by(f, steps).scene.voices.len() == 0,
        desk.evaluated_by(f, steps).scene.stage == desk.scene.stage,
        desk.evaluated_by(f, steps).scene.bus.signal_dc == Sample(crate::sample::ZERO),
    decreases steps,
{
    if steps == 0 {
        assert(desk.queued.skip(0) =~= desk.queued);
    } else {
        lemma_pool_silence(desk, f, (steps - 1) as nat);
        let before = desk.evaluated_by(f, (steps - 1) as nat);
        assert(before.queued[0] == desk.queued[steps - 1]);
        assert(before.can_fill());
        lemma_fill_keeps_silence(before.scene, f, before.pending, before.queued[0].len());
        let after = desk.evaluated_by(f, steps);
        assert(after.queued =~= desk.queued.skip(steps as int));
        assert forall|i: int| 0 <= i < steps implies #[trigger] after.ready[i] == silence(
            desk.queued[i].len(),
        ) by {
            if i < steps - 1 {
                assert(after.ready[i] == before.ready[i]);
            }
        }
    }
}

} // verus!
