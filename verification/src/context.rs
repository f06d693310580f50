//! What a synth is evaluated against, and the set of synths that sound.
use vstd::prelude::*;
use crate::buffer::{contents, silence, Buffer, BufferID, BufferUsageType};
use crate::kernel::{apply, functional, graph, interpolation, lerp, total, Arithmetic, Op};
use crate::parameter::ParameterID;
use crate::sample::{Sample, HALF, MINUS_ONE, ONE, ZERO};
use crate::synth::{
    lemma_empty_is_silent, lemma_playable_by_lengths, lemma_ready_is_playable, mixed_into, Synth,
    SynthID, Voice,
};

verus! {

/// State of one evaluation thread: the rate, the scratch arena and the
/// buffers that all synths see.
pub struct EvaluationContext {
    /// Samples per second.
    pub sample_rate: Sample,
    /// Seconds per sample.
    pub sample_dt: Sample,
    /// One slot per instruction: its most recent output. The arena grows to
    /// the longest instruction list evaluated against it and never shrinks.
    pub sample_arena: Vec<Sample>,
    /// Buffers that every synth may read.
    pub shared_buffers: Vec<Buffer>,
}

/// What an evaluation context holds besides the arena, as plain values.
pub struct Stage {
    /// Samples per second.
    pub rate: Sample,
    /// Seconds per sample.
    pub dt: Sample,
    /// The contents of the shared buffers.
    pub shared: Seq<Seq<Sample>>,
}

impl EvaluationContext {
    /// The rate, the sample period and the shared buffers.
    pub open spec fn stage(&self) -> Stage {
        Stage {
            rate: self.sample_rate,
            dt: self.sample_dt,
            shared: contents(self.shared_buffers@),
        }
    }

    /// A context at `sample_rate`, with an empty arena and no shared buffer.
    pub fn new<K: Fn(Op) -> Sample>(sample_rate: Sample, k: &K) -> (ctx: Self)
        requires
            total(k),
        ensures
            ctx.sample_rate == sample_rate,
            functional(k) ==> ctx.sample_dt == graph(k)(Op::Div(Sample(ONE), sample_rate)),
            ctx.sample_arena@.len() == 0,
            ctx.shared_buffers@.len() == 0,
    {
        EvaluationContext {
            sample_rate,
            sample_dt: apply(k, Op::Div(Sample(ONE), sample_rate)),
            sample_arena: Vec::new(),
            shared_buffers: Vec::new(),
        }
    }
}

/// Bits of 0.005, the attack time of the level follower in seconds.
pub const ATTACK_TIME: u32 = 0x3ba3_d70a;

/// Bits of 0.2, the release time of the level follower in seconds.
pub const RELEASE_TIME: u32 = 0x3e4c_cccd;

/// Bits of 0.6, the headroom factor on the master bus.
pub const HEADROOM: u32 = 0x3f19_999a;

/// Bits of 1000.0, the level that the follower starts from.
pub const INITIAL_ENVELOPE: u32 = 0x447a_0000;

/// Bits of 22050.0, the sample rate of a new context.
pub const INITIAL_SAMPLE_RATE: u32 = 0x46ac_4400;

/// Bits of 0.1, the weight of the newest fill time in the average.
pub const FILL_TIME_WEIGHT: u32 = 0x3dcc_cccd;

/// State of the master bus between samples.
pub struct Bus {
    /// Moving average of the signal: its constant component.
    pub signal_dc: Sample,
    /// The level follower, never below 1.
    pub envelope: Sample,
}

/// `1 - exp(-1 / (time * rate))`: how far a follower with the time
/// constant `time` moves towards its input in one sample.
pub open spec fn follower_coefficient(f: Arithmetic, time: Sample, rate: Sample) -> Sample {
    f(Op::Sub(Sample(ONE), f(Op::Exp(f(Op::Div(Sample(MINUS_ONE), f(Op::Mul(time, rate))))))))
}

impl Bus {
    /// The bus after one sample, and what it puts out for it.
    ///
    /// The moving average moves towards the sample by `0.5 / rate` and is
    /// taken off the sample. The follower moves towards the absolute value
    /// of the rest, by the attack coefficient where that is above the
    /// follower and by the release coefficient elsewhere, and is held at 1
    /// or above. The output is the rest times 0.6, divided by the follower
    /// and held within -1 and 1.
    pub open spec fn step(self, f: Arithmetic, sample: Sample, rate: Sample) -> (Bus, Sample) {
        let signal_dc = interpolation(f, self.signal_dc, sample, f(Op::Div(Sample(HALF), rate)));
        let rest = f(Op::Sub(sample, signal_dc));
        let level = rest.absolute();
        let coefficient = if level.greater(self.envelope) {
            follower_coefficient(f, Sample(ATTACK_TIME), rate)
        } else {
            follower_coefficient(f, Sample(RELEASE_TIME), rate)
        };
        let envelope = f(Op::Max(interpolation(f, self.envelope, level, coefficient), Sample(ONE)));
        let scaled = f(Op::Div(f(Op::Mul(rest, Sample(HEADROOM))), envelope));
        (
            Bus { signal_dc, envelope },
            f(Op::Min(f(Op::Max(scaled, Sample(MINUS_ONE))), Sample(ONE))),
        )
    }

    /// The bus after the first `count` samples of `signal`.
    pub open spec fn after(self, f: Arithmetic, signal: Seq<Sample>, rate: Sample, count: nat) -> Bus
        decreases count,
    {
        if count == 0 {
            self
        } else {
            self.after(f, signal, rate, (count - 1) as nat).step(f, signal[count - 1], rate).0
        }
    }

    /// What the bus puts out for `signal`, sample by sample.
    pub open spec fn output(self, f: Arithmetic, signal: Seq<Sample>, rate: Sample) -> Seq<Sample> {
        Seq::new(
            signal.len(),
            |j: int| self.after(f, signal, rate, j as nat).step(f, signal[j], rate).1,
        )
    }
}

/// What the master bus asks of an arithmetic to keep silence silent: that
/// it takes zero from zero, adds zero to zero, scales zero to zero, holds
/// the follower at 1 or above, divides zero by such a follower to zero,
/// and leaves zero within -1 and 1.
pub open spec fn keeps_zero(f: Arithmetic, rate: Sample) -> bool {
    &&& f(Op::Sub(Sample(ZERO), Sample(ZERO))) == Sample(ZERO)
    &&& f(Op::Add(Sample(ZERO), Sample(ZERO))) == Sample(ZERO)
    &&& f(Op::Mul(Sample(ZERO), f(Op::Div(Sample(HALF), rate)))) == Sample(ZERO)
    &&& f(Op::Mul(Sample(ZERO), Sample(HEADROOM))) == Sample(ZERO)
    &&& forall|a: Sample| (#[trigger] f(Op::Max(a, Sample(ONE)))).greater_eq(Sample(ONE))
    &&& forall|e: Sample|
        e.greater_eq(Sample(ONE)) ==> #[trigger] f(Op::Div(Sample(ZERO), e)) == Sample(ZERO)
    &&& f(Op::Max(Sample(ZERO), Sample(MINUS_ONE))) == Sample(ZERO)
    &&& f(Op::Min(Sample(ZERO), Sample(ONE))) == Sample(ZERO)
}

/// On silence the master bus does nothing: where its moving average stands
/// at zero and the arithmetic keeps zero, it puts out zero for a sample
/// of zero, and its moving average stays at zero.
pub proof fn lemma_bus_step_keeps_silence(bus: Bus, f: Arithmetic, rate: Sample)
    requires
        bus.signal_dc == Sample(ZERO),
        keeps_zero(f, rate),
    ensures
        bus.step(f, Sample(ZERO), rate).1 == Sample(ZERO),
        bus.step(f, Sample(ZERO), rate).0.signal_dc == Sample(ZERO),
{
    let rest = f(Op::Sub(Sample(ZERO), Sample(ZERO)));
    assert(rest.absolute() == Sample(ZERO));
}

/// The master bus leaves a signal of silence silent, however long it is.
pub proof fn lemma_bus_keeps_silence(bus: Bus, f: Arithmetic, signal: Seq<Sample>, rate: Sample)
    requires
        bus.signal_dc == Sample(ZERO),
        keeps_zero(f, rate),
        forall|j: int| 0 <= j < signal.len() ==> signal[j] == Sample(ZERO),
    ensures
        bus.output(f, signal, rate) == silence(signal.len()),
        bus.after(f, signal, rate, signal.len()).signal_dc == Sample(ZERO),
{
    assert forall|count: nat| count <= signal.len() implies (#[trigger] bus.after(
        f,
        signal,
        rate,
        count,
    )).signal_dc == Sample(ZERO) by {
        lemma_bus_at_rest(bus, f, signal, rate, count);
    }
    assert forall|j: int| 0 <= j < signal.len() implies bus.output(f, signal, rate)[j] == Sample(
        ZERO,
    ) by {
        assert(bus.after(f, signal, rate, j as nat).signal_dc == Sample(ZERO));
        lemma_bus_step_keeps_silence(bus.after(f, signal, rate, j as nat), f, rate);
    }
    assert(bus.output(f, signal, rate) =~= silence(signal.len()));
}

/// The moving average of the master bus stays at zero over silence.
pub proof fn lemma_bus_at_rest(
    bus: Bus,
    f: Arithmetic,
    signal: Seq<Sample>,
    rate: Sample,
    count: nat,
)
    requires
        bus.signal_dc == Sample(ZERO),
        keeps_zero(f, rate),
        count <= signal.len(),
        forall|j: int| 0 <= j < signal.len() ==> signal[j] == Sample(ZERO),
    ensures
        bus.after(f, signal, rate, count).signal_dc == Sample(ZERO),
    decreases count,
{
    if count > 0 {
        lemma_bus_at_rest(bus, f, signal, rate, (count - 1) as nat);
        lemma_bus_step_keeps_silence(bus.after(f, signal, rate, (count - 1) as nat), f, rate);
    }
}

/// The sample lies within -1 and 1.
pub open spec fn within_one(s: Sample) -> bool {
    s.greater_eq(Sample(MINUS_ONE)) && s.less_eq(Sample(ONE))
}

/// What the master bus asks of an arithmetic to hold its levels: that the
/// larger of anything and 1 is 1 or above, and that what is held first at
/// -1 or above and then at 1 or below lies within the two.
pub open spec fn holds_level(f: Arithmetic) -> bool {
    &&& forall|a: Sample| (#[trigger] f(Op::Max(a, Sample(ONE)))).greater_eq(Sample(ONE))
    &&& forall|x: Sample|
        within_one(#[trigger] f(Op::Min(f(Op::Max(x, Sample(MINUS_ONE))), Sample(ONE))))
}

/// The master bus is a limiter: in an arithmetic that holds its levels,
/// what it puts out for a sample lies within -1 and 1, and its follower
/// is at 1 or above after the sample, whatever sample it is and wherever
/// the bus stood.
pub proof fn lemma_bus_step_bounded(bus: Bus, f: Arithmetic, sample: Sample, rate: Sample)
    requires
        holds_level(f),
    ensures
        within_one(bus.step(f, sample, rate).1),
        bus.step(f, sample, rate).0.envelope.greater_eq(Sample(ONE)),
{
}

/// In an arithmetic that holds its levels, every sample that the master
/// bus puts out lies within -1 and 1, and after one sample or more its
/// follower is at 1 or above.
pub proof fn lemma_bus_bounded(bus: Bus, f: Arithmetic, signal: Seq<Sample>, rate: Sample)
    requires
        holds_level(f),
    ensures
        forall|j: int|
            0 <= j < signal.len() ==> within_one(#[trigger] bus.output(f, signal, rate)[j]),
        forall|count: nat|
            1 <= count <= signal.len() ==> (#[trigger] bus.after(
                f,
                signal,
                rate,
                count,
            )).envelope.greater_eq(Sample(ONE)),
{
    assert forall|j: int| 0 <= j < signal.len() implies within_one(
        #[trigger] bus.output(f, signal, rate)[j],
    ) by {
        lemma_bus_step_bounded(bus.after(f, signal, rate, j as nat), f, signal[j], rate);
    }
    assert forall|count: nat| 1 <= count <= signal.len() implies (#[trigger] bus.after(
        f,
        signal,
        rate,
        count,
    )).envelope.greater_eq(Sample(ONE)) by {
        lemma_bus_step_bounded(
            bus.after(f, signal, rate, (count - 1) as nat),
            f,
            signal[count - 1],
            rate,
        );
    }
}

/// A change that another thread asks for.
#[derive(Clone, Copy, Debug)]
pub enum SynthEvent {
    /// Set a parameter to a value.
    SetParam(ParameterID, Sample),
}

/// The synths of a list as plain values.
pub open spec fn voices(synths: Seq<Synth>) -> Seq<Voice> {
    Seq::new(synths.len(), |i: int| synths[i]@)
}

/// The voices without those of the id `id`, in the same order.
pub open spec fn without(voices: Seq<Voice>, id: SynthID) -> Seq<Voice>
    decreases voices.len(),
{
    if voices.len() == 0 {
        voices
    } else if voices.last().id == id {
        without(voices.drop_last(), id)
    } else {
        without(voices.drop_last(), id).push(voices.last())
    }
}

/// The voice `i` is the first one of the id `owner`.
pub open spec fn is_first(voices: Seq<Voice>, owner: SynthID, i: int) -> bool {
    &&& 0 <= i < voices.len()
    &&& voices[i].id == owner
    &&& forall|j: int| 0 <= j < i ==> (#[trigger] voices[j]).id != owner
}

/// The voice that holds the parameter `id`: the first voice of the
/// owner's id, if there is one and it has a parameter at that place.
pub open spec fn target(voices: Seq<Voice>, id: ParameterID) -> Option<int> {
    if exists|i: int| is_first(voices, id.owner, i) {
        let i = choose|i: int| is_first(voices, id.owner, i);
        if id.id < voices[i].parameters.len() {
            Some(i)
        } else {
            None
        }
    } else {
        None
    }
}

/// The voices after one event. An event for a parameter that no voice
/// holds changes nothing.
pub open spec fn after_event(voices: Seq<Voice>, event: SynthEvent) -> Seq<Voice> {
    match event {
        SynthEvent::SetParam(id, value) => match target(voices, id) {
            Some(i) => voices.update(
                i,
                Voice { parameters: voices[i].parameters.update(id.id as int, value), ..voices[i] },
            ),
            None => voices,
        },
    }
}

/// The voices after a batch of events, applied in order.
pub open spec fn after_events(voices: Seq<Voice>, events: Seq<SynthEvent>) -> Seq<Voice>
    decreases events.len(),
{
    if events.len() == 0 {
        voices
    } else {
        after_event(after_events(voices, events.drop_last()), events.last())
    }
}

/// Events leave the number of voices as it is.
pub proof fn lemma_after_events_len(voices: Seq<Voice>, events: Seq<SynthEvent>)
    ensures
        after_events(voices, events).len() == voices.len(),
    decreases events.len(),
{
    if events.len() > 0 {
        lemma_after_events_len(voices, events.drop_last());
    }
}

/// Where a fill pass stands: the voices, the arena and the buffer.
pub struct Mix {
    pub voices: Seq<Voice>,
    pub arena: Seq<Sample>,
    pub buffer: Seq<Sample>,
}

/// The mix after the first `count` voices have rendered into the buffer,
/// one after the other, each over the arena that the one before has left.
pub open spec fn rendered(f: Arithmetic, mix: Mix, stage: Stage, count: nat) -> Mix
    decreases count,
{
    if count == 0 {
        mix
    } else {
        let before = rendered(f, mix, stage, (count - 1) as nat);
        let voice = mix.voices[count - 1];
        let end = voice.played(f, before.arena, stage, mix.buffer.len());
        Mix {
            voices: before.voices.update(count - 1, voice.with_frame(end)),
            arena: end.arena,
            buffer: mixed_into(
                f,
                voice.start(before.arena),
                voice.setting(stage),
                voice.output_node,
                voice.gain,
                before.buffer,
            ),
        }
    }
}

/// Rendering keeps the number of voices and the length of the buffer, and
/// leaves the voices that have not rendered yet as they are.
pub proof fn lemma_rendered_shape(f: Arithmetic, mix: Mix, stage: Stage, count: nat)
    requires
        count <= mix.voices.len(),
    ensures
        rendered(f, mix, stage, count).voices.len() == mix.voices.len(),
        rendered(f, mix, stage, count).buffer.len() == mix.buffer.len(),
        forall|j: int|
            count <= j < mix.voices.len() ==> #[trigger] rendered(f, mix, stage, count).voices[j]
                == mix.voices[j],
    decreases count,
{
    if count > 0 {
        lemma_rendered_shape(f, mix, stage, (count - 1) as nat);
    }
}

/// What a shared context holds, as plain values.
pub struct Scene {
    pub voices: Seq<Voice>,
    pub arena: Seq<Sample>,
    pub stage: Stage,
    pub bus: Bus,
    pub average_fill_time: Sample,
}

impl Scene {
    /// Every voice can be evaluated.
    pub open spec fn ready(self) -> bool {
        forall|i: int|
            0 <= i < self.voices.len() ==> (#[trigger] self.voices[i]).playable(
                self.arena,
                self.stage,
            )
    }

    /// The scene after a fill pass over the events `events` and a buffer
    /// of `len` samples, and what the pass leaves in the buffer: the events
    /// are applied, the buffer is cleared, every voice renders into it in
    /// order, and the master bus runs over the sum.
    pub open spec fn filled(self, f: Arithmetic, events: Seq<SynthEvent>, len: nat) -> (
        Scene,
        Seq<Sample>,
    ) {
        let heard = after_events(self.voices, events);
        let mix = rendered(
            f,
            Mix { voices: heard, arena: self.arena, buffer: silence(len) },
            self.stage,
            heard.len(),
        );
        (
            Scene {
                voices: mix.voices,
                arena: mix.arena,
                stage: self.stage,
                bus: self.bus.after(f, mix.buffer, self.stage.rate, len),
                average_fill_time: self.average_fill_time,
            },
            self.bus.output(f, mix.buffer, self.stage.rate),
        )
    }
}

/// The voice is quiet over `len` samples from `arena`: it puts out zero on
/// each of them, and the arithmetic adds zero times its gain to zero as
/// zero.
pub open spec fn quiet(f: Arithmetic, voice: Voice, arena: Seq<Sample>, stage: Stage, len: nat)
    -> bool {
    &&& forall|n: nat|
        1 <= n <= len ==> (#[trigger] voice.played(f, arena, stage, n)).output(voice.output_node)
            == Sample(ZERO)
    &&& f(Op::Add(Sample(ZERO), f(Op::Mul(Sample(ZERO), voice.gain)))) == Sample(ZERO)
}

/// Each of the first `count` voices of the mix is quiet at its turn, over
/// the arena that the voices before it have left.
pub open spec fn all_quiet(f: Arithmetic, mix: Mix, stage: Stage, count: nat) -> bool {
    forall|i: nat|
        i < count ==> quiet(
            f,
            mix.voices[i as int],
            (#[trigger] rendered(f, mix, stage, i)).arena,
            stage,
            mix.buffer.len(),
        )
}

/// A voice without instructions is quiet, whatever the arena holds.
pub proof fn lemma_empty_voice_is_quiet(
    f: Arithmetic,
    voice: Voice,
    arena: Seq<Sample>,
    stage: Stage,
    len: nat,
)
    requires
        voice.nodes.len() == 0,
        f(Op::Add(Sample(ZERO), f(Op::Mul(Sample(ZERO), voice.gain)))) == Sample(ZERO),
    ensures
        quiet(f, voice, arena, stage, len),
{
    assert forall|n: nat| 1 <= n <= len implies (#[trigger] voice.played(
        f,
        arena,
        stage,
        n,
    )).output(voice.output_node) == Sample(ZERO) by {
        lemma_empty_voice_rests(f, voice, arena, stage, n);
    }
}

/// A voice without instructions stays as it is, however long it plays.
pub proof fn lemma_empty_voice_rests(
    f: Arithmetic,
    voice: Voice,
    arena: Seq<Sample>,
    stage: Stage,
    count: nat,
)
    requires
        voice.nodes.len() == 0,
    ensures
        voice.played(f, arena, stage, count) == voice.start(arena),
    decreases count,
{
    if count > 0 {
        lemma_empty_voice_rests(f, voice, arena, stage, (count - 1) as nat);
        lemma_empty_is_silent(voice.start(arena), f, voice.setting(stage), voice.output_node);
    }
}

/// Quiet voices leave a silent buffer silent.
pub proof fn lemma_rendered_quiet(f: Arithmetic, mix: Mix, stage: Stage, count: nat)
    requires
        count <= mix.voices.len(),
        mix.buffer == silence(mix.buffer.len()),
        all_quiet(f, mix, stage, count),
    ensures
        rendered(f, mix, stage, count).buffer == silence(mix.buffer.len()),
    decreases count,
{
    if count > 0 {
        let before = rendered(f, mix, stage, (count - 1) as nat);
        assert(all_quiet(f, mix, stage, (count - 1) as nat));
        lemma_rendered_quiet(f, mix, stage, (count - 1) as nat);
        let voice = mix.voices[count - 1];
        assert(quiet(f, voice, before.arena, stage, mix.buffer.len()));
        let after = rendered(f, mix, stage, count).buffer;
        assert forall|j: int| 0 <= j < mix.buffer.len() implies after[j] == Sample(ZERO) by {
            assert(voice.played(f, before.arena, stage, (j + 1) as nat).output(voice.output_node)
                == Sample(ZERO));
        }
        assert(after =~= silence(mix.buffer.len()));
    }
}

/// On silence a fill pass does nothing. Take a scene whose master bus is
/// at rest, and whose voices, once the events are applied, are all quiet
/// at their turn: none at all, or voices that put out zero. Then the pass
/// leaves the buffer silent and the bus at rest.
pub proof fn lemma_fill_keeps_silence(
    scene: Scene,
    f: Arithmetic,
    events: Seq<SynthEvent>,
    len: nat,
)
    requires
        scene.bus.signal_dc == Sample(ZERO),
        keeps_zero(f, scene.stage.rate),
        all_quiet(
            f,
            Mix {
                voices: after_events(scene.voices, events),
                arena: scene.arena,
                buffer: silence(len),
            },
            scene.stage,
            scene.voices.len(),
        ),
    ensures
        scene.filled(f, events, len).1 == silence(len),
        scene.filled(f, events, len).0.voices.len() == scene.voices.len(),
        scene.filled(f, events, len).0.stage == scene.stage,
        scene.filled(f, events, len).0.bus.signal_dc == Sample(ZERO),
{
    lemma_after_events_len(scene.voices, events);
    let mix = Mix {
        voices: after_events(scene.voices, events),
        arena: scene.arena,
        buffer: silence(len),
    };
    lemma_rendered_quiet(f, mix, scene.stage, scene.voices.len());
    lemma_rendered_shape(f, mix, scene.stage, scene.voices.len());
    lemma_bus_keeps_silence(scene.bus, f, silence(len), scene.stage.rate);
}

/// The synths that sound, and the state of the master bus.
pub struct SharedContext {
    /// The active synths. They are evaluated in this order.
    pub synths: Vec<Synth>,
    /// The level follower of the master bus.
    pub envelope: Sample,
    /// The moving average of the master bus.
    pub signal_dc: Sample,
    pub evaluation_ctx: EvaluationContext,
    /// Smoothed time that a fill pass takes, in microseconds.
    pub average_fill_time: Sample,
}

impl View for SharedContext {
    type V = Scene;

    open spec fn view(&self) -> Scene {
        Scene {
            voices: voices(self.synths@),
            arena: self.evaluation_ctx.sample_arena@,
            stage: self.evaluation_ctx.stage(),
            bus: self.bus(),
            average_fill_time: self.average_fill_time,
        }
    }
}

impl SharedContext {
    /// The state of the master bus.
    pub open spec fn bus(&self) -> Bus {
        Bus { signal_dc: self.signal_dc, envelope: self.envelope }
    }

    /// No synth, the follower at 1000, and a context at 22050 samples per
    /// second.
    pub fn new<K: Fn(Op) -> Sample>(k: &K) -> (shared: Self)
        requires
            total(k),
        ensures
            shared.synths@.len() == 0,
            shared.envelope == Sample(INITIAL_ENVELOPE),
            shared.signal_dc == Sample(ZERO),
            shared.average_fill_time == Sample(ZERO),
            shared.evaluation_ctx.sample_rate == Sample(INITIAL_SAMPLE_RATE),
            functional(k) ==> shared.evaluation_ctx.sample_dt == graph(k)(
                Op::Div(Sample(ONE), Sample(INITIAL_SAMPLE_RATE)),
            ),
            shared.evaluation_ctx.sample_arena@.len() == 0,
            shared.evaluation_ctx.shared_buffers@.len() == 0,
    {
        SharedContext {
            synths: Vec::new(),
            envelope: Sample(INITIAL_ENVELOPE),
            signal_dc: Sample(ZERO),
            evaluation_ctx: EvaluationContext::new(Sample(INITIAL_SAMPLE_RATE), k),
            average_fill_time: Sample(ZERO),
        }
    }

    /// Every synth can be evaluated.
    pub open spec fn ready(&self) -> bool {
        self@.ready()
    }

    /// Whether every synth can be evaluated.
    pub fn is_ready(&self) -> (ok: bool)
        ensures
            ok == self.ready(),
    {
        let mut i: usize = 0;
        while i < self.synths.len()
            invariant
                i <= self.synths@.len(),
                forall|j: int|
                    0 <= j < i ==> (#[trigger] self@.voices[j]).playable(self@.arena, self@.stage),
            decreases self.synths@.len() - i,
        {
            if !self.synths[i].is_playable(&self.evaluation_ctx) {
                assert(!self@.voices[i as int].playable(self@.arena, self@.stage));
                return false;
            }
            i = i + 1;
        }
        true
    }

    /// Appends a synth to the active ones and returns its id.
    pub fn push_synth(&mut self, synth: Synth) -> (id: SynthID)
        ensures
            id == synth.id,
            final(self).synths@ == old(self).synths@.push(synth),
            final(self)@ == (Scene { voices: old(self)@.voices.push(synth@), ..old(self)@ }),
            old(self).ready() && synth.playable(&old(self).evaluation_ctx) ==> final(self).ready(),
    {
        let id = synth.id;
        self.synths.push(synth);
        assert(voices(self.synths@) =~= voices(old(self).synths@).push(synth@));
        id
    }

    /// Takes every synth of that id out of the active ones.
    pub fn remove_synth(&mut self, synth_id: SynthID)
        ensures
            final(self)@ == (Scene { voices: without(old(self)@.voices, synth_id), ..old(self)@ }),
            old(self).ready() ==> final(self).ready(),
    {
        let ghost before = self.synths@;
        let ghost mut taken: int = 0;
        let mut i: usize = 0;
        proof {
            assert(voices(before.take(0)) =~= without(voices(before.take(0)), synth_id));
            assert(before.skip(0) =~= before);
            assert forall|j: int| 0 <= j < before.len() implies before.contains(
                #[trigger] before[j],
            ) by {}
        }
        while i < self.synths.len()
            invariant
                0 <= taken,
                i + taken <= before.len(),
                self.synths@.len() + taken == before.len(),
                i <= self.synths@.len(),
                voices(self.synths@.take(i as int)) == without(
                    voices(before.take(i + taken)),
                    synth_id,
                ),
                self.synths@.skip(i as int) == before.skip(i + taken),
                forall|j: int|
                    0 <= j < self.synths@.len() ==> before.contains(#[trigger] self.synths@[j]),
                self.evaluation_ctx == old(self).evaluation_ctx,
                self.envelope == old(self).envelope,
                self.signal_dc == old(self).signal_dc,
                self.average_fill_time == old(self).average_fill_time,
            decreases self.synths@.len() - i,
        {
            let ghost current = self.synths@;
            assert(current[i as int] == current.skip(i as int)[0]);
            assert(before[i + taken] == before.skip(i + taken)[0]);
            assert(voices(before.take(i + taken + 1)).drop_last() =~= voices(
                before.take(i + taken),
            ));
            assert(voices(before.take(i + taken + 1)).last() == before[i + taken]@);
            if self.synths[i].id == synth_id {
                self.synths.remove(i);
                proof {
                    assert(self.synths@.take(i as int) =~= current.take(i as int));
                    assert(self.synths@.skip(i as int) =~= current.skip(i as int).skip(1));
                    assert(before.skip(i + taken).skip(1) =~= before.skip(i + taken + 1));
                    assert forall|j: int| 0 <= j < self.synths@.len() implies before.contains(
                        #[trigger] self.synths@[j],
                    ) by {
                        if j < i {
                            assert(self.synths@[j] == current[j]);
                        } else {
                            assert(self.synths@[j] == current[j + 1]);
                        }
                    }
                    taken = taken + 1;
                }
            } else {
                proof {
                    assert(voices(current.take(i + 1)).drop_last() =~= voices(
                        current.take(i as int),
                    ));
                    assert(voices(current.take(i + 1)) =~= voices(current.take(i as int)).push(
                        current[i as int]@,
                    ));
                    assert(current.skip(i + 1) =~= current.skip(i as int).skip(1));
                    assert(before.skip(i + taken).skip(1) =~= before.skip(i + taken + 1));
                }
                i = i + 1;
            }
        }
        proof {
            assert(self.synths@.take(i as int) =~= self.synths@);
            assert(before.take(i + taken) =~= before);
            if old(self).ready() {
                assert forall|j: int| 0 <= j < self@.voices.len() implies (
                #[trigger] self@.voices[j]).playable(self@.arena, self@.stage) by {
                    assert(before.contains(self.synths@[j]));
                    let o = choose|o: int| 0 <= o < before.len() && before[o] == self.synths@[j];
                    assert(old(self)@.voices[o].playable(old(self)@.arena, old(self)@.stage));
                }
            }
        }
    }

    /// Sets the sample rate, and the sample period to one over the rate.
    pub fn set_sample_rate<K: Fn(Op) -> Sample>(&mut self, sample_rate: Sample, k: &K)
        requires
            total(k),
        ensures
            final(self).evaluation_ctx.sample_rate == sample_rate,
            functional(k) ==> final(self).evaluation_ctx.sample_dt == graph(k)(
                Op::Div(Sample(ONE), sample_rate),
            ),
            final(self).evaluation_ctx.sample_arena == old(self).evaluation_ctx.sample_arena,
            final(self).evaluation_ctx.shared_buffers == old(self).evaluation_ctx.shared_buffers,
            final(self).synths == old(self).synths,
            final(self).bus() == old(self).bus(),
            final(self).average_fill_time == old(self).average_fill_time,
            old(self).ready() ==> final(self).ready(),
    {
        self.evaluation_ctx.sample_rate = sample_rate;
        self.evaluation_ctx.sample_dt = apply(k, Op::Div(Sample(ONE), sample_rate));
        proof {
            if old(self).ready() {
                assert forall|j: int| 0 <= j < self@.voices.len() implies (
                #[trigger] self@.voices[j]).playable(self@.arena, self@.stage) by {
                    lemma_playable_by_lengths(
                        old(self)@.voices[j],
                        self@.voices[j],
                        old(self)@.arena,
                        old(self)@.stage,
                        self@.arena,
                        self@.stage,
                    );
                }
            }
        }
    }

    /// The sample rate.
    pub fn get_sample_rate(&self) -> (rate: Sample)
        ensures
            rate == self.evaluation_ctx.sample_rate,
    {
        self.evaluation_ctx.sample_rate
    }

    /// A new shared buffer that holds `data`.
    pub fn create_shared_buffer(&mut self, data: Vec<Sample>) -> (id: BufferID)
        requires
            old(self).evaluation_ctx.shared_buffers@.len() <= u16::MAX,
        ensures
            id.0 is Shared,
            id.1 == old(self).evaluation_ctx.shared_buffers@.len(),
            final(self)@ == (Scene {
                stage: Stage {
                    shared: old(self)@.stage.shared.push(data@),
                    ..old(self)@.stage
                },
                ..old(self)@
            }),
            final(self).synths == old(self).synths,
            old(self).ready() ==> final(self).ready(),
    {
        self.evaluation_ctx.shared_buffers.push(Buffer { data });
        assert(contents(self.evaluation_ctx.shared_buffers@) =~= contents(
            old(self).evaluation_ctx.shared_buffers@,
        ).push(data@));
        proof {
            if old(self).ready() {
                assert forall|j: int| 0 <= j < self@.voices.len() implies (
                #[trigger] self@.voices[j]).playable(self@.arena, self@.stage) by {
                    lemma_playable_by_lengths(
                        old(self)@.voices[j],
                        self@.voices[j],
                        old(self)@.arena,
                        old(self)@.stage,
                        self@.arena,
                        self@.stage,
                    );
                }
            }
        }
        BufferID(BufferUsageType::Shared, (self.evaluation_ctx.shared_buffers.len() - 1) as u16)
    }

    /// Sets the parameter `id` to `value` in the first synth of the owner's
    /// id, and says whether there was such a parameter. An event for a
    /// synth that is not active, or for a parameter that it does not have,
    /// is dropped.
    pub fn set_parameter(&mut self, id: ParameterID, value: Sample) -> (applied: bool)
        ensures
            applied == target(old(self)@.voices, id).is_some(),
            final(self)@ == (Scene {
                voices: after_event(old(self)@.voices, SynthEvent::SetParam(id, value)),
                ..old(self)@
            }),
            final(self).evaluation_ctx == old(self).evaluation_ctx,
            old(self).ready() ==> final(self).ready(),
    {
        let ghost before = self@.voices;
        let mut i: usize = 0;
        while i < self.synths.len()
            invariant
                i <= self.synths@.len(),
                *self == *old(self),
                before == self@.voices,
                forall|j: int| 0 <= j < i ==> (#[trigger] before[j]).id != id.owner,
            decreases self.synths@.len() - i,
        {
            if self.synths[i].id == id.owner {
                assert(is_first(before, id.owner, i as int));
                let ghost chosen = choose|c: int| is_first(before, id.owner, c);
                assert(chosen == i) by {
                    if chosen < i {
                        assert(before[chosen].id != id.owner);
                    }
                    if i < chosen {
                        assert(before[i as int].id != id.owner);
                    }
                }
                if self.synths[i].has_parameter(id) {
                    self.synths[i].get_parameter(id).set_value(value);
                    proof {
                        assert(self.synths@[i as int]@.parameters =~= before[i as int].parameters.update(
                            id.id as int,
                            value,
                        ));
                        assert(self@.voices =~= after_event(
                            before,
                            SynthEvent::SetParam(id, value),
                        ));
                        if old(self).ready() {
                            assert forall|j: int| 0 <= j < self@.voices.len() implies (
                            #[trigger] self@.voices[j]).playable(self@.arena, self@.stage) by {
                                lemma_playable_by_lengths(
                                    old(self)@.voices[j],
                                    self@.voices[j],
                                    old(self)@.arena,
                                    old(self)@.stage,
                                    self@.arena,
                                    self@.stage,
                                );
                            }
                        }
                    }
                    return true;
                } else {
                    return false;
                }
            }
            i = i + 1;
        }
        proof {
            assert forall|c: int| !is_first(before, id.owner, c) by {
                if 0 <= c < before.len() {
                    assert(before[c].id != id.owner);
                }
            }
        }
        false
    }

    /// Applies a batch of events in order.
    pub fn apply_events(&mut self, events: &Vec<SynthEvent>)
        ensures
            final(self)@ == (Scene {
                voices: after_events(old(self)@.voices, events@),
                ..old(self)@
            }),
            final(self).evaluation_ctx == old(self).evaluation_ctx,
            old(self).ready() ==> final(self).ready(),
    {
        let mut i: usize = 0;
        proof {
            assert(events@.take(0).len() == 0);
        }
        while i < events.len()
            invariant
                i <= events@.len(),
                self@ == (Scene {
                    voices: after_events(old(self)@.voices, events@.take(i as int)),
                    ..old(self)@
                }),
                self.evaluation_ctx == old(self).evaluation_ctx,
                old(self).ready() ==> self.ready(),
            decreases events@.len() - i,
        {
            let SynthEvent::SetParam(id, value) = events[i];
            self.set_parameter(id, value);
            proof {
                assert(events@.take(i + 1).drop_last() =~= events@.take(i as int));
                assert(events@.take(i + 1).last() == events@[i as int]);
            }
            i = i + 1;
        }
        proof {
            assert(events@.take(i as int) =~= events@);
        }
    }

    /// Lets every synth render into `buffer`, in order: each adds its
    /// output, times its gain, to the samples that are there.
    pub fn render<K: Fn(Op) -> Sample>(&mut self, buffer: &mut Buffer, k: &K)
        requires
            total(k),
            old(self).ready(),
        ensures
            final(self).ready(),
            final(self)@.stage == old(self)@.stage,
            final(self)@.bus == old(self)@.bus,
            final(self)@.average_fill_time == old(self)@.average_fill_time,
            final(self)@.voices.len() == old(self)@.voices.len(),
            final(buffer)@.len() == old(buffer)@.len(),
            functional(k) ==> (Mix {
                voices: final(self)@.voices,
                arena: final(self)@.arena,
                buffer: final(buffer)@,
            }) == rendered(
                graph(k),
                Mix { voices: old(self)@.voices, arena: old(self)@.arena, buffer: old(buffer)@ },
                old(self)@.stage,
                old(self)@.voices.len(),
            ),
    {
        let ghost start = Mix {
            voices: self@.voices,
            arena: self@.arena,
            buffer: buffer@,
        };
        let ghost stage = self@.stage;
        let count = self.synths.len();
        let mut i: usize = 0;
        while i < count
            invariant
                total(k),
                i <= count,
                count == start.voices.len(),
                self.synths@.len() == count,
                self.ready(),
                self@.stage == stage,
                stage == old(self)@.stage,
                start == (Mix {
                    voices: old(self)@.voices,
                    arena: old(self)@.arena,
                    buffer: old(buffer)@,
                }),
                self@.bus == old(self)@.bus,
                self@.average_fill_time == old(self)@.average_fill_time,
                buffer@.len() == old(buffer)@.len(),
                forall|j: int| i <= j < count ==> (#[trigger] self@.voices[j]) == start.voices[j],
                functional(k) ==> (Mix {
                    voices: self@.voices,
                    arena: self@.arena,
                    buffer: buffer@,
                }) == rendered(graph(k), start, stage, i as nat),
            decreases count - i,
        {
            let ghost before = self@;
            let ghost list = self.synths@;
            assert(before.voices[i as int].playable(before.arena, before.stage));
            self.synths[i].evaluate_into_buffer(buffer, &mut self.evaluation_ctx, k);
            proof {
                assert forall|j: int| 0 <= j < count && j != i implies (#[trigger] self@.voices[j])
                    == before.voices[j] by {
                    assert(self.synths@[j] == list[j]);
                }
                assert forall|j: int| i < j < count implies (#[trigger] self@.voices[j])
                    == start.voices[j] by {
                    assert(self.synths@[j] == list[j]);
                    assert(before.voices[j] == start.voices[j]);
                }
                lemma_ready_is_playable(self@.voices[i as int], self@.arena, self@.stage);
                assert forall|j: int| 0 <= j < self@.voices.len() implies (
                #[trigger] self@.voices[j]).playable(self@.arena, self@.stage) by {
                    if j != i {
                        assert(self@.voices[j] == before.voices[j]);
                        lemma_playable_by_lengths(
                            before.voices[j],
                            self@.voices[j],
                            before.arena,
                            before.stage,
                            self@.arena,
                            self@.stage,
                        );
                    }
                }
                if functional(k) {
                    lemma_rendered_shape(graph(k), start, stage, i as nat);
                    assert(self@.voices =~= rendered(graph(k), start, stage, (i + 1) as nat).voices);
                }
            }
            i = i + 1;
        }
    }

    /// One fill pass: applies the events, clears the buffer, lets every
    /// synth render into it, and runs the master bus over the sum.
    pub fn fill_buffer<K: Fn(Op) -> Sample>(
        &mut self,
        buffer: &mut Buffer,
        events: &Vec<SynthEvent>,
        k: &K,
    )
        requires
            total(k),
            old(self).ready(),
        ensures
            final(self).ready(),
            final(self)@.stage == old(self)@.stage,
            final(self)@.average_fill_time == old(self)@.average_fill_time,
            final(self)@.voices.len() == old(self)@.voices.len(),
            final(buffer)@.len() == old(buffer)@.len(),
            functional(k) ==> (final(self)@, final(buffer)@) == old(self)@.filled(
                graph(k),
                events@,
                old(buffer)@.len(),
            ),
            functional(k) && holds_level(graph(k)) ==> forall|j: int|
                0 <= j < final(buffer)@.len() ==> within_one(#[trigger] final(buffer)@[j]),
    {
        buffer.clear();
        self.apply_events(events);
        proof {
            lemma_after_events_len(old(self)@.voices, events@);
        }
        self.render(buffer, k);
        let ghost sum = buffer@;
        let ghost middle = self@;
        self.master(buffer, k);
        proof {
            assert(self@.voices == middle.voices);
            assert(self@.arena == middle.arena);
            assert(self@.stage == middle.stage);
        }
    }

    /// Runs the master bus over `buffer`: removes the constant component,
    /// levels, and holds every sample within -1 and 1.
    pub fn master<K: Fn(Op) -> Sample>(&mut self, buffer: &mut Buffer, k: &K)
        requires
            total(k),
        ensures
            final(self).synths == old(self).synths,
            final(self).evaluation_ctx == old(self).evaluation_ctx,
            final(self).average_fill_time == old(self).average_fill_time,
            final(buffer)@.len() == old(buffer)@.len(),
            old(self).ready() ==> final(self).ready(),
            functional(k) ==> final(self).bus() == old(self).bus().after(
                graph(k),
                old(buffer)@,
                old(self).evaluation_ctx.sample_rate,
                old(buffer)@.len(),
            ),
            functional(k) ==> final(buffer)@ == old(self).bus().output(
                graph(k),
                old(buffer)@,
                old(self).evaluation_ctx.sample_rate,
            ),
            functional(k) && holds_level(graph(k)) ==> forall|j: int|
                0 <= j < final(buffer)@.len() ==> within_one(#[trigger] final(buffer)@[j]),
            functional(k) && holds_level(graph(k)) && old(buffer)@.len() > 0
                ==> final(self).envelope.greater_eq(Sample(ONE)),
    {
        proof {
            if functional(k) && holds_level(graph(k)) {
                lemma_bus_bounded(
                    self.bus(),
                    graph(k),
                    buffer@,
                    self.evaluation_ctx.sample_rate,
                );
            }
        }
        let sample_rate = self.evaluation_ctx.sample_rate;

        let attack_turn = apply(k, Op::Mul(Sample(ATTACK_TIME), sample_rate));
        let attack_power = apply(k, Op::Div(Sample(MINUS_ONE), attack_turn));
        let attack_rest = apply(k, Op::Exp(attack_power));
        let attack = apply(k, Op::Sub(Sample(ONE), attack_rest));

        let release_turn = apply(k, Op::Mul(Sample(RELEASE_TIME), sample_rate));
        let release_power = apply(k, Op::Div(Sample(MINUS_ONE), release_turn));
        let release_rest = apply(k, Op::Exp(release_power));
        let release = apply(k, Op::Sub(Sample(ONE), release_rest));

        let len = buffer.data.len();
        let mut i: usize = 0;
        while i < len
            invariant
                total(k),
                i <= len,
                len == old(buffer)@.len(),
                buffer@.len() == len,
                self.synths == old(self).synths,
                self.evaluation_ctx == old(self).evaluation_ctx,
                self.average_fill_time == old(self).average_fill_time,
                sample_rate == old(self).evaluation_ctx.sample_rate,
                functional(k) ==> attack == follower_coefficient(
                    graph(k),
                    Sample(ATTACK_TIME),
                    sample_rate,
                ),
                functional(k) ==> release == follower_coefficient(
                    graph(k),
                    Sample(RELEASE_TIME),
                    sample_rate,
                ),
                forall|j: int| i <= j < len ==> buffer@[j] == old(buffer)@[j],
                functional(k) ==> self.bus() == old(self).bus().after(
                    graph(k),
                    old(buffer)@,
                    sample_rate,
                    i as nat,
                ),
                functional(k) ==> forall|j: int|
                    0 <= j < i ==> buffer@[j] == old(self).bus().output(
                        graph(k),
                        old(buffer)@,
                        sample_rate,
                    )[j],
            decreases len - i,
        {
            let sample = buffer.data[i];
            let weight = apply(k, Op::Div(Sample(HALF), sample_rate));
            self.signal_dc = lerp(self.signal_dc, sample, weight, k);
            let rest = apply(k, Op::Sub(sample, self.signal_dc));

            let abs_signal = rest.abs();
            if abs_signal.gt(self.envelope) {
                self.envelope = lerp(self.envelope, abs_signal, attack, k);
            } else {
                self.envelope = lerp(self.envelope, abs_signal, release, k);
            }

            self.envelope = apply(k, Op::Max(self.envelope, Sample(ONE)));
            let scaled = apply(k, Op::Mul(rest, Sample(HEADROOM)));
            let levelled = apply(k, Op::Div(scaled, self.envelope));
            let floored = apply(k, Op::Max(levelled, Sample(MINUS_ONE)));
            buffer.data[i] = apply(k, Op::Min(floored, Sample(ONE)));
            i = i + 1;
        }
        proof {
            if functional(k) {
                assert(buffer@ =~= old(self).bus().output(graph(k), old(buffer)@, sample_rate));
            }
            assert(self@.voices == old(self)@.voices);
            assert(self@.arena == old(self)@.arena);
            assert(self@.stage == old(self)@.stage);
        }
    }

    /// Takes the time that a fill pass took, in microseconds, into the
    /// average, with the weight 0.1.
    pub fn record_fill_time<K: Fn(Op) -> Sample>(&mut self, micros: Sample, k: &K)
        requires
            total(k),
        ensures
            final(self).synths == old(self).synths,
            final(self).evaluation_ctx == old(self).evaluation_ctx,
            final(self).bus() == old(self).bus(),
            functional(k) ==> final(self).average_fill_time == interpolation(
                graph(k),
                old(self).average_fill_time,
                micros,
                Sample(FILL_TIME_WEIGHT),
            ),
    {
        self.average_fill_time = lerp(self.average_fill_time, micros, Sample(FILL_TIME_WEIGHT), k);
    }
}

} // verus!
