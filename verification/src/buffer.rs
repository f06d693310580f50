//! Sample buffers, and the readers that walk them.
use vstd::prelude::*;
use crate::context::EvaluationContext;
use crate::sample::{Sample, ZERO};

verus! {

/// Whether a buffer belongs to one synth or to all of them.
#[derive(Clone, Copy, Debug)]
pub enum BufferUsageType {
    Local,
    Shared,
}

/// Names a buffer: its kind, and its place among the buffers of that kind.
#[derive(Clone, Copy, Debug)]
pub struct BufferID(pub BufferUsageType, pub u16);

/// Order of the four bytes of a sample in a byte stream.
#[derive(Clone, Copy, Debug)]
pub enum ByteOrder {
    /// Least significant byte first.
    LittleEndian,
    /// Most significant byte first.
    BigEndian,
}

/// An owned, resizable sequence of samples.
#[derive(Clone, Debug)]
pub struct Buffer {
    pub data: Vec<Sample>,
}

impl View for Buffer {
    type V = Seq<Sample>;

    open spec fn view(&self) -> Seq<Sample> {
        self.data@
    }
}

/// The four bytes of a sample, least significant first.
pub open spec fn low_first(s: Sample) -> Seq<u8> {
    seq![
        (s.0 % 256) as u8,
        ((s.0 / 0x100) % 256) as u8,
        ((s.0 / 0x1_0000) % 256) as u8,
        ((s.0 / 0x100_0000) % 256) as u8,
    ]
}

/// The four bytes of a sample in the given order.
pub open spec fn sample_bytes(s: Sample, order: ByteOrder) -> Seq<u8> {
    match order {
        ByteOrder::LittleEndian => low_first(s),
        ByteOrder::BigEndian => low_first(s).reverse(),
    }
}

/// `count` samples of silence.
pub open spec fn silence(count: nat) -> Seq<Sample> {
    Seq::new(count, |i: int| Sample(ZERO))
}

fn bytes_of(s: Sample, order: ByteOrder) -> (r: [u8; 4])
    ensures
        r@ == sample_bytes(s, order),
{
    let b0: u8 = (s.0 % 256) as u8;
    let b1: u8 = ((s.0 / 0x100) % 256) as u8;
    let b2: u8 = ((s.0 / 0x1_0000) % 256) as u8;
    let b3: u8 = ((s.0 / 0x100_0000) % 256) as u8;
    match order {
        ByteOrder::LittleEndian => {
            let r = [b0, b1, b2, b3];
            assert(r@ =~= low_first(s));
            r
        },
        ByteOrder::BigEndian => {
            let r = [b3, b2, b1, b0];
            assert(r@ =~= low_first(s).reverse());
            r
        },
    }
}

impl Buffer {
    /// A buffer of `buffer_size` samples of silence.
    pub fn new(buffer_size: usize) -> (b: Buffer)
        ensures
            b@ == silence(buffer_size as nat),
    {
        let mut data: Vec<Sample> = Vec::new();
        let mut i: usize = 0;
        while i < buffer_size
            invariant
                i <= buffer_size,
                data@ == silence(i as nat),
            decreases buffer_size - i,
        {
            data.push(Sample(ZERO));
            i = i + 1;
            assert(data@ =~= silence(i as nat));
        }
        Buffer { data }
    }

    /// Cuts the buffer to `buffer_size` samples, or fills it up to that
    /// length with silence. Samples that stay keep their values.
    pub fn resize(&mut self, buffer_size: usize)
        ensures
            final(self)@.len() == buffer_size,
            forall|i: int|
                0 <= i < buffer_size && i < old(self)@.len() ==> final(self)@[i] == old(self)@[i],
            forall|i: int| old(self)@.len() <= i < buffer_size ==> final(self)@[i] == Sample(ZERO),
    {
        self.data.truncate(buffer_size);
        while self.data.len() < buffer_size
            invariant
                self.data@.len() <= buffer_size,
                old(self)@.len() <= self.data@.len() || self.data@.len() == buffer_size,
                forall|i: int|
                    0 <= i < self.data@.len() && i < old(self)@.len() ==> self.data@[i] == old(
                        self,
                    )@[i],
                forall|i: int|
                    old(self)@.len() <= i < self.data@.len() ==> self.data@[i] == Sample(ZERO),
            decreases buffer_size - self.data@.len(),
        {
            self.data.push(Sample(ZERO));
        }
    }

    /// Overwrites every sample with silence; the length stays.
    pub fn clear(&mut self)
        ensures
            final(self)@ == silence(old(self)@.len()),
    {
        let n = self.data.len();
        let mut i: usize = 0;
        while i < n
            invariant
                i <= n,
                self.data@.len() == n,
                forall|j: int| 0 <= j < i ==> self.data@[j] == Sample(ZERO),
            decreases n - i,
        {
            self.data[i] = Sample(ZERO);
            i = i + 1;
        }
        assert(self.data@ =~= silence(n as nat));
    }

    /// Number of samples.
    pub fn len(&self) -> (n: usize)
        ensures
            n == self@.len(),
    {
        self.data.len()
    }

    /// How many whole items of `width` bytes go from a buffer of `samples`
    /// samples into `room` bytes.
    pub open spec fn fitting(samples: nat, room: nat, width: nat) -> nat {
        if samples <= room / width {
            samples
        } else {
            room / width
        }
    }

    /// Writes the leading samples to `dst`, four bytes each, as many as fit
    /// whole, and returns their number. The rest of `dst` stays.
    pub fn copy_to(&self, dst: &mut [u8], order: ByteOrder) -> (written: usize)
        ensures
            written == Self::fitting(self@.len(), old(dst)@.len(), 4),
            final(dst)@.len() == old(dst)@.len(),
            forall|i: int, j: int|
                0 <= i < written && 0 <= j < 4 ==> #[trigger] final(dst)@[4 * i + j]
                    == sample_bytes(self@[i], order)[j],
            forall|b: int| 4 * written <= b < old(dst)@.len() ==> final(dst)@[b] == old(dst)@[b],
    {
        let room = dst.len() / 4;
        let count = if self.data.len() <= room {
            self.data.len()
        } else {
            room
        };
        let mut i: usize = 0;
        while i < count
            invariant
                i <= count,
                count <= self.data@.len(),
                4 * count <= dst@.len(),
                dst@.len() == old(dst)@.len(),
                dst@.len() <= usize::MAX,
                forall|p: int, j: int|
                    0 <= p < i && 0 <= j < 4 ==> #[trigger] dst@[4 * p + j] == sample_bytes(
                        self@[p],
                        order,
                    )[j],
                forall|b: int| 4 * i <= b < dst@.len() ==> dst@[b] == old(dst)@[b],
            decreases count - i,
        {
            let bytes = bytes_of(self.data[i], order);
            let base = 4 * i;
            dst[base] = bytes[0];
            dst[base + 1] = bytes[1];
            dst[base + 2] = bytes[2];
            dst[base + 3] = bytes[3];
            i = i + 1;
        }
        count
    }

    /// Writes the leading samples to `dst` as frames of two equal channels,
    /// eight bytes each, as many as fit whole, and returns their number.
    pub fn copy_to_stereo(&self, dst: &mut [u8], order: ByteOrder) -> (written: usize)
        ensures
            written == Self::fitting(self@.len(), old(dst)@.len(), 8),
            final(dst)@.len() == old(dst)@.len(),
            forall|i: int, j: int|
                0 <= i < written && 0 <= j < 4 ==> #[trigger] final(dst)@[8 * i + j]
                    == sample_bytes(self@[i], order)[j],
            forall|i: int, j: int|
                0 <= i < written && 0 <= j < 4 ==> #[trigger] final(dst)@[8 * i + 4 + j]
                    == sample_bytes(self@[i], order)[j],
            forall|b: int| 8 * written <= b < old(dst)@.len() ==> final(dst)@[b] == old(dst)@[b],
    {
        let room = dst.len() / 8;
        let count = if self.data.len() <= room {
            self.data.len()
        } else {
            room
        };
        let mut i: usize = 0;
        while i < count
            invariant
                i <= count,
                count <= self.data@.len(),
                8 * count <= dst@.len(),
                dst@.len() == old(dst)@.len(),
                dst@.len() <= usize::MAX,
                forall|p: int, j: int|
                    0 <= p < i && 0 <= j < 4 ==> #[trigger] dst@[8 * p + j] == sample_bytes(
                        self@[p],
                        order,
                    )[j],
                forall|p: int, j: int|
                    0 <= p < i && 0 <= j < 4 ==> #[trigger] dst@[8 * p + 4 + j] == sample_bytes(
                        self@[p],
                        order,
                    )[j],
                forall|b: int| 8 * i <= b < dst@.len() ==> dst@[b] == old(dst)@[b],
            decreases count - i,
        {
            let bytes = bytes_of(self.data[i], order);
            let base = 8 * i;
            dst[base] = bytes[0];
            dst[base + 1] = bytes[1];
            dst[base + 2] = bytes[2];
            dst[base + 3] = bytes[3];
            dst[base + 4] = bytes[0];
            dst[base + 5] = bytes[1];
            dst[base + 6] = bytes[2];
            dst[base + 7] = bytes[3];
            i = i + 1;
        }
        count
    }
}

/// The contents of a list of buffers.
pub open spec fn contents(buffers: Seq<Buffer>) -> Seq<Seq<Sample>> {
    Seq::new(buffers.len(), |i: int| buffers[i]@)
}

/// The buffers that a reader may name, as plain values.
pub struct Shelf {
    /// Buffers of the synth that is being evaluated.
    pub local: Seq<Seq<Sample>>,
    /// Buffers that all synths see.
    pub shared: Seq<Seq<Sample>>,
}

impl Shelf {
    /// The shelf has a buffer of that name.
    pub open spec fn holds(self, id: BufferID) -> bool {
        match id.0 {
            BufferUsageType::Local => id.1 < self.local.len(),
            BufferUsageType::Shared => id.1 < self.shared.len(),
        }
    }

    /// The samples of the buffer of that name.
    pub open spec fn content(self, id: BufferID) -> Seq<Sample> {
        match id.0 {
            BufferUsageType::Local => self.local[id.1 as int],
            BufferUsageType::Shared => self.shared[id.1 as int],
        }
    }
}

/// The buffers that a reader may name.
#[derive(Clone, Copy)]
pub struct SamplerContext<'eval_ctx, 'synth> {
    pub eval_ctx: &'eval_ctx EvaluationContext,
    pub local_buffers: &'synth Vec<Buffer>,
}

impl<'e, 's> View for SamplerContext<'e, 's> {
    type V = Shelf;

    open spec fn view(&self) -> Shelf {
        Shelf {
            local: contents(self.local_buffers@),
            shared: contents(self.eval_ctx.shared_buffers@),
        }
    }
}

impl<'e, 's> SamplerContext<'e, 's> {
    /// The buffer of that name: a local one from the synth, a shared one
    /// from the evaluation context.
    pub fn get_buffer(&self, id: BufferID) -> (b: &Buffer)
        requires
            self@.holds(id),
        ensures
            b@ == self@.content(id),
    {
        let BufferID(usage, id) = id;
        let idx = id as usize;

        match usage {
            BufferUsageType::Local => &self.local_buffers[idx],
            BufferUsageType::Shared => &self.eval_ctx.shared_buffers[idx],
        }
    }
}

/// A reader that holds its place in a buffer until it is told to move.
#[derive(Clone, Copy, Debug)]
pub struct Sequencer {
    pub buffer_id: BufferID,
    pub position: usize,
}

impl Sequencer {
    /// A reader at the start of the buffer.
    pub fn new(buffer_id: BufferID) -> (s: Self)
        ensures
            s == (Sequencer { buffer_id, position: 0 }),
    {
        Sequencer { buffer_id, position: 0 }
    }

    /// Back to the start.
    pub fn reset(&mut self)
        ensures
            *final(self) == (Sequencer { buffer_id: old(self).buffer_id, position: 0 }),
    {
        self.position = 0;
    }

    /// The reader one step on in a buffer of `len` samples: after the last
    /// sample comes the first.
    pub open spec fn stepped(self, len: nat) -> Sequencer {
        Sequencer {
            buffer_id: self.buffer_id,
            position: ((self.position + 1) % (len as int)) as usize,
        }
    }

    /// The reader `times` steps on in a buffer of `len` samples.
    pub open spec fn stepped_by(self, len: nat, times: nat) -> Sequencer
        decreases times,
    {
        if times == 0 {
            self
        } else {
            self.stepped_by(len, (times - 1) as nat).stepped(len)
        }
    }

    /// The reader can take a sample from `shelf`: its buffer is there and its
    /// place is inside it. Then the buffer is not empty.
    pub open spec fn ready(self, shelf: Shelf) -> bool {
        shelf.holds(self.buffer_id) && self.position < shelf.content(self.buffer_id).len()
    }

    /// Whether the reader can take a sample: its buffer is there and its
    /// place is inside it.
    pub fn fits(&self, ctx: SamplerContext) -> (ok: bool)
        ensures
            ok == self.ready(ctx@),
    {
        let BufferID(usage, id) = self.buffer_id;
        let idx = id as usize;
        match usage {
            BufferUsageType::Local => {
                idx < ctx.local_buffers.len() && self.position < ctx.local_buffers[idx].len()
            },
            BufferUsageType::Shared => {
                idx < ctx.eval_ctx.shared_buffers.len() && self.position
                    < ctx.eval_ctx.shared_buffers[idx].len()
            },
        }
    }

    /// Moves one sample on, from the last sample to the first.
    pub fn advance(&mut self, ctx: SamplerContext)
        requires
            ctx@.holds(old(self).buffer_id),
            ctx@.content(old(self).buffer_id).len() > 0,
        ensures
            *final(self) == old(self).stepped(ctx@.content(old(self).buffer_id).len()),
    {
        let buffer = ctx.get_buffer(self.buffer_id);
        let num_samples = buffer.len();
        proof {
            vstd::arithmetic::div_mod::lemma_add_mod_noop(
                self.position as int,
                1,
                num_samples as int,
            );
            if num_samples > 1 {
                vstd::arithmetic::div_mod::lemma_small_mod(1, num_samples as nat);
            }
        }
        self.position = (self.position % num_samples + 1) % num_samples;
    }

    /// The sample at the reader's place. The reader does not move.
    pub fn sample(&mut self, ctx: SamplerContext) -> (v: Sample)
        requires
            old(self).ready(ctx@),
        ensures
            v == ctx@.content(old(self).buffer_id)[old(self).position as int],
            *final(self) == *old(self),
    {
        let buffer = ctx.get_buffer(self.buffer_id);
        buffer.data[self.position]
    }
}

/// A reader that moves one sample on with every sample it takes.
#[derive(Clone, Copy, Debug)]
pub struct BufferSampler(pub Sequencer);

impl BufferSampler {
    /// A reader at the start of the buffer.
    pub fn new(buffer_id: BufferID) -> (s: Self)
        ensures
            s == BufferSampler(Sequencer { buffer_id, position: 0 }),
    {
        BufferSampler(Sequencer::new(buffer_id))
    }

    /// Back to the start.
    pub fn reset(&mut self)
        ensures
            *final(self) == BufferSampler(
                Sequencer { buffer_id: old(self).0.buffer_id, position: 0 },
            ),
    {
        self.0.reset();
    }

    /// The sample at the reader's place; the reader then moves one sample on.
    pub fn sample(&mut self, ctx: SamplerContext) -> (v: Sample)
        requires
            old(self).0.ready(ctx@),
        ensures
            v == ctx@.content(old(self).0.buffer_id)[old(self).0.position as int],
            final(self).0 == old(self).0.stepped(ctx@.content(old(self).0.buffer_id).len()),
            final(self).0.ready(ctx@),
    {
        let sample = self.0.sample(ctx);
        self.0.advance(ctx);
        sample
    }
}

/// A reader inside a buffer of `len` samples stays inside it, and after
/// `times` steps stands at `(position + times) % len`.
pub proof fn lemma_stepped_by(s: Sequencer, len: nat, times: nat)
    requires
        s.position < len,
        len <= usize::MAX,
    ensures
        s.stepped_by(len, times).buffer_id == s.buffer_id,
        s.stepped_by(len, times).position == (s.position + times) % (len as int),
    decreases times,
{
    if times == 0 {
        vstd::arithmetic::div_mod::lemma_small_mod(s.position as nat, len);
    } else {
        let before = s.stepped_by(len, (times - 1) as nat);
        lemma_stepped_by(s, len, (times - 1) as nat);
        vstd::arithmetic::div_mod::lemma_add_mod_noop(s.position + times - 1, 1, len as int);
        vstd::arithmetic::div_mod::lemma_mod_bound(before.position + 1, len as int);
        if len == 1 {
        } else {
            vstd::arithmetic::div_mod::lemma_small_mod(1, len);
        }
        vstd::arithmetic::div_mod::lemma_mod_twice(before.position + 1, len as int);
    }
}

/// Wraparound: a reader that has taken as many steps as its buffer has
/// samples is back where it started.
pub proof fn lemma_full_round(s: Sequencer, len: nat)
    requires
        s.position < len,
        len <= usize::MAX,
    ensures
        s.stepped_by(len, len) == s,
{
    lemma_stepped_by(s, len, len);
    vstd::arithmetic::div_mod::lemma_mod_add_multiples_vanish(s.position as int, len as int);
    vstd::arithmetic::div_mod::lemma_small_mod(s.position as nat, len);
}

} // verus!
