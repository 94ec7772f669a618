//! Shared sample buffer: a FIFO queue of PCM samples together with a
//! one-way "producer finished" flag.
//!
//! The producer appends decoded samples with [`LockFreeBuffer::push`] and
//! eventually calls [`LockFreeBuffer::set_done`] exactly once; the consumer
//! drains samples in arrival order with [`LockFreeBuffer::pop`]. The pair
//! ([`BufferModel::samples`], [`BufferModel::done`]) is the buffer's
//! mathematical state, and every operation's contract is stated as a pure
//! transition on that state, so that delivery order and the one-way nature
//! of the flag can be proved once, over the model, for every interleaving
//! of operations.

use vstd::prelude::*;

verus! {

use std::collections::VecDeque;

/// Mathematical state of a [`LockFreeBuffer`]: the pending samples in
/// arrival order, and whether the producer has signalled the end.
#[verifier::ext_equal]
pub struct BufferModel {
    pub samples: Seq<i16>,
    pub done: bool,
}

/// One logical operation on the buffer, as the model sees it.
pub enum BufferOp {
    Push(i16),
    Pop,
    Finish,
}

/// The empty, not-yet-finished state every playback session starts from.
pub open spec fn empty_model() -> BufferModel {
    BufferModel { samples: Seq::empty(), done: false }
}

/// State after appending one sample at the tail.
pub open spec fn model_push(m: BufferModel, s: i16) -> BufferModel {
    BufferModel { samples: m.samples.push(s), done: m.done }
}

/// State and output of removing the head sample, if any.
pub open spec fn model_pop(m: BufferModel) -> (BufferModel, Option<i16>) {
    if m.samples.len() > 0 {
        (BufferModel { samples: m.samples.drop_first(), done: m.done }, Some(m.samples[0]))
    } else {
        (m, None)
    }
}

/// State after the producer signals that no further samples will arrive.
pub open spec fn model_finish(m: BufferModel) -> BufferModel {
    BufferModel { samples: m.samples, done: true }
}

/// FIFO queue of samples plus the producer-finished flag.
///
/// This is the sole synchronization point between the network-reading
/// producer and the real-time consumer; callers that share it across
/// threads wrap it in their own mutual-exclusion primitive and perform one
/// operation per critical section.
pub struct LockFreeBuffer {
    data: VecDeque<i16>,
    done: bool,
}

impl View for LockFreeBuffer {
    type V = BufferModel;

    closed spec fn view(&self) -> BufferModel {
        BufferModel { samples: self.data@, done: self.done }
    }
}

impl LockFreeBuffer {
    /// Creates an empty buffer with the finished flag clear.
    pub fn new() -> (buf: Self)
        ensures
            buf@ == empty_model(),
    {
        let buf = LockFreeBuffer { data: VecDeque::new(), done: false };
        proof {
            assert(buf@ =~= empty_model());
        }
        buf
    }

    /// Appends one sample at the tail; pending samples and the finished
    /// flag otherwise keep their values.
    pub fn push(&mut self, sample: i16)
        ensures
            final(self)@ == model_push(old(self)@, sample),
            old(self)@.done ==> final(self)@.done,
    {
        self.data.push_back(sample);
        proof {
            assert(self@ =~= model_push(old(self)@, sample));
        }
    }

    /// Removes and returns the head sample, or reports that the buffer is
    /// empty right now; the finished flag keeps its value either way.
    pub fn pop(&mut self) -> (sample: Option<i16>)
        ensures
            final(self)@ == model_pop(old(self)@).0,
            sample == model_pop(old(self)@).1,
            old(self)@.samples.len() > 0 ==> sample == Some(old(self)@.samples[0])
                && final(self)@.samples == old(self)@.samples.drop_first(),
            old(self)@.samples.len() == 0 ==> sample is None && final(self)@ == old(self)@,
            old(self)@.done ==> final(self)@.done,
    {
        let sample = self.data.pop_front();
        proof {
            assert(self@ =~= model_pop(old(self)@).0);
            assert(old(self)@.samples.len() > 0 ==> self@.samples =~= old(
                self,
            )@.samples.drop_first());
        }
        sample
    }

    /// Number of samples currently pending.
    pub fn len(&self) -> (n: usize)
        ensures
            n == self@.samples.len(),
    {
        self.data.len()
    }

    /// True once [`LockFreeBuffer::set_done`] has been called.
    pub fn is_done(&self) -> (done: bool)
        ensures
            done == self@.done,
    {
        self.done
    }

    /// Sets the finished flag; pending samples are untouched, so anything
    /// pushed before this call is still delivered by later pops.
    pub fn set_done(&mut self)
        ensures
            final(self)@ == model_finish(old(self)@),
            final(self)@.done,
            final(self)@.samples == old(self)@.samples,
    {
        self.done = true;
        proof {
            assert(self@ =~= model_finish(old(self)@));
        }
    }
}

/// State after one operation.
pub open spec fn step_state(m: BufferModel, op: BufferOp) -> BufferModel {
    match op {
        BufferOp::Push(s) => model_push(m, s),
        BufferOp::Pop => model_pop(m).0,
        BufferOp::Finish => model_finish(m),
    }
}

/// Samples an operation hands to the consumer (empty unless it is a pop
/// that found the buffer non-empty).
pub open spec fn step_output(m: BufferModel, op: BufferOp) -> Seq<i16> {
    match op {
        BufferOp::Pop => if m.samples.len() > 0 {
            seq![m.samples[0]]
        } else {
            Seq::empty()
        },
        _ => Seq::empty(),
    }
}

/// State after a whole sequence of operations.
pub open spec fn apply_ops(m: BufferModel, ops: Seq<BufferOp>) -> BufferModel
    decreases ops.len(),
{
    if ops.len() == 0 {
        m
    } else {
        apply_ops(step_state(m, ops[0]), ops.drop_first())
    }
}

/// All samples a sequence of operations hands to the consumer, in order.
pub open spec fn outputs_of(m: BufferModel, ops: Seq<BufferOp>) -> Seq<i16>
    decreases ops.len(),
{
    if ops.len() == 0 {
        Seq::empty()
    } else {
        step_output(m, ops[0]) + outputs_of(step_state(m, ops[0]), ops.drop_first())
    }
}

/// All samples a sequence of operations pushes, in order.
pub open spec fn pushes_of(ops: Seq<BufferOp>) -> Seq<i16>
    decreases ops.len(),
{
    if ops.len() == 0 {
        Seq::empty()
    } else {
        (match ops[0] {
            BufferOp::Push(s) => seq![s],
            _ => Seq::<i16>::empty(),
        }) + pushes_of(ops.drop_first())
    }
}

/// State after pushing a whole sequence of samples.
pub open spec fn push_all(m: BufferModel, ps: Seq<i16>) -> BufferModel
    decreases ps.len(),
{
    if ps.len() == 0 {
        m
    } else {
        push_all(model_push(m, ps[0]), ps.drop_first())
    }
}

/// The samples a consumer receives by popping until the buffer is empty.
pub open spec fn drain(m: BufferModel) -> Seq<i16>
    decreases m.samples.len(),
{
    if m.samples.len() > 0 {
        seq![m.samples[0]] + drain(model_pop(m).0)
    } else {
        Seq::empty()
    }
}

/// Pushing a sequence appends exactly that sequence at the tail and leaves
/// the finished flag alone.
pub proof fn lemma_push_all(m: BufferModel, ps: Seq<i16>)
    ensures
        push_all(m, ps).samples =~= m.samples + ps,
        push_all(m, ps).done == m.done,
    decreases ps.len(),
{
    if ps.len() > 0 {
        lemma_push_all(model_push(m, ps[0]), ps.drop_first());
        assert(m.samples.push(ps[0]) + ps.drop_first() =~= m.samples + ps);
    }
}

/// Draining returns exactly the pending samples, in order.
pub proof fn lemma_drain(m: BufferModel)
    ensures
        drain(m) =~= m.samples,
    decreases m.samples.len(),
{
    if m.samples.len() > 0 {
        lemma_drain(model_pop(m).0);
    }
}

/// First-in first-out delivery: after pushing samples `ps` into a fresh
/// buffer and marking it finished, popping until empty yields exactly `ps`
/// in order, and from then on every pop returns `None` and changes
/// nothing.
pub proof fn lemma_fifo_delivery(ps: Seq<i16>)
    ensures
        drain(model_finish(push_all(empty_model(), ps))) =~= ps,
        forall|m: BufferModel|
            m.samples.len() == 0 ==> #[trigger] model_pop(m) == (m, None::<i16>),
{
    lemma_push_all(empty_model(), ps);
    lemma_drain(model_finish(push_all(empty_model(), ps)));
    assert(model_finish(push_all(empty_model(), ps)).samples =~= ps);
}

/// The finished flag is one-way: no operation ever clears it.
pub proof fn lemma_done_is_monotone(m: BufferModel, op: BufferOp)
    ensures
        m.done ==> step_state(m, op).done,
{
}

/// Under any interleaving of pushes, pops and the finish signal, the
/// samples already handed out followed by the samples still pending are
/// exactly the initial contents followed by everything pushed, in order:
/// nothing is skipped, duplicated, or reordered.
pub proof fn lemma_interleaving_keeps_order(m: BufferModel, ops: Seq<BufferOp>)
    ensures
        outputs_of(m, ops) + apply_ops(m, ops).samples =~= m.samples + pushes_of(ops),
    decreases ops.len(),
{
    if ops.len() > 0 {
        let m1 = step_state(m, ops[0]);
        lemma_interleaving_keeps_order(m1, ops.drop_first());
        match ops[0] {
            BufferOp::Push(s) => {
                assert(outputs_of(m, ops) =~= outputs_of(m1, ops.drop_first()));
                assert(m.samples.push(s) + pushes_of(ops.drop_first()) =~= m.samples + pushes_of(
                    ops,
                ));
            },
            BufferOp::Pop => {
                if m.samples.len() > 0 {
                    assert(seq![m.samples[0]] + m1.samples =~= m.samples);
                    assert(seq![m.samples[0]] + (outputs_of(m1, ops.drop_first()) + apply_ops(
                        m1,
                        ops.drop_first(),
                    ).samples) =~= outputs_of(m, ops) + apply_ops(m, ops).samples);
                }
            },
            BufferOp::Finish => {},
        }
    }
}

} // verus!
