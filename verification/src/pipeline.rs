//! The transfer pipeline: the fill, submit and reclaim cycle over the two
//! slots of the pool.
//!
//! The pipeline does no transfer itself. Each call tells the caller the
//! one thing the transfer engine is to do next, and the caller reports how
//! that went with the next call. Between a submission and the wait for it
//! the pipeline fills the other slot, so that software fills one chunk
//! while the hardware drains the one before.
//!
//! The engine is held by the pipeline or by the one transfer in flight,
//! never by both: `in_flight` says which.

use crate::encoder::{words_to_bytes, WordEncoder};
use crate::error::{Error, TransferFault};
use crate::payload::{fill_slot, gave_up, PendingPayload};
use crate::planner::{
    ends_on_full_chunk, first_limit, later_limit, lemma_split_append, next_chunk_capacity, next_limit,
    split, whole_word_limit,
};
use crate::pool::{other_slot, BufferPool, MIN_SLOT_CAPACITY};
use crate::slot::SlotState;
use vstd::prelude::*;
use vstd::std_specs::iter::IteratorSpec;

verus! {

/// Where the pipeline stands within a logical send.
#[derive(Clone, Copy, Debug, PartialEq, Eq, Structural)]
pub enum Phase {
    /// No step of a send is awaited.
    Idle,
    /// A chunk is filled and handed out for submission; the engine's
    /// answer is awaited.
    Filling,
    /// A transfer is in flight and the next chunk is filled; the end of
    /// the transfer is awaited.
    Submitted,
    /// A transfer is in flight and nothing more is to follow it; its end
    /// is awaited.
    Draining,
}

/// What the transfer engine is to do next.
#[derive(Clone, Copy, Debug, PartialEq, Eq)]
pub enum Step {
    /// Begin a one-way write of the `len` bytes that slot `slot` holds.
    Submit { slot: usize, len: usize },
    /// Wait until the transfer in flight is over.
    Wait,
    /// Nothing: the pipeline is done with the send, with this result.
    Finished(Result<(), Error>),
}

/// What a fill of the next slot came to.
#[derive(Clone, Copy, Debug, PartialEq, Eq, Structural)]
pub enum Staged {
    /// The slot holds a chunk of this many bytes.
    Chunk(usize),
    /// The source had no more; the slot is free again.
    Dry,
    /// The payload is not of the shape the send began with.
    Rejected,
}

/// The pipeline with its pool of two slots.
pub struct TransferPipeline {
    encoder: WordEncoder,
    pool: BufferPool,
    capacity: usize,
    hint: usize,
    unit: usize,
    phase: Phase,
    in_flight: Option<usize>,
    staged: Option<usize>,
    next: usize,
    restart: bool,
    first: bool,
    exhausted: bool,
    cursor: usize,
    verdict: Result<(), Error>,
    consumed: Ghost<Seq<u8>>,
    chunks: Ghost<Seq<Seq<u8>>>,
    handed: Ghost<nat>,
}

impl TransferPipeline {
    /// The encoder that lays out the words.
    pub closed spec fn encoder(&self) -> WordEncoder {
        self.encoder
    }

    /// The pool of slots.
    pub closed spec fn pool(&self) -> BufferPool {
        self.pool
    }

    /// The capacity of each slot.
    pub closed spec fn capacity(&self) -> nat {
        self.capacity as nat
    }

    /// The hint: an estimate of the byte count of an operation.
    pub closed spec fn hint(&self) -> nat {
        self.hint as nat
    }

    /// The count of bytes of one word of the send: 1 or 2.
    pub closed spec fn unit(&self) -> nat {
        self.unit as nat
    }

    /// Where the pipeline stands.
    pub closed spec fn phase(&self) -> Phase {
        self.phase
    }

    /// The slot that the transfer in flight owns; `None` while the
    /// pipeline holds the engine.
    pub closed spec fn in_flight(&self) -> Option<usize> {
        self.in_flight
    }

    /// The slot that holds a filled chunk which no transfer owns yet.
    pub closed spec fn staged(&self) -> Option<usize> {
        self.staged
    }

    /// Whether a transfer left over from an earlier send is being waited
    /// for before this send's first chunk.
    pub closed spec fn restarting(&self) -> bool {
        self.restart
    }

    /// Whether the source of the send was seen to have no more.
    pub closed spec fn exhausted(&self) -> bool {
        self.exhausted
    }

    /// The count of words taken so far from a payload that lies in memory.
    pub closed spec fn cursor(&self) -> nat {
        self.cursor as nat
    }

    /// The result of the send as far as it has come.
    pub closed spec fn verdict(&self) -> Result<(), Error> {
        self.verdict
    }

    /// The wire bytes taken from the payload so far in this send.
    pub closed spec fn consumed(&self) -> Seq<u8> {
        self.consumed@
    }

    /// The chunks filled so far in this send.
    pub closed spec fn chunks(&self) -> Seq<Seq<u8>> {
        self.chunks@
    }

    /// The chunks that the engine has accepted so far in this send, in
    /// their order.
    pub closed spec fn transferred(&self) -> Seq<Seq<u8>> {
        self.chunks@.take(self.handed@ as int)
    }

    /// The limit of the first chunk of the send.
    pub open spec fn first_limit(&self) -> nat {
        first_limit(self.capacity(), self.hint(), self.unit())
    }

    /// The limit of every later chunk of the send.
    pub open spec fn later_limit(&self) -> nat {
        later_limit(self.capacity(), self.unit())
    }

    /// The limit of the chunk that is filled next.
    pub open spec fn fill_limit(&self) -> nat {
        next_limit(self.consumed().len(), self.first_limit(), self.later_limit())
    }

    /// The slot that is filled next.
    pub closed spec fn next_slot(&self) -> usize {
        self.next
    }

    /// The phase in which a fill leaves the pipeline: with a chunk staged
    /// it awaits the engine's answer to a submission, or the end of the
    /// transfer in flight; with none it drains that transfer or is idle.
    pub open spec fn phase_after_fill(&self, staged: bool) -> Phase {
        if staged {
            if self.in_flight() is Some {
                Phase::Submitted
            } else {
                Phase::Filling
            }
        } else {
            if self.in_flight() is Some {
                Phase::Draining
            } else {
                Phase::Idle
            }
        }
    }

    /// Whether `post` keeps the encoder, the capacity, the hint and the
    /// word size of `self`.
    pub open spec fn same_setup(&self, post: &Self) -> bool {
        &&& post.encoder() == self.encoder()
        &&& post.capacity() == self.capacity()
        &&& post.hint() == self.hint()
        &&& post.unit() == self.unit()
    }

    /// Whether `post` has the record of the send that `self` has: nothing
    /// more is taken from the payload and nothing more is filled.
    pub open spec fn same_record(&self, post: &Self) -> bool {
        &&& self.same_setup(post)
        &&& post.consumed() == self.consumed()
        &&& post.chunks() == self.chunks()
        &&& post.cursor() == self.cursor()
        &&& post.exhausted() == self.exhausted()
    }

    /// What one fill does to the record of the send, from `self` to `post`.
    ///
    /// A payload of another word size is rejected: nothing is taken and
    /// the send's result is `UnsupportedPayloadFormat`. Else at most the
    /// chunk's limit is taken; less than the limit only from a source that
    /// has no more. What is taken becomes the staged chunk, and is the
    /// next chunk of a payload that lies in memory.
    pub open spec fn fill_recorded<B, W>(&self, post: &Self, payload: &PendingPayload<B, W>) -> bool {
        let taken = post.consumed().skip(self.consumed().len() as int);
        &&& self.same_setup(post)
        &&& post.consumed() == self.consumed() + taken
        &&& if payload.unit() != self.unit() {
            &&& post.verdict() == Err::<(), Error>(Error::UnsupportedPayloadFormat)
            &&& taken.len() == 0
            &&& post.chunks() == self.chunks()
            &&& post.staged() is None
            &&& post.cursor() == self.cursor()
            &&& !post.exhausted()
        } else {
            &&& post.verdict() is Ok
            &&& taken.len() <= self.fill_limit()
            &&& (post.exhausted() || taken.len() == self.fill_limit())
            &&& if taken.len() > 0 {
                &&& post.staged() matches Some(index)
                &&& post.pool().slot(index as int).bytes() == taken
                &&& post.chunks() == self.chunks().push(taken)
            } else {
                &&& post.staged() is None
                &&& post.exhausted()
                &&& post.chunks() == self.chunks()
                &&& post.cursor() == self.cursor()
            }
            &&& (payload.is_slice() ==> taken == payload.next_chunk(
                self.encoder(),
                self.cursor(),
                self.fill_limit(),
            ) && post.exhausted() == (payload.stream_from(self.encoder(), self.cursor()).len()
                <= self.fill_limit()))
        }
        &&& (self.in_step_with(payload) ==> post.in_step_with(payload))
    }

    /// The step with which the pipeline hands out the chunk it has staged
    /// while it holds the engine, or says that there is none.
    pub open spec fn first_step(&self) -> Step {
        match self.staged() {
            Some(index) => Step::Submit {
                slot: index,
                len: self.pool().slot(index as int).bytes().len() as usize,
            },
            None => Step::Finished(self.verdict()),
        }
    }

    /// What the first fill of a send does, from `self` to `post`: the fill
    /// is recorded, and its chunk, which slot 0 holds, is handed out for
    /// submission; with no chunk the pipeline is idle again.
    pub open spec fn first_fill<B, W>(
        &self,
        post: &Self,
        payload: &PendingPayload<B, W>,
        step: Step,
    ) -> bool {
        &&& self.fill_recorded(post, payload)
        &&& post.in_flight() is None
        &&& !post.restarting()
        &&& (post.staged() is Some ==> post.staged() == Some(0usize))
        &&& post.transferred() == self.transferred()
        &&& post.phase() == (if post.staged() is Some {
            Phase::Filling
        } else {
            Phase::Idle
        })
        &&& step == post.first_step()
    }

    /// Whether the pipeline is through with a send that went well: the
    /// source has no more, every chunk is transferred, and the engine is
    /// back with the pipeline.
    pub open spec fn is_complete(&self) -> bool {
        &&& self.phase() == Phase::Idle
        &&& self.exhausted()
        &&& self.staged() is None
        &&& self.in_flight() is None
        &&& self.verdict() is Ok
    }

    /// What the start of a send does, from `self` to `post`: a transfer
    /// that is still in flight is waited for, and nothing else changes;
    /// else the first chunk is filled.
    pub open spec fn started<B, W>(
        &self,
        post: &Self,
        payload: &PendingPayload<B, W>,
        step: Step,
    ) -> bool {
        if self.in_flight() is Some {
            &&& step == Step::Wait
            &&& self.same_record(post)
            &&& post.phase() == Phase::Draining
            &&& post.restarting()
            &&& post.in_flight() == self.in_flight()
            &&& post.staged() is None
            &&& post.transferred() == self.transferred()
            &&& post.verdict() is Ok
        } else {
            self.first_fill(post, payload, step)
        }
    }

    /// What a step does, from `self` to `post`, when the caller reports
    /// `outcome` for the step before and the pipeline answers with `step`.
    pub open spec fn advanced<B, W>(
        &self,
        post: &Self,
        outcome: Result<(), TransferFault>,
        payload: &PendingPayload<B, W>,
        step: Step,
    ) -> bool {
        match self.phase() {
            Phase::Idle => *post == *self && step == Step::Finished(Ok(())),
            Phase::Filling => match outcome {
                Err(fault) => {
                    &&& self.same_record(post)
                    &&& post.phase() == Phase::Idle
                    &&& post.in_flight() is None
                    &&& post.staged() is None
                    &&& !post.restarting()
                    &&& post.transferred() == self.transferred()
                    &&& post.verdict() == Err::<(), Error>(Error::Transfer(fault))
                    &&& step == Step::Finished(Err(Error::Transfer(fault)))
                },
                Ok(_) => {
                    &&& step == Step::Wait
                    &&& post.in_flight() == self.staged()
                    &&& (post.staged() matches Some(index) ==> self.staged() matches Some(before)
                        && index == other_slot(before as int))
                    &&& !post.restarting()
                    &&& post.transferred() == self.chunks()
                    &&& post.phase() == (if post.staged() is Some {
                        Phase::Submitted
                    } else {
                        Phase::Draining
                    })
                    &&& if self.exhausted() {
                        self.same_record(post) && post.staged() is None && post.verdict() is Ok
                    } else {
                        self.fill_recorded(post, payload)
                    }
                },
            },
            Phase::Submitted => {
                &&& self.same_record(post)
                &&& post.in_flight() is None
                &&& !post.restarting()
                &&& post.transferred() == self.transferred()
                &&& match outcome {
                    Err(fault) => {
                        &&& post.phase() == Phase::Idle
                        &&& post.staged() is None
                        &&& post.verdict() == Err::<(), Error>(Error::Transfer(fault))
                        &&& step == Step::Finished(Err(Error::Transfer(fault)))
                    },
                    Ok(_) => {
                        &&& post.phase() == Phase::Filling
                        &&& post.staged() == self.staged()
                        &&& post.verdict() is Ok
                        &&& self.staged() matches Some(index)
                        &&& post.pool().slot(index as int).bytes() == self.pool().slot(
                            index as int,
                        ).bytes()
                        &&& step == post.first_step()
                    },
                }
            },
            Phase::Draining => match outcome {
                Err(fault) => {
                    &&& self.same_record(post)
                    &&& post.phase() == Phase::Idle
                    &&& post.in_flight() is None
                    &&& post.staged() is None
                    &&& !post.restarting()
                    &&& post.transferred() == self.transferred()
                    &&& post.verdict() == (if self.verdict() is Ok {
                        Err::<(), Error>(Error::Transfer(fault))
                    } else {
                        self.verdict()
                    })
                    &&& step == Step::Finished(post.verdict())
                },
                Ok(_) => if self.restarting() {
                    self.first_fill(post, payload, step)
                } else {
                    &&& self.same_record(post)
                    &&& post.phase() == Phase::Idle
                    &&& post.in_flight() is None
                    &&& post.staged() is None
                    &&& !post.restarting()
                    &&& post.transferred() == self.transferred()
                    &&& post.verdict() == self.verdict()
                    &&& step == Step::Finished(self.verdict())
                },
            },
        }
    }

    /// Whether the engine is with the pipeline, and not with a transfer.
    pub open spec fn holds_engine(&self) -> bool {
        self.in_flight() is None
    }

    /// The state that each slot must have: owned by the transfer in
    /// flight, holding the staged chunk, or free.
    pub open spec fn slot_state(&self, index: int) -> SlotState {
        if self.in_flight() == Some(index as usize) {
            SlotState::Submitted
        } else if self.staged() == Some(index as usize) {
            SlotState::Filling
        } else {
            SlotState::Free
        }
    }

    /// The pipeline's invariant.
    pub closed spec fn wf(&self) -> bool {
        &&& self.encoder.wf()
        &&& self.pool.wf()
        &&& self.pool.capacity() == self.capacity
        &&& (self.unit == 1 || self.unit == 2)
        &&& self.next < 2
        &&& (self.in_flight matches Some(a) ==> a < 2 && self.next == other_slot(a as int))
        &&& (self.staged matches Some(s) ==> s < 2 && self.in_flight != Some(s) && self.next == s
            && self.pool.slot(s as int).bytes().len() > 0 && self.chunks@.len() > 0
            && self.chunks@.last() == self.pool.slot(s as int).bytes() && self.handed@
            == self.chunks@.len() - 1)
        &&& (self.staged is None && self.verdict is Ok ==> self.handed@ == self.chunks@.len())
        &&& self.handed@ <= self.chunks@.len()
        &&& self.pool.slot(0).state() == self.slot_state(0)
        &&& self.pool.slot(1).state() == self.slot_state(1)
        &&& (self.phase == Phase::Idle ==> self.staged is None && !self.restart)
        &&& (self.phase == Phase::Filling ==> self.staged is Some && self.in_flight is None
            && !self.restart && self.verdict is Ok)
        &&& (self.phase == Phase::Submitted ==> self.staged is Some && self.in_flight is Some
            && !self.restart && self.verdict is Ok)
        &&& (self.phase == Phase::Draining ==> self.staged is None && self.in_flight is Some)
        &&& (self.phase == Phase::Draining && !self.restart && self.verdict is Ok
            ==> self.exhausted)
        &&& (self.restart ==> self.is_fresh())
        &&& self.chunks@ == split(self.consumed@, self.first_limit(), self.later_limit())
        &&& (!self.exhausted ==> ends_on_full_chunk(
            self.consumed@.len(),
            self.first_limit(),
            self.later_limit(),
        ))
        &&& self.first == (self.consumed@.len() == 0)
    }

    /// Whether the pipeline stands at the beginning of a send: nothing is
    /// taken from a payload, nothing is filled, nothing has gone wrong.
    pub open spec fn is_fresh(&self) -> bool {
        &&& self.staged() is None
        &&& self.consumed().len() == 0
        &&& self.chunks().len() == 0
        &&& self.transferred().len() == 0
        &&& self.cursor() == 0
        &&& !self.exhausted()
        &&& self.verdict() is Ok
        &&& (self.holds_engine() ==> self.next_slot() == 0)
    }

    /// Whether the pipeline has taken from `payload`, which lies in memory,
    /// what it has taken so far: the beginning of the payload's wire
    /// bytes, up to the cursor.
    pub open spec fn in_step_with<B, W>(&self, payload: &PendingPayload<B, W>) -> bool {
        &&& payload.is_slice()
        &&& payload.unit() == self.unit()
        &&& self.cursor() <= payload.words()
        &&& self.consumed() == payload.stream(self.encoder()).take(
            (self.cursor() * self.unit()) as int,
        )
        &&& (self.exhausted() ==> self.cursor() == payload.words())
    }

    /// What the invariant says to the outside: no double ownership. At
    /// most one slot is owned by a transfer, it is the one in flight, and
    /// the engine is with the pipeline exactly when no slot is owned by a
    /// transfer.
    pub proof fn lemma_single_owner(&self)
        requires
            self.wf(),
        ensures
            self.pool().wf(),
            self.pool().capacity() == self.capacity(),
            !(self.pool().slot(0).state() == SlotState::Submitted && self.pool().slot(1).state()
                == SlotState::Submitted),
            self.pool().slot(0).state() == self.slot_state(0),
            self.pool().slot(1).state() == self.slot_state(1),
            self.holds_engine() <==> (self.pool().slot(0).state() != SlotState::Submitted
                && self.pool().slot(1).state() != SlotState::Submitted),
            self.in_flight() matches Some(a) ==> a < 2 && self.staged() != Some(a),
            self.staged() matches Some(s) ==> s < 2,
            self.phase() == Phase::Idle ==> self.staged() is None,
            self.phase() == Phase::Filling ==> self.staged() is Some && self.holds_engine(),
            self.phase() == Phase::Submitted ==> self.staged() is Some && !self.holds_engine(),
            self.phase() == Phase::Draining ==> self.staged() is None && !self.holds_engine(),
            self.unit() == 1 || self.unit() == 2,
            self.encoder().wf(),
    {
    }

    /// What the invariant says of the chunks: they are the chunks into
    /// which the planner cuts what was taken from the payload, and those
    /// that the engine accepted are the first of them.
    pub proof fn lemma_chunks(&self)
        requires
            self.wf(),
        ensures
            self.chunks() == split(self.consumed(), self.first_limit(), self.later_limit()),
            self.transferred().len() <= self.chunks().len(),
            self.transferred() == self.chunks().take(self.transferred().len() as int),
            self.staged() is None && self.verdict() is Ok ==> self.transferred() == self.chunks(),
            self.staged() matches Some(s) ==> self.chunks().len() > 0 && self.chunks().last()
                == self.pool().slot(s as int).bytes() && self.transferred()
                == self.chunks().drop_last(),
            self.phase() == Phase::Draining && !self.restarting() && self.verdict() is Ok
                ==> self.exhausted(),
    {
        if self.staged is None && self.verdict is Ok {
            assert(self.chunks@.take(self.chunks@.len() as int) =~= self.chunks@);
        }
    }

    /// Begins a send of words of one byte, or of two if `wide`: what the
    /// last send left behind is cleared away. A chunk that was filled but
    /// not accepted is dropped; a transfer that is still in flight stays
    /// in flight, to be waited for when the send starts. The first chunk
    /// of every send goes to slot 0, the next to slot 1, and so on in
    /// turn.
    pub fn prepare(&mut self, wide: bool)
        requires
            old(self).wf(),
        ensures
            final(self).wf(),
            final(self).is_fresh(),
            final(self).unit() == (if wide { 2nat } else { 1nat }),
            final(self).phase() == Phase::Idle,
            final(self).in_flight() == old(self).in_flight(),
            final(self).staged() is None,
            !final(self).restarting(),
            !final(self).exhausted(),
            final(self).verdict() is Ok,
            final(self).cursor() == 0,
            final(self).capacity() == old(self).capacity(),
            final(self).hint() == old(self).hint(),
            final(self).encoder() == old(self).encoder(),
            final(self).transferred() == Seq::<Seq<u8>>::empty(),
            final(self).consumed() == Seq::<u8>::empty(),
            final(self).chunks() == Seq::<Seq<u8>>::empty(),
            final(self).holds_engine() ==> final(self).next_slot() == 0,
    {
        match self.staged {
            Some(index) => {
                self.pool.mark_reclaimed(index);
            },
            None => {},
        }
        self.staged = None;
        if self.in_flight.is_none() {
            self.next = 0;
        }
        self.unit = if wide {
            2
        } else {
            1
        };
        self.phase = Phase::Idle;
        self.restart = false;
        self.first = true;
        self.exhausted = false;
        self.cursor = 0;
        self.verdict = Ok(());
        self.consumed = Ghost(Seq::empty());
        self.chunks = Ghost(Seq::empty());
        self.handed = Ghost(0);
        proof {
            assert(self.chunks@ =~= split(self.consumed@, self.first_limit(), self.later_limit()));
            assert(self.chunks@.take(0) =~= Seq::<Seq<u8>>::empty());
        }
    }

    /// What was taken from a payload that lies in memory, with one more
    /// chunk taken from the cursor on, is again the beginning of the
    /// payload's wire bytes, up to the new cursor.
    proof fn lemma_taken_from_slice<B, W>(
        payload: &PendingPayload<B, W>,
        encoder: WordEncoder,
        cursor: nat,
        next: nat,
        consumed: Seq<u8>,
        chunk: Seq<u8>,
        limit: nat,
    )
        requires
            payload.is_slice(),
            cursor <= payload.words(),
            consumed == payload.stream(encoder).take((cursor * payload.unit()) as int),
            chunk == payload.next_chunk(encoder, cursor, limit),
            next * payload.unit() == cursor * payload.unit() + chunk.len(),
        ensures
            next <= payload.words(),
            consumed + chunk == payload.stream(encoder).take((next * payload.unit()) as int),
    {
        let unit = payload.unit();
        let stream = payload.stream(encoder);
        let pending = payload.stream_from(encoder, cursor);
        payload.lemma_stream_from_split(encoder, 0, cursor);
        payload.lemma_stream_from_split(encoder, cursor, 0);
        assert(unit == 1 || unit == 2);
        assert(stream.len() == payload.words() * unit);
        assert(pending.len() == (payload.words() - cursor) * unit);
        assert(stream == stream.take((cursor * unit) as int) + pending);
        assert(chunk.len() <= pending.len());
        assert(chunk =~= pending.take(chunk.len() as int));
        assert(consumed + chunk =~= stream.take((next * unit) as int));
    }

    /// Fills the next slot from the payload, up to the limit that the
    /// planner gives the chunk, and records what was taken.
    ///
    /// A payload whose words are not of the size the send began with is
    /// rejected, and nothing is taken from it. Of a payload that lies in
    /// memory the words from the cursor on are taken. Of a lazy payload
    /// that keeps to the laws of iterators the next words are taken that
    /// it had to give: what is taken and what the payload still has to
    /// give are together what they were before.
    #[verifier::rlimit(60)]
    pub fn stage_next<B: Iterator<Item = u8>, W: Iterator<Item = u16>>(
        &mut self,
        payload: &mut PendingPayload<B, W>,
    ) -> (staged: Staged)
        requires
            old(self).wf(),
            old(self).staged() is None,
            !old(self).restarting(),
            !old(self).exhausted(),
            old(self).verdict() is Ok,
        ensures
            final(self).wf(),
            final(self).capacity() == old(self).capacity(),
            final(self).hint() == old(self).hint(),
            final(self).unit() == old(self).unit(),
            final(self).encoder() == old(self).encoder(),
            final(self).in_flight() == old(self).in_flight(),
            final(self).transferred() == old(self).transferred(),
            !final(self).restarting(),
            staged is Rejected <==> old(payload).unit() != old(self).unit(),
            staged is Rejected ==> final(self).verdict() == Err::<(), Error>(
                Error::UnsupportedPayloadFormat,
            ) && final(self).consumed() == old(self).consumed() && final(self).chunks() == old(self).chunks()
                && final(self).staged() is None && final(self).cursor() == old(self).cursor()
                && !final(self).exhausted() && *final(payload) == *old(payload),
            !(staged is Rejected) ==> final(self).verdict() is Ok,
            staged is Dry ==> final(self).consumed() == old(self).consumed() && final(self).chunks()
                == old(self).chunks() && final(self).staged() is None && final(self).exhausted()
                && final(self).cursor() == old(self).cursor(),
            staged matches Staged::Chunk(len) ==> {
                &&& len > 0
                &&& final(self).staged() == Some(old(self).next_slot())
                &&& final(self).pool().slot(old(self).next_slot() as int).bytes().len() == len
                &&& final(self).consumed() == old(self).consumed() + final(self).pool().slot(
                    old(self).next_slot() as int,
                ).bytes()
                &&& final(self).chunks() == old(self).chunks().push(
                    final(self).pool().slot(old(self).next_slot() as int).bytes(),
                )
                &&& len <= old(self).fill_limit()
                &&& (final(self).exhausted() || len == old(self).fill_limit())
            },
            final(self).phase() == old(self).phase_after_fill(final(self).staged() is Some),
            old(self).fill_recorded(final(self), old(payload)),
            old(payload).is_slice() ==> *final(payload) == *old(payload),
            old(payload).is_slice() && old(payload).unit() == old(self).unit() ==> {
                &&& final(self).consumed() == old(self).consumed() + old(payload).next_chunk(
                    old(self).encoder(),
                    old(self).cursor(),
                    old(self).fill_limit(),
                )
                &&& final(self).exhausted() == (old(payload).stream_from(
                    old(self).encoder(),
                    old(self).cursor(),
                ).len() <= old(self).fill_limit())
            },
            old(self).in_step_with(old(payload)) ==> final(self).in_step_with(final(payload)),
            *old(payload) matches PendingPayload::ByteIter(before) ==> (*final(payload) matches
            PendingPayload::ByteIter(after) && gave_up(
                <B as IteratorSpec>::obeys_prophetic_iter_laws(&before),
                <B as IteratorSpec>::obeys_prophetic_iter_laws(&after),
                <B as IteratorSpec>::remaining(&before),
                <B as IteratorSpec>::remaining(&after),
                old(self).consumed(),
                final(self).consumed(),
                final(self).exhausted() && !old(self).exhausted(),
            )),
            *old(payload) matches PendingPayload::WordIter(before, order) ==> (*final(payload) matches
            PendingPayload::WordIter(after, same) && same == order && gave_up(
                <W as IteratorSpec>::obeys_prophetic_iter_laws(&before),
                <W as IteratorSpec>::obeys_prophetic_iter_laws(&after),
                words_to_bytes(<W as IteratorSpec>::remaining(&before), old(self).encoder().resolve(order)),
                words_to_bytes(<W as IteratorSpec>::remaining(&after), old(self).encoder().resolve(order)),
                old(self).consumed(),
                final(self).consumed(),
                final(self).exhausted() && !old(self).exhausted(),
            )),
    {
        let unit: usize = self.unit;
        let engaged: bool = self.in_flight.is_some();
        if payload.word_size() != unit {
            self.verdict = Err(Error::UnsupportedPayloadFormat);
            self.phase = if engaged {
                Phase::Draining
            } else {
                Phase::Idle
            };
            proof {
                assert(self.consumed@.skip(self.consumed@.len() as int) =~= Seq::<u8>::empty());
                assert(self.consumed@ + Seq::<u8>::empty() =~= self.consumed@);
            }
            return Staged::Rejected;
        }
        proof {
            crate::planner::lemma_limits(self.capacity(), self.hint(), self.unit());
        }
        let planned: usize = next_chunk_capacity(self.capacity, self.hint, self.first);
        let limit: usize = whole_word_limit(planned, unit, self.capacity);
        assert(limit == self.fill_limit());
        let encoder = self.encoder;
        let cursor: usize = self.cursor;
        let index: usize = self.next;
        let ghost source = *payload;
        let ghost was = self.consumed@;
        let slot = self.pool.acquire_free(index);
        let taken = fill_slot(payload, slot, &encoder, cursor, limit);
        let filled = taken.0;
        let ghost bytes = self.pool.slot(index as int).bytes();
        assert(bytes.len() == filled.len);
        proof {
            if source.is_slice() && cursor <= source.words() && was == source.stream(encoder).take(
                (cursor * unit) as int,
            ) {
                Self::lemma_taken_from_slice(
                    &source,
                    encoder,
                    cursor as nat,
                    taken.1 as nat,
                    was,
                    bytes,
                    limit as nat,
                );
            }
        }
        if filled.len == 0 {
            self.pool.mark_reclaimed(index);
            self.exhausted = true;
            self.phase = if engaged {
                Phase::Draining
            } else {
                Phase::Idle
            };
            proof {
                assert(bytes =~= Seq::<u8>::empty());
                assert(was + bytes =~= was);
                assert(was.skip(was.len() as int) =~= Seq::<u8>::empty());
            }
            return Staged::Dry;
        }
        proof {
            lemma_split_append(was, bytes, self.first_limit(), self.later_limit());
            assert(self.chunks@.push(bytes).take(self.handed@ as int) =~= self.chunks@.take(
                self.handed@ as int,
            ));
            assert(self.chunks@.push(bytes).last() == bytes);
        }
        self.cursor = taken.1;
        self.consumed = Ghost(was + bytes);
        self.chunks = Ghost(self.chunks@.push(bytes));
        self.first = false;
        self.exhausted = filled.dried;
        self.staged = Some(index);
        self.phase = if engaged {
            Phase::Submitted
        } else {
            Phase::Filling
        };
        proof {
            assert((was + bytes).skip(was.len() as int) =~= bytes);
            match source {
                PendingPayload::ByteIter(before) => {
                    if <B as IteratorSpec>::obeys_prophetic_iter_laws(&before) {
                        let after = payload->ByteIter_0;
                        assert((was + bytes) + <B as IteratorSpec>::remaining(&after) =~= was + <
                            B as IteratorSpec
                        >::remaining(&before));
                    }
                },
                PendingPayload::WordIter(before, order) => {
                    if <W as IteratorSpec>::obeys_prophetic_iter_laws(&before) {
                        let after = payload->WordIter_0;
                        assert((was + bytes) + words_to_bytes(
                            <W as IteratorSpec>::remaining(&after),
                            encoder.resolve(order),
                        ) =~= was + words_to_bytes(
                            <W as IteratorSpec>::remaining(&before),
                            encoder.resolve(order),
                        ));
                    }
                },
                _ => {},
            }
        }
        Staged::Chunk(filled.len)
    }

    /// The start of a send on which nothing has gone wrong keeps the
    /// pipeline in step with a payload that lies in memory, and nothing
    /// goes wrong; if the start ends the send, the pipeline is through
    /// with it.
    pub proof fn lemma_started_on_course<B, W>(
        &self,
        post: &Self,
        payload: &PendingPayload<B, W>,
        step: Step,
    )
        requires
            self.wf(),
            post.wf(),
            self.in_step_with(payload),
            self.verdict() is Ok,
            self.started(post, payload, step),
        ensures
            post.in_step_with(payload),
            post.verdict() is Ok,
            step matches Step::Finished(result) ==> result is Ok && post.is_complete(),
            step is Finished <==> post.phase() == Phase::Idle,
    {
    }

    /// A step of a send on which nothing has gone wrong, after an action
    /// that went well, keeps the pipeline in step with a payload that lies
    /// in memory, and nothing goes wrong; if the step ends the send, the
    /// pipeline is through with it.
    pub proof fn lemma_advanced_on_course<B, W>(
        &self,
        post: &Self,
        payload: &PendingPayload<B, W>,
        step: Step,
    )
        requires
            self.wf(),
            post.wf(),
            self.in_step_with(payload),
            self.verdict() is Ok,
            self.phase() != Phase::Idle,
            self.advanced(post, Ok(()), payload, step),
        ensures
            post.in_step_with(payload),
            post.verdict() is Ok,
            step matches Step::Finished(result) ==> result is Ok && post.is_complete(),
            step is Finished <==> post.phase() == Phase::Idle,
    {
    }

    /// Whole-send fidelity for a payload that lies in memory: when the
    /// pipeline is through with a send during which it kept in step with
    /// the payload, the chunks that the engine accepted are the chunks
    /// into which the planner cuts the payload's wire bytes, and, one
    /// after the other, they are those wire bytes.
    pub proof fn lemma_complete_send<B, W>(&self, payload: &PendingPayload<B, W>)
        requires
            self.wf(),
            self.is_complete(),
            self.in_step_with(payload),
        ensures
            self.transferred() == split(
                payload.stream(self.encoder()),
                self.first_limit(),
                self.later_limit(),
            ),
            self.transferred().flatten() == payload.stream(self.encoder()),
            self.consumed() == payload.stream(self.encoder()),
    {
        let stream = payload.stream(self.encoder);
        payload.lemma_stream_from_split(self.encoder, 0, 0);
        assert(stream.len() == payload.words() * payload.unit());
        assert(stream.take(stream.len() as int) =~= stream);
        assert(self.chunks@.take(self.chunks@.len() as int) =~= self.chunks@);
        crate::planner::lemma_limits(self.capacity(), self.hint(), self.unit());
        crate::planner::lemma_split_flatten(stream, self.first_limit(), self.later_limit());
    }

    /// Endianness round trip over a whole send: the chunks of a send of
    /// words that lie in memory, put together and read back pairwise in
    /// the byte order of the send, are the words.
    pub proof fn lemma_words_read_back<B, W>(&self, payload: &PendingPayload<B, W>)
        requires
            self.wf(),
            self.is_complete(),
            self.in_step_with(payload),
            payload is Words16,
        ensures
            crate::encoder::bytes_to_words(
                self.transferred().flatten(),
                self.encoder().resolve(payload->Words16_1),
            ) == payload->Words16_0@,
    {
        self.lemma_complete_send(payload);
        assert(payload->Words16_0@.skip(0) =~= payload->Words16_0@);
        crate::encoder::lemma_words_round_trip(
            payload->Words16_0@,
            self.encoder().resolve(payload->Words16_1),
        );
    }

    /// Chunk count: a whole send of `L` bytes that lie in memory makes
    /// `ceil(L / C)` transfers, with slots of `C` bytes, when the hint
    /// plans the first chunk at the full capacity, as no hint does, and
    /// also when the hint is the length of the payload; the first chunk
    /// then holds the hint modulo the capacity, if that is not zero.
    pub proof fn lemma_chunk_count<B, W>(&self, payload: &PendingPayload<B, W>)
        requires
            self.wf(),
            self.is_complete(),
            self.in_step_with(payload),
            payload is Bytes,
            self.hint() % self.capacity() == 0 || self.hint() == payload.words(),
        ensures
            self.transferred().len() == crate::planner::chunks_needed(
                payload.words(),
                self.capacity(),
            ),
            self.hint() % self.capacity() != 0 ==> self.transferred().len() > 0
                && self.transferred()[0].len() == self.hint() % self.capacity(),
    {
        let stream = payload.stream(self.encoder);
        self.lemma_complete_send(payload);
        crate::planner::lemma_limits(self.capacity(), self.hint(), self.unit());
        assert(payload->Bytes_0@.skip(0) =~= payload->Bytes_0@);
        assert(stream.len() == payload.words());
        if self.hint() % self.capacity() == 0 {
            crate::planner::lemma_split_count(stream, self.capacity());
        } else {
            crate::planner::lemma_split_count_hinted(stream, self.capacity());
        }
    }

    /// Empty payload: a send of a payload that lies in memory and holds
    /// nothing, begun while the pipeline holds the engine, is over with
    /// its start: no chunk, no transfer, and `Ok`.
    pub proof fn lemma_empty_payload<B, W>(
        &self,
        post: &Self,
        payload: &PendingPayload<B, W>,
        step: Step,
    )
        requires
            self.wf(),
            post.wf(),
            self.is_fresh(),
            self.holds_engine(),
            payload.is_slice(),
            payload.unit() == self.unit(),
            payload.words() == 0,
            self.started(post, payload, step),
        ensures
            step == Step::Finished(post.verdict()),
            post.verdict() is Ok,
            post.transferred() == Seq::<Seq<u8>>::empty(),
            post.is_complete(),
    {
        payload.lemma_stream_from_split(self.encoder(), 0, 0);
        assert(payload.stream_from(self.encoder(), 0).len() == 0);
        assert(self.transferred() =~= Seq::<Seq<u8>>::empty());
    }

    /// The bytes that the slot with the given index holds: for a
    /// `Submit` step, the chunk to transfer.
    pub fn chunk(&self, slot: usize) -> (bytes: &[u8])
        requires
            self.wf(),
        ensures
            bytes@ == self.pool().slot(slot as int).bytes(),
    {
        self.pool.chunk(slot)
    }

    /// The state of the slot with the given index.
    pub fn slot_state_of(&self, slot: usize) -> (state: SlotState)
        requires
            self.wf(),
        ensures
            state == self.pool().slot(slot as int).state(),
    {
        self.pool.state(slot)
    }

    /// Whether the engine is with the pipeline, and not with a transfer.
    pub fn has_engine(&self) -> (held: bool)
        ensures
            held == self.holds_engine(),
    {
        self.in_flight.is_none()
    }

    /// Where the pipeline stands.
    pub fn current_phase(&self) -> (phase: Phase)
        ensures
            phase == self.phase(),
    {
        self.phase
    }

    /// The step that hands out the staged chunk, or says that there is
    /// none.
    fn hand_out(&self) -> (step: Step)
        requires
            self.wf(),
        ensures
            step == self.first_step(),
    {
        match self.staged {
            Some(index) => {
                let len: usize = self.pool.chunk(index).len();
                Step::Submit { slot: index, len }
            },
            None => Step::Finished(self.verdict),
        }
    }

    /// Starts the send that `prepare` began: the first step of the fill,
    /// submit and reclaim cycle.
    ///
    /// If a transfer of an earlier send is still in flight, it is waited
    /// for first. Else the first chunk is filled and handed out for
    /// submission. An empty payload gives no chunk and no transfer: the
    /// pipeline is done at once, with `Ok`.
    pub fn start<B: Iterator<Item = u8>, W: Iterator<Item = u16>>(
        &mut self,
        payload: &mut PendingPayload<B, W>,
    ) -> (step: Step)
        requires
            old(self).wf(),
            old(self).is_fresh(),
            old(self).phase() == Phase::Idle,
        ensures
            final(self).wf(),
            old(self).started(final(self), old(payload), step),
            final(self).restarting() ==> final(self).is_fresh(),
            final(self).phase() == Phase::Idle <==> step is Finished,
            (step matches Step::Finished(result) && result is Ok) ==> final(self).is_complete(),
            old(self).in_step_with(old(payload)) ==> final(self).in_step_with(final(payload)),
            old(payload).is_slice() ==> *final(payload) == *old(payload),
            *old(payload) is Unsupported ==> *final(payload) is Unsupported,
            *old(payload) matches PendingPayload::ByteIter(before) ==> (*final(payload) matches
            PendingPayload::ByteIter(after) && gave_up(
                <B as IteratorSpec>::obeys_prophetic_iter_laws(&before),
                <B as IteratorSpec>::obeys_prophetic_iter_laws(&after),
                <B as IteratorSpec>::remaining(&before),
                <B as IteratorSpec>::remaining(&after),
                old(self).consumed(),
                final(self).consumed(),
                final(self).exhausted() && !old(self).exhausted(),
            )),
            *old(payload) matches PendingPayload::WordIter(before, order) ==> (*final(payload) matches
            PendingPayload::WordIter(after, same) && same == order && gave_up(
                <W as IteratorSpec>::obeys_prophetic_iter_laws(&before),
                <W as IteratorSpec>::obeys_prophetic_iter_laws(&after),
                words_to_bytes(<W as IteratorSpec>::remaining(&before), old(self).encoder().resolve(order)),
                words_to_bytes(<W as IteratorSpec>::remaining(&after), old(self).encoder().resolve(order)),
                old(self).consumed(),
                final(self).consumed(),
                final(self).exhausted() && !old(self).exhausted(),
            )),
    {
        if self.in_flight.is_some() {
            self.phase = Phase::Draining;
            self.restart = true;
            return Step::Wait;
        }
        let ghost was = self.consumed@;
        let _ = self.stage_next(payload);
        proof {
            assert(was.len() == 0);
        }
        self.hand_out()
    }

    /// Takes the outcome of the step before and gives the next step.
    ///
    /// - While a submission is awaited: if the engine refuses it, the send
    ///   is over with the engine's fault; if it accepts, the other slot is
    ///   filled while the transfer runs, and the next step is to wait for
    ///   the transfer.
    /// - While the end of a transfer is awaited with the next chunk
    ///   staged: the slot of the transfer is reclaimed, and the staged
    ///   chunk is handed out for submission; after a failed transfer the
    ///   send is over with the engine's fault, and the staged chunk is
    ///   dropped.
    /// - While the end of the last transfer is awaited: the slot is
    ///   reclaimed and the send is over.
    ///
    /// A pipeline that awaits nothing answers `Finished(Ok)` and stays as
    /// it is.
    #[verifier::rlimit(60)]
    pub fn advance<B: Iterator<Item = u8>, W: Iterator<Item = u16>>(
        &mut self,
        outcome: Result<(), TransferFault>,
        payload: &mut PendingPayload<B, W>,
    ) -> (step: Step)
        requires
            old(self).wf(),
        ensures
            final(self).wf(),
            old(self).advanced(final(self), outcome, old(payload), step),
            old(self).phase() != Phase::Idle ==> (final(self).phase() == Phase::Idle <==> step is Finished),
            (step matches Step::Finished(result) && result is Ok && old(self).phase() != Phase::Idle)
                ==> final(self).is_complete(),
            old(self).in_step_with(old(payload)) ==> final(self).in_step_with(final(payload)),
            old(payload).is_slice() ==> *final(payload) == *old(payload),
            *old(payload) is Unsupported ==> *final(payload) is Unsupported,
            *old(payload) matches PendingPayload::ByteIter(before) ==> (*final(payload) matches
            PendingPayload::ByteIter(after) && gave_up(
                <B as IteratorSpec>::obeys_prophetic_iter_laws(&before),
                <B as IteratorSpec>::obeys_prophetic_iter_laws(&after),
                <B as IteratorSpec>::remaining(&before),
                <B as IteratorSpec>::remaining(&after),
                old(self).consumed(),
                final(self).consumed(),
                final(self).exhausted() && !old(self).exhausted(),
            )),
            *old(payload) matches PendingPayload::WordIter(before, order) ==> (*final(payload) matches
            PendingPayload::WordIter(after, same) && same == order && gave_up(
                <W as IteratorSpec>::obeys_prophetic_iter_laws(&before),
                <W as IteratorSpec>::obeys_prophetic_iter_laws(&after),
                words_to_bytes(<W as IteratorSpec>::remaining(&before), old(self).encoder().resolve(order)),
                words_to_bytes(<W as IteratorSpec>::remaining(&after), old(self).encoder().resolve(order)),
                old(self).consumed(),
                final(self).consumed(),
                final(self).exhausted() && !old(self).exhausted(),
            )),
    {
        let ghost was = self.consumed@;
        match self.phase {
            Phase::Idle => Step::Finished(Ok(())),
            Phase::Filling => {
                let index: usize = match self.staged {
                    Some(index) => index,
                    None => 0,
                };
                match outcome {
                    Err(fault) => {
                        self.pool.mark_reclaimed(index);
                        self.staged = None;
                        self.verdict = Err(Error::Transfer(fault));
                        self.phase = Phase::Idle;
                        Step::Finished(Err(Error::Transfer(fault)))
                    },
                    Ok(_) => {
                        self.pool.mark_submitted(index);
                        self.in_flight = Some(index);
                        self.staged = None;
                        self.next = BufferPool::alternate(index);
                        proof {
                            assert(self.chunks@.take(self.chunks@.len() as int) =~= self.chunks@);
                        }
                        self.handed = Ghost(self.chunks@.len());
                        if self.exhausted {
                            self.phase = Phase::Draining;
                        } else {
                            self.phase = Phase::Idle;
                            let ghost accepted = self.chunks@;
                            let _ = self.stage_next(payload);
                            proof {
                                assert(self.chunks@.take(accepted.len() as int) =~= accepted);
                            }
                        }
                        Step::Wait
                    },
                }
            },
            Phase::Submitted => {
                let index: usize = match self.in_flight {
                    Some(index) => index,
                    None => 0,
                };
                self.pool.mark_reclaimed(index);
                self.in_flight = None;
                match outcome {
                    Err(fault) => {
                        match self.staged {
                            Some(staged) => {
                                self.pool.mark_reclaimed(staged);
                            },
                            None => {},
                        }
                        self.staged = None;
                        self.verdict = Err(Error::Transfer(fault));
                        self.phase = Phase::Idle;
                        Step::Finished(Err(Error::Transfer(fault)))
                    },
                    Ok(_) => {
                        self.phase = Phase::Filling;
                        self.hand_out()
                    },
                }
            },
            Phase::Draining => {
                let index: usize = match self.in_flight {
                    Some(index) => index,
                    None => 0,
                };
                self.pool.mark_reclaimed(index);
                self.in_flight = None;
                self.phase = Phase::Idle;
                match outcome {
                    Err(fault) => {
                        self.restart = false;
                        match self.verdict {
                            Ok(_) => {
                                self.verdict = Err(Error::Transfer(fault));
                            },
                            Err(_) => {},
                        }
                        Step::Finished(self.verdict)
                    },
                    Ok(_) => {
                        if self.restart {
                            self.restart = false;
                            self.next = 0;
                            let _ = self.stage_next(payload);
                            proof {
                                assert(was.len() == 0);
                            }
                            self.hand_out()
                        } else {
                            Step::Finished(self.verdict)
                        }
                    },
                }
            },
        }
    }

    /// A pipeline over two free slots of `capacity` bytes, with the
    /// length hint `hint`. The engine is with the pipeline.
    pub fn new(capacity: usize, hint: usize) -> (pipeline: Self)
        requires
            capacity >= MIN_SLOT_CAPACITY,
        ensures
            pipeline.wf(),
            pipeline.is_fresh(),
            pipeline.capacity() == capacity,
            pipeline.hint() == hint,
            pipeline.unit() == 1,
            pipeline.phase() == Phase::Idle,
            pipeline.holds_engine(),
            pipeline.staged() is None,
            pipeline.transferred() == Seq::<Seq<u8>>::empty(),
            pipeline.consumed() == Seq::<u8>::empty(),
            !pipeline.restarting(),
            pipeline.next_slot() == 0,
    {
        let pipeline = TransferPipeline {
            encoder: WordEncoder::new(),
            pool: BufferPool::new(capacity),
            capacity,
            hint,
            unit: 1,
            phase: Phase::Idle,
            in_flight: None,
            staged: None,
            next: 0,
            restart: false,
            first: true,
            exhausted: false,
            cursor: 0,
            verdict: Ok(()),
            consumed: Ghost(Seq::empty()),
            chunks: Ghost(Seq::empty()),
            handed: Ghost(0),
        };
        assert(pipeline.chunks@ =~= split(
            pipeline.consumed@,
            pipeline.first_limit(),
            pipeline.later_limit(),
        ));
        assert(pipeline.chunks@.take(0) =~= Seq::<Seq<u8>>::empty());
        pipeline
    }
}

} // verus!
