//! The line protocol around one logical send: chip-select and data/command.
//!
//! A send asserts chip-select, if there is such a line, sets the
//! data/command line, streams the payload through the pipeline and
//! releases chip-select again. The interface touches no line and no bus:
//! it says what is to be done next, the caller does it and reports how it
//! went.

use crate::encoder::words_to_bytes;
use crate::error::{Error, TransferFault};
use crate::payload::{gave_up, PendingPayload};
use crate::pipeline::{Phase, Step, TransferPipeline};
use crate::pool::MIN_SLOT_CAPACITY;
use vstd::prelude::*;
use vstd::std_specs::iter::IteratorSpec;

verus! {

/// The capacity of each of the two transfer buffers of an interface made
/// by `new` or `new_no_cs`.
pub const DMA_BUFFER_SIZE: usize = 4096;

/// Where the interface stands within a logical send.
#[derive(Clone, Copy, Debug, PartialEq, Eq, Structural)]
pub enum Stage {
    /// No send is under way.
    Idle,
    /// Chip-select is being asserted.
    Selecting,
    /// The data/command line is being set.
    Commanding,
    /// The pipeline streams the payload.
    Streaming,
    /// Chip-select is being released.
    Releasing,
}

/// What the caller is to do next.
#[derive(Clone, Copy, Debug, PartialEq, Eq)]
pub enum Action {
    /// Drive the chip-select line low, which asserts it.
    SelectLow,
    /// Drive the chip-select line high, which releases it.
    SelectHigh,
    /// Drive the data/command line low: what follows is a command.
    DataCommandLow,
    /// Drive the data/command line high: what follows is data.
    DataCommandHigh,
    /// Begin a one-way write of the `len` bytes that slot `slot` holds.
    Submit { slot: usize, len: usize },
    /// Wait until the transfer in flight is over.
    Wait,
    /// Nothing: the send is over, with this result.
    Done(Result<(), Error>),
}

/// SPI display interface.
///
/// This combines the transfer pipeline with the data/command line and an
/// optional chip-select line.
pub struct SPIInterface {
    avg_data_len_hint: usize,
    chip_select: bool,
    pipeline: TransferPipeline,
    stage: Stage,
    is_data: bool,
    result: Result<(), Error>,
}

/// The action that sets the data/command line for a send of data or of
/// commands.
pub open spec fn line_action(is_data: bool) -> Action {
    if is_data {
        Action::DataCommandHigh
    } else {
        Action::DataCommandLow
    }
}

impl SPIInterface {
    /// The hint: an estimate of the byte count of an operation.
    pub closed spec fn hint(&self) -> nat {
        self.avg_data_len_hint as nat
    }

    /// Whether the interface drives a chip-select line.
    pub closed spec fn has_chip_select(&self) -> bool {
        self.chip_select
    }

    /// The pipeline.
    pub closed spec fn pipeline(&self) -> TransferPipeline {
        self.pipeline
    }

    /// Where the interface stands.
    pub closed spec fn stage(&self) -> Stage {
        self.stage
    }

    /// Whether the send under way is one of data; else it is one of
    /// commands.
    pub closed spec fn sends_data(&self) -> bool {
        self.is_data
    }

    /// The result that the pipeline gave, kept while chip-select is
    /// released.
    pub closed spec fn result(&self) -> Result<(), Error> {
        self.result
    }

    /// The interface's invariant: the pipeline's own, and the pipeline
    /// stands where the stage says.
    pub closed spec fn wf(&self) -> bool {
        &&& self.pipeline.wf()
        &&& self.pipeline.hint() == self.avg_data_len_hint
        &&& (self.stage == Stage::Selecting || self.stage == Stage::Commanding
            ==> self.pipeline.is_fresh() && self.pipeline.phase() == Phase::Idle)
        &&& (self.stage == Stage::Selecting ==> self.chip_select)
        &&& (self.stage == Stage::Streaming ==> self.pipeline.phase() != Phase::Idle)
        &&& (self.stage == Stage::Releasing ==> self.chip_select && self.pipeline.phase()
            == Phase::Idle && (self.result is Ok ==> self.pipeline.is_complete()))
    }

    /// What the invariant says to the outside.
    pub proof fn lemma_wf(&self)
        requires
            self.wf(),
        ensures
            self.pipeline().wf(),
            self.pipeline().hint() == self.hint(),
            self.stage() == Stage::Selecting ==> self.has_chip_select(),
            self.stage() == Stage::Releasing ==> self.has_chip_select(),
            self.stage() == Stage::Streaming ==> self.pipeline().phase() != Phase::Idle,
            self.stage() == Stage::Releasing ==> self.pipeline().phase() == Phase::Idle,
            self.stage() == Stage::Releasing && self.result() is Ok
                ==> self.pipeline().is_complete(),
    {
    }

    /// The step that an action stands for while the payload is streamed;
    /// `SelectHigh` stands for the end of the stream, with the result that
    /// the interface keeps.
    pub open spec fn step_behind(&self, action: Action) -> Step {
        match action {
            Action::Submit { slot, len } => Step::Submit { slot, len },
            Action::Wait => Step::Wait,
            Action::Done(result) => Step::Finished(result),
            _ => Step::Finished(self.result()),
        }
    }

    /// Whether `action` and the stage of `self` are what follows the
    /// pipeline's step while the payload is streamed: the step itself, or,
    /// at the end of the stream, the release of chip-select, or the end of
    /// the send where there is no such line.
    pub open spec fn follows(&self, action: Action) -> bool {
        match action {
            Action::Submit { slot, len } => self.stage() == Stage::Streaming,
            Action::Wait => self.stage() == Stage::Streaming,
            Action::SelectHigh => self.stage() == Stage::Releasing && self.has_chip_select(),
            Action::Done(_) => self.stage() == Stage::Idle && !self.has_chip_select(),
            _ => false,
        }
    }

    /// Whether `post` differs from `self` in the stage and the kept
    /// result at most.
    pub open spec fn same_but_stage(&self, post: &Self) -> bool {
        &&& post.pipeline() == self.pipeline()
        &&& post.hint() == self.hint()
        &&& post.has_chip_select() == self.has_chip_select()
        &&& post.sends_data() == self.sends_data()
    }

    /// What a call of `resume` does, from `self` to `post`, when the
    /// caller reports `outcome` and the interface answers with `action`.
    ///
    /// - No send under way: nothing, and `Done(Ok)`.
    /// - Chip-select was to be asserted: on failure the send is over with
    ///   `ChipSelectError`; else the data/command line is set.
    /// - The data/command line was to be set: on failure the send is over
    ///   with `DataCommandLineError`, after chip-select is released where
    ///   there is such a line; else the pipeline starts.
    /// - The payload is streamed: the pipeline takes the step.
    /// - Chip-select was to be released: the send is over with the
    ///   pipeline's result, however the release went.
    pub open spec fn resumed<B, W>(
        &self,
        post: &Self,
        outcome: Result<(), TransferFault>,
        payload: &PendingPayload<B, W>,
        action: Action,
    ) -> bool {
        &&& post.hint() == self.hint()
        &&& post.has_chip_select() == self.has_chip_select()
        &&& post.sends_data() == self.sends_data()
        &&& match self.stage() {
            Stage::Idle => *post == *self && action == Action::Done(Ok(())),
            Stage::Selecting => {
                &&& post.pipeline() == self.pipeline()
                &&& if outcome is Ok {
                    post.stage() == Stage::Commanding && action == line_action(self.sends_data())
                } else {
                    post.stage() == Stage::Idle && action == Action::Done(
                        Err(Error::ChipSelectError),
                    )
                }
            },
            Stage::Commanding => if outcome is Ok {
                &&& self.pipeline().started(
                    &post.pipeline(),
                    payload,
                    post.step_behind(action),
                )
                &&& post.follows(action)
            } else {
                &&& post.pipeline() == self.pipeline()
                &&& if self.has_chip_select() {
                    &&& post.stage() == Stage::Releasing
                    &&& post.result() == Err::<(), Error>(Error::DataCommandLineError)
                    &&& action == Action::SelectHigh
                } else {
                    &&& post.stage() == Stage::Idle
                    &&& action == Action::Done(Err(Error::DataCommandLineError))
                }
            },
            Stage::Streaming => {
                &&& self.pipeline().advanced(
                    &post.pipeline(),
                    outcome,
                    payload,
                    post.step_behind(action),
                )
                &&& post.follows(action)
            },
            Stage::Releasing => {
                &&& post.pipeline() == self.pipeline()
                &&& post.stage() == Stage::Idle
                &&& action == Action::Done(self.result())
            },
        }
    }

    /// Whether a send of `payload`, which lies in memory, is on course
    /// after the interface has answered `action`: the pipeline is in step
    /// with the payload, nothing has gone wrong, and once the stream is
    /// over the pipeline is through with the send.
    pub open spec fn on_course<B, W>(&self, action: Action, payload: &PendingPayload<B, W>) -> bool {
        &&& self.pipeline().in_step_with(payload)
        &&& self.pipeline().verdict() is Ok
        &&& (self.stage() == Stage::Idle || self.stage() == Stage::Releasing
            ==> self.pipeline().is_complete())
        &&& (self.stage() == Stage::Releasing ==> self.result() is Ok)
        &&& (action matches Action::Done(result) ==> result is Ok && self.stage() == Stage::Idle)
    }

    /// Whether `states` and `actions` are the course of one whole send of
    /// `payload`, begun on `before`, during which every action went well:
    /// the send begins, and each further state and action are what
    /// `resume` makes of the state before when it is told `Ok`.
    pub open spec fn unfailing_send<B, W>(
        &self,
        states: Seq<Self>,
        actions: Seq<Action>,
        is_data: bool,
        payload: &PendingPayload<B, W>,
    ) -> bool {
        &&& states.len() == actions.len()
        &&& states.len() > 0
        &&& self.wf()
        &&& (forall|i: int| 0 <= i < states.len() ==> (#[trigger] states[i]).wf())
        &&& self.began(&states[0], is_data, payload, actions[0])
        &&& (forall|i: int|
            0 <= i < states.len() - 1 ==> (#[trigger] states[i]).resumed(
                &states[i + 1],
                Ok(()),
                payload,
                actions[i + 1],
            ))
    }

    /// A send that is on course stays on course with every action that
    /// goes well.
    pub proof fn lemma_stays_on_course<B, W>(
        &self,
        post: &Self,
        payload: &PendingPayload<B, W>,
        before: Action,
        action: Action,
    )
        requires
            self.wf(),
            post.wf(),
            self.on_course(before, payload),
            self.resumed(post, Ok(()), payload, action),
        ensures
            post.on_course(action, payload),
    {
        self.lemma_wf();
        post.lemma_wf();
        match self.stage() {
            Stage::Commanding => {
                self.pipeline().lemma_started_on_course(
                    &post.pipeline(),
                    payload,
                    post.step_behind(action),
                );
            },
            Stage::Streaming => {
                self.pipeline().lemma_advanced_on_course(
                    &post.pipeline(),
                    payload,
                    post.step_behind(action),
                );
            },
            _ => {},
        }
    }

    /// Every state of a whole send during which every action went well is
    /// on course.
    pub proof fn lemma_course<B, W>(
        &self,
        states: Seq<Self>,
        actions: Seq<Action>,
        is_data: bool,
        payload: &PendingPayload<B, W>,
        index: int,
    )
        requires
            payload.is_slice(),
            self.unfailing_send(states, actions, is_data, payload),
            0 <= index < states.len(),
        ensures
            states[index].on_course(actions[index], payload),
        decreases index,
    {
        if index > 0 {
            self.lemma_course(states, actions, is_data, payload, index - 1);
            states[index - 1].lemma_stays_on_course(
                &states[index],
                payload,
                actions[index - 1],
                actions[index],
            );
        } else {
            states[0].lemma_wf();
        }
    }

    /// Fidelity of a whole send. Let a payload that lies in memory be
    /// sent, from `send_commands` or `send_data` through every `resume` to
    /// `Done`, and let every action go well. Then the send ends with `Ok`,
    /// and the chunks that the engine accepted are the chunks into which
    /// the planner cuts the payload's wire bytes: one after the other they
    /// are those bytes, nothing added, dropped or repeated. An empty
    /// payload makes no transfer at all.
    pub proof fn lemma_whole_send<B, W>(
        &self,
        states: Seq<Self>,
        actions: Seq<Action>,
        is_data: bool,
        payload: &PendingPayload<B, W>,
    )
        requires
            payload.is_slice(),
            self.unfailing_send(states, actions, is_data, payload),
            actions.last() is Done,
        ensures
            actions.last() matches Action::Done(result) && result is Ok,
            states.last().pipeline().is_complete(),
            states.last().pipeline().in_step_with(payload),
            states.last().pipeline().transferred() == crate::planner::split(
                payload.stream(self.pipeline().encoder()),
                states.last().pipeline().first_limit(),
                states.last().pipeline().later_limit(),
            ),
            states.last().pipeline().transferred().flatten() == payload.stream(
                self.pipeline().encoder(),
            ),
            payload.words() == 0 ==> states.last().pipeline().transferred().len() == 0,
            states.last().pipeline().capacity() == self.pipeline().capacity(),
            states.last().pipeline().hint() == self.pipeline().hint(),
            states.last().pipeline().unit() == payload.unit(),
    {
        let last = states.len() - 1;
        self.lemma_course(states, actions, is_data, payload, last);
        self.lemma_setup(states, actions, is_data, payload, last);
        states[last].lemma_wf();
        states[last].pipeline().lemma_complete_send(payload);
        if payload.words() == 0 {
            payload.lemma_stream_from_split(self.pipeline().encoder(), 0, 0);
        }
    }

    /// Chunk count of a whole send. Let `L` bytes that lie in memory be
    /// sent, and let every action go well. With a hint that plans the
    /// first chunk at the full capacity `C`, as no hint does, or with the
    /// hint `L`, the send makes `ceil(L / C)` transfers; every chunk but
    /// the last is full, and the first holds the hint modulo `C`, if that
    /// is not zero.
    pub proof fn lemma_whole_send_count<B, W>(
        &self,
        states: Seq<Self>,
        actions: Seq<Action>,
        is_data: bool,
        payload: &PendingPayload<B, W>,
    )
        requires
            payload is Bytes,
            self.unfailing_send(states, actions, is_data, payload),
            actions.last() is Done,
            self.hint() % self.pipeline().capacity() == 0 || self.hint() == payload.words(),
        ensures
            states.last().pipeline().transferred().len() == crate::planner::chunks_needed(
                payload.words(),
                self.pipeline().capacity(),
            ),
            self.hint() % self.pipeline().capacity() != 0
                ==> states.last().pipeline().transferred().len() > 0
                && states.last().pipeline().transferred()[0].len() == self.hint()
                % self.pipeline().capacity(),
            forall|k: int|
                0 < k < states.last().pipeline().transferred().len() - 1
                    ==> (#[trigger] states.last().pipeline().transferred()[k]).len()
                    == self.pipeline().capacity(),
            self.hint() % self.pipeline().capacity() == 0 && states.last().pipeline().transferred().len()
                > 1 ==> states.last().pipeline().transferred()[0].len()
                == self.pipeline().capacity(),
    {
        let last = states.len() - 1;
        let pipeline = states[last].pipeline();
        self.lemma_whole_send(states, actions, is_data, payload);
        self.lemma_wf();
        states[last].lemma_wf();
        pipeline.lemma_single_owner();
        pipeline.lemma_chunk_count(payload);
        crate::planner::lemma_limits(pipeline.capacity(), pipeline.hint(), pipeline.unit());
        let stream = payload.stream(self.pipeline().encoder());
        assert forall|k: int| 0 <= k < pipeline.transferred().len() - 1 implies (k == 0
            ==> pipeline.transferred()[k].len() == pipeline.first_limit()) && (k > 0
            ==> (#[trigger] pipeline.transferred()[k]).len() == pipeline.capacity()) by {
            crate::planner::lemma_split_full_chunks(
                stream,
                pipeline.first_limit(),
                pipeline.later_limit(),
                k,
            );
        }
    }

    /// Endianness round trip of a whole send. Let words that lie in memory
    /// be sent in a byte order, and let every action go well. Then the
    /// chunks that the engine accepted, put together and read back
    /// pairwise in that byte order, are the words.
    pub proof fn lemma_whole_send_round_trip<B, W>(
        &self,
        states: Seq<Self>,
        actions: Seq<Action>,
        is_data: bool,
        payload: &PendingPayload<B, W>,
    )
        requires
            payload is Words16,
            self.unfailing_send(states, actions, is_data, payload),
            actions.last() is Done,
        ensures
            states.last().pipeline().transferred().flatten().len() == 2 * payload.words(),
            crate::encoder::bytes_to_words(
                states.last().pipeline().transferred().flatten(),
                self.pipeline().encoder().resolve(payload->Words16_1),
            ) == payload->Words16_0@,
    {
        let last = states.len() - 1;
        self.lemma_whole_send(states, actions, is_data, payload);
        self.lemma_setup(states, actions, is_data, payload, last);
        states[last].lemma_wf();
        states[last].pipeline().lemma_words_read_back(payload);
        payload.lemma_stream_from_split(self.pipeline().encoder(), 0, 0);
    }

    /// Throughout a whole send the pipeline keeps its encoder, its
    /// capacity, its hint and the word size of the payload.
    pub proof fn lemma_setup<B, W>(
        &self,
        states: Seq<Self>,
        actions: Seq<Action>,
        is_data: bool,
        payload: &PendingPayload<B, W>,
        index: int,
    )
        requires
            payload.is_slice(),
            self.unfailing_send(states, actions, is_data, payload),
            0 <= index < states.len(),
        ensures
            states[index].pipeline().encoder() == self.pipeline().encoder(),
            states[index].pipeline().capacity() == self.pipeline().capacity(),
            states[index].pipeline().hint() == self.pipeline().hint(),
            states[index].pipeline().unit() == payload.unit(),
            states[index].hint() == self.hint(),
            states[index].has_chip_select() == self.has_chip_select(),
        decreases index,
    {
        if index > 0 {
            self.lemma_setup(states, actions, is_data, payload, index - 1);
            let pre = states[index - 1];
            let post = states[index];
            assert(pre.resumed(&post, Ok(()), payload, actions[index]));
            pre.lemma_wf();
        }
    }

    /// An interface with a chip-select line and with two transfer buffers
    /// of `DMA_BUFFER_SIZE` bytes.
    pub fn new(avg_data_len_hint: usize) -> (interface: Self)
        ensures
            interface.wf(),
            interface.hint() == avg_data_len_hint,
            interface.has_chip_select(),
            interface.stage() == Stage::Idle,
            interface.pipeline().capacity() == DMA_BUFFER_SIZE,
            interface.pipeline().phase() == Phase::Idle,
            interface.pipeline().holds_engine(),
            interface.pipeline().transferred() == Seq::<Seq<u8>>::empty(),
    {
        Self::with_capacity(avg_data_len_hint, true, DMA_BUFFER_SIZE)
    }

    /// An interface with two transfer buffers of `capacity` bytes, with a
    /// chip-select line or without.
    pub fn with_capacity(avg_data_len_hint: usize, chip_select: bool, capacity: usize) -> (interface:
        Self)
        requires
            capacity >= MIN_SLOT_CAPACITY,
        ensures
            interface.wf(),
            interface.hint() == avg_data_len_hint,
            interface.has_chip_select() == chip_select,
            interface.stage() == Stage::Idle,
            interface.pipeline().capacity() == capacity,
            interface.pipeline().phase() == Phase::Idle,
            interface.pipeline().holds_engine(),
            interface.pipeline().transferred() == Seq::<Seq<u8>>::empty(),
    {
        SPIInterface {
            avg_data_len_hint,
            chip_select,
            pipeline: TransferPipeline::new(capacity, avg_data_len_hint),
            stage: Stage::Idle,
            is_data: false,
            result: Ok(()),
        }
    }

    /// The bytes that the slot with the given index holds: for a
    /// `Submit` action, the chunk to transfer.
    pub fn chunk(&self, slot: usize) -> (bytes: &[u8])
        requires
            self.wf(),
        ensures
            bytes@ == self.pipeline().pool().slot(slot as int).bytes(),
    {
        self.pipeline.chunk(slot)
    }

    /// The state of the slot with the given index.
    pub fn slot_state(&self, slot: usize) -> (state: crate::slot::SlotState)
        requires
            self.wf(),
        ensures
            state == self.pipeline().pool().slot(slot as int).state(),
    {
        self.pipeline.slot_state_of(slot)
    }

    /// Whether the engine is with the pipeline, and not with a transfer.
    pub fn holds_engine(&self) -> (held: bool)
        ensures
            held == self.pipeline().holds_engine(),
    {
        self.pipeline.has_engine()
    }

    /// Where the interface stands.
    pub fn current_stage(&self) -> (stage: Stage)
        ensures
            stage == self.stage(),
    {
        self.stage
    }

    /// Where the pipeline stands.
    pub fn current_phase(&self) -> (phase: Phase)
        ensures
            phase == self.pipeline().phase(),
    {
        self.pipeline.current_phase()
    }

    /// Begins a send of commands. See `send`.
    pub fn send_commands<B, W>(&mut self, cmds: &PendingPayload<B, W>) -> (action: Action)
        requires
            old(self).wf(),
        ensures
            final(self).wf(),
            old(self).began(final(self), false, cmds, action),
    {
        self.send(false, cmds)
    }

    /// Begins a send of data. See `send`.
    pub fn send_data<B, W>(&mut self, buf: &PendingPayload<B, W>) -> (action: Action)
        requires
            old(self).wf(),
        ensures
            final(self).wf(),
            old(self).began(final(self), true, buf, action),
    {
        self.send(true, buf)
    }

    /// What the beginning of a send does, from `self` to `post`.
    ///
    /// The pipeline stands at the beginning of a send of the payload's word
    /// size, and the first action asserts chip-select or, where there is
    /// no such line, sets the data/command line. A payload of a format
    /// that is not carried takes the same way: the pipeline turns it down
    /// when it starts, before anything is sent.
    pub open spec fn began<B, W>(
        &self,
        post: &Self,
        is_data: bool,
        payload: &PendingPayload<B, W>,
        action: Action,
    ) -> bool {
        &&& post.hint() == self.hint()
        &&& post.has_chip_select() == self.has_chip_select()
        &&& post.sends_data() == is_data
        &&& post.pipeline().is_fresh()
        &&& post.pipeline().phase() == Phase::Idle
        &&& post.pipeline().unit() == (if payload.unit() == 2 {
            2nat
        } else {
            1nat
        })
        &&& post.pipeline().in_flight() == self.pipeline().in_flight()
        &&& post.pipeline().capacity() == self.pipeline().capacity()
        &&& post.pipeline().hint() == self.pipeline().hint()
        &&& post.pipeline().encoder() == self.pipeline().encoder()
        &&& post.pipeline().transferred() == Seq::<Seq<u8>>::empty()
        &&& post.pipeline().consumed() == Seq::<u8>::empty()
        &&& post.pipeline().cursor() == 0
        &&& !post.pipeline().exhausted()
        &&& (payload.is_slice() ==> post.pipeline().in_step_with(payload))
        &&& if self.has_chip_select() {
            post.stage() == Stage::Selecting && action == Action::SelectLow
        } else {
            post.stage() == Stage::Commanding && action == line_action(is_data)
        }
    }

    /// Begins a logical send of `payload`, of data if `is_data` and of
    /// commands else, and gives the first action. A send that was under
    /// way is given up.
    pub fn send<B, W>(&mut self, is_data: bool, payload: &PendingPayload<B, W>) -> (action: Action)
        requires
            old(self).wf(),
        ensures
            final(self).wf(),
            old(self).began(final(self), is_data, payload, action),
    {
        let unit: usize = payload.word_size();
        self.pipeline.prepare(unit == 2);
        self.is_data = is_data;
        proof {
            assert(payload.stream(self.pipeline.encoder()).take(0) =~= Seq::<u8>::empty());
        }
        if self.chip_select {
            self.stage = Stage::Selecting;
            Action::SelectLow
        } else {
            self.stage = Stage::Commanding;
            Self::line(is_data)
        }
    }

    /// The action that sets the data/command line.
    fn line(is_data: bool) -> (action: Action)
        ensures
            action == line_action(is_data),
    {
        if is_data {
            Action::DataCommandHigh
        } else {
            Action::DataCommandLow
        }
    }

    /// Turns the pipeline's step into the caller's next action. At the
    /// end of the stream chip-select is released, where there is such a
    /// line, and the pipeline's result is kept until then.
    fn conclude(&mut self, step: Step) -> (action: Action)
        requires
            old(self).pipeline.wf(),
            old(self).pipeline.hint() == old(self).avg_data_len_hint,
            step is Finished <==> old(self).pipeline.phase() == Phase::Idle,
            (step matches Step::Finished(result) && result is Ok) ==> old(self).pipeline.is_complete(),
        ensures
            final(self).wf(),
            old(self).same_but_stage(final(self)),
            final(self).follows(action),
            final(self).step_behind(action) == step,
            (action matches Action::Done(result) && result is Ok) ==> final(self).pipeline().is_complete(),
    {
        match step {
            Step::Submit { slot, len } => {
                self.stage = Stage::Streaming;
                Action::Submit { slot, len }
            },
            Step::Wait => {
                self.stage = Stage::Streaming;
                Action::Wait
            },
            Step::Finished(result) => {
                if self.chip_select {
                    self.result = result;
                    self.stage = Stage::Releasing;
                    Action::SelectHigh
                } else {
                    self.stage = Stage::Idle;
                    Action::Done(result)
                }
            },
        }
    }

    /// Takes the outcome of the action before and gives the next action.
    /// `outcome` is `Ok` if the line was set, the submission accepted or
    /// the transfer completed, and `Err` with the engine's fault else; for
    /// a line the fault itself is not looked at.
    ///
    /// `payload` is the payload of the send. While it lies in memory and
    /// the pipeline is in step with it, the pipeline stays in step with
    /// it; a lazy payload that keeps to the laws of iterators gives up
    /// exactly what the pipeline takes.
    pub fn resume<B: Iterator<Item = u8>, W: Iterator<Item = u16>>(
        &mut self,
        outcome: Result<(), TransferFault>,
        payload: &mut PendingPayload<B, W>,
    ) -> (action: Action)
        requires
            old(self).wf(),
        ensures
            final(self).wf(),
            old(self).resumed(final(self), outcome, old(payload), action),
            (action matches Action::Done(result) && result is Ok && old(self).stage() != Stage::Idle)
                ==> final(self).pipeline().is_complete(),
            old(self).pipeline().in_step_with(old(payload))
                ==> final(self).pipeline().in_step_with(final(payload)),
            old(payload).is_slice() ==> *final(payload) == *old(payload),
            *old(payload) is Unsupported ==> *final(payload) is Unsupported,
            *old(payload) matches PendingPayload::ByteIter(before) ==> (*final(payload) matches
            PendingPayload::ByteIter(after) && gave_up(
                <B as IteratorSpec>::obeys_prophetic_iter_laws(&before),
                <B as IteratorSpec>::obeys_prophetic_iter_laws(&after),
                <B as IteratorSpec>::remaining(&before),
                <B as IteratorSpec>::remaining(&after),
                old(self).pipeline().consumed(),
                final(self).pipeline().consumed(),
                final(self).pipeline().exhausted() && !old(self).pipeline().exhausted(),
            )),
            *old(payload) matches PendingPayload::WordIter(before, order) ==> (*final(payload) matches
            PendingPayload::WordIter(after, same) && same == order && gave_up(
                <W as IteratorSpec>::obeys_prophetic_iter_laws(&before),
                <W as IteratorSpec>::obeys_prophetic_iter_laws(&after),
                words_to_bytes(<W as IteratorSpec>::remaining(&before), old(self).pipeline().encoder().resolve(order)),
                words_to_bytes(<W as IteratorSpec>::remaining(&after), old(self).pipeline().encoder().resolve(order)),
                old(self).pipeline().consumed(),
                final(self).pipeline().consumed(),
                final(self).pipeline().exhausted() && !old(self).pipeline().exhausted(),
            )),
    {
        match self.stage {
            Stage::Idle => Action::Done(Ok(())),
            Stage::Selecting => {
                match outcome {
                    Ok(_) => {
                        self.stage = Stage::Commanding;
                        Self::line(self.is_data)
                    },
                    Err(_) => {
                        self.stage = Stage::Idle;
                        Action::Done(Err(Error::ChipSelectError))
                    },
                }
            },
            Stage::Commanding => {
                match outcome {
                    Ok(_) => {
                        let step = self.pipeline.start(payload);
                        self.conclude(step)
                    },
                    Err(_) => {
                        if self.chip_select {
                            self.result = Err(Error::DataCommandLineError);
                            self.stage = Stage::Releasing;
                            Action::SelectHigh
                        } else {
                            self.stage = Stage::Idle;
                            Action::Done(Err(Error::DataCommandLineError))
                        }
                    },
                }
            },
            Stage::Streaming => {
                let step = self.pipeline.advance(outcome, payload);
                self.conclude(step)
            },
            Stage::Releasing => {
                self.stage = Stage::Idle;
                Action::Done(self.result)
            },
        }
    }
}

/// An interface without a chip-select line, with two transfer buffers of
/// `DMA_BUFFER_SIZE` bytes.
pub fn new_no_cs(avg_data_len_hint: usize) -> (interface: SPIInterface)
    ensures
        interface.wf(),
        interface.hint() == avg_data_len_hint,
        !interface.has_chip_select(),
        interface.stage() == Stage::Idle,
        interface.pipeline().capacity() == DMA_BUFFER_SIZE,
        interface.pipeline().phase() == Phase::Idle,
        interface.pipeline().holds_engine(),
        interface.pipeline().transferred() == Seq::<Seq<u8>>::empty(),
{
    SPIInterface::with_capacity(avg_data_len_hint, false, DMA_BUFFER_SIZE)
}

} // verus!
