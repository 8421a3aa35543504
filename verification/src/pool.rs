//! The pool of transfer buffers: exactly two slots of one capacity.
//!
//! While the hardware drains one slot, software fills the other. A slot
//! that a transfer owns is never handed out for filling, and no two slots
//! are ever owned by transfers at once.

use crate::slot::{Slot, SlotState};
use vstd::prelude::*;

verus! {

/// The smallest capacity a slot may have: one 16-bit word must fit.
pub const MIN_SLOT_CAPACITY: usize = 2;

/// The index of the slot that is not `index`.
pub open spec fn other_slot(index: int) -> int {
    if index == 0 {
        1
    } else {
        0
    }
}

/// Two slots, with the indices 0 and 1.
pub struct BufferPool {
    first: Slot,
    second: Slot,
}

impl BufferPool {
    /// The slot with the given index.
    pub closed spec fn slot(&self, index: int) -> Slot {
        if index == 0 {
            self.first
        } else {
            self.second
        }
    }

    /// The capacity of each slot.
    pub open spec fn capacity(&self) -> nat {
        self.slot(0).capacity()
    }

    /// Both slots are well formed and of one capacity, in which a 16-bit
    /// word fits, and at most one of them is owned by a transfer.
    pub open spec fn wf(&self) -> bool {
        &&& self.slot(0).wf()
        &&& self.slot(1).wf()
        &&& self.slot(0).capacity() == self.slot(1).capacity()
        &&& self.slot(0).capacity() >= MIN_SLOT_CAPACITY
        &&& !(self.slot(0).state() == SlotState::Submitted && self.slot(1).state()
            == SlotState::Submitted)
    }

    /// A pool of two free slots of `capacity` bytes each.
    pub fn new(capacity: usize) -> (pool: Self)
        requires
            capacity >= MIN_SLOT_CAPACITY,
        ensures
            pool.wf(),
            pool.capacity() == capacity,
            pool.slot(0).state() == SlotState::Free,
            pool.slot(1).state() == SlotState::Free,
            pool.slot(0).bytes() == Seq::<u8>::empty(),
            pool.slot(1).bytes() == Seq::<u8>::empty(),
    {
        BufferPool { first: Slot::new(capacity), second: Slot::new(capacity) }
    }

    /// The index of the slot that is not `index`: the one to fill next.
    pub fn alternate(index: usize) -> (next: usize)
        ensures
            next == other_slot(index as int),
    {
        if index == 0 {
            1
        } else {
            0
        }
    }

    /// The state of the slot with the given index.
    pub fn state(&self, index: usize) -> (state: SlotState)
        ensures
            state == self.slot(index as int).state(),
    {
        if index == 0 {
            self.first.current_state()
        } else {
            self.second.current_state()
        }
    }

    /// The bytes that the slot with the given index holds.
    pub fn chunk(&self, index: usize) -> (bytes: &[u8])
        requires
            self.wf(),
        ensures
            bytes@ == self.slot(index as int).bytes(),
    {
        if index == 0 {
            self.first.as_bytes()
        } else {
            self.second.as_bytes()
        }
    }

    /// Hands out a slot for filling, emptied and marked `Filling`. A slot
    /// that a transfer owns must not be asked for. The other slot stays as
    /// it is.
    pub fn acquire_free(&mut self, index: usize) -> (slot: &mut Slot)
        requires
            old(self).wf(),
            old(self).slot(index as int).state() != SlotState::Submitted,
        ensures
            slot.wf(),
            slot.state() == SlotState::Filling,
            slot.bytes() == Seq::<u8>::empty(),
            slot.capacity() == old(self).capacity(),
            final(self).slot(if index == 0 { 0 } else { 1 }) == *final(slot),
            final(self).slot(other_slot(index as int)) == old(self).slot(other_slot(index as int)),
    {
        if index == 0 {
            self.first.begin_fill();
            &mut self.first
        } else {
            self.second.begin_fill();
            &mut self.second
        }
    }

    /// Marks the filled slot as handed to a transfer. The other slot must
    /// not be owned by a transfer, and stays as it is.
    pub fn mark_submitted(&mut self, index: usize)
        requires
            old(self).wf(),
            old(self).slot(index as int).state() == SlotState::Filling,
            old(self).slot(other_slot(index as int)).state() != SlotState::Submitted,
        ensures
            final(self).wf(),
            final(self).slot(if index == 0 { 0 } else { 1 }).state() == SlotState::Submitted,
            final(self).slot(if index == 0 { 0 } else { 1 }).bytes() == old(self).slot(
                index as int,
            ).bytes(),
            final(self).slot(if index == 0 { 0 } else { 1 }).capacity() == old(self).capacity(),
            final(self).slot(other_slot(index as int)) == old(self).slot(other_slot(index as int)),
    {
        if index == 0 {
            self.first.mark_submitted();
        } else {
            self.second.mark_submitted();
        }
    }

    /// Takes a slot back: it is free and empty again. The other slot
    /// stays as it is.
    pub fn mark_reclaimed(&mut self, index: usize)
        requires
            old(self).wf(),
        ensures
            final(self).wf(),
            final(self).slot(if index == 0 { 0 } else { 1 }).state() == SlotState::Free,
            final(self).slot(if index == 0 { 0 } else { 1 }).bytes() == Seq::<u8>::empty(),
            final(self).slot(if index == 0 { 0 } else { 1 }).capacity() == old(self).capacity(),
            final(self).slot(other_slot(index as int)) == old(self).slot(other_slot(index as int)),
    {
        if index == 0 {
            self.first.mark_reclaimed();
        } else {
            self.second.mark_reclaimed();
        }
    }
}

} // verus!
