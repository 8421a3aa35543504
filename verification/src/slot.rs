//! A transfer buffer of fixed capacity, and the ways to fill it.
//!
//! A slot is filled from the start, word by word and in whole words, until
//! a limit is reached or the source has no more. Byte-order conversion
//! happens as a word is written, never afterwards.

use crate::encoder::{words_to_bytes, ByteOrder, WordEncoder};
use vstd::prelude::*;
use vstd::slice::slice_subrange;
use vstd::std_specs::iter::IteratorSpec;

verus! {

/// Where a slot stands in its life: free, being filled by software, or
/// handed to a transfer that has not been reclaimed yet.
#[derive(Clone, Copy, Debug, PartialEq, Eq, Structural)]
pub enum SlotState {
    Free,
    Filling,
    Submitted,
}

/// What a fill put into a slot.
#[derive(Clone, Copy, Debug)]
pub struct Filled {
    /// The count of bytes that the slot now holds.
    pub len: usize,
    /// Whether the source was seen to have no more.
    pub dried: bool,
}

/// The part of `source` from `from` on; nothing, if `from` lies behind its
/// end.
pub open spec fn rest_from<T>(source: Seq<T>, from: nat) -> Seq<T> {
    if from <= source.len() {
        source.skip(from as int)
    } else {
        Seq::empty()
    }
}

/// One transfer buffer.
pub struct Slot {
    buffer: Vec<u8>,
    len: usize,
    state: SlotState,
}

impl Slot {
    /// The logical length lies within the buffer, and a free slot holds
    /// nothing.
    pub closed spec fn wf(&self) -> bool {
        &&& self.len <= self.buffer@.len()
        &&& self.state == SlotState::Free ==> self.len == 0
    }

    /// The fixed capacity of the slot, in bytes.
    pub closed spec fn capacity(&self) -> nat {
        self.buffer@.len()
    }

    /// The bytes that the slot holds: its buffer up to the logical length.
    pub closed spec fn bytes(&self) -> Seq<u8> {
        self.buffer@.take(self.len as int)
    }

    /// The state of the slot.
    pub closed spec fn state(&self) -> SlotState {
        self.state
    }

    /// A free slot of `capacity` bytes.
    pub fn new(capacity: usize) -> (slot: Self)
        ensures
            slot.wf(),
            slot.capacity() == capacity,
            slot.state() == SlotState::Free,
            slot.bytes() == Seq::<u8>::empty(),
    {
        let mut buffer: Vec<u8> = Vec::new();
        let mut i: usize = 0;
        while i < capacity
            invariant
                i <= capacity,
                buffer@.len() == i,
            decreases capacity - i,
        {
            buffer.push(0);
            i += 1;
        }
        Slot { buffer, len: 0, state: SlotState::Free }
    }

    /// The state of the slot.
    pub fn current_state(&self) -> (state: SlotState)
        ensures
            state == self.state(),
    {
        self.state
    }

    /// The count of bytes that the slot holds.
    pub fn len(&self) -> (len: usize)
        requires
            self.wf(),
        ensures
            len == self.bytes().len(),
    {
        self.len
    }

    /// The bytes that the slot holds.
    pub fn as_bytes(&self) -> (bytes: &[u8])
        requires
            self.wf(),
        ensures
            bytes@ == self.bytes(),
    {
        slice_subrange(self.buffer.as_slice(), 0, self.len)
    }

    /// Takes the slot for filling: it is emptied and marked `Filling`. A
    /// slot that a transfer owns must not be taken.
    pub fn begin_fill(&mut self)
        requires
            old(self).wf(),
            old(self).state() != SlotState::Submitted,
        ensures
            final(self).wf(),
            final(self).capacity() == old(self).capacity(),
            final(self).state() == SlotState::Filling,
            final(self).bytes() == Seq::<u8>::empty(),
    {
        self.len = 0;
        self.state = SlotState::Filling;
    }

    /// Hands the filled slot to a transfer.
    pub fn mark_submitted(&mut self)
        requires
            old(self).wf(),
            old(self).state() == SlotState::Filling,
        ensures
            final(self).wf(),
            final(self).capacity() == old(self).capacity(),
            final(self).state() == SlotState::Submitted,
            final(self).bytes() == old(self).bytes(),
    {
        self.state = SlotState::Submitted;
    }

    /// Takes the slot back, from a transfer that is over or from a fill
    /// that is given up: it is free and empty again.
    pub fn mark_reclaimed(&mut self)
        requires
            old(self).wf(),
        ensures
            final(self).wf(),
            final(self).capacity() == old(self).capacity(),
            final(self).state() == SlotState::Free,
            final(self).bytes() == Seq::<u8>::empty(),
    {
        self.len = 0;
        self.state = SlotState::Free;
    }

    /// Appends one byte-format word.
    pub fn push_u8(&mut self, encoder: &WordEncoder, word: u8)
        requires
            old(self).wf(),
            old(self).state() == SlotState::Filling,
            old(self).bytes().len() + 1 <= old(self).capacity(),
        ensures
            final(self).wf(),
            final(self).capacity() == old(self).capacity(),
            final(self).state() == SlotState::Filling,
            final(self).bytes() == old(self).bytes().push(word),
    {
        let capacity: usize = self.buffer.len();
        assert(self.bytes().len() == self.len && self.len < capacity);
        let written: usize = encoder.encode_u8(word, &mut self.buffer, self.len);
        self.len = self.len + written;
        assert(self.buffer@.take(self.len as int) =~= old(self).buffer@.take(old(self).len as int).push(
            word,
        ));
    }

    /// Appends one 16-bit word in the byte order asked for.
    pub fn push_u16(&mut self, encoder: &WordEncoder, word: u16, order: ByteOrder)
        requires
            old(self).wf(),
            encoder.wf(),
            old(self).state() == SlotState::Filling,
            old(self).bytes().len() + 2 <= old(self).capacity(),
        ensures
            final(self).wf(),
            final(self).capacity() == old(self).capacity(),
            final(self).state() == SlotState::Filling,
            final(self).bytes() == old(self).bytes() + encoder.wire_bytes(word, order),
    {
        let capacity: usize = self.buffer.len();
        assert(self.bytes().len() == self.len && self.len + 2 <= capacity);
        let written: usize = encoder.encode_u16(word, order, &mut self.buffer, self.len);
        self.len = self.len + written;
        assert(self.buffer@.take(self.len as int) =~= old(self).buffer@.take(old(self).len as int)
            + encoder.wire_bytes(word, order));
    }

    /// Fills the empty slot with bytes of `source`, from index `from` on,
    /// until it holds `limit` bytes or the source ends.
    pub fn fill_bytes(&mut self, encoder: &WordEncoder, source: &[u8], from: usize, limit: usize) -> (filled:
        Filled)
        requires
            old(self).wf(),
            old(self).state() == SlotState::Filling,
            old(self).bytes().len() == 0,
            limit <= old(self).capacity(),
        ensures
            final(self).wf(),
            final(self).capacity() == old(self).capacity(),
            final(self).state() == SlotState::Filling,
            final(self).bytes().len() == filled.len,
            final(self).bytes() == rest_from(source@, from as nat).take(filled.len as int),
            filled.len <= limit,
            filled.len <= rest_from(source@, from as nat).len(),
            filled.dried <==> filled.len == rest_from(source@, from as nat).len(),
            !filled.dried ==> filled.len == limit,
    {
        let total: usize = source.len();
        let mut at: usize = from;
        let mut len: usize = 0;
        let ghost rest = rest_from(source@, from as nat);
        assert(self.bytes() =~= rest.take(0));
        while len < limit && at < total
            invariant
                self.wf(),
                self.capacity() == old(self).capacity(),
                self.state() == SlotState::Filling,
                limit <= self.capacity(),
                total == source@.len(),
                rest == rest_from(source@, from as nat),
                len <= limit,
                from <= at,
                at <= total || at == from,
                at == from + len,
                self.bytes().len() == len,
                self.bytes() == rest.take(len as int),
            decreases total - at,
        {
            let byte: u8 = source[at];
            proof {
                assert(rest.take(len + 1) =~= rest.take(len as int).push(byte));
            }
            self.push_u8(encoder, byte);
            at = at + 1;
            len = len + 1;
        }
        Filled { len, dried: at >= total }
    }

    /// Fills the empty slot with the wire bytes of the words of `source`,
    /// from index `from` on, until it holds `limit` bytes or the source
    /// ends.
    pub fn fill_words(
        &mut self,
        encoder: &WordEncoder,
        source: &[u16],
        order: ByteOrder,
        from: usize,
        limit: usize,
    ) -> (filled: Filled)
        requires
            old(self).wf(),
            encoder.wf(),
            old(self).state() == SlotState::Filling,
            old(self).bytes().len() == 0,
            limit <= old(self).capacity(),
            limit % 2 == 0,
        ensures
            final(self).wf(),
            final(self).capacity() == old(self).capacity(),
            final(self).state() == SlotState::Filling,
            final(self).bytes().len() == filled.len,
            filled.len % 2 == 0,
            final(self).bytes() == words_to_bytes(
                rest_from(source@, from as nat).take(filled.len as int / 2),
                encoder.resolve(order),
            ),
            filled.len <= limit,
            filled.len / 2 <= rest_from(source@, from as nat).len(),
            filled.dried <==> filled.len / 2 == rest_from(source@, from as nat).len(),
            !filled.dried ==> filled.len == limit,
    {
        let total: usize = source.len();
        let mut at: usize = from;
        let mut len: usize = 0;
        let ghost rest = rest_from(source@, from as nat);
        let ghost explicit = encoder.resolve(order);
        assert(self.bytes() =~= words_to_bytes(rest.take(0), explicit));
        while len < limit && at < total
            invariant
                self.wf(),
                encoder.wf(),
                self.capacity() == old(self).capacity(),
                self.state() == SlotState::Filling,
                limit <= self.capacity(),
                limit % 2 == 0,
                total == source@.len(),
                rest == rest_from(source@, from as nat),
                explicit == encoder.resolve(order),
                len <= limit,
                len % 2 == 0,
                from <= at,
                at <= total || at == from,
                at == from + len / 2,
                self.bytes().len() == len,
                self.bytes() == words_to_bytes(rest.take(len as int / 2), explicit),
            decreases total - at,
        {
            let word: u16 = source[at];
            proof {
                let count = len as int / 2;
                assert(rest.take(count + 1) =~= rest.take(count).push(word));
                lemma_words_to_bytes_push(rest.take(count), word, explicit);
            }
            self.push_u16(encoder, word, order);
            at = at + 1;
            len = len + 2;
        }
        Filled { len, dried: at >= total }
    }

    /// Fills the empty slot with the bytes that `source` yields, until it
    /// holds `limit` bytes or the source yields no more.
    ///
    /// Of a source that keeps to the laws of iterators the contract says
    /// which bytes these are: the next ones that it had to give.
    pub fn fill_byte_iter<B: Iterator<Item = u8>>(
        &mut self,
        encoder: &WordEncoder,
        source: &mut B,
        limit: usize,
    ) -> (filled: Filled)
        requires
            old(self).wf(),
            old(self).state() == SlotState::Filling,
            old(self).bytes().len() == 0,
            limit <= old(self).capacity(),
        ensures
            final(self).wf(),
            final(self).capacity() == old(self).capacity(),
            final(self).state() == SlotState::Filling,
            final(self).bytes().len() == filled.len,
            filled.len <= limit,
            !filled.dried ==> filled.len == limit,
            <B as IteratorSpec>::obeys_prophetic_iter_laws(final(source)) == <B as IteratorSpec>::obeys_prophetic_iter_laws(
                old(source),
            ),
            <B as IteratorSpec>::obeys_prophetic_iter_laws(old(source)) ==> {
                &&& <B as IteratorSpec>::remaining(old(source)) == final(self).bytes()
                    + <B as IteratorSpec>::remaining(final(source))
                &&& filled.dried ==> <B as IteratorSpec>::remaining(final(source)).len() == 0
            },
    {
        let mut dried: bool = false;
        let mut len: usize = 0;
        assert(self.bytes() + <B as IteratorSpec>::remaining(source) =~= <B as IteratorSpec>::remaining(
            source,
        ));
        while len < limit && !dried
            invariant
                self.wf(),
                self.capacity() == old(self).capacity(),
                self.state() == SlotState::Filling,
                limit <= self.capacity(),
                len <= limit,
                self.bytes().len() == len,
                <B as IteratorSpec>::obeys_prophetic_iter_laws(source)
                    == <B as IteratorSpec>::obeys_prophetic_iter_laws(old(source)),
                <B as IteratorSpec>::obeys_prophetic_iter_laws(old(source)) ==> {
                    &&& <B as IteratorSpec>::remaining(old(source)) == self.bytes()
                        + <B as IteratorSpec>::remaining(source)
                    &&& dried ==> <B as IteratorSpec>::remaining(source).len() == 0
                },
            decreases limit - len + (if dried { 0int } else { 1int }),
        {
            let ghost before = <B as IteratorSpec>::remaining(source);
            let ghost held = self.bytes();
            match source.next() {
                Some(byte) => {
                    self.push_u8(encoder, byte);
                    len = len + 1;
                    proof {
                        if <B as IteratorSpec>::obeys_prophetic_iter_laws(old(source)) {
                            assert(before =~= seq![byte] + before.drop_first());
                            assert(held.push(byte) + before.drop_first() =~= held + before);
                        }
                    }
                },
                None => {
                    dried = true;
                },
            }
        }
        Filled { len, dried }
    }

    /// Fills the empty slot with the wire bytes of the words that `source`
    /// yields, until it holds `limit` bytes or the source yields no more.
    ///
    /// Of a source that keeps to the laws of iterators the contract says
    /// which words these are: the next ones that it had to give.
    pub fn fill_word_iter<W: Iterator<Item = u16>>(
        &mut self,
        encoder: &WordEncoder,
        source: &mut W,
        order: ByteOrder,
        limit: usize,
    ) -> (filled: Filled)
        requires
            old(self).wf(),
            encoder.wf(),
            old(self).state() == SlotState::Filling,
            old(self).bytes().len() == 0,
            limit <= old(self).capacity(),
            limit % 2 == 0,
        ensures
            final(self).wf(),
            final(self).capacity() == old(self).capacity(),
            final(self).state() == SlotState::Filling,
            final(self).bytes().len() == filled.len,
            filled.len % 2 == 0,
            filled.len <= limit,
            !filled.dried ==> filled.len == limit,
            <W as IteratorSpec>::obeys_prophetic_iter_laws(final(source)) == <W as IteratorSpec>::obeys_prophetic_iter_laws(
                old(source),
            ),
            <W as IteratorSpec>::obeys_prophetic_iter_laws(old(source)) ==> {
                &&& words_to_bytes(<W as IteratorSpec>::remaining(old(source)), encoder.resolve(order))
                    == final(self).bytes() + words_to_bytes(
                    <W as IteratorSpec>::remaining(final(source)),
                    encoder.resolve(order),
                )
                &&& filled.dried ==> <W as IteratorSpec>::remaining(final(source)).len() == 0
            },
    {
        let mut dried: bool = false;
        let mut len: usize = 0;
        let ghost explicit = encoder.resolve(order);
        let ghost mut pulled: Seq<u16> = Seq::empty();
        assert(self.bytes() =~= words_to_bytes(pulled, explicit));
        assert(pulled + <W as IteratorSpec>::remaining(source) =~= <W as IteratorSpec>::remaining(
            source,
        ));
        while len < limit && !dried
            invariant
                self.wf(),
                encoder.wf(),
                self.capacity() == old(self).capacity(),
                self.state() == SlotState::Filling,
                limit <= self.capacity(),
                limit % 2 == 0,
                len <= limit,
                len % 2 == 0,
                self.bytes().len() == len,
                explicit == encoder.resolve(order),
                self.bytes() == words_to_bytes(pulled, explicit),
                <W as IteratorSpec>::obeys_prophetic_iter_laws(source)
                    == <W as IteratorSpec>::obeys_prophetic_iter_laws(old(source)),
                <W as IteratorSpec>::obeys_prophetic_iter_laws(old(source)) ==> {
                    &&& <W as IteratorSpec>::remaining(old(source)) == pulled
                        + <W as IteratorSpec>::remaining(source)
                    &&& dried ==> <W as IteratorSpec>::remaining(source).len() == 0
                },
            decreases limit - len + (if dried { 0int } else { 1int }),
        {
            let ghost before = <W as IteratorSpec>::remaining(source);
            match source.next() {
                Some(word) => {
                    proof {
                        lemma_words_to_bytes_push(pulled, word, explicit);
                    }
                    self.push_u16(encoder, word, order);
                    len = len + 2;
                    proof {
                        if <W as IteratorSpec>::obeys_prophetic_iter_laws(old(source)) {
                            assert(before =~= seq![word] + before.drop_first());
                            assert(pulled.push(word) + before.drop_first() =~= pulled + before);
                        }
                        pulled = pulled.push(word);
                    }
                },
                None => {
                    dried = true;
                },
            }
        }
        proof {
            if <W as IteratorSpec>::obeys_prophetic_iter_laws(old(source)) {
                let all = <W as IteratorSpec>::remaining(old(source));
                let left = <W as IteratorSpec>::remaining(source);
                crate::encoder::lemma_words_to_bytes_split(all, pulled.len() as int, explicit);
                assert(all.take(pulled.len() as int) =~= pulled);
                assert(all.skip(pulled.len() as int) =~= left);
            }
        }
        Filled { len, dried }
    }
}

/// The byte stream of a sequence of words with one more word is the byte
/// stream of the sequence and then the bytes of that word.
pub proof fn lemma_words_to_bytes_push(words: Seq<u16>, word: u16, order: ByteOrder)
    ensures
        words_to_bytes(words.push(word), order) == words_to_bytes(words, order)
            + crate::encoder::word_bytes(word, order),
{
    let longer = words_to_bytes(words.push(word), order);
    let sum = words_to_bytes(words, order) + crate::encoder::word_bytes(word, order);
    assert(longer.len() == sum.len());
    assert forall|i: int| 0 <= i < longer.len() implies longer[i] == sum[i] by {
        if i < 2 * words.len() {
            assert(i / 2 < words.len());
        } else {
            assert(i / 2 == words.len());
            assert(i - 2 * words.len() == i % 2);
        }
    }
    assert(longer =~= sum);
}

} // verus!
