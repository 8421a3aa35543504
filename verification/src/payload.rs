//! The payload of one logical send.

use crate::encoder::{words_to_bytes, ByteOrder, WordEncoder};
use crate::slot::{rest_from, Filled, Slot, SlotState};
use vstd::prelude::*;
use vstd::std_specs::iter::IteratorSpec;

verus! {

/// What a caller hands over for one logical send. It is consumed by that
/// send and not kept beyond it.
///
/// `B` is the type of a lazy sequence of bytes, `W` that of a lazy
/// sequence of 16-bit words; a payload of slices leaves both unused.
pub enum PendingPayload<'a, B, W> {
    /// Packed bytes, sent as they are.
    Bytes(&'a [u8]),
    /// Packed 16-bit words, each sent in the byte order given.
    Words16(&'a [u16], ByteOrder),
    /// A lazy sequence of bytes, sent as they come.
    ByteIter(B),
    /// A lazy sequence of 16-bit words, each sent in the byte order given.
    WordIter(W, ByteOrder),
    /// A format that this adapter does not carry.
    Unsupported,
}

impl<'a, B, W> PendingPayload<'a, B, W> {
    /// The count of bytes that one word of the payload takes on the wire;
    /// 0 for a format that is not carried.
    pub open spec fn unit(&self) -> nat {
        match self {
            PendingPayload::Bytes(_) => 1,
            PendingPayload::Words16(_, _) => 2,
            PendingPayload::ByteIter(_) => 1,
            PendingPayload::WordIter(_, _) => 2,
            PendingPayload::Unsupported => 0,
        }
    }

    /// Whether the payload lies in memory as a whole.
    pub open spec fn is_slice(&self) -> bool {
        self is Bytes || self is Words16
    }

    /// The count of words of a payload that lies in memory.
    pub open spec fn words(&self) -> nat {
        match self {
            PendingPayload::Bytes(bytes) => bytes@.len(),
            PendingPayload::Words16(words, _) => words@.len(),
            _ => 0,
        }
    }

    /// The wire bytes of a payload that lies in memory, from the word with
    /// index `from` on, as `encoder` lays them out.
    pub open spec fn stream_from(&self, encoder: WordEncoder, from: nat) -> Seq<u8> {
        match self {
            PendingPayload::Bytes(bytes) => rest_from(bytes@, from),
            PendingPayload::Words16(words, order) => words_to_bytes(
                rest_from(words@, from),
                encoder.resolve(*order),
            ),
            _ => Seq::empty(),
        }
    }

    /// The wire bytes of a payload that lies in memory.
    pub open spec fn stream(&self, encoder: WordEncoder) -> Seq<u8> {
        self.stream_from(encoder, 0)
    }

    /// The count of bytes that one word of the payload takes on the wire.
    pub fn word_size(&self) -> (unit: usize)
        ensures
            unit == self.unit(),
    {
        match self {
            PendingPayload::Bytes(_) => 1,
            PendingPayload::Words16(_, _) => 2,
            PendingPayload::ByteIter(_) => 1,
            PendingPayload::WordIter(_, _) => 2,
            PendingPayload::Unsupported => 0,
        }
    }

    /// The beginning of the wire bytes from one word on, up to `limit`
    /// bytes: what one fill takes of a payload that lies in memory.
    pub open spec fn next_chunk(&self, encoder: WordEncoder, from: nat, limit: nat) -> Seq<u8> {
        let pending = self.stream_from(encoder, from);
        if pending.len() <= limit {
            pending
        } else {
            pending.take(limit as int)
        }
    }

    /// The wire bytes from one word on begin with those of the words up
    /// to a later one and go on with the wire bytes from there.
    pub proof fn lemma_stream_from_split(&self, encoder: WordEncoder, from: nat, count: nat)
        requires
            from + count <= self.words(),
        ensures
            self.stream_from(encoder, from) == self.stream_from(encoder, from).take(
                (count * self.unit()) as int,
            ) + self.stream_from(encoder, from + count),
            self.stream_from(encoder, from).len() == (self.words() - from) * self.unit(),
    {
        match self {
            PendingPayload::Bytes(bytes) => {
                let rest = rest_from(bytes@, from);
                assert(self.unit() == 1 && count * self.unit() == count);
                assert((self.words() - from) * self.unit() == self.words() - from);
                assert(rest.take(count as int) + rest_from(bytes@, from + count) =~= rest);
            },
            PendingPayload::Words16(words, order) => {
                let rest = rest_from(words@, from);
                let explicit = encoder.resolve(*order);
                assert(self.unit() == 2 && count * self.unit() == 2 * count);
                assert((self.words() - from) * self.unit() == 2 * (self.words() - from));
                crate::encoder::lemma_words_to_bytes_split(rest, count as int, explicit);
                assert(rest.skip(count as int) =~= rest_from(words@, from + count));
                assert(words_to_bytes(rest, explicit).take((2 * count) as int) =~= words_to_bytes(
                    rest.take(count as int),
                    explicit,
                ));
            },
            _ => {
                assert(self.words() == 0 && from == 0 && count == 0);
                assert(count * self.unit() == 0 && (self.words() - from) * self.unit() == 0);
                assert(Seq::<u8>::empty().take(0) + Seq::<u8>::empty() =~= Seq::<u8>::empty());
            },
        }
    }
}

/// What a fill takes of a source that lies in memory, of which `pending`
/// are the wire bytes not taken yet: their beginning up to `limit` bytes.
/// `next` is the index of the word at which the next fill goes on, after
/// the word with index `from`, in a source of `total` words of `unit`
/// bytes; the source is dry when nothing is left for a next fill.
pub open spec fn slice_taken(
    pending: Seq<u8>,
    unit: nat,
    total: nat,
    from: nat,
    limit: nat,
    chunk: Seq<u8>,
    dried: bool,
    next: nat,
) -> bool {
    &&& chunk == (if pending.len() <= limit {
        pending
    } else {
        pending.take(limit as int)
    })
    &&& dried == (pending.len() <= limit)
    &&& next * unit == from * unit + chunk.len()
    &&& (chunk.len() > 0 ==> next <= total)
    &&& (dried && from <= total ==> next == total)
}

/// What a step takes of a lazy source that keeps to the laws of
/// iterators. `had` and `has` are the wire bytes that the source had to
/// give before the step and has to give after it, `held` and `holds` what
/// was taken from it before and after. The two together stay what they
/// were, and a source that was seen to run dry has nothing more to give.
/// That the source keeps to the laws does not change with the step.
pub open spec fn gave_up(
    lawful_before: bool,
    lawful_after: bool,
    had: Seq<u8>,
    has: Seq<u8>,
    held: Seq<u8>,
    holds: Seq<u8>,
    dried: bool,
) -> bool {
    &&& lawful_after == lawful_before
    &&& (lawful_before ==> holds + has == held + had && (dried ==> has.len() == 0))
}

/// Fills the empty slot with bytes of `source` from index `from` on.
fn take_bytes(slot: &mut Slot, encoder: &WordEncoder, source: &[u8], from: usize, limit: usize) -> (taken:
    (Filled, usize))
    requires
        old(slot).wf(),
        old(slot).state() == SlotState::Filling,
        old(slot).bytes().len() == 0,
        limit <= old(slot).capacity(),
    ensures
        final(slot).wf(),
        final(slot).capacity() == old(slot).capacity(),
        final(slot).state() == SlotState::Filling,
        final(slot).bytes().len() == taken.0.len,
        taken.0.len <= limit,
        !taken.0.dried ==> taken.0.len == limit,
        slice_taken(
            rest_from(source@, from as nat),
            1,
            source@.len(),
            from as nat,
            limit as nat,
            final(slot).bytes(),
            taken.0.dried,
            taken.1 as nat,
        ),
{
    let total: usize = source.len();
    let filled = slot.fill_bytes(encoder, source, from, limit);
    let next: usize = if filled.len == 0 {
        from
    } else {
        from + filled.len
    };
    proof {
        let pending = rest_from(source@, from as nat);
        assert(pending.len() == (if from <= total { total - from } else { 0 }));
        assert(pending.take(pending.len() as int) =~= pending);
    }
    (filled, next)
}

/// Fills the empty slot with the wire bytes of the words of `source` from
/// index `from` on.
fn take_words(
    slot: &mut Slot,
    encoder: &WordEncoder,
    source: &[u16],
    order: ByteOrder,
    from: usize,
    limit: usize,
) -> (taken: (Filled, usize))
    requires
        old(slot).wf(),
        encoder.wf(),
        old(slot).state() == SlotState::Filling,
        old(slot).bytes().len() == 0,
        limit <= old(slot).capacity(),
        limit % 2 == 0,
    ensures
        final(slot).wf(),
        final(slot).capacity() == old(slot).capacity(),
        final(slot).state() == SlotState::Filling,
        final(slot).bytes().len() == taken.0.len,
        taken.0.len <= limit,
        !taken.0.dried ==> taken.0.len == limit,
        slice_taken(
            words_to_bytes(rest_from(source@, from as nat), encoder.resolve(order)),
            2,
            source@.len(),
            from as nat,
            limit as nat,
            final(slot).bytes(),
            taken.0.dried,
            taken.1 as nat,
        ),
{
    let total: usize = source.len();
    let filled = slot.fill_words(encoder, source, order, from, limit);
    let next: usize = if filled.len == 0 {
        from
    } else {
        from + filled.len / 2
    };
    proof {
        let rest = rest_from(source@, from as nat);
        let explicit = encoder.resolve(order);
        let pending = words_to_bytes(rest, explicit);
        let count = filled.len as int / 2;
        assert(rest.len() == (if from <= total { total - from } else { 0 }));
        assert(pending.len() == 2 * rest.len());
        crate::encoder::lemma_words_to_bytes_split(rest, count, explicit);
        assert(pending.take(2 * count) =~= words_to_bytes(rest.take(count), explicit));
        assert(pending.take(pending.len() as int) =~= pending);
    }
    (filled, next)
}

/// Fills the empty slot from the payload, up to `limit` bytes. Returns
/// what the fill came to, and the index of the word at which the next
/// fill of a payload that lies in memory goes on.
///
/// Of a payload that lies in memory the words from index `from` on are
/// taken. Of a lazy payload that keeps to the laws of iterators the next
/// words are taken that it had to give.
pub fn fill_slot<B: Iterator<Item = u8>, W: Iterator<Item = u16>>(
    payload: &mut PendingPayload<B, W>,
    slot: &mut Slot,
    encoder: &WordEncoder,
    from: usize,
    limit: usize,
) -> (taken: (Filled, usize))
    requires
        old(slot).wf(),
        encoder.wf(),
        old(slot).state() == SlotState::Filling,
        old(slot).bytes().len() == 0,
        limit <= old(slot).capacity(),
        old(payload).unit() == 2 ==> limit % 2 == 0,
    ensures
        final(slot).wf(),
        final(slot).capacity() == old(slot).capacity(),
        final(slot).state() == SlotState::Filling,
        final(slot).bytes().len() == taken.0.len,
        taken.0.len <= limit,
        !taken.0.dried ==> taken.0.len == limit,
        old(payload).is_slice() ==> *final(payload) == *old(payload) && slice_taken(
            old(payload).stream_from(*encoder, from as nat),
            old(payload).unit(),
            old(payload).words(),
            from as nat,
            limit as nat,
            final(slot).bytes(),
            taken.0.dried,
            taken.1 as nat,
        ),
        !old(payload).is_slice() ==> taken.1 == from,
        *old(payload) is Unsupported ==> *final(payload) is Unsupported && taken.0.len == 0
            && taken.0.dried,
        *old(payload) matches PendingPayload::ByteIter(before) ==> (*final(payload) matches
        PendingPayload::ByteIter(after) && gave_up(
            <B as IteratorSpec>::obeys_prophetic_iter_laws(&before),
            <B as IteratorSpec>::obeys_prophetic_iter_laws(&after),
            <B as IteratorSpec>::remaining(&before),
            <B as IteratorSpec>::remaining(&after),
            Seq::empty(),
            final(slot).bytes(),
            taken.0.dried,
        )),
        *old(payload) matches PendingPayload::WordIter(before, order) ==> (*final(payload) matches
        PendingPayload::WordIter(after, same) && same == order && gave_up(
            <W as IteratorSpec>::obeys_prophetic_iter_laws(&before),
            <W as IteratorSpec>::obeys_prophetic_iter_laws(&after),
            words_to_bytes(<W as IteratorSpec>::remaining(&before), encoder.resolve(order)),
            words_to_bytes(<W as IteratorSpec>::remaining(&after), encoder.resolve(order)),
            Seq::empty(),
            final(slot).bytes(),
            taken.0.dried,
        )),
{
    match payload {
        PendingPayload::Bytes(bytes) => take_bytes(slot, encoder, *bytes, from, limit),
        PendingPayload::Words16(words, order) => take_words(
            slot,
            encoder,
            *words,
            *order,
            from,
            limit,
        ),
        PendingPayload::ByteIter(source) => {
            let ghost had = <B as IteratorSpec>::remaining(source);
            let filled = slot.fill_byte_iter(encoder, source, limit);
            proof {
                assert(Seq::<u8>::empty() + had =~= had);
            }
            (filled, from)
        },
        PendingPayload::WordIter(source, order) => {
            let ghost had = words_to_bytes(
                <W as IteratorSpec>::remaining(source),
                encoder.resolve(*order),
            );
            let filled = slot.fill_word_iter(encoder, source, *order, limit);
            proof {
                assert(Seq::<u8>::empty() + had =~= had);
            }
            (filled, from)
        },
        PendingPayload::Unsupported => (Filled { len: 0, dried: true }, from),
    }
}

} // verus!
