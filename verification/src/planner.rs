//! Chunk planning: how many bytes go into each transfer, and the chunks
//! into which a byte stream falls under that plan.

use vstd::prelude::*;

verus! {

/// The capacity planned for a chunk. The first chunk of an operation with a
/// hint takes the hint modulo the slot capacity, if that is not zero, so
/// that a short operation of known size is not padded to a full buffer;
/// every other chunk takes the full slot capacity.
pub open spec fn chunk_capacity(slot_capacity: nat, remaining_hint: nat, is_first_chunk: bool) -> nat {
    if is_first_chunk && slot_capacity > 0 && remaining_hint % slot_capacity != 0 {
        remaining_hint % slot_capacity
    } else {
        slot_capacity
    }
}

/// Decides how many bytes the next chunk is planned to hold.
pub fn next_chunk_capacity(slot_capacity: usize, remaining_hint: usize, is_first_chunk: bool) -> (capacity:
    usize)
    ensures
        capacity == chunk_capacity(slot_capacity as nat, remaining_hint as nat, is_first_chunk),
        capacity <= slot_capacity,
        slot_capacity > 0 ==> capacity > 0,
{
    if is_first_chunk && slot_capacity > 0 {
        let rest: usize = remaining_hint % slot_capacity;
        if rest != 0 {
            return rest;
        }
    }
    slot_capacity
}

/// The most bytes that a chunk of whole words takes when `planned` bytes
/// are aimed at: words of `unit` bytes are placed until `planned` bytes are
/// reached, and a word that would not fit into the slot is not begun.
pub open spec fn chunk_limit(planned: nat, unit: nat, slot_capacity: nat) -> nat {
    if unit == 0 || planned % unit == 0 {
        planned
    } else if planned - planned % unit + unit <= slot_capacity {
        (planned - planned % unit + unit) as nat
    } else {
        (planned - planned % unit) as nat
    }
}

/// Computes the limit of a chunk of whole words of one or two bytes.
pub fn whole_word_limit(planned: usize, unit: usize, slot_capacity: usize) -> (limit: usize)
    requires
        unit == 1 || unit == 2,
        unit <= slot_capacity,
        0 < planned <= slot_capacity,
    ensures
        limit == chunk_limit(planned as nat, unit as nat, slot_capacity as nat),
        0 < limit <= slot_capacity,
        limit % unit == 0,
{
    let over: usize = planned % unit;
    if over == 0 {
        planned
    } else if unit - over <= slot_capacity - planned {
        planned - over + unit
    } else {
        planned - over
    }
}

/// The limit of the first chunk of an operation on a pool of slots of
/// `slot_capacity` bytes, with words of `unit` bytes and the length hint
/// `hint`.
pub open spec fn first_limit(slot_capacity: nat, hint: nat, unit: nat) -> nat {
    chunk_limit(chunk_capacity(slot_capacity, hint, true), unit, slot_capacity)
}

/// The limit of every later chunk.
pub open spec fn later_limit(slot_capacity: nat, unit: nat) -> nat {
    chunk_limit(slot_capacity, unit, slot_capacity)
}

/// Both limits are at least one word and at most the slot capacity, and
/// they are made of whole words.
pub proof fn lemma_limits(slot_capacity: nat, hint: nat, unit: nat)
    requires
        unit == 1 || unit == 2,
        unit <= slot_capacity,
    ensures
        0 < first_limit(slot_capacity, hint, unit) <= slot_capacity,
        0 < later_limit(slot_capacity, unit) <= slot_capacity,
        first_limit(slot_capacity, hint, unit) % unit == 0,
        later_limit(slot_capacity, unit) % unit == 0,
        unit == 1 ==> first_limit(slot_capacity, hint, unit) == chunk_capacity(
            slot_capacity,
            hint,
            true,
        ) && later_limit(slot_capacity, unit) == slot_capacity,
{
    let planned = chunk_capacity(slot_capacity, hint, true);
    assert(0 < planned <= slot_capacity) by (nonlinear_arith)
        requires
            slot_capacity > 0,
            planned == chunk_capacity(slot_capacity, hint, true),
    ;
}

/// The chunks into which `stream` falls: the first holds `first` bytes,
/// every later one `later` bytes, and the last one what is left.
pub open spec fn split(stream: Seq<u8>, first: nat, later: nat) -> Seq<Seq<u8>>
    decreases stream.len(),
{
    if stream.len() == 0 || first == 0 {
        Seq::empty()
    } else {
        let n = if first <= stream.len() {
            first as int
        } else {
            stream.len() as int
        };
        seq![stream.take(n)] + split(stream.skip(n), later, later)
    }
}

/// Whether a stream of `len` bytes ends where a chunk ends that is full:
/// it is empty, or it holds the first chunk and then whole later chunks.
pub open spec fn ends_on_full_chunk(len: nat, first: nat, later: nat) -> bool
    decreases len,
{
    if len == 0 {
        true
    } else if first == 0 || len < first {
        false
    } else {
        ends_on_full_chunk((len - first) as nat, later, later)
    }
}

/// The limit of the chunk that follows a stream of `len` bytes.
pub open spec fn next_limit(len: nat, first: nat, later: nat) -> nat {
    if len == 0 {
        first
    } else {
        later
    }
}

/// The number of chunks of `capacity` bytes that `len` bytes need.
pub open spec fn chunks_needed(len: nat, capacity: nat) -> nat {
    ((len + capacity - 1) / (capacity as int)) as nat
}

/// Fidelity: the chunks of a stream, one after the other, are the stream.
pub proof fn lemma_split_flatten(stream: Seq<u8>, first: nat, later: nat)
    requires
        first > 0,
        later > 0,
    ensures
        split(stream, first, later).flatten() == stream,
    decreases stream.len(),
{
    if stream.len() == 0 {
        assert(split(stream, first, later).flatten() =~= stream);
    } else {
        let n = if first <= stream.len() {
            first as int
        } else {
            stream.len() as int
        };
        let head = seq![stream.take(n)];
        let tail = split(stream.skip(n), later, later);
        lemma_split_flatten(stream.skip(n), later, later);
        vstd::seq_lib::lemma_flatten_concat(head, tail);
        assert(head.flatten() =~= stream.take(n)) by {
            assert(head.drop_first() =~= Seq::<Seq<u8>>::empty());
            assert(head.first() == stream.take(n));
            assert(head.drop_first().flatten() =~= Seq::<u8>::empty());
        }
        assert(stream.take(n) + stream.skip(n) =~= stream);
    }
}

/// No chunk is empty, the first holds at most `first` bytes and every
/// later one at most `later` bytes.
pub proof fn lemma_split_chunk_sizes(stream: Seq<u8>, first: nat, later: nat, index: int)
    requires
        0 <= index < split(stream, first, later).len(),
    ensures
        0 < split(stream, first, later)[index].len(),
        index == 0 ==> split(stream, first, later)[index].len() <= first,
        index > 0 ==> split(stream, first, later)[index].len() <= later,
    decreases stream.len(),
{
    if stream.len() == 0 || first == 0 {
    } else if index > 0 {
        let n = if first <= stream.len() {
            first as int
        } else {
            stream.len() as int
        };
        let tail = split(stream.skip(n), later, later);
        assert(split(stream, first, later)[index] == tail[index - 1]);
        lemma_split_chunk_sizes(stream.skip(n), later, later, index - 1);
    }
}

/// Every chunk but the last is full: the first holds `first` bytes and
/// every later one `later` bytes.
pub proof fn lemma_split_full_chunks(stream: Seq<u8>, first: nat, later: nat, index: int)
    requires
        0 <= index < split(stream, first, later).len() - 1,
    ensures
        index == 0 ==> split(stream, first, later)[index].len() == first,
        index > 0 ==> split(stream, first, later)[index].len() == later,
    decreases stream.len(),
{
    if stream.len() == 0 || first == 0 {
    } else {
        let n = if first <= stream.len() {
            first as int
        } else {
            stream.len() as int
        };
        let tail = split(stream.skip(n), later, later);
        if first >= stream.len() {
            assert(stream.skip(n).len() == 0);
            assert(tail.len() == 0);
        }
        if index > 0 {
            assert(split(stream, first, later)[index] == tail[index - 1]);
            lemma_split_full_chunks(stream.skip(n), later, later, index - 1);
        }
    }
}

/// The first chunk of a stream that is not empty is its beginning, up to
/// the first limit.
pub proof fn lemma_split_first_chunk(stream: Seq<u8>, first: nat, later: nat)
    requires
        first > 0,
        stream.len() > 0,
    ensures
        split(stream, first, later).len() > 0,
        first <= stream.len() ==> split(stream, first, later)[0] == stream.take(first as int),
        first > stream.len() ==> split(stream, first, later)[0] == stream,
{
    if first > stream.len() {
        assert(stream.take(stream.len() as int) =~= stream);
    }
}

/// Chunk count: with every chunk planned at the full capacity, a stream of
/// `L` bytes falls into `ceil(L / capacity)` chunks.
pub proof fn lemma_split_count(stream: Seq<u8>, capacity: nat)
    requires
        capacity > 0,
    ensures
        split(stream, capacity, capacity).len() == chunks_needed(stream.len(), capacity),
    decreases stream.len(),
{
    let len = stream.len() as int;
    let c = capacity as int;
    if len == 0 {
        assert((len + c - 1) / c == 0) by (nonlinear_arith)
            requires
                len == 0,
                c > 0,
        ;
    } else if len <= c {
        assert(stream.skip(len).len() == 0);
        assert(split(stream.skip(len), capacity, capacity).len() == 0);
        assert((len + c - 1) / c == 1) by (nonlinear_arith)
            requires
                0 < len <= c,
        ;
    } else {
        lemma_split_count(stream.skip(c), capacity);
        assert((len + c - 1) / c == (len - c + c - 1) / c + 1) by (nonlinear_arith)
            requires
                len > c,
                c > 0,
        ;
    }
}

/// Chunk count with a hint: a stream whose length is the hint, and not a
/// multiple of the capacity, falls into `ceil(L / capacity)` chunks, of
/// which the first holds the hint modulo the capacity.
pub proof fn lemma_split_count_hinted(stream: Seq<u8>, capacity: nat)
    requires
        capacity > 0,
        stream.len() % capacity != 0,
    ensures
        split(stream, stream.len() % capacity, capacity).len() == chunks_needed(
            stream.len(),
            capacity,
        ),
        split(stream, stream.len() % capacity, capacity).len() > 0,
        split(stream, stream.len() % capacity, capacity)[0] == stream.take(
            (stream.len() % capacity) as int,
        ),
        split(stream, stream.len() % capacity, capacity)[0].len() == stream.len() % capacity,
{
    let len = stream.len() as int;
    let c = capacity as int;
    let r = len % c;
    assert(0 < r <= len && r < c && (len - r) % c == 0 && (len + c - 1) / c == (len - r) / c + 1)
        by (nonlinear_arith)
        requires
            c > 0,
            len >= 0,
            r == len % c,
            r != 0,
    ;
    lemma_split_first_chunk(stream, r as nat, capacity);
    lemma_split_count(stream.skip(r), capacity);
    assert((len - r + c - 1) / c == (len - r) / c) by (nonlinear_arith)
        requires
            c > 0,
            len - r >= 0,
            (len - r) % c == 0,
    ;
}

/// Empty payload: an empty stream falls into no chunk at all.
pub proof fn lemma_split_empty(first: nat, later: nat)
    ensures
        split(Seq::<u8>::empty(), first, later) == Seq::<Seq<u8>>::empty(),
{
}

/// A stream that ends on a full chunk, with one more chunk after it, falls
/// into the chunks of the stream and then that chunk.
pub proof fn lemma_split_append(stream: Seq<u8>, chunk: Seq<u8>, first: nat, later: nat)
    requires
        first > 0,
        later > 0,
        ends_on_full_chunk(stream.len(), first, later),
        0 < chunk.len() <= next_limit(stream.len(), first, later),
    ensures
        split(stream + chunk, first, later) == split(stream, first, later).push(chunk),
        chunk.len() == next_limit(stream.len(), first, later) ==> ends_on_full_chunk(
            (stream + chunk).len(),
            first,
            later,
        ),
    decreases stream.len(),
{
    let whole = stream + chunk;
    if stream.len() == 0 {
        assert(whole =~= chunk);
        assert(chunk.take(chunk.len() as int) =~= chunk);
        assert(split(chunk.skip(chunk.len() as int), later, later) =~= Seq::<Seq<u8>>::empty());
        assert(split(chunk, first, later) =~= seq![chunk]);
        assert(split(stream, first, later).push(chunk) =~= seq![chunk]);
        if chunk.len() == first {
            assert(ends_on_full_chunk(0, later, later));
        }
    } else {
        let n = first as int;
        let rest = stream.skip(n);
        assert(whole.take(n) =~= stream.take(n));
        assert(whole.skip(n) =~= rest + chunk);
        lemma_split_append(rest, chunk, later, later);
        assert(split(whole, first, later) =~= split(stream, first, later).push(chunk));
    }
}

} // verus!
