//! Word encoding: native words to the byte order the wire expects.
//!
//! A 16-bit word goes out as two bytes, in little-endian or big-endian
//! order. A payload may also ask for the order of the machine that runs the
//! adapter; the encoder finds that order out once, when it is built, and
//! holds on to it, so that every word of a payload is laid out alike.

use byte_slice_cast::AsByteSlice;
use num_traits::ToBytes;
use vstd::prelude::*;

verus! {

/// The byte order a payload asks for.
#[derive(Clone, Copy, Debug, PartialEq, Eq, Structural)]
pub enum ByteOrder {
    /// The order in which the machine itself lays out a word.
    Native,
    /// Low byte first.
    LittleEndian,
    /// High byte first.
    BigEndian,
}

/// The two bytes of `word`, low byte first.
pub open spec fn le_bytes(word: u16) -> Seq<u8> {
    seq![(word % 256) as u8, (word / 256) as u8]
}

/// The two bytes of `word`, high byte first.
pub open spec fn be_bytes(word: u16) -> Seq<u8> {
    seq![(word / 256) as u8, (word % 256) as u8]
}

/// The two bytes of `word` in an explicit order. `Native` is no explicit
/// order: it stands for one of the other two (see
/// [`WordEncoder::resolve`]) and is read here as little-endian.
pub open spec fn word_bytes(word: u16, order: ByteOrder) -> Seq<u8> {
    if order == ByteOrder::BigEndian {
        be_bytes(word)
    } else {
        le_bytes(word)
    }
}

/// The word that two bytes stand for in an explicit order.
pub open spec fn word_of_bytes(first: u8, second: u8, order: ByteOrder) -> u16 {
    if order == ByteOrder::BigEndian {
        (first * 256 + second) as u16
    } else {
        (second * 256 + first) as u16
    }
}

/// The byte stream of a sequence of words: each word's two bytes in
/// `order`, one word after the other.
pub open spec fn words_to_bytes(words: Seq<u16>, order: ByteOrder) -> Seq<u8> {
    Seq::new(2 * words.len(), |i: int| word_bytes(words[i / 2], order)[i % 2])
}

/// The words that a byte stream stands for when it is read pairwise in
/// `order`. A last byte without a partner is left out.
pub open spec fn bytes_to_words(bytes: Seq<u8>, order: ByteOrder) -> Seq<u16> {
    Seq::new(bytes.len() / 2, |i: int| word_of_bytes(bytes[2 * i], bytes[2 * i + 1], order))
}

/// Reading back the two bytes of a word gives the word.
pub proof fn lemma_word_round_trip(word: u16, order: ByteOrder)
    ensures
        word_bytes(word, order).len() == 2,
        word_of_bytes(word_bytes(word, order)[0], word_bytes(word, order)[1], order) == word,
{
}

/// Endianness round trip: the byte stream of any sequence of words, read
/// back pairwise in the same byte order, is the sequence of words.
pub proof fn lemma_words_round_trip(words: Seq<u16>, order: ByteOrder)
    ensures
        words_to_bytes(words, order).len() == 2 * words.len(),
        bytes_to_words(words_to_bytes(words, order), order) == words,
{
    let bytes = words_to_bytes(words, order);
    let back = bytes_to_words(bytes, order);
    assert(back.len() == words.len());
    assert forall|i: int| 0 <= i < words.len() implies back[i] == words[i] by {
        assert((2 * i) / 2 == i && (2 * i) % 2 == 0);
        assert((2 * i + 1) / 2 == i && (2 * i + 1) % 2 == 1);
        lemma_word_round_trip(words[i], order);
    }
    assert(back =~= words);
}

/// The byte stream of a longer sequence of words begins with the byte
/// stream of its beginning and goes on with that of the rest.
pub proof fn lemma_words_to_bytes_split(words: Seq<u16>, count: int, order: ByteOrder)
    requires
        0 <= count <= words.len(),
    ensures
        words_to_bytes(words, order) == words_to_bytes(words.take(count), order) + words_to_bytes(
            words.skip(count),
            order,
        ),
{
    let whole = words_to_bytes(words, order);
    let head = words_to_bytes(words.take(count), order);
    let tail = words_to_bytes(words.skip(count), order);
    assert(whole.len() == head.len() + tail.len());
    assert forall|i: int| 0 <= i < whole.len() implies whole[i] == (head + tail)[i] by {
        if i < 2 * count {
            assert(i / 2 < count);
        } else {
            assert((i - 2 * count) / 2 == i / 2 - count);
            assert((i - 2 * count) % 2 == i % 2);
        }
    }
    assert(whole =~= head + tail);
}

/// `num_traits::ToBytes::to_le_bytes` for `u16`: the word's memory
/// representation in little-endian order, which is the low byte and then
/// the high byte.
#[verifier::external_body]
fn word_le_bytes(word: u16) -> (bytes: [u8; 2])
    ensures
        bytes@ == le_bytes(word),
{
    ToBytes::to_le_bytes(&word)
}

/// `num_traits::ToBytes::to_be_bytes` for `u16`: the word's memory
/// representation in big-endian order, which is the high byte and then the
/// low byte.
#[verifier::external_body]
fn word_be_bytes(word: u16) -> (bytes: [u8; 2])
    ensures
        bytes@ == be_bytes(word),
{
    ToBytes::to_be_bytes(&word)
}

/// `byte_slice_cast::AsByteSlice::as_byte_slice` for a slice of `u16`: the
/// same memory seen as bytes, two for each word. Which byte of a word
/// comes first is the machine's affair, so the contract leaves it open:
/// the bytes are the little-endian stream of the words or their big-endian
/// stream.
#[verifier::external_body]
fn memory_image(words: &[u16]) -> (bytes: &[u8])
    ensures
        bytes@ == words_to_bytes(words@, ByteOrder::LittleEndian) || bytes@ == words_to_bytes(
            words@,
            ByteOrder::BigEndian,
        ),
{
    words.as_byte_slice()
}

/// The byte order that the memory image of the word 1 shows: low byte
/// first if the image begins with the byte 1, high byte first else.
pub fn order_from_image(image: &[u8]) -> (order: ByteOrder)
    requires
        image@ == words_to_bytes(seq![1u16], ByteOrder::LittleEndian) || image@ == words_to_bytes(
            seq![1u16],
            ByteOrder::BigEndian,
        ),
    ensures
        order != ByteOrder::Native,
        image@ == words_to_bytes(seq![1u16], order),
        order == ByteOrder::LittleEndian <==> image@[0] == 1,
{
    proof {
        let low = words_to_bytes(seq![1u16], ByteOrder::LittleEndian);
        let high = words_to_bytes(seq![1u16], ByteOrder::BigEndian);
        assert(low.len() == 2 && high.len() == 2);
        assert(low[0] == 1 && high[0] == 0);
    }
    if image[0] == 1 {
        ByteOrder::LittleEndian
    } else {
        ByteOrder::BigEndian
    }
}

/// Turns words into wire bytes.
#[derive(Clone, Copy, Debug)]
pub struct WordEncoder {
    native: ByteOrder,
}

impl WordEncoder {
    /// The encoder holds an explicit order for the machine's own.
    pub closed spec fn wf(&self) -> bool {
        self.native != ByteOrder::Native
    }

    /// The explicit order that `Native` stands for with this encoder.
    pub closed spec fn native_order(&self) -> ByteOrder {
        self.native
    }

    /// The explicit order in which this encoder lays out a word for which
    /// `order` is asked.
    pub open spec fn resolve(&self, order: ByteOrder) -> ByteOrder {
        if order == ByteOrder::Native {
            self.native_order()
        } else {
            order
        }
    }

    /// The bytes this encoder produces for `word` when `order` is asked.
    pub open spec fn wire_bytes(&self, word: u16, order: ByteOrder) -> Seq<u8> {
        word_bytes(word, self.resolve(order))
    }

    /// Builds an encoder for the machine it runs on. The machine's byte
    /// order is what `order_from_image` reads off the memory image of the
    /// word 1.
    pub fn new() -> (encoder: Self)
        ensures
            encoder.wf(),
            encoder.native_order() == ByteOrder::LittleEndian || encoder.native_order()
                == ByteOrder::BigEndian,
    {
        let probe: [u16; 1] = [1];
        let image = memory_image(probe.as_slice());
        assert(probe@ =~= seq![1u16]);
        WordEncoder { native: order_from_image(image) }
    }

    /// The explicit order that `Native` stands for with this encoder.
    pub fn native(&self) -> (order: ByteOrder)
        requires
            self.wf(),
        ensures
            order == self.native_order(),
            order != ByteOrder::Native,
    {
        self.native
    }

    /// Writes a byte-format word into `dst` at `offset`: the byte passes
    /// through unchanged. Returns the count of bytes written, which is 1.
    pub fn encode_u8(&self, word: u8, dst: &mut Vec<u8>, offset: usize) -> (written: usize)
        requires
            offset < old(dst).len(),
        ensures
            written == 1,
            final(dst)@ == old(dst)@.update(offset as int, word),
    {
        dst[offset] = word;
        1
    }

    /// Writes a 16-bit word into `dst` at `offset`, in the byte order asked
    /// for. Returns the count of bytes written, which is 2.
    pub fn encode_u16(&self, word: u16, order: ByteOrder, dst: &mut Vec<u8>, offset: usize) -> (written:
        usize)
        requires
            self.wf(),
            offset + 2 <= old(dst).len(),
        ensures
            written == 2,
            final(dst)@ == old(dst)@.update(offset as int, self.wire_bytes(word, order)[0]).update(
                offset + 1,
                self.wire_bytes(word, order)[1],
            ),
    {
        let explicit = match order {
            ByteOrder::Native => self.native,
            ByteOrder::LittleEndian => ByteOrder::LittleEndian,
            ByteOrder::BigEndian => ByteOrder::BigEndian,
        };
        let bytes = match explicit {
            ByteOrder::BigEndian => word_be_bytes(word),
            _ => word_le_bytes(word),
        };
        dst[offset] = bytes[0];
        dst[offset + 1] = bytes[1];
        2
    }
}

} // verus!
