use spi_dma_display::encoder::{order_from_image, ByteOrder, WordEncoder};
use spi_dma_display::payload::{fill_slot, PendingPayload};
use spi_dma_display::planner::{next_chunk_capacity, whole_word_limit};
use spi_dma_display::pool::BufferPool;
use spi_dma_display::slot::{Slot, SlotState};

#[test]
fn encode_u8_passes_the_byte_through() {
    let encoder = WordEncoder::new();
    let mut dst = vec![0u8; 4];
    assert_eq!(encoder.encode_u8(0xa5, &mut dst, 2), 1);
    assert_eq!(dst, vec![0, 0, 0xa5, 0]);
}

#[test]
fn encode_u16_big_endian() {
    let encoder = WordEncoder::new();
    let mut dst = vec![0u8; 4];
    assert_eq!(encoder.encode_u16(0x1234, ByteOrder::BigEndian, &mut dst, 1), 2);
    assert_eq!(dst, vec![0, 0x12, 0x34, 0]);
}

#[test]
fn encode_u16_little_endian() {
    let encoder = WordEncoder::new();
    let mut dst = vec![0u8; 4];
    assert_eq!(encoder.encode_u16(0x1234, ByteOrder::LittleEndian, &mut dst, 2), 2);
    assert_eq!(dst, vec![0, 0, 0x34, 0x12]);
}

#[test]
fn encode_u16_native_is_the_order_of_the_machine() {
    let encoder = WordEncoder::new();
    let mut dst = vec![0u8; 2];
    assert_eq!(encoder.encode_u16(0x1234, ByteOrder::Native, &mut dst, 0), 2);
    assert_eq!(dst, 0x1234u16.to_ne_bytes().to_vec());
}

#[test]
fn order_is_read_off_the_image_of_the_word_1() {
    assert_eq!(order_from_image(&[1, 0]), ByteOrder::LittleEndian);
    assert_eq!(order_from_image(&[0, 1]), ByteOrder::BigEndian);
    assert_eq!(order_from_image(&1u16.to_le_bytes()), ByteOrder::LittleEndian);
    assert_eq!(order_from_image(&1u16.to_be_bytes()), ByteOrder::BigEndian);
}

#[test]
fn native_order_is_found_out() {
    let encoder = WordEncoder::new();
    let expected = if 1u16.to_ne_bytes()[0] == 1 {
        ByteOrder::LittleEndian
    } else {
        ByteOrder::BigEndian
    };
    assert_eq!(encoder.native(), expected);
}

#[test]
fn encode_round_trip_for_every_word() {
    let encoder = WordEncoder::new();
    let mut dst = vec![0u8; 2];
    for word in 0..=u16::MAX {
        encoder.encode_u16(word, ByteOrder::BigEndian, &mut dst, 0);
        assert_eq!(u16::from_be_bytes([dst[0], dst[1]]), word);
        encoder.encode_u16(word, ByteOrder::LittleEndian, &mut dst, 0);
        assert_eq!(u16::from_le_bytes([dst[0], dst[1]]), word);
    }
}

#[test]
fn first_chunk_takes_the_hint_modulo_the_capacity() {
    assert_eq!(next_chunk_capacity(4096, 144000, true), 144000 % 4096);
    assert_eq!(next_chunk_capacity(4096, 144000, true), 640);
    assert_eq!(next_chunk_capacity(4096, 5, true), 5);
}

#[test]
fn first_chunk_is_full_when_the_modulus_is_zero() {
    assert_eq!(next_chunk_capacity(4096, 0, true), 4096);
    assert_eq!(next_chunk_capacity(4096, 8192, true), 4096);
}

#[test]
fn later_chunks_are_full() {
    assert_eq!(next_chunk_capacity(4096, 5, false), 4096);
    assert_eq!(next_chunk_capacity(4096, 144000, false), 4096);
}

#[test]
fn zero_capacity_plans_nothing() {
    assert_eq!(next_chunk_capacity(0, 17, true), 0);
    assert_eq!(next_chunk_capacity(0, 17, false), 0);
}

#[test]
fn limit_keeps_words_whole() {
    assert_eq!(whole_word_limit(5, 1, 8), 5);
    assert_eq!(whole_word_limit(6, 2, 8), 6);
    assert_eq!(whole_word_limit(5, 2, 8), 6);
    assert_eq!(whole_word_limit(7, 2, 7), 6);
    assert_eq!(whole_word_limit(1, 2, 2), 2);
    assert_eq!(whole_word_limit(3, 2, 3), 2);
}

#[test]
fn slot_life_cycle() {
    let mut slot = Slot::new(4);
    assert_eq!(slot.current_state(), SlotState::Free);
    assert_eq!(slot.len(), 0);
    slot.begin_fill();
    assert_eq!(slot.current_state(), SlotState::Filling);
    let encoder = WordEncoder::new();
    slot.push_u8(&encoder, 9);
    slot.push_u16(&encoder, 0x0102, ByteOrder::BigEndian);
    assert_eq!(slot.as_bytes(), &[9, 1, 2]);
    assert_eq!(slot.len(), 3);
    slot.mark_submitted();
    assert_eq!(slot.current_state(), SlotState::Submitted);
    assert_eq!(slot.as_bytes(), &[9, 1, 2]);
    slot.mark_reclaimed();
    assert_eq!(slot.current_state(), SlotState::Free);
    assert_eq!(slot.len(), 0);
}

#[test]
fn fill_bytes_stops_at_the_limit_or_the_end() {
    let encoder = WordEncoder::new();
    let source = [1u8, 2, 3, 4, 5];
    let mut slot = Slot::new(8);
    slot.begin_fill();
    let filled = slot.fill_bytes(&encoder, &source, 1, 3);
    assert_eq!((filled.len, filled.dried), (3, false));
    assert_eq!(slot.as_bytes(), &[2, 3, 4]);
    slot.begin_fill();
    let filled = slot.fill_bytes(&encoder, &source, 3, 8);
    assert_eq!((filled.len, filled.dried), (2, true));
    assert_eq!(slot.as_bytes(), &[4, 5]);
    slot.begin_fill();
    let filled = slot.fill_bytes(&encoder, &source, 2, 3);
    assert_eq!((filled.len, filled.dried), (3, true));
    slot.begin_fill();
    let filled = slot.fill_bytes(&encoder, &source, 9, 3);
    assert_eq!((filled.len, filled.dried), (0, true));
}

#[test]
fn fill_words_encodes_as_it_writes() {
    let encoder = WordEncoder::new();
    let source = [0x0102u16, 0x0304, 0x0506];
    let mut slot = Slot::new(8);
    slot.begin_fill();
    let filled = slot.fill_words(&encoder, &source, ByteOrder::LittleEndian, 1, 4);
    assert_eq!((filled.len, filled.dried), (4, true));
    assert_eq!(slot.as_bytes(), &[4, 3, 6, 5]);
    slot.begin_fill();
    let filled = slot.fill_words(&encoder, &source, ByteOrder::BigEndian, 0, 4);
    assert_eq!((filled.len, filled.dried), (4, false));
    assert_eq!(slot.as_bytes(), &[1, 2, 3, 4]);
}

#[test]
fn fill_from_iterators() {
    let encoder = WordEncoder::new();
    let mut slot = Slot::new(8);
    let mut bytes = vec![7u8, 8, 9].into_iter();
    slot.begin_fill();
    let filled = slot.fill_byte_iter(&encoder, &mut bytes, 2);
    assert_eq!((filled.len, filled.dried), (2, false));
    assert_eq!(slot.as_bytes(), &[7, 8]);
    slot.begin_fill();
    let filled = slot.fill_byte_iter(&encoder, &mut bytes, 2);
    assert_eq!((filled.len, filled.dried), (1, true));
    assert_eq!(slot.as_bytes(), &[9]);

    let mut words = vec![0x0a0bu16, 0x0c0d].into_iter();
    slot.begin_fill();
    let filled = slot.fill_word_iter(&encoder, &mut words, ByteOrder::BigEndian, 8);
    assert_eq!((filled.len, filled.dried), (4, true));
    assert_eq!(slot.as_bytes(), &[0x0a, 0x0b, 0x0c, 0x0d]);
}

#[test]
fn fill_slot_tells_where_to_go_on() {
    let encoder = WordEncoder::new();
    let source = [0x0102u16, 0x0304, 0x0506];
    let mut payload: PendingPayload<std::iter::Empty<u8>, std::iter::Empty<u16>> =
        PendingPayload::Words16(&source, ByteOrder::BigEndian);
    assert_eq!(payload.word_size(), 2);
    let mut slot = Slot::new(4);
    slot.begin_fill();
    let (filled, next) = fill_slot(&mut payload, &mut slot, &encoder, 0, 4);
    assert_eq!((filled.len, filled.dried, next), (4, false, 2));
    slot.begin_fill();
    let (filled, next) = fill_slot(&mut payload, &mut slot, &encoder, next, 4);
    assert_eq!((filled.len, filled.dried, next), (2, true, 3));
    assert_eq!(slot.as_bytes(), &[5, 6]);
}

#[test]
fn pool_hands_out_and_takes_back() {
    let mut pool = BufferPool::new(4);
    assert_eq!(pool.state(0), SlotState::Free);
    assert_eq!(pool.state(1), SlotState::Free);
    let encoder = WordEncoder::new();
    pool.acquire_free(0).push_u8(&encoder, 5);
    assert_eq!(pool.state(0), SlotState::Filling);
    assert_eq!(pool.chunk(0), &[5]);
    pool.mark_submitted(0);
    assert_eq!(pool.state(0), SlotState::Submitted);
    pool.acquire_free(1).push_u8(&encoder, 6);
    assert_eq!(pool.state(1), SlotState::Filling);
    assert_eq!(pool.chunk(0), &[5]);
    assert_eq!(pool.chunk(1), &[6]);
    pool.mark_reclaimed(0);
    assert_eq!(pool.state(0), SlotState::Free);
    assert_eq!(pool.chunk(0), &[] as &[u8]);
    assert_eq!(BufferPool::alternate(0), 1);
    assert_eq!(BufferPool::alternate(1), 0);
}
