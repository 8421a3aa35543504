use spi_dma_display::encoder::ByteOrder;
use spi_dma_display::error::{Error, TransferFault};
use spi_dma_display::interface::{new_no_cs, Action, SPIInterface, Stage, DMA_BUFFER_SIZE};
use spi_dma_display::payload::PendingPayload;
use spi_dma_display::pipeline::Phase;
use spi_dma_display::slot::SlotState;

type Slices<'a> = PendingPayload<'a, std::iter::Empty<u8>, std::iter::Empty<u16>>;

#[derive(Clone, Debug, PartialEq, Eq)]
enum Event {
    SelectLow,
    SelectHigh,
    DcLow,
    DcHigh,
    Submit(usize),
    Wait,
}

/// A bus that records what it is asked to do, and fails where it is told.
struct Bus {
    events: Vec<Event>,
    chunks: Vec<Vec<u8>>,
    in_flight: usize,
    most_in_flight: usize,
    fail_select_low: bool,
    fail_select_high: bool,
    fail_dc_low: bool,
    fail_dc_high: bool,
    fail_submit_at: Option<usize>,
    fail_wait_at: Option<usize>,
    submits: usize,
    waits: usize,
}

impl Bus {
    fn new() -> Self {
        Bus {
            events: Vec::new(),
            chunks: Vec::new(),
            in_flight: 0,
            most_in_flight: 0,
            fail_select_low: false,
            fail_select_high: false,
            fail_dc_low: false,
            fail_dc_high: false,
            fail_submit_at: None,
            fail_wait_at: None,
            submits: 0,
            waits: 0,
        }
    }

    fn line(&mut self, event: Event, fail: bool) -> Result<(), TransferFault> {
        self.events.push(event);
        if fail {
            Err(TransferFault::BusFault)
        } else {
            Ok(())
        }
    }

    fn sent(&self) -> Vec<u8> {
        self.chunks.concat()
    }
}

fn perform(interface: &SPIInterface, bus: &mut Bus, action: Action) -> Result<(), TransferFault> {
    match action {
        Action::SelectLow => bus.line(Event::SelectLow, bus.fail_select_low),
        Action::SelectHigh => bus.line(Event::SelectHigh, bus.fail_select_high),
        Action::DataCommandLow => bus.line(Event::DcLow, bus.fail_dc_low),
        Action::DataCommandHigh => bus.line(Event::DcHigh, bus.fail_dc_high),
        Action::Submit { slot, len } => {
            let chunk = interface.chunk(slot).to_vec();
            assert_eq!(chunk.len(), len);
            assert!(len > 0);
            assert!(interface.holds_engine());
            assert_eq!(interface.slot_state(slot), SlotState::Filling);
            bus.events.push(Event::Submit(len));
            let index = bus.submits;
            bus.submits += 1;
            if bus.fail_submit_at == Some(index) {
                return Err(TransferFault::DescriptorExhaustion);
            }
            bus.chunks.push(chunk);
            bus.in_flight += 1;
            bus.most_in_flight = bus.most_in_flight.max(bus.in_flight);
            Ok(())
        }
        Action::Wait => {
            assert!(!interface.holds_engine());
            let owned = (0..2)
                .filter(|slot| interface.slot_state(*slot) == SlotState::Submitted)
                .count();
            assert_eq!(owned, 1);
            bus.events.push(Event::Wait);
            let index = bus.waits;
            bus.waits += 1;
            bus.in_flight -= 1;
            if bus.fail_wait_at == Some(index) {
                return Err(TransferFault::BusFault);
            }
            Ok(())
        }
        Action::Done(_) => unreachable!(),
    }
}

fn run<B: Iterator<Item = u8>, W: Iterator<Item = u16>>(
    interface: &mut SPIInterface,
    bus: &mut Bus,
    is_data: bool,
    payload: &mut PendingPayload<B, W>,
) -> Result<(), Error> {
    let mut action = if is_data {
        interface.send_data(payload)
    } else {
        interface.send_commands(payload)
    };
    loop {
        if let Action::Done(result) = action {
            assert_eq!(interface.current_stage(), Stage::Idle);
            return result;
        }
        let outcome = perform(interface, bus, action);
        action = interface.resume(outcome, payload);
        let owned = (0..2)
            .filter(|slot| interface.slot_state(*slot) == SlotState::Submitted)
            .count();
        assert!(owned <= 1);
        assert_eq!(owned == 0, interface.holds_engine());
    }
}

fn pattern(len: usize) -> Vec<u8> {
    (0..len).map(|i| (i * 7 + 3) as u8).collect()
}

fn send_bytes(capacity: usize, hint: usize, len: usize) -> Bus {
    let data = pattern(len);
    let mut interface = SPIInterface::with_capacity(hint, true, capacity);
    let mut bus = Bus::new();
    let mut payload: Slices = PendingPayload::Bytes(&data);
    assert_eq!(run(&mut interface, &mut bus, true, &mut payload), Ok(()));
    assert_eq!(bus.sent(), data);
    assert!(bus.most_in_flight <= 1);
    assert_eq!(bus.in_flight, 0);
    assert!(interface.holds_engine());
    assert_eq!(interface.current_phase(), Phase::Idle);
    bus
}

#[test]
fn fidelity_for_the_lengths_around_the_capacity() {
    let capacity = 16;
    for len in [0, 1, capacity - 1, capacity, capacity + 1, 5 * capacity, 5 * capacity + 3] {
        let bus = send_bytes(capacity, 0, len);
        assert_eq!(bus.chunks.len(), (len + capacity - 1) / capacity);
        for chunk in &bus.chunks {
            assert!(!chunk.is_empty());
            assert!(chunk.len() <= capacity);
        }
    }
}

#[test]
fn fidelity_with_the_default_buffers() {
    let data = pattern(5 * DMA_BUFFER_SIZE + 3);
    let mut interface = SPIInterface::new(0);
    let mut bus = Bus::new();
    let mut payload: Slices = PendingPayload::Bytes(&data);
    assert_eq!(run(&mut interface, &mut bus, true, &mut payload), Ok(()));
    assert_eq!(bus.sent(), data);
    let sizes: Vec<usize> = bus.chunks.iter().map(|chunk| chunk.len()).collect();
    assert_eq!(sizes, vec![4096, 4096, 4096, 4096, 4096, 3]);
}

#[test]
fn chunk_count_without_hint_is_the_ceiling() {
    assert_eq!(send_bytes(8, 0, 0).chunks.len(), 0);
    assert_eq!(send_bytes(8, 0, 1).chunks.len(), 1);
    assert_eq!(send_bytes(8, 0, 8).chunks.len(), 1);
    assert_eq!(send_bytes(8, 0, 9).chunks.len(), 2);
    assert_eq!(send_bytes(8, 0, 40).chunks.len(), 5);
    assert_eq!(send_bytes(8, 0, 43).chunks.len(), 6);
}

#[test]
fn exact_multiple_has_no_trailing_empty_transfer() {
    let bus = send_bytes(8, 0, 24);
    let sizes: Vec<usize> = bus.chunks.iter().map(|chunk| chunk.len()).collect();
    assert_eq!(sizes, vec![8, 8, 8]);
    assert_eq!(
        bus.events,
        vec![
            Event::SelectLow,
            Event::DcHigh,
            Event::Submit(8),
            Event::Wait,
            Event::Submit(8),
            Event::Wait,
            Event::Submit(8),
            Event::Wait,
            Event::SelectHigh,
        ]
    );
}

#[test]
fn first_chunk_honors_the_hint() {
    let bus = send_bytes(8, 43, 43);
    let sizes: Vec<usize> = bus.chunks.iter().map(|chunk| chunk.len()).collect();
    assert_eq!(sizes, vec![3, 8, 8, 8, 8, 8]);
    assert_eq!(sizes.len(), (43 + 7) / 8);
}

#[test]
fn hint_that_is_a_multiple_of_the_capacity_plans_full_chunks() {
    let bus = send_bytes(8, 16, 20);
    let sizes: Vec<usize> = bus.chunks.iter().map(|chunk| chunk.len()).collect();
    assert_eq!(sizes, vec![8, 8, 4]);
}

#[test]
fn hint_is_advice_only() {
    let bus = send_bytes(8, 5, 2);
    let sizes: Vec<usize> = bus.chunks.iter().map(|chunk| chunk.len()).collect();
    assert_eq!(sizes, vec![2]);
    let bus = send_bytes(8, 5, 30);
    let sizes: Vec<usize> = bus.chunks.iter().map(|chunk| chunk.len()).collect();
    assert_eq!(sizes, vec![5, 8, 8, 8, 1]);
}

#[test]
fn empty_payload_makes_no_transfer() {
    let mut interface = SPIInterface::with_capacity(0, true, 8);
    let mut bus = Bus::new();
    let empty: [u8; 0] = [];
    let mut payload: Slices = PendingPayload::Bytes(&empty);
    assert_eq!(run(&mut interface, &mut bus, true, &mut payload), Ok(()));
    assert!(bus.chunks.is_empty());
    assert_eq!(bus.events, vec![Event::SelectLow, Event::DcHigh, Event::SelectHigh]);

    let none: [u16; 0] = [];
    let mut bus = Bus::new();
    let mut payload: Slices = PendingPayload::Words16(&none, ByteOrder::BigEndian);
    assert_eq!(run(&mut interface, &mut bus, false, &mut payload), Ok(()));
    assert!(bus.chunks.is_empty());

    let mut bus = Bus::new();
    let mut payload: PendingPayload<std::iter::Empty<u8>, std::iter::Empty<u16>> =
        PendingPayload::WordIter(std::iter::empty(), ByteOrder::LittleEndian);
    assert_eq!(run(&mut interface, &mut bus, true, &mut payload), Ok(()));
    assert!(bus.chunks.is_empty());
}

#[test]
fn short_payload_is_one_transfer() {
    let bus = send_bytes(8, 0, 5);
    assert_eq!(
        bus.events,
        vec![Event::SelectLow, Event::DcHigh, Event::Submit(5), Event::Wait, Event::SelectHigh]
    );
}

#[test]
fn line_ordering_for_data() {
    let bus = send_bytes(4, 0, 6);
    assert_eq!(
        bus.events,
        vec![
            Event::SelectLow,
            Event::DcHigh,
            Event::Submit(4),
            Event::Wait,
            Event::Submit(2),
            Event::Wait,
            Event::SelectHigh,
        ]
    );
}

#[test]
fn line_ordering_for_commands() {
    let data = [0x2a_u8, 0x2b];
    let mut interface = SPIInterface::with_capacity(0, true, 4);
    let mut bus = Bus::new();
    let mut payload: Slices = PendingPayload::Bytes(&data);
    assert_eq!(run(&mut interface, &mut bus, false, &mut payload), Ok(()));
    assert_eq!(
        bus.events,
        vec![Event::SelectLow, Event::DcLow, Event::Submit(2), Event::Wait, Event::SelectHigh]
    );
    assert_eq!(bus.sent(), data.to_vec());
}

#[test]
fn without_chip_select_no_select_line_is_touched() {
    let data = pattern(10);
    let mut interface = new_no_cs(0);
    let mut bus = Bus::new();
    let mut payload: Slices = PendingPayload::Bytes(&data);
    assert_eq!(run(&mut interface, &mut bus, true, &mut payload), Ok(()));
    assert_eq!(bus.events, vec![Event::DcHigh, Event::Submit(10), Event::Wait]);
    assert_eq!(bus.sent(), data);
}

#[test]
fn failing_dc_line_stops_commands_before_any_byte() {
    let data = pattern(10);
    let mut interface = SPIInterface::with_capacity(0, true, 4);
    let mut bus = Bus::new();
    bus.fail_dc_low = true;
    let mut payload: Slices = PendingPayload::Bytes(&data);
    assert_eq!(
        run(&mut interface, &mut bus, false, &mut payload),
        Err(Error::DataCommandLineError)
    );
    assert!(bus.chunks.is_empty());
    assert_eq!(bus.events, vec![Event::SelectLow, Event::DcLow, Event::SelectHigh]);
}

#[test]
fn failing_dc_line_stops_data_before_any_byte() {
    let data = pattern(10);
    let mut interface = new_no_cs(0);
    let mut bus = Bus::new();
    bus.fail_dc_high = true;
    let mut payload: Slices = PendingPayload::Bytes(&data);
    assert_eq!(
        run(&mut interface, &mut bus, true, &mut payload),
        Err(Error::DataCommandLineError)
    );
    assert!(bus.chunks.is_empty());
}

#[test]
fn failing_select_stops_before_any_byte() {
    let data = pattern(10);
    let mut interface = SPIInterface::with_capacity(0, true, 4);
    let mut bus = Bus::new();
    bus.fail_select_low = true;
    let mut payload: Slices = PendingPayload::Bytes(&data);
    assert_eq!(run(&mut interface, &mut bus, true, &mut payload), Err(Error::ChipSelectError));
    assert!(bus.chunks.is_empty());
    assert_eq!(bus.events, vec![Event::SelectLow]);
}

#[test]
fn failing_release_is_not_the_result() {
    let data = pattern(10);
    let mut interface = SPIInterface::with_capacity(0, true, 4);
    let mut bus = Bus::new();
    bus.fail_select_high = true;
    let mut payload: Slices = PendingPayload::Bytes(&data);
    assert_eq!(run(&mut interface, &mut bus, true, &mut payload), Ok(()));
    assert_eq!(bus.sent(), data);
    assert_eq!(bus.events.last(), Some(&Event::SelectHigh));
}

#[test]
fn unsupported_payload_is_turned_down_by_the_pipeline() {
    let mut interface = SPIInterface::with_capacity(0, true, 4);
    let mut bus = Bus::new();
    let mut payload: Slices = PendingPayload::Unsupported;
    assert_eq!(
        run(&mut interface, &mut bus, true, &mut payload),
        Err(Error::UnsupportedPayloadFormat)
    );
    assert_eq!(bus.events, vec![Event::SelectLow, Event::DcHigh, Event::SelectHigh]);
    assert!(bus.chunks.is_empty());
    assert!(interface.holds_engine());

    let mut interface = new_no_cs(0);
    let mut bus = Bus::new();
    assert_eq!(
        run(&mut interface, &mut bus, false, &mut payload),
        Err(Error::UnsupportedPayloadFormat)
    );
    assert_eq!(bus.events, vec![Event::DcLow]);
    assert!(bus.chunks.is_empty());
}

#[test]
fn unsupported_payload_waits_for_a_transfer_left_in_flight() {
    let data = pattern(10);
    let mut interface = SPIInterface::with_capacity(0, true, 4);
    let mut payload: Slices = PendingPayload::Bytes(&data);
    assert_eq!(interface.send_data(&payload), Action::SelectLow);
    assert_eq!(interface.resume(Ok(()), &mut payload), Action::DataCommandHigh);
    assert_eq!(interface.resume(Ok(()), &mut payload), Action::Submit { slot: 0, len: 4 });
    assert_eq!(interface.resume(Ok(()), &mut payload), Action::Wait);

    let mut payload: Slices = PendingPayload::Unsupported;
    assert_eq!(interface.send_commands(&payload), Action::SelectLow);
    assert_eq!(interface.resume(Ok(()), &mut payload), Action::DataCommandLow);
    assert_eq!(interface.resume(Ok(()), &mut payload), Action::Wait);
    assert!(!interface.holds_engine());
    assert_eq!(interface.resume(Ok(()), &mut payload), Action::SelectHigh);
    assert!(interface.holds_engine());
    assert_eq!(
        interface.resume(Ok(()), &mut payload),
        Action::Done(Err(Error::UnsupportedPayloadFormat))
    );
}

#[test]
fn every_send_begins_with_slot_0() {
    let mut interface = SPIInterface::with_capacity(0, false, 4);
    for len in [3usize, 4, 9, 1] {
        let data = pattern(len);
        let mut payload: Slices = PendingPayload::Bytes(&data);
        assert_eq!(interface.send_data(&payload), Action::DataCommandHigh);
        let mut action = interface.resume(Ok(()), &mut payload);
        let mut chunk = 0;
        loop {
            match action {
                Action::Submit { slot, .. } => {
                    assert_eq!(slot, chunk % 2);
                    chunk += 1;
                }
                Action::Wait => {}
                Action::Done(result) => {
                    assert_eq!(result, Ok(()));
                    break;
                }
                _ => unreachable!(),
            }
            action = interface.resume(Ok(()), &mut payload);
        }
        assert_eq!(chunk, (len + 3) / 4);
    }
}

#[test]
fn payload_of_another_shape_in_the_middle_is_rejected() {
    let data = pattern(10);
    let words = [1u16, 2, 3];
    let mut interface = new_no_cs(0);
    let mut first: Slices = PendingPayload::Bytes(&data);
    let mut other: Slices = PendingPayload::Words16(&words, ByteOrder::BigEndian);
    assert_eq!(interface.send_data(&first), Action::DataCommandHigh);
    assert_eq!(interface.resume(Ok(()), &mut first), Action::Submit { slot: 0, len: 10 });
    assert_eq!(interface.resume(Ok(()), &mut first), Action::Wait);
    let mut interface = SPIInterface::with_capacity(0, false, 4);
    assert_eq!(interface.send_data(&first), Action::DataCommandHigh);
    assert_eq!(interface.resume(Ok(()), &mut first), Action::Submit { slot: 0, len: 4 });
    assert_eq!(interface.resume(Ok(()), &mut other), Action::Wait);
    assert_eq!(
        interface.resume(Ok(()), &mut other),
        Action::Done(Err(Error::UnsupportedPayloadFormat))
    );
    assert!(interface.holds_engine());
}

#[test]
fn refused_submission_ends_the_send_with_the_fault() {
    let data = pattern(10);
    let mut interface = SPIInterface::with_capacity(0, true, 4);
    let mut bus = Bus::new();
    bus.fail_submit_at = Some(1);
    let mut payload: Slices = PendingPayload::Bytes(&data);
    assert_eq!(
        run(&mut interface, &mut bus, true, &mut payload),
        Err(Error::Transfer(TransferFault::DescriptorExhaustion))
    );
    assert_eq!(bus.sent(), data[..4].to_vec());
    assert_eq!(bus.events.last(), Some(&Event::SelectHigh));
    assert!(interface.holds_engine());
    assert_eq!(interface.slot_state(0), SlotState::Free);
    assert_eq!(interface.slot_state(1), SlotState::Free);
}

#[test]
fn failed_transfer_ends_the_send_with_the_fault() {
    let data = pattern(10);
    let mut interface = SPIInterface::with_capacity(0, true, 4);
    let mut bus = Bus::new();
    bus.fail_wait_at = Some(0);
    let mut payload: Slices = PendingPayload::Bytes(&data);
    assert_eq!(
        run(&mut interface, &mut bus, true, &mut payload),
        Err(Error::Transfer(TransferFault::BusFault))
    );
    assert_eq!(bus.chunks.len(), 1);
    assert_eq!(bus.in_flight, 0);
    assert!(interface.holds_engine());
    assert_eq!(interface.slot_state(0), SlotState::Free);
    assert_eq!(interface.slot_state(1), SlotState::Free);
}

#[test]
fn interface_is_usable_after_a_failure() {
    let data = pattern(10);
    let mut interface = SPIInterface::with_capacity(0, true, 4);
    let mut bus = Bus::new();
    bus.fail_wait_at = Some(1);
    let mut payload: Slices = PendingPayload::Bytes(&data);
    assert!(run(&mut interface, &mut bus, true, &mut payload).is_err());
    let mut bus = Bus::new();
    let mut payload: Slices = PendingPayload::Bytes(&data);
    assert_eq!(run(&mut interface, &mut bus, true, &mut payload), Ok(()));
    assert_eq!(bus.sent(), data);
}

#[test]
fn transfer_left_in_flight_is_waited_for_first() {
    let data = pattern(10);
    let mut interface = SPIInterface::with_capacity(0, false, 4);
    let mut payload: Slices = PendingPayload::Bytes(&data);
    assert_eq!(interface.send_data(&payload), Action::DataCommandHigh);
    assert_eq!(interface.resume(Ok(()), &mut payload), Action::Submit { slot: 0, len: 4 });
    assert_eq!(interface.resume(Ok(()), &mut payload), Action::Wait);
    assert!(!interface.holds_engine());

    // The send is given up here, with the transfer of slot 0 in flight.
    let again = pattern(6);
    let mut payload: Slices = PendingPayload::Bytes(&again);
    assert_eq!(interface.send_commands(&payload), Action::DataCommandLow);
    assert_eq!(interface.slot_state(0), SlotState::Submitted);
    assert_eq!(interface.slot_state(1), SlotState::Free);
    assert_eq!(interface.resume(Ok(()), &mut payload), Action::Wait);
    assert_eq!(interface.resume(Ok(()), &mut payload), Action::Submit { slot: 0, len: 4 });
    assert_eq!(interface.chunk(0), &again[..4]);
    assert_eq!(interface.resume(Ok(()), &mut payload), Action::Wait);
    assert_eq!(interface.resume(Ok(()), &mut payload), Action::Submit { slot: 1, len: 2 });
    assert_eq!(interface.chunk(1), &again[4..]);
    assert_eq!(interface.resume(Ok(()), &mut payload), Action::Wait);
    assert_eq!(interface.resume(Ok(()), &mut payload), Action::Done(Ok(())));
    assert!(interface.holds_engine());
}

#[test]
fn slots_alternate_and_the_next_is_filled_during_the_transfer() {
    let data = pattern(12);
    let mut interface = SPIInterface::with_capacity(0, false, 4);
    let mut payload: Slices = PendingPayload::Bytes(&data);
    assert_eq!(interface.send_data(&payload), Action::DataCommandHigh);
    assert_eq!(interface.resume(Ok(()), &mut payload), Action::Submit { slot: 0, len: 4 });
    assert_eq!(interface.current_phase(), Phase::Filling);
    assert_eq!(interface.slot_state(0), SlotState::Filling);
    assert!(interface.holds_engine());

    assert_eq!(interface.resume(Ok(()), &mut payload), Action::Wait);
    assert_eq!(interface.current_phase(), Phase::Submitted);
    assert_eq!(interface.slot_state(0), SlotState::Submitted);
    assert_eq!(interface.slot_state(1), SlotState::Filling);
    assert_eq!(interface.chunk(0), &data[..4]);
    assert_eq!(interface.chunk(1), &data[4..8]);

    assert_eq!(interface.resume(Ok(()), &mut payload), Action::Submit { slot: 1, len: 4 });
    assert_eq!(interface.slot_state(0), SlotState::Free);
    assert_eq!(interface.resume(Ok(()), &mut payload), Action::Wait);
    assert_eq!(interface.slot_state(1), SlotState::Submitted);
    assert_eq!(interface.slot_state(0), SlotState::Filling);
    assert_eq!(interface.chunk(0), &data[8..]);

    assert_eq!(interface.resume(Ok(()), &mut payload), Action::Submit { slot: 0, len: 4 });
    assert_eq!(interface.resume(Ok(()), &mut payload), Action::Wait);
    assert_eq!(interface.current_phase(), Phase::Draining);
    assert_eq!(interface.resume(Ok(()), &mut payload), Action::Done(Ok(())));
    assert_eq!(interface.current_phase(), Phase::Idle);
}

#[test]
fn resume_without_a_send_does_nothing() {
    let mut interface = SPIInterface::with_capacity(0, true, 4);
    let data = pattern(3);
    let mut payload: Slices = PendingPayload::Bytes(&data);
    assert_eq!(interface.resume(Ok(()), &mut payload), Action::Done(Ok(())));
    assert_eq!(interface.current_stage(), Stage::Idle);
    assert!(interface.holds_engine());
}

fn words_pattern(len: usize) -> Vec<u16> {
    (0..len).map(|i| (i * 0x0123 + 0x00fe) as u16).collect()
}

fn send_words(capacity: usize, hint: usize, words: &[u16], order: ByteOrder) -> Bus {
    let mut interface = SPIInterface::with_capacity(hint, true, capacity);
    let mut bus = Bus::new();
    let mut payload: Slices = PendingPayload::Words16(words, order);
    assert_eq!(run(&mut interface, &mut bus, true, &mut payload), Ok(()));
    assert!(bus.most_in_flight <= 1);
    bus
}

#[test]
fn words_round_trip_big_endian() {
    let words = words_pattern(37);
    let bus = send_words(8, 0, &words, ByteOrder::BigEndian);
    let sent = bus.sent();
    assert_eq!(sent.len(), 74);
    let back: Vec<u16> = sent.chunks(2).map(|pair| u16::from_be_bytes([pair[0], pair[1]])).collect();
    assert_eq!(back, words);
}

#[test]
fn words_round_trip_little_endian() {
    let words = words_pattern(37);
    let bus = send_words(8, 0, &words, ByteOrder::LittleEndian);
    let sent = bus.sent();
    let back: Vec<u16> = sent.chunks(2).map(|pair| u16::from_le_bytes([pair[0], pair[1]])).collect();
    assert_eq!(back, words);
}

#[test]
fn words_round_trip_native() {
    let words = words_pattern(37);
    let bus = send_words(8, 0, &words, ByteOrder::Native);
    let sent = bus.sent();
    let back: Vec<u16> = sent.chunks(2).map(|pair| u16::from_ne_bytes([pair[0], pair[1]])).collect();
    assert_eq!(back, words);
}

#[test]
fn words_exact_bytes() {
    let words = [0x1234u16, 0xabcd, 0x00ff];
    assert_eq!(
        send_words(8, 0, &words, ByteOrder::BigEndian).sent(),
        vec![0x12, 0x34, 0xab, 0xcd, 0x00, 0xff]
    );
    assert_eq!(
        send_words(8, 0, &words, ByteOrder::LittleEndian).sent(),
        vec![0x34, 0x12, 0xcd, 0xab, 0xff, 0x00]
    );
}

#[test]
fn words_are_never_split_between_chunks() {
    let words = words_pattern(10);
    // An odd first plan takes the word that reaches it.
    let bus = send_words(8, 3, &words, ByteOrder::BigEndian);
    let sizes: Vec<usize> = bus.chunks.iter().map(|chunk| chunk.len()).collect();
    assert_eq!(sizes, vec![4, 8, 8]);
    // In a slot of odd capacity the last byte stays unused.
    let bus = send_words(7, 0, &words, ByteOrder::BigEndian);
    let sizes: Vec<usize> = bus.chunks.iter().map(|chunk| chunk.len()).collect();
    assert_eq!(sizes, vec![6, 6, 6, 2]);
}

#[test]
fn byte_iterator_is_streamed() {
    let data = pattern(21);
    let mut interface = SPIInterface::with_capacity(0, true, 8);
    let mut bus = Bus::new();
    let mut payload: PendingPayload<std::vec::IntoIter<u8>, std::iter::Empty<u16>> =
        PendingPayload::ByteIter(data.clone().into_iter());
    assert_eq!(run(&mut interface, &mut bus, true, &mut payload), Ok(()));
    assert_eq!(bus.sent(), data);
    let sizes: Vec<usize> = bus.chunks.iter().map(|chunk| chunk.len()).collect();
    assert_eq!(sizes, vec![8, 8, 5]);
}

#[test]
fn word_iterator_is_streamed_and_encoded() {
    let words = words_pattern(9);
    for order in [ByteOrder::BigEndian, ByteOrder::LittleEndian, ByteOrder::Native] {
        let mut interface = SPIInterface::with_capacity(6, true, 8);
        let mut bus = Bus::new();
        let mut payload: PendingPayload<std::iter::Empty<u8>, std::vec::IntoIter<u16>> =
            PendingPayload::WordIter(words.clone().into_iter(), order);
        assert_eq!(run(&mut interface, &mut bus, true, &mut payload), Ok(()));
        let sizes: Vec<usize> = bus.chunks.iter().map(|chunk| chunk.len()).collect();
        assert_eq!(sizes, vec![6, 8, 4]);
        let expected: Vec<u8> = words
            .iter()
            .flat_map(|word| match order {
                ByteOrder::BigEndian => word.to_be_bytes(),
                ByteOrder::LittleEndian => word.to_le_bytes(),
                ByteOrder::Native => word.to_ne_bytes(),
            })
            .collect();
        assert_eq!(bus.sent(), expected);
    }
}

#[test]
fn iterator_of_a_full_chunk_needs_one_more_look() {
    let words = words_pattern(4);
    let mut interface = SPIInterface::with_capacity(0, false, 8);
    let mut payload: PendingPayload<std::iter::Empty<u8>, std::vec::IntoIter<u16>> =
        PendingPayload::WordIter(words.into_iter(), ByteOrder::BigEndian);
    assert_eq!(interface.send_data(&payload), Action::DataCommandHigh);
    assert_eq!(interface.resume(Ok(()), &mut payload), Action::Submit { slot: 0, len: 8 });
    assert_eq!(interface.resume(Ok(()), &mut payload), Action::Wait);
    assert_eq!(interface.current_phase(), Phase::Draining);
    assert_eq!(interface.resume(Ok(()), &mut payload), Action::Done(Ok(())));
}

#[test]
fn a_borrowed_iterator_can_be_the_payload() {
    let mut source = (0..300u16).map(|i| i.wrapping_mul(259));
    let lazy: &mut dyn Iterator<Item = u16> = &mut source;
    let mut interface = SPIInterface::with_capacity(600, true, 64);
    let mut bus = Bus::new();
    let mut payload: PendingPayload<std::iter::Empty<u8>, &mut dyn Iterator<Item = u16>> =
        PendingPayload::WordIter(lazy, ByteOrder::BigEndian);
    assert_eq!(run(&mut interface, &mut bus, true, &mut payload), Ok(()));
    let expected: Vec<u8> =
        (0..300u16).flat_map(|i| i.wrapping_mul(259).to_be_bytes()).collect();
    assert_eq!(bus.sent(), expected);
    assert_eq!(bus.chunks[0].len(), 600 % 64);
}
