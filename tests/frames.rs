use canrainbow::byte_view::{Byte, ByteCategory};
use canrainbow::codec::ByteOrder;
use canrainbow::decode::{decode_frame, decode_raw, pad_payload, DecodeError};
use canrainbow::generate::{
    decide_flag, gen_msg_frame_data, generate_frame, pick_index, GenConfig, PayloadSource, Strategy,
};
use canrainbow::layout::{
    find_message, frame_id, lookup_id, select_by_transmitter, LayoutError, MessageLayout, SignalField,
};

fn field(start_bit: u64, signal_size: u64) -> SignalField {
    SignalField::new(start_bit, signal_size, ByteOrder::LittleEndian).unwrap()
}

fn message(id: u32, size: u64, transmitter: &str, signals: Vec<SignalField>) -> MessageLayout {
    MessageLayout::new(id, size, transmitter.to_string(), signals)
}

fn signal_config() -> GenConfig {
    GenConfig { strategy: Strategy::SignalRange, allow_remote_frames: false, allow_error_frames: false }
}

#[test]
fn signal_field_refuses_bits_outside_the_payload() {
    assert_eq!(
        SignalField::new(60, 8, ByteOrder::LittleEndian),
        Err(LayoutError::FieldOutsidePayload { start_bit: 60, signal_size: 8 })
    );
    assert_eq!(
        SignalField::new(0, 0, ByteOrder::BigEndian),
        Err(LayoutError::FieldOutsidePayload { start_bit: 0, signal_size: 0 })
    );
    assert_eq!(
        SignalField::new(0, 65, ByteOrder::BigEndian),
        Err(LayoutError::FieldOutsidePayload { start_bit: 0, signal_size: 65 })
    );
    assert!(SignalField::new(0, 64, ByteOrder::BigEndian).is_ok());
    assert!(SignalField::new(56, 8, ByteOrder::BigEndian).is_ok());
}

#[test]
fn message_payload_accumulates_all_signals() {
    let m = message(0x10, 8, "ECU", vec![field(0, 8), field(8, 4), field(12, 4), field(32, 16)]);
    let data = gen_msg_frame_data(&m, &vec![42, 100, 0x3, 0xBEEF]);
    assert_eq!(data, [0x2A, 0x34, 0, 0, 0xEF, 0xBE, 0, 0]);
    assert_eq!(decode_raw(&data, &m), vec![42, 4, 3, 0xBEEF]);
}

#[test]
fn oversized_message_gets_zero_payload() {
    let m = message(0x20, 9, "ECU", vec![field(0, 8)]);
    let frame = generate_frame(&m, &signal_config(), &vec![42], [9; 8], true, true);
    assert_eq!(frame.data, [0; 8]);
    assert_eq!(frame.source, PayloadSource::UnsupportedSize);
    assert!(!frame.remote);
    assert!(!frame.error);
}

#[test]
fn generated_frame_uses_signals_and_masked_id() {
    let m = message(0x8000_0123, 8, "ECU", vec![field(0, 8)]);
    let config = GenConfig { strategy: Strategy::SignalRange, allow_remote_frames: true, allow_error_frames: false };
    let frame = generate_frame(&m, &config, &vec![7], [9; 8], true, true);
    assert_eq!(frame.id, 0x123);
    assert_eq!(frame.data, [7, 0, 0, 0, 0, 0, 0, 0]);
    assert_eq!(frame.source, PayloadSource::Signals);
    assert!(frame.remote);
    assert!(!frame.error);
}

#[test]
fn random_strategy_ignores_signals() {
    let m = message(0x30, 9, "ECU", vec![field(0, 8)]);
    let config = GenConfig { strategy: Strategy::RandomPayload, allow_remote_frames: false, allow_error_frames: true };
    let payload = [1, 2, 3, 4, 5, 6, 7, 8];
    let frame = generate_frame(&m, &config, &vec![], payload, true, true);
    assert_eq!(frame.data, payload);
    assert_eq!(frame.source, PayloadSource::Random);
    assert!(!frame.remote);
    assert!(frame.error);
}

#[test]
fn flags_and_picks() {
    assert!(!decide_flag(false, true));
    assert!(decide_flag(true, true));
    assert!(!decide_flag(true, false));
    assert_eq!(pick_index(17, 0), None);
    assert_eq!(pick_index(17, 5), Some(2));
    assert_eq!(pick_index(3, 5), Some(3));
    assert_eq!(frame_id(0xFFFF_FFFF), 0x1FFF_FFFF);
    assert_eq!(lookup_id(0x8000_0123), 0x123);
}

#[test]
fn messages_are_found_by_id_without_extended_flag() {
    let ms = vec![
        message(0x100, 8, "A", vec![field(0, 8)]),
        message(0x8000_0200, 8, "B", vec![field(8, 8)]),
        message(0x300, 8, "A", vec![]),
    ];
    assert_eq!(find_message(&ms, 0x8000_0100), Some(0));
    assert_eq!(find_message(&ms, 0x200), Some(1));
    assert_eq!(find_message(&ms, 0x400), None);
    assert_eq!(select_by_transmitter(&ms, &"A".to_string()), vec![0, 2]);
    assert_eq!(select_by_transmitter(&ms, &"C".to_string()), Vec::<usize>::new());
}

#[test]
fn decode_frame_reports_unknown_ids_and_pads_short_payloads() {
    let ms = vec![message(0x100, 8, "A", vec![field(0, 8), field(8, 8)]), message(0x200, 2, "B", vec![field(0, 16)])];
    assert_eq!(decode_frame(&ms, 0x999, &[1, 2]), Err(DecodeError::UnknownMessageId(0x999)));
    let decoded = decode_frame(&ms, 0x200, &[0x34, 0x12]).unwrap();
    assert_eq!(decoded.message_index, 1);
    assert_eq!(decoded.raw_values, vec![0x1234]);
    let decoded = decode_frame(&ms, 0x8000_0100, &[5, 6, 7, 8, 9, 10, 11, 12]).unwrap();
    assert_eq!(decoded.message_index, 0);
    assert_eq!(decoded.raw_values, vec![5, 6]);
    assert_eq!(pad_payload(&[1, 2, 3]), [1, 2, 3, 0, 0, 0, 0, 0]);
    assert_eq!(pad_payload(&[1, 2, 3, 4, 5, 6, 7, 8, 9]), [1, 2, 3, 4, 5, 6, 7, 8]);
}

#[test]
fn bytes_are_categorised_for_display() {
    assert_eq!(Byte(0).category(), ByteCategory::Null);
    assert_eq!(Byte(0).as_char(), '0');
    assert_eq!(Byte(b'A').category(), ByteCategory::AsciiPrintable);
    assert_eq!(Byte(b'A').as_char(), 'A');
    assert_eq!(Byte(b' ').as_char(), ' ');
    assert_eq!(Byte(b'\n').category(), ByteCategory::AsciiWhitespace);
    assert_eq!(Byte(b'\n').as_char(), '_');
    assert_eq!(Byte(0x0b).category(), ByteCategory::AsciiOther);
    assert_eq!(Byte(0x7f).as_char(), '•');
    assert_eq!(Byte(0x80).category(), ByteCategory::NonAscii);
    assert_eq!(Byte(0xff).as_char(), '×');
}
