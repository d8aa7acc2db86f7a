use canrainbow::codec::{bytes_from_word, extract, inject, mask_of, word_from_bytes, ByteOrder};

const ZERO: [u8; 8] = [0; 8];

#[test]
fn inject_byte_zero_little_endian() {
    let data = inject(&ZERO, 0, 8, ByteOrder::LittleEndian, 42);
    assert_eq!(data, [0x2A, 0, 0, 0, 0, 0, 0, 0]);
    let raw = extract(&data, 0, 8, ByteOrder::LittleEndian);
    assert_eq!(raw, 42);
    // factor 1, offset 0
    assert_eq!(raw as f64 * 1.0 + 0.0, 42.0);
}

#[test]
fn inject_masks_value_to_field_width() {
    let data = inject(&ZERO, 8, 4, ByteOrder::LittleEndian, 100);
    assert_eq!(data, [0, 0x04, 0, 0, 0, 0, 0, 0]);
    let raw = extract(&data, 8, 4, ByteOrder::LittleEndian);
    assert_eq!(raw, 4);
    // factor 0.1, offset -5
    let physical = raw as f64 * 0.1 - 5.0;
    assert!((physical - (-4.6)).abs() < 1e-9);
}

#[test]
fn big_endian_puts_low_bits_in_last_byte() {
    let data = inject(&ZERO, 0, 8, ByteOrder::BigEndian, 0x2A);
    assert_eq!(data, [0, 0, 0, 0, 0, 0, 0, 0x2A]);
    assert_eq!(extract(&data, 0, 8, ByteOrder::BigEndian), 0x2A);
    assert_eq!(extract(&data, 0, 8, ByteOrder::LittleEndian), 0);
    assert_eq!(extract(&data, 56, 8, ByteOrder::LittleEndian), 0x2A);
}

#[test]
fn full_width_field_round_trips() {
    let data = inject(&ZERO, 0, 64, ByteOrder::LittleEndian, u64::MAX);
    assert_eq!(data, [0xff; 8]);
    assert_eq!(extract(&data, 0, 64, ByteOrder::LittleEndian), u64::MAX);
    assert_eq!(mask_of(64), u64::MAX);
    assert_eq!(mask_of(1), 1);
    assert_eq!(mask_of(12), 0xfff);
}

#[test]
fn round_trip_on_assorted_fields() {
    let fields: [(u64, u64, u64); 5] = [(0, 1, 1), (3, 5, 17), (12, 20, 0xABCDE), (63, 1, 1), (8, 56, 0x00FF_FFFF_FFFF_FFFF)];
    for order in [ByteOrder::LittleEndian, ByteOrder::BigEndian] {
        for (start, length, value) in fields {
            let data = inject(&ZERO, start, length, order, value);
            assert_eq!(extract(&data, start, length, order), value);
        }
    }
}

#[test]
fn inject_keeps_other_bits_and_commutes() {
    let base = [0x11, 0x22, 0x33, 0x44, 0x55, 0x66, 0x77, 0x88];
    let a_then_b = inject(&inject(&base, 0, 4, ByteOrder::LittleEndian, 0xA), 40, 8, ByteOrder::LittleEndian, 0x0F);
    let b_then_a = inject(&inject(&base, 40, 8, ByteOrder::LittleEndian, 0x0F), 0, 4, ByteOrder::LittleEndian, 0xA);
    assert_eq!(a_then_b, b_then_a);
    assert_eq!(a_then_b, [0x1B, 0x22, 0x33, 0x44, 0x55, 0x6F, 0x77, 0x88]);

    let zero_a = inject(&ZERO, 4, 12, ByteOrder::BigEndian, 0x123);
    let both = inject(&zero_a, 20, 8, ByteOrder::BigEndian, 0xEE);
    assert_eq!(extract(&both, 4, 12, ByteOrder::BigEndian), 0x123);
    assert_eq!(extract(&both, 20, 8, ByteOrder::BigEndian), 0xEE);
}

#[test]
fn inject_ors_into_an_occupied_field() {
    let data = inject(&[0x05, 0, 0, 0, 0, 0, 0, 0], 0, 4, ByteOrder::LittleEndian, 0x0A);
    assert_eq!(data[0], 0x0F);
}

#[test]
fn words_and_bytes_convert_both_ways() {
    let bytes = [1, 2, 3, 4, 5, 6, 7, 8];
    assert_eq!(word_from_bytes(&bytes, ByteOrder::LittleEndian), 0x0807060504030201);
    assert_eq!(word_from_bytes(&bytes, ByteOrder::BigEndian), 0x0102030405060708);
    assert_eq!(bytes_from_word(0x0807060504030201, ByteOrder::LittleEndian), bytes);
    assert_eq!(bytes_from_word(0x0102030405060708, ByteOrder::BigEndian), bytes);
}
