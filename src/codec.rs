//! Reading and writing unsigned bit fields inside an eight byte payload.
use vstd::arithmetic::power2::pow2;
use vstd::prelude::*;

verus! {

/// How the eight payload bytes are assembled into one 64-bit word.
#[derive(Clone, Copy, Debug, PartialEq, Eq, Structural)]
pub enum ByteOrder {
    /// Byte 0 is the least significant byte.
    LittleEndian,
    /// Byte 0 is the most significant byte.
    BigEndian,
}

/// The word of a payload whose first byte is the least significant.
pub open spec fn word_le(b: Seq<u8>) -> u64 {
    (b[0] as u64) | ((b[1] as u64) << 8u64) | ((b[2] as u64) << 16u64) | ((b[3] as u64) << 24u64)
        | ((b[4] as u64) << 32u64) | ((b[5] as u64) << 40u64) | ((b[6] as u64) << 48u64) | ((
    b[7] as u64) << 56u64)
}

/// The word of a payload whose first byte is the most significant.
pub open spec fn word_be(b: Seq<u8>) -> u64 {
    (b[7] as u64) | ((b[6] as u64) << 8u64) | ((b[5] as u64) << 16u64) | ((b[4] as u64) << 24u64)
        | ((b[3] as u64) << 32u64) | ((b[2] as u64) << 40u64) | ((b[1] as u64) << 48u64) | ((
    b[0] as u64) << 56u64)
}

/// The 64-bit word that a payload stands for in the given byte order.
pub open spec fn word_of(b: Seq<u8>, order: ByteOrder) -> u64 {
    match order {
        ByteOrder::LittleEndian => word_le(b),
        ByteOrder::BigEndian => word_be(b),
    }
}

/// The eight bytes of a word, least significant first.
pub open spec fn bytes_le(w: u64) -> Seq<u8> {
    seq![
        w as u8,
        (w >> 8u64) as u8,
        (w >> 16u64) as u8,
        (w >> 24u64) as u8,
        (w >> 32u64) as u8,
        (w >> 40u64) as u8,
        (w >> 48u64) as u8,
        (w >> 56u64) as u8,
    ]
}

/// The eight bytes of a word, most significant first.
pub open spec fn bytes_be(w: u64) -> Seq<u8> {
    seq![
        (w >> 56u64) as u8,
        (w >> 48u64) as u8,
        (w >> 40u64) as u8,
        (w >> 32u64) as u8,
        (w >> 24u64) as u8,
        (w >> 16u64) as u8,
        (w >> 8u64) as u8,
        w as u8,
    ]
}

/// The payload that stands for a word in the given byte order.
pub open spec fn bytes_of(w: u64, order: ByteOrder) -> Seq<u8> {
    match order {
        ByteOrder::LittleEndian => bytes_le(w),
        ByteOrder::BigEndian => bytes_be(w),
    }
}

/// All ones in the lowest `length` bits; all ones when `length` is 64 or more.
pub open spec fn field_mask(length: u64) -> u64 {
    if length >= 64 {
        0xffff_ffff_ffff_ffffu64
    } else {
        ((1u64 << length) - 1u64) as u64
    }
}

/// The field of `length` bits at bit `start` of a word.
pub open spec fn field_of(w: u64, start: u64, length: u64) -> u64 {
    (w >> start) & field_mask(length)
}

/// A word with `value`, cut to `length` bits, ORed in at bit `start`.
pub open spec fn with_field(w: u64, start: u64, length: u64, value: u64) -> u64 {
    w | ((value & field_mask(length)) << start)
}

/// What `extract` returns.
pub open spec fn extract_spec(data: Seq<u8>, start: u64, length: u64, order: ByteOrder) -> u64 {
    field_of(word_of(data, order), start, length)
}

/// What `inject` returns.
pub open spec fn inject_spec(
    data: Seq<u8>,
    start: u64,
    length: u64,
    order: ByteOrder,
    value: u64,
) -> Seq<u8> {
    bytes_of(with_field(word_of(data, order), start, length, value), order)
}

/// A field that lies inside the 64-bit payload window.
pub open spec fn field_fits(start: u64, length: u64) -> bool {
    1 <= length && start + length <= 64
}

/// The word of the bytes of a word is that word.
pub proof fn lemma_word_of_bytes(w: u64, order: ByteOrder)
    ensures
        bytes_of(w, order).len() == 8,
        word_of(bytes_of(w, order), order) == w,
{
    let b0 = w as u8;
    let b1 = (w >> 8u64) as u8;
    let b2 = (w >> 16u64) as u8;
    let b3 = (w >> 24u64) as u8;
    let b4 = (w >> 32u64) as u8;
    let b5 = (w >> 40u64) as u8;
    let b6 = (w >> 48u64) as u8;
    let b7 = (w >> 56u64) as u8;
    assert((b0 as u64) | ((b1 as u64) << 8u64) | ((b2 as u64) << 16u64) | ((b3 as u64) << 24u64)
        | ((b4 as u64) << 32u64) | ((b5 as u64) << 40u64) | ((b6 as u64) << 48u64) | ((
    b7 as u64) << 56u64) == w) by (bit_vector)
        requires
            b0 == w as u8,
            b1 == (w >> 8u64) as u8,
            b2 == (w >> 16u64) as u8,
            b3 == (w >> 24u64) as u8,
            b4 == (w >> 32u64) as u8,
            b5 == (w >> 40u64) as u8,
            b6 == (w >> 48u64) as u8,
            b7 == (w >> 56u64) as u8,
    ;
}

/// Assembles the payload into its word.
pub fn word_from_bytes(data: &[u8; 8], order: ByteOrder) -> (r: u64)
    ensures
        r == word_of(data@, order),
{
    match order {
        ByteOrder::LittleEndian => {
            (data[0] as u64) | ((data[1] as u64) << 8u64) | ((data[2] as u64) << 16u64) | ((
            data[3] as u64) << 24u64) | ((data[4] as u64) << 32u64) | ((data[5] as u64) << 40u64)
                | ((data[6] as u64) << 48u64) | ((data[7] as u64) << 56u64)
        },
        ByteOrder::BigEndian => {
            (data[7] as u64) | ((data[6] as u64) << 8u64) | ((data[5] as u64) << 16u64) | ((
            data[4] as u64) << 24u64) | ((data[3] as u64) << 32u64) | ((data[2] as u64) << 40u64)
                | ((data[1] as u64) << 48u64) | ((data[0] as u64) << 56u64)
        },
    }
}

/// Splits a word into its eight payload bytes.
pub fn bytes_from_word(w: u64, order: ByteOrder) -> (r: [u8; 8])
    ensures
        r@ == bytes_of(w, order),
{
    let r = match order {
        ByteOrder::LittleEndian => [
            w as u8,
            (w >> 8u64) as u8,
            (w >> 16u64) as u8,
            (w >> 24u64) as u8,
            (w >> 32u64) as u8,
            (w >> 40u64) as u8,
            (w >> 48u64) as u8,
            (w >> 56u64) as u8,
        ],
        ByteOrder::BigEndian => [
            (w >> 56u64) as u8,
            (w >> 48u64) as u8,
            (w >> 40u64) as u8,
            (w >> 32u64) as u8,
            (w >> 24u64) as u8,
            (w >> 16u64) as u8,
            (w >> 8u64) as u8,
            w as u8,
        ],
    };
    assert(r@ =~= bytes_of(w, order));
    r
}

/// The mask of the lowest `length` bits.
pub fn mask_of(length: u64) -> (r: u64)
    ensures
        r == field_mask(length),
{
    if length >= 64 {
        0xffff_ffff_ffff_ffffu64
    } else {
        assert((1u64 << length) >= 1u64) by (bit_vector)
            requires
                length < 64,
        ;
        (1u64 << length) - 1
    }
}

/// Reads the unsigned field of `length` bits that starts at bit `start_bit` of the
/// payload's word.
pub fn extract(data: &[u8; 8], start_bit: u64, length: u64, order: ByteOrder) -> (r: u64)
    requires
        field_fits(start_bit, length),
    ensures
        r == extract_spec(data@, start_bit, length, order),
{
    let w = word_from_bytes(data, order);
    (w >> start_bit) & mask_of(length)
}

/// ORs `value`, cut to `length` bits, into the payload's word at bit `start_bit`.
/// Every bit outside the field keeps its value.
pub fn inject(data: &[u8; 8], start_bit: u64, length: u64, order: ByteOrder, value: u64) -> (r: [u8; 8])
    requires
        field_fits(start_bit, length),
    ensures
        r@ == inject_spec(data@, start_bit, length, order, value),
{
    let w = word_from_bytes(data, order);
    let field = (value & mask_of(length)) << start_bit;
    bytes_from_word(w | field, order)
}

/// A field written into a zero word reads back as the value written.
proof fn lemma_field_round_trip(start: u64, length: u64, v: u64)
    requires
        field_fits(start, length),
        v <= field_mask(length),
    ensures
        field_of(with_field(0, start, length, v), start, length) == v,
{
    assert(((0u64 | ((v & field_mask(length)) << start)) >> start) & field_mask(length) == v)
        by (bit_vector)
        requires
            1 <= length,
            start + length <= 64,
            v <= field_mask(length),
    ;
}

/// Round trip: a value of at most `length` bits, injected into a zero payload and
/// extracted again from the same field, comes back unchanged.
pub proof fn lemma_extract_inject_zero(start: u64, length: u64, order: ByteOrder, v: u64)
    requires
        field_fits(start, length),
        v <= field_mask(length),
    ensures
        extract_spec(
            inject_spec(seq![0u8, 0u8, 0u8, 0u8, 0u8, 0u8, 0u8, 0u8], start, length, order, v),
            start,
            length,
            order,
        ) == v,
{
    lemma_zero_word(order);
    lemma_word_of_bytes(with_field(0, start, length, v), order);
    lemma_field_round_trip(start, length, v);
}

/// Two fields whose bit ranges do not overlap.
pub open spec fn fields_disjoint(start_a: u64, length_a: u64, start_b: u64, length_b: u64) -> bool {
    start_a + length_a <= start_b || start_b + length_b <= start_a
}

/// Non-interference: injecting two fields gives the same payload in either order, and
/// once a field has been injected, injecting a second field whose bits do not overlap
/// it leaves what the first field reads unchanged.
pub proof fn lemma_inject_non_interference(
    data: Seq<u8>,
    order: ByteOrder,
    start_a: u64,
    length_a: u64,
    value_a: u64,
    start_b: u64,
    length_b: u64,
    value_b: u64,
)
    requires
        data.len() == 8,
        field_fits(start_a, length_a),
        field_fits(start_b, length_b),
        fields_disjoint(start_a, length_a, start_b, length_b),
    ensures
        inject_spec(
            inject_spec(data, start_a, length_a, order, value_a),
            start_b,
            length_b,
            order,
            value_b,
        ) == inject_spec(
            inject_spec(data, start_b, length_b, order, value_b),
            start_a,
            length_a,
            order,
            value_a,
        ),
        extract_spec(
            inject_spec(
                inject_spec(data, start_a, length_a, order, value_a),
                start_b,
                length_b,
                order,
                value_b,
            ),
            start_a,
            length_a,
            order,
        ) == extract_spec(inject_spec(data, start_a, length_a, order, value_a), start_a, length_a, order),
{
    let w = word_of(data, order);
    let wa = with_field(w, start_a, length_a, value_a);
    let wb = with_field(w, start_b, length_b, value_b);
    lemma_word_of_bytes(wa, order);
    lemma_word_of_bytes(wb, order);
    let wab = with_field(wa, start_b, length_b, value_b);
    let wba = with_field(wb, start_a, length_a, value_a);
    assert(wab == wba) by (bit_vector)
        requires
            wa == w | ((value_a & field_mask(length_a)) << start_a),
            wb == w | ((value_b & field_mask(length_b)) << start_b),
            wab == wa | ((value_b & field_mask(length_b)) << start_b),
            wba == wb | ((value_a & field_mask(length_a)) << start_a),
    ;
    assert(field_of(wab, start_a, length_a) == field_of(wa, start_a, length_a)) by (bit_vector)
        requires
            wab == wa | ((value_b & field_mask(length_b)) << start_b),
            1 <= length_a,
            start_a + length_a <= 64,
            1 <= length_b,
            start_b + length_b <= 64,
            start_a + length_a <= start_b || start_b + length_b <= start_a,
    ;
    lemma_word_of_bytes(wab, order);
}

/// ORing a field into a word leaves every field that does not overlap it as it was.
pub proof fn lemma_with_field_keeps_other(
    w: u64,
    start_a: u64,
    length_a: u64,
    start_b: u64,
    length_b: u64,
    value_b: u64,
)
    requires
        field_fits(start_a, length_a),
        field_fits(start_b, length_b),
        fields_disjoint(start_a, length_a, start_b, length_b),
    ensures
        field_of(with_field(w, start_b, length_b, value_b), start_a, length_a) == field_of(
            w,
            start_a,
            length_a,
        ),
{
    assert(((w | ((value_b & field_mask(length_b)) << start_b)) >> start_a) & field_mask(length_a)
        == (w >> start_a) & field_mask(length_a)) by (bit_vector)
        requires
            1 <= length_a,
            start_a + length_a <= 64,
            1 <= length_b,
            start_b + length_b <= 64,
            start_a + length_a <= start_b || start_b + length_b <= start_a,
    ;
}

/// ORing a field into a word ORs the value, cut to the field's width, into that field.
pub proof fn lemma_with_field_same(w: u64, start: u64, length: u64, value: u64)
    requires
        field_fits(start, length),
    ensures
        field_of(with_field(w, start, length, value), start, length) == field_of(w, start, length)
            | (value & field_mask(length)),
{
    assert(((w | ((value & field_mask(length)) << start)) >> start) & field_mask(length) == ((w
        >> start) & field_mask(length)) | (value & field_mask(length))) by (bit_vector)
        requires
            1 <= length,
            start + length <= 64,
    ;
}

/// The zero payload stands for the zero word in either byte order.
pub proof fn lemma_zero_word(order: ByteOrder)
    ensures
        word_of(seq![0u8, 0u8, 0u8, 0u8, 0u8, 0u8, 0u8, 0u8], order) == 0u64,
        forall|start: u64, length: u64| #[trigger] field_of(0u64, start, length) == 0u64,
{
    let zero = seq![0u8, 0u8, 0u8, 0u8, 0u8, 0u8, 0u8, 0u8];
    assert(zero[0] == 0u8 && zero[1] == 0u8 && zero[2] == 0u8 && zero[3] == 0u8);
    assert(zero[4] == 0u8 && zero[5] == 0u8 && zero[6] == 0u8 && zero[7] == 0u8);
    assert((0u8 as u64) | ((0u8 as u64) << 8u64) | ((0u8 as u64) << 16u64) | ((0u8 as u64)
        << 24u64) | ((0u8 as u64) << 32u64) | ((0u8 as u64) << 40u64) | ((0u8 as u64) << 48u64)
        | ((0u8 as u64) << 56u64) == 0u64) by (bit_vector);
    assert forall|start: u64, length: u64| #[trigger] field_of(0u64, start, length) == 0u64 by {
        assert((0u64 >> start) & field_mask(length) == 0u64) by (bit_vector);
    }
}

/// The field read at bit `start` of a word, taken as a number: the word divided by
/// 2^start, modulo 2^length.
pub proof fn lemma_field_is_div_mod(w: u64, start: u64, length: u64)
    requires
        field_fits(start, length),
    ensures
        field_of(w, start, length) as nat == (w as nat / pow2(start as nat)) % pow2(length as nat),
{
    vstd::bits::lemma_u64_shr_is_div(w, start);
    let x = w >> start;
    if length < 64 {
        vstd::bits::lemma_u64_low_bits_mask_is_mod(x, length as nat);
        vstd::bits::lemma_u64_pow2_no_overflow(length as nat);
        vstd::bits::lemma_u64_shl_is_mul(1u64, length);
    } else {
        assert(x & 0xffff_ffff_ffff_ffffu64 == x) by (bit_vector);
        assert(start == 0);
        vstd::arithmetic::power2::lemma2_to64();
        vstd::arithmetic::power2::lemma2_to64_rest();
        vstd::arithmetic::div_mod::lemma_small_mod(x as nat, pow2(64));
    }
}

} // verus!
