//! Recovering the raw value of every signal of a received frame.
use vstd::prelude::*;

use crate::codec::{extract, extract_spec, field_mask};
use crate::generate::{lemma_payload_keeps_every_signal, signals_payload, signals_separate};
use crate::layout::{find_message, masked_id, MessageLayout};

verus! {

/// Why a frame could not be decoded.
#[derive(Clone, Copy, Debug, PartialEq, Eq, Structural)]
pub enum DecodeError {
    /// No message of the layout has the frame's identifier (extended-format flag
    /// cleared). The frame is reported as it is; the stream goes on.
    UnknownMessageId(u32),
}

/// The signals of a decoded frame: which message it was, and the raw value of each
/// of that message's signals in declaration order.
#[derive(Debug, PartialEq, Eq)]
pub struct DecodedFrame {
    pub message_index: usize,
    pub raw_values: Vec<u64>,
}

/// A received payload of up to eight bytes, padded with zero bytes to eight; bytes
/// past the eighth are not part of the codec's window.
pub open spec fn padded(data: Seq<u8>) -> Seq<u8> {
    Seq::new(8, |i: int| if i < data.len() { data[i] } else { 0u8 })
}

/// Pads a received payload with zero bytes to eight bytes.
pub fn pad_payload(data: &[u8]) -> (r: [u8; 8])
    ensures
        r@ == padded(data@),
{
    let mut r: [u8; 8] = [0u8, 0u8, 0u8, 0u8, 0u8, 0u8, 0u8, 0u8];
    let mut i: usize = 0;
    while i < 8 && i < data.len()
        invariant
            i <= 8,
            i <= data@.len(),
            r@.len() == 8,
            forall|k: int| 0 <= k < 8 ==> #[trigger] r@[k] == if k < i {
                data@[k]
            } else {
                0u8
            },
        decreases 8 - i,
    {
        r[i] = data[i];
        i = i + 1;
    }
    assert(r@ =~= padded(data@));
    r
}

/// The raw values of a message's signals read from a payload, in declaration order.
pub open spec fn raw_values_of(message: &MessageLayout, data: Seq<u8>) -> Seq<u64> {
    Seq::new(
        message.signals@.len(),
        |k: int|
            extract_spec(
                data,
                message.signals@[k].start_bit,
                message.signals@[k].signal_size,
                message.signals@[k].byte_order,
            ),
    )
}

/// Reads every signal of a message from a payload, in declaration order. No range
/// check is made: a value outside the declared range is reported as it is.
pub fn decode_raw(data: &[u8; 8], message: &MessageLayout) -> (r: Vec<u64>)
    requires
        message.wf(),
    ensures
        r@ == raw_values_of(message, data@),
{
    let mut r: Vec<u64> = Vec::new();
    let mut i: usize = 0;
    while i < message.signals.len()
        invariant
            message.wf(),
            i <= message.signals@.len(),
            r@ =~= raw_values_of(message, data@).subrange(0, i as int),
        decreases message.signals@.len() - i,
    {
        let s = message.signals[i];
        assert(message.signals@[i as int].wf());
        r.push(extract(data, s.start_bit, s.signal_size, s.byte_order));
        i = i + 1;
    }
    r
}

/// Every message of a layout is well formed.
pub open spec fn layouts_wf(messages: Seq<MessageLayout>) -> bool {
    forall|i: int| 0 <= i < messages.len() ==> (#[trigger] messages[i]).wf()
}

/// Decodes a received frame against the first message whose identifier matches the
/// frame's (extended-format flag cleared), or reports that none does.
pub fn decode_frame(messages: &Vec<MessageLayout>, id: u32, data: &[u8]) -> (r: Result<
    DecodedFrame,
    DecodeError,
>)
    requires
        layouts_wf(messages@),
    ensures
        r is Err <==> forall|i: int|
            0 <= i < messages@.len() ==> masked_id(#[trigger] messages@[i].id) != masked_id(id),
        r is Err ==> r->Err_0 == DecodeError::UnknownMessageId(id),
        r is Ok ==> {
            let i = r->Ok_0.message_index as int;
            &&& 0 <= i < messages@.len()
            &&& masked_id(messages@[i].id) == masked_id(id)
            &&& forall|j: int| 0 <= j < i ==> masked_id(#[trigger] messages@[j].id) != masked_id(id)
            &&& r->Ok_0.raw_values@ == raw_values_of(&messages@[i], padded(data@))
        },
{
    match find_message(messages, id) {
        None => Err(DecodeError::UnknownMessageId(id)),
        Some(i) => {
            let payload = pad_payload(data);
            assert(messages@[i as int].wf());
            let raw_values = decode_raw(&payload, &messages[i]);
            Ok(DecodedFrame { message_index: i, raw_values })
        },
    }
}

/// Decoding a payload built by the generator gives back, for each signal, the raw
/// value it was built from cut to the signal's width, provided the message's signals
/// share one byte order and do not overlap.
pub proof fn lemma_decode_generated(message: &MessageLayout, raws: Seq<u64>)
    requires
        message.wf(),
        signals_separate(message.signals@),
        raws.len() == message.signals@.len(),
    ensures
        forall|k: int|
            0 <= k < raws.len() ==> #[trigger] raw_values_of(
                message,
                signals_payload(message.signals@, raws),
            )[k] == raws[k] & field_mask(message.signals@[k].signal_size),
{
    assert forall|k: int| 0 <= k < raws.len() implies #[trigger] raw_values_of(
        message,
        signals_payload(message.signals@, raws),
    )[k] == raws[k] & field_mask(message.signals@[k].signal_size) by {
        lemma_payload_keeps_every_signal(message.signals@, raws, k);
    }
}

} // verus!
