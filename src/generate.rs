//! Building the payload and flags of a generated frame from values drawn by the caller.
use vstd::prelude::*;

use crate::codec::{
    extract_spec, field_mask, fields_disjoint, inject, inject_spec, lemma_with_field_keeps_other,
    lemma_with_field_same, lemma_word_of_bytes, lemma_zero_word,
};
use crate::layout::{frame_id, MessageLayout, SignalField, CAN_EFF_MASK};

verus! {

/// How a payload is produced.
#[derive(Clone, Copy, Debug, PartialEq, Eq, Structural)]
pub enum Strategy {
    /// Each signal gets a raw value derived from its declared physical range.
    SignalRange,
    /// All eight bytes are random, whatever the signals say.
    RandomPayload,
}

/// Which frames the generator may produce.
#[derive(Clone, Copy, Debug, PartialEq, Eq, Structural)]
pub struct GenConfig {
    pub strategy: Strategy,
    pub allow_remote_frames: bool,
    pub allow_error_frames: bool,
}

/// Where the payload of a generated frame came from.
#[derive(Clone, Copy, Debug, PartialEq, Eq, Structural)]
pub enum PayloadSource {
    /// Built from the raw values of the message's signals.
    Signals,
    /// The random bytes handed in.
    Random,
    /// All zero: the message declares more than eight bytes, which the signal
    /// strategy does not support.
    UnsupportedSize,
}

/// A frame ready to be sent: identifier, payload, flags, and where the payload came from.
#[derive(Clone, Copy, Debug, PartialEq, Eq)]
pub struct GeneratedFrame {
    pub id: u32,
    pub data: [u8; 8],
    pub remote: bool,
    pub error: bool,
    pub source: PayloadSource,
}

/// The payload with every bit clear.
pub open spec fn zero_payload() -> Seq<u8> {
    seq![0u8, 0u8, 0u8, 0u8, 0u8, 0u8, 0u8, 0u8]
}

/// The payload after injecting the first `n` signals, each with its raw value, into a
/// zero payload, one after the other.
pub open spec fn payload_upto(signals: Seq<SignalField>, raws: Seq<u64>, n: nat) -> Seq<u8>
    decreases n,
{
    if n == 0 {
        zero_payload()
    } else {
        let s = signals[n - 1];
        inject_spec(
            payload_upto(signals, raws, (n - 1) as nat),
            s.start_bit,
            s.signal_size,
            s.byte_order,
            raws[n - 1],
        )
    }
}

/// The payload of a message whose signals carry the given raw values.
pub open spec fn signals_payload(signals: Seq<SignalField>, raws: Seq<u64>) -> Seq<u8> {
    payload_upto(signals, raws, signals.len())
}

/// Injects the raw value of each signal, in declaration order, into a zero payload.
pub fn gen_msg_frame_data(message: &MessageLayout, raw_values: &Vec<u64>) -> (r: [u8; 8])
    requires
        message.wf(),
        raw_values@.len() == message.signals@.len(),
    ensures
        r@ == signals_payload(message.signals@, raw_values@),
{
    let mut data: [u8; 8] = [0u8, 0u8, 0u8, 0u8, 0u8, 0u8, 0u8, 0u8];
    assert(data@ =~= zero_payload());
    let mut i: usize = 0;
    while i < message.signals.len()
        invariant
            message.wf(),
            raw_values@.len() == message.signals@.len(),
            i <= message.signals@.len(),
            data@ == payload_upto(message.signals@, raw_values@, i as nat),
        decreases message.signals@.len() - i,
    {
        let s = message.signals[i];
        assert(message.signals@[i as int].wf());
        data = inject(&data, s.start_bit, s.signal_size, s.byte_order, raw_values[i]);
        i = i + 1;
    }
    data
}

/// A flag is set only where its kind of frame is allowed and the draw says so.
pub fn decide_flag(allowed: bool, draw: bool) -> (r: bool)
    ensures
        r == (allowed && draw),
{
    if allowed {
        draw
    } else {
        false
    }
}

/// Picks one of `count` candidates from a random draw; none when there are none.
pub fn pick_index(draw: u64, count: usize) -> (r: Option<usize>)
    ensures
        count == 0 <==> r is None,
        r is Some ==> r->Some_0 as int == draw as int % count as int,
{
    if count == 0 {
        None
    } else {
        Some((draw % (count as u64)) as usize)
    }
}

/// The payload the signal strategy gives a message: the signals' raw values injected
/// into a zero payload, or all zero where the message declares more than eight bytes.
pub open spec fn range_payload(message: &MessageLayout, raws: Seq<u64>) -> Seq<u8> {
    if message.size > 8 {
        zero_payload()
    } else {
        signals_payload(message.signals@, raws)
    }
}

/// Builds the frame for a chosen message from the values the caller drew: the raw
/// value of each signal (used by the signal strategy), eight random bytes (used by the
/// random strategy) and one draw for each of the two flags.
pub fn generate_frame(
    message: &MessageLayout,
    config: &GenConfig,
    raw_values: &Vec<u64>,
    random_payload: [u8; 8],
    remote_draw: bool,
    error_draw: bool,
) -> (r: GeneratedFrame)
    requires
        message.wf(),
        config.strategy == Strategy::SignalRange && message.size <= 8 ==> raw_values@.len()
            == message.signals@.len(),
    ensures
        r.id == message.id & CAN_EFF_MASK,
        r.remote == (config.allow_remote_frames && remote_draw),
        r.error == (config.allow_error_frames && error_draw),
        config.strategy == Strategy::RandomPayload ==> r.data@ == random_payload@ && r.source
            == PayloadSource::Random,
        config.strategy == Strategy::SignalRange ==> r.data@ == range_payload(message, raw_values@),
        config.strategy == Strategy::SignalRange ==> r.source == if message.size > 8 {
            PayloadSource::UnsupportedSize
        } else {
            PayloadSource::Signals
        },
{
    let remote = decide_flag(config.allow_remote_frames, remote_draw);
    let error = decide_flag(config.allow_error_frames, error_draw);
    let (data, source) = match config.strategy {
        Strategy::RandomPayload => (random_payload, PayloadSource::Random),
        Strategy::SignalRange => {
            if message.size > 8 {
                let zero: [u8; 8] = [0u8, 0u8, 0u8, 0u8, 0u8, 0u8, 0u8, 0u8];
                assert(zero@ =~= zero_payload());
                (zero, PayloadSource::UnsupportedSize)
            } else {
                (gen_msg_frame_data(message, raw_values), PayloadSource::Signals)
            }
        },
    };
    GeneratedFrame { id: frame_id(message.id), data, remote, error, source }
}

/// Signals that all use one byte order and whose bit ranges do not overlap.
pub open spec fn signals_separate(signals: Seq<SignalField>) -> bool {
    forall|i: int, j: int|
        0 <= i < signals.len() && 0 <= j < signals.len() && i != j ==> {
            &&& (#[trigger] signals[i]).byte_order == (#[trigger] signals[j]).byte_order
            &&& fields_disjoint(
                signals[i].start_bit,
                signals[i].signal_size,
                signals[j].start_bit,
                signals[j].signal_size,
            )
        }
}

proof fn lemma_payload_upto_field(signals: Seq<SignalField>, raws: Seq<u64>, k: int, n: nat)
    requires
        forall|i: int| 0 <= i < signals.len() ==> (#[trigger] signals[i]).wf(),
        signals_separate(signals),
        raws.len() == signals.len(),
        0 <= k < signals.len(),
        n <= signals.len(),
    ensures
        extract_spec(
            payload_upto(signals, raws, n),
            signals[k].start_bit,
            signals[k].signal_size,
            signals[k].byte_order,
        ) == if n <= k {
            0u64
        } else {
            raws[k] & field_mask(signals[k].signal_size)
        },
    decreases n,
{
    let sk = signals[k];
    assert(sk.wf());
    if n == 0 {
        lemma_zero_word(sk.byte_order);
    } else {
        let j = n - 1;
        let sj = signals[j];
        assert(sj.wf());
        lemma_payload_upto_field(signals, raws, k, (n - 1) as nat);
        let prev = payload_upto(signals, raws, (n - 1) as nat);
        if j != k {
            assert(sj.byte_order == sk.byte_order);
        }
        let w = crate::codec::word_of(prev, sk.byte_order);
        let w2 = crate::codec::with_field(w, sj.start_bit, sj.signal_size, raws[j]);
        lemma_word_of_bytes(w2, sk.byte_order);
        if j == k {
            lemma_with_field_same(w, sk.start_bit, sk.signal_size, raws[k]);
            let m = raws[k] & field_mask(sk.signal_size);
            assert(0u64 | m == m) by (bit_vector);
        } else {
            lemma_with_field_keeps_other(
                w,
                sk.start_bit,
                sk.signal_size,
                sj.start_bit,
                sj.signal_size,
                raws[j],
            );
        }
    }
}

/// Later signals never corrupt earlier ones: where a message's signals share one byte
/// order and do not overlap, each signal reads back from the assembled payload as its
/// own raw value cut to the signal's width.
pub proof fn lemma_payload_keeps_every_signal(signals: Seq<SignalField>, raws: Seq<u64>, k: int)
    requires
        forall|i: int| 0 <= i < signals.len() ==> (#[trigger] signals[i]).wf(),
        signals_separate(signals),
        raws.len() == signals.len(),
        0 <= k < signals.len(),
    ensures
        extract_spec(
            signals_payload(signals, raws),
            signals[k].start_bit,
            signals[k].signal_size,
            signals[k].byte_order,
        ) == raws[k] & field_mask(signals[k].signal_size),
{
    lemma_payload_upto_field(signals, raws, k, signals.len());
}

} // verus!
