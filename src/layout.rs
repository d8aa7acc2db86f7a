//! The bit layout of a CAN message and its signals.
use vstd::prelude::*;

use crate::codec::{field_fits, ByteOrder};

verus! {

/// The bit of a raw identifier that marks the extended (29-bit) frame format.
pub const CAN_EFF_FLAG: u32 = 0x8000_0000;

/// The bits of a raw identifier that carry an extended (29-bit) identifier.
pub const CAN_EFF_MASK: u32 = 0x1FFF_FFFF;

/// Why a layout was refused.
#[derive(Clone, Copy, Debug, PartialEq, Eq, Structural)]
pub enum LayoutError {
    /// The signal's bits do not lie inside the 64-bit payload window, or it has no bits.
    FieldOutsidePayload { start_bit: u64, signal_size: u64 },
}

/// Where one signal sits in the payload: its start bit, its width and the byte order of
/// the word it is read from. Scaling to a physical value is applied by the caller.
#[derive(Clone, Copy, Debug, PartialEq, Eq, Structural)]
pub struct SignalField {
    pub start_bit: u64,
    pub signal_size: u64,
    pub byte_order: ByteOrder,
}

impl SignalField {
    /// The field lies inside the payload window.
    pub open spec fn wf(&self) -> bool {
        field_fits(self.start_bit, self.signal_size)
    }

    /// Builds a signal field, refusing one whose bits leave the 64-bit window.
    pub fn new(start_bit: u64, signal_size: u64, byte_order: ByteOrder) -> (r: Result<
        SignalField,
        LayoutError,
    >)
        ensures
            field_fits(start_bit, signal_size) <==> r is Ok,
            r is Ok ==> r->Ok_0 == (SignalField { start_bit, signal_size, byte_order }),
            r is Err ==> r->Err_0 == (LayoutError::FieldOutsidePayload { start_bit, signal_size }),
    {
        if signal_size >= 1 && signal_size <= 64 && start_bit <= 64 - signal_size {
            Ok(SignalField { start_bit, signal_size, byte_order })
        } else {
            Err(LayoutError::FieldOutsidePayload { start_bit, signal_size })
        }
    }
}

/// One message of a layout description: its raw identifier, its declared size in
/// bytes, the name of the node that sends it, and its signals in declaration order.
#[derive(Debug)]
pub struct MessageLayout {
    pub id: u32,
    pub size: u64,
    pub transmitter: String,
    pub signals: Vec<SignalField>,
}

impl MessageLayout {
    /// Every signal lies inside the payload window.
    pub open spec fn wf(&self) -> bool {
        forall|k: int| 0 <= k < self.signals@.len() ==> (#[trigger] self.signals@[k]).wf()
    }

    /// Builds a message layout from signals that were each validated.
    pub fn new(id: u32, size: u64, transmitter: String, signals: Vec<SignalField>) -> (r:
        MessageLayout)
        requires
            forall|k: int| 0 <= k < signals@.len() ==> (#[trigger] signals@[k]).wf(),
        ensures
            r.wf(),
            r.id == id,
            r.size == size,
            r.transmitter@ == transmitter@,
            r.signals@ == signals@,
    {
        MessageLayout { id, size, transmitter, signals }
    }
}

/// The identifier with the extended-format flag cleared.
pub open spec fn masked_id(id: u32) -> u32 {
    id & !CAN_EFF_FLAG
}

/// The identifier with the extended-format flag cleared, as messages are looked up by.
pub fn lookup_id(id: u32) -> (r: u32)
    ensures
        r == masked_id(id),
{
    id & !CAN_EFF_FLAG
}

/// The identifier that goes on the bus for a message: its 29 identifier bits.
pub fn frame_id(message_id: u32) -> (r: u32)
    ensures
        r == message_id & CAN_EFF_MASK,
{
    message_id & CAN_EFF_MASK
}

/// Finds the first message whose identifier, with the extended-format flag cleared,
/// equals that of the frame identifier.
pub fn find_message(messages: &Vec<MessageLayout>, id: u32) -> (r: Option<usize>)
    ensures
        r is None <==> forall|i: int|
            0 <= i < messages@.len() ==> masked_id(#[trigger] messages@[i].id) != masked_id(id),
        r is Some ==> {
            let i = r->Some_0 as int;
            &&& 0 <= i < messages@.len()
            &&& masked_id(messages@[i].id) == masked_id(id)
            &&& forall|j: int| 0 <= j < i ==> masked_id(#[trigger] messages@[j].id) != masked_id(id)
        },
{
    let key = lookup_id(id);
    let mut i: usize = 0;
    while i < messages.len()
        invariant
            i <= messages@.len(),
            key == masked_id(id),
            forall|j: int| 0 <= j < i ==> masked_id(#[trigger] messages@[j].id) != masked_id(id),
        decreases messages@.len() - i,
    {
        if lookup_id(messages[i].id) == key {
            return Some(i);
        }
        i = i + 1;
    }
    None
}

/// The positions, in order, of the messages sent by the named node.
pub fn select_by_transmitter(messages: &Vec<MessageLayout>, transmitter: &String) -> (r: Vec<usize>)
    ensures
        forall|k: int| 0 <= k < r@.len() ==> {
            &&& (#[trigger] r@[k]) < messages@.len()
            &&& messages@[r@[k] as int].transmitter@ == transmitter@
        },
        forall|k: int, l: int| 0 <= k < l < r@.len() ==> r@[k] < r@[l],
        forall|i: int|
            0 <= i < messages@.len() && (#[trigger] messages@[i]).transmitter@ == transmitter@
                ==> r@.contains(i as usize),
{
    let mut r: Vec<usize> = Vec::new();
    let mut i: usize = 0;
    while i < messages.len()
        invariant
            i <= messages@.len(),
            forall|k: int| 0 <= k < r@.len() ==> {
                &&& (#[trigger] r@[k]) < i
                &&& messages@[r@[k] as int].transmitter@ == transmitter@
            },
            forall|k: int, l: int| 0 <= k < l < r@.len() ==> r@[k] < r@[l],
            forall|j: int|
                0 <= j < i && (#[trigger] messages@[j]).transmitter@ == transmitter@
                    ==> r@.contains(j as usize),
        decreases messages@.len() - i,
    {
        if messages[i].transmitter == *transmitter {
            let ghost old_r = r@;
            r.push(i);
            assert forall|j: int|
                0 <= j < i + 1 && (#[trigger] messages@[j]).transmitter@ == transmitter@
                    implies r@.contains(j as usize) by {
                if j < i {
                    let k = choose|k: int| 0 <= k < old_r.len() && old_r[k] == j as usize;
                    assert(r@[k] == j as usize);
                } else {
                    assert(r@[r@.len() - 1] == i);
                }
            }
        }
        i = i + 1;
    }
    r
}

} // verus!
