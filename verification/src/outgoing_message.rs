//! The outbound delivery tracker: holds the blocks of one outbound message
//! until every block is acknowledged or the retry ceiling is reached.

use vstd::prelude::*;

use crate::block::Block;

verus! {

use crate::block::spec_wire_index;

/// A tracked message is resent when its last send is older than this many
/// milliseconds.
pub const OUTGOING_REFRESH_TIME_MS: u64 = 5000;

/// A tracked message is dropped once its send attempts exceed this ceiling.
pub const MAX_SEND_RETRIES: u32 = 5;

/// Tracks one outbound message awaiting acknowledgment. One slot per wire
/// block index: `Some` holds the pending block's octets, `None` marks that
/// slot acknowledged.
pub struct OutgoingMessage {
    /// The command byte of the tracked message, or the data sentinel for raw
    /// data messages.
    pub msg_type: u8,
    /// Auxiliary data consulted on completion (for a channel update, which
    /// sub-list the reply refers to).
    pub ack_data: u8,
    pub stored_blocks: Vec<Option<Vec<u8>>>,
    /// When the message was last sent, in milliseconds of the caller's clock.
    pub last_send_ms: u64,
    pub send_attempts: u32,
}

/// The mathematical state of an [`OutgoingMessage`].
#[verifier::ext_equal]
pub ghost struct OutgoingModel {
    pub msg_type: u8,
    pub ack_data: u8,
    pub slots: Seq<Option<Seq<u8>>>,
    pub last_send_ms: u64,
    pub send_attempts: u32,
}

impl View for OutgoingMessage {
    type V = OutgoingModel;

    open spec fn view(&self) -> OutgoingModel {
        OutgoingModel {
            msg_type: self.msg_type,
            ack_data: self.ack_data,
            slots: Seq::new(
                self.stored_blocks@.len(),
                |i: int|
                    match self.stored_blocks@[i] {
                        Some(v) => Some(v@),
                        None => None,
                    },
            ),
            last_send_ms: self.last_send_ms,
            send_attempts: self.send_attempts,
        }
    }
}

/// Whether every slot of the tracker is acknowledged.
pub open spec fn spec_all_acked(slots: Seq<Option<Seq<u8>>>) -> bool {
    forall|i: int| 0 <= i < slots.len() ==> slots[i] is None
}

/// The tracker after acknowledging one wire block index: that slot is
/// cleared; an index out of range or already acknowledged changes nothing.
pub open spec fn spec_acknowledge(m: OutgoingModel, block_idx: u8) -> OutgoingModel {
    if block_idx < m.slots.len() {
        OutgoingModel { slots: m.slots.update(block_idx as int, None), ..m }
    } else {
        m
    }
}

impl OutgoingMessage {
    /// A tracker never holds more slots than a message can have blocks.
    pub open spec fn wf(&self) -> bool {
        self.stored_blocks@.len() <= 256
    }

    /// Indexes the given blocks of one outbound message by their wire block
    /// index and starts the attempt counter at one.
    pub fn new(msg_type: u8, ack_data: u8, blocks: &Vec<Block>, now_ms: u64) -> (m: OutgoingMessage)
        requires
            blocks@.len() <= 256,
            forall|i: int| 0 <= i < blocks@.len() ==> (#[trigger] blocks@[i]).valid(),
            forall|i: int|
                0 <= i < blocks@.len() ==> spec_wire_index(#[trigger] blocks@[i].data@)
                    < blocks@.len(),
            forall|i: int, j: int|
                0 <= i < j < blocks@.len() ==> spec_wire_index(blocks@[i].data@) != spec_wire_index(
                    blocks@[j].data@,
                ),
        ensures
            m.msg_type == msg_type,
            m.ack_data == ack_data,
            m.last_send_ms == now_ms,
            m.send_attempts == 1,
            m.wf(),
            m@.slots.len() == blocks@.len(),
            forall|i: int|
                0 <= i < blocks@.len() ==> m@.slots[spec_wire_index(#[trigger] blocks@[i].data@)
                    as int] == Some(blocks@[i].data@),
            forall|s: int|
                0 <= s < blocks@.len() && (forall|i: int|
                    0 <= i < blocks@.len() ==> spec_wire_index(#[trigger] blocks@[i].data@) != s)
                    ==> m@.slots[s] is None,
    {
        let n = blocks.len();
        let mut stored_blocks: Vec<Option<Vec<u8>>> = Vec::new();
        let mut f: usize = 0;
        while f < n
            invariant
                f <= n,
                stored_blocks@.len() == f,
                forall|s: int| 0 <= s < f ==> stored_blocks@[s] is None,
            decreases n - f,
        {
            stored_blocks.push(None);
            f += 1;
        }
        let mut i: usize = 0;
        while i < n
            invariant
                i <= n,
                n == blocks@.len() <= 256,
                stored_blocks@.len() == n,
                forall|t: int| 0 <= t < n ==> (#[trigger] blocks@[t]).valid(),
                forall|t: int|
                    0 <= t < n ==> spec_wire_index(#[trigger] blocks@[t].data@) < n,
                forall|t: int, u: int|
                    0 <= t < u < n ==> spec_wire_index(blocks@[t].data@) != spec_wire_index(
                        blocks@[u].data@,
                    ),
                forall|t: int|
                    0 <= t < i ==> (stored_blocks@[spec_wire_index(#[trigger] blocks@[t].data@)
                        as int] matches Some(v) && v@ == blocks@[t].data@),
                forall|s: int|
                    0 <= s < n && (forall|t: int|
                        0 <= t < i ==> spec_wire_index(#[trigger] blocks@[t].data@) != s)
                        ==> stored_blocks@[s] is None,
            decreases n - i,
        {
            let idx = blocks[i].wire_index();
            stored_blocks[idx as usize] = Some(blocks[i].data.clone());
            i += 1;
        }
        let m = OutgoingMessage { msg_type, ack_data, stored_blocks, last_send_ms: now_ms, send_attempts: 1 };
        m
    }

    /// Whether every slot is acknowledged.
    pub fn all_acked(&self) -> (r: bool)
        ensures
            r == spec_all_acked(self@.slots),
    {
        let mut i: usize = 0;
        while i < self.stored_blocks.len()
            invariant
                i <= self.stored_blocks@.len(),
                forall|j: int| 0 <= j < i ==> self@.slots[j] is None,
            decreases self.stored_blocks@.len() - i,
        {
            if self.stored_blocks[i].is_some() {
                assert(!(self@.slots[i as int] is None));
                return false;
            }
            i += 1;
        }
        true
    }

    /// Marks one wire block index acknowledged. Returns the tracked command
    /// byte exactly when this acknowledgment leaves every slot acknowledged,
    /// so the caller can run type-specific completion effects and retire the
    /// tracker. An index out of range, or one already acknowledged, changes
    /// nothing (it can still report completion of an already-complete
    /// tracker).
    pub fn acknowledge_block(&mut self, block_idx: u8) -> (r: Option<u8>)
        ensures
            final(self).wf() == old(self).wf(),
            final(self)@ == spec_acknowledge(old(self)@, block_idx),
            r == (if spec_all_acked(spec_acknowledge(old(self)@, block_idx).slots) {
                Some(old(self).msg_type)
            } else {
                None::<u8>
            }),
    {
        if (block_idx as usize) < self.stored_blocks.len() {
            self.stored_blocks[block_idx as usize] = None;
        }
        proof {
            assert(self@.slots =~= spec_acknowledge(old(self)@, block_idx).slots);
            assert(self@ =~= spec_acknowledge(old(self)@, block_idx));
        }
        if self.all_acked() {
            Some(self.msg_type)
        } else {
            None
        }
    }
}

} // verus!
