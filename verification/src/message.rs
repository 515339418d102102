//! The message reassembler: accumulates the blocks that share a message id
//! into one logical payload and tracks completeness.

use vstd::prelude::*;

use crate::block;
use crate::block::Block;

verus! {

use crate::block::spec_block_payload;
use crate::block::spec_is_command;
use crate::block::spec_is_multipart;
use crate::block::spec_mp_first;
use crate::block::spec_mp_idx;
use crate::block::spec_msg_id;
use crate::block::spec_piece_index;

/// A logical application unit assembled from one or more blocks that share a
/// message id. `stored_blocks` holds, in ascending order, the piece positions
/// already received (see [`block::spec_piece_index`]); the payload holds the
/// received pieces spliced together in piece order.
pub struct Message {
    pub msg_id: u8,
    pub is_command: bool,
    pub is_multipart: bool,
    /// Expected number of blocks; 0 means not yet known (no block carrying
    /// the terminal marker has been seen).
    pub num_blocks: u16,
    /// Piece positions already received, strictly ascending.
    pub stored_blocks: Vec<u16>,
    /// The accumulated payload octets.
    pub payload: Vec<u8>,
    pub is_complete: bool,
    /// When the first block arrived, in milliseconds of the caller's clock.
    pub received_at_ms: u64,
}

/// The mathematical state of a [`Message`].
#[verifier::ext_equal]
pub ghost struct MessageModel {
    pub msg_id: u8,
    pub is_command: bool,
    pub is_multipart: bool,
    pub num_blocks: u16,
    pub stored_blocks: Seq<u16>,
    pub payload: Seq<u8>,
    pub is_complete: bool,
    pub received_at_ms: u64,
}

impl View for Message {
    type V = MessageModel;

    open spec fn view(&self) -> MessageModel {
        MessageModel {
            msg_id: self.msg_id,
            is_command: self.is_command,
            is_multipart: self.is_multipart,
            num_blocks: self.num_blocks,
            stored_blocks: self.stored_blocks@,
            payload: self.payload@,
            is_complete: self.is_complete,
            received_at_ms: self.received_at_ms,
        }
    }
}

/// Strictly ascending order.
pub open spec fn sorted_strict(s: Seq<u16>) -> bool {
    forall|i: int, j: int| 0 <= i < j < s.len() ==> s[i] < s[j]
}

/// How many leading elements of `s` lie below `k`; for a sorted sequence
/// this is the insertion position of `k`.
pub open spec fn spec_lower_bound(s: Seq<u16>, k: u16) -> int
    decreases s.len(),
{
    if s.len() == 0 {
        0int
    } else if s[0] < k {
        1 + spec_lower_bound(s.skip(1), k)
    } else {
        0int
    }
}

/// The octet offset at which a block with piece position `k` is spliced into
/// the accumulated payload: one full piece for every already-stored piece
/// that precedes it, clamped to the payload's current length.
pub open spec fn spec_splice_offset(stored: Seq<u16>, k: u16, payload_len: int) -> int {
    let off = block::NON_MP_OCTETS * spec_lower_bound(stored, k);
    if off > payload_len {
        payload_len
    } else {
        off
    }
}

/// `stored` with `k` inserted at its sorted position.
pub open spec fn spec_insert_sorted(stored: Seq<u16>, k: u16) -> Seq<u16> {
    let pos = spec_lower_bound(stored, k);
    stored.take(pos) + seq![k] + stored.skip(pos)
}

/// The message seeded from the first block seen for its id.
pub open spec fn spec_message_new(b: Seq<u8>, now_ms: u64) -> MessageModel {
    MessageModel {
        msg_id: spec_msg_id(b),
        is_command: spec_is_command(b),
        is_multipart: spec_is_multipart(b),
        num_blocks: if spec_mp_first(b) {
            (spec_mp_idx(b) + 1) as u16
        } else {
            0u16
        },
        stored_blocks: seq![spec_piece_index(b)],
        payload: spec_block_payload(b),
        is_complete: !spec_is_multipart(b),
        received_at_ms: now_ms,
    }
}

/// The message after a further (not yet stored) block is folded in: the
/// expected count is learned from a terminal marker, the block's payload is
/// spliced in at its piece offset, and completeness is re-evaluated.
pub open spec fn spec_message_add(m: MessageModel, b: Seq<u8>) -> MessageModel {
    let k = spec_piece_index(b);
    let nb: u16 = if m.num_blocks == 0 && spec_mp_first(b) {
        (spec_mp_idx(b) + 1) as u16
    } else {
        m.num_blocks
    };
    let off = spec_splice_offset(m.stored_blocks, k, m.payload.len() as int);
    let stored2 = spec_insert_sorted(m.stored_blocks, k);
    let payload2 = m.payload.take(off) + spec_block_payload(b) + m.payload.skip(off);
    MessageModel {
        msg_id: m.msg_id,
        is_command: m.is_command,
        is_multipart: m.is_multipart,
        num_blocks: nb,
        stored_blocks: stored2,
        payload: payload2,
        is_complete: nb != 0 && stored2.len() == nb,
        received_at_ms: m.received_at_ms,
    }
}

/// A strictly ascending sequence dominates its indices.
pub proof fn lemma_sorted_ge_index(s: Seq<u16>, i: int)
    requires
        sorted_strict(s),
        0 <= i < s.len(),
    ensures
        s[i] >= i,
    decreases i,
{
    if i > 0 {
        lemma_sorted_ge_index(s, i - 1);
    }
}

/// A strictly ascending sequence of values at most 256 has at most 257
/// elements.
pub proof fn lemma_sorted_len_bound(s: Seq<u16>)
    requires
        sorted_strict(s),
        forall|i: int| 0 <= i < s.len() ==> s[i] <= 256,
    ensures
        s.len() <= 257,
{
    if s.len() > 257 {
        lemma_sorted_ge_index(s, 257);
    }
}

/// Characterizes `spec_lower_bound` from a scan that stopped at position `i`.
pub proof fn lemma_lower_bound_exit(s: Seq<u16>, k: u16, i: int)
    requires
        0 <= i <= s.len(),
        forall|j: int| 0 <= j < i ==> s[j] < k,
        i == s.len() || s[i] >= k,
    ensures
        spec_lower_bound(s, k) == i,
    decreases i,
{
    if i == 0 {
    } else {
        assert(s[0] < k);
        lemma_lower_bound_exit(s.skip(1), k, i - 1);
    }
}

/// Everything before the lower bound is below `k`; the element at the lower
/// bound, if any, is not.
pub proof fn lemma_lower_bound_props(s: Seq<u16>, k: u16)
    requires
        sorted_strict(s),
    ensures
        0 <= spec_lower_bound(s, k) <= s.len(),
        forall|j: int| 0 <= j < spec_lower_bound(s, k) ==> s[j] < k,
        spec_lower_bound(s, k) < s.len() ==> s[spec_lower_bound(s, k)] >= k,
    decreases s.len(),
{
    if s.len() > 0 && s[0] < k {
        assert(sorted_strict(s.skip(1)));
        lemma_lower_bound_props(s.skip(1), k);
        let lb = spec_lower_bound(s, k);
        assert forall|j: int| 0 <= j < lb implies s[j] < k by {
            if j > 0 {
                assert(s.skip(1)[j - 1] < k);
            }
        }
    }
}

/// Inserting a fresh value at its lower bound keeps the sequence strictly
/// ascending and adds exactly that value.
pub proof fn lemma_insert_sorted(s: Seq<u16>, k: u16)
    requires
        sorted_strict(s),
        !s.contains(k),
    ensures
        sorted_strict(spec_insert_sorted(s, k)),
        spec_insert_sorted(s, k).len() == s.len() + 1,
        spec_insert_sorted(s, k).contains(k),
        forall|x: u16| spec_insert_sorted(s, k).contains(x) <==> (s.contains(x) || x == k),
{
    lemma_lower_bound_props(s, k);
    let pos = spec_lower_bound(s, k);
    let t = spec_insert_sorted(s, k);
    assert(t[pos] == k);
    if pos < s.len() {
        assert(s[pos] != k) by {
            assert(s.contains(s[pos]) == true);
        }
        assert(s[pos] > k);
    }
    assert forall|i: int, j: int| 0 <= i < j < t.len() implies t[i] < t[j] by {
        if i < pos && j < pos {
        } else if i < pos && j == pos {
        } else if i < pos && j > pos {
            assert(t[i] == s[i] && t[j] == s[j - 1]);
            if j - 1 == pos {
                assert(s[pos] > k);
            } else {
                assert(s[i] < s[j - 1]);
            }
        } else if i == pos && j > pos {
            assert(t[j] == s[j - 1]);
            assert(s[j - 1] >= s[pos] > k) by {
                if j - 1 > pos {
                    assert(s[pos] < s[j - 1]);
                }
            }
        } else {
            assert(t[i] == s[i - 1] && t[j] == s[j - 1]);
        }
    }
    assert forall|x: u16| t.contains(x) <==> (s.contains(x) || x == k) by {
        if t.contains(x) {
            let w = choose|w: int| 0 <= w < t.len() && t[w] == x;
            if w < pos {
                assert(s[w] == x);
            } else if w > pos {
                assert(s[w - 1] == x);
            }
        }
        if s.contains(x) {
            let w = choose|w: int| 0 <= w < s.len() && s[w] == x;
            if w < pos {
                assert(t[w] == x);
            } else {
                assert(t[w + 1] == x);
            }
        }
        if x == k {
            assert(t[pos] == x);
        }
    }
}

/// Scans a sorted vector for the insertion position of `k`.
fn lower_bound(s: &Vec<u16>, k: u16) -> (r: usize)
    ensures
        r == spec_lower_bound(s@, k),
        r <= s@.len(),
{
    let mut i: usize = 0;
    while i < s.len() && s[i] < k
        invariant
            i <= s@.len(),
            forall|j: int| 0 <= j < i ==> s@[j] < k,
        decreases s@.len() - i,
    {
        i += 1;
    }
    proof {
        lemma_lower_bound_exit(s@, k, i as int);
    }
    i
}

impl Message {
    /// Structural well-formedness: the message id fits in five bits, the
    /// stored piece positions are strictly ascending values of at most 256,
    /// and the payload is bounded by one maximal piece per stored block.
    pub open spec fn wf(&self) -> bool {
        &&& self.msg_id < 32
        &&& sorted_strict(self.stored_blocks@)
        &&& forall|i: int| 0 <= i < self.stored_blocks@.len() ==> self.stored_blocks@[i] <= 256
        &&& self.num_blocks <= 256
        &&& self.payload@.len() <= 139 * self.stored_blocks@.len()
    }

    /// Seeds a message from the first block seen for an unseen message id:
    /// learns the expected block count from a terminal marker, copies the
    /// payload octets from the correct offset, and records the block's piece
    /// position as stored. A singlepart message is complete immediately.
    pub fn new(first_block: &Block, now_ms: u64) -> (m: Message)
        requires
            first_block.valid(),
        ensures
            m@ == spec_message_new(first_block.data@, now_ms),
            m.wf(),
    {
        let is_multipart = first_block.is_multipart();
        let num_blocks: u16 = if first_block.mp_first() {
            first_block.mp_idx() as u16 + 1
        } else {
            0
        };
        let mut stored_blocks: Vec<u16> = Vec::new();
        stored_blocks.push(first_block.piece_index());
        let payload_start: usize = if is_multipart {
            2
        } else {
            1
        };
        let mut payload: Vec<u8> = Vec::new();
        let mut i: usize = payload_start;
        while i < first_block.data.len()
            invariant
                payload_start <= i <= first_block.data@.len(),
                payload_start <= first_block.data@.len(),
                payload@ == first_block.data@.subrange(payload_start as int, i as int),
            decreases first_block.data@.len() - i,
        {
            payload.push(first_block.data[i]);
            i += 1;
        }
        let m = Message {
            msg_id: first_block.msg_id(),
            is_command: first_block.is_command(),
            is_multipart,
            num_blocks,
            stored_blocks,
            payload,
            is_complete: !is_multipart,
            received_at_ms: now_ms,
        };
        proof {
            assert(m.payload@ =~= spec_block_payload(first_block.data@));
            assert(m.stored_blocks@ =~= seq![spec_piece_index(first_block.data@)]);
            assert(m@ =~= spec_message_new(first_block.data@, now_ms));
        }
        m
    }

    /// Whether the piece position `k` has already been stored.
    pub fn has_piece(&self, k: u16) -> (r: bool)
        ensures
            r == self.stored_blocks@.contains(k),
    {
        let mut i: usize = 0;
        while i < self.stored_blocks.len()
            invariant
                i <= self.stored_blocks@.len(),
                forall|j: int| 0 <= j < i ==> self.stored_blocks@[j] != k,
            decreases self.stored_blocks@.len() - i,
        {
            if self.stored_blocks[i] == k {
                return true;
            }
            i += 1;
        }
        false
    }

    /// Folds a further block of this (multipart) message in: learns the
    /// expected count from a terminal marker if still unknown, splices the
    /// block's payload at the offset given by the already-stored pieces that
    /// precede it, and re-evaluates completeness.
    pub fn add_block(&mut self, new_block: &Block)
        requires
            old(self).wf(),
            new_block.valid(),
            spec_is_multipart(new_block.data@),
            !old(self).stored_blocks@.contains(spec_piece_index(new_block.data@)),
        ensures
            final(self)@ == spec_message_add(old(self)@, new_block.data@),
            final(self).wf(),
            final(self).msg_id == old(self).msg_id,
    {
        if self.num_blocks == 0 && new_block.mp_first() {
            self.num_blocks = new_block.mp_idx() as u16 + 1;
        }
        let k = new_block.piece_index();
        let pos = lower_bound(&self.stored_blocks, k);
        proof {
            lemma_sorted_len_bound(self.stored_blocks@);
        }
        let mut off: usize = block::NON_MP_OCTETS * pos;
        if off > self.payload.len() {
            off = self.payload.len();
        }
        let mut out: Vec<u8> = Vec::new();
        let mut i: usize = 0;
        while i < off
            invariant
                i <= off,
                off <= self.payload@.len(),
                out@ == self.payload@.subrange(0, i as int),
            decreases off - i,
        {
            out.push(self.payload[i]);
            i += 1;
        }
        let payload_start: usize = 2;
        let mut j: usize = payload_start;
        while j < new_block.data.len()
            invariant
                payload_start <= j <= new_block.data@.len(),
                payload_start <= new_block.data@.len(),
                out@ == self.payload@.subrange(0, off as int) + new_block.data@.subrange(
                    payload_start as int,
                    j as int,
                ),
            decreases new_block.data@.len() - j,
        {
            out.push(new_block.data[j]);
            j += 1;
        }
        let mut h: usize = off;
        while h < self.payload.len()
            invariant
                off <= h <= self.payload@.len(),
                out@ == self.payload@.subrange(0, off as int) + spec_block_payload(
                    new_block.data@,
                ) + self.payload@.subrange(off as int, h as int),
            decreases self.payload@.len() - h,
        {
            out.push(self.payload[h]);
            h += 1;
        }
        proof {
            lemma_insert_sorted(self.stored_blocks@, k);
        }
        self.payload = out;
        self.stored_blocks.insert(pos, k);
        self.is_complete = self.num_blocks != 0 && self.stored_blocks.len() == self.num_blocks
            as usize;
        proof {
            let m0 = old(self)@;
            let b = new_block.data@;
            assert(self.stored_blocks@ =~= spec_insert_sorted(m0.stored_blocks, k));
            assert(self.payload@ =~= m0.payload.take(
                spec_splice_offset(m0.stored_blocks, k, m0.payload.len() as int),
            ) + spec_block_payload(b) + m0.payload.skip(
                spec_splice_offset(m0.stored_blocks, k, m0.payload.len() as int),
            ));
            assert(self@ =~= spec_message_add(m0, b));
            assert(self.payload@.len() <= 139 * self.stored_blocks@.len());
        }
    }
}

} // verus!
