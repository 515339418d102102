//! The fixed-size wire unit and its octet layout.

use vstd::prelude::*;

verus! {

/// Payload capacity, in octets, of one full (non-terminal) payload piece;
/// every reassembly offset is a multiple of this.
pub const NON_MP_OCTETS: usize = 138;

/// Largest block the transport can carry, in octets.
pub const MAX_BLOCK_OCTETS: usize = 140;

/// Smallest well-formed block: header octet plus one payload octet.
pub const MIN_BLOCK_OCTETS: usize = 2;

/// Smallest well-formed multipart block: header, `mp_idx`, one payload octet.
pub const MIN_MP_BLOCK_OCTETS: usize = 3;

/// A block is a buffer of at most 140 octets associated with a sender
/// address. Octet 0 packs the header fields (LSB-first): `msg_id` in bits
/// 0..5, `is_command` in bit 5, `is_multipart` in bit 6 and `mp_first` in bit
/// 7. When the block is multipart, octet 1 holds `mp_idx` and the payload
/// starts at octet 2; otherwise the payload starts at octet 1.
pub struct Block {
    pub addr: String,
    pub data: Vec<u8>,
}

/// The message id carried in the low five bits of the header octet.
pub open spec fn spec_msg_id(data: Seq<u8>) -> u8 {
    data[0] & 0x1f
}

/// The `is_command` flag, bit 5 of the header octet.
pub open spec fn spec_is_command(data: Seq<u8>) -> bool {
    data[0] & 0x20 == 0x20
}

/// The `is_multipart` flag, bit 6 of the header octet.
pub open spec fn spec_is_multipart(data: Seq<u8>) -> bool {
    data[0] & 0x40 == 0x40
}

/// The `mp_first` flag, bit 7 of the header octet: set only on the first
/// block of a multipart message, where `mp_idx` holds the count-minus-one of
/// the remaining blocks.
pub open spec fn spec_mp_first(data: Seq<u8>) -> bool {
    data[0] & 0x80 == 0x80
}

/// The `mp_idx` octet, present only in multipart blocks.
pub open spec fn spec_mp_idx(data: Seq<u8>) -> u8 {
    data[1]
}

/// Structural size validation: at least 16 bits, at least 24 bits when
/// multipart, and at most 140 octets.
pub open spec fn spec_block_valid(data: Seq<u8>) -> bool {
    &&& data.len() >= MIN_BLOCK_OCTETS
    &&& spec_is_multipart(data) ==> data.len() >= MIN_MP_BLOCK_OCTETS
    &&& data.len() <= MAX_BLOCK_OCTETS
}

/// Where this block's payload sits among the pieces of its message, counting
/// from zero. The block that carries `mp_first` is the first piece; every
/// other multipart block with index `i` on the wire carries piece `i + 1`; a
/// singlepart block is the only piece.
pub open spec fn spec_piece_index(data: Seq<u8>) -> u16 {
    if !spec_is_multipart(data) {
        0u16
    } else if spec_mp_first(data) {
        0u16
    } else {
        (spec_mp_idx(data) + 1) as u16
    }
}

/// The index a block is addressed by on the wire (in acknowledgments and in
/// the outbound tracker): `mp_idx` for multipart blocks, 0 for singlepart.
pub open spec fn spec_wire_index(data: Seq<u8>) -> u8 {
    if spec_is_multipart(data) {
        spec_mp_idx(data)
    } else {
        0u8
    }
}

/// First payload octet: 1 for singlepart blocks, 2 for multipart blocks.
pub open spec fn spec_payload_start(data: Seq<u8>) -> int {
    if spec_is_multipart(data) {
        2
    } else {
        1
    }
}

/// The payload octets the block carries.
pub open spec fn spec_block_payload(data: Seq<u8>) -> Seq<u8> {
    data.skip(spec_payload_start(data))
}

/// The header octet that encodes the given fields.
pub open spec fn spec_header(msg_id: u8, is_command: bool, is_multipart: bool, mp_first: bool) -> u8 {
    msg_id | (if is_command {
        0x20u8
    } else {
        0u8
    }) | (if is_multipart {
        0x40u8
    } else {
        0u8
    }) | (if mp_first {
        0x80u8
    } else {
        0u8
    })
}

/// Reading the fields back out of an encoded header octet yields the fields
/// that went in, provided the message id fits in five bits.
pub proof fn lemma_header_fields(msg_id: u8, is_command: bool, is_multipart: bool, mp_first: bool)
    requires
        msg_id < 32,
    ensures
        spec_header(msg_id, is_command, is_multipart, mp_first) & 0x1f == msg_id,
        (spec_header(msg_id, is_command, is_multipart, mp_first) & 0x20 == 0x20) == is_command,
        (spec_header(msg_id, is_command, is_multipart, mp_first) & 0x40 == 0x40) == is_multipart,
        (spec_header(msg_id, is_command, is_multipart, mp_first) & 0x80 == 0x80) == mp_first,
{
    let cb: u8 = if is_command {
        0x20
    } else {
        0
    };
    let mb: u8 = if is_multipart {
        0x40
    } else {
        0
    };
    let fb: u8 = if mp_first {
        0x80
    } else {
        0
    };
    assert((msg_id | cb | mb | fb) & 0x1f == msg_id && ((msg_id | cb | mb | fb) & 0x20 == 0x20)
        == (cb == 0x20) && ((msg_id | cb | mb | fb) & 0x40 == 0x40) == (mb == 0x40) && ((msg_id
        | cb | mb | fb) & 0x80 == 0x80) == (fb == 0x80)) by (bit_vector)
        requires
            msg_id < 32,
            cb == 0x20 || cb == 0,
            mb == 0x40 || mb == 0,
            fb == 0x80 || fb == 0,
    ;
}

/// Builds the header octet for the given fields.
pub fn make_header(msg_id: u8, is_command: bool, is_multipart: bool, mp_first: bool) -> (h: u8)
    requires
        msg_id < 32,
    ensures
        h == spec_header(msg_id, is_command, is_multipart, mp_first),
        h & 0x1f == msg_id,
        (h & 0x20 == 0x20) == is_command,
        (h & 0x40 == 0x40) == is_multipart,
        (h & 0x80 == 0x80) == mp_first,
{
    proof {
        lemma_header_fields(msg_id, is_command, is_multipart, mp_first);
    }
    msg_id | (if is_command {
        0x20u8
    } else {
        0u8
    }) | (if is_multipart {
        0x40u8
    } else {
        0u8
    }) | (if mp_first {
        0x80u8
    } else {
        0u8
    })
}

impl Block {
    /// Structural well-formedness of the block's buffer.
    pub open spec fn valid(&self) -> bool {
        spec_block_valid(self.data@)
    }

    pub fn new(addr: String, data: Vec<u8>) -> (b: Block)
        ensures
            b.addr == addr,
            b.data == data,
    {
        Block { addr, data }
    }

    /// Validates the total size against the block invariants: at least 16
    /// bits, at least 24 bits when multipart, at most 140 octets. Payload
    /// semantics are not validated here.
    pub fn block_size_validation(&self) -> (ok: bool)
        ensures
            ok == spec_block_valid(self.data@),
    {
        if self.data.len() < MIN_BLOCK_OCTETS {
            return false;
        }
        if (self.data[0] & 0x40 == 0x40) && self.data.len() < MIN_MP_BLOCK_OCTETS {
            return false;
        }
        if self.data.len() > MAX_BLOCK_OCTETS {
            return false;
        }
        true
    }

    pub fn msg_id(&self) -> (r: u8)
        requires
            self.data@.len() >= 1,
        ensures
            r == spec_msg_id(self.data@),
            r < 32,
    {
        let h = self.data[0];
        assert(h & 0x1f < 32) by (bit_vector);
        h & 0x1f
    }

    pub fn is_command(&self) -> (r: bool)
        requires
            self.data@.len() >= 1,
        ensures
            r == spec_is_command(self.data@),
    {
        self.data[0] & 0x20 == 0x20
    }

    pub fn is_multipart(&self) -> (r: bool)
        requires
            self.data@.len() >= 1,
        ensures
            r == spec_is_multipart(self.data@),
    {
        self.data[0] & 0x40 == 0x40
    }

    pub fn mp_first(&self) -> (r: bool)
        requires
            self.data@.len() >= 1,
        ensures
            r == spec_mp_first(self.data@),
    {
        self.data[0] & 0x80 == 0x80
    }

    pub fn mp_idx(&self) -> (r: u8)
        requires
            self.data@.len() >= 2,
        ensures
            r == spec_mp_idx(self.data@),
    {
        self.data[1]
    }

    /// The index this block is addressed by on the wire.
    pub fn wire_index(&self) -> (r: u8)
        requires
            self.valid(),
        ensures
            r == spec_wire_index(self.data@),
    {
        if self.is_multipart() {
            self.mp_idx()
        } else {
            0
        }
    }

    /// The position of this block's payload among its message's pieces.
    pub fn piece_index(&self) -> (r: u16)
        requires
            self.valid(),
        ensures
            r == spec_piece_index(self.data@),
            r <= 256,
    {
        if !self.is_multipart() {
            0
        } else if self.mp_first() {
            0
        } else {
            self.mp_idx() as u16 + 1
        }
    }
}

/// What the session asks its caller to do with a block it was handed.
#[derive(Debug, Clone, Copy, PartialEq, Eq, Structural)]
pub enum BlockReceivedAction {
    /// Ordinary multipart block received: acknowledge it.
    SendBlockAck,
    /// A message completed: acknowledge, then dispatch it.
    ProcessMessage,
    /// A block acknowledgment arrived: dispatch it without acknowledging.
    ProcessNoAck,
    /// Structurally invalid block.
    BlockInvalid,
}

} // verus!
