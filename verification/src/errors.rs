//! The typed error taxonomy. Every failure is local to one message or
//! session; none may escape to abort the poll loop.

use vstd::prelude::*;

verus! {

/// Why a protocol operation was refused.
#[derive(Debug, Clone, Copy, PartialEq, Eq, Structural)]
pub enum ProtocolError {
    /// A structurally malformed, oversized or undersized block.
    BlockInvalid,
    /// A key exchange was attempted with a peer key that is not 32 bytes.
    BadKeyLength,
    /// An acknowledgment payload too short to carry a block index.
    MissingBlockId,
    /// An acknowledgment for a message id with no outstanding outbound
    /// message; stale or duplicate acks land here and are ignored.
    NoSuchOutgoing,
    /// Every outbound message id is in flight.
    NoFreeMessageId,
    /// A payload too long to chunk into at most 256 blocks.
    PayloadTooLarge,
    /// A room index too large for its one-octet wire field.
    IndexTooLarge,
}

} // verus!
