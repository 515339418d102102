//! Per-sender-address session state: inbound message table, outbound
//! delivery table, message-id allocator, encryption flag and shared secret.

use vstd::prelude::*;

use crate::block;
use crate::block::Block;
use crate::block::BlockReceivedAction;
use crate::errors::ProtocolError;
use crate::matrix_message::MatrixBotInfo;
use crate::message::Message;
use crate::message::MessageModel;
use crate::outgoing_message::OutgoingMessage;
use crate::outgoing_message::OutgoingModel;

verus! {

use vstd::arithmetic::div_mod::lemma_fundamental_div_mod;
use vstd::arithmetic::div_mod::lemma_mod_bound;

use crate::block::spec_block_payload;
use crate::block::spec_block_valid;
use crate::block::spec_header;
use crate::block::spec_is_command;
use crate::block::spec_is_multipart;
use crate::block::spec_mp_first;
use crate::block::spec_mp_idx;
use crate::block::spec_msg_id;
use crate::block::spec_piece_index;
use crate::block::spec_wire_index;
use crate::command::CMD_BLOCK_ACK;
use crate::command::CMD_CHANNEL_UPDATE;
use crate::command::CMD_DATA;
use crate::command::CMD_DOMAIN_UPDATE;
use crate::message::spec_message_add;
use crate::message::spec_message_new;
use crate::outgoing_message::spec_acknowledge;
use crate::outgoing_message::spec_all_acked;
use crate::outgoing_message::MAX_SEND_RETRIES;
use crate::outgoing_message::OUTGOING_REFRESH_TIME_MS;

/// How long a completed singlepart message is kept so that a repeat of its
/// id is answered as an idempotent duplicate instead of being reprocessed.
pub const MESSAGE_KEEPFOR_DURATION_MS: u64 = 10000;

/// Number of message-id slots (ids are five bits wide).
pub const ID_SLOTS: usize = 32;

/// First id of the outbound pool; ids below it are reserved.
pub const FIRST_OUTBOUND_ID: u8 = 16;

/// Longest payload that can be chunked: 256 blocks of 138 octets each.
pub const MAX_PAYLOAD_OCTETS: usize = 35328;

/// One block queued for transmission to a session's address.
pub struct OutboundBlock {
    pub msg_id: u8,
    /// Positional index of the block within its message's send order.
    pub block_idx: u8,
    pub data: Vec<u8>,
}

/// Per-sender-address protocol state.
pub struct User {
    pub address: String,
    pub is_encrypted: bool,
    /// Inbound message table: one slot per five-bit message id.
    pub messages: Vec<Option<Message>>,
    /// Outbound delivery table: one slot per five-bit message id.
    pub outgoing_messages: Vec<Option<OutgoingMessage>>,
    /// Free ids for outbound messages, all in 16..32, disjoint from the
    /// reserved low range.
    pub unused_ids: Vec<u8>,
    /// Shared secret established by the key exchange; 32 zero bytes until
    /// one is established.
    pub shared_secret: Vec<u8>,
    /// The bridge bots this session has authenticated to.
    pub matrix_bots: Vec<MatrixBotInfo>,
    /// Per-bot flag: does the client hold the bot's latest channel list?
    pub client_has_latest_channel_list: Vec<bool>,
    /// Does the client hold the latest list of domains?
    pub client_has_latest_domain_info: bool,
}

/// The mathematical state of a [`User`] session.
#[verifier::ext_equal]
pub ghost struct SessionModel {
    pub address: Seq<char>,
    pub is_encrypted: bool,
    pub messages: Seq<Option<MessageModel>>,
    pub outgoing: Seq<Option<OutgoingModel>>,
    pub unused_ids: Seq<u8>,
    pub shared_secret: Seq<u8>,
    pub bots: Seq<MatrixBotInfo>,
    pub latest_channel_list: Seq<bool>,
    pub latest_domain_info: bool,
}

impl View for User {
    type V = SessionModel;

    open spec fn view(&self) -> SessionModel {
        SessionModel {
            address: self.address@,
            is_encrypted: self.is_encrypted,
            messages: Seq::new(
                self.messages@.len(),
                |i: int|
                    match self.messages@[i] {
                        Some(m) => Some(m@),
                        None => None,
                    },
            ),
            outgoing: Seq::new(
                self.outgoing_messages@.len(),
                |i: int|
                    match self.outgoing_messages@[i] {
                        Some(m) => Some(m@),
                        None => None,
                    },
            ),
            unused_ids: self.unused_ids@,
            shared_secret: self.shared_secret@,
            bots: self.matrix_bots@,
            latest_channel_list: self.client_has_latest_channel_list@,
            latest_domain_info: self.client_has_latest_domain_info,
        }
    }
}

impl User {
    /// Structural well-formedness of a session: 32-slot tables, messages
    /// keyed by their own id, a duplicate-free id pool in 16..32 whose ids
    /// have no outstanding outbound message, occupied outbound slots only in
    /// the pool's range, and bot bookkeeping of matching length.
    pub open spec fn wf(&self) -> bool {
        &&& self.messages@.len() == ID_SLOTS
        &&& self.outgoing_messages@.len() == ID_SLOTS
        &&& forall|i: int|
            0 <= i < ID_SLOTS ==> (#[trigger] self.messages@[i] matches Some(m) ==> m.wf()
                && m.msg_id == i)
        &&& forall|i: int|
            0 <= i < ID_SLOTS ==> (#[trigger] self.outgoing_messages@[i] matches Some(om)
                ==> om.send_attempts >= 1 && om.send_attempts <= MAX_SEND_RETRIES && om.wf())
        &&& forall|i: int|
            0 <= i < FIRST_OUTBOUND_ID ==> self.outgoing_messages@[i] is None
        &&& forall|j: int|
            0 <= j < self.unused_ids@.len() ==> FIRST_OUTBOUND_ID <= #[trigger] self.unused_ids@[j]
                && self.unused_ids@[j] < 32
        &&& forall|j: int, k: int|
            0 <= j < k < self.unused_ids@.len() ==> self.unused_ids@[j] != self.unused_ids@[k]
        &&& forall|j: int|
            0 <= j < self.unused_ids@.len() ==> self.outgoing_messages@[#[trigger] self.unused_ids@[j] as int] is None
        &&& self.shared_secret@.len() == 32
        &&& self.matrix_bots@.len() == self.client_has_latest_channel_list@.len()
        &&& self.matrix_bots@.len() <= 256
    }

    /// Creates the session for a fresh sender address: empty tables, the
    /// full outbound id pool 16..32, a zeroed shared secret and no bots.
    pub fn new(addr: String, is_encrypted: bool) -> (u: User)
        ensures
            u.wf(),
            u.address@ == addr@,
            u.is_encrypted == is_encrypted,
            forall|i: int| 0 <= i < ID_SLOTS ==> u@.messages[i] is None,
            forall|i: int| 0 <= i < ID_SLOTS ==> u@.outgoing[i] is None,
            u.unused_ids@ == Seq::new(16, |i: int| (16 + i) as u8),
            u.shared_secret@ == Seq::new(32, |i: int| 0u8),
            u.matrix_bots@.len() == 0,
            u.client_has_latest_channel_list@.len() == 0,
            u.client_has_latest_domain_info == false,
    {
        let mut messages: Vec<Option<Message>> = Vec::new();
        let mut outgoing_messages: Vec<Option<OutgoingMessage>> = Vec::new();
        let mut i: usize = 0;
        while i < ID_SLOTS
            invariant
                i <= ID_SLOTS,
                messages@.len() == i,
                outgoing_messages@.len() == i,
                forall|j: int| 0 <= j < i ==> messages@[j] is None,
                forall|j: int| 0 <= j < i ==> outgoing_messages@[j] is None,
            decreases ID_SLOTS - i,
        {
            messages.push(None);
            outgoing_messages.push(None);
            i += 1;
        }
        let mut unused_ids: Vec<u8> = Vec::new();
        let mut id: u8 = FIRST_OUTBOUND_ID;
        while id < 32
            invariant
                FIRST_OUTBOUND_ID <= id <= 32,
                unused_ids@.len() == id - FIRST_OUTBOUND_ID,
                forall|j: int| 0 <= j < unused_ids@.len() ==> unused_ids@[j] == (16 + j) as u8,
            decreases 32 - id,
        {
            unused_ids.push(id);
            id += 1;
        }
        let mut shared_secret: Vec<u8> = Vec::new();
        let mut z: usize = 0;
        while z < 32
            invariant
                z <= 32,
                shared_secret@.len() == z,
                forall|j: int| 0 <= j < z ==> shared_secret@[j] == 0u8,
            decreases 32 - z,
        {
            shared_secret.push(0);
            z += 1;
        }
        let u = User {
            address: addr,
            is_encrypted,
            messages,
            outgoing_messages,
            unused_ids,
            shared_secret,
            matrix_bots: Vec::new(),
            client_has_latest_channel_list: Vec::new(),
            client_has_latest_domain_info: false,
        };
        proof {
            assert(u.unused_ids@ =~= Seq::new(16, |i: int| (16 + i) as u8));
            assert(u.shared_secret@ =~= Seq::new(32, |i: int| 0u8));
        }
        u
    }

    /// Performs the ephemeral Diffie-Hellman key exchange with the peer's
    /// public key: on a 32-byte key, stores the shared secret, flips the
    /// session to encrypted, and returns this session's own 32-byte public
    /// key; on any other length, fails with `BadKeyLength` and changes
    /// nothing.
    pub fn key_exchange(&mut self, msg: &Vec<u8>) -> (r: Result<Vec<u8>, ProtocolError>)
        requires
            old(self).wf(),
        ensures
            final(self).wf(),
            r is Ok <==> msg@.len() == 32,
            r matches Ok(pk) ==> pk@.len() == 32 && final(self).is_encrypted
                && final(self).shared_secret@.len() == 32 && final(self)@ == (SessionModel {
                is_encrypted: true,
                shared_secret: final(self).shared_secret@,
                ..old(self)@
            }),
            r is Err ==> r == Err::<Vec<u8>, ProtocolError>(ProtocolError::BadKeyLength)
                && final(self)@ == old(self)@,
    {
        if msg.len() != 32 {
            return Err(ProtocolError::BadKeyLength);
        }
        let (server_public, shared_secret) = x25519_handshake(msg);
        self.shared_secret = shared_secret;
        self.is_encrypted = true;
        proof {
            assert(self@ =~= (SessionModel {
                is_encrypted: true,
                shared_secret: self.shared_secret@,
                ..old(self)@
            }));
        }
        Ok(server_public)
    }
}

use crate::text::copy_bytes;

/// The outbound tracker registered when a payload is chunked and sent: typed
/// by its command byte (or the data sentinel), carrying the channel-update
/// sub-list in `ack_data`, with one pending slot per wire block index and one
/// send attempt made.
pub open spec fn spec_outgoing_new(p: Seq<u8>, msg_id: u8, is_command: bool, now: u64) -> OutgoingModel {
    let n = spec_chunk_count(p.len() as int);
    OutgoingModel {
        msg_type: if is_command {
            p[0]
        } else {
            CMD_DATA
        },
        ack_data: if is_command && p[0] == CMD_CHANNEL_UPDATE && p.len() >= 2 {
            p[1]
        } else {
            0u8
        },
        slots: Seq::new(
            n as nat,
            |s: int|
                Some(
                    spec_chunk_block(
                        p,
                        msg_id,
                        is_command,
                        if s == n - 1 {
                            0int
                        } else {
                            s + 1
                        },
                    ),
                ),
        ),
        last_send_ms: now,
        send_attempts: 1,
    }
}

/// One block fed into a session: the state afterwards, the action the caller
/// must take, and the wire block index to acknowledge. A block for an unseen
/// id seeds a message (and an incoming acknowledgment is dispatched without
/// being acknowledged itself); a repeated singlepart id is an idempotent
/// duplicate, evicted once it outlives the keep-for window; a repeated piece
/// of a multipart message is acknowledged without mutation; any other piece
/// is folded in; a message that became complete is dispatched.
pub open spec fn spec_receive(s: SessionModel, b: Seq<u8>, now: u64) -> (
    SessionModel,
    BlockReceivedAction,
    u8,
) {
    let id = spec_msg_id(b) as int;
    let mp = spec_is_multipart(b);
    let bidx = spec_wire_index(b);
    match s.messages[id] {
        None => {
            let m = spec_message_new(b, now);
            let s2 = SessionModel { messages: s.messages.update(id, Some(m)), ..s };
            if !mp && spec_is_command(b) && b[1] == CMD_BLOCK_ACK {
                (s2, BlockReceivedAction::ProcessNoAck, bidx)
            } else if m.is_complete {
                (s2, BlockReceivedAction::ProcessMessage, 0u8)
            } else {
                (s2, BlockReceivedAction::SendBlockAck, bidx)
            }
        },
        Some(m0) => {
            if !mp {
                if now > m0.received_at_ms && now - m0.received_at_ms
                    > MESSAGE_KEEPFOR_DURATION_MS {
                    (
                        SessionModel { messages: s.messages.update(id, None), ..s },
                        BlockReceivedAction::SendBlockAck,
                        0u8,
                    )
                } else {
                    (s, BlockReceivedAction::SendBlockAck, 0u8)
                }
            } else if m0.stored_blocks.contains(spec_piece_index(b) as u16) {
                (s, BlockReceivedAction::SendBlockAck, bidx)
            } else if !m0.is_multipart {
                (s, BlockReceivedAction::SendBlockAck, bidx)
            } else {
                let m2 = spec_message_add(m0, b);
                let s2 = SessionModel { messages: s.messages.update(id, Some(m2)), ..s };
                if m2.is_complete {
                    (s2, BlockReceivedAction::ProcessMessage, 0u8)
                } else {
                    (s2, BlockReceivedAction::SendBlockAck, bidx)
                }
            }
        },
    }
}

impl User {
    /// Chunks a payload into blocks under a freshly allocated outbound id
    /// and, for reliable (`outgoing`) messages, registers the blocks in the
    /// outbound delivery table; the id of an unreliable message returns to
    /// the pool at once. Returns the blocks to transmit, in positional
    /// order. Fails with `PayloadTooLarge` beyond 256 blocks' worth of
    /// payload and with `NoFreeMessageId` when every outbound id is in
    /// flight; neither failure changes the session.
    pub fn send_message(
        &mut self,
        new_message: Vec<u8>,
        is_command: bool,
        outgoing: bool,
        now_ms: u64,
    ) -> (r: Result<Vec<OutboundBlock>, ProtocolError>)
        requires
            old(self).wf(),
            new_message@.len() >= 1,
        ensures
            final(self).wf(),
            new_message@.len() > MAX_PAYLOAD_OCTETS ==> r == Err::<
                Vec<OutboundBlock>,
                ProtocolError,
            >(ProtocolError::PayloadTooLarge) && final(self)@ == old(self)@,
            new_message@.len() <= MAX_PAYLOAD_OCTETS && old(self).unused_ids@.len() == 0 ==> r
                == Err::<Vec<OutboundBlock>, ProtocolError>(ProtocolError::NoFreeMessageId)
                && final(self)@ == old(self)@,
            new_message@.len() <= MAX_PAYLOAD_OCTETS && old(self).unused_ids@.len() > 0 ==> ({
                let id = old(self).unused_ids@.last();
                let n = spec_chunk_count(new_message@.len() as int);
                let c = spec_chunk(new_message@, id, is_command);
                &&& (r matches Ok(v) && v@.len() == n && (forall|j: int|
                    0 <= j < n ==> (#[trigger] v@[j]).msg_id == id && v@[j].block_idx == j as u8
                        && v@[j].data@ == c[j]))
                &&& final(self)@ == (SessionModel {
                    unused_ids: if outgoing {
                        old(self).unused_ids@.drop_last()
                    } else {
                        old(self).unused_ids@
                    },
                    outgoing: if outgoing {
                        old(self)@.outgoing.update(
                            id as int,
                            Some(spec_outgoing_new(new_message@, id, is_command, now_ms)),
                        )
                    } else {
                        old(self)@.outgoing
                    },
                    ..old(self)@
                })
            }),
    {
        if new_message.len() > MAX_PAYLOAD_OCTETS {
            return Err(ProtocolError::PayloadTooLarge);
        }
        let id = match self.unused_ids.pop() {
            Some(v) => v,
            None => {
                proof {
                    assert(self@ =~= old(self)@);
                }
                return Err(ProtocolError::NoFreeMessageId);
            },
        };
        if !outgoing {
            self.unused_ids.push(id);
            proof {
                assert(self.unused_ids@ =~= old(self).unused_ids@);
            }
        }
        proof {
            lemma_chunk_props(new_message@, id, is_command);
        }
        let blocks = User::generate_msg_blocks(&new_message, is_command, id, &self.address);
        let mut sends: Vec<OutboundBlock> = Vec::new();
        let mut j: usize = 0;
        let n = blocks.len();
        while j < n
            invariant
                j <= n,
                n == blocks@.len(),
                sends@.len() == j,
                forall|t: int|
                    0 <= t < j ==> (#[trigger] sends@[t]).msg_id == id && sends@[t].block_idx == t
                        as u8 && sends@[t].data@ == blocks@[t].data@,
            decreases n - j,
        {
            let data = copy_bytes(&blocks[j].data);
            sends.push(OutboundBlock { msg_id: id, block_idx: j as u8, data });
            j += 1;
        }
        if outgoing {
            let msg_type: u8 = if is_command {
                new_message[0]
            } else {
                CMD_DATA
            };
            let ack_data: u8 = if is_command && new_message[0] == CMD_CHANNEL_UPDATE
                && new_message.len() >= 2 {
                new_message[1]
            } else {
                0
            };
            let om = OutgoingMessage::new(msg_type, ack_data, &blocks, now_ms);
            proof {
                let p = new_message@;
                let ghost nn = spec_chunk_count(p.len() as int);
                let target = spec_outgoing_new(p, id, is_command, now_ms);
                assert forall|s: int| 0 <= s < nn implies om@.slots[s] == target.slots[s] by {
                    let jj: int = if s == nn - 1 {
                        0int
                    } else {
                        s + 1
                    };
                    assert(spec_wire_index(blocks@[jj].data@) == s as u8);
                    assert(om@.slots[spec_wire_index(blocks@[jj].data@) as int] == Some(
                        blocks@[jj].data@,
                    ));
                }
                assert(om@.slots =~= target.slots);
                assert(om@ =~= target);
            }
            self.outgoing_messages[id as usize] = Some(om);
        }
        proof {
            if outgoing {
                assert(self@.outgoing =~= old(self)@.outgoing.update(
                    id as int,
                    Some(spec_outgoing_new(new_message@, id, is_command, now_ms)),
                ));
                assert(self@ =~= (SessionModel {
                    unused_ids: old(self).unused_ids@.drop_last(),
                    outgoing: self@.outgoing,
                    ..old(self)@
                }));
            } else {
                assert(self@.outgoing =~= old(self)@.outgoing);
                assert(self@ =~= (SessionModel {
                    unused_ids: old(self).unused_ids@,
                    outgoing: old(self)@.outgoing,
                    ..old(self)@
                }));
            }
        }
        Ok(sends)
    }

    /// Feeds one received block through the session state machine, as
    /// [`spec_receive`] describes. `now_ms` is the caller's clock reading.
    pub fn receive_block(&mut self, new_block: &Block, now_ms: u64) -> (r: (
        BlockReceivedAction,
        u8,
    ))
        requires
            old(self).wf(),
            new_block.valid(),
        ensures
            final(self).wf(),
            ({
                let (s2, act, idx) = spec_receive(old(self)@, new_block.data@, now_ms);
                final(self)@ == s2 && r.0 == act && r.1 == idx
            }),
    {
        let msg_id = new_block.msg_id();
        let is_mp = new_block.is_multipart();
        let block_idx = new_block.wire_index();
        let idu = msg_id as usize;
        if self.messages[idu].is_none() {
            let m = Message::new(new_block, now_ms);
            let complete = m.is_complete;
            self.messages[idu] = Some(m);
            proof {
                assert(self@.messages =~= old(self)@.messages.update(
                    idu as int,
                    Some(spec_message_new(new_block.data@, now_ms)),
                ));
                assert(self@ =~= (SessionModel {
                    messages: self@.messages,
                    ..old(self)@
                }));
            }
            if !is_mp && new_block.is_command() && new_block.data[1] == CMD_BLOCK_ACK {
                return (BlockReceivedAction::ProcessNoAck, block_idx);
            }
            if complete {
                return (BlockReceivedAction::ProcessMessage, 0);
            }
            return (BlockReceivedAction::SendBlockAck, block_idx);
        }
        if !is_mp {
            let evict = match &self.messages[idu] {
                Some(m0) => now_ms > m0.received_at_ms && now_ms - m0.received_at_ms
                    > MESSAGE_KEEPFOR_DURATION_MS,
                None => false,
            };
            if evict {
                self.messages[idu] = None;
                proof {
                    assert(self@.messages =~= old(self)@.messages.update(idu as int, None));
                    assert(self@ =~= (SessionModel {
                        messages: self@.messages,
                        ..old(self)@
                    }));
                }
            }
            return (BlockReceivedAction::SendBlockAck, 0);
        }
        let piece = new_block.piece_index();
        let (dup, m0_mp) = match &self.messages[idu] {
            Some(m0) => (m0.has_piece(piece), m0.is_multipart),
            None => (false, false),
        };
        if dup || !m0_mp {
            return (BlockReceivedAction::SendBlockAck, block_idx);
        }
        let mut m = match self.messages[idu].take() {
            Some(m) => m,
            None => {
                proof {
                    assert(false);
                }
                unreached()
            },
        };
        m.add_block(new_block);
        let complete = m.is_complete;
        self.messages[idu] = Some(m);
        proof {
            let m0 = match old(self)@.messages[idu as int] {
                Some(m0) => m0,
                None => spec_message_new(new_block.data@, now_ms),
            };
            assert(self@.messages =~= old(self)@.messages.update(
                idu as int,
                Some(spec_message_add(m0, new_block.data@)),
            ));
            assert(self@ =~= (SessionModel {
                messages: self@.messages,
                ..old(self)@
            }));
        }
        if complete {
            (BlockReceivedAction::ProcessMessage, 0)
        } else {
            (BlockReceivedAction::SendBlockAck, block_idx)
        }
    }
}

/// An acknowledgment payload fed into a session: the state afterwards and
/// the outcome. A payload too short to carry a block index is
/// `MissingBlockId`; an id with no outstanding outbound message is
/// `NoSuchOutgoing` (ignored by callers as a stale or duplicate ack);
/// otherwise the named slot is marked acknowledged, and once every slot is,
/// the tracker is retired, its id returns to the free pool, and the
/// completion effect of its command type runs (a domain update or channel
/// update marks the respective cached list fresh).
pub open spec fn spec_process_ack(s: SessionModel, p: Seq<u8>) -> (
    SessionModel,
    Result<(), ProtocolError>,
) {
    if p.len() < 2 {
        (s, Err(ProtocolError::MissingBlockId))
    } else if p[0] >= 32 {
        (s, Err(ProtocolError::NoSuchOutgoing))
    } else {
        let id = p[0] as int;
        let bidx = p[1];
        match s.outgoing[id] {
            None => (s, Err(ProtocolError::NoSuchOutgoing)),
            Some(om) => {
                let om2 = spec_acknowledge(om, bidx);
                if spec_all_acked(om2.slots) {
                    let s2 = SessionModel {
                        outgoing: s.outgoing.update(id, None),
                        unused_ids: s.unused_ids.push(p[0]),
                        latest_domain_info: if om.msg_type == CMD_DOMAIN_UPDATE {
                            true
                        } else {
                            s.latest_domain_info
                        },
                        latest_channel_list: if om.msg_type == CMD_CHANNEL_UPDATE && om.ack_data
                            < s.latest_channel_list.len() {
                            s.latest_channel_list.update(om.ack_data as int, true)
                        } else {
                            s.latest_channel_list
                        },
                        ..s
                    };
                    (s2, Ok(()))
                } else {
                    (SessionModel { outgoing: s.outgoing.update(id, Some(om2)), ..s }, Ok(()))
                }
            },
        }
    }
}

/// Whether a tracker's last send is older than the refresh interval at `now`.
pub open spec fn spec_refresh_due(om: OutgoingModel, now: u64) -> bool {
    now > om.last_send_ms && now - om.last_send_ms > OUTGOING_REFRESH_TIME_MS
}

/// One slot of the outbound table after a refresh sweep at `now`: a due
/// tracker is either dropped (retries exhausted — a terminal, silent
/// delivery failure) or bumped and restamped; anything else is untouched.
pub open spec fn spec_refresh_slot(o: Option<OutgoingModel>, now: u64) -> Option<OutgoingModel> {
    match o {
        None => None,
        Some(om) => {
            if spec_refresh_due(om, now) {
                if om.send_attempts + 1 > MAX_SEND_RETRIES {
                    None
                } else {
                    Some(
                        OutgoingModel {
                            last_send_ms: now,
                            send_attempts: (om.send_attempts + 1) as u32,
                            ..om
                        },
                    )
                }
            } else {
                Some(om)
            }
        },
    }
}

/// The ids a refresh sweep at `now` frees, scanning slots from `i` up.
pub open spec fn spec_refresh_freed(s: SessionModel, now: u64, i: int) -> Seq<u8>
    decreases 32 - i,
{
    if i < 0 || i >= 32 {
        Seq::empty()
    } else {
        let rest = spec_refresh_freed(s, now, i + 1);
        match s.outgoing[i] {
            Some(om) => {
                if spec_refresh_due(om, now) && om.send_attempts + 1 > MAX_SEND_RETRIES {
                    seq![i as u8] + rest
                } else {
                    rest
                }
            },
            None => rest,
        }
    }
}

/// The still-pending blocks of one tracker, from slot `s` up, as (message
/// id, wire block index, block octets).
pub open spec fn spec_pending_blocks(id: u8, slots: Seq<Option<Seq<u8>>>, s: int) -> Seq<
    (u8, u8, Seq<u8>),
>
    decreases slots.len() - s,
{
    if s < 0 || s >= slots.len() {
        Seq::empty()
    } else {
        let rest = spec_pending_blocks(id, slots, s + 1);
        match slots[s] {
            Some(d) => seq![(id, s as u8, d)] + rest,
            None => rest,
        }
    }
}

/// The blocks a refresh sweep at `now` resends, scanning slots from `i` up:
/// every still-pending block of every due tracker that stays.
pub open spec fn spec_refresh_resends(s: SessionModel, now: u64, i: int) -> Seq<(u8, u8, Seq<u8>)>
    decreases 32 - i,
{
    if i < 0 || i >= 32 {
        Seq::empty()
    } else {
        let rest = spec_refresh_resends(s, now, i + 1);
        match s.outgoing[i] {
            Some(om) => {
                if spec_refresh_due(om, now) && om.send_attempts + 1 <= MAX_SEND_RETRIES {
                    spec_pending_blocks(i as u8, om.slots, 0) + rest
                } else {
                    rest
                }
            },
            None => rest,
        }
    }
}

/// The whole session after one refresh sweep at `now`: every slot refreshed
/// as [`spec_refresh_slot`] describes, the freed ids appended to the pool.
pub open spec fn spec_refresh_state(s: SessionModel, now: u64) -> SessionModel {
    SessionModel {
        outgoing: Seq::new(s.outgoing.len(), |i: int| spec_refresh_slot(s.outgoing[i], now)),
        unused_ids: s.unused_ids + spec_refresh_freed(s, now, 0),
        ..s
    }
}

/// The (message id, wire block index, octets) view of queued blocks.
pub open spec fn outbound_views(v: Seq<OutboundBlock>) -> Seq<(u8, u8, Seq<u8>)> {
    Seq::new(v.len(), |t: int| (v[t].msg_id, v[t].block_idx, v[t].data@))
}

impl User {
    /// Processes a block acknowledgment payload (after its command byte), as
    /// [`spec_process_ack`] describes.
    pub fn process_block_ack(&mut self, msg: &Vec<u8>) -> (r: Result<(), ProtocolError>)
        requires
            old(self).wf(),
        ensures
            final(self).wf(),
            ({
                let (s2, res) = spec_process_ack(old(self)@, msg@);
                final(self)@ == s2 && r == res
            }),
    {
        if msg.len() < 2 {
            return Err(ProtocolError::MissingBlockId);
        }
        let msg_id = msg[0];
        let block_id = msg[1];
        if msg_id >= 32 {
            return Err(ProtocolError::NoSuchOutgoing);
        }
        let idu = msg_id as usize;
        if self.outgoing_messages[idu].is_none() {
            return Err(ProtocolError::NoSuchOutgoing);
        }
        let mut om = match self.outgoing_messages[idu].take() {
            Some(v) => v,
            None => {
                proof {
                    assert(false);
                }
                unreached()
            },
        };
        let ghost om0 = match old(self)@.outgoing[idu as int] {
            Some(v) => v,
            None => om@,
        };
        let full = om.acknowledge_block(block_id);
        match full {
            Some(cmd_type) => {
                self.unused_ids.push(msg_id);
                if cmd_type == CMD_DOMAIN_UPDATE {
                    self.client_has_latest_domain_info = true;
                } else if cmd_type == CMD_CHANNEL_UPDATE {
                    if (om.ack_data as usize) < self.client_has_latest_channel_list.len() {
                        self.client_has_latest_channel_list[om.ack_data as usize] = true;
                    }
                }
                proof {
                    assert(self@.outgoing =~= old(self)@.outgoing.update(idu as int, None));
                    if cmd_type == CMD_CHANNEL_UPDATE && om0.ack_data
                        < old(self)@.latest_channel_list.len() {
                        assert(self@.latest_channel_list =~= old(self)@.latest_channel_list.update(
                            om0.ack_data as int,
                            true,
                        ));
                    }
                    assert(self@ =~= spec_process_ack(old(self)@, msg@).0);
                }
            },
            None => {
                self.outgoing_messages[idu] = Some(om);
                proof {
                    assert(self@.outgoing =~= old(self)@.outgoing.update(
                        idu as int,
                        Some(spec_acknowledge(om0, block_id)),
                    ));
                    assert(self@ =~= spec_process_ack(old(self)@, msg@).0);
                }
            },
        }
        Ok(())
    }

    /// Runs one refresh sweep at `now_ms` over the outbound table: every due
    /// tracker still within the retry ceiling is bumped, restamped and its
    /// pending blocks returned for retransmission; a due tracker beyond the
    /// ceiling is dropped and its id returns to the free pool — a terminal
    /// delivery failure of which the remote peer is not told.
    pub fn refresh_outgoing(&mut self, now_ms: u64) -> (resends: Vec<OutboundBlock>)
        requires
            old(self).wf(),
        ensures
            final(self).wf(),
            forall|i: int|
                0 <= i < 32 ==> final(self)@.outgoing[i] == spec_refresh_slot(
                    old(self)@.outgoing[i],
                    now_ms,
                ),
            final(self).unused_ids@ == old(self).unused_ids@ + spec_refresh_freed(
                old(self)@,
                now_ms,
                0,
            ),
            outbound_views(resends@) == spec_refresh_resends(old(self)@, now_ms, 0),
            final(self)@ == spec_refresh_state(old(self)@, now_ms),
    {
        let mut resends: Vec<OutboundBlock> = Vec::new();
        let mut id: usize = 0;
        while id < ID_SLOTS
            invariant
                id <= ID_SLOTS,
                self.wf(),
                old(self).wf(),
                forall|i: int|
                    0 <= i < id ==> self@.outgoing[i] == spec_refresh_slot(
                        old(self)@.outgoing[i],
                        now_ms,
                    ),
                forall|i: int| id <= i < 32 ==> self@.outgoing[i] == old(self)@.outgoing[i],
                self.unused_ids@ + spec_refresh_freed(old(self)@, now_ms, id as int) == old(
                    self,
                ).unused_ids@ + spec_refresh_freed(old(self)@, now_ms, 0),
                outbound_views(resends@) + spec_refresh_resends(old(self)@, now_ms, id as int)
                    == spec_refresh_resends(old(self)@, now_ms, 0),
                self@ == (SessionModel {
                    outgoing: self@.outgoing,
                    unused_ids: self.unused_ids@,
                    ..old(self)@
                }),
            decreases ID_SLOTS - id,
        {
            let ghost pool_entry = self.unused_ids@;
            let ghost views_entry = outbound_views(resends@);
            let ghost entry_model = self@;
            let ghost entry_vec = self.outgoing_messages@;
            let ghost old_slot = old(self)@.outgoing[id as int];
            assert(self@.outgoing[id as int] == old_slot);
            let due = match &self.outgoing_messages[id] {
                Some(om) => now_ms > om.last_send_ms && now_ms - om.last_send_ms
                    > OUTGOING_REFRESH_TIME_MS,
                None => false,
            };
            if due {
                let mut om = match self.outgoing_messages[id].take() {
                    Some(v) => v,
                    None => {
                        proof {
                            assert(false);
                        }
                        unreached()
                    },
                };
                assert(old_slot == Some(om@));
                if om.send_attempts + 1 > MAX_SEND_RETRIES {
                    self.unused_ids.push(id as u8);
                    proof {
                        assert(spec_refresh_freed(old(self)@, now_ms, id as int) == seq![
                            id as u8,
                        ] + spec_refresh_freed(old(self)@, now_ms, id + 1));
                        assert(self.unused_ids@ + spec_refresh_freed(old(self)@, now_ms, id + 1)
                            =~= pool_entry + spec_refresh_freed(old(self)@, now_ms, id as int));
                        assert(spec_refresh_resends(old(self)@, now_ms, id as int)
                            == spec_refresh_resends(old(self)@, now_ms, id + 1));
                        assert(self@.outgoing[id as int] == spec_refresh_slot(old_slot, now_ms));
                    }
                } else {
                    om.send_attempts = om.send_attempts + 1;
                    om.last_send_ms = now_ms;
                    let ghost slots0 = om@.slots;
                    let nslots = om.stored_blocks.len();
                    let mut s: usize = 0;
                    while s < nslots
                        invariant
                            s <= nslots,
                            id < 32,
                            om@.slots == slots0,
                            nslots == slots0.len() <= 256,
                            outbound_views(resends@) + spec_pending_blocks(
                                id as u8,
                                slots0,
                                s as int,
                            ) == views_entry + spec_pending_blocks(id as u8, slots0, 0),
                        decreases nslots - s,
                    {
                        let ghost vb = outbound_views(resends@);
                        match &om.stored_blocks[s] {
                            Some(d) => {
                                let data = copy_bytes(d);
                                resends.push(
                                    OutboundBlock { msg_id: id as u8, block_idx: s as u8, data },
                                );
                                proof {
                                    assert(slots0[s as int] == Some(d@));
                                    assert(outbound_views(resends@) =~~= vb.push(
                                        (id as u8, s as u8, d@),
                                    ));
                                    assert(spec_pending_blocks(id as u8, slots0, s as int) == seq![
                                        (id as u8, s as u8, d@),
                                    ] + spec_pending_blocks(id as u8, slots0, s + 1));
                                    assert(outbound_views(resends@) + spec_pending_blocks(
                                        id as u8,
                                        slots0,
                                        s + 1,
                                    ) =~~= vb + spec_pending_blocks(id as u8, slots0, s as int));
                                }
                            },
                            None => {
                                proof {
                                    assert(slots0[s as int] is None);
                                    assert(spec_pending_blocks(id as u8, slots0, s as int)
                                        == spec_pending_blocks(id as u8, slots0, s + 1));
                                }
                            },
                        }
                        s += 1;
                    }
                    self.outgoing_messages[id] = Some(om);
                    proof {
                        assert(spec_pending_blocks(id as u8, slots0, nslots as int)
                            == Seq::<(u8, u8, Seq<u8>)>::empty());
                        assert(outbound_views(resends@) =~~= views_entry + spec_pending_blocks(
                            id as u8,
                            slots0,
                            0,
                        ));
                        assert(spec_refresh_resends(old(self)@, now_ms, id as int)
                            == spec_pending_blocks(id as u8, slots0, 0) + spec_refresh_resends(
                            old(self)@,
                            now_ms,
                            id + 1,
                        ));
                        assert(outbound_views(resends@) + spec_refresh_resends(
                            old(self)@,
                            now_ms,
                            id + 1,
                        ) =~~= views_entry + spec_refresh_resends(old(self)@, now_ms, id as int));
                        assert(spec_refresh_freed(old(self)@, now_ms, id as int)
                            == spec_refresh_freed(old(self)@, now_ms, id + 1));
                        assert(self@.outgoing[id as int] == spec_refresh_slot(old_slot, now_ms));
                    }
                }
            } else {
                proof {
                    assert(spec_refresh_freed(old(self)@, now_ms, id as int)
                        == spec_refresh_freed(old(self)@, now_ms, id + 1));
                    assert(spec_refresh_resends(old(self)@, now_ms, id as int)
                        == spec_refresh_resends(old(self)@, now_ms, id + 1));
                    assert(self@.outgoing[id as int] == spec_refresh_slot(old_slot, now_ms));
                }
            }
            proof {
                assert(self@ =~= (SessionModel {
                    outgoing: self@.outgoing,
                    unused_ids: self.unused_ids@,
                    ..old(self)@
                }));
                assert forall|i: int| 0 <= i < id + 1 implies self@.outgoing[i]
                    == spec_refresh_slot(old(self)@.outgoing[i], now_ms) by {
                    if i < id {
                        assert(entry_model.outgoing[i] == spec_refresh_slot(
                            old(self)@.outgoing[i],
                            now_ms,
                        ));
                        assert(self.outgoing_messages@[i] == entry_vec[i]);
                        assert(self@.outgoing[i] == entry_model.outgoing[i]);
                    }
                }
            }
            id += 1;
        }
        proof {
            assert(outbound_views(resends@) =~~= spec_refresh_resends(old(self)@, now_ms, 0));
            assert(self.unused_ids@ =~= old(self).unused_ids@ + spec_refresh_freed(
                old(self)@,
                now_ms,
                0,
            ));
            assert(self@.outgoing =~= Seq::new(
                old(self)@.outgoing.len(),
                |i: int| spec_refresh_slot(old(self)@.outgoing[i], now_ms),
            ));
            assert(self@ =~= spec_refresh_state(old(self)@, now_ms));
        }
        resends
    }
}

/// The session with one message retired from its inbound table: a multipart
/// message is dropped once dispatched; a singlepart one stays for its
/// keep-for window, where it answers repeats of its id idempotently.
pub open spec fn spec_retire(s: SessionModel, id: int, multipart: bool) -> SessionModel {
    if multipart {
        SessionModel { messages: s.messages.update(id, None), ..s }
    } else {
        s
    }
}

/// The first bot at or after position `j` whose address matches.
pub open spec fn spec_find_bot(bots: Seq<MatrixBotInfo>, addr: Seq<char>, j: int) -> Option<int>
    decreases bots.len() - j,
{
    if j < 0 || j >= bots.len() {
        None
    } else if bots[j].bot_address@ == addr {
        Some(j)
    } else {
        spec_find_bot(bots, addr, j + 1)
    }
}

/// The outcome of authenticating a bot credential against a session.
#[derive(Debug, Clone, Copy, PartialEq, Eq, Structural)]
pub enum AuthenticateOutcome {
    /// A bot with this address is already attached: re-authentication is
    /// idempotent and returns the existing handle.
    Existing(u8),
    /// The session holds as many bots as a handle byte can name.
    LimitReached,
    /// No bot with this address is attached: the caller must start a worker
    /// and register it with [`User::register_bot`].
    NewBotRequired,
}

impl User {
    /// Decides an authentication attempt for a bot credential: a full
    /// session is refused; a bot already attached under the same address is
    /// returned as is (its cached channel list can no longer be assumed
    /// fresh); otherwise a new worker must be registered.
    pub fn authenticate(&mut self, botcred: &crate::credential_manager::BridgeBotCredentials) -> (r:
        AuthenticateOutcome)
        requires
            old(self).wf(),
        ensures
            final(self).wf(),
            ({
                let found = spec_find_bot(old(self)@.bots, botcred.bot_address@, 0);
                if old(self)@.bots.len() >= 256 {
                    r == AuthenticateOutcome::LimitReached && final(self)@ == old(self)@
                } else {
                    match found {
                        Some(i) => r == AuthenticateOutcome::Existing(i as u8) && final(self)@
                            == (SessionModel {
                            latest_channel_list: old(self)@.latest_channel_list.update(i, false),
                            ..old(self)@
                        }),
                        None => r == AuthenticateOutcome::NewBotRequired && final(self)@ == old(
                            self,
                        )@,
                    }
                }
            }),
    {
        if self.matrix_bots.len() >= 256 {
            return AuthenticateOutcome::LimitReached;
        }
        let mut i: usize = 0;
        while i < self.matrix_bots.len()
            invariant
                self.wf(),
                self@ == old(self)@,
                old(self)@.bots.len() < 256,
                i <= self.matrix_bots@.len(),
                spec_find_bot(self@.bots, botcred.bot_address@, 0) == spec_find_bot(
                    self@.bots,
                    botcred.bot_address@,
                    i as int,
                ),
            decreases self.matrix_bots@.len() - i,
        {
            if self.matrix_bots[i].bot_address == botcred.bot_address {
                proof {
                    assert(spec_find_bot(self@.bots, botcred.bot_address@, i as int) == Some(
                        i as int,
                    ));
                }
                self.client_has_latest_channel_list[i] = false;
                proof {
                    assert(self@.latest_channel_list =~= old(self)@.latest_channel_list.update(
                        i as int,
                        false,
                    ));
                    assert(self@ =~= (SessionModel {
                        latest_channel_list: self@.latest_channel_list,
                        ..old(self)@
                    }));
                }
                return AuthenticateOutcome::Existing(i as u8);
            }
            i += 1;
        }
        AuthenticateOutcome::NewBotRequired
    }

    /// Registers a freshly started bot worker: appends its info, marks its
    /// channel list stale on the client, and returns its handle.
    pub fn register_bot(&mut self, info: MatrixBotInfo) -> (idx: u8)
        requires
            old(self).wf(),
            old(self)@.bots.len() < 256,
        ensures
            final(self).wf(),
            idx == old(self)@.bots.len(),
            final(self)@ == (SessionModel {
                bots: old(self)@.bots.push(info),
                latest_channel_list: old(self)@.latest_channel_list.push(false),
                ..old(self)@
            }),
    {
        let idx = self.matrix_bots.len() as u8;
        self.matrix_bots.push(info);
        self.client_has_latest_channel_list.push(false);
        proof {
            assert(self@ =~= (SessionModel {
                bots: old(self)@.bots.push(info),
                latest_channel_list: old(self)@.latest_channel_list.push(false),
                ..old(self)@
            }));
        }
        idx
    }

    /// Removes every bot authorization at once (the caller tells the workers
    /// to stop): a key exchange on an already-encrypted session is a session
    /// reset, and every authorization granted before it is revoked first.
    pub fn revoke_all_bots(&mut self)
        requires
            old(self).wf(),
        ensures
            final(self).wf(),
            final(self)@ == (SessionModel {
                bots: Seq::empty(),
                latest_channel_list: Seq::empty(),
                ..old(self)@
            }),
    {
        self.matrix_bots = Vec::new();
        self.client_has_latest_channel_list = Vec::new();
        proof {
            assert(self@ =~= (SessionModel {
                bots: Seq::empty(),
                latest_channel_list: Seq::empty(),
                ..old(self)@
            }));
        }
    }

    /// Removes one bot authorization (the caller tells its worker to stop);
    /// an index out of range is an error, not a panic.
    pub fn revoke_bot(&mut self, bot_index: usize) -> (r: Result<(), ()>)
        requires
            old(self).wf(),
        ensures
            final(self).wf(),
            bot_index >= old(self)@.bots.len() ==> r == Err::<(), ()>(()) && final(self)@ == old(
                self,
            )@,
            bot_index < old(self)@.bots.len() ==> r == Ok::<(), ()>(()) && final(self)@
                == (SessionModel {
                bots: old(self)@.bots.remove(bot_index as int),
                latest_channel_list: old(self)@.latest_channel_list.remove(bot_index as int),
                ..old(self)@
            }),
    {
        if bot_index >= self.matrix_bots.len() {
            return Err(());
        }
        self.client_has_latest_channel_list.remove(bot_index);
        self.matrix_bots.remove(bot_index);
        proof {
            assert(self@ =~= (SessionModel {
                bots: old(self)@.bots.remove(bot_index as int),
                latest_channel_list: old(self)@.latest_channel_list.remove(bot_index as int),
                ..old(self)@
            }));
        }
        Ok(())
    }
}

/// Relies on `x25519_dalek`: draws a fresh ephemeral key pair with
/// `EphemeralSecret::random_from_rng` and `rand::thread_rng`, computes the
/// Diffie-Hellman shared secret with the peer's 32-byte public key, and
/// returns (own public key bytes, shared secret bytes). Each is 32 bytes;
/// nothing more can be promised, since the pair is freshly random.
#[verifier::external_body]
fn x25519_handshake(peer_public: &Vec<u8>) -> (r: (Vec<u8>, Vec<u8>))
    requires
        peer_public@.len() == 32,
    ensures
        r.0@.len() == 32,
        r.1@.len() == 32,
{
    let mut key = [0u8; 32];
    key.copy_from_slice(peer_public.as_slice());
    let secret = x25519_dalek::EphemeralSecret::random_from_rng(rand::thread_rng());
    let public = x25519_dalek::PublicKey::from(&secret);
    let shared = secret.diffie_hellman(&x25519_dalek::PublicKey::from(key));
    (public.to_bytes().to_vec(), shared.to_bytes().to_vec())
}

/// How many blocks a payload of the given length chunks into: one full
/// 138-octet piece per block, the last block carrying the remainder.
pub open spec fn spec_chunk_count(len: int) -> int {
    if len <= 138 {
        1int
    } else {
        (len + 137) / 138
    }
}

/// The payload piece carried by block `j` of a chunked message.
pub open spec fn spec_chunk_piece(p: Seq<u8>, j: int) -> Seq<u8> {
    p.subrange(
        138 * j,
        if 138 * (j + 1) <= p.len() {
            138 * (j + 1)
        } else {
            p.len() as int
        },
    )
}

/// The octets of block `j` of a chunked message: a singlepart message is one
/// block of header plus payload; a multipart message's block 0 carries the
/// terminal marker and the count-minus-one in `mp_idx`, and block `j >= 1`
/// carries `j - 1` in `mp_idx`.
pub open spec fn spec_chunk_block(p: Seq<u8>, msg_id: u8, is_command: bool, j: int) -> Seq<u8> {
    let n = spec_chunk_count(p.len() as int);
    if n == 1 {
        seq![spec_header(msg_id, is_command, false, false)] + p
    } else if j == 0 {
        seq![spec_header(msg_id, is_command, true, true), (n - 1) as u8] + spec_chunk_piece(p, 0)
    } else {
        seq![spec_header(msg_id, is_command, true, false), (j - 1) as u8] + spec_chunk_piece(p, j)
    }
}

/// A payload chunked into blocks.
pub open spec fn spec_chunk(p: Seq<u8>, msg_id: u8, is_command: bool) -> Seq<Seq<u8>> {
    Seq::new(
        spec_chunk_count(p.len() as int) as nat,
        |j: int| spec_chunk_block(p, msg_id, is_command, j),
    )
}

/// Bounds on the chunk count: at least one block, every block but the last
/// full, the last nonempty, and at most 256 blocks for payloads the chunker
/// accepts.
pub proof fn lemma_chunk_count_bounds(len: int)
    requires
        1 <= len,
    ensures
        1 <= spec_chunk_count(len),
        138 * (spec_chunk_count(len) - 1) < len,
        len <= 138 * spec_chunk_count(len),
        len <= MAX_PAYLOAD_OCTETS as int ==> spec_chunk_count(len) <= 256,
        (len <= 138 <==> spec_chunk_count(len) == 1),
{
    if len > 138 {
        let n = (len + 137) / 138;
        lemma_fundamental_div_mod(len + 137, 138);
        lemma_mod_bound(len + 137, 138);
    }
}

/// Every structural fact about the blocks a payload chunks into: validity,
/// header fields, piece positions, wire indices and payload pieces.
pub proof fn lemma_chunk_props(p: Seq<u8>, msg_id: u8, is_command: bool)
    requires
        msg_id < 32,
        1 <= p.len() <= MAX_PAYLOAD_OCTETS,
    ensures
        ({
            let n = spec_chunk_count(p.len() as int);
            let c = spec_chunk(p, msg_id, is_command);
            &&& c.len() == n
            &&& 1 <= n <= 256
            &&& (n == 1 <==> p.len() <= 138)
            &&& forall|j: int| 0 <= j < n ==> spec_block_valid(#[trigger] c[j])
            &&& forall|j: int| 0 <= j < n ==> spec_msg_id(#[trigger] c[j]) == msg_id
            &&& forall|j: int| 0 <= j < n ==> spec_is_command(#[trigger] c[j]) == is_command
            &&& forall|j: int| 0 <= j < n ==> spec_is_multipart(#[trigger] c[j]) == (n > 1)
            &&& forall|j: int|
                0 <= j < n ==> spec_mp_first(#[trigger] c[j]) == (n > 1 && j == 0)
            &&& forall|j: int|
                0 <= j < n && n > 1 ==> spec_mp_idx(#[trigger] c[j]) == (if j == 0 {
                    (n - 1) as u8
                } else {
                    (j - 1) as u8
                })
            &&& forall|j: int| 0 <= j < n ==> spec_piece_index(#[trigger] c[j]) == j as u16
            &&& forall|j: int|
                0 <= j < n ==> spec_wire_index(#[trigger] c[j]) == (if n == 1 {
                    0u8
                } else if j == 0 {
                    (n - 1) as u8
                } else {
                    (j - 1) as u8
                })
            &&& forall|j: int|
                0 <= j < n ==> spec_block_payload(#[trigger] c[j]) =~= spec_chunk_piece(p, j)
        }),
{
    let n = spec_chunk_count(p.len() as int);
    let c = spec_chunk(p, msg_id, is_command);
    lemma_chunk_count_bounds(p.len() as int);
    assert forall|j: int| 0 <= j < n implies {
        &&& spec_block_valid(#[trigger] c[j])
        &&& spec_msg_id(c[j]) == msg_id
        &&& spec_is_command(c[j]) == is_command
        &&& spec_is_multipart(c[j]) == (n > 1)
        &&& spec_mp_first(c[j]) == (n > 1 && j == 0)
        &&& (n > 1 ==> spec_mp_idx(c[j]) == (if j == 0 {
            (n - 1) as u8
        } else {
            (j - 1) as u8
        }))
        &&& spec_piece_index(c[j]) == j as u16
        &&& spec_wire_index(c[j]) == (if n == 1 {
            0u8
        } else if j == 0 {
            (n - 1) as u8
        } else {
            (j - 1) as u8
        })
        &&& spec_block_payload(c[j]) =~= spec_chunk_piece(p, j)
    } by {
        crate::block::lemma_header_fields(msg_id, is_command, n > 1, n > 1 && j == 0);
        if n == 1 {
            assert(c[j] == seq![spec_header(msg_id, is_command, false, false)] + p);
            assert(c[j][0] == spec_header(msg_id, is_command, false, false));
            assert(spec_block_payload(c[j]) =~= p);
            assert(spec_chunk_piece(p, 0) =~= p);
        } else {
            if j == 0 {
                assert(c[j][0] == spec_header(msg_id, is_command, true, true));
            } else {
                assert(c[j][0] == spec_header(msg_id, is_command, true, false));
            }
            if j < n - 1 {
                assert(138 * (j + 1) <= 138 * (n - 1));
            }
            assert(spec_block_payload(c[j]) =~= spec_chunk_piece(p, j));
        }
    }
}

impl User {
    /// Chunks a payload into blocks for the given address: `ceil(len / 138)`
    /// blocks, each at most 140 octets, laid out as [`spec_chunk`] describes.
    pub fn generate_msg_blocks(payload: &Vec<u8>, is_command: bool, msg_id: u8, addr: &String) -> (blocks: Vec<
        Block,
    >)
        requires
            msg_id < 32,
            1 <= payload@.len() <= MAX_PAYLOAD_OCTETS,
        ensures
            blocks@.len() == spec_chunk_count(payload@.len() as int),
            forall|j: int|
                0 <= j < blocks@.len() ==> (#[trigger] blocks@[j]).data@ == spec_chunk(
                    payload@,
                    msg_id,
                    is_command,
                )[j],
            forall|j: int| 0 <= j < blocks@.len() ==> (#[trigger] blocks@[j]).addr@ == addr@,
    {
        proof {
            lemma_chunk_count_bounds(payload@.len() as int);
        }
        let len = payload.len();
        let n: usize = if len <= 138 {
            1
        } else {
            (len + 137) / 138
        };
        assert(n == spec_chunk_count(payload@.len() as int));
        let mut blocks: Vec<Block> = Vec::new();
        let mut j: usize = 0;
        while j < n
            invariant
                j <= n,
                n == spec_chunk_count(payload@.len() as int),
                1 <= n <= 256,
                1 <= payload@.len() <= MAX_PAYLOAD_OCTETS,
                138 * (n - 1) < payload@.len() <= 138 * n,
                (n == 1 <==> payload@.len() <= 138),
                msg_id < 32,
                blocks@.len() == j,
                forall|t: int|
                    0 <= t < j ==> (#[trigger] blocks@[t]).data@ == spec_chunk_block(
                        payload@,
                        msg_id,
                        is_command,
                        t,
                    ),
                forall|t: int| 0 <= t < j ==> (#[trigger] blocks@[t]).addr@ == addr@,
            decreases n - j,
        {
            let h = block::make_header(msg_id, is_command, n > 1, n > 1 && j == 0);
            let mut data: Vec<u8> = Vec::new();
            data.push(h);
            if n > 1 {
                if j == 0 {
                    data.push((n - 1) as u8);
                } else {
                    data.push((j - 1) as u8);
                }
            }
            let ghost header = data@;
            let plen = payload.len();
            let base: usize = 138 * j;
            let mut end: usize = base + 138;
            if end > plen {
                end = plen;
            }
            assert(base < payload@.len()) by {
                assert(138 * j <= 138 * (n - 1));
            }
            let mut i: usize = base;
            proof {
                assert(data@ =~= header + payload@.subrange(base as int, base as int));
            }
            while i < end
                invariant
                    base <= i <= end,
                    end <= payload@.len(),
                    data@ == header + payload@.subrange(base as int, i as int),
                decreases end - i,
            {
                data.push(payload[i]);
                proof {
                    assert(data@ =~= header + payload@.subrange(base as int, i + 1));
                }
                i += 1;
            }
            proof {
                assert(data@ =~= spec_chunk_block(payload@, msg_id, is_command, j as int));
            }
            blocks.push(Block::new(addr.clone(), data));
            j += 1;
        }
        blocks
    }
}

} // verus!
