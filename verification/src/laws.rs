//! The protocol's laws: proofs, over the models the executable functions
//! are specified against, of the properties the engine is built around.

use vstd::prelude::*;

verus! {

use crate::block::spec_block_valid;
use crate::block::spec_is_multipart;
use crate::block::spec_msg_id;
use crate::block::spec_piece_index;
use crate::block::spec_wire_index;
use crate::block::BlockReceivedAction;
use crate::errors::ProtocolError;
use crate::message::spec_lower_bound;
use crate::message::spec_message_add;
use crate::message::spec_message_new;
use crate::message::MessageModel;
use crate::message::lemma_lower_bound_exit;
use crate::outgoing_message::spec_acknowledge;
use crate::outgoing_message::spec_all_acked;
use crate::outgoing_message::MAX_SEND_RETRIES;
use crate::outgoing_message::OUTGOING_REFRESH_TIME_MS;
use crate::user::lemma_chunk_props;
use crate::user::spec_chunk;
use crate::user::spec_chunk_count;
use crate::user::spec_chunk_piece;
use crate::user::spec_process_ack;
use crate::user::spec_receive;
use crate::user::spec_refresh_freed;
use crate::user::spec_refresh_slot;
use crate::user::spec_refresh_state;
use crate::user::SessionModel;
use crate::user::MAX_PAYLOAD_OCTETS;
use crate::user::MESSAGE_KEEPFOR_DURATION_MS;

/// The message state after the blocks `c[0]`, …, `c[k]` are fed, in that
/// order, into a fresh reassembler.
pub open spec fn spec_reassemble(c: Seq<Seq<u8>>, now: u64, k: int) -> MessageModel
    decreases k,
{
    if k <= 0 {
        spec_message_new(c[0], now)
    } else {
        spec_message_add(spec_reassemble(c, now, k - 1), c[k])
    }
}

/// After the first `k + 1` chunked blocks are fed in order, the reassembler
/// holds exactly the first `min(138 * (k + 1), len)` payload octets, the
/// piece positions 0..=k, and is complete exactly when every block is in.
pub proof fn lemma_reassemble_prefix(p: Seq<u8>, msg_id: u8, is_command: bool, now: u64, k: int)
    requires
        msg_id < 32,
        1 <= p.len() <= MAX_PAYLOAD_OCTETS,
        0 <= k < spec_chunk_count(p.len() as int),
    ensures
        ({
            let n = spec_chunk_count(p.len() as int);
            let c = spec_chunk(p, msg_id, is_command);
            let m = spec_reassemble(c, now, k);
            &&& m.msg_id == msg_id
            &&& m.is_command == is_command
            &&& m.is_multipart == (n > 1)
            &&& m.num_blocks == (if n > 1 {
                n as u16
            } else {
                0u16
            })
            &&& m.stored_blocks =~= Seq::new((k + 1) as nat, |i: int| i as u16)
            &&& m.payload =~= p.take(
                if 138 * (k + 1) <= p.len() {
                    138 * (k + 1)
                } else {
                    p.len() as int
                },
            )
            &&& m.is_complete == (if n > 1 {
                k + 1 == n
            } else {
                true
            })
            &&& m.received_at_ms == now
        }),
    decreases k,
{
    lemma_chunk_props(p, msg_id, is_command);
    let n = spec_chunk_count(p.len() as int);
    let c = spec_chunk(p, msg_id, is_command);
    if k == 0 {
        let m = spec_message_new(c[0], now);
        assert(m.stored_blocks =~= Seq::new(1, |i: int| i as u16));
        assert(spec_chunk_piece(p, 0) =~= p.take(
            if 138 <= p.len() {
                138int
            } else {
                p.len() as int
            },
        ));
    } else {
        lemma_reassemble_prefix(p, msg_id, is_command, now, k - 1);
        let m0 = spec_reassemble(c, now, k - 1);
        let m = spec_message_add(m0, c[k]);
        assert(spec_piece_index(c[k]) == k as u16);
        lemma_lower_bound_exit(m0.stored_blocks, k as u16, m0.stored_blocks.len() as int);
        assert(spec_lower_bound(m0.stored_blocks, k as u16) == k);
        assert(138 * k <= 138 * (n - 1));
        assert(m0.payload.len() == 138 * k);
        assert(m.payload =~= m0.payload + spec_chunk_piece(p, k)) by {
            assert(m0.payload.take(138 * k) =~= m0.payload);
            assert(m0.payload.skip(138 * k) =~= Seq::<u8>::empty());
        }
        assert(m.payload =~= p.take(
            if 138 * (k + 1) <= p.len() {
                138 * (k + 1)
            } else {
                p.len() as int
            },
        ));
        assert(m.stored_blocks =~= Seq::new((k + 1) as nat, |i: int| i as u16)) by {
            assert(m0.stored_blocks.take(k) =~= m0.stored_blocks);
            assert(m0.stored_blocks.skip(k) =~= Seq::<u16>::empty());
        }
    }
}

/// Round-trip: chunking any payload of 1 to 35328 octets into blocks and
/// folding those blocks, in order, into a fresh reassembler yields exactly
/// the original payload, from `ceil(len / 138)` blocks, and the message is
/// then complete.
pub proof fn lemma_chunk_reassemble_round_trip(p: Seq<u8>, msg_id: u8, is_command: bool, now: u64)
    requires
        msg_id < 32,
        1 <= p.len() <= MAX_PAYLOAD_OCTETS,
    ensures
        ({
            let n = spec_chunk_count(p.len() as int);
            let c = spec_chunk(p, msg_id, is_command);
            let m = spec_reassemble(c, now, n - 1);
            &&& n == (if p.len() <= 138 {
                1int
            } else {
                (p.len() + 137int) / 138int
            })
            &&& m.payload == p
            &&& m.is_complete
            &&& m.msg_id == msg_id
            &&& m.is_command == is_command
            &&& (n > 1 ==> m.num_blocks == n)
        }),
{
    let n = spec_chunk_count(p.len() as int);
    let c = spec_chunk(p, msg_id, is_command);
    crate::user::lemma_chunk_count_bounds(p.len() as int);
    lemma_reassemble_prefix(p, msg_id, is_command, now, n - 1);
    assert(spec_reassemble(c, now, n - 1).payload =~= p) by {
        assert(p.take(p.len() as int) =~= p);
    }
}

/// The payload pieces named by `stored`, in that order, spliced together.
pub open spec fn spec_concat_pieces(p: Seq<u8>, stored: Seq<u16>) -> Seq<u8>
    decreases stored.len(),
{
    if stored.len() == 0 {
        Seq::empty()
    } else {
        spec_chunk_piece(p, stored[0] as int) + spec_concat_pieces(p, stored.skip(1))
    }
}

proof fn lemma_concat_split(p: Seq<u8>, s1: Seq<u16>, s2: Seq<u16>)
    ensures
        spec_concat_pieces(p, s1 + s2) =~= spec_concat_pieces(p, s1) + spec_concat_pieces(p, s2),
    decreases s1.len(),
{
    if s1.len() == 0 {
        assert(s1 + s2 =~= s2);
        assert(spec_concat_pieces(p, s1) =~= Seq::<u8>::empty());
    } else {
        assert((s1 + s2).skip(1) =~= s1.skip(1) + s2);
        lemma_concat_split(p, s1.skip(1), s2);
    }
}

proof fn lemma_concat_full_len(p: Seq<u8>, s: Seq<u16>)
    requires
        forall|j: int| 0 <= j < s.len() ==> 138 * (#[trigger] s[j] + 1) <= p.len(),
    ensures
        spec_concat_pieces(p, s).len() == 138 * s.len(),
    decreases s.len(),
{
    if s.len() > 0 {
        assert(forall|j: int|
            0 <= j < s.skip(1).len() ==> 138 * (#[trigger] s.skip(1)[j] + 1) <= p.len()) by {
            assert(forall|j: int|
                0 <= j < s.skip(1).len() ==> s.skip(1)[j] == s[j + 1]);
        }
        lemma_concat_full_len(p, s.skip(1));
        assert(spec_chunk_piece(p, s[0] as int).len() == 138);
    }
}

proof fn lemma_concat_singleton(p: Seq<u8>, x: u16)
    ensures
        spec_concat_pieces(p, seq![x]) =~= spec_chunk_piece(p, x as int),
{
    reveal_with_fuel(spec_concat_pieces, 2);
    assert(seq![x].skip(1) =~= Seq::<u16>::empty());
}

proof fn lemma_sorted_le_index(s: Seq<u16>, i: int)
    requires
        crate::message::sorted_strict(s),
        forall|t: int| 0 <= t < s.len() ==> (#[trigger] s[t] as int) < s.len(),
        0 <= i < s.len(),
    ensures
        s[i] as int <= i,
    decreases s.len() - i,
{
    if i < s.len() - 1 {
        lemma_sorted_le_index(s, i + 1);
    }
}

proof fn lemma_concat_identity(p: Seq<u8>, i: int)
    requires
        1 <= p.len() <= MAX_PAYLOAD_OCTETS,
        0 <= i <= spec_chunk_count(p.len() as int),
    ensures
        spec_concat_pieces(
            p,
            Seq::new((spec_chunk_count(p.len() as int) - i) as nat, |t: int| (i + t) as u16),
        ) =~= p.skip(
            if 138 * i <= p.len() {
                138 * i
            } else {
                p.len() as int
            },
        ),
    decreases spec_chunk_count(p.len() as int) - i,
{
    let n = spec_chunk_count(p.len() as int);
    crate::user::lemma_chunk_count_bounds(p.len() as int);
    let s = Seq::new((n - i) as nat, |t: int| (i + t) as u16);
    if i == n {
        assert(s.len() == 0);
        assert(p.skip(p.len() as int) =~= Seq::<u8>::empty());
        assert(138 * n >= p.len());
    } else {
        lemma_concat_identity(p, i + 1);
        let s2 = Seq::new((n - (i + 1)) as nat, |t: int| (i + 1 + t) as u16);
        assert(s.skip(1) =~= s2);
        assert(s[0] == i as u16);
        assert(138 * i < p.len()) by {
            assert(138 * i <= 138 * (n - 1));
        }
        assert(spec_chunk_piece(p, i) + p.skip(
            if 138 * (i + 1) <= p.len() {
                138 * (i + 1)
            } else {
                p.len() as int
            },
        ) =~= p.skip(138 * i));
    }
}

/// What holds of the reassembler after the chunked blocks at positions
/// `perm[0]`, …, `perm[k]` (all distinct) are fed in that order: the stored
/// piece positions are exactly those fed, in ascending order, the payload is
/// their pieces spliced in piece order, and the expected count is known
/// exactly when the terminal-marker block is among them.
#[verifier::rlimit(100)]
pub proof fn lemma_any_order_prefix(
    p: Seq<u8>,
    msg_id: u8,
    is_command: bool,
    now: u64,
    perm: Seq<int>,
    k: int,
)
    requires
        msg_id < 32,
        1 <= p.len() <= MAX_PAYLOAD_OCTETS,
        perm.len() == spec_chunk_count(p.len() as int),
        forall|i: int| 0 <= i < perm.len() ==> 0 <= #[trigger] perm[i] < perm.len(),
        forall|i: int, j: int| 0 <= i < j < perm.len() ==> perm[i] != perm[j],
        0 <= k < perm.len(),
    ensures
        ({
            let n = spec_chunk_count(p.len() as int);
            let c = spec_chunk(p, msg_id, is_command);
            let cp = Seq::new(perm.len(), |i: int| c[perm[i]]);
            let m = spec_reassemble(cp, now, k);
            &&& crate::message::sorted_strict(m.stored_blocks)
            &&& forall|t: int|
                0 <= t < m.stored_blocks.len() ==> (#[trigger] m.stored_blocks[t] as int) < n
            &&& m.stored_blocks.len() == k + 1
            &&& (forall|i: int| 0 <= i <= k ==> m.stored_blocks.contains(perm[i] as u16))
            &&& (forall|x: u16|
                m.stored_blocks.contains(x) ==> exists|i: int| 0 <= i <= k && perm[i] == x as int)
            &&& m.payload =~= spec_concat_pieces(p, m.stored_blocks)
            &&& m.num_blocks == (if n > 1 && m.stored_blocks.contains(0u16) {
                n as u16
            } else {
                0u16
            })
            &&& m.is_multipart == (n > 1)
            &&& m.is_complete == (if n > 1 {
                m.num_blocks != 0 && m.stored_blocks.len() == m.num_blocks
            } else {
                true
            })
        }),
    decreases k,
{
    let n = spec_chunk_count(p.len() as int);
    let c = spec_chunk(p, msg_id, is_command);
    let cp = Seq::new(perm.len(), |i: int| c[perm[i]]);
    lemma_chunk_props(p, msg_id, is_command);
    crate::user::lemma_chunk_count_bounds(p.len() as int);
    if k == 0 {
        let j = perm[0];
        let m = spec_message_new(c[j], now);
        assert(m.stored_blocks =~= seq![j as u16]);
        assert(m.payload =~= spec_chunk_piece(p, j));
        lemma_concat_singleton(p, j as u16);
        assert(spec_concat_pieces(p, seq![j as u16]) =~= spec_chunk_piece(p, j));
        assert(m.stored_blocks.contains(j as u16)) by {
            assert(m.stored_blocks[0] == j as u16);
        }
    } else {
        lemma_any_order_prefix(p, msg_id, is_command, now, perm, k - 1);
        let m0 = spec_reassemble(cp, now, k - 1);
        let j = perm[k];
        let b = cp[k];
        assert(b == c[j]);
        assert(spec_piece_index(b) == j as u16);
        let m = spec_message_add(m0, b);
        // the piece is fresh
        assert(!m0.stored_blocks.contains(j as u16)) by {
            if m0.stored_blocks.contains(j as u16) {
                let i = choose|i: int| 0 <= i <= k - 1 && perm[i] == j;
                assert(perm[i] != perm[k]);
            }
        }
        crate::message::lemma_lower_bound_props(m0.stored_blocks, j as u16);
        let pos = spec_lower_bound(m0.stored_blocks, j as u16);
        let front = m0.stored_blocks.take(pos);
        let back = m0.stored_blocks.skip(pos);
        assert(m0.stored_blocks =~= front + back);
        lemma_concat_split(p, front, back);
        assert(forall|t: int|
            0 <= t < front.len() ==> 138 * (#[trigger] front[t] + 1) <= p.len()) by {
            assert forall|t: int| 0 <= t < front.len() implies 138 * (#[trigger] front[t] + 1)
                <= p.len() by {
                assert(front[t] == m0.stored_blocks[t]);
                assert(m0.stored_blocks[t] < j as u16);
                assert(((j as u16) as int) < n);
                assert(front[t] + 1 <= n - 1);
                assert(138 * (front[t] + 1) <= 138 * (n - 1));
            }
        }
        lemma_concat_full_len(p, front);
        assert(m0.payload.len() >= 138 * pos);
        let off = crate::message::spec_splice_offset(
            m0.stored_blocks,
            j as u16,
            m0.payload.len() as int,
        );
        assert(off == 138 * pos);
        assert(m0.payload.take(off) =~= spec_concat_pieces(p, front)) by {
            assert(m0.payload =~= spec_concat_pieces(p, front) + spec_concat_pieces(p, back));
        }
        assert(m0.payload.skip(off) =~= spec_concat_pieces(p, back)) by {
            assert(m0.payload =~= spec_concat_pieces(p, front) + spec_concat_pieces(p, back));
        }
        let stored2 = crate::message::spec_insert_sorted(m0.stored_blocks, j as u16);
        crate::message::lemma_insert_sorted(m0.stored_blocks, j as u16);
        assert(stored2 =~= front + seq![j as u16] + back);
        lemma_concat_split(p, front + seq![j as u16], back);
        lemma_concat_split(p, front, seq![j as u16]);
        lemma_concat_singleton(p, j as u16);
        assert(spec_concat_pieces(p, seq![j as u16]) =~= spec_chunk_piece(p, j));
        assert(m.payload =~= spec_concat_pieces(p, stored2));
        // the fed set grew by exactly this piece
        assert(forall|i: int| 0 <= i <= k ==> m.stored_blocks.contains(#[trigger] perm[i] as u16));
        assert forall|x: u16| m.stored_blocks.contains(x) implies exists|i: int|
            0 <= i <= k && perm[i] == x as int by {
            if x == j as u16 {
                assert(perm[k] == x as int);
            } else {
                assert(m0.stored_blocks.contains(x));
            }
        }
    }
}

/// Round-trip under any arrival order: feeding the chunked blocks of a
/// payload into a fresh reassembler in any order whatsoever yields exactly
/// the original payload, complete, once the last block is in.
pub proof fn lemma_round_trip_any_order(
    p: Seq<u8>,
    msg_id: u8,
    is_command: bool,
    now: u64,
    perm: Seq<int>,
)
    requires
        msg_id < 32,
        1 <= p.len() <= MAX_PAYLOAD_OCTETS,
        perm.len() == spec_chunk_count(p.len() as int),
        forall|i: int| 0 <= i < perm.len() ==> 0 <= #[trigger] perm[i] < perm.len(),
        forall|i: int, j: int| 0 <= i < j < perm.len() ==> perm[i] != perm[j],
    ensures
        ({
            let c = spec_chunk(p, msg_id, is_command);
            let cp = Seq::new(perm.len(), |i: int| c[perm[i]]);
            let m = spec_reassemble(cp, now, perm.len() - 1);
            m.payload == p && m.is_complete
        }),
{
    let n = spec_chunk_count(p.len() as int);
    let c = spec_chunk(p, msg_id, is_command);
    let cp = Seq::new(perm.len(), |i: int| c[perm[i]]);
    crate::user::lemma_chunk_count_bounds(p.len() as int);
    lemma_any_order_prefix(p, msg_id, is_command, now, perm, n - 1);
    let m = spec_reassemble(cp, now, n - 1);
    // n distinct stored positions below n are exactly 0, 1, …, n-1
    assert forall|t: int| 0 <= t < n implies m.stored_blocks[t] == t as u16 by {
        crate::message::lemma_sorted_ge_index(m.stored_blocks, t);
        lemma_sorted_le_index(m.stored_blocks, t);
    }
    assert(m.stored_blocks =~= Seq::new(n as nat, |t: int| t as u16));
    lemma_concat_identity(p, 0);
    assert(Seq::new((n - 0) as nat, |t: int| (0 + t) as u16) =~= Seq::new(
        n as nat,
        |t: int| t as u16,
    ));
    assert(p.skip(0) =~= p);
    assert(m.payload =~= p);
    if n > 1 {
        assert(m.stored_blocks.contains(0u16)) by {
            assert(m.stored_blocks[0] == 0u16);
        }
    }
}

/// Idempotence: a block delivered twice to a session — the second time
/// within the keep-for window — is acknowledged both times, and the second
/// delivery changes nothing: no payload octet is stored twice.
pub proof fn lemma_receive_idempotent(s: SessionModel, b: Seq<u8>, now1: u64, now2: u64)
    requires
        spec_block_valid(b),
        s.messages.len() == 32,
        s.messages[spec_msg_id(b) as int] is None,
        now1 <= now2 <= now1 + MESSAGE_KEEPFOR_DURATION_MS,
    ensures
        ({
            let (s2, a1, i1) = spec_receive(s, b, now1);
            let (s3, a2, i2) = spec_receive(s2, b, now2);
            &&& s3 == s2
            &&& a2 == BlockReceivedAction::SendBlockAck
            &&& i2 == (if spec_is_multipart(b) {
                spec_wire_index(b)
            } else {
                0u8
            })
        }),
{
    let id = spec_msg_id(b) as int;
    let h = b[0];
    assert(h & 0x1f < 32) by (bit_vector);
    let (s2, a1, i1) = spec_receive(s, b, now1);
    let m = spec_message_new(b, now1);
    assert(s2.messages[id] == Some(m));
    if spec_is_multipart(b) {
        assert(m.stored_blocks.contains(spec_piece_index(b))) by {
            assert(m.stored_blocks[0] == spec_piece_index(b));
        }
    }
}

/// Monotonic acknowledgment: a full acknowledgment retires the tracker and
/// frees its id, and any further acknowledgment of that id is a no-op,
/// reported as "no such outstanding message" rather than an error.
pub proof fn lemma_ack_monotonic(s: SessionModel, p: Seq<u8>, p2: Seq<u8>)
    requires
        p.len() >= 2,
        p2.len() >= 2,
        p[0] < 32,
        p2[0] == p[0],
        s.outgoing.len() == 32,
        ({
            s.outgoing[p[0] as int] matches Some(om) && spec_all_acked(
                spec_acknowledge(om, p[1]).slots,
            )
        }),
    ensures
        ({
            let (s2, r1) = spec_process_ack(s, p);
            &&& r1 == Ok::<(), ProtocolError>(())
            &&& s2.outgoing[p[0] as int] is None
            &&& s2.unused_ids.contains(p[0])
            &&& spec_process_ack(s2, p2) == (
                s2,
                Err::<(), ProtocolError>(ProtocolError::NoSuchOutgoing),
            )
        }),
{
    let (s2, r1) = spec_process_ack(s, p);
    assert(s2.unused_ids.contains(p[0])) by {
        assert(s2.unused_ids.last() == p[0]);
    }
}

/// A due tracker out of retries contributes its id to the freed list of a
/// refresh sweep.
proof fn lemma_freed_contains(s: SessionModel, now: u64, i: int, id: int)
    requires
        0 <= i <= id < 32,
        ({
            s.outgoing[id] matches Some(om) && crate::user::spec_refresh_due(om, now)
                && om.send_attempts + 1 > MAX_SEND_RETRIES
        }),
    ensures
        spec_refresh_freed(s, now, i).contains(id as u8),
    decreases id - i,
{
    if i == id {
        assert(spec_refresh_freed(s, now, i)[0] == id as u8);
    } else {
        lemma_freed_contains(s, now, i + 1, id);
        let rest = spec_refresh_freed(s, now, i + 1);
        let whole = spec_refresh_freed(s, now, i);
        let w = choose|w: int| 0 <= w < rest.len() && rest[w] == id as u8;
        assert(whole == (match s.outgoing[i] {
            Some(om) => {
                if crate::user::spec_refresh_due(om, now) && om.send_attempts + 1
                    > MAX_SEND_RETRIES {
                    seq![i as u8] + rest
                } else {
                    rest
                }
            },
            None => rest,
        }));
        assert(whole.len() >= rest.len());
        assert(whole[whole.len() - rest.len() + w] == id as u8);
    }
}

/// The sequence of refresh sweeps at the given times, applied to a session.
pub open spec fn spec_apply_refreshes(s: SessionModel, times: Seq<u64>, k: int) -> SessionModel
    decreases k,
{
    if k <= 0 {
        s
    } else {
        spec_refresh_state(spec_apply_refreshes(s, times, k - 1), times[k - 1])
    }
}

/// Retry ceiling: an outbound message registered with one send attempt and
/// never acknowledged is gone after five overdue refresh sweeps — each more
/// than the refresh interval after the last send — and its id is back in
/// the free pool.
pub proof fn lemma_retry_ceiling(s0: SessionModel, id: int, times: Seq<u64>)
    requires
        0 <= id < 32,
        s0.outgoing.len() == 32,
        ({
            s0.outgoing[id] matches Some(om) && om.send_attempts == 1 && times[0] > om.last_send_ms
                + OUTGOING_REFRESH_TIME_MS
        }),
        times.len() == 5,
        forall|k: int| 1 <= k < 5 ==> times[k] > #[trigger] times[k - 1] + OUTGOING_REFRESH_TIME_MS,
    ensures
        ({
            let s5 = spec_apply_refreshes(s0, times, 5);
            &&& s5.outgoing[id] is None
            &&& s5.unused_ids.contains(id as u8)
        }),
{
    let om0 = match s0.outgoing[id] {
        Some(om) => om,
        None => arbitrary(),
    };
    let s1 = spec_apply_refreshes(s0, times, 1);
    let s2 = spec_apply_refreshes(s0, times, 2);
    let s3 = spec_apply_refreshes(s0, times, 3);
    let s4 = spec_apply_refreshes(s0, times, 4);
    let s5 = spec_apply_refreshes(s0, times, 5);
    assert(spec_apply_refreshes(s0, times, 0) == s0);
    assert(s1 == spec_refresh_state(s0, times[0]));
    assert(s1.outgoing[id] == spec_refresh_slot(s0.outgoing[id], times[0]));
    assert(s1.outgoing[id] matches Some(om) && om.send_attempts == 2 && om.last_send_ms
        == times[0] && om.msg_type == om0.msg_type);
    assert(s2.outgoing[id] == spec_refresh_slot(s1.outgoing[id], times[1]));
    assert(s2.outgoing[id] matches Some(om) && om.send_attempts == 3 && om.last_send_ms
        == times[1]);
    assert(s3.outgoing[id] == spec_refresh_slot(s2.outgoing[id], times[2]));
    assert(s3.outgoing[id] matches Some(om) && om.send_attempts == 4 && om.last_send_ms
        == times[2]);
    assert(s4.outgoing[id] == spec_refresh_slot(s3.outgoing[id], times[3]));
    assert(s4.outgoing[id] matches Some(om) && om.send_attempts == 5 && om.last_send_ms
        == times[3]);
    assert(s5 == spec_refresh_state(s4, times[4]));
    assert(s5.outgoing[id] == spec_refresh_slot(s4.outgoing[id], times[4]));
    assert(s5.outgoing[id] is None);
    lemma_freed_contains(s4, times[4], 0, id);
    let freed = spec_refresh_freed(s4, times[4], 0);
    let w = choose|w: int| 0 <= w < freed.len() && freed[w] == id as u8;
    assert(s5.unused_ids[s4.unused_ids.len() + w] == id as u8);
}

} // verus!
