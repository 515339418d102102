//! The command dispatcher: interprets a completed message as a typed command
//! or an opaque data payload, runs the protocol action on the session, and
//! queues the replies and worker directives for the caller to deliver.

use vstd::prelude::*;

use crate::command::Command;
use crate::command::CommandValue;
use crate::credential_manager::BridgeBotCredentials;
use crate::errors::ProtocolError;
use crate::matrix_message::MatrixBotControlMessage;
use crate::matrix_message::MatrixBotInfo;
use crate::matrix_message::MatrixMessage;
use crate::user::OutboundBlock;
use crate::user::User;

verus! {

use vstd::string::StringSliceAdditionalSpecFns;
use vstd::utf8::decode_utf8;
use vstd::utf8::encode_utf8;
use vstd::utf8::valid_utf8;

use crate::command::spec_matching_command;
use crate::command::CMD_AUTHENTICATION_RESULT;
use crate::command::CMD_BLOCK_ACK;
use crate::command::CMD_DHKE_INIT;
use crate::command::CMD_DOMAIN_UPDATE;
use crate::command::CMD_ERROR;
use crate::command::CMD_INVALID_COMMAND;
use crate::command::CMD_SIGN_OUT_SUCCESS;
use crate::command::CMD_TARGET_USER_NOT_FOUND;
use crate::command::CMD_UNENCRYPTED;
use crate::command::CMD_UNKNOWN_DOMAIN;
use crate::credential_manager::bcrypt_verification;
use crate::text::bytes_eq;
use crate::text::copy_bytes;
use crate::text::lower_of;
use crate::text::str_from_bytes;
use crate::text::sub_bytes;
use crate::text::tail_bytes;
use crate::text::to_lowercase;
use crate::user::spec_find_bot;
use crate::user::spec_process_ack;
use crate::user::spec_retire;
use crate::user::AuthenticateOutcome;
use crate::user::SessionModel;

/// One typed reply the dispatcher queues; the caller turns it into wire
/// blocks with [`send_command`].
pub struct Reply {
    pub command: u8,
    pub payload: Vec<u8>,
    pub needs_ack: bool,
}

/// The (command byte, payload, needs-ack) view of queued replies.
pub open spec fn reply_views(v: Seq<Reply>) -> Seq<(u8, Seq<u8>, bool)> {
    Seq::new(v.len(), |i: int| (v[i].command, v[i].payload@, v[i].needs_ack))
}

/// Work the dispatcher hands to the surrounding loop, because only it can
/// talk to the bridge-bot workers.
#[allow(inconsistent_fields)]
pub enum BridgeDirective {
    /// Hand a data message to the worker of the named platform.
    RelayMessage { platform_idx: usize, message: MatrixMessage },
    /// Put a control message on the named worker's control channel.
    SendControl { platform_idx: usize, message: MatrixBotControlMessage },
    /// Start a worker for the named credential, register it with
    /// [`User::register_bot`], and answer with
    /// [`complete_authentication`]'s reply.
    SpawnBot { credential_idx: usize, msg_id: u8 },
}

/// UTF-8 bytes lowercased as `str::to_lowercase` would.
pub open spec fn spec_lowered(b: Seq<u8>) -> Seq<u8> {
    encode_utf8(lower_of(decode_utf8(b)))
}

/// The first NUL at or after position `i`.
pub open spec fn spec_first_nul(p: Seq<u8>, i: int) -> Option<int>
    decreases p.len() - i,
{
    if i < 0 || i >= p.len() {
        None
    } else if p[i] == 0 {
        Some(i)
    } else {
        spec_first_nul(p, i + 1)
    }
}

/// The last NUL at or before position `i`.
pub open spec fn spec_last_nul(p: Seq<u8>, i: int) -> Option<int>
    decreases i + 1,
{
    if i < 0 || i >= p.len() {
        None
    } else if p[i] == 0 {
        Some(i)
    } else {
        spec_last_nul(p, i - 1)
    }
}

/// An authentication payload split at its first and last NUL into service
/// name, username and password; fewer than two NULs is malformed.
pub open spec fn spec_auth_split(p: Seq<u8>) -> Option<(Seq<u8>, Seq<u8>, Seq<u8>)> {
    match spec_first_nul(p, 0) {
        None => None,
        Some(f) => match spec_last_nul(p, p.len() - 1) {
            None => None,
            Some(l) => {
                if l == f {
                    None
                } else {
                    Some((p.take(f), p.subrange(f + 1, l), p.skip(l + 1)))
                }
            },
        },
    }
}

/// The first credential at or after position `j` whose (lowercased) service
/// name and username match the given lowercased bytes.
pub open spec fn spec_find_cred(
    creds: Seq<BridgeBotCredentials>,
    svc: Seq<u8>,
    usr: Seq<u8>,
    j: int,
) -> Option<int>
    decreases creds.len() - j,
{
    if j < 0 || j >= creds.len() {
        None
    } else if encode_utf8(creds[j].service_name@) == svc && encode_utf8(creds[j].username@)
        == usr {
        Some(j)
    } else {
        spec_find_cred(creds, svc, usr, j + 1)
    }
}

/// The domain-list payload: every bot's client name, NUL-separated.
pub open spec fn spec_domain_list(bots: Seq<MatrixBotInfo>, i: int) -> Seq<u8>
    decreases bots.len() - i,
{
    if i < 0 || i >= bots.len() {
        Seq::empty()
    } else {
        encode_utf8(bots[i].bot_client_name@) + (if i + 1 < bots.len() {
            seq![0u8]
        } else {
            Seq::<u8>::empty()
        }) + spec_domain_list(bots, i + 1)
    }
}

/// Everything an authentication command does, given the session state after
/// the message is retired: how the state changes, which replies go out, and
/// whether a new worker must be spawned (credential index and message id).
#[verifier::ext_equal]
pub ghost struct AuthOutcome {
    pub state: SessionModel,
    pub replies: Seq<(u8, Seq<u8>, bool)>,
    pub spawn: Option<(int, u8)>,
}

/// One reply and nothing else.
pub open spec fn spec_auth_reply(s1: SessionModel, command: u8, payload: Seq<u8>) -> AuthOutcome {
    AuthOutcome { state: s1, replies: seq![(command, payload, false)], spawn: None }
}

/// The outcome of an `AuthenticateToAccount` payload `q` against the
/// credential set: malformed or badly encoded payloads are refused; a
/// matching credential is verified with bcrypt (failing closed on a verifier
/// error); a verified bot already attached is returned idempotently; a
/// verified new bot requires a spawn.
pub open spec fn spec_auth_outcome(
    s1: SessionModel,
    creds: Seq<BridgeBotCredentials>,
    q: Seq<u8>,
    msg_id: u8,
) -> AuthOutcome {
    match spec_auth_split(q) {
        None => spec_auth_reply(
            s1,
            CMD_INVALID_COMMAND,
            "Insufficient data in request".spec_bytes(),
        ),
        Some((sb, ub, pw)) => {
            if !valid_utf8(sb) {
                spec_auth_reply(
                    s1,
                    CMD_INVALID_COMMAND,
                    "Service name is not valid UTF-8".spec_bytes(),
                )
            } else if !valid_utf8(ub) {
                spec_auth_reply(
                    s1,
                    CMD_INVALID_COMMAND,
                    "Username is not valid UTF-8".spec_bytes(),
                )
            } else {
                match spec_find_cred(creds, spec_lowered(sb), spec_lowered(ub), 0) {
                    None => spec_auth_reply(
                        s1,
                        CMD_AUTHENTICATION_RESULT,
                        seq![0u8] + "User not found".spec_bytes(),
                    ),
                    Some(j) => {
                        let cred = creds[j];
                        match bcrypt_verification(pw, cred.password_hash()) {
                            None => spec_auth_reply(
                                s1,
                                CMD_ERROR,
                                "Password verification failed".spec_bytes(),
                            ),
                            Some(false) => spec_auth_reply(
                                s1,
                                CMD_AUTHENTICATION_RESULT,
                                seq![0u8],
                            ),
                            Some(true) => {
                                if s1.bots.len() >= 256 {
                                    spec_auth_reply(
                                        s1,
                                        CMD_ERROR,
                                        "Bot limit of 256 reached".spec_bytes(),
                                    )
                                } else {
                                    match spec_find_bot(s1.bots, cred.bot_address@, 0) {
                                        Some(i) => AuthOutcome {
                                            state: SessionModel {
                                                latest_channel_list:
                                                    s1.latest_channel_list.update(i, false),
                                                ..s1
                                            },
                                            replies: seq![
                                                (
                                                    CMD_AUTHENTICATION_RESULT,
                                                    seq![1u8, msg_id, i as u8],
                                                    false,
                                                ),
                                            ],
                                            spawn: None,
                                        },
                                        None => AuthOutcome {
                                            state: s1,
                                            replies: Seq::empty(),
                                            spawn: Some((j, msg_id)),
                                        },
                                    }
                                }
                            },
                        }
                    },
                }
            }
        },
    }
}

/// Characterizes `spec_first_nul` from a completed forward scan.
proof fn lemma_first_nul_from(p: Seq<u8>, i: int, f: int)
    requires
        0 <= i <= f < p.len(),
        p[f] == 0,
        forall|k: int| i <= k < f ==> p[k] != 0,
    ensures
        spec_first_nul(p, i) == Some(f),
    decreases f - i,
{
    if i < f {
        lemma_first_nul_from(p, i + 1, f);
    }
}

/// A scan that saw no NUL pins `spec_first_nul` to nothing.
proof fn lemma_first_nul_none(p: Seq<u8>, i: int)
    requires
        0 <= i,
        forall|k: int| i <= k < p.len() ==> p[k] != 0,
    ensures
        spec_first_nul(p, i) is None,
    decreases p.len() - i,
{
    if i < p.len() {
        lemma_first_nul_none(p, i + 1);
    }
}

/// Characterizes `spec_last_nul` from a completed backward view.
proof fn lemma_last_nul_from(p: Seq<u8>, i: int, l: int)
    requires
        0 <= l <= i < p.len(),
        p[l] == 0,
        forall|k: int| l < k <= i ==> p[k] != 0,
    ensures
        spec_last_nul(p, i) == Some(l),
    decreases i - l,
{
    if l < i {
        lemma_last_nul_from(p, i - 1, l);
    }
}

/// Splits an authentication payload at its first and last NUL, with the
/// bytes between them as the username; fewer than two NULs is malformed.
fn split_auth_payload(p: &Vec<u8>) -> (r: Option<(Vec<u8>, Vec<u8>, Vec<u8>)>)
    ensures
        (match (r, spec_auth_split(p@)) {
            (Some(t), Some(st)) => t.0@ == st.0 && t.1@ == st.1 && t.2@ == st.2,
            (None, None) => true,
            _ => false,
        }),
{
    let mut first: usize = 0;
    let mut first_set = false;
    let mut last: usize = 0;
    let mut last_set = false;
    let mut i: usize = 0;
    while i < p.len()
        invariant
            i <= p@.len(),
            first_set ==> first < i && p@[first as int] == 0 && (forall|k: int|
                0 <= k < first ==> p@[k] != 0),
            !first_set ==> (forall|k: int| 0 <= k < i ==> p@[k] != 0) && first == 0 && !last_set,
            last_set ==> first_set && first < last && last < i && p@[last as int] == 0 && (forall|
                k: int,
            |
                last < k < i ==> p@[k] != 0),
            first_set && !last_set ==> (forall|k: int| first < k < i ==> p@[k] != 0),
        decreases p@.len() - i,
    {
        if p[i] == 0 {
            if !first_set {
                first = i;
                first_set = true;
            } else {
                last = i;
                last_set = true;
            }
        }
        i += 1;
    }
    if !first_set {
        proof {
            lemma_first_nul_none(p@, 0);
        }
        return None;
    }
    if !last_set {
        proof {
            lemma_first_nul_from(p@, 0, first as int);
            lemma_last_nul_from(p@, p@.len() - 1, first as int);
        }
        return None;
    }
    proof {
        lemma_first_nul_from(p@, 0, first as int);
        lemma_last_nul_from(p@, p@.len() - 1, last as int);
    }
    let service = sub_bytes(p, 0, first);
    let username = sub_bytes(p, first + 1, last);
    let password = tail_bytes(p, last + 1);
    Some((service, username, password))
}

/// Builds the NUL-separated list of every bot's client name.
fn build_domain_list(bots: &Vec<MatrixBotInfo>) -> (r: Vec<u8>)
    ensures
        r@ == spec_domain_list(bots@, 0),
{
    let mut r: Vec<u8> = Vec::new();
    let mut i: usize = 0;
    while i < bots.len()
        invariant
            i <= bots@.len(),
            r@ + spec_domain_list(bots@, i as int) == spec_domain_list(bots@, 0),
        decreases bots@.len() - i,
    {
        let ghost before = r@;
        let mut name = bots[i].bot_client_name.as_str().as_bytes_vec();
        let ghost name_bytes = name@;
        r.append(&mut name);
        if i + 1 < bots.len() {
            r.push(0);
        }
        proof {
            if i + 1 < bots@.len() {
                assert(r@ =~= before + name_bytes + seq![0u8]);
            } else {
                assert(r@ =~= before + name_bytes);
            }
            assert(r@ + spec_domain_list(bots@, i + 1) =~= spec_domain_list(bots@, 0));
        }
        i += 1;
    }
    proof {
        assert(r@ =~= spec_domain_list(bots@, 0));
    }
    r
}

/// Appends one reply.
fn push_reply(replies: &mut Vec<Reply>, command: u8, payload: Vec<u8>, needs_ack: bool)
    ensures
        reply_views(final(replies)@) == reply_views(old(replies)@).push(
            (command, payload@, needs_ack),
        ),
{
    let ghost before = replies@;
    replies.push(Reply { command, payload, needs_ack });
    proof {
        assert(reply_views(replies@) =~~= reply_views(before).push((command, payload@, needs_ack)));
    }
}

/// What the dispatcher promises for one completed message, stated over the
/// session state `s1` left after the message is retired from the inbound
/// table. The first component constrains the replies, the second the final
/// session state; directives are constrained separately per case.
pub open spec fn spec_dispatch_deterministic(
    s1: SessionModel,
    creds: Seq<BridgeBotCredentials>,
    m: crate::message::MessageModel,
    msg_id: u8,
) -> (Seq<(u8, Seq<u8>, bool)>, SessionModel) {
    let p = m.payload;
    let q = p.skip(1);
    match spec_matching_command(p) {
        Err(_) => (seq![(CMD_INVALID_COMMAND, "malformed command".spec_bytes(), false)], s1),
        Ok(cmd) => {
            if cmd == CommandValue::DhkeInit {
                (Seq::empty(), s1)  // handled separately: the reply holds a fresh public key
            } else if !s1.is_encrypted {
                (
                    seq![
                        (
                            CMD_UNENCRYPTED,
                            "Commands beyond INIT cannot be sent before encryption is complete".spec_bytes(),
                            false,
                        ),
                    ],
                    s1,
                )
            } else if cmd == CommandValue::AuthenticateToAccount {
                let o = spec_auth_outcome(s1, creds, q, msg_id);
                (o.replies, o.state)
            } else if cmd == CommandValue::RequestKnownUsers {
                if q.len() < 1 {
                    (seq![(CMD_INVALID_COMMAND, "Missing domain index".spec_bytes(), false)], s1)
                } else if (q[0] as int) >= s1.bots.len() {
                    (seq![(CMD_INVALID_COMMAND, "No such domain".spec_bytes(), false)], s1)
                } else {
                    (
                        Seq::empty(),
                        SessionModel {
                            latest_channel_list: s1.latest_channel_list.update(q[0] as int, false),
                            ..s1
                        },
                    )
                }
            } else if cmd == CommandValue::RequestDomains {
                (
                    seq![(CMD_DOMAIN_UPDATE, spec_domain_list(s1.bots, 0), true)],
                    SessionModel { latest_domain_info: false, ..s1 },
                )
            } else if cmd == CommandValue::BlockAck {
                let (s2, res) = spec_process_ack(s1, q);
                (
                    if res == Err::<(), ProtocolError>(ProtocolError::MissingBlockId) {
                        seq![(CMD_INVALID_COMMAND, "Missing block id".spec_bytes(), false)]
                    } else {
                        Seq::empty()
                    },
                    s2,
                )
            } else if cmd == CommandValue::SignOut {
                if q.len() < 1 {
                    (seq![(CMD_INVALID_COMMAND, Seq::<u8>::empty(), false)], s1)
                } else if (q[0] as int) < s1.bots.len() {
                    (
                        seq![(CMD_SIGN_OUT_SUCCESS, seq![q[0]], true)],
                        SessionModel {
                            bots: s1.bots.remove(q[0] as int),
                            latest_channel_list: s1.latest_channel_list.remove(q[0] as int),
                            ..s1
                        },
                    )
                } else {
                    (seq![(CMD_INVALID_COMMAND, Seq::<u8>::empty(), false)], s1)
                }
            } else if cmd == CommandValue::RevokeAllClients {
                (seq![(CMD_ERROR, "Unimplemented".spec_bytes(), false)], s1)
            } else {
                (seq![(CMD_INVALID_COMMAND, "Unknown Command".spec_bytes(), false)], s1)
            }
        },
    }
}

/// What the dispatcher promises for a completed data (non-command) message.
pub open spec fn spec_dispatch_data(
    s1: SessionModel,
    m: crate::message::MessageModel,
) -> (Seq<(u8, Seq<u8>, bool)>, SessionModel) {
    let p = m.payload;
    if !s1.is_encrypted {
        (
            seq![
                (
                    CMD_UNENCRYPTED,
                    "Messages cannot be sent before encryption is complete".spec_bytes(),
                    false,
                ),
            ],
            s1,
        )
    } else if p.len() < 3 {
        (seq![(CMD_INVALID_COMMAND, "Malformed DAT payload".spec_bytes(), false)], s1)
    } else if p[1] as int >= s1.bots.len() {
        (seq![(CMD_UNKNOWN_DOMAIN, Seq::<u8>::empty(), false)], s1)
    } else if p[0] as int >= s1.bots[p[1] as int].num_channels {
        (seq![(CMD_TARGET_USER_NOT_FOUND, Seq::<u8>::empty(), false)], s1)
    } else if !valid_utf8(p.skip(2)) {
        (seq![(CMD_ERROR, "Malformed UTF-8 Data".spec_bytes(), false)], s1)
    } else {
        (Seq::empty(), s1)
    }
}

/// Interprets one completed message from the inbound table: a typed command
/// runs its protocol action against the session, an opaque data payload is
/// checked and handed to its bridge worker. Returns the replies to send and
/// the directives for the worker loop; a completed multipart message is
/// retired from the table first, a singlepart one stays for its idempotency
/// window. No input, however malformed, panics: bad payloads earn typed
/// replies.
pub fn process_message(
    sender: &mut User,
    msg_id: u8,
    bot_credentials: &Vec<BridgeBotCredentials>,
) -> (r: (Vec<Reply>, Vec<BridgeDirective>))
    requires
        old(sender).wf(),
        msg_id < 32,
    ensures
        final(sender).wf(),
        ({
            let slot = old(sender)@.messages[msg_id as int];
            match slot {
                None => final(sender)@ == old(sender)@ && r.0@.len() == 0 && r.1@.len() == 0,
                Some(m) => {
                    let s1 = spec_retire(old(sender)@, msg_id as int, m.is_multipart);
                    let p = m.payload;
                    let q = p.skip(1);
                    if m.is_command && spec_matching_command(p) == Ok::<CommandValue, ()>(
                        CommandValue::DhkeInit,
                    ) {
                        &&& r.1@.len() == s1.bots.len()
                        &&& (forall|i: int|
                            0 <= i < r.1@.len() ==> (#[trigger] r.1@[i] matches
                                BridgeDirective::SendControl { platform_idx, message }
                                && platform_idx == i && (message matches
                            MatrixBotControlMessage::TerminateBot)))
                        &&& (q.len() == 32 ==> final(sender).is_encrypted
                            && final(sender)@.shared_secret.len() == 32 && final(sender)@
                            == (SessionModel {
                            bots: Seq::empty(),
                            latest_channel_list: Seq::empty(),
                            is_encrypted: true,
                            shared_secret: final(sender)@.shared_secret,
                            ..s1
                        }) && reply_views(r.0@).len() == 1 && reply_views(r.0@)[0].0
                            == CMD_DHKE_INIT && reply_views(r.0@)[0].1.len() == 32 && reply_views(
                            r.0@,
                        )[0].2 == false)
                        &&& (q.len() != 32 ==> final(sender)@ == (SessionModel {
                            bots: Seq::empty(),
                            latest_channel_list: Seq::empty(),
                            ..s1
                        }) && reply_views(r.0@) == seq![
                            (CMD_ERROR, "Bad sized key".spec_bytes(), false),
                        ])
                    } else if m.is_command {
                        let (rv, s2) = spec_dispatch_deterministic(
                            s1,
                            bot_credentials@,
                            m,
                            msg_id,
                        );
                        &&& reply_views(r.0@) == rv
                        &&& final(sender)@ == s2
                        &&& ({
                            // the directives, case by case
                            match spec_matching_command(p) {
                                Err(_) => r.1@.len() == 0,
                                Ok(cmd) => {
                                    if !s1.is_encrypted {
                                        r.1@.len() == 0
                                    } else if cmd == CommandValue::AuthenticateToAccount {
                                        let o = spec_auth_outcome(
                                            s1,
                                            bot_credentials@,
                                            q,
                                            msg_id,
                                        );
                                        match o.spawn {
                                            None => r.1@.len() == 0,
                                            Some((j, mid)) => r.1@.len() == 1 && (r.1@[0] matches
                                                BridgeDirective::SpawnBot {
                                                    credential_idx,
                                                    msg_id: m2,
                                                } && credential_idx == j && m2 == mid),
                                        }
                                    } else if cmd == CommandValue::RequestKnownUsers && q.len()
                                        >= 1 && (q[0] as int) < s1.bots.len() {
                                        r.1@.len() == 1 && (r.1@[0] matches
                                            BridgeDirective::SendControl { platform_idx, message }
                                            && platform_idx == q[0] as int && (message matches
                                        MatrixBotControlMessage::RequestChannels { domain_idx }
                                            && domain_idx == q[0]))
                                    } else if cmd == CommandValue::SignOut && q.len() >= 1 && (
                                    q[0] as int) < s1.bots.len() {
                                        r.1@.len() == 1 && (r.1@[0] matches
                                            BridgeDirective::SendControl { platform_idx, message }
                                            && platform_idx == q[0] as int && (message matches
                                        MatrixBotControlMessage::TerminateBot))
                                    } else {
                                        r.1@.len() == 0
                                    }
                                },
                            }
                        })
                    } else {
                        let (rv, s2) = spec_dispatch_data(s1, m);
                        &&& reply_views(r.0@) == rv
                        &&& final(sender)@ == s2
                        &&& (if s1.is_encrypted && p.len() >= 3 && (p[1] as int) < s1.bots.len()
                            && (p[0] as int) < s1.bots[p[1] as int].num_channels && valid_utf8(
                            p.skip(2),
                        ) {
                            r.1@.len() == 1 && (r.1@[0] matches BridgeDirective::RelayMessage {
                                platform_idx,
                                message,
                            } && platform_idx == p[1] as int && message.room_idx == p[0] as int
                                && message.content@ == decode_utf8(p.skip(2))
                                && message.display_name@.len() == 0)
                        } else {
                            r.1@.len() == 0
                        })
                    }
                },
            }
        }),
{
    let idu = msg_id as usize;
    let mut replies: Vec<Reply> = Vec::new();
    let mut directives: Vec<BridgeDirective> = Vec::new();
    let (is_cmd, is_mp, payload) = match &sender.messages[idu] {
        Some(m) => (m.is_command, m.is_multipart, copy_bytes(&m.payload)),
        None => {
            return (replies, directives);
        },
    };
    let ghost m = match old(sender)@.messages[msg_id as int] {
        Some(m) => m,
        None => arbitrary(),
    };
    if is_mp {
        sender.messages[idu] = None;
    }
    let ghost s1 = spec_retire(old(sender)@, msg_id as int, is_mp);
    proof {
        if is_mp {
            assert(sender@.messages =~= old(sender)@.messages.update(msg_id as int, None));
        }
        assert(sender@ =~= s1);
    }
    if is_cmd {
        let command_type = match Command::get_matching_command(&payload) {
            Ok(c) => c,
            Err(_) => {
                push_reply(&mut replies, CMD_INVALID_COMMAND, "malformed command".as_bytes_vec(), false);
                return (replies, directives);
            },
        };
        let actual = tail_bytes(&payload, 1);
        match command_type {
            CommandValue::DhkeInit => {
                let nbots = sender.matrix_bots.len();
                let mut i: usize = 0;
                while i < nbots
                    invariant
                        i <= nbots,
                        directives@.len() == i,
                        forall|t: int|
                            0 <= t < i ==> (#[trigger] directives@[t] matches
                                BridgeDirective::SendControl { platform_idx, message }
                                && platform_idx == t && (message matches
                            MatrixBotControlMessage::TerminateBot)),
                    decreases nbots - i,
                {
                    directives.push(
                        BridgeDirective::SendControl {
                            platform_idx: i,
                            message: MatrixBotControlMessage::TerminateBot,
                        },
                    );
                    i += 1;
                }
                sender.revoke_all_bots();
                match sender.key_exchange(&actual) {
                    Ok(pk) => {
                        push_reply(&mut replies, CMD_DHKE_INIT, pk, false);
                    },
                    Err(_) => {
                        push_reply(&mut replies, CMD_ERROR, "Bad sized key".as_bytes_vec(), false);
                    },
                }
                return (replies, directives);
            },
            _ => {},
        }
        if !sender.is_encrypted {
            push_reply(
                &mut replies,
                CMD_UNENCRYPTED,
                "Commands beyond INIT cannot be sent before encryption is complete".as_bytes_vec(),
                false,
            );
            return (replies, directives);
        }
        match command_type {
            CommandValue::AuthenticateToAccount => {
                let split = split_auth_payload(&actual);
                let (service_b, username_b, password_b) = match split {
                    Some(t) => t,
                    None => {
                        push_reply(
                            &mut replies,
                            CMD_INVALID_COMMAND,
                            "Insufficient data in request".as_bytes_vec(),
                            false,
                        );
                        return (replies, directives);
                    },
                };
                let service_s = match str_from_bytes(service_b.as_slice()) {
                    Some(s) => s,
                    None => {
                        push_reply(
                            &mut replies,
                            CMD_INVALID_COMMAND,
                            "Service name is not valid UTF-8".as_bytes_vec(),
                            false,
                        );
                        return (replies, directives);
                    },
                };
                let service_l = to_lowercase(service_s);
                let username_s = match str_from_bytes(username_b.as_slice()) {
                    Some(s) => s,
                    None => {
                        push_reply(
                            &mut replies,
                            CMD_INVALID_COMMAND,
                            "Username is not valid UTF-8".as_bytes_vec(),
                            false,
                        );
                        return (replies, directives);
                    },
                };
                let username_l = to_lowercase(username_s);
                let ghost svc_l = spec_lowered(service_b@);
                let ghost usr_l = spec_lowered(username_b@);
                proof {
                    assert(encode_utf8(service_l@) == svc_l);
                    assert(encode_utf8(username_l@) == usr_l);
                }
                let mut j: usize = 0;
                while j < bot_credentials.len()
                    invariant
                        j <= bot_credentials@.len(),
                        sender.wf(),
                        sender@ == s1,
                        msg_id < 32,
                        replies@.len() == 0,
                        directives@.len() == 0,
                        old(sender)@.messages[msg_id as int] == Some(m),
                        s1 == spec_retire(old(sender)@, msg_id as int, m.is_multipart),
                        s1.is_encrypted,
                        m.is_command,
                        spec_matching_command(m.payload) == Ok::<CommandValue, ()>(
                            CommandValue::AuthenticateToAccount,
                        ),
                        actual@ == m.payload.skip(1),
                        spec_auth_split(actual@) == Some(
                            (service_b@, username_b@, password_b@),
                        ),
                        valid_utf8(service_b@),
                        valid_utf8(username_b@),
                        svc_l == spec_lowered(service_b@),
                        usr_l == spec_lowered(username_b@),
                        encode_utf8(service_l@) == svc_l,
                        encode_utf8(username_l@) == usr_l,
                        spec_find_cred(bot_credentials@, svc_l, usr_l, 0) == spec_find_cred(
                            bot_credentials@,
                            svc_l,
                            usr_l,
                            j as int,
                        ),
                    decreases bot_credentials@.len() - j,
                {
                    let svc_match = bytes_eq(
                        service_l.as_str().as_bytes(),
                        bot_credentials[j].service_name.as_str().as_bytes(),
                    );
                    let usr_match = bytes_eq(
                        username_l.as_str().as_bytes(),
                        bot_credentials[j].username.as_str().as_bytes(),
                    );
                    if svc_match && usr_match {
                        proof {
                            assert(spec_find_cred(bot_credentials@, svc_l, usr_l, j as int)
                                == Some(j as int));
                        }
                        match bot_credentials[j].validate_credentials(
                            username_l.as_str(),
                            password_b.as_slice(),
                        ) {
                            Ok(true) => {
                                match sender.authenticate(&bot_credentials[j]) {
                                    AuthenticateOutcome::Existing(idx) => {
                                        let mut pl: Vec<u8> = Vec::new();
                                        pl.push(1);
                                        pl.push(msg_id);
                                        pl.push(idx);
                                        proof {
                                            assert(pl@ =~= seq![1u8, msg_id, idx]);
                                        }
                                        push_reply(
                                            &mut replies,
                                            CMD_AUTHENTICATION_RESULT,
                                            pl,
                                            false,
                                        );
                                    },
                                    AuthenticateOutcome::LimitReached => {
                                        push_reply(
                                            &mut replies,
                                            CMD_ERROR,
                                            "Bot limit of 256 reached".as_bytes_vec(),
                                            false,
                                        );
                                    },
                                    AuthenticateOutcome::NewBotRequired => {
                                        directives.push(
                                            BridgeDirective::SpawnBot { credential_idx: j, msg_id },
                                        );
                                    },
                                }
                            },
                            Ok(false) => {
                                let mut pl: Vec<u8> = Vec::new();
                                pl.push(0);
                                proof {
                                    assert(pl@ =~= seq![0u8]);
                                }
                                push_reply(&mut replies, CMD_AUTHENTICATION_RESULT, pl, false);
                            },
                            Err(_) => {
                                push_reply(
                                    &mut replies,
                                    CMD_ERROR,
                                    "Password verification failed".as_bytes_vec(),
                                    false,
                                );
                            },
                        }
                        return (replies, directives);
                    }
                    j += 1;
                }
                let mut pl: Vec<u8> = Vec::new();
                pl.push(0);
                let mut nf = "User not found".as_bytes_vec();
                proof {
                    assert(pl@ + nf@ =~= seq![0u8] + "User not found".spec_bytes());
                }
                pl.append(&mut nf);
                push_reply(&mut replies, CMD_AUTHENTICATION_RESULT, pl, false);
                return (replies, directives);
            },
            CommandValue::RequestKnownUsers => {
                if actual.len() < 1 {
                    push_reply(
                        &mut replies,
                        CMD_INVALID_COMMAND,
                        "Missing domain index".as_bytes_vec(),
                        false,
                    );
                    return (replies, directives);
                }
                let domain_idx = actual[0];
                if (domain_idx as usize) >= sender.matrix_bots.len() {
                    push_reply(
                        &mut replies,
                        CMD_INVALID_COMMAND,
                        "No such domain".as_bytes_vec(),
                        false,
                    );
                    return (replies, directives);
                }
                sender.client_has_latest_channel_list[domain_idx as usize] = false;
                directives.push(
                    BridgeDirective::SendControl {
                        platform_idx: domain_idx as usize,
                        message: MatrixBotControlMessage::RequestChannels { domain_idx },
                    },
                );
                proof {
                    assert(sender@.latest_channel_list =~= s1.latest_channel_list.update(
                        domain_idx as int,
                        false,
                    ));
                    assert(sender@ =~= (SessionModel {
                        latest_channel_list: sender@.latest_channel_list,
                        ..s1
                    }));
                }
                return (replies, directives);
            },
            CommandValue::RequestDomains => {
                let pl = build_domain_list(&sender.matrix_bots);
                sender.client_has_latest_domain_info = false;
                push_reply(&mut replies, CMD_DOMAIN_UPDATE, pl, true);
                proof {
                    assert(sender@ =~= (SessionModel { latest_domain_info: false, ..s1 }));
                }
                return (replies, directives);
            },
            CommandValue::BlockAck => {
                match sender.process_block_ack(&actual) {
                    Ok(()) => {},
                    Err(e) => {
                        if e == ProtocolError::MissingBlockId {
                            push_reply(
                                &mut replies,
                                CMD_INVALID_COMMAND,
                                "Missing block id".as_bytes_vec(),
                                false,
                            );
                        }
                    },
                }
                return (replies, directives);
            },
            CommandValue::SignOut => {
                if actual.len() < 1 {
                    push_reply(&mut replies, CMD_INVALID_COMMAND, Vec::new(), false);
                    return (replies, directives);
                }
                let bot_index = actual[0];
                match sender.revoke_bot(bot_index as usize) {
                    Ok(()) => {
                        directives.push(
                            BridgeDirective::SendControl {
                                platform_idx: bot_index as usize,
                                message: MatrixBotControlMessage::TerminateBot,
                            },
                        );
                        let mut pl: Vec<u8> = Vec::new();
                        pl.push(bot_index);
                        proof {
                            assert(pl@ =~= seq![bot_index]);
                        }
                        push_reply(&mut replies, CMD_SIGN_OUT_SUCCESS, pl, true);
                    },
                    Err(()) => {
                        push_reply(&mut replies, CMD_INVALID_COMMAND, Vec::new(), false);
                    },
                }
                return (replies, directives);
            },
            CommandValue::RevokeAllClients => {
                push_reply(&mut replies, CMD_ERROR, "Unimplemented".as_bytes_vec(), false);
                return (replies, directives);
            },
            _ => {
                push_reply(&mut replies, CMD_INVALID_COMMAND, "Unknown Command".as_bytes_vec(), false);
                return (replies, directives);
            },
        }
    } else {
        if !sender.is_encrypted {
            push_reply(
                &mut replies,
                CMD_UNENCRYPTED,
                "Messages cannot be sent before encryption is complete".as_bytes_vec(),
                false,
            );
            return (replies, directives);
        }
        if payload.len() < 3 {
            push_reply(
                &mut replies,
                CMD_INVALID_COMMAND,
                "Malformed DAT payload".as_bytes_vec(),
                false,
            );
            return (replies, directives);
        }
        let user_idx = payload[0];
        let platform_idx = payload[1];
        if (platform_idx as usize) >= sender.matrix_bots.len() {
            push_reply(&mut replies, CMD_UNKNOWN_DOMAIN, Vec::new(), false);
            return (replies, directives);
        }
        if (user_idx as usize) >= sender.matrix_bots[platform_idx as usize].num_channels {
            push_reply(&mut replies, CMD_TARGET_USER_NOT_FOUND, Vec::new(), false);
            return (replies, directives);
        }
        let content_bytes = tail_bytes(&payload, 2);
        let content = match crate::text::string_from_utf8(content_bytes) {
            Some(c) => c,
            None => {
                push_reply(&mut replies, CMD_ERROR, "Malformed UTF-8 Data".as_bytes_vec(), false);
                return (replies, directives);
            },
        };
        directives.push(
            BridgeDirective::RelayMessage {
                platform_idx: platform_idx as usize,
                message: MatrixMessage {
                    room_idx: user_idx as usize,
                    display_name: String::new(),
                    content,
                },
            },
        );
        return (replies, directives);
    }
}

/// Wraps a payload under its command byte and sends it through the session:
/// the wire message is the command byte followed by the payload, tracked for
/// retry exactly when the reply demands acknowledgment.
pub fn send_command(
    sender: &mut User,
    command_type: u8,
    payload: &Vec<u8>,
    needs_ack: bool,
    now_ms: u64,
) -> (r: Result<Vec<OutboundBlock>, ProtocolError>)
    requires
        old(sender).wf(),
    ensures
        final(sender).wf(),
        ({
            let m = seq![command_type] + payload@;
            &&& (m.len() > crate::user::MAX_PAYLOAD_OCTETS ==> r == Err::<
                Vec<OutboundBlock>,
                ProtocolError,
            >(ProtocolError::PayloadTooLarge) && final(sender)@ == old(sender)@)
            &&& (m.len() <= crate::user::MAX_PAYLOAD_OCTETS && old(sender).unused_ids@.len() == 0
                ==> r == Err::<Vec<OutboundBlock>, ProtocolError>(ProtocolError::NoFreeMessageId)
                && final(sender)@ == old(sender)@)
            &&& (m.len() <= crate::user::MAX_PAYLOAD_OCTETS && old(sender).unused_ids@.len() > 0
                ==> ({
                let id = old(sender).unused_ids@.last();
                let n = crate::user::spec_chunk_count(m.len() as int);
                let c = crate::user::spec_chunk(m, id, true);
                &&& (r matches Ok(v) && v@.len() == n && (forall|j: int|
                    0 <= j < n ==> (#[trigger] v@[j]).msg_id == id && v@[j].block_idx == j as u8
                        && v@[j].data@ == c[j]))
                &&& final(sender)@ == (SessionModel {
                    unused_ids: if needs_ack {
                        old(sender).unused_ids@.drop_last()
                    } else {
                        old(sender).unused_ids@
                    },
                    outgoing: if needs_ack {
                        old(sender)@.outgoing.update(
                            id as int,
                            Some(crate::user::spec_outgoing_new(m, id, true, now_ms)),
                        )
                    } else {
                        old(sender)@.outgoing
                    },
                    ..old(sender)@
                })
            }))
        }),
{
    let mut msg: Vec<u8> = Vec::new();
    msg.push(command_type);
    let mut rest = copy_bytes(payload);
    msg.append(&mut rest);
    proof {
        assert(msg@ =~= seq![command_type] + payload@);
    }
    sender.send_message(msg, true, needs_ack, now_ms)
}

/// Builds and sends the acknowledgment for one received block: the block-ack
/// command byte, the message id, the block index.
pub fn send_block_ack(sender: &mut User, block_idx: u8, new_block_msgid: u8, now_ms: u64) -> (r:
    Result<Vec<OutboundBlock>, ProtocolError>)
    requires
        old(sender).wf(),
    ensures
        final(sender).wf(),
        old(sender).unused_ids@.len() > 0 ==> ({
            let m = seq![CMD_BLOCK_ACK, new_block_msgid, block_idx];
            let id = old(sender).unused_ids@.last();
            let c = crate::user::spec_chunk(m, id, true);
            &&& (r matches Ok(v) && v@.len() == 1 && v@[0].msg_id == id && v@[0].block_idx == 0
                && v@[0].data@ == c[0])
            &&& final(sender)@ == old(sender)@
        }),
        old(sender).unused_ids@.len() == 0 ==> r == Err::<Vec<OutboundBlock>, ProtocolError>(
            ProtocolError::NoFreeMessageId,
        ) && final(sender)@ == old(sender)@,
{
    let mut payload: Vec<u8> = Vec::new();
    payload.push(new_block_msgid);
    payload.push(block_idx);
    let r = send_command(sender, CMD_BLOCK_ACK, &payload, false, now_ms);
    proof {
        assert(seq![CMD_BLOCK_ACK] + payload@ =~= seq![CMD_BLOCK_ACK, new_block_msgid, block_idx]);
    }
    r
}

/// The channel-list payload of one worker's update: every channel's display
/// name, NUL-separated.
pub open spec fn spec_channel_list(channels: Seq<crate::matrix_message::MatrixChannelInfo>, i: int) -> Seq<u8>
    decreases channels.len() - i,
{
    if i < 0 || i >= channels.len() {
        Seq::empty()
    } else {
        encode_utf8(channels[i].display_name@) + (if i + 1 < channels.len() {
            seq![0u8]
        } else {
            Seq::<u8>::empty()
        }) + spec_channel_list(channels, i + 1)
    }
}

/// Forwards a worker's refreshed channel list to the client: one
/// channel-update command carrying the domain index and the NUL-separated
/// display names; on success the client is marked as holding the latest list
/// for that domain.
pub fn handle_channel_update(
    sender: &mut User,
    domain_idx: u8,
    channels: &Vec<crate::matrix_message::MatrixChannelInfo>,
    now_ms: u64,
) -> (r: Result<Vec<OutboundBlock>, ProtocolError>)
    requires
        old(sender).wf(),
    ensures
        final(sender).wf(),
        ({
            let m = seq![crate::command::CMD_CHANNEL_UPDATE, domain_idx] + spec_channel_list(
                channels@,
                0,
            );
            &&& (m.len() > crate::user::MAX_PAYLOAD_OCTETS ==> r == Err::<
                Vec<OutboundBlock>,
                ProtocolError,
            >(ProtocolError::PayloadTooLarge) && final(sender)@ == old(sender)@)
            &&& (m.len() <= crate::user::MAX_PAYLOAD_OCTETS && old(sender).unused_ids@.len() == 0
                ==> r == Err::<Vec<OutboundBlock>, ProtocolError>(ProtocolError::NoFreeMessageId)
                && final(sender)@ == old(sender)@)
            &&& (m.len() <= crate::user::MAX_PAYLOAD_OCTETS && old(sender).unused_ids@.len() > 0
                ==> ({
                let id = old(sender).unused_ids@.last();
                let n = crate::user::spec_chunk_count(m.len() as int);
                let c = crate::user::spec_chunk(m, id, true);
                &&& (r matches Ok(v) && v@.len() == n && (forall|j: int|
                    0 <= j < n ==> (#[trigger] v@[j]).msg_id == id && v@[j].block_idx == j as u8
                        && v@[j].data@ == c[j]))
                &&& final(sender)@ == (SessionModel {
                    latest_channel_list: if domain_idx < old(sender)@.latest_channel_list.len() {
                        old(sender)@.latest_channel_list.update(domain_idx as int, true)
                    } else {
                        old(sender)@.latest_channel_list
                    },
                    ..old(sender)@
                })
            }))
        }),
{
    let mut payload: Vec<u8> = Vec::new();
    payload.push(domain_idx);
    let mut i: usize = 0;
    proof {
        assert(payload@ + spec_channel_list(channels@, 0) =~= seq![domain_idx]
            + spec_channel_list(channels@, 0));
    }
    while i < channels.len()
        invariant
            i <= channels@.len(),
            payload@ + spec_channel_list(channels@, i as int) == seq![domain_idx]
                + spec_channel_list(channels@, 0),
        decreases channels@.len() - i,
    {
        let ghost before = payload@;
        let mut name = channels[i].display_name.as_str().as_bytes_vec();
        let ghost name_bytes = name@;
        payload.append(&mut name);
        if i + 1 < channels.len() {
            payload.push(0);
        }
        proof {
            if i + 1 < channels@.len() {
                assert(payload@ =~= before + name_bytes + seq![0u8]);
            } else {
                assert(payload@ =~= before + name_bytes);
            }
            assert(payload@ + spec_channel_list(channels@, i + 1) =~= seq![domain_idx]
                + spec_channel_list(channels@, 0));
        }
        i += 1;
    }
    proof {
        assert(payload@ =~= seq![domain_idx] + spec_channel_list(channels@, 0));
    }
    let r = send_command(sender, crate::command::CMD_CHANNEL_UPDATE, &payload, false, now_ms);
    proof {
        assert(seq![crate::command::CMD_CHANNEL_UPDATE] + payload@ =~= seq![
            crate::command::CMD_CHANNEL_UPDATE,
            domain_idx,
        ] + spec_channel_list(channels@, 0));
    }
    match r {
        Ok(blocks) => {
            if (domain_idx as usize) < sender.client_has_latest_channel_list.len() {
                sender.client_has_latest_channel_list[domain_idx as usize] = true;
                proof {
                    assert(sender@.latest_channel_list =~= old(
                        sender,
                    )@.latest_channel_list.update(domain_idx as int, true));
                    assert(sender@ =~= (SessionModel {
                        latest_channel_list: sender@.latest_channel_list,
                        ..old(sender)@
                    }));
                }
            }
            Ok(blocks)
        },
        Err(e) => Err(e),
    }
}

/// Queues a chat message from a bridge worker for transmission to the
/// client: room index, platform index, then the message's UTF-8 content,
/// sent as a reliable data message.
pub fn queue_bridge_message(
    sender: &mut User,
    platform_idx: u8,
    message: &MatrixMessage,
    now_ms: u64,
) -> (r: Result<Vec<OutboundBlock>, ProtocolError>)
    requires
        old(sender).wf(),
    ensures
        final(sender).wf(),
        message.room_idx >= 256 ==> r == Err::<Vec<OutboundBlock>, ProtocolError>(
            ProtocolError::IndexTooLarge,
        ) && final(sender)@ == old(sender)@,
        message.room_idx < 256 ==> ({
            let m = seq![message.room_idx as u8, platform_idx] + encode_utf8(message.content@);
            &&& (m.len() > crate::user::MAX_PAYLOAD_OCTETS ==> r == Err::<
                Vec<OutboundBlock>,
                ProtocolError,
            >(ProtocolError::PayloadTooLarge) && final(sender)@ == old(sender)@)
            &&& (m.len() <= crate::user::MAX_PAYLOAD_OCTETS && old(sender).unused_ids@.len() == 0
                ==> r == Err::<Vec<OutboundBlock>, ProtocolError>(ProtocolError::NoFreeMessageId)
                && final(sender)@ == old(sender)@)
            &&& (m.len() <= crate::user::MAX_PAYLOAD_OCTETS && old(sender).unused_ids@.len() > 0
                ==> ({
                let id = old(sender).unused_ids@.last();
                let n = crate::user::spec_chunk_count(m.len() as int);
                let c = crate::user::spec_chunk(m, id, false);
                &&& (r matches Ok(v) && v@.len() == n && (forall|j: int|
                    0 <= j < n ==> (#[trigger] v@[j]).msg_id == id && v@[j].block_idx == j as u8
                        && v@[j].data@ == c[j]))
                &&& final(sender)@ == (SessionModel {
                    unused_ids: old(sender).unused_ids@.drop_last(),
                    outgoing: old(sender)@.outgoing.update(
                        id as int,
                        Some(crate::user::spec_outgoing_new(m, id, false, now_ms)),
                    ),
                    ..old(sender)@
                })
            }))
        }),
{
    if message.room_idx >= 256 {
        return Err(ProtocolError::IndexTooLarge);
    }
    let mut m: Vec<u8> = Vec::new();
    m.push(message.room_idx as u8);
    m.push(platform_idx);
    let mut content = message.content.as_str().as_bytes_vec();
    m.append(&mut content);
    proof {
        assert(m@ =~= seq![message.room_idx as u8, platform_idx] + encode_utf8(message.content@));
    }
    sender.send_message(m, false, true, now_ms)
}

/// The reply that completes a successful authentication once the new worker
/// is registered: success marker, the authenticated message's id, and the
/// bot's handle.
pub fn complete_authentication(msg_id: u8, domain_idx: u8) -> (r: Reply)
    ensures
        r.command == CMD_AUTHENTICATION_RESULT,
        r.payload@ == seq![1u8, msg_id, domain_idx],
        r.needs_ack == false,
{
    let mut payload: Vec<u8> = Vec::new();
    payload.push(1);
    payload.push(msg_id);
    payload.push(domain_idx);
    proof {
        assert(payload@ =~= seq![1u8, msg_id, domain_idx]);
    }
    Reply { command: CMD_AUTHENTICATION_RESULT, payload, needs_ack: false }
}

} // verus!
