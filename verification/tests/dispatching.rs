use boost::block::Block;
use boost::block::BlockReceivedAction;
use boost::command::CMD_AUTHENTICATION_RESULT;
use boost::command::CMD_DHKE_INIT;
use boost::command::CMD_DOMAIN_UPDATE;
use boost::command::CMD_ERROR;
use boost::command::CMD_INVALID_COMMAND;
use boost::command::CMD_SIGN_OUT_SUCCESS;
use boost::command::CMD_TARGET_USER_NOT_FOUND;
use boost::command::CMD_UNENCRYPTED;
use boost::command::CMD_UNKNOWN_DOMAIN;
use boost::credential_manager::BridgeBotCredentials;
use boost::dispatch::complete_authentication;
use boost::dispatch::process_message;
use boost::dispatch::send_block_ack;
use boost::dispatch::BridgeDirective;
use boost::matrix_message::MatrixBotControlMessage;
use boost::matrix_message::MatrixBotInfo;
use boost::user::User;

fn deliver(u: &mut User, msg_id: u8, is_command: bool, payload: &[u8]) {
    let header = boost::block::make_header(msg_id, is_command, false, false);
    let mut data = vec![header];
    data.extend_from_slice(payload);
    let b = Block::new("test_addr".to_string(), data);
    assert!(b.block_size_validation());
    let (action, _) = u.receive_block(&b, 0);
    assert!(action == BlockReceivedAction::ProcessMessage || action == BlockReceivedAction::ProcessNoAck);
}

fn encrypted_user() -> User {
    let mut u = User::new("test_addr".to_string(), false);
    u.key_exchange(&vec![7u8; 32]).unwrap();
    u
}

fn bot_info(name: &str) -> MatrixBotInfo {
    MatrixBotInfo {
        bot_address: format!("@{}:hs", name),
        platform: "discord".to_string(),
        bot_client_name: format!("{}@discord", name),
        num_channels: 3,
        channel_infos: vec![],
    }
}

#[test]
fn command_before_encryption_is_rejected() {
    let mut u = User::new("test_addr".to_string(), false);
    let creds = vec![];
    deliver(&mut u, 1, true, &[14, 0]); // sign-out before any key exchange
    let (replies, directives) = process_message(&mut u, 1, &creds);
    assert_eq!(replies.len(), 1);
    assert_eq!(replies[0].command, CMD_UNENCRYPTED);
    assert_eq!(directives.len(), 0);
    assert!(!u.is_encrypted);
}

#[test]
fn data_before_encryption_is_rejected() {
    let mut u = User::new("test_addr".to_string(), false);
    let creds = vec![];
    deliver(&mut u, 2, false, &[0, 0, b'h', b'i']);
    let (replies, directives) = process_message(&mut u, 2, &creds);
    assert_eq!(replies.len(), 1);
    assert_eq!(replies[0].command, CMD_UNENCRYPTED);
    assert_eq!(directives.len(), 0);
}

#[test]
fn key_exchange_command_encrypts_and_replies() {
    let mut u = User::new("test_addr".to_string(), false);
    let creds = vec![];
    let mut payload = vec![CMD_DHKE_INIT];
    payload.extend_from_slice(&[3u8; 32]);
    deliver(&mut u, 1, true, &payload);
    let (replies, directives) = process_message(&mut u, 1, &creds);
    assert_eq!(replies.len(), 1);
    assert_eq!(replies[0].command, CMD_DHKE_INIT);
    assert_eq!(replies[0].payload.len(), 32);
    assert_eq!(directives.len(), 0);
    assert!(u.is_encrypted);
}

#[test]
fn key_exchange_command_with_bad_key_length() {
    let mut u = User::new("test_addr".to_string(), false);
    let creds = vec![];
    let mut payload = vec![CMD_DHKE_INIT];
    payload.extend_from_slice(&[3u8; 16]);
    deliver(&mut u, 1, true, &payload);
    let (replies, _) = process_message(&mut u, 1, &creds);
    assert_eq!(replies.len(), 1);
    assert_eq!(replies[0].command, CMD_ERROR);
    assert_eq!(replies[0].payload, b"Bad sized key".to_vec());
    assert!(!u.is_encrypted);
}

#[test]
fn rekeying_revokes_bot_authorizations() {
    let mut u = encrypted_user();
    u.register_bot(bot_info("b1"));
    u.register_bot(bot_info("b2"));
    let creds = vec![];
    let mut payload = vec![CMD_DHKE_INIT];
    payload.extend_from_slice(&[5u8; 32]);
    deliver(&mut u, 1, true, &payload);
    let (replies, directives) = process_message(&mut u, 1, &creds);
    assert_eq!(replies.len(), 1);
    assert_eq!(directives.len(), 2);
    for (i, d) in directives.iter().enumerate() {
        match d {
            BridgeDirective::SendControl { platform_idx, message } => {
                assert_eq!(*platform_idx, i);
                assert!(matches!(message, MatrixBotControlMessage::TerminateBot));
            }
            _ => panic!("expected a terminate directive"),
        }
    }
    assert_eq!(u.matrix_bots.len(), 0);
    assert!(u.is_encrypted);
}

#[test]
fn unknown_command_byte_yields_invalid_command() {
    let mut u = encrypted_user();
    let creds = vec![];
    deliver(&mut u, 1, true, &[200, 1, 2]);
    let (replies, directives) = process_message(&mut u, 1, &creds);
    assert_eq!(replies.len(), 1);
    assert_eq!(replies[0].command, CMD_INVALID_COMMAND);
    assert_eq!(replies[0].payload, b"malformed command".to_vec());
    assert_eq!(directives.len(), 0);
}

#[test]
fn parsed_but_unhandled_command_yields_invalid_command() {
    let mut u = encrypted_user();
    let creds = vec![];
    deliver(&mut u, 1, true, &[8, 1]); // an inbound Error command has no handler
    let (replies, _) = process_message(&mut u, 1, &creds);
    assert_eq!(replies.len(), 1);
    assert_eq!(replies[0].command, CMD_INVALID_COMMAND);
    assert_eq!(replies[0].payload, b"Unknown Command".to_vec());
}

#[test]
fn authenticate_payload_missing_second_delimiter() {
    // An AuthenticateToAccount payload missing the second NUL delimiter
    // yields InvalidCommand with no side effects and no panic.
    let mut u = encrypted_user();
    let creds = vec![BridgeBotCredentials::new(
        "@bot:hs".to_string(),
        "discord".to_string(),
        "user".to_string(),
        "nothash".to_string(),
    )];
    let mut payload = vec![4u8];
    payload.extend_from_slice(b"discord\0user-without-password");
    deliver(&mut u, 1, true, &payload);
    let (replies, directives) = process_message(&mut u, 1, &creds);
    assert_eq!(replies.len(), 1);
    assert_eq!(replies[0].command, CMD_INVALID_COMMAND);
    assert_eq!(replies[0].payload, b"Insufficient data in request".to_vec());
    assert_eq!(directives.len(), 0);
    assert_eq!(u.matrix_bots.len(), 0);
}

#[test]
fn authenticate_service_name_must_be_utf8() {
    let mut u = encrypted_user();
    let creds = vec![];
    let mut payload = vec![4u8, 0xff, 0xfe, 0, b'u', 0, b'p'];
    payload.push(b'w');
    deliver(&mut u, 1, true, &payload);
    let (replies, _) = process_message(&mut u, 1, &creds);
    assert_eq!(replies.len(), 1);
    assert_eq!(replies[0].command, CMD_INVALID_COMMAND);
    assert_eq!(replies[0].payload, b"Service name is not valid UTF-8".to_vec());
}

#[test]
fn authenticate_unknown_user() {
    let mut u = encrypted_user();
    let creds = vec![BridgeBotCredentials::new(
        "@bot:hs".to_string(),
        "discord".to_string(),
        "user".to_string(),
        "nothash".to_string(),
    )];
    let mut payload = vec![4u8];
    payload.extend_from_slice(b"discord\0nobody\0pw");
    deliver(&mut u, 1, true, &payload);
    let (replies, _) = process_message(&mut u, 1, &creds);
    assert_eq!(replies.len(), 1);
    assert_eq!(replies[0].command, CMD_AUTHENTICATION_RESULT);
    let mut expected = vec![0u8];
    expected.extend_from_slice(b"User not found");
    assert_eq!(replies[0].payload, expected);
}

#[test]
fn authenticate_wrong_password() {
    let hash = bcrypt::hash("secret", 4).unwrap();
    let mut u = encrypted_user();
    let creds = vec![BridgeBotCredentials::new(
        "@bot:hs".to_string(),
        "discord".to_string(),
        "user".to_string(),
        hash,
    )];
    let mut payload = vec![4u8];
    payload.extend_from_slice(b"discord\0user\0wrong");
    deliver(&mut u, 1, true, &payload);
    let (replies, directives) = process_message(&mut u, 1, &creds);
    assert_eq!(replies.len(), 1);
    assert_eq!(replies[0].command, CMD_AUTHENTICATION_RESULT);
    assert_eq!(replies[0].payload, vec![0u8]);
    assert_eq!(directives.len(), 0);
}

#[test]
fn authenticate_bad_stored_hash_fails_closed() {
    let mut u = encrypted_user();
    let creds = vec![BridgeBotCredentials::new(
        "@bot:hs".to_string(),
        "discord".to_string(),
        "user".to_string(),
        "not-a-bcrypt-hash".to_string(),
    )];
    let mut payload = vec![4u8];
    payload.extend_from_slice(b"discord\0user\0pw");
    deliver(&mut u, 1, true, &payload);
    let (replies, _) = process_message(&mut u, 1, &creds);
    assert_eq!(replies.len(), 1);
    assert_eq!(replies[0].command, CMD_ERROR);
    assert_eq!(replies[0].payload, b"Password verification failed".to_vec());
}

#[test]
fn authenticate_new_bot_spawns_then_registers() {
    let hash = bcrypt::hash("secret", 4).unwrap();
    let mut u = encrypted_user();
    let creds = vec![BridgeBotCredentials::new(
        "@bot:hs".to_string(),
        "discord".to_string(),
        "user".to_string(),
        hash,
    )];
    // Mixed case on the wire: matching goes through lowercasing.
    let mut payload = vec![4u8];
    payload.extend_from_slice(b"DISCORD\0User\0secret");
    deliver(&mut u, 1, true, &payload);
    let (replies, directives) = process_message(&mut u, 1, &creds);
    assert_eq!(replies.len(), 0);
    assert_eq!(directives.len(), 1);
    match &directives[0] {
        BridgeDirective::SpawnBot { credential_idx, msg_id } => {
            assert_eq!(*credential_idx, 0);
            assert_eq!(*msg_id, 1);
        }
        _ => panic!("expected a spawn directive"),
    }
    // The loop starts the worker, registers it, and completes the reply.
    let idx = u.register_bot(bot_info("bot"));
    assert_eq!(idx, 0);
    let reply = complete_authentication(1, idx);
    assert_eq!(reply.command, CMD_AUTHENTICATION_RESULT);
    assert_eq!(reply.payload, vec![1u8, 1, 0]);
    assert!(!reply.needs_ack);
}

#[test]
fn authenticate_existing_bot_is_idempotent() {
    let hash = bcrypt::hash("secret", 4).unwrap();
    let mut u = encrypted_user();
    let creds = vec![BridgeBotCredentials::new(
        "@bot:hs".to_string(),
        "discord".to_string(),
        "user".to_string(),
        hash,
    )];
    let mut info = bot_info("bot");
    info.bot_address = "@bot:hs".to_string();
    u.register_bot(info);
    u.client_has_latest_channel_list[0] = true;
    let mut payload = vec![4u8];
    payload.extend_from_slice(b"discord\0user\0secret");
    deliver(&mut u, 2, true, &payload);
    let (replies, directives) = process_message(&mut u, 2, &creds);
    assert_eq!(directives.len(), 0);
    assert_eq!(replies.len(), 1);
    assert_eq!(replies[0].command, CMD_AUTHENTICATION_RESULT);
    assert_eq!(replies[0].payload, vec![1u8, 2, 0]);
    assert_eq!(u.matrix_bots.len(), 1);
    // The cached channel list can no longer be assumed fresh.
    assert!(!u.client_has_latest_channel_list[0]);
}

#[test]
fn request_known_users_marks_stale_and_asks_worker() {
    let mut u = encrypted_user();
    u.register_bot(bot_info("bot"));
    u.client_has_latest_channel_list[0] = true;
    let creds = vec![];
    deliver(&mut u, 1, true, &[7, 0]);
    let (replies, directives) = process_message(&mut u, 1, &creds);
    assert_eq!(replies.len(), 0);
    assert_eq!(directives.len(), 1);
    match &directives[0] {
        BridgeDirective::SendControl { platform_idx, message } => {
            assert_eq!(*platform_idx, 0);
            match message {
                MatrixBotControlMessage::RequestChannels { domain_idx } => {
                    assert_eq!(*domain_idx, 0)
                }
                _ => panic!("expected a channel request"),
            }
        }
        _ => panic!("expected a control directive"),
    }
    assert!(!u.client_has_latest_channel_list[0]);
}

#[test]
fn request_known_users_out_of_range() {
    let mut u = encrypted_user();
    let creds = vec![];
    deliver(&mut u, 1, true, &[7, 4]);
    let (replies, _) = process_message(&mut u, 1, &creds);
    assert_eq!(replies.len(), 1);
    assert_eq!(replies[0].command, CMD_INVALID_COMMAND);
    assert_eq!(replies[0].payload, b"No such domain".to_vec());
}

#[test]
fn request_domains_lists_bot_names() {
    let mut u = encrypted_user();
    u.register_bot(bot_info("b1"));
    u.register_bot(bot_info("b2"));
    u.client_has_latest_domain_info = true;
    let creds = vec![];
    deliver(&mut u, 1, true, &[15, 0]);
    let (replies, directives) = process_message(&mut u, 1, &creds);
    assert_eq!(directives.len(), 0);
    assert_eq!(replies.len(), 1);
    assert_eq!(replies[0].command, CMD_DOMAIN_UPDATE);
    assert!(replies[0].needs_ack);
    assert_eq!(replies[0].payload, b"b1@discord\0b2@discord".to_vec());
    assert!(!u.client_has_latest_domain_info);
}

#[test]
fn block_ack_command_with_missing_index() {
    let mut u = encrypted_user();
    let creds = vec![];
    deliver(&mut u, 1, true, &[11, 31]);
    let (replies, _) = process_message(&mut u, 1, &creds);
    assert_eq!(replies.len(), 1);
    assert_eq!(replies[0].command, CMD_INVALID_COMMAND);
    assert_eq!(replies[0].payload, b"Missing block id".to_vec());
}

#[test]
fn block_ack_command_retires_outbound_message() {
    let mut u = encrypted_user();
    let sends = u.send_message(vec![9u8; 10], false, true, 0).unwrap();
    let id = sends[0].msg_id;
    let creds = vec![];
    deliver(&mut u, 1, true, &[11, id, 0]);
    let (replies, _) = process_message(&mut u, 1, &creds);
    assert_eq!(replies.len(), 0); // a stale or fresh ack never earns a reply
    assert!(u.outgoing_messages[id as usize].is_none());
    assert!(u.unused_ids.contains(&id));
}

#[test]
fn sign_out_removes_bot() {
    let mut u = encrypted_user();
    u.register_bot(bot_info("b1"));
    let creds = vec![];
    deliver(&mut u, 1, true, &[14, 0]);
    let (replies, directives) = process_message(&mut u, 1, &creds);
    assert_eq!(replies.len(), 1);
    assert_eq!(replies[0].command, CMD_SIGN_OUT_SUCCESS);
    assert_eq!(replies[0].payload, vec![0u8]);
    assert!(replies[0].needs_ack);
    assert_eq!(directives.len(), 1);
    assert!(matches!(
        directives[0],
        BridgeDirective::SendControl { platform_idx: 0, message: MatrixBotControlMessage::TerminateBot }
    ));
    assert_eq!(u.matrix_bots.len(), 0);
}

#[test]
fn sign_out_with_invalid_index() {
    let mut u = encrypted_user();
    let creds = vec![];
    deliver(&mut u, 1, true, &[14, 3]);
    let (replies, _) = process_message(&mut u, 1, &creds);
    assert_eq!(replies.len(), 1);
    assert_eq!(replies[0].command, CMD_INVALID_COMMAND);
    assert_eq!(replies[0].payload, Vec::<u8>::new());
}

#[test]
fn data_message_is_relayed() {
    let mut u = encrypted_user();
    u.register_bot(bot_info("b1"));
    let creds = vec![];
    deliver(&mut u, 1, false, &[1, 0, b'h', b'i']);
    let (replies, directives) = process_message(&mut u, 1, &creds);
    assert_eq!(replies.len(), 0);
    assert_eq!(directives.len(), 1);
    match &directives[0] {
        BridgeDirective::RelayMessage { platform_idx, message } => {
            assert_eq!(*platform_idx, 0);
            assert_eq!(message.room_idx, 1);
            assert_eq!(message.content, "hi".to_string());
        }
        _ => panic!("expected a relay directive"),
    }
}

#[test]
fn data_message_errors() {
    let mut u = encrypted_user();
    u.register_bot(bot_info("b1"));
    let creds = vec![];
    deliver(&mut u, 1, false, &[0, 0]);
    let (replies, _) = process_message(&mut u, 1, &creds);
    assert_eq!(replies[0].command, CMD_INVALID_COMMAND);
    assert_eq!(replies[0].payload, b"Malformed DAT payload".to_vec());
    deliver(&mut u, 2, false, &[0, 7, b'x']);
    let (replies, _) = process_message(&mut u, 2, &creds);
    assert_eq!(replies[0].command, CMD_UNKNOWN_DOMAIN);
    deliver(&mut u, 3, false, &[9, 0, b'x']);
    let (replies, _) = process_message(&mut u, 3, &creds);
    assert_eq!(replies[0].command, CMD_TARGET_USER_NOT_FOUND);
    deliver(&mut u, 4, false, &[0, 0, 0xff, 0xfe]);
    let (replies, _) = process_message(&mut u, 4, &creds);
    assert_eq!(replies[0].command, CMD_ERROR);
    assert_eq!(replies[0].payload, b"Malformed UTF-8 Data".to_vec());
}

#[test]
fn multipart_message_is_retired_after_dispatch() {
    let mut u = encrypted_user();
    u.register_bot(bot_info("b1"));
    let creds = vec![];
    let mut payload = vec![1u8, 0u8];
    payload.extend_from_slice(&vec![b'x'; 200]);
    let blocks = User::generate_msg_blocks(&payload, false, 9, &"test_addr".to_string());
    let _ = u.receive_block(&blocks[0], 0);
    let (a, _) = u.receive_block(&blocks[1], 0);
    assert_eq!(a, BlockReceivedAction::ProcessMessage);
    let (_, directives) = process_message(&mut u, 9, &creds);
    assert_eq!(directives.len(), 1);
    assert!(u.messages[9].is_none());
}

#[test]
fn send_block_ack_wire_bytes() {
    let mut u = User::new("test_addr".to_string(), false);
    let sends = send_block_ack(&mut u, 3, 5, 0).unwrap();
    assert_eq!(sends.len(), 1);
    // One singlepart command block: header, then [block-ack, msg id, index].
    let header = boost::block::make_header(31, true, false, false);
    assert_eq!(sends[0].data, vec![header, 11, 5, 3]);
    // The ack is unreliable: its id went straight back to the pool.
    assert!(u.unused_ids.contains(&31));
}

#[test]
fn queue_bridge_message_frames_room_and_platform() {
    let mut u = User::new("test_addr".to_string(), false);
    let msg = boost::matrix_message::MatrixMessage {
        room_idx: 2,
        display_name: "general".to_string(),
        content: "hello".to_string(),
    };
    let sends = boost::dispatch::queue_bridge_message(&mut u, 0, &msg, 0).unwrap();
    assert_eq!(sends.len(), 1);
    let header = boost::block::make_header(31, false, false, false);
    let mut expected = vec![header, 2, 0];
    expected.extend_from_slice(b"hello");
    assert_eq!(sends[0].data, expected);
    // Reliable: the message is tracked until acknowledged.
    assert!(u.outgoing_messages[31].is_some());
    let msg2 = boost::matrix_message::MatrixMessage {
        room_idx: 300,
        display_name: String::new(),
        content: "x".to_string(),
    };
    assert!(matches!(
        boost::dispatch::queue_bridge_message(&mut u, 0, &msg2, 0),
        Err(boost::errors::ProtocolError::IndexTooLarge)
    ));
}

#[test]
fn handle_channel_update_sends_list_and_marks_fresh() {
    let mut u = encrypted_user();
    u.register_bot(bot_info("b1"));
    assert!(!u.client_has_latest_channel_list[0]);
    let channels = vec![
        boost::matrix_message::MatrixChannelInfo {
            idx: 0,
            room_id: "!a:hs".to_string(),
            display_name: "general".to_string(),
        },
        boost::matrix_message::MatrixChannelInfo {
            idx: 1,
            room_id: "!b:hs".to_string(),
            display_name: "help".to_string(),
        },
    ];
    let sends = boost::dispatch::handle_channel_update(&mut u, 0, &channels, 0).unwrap();
    assert_eq!(sends.len(), 1);
    let header = boost::block::make_header(31, true, false, false);
    let mut expected = vec![header, boost::command::CMD_CHANNEL_UPDATE, 0];
    expected.extend_from_slice(b"general\0help");
    assert_eq!(sends[0].data, expected);
    assert!(u.client_has_latest_channel_list[0]);
}
