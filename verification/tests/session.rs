use boost::block::Block;
use boost::block::BlockReceivedAction;
use boost::errors::ProtocolError;
use boost::user::User;

fn command_block(msg_id: u8, payload: &[u8]) -> Block {
    let header = boost::block::make_header(msg_id, true, false, false);
    let mut data = vec![header];
    data.extend_from_slice(payload);
    Block::new("test_addr".to_string(), data)
}

#[test]
fn receive_singlepart_completes_immediately() {
    let mut u = User::new("test_addr".to_string(), false);
    let b = command_block(3, &[4, 1, 2, 3]);
    let (action, idx) = u.receive_block(&b, 0);
    assert_eq!(action, BlockReceivedAction::ProcessMessage);
    assert_eq!(idx, 0);
    let m = u.messages[3].as_ref().unwrap();
    assert!(m.is_complete);
    assert_eq!(m.payload, vec![4, 1, 2, 3]);
}

#[test]
fn receive_incoming_ack_is_not_acked_back() {
    let mut u = User::new("test_addr".to_string(), false);
    // A block-ack command block must be dispatched without acknowledgment.
    let b = command_block(6, &[11, 31, 0]);
    let (action, _) = u.receive_block(&b, 0);
    assert_eq!(action, BlockReceivedAction::ProcessNoAck);
}

#[test]
fn receive_duplicate_multipart_block_is_idempotent() {
    let payload: Vec<u8> = (0..200).map(|i| i as u8).collect();
    let blocks = User::generate_msg_blocks(&payload, false, 9, &"test_addr".to_string());
    assert_eq!(blocks.len(), 2);
    let mut u = User::new("test_addr".to_string(), false);
    let (a1, i1) = u.receive_block(&blocks[0], 0);
    assert_eq!(a1, BlockReceivedAction::SendBlockAck);
    assert_eq!(i1, 1);
    let stored_payload = u.messages[9].as_ref().unwrap().payload.clone();
    // The very same block again: acknowledged, nothing re-stored.
    let (a2, i2) = u.receive_block(&blocks[0], 1);
    assert_eq!(a2, BlockReceivedAction::SendBlockAck);
    assert_eq!(i2, 1);
    assert_eq!(u.messages[9].as_ref().unwrap().payload, stored_payload);
    // The other block completes the message with the exact payload.
    let (a3, _) = u.receive_block(&blocks[1], 2);
    assert_eq!(a3, BlockReceivedAction::ProcessMessage);
    assert_eq!(u.messages[9].as_ref().unwrap().payload, payload);
}

#[test]
fn receive_duplicate_singlepart_within_window() {
    let mut u = User::new("test_addr".to_string(), false);
    let b = command_block(3, &[4, 1]);
    let _ = u.receive_block(&b, 0);
    let (a2, i2) = u.receive_block(&b, 5000);
    assert_eq!(a2, BlockReceivedAction::SendBlockAck);
    assert_eq!(i2, 0);
    assert!(u.messages[3].is_some());
}

#[test]
fn receive_duplicate_singlepart_after_window_evicts() {
    let mut u = User::new("test_addr".to_string(), false);
    let b = command_block(3, &[4, 1]);
    let _ = u.receive_block(&b, 0);
    let (a2, _) = u.receive_block(&b, 20000);
    assert_eq!(a2, BlockReceivedAction::SendBlockAck);
    assert!(u.messages[3].is_none());
}

#[test]
fn send_message_allocates_and_tracks() {
    let mut u = User::new("test_addr".to_string(), false);
    let sends = u.send_message(vec![5u8; 200], false, true, 1000).unwrap();
    assert_eq!(sends.len(), 2);
    let id = sends[0].msg_id;
    assert_eq!(id, 31); // the pool hands out its last id first
    assert!(u.outgoing_messages[id as usize].is_some());
    assert!(!u.unused_ids.contains(&id));
    // An unreliable send returns its id to the pool at once.
    let sends2 = u.send_message(vec![6u8; 10], true, false, 1000).unwrap();
    assert_eq!(sends2.len(), 1);
    assert!(u.unused_ids.contains(&sends2[0].msg_id));
}

#[test]
fn send_message_pool_exhaustion_is_an_error() {
    let mut u = User::new("test_addr".to_string(), false);
    for _ in 0..16 {
        u.send_message(vec![1u8, 2, 3], false, true, 0).unwrap();
    }
    assert!(matches!(
        u.send_message(vec![1u8, 2, 3], false, true, 0),
        Err(ProtocolError::NoFreeMessageId)
    ));
}

#[test]
fn send_message_payload_too_large() {
    let mut u = User::new("test_addr".to_string(), false);
    assert!(matches!(
        u.send_message(vec![0u8; 35329], false, true, 0),
        Err(ProtocolError::PayloadTooLarge)
    ));
}

#[test]
fn acknowledge_all_blocks_retires_and_frees_id() {
    let mut u = User::new("test_addr".to_string(), false);
    let sends = u.send_message(vec![5u8; 200], false, true, 0).unwrap();
    let id = sends[0].msg_id;
    // Acknowledge both wire indices.
    assert_eq!(u.process_block_ack(&vec![id, 0]), Ok(()));
    assert!(u.outgoing_messages[id as usize].is_some());
    assert_eq!(u.process_block_ack(&vec![id, 1]), Ok(()));
    assert!(u.outgoing_messages[id as usize].is_none());
    assert!(u.unused_ids.contains(&id));
    // Acknowledging again is a no-op: no such outstanding message.
    assert_eq!(
        u.process_block_ack(&vec![id, 0]),
        Err(ProtocolError::NoSuchOutgoing)
    );
    assert!(u.unused_ids.contains(&id));
}

#[test]
fn ack_payload_without_block_index() {
    let mut u = User::new("test_addr".to_string(), false);
    assert_eq!(
        u.process_block_ack(&vec![31]),
        Err(ProtocolError::MissingBlockId)
    );
    assert_eq!(u.process_block_ack(&vec![]), Err(ProtocolError::MissingBlockId));
}

#[test]
fn retry_ceiling_drops_after_five_refreshes() {
    let mut u = User::new("test_addr".to_string(), false);
    let sends = u.send_message(vec![5u8; 200], false, true, 1000).unwrap();
    let id = sends[0].msg_id;
    let mut t = 1000u64;
    for k in 0..5 {
        t += 5001;
        let resends = u.refresh_outgoing(t);
        if k < 4 {
            assert_eq!(resends.len(), 2, "both blocks resent while alive");
            assert!(u.outgoing_messages[id as usize].is_some());
        } else {
            // The fifth overdue sweep drops the message silently.
            assert_eq!(resends.len(), 0);
            assert!(u.outgoing_messages[id as usize].is_none());
            assert!(u.unused_ids.contains(&id));
        }
    }
}

#[test]
fn refresh_leaves_fresh_messages_alone() {
    let mut u = User::new("test_addr".to_string(), false);
    let sends = u.send_message(vec![5u8; 10], false, true, 1000).unwrap();
    let id = sends[0].msg_id;
    let resends = u.refresh_outgoing(2000); // not yet due
    assert_eq!(resends.len(), 0);
    let om = u.outgoing_messages[id as usize].as_ref().unwrap();
    assert_eq!(om.send_attempts, 1);
}

#[test]
fn refresh_resends_only_unacked_blocks() {
    let mut u = User::new("test_addr".to_string(), false);
    let sends = u.send_message(vec![5u8; 200], false, true, 0).unwrap();
    let id = sends[0].msg_id;
    u.process_block_ack(&vec![id, 1]).unwrap();
    let resends = u.refresh_outgoing(6000);
    assert_eq!(resends.len(), 1);
    assert_eq!(resends[0].msg_id, id);
    assert_eq!(resends[0].block_idx, 0);
}

#[test]
fn key_exchange_rejects_bad_length() {
    let mut u = User::new("test_addr".to_string(), false);
    assert_eq!(u.key_exchange(&vec![0u8; 31]), Err(ProtocolError::BadKeyLength));
    assert!(!u.is_encrypted);
    assert_eq!(u.shared_secret, vec![0u8; 32]);
}

#[test]
fn key_exchange_establishes_secret() {
    let mut u = User::new("test_addr".to_string(), false);
    let pk = u.key_exchange(&vec![9u8; 32]).unwrap();
    assert_eq!(pk.len(), 32);
    assert!(u.is_encrypted);
    assert_eq!(u.shared_secret.len(), 32);
}

#[test]
fn revoke_bot_out_of_range_is_an_error() {
    let mut u = User::new("test_addr".to_string(), false);
    assert_eq!(u.revoke_bot(0), Err(()));
}
