use boost::block::Block;
use boost::message::Message;
use boost::user::User;

#[test]
fn test_chunking() {
    // A particular message must produce the expected block pattern.
    let tx_payload = "0123456789abcdef0123456789abcdef0123456789abcdef0123456789abcdef0123456789abcdef0123456789abcdef0123456789abcdef0123456789abcdef0123456789abcdef0123456789abcdef";
    let tx_payload_bytes = tx_payload.as_bytes().to_vec();
    let tx_is_command = true;
    let tx_msg_id = 15u8;
    let test_blocks = User::generate_msg_blocks(
        &tx_payload_bytes,
        tx_is_command,
        tx_msg_id,
        &"test_addr".to_string(),
    );
    let n_blocks = test_blocks.len();

    let mut cursor = 0usize;

    for i in 0..n_blocks {
        let block = &test_blocks[i];

        let rx_msg_id = block.data[0] & 0x1f;
        assert!(rx_msg_id == tx_msg_id);

        let rx_is_command = (block.data[0] >> 5) & 1;
        if tx_is_command {
            assert!(rx_is_command == 1);
        }

        let rx_is_mp = (block.data[0] >> 6) & 1;
        assert!(rx_is_mp == 1);

        let rx_mp_first = (block.data[0] >> 7) & 1;
        match rx_mp_first {
            1 => assert!(i == 0),
            0 => assert!(i != 0),
            _ => panic!("rx_mp_first not in {{0,1}}"),
        }

        let rx_block_idx = block.data[1];
        if i == 0 {
            assert!((rx_block_idx as usize) + 1 == n_blocks);
        }
        if i != 0 {
            assert!((rx_block_idx as usize) != i);
        }

        let rx_payload = match String::from_utf8(block.data[2..].to_vec()) {
            Ok(payload) => payload,
            Err(_) => panic!("rx_payload decode fail"),
        };

        assert!(tx_payload[cursor..].starts_with(&rx_payload));
        cursor += rx_payload.len();
    }
    assert_eq!(cursor, tx_payload.len());
}

#[test]
fn chunk_165_bytes_into_two_blocks() {
    // 165 ASCII bytes, is_command, msg_id 15: ceil(165 / 138) = 2 blocks.
    let payload: Vec<u8> = (0..165).map(|i| b'a' + (i % 26) as u8).collect();
    let blocks = User::generate_msg_blocks(&payload, true, 15, &"test_addr".to_string());
    assert_eq!(blocks.len(), 2);
    // Block 0 carries the terminal marker and the count-minus-one.
    assert_eq!((blocks[0].data[0] >> 7) & 1, 1);
    assert_eq!(blocks[0].data[1], 1);
    assert_eq!(blocks[0].data.len(), 140);
    // Block 1 carries index 0 and no marker.
    assert_eq!((blocks[1].data[0] >> 7) & 1, 0);
    assert_eq!(blocks[1].data[1], 0);
    assert_eq!(blocks[1].data.len(), 2 + 27);
}

#[test]
fn reassemble_two_blocks_in_order() {
    let payload: Vec<u8> = (0..165).map(|i| b'a' + (i % 26) as u8).collect();
    let blocks = User::generate_msg_blocks(&payload, true, 15, &"test_addr".to_string());
    let mut msg = Message::new(&blocks[0], 0);
    assert!(!msg.is_complete);
    assert_eq!(msg.num_blocks, 2);
    msg.add_block(&blocks[1]);
    assert!(msg.is_complete);
    assert_eq!(msg.payload, payload);
}

#[test]
fn reassemble_two_blocks_out_of_order() {
    let payload: Vec<u8> = (0..165).map(|i| b'z' - (i % 26) as u8).collect();
    let blocks = User::generate_msg_blocks(&payload, true, 15, &"test_addr".to_string());
    let mut msg = Message::new(&blocks[1], 0);
    assert!(!msg.is_complete);
    assert_eq!(msg.num_blocks, 0); // count not yet known
    msg.add_block(&blocks[0]);
    assert!(msg.is_complete);
    assert_eq!(msg.num_blocks, 2);
    assert_eq!(msg.payload, payload);
}

#[test]
fn round_trip_many_lengths() {
    for len in [1usize, 100, 137, 138, 139, 276, 277, 500, 1000] {
        let payload: Vec<u8> = (0..len).map(|i| (i % 251) as u8).collect();
        let blocks = User::generate_msg_blocks(&payload, false, 7, &"a".to_string());
        let expected = if len <= 138 { 1 } else { (len + 137) / 138 };
        assert_eq!(blocks.len(), expected);
        let mut msg = Message::new(&blocks[0], 0);
        for b in blocks.iter().skip(1) {
            msg.add_block(b);
        }
        assert!(msg.is_complete);
        assert_eq!(msg.payload, payload);
    }
}

#[test]
fn block_size_validation_boundaries() {
    // Fewer than 16 bits is invalid.
    assert!(!Block::new("a".to_string(), vec![0x00]).block_size_validation());
    // Exactly 16 bits, non-multipart, is valid.
    assert!(Block::new("a".to_string(), vec![0x00, 0x41]).block_size_validation());
    // A multipart-flagged block of fewer than 24 bits is invalid.
    assert!(!Block::new("a".to_string(), vec![0x40, 0x00]).block_size_validation());
    assert!(Block::new("a".to_string(), vec![0x40, 0x00, 0x41]).block_size_validation());
    // More than 140 octets is invalid.
    assert!(Block::new("a".to_string(), vec![0u8; 140]).block_size_validation());
    assert!(!Block::new("a".to_string(), vec![0u8; 141]).block_size_validation());
}

#[test]
fn header_field_accessors() {
    let h = boost::block::make_header(21, true, true, false);
    let b = Block::new("a".to_string(), vec![h, 9, 1, 2, 3]);
    assert_eq!(b.msg_id(), 21);
    assert!(b.is_command());
    assert!(b.is_multipart());
    assert!(!b.mp_first());
    assert_eq!(b.mp_idx(), 9);
    assert_eq!(b.wire_index(), 9);
    assert_eq!(b.piece_index(), 10);
}
