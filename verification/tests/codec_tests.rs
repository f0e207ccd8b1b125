use hyperg::codec::{decode, encode, Block, Decoded, GetBlock, Handshake, Message};
use hyperg::filemap::{hash_file, FileMap};

fn frame(message: &Message) -> Vec<u8> {
    encode(message).expect("fits in a frame")
}

fn messages() -> Vec<Message> {
    vec![
        Message::Handshake(Handshake { version: 1, node_id: 0x0102030405060708090a0b0c0d0e0f10 }),
        Message::GetMeta { hash: u128::MAX },
        Message::Meta { hash: 3, files: vec![] },
        Message::Meta {
            hash: 4,
            files: vec![
                hash_file(b"abc", "a.txt".to_string()),
                hash_file(b"", "".to_string()),
                FileMap {
                    file_name: "gr\u{fc}\u{df}e \u{4e16}\u{754c} \u{1f600}".to_string(),
                    file_size: u64::MAX,
                    blocks: vec![0, 1, u128::MAX],
                },
            ],
        },
        Message::GetBlock(GetBlock { hash: 5, file_nr: 6, block_nr: 7 }),
        Message::Block(Block { hash: 8, file_nr: 9, block_nr: 10, bytes: vec![] }),
        Message::Block(Block { hash: 8, file_nr: 9, block_nr: 10, bytes: (0u8..=255).collect() }),
        Message::NotFound { hash: 11 },
        Message::Bye,
    ]
}

#[test]
fn frames_are_length_tag_and_little_endian_fields() {
    assert_eq!(frame(&Message::Bye), vec![1, 0, 0, 0, 6]);
    let mut expected = vec![25, 0, 0, 0, 3];
    expected.extend_from_slice(&0x0102030405060708090a0b0c0d0e0f10u128.to_le_bytes());
    expected.extend_from_slice(&[0x44, 0x33, 0x22, 0x11]);
    expected.extend_from_slice(&[7, 0, 0, 0]);
    assert_eq!(
        frame(&Message::GetBlock(GetBlock {
            hash: 0x0102030405060708090a0b0c0d0e0f10,
            file_nr: 0x11223344,
            block_nr: 7
        })),
        expected
    );
    let mut handshake = vec![21, 0, 0, 0, 0, 1, 0, 0, 0];
    handshake.extend_from_slice(&2u128.to_le_bytes());
    assert_eq!(frame(&Message::Handshake(Handshake { version: 1, node_id: 2 })), handshake);
    let mut block = vec![27, 0, 0, 0, 4];
    block.extend_from_slice(&1u128.to_le_bytes());
    block.extend_from_slice(&[2, 0, 0, 0, 3, 0, 0, 0, 0xaa, 0xbb]);
    assert_eq!(
        frame(&Message::Block(Block { hash: 1, file_nr: 2, block_nr: 3, bytes: vec![0xaa, 0xbb] })),
        block
    );
}

#[test]
fn a_manifest_on_the_wire() {
    let message = Message::Meta {
        hash: 1,
        files: vec![FileMap { file_name: "\u{e9}".to_string(), file_size: 5, blocks: vec![9] }],
    };
    let mut expected = vec![55, 0, 0, 0, 2];
    expected.extend_from_slice(&1u128.to_le_bytes());
    expected.extend_from_slice(&[1, 0, 0, 0]);
    expected.extend_from_slice(&[2, 0, 0, 0, 0xc3, 0xa9]);
    expected.extend_from_slice(&5u64.to_le_bytes());
    expected.extend_from_slice(&[1, 0, 0, 0]);
    expected.extend_from_slice(&9u128.to_le_bytes());
    assert_eq!(frame(&message), expected);
}

#[test]
fn what_was_written_is_read_back() {
    for message in messages() {
        let bytes = frame(&message);
        assert_eq!(decode(&bytes), Decoded::Frame { message: message.clone(), used: bytes.len() });
    }
}

#[test]
fn what_follows_a_frame_is_left_alone() {
    for message in messages() {
        let mut bytes = frame(&message);
        let used = bytes.len();
        bytes.extend_from_slice(&frame(&Message::Bye));
        bytes.push(0xff);
        assert_eq!(decode(&bytes), Decoded::Frame { message, used });
        assert_eq!(decode(&bytes[used..]), Decoded::Frame { message: Message::Bye, used: 5 });
    }
}

#[test]
fn a_frame_that_has_not_arrived_whole_is_incomplete() {
    for message in messages() {
        let bytes = frame(&message);
        for n in 0..bytes.len() {
            assert_eq!(decode(&bytes[..n]), Decoded::Incomplete);
        }
    }
}

#[test]
fn bodies_that_denote_no_message_are_malformed() {
    assert_eq!(decode(&[0, 0, 0, 0]), Decoded::Malformed);
    assert_eq!(decode(&[1, 0, 0, 0, 7]), Decoded::Malformed);
    assert_eq!(decode(&[1, 0, 0, 0, 255]), Decoded::Malformed);
    assert_eq!(decode(&[2, 0, 0, 0, 6, 0]), Decoded::Malformed);
    assert_eq!(decode(&[1, 0, 0, 0, 0]), Decoded::Malformed);
    assert_eq!(decode(&[1, 0, 0, 0, 3]), Decoded::Malformed);
    assert_eq!(decode(&[1, 0, 0, 0, 4]), Decoded::Malformed);

    let mut long_handshake = frame(&Message::Handshake(Handshake { version: 1, node_id: 2 }));
    long_handshake[0] += 1;
    long_handshake.push(0);
    assert_eq!(decode(&long_handshake), Decoded::Malformed);
}

fn manifest_frame(name: &[u8], count: u32, blocks: &[u128], trailing: &[u8]) -> Vec<u8> {
    let mut body = vec![2u8];
    body.extend_from_slice(&1u128.to_le_bytes());
    body.extend_from_slice(&1u32.to_le_bytes());
    body.extend_from_slice(&(name.len() as u32).to_le_bytes());
    body.extend_from_slice(name);
    body.extend_from_slice(&5u64.to_le_bytes());
    body.extend_from_slice(&count.to_le_bytes());
    for block in blocks {
        body.extend_from_slice(&block.to_le_bytes());
    }
    body.extend_from_slice(trailing);
    let mut bytes = (body.len() as u32).to_le_bytes().to_vec();
    bytes.extend_from_slice(&body);
    bytes
}

#[test]
fn manifests_are_checked() {
    assert_eq!(
        decode(&manifest_frame(b"ok", 1, &[7], &[])),
        Decoded::Frame {
            message: Message::Meta {
                hash: 1,
                files: vec![FileMap { file_name: "ok".to_string(), file_size: 5, blocks: vec![7] }]
            },
            used: 4 + 1 + 16 + 4 + 4 + 2 + 8 + 4 + 16,
        }
    );
    assert_eq!(decode(&manifest_frame(&[0xff, 0xfe], 1, &[7], &[])), Decoded::Malformed);
    assert_eq!(decode(&manifest_frame(&[0xc3], 1, &[7], &[])), Decoded::Malformed);
    assert_eq!(decode(&manifest_frame(b"ok", 2, &[7], &[])), Decoded::Malformed);
    assert_eq!(decode(&manifest_frame(b"ok", u32::MAX, &[7], &[])), Decoded::Malformed);
    assert_eq!(decode(&manifest_frame(b"ok", 1, &[7], &[0])), Decoded::Malformed);
    assert_eq!(
        decode(&manifest_frame(b"ok", 0, &[], &[])),
        Decoded::Frame {
            message: Message::Meta {
                hash: 1,
                files: vec![FileMap { file_name: "ok".to_string(), file_size: 5, blocks: vec![] }]
            },
            used: 4 + 1 + 16 + 4 + 4 + 2 + 8 + 4,
        }
    );
}

#[test]
fn a_manifest_that_announces_more_files_than_it_holds_is_malformed() {
    let mut body = vec![2u8];
    body.extend_from_slice(&1u128.to_le_bytes());
    body.extend_from_slice(&3u32.to_le_bytes());
    let mut bytes = (body.len() as u32).to_le_bytes().to_vec();
    bytes.extend_from_slice(&body);
    assert_eq!(decode(&bytes), Decoded::Malformed);
}
