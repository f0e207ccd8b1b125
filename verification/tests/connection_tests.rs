use hyperg::codec::{Block, GetBlock, Handshake, Message, PROTOCOL_VERSION};
use hyperg::connection::{
    Answer, ConnState, Connection, Effect, Request, HANDSHAKE_TIMEOUT_SECS,
};
use hyperg::error::ProtocolError;
use hyperg::filemap::hash_file;
use hyperg::registry::{FileEntry, Registry};
use hyperg::server::{block_reply, serve_block, serve_meta, Served};

const LOCAL: Handshake = Handshake { version: PROTOCOL_VERSION, node_id: 1 };
const PEER: Handshake = Handshake { version: PROTOCOL_VERSION, node_id: 2 };

fn get(block_nr: u32) -> GetBlock {
    GetBlock { hash: 0xabc, file_nr: 0, block_nr }
}

fn ready() -> Connection {
    let mut connection = Connection::new(LOCAL);
    connection.connect(100);
    connection.frame(Message::Handshake(PEER), 101);
    assert_eq!(connection.state(), ConnState::Ready);
    connection
}

#[test]
fn connecting_sends_the_handshake() {
    let mut connection = Connection::new(LOCAL);
    assert_eq!(connection.state(), ConnState::Connecting);
    assert_eq!(connection.connect(100), vec![Effect::Send(Message::Handshake(LOCAL))]);
    assert_eq!(connection.state(), ConnState::AwaitingHandshake);
    assert_eq!(connection.last_seen(), 100);
    assert_eq!(connection.connect(105), vec![]);
}

#[test]
fn a_handshake_in_time_makes_the_connection_ready() {
    let mut connection = Connection::new(LOCAL);
    connection.connect(100);
    assert_eq!(connection.submit(7, Request::Block(get(0))), vec![]);
    assert_eq!(connection.submit(8, Request::Meta { hash: 5 }), vec![]);
    assert_eq!(
        connection.frame(Message::Handshake(PEER), 100 + HANDSHAKE_TIMEOUT_SECS - 1),
        vec![Effect::Send(Message::GetBlock(get(0)))]
    );
    assert_eq!(connection.state(), ConnState::Ready);
    assert_eq!(connection.peer(), Some(PEER));
    assert_eq!(connection.last_seen(), 109);
    assert_eq!(connection.pending(), 2);
}

#[test]
fn a_peer_that_never_shakes_hands_times_out_at_the_bound() {
    let mut connection = Connection::new(LOCAL);
    connection.connect(100);
    connection.submit(7, Request::Block(get(0)));
    connection.submit(8, Request::Block(get(1)));
    assert_eq!(HANDSHAKE_TIMEOUT_SECS, 10);
    assert_eq!(connection.tick(109), vec![]);
    assert_eq!(connection.state(), ConnState::AwaitingHandshake);
    assert_eq!(
        connection.tick(110),
        vec![
            Effect::Fail { ticket: 7, error: ProtocolError::HandshakeTimeout },
            Effect::Fail { ticket: 8, error: ProtocolError::HandshakeTimeout },
            Effect::Close,
        ]
    );
    assert_eq!(connection.state(), ConnState::Closed);
    assert_eq!(connection.closed_by(), Some(ProtocolError::HandshakeTimeout));
    assert_eq!(connection.pending(), 0);
    assert_eq!(connection.tick(200), vec![]);
}

#[test]
fn a_handshake_after_the_bound_is_too_late() {
    let mut connection = Connection::new(LOCAL);
    connection.connect(100);
    assert_eq!(connection.frame(Message::Handshake(PEER), 110), vec![Effect::Close]);
    assert_eq!(connection.closed_by(), Some(ProtocolError::HandshakeTimeout));
}

#[test]
fn the_deadline_does_not_wrap_around() {
    let mut connection = Connection::new(LOCAL);
    connection.connect(u64::MAX - 3);
    assert_eq!(connection.tick(u64::MAX - 1), vec![]);
    assert_eq!(connection.tick(u64::MAX), vec![Effect::Close]);
}

#[test]
fn a_handshake_of_another_version_is_invalid() {
    let mut connection = Connection::new(LOCAL);
    connection.connect(100);
    let other = Handshake { version: PROTOCOL_VERSION + 1, node_id: 2 };
    assert_eq!(connection.frame(Message::Handshake(other), 101), vec![Effect::Close]);
    assert_eq!(connection.closed_by(), Some(ProtocolError::InvalidHandshake));
}

#[test]
fn bytes_that_are_no_frame_are_an_invalid_handshake() {
    let mut connection = Connection::new(LOCAL);
    connection.connect(100);
    connection.submit(1, Request::Meta { hash: 9 });
    assert_eq!(
        connection.malformed(101),
        vec![Effect::Fail { ticket: 1, error: ProtocolError::InvalidHandshake }, Effect::Close]
    );
    assert_eq!(connection.closed_by(), Some(ProtocolError::InvalidHandshake));
}

#[test]
fn another_frame_before_the_handshake_means_it_is_missing() {
    let mut connection = Connection::new(LOCAL);
    connection.connect(100);
    assert_eq!(connection.frame(Message::GetBlock(get(0)), 101), vec![Effect::Close]);
    assert_eq!(connection.state(), ConnState::Closed);
    assert_eq!(connection.closed_by(), Some(ProtocolError::MissingHandshake));
}

#[test]
fn requests_are_sent_one_at_a_time_and_answered_in_order() {
    let mut connection = ready();
    assert_eq!(
        connection.submit(1, Request::Block(get(0))),
        vec![Effect::Send(Message::GetBlock(get(0)))]
    );
    assert_eq!(connection.submit(2, Request::Meta { hash: 5 }), vec![]);
    assert_eq!(connection.submit(3, Request::Block(get(2))), vec![]);
    let block = Block { hash: 0xabc, file_nr: 0, block_nr: 0, bytes: vec![1, 2, 3] };
    assert_eq!(
        connection.frame(Message::Block(block.clone()), 120),
        vec![
            Effect::Deliver { ticket: 1, answer: Answer::Block(block) },
            Effect::Send(Message::GetMeta { hash: 5 }),
        ]
    );
    assert_eq!(connection.last_seen(), 120);
    let files = vec![hash_file(b"abc", "a".to_string())];
    assert_eq!(
        connection.frame(Message::Meta { hash: 5, files: files.clone() }, 121),
        vec![
            Effect::Deliver { ticket: 2, answer: Answer::Meta { hash: 5, files } },
            Effect::Send(Message::GetBlock(get(2))),
        ]
    );
    assert_eq!(
        connection.frame(Message::NotFound { hash: 0xabc }, 122),
        vec![Effect::Deliver { ticket: 3, answer: Answer::NotFound { hash: 0xabc } }]
    );
    assert_eq!(connection.pending(), 0);
    assert_eq!(connection.frame(Message::NotFound { hash: 0xabc }, 123), vec![]);
    assert_eq!(connection.state(), ConnState::Ready);
}

#[test]
fn an_unregistered_hash_is_not_found_and_the_connection_stays_usable() {
    let mut registry = Registry::new();
    let known = registry.register(
        vec![FileEntry { map: hash_file(b"abc", "a".to_string()), path: "/a".to_string() }],
        None,
        b"abc".to_vec(),
    );
    let unknown = GetBlock { hash: known + 1, file_nr: 0, block_nr: 0 };

    let mut server_side = ready();
    assert_eq!(
        server_side.frame(Message::GetBlock(unknown), 130),
        vec![Effect::Serve(Request::Block(unknown))]
    );
    let reply = match serve_block(&registry, unknown) {
        Served::Reply(message) => message,
        other => panic!("unexpected {:?}", other),
    };
    assert_eq!(reply, Message::NotFound { hash: known + 1 });
    assert_eq!(server_side.state(), ConnState::Ready);

    let mut client_side = ready();
    client_side.submit(1, Request::Block(unknown));
    let wanted = GetBlock { hash: known, file_nr: 0, block_nr: 0 };
    client_side.submit(2, Request::Block(wanted));
    assert_eq!(
        client_side.frame(reply, 131),
        vec![
            Effect::Deliver { ticket: 1, answer: Answer::NotFound { hash: known + 1 } },
            Effect::Send(Message::GetBlock(wanted)),
        ]
    );
    assert_eq!(client_side.state(), ConnState::Ready);

    assert_eq!(
        server_side.frame(Message::GetBlock(wanted), 132),
        vec![Effect::Serve(Request::Block(wanted))]
    );
    let served = match serve_block(&registry, wanted) {
        Served::Reply(message) => message,
        other => panic!("unexpected {:?}", other),
    };
    assert_eq!(
        served,
        Message::Block(Block { hash: known, file_nr: 0, block_nr: 0, bytes: b"abc".to_vec() })
    );
}

#[test]
fn requests_of_the_peer_are_handed_on() {
    let mut connection = ready();
    assert_eq!(
        connection.frame(Message::GetMeta { hash: 4 }, 140),
        vec![Effect::Serve(Request::Meta { hash: 4 })]
    );
    assert_eq!(connection.frame(Message::Handshake(PEER), 141), vec![]);
    assert_eq!(connection.last_seen(), 141);
}

#[test]
fn the_end_of_the_socket_fails_every_waiting_request() {
    let mut connection = ready();
    connection.submit(1, Request::Block(get(0)));
    connection.submit(2, Request::Block(get(1)));
    assert_eq!(
        connection.socket_closed(),
        vec![
            Effect::Fail { ticket: 1, error: ProtocolError::Disconnect },
            Effect::Fail { ticket: 2, error: ProtocolError::Disconnect },
            Effect::Close,
        ]
    );
    assert_eq!(connection.closed_by(), Some(ProtocolError::Disconnect));
    assert_eq!(connection.socket_closed(), vec![]);
    assert_eq!(
        connection.submit(3, Request::Block(get(2))),
        vec![Effect::Fail { ticket: 3, error: ProtocolError::Disconnect }]
    );
    assert_eq!(connection.frame(Message::Bye, 150), vec![]);
}

#[test]
fn a_goodbye_of_the_peer_is_a_disconnect() {
    let mut connection = ready();
    connection.submit(1, Request::Block(get(0)));
    assert_eq!(
        connection.frame(Message::Bye, 150),
        vec![Effect::Fail { ticket: 1, error: ProtocolError::Disconnect }, Effect::Close]
    );
    assert_eq!(connection.state(), ConnState::Closed);
}

#[test]
fn closing_from_this_side_says_goodbye() {
    let mut connection = ready();
    connection.submit(1, Request::Block(get(0)));
    assert_eq!(
        connection.close(),
        vec![
            Effect::Send(Message::Bye),
            Effect::Fail { ticket: 1, error: ProtocolError::DisconnectByMe },
            Effect::Close,
        ]
    );
    assert_eq!(connection.closed_by(), Some(ProtocolError::DisconnectByMe));
    assert_eq!(connection.close(), vec![]);

    let mut early = Connection::new(LOCAL);
    early.connect(1);
    assert_eq!(early.close(), vec![Effect::Close]);
    assert_eq!(early.closed_by(), Some(ProtocolError::DisconnectByMe));
}

#[test]
fn garbage_on_a_ready_connection_closes_it() {
    let mut connection = ready();
    assert_eq!(connection.malformed(160), vec![Effect::Send(Message::Bye), Effect::Close]);
    assert_eq!(connection.closed_by(), Some(ProtocolError::DisconnectByMe));
}

#[test]
fn blocks_are_served_from_their_place_in_the_file() {
    let mut registry = Registry::new();
    let big = hyperg::filemap::FileMap {
        file_name: "big".to_string(),
        file_size: 2 * hyperg::filemap::BLOCK_SIZE as u64 + 10,
        blocks: vec![1, 2, 3],
    };
    let small = hash_file(&[9u8; 300], "small".to_string());
    let hash = registry.register(
        vec![
            FileEntry { map: big, path: "/store/big".to_string() },
            FileEntry { map: small, path: "/store/small".to_string() },
        ],
        None,
        Vec::new(),
    );
    let bs = hyperg::filemap::BLOCK_SIZE;
    assert_eq!(
        serve_block(&registry, GetBlock { hash, file_nr: 0, block_nr: 1 }),
        Served::Read { path: "/store/big".to_string(), offset: bs as u64, len: bs }
    );
    assert_eq!(
        serve_block(&registry, GetBlock { hash, file_nr: 0, block_nr: 2 }),
        Served::Read { path: "/store/big".to_string(), offset: 2 * bs as u64, len: 10 }
    );
    assert_eq!(
        serve_block(&registry, GetBlock { hash, file_nr: 1, block_nr: 0 }),
        Served::Read { path: "/store/small".to_string(), offset: 0, len: 300 }
    );
    let missing = Served::Reply(Message::NotFound { hash });
    assert_eq!(serve_block(&registry, GetBlock { hash, file_nr: 0, block_nr: 3 }), missing);
    assert_eq!(serve_block(&registry, GetBlock { hash, file_nr: 1, block_nr: 1 }), missing);
    assert_eq!(serve_block(&registry, GetBlock { hash, file_nr: 2, block_nr: 0 }), missing);
}

#[test]
fn block_reply_carries_the_bytes() {
    let request = GetBlock { hash: 3, file_nr: 1, block_nr: 2 };
    assert_eq!(
        block_reply(request, Some(vec![5, 6])),
        Message::Block(Block { hash: 3, file_nr: 1, block_nr: 2, bytes: vec![5, 6] })
    );
    assert_eq!(block_reply(request, None), Message::NotFound { hash: 3 });
}

#[test]
fn the_manifest_is_served_or_not_found() {
    let mut registry = Registry::new();
    let a = hash_file(b"abc", "a".to_string());
    let b = hash_file(b"", "b".to_string());
    let hash = registry.register(
        vec![
            FileEntry { map: a.clone(), path: "/a".to_string() },
            FileEntry { map: b.clone(), path: "/b".to_string() },
        ],
        None,
        Vec::new(),
    );
    assert_eq!(serve_meta(&registry, hash), Message::Meta { hash, files: vec![a, b] });
    assert_eq!(serve_meta(&registry, hash + 1), Message::NotFound { hash: hash + 1 });
}
