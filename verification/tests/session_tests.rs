use rust_torrent::connection_handler::message::{
    bitfield_message, frame_length, have_message, intention_message, piece_message, push_be32,
    read_be32, request_message, Message, MessageType, Piece, SessionAction, SessionError,
    REQUEST_PIECE_SIZE,
};
use rust_torrent::connection_handler::ConnectionHandler;
use rust_torrent::file_handler::{get_file_handlder, FileHandler};
use rust_torrent::torrent_file::TorrentFile;
use rust_torrent::tracker::{check_handshake, get_handshake_data};
use sha1::{Digest, Sha1};

fn content(length: usize) -> Vec<u8> {
    (0..length).map(|i| (i * 17 % 253) as u8).collect()
}

fn torrent_for(content: &[u8], piece_length: usize) -> TorrentFile {
    let mut torrent = TorrentFile::default();
    torrent.info.length = content.len();
    torrent.info.piece_length = piece_length;
    for piece in content.chunks(piece_length) {
        let digest: [u8; 20] = Sha1::digest(piece).into();
        torrent.info.pieces.extend_from_slice(&digest);
    }
    torrent.pieces_amount = torrent.info.count_pieces();
    torrent.info_hash = Sha1::digest(b"some info dictionary").into();
    torrent
}

fn handshake_from_peer(torrent: &TorrentFile) -> [u8; 68] {
    get_handshake_data(&torrent.info_hash, b"-XX0001-abcdefghijkl")
}

fn message(kind: MessageType, body: &[u8]) -> Message {
    let mut payload = vec![kind.to_byte()];
    payload.extend_from_slice(body);
    Message::parse(payload).unwrap()
}

fn block(index: u32, begin: u32, data: &[u8]) -> Message {
    let mut body = Vec::new();
    body.extend_from_slice(&index.to_be_bytes());
    body.extend_from_slice(&begin.to_be_bytes());
    body.extend_from_slice(data);
    message(MessageType::Piece, &body)
}

fn sent(action: &SessionAction) -> Vec<u8> {
    match action {
        SessionAction::Send(bytes) => bytes.clone(),
        other => panic!("a send was expected, not {:?}", other),
    }
}

fn ready_session(torrent: &TorrentFile, store: &mut FileHandler, bits: &[u8]) -> ConnectionHandler {
    let mut session = ConnectionHandler::new();
    session
        .connect(torrent, store, &handshake_from_peer(torrent))
        .unwrap();
    let actions = session
        .handle_message(torrent, store, &message(MessageType::Bitfield, bits))
        .unwrap();
    assert!(actions.is_empty());
    session
}

#[test]
fn message_ids_round_trip() {
    for id in 0u8..=9 {
        let kind = MessageType::from_byte(id).unwrap();
        assert_eq!(kind.to_byte(), id);
    }
    assert_eq!(MessageType::from_byte(10), None);
    assert_eq!(MessageType::from_byte(255), None);
    assert_eq!(MessageType::from_byte(0), Some(MessageType::Choke));
    assert_eq!(MessageType::from_byte(5), Some(MessageType::Bitfield));
    assert_eq!(MessageType::Port.to_byte(), 9);
}

#[test]
fn big_endian_numbers() {
    assert_eq!(read_be32(&[0, 0, 0x40, 0], 0), 16384);
    assert_eq!(read_be32(&[9, 0xff, 0xff, 0xff, 0xff], 1), u32::MAX);
    assert_eq!(read_be32(&[1, 2, 3, 4], 0), 0x01020304);
    let mut out = vec![7u8];
    push_be32(&mut out, 0x01020304);
    assert_eq!(out, vec![7, 1, 2, 3, 4]);
    assert_eq!(frame_length(&[0, 0, 0, 13]), 13);
    assert_eq!(frame_length(&[0, 1, 0, 0]), 65536);
}

#[test]
fn messages_are_framed() {
    assert_eq!(intention_message(MessageType::Interested), vec![0, 0, 0, 1, 2]);
    assert_eq!(intention_message(MessageType::Unchoke), vec![0, 0, 0, 1, 1]);
    assert_eq!(have_message(258), vec![0, 0, 0, 5, 4, 0, 0, 1, 2]);
    assert_eq!(
        bitfield_message(&[0xa0, 0x01]),
        vec![0, 0, 0, 3, 5, 0xa0, 0x01]
    );
    assert_eq!(
        request_message(2, 16384, 7232),
        vec![0, 0, 0, 13, 6, 0, 0, 0, 2, 0, 0, 0x40, 0, 0, 0, 0x1c, 0x40]
    );
    assert_eq!(
        piece_message(1, 2, &[9, 8]),
        vec![0, 0, 0, 11, 7, 0, 0, 0, 1, 0, 0, 0, 2, 9, 8]
    );
}

#[test]
fn payloads_are_classified() {
    let keep_alive = Message::parse(Vec::new()).unwrap();
    assert_eq!(keep_alive.msg_type, None);
    assert!(keep_alive.data.is_empty());
    let have = Message::parse(vec![4, 0, 0, 0, 1]).unwrap();
    assert_eq!(have.msg_type, Some(MessageType::Have));
    assert_eq!(have.data, vec![4, 0, 0, 0, 1]);
    assert_eq!(
        Message::parse(vec![10]).unwrap_err(),
        SessionError::UnknownMessage
    );
    assert_eq!(
        Message::parse(vec![200, 1, 2]).unwrap_err(),
        SessionError::UnknownMessage
    );
}

#[test]
fn handshake_layout() {
    let info_hash = [0xabu8; 20];
    let peer_id = *b"-XX0001-abcdefghijkl";
    let data = get_handshake_data(&info_hash, &peer_id);
    assert_eq!(data.len(), 68);
    assert_eq!(data[0], 0x13);
    assert_eq!(&data[1..20], b"BitTorrent protocol");
    assert_eq!(&data[20..28], &[0u8; 8]);
    assert_eq!(&data[28..48], &info_hash);
    assert_eq!(&data[48..68], &peer_id);
}

#[test]
fn handshake_is_checked() {
    let info_hash = [0xabu8; 20];
    let mut data = get_handshake_data(&info_hash, b"-XX0001-abcdefghijkl");
    assert_eq!(check_handshake(&data, &info_hash), Ok(()));
    data[24] = 1;
    assert_eq!(check_handshake(&data, &info_hash), Ok(()));
    assert_eq!(
        check_handshake(&data, &[0xacu8; 20]),
        Err(SessionError::HandshakeInfohashMismatch)
    );
    data[5] = b'x';
    assert_eq!(
        check_handshake(&data, &info_hash),
        Err(SessionError::HandshakeProtocolMismatch)
    );
    assert_eq!(
        check_handshake(&data, &[0xacu8; 20]),
        Err(SessionError::HandshakeProtocolMismatch)
    );
    let mut short = get_handshake_data(&info_hash, b"-XX0001-abcdefghijkl");
    short[0] = 18;
    assert_eq!(
        check_handshake(&short, &info_hash),
        Err(SessionError::HandshakeProtocolMismatch)
    );
}

#[test]
fn new_session_state() {
    let session = ConnectionHandler::new();
    assert!(!session.connected);
    assert!(session.am_choking);
    assert!(!session.am_interested);
    assert!(session.peer_choking);
    assert!(!session.peer_interested);
    assert!(session.bitfield.is_none());
    assert!(session.current_piece.is_none());
    assert!(!session.has_piece(0));
}

#[test]
fn blocks_in_any_order_fill_the_piece() {
    let data = content(40000);
    let orders: [[u32; 3]; 6] = [
        [0, 1, 2],
        [0, 2, 1],
        [1, 0, 2],
        [1, 2, 0],
        [2, 0, 1],
        [2, 1, 0],
    ];
    for order in orders {
        let mut piece = Piece::new(0, 40000);
        assert_eq!(piece.missing_data, 40000);
        for k in order {
            let begin = k * REQUEST_PIECE_SIZE;
            let end = std::cmp::min(begin as usize + 16384, 40000);
            assert_eq!(
                piece.receive_block(begin, &data[begin as usize..end]),
                Ok(true)
            );
        }
        assert_eq!(piece.missing_data, 0);
        assert_eq!(piece.data, data);
        assert_eq!(piece.next_offset(), None);
    }
}

#[test]
fn duplicate_blocks_are_counted_once() {
    let data = content(40000);
    let mut piece = Piece::new(3, 40000);
    assert_eq!(piece.receive_block(16384, &data[16384..32768]), Ok(true));
    assert_eq!(piece.missing_data, 40000 - 16384);
    assert_eq!(piece.receive_block(16384, &vec![0xee; 16384]), Ok(false));
    assert_eq!(piece.missing_data, 40000 - 16384);
    assert_eq!(&piece.data[16384..32768], &data[16384..32768]);
    assert_eq!(piece.next_offset(), Some(0));
    assert_eq!(piece.request_len(), 16384);
    assert_eq!(piece.receive_block(0, &data[..16384]), Ok(true));
    assert_eq!(piece.next_offset(), Some(32768));
    assert_eq!(piece.request_len(), 7232);
    assert_eq!(piece.index, 3);
}

#[test]
fn blocks_beyond_the_piece_are_refused() {
    let mut piece = Piece::new(0, 100);
    assert_eq!(
        piece.receive_block(50, &[0u8; 51]),
        Err(SessionError::BlockOverrun)
    );
    assert_eq!(
        piece.receive_block(101, &[]),
        Err(SessionError::BlockOverrun)
    );
    assert_eq!(
        piece.receive_block(u32::MAX, &[1]),
        Err(SessionError::BlockOverrun)
    );
    assert_eq!(piece.missing_data, 100);
    assert_eq!(piece.receive_block(0, &[1u8; 60]), Ok(true));
    assert_eq!(
        piece.receive_block(10, &[2u8; 50]),
        Err(SessionError::BlockOverrun)
    );
    assert_eq!(piece.missing_data, 40);
    assert_eq!(piece.receive_block(60, &[3u8; 40]), Ok(true));
    assert_eq!(piece.missing_data, 0);
}

#[test]
fn empty_piece_queue() {
    let data = content(16384);
    let torrent = torrent_for(&data, 16384);
    let store = get_file_handlder(&torrent, &data);
    assert_eq!(store.bitfield, vec![0b1000_0000]);
    assert!(store.needed_pieces.is_empty());
    let mut session = ConnectionHandler::new();
    let actions = session
        .connect(&torrent, &store, &handshake_from_peer(&torrent))
        .unwrap();
    assert_eq!(actions.len(), 4);
    assert_eq!(sent(&actions[0]), bitfield_message(&[0b1000_0000]));
    assert_eq!(
        sent(&actions[1]),
        intention_message(MessageType::NotInterested)
    );
    assert_eq!(sent(&actions[2]), intention_message(MessageType::Unchoke));
    assert!(matches!(actions[3], SessionAction::Close));
    assert!(session.connected);
    assert!(!session.am_choking);
    assert!(!session.am_interested);
}

#[test]
fn nothing_on_disk_yet() {
    let data = content(40000);
    let torrent = torrent_for(&data, 16384);
    let store = get_file_handlder(&torrent, &vec![0u8; 40000]);
    let mut session = ConnectionHandler::new();
    let actions = session
        .connect(&torrent, &store, &handshake_from_peer(&torrent))
        .unwrap();
    assert_eq!(actions.len(), 1);
    assert_eq!(sent(&actions[0]), intention_message(MessageType::Interested));
    assert!(session.am_choking);
    assert!(session.am_interested);
}

#[test]
fn foreign_handshake_is_refused() {
    let data = content(16384);
    let torrent = torrent_for(&data, 16384);
    let store = get_file_handlder(&torrent, &data);
    let mut session = ConnectionHandler::new();
    let foreign = get_handshake_data(&[1u8; 20], b"-XX0001-abcdefghijkl");
    assert_eq!(
        session.connect(&torrent, &store, &foreign).unwrap_err(),
        SessionError::HandshakeInfohashMismatch
    );
    assert!(!session.connected);
}

#[test]
fn last_piece_short() {
    let data = content(40000);
    let torrent = torrent_for(&data, 16384);
    assert_eq!(torrent.pieces_amount, 3);
    let mut disk = vec![0u8; 40000];
    disk[..32768].copy_from_slice(&data[..32768]);
    let mut store = get_file_handlder(&torrent, &disk);
    assert_eq!(
        store.needed_pieces.iter().copied().collect::<Vec<usize>>(),
        vec![2]
    );
    let mut session = ready_session(&torrent, &mut store, &[0b1110_0000]);
    let actions = session
        .handle_message(&torrent, &mut store, &message(MessageType::Unchoke, &[]))
        .unwrap();
    assert_eq!(actions.len(), 1);
    assert_eq!(sent(&actions[0]), request_message(2, 0, 7232));
    assert_eq!(session.current_piece.as_ref().unwrap().data.len(), 7232);
    let actions = session
        .handle_message(&torrent, &mut store, &block(2, 0, &data[32768..]))
        .unwrap();
    assert_eq!(actions.len(), 4);
    match &actions[0] {
        SessionAction::WritePiece { index, offset, data: written } => {
            assert_eq!(*index, 2);
            assert_eq!(*offset, 32768);
            assert_eq!(written, &data[32768..].to_vec());
        }
        other => panic!("a write was expected, not {:?}", other),
    }
    assert_eq!(sent(&actions[1]), have_message(2));
    assert_eq!(
        sent(&actions[2]),
        intention_message(MessageType::NotInterested)
    );
    assert!(matches!(actions[3], SessionAction::Close));
    assert!(store.completed(&torrent));
}

#[test]
fn single_block_round_trip() {
    let data = content(32768);
    let torrent = torrent_for(&data, 16384);
    let mut store = get_file_handlder(&torrent, &vec![0u8; 32768]);
    let mut session = ready_session(&torrent, &mut store, &[0b1100_0000]);
    let actions = session
        .handle_message(&torrent, &mut store, &message(MessageType::Unchoke, &[]))
        .unwrap();
    assert_eq!(sent(&actions[0]), request_message(0, 0, 16384));
    let actions = session
        .handle_message(&torrent, &mut store, &block(0, 0, &data[..16384]))
        .unwrap();
    assert_eq!(actions.len(), 3);
    match &actions[0] {
        SessionAction::WritePiece { index, offset, data: written } => {
            assert_eq!(*index, 0);
            assert_eq!(*offset, 0);
            assert_eq!(written, &data[..16384].to_vec());
        }
        other => panic!("a write was expected, not {:?}", other),
    }
    assert_eq!(sent(&actions[1]), have_message(0));
    assert_eq!(sent(&actions[2]), request_message(1, 0, 16384));
    assert_eq!(store.bitfield, vec![0b1000_0000]);
    assert_eq!(session.current_piece.as_ref().unwrap().index, 1);
}

#[test]
fn pieces_of_several_blocks() {
    let data = content(40000);
    let torrent = torrent_for(&data, 40000);
    let mut store = get_file_handlder(&torrent, &vec![0u8; 40000]);
    let mut session = ready_session(&torrent, &mut store, &[0b1000_0000]);
    let actions = session
        .handle_message(&torrent, &mut store, &message(MessageType::Unchoke, &[]))
        .unwrap();
    assert_eq!(sent(&actions[0]), request_message(0, 0, 16384));
    let actions = session
        .handle_message(&torrent, &mut store, &block(0, 0, &data[..16384]))
        .unwrap();
    assert_eq!(actions.len(), 1);
    assert_eq!(sent(&actions[0]), request_message(0, 16384, 16384));
    let actions = session
        .handle_message(&torrent, &mut store, &block(0, 0, &data[..16384]))
        .unwrap();
    assert!(actions.is_empty());
    let actions = session
        .handle_message(&torrent, &mut store, &block(0, 16384, &data[16384..32768]))
        .unwrap();
    assert_eq!(sent(&actions[0]), request_message(0, 32768, 7232));
    let actions = session
        .handle_message(&torrent, &mut store, &block(0, 32768, &data[32768..]))
        .unwrap();
    assert!(matches!(actions[0], SessionAction::WritePiece { .. }));
    assert!(store.completed(&torrent));
    assert!(session.current_piece.is_none());
}

#[test]
fn hash_mismatch() {
    let data = content(32768);
    let torrent = torrent_for(&data, 16384);
    let mut store = get_file_handlder(&torrent, &vec![0u8; 32768]);
    let mut session = ready_session(&torrent, &mut store, &[0b1100_0000]);
    session
        .handle_message(&torrent, &mut store, &message(MessageType::Unchoke, &[]))
        .unwrap();
    let actions = session
        .handle_message(&torrent, &mut store, &block(0, 0, &vec![0x55u8; 16384]))
        .unwrap();
    assert_eq!(store.bitfield, vec![0]);
    assert_eq!(actions.len(), 1);
    assert_eq!(sent(&actions[0]), request_message(0, 0, 16384));
    assert_eq!(
        store.needed_pieces.iter().copied().collect::<Vec<usize>>(),
        vec![1]
    );
    assert_eq!(session.current_piece.as_ref().unwrap().index, 0);
    assert_eq!(session.current_piece.as_ref().unwrap().missing_data, 16384);
    assert_eq!(
        session
            .handle_message(&torrent, &mut store, &block(0, 0, &vec![0x56u8; 16384]))
            .unwrap_err(),
        SessionError::PeerCorrupting
    );
    assert!(session.current_piece.is_none());
    assert_eq!(
        store.needed_pieces.iter().copied().collect::<Vec<usize>>(),
        vec![0, 1]
    );
    assert_eq!(store.bitfield, vec![0]);
}

#[test]
fn bitfield_length_mismatch() {
    let data = content(17 * 16);
    let torrent = torrent_for(&data, 16);
    assert_eq!(torrent.pieces_amount, 17);
    let mut store = get_file_handlder(&torrent, &vec![0u8; 17 * 16]);
    let mut session = ConnectionHandler::new();
    session
        .connect(&torrent, &store, &handshake_from_peer(&torrent))
        .unwrap();
    assert_eq!(
        session
            .handle_message(&torrent, &mut store, &message(MessageType::Bitfield, &[0xff, 0xff]))
            .unwrap_err(),
        SessionError::BadBitfieldLength
    );
    assert!(session.bitfield.is_none());
    let mut other = ConnectionHandler::new();
    other
        .connect(&torrent, &store, &handshake_from_peer(&torrent))
        .unwrap();
    assert!(other
        .handle_message(
            &torrent,
            &mut store,
            &message(MessageType::Bitfield, &[0xff, 0xff, 0x80])
        )
        .is_ok());
    assert!(other.has_piece(16));
}

#[test]
fn late_bitfield_is_refused() {
    let data = content(64);
    let torrent = torrent_for(&data, 16);
    let mut store = get_file_handlder(&torrent, &vec![0u8; 64]);
    let mut session = ConnectionHandler::new();
    session
        .connect(&torrent, &store, &handshake_from_peer(&torrent))
        .unwrap();
    session
        .handle_message(&torrent, &mut store, &Message::parse(Vec::new()).unwrap())
        .unwrap();
    session
        .handle_message(&torrent, &mut store, &message(MessageType::Have, &[0, 0, 0, 1]))
        .unwrap();
    assert!(session.has_piece(1));
    assert!(!session.has_piece(0));
    assert_eq!(
        session
            .handle_message(&torrent, &mut store, &message(MessageType::Bitfield, &[0xf0]))
            .unwrap_err(),
        SessionError::UnexpectedBitfield
    );
}

#[test]
fn seed_request() {
    let data = content(32768);
    let torrent = torrent_for(&data, 16384);
    let mut disk = vec![0u8; 32768];
    disk[..16384].copy_from_slice(&data[..16384]);
    let mut store = get_file_handlder(&torrent, &disk);
    assert_eq!(store.bitfield, vec![0b1000_0000]);
    let mut session = ConnectionHandler::new();
    let actions = session
        .connect(&torrent, &store, &handshake_from_peer(&torrent))
        .unwrap();
    assert_eq!(sent(&actions[2]), intention_message(MessageType::Unchoke));
    let mut body = Vec::new();
    body.extend_from_slice(&0u32.to_be_bytes());
    body.extend_from_slice(&0u32.to_be_bytes());
    body.extend_from_slice(&16384u32.to_be_bytes());
    let actions = session
        .handle_message(&torrent, &mut store, &message(MessageType::Request, &body))
        .unwrap();
    assert_eq!(actions.len(), 1);
    match &actions[0] {
        SessionAction::ReadBlock { index, begin, offset, length } => {
            assert_eq!((*index, *begin, *offset, *length), (0, 0, 0, 16384));
            let start = *offset as usize;
            let reply = piece_message(*index, *begin, &disk[start..start + *length as usize]);
            assert_eq!(reply.len(), 4 + 1 + 4 + 4 + 16384);
            assert_eq!(&reply[..13], &[0, 0, 0x40, 9, 7, 0, 0, 0, 0, 0, 0, 0, 0]);
            assert_eq!(&reply[13..], &data[..16384]);
        }
        other => panic!("a read was expected, not {:?}", other),
    }
}

#[test]
fn requests_that_are_dropped() {
    let data = content(32768);
    let torrent = torrent_for(&data, 16384);
    let mut disk = vec![0u8; 32768];
    disk[..16384].copy_from_slice(&data[..16384]);
    let mut store = get_file_handlder(&torrent, &disk);
    let request = |index: u32, begin: u32, length: u32| {
        let mut body = Vec::new();
        body.extend_from_slice(&index.to_be_bytes());
        body.extend_from_slice(&begin.to_be_bytes());
        body.extend_from_slice(&length.to_be_bytes());
        message(MessageType::Request, &body)
    };
    let mut choking = ConnectionHandler::new();
    assert!(choking
        .handle_message(&torrent, &mut store, &request(0, 0, 16384))
        .unwrap()
        .is_empty());
    let mut session = ConnectionHandler::new();
    session
        .connect(&torrent, &store, &handshake_from_peer(&torrent))
        .unwrap();
    assert!(session
        .handle_message(&torrent, &mut store, &request(1, 0, 16384))
        .unwrap()
        .is_empty());
    assert!(session
        .handle_message(&torrent, &mut store, &request(0, 1, 16384))
        .unwrap()
        .is_empty());
    assert!(session
        .handle_message(&torrent, &mut store, &request(5, 0, 1))
        .unwrap()
        .is_empty());
    assert!(session
        .handle_message(&torrent, &mut store, &request(0, 0, 131073))
        .unwrap()
        .is_empty());
    let served = session
        .handle_message(&torrent, &mut store, &request(0, 16000, 384))
        .unwrap();
    assert!(matches!(
        served[0],
        SessionAction::ReadBlock { index: 0, begin: 16000, offset: 16000, length: 384 }
    ));
    assert_eq!(
        session
            .handle_message(&torrent, &mut store, &message(MessageType::Request, &[0; 11]))
            .unwrap_err(),
        SessionError::MalformedMessage
    );
}

#[test]
fn unexpected_blocks() {
    let data = content(32768);
    let torrent = torrent_for(&data, 16384);
    let mut store = get_file_handlder(&torrent, &vec![0u8; 32768]);
    let mut session = ready_session(&torrent, &mut store, &[0b1100_0000]);
    assert_eq!(
        session
            .handle_message(&torrent, &mut store, &block(0, 0, &data[..16384]))
            .unwrap_err(),
        SessionError::UnexpectedBlock
    );
    session
        .handle_message(&torrent, &mut store, &message(MessageType::Unchoke, &[]))
        .unwrap();
    assert_eq!(
        session
            .handle_message(&torrent, &mut store, &block(1, 0, &data[16384..]))
            .unwrap_err(),
        SessionError::UnexpectedBlock
    );
    assert_eq!(
        session
            .handle_message(&torrent, &mut store, &block(0, 1, &data[..16384]))
            .unwrap_err(),
        SessionError::BlockOverrun
    );
    assert_eq!(
        session
            .handle_message(&torrent, &mut store, &message(MessageType::Piece, &[0; 7]))
            .unwrap_err(),
        SessionError::MalformedMessage
    );
    assert_eq!(session.current_piece.as_ref().unwrap().missing_data, 16384);
}

#[test]
fn choke_state_follows_the_peer() {
    let data = content(64);
    let torrent = torrent_for(&data, 16);
    let mut disk = vec![0u8; 64];
    disk[..16].copy_from_slice(&data[..16]);
    let mut store = get_file_handlder(&torrent, &disk);
    let mut session = ConnectionHandler::new();
    session.connected = true;
    let actions = session
        .handle_message(&torrent, &mut store, &message(MessageType::Interested, &[]))
        .unwrap();
    assert!(session.peer_interested);
    assert!(!session.am_choking);
    assert_eq!(sent(&actions[0]), intention_message(MessageType::Unchoke));
    let actions = session
        .handle_message(&torrent, &mut store, &message(MessageType::Interested, &[]))
        .unwrap();
    assert!(actions.is_empty());
    session
        .handle_message(&torrent, &mut store, &message(MessageType::NotInterested, &[]))
        .unwrap();
    assert!(!session.peer_interested);
    session
        .handle_message(&torrent, &mut store, &message(MessageType::Unchoke, &[]))
        .unwrap();
    assert!(!session.peer_choking);
    session
        .handle_message(&torrent, &mut store, &message(MessageType::Choke, &[]))
        .unwrap();
    assert!(session.peer_choking);
    assert!(session
        .handle_message(&torrent, &mut store, &message(MessageType::Cancel, &[0; 12]))
        .unwrap()
        .is_empty());
    assert!(session
        .handle_message(&torrent, &mut store, &message(MessageType::Port, &[0x1a, 0xe1]))
        .unwrap()
        .is_empty());
}

#[test]
fn peer_without_the_piece() {
    let data = content(32);
    let torrent = torrent_for(&data, 16);
    let mut store = get_file_handlder(&torrent, &vec![0u8; 32]);
    let mut session = ready_session(&torrent, &mut store, &[0b0100_0000]);
    let actions = session
        .handle_message(&torrent, &mut store, &message(MessageType::Unchoke, &[]))
        .unwrap();
    assert!(actions.is_empty());
    assert!(session.current_piece.is_none());
    assert_eq!(
        store.needed_pieces.iter().copied().collect::<Vec<usize>>(),
        vec![0, 1]
    );
    let actions = session
        .handle_message(&torrent, &mut store, &message(MessageType::Have, &[0, 0, 0, 0]))
        .unwrap();
    assert_eq!(sent(&actions[0]), request_message(0, 0, 16));
    assert!(session
        .handle_message(&torrent, &mut store, &message(MessageType::Have, &[0, 0, 0, 9]))
        .unwrap()
        .is_empty());
    assert_eq!(
        session
            .handle_message(&torrent, &mut store, &message(MessageType::Have, &[0, 0, 0]))
            .unwrap_err(),
        SessionError::MalformedMessage
    );
}

#[test]
fn download_next_piece_with_an_empty_queue() {
    let data = content(16);
    let torrent = torrent_for(&data, 16);
    let mut store = get_file_handlder(&torrent, &data);
    let mut session = ConnectionHandler::new();
    session.am_interested = true;
    let actions = session.download_next_piece(&torrent, &mut store);
    assert_eq!(
        sent(&actions[0]),
        intention_message(MessageType::NotInterested)
    );
    assert!(!session.am_interested);
    assert!(session.download_next_piece(&torrent, &mut store).is_empty());
}
