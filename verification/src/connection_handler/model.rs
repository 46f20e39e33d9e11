use crate::bitfield::{all_set, any_set, bit_is_set, bitfield_len, with_bit};
use crate::connection_handler::message::{
    be32, bitfield_bytes, have_bytes, intention_bytes, request_bytes, ActionView, MessageType,
    SessionError,
};
use crate::connection_handler::piece::{
    block_verdict, fresh_piece, is_lowest_missing, no_block_missing, receive, BlockVerdict,
    PieceModel,
};
use crate::digest::sha1_of;
use crate::file_handler::{disk_with, StoreState};
use crate::torrent_file::meta_info::piece_start;
use crate::torrent_file::TorrentFile;
use crate::tracker::handshake_verdict;
use vstd::prelude::*;

verus! {

/// Longest block that a peer is served in one `piece` message.
pub const MAX_SERVED_LEN: u32 = 131072;

/// The piece in flight of a session.
pub struct InFlight {
    pub index: u32,
    pub piece: PieceModel,
}

/// The state of a peer session as plain mathematical values.
pub struct SessionState {
    pub connected: bool,
    pub am_choking: bool,
    pub am_interested: bool,
    pub peer_choking: bool,
    pub peer_interested: bool,
    pub bitfield: Option<Seq<u8>>,
    pub piece: Option<InFlight>,
    pub messages_seen: bool,
    pub hash_failed: bool,
}

/// What a step of the session leaves behind: the two states, the actions to
/// perform in order, and the error that ends the session, if any.
pub struct Outcome {
    pub session: SessionState,
    pub store: StoreState,
    pub actions: Seq<ActionView>,
    pub error: Option<SessionError>,
}

/// A session before the handshake: both sides choke, nobody is interested,
/// and nothing is known of the peer's pieces.
pub open spec fn initial_session() -> SessionState {
    SessionState {
        connected: false,
        am_choking: true,
        am_interested: false,
        peer_choking: true,
        peer_interested: false,
        bitfield: None,
        piece: None,
        messages_seen: false,
        hash_failed: false,
    }
}

/// Nothing changes and nothing is to be done.
pub open spec fn unchanged(s: SessionState, st: StoreState) -> Outcome {
    Outcome { session: s, store: st, actions: Seq::empty(), error: None }
}

/// Nothing changes and the session ends with `e`.
pub open spec fn failed(s: SessionState, st: StoreState, e: SessionError) -> Outcome {
    Outcome { session: s, store: st, actions: Seq::empty(), error: Some(e) }
}

/// Length of a request when `missing` bytes are missing.
pub open spec fn request_size(missing: int) -> u32 {
    if missing < 16384 {
        missing as u32
    } else {
        16384u32
    }
}

/// Whether the peer is known to have piece `index`.
pub open spec fn peer_has(s: SessionState, index: int) -> bool {
    s.connected && s.bitfield is Some && bit_is_set(s.bitfield->0, index)
}

/// The piece in flight is given up: it goes back to the front of the queue.
/// The first time this happens the session goes on; the second time it ends.
pub open spec fn piece_given_up(s: SessionState, st: StoreState, index: u32) -> Outcome {
    Outcome {
        session: SessionState { piece: None, hash_failed: true, ..s },
        store: StoreState { needed: seq![index as usize] + st.needed, ..st },
        actions: Seq::empty(),
        error: if s.hash_failed {
            Some(SessionError::PeerCorrupting)
        } else {
            None
        },
    }
}

/// A `piece` message arrived; `raw` is its payload after the id.
pub open spec fn block_outcome(
    torrent: &TorrentFile,
    s: SessionState,
    st: StoreState,
    raw: Seq<u8>,
) -> Outcome {
    if raw.len() < 8 {
        failed(s, st, SessionError::MalformedMessage)
    } else {
        let index = be32(raw.subrange(0, 4));
        let begin = be32(raw.subrange(4, 8)) as u32;
        let block = raw.subrange(8, raw.len() as int);
        if s.piece is None || s.piece->0.index != index {
            failed(s, st, SessionError::UnexpectedBlock)
        } else {
            let flight = s.piece->0;
            match block_verdict(flight.piece, begin, block) {
                BlockVerdict::Overrun => failed(s, st, SessionError::BlockOverrun),
                BlockVerdict::Duplicate => unchanged(s, st),
                BlockVerdict::Fresh => {
                    let p = receive(flight.piece, begin, block);
                    if p.missing > 0 {
                        if no_block_missing(p.received, p.data.len() as int) {
                            piece_given_up(s, st, flight.index)
                        } else {
                            let offset = choose|o: int|
                                is_lowest_missing(p.received, p.data.len() as int, o);
                            Outcome {
                                session: SessionState {
                                    piece: Some(InFlight { index: flight.index, piece: p }),
                                    ..s
                                },
                                store: st,
                                actions: seq![
                                    ActionView::Send(
                                        request_bytes(
                                            flight.index,
                                            offset as u32,
                                            request_size(p.missing),
                                        ),
                                    ),
                                ],
                                error: None,
                            }
                        }
                    } else if sha1_of(p.data) == torrent.info.expected_hash(flight.index as int) {
                        let offset = piece_start(
                            torrent.info.piece_length as int,
                            flight.index as int,
                        );
                        Outcome {
                            session: SessionState { piece: None, ..s },
                            store: StoreState {
                                bitfield: with_bit(st.bitfield, flight.index as int),
                                disk: disk_with(st.disk, offset, p.data),
                                ..st
                            },
                            actions: seq![
                                ActionView::WritePiece {
                                    index: flight.index,
                                    offset: offset,
                                    data: p.data,
                                },
                                ActionView::Send(have_bytes(flight.index)),
                            ],
                            error: None,
                        }
                    } else {
                        piece_given_up(s, st, flight.index)
                    }
                },
            }
        }
    }
}

/// Whether a request is served: we do not choke the peer, the piece is
/// verified on disk, the block is at most `MAX_SERVED_LEN` long and lies
/// inside the piece.
pub open spec fn request_served(
    torrent: &TorrentFile,
    s: SessionState,
    st: StoreState,
    index: int,
    begin: int,
    length: int,
) -> bool {
    &&& !s.am_choking
    &&& index < torrent.info.piece_count()
    &&& bit_is_set(st.bitfield, index)
    &&& length <= MAX_SERVED_LEN
    &&& begin + length <= torrent.info.piece_len(index)
}

/// A `request` message arrived; `raw` is its payload after the id. A request
/// that is not served is dropped without a word.
pub open spec fn request_outcome(
    torrent: &TorrentFile,
    s: SessionState,
    st: StoreState,
    raw: Seq<u8>,
) -> Outcome {
    if raw.len() != 12 {
        failed(s, st, SessionError::MalformedMessage)
    } else {
        let index = be32(raw.subrange(0, 4));
        let begin = be32(raw.subrange(4, 8));
        let length = be32(raw.subrange(8, 12));
        if request_served(torrent, s, st, index, begin, length) {
            Outcome {
                session: s,
                store: st,
                actions: seq![
                    ActionView::ReadBlock {
                        index: index as u32,
                        begin: begin as u32,
                        offset: piece_start(torrent.info.piece_length as int, index) + begin,
                        length: length as u32,
                    },
                ],
                error: None,
            }
        } else {
            unchanged(s, st)
        }
    }
}

/// What a handler that touches the session alone leaves behind.
pub struct SessionEffect {
    pub session: SessionState,
    pub error: Option<SessionError>,
}

/// The outcome of a handler that touches the session alone.
pub open spec fn session_only(effect: SessionEffect, st: StoreState) -> Outcome {
    Outcome { session: effect.session, store: st, actions: Seq::empty(), error: effect.error }
}

/// A `have` message arrived; `raw` is its payload after the id. An index that
/// names no piece is ignored. Where no bitmap is known yet, the peer's bitmap
/// starts empty.
pub open spec fn have_effect(torrent: &TorrentFile, s: SessionState, raw: Seq<u8>) -> SessionEffect {
    if raw.len() != 4 {
        SessionEffect { session: s, error: Some(SessionError::MalformedMessage) }
    } else {
        let index = be32(raw);
        if index >= torrent.info.piece_count() {
            SessionEffect { session: s, error: None }
        } else {
            let bits = match s.bitfield {
                Some(bits) => bits,
                None => Seq::new(
                    bitfield_len(torrent.info.piece_count()) as nat,
                    |i: int| 0u8,
                ),
            };
            SessionEffect {
                session: SessionState { bitfield: Some(with_bit(bits, index)), ..s },
                error: None,
            }
        }
    }
}

/// A `bitfield` message arrived; `raw` is its payload after the id. It is
/// accepted as the first message only, and with one bit per piece.
pub open spec fn bitfield_effect(torrent: &TorrentFile, s: SessionState, raw: Seq<u8>) -> SessionEffect {
    if s.messages_seen {
        SessionEffect { session: s, error: Some(SessionError::UnexpectedBitfield) }
    } else if raw.len() != bitfield_len(torrent.info.piece_count()) {
        SessionEffect { session: s, error: Some(SessionError::BadBitfieldLength) }
    } else {
        SessionEffect { session: SessionState { bitfield: Some(raw), ..s }, error: None }
    }
}

/// The peer declared interest: it is unchoked as soon as we hold a piece.
pub open spec fn interested_outcome(torrent: &TorrentFile, s: SessionState, st: StoreState) -> Outcome {
    if s.am_choking && any_set(st.bitfield, torrent.info.piece_count()) {
        Outcome {
            session: SessionState { peer_interested: true, am_choking: false, ..s },
            store: st,
            actions: seq![ActionView::Send(intention_bytes(MessageType::Unchoke))],
            error: None,
        }
    } else {
        unchanged(SessionState { peer_interested: true, ..s }, st)
    }
}

/// The next needed piece is taken up. With nothing queued, the peer is told
/// once that we lost interest. A piece that the peer lacks stays at the front
/// of the queue. Any other piece becomes the piece in flight, and its first
/// block is requested.
#[verifier::opaque]
pub open spec fn acquire_outcome(torrent: &TorrentFile, s: SessionState, st: StoreState) -> Outcome {
    if st.needed.len() == 0 {
        if s.am_interested {
            Outcome {
                session: SessionState { am_interested: false, ..s },
                store: st,
                actions: seq![ActionView::Send(intention_bytes(MessageType::NotInterested))],
                error: None,
            }
        } else {
            unchanged(s, st)
        }
    } else {
        let index = st.needed[0];
        if s.piece is Some || !peer_has(s, index as int) {
            unchanged(s, st)
        } else {
            let length = torrent.info.piece_len(index as int);
            Outcome {
                session: SessionState {
                    piece: Some(
                        InFlight { index: index as u32, piece: fresh_piece(length as nat) },
                    ),
                    ..s
                },
                store: StoreState { needed: st.needed.subrange(1, st.needed.len() as int), ..st },
                actions: seq![
                    ActionView::Send(request_bytes(index as u32, 0, request_size(length))),
                ],
                error: None,
            }
        }
    }
}

/// Whether the session takes up a new piece after a message: the handshake
/// is done, the peer does not choke us, its bitmap is known, no piece is in
/// flight and one is needed.
pub open spec fn ready_to_acquire(s: SessionState, st: StoreState) -> bool {
    s.connected && !s.peer_choking && s.bitfield is Some && s.piece is None && st.needed.len() > 0
}

/// What the message itself does, before the session looks for more work.
#[verifier::opaque]
pub open spec fn message_outcome(
    torrent: &TorrentFile,
    s: SessionState,
    st: StoreState,
    kind: MessageType,
    body: Seq<u8>,
) -> Outcome {
    match kind {
        MessageType::Choke => unchanged(SessionState { peer_choking: true, ..s }, st),
        MessageType::Unchoke => unchanged(SessionState { peer_choking: false, ..s }, st),
        MessageType::Interested => interested_outcome(torrent, s, st),
        MessageType::NotInterested => unchanged(SessionState { peer_interested: false, ..s }, st),
        MessageType::Have => session_only(have_effect(torrent, s, body), st),
        MessageType::Bitfield => session_only(bitfield_effect(torrent, s, body), st),
        MessageType::Request => request_outcome(torrent, s, st, body),
        MessageType::Piece => block_outcome(torrent, s, st, body),
        MessageType::Cancel => unchanged(s, st),
        MessageType::Port => unchanged(s, st),
    }
}

/// The payload of a message after its id.
pub open spec fn message_body(payload: Seq<u8>) -> Seq<u8> {
    if payload.len() == 0 {
        payload
    } else {
        payload.subrange(1, payload.len() as int)
    }
}

/// One step of the session: a keep-alive changes nothing; any other message
/// has its own effect, after which the session ends where every piece is on
/// disk, and else takes up a new piece where it is ready to.
pub open spec fn step(
    torrent: &TorrentFile,
    s: SessionState,
    st: StoreState,
    kind: Option<MessageType>,
    payload: Seq<u8>,
) -> Outcome {
    match kind {
        None => unchanged(s, st),
        Some(kind) => {
            let first = message_outcome(torrent, s, st, kind, message_body(payload));
            if first.error is Some {
                first
            } else {
                let seen = SessionState { messages_seen: true, ..first.session };
                if all_set(first.store.bitfield, torrent.info.piece_count()) {
                    Outcome {
                        session: SessionState { am_interested: false, ..seen },
                        store: first.store,
                        actions: first.actions + seq![
                            ActionView::Send(intention_bytes(MessageType::NotInterested)),
                            ActionView::Close,
                        ],
                        error: None,
                    }
                } else if ready_to_acquire(seen, first.store) {
                    let next = acquire_outcome(torrent, seen, first.store);
                    Outcome {
                        session: next.session,
                        store: next.store,
                        actions: first.actions + next.actions,
                        error: None,
                    }
                } else {
                    Outcome { session: seen, ..first }
                }
            }
        },
    }
}

/// What follows the peer's handshake: a handshake that fails the check ends
/// the session. Otherwise the session is connected; our bitmap is sent if it
/// has a bit set; interest is declared if a piece is needed, and disclaimed
/// if none is; the peer is unchoked if we hold a piece; and the session ends
/// at once where every piece is on disk.
pub open spec fn connect_outcome(
    torrent: &TorrentFile,
    s: SessionState,
    st: StoreState,
    response: Seq<u8>,
) -> Outcome {
    match handshake_verdict(response, torrent.info_hash@) {
        Err(e) => failed(s, st, e),
        Ok(_) => {
            let count = torrent.info.piece_count();
            let holds = any_set(st.bitfield, count);
            let wants = st.needed.len() > 0;
            let done = all_set(st.bitfield, count);
            Outcome {
                session: SessionState {
                    connected: true,
                    am_interested: wants,
                    am_choking: if holds {
                        false
                    } else {
                        s.am_choking
                    },
                    ..s
                },
                store: st,
                actions: (if holds {
                    seq![ActionView::Send(bitfield_bytes(st.bitfield))]
                } else {
                    Seq::empty()
                }) + seq![
                    ActionView::Send(
                        intention_bytes(
                            if wants {
                                MessageType::Interested
                            } else {
                                MessageType::NotInterested
                            },
                        ),
                    ),
                ] + (if holds {
                    seq![ActionView::Send(intention_bytes(MessageType::Unchoke))]
                } else {
                    Seq::empty()
                }) + (if done {
                    seq![ActionView::Close]
                } else {
                    Seq::empty()
                }),
                error: None,
            }
        },
    }
}

} // verus!
