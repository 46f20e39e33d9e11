pub mod handlers;
pub mod message;
pub mod model;
pub mod piece;
pub mod reassembly;

use crate::bitfield::{any_bit_set, has_bit};
use crate::connection_handler::message::{
    actions_view, bitfield_bytes, bitfield_message, have_bytes, have_message, intention_bytes,
    intention_message, request_bytes, request_message, ActionView, Message, MessageType, Piece,
    SessionAction, SessionError,
};
use crate::connection_handler::model::{
    acquire_outcome, connect_outcome, initial_session, message_body, message_outcome, peer_has,
    request_size, step, InFlight, Outcome, SessionState,
};
use crate::connection_handler::piece::fresh_piece;
use crate::file_handler::{FileHandler, StoreState};
use crate::torrent_file::TorrentFile;
use crate::tracker::check_handshake;
use vstd::prelude::*;
use vstd::slice::slice_subrange;

verus! {

/// One peer session: what each side has told the other, what the peer is
/// known to hold, and the piece that is being downloaded from it.
pub struct ConnectionHandler {
    /// The handshake was exchanged and accepted.
    pub connected: bool,
    pub am_choking: bool,
    pub am_interested: bool,
    pub peer_choking: bool,
    pub peer_interested: bool,
    pub current_piece: Option<Piece>,
    /// The peer's bitmap, once it is known.
    pub bitfield: Option<Vec<u8>>,
    /// A message other than a keep-alive arrived after the handshake.
    pub messages_seen: bool,
    /// A piece from this peer was given up before.
    pub hash_failed: bool,
}

impl View for ConnectionHandler {
    type V = SessionState;

    open spec fn view(&self) -> SessionState {
        SessionState {
            connected: self.connected,
            am_choking: self.am_choking,
            am_interested: self.am_interested,
            peer_choking: self.peer_choking,
            peer_interested: self.peer_interested,
            bitfield: match self.bitfield {
                Some(bits) => Some(bits@),
                None => None,
            },
            piece: match self.current_piece {
                Some(piece) => Some(InFlight { index: piece.index, piece: piece.model() }),
                None => None,
            },
            messages_seen: self.messages_seen,
            hash_failed: self.hash_failed,
        }
    }
}

/// The outcome that a handler reports: the states it left, and the actions
/// or the error it returned.
pub open spec fn outcome_of(
    s: SessionState,
    st: StoreState,
    r: Result<Vec<SessionAction>, SessionError>,
) -> Outcome {
    match r {
        Ok(actions) => Outcome {
            session: s,
            store: st,
            actions: actions_view(actions@),
            error: None,
        },
        Err(e) => Outcome { session: s, store: st, actions: Seq::empty(), error: Some(e) },
    }
}

/// Queues a message without a body for sending.
pub fn send_intention(actions: &mut Vec<SessionAction>, msg_type: MessageType)
    ensures
        actions_view(final(actions)@) == actions_view(old(actions)@).push(
            ActionView::Send(intention_bytes(msg_type)),
        ),
{
    actions.push(SessionAction::Send(intention_message(msg_type)));
    assert(actions_view(actions@) =~= actions_view(old(actions)@).push(
        ActionView::Send(intention_bytes(msg_type)),
    ));
}

/// Queues our bitmap for sending.
pub fn send_bitfield(actions: &mut Vec<SessionAction>, bits: &[u8])
    requires
        bits@.len() < u32::MAX,
    ensures
        actions_view(final(actions)@) == actions_view(old(actions)@).push(
            ActionView::Send(bitfield_bytes(bits@)),
        ),
{
    actions.push(SessionAction::Send(bitfield_message(bits)));
    assert(actions_view(actions@) =~= actions_view(old(actions)@).push(
        ActionView::Send(bitfield_bytes(bits@)),
    ));
}

/// Queues the announcement that piece `piece_index` is now on disk.
pub fn send_have(actions: &mut Vec<SessionAction>, piece_index: u32)
    ensures
        actions_view(final(actions)@) == actions_view(old(actions)@).push(
            ActionView::Send(have_bytes(piece_index)),
        ),
{
    actions.push(SessionAction::Send(have_message(piece_index)));
    assert(actions_view(actions@) =~= actions_view(old(actions)@).push(
        ActionView::Send(have_bytes(piece_index)),
    ));
}

/// Queues the request for `length` bytes of `piece` from `offset` on.
pub fn request_piece(actions: &mut Vec<SessionAction>, piece: u32, offset: u32, length: u32)
    ensures
        actions_view(final(actions)@) == actions_view(old(actions)@).push(
            ActionView::Send(request_bytes(piece, offset, length)),
        ),
{
    actions.push(SessionAction::Send(request_message(piece, offset, length)));
    assert(actions_view(actions@) =~= actions_view(old(actions)@).push(
        ActionView::Send(request_bytes(piece, offset, length)),
    ));
}

/// Appends `more` to `actions`.
pub fn append_actions(actions: &mut Vec<SessionAction>, more: Vec<SessionAction>)
    ensures
        actions_view(final(actions)@) == actions_view(old(actions)@) + actions_view(more@),
{
    let mut more = more;
    let ghost tail = more@;
    actions.append(&mut more);
    assert(actions_view(actions@) =~= actions_view(old(actions)@) + actions_view(tail));
}

impl ConnectionHandler {
    /// The peer's bitmap, where known, has one bit per piece; the piece in
    /// flight, where there is one, is a piece of the file, has a buffer of
    /// that piece's exact length, and lacks at least one byte.
    pub open spec fn wf(&self, torrent: &TorrentFile) -> bool {
        &&& torrent.wf()
        &&& self.bitfield matches Some(bits) ==> bits@.len() == crate::bitfield::bitfield_len(
            torrent.info.piece_count(),
        )
        &&& self.current_piece matches Some(piece) ==> {
            &&& piece.wf()
            &&& piece.index < torrent.info.piece_count()
            &&& piece.data@.len() == torrent.info.piece_len(piece.index as int)
            &&& piece.missing_data > 0
        }
    }

    /// A session before the handshake.
    pub fn new() -> (session: ConnectionHandler)
        ensures
            session@ == initial_session(),
            session.bitfield is None,
            session.current_piece is None,
    {
        ConnectionHandler {
            connected: false,
            am_choking: true,
            am_interested: false,
            peer_choking: true,
            peer_interested: false,
            current_piece: None,
            bitfield: None,
            messages_seen: false,
            hash_failed: false,
        }
    }

    /// Whether the peer is known to have `piece`: never before the handshake
    /// or before its bitmap is known.
    pub fn has_piece(&self, piece: usize) -> (r: bool)
        ensures
            r == peer_has(self@, piece as int),
    {
        if !self.connected {
            return false;
        }
        match &self.bitfield {
            None => false,
            Some(bits) => has_bit(bits.as_slice(), piece),
        }
    }

    /// Makes `piece_index` the piece in flight, with nothing received.
    pub fn start_new_piece(&mut self, torrent: &TorrentFile, piece_index: u32)
        requires
            old(self).wf(torrent),
            piece_index < torrent.info.piece_count(),
        ensures
            final(self).wf(torrent),
            final(self)@ == (SessionState {
                piece: Some(
                    InFlight {
                        index: piece_index,
                        piece: fresh_piece(torrent.info.piece_len(piece_index as int) as nat),
                    },
                ),
                ..old(self)@
            }),
    {
        let length = torrent.info.piece_length_of(piece_index as usize);
        self.current_piece = Some(Piece::new(piece_index, length));
    }

    /// Takes up the next needed piece.
    pub fn download_next_piece(&mut self, torrent: &TorrentFile, store: &mut FileHandler) -> (actions:
        Vec<SessionAction>)
        requires
            old(self).wf(torrent),
            old(store).wf(torrent),
        ensures
            final(self).wf(torrent),
            final(store).wf(torrent),
            outcome_of(final(self)@, final(store)@, Ok(actions)) == acquire_outcome(
                torrent,
                old(self)@,
                old(store)@,
            ),
    {
        reveal(acquire_outcome);
        let mut actions: Vec<SessionAction> = Vec::new();
        assert(actions_view(actions@) =~= Seq::empty());
        let next = match store.take_next_needed() {
            Some(index) => index,
            None => {
                if self.am_interested {
                    self.am_interested = false;
                    send_intention(&mut actions, MessageType::NotInterested);
                    assert(actions_view(actions@) =~= seq![
                        ActionView::Send(intention_bytes(MessageType::NotInterested)),
                    ]);
                }
                assert(store@.needed =~= old(store)@.needed);
                return actions;
            },
        };
        if self.current_piece.is_some() || !self.has_piece(next) {
            store.requeue_front(next);
            assert(store@.needed =~= old(store)@.needed);
            return actions;
        }
        self.start_new_piece(torrent, next as u32);
        let length = torrent.info.piece_length_of(next);
        let size: u32 = if length < 16384 {
            length as u32
        } else {
            16384
        };
        request_piece(&mut actions, next as u32, 0, size);
        assert(actions_view(actions@) =~= seq![
            ActionView::Send(request_bytes(next as u32, 0, request_size(length as int))),
        ]);
        actions
    }

    /// Answers the peer's handshake.
    pub fn connect(&mut self, torrent: &TorrentFile, store: &FileHandler, response: &[u8; 68]) -> (r:
        Result<Vec<SessionAction>, SessionError>)
        requires
            old(self).wf(torrent),
            store.wf(torrent),
        ensures
            final(self).wf(torrent),
            outcome_of(final(self)@, store@, r) == connect_outcome(
                torrent,
                old(self)@,
                store@,
                response@,
            ),
    {
        match check_handshake(response, &torrent.info_hash) {
            Err(e) => {
                return Err(e);
            },
            Ok(_) => {},
        }
        let mut actions: Vec<SessionAction> = Vec::new();
        assert(actions_view(actions@) =~= Seq::empty());
        let count = torrent.pieces_amount;
        let holds = any_bit_set(store.bitfield.as_slice(), count);
        let wants = store.needed_pieces.len() > 0;
        let done = store.completed(torrent);
        self.connected = true;
        if holds {
            send_bitfield(&mut actions, store.bitfield.as_slice());
        }
        let ghost first = actions_view(actions@);
        self.am_interested = wants;
        if wants {
            send_intention(&mut actions, MessageType::Interested);
        } else {
            send_intention(&mut actions, MessageType::NotInterested);
        }
        let ghost second = actions_view(actions@);
        if holds {
            self.am_choking = false;
            send_intention(&mut actions, MessageType::Unchoke);
        }
        let ghost third = actions_view(actions@);
        if done {
            actions.push(SessionAction::Close);
        }
        proof {
            let kind = if wants {
                MessageType::Interested
            } else {
                MessageType::NotInterested
            };
            let a = if holds {
                seq![ActionView::Send(bitfield_bytes(store.bitfield@))]
            } else {
                Seq::<ActionView>::empty()
            };
            let b = seq![ActionView::Send(intention_bytes(kind))];
            let c = if holds {
                seq![ActionView::Send(intention_bytes(MessageType::Unchoke))]
            } else {
                Seq::<ActionView>::empty()
            };
            let d = if done {
                seq![ActionView::Close]
            } else {
                Seq::<ActionView>::empty()
            };
            assert(first =~= a);
            assert(second =~= a + b);
            assert(third =~= a + b + c);
            assert(actions_view(actions@) =~= a + b + c + d);
        }
        Ok(actions)
    }

    /// Ends the session: it is no longer connected, and the piece in flight,
    /// if there is one, goes back to the front of the queue.
    pub fn close(&mut self, torrent: &TorrentFile, store: &mut FileHandler)
        requires
            old(self).wf(torrent),
            old(store).wf(torrent),
        ensures
            final(self).wf(torrent),
            final(store).wf(torrent),
            final(self)@ == (SessionState { connected: false, piece: None, ..old(self)@ }),
            final(store)@ == (StoreState {
                needed: match old(self)@.piece {
                    Some(flight) => seq![flight.index as usize] + old(store)@.needed,
                    None => old(store)@.needed,
                },
                ..old(store)@
            }),
    {
        self.connected = false;
        match self.current_piece.take() {
            Some(piece) => {
                store.requeue_front(piece.index as usize);
            },
            None => {},
        }
    }

    /// What a message does by itself; `body` is its payload after the id.
    pub fn handle_kind(
        &mut self,
        torrent: &TorrentFile,
        store: &mut FileHandler,
        kind: MessageType,
        body: &[u8],
    ) -> (r: Result<Vec<SessionAction>, SessionError>)
        requires
            old(self).wf(torrent),
            old(store).wf(torrent),
        ensures
            final(self).wf(torrent),
            final(store).wf(torrent),
            outcome_of(final(self)@, final(store)@, r) == message_outcome(
                torrent,
                old(self)@,
                old(store)@,
                kind,
                body@,
            ),
    {
        reveal(message_outcome);
        let mut actions: Vec<SessionAction> = Vec::new();
        assert(actions_view(actions@) =~= Seq::empty());
        match kind {
            MessageType::Choke => {
                self.peer_choking = true;
                Ok(actions)
            },
            MessageType::Unchoke => {
                self.peer_choking = false;
                Ok(actions)
            },
            MessageType::Interested => {
                self.peer_interested = true;
                if self.am_choking && any_bit_set(
                    store.bitfield.as_slice(),
                    torrent.pieces_amount,
                ) {
                    self.am_choking = false;
                    send_intention(&mut actions, MessageType::Unchoke);
                    assert(actions_view(actions@) =~= seq![
                        ActionView::Send(intention_bytes(MessageType::Unchoke)),
                    ]);
                }
                Ok(actions)
            },
            MessageType::NotInterested => {
                self.peer_interested = false;
                Ok(actions)
            },
            MessageType::Have => {
                match self.handle_have(torrent, body) {
                    Err(e) => Err(e),
                    Ok(_) => Ok(actions),
                }
            },
            MessageType::Bitfield => {
                match self.handle_bitfield(torrent, body) {
                    Err(e) => Err(e),
                    Ok(_) => Ok(actions),
                }
            },
            MessageType::Request => self.handle_request_piece(torrent, store, body),
            MessageType::Piece => self.handle_new_piece(torrent, store, body),
            MessageType::Cancel => Ok(actions),
            MessageType::Port => Ok(actions),
        }
    }

    /// One step of the message loop: takes in one message, then ends the
    /// session where the download is complete, or takes up a new piece where
    /// the session is ready to.
    pub fn handle_message(
        &mut self,
        torrent: &TorrentFile,
        store: &mut FileHandler,
        msg: &Message,
    ) -> (r: Result<Vec<SessionAction>, SessionError>)
        requires
            old(self).wf(torrent),
            old(store).wf(torrent),
        ensures
            final(self).wf(torrent),
            final(store).wf(torrent),
            outcome_of(final(self)@, final(store)@, r) == step(
                torrent,
                old(self)@,
                old(store)@,
                msg.msg_type,
                msg.data@,
            ),
    {
        let kind = match msg.msg_type {
            None => {
                let actions: Vec<SessionAction> = Vec::new();
                assert(actions_view(actions@) =~= Seq::empty());
                return Ok(actions);
            },
            Some(kind) => kind,
        };
        let total = msg.data.len();
        let body = if total == 0 {
            slice_subrange(msg.data.as_slice(), 0, 0)
        } else {
            slice_subrange(msg.data.as_slice(), 1, total)
        };
        assert(body@ =~= message_body(msg.data@));
        let mut actions = match self.handle_kind(torrent, store, kind, body) {
            Err(e) => {
                return Err(e);
            },
            Ok(actions) => actions,
        };
        let ghost first = message_outcome(torrent, old(self)@, old(store)@, kind, body@);
        assert(actions_view(actions@) == first.actions);
        self.messages_seen = true;
        if store.completed(torrent) {
            self.am_interested = false;
            send_intention(&mut actions, MessageType::NotInterested);
            let ghost sent = actions@;
            assert(actions_view(sent) == first.actions.push(
                ActionView::Send(intention_bytes(MessageType::NotInterested)),
            ));
            actions.push(SessionAction::Close);
            assert(actions_view(actions@) =~= actions_view(sent).push(ActionView::Close));
            assert(actions_view(actions@) =~= first.actions + seq![
                ActionView::Send(intention_bytes(MessageType::NotInterested)),
                ActionView::Close,
            ]);
        } else if self.connected && !self.peer_choking && self.bitfield.is_some()
            && self.current_piece.is_none() && store.needed_pieces.len() > 0 {
            let more = self.download_next_piece(torrent, store);
            append_actions(&mut actions, more);
        }
        Ok(actions)
    }
}

} // verus!
