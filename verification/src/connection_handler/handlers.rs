use crate::bitfield::{bitfield_len, empty_bitfield, has_bit, set_bit};
use crate::connection_handler::message::{
    actions_view, have_bytes, read_be32, request_bytes, ActionView, SessionAction, SessionError,
};
use crate::connection_handler::model::{
    bitfield_effect, block_outcome, have_effect, piece_given_up, request_outcome, request_size,
    SessionEffect, MAX_SERVED_LEN,
};
use crate::connection_handler::piece::is_lowest_missing;
use crate::connection_handler::{outcome_of, request_piece, send_have, ConnectionHandler};
use crate::digest::copy_range;
use crate::file_handler::FileHandler;
use crate::torrent_file::meta_info::{lemma_piece_layout, piece_start};
use crate::torrent_file::TorrentFile;
use vstd::prelude::*;
use vstd::slice::slice_subrange;

verus! {

/// There is one lowest missing block start at most.
pub proof fn lemma_lowest_missing_unique(received: Set<u32>, length: int, a: int, b: int)
    requires
        is_lowest_missing(received, length, a),
        is_lowest_missing(received, length, b),
    ensures
        a == b,
{
}

impl ConnectionHandler {
    /// Gives up the piece that was in flight: it goes back to the front of
    /// the queue, and a second time ends the session.
    pub fn give_up_piece(&mut self, torrent: &TorrentFile, store: &mut FileHandler, index: u32) -> (r:
        Result<Vec<SessionAction>, SessionError>)
        requires
            old(self).wf(torrent),
            old(store).wf(torrent),
            index < torrent.info.piece_count(),
        ensures
            final(self).wf(torrent),
            final(store).wf(torrent),
            outcome_of(final(self)@, final(store)@, r) == piece_given_up(
                old(self)@,
                old(store)@,
                index,
            ),
    {
        let before = self.hash_failed;
        self.current_piece = None;
        self.hash_failed = true;
        store.requeue_front(index as usize);
        if before {
            Err(SessionError::PeerCorrupting)
        } else {
            let actions: Vec<SessionAction> = Vec::new();
            assert(actions_view(actions@) =~= Seq::empty());
            Ok(actions)
        }
    }

    /// Takes in a block; `raw_msg` is the payload of the `piece` message
    /// after the id. A completed piece is hashed: with the expected digest it
    /// is committed to the store and announced, with another it is given up.
    pub fn handle_new_piece(
        &mut self,
        torrent: &TorrentFile,
        store: &mut FileHandler,
        raw_msg: &[u8],
    ) -> (r: Result<Vec<SessionAction>, SessionError>)
        requires
            old(self).wf(torrent),
            old(store).wf(torrent),
        ensures
            final(self).wf(torrent),
            final(store).wf(torrent),
            outcome_of(final(self)@, final(store)@, r) == block_outcome(
                torrent,
                old(self)@,
                old(store)@,
                raw_msg@,
            ),
    {
        if raw_msg.len() < 8 {
            return Err(SessionError::MalformedMessage);
        }
        let index: u32 = read_be32(raw_msg, 0);
        let begin: u32 = read_be32(raw_msg, 4);
        let block = slice_subrange(raw_msg, 8, raw_msg.len());
        let mut piece = match self.current_piece.take() {
            None => {
                return Err(SessionError::UnexpectedBlock);
            },
            Some(piece) => piece,
        };
        if piece.index != index {
            self.current_piece = Some(piece);
            return Err(SessionError::UnexpectedBlock);
        }
        match piece.receive_block(begin, block) {
            Err(e) => {
                self.current_piece = Some(piece);
                return Err(e);
            },
            Ok(false) => {
                self.current_piece = Some(piece);
                let actions: Vec<SessionAction> = Vec::new();
                assert(actions_view(actions@) =~= Seq::empty());
                return Ok(actions);
            },
            Ok(true) => {},
        }
        let mut actions: Vec<SessionAction> = Vec::new();
        if piece.missing_data > 0 {
            match piece.next_offset() {
                Some(offset) => {
                    let size = piece.request_len();
                    request_piece(&mut actions, index, offset, size);
                    proof {
                        let length = piece.data@.len() as int;
                        let chosen = choose|o: int|
                            is_lowest_missing(piece.received_offsets@, length, o);
                        lemma_lowest_missing_unique(
                            piece.received_offsets@,
                            length,
                            offset as int,
                            chosen,
                        );
                        assert(actions_view(actions@) =~= seq![
                            ActionView::Send(
                                request_bytes(
                                    index,
                                    offset,
                                    request_size(piece.missing_data as int),
                                ),
                            ),
                        ]);
                    }
                    self.current_piece = Some(piece);
                    Ok(actions)
                },
                None => self.give_up_piece(torrent, store, index),
            }
        } else {
            proof {
                lemma_piece_layout(
                    torrent.info.length as int,
                    torrent.info.piece_length as int,
                    index as int,
                );
            }
            if torrent.info.verify_piece(index as usize, piece.data.as_slice()) {
                store.write_piece_to_file(torrent, index as usize, piece.data.as_slice());
                let offset: u64 = (index as u64) * (torrent.info.piece_length as u64);
                actions.push(SessionAction::WritePiece { index, offset, data: piece.data });
                send_have(&mut actions, index);
                assert(actions_view(actions@) =~= seq![
                    ActionView::WritePiece {
                        index: index,
                        offset: piece_start(torrent.info.piece_length as int, index as int),
                        data: piece.data@,
                    },
                    ActionView::Send(have_bytes(index)),
                ]);
                Ok(actions)
            } else {
                self.give_up_piece(torrent, store, index)
            }
        }
    }

    /// Decides on a request; `raw_msg` is the payload of the `request`
    /// message after the id.
    pub fn handle_request_piece(
        &self,
        torrent: &TorrentFile,
        store: &FileHandler,
        raw_msg: &[u8],
    ) -> (r: Result<Vec<SessionAction>, SessionError>)
        requires
            self.wf(torrent),
            store.wf(torrent),
        ensures
            outcome_of(self@, store@, r) == request_outcome(torrent, self@, store@, raw_msg@),
    {
        if raw_msg.len() != 12 {
            return Err(SessionError::MalformedMessage);
        }
        let index: u32 = read_be32(raw_msg, 0);
        let begin: u32 = read_be32(raw_msg, 4);
        let length: u32 = read_be32(raw_msg, 8);
        let mut actions: Vec<SessionAction> = Vec::new();
        assert(actions_view(actions@) =~= Seq::empty());
        if self.am_choking || (index as usize) >= torrent.pieces_amount || !has_bit(
            store.bitfield.as_slice(),
            index as usize,
        ) || length > MAX_SERVED_LEN {
            return Ok(actions);
        }
        let size = torrent.info.piece_length_of(index as usize);
        if begin as u64 + length as u64 > size as u64 {
            return Ok(actions);
        }
        proof {
            lemma_piece_layout(
                torrent.info.length as int,
                torrent.info.piece_length as int,
                index as int,
            );
        }
        let offset: u64 = (index as u64) * (torrent.info.piece_length as u64) + begin as u64;
        actions.push(SessionAction::ReadBlock { index, begin, offset, length });
        assert(actions_view(actions@) =~= seq![
            ActionView::ReadBlock {
                index: index,
                begin: begin,
                offset: piece_start(torrent.info.piece_length as int, index as int) + begin,
                length: length,
            },
        ]);
        Ok(actions)
    }

    /// Takes in a `have` message; `raw_msg` is its payload after the id.
    pub fn handle_have(&mut self, torrent: &TorrentFile, raw_msg: &[u8]) -> (r: Result<
        (),
        SessionError,
    >)
        requires
            old(self).wf(torrent),
        ensures
            final(self).wf(torrent),
            (SessionEffect {
                session: final(self)@,
                error: match r {
                    Ok(_) => None,
                    Err(e) => Some(e),
                },
            }) == have_effect(torrent, old(self)@, raw_msg@),
    {
        if raw_msg.len() != 4 {
            return Err(SessionError::MalformedMessage);
        }
        let index: u32 = read_be32(raw_msg, 0);
        assert(raw_msg@.subrange(0, 4) =~= raw_msg@);
        if (index as usize) >= torrent.pieces_amount {
            return Ok(());
        }
        let mut bits = match self.bitfield.take() {
            Some(bits) => bits,
            None => {
                let bits = empty_bitfield(torrent.pieces_amount);
                assert(bits@ =~= Seq::new(
                    bitfield_len(torrent.info.piece_count()) as nat,
                    |i: int| 0u8,
                ));
                bits
            },
        };
        set_bit(&mut bits, index as usize);
        self.bitfield = Some(bits);
        Ok(())
    }

    /// Takes in a `bitfield` message; `raw_msg` is its payload after the id.
    pub fn handle_bitfield(&mut self, torrent: &TorrentFile, raw_msg: &[u8]) -> (r: Result<
        (),
        SessionError,
    >)
        requires
            old(self).wf(torrent),
        ensures
            final(self).wf(torrent),
            (SessionEffect {
                session: final(self)@,
                error: match r {
                    Ok(_) => None,
                    Err(e) => Some(e),
                },
            }) == bitfield_effect(torrent, old(self)@, raw_msg@),
    {
        if self.messages_seen {
            return Err(SessionError::UnexpectedBitfield);
        }
        let needed: usize = torrent.pieces_amount / 8 + (if torrent.pieces_amount % 8 == 0 {
            0
        } else {
            1
        });
        if raw_msg.len() != needed {
            return Err(SessionError::BadBitfieldLength);
        }
        self.bitfield = Some(copy_range(raw_msg, 0, raw_msg.len()));
        assert(raw_msg@.subrange(0, raw_msg@.len() as int) =~= raw_msg@);
        Ok(())
    }
}

} // verus!
