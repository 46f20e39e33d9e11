use crate::connection_handler::message::{Piece, SessionError, REQUEST_PIECE_SIZE};
use std::collections::HashSet;
use vstd::prelude::*;

verus! {

broadcast use vstd::std_specs::hash::group_hash_axioms;

/// What an in-flight piece holds, as plain mathematical values.
pub struct PieceModel {
    pub data: Seq<u8>,
    pub received: Set<u32>,
    pub missing: int,
}

/// What becomes of a block that arrives for the piece in flight.
pub enum BlockVerdict {
    /// The block reaches beyond the piece, or holds more than is missing.
    Overrun,
    /// A block with this offset was taken in before.
    Duplicate,
    /// The block is taken in.
    Fresh,
}

/// The verdict on a block of `block` bytes that arrives at offset `begin`.
pub open spec fn block_verdict(p: PieceModel, begin: u32, block: Seq<u8>) -> BlockVerdict {
    if begin + block.len() > p.data.len() {
        BlockVerdict::Overrun
    } else if p.received.contains(begin) {
        BlockVerdict::Duplicate
    } else if block.len() > p.missing {
        BlockVerdict::Overrun
    } else {
        BlockVerdict::Fresh
    }
}

/// The buffer with `block` copied in at `begin`.
pub open spec fn with_block(data: Seq<u8>, begin: int, block: Seq<u8>) -> Seq<u8> {
    data.subrange(0, begin) + block + data.subrange(begin + block.len(), data.len() as int)
}

/// The piece after a block arrived: a fresh block is copied in, recorded and
/// counted; any other block changes nothing.
pub open spec fn receive(p: PieceModel, begin: u32, block: Seq<u8>) -> PieceModel {
    match block_verdict(p, begin, block) {
        BlockVerdict::Fresh => PieceModel {
            data: with_block(p.data, begin as int, block),
            received: p.received.insert(begin),
            missing: p.missing - block.len(),
        },
        _ => p,
    }
}

/// The piece after each block of a sequence arrived in turn.
pub open spec fn receive_all(p: PieceModel, blocks: Seq<(u32, Seq<u8>)>) -> PieceModel
    decreases blocks.len(),
{
    if blocks.len() == 0 {
        p
    } else {
        receive(receive_all(p, blocks.drop_last()), blocks.last().0, blocks.last().1)
    }
}

/// A piece of `length` bytes of which nothing has arrived.
pub open spec fn fresh_piece(length: nat) -> PieceModel {
    PieceModel { data: Seq::new(length, |i: int| 0u8), received: Set::empty(), missing: length as int }
}

/// Sum of the sizes of the blocks in a log.
pub open spec fn total_size(blocks: Seq<(u32, nat)>) -> nat
    decreases blocks.len(),
{
    if blocks.len() == 0 {
        0
    } else {
        total_size(blocks.drop_last()) + blocks.last().1
    }
}

/// Length of the block that a request at `begin` asks for in a piece of
/// `length` bytes: a whole block, or what is left of the piece.
pub open spec fn block_len_at(length: int, begin: int) -> int {
    if length - begin < REQUEST_PIECE_SIZE as int {
        length - begin
    } else {
        REQUEST_PIECE_SIZE as int
    }
}

/// Whether `begin` is the start of a block of a piece of `length` bytes.
pub open spec fn is_block_start(length: int, begin: int) -> bool {
    0 <= begin < length && begin % (REQUEST_PIECE_SIZE as int) == 0
}

/// Whether `block` is the block of `content` that starts at `begin`.
pub open spec fn is_block_of(content: Seq<u8>, begin: u32, block: Seq<u8>) -> bool {
    is_block_start(content.len() as int, begin as int) && block == content.subrange(
        begin as int,
        begin + block_len_at(content.len() as int, begin as int),
    )
}

/// The lowest block start of the piece at which no block has arrived yet.
pub open spec fn is_lowest_missing(received: Set<u32>, length: int, offset: int) -> bool {
    &&& is_block_start(length, offset)
    &&& !received.contains(offset as u32)
    &&& forall|o: int| is_block_start(length, o) && o < offset ==> received.contains(o as u32)
}

/// Whether a block has arrived at every block start of the piece.
pub open spec fn no_block_missing(received: Set<u32>, length: int) -> bool {
    forall|o: int| is_block_start(length, o) ==> received.contains(o as u32)
}

impl Piece {
    /// The piece as plain mathematical values.
    pub open spec fn model(&self) -> PieceModel {
        PieceModel {
            data: self.data@,
            received: self.received_offsets@,
            missing: self.missing_data as int,
        }
    }

    /// No offset is recorded twice, each recorded block lies inside the piece,
    /// and the missing bytes are the piece's length less the sizes of the
    /// blocks taken in.
    pub open spec fn wf(&self) -> bool {
        &&& self.data@.len() <= u32::MAX
        &&& self.missing_data + total_size(self.blocks@) == self.data@.len()
        &&& forall|i: int|
            0 <= i < self.blocks@.len() ==> self.received_offsets@.contains(
                (#[trigger] self.blocks@[i]).0,
            ) && self.blocks@[i].0 + self.blocks@[i].1 <= self.data@.len()
        &&& forall|o: u32|
            self.received_offsets@.contains(o) ==> exists|i: int|
                0 <= i < self.blocks@.len() && (#[trigger] self.blocks@[i]).0 == o
        &&& forall|i: int, j: int|
            0 <= i < j < self.blocks@.len() ==> (#[trigger] self.blocks@[i]).0 != (
            #[trigger] self.blocks@[j]).0
    }

    /// A piece of `length` bytes of which nothing has arrived.
    pub fn new(index: u32, length: usize) -> (piece: Piece)
        requires
            length <= u32::MAX,
        ensures
            piece.wf(),
            piece.index == index,
            piece.model() == fresh_piece(length as nat),
            piece.blocks@.len() == 0,
    {
        let mut data: Vec<u8> = Vec::new();
        let mut i: usize = 0;
        while i < length
            invariant
                i <= length,
                data@.len() == i,
                forall|j: int| 0 <= j < i ==> data@[j] == 0u8,
            decreases length - i,
        {
            data.push(0u8);
            i = i + 1;
        }
        let piece = Piece {
            index,
            data,
            received_offsets: HashSet::new(),
            missing_data: length,
            blocks: Ghost(Seq::empty()),
        };
        assert(piece.data@ =~= fresh_piece(length as nat).data);
        assert(piece.received_offsets@ =~= Set::<u32>::empty());
        piece
    }

    /// Takes in the block that arrived at offset `begin`. A block that would
    /// reach beyond the piece, or that holds more than is missing, is refused.
    /// A block whose offset was seen before is ignored: `Ok(false)`. Any other
    /// block is copied into the buffer at `begin`, its offset is recorded and
    /// its size leaves the count of missing bytes: `Ok(true)`.
    pub fn receive_block(&mut self, begin: u32, block: &[u8]) -> (r: Result<bool, SessionError>)
        requires
            old(self).wf(),
        ensures
            final(self).wf(),
            final(self).index == old(self).index,
            final(self).model() == receive(old(self).model(), begin, block@),
            match block_verdict(old(self).model(), begin, block@) {
                BlockVerdict::Overrun => r == Err::<bool, SessionError>(SessionError::BlockOverrun)
                    && final(self).blocks@ == old(self).blocks@,
                BlockVerdict::Duplicate => r == Ok::<bool, SessionError>(false)
                    && final(self).blocks@ == old(self).blocks@,
                BlockVerdict::Fresh => r == Ok::<bool, SessionError>(true) && final(self).blocks@
                    == old(self).blocks@.push((begin, block@.len())),
            },
    {
        let length: usize = self.data.len();
        let size: usize = block.len();
        if size > length || begin as usize > length - size {
            return Err(SessionError::BlockOverrun);
        }
        if self.received_offsets.contains(&begin) {
            return Ok(false);
        }
        if size > self.missing_data {
            return Err(SessionError::BlockOverrun);
        }
        let start: usize = begin as usize;
        let mut i: usize = 0;
        while i < size
            invariant
                i <= size,
                size == block@.len(),
                length == self.data@.len(),
                length == old(self).data@.len(),
                start + size <= length,
                self.data@ == with_block(old(self).data@, start as int, block@.subrange(0, i as int)),
                self.index == old(self).index,
                self.missing_data == old(self).missing_data,
                self.received_offsets == old(self).received_offsets,
                self.blocks == old(self).blocks,
            decreases size - i,
        {
            self.data.set(start + i, block[i]);
            assert(self.data@ =~= with_block(
                old(self).data@,
                start as int,
                block@.subrange(0, i + 1),
            ));
            i = i + 1;
        }
        assert(block@.subrange(0, size as int) =~= block@);
        self.received_offsets.insert(begin);
        self.missing_data = self.missing_data - size;
        proof {
            let before = old(self).blocks@;
            let after = before.push((begin, size as nat));
            self.blocks = Ghost(after);
            assert(after.drop_last() =~= before);
            assert forall|o: u32| self.received_offsets@.contains(o) implies exists|i: int|
                0 <= i < after.len() && (#[trigger] after[i]).0 == o by {
                if o == begin {
                    assert(after[before.len() as int].0 == o);
                } else {
                    let i = choose|i: int| 0 <= i < before.len() && (#[trigger] before[i]).0 == o;
                    assert(after[i].0 == o);
                }
            }
        }
        Ok(true)
    }

    /// The lowest block start at which no block has arrived, if there is one.
    pub fn next_offset(&self) -> (r: Option<u32>)
        requires
            self.wf(),
        ensures
            match r {
                Some(offset) => is_lowest_missing(
                    self.received_offsets@,
                    self.data@.len() as int,
                    offset as int,
                ),
                None => no_block_missing(self.received_offsets@, self.data@.len() as int),
            },
    {
        let length: u64 = self.data.len() as u64;
        let mut offset: u64 = 0;
        while offset < length
            invariant
                length == self.data@.len(),
                length <= u32::MAX,
                offset % 16384 == 0,
                REQUEST_PIECE_SIZE == 16384,
                forall|o: int|
                    is_block_start(length as int, o) && o < offset
                        ==> self.received_offsets@.contains(o as u32),
            decreases length + 16384 - offset,
        {
            if !self.received_offsets.contains(&(offset as u32)) {
                return Some(offset as u32);
            }
            assert forall|o: int|
                is_block_start(length as int, o) && o < offset
                    + 16384 implies self.received_offsets@.contains(o as u32) by {
                if o >= offset {
                    assert(o % 16384 == 0 && offset % 16384 == 0);
                    assert(o == offset);
                }
            }
            offset = offset + 16384;
        }
        None
    }

    /// Length of the next request: a whole block, or all that is missing.
    pub fn request_len(&self) -> (n: u32)
        requires
            self.wf(),
        ensures
            n == if self.missing_data < REQUEST_PIECE_SIZE {
                self.missing_data as int
            } else {
                REQUEST_PIECE_SIZE as int
            },
    {
        if self.missing_data < REQUEST_PIECE_SIZE as usize {
            self.missing_data as u32
        } else {
            REQUEST_PIECE_SIZE
        }
    }
}

} // verus!
