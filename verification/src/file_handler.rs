use crate::bitfield::{
    all_bits_set, all_set, bit_is_set, bitfield_len, empty_bitfield, has_bit, lemma_set_then_read,
    set_bit, with_bit,
};
use crate::digest::sha1_of;
use crate::torrent_file::meta_info::{lemma_piece_layout, piece_bytes, piece_start};
use crate::torrent_file::TorrentFile;
use std::collections::VecDeque;
use vstd::prelude::*;
use vstd::slice::slice_subrange;

verus! {

/// Longest range that the store hands out in one read.
pub const MAX_READ_LEN: usize = 262144;

/// The local store of one download: which pieces are verified on disk, and
/// which are still needed, in the order in which they are handed out. `disk`
/// is the content of the target file as the store has seen and written it.
pub struct FileHandler {
    pub bitfield: Vec<u8>,
    pub needed_pieces: VecDeque<usize>,
    pub disk: Ghost<Seq<u8>>,
}

/// The state of the store as plain mathematical values.
pub struct StoreState {
    pub bitfield: Seq<u8>,
    pub needed: Seq<usize>,
    pub disk: Seq<u8>,
}

impl View for FileHandler {
    type V = StoreState;

    open spec fn view(&self) -> StoreState {
        StoreState { bitfield: self.bitfield@, needed: self.needed_pieces@, disk: self.disk@ }
    }
}

/// Why the store refuses a read.
#[derive(Debug, Clone, Copy, PartialEq, Eq, Structural)]
pub enum StoreError {
    /// More than `MAX_READ_LEN` bytes were asked for.
    ReadTooLong,
    /// The range does not lie inside the file.
    OutOfRange,
}

/// Whether piece `i` of `content` has the digest that the metainfo gives it.
pub open spec fn piece_verified(torrent: &TorrentFile, content: Seq<u8>, i: int) -> bool {
    sha1_of(piece_bytes(content, torrent.info.piece_length as int, i))
        == torrent.info.expected_hash(i)
}

/// The bitmap has one bit per piece, the disk has the length of the file, and
/// every set bit stands for a piece whose bytes on disk have the digest that
/// the metainfo gives it.
pub open spec fn verified_on_disk(torrent: &TorrentFile, st: StoreState) -> bool {
    &&& st.bitfield.len() == bitfield_len(torrent.info.piece_count())
    &&& st.disk.len() == torrent.info.length
    &&& forall|i: int| #[trigger]
        bit_is_set(st.bitfield, i) ==> 0 <= i < torrent.info.piece_count() && piece_verified(
            torrent,
            st.disk,
            i,
        )
}

/// Whether `piece` may be written as piece `index`: the index names a piece,
/// and the bytes have that piece's exact length and its expected digest.
pub open spec fn valid_write(torrent: &TorrentFile, index: int, piece: Seq<u8>) -> bool {
    &&& 0 <= index < torrent.info.piece_count()
    &&& piece.len() == torrent.info.piece_len(index)
    &&& sha1_of(piece) == torrent.info.expected_hash(index)
}

/// The store after `piece` was written as piece `index`.
pub open spec fn after_write(
    torrent: &TorrentFile,
    st: StoreState,
    index: int,
    piece: Seq<u8>,
) -> StoreState {
    StoreState {
        bitfield: with_bit(st.bitfield, index),
        needed: st.needed,
        disk: disk_with(st.disk, piece_start(torrent.info.piece_length as int, index), piece),
    }
}

/// The store after each write of a sequence was made in turn.
pub open spec fn after_writes(
    torrent: &TorrentFile,
    st: StoreState,
    writes: Seq<(int, Seq<u8>)>,
) -> StoreState
    decreases writes.len(),
{
    if writes.len() == 0 {
        st
    } else {
        after_write(
            torrent,
            after_writes(torrent, st, writes.drop_last()),
            writes.last().0,
            writes.last().1,
        )
    }
}

/// The indices below `k` whose bit is not set, in ascending order.
pub open spec fn needed_upto(bits: Seq<u8>, k: int) -> Seq<usize>
    decreases k,
{
    if k <= 0 {
        Seq::empty()
    } else if bit_is_set(bits, k - 1) {
        needed_upto(bits, k - 1)
    } else {
        needed_upto(bits, k - 1).push((k - 1) as usize)
    }
}

/// The content of the file after `data` was written at `offset`.
pub open spec fn disk_with(disk: Seq<u8>, offset: int, data: Seq<u8>) -> Seq<u8> {
    disk.subrange(0, offset) + data + disk.subrange(offset + data.len(), disk.len() as int)
}

/// The needed indices are exactly those below `k` whose bit is not set, and
/// they ascend.
pub proof fn lemma_needed_upto(bits: Seq<u8>, k: int)
    requires
        0 <= k <= usize::MAX,
    ensures
        forall|i: int|
            0 <= i < k ==> (needed_upto(bits, k).contains(i as usize) <==> !bit_is_set(bits, i)),
        forall|n: int|
            0 <= n < needed_upto(bits, k).len() ==> (#[trigger] needed_upto(bits, k)[n]) < k,
        forall|m: int, n: int|
            0 <= m < n < needed_upto(bits, k).len() ==> needed_upto(bits, k)[m] < needed_upto(
                bits,
                k,
            )[n],
        all_set(bits, k) <==> needed_upto(bits, k).len() == 0,
    decreases k,
{
    if k > 0 {
        lemma_needed_upto(bits, k - 1);
        let prev = needed_upto(bits, k - 1);
        let cur = needed_upto(bits, k);
        if bit_is_set(bits, k - 1) {
            assert forall|i: int| 0 <= i < k implies (cur.contains(i as usize) <==> !bit_is_set(
                bits,
                i,
            )) by {
                if i == k - 1 {
                    if cur.contains(i as usize) {
                        let n = choose|n: int| 0 <= n < cur.len() && cur[n] == i as usize;
                        assert(cur[n] < k - 1);
                    }
                }
            }
        } else {
            assert(cur[prev.len() as int] == (k - 1) as usize);
            assert forall|i: int| 0 <= i < k implies (cur.contains(i as usize) <==> !bit_is_set(
                bits,
                i,
            )) by {
                if i < k - 1 {
                    if prev.contains(i as usize) {
                        let n = choose|n: int| 0 <= n < prev.len() && prev[n] == i as usize;
                        assert(cur[n] == i as usize);
                    }
                    if cur.contains(i as usize) {
                        let n = choose|n: int| 0 <= n < cur.len() && cur[n] == i as usize;
                        assert(n < prev.len());
                        assert(prev[n] == i as usize);
                    }
                }
            }
            assert(!all_set(bits, k));
        }
    }
}

/// Hashes every piece of `content` and sets, in a bitmap of one bit per
/// piece, the bits of the pieces whose digest is the expected one.
pub fn get_local_file_bitfield(content: &[u8], torrent: &TorrentFile) -> (bits: Vec<u8>)
    requires
        torrent.wf(),
        content@.len() == torrent.info.length,
    ensures
        bits@.len() == bitfield_len(torrent.info.piece_count()),
        forall|i: int|
            bit_is_set(bits@, i) <==> (0 <= i < torrent.info.piece_count() && piece_verified(
                torrent,
                content@,
                i,
            )),
{
    let count: usize = torrent.pieces_amount;
    let mut bits = empty_bitfield(count);
    let mut i: usize = 0;
    while i < count
        invariant
            i <= count,
            torrent.wf(),
            count == torrent.info.piece_count(),
            content@.len() == torrent.info.length,
            bits@.len() == bitfield_len(count as int),
            forall|j: int|
                bit_is_set(bits@, j) <==> (0 <= j < i && piece_verified(torrent, content@, j)),
        decreases count - i,
    {
        let size: usize = torrent.info.piece_length_of(i);
        let start: usize = i * torrent.info.piece_length;
        let piece = slice_subrange(content, start, start + size);
        if torrent.info.verify_piece(i, piece) {
            let ghost before = bits@;
            set_bit(&mut bits, i);
            proof {
                assert forall|j: int|
                    bit_is_set(bits@, j) <==> (0 <= j < i + 1 && piece_verified(
                        torrent,
                        content@,
                        j,
                    )) by {
                    lemma_set_then_read(before, i as int, j);
                }
            }
        }
        i = i + 1;
    }
    bits
}

/// The indices of the pieces that a bitmap lacks, in ascending order.
pub fn needed_from_bitfield(bits: &[u8], piece_count: usize) -> (needed: VecDeque<usize>)
    ensures
        needed@ == needed_upto(bits@, piece_count as int),
{
    let mut needed: VecDeque<usize> = VecDeque::new();
    let mut i: usize = 0;
    while i < piece_count
        invariant
            i <= piece_count,
            needed@ == needed_upto(bits@, i as int),
        decreases piece_count - i,
    {
        if !has_bit(bits, i) {
            needed.push_back(i);
        }
        i = i + 1;
    }
    needed
}

/// Opens the store over the content of the target file: scans every piece,
/// marks the verified ones, and queues the others in ascending order.
pub fn get_file_handlder(torrent: &TorrentFile, content: &[u8]) -> (store: FileHandler)
    requires
        torrent.wf(),
        content@.len() == torrent.info.length,
    ensures
        store.wf(torrent),
        store.disk@ == content@,
        forall|i: int|
            bit_is_set(store.bitfield@, i) <==> (0 <= i < torrent.info.piece_count()
                && piece_verified(torrent, content@, i)),
        store.needed_pieces@ == needed_upto(store.bitfield@, torrent.info.piece_count()),
{
    let bitfield = get_local_file_bitfield(content, torrent);
    let needed_pieces = needed_from_bitfield(bitfield.as_slice(), torrent.pieces_amount);
    proof {
        lemma_needed_upto(bitfield@, torrent.info.piece_count());
    }
    FileHandler { bitfield, needed_pieces, disk: Ghost(content@) }
}

impl FileHandler {
    /// The bitmap has one bit per piece, every set bit stands for a piece
    /// whose bytes on disk have the expected digest, and the queue holds
    /// piece indices only.
    pub open spec fn wf(&self, torrent: &TorrentFile) -> bool {
        &&& torrent.wf()
        &&& verified_on_disk(torrent, self@)
        &&& forall|n: int|
            0 <= n < self.needed_pieces@.len() ==> (#[trigger] self.needed_pieces@[n])
                < torrent.info.piece_count()
    }

    /// Records that `piece`, whose digest is the expected one, is written at
    /// the place of piece `index`: the content changes there and nowhere else,
    /// and the bit of the piece is set.
    pub fn write_piece_to_file(&mut self, torrent: &TorrentFile, index: usize, piece: &[u8])
        requires
            old(self).wf(torrent),
            index < torrent.info.piece_count(),
            piece@.len() == torrent.info.piece_len(index as int),
            sha1_of(piece@) == torrent.info.expected_hash(index as int),
        ensures
            final(self).wf(torrent),
            final(self)@ == after_write(torrent, old(self)@, index as int, piece@),
            bit_is_set(final(self).bitfield@, index as int),
    {
        let ghost before = self@;
        set_bit(&mut self.bitfield, index);
        proof {
            let after = after_write(torrent, before, index as int, piece@);
            self.disk = Ghost(after.disk);
            lemma_write_keeps_verified(torrent, before, index as int, piece@);
        }
    }

    /// Writes `piece` as piece `index` if that is a valid write: the index
    /// names a piece, and the bytes have the piece's length and its expected
    /// digest. Says whether it did; anything else leaves the store as it was.
    pub fn commit_piece(&mut self, torrent: &TorrentFile, index: usize, piece: &[u8]) -> (r: bool)
        requires
            old(self).wf(torrent),
        ensures
            final(self).wf(torrent),
            r == valid_write(torrent, index as int, piece@),
            final(self)@ == if r {
                after_write(torrent, old(self)@, index as int, piece@)
            } else {
                old(self)@
            },
    {
        if index >= torrent.pieces_amount {
            return false;
        }
        if piece.len() != torrent.info.piece_length_of(index) {
            return false;
        }
        if !torrent.info.verify_piece(index, piece) {
            return false;
        }
        self.write_piece_to_file(torrent, index, piece);
        true
    }

    /// Whether a read of `length` bytes at `offset` is served: it is at most
    /// `MAX_READ_LEN` long and lies inside the file.
    pub fn check_read_range(&self, torrent: &TorrentFile, offset: u64, length: usize) -> (r: Result<
        (),
        StoreError,
    >)
        ensures
            r == if length > MAX_READ_LEN {
                Err::<(), StoreError>(StoreError::ReadTooLong)
            } else if offset + length > torrent.info.length {
                Err::<(), StoreError>(StoreError::OutOfRange)
            } else {
                Ok::<(), StoreError>(())
            },
    {
        if length > MAX_READ_LEN {
            return Err(StoreError::ReadTooLong);
        }
        let total: u64 = torrent.info.length as u64;
        if offset > total || length as u64 > total - offset {
            return Err(StoreError::OutOfRange);
        }
        Ok(())
    }

    /// Takes the first needed piece off the queue.
    pub fn take_next_needed(&mut self) -> (r: Option<usize>)
        ensures
            match r {
                Some(index) => old(self).needed_pieces@.len() > 0 && index == old(
                    self,
                ).needed_pieces@[0] && final(self).needed_pieces@ == old(
                    self,
                ).needed_pieces@.subrange(1, old(self).needed_pieces@.len() as int),
                None => old(self).needed_pieces@.len() == 0 && final(self).needed_pieces@ == old(
                    self,
                ).needed_pieces@,
            },
            final(self).bitfield == old(self).bitfield,
            final(self).disk == old(self).disk,
    {
        self.needed_pieces.pop_front()
    }

    /// Puts a piece back at the front of the queue.
    pub fn requeue_front(&mut self, index: usize)
        ensures
            final(self).needed_pieces@ == seq![index] + old(self).needed_pieces@,
            final(self).bitfield == old(self).bitfield,
            final(self).disk == old(self).disk,
    {
        self.needed_pieces.push_front(index);
    }

    /// Whether every piece is verified on disk.
    pub fn completed(&self, torrent: &TorrentFile) -> (r: bool)
        ensures
            r == all_set(self.bitfield@, torrent.pieces_amount as int),
    {
        all_bits_set(self.bitfield.as_slice(), torrent.pieces_amount)
    }
}

/// One valid write keeps every set bit true of the disk, and sets the bit of
/// the piece written.
pub proof fn lemma_write_keeps_verified(
    torrent: &TorrentFile,
    st: StoreState,
    index: int,
    piece: Seq<u8>,
)
    requires
        torrent.wf(),
        verified_on_disk(torrent, st),
        valid_write(torrent, index, piece),
    ensures
        verified_on_disk(torrent, after_write(torrent, st, index, piece)),
        bit_is_set(after_write(torrent, st, index, piece).bitfield, index),
{
    let after = after_write(torrent, st, index, piece);
    lemma_piece_layout(torrent.info.length as int, torrent.info.piece_length as int, index);
    lemma_written_piece(torrent, st.disk, index, piece);
    assert forall|i: int| #[trigger] bit_is_set(after.bitfield, i) implies 0 <= i
        < torrent.info.piece_count() && piece_verified(torrent, after.disk, i) by {
        lemma_set_then_read(st.bitfield, index, i);
        if i != index {
            lemma_other_piece(torrent, st.disk, index, piece, i);
        }
    }
    lemma_set_then_read(st.bitfield, index, index);
}

/// After any sequence of valid writes, every set bit of the bitmap stands
/// for a piece whose bytes on disk have the expected digest.
pub proof fn lemma_writes_keep_verified(
    torrent: &TorrentFile,
    st: StoreState,
    writes: Seq<(int, Seq<u8>)>,
)
    requires
        torrent.wf(),
        verified_on_disk(torrent, st),
        forall|k: int|
            0 <= k < writes.len() ==> valid_write(torrent, (#[trigger] writes[k]).0, writes[k].1),
    ensures
        verified_on_disk(torrent, after_writes(torrent, st, writes)),
    decreases writes.len(),
{
    if writes.len() > 0 {
        let front = writes.drop_last();
        assert forall|k: int| 0 <= k < front.len() implies valid_write(
            torrent,
            (#[trigger] front[k]).0,
            front[k].1,
        ) by {
            assert(front[k] == writes[k]);
        }
        lemma_writes_keep_verified(torrent, st, front);
        lemma_write_keeps_verified(
            torrent,
            after_writes(torrent, st, front),
            writes.last().0,
            writes.last().1,
        );
    }
}

/// Resumption: once a piece with the expected digest is written, any scan of
/// the file, which sets exactly the bits of the pieces that it finds
/// verified, sets the bit of that piece, whatever else the file holds. The
/// other pieces that were verified before are found verified again.
pub proof fn lemma_resume_after_write(
    torrent: &TorrentFile,
    disk: Seq<u8>,
    index: int,
    piece: Seq<u8>,
    scanned: Seq<u8>,
)
    requires
        torrent.wf(),
        disk.len() == torrent.info.length,
        valid_write(torrent, index, piece),
        forall|i: int|
            bit_is_set(scanned, i) <==> (0 <= i < torrent.info.piece_count() && piece_verified(
                torrent,
                disk_with(disk, piece_start(torrent.info.piece_length as int, index), piece),
                i,
            )),
    ensures
        bit_is_set(scanned, index),
        piece_verified(
            torrent,
            disk_with(disk, piece_start(torrent.info.piece_length as int, index), piece),
            index,
        ),
        forall|other: int|
            0 <= other < torrent.info.piece_count() && other != index && piece_verified(
                torrent,
                disk,
                other,
            ) ==> #[trigger] piece_verified(
                torrent,
                disk_with(disk, piece_start(torrent.info.piece_length as int, index), piece),
                other,
            ),
{
    lemma_written_piece(torrent, disk, index, piece);
    assert forall|other: int|
        0 <= other < torrent.info.piece_count() && other != index && piece_verified(
            torrent,
            disk,
            other,
        ) implies #[trigger] piece_verified(
        torrent,
        disk_with(disk, piece_start(torrent.info.piece_length as int, index), piece),
        other,
    ) by {
        lemma_other_piece(torrent, disk, index, piece, other);
    }
}

/// After piece `index` was written, the bytes of that piece on disk are the
/// bytes written.
pub proof fn lemma_written_piece(torrent: &TorrentFile, disk: Seq<u8>, index: int, piece: Seq<u8>)
    requires
        torrent.wf(),
        disk.len() == torrent.info.length,
        0 <= index < torrent.info.piece_count(),
        piece.len() == torrent.info.piece_len(index),
    ensures
        disk_with(disk, piece_start(torrent.info.piece_length as int, index), piece).len()
            == disk.len(),
        piece_bytes(
            disk_with(disk, piece_start(torrent.info.piece_length as int, index), piece),
            torrent.info.piece_length as int,
            index,
        ) == piece,
{
    lemma_piece_layout(torrent.info.length as int, torrent.info.piece_length as int, index);
    let start = piece_start(torrent.info.piece_length as int, index);
    let after = disk_with(disk, start, piece);
    assert(piece_bytes(after, torrent.info.piece_length as int, index) =~= piece);
}

/// Writing piece `index` leaves the bytes of every other piece as they were.
pub proof fn lemma_other_piece(
    torrent: &TorrentFile,
    disk: Seq<u8>,
    index: int,
    piece: Seq<u8>,
    other: int,
)
    requires
        torrent.wf(),
        disk.len() == torrent.info.length,
        0 <= index < torrent.info.piece_count(),
        0 <= other < torrent.info.piece_count(),
        other != index,
        piece.len() == torrent.info.piece_len(index),
    ensures
        piece_bytes(
            disk_with(disk, piece_start(torrent.info.piece_length as int, index), piece),
            torrent.info.piece_length as int,
            other,
        ) == piece_bytes(disk, torrent.info.piece_length as int, other),
{
    let pl = torrent.info.piece_length as int;
    let length = torrent.info.length as int;
    lemma_piece_layout(length, pl, index);
    lemma_piece_layout(length, pl, other);
    let start = piece_start(pl, index);
    let after = disk_with(disk, start, piece);
    if other < index {
        assert(piece_start(pl, other) + pl <= piece_start(pl, index));
    } else {
        assert(piece_start(pl, index) + pl <= piece_start(pl, other));
    }
    assert(piece_bytes(after, pl, other) =~= piece_bytes(disk, pl, other));
}

} // verus!
