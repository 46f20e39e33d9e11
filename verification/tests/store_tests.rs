use rust_torrent::bitfield::{
    all_bits_set, any_bit_set, empty_bitfield, has_bit, set_bit,
};
use rust_torrent::digest::{bytes_equal, bytes_equal_at, copy_range, has_digest};
use rust_torrent::file_handler::{
    get_file_handlder, get_local_file_bitfield, needed_from_bitfield, StoreError, MAX_READ_LEN,
};
use rust_torrent::torrent_file::TorrentFile;
use sha1::{Digest, Sha1};

fn content(length: usize) -> Vec<u8> {
    (0..length).map(|i| (i * 31 % 251) as u8).collect()
}

fn torrent_for(content: &[u8], piece_length: usize) -> TorrentFile {
    let mut torrent = TorrentFile::default();
    torrent.info.length = content.len();
    torrent.info.piece_length = piece_length;
    for piece in content.chunks(piece_length) {
        let digest: [u8; 20] = Sha1::digest(piece).into();
        torrent.info.pieces.extend_from_slice(&digest);
    }
    torrent.pieces_amount = torrent.info.count_pieces();
    torrent
}

#[test]
fn sha1_of_known_text() {
    let abc: [u8; 20] = [
        0xa9, 0x99, 0x3e, 0x36, 0x47, 0x06, 0x81, 0x6a, 0xba, 0x3e, 0x25, 0x71, 0x78, 0x50, 0xc2,
        0x6c, 0x9c, 0xd0, 0xd8, 0x9d,
    ];
    let empty: [u8; 20] = [
        0xda, 0x39, 0xa3, 0xee, 0x5e, 0x6b, 0x4b, 0x0d, 0x32, 0x55, 0xbf, 0xef, 0x95, 0x60, 0x18,
        0x90, 0xaf, 0xd8, 0x07, 0x09,
    ];
    let mut digests = Vec::new();
    digests.extend_from_slice(&abc);
    digests.extend_from_slice(&empty);
    assert!(has_digest(&digests, 0, b"abc"));
    assert!(has_digest(&digests, 1, b""));
    assert!(!has_digest(&digests, 1, b"abc"));
    assert!(!has_digest(&digests, 0, b"abd"));
    assert!(!has_digest(&digests, 0, &abc));
}

#[test]
fn pieces_are_verified() {
    let data = content(40000);
    let torrent = torrent_for(&data, 16384);
    assert!(torrent.info.verify_piece(0, &data[..16384]));
    assert!(torrent.info.verify_piece(2, &data[32768..]));
    assert!(!torrent.info.verify_piece(1, &data[..16384]));
    assert!(!torrent.info.verify_piece(2, &data[32768..39999]));
}

#[test]
fn byte_helpers() {
    assert!(bytes_equal(b"abc", b"abc"));
    assert!(!bytes_equal(b"abc", b"abd"));
    assert!(!bytes_equal(b"abc", b"ab"));
    assert!(bytes_equal(b"", b""));
    assert!(bytes_equal_at(b"xxabc", 2, b"abc"));
    assert!(!bytes_equal_at(b"xxabc", 3, b"abc"));
    assert!(!bytes_equal_at(b"xxabc", 9, b"abc"));
    assert!(bytes_equal_at(b"xxabc", 5, b""));
    assert_eq!(copy_range(b"hello world", 6, 11), b"world".to_vec());
    assert_eq!(copy_range(b"hello", 2, 2), Vec::<u8>::new());
}

#[test]
fn bit_positions_are_msb_first() {
    let mut bits = empty_bitfield(17);
    assert_eq!(bits, vec![0u8, 0, 0]);
    set_bit(&mut bits, 0);
    assert_eq!(bits, vec![0b1000_0000, 0, 0]);
    set_bit(&mut bits, 7);
    assert_eq!(bits, vec![0b1000_0001, 0, 0]);
    set_bit(&mut bits, 9);
    assert_eq!(bits, vec![0b1000_0001, 0b0100_0000, 0]);
    set_bit(&mut bits, 16);
    assert_eq!(bits, vec![0b1000_0001, 0b0100_0000, 0b1000_0000]);
    assert!(has_bit(&bits, 0));
    assert!(!has_bit(&bits, 1));
    assert!(has_bit(&bits, 7));
    assert!(has_bit(&bits, 9));
    assert!(has_bit(&bits, 16));
    assert!(!has_bit(&bits, 17));
    assert!(!has_bit(&bits, 24));
    assert!(!has_bit(&bits, 1000));
}

#[test]
fn set_then_read_never_collides() {
    for piece_count in [1usize, 2, 7, 8, 9, 64, 1000, 10000] {
        let step = if piece_count > 100 { 37 } else { 1 };
        let mut i = 0;
        while i < piece_count {
            let mut bits = empty_bitfield(piece_count);
            assert_eq!(bits.len(), (piece_count + 7) / 8);
            set_bit(&mut bits, i);
            for k in 0..bits.len() {
                if k == i / 8 {
                    assert_eq!(bits[k], 1u8 << (7 - (i % 8)));
                } else {
                    assert_eq!(bits[k], 0);
                }
            }
            for j in 0..piece_count {
                assert_eq!(has_bit(&bits, j), j == i);
            }
            i += step;
        }
    }
}

#[test]
fn all_and_any() {
    let mut bits = empty_bitfield(10);
    assert!(!any_bit_set(&bits, 10));
    assert!(!all_bits_set(&bits, 10));
    assert!(all_bits_set(&bits, 0));
    for i in 0..9 {
        set_bit(&mut bits, i);
    }
    assert!(any_bit_set(&bits, 10));
    assert!(!all_bits_set(&bits, 10));
    assert!(all_bits_set(&bits, 9));
    set_bit(&mut bits, 9);
    assert!(all_bits_set(&bits, 10));
}

#[test]
fn piece_lengths() {
    let data = content(40000);
    let torrent = torrent_for(&data, 16384);
    assert_eq!(torrent.info.count_pieces(), 3);
    assert_eq!(torrent.info.piece_length_of(0), 16384);
    assert_eq!(torrent.info.piece_length_of(1), 16384);
    assert_eq!(torrent.info.piece_length_of(2), 7232);
    let exact = torrent_for(&content(32768), 16384);
    assert_eq!(exact.info.count_pieces(), 2);
    assert_eq!(exact.info.piece_length_of(1), 16384);
    let mut none = TorrentFile::default();
    none.info.length = 5;
    assert_eq!(none.info.count_pieces(), 0);
}

#[test]
fn scan_marks_matching_pieces() {
    let data = content(40000);
    let torrent = torrent_for(&data, 16384);
    assert_eq!(get_local_file_bitfield(&data, &torrent), vec![0b1110_0000]);
    let mut damaged = data.clone();
    damaged[20000] ^= 1;
    assert_eq!(
        get_local_file_bitfield(&damaged, &torrent),
        vec![0b1010_0000]
    );
    let blank = vec![0u8; 40000];
    assert_eq!(get_local_file_bitfield(&blank, &torrent), vec![0]);
}

#[test]
fn needed_queue_is_the_complement_in_ascending_order() {
    let needed = needed_from_bitfield(&[0b1010_0000, 0b0100_0000], 11);
    assert_eq!(
        needed.into_iter().collect::<Vec<usize>>(),
        vec![1, 3, 4, 5, 6, 7, 8, 10]
    );
    let none = needed_from_bitfield(&[0xff], 8);
    assert!(none.is_empty());
}

#[test]
fn queue_operations() {
    let data = content(40000);
    let torrent = torrent_for(&data, 16384);
    let mut store = get_file_handlder(&torrent, &vec![0u8; 40000]);
    assert_eq!(store.take_next_needed(), Some(0));
    assert_eq!(store.take_next_needed(), Some(1));
    store.requeue_front(0);
    assert_eq!(store.take_next_needed(), Some(0));
    assert_eq!(store.take_next_needed(), Some(2));
    assert_eq!(store.take_next_needed(), None);
}

#[test]
fn write_sets_the_bit_and_resumes() {
    let data = content(40000);
    let torrent = torrent_for(&data, 16384);
    let mut disk = vec![0u8; 40000];
    let mut store = get_file_handlder(&torrent, &disk);
    assert!(!store.completed(&torrent));
    assert_eq!(store.bitfield, vec![0]);
    store.write_piece_to_file(&torrent, 2, &data[32768..]);
    disk[32768..].copy_from_slice(&data[32768..]);
    assert_eq!(store.bitfield, vec![0b0010_0000]);
    let reopened = get_file_handlder(&torrent, &disk);
    assert_eq!(reopened.bitfield, vec![0b0010_0000]);
    assert_eq!(
        reopened.needed_pieces.iter().copied().collect::<Vec<usize>>(),
        vec![0, 1]
    );
    store.write_piece_to_file(&torrent, 0, &data[..16384]);
    store.write_piece_to_file(&torrent, 1, &data[16384..32768]);
    assert!(store.completed(&torrent));
    disk.copy_from_slice(&data);
    let full = get_file_handlder(&torrent, &disk);
    assert_eq!(full.bitfield, store.bitfield);
    assert!(full.completed(&torrent));
    assert!(full.needed_pieces.is_empty());
}

#[test]
fn read_ranges_are_checked() {
    let data = content(40000);
    let torrent = torrent_for(&data, 16384);
    let store = get_file_handlder(&torrent, &data);
    assert_eq!(store.check_read_range(&torrent, 0, 16384), Ok(()));
    assert_eq!(store.check_read_range(&torrent, 39999, 1), Ok(()));
    assert_eq!(store.check_read_range(&torrent, 40000, 0), Ok(()));
    assert_eq!(
        store.check_read_range(&torrent, 39999, 2),
        Err(StoreError::OutOfRange)
    );
    assert_eq!(
        store.check_read_range(&torrent, 0, MAX_READ_LEN + 1),
        Err(StoreError::ReadTooLong)
    );
    assert_eq!(MAX_READ_LEN, 256 * 1024);
}

#[test]
fn only_valid_pieces_are_committed() {
    let data = content(40000);
    let torrent = torrent_for(&data, 16384);
    let mut store = get_file_handlder(&torrent, &vec![0u8; 40000]);
    assert!(!store.commit_piece(&torrent, 3, &data[..16384]));
    assert!(!store.commit_piece(&torrent, 1, &data[..16384]));
    assert!(!store.commit_piece(&torrent, 0, &data[..16383]));
    assert!(!store.commit_piece(&torrent, 2, &data[..16384]));
    assert!(!store.commit_piece(&torrent, 0, &vec![1u8; 16384]));
    assert_eq!(store.bitfield, vec![0]);
    assert!(store.commit_piece(&torrent, 0, &data[..16384]));
    assert_eq!(store.bitfield, vec![0b1000_0000]);
    assert!(store.commit_piece(&torrent, 2, &data[32768..]));
    assert!(store.commit_piece(&torrent, 0, &data[..16384]));
    assert_eq!(store.bitfield, vec![0b1010_0000]);
    assert_eq!(
        store.needed_pieces.iter().copied().collect::<Vec<usize>>(),
        vec![0, 1, 2]
    );
}
