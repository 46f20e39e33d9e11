use rust_torrent::bencode::{BencodeKey, BencodeParsable};
use rust_torrent::bencode::decode::BencodeError;
use rust_torrent::text::{append_decimal, bytes_to_string, text_equals};
use rust_torrent::torrent_file::meta_info::{MetaInfo, MetaInfoKeys};
use rust_torrent::torrent_file::{parse_torrent_file, TorrentError, TorrentFile, TorrentKeys};
use rust_torrent::tracker::announce_url;
use rust_torrent::tracker_data::{
    endpoint_string, get_tracker_data, TrackerData, TrackerDataKeys, TrackerError,
};
use sha1::{Digest, Sha1};

fn info_dictionary(piece_length: &str, pieces: &[u8]) -> Vec<u8> {
    let mut info: Vec<u8> = Vec::new();
    info.extend_from_slice(b"d6:lengthi40000e4:name8:file.bin12:piece length");
    info.extend_from_slice(piece_length.as_bytes());
    info.extend_from_slice(format!("6:pieces{}:", pieces.len()).as_bytes());
    info.extend_from_slice(pieces);
    info.extend_from_slice(b"e");
    info
}

fn torrent_bytes(info: &[u8]) -> Vec<u8> {
    let mut data: Vec<u8> = Vec::new();
    data.extend_from_slice(b"d8:announce20:http://tracker.test/");
    data.extend_from_slice(b"13:announce-listll20:http://tracker.test/el9:udp://a/b9:udp://c/dee");
    data.extend_from_slice(b"7:comment7:a file!");
    data.extend_from_slice(b"10:created by4:test13:creation datei1700000000e");
    data.extend_from_slice(b"4:info");
    data.extend_from_slice(info);
    data.extend_from_slice(b"8:url-listl9:http://m/ee");
    data
}

#[test]
fn loads_a_metainfo_file() {
    let info = info_dictionary("i16384e", &[3u8; 60]);
    let torrent = parse_torrent_file(&torrent_bytes(&info)).unwrap();
    assert_eq!(torrent.announce, "http://tracker.test/");
    assert_eq!(
        torrent.announce_list,
        Some(vec![
            vec!["http://tracker.test/".to_string()],
            vec!["udp://a/b".to_string(), "udp://c/d".to_string()],
        ])
    );
    assert_eq!(torrent.comment, "a file!");
    assert_eq!(torrent.created_by, "test");
    assert_eq!(torrent.creation_date, 1700000000);
    assert_eq!(torrent.url_list, Some(vec!["http://m/".to_string()]));
    assert_eq!(torrent.sources, None);
    assert_eq!(torrent.info.name, "file.bin");
    assert_eq!(torrent.info.length, 40000);
    assert_eq!(torrent.info.piece_length, 16384);
    assert_eq!(torrent.info.pieces, vec![3u8; 60]);
    assert_eq!(torrent.info.md5sum, None);
    assert_eq!(torrent.pieces_amount, 3);
}

#[test]
fn infohash_is_the_digest_of_the_raw_info_bytes() {
    let mut info: Vec<u8> = Vec::new();
    info.extend_from_slice(b"d4:name8:file.bin6:lengthi0040000e12:piece lengthi16384e");
    info.extend_from_slice(b"6:pieces60:");
    info.extend_from_slice(&[9u8; 60]);
    info.extend_from_slice(b"e");
    let expected: [u8; 20] = Sha1::digest(&info).into();
    let torrent = parse_torrent_file(&torrent_bytes(&info)).unwrap();
    assert_eq!(torrent.info_hash, expected);
    assert_eq!(torrent.info.length, 40000);
    let hex: String = expected.iter().map(|b| format!("{:02x}", b)).collect();
    assert_eq!(torrent.info_hash_str, hex);
    assert_eq!(torrent.info_hash_str.len(), 40);
    assert_ne!(torrent.info_hash_str.as_bytes(), &expected[..]);
    let mut reordered: Vec<u8> = Vec::new();
    reordered.extend_from_slice(b"d7:comment7:a file!4:info");
    reordered.extend_from_slice(&info);
    reordered.extend_from_slice(b"8:announce20:http://tracker.test/e");
    let other = parse_torrent_file(&reordered).unwrap();
    assert_eq!(other.info_hash, expected);
    assert_eq!(other.announce, "http://tracker.test/");
}

#[test]
fn refuses_incomplete_metainfo() {
    assert_eq!(
        parse_torrent_file(b"d8:announce3:abce").unwrap_err(),
        TorrentError::MissingField
    );
    assert_eq!(
        parse_torrent_file(b"d4:infoi1ee").unwrap_err(),
        TorrentError::MissingField
    );
    assert_eq!(
        parse_torrent_file(b"d4:infod6:lengthi1e4:name1:a12:piece lengthi1eee").unwrap_err(),
        TorrentError::MissingField
    );
    assert_eq!(
        parse_torrent_file(b"d4:infod6:lengthi1e12:piece lengthi1e6:pieces20:aaaaaaaaaaaaaaaaaaaaee")
            .unwrap_err(),
        TorrentError::MissingField
    );
    assert_eq!(
        parse_torrent_file(b"d4:infod4:name1:a12:piece lengthi1e6:pieces20:aaaaaaaaaaaaaaaaaaaaee")
            .unwrap_err(),
        TorrentError::MissingField
    );
    assert_eq!(
        parse_torrent_file(b"d4:infod6:lengthi1e4:name1:a6:pieces20:aaaaaaaaaaaaaaaaaaaaee")
            .unwrap_err(),
        TorrentError::MissingField
    );
    assert_eq!(
        parse_torrent_file(b"l4:infoe").unwrap_err(),
        TorrentError::Bencode(BencodeError::Malformed)
    );
    assert_eq!(
        parse_torrent_file(b"").unwrap_err(),
        TorrentError::Bencode(BencodeError::Malformed)
    );
    assert_eq!(
        parse_torrent_file(b"d4:info").unwrap_err(),
        TorrentError::Bencode(BencodeError::Malformed)
    );
}

#[test]
fn refuses_bad_piece_data() {
    let zero = info_dictionary("i0e", &[3u8; 60]);
    assert_eq!(
        parse_torrent_file(&torrent_bytes(&zero)).unwrap_err(),
        TorrentError::InvalidPieceLength
    );
    let negative = info_dictionary("i-16384e", &[3u8; 60]);
    assert_eq!(
        parse_torrent_file(&torrent_bytes(&negative)).unwrap_err(),
        TorrentError::Bencode(BencodeError::InvalidField)
    );
    let ragged = info_dictionary("i16384e", &[3u8; 59]);
    assert_eq!(
        parse_torrent_file(&torrent_bytes(&ragged)).unwrap_err(),
        TorrentError::InvalidPieces
    );
    let few = info_dictionary("i16384e", &[3u8; 40]);
    assert_eq!(
        parse_torrent_file(&torrent_bytes(&few)).unwrap_err(),
        TorrentError::InvalidPieces
    );
    let mut bad_name: Vec<u8> = Vec::new();
    bad_name.extend_from_slice(b"d4:infod6:lengthi1e4:name2:");
    bad_name.extend_from_slice(&[0xff, 0xfe]);
    bad_name.extend_from_slice(b"12:piece lengthi1e6:pieces20:aaaaaaaaaaaaaaaaaaaaee");
    assert_eq!(
        parse_torrent_file(&bad_name).unwrap_err(),
        TorrentError::Bencode(BencodeError::InvalidField)
    );
}

#[test]
fn keys_are_named() {
    assert_eq!(TorrentKeys::from_str("announce"), TorrentKeys::Announce);
    assert_eq!(TorrentKeys::from_str("announce-list"), TorrentKeys::AnnounceList);
    assert_eq!(TorrentKeys::from_str("info"), TorrentKeys::Info);
    assert_eq!(TorrentKeys::from_str("created by"), TorrentKeys::CreatedBy);
    assert_eq!(TorrentKeys::from_str("creation date"), TorrentKeys::CreationDate);
    assert_eq!(TorrentKeys::from_str("Announce"), TorrentKeys::UnsupportedKey);
    assert_eq!(TorrentKeys::from_str(""), TorrentKeys::UnsupportedKey);
    let all = [
        TorrentKeys::Announce,
        TorrentKeys::AnnounceList,
        TorrentKeys::Info,
        TorrentKeys::Comment,
        TorrentKeys::CreatedBy,
        TorrentKeys::CreationDate,
        TorrentKeys::Sources,
        TorrentKeys::UrlList,
    ];
    for key in all {
        assert_eq!(TorrentKeys::from_str(key.as_str()), key);
        assert!(!key.is_unsupported_key());
    }
    assert!(TorrentKeys::UnsupportedKey.is_unsupported_key());
    assert_eq!(TorrentKeys::UnsupportedKey.as_str(), "unsupported-key");
    assert!(TorrentKeys::Info.is_dictionary_field());
    assert!(!TorrentKeys::Comment.is_dictionary_field());
    assert!(TorrentKeys::AnnounceList.is_nested_list_string());
    assert!(TorrentKeys::Sources.is_list_of_strings());
    assert!(TorrentKeys::UrlList.is_list_field());
    assert!(TorrentKeys::CreationDate.is_integer_field());
    assert!(TorrentKeys::Announce.is_string_field());
    assert!(!TorrentKeys::Announce.is_binary_field());
    assert!(!TorrentKeys::Announce.is_list_of_bytes());

    let info = [
        MetaInfoKeys::Name,
        MetaInfoKeys::Length,
        MetaInfoKeys::Pieces,
        MetaInfoKeys::PieceLength,
        MetaInfoKeys::Md5Sum,
        MetaInfoKeys::Sha256,
        MetaInfoKeys::Sha1,
    ];
    for key in info {
        assert_eq!(MetaInfoKeys::from_str(key.as_str()), key);
        assert!(key.is_binary_field());
    }
    assert_eq!(MetaInfoKeys::from_str("piece length"), MetaInfoKeys::PieceLength);
    assert_eq!(MetaInfoKeys::from_str("private"), MetaInfoKeys::UnsupportedKey);
    assert!(MetaInfoKeys::Name.is_string_field());
    assert!(MetaInfoKeys::Length.is_integer_field());
    assert!(MetaInfoKeys::Pieces.is_list_field());
    assert!(!MetaInfoKeys::Name.is_list_field());

    assert_eq!(TrackerDataKeys::from_str("interval"), TrackerDataKeys::Interval);
    assert_eq!(TrackerDataKeys::from_str("peers"), TrackerDataKeys::Peers);
    assert_eq!(TrackerDataKeys::from_str("peers6"), TrackerDataKeys::UnsupportedKey);
    assert_eq!(TrackerDataKeys::Peers.as_str(), "peers");
    assert!(TrackerDataKeys::Peers.is_binary_field());
    assert!(TrackerDataKeys::Interval.is_integer_field());
    assert_eq!(<TorrentFile as BencodeParsable>::key_from_str("info"), TorrentKeys::Info);
    assert_eq!(<MetaInfo as BencodeParsable>::key_from_str("name"), MetaInfoKeys::Name);
}

#[test]
fn receiver_callbacks() {
    let mut torrent = TorrentFile::default();
    assert_eq!(torrent.on_integer(TorrentKeys::CreationDate, 12), Ok(()));
    assert_eq!(torrent.creation_date, 12);
    assert_eq!(
        torrent.on_integer(TorrentKeys::CreationDate, -1),
        Err(BencodeError::InvalidField)
    );
    assert_eq!(torrent.creation_date, 12);
    assert_eq!(torrent.on_integer(TorrentKeys::Comment, 5), Ok(()));
    assert_eq!(
        torrent.on_string_or_bytes(TorrentKeys::Announce, b"udp://x".to_vec()),
        Ok(())
    );
    assert_eq!(torrent.announce, "udp://x");
    assert_eq!(
        torrent.on_string_or_bytes(TorrentKeys::Comment, vec![0xc3, 0x28]),
        Err(BencodeError::InvalidField)
    );
    assert_eq!(
        torrent.on_list_string(TorrentKeys::Sources, vec![b"a".to_vec(), b"b".to_vec()]),
        Ok(())
    );
    assert_eq!(torrent.sources, Some(vec!["a".to_string(), "b".to_string()]));
    assert_eq!(
        torrent.on_list_string(TorrentKeys::AnnounceList, Vec::new()),
        Ok(())
    );
    assert_eq!(torrent.announce_list, Some(Vec::new()));
    assert_eq!(
        torrent.on_nested_list_string(TorrentKeys::AnnounceList, vec![vec![vec![0xff]]]),
        Err(BencodeError::InvalidField)
    );
    let mut info = MetaInfo {
        name: String::new(),
        length: 0,
        piece_length: 0,
        pieces: Vec::new(),
        md5sum: None,
        sha1: None,
        sha256: None,
    };
    assert_eq!(info.on_string_or_bytes(MetaInfoKeys::Sha1, vec![1u8; 20]), Ok(()));
    assert_eq!(info.sha1, Some([1u8; 20]));
    assert_eq!(
        info.on_string_or_bytes(MetaInfoKeys::Sha1, vec![1u8; 19]),
        Err(BencodeError::InvalidField)
    );
    assert_eq!(info.on_string_or_bytes(MetaInfoKeys::Sha256, vec![2u8; 32]), Ok(()));
    assert_eq!(info.sha256, Some([2u8; 32]));
    assert_eq!(
        info.on_string_or_bytes(MetaInfoKeys::Md5Sum, b"d41d8cd9".to_vec()),
        Ok(())
    );
    assert_eq!(info.md5sum, Some("d41d8cd9".to_string()));
    assert_eq!(info.on_integer(MetaInfoKeys::Length, 77), Ok(()));
    assert_eq!(info.length, 77);
}

#[test]
fn text_helpers() {
    assert_eq!(bytes_to_string(b"caf\xc3\xa9"), Some("café".to_string()));
    assert_eq!(bytes_to_string(b""), Some(String::new()));
    assert_eq!(bytes_to_string(&[0x80]), None);
    assert!(text_equals("info", "info"));
    assert!(!text_equals("info", "infos"));
    let mut out = String::from("n=");
    append_decimal(&mut out, 0);
    out.push(',');
    append_decimal(&mut out, 6881);
    out.push(',');
    append_decimal(&mut out, u64::MAX);
    assert_eq!(out, "n=0,6881,18446744073709551615");
}

#[test]
fn peers_are_written_out() {
    assert_eq!(endpoint_string(&[127, 0, 0, 1, 0x1a, 0xe1], 0), "127.0.0.1:6881");
    assert_eq!(
        endpoint_string(&[0, 0, 10, 20, 30, 255, 255, 255], 2),
        "10.20.30.255:65535"
    );
    let mut answer = TrackerData::default();
    answer.peers = vec![192, 168, 1, 9, 0, 80, 8, 8, 8, 8, 1, 0, 1, 2, 3];
    answer.on_peers_updated();
    assert_eq!(
        answer.peers_str,
        vec!["192.168.1.9:80".to_string(), "8.8.8.8:256".to_string()]
    );
}

#[test]
fn loads_a_tracker_answer() {
    let mut body: Vec<u8> = Vec::new();
    body.extend_from_slice(b"d8:completei5e8:intervali1800e5:peers12:");
    body.extend_from_slice(&[127, 0, 0, 1, 0x1a, 0xe1, 10, 0, 0, 2, 0xc8, 0xd5]);
    body.extend_from_slice(b"e");
    let answer = get_tracker_data(&body).unwrap();
    assert_eq!(answer.interval, 1800);
    assert_eq!(answer.peers.len(), 12);
    assert_eq!(
        answer.peers_str,
        vec!["127.0.0.1:6881".to_string(), "10.0.0.2:51413".to_string()]
    );
    let none = get_tracker_data(b"d8:intervali60e5:peers0:e").unwrap();
    assert!(none.peers_str.is_empty());
    assert_eq!(none.interval, 60);
}

#[test]
fn refuses_bad_tracker_answers() {
    assert_eq!(
        get_tracker_data(b"d14:failure reason9:not founde").unwrap_err(),
        TrackerError::TrackerRejected
    );
    assert_eq!(
        get_tracker_data(b"d14:failure reason3:bad8:intervali60e5:peers0:e").unwrap_err(),
        TrackerError::TrackerRejected
    );
    assert_eq!(
        get_tracker_data(b"d8:intervali60ee").unwrap_err(),
        TrackerError::TrackerMalformed
    );
    assert_eq!(
        get_tracker_data(b"d5:peers0:e").unwrap_err(),
        TrackerError::TrackerMalformed
    );
    assert_eq!(
        get_tracker_data(b"d8:intervali60e5:peers5:abcdee").unwrap_err(),
        TrackerError::TrackerMalformed
    );
    assert_eq!(
        get_tracker_data(b"d8:intervali-1e5:peers0:e").unwrap_err(),
        TrackerError::TrackerMalformed
    );
    assert_eq!(
        get_tracker_data(b"d8:intervali60e5:peersld2:ip1:aeee").unwrap_err(),
        TrackerError::TrackerMalformed
    );
    assert_eq!(
        get_tracker_data(b"<html>").unwrap_err(),
        TrackerError::TrackerMalformed
    );
    assert_eq!(
        get_tracker_data(b"i5e").unwrap_err(),
        TrackerError::TrackerMalformed
    );
    assert_eq!(
        get_tracker_data(b"d8:intervali60e5:peers0:ex").unwrap_err(),
        TrackerError::TrackerMalformed
    );
}

#[test]
fn announce_url_is_built() {
    let mut torrent = TorrentFile::default();
    torrent.announce = "http://tracker.test/announce".to_string();
    torrent.info_hash = [
        0x12, 0x34, 0x56, 0x78, 0x9a, 0xbc, 0xde, 0xf1, 0x23, 0x45, 0x67, 0x89, 0xab, 0xcd, 0xef,
        0x12, 0x34, 0x56, 0x78, 0x9a,
    ];
    let url = announce_url(&torrent, b"-XX0001-abcdefghijkl", 6881, 0, 0, 40000);
    assert_eq!(
        url,
        "http://tracker.test/announce?info_hash=%124Vx%9A%BC%DE%F1%23Eg%89%AB%CD%EF%124Vx%9A\
&peer_id=-XX0001-abcdefghijkl&port=6881&uploaded=0&downloaded=0&left=40000\
&event=started&compact=1"
    );
    torrent.info_hash = *b"az09AZ-._~ /?&=%+\x00\xff\n";
    let url = announce_url(&torrent, &[0u8; 20], 1, 2, 3, 4);
    assert!(url.contains("info_hash=az09AZ-._~%20%2F%3F%26%3D%25%2B%00%FF%0A&"));
    assert!(url.ends_with("&port=1&uploaded=2&downloaded=3&left=4&event=started&compact=1"));
}
