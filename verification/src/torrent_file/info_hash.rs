use crate::bencode::grammar::{parse_bytes, parse_entries, parse_value};
use crate::bencode::value::BencodeValue;
use crate::bencode::{deliver, feed_entries, BencodeKey};
use crate::digest::sha1_of;
use crate::text::text_of;
use crate::torrent_file::{
    empty_torrent, loaded_torrent, TorrentFile, TorrentFileView, TorrentKeys,
};
use vstd::prelude::*;

verus! {

/// Where the raw bytes of the `info` dictionary lie: the start and the end of
/// the value of the last entry, from `pos` on, whose key is `info` and whose
/// value is a dictionary; `found` where there is no such entry.
pub open spec fn info_span(data: Seq<u8>, pos: int, found: Option<(int, int)>) -> Option<
    (int, int),
>
    decreases data.len() - pos,
{
    if pos < 0 || pos >= data.len() || data[pos] == 101u8 {
        found
    } else {
        match parse_bytes(data, pos) {
            None => found,
            Some((key, at)) => match parse_value(data, at) {
                None => found,
                Some((value, next)) => if next <= pos || next > data.len() {
                    found
                } else if text_of(key) == Some("info"@) && value is Dictionary {
                    info_span(data, next, Some((at, next)))
                } else {
                    info_span(data, next, found)
                },
            },
        }
    }
}

/// The infohash that goes with a place of the `info` dictionary.
pub open spec fn hash_at(data: Seq<u8>, found: Option<(int, int)>, otherwise: Seq<u8>) -> Seq<u8> {
    match found {
        Some((start, end)) => sha1_of(data.subrange(start, end)),
        None => otherwise,
    }
}

proof fn lemma_info_key(text: Seq<char>)
    ensures
        TorrentKeys::of_text(text) is Info <==> text == "info"@,
        !(TorrentKeys::Info.unsupported()),
{
    reveal_strlit("info");
    reveal_strlit("announce");
    reveal_strlit("announce-list");
    if text == "info"@ {
        assert(text.len() == 4);
        assert("announce"@.len() == 8);
        assert("announce-list"@.len() == 13);
    }
}

proof fn lemma_delivery_keeps_hash(
    view: TorrentFileView,
    key: TorrentKeys,
    value: BencodeValue,
    data: Seq<u8>,
    start: int,
    end: int,
)
    ensures
        deliver::<TorrentFile>(view, key, value, data, start, end).error is None ==> deliver::<
            TorrentFile,
        >(view, key, value, data, start, end).view.info_hash == if key is Info
            && value is Dictionary {
            sha1_of(data.subrange(start, end))
        } else {
            view.info_hash
        },
{
}

proof fn lemma_span_stays(data: Seq<u8>, pos: int, found: Option<(int, int)>)
    requires
        found is Some,
    ensures
        info_span(data, pos, found) is Some,
    decreases data.len() - pos,
{
    if pos < 0 || pos >= data.len() || data[pos] == 101u8 {
    } else {
        match parse_bytes(data, pos) {
            None => {},
            Some((key, at)) => match parse_value(data, at) {
                None => {},
                Some((value, next)) => {
                    if next <= pos || next > data.len() {
                    } else if text_of(key) == Some("info"@) && value is Dictionary {
                        lemma_span_stays(data, next, Some((at, next)));
                    } else {
                        lemma_span_stays(data, next, found);
                    }
                },
            },
        }
    }
}

proof fn lemma_feed_info_hash(
    view: TorrentFileView,
    data: Seq<u8>,
    pos: int,
    found: Option<(int, int)>,
)
    requires
        found is Some ==> view.info_hash == hash_at(data, found, view.info_hash),
    ensures
        feed_entries::<TorrentFile>(view, data, pos).1 is Ok ==> feed_entries::<TorrentFile>(
            view,
            data,
            pos,
        ).0.info_hash == hash_at(data, info_span(data, pos, found), view.info_hash),
    decreases data.len() - pos,
{
    if pos < 0 || pos >= data.len() || data[pos] == 101u8 {
    } else {
        match parse_bytes(data, pos) {
            None => {},
            Some((key, at)) => match parse_value(data, at) {
                None => {},
                Some((value, next)) => {
                    if next <= pos || next > data.len() {
                    } else {
                        match text_of(key) {
                            None => {
                                lemma_feed_info_hash(view, data, next, found);
                            },
                            Some(text) => {
                                let known = TorrentKeys::of_text(text);
                                lemma_info_key(text);
                                lemma_delivery_keeps_hash(view, known, value, data, at, next);
                                let delivery = deliver::<TorrentFile>(
                                    view,
                                    known,
                                    value,
                                    data,
                                    at,
                                    next,
                                );
                                if delivery.error is None {
                                    if known is Info && value is Dictionary {
                                        lemma_span_stays(data, next, Some((at, next)));
                                        lemma_feed_info_hash(
                                            delivery.view,
                                            data,
                                            next,
                                            Some((at, next)),
                                        );
                                    } else {
                                        lemma_feed_info_hash(delivery.view, data, next, found);
                                    }
                                }
                            },
                        }
                    }
                },
            },
        }
    }
}

/// The entries of the dictionary whose first entry stands at `pos`.
pub open spec fn entries_at(data: Seq<u8>, pos: int) -> Seq<(Seq<u8>, BencodeValue)> {
    match parse_entries(data, pos) {
        Some((entries, _)) => entries,
        None => Seq::empty(),
    }
}

/// The raw bytes of the `info` dictionary of a metainfo file.
pub open spec fn info_raw_bytes(data: Seq<u8>) -> Seq<u8> {
    match info_span(data, 1, None) {
        Some((start, end)) => data.subrange(start, end),
        None => Seq::empty(),
    }
}

proof fn lemma_span_found(data: Seq<u8>, pos: int, found: Option<(int, int)>)
    requires
        parse_entries(data, pos) is Some,
        exists|i: int|
            0 <= i < entries_at(data, pos).len() && text_of((#[trigger] entries_at(data, pos)[i]).0)
                == Some("info"@) && entries_at(data, pos)[i].1 is Dictionary,
    ensures
        info_span(data, pos, found) is Some,
    decreases data.len() - pos,
{
    let entries = entries_at(data, pos);
    let i = choose|i: int|
        0 <= i < entries.len() && text_of((#[trigger] entries[i]).0) == Some("info"@)
            && entries[i].1 is Dictionary;
    let (key, at) = parse_bytes(data, pos)->0;
    let (value, next) = parse_value(data, at)->0;
    let rest = entries_at(data, next);
    assert(entries =~= seq![(key, value)] + rest);
    if text_of(key) == Some("info"@) && value is Dictionary {
        lemma_span_stays(data, next, Some((at, next)));
    } else {
        assert(i > 0);
        assert(rest[i - 1] == entries[i]);
        lemma_span_found(data, next, found);
    }
}

/// Infohash stability: the infohash of a loaded metainfo file is the SHA-1
/// digest of the raw bytes of its `info` dictionary, as they stand in the
/// file. Nothing else in the file has a part in it.
pub proof fn lemma_info_hash_of_raw_bytes(data: Seq<u8>)
    requires
        loaded_torrent(data) is Ok,
    ensures
        info_span(data, 1, None) is Some,
        loaded_torrent(data)->Ok_0.info_hash == sha1_of(info_raw_bytes(data)),
{
    lemma_feed_info_hash(empty_torrent(), data, 1, None);
    lemma_span_found(data, 1, None);
}

} // verus!
