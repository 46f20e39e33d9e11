pub mod info_hash;
pub mod meta_info;

use crate::bencode::decode::{decode, decoded, BencodeError};
use crate::bencode::decode::BencodeType;
use crate::bencode::value::{entries_view, find_field, has_field, key_is, Bencode, BencodeValue};
use crate::bencode::{decode_dictionary, feed_dictionary, BencodeKey, BencodeParsable, Delivery};
use crate::digest::{hex_encode, hex_text, sha1_digest, sha1_of};
use crate::text::{
    all_nested_texts, all_texts, bytes_to_string, nested_string_views, nested_strings_from_bytes,
    nested_texts_of, string_views, strings_from_bytes, text_equals, text_of, texts_of,
};
use crate::torrent_file::meta_info::{
    as_size, kept, pieces_needed, refused, size_of_integer, MetaInfo, MetaInfoView,
};
use vstd::prelude::*;
use vstd::slice::slice_subrange;

verus! {

/// The keys of the top-level dictionary of a metainfo file that the loader
/// knows.
#[derive(PartialEq, Eq, Debug, Clone, Copy, Structural)]
pub enum TorrentKeys {
    Announce,
    AnnounceList,
    Info,
    Comment,
    CreatedBy,
    CreationDate,
    Sources,
    UrlList,
    UnsupportedKey,
}

/// A metainfo file: where to announce, and what to download.
#[derive(Debug)]
pub struct TorrentFile {
    pub info: MetaInfo,
    pub announce: String,
    pub announce_list: Option<Vec<Vec<String>>>,
    pub comment: String,
    pub created_by: String,
    pub creation_date: usize,
    pub sources: Option<Vec<String>>,
    pub url_list: Option<Vec<String>>,
    /// SHA-1 of the raw bytes of the `info` dictionary.
    pub info_hash: [u8; 20],
    pub info_hash_str: String,
    pub pieces_amount: usize,
}

/// A metainfo file as plain mathematical values.
pub struct TorrentFileView {
    pub info: MetaInfoView,
    pub announce: Seq<char>,
    pub announce_list: Option<Seq<Seq<Seq<char>>>>,
    pub comment: Seq<char>,
    pub created_by: Seq<char>,
    pub creation_date: int,
    pub sources: Option<Seq<Seq<char>>>,
    pub url_list: Option<Seq<Seq<char>>>,
    pub info_hash: Seq<u8>,
    pub info_hash_str: Seq<char>,
    pub pieces_amount: int,
}

impl View for TorrentFile {
    type V = TorrentFileView;

    open spec fn view(&self) -> TorrentFileView {
        TorrentFileView {
            info: self.info@,
            announce: self.announce@,
            announce_list: match self.announce_list {
                Some(list) => Some(nested_string_views(list@)),
                None => None,
            },
            comment: self.comment@,
            created_by: self.created_by@,
            creation_date: self.creation_date as int,
            sources: match self.sources {
                Some(list) => Some(string_views(list@)),
                None => None,
            },
            url_list: match self.url_list {
                Some(list) => Some(string_views(list@)),
                None => None,
            },
            info_hash: self.info_hash@,
            info_hash_str: self.info_hash_str@,
            pieces_amount: self.pieces_amount as int,
        }
    }
}

/// A metainfo file of which nothing is known yet.
pub open spec fn empty_torrent() -> TorrentFileView {
    TorrentFileView {
        info: MetaInfoView {
            name: Seq::empty(),
            length: 0,
            piece_length: 0,
            pieces: Seq::empty(),
            md5sum: None,
            sha1: None,
            sha256: None,
        },
        announce: Seq::empty(),
        announce_list: None,
        comment: Seq::empty(),
        created_by: Seq::empty(),
        creation_date: 0,
        sources: None,
        url_list: None,
        info_hash: Seq::new(20, |i: int| 0u8),
        info_hash_str: Seq::empty(),
        pieces_amount: 0,
    }
}

impl Default for TorrentFile {
    fn default() -> (torrent: TorrentFile)
        ensures
            torrent@ == empty_torrent(),
    {
        let torrent = TorrentFile {
            info: MetaInfo {
                name: String::new(),
                length: 0,
                piece_length: 0,
                pieces: Vec::new(),
                md5sum: None,
                sha1: None,
                sha256: None,
            },
            announce: String::new(),
            announce_list: None,
            comment: String::new(),
            created_by: String::new(),
            creation_date: 0,
            sources: None,
            url_list: None,
            info_hash: [0u8; 20],
            info_hash_str: String::new(),
            pieces_amount: 0,
        };
        assert(torrent.info_hash@ =~= Seq::new(20, |i: int| 0u8));
        assert(torrent.info.pieces@ =~= Seq::<u8>::empty());
        torrent
    }
}

impl BencodeKey for TorrentKeys {
    open spec fn of_text(text: Seq<char>) -> Self {
        if text == "announce"@ {
            TorrentKeys::Announce
        } else if text == "announce-list"@ {
            TorrentKeys::AnnounceList
        } else if text == "info"@ {
            TorrentKeys::Info
        } else if text == "comment"@ {
            TorrentKeys::Comment
        } else if text == "created by"@ {
            TorrentKeys::CreatedBy
        } else if text == "creation date"@ {
            TorrentKeys::CreationDate
        } else if text == "sources"@ {
            TorrentKeys::Sources
        } else if text == "url-list"@ {
            TorrentKeys::UrlList
        } else {
            TorrentKeys::UnsupportedKey
        }
    }

    open spec fn text(&self) -> Seq<char> {
        match self {
            TorrentKeys::Announce => "announce"@,
            TorrentKeys::AnnounceList => "announce-list"@,
            TorrentKeys::Info => "info"@,
            TorrentKeys::Comment => "comment"@,
            TorrentKeys::CreatedBy => "created by"@,
            TorrentKeys::CreationDate => "creation date"@,
            TorrentKeys::Sources => "sources"@,
            TorrentKeys::UrlList => "url-list"@,
            TorrentKeys::UnsupportedKey => "unsupported-key"@,
        }
    }

    open spec fn unsupported(&self) -> bool {
        self is UnsupportedKey
    }

    fn is_unsupported_key(&self) -> (r: bool) {
        matches!(self, TorrentKeys::UnsupportedKey)
    }

    fn is_dictionary_field(&self) -> (r: bool)
        ensures
            r == (self is Info),
    {
        matches!(self, TorrentKeys::Info)
    }

    fn is_list_field(&self) -> (r: bool)
        ensures
            r == (self is AnnounceList || self is Sources || self is UrlList),
    {
        match self {
            TorrentKeys::AnnounceList | TorrentKeys::Sources | TorrentKeys::UrlList => true,
            _ => false,
        }
    }

    fn is_integer_field(&self) -> (r: bool)
        ensures
            r == (self is CreationDate),
    {
        matches!(self, TorrentKeys::CreationDate)
    }

    fn is_string_field(&self) -> (r: bool)
        ensures
            r == (self is Info || self is Comment || self is CreatedBy || self is Announce),
    {
        match self {
            TorrentKeys::Info | TorrentKeys::Comment | TorrentKeys::CreatedBy
            | TorrentKeys::Announce => true,
            _ => false,
        }
    }

    fn is_list_of_strings(&self) -> (r: bool)
        ensures
            r == (self is Sources || self is UrlList),
    {
        match self {
            TorrentKeys::Sources | TorrentKeys::UrlList => true,
            _ => false,
        }
    }

    fn is_nested_list_string(&self) -> (r: bool)
        ensures
            r == (self is AnnounceList),
    {
        matches!(self, TorrentKeys::AnnounceList)
    }

    fn from_str(s: &str) -> (key: Self) {
        if text_equals(s, "announce") {
            TorrentKeys::Announce
        } else if text_equals(s, "announce-list") {
            TorrentKeys::AnnounceList
        } else if text_equals(s, "info") {
            TorrentKeys::Info
        } else if text_equals(s, "comment") {
            TorrentKeys::Comment
        } else if text_equals(s, "created by") {
            TorrentKeys::CreatedBy
        } else if text_equals(s, "creation date") {
            TorrentKeys::CreationDate
        } else if text_equals(s, "sources") {
            TorrentKeys::Sources
        } else if text_equals(s, "url-list") {
            TorrentKeys::UrlList
        } else {
            TorrentKeys::UnsupportedKey
        }
    }

    fn as_str(&self) -> (s: &'static str) {
        match self {
            TorrentKeys::Announce => "announce",
            TorrentKeys::AnnounceList => "announce-list",
            TorrentKeys::Info => "info",
            TorrentKeys::Comment => "comment",
            TorrentKeys::CreatedBy => "created by",
            TorrentKeys::CreationDate => "creation date",
            TorrentKeys::Sources => "sources",
            TorrentKeys::UrlList => "url-list",
            TorrentKeys::UnsupportedKey => "unsupported-key",
        }
    }
}

/// Every key that the loader knows is the key that its own text names.
pub proof fn lemma_torrent_key_text(key: TorrentKeys)
    requires
        !key.unsupported(),
    ensures
        TorrentKeys::of_text(key.text()) == key,
{
    reveal_strlit("announce");
    reveal_strlit("announce-list");
    reveal_strlit("info");
    reveal_strlit("comment");
    reveal_strlit("created by");
    reveal_strlit("creation date");
    reveal_strlit("sources");
    reveal_strlit("url-list");
    assert("announce"@.len() == 8 && "announce"@[0] == 'a');
    assert("announce-list"@.len() == 13 && "announce-list"@[0] == 'a');
    assert("info"@.len() == 4);
    assert("comment"@.len() == 7 && "comment"@[0] == 'c');
    assert("created by"@.len() == 10);
    assert("creation date"@.len() == 13 && "creation date"@[0] == 'c');
    assert("sources"@.len() == 7 && "sources"@[0] == 's');
    assert("url-list"@.len() == 8 && "url-list"@[0] == 'u');
}

impl BencodeParsable for TorrentFile {
    type Key = TorrentKeys;

    /// The announce URL, the comment and the author have to be text.
    open spec fn bytes_effect(view: TorrentFileView, key: TorrentKeys, value: Seq<u8>) -> Delivery<
        TorrentFileView,
    > {
        match key {
            TorrentKeys::Comment => match text_of(value) {
                Some(text) => kept(TorrentFileView { comment: text, ..view }),
                None => refused(view),
            },
            TorrentKeys::CreatedBy => match text_of(value) {
                Some(text) => kept(TorrentFileView { created_by: text, ..view }),
                None => refused(view),
            },
            TorrentKeys::Announce => match text_of(value) {
                Some(text) => kept(TorrentFileView { announce: text, ..view }),
                None => refused(view),
            },
            _ => kept(view),
        }
    }

    /// The creation date has to be a size.
    open spec fn integer_effect(view: TorrentFileView, key: TorrentKeys, value: int) -> Delivery<
        TorrentFileView,
    > {
        match key {
            TorrentKeys::CreationDate => match as_size(value) {
                Some(date) => kept(TorrentFileView { creation_date: date, ..view }),
                None => refused(view),
            },
            _ => kept(view),
        }
    }

    /// The sources and the URL list have to be lists of texts. An announce
    /// list without tiers is taken as such.
    open spec fn list_effect(view: TorrentFileView, key: TorrentKeys, value: Seq<Seq<u8>>) -> Delivery<
        TorrentFileView,
    > {
        match key {
            TorrentKeys::Sources => if all_texts(value) {
                kept(TorrentFileView { sources: Some(texts_of(value)), ..view })
            } else {
                refused(view)
            },
            TorrentKeys::UrlList => if all_texts(value) {
                kept(TorrentFileView { url_list: Some(texts_of(value)), ..view })
            } else {
                refused(view)
            },
            TorrentKeys::AnnounceList => if value.len() == 0 {
                kept(TorrentFileView { announce_list: Some(Seq::empty()), ..view })
            } else {
                kept(view)
            },
            _ => kept(view),
        }
    }

    /// The announce list has to be a list of lists of texts.
    open spec fn nested_list_effect(
        view: TorrentFileView,
        key: TorrentKeys,
        value: Seq<Seq<Seq<u8>>>,
    ) -> Delivery<TorrentFileView> {
        match key {
            TorrentKeys::AnnounceList => if all_nested_texts(value) {
                kept(TorrentFileView { announce_list: Some(nested_texts_of(value)), ..view })
            } else {
                refused(view)
            },
            _ => kept(view),
        }
    }

    /// The `info` dictionary fills the `info` part, one entry after the
    /// other. Once it is through, the infohash is the SHA-1 digest of the raw
    /// bytes of the dictionary, from its `d` to its closing `e`, and the number
    /// of pieces follows from the two lengths.
    open spec fn dictionary_effect(
        view: TorrentFileView,
        key: TorrentKeys,
        data: Seq<u8>,
        start: int,
        end: int,
    ) -> Delivery<TorrentFileView> {
        match key {
            TorrentKeys::Info => {
                let fed = feed_dictionary::<MetaInfo>(view.info, data, start);
                match fed.1 {
                    Err(e) => Delivery {
                        view: TorrentFileView { info: fed.0, ..view },
                        error: Some(e),
                    },
                    Ok(_) => kept(
                        TorrentFileView {
                            info: fed.0,
                            info_hash: sha1_of(data.subrange(start, end)),
                            info_hash_str: hex_text(sha1_of(data.subrange(start, end))),
                            pieces_amount: pieces_needed(fed.0.length, fed.0.piece_length),
                            ..view
                        },
                    ),
                }
            },
            _ => kept(view),
        }
    }

    fn key_from_str(s: &str) -> (key: TorrentKeys) {
        TorrentKeys::from_str(s)
    }

    fn on_string_or_bytes(&mut self, key: TorrentKeys, value: Vec<u8>) -> (r: Result<
        (),
        BencodeError,
    >) {
        match key {
            TorrentKeys::Comment => match bytes_to_string(value.as_slice()) {
                Some(text) => {
                    self.comment = text;
                    Ok(())
                },
                None => Err(BencodeError::InvalidField),
            },
            TorrentKeys::CreatedBy => match bytes_to_string(value.as_slice()) {
                Some(text) => {
                    self.created_by = text;
                    Ok(())
                },
                None => Err(BencodeError::InvalidField),
            },
            TorrentKeys::Announce => match bytes_to_string(value.as_slice()) {
                Some(text) => {
                    self.announce = text;
                    Ok(())
                },
                None => Err(BencodeError::InvalidField),
            },
            _ => Ok(()),
        }
    }

    fn on_integer(&mut self, key: TorrentKeys, value: i64) -> (r: Result<(), BencodeError>) {
        match key {
            TorrentKeys::CreationDate => match size_of_integer(value) {
                Some(date) => {
                    self.creation_date = date;
                    Ok(())
                },
                None => Err(BencodeError::InvalidField),
            },
            _ => Ok(()),
        }
    }

    fn on_list_string(&mut self, key: TorrentKeys, value: Vec<Vec<u8>>) -> (r: Result<
        (),
        BencodeError,
    >) {
        match key {
            TorrentKeys::Sources => match strings_from_bytes(&value) {
                Some(texts) => {
                    self.sources = Some(texts);
                    Ok(())
                },
                None => Err(BencodeError::InvalidField),
            },
            TorrentKeys::UrlList => match strings_from_bytes(&value) {
                Some(texts) => {
                    self.url_list = Some(texts);
                    Ok(())
                },
                None => Err(BencodeError::InvalidField),
            },
            TorrentKeys::AnnounceList => {
                if value.len() == 0 {
                    let tiers: Vec<Vec<String>> = Vec::new();
                    assert(nested_string_views(tiers@) =~= Seq::empty());
                    self.announce_list = Some(tiers);
                }
                Ok(())
            },
            _ => Ok(()),
        }
    }

    fn on_nested_list_string(&mut self, key: TorrentKeys, value: Vec<Vec<Vec<u8>>>) -> (r:
        Result<(), BencodeError>) {
        match key {
            TorrentKeys::AnnounceList => match nested_strings_from_bytes(&value) {
                Some(tiers) => {
                    self.announce_list = Some(tiers);
                    Ok(())
                },
                None => Err(BencodeError::InvalidField),
            },
            _ => Ok(()),
        }
    }

    fn on_dictionary(&mut self, key: TorrentKeys, data: &[u8], start: usize, end: usize) -> (r:
        Result<(), BencodeError>) {
        match key {
            TorrentKeys::Info => {
                match decode_dictionary(&mut self.info, data, start) {
                    Err(e) => Err(e),
                    Ok(_) => {
                        let raw = slice_subrange(data, start, end);
                        self.info_hash = sha1_digest(raw);
                        self.info_hash_str = hex_encode(self.info_hash.as_slice());
                        self.pieces_amount = self.info.count_pieces();
                        Ok(())
                    },
                }
            },
            _ => Ok(()),
        }
    }
}

impl TorrentFile {
    /// The `info` dictionary is well formed and `pieces_amount` is its number
    /// of pieces.
    pub open spec fn wf(&self) -> bool {
        &&& self.info.wf()
        &&& self.pieces_amount == self.info.piece_count()
    }
}

/// Why a metainfo file is refused.
#[derive(Debug, Clone, Copy, PartialEq, Eq, Structural)]
pub enum TorrentError {
    /// The file is no bencoded dictionary, bytes follow the dictionary, or a
    /// known key has a value that cannot be taken.
    Bencode(BencodeError),
    /// There is no `info` dictionary with a name, a length, a piece length
    /// and piece digests.
    MissingField,
    /// The piece length is not positive, or beyond 32 bits.
    InvalidPieceLength,
    /// The piece digests are not one digest of 20 bytes per piece.
    InvalidPieces,
}

/// Whether an `info` dictionary has its four mandatory entries.
pub open spec fn complete_info(entries: Seq<(Seq<u8>, BencodeValue)>) -> bool {
    &&& has_field(entries, "name"@, BencodeType::String)
    &&& has_field(entries, "length"@, BencodeType::Integer)
    &&& has_field(entries, "piece length"@, BencodeType::Integer)
    &&& has_field(entries, "pieces"@, BencodeType::String)
}

/// Whether a dictionary has an `info` dictionary with its mandatory entries.
pub open spec fn has_complete_info(entries: Seq<(Seq<u8>, BencodeValue)>) -> bool {
    exists|i: int|
        0 <= i < entries.len() && text_of((#[trigger] entries[i]).0) == Some("info"@)
            && entries[i].1 is Dictionary && complete_info(entries[i].1->Dictionary_0)
}

/// The checks on a metainfo file whose entries were all taken in; with them
/// passed, the number of pieces is set.
pub open spec fn checked_torrent(view: TorrentFileView) -> Result<TorrentFileView, TorrentError> {
    let count = pieces_needed(view.info.length, view.info.piece_length);
    if view.info.piece_length <= 0 || view.info.piece_length > u32::MAX {
        Err(TorrentError::InvalidPieceLength)
    } else if view.info.pieces.len() != 20 * count || count > u32::MAX {
        Err(TorrentError::InvalidPieces)
    } else {
        Ok(TorrentFileView { pieces_amount: count, ..view })
    }
}

/// What the bytes of a metainfo file load to.
pub open spec fn loaded_torrent(data: Seq<u8>) -> Result<TorrentFileView, TorrentError> {
    match decoded(data) {
        Err(e) => Err(TorrentError::Bencode(e)),
        Ok(value) => match value {
            BencodeValue::Dictionary(entries) => if !has_complete_info(entries) {
                Err(TorrentError::MissingField)
            } else {
                let fed = feed_dictionary::<TorrentFile>(empty_torrent(), data, 0);
                match fed.1 {
                    Err(e) => Err(TorrentError::Bencode(e)),
                    Ok(_) => checked_torrent(fed.0),
                }
            },
            _ => Err(TorrentError::Bencode(BencodeError::Malformed)),
        },
    }
}

fn find_complete_info(entries: &Vec<(Vec<u8>, Bencode)>) -> (r: bool)
    ensures
        r == has_complete_info(entries_view(entries@)),
{
    let mut i: usize = 0;
    while i < entries.len()
        invariant
            i <= entries@.len(),
            forall|j: int|
                0 <= j < i ==> !(text_of((#[trigger] entries_view(entries@)[j]).0) == Some(
                    "info"@,
                ) && entries_view(entries@)[j].1 is Dictionary && complete_info(
                    entries_view(entries@)[j].1->Dictionary_0,
                )),
        decreases entries@.len() - i,
    {
        if key_is(&entries[i].0, "info") {
            match &entries[i].1 {
                Bencode::Dictionary(inner) => {
                    if find_field(inner, "name", BencodeType::String) && find_field(
                        inner,
                        "length",
                        BencodeType::Integer,
                    ) && find_field(inner, "piece length", BencodeType::Integer) && find_field(
                        inner,
                        "pieces",
                        BencodeType::String,
                    ) {
                        assert(text_of(entries_view(entries@)[i as int].0) == Some("info"@));
                        return true;
                    }
                },
                _ => {},
            }
        }
        i = i + 1;
    }
    false
}

/// Loads a metainfo file from its bytes.
pub fn parse_torrent_file(data: &[u8]) -> (r: Result<TorrentFile, TorrentError>)
    ensures
        match r {
            Ok(torrent) => loaded_torrent(data@) == Ok::<TorrentFileView, TorrentError>(torrent@)
                && torrent.wf(),
            Err(e) => loaded_torrent(data@) == Err::<TorrentFileView, TorrentError>(e),
        },
{
    let tree = match decode(data) {
        Err(e) => {
            return Err(TorrentError::Bencode(e));
        },
        Ok(tree) => tree,
    };
    match &tree {
        Bencode::Dictionary(entries) => {
            if !find_complete_info(entries) {
                return Err(TorrentError::MissingField);
            }
        },
        _ => {
            return Err(TorrentError::Bencode(BencodeError::Malformed));
        },
    }
    let mut torrent = TorrentFile::default();
    match decode_dictionary(&mut torrent, data, 0) {
        Err(e) => {
            return Err(TorrentError::Bencode(e));
        },
        Ok(_) => {},
    }
    if torrent.info.piece_length == 0 || torrent.info.piece_length as u64 > u32::MAX as u64 {
        return Err(TorrentError::InvalidPieceLength);
    }
    let count = torrent.info.count_pieces();
    if count as u64 > u32::MAX as u64 || torrent.info.pieces.len() as u64 != 20 * (count as u64) {
        return Err(TorrentError::InvalidPieces);
    }
    torrent.pieces_amount = count;
    Ok(torrent)
}

} // verus!
