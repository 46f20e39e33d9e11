use crate::bencode::decode::BencodeError;
use crate::bencode::{BencodeKey, BencodeParsable, Delivery};
use crate::digest::{has_digest, sha1_of};
use crate::text::{bytes_to_string, text_equals, text_of};
use vstd::prelude::*;

verus! {

/// The keys of the `info` dictionary that the loader knows.
#[derive(PartialEq, Eq, Debug, Clone, Copy, Structural)]
pub enum MetaInfoKeys {
    Name,
    Length,
    Pieces,
    PieceLength,
    Md5Sum,
    Sha256,
    Sha1,
    UnsupportedKey,
}

/// The `info` dictionary of a metainfo file.
#[derive(Debug)]
pub struct MetaInfo {
    pub name: String,
    pub length: usize,
    pub piece_length: usize,
    pub pieces: Vec<u8>,
    pub md5sum: Option<String>,
    pub sha1: Option<[u8; 20]>,
    pub sha256: Option<[u8; 32]>,
}

/// The `info` dictionary as plain mathematical values.
pub struct MetaInfoView {
    pub name: Seq<char>,
    pub length: int,
    pub piece_length: int,
    pub pieces: Seq<u8>,
    pub md5sum: Option<Seq<char>>,
    pub sha1: Option<Seq<u8>>,
    pub sha256: Option<Seq<u8>>,
}

impl View for MetaInfo {
    type V = MetaInfoView;

    open spec fn view(&self) -> MetaInfoView {
        MetaInfoView {
            name: self.name@,
            length: self.length as int,
            piece_length: self.piece_length as int,
            pieces: self.pieces@,
            md5sum: match self.md5sum {
                Some(text) => Some(text@),
                None => None,
            },
            sha1: match self.sha1 {
                Some(digest) => Some(digest@),
                None => None,
            },
            sha256: match self.sha256 {
                Some(digest) => Some(digest@),
                None => None,
            },
        }
    }
}

impl BencodeKey for MetaInfoKeys {
    open spec fn of_text(text: Seq<char>) -> Self {
        if text == "name"@ {
            MetaInfoKeys::Name
        } else if text == "length"@ {
            MetaInfoKeys::Length
        } else if text == "pieces"@ {
            MetaInfoKeys::Pieces
        } else if text == "piece length"@ {
            MetaInfoKeys::PieceLength
        } else if text == "md5sum"@ {
            MetaInfoKeys::Md5Sum
        } else if text == "sha256"@ {
            MetaInfoKeys::Sha256
        } else if text == "sha1"@ {
            MetaInfoKeys::Sha1
        } else {
            MetaInfoKeys::UnsupportedKey
        }
    }

    open spec fn text(&self) -> Seq<char> {
        match self {
            MetaInfoKeys::Name => "name"@,
            MetaInfoKeys::Length => "length"@,
            MetaInfoKeys::Pieces => "pieces"@,
            MetaInfoKeys::PieceLength => "piece length"@,
            MetaInfoKeys::Md5Sum => "md5sum"@,
            MetaInfoKeys::Sha256 => "sha256"@,
            MetaInfoKeys::Sha1 => "sha1"@,
            MetaInfoKeys::UnsupportedKey => "unsupported-key"@,
        }
    }

    open spec fn unsupported(&self) -> bool {
        self is UnsupportedKey
    }

    fn is_unsupported_key(&self) -> (r: bool) {
        matches!(self, MetaInfoKeys::UnsupportedKey)
    }

    fn as_str(&self) -> (s: &'static str) {
        match self {
            MetaInfoKeys::Name => "name",
            MetaInfoKeys::Length => "length",
            MetaInfoKeys::Pieces => "pieces",
            MetaInfoKeys::PieceLength => "piece length",
            MetaInfoKeys::Md5Sum => "md5sum",
            MetaInfoKeys::Sha256 => "sha256",
            MetaInfoKeys::Sha1 => "sha1",
            MetaInfoKeys::UnsupportedKey => "unsupported-key",
        }
    }

    fn from_str(s: &str) -> (key: Self) {
        if text_equals(s, "name") {
            MetaInfoKeys::Name
        } else if text_equals(s, "length") {
            MetaInfoKeys::Length
        } else if text_equals(s, "pieces") {
            MetaInfoKeys::Pieces
        } else if text_equals(s, "piece length") {
            MetaInfoKeys::PieceLength
        } else if text_equals(s, "md5sum") {
            MetaInfoKeys::Md5Sum
        } else if text_equals(s, "sha256") {
            MetaInfoKeys::Sha256
        } else if text_equals(s, "sha1") {
            MetaInfoKeys::Sha1
        } else {
            MetaInfoKeys::UnsupportedKey
        }
    }

    fn is_string_field(&self) -> (r: bool)
        ensures
            r == (self is Name || self is Md5Sum),
    {
        match self {
            MetaInfoKeys::Name | MetaInfoKeys::Md5Sum => true,
            _ => false,
        }
    }

    fn is_list_field(&self) -> (r: bool)
        ensures
            r == (self is Pieces || self is Sha1 || self is Sha256),
    {
        match self {
            MetaInfoKeys::Pieces | MetaInfoKeys::Sha1 | MetaInfoKeys::Sha256 => true,
            _ => false,
        }
    }

    fn is_integer_field(&self) -> (r: bool)
        ensures
            r == (self is Length || self is PieceLength),
    {
        match self {
            MetaInfoKeys::Length | MetaInfoKeys::PieceLength => true,
            _ => false,
        }
    }

    /// The value of every key of this dictionary may come as raw bytes.
    fn is_binary_field(&self) -> (r: bool)
        ensures
            r,
    {
        true
    }
}

/// Every key that the loader knows is the key that its own text names.
pub proof fn lemma_info_key_text(key: MetaInfoKeys)
    requires
        !key.unsupported(),
    ensures
        MetaInfoKeys::of_text(key.text()) == key,
{
    reveal_strlit("name");
    reveal_strlit("length");
    reveal_strlit("pieces");
    reveal_strlit("piece length");
    reveal_strlit("md5sum");
    reveal_strlit("sha256");
    reveal_strlit("sha1");
    assert("name"@.len() == 4 && "name"@[0] == 'n');
    assert("length"@.len() == 6 && "length"@[0] == 'l');
    assert("pieces"@.len() == 6 && "pieces"@[0] == 'p');
    assert("piece length"@.len() == 12);
    assert("md5sum"@.len() == 6 && "md5sum"@[0] == 'm');
    assert("sha256"@.len() == 6 && "sha256"@[0] == 's');
    assert("sha1"@.len() == 4 && "sha1"@[0] == 's');
}

/// The view is kept and the value is accepted.
pub open spec fn kept<V>(view: V) -> Delivery<V> {
    Delivery { view, error: None }
}

/// The view is kept and the value is refused.
pub open spec fn refused<V>(view: V) -> Delivery<V> {
    Delivery { view, error: Some(BencodeError::InvalidField) }
}

/// The number as a count or a size, if it is one: not negative and within
/// `usize`.
pub open spec fn as_size(value: int) -> Option<int> {
    if 0 <= value <= usize::MAX {
        Some(value)
    } else {
        None
    }
}

/// The number as a `usize`, if it is not negative and fits.
pub fn size_of_integer(value: i64) -> (r: Option<usize>)
    ensures
        match r {
            Some(size) => as_size(value as int) == Some(size as int),
            None => as_size(value as int) is None,
        },
{
    if value < 0 || value as u64 > usize::MAX as u64 {
        None
    } else {
        Some(value as usize)
    }
}

/// The bytes as an array of `N`, if there are `N` of them.
pub fn array_of_bytes<const N: usize>(bytes: &[u8]) -> (r: Option<[u8; N]>)
    ensures
        match r {
            Some(array) => bytes@.len() == N && array@ == bytes@,
            None => bytes@.len() != N,
        },
{
    if bytes.len() != N {
        return None;
    }
    let mut array: [u8; N] = [0u8; N];
    let mut i: usize = 0;
    while i < N
        invariant
            i <= N,
            bytes@.len() == N,
            forall|j: int| 0 <= j < i ==> array@[j] == bytes@[j],
        decreases N - i,
    {
        array[i] = bytes[i];
        i = i + 1;
    }
    assert(array@ =~= bytes@);
    Some(array)
}

impl BencodeParsable for MetaInfo {
    type Key = MetaInfoKeys;

    /// A name and an MD5 sum have to be text, a SHA-1 digest 20 bytes and a
    /// SHA-256 digest 32 bytes long; the piece digests are taken as they are.
    open spec fn bytes_effect(view: MetaInfoView, key: MetaInfoKeys, value: Seq<u8>) -> Delivery<
        MetaInfoView,
    > {
        match key {
            MetaInfoKeys::Name => match text_of(value) {
                Some(text) => kept(MetaInfoView { name: text, ..view }),
                None => refused(view),
            },
            MetaInfoKeys::Md5Sum => match text_of(value) {
                Some(text) => kept(MetaInfoView { md5sum: Some(text), ..view }),
                None => refused(view),
            },
            MetaInfoKeys::Sha1 => if value.len() == 20 {
                kept(MetaInfoView { sha1: Some(value), ..view })
            } else {
                refused(view)
            },
            MetaInfoKeys::Sha256 => if value.len() == 32 {
                kept(MetaInfoView { sha256: Some(value), ..view })
            } else {
                refused(view)
            },
            MetaInfoKeys::Pieces => kept(MetaInfoView { pieces: value, ..view }),
            _ => kept(view),
        }
    }

    /// A length and a piece length have to be sizes.
    open spec fn integer_effect(view: MetaInfoView, key: MetaInfoKeys, value: int) -> Delivery<
        MetaInfoView,
    > {
        match key {
            MetaInfoKeys::PieceLength => match as_size(value) {
                Some(size) => kept(MetaInfoView { piece_length: size, ..view }),
                None => refused(view),
            },
            MetaInfoKeys::Length => match as_size(value) {
                Some(size) => kept(MetaInfoView { length: size, ..view }),
                None => refused(view),
            },
            _ => kept(view),
        }
    }

    open spec fn list_effect(view: MetaInfoView, key: MetaInfoKeys, value: Seq<Seq<u8>>) -> Delivery<
        MetaInfoView,
    > {
        kept(view)
    }

    open spec fn nested_list_effect(
        view: MetaInfoView,
        key: MetaInfoKeys,
        value: Seq<Seq<Seq<u8>>>,
    ) -> Delivery<MetaInfoView> {
        kept(view)
    }

    open spec fn dictionary_effect(
        view: MetaInfoView,
        key: MetaInfoKeys,
        data: Seq<u8>,
        start: int,
        end: int,
    ) -> Delivery<MetaInfoView> {
        kept(view)
    }

    fn key_from_str(s: &str) -> (key: MetaInfoKeys) {
        MetaInfoKeys::from_str(s)
    }

    fn on_string_or_bytes(&mut self, key: MetaInfoKeys, value: Vec<u8>) -> (r: Result<
        (),
        BencodeError,
    >) {
        match key {
            MetaInfoKeys::Name => match bytes_to_string(value.as_slice()) {
                Some(text) => {
                    self.name = text;
                    Ok(())
                },
                None => Err(BencodeError::InvalidField),
            },
            MetaInfoKeys::Md5Sum => match bytes_to_string(value.as_slice()) {
                Some(text) => {
                    self.md5sum = Some(text);
                    Ok(())
                },
                None => Err(BencodeError::InvalidField),
            },
            MetaInfoKeys::Sha1 => match array_of_bytes::<20>(value.as_slice()) {
                Some(digest) => {
                    self.sha1 = Some(digest);
                    Ok(())
                },
                None => Err(BencodeError::InvalidField),
            },
            MetaInfoKeys::Sha256 => match array_of_bytes::<32>(value.as_slice()) {
                Some(digest) => {
                    self.sha256 = Some(digest);
                    Ok(())
                },
                None => Err(BencodeError::InvalidField),
            },
            MetaInfoKeys::Pieces => {
                self.pieces = value;
                Ok(())
            },
            _ => Ok(()),
        }
    }

    fn on_integer(&mut self, key: MetaInfoKeys, value: i64) -> (r: Result<(), BencodeError>) {
        match key {
            MetaInfoKeys::PieceLength => match size_of_integer(value) {
                Some(size) => {
                    self.piece_length = size;
                    Ok(())
                },
                None => Err(BencodeError::InvalidField),
            },
            MetaInfoKeys::Length => match size_of_integer(value) {
                Some(size) => {
                    self.length = size;
                    Ok(())
                },
                None => Err(BencodeError::InvalidField),
            },
            _ => Ok(()),
        }
    }

    fn on_list_string(&mut self, key: MetaInfoKeys, value: Vec<Vec<u8>>) -> (r: Result<
        (),
        BencodeError,
    >) {
        Ok(())
    }

    fn on_nested_list_string(&mut self, key: MetaInfoKeys, value: Vec<Vec<Vec<u8>>>) -> (r:
        Result<(), BencodeError>) {
        Ok(())
    }

    fn on_dictionary(&mut self, key: MetaInfoKeys, data: &[u8], start: usize, end: usize) -> (r:
        Result<(), BencodeError>) {
        Ok(())
    }
}

/// Number of pieces of a file: `length / piece_length`, rounded up.
pub open spec fn pieces_needed(length: int, piece_length: int) -> int {
    if piece_length <= 0 {
        0
    } else {
        (length + piece_length - 1) / piece_length
    }
}

/// Offset in the file of the first byte of piece `i`.
pub open spec fn piece_start(piece_length: int, i: int) -> int {
    i * piece_length
}

/// Offset in the file just after the last byte of piece `i`: the last piece
/// ends with the file.
pub open spec fn piece_end(length: int, piece_length: int, i: int) -> int {
    if (i + 1) * piece_length < length {
        (i + 1) * piece_length
    } else {
        length
    }
}

/// The bytes of piece `i` within the content of the whole file.
pub open spec fn piece_bytes(content: Seq<u8>, piece_length: int, i: int) -> Seq<u8> {
    content.subrange(
        piece_start(piece_length, i),
        piece_end(content.len() as int, piece_length, i),
    )
}

/// Where the pieces of a file lie: each piece but the last is `piece_length`
/// long, none is empty, and pieces with different indices do not overlap.
pub proof fn lemma_piece_layout(length: int, piece_length: int, i: int)
    requires
        0 < piece_length,
        0 <= length,
        0 <= i < pieces_needed(length, piece_length),
    ensures
        0 <= piece_start(piece_length, i) < piece_end(length, piece_length, i) <= length,
        piece_end(length, piece_length, i) - piece_start(piece_length, i) <= piece_length,
        i + 1 < pieces_needed(length, piece_length) ==> piece_end(length, piece_length, i)
            == piece_start(piece_length, i + 1),
        i + 1 == pieces_needed(length, piece_length) ==> piece_end(length, piece_length, i)
            == length,
        piece_start(piece_length, i + 1) == piece_start(piece_length, i) + piece_length,
        forall|j: int|
            i < j ==> piece_start(piece_length, i) + piece_length <= #[trigger] piece_start(
                piece_length,
                j,
            ),
{
    let n = pieces_needed(length, piece_length);
    assert((i + 1) * piece_length == i * piece_length + piece_length) by (nonlinear_arith);
    assert(i * piece_length < length) by (nonlinear_arith)
        requires
            0 < piece_length,
            0 <= i,
            i < (length + piece_length - 1) / piece_length,
    ;
    assert(0 <= i * piece_length) by (nonlinear_arith)
        requires
            0 < piece_length,
            0 <= i,
    ;
    if i + 1 < n {
        assert((i + 1) * piece_length < length) by (nonlinear_arith)
            requires
                0 < piece_length,
                0 <= i,
                i + 1 < (length + piece_length - 1) / piece_length,
        ;
    } else {
        assert((i + 1) * piece_length >= length) by (nonlinear_arith)
            requires
                0 < piece_length,
                0 <= i,
                0 <= length,
                i + 1 == (length + piece_length - 1) / piece_length,
        ;
    }
    assert forall|j: int| i < j implies piece_start(piece_length, i) + piece_length
        <= #[trigger] piece_start(piece_length, j) by {
        assert((i + 1) * piece_length <= j * piece_length) by (nonlinear_arith)
            requires
                0 < piece_length,
                i + 1 <= j,
        ;
    }
}

impl MetaInfo {
    /// Number of pieces of the file.
    pub open spec fn piece_count(&self) -> int {
        pieces_needed(self.length as int, self.piece_length as int)
    }

    /// Exact length of piece `i`: the last piece holds what is left.
    pub open spec fn piece_len(&self, i: int) -> int {
        piece_end(self.length as int, self.piece_length as int, i) - piece_start(
            self.piece_length as int,
            i,
        )
    }

    /// The digest that piece `i` must have.
    pub open spec fn expected_hash(&self, i: int) -> Seq<u8> {
        self.pieces@.subrange(20 * i, 20 * i + 20)
    }

    /// The piece length is positive, there is one digest of 20 bytes per
    /// piece, and piece indices and offsets inside a piece fit the 32 bits
    /// that the wire protocol gives them.
    pub open spec fn wf(&self) -> bool {
        &&& 0 < self.piece_length <= u32::MAX
        &&& self.pieces@.len() == 20 * self.piece_count()
        &&& self.piece_count() <= u32::MAX
    }

    /// Number of pieces of the file; 0 where the piece length is 0.
    pub fn count_pieces(&self) -> (n: usize)
        ensures
            n == self.piece_count(),
    {
        if self.piece_length == 0 {
            return 0;
        }
        let whole: usize = self.length / self.piece_length;
        let n: usize = if self.length % self.piece_length == 0 {
            whole
        } else {
            assert(whole < self.length) by (nonlinear_arith)
                requires
                    whole == self.length / self.piece_length,
                    self.length % self.piece_length != 0,
                    0 < self.piece_length,
            ;
            whole + 1
        };
        proof {
            lemma_div_round_up(self.length as int, self.piece_length as int);
        }
        n
    }

    /// Whether `data` has the digest that the metainfo gives piece `index`.
    pub fn verify_piece(&self, index: usize, data: &[u8]) -> (r: bool)
        requires
            self.wf(),
            index < self.piece_count(),
        ensures
            r == (sha1_of(data@) == self.expected_hash(index as int)),
    {
        has_digest(self.pieces.as_slice(), index, data)
    }

    /// Exact length of piece `index`.
    pub fn piece_length_of(&self, index: usize) -> (n: usize)
        requires
            self.wf(),
            index < self.piece_count(),
        ensures
            n == self.piece_len(index as int),
            0 < n <= self.piece_length,
            index * self.piece_length + n <= self.length,
    {
        proof {
            lemma_piece_layout(self.length as int, self.piece_length as int, index as int);
        }
        let start: usize = index * self.piece_length;
        let left: usize = self.length - start;
        if left < self.piece_length {
            left
        } else {
            self.piece_length
        }
    }
}

/// Rounding a quotient up: one more than the quotient unless the division is
/// exact.
pub proof fn lemma_div_round_up(a: int, b: int)
    requires
        0 <= a,
        0 < b,
    ensures
        (a + b - 1) / b == if a % b == 0 {
            a / b
        } else {
            a / b + 1
        },
{
    let q = a / b;
    let r = a % b;
    assert(a == q * b + r) by (nonlinear_arith)
        requires
            q == a / b,
            r == a % b,
            0 < b,
    ;
    if r == 0 {
        assert((q * b + b - 1) / b == q) by (nonlinear_arith)
            requires
                0 < b,
        ;
    } else {
        assert((q * b + r + b - 1) / b == q + 1) by (nonlinear_arith)
            requires
                0 < b,
                0 < r < b,
        ;
    }
}

} // verus!
