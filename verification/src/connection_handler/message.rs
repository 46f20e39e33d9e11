use std::collections::HashSet;
use vstd::prelude::*;

verus! {

/// Size in bytes of one requested block.
pub const REQUEST_PIECE_SIZE: u32 = 16384;

/// The kinds of peer-wire messages, one per message id.
#[derive(Debug, Clone, Copy, PartialEq, Eq, Structural)]
pub enum MessageType {
    Choke,
    Unchoke,
    Interested,
    NotInterested,
    Have,
    Bitfield,
    Request,
    Piece,
    Cancel,
    Port,
}

impl MessageType {
    /// The wire id of a message kind.
    pub open spec fn id(self) -> u8 {
        match self {
            MessageType::Choke => 0,
            MessageType::Unchoke => 1,
            MessageType::Interested => 2,
            MessageType::NotInterested => 3,
            MessageType::Have => 4,
            MessageType::Bitfield => 5,
            MessageType::Request => 6,
            MessageType::Piece => 7,
            MessageType::Cancel => 8,
            MessageType::Port => 9,
        }
    }

    /// The message kind that a wire id stands for, if any.
    pub open spec fn of_id(value: u8) -> Option<MessageType> {
        if value == 0 {
            Some(MessageType::Choke)
        } else if value == 1 {
            Some(MessageType::Unchoke)
        } else if value == 2 {
            Some(MessageType::Interested)
        } else if value == 3 {
            Some(MessageType::NotInterested)
        } else if value == 4 {
            Some(MessageType::Have)
        } else if value == 5 {
            Some(MessageType::Bitfield)
        } else if value == 6 {
            Some(MessageType::Request)
        } else if value == 7 {
            Some(MessageType::Piece)
        } else if value == 8 {
            Some(MessageType::Cancel)
        } else if value == 9 {
            Some(MessageType::Port)
        } else {
            None
        }
    }

    /// The message kind that the wire id `value` stands for.
    pub fn from_byte(value: u8) -> (r: Option<MessageType>)
        ensures
            r == MessageType::of_id(value),
    {
        match value {
            0 => Some(MessageType::Choke),
            1 => Some(MessageType::Unchoke),
            2 => Some(MessageType::Interested),
            3 => Some(MessageType::NotInterested),
            4 => Some(MessageType::Have),
            5 => Some(MessageType::Bitfield),
            6 => Some(MessageType::Request),
            7 => Some(MessageType::Piece),
            8 => Some(MessageType::Cancel),
            9 => Some(MessageType::Port),
            _ => None,
        }
    }

    /// The wire id of the message kind.
    pub fn to_byte(&self) -> (r: u8)
        ensures
            r == self.id(),
    {
        match self {
            MessageType::Choke => 0,
            MessageType::Unchoke => 1,
            MessageType::Interested => 2,
            MessageType::NotInterested => 3,
            MessageType::Have => 4,
            MessageType::Bitfield => 5,
            MessageType::Request => 6,
            MessageType::Piece => 7,
            MessageType::Cancel => 8,
            MessageType::Port => 9,
        }
    }
}

/// Every message kind is recovered from its own wire id, and an id that
/// stands for a kind is the id of that kind.
pub proof fn lemma_message_id_round_trip(kind: MessageType, value: u8)
    ensures
        MessageType::of_id(kind.id()) == Some(kind),
        MessageType::of_id(value) matches Some(k) ==> k.id() == value,
        MessageType::of_id(value) is None <==> value > 9,
{
}

/// The big-endian number that four bytes stand for.
pub open spec fn be32(b: Seq<u8>) -> int {
    b[0] as int * 16777216 + b[1] as int * 65536 + b[2] as int * 256 + b[3] as int
}

/// The four big-endian bytes of a number below 2^32.
pub open spec fn be32_bytes(v: int) -> Seq<u8> {
    seq![
        (v / 16777216) as u8,
        ((v / 65536) % 256) as u8,
        ((v / 256) % 256) as u8,
        (v % 256) as u8,
    ]
}

/// Reading back the bytes written for a number gives the number, and writing
/// the number read from four bytes gives the bytes.
pub proof fn lemma_be32_round_trip(v: u32, b: Seq<u8>)
    requires
        b.len() == 4,
    ensures
        be32(be32_bytes(v as int)) == v,
        be32_bytes(be32(b)) == b,
        0 <= be32(b) <= u32::MAX,
{
    let w = be32(b);
    assert(w / 16777216 == b[0] as int);
    assert((w / 65536) % 256 == b[1] as int);
    assert((w / 256) % 256 == b[2] as int);
    assert(w % 256 == b[3] as int);
    assert(be32_bytes(w) =~= b);
}

/// Reads the big-endian `u32` at `data[at..at + 4]`.
pub fn read_be32(data: &[u8], at: usize) -> (v: u32)
    requires
        at + 4 <= data@.len(),
    ensures
        v == be32(data@.subrange(at as int, at + 4)),
{
    let b0: u32 = data[at] as u32;
    let b1: u32 = data[at + 1] as u32;
    let b2: u32 = data[at + 2] as u32;
    let b3: u32 = data[at + 3] as u32;
    b0 * 16777216 + b1 * 65536 + b2 * 256 + b3
}

/// Appends the four big-endian bytes of `v` to `out`.
pub fn push_be32(out: &mut Vec<u8>, v: u32)
    ensures
        final(out)@ == old(out)@ + be32_bytes(v as int),
{
    out.push((v / 16777216) as u8);
    out.push(((v / 65536) % 256) as u8);
    out.push(((v / 256) % 256) as u8);
    out.push((v % 256) as u8);
    assert(out@ =~= old(out)@ + be32_bytes(v as int));
}

/// A piece that is being downloaded: its bytes so far, the offsets of the
/// blocks that arrived, and the number of bytes still missing.
pub struct Piece {
    pub index: u32,
    /// The buffer, as long as the whole piece from the start.
    pub data: Vec<u8>,
    pub received_offsets: HashSet<u32>,
    pub missing_data: usize,
    /// Offset and size of each block taken in, in the order of arrival.
    pub blocks: Ghost<Seq<(u32, nat)>>,
}

/// One framed message: its kind, or `None` for a keep-alive, and the whole
/// payload, the id byte first.
#[derive(Debug)]
pub struct Message {
    pub msg_type: Option<MessageType>,
    pub data: Vec<u8>,
}

/// Why a peer session ends.
#[derive(Debug, Clone, Copy, PartialEq, Eq, Structural)]
pub enum SessionError {
    HandshakeInfohashMismatch,
    HandshakeProtocolMismatch,
    UnknownMessage,
    MalformedMessage,
    BadBitfieldLength,
    UnexpectedBitfield,
    UnexpectedBlock,
    BlockOverrun,
    PeerCorrupting,
    PeerTimeout,
    PeerClosed,
}

/// The message that a payload holds.
pub open spec fn parsed_message(payload: Seq<u8>) -> Result<Option<MessageType>, SessionError> {
    if payload.len() == 0 {
        Ok(None)
    } else {
        match MessageType::of_id(payload[0]) {
            Some(kind) => Ok(Some(kind)),
            None => Err(SessionError::UnknownMessage),
        }
    }
}

impl Message {
    /// Classifies a payload of the length that the frame header announced. An
    /// empty payload is a keep-alive; an id that stands for no kind is refused.
    pub fn parse(payload: Vec<u8>) -> (r: Result<Message, SessionError>)
        ensures
            match r {
                Ok(m) => parsed_message(payload@) == Ok::<Option<MessageType>, SessionError>(
                    m.msg_type,
                ) && m.data@ == payload@,
                Err(e) => parsed_message(payload@) == Err::<Option<MessageType>, SessionError>(e),
            },
    {
        if payload.len() == 0 {
            return Ok(Message { msg_type: None, data: payload });
        }
        match MessageType::from_byte(payload[0]) {
            Some(kind) => Ok(Message { msg_type: Some(kind), data: payload }),
            None => Err(SessionError::UnknownMessage),
        }
    }
}

/// A choke, unchoke, interested or not-interested message, or any other
/// message without a body: length 1 and the id.
pub open spec fn intention_bytes(kind: MessageType) -> Seq<u8> {
    be32_bytes(1) + seq![kind.id()]
}

/// A `have` message for piece `index`.
pub open spec fn have_bytes(index: u32) -> Seq<u8> {
    be32_bytes(5) + seq![4u8] + be32_bytes(index as int)
}

/// A `bitfield` message that carries `bits`.
pub open spec fn bitfield_bytes(bits: Seq<u8>) -> Seq<u8> {
    be32_bytes(1 + bits.len() as int) + seq![5u8] + bits
}

/// A `request` message for `length` bytes of piece `index` from `begin` on.
pub open spec fn request_bytes(index: u32, begin: u32, length: u32) -> Seq<u8> {
    be32_bytes(13) + seq![6u8] + be32_bytes(index as int) + be32_bytes(begin as int) + be32_bytes(
        length as int,
    )
}

/// A `piece` message that carries `block`, which starts at `begin` in piece
/// `index`.
pub open spec fn block_bytes(index: u32, begin: u32, block: Seq<u8>) -> Seq<u8> {
    be32_bytes(9 + block.len() as int) + seq![7u8] + be32_bytes(index as int) + be32_bytes(begin as int)
        + block
}

/// Frames a message without a body.
pub fn intention_message(kind: MessageType) -> (out: Vec<u8>)
    ensures
        out@ == intention_bytes(kind),
        out@.len() == 5,
{
    let mut out: Vec<u8> = Vec::new();
    push_be32(&mut out, 1);
    out.push(kind.to_byte());
    assert(out@ =~= intention_bytes(kind));
    out
}

/// Frames a `have` message.
pub fn have_message(index: u32) -> (out: Vec<u8>)
    ensures
        out@ == have_bytes(index),
        out@.len() == 9,
{
    let mut out: Vec<u8> = Vec::new();
    push_be32(&mut out, 5);
    out.push(4u8);
    push_be32(&mut out, index);
    assert(out@ =~= have_bytes(index));
    out
}

/// Frames a `bitfield` message.
pub fn bitfield_message(bits: &[u8]) -> (out: Vec<u8>)
    requires
        bits@.len() < u32::MAX,
    ensures
        out@ == bitfield_bytes(bits@),
        out@.len() == 5 + bits@.len(),
{
    let mut out: Vec<u8> = Vec::new();
    push_be32(&mut out, 1 + bits.len() as u32);
    out.push(5u8);
    let mut i: usize = 0;
    while i < bits.len()
        invariant
            i <= bits@.len(),
            out@ == be32_bytes(1 + bits@.len() as int) + seq![5u8] + bits@.subrange(0, i as int),
        decreases bits@.len() - i,
    {
        out.push(bits[i]);
        assert(out@ =~= be32_bytes(1 + bits@.len() as int) + seq![5u8] + bits@.subrange(0, i + 1));
        i = i + 1;
    }
    assert(bits@.subrange(0, bits@.len() as int) =~= bits@);
    out
}

/// Frames a `request` message.
pub fn request_message(index: u32, begin: u32, length: u32) -> (out: Vec<u8>)
    ensures
        out@ == request_bytes(index, begin, length),
        out@.len() == 17,
{
    let mut out: Vec<u8> = Vec::new();
    push_be32(&mut out, 13);
    out.push(6u8);
    push_be32(&mut out, index);
    push_be32(&mut out, begin);
    push_be32(&mut out, length);
    assert(out@ =~= request_bytes(index, begin, length));
    out
}

/// Frames a block read from the store as a `piece` message: 13 bytes of
/// header, then the block.
pub fn piece_message(index: u32, begin: u32, block: &[u8]) -> (out: Vec<u8>)
    requires
        block@.len() + 9 <= u32::MAX,
    ensures
        out@ == block_bytes(index, begin, block@),
        out@.len() == 4 + 1 + 4 + 4 + block@.len(),
{
    let mut out: Vec<u8> = Vec::new();
    push_be32(&mut out, 9 + block.len() as u32);
    out.push(7u8);
    push_be32(&mut out, index);
    push_be32(&mut out, begin);
    let ghost head = out@;
    let mut i: usize = 0;
    while i < block.len()
        invariant
            i <= block@.len(),
            head.len() == 13,
            out@ == head + block@.subrange(0, i as int),
        decreases block@.len() - i,
    {
        out.push(block[i]);
        assert(out@ =~= head + block@.subrange(0, i + 1));
        i = i + 1;
    }
    assert(block@.subrange(0, block@.len() as int) =~= block@);
    assert(out@ =~= block_bytes(index, begin, block@));
    out
}

/// A framed message reads back: its header announces the length of its
/// payload, and the payload starts with the id of its kind.
pub proof fn lemma_frames_read_back(kind: MessageType, index: u32, begin: u32, length: u32)
    ensures
        be32(intention_bytes(kind).subrange(0, 4)) == intention_bytes(kind).len() - 4,
        parsed_message(intention_bytes(kind).subrange(4, 5)) == Ok::<
            Option<MessageType>,
            SessionError,
        >(Some(kind)),
        be32(have_bytes(index).subrange(0, 4)) == have_bytes(index).len() - 4,
        have_bytes(index)[4] == MessageType::Have.id(),
        be32(have_bytes(index).subrange(5, 9)) == index,
        be32(request_bytes(index, begin, length).subrange(0, 4)) == request_bytes(
            index,
            begin,
            length,
        ).len() - 4,
        request_bytes(index, begin, length)[4] == MessageType::Request.id(),
        be32(request_bytes(index, begin, length).subrange(5, 9)) == index,
        be32(request_bytes(index, begin, length).subrange(9, 13)) == begin,
        be32(request_bytes(index, begin, length).subrange(13, 17)) == length,
{
    lemma_be32_round_trip(1, be32_bytes(1));
    lemma_be32_round_trip(5, be32_bytes(5));
    lemma_be32_round_trip(13, be32_bytes(13));
    lemma_be32_round_trip(index, be32_bytes(index as int));
    lemma_be32_round_trip(begin, be32_bytes(begin as int));
    lemma_be32_round_trip(length, be32_bytes(length as int));
    let a = intention_bytes(kind);
    assert(a.subrange(0, 4) =~= be32_bytes(1));
    assert(a.subrange(4, 5)[0] == kind.id());
    lemma_message_id_round_trip(kind, 0);
    let h = have_bytes(index);
    assert(h.subrange(0, 4) =~= be32_bytes(5));
    assert(h.subrange(5, 9) =~= be32_bytes(index as int));
    let r = request_bytes(index, begin, length);
    assert(r.subrange(0, 4) =~= be32_bytes(13));
    assert(r.subrange(5, 9) =~= be32_bytes(index as int));
    assert(r.subrange(9, 13) =~= be32_bytes(begin as int));
    assert(r.subrange(13, 17) =~= be32_bytes(length as int));
}

/// A framed block reads back: the header announces the length of the
/// payload, and the payload holds the id, the index, the offset and the
/// block.
pub proof fn lemma_block_reads_back(index: u32, begin: u32, block: Seq<u8>)
    requires
        block.len() + 9 <= u32::MAX,
    ensures
        block_bytes(index, begin, block).len() == 13 + block.len(),
        be32(block_bytes(index, begin, block).subrange(0, 4)) == 9 + block.len(),
        block_bytes(index, begin, block)[4] == MessageType::Piece.id(),
        be32(block_bytes(index, begin, block).subrange(5, 9)) == index,
        be32(block_bytes(index, begin, block).subrange(9, 13)) == begin,
        block_bytes(index, begin, block).subrange(13, 13 + block.len() as int) == block,
{
    let size = (9 + block.len()) as u32;
    lemma_be32_round_trip(size, be32_bytes(size as int));
    lemma_be32_round_trip(index, be32_bytes(index as int));
    lemma_be32_round_trip(begin, be32_bytes(begin as int));
    let m = block_bytes(index, begin, block);
    assert(m.subrange(0, 4) =~= be32_bytes(size as int));
    assert(m.subrange(5, 9) =~= be32_bytes(index as int));
    assert(m.subrange(9, 13) =~= be32_bytes(begin as int));
    assert(m.subrange(13, 13 + block.len() as int) =~= block);
}

/// What the session asks of the code that owns the socket and the file.
#[derive(Debug)]
pub enum SessionAction {
    /// Write these bytes to the peer.
    Send(Vec<u8>),
    /// Write `data`, the verified piece `index`, to the file at `offset`.
    WritePiece { index: u32, offset: u64, data: Vec<u8> },
    /// Read `length` bytes of the file at `offset` and send them to the peer
    /// as the block that starts at `begin` in piece `index`.
    ReadBlock { index: u32, begin: u32, offset: u64, length: u32 },
    /// Close the connection.
    Close,
}

/// A session action as plain mathematical values.
pub enum ActionView {
    Send(Seq<u8>),
    WritePiece { index: u32, offset: int, data: Seq<u8> },
    ReadBlock { index: u32, begin: u32, offset: int, length: u32 },
    Close,
}

impl View for SessionAction {
    type V = ActionView;

    open spec fn view(&self) -> ActionView {
        match self {
            SessionAction::Send(bytes) => ActionView::Send(bytes@),
            SessionAction::WritePiece { index, offset, data } => ActionView::WritePiece {
                index: *index,
                offset: *offset as int,
                data: data@,
            },
            SessionAction::ReadBlock { index, begin, offset, length } => ActionView::ReadBlock {
                index: *index,
                begin: *begin,
                offset: *offset as int,
                length: *length,
            },
            SessionAction::Close => ActionView::Close,
        }
    }
}

/// The views of a list of actions, in order.
pub open spec fn actions_view(actions: Seq<SessionAction>) -> Seq<ActionView> {
    Seq::new(actions.len(), |i: int| actions[i]@)
}

/// The payload length that a frame header announces.
pub fn frame_length(header: &[u8; 4]) -> (n: u32)
    ensures
        n == be32(header@),
{
    let n = read_be32(header.as_slice(), 0);
    assert(header@.subrange(0, 4) =~= header@);
    n
}

} // verus!
