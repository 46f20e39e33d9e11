use crate::connection_handler::message::SessionError;
use crate::digest::bytes_equal_at;
use crate::text::{append_decimal, decimal_text};
use crate::torrent_file::TorrentFile;
use vstd::prelude::*;
use vstd::string::StringExecFns;

verus! {

/// Length of a handshake.
pub const HANDSHAKE_LEN: usize = 68;

/// The bytes of the text `BitTorrent protocol`.
pub open spec fn protocol_name() -> Seq<u8> {
    seq![
        66u8, 105u8, 116u8, 84u8, 111u8, 114u8, 114u8, 101u8, 110u8, 116u8, 32u8, 112u8, 114u8,
        111u8, 116u8, 111u8, 99u8, 111u8, 108u8,
    ]
}

/// The handshake of a peer: the length of the protocol name, the name, eight
/// reserved zero bytes, the infohash and the peer id.
pub open spec fn handshake_bytes(info_hash: Seq<u8>, peer_id: Seq<u8>) -> Seq<u8> {
    seq![19u8] + protocol_name() + Seq::new(8, |i: int| 0u8) + info_hash + peer_id
}

/// What a received handshake is answered with: the protocol name is checked
/// first, then the infohash; the reserved bytes and the peer id are not
/// looked at.
pub open spec fn handshake_verdict(response: Seq<u8>, info_hash: Seq<u8>) -> Result<
    (),
    SessionError,
> {
    if response[0] != 19u8 || response.subrange(1, 20) != protocol_name() {
        Err(SessionError::HandshakeProtocolMismatch)
    } else if response.subrange(28, 48) != info_hash {
        Err(SessionError::HandshakeInfohashMismatch)
    } else {
        Ok(())
    }
}

fn protocol_name_bytes() -> (name: [u8; 19])
    ensures
        name@ == protocol_name(),
{
    let name: [u8; 19] = [
        66u8, 105u8, 116u8, 84u8, 111u8, 114u8, 114u8, 101u8, 110u8, 116u8, 32u8, 112u8, 114u8,
        111u8, 116u8, 111u8, 99u8, 111u8, 108u8,
    ];
    assert(name@ =~= protocol_name());
    name
}

/// The 68 bytes that open a peer connection.
pub fn get_handshake_data(info_hash: &[u8; 20], peer_id: &[u8; 20]) -> (buf: [u8; 68])
    ensures
        buf@ == handshake_bytes(info_hash@, peer_id@),
{
    let name = protocol_name_bytes();
    let mut buf: [u8; 68] = [0u8; 68];
    buf[0] = 19u8;
    let mut i: usize = 0;
    while i < 19
        invariant
            i <= 19,
            name@ == protocol_name(),
            buf@[0] == 19u8,
            forall|j: int| 0 <= j < i ==> buf@[1 + j] == name@[j],
            forall|j: int| 20 <= j < 68 ==> buf@[j] == 0u8,
        decreases 19 - i,
    {
        buf[1 + i] = name[i];
        i = i + 1;
    }
    let mut k: usize = 0;
    while k < 20
        invariant
            k <= 20,
            buf@[0] == 19u8,
            forall|j: int| 0 <= j < 19 ==> buf@[1 + j] == protocol_name()[j],
            forall|j: int| 20 <= j < 28 ==> buf@[j] == 0u8,
            forall|j: int| 0 <= j < k ==> buf@[28 + j] == info_hash@[j],
            forall|j: int| 0 <= j < k ==> buf@[48 + j] == peer_id@[j],
        decreases 20 - k,
    {
        buf[28 + k] = info_hash[k];
        buf[48 + k] = peer_id[k];
        k = k + 1;
    }
    assert(buf@ =~= handshake_bytes(info_hash@, peer_id@));
    buf
}

/// Checks the handshake that the peer sent.
pub fn check_handshake(response: &[u8; 68], info_hash: &[u8; 20]) -> (r: Result<(), SessionError>)
    ensures
        r == handshake_verdict(response@, info_hash@),
{
    let name = protocol_name_bytes();
    if response[0] != 19u8 || !bytes_equal_at(response.as_slice(), 1, name.as_slice()) {
        return Err(SessionError::HandshakeProtocolMismatch);
    }
    if !bytes_equal_at(response.as_slice(), 28, info_hash.as_slice()) {
        return Err(SessionError::HandshakeInfohashMismatch);
    }
    Ok(())
}

/// A handshake built for an infohash passes the check against that infohash,
/// and against no other.
pub proof fn lemma_handshake_accepts_own(info_hash: Seq<u8>, peer_id: Seq<u8>, other: Seq<u8>)
    requires
        info_hash.len() == 20,
        peer_id.len() == 20,
        other.len() == 20,
    ensures
        handshake_verdict(handshake_bytes(info_hash, peer_id), info_hash) == Ok::<
            (),
            SessionError,
        >(()),
        other != info_hash ==> handshake_verdict(handshake_bytes(info_hash, peer_id), other)
            == Err::<(), SessionError>(SessionError::HandshakeInfohashMismatch),
{
    let h = handshake_bytes(info_hash, peer_id);
    assert(h.subrange(1, 20) =~= protocol_name());
    assert(h.subrange(28, 48) =~= info_hash);
}

/// Whether a byte goes into a URL as it is: a letter, a digit, `-`, `.`,
/// `_` or `~`.
pub open spec fn is_unreserved(b: u8) -> bool {
    ||| 48 <= b <= 57
    ||| 65 <= b <= 90
    ||| 97 <= b <= 122
    ||| b == 45
    ||| b == 46
    ||| b == 95
    ||| b == 126
}

/// The upper-case hexadecimal digit of a value below 16.
pub open spec fn upper_hex_digit(n: int) -> char {
    if n == 0 {
        '0'
    } else if n == 1 {
        '1'
    } else if n == 2 {
        '2'
    } else if n == 3 {
        '3'
    } else if n == 4 {
        '4'
    } else if n == 5 {
        '5'
    } else if n == 6 {
        '6'
    } else if n == 7 {
        '7'
    } else if n == 8 {
        '8'
    } else if n == 9 {
        '9'
    } else if n == 10 {
        'A'
    } else if n == 11 {
        'B'
    } else if n == 12 {
        'C'
    } else if n == 13 {
        'D'
    } else if n == 14 {
        'E'
    } else {
        'F'
    }
}

/// One byte as it stands in a URL: itself, or `%` and its two hexadecimal
/// digits.
pub open spec fn percent_byte(b: u8) -> Seq<char> {
    if is_unreserved(b) {
        seq![b as char]
    } else {
        seq!['%', upper_hex_digit(b as int / 16), upper_hex_digit(b as int % 16)]
    }
}

/// A byte string as it stands in a URL.
pub open spec fn percent_encoded(data: Seq<u8>) -> Seq<char>
    decreases data.len(),
{
    if data.len() == 0 {
        Seq::empty()
    } else {
        percent_encoded(data.drop_last()) + percent_byte(data.last())
    }
}

/// Calls `urlencoding::encode_binary`. Trusted: letters, digits, `-`, `.`,
/// `_` and `~` are kept, and every other byte becomes `%` and its two
/// upper-case hexadecimal digits.
#[verifier::external_body]
pub(crate) fn percent_encode(data: &[u8]) -> (text: String)
    ensures
        text@ == percent_encoded(data@),
{
    urlencoding::encode_binary(data).into_owned()
}

/// The URL of the first announce: the tracker's URL, then the infohash, the
/// peer id, the port, the three counters, the event `started` and the wish
/// for a compact peer list.
pub open spec fn announce_text(
    announce: Seq<char>,
    info_hash: Seq<u8>,
    peer_id: Seq<u8>,
    port: u16,
    uploaded: u64,
    downloaded: u64,
    left: u64,
) -> Seq<char> {
    announce + "?info_hash="@ + percent_encoded(info_hash) + "&peer_id="@ + percent_encoded(
        peer_id,
    ) + "&port="@ + decimal_text(port as nat) + "&uploaded="@ + decimal_text(uploaded as nat)
        + "&downloaded="@ + decimal_text(downloaded as nat) + "&left="@ + decimal_text(
        left as nat,
    ) + "&event=started&compact=1"@
}

/// Builds the URL of the announce request.
pub fn announce_url(
    torrent: &TorrentFile,
    peer_id: &[u8; 20],
    port: u16,
    uploaded: u64,
    downloaded: u64,
    left: u64,
) -> (url: String)
    ensures
        url@ == announce_text(
            torrent.announce@,
            torrent.info_hash@,
            peer_id@,
            port,
            uploaded,
            downloaded,
            left,
        ),
{
    let mut url = torrent.announce.clone();
    url.append("?info_hash=");
    let hash = percent_encode(torrent.info_hash.as_slice());
    url.append(hash.as_str());
    url.append("&peer_id=");
    let id = percent_encode(peer_id.as_slice());
    url.append(id.as_str());
    url.append("&port=");
    append_decimal(&mut url, port as u64);
    url.append("&uploaded=");
    append_decimal(&mut url, uploaded);
    url.append("&downloaded=");
    append_decimal(&mut url, downloaded);
    url.append("&left=");
    append_decimal(&mut url, left);
    url.append("&event=started&compact=1");
    url
}

} // verus!
