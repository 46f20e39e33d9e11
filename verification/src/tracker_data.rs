use crate::bencode::decode::{decode, decoded, BencodeError, BencodeType};
use crate::bencode::value::{find_field, find_key, has_field, has_key, Bencode, BencodeValue};
use crate::bencode::{decode_dictionary, feed_dictionary, BencodeKey, BencodeParsable, Delivery};
use crate::text::{append_decimal, decimal_text, string_views, text_equals};
use crate::torrent_file::meta_info::{as_size, kept, refused, size_of_integer};
use vstd::prelude::*;
use vstd::string::StringExecFns;

verus! {

/// The keys of a tracker's answer that the client knows.
#[derive(Debug, PartialEq, Eq, Clone, Copy, Structural)]
pub enum TrackerDataKeys {
    Interval,
    Peers,
    UnsupportedKey,
}

/// A tracker's answer: how long to wait before the next announce, and the
/// peers, both in the compact form it came in and as `a.b.c.d:port`.
#[derive(Debug)]
pub struct TrackerData {
    pub interval: usize,
    pub peers: Vec<u8>,
    pub peers_str: Vec<String>,
}

/// A tracker's answer as plain mathematical values.
pub struct TrackerDataView {
    pub interval: int,
    pub peers: Seq<u8>,
    pub peers_str: Seq<Seq<char>>,
}

/// Why an announce fails.
#[derive(Debug, Clone, Copy, PartialEq, Eq, Structural)]
pub enum TrackerError {
    /// The tracker could not be reached.
    TrackerUnreachable,
    /// The answer is no bencoded dictionary with an interval and a compact
    /// list of peers.
    TrackerMalformed,
    /// The tracker answered with a failure reason.
    TrackerRejected,
}

impl View for TrackerData {
    type V = TrackerDataView;

    open spec fn view(&self) -> TrackerDataView {
        TrackerDataView {
            interval: self.interval as int,
            peers: self.peers@,
            peers_str: string_views(self.peers_str@),
        }
    }
}

/// The endpoint that six bytes of a compact peer list stand for: the four
/// bytes of an IPv4 address, then the port, high byte first.
pub open spec fn endpoint_text(peer: Seq<u8>) -> Seq<char> {
    decimal_text(peer[0] as nat) + seq!['.'] + decimal_text(peer[1] as nat) + seq!['.']
        + decimal_text(peer[2] as nat) + seq!['.'] + decimal_text(peer[3] as nat) + seq![':']
        + decimal_text((peer[4] as nat) * 256 + peer[5] as nat)
}

/// The endpoints of a compact peer list, six bytes each; bytes left over at
/// the end stand for no peer.
pub open spec fn endpoints(peers: Seq<u8>) -> Seq<Seq<char>> {
    Seq::new((peers.len() / 6) as nat, |i: int| endpoint_text(peers.subrange(6 * i, 6 * i + 6)))
}

impl Default for TrackerData {
    fn default() -> (data: TrackerData)
        ensures
            data@ == (TrackerDataView {
                interval: 0,
                peers: Seq::empty(),
                peers_str: Seq::empty(),
            }),
    {
        let data = TrackerData { interval: 0, peers: Vec::new(), peers_str: Vec::new() };
        assert(data.peers@ =~= Seq::<u8>::empty());
        assert(string_views(data.peers_str@) =~= Seq::<Seq<char>>::empty());
        data
    }
}

impl BencodeKey for TrackerDataKeys {
    open spec fn of_text(text: Seq<char>) -> Self {
        if text == "interval"@ {
            TrackerDataKeys::Interval
        } else if text == "peers"@ {
            TrackerDataKeys::Peers
        } else {
            TrackerDataKeys::UnsupportedKey
        }
    }

    open spec fn text(&self) -> Seq<char> {
        match self {
            TrackerDataKeys::Interval => "interval"@,
            TrackerDataKeys::Peers => "peers"@,
            TrackerDataKeys::UnsupportedKey => "unsupported-key"@,
        }
    }

    open spec fn unsupported(&self) -> bool {
        self is UnsupportedKey
    }

    fn is_unsupported_key(&self) -> (r: bool) {
        matches!(self, TrackerDataKeys::UnsupportedKey)
    }

    fn is_integer_field(&self) -> (r: bool)
        ensures
            r == (self is Interval),
    {
        matches!(self, TrackerDataKeys::Interval)
    }

    fn is_binary_field(&self) -> (r: bool)
        ensures
            r == (self is Peers),
    {
        matches!(self, TrackerDataKeys::Peers)
    }

    fn as_str(&self) -> (s: &'static str) {
        match self {
            TrackerDataKeys::Interval => "interval",
            TrackerDataKeys::Peers => "peers",
            TrackerDataKeys::UnsupportedKey => "unsupported-key",
        }
    }

    fn from_str(s: &str) -> (key: Self) {
        if text_equals(s, "interval") {
            TrackerDataKeys::Interval
        } else if text_equals(s, "peers") {
            TrackerDataKeys::Peers
        } else {
            TrackerDataKeys::UnsupportedKey
        }
    }
}

/// Every key that the client knows is the key that its own text names.
pub proof fn lemma_tracker_key_text(key: TrackerDataKeys)
    requires
        !key.unsupported(),
    ensures
        TrackerDataKeys::of_text(key.text()) == key,
{
    reveal_strlit("interval");
    reveal_strlit("peers");
    assert("interval"@.len() == 8);
    assert("peers"@.len() == 5);
}

impl BencodeParsable for TrackerData {
    type Key = TrackerDataKeys;

    /// The compact peer list is kept, and its endpoints are written out.
    open spec fn bytes_effect(view: TrackerDataView, key: TrackerDataKeys, value: Seq<u8>) -> Delivery<
        TrackerDataView,
    > {
        match key {
            TrackerDataKeys::Peers => kept(
                TrackerDataView { peers: value, peers_str: endpoints(value), ..view },
            ),
            _ => kept(view),
        }
    }

    /// The interval has to be a size.
    open spec fn integer_effect(view: TrackerDataView, key: TrackerDataKeys, value: int) -> Delivery<
        TrackerDataView,
    > {
        match key {
            TrackerDataKeys::Interval => match as_size(value) {
                Some(interval) => kept(TrackerDataView { interval, ..view }),
                None => refused(view),
            },
            _ => kept(view),
        }
    }

    open spec fn list_effect(view: TrackerDataView, key: TrackerDataKeys, value: Seq<Seq<u8>>) -> Delivery<
        TrackerDataView,
    > {
        kept(view)
    }

    open spec fn nested_list_effect(
        view: TrackerDataView,
        key: TrackerDataKeys,
        value: Seq<Seq<Seq<u8>>>,
    ) -> Delivery<TrackerDataView> {
        kept(view)
    }

    open spec fn dictionary_effect(
        view: TrackerDataView,
        key: TrackerDataKeys,
        data: Seq<u8>,
        start: int,
        end: int,
    ) -> Delivery<TrackerDataView> {
        kept(view)
    }

    fn key_from_str(s: &str) -> (key: TrackerDataKeys) {
        TrackerDataKeys::from_str(s)
    }

    fn on_integer(&mut self, key: TrackerDataKeys, value: i64) -> (r: Result<(), BencodeError>) {
        match key {
            TrackerDataKeys::Interval => match size_of_integer(value) {
                Some(interval) => {
                    self.interval = interval;
                    Ok(())
                },
                None => Err(BencodeError::InvalidField),
            },
            _ => Ok(()),
        }
    }

    fn on_string_or_bytes(&mut self, key: TrackerDataKeys, value: Vec<u8>) -> (r: Result<
        (),
        BencodeError,
    >) {
        match key {
            TrackerDataKeys::Peers => {
                self.peers = value;
                self.on_peers_updated();
                Ok(())
            },
            _ => Ok(()),
        }
    }

    fn on_list_string(&mut self, key: TrackerDataKeys, value: Vec<Vec<u8>>) -> (r: Result<
        (),
        BencodeError,
    >) {
        Ok(())
    }

    fn on_nested_list_string(&mut self, key: TrackerDataKeys, value: Vec<Vec<Vec<u8>>>) -> (r:
        Result<(), BencodeError>) {
        Ok(())
    }

    fn on_dictionary(&mut self, key: TrackerDataKeys, data: &[u8], start: usize, end: usize) -> (r:
        Result<(), BencodeError>) {
        Ok(())
    }
}

/// Writes the endpoint of the peer at `peers[at..at + 6]` as `a.b.c.d:port`.
pub fn endpoint_string(peers: &[u8], at: usize) -> (text: String)
    requires
        at + 6 <= peers@.len(),
    ensures
        text@ == endpoint_text(peers@.subrange(at as int, at + 6)),
{
    proof {
        reveal_strlit(".");
        reveal_strlit(":");
    }
    let ghost peer = peers@.subrange(at as int, at + 6);
    let mut text = String::new();
    append_decimal(&mut text, peers[at] as u64);
    text.append(".");
    append_decimal(&mut text, peers[at + 1] as u64);
    text.append(".");
    append_decimal(&mut text, peers[at + 2] as u64);
    text.append(".");
    append_decimal(&mut text, peers[at + 3] as u64);
    text.append(":");
    let port: u64 = (peers[at + 4] as u64) * 256 + peers[at + 5] as u64;
    append_decimal(&mut text, port);
    assert("."@ =~= seq!['.']);
    assert(":"@ =~= seq![':']);
    assert(text@ =~= endpoint_text(peer));
    text
}

impl TrackerData {
    /// Writes out the endpoints of the compact peer list anew.
    pub fn on_peers_updated(&mut self)
        ensures
            final(self).interval == old(self).interval,
            final(self).peers == old(self).peers,
            string_views(final(self).peers_str@) == endpoints(old(self).peers@),
    {
        let mut texts: Vec<String> = Vec::new();
        let total: usize = self.peers.len();
        let count: usize = total / 6;
        let mut i: usize = 0;
        while i < count
            invariant
                i <= count,
                total == self.peers@.len(),
                count == total / 6,
                texts@.len() == i,
                forall|j: int|
                    0 <= j < i ==> (#[trigger] texts@[j])@ == endpoint_text(
                        self.peers@.subrange(6 * j, 6 * j + 6),
                    ),
            decreases count - i,
        {
            texts.push(endpoint_string(self.peers.as_slice(), 6 * i));
            i = i + 1;
        }
        assert(string_views(texts@) =~= endpoints(self.peers@));
        self.peers_str = texts;
    }
}

/// What the body of a tracker's answer loads to. A failure reason comes
/// before everything else.
pub open spec fn loaded_tracker_data(data: Seq<u8>) -> Result<TrackerDataView, TrackerError> {
    match decoded(data) {
        Err(_) => Err(TrackerError::TrackerMalformed),
        Ok(value) => match value {
            BencodeValue::Dictionary(entries) => if has_key(entries, "failure reason"@) {
                Err(TrackerError::TrackerRejected)
            } else if !has_field(entries, "interval"@, BencodeType::Integer) || !has_field(
                entries,
                "peers"@,
                BencodeType::String,
            ) {
                Err(TrackerError::TrackerMalformed)
            } else {
                let fed = feed_dictionary::<TrackerData>(
                    TrackerDataView { interval: 0, peers: Seq::empty(), peers_str: Seq::empty() },
                    data,
                    0,
                );
                if fed.1 is Err || fed.0.peers.len() % 6 != 0 {
                    Err(TrackerError::TrackerMalformed)
                } else {
                    Ok(fed.0)
                }
            },
            _ => Err(TrackerError::TrackerMalformed),
        },
    }
}

/// Loads a tracker's answer from the body of its reply.
pub fn get_tracker_data(data: &[u8]) -> (r: Result<TrackerData, TrackerError>)
    ensures
        match r {
            Ok(answer) => loaded_tracker_data(data@) == Ok::<TrackerDataView, TrackerError>(
                answer@,
            ),
            Err(e) => loaded_tracker_data(data@) == Err::<TrackerDataView, TrackerError>(e),
        },
{
    let tree = match decode(data) {
        Err(_) => {
            return Err(TrackerError::TrackerMalformed);
        },
        Ok(tree) => tree,
    };
    match &tree {
        Bencode::Dictionary(entries) => {
            if find_key(entries, "failure reason") {
                return Err(TrackerError::TrackerRejected);
            }
            if !find_field(entries, "interval", BencodeType::Integer) || !find_field(
                entries,
                "peers",
                BencodeType::String,
            ) {
                return Err(TrackerError::TrackerMalformed);
            }
        },
        _ => {
            return Err(TrackerError::TrackerMalformed);
        },
    }
    let mut answer = TrackerData::default();
    match decode_dictionary(&mut answer, data, 0) {
        Err(_) => {
            return Err(TrackerError::TrackerMalformed);
        },
        Ok(_) => {},
    }
    if answer.peers.len() % 6 != 0 {
        return Err(TrackerError::TrackerMalformed);
    }
    Ok(answer)
}

} // verus!
