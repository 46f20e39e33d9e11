use crate::bencode::decode::BencodeType;
use crate::text::{str_from_utf8, text_equals, text_of};
use vstd::prelude::*;

verus! {

/// A bencoded value as plain mathematical values.
pub enum BencodeValue {
    Integer(int),
    Bytes(Seq<u8>),
    List(Seq<BencodeValue>),
    Dictionary(Seq<(Seq<u8>, BencodeValue)>),
}

/// A decoded bencode value.
#[derive(Debug)]
pub enum Bencode {
    Integer(i64),
    Bytes(Vec<u8>),
    List(Vec<Bencode>),
    Dictionary(Vec<(Vec<u8>, Bencode)>),
}

/// The views of the items of a list, in order.
pub open spec fn items_view(items: Seq<Bencode>) -> Seq<BencodeValue>
    decreases items,
{
    Seq::new(
        items.len(),
        |i: int|
            if 0 <= i < items.len() {
                items[i].view()
            } else {
                BencodeValue::Integer(0)
            },
    )
}

/// The views of the entries of a dictionary, in order.
pub open spec fn entries_view(entries: Seq<(Vec<u8>, Bencode)>) -> Seq<(Seq<u8>, BencodeValue)>
    decreases entries,
{
    Seq::new(
        entries.len(),
        |i: int|
            if 0 <= i < entries.len() {
                (entries[i].0@, entries[i].1.view())
            } else {
                (Seq::empty(), BencodeValue::Integer(0))
            },
    )
}

impl View for Bencode {
    type V = BencodeValue;

    open spec fn view(&self) -> BencodeValue
        decreases self,
    {
        match self {
            Bencode::Integer(n) => BencodeValue::Integer(*n as int),
            Bencode::Bytes(bytes) => BencodeValue::Bytes(bytes@),
            Bencode::List(items) => BencodeValue::List(items_view(items@)),
            Bencode::Dictionary(entries) => BencodeValue::Dictionary(entries_view(entries@)),
        }
    }
}

impl BencodeValue {
    /// The shape of the value.
    pub open spec fn shape(self) -> BencodeType {
        match self {
            BencodeValue::Integer(_) => BencodeType::Integer,
            BencodeValue::Bytes(_) => BencodeType::String,
            BencodeValue::List(_) => BencodeType::List,
            BencodeValue::Dictionary(_) => BencodeType::Dictionary,
        }
    }
}

impl Bencode {
    /// The shape of the value.
    pub fn shape(&self) -> (r: BencodeType)
        ensures
            r == self@.shape(),
    {
        match self {
            Bencode::Integer(_) => BencodeType::Integer,
            Bencode::Bytes(_) => BencodeType::String,
            Bencode::List(_) => BencodeType::List,
            Bencode::Dictionary(_) => BencodeType::Dictionary,
        }
    }
}

/// Whether a dictionary has an entry whose key spells `name` and whose value
/// has the shape `shape`.
pub open spec fn has_field(
    entries: Seq<(Seq<u8>, BencodeValue)>,
    name: Seq<char>,
    shape: BencodeType,
) -> bool {
    exists|i: int|
        0 <= i < entries.len() && text_of((#[trigger] entries[i]).0) == Some(name)
            && entries[i].1.shape() == shape
}

/// Whether a dictionary has an entry whose key spells `name`.
pub open spec fn has_key(entries: Seq<(Seq<u8>, BencodeValue)>, name: Seq<char>) -> bool {
    exists|i: int| 0 <= i < entries.len() && text_of((#[trigger] entries[i]).0) == Some(name)
}

/// Whether the key of an entry spells `name`.
pub fn key_is(key: &Vec<u8>, name: &str) -> (r: bool)
    ensures
        r == (text_of(key@) == Some(name@)),
{
    match str_from_utf8(key.as_slice()) {
        None => false,
        Some(text) => {
            proof {
                vstd::utf8::encode_utf8_decode_utf8(text@);
            }
            text_equals(text, name)
        },
    }
}

/// Looks for an entry with the key `name` and a value of the shape `shape`.
pub fn find_field(entries: &Vec<(Vec<u8>, Bencode)>, name: &str, shape: BencodeType) -> (r: bool)
    ensures
        r == has_field(entries_view(entries@), name@, shape),
{
    let mut i: usize = 0;
    while i < entries.len()
        invariant
            i <= entries@.len(),
            forall|j: int|
                0 <= j < i ==> !(text_of((#[trigger] entries_view(entries@)[j]).0) == Some(name@)
                    && entries_view(entries@)[j].1.shape() == shape),
        decreases entries@.len() - i,
    {
        if key_is(&entries[i].0, name) && entries[i].1.shape() == shape {
            assert(text_of(entries_view(entries@)[i as int].0) == Some(name@));
            return true;
        }
        i = i + 1;
    }
    false
}

/// Looks for an entry with the key `name`.
pub fn find_key(entries: &Vec<(Vec<u8>, Bencode)>, name: &str) -> (r: bool)
    ensures
        r == has_key(entries_view(entries@), name@),
{
    let mut i: usize = 0;
    while i < entries.len()
        invariant
            i <= entries@.len(),
            forall|j: int|
                0 <= j < i ==> text_of((#[trigger] entries_view(entries@)[j]).0) != Some(name@),
        decreases entries@.len() - i,
    {
        if key_is(&entries[i].0, name) {
            assert(text_of(entries_view(entries@)[i as int].0) == Some(name@));
            return true;
        }
        i = i + 1;
    }
    false
}

} // verus!
