pub mod decode;
pub mod encode;
pub mod fault;
pub mod grammar;
pub mod value;

use crate::bencode::decode::{decode_string, decode_value, BencodeError};
use crate::bencode::grammar::{lemma_parse_advances, parse_bytes, parse_value};
use crate::bencode::value::{items_view, Bencode, BencodeValue};
use crate::digest::copy_range;
use crate::text::{str_from_utf8, text_of};
use vstd::prelude::*;

pub use crate::bencode::decode::BencodeType;

verus! {

/// A key of a dictionary that a receiver knows, or the one key that stands
/// for all the others.
pub trait BencodeKey: Sized {
    /// The key that a text names.
    spec fn of_text(text: Seq<char>) -> Self;

    /// The text that names the key.
    spec fn text(&self) -> Seq<char>;

    /// Whether the key stands for the keys that the receiver does not know.
    spec fn unsupported(&self) -> bool;

    /// Whether the value of the key is raw bytes.
    fn is_binary_field(&self) -> (r: bool)
        default_ensures
            !r,
    {
        false
    }

    /// Whether the value of the key is text.
    fn is_string_field(&self) -> (r: bool)
        default_ensures
            !r,
    {
        false
    }

    /// Whether the value of the key is an integer.
    fn is_integer_field(&self) -> (r: bool)
        default_ensures
            !r,
    {
        false
    }

    /// Whether the value of the key is a dictionary.
    fn is_dictionary_field(&self) -> (r: bool)
        default_ensures
            !r,
    {
        false
    }

    /// Whether the value of the key is a list.
    fn is_list_field(&self) -> (r: bool)
        default_ensures
            !r,
    {
        false
    }

    /// Whether the value of the key is a list of texts.
    fn is_list_of_strings(&self) -> (r: bool)
        default_ensures
            !r,
    {
        false
    }

    /// Whether the value of the key is a list of lists of texts.
    fn is_nested_list_string(&self) -> (r: bool)
        default_ensures
            !r,
    {
        false
    }

    /// Whether the value of the key is a list of raw byte strings.
    fn is_list_of_bytes(&self) -> (r: bool)
        default_ensures
            !r,
    {
        false
    }

    /// The key that `s` names; the unsupported key for any other text.
    fn from_str(s: &str) -> (key: Self)
        ensures
            key == Self::of_text(s@),
    ;

    /// The text that names the key.
    fn as_str(&self) -> (s: &'static str)
        ensures
            s@ == self.text(),
    ;

    /// Whether the key stands for the keys that the receiver does not know.
    fn is_unsupported_key(&self) -> (r: bool)
        ensures
            r == self.unsupported(),
    ;
}

/// What a callback of a receiver leaves behind: the receiver's new view, and
/// the error with which it refuses the value, if it does.
pub struct Delivery<V> {
    pub view: V,
    pub error: Option<BencodeError>,
}

/// A receiver of the entries of a dictionary: one callback for each shape of
/// value. What each callback does is stated over the receiver's view.
pub trait BencodeParsable: Sized + View {
    /// The keys that the receiver knows.
    type Key: BencodeKey;

    /// What a byte string under `key` does to the receiver.
    spec fn bytes_effect(view: Self::V, key: Self::Key, value: Seq<u8>) -> Delivery<Self::V>;

    /// What an integer under `key` does to the receiver.
    spec fn integer_effect(view: Self::V, key: Self::Key, value: int) -> Delivery<Self::V>;

    /// What a list of byte strings under `key` does to the receiver.
    spec fn list_effect(view: Self::V, key: Self::Key, value: Seq<Seq<u8>>) -> Delivery<Self::V>;

    /// What a list of lists of byte strings under `key` does to the receiver.
    spec fn nested_list_effect(view: Self::V, key: Self::Key, value: Seq<Seq<Seq<u8>>>) -> Delivery<
        Self::V,
    >;

    /// What a dictionary under `key` does to the receiver; the dictionary
    /// lies in `data[start..end]`.
    spec fn dictionary_effect(
        view: Self::V,
        key: Self::Key,
        data: Seq<u8>,
        start: int,
        end: int,
    ) -> Delivery<Self::V>;

    /// The key that `s` names.
    fn key_from_str(s: &str) -> (key: Self::Key)
        ensures
            key == Self::Key::of_text(s@),
    ;

    /// Takes the byte string under `key`.
    fn on_string_or_bytes(&mut self, key: Self::Key, value: Vec<u8>) -> (r: Result<
        (),
        BencodeError,
    >)
        ensures
            delivered(final(self)@, r) == Self::bytes_effect(old(self)@, key, value@),
    ;

    /// Takes the integer under `key`.
    fn on_integer(&mut self, key: Self::Key, value: i64) -> (r: Result<(), BencodeError>)
        ensures
            delivered(final(self)@, r) == Self::integer_effect(old(self)@, key, value as int),
    ;

    /// Takes the list of byte strings under `key`.
    fn on_list_string(&mut self, key: Self::Key, value: Vec<Vec<u8>>) -> (r: Result<
        (),
        BencodeError,
    >)
        ensures
            delivered(final(self)@, r) == Self::list_effect(old(self)@, key, bytes_views(value@)),
    ;

    /// Takes the list of lists of byte strings under `key`.
    fn on_nested_list_string(&mut self, key: Self::Key, value: Vec<Vec<Vec<u8>>>) -> (r: Result<
        (),
        BencodeError,
    >)
        ensures
            delivered(final(self)@, r) == Self::nested_list_effect(
                old(self)@,
                key,
                nested_views(value@),
            ),
    ;

    /// Takes the dictionary under `key`, which lies in `data[start..end]`
    /// with its `d` and its closing `e`.
    fn on_dictionary(&mut self, key: Self::Key, data: &[u8], start: usize, end: usize) -> (r:
        Result<(), BencodeError>)
        requires
            start < end <= data@.len(),
            parse_value(data@, start as int) matches Some((value, stop)) && value is Dictionary
                && stop == end,
        ensures
            delivered(final(self)@, r) == Self::dictionary_effect(
                old(self)@,
                key,
                data@,
                start as int,
                end as int,
            ),
    ;
}

/// The delivery that a callback reports.
pub open spec fn delivered<V>(view: V, r: Result<(), BencodeError>) -> Delivery<V> {
    Delivery {
        view,
        error: match r {
            Ok(_) => None,
            Err(e) => Some(e),
        },
    }
}

/// The views of a list of byte strings.
pub open spec fn bytes_views(list: Seq<Vec<u8>>) -> Seq<Seq<u8>> {
    Seq::new(list.len(), |i: int| list[i]@)
}

/// The views of a list of lists of byte strings.
pub open spec fn nested_views(list: Seq<Vec<Vec<u8>>>) -> Seq<Seq<Seq<u8>>> {
    Seq::new(list.len(), |i: int| bytes_views(list[i]@))
}

/// Whether every item is a byte string.
pub open spec fn all_strings(items: Seq<BencodeValue>) -> bool {
    forall|i: int| 0 <= i < items.len() ==> (#[trigger] items[i]) is Bytes
}

/// The byte strings of a list of byte strings.
pub open spec fn strings_of(items: Seq<BencodeValue>) -> Seq<Seq<u8>> {
    Seq::new(items.len(), |i: int| items[i]->Bytes_0)
}

/// Whether every item is a list of byte strings.
pub open spec fn all_string_lists(items: Seq<BencodeValue>) -> bool {
    forall|i: int|
        0 <= i < items.len() ==> (#[trigger] items[i]) is List && all_strings(items[i]->List_0)
}

/// The lists of byte strings of a list of such lists.
pub open spec fn string_lists_of(items: Seq<BencodeValue>) -> Seq<Seq<Seq<u8>>> {
    Seq::new(items.len(), |i: int| strings_of(items[i]->List_0))
}

/// What the receiver makes of one entry. The value of a key that it does not
/// know is dropped. Any other value goes to the callback for its shape; a
/// list that is neither a list of byte strings nor a list of lists of byte
/// strings is dropped too.
pub open spec fn deliver<T: BencodeParsable>(
    view: T::V,
    key: T::Key,
    value: BencodeValue,
    data: Seq<u8>,
    start: int,
    end: int,
) -> Delivery<T::V> {
    if key.unsupported() {
        Delivery { view, error: None }
    } else {
        match value {
            BencodeValue::Integer(n) => T::integer_effect(view, key, n),
            BencodeValue::Bytes(bytes) => T::bytes_effect(view, key, bytes),
            BencodeValue::Dictionary(_) => T::dictionary_effect(view, key, data, start, end),
            BencodeValue::List(items) => if all_strings(items) {
                T::list_effect(view, key, strings_of(items))
            } else if all_string_lists(items) {
                T::nested_list_effect(view, key, string_lists_of(items))
            } else {
                Delivery { view, error: None }
            },
        }
    }
}

/// What the receiver makes of the entries from `pos` up to the `e` that
/// closes the dictionary: each entry is delivered in turn, the first error
/// ends the walk, and a key that is no text is dropped with its value. The
/// result is the position after the closing `e`.
pub open spec fn feed_entries<T: BencodeParsable>(view: T::V, data: Seq<u8>, pos: int) -> (
    T::V,
    Result<int, BencodeError>,
)
    decreases data.len() - pos,
{
    if pos < 0 || pos >= data.len() {
        (view, Err(BencodeError::Malformed))
    } else if data[pos] == 101u8 {
        (view, Ok(pos + 1))
    } else {
        match parse_bytes(data, pos) {
            None => (view, Err(BencodeError::Malformed)),
            Some((key, at)) => match parse_value(data, at) {
                None => (view, Err(BencodeError::Malformed)),
                Some((value, next)) => if next <= pos || next > data.len() {
                    (view, Err(BencodeError::Malformed))
                } else {
                    let delivery = match text_of(key) {
                        None => Delivery { view, error: None },
                        Some(text) => deliver::<T>(
                            view,
                            T::Key::of_text(text),
                            value,
                            data,
                            at,
                            next,
                        ),
                    };
                    match delivery.error {
                        Some(e) => (delivery.view, Err(e)),
                        None => feed_entries::<T>(delivery.view, data, next),
                    }
                },
            },
        }
    }
}

/// What the receiver makes of the dictionary at `pos`.
pub open spec fn feed_dictionary<T: BencodeParsable>(view: T::V, data: Seq<u8>, pos: int) -> (
    T::V,
    Result<int, BencodeError>,
) {
    if pos < 0 || pos >= data.len() || data[pos] != 100u8 {
        (view, Err(BencodeError::Malformed))
    } else {
        feed_entries::<T>(view, data, pos + 1)
    }
}

/// The byte strings of a list, if every item is one.
pub fn string_list(items: &Vec<Bencode>) -> (r: Option<Vec<Vec<u8>>>)
    ensures
        match r {
            Some(list) => all_strings(items_view(items@)) && bytes_views(list@) == strings_of(
                items_view(items@),
            ),
            None => !all_strings(items_view(items@)),
        },
{
    let mut list: Vec<Vec<u8>> = Vec::new();
    let mut i: usize = 0;
    while i < items.len()
        invariant
            i <= items@.len(),
            list@.len() == i,
            forall|j: int| 0 <= j < i ==> (#[trigger] items_view(items@)[j]) is Bytes,
            forall|j: int| 0 <= j < i ==> (#[trigger] list@[j])@ == items_view(items@)[j]->Bytes_0,
        decreases items@.len() - i,
    {
        match &items[i] {
            Bencode::Bytes(bytes) => {
                list.push(copy_range(bytes.as_slice(), 0, bytes.len()));
                assert(bytes@.subrange(0, bytes@.len() as int) =~= bytes@);
            },
            _ => {
                assert(!(items_view(items@)[i as int] is Bytes));
                return None;
            },
        }
        i = i + 1;
    }
    assert(bytes_views(list@) =~= strings_of(items_view(items@)));
    Some(list)
}

/// The lists of byte strings of a list, if every item is such a list.
pub fn nested_string_list(items: &Vec<Bencode>) -> (r: Option<Vec<Vec<Vec<u8>>>>)
    ensures
        match r {
            Some(list) => all_string_lists(items_view(items@)) && nested_views(list@)
                == string_lists_of(items_view(items@)),
            None => !all_string_lists(items_view(items@)),
        },
{
    let mut list: Vec<Vec<Vec<u8>>> = Vec::new();
    let mut i: usize = 0;
    while i < items.len()
        invariant
            i <= items@.len(),
            list@.len() == i,
            forall|j: int|
                0 <= j < i ==> (#[trigger] items_view(items@)[j]) is List && all_strings(
                    items_view(items@)[j]->List_0,
                ),
            forall|j: int|
                0 <= j < i ==> bytes_views((#[trigger] list@[j])@) == strings_of(
                    items_view(items@)[j]->List_0,
                ),
        decreases items@.len() - i,
    {
        match &items[i] {
            Bencode::List(inner) => {
                match string_list(inner) {
                    Some(strings) => {
                        list.push(strings);
                    },
                    None => {
                        assert(!all_strings(items_view(items@)[i as int]->List_0));
                        return None;
                    },
                }
            },
            _ => {
                assert(!(items_view(items@)[i as int] is List));
                return None;
            },
        }
        i = i + 1;
    }
    assert(nested_views(list@) =~= string_lists_of(items_view(items@)));
    Some(list)
}

/// Hands one decoded entry to the receiver.
pub fn deliver_entry<T: BencodeParsable>(
    sink: &mut T,
    key: T::Key,
    value: Bencode,
    data: &[u8],
    start: usize,
    end: usize,
) -> (r: Result<(), BencodeError>)
    requires
        start < end <= data@.len(),
        parse_value(data@, start as int) == Some((value@, end as int)),
    ensures
        delivered(final(sink)@, r) == deliver::<T>(
            old(sink)@,
            key,
            value@,
            data@,
            start as int,
            end as int,
        ),
{
    if key.is_unsupported_key() {
        return Ok(());
    }
    match value {
        Bencode::Integer(n) => sink.on_integer(key, n),
        Bencode::Bytes(bytes) => sink.on_string_or_bytes(key, bytes),
        Bencode::Dictionary(_) => sink.on_dictionary(key, data, start, end),
        Bencode::List(items) => {
            match string_list(&items) {
                Some(strings) => sink.on_list_string(key, strings),
                None => match nested_string_list(&items) {
                    Some(lists) => sink.on_nested_list_string(key, lists),
                    None => Ok(()),
                },
            }
        },
    }
}

/// The result of a walk, with its position as a mathematical integer.
pub open spec fn walk_result(r: Result<usize, BencodeError>) -> Result<int, BencodeError> {
    match r {
        Ok(end) => Ok(end as int),
        Err(e) => Err(e),
    }
}

/// Decodes the dictionary at `pos` and hands its entries to `sink`, one by
/// one and in order. Gives the position after the dictionary.
pub fn decode_dictionary<T: BencodeParsable>(sink: &mut T, data: &[u8], pos: usize) -> (r: Result<
    usize,
    BencodeError,
>)
    ensures
        (final(sink)@, walk_result(r)) == feed_dictionary::<T>(old(sink)@, data@, pos as int),
{
    if pos >= data.len() || data[pos] != 100 {
        return Err(BencodeError::Malformed);
    }
    let mut cur: usize = pos + 1;
    loop
        invariant
            pos < cur <= data@.len(),
            data@[pos as int] == 100u8,
            feed_entries::<T>(old(sink)@, data@, pos + 1) == feed_entries::<T>(
                sink@,
                data@,
                cur as int,
            ),
        decreases data@.len() - cur,
    {
        if cur >= data.len() {
            return Err(BencodeError::Malformed);
        }
        if data[cur] == 101 {
            return Ok(cur + 1);
        }
        let (key, at) = match decode_string(data, cur) {
            Err(e) => {
                return Err(e);
            },
            Ok(found) => found,
        };
        proof {
            lemma_parse_advances(data@, cur as int);
        }
        let (value, next) = match decode_value(data, at) {
            Err(e) => {
                return Err(e);
            },
            Ok(found) => found,
        };
        proof {
            lemma_parse_advances(data@, at as int);
        }
        match str_from_utf8(key.as_slice()) {
            None => {},
            Some(text) => {
                proof {
                    vstd::utf8::encode_utf8_decode_utf8(text@);
                }
                let known = T::key_from_str(text);
                match deliver_entry(sink, known, value, data, at, next) {
                    Err(e) => {
                        return Err(e);
                    },
                    Ok(_) => {},
                }
            },
        }
        cur = next;
    }
}

} // verus!
