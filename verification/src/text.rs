use crate::digest::bytes_equal;
use vstd::prelude::*;
use vstd::string::StringExecFns;
use vstd::string::StringSliceAdditionalSpecFns;
use vstd::utf8::{decode_utf8, valid_utf8};

verus! {

/// Calls `core::str::from_utf8`. Trusted: the text is returned exactly where
/// the bytes are valid UTF-8, and its bytes are then the bytes given.
#[verifier::external_body]
pub(crate) fn str_from_utf8(bytes: &[u8]) -> (r: Option<&str>)
    ensures
        match r {
            Some(text) => valid_utf8(bytes@) && text.spec_bytes() == bytes@,
            None => !valid_utf8(bytes@),
        },
{
    core::str::from_utf8(bytes).ok()
}

/// The text that bytes spell, where they are valid UTF-8.
pub open spec fn text_of(bytes: Seq<u8>) -> Option<Seq<char>> {
    if valid_utf8(bytes) {
        Some(decode_utf8(bytes))
    } else {
        None
    }
}

/// The text that `bytes` spell, as an owned string.
pub fn bytes_to_string(bytes: &[u8]) -> (r: Option<String>)
    ensures
        match r {
            Some(text) => text_of(bytes@) == Some(text@),
            None => text_of(bytes@) is None,
        },
{
    match str_from_utf8(bytes) {
        None => None,
        Some(text) => {
            proof {
                vstd::utf8::encode_utf8_decode_utf8(text@);
            }
            Some(text.to_owned())
        },
    }
}

/// The views of a list of strings.
pub open spec fn string_views(list: Seq<String>) -> Seq<Seq<char>> {
    Seq::new(list.len(), |i: int| list[i]@)
}

/// The views of a list of lists of strings.
pub open spec fn nested_string_views(list: Seq<Vec<String>>) -> Seq<Seq<Seq<char>>> {
    Seq::new(list.len(), |i: int| string_views(list[i]@))
}

/// Whether each byte string of a list is valid UTF-8.
pub open spec fn all_texts(list: Seq<Seq<u8>>) -> bool {
    forall|i: int| 0 <= i < list.len() ==> valid_utf8(#[trigger] list[i])
}

/// The texts that the byte strings of a list spell.
pub open spec fn texts_of(list: Seq<Seq<u8>>) -> Seq<Seq<char>> {
    Seq::new(list.len(), |i: int| decode_utf8(list[i]))
}

/// Whether each byte string of each list is valid UTF-8.
pub open spec fn all_nested_texts(list: Seq<Seq<Seq<u8>>>) -> bool {
    forall|i: int| 0 <= i < list.len() ==> all_texts(#[trigger] list[i])
}

/// The texts that the byte strings of the lists spell.
pub open spec fn nested_texts_of(list: Seq<Seq<Seq<u8>>>) -> Seq<Seq<Seq<char>>> {
    Seq::new(list.len(), |i: int| texts_of(list[i]))
}

/// The texts of a list of byte strings, if each of them is valid UTF-8.
pub fn strings_from_bytes(list: &Vec<Vec<u8>>) -> (r: Option<Vec<String>>)
    ensures
        match r {
            Some(texts) => all_texts(crate::bencode::bytes_views(list@)) && string_views(texts@)
                == texts_of(crate::bencode::bytes_views(list@)),
            None => !all_texts(crate::bencode::bytes_views(list@)),
        },
{
    let ghost views = crate::bencode::bytes_views(list@);
    let mut texts: Vec<String> = Vec::new();
    let mut i: usize = 0;
    while i < list.len()
        invariant
            i <= list@.len(),
            texts@.len() == i,
            views == crate::bencode::bytes_views(list@),
            forall|j: int| 0 <= j < i ==> valid_utf8(#[trigger] views[j]),
            forall|j: int| 0 <= j < i ==> (#[trigger] texts@[j])@ == decode_utf8(views[j]),
        decreases list@.len() - i,
    {
        match bytes_to_string(list[i].as_slice()) {
            Some(text) => {
                texts.push(text);
            },
            None => {
                assert(!valid_utf8(views[i as int]));
                return None;
            },
        }
        i = i + 1;
    }
    assert(string_views(texts@) =~= texts_of(views));
    Some(texts)
}

/// The texts of a list of lists of byte strings, if each of them is valid
/// UTF-8.
pub fn nested_strings_from_bytes(list: &Vec<Vec<Vec<u8>>>) -> (r: Option<Vec<Vec<String>>>)
    ensures
        match r {
            Some(texts) => all_nested_texts(crate::bencode::nested_views(list@))
                && nested_string_views(texts@) == nested_texts_of(
                crate::bencode::nested_views(list@),
            ),
            None => !all_nested_texts(crate::bencode::nested_views(list@)),
        },
{
    let ghost views = crate::bencode::nested_views(list@);
    let mut texts: Vec<Vec<String>> = Vec::new();
    let mut i: usize = 0;
    while i < list.len()
        invariant
            i <= list@.len(),
            texts@.len() == i,
            views == crate::bencode::nested_views(list@),
            forall|j: int| 0 <= j < i ==> all_texts(#[trigger] views[j]),
            forall|j: int| 0 <= j < i ==> string_views((#[trigger] texts@[j])@) == texts_of(views[j]),
        decreases list@.len() - i,
    {
        match strings_from_bytes(&list[i]) {
            Some(inner) => {
                texts.push(inner);
            },
            None => {
                assert(!all_texts(views[i as int]));
                return None;
            },
        }
        i = i + 1;
    }
    assert(nested_string_views(texts@) =~= nested_texts_of(views));
    Some(texts)
}

/// Whether two texts are the same.
pub fn text_equals(a: &str, b: &str) -> (r: bool)
    ensures
        r == (a@ == b@),
{
    proof {
        vstd::utf8::encode_utf8_decode_utf8(a@);
        vstd::utf8::encode_utf8_decode_utf8(b@);
    }
    bytes_equal(a.as_bytes(), b.as_bytes())
}

/// The character of a decimal digit.
pub open spec fn digit_char(d: int) -> char {
    if d == 0 {
        '0'
    } else if d == 1 {
        '1'
    } else if d == 2 {
        '2'
    } else if d == 3 {
        '3'
    } else if d == 4 {
        '4'
    } else if d == 5 {
        '5'
    } else if d == 6 {
        '6'
    } else if d == 7 {
        '7'
    } else if d == 8 {
        '8'
    } else {
        '9'
    }
}

/// A number written in decimal, without leading zeros.
pub open spec fn decimal_text(n: nat) -> Seq<char>
    decreases n,
{
    if n < 10 {
        seq![digit_char(n as int)]
    } else {
        decimal_text(n / 10).push(digit_char((n % 10) as int))
    }
}

fn digit_text(d: u64) -> (text: &'static str)
    requires
        d < 10,
    ensures
        text@ == seq![digit_char(d as int)],
{
    proof {
        reveal_strlit("0");
        reveal_strlit("1");
        reveal_strlit("2");
        reveal_strlit("3");
        reveal_strlit("4");
        reveal_strlit("5");
        reveal_strlit("6");
        reveal_strlit("7");
        reveal_strlit("8");
        reveal_strlit("9");
    }
    let text = if d == 0 {
        "0"
    } else if d == 1 {
        "1"
    } else if d == 2 {
        "2"
    } else if d == 3 {
        "3"
    } else if d == 4 {
        "4"
    } else if d == 5 {
        "5"
    } else if d == 6 {
        "6"
    } else if d == 7 {
        "7"
    } else if d == 8 {
        "8"
    } else {
        "9"
    };
    assert(text@ =~= seq![digit_char(d as int)]);
    text
}

/// Appends `n`, written in decimal, to `out`.
pub fn append_decimal(out: &mut String, n: u64)
    ensures
        final(out)@ == old(out)@ + decimal_text(n as nat),
    decreases n,
{
    if n >= 10 {
        append_decimal(out, n / 10);
    }
    out.append(digit_text(n % 10));
    assert(out@ =~= old(out)@ + decimal_text(n as nat));
}

} // verus!
