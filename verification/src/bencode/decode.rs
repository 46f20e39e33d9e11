use crate::bencode::grammar::{
    digit_run_end, digits_value, is_digit, lemma_digit_run, lemma_parse_advances, parse_bytes,
    parse_entries, parse_integer, parse_items, parse_value,
};
use crate::bencode::value::{entries_view, items_view, Bencode, BencodeValue};
use crate::digest::copy_range;
use vstd::prelude::*;

verus! {

/// Why decoding fails.
#[derive(Debug, Clone, Copy, PartialEq, Eq, Structural)]
pub enum BencodeError {
    /// The bytes are no bencoded value: something else stands where a length
    /// or a number is expected, a value starts with a byte that starts none,
    /// or the data end inside a value.
    Malformed,
    /// Bytes follow the value that was asked for.
    TrailingData,
    /// The receiver refused the value of one of its keys.
    InvalidField,
}

/// What the next byte announces.
#[derive(Debug, Clone, Copy, PartialEq, Eq, Structural)]
pub enum BencodeType {
    Dictionary,
    Integer,
    List,
    String,
    Terminator,
}

/// What the byte at `pos` announces; `None` at the end of the data.
pub open spec fn next_type(data: Seq<u8>, pos: int) -> Result<Option<BencodeType>, BencodeError> {
    if pos >= data.len() {
        Ok(None)
    } else if is_digit(data[pos]) {
        Ok(Some(BencodeType::String))
    } else if data[pos] == 100u8 {
        Ok(Some(BencodeType::Dictionary))
    } else if data[pos] == 108u8 {
        Ok(Some(BencodeType::List))
    } else if data[pos] == 105u8 {
        Ok(Some(BencodeType::Integer))
    } else if data[pos] == 101u8 {
        Ok(Some(BencodeType::Terminator))
    } else {
        Err(BencodeError::Malformed)
    }
}

/// Looks at the byte at `pos` without consuming it.
pub fn extract_next_type(data: &[u8], pos: usize) -> (r: Result<Option<BencodeType>, BencodeError>)
    ensures
        r == next_type(data@, pos as int),
{
    if pos >= data.len() {
        return Ok(None);
    }
    let b = data[pos];
    if b >= 48 && b <= 57 {
        Ok(Some(BencodeType::String))
    } else if b == 100 {
        Ok(Some(BencodeType::Dictionary))
    } else if b == 108 {
        Ok(Some(BencodeType::List))
    } else if b == 105 {
        Ok(Some(BencodeType::Integer))
    } else if b == 101 {
        Ok(Some(BencodeType::Terminator))
    } else {
        Err(BencodeError::Malformed)
    }
}

/// The digits of a longer run stand for a number that is at least as large.
pub proof fn lemma_digits_grow(data: Seq<u8>, start: int, mid: int, end: int)
    requires
        0 <= start <= mid <= end <= data.len(),
        forall|j: int| start <= j < end ==> is_digit(#[trigger] data[j]),
    ensures
        digits_value(data, start, mid) <= digits_value(data, start, end),
    decreases end - mid,
{
    if mid < end {
        lemma_digits_grow(data, start, mid, end - 1);
    }
}

/// A run of digits that starts at `pos` ends where the run from any place
/// inside it ends.
pub proof fn lemma_run_end_same(data: Seq<u8>, pos: int, mid: int)
    requires
        0 <= pos <= mid <= data.len(),
        forall|j: int| pos <= j < mid ==> is_digit(#[trigger] data[j]),
    ensures
        digit_run_end(data, pos) == digit_run_end(data, mid),
    decreases mid - pos,
{
    if pos < mid {
        lemma_run_end_same(data, pos + 1, mid);
    }
}

/// Reads the digits from `pos` on. Gives the position after the digits and
/// their value; the value is `None` where it is above `limit`.
pub fn read_digits(data: &[u8], pos: usize, limit: u64) -> (r: (usize, Option<u64>))
    requires
        pos <= data@.len(),
    ensures
        r.0 == digit_run_end(data@, pos as int),
        pos <= r.0 <= data@.len(),
        match r.1 {
            Some(value) => value == digits_value(data@, pos as int, r.0 as int) && value <= limit,
            None => digits_value(data@, pos as int, r.0 as int) > limit,
        },
{
    let mut i: usize = pos;
    let mut value: u64 = 0;
    let mut over: bool = false;
    while i < data.len() && data[i] >= 48 && data[i] <= 57
        invariant
            pos <= i <= data@.len(),
            forall|j: int| pos <= j < i ==> is_digit(#[trigger] data@[j]),
            !over ==> value == digits_value(data@, pos as int, i as int) && value <= limit,
            over ==> exists|k: int|
                pos <= k <= i && digits_value(data@, pos as int, k) > limit,
        decreases data@.len() - i,
    {
        let digit: u64 = (data[i] - 48) as u64;
        if !over {
            if limit < digit || value > (limit - digit) / 10 {
                over = true;
                assert(digits_value(data@, pos as int, i + 1) > limit);
            } else {
                value = value * 10 + digit;
            }
        }
        i = i + 1;
    }
    proof {
        lemma_run_end_same(data@, pos as int, i as int);
        if over {
            let k = choose|k: int| pos <= k <= i && digits_value(data@, pos as int, k) > limit;
            lemma_digits_grow(data@, pos as int, k, i as int);
        }
    }
    if over {
        (i, None)
    } else {
        (i, Some(value))
    }
}

/// Whether the bytes are one or more decimal digits that stand for a number
/// that fits in `usize`.
pub open spec fn is_decimal_number(bytes: Seq<u8>) -> bool {
    &&& bytes.len() > 0
    &&& forall|j: int| 0 <= j < bytes.len() ==> is_digit(#[trigger] bytes[j])
    &&& digits_value(bytes, 0, bytes.len() as int) <= usize::MAX
}

/// The number that a run of decimal digits stands for, if the bytes are
/// such a run and the number fits in `usize`.
pub fn parse_string_to_usize(bytes: &[u8]) -> (r: Option<usize>)
    ensures
        match r {
            Some(value) => is_decimal_number(bytes@) && value == digits_value(
                bytes@,
                0,
                bytes@.len() as int,
            ),
            None => !is_decimal_number(bytes@),
        },
{
    let (end, value) = read_digits(bytes, 0, usize::MAX as u64);
    proof {
        lemma_digit_run(bytes@, 0);
    }
    if end == 0 || end < bytes.len() {
        return None;
    }
    match value {
        Some(value) => Some(value as usize),
        None => None,
    }
}

/// Whether the bytes are a decimal number that fits in `usize`.
pub fn is_parseable_stringified_number(str_bytes: Vec<u8>) -> (r: bool)
    ensures
        r == is_decimal_number(str_bytes@),
{
    parse_string_to_usize(str_bytes.as_slice()).is_some()
}

/// Reads the length of the byte string at `pos`. Gives the length and the
/// position of the first byte of the string. A length beyond the size of the
/// data is refused like a length that is no number.
pub fn get_incoming_string_length(data: &[u8], pos: usize) -> (r: Result<
    (usize, usize),
    BencodeError,
>)
    ensures
        match r {
            Ok((length, start)) => {
                &&& parse_bytes(data@, pos as int) is Some
                &&& start == digit_run_end(data@, pos as int) + 1
                &&& length == digits_value(data@, pos as int, start - 1)
                &&& start + length <= data@.len()
            },
            Err(e) => e == BencodeError::Malformed && parse_bytes(data@, pos as int) is None,
        },
{
    if pos >= data.len() {
        return Err(BencodeError::Malformed);
    }
    let (colon, value) = read_digits(data, pos, data.len() as u64);
    if colon == pos || colon >= data.len() || data[colon] != 58 {
        return Err(BencodeError::Malformed);
    }
    match value {
        None => Err(BencodeError::Malformed),
        Some(length) => {
            if length as usize > data.len() - (colon + 1) {
                Err(BencodeError::Malformed)
            } else {
                Ok((length as usize, colon + 1))
            }
        },
    }
}

/// Decodes the byte string at `pos`. Gives its bytes and the position after
/// them.
pub fn decode_string(data: &[u8], pos: usize) -> (r: Result<(Vec<u8>, usize), BencodeError>)
    ensures
        match r {
            Ok((bytes, end)) => parse_bytes(data@, pos as int) == Some((bytes@, end as int)),
            Err(e) => e == BencodeError::Malformed && parse_bytes(data@, pos as int) is None,
        },
{
    match get_incoming_string_length(data, pos) {
        Err(e) => Err(e),
        Ok((length, start)) => {
            let total: usize = data.len();
            let bytes = copy_range(data, start, start + length);
            Ok((bytes, start + length))
        },
    }
}

/// Decodes the integer at `pos`. Gives its value and the position after it.
pub fn decode_integer(data: &[u8], pos: usize) -> (r: Result<(i64, usize), BencodeError>)
    ensures
        match r {
            Ok((value, end)) => parse_integer(data@, pos as int) == Some(
                (value as int, end as int),
            ),
            Err(e) => e == BencodeError::Malformed && parse_integer(data@, pos as int) is None,
        },
{
    if pos >= data.len() || data[pos] != 105 {
        return Err(BencodeError::Malformed);
    }
    let negative = pos + 1 < data.len() && data[pos + 1] == 45;
    let start: usize = if negative {
        pos + 2
    } else {
        pos + 1
    };
    let (end, value) = read_digits(data, start, 9223372036854775808u64);
    if end == start || end >= data.len() || data[end] != 101 {
        return Err(BencodeError::Malformed);
    }
    match value {
        None => Err(BencodeError::Malformed),
        Some(magnitude) => {
            if negative {
                if magnitude == 9223372036854775808u64 {
                    Ok((i64::MIN, end + 1))
                } else {
                    Ok((-(magnitude as i64), end + 1))
                }
            } else if magnitude == 9223372036854775808u64 {
                Err(BencodeError::Malformed)
            } else {
                Ok((magnitude as i64, end + 1))
            }
        },
    }
}

/// The items found so far, followed by what the rest of a list gives.
pub open spec fn with_items(items: Seq<BencodeValue>, rest: Option<(Seq<BencodeValue>, int)>) -> Option<
    (Seq<BencodeValue>, int),
> {
    match rest {
        Some((more, end)) => Some((items + more, end)),
        None => None,
    }
}

/// The entries found so far, followed by what the rest of a dictionary gives.
pub open spec fn with_entries(
    entries: Seq<(Seq<u8>, BencodeValue)>,
    rest: Option<(Seq<(Seq<u8>, BencodeValue)>, int)>,
) -> Option<(Seq<(Seq<u8>, BencodeValue)>, int)> {
    match rest {
        Some((more, end)) => Some((entries + more, end)),
        None => None,
    }
}

/// Decodes the value at `pos`. Gives the value and the position after it.
pub fn decode_value(data: &[u8], pos: usize) -> (r: Result<(Bencode, usize), BencodeError>)
    ensures
        match r {
            Ok((value, end)) => parse_value(data@, pos as int) == Some((value@, end as int)),
            Err(e) => e == BencodeError::Malformed && parse_value(data@, pos as int) is None,
        },
    decreases data@.len() - pos,
{
    if pos >= data.len() {
        return Err(BencodeError::Malformed);
    }
    let b = data[pos];
    if b >= 48 && b <= 57 {
        match decode_string(data, pos) {
            Ok((bytes, end)) => Ok((Bencode::Bytes(bytes), end)),
            Err(e) => Err(e),
        }
    } else if b == 105 {
        match decode_integer(data, pos) {
            Ok((value, end)) => Ok((Bencode::Integer(value), end)),
            Err(e) => Err(e),
        }
    } else if b == 108 {
        let mut items: Vec<Bencode> = Vec::new();
        let mut cur: usize = pos + 1;
        assert(items_view(items@) =~= Seq::empty());
        assert(with_items(items_view(items@), parse_items(data@, cur as int)) =~= parse_items(
            data@,
            cur as int,
        )) by {
            if let Some((more, end)) = parse_items(data@, cur as int) {
                assert(items_view(items@) + more =~= more);
            }
        }
        loop
            invariant
                pos < cur <= data@.len(),
                data@[pos as int] == 108u8,
                parse_items(data@, pos + 1) == with_items(
                    items_view(items@),
                    parse_items(data@, cur as int),
                ),
            decreases data@.len() - cur,
        {
            if cur >= data.len() {
                return Err(BencodeError::Malformed);
            }
            if data[cur] == 101 {
                assert(items_view(items@) + Seq::<BencodeValue>::empty() =~= items_view(items@));
                return Ok((Bencode::List(items), cur + 1));
            }
            match decode_value(data, cur) {
                Err(e) => {
                    return Err(e);
                },
                Ok((value, next)) => {
                    proof {
                        lemma_parse_advances(data@, cur as int);
                        let before = items_view(items@);
                        let after = items_view(items@.push(value));
                        assert(after =~= before + seq![value@]);
                        if let Some((more, end)) = parse_items(data@, next as int) {
                            assert(before + (seq![value@] + more) =~= after + more);
                        }
                    }
                    items.push(value);
                    cur = next;
                },
            }
        }
    } else if b == 100 {
        let mut entries: Vec<(Vec<u8>, Bencode)> = Vec::new();
        let mut cur: usize = pos + 1;
        assert(entries_view(entries@) =~= Seq::empty());
        assert(with_entries(entries_view(entries@), parse_entries(data@, cur as int))
            =~= parse_entries(data@, cur as int)) by {
            if let Some((more, end)) = parse_entries(data@, cur as int) {
                assert(entries_view(entries@) + more =~= more);
            }
        }
        loop
            invariant
                pos < cur <= data@.len(),
                data@[pos as int] == 100u8,
                parse_entries(data@, pos + 1) == with_entries(
                    entries_view(entries@),
                    parse_entries(data@, cur as int),
                ),
            decreases data@.len() - cur,
        {
            if cur >= data.len() {
                return Err(BencodeError::Malformed);
            }
            if data[cur] == 101 {
                assert(entries_view(entries@) + Seq::<(Seq<u8>, BencodeValue)>::empty()
                    =~= entries_view(entries@));
                return Ok((Bencode::Dictionary(entries), cur + 1));
            }
            let (key, at) = match decode_string(data, cur) {
                Err(e) => {
                    return Err(e);
                },
                Ok(found) => found,
            };
            proof {
                lemma_parse_advances(data@, cur as int);
            }
            match decode_value(data, at) {
                Err(e) => {
                    return Err(e);
                },
                Ok((value, next)) => {
                    proof {
                        lemma_parse_advances(data@, at as int);
                        let before = entries_view(entries@);
                        let after = entries_view(entries@.push((key, value)));
                        assert(after =~= before + seq![(key@, value@)]);
                        if let Some((more, end)) = parse_entries(data@, next as int) {
                            assert(before + (seq![(key@, value@)] + more) =~= after + more);
                        }
                    }
                    entries.push((key, value));
                    cur = next;
                },
            }
        }
    } else {
        Err(BencodeError::Malformed)
    }
}

/// What the whole of `data` decodes to: one value, with nothing after it.
pub open spec fn decoded(data: Seq<u8>) -> Result<BencodeValue, BencodeError> {
    match parse_value(data, 0) {
        None => Err(BencodeError::Malformed),
        Some((value, end)) => if end == data.len() {
            Ok(value)
        } else {
            Err(BencodeError::TrailingData)
        },
    }
}

/// Decodes `data` as one value.
pub fn decode(data: &[u8]) -> (r: Result<Bencode, BencodeError>)
    ensures
        match r {
            Ok(value) => decoded(data@) == Ok::<BencodeValue, BencodeError>(value@),
            Err(e) => decoded(data@) == Err::<BencodeValue, BencodeError>(e),
        },
{
    match decode_value(data, 0) {
        Err(e) => Err(e),
        Ok((value, end)) => {
            if end == data.len() {
                Ok(value)
            } else {
                Err(BencodeError::TrailingData)
            }
        },
    }
}

} // verus!
