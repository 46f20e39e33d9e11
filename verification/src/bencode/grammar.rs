use crate::bencode::value::BencodeValue;
use vstd::prelude::*;

verus! {

/// Whether a byte is an ASCII digit.
pub open spec fn is_digit(b: u8) -> bool {
    48 <= b <= 57
}

/// The first position from `pos` on that holds no digit.
pub open spec fn digit_run_end(data: Seq<u8>, pos: int) -> int
    decreases data.len() - pos,
{
    if 0 <= pos < data.len() && is_digit(data[pos]) {
        digit_run_end(data, pos + 1)
    } else {
        pos
    }
}

/// The number that the decimal digits in `data[start..end]` stand for.
pub open spec fn digits_value(data: Seq<u8>, start: int, end: int) -> nat
    decreases end - start,
{
    if end <= start {
        0
    } else {
        (digits_value(data, start, end - 1) * 10 + (data[end - 1] - 48)) as nat
    }
}

/// A byte string at `pos`: decimal digits, a colon, and as many bytes as the
/// digits say. Gives the bytes and the position after them.
pub open spec fn parse_bytes(data: Seq<u8>, pos: int) -> Option<(Seq<u8>, int)> {
    let colon = digit_run_end(data, pos);
    if pos < 0 || colon == pos || colon >= data.len() || data[colon] != 58u8 {
        None
    } else {
        let n = digits_value(data, pos, colon);
        if colon + 1 + n > data.len() {
            None
        } else {
            Some((data.subrange(colon + 1, colon + 1 + n), colon + 1 + n))
        }
    }
}

/// An integer at `pos`: `i`, an optional minus sign, at least one decimal
/// digit, and `e`. Leading zeros are accepted. The value has to fit in 64
/// bits. Gives the value and the position after the `e`.
pub open spec fn parse_integer(data: Seq<u8>, pos: int) -> Option<(int, int)> {
    if pos < 0 || pos >= data.len() || data[pos] != 105u8 {
        None
    } else {
        let negative = pos + 1 < data.len() && data[pos + 1] == 45u8;
        let start = if negative {
            pos + 2
        } else {
            pos + 1
        };
        let end = digit_run_end(data, start);
        if end == start || end >= data.len() || data[end] != 101u8 {
            None
        } else {
            let magnitude = digits_value(data, start, end) as int;
            let value = if negative {
                -magnitude
            } else {
                magnitude
            };
            if i64::MIN <= value <= i64::MAX {
                Some((value, end + 1))
            } else {
                None
            }
        }
    }
}

/// The value at `pos` and the position after it: a digit starts a byte
/// string, `i` an integer, `l` a list, `d` a dictionary. Anything else, the
/// end of the data and a value that is cut short give `None`.
pub open spec fn parse_value(data: Seq<u8>, pos: int) -> Option<(BencodeValue, int)>
    decreases data.len() - pos, 1int,
{
    if pos < 0 || pos >= data.len() {
        None
    } else if is_digit(data[pos]) {
        match parse_bytes(data, pos) {
            Some((bytes, end)) => Some((BencodeValue::Bytes(bytes), end)),
            None => None,
        }
    } else if data[pos] == 105u8 {
        match parse_integer(data, pos) {
            Some((value, end)) => Some((BencodeValue::Integer(value), end)),
            None => None,
        }
    } else if data[pos] == 108u8 {
        match parse_items(data, pos + 1) {
            Some((items, end)) => Some((BencodeValue::List(items), end)),
            None => None,
        }
    } else if data[pos] == 100u8 {
        match parse_entries(data, pos + 1) {
            Some((entries, end)) => Some((BencodeValue::Dictionary(entries), end)),
            None => None,
        }
    } else {
        None
    }
}

/// The values from `pos` up to the `e` that closes the list, and the
/// position after that `e`.
pub open spec fn parse_items(data: Seq<u8>, pos: int) -> Option<(Seq<BencodeValue>, int)>
    decreases data.len() - pos, 2int,
{
    if pos < 0 || pos >= data.len() {
        None
    } else if data[pos] == 101u8 {
        Some((Seq::empty(), pos + 1))
    } else {
        match parse_value(data, pos) {
            None => None,
            Some((value, next)) => if next <= pos || next > data.len() {
                None
            } else {
                match parse_items(data, next) {
                    None => None,
                    Some((rest, end)) => Some((seq![value] + rest, end)),
                }
            },
        }
    }
}

/// The pairs of key and value from `pos` up to the `e` that closes the
/// dictionary, and the position after that `e`. A key is a byte string.
pub open spec fn parse_entries(data: Seq<u8>, pos: int) -> Option<
    (Seq<(Seq<u8>, BencodeValue)>, int),
>
    decreases data.len() - pos, 2int,
{
    if pos < 0 || pos >= data.len() {
        None
    } else if data[pos] == 101u8 {
        Some((Seq::empty(), pos + 1))
    } else {
        match parse_bytes(data, pos) {
            None => None,
            Some((key, at)) => if at <= pos || at > data.len() {
                None
            } else {
                match parse_value(data, at) {
                    None => None,
                    Some((value, next)) => if next <= at || next > data.len() {
                        None
                    } else {
                        match parse_entries(data, next) {
                            None => None,
                            Some((rest, end)) => Some((seq![(key, value)] + rest, end)),
                        }
                    },
                }
            },
        }
    }
}

/// An end of a run of digits lies at or after its start, inside the data,
/// and every byte of the run is a digit.
pub proof fn lemma_digit_run(data: Seq<u8>, pos: int)
    requires
        0 <= pos <= data.len(),
    ensures
        pos <= digit_run_end(data, pos) <= data.len(),
        forall|j: int| pos <= j < digit_run_end(data, pos) ==> is_digit(#[trigger] data[j]),
        digit_run_end(data, pos) < data.len() ==> !is_digit(data[digit_run_end(data, pos)]),
    decreases data.len() - pos,
{
    if pos < data.len() && is_digit(data[pos]) {
        lemma_digit_run(data, pos + 1);
    }
}

/// A value that parses ends after the place where it starts, inside the
/// data.
pub proof fn lemma_parse_advances(data: Seq<u8>, pos: int)
    ensures
        parse_bytes(data, pos) matches Some((_, end)) ==> pos < end <= data.len(),
        parse_integer(data, pos) matches Some((_, end)) ==> pos < end <= data.len(),
        parse_value(data, pos) matches Some((_, end)) ==> pos < end <= data.len(),
        parse_items(data, pos) matches Some((_, end)) ==> pos < end <= data.len(),
        parse_entries(data, pos) matches Some((_, end)) ==> pos < end <= data.len(),
    decreases data.len() - pos, 3int,
{
    if 0 <= pos < data.len() {
        lemma_digit_run(data, pos);
        if pos + 1 <= data.len() {
            lemma_digit_run(data, pos + 1);
        }
        if pos + 2 <= data.len() {
            lemma_digit_run(data, pos + 2);
        }
        lemma_parse_advances(data, pos + 1);
        if let Some((_, next)) = parse_value(data, pos) {
            if next > pos {
                lemma_parse_advances(data, next);
            }
        }
        if let Some((_, at)) = parse_bytes(data, pos) {
            if at > pos {
                lemma_parse_advances(data, at);
                if let Some((_, next)) = parse_value(data, at) {
                    if next > at {
                        lemma_parse_advances(data, next);
                    }
                }
            }
        }
    }
}

} // verus!
