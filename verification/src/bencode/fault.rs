use crate::bencode::decode::{read_digits, BencodeError};
use crate::bencode::grammar::{
    digit_run_end, is_digit, lemma_digit_run, lemma_parse_advances, parse_bytes, parse_entries,
    parse_integer, parse_items, parse_value,
};
use vstd::prelude::*;

verus! {

/// Where a byte string that does not parse goes wrong: at the byte that is
/// neither a digit nor the colon, or at the end of the data where the length
/// or the string reaches beyond it.
pub open spec fn bytes_fault(data: Seq<u8>, pos: int) -> int {
    let colon = digit_run_end(data, pos);
    if colon >= data.len() {
        data.len() as int
    } else if colon == pos || data[colon] != 58u8 {
        colon
    } else {
        data.len() as int
    }
}

/// Where an integer that does not parse goes wrong: at the byte that is
/// neither a digit nor the closing `e`, at the end of the data where the
/// digits reach it, or at the start of an integer that does not fit in 64
/// bits.
pub open spec fn integer_fault(data: Seq<u8>, pos: int) -> int {
    let negative = pos + 1 < data.len() && data[pos + 1] == 45u8;
    let start = if negative {
        pos + 2
    } else {
        pos + 1
    };
    let end = digit_run_end(data, start);
    if end >= data.len() {
        data.len() as int
    } else if end == start || data[end] != 101u8 {
        end
    } else {
        pos
    }
}

/// Where a value that does not parse goes wrong: at the first byte that
/// cannot stand where it stands, or at the end of the data where a value is
/// cut short.
pub open spec fn value_fault(data: Seq<u8>, pos: int) -> int
    decreases data.len() - pos, 1int,
{
    if pos < 0 || pos >= data.len() {
        data.len() as int
    } else if is_digit(data[pos]) {
        bytes_fault(data, pos)
    } else if data[pos] == 105u8 {
        integer_fault(data, pos)
    } else if data[pos] == 108u8 {
        items_fault(data, pos + 1)
    } else if data[pos] == 100u8 {
        entries_fault(data, pos + 1)
    } else {
        pos
    }
}

/// Where the items of a list that does not parse go wrong.
pub open spec fn items_fault(data: Seq<u8>, pos: int) -> int
    decreases data.len() - pos, 2int,
{
    if pos < 0 || pos >= data.len() {
        data.len() as int
    } else if data[pos] == 101u8 {
        pos
    } else {
        match parse_value(data, pos) {
            None => value_fault(data, pos),
            Some((_, next)) => if next <= pos || next > data.len() {
                pos
            } else {
                items_fault(data, next)
            },
        }
    }
}

/// Where the entries of a dictionary that does not parse go wrong.
pub open spec fn entries_fault(data: Seq<u8>, pos: int) -> int
    decreases data.len() - pos, 2int,
{
    if pos < 0 || pos >= data.len() {
        data.len() as int
    } else if data[pos] == 101u8 {
        pos
    } else {
        match parse_bytes(data, pos) {
            None => bytes_fault(data, pos),
            Some((_, at)) => if at <= pos || at > data.len() {
                pos
            } else {
                match parse_value(data, at) {
                    None => value_fault(data, at),
                    Some((_, next)) => if next <= at || next > data.len() {
                        pos
                    } else {
                        entries_fault(data, next)
                    },
                }
            },
        }
    }
}

/// The end of a value that parses, or the place where it goes wrong.
pub open spec fn value_verdict(data: Seq<u8>, pos: int) -> Result<int, int> {
    match parse_value(data, pos) {
        Some((_, end)) => Ok(end),
        None => Err(value_fault(data, pos)),
    }
}

/// The end of a list whose items start at `pos`, or the place where it goes
/// wrong.
pub open spec fn items_verdict(data: Seq<u8>, pos: int) -> Result<int, int> {
    match parse_items(data, pos) {
        Some((_, end)) => Ok(end),
        None => Err(items_fault(data, pos)),
    }
}

/// The end of a dictionary whose entries start at `pos`, or the place where
/// it goes wrong.
pub open spec fn entries_verdict(data: Seq<u8>, pos: int) -> Result<int, int> {
    match parse_entries(data, pos) {
        Some((_, end)) => Ok(end),
        None => Err(entries_fault(data, pos)),
    }
}

/// What is wrong with `data` as one bencoded value, and where: nothing, a
/// value that does not parse, or bytes after the value.
pub open spec fn fault(data: Seq<u8>) -> Option<(BencodeError, int)> {
    match parse_value(data, 0) {
        None => Some((BencodeError::Malformed, value_fault(data, 0))),
        Some((_, end)) => if end == data.len() {
            None
        } else {
            Some((BencodeError::TrailingData, end))
        },
    }
}

/// The verdict of a walk, with positions as mathematical integers.
pub open spec fn verdict_view(r: Result<usize, usize>) -> Result<int, int> {
    match r {
        Ok(end) => Ok(end as int),
        Err(at) => Err(at as int),
    }
}

fn skip_string(data: &[u8], pos: usize) -> (r: Result<usize, usize>)
    requires
        pos < data@.len(),
    ensures
        verdict_view(r) == (match parse_bytes(data@, pos as int) {
            Some((_, end)) => Ok::<int, int>(end),
            None => Err::<int, int>(bytes_fault(data@, pos as int)),
        }),
{
    let total: usize = data.len();
    let (colon, value) = read_digits(data, pos, total as u64);
    if colon >= total {
        return Err(total);
    }
    if colon == pos || data[colon] != 58 {
        return Err(colon);
    }
    match value {
        None => Err(total),
        Some(length) => {
            if length as usize > total - (colon + 1) {
                Err(total)
            } else {
                Ok(colon + 1 + length as usize)
            }
        },
    }
}

fn skip_integer(data: &[u8], pos: usize) -> (r: Result<usize, usize>)
    requires
        pos < data@.len(),
        data@[pos as int] == 105u8,
    ensures
        verdict_view(r) == (match parse_integer(data@, pos as int) {
            Some((_, end)) => Ok::<int, int>(end),
            None => Err::<int, int>(integer_fault(data@, pos as int)),
        }),
{
    let total: usize = data.len();
    let negative = pos + 1 < total && data[pos + 1] == 45;
    let start: usize = if negative {
        pos + 2
    } else {
        pos + 1
    };
    let (end, value) = read_digits(data, start, 9223372036854775808u64);
    if end >= total {
        return Err(total);
    }
    if end == start || data[end] != 101 {
        return Err(end);
    }
    match value {
        None => Err(pos),
        Some(magnitude) => {
            if !negative && magnitude == 9223372036854775808u64 {
                Err(pos)
            } else {
                Ok(end + 1)
            }
        },
    }
}

/// Walks over the value at `pos` without keeping it. Gives the position
/// after the value, or the place where the value goes wrong.
pub fn skip_value(data: &[u8], pos: usize) -> (r: Result<usize, usize>)
    ensures
        verdict_view(r) == value_verdict(data@, pos as int),
        r matches Err(at) ==> at <= data@.len(),
    decreases data@.len() - pos,
{
    let total: usize = data.len();
    if pos >= total {
        return Err(total);
    }
    let b = data[pos];
    if b >= 48 && b <= 57 {
        proof {
            lemma_digit_run(data@, pos as int);
        }
        skip_string(data, pos)
    } else if b == 105 {
        proof {
            lemma_digit_run(data@, pos + 1);
            if pos + 2 <= total {
                lemma_digit_run(data@, pos + 2);
            }
        }
        skip_integer(data, pos)
    } else if b == 108 {
        let mut cur: usize = pos + 1;
        loop
            invariant
                pos < cur <= data@.len(),
                total == data@.len(),
                data@[pos as int] == 108u8,
                items_verdict(data@, pos + 1) == items_verdict(data@, cur as int),
            decreases data@.len() - cur,
        {
            if cur >= total {
                return Err(total);
            }
            if data[cur] == 101 {
                return Ok(cur + 1);
            }
            match skip_value(data, cur) {
                Err(at) => {
                    return Err(at);
                },
                Ok(next) => {
                    proof {
                        lemma_parse_advances(data@, cur as int);
                    }
                    cur = next;
                },
            }
        }
    } else if b == 100 {
        let mut cur: usize = pos + 1;
        loop
            invariant
                pos < cur <= data@.len(),
                total == data@.len(),
                data@[pos as int] == 100u8,
                entries_verdict(data@, pos + 1) == entries_verdict(data@, cur as int),
            decreases data@.len() - cur,
        {
            if cur >= total {
                return Err(total);
            }
            if data[cur] == 101 {
                return Ok(cur + 1);
            }
            proof {
                lemma_digit_run(data@, cur as int);
            }
            let at = match skip_string(data, cur) {
                Err(at) => {
                    return Err(at);
                },
                Ok(at) => at,
            };
            proof {
                lemma_parse_advances(data@, cur as int);
            }
            match skip_value(data, at) {
                Err(fault) => {
                    return Err(fault);
                },
                Ok(next) => {
                    proof {
                        lemma_parse_advances(data@, at as int);
                    }
                    cur = next;
                },
            }
        }
    } else {
        Err(pos)
    }
}

/// Says what is wrong with `data` as one bencoded value, and at which
/// offset: `None` where `data` decodes.
pub fn locate_fault(data: &[u8]) -> (r: Option<(BencodeError, usize)>)
    ensures
        match r {
            Some((kind, at)) => fault(data@) == Some((kind, at as int)) && at <= data@.len(),
            None => fault(data@) is None,
        },
{
    match skip_value(data, 0) {
        Err(at) => Some((BencodeError::Malformed, at)),
        Ok(end) => {
            proof {
                lemma_parse_advances(data@, 0);
            }
            if end == data.len() {
                None
            } else {
                Some((BencodeError::TrailingData, end))
            }
        },
    }
}

} // verus!
