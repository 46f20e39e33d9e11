use crate::bencode::decode::{decoded, lemma_run_end_same, BencodeError};
use crate::bencode::grammar::{
    digit_run_end, digits_value, is_digit, parse_bytes, parse_entries, parse_integer,
    parse_items, parse_value,
};
use crate::bencode::value::{entries_view, items_view, Bencode, BencodeValue};
use vstd::prelude::*;

verus! {

/// A number written in decimal digits, without leading zeros.
pub open spec fn decimal_bytes(n: nat) -> Seq<u8>
    decreases n,
{
    if n < 10 {
        seq![(48 + n) as u8]
    } else {
        decimal_bytes(n / 10).push((48 + n % 10) as u8)
    }
}

/// An integer written in decimal digits, with a minus sign if it is
/// negative.
pub open spec fn integer_bytes(n: int) -> Seq<u8> {
    if n < 0 {
        seq![45u8] + decimal_bytes((-n) as nat)
    } else {
        decimal_bytes(n as nat)
    }
}

/// The bencoded form of a byte string: its length in decimal, a colon, and
/// its bytes.
pub open spec fn bytes_encoding(bytes: Seq<u8>) -> Seq<u8> {
    decimal_bytes(bytes.len()) + seq![58u8] + bytes
}

/// The bencoded form of a value.
pub open spec fn encoding(value: BencodeValue) -> Seq<u8>
    decreases value, 0nat,
{
    match value {
        BencodeValue::Integer(n) => seq![105u8] + integer_bytes(n) + seq![101u8],
        BencodeValue::Bytes(bytes) => bytes_encoding(bytes),
        BencodeValue::List(items) => seq![108u8] + items_encoding(items, 0) + seq![101u8],
        BencodeValue::Dictionary(entries) => seq![100u8] + entries_encoding(entries, 0) + seq![
            101u8,
        ],
    }
}

/// The bencoded forms of the items from the `k`-th on, one after the other.
pub open spec fn items_encoding(items: Seq<BencodeValue>, k: int) -> Seq<u8>
    decreases items, items.len() - k,
{
    if k < 0 || k >= items.len() {
        Seq::empty()
    } else {
        encoding(items[k]) + items_encoding(items, k + 1)
    }
}

/// The bencoded forms of the entries from the `k`-th on: each key as a byte
/// string, followed by its value.
pub open spec fn entries_encoding(entries: Seq<(Seq<u8>, BencodeValue)>, k: int) -> Seq<u8>
    decreases entries, entries.len() - k,
{
    if k < 0 || k >= entries.len() {
        Seq::empty()
    } else {
        bytes_encoding(entries[k].0) + encoding(entries[k].1) + entries_encoding(entries, k + 1)
    }
}

impl BencodeValue {
    /// Whether every integer of the value fits in 64 bits.
    pub open spec fn valid(self) -> bool
        decreases self,
    {
        match self {
            BencodeValue::Integer(n) => i64::MIN <= n <= i64::MAX,
            BencodeValue::Bytes(_) => true,
            BencodeValue::List(items) => forall|i: int|
                0 <= i < items.len() ==> (#[trigger] items[i]).valid(),
            BencodeValue::Dictionary(entries) => forall|i: int|
                0 <= i < entries.len() ==> (#[trigger] entries[i]).1.valid(),
        }
    }
}

/// A number written in decimal is a run of digits, and the digits stand for
/// the number.
pub proof fn lemma_decimal_bytes(n: nat)
    ensures
        decimal_bytes(n).len() >= 1,
        forall|j: int| 0 <= j < decimal_bytes(n).len() ==> is_digit(#[trigger] decimal_bytes(n)[j]),
    decreases n,
{
    if n >= 10 {
        lemma_decimal_bytes(n / 10);
    }
}

/// Where the data hold a number written in decimal, the digits there stand
/// for that number.
pub proof fn lemma_digits_of_decimal(data: Seq<u8>, pos: int, n: nat)
    requires
        0 <= pos,
        pos + decimal_bytes(n).len() <= data.len(),
        data.subrange(pos, pos + decimal_bytes(n).len()) == decimal_bytes(n),
    ensures
        digits_value(data, pos, pos + decimal_bytes(n).len()) == n,
        forall|j: int| pos <= j < pos + decimal_bytes(n).len() ==> is_digit(#[trigger] data[j]),
    decreases n,
{
    let text = decimal_bytes(n);
    let k = text.len() as int;
    lemma_decimal_bytes(n);
    assert forall|j: int| pos <= j < pos + k implies is_digit(#[trigger] data[j]) by {
        assert(data[j] == data.subrange(pos, pos + k)[j - pos]);
    }
    assert(data[pos + k - 1] == data.subrange(pos, pos + k)[k - 1]);
    if n < 10 {
        assert(digits_value(data, pos, pos) == 0);
    } else {
        let front = decimal_bytes(n / 10);
        assert(data.subrange(pos, pos + front.len()) =~= front) by {
            assert forall|j: int| 0 <= j < front.len() implies data.subrange(
                pos,
                pos + front.len(),
            )[j] == front[j] by {
                assert(data[pos + j] == data.subrange(pos, pos + k)[j]);
            }
        }
        lemma_digits_of_decimal(data, pos, n / 10);
    }
}

/// A number written in decimal and followed by something else than a digit
/// is read back as a whole.
pub proof fn lemma_read_decimal(data: Seq<u8>, pos: int, n: nat)
    requires
        0 <= pos,
        pos + decimal_bytes(n).len() < data.len(),
        data.subrange(pos, pos + decimal_bytes(n).len()) == decimal_bytes(n),
        !is_digit(data[pos + decimal_bytes(n).len()]),
    ensures
        digit_run_end(data, pos) == pos + decimal_bytes(n).len(),
        digits_value(data, pos, pos + decimal_bytes(n).len()) == n,
{
    lemma_digits_of_decimal(data, pos, n);
    lemma_run_end_same(data, pos, pos + decimal_bytes(n).len());
}

/// A part of the data that equals a text, cut further.
proof fn lemma_cut(data: Seq<u8>, pos: int, text: Seq<u8>, from: int, to: int)
    requires
        0 <= pos,
        pos + text.len() <= data.len(),
        data.subrange(pos, pos + text.len()) == text,
        0 <= from <= to <= text.len(),
    ensures
        data.subrange(pos + from, pos + to) == text.subrange(from, to),
{
    assert forall|j: int| 0 <= j < to - from implies data.subrange(pos + from, pos + to)[j]
        == text.subrange(from, to)[j] by {
        assert(data[pos + from + j] == data.subrange(pos, pos + text.len())[from + j]);
    }
    assert(data.subrange(pos + from, pos + to) =~= text.subrange(from, to));
}

/// A byte string is read back from its bencoded form.
pub proof fn lemma_bytes_round_trip(data: Seq<u8>, pos: int, bytes: Seq<u8>)
    requires
        0 <= pos,
        pos + bytes_encoding(bytes).len() <= data.len(),
        data.subrange(pos, pos + bytes_encoding(bytes).len()) == bytes_encoding(bytes),
    ensures
        parse_bytes(data, pos) == Some((bytes, pos + bytes_encoding(bytes).len())),
        is_digit(data[pos]),
        bytes_encoding(bytes).len() >= 2,
{
    let text = bytes_encoding(bytes);
    let head = decimal_bytes(bytes.len());
    let k = head.len() as int;
    lemma_decimal_bytes(bytes.len());
    lemma_cut(data, pos, text, 0, k);
    assert(text.subrange(0, k) =~= head);
    assert(data[pos + k] == data.subrange(pos, pos + text.len())[k]);
    assert(text[k] == 58u8);
    lemma_read_decimal(data, pos, bytes.len());
    lemma_cut(data, pos, text, k + 1, text.len() as int);
    assert(text.subrange(k + 1, text.len() as int) =~= bytes);
    assert(data[pos] == data.subrange(pos, pos + text.len())[0]);
    assert(text[0] == head[0]);
}

/// An integer that fits in 64 bits is read back from its bencoded form.
pub proof fn lemma_integer_round_trip(data: Seq<u8>, pos: int, n: int)
    requires
        0 <= pos,
        i64::MIN <= n <= i64::MAX,
        pos + encoding(BencodeValue::Integer(n)).len() <= data.len(),
        data.subrange(pos, pos + encoding(BencodeValue::Integer(n)).len()) == encoding(
            BencodeValue::Integer(n),
        ),
    ensures
        parse_integer(data, pos) == Some((n, pos + encoding(BencodeValue::Integer(n)).len())),
        data[pos] == 105u8,
{
    let text = encoding(BencodeValue::Integer(n));
    let len = text.len() as int;
    assert(data[pos] == data.subrange(pos, pos + len)[0]);
    assert(data[pos + 1] == data.subrange(pos, pos + len)[1]);
    assert(data[pos + len - 1] == data.subrange(pos, pos + len)[len - 1]);
    if n < 0 {
        let digits = decimal_bytes((-n) as nat);
        lemma_decimal_bytes((-n) as nat);
        assert(text[1] == 45u8);
        lemma_cut(data, pos, text, 2, 2 + digits.len() as int);
        assert(text.subrange(2, 2 + digits.len() as int) =~= digits);
        lemma_read_decimal(data, pos + 2, (-n) as nat);
    } else {
        let digits = decimal_bytes(n as nat);
        lemma_decimal_bytes(n as nat);
        assert(text[1] == digits[0]);
        lemma_cut(data, pos, text, 1, 1 + digits.len() as int);
        assert(text.subrange(1, 1 + digits.len() as int) =~= digits);
        lemma_read_decimal(data, pos + 1, n as nat);
    }
}

/// The bencoded form of a value is not empty and does not start with `e`.
pub proof fn lemma_encoding_head(value: BencodeValue)
    ensures
        encoding(value).len() >= 2,
        encoding(value)[0] != 101u8,
{
    match value {
        BencodeValue::Integer(n) => {},
        BencodeValue::Bytes(bytes) => {
            lemma_decimal_bytes(bytes.len());
            assert(encoding(value)[0] == decimal_bytes(bytes.len())[0]);
        },
        BencodeValue::List(items) => {},
        BencodeValue::Dictionary(entries) => {},
    }
}

/// A valid value is read back from the place where its bencoded form
/// stands.
pub proof fn lemma_round_trip_at(value: BencodeValue, data: Seq<u8>, pos: int)
    requires
        value.valid(),
        0 <= pos,
        pos + encoding(value).len() <= data.len(),
        data.subrange(pos, pos + encoding(value).len()) == encoding(value),
    ensures
        parse_value(data, pos) == Some((value, pos + encoding(value).len())),
    decreases value, 0nat,
{
    let text = encoding(value);
    let len = text.len() as int;
    lemma_encoding_head(value);
    assert(data[pos] == data.subrange(pos, pos + len)[0]);
    match value {
        BencodeValue::Integer(n) => {
            lemma_integer_round_trip(data, pos, n);
        },
        BencodeValue::Bytes(bytes) => {
            lemma_bytes_round_trip(data, pos, bytes);
        },
        BencodeValue::List(items) => {
            let inner = items_encoding(items, 0);
            lemma_cut(data, pos, text, 1, len);
            assert(text.subrange(1, len) =~= inner + seq![101u8]);
            lemma_items_round_trip(items, 0, data, pos + 1);
            assert(items.subrange(0, items.len() as int) =~= items);
        },
        BencodeValue::Dictionary(entries) => {
            let inner = entries_encoding(entries, 0);
            lemma_cut(data, pos, text, 1, len);
            assert(text.subrange(1, len) =~= inner + seq![101u8]);
            lemma_entries_round_trip(entries, 0, data, pos + 1);
            assert(entries.subrange(0, entries.len() as int) =~= entries);
        },
    }
}

/// The items from the `k`-th on are read back from the place where their
/// bencoded forms and the closing `e` stand.
pub proof fn lemma_items_round_trip(items: Seq<BencodeValue>, k: int, data: Seq<u8>, pos: int)
    requires
        forall|i: int| 0 <= i < items.len() ==> (#[trigger] items[i]).valid(),
        0 <= k <= items.len(),
        0 <= pos,
        pos + items_encoding(items, k).len() + 1 <= data.len(),
        data.subrange(pos, pos + items_encoding(items, k).len() + 1) == items_encoding(items, k)
            + seq![101u8],
    ensures
        parse_items(data, pos) == Some(
            (items.subrange(k, items.len() as int), pos + items_encoding(items, k).len() + 1),
        ),
    decreases items, items.len() - k,
{
    let text = items_encoding(items, k) + seq![101u8];
    let len = text.len() as int;
    assert(data[pos] == data.subrange(pos, pos + len)[0]);
    if k == items.len() {
        assert(items.subrange(k, items.len() as int) =~= Seq::empty());
    } else {
        let first = encoding(items[k]);
        let rest = items_encoding(items, k + 1);
        lemma_encoding_head(items[k]);
        assert(text[0] == first[0]);
        lemma_cut(data, pos, text, 0, first.len() as int);
        assert(text.subrange(0, first.len() as int) =~= first);
        lemma_round_trip_at(items[k], data, pos);
        lemma_cut(data, pos, text, first.len() as int, len);
        assert(text.subrange(first.len() as int, len) =~= rest + seq![101u8]);
        lemma_items_round_trip(items, k + 1, data, pos + first.len());
        assert(seq![items[k]] + items.subrange(k + 1, items.len() as int) =~= items.subrange(
            k,
            items.len() as int,
        ));
    }
}

/// The entries from the `k`-th on are read back from the place where their
/// bencoded forms and the closing `e` stand.
pub proof fn lemma_entries_round_trip(
    entries: Seq<(Seq<u8>, BencodeValue)>,
    k: int,
    data: Seq<u8>,
    pos: int,
)
    requires
        forall|i: int| 0 <= i < entries.len() ==> (#[trigger] entries[i]).1.valid(),
        0 <= k <= entries.len(),
        0 <= pos,
        pos + entries_encoding(entries, k).len() + 1 <= data.len(),
        data.subrange(pos, pos + entries_encoding(entries, k).len() + 1) == entries_encoding(
            entries,
            k,
        ) + seq![101u8],
    ensures
        parse_entries(data, pos) == Some(
            (
                entries.subrange(k, entries.len() as int),
                pos + entries_encoding(entries, k).len() + 1,
            ),
        ),
    decreases entries, entries.len() - k,
{
    let text = entries_encoding(entries, k) + seq![101u8];
    let len = text.len() as int;
    assert(data[pos] == data.subrange(pos, pos + len)[0]);
    if k == entries.len() {
        assert(entries.subrange(k, entries.len() as int) =~= Seq::empty());
    } else {
        let key = bytes_encoding(entries[k].0);
        let first = encoding(entries[k].1);
        let rest = entries_encoding(entries, k + 1);
        lemma_encoding_head(BencodeValue::Bytes(entries[k].0));
        lemma_encoding_head(entries[k].1);
        assert(key == encoding(BencodeValue::Bytes(entries[k].0)));
        assert(text[0] == key[0]);
        lemma_cut(data, pos, text, 0, key.len() as int);
        assert(text.subrange(0, key.len() as int) =~= key);
        lemma_bytes_round_trip(data, pos, entries[k].0);
        let at = pos + key.len();
        lemma_cut(data, pos, text, key.len() as int, (key.len() + first.len()) as int);
        assert(text.subrange(key.len() as int, (key.len() + first.len()) as int) =~= first);
        lemma_round_trip_at(entries[k].1, data, at);
        lemma_cut(data, pos, text, (key.len() + first.len()) as int, len);
        assert(text.subrange((key.len() + first.len()) as int, len) =~= rest + seq![101u8]);
        lemma_entries_round_trip(entries, k + 1, data, at + first.len());
        assert(seq![entries[k]] + entries.subrange(k + 1, entries.len() as int)
            =~= entries.subrange(k, entries.len() as int));
    }
}

/// Every decoded value is valid: its integers fit in 64 bits.
pub proof fn lemma_view_valid(value: Bencode)
    ensures
        value@.valid(),
    decreases value,
{
    match value {
        Bencode::Integer(n) => {
            assert(value@ == BencodeValue::Integer(n as int));
        },
        Bencode::Bytes(_) => {},
        Bencode::List(items) => {
            let views = items_view(items@);
            assert(value@ == BencodeValue::List(views));
            assert forall|i: int| 0 <= i < views.len() implies (#[trigger] views[i]).valid() by {
                lemma_view_valid(items@[i]);
            }
            assert(BencodeValue::List(views).valid());
        },
        Bencode::Dictionary(entries) => {
            let views = entries_view(entries@);
            assert(value@ == BencodeValue::Dictionary(views));
            assert forall|i: int| 0 <= i < views.len() implies (#[trigger] views[i]).1.valid() by {
                lemma_view_valid(entries@[i].1);
            }
            assert(BencodeValue::Dictionary(views).valid());
        },
    }
}

/// Appends `n`, written in decimal, to `out`.
pub fn push_decimal(out: &mut Vec<u8>, n: u64)
    ensures
        final(out)@ == old(out)@ + decimal_bytes(n as nat),
    decreases n,
{
    if n >= 10 {
        push_decimal(out, n / 10);
    }
    out.push((48 + n % 10) as u8);
    assert(out@ =~= old(out)@ + decimal_bytes(n as nat));
}

/// Appends the bencoded form of a byte string to `out`.
pub fn push_bytes_encoding(out: &mut Vec<u8>, bytes: &[u8])
    ensures
        final(out)@ == old(out)@ + bytes_encoding(bytes@),
{
    push_decimal(out, bytes.len() as u64);
    out.push(58u8);
    let ghost head = out@;
    let mut i: usize = 0;
    while i < bytes.len()
        invariant
            i <= bytes@.len(),
            out@ == head + bytes@.subrange(0, i as int),
        decreases bytes@.len() - i,
    {
        out.push(bytes[i]);
        assert(out@ =~= head + bytes@.subrange(0, i + 1));
        i = i + 1;
    }
    assert(bytes@.subrange(0, bytes@.len() as int) =~= bytes@);
    assert(out@ =~= old(out)@ + bytes_encoding(bytes@));
}

/// Appends the bencoded form of an integer to `out`.
pub fn push_integer_encoding(out: &mut Vec<u8>, n: i64)
    ensures
        final(out)@ == old(out)@ + encoding(BencodeValue::Integer(n as int)),
{
    out.push(105u8);
    if n < 0 {
        out.push(45u8);
        let magnitude: u64 = if n == i64::MIN {
            9223372036854775808u64
        } else {
            (-n) as u64
        };
        push_decimal(out, magnitude);
    } else {
        push_decimal(out, n as u64);
    }
    out.push(101u8);
    assert(out@ =~= old(out)@ + encoding(BencodeValue::Integer(n as int)));
}

/// Appends the bencoded form of `value` to `out`.
pub fn encode_into(value: &Bencode, out: &mut Vec<u8>)
    ensures
        final(out)@ == old(out)@ + encoding(value@),
    decreases value,
{
    match value {
        Bencode::Integer(n) => {
            push_integer_encoding(out, *n);
        },
        Bencode::Bytes(bytes) => {
            push_bytes_encoding(out, bytes.as_slice());
        },
        Bencode::List(items) => {
            out.push(108u8);
            let ghost views = items_view(items@);
            let ghost head = out@;
            let mut i: usize = 0;
            assert(decreases_to!(value => items));
            while i < items.len()
                invariant
                    i <= items@.len(),
                    decreases_to!(value => items),
                    views == items_view(items@),
                    value == Bencode::List(*items),
                    head + items_encoding(views, 0) == out@ + items_encoding(views, i as int),
                decreases items@.len() - i,
            {
                let ghost before = out@;
                proof {
                    vstd::std_specs::vec::axiom_vec_index_decreases(*items, i as int);
                }
                encode_into(&items[i], out);
                proof {
                    assert(views[i as int] == items@[i as int]@);
                    assert(before + (encoding(views[i as int]) + items_encoding(views, i + 1))
                        =~= out@ + items_encoding(views, i + 1));
                }
                i = i + 1;
            }
            out.push(101u8);
            assert(out@ =~= old(out)@ + encoding(value@));
        },
        Bencode::Dictionary(entries) => {
            out.push(100u8);
            let ghost views = entries_view(entries@);
            let ghost head = out@;
            let mut i: usize = 0;
            assert(decreases_to!(value => entries));
            while i < entries.len()
                invariant
                    i <= entries@.len(),
                    decreases_to!(value => entries),
                    views == entries_view(entries@),
                    value == Bencode::Dictionary(*entries),
                    head + entries_encoding(views, 0) == out@ + entries_encoding(views, i as int),
                decreases entries@.len() - i,
            {
                let ghost before = out@;
                push_bytes_encoding(out, entries[i].0.as_slice());
                proof {
                    vstd::std_specs::vec::axiom_vec_index_decreases(*entries, i as int);
                }
                encode_into(&entries[i].1, out);
                proof {
                    assert(views[i as int] == (entries@[i as int].0@, entries@[i as int].1@));
                    assert(before + (bytes_encoding(views[i as int].0) + encoding(views[i as int].1)
                        + entries_encoding(views, i + 1)) =~= out@ + entries_encoding(
                        views,
                        i + 1,
                    ));
                }
                i = i + 1;
            }
            out.push(101u8);
            assert(out@ =~= old(out)@ + encoding(value@));
        },
    }
}

/// The bencoded form of `value`.
pub fn encode(value: &Bencode) -> (out: Vec<u8>)
    ensures
        out@ == encoding(value@),
        decoded(out@) == Ok::<BencodeValue, BencodeError>(value@),
{
    let mut out: Vec<u8> = Vec::new();
    encode_into(value, &mut out);
    proof {
        assert(out@ =~= encoding(value@));
        lemma_view_valid(*value);
        lemma_decode_encode(value@);
    }
    out
}

/// Round trip: a value whose integers fit in 64 bits is decoded from its
/// bencoded form.
pub proof fn lemma_decode_encode(value: BencodeValue)
    requires
        value.valid(),
    ensures
        decoded(encoding(value)) == Ok::<BencodeValue, BencodeError>(value),
{
    let text = encoding(value);
    assert(text.subrange(0, text.len() as int) =~= text);
    lemma_round_trip_at(value, text, 0);
}

} // verus!
