use vstd::prelude::*;

verus! {

/// Number of bytes of a bitmap over `piece_count` pieces.
pub open spec fn bitfield_len(piece_count: int) -> int {
    (piece_count + 7) / 8
}

/// The mask that selects piece `8k + j` inside byte `k`: the most significant
/// bit stands for `j == 0`.
pub open spec fn bit_mask(i: int) -> u8 {
    1u8 << ((7 - i % 8) as u8)
}

/// Whether bit `i` of a bitmap is set. An index beyond the bitmap is not set.
pub open spec fn bit_is_set(bits: Seq<u8>, i: int) -> bool {
    0 <= i < 8 * bits.len() && bits[i / 8] & bit_mask(i) != 0
}

/// The bitmap with bit `i` set and every other bit as before.
pub open spec fn with_bit(bits: Seq<u8>, i: int) -> Seq<u8> {
    bits.update(i / 8, bits[i / 8] | bit_mask(i))
}

/// Whether each of the first `piece_count` bits is set.
pub open spec fn all_set(bits: Seq<u8>, piece_count: int) -> bool {
    forall|i: int| 0 <= i < piece_count ==> bit_is_set(bits, i)
}

/// Whether one of the first `piece_count` bits is set.
pub open spec fn any_set(bits: Seq<u8>, piece_count: int) -> bool {
    exists|i: int| 0 <= i < piece_count && bit_is_set(bits, i)
}

proof fn lemma_mask_or(b: u8, s: u8, t: u8)
    requires
        s < 8,
        t < 8,
    ensures
        ((b | (1u8 << s)) & (1u8 << t) != 0) == (s == t || (b & (1u8 << t) != 0)),
{
    assert(((b | (1u8 << s)) & (1u8 << t) != 0) == (s == t || (b & (1u8 << t) != 0)))
        by (bit_vector)
        requires
            s < 8,
            t < 8,
    ;
}

/// Setting bit `i` touches byte `i / 8` only, there the bit `7 - i % 8`, and
/// leaves the answer for every other index as it was: two different indices
/// never share a bit.
pub proof fn lemma_set_then_read(bits: Seq<u8>, i: int, j: int)
    requires
        0 <= i < 8 * bits.len(),
    ensures
        with_bit(bits, i).len() == bits.len(),
        bit_is_set(with_bit(bits, i), j) == (j == i || bit_is_set(bits, j)),
        forall|k: int| 0 <= k < bits.len() && k != i / 8 ==> with_bit(bits, i)[k] == bits[k],
        with_bit(bits, i)[i / 8] == bits[i / 8] | (1u8 << ((7 - i % 8) as u8)),
{
    if 0 <= j < 8 * bits.len() {
        let s = (7 - i % 8) as u8;
        let t = (7 - j % 8) as u8;
        if i / 8 == j / 8 {
            lemma_mask_or(bits[i / 8], s, t);
            assert((s == t) == (i == j));
        } else {
            assert(with_bit(bits, i)[j / 8] == bits[j / 8]);
        }
    }
}

/// A bitmap of `piece_count` pieces with no bit set.
pub fn empty_bitfield(piece_count: usize) -> (bits: Vec<u8>)
    ensures
        bits@.len() == bitfield_len(piece_count as int),
        forall|k: int| 0 <= k < bits@.len() ==> bits@[k] == 0u8,
        forall|i: int| !bit_is_set(bits@, i),
{
    let n: usize = piece_count / 8 + (if piece_count % 8 == 0 { 0 } else { 1 });
    let mut bits: Vec<u8> = Vec::new();
    let mut k: usize = 0;
    while k < n
        invariant
            k <= n,
            bits@.len() == k,
            forall|m: int| 0 <= m < k ==> bits@[m] == 0u8,
        decreases n - k,
    {
        bits.push(0u8);
        k = k + 1;
    }
    proof {
        assert forall|i: int| !bit_is_set(bits@, i) by {
            if 0 <= i < 8 * bits@.len() {
                let m = bit_mask(i);
                assert(0u8 & m == 0) by (bit_vector);
            }
        }
    }
    bits
}

/// Reads bit `i`.
pub fn has_bit(bits: &[u8], i: usize) -> (r: bool)
    ensures
        r == bit_is_set(bits@, i as int),
{
    let byte_index: usize = i / 8;
    if byte_index >= bits.len() {
        return false;
    }
    let shift: u8 = (7 - i % 8) as u8;
    let mask: u8 = 1u8 << shift;
    bits[byte_index] & mask != 0
}

/// Sets bit `i`.
pub fn set_bit(bits: &mut Vec<u8>, i: usize)
    requires
        i < 8 * old(bits)@.len(),
    ensures
        final(bits)@ == with_bit(old(bits)@, i as int),
{
    let byte_index: usize = i / 8;
    let shift: u8 = (7 - i % 8) as u8;
    let mask: u8 = 1u8 << shift;
    let byte: u8 = bits[byte_index];
    bits.set(byte_index, byte | mask);
}

/// Whether all of the first `piece_count` bits are set.
pub fn all_bits_set(bits: &[u8], piece_count: usize) -> (r: bool)
    ensures
        r == all_set(bits@, piece_count as int),
{
    let mut i: usize = 0;
    while i < piece_count
        invariant
            i <= piece_count,
            forall|j: int| 0 <= j < i ==> bit_is_set(bits@, j),
        decreases piece_count - i,
    {
        if !has_bit(bits, i) {
            return false;
        }
        i = i + 1;
    }
    true
}

/// Whether one of the first `piece_count` bits is set.
pub fn any_bit_set(bits: &[u8], piece_count: usize) -> (r: bool)
    ensures
        r == any_set(bits@, piece_count as int),
{
    let mut i: usize = 0;
    while i < piece_count
        invariant
            i <= piece_count,
            forall|j: int| 0 <= j < i ==> !bit_is_set(bits@, j),
        decreases piece_count - i,
    {
        if has_bit(bits, i) {
            return true;
        }
        i = i + 1;
    }
    false
}

} // verus!
