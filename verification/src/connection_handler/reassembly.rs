use crate::connection_handler::message::REQUEST_PIECE_SIZE;
use crate::connection_handler::piece::{
    block_len_at, block_verdict, fresh_piece, is_block_of, is_block_start, receive, receive_all,
    BlockVerdict, PieceModel,
};
use vstd::prelude::*;

verus! {

/// Bytes held by the blocks that arrived among the first `k` blocks of a
/// piece of `length` bytes.
pub open spec fn covered(received: Set<u32>, length: int, k: int) -> int
    decreases k,
{
    if k <= 0 {
        0
    } else {
        covered(received, length, k - 1) + if received.contains(((k - 1) * 16384) as u32) {
            block_len_at(length, (k - 1) * 16384)
        } else {
            0
        }
    }
}

/// Number of blocks of a piece of `length` bytes.
pub open spec fn block_count(length: int) -> int {
    (length + 16383) / 16384
}

proof fn lemma_covered_bound(received: Set<u32>, length: int, k: int)
    requires
        0 <= k <= block_count(length),
        0 <= length,
    ensures
        0 <= covered(received, length, k) <= k * 16384,
        covered(received, length, k) <= length,
    decreases k,
{
    if k > 0 {
        lemma_covered_bound(received, length, k - 1);
    }
}

proof fn lemma_covered_insert(received: Set<u32>, length: int, k: int, begin: u32)
    requires
        0 <= k <= block_count(length),
        0 <= length <= u32::MAX,
        is_block_start(length, begin as int),
        !received.contains(begin),
    ensures
        covered(received.insert(begin), length, k) == covered(received, length, k) + if begin
            < k * 16384 {
            block_len_at(length, begin as int)
        } else {
            0
        },
    decreases k,
{
    if k > 0 {
        lemma_covered_insert(received, length, k - 1, begin);
        let o = (k - 1) * 16384;
        if o == begin as int {
        } else {
            assert(received.insert(begin).contains(o as u32) == received.contains(o as u32));
        }
    }
}

proof fn lemma_covered_full(received: Set<u32>, length: int, k: int)
    requires
        0 <= k <= block_count(length),
        0 <= length <= u32::MAX,
        forall|o: int| is_block_start(length, o) ==> received.contains(o as u32),
    ensures
        covered(received, length, k) == if k * 16384 < length {
            k * 16384
        } else {
            length
        },
    decreases k,
{
    if k > 0 {
        lemma_covered_full(received, length, k - 1);
        assert(is_block_start(length, (k - 1) * 16384));
    }
}

/// What holds of a piece while blocks cut from `content` arrive in any order.
spec fn agrees(p: PieceModel, content: Seq<u8>) -> bool {
    let length = content.len() as int;
    &&& p.data.len() == length
    &&& p.missing == length - covered(p.received, length, block_count(length))
    &&& forall|o: u32| p.received.contains(o) ==> is_block_start(length, o as int)
    &&& forall|j: int|
        0 <= j < length && p.received.contains(((j / 16384) * 16384) as u32) ==> p.data[j]
            == content[j]
}

proof fn lemma_receive_agrees(p: PieceModel, content: Seq<u8>, begin: u32, block: Seq<u8>)
    requires
        content.len() <= u32::MAX,
        agrees(p, content),
        is_block_of(content, begin, block),
    ensures
        agrees(receive(p, begin, block), content),
        receive(p, begin, block).received == p.received.insert(begin),
        forall|o: u32| p.received.contains(o) ==> receive(p, begin, block).received.contains(o),
{
    let length = content.len() as int;
    let n = block_count(length);
    let q = receive(p, begin, block);
    assert(REQUEST_PIECE_SIZE == 16384);
    assert(block.len() == block_len_at(length, begin as int));
    if p.received.contains(begin) {
        assert(p.received.insert(begin) =~= p.received);
    } else {
        lemma_covered_insert(p.received, length, n, begin);
        lemma_covered_bound(p.received.insert(begin), length, n);
        assert((begin as int) < n * 16384);
        assert(block_verdict(p, begin, block) is Fresh);
        assert(q.data.len() == length);
        assert forall|j: int|
            0 <= j < length && q.received.contains(((j / 16384) * 16384) as u32) implies q.data[j]
            == content[j] by {
            let o = (j / 16384) * 16384;
            if o == begin as int {
                assert(begin <= j < begin + block.len());
                assert(q.data[j] == block[j - begin]);
            } else {
                assert(p.received.contains(o as u32));
                assert(j < begin || j >= begin + block.len()) by {
                    if begin <= j {
                        assert(j / 16384 > begin as int / 16384);
                    }
                }
                assert(q.data[j] == p.data[j]);
            }
        }
    }
}

proof fn lemma_receive_all_agrees(content: Seq<u8>, blocks: Seq<(u32, Seq<u8>)>)
    requires
        content.len() <= u32::MAX,
        forall|i: int|
            0 <= i < blocks.len() ==> is_block_of(content, (#[trigger] blocks[i]).0, blocks[i].1),
    ensures
        agrees(receive_all(fresh_piece(content.len()), blocks), content),
        forall|i: int|
            0 <= i < blocks.len() ==> receive_all(
                fresh_piece(content.len()),
                blocks,
            ).received.contains((#[trigger] blocks[i]).0),
    decreases blocks.len(),
{
    let length = content.len() as int;
    let start = fresh_piece(content.len());
    if blocks.len() == 0 {
        lemma_covered_none(length, block_count(length));
    } else {
        let front = blocks.drop_last();
        lemma_receive_all_agrees(content, front);
        let p = receive_all(start, front);
        lemma_receive_agrees(p, content, blocks.last().0, blocks.last().1);
        let q = receive_all(start, blocks);
        assert forall|i: int| 0 <= i < blocks.len() implies q.received.contains(
            (#[trigger] blocks[i]).0,
        ) by {
            if i < front.len() {
                assert(front[i] == blocks[i]);
                assert(p.received.contains(front[i].0));
            }
        }
    }
}

proof fn lemma_covered_none(length: int, k: int)
    requires
        0 <= k,
    ensures
        covered(Set::<u32>::empty(), length, k) == 0,
    decreases k,
{
    if k > 0 {
        lemma_covered_none(length, k - 1);
    }
}

/// Block reassembly: when the blocks of a piece arrive in whatever order,
/// each of them at least once, the buffer ends up holding the piece and no
/// byte is missing.
pub proof fn lemma_any_arrival_order(content: Seq<u8>, blocks: Seq<(u32, Seq<u8>)>)
    requires
        content.len() <= u32::MAX,
        forall|i: int|
            0 <= i < blocks.len() ==> is_block_of(content, (#[trigger] blocks[i]).0, blocks[i].1),
        forall|o: int|
            is_block_start(content.len() as int, o) ==> exists|i: int|
                0 <= i < blocks.len() && (#[trigger] blocks[i]).0 == o,
    ensures
        receive_all(fresh_piece(content.len()), blocks).data == content,
        receive_all(fresh_piece(content.len()), blocks).missing == 0,
{
    let length = content.len() as int;
    let q = receive_all(fresh_piece(content.len()), blocks);
    lemma_receive_all_agrees(content, blocks);
    assert forall|o: int| is_block_start(length, o) implies q.received.contains(o as u32) by {
        let i = choose|i: int| 0 <= i < blocks.len() && (#[trigger] blocks[i]).0 == o;
        assert(q.received.contains(blocks[i].0));
    }
    lemma_covered_full(q.received, length, block_count(length));
    assert forall|j: int| 0 <= j < length implies q.data[j] == content[j] by {
        assert(is_block_start(length, (j / 16384) * 16384));
    }
    assert(q.data =~= content);
}

/// A block whose offset was taken in before changes nothing: neither the
/// buffer nor the count of missing bytes.
pub proof fn lemma_duplicate_block(p: PieceModel, begin: u32, first: Seq<u8>, second: Seq<u8>)
    ensures
        p.received.contains(begin) ==> receive(p, begin, second) == p,
        block_verdict(p, begin, first) is Fresh ==> receive(receive(p, begin, first), begin, second)
            == receive(p, begin, first),
{
}

} // verus!
