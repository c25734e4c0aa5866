//! The mathematical model of a bounded sink: what a block of fixed capacity
//! holds after bytes were offered to it, stated over sequences.

use vstd::prelude::*;

verus! {

/// How many of `offered` bytes a sink of `capacity` bytes that already holds
/// `held` of them takes: the smaller of what is offered and what room is left.
pub open spec fn accepted(held: nat, capacity: nat, offered: nat) -> nat
    recommends
        held <= capacity,
{
    vstd::math::min(offered as int, capacity - held) as nat
}

/// The readable contents after `data` was offered to a sink that held `contents`.
pub open spec fn after_write(contents: Seq<u8>, capacity: nat, data: Seq<u8>) -> Seq<u8> {
    contents + data.take(accepted(contents.len(), capacity, data.len()) as int)
}

/// The whole block after `count` bytes of `data` were copied to position `at`:
/// the cells `at .. at + count` hold the bytes, every other cell is as before.
pub open spec fn block_after_copy(block: Seq<u8>, at: nat, data: Seq<u8>, count: nat) -> Seq<u8> {
    Seq::new(
        block.len(),
        |i: int|
            if at <= i < at + count {
                data[i - at]
            } else {
                block[i]
            },
    )
}

/// The first `limit` items of `bytes`, or all of them where there are fewer.
pub open spec fn truncated(bytes: Seq<u8>, limit: nat) -> Seq<u8> {
    if bytes.len() <= limit {
        bytes
    } else {
        bytes.take(limit as int)
    }
}

/// A write never leaves more readable bytes than the block has cells, and the
/// readable bytes grow by exactly what the write took.
pub proof fn lemma_write_within_capacity(contents: Seq<u8>, capacity: nat, data: Seq<u8>)
    requires
        contents.len() <= capacity,
    ensures
        after_write(contents, capacity, data).len() == contents.len() + accepted(
            contents.len(),
            capacity,
            data.len(),
        ),
        after_write(contents, capacity, data).len() <= capacity,
        accepted(contents.len(), capacity, data.len()) <= data.len(),
{
}

/// A write keeps what was readable before it, in place, and puts the bytes
/// it took behind it, in the order in which they were offered.
pub proof fn lemma_write_keeps_prefix(contents: Seq<u8>, capacity: nat, data: Seq<u8>)
    requires
        contents.len() <= capacity,
    ensures
        after_write(contents, capacity, data).take(contents.len() as int) == contents,
        forall|i: int|
            0 <= i < accepted(contents.len(), capacity, data.len()) ==> after_write(
                contents,
                capacity,
                data,
            )[contents.len() + i] == data[i],
{
    assert(after_write(contents, capacity, data).take(contents.len() as int) =~= contents);
}

/// A full writer takes no byte, and a write leaves what it holds as it was.
pub proof fn lemma_full_takes_nothing(contents: Seq<u8>, capacity: nat, data: Seq<u8>)
    requires
        contents.len() == capacity,
    ensures
        accepted(contents.len(), capacity, data.len()) == 0,
        after_write(contents, capacity, data) == contents,
{
    assert(after_write(contents, capacity, data) =~= contents);
}

/// To write is to append and then cut at the capacity: if a writer holds the
/// bytes `offered` cut at the capacity, then after a write of `data` it holds
/// `offered + data` cut at the capacity.
pub proof fn lemma_write_is_truncated_append(offered: Seq<u8>, capacity: nat, data: Seq<u8>)
    ensures
        after_write(truncated(offered, capacity), capacity, data) == truncated(
            offered + data,
            capacity,
        ),
{
    assert(after_write(truncated(offered, capacity), capacity, data) =~= truncated(
        offered + data,
        capacity,
    ));
}

} // verus!
