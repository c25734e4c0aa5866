//! What a writer holds after any run of calls, and the laws of such runs.

use crate::model::{
    accepted, after_write, lemma_full_takes_nothing, lemma_write_is_truncated_append, truncated,
};
use vstd::prelude::*;

verus! {

/// One call on a writer, with what it was given.
pub enum Call {
    /// `write` with these bytes.
    Write(Seq<u8>),
    /// `flush`.
    Flush,
    /// `reset`.
    Reset,
}

/// The run of calls that writes each of `data` in turn.
pub open spec fn writes_of(data: Seq<Seq<u8>>) -> Seq<Call> {
    Seq::new(data.len(), |i: int| Call::Write(data[i]))
}

/// The readable contents after `call` on a writer that held `contents`.
pub open spec fn after_call(contents: Seq<u8>, capacity: nat, call: Call) -> Seq<u8> {
    match call {
        Call::Write(data) => after_write(contents, capacity, data),
        Call::Flush => contents,
        Call::Reset => Seq::empty(),
    }
}

/// The readable contents of a writer of `capacity` bytes after `calls`, made
/// in that order on a new writer.
pub open spec fn after_calls(capacity: nat, calls: Seq<Call>) -> Seq<u8>
    decreases calls.len(),
{
    if calls.len() == 0 {
        Seq::empty()
    } else {
        after_call(after_calls(capacity, calls.drop_last()), capacity, calls.last())
    }
}

/// All the bytes that the writes since the last `reset` offered, in order,
/// whether they fitted or not.
pub open spec fn offered_since_reset(calls: Seq<Call>) -> Seq<u8>
    decreases calls.len(),
{
    if calls.len() == 0 {
        Seq::empty()
    } else {
        match calls.last() {
            Call::Write(data) => offered_since_reset(calls.drop_last()) + data,
            Call::Flush => offered_since_reset(calls.drop_last()),
            Call::Reset => Seq::empty(),
        }
    }
}

/// The sum of what the writes since the last `reset` returned: how many bytes
/// were copied into the block since then.
pub open spec fn copied_since_reset(capacity: nat, calls: Seq<Call>) -> nat
    decreases calls.len(),
{
    if calls.len() == 0 {
        0
    } else {
        let before = calls.drop_last();
        match calls.last() {
            Call::Write(data) => copied_since_reset(capacity, before) + accepted(
                after_calls(capacity, before).len(),
                capacity,
                data.len(),
            ),
            Call::Flush => copied_since_reset(capacity, before),
            Call::Reset => 0,
        }
    }
}

/// After any run of calls a writer holds no more readable bytes than its
/// block has cells.
pub proof fn lemma_never_beyond_capacity(capacity: nat, calls: Seq<Call>)
    ensures
        after_calls(capacity, calls).len() <= capacity,
    decreases calls.len(),
{
    if calls.len() > 0 {
        lemma_never_beyond_capacity(capacity, calls.drop_last());
    }
}

/// After any run of calls a writer holds the bytes that the writes since the
/// last `reset` offered, in order, cut at the capacity.
pub proof fn lemma_holds_truncated_offer(capacity: nat, calls: Seq<Call>)
    ensures
        after_calls(capacity, calls) == truncated(offered_since_reset(calls), capacity),
    decreases calls.len(),
{
    if calls.len() > 0 {
        let before = calls.drop_last();
        lemma_holds_truncated_offer(capacity, before);
        match calls.last() {
            Call::Write(data) => {
                lemma_write_is_truncated_append(offered_since_reset(before), capacity, data);
            },
            Call::Flush => {},
            Call::Reset => {},
        }
    }
}

/// After any run of calls a writer holds exactly as many readable bytes as
/// were copied into its block since the last `reset`: no more than that, no
/// more than the block has cells, and no more than was offered.
pub proof fn lemma_holds_what_was_copied(capacity: nat, calls: Seq<Call>)
    ensures
        after_calls(capacity, calls).len() == copied_since_reset(capacity, calls),
        copied_since_reset(capacity, calls) <= capacity,
        copied_since_reset(capacity, calls) <= offered_since_reset(calls).len(),
    decreases calls.len(),
{
    if calls.len() > 0 {
        lemma_holds_what_was_copied(capacity, calls.drop_last());
        lemma_never_beyond_capacity(capacity, calls.drop_last());
    }
}

/// Whatever came before, a writer holds nothing readable right after `reset`.
pub proof fn lemma_reset_empties(capacity: nat, calls: Seq<Call>)
    ensures
        after_calls(capacity, calls.push(Call::Reset)) == Seq::<u8>::empty(),
        copied_since_reset(capacity, calls.push(Call::Reset)) == 0,
{
    assert(calls.push(Call::Reset).last() == Call::Reset);
}

/// Once a writer is full, every further write returns 0 and leaves what it
/// holds as it was, however many follow.
pub proof fn lemma_full_stays_full(capacity: nat, calls: Seq<Call>, more: Seq<Seq<u8>>)
    requires
        after_calls(capacity, calls).len() == capacity,
    ensures
        after_calls(capacity, calls + writes_of(more)) == after_calls(capacity, calls),
        forall|i: int|
            0 <= i < more.len() ==> accepted(
                after_calls(capacity, calls + writes_of(more.take(i))).len(),
                capacity,
                (#[trigger] more[i]).len(),
            ) == 0,
    decreases more.len(),
{
    if more.len() == 0 {
        assert(calls + writes_of(more) =~= calls);
    } else {
        let fewer = more.drop_last();
        lemma_full_stays_full(capacity, calls, fewer);
        let run = calls + writes_of(more);
        assert(run.drop_last() =~= calls + writes_of(fewer));
        assert(run.last() == Call::Write(more.last()));
        lemma_full_takes_nothing(after_calls(capacity, calls), capacity, more.last());
        assert forall|i: int| 0 <= i < more.len() implies accepted(
            after_calls(capacity, calls + writes_of(more.take(i))).len(),
            capacity,
            (#[trigger] more[i]).len(),
        ) == 0 by {
            if i < fewer.len() {
                assert(more.take(i) =~= fewer.take(i));
                assert(more[i] == fewer[i]);
            } else {
                assert(more.take(i) =~= fewer);
            }
        }
    }
}

} // verus!
