//! A writer over a borrowed block of bytes of fixed length.

use crate::model::{accepted, after_write, block_after_copy};
use vstd::prelude::*;

verus! {

/// A sink that writes into a block of memory lent by the caller.
///
/// The block never grows. The writer counts how many leading bytes of it were
/// written, and hands out those bytes and no others. Its view is that
/// readable prefix.
#[derive(Debug)]
pub struct Writer<'buf> {
    /// The block that the caller lent.
    buffer: &'buf mut [u8],
    /// How many leading bytes of `buffer` were written.
    written: usize,
}

impl<'buf> View for Writer<'buf> {
    type V = Seq<u8>;

    closed spec fn view(&self) -> Seq<u8> {
        self.buffer@.take(self.written as int)
    }
}

impl<'buf> Writer<'buf> {
    #[verifier::type_invariant]
    spec fn within_capacity(&self) -> bool {
        self.written <= self.buffer@.len()
    }

    /// The length of the block, fixed when the writer is made.
    pub closed spec fn capacity(&self) -> nat {
        self.buffer@.len()
    }

    /// Every cell of the block, the ones past the readable prefix included.
    /// No executable function hands those out; contracts use this to say
    /// which cells a call leaves alone.
    pub closed spec fn storage(&self) -> Seq<u8> {
        self.buffer@
    }

    /// Makes a writer over `buffer` with nothing written yet. What the block
    /// holds at that moment is not readable through the writer.
    pub fn new(buffer: &'buf mut [u8]) -> (writer: Self)
        ensures
            writer@ == Seq::<u8>::empty(),
            writer.capacity() == old(buffer)@.len(),
            writer.storage() == old(buffer)@,
    {
        Self { buffer, written: 0 }
    }

    /// The bytes written so far, in the order in which they were written.
    pub fn written(&self) -> (bytes: &[u8])
        ensures
            bytes@ == self@,
            bytes@.len() <= self.capacity(),
            bytes@ == self.storage().take(bytes@.len() as int),
            self.storage().len() == self.capacity(),
    {
        proof {
            use_type_invariant(self);
        }
        &self.buffer[0..self.written]
    }

    /// Forgets what was written. No cell of the block changes, but none is
    /// readable any more until it is written again.
    pub fn reset(&mut self)
        ensures
            final(self)@ == Seq::<u8>::empty(),
            final(self).capacity() == old(self).capacity(),
            final(self).storage() == old(self).storage(),
    {
        self.written = 0;
    }

    /// Appends as many leading bytes of `data` as still fit and returns how
    /// many that was. A full writer takes none; that is no error.
    pub fn write(&mut self, data: &[u8]) -> (n: usize)
        ensures
            n == accepted(old(self)@.len(), old(self).capacity(), data@.len()),
            final(self)@ == after_write(old(self)@, old(self).capacity(), data@),
            final(self).capacity() == old(self).capacity(),
            final(self).storage() == block_after_copy(
                old(self).storage(),
                old(self)@.len(),
                data@,
                n as nat,
            ),
            final(self)@.len() <= final(self).capacity(),
            old(self)@.len() == old(self).capacity() ==> n == 0 && final(self)@ == old(self)@,
    {
        proof {
            use_type_invariant(&*self);
        }
        let room: usize = self.buffer.len() - self.written;
        let n: usize = if data.len() < room {
            data.len()
        } else {
            room
        };
        let mut i: usize = 0;
        while i < n
            invariant
                i <= n <= data@.len(),
                self.written + n <= self.buffer@.len() <= usize::MAX,
                self.written == old(self).written,
                self.buffer@ == block_after_copy(
                    old(self).buffer@,
                    self.written as nat,
                    data@,
                    i as nat,
                ),
            decreases n - i,
        {
            self.buffer[self.written + i] = data[i];
            i += 1;
        }
        self.written += n;
        n
    }

    /// Does nothing: the writer holds nothing back that could be flushed.
    pub fn flush(&mut self)
        ensures
            *final(self) == *old(self),
    {
    }
}

} // verus!
