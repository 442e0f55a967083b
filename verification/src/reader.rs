//! A forward-only cursor over a byte buffer.

use vstd::prelude::*;
use crate::error::DecodeError;

verus! {

/// Reads a borrowed byte buffer from front to back, one byte at a time.
///
/// The position never exceeds the length of the buffer and never moves
/// backwards; it is the only state that changes while decoding.
pub struct BytesReader<'a> {
    data: &'a [u8],
    cursor: usize,
}

impl<'a> BytesReader<'a> {
    /// The whole buffer, read or not.
    pub closed spec fn bytes(&self) -> Seq<u8> {
        self.data@
    }

    /// The index of the next byte to be read.
    pub closed spec fn spec_position(&self) -> usize {
        self.cursor
    }

    /// The cursor stays inside the buffer, or just behind its last byte.
    #[verifier::type_invariant]
    pub open spec fn in_bounds(&self) -> bool {
        self.position() <= self.bytes().len()
    }

    /// The bytes that have not been read yet.
    pub open spec fn remaining(&self) -> Seq<u8> {
        self.bytes().skip(self.position() as int)
    }

    /// A reader at the start of `data`.
    pub fn new(data: &'a [u8]) -> (reader: Self)
        ensures
            reader.bytes() == data@,
            reader.position() == 0,
    {
        Self { data, cursor: 0 }
    }

    /// Hands out the byte under the cursor and steps past it, or reports
    /// `TruncatedInput` and stays put when the buffer is exhausted.
    pub fn read_byte(&mut self) -> (result: Result<u8, DecodeError>)
        ensures
            final(self).bytes() == old(self).bytes(),
            old(self).position() < old(self).bytes().len() ==> result == Ok::<u8, DecodeError>(
                old(self).bytes()[old(self).position() as int],
            ) && final(self).position() == old(self).position() + 1,
            old(self).position() >= old(self).bytes().len() ==> result == Err::<u8, DecodeError>(
                DecodeError::TruncatedInput,
            ) && final(self).position() == old(self).position(),
    {
        proof {
            use_type_invariant(&*self);
        }
        if self.cursor >= self.data.len() {
            return Err(DecodeError::TruncatedInput);
        }
        let byte = self.data[self.cursor];
        self.cursor += 1;
        Ok(byte)
    }

    /// The number of bytes read so far.
    #[verifier::when_used_as_spec(spec_position)]
    pub fn position(&self) -> (position: usize)
        ensures
            position == self.spec_position(),
            position <= self.bytes().len(),
    {
        proof {
            use_type_invariant(self);
        }
        self.cursor
    }

    /// Whether every byte has been read.
    pub fn has_reached_end(&self) -> (at_end: bool)
        ensures
            at_end == (self.position() >= self.bytes().len()),
    {
        self.cursor >= self.data.len()
    }
}

} // verus!
