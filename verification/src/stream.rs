//! A sequential reader over a byte slice. Its view is the input that is
//! still unread. A read of a fixed width consumes exactly that width, or
//! fails where fewer bytes are left and then consumes nothing; the stream
//! never moves back.

use vstd::prelude::*;
use vstd::slice::slice_subrange;
use crate::byte_order::{
    decode_i32, decode_i64, decode_u32, i32_of, i64_of, signed8, u32_of, Endianness,
};
use crate::error::DecodeError;

verus! {

/// A read position in a borrowed byte slice.
pub struct ByteStream<'a> {
    data: &'a [u8],
    pos: usize,
}

/// What a read of `n` bytes that decodes them to `value` leaves behind and
/// returns: the value and the input without those bytes, or `Truncated` and
/// the input as it was, none of it read, when fewer than `n` bytes are left.
pub open spec fn read_outcome<T>(
    before: Seq<u8>,
    n: int,
    value: T,
    result: Result<T, DecodeError>,
    after: Seq<u8>,
) -> bool {
    if before.len() >= n {
        result == Ok::<T, DecodeError>(value) && after == before.skip(n)
    } else {
        result == Err::<T, DecodeError>(DecodeError::Truncated) && after == before
    }
}

/// What reading from a stream comes to: what the reader returns, and the
/// input that it leaves unread. A reader that fails leaves the stream where
/// it failed: what it had read before stays read.
pub struct Outcome<T> {
    pub result: Result<T, DecodeError>,
    pub rest: Seq<u8>,
}

impl<'a> View for ByteStream<'a> {
    type V = Seq<u8>;

    /// The bytes that have not been read yet.
    closed spec fn view(&self) -> Seq<u8> {
        self.data@.skip(self.pos as int)
    }
}

impl<'a> ByteStream<'a> {
    #[verifier::type_invariant]
    spec fn in_bounds(&self) -> bool {
        self.pos <= self.data@.len()
    }

    /// A stream positioned at the first byte of `data`.
    pub fn new(data: &'a [u8]) -> (s: Self)
        ensures
            s@ == data@,
    {
        assert(data@.skip(0) =~= data@);
        ByteStream { data, pos: 0 }
    }

    /// The number of unread bytes.
    pub fn remaining(&self) -> (n: usize)
        ensures
            n == self@.len(),
    {
        proof {
            use_type_invariant(self);
        }
        self.data.len() - self.pos
    }

    /// Takes the next `n` bytes.
    pub fn read_exact(&mut self, n: usize) -> (r: Result<&'a [u8], DecodeError>)
        ensures
            old(self)@.len() >= n ==> r is Ok && r->Ok_0@ == old(self)@.take(n as int)
                && final(self)@ == old(self)@.skip(n as int),
            old(self)@.len() < n ==> r == Err::<&[u8], DecodeError>(DecodeError::Truncated)
                && final(self)@ == old(self)@,
    {
        proof {
            use_type_invariant(&*self);
        }
        if self.data.len() - self.pos < n {
            return Err(DecodeError::Truncated);
        }
        let start = self.pos;
        let chunk = slice_subrange(self.data, start, start + n);
        self.pos = start + n;
        assert(chunk@ =~= old(self)@.take(n as int));
        assert(self@ =~= old(self)@.skip(n as int));
        Ok(chunk)
    }

    /// Takes the next `n` bytes, for a length that was computed from the
    /// input and may exceed what the machine can address.
    pub fn read_span(&mut self, n: u64) -> (r: Result<&'a [u8], DecodeError>)
        ensures
            old(self)@.len() >= n ==> r is Ok && r->Ok_0@ == old(self)@.take(n as int)
                && final(self)@ == old(self)@.skip(n as int),
            old(self)@.len() < n ==> r == Err::<&[u8], DecodeError>(DecodeError::Truncated)
                && final(self)@ == old(self)@,
    {
        if n > self.remaining() as u64 {
            return Err(DecodeError::Truncated);
        }
        self.read_exact(n as usize)
    }

    /// Reads one unsigned byte.
    pub fn read_u8(&mut self) -> (r: Result<u8, DecodeError>)
        ensures
            read_outcome(old(self)@, 1, old(self)@[0], r, final(self)@),
    {
        match self.read_exact(1) {
            Ok(chunk) => Ok(chunk[0]),
            Err(e) => Err(e),
        }
    }

    /// Reads one signed byte.
    pub fn read_i8(&mut self) -> (r: Result<i8, DecodeError>)
        ensures
            read_outcome(old(self)@, 1, signed8(old(self)@[0] as int) as i8, r, final(self)@),
    {
        match self.read_exact(1) {
            Ok(chunk) => {
                let b: u8 = chunk[0];
                let v: i8 = if b < 0x80 {
                    b as i8
                } else {
                    (b as i16 - 0x100) as i8
                };
                Ok(v)
            },
            Err(e) => Err(e),
        }
    }

    /// Reads an unsigned 32-bit integer in the given byte order.
    pub fn read_u32(&mut self, order: Endianness) -> (r: Result<u32, DecodeError>)
        ensures
            read_outcome(old(self)@, 4, u32_of(order, old(self)@) as u32, r, final(self)@),
    {
        match self.read_exact(4) {
            Ok(chunk) => Ok(decode_u32(order, chunk)),
            Err(e) => Err(e),
        }
    }

    /// Reads a signed 32-bit integer in the given byte order.
    pub fn read_i32(&mut self, order: Endianness) -> (r: Result<i32, DecodeError>)
        ensures
            read_outcome(old(self)@, 4, i32_of(order, old(self)@) as i32, r, final(self)@),
    {
        match self.read_exact(4) {
            Ok(chunk) => Ok(decode_i32(order, chunk)),
            Err(e) => Err(e),
        }
    }

    /// Reads a signed 64-bit integer in the given byte order.
    pub fn read_i64(&mut self, order: Endianness) -> (r: Result<i64, DecodeError>)
        ensures
            read_outcome(old(self)@, 8, i64_of(order, old(self)@) as i64, r, final(self)@),
    {
        match self.read_exact(8) {
            Ok(chunk) => Ok(decode_i64(order, chunk)),
            Err(e) => Err(e),
        }
    }
}

} // verus!
