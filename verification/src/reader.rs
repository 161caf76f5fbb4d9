//! An in-memory byte source with a read position.

use crate::endian::be32_signed;
use crate::endian::be32_unsigned;
use crate::endian::be64_signed;
use crate::endian::be64_unsigned;
use crate::endian::read_be_i32;
use crate::endian::read_be_i64;
use crate::endian::read_be_u32;
use crate::endian::read_be_u64;
use vstd::prelude::*;
use vstd::slice::slice_subrange;
use vstd::slice::slice_to_vec;

verus! {

/// Why a value could not be decoded.
#[derive(Clone, Copy, Debug, PartialEq, Eq, Structural)]
pub enum ReadError {
    /// The source holds fewer bytes than the value needs: so many more
    /// are needed for the read that failed.
    Truncated(usize),
    /// The bytes of a text value are not well-formed UTF-8.
    InvalidUtf8,
    /// The bytes of a UUID value are not sixteen in number.
    InvalidUuid,
}

/// The error of a read of `width` bytes at `at` that finds fewer: it
/// tells how many bytes are missing.
pub open spec fn missing_at(bytes: Seq<u8>, at: int, width: int) -> ReadError {
    ReadError::Truncated((at + width - bytes.len()) as usize)
}

/// A byte source: a fixed sequence of bytes and the offset of the next
/// byte to read.
pub struct ByteReader {
    data: Vec<u8>,
    pos: usize,
}

impl ByteReader {
    #[verifier::type_invariant]
    spec fn in_bounds(self) -> bool {
        self.pos <= self.data@.len()
    }

    /// All the bytes of the source, read or not.
    pub closed spec fn bytes(&self) -> Seq<u8> {
        self.data@
    }

    /// The number of bytes read so far.
    pub closed spec fn offset(&self) -> int {
        self.pos as int
    }

    /// The bytes between `from` and `from + n`.
    pub open spec fn window(&self, from: int, n: int) -> Seq<u8> {
        self.bytes().subrange(from, from + n)
    }

    /// A source over `data`, positioned at its first byte.
    pub fn new(data: Vec<u8>) -> (r: Self)
        ensures
            r.bytes() == data@,
            r.offset() == 0,
    {
        ByteReader { data, pos: 0 }
    }

    /// The number of bytes read so far.
    pub fn position(&self) -> (p: usize)
        ensures
            p == self.offset(),
            0 <= self.offset() <= self.bytes().len(),
    {
        proof {
            use_type_invariant(self);
        }
        self.pos
    }

    /// The number of bytes not yet read.
    pub fn remaining(&self) -> (n: usize)
        ensures
            n == self.bytes().len() - self.offset(),
            0 <= self.offset() <= self.bytes().len(),
    {
        proof {
            use_type_invariant(self);
        }
        self.data.len() - self.pos
    }

    /// Reads the next `n` bytes, or fails without reading when fewer are
    /// left.
    pub fn read_bytes(&mut self, n: usize) -> (r: Result<Vec<u8>, ReadError>)
        ensures
            final(self).bytes() == old(self).bytes(),
            0 <= old(self).offset() <= old(self).bytes().len(),
            match r {
                Ok(taken) => {
                    &&& old(self).offset() + n <= old(self).bytes().len()
                    &&& taken@ == old(self).window(old(self).offset(), n as int)
                    &&& final(self).offset() == old(self).offset() + n
                },
                Err(e) => {
                    &&& e == missing_at(old(self).bytes(), old(self).offset(), n as int)
                    &&& old(self).offset() + n > old(self).bytes().len()
                    &&& final(self).offset() == old(self).offset()
                },
            },
    {
        proof {
            use_type_invariant(&*self);
        }
        let left = self.data.len() - self.pos;
        if n > left {
            return Err(ReadError::Truncated(n - left));
        }
        let taken = slice_to_vec(slice_subrange(self.data.as_slice(), self.pos, self.pos + n));
        self.pos = self.pos + n;
        Ok(taken)
    }

    /// Reads four bytes as an unsigned big-endian number.
    pub fn read_u32(&mut self) -> (r: Result<u32, ReadError>)
        ensures
            final(self).bytes() == old(self).bytes(),
            0 <= old(self).offset() <= old(self).bytes().len(),
            match r {
                Ok(n) => {
                    &&& old(self).offset() + 4 <= old(self).bytes().len()
                    &&& n == be32_unsigned(old(self).window(old(self).offset(), 4))
                    &&& final(self).offset() == old(self).offset() + 4
                },
                Err(e) => {
                    &&& e == missing_at(old(self).bytes(), old(self).offset(), 4)
                    &&& old(self).offset() + 4 > old(self).bytes().len()
                    &&& final(self).offset() == old(self).offset()
                },
            },
    {
        proof {
            use_type_invariant(&*self);
        }
        let left = self.data.len() - self.pos;
        if 4 > left {
            return Err(ReadError::Truncated(4 - left));
        }
        let n = read_be_u32(slice_subrange(self.data.as_slice(), self.pos, self.pos + 4));
        self.pos = self.pos + 4;
        Ok(n)
    }

    /// Reads four bytes as a two's complement big-endian number.
    pub fn read_i32(&mut self) -> (r: Result<i32, ReadError>)
        ensures
            final(self).bytes() == old(self).bytes(),
            0 <= old(self).offset() <= old(self).bytes().len(),
            match r {
                Ok(n) => {
                    &&& old(self).offset() + 4 <= old(self).bytes().len()
                    &&& n == be32_signed(old(self).window(old(self).offset(), 4))
                    &&& final(self).offset() == old(self).offset() + 4
                },
                Err(e) => {
                    &&& e == missing_at(old(self).bytes(), old(self).offset(), 4)
                    &&& old(self).offset() + 4 > old(self).bytes().len()
                    &&& final(self).offset() == old(self).offset()
                },
            },
    {
        proof {
            use_type_invariant(&*self);
        }
        let left = self.data.len() - self.pos;
        if 4 > left {
            return Err(ReadError::Truncated(4 - left));
        }
        let n = read_be_i32(slice_subrange(self.data.as_slice(), self.pos, self.pos + 4));
        self.pos = self.pos + 4;
        Ok(n)
    }

    /// Reads eight bytes as an unsigned big-endian number.
    pub fn read_u64(&mut self) -> (r: Result<u64, ReadError>)
        ensures
            final(self).bytes() == old(self).bytes(),
            0 <= old(self).offset() <= old(self).bytes().len(),
            match r {
                Ok(n) => {
                    &&& old(self).offset() + 8 <= old(self).bytes().len()
                    &&& n == be64_unsigned(old(self).window(old(self).offset(), 8))
                    &&& final(self).offset() == old(self).offset() + 8
                },
                Err(e) => {
                    &&& e == missing_at(old(self).bytes(), old(self).offset(), 8)
                    &&& old(self).offset() + 8 > old(self).bytes().len()
                    &&& final(self).offset() == old(self).offset()
                },
            },
    {
        proof {
            use_type_invariant(&*self);
        }
        let left = self.data.len() - self.pos;
        if 8 > left {
            return Err(ReadError::Truncated(8 - left));
        }
        let n = read_be_u64(slice_subrange(self.data.as_slice(), self.pos, self.pos + 8));
        self.pos = self.pos + 8;
        Ok(n)
    }

    /// Reads eight bytes as a two's complement big-endian number.
    pub fn read_i64(&mut self) -> (r: Result<i64, ReadError>)
        ensures
            final(self).bytes() == old(self).bytes(),
            0 <= old(self).offset() <= old(self).bytes().len(),
            match r {
                Ok(n) => {
                    &&& old(self).offset() + 8 <= old(self).bytes().len()
                    &&& n == be64_signed(old(self).window(old(self).offset(), 8))
                    &&& final(self).offset() == old(self).offset() + 8
                },
                Err(e) => {
                    &&& e == missing_at(old(self).bytes(), old(self).offset(), 8)
                    &&& old(self).offset() + 8 > old(self).bytes().len()
                    &&& final(self).offset() == old(self).offset()
                },
            },
    {
        proof {
            use_type_invariant(&*self);
        }
        let left = self.data.len() - self.pos;
        if 8 > left {
            return Err(ReadError::Truncated(8 - left));
        }
        let n = read_be_i64(slice_subrange(self.data.as_slice(), self.pos, self.pos + 8));
        self.pos = self.pos + 8;
        Ok(n)
    }
}

} // verus!
