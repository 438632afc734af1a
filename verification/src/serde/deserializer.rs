//! A read cursor over a byte slice.

use super::endian::{be16_at, be32_at, be64_at};
use super::types::{zero_padded, SizedString};
use crate::F32Bits;
use vstd::prelude::*;

verus! {

/// Reads big-endian values from a byte slice, front to back. The cursor
/// never stands behind the end of the slice.
#[derive(Clone, Copy)]
pub struct Deserializer<'a> {
    buffer: &'a [u8],
    offset: usize,
}

impl<'a> Deserializer<'a> {
    #[verifier::type_invariant]
    spec fn in_bounds(self) -> bool {
        self.offset <= self.buffer@.len()
    }

    /// All the bytes of the slice, read or not.
    pub closed spec fn data(&self) -> Seq<u8> {
        self.buffer@
    }

    /// The number of bytes read so far.
    pub closed spec fn position(&self) -> nat {
        self.offset as nat
    }

    /// The bytes not read yet.
    pub open spec fn rest(&self) -> Seq<u8> {
        self.data().skip(self.position() as int)
    }

    /// A cursor at the start of `data`.
    pub fn new(data: &'a [u8]) -> (d: Self)
        ensures
            d.data() == data@,
            d.position() == 0,
    {
        Self { buffer: data, offset: 0 }
    }

    /// The number of bytes read so far.
    pub fn pos(&self) -> (p: usize)
        ensures
            p == self.position(),
            p <= self.data().len(),
    {
        proof {
            use_type_invariant(self);
        }
        self.offset
    }

    /// The number of bytes not read yet.
    pub fn remaining(&self) -> (n: usize)
        ensures
            n == self.data().len() - self.position(),
            n == self.rest().len(),
    {
        proof {
            use_type_invariant(self);
        }
        self.buffer.len() - self.offset
    }

    /// Whether every byte has been read.
    pub fn is_empty(&self) -> (b: bool)
        ensures
            b == (self.position() == self.data().len()),
    {
        self.offset == self.buffer.len()
    }

    /// Reads one byte as a truth value: zero is false, anything else true.
    pub fn read_bool(&mut self) -> (v: bool)
        requires
            old(self).position() + 1 <= old(self).data().len(),
        ensures
            v == (old(self).data()[old(self).position() as int] != 0),
            final(self).position() == old(self).position() + 1,
            final(self).data() == old(self).data(),
    {
        self.read_u8() != 0
    }

    /// Reads one byte.
    pub fn read_u8(&mut self) -> (v: u8)
        requires
            old(self).position() + 1 <= old(self).data().len(),
        ensures
            v == old(self).data()[old(self).position() as int],
            final(self).position() == old(self).position() + 1,
            final(self).data() == old(self).data(),
    {
        let value: u8 = self.buffer[self.offset];
        self.offset += 1;
        value
    }

    /// Reads a 16-bit number.
    pub fn read_u16(&mut self) -> (v: u16)
        requires
            old(self).position() + 2 <= old(self).data().len(),
        ensures
            v == be16_at(old(self).data(), old(self).position() as int),
            final(self).position() == old(self).position() + 2,
            final(self).data() == old(self).data(),
    {
        let b0: u16 = self.buffer[self.offset] as u16;
        let b1: u16 = self.buffer[self.offset + 1] as u16;
        self.offset += 2;
        b0 * 0x100 + b1
    }

    /// Reads a 32-bit number.
    pub fn read_u32(&mut self) -> (v: u32)
        requires
            old(self).position() + 4 <= old(self).data().len(),
        ensures
            v == be32_at(old(self).data(), old(self).position() as int),
            final(self).position() == old(self).position() + 4,
            final(self).data() == old(self).data(),
    {
        let b0: u32 = self.buffer[self.offset] as u32;
        let b1: u32 = self.buffer[self.offset + 1] as u32;
        let b2: u32 = self.buffer[self.offset + 2] as u32;
        let b3: u32 = self.buffer[self.offset + 3] as u32;
        self.offset += 4;
        b0 * 0x100_0000 + b1 * 0x1_0000 + b2 * 0x100 + b3
    }

    /// Reads a 64-bit number.
    pub fn read_u64(&mut self) -> (v: u64)
        requires
            old(self).position() + 8 <= old(self).data().len(),
        ensures
            v == be64_at(old(self).data(), old(self).position() as int),
            final(self).position() == old(self).position() + 8,
            final(self).data() == old(self).data(),
    {
        let b0: u64 = self.buffer[self.offset] as u64;
        let b1: u64 = self.buffer[self.offset + 1] as u64;
        let b2: u64 = self.buffer[self.offset + 2] as u64;
        let b3: u64 = self.buffer[self.offset + 3] as u64;
        let b4: u64 = self.buffer[self.offset + 4] as u64;
        let b5: u64 = self.buffer[self.offset + 5] as u64;
        let b6: u64 = self.buffer[self.offset + 6] as u64;
        let b7: u64 = self.buffer[self.offset + 7] as u64;
        self.offset += 8;
        b0 * 0x100_0000_0000_0000 + b1 * 0x1_0000_0000_0000 + b2 * 0x100_0000_0000 + b3
            * 0x1_0000_0000 + b4 * 0x100_0000 + b5 * 0x1_0000 + b6 * 0x100 + b7
    }

    /// Reads the four bytes of a 32-bit IEEE 754 number.
    pub fn read_f32(&mut self) -> (v: F32Bits)
        requires
            old(self).position() + 4 <= old(self).data().len(),
        ensures
            v == be32_at(old(self).data(), old(self).position() as int),
            final(self).position() == old(self).position() + 4,
            final(self).data() == old(self).data(),
    {
        self.read_u32()
    }

    /// Hands out the next `length` bytes.
    pub fn read_bytes(&mut self, length: usize) -> (v: &'a [u8])
        requires
            old(self).position() + length <= old(self).data().len(),
        ensures
            v@ == old(self).data().subrange(
                old(self).position() as int,
                old(self).position() + length,
            ),
            final(self).position() == old(self).position() + length,
            final(self).data() == old(self).data(),
    {
        let total: usize = self.buffer.len();
        assert(self.offset + length <= total);
        let value = vstd::slice::slice_subrange(self.buffer, self.offset, self.offset + length);
        self.offset += length;
        value
    }

    /// Reads a text field of `SIZE` bytes.
    pub fn read_sized_string<const SIZE: usize>(&mut self) -> (v: SizedString<SIZE>)
        requires
            old(self).position() + SIZE <= old(self).data().len(),
        ensures
            v@ == old(self).data().subrange(
                old(self).position() as int,
                old(self).position() + SIZE,
            ),
            final(self).position() == old(self).position() + SIZE,
            final(self).data() == old(self).data(),
    {
        let bytes = self.read_bytes(SIZE);
        let v = SizedString::new(bytes);
        assert(zero_padded(bytes@, SIZE as nat) =~= bytes@);
        v
    }
}

} // verus!
