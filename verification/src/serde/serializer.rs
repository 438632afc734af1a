//! Write cursors: one over a buffer of fixed size, one that grows.

use super::endian::{be16, be32, be64, bool_byte, u16_to_be, u32_to_be, u64_to_be};
use super::types::SizedString;
use crate::F32Bits;
use vstd::prelude::*;

verus! {

/// Whether a target of the given capacity can hold `total` bytes; `None`
/// stands for a target that grows.
pub open spec fn holds(capacity: Option<nat>, total: nat) -> bool {
    match capacity {
        Some(c) => total <= c,
        None => true,
    }
}

/// Appending in two steps is appending the two pieces joined.
pub proof fn lemma_concat_regroup(a: Seq<u8>, b: Seq<u8>, c: Seq<u8>)
    ensures
        (a + b) + c == a + (b + c),
{
    assert((a + b) + c =~= a + (b + c));
}

/// Appending nothing changes nothing.
pub proof fn lemma_concat_nothing(a: Seq<u8>)
    ensures
        a + Seq::<u8>::empty() == a,
{
    assert(a + Seq::<u8>::empty() =~= a);
}

/// Where `now` is what stood behind `start` with `piece` appended, it is
/// `start` followed by the result, which is `acc` with `piece` appended.
pub proof fn lemma_grow(
    start: Seq<u8>,
    acc: Seq<u8>,
    piece: Seq<u8>,
    now: Seq<u8>,
) -> (grown: Seq<u8>)
    requires
        now == (start + acc) + piece,
    ensures
        grown == acc + piece,
        now == start + grown,
{
    assert((start + acc) + piece =~= start + (acc + piece));
    acc + piece
}

/// A target for big-endian values, written one behind the other. Each write
/// appends exactly the bytes of its value.
pub trait Serializer {
    /// The bytes written so far.
    spec fn written(&self) -> Seq<u8>;

    /// The number of bytes that the target can hold in all, or `None` where
    /// it grows. Writing does not change it.
    spec fn capacity(&self) -> Option<nat>;

    fn write_bool(&mut self, data: bool)
        requires
            holds(old(self).capacity(), old(self).written().len() + 1),
        ensures
            final(self).written() == old(self).written() + seq![bool_byte(data)],
            final(self).capacity() == old(self).capacity(),
    ;

    fn write_u8(&mut self, data: u8)
        requires
            holds(old(self).capacity(), old(self).written().len() + 1),
        ensures
            final(self).written() == old(self).written() + seq![data],
            final(self).capacity() == old(self).capacity(),
    ;

    fn write_u16(&mut self, data: u16)
        requires
            holds(old(self).capacity(), old(self).written().len() + 2),
        ensures
            final(self).written() == old(self).written() + be16(data),
            final(self).capacity() == old(self).capacity(),
    ;

    fn write_u32(&mut self, data: u32)
        requires
            holds(old(self).capacity(), old(self).written().len() + 4),
        ensures
            final(self).written() == old(self).written() + be32(data),
            final(self).capacity() == old(self).capacity(),
    ;

    fn write_u64(&mut self, data: u64)
        requires
            holds(old(self).capacity(), old(self).written().len() + 8),
        ensures
            final(self).written() == old(self).written() + be64(data),
            final(self).capacity() == old(self).capacity(),
    ;

    /// Writes the four bytes of a 32-bit IEEE 754 number.
    fn write_f32(&mut self, data: F32Bits)
        requires
            holds(old(self).capacity(), old(self).written().len() + 4),
        ensures
            final(self).written() == old(self).written() + be32(data),
            final(self).capacity() == old(self).capacity(),
    ;

    fn write_bytes(&mut self, data: &[u8])
        requires
            holds(old(self).capacity(), old(self).written().len() + data@.len()),
        ensures
            final(self).written() == old(self).written() + data@,
            final(self).capacity() == old(self).capacity(),
    ;

    fn write_sized_string<const SIZE: usize>(&mut self, data: &SizedString<SIZE>)
        requires
            holds(old(self).capacity(), old(self).written().len() + SIZE as nat),
        ensures
            final(self).written() == old(self).written() + data@,
            final(self).capacity() == old(self).capacity(),
    ;
}

/// Writes into a buffer that the caller provides, from its start, and never
/// past its end. The bytes behind the cursor stay as they were.
pub struct SizedSerializer<'a> {
    pub buffer: &'a mut [u8],
    pub offset: usize,
}

/// Writes into a buffer of its own that grows as needed.
pub struct DynamicSerializer {
    buffer: Vec<u8>,
}

impl<'a> SizedSerializer<'a> {
    /// The cursor stands inside the buffer or at its end.
    pub open spec fn wf(&self) -> bool {
        self.offset <= self.buffer@.len()
    }

    /// Whether the cursor has moved on by `n` bytes from where `before`
    /// stood, over a buffer of the same length, and has left the bytes
    /// behind it as they were.
    pub open spec fn advanced(&self, before: Self, n: nat) -> bool {
        &&& self.offset == before.offset + n
        &&& before.wf() ==> self.wf()
        &&& self.buffer@.len() == before.buffer@.len()
        &&& self.buffer@.skip(self.offset as int) == before.buffer@.skip(self.offset as int)
    }

    /// A cursor at the start of `buffer`. What is written through it is what
    /// `buffer` holds once the cursor is gone.
    pub fn new(buffer: &'a mut [u8]) -> (s: Self)
        ensures
            s.offset == 0,
            s.buffer@ == old(buffer)@,
            final(s.buffer)@ == final(buffer)@,
            s.wf(),
    {
        Self { buffer, offset: 0 }
    }

    fn put(&mut self, data: &[u8])
        requires
            old(self).offset + data@.len() <= old(self).buffer@.len(),
        ensures
            final(self).offset == old(self).offset + data@.len(),
            final(self).buffer@ == old(self).buffer@.take(old(self).offset as int) + data@
                + old(self).buffer@.skip(old(self).offset + data@.len()),
            final(final(self).buffer)@ == final(old(self).buffer)@,
    {
        assert(self.buffer@ =~= self.buffer@.take(self.offset as int) + data@.take(0)
            + self.buffer@.skip(self.offset as int));
        let ghost before = self.buffer@;
        let start: usize = self.offset;
        let mut i: usize = 0;
        while i < data.len()
            invariant
                i <= data@.len(),
                self.offset == start + i,
                start + data@.len() <= self.buffer@.len(),
                self.buffer@.len() == before.len(),
                self.buffer@ == before.take(start as int) + data@.take(i as int) + before.skip(
                    start + i,
                ),
                final(self.buffer)@ == final(old(self).buffer)@,
            decreases data@.len() - i,
        {
            self.buffer[self.offset] = data[i];
            self.offset += 1;
            i += 1;
            assert(self.buffer@ =~= before.take(start as int) + data@.take(i as int) + before.skip(
                start + i,
            ));
        }
        assert(data@.take(i as int) =~= data@);
    }
}

impl DynamicSerializer {
    /// A cursor over an empty buffer.
    pub fn new() -> (s: Self)
        ensures
            s.written() == Seq::<u8>::empty(),
    {
        Self { buffer: Vec::new() }
    }

    /// The bytes written.
    pub fn into_inner(self) -> (bytes: Vec<u8>)
        ensures
            bytes@ == self.written(),
    {
        self.buffer
    }
}

impl Serializer for SizedSerializer<'_> {
    open spec fn written(&self) -> Seq<u8> {
        self.buffer@.take(self.offset as int)
    }

    open spec fn capacity(&self) -> Option<nat> {
        if self.wf() {
            Some(self.buffer@.len())
        } else {
            Some(0)
        }
    }

    fn write_bool(&mut self, data: bool)
        ensures
            final(self).advanced(*old(self), 1),
            final(final(self).buffer)@ == final(old(self).buffer)@,
    {
        self.write_u8(if data { 1 } else { 0 });
    }

    fn write_u8(&mut self, data: u8)
        ensures
            final(self).advanced(*old(self), 1),
            final(final(self).buffer)@ == final(old(self).buffer)@,
    {
        let b: [u8; 1] = [data];
        assert(b@ =~= seq![data]);
        self.write_bytes(b.as_slice());
    }

    fn write_u16(&mut self, data: u16)
        ensures
            final(self).advanced(*old(self), 2),
            final(final(self).buffer)@ == final(old(self).buffer)@,
    {
        let b: [u8; 2] = u16_to_be(data);
        self.write_bytes(b.as_slice());
    }

    fn write_u32(&mut self, data: u32)
        ensures
            final(self).advanced(*old(self), 4),
            final(final(self).buffer)@ == final(old(self).buffer)@,
    {
        let b: [u8; 4] = u32_to_be(data);
        self.write_bytes(b.as_slice());
    }

    fn write_u64(&mut self, data: u64)
        ensures
            final(self).advanced(*old(self), 8),
            final(final(self).buffer)@ == final(old(self).buffer)@,
    {
        let b: [u8; 8] = u64_to_be(data);
        self.write_bytes(b.as_slice());
    }

    fn write_f32(&mut self, data: F32Bits)
        ensures
            final(self).advanced(*old(self), 4),
            final(final(self).buffer)@ == final(old(self).buffer)@,
    {
        self.write_u32(data);
    }

    fn write_bytes(&mut self, data: &[u8])
        ensures
            final(self).advanced(*old(self), data@.len()),
            final(final(self).buffer)@ == final(old(self).buffer)@,
    {
        if data.len() > 0 {
            self.put(data);
        }
        assert(self.written() =~= old(self).written() + data@);
        assert(self.buffer@.skip(self.offset as int) =~= old(self).buffer@.skip(
            self.offset as int,
        ));
    }

    fn write_sized_string<const SIZE: usize>(&mut self, data: &SizedString<SIZE>)
        ensures
            final(self).advanced(*old(self), SIZE as nat),
            final(final(self).buffer)@ == final(old(self).buffer)@,
    {
        self.write_bytes(data.data.as_slice());
    }
}

impl Serializer for DynamicSerializer {
    closed spec fn written(&self) -> Seq<u8> {
        self.buffer@
    }

    open spec fn capacity(&self) -> Option<nat> {
        None
    }

    fn write_bool(&mut self, data: bool) {
        self.write_u8(if data { 1 } else { 0 });
    }

    fn write_u8(&mut self, data: u8) {
        self.buffer.push(data);
        assert(self.buffer@ =~= old(self).buffer@ + seq![data]);
    }

    fn write_u16(&mut self, data: u16) {
        let b: [u8; 2] = u16_to_be(data);
        self.buffer.extend_from_slice(b.as_slice());
    }

    fn write_u32(&mut self, data: u32) {
        let b: [u8; 4] = u32_to_be(data);
        self.buffer.extend_from_slice(b.as_slice());
    }

    fn write_u64(&mut self, data: u64) {
        let b: [u8; 8] = u64_to_be(data);
        self.buffer.extend_from_slice(b.as_slice());
    }

    fn write_f32(&mut self, data: F32Bits) {
        self.write_u32(data);
    }

    fn write_bytes(&mut self, data: &[u8]) {
        self.buffer.extend_from_slice(data);
    }

    fn write_sized_string<const SIZE: usize>(&mut self, data: &SizedString<SIZE>) {
        self.buffer.extend_from_slice(data.data.as_slice());
    }
}

impl Default for DynamicSerializer {
    fn default() -> (s: Self)
        ensures
            s.written() == Seq::<u8>::empty(),
    {
        Self::new()
    }
}

} // verus!
