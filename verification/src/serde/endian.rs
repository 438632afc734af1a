//! Integers as big-endian byte sequences.

use vstd::prelude::*;

verus! {

/// The two bytes of `v`, most significant first.
pub open spec fn be16(v: u16) -> Seq<u8> {
    seq![(v / 0x100) as u8, (v % 0x100) as u8]
}

/// The four bytes of `v`, most significant first.
pub open spec fn be32(v: u32) -> Seq<u8> {
    seq![
        (v / 0x100_0000) as u8,
        (v / 0x1_0000 % 0x100) as u8,
        (v / 0x100 % 0x100) as u8,
        (v % 0x100) as u8,
    ]
}

/// The eight bytes of `v`, most significant first.
pub open spec fn be64(v: u64) -> Seq<u8> {
    seq![
        (v / 0x100_0000_0000_0000) as u8,
        (v / 0x1_0000_0000_0000 % 0x100) as u8,
        (v / 0x100_0000_0000 % 0x100) as u8,
        (v / 0x1_0000_0000 % 0x100) as u8,
        (v / 0x100_0000 % 0x100) as u8,
        (v / 0x1_0000 % 0x100) as u8,
        (v / 0x100 % 0x100) as u8,
        (v % 0x100) as u8,
    ]
}

/// The single byte that stands for `v`.
pub open spec fn bool_byte(v: bool) -> u8 {
    if v {
        1
    } else {
        0
    }
}

/// The number whose big-endian bytes are `s[at]` and `s[at + 1]`.
pub open spec fn be16_at(s: Seq<u8>, at: int) -> u16 {
    (s[at] * 0x100 + s[at + 1]) as u16
}

/// The number whose big-endian bytes are `s[at]` to `s[at + 3]`.
pub open spec fn be32_at(s: Seq<u8>, at: int) -> u32 {
    (s[at] * 0x100_0000 + s[at + 1] * 0x1_0000 + s[at + 2] * 0x100 + s[at + 3]) as u32
}

/// The number whose big-endian bytes are `s[at]` to `s[at + 7]`.
pub open spec fn be64_at(s: Seq<u8>, at: int) -> u64 {
    (s[at] * 0x100_0000_0000_0000 + s[at + 1] * 0x1_0000_0000_0000 + s[at + 2] * 0x100_0000_0000
        + s[at + 3] * 0x1_0000_0000 + s[at + 4] * 0x100_0000 + s[at + 5] * 0x1_0000 + s[at + 6]
        * 0x100 + s[at + 7]) as u64
}

/// The big-endian bytes of a 16-bit number.
pub fn u16_to_be(v: u16) -> (b: [u8; 2])
    ensures
        b@ == be16(v),
{
    let b: [u8; 2] = [(v / 0x100) as u8, (v % 0x100) as u8];
    assert(b@ =~= be16(v));
    b
}

/// The big-endian bytes of a 32-bit number.
pub fn u32_to_be(v: u32) -> (b: [u8; 4])
    ensures
        b@ == be32(v),
{
    let b: [u8; 4] = [
        (v / 0x100_0000) as u8,
        (v / 0x1_0000 % 0x100) as u8,
        (v / 0x100 % 0x100) as u8,
        (v % 0x100) as u8,
    ];
    assert(b@ =~= be32(v));
    b
}

/// The big-endian bytes of a 64-bit number.
pub fn u64_to_be(v: u64) -> (b: [u8; 8])
    ensures
        b@ == be64(v),
{
    let b: [u8; 8] = [
        (v / 0x100_0000_0000_0000) as u8,
        (v / 0x1_0000_0000_0000 % 0x100) as u8,
        (v / 0x100_0000_0000 % 0x100) as u8,
        (v / 0x1_0000_0000 % 0x100) as u8,
        (v / 0x100_0000 % 0x100) as u8,
        (v / 0x1_0000 % 0x100) as u8,
        (v / 0x100 % 0x100) as u8,
        (v % 0x100) as u8,
    ];
    assert(b@ =~= be64(v));
    b
}

/// Reading back what was written gives the number again, at any place in
/// any byte sequence.
pub proof fn lemma_be16_round_trip(v: u16, before: Seq<u8>, after: Seq<u8>)
    ensures
        be16(v).len() == 2,
        be16_at(before + be16(v) + after, before.len() as int) == v,
{
    let s = before + be16(v) + after;
    let at = before.len() as int;
    assert(s[at] == be16(v)[0]);
    assert(s[at + 1] == be16(v)[1]);
}

/// Reading back what was written gives the number again, at any place in
/// any byte sequence.
pub proof fn lemma_be32_round_trip(v: u32, before: Seq<u8>, after: Seq<u8>)
    ensures
        be32(v).len() == 4,
        be32_at(before + be32(v) + after, before.len() as int) == v,
{
    let s = before + be32(v) + after;
    let at = before.len() as int;
    assert(s[at] == be32(v)[0]);
    assert(s[at + 1] == be32(v)[1]);
    assert(s[at + 2] == be32(v)[2]);
    assert(s[at + 3] == be32(v)[3]);
}

/// Reading back what was written gives the number again, at any place in
/// any byte sequence.
pub proof fn lemma_be64_round_trip(v: u64, before: Seq<u8>, after: Seq<u8>)
    ensures
        be64(v).len() == 8,
        be64_at(before + be64(v) + after, before.len() as int) == v,
{
    let s = before + be64(v) + after;
    let at = before.len() as int;
    assert(s[at] == be64(v)[0]);
    assert(s[at + 1] == be64(v)[1]);
    assert(s[at + 2] == be64(v)[2]);
    assert(s[at + 3] == be64(v)[3]);
    assert(s[at + 4] == be64(v)[4]);
    assert(s[at + 5] == be64(v)[5]);
    assert(s[at + 6] == be64(v)[6]);
    assert(s[at + 7] == be64(v)[7]);
    assert((v / 0x100_0000_0000_0000) * 0x100_0000_0000_0000 + (v / 0x1_0000_0000_0000 % 0x100)
        * 0x1_0000_0000_0000 + (v / 0x100_0000_0000 % 0x100) * 0x100_0000_0000 + (v
        / 0x1_0000_0000 % 0x100) * 0x1_0000_0000 + (v / 0x100_0000 % 0x100) * 0x100_0000 + (v
        / 0x1_0000 % 0x100) * 0x1_0000 + (v / 0x100 % 0x100) * 0x100 + v % 0x100 == v)
        by (bit_vector);
}

/// Whether `s` is `front` followed by `back`. The definition is hidden
/// from the solver until it is asked for: a proof that walks through a record
/// field by field holds many such facts side by side.
#[verifier::opaque]
pub open spec fn joins(s: Seq<u8>, front: Seq<u8>, back: Seq<u8>) -> bool {
    s == front + back
}

/// In a sequence that holds the bytes of `v` behind `front`, `v` is read
/// at the length of `front`.
pub proof fn lemma_be16_field(front: Seq<u8>, v: u16, back: Seq<u8>, s: Seq<u8>)
    requires
        joins(s, front + be16(v), back),
    ensures
        be16_at(s, front.len() as int) == v,
        joins(s, front, be16(v) + back),
        (front + be16(v)).len() == front.len() + 2,
        s.len() >= front.len() + 2,
{
    reveal(joins);
    lemma_be16_round_trip(v, front, back);
    assert((front + be16(v)) + back =~= front + (be16(v) + back));
}

/// In a sequence that holds the bytes of `v` behind `front`, `v` is read
/// at the length of `front`.
pub proof fn lemma_be32_field(front: Seq<u8>, v: u32, back: Seq<u8>, s: Seq<u8>)
    requires
        joins(s, front + be32(v), back),
    ensures
        be32_at(s, front.len() as int) == v,
        joins(s, front, be32(v) + back),
        (front + be32(v)).len() == front.len() + 4,
        s.len() >= front.len() + 4,
{
    reveal(joins);
    lemma_be32_round_trip(v, front, back);
    assert((front + be32(v)) + back =~= front + (be32(v) + back));
}

/// In a sequence that holds the byte of `v` behind `front`, that byte
/// stands at the length of `front` and is zero exactly where `v` is false.
pub proof fn lemma_bool_field(front: Seq<u8>, v: bool, back: Seq<u8>, s: Seq<u8>)
    requires
        joins(s, front + seq![bool_byte(v)], back),
    ensures
        (s[front.len() as int] != 0) == v,
        joins(s, front, seq![bool_byte(v)] + back),
        (front + seq![bool_byte(v)]).len() == front.len() + 1,
        s.len() >= front.len() + 1,
{
    reveal(joins);
    assert((front + seq![bool_byte(v)]) + back =~= front + (seq![bool_byte(v)] + back));
    assert(s[front.len() as int] == bool_byte(v));
}

/// In a sequence that holds `bytes` behind `front`, they stand from the
/// length of `front` on.
pub proof fn lemma_bytes_field(front: Seq<u8>, bytes: Seq<u8>, back: Seq<u8>, s: Seq<u8>)
    requires
        joins(s, front + bytes, back),
    ensures
        s.subrange(front.len() as int, (front.len() + bytes.len()) as int) == bytes,
        joins(s, front, bytes + back),
        (front + bytes).len() == front.len() + bytes.len(),
        s.len() >= front.len() + bytes.len(),
{
    reveal(joins);
    assert((front + bytes) + back =~= front + (bytes + back));
    assert(s.subrange(front.len() as int, (front.len() + bytes.len()) as int) =~= bytes);
}

} // verus!
