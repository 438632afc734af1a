//! Text fields of a fixed width.

use vstd::prelude::*;
use vstd::utf8::{decode_utf8, valid_utf8};

verus! {

/// A text of at most `SIZE` bytes, padded with zero bytes to exactly `SIZE`.
pub struct SizedString<const SIZE: usize> {
    pub data: [u8; SIZE],
}

/// The first `size` bytes of `data` followed by zero bytes.
pub open spec fn zero_padded(data: Seq<u8>, size: nat) -> Seq<u8> {
    Seq::new(
        size,
        |i: int|
            if i < data.len() {
                data[i]
            } else {
                0u8
            },
    )
}

/// The number of bytes in front of the first zero byte of `data`, or the
/// length of `data` where it holds none.
pub open spec fn text_len(data: Seq<u8>) -> nat
    decreases data.len(),
{
    if data.len() == 0 || data[0] == 0 {
        0
    } else {
        1 + text_len(data.skip(1))
    }
}

/// The text that Rust's lossy UTF-8 decoding makes of `bytes`: the decoded
/// characters, with U+FFFD in place of each invalid sequence.
pub uninterp spec fn utf8_lossy(bytes: Seq<u8>) -> Seq<char>;

/// `String::from_utf8_lossy`, whose result depends on the bytes alone and
/// is named [`utf8_lossy`]. Bytes that are valid UTF-8 come out as the text
/// that they encode; of other bytes nothing more is claimed.
#[verifier::external_body]
fn decode_utf8_lossy(bytes: &[u8]) -> (text: String)
    ensures
        text@ == utf8_lossy(bytes@),
        valid_utf8(bytes@) ==> text@ == decode_utf8(bytes@),
{
    String::from_utf8_lossy(bytes).into_owned()
}

impl<const SIZE: usize> View for SizedString<SIZE> {
    type V = Seq<u8>;

    open spec fn view(&self) -> Seq<u8> {
        self.data@
    }
}

impl<const SIZE: usize> SizedString<SIZE> {
    /// A field that holds exactly `data`.
    pub fn new_full(data: [u8; SIZE]) -> (s: Self)
        ensures
            s.data == data,
    {
        Self { data }
    }

    /// A field that holds the first `SIZE` bytes of `data`, padded with zero
    /// bytes where `data` is shorter. Longer input is cut off without notice.
    pub fn new(data: &[u8]) -> (s: Self)
        ensures
            s@ == zero_padded(data@, SIZE as nat),
    {
        let mut arr: [u8; SIZE] = [0u8; SIZE];
        let mut i: usize = 0;
        while i < SIZE && i < data.len()
            invariant
                i <= SIZE,
                i <= data@.len(),
                forall|j: int| 0 <= j < i ==> arr[j] == data@[j],
                forall|j: int| i <= j < SIZE ==> arr[j] == 0u8,
            decreases SIZE - i,
        {
            arr[i] = data[i];
            i += 1;
        }
        assert(arr@ =~= zero_padded(data@, SIZE as nat));
        Self { data: arr }
    }

    /// The number of bytes in front of the first zero byte.
    pub fn len(&self) -> (n: usize)
        ensures
            n == text_len(self@),
            n <= SIZE,
    {
        let mut i: usize = 0;
        assert(self@.skip(0) =~= self@);
        while i < SIZE && self.data[i] != 0
            invariant
                i <= SIZE,
                self@.len() == SIZE,
                text_len(self@) == i + text_len(self@.skip(i as int)),
            decreases SIZE - i,
        {
            assert(self@.skip(i as int).skip(1) =~= self@.skip(i + 1));
            i += 1;
        }
        i
    }

    /// The text in front of the first zero byte, decoded as UTF-8 with the
    /// replacement character in place of invalid sequences.
    pub fn to_string(&self) -> (text: String)
        ensures
            text@ == utf8_lossy(self@.take(text_len(self@) as int)),
            valid_utf8(self@.take(text_len(self@) as int)) ==> text@ == decode_utf8(
                self@.take(text_len(self@) as int),
            ),
    {
        let n: usize = self.len();
        let head = vstd::slice::slice_subrange(self.data.as_slice(), 0, n);
        assert(head@ =~= self@.take(n as int));
        decode_utf8_lossy(head)
    }
}

} // verus!
