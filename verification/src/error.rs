//! The ways in which a byte stream can fail to be a file.

use vstd::prelude::*;

verus! {

/// Why a byte stream was rejected. Every variant is fatal: nothing is
/// returned of a stream that fails.
#[derive(Debug, Clone, Copy, PartialEq, Eq, Structural)]
pub enum Error {
    /// The buffer ends before the record does.
    UnexpectedEnd,
    /// The eight bytes after the version field are not the magic tag.
    BadMagic,
    /// A delimiter is not `0D 0A`.
    BadDelimiter,
    /// The header's size field does not hold the fixed header size.
    BadHeaderSize,
    /// A layer's length field is smaller than two.
    BadLength,
    /// The byte in front of a layer's payload is not `0x55`.
    BadMarker,
    /// The bytes behind the last layer are not the ending sequence.
    BadEnding,
}

} // verus!
