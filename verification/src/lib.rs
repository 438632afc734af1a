//! Codec for the `.goo` print-job container of resin printers: a fixed-layout
//! header, one record per layer with a run-length and delta compressed
//! grayscale bitmap, and a closing byte sequence.
//!
//! * [`serde`] reads and writes big-endian values, one behind the other.
//! * [`chunks`] says how the pixels of a layer stand in its payload, and
//!   shows that what is encoded is decoded to the same pixels.
//! * [`encoded_layer`] holds the encoder and the decoder of payloads.
//! * [`layer_content`], [`header_info`] and [`file`] hold the records of a
//!   file, how they are written and read, and what makes a byte stream
//!   unreadable.
//! * [`preview_image`] and [`raster`] hold the pictures.
//! * [`misc`] and [`slice_config`] hold what a slicer hands over.
//!
//! Numbers with a fraction are kept as the 32 bits that the file holds of
//! them ([`F32Bits`]): the library stores and restores them and never
//! computes with them.

use vstd::prelude::*;

pub mod chunks;
pub mod default;
pub mod encoded_layer;
pub mod error;
pub mod file;
pub mod header_info;
pub mod layer_content;
pub mod misc;
pub mod preview_image;
pub mod raster;
pub mod serde;
pub mod slice_config;

pub use encoded_layer::{LayerDecoder, LayerEncoder};
pub use error::Error;
pub use file::File as GooFile;
pub use header_info::HeaderInfo;
pub use layer_content::LayerContent;
pub use misc::Run;
pub use preview_image::PreviewImage;

verus! {

/// The two bytes that close each preview image and frame each layer payload.
pub const DELIMITER: [u8; 2] = [0x0D, 0x0A];

/// The eight bytes that follow the version field of the header.
pub const MAGIC_TAG: [u8; 8] = [0x07, 0x00, 0x00, 0x00, 0x44, 0x4C, 0x50, 0x00];

/// The eleven bytes that close a file.
pub const ENDING_STRING: [u8; 11] = [
    0x00,
    0x00,
    0x00,
    0x07,
    0x00,
    0x00,
    0x00,
    0x44,
    0x4C,
    0x50,
    0x00,
];

/// A 32-bit IEEE 754 number, held as its bit pattern. The format only stores
/// and restores these values, so the library never computes with them.
pub type F32Bits = u32;

/// [`DELIMITER`] as a sequence.
pub open spec fn delimiter() -> Seq<u8> {
    seq![0x0Du8, 0x0Au8]
}

/// [`MAGIC_TAG`] as a sequence.
pub open spec fn magic_tag() -> Seq<u8> {
    seq![0x07u8, 0x00u8, 0x00u8, 0x00u8, 0x44u8, 0x4Cu8, 0x50u8, 0x00u8]
}

/// [`ENDING_STRING`] as a sequence.
pub open spec fn ending_string() -> Seq<u8> {
    seq![0x00u8, 0x00u8, 0x00u8, 0x07u8, 0x00u8, 0x00u8, 0x00u8, 0x44u8, 0x4Cu8, 0x50u8, 0x00u8]
}

/// Whether two byte slices hold the same bytes.
pub fn same_bytes(a: &[u8], b: &[u8]) -> (r: bool)
    ensures
        r == (a@ == b@),
{
    if a.len() != b.len() {
        return false;
    }
    let mut i: usize = 0;
    while i < a.len()
        invariant
            a@.len() == b@.len(),
            i <= a@.len(),
            a@.take(i as int) == b@.take(i as int),
        decreases a@.len() - i,
    {
        if a[i] != b[i] {
            return false;
        }
        assert(a@.take(i + 1) =~= a@.take(i as int).push(a@[i as int]));
        assert(b@.take(i + 1) =~= b@.take(i as int).push(b@[i as int]));
        i += 1;
    }
    assert(a@.take(i as int) =~= a@);
    assert(b@.take(i as int) =~= b@);
    true
}

/// Whether `a` is the delimiter.
pub fn is_delimiter(a: &[u8]) -> (r: bool)
    ensures
        r == (a@ == delimiter()),
{
    let d: [u8; 2] = DELIMITER;
    assert(d@ =~= delimiter());
    same_bytes(a, d.as_slice())
}

/// Whether `a` is the magic tag.
pub fn is_magic_tag(a: &[u8]) -> (r: bool)
    ensures
        r == (a@ == magic_tag()),
{
    let d: [u8; 8] = MAGIC_TAG;
    assert(d@ =~= magic_tag());
    same_bytes(a, d.as_slice())
}

/// Whether `a` is the ending sequence.
pub fn is_ending_string(a: &[u8]) -> (r: bool)
    ensures
        r == (a@ == ending_string()),
{
    let d: [u8; 11] = ENDING_STRING;
    assert(d@ =~= ending_string());
    same_bytes(a, d.as_slice())
}

} // verus!
