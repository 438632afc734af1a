//! One layer of a file: its settings and its payload.

use crate::chunks::{decode, lemma_round_trip, payload, solid, whole_chunks};
use crate::encoded_layer::{LayerDecoder, LayerEncoder};
use crate::error::Error;
use crate::misc::{expand, lemma_expand_first, lemma_expand_len, runs_of, total_length, Run};
use crate::raster::GrayImage;
use crate::serde::endian::{
    be16, be16_at, be32, be32_at, joins, lemma_be16_field, lemma_be32_field, lemma_bytes_field,
};
use crate::serde::serializer::{holds, lemma_grow};
use crate::serde::{Deserializer, Serializer};
use crate::{delimiter, is_delimiter, F32Bits, DELIMITER};
use vstd::prelude::*;

verus! {

/// The byte that stands in front of each payload.
pub const PAYLOAD_MARKER: u8 = 0x55;

/// The number of bytes of a layer record in front of its payload.
pub const LAYER_HEAD_SIZE: usize = 71;

/// The number of bytes of a layer record behind its payload.
pub const LAYER_TAIL_SIZE: usize = 3;

/// One layer: how it is printed, and its picture as an encoded payload.
#[derive(Debug, Clone)]
pub struct LayerContent {
    /// Whether the printer pauses at this layer.
    pub pause_flag: u16,
    /// The height to which the plate moves for a pause.
    pub pause_position_z: F32Bits,
    /// The height of this layer.
    pub layer_position_z: F32Bits,
    /// How long this layer is exposed.
    pub layer_exposure_time: F32Bits,
    /// How long the light stays off after the exposure.
    pub layer_off_time: F32Bits,
    /// The rest before the plate lifts.
    pub before_lift_time: F32Bits,
    /// The rest after the plate has lifted.
    pub after_lift_time: F32Bits,
    /// The rest after the plate has come back.
    pub after_retract_time: F32Bits,
    /// How far the plate lifts, first stage.
    pub lift_distance: F32Bits,
    /// How fast the plate lifts, first stage.
    pub lift_speed: F32Bits,
    /// How far the plate lifts, second stage.
    pub second_lift_distance: F32Bits,
    /// How fast the plate lifts, second stage.
    pub second_lift_speed: F32Bits,
    /// How far the plate comes back, first stage.
    pub retract_distance: F32Bits,
    /// How fast the plate comes back, first stage.
    pub retract_speed: F32Bits,
    /// How far the plate comes back, second stage.
    pub second_retract_distance: F32Bits,
    /// How fast the plate comes back, second stage.
    pub second_retract_speed: F32Bits,
    /// The power of the light, 0 to 255.
    pub light_pwm: u16,
    /// The encoded picture.
    pub data: Vec<u8>,
    /// The checksum that came with the payload. Writing a layer does not use
    /// it: the checksum written is computed from the payload.
    pub checksum: u8,
}

/// The sum of the bytes of `data`.
pub open spec fn byte_sum(data: Seq<u8>) -> nat
    decreases data.len(),
{
    if data.len() == 0 {
        0
    } else {
        byte_sum(data.drop_last()) + data.last() as nat
    }
}

/// The checksum of a payload: the sum of its bytes modulo 256, with every
/// bit inverted.
pub open spec fn checksum(data: Seq<u8>) -> u8 {
    (255 - byte_sum(data) % 256) as u8
}

/// The checksum of a payload.
pub fn calculate_checksum(data: &[u8]) -> (c: u8)
    ensures
        c == checksum(data@),
{
    let mut out: u8 = 0;
    let mut i: usize = 0;
    while i < data.len()
        invariant
            i <= data@.len(),
            out == byte_sum(data@.take(i as int)) % 256,
        decreases data@.len() - i,
    {
        assert(data@.take(i + 1).drop_last() =~= data@.take(i as int));
        out = out.wrapping_add(data[i]);
        i += 1;
    }
    assert(data@.take(i as int) =~= data@);
    assert(!out == 255 - out) by (bit_vector);
    !out
}

/// Changing one byte of a payload changes its checksum.
pub proof fn lemma_checksum_detects_one_byte(data: Seq<u8>, at: int, byte: u8)
    requires
        0 <= at < data.len(),
        byte != data[at],
    ensures
        checksum(data.update(at, byte)) != checksum(data),
{
    lemma_byte_sum_update(data, at, byte);
}

/// Changing one byte changes the sum by the difference of the two bytes.
proof fn lemma_byte_sum_update(data: Seq<u8>, at: int, byte: u8)
    requires
        0 <= at < data.len(),
    ensures
        byte_sum(data.update(at, byte)) == byte_sum(data) - data[at] + byte,
    decreases data.len(),
{
    let changed = data.update(at, byte);
    if at == data.len() - 1 {
        assert(changed.drop_last() =~= data.drop_last());
    } else {
        assert(changed.drop_last() =~= data.drop_last().update(at, byte));
        lemma_byte_sum_update(data.drop_last(), at, byte);
    }
}

/// The sum of two pieces is the sum of their sums.
proof fn lemma_byte_sum_concat(a: Seq<u8>, b: Seq<u8>)
    ensures
        byte_sum(a + b) == byte_sum(a) + byte_sum(b),
    decreases b.len(),
{
    if b.len() == 0 {
        assert(a + b =~= a);
    } else {
        assert((a + b).drop_last() =~= a + b.drop_last());
        lemma_byte_sum_concat(a, b.drop_last());
    }
}

/// Leaving out one byte takes it off the sum.
proof fn lemma_byte_sum_remove(data: Seq<u8>, at: int)
    requires
        0 <= at < data.len(),
    ensures
        byte_sum(data) == byte_sum(data.remove(at)) + data[at],
{
    let front = data.subrange(0, at);
    let back = data.subrange(at + 1, data.len() as int);
    let one = seq![data[at]];
    assert(data =~= (front + one) + back);
    assert(one.drop_last() =~= Seq::<u8>::empty());
    assert(byte_sum(Seq::<u8>::empty()) == 0);
    assert(byte_sum(one) == data[at]);
    lemma_byte_sum_concat(front + one, back);
    lemma_byte_sum_concat(front, one);
    lemma_byte_sum_concat(front, back);
}

/// The sum of the bytes does not depend on their order.
proof fn lemma_byte_sum_ignores_order(a: Seq<u8>, b: Seq<u8>)
    requires
        a.to_multiset() == b.to_multiset(),
    ensures
        byte_sum(a) == byte_sum(b),
    decreases a.len(),
{
    vstd::seq_lib::to_multiset_len(a);
    vstd::seq_lib::to_multiset_len(b);
    if a.len() > 0 {
        let x = a.last();
        let last = a.len() - 1;
        vstd::seq_lib::to_multiset_contains(a, x);
        vstd::seq_lib::to_multiset_contains(b, x);
        assert(a[last] == x);
        assert(a.contains(x));
        let at = choose|at: int| 0 <= at < b.len() && b[at] == x;
        vstd::seq_lib::to_multiset_remove(a, last);
        vstd::seq_lib::to_multiset_remove(b, at);
        assert(a.remove(last) =~= a.drop_last());
        lemma_byte_sum_ignores_order(a.drop_last(), b.remove(at));
        lemma_byte_sum_remove(b, at);
    }
}

/// The checksum of a payload does not depend on the order of its bytes.
pub proof fn lemma_checksum_ignores_order(a: Seq<u8>, b: Seq<u8>)
    requires
        a.to_multiset() == b.to_multiset(),
    ensures
        checksum(a) == checksum(b),
{
    lemma_byte_sum_ignores_order(a, b);
}

/// Appends `count` bytes of `value`.
fn push_solid(out: &mut Vec<u8>, count: usize, value: u8)
    ensures
        final(out)@ == old(out)@ + solid(count as nat, value),
{
    let mut i: usize = 0;
    assert(out@ =~= old(out)@ + solid(0, value));
    while i < count
        invariant
            i <= count,
            out@ == old(out)@ + solid(i as nat, value),
        decreases count - i,
    {
        out.push(value);
        i += 1;
        assert(out@ =~= old(out)@ + solid(i as nat, value));
    }
}

impl LayerContent {
    /// The payload is short enough for the 32-bit length field of the record.
    pub open spec fn wf(&self) -> bool {
        self.data@.len() + 2 <= u32::MAX
    }

    /// This layer as it is read back once it has been written: with the
    /// checksum of its payload in place of the one it holds.
    pub open spec fn as_stored(self) -> LayerContent {
        LayerContent { checksum: checksum(self.data@), ..self }
    }

    /// Whether the settings are those of `other`; the payload and its
    /// checksum may differ.
    pub open spec fn same_settings(&self, other: LayerContent) -> bool {
        &&& self.pause_flag == other.pause_flag
        &&& self.pause_position_z == other.pause_position_z
        &&& self.layer_position_z == other.layer_position_z
        &&& self.layer_exposure_time == other.layer_exposure_time
        &&& self.layer_off_time == other.layer_off_time
        &&& self.before_lift_time == other.before_lift_time
        &&& self.after_lift_time == other.after_lift_time
        &&& self.after_retract_time == other.after_retract_time
        &&& self.lift_distance == other.lift_distance
        &&& self.lift_speed == other.lift_speed
        &&& self.second_lift_distance == other.second_lift_distance
        &&& self.second_lift_speed == other.second_lift_speed
        &&& self.retract_distance == other.retract_distance
        &&& self.retract_speed == other.retract_speed
        &&& self.second_retract_distance == other.second_retract_distance
        &&& self.second_retract_speed == other.second_retract_speed
        &&& self.light_pwm == other.light_pwm
    }

    /// The settings as they stand in a record: 64 bytes.
    #[verifier::opaque]
    pub open spec fn settings_bytes(&self) -> Seq<u8> {
        be16(self.pause_flag)
            + be32(self.pause_position_z)
            + be32(self.layer_position_z)
            + be32(self.layer_exposure_time)
            + be32(self.layer_off_time)
            + be32(self.before_lift_time)
            + be32(self.after_lift_time)
            + be32(self.after_retract_time)
            + be32(self.lift_distance)
            + be32(self.lift_speed)
            + be32(self.second_lift_distance)
            + be32(self.second_lift_speed)
            + be32(self.retract_distance)
            + be32(self.retract_speed)
            + be32(self.second_retract_distance)
            + be32(self.second_retract_speed)
            + be16(self.light_pwm)
    }

    /// The record of this layer: the settings, a delimiter, the length of
    /// what follows up to the checksum, the marker, the payload, its
    /// checksum and a delimiter.
    #[verifier::opaque]
    pub open spec fn bytes(&self) -> Seq<u8> {
        self.settings_bytes() + delimiter() + be32((self.data@.len() + 2) as u32)
            + seq![PAYLOAD_MARKER] + self.data@ + seq![checksum(self.data@)] + delimiter()
    }

    /// A record is 74 bytes longer than its payload.
    pub proof fn lemma_bytes_len(&self)
        ensures
            self.settings_bytes().len() == 64,
            self.bytes().len() == 74 + self.data@.len(),
    {
        reveal(LayerContent::settings_bytes);
        reveal(LayerContent::bytes);
    }

    /// Whether the fields are what the record at the start of `s` holds.
    #[verifier::opaque]
    pub open spec fn decoded_from(&self, s: Seq<u8>) -> bool {
        &&& self.pause_flag == be16_at(s, 0)
        &&& self.pause_position_z == be32_at(s, 2)
        &&& self.layer_position_z == be32_at(s, 6)
        &&& self.layer_exposure_time == be32_at(s, 10)
        &&& self.layer_off_time == be32_at(s, 14)
        &&& self.before_lift_time == be32_at(s, 18)
        &&& self.after_lift_time == be32_at(s, 22)
        &&& self.after_retract_time == be32_at(s, 26)
        &&& self.lift_distance == be32_at(s, 30)
        &&& self.lift_speed == be32_at(s, 34)
        &&& self.second_lift_distance == be32_at(s, 38)
        &&& self.second_lift_speed == be32_at(s, 42)
        &&& self.retract_distance == be32_at(s, 46)
        &&& self.retract_speed == be32_at(s, 50)
        &&& self.second_retract_distance == be32_at(s, 54)
        &&& self.second_retract_speed == be32_at(s, 58)
        &&& self.light_pwm == be16_at(s, 62)
        &&& self.data@ == s.subrange(71, 69 + be32_at(s, 66))
        &&& self.checksum == s[69 + be32_at(s, 66)]
    }

    /// Writes the record of this layer.
    pub fn serialize<T: Serializer>(&self, ser: &mut T)
        requires
            self.wf(),
            holds(old(ser).capacity(), old(ser).written().len() + self.bytes().len()),
        ensures
            final(ser).written() == old(ser).written() + self.bytes(),
            final(ser).capacity() == old(ser).capacity(),
    {
        let ghost before = ser.written();
        proof {
            self.lemma_bytes_len();
        }
        ser.write_u16(self.pause_flag);
        let ghost mut acc = be16(self.pause_flag);
        ser.write_f32(self.pause_position_z);
        proof {
            acc = lemma_grow(before, acc, be32(self.pause_position_z), ser.written());
        }
        ser.write_f32(self.layer_position_z);
        proof {
            acc = lemma_grow(before, acc, be32(self.layer_position_z), ser.written());
        }
        ser.write_f32(self.layer_exposure_time);
        proof {
            acc = lemma_grow(before, acc, be32(self.layer_exposure_time), ser.written());
        }
        ser.write_f32(self.layer_off_time);
        proof {
            acc = lemma_grow(before, acc, be32(self.layer_off_time), ser.written());
        }
        ser.write_f32(self.before_lift_time);
        proof {
            acc = lemma_grow(before, acc, be32(self.before_lift_time), ser.written());
        }
        ser.write_f32(self.after_lift_time);
        proof {
            acc = lemma_grow(before, acc, be32(self.after_lift_time), ser.written());
        }
        ser.write_f32(self.after_retract_time);
        proof {
            acc = lemma_grow(before, acc, be32(self.after_retract_time), ser.written());
        }
        ser.write_f32(self.lift_distance);
        proof {
            acc = lemma_grow(before, acc, be32(self.lift_distance), ser.written());
        }
        ser.write_f32(self.lift_speed);
        proof {
            acc = lemma_grow(before, acc, be32(self.lift_speed), ser.written());
        }
        ser.write_f32(self.second_lift_distance);
        proof {
            acc = lemma_grow(before, acc, be32(self.second_lift_distance), ser.written());
        }
        ser.write_f32(self.second_lift_speed);
        proof {
            acc = lemma_grow(before, acc, be32(self.second_lift_speed), ser.written());
        }
        ser.write_f32(self.retract_distance);
        proof {
            acc = lemma_grow(before, acc, be32(self.retract_distance), ser.written());
        }
        ser.write_f32(self.retract_speed);
        proof {
            acc = lemma_grow(before, acc, be32(self.retract_speed), ser.written());
        }
        ser.write_f32(self.second_retract_distance);
        proof {
            acc = lemma_grow(before, acc, be32(self.second_retract_distance), ser.written());
        }
        ser.write_f32(self.second_retract_speed);
        proof {
            acc = lemma_grow(before, acc, be32(self.second_retract_speed), ser.written());
        }
        ser.write_u16(self.light_pwm);
        proof {
            acc = lemma_grow(before, acc, be16(self.light_pwm), ser.written());
        }
        assert(acc == self.settings_bytes()) by {
            reveal(LayerContent::settings_bytes);
        }
        let delimiter: [u8; 2] = DELIMITER;
        assert(delimiter@ =~= crate::delimiter());
        ser.write_bytes(delimiter.as_slice());
        proof {
            acc = lemma_grow(before, acc, crate::delimiter(), ser.written());
        }
        ser.write_u32(self.data.len() as u32 + 2);
        proof {
            acc = lemma_grow(before, acc, be32((self.data@.len() + 2) as u32), ser.written());
        }
        let marker: [u8; 1] = [PAYLOAD_MARKER];
        assert(marker@ =~= seq![PAYLOAD_MARKER]);
        ser.write_bytes(marker.as_slice());
        proof {
            acc = lemma_grow(before, acc, seq![PAYLOAD_MARKER], ser.written());
        }
        ser.write_bytes(self.data.as_slice());
        proof {
            acc = lemma_grow(before, acc, self.data@, ser.written());
        }
        ser.write_u8(calculate_checksum(self.data.as_slice()));
        proof {
            acc = lemma_grow(before, acc, seq![checksum(self.data@)], ser.written());
        }
        ser.write_bytes(delimiter.as_slice());
        proof {
            acc = lemma_grow(before, acc, crate::delimiter(), ser.written());
        }
        assert(acc == self.bytes()) by {
            reveal(LayerContent::bytes);
        }
    }

    /// Reads the record of a layer. The cursor moves behind the record, or
    /// stays where it is if the record is refused.
    ///
    /// The checksum is read and kept, not tested: see
    /// [`Self::checksum_matches`].
    pub fn deserialize(des: &mut Deserializer) -> (r: Result<Self, Error>)
        ensures
            final(des).data() == old(des).data(),
            match r {
                Ok(layer) => {
                    &&& record_len(old(des).rest()) == Ok::<nat, Error>(
                        (final(des).position() - old(des).position()) as nat,
                    )
                    &&& final(des).position() >= old(des).position()
                    &&& layer.decoded_from(old(des).rest())
                    &&& layer.wf()
                },
                Err(e) => {
                    &&& record_len(old(des).rest()) == Err::<nat, Error>(e)
                    &&& final(des).position() == old(des).position()
                },
            },
    {
        let left: usize = des.remaining();
        if left < LAYER_HEAD_SIZE {
            return Err(Error::UnexpectedEnd);
        }
        let ghost s = des.rest();
        let mut probe: Deserializer = *des;
        let record = probe.read_bytes(left);
        assert(record@ =~= s);
        let mut cur: Deserializer = Deserializer::new(record);
        let pause_flag: u16 = cur.read_u16();
        let pause_position_z: F32Bits = cur.read_f32();
        let layer_position_z: F32Bits = cur.read_f32();
        let layer_exposure_time: F32Bits = cur.read_f32();
        let layer_off_time: F32Bits = cur.read_f32();
        let before_lift_time: F32Bits = cur.read_f32();
        let after_lift_time: F32Bits = cur.read_f32();
        let after_retract_time: F32Bits = cur.read_f32();
        let lift_distance: F32Bits = cur.read_f32();
        let lift_speed: F32Bits = cur.read_f32();
        let second_lift_distance: F32Bits = cur.read_f32();
        let second_lift_speed: F32Bits = cur.read_f32();
        let retract_distance: F32Bits = cur.read_f32();
        let retract_speed: F32Bits = cur.read_f32();
        let second_retract_distance: F32Bits = cur.read_f32();
        let second_retract_speed: F32Bits = cur.read_f32();
        let light_pwm: u16 = cur.read_u16();
        let opening = cur.read_bytes(2);
        assert(opening@ =~= s.subrange(64, 66));
        if !is_delimiter(opening) {
            return Err(Error::BadDelimiter);
        }
        let stated: u32 = cur.read_u32();
        if stated < 2 {
            return Err(Error::BadLength);
        }
        let marker: u8 = cur.read_u8();
        if marker != PAYLOAD_MARKER {
            return Err(Error::BadMarker);
        }
        let data_len: u32 = stated - 2;
        if ((left - LAYER_HEAD_SIZE) as u64) < data_len as u64 + LAYER_TAIL_SIZE as u64 {
            return Err(Error::UnexpectedEnd);
        }
        let data = cur.read_bytes(data_len as usize);
        assert(data@ =~= s.subrange(71, 69 + stated));
        let checksum: u8 = cur.read_u8();
        let closing = cur.read_bytes(2);
        assert(closing@ =~= s.subrange(70 + stated, 72 + stated));
        if !is_delimiter(closing) {
            return Err(Error::BadDelimiter);
        }
        let taken: usize = cur.pos();
        des.read_bytes(taken);
        proof {
            reveal(LayerContent::decoded_from);
        }
        Ok(
            Self {
                pause_flag,
                pause_position_z,
                layer_position_z,
                layer_exposure_time,
                layer_off_time,
                before_lift_time,
                after_lift_time,
                after_retract_time,
                lift_distance,
                lift_speed,
                second_lift_distance,
                second_lift_speed,
                retract_distance,
                retract_speed,
                second_retract_distance,
                second_retract_speed,
                light_pwm,
                data: vstd::slice::slice_to_vec(data),
                checksum,
            },
        )
    }

    /// Whether the payload is short enough to be written: see [`Self::wf`].
    pub fn is_well_formed(&self) -> (b: bool)
        ensures
            b == self.wf(),
    {
        self.data.len() <= (u32::MAX - 2) as usize
    }

    /// Whether the checksum that came with the payload is the checksum of
    /// the payload. A mismatch is a warning to the caller, not an error of
    /// the record.
    pub fn checksum_matches(&self) -> (b: bool)
        ensures
            b == (self.checksum == checksum(self.data@)),
    {
        self.checksum == calculate_checksum(self.data.as_slice())
    }

    /// The number of pixels that the payload stands for, or `None` where
    /// the payload is not made of whole chunks or the number does not fit.
    /// A layer covers a picture of `width` by `height` pixels exactly where
    /// this is `Some(width * height)`.
    pub fn pixel_count(&self) -> (r: Option<u64>)
        ensures
            r == (if whole_chunks(self.data@) && total_length(decode(self.data@, 0)) <= u64::MAX {
                Some(total_length(decode(self.data@, 0)) as u64)
            } else {
                None
            }),
    {
        let decoder = LayerDecoder::new(self.data.as_slice());
        assert(decoder.rest() =~= self.data@);
        decoder.pixel_count()
    }

    /// The pixels of this layer, row by row.
    ///
    /// The payload must stand for exactly `width * height` pixels, which
    /// [`Self::pixel_count`] tells.
    pub fn decode_pixels(&self, width: u32, height: u32) -> (pixels: Vec<u8>)
        requires
            width * height <= u32::MAX,
            whole_chunks(self.data@),
            total_length(decode(self.data@, 0)) == width * height,
        ensures
            pixels@ == expand(decode(self.data@, 0)),
            pixels@.len() == width * height,
    {
        let mut out: Vec<u8> = Vec::with_capacity((width * height) as usize);
        let mut decoder = LayerDecoder::new(self.data.as_slice());
        assert(decoder.rest() =~= self.data@);
        let ghost all = decode(self.data@, 0);
        proof {
            lemma_expand_len(all);
        }
        loop
            invariant
                whole_chunks(decoder.rest()),
                all == decode(self.data@, 0),
                out@ + expand(decoder.runs()) == expand(all),
                expand(all).len() == width * height,
                width * height <= u32::MAX,
                decoder.position() <= decoder.payload().len(),
            decreases decoder.payload().len() - decoder.position(),
        {
            match decoder.next() {
                None => {
                    assert(expand(Seq::<Run>::empty()) =~= Seq::<u8>::empty());
                    assert(out@ =~= expand(all));
                    return out;
                },
                Some(run) => {
                    proof {
                        lemma_expand_first(run, decoder.runs());
                        lemma_expand_len(decoder.runs());
                        assert(out@.len() + run.length + expand(decoder.runs()).len() == expand(
                            all,
                        ).len());
                    }
                    let ghost seen = out@;
                    push_solid(&mut out, run.length as usize, run.value);
                    assert(out@ + expand(decoder.runs()) =~= seen + (solid(
                        run.length as nat,
                        run.value,
                    ) + expand(decoder.runs())));
                },
            }
        }
    }

    /// Replaces the picture of this layer by `pixels`, given row by row.
    ///
    /// Neighbouring pixels of one value become one run, and the runs are
    /// encoded in order. Decoding the new payload gives `pixels` back, and
    /// the checksum is that of the new payload. For an empty picture the
    /// payload is empty.
    pub fn set_pixels(&mut self, width: u32, height: u32, pixels: &[u8])
        requires
            width * height <= u32::MAX,
            pixels@.len() == width * height,
        ensures
            final(self).data@ == payload(runs_of(pixels@)),
            whole_chunks(final(self).data@),
            expand(decode(final(self).data@, 0)) == pixels@,
            total_length(decode(final(self).data@, 0)) == width * height,
            final(self).checksum == checksum(final(self).data@),
            final(self).same_settings(*old(self)),
    {
        proof {
            lemma_round_trip(pixels@);
        }
        if pixels.len() == 0 {
            self.data.clear();
            self.checksum = calculate_checksum(self.data.as_slice());
            assert(payload(runs_of(pixels@)) =~= Seq::<u8>::empty());
            return ;
        }
        let mut encoder = LayerEncoder::new();
        let mut run_value: u8 = pixels[0];
        let mut run_length: u64 = 1;
        let mut i: usize = 1;
        proof {
            let one = pixels@.take(1);
            assert(one.drop_last() =~= Seq::<u8>::empty());
            assert(runs_of(Seq::<u8>::empty()) =~= Seq::<Run>::empty());
            assert(runs_of(one) =~= encoder@.push(Run { length: 1, value: run_value }));
        }
        while i < pixels.len()
            invariant
                1 <= i <= pixels@.len(),
                encoder.wf(),
                run_length <= i,
                runs_of(pixels@.take(i as int)) == encoder@.push(
                    Run { length: run_length, value: run_value },
                ),
            decreases pixels@.len() - i,
        {
            let value: u8 = pixels[i];
            proof {
                assert(pixels@.take(i + 1).drop_last() =~= pixels@.take(i as int));
                let before = runs_of(pixels@.take(i as int));
                assert(before.drop_last() =~= encoder@);
            }
            if value == run_value {
                run_length += 1;
            } else {
                encoder.add_run(run_length, run_value);
                run_value = value;
                run_length = 1;
            }
            i += 1;
        }
        assert(pixels@.take(i as int) =~= pixels@);
        encoder.add_run(run_length, run_value);
        let (data, checksum) = encoder.finish();
        self.data = data;
        self.checksum = checksum;
    }

    /// The picture of this layer.
    ///
    /// The payload must stand for exactly `width * height` pixels, which
    /// [`Self::pixel_count`] tells.
    pub fn to_image(&self, width: u32, height: u32) -> (image: GrayImage)
        requires
            width * height <= u32::MAX,
            whole_chunks(self.data@),
            total_length(decode(self.data@, 0)) == width * height,
        ensures
            image.columns() == width,
            image.rows() == height,
            image.raw() == expand(decode(self.data@, 0)),
    {
        let pixels: Vec<u8> = self.decode_pixels(width, height);
        GrayImage::from_vec(width, height, pixels).unwrap()
    }

    /// Replaces the picture of this layer by `image`, whose buffer must be
    /// exactly as long as the picture has pixels: see [`Self::set_pixels`].
    pub fn set_from_image(&mut self, image: &GrayImage)
        requires
            image.columns() * image.rows() <= u32::MAX,
            image.raw().len() == image.columns() * image.rows(),
        ensures
            final(self).data@ == payload(runs_of(image.raw())),
            whole_chunks(final(self).data@),
            expand(decode(final(self).data@, 0)) == image.raw(),
            total_length(decode(final(self).data@, 0)) == image.columns() * image.rows(),
            final(self).checksum == checksum(final(self).data@),
            final(self).same_settings(*old(self)),
    {
        let pixels = image.as_raw();
        self.set_pixels(image.width(), image.height(), pixels.as_slice());
    }
}

/// The number of bytes of the layer record at the start of `s`, or why
/// there is none. The tests are made in the order of the record: enough
/// bytes up to the marker, the first delimiter, the length, the marker,
/// enough bytes for what the length announces, the second delimiter.
pub open spec fn record_len(s: Seq<u8>) -> Result<nat, Error> {
    if s.len() < 71 {
        Err(Error::UnexpectedEnd)
    } else if s.subrange(64, 66) != delimiter() {
        Err(Error::BadDelimiter)
    } else if be32_at(s, 66) < 2 {
        Err(Error::BadLength)
    } else if s[70] != PAYLOAD_MARKER {
        Err(Error::BadMarker)
    } else if s.len() < 72 + be32_at(s, 66) {
        Err(Error::UnexpectedEnd)
    } else if s.subrange(70 + be32_at(s, 66), 72 + be32_at(s, 66)) != delimiter() {
        Err(Error::BadDelimiter)
    } else {
        Ok((72 + be32_at(s, 66)) as nat)
    }
}

/// The settings that were written are read back, whatever follows them.
proof fn lemma_settings_round_trip(layer: LayerContent, rest: Seq<u8>)
    ensures
        layer.settings_bytes().len() == 64,
        be16_at(layer.settings_bytes() + rest, 0) == layer.pause_flag,
        be32_at(layer.settings_bytes() + rest, 2) == layer.pause_position_z,
        be32_at(layer.settings_bytes() + rest, 6) == layer.layer_position_z,
        be32_at(layer.settings_bytes() + rest, 10) == layer.layer_exposure_time,
        be32_at(layer.settings_bytes() + rest, 14) == layer.layer_off_time,
        be32_at(layer.settings_bytes() + rest, 18) == layer.before_lift_time,
        be32_at(layer.settings_bytes() + rest, 22) == layer.after_lift_time,
        be32_at(layer.settings_bytes() + rest, 26) == layer.after_retract_time,
        be32_at(layer.settings_bytes() + rest, 30) == layer.lift_distance,
        be32_at(layer.settings_bytes() + rest, 34) == layer.lift_speed,
        be32_at(layer.settings_bytes() + rest, 38) == layer.second_lift_distance,
        be32_at(layer.settings_bytes() + rest, 42) == layer.second_lift_speed,
        be32_at(layer.settings_bytes() + rest, 46) == layer.retract_distance,
        be32_at(layer.settings_bytes() + rest, 50) == layer.retract_speed,
        be32_at(layer.settings_bytes() + rest, 54) == layer.second_retract_distance,
        be32_at(layer.settings_bytes() + rest, 58) == layer.second_retract_speed,
        be16_at(layer.settings_bytes() + rest, 62) == layer.light_pwm,
{
    let s = layer.settings_bytes() + rest;
    // The settings as they grow, field by field.
    let a0 = Seq::<u8>::empty();
    let a1 = a0 + be16(layer.pause_flag);
    assert(a1 =~= be16(layer.pause_flag));
    assert(a1.len() == 2);
    let a2 = a1 + be32(layer.pause_position_z);
    assert(a2.len() == 6);
    let a3 = a2 + be32(layer.layer_position_z);
    assert(a3.len() == 10);
    let a4 = a3 + be32(layer.layer_exposure_time);
    assert(a4.len() == 14);
    let a5 = a4 + be32(layer.layer_off_time);
    assert(a5.len() == 18);
    let a6 = a5 + be32(layer.before_lift_time);
    assert(a6.len() == 22);
    let a7 = a6 + be32(layer.after_lift_time);
    assert(a7.len() == 26);
    let a8 = a7 + be32(layer.after_retract_time);
    assert(a8.len() == 30);
    let a9 = a8 + be32(layer.lift_distance);
    assert(a9.len() == 34);
    let a10 = a9 + be32(layer.lift_speed);
    assert(a10.len() == 38);
    let a11 = a10 + be32(layer.second_lift_distance);
    assert(a11.len() == 42);
    let a12 = a11 + be32(layer.second_lift_speed);
    assert(a12.len() == 46);
    let a13 = a12 + be32(layer.retract_distance);
    assert(a13.len() == 50);
    let a14 = a13 + be32(layer.retract_speed);
    assert(a14.len() == 54);
    let a15 = a14 + be32(layer.second_retract_distance);
    assert(a15.len() == 58);
    let a16 = a15 + be32(layer.second_retract_speed);
    assert(a16.len() == 62);
    let a17 = a16 + be16(layer.light_pwm);
    assert(a17.len() == 64);
    assert(layer.settings_bytes() == a17 && joins(s, a17, rest)) by {
        reveal(LayerContent::settings_bytes);
        reveal(joins);
    }
    // From the last field to the first: each is read where the fields in
    // front of it end.
    let t17 = rest;
    lemma_be16_field(a16, layer.light_pwm, t17, s);
    let t16 = be16(layer.light_pwm) + t17;
    lemma_be32_field(a15, layer.second_retract_speed, t16, s);
    let t15 = be32(layer.second_retract_speed) + t16;
    lemma_be32_field(a14, layer.second_retract_distance, t15, s);
    let t14 = be32(layer.second_retract_distance) + t15;
    lemma_be32_field(a13, layer.retract_speed, t14, s);
    let t13 = be32(layer.retract_speed) + t14;
    lemma_be32_field(a12, layer.retract_distance, t13, s);
    let t12 = be32(layer.retract_distance) + t13;
    lemma_be32_field(a11, layer.second_lift_speed, t12, s);
    let t11 = be32(layer.second_lift_speed) + t12;
    lemma_be32_field(a10, layer.second_lift_distance, t11, s);
    let t10 = be32(layer.second_lift_distance) + t11;
    lemma_be32_field(a9, layer.lift_speed, t10, s);
    let t9 = be32(layer.lift_speed) + t10;
    lemma_be32_field(a8, layer.lift_distance, t9, s);
    let t8 = be32(layer.lift_distance) + t9;
    lemma_be32_field(a7, layer.after_retract_time, t8, s);
    let t7 = be32(layer.after_retract_time) + t8;
    lemma_be32_field(a6, layer.after_lift_time, t7, s);
    let t6 = be32(layer.after_lift_time) + t7;
    lemma_be32_field(a5, layer.before_lift_time, t6, s);
    let t5 = be32(layer.before_lift_time) + t6;
    lemma_be32_field(a4, layer.layer_off_time, t5, s);
    let t4 = be32(layer.layer_off_time) + t5;
    lemma_be32_field(a3, layer.layer_exposure_time, t4, s);
    let t3 = be32(layer.layer_exposure_time) + t4;
    lemma_be32_field(a2, layer.layer_position_z, t3, s);
    let t2 = be32(layer.layer_position_z) + t3;
    lemma_be32_field(a1, layer.pause_position_z, t2, s);
    let t1 = be32(layer.pause_position_z) + t2;
    lemma_be16_field(a0, layer.pause_flag, t1, s);
}

/// Where the parts of a written record stand.
proof fn lemma_record_layout(layer: LayerContent, rest: Seq<u8>)
    requires
        layer.wf(),
    ensures
        layer.bytes().len() == 74 + layer.data@.len(),
        (layer.bytes() + rest).len() >= 74 + layer.data@.len(),
        forall|i: int|
            0 <= i < 64 ==> (layer.bytes() + rest)[i] == (layer.settings_bytes() + rest)[i],
        (layer.bytes() + rest).subrange(64, 66) == delimiter(),
        be32_at(layer.bytes() + rest, 66) == layer.data@.len() + 2,
        (layer.bytes() + rest)[70] == PAYLOAD_MARKER,
        (layer.bytes() + rest).subrange(71, 71 + layer.data@.len() as int) == layer.data@,
        (layer.bytes() + rest)[71 + layer.data@.len() as int] == checksum(layer.data@),
        (layer.bytes() + rest).subrange(
            72 + layer.data@.len() as int,
            74 + layer.data@.len() as int,
        ) == delimiter(),
{
    layer.lemma_bytes_len();
    let n = layer.data@.len() as int;
    let stated = (n + 2) as u32;
    let s = layer.bytes() + rest;
    let mark = delimiter();
    let marker = seq![PAYLOAD_MARKER];
    let sum = seq![checksum(layer.data@)];
    // The record as it grows, part by part.
    let a1 = layer.settings_bytes();
    let a2 = a1 + mark;
    let a3 = a2 + be32(stated);
    let a4 = a3 + marker;
    let a5 = a4 + layer.data@;
    let a6 = a5 + sum;
    assert(a2.len() == 66);
    assert(a3.len() == 70);
    assert(a4.len() == 71);
    assert(a5.len() == 71 + n);
    assert(a6.len() == 72 + n);
    assert(joins(s, a6 + mark, rest)) by {
        reveal(LayerContent::bytes);
        reveal(joins);
    }
    // From the last part to the first: each stands where the parts in
    // front of it end.
    lemma_bytes_field(a6, mark, rest, s);
    let t6 = mark + rest;
    lemma_bytes_field(a5, sum, t6, s);
    let t5 = sum + t6;
    lemma_bytes_field(a4, layer.data@, t5, s);
    let t4 = layer.data@ + t5;
    lemma_bytes_field(a3, marker, t4, s);
    let t3 = marker + t4;
    lemma_be32_field(a2, stated, t3, s);
    let t2 = be32(stated) + t3;
    lemma_bytes_field(a1, mark, t2, s);
    assert(s.subrange(70, 71)[0] == s[70]);
    assert(s.subrange(71 + n, 72 + n)[0] == s[71 + n]);
    assert forall|i: int| 0 <= i < 64 implies s[i] == (layer.settings_bytes() + rest)[i] by {
        reveal(joins);
    }
}

/// A record that was written is read back, whatever follows it: it is in
/// order, and it holds the settings and the payload of the layer and the
/// checksum of the payload.
pub proof fn lemma_record_round_trip(layer: LayerContent, rest: Seq<u8>)
    requires
        layer.wf(),
    ensures
        layer.bytes().len() == 74 + layer.data@.len(),
        record_len(layer.bytes() + rest) == Ok::<nat, Error>(layer.bytes().len()),
        forall|other: LayerContent| #[trigger]
            other.decoded_from(layer.bytes() + rest) <==> other.same_settings(layer)
                && other.data@ == layer.data@ && other.checksum == checksum(layer.data@),
{
    let s = layer.bytes() + rest;
    lemma_record_layout(layer, rest);
    lemma_settings_round_trip(layer, rest);
    assert(be16_at(s, 0) == be16_at(layer.settings_bytes() + rest, 0));
    assert(be16_at(s, 62) == be16_at(layer.settings_bytes() + rest, 62));
    assert forall|at: int| 0 <= at <= 60 implies #[trigger] be32_at(s, at) == be32_at(
        layer.settings_bytes() + rest,
        at,
    ) by {}
    assert forall|other: LayerContent| #[trigger]
        other.decoded_from(s) <==> other.same_settings(layer) && other.data@ == layer.data@
            && other.checksum == checksum(layer.data@) by {
        reveal(LayerContent::decoded_from);
    }
}

} // verus!
