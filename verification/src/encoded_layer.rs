//! The encoder and the decoder of layer payloads.

use crate::chunks::{
    chunk_len, chunk_run, decode, delta_chunk, encode_run, head_len, literal_chunk, payload,
    whole_chunks, MAX_DELTA, MAX_DELTA_RUN, MAX_LITERAL_RUN,
};
use crate::default::FULL_LIGHT;
use crate::layer_content::{calculate_checksum, checksum, LayerContent};
use crate::misc::{last_value, lemma_expand_first, total_length, EncodableLayer, Run};
use crate::slice_config::{ExposureConfig, SliceConfig};
use crate::F32Bits;
use vstd::prelude::*;

verus! {

/// Builds the payload of a layer from its runs, in the order in which they
/// are added.
///
/// Every pixel of the layer must be covered by a run: the printer decodes
/// into a buffer that it does not clear, so pixels that no run covers keep
/// what the layer before left there.
pub struct LayerEncoder {
    data: Vec<u8>,
    last_value: u8,
    runs: Ghost<Seq<Run>>,
}

/// Reads the runs of a layer payload, front to back.
#[derive(Clone, Copy)]
pub struct LayerDecoder<'a> {
    data: &'a [u8],
    color: u8,
    offset: usize,
}

/// Appends the literal chunk for `length` pixels of `value`.
fn push_literal(data: &mut Vec<u8>, length: u64, value: u8)
    requires
        length <= MAX_LITERAL_RUN,
    ensures
        final(data)@ == old(data)@ + literal_chunk(length, value),
{
    let chunk_type: u8 = if value == 0x00 {
        0b00
    } else if value == 0xFF {
        0b11
    } else {
        0b01
    };
    let chunk_length_size: u8 = if length <= 0x000_000F {
        0b00
    } else if length <= 0x000_0FFF {
        0b01
    } else if length <= 0x00F_FFFF {
        0b10
    } else {
        0b11
    };
    let low: u8 = (length & 0x0F) as u8;
    let b1: u8 = (length >> 20) as u8;
    let b2: u8 = (length >> 12) as u8;
    let b3: u8 = (length >> 4) as u8;
    assert(low == length % 16 && b1 == (length / 0x10_0000 % 0x100) as u8 && b2 == (length / 0x1000
        % 0x100) as u8 && b3 == (length / 0x10 % 0x100) as u8) by (bit_vector)
        requires
            low == (length & 0x0F) as u8,
            b1 == (length >> 20) as u8,
            b2 == (length >> 12) as u8,
            b3 == (length >> 4) as u8,
    ;
    let head: u8 = (chunk_type << 6) | (chunk_length_size << 4) | low;
    assert(head == chunk_type * 64 + chunk_length_size * 16 + low) by (bit_vector)
        requires
            chunk_type < 4,
            chunk_length_size < 4,
            low < 16,
            head == (chunk_type << 6) | (chunk_length_size << 4) | low,
    ;
    data.push(head);
    if chunk_type == 0b01 {
        data.push(value);
    }
    if chunk_length_size == 1 {
        data.push(b3);
    } else if chunk_length_size == 2 {
        data.push(b2);
        data.push(b3);
    } else if chunk_length_size == 3 {
        data.push(b1);
        data.push(b2);
        data.push(b3);
    }
    assert(data@ =~= old(data)@ + literal_chunk(length, value));
}

/// Appends the distance chunk for `length` pixels of `value` behind a run of
/// `last`.
fn push_delta(data: &mut Vec<u8>, last: u8, length: u64, value: u8)
    requires
        length <= MAX_DELTA_RUN,
        -15 <= value - last <= 15,
    ensures
        final(data)@ == old(data)@ + delta_chunk(last, length, value),
{
    let sign: u8 = if value < last {
        1
    } else {
        0
    };
    let distance: u8 = if value < last {
        last - value
    } else {
        value - last
    };
    let more: u8 = if length != 1 {
        1
    } else {
        0
    };
    let head: u8 = (0b10 << 6) | (sign << 5) | (more << 4) | distance;
    assert(head == 128 + sign * 32 + more * 16 + distance) by (bit_vector)
        requires
            sign < 2,
            more < 2,
            distance < 16,
            head == (0b10u8 << 6) | (sign << 5) | (more << 4) | distance,
    ;
    data.push(head);
    if length != 1 {
        data.push(length as u8);
    }
    assert(data@ =~= old(data)@ + delta_chunk(last, length, value));
}

impl View for LayerEncoder {
    type V = Seq<Run>;

    /// The runs added so far.
    closed spec fn view(&self) -> Seq<Run> {
        self.runs@
    }
}

impl LayerEncoder {
    /// The buffer holds the payload of the runs added so far.
    pub closed spec fn wf(&self) -> bool {
        &&& self.data@ == payload(self.runs@)
        &&& self.last_value == last_value(self.runs@)
    }

    /// An encoder to which no run has been added.
    pub fn new() -> (e: Self)
        ensures
            e.wf(),
            e@ == Seq::<Run>::empty(),
    {
        Self { data: Vec::new(), last_value: 0, runs: Ghost(Seq::empty()) }
    }

    /// Adds a run of `length` pixels of `value`.
    ///
    /// A black or white run is written as literal chunks. Any other run is
    /// written as a distance from the run before it where there is one and
    /// the two values are at most 15 apart, and as a gray chunk otherwise. A
    /// run too long for one chunk is written as several.
    pub fn add_run(&mut self, length: u64, value: u8)
        requires
            old(self).wf(),
        ensures
            final(self).wf(),
            final(self)@ == old(self)@.push(Run { length, value }),
    {
        let ghost start = self.data@;
        let ghost fresh = self.data@.len() == 0;
        let ghost last = self.last_value;
        let mut left: u64 = length;
        loop
            invariant_except_break
                self.runs == old(self).runs,
                start + encode_run(fresh, last, length, value) == self.data@ + encode_run(
                    self.data@.len() == 0,
                    self.last_value,
                    left,
                    value,
                ),
            ensures
                self.runs == old(self).runs,
                self.last_value == value,
                self.data@ == start + encode_run(fresh, last, length, value),
            decreases left,
        {
            let ghost here = self.data@;
            let ghost rest = encode_run(here.len() == 0, self.last_value, left, value);
            let near: bool = if value < self.last_value {
                self.last_value - value <= MAX_DELTA
            } else {
                value - self.last_value <= MAX_DELTA
            };
            let part: u64;
            if value != 0x00 && value != 0xFF && !self.data.is_empty() && near {
                part = if left > MAX_DELTA_RUN {
                    MAX_DELTA_RUN
                } else {
                    left
                };
                push_delta(&mut self.data, self.last_value, part, value);
            } else {
                part = if left > MAX_LITERAL_RUN {
                    MAX_LITERAL_RUN
                } else {
                    left
                };
                push_literal(&mut self.data, part, value);
            }
            self.last_value = value;
            if part == left {
                assert(self.data@ == here + rest);
                break ;
            }
            left = left - part;
            proof {
                let tail = encode_run(false, value, left, value);
                assert(self.data@ + tail =~= here + rest);
            }
        }
        self.runs = Ghost(self.runs@.push(Run { length, value }));
        assert(self.runs@.drop_last() =~= old(self).runs@);
    }

    /// The payload of the runs added, and its checksum.
    pub fn finish(self) -> (r: (Vec<u8>, u8))
        requires
            self.wf(),
        ensures
            r.0@ == payload(self@),
            r.1 == checksum(payload(self@)),
    {
        let checksum: u8 = calculate_checksum(self.data.as_slice());
        (self.data, checksum)
    }
}

/// The exposure of layer number `layer`, counted from zero: that of the
/// first layers while the number is below their count, the other one from
/// there on.
pub open spec fn exposure_of(layer: usize, config: SliceConfig) -> ExposureConfig {
    if (layer as u32) < config.first_layers {
        config.first_exposure_config
    } else {
        config.exposure_config
    }
}

impl EncodableLayer for LayerEncoder {
    type Output = LayerContent;

    open spec fn added(&self) -> Seq<Run> {
        self@
    }

    open spec fn ready(&self) -> bool {
        self.wf()
    }

    fn new() -> (e: Self) {
        LayerEncoder::new()
    }

    fn add_run(&mut self, length: u64, value: u8) {
        LayerEncoder::add_run(self, length, value);
    }

    /// The layer holds the payload of the runs added and its checksum, the
    /// given height, the exposure and the motion of its group of layers, and
    /// the height of the build volume as the place to pause at. Its light is
    /// at full power, and every other setting is zero.
    open spec fn finished(
        &self,
        layer: usize,
        config: SliceConfig,
        layer_position_z: F32Bits,
        out: LayerContent,
    ) -> bool {
        &&& out.data@ == payload(self@)
        &&& out.checksum == checksum(payload(self@))
        &&& out.layer_position_z == layer_position_z
        &&& out.layer_exposure_time == exposure_of(layer, config).exposure_time
        &&& out.lift_distance == exposure_of(layer, config).lift_distance
        &&& out.lift_speed == exposure_of(layer, config).lift_speed
        &&& out.retract_distance == exposure_of(layer, config).retract_distance
        &&& out.retract_speed == exposure_of(layer, config).retract_speed
        &&& out.pause_position_z == config.platform_size[2]
        &&& out.pause_flag == 0
        &&& out.layer_off_time == 0
        &&& out.before_lift_time == 0
        &&& out.after_lift_time == 0
        &&& out.after_retract_time == 0
        &&& out.second_lift_distance == 0
        &&& out.second_lift_speed == 0
        &&& out.second_retract_distance == 0
        &&& out.second_retract_speed == 0
        &&& out.light_pwm == FULL_LIGHT
    }

    fn finish(self, layer: usize, config: &SliceConfig, layer_position_z: F32Bits) -> LayerContent {
        let (data, checksum) = LayerEncoder::finish(self);
        let layer_exposure: ExposureConfig = if (layer as u32) < config.first_layers {
            config.first_exposure_config
        } else {
            config.exposure_config
        };
        let mut out: LayerContent = LayerContent::default();
        out.data = data;
        out.checksum = checksum;
        out.layer_position_z = layer_position_z;
        out.layer_exposure_time = layer_exposure.exposure_time;
        out.lift_distance = layer_exposure.lift_distance;
        out.lift_speed = layer_exposure.lift_speed;
        out.retract_distance = layer_exposure.retract_distance;
        out.retract_speed = layer_exposure.retract_speed;
        out.pause_position_z = config.platform_size[2];
        out
    }
}

impl Default for LayerEncoder {
    fn default() -> (e: Self)
        ensures
            e.wf(),
            e@ == Seq::<Run>::empty(),
    {
        Self::new()
    }
}

/// The number of bytes of a chunk whose first byte is `head`.
fn chunk_size(head: u8) -> (n: usize)
    ensures
        n == head_len(head),
        1 <= n <= 5,
{
    let chunk_type: u8 = head >> 6;
    let chunk_length_size: u8 = head >> 4 & 0x03;
    assert(chunk_type == head / 64 && chunk_length_size == head / 16 % 4) by (bit_vector)
        requires
            chunk_type == head >> 6,
            chunk_length_size == head >> 4 & 0x03,
    ;
    if chunk_type == 0b10 {
        if chunk_length_size % 2 == 1 {
            2
        } else {
            1
        }
    } else if chunk_type == 0b01 {
        2 + chunk_length_size as usize
    } else {
        1 + chunk_length_size as usize
    }
}

impl<'a> LayerDecoder<'a> {
    #[verifier::type_invariant]
    spec fn in_bounds(self) -> bool {
        self.offset <= self.data@.len()
    }

    /// The whole payload, read or not.
    pub closed spec fn payload(&self) -> Seq<u8> {
        self.data@
    }

    /// The number of bytes read so far.
    pub closed spec fn position(&self) -> nat {
        self.offset as nat
    }

    /// The value of the last run read, or zero where none has been read.
    pub closed spec fn color(&self) -> u8 {
        self.color
    }

    /// The bytes not read yet.
    pub open spec fn rest(&self) -> Seq<u8> {
        self.payload().skip(self.position() as int)
    }

    /// The runs not read yet.
    pub open spec fn runs(&self) -> Seq<Run> {
        decode(self.rest(), self.color())
    }

    /// A decoder at the start of `data`.
    pub fn new(data: &'a [u8]) -> (d: Self)
        ensures
            d.payload() == data@,
            d.position() == 0,
            d.color() == 0,
    {
        Self { data, color: 0, offset: 0 }
    }

    /// The checksum of the whole payload.
    pub fn checksum(&self) -> (c: u8)
        ensures
            c == checksum(self.payload()),
    {
        calculate_checksum(self.data)
    }

    /// Whether the bytes not read yet are whole chunks, so that every call
    /// of [`Self::next`] from here on is in order.
    pub fn is_well_formed(&self) -> (b: bool)
        ensures
            b == whole_chunks(self.rest()),
    {
        proof {
            use_type_invariant(self);
        }
        let total: usize = self.data.len();
        let mut at: usize = self.offset;
        while at < total
            invariant
                at <= total,
                total == self.data@.len(),
                whole_chunks(self.rest()) == whole_chunks(self.data@.skip(at as int)),
            decreases total - at,
        {
            let n: usize = chunk_size(self.data[at]);
            let ghost here = self.data@.skip(at as int);
            assert(here[0] == self.data@[at as int]);
            if n > total - at {
                return false;
            }
            assert(here.skip(n as int) =~= self.data@.skip(at + n));
            at += n;
        }
        true
    }

    /// The next run, or `None` at the end of the payload.
    ///
    /// A distance that leads below 0 or above 255 wraps around.
    pub fn next(&mut self) -> (r: Option<Run>)
        requires
            whole_chunks(old(self).rest()),
        ensures
            final(self).payload() == old(self).payload(),
            final(self).position() <= final(self).payload().len(),
            whole_chunks(final(self).rest()),
            match r {
                Some(run) => {
                    &&& old(self).rest().len() > 0
                    &&& run == chunk_run(old(self).rest(), old(self).color())
                    &&& final(self).position() == old(self).position() + chunk_len(
                        old(self).rest(),
                    )
                    &&& final(self).position() > old(self).position()
                    &&& final(self).color() == run.value
                    &&& old(self).runs() == seq![run] + final(self).runs()
                },
                None => {
                    &&& old(self).rest().len() == 0
                    &&& final(self).position() == old(self).position()
                    &&& final(self).color() == old(self).color()
                    &&& old(self).runs() == Seq::<Run>::empty()
                },
            },
    {
        proof {
            use_type_invariant(&*self);
        }
        if self.offset >= self.data.len() {
            return None;
        }
        let ghost here = self.rest();
        let at: usize = self.offset;
        let head: u8 = self.data[at];
        assert(here[0] == head);
        let n: usize = chunk_size(head);
        assert(here.len() >= 2 ==> here[1] == self.data@[at + 1]);
        assert(here.len() >= 3 ==> here[2] == self.data@[at + 2]);
        assert(here.len() >= 4 ==> here[3] == self.data@[at + 3]);
        assert(here.len() >= 5 ==> here[4] == self.data@[at + 4]);

        // 0b00: black, 0b01: gray (the value follows), 0b10: a distance from
        // the run before, 0b11: white
        let chunk_type: u8 = head >> 6;
        let chunk_length_size: u8 = head >> 4 & 0x03;
        let low: u8 = head & 0x0F;
        assert(chunk_type == head / 64 && chunk_length_size == head / 16 % 4 && low == head % 16)
            by (bit_vector)
            requires
                chunk_type == head >> 6,
                chunk_length_size == head >> 4 & 0x03,
                low == head & 0x0F,
        ;
        let mut length: u64 = 0;
        let mut color: u8 = self.color;
        let mut first: usize = at + 1;
        if chunk_type == 0b00 {
            color = 0;
        } else if chunk_type == 0b01 {
            color = self.data[at + 1];
            first = at + 2;
        } else if chunk_type == 0b10 {
            if chunk_length_size % 2 == 0 {
                length = 1;
            } else {
                length = self.data[at + 1] as u64;
            }
            if chunk_length_size / 2 == 0 {
                color = color.wrapping_add(low);
            } else {
                color = color.wrapping_sub(low);
            }
        } else {
            color = 0xFF;
        }
        if chunk_type != 0b10 {
            let base: u64 = low as u64;
            if chunk_length_size == 0b00 {
                length = base;
            } else if chunk_length_size == 0b01 {
                let b1: u64 = self.data[first] as u64;
                assert(b1 << 4 == b1 * 0x10) by (bit_vector)
                    requires
                        b1 < 256,
                ;
                length = base + (b1 << 4);
            } else if chunk_length_size == 0b10 {
                let b1: u64 = self.data[first] as u64;
                let b2: u64 = self.data[first + 1] as u64;
                assert(b1 << 12 == b1 * 0x1000 && b2 << 4 == b2 * 0x10) by (bit_vector)
                    requires
                        b1 < 256,
                        b2 < 256,
                ;
                length = base + (b1 << 12) + (b2 << 4);
            } else {
                let b1: u64 = self.data[first] as u64;
                let b2: u64 = self.data[first + 1] as u64;
                let b3: u64 = self.data[first + 2] as u64;
                assert(b1 << 20 == b1 * 0x10_0000 && b2 << 12 == b2 * 0x1000 && b3 << 4 == b3
                    * 0x10) by (bit_vector)
                    requires
                        b1 < 256,
                        b2 < 256,
                        b3 < 256,
                ;
                length = base + (b1 << 20) + (b2 << 12) + (b3 << 4);
            }
        }
        assert(here.skip(n as int) =~= self.data@.skip(at + n));
        self.color = color;
        self.offset = at + n;
        Some(Run { length, value: color })
    }

    /// The number of pixels that the runs not read yet stand for, or `None`
    /// where the bytes not read yet are not whole chunks or the number does
    /// not fit.
    pub fn pixel_count(&self) -> (r: Option<u64>)
        ensures
            r == (if whole_chunks(self.rest()) && total_length(self.runs()) <= u64::MAX {
                Some(total_length(self.runs()) as u64)
            } else {
                None
            }),
    {
        if !self.is_well_formed() {
            return None;
        }
        let mut decoder: LayerDecoder<'a> = *self;
        let mut total: u64 = 0;
        loop
            invariant
                whole_chunks(decoder.rest()),
                total + total_length(decoder.runs()) == total_length(self.runs()),
                whole_chunks(self.rest()),
            decreases decoder.payload().len() - decoder.position(),
        {
            match decoder.next() {
                None => {
                    return Some(total);
                },
                Some(run) => {
                    proof {
                        lemma_expand_first(run, decoder.runs());
                    }
                    match total.checked_add(run.length) {
                        None => {
                            return None;
                        },
                        Some(sum) => {
                            total = sum;
                        },
                    }
                },
            }
        }
    }
}

} // verus!
