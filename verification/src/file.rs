//! A whole file: the header, the layers and the ending.

use crate::error::Error;
use crate::header_info::{header_len, lemma_header_round_trip, HeaderInfo, HEADER_SIZE};
use crate::layer_content::{lemma_record_round_trip, record_len, LayerContent};
use crate::misc::SliceResult;
use crate::serde::endian::{be32_at, joins, lemma_bytes_field};
use crate::serde::serializer::{holds, lemma_concat_nothing, lemma_concat_regroup, lemma_grow};
use crate::serde::types::zero_padded;
use crate::serde::{Deserializer, Serializer, SizedString};
use crate::slice_config::SliceConfig;
use crate::{ending_string, is_ending_string, ENDING_STRING};
use vstd::prelude::*;

verus! {

/// The place of the layer count in a header.
pub const LAYER_COUNT_AT: usize = 195310;

/// A print job: what holds for the whole print, and its layers from the
/// first printed to the last.
pub struct File {
    pub header: HeaderInfo,
    pub layers: Vec<LayerContent>,
}

/// The records of `layers`, one behind the other.
pub open spec fn layers_bytes(layers: Seq<LayerContent>) -> Seq<u8>
    decreases layers.len(),
{
    if layers.len() == 0 {
        Seq::empty()
    } else {
        layers_bytes(layers.drop_last()) + layers.last().bytes()
    }
}

/// Where record number `i` starts in `s`, which holds layer records one
/// behind the other from its start on; the records in front of it are
/// taken to be in order.
pub open spec fn record_start(s: Seq<u8>, i: nat) -> nat
    decreases i,
{
    if i == 0 {
        0
    } else {
        let at = record_start(s, (i - 1) as nat);
        match record_len(s.skip(at as int)) {
            Ok(n) => at + n,
            Err(_) => at,
        }
    }
}

/// What is wrong with the first of the first `count` records of `s` that
/// is not in order, or `None` where all of them are.
pub open spec fn records_fault(s: Seq<u8>, count: nat) -> Option<Error>
    decreases count,
{
    if count == 0 {
        None
    } else {
        match records_fault(s, (count - 1) as nat) {
            Some(e) => Some(e),
            None => match record_len(s.skip(record_start(s, (count - 1) as nat) as int)) {
                Ok(_) => None,
                Err(e) => Some(e),
            },
        }
    }
}

/// The number of bytes of the file at the start of `s`, or why there is
/// none: the header must be in order, then as many layer records as the
/// header announces, then the ending sequence. What follows the ending is
/// not looked at.
pub open spec fn file_len(s: Seq<u8>) -> Result<nat, Error> {
    match header_len(s) {
        Err(e) => Err(e),
        Ok(h) => {
            let count = be32_at(s, LAYER_COUNT_AT as int) as nat;
            let body = s.skip(h as int);
            match records_fault(body, count) {
                Some(e) => Err(e),
                None => {
                    let end = h + record_start(body, count);
                    if s.len() < end + 11 {
                        Err(Error::UnexpectedEnd)
                    } else if s.subrange(end as int, end as int + 11) != ending_string() {
                        Err(Error::BadEnding)
                    } else {
                        Ok(end + 11)
                    }
                },
            }
        },
    }
}

/// A fault among the first records is a fault among more of them.
pub proof fn lemma_fault_stays(s: Seq<u8>, few: nat, many: nat)
    requires
        few <= many,
        records_fault(s, few) is Some,
    ensures
        records_fault(s, many) == records_fault(s, few),
    decreases many,
{
    if few < many {
        lemma_fault_stays(s, few, (many - 1) as nat);
    }
}

impl HeaderInfo {
    /// Whether the two preview pictures have their sizes: see [`Self::wf`].
    pub fn is_well_formed(&self) -> (b: bool)
        ensures
            b == self.wf(),
    {
        self.small_preview.inner_data().len() == 116 * 116
            && self.big_preview.inner_data().len() == 290 * 290
    }

    /// Whether the header says of a print of `count` layers what `config`
    /// says, gives `printing_time` as the time it takes, and is as a new
    /// header in everything else but the time of writing. The numbers are cut
    /// to the width of their fields.
    pub open spec fn describes(
        &self,
        config: SliceConfig,
        count: usize,
        printing_time: u32,
    ) -> bool {
        &&& self.x_resolution == config.platform_resolution[0] as u16
        &&& self.y_resolution == config.platform_resolution[1] as u16
        &&& self.x_size == config.platform_size[0]
        &&& self.y_size == config.platform_size[1]
        &&& self.layer_count == count as u32
        &&& self.printing_time == printing_time
        &&& self.layer_thickness == config.slice_height
        &&& self.bottom_layers == config.first_layers
        &&& self.transition_layers == (config.first_layers + 1) as u16
        &&& self.exposure_time == config.exposure_config.exposure_time
        &&& self.lift_distance == config.exposure_config.lift_distance
        &&& self.lift_speed == config.exposure_config.lift_speed
        &&& self.retract_distance == config.exposure_config.retract_distance
        &&& self.retract_speed == config.exposure_config.retract_speed
        &&& self.bottom_exposure_time == config.first_exposure_config.exposure_time
        &&& self.bottom_lift_distance == config.first_exposure_config.lift_distance
        &&& self.bottom_lift_speed == config.first_exposure_config.lift_speed
        &&& self.bottom_retract_distance == config.first_exposure_config.retract_distance
        &&& self.bottom_retract_speed == config.first_exposure_config.retract_speed
        &&& self.rest_is_default()
        &&& self.wf()
    }
}

impl File {
    /// The header counts the layers that are there, and every part can be
    /// written.
    pub open spec fn wf(&self) -> bool {
        &&& self.header.wf()
        &&& self.header.layer_count == self.layers@.len()
        &&& forall|i: int| 0 <= i < self.layers@.len() ==> #[trigger] self.layers@[i].wf()
    }

    /// The file as a byte stream.
    pub open spec fn bytes(&self) -> Seq<u8> {
        self.header.bytes() + layers_bytes(self.layers@) + ending_string()
    }

    /// Whether the header and the layers are what the file at the start of
    /// `s` holds.
    pub open spec fn decoded_from(&self, s: Seq<u8>) -> bool {
        &&& self.header.decoded_from(s)
        &&& self.layers@.len() == self.header.layer_count
        &&& forall|i: int|
            0 <= i < self.layers@.len() ==> (#[trigger] self.layers@[i]).decoded_from(
                s.skip(HEADER_SIZE as int).skip(
                    record_start(s.skip(HEADER_SIZE as int), i as nat) as int,
                ),
            )
    }

    /// A file of the given parts. Nothing is tested:
    /// [`Self::is_well_formed`] tells whether the file can be written.
    pub fn new(header: HeaderInfo, layers: Vec<LayerContent>) -> (file: Self)
        ensures
            file.header == header,
            file.layers == layers,
    {
        Self { header, layers }
    }

    /// The file for the layers of a slicer. `printing_time` is the time that
    /// the print takes, in seconds, and `file_time` the time of writing as
    /// text, which is cut off behind 24 bytes.
    ///
    /// The header takes the resolution, the size of the plate, the layer
    /// height and both exposures from the configuration, counts the layers,
    /// and sets the number of transition layers to one more than the number
    /// of first layers. A number that is too large for its field loses its
    /// upper bits; the file is in order where the layers can be counted in
    /// 32 bits and each of them can be written.
    pub fn from_slice_result(
        result: SliceResult<LayerContent>,
        printing_time: u32,
        file_time: &[u8],
    ) -> (file: Self)
        ensures
            file.layers == result.layers,
            file.header.describes(*result.slice_config, result.layers.len(), printing_time),
            file.header.file_time@ == zero_padded(file_time@, 24),
            result.layers.len() <= u32::MAX ==> file.header.layer_count == result.layers.len(),
            result.layers.len() <= u32::MAX && (forall|i: int|
                0 <= i < result.layers.len() ==> #[trigger] result.layers[i].wf()) ==> file.wf(),
    {
        let SliceResult { layers, slice_config } = result;
        let mut header: HeaderInfo = HeaderInfo::default();
        header.x_resolution = slice_config.platform_resolution[0] as u16;
        header.y_resolution = slice_config.platform_resolution[1] as u16;
        header.x_size = slice_config.platform_size[0];
        header.y_size = slice_config.platform_size[1];
        header.layer_count = layers.len() as u32;
        header.printing_time = printing_time;
        header.layer_thickness = slice_config.slice_height;
        header.bottom_layers = slice_config.first_layers;
        header.transition_layers = (slice_config.first_layers as u64 + 1) as u16;
        header.exposure_time = slice_config.exposure_config.exposure_time;
        header.lift_distance = slice_config.exposure_config.lift_distance;
        header.lift_speed = slice_config.exposure_config.lift_speed;
        header.retract_distance = slice_config.exposure_config.retract_distance;
        header.retract_speed = slice_config.exposure_config.retract_speed;
        header.bottom_exposure_time = slice_config.first_exposure_config.exposure_time;
        header.bottom_lift_distance = slice_config.first_exposure_config.lift_distance;
        header.bottom_lift_speed = slice_config.first_exposure_config.lift_speed;
        header.bottom_retract_distance = slice_config.first_exposure_config.retract_distance;
        header.bottom_retract_speed = slice_config.first_exposure_config.retract_speed;
        header.file_time = SizedString::new(file_time);
        Self::new(header, layers)
    }

    /// Whether the file can be written: whether the header counts the
    /// layers that are there and each of them is short enough for its
    /// record. See [`Self::wf`].
    pub fn is_well_formed(&self) -> (b: bool)
        ensures
            b == self.wf(),
    {
        let count: usize = self.layers.len();
        if !self.header.is_well_formed() || self.header.layer_count as u64 != count as u64 {
            return false;
        }
        let mut i: usize = 0;
        while i < count
            invariant
                i <= count,
                count == self.layers@.len(),
                forall|j: int| 0 <= j < i ==> #[trigger] self.layers@[j].wf(),
            decreases count - i,
        {
            if !self.layers[i].is_well_formed() {
                return false;
            }
            i += 1;
        }
        true
    }

    /// Writes the file: the header, the layers in order, the ending. The
    /// header must count the layers that are there, which
    /// [`Self::is_well_formed`] tells.
    pub fn serialize<T: Serializer>(&self, ser: &mut T)
        requires
            self.wf(),
            holds(old(ser).capacity(), old(ser).written().len() + self.bytes().len()),
        ensures
            final(ser).written() == old(ser).written() + self.bytes(),
            final(ser).capacity() == old(ser).capacity(),
    {
        let ghost before = ser.written();
        let ghost capacity = ser.capacity();
        let ghost all = self.layers@;
        proof {
            self.header.lemma_bytes_len();
        }
        self.header.serialize(ser);
        let ghost mut acc = self.header.bytes();
        let count: usize = self.layers.len();
        let mut i: usize = 0;
        proof {
            assert(all.take(0) =~= Seq::<LayerContent>::empty());
            lemma_concat_nothing(self.header.bytes());
        }
        while i < count
            invariant
                i <= count,
                count == all.len(),
                all == self.layers@,
                self.header.bytes().len() == HEADER_SIZE,
                forall|j: int| 0 <= j < all.len() ==> #[trigger] all[j].wf(),
                acc == self.header.bytes() + layers_bytes(all.take(i as int)),
                ser.written() == before + acc,
                holds(capacity, (before.len() + HEADER_SIZE + layers_bytes(all).len() + 11) as nat),
                ser.capacity() == capacity,
            decreases count - i,
        {
            let layer: &LayerContent = &self.layers[i];
            proof {
                lemma_layers_bytes_split(all, i as int);
                lemma_layers_bytes_split(all, i + 1);
                assert(all.take(i + 1).drop_last() =~= all.take(i as int));
                assert(all[i as int].wf());
            }
            layer.serialize(ser);
            proof {
                lemma_concat_regroup(
                    self.header.bytes(),
                    layers_bytes(all.take(i as int)),
                    layer.bytes(),
                );
                acc = lemma_grow(before, acc, layer.bytes(), ser.written());
            }
            i += 1;
        }
        let ending: [u8; 11] = ENDING_STRING;
        assert(ending@ =~= ending_string());
        assert(all.take(i as int) =~= all);
        ser.write_bytes(ending.as_slice());
        proof {
            acc = lemma_grow(before, acc, ending_string(), ser.written());
        }
    }

    /// Reads a file. Nothing is returned of a stream that is refused.
    ///
    /// The header tells how many layers follow. The checksums of the layers
    /// are kept, not tested.
    pub fn deserialize(buf: &[u8]) -> (r: Result<Self, Error>)
        ensures
            match r {
                Ok(file) => {
                    &&& file_len(buf@) is Ok
                    &&& file.decoded_from(buf@)
                    &&& file.wf()
                },
                Err(e) => file_len(buf@) == Err::<nat, Error>(e),
            },
    {
        let mut des = Deserializer::new(buf);
        assert(des.rest() =~= buf@);
        let header: HeaderInfo = match HeaderInfo::deserialize(&mut des) {
            Ok(header) => header,
            Err(e) => {
                return Err(e);
            },
        };
        let ghost body = buf@.skip(HEADER_SIZE as int);
        let count: u32 = header.layer_count;
        assert(count == be32_at(buf@, LAYER_COUNT_AT as int)) by {
            reveal(HeaderInfo::exposure_decoded_from);
        }
        let mut layers: Vec<LayerContent> = Vec::new();
        let mut i: u32 = 0;
        while i < count
            invariant
                i <= count,
                count == be32_at(buf@, LAYER_COUNT_AT as int),
                header_len(buf@) == Ok::<nat, Error>(HEADER_SIZE as nat),
                body == buf@.skip(HEADER_SIZE as int),
                des.data() == buf@,
                des.position() == HEADER_SIZE + record_start(body, i as nat),
                des.position() <= buf@.len(),
                records_fault(body, i as nat) is None,
                layers@.len() == i,
                forall|j: int|
                    0 <= j < i ==> (#[trigger] layers@[j]).decoded_from(
                        body.skip(record_start(body, j as nat) as int),
                    ) && layers@[j].wf(),
            decreases count - i,
        {
            assert(des.rest() =~= body.skip(record_start(body, i as nat) as int));
            match LayerContent::deserialize(&mut des) {
                Ok(layer) => {
                    layers.push(layer);
                },
                Err(e) => {
                    proof {
                        assert(records_fault(body, (i + 1) as nat) == Some(e));
                        lemma_fault_stays(body, (i + 1) as nat, count as nat);
                    }
                    return Err(e);
                },
            }
            i += 1;
        }
        if des.remaining() < 11 {
            return Err(Error::UnexpectedEnd);
        }
        let ending = des.read_bytes(11);
        if !is_ending_string(ending) {
            return Err(Error::BadEnding);
        }
        Ok(Self { header, layers })
    }
}

/// The records of a sequence of layers are those of its first layers
/// followed by those of the others.
pub proof fn lemma_layers_bytes_split(layers: Seq<LayerContent>, at: int)
    requires
        0 <= at <= layers.len(),
    ensures
        layers_bytes(layers) == layers_bytes(layers.take(at)) + layers_bytes(layers.skip(at)),
        layers_bytes(layers.take(at)).len() <= layers_bytes(layers).len(),
    decreases layers.len() - at,
{
    let none = Seq::<LayerContent>::empty();
    if at == layers.len() {
        assert(layers.take(at) =~= layers);
        assert(layers.skip(at) =~= none);
        lemma_concat_nothing(layers_bytes(layers));
    } else {
        let head = layers.drop_last();
        let last = layers.last().bytes();
        lemma_layers_bytes_split(head, at);
        assert(head.take(at) =~= layers.take(at));
        assert(layers.skip(at).drop_last() =~= head.skip(at));
        lemma_concat_regroup(layers_bytes(head.take(at)), layers_bytes(head.skip(at)), last);
    }
}

/// What stands behind a piece is what the whole holds from the length
/// of the piece on.
proof fn lemma_skip_front(front: Seq<u8>, back: Seq<u8>)
    ensures
        (front + back).skip(front.len() as int) == back,
{
    assert((front + back).skip(front.len() as int) =~= back);
}

/// Changing a byte and then leaving out a front part is leaving out the
/// front part and then changing the byte.
proof fn lemma_skip_update(s: Seq<u8>, from: int, at: int, byte: u8)
    requires
        0 <= from <= at < s.len(),
    ensures
        s.update(at, byte).skip(from) == s.skip(from).update(at - from, byte),
        forall|i: int| 0 <= i < at - from ==> s.skip(from)[i] == s.update(at, byte).skip(from)[i],
{
    assert(s.update(at, byte).skip(from) =~= s.skip(from).update(at - from, byte));
}

/// Leaving out a front part in two steps.
proof fn lemma_skip_twice(s: Seq<u8>, a: int, b: int)
    requires
        0 <= a,
        0 <= b,
        a + b <= s.len(),
    ensures
        s.skip(a).skip(b) == s.skip(a + b),
{
    assert(s.skip(a).skip(b) =~= s.skip(a + b));
}

/// Whether a header is in order, and how many layers it announces, is
/// decided by its own bytes alone.
pub proof fn lemma_header_prefix(s1: Seq<u8>, s2: Seq<u8>)
    requires
        s1.len() >= HEADER_SIZE,
        s2.len() >= HEADER_SIZE,
        forall|i: int| 0 <= i < HEADER_SIZE ==> s1[i] == s2[i],
    ensures
        header_len(s1) == header_len(s2),
        be32_at(s1, LAYER_COUNT_AT as int) == be32_at(s2, LAYER_COUNT_AT as int),
{
    assert(s1.subrange(4, 12) =~= s2.subrange(4, 12));
    assert(s1.subrange(27106, 27108) =~= s2.subrange(27106, 27108));
    assert(s1.subrange(195308, 195310) =~= s2.subrange(195308, 195310));
}

/// Whether a record is in order is decided by its own bytes alone.
pub proof fn lemma_record_prefix(s1: Seq<u8>, s2: Seq<u8>, n: nat)
    requires
        record_len(s1) == Ok::<nat, Error>(n),
        s2.len() >= n,
        forall|i: int| 0 <= i < n ==> s1[i] == s2[i],
    ensures
        record_len(s2) == Ok::<nat, Error>(n),
{
    let stated = be32_at(s1, 66) as int;
    assert(be32_at(s2, 66) == stated);
    assert(s1.subrange(64, 66) =~= s2.subrange(64, 66));
    assert(s1.subrange(70 + stated, 72 + stated) =~= s2.subrange(70 + stated, 72 + stated));
}

/// A record with one byte of one of its delimiters changed is refused.
/// The delimiters stand at 64 and 65, and at 70 and 71 behind as many bytes
/// as the length field states.
pub proof fn lemma_record_delimiters_are_checked(record: Seq<u8>, at: int, byte: u8)
    requires
        record_len(record) is Ok,
        at == 64 || at == 65 || at == 70 + be32_at(record, 66) || at == 71 + be32_at(record, 66),
        byte != record[at],
    ensures
        record_len(record.update(at, byte)) == Err::<nat, Error>(Error::BadDelimiter),
{
    let stated = be32_at(record, 66) as int;
    let changed = record.update(at, byte);
    assert(be32_at(changed, 66) == stated);
    if at == 64 || at == 65 {
        assert(changed.subrange(64, 66)[at - 64] == byte);
        assert(record.subrange(64, 66)[at - 64] == record[at]);
    } else {
        assert(changed.subrange(64, 66) =~= record.subrange(64, 66));
        assert(changed.subrange(70 + stated, 72 + stated)[at - 70 - stated] == byte);
        assert(record.subrange(70 + stated, 72 + stated)[at - 70 - stated] == record[at]);
    }
}

/// Records in order take no fewer bytes than fewer of them.
pub proof fn lemma_record_start_grows(s: Seq<u8>, few: nat, many: nat)
    requires
        few <= many,
    ensures
        record_start(s, few) <= record_start(s, many),
    decreases many,
{
    if few < many {
        lemma_record_start_grows(s, few, (many - 1) as nat);
    }
}

/// Records in order end inside the sequence that holds them.
pub proof fn lemma_records_inside(s: Seq<u8>, count: nat)
    requires
        records_fault(s, count) is None,
    ensures
        record_start(s, count) <= s.len(),
    decreases count,
{
    if count > 0 {
        let k = (count - 1) as nat;
        lemma_records_inside(s, k);
        let at = record_start(s, k) as int;
        assert(record_len(s.skip(at)) is Ok);
    }
}

/// Where many records are in order, so are fewer.
pub proof fn lemma_fault_stays_none(s: Seq<u8>, few: nat, many: nat)
    requires
        few <= many,
        records_fault(s, many) is None,
    ensures
        records_fault(s, few) is None,
    decreases many,
{
    if few < many {
        lemma_fault_stays_none(s, few, (many - 1) as nat);
    }
}

/// Whether the first records of a sequence are in order, and where they
/// end, is decided by their own bytes alone.
pub proof fn lemma_records_prefix(s1: Seq<u8>, s2: Seq<u8>, count: nat)
    requires
        records_fault(s1, count) is None,
        s2.len() >= record_start(s1, count),
        forall|i: int| 0 <= i < record_start(s1, count) ==> s1[i] == s2[i],
    ensures
        records_fault(s2, count) is None,
        record_start(s2, count) == record_start(s1, count),
    decreases count,
{
    if count > 0 {
        let k = (count - 1) as nat;
        let at = record_start(s1, k) as int;
        lemma_record_start_grows(s1, k, count);
        lemma_records_inside(s1, count);
        lemma_records_prefix(s1, s2, k);
        let r1 = s1.skip(at);
        let r2 = s2.skip(at);
        assert(record_len(r1) is Ok);
        let n = record_len(r1)->Ok_0;
        assert(record_start(s1, count) == at + n);
        assert forall|i: int| 0 <= i < n implies r1[i] == r2[i] by {
            assert(r1[i] == s1[at + i]);
            assert(r2[i] == s2[at + i]);
        }
        lemma_record_prefix(r1, r2, n);
    }
}

/// Records that were written are read back, whatever follows them: all
/// are in order, each starts where the ones before it end, and each reads
/// as the layer it was written for, with the checksum of its payload.
pub proof fn lemma_records_round_trip(layers: Seq<LayerContent>, rest: Seq<u8>)
    requires
        forall|i: int| 0 <= i < layers.len() ==> #[trigger] layers[i].wf(),
    ensures
        records_fault(layers_bytes(layers) + rest, layers.len()) is None,
        forall|k: nat|
            k <= layers.len() ==> #[trigger] record_start(layers_bytes(layers) + rest, k)
                == layers_bytes(layers.take(k as int)).len(),
        forall|i: nat|
            i < layers.len() ==> layers[i as int].as_stored().decoded_from(
                (layers_bytes(layers) + rest).skip(
                    #[trigger] record_start(layers_bytes(layers) + rest, i) as int,
                ),
            ),
    decreases layers.len(),
{
    let s = layers_bytes(layers) + rest;
    if layers.len() == 0 {
        assert(layers.take(0) =~= layers);
    } else {
        let head = layers.drop_last();
        let last = layers.last();
        let more = last.bytes() + rest;
        assert(last.wf());
        assert forall|i: int| 0 <= i < head.len() implies #[trigger] head[i].wf() by {
            assert(head[i] == layers[i]);
        }
        lemma_records_round_trip(head, more);
        lemma_concat_regroup(layers_bytes(head), last.bytes(), rest);
        assert(s == layers_bytes(head) + more);
        let at = layers_bytes(head).len();
        assert(head.take(head.len() as int) =~= head);
        assert(record_start(s, head.len()) == at);
        lemma_skip_front(layers_bytes(head), more);
        lemma_record_round_trip(last, rest);
        assert(layers.take(layers.len() as int) =~= layers);
        assert forall|k: nat| k <= layers.len() implies #[trigger] record_start(s, k)
            == layers_bytes(layers.take(k as int)).len() by {
            if k < layers.len() {
                assert(head.take(k as int) =~= layers.take(k as int));
            }
        }
        assert forall|i: nat| i < layers.len() implies layers[i as int].as_stored().decoded_from(
            s.skip(#[trigger] record_start(s, i) as int),
        ) by {
            if i < head.len() {
                assert(head[i as int] == layers[i as int]);
            } else {
                assert(layers[i as int] == last);
                assert(s.skip(at as int) == more);
            }
        }
    }
}

/// Where the parts of a written file stand, and that its header is read
/// back.
proof fn lemma_file_layout(file: File, rest: Seq<u8>)
    requires
        file.wf(),
    ensures
        file.bytes().len() == HEADER_SIZE + layers_bytes(file.layers@).len() + 11,
        header_len(file.bytes() + rest) == Ok::<nat, Error>(HEADER_SIZE as nat),
        file.header.decoded_from(file.bytes() + rest),
        be32_at(file.bytes() + rest, LAYER_COUNT_AT as int) == file.layers@.len(),
        (file.bytes() + rest).skip(HEADER_SIZE as int) == layers_bytes(file.layers@)
            + (ending_string() + rest),
        (file.bytes() + rest).len() >= file.bytes().len(),
        (file.bytes() + rest).subrange(file.bytes().len() - 11, file.bytes().len() as int)
            == ending_string(),
{
    let s = file.bytes() + rest;
    let h = file.header.bytes();
    let l = layers_bytes(file.layers@);
    let e = ending_string();
    let after_l = e + rest;
    let after_h = l + after_l;
    assert(s == h + after_h && s == ((h + l) + e) + rest) by {
        lemma_concat_regroup(h + l, e, rest);
        lemma_concat_regroup(h, l, after_l);
    }
    assert(h.len() == HEADER_SIZE && header_len(s) == Ok::<nat, Error>(HEADER_SIZE as nat)
        && file.header.decoded_from(s)) by {
        lemma_header_round_trip(file.header, after_h);
    }
    assert(be32_at(s, LAYER_COUNT_AT as int) == file.header.layer_count) by {
        reveal(HeaderInfo::exposure_decoded_from);
    }
    assert(s.skip(HEADER_SIZE as int) == after_h) by {
        lemma_skip_front(h, after_h);
    }
    let end = (HEADER_SIZE + l.len()) as int;
    assert(e.len() == 11);
    assert(s.subrange(end, end + 11) == e && s.len() >= end + 11) by {
        assert(joins(s, (h + l) + e, rest)) by {
            reveal(joins);
        }
        lemma_bytes_field(h + l, e, rest, s);
    }
}

/// A file that was written is read back, whatever follows it: its header
/// and its layers are in order, in their places, and the ending closes it;
/// the header reads as it was written, and each layer reads as it was
/// written but for its checksum, which is that of its payload.
pub proof fn lemma_file_round_trip(file: File, rest: Seq<u8>)
    requires
        file.wf(),
    ensures
        file.bytes().len() == HEADER_SIZE + layers_bytes(file.layers@).len() + 11,
        file_len(file.bytes() + rest) == Ok::<nat, Error>(file.bytes().len()),
        file.header.decoded_from(file.bytes() + rest),
        be32_at(file.bytes() + rest, LAYER_COUNT_AT as int) == file.layers@.len(),
        records_fault((file.bytes() + rest).skip(HEADER_SIZE as int), file.layers@.len()) is None,
        forall|k: nat|
            k <= file.layers@.len() ==> #[trigger] record_start(
                (file.bytes() + rest).skip(HEADER_SIZE as int),
                k,
            ) == layers_bytes(file.layers@.take(k as int)).len(),
        forall|i: nat|
            i < file.layers@.len() ==> file.layers@[i as int].as_stored().decoded_from(
                (file.bytes() + rest).skip(HEADER_SIZE as int).skip(
                    #[trigger] record_start((file.bytes() + rest).skip(HEADER_SIZE as int), i)
                        as int,
                ),
            ),
{
    let s = file.bytes() + rest;
    let body = s.skip(HEADER_SIZE as int);
    let count = file.layers@.len();
    lemma_file_layout(file, rest);
    lemma_records_round_trip(file.layers@, ending_string() + rest);
    assert(file.layers@.take(count as int) =~= file.layers@);
    assert(record_start(body, count) == layers_bytes(file.layers@).len());
}

/// Changing one byte of the ending of a readable file makes it unreadable.
pub proof fn lemma_ending_is_checked(s: Seq<u8>, at: int, byte: u8)
    requires
        file_len(s) is Ok,
        file_len(s)->Ok_0 - 11 <= at < file_len(s)->Ok_0,
        byte != s[at],
    ensures
        file_len(s.update(at, byte)) == Err::<nat, Error>(Error::BadEnding),
{
    let changed = s.update(at, byte);
    let count = be32_at(s, LAYER_COUNT_AT as int) as nat;
    let body = s.skip(HEADER_SIZE as int);
    let other = changed.skip(HEADER_SIZE as int);
    lemma_header_prefix(s, changed);
    lemma_skip_update(s, HEADER_SIZE as int, at, byte);
    lemma_records_prefix(body, other, count);
    let end = HEADER_SIZE + record_start(body, count);
    assert(changed.subrange(end as int, end + 11)[at - end] == byte);
    assert(s.subrange(end as int, end + 11)[at - end] == s[at]);
}

/// The place in a readable file of byte `which` (0 to 3) of the delimiters
/// of layer number `layer`, counted from zero: two bytes in front of the
/// length field of the layer, two behind the checksum of its payload.
pub open spec fn delimiter_at(s: Seq<u8>, layer: nat, which: int) -> int {
    let start = HEADER_SIZE + record_start(s.skip(HEADER_SIZE as int), layer);
    if which < 2 {
        start + 64 + which
    } else {
        start + 68 + be32_at(s, start + 66) + which
    }
}

/// Changing one byte of a delimiter of a layer of a readable file makes it
/// unreadable.
pub proof fn lemma_layer_delimiters_are_checked(s: Seq<u8>, layer: nat, which: int, byte: u8)
    requires
        file_len(s) is Ok,
        layer < be32_at(s, LAYER_COUNT_AT as int),
        0 <= which < 4,
        byte != s[delimiter_at(s, layer, which)],
    ensures
        0 <= delimiter_at(s, layer, which) < s.len(),
        file_len(s.update(delimiter_at(s, layer, which), byte)) == Err::<nat, Error>(
            Error::BadDelimiter,
        ),
{
    let at = delimiter_at(s, layer, which);
    let count = be32_at(s, LAYER_COUNT_AT as int) as nat;
    let body = s.skip(HEADER_SIZE as int);
    let start = record_start(body, layer) as int;
    let next = (layer + 1) as nat;
    lemma_fault_stays_none(body, next, count);
    lemma_fault_stays_none(body, layer, count);
    lemma_records_inside(body, next);
    lemma_record_start_grows(body, layer, next);
    let record = body.skip(start);
    assert(record_len(record) is Ok);
    let n = record_len(record)->Ok_0;
    assert(record_start(body, next) == start + n);
    lemma_skip_twice(s, HEADER_SIZE as int, start);
    let k = at - HEADER_SIZE - start;
    assert(be32_at(s, HEADER_SIZE + start + 66) == be32_at(record, 66));
    assert(0 <= k < n);
    assert(record[k] == s[at]);

    let changed = s.update(at, byte);
    let other = changed.skip(HEADER_SIZE as int);
    lemma_header_prefix(s, changed);
    lemma_skip_update(s, HEADER_SIZE as int, at, byte);
    lemma_records_prefix(body, other, layer);
    let broken = other.skip(start);
    lemma_skip_update(body, start, at - HEADER_SIZE, byte);
    assert(broken == record.update(k, byte));
    lemma_record_delimiters_are_checked(record, k, byte);
    assert(records_fault(other, next) == Some(Error::BadDelimiter));
    lemma_fault_stays(other, next, count);
}

} // verus!
