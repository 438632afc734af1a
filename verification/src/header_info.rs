//! The header of a file.

use crate::error::Error;
use crate::preview_image::{lemma_pixel_bytes_round_trip, pixel_bytes, pixels_at, PreviewImage};
use crate::serde::endian::{
    be16, be16_at, be32, be32_at, bool_byte, joins, lemma_be16_field,
    lemma_be32_field, lemma_bool_field, lemma_bytes_field,
};
use crate::serde::serializer::{holds, lemma_concat_regroup, lemma_grow};
use crate::serde::{Deserializer, Serializer, SizedString};
use crate::{delimiter, is_delimiter, is_magic_tag, magic_tag, F32Bits, DELIMITER, MAGIC_TAG};
use vstd::prelude::*;

verus! {

/// The number of bytes of a header in a file. The header states this number
/// of itself, and a header that states another is refused.
pub const HEADER_SIZE: usize = 0x2FB95;

/// What a file says of the whole print: the printer, the resin, the two
/// preview pictures, and the settings that hold for every layer.
pub struct HeaderInfo {
    /// The version of the format.
    pub version: SizedString<4>,
    /// The program that wrote the file.
    pub software_info: SizedString<32>,
    /// The version of that program.
    pub software_version: SizedString<24>,
    /// When the file was written.
    pub file_time: SizedString<24>,
    /// The name of the printer.
    pub printer_name: SizedString<32>,
    /// The type of the printer.
    pub printer_type: SizedString<32>,
    /// The name of the resin profile.
    pub profile_name: SizedString<32>,
    /// The level of anti-aliasing.
    pub anti_aliasing_level: u16,
    /// The gray level.
    pub grey_level: u16,
    /// The blur level.
    pub blur_level: u16,
    /// The small preview picture.
    pub small_preview: PreviewImage<116, 116>,
    /// The big preview picture.
    pub big_preview: PreviewImage<290, 290>,
    /// The number of layers in the file.
    pub layer_count: u32,
    /// The width of a layer in pixels.
    pub x_resolution: u16,
    /// The height of a layer in pixels.
    pub y_resolution: u16,
    /// Whether the layers are mirrored left to right.
    pub x_mirror: bool,
    /// Whether the layers are mirrored top to bottom.
    pub y_mirror: bool,
    /// The width of the plate.
    pub x_size: F32Bits,
    /// The depth of the plate.
    pub y_size: F32Bits,
    /// The height of the build volume.
    pub z_size: F32Bits,
    /// The thickness of a layer.
    pub layer_thickness: F32Bits,
    /// How long a layer is exposed.
    pub exposure_time: F32Bits,
    /// Whether the rests are given one by one or as one time with the light off.
    pub exposure_delay_mode: bool,
    /// How long the light stays off after an exposure.
    pub turn_off_time: F32Bits,
    /// The rest before the plate lifts, bottom layers.
    pub bottom_before_lift_time: F32Bits,
    /// The rest after the plate has lifted, bottom layers.
    pub bottom_after_lift_time: F32Bits,
    /// The rest after the plate has come back, bottom layers.
    pub bottom_after_retract_time: F32Bits,
    /// The rest before the plate lifts.
    pub before_lift_time: F32Bits,
    /// The rest after the plate has lifted.
    pub after_lift_time: F32Bits,
    /// The rest after the plate has come back.
    pub after_retract_time: F32Bits,
    /// How long a bottom layer is exposed.
    pub bottom_exposure_time: F32Bits,
    /// The number of bottom layers.
    pub bottom_layers: u32,
    /// How far the plate lifts, bottom layers, first stage.
    pub bottom_lift_distance: F32Bits,
    /// How fast the plate lifts, bottom layers, first stage.
    pub bottom_lift_speed: F32Bits,
    /// How far the plate lifts, first stage.
    pub lift_distance: F32Bits,
    /// How fast the plate lifts, first stage.
    pub lift_speed: F32Bits,
    /// How far the plate comes back, bottom layers, first stage.
    pub bottom_retract_distance: F32Bits,
    /// How fast the plate comes back, bottom layers, first stage.
    pub bottom_retract_speed: F32Bits,
    /// How far the plate comes back, first stage.
    pub retract_distance: F32Bits,
    /// How fast the plate comes back, first stage.
    pub retract_speed: F32Bits,
    /// How far the plate lifts, bottom layers, second stage.
    pub bottom_second_lift_distance: F32Bits,
    /// How fast the plate lifts, bottom layers, second stage.
    pub bottom_second_lift_speed: F32Bits,
    /// How far the plate lifts, second stage.
    pub second_lift_distance: F32Bits,
    /// How fast the plate lifts, second stage.
    pub second_lift_speed: F32Bits,
    /// How far the plate comes back, bottom layers, second stage.
    pub bottom_second_retract_distance: F32Bits,
    /// How fast the plate comes back, bottom layers, second stage.
    pub bottom_second_retract_speed: F32Bits,
    /// How far the plate comes back, second stage.
    pub second_retract_distance: F32Bits,
    /// How fast the plate comes back, second stage.
    pub second_retract_speed: F32Bits,
    /// The power of the light for bottom layers, 0 to 255.
    pub bottom_light_pwm: u16,
    /// The power of the light, 0 to 255.
    pub light_pwm: u16,
    /// Whether each layer brings its own settings.
    pub advance_mode: bool,
    /// The time that the print takes, in seconds.
    pub printing_time: u32,
    /// The volume of resin that the print takes.
    pub total_volume: F32Bits,
    /// The weight of that resin.
    pub total_weight: F32Bits,
    /// The price of that resin.
    pub total_price: F32Bits,
    /// The currency of the price.
    pub price_unit: SizedString<8>,
    /// Whether the gray range is 0 to 255 rather than 0 to 15.
    pub grey_scale_level: bool,
    /// The number of layers between bottom and normal exposure.
    pub transition_layers: u16,
}

impl HeaderInfo {
    /// See [`HEADER_SIZE`].
    pub const SIZE: usize = HEADER_SIZE;

    /// The two preview pictures have their sizes.
    pub open spec fn wf(&self) -> bool {
        self.small_preview.wf() && self.big_preview.wf()
    }

    /// The first part of the header, up to the preview pictures: 194 bytes.
    #[verifier::opaque]
    pub open spec fn identity_bytes(&self) -> Seq<u8> {
        self.version@
            + magic_tag()
            + self.software_info@
            + self.software_version@
            + self.file_time@
            + self.printer_name@
            + self.printer_type@
            + self.profile_name@
            + be16(self.anti_aliasing_level)
            + be16(self.grey_level)
            + be16(self.blur_level)
    }

    /// The part behind the preview pictures, up to the number of bottom layers: 67 bytes.
    #[verifier::opaque]
    pub open spec fn exposure_bytes(&self) -> Seq<u8> {
        be32(self.layer_count)
            + be16(self.x_resolution)
            + be16(self.y_resolution)
            + seq![bool_byte(self.x_mirror)]
            + seq![bool_byte(self.y_mirror)]
            + be32(self.x_size)
            + be32(self.y_size)
            + be32(self.z_size)
            + be32(self.layer_thickness)
            + be32(self.exposure_time)
            + seq![bool_byte(self.exposure_delay_mode)]
            + be32(self.turn_off_time)
            + be32(self.bottom_before_lift_time)
            + be32(self.bottom_after_lift_time)
            + be32(self.bottom_after_retract_time)
            + be32(self.before_lift_time)
            + be32(self.after_lift_time)
            + be32(self.after_retract_time)
            + be32(self.bottom_exposure_time)
            + be32(self.bottom_layers)
    }

    /// The distances and speeds of the plate: 64 bytes.
    #[verifier::opaque]
    pub open spec fn motion_bytes(&self) -> Seq<u8> {
        be32(self.bottom_lift_distance)
            + be32(self.bottom_lift_speed)
            + be32(self.lift_distance)
            + be32(self.lift_speed)
            + be32(self.bottom_retract_distance)
            + be32(self.bottom_retract_speed)
            + be32(self.retract_distance)
            + be32(self.retract_speed)
            + be32(self.bottom_second_lift_distance)
            + be32(self.bottom_second_lift_speed)
            + be32(self.second_lift_distance)
            + be32(self.second_lift_speed)
            + be32(self.bottom_second_retract_distance)
            + be32(self.bottom_second_retract_speed)
            + be32(self.second_retract_distance)
            + be32(self.second_retract_speed)
    }

    /// The last part of the header, from the power of the light on: 36 bytes.
    #[verifier::opaque]
    pub open spec fn closing_bytes(&self) -> Seq<u8> {
        be16(self.bottom_light_pwm)
            + be16(self.light_pwm)
            + seq![bool_byte(self.advance_mode)]
            + be32(self.printing_time)
            + be32(self.total_volume)
            + be32(self.total_weight)
            + be32(self.total_price)
            + self.price_unit@
            + be32(HEADER_SIZE as u32)
            + seq![bool_byte(self.grey_scale_level)]
            + be16(self.transition_layers)
    }

    /// The header as it stands in a file. The magic tag and the header size
    /// are written as the format has them, whatever the fields hold.
    #[verifier::opaque]
    pub open spec fn bytes(&self) -> Seq<u8> {
        self.identity_bytes() + pixel_bytes(self.small_preview@) + delimiter() + pixel_bytes(
            self.big_preview@,
        ) + delimiter() + self.exposure_bytes() + self.motion_bytes() + self.closing_bytes()
    }

    /// A header takes [`HEADER_SIZE`] bytes.
    pub proof fn lemma_bytes_len(&self)
        requires
            self.wf(),
        ensures
            self.identity_bytes().len() == 194,
            self.exposure_bytes().len() == 67,
            self.motion_bytes().len() == 64,
            self.closing_bytes().len() == 36,
            self.bytes().len() == HEADER_SIZE,
    {
        reveal(HeaderInfo::identity_bytes);
        reveal(HeaderInfo::exposure_bytes);
        reveal(HeaderInfo::motion_bytes);
        reveal(HeaderInfo::closing_bytes);
        reveal(HeaderInfo::bytes);
    }

    /// Whether the fields are what the header at the start of `s` holds.
    pub open spec fn decoded_from(&self, s: Seq<u8>) -> bool {
        &&& self.identity_decoded_from(s)
        &&& self.small_preview@ == pixels_at(s, 194, 13456)
        &&& self.big_preview@ == pixels_at(s, 27108, 84100)
        &&& self.exposure_decoded_from(s)
        &&& self.motion_decoded_from(s)
        &&& self.closing_decoded_from(s)
    }

    /// Whether the fields of this part are what the header at the start of
    /// `s` holds.
    #[verifier::opaque]
    pub open spec fn identity_decoded_from(&self, s: Seq<u8>) -> bool {
        &&& self.version@ == s.subrange(0, 4)
        &&& self.software_info@ == s.subrange(12, 44)
        &&& self.software_version@ == s.subrange(44, 68)
        &&& self.file_time@ == s.subrange(68, 92)
        &&& self.printer_name@ == s.subrange(92, 124)
        &&& self.printer_type@ == s.subrange(124, 156)
        &&& self.profile_name@ == s.subrange(156, 188)
        &&& self.anti_aliasing_level == be16_at(s, 188)
        &&& self.grey_level == be16_at(s, 190)
        &&& self.blur_level == be16_at(s, 192)
    }

    /// Whether the fields of this part are what the header at the start of
    /// `s` holds.
    #[verifier::opaque]
    pub open spec fn exposure_decoded_from(&self, s: Seq<u8>) -> bool {
        &&& self.layer_count == be32_at(s, 195310)
        &&& self.x_resolution == be16_at(s, 195314)
        &&& self.y_resolution == be16_at(s, 195316)
        &&& self.x_mirror == (s[195318] != 0)
        &&& self.y_mirror == (s[195319] != 0)
        &&& self.x_size == be32_at(s, 195320)
        &&& self.y_size == be32_at(s, 195324)
        &&& self.z_size == be32_at(s, 195328)
        &&& self.layer_thickness == be32_at(s, 195332)
        &&& self.exposure_time == be32_at(s, 195336)
        &&& self.exposure_delay_mode == (s[195340] != 0)
        &&& self.turn_off_time == be32_at(s, 195341)
        &&& self.bottom_before_lift_time == be32_at(s, 195345)
        &&& self.bottom_after_lift_time == be32_at(s, 195349)
        &&& self.bottom_after_retract_time == be32_at(s, 195353)
        &&& self.before_lift_time == be32_at(s, 195357)
        &&& self.after_lift_time == be32_at(s, 195361)
        &&& self.after_retract_time == be32_at(s, 195365)
        &&& self.bottom_exposure_time == be32_at(s, 195369)
        &&& self.bottom_layers == be32_at(s, 195373)
    }

    /// Whether the fields of this part are what the header at the start of
    /// `s` holds.
    #[verifier::opaque]
    pub open spec fn motion_decoded_from(&self, s: Seq<u8>) -> bool {
        &&& self.bottom_lift_distance == be32_at(s, 195377)
        &&& self.bottom_lift_speed == be32_at(s, 195381)
        &&& self.lift_distance == be32_at(s, 195385)
        &&& self.lift_speed == be32_at(s, 195389)
        &&& self.bottom_retract_distance == be32_at(s, 195393)
        &&& self.bottom_retract_speed == be32_at(s, 195397)
        &&& self.retract_distance == be32_at(s, 195401)
        &&& self.retract_speed == be32_at(s, 195405)
        &&& self.bottom_second_lift_distance == be32_at(s, 195409)
        &&& self.bottom_second_lift_speed == be32_at(s, 195413)
        &&& self.second_lift_distance == be32_at(s, 195417)
        &&& self.second_lift_speed == be32_at(s, 195421)
        &&& self.bottom_second_retract_distance == be32_at(s, 195425)
        &&& self.bottom_second_retract_speed == be32_at(s, 195429)
        &&& self.second_retract_distance == be32_at(s, 195433)
        &&& self.second_retract_speed == be32_at(s, 195437)
    }

    /// Whether the fields of this part are what the header at the start of
    /// `s` holds.
    #[verifier::opaque]
    pub open spec fn closing_decoded_from(&self, s: Seq<u8>) -> bool {
        &&& self.bottom_light_pwm == be16_at(s, 195441)
        &&& self.light_pwm == be16_at(s, 195443)
        &&& self.advance_mode == (s[195445] != 0)
        &&& self.printing_time == be32_at(s, 195446)
        &&& self.total_volume == be32_at(s, 195450)
        &&& self.total_weight == be32_at(s, 195454)
        &&& self.total_price == be32_at(s, 195458)
        &&& self.price_unit@ == s.subrange(195462, 195470)
        &&& self.grey_scale_level == (s[195474] != 0)
        &&& self.transition_layers == be16_at(s, 195475)
    }

    fn write_identity<T: Serializer>(&self, ser: &mut T)
        requires
            holds(old(ser).capacity(), old(ser).written().len() + 194),
        ensures
            self.identity_bytes().len() == 194,
            final(ser).written() == old(ser).written() + self.identity_bytes(),
            final(ser).capacity() == old(ser).capacity(),
    {
        let ghost before = ser.written();
        let magic: [u8; 8] = MAGIC_TAG;
        assert(magic@ =~= magic_tag());
        ser.write_sized_string(&self.version);
        let ghost mut acc = self.version@;
        ser.write_bytes(magic.as_slice());
        proof {
            acc = lemma_grow(before, acc, magic_tag(), ser.written());
        }
        ser.write_sized_string(&self.software_info);
        proof {
            acc = lemma_grow(before, acc, self.software_info@, ser.written());
        }
        ser.write_sized_string(&self.software_version);
        proof {
            acc = lemma_grow(before, acc, self.software_version@, ser.written());
        }
        ser.write_sized_string(&self.file_time);
        proof {
            acc = lemma_grow(before, acc, self.file_time@, ser.written());
        }
        ser.write_sized_string(&self.printer_name);
        proof {
            acc = lemma_grow(before, acc, self.printer_name@, ser.written());
        }
        ser.write_sized_string(&self.printer_type);
        proof {
            acc = lemma_grow(before, acc, self.printer_type@, ser.written());
        }
        ser.write_sized_string(&self.profile_name);
        proof {
            acc = lemma_grow(before, acc, self.profile_name@, ser.written());
        }
        ser.write_u16(self.anti_aliasing_level);
        proof {
            acc = lemma_grow(before, acc, be16(self.anti_aliasing_level), ser.written());
        }
        ser.write_u16(self.grey_level);
        proof {
            acc = lemma_grow(before, acc, be16(self.grey_level), ser.written());
        }
        ser.write_u16(self.blur_level);
        proof {
            acc = lemma_grow(before, acc, be16(self.blur_level), ser.written());
        }
        proof {
            reveal(HeaderInfo::identity_bytes);
        }
    }

    fn write_exposure<T: Serializer>(&self, ser: &mut T)
        requires
            holds(old(ser).capacity(), old(ser).written().len() + 67),
        ensures
            self.exposure_bytes().len() == 67,
            final(ser).written() == old(ser).written() + self.exposure_bytes(),
            final(ser).capacity() == old(ser).capacity(),
    {
        let ghost before = ser.written();
        ser.write_u32(self.layer_count);
        let ghost mut acc = be32(self.layer_count);
        ser.write_u16(self.x_resolution);
        proof {
            acc = lemma_grow(before, acc, be16(self.x_resolution), ser.written());
        }
        ser.write_u16(self.y_resolution);
        proof {
            acc = lemma_grow(before, acc, be16(self.y_resolution), ser.written());
        }
        ser.write_bool(self.x_mirror);
        proof {
            acc = lemma_grow(before, acc, seq![bool_byte(self.x_mirror)], ser.written());
        }
        ser.write_bool(self.y_mirror);
        proof {
            acc = lemma_grow(before, acc, seq![bool_byte(self.y_mirror)], ser.written());
        }
        ser.write_f32(self.x_size);
        proof {
            acc = lemma_grow(before, acc, be32(self.x_size), ser.written());
        }
        ser.write_f32(self.y_size);
        proof {
            acc = lemma_grow(before, acc, be32(self.y_size), ser.written());
        }
        ser.write_f32(self.z_size);
        proof {
            acc = lemma_grow(before, acc, be32(self.z_size), ser.written());
        }
        ser.write_f32(self.layer_thickness);
        proof {
            acc = lemma_grow(before, acc, be32(self.layer_thickness), ser.written());
        }
        ser.write_f32(self.exposure_time);
        proof {
            acc = lemma_grow(before, acc, be32(self.exposure_time), ser.written());
        }
        ser.write_bool(self.exposure_delay_mode);
        proof {
            acc = lemma_grow(before, acc, seq![bool_byte(self.exposure_delay_mode)], ser.written());
        }
        ser.write_f32(self.turn_off_time);
        proof {
            acc = lemma_grow(before, acc, be32(self.turn_off_time), ser.written());
        }
        ser.write_f32(self.bottom_before_lift_time);
        proof {
            acc = lemma_grow(before, acc, be32(self.bottom_before_lift_time), ser.written());
        }
        ser.write_f32(self.bottom_after_lift_time);
        proof {
            acc = lemma_grow(before, acc, be32(self.bottom_after_lift_time), ser.written());
        }
        ser.write_f32(self.bottom_after_retract_time);
        proof {
            acc = lemma_grow(before, acc, be32(self.bottom_after_retract_time), ser.written());
        }
        ser.write_f32(self.before_lift_time);
        proof {
            acc = lemma_grow(before, acc, be32(self.before_lift_time), ser.written());
        }
        ser.write_f32(self.after_lift_time);
        proof {
            acc = lemma_grow(before, acc, be32(self.after_lift_time), ser.written());
        }
        ser.write_f32(self.after_retract_time);
        proof {
            acc = lemma_grow(before, acc, be32(self.after_retract_time), ser.written());
        }
        ser.write_f32(self.bottom_exposure_time);
        proof {
            acc = lemma_grow(before, acc, be32(self.bottom_exposure_time), ser.written());
        }
        ser.write_u32(self.bottom_layers);
        proof {
            acc = lemma_grow(before, acc, be32(self.bottom_layers), ser.written());
        }
        proof {
            reveal(HeaderInfo::exposure_bytes);
        }
    }

    fn write_motion<T: Serializer>(&self, ser: &mut T)
        requires
            holds(old(ser).capacity(), old(ser).written().len() + 64),
        ensures
            self.motion_bytes().len() == 64,
            final(ser).written() == old(ser).written() + self.motion_bytes(),
            final(ser).capacity() == old(ser).capacity(),
    {
        let ghost before = ser.written();
        ser.write_f32(self.bottom_lift_distance);
        let ghost mut acc = be32(self.bottom_lift_distance);
        ser.write_f32(self.bottom_lift_speed);
        proof {
            acc = lemma_grow(before, acc, be32(self.bottom_lift_speed), ser.written());
        }
        ser.write_f32(self.lift_distance);
        proof {
            acc = lemma_grow(before, acc, be32(self.lift_distance), ser.written());
        }
        ser.write_f32(self.lift_speed);
        proof {
            acc = lemma_grow(before, acc, be32(self.lift_speed), ser.written());
        }
        ser.write_f32(self.bottom_retract_distance);
        proof {
            acc = lemma_grow(before, acc, be32(self.bottom_retract_distance), ser.written());
        }
        ser.write_f32(self.bottom_retract_speed);
        proof {
            acc = lemma_grow(before, acc, be32(self.bottom_retract_speed), ser.written());
        }
        ser.write_f32(self.retract_distance);
        proof {
            acc = lemma_grow(before, acc, be32(self.retract_distance), ser.written());
        }
        ser.write_f32(self.retract_speed);
        proof {
            acc = lemma_grow(before, acc, be32(self.retract_speed), ser.written());
        }
        ser.write_f32(self.bottom_second_lift_distance);
        proof {
            acc = lemma_grow(before, acc, be32(self.bottom_second_lift_distance), ser.written());
        }
        ser.write_f32(self.bottom_second_lift_speed);
        proof {
            acc = lemma_grow(before, acc, be32(self.bottom_second_lift_speed), ser.written());
        }
        ser.write_f32(self.second_lift_distance);
        proof {
            acc = lemma_grow(before, acc, be32(self.second_lift_distance), ser.written());
        }
        ser.write_f32(self.second_lift_speed);
        proof {
            acc = lemma_grow(before, acc, be32(self.second_lift_speed), ser.written());
        }
        ser.write_f32(self.bottom_second_retract_distance);
        proof {
            acc = lemma_grow(before, acc, be32(self.bottom_second_retract_distance), ser.written());
        }
        ser.write_f32(self.bottom_second_retract_speed);
        proof {
            acc = lemma_grow(before, acc, be32(self.bottom_second_retract_speed), ser.written());
        }
        ser.write_f32(self.second_retract_distance);
        proof {
            acc = lemma_grow(before, acc, be32(self.second_retract_distance), ser.written());
        }
        ser.write_f32(self.second_retract_speed);
        proof {
            acc = lemma_grow(before, acc, be32(self.second_retract_speed), ser.written());
        }
        proof {
            reveal(HeaderInfo::motion_bytes);
        }
    }

    fn write_closing<T: Serializer>(&self, ser: &mut T)
        requires
            holds(old(ser).capacity(), old(ser).written().len() + 36),
        ensures
            self.closing_bytes().len() == 36,
            final(ser).written() == old(ser).written() + self.closing_bytes(),
            final(ser).capacity() == old(ser).capacity(),
    {
        let ghost before = ser.written();
        ser.write_u16(self.bottom_light_pwm);
        let ghost mut acc = be16(self.bottom_light_pwm);
        ser.write_u16(self.light_pwm);
        proof {
            acc = lemma_grow(before, acc, be16(self.light_pwm), ser.written());
        }
        ser.write_bool(self.advance_mode);
        proof {
            acc = lemma_grow(before, acc, seq![bool_byte(self.advance_mode)], ser.written());
        }
        ser.write_u32(self.printing_time);
        proof {
            acc = lemma_grow(before, acc, be32(self.printing_time), ser.written());
        }
        ser.write_f32(self.total_volume);
        proof {
            acc = lemma_grow(before, acc, be32(self.total_volume), ser.written());
        }
        ser.write_f32(self.total_weight);
        proof {
            acc = lemma_grow(before, acc, be32(self.total_weight), ser.written());
        }
        ser.write_f32(self.total_price);
        proof {
            acc = lemma_grow(before, acc, be32(self.total_price), ser.written());
        }
        ser.write_sized_string(&self.price_unit);
        proof {
            acc = lemma_grow(before, acc, self.price_unit@, ser.written());
        }
        ser.write_u32(Self::SIZE as u32);
        proof {
            acc = lemma_grow(before, acc, be32(HEADER_SIZE as u32), ser.written());
        }
        ser.write_bool(self.grey_scale_level);
        proof {
            acc = lemma_grow(before, acc, seq![bool_byte(self.grey_scale_level)], ser.written());
        }
        ser.write_u16(self.transition_layers);
        proof {
            acc = lemma_grow(before, acc, be16(self.transition_layers), ser.written());
        }
        proof {
            reveal(HeaderInfo::closing_bytes);
        }
    }

    /// Writes the header.
    pub fn serialize<T: Serializer>(&self, ser: &mut T)
        requires
            holds(old(ser).capacity(), old(ser).written().len() + HEADER_SIZE as nat),
        ensures
            self.wf(),
            self.bytes().len() == HEADER_SIZE,
            final(ser).written() == old(ser).written() + self.bytes(),
            final(ser).capacity() == old(ser).capacity(),
    {
        let ghost before = ser.written();
        let mark: [u8; 2] = DELIMITER;
        assert(mark@ =~= delimiter());
        self.write_identity(ser);
        let ghost mut acc = self.identity_bytes();
        self.small_preview.serializes(ser);
        proof {
            acc = lemma_grow(before, acc, pixel_bytes(self.small_preview@), ser.written());
        }
        ser.write_bytes(mark.as_slice());
        proof {
            acc = lemma_grow(before, acc, delimiter(), ser.written());
        }
        self.big_preview.serializes(ser);
        proof {
            acc = lemma_grow(before, acc, pixel_bytes(self.big_preview@), ser.written());
        }
        ser.write_bytes(mark.as_slice());
        proof {
            acc = lemma_grow(before, acc, delimiter(), ser.written());
        }
        self.write_exposure(ser);
        proof {
            acc = lemma_grow(before, acc, self.exposure_bytes(), ser.written());
        }
        self.write_motion(ser);
        proof {
            acc = lemma_grow(before, acc, self.motion_bytes(), ser.written());
        }
        self.write_closing(ser);
        proof {
            acc = lemma_grow(before, acc, self.closing_bytes(), ser.written());
        }
        assert(acc == self.bytes()) by {
            reveal(HeaderInfo::bytes);
        }
    }

    /// Reads a header. The cursor moves behind the header, or stays where it
    /// is if the header is refused.
    pub fn deserialize(des: &mut Deserializer) -> (r: Result<Self, Error>)
        ensures
            final(des).data() == old(des).data(),
            match r {
                Ok(header) => {
                    &&& header_len(old(des).rest()) == Ok::<nat, Error>(HEADER_SIZE as nat)
                    &&& final(des).position() == old(des).position() + HEADER_SIZE
                    &&& header.decoded_from(old(des).rest())
                    &&& header.wf()
                },
                Err(e) => {
                    &&& header_len(old(des).rest()) == Err::<nat, Error>(e)
                    &&& final(des).position() == old(des).position()
                },
            },
    {
        if des.remaining() < Self::SIZE {
            return Err(Error::UnexpectedEnd);
        }
        let mut probe: Deserializer = *des;
        let record = probe.read_bytes(Self::SIZE);
        let ghost s = des.rest();
        assert(record@ =~= s.subrange(0, HEADER_SIZE as int));
        let mut cur: Deserializer = Deserializer::new(record);
        let version: SizedString<4> = cur.read_sized_string();
        assert(version@ =~= s.subrange(0, 4));
        let tag = cur.read_bytes(8);
        assert(tag@ =~= s.subrange(4, 12));
        if !is_magic_tag(tag) {
            return Err(Error::BadMagic);
        }
        let software_info: SizedString<32> = cur.read_sized_string();
        assert(software_info@ =~= s.subrange(12, 44));
        let software_version: SizedString<24> = cur.read_sized_string();
        assert(software_version@ =~= s.subrange(44, 68));
        let file_time: SizedString<24> = cur.read_sized_string();
        assert(file_time@ =~= s.subrange(68, 92));
        let printer_name: SizedString<32> = cur.read_sized_string();
        assert(printer_name@ =~= s.subrange(92, 124));
        let printer_type: SizedString<32> = cur.read_sized_string();
        assert(printer_type@ =~= s.subrange(124, 156));
        let profile_name: SizedString<32> = cur.read_sized_string();
        assert(profile_name@ =~= s.subrange(156, 188));
        let anti_aliasing_level: u16 = cur.read_u16();
        let grey_level: u16 = cur.read_u16();
        let blur_level: u16 = cur.read_u16();
        let small_preview: PreviewImage<116, 116> = PreviewImage::deserializes(&mut cur);
        assert(small_preview@ =~= pixels_at(s, 194, 13456));
        let mark = cur.read_bytes(2);
        assert(mark@ =~= s.subrange(27106, 27108));
        if !is_delimiter(mark) {
            return Err(Error::BadDelimiter);
        }
        let big_preview: PreviewImage<290, 290> = PreviewImage::deserializes(&mut cur);
        assert(big_preview@ =~= pixels_at(s, 27108, 84100));
        let mark = cur.read_bytes(2);
        assert(mark@ =~= s.subrange(195308, 195310));
        if !is_delimiter(mark) {
            return Err(Error::BadDelimiter);
        }
        let layer_count: u32 = cur.read_u32();
        let x_resolution: u16 = cur.read_u16();
        let y_resolution: u16 = cur.read_u16();
        let x_mirror: bool = cur.read_bool();
        let y_mirror: bool = cur.read_bool();
        let x_size: F32Bits = cur.read_f32();
        let y_size: F32Bits = cur.read_f32();
        let z_size: F32Bits = cur.read_f32();
        let layer_thickness: F32Bits = cur.read_f32();
        let exposure_time: F32Bits = cur.read_f32();
        let exposure_delay_mode: bool = cur.read_bool();
        let turn_off_time: F32Bits = cur.read_f32();
        let bottom_before_lift_time: F32Bits = cur.read_f32();
        let bottom_after_lift_time: F32Bits = cur.read_f32();
        let bottom_after_retract_time: F32Bits = cur.read_f32();
        let before_lift_time: F32Bits = cur.read_f32();
        let after_lift_time: F32Bits = cur.read_f32();
        let after_retract_time: F32Bits = cur.read_f32();
        let bottom_exposure_time: F32Bits = cur.read_f32();
        let bottom_layers: u32 = cur.read_u32();
        let bottom_lift_distance: F32Bits = cur.read_f32();
        let bottom_lift_speed: F32Bits = cur.read_f32();
        let lift_distance: F32Bits = cur.read_f32();
        let lift_speed: F32Bits = cur.read_f32();
        let bottom_retract_distance: F32Bits = cur.read_f32();
        let bottom_retract_speed: F32Bits = cur.read_f32();
        let retract_distance: F32Bits = cur.read_f32();
        let retract_speed: F32Bits = cur.read_f32();
        let bottom_second_lift_distance: F32Bits = cur.read_f32();
        let bottom_second_lift_speed: F32Bits = cur.read_f32();
        let second_lift_distance: F32Bits = cur.read_f32();
        let second_lift_speed: F32Bits = cur.read_f32();
        let bottom_second_retract_distance: F32Bits = cur.read_f32();
        let bottom_second_retract_speed: F32Bits = cur.read_f32();
        let second_retract_distance: F32Bits = cur.read_f32();
        let second_retract_speed: F32Bits = cur.read_f32();
        let bottom_light_pwm: u16 = cur.read_u16();
        let light_pwm: u16 = cur.read_u16();
        let advance_mode: bool = cur.read_bool();
        let printing_time: u32 = cur.read_u32();
        let total_volume: F32Bits = cur.read_f32();
        let total_weight: F32Bits = cur.read_f32();
        let total_price: F32Bits = cur.read_f32();
        let price_unit: SizedString<8> = cur.read_sized_string();
        assert(price_unit@ =~= s.subrange(195462, 195470));
        let stated: u32 = cur.read_u32();
        if stated != Self::SIZE as u32 {
            return Err(Error::BadHeaderSize);
        }
        let grey_scale_level: bool = cur.read_bool();
        let transition_layers: u16 = cur.read_u16();
        *des = probe;
        proof {
            reveal(HeaderInfo::identity_decoded_from);
            reveal(HeaderInfo::exposure_decoded_from);
            reveal(HeaderInfo::motion_decoded_from);
            reveal(HeaderInfo::closing_decoded_from);
        }
        Ok(
            Self {
                version,
                software_info,
                software_version,
                file_time,
                printer_name,
                printer_type,
                profile_name,
                anti_aliasing_level,
                grey_level,
                blur_level,
                small_preview,
                big_preview,
                layer_count,
                x_resolution,
                y_resolution,
                x_mirror,
                y_mirror,
                x_size,
                y_size,
                z_size,
                layer_thickness,
                exposure_time,
                exposure_delay_mode,
                turn_off_time,
                bottom_before_lift_time,
                bottom_after_lift_time,
                bottom_after_retract_time,
                before_lift_time,
                after_lift_time,
                after_retract_time,
                bottom_exposure_time,
                bottom_layers,
                bottom_lift_distance,
                bottom_lift_speed,
                lift_distance,
                lift_speed,
                bottom_retract_distance,
                bottom_retract_speed,
                retract_distance,
                retract_speed,
                bottom_second_lift_distance,
                bottom_second_lift_speed,
                second_lift_distance,
                second_lift_speed,
                bottom_second_retract_distance,
                bottom_second_retract_speed,
                second_retract_distance,
                second_retract_speed,
                bottom_light_pwm,
                light_pwm,
                advance_mode,
                printing_time,
                total_volume,
                total_weight,
                total_price,
                price_unit,
                grey_scale_level,
                transition_layers,
            },
        )
    }
}

/// The number of bytes of the header at the start of `s`, or why there is
/// none. The tests are made in this order: enough bytes, the magic tag, the
/// delimiter behind each preview picture, the stated header size.
pub open spec fn header_len(s: Seq<u8>) -> Result<nat, Error> {
    if s.len() < HEADER_SIZE {
        Err(Error::UnexpectedEnd)
    } else if s.subrange(4, 12) != magic_tag() {
        Err(Error::BadMagic)
    } else if s.subrange(27106, 27108) != delimiter() || s.subrange(195308, 195310) != delimiter() {
        Err(Error::BadDelimiter)
    } else if be32_at(s, 195470) != HEADER_SIZE {
        Err(Error::BadHeaderSize)
    } else {
        Ok(HEADER_SIZE as nat)
    }
}

/// What was written of the first part is read back, whatever follows it.
proof fn lemma_identity_round_trip(header: HeaderInfo, rest: Seq<u8>)
    ensures
        header.identity_bytes().len() == 194,
        (header.identity_bytes() + rest).subrange(0, 4) == header.version@,
        (header.identity_bytes() + rest).subrange(4, 12) == magic_tag(),
        (header.identity_bytes() + rest).subrange(12, 44) == header.software_info@,
        (header.identity_bytes() + rest).subrange(44, 68) == header.software_version@,
        (header.identity_bytes() + rest).subrange(68, 92) == header.file_time@,
        (header.identity_bytes() + rest).subrange(92, 124) == header.printer_name@,
        (header.identity_bytes() + rest).subrange(124, 156) == header.printer_type@,
        (header.identity_bytes() + rest).subrange(156, 188) == header.profile_name@,
        be16_at(header.identity_bytes() + rest, 188) == header.anti_aliasing_level,
        be16_at(header.identity_bytes() + rest, 190) == header.grey_level,
        be16_at(header.identity_bytes() + rest, 192) == header.blur_level,
{
    let s = header.identity_bytes() + rest;
    // The part as it grows, field by field.
    let a0 = Seq::<u8>::empty();
    let a1 = a0 + header.version@;
    assert(a1 =~= header.version@);
    assert(a1.len() == 4);
    let a2 = a1 + magic_tag();
    assert(a2.len() == 12);
    let a3 = a2 + header.software_info@;
    assert(a3.len() == 44);
    let a4 = a3 + header.software_version@;
    assert(a4.len() == 68);
    let a5 = a4 + header.file_time@;
    assert(a5.len() == 92);
    let a6 = a5 + header.printer_name@;
    assert(a6.len() == 124);
    let a7 = a6 + header.printer_type@;
    assert(a7.len() == 156);
    let a8 = a7 + header.profile_name@;
    assert(a8.len() == 188);
    let a9 = a8 + be16(header.anti_aliasing_level);
    assert(a9.len() == 190);
    let a10 = a9 + be16(header.grey_level);
    assert(a10.len() == 192);
    let a11 = a10 + be16(header.blur_level);
    assert(a11.len() == 194);
    assert(header.identity_bytes() == a11 && joins(s, a11, rest)) by {
        reveal(HeaderInfo::identity_bytes);
        reveal(joins);
    }
    // From the last field to the first: each is read where the fields in
    // front of it end.
    let t11 = rest;
    lemma_be16_field(a10, header.blur_level, t11, s);
    let t10 = be16(header.blur_level) + t11;
    lemma_be16_field(a9, header.grey_level, t10, s);
    let t9 = be16(header.grey_level) + t10;
    lemma_be16_field(a8, header.anti_aliasing_level, t9, s);
    let t8 = be16(header.anti_aliasing_level) + t9;
    lemma_bytes_field(a7, header.profile_name@, t8, s);
    let t7 = header.profile_name@ + t8;
    lemma_bytes_field(a6, header.printer_type@, t7, s);
    let t6 = header.printer_type@ + t7;
    lemma_bytes_field(a5, header.printer_name@, t6, s);
    let t5 = header.printer_name@ + t6;
    lemma_bytes_field(a4, header.file_time@, t5, s);
    let t4 = header.file_time@ + t5;
    lemma_bytes_field(a3, header.software_version@, t4, s);
    let t3 = header.software_version@ + t4;
    lemma_bytes_field(a2, header.software_info@, t3, s);
    let t2 = header.software_info@ + t3;
    lemma_bytes_field(a1, magic_tag(), t2, s);
    let t1 = magic_tag() + t2;
    lemma_bytes_field(a0, header.version@, t1, s);
}

/// What was written of the part behind the preview pictures is read back, whatever follows it.
proof fn lemma_exposure_round_trip(header: HeaderInfo, rest: Seq<u8>)
    ensures
        header.exposure_bytes().len() == 67,
        be32_at(header.exposure_bytes() + rest, 0) == header.layer_count,
        be16_at(header.exposure_bytes() + rest, 4) == header.x_resolution,
        be16_at(header.exposure_bytes() + rest, 6) == header.y_resolution,
        ((header.exposure_bytes() + rest)[8] != 0) == header.x_mirror,
        ((header.exposure_bytes() + rest)[9] != 0) == header.y_mirror,
        be32_at(header.exposure_bytes() + rest, 10) == header.x_size,
        be32_at(header.exposure_bytes() + rest, 14) == header.y_size,
        be32_at(header.exposure_bytes() + rest, 18) == header.z_size,
        be32_at(header.exposure_bytes() + rest, 22) == header.layer_thickness,
        be32_at(header.exposure_bytes() + rest, 26) == header.exposure_time,
        ((header.exposure_bytes() + rest)[30] != 0) == header.exposure_delay_mode,
        be32_at(header.exposure_bytes() + rest, 31) == header.turn_off_time,
        be32_at(header.exposure_bytes() + rest, 35) == header.bottom_before_lift_time,
        be32_at(header.exposure_bytes() + rest, 39) == header.bottom_after_lift_time,
        be32_at(header.exposure_bytes() + rest, 43) == header.bottom_after_retract_time,
        be32_at(header.exposure_bytes() + rest, 47) == header.before_lift_time,
        be32_at(header.exposure_bytes() + rest, 51) == header.after_lift_time,
        be32_at(header.exposure_bytes() + rest, 55) == header.after_retract_time,
        be32_at(header.exposure_bytes() + rest, 59) == header.bottom_exposure_time,
        be32_at(header.exposure_bytes() + rest, 63) == header.bottom_layers,
{
    let s = header.exposure_bytes() + rest;
    // The part as it grows, field by field.
    let a0 = Seq::<u8>::empty();
    let a1 = a0 + be32(header.layer_count);
    assert(a1 =~= be32(header.layer_count));
    assert(a1.len() == 4);
    let a2 = a1 + be16(header.x_resolution);
    assert(a2.len() == 6);
    let a3 = a2 + be16(header.y_resolution);
    assert(a3.len() == 8);
    let a4 = a3 + seq![bool_byte(header.x_mirror)];
    assert(a4.len() == 9);
    let a5 = a4 + seq![bool_byte(header.y_mirror)];
    assert(a5.len() == 10);
    let a6 = a5 + be32(header.x_size);
    assert(a6.len() == 14);
    let a7 = a6 + be32(header.y_size);
    assert(a7.len() == 18);
    let a8 = a7 + be32(header.z_size);
    assert(a8.len() == 22);
    let a9 = a8 + be32(header.layer_thickness);
    assert(a9.len() == 26);
    let a10 = a9 + be32(header.exposure_time);
    assert(a10.len() == 30);
    let a11 = a10 + seq![bool_byte(header.exposure_delay_mode)];
    assert(a11.len() == 31);
    let a12 = a11 + be32(header.turn_off_time);
    assert(a12.len() == 35);
    let a13 = a12 + be32(header.bottom_before_lift_time);
    assert(a13.len() == 39);
    let a14 = a13 + be32(header.bottom_after_lift_time);
    assert(a14.len() == 43);
    let a15 = a14 + be32(header.bottom_after_retract_time);
    assert(a15.len() == 47);
    let a16 = a15 + be32(header.before_lift_time);
    assert(a16.len() == 51);
    let a17 = a16 + be32(header.after_lift_time);
    assert(a17.len() == 55);
    let a18 = a17 + be32(header.after_retract_time);
    assert(a18.len() == 59);
    let a19 = a18 + be32(header.bottom_exposure_time);
    assert(a19.len() == 63);
    let a20 = a19 + be32(header.bottom_layers);
    assert(a20.len() == 67);
    assert(header.exposure_bytes() == a20 && joins(s, a20, rest)) by {
        reveal(HeaderInfo::exposure_bytes);
        reveal(joins);
    }
    // From the last field to the first: each is read where the fields in
    // front of it end.
    let t20 = rest;
    lemma_be32_field(a19, header.bottom_layers, t20, s);
    let t19 = be32(header.bottom_layers) + t20;
    lemma_be32_field(a18, header.bottom_exposure_time, t19, s);
    let t18 = be32(header.bottom_exposure_time) + t19;
    lemma_be32_field(a17, header.after_retract_time, t18, s);
    let t17 = be32(header.after_retract_time) + t18;
    lemma_be32_field(a16, header.after_lift_time, t17, s);
    let t16 = be32(header.after_lift_time) + t17;
    lemma_be32_field(a15, header.before_lift_time, t16, s);
    let t15 = be32(header.before_lift_time) + t16;
    lemma_be32_field(a14, header.bottom_after_retract_time, t15, s);
    let t14 = be32(header.bottom_after_retract_time) + t15;
    lemma_be32_field(a13, header.bottom_after_lift_time, t14, s);
    let t13 = be32(header.bottom_after_lift_time) + t14;
    lemma_be32_field(a12, header.bottom_before_lift_time, t13, s);
    let t12 = be32(header.bottom_before_lift_time) + t13;
    lemma_be32_field(a11, header.turn_off_time, t12, s);
    let t11 = be32(header.turn_off_time) + t12;
    lemma_bool_field(a10, header.exposure_delay_mode, t11, s);
    let t10 = seq![bool_byte(header.exposure_delay_mode)] + t11;
    lemma_be32_field(a9, header.exposure_time, t10, s);
    let t9 = be32(header.exposure_time) + t10;
    lemma_be32_field(a8, header.layer_thickness, t9, s);
    let t8 = be32(header.layer_thickness) + t9;
    lemma_be32_field(a7, header.z_size, t8, s);
    let t7 = be32(header.z_size) + t8;
    lemma_be32_field(a6, header.y_size, t7, s);
    let t6 = be32(header.y_size) + t7;
    lemma_be32_field(a5, header.x_size, t6, s);
    let t5 = be32(header.x_size) + t6;
    lemma_bool_field(a4, header.y_mirror, t5, s);
    let t4 = seq![bool_byte(header.y_mirror)] + t5;
    lemma_bool_field(a3, header.x_mirror, t4, s);
    let t3 = seq![bool_byte(header.x_mirror)] + t4;
    lemma_be16_field(a2, header.y_resolution, t3, s);
    let t2 = be16(header.y_resolution) + t3;
    lemma_be16_field(a1, header.x_resolution, t2, s);
    let t1 = be16(header.x_resolution) + t2;
    lemma_be32_field(a0, header.layer_count, t1, s);
}

/// What was written of the motion part is read back, whatever follows it.
proof fn lemma_motion_round_trip(header: HeaderInfo, rest: Seq<u8>)
    ensures
        header.motion_bytes().len() == 64,
        be32_at(header.motion_bytes() + rest, 0) == header.bottom_lift_distance,
        be32_at(header.motion_bytes() + rest, 4) == header.bottom_lift_speed,
        be32_at(header.motion_bytes() + rest, 8) == header.lift_distance,
        be32_at(header.motion_bytes() + rest, 12) == header.lift_speed,
        be32_at(header.motion_bytes() + rest, 16) == header.bottom_retract_distance,
        be32_at(header.motion_bytes() + rest, 20) == header.bottom_retract_speed,
        be32_at(header.motion_bytes() + rest, 24) == header.retract_distance,
        be32_at(header.motion_bytes() + rest, 28) == header.retract_speed,
        be32_at(header.motion_bytes() + rest, 32) == header.bottom_second_lift_distance,
        be32_at(header.motion_bytes() + rest, 36) == header.bottom_second_lift_speed,
        be32_at(header.motion_bytes() + rest, 40) == header.second_lift_distance,
        be32_at(header.motion_bytes() + rest, 44) == header.second_lift_speed,
        be32_at(header.motion_bytes() + rest, 48) == header.bottom_second_retract_distance,
        be32_at(header.motion_bytes() + rest, 52) == header.bottom_second_retract_speed,
        be32_at(header.motion_bytes() + rest, 56) == header.second_retract_distance,
        be32_at(header.motion_bytes() + rest, 60) == header.second_retract_speed,
{
    let s = header.motion_bytes() + rest;
    // The part as it grows, field by field.
    let a0 = Seq::<u8>::empty();
    let a1 = a0 + be32(header.bottom_lift_distance);
    assert(a1 =~= be32(header.bottom_lift_distance));
    assert(a1.len() == 4);
    let a2 = a1 + be32(header.bottom_lift_speed);
    assert(a2.len() == 8);
    let a3 = a2 + be32(header.lift_distance);
    assert(a3.len() == 12);
    let a4 = a3 + be32(header.lift_speed);
    assert(a4.len() == 16);
    let a5 = a4 + be32(header.bottom_retract_distance);
    assert(a5.len() == 20);
    let a6 = a5 + be32(header.bottom_retract_speed);
    assert(a6.len() == 24);
    let a7 = a6 + be32(header.retract_distance);
    assert(a7.len() == 28);
    let a8 = a7 + be32(header.retract_speed);
    assert(a8.len() == 32);
    let a9 = a8 + be32(header.bottom_second_lift_distance);
    assert(a9.len() == 36);
    let a10 = a9 + be32(header.bottom_second_lift_speed);
    assert(a10.len() == 40);
    let a11 = a10 + be32(header.second_lift_distance);
    assert(a11.len() == 44);
    let a12 = a11 + be32(header.second_lift_speed);
    assert(a12.len() == 48);
    let a13 = a12 + be32(header.bottom_second_retract_distance);
    assert(a13.len() == 52);
    let a14 = a13 + be32(header.bottom_second_retract_speed);
    assert(a14.len() == 56);
    let a15 = a14 + be32(header.second_retract_distance);
    assert(a15.len() == 60);
    let a16 = a15 + be32(header.second_retract_speed);
    assert(a16.len() == 64);
    assert(header.motion_bytes() == a16 && joins(s, a16, rest)) by {
        reveal(HeaderInfo::motion_bytes);
        reveal(joins);
    }
    // From the last field to the first: each is read where the fields in
    // front of it end.
    let t16 = rest;
    lemma_be32_field(a15, header.second_retract_speed, t16, s);
    let t15 = be32(header.second_retract_speed) + t16;
    lemma_be32_field(a14, header.second_retract_distance, t15, s);
    let t14 = be32(header.second_retract_distance) + t15;
    lemma_be32_field(a13, header.bottom_second_retract_speed, t14, s);
    let t13 = be32(header.bottom_second_retract_speed) + t14;
    lemma_be32_field(a12, header.bottom_second_retract_distance, t13, s);
    let t12 = be32(header.bottom_second_retract_distance) + t13;
    lemma_be32_field(a11, header.second_lift_speed, t12, s);
    let t11 = be32(header.second_lift_speed) + t12;
    lemma_be32_field(a10, header.second_lift_distance, t11, s);
    let t10 = be32(header.second_lift_distance) + t11;
    lemma_be32_field(a9, header.bottom_second_lift_speed, t10, s);
    let t9 = be32(header.bottom_second_lift_speed) + t10;
    lemma_be32_field(a8, header.bottom_second_lift_distance, t9, s);
    let t8 = be32(header.bottom_second_lift_distance) + t9;
    lemma_be32_field(a7, header.retract_speed, t8, s);
    let t7 = be32(header.retract_speed) + t8;
    lemma_be32_field(a6, header.retract_distance, t7, s);
    let t6 = be32(header.retract_distance) + t7;
    lemma_be32_field(a5, header.bottom_retract_speed, t6, s);
    let t5 = be32(header.bottom_retract_speed) + t6;
    lemma_be32_field(a4, header.bottom_retract_distance, t5, s);
    let t4 = be32(header.bottom_retract_distance) + t5;
    lemma_be32_field(a3, header.lift_speed, t4, s);
    let t3 = be32(header.lift_speed) + t4;
    lemma_be32_field(a2, header.lift_distance, t3, s);
    let t2 = be32(header.lift_distance) + t3;
    lemma_be32_field(a1, header.bottom_lift_speed, t2, s);
    let t1 = be32(header.bottom_lift_speed) + t2;
    lemma_be32_field(a0, header.bottom_lift_distance, t1, s);
}

/// What was written of the last part is read back, whatever follows it.
proof fn lemma_closing_round_trip(header: HeaderInfo, rest: Seq<u8>)
    ensures
        header.closing_bytes().len() == 36,
        be16_at(header.closing_bytes() + rest, 0) == header.bottom_light_pwm,
        be16_at(header.closing_bytes() + rest, 2) == header.light_pwm,
        ((header.closing_bytes() + rest)[4] != 0) == header.advance_mode,
        be32_at(header.closing_bytes() + rest, 5) == header.printing_time,
        be32_at(header.closing_bytes() + rest, 9) == header.total_volume,
        be32_at(header.closing_bytes() + rest, 13) == header.total_weight,
        be32_at(header.closing_bytes() + rest, 17) == header.total_price,
        (header.closing_bytes() + rest).subrange(21, 29) == header.price_unit@,
        be32_at(header.closing_bytes() + rest, 29) == HEADER_SIZE,
        ((header.closing_bytes() + rest)[33] != 0) == header.grey_scale_level,
        be16_at(header.closing_bytes() + rest, 34) == header.transition_layers,
{
    let s = header.closing_bytes() + rest;
    // The part as it grows, field by field.
    let a0 = Seq::<u8>::empty();
    let a1 = a0 + be16(header.bottom_light_pwm);
    assert(a1 =~= be16(header.bottom_light_pwm));
    assert(a1.len() == 2);
    let a2 = a1 + be16(header.light_pwm);
    assert(a2.len() == 4);
    let a3 = a2 + seq![bool_byte(header.advance_mode)];
    assert(a3.len() == 5);
    let a4 = a3 + be32(header.printing_time);
    assert(a4.len() == 9);
    let a5 = a4 + be32(header.total_volume);
    assert(a5.len() == 13);
    let a6 = a5 + be32(header.total_weight);
    assert(a6.len() == 17);
    let a7 = a6 + be32(header.total_price);
    assert(a7.len() == 21);
    let a8 = a7 + header.price_unit@;
    assert(a8.len() == 29);
    let a9 = a8 + be32(HEADER_SIZE as u32);
    assert(a9.len() == 33);
    let a10 = a9 + seq![bool_byte(header.grey_scale_level)];
    assert(a10.len() == 34);
    let a11 = a10 + be16(header.transition_layers);
    assert(a11.len() == 36);
    assert(header.closing_bytes() == a11 && joins(s, a11, rest)) by {
        reveal(HeaderInfo::closing_bytes);
        reveal(joins);
    }
    // From the last field to the first: each is read where the fields in
    // front of it end.
    let t11 = rest;
    lemma_be16_field(a10, header.transition_layers, t11, s);
    let t10 = be16(header.transition_layers) + t11;
    lemma_bool_field(a9, header.grey_scale_level, t10, s);
    let t9 = seq![bool_byte(header.grey_scale_level)] + t10;
    lemma_be32_field(a8, HEADER_SIZE as u32, t9, s);
    let t8 = be32(HEADER_SIZE as u32) + t9;
    lemma_bytes_field(a7, header.price_unit@, t8, s);
    let t7 = header.price_unit@ + t8;
    lemma_be32_field(a6, header.total_price, t7, s);
    let t6 = be32(header.total_price) + t7;
    lemma_be32_field(a5, header.total_weight, t6, s);
    let t5 = be32(header.total_weight) + t6;
    lemma_be32_field(a4, header.total_volume, t5, s);
    let t4 = be32(header.total_volume) + t5;
    lemma_be32_field(a3, header.printing_time, t4, s);
    let t3 = be32(header.printing_time) + t4;
    lemma_bool_field(a2, header.advance_mode, t3, s);
    let t2 = seq![bool_byte(header.advance_mode)] + t3;
    lemma_be16_field(a1, header.light_pwm, t2, s);
    let t1 = be16(header.light_pwm) + t2;
    lemma_be16_field(a0, header.bottom_light_pwm, t1, s);
}

/// What follows the first part of a written header.
spec fn after_identity(header: HeaderInfo, rest: Seq<u8>) -> Seq<u8> {
    pixel_bytes(header.small_preview@) + after_small(header, rest)
}

/// What follows the small preview picture of a written header.
spec fn after_small(header: HeaderInfo, rest: Seq<u8>) -> Seq<u8> {
    delimiter() + (pixel_bytes(header.big_preview@) + after_big(header, rest))
}

/// What follows the big preview picture of a written header.
spec fn after_big(header: HeaderInfo, rest: Seq<u8>) -> Seq<u8> {
    delimiter() + (header.exposure_bytes() + after_exposure(header, rest))
}

/// What follows the exposure part of a written header.
spec fn after_exposure(header: HeaderInfo, rest: Seq<u8>) -> Seq<u8> {
    header.motion_bytes() + after_motion(header, rest)
}

/// What follows the motion part of a written header.
spec fn after_motion(header: HeaderInfo, rest: Seq<u8>) -> Seq<u8> {
    header.closing_bytes() + rest
}

/// Where the parts of a written header stand.
proof fn lemma_header_layout(header: HeaderInfo, rest: Seq<u8>)
    requires
        header.wf(),
    ensures
        header.bytes().len() == HEADER_SIZE,
        header.bytes() + rest == header.identity_bytes() + after_identity(header, rest),
        (header.bytes() + rest).len() >= HEADER_SIZE,
        pixels_at(header.bytes() + rest, 194, 13456) == header.small_preview@,
        pixels_at(header.bytes() + rest, 27108, 84100) == header.big_preview@,
        (header.bytes() + rest).subrange(27106, 27108) == delimiter(),
        (header.bytes() + rest).subrange(195308, 195310) == delimiter(),
        forall|i: int|
            0 <= i < 67 ==> (header.bytes() + rest)[195310 + i] == (header.exposure_bytes()
                + after_exposure(header, rest))[i],
        forall|i: int|
            0 <= i < 64 ==> (header.bytes() + rest)[195377 + i] == (header.motion_bytes()
                + after_motion(header, rest))[i],
        forall|i: int|
            0 <= i < 36 ==> (header.bytes() + rest)[195441 + i] == (header.closing_bytes()
                + rest)[i],
{
    reveal(HeaderInfo::bytes);
    header.lemma_bytes_len();
    let s = header.bytes() + rest;
    let a = header.identity_bytes();
    let b = pixel_bytes(header.small_preview@);
    let c = pixel_bytes(header.big_preview@);
    let d = header.exposure_bytes();
    let e = header.motion_bytes();
    let g = header.closing_bytes();
    let m = delimiter();
    let f1 = a + b;
    let f2 = f1 + m;
    let f3 = f2 + c;
    let f4 = f3 + m;
    let f5 = f4 + d;
    let f6 = f5 + e;
    assert(joins(s, f6 + g, rest)) by {
        reveal(joins);
    }
    lemma_bytes_field(f6, g, rest, s);
    let t6 = g + rest;
    lemma_bytes_field(f5, e, t6, s);
    let t5 = e + t6;
    lemma_bytes_field(f4, d, t5, s);
    let t4 = d + t5;
    lemma_bytes_field(f3, m, t4, s);
    let t3 = m + t4;
    lemma_bytes_field(f2, c, t3, s);
    let t2 = c + t3;
    lemma_bytes_field(f1, m, t2, s);
    let t1 = m + t2;
    lemma_bytes_field(a, b, t1, s);
    assert(f4.len() == 195310);
    assert(f5.len() == 195377);
    assert(f6.len() == 195441);
    assert(s == a + after_identity(header, rest)) by {
        reveal(joins);
    }
    assert(pixels_at(s, 194, 13456) == header.small_preview@) by {
        reveal(joins);
        lemma_pixel_bytes_round_trip(header.small_preview@, a, t1);
        lemma_concat_regroup(a, b, t1);
    }
    assert(pixels_at(s, 27108, 84100) == header.big_preview@) by {
        reveal(joins);
        lemma_pixel_bytes_round_trip(header.big_preview@, f2, t3);
        lemma_concat_regroup(f2, c, t3);
    }
    assert forall|i: int| 0 <= i < 67 implies s[195310 + i] == (d + t5)[i] by {
        reveal(joins);
    }
    assert forall|i: int| 0 <= i < 64 implies s[195377 + i] == (e + t6)[i] by {
        reveal(joins);
    }
    assert forall|i: int| 0 <= i < 36 implies s[195441 + i] == (g + rest)[i] by {
        reveal(joins);
    }
}

/// The fields of this part are read back from a written header.
proof fn lemma_identity_in_place(header: HeaderInfo, rest: Seq<u8>)
    requires
        header.wf(),
    ensures
        header.identity_decoded_from(header.bytes() + rest),
        (header.bytes() + rest).subrange(4, 12) == magic_tag(),
{
    reveal(HeaderInfo::identity_decoded_from);
    lemma_identity_round_trip(header, after_identity(header, rest));
    let s = header.bytes() + rest;
    let part = header.identity_bytes() + after_identity(header, rest);
    assert(s == part) by {
        lemma_header_layout(header, rest);
    }
    assert(s.subrange(0, 4) =~= part.subrange(0, 4));
    assert(s.subrange(4, 12) =~= part.subrange(4, 12));
    assert(s.subrange(12, 44) =~= part.subrange(12, 44));
    assert(s.subrange(44, 68) =~= part.subrange(44, 68));
    assert(s.subrange(68, 92) =~= part.subrange(68, 92));
    assert(s.subrange(92, 124) =~= part.subrange(92, 124));
    assert(s.subrange(124, 156) =~= part.subrange(124, 156));
    assert(s.subrange(156, 188) =~= part.subrange(156, 188));
    assert(be16_at(s, 188) == be16_at(part, 188));
    assert(be16_at(s, 190) == be16_at(part, 190));
    assert(be16_at(s, 192) == be16_at(part, 192));
}

/// The fields of this part are read back from a written header.
proof fn lemma_exposure_in_place(header: HeaderInfo, rest: Seq<u8>)
    requires
        header.wf(),
    ensures
        header.exposure_decoded_from(header.bytes() + rest),
{
    reveal(HeaderInfo::exposure_decoded_from);
    lemma_exposure_round_trip(header, after_exposure(header, rest));
    let s = header.bytes() + rest;
    let part = header.exposure_bytes() + after_exposure(header, rest);
    assert(s.len() >= HEADER_SIZE && (forall|i: int| 0 <= i < 67 ==> s[195310 + i] == part[i])) by {
        lemma_header_layout(header, rest);
    }
    assert(be32_at(s, 195310) == be32_at(part, 0));
    assert(be16_at(s, 195314) == be16_at(part, 4));
    assert(be16_at(s, 195316) == be16_at(part, 6));
    assert(s[195318] == part[8]);
    assert(s[195319] == part[9]);
    assert(be32_at(s, 195320) == be32_at(part, 10));
    assert(be32_at(s, 195324) == be32_at(part, 14));
    assert(be32_at(s, 195328) == be32_at(part, 18));
    assert(be32_at(s, 195332) == be32_at(part, 22));
    assert(be32_at(s, 195336) == be32_at(part, 26));
    assert(s[195340] == part[30]);
    assert(be32_at(s, 195341) == be32_at(part, 31));
    assert(be32_at(s, 195345) == be32_at(part, 35));
    assert(be32_at(s, 195349) == be32_at(part, 39));
    assert(be32_at(s, 195353) == be32_at(part, 43));
    assert(be32_at(s, 195357) == be32_at(part, 47));
    assert(be32_at(s, 195361) == be32_at(part, 51));
    assert(be32_at(s, 195365) == be32_at(part, 55));
    assert(be32_at(s, 195369) == be32_at(part, 59));
    assert(be32_at(s, 195373) == be32_at(part, 63));
}

/// The fields of this part are read back from a written header.
proof fn lemma_motion_in_place(header: HeaderInfo, rest: Seq<u8>)
    requires
        header.wf(),
    ensures
        header.motion_decoded_from(header.bytes() + rest),
{
    reveal(HeaderInfo::motion_decoded_from);
    lemma_motion_round_trip(header, after_motion(header, rest));
    let s = header.bytes() + rest;
    let part = header.motion_bytes() + after_motion(header, rest);
    assert(s.len() >= HEADER_SIZE && (forall|i: int| 0 <= i < 64 ==> s[195377 + i] == part[i])) by {
        lemma_header_layout(header, rest);
    }
    assert(be32_at(s, 195377) == be32_at(part, 0));
    assert(be32_at(s, 195381) == be32_at(part, 4));
    assert(be32_at(s, 195385) == be32_at(part, 8));
    assert(be32_at(s, 195389) == be32_at(part, 12));
    assert(be32_at(s, 195393) == be32_at(part, 16));
    assert(be32_at(s, 195397) == be32_at(part, 20));
    assert(be32_at(s, 195401) == be32_at(part, 24));
    assert(be32_at(s, 195405) == be32_at(part, 28));
    assert(be32_at(s, 195409) == be32_at(part, 32));
    assert(be32_at(s, 195413) == be32_at(part, 36));
    assert(be32_at(s, 195417) == be32_at(part, 40));
    assert(be32_at(s, 195421) == be32_at(part, 44));
    assert(be32_at(s, 195425) == be32_at(part, 48));
    assert(be32_at(s, 195429) == be32_at(part, 52));
    assert(be32_at(s, 195433) == be32_at(part, 56));
    assert(be32_at(s, 195437) == be32_at(part, 60));
}

/// The fields of this part are read back from a written header.
proof fn lemma_closing_in_place(header: HeaderInfo, rest: Seq<u8>)
    requires
        header.wf(),
    ensures
        header.closing_decoded_from(header.bytes() + rest),
        be32_at(header.bytes() + rest, 195470) == HEADER_SIZE,
{
    reveal(HeaderInfo::closing_decoded_from);
    lemma_closing_round_trip(header, rest);
    let s = header.bytes() + rest;
    let part = header.closing_bytes() + rest;
    assert(s.len() >= HEADER_SIZE && (forall|i: int| 0 <= i < 36 ==> s[195441 + i] == part[i])) by {
        lemma_header_layout(header, rest);
    }
    assert(be16_at(s, 195441) == be16_at(part, 0));
    assert(be16_at(s, 195443) == be16_at(part, 2));
    assert(s[195445] == part[4]);
    assert(be32_at(s, 195446) == be32_at(part, 5));
    assert(be32_at(s, 195450) == be32_at(part, 9));
    assert(be32_at(s, 195454) == be32_at(part, 13));
    assert(be32_at(s, 195458) == be32_at(part, 17));
    assert(s.subrange(195462, 195470) =~= part.subrange(21, 29));
    assert(be32_at(s, 195470) == be32_at(part, 29));
    assert(s[195474] == part[33]);
    assert(be16_at(s, 195475) == be16_at(part, 34));
}

/// A header that was written is read back, whatever follows it: it is in
/// order, and its fields are what the bytes hold.
pub proof fn lemma_header_round_trip(header: HeaderInfo, rest: Seq<u8>)
    requires
        header.wf(),
    ensures
        header.bytes().len() == HEADER_SIZE,
        header_len(header.bytes() + rest) == Ok::<nat, Error>(HEADER_SIZE as nat),
        header.decoded_from(header.bytes() + rest),
{
    lemma_header_layout(header, rest);
    lemma_identity_in_place(header, rest);
    lemma_exposure_in_place(header, rest);
    lemma_motion_in_place(header, rest);
    lemma_closing_in_place(header, rest);
}

} // verus!
