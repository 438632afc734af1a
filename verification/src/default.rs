//! The values that a header and a layer start from.

use crate::header_info::HeaderInfo;
use crate::layer_content::{checksum, LayerContent};
use crate::preview_image::PreviewImage;
use crate::serde::types::zero_padded;
use crate::serde::SizedString;
use vstd::prelude::*;

verus! {

/// The checksum of a payload without bytes.
pub const EMPTY_CHECKSUM: u8 = 0xFF;

/// [`EMPTY_CHECKSUM`] is what its name says.
pub proof fn lemma_empty_checksum()
    ensures
        checksum(Seq::<u8>::empty()) == EMPTY_CHECKSUM,
{
}

/// Full power of the light.
pub const FULL_LIGHT: u16 = 255;

/// The version of the format that this library writes: the text `V3.0`.
pub const VERSION: [u8; 4] = [0x56, 0x33, 0x2E, 0x30];

/// [`VERSION`] as a sequence.
pub open spec fn version_text() -> Seq<u8> {
    seq![0x56u8, 0x33u8, 0x2Eu8, 0x30u8]
}

impl LayerContent {
    /// Whether every setting but the light is zero, the light is at full
    /// power, there is no payload, and the checksum is that of no payload.
    pub open spec fn is_default(&self) -> bool {
        &&& self.pause_flag == 0
        &&& self.pause_position_z == 0
        &&& self.layer_position_z == 0
        &&& self.layer_exposure_time == 0
        &&& self.layer_off_time == 0
        &&& self.before_lift_time == 0
        &&& self.after_lift_time == 0
        &&& self.after_retract_time == 0
        &&& self.lift_distance == 0
        &&& self.lift_speed == 0
        &&& self.second_lift_distance == 0
        &&& self.second_lift_speed == 0
        &&& self.retract_distance == 0
        &&& self.retract_speed == 0
        &&& self.second_retract_distance == 0
        &&& self.second_retract_speed == 0
        &&& self.light_pwm == FULL_LIGHT
        &&& self.data@ == Seq::<u8>::empty()
        &&& self.checksum == EMPTY_CHECKSUM
    }
}

impl Default for LayerContent {
    /// A layer without a picture: see [`LayerContent::is_default`].
    fn default() -> (layer: Self)
        ensures
            layer.is_default(),
            layer.wf(),
            layer.checksum == checksum(layer.data@),
    {
        proof {
            lemma_empty_checksum();
        }
        Self {
            pause_flag: 0,
            pause_position_z: 0,
            layer_position_z: 0,
            layer_exposure_time: 0,
            layer_off_time: 0,
            before_lift_time: 0,
            after_lift_time: 0,
            after_retract_time: 0,
            lift_distance: 0,
            lift_speed: 0,
            second_lift_distance: 0,
            second_lift_speed: 0,
            retract_distance: 0,
            retract_speed: 0,
            second_retract_distance: 0,
            second_retract_speed: 0,
            light_pwm: FULL_LIGHT,
            data: Vec::new(),
            checksum: EMPTY_CHECKSUM,
        }
    }
}

impl HeaderInfo {
    /// Whether the fields that a slicer does not set are as a new header
    /// has them: the version is `V3.0`, the texts are empty, the preview
    /// pictures are black, the light is at full power, and every other
    /// number is zero and every switch off.
    pub open spec fn rest_is_default(&self) -> bool {
        &&& self.version@ == version_text()
        &&& self.software_info@ == zero_padded(Seq::<u8>::empty(), 32)
        &&& self.software_version@ == zero_padded(Seq::<u8>::empty(), 24)
        &&& self.printer_name@ == zero_padded(Seq::<u8>::empty(), 32)
        &&& self.printer_type@ == zero_padded(Seq::<u8>::empty(), 32)
        &&& self.profile_name@ == zero_padded(Seq::<u8>::empty(), 32)
        &&& self.anti_aliasing_level == 0
        &&& self.grey_level == 0
        &&& self.blur_level == 0
        &&& self.small_preview@ == Seq::new(13456, |i: int| 0u16)
        &&& self.big_preview@ == Seq::new(84100, |i: int| 0u16)
        &&& !self.x_mirror
        &&& !self.y_mirror
        &&& self.z_size == 0
        &&& !self.exposure_delay_mode
        &&& self.turn_off_time == 0
        &&& self.bottom_before_lift_time == 0
        &&& self.bottom_after_lift_time == 0
        &&& self.bottom_after_retract_time == 0
        &&& self.before_lift_time == 0
        &&& self.after_lift_time == 0
        &&& self.after_retract_time == 0
        &&& self.bottom_second_lift_distance == 0
        &&& self.bottom_second_lift_speed == 0
        &&& self.second_lift_distance == 0
        &&& self.second_lift_speed == 0
        &&& self.bottom_second_retract_distance == 0
        &&& self.bottom_second_retract_speed == 0
        &&& self.second_retract_distance == 0
        &&& self.second_retract_speed == 0
        &&& self.bottom_light_pwm == FULL_LIGHT
        &&& self.light_pwm == FULL_LIGHT
        &&& !self.advance_mode
        &&& self.total_volume == 0
        &&& self.total_weight == 0
        &&& self.total_price == 0
        &&& self.price_unit@ == zero_padded(Seq::<u8>::empty(), 8)
        &&& !self.grey_scale_level
    }

    /// Whether every field is as a new header has it.
    pub open spec fn is_default(&self) -> bool {
        &&& self.rest_is_default()
        &&& self.file_time@ == zero_padded(Seq::<u8>::empty(), 24)
        &&& self.layer_count == 0
        &&& self.x_resolution == 0
        &&& self.y_resolution == 0
        &&& self.x_size == 0
        &&& self.y_size == 0
        &&& self.layer_thickness == 0
        &&& self.exposure_time == 0
        &&& self.bottom_exposure_time == 0
        &&& self.bottom_layers == 0
        &&& self.bottom_lift_distance == 0
        &&& self.bottom_lift_speed == 0
        &&& self.lift_distance == 0
        &&& self.lift_speed == 0
        &&& self.bottom_retract_distance == 0
        &&& self.bottom_retract_speed == 0
        &&& self.retract_distance == 0
        &&& self.retract_speed == 0
        &&& self.printing_time == 0
        &&& self.transition_layers == 0
    }
}

impl Default for HeaderInfo {
    /// A header for no print: see [`HeaderInfo::is_default`].
    fn default() -> (header: Self)
        ensures
            header.is_default(),
            header.wf(),
    {
        let version: [u8; 4] = VERSION;
        assert(version@ =~= version_text());
        let none: [u8; 0] = [];
        assert(none@ =~= Seq::<u8>::empty());
        Self {
            version: SizedString::new_full(version),
            software_info: SizedString::new(none.as_slice()),
            software_version: SizedString::new(none.as_slice()),
            file_time: SizedString::new(none.as_slice()),
            printer_name: SizedString::new(none.as_slice()),
            printer_type: SizedString::new(none.as_slice()),
            profile_name: SizedString::new(none.as_slice()),
            anti_aliasing_level: 0,
            grey_level: 0,
            blur_level: 0,
            small_preview: PreviewImage::empty(),
            big_preview: PreviewImage::empty(),
            layer_count: 0,
            x_resolution: 0,
            y_resolution: 0,
            x_mirror: false,
            y_mirror: false,
            x_size: 0,
            y_size: 0,
            z_size: 0,
            layer_thickness: 0,
            exposure_time: 0,
            exposure_delay_mode: false,
            turn_off_time: 0,
            bottom_before_lift_time: 0,
            bottom_after_lift_time: 0,
            bottom_after_retract_time: 0,
            before_lift_time: 0,
            after_lift_time: 0,
            after_retract_time: 0,
            bottom_exposure_time: 0,
            bottom_layers: 0,
            bottom_lift_distance: 0,
            bottom_lift_speed: 0,
            lift_distance: 0,
            lift_speed: 0,
            bottom_retract_distance: 0,
            bottom_retract_speed: 0,
            retract_distance: 0,
            retract_speed: 0,
            bottom_second_lift_distance: 0,
            bottom_second_lift_speed: 0,
            second_lift_distance: 0,
            second_lift_speed: 0,
            bottom_second_retract_distance: 0,
            bottom_second_retract_speed: 0,
            second_retract_distance: 0,
            second_retract_speed: 0,
            bottom_light_pwm: FULL_LIGHT,
            light_pwm: FULL_LIGHT,
            advance_mode: false,
            printing_time: 0,
            total_volume: 0,
            total_weight: 0,
            total_price: 0,
            price_unit: SizedString::new(none.as_slice()),
            grey_scale_level: false,
            transition_layers: 0,
        }
    }
}

} // verus!
