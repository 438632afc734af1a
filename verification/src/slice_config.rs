//! What a slicer knows of a print before the file is made.

use crate::F32Bits;
use vstd::prelude::*;

verus! {

/// The plate, the layer height and the exposure of a print.
#[derive(Clone, Debug)]
pub struct SliceConfig {
    /// The width and the height of a layer in pixels.
    pub platform_resolution: [u32; 2],
    /// The width, the depth and the height of the build volume.
    pub platform_size: [F32Bits; 3],
    /// The thickness of a layer.
    pub slice_height: F32Bits,
    /// How the layers behind the first ones are exposed.
    pub exposure_config: ExposureConfig,
    /// How the first layers are exposed.
    pub first_exposure_config: ExposureConfig,
    /// The number of first layers.
    pub first_layers: u32,
}

/// How a group of layers is exposed and how the plate moves between them.
#[derive(Clone, Copy, Debug)]
pub struct ExposureConfig {
    pub exposure_time: F32Bits,
    pub lift_distance: F32Bits,
    pub lift_speed: F32Bits,
    pub retract_distance: F32Bits,
    pub retract_speed: F32Bits,
}

/// The bits of 3.0.
pub const DEFAULT_EXPOSURE_TIME: F32Bits = 0x4040_0000;

/// The bits of 5.0.
pub const DEFAULT_LIFT_DISTANCE: F32Bits = 0x40A0_0000;

/// The bits of 65.0.
pub const DEFAULT_LIFT_SPEED: F32Bits = 0x4282_0000;

/// The bits of 5.0.
pub const DEFAULT_RETRACT_DISTANCE: F32Bits = 0x40A0_0000;

/// The bits of 150.0.
pub const DEFAULT_RETRACT_SPEED: F32Bits = 0x4316_0000;

impl Default for ExposureConfig {
    /// Three seconds of light, five millimetres up at 65 and down at 150.
    fn default() -> (c: Self)
        ensures
            c.exposure_time == DEFAULT_EXPOSURE_TIME,
            c.lift_distance == DEFAULT_LIFT_DISTANCE,
            c.lift_speed == DEFAULT_LIFT_SPEED,
            c.retract_distance == DEFAULT_RETRACT_DISTANCE,
            c.retract_speed == DEFAULT_RETRACT_SPEED,
    {
        Self {
            exposure_time: DEFAULT_EXPOSURE_TIME,
            lift_distance: DEFAULT_LIFT_DISTANCE,
            lift_speed: DEFAULT_LIFT_SPEED,
            retract_distance: DEFAULT_RETRACT_DISTANCE,
            retract_speed: DEFAULT_RETRACT_SPEED,
        }
    }
}

} // verus!
