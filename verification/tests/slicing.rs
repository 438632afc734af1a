use goo::misc::{EncodableLayer, SliceResult};
use goo::slice_config::{ExposureConfig, SliceConfig};
use goo::{GooFile, LayerContent, LayerEncoder};

fn config() -> SliceConfig {
    SliceConfig {
        platform_resolution: [11520, 5120],
        platform_size: [218.88f32.to_bits(), 122.88f32.to_bits(), 260.0f32.to_bits()],
        slice_height: 0.05f32.to_bits(),
        exposure_config: ExposureConfig {
            exposure_time: 2.5f32.to_bits(),
            lift_distance: 4.0f32.to_bits(),
            lift_speed: 60.0f32.to_bits(),
            retract_distance: 4.5f32.to_bits(),
            retract_speed: 140.0f32.to_bits(),
        },
        first_exposure_config: ExposureConfig {
            exposure_time: 30.0f32.to_bits(),
            lift_distance: 6.0f32.to_bits(),
            lift_speed: 20.0f32.to_bits(),
            retract_distance: 6.5f32.to_bits(),
            retract_speed: 80.0f32.to_bits(),
        },
        first_layers: 3,
    }
}

fn layer(pixels: &[u8]) -> LayerContent {
    let mut layer = LayerContent::default();
    layer.set_pixels(pixels.len() as u32, 1, pixels);
    layer
}

fn check_header(file: &GooFile, layers: usize, printing_time: u32) {
    let header = &file.header;
    assert_eq!(header.x_resolution, 11520);
    assert_eq!(header.y_resolution, 5120);
    assert_eq!(f32::from_bits(header.x_size), 218.88);
    assert_eq!(f32::from_bits(header.y_size), 122.88);
    assert_eq!(f32::from_bits(header.z_size), 0.0);
    assert_eq!(header.layer_count as usize, layers);
    assert_eq!(header.printing_time, printing_time);
    assert_eq!(f32::from_bits(header.layer_thickness), 0.05);
    assert_eq!(header.bottom_layers, 3);
    assert_eq!(header.transition_layers, 4);
    assert_eq!(f32::from_bits(header.exposure_time), 2.5);
    assert_eq!(f32::from_bits(header.lift_distance), 4.0);
    assert_eq!(f32::from_bits(header.lift_speed), 60.0);
    assert_eq!(f32::from_bits(header.retract_distance), 4.5);
    assert_eq!(f32::from_bits(header.retract_speed), 140.0);
    assert_eq!(f32::from_bits(header.bottom_exposure_time), 30.0);
    assert_eq!(f32::from_bits(header.bottom_lift_distance), 6.0);
    assert_eq!(f32::from_bits(header.bottom_lift_speed), 20.0);
    assert_eq!(f32::from_bits(header.bottom_retract_distance), 6.5);
    assert_eq!(f32::from_bits(header.bottom_retract_speed), 80.0);
    // What a slicer does not set is as in a new header.
    assert_eq!(header.version.to_string(), "V3.0");
    assert_eq!(header.software_info.to_string(), "");
    assert_eq!(header.anti_aliasing_level, 0);
    assert!(!header.x_mirror);
    assert_eq!(header.bottom_light_pwm, 255);
    assert_eq!(header.light_pwm, 255);
    assert_eq!(header.small_preview.inner_data(), &[0u16; 116 * 116][..]);
    assert_eq!(header.big_preview.inner_data().len(), 290 * 290);
}

#[test]
fn the_default_exposure() {
    let exposure = ExposureConfig::default();
    assert_eq!(f32::from_bits(exposure.exposure_time), 3.0);
    assert_eq!(f32::from_bits(exposure.lift_distance), 5.0);
    assert_eq!(f32::from_bits(exposure.lift_speed), 65.0);
    assert_eq!(f32::from_bits(exposure.retract_distance), 5.0);
    assert_eq!(f32::from_bits(exposure.retract_speed), 150.0);
}

#[test]
fn a_file_is_made_of_what_a_slicer_hands_over() {
    let config = config();
    let layers = vec![layer(&[1, 2, 3]), layer(&[0, 0, 255]), layer(&[9])];
    let result = SliceResult { layers, slice_config: &config };
    let file = GooFile::from_slice_result(result, 1234, b"2024-06-14 08:10:14");
    check_header(&file, 3, 1234);
    assert_eq!(file.header.file_time.to_string(), "2024-06-14 08:10:14");
    assert_eq!(file.layers.len(), 3);
    assert_eq!(file.layers[1].data, vec![0x02, 0xC1]);

    // The file can be written and read back.
    let mut ser = goo::serde::DynamicSerializer::new();
    file.serialize(&mut ser);
    let read = GooFile::deserialize(&ser.into_inner()).unwrap();
    check_header(&read, 3, 1234);
    assert_eq!(read.header.file_time.to_string(), "2024-06-14 08:10:14");
    assert_eq!(read.layers[2].data, file.layers[2].data);
}

#[test]
fn a_time_of_writing_that_is_too_long_is_cut_off() {
    let config = config();
    let result = SliceResult { layers: Vec::new(), slice_config: &config };
    let file = GooFile::from_slice_result(result, 0, b"0123456789012345678901234567890");
    check_header(&file, 0, 0);
    assert_eq!(file.header.file_time.to_string(), "012345678901234567890123");
}

#[test]
fn the_header_counts_the_layers_that_are_handed_over() {
    let config = config();
    for n in [0usize, 1, 2, 3, 4, 10] {
        let layers: Vec<LayerContent> = (0..n).map(|i| layer(&[i as u8, 7])).collect();
        let data: Vec<Vec<u8>> = layers.iter().map(|l| l.data.clone()).collect();
        let result = SliceResult { layers, slice_config: &config };
        let file = GooFile::from_slice_result(result, 9, b"now");
        check_header(&file, n, 9);
        assert_eq!(file.header.layer_count as usize, file.layers.len());
        assert!(file.is_well_formed());
        for (layer, data) in file.layers.iter().zip(&data) {
            assert_eq!(&layer.data, data);
        }
    }
}

#[test]
fn numbers_too_large_for_their_fields_lose_their_upper_bits() {
    for (first_layers, transition_layers) in [
        (0u32, 1u16),
        (3, 4),
        (65534, 65535),
        (65535, 0),
        (65536, 1),
        (0x0001_FFFF, 0),
        (u32::MAX, 0),
    ] {
        let mut config = config();
        config.first_layers = first_layers;
        config.platform_resolution = [0x0001_2D00, 0xFFFF_1400];
        let result = SliceResult { layers: vec![layer(&[1])], slice_config: &config };
        let file = GooFile::from_slice_result(result, 0, b"");
        assert_eq!(file.header.bottom_layers, first_layers);
        assert_eq!(file.header.transition_layers, transition_layers);
        assert_eq!(file.header.x_resolution, 0x2D00);
        assert_eq!(file.header.y_resolution, 0x1400);
        assert_eq!(file.header.layer_count, 1);
        assert_eq!(file.header.file_time.to_string(), "");
        assert!(file.is_well_formed());
    }
}

#[test]
fn the_first_layers_take_the_first_exposure() {
    let config = config();
    for number in 0..6usize {
        let mut encoder = <LayerEncoder as EncodableLayer>::new();
        EncodableLayer::add_run(&mut encoder, 10, 255);
        EncodableLayer::add_run(&mut encoder, 5, 0);
        let height = 0.05f32 * (number + 1) as f32;
        let layer = EncodableLayer::finish(encoder, number, &config, height.to_bits());
        assert_eq!(layer.data, vec![0xCA, 0x05]);
        assert_eq!(layer.checksum, !0xCFu8);
        assert!(layer.checksum_matches());
        assert_eq!(f32::from_bits(layer.layer_position_z), height);
        assert_eq!(f32::from_bits(layer.pause_position_z), 260.0);
        let first = number < 3;
        assert_eq!(
            f32::from_bits(layer.layer_exposure_time),
            if first { 30.0 } else { 2.5 }
        );
        assert_eq!(f32::from_bits(layer.lift_distance), if first { 6.0 } else { 4.0 });
        assert_eq!(f32::from_bits(layer.lift_speed), if first { 20.0 } else { 60.0 });
        assert_eq!(f32::from_bits(layer.retract_distance), if first { 6.5 } else { 4.5 });
        assert_eq!(f32::from_bits(layer.retract_speed), if first { 80.0 } else { 140.0 });
        assert_eq!(layer.pause_flag, 0);
        assert_eq!(layer.layer_off_time, 0);
        assert_eq!(layer.second_lift_distance, 0);
        assert_eq!(layer.light_pwm, 255);
    }
}

#[test]
fn a_new_layer_has_no_picture() {
    let layer = LayerContent::default();
    assert!(layer.data.is_empty());
    assert_eq!(layer.checksum, 0xFF);
    assert!(layer.checksum_matches());
    assert!(layer.is_well_formed());
    assert_eq!(layer.pause_flag, 0);
    assert_eq!(layer.lift_speed, 0);
    assert_eq!(layer.light_pwm, 255);
    assert_eq!(layer.pixel_count(), Some(0));
}
