use goo::header_info::HEADER_SIZE;
use goo::serde::{Deserializer, DynamicSerializer, SizedSerializer, SizedString};
use goo::{Error, GooFile, HeaderInfo, LayerContent};

const LAYER_COUNT_AT: usize = 195310;
const SMALL_DELIMITER_AT: usize = 27106;
const BIG_DELIMITER_AT: usize = 195308;
const SIZE_AT: usize = 195470;
const ENDING: [u8; 11] = [0, 0, 0, 7, 0, 0, 0, 0x44, 0x4C, 0x50, 0];

fn header_bytes(header: &HeaderInfo) -> Vec<u8> {
    let mut ser = DynamicSerializer::new();
    header.serialize(&mut ser);
    ser.into_inner()
}

fn layer_bytes(layer: &LayerContent) -> Vec<u8> {
    assert!(layer.is_well_formed());
    let mut ser = DynamicSerializer::new();
    layer.serialize(&mut ser);
    ser.into_inner()
}

fn file_bytes(file: &GooFile) -> Vec<u8> {
    assert!(file.is_well_formed());
    let mut ser = DynamicSerializer::new();
    file.serialize(&mut ser);
    ser.into_inner()
}

fn sample_header() -> HeaderInfo {
    let mut header = HeaderInfo::default();
    header.software_info = SizedString::new(b"slicer");
    header.software_version = SizedString::new(b"1.2.3");
    header.file_time = SizedString::new(b"2024-06-14 08:10:14");
    header.printer_name = SizedString::new(b"standard");
    header.printer_type = SizedString::new(b"MSLA");
    header.profile_name = SizedString::new(b"0.05 mm");
    header.anti_aliasing_level = 8;
    header.grey_level = 1;
    header.blur_level = 2;
    header.small_preview.set_pixel(3, 2, (31, 0, 0));
    header.big_preview.set_pixel(289, 289, (0, 63, 31));
    header.layer_count = 2;
    header.x_resolution = 11520;
    header.y_resolution = 5120;
    header.x_mirror = true;
    header.y_mirror = false;
    header.x_size = 218.88f32.to_bits();
    header.y_size = 122.88f32.to_bits();
    header.z_size = 260.0f32.to_bits();
    header.layer_thickness = 0.05f32.to_bits();
    header.exposure_time = 3.0f32.to_bits();
    header.exposure_delay_mode = true;
    header.turn_off_time = 0.5f32.to_bits();
    header.bottom_exposure_time = 30.0f32.to_bits();
    header.bottom_layers = 3;
    header.bottom_lift_distance = 5.0f32.to_bits();
    header.bottom_lift_speed = 65.0f32.to_bits();
    header.lift_distance = 5.0f32.to_bits();
    header.lift_speed = 65.0f32.to_bits();
    header.retract_distance = 5.0f32.to_bits();
    header.retract_speed = 150.0f32.to_bits();
    header.second_retract_speed = (-1.5f32).to_bits();
    header.bottom_light_pwm = 255;
    header.light_pwm = 254;
    header.advance_mode = true;
    header.printing_time = 4242;
    header.total_volume = 12.5f32.to_bits();
    header.total_weight = 13.75f32.to_bits();
    header.total_price = 1.25f32.to_bits();
    header.price_unit = SizedString::new(b"EUR");
    header.grey_scale_level = true;
    header.transition_layers = 4;
    header
}

fn sample_layer(seed: u8, pixels: &[u8]) -> LayerContent {
    let mut layer = LayerContent::default();
    layer.pause_flag = seed as u16;
    layer.pause_position_z = 200.0f32.to_bits();
    layer.layer_position_z = (0.05 * seed as f32).to_bits();
    layer.layer_exposure_time = 3.0f32.to_bits();
    layer.layer_off_time = 1.0f32.to_bits();
    layer.before_lift_time = 2.0f32.to_bits();
    layer.after_lift_time = 3.0f32.to_bits();
    layer.after_retract_time = 4.0f32.to_bits();
    layer.lift_distance = 5.0f32.to_bits();
    layer.lift_speed = 65.0f32.to_bits();
    layer.second_lift_distance = 6.0f32.to_bits();
    layer.second_lift_speed = 66.0f32.to_bits();
    layer.retract_distance = 7.0f32.to_bits();
    layer.retract_speed = 150.0f32.to_bits();
    layer.second_retract_distance = 8.0f32.to_bits();
    layer.second_retract_speed = 151.0f32.to_bits();
    layer.light_pwm = 255 - seed as u16;
    layer.set_pixels(pixels.len() as u32, 1, pixels);
    layer
}

fn sample_file() -> GooFile {
    let layers = vec![
        sample_layer(1, &[0, 0, 0, 255, 255, 128, 129, 130]),
        sample_layer(2, &[7; 300]),
    ];
    GooFile::new(sample_header(), layers)
}

fn same_layer(a: &LayerContent, b: &LayerContent) -> bool {
    let mut without_a = a.clone();
    let mut without_b = b.clone();
    without_a.checksum = 0;
    without_b.checksum = 0;
    layer_bytes(&without_a) == layer_bytes(&without_b) && a.checksum == b.checksum
}

#[test]
fn a_header_takes_its_fixed_size() {
    assert_eq!(HEADER_SIZE, 0x2FB95);
    assert_eq!(HeaderInfo::SIZE, 195477);
    assert_eq!(header_bytes(&HeaderInfo::default()).len(), HEADER_SIZE);
    assert_eq!(header_bytes(&sample_header()).len(), HEADER_SIZE);
}

#[test]
fn the_parts_of_a_header_stand_in_their_places() {
    let bytes = header_bytes(&sample_header());
    assert_eq!(&bytes[0..4], b"V3.0");
    assert_eq!(&bytes[4..12], &[0x07, 0x00, 0x00, 0x00, 0x44, 0x4C, 0x50, 0x00]);
    assert_eq!(&bytes[12..18], b"slicer");
    assert_eq!(&bytes[18..44], &[0u8; 26]);
    assert_eq!(&bytes[44..49], b"1.2.3");
    assert_eq!(&bytes[68..87], b"2024-06-14 08:10:14");
    assert_eq!(&bytes[92..100], b"standard");
    assert_eq!(&bytes[124..128], b"MSLA");
    assert_eq!(&bytes[156..163], b"0.05 mm");
    assert_eq!(&bytes[188..194], &[0, 8, 0, 1, 0, 2]);
    // The pixel in column 3 of row 2 of the small picture.
    let at = 194 + 2 * (2 * 116 + 3);
    assert_eq!(&bytes[at..at + 2], &[0xF8, 0x00]);
    assert_eq!(&bytes[SMALL_DELIMITER_AT..SMALL_DELIMITER_AT + 2], &[0x0D, 0x0A]);
    assert_eq!(&bytes[BIG_DELIMITER_AT - 2..BIG_DELIMITER_AT], &[0x07, 0xFF]);
    assert_eq!(&bytes[BIG_DELIMITER_AT..BIG_DELIMITER_AT + 2], &[0x0D, 0x0A]);
    assert_eq!(&bytes[LAYER_COUNT_AT..LAYER_COUNT_AT + 4], &[0, 0, 0, 2]);
    assert_eq!(&bytes[195314..195318], &[0x2D, 0x00, 0x14, 0x00]);
    assert_eq!(&bytes[195318..195320], &[1, 0]);
    assert_eq!(&bytes[195320..195324], &218.88f32.to_be_bytes());
    assert_eq!(&bytes[195336..195340], &3.0f32.to_be_bytes());
    assert_eq!(bytes[195340], 1);
    assert_eq!(&bytes[195373..195377], &[0, 0, 0, 3]);
    assert_eq!(&bytes[195377..195381], &5.0f32.to_be_bytes());
    assert_eq!(&bytes[195437..195441], &(-1.5f32).to_be_bytes());
    assert_eq!(&bytes[195441..195445], &[0, 255, 0, 254]);
    assert_eq!(bytes[195445], 1);
    assert_eq!(&bytes[195446..195450], &4242u32.to_be_bytes());
    assert_eq!(&bytes[195462..195470], b"EUR\0\0\0\0\0");
    assert_eq!(&bytes[SIZE_AT..SIZE_AT + 4], &[0x00, 0x02, 0xFB, 0x95]);
    assert_eq!(bytes[195474], 1);
    assert_eq!(&bytes[195475..195477], &[0, 4]);
}

#[test]
fn a_header_is_read_back() {
    let bytes = header_bytes(&sample_header());
    let mut des = Deserializer::new(&bytes);
    let header = HeaderInfo::deserialize(&mut des).unwrap();
    assert!(des.is_empty());
    assert_eq!(header_bytes(&header), bytes);
    assert_eq!(header.version.to_string(), "V3.0");
    assert_eq!(header.software_info.to_string(), "slicer");
    assert_eq!(header.price_unit.to_string(), "EUR");
    assert_eq!(header.layer_count, 2);
    assert_eq!(header.x_resolution, 11520);
    assert_eq!(header.y_resolution, 5120);
    assert!(header.x_mirror);
    assert!(!header.y_mirror);
    assert_eq!(f32::from_bits(header.x_size), 218.88);
    assert_eq!(f32::from_bits(header.second_retract_speed), -1.5);
    assert_eq!(header.printing_time, 4242);
    assert_eq!(header.transition_layers, 4);
    assert_eq!(header.small_preview.get_pixel(3, 2), (31, 0, 0));
    assert_eq!(header.small_preview.get_pixel(4, 2), (0, 0, 0));
    assert_eq!(header.big_preview.get_pixel(289, 289), (0, 63, 31));
    assert_eq!(header.big_preview.inner_data().len(), 290 * 290);
}

#[test]
fn any_byte_but_zero_is_read_as_true() {
    let mut bytes = header_bytes(&HeaderInfo::default());
    bytes[195318] = 2;
    bytes[195319] = 0xFF;
    let mut des = Deserializer::new(&bytes);
    let header = HeaderInfo::deserialize(&mut des).unwrap();
    assert!(header.x_mirror);
    assert!(header.y_mirror);
    assert!(!header.advance_mode);
    let again = header_bytes(&header);
    assert_eq!(&again[195318..195320], &[1, 1]);
}

#[test]
fn a_header_that_is_cut_off_is_refused() {
    let bytes = header_bytes(&sample_header());
    for len in [0, 1, 11, 12, 194, 27108, HEADER_SIZE - 1] {
        let mut des = Deserializer::new(&bytes[..len]);
        assert_eq!(
            HeaderInfo::deserialize(&mut des).err(),
            Some(Error::UnexpectedEnd)
        );
        assert_eq!(des.pos(), 0);
    }
}

#[test]
fn a_header_without_the_magic_tag_is_refused() {
    let good = header_bytes(&sample_header());
    for at in 4..12 {
        let mut bytes = good.clone();
        bytes[at] ^= 0x01;
        let mut des = Deserializer::new(&bytes);
        assert_eq!(HeaderInfo::deserialize(&mut des).err(), Some(Error::BadMagic));
        assert_eq!(des.pos(), 0);
    }
}

#[test]
fn a_header_with_a_wrong_delimiter_is_refused() {
    let good = header_bytes(&sample_header());
    for at in [
        SMALL_DELIMITER_AT,
        SMALL_DELIMITER_AT + 1,
        BIG_DELIMITER_AT,
        BIG_DELIMITER_AT + 1,
    ] {
        let mut bytes = good.clone();
        bytes[at] = bytes[at].wrapping_add(1);
        let mut des = Deserializer::new(&bytes);
        assert_eq!(
            HeaderInfo::deserialize(&mut des).err(),
            Some(Error::BadDelimiter)
        );
    }
}

#[test]
fn a_header_that_states_another_size_is_refused() {
    let good = header_bytes(&sample_header());
    for at in SIZE_AT..SIZE_AT + 4 {
        let mut bytes = good.clone();
        bytes[at] ^= 0x80;
        let mut des = Deserializer::new(&bytes);
        assert_eq!(
            HeaderInfo::deserialize(&mut des).err(),
            Some(Error::BadHeaderSize)
        );
    }
}

#[test]
fn the_faults_of_a_header_are_told_in_order() {
    let mut bytes = header_bytes(&sample_header());
    bytes[SIZE_AT] = 9;
    bytes[BIG_DELIMITER_AT] = 9;
    let mut des = Deserializer::new(&bytes);
    assert_eq!(
        HeaderInfo::deserialize(&mut des).err(),
        Some(Error::BadDelimiter)
    );
    bytes[4] = 9;
    let mut des = Deserializer::new(&bytes);
    assert_eq!(HeaderInfo::deserialize(&mut des).err(), Some(Error::BadMagic));
    let mut des = Deserializer::new(&bytes[..100]);
    assert_eq!(
        HeaderInfo::deserialize(&mut des).err(),
        Some(Error::UnexpectedEnd)
    );
}

#[test]
fn a_header_is_read_from_where_the_cursor_stands() {
    let mut bytes = vec![0xEE, 0xEE, 0xEE];
    bytes.extend_from_slice(&header_bytes(&sample_header()));
    bytes.push(0x99);
    let mut des = Deserializer::new(&bytes);
    des.read_bytes(3);
    let header = HeaderInfo::deserialize(&mut des).unwrap();
    assert_eq!(des.pos(), 3 + HEADER_SIZE);
    assert_eq!(des.read_u8(), 0x99);
    assert_eq!(header.printing_time, 4242);
}

#[test]
fn the_parts_of_a_layer_record_stand_in_their_places() {
    let mut layer = sample_layer(1, &[0, 0, 0, 255, 255, 128, 129, 130]);
    assert_eq!(layer.data, vec![0x03, 0xC2, 0x41, 128, 0x81, 0x81]);
    let checksum = layer.checksum;
    assert_eq!(checksum, 0x77);
    let bytes = layer_bytes(&layer);
    assert_eq!(bytes.len(), 74 + 6);
    assert_eq!(&bytes[0..2], &[0, 1]);
    assert_eq!(&bytes[2..6], &200.0f32.to_be_bytes());
    assert_eq!(&bytes[6..10], &0.05f32.to_be_bytes());
    assert_eq!(&bytes[10..14], &3.0f32.to_be_bytes());
    assert_eq!(&bytes[14..18], &1.0f32.to_be_bytes());
    assert_eq!(&bytes[18..22], &2.0f32.to_be_bytes());
    assert_eq!(&bytes[22..26], &3.0f32.to_be_bytes());
    assert_eq!(&bytes[26..30], &4.0f32.to_be_bytes());
    assert_eq!(&bytes[30..34], &5.0f32.to_be_bytes());
    assert_eq!(&bytes[34..38], &65.0f32.to_be_bytes());
    assert_eq!(&bytes[38..42], &6.0f32.to_be_bytes());
    assert_eq!(&bytes[42..46], &66.0f32.to_be_bytes());
    assert_eq!(&bytes[46..50], &7.0f32.to_be_bytes());
    assert_eq!(&bytes[50..54], &150.0f32.to_be_bytes());
    assert_eq!(&bytes[54..58], &8.0f32.to_be_bytes());
    assert_eq!(&bytes[58..62], &151.0f32.to_be_bytes());
    assert_eq!(&bytes[62..64], &[0, 254]);
    assert_eq!(&bytes[64..66], &[0x0D, 0x0A]);
    assert_eq!(&bytes[66..70], &[0, 0, 0, 8]);
    assert_eq!(bytes[70], 0x55);
    assert_eq!(&bytes[71..77], &[0x03, 0xC2, 0x41, 128, 0x81, 0x81]);
    assert_eq!(bytes[77], checksum);
    assert_eq!(&bytes[78..80], &[0x0D, 0x0A]);

    // The checksum that is written is computed, not taken from the field.
    layer.checksum = checksum.wrapping_add(1);
    assert_eq!(layer_bytes(&layer), bytes);
}

#[test]
fn a_layer_without_a_picture_has_a_record_too() {
    let bytes = layer_bytes(&LayerContent::default());
    assert_eq!(bytes.len(), 74);
    assert_eq!(&bytes[62..74], &[0, 255, 0x0D, 0x0A, 0, 0, 0, 2, 0x55, 0xFF, 0x0D, 0x0A]);
    let mut des = Deserializer::new(&bytes);
    let layer = LayerContent::deserialize(&mut des).unwrap();
    assert!(layer.data.is_empty());
    assert_eq!(layer.checksum, 0xFF);
    assert!(layer.checksum_matches());
    assert!(des.is_empty());
}

#[test]
fn a_layer_record_is_read_back() {
    let layer = sample_layer(5, &[9, 9, 10, 200, 0, 0]);
    let mut bytes = layer_bytes(&layer);
    bytes.extend_from_slice(&[1, 2, 3]);
    let mut des = Deserializer::new(&bytes);
    let read = LayerContent::deserialize(&mut des).unwrap();
    assert_eq!(des.pos(), bytes.len() - 3);
    assert!(same_layer(&read, &layer));
    assert_eq!(read.pause_flag, 5);
    assert_eq!(f32::from_bits(read.second_retract_speed), 151.0);
    assert_eq!(read.light_pwm, 250);
    assert_eq!(read.data, layer.data);
    assert!(read.checksum_matches());
    assert_eq!(read.pixel_count(), Some(6));
    assert_eq!(read.decode_pixels(6, 1), vec![9, 9, 10, 200, 0, 0]);
}

#[test]
fn a_wrong_checksum_is_a_warning_only() {
    let layer = sample_layer(5, &[9, 9, 10, 200, 0, 0]);
    let mut bytes = layer_bytes(&layer);
    let at = bytes.len() - 3;
    bytes[at] ^= 0xFF;
    let mut des = Deserializer::new(&bytes);
    let read = LayerContent::deserialize(&mut des).unwrap();
    assert_eq!(read.checksum, layer.checksum ^ 0xFF);
    assert!(!read.checksum_matches());
    assert_eq!(read.data, layer.data);

    // A changed payload under the old checksum is told in the same way.
    let mut bytes = layer_bytes(&layer);
    bytes[71] ^= 0x01;
    let mut des = Deserializer::new(&bytes);
    let read = LayerContent::deserialize(&mut des).unwrap();
    assert!(!read.checksum_matches());
}

#[test]
fn a_layer_record_that_is_cut_off_is_refused() {
    let bytes = layer_bytes(&sample_layer(1, &[1, 2, 3]));
    for len in 0..bytes.len() {
        let mut des = Deserializer::new(&bytes[..len]);
        assert_eq!(
            LayerContent::deserialize(&mut des).err(),
            Some(Error::UnexpectedEnd)
        );
        assert_eq!(des.pos(), 0);
    }
}

#[test]
fn a_layer_record_with_a_wrong_delimiter_is_refused() {
    let good = layer_bytes(&sample_layer(1, &[1, 2, 3]));
    let n = good.len();
    for at in [64, 65, n - 2, n - 1] {
        for byte in 0..=255u8 {
            if byte != good[at] {
                let mut bytes = good.clone();
                bytes[at] = byte;
                let mut des = Deserializer::new(&bytes);
                assert_eq!(
                    LayerContent::deserialize(&mut des).err(),
                    Some(Error::BadDelimiter)
                );
                assert_eq!(des.pos(), 0);
            }
        }
    }
}

#[test]
fn a_layer_record_with_a_length_below_two_is_refused() {
    let mut bytes = layer_bytes(&sample_layer(1, &[1, 2, 3]));
    for stated in [0u8, 1] {
        bytes[66..70].copy_from_slice(&[0, 0, 0, stated]);
        let mut des = Deserializer::new(&bytes);
        assert_eq!(
            LayerContent::deserialize(&mut des).err(),
            Some(Error::BadLength)
        );
    }
}

#[test]
fn a_layer_record_without_the_marker_is_refused() {
    let mut bytes = layer_bytes(&sample_layer(1, &[1, 2, 3]));
    bytes[70] = 0x54;
    let mut des = Deserializer::new(&bytes);
    assert_eq!(
        LayerContent::deserialize(&mut des).err(),
        Some(Error::BadMarker)
    );
}

#[test]
fn a_layer_record_that_states_too_much_is_refused() {
    let mut bytes = layer_bytes(&sample_layer(1, &[1, 2, 3]));
    bytes[69] += 1;
    let mut des = Deserializer::new(&bytes);
    assert_eq!(
        LayerContent::deserialize(&mut des).err(),
        Some(Error::UnexpectedEnd)
    );
    bytes[66] = 0xFF;
    let mut des = Deserializer::new(&bytes);
    assert_eq!(
        LayerContent::deserialize(&mut des).err(),
        Some(Error::UnexpectedEnd)
    );
    // One byte less than there is: the delimiter is looked for too early.
    let mut bytes = layer_bytes(&sample_layer(1, &[1, 2, 3]));
    bytes[69] -= 1;
    let mut des = Deserializer::new(&bytes);
    assert_eq!(
        LayerContent::deserialize(&mut des).err(),
        Some(Error::BadDelimiter)
    );
}

#[test]
fn a_file_is_its_header_its_layers_and_the_ending() {
    let file = sample_file();
    let bytes = file_bytes(&file);
    let first = layer_bytes(&file.layers[0]);
    let second = layer_bytes(&file.layers[1]);
    assert_eq!(bytes.len(), HEADER_SIZE + first.len() + second.len() + 11);
    assert_eq!(&bytes[..HEADER_SIZE], &header_bytes(&file.header)[..]);
    assert_eq!(&bytes[HEADER_SIZE..HEADER_SIZE + first.len()], &first[..]);
    assert_eq!(
        &bytes[HEADER_SIZE + first.len()..HEADER_SIZE + first.len() + second.len()],
        &second[..]
    );
    assert_eq!(&bytes[bytes.len() - 11..], &ENDING);
}

#[test]
fn a_file_is_read_back() {
    let file = sample_file();
    let bytes = file_bytes(&file);
    let read = GooFile::deserialize(&bytes).unwrap();
    assert_eq!(read.header.layer_count as usize, read.layers.len());
    assert_eq!(read.layers.len(), 2);
    assert_eq!(header_bytes(&read.header), header_bytes(&file.header));
    assert!(same_layer(&read.layers[0], &file.layers[0]));
    assert!(same_layer(&read.layers[1], &file.layers[1]));
    assert_eq!(read.layers[1].pixel_count(), Some(300));
    assert_eq!(read.layers[1].decode_pixels(300, 1), vec![7; 300]);
    assert_eq!(file_bytes(&read), bytes);
}

#[test]
fn a_file_without_layers_is_read_back() {
    let file = GooFile::new(HeaderInfo::default(), Vec::new());
    let bytes = file_bytes(&file);
    assert_eq!(bytes.len(), HEADER_SIZE + 11);
    let read = GooFile::deserialize(&bytes).unwrap();
    assert_eq!(read.header.layer_count, 0);
    assert!(read.layers.is_empty());
}

#[test]
fn what_follows_the_ending_is_not_looked_at() {
    let mut bytes = file_bytes(&sample_file());
    bytes.extend_from_slice(&[1, 2, 3, 4]);
    let read = GooFile::deserialize(&bytes).unwrap();
    assert_eq!(read.layers.len(), 2);
}

#[test]
fn a_changed_byte_of_the_ending_makes_a_file_unreadable() {
    let good = file_bytes(&sample_file());
    for at in good.len() - 11..good.len() {
        for byte in 0..=255u8 {
            if byte != good[at] {
                let mut bytes = good.clone();
                bytes[at] = byte;
                assert_eq!(GooFile::deserialize(&bytes).err(), Some(Error::BadEnding));
            }
        }
    }
}

#[test]
fn a_changed_byte_of_a_layer_delimiter_makes_a_file_unreadable() {
    let file = sample_file();
    let good = file_bytes(&file);
    let mut start = HEADER_SIZE;
    for layer in &file.layers {
        let n = layer.data.len();
        for at in [start + 64, start + 65, start + 72 + n, start + 73 + n] {
            assert!(good[at] == 0x0D || good[at] == 0x0A);
            for byte in 0..=255u8 {
                if byte != good[at] {
                    let mut bytes = good.clone();
                    bytes[at] = byte;
                    assert_eq!(
                        GooFile::deserialize(&bytes).err(),
                        Some(Error::BadDelimiter)
                    );
                }
            }
        }
        start += 74 + n;
    }
    assert_eq!(start + 11, good.len());
}

#[test]
fn a_file_that_is_cut_off_is_refused() {
    let good = file_bytes(&sample_file());
    for len in [
        0,
        100,
        HEADER_SIZE,
        HEADER_SIZE + 10,
        good.len() - 12,
        good.len() - 11,
        good.len() - 1,
    ] {
        assert_eq!(
            GooFile::deserialize(&good[..len]).err(),
            Some(Error::UnexpectedEnd)
        );
    }
}

#[test]
fn a_header_that_counts_more_layers_than_there_are_is_refused() {
    let mut bytes = file_bytes(&sample_file());
    bytes[LAYER_COUNT_AT + 3] = 3;
    // The ending is taken for the third layer, and is too short for one.
    assert_eq!(
        GooFile::deserialize(&bytes).err(),
        Some(Error::UnexpectedEnd)
    );
    bytes[LAYER_COUNT_AT] = 0xFF;
    assert!(GooFile::deserialize(&bytes).is_err());
}

#[test]
fn a_header_that_counts_fewer_layers_than_there_are_is_refused() {
    let mut bytes = file_bytes(&sample_file());
    bytes[LAYER_COUNT_AT + 3] = 1;
    // The second layer is taken for the ending.
    assert_eq!(GooFile::deserialize(&bytes).err(), Some(Error::BadEnding));
}

#[test]
fn the_faults_of_the_header_and_of_the_layers_are_those_of_the_file() {
    let good = file_bytes(&sample_file());
    let mut bytes = good.clone();
    bytes[5] = 1;
    assert_eq!(GooFile::deserialize(&bytes).err(), Some(Error::BadMagic));
    let mut bytes = good.clone();
    bytes[SIZE_AT + 3] = 0;
    assert_eq!(GooFile::deserialize(&bytes).err(), Some(Error::BadHeaderSize));
    let mut bytes = good.clone();
    bytes[SMALL_DELIMITER_AT] = 0;
    assert_eq!(GooFile::deserialize(&bytes).err(), Some(Error::BadDelimiter));
    let mut bytes = good.clone();
    bytes[HEADER_SIZE + 70] = 0;
    assert_eq!(GooFile::deserialize(&bytes).err(), Some(Error::BadMarker));
    let mut bytes = good.clone();
    bytes[HEADER_SIZE + 66..HEADER_SIZE + 70].copy_from_slice(&[0, 0, 0, 1]);
    assert_eq!(GooFile::deserialize(&bytes).err(), Some(Error::BadLength));
}

#[test]
fn a_wrong_checksum_does_not_make_a_file_unreadable() {
    let file = sample_file();
    let mut bytes = file_bytes(&file);
    let at = HEADER_SIZE + 71 + file.layers[0].data.len();
    bytes[at] ^= 0x10;
    let read = GooFile::deserialize(&bytes).unwrap();
    assert!(!read.layers[0].checksum_matches());
    assert!(read.layers[1].checksum_matches());
}

#[test]
fn a_file_can_be_written_into_a_buffer_of_its_size() {
    let file = sample_file();
    let grown = file_bytes(&file);
    let mut buffer = vec![0xAAu8; grown.len() + 5];
    let mut ser = SizedSerializer::new(&mut buffer);
    file.serialize(&mut ser);
    assert_eq!(ser.offset, grown.len());
    assert_eq!(&buffer[..grown.len()], &grown[..]);
    assert_eq!(&buffer[grown.len()..], &[0xAA; 5]);
}

#[test]
fn a_new_file_holds_what_it_was_given() {
    let file = GooFile::new(sample_header(), vec![LayerContent::default()]);
    assert_eq!(file.layers.len(), 1);
    // Nothing is set right: the count is the header's own.
    assert_eq!(file.header.layer_count, 2);
    assert!(!file.is_well_formed());
}

#[test]
fn a_file_is_in_order_where_its_header_counts_its_layers() {
    let mut file = sample_file();
    assert!(file.is_well_formed());
    file.header.layer_count = 3;
    assert!(!file.is_well_formed());
    file.layers.push(LayerContent::default());
    assert!(file.is_well_formed());
    file.layers.pop();
    file.layers.pop();
    assert!(!file.is_well_formed());
    file.header.layer_count = 1;
    assert!(file.is_well_formed());
    let file = GooFile::new(HeaderInfo::default(), Vec::new());
    assert!(file.is_well_formed());
    // What is read is in order.
    let read = GooFile::deserialize(&file_bytes(&sample_file())).unwrap();
    assert!(read.is_well_formed());
}
