use goo::layer_content::calculate_checksum;
use goo::{LayerContent, LayerDecoder, LayerEncoder, Run};

fn encode(runs: &[(u64, u8)]) -> Vec<u8> {
    let mut encoder = LayerEncoder::new();
    for &(length, value) in runs {
        encoder.add_run(length, value);
    }
    let (data, checksum) = encoder.finish();
    assert_eq!(checksum, calculate_checksum(&data));
    data
}

fn runs_of(data: &[u8]) -> Vec<(u64, u8)> {
    let mut decoder = LayerDecoder::new(data);
    assert!(decoder.is_well_formed());
    let mut out = Vec::new();
    while let Some(Run { length, value }) = decoder.next() {
        out.push((length, value));
    }
    out
}

fn pixels_of(runs: &[(u64, u8)]) -> Vec<u8> {
    let mut out = Vec::new();
    for &(length, value) in runs {
        for _ in 0..length {
            out.push(value);
        }
    }
    out
}

fn encode_pixels(width: u32, height: u32, pixels: &[u8]) -> LayerContent {
    assert_eq!(pixels.len() as u64, width as u64 * height as u64);
    let mut layer = LayerContent::default();
    layer.set_pixels(width, height, pixels);
    layer
}

#[test]
fn six_rising_pixels_are_one_literal_and_five_deltas() {
    let layer = encode_pixels(3, 2, &[0, 1, 2, 3, 4, 5]);
    assert_eq!(layer.data, vec![0x01, 0x81, 0x81, 0x81, 0x81, 0x81]);
    assert_eq!(layer.checksum, 0x79);
    assert!(layer.checksum_matches());
    assert_eq!(layer.pixel_count(), Some(6));
    assert_eq!(layer.decode_pixels(3, 2), vec![0, 1, 2, 3, 4, 5]);
    assert_eq!(
        runs_of(&layer.data),
        vec![(1, 0), (1, 1), (1, 2), (1, 3), (1, 4), (1, 5)]
    );
}

#[test]
fn checkerboard_alternates_between_the_two_literal_kinds() {
    let mut pixels = Vec::new();
    for y in 0..8 {
        for x in 0..8 {
            pixels.push(if (x + y) % 2 == 0 { 255u8 } else { 0u8 });
        }
    }
    let layer = encode_pixels(8, 8, &pixels);
    // Rows end and start with the same value, so the runs at the seams are
    // two pixels long.
    let runs = runs_of(&layer.data);
    assert_eq!(pixels_of(&runs), pixels);
    assert_eq!(runs.len(), 57);
    for (i, byte) in layer.data.iter().enumerate() {
        let kind = byte >> 6;
        assert!(kind == 0 || kind == 3);
        assert_eq!(kind == 3, runs[i].1 == 255);
        assert_eq!((byte & 0x0F) as u64, runs[i].0);
    }
    assert_eq!(layer.data.len(), 57);
    assert_eq!(layer.decode_pixels(8, 8), pixels);
}

#[test]
fn one_pixel_runs_of_black_and_white_take_one_byte_each() {
    assert_eq!(encode(&[(1, 255), (1, 0), (1, 255)]), vec![0xC1, 0x01, 0xC1]);
}

#[test]
fn white_runs_pick_the_size_class_by_their_length() {
    assert_eq!(encode(&[(15, 255)]), vec![0xCF]);
    assert_eq!(encode(&[(16, 255)]), vec![0xD0, 0x01]);
    assert_eq!(encode(&[(0xFFF, 255)]), vec![0xDF, 0xFF]);
    assert_eq!(encode(&[(0x1000, 255)]), vec![0xE0, 0x01, 0x00]);
    assert_eq!(encode(&[(0xF_FFFF, 255)]), vec![0xEF, 0xFF, 0xFF]);
    assert_eq!(encode(&[(0x10_0000, 255)]), vec![0xF0, 0x01, 0x00, 0x00]);
    assert_eq!(encode(&[(0xFFF_FFFF, 255)]), vec![0xFF, 0xFF, 0xFF, 0xFF]);
    assert_eq!(encode(&[(0x123_4567, 255)]), vec![0xF7, 0x12, 0x34, 0x56]);
    for n in [1u64, 15, 16, 4095, 4096, 1_048_575, 1_048_576, 268_435_455] {
        let data = encode(&[(n, 255)]);
        assert_eq!(runs_of(&data), vec![(n, 255)]);
        assert_eq!(LayerDecoder::new(&data).pixel_count(), Some(n));
    }
}

#[test]
fn black_and_gray_literals() {
    assert_eq!(encode(&[(0x123, 0)]), vec![0x13, 0x12]);
    assert_eq!(encode(&[(0x123, 77)]), vec![0x53, 77, 0x12]);
    assert_eq!(encode(&[(3, 77)]), vec![0x43, 77]);
    assert_eq!(runs_of(&[0x53, 77, 0x12]), vec![(0x123, 77)]);
    assert_eq!(runs_of(&[0x73, 77, 0x12, 0x34, 0x56]), vec![(0x123_4563, 77)]);
}

#[test]
fn a_monochrome_layer_is_one_chunk() {
    let pixels = vec![0xFFu8; 5000];
    let layer = encode_pixels(100, 50, &pixels);
    assert_eq!(layer.data, vec![0xE8, 0x01, 0x38]);
    assert_eq!(layer.pixel_count(), Some(5000));
    assert_eq!(layer.decode_pixels(100, 50), pixels);
}

#[test]
fn black_and_white_are_literal_whatever_came_before() {
    // 1 is one away from 0 and 254 one away from 255: still literal.
    assert_eq!(encode(&[(1, 1), (1, 0)]), vec![0x41, 1, 0x01]);
    assert_eq!(encode(&[(1, 254), (1, 255)]), vec![0x41, 254, 0xC1]);
    assert_eq!(encode(&[(1, 0), (2, 0)]), vec![0x01, 0x02]);
}

#[test]
fn near_values_are_deltas_and_far_values_are_literal() {
    assert_eq!(encode(&[(1, 100), (1, 115)]), vec![0x41, 100, 0x8F]);
    assert_eq!(encode(&[(1, 100), (1, 116)]), vec![0x41, 100, 0x41, 116]);
    assert_eq!(encode(&[(1, 100), (1, 85)]), vec![0x41, 100, 0xAF]);
    assert_eq!(encode(&[(1, 100), (1, 84)]), vec![0x41, 100, 0x41, 84]);
    assert_eq!(encode(&[(1, 100), (7, 90)]), vec![0x41, 100, 0xBA, 7]);
    assert_eq!(encode(&[(1, 100), (7, 100)]), vec![0x41, 100, 0x90, 7]);
    // Black and white count as values to measure from.
    assert_eq!(encode(&[(1, 0), (1, 15)]), vec![0x01, 0x8F]);
    assert_eq!(encode(&[(1, 255), (1, 240)]), vec![0xC1, 0xAF]);
    // The first run has nothing to be measured from.
    assert_eq!(encode(&[(1, 5)]), vec![0x41, 5]);
    assert_eq!(runs_of(&[0x41, 100, 0xBA, 7]), vec![(1, 100), (7, 90)]);
}

#[test]
fn a_literal_run_too_long_for_one_chunk_is_split() {
    let data = encode(&[(1 << 28, 255)]);
    assert_eq!(data, vec![0xFF, 0xFF, 0xFF, 0xFF, 0xC1]);
    assert_eq!(runs_of(&data), vec![(0xFFF_FFFF, 255), (1, 255)]);
    assert_eq!(LayerDecoder::new(&data).pixel_count(), Some(1 << 28));

    let data = encode(&[((1 << 29) + 3, 0)]);
    assert_eq!(
        runs_of(&data),
        vec![(0xFFF_FFFF, 0), (0xFFF_FFFF, 0), (5, 0)]
    );
}

#[test]
fn a_gray_run_too_long_for_one_chunk_goes_on_as_deltas() {
    let data = encode(&[((1 << 28) + 299, 128)]);
    assert_eq!(
        data,
        vec![0x7F, 128, 0xFF, 0xFF, 0xFF, 0x90, 0xFF, 0x90, 45]
    );
    assert_eq!(
        runs_of(&data),
        vec![(0xFFF_FFFF, 128), (255, 128), (45, 128)]
    );
}

#[test]
fn a_delta_run_of_three_hundred_is_two_delta_chunks() {
    let data = encode(&[(1, 100), (300, 101)]);
    assert_eq!(data, vec![0x41, 100, 0x91, 0xFF, 0x90, 45]);
    let runs = runs_of(&data);
    assert_eq!(runs, vec![(1, 100), (255, 101), (45, 101)]);
    assert_eq!(runs[1].0 + runs[2].0, 300);
    assert_eq!(data[2] >> 6, 2);
    assert_eq!(data[4] >> 6, 2);

    let data = encode(&[(1, 100), (256, 100)]);
    assert_eq!(data, vec![0x41, 100, 0x90, 0xFF, 0x80]);
    assert_eq!(runs_of(&data), vec![(1, 100), (255, 100), (1, 100)]);
}

#[test]
fn empty_runs_are_kept() {
    assert_eq!(encode(&[(0, 0)]), vec![0x00]);
    assert_eq!(encode(&[(0, 9)]), vec![0x40, 9]);
    assert_eq!(encode(&[(1, 9), (0, 10)]), vec![0x41, 9, 0x91, 0]);
    assert_eq!(runs_of(&[0x41, 9, 0x91, 0]), vec![(1, 9), (0, 10)]);
}

#[test]
fn no_runs_make_an_empty_payload() {
    let (data, checksum) = LayerEncoder::new().finish();
    assert!(data.is_empty());
    assert_eq!(checksum, 0xFF);
    let (data, _) = LayerEncoder::default().finish();
    assert!(data.is_empty());
    let mut decoder = LayerDecoder::new(&data);
    assert!(decoder.is_well_formed());
    assert_eq!(decoder.next(), None);
    assert_eq!(decoder.pixel_count(), Some(0));
}

#[test]
fn a_distance_wraps_around_the_ends_of_the_range() {
    // Nothing came before: the distance is measured from zero.
    assert_eq!(runs_of(&[0x8F]), vec![(1, 15)]);
    assert_eq!(runs_of(&[0xA1]), vec![(1, 255)]);
    assert_eq!(runs_of(&[0xC1, 0x82]), vec![(1, 255), (1, 1)]);
    assert_eq!(runs_of(&[0x41, 250, 0x8F, 0x8F]), vec![(1, 250), (1, 9), (1, 24)]);
    assert_eq!(runs_of(&[0x41, 3, 0xB5, 9]), vec![(1, 3), (9, 254)]);
}

#[test]
fn values_next_to_the_ends_of_the_range_survive() {
    let pixels: Vec<u8> = vec![
        1, 254, 253, 255, 254, 0, 1, 2, 16, 1, 0, 255, 240, 241, 255, 15, 14, 0, 14, 29, 44,
        240, 225, 254,
    ];
    let layer = encode_pixels(6, 4, &pixels);
    assert_eq!(layer.pixel_count(), Some(24));
    assert_eq!(layer.decode_pixels(6, 4), pixels);
}

#[test]
fn every_pair_of_values_survives() {
    for a in 0..=255u8 {
        for b in 0..=255u8 {
            let pixels = [a, b, b, a];
            let layer = encode_pixels(2, 2, &pixels);
            assert_eq!(layer.pixel_count(), Some(4));
            assert_eq!(layer.decode_pixels(2, 2), pixels);
        }
    }
}

#[test]
fn a_payload_that_is_cut_off_is_not_well_formed() {
    for data in [
        &[0x41u8][..],
        &[0x10],
        &[0x20, 0x01],
        &[0x30, 0x01, 0x02],
        &[0x70, 0x01, 0x02, 0x03],
        &[0x90],
        &[0x01, 0x90],
        &[0xC1, 0x41],
    ] {
        let decoder = LayerDecoder::new(data);
        assert!(!decoder.is_well_formed());
        assert_eq!(decoder.pixel_count(), None);
    }
    let layer = LayerContent {
        data: vec![0x41],
        ..LayerContent::default()
    };
    assert_eq!(layer.pixel_count(), None);
}

#[test]
fn a_pixel_count_that_does_not_fit_is_none() {
    // 2^36 chunks of 2^28 - 1 pixels would be needed to pass 2^64; sixteen
    // chunks of that size pass 2^32 and still fit.
    let mut data = Vec::new();
    for _ in 0..17 {
        data.extend_from_slice(&[0xFF, 0xFF, 0xFF, 0xFF]);
    }
    assert_eq!(
        LayerDecoder::new(&data).pixel_count(),
        Some(17 * 0xFFF_FFFF)
    );
}

#[test]
fn the_decoder_goes_through_the_payload_once() {
    let data = [0x05, 0xC2, 0x41, 7];
    let mut decoder = LayerDecoder::new(&data);
    assert!(decoder.is_well_formed());
    assert_eq!(decoder.pixel_count(), Some(8));
    assert_eq!(decoder.next(), Some(Run { length: 5, value: 0 }));
    assert_eq!(decoder.pixel_count(), Some(3));
    assert_eq!(decoder.next(), Some(Run { length: 2, value: 255 }));
    assert_eq!(decoder.next(), Some(Run { length: 1, value: 7 }));
    assert_eq!(decoder.next(), None);
    assert_eq!(decoder.next(), None);
    assert_eq!(decoder.checksum(), calculate_checksum(&data));
}

#[test]
fn the_checksum_is_the_inverted_sum() {
    assert_eq!(calculate_checksum(&[]), 0xFF);
    assert_eq!(calculate_checksum(&[1, 2, 3]), 249);
    assert_eq!(calculate_checksum(&[0xFF, 0x02]), 254);
    assert_eq!(calculate_checksum(&[0x80, 0x80]), 0xFF);
    assert_eq!(calculate_checksum(&[0x01, 0x81, 0x81, 0x81, 0x81, 0x81]), 0x79);
    let data = vec![0xABu8; 1000];
    let sum: u32 = data.iter().map(|&b| b as u32).sum();
    assert_eq!(calculate_checksum(&data), !((sum % 256) as u8));
}

#[test]
fn one_changed_byte_changes_the_checksum() {
    let data = encode(&[(1, 100), (300, 101), (7, 0), (9, 255)]);
    let good = calculate_checksum(&data);
    for at in 0..data.len() {
        for byte in 0..=255u8 {
            if byte != data[at] {
                let mut bad = data.clone();
                bad[at] = byte;
                assert_ne!(calculate_checksum(&bad), good);
            }
        }
    }
}

#[test]
fn an_empty_picture_has_an_empty_payload_and_its_checksum() {
    let mut layer = encode_pixels(2, 2, &[9, 9, 9, 9]);
    assert!(!layer.data.is_empty());
    layer.set_pixels(0, 0, &[]);
    assert!(layer.data.is_empty());
    assert_eq!(layer.checksum, 0xFF);
    assert_eq!(layer.checksum, calculate_checksum(&layer.data));
    assert!(layer.checksum_matches());
    // As the encoder gives it for no runs.
    assert_eq!(LayerEncoder::new().finish(), (Vec::new(), layer.checksum));
    layer.set_pixels(0, 5, &[]);
    assert!(layer.data.is_empty());
    assert!(layer.checksum_matches());
    assert_eq!(layer.pixel_count(), Some(0));
    assert_eq!(layer.decode_pixels(0, 5), Vec::<u8>::new());
}

#[test]
fn the_checksum_matches_after_every_change_of_the_picture() {
    let mut layer = LayerContent::default();
    assert!(layer.checksum_matches());
    for pixels in [
        &[][..],
        &[0],
        &[255, 255, 0],
        &[1, 2, 3, 200, 200, 7],
        &[],
        &[128; 40],
    ] {
        layer.set_pixels(pixels.len() as u32, 1, pixels);
        assert_eq!(layer.checksum, calculate_checksum(&layer.data));
        assert!(layer.checksum_matches());
    }
}

#[test]
fn setting_pixels_keeps_the_settings() {
    let mut layer = LayerContent::default();
    layer.pause_flag = 1;
    layer.lift_speed = 65.0f32.to_bits();
    layer.light_pwm = 200;
    layer.set_pixels(2, 1, &[3, 4]);
    assert_eq!(layer.pause_flag, 1);
    assert_eq!(f32::from_bits(layer.lift_speed), 65.0);
    assert_eq!(layer.light_pwm, 200);
    assert_eq!(layer.data, vec![0x41, 3, 0x81]);
    assert_eq!(layer.checksum, calculate_checksum(&layer.data));
}

#[test]
fn runs_of_at_most_255_pixels_come_back_one_for_one() {
    let runs: Vec<(u64, u8)> = vec![
        (255, 0),
        (1, 0),
        (255, 7),
        (254, 7),
        (1, 22),
        (0, 23),
        (200, 255),
        (255, 240),
        (16, 120),
        (15, 135),
        (255, 150),
        (3, 0),
    ];
    assert_eq!(runs_of(&encode(&runs)), runs);
    // A longer run behind a near value is split.
    assert_eq!(runs_of(&encode(&[(1, 7), (256, 8)])), vec![(1, 7), (255, 8), (1, 8)]);
}

#[test]
fn the_checksum_does_not_depend_on_the_order_of_the_bytes() {
    let data = encode(&[(1, 100), (300, 101), (7, 0), (9, 255), (70000, 31)]);
    let good = calculate_checksum(&data);
    let mut turned = data.clone();
    turned.reverse();
    assert_eq!(calculate_checksum(&turned), good);
    let mut sorted = data.clone();
    sorted.sort();
    assert_eq!(calculate_checksum(&sorted), good);
    let mut rotated = data.clone();
    rotated.rotate_left(3);
    assert_eq!(calculate_checksum(&rotated), good);
}
