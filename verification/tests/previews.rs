use goo::raster::{GrayImage, RgbaImage};
use goo::serde::{Deserializer, DynamicSerializer};
use goo::{LayerContent, PreviewImage};
use image::imageops::FilterType;

fn rgba(width: u32, height: u32, color: impl Fn(u32, u32) -> [u8; 4]) -> RgbaImage {
    let mut data = Vec::new();
    for y in 0..height {
        for x in 0..width {
            data.extend_from_slice(&color(x, y));
        }
    }
    RgbaImage::from_vec(width, height, data).unwrap()
}

#[test]
fn an_empty_preview_is_black() {
    let preview = PreviewImage::<4, 3>::empty();
    assert_eq!(preview.inner_data(), &[0u16; 12]);
    assert_eq!(PreviewImage::<0, 7>::empty().inner_data().len(), 0);
    assert_eq!(PreviewImage::<116, 116>::empty().inner_data().len(), 13456);
}

#[test]
fn a_pixel_is_five_six_and_five_bits() {
    let mut preview = PreviewImage::<4, 3>::empty();
    preview.set_pixel(1, 2, (31, 63, 31));
    preview.set_pixel(0, 0, (1, 0, 0));
    preview.set_pixel(3, 0, (0, 1, 0));
    preview.set_pixel(0, 1, (0, 0, 1));
    preview.set_pixel(3, 2, (0b10101, 0b110011, 0b01110));
    let data = preview.inner_data();
    assert_eq!(data[2 * 4 + 1], 0xFFFF);
    assert_eq!(data[0], 0x0800);
    assert_eq!(data[3], 0x0020);
    assert_eq!(data[4], 0x0001);
    assert_eq!(data[11], 0b10101_110011_01110);
    assert_eq!(data[1], 0);
    assert_eq!(preview.get_pixel(1, 2), (31, 63, 31));
    assert_eq!(preview.get_pixel(0, 0), (1, 0, 0));
    assert_eq!(preview.get_pixel(3, 0), (0, 1, 0));
    assert_eq!(preview.get_pixel(0, 1), (0, 0, 1));
    assert_eq!(preview.get_pixel(3, 2), (0b10101, 0b110011, 0b01110));
    assert_eq!(preview.get_pixel(2, 2), (0, 0, 0));
}

#[test]
fn every_colour_that_fits_comes_back() {
    let mut preview = PreviewImage::<1, 1>::empty();
    for red in 0..32 {
        for green in 0..64 {
            for blue in 0..32 {
                preview.set_pixel(0, 0, (red, green, blue));
                assert_eq!(preview.get_pixel(0, 0), (red, green, blue));
            }
        }
    }
}

#[test]
fn a_preview_is_written_two_bytes_a_pixel() {
    let mut preview = PreviewImage::<2, 2>::empty();
    preview.set_pixel(0, 0, (31, 0, 0));
    preview.set_pixel(1, 0, (0, 63, 0));
    preview.set_pixel(0, 1, (0, 0, 31));
    preview.set_pixel(1, 1, (2, 3, 4));
    let mut ser = DynamicSerializer::new();
    preview.serializes(&mut ser);
    let bytes = ser.into_inner();
    assert_eq!(bytes, vec![0xF8, 0x00, 0x07, 0xE0, 0x00, 0x1F, 0x10, 0x64]);

    let mut des = Deserializer::new(&bytes);
    let read = PreviewImage::<2, 2>::deserializes(&mut des);
    assert!(des.is_empty());
    assert_eq!(read.inner_data(), preview.inner_data());
    assert_eq!(read.get_pixel(1, 1), (2, 3, 4));
}

#[test]
fn a_preview_takes_the_top_bits_of_a_picture() {
    let image = rgba(3, 2, |x, y| match (x, y) {
        (0, 0) => [255, 255, 255, 255],
        (1, 0) => [255, 0, 0, 0],
        (2, 0) => [0, 255, 0, 7],
        (0, 1) => [0, 0, 255, 9],
        (1, 1) => [0b1010_1111, 0b1100_1111, 0b0111_0111, 1],
        _ => [7, 3, 7, 255],
    });
    assert_eq!(image.width(), 3);
    assert_eq!(image.height(), 2);
    assert_eq!(image.get_pixel(1, 1), [0b1010_1111, 0b1100_1111, 0b0111_0111, 1]);
    let preview = PreviewImage::<3, 2>::from_image(&image);
    assert_eq!(
        preview.inner_data(),
        &[0xFFFF, 0xF800, 0x07E0, 0x001F, 0b10101_110011_01110, 0x0000]
    );
    assert_eq!(preview.get_pixel(1, 1), (0b10101, 0b110011, 0b01110));
}

#[test]
fn a_picture_of_any_size_is_scaled_to_the_preview() {
    let red = rgba(7, 5, |_, _| [255, 0, 0, 255]);
    for filter in [
        FilterType::Nearest,
        FilterType::Triangle,
        FilterType::CatmullRom,
        FilterType::Gaussian,
        FilterType::Lanczos3,
    ] {
        let preview = PreviewImage::<4, 3>::from_image_scaled(&red, filter);
        assert_eq!(preview.inner_data(), &[0xF800u16; 12]);
        let larger = PreviewImage::<20, 10>::from_image_scaled(&red, filter);
        assert_eq!(larger.inner_data(), &[0xF800u16; 200]);
    }
}

#[test]
fn scaling_samples_the_picture() {
    // Left half white, right half black: the preview of half the size keeps
    // the halves.
    let image = rgba(8, 2, |x, _| if x < 4 { [255, 255, 255, 255] } else { [0, 0, 0, 255] });
    let preview = PreviewImage::<4, 1>::from_image_scaled(&image, FilterType::Nearest);
    assert_eq!(preview.inner_data(), &[0xFFFF, 0xFFFF, 0x0000, 0x0000]);
    // A picture of the size of the preview is taken as it is.
    let same = PreviewImage::<8, 2>::from_image_scaled(&image, FilterType::Lanczos3);
    assert_eq!(
        same.inner_data(),
        PreviewImage::<8, 2>::from_image(&image).inner_data()
    );
    // A picture without pixels gives a black preview.
    let nothing = rgba(0, 0, |_, _| [0; 4]);
    let black = PreviewImage::<3, 3>::from_image_scaled(&nothing, FilterType::Triangle);
    assert_eq!(black.inner_data(), &[0u16; 9]);
}

#[test]
fn a_picture_needs_a_buffer_that_holds_it() {
    assert!(GrayImage::from_vec(2, 3, vec![0; 5]).is_none());
    assert!(GrayImage::from_vec(u32::MAX, u32::MAX, vec![0; 5]).is_none());
    let image = GrayImage::from_vec(2, 3, vec![1, 2, 3, 4, 5, 6]).unwrap();
    assert_eq!((image.width(), image.height()), (2, 3));
    assert_eq!(image.as_raw(), &vec![1, 2, 3, 4, 5, 6]);
    assert_eq!(image.into_raw(), vec![1, 2, 3, 4, 5, 6]);
    let longer = GrayImage::from_vec(1, 1, vec![9, 8]).unwrap();
    assert_eq!(longer.as_raw().len(), 2);
    assert!(GrayImage::from_vec(0, 5, Vec::new()).is_some());

    assert!(RgbaImage::from_vec(2, 2, vec![0; 15]).is_none());
    assert!(RgbaImage::from_vec(u32::MAX, u32::MAX, vec![0; 16]).is_none());
    let image = RgbaImage::from_vec(2, 2, (0..16).collect()).unwrap();
    assert_eq!(image.get_pixel(0, 0), [0, 1, 2, 3]);
    assert_eq!(image.get_pixel(1, 0), [4, 5, 6, 7]);
    assert_eq!(image.get_pixel(0, 1), [8, 9, 10, 11]);
    assert_eq!(image.get_pixel(1, 1), [12, 13, 14, 15]);
    assert_eq!(image.as_raw().len(), 16);
    assert_eq!(image.into_raw().len(), 16);
}

#[test]
fn a_layer_gives_and_takes_a_picture() {
    let pixels: Vec<u8> = (0..12).map(|i| (i * 20) as u8).collect();
    let image = GrayImage::from_vec(4, 3, pixels.clone()).unwrap();
    let mut layer = LayerContent::default();
    layer.set_from_image(&image);
    assert_eq!(layer.pixel_count(), Some(12));
    assert!(layer.checksum_matches());
    let back = layer.to_image(4, 3);
    assert_eq!(back.width(), 4);
    assert_eq!(back.height(), 3);
    assert_eq!(back.as_raw(), &pixels);
    // The same pixels as three rows of four or four rows of three.
    let turned = layer.to_image(3, 4);
    assert_eq!((turned.width(), turned.height()), (3, 4));
    assert_eq!(turned.as_raw(), &pixels);
}

#[test]
fn a_long_thin_picture_is_scaled() {
    let green = rgba(70_000, 1, |_, _| [0, 255, 0, 255]);
    for filter in [
        FilterType::Nearest,
        FilterType::Triangle,
        FilterType::CatmullRom,
        FilterType::Gaussian,
        FilterType::Lanczos3,
    ] {
        let longer = PreviewImage::<70_001, 1>::from_image_scaled(&green, filter);
        assert!(longer.inner_data().iter().all(|&pixel| pixel == 0x07E0));
        let shorter = PreviewImage::<3, 2>::from_image_scaled(&green, filter);
        assert_eq!(shorter.inner_data(), &[0x07E0u16; 6]);
    }
}
