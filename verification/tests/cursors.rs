use goo::serde::{Deserializer, DynamicSerializer, Serializer, SizedSerializer, SizedString};

#[test]
fn numbers_are_read_most_significant_byte_first() {
    let data = [
        0x01, 0x02, 0x03, 0x04, 0x05, 0x06, 0x07, 0x08, 0x09, 0x0A, 0x0B, 0x0C, 0x0D, 0x0E, 0x0F,
        0x10, 0x00, 0x02, 0x3F, 0x80, 0x00, 0x00,
    ];
    let mut des = Deserializer::new(&data);
    assert_eq!(des.pos(), 0);
    assert_eq!(des.remaining(), 22);
    assert!(!des.is_empty());
    assert_eq!(des.read_u8(), 0x01);
    assert_eq!(des.read_u16(), 0x0203);
    assert_eq!(des.read_u32(), 0x0405_0607);
    assert_eq!(des.pos(), 7);
    assert_eq!(des.read_u64(), 0x0809_0A0B_0C0D_0E0F);
    assert_eq!(des.read_bytes(1), &[0x10]);
    assert!(!des.read_bool());
    assert!(des.read_bool());
    assert_eq!(f32::from_bits(des.read_f32()), 1.0);
    assert_eq!(des.pos(), 22);
    assert_eq!(des.remaining(), 0);
    assert!(des.is_empty());
}

#[test]
fn the_largest_numbers_are_read_whole() {
    let data = [0xFFu8; 15];
    let mut des = Deserializer::new(&data);
    assert_eq!(des.read_u8(), u8::MAX);
    assert_eq!(des.read_u16(), u16::MAX);
    assert_eq!(des.read_u32(), u32::MAX);
    assert_eq!(des.read_u64(), u64::MAX);
    assert!(des.is_empty());
}

#[test]
fn bytes_are_handed_out_in_order() {
    let data = [1u8, 2, 3, 4, 5];
    let mut des = Deserializer::new(&data);
    assert_eq!(des.read_bytes(0), &[] as &[u8]);
    assert_eq!(des.read_bytes(2), &[1, 2]);
    assert_eq!(des.read_bytes(3), &[3, 4, 5]);
    assert!(des.is_empty());
    let empty: [u8; 0] = [];
    assert!(Deserializer::new(&empty).is_empty());
}

#[test]
fn a_text_field_is_read_with_its_padding() {
    let data = [b'a', b'b', 0, 0, b'c'];
    let mut des = Deserializer::new(&data);
    let text: SizedString<4> = des.read_sized_string();
    assert_eq!(text.data, [b'a', b'b', 0, 0]);
    assert_eq!(text.to_string(), "ab");
    assert_eq!(des.pos(), 4);
}

#[test]
fn a_copy_of_a_cursor_reads_on_its_own() {
    let data = [7u8, 8, 9];
    let mut des = Deserializer::new(&data);
    let mut copy = des;
    assert_eq!(copy.read_u16(), 0x0708);
    assert_eq!(des.pos(), 0);
    assert_eq!(des.read_u8(), 7);
}

fn write_all<T: Serializer>(ser: &mut T) {
    ser.write_bool(true);
    ser.write_bool(false);
    ser.write_u8(0xAB);
    ser.write_u16(0x0102);
    ser.write_u32(0x0304_0506);
    ser.write_u64(0x0708_090A_0B0C_0D0E);
    ser.write_f32(1.0f32.to_bits());
    ser.write_bytes(&[0xDE, 0xAD]);
    ser.write_bytes(&[]);
    ser.write_sized_string(&SizedString::<3>::new(b"hi"));
}

const WRITTEN: [u8; 26] = [
    0x01, 0x00, 0xAB, 0x01, 0x02, 0x03, 0x04, 0x05, 0x06, 0x07, 0x08, 0x09, 0x0A, 0x0B, 0x0C,
    0x0D, 0x0E, 0x3F, 0x80, 0x00, 0x00, 0xDE, 0xAD, b'h', b'i', 0x00,
];

#[test]
fn the_growing_cursor_appends() {
    let mut ser = DynamicSerializer::new();
    write_all(&mut ser);
    assert_eq!(ser.into_inner(), WRITTEN);
    assert!(DynamicSerializer::default().into_inner().is_empty());
}

#[test]
fn the_fixed_cursor_writes_in_place_and_leaves_the_rest() {
    let mut buffer = [0x77u8; 30];
    let mut ser = SizedSerializer::new(&mut buffer);
    write_all(&mut ser);
    assert_eq!(ser.offset, 26);
    assert_eq!(&buffer[..26], &WRITTEN);
    assert_eq!(&buffer[26..], &[0x77; 4]);
}

#[test]
fn the_fixed_cursor_can_fill_its_buffer() {
    let mut buffer = [0u8; 26];
    let mut ser = SizedSerializer::new(&mut buffer);
    write_all(&mut ser);
    assert_eq!(buffer, WRITTEN);
}

#[test]
fn both_cursors_write_the_same_bytes() {
    let mut grown = DynamicSerializer::new();
    write_all(&mut grown);
    let mut buffer = vec![0u8; 26];
    write_all(&mut SizedSerializer::new(&mut buffer));
    assert_eq!(grown.into_inner(), buffer);
}

#[test]
fn what_is_written_is_read_back() {
    let mut ser = DynamicSerializer::new();
    for v in [0u64, 1, 255, 256, 0xFFFF, 0x1_0000, u32::MAX as u64, u64::MAX, 0x0123_4567_89AB_CDEF]
    {
        ser.write_u64(v);
        ser.write_u32(v as u32);
        ser.write_u16(v as u16);
        ser.write_u8(v as u8);
        ser.write_bool(v % 2 == 1);
    }
    let bytes = ser.into_inner();
    let mut des = Deserializer::new(&bytes);
    for v in [0u64, 1, 255, 256, 0xFFFF, 0x1_0000, u32::MAX as u64, u64::MAX, 0x0123_4567_89AB_CDEF]
    {
        assert_eq!(des.read_u64(), v);
        assert_eq!(des.read_u32(), v as u32);
        assert_eq!(des.read_u16(), v as u16);
        assert_eq!(des.read_u8(), v as u8);
        assert_eq!(des.read_bool(), v % 2 == 1);
    }
    assert!(des.is_empty());
}

#[test]
fn numbers_are_written_as_the_standard_library_writes_them() {
    let mut ser = DynamicSerializer::new();
    ser.write_u16(0xBEEF);
    ser.write_u32(0xDEAD_BEEF);
    ser.write_u64(0x0123_4567_89AB_CDEF);
    ser.write_f32(3.25f32.to_bits());
    let mut expected = Vec::new();
    expected.extend_from_slice(&0xBEEFu16.to_be_bytes());
    expected.extend_from_slice(&0xDEAD_BEEFu32.to_be_bytes());
    expected.extend_from_slice(&0x0123_4567_89AB_CDEFu64.to_be_bytes());
    expected.extend_from_slice(&3.25f32.to_be_bytes());
    assert_eq!(ser.into_inner(), expected);
}

#[test]
fn a_short_text_is_padded_with_zero_bytes() {
    let text = SizedString::<8>::new(b"abc");
    assert_eq!(text.data, [b'a', b'b', b'c', 0, 0, 0, 0, 0]);
    assert_eq!(text.len(), 3);
    assert_eq!(text.to_string(), "abc");
    let empty = SizedString::<4>::new(b"");
    assert_eq!(empty.data, [0; 4]);
    assert_eq!(empty.len(), 0);
    assert_eq!(empty.to_string(), "");
}

#[test]
fn a_long_text_is_cut_off() {
    let text = SizedString::<4>::new(b"abcdefgh");
    assert_eq!(text.data, *b"abcd");
    assert_eq!(text.len(), 4);
    assert_eq!(text.to_string(), "abcd");
    let exact = SizedString::<4>::new(b"wxyz");
    assert_eq!(exact.data, *b"wxyz");
    let none = SizedString::<0>::new(b"abc");
    assert_eq!(none.len(), 0);
    assert_eq!(none.to_string(), "");
}

#[test]
fn a_full_text_is_taken_as_it_is() {
    let text = SizedString::new_full(*b"ab\0d");
    assert_eq!(text.data, *b"ab\0d");
    assert_eq!(text.len(), 2);
    assert_eq!(text.to_string(), "ab");
}

#[test]
fn bytes_that_are_no_text_are_replaced() {
    let text = SizedString::new_full([b'a', 0xFF, b'b', 0xC3, 0xA9, 0]);
    assert_eq!(text.to_string(), "a\u{FFFD}b\u{e9}");
    let cut = SizedString::<3>::new(&[b'x', 0xE2, 0x82, 0xAC]);
    assert_eq!(cut.to_string(), "x\u{FFFD}");
}
