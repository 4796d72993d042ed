use libwing::wire::{
    read_f, read_i16, read_i32, read_i8, read_string, read_u16, read_u32, read_u8,
};

#[test]
fn read_u8_in_and_out_of_bounds() {
    assert_eq!(read_u8(&[7, 8], 0), Some(7));
    assert_eq!(read_u8(&[7, 8], 1), Some(8));
    assert_eq!(read_u8(&[7, 8], 2), None);
    assert_eq!(read_u8(&[], 0), None);
    assert_eq!(read_u8(&[1], usize::MAX), None);
}

#[test]
fn read_i8_is_twos_complement() {
    assert_eq!(read_i8(&[0x00], 0), Some(0));
    assert_eq!(read_i8(&[0x7F], 0), Some(127));
    assert_eq!(read_i8(&[0x80], 0), Some(-128));
    assert_eq!(read_i8(&[0xFF], 0), Some(-1));
    assert_eq!(read_i8(&[0xFF], 1), None);
}

#[test]
fn read_u16_is_big_endian() {
    assert_eq!(read_u16(&[0x12, 0x34], 0), Some(0x1234));
    assert_eq!(read_u16(&[0x00, 0x12, 0x34], 1), Some(0x1234));
    assert_eq!(read_u16(&[0xFF, 0xFF], 0), Some(0xFFFF));
    assert_eq!(read_u16(&[0x12], 0), None);
    assert_eq!(read_u16(&[0x12, 0x34], 1), None);
    assert_eq!(read_u16(&[0x12, 0x34], usize::MAX), None);
}

#[test]
fn read_i16_is_twos_complement() {
    assert_eq!(read_i16(&[0x7F, 0xFF], 0), Some(32767));
    assert_eq!(read_i16(&[0x80, 0x00], 0), Some(-32768));
    assert_eq!(read_i16(&[0xFF, 0xFE], 0), Some(-2));
    assert_eq!(read_i16(&[0xFF], 0), None);
}

#[test]
fn read_u32_is_big_endian() {
    assert_eq!(read_u32(&[0x12, 0x34, 0x56, 0x78], 0), Some(0x12345678));
    assert_eq!(read_u32(&[0, 0xFF, 0xFF, 0xFF, 0xFF], 1), Some(u32::MAX));
    assert_eq!(read_u32(&[0x12, 0x34, 0x56], 0), None);
    assert_eq!(read_u32(&[0x12, 0x34, 0x56, 0x78], 1), None);
}

#[test]
fn read_i32_is_twos_complement() {
    assert_eq!(read_i32(&[0x00, 0x00, 0x00, 0x05], 0), Some(5));
    assert_eq!(read_i32(&[0x7F, 0xFF, 0xFF, 0xFF], 0), Some(i32::MAX));
    assert_eq!(read_i32(&[0x80, 0x00, 0x00, 0x00], 0), Some(i32::MIN));
    assert_eq!(read_i32(&[0xFF, 0xFF, 0xFF, 0xFF], 0), Some(-1));
    assert_eq!(read_i32(&[0xFF, 0xFF, 0xFF], 0), None);
}

#[test]
fn read_f_gives_the_bit_pattern() {
    let one = read_f(&[0x3F, 0x80, 0x00, 0x00], 0).unwrap();
    assert_eq!(f32::from_bits(one), 1.0);
    let minus_half = read_f(&[0xBF, 0x00, 0x00, 0x00], 0).unwrap();
    assert_eq!(f32::from_bits(minus_half), -0.5);
    assert_eq!(read_f(&[0x3F, 0x80, 0x00], 0), None);
}

#[test]
fn read_string_takes_exactly_len_bytes() {
    let buf = b"xhelloy";
    assert_eq!(read_string(buf, 1, 5), Some("hello".to_string()));
    assert_eq!(read_string(buf, 0, 0), Some(String::new()));
    assert_eq!(read_string(buf, 7, 0), Some(String::new()));
    assert_eq!(read_string(buf, 3, 5), None);
    assert_eq!(read_string(buf, 8, 0), None);
    assert_eq!(read_string(buf, 1, usize::MAX), None);
}

#[test]
fn read_string_decodes_utf8() {
    let text = "Größe ✓";
    assert_eq!(read_string(text.as_bytes(), 0, text.len()), Some(text.to_string()));
}

#[test]
fn read_string_refuses_bad_utf8() {
    assert_eq!(read_string(&[0x61, 0xFF, 0x62], 0, 3), None);
    assert_eq!(read_string(&[0xC3], 0, 1), None);
    assert_eq!(read_string(&[0xC3, 0xA4], 0, 1), None);
    assert_eq!(read_string(&[0xC3, 0xA4], 0, 2), Some("ä".to_string()));
    assert_eq!(read_string(&[0xED, 0xA0, 0x80], 0, 3), None);
}
