use midi::{
    lower_seven_bits, msb_is_one, parse_ticks, u16_from_u8_at, u32_from_u8_at, DecodeError,
    DecodeErrorKind,
};

#[test]
fn test_parse_ticks_easy() {
    let test_buf = [0x50, 0x90, 0x26, 0x3C];
    match parse_ticks(&test_buf, 0) {
        Ok((ticks, new_offset)) => {
            assert!(ticks == 80);
            assert!(new_offset == 1);
        }
        Err(_) => assert!(false),
    }
}

#[test]
fn test_parse_ticks_hard() {
    let test_buf = [0x83, 0x60, 0x26, 0x00];
    match parse_ticks(&test_buf, 0) {
        Ok((ticks, new_offset)) => {
            assert!(ticks == 480);
            assert!(new_offset == 2);
        }
        Err(_) => assert!(false),
    }
}

#[test]
fn ticks_of_every_width() {
    assert_eq!(parse_ticks(&[0x00], 0), Ok((0, 1)));
    assert_eq!(parse_ticks(&[0x7f], 0), Ok((127, 1)));
    assert_eq!(parse_ticks(&[0x81, 0x00], 0), Ok((128, 2)));
    assert_eq!(parse_ticks(&[0xc0, 0x00], 0), Ok((0x2000, 2)));
    assert_eq!(parse_ticks(&[0xff, 0x7f], 0), Ok((0x3fff, 2)));
    assert_eq!(parse_ticks(&[0x81, 0x80, 0x00], 0), Ok((0x4000, 3)));
    assert_eq!(parse_ticks(&[0xff, 0xff, 0x7f], 0), Ok((0x1f_ffff, 3)));
    assert_eq!(parse_ticks(&[0x81, 0x80, 0x80, 0x00], 0), Ok((0x20_0000, 4)));
    assert_eq!(parse_ticks(&[0xff, 0xff, 0xff, 0x7f], 0), Ok((0x0fff_ffff, 4)));
}

#[test]
fn ticks_with_leading_zero_groups() {
    assert_eq!(parse_ticks(&[0x80, 0x00], 0), Ok((0, 2)));
    assert_eq!(parse_ticks(&[0x80, 0x80, 0x80, 0x05], 0), Ok((5, 4)));
}

#[test]
fn ticks_in_the_middle_of_a_buffer() {
    let buf = [0xff, 0xff, 0x83, 0x60, 0x90];
    assert_eq!(parse_ticks(&buf, 2), Ok((480, 4)));
    assert_eq!(parse_ticks(&buf, 3), Ok((0x60, 4)));
}

#[test]
fn ticks_without_an_end_are_malformed() {
    assert_eq!(
        parse_ticks(&[0x81, 0x82, 0x83, 0x84, 0x05], 0),
        Err(DecodeError { kind: DecodeErrorKind::MalformedQuantity, offset: 0 })
    );
    assert_eq!(
        parse_ticks(&[0x00, 0xff, 0xff, 0xff, 0xff], 1),
        Err(DecodeError { kind: DecodeErrorKind::MalformedQuantity, offset: 1 })
    );
}

#[test]
fn ticks_cut_short_are_a_bounds_failure() {
    assert_eq!(
        parse_ticks(&[], 0),
        Err(DecodeError { kind: DecodeErrorKind::Bounds, offset: 0 })
    );
    assert_eq!(
        parse_ticks(&[0x81], 0),
        Err(DecodeError { kind: DecodeErrorKind::Bounds, offset: 0 })
    );
    assert_eq!(
        parse_ticks(&[0x00, 0x81, 0x82, 0x83], 1),
        Err(DecodeError { kind: DecodeErrorKind::Bounds, offset: 1 })
    );
    assert_eq!(
        parse_ticks(&[0x00], 7),
        Err(DecodeError { kind: DecodeErrorKind::Bounds, offset: 7 })
    );
    assert_eq!(
        parse_ticks(&[0x00], usize::MAX),
        Err(DecodeError { kind: DecodeErrorKind::Bounds, offset: usize::MAX })
    );
}

#[test]
fn high_bit_and_low_bits() {
    assert!(!msb_is_one(0));
    assert!(!msb_is_one(127));
    assert!(msb_is_one(128));
    assert!(msb_is_one(255));
    assert_eq!(lower_seven_bits(0), 0);
    assert_eq!(lower_seven_bits(0x7f), 0x7f);
    assert_eq!(lower_seven_bits(0x80), 0);
    assert_eq!(lower_seven_bits(0x83), 3);
    assert_eq!(lower_seven_bits(0xff), 0x7f);
}

#[test]
fn fixed_width_reads_are_big_endian() {
    let buf = [0x12, 0x34, 0x56, 0x78, 0x9a];
    assert_eq!(u16_from_u8_at(&buf, 0), Ok(0x1234));
    assert_eq!(u16_from_u8_at(&buf, 3), Ok(0x789a));
    assert_eq!(u32_from_u8_at(&buf, 0), Ok(0x1234_5678));
    assert_eq!(u32_from_u8_at(&buf, 1), Ok(0x3456_789a));
    assert_eq!(u32_from_u8_at(&[0xff, 0xff, 0xff, 0xff], 0), Ok(u32::MAX));
    assert_eq!(u16_from_u8_at(&[0xff, 0xff], 0), Ok(u16::MAX));
}

#[test]
fn fixed_width_reads_past_the_end_are_bounds_failures() {
    let buf = [0x12, 0x34, 0x56, 0x78, 0x9a];
    assert_eq!(
        u16_from_u8_at(&buf, 4),
        Err(DecodeError { kind: DecodeErrorKind::Bounds, offset: 4 })
    );
    assert_eq!(
        u32_from_u8_at(&buf, 2),
        Err(DecodeError { kind: DecodeErrorKind::Bounds, offset: 2 })
    );
    assert_eq!(
        u16_from_u8_at(&[0x01], 0),
        Err(DecodeError { kind: DecodeErrorKind::Bounds, offset: 0 })
    );
    assert_eq!(
        u32_from_u8_at(&buf, usize::MAX),
        Err(DecodeError { kind: DecodeErrorKind::Bounds, offset: usize::MAX })
    );
}
