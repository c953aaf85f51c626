use varing::{
    zigzag_decode_i128, zigzag_decode_i16, zigzag_decode_i32, zigzag_decode_i64, zigzag_decode_i8,
    zigzag_encode_i128, zigzag_encode_i16, zigzag_encode_i32, zigzag_encode_i64, zigzag_encode_i8,
};

#[test]
fn zigzag_small_values() {
    assert_eq!(zigzag_encode_i8(-1), 1);
    assert_eq!(zigzag_encode_i8(1), 2);
    assert_eq!(zigzag_decode_i8(1), -1);
    assert_eq!(zigzag_encode_i8(0), 0);
    assert_eq!(zigzag_encode_i8(-2), 3);
    assert_eq!(zigzag_encode_i8(2), 4);
}

#[test]
fn zigzag_extremes() {
    assert_eq!(zigzag_encode_i8(i8::MIN), u8::MAX);
    assert_eq!(zigzag_encode_i8(i8::MAX), u8::MAX - 1);
    assert_eq!(zigzag_encode_i16(i16::MIN), u16::MAX);
    assert_eq!(zigzag_encode_i32(i32::MIN), u32::MAX);
    assert_eq!(zigzag_encode_i64(i64::MIN), u64::MAX);
    assert_eq!(zigzag_encode_i128(i128::MIN), u128::MAX);
    assert_eq!(zigzag_decode_i8(u8::MAX), i8::MIN);
    assert_eq!(zigzag_decode_i16(u16::MAX), i16::MIN);
    assert_eq!(zigzag_decode_i32(u32::MAX), i32::MIN);
    assert_eq!(zigzag_decode_i64(u64::MAX), i64::MIN);
    assert_eq!(zigzag_decode_i128(u128::MAX), i128::MIN);
}

#[test]
fn zigzag_round_trips() {
    for v in [i64::MIN, -300, -1, 0, 1, 300, i64::MAX] {
        assert_eq!(zigzag_decode_i64(zigzag_encode_i64(v)), v);
    }
    for v in i16::MIN..=i16::MAX {
        assert_eq!(zigzag_decode_i16(zigzag_encode_i16(v)), v);
    }
}
