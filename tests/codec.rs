use varing::{
    decode_i128_varint, decode_i64_varint, decode_u128_varint, decode_u16_varint,
    decode_u32_varint, decode_u64_varint, decode_u8_varint, encode_i128_varint, encode_i64_varint,
    encode_u128_varint, encode_u64_varint, encode_u64_varint_to, encode_u8_varint,
    encoded_i128_varint_len, encoded_u128_varint_len, encoded_u64_varint_len, DecodeError,
    EncodeError,
};

fn check(value: u64, encoded: &[u8]) {
    let a = encode_u64_varint(value);
    assert_eq!(a.as_slice(), encoded);
    assert_eq!(a.len(), encoded.len());
    assert_eq!(a.len(), encoded_u64_varint_len(value));

    let (read, decoded) = decode_u64_varint(a.as_slice()).unwrap();
    assert_eq!(decoded, value);
    assert_eq!(read, encoded.len());
}

#[test]
fn roundtrip_u64() {
    check(2u64.pow(0) - 1, &[0x00]);
    check(2u64.pow(0), &[0x01]);

    check(2u64.pow(7) - 1, &[0x7F]);
    check(2u64.pow(7), &[0x80, 0x01]);
    check(300u64, &[0xAC, 0x02]);

    check(2u64.pow(14) - 1, &[0xFF, 0x7F]);
    check(2u64.pow(14), &[0x80, 0x80, 0x01]);

    check(2u64.pow(21) - 1, &[0xFF, 0xFF, 0x7F]);
    check(2u64.pow(21), &[0x80, 0x80, 0x80, 0x01]);

    check(2u64.pow(28) - 1, &[0xFF, 0xFF, 0xFF, 0x7F]);
    check(2u64.pow(28), &[0x80, 0x80, 0x80, 0x80, 0x01]);

    check(2u64.pow(35) - 1, &[0xFF, 0xFF, 0xFF, 0xFF, 0x7F]);
    check(2u64.pow(35), &[0x80, 0x80, 0x80, 0x80, 0x80, 0x01]);

    check(2u64.pow(42) - 1, &[0xFF, 0xFF, 0xFF, 0xFF, 0xFF, 0x7F]);
    check(2u64.pow(42), &[0x80, 0x80, 0x80, 0x80, 0x80, 0x80, 0x01]);

    check(2u64.pow(49) - 1, &[0xFF, 0xFF, 0xFF, 0xFF, 0xFF, 0xFF, 0x7F]);
    check(2u64.pow(49), &[0x80, 0x80, 0x80, 0x80, 0x80, 0x80, 0x80, 0x01]);

    check(2u64.pow(56) - 1, &[0xFF, 0xFF, 0xFF, 0xFF, 0xFF, 0xFF, 0xFF, 0x7F]);
    check(2u64.pow(56), &[0x80, 0x80, 0x80, 0x80, 0x80, 0x80, 0x80, 0x80, 0x01]);

    check(2u64.pow(63) - 1, &[0xFF, 0xFF, 0xFF, 0xFF, 0xFF, 0xFF, 0xFF, 0xFF, 0x7F]);
    check(2u64.pow(63), &[0x80, 0x80, 0x80, 0x80, 0x80, 0x80, 0x80, 0x80, 0x80, 0x01]);

    check(u64::MAX, &[0xFF, 0xFF, 0xFF, 0xFF, 0xFF, 0xFF, 0xFF, 0xFF, 0xFF, 0x01]);
}

#[test]
fn test_large_number_encode_decode() {
    let original = 30000u64;
    let encoded = encode_u64_varint(original);
    let (bytes_read, decoded) = decode_u64_varint(encoded.as_slice()).unwrap();
    assert_eq!(original, decoded);
    assert_eq!(bytes_read, encoded.len());
}

#[test]
fn test_decode_overflow_error() {
    let buffer = [0x80u8; 11]; // More than 10 bytes
    match decode_u64_varint(&buffer) {
        Err(DecodeError::Overflow) => (),
        _ => panic!("Expected Overflow error"),
    }

    let buffer = [0x80u8; 6]; // More than 5 bytes
    match decode_u32_varint(&buffer) {
        Err(DecodeError::Overflow) => (),
        _ => panic!("Expected Overflow error"),
    }

    let buffer = [0x80u8; 4]; // More than 3 bytes
    match decode_u16_varint(&buffer) {
        Err(DecodeError::Overflow) => (),
        _ => panic!("Expected Overflow error"),
    }
}

fn zigzag_round_trip(value: i64) {
    let encoded = encode_i64_varint(value);
    let bytes_written = encoded.len();

    let decode_result = decode_i64_varint(encoded.as_slice());
    assert!(decode_result.is_ok(), "Decoding failed");
    let (decoded_bytes, decoded_value) = decode_result.unwrap();

    assert_eq!(decoded_bytes, bytes_written, "Incorrect number of bytes decoded");
    assert_eq!(decoded_value, value, "Decoded value does not match original");
}

#[test]
fn test_zigzag_encode_decode_i8() {
    let values = [-1, 0, 1, -100, 100, i8::MIN, i8::MAX];
    for &value in &values {
        zigzag_round_trip(value.into());
    }
}

#[test]
fn test_zigzag_encode_decode_i16() {
    let values = [-1, 0, 1, -100, 100, i16::MIN, i16::MAX];
    for &value in &values {
        zigzag_round_trip(value.into());
    }
}

#[test]
fn test_zigzag_encode_decode_i32() {
    let values = [-1, 0, 1, -10000, 10000, i32::MIN, i32::MAX];
    for &value in &values {
        zigzag_round_trip(value.into());
    }
}

#[test]
fn test_zigzag_encode_decode_i64() {
    let values = [-1, 0, 1, -1000000000, 1000000000, i64::MIN, i64::MAX];
    for &value in &values {
        zigzag_round_trip(value);
    }
}

#[test]
fn test_encode_error_update() {
    let ent = EncodeError::underflow(1, 0).update(4, 0);
    assert!(matches!(
        ent,
        EncodeError::InsufficientSpace(s) if s.requested() == 4 && s.available() == 0
    ));

    let ent = EncodeError::custom("test").update(4, 0);
    assert!(matches!(ent, EncodeError::Other(_)));
}

#[test]
fn encode_u64_small_values() {
    assert_eq!(encode_u64_varint(0).as_slice(), &[0x00]);
    assert_eq!(encode_u64_varint(127).as_slice(), &[0x7F]);
    assert_eq!(encode_u64_varint(128).as_slice(), &[0x80, 0x01]);
    assert_eq!(encode_u64_varint(300).as_slice(), &[0xAC, 0x02]);
}

#[test]
fn encode_u64_max_takes_ten_bytes() {
    let encoded = encode_u64_varint(u64::MAX);
    let bytes = encoded.as_slice();
    assert_eq!(bytes.len(), 10);
    for b in &bytes[..9] {
        assert!(b & 0x80 != 0);
    }
    assert_eq!(bytes[9], 0x01);
}

#[test]
fn decode_overflow_eleven_bytes() {
    let buf = [0x80, 0x80, 0x80, 0x80, 0x80, 0x80, 0x80, 0x80, 0x80, 0x80, 0x01];
    assert_eq!(decode_u64_varint(&buf), Err(DecodeError::Overflow));
}

#[test]
fn decode_empty_is_insufficient_data() {
    assert_eq!(decode_u64_varint(&[]), Err(DecodeError::InsufficientData { available: 0 }));
}

#[test]
fn decode_truncated_is_insufficient_data() {
    assert_eq!(
        decode_u64_varint(&[0x80, 0x80]),
        Err(DecodeError::InsufficientData { available: 2 })
    );
}

#[test]
fn encode_into_short_buffer_reports_lengths() {
    let mut buf = [0xEEu8; 1];
    match encode_u64_varint_to(300, &mut buf) {
        Err(EncodeError::InsufficientSpace(s)) => {
            assert_eq!(s.requested(), 2);
            assert_eq!(s.available(), 1);
        }
        other => panic!("unexpected {:?}", other),
    }
    assert_eq!(buf, [0xEE]);
}

#[test]
fn encode_into_buffer_keeps_the_rest() {
    let mut buf = [0xEEu8; 4];
    assert_eq!(encode_u64_varint_to(300, &mut buf), Ok(2));
    assert_eq!(buf, [0xAC, 0x02, 0xEE, 0xEE]);
}

#[test]
fn every_width_round_trips_at_extremes() {
    for v in [0u8, 1, 127, 128, u8::MAX] {
        let e = encode_u8_varint(v);
        assert_eq!(decode_u8_varint(e.as_slice()), Ok((e.len(), v)));
    }
    for v in [0u128, 1, u64::MAX as u128, u128::MAX] {
        let e = encode_u128_varint(v);
        assert_eq!(e.len(), encoded_u128_varint_len(v));
        assert_eq!(decode_u128_varint(e.as_slice()), Ok((e.len(), v)));
    }
    for v in [i128::MIN, -1, 0, 1, i128::MAX] {
        let e = encode_i128_varint(v);
        assert_eq!(e.len(), encoded_i128_varint_len(v));
        assert_eq!(decode_i128_varint(e.as_slice()), Ok((e.len(), v)));
    }
    assert_eq!(encoded_u128_varint_len(u128::MAX), 19);
}

#[test]
fn last_byte_over_the_width_overflows() {
    // u8: the second byte may only hold one bit
    assert_eq!(decode_u8_varint(&[0xFF, 0x01]), Ok((2, 255)));
    assert_eq!(decode_u8_varint(&[0xFF, 0x02]), Err(DecodeError::Overflow));
    // u16: the third byte may only hold two bits
    assert_eq!(decode_u16_varint(&[0xFF, 0xFF, 0x03]), Ok((3, u16::MAX)));
    assert_eq!(decode_u16_varint(&[0xFF, 0xFF, 0x04]), Err(DecodeError::Overflow));
    // non-minimal encodings decode
    assert_eq!(decode_u16_varint(&[0x81, 0x00]), Ok((2, 1)));
}

#[test]
fn buffers_compare_by_used_bytes() {
    assert_eq!(encode_u64_varint(300), encode_u64_varint(300));
    assert_ne!(encode_u64_varint(300), encode_u64_varint(301));
    assert!(!encode_u64_varint(0).is_empty());
}
