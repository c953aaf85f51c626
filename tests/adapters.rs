use std::time::Duration;
use varing::time_utils::{
    date_time_to_merged, date_to_merged, decode_date, decode_datetime,
    decode_secs_and_subsec_nanos, decode_time, encode_date, encode_date_to, encode_datetime,
    encode_datetime_to, encode_secs_and_subsec_nanos, encode_secs_and_subsec_nanos_to,
    encode_time, encode_time_to, encoded_date_len, encoded_datetime_len,
    encoded_secs_and_subsec_nanos_len, encoded_time_len, merged_to_date, merged_to_date_time,
    merged_to_secs_and_subsec_nanos, merged_to_time, secs_and_subsec_nanos_to_merged,
    time_to_merged,
};
use varing::{
    decode_char, decode_duration, encode_char, encode_char_to, encode_duration,
    encode_duration_to, encoded_char_len, encoded_duration_len, DecodeError, Varint,
};

#[test]
fn char_round_trip() {
    for c in ['a', '\0', 'é', '€', '\u{10FFFF}', '\u{D7FF}', '\u{E000}'] {
        let encoded = encode_char(&c);
        assert_eq!(encoded.len(), encoded_char_len(&c));
        assert_eq!(decode_char(encoded.as_slice()), Ok((encoded.len(), c)));
        let mut buf = [0u8; 5];
        assert_eq!(encode_char_to(&c, &mut buf), Ok(encoded.len()));
        assert_eq!(<char as Varint>::decode(&buf), Ok((encoded.len(), c)));
    }
    assert_eq!(encode_char(&'a').as_slice(), &[0x61]);
    assert_eq!(encode_char(&'€').as_slice(), &[0xAC, 0x41]);
}

#[test]
fn char_rejects_surrogates() {
    // 0xD800 as a varint
    assert_eq!(decode_char(&[0x80, 0xB0, 0x03]), Err(DecodeError::Other("invalid char value")));
    // 0x110000
    assert_eq!(decode_char(&[0x80, 0x80, 0x44]), Err(DecodeError::Other("invalid char value")));
}

#[test]
fn duration_round_trip() {
    for d in [
        Duration::new(0, 0),
        Duration::new(1, 5),
        Duration::new(u64::MAX, 999_999_999),
        Duration::from_millis(1500),
    ] {
        let encoded = encode_duration(&d);
        assert_eq!(encoded.len(), encoded_duration_len(&d));
        assert_eq!(decode_duration(encoded.as_slice()), Ok((encoded.len(), d)));
        let mut buf = [0u8; 19];
        assert_eq!(encode_duration_to(&d, &mut buf), Ok(encoded.len()));
    }
    assert_eq!(encode_duration(&Duration::new(0, 1)).as_slice(), &[0x01]);
    assert_eq!(encode_duration(&Duration::new(1, 0)).as_slice(), &[0x80, 0x80, 0x80, 0x80, 0x10]);
}

#[test]
fn duration_nanos_carry_and_overflow() {
    // nanos 1_500_000_000 with secs 0 carries into one second
    let value: u128 = 1_500_000_000;
    let mut buf = [0u8; 19];
    let n = varint_u128(value, &mut buf);
    assert_eq!(decode_duration(&buf[..n]), Ok((n, Duration::new(1, 500_000_000))));
    // secs u64::MAX with nanos past a second overflows
    let value: u128 = ((u64::MAX as u128) << 32) | 1_500_000_000;
    let n = varint_u128(value, &mut buf);
    assert_eq!(decode_duration(&buf[..n]), Err(DecodeError::Other("duration seconds overflow")));
}

fn varint_u128(value: u128, buf: &mut [u8]) -> usize {
    varing::encode_u128_varint_to(value, buf).unwrap()
}

#[test]
fn date_packing() {
    assert_eq!(date_to_merged(2024, 2, 29), 2024 * 512 + 2 * 32 + 29);
    assert_eq!(merged_to_date(date_to_merged(2024, 2, 29)), (2024, 2, 29));
    assert_eq!(merged_to_date(date_to_merged(-44, 3, 15)), (-44, 3, 15));
    let encoded = encode_date(1970, 1, 1);
    assert_eq!(encoded.len(), encoded_date_len(1970, 1, 1));
    assert_eq!(decode_date(encoded.as_slice()), Ok((encoded.len(), 1970, 1, 1)));
    let mut buf = [0u8; 5];
    assert_eq!(encode_date_to(-1, 12, 31, &mut buf), Ok(encoded_date_len(-1, 12, 31)));
    assert_eq!(decode_date(&buf).map(|r| (r.1, r.2, r.3)), Ok((-1, 12, 31)));
}

#[test]
fn time_packing() {
    let merged = time_to_merged(123_456_789, 59, 30, 23);
    assert_eq!(merged, 123_456_789 | (59 << 31) | (30 << 37) | (23 << 43));
    assert_eq!(merged_to_time(merged), (123_456_789, 59, 30, 23));
    let encoded = encode_time(1, 2, 3, 4);
    assert_eq!(encoded.len(), encoded_time_len(1, 2, 3, 4));
    assert_eq!(decode_time(encoded.as_slice()), Ok((encoded.len(), 1, 2, 3, 4)));
    let mut buf = [0u8; 7];
    assert_eq!(encode_time_to(0, 0, 0, 0, &mut buf), Ok(1));
}

#[test]
fn date_time_packing() {
    let merged = date_time_to_merged(2025, 12, 31, 23, 59, 60, 999_999_999);
    assert_eq!(merged_to_date_time(merged), (2025, 12, 31, 23, 59, 60, 999_999_999));
    let merged = date_time_to_merged(-262_143, 1, 1, 0, 0, 0, 0);
    assert_eq!(merged_to_date_time(merged), (-262_143, 1, 1, 0, 0, 0, 0));
    let encoded = encode_datetime(2000, 6, 15, 12, 0, 0, 0);
    assert_eq!(encoded.len(), encoded_datetime_len(2000, 6, 15, 12, 0, 0, 0));
    assert_eq!(
        decode_datetime(encoded.as_slice()),
        Ok((encoded.len(), 2000, 6, 15, 12, 0, 0, 0))
    );
    let mut buf = [0u8; 19];
    let n = encode_datetime_to(i32::MIN, 15, 31, 31, 63, 63, 0x7FFF_FFFF, &mut buf).unwrap();
    assert_eq!(decode_datetime(&buf[..n]), Ok((n, i32::MIN, 15, 31, 31, 63, 63, 0x7FFF_FFFF)));
}

#[test]
fn secs_and_nanos_packing() {
    let merged = secs_and_subsec_nanos_to_merged(-1, 1);
    assert_eq!(merged, (1u128 << 32) | 2);
    assert_eq!(merged_to_secs_and_subsec_nanos(merged), (-1, 1));
    let encoded = encode_secs_and_subsec_nanos(i64::MIN, i32::MIN);
    assert_eq!(encoded.len(), encoded_secs_and_subsec_nanos_len(i64::MIN, i32::MIN));
    assert_eq!(
        decode_secs_and_subsec_nanos(encoded.as_slice()),
        Ok((encoded.len(), i64::MIN, i32::MIN))
    );
    let mut buf = [0u8; 19];
    assert_eq!(encode_secs_and_subsec_nanos_to(0, 0, &mut buf), Ok(1));
}
