use chrono::TimeDelta;
use std::time::Duration;
use time::{Date, Month, PrimitiveDateTime, Time, UtcDateTime};
use varing::calendar::{
    decode_duration as decode_delta, decode_naive_datetime, decode_naive_time,
    encode_duration as encode_delta, encode_duration_to as encode_delta_to,
    encoded_duration_len as encoded_delta_len,
};
use varing::time_types::{
    decode_date, decode_datetime, decode_time, decode_utc, encode_date, encode_datetime,
    encode_time, encode_utc,
};
use varing::time_utils::{decode_datetime as decode_datetime_fields, encode_secs_and_subsec_nanos};
use varing::{
    decode_duration, encode_i128_varint, encode_u128_varint, encode_u64_varint, DecodeError,
};

#[test]
fn time_of_day_beyond_48_bits_overflows() {
    let e = encode_u64_varint(1 << 48);
    assert_eq!(decode_naive_time(e.as_slice()), Err(DecodeError::Overflow));
    assert_eq!(decode_time(e.as_slice()), Err(DecodeError::Overflow));
}

#[test]
fn year_beyond_32_bits_overflows() {
    let e = encode_i128_varint(1i128 << 88);
    assert_eq!(decode_datetime_fields(e.as_slice()), Err(DecodeError::Overflow));
    assert_eq!(decode_naive_datetime(e.as_slice()), Err(DecodeError::Overflow));
    assert_eq!(decode_datetime(e.as_slice()), Err(DecodeError::Overflow));
    let e = encode_i128_varint(-(1i128 << 88) - 1);
    assert_eq!(decode_utc(e.as_slice()), Err(DecodeError::Overflow));
}

#[test]
fn seconds_beyond_64_bits_overflow() {
    let e = encode_u128_varint(1u128 << 96);
    assert_eq!(decode_duration(e.as_slice()), Err(DecodeError::Overflow));
    assert_eq!(varing::time_types::decode_duration(e.as_slice()), Err(DecodeError::Overflow));
    assert_eq!(decode_delta(e.as_slice()), Err(DecodeError::Overflow));
    let ok = encode_u128_varint(5u128 << 32);
    assert_eq!(decode_duration(ok.as_slice()), Ok((ok.len(), Duration::new(5, 0))));
}

#[test]
fn time_buffer_encoders() {
    let date = Date::from_calendar_date(2020, Month::March, 1).unwrap();
    let e = encode_date(&date);
    assert_eq!(decode_date(e.as_slice()), Ok((e.len(), date)));
    let time = Time::from_hms_nano(1, 2, 3, 4).unwrap();
    let e = encode_time(&time);
    assert_eq!(decode_time(e.as_slice()), Ok((e.len(), time)));
    let dt = PrimitiveDateTime::new(date, time);
    let e = encode_datetime(&dt);
    assert_eq!(decode_datetime(e.as_slice()), Ok((e.len(), dt)));
    let utc = UtcDateTime::new(date, time);
    let e = encode_utc(&utc);
    assert_eq!(decode_utc(e.as_slice()), Ok((e.len(), utc)));
}

#[test]
fn time_delta_round_trip() {
    for d in [
        TimeDelta::zero(),
        TimeDelta::new(5, 7).unwrap(),
        TimeDelta::new(-3, 500_000_000).unwrap(),
        TimeDelta::MAX,
        TimeDelta::MIN,
    ] {
        let e = encode_delta(&d);
        assert_eq!(e.len(), encoded_delta_len(&d));
        assert_eq!(decode_delta(e.as_slice()), Ok((e.len(), d)));
        let mut buf = [0u8; 19];
        assert_eq!(encode_delta_to(&d, &mut buf), Ok(e.len()));
    }
}

#[test]
fn time_delta_out_of_bounds() {
    let e = encode_secs_and_subsec_nanos(i64::MAX, 0);
    assert_eq!(decode_delta(e.as_slice()), Err(DecodeError::Other("duration is out of bounds")));
    let e = encode_secs_and_subsec_nanos(i64::MAX / 1000, 999_999_999);
    assert_eq!(decode_delta(e.as_slice()), Err(DecodeError::Other("duration is out of bounds")));
}
