use time::{Date, Month, PrimitiveDateTime, Time, UtcDateTime};
use varing::time_types::{
    decode_duration, encode_duration, encode_duration_to, encoded_duration_len, decode_utc, encode_utc_to, encoded_utc_len,
    decode_date, decode_datetime, decode_time, encode_datetime_to, encoded_datetime_len, encode_date_to, encode_time_to, encoded_date_len,
    encoded_time_len, u8_to_month,
};
use varing::time_utils::{encode_date, encode_datetime, encode_secs_and_subsec_nanos, encode_time};
use varing::DecodeError;

#[test]
fn date_round_trip() {
    for (y, m, d) in [(2024, Month::February, 29), (-9999, Month::January, 1), (9999, Month::December, 31)] {
        let date = Date::from_calendar_date(y, m, d).unwrap();
        let mut buf = [0u8; 5];
        let n = encode_date_to(&date, &mut buf).unwrap();
        assert_eq!(n, encoded_date_len(&date));
        assert_eq!(decode_date(&buf[..n]), Ok((n, date)));
    }
}

#[test]
fn date_errors() {
    let packed = encode_date(2023, 2, 29);
    assert_eq!(decode_date(packed.as_slice()), Err(DecodeError::Other("invalid date value")));
    let packed = encode_date(2023, 13, 1);
    assert_eq!(decode_date(packed.as_slice()), Err(DecodeError::Other("invalid month value")));
    let packed = encode_date(2023, 0, 1);
    assert_eq!(decode_date(packed.as_slice()), Err(DecodeError::Other("invalid month value")));
}

#[test]
fn months_by_number() {
    assert_eq!(u8_to_month(1), Ok(Month::January));
    assert_eq!(u8_to_month(12), Ok(Month::December));
    assert_eq!(u8_to_month(0), Err(DecodeError::Other("invalid month value")));
    assert_eq!(u8_to_month(13), Err(DecodeError::Other("invalid month value")));
}

#[test]
fn time_round_trip() {
    for (h, m, s, n) in [(0, 0, 0, 0), (23, 59, 59, 999_999_999), (12, 30, 15, 42)] {
        let time = Time::from_hms_nano(h, m, s, n).unwrap();
        let mut buf = [0u8; 7];
        let k = encode_time_to(&time, &mut buf).unwrap();
        assert_eq!(k, encoded_time_len(&time));
        assert_eq!(decode_time(&buf[..k]), Ok((k, time)));
    }
    let packed = encode_time(1_000_000_000, 59, 59, 23);
    assert_eq!(decode_time(packed.as_slice()), Err(DecodeError::Other("invalid time value")));
}

#[test]
fn primitive_datetime_round_trip() {
    let date = Date::from_calendar_date(-44, Month::March, 15).unwrap();
    let time = Time::from_hms_nano(12, 0, 1, 5).unwrap();
    let dt = PrimitiveDateTime::new(date, time);
    let mut buf = [0u8; 19];
    let n = encode_datetime_to(&dt, &mut buf).unwrap();
    assert_eq!(n, encoded_datetime_len(&dt));
    assert_eq!(decode_datetime(&buf[..n]), Ok((n, dt)));
}

#[test]
fn primitive_datetime_errors() {
    let packed = encode_datetime(2023, 14, 1, 0, 0, 0, 0);
    assert_eq!(decode_datetime(packed.as_slice()), Err(DecodeError::Other("invalid month value")));
    let packed = encode_datetime(2023, 4, 31, 0, 0, 0, 0);
    assert_eq!(decode_datetime(packed.as_slice()), Err(DecodeError::Other("invalid date value")));
    let packed = encode_datetime(2023, 4, 30, 0, 60, 0, 0);
    assert_eq!(decode_datetime(packed.as_slice()), Err(DecodeError::Other("invalid time value")));
}

#[test]
fn utc_datetime_round_trip() {
    let date = Date::from_calendar_date(1999, Month::December, 31).unwrap();
    let time = Time::from_hms_nano(23, 59, 59, 999_999_999).unwrap();
    let utc = UtcDateTime::new(date, time);
    let mut buf = [0u8; 19];
    let n = encode_utc_to(&utc, &mut buf).unwrap();
    assert_eq!(n, encoded_utc_len(&utc));
    assert_eq!(decode_utc(&buf[..n]), Ok((n, utc)));
    let packed = encode_datetime(1999, 2, 30, 0, 0, 0, 0);
    assert_eq!(decode_utc(packed.as_slice()), Err(DecodeError::Other("invalid date value")));
}

#[test]
fn time_duration_round_trip() {
    for d in [
        time::Duration::new(0, 0),
        time::Duration::new(5, -3),
        time::Duration::new(-7, 250),
        time::Duration::new(i64::MAX, 999_999_999),
        time::Duration::new(i64::MIN, -999_999_999),
    ] {
        let e = encode_duration(&d);
        assert_eq!(e.len(), encoded_duration_len(&d));
        assert_eq!(decode_duration(e.as_slice()), Ok((e.len(), d)));
        let mut buf = [0u8; 19];
        assert_eq!(encode_duration_to(&d, &mut buf), Ok(e.len()));
    }
}

#[test]
fn time_duration_overflow() {
    let packed = encode_secs_and_subsec_nanos(i64::MAX, 1_500_000_000);
    assert_eq!(
        decode_duration(packed.as_slice()),
        Err(DecodeError::Other("duration seconds overflow"))
    );
    let packed = encode_secs_and_subsec_nanos(1, 1_500_000_000);
    assert_eq!(
        decode_duration(packed.as_slice()).map(|r| r.1),
        Ok(time::Duration::new(2, 500_000_000))
    );
}
