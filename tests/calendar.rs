use chrono::{NaiveDate, NaiveDateTime, NaiveTime};
use varing::calendar::{
    decode_naive_date, decode_naive_datetime, decode_naive_time, encode_naive_datetime_to,
    encoded_naive_datetime_len, encode_naive_date_to, encode_naive_time_to,
    encoded_naive_date_len, encoded_naive_time_len,
};
use varing::time_utils::{encode_date, encode_datetime, encode_time};
use varing::DecodeError;

#[test]
fn naive_date_round_trip() {
    for (y, m, d) in [(2024, 2, 29), (1970, 1, 1), (-262143, 1, 1), (262142, 12, 31), (-4, 2, 29)] {
        let date = NaiveDate::from_ymd_opt(y, m, d).unwrap();
        let mut buf = [0u8; 5];
        let n = encode_naive_date_to(&date, &mut buf).unwrap();
        assert_eq!(n, encoded_naive_date_len(&date));
        assert_eq!(decode_naive_date(&buf[..n]), Ok((n, date)));
    }
}

#[test]
fn naive_date_rejects_invalid_day() {
    let packed = encode_date(2023, 2, 29);
    assert_eq!(decode_naive_date(packed.as_slice()), Err(DecodeError::Other("invalid date")));
    let packed = encode_date(2023, 13, 1);
    assert_eq!(decode_naive_date(packed.as_slice()), Err(DecodeError::Other("invalid date")));
    assert_eq!(decode_naive_date(&[]), Err(DecodeError::InsufficientData { available: 0 }));
}

#[test]
fn naive_time_round_trip() {
    for (h, m, s, n) in [(0, 0, 0, 0), (23, 59, 59, 999_999_999), (23, 59, 59, 1_500_000_000)] {
        let time = NaiveTime::from_hms_nano_opt(h, m, s, n).unwrap();
        let mut buf = [0u8; 7];
        let k = encode_naive_time_to(&time, &mut buf).unwrap();
        assert_eq!(k, encoded_naive_time_len(&time));
        assert_eq!(decode_naive_time(&buf[..k]), Ok((k, time)));
    }
}

#[test]
fn naive_time_rejects_out_of_range() {
    let packed = encode_time(0, 0, 0, 24);
    assert_eq!(
        decode_naive_time(packed.as_slice()),
        Err(DecodeError::Other("invalid hour, minute, second and/or nanosecond"))
    );
    let packed = encode_time(1_500_000_000, 58, 0, 0);
    assert_eq!(
        decode_naive_time(packed.as_slice()),
        Err(DecodeError::Other("invalid hour, minute, second and/or nanosecond"))
    );
}

#[test]
fn naive_datetime_round_trip() {
    let date = NaiveDate::from_ymd_opt(2024, 2, 29).unwrap();
    let time = NaiveTime::from_hms_nano_opt(23, 59, 59, 1_999_999_999).unwrap();
    let dt = NaiveDateTime::new(date, time);
    let mut buf = [0u8; 19];
    let n = encode_naive_datetime_to(&dt, &mut buf).unwrap();
    assert_eq!(n, encoded_naive_datetime_len(&dt));
    assert_eq!(decode_naive_datetime(&buf[..n]), Ok((n, dt)));
}

#[test]
fn naive_datetime_errors() {
    let packed = encode_datetime(2023, 2, 29, 0, 0, 0, 0);
    assert_eq!(decode_naive_datetime(packed.as_slice()), Err(DecodeError::Other("invalid date")));
    let packed = encode_datetime(2023, 2, 28, 24, 0, 0, 0);
    assert_eq!(
        decode_naive_datetime(packed.as_slice()),
        Err(DecodeError::Other("invalid hour, minute, second and/or nanosecond"))
    );
}
