use vstd::prelude::*;

use time::{Date, Month, PrimitiveDateTime, Time, UtcDateTime};

use crate::error::{DecodeError, EncodeError};
use crate::leb128::{decode_leb128, encoded_into, leb128};
use crate::primitives::decode_zigzag_leb128;
use crate::time_utils::{
    date_merged, decode_date as decode_date_fields, decode_secs_and_subsec_nanos,
    encode_secs_and_subsec_nanos, encode_secs_and_subsec_nanos_to,
    encoded_secs_and_subsec_nanos_len, decode_time as decode_time_fields,
    encode_date_to as encode_date_fields_to, encode_time_to as encode_time_fields_to,
    encoded_date_len as encoded_date_fields_len, encoded_time_len as encoded_time_fields_len,
    encode_date as encode_date_fields, encode_datetime as encode_datetime_fields,
    encode_time as encode_time_fields, fits_year, lemma_date_round_trip, time_fields, time_merged, date_time_merged,
    decode_datetime as decode_datetime_fields, encode_datetime_to as encode_datetime_fields_to,
    encoded_datetime_len as encoded_datetime_fields_len,
};
use crate::utils::{unzigzag, zigzag, Buffer};
use crate::calendar::days_in_month;

verus! {

#[verifier::external_type_specification]
#[verifier::external_body]
pub struct ExDate(Date);

#[verifier::external_type_specification]
#[verifier::external_body]
pub struct ExTime(Time);

#[verifier::external_type_specification]
#[verifier::external_body]
pub struct ExComponentRange(time::error::ComponentRange);

#[verifier::external_type_specification]
pub struct ExMonth(Month);

#[verifier::external_type_specification]
#[verifier::external_body]
pub struct ExPrimitiveDateTime(PrimitiveDateTime);

#[verifier::external_type_specification]
#[verifier::external_body]
pub struct ExUtcDateTime(UtcDateTime);

#[verifier::external_type_specification]
#[verifier::external_body]
pub struct ExSignedDuration(time::SignedDuration);

/// The number of a month, January being 1.
pub open spec fn month_number(m: Month) -> u8 {
    match m {
        Month::January => 1,
        Month::February => 2,
        Month::March => 3,
        Month::April => 4,
        Month::May => 5,
        Month::June => 6,
        Month::July => 7,
        Month::August => 8,
        Month::September => 9,
        Month::October => 10,
        Month::November => 11,
        Month::December => 12,
    }
}

/// The year of a date, as `Date::year` reports it.
pub uninterp spec fn date_year(d: Date) -> i32;

/// The month of a date, as `Date::month` reports it.
pub uninterp spec fn date_month(d: Date) -> Month;

/// The day of the month, from 1, as `Date::day` reports it.
pub uninterp spec fn date_day(d: Date) -> u8;

/// Whether `Date::from_calendar_date` makes a date of these fields: a day of the proleptic
/// Gregorian calendar from year -9999 to 9999.
pub open spec fn calendar_date_valid(year: i32, month: u8, day: u8) -> bool {
    &&& -9999 <= year <= 9999
    &&& 1 <= month <= 12
    &&& 1 <= day <= days_in_month(year as int, month as int)
}

/// The hour of a time, as `Time::hour` reports it.
pub uninterp spec fn time_hour(t: Time) -> u8;

/// The minute of a time, as `Time::minute` reports it.
pub uninterp spec fn time_minute(t: Time) -> u8;

/// The second of a time, as `Time::second` reports it.
pub uninterp spec fn time_second(t: Time) -> u8;

/// The nanosecond of a time, as `Time::nanosecond` reports it.
pub uninterp spec fn time_nanosecond(t: Time) -> u32;

/// Relies on `Date::year`: a year from -9999 to 9999.
pub assume_specification[ time::Date::year ](d: Date) -> (r: i32)
    ensures
        r == date_year(d),
        -9999 <= r <= 9999,
;

/// Relies on `Date::month`.
pub assume_specification[ time::Date::month ](d: Date) -> (r: Month)
    ensures
        r == date_month(d),
;

/// Relies on `Date::day`: a day from 1 to 31.
pub assume_specification[ time::Date::day ](d: Date) -> (r: u8)
    ensures
        r == date_day(d),
        1 <= r <= 31,
;

/// Relies on `Date::from_calendar_date`: a date of exactly these fields when they name a day
/// of the calendar within the crate's range.
pub assume_specification[ time::Date::from_calendar_date ](year: i32, month: Month, day: u8) -> (r:
    Result<Date, time::error::ComponentRange>)
    ensures
        r is Ok <==> calendar_date_valid(year, month_number(month), day),
        r matches Ok(d) ==> date_year(d) == year && date_month(d) == month && date_day(d) == day,
;

/// Relies on `Time::hour`: an hour below 24.
pub assume_specification[ time::Time::hour ](t: Time) -> (r: u8)
    ensures
        r == time_hour(t),
        r < 24,
;

/// Relies on `Time::minute`: a minute below 60.
pub assume_specification[ time::Time::minute ](t: Time) -> (r: u8)
    ensures
        r == time_minute(t),
        r < 60,
;

/// Relies on `Time::second`: a second below 60.
pub assume_specification[ time::Time::second ](t: Time) -> (r: u8)
    ensures
        r == time_second(t),
        r < 60,
;

/// Relies on `Time::nanosecond`: below one second's worth.
pub assume_specification[ time::Time::nanosecond ](t: Time) -> (r: u32)
    ensures
        r == time_nanosecond(t),
        r < 1_000_000_000,
;

/// Whether each field of a time of day is in range.
pub open spec fn hms_nano_in_range(hour: u8, minute: u8, second: u8, nanosecond: u32) -> bool {
    hour < 24 && minute < 60 && second < 60 && nanosecond < 1_000_000_000
}

/// Relies on `Time::from_hms_nano`: a time of exactly these fields when each is in range.
pub assume_specification[ time::Time::from_hms_nano ](hour: u8, minute: u8, second: u8, nanosecond: u32) -> (r: Result<Time, time::error::ComponentRange>)
    ensures
        r is Ok <==> hms_nano_in_range(hour, minute, second, nanosecond),
        r matches Ok(t) ==> time_hour(t) == hour && time_minute(t) == minute && time_second(t)
            == second && time_nanosecond(t) == nanosecond,
;

/// Relies on `From<Month> for u8`: the month's number.
#[verifier::external_body]
fn month_to_u8(m: Month) -> (r: u8)
    ensures
        r == month_number(m),
{
    u8::from(m)
}

/// The message of the error for a decoded month that is no month.
pub const INVALID_MONTH: &'static str = "invalid month value";

/// The message of the error for decoded fields that name no day of the calendar.
pub const INVALID_DATE: &'static str = "invalid date value";

/// The message of the error for decoded fields that name no time of day.
pub const INVALID_TIME: &'static str = "invalid time value";

/// Returns the month numbered `val`, January being 1; any number but 1 to 12 is an error.
pub fn u8_to_month(val: u8) -> (r: Result<Month, DecodeError>)
    ensures
        match r {
            Ok(m) => 1 <= val <= 12 && month_number(m) == val,
            Err(e) => !(1 <= val <= 12) && e == DecodeError::Other(INVALID_MONTH),
        },
{
    match val {
        1 => Ok(Month::January),
        2 => Ok(Month::February),
        3 => Ok(Month::March),
        4 => Ok(Month::April),
        5 => Ok(Month::May),
        6 => Ok(Month::June),
        7 => Ok(Month::July),
        8 => Ok(Month::August),
        9 => Ok(Month::September),
        10 => Ok(Month::October),
        11 => Ok(Month::November),
        12 => Ok(Month::December),
        _ => Err(DecodeError::other(INVALID_MONTH)),
    }
}

/// The packed form of a `Date`.
pub open spec fn date_value(d: Date) -> int {
    date_merged(date_year(d) as int, month_number(date_month(d)) as nat, date_day(d) as nat)
}

/// The packed form of a `Time`.
pub open spec fn time_value(t: Time) -> nat {
    time_merged(
        time_nanosecond(t) as nat,
        time_second(t) as nat,
        time_minute(t) as nat,
        time_hour(t) as nat,
    )
}

/// Returns the encoded length of a `Date`.
pub fn encoded_date_len(date: &Date) -> (r: usize)
    ensures
        r == leb128(zigzag(date_value(*date))).len(),
{
    encoded_date_fields_len(date.year(), month_to_u8(date.month()), date.day())
}

/// Encodes a `Date` and writes it to the buffer.
pub fn encode_date_to(date: &Date, buf: &mut [u8]) -> (r: Result<usize, EncodeError>)
    ensures
        encoded_into(leb128(zigzag(date_value(*date))), old(buf)@, final(buf)@, r),
{
    encode_date_fields_to(date.year(), month_to_u8(date.month()), date.day(), buf)
}

/// Decodes a `Date` from the front of the buffer; a month or day out of range, or fields that
/// name no day of the calendar, are an error.
pub fn decode_date(buf: &[u8]) -> (r: Result<(usize, Date), DecodeError>)
    ensures
        match decode_zigzag_leb128(buf@, 32) {
            Ok((n, m)) => {
                let year = m / 512;
                let month = (m % 512) / 32;
                let day = (m % 512) % 32;
                if !(1 <= month <= 12) {
                    r == Err::<(usize, Date), DecodeError>(DecodeError::Other(INVALID_MONTH))
                } else if calendar_date_valid(year as i32, month as u8, day as u8) {
                    r matches Ok((k, d)) && k == n && date_year(d) == year && month_number(
                        date_month(d),
                    ) == month && date_day(d) == day
                } else {
                    r == Err::<(usize, Date), DecodeError>(DecodeError::Other(INVALID_DATE))
                }
            },
            Err(e) => r == Err::<(usize, Date), DecodeError>(e),
        },
{
    match decode_date_fields(buf) {
        Ok((n, year, month, day)) => {
            proof {
                lemma_date_round_trip(year as int, month as nat, day as nat);
            }
            let month = match u8_to_month(month) {
                Ok(month) => month,
                Err(e) => return Err(e),
            };
            match Date::from_calendar_date(year, month, day) {
                Ok(date) => Ok((n, date)),
                Err(_) => Err(DecodeError::other(INVALID_DATE)),
            }
        },
        Err(e) => Err(e),
    }
}

/// Returns the encoded length of a `Time`.
pub fn encoded_time_len(time: &Time) -> (r: usize)
    ensures
        r == leb128(time_value(*time)).len(),
{
    encoded_time_fields_len(time.nanosecond(), time.second(), time.minute(), time.hour())
}

/// Encodes a `Time` and writes it to the buffer.
pub fn encode_time_to(time: &Time, buf: &mut [u8]) -> (r: Result<usize, EncodeError>)
    ensures
        encoded_into(leb128(time_value(*time)), old(buf)@, final(buf)@, r),
{
    encode_time_fields_to(time.nanosecond(), time.second(), time.minute(), time.hour(), buf)
}

/// Decodes a `Time` from the front of the buffer; fields out of range are an error.
pub fn decode_time(buf: &[u8]) -> (r: Result<(usize, Time), DecodeError>)
    ensures
        match decode_leb128(buf@, 64) {
            Ok((n, m)) => if m >= 0x1_0000_0000_0000 {
                r == Err::<(usize, Time), DecodeError>(DecodeError::Overflow)
            } else {
                let (nano, sec, min, hour) = time_fields(m);
                if hms_nano_in_range(hour as u8, min as u8, sec as u8, nano as u32) {
                    r matches Ok((k, t)) && k == n && time_hour(t) == hour && time_minute(t)
                        == min && time_second(t) == sec && time_nanosecond(t) == nano
                } else {
                    r == Err::<(usize, Time), DecodeError>(DecodeError::Other(INVALID_TIME))
                }
            },
            Err(e) => r == Err::<(usize, Time), DecodeError>(e),
        },
{
    match decode_time_fields(buf) {
        Ok((n, nano, second, minute, hour)) => match Time::from_hms_nano(hour, minute, second, nano) {
            Ok(time) => Ok((n, time)),
            Err(_) => Err(DecodeError::other(INVALID_TIME)),
        },
        Err(e) => Err(e),
    }
}

/// The date part of a date and time, as `PrimitiveDateTime::date` reports it.
pub uninterp spec fn datetime_date(dt: PrimitiveDateTime) -> Date;

/// The time part of a date and time, as `PrimitiveDateTime::time` reports it.
pub uninterp spec fn datetime_time(dt: PrimitiveDateTime) -> Time;

/// Relies on `PrimitiveDateTime::new`: a date and time made of exactly these parts.
pub assume_specification[ time::PrimitiveDateTime::new ](date: Date, time: Time) -> (r: PrimitiveDateTime)
    ensures
        datetime_date(r) == date,
        datetime_time(r) == time,
;

/// Relies on `PrimitiveDateTime::date`.
pub assume_specification[ time::PrimitiveDateTime::date ](dt: PrimitiveDateTime) -> (r: Date)
    ensures
        r == datetime_date(dt),
;

/// Relies on `PrimitiveDateTime::time`.
pub assume_specification[ time::PrimitiveDateTime::time ](dt: PrimitiveDateTime) -> (r: Time)
    ensures
        r == datetime_time(dt),
;

/// The packed form of a `PrimitiveDateTime`.
pub open spec fn datetime_value(dt: PrimitiveDateTime) -> int {
    let d = datetime_date(dt);
    let t = datetime_time(dt);
    date_time_merged(
        date_year(d) as int,
        month_number(date_month(d)) as nat,
        date_day(d) as nat,
        time_hour(t) as nat,
        time_minute(t) as nat,
        time_second(t) as nat,
        time_nanosecond(t) as nat,
    )
}

/// Returns the encoded length of a `PrimitiveDateTime`.
pub fn encoded_datetime_len(dt: &PrimitiveDateTime) -> (r: usize)
    ensures
        r == leb128(zigzag(datetime_value(*dt))).len(),
{
    let date = dt.date();
    let time = dt.time();
    encoded_datetime_fields_len(
        date.year(),
        month_to_u8(date.month()),
        date.day(),
        time.hour(),
        time.minute(),
        time.second(),
        time.nanosecond(),
    )
}

/// Encodes a `PrimitiveDateTime` and writes it to the buffer.
pub fn encode_datetime_to(dt: &PrimitiveDateTime, buf: &mut [u8]) -> (r: Result<
    usize,
    EncodeError,
>)
    ensures
        encoded_into(leb128(zigzag(datetime_value(*dt))), old(buf)@, final(buf)@, r),
{
    let date = dt.date();
    let time = dt.time();
    encode_datetime_fields_to(
        date.year(),
        month_to_u8(date.month()),
        date.day(),
        time.hour(),
        time.minute(),
        time.second(),
        time.nanosecond(),
        buf,
    )
}

/// The fields of a date and time: year, month, day, hour, minute, second and nanosecond.
pub type DateTimeFields = (i32, nat, nat, nat, nat, nat, nat);

/// The fields of a date and its time of day.
pub open spec fn fields_of(d: Date, t: Time) -> DateTimeFields {
    (
        date_year(d),
        month_number(date_month(d)) as nat,
        date_day(d) as nat,
        time_hour(t) as nat,
        time_minute(t) as nat,
        time_second(t) as nat,
        time_nanosecond(t) as nat,
    )
}

/// What decoding a date and time from the front of `buf` gives: the bytes read and its
/// fields, or the error. A year beyond 32 bits is an overflow; a month out of range, a date
/// that is no day of the calendar, and a time of day out of range are errors, checked in that
/// order.
pub open spec fn decode_datetime_spec(buf: Seq<u8>) -> Result<(nat, DateTimeFields), DecodeError> {
    match decode_zigzag_leb128(buf, 128) {
        Ok((n, m)) => if !fits_year(m) {
            Err(DecodeError::Overflow)
        } else {
            let year = (m / 0x200_0000_0000_0000) as i32;
            let month = (m % 0x200_0000_0000_0000) / 0x20_0000_0000_0000;
            let day = ((m % 0x200_0000_0000_0000) % 0x20_0000_0000_0000) / 0x1_0000_0000_0000;
            let (nano, sec, min, hour) = time_fields(
                ((m % 0x200_0000_0000_0000) % 0x1_0000_0000_0000) as nat,
            );
            if !(1 <= month <= 12) {
                Err(DecodeError::Other(INVALID_MONTH))
            } else if !calendar_date_valid(year, month as u8, day as u8) {
                Err(DecodeError::Other(INVALID_DATE))
            } else if !hms_nano_in_range(hour as u8, min as u8, sec as u8, nano as u32) {
                Err(DecodeError::Other(INVALID_TIME))
            } else {
                Ok((n, (year, month as nat, day as nat, hour, min, sec, nano)))
            }
        },
        Err(e) => Err(e),
    }
}

/// Decodes the date and the time of day of a date and time from the front of the buffer.
fn decode_date_and_time(buf: &[u8]) -> (r: Result<(usize, Date, Time), DecodeError>)
    ensures
        match decode_datetime_spec(buf@) {
            Ok((n, f)) => r matches Ok((k, d, t)) && k == n && fields_of(d, t) == f,
            Err(e) => r == Err::<(usize, Date, Time), DecodeError>(e),
        },
{
    match decode_datetime_fields(buf) {
        Ok((n, year, month, day, hour, minute, second, nano)) => {
            let month = match u8_to_month(month) {
                Ok(month) => month,
                Err(e) => return Err(e),
            };
            let date = match Date::from_calendar_date(year, month, day) {
                Ok(date) => date,
                Err(_) => return Err(DecodeError::other(INVALID_DATE)),
            };
            let time = match Time::from_hms_nano(hour, minute, second, nano) {
                Ok(time) => time,
                Err(_) => return Err(DecodeError::other(INVALID_TIME)),
            };
            Ok((n, date, time))
        },
        Err(e) => Err(e),
    }
}

/// Decodes a `PrimitiveDateTime` from the front of the buffer; a month out of range, a date
/// that is no day of the calendar, or a time of day out of range, is an error.
pub fn decode_datetime(buf: &[u8]) -> (r: Result<(usize, PrimitiveDateTime), DecodeError>)
    ensures
        match decode_datetime_spec(buf@) {
            Ok((n, f)) => r matches Ok((k, dt)) && k == n && fields_of(
                datetime_date(dt),
                datetime_time(dt),
            ) == f,
            Err(e) => r == Err::<(usize, PrimitiveDateTime), DecodeError>(e),
        },
{
    match decode_date_and_time(buf) {
        Ok((n, date, time)) => Ok((n, PrimitiveDateTime::new(date, time))),
        Err(e) => Err(e),
    }
}

/// The date part of a UTC date and time, as `UtcDateTime::date` reports it.
pub uninterp spec fn utc_date(u: UtcDateTime) -> Date;

/// The time part of a UTC date and time, as `UtcDateTime::time` reports it.
pub uninterp spec fn utc_time(u: UtcDateTime) -> Time;

/// Relies on `UtcDateTime::new`: a UTC date and time made of exactly these parts.
pub assume_specification[ time::UtcDateTime::new ](date: Date, time: Time) -> (r: UtcDateTime)
    ensures
        utc_date(r) == date,
        utc_time(r) == time,
;

/// Relies on `UtcDateTime::date`.
pub assume_specification[ time::UtcDateTime::date ](u: UtcDateTime) -> (r: Date)
    ensures
        r == utc_date(u),
;

/// Relies on `UtcDateTime::time`.
pub assume_specification[ time::UtcDateTime::time ](u: UtcDateTime) -> (r: Time)
    ensures
        r == utc_time(u),
;

/// The packed form of a `UtcDateTime`: that of its date and time of day.
pub open spec fn utc_value(u: UtcDateTime) -> int {
    let f = fields_of(utc_date(u), utc_time(u));
    date_time_merged(f.0 as int, f.1, f.2, f.3, f.4, f.5, f.6)
}

/// Returns the encoded length of a `UtcDateTime`.
pub fn encoded_utc_len(dt: &UtcDateTime) -> (r: usize)
    ensures
        r == leb128(zigzag(utc_value(*dt))).len(),
{
    encoded_datetime_len(&PrimitiveDateTime::new(dt.date(), dt.time()))
}

/// Encodes a `UtcDateTime` and writes it to the buffer.
pub fn encode_utc_to(dt: &UtcDateTime, buf: &mut [u8]) -> (r: Result<usize, EncodeError>)
    ensures
        encoded_into(leb128(zigzag(utc_value(*dt))), old(buf)@, final(buf)@, r),
{
    encode_datetime_to(&PrimitiveDateTime::new(dt.date(), dt.time()), buf)
}

/// Decodes a `UtcDateTime` from the front of the buffer, as `decode_datetime` does.
pub fn decode_utc(buf: &[u8]) -> (r: Result<(usize, UtcDateTime), DecodeError>)
    ensures
        match decode_datetime_spec(buf@) {
            Ok((n, f)) => r matches Ok((k, u)) && k == n && fields_of(utc_date(u), utc_time(u))
                == f,
            Err(e) => r == Err::<(usize, UtcDateTime), DecodeError>(e),
        },
{
    match decode_date_and_time(buf) {
        Ok((n, date, time)) => Ok((n, UtcDateTime::new(date, time))),
        Err(e) => Err(e),
    }
}

/// The whole seconds of a duration, as `Duration::whole_seconds` reports them.
pub uninterp spec fn duration_seconds(d: time::Duration) -> i64;

/// The nanoseconds past the whole seconds, as `Duration::subsec_nanoseconds` reports them.
pub uninterp spec fn duration_nanoseconds(d: time::Duration) -> i32;

/// Relies on `Duration::whole_seconds`.
pub assume_specification[ time::Duration::whole_seconds ](d: time::Duration) -> (r: i64)
    ensures
        r == duration_seconds(d),
;

/// Relies on `Duration::subsec_nanoseconds`: within one second either way.
pub assume_specification[ time::Duration::subsec_nanoseconds ](d: time::Duration) -> (r: i32)
    ensures
        r == duration_nanoseconds(d),
        -1_000_000_000 < r < 1_000_000_000,
;

/// `a / b` rounded toward zero, as Rust's integer division does.
pub open spec fn div_toward_zero(a: int, b: int) -> int {
    if a >= 0 {
        a / b
    } else {
        -((-a) / b)
    }
}

/// The seconds that `Duration::new(seconds, nanoseconds)` holds: the whole seconds of the
/// nanoseconds carried in, then one second moved into the nanoseconds where their signs
/// differ.
pub open spec fn new_duration_seconds(seconds: int, nanoseconds: int) -> int {
    let s = seconds + div_toward_zero(nanoseconds, 1_000_000_000);
    let n = nanoseconds - div_toward_zero(nanoseconds, 1_000_000_000) * 1_000_000_000;
    if s > 0 && n < 0 {
        s - 1
    } else if s < 0 && n > 0 {
        s + 1
    } else {
        s
    }
}

/// The nanoseconds that `Duration::new(seconds, nanoseconds)` holds.
pub open spec fn new_duration_nanoseconds(seconds: int, nanoseconds: int) -> int {
    let s = seconds + div_toward_zero(nanoseconds, 1_000_000_000);
    let n = nanoseconds - div_toward_zero(nanoseconds, 1_000_000_000) * 1_000_000_000;
    if s > 0 && n < 0 {
        n + 1_000_000_000
    } else if s < 0 && n > 0 {
        n - 1_000_000_000
    } else {
        n
    }
}

/// Relies on `Duration::new`: the nanoseconds carry into the seconds, which must not overflow
/// (the call panics then), and the two parts are made to agree in sign.
pub assume_specification[ time::Duration::new ](seconds: i64, nanoseconds: i32) -> (r: time::Duration)
    requires
        i64::MIN <= seconds + div_toward_zero(nanoseconds as int, 1_000_000_000) <= i64::MAX,
    ensures
        duration_seconds(r) == new_duration_seconds(seconds as int, nanoseconds as int),
        duration_nanoseconds(r) == new_duration_nanoseconds(seconds as int, nanoseconds as int),
;

/// The message of the error for decoded seconds that overflow once the nanoseconds carry.
pub const DURATION_OVERFLOW: &'static str = "duration seconds overflow";

/// The packed form of a duration's seconds and nanoseconds.
pub open spec fn duration_value(d: time::Duration) -> nat {
    zigzag(duration_nanoseconds(d) as int) + zigzag(duration_seconds(d) as int) * 0x1_0000_0000
}

/// Returns the encoded length of a `Duration`.
pub fn encoded_duration_len(duration: &time::Duration) -> (r: usize)
    ensures
        r == leb128(duration_value(*duration)).len(),
{
    encoded_secs_and_subsec_nanos_len(duration.whole_seconds(), duration.subsec_nanoseconds())
}

/// Encodes a `Duration` and returns it in a buffer.
pub fn encode_duration(duration: &time::Duration) -> (r: Buffer<20>)
    ensures
        r@ == leb128(duration_value(*duration)),
{
    encode_secs_and_subsec_nanos(duration.whole_seconds(), duration.subsec_nanoseconds())
}

/// Encodes a `Duration` and writes it to the buffer.
pub fn encode_duration_to(duration: &time::Duration, buf: &mut [u8]) -> (r: Result<
    usize,
    EncodeError,
>)
    ensures
        encoded_into(leb128(duration_value(*duration)), old(buf)@, final(buf)@, r),
{
    encode_secs_and_subsec_nanos_to(duration.whole_seconds(), duration.subsec_nanoseconds(), buf)
}

/// Decodes a `Duration` from the front of the buffer: the seconds and nanoseconds packed in
/// it, given to `Duration::new`; seconds that overflow as the nanoseconds carry are an error.
pub fn decode_duration(buf: &[u8]) -> (r: Result<(usize, time::Duration), DecodeError>)
    ensures
        match decode_leb128(buf@, 128) {
            Ok((n, m)) => if m / 0x1_0000_0000 > u64::MAX {
                r == Err::<(usize, time::Duration), DecodeError>(DecodeError::Overflow)
            } else {
                let secs = unzigzag(m / 0x1_0000_0000);
                let nanos = unzigzag(m % 0x1_0000_0000);
                if i64::MIN <= secs + div_toward_zero(nanos, 1_000_000_000) <= i64::MAX {
                    r matches Ok((k, d)) && k == n && duration_seconds(d) == new_duration_seconds(
                        secs,
                        nanos,
                    ) && duration_nanoseconds(d) == new_duration_nanoseconds(secs, nanos)
                } else {
                    r == Err::<(usize, time::Duration), DecodeError>(
                        DecodeError::Other(DURATION_OVERFLOW),
                    )
                }
            },
            Err(e) => r == Err::<(usize, time::Duration), DecodeError>(e),
        },
{
    match decode_secs_and_subsec_nanos(buf) {
        Ok((n, secs, nanos)) => {
            let carry = (nanos / 1_000_000_000) as i64;
            if (carry > 0 && secs > i64::MAX - carry) || (carry < 0 && secs < i64::MIN - carry) {
                return Err(DecodeError::other(DURATION_OVERFLOW));
            }
            Ok((n, time::Duration::new(secs, nanos)))
        },
        Err(e) => Err(e),
    }
}

/// Encodes a `Date` and returns it in a buffer.
pub fn encode_date(date: &Date) -> (r: Buffer<6>)
    ensures
        r@ == leb128(zigzag(date_value(*date))),
{
    encode_date_fields(date.year(), month_to_u8(date.month()), date.day())
}

/// Encodes a `Time` and returns it in a buffer.
pub fn encode_time(time: &Time) -> (r: Buffer<11>)
    ensures
        r@ == leb128(time_value(*time)),
{
    encode_time_fields(time.nanosecond(), time.second(), time.minute(), time.hour())
}

/// Encodes a `PrimitiveDateTime` and returns it in a buffer.
pub fn encode_datetime(dt: &PrimitiveDateTime) -> (r: Buffer<20>)
    ensures
        r@ == leb128(zigzag(datetime_value(*dt))),
{
    let date = dt.date();
    let time = dt.time();
    encode_datetime_fields(
        date.year(),
        month_to_u8(date.month()),
        date.day(),
        time.hour(),
        time.minute(),
        time.second(),
        time.nanosecond(),
    )
}

/// Encodes a `UtcDateTime` and returns it in a buffer.
pub fn encode_utc(dt: &UtcDateTime) -> (r: Buffer<20>)
    ensures
        r@ == leb128(zigzag(utc_value(*dt))),
{
    encode_datetime(&PrimitiveDateTime::new(dt.date(), dt.time()))
}

} // verus!
