use vstd::prelude::*;

use chrono::{Datelike, NaiveDate, NaiveDateTime, NaiveTime, TimeDelta, Timelike};

use crate::error::{DecodeError, EncodeError};
use crate::leb128::{decode_leb128, encoded_into, leb128};
use crate::primitives::decode_zigzag_leb128;
use crate::time_utils::{
    date_merged, date_time_merged, decode_date, decode_datetime, decode_time, encode_date_to,
    encode_datetime_to, encode_time_to, encoded_date_len, encoded_datetime_len, encoded_time_len,
    fits_year, time_fields, time_merged, decode_secs_and_subsec_nanos,
    encode_secs_and_subsec_nanos, encode_secs_and_subsec_nanos_to,
    encoded_secs_and_subsec_nanos_len,
};
use crate::utils::{unzigzag, zigzag, Buffer};
use crate::time_types::div_toward_zero;

verus! {

#[verifier::external_type_specification]
#[verifier::external_body]
pub struct ExNaiveDate(NaiveDate);

#[verifier::external_type_specification]
#[verifier::external_body]
pub struct ExNaiveTime(NaiveTime);

#[verifier::external_type_specification]
#[verifier::external_body]
pub struct ExNaiveDateTime(NaiveDateTime);

#[verifier::external_type_specification]
#[verifier::external_body]
pub struct ExTimeDelta(TimeDelta);

/// The earliest year a `NaiveDate` can hold.
pub const MIN_YEAR: i32 = -262143;

/// The latest year a `NaiveDate` can hold.
pub const MAX_YEAR: i32 = 262142;

/// Whether `year` is a leap year of the proleptic Gregorian calendar.
pub open spec fn is_leap_year(year: int) -> bool {
    year % 4 == 0 && (year % 100 != 0 || year % 400 == 0)
}

/// The number of days of `month` (1 to 12) in `year`.
pub open spec fn days_in_month(year: int, month: int) -> int {
    if month == 2 {
        if is_leap_year(year) {
            29
        } else {
            28
        }
    } else if month == 4 || month == 6 || month == 9 || month == 11 {
        30
    } else {
        31
    }
}

/// The year of a date, as `Datelike::year` reports it.
pub uninterp spec fn date_year(d: NaiveDate) -> i32;

/// The month of a date, from 1, as `Datelike::month` reports it.
pub uninterp spec fn date_month(d: NaiveDate) -> u32;

/// The day of the month, from 1, as `Datelike::day` reports it.
pub uninterp spec fn date_day(d: NaiveDate) -> u32;

/// Whether `NaiveDate::from_ymd_opt` makes a date of these fields: a day of the proleptic
/// Gregorian calendar within chrono's years.
pub open spec fn ymd_valid(year: i32, month: u32, day: u32) -> bool {
    &&& MIN_YEAR <= year <= MAX_YEAR
    &&& 1 <= month <= 12
    &&& 1 <= day <= days_in_month(year as int, month as int)
}

/// The hour of a time, as `Timelike::hour` reports it.
pub uninterp spec fn time_hour(t: NaiveTime) -> u32;

/// The minute of a time, as `Timelike::minute` reports it.
pub uninterp spec fn time_minute(t: NaiveTime) -> u32;

/// The second of a time, as `Timelike::second` reports it.
pub uninterp spec fn time_second(t: NaiveTime) -> u32;

/// The nanosecond of a time, as `Timelike::nanosecond` reports it.
pub uninterp spec fn time_nanosecond(t: NaiveTime) -> u32;

/// Relies on `Datelike::year` of `NaiveDate`: a year within chrono's range.
#[verifier::external_body]
fn year_of(d: &NaiveDate) -> (r: i32)
    ensures
        r == date_year(*d),
        MIN_YEAR <= r <= MAX_YEAR,
{
    d.year()
}

/// Relies on `Datelike::month` of `NaiveDate`: a month from 1 to 12.
#[verifier::external_body]
fn month_of(d: &NaiveDate) -> (r: u32)
    ensures
        r == date_month(*d),
        1 <= r <= 12,
{
    d.month()
}

/// Relies on `Datelike::day` of `NaiveDate`: a day from 1 to 31.
#[verifier::external_body]
fn day_of(d: &NaiveDate) -> (r: u32)
    ensures
        r == date_day(*d),
        1 <= r <= 31,
{
    d.day()
}

/// Relies on `NaiveDate::from_ymd_opt`: a date of exactly these fields, when they name a day
/// of the calendar within chrono's range.
pub assume_specification[ chrono::NaiveDate::from_ymd_opt ](year: i32, month: u32, day: u32) -> (r:
    Option<NaiveDate>)
    ensures
        r is Some <==> ymd_valid(year, month, day),
        r matches Some(d) ==> date_year(d) == year && date_month(d) == month && date_day(d)
            == day,
;

/// Relies on `Timelike::hour` of `NaiveTime`: an hour below 24.
#[verifier::external_body]
fn hour_of(t: &NaiveTime) -> (r: u32)
    ensures
        r == time_hour(*t),
        r < 24,
{
    t.hour()
}

/// Relies on `Timelike::minute` of `NaiveTime`: a minute below 60.
#[verifier::external_body]
fn minute_of(t: &NaiveTime) -> (r: u32)
    ensures
        r == time_minute(*t),
        r < 60,
{
    t.minute()
}

/// Relies on `Timelike::second` of `NaiveTime`: a second below 60.
#[verifier::external_body]
fn second_of(t: &NaiveTime) -> (r: u32)
    ensures
        r == time_second(*t),
        r < 60,
{
    t.second()
}

/// Relies on `Timelike::nanosecond` of `NaiveTime`: below two seconds' worth, the second one
/// for a leap second.
#[verifier::external_body]
fn nanosecond_of(t: &NaiveTime) -> (r: u32)
    ensures
        r == time_nanosecond(*t),
        r < 2_000_000_000,
{
    t.nanosecond()
}

/// Whether `NaiveTime::from_hms_nano_opt` accepts these fields: an hour, minute and second
/// in range, and nanoseconds past one second only in a leap second (second 59).
pub open spec fn hms_nano_valid(hour: u32, min: u32, sec: u32, nano: u32) -> bool {
    &&& hour < 24
    &&& min < 60
    &&& sec < 60
    &&& nano < 2_000_000_000
    &&& nano >= 1_000_000_000 ==> sec == 59
}

/// Relies on `NaiveTime::from_hms_nano_opt`: a time of exactly these fields when they are in
/// range.
pub assume_specification[ chrono::NaiveTime::from_hms_nano_opt ](
    hour: u32,
    min: u32,
    sec: u32,
    nano: u32,
) -> (r: Option<NaiveTime>)
    ensures
        r is Some <==> hms_nano_valid(hour, min, sec, nano),
        r matches Some(t) ==> time_hour(t) == hour && time_minute(t) == min && time_second(t)
            == sec && time_nanosecond(t) == nano,
;

/// The message of the error for a decoded date that is no day of the calendar.
pub const INVALID_DATE: &'static str = "invalid date";

/// The message of the error for a decoded time of day that is out of range.
pub const INVALID_TIME: &'static str = "invalid hour, minute, second and/or nanosecond";

/// The packed form of a `NaiveDate`.
pub open spec fn naive_date_merged(d: NaiveDate) -> int {
    date_merged(date_year(d) as int, date_month(d) as nat, date_day(d) as nat)
}

/// The packed form of a `NaiveTime`.
pub open spec fn naive_time_merged(t: NaiveTime) -> nat {
    time_merged(
        time_nanosecond(t) as nat,
        time_second(t) as nat,
        time_minute(t) as nat,
        time_hour(t) as nat,
    )
}

/// Returns the encoded length of a date.
pub fn encoded_naive_date_len(date: &NaiveDate) -> (r: usize)
    ensures
        r == leb128(zigzag(naive_date_merged(*date))).len(),
{
    encoded_date_len(year_of(date), month_of(date) as u8, day_of(date) as u8)
}

/// Encodes a date and writes it to the buffer.
pub fn encode_naive_date_to(date: &NaiveDate, buf: &mut [u8]) -> (r: Result<usize, EncodeError>)
    ensures
        encoded_into(leb128(zigzag(naive_date_merged(*date))), old(buf)@, final(buf)@, r),
{
    encode_date_to(year_of(date), month_of(date) as u8, day_of(date) as u8, buf)
}

/// Decodes a date from the front of the buffer; fields that name no day of the calendar are
/// an error.
pub fn decode_naive_date(buf: &[u8]) -> (r: Result<(usize, NaiveDate), DecodeError>)
    ensures
        match decode_zigzag_leb128(buf@, 32) {
            Ok((n, m)) => {
                let year = m / 512;
                let month = (m % 512) / 32;
                let day = (m % 512) % 32;
                if ymd_valid(year as i32, month as u32, day as u32) {
                    r matches Ok((k, d)) && k == n && date_year(d) == year && date_month(d)
                        == month && date_day(d) == day
                } else {
                    r == Err::<(usize, NaiveDate), DecodeError>(DecodeError::Other(INVALID_DATE))
                }
            },
            Err(e) => r == Err::<(usize, NaiveDate), DecodeError>(e),
        },
{
    match decode_date(buf) {
        Ok((n, year, month, day)) => {
            proof {
                crate::time_utils::lemma_date_round_trip(year as int, month as nat, day as nat);
            }
            match NaiveDate::from_ymd_opt(year, month as u32, day as u32) {
                Some(d) => Ok((n, d)),
                None => Err(DecodeError::other(INVALID_DATE)),
            }
        },
        Err(e) => Err(e),
    }
}

/// Returns the encoded length of a time of day.
pub fn encoded_naive_time_len(time: &NaiveTime) -> (r: usize)
    ensures
        r == leb128(naive_time_merged(*time)).len(),
{
    encoded_time_len(
        nanosecond_of(time),
        second_of(time) as u8,
        minute_of(time) as u8,
        hour_of(time) as u8,
    )
}

/// Encodes a time of day and writes it to the buffer.
pub fn encode_naive_time_to(time: &NaiveTime, buf: &mut [u8]) -> (r: Result<usize, EncodeError>)
    ensures
        encoded_into(leb128(naive_time_merged(*time)), old(buf)@, final(buf)@, r),
{
    encode_time_to(
        nanosecond_of(time),
        second_of(time) as u8,
        minute_of(time) as u8,
        hour_of(time) as u8,
        buf,
    )
}

/// Decodes a time of day from the front of the buffer; a value beyond the 48 bits of the
/// layout is an overflow, and fields out of range are an error.
pub fn decode_naive_time(buf: &[u8]) -> (r: Result<(usize, NaiveTime), DecodeError>)
    ensures
        match decode_leb128(buf@, 64) {
            Ok((n, m)) => if m >= 0x1_0000_0000_0000 {
                r == Err::<(usize, NaiveTime), DecodeError>(DecodeError::Overflow)
            } else {
                let (nano, sec, min, hour) = time_fields(m);
                if hms_nano_valid(hour as u32, min as u32, sec as u32, nano as u32) {
                    r matches Ok((k, t)) && k == n && time_hour(t) == hour && time_minute(t)
                        == min && time_second(t) == sec && time_nanosecond(t) == nano
                } else {
                    r == Err::<(usize, NaiveTime), DecodeError>(DecodeError::Other(INVALID_TIME))
                }
            },
            Err(e) => r == Err::<(usize, NaiveTime), DecodeError>(e),
        },
{
    match decode_time(buf) {
        Ok((n, nano, second, minute, hour)) => {
            match NaiveTime::from_hms_nano_opt(hour as u32, minute as u32, second as u32, nano) {
                Some(t) => Ok((n, t)),
                None => Err(DecodeError::other(INVALID_TIME)),
            }
        },
        Err(e) => Err(e),
    }
}

/// The date part of a date and time, as `NaiveDateTime::date` reports it.
pub uninterp spec fn datetime_date(dt: NaiveDateTime) -> NaiveDate;

/// The time part of a date and time, as `NaiveDateTime::time` reports it.
pub uninterp spec fn datetime_time(dt: NaiveDateTime) -> NaiveTime;

/// Relies on `NaiveDateTime::new`: a date and time made of exactly these parts.
pub assume_specification[ chrono::NaiveDateTime::new ](date: NaiveDate, time: NaiveTime) -> (r: NaiveDateTime)
    ensures
        datetime_date(r) == date,
        datetime_time(r) == time,
;

/// Relies on `NaiveDateTime::date`.
pub assume_specification[ chrono::NaiveDateTime::date ](dt: &NaiveDateTime) -> (r: NaiveDate)
    ensures
        r == datetime_date(*dt),
;

/// Relies on `NaiveDateTime::time`.
pub assume_specification[ chrono::NaiveDateTime::time ](dt: &NaiveDateTime) -> (r: NaiveTime)
    ensures
        r == datetime_time(*dt),
;

/// The packed form of a `NaiveDateTime`.
pub open spec fn naive_datetime_merged(dt: NaiveDateTime) -> int {
    let d = datetime_date(dt);
    let t = datetime_time(dt);
    date_time_merged(
        date_year(d) as int,
        date_month(d) as nat,
        date_day(d) as nat,
        time_hour(t) as nat,
        time_minute(t) as nat,
        time_second(t) as nat,
        time_nanosecond(t) as nat,
    )
}

/// Returns the encoded length of a date and time.
pub fn encoded_naive_datetime_len(dt: &NaiveDateTime) -> (r: usize)
    ensures
        r == leb128(zigzag(naive_datetime_merged(*dt))).len(),
{
    let date = dt.date();
    let time = dt.time();
    encoded_datetime_len(
        year_of(&date),
        month_of(&date) as u8,
        day_of(&date) as u8,
        hour_of(&time) as u8,
        minute_of(&time) as u8,
        second_of(&time) as u8,
        nanosecond_of(&time),
    )
}

/// Encodes a date and time and writes it to the buffer.
pub fn encode_naive_datetime_to(dt: &NaiveDateTime, buf: &mut [u8]) -> (r: Result<
    usize,
    EncodeError,
>)
    ensures
        encoded_into(leb128(zigzag(naive_datetime_merged(*dt))), old(buf)@, final(buf)@, r),
{
    let date = dt.date();
    let time = dt.time();
    encode_datetime_to(
        year_of(&date),
        month_of(&date) as u8,
        day_of(&date) as u8,
        hour_of(&time) as u8,
        minute_of(&time) as u8,
        second_of(&time) as u8,
        nanosecond_of(&time),
        buf,
    )
}

/// Decodes a date and time from the front of the buffer; a year beyond 32 bits is an
/// overflow, and a date that is no day of the calendar, or a time of day out of range, is an
/// error.
pub fn decode_naive_datetime(buf: &[u8]) -> (r: Result<(usize, NaiveDateTime), DecodeError>)
    ensures
        match decode_zigzag_leb128(buf@, 128) {
            Ok((n, m)) => if !fits_year(m) {
                r == Err::<(usize, NaiveDateTime), DecodeError>(DecodeError::Overflow)
            } else {
                let year = (m / 0x200_0000_0000_0000) as i32;
                let month = (m % 0x200_0000_0000_0000) / 0x20_0000_0000_0000;
                let day = ((m % 0x200_0000_0000_0000) % 0x20_0000_0000_0000) / 0x1_0000_0000_0000;
                let (nano, sec, min, hour) = time_fields(
                    ((m % 0x200_0000_0000_0000) % 0x1_0000_0000_0000) as nat,
                );
                if !ymd_valid(year, month as u32, day as u32) {
                    r == Err::<(usize, NaiveDateTime), DecodeError>(
                        DecodeError::Other(INVALID_DATE),
                    )
                } else if !hms_nano_valid(hour as u32, min as u32, sec as u32, nano as u32) {
                    r == Err::<(usize, NaiveDateTime), DecodeError>(
                        DecodeError::Other(INVALID_TIME),
                    )
                } else {
                    r matches Ok((k, dt)) && k == n && date_year(datetime_date(dt)) == year
                        && date_month(datetime_date(dt)) == month && date_day(datetime_date(dt))
                        == day && time_hour(datetime_time(dt)) == hour && time_minute(
                        datetime_time(dt),
                    ) == min && time_second(datetime_time(dt)) == sec && time_nanosecond(
                        datetime_time(dt),
                    ) == nano
                }
            },
            Err(e) => r == Err::<(usize, NaiveDateTime), DecodeError>(e),
        },
{
    match decode_datetime(buf) {
        Ok((n, year, month, day, hour, minute, second, nano)) => {
            let date = match NaiveDate::from_ymd_opt(year, month as u32, day as u32) {
                Some(date) => date,
                None => return Err(DecodeError::other(INVALID_DATE)),
            };
            let time = match NaiveTime::from_hms_nano_opt(
                hour as u32,
                minute as u32,
                second as u32,
                nano,
            ) {
                Some(time) => time,
                None => return Err(DecodeError::other(INVALID_TIME)),
            };
            Ok((n, NaiveDateTime::new(date, time)))
        },
        Err(e) => Err(e),
    }
}

/// The whole seconds of a time delta, rounded toward zero, as `TimeDelta::num_seconds`
/// reports them.
pub uninterp spec fn delta_seconds(d: TimeDelta) -> i64;

/// The nanoseconds past the whole seconds, as `TimeDelta::subsec_nanos` reports them.
pub uninterp spec fn delta_nanos(d: TimeDelta) -> i32;

/// The length of a time delta in nanoseconds.
pub open spec fn delta_total(d: TimeDelta) -> int {
    delta_seconds(d) * 1_000_000_000 + delta_nanos(d)
}

/// Whether a time delta of `total` nanoseconds is within chrono's bounds of `i64::MAX`
/// milliseconds either way.
pub open spec fn delta_in_bounds(total: int) -> bool {
    -(i64::MAX as int) * 1_000_000 <= total <= (i64::MAX as int) * 1_000_000
}

/// Whether `TimeDelta::try_seconds` accepts `seconds`: at most `i64::MAX / 1_000` either
/// way.
pub open spec fn seconds_in_bounds(seconds: int) -> bool {
    -(i64::MAX as int / 1_000) <= seconds <= i64::MAX as int / 1_000
}

/// Relies on `TimeDelta::num_seconds`.
pub assume_specification[ chrono::TimeDelta::num_seconds ](d: &TimeDelta) -> (r: i64)
    ensures
        r == delta_seconds(*d),
;

/// Relies on `TimeDelta::subsec_nanos`: below one second either way, and such that
/// `subsec_nanos() + num_seconds() * 1_000_000_000` is the whole delta.
pub assume_specification[ chrono::TimeDelta::subsec_nanos ](d: &TimeDelta) -> (r: i32)
    ensures
        r == delta_nanos(*d),
        -1_000_000_000 < r < 1_000_000_000,
;

/// Relies on `TimeDelta::try_seconds`: a delta of exactly that many seconds, when within
/// bounds.
pub assume_specification[ chrono::TimeDelta::try_seconds ](seconds: i64) -> (r: Option<TimeDelta>)
    ensures
        r is Some <==> seconds_in_bounds(seconds as int),
        r matches Some(d) ==> delta_seconds(d) == seconds && delta_nanos(d) == 0,
;

/// Relies on `TimeDelta::nanoseconds`: a delta of exactly that many nanoseconds.
pub assume_specification[ chrono::TimeDelta::nanoseconds ](nanos: i64) -> (r: TimeDelta)
    ensures
        delta_seconds(r) == div_toward_zero(nanos as int, 1_000_000_000),
        delta_nanos(r) == nanos - div_toward_zero(nanos as int, 1_000_000_000) * 1_000_000_000,
;

/// Relies on `TimeDelta::checked_add`: the sum, when within bounds.
pub assume_specification[ chrono::TimeDelta::checked_add ](d: &TimeDelta, rhs: &TimeDelta) -> (r: Option<TimeDelta>)
    ensures
        r is Some <==> delta_in_bounds(delta_total(*d) + delta_total(*rhs)),
        r matches Some(s) ==> delta_seconds(s) == div_toward_zero(
            delta_total(*d) + delta_total(*rhs),
            1_000_000_000,
        ) && delta_nanos(s) == (delta_total(*d) + delta_total(*rhs)) - div_toward_zero(
            delta_total(*d) + delta_total(*rhs),
            1_000_000_000,
        ) * 1_000_000_000,
;

/// The message of the error for decoded seconds and nanoseconds that no `TimeDelta` holds.
pub const DELTA_OUT_OF_BOUNDS: &'static str = "duration is out of bounds";

/// The packed form of a time delta's seconds and nanoseconds.
pub open spec fn delta_value(d: TimeDelta) -> nat {
    zigzag(delta_nanos(d) as int) + zigzag(delta_seconds(d) as int) * 0x1_0000_0000
}

/// Returns the encoded length of a `TimeDelta`.
pub fn encoded_duration_len(duration: &TimeDelta) -> (r: usize)
    ensures
        r == leb128(delta_value(*duration)).len(),
{
    encoded_secs_and_subsec_nanos_len(duration.num_seconds(), duration.subsec_nanos())
}

/// Encodes a `TimeDelta` and returns it in a buffer.
pub fn encode_duration(duration: &TimeDelta) -> (r: Buffer<20>)
    ensures
        r@ == leb128(delta_value(*duration)),
{
    encode_secs_and_subsec_nanos(duration.num_seconds(), duration.subsec_nanos())
}

/// Encodes a `TimeDelta` and writes it to the buffer.
pub fn encode_duration_to(duration: &TimeDelta, buf: &mut [u8]) -> (r: Result<usize, EncodeError>)
    ensures
        encoded_into(leb128(delta_value(*duration)), old(buf)@, final(buf)@, r),
{
    encode_secs_and_subsec_nanos_to(duration.num_seconds(), duration.subsec_nanos(), buf)
}

/// Decodes a `TimeDelta` from the front of the buffer: the whole seconds plus the
/// nanoseconds packed in it. Seconds beyond 64 bits are an overflow; seconds or a sum out of
/// chrono's bounds are an error.
pub fn decode_duration(buf: &[u8]) -> (r: Result<(usize, TimeDelta), DecodeError>)
    ensures
        match decode_leb128(buf@, 128) {
            Ok((n, m)) => if m / 0x1_0000_0000 > u64::MAX {
                r == Err::<(usize, TimeDelta), DecodeError>(DecodeError::Overflow)
            } else {
                let secs = unzigzag(m / 0x1_0000_0000);
                let nanos = unzigzag(m % 0x1_0000_0000);
                let total = secs * 1_000_000_000 + nanos;
                if seconds_in_bounds(secs) && delta_in_bounds(total) {
                    r matches Ok((k, d)) && k == n && delta_total(d) == total && delta_seconds(d)
                        == div_toward_zero(total, 1_000_000_000)
                } else {
                    r == Err::<(usize, TimeDelta), DecodeError>(
                        DecodeError::Other(DELTA_OUT_OF_BOUNDS),
                    )
                }
            },
            Err(e) => r == Err::<(usize, TimeDelta), DecodeError>(e),
        },
{
    match decode_secs_and_subsec_nanos(buf) {
        Ok((n, secs, nanos)) => {
            let whole = match TimeDelta::try_seconds(secs) {
                Some(whole) => whole,
                None => return Err(DecodeError::other(DELTA_OUT_OF_BOUNDS)),
            };
            let part = TimeDelta::nanoseconds(nanos as i64);
            match whole.checked_add(&part) {
                Some(d) => Ok((n, d)),
                None => Err(DecodeError::other(DELTA_OUT_OF_BOUNDS)),
            }
        },
        Err(e) => Err(e),
    }
}

} // verus!
