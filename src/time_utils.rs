use vstd::arithmetic::div_mod::{lemma_fundamental_div_mod_converse, lemma_small_mod};
use vstd::prelude::*;

use crate::error::{DecodeError, EncodeError};
use crate::leb128::{encoded_into, leb128};
use crate::primitives::{
    encode_i128_varint, encode_i32_varint, encode_u128_varint, encode_u64_varint,
    decode_i128_varint, decode_i32_varint, decode_u128_varint, decode_u64_varint,
    decode_zigzag_leb128, encode_i128_varint_to, encode_i32_varint_to, encode_u128_varint_to,
    encode_u64_varint_to, encoded_i128_varint_len, encoded_i32_varint_len,
    encoded_u128_varint_len, encoded_u64_varint_len,
};
use crate::leb128::decode_leb128;
use crate::utils::{
    Buffer,
    unzigzag, zigzag, zigzag_decode_i32, zigzag_decode_i64, zigzag_encode_i32, zigzag_encode_i64,
};

verus! {

// Calendar values pack their fields into one integer, the fields most often small in the low
// bits: a date is `day` (5 bits), `month` (4 bits), then the year; a time of day is the
// nanosecond (31 bits), second (6), minute (6) and hour (5); a date and time puts the time
// of day in the low 48 bits, then day (5), month (4) and the year from bit 57.

/// The packed form of a date.
pub open spec fn date_merged(year: int, month: nat, day: nat) -> int {
    year * 512 + month * 32 + day
}

/// The packed form of a time of day; each field keeps only the bits it is given.
pub open spec fn time_merged(nano: nat, second: nat, minute: nat, hour: nat) -> nat {
    nano % 0x8000_0000 + (second % 64) * 0x8000_0000 + (minute % 64) * 0x20_0000_0000 + (hour
        % 32) * 0x800_0000_0000
}

/// The packed form of a date and time; each field but the year keeps only the bits it is
/// given.
pub open spec fn date_time_merged(
    year: int,
    month: nat,
    day: nat,
    hour: nat,
    minute: nat,
    second: nat,
    nano: nat,
) -> int {
    year * 0x200_0000_0000_0000 + (month % 16) * 0x20_0000_0000_0000 + (day % 32)
        * 0x1_0000_0000_0000 + time_merged(nano, second, minute, hour)
}

/// Packs a date: `day` in the low 5 bits, `month` in the next 4, the year above.
pub fn date_to_merged(year: i32, month: u8, day: u8) -> (r: i32)
    requires
        month < 16,
        day < 32,
        -0x40_0000 <= year < 0x40_0000,
    ensures
        r as int == date_merged(year as int, month as nat, day as nat),
{
    year * 512 + (month as i32) * 32 + day as i32
}

/// Splits `x` at multiples of `d`: the floor of `x / d` and the remainder, which is never
/// negative.
fn split_floor(x: i128, d: i128) -> (r: (i128, i128))
    requires
        d > 0,
    ensures
        r.0 as int == x as int / d as int,
        r.1 as int == x as int % d as int,
        0 <= r.1 < d,
{
    if x >= 0 {
        (x / d, x % d)
    } else {
        let t = -(x + 1);
        let q = -(t / d) - 1;
        let rem = d - 1 - t % d;
        proof {
            vstd::arithmetic::div_mod::lemma_fundamental_div_mod(t as int, d as int);
            assert(x == d * q + rem) by (nonlinear_arith)
                requires
                    t == d * (t / d) + t % d,
                    x == -t - 1,
                    q == -(t / d) - 1,
                    rem == d - 1 - t % d,
            ;
            lemma_fundamental_div_mod_converse(
                x as int,
                d as int,
                q as int,
                rem as int,
            );
        }
        (q, rem)
    }
}

/// Splits a packed date into year, month and day.
pub fn merged_to_date(merged: i32) -> (r: (i32, u8, u8))
    ensures
        r.0 as int == merged as int / 512,
        r.1 as nat == (merged as int % 512) / 32,
        r.2 as nat == (merged as int % 512) % 32,
        date_merged(r.0 as int, r.1 as nat, r.2 as nat) == merged,
{
    let (year, low) = split_floor(merged as i128, 512);
    proof {
        vstd::arithmetic::div_mod::lemma_fundamental_div_mod(merged as int, 512);
    }
    (year as i32, (low / 32) as u8, (low % 32) as u8)
}

/// Packs a time of day: the nanosecond in the low 31 bits, then second (6 bits), minute (6)
/// and hour (5).
pub fn time_to_merged(nano: u32, second: u8, minute: u8, hour: u8) -> (r: u64)
    ensures
        r as nat == time_merged(nano as nat, second as nat, minute as nat, hour as nat),
{
    (nano % 0x8000_0000) as u64 + (second % 64) as u64 * 0x8000_0000 + (minute % 64) as u64
        * 0x20_0000_0000 + (hour % 32) as u64 * 0x800_0000_0000
}

/// The nanosecond, second, minute and hour that a packed time of day holds.
pub open spec fn time_fields(merged: nat) -> (nat, nat, nat, nat) {
    (
        merged % 0x8000_0000,
        (merged / 0x8000_0000) % 64,
        (merged / 0x20_0000_0000) % 64,
        (merged / 0x800_0000_0000) % 32,
    )
}

/// Splits a packed time of day, which takes at most 48 bits, into nanosecond, second,
/// minute and hour.
pub fn merged_to_time(merged: u64) -> (r: (u32, u8, u8, u8))
    requires
        merged < 0x1_0000_0000_0000,
    ensures
        (r.0 as nat, r.1 as nat, r.2 as nat, r.3 as nat) == time_fields(merged as nat),
{
    (
        (merged % 0x8000_0000) as u32,
        ((merged / 0x8000_0000) % 64) as u8,
        ((merged / 0x20_0000_0000) % 64) as u8,
        ((merged / 0x800_0000_0000) % 32) as u8,
    )
}

/// Whether the year part of a packed date and time, from bit 57 up, fits 32 bits.
pub open spec fn fits_year(merged: int) -> bool {
    i32::MIN <= merged / 0x200_0000_0000_0000 <= i32::MAX
}

/// The year part fits 32 bits exactly when the packed value is within 88 signed bits.
proof fn lemma_year_bounds(m: int)
    ensures
        fits_year(m) <==> -0x100_0000_0000_0000_0000_0000 <= m < 0x100_0000_0000_0000_0000_0000,
{
    vstd::arithmetic::div_mod::lemma_fundamental_div_mod(m, 0x200_0000_0000_0000);
    let q = m / 0x200_0000_0000_0000;
    let r = m % 0x200_0000_0000_0000;
    assert(m == 0x200_0000_0000_0000 * q + r);
    assert(0 <= r < 0x200_0000_0000_0000);
}

/// Packs a date and time: the time of day in the low 48 bits, then day (5 bits), month (4)
/// and the year from bit 57.
pub fn date_time_to_merged(
    year: i32,
    month: u8,
    day: u8,
    hour: u8,
    minute: u8,
    second: u8,
    nano: u32,
) -> (r: i128)
    ensures
        r as int == date_time_merged(
            year as int,
            month as nat,
            day as nat,
            hour as nat,
            minute as nat,
            second as nat,
            nano as nat,
        ),
{
    let time = time_to_merged(nano, second, minute, hour);
    (year as i128) * 0x200_0000_0000_0000 + (month % 16) as i128 * 0x20_0000_0000_0000 + (day
        % 32) as i128 * 0x1_0000_0000_0000 + time as i128
}

/// Splits a packed date and time into year, month, day, hour, minute, second and
/// nanosecond. The year is the part from bit 57 up, which must fit 32 bits.
pub fn merged_to_date_time(merged: i128) -> (r: (i32, u8, u8, u8, u8, u8, u32))
    requires
        fits_year(merged as int),
    ensures
        r.0 as int == merged as int / 0x200_0000_0000_0000,
        r.1 as nat == (merged as int % 0x200_0000_0000_0000) / 0x20_0000_0000_0000,
        r.2 as nat == ((merged as int % 0x200_0000_0000_0000) % 0x20_0000_0000_0000)
            / 0x1_0000_0000_0000,
        (r.6 as nat, r.5 as nat, r.4 as nat, r.3 as nat) == time_fields(
            ((merged as int % 0x200_0000_0000_0000) % 0x1_0000_0000_0000) as nat,
        ),
{
    let (year, low) = split_floor(merged, 0x200_0000_0000_0000);
    let (nano, second, minute, hour) = merged_to_time((low % 0x1_0000_0000_0000) as u64);
    (
        year as i32,
        (low / 0x20_0000_0000_0000) as u8,
        ((low % 0x20_0000_0000_0000) / 0x1_0000_0000_0000) as u8,
        hour,
        minute,
        second,
        nano,
    )
}

/// Packs seconds and subsecond nanoseconds: the zigzag encoded nanoseconds in the low 32
/// bits, the zigzag encoded seconds above.
pub fn secs_and_subsec_nanos_to_merged(secs: i64, nanos: i32) -> (r: u128)
    ensures
        r as nat == zigzag(nanos as int) + zigzag(secs as int) * 0x1_0000_0000,
{
    let secs = zigzag_encode_i64(secs) as u128;
    let nanos = zigzag_encode_i32(nanos) as u128;
    nanos + secs * 0x1_0000_0000
}

/// Splits packed seconds and subsecond nanoseconds. The seconds are the part above bit 32,
/// which must fit 64 bits, zigzag decoded.
pub fn merged_to_secs_and_subsec_nanos(merged: u128) -> (r: (i64, i32))
    requires
        merged / 0x1_0000_0000 <= u64::MAX,
    ensures
        r.0 as int == unzigzag(merged as nat / 0x1_0000_0000),
        r.1 as int == unzigzag(merged as nat % 0x1_0000_0000),
{
    let nanos_zz = (merged % 0x1_0000_0000) as u32;
    let secs_zz = (merged / 0x1_0000_0000) as u64;
    (zigzag_decode_i64(secs_zz), zigzag_decode_i32(nanos_zz))
}

/// Unpacking a packed date gives the date back, for months and days within their bits.
pub proof fn lemma_date_round_trip(year: int, month: nat, day: nat)
    requires
        month < 16,
        day < 32,
    ensures
        date_merged(year, month, day) / 512 == year,
        (date_merged(year, month, day) % 512) / 32 == month,
        (date_merged(year, month, day) % 512) % 32 == day,
{
    lemma_fundamental_div_mod_converse(
        date_merged(year, month, day),
        512,
        year,
        (month * 32 + day) as int,
    );
}

/// Unpacking a packed time of day gives it back, for fields within their bits.
pub proof fn lemma_time_round_trip(nano: nat, second: nat, minute: nat, hour: nat)
    requires
        nano < 0x8000_0000,
        second < 64,
        minute < 64,
        hour < 32,
    ensures
        time_fields(time_merged(nano, second, minute, hour)) == (nano, second, minute, hour),
{
    lemma_small_mod(nano, 0x8000_0000);
    lemma_small_mod(second, 64);
    lemma_small_mod(minute, 64);
    lemma_small_mod(hour, 32);
    let t = time_merged(nano, second, minute, hour);
    assert(t == nano + second * 0x8000_0000 + minute * 0x20_0000_0000 + hour * 0x800_0000_0000);
    lemma_fundamental_div_mod_converse(
        t as int,
        0x8000_0000,
        (second + minute * 64 + hour * 4096) as int,
        nano as int,
    );
    lemma_fundamental_div_mod_converse(
        (second + minute * 64 + hour * 4096) as int,
        64,
        (minute + hour * 64) as int,
        second as int,
    );
    lemma_fundamental_div_mod_converse(
        t as int,
        0x20_0000_0000,
        (minute + hour * 64) as int,
        (nano + second * 0x8000_0000) as int,
    );
    lemma_fundamental_div_mod_converse((minute + hour * 64) as int, 64, hour as int, minute as int);
    lemma_fundamental_div_mod_converse(
        t as int,
        0x800_0000_0000,
        hour as int,
        (nano + second * 0x8000_0000 + minute * 0x20_0000_0000) as int,
    );
}

/// Unpacking a packed date and time gives it back, for fields within their bits and a year
/// that fits 32 bits.
pub proof fn lemma_date_time_round_trip(
    year: i32,
    month: nat,
    day: nat,
    hour: nat,
    minute: nat,
    second: nat,
    nano: nat,
)
    requires
        month < 16,
        day < 32,
        hour < 32,
        minute < 64,
        second < 64,
        nano < 0x8000_0000,
    ensures
        ({
            let m = date_time_merged(year as int, month, day, hour, minute, second, nano);
            &&& m / 0x200_0000_0000_0000 == year as int
            &&& (m % 0x200_0000_0000_0000) / 0x20_0000_0000_0000 == month
            &&& ((m % 0x200_0000_0000_0000) % 0x20_0000_0000_0000) / 0x1_0000_0000_0000 == day
            &&& time_fields(((m % 0x200_0000_0000_0000) % 0x1_0000_0000_0000) as nat) == (
                nano,
                second,
                minute,
                hour,
            )
        }),
{
    lemma_small_mod(month, 16);
    lemma_small_mod(day, 32);
    lemma_time_round_trip(nano, second, minute, hour);
    lemma_time_merged_bound(nano, second, minute, hour);
    lemma_split_date_time(year as int, month, day, time_merged(nano, second, minute, hour));
}

/// A packed time of day takes at most 48 bits.
proof fn lemma_time_merged_bound(nano: nat, second: nat, minute: nat, hour: nat)
    ensures
        time_merged(nano, second, minute, hour) < 0x1_0000_0000_0000,
{
}

/// Where the year, month, day and time of day of a packed date and time sit.
proof fn lemma_split_date_time(year: int, month: nat, day: nat, t: nat)
    requires
        month < 16,
        day < 32,
        t < 0x1_0000_0000_0000,
    ensures
        ({
            let m = year * 0x200_0000_0000_0000 + month * 0x20_0000_0000_0000 + day
                * 0x1_0000_0000_0000 + t;
            &&& m / 0x200_0000_0000_0000 == year
            &&& (m % 0x200_0000_0000_0000) / 0x20_0000_0000_0000 == month
            &&& ((m % 0x200_0000_0000_0000) % 0x20_0000_0000_0000) / 0x1_0000_0000_0000 == day
            &&& (m % 0x200_0000_0000_0000) % 0x1_0000_0000_0000 == t
        }),
{
    let low = month * 0x20_0000_0000_0000 + day * 0x1_0000_0000_0000 + t;
    let m = year * 0x200_0000_0000_0000 + low;
    lemma_fundamental_div_mod_converse(m, 0x200_0000_0000_0000, year, low as int);
    lemma_fundamental_div_mod_converse(
        low as int,
        0x20_0000_0000_0000,
        month as int,
        (day * 0x1_0000_0000_0000 + t) as int,
    );
    lemma_fundamental_div_mod_converse(
        (day * 0x1_0000_0000_0000 + t) as int,
        0x1_0000_0000_0000,
        day as int,
        t as int,
    );
    lemma_fundamental_div_mod_converse(
        low as int,
        0x1_0000_0000_0000,
        (month * 32 + day) as int,
        t as int,
    );
}

/// Unpacking packed seconds and nanoseconds gives them back.
pub proof fn lemma_secs_and_subsec_nanos_round_trip(secs: i64, nanos: i32)
    ensures
        ({
            let m = zigzag(nanos as int) + zigzag(secs as int) * 0x1_0000_0000;
            &&& m / 0x1_0000_0000 <= u64::MAX
            &&& unzigzag((m / 0x1_0000_0000) as nat) == secs
            &&& unzigzag((m % 0x1_0000_0000) as nat) == nanos
        }),
{
    crate::utils::lemma_zigzag_range(secs as int, 0x8000_0000_0000_0000);
    crate::utils::lemma_zigzag_range(nanos as int, 0x8000_0000);
    crate::packable::lemma_split_packed(zigzag(nanos as int), zigzag(secs as int), 0x1_0000_0000);
    crate::utils::lemma_unzigzag_zigzag(secs as int);
    crate::utils::lemma_unzigzag_zigzag(nanos as int);
}

/// Returns the encoded length of a date.
pub fn encoded_date_len(year: i32, month: u8, day: u8) -> (r: usize)
    requires
        month < 16,
        day < 32,
        -0x40_0000 <= year < 0x40_0000,
    ensures
        r == leb128(zigzag(date_merged(year as int, month as nat, day as nat))).len(),
{
    encoded_i32_varint_len(date_to_merged(year, month, day))
}

/// Encodes a date and writes it to the buffer.
pub fn encode_date_to(year: i32, month: u8, day: u8, buf: &mut [u8]) -> (r: Result<
    usize,
    EncodeError,
>)
    requires
        month < 16,
        day < 32,
        -0x40_0000 <= year < 0x40_0000,
    ensures
        encoded_into(
            leb128(zigzag(date_merged(year as int, month as nat, day as nat))),
            old(buf)@,
            final(buf)@,
            r,
        ),
{
    encode_i32_varint_to(date_to_merged(year, month, day), buf)
}

/// Encodes a date and returns it in a buffer.
pub fn encode_date(year: i32, month: u8, day: u8) -> (r: Buffer<6>)
    requires
        month < 16,
        day < 32,
        -0x40_0000 <= year < 0x40_0000,
    ensures
        r@ == leb128(zigzag(date_merged(year as int, month as nat, day as nat))),
{
    encode_i32_varint(date_to_merged(year, month, day))
}

/// Decodes a date from the front of the buffer: the bytes read, year, month and day.
pub fn decode_date(buf: &[u8]) -> (r: Result<(usize, i32, u8, u8), DecodeError>)
    ensures
        match r {
            Ok((n, year, month, day)) => month < 16 && day < 32 && decode_zigzag_leb128(buf@, 32)
                == Ok::<(nat, int), DecodeError>(
                (n as nat, date_merged(year as int, month as nat, day as nat)),
            ),
            Err(e) => decode_zigzag_leb128(buf@, 32) == Err::<(nat, int), DecodeError>(e),
        },
{
    match decode_i32_varint(buf) {
        Ok((n, merged)) => {
            let (year, month, day) = merged_to_date(merged);
            Ok((n, year, month, day))
        },
        Err(e) => Err(e),
    }
}

/// Returns the encoded length of a time of day.
pub fn encoded_time_len(nano: u32, second: u8, minute: u8, hour: u8) -> (r: usize)
    ensures
        r == leb128(time_merged(nano as nat, second as nat, minute as nat, hour as nat)).len(),
{
    encoded_u64_varint_len(time_to_merged(nano, second, minute, hour))
}

/// Encodes a time of day and writes it to the buffer.
pub fn encode_time_to(nano: u32, second: u8, minute: u8, hour: u8, buf: &mut [u8]) -> (r:
    Result<usize, EncodeError>)
    ensures
        encoded_into(
            leb128(time_merged(nano as nat, second as nat, minute as nat, hour as nat)),
            old(buf)@,
            final(buf)@,
            r,
        ),
{
    encode_u64_varint_to(time_to_merged(nano, second, minute, hour), buf)
}

/// Encodes a time of day and returns it in a buffer.
pub fn encode_time(nano: u32, second: u8, minute: u8, hour: u8) -> (r: Buffer<11>)
    ensures
        r@ == leb128(time_merged(nano as nat, second as nat, minute as nat, hour as nat)),
{
    encode_u64_varint(time_to_merged(nano, second, minute, hour))
}

/// Decodes a time of day from the front of the buffer: the bytes read, nanosecond, second,
/// minute and hour.
pub fn decode_time(buf: &[u8]) -> (r: Result<(usize, u32, u8, u8, u8), DecodeError>)
    ensures
        match decode_leb128(buf@, 64) {
            Ok((n, m)) => if m >= 0x1_0000_0000_0000 {
                r == Err::<(usize, u32, u8, u8, u8), DecodeError>(DecodeError::Overflow)
            } else {
                r matches Ok((k, nano, second, minute, hour)) && k == n && time_fields(m) == (
                    nano as nat,
                    second as nat,
                    minute as nat,
                    hour as nat,
                )
            },
            Err(e) => r == Err::<(usize, u32, u8, u8, u8), DecodeError>(e),
        },
{
    match decode_u64_varint(buf) {
        Ok((n, merged)) => {
            if merged >= 0x1_0000_0000_0000 {
                return Err(DecodeError::Overflow);
            }
            let (nano, second, minute, hour) = merged_to_time(merged);
            Ok((n, nano, second, minute, hour))
        },
        Err(e) => Err(e),
    }
}

/// Returns the encoded length of a date and time.
pub fn encoded_datetime_len(
    year: i32,
    month: u8,
    day: u8,
    hour: u8,
    minute: u8,
    second: u8,
    nano: u32,
) -> (r: usize)
    ensures
        r == leb128(
            zigzag(
                date_time_merged(
                    year as int,
                    month as nat,
                    day as nat,
                    hour as nat,
                    minute as nat,
                    second as nat,
                    nano as nat,
                ),
            ),
        ).len(),
{
    encoded_i128_varint_len(date_time_to_merged(year, month, day, hour, minute, second, nano))
}

/// Encodes a date and time and writes it to the buffer.
pub fn encode_datetime_to(
    year: i32,
    month: u8,
    day: u8,
    hour: u8,
    minute: u8,
    second: u8,
    nano: u32,
    buf: &mut [u8],
) -> (r: Result<usize, EncodeError>)
    ensures
        encoded_into(
            leb128(
                zigzag(
                    date_time_merged(
                        year as int,
                        month as nat,
                        day as nat,
                        hour as nat,
                        minute as nat,
                        second as nat,
                        nano as nat,
                    ),
                ),
            ),
            old(buf)@,
            final(buf)@,
            r,
        ),
{
    encode_i128_varint_to(date_time_to_merged(year, month, day, hour, minute, second, nano), buf)
}

/// Encodes a date and time and returns it in a buffer.
pub fn encode_datetime(
    year: i32,
    month: u8,
    day: u8,
    hour: u8,
    minute: u8,
    second: u8,
    nano: u32,
) -> (r: Buffer<20>)
    ensures
        r@ == leb128(
            zigzag(
                date_time_merged(
                    year as int,
                    month as nat,
                    day as nat,
                    hour as nat,
                    minute as nat,
                    second as nat,
                    nano as nat,
                ),
            ),
        ),
{
    encode_i128_varint(date_time_to_merged(year, month, day, hour, minute, second, nano))
}

/// Decodes a date and time from the front of the buffer: the bytes read, year, month, day,
/// hour, minute, second and nanosecond.
pub fn decode_datetime(buf: &[u8]) -> (r: Result<(usize, i32, u8, u8, u8, u8, u8, u32), DecodeError>)
    ensures
        match decode_zigzag_leb128(buf@, 128) {
            Ok((n, m)) => if !fits_year(m) {
                r == Err::<(usize, i32, u8, u8, u8, u8, u8, u32), DecodeError>(DecodeError::Overflow)
            } else {
                r matches Ok((k, year, month, day, hour, minute, second, nano)) && k == n
                    && year as int == m / 0x200_0000_0000_0000 && month as nat == (m
                    % 0x200_0000_0000_0000) / 0x20_0000_0000_0000 && day as nat == ((m
                    % 0x200_0000_0000_0000) % 0x20_0000_0000_0000) / 0x1_0000_0000_0000
                    && time_fields(((m % 0x200_0000_0000_0000) % 0x1_0000_0000_0000) as nat) == (
                    nano as nat,
                    second as nat,
                    minute as nat,
                    hour as nat,
                )
            },
            Err(e) => r == Err::<(usize, i32, u8, u8, u8, u8, u8, u32), DecodeError>(e),
        },
{
    match decode_i128_varint(buf) {
        Ok((n, merged)) => {
            if merged < -0x100_0000_0000_0000_0000_0000 || merged >= 0x100_0000_0000_0000_0000_0000 {
                proof {
                    lemma_year_bounds(merged as int);
                }
                return Err(DecodeError::Overflow);
            }
            proof {
                lemma_year_bounds(merged as int);
            }
            let (year, month, day, hour, minute, second, nano) = merged_to_date_time(merged);
            Ok((n, year, month, day, hour, minute, second, nano))
        },
        Err(e) => Err(e),
    }
}

/// Returns the encoded length of seconds and subsecond nanoseconds.
pub fn encoded_secs_and_subsec_nanos_len(secs: i64, nanos: i32) -> (r: usize)
    ensures
        r == leb128(zigzag(nanos as int) + zigzag(secs as int) * 0x1_0000_0000).len(),
{
    encoded_u128_varint_len(secs_and_subsec_nanos_to_merged(secs, nanos))
}

/// Encodes seconds and subsecond nanoseconds and writes them to the buffer.
pub fn encode_secs_and_subsec_nanos_to(secs: i64, nanos: i32, buf: &mut [u8]) -> (r: Result<
    usize,
    EncodeError,
>)
    ensures
        encoded_into(
            leb128(zigzag(nanos as int) + zigzag(secs as int) * 0x1_0000_0000),
            old(buf)@,
            final(buf)@,
            r,
        ),
{
    encode_u128_varint_to(secs_and_subsec_nanos_to_merged(secs, nanos), buf)
}

/// Encodes seconds and subsecond nanoseconds and returns them in a buffer.
pub fn encode_secs_and_subsec_nanos(secs: i64, nanos: i32) -> (r: Buffer<20>)
    ensures
        r@ == leb128(zigzag(nanos as int) + zigzag(secs as int) * 0x1_0000_0000),
{
    encode_u128_varint(secs_and_subsec_nanos_to_merged(secs, nanos))
}

/// Decodes seconds and subsecond nanoseconds from the front of the buffer.
pub fn decode_secs_and_subsec_nanos(buf: &[u8]) -> (r: Result<(usize, i64, i32), DecodeError>)
    ensures
        match decode_leb128(buf@, 128) {
            Ok((n, m)) => if m / 0x1_0000_0000 > u64::MAX {
                r == Err::<(usize, i64, i32), DecodeError>(DecodeError::Overflow)
            } else {
                r matches Ok((k, secs, nanos)) && k == n && secs as int == unzigzag(
                    m / 0x1_0000_0000,
                ) && nanos as int == unzigzag(m % 0x1_0000_0000)
            },
            Err(e) => r == Err::<(usize, i64, i32), DecodeError>(e),
        },
{
    match decode_u128_varint(buf) {
        Ok((n, merged)) => {
            if merged / 0x1_0000_0000 > u64::MAX as u128 {
                return Err(DecodeError::Overflow);
            }
            let (secs, nanos) = merged_to_secs_and_subsec_nanos(merged);
            Ok((n, secs, nanos))
        },
        Err(e) => Err(e),
    }
}

} // verus!
