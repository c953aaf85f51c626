use vstd::prelude::*;

use crate::error::{DecodeError, EncodeError};
use crate::leb128::{decode_leb128, encoded_into, leb128, lemma_decode_leb128};
use crate::primitives::{
    decode_u128_varint, encode_u128_varint, encode_u128_varint_to, encoded_u128_varint_len,
    lemma_width_bounds,
};
use crate::utils::Buffer;
use core::time::Duration;

verus! {

/// The whole seconds of a duration, as `Duration::as_secs` reports them.
pub uninterp spec fn duration_secs(d: Duration) -> u64;

/// The nanoseconds past the whole seconds, as `Duration::subsec_nanos` reports them.
pub uninterp spec fn duration_nanos(d: Duration) -> u32;

/// Relies on `Duration::as_secs`: the number of whole seconds.
pub assume_specification[ core::time::Duration::as_secs ](d: &Duration) -> (r: u64)
    ensures
        r == duration_secs(*d),
;

/// Relies on `Duration::subsec_nanos`: the nanoseconds past the whole seconds, always below
/// one second.
pub assume_specification[ core::time::Duration::subsec_nanos ](d: &Duration) -> (r: u32)
    ensures
        r == duration_nanos(*d),
        r < 1_000_000_000,
;

/// Relies on `Duration::new`: nanoseconds of a second or more carry into the seconds, which
/// must not overflow (the call panics then).
pub assume_specification[ core::time::Duration::new ](secs: u64, nanos: u32) -> (r: Duration)
    requires
        secs + nanos / 1_000_000_000 <= u64::MAX,
    ensures
        duration_secs(r) == secs + nanos / 1_000_000_000,
        duration_nanos(r) == nanos % 1_000_000_000,
;

/// The message of the error for a decoded duration whose seconds overflow.
pub const DURATION_OVERFLOW: &'static str = "duration seconds overflow";

/// The number that a duration encodes as: the seconds above the low 32 bits, the
/// nanoseconds in them.
pub open spec fn duration_merged(secs: nat, nanos: nat) -> nat {
    secs * 0x1_0000_0000 + nanos
}

/// Returns the encoded length of the value in LEB128 variable length format.
pub fn encoded_duration_len(duration: &Duration) -> (r: usize)
    ensures
        r == leb128(
            duration_merged(duration_secs(*duration) as nat, duration_nanos(*duration) as nat),
        ).len(),
{
    encoded_u128_varint_len(merge_duration(duration))
}

fn merge_duration(duration: &Duration) -> (r: u128)
    ensures
        r as nat == duration_merged(
            duration_secs(*duration) as nat,
            duration_nanos(*duration) as nat,
        ),
{
    (duration.as_secs() as u128) * 0x1_0000_0000 + duration.subsec_nanos() as u128
}

/// Encodes a `Duration` value into LEB128 variable length format, and returns it in a buffer.
pub fn encode_duration(duration: &Duration) -> (r: Buffer<20>)
    ensures
        r@ == leb128(
            duration_merged(duration_secs(*duration) as nat, duration_nanos(*duration) as nat),
        ),
{
    encode_u128_varint(merge_duration(duration))
}

/// Encodes a `Duration` value into LEB128 variable length format, and writes it to the buffer.
pub fn encode_duration_to(duration: &Duration, buf: &mut [u8]) -> (r: Result<usize, EncodeError>)
    ensures
        encoded_into(
            leb128(
                duration_merged(duration_secs(*duration) as nat, duration_nanos(*duration) as nat),
            ),
            old(buf)@,
            final(buf)@,
            r,
        ),
{
    encode_u128_varint_to(merge_duration(duration), buf)
}

/// Decodes a `Duration` in LEB128 encoded format from the buffer: the low 32 bits are
/// nanoseconds, which carry into the seconds above them. Seconds beyond 64 bits are an
/// overflow, and seconds that overflow as the nanoseconds carry are an error.
///
/// Returns the bytes read and the decoded value if successful.
pub fn decode_duration(buf: &[u8]) -> (r: Result<(usize, Duration), DecodeError>)
    ensures
        match decode_leb128(buf@, 128) {
            Ok((n, v)) => if v / 0x1_0000_0000 > u64::MAX {
                r == Err::<(usize, Duration), DecodeError>(DecodeError::Overflow)
            } else {
                let secs = v / 0x1_0000_0000;
                let nanos = v % 0x1_0000_0000;
                if secs + nanos / 1_000_000_000 <= u64::MAX {
                    r matches Ok((k, d)) && k == n && duration_secs(d) == secs + nanos
                        / 1_000_000_000 && duration_nanos(d) == nanos % 1_000_000_000
                } else {
                    r == Err::<(usize, Duration), DecodeError>(
                        DecodeError::Other(DURATION_OVERFLOW),
                    )
                }
            },
            Err(e) => r == Err::<(usize, Duration), DecodeError>(e),
        },
{
    match decode_u128_varint(buf) {
        Ok((n, value)) => {
            if value / 0x1_0000_0000 > u64::MAX as u128 {
                return Err(DecodeError::Overflow);
            }
            let secs = (value / 0x1_0000_0000) as u64;
            let nanos = (value % 0x1_0000_0000) as u32;
            if secs > u64::MAX - (nanos / 1_000_000_000) as u64 {
                return Err(DecodeError::other(DURATION_OVERFLOW));
            }
            Ok((n, Duration::new(secs, nanos)))
        },
        Err(e) => Err(e),
    }
}

/// Decoding the encoding of a duration gives a duration of the same seconds and
/// nanoseconds, whatever bytes follow.
pub proof fn lemma_duration_round_trip(secs: u64, nanos: u32, rest: Seq<u8>)
    requires
        nanos < 1_000_000_000,
    ensures
        decode_leb128(leb128(duration_merged(secs as nat, nanos as nat)) + rest, 128) == Ok::<
            (nat, nat),
            DecodeError,
        >(
            (
                leb128(duration_merged(secs as nat, nanos as nat)).len(),
                duration_merged(secs as nat, nanos as nat),
            ),
        ),
        duration_merged(secs as nat, nanos as nat) / 0x1_0000_0000 == secs,
        duration_merged(secs as nat, nanos as nat) % 0x1_0000_0000 == nanos,
{
    lemma_width_bounds();
    lemma_decode_leb128(duration_merged(secs as nat, nanos as nat), rest, 128);
    crate::packable::lemma_split_packed(nanos as nat, secs as nat, 0x1_0000_0000);
}

} // verus!
