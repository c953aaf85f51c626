use vstd::prelude::*;

use chrono_tz::{Tz, TZ_VARIANTS};

use crate::error::{DecodeError, EncodeError};
use crate::leb128::{encoded_into, leb128};
use crate::primitives::{
    decode_i16_varint, decode_zigzag_leb128, encode_i16_varint, encode_i16_varint_to,
    encoded_i16_varint_len,
};
use crate::utils::{zigzag, Buffer};

verus! {

#[verifier::external_type_specification]
#[verifier::external_body]
pub struct ExTz(Tz);

/// The number of time zones that `TZ_VARIANTS` lists.
pub const TZ_COUNT: usize = 597;

/// The code of a time zone: its position among the variants of `Tz`, as `tz as i16` gives
/// it.
pub uninterp spec fn tz_code(tz: Tz) -> i16;

/// The code of the time zone at position `i` of `TZ_VARIANTS`.
pub uninterp spec fn listed_code(i: nat) -> i16;

/// Relies on the cast `tz as i16` of the field-less enum `Tz`.
#[verifier::external_body]
fn code_of(tz: Tz) -> (r: i16)
    ensures
        r == tz_code(tz),
{
    tz as i16
}

/// Relies on `TZ_VARIANTS`, an array of `TZ_COUNT` time zones.
#[verifier::external_body]
fn listed(i: usize) -> (r: Tz)
    requires
        i < TZ_COUNT,
    ensures
        tz_code(r) == listed_code(i as nat),
{
    TZ_VARIANTS[i]
}

/// Whether some listed time zone has code `code`.
pub open spec fn is_listed_code(code: int) -> bool {
    exists|i: nat| i < TZ_COUNT && listed_code(i) == code
}

/// The message of the error for a decoded code that no time zone has.
pub const INVALID_TZ: &'static str = "Invalid timezone value";

/// Returns the length of the encoded timezone value.
pub fn encoded_tz_len(tz: Tz) -> (r: usize)
    ensures
        r == leb128(zigzag(tz_code(tz) as int)).len(),
{
    encoded_i16_varint_len(code_of(tz))
}

/// Encodes the timezone value into the buffer.
///
/// Returns the number of bytes written to the buffer.
pub fn encode_tz_to(tz: Tz, buf: &mut [u8]) -> (r: Result<usize, EncodeError>)
    ensures
        encoded_into(leb128(zigzag(tz_code(tz) as int)), old(buf)@, final(buf)@, r),
{
    encode_i16_varint_to(code_of(tz), buf)
}

/// Encodes the timezone value and returns it in a buffer.
pub fn encode_tz(tz: Tz) -> (r: Buffer<4>)
    ensures
        r@ == leb128(zigzag(tz_code(tz) as int)),
{
    encode_i16_varint(code_of(tz))
}

/// Decodes the timezone value from the buffer: the listed time zone with the decoded code;
/// a code that none has is an error.
///
/// Returns the number of bytes read and the decoded timezone value.
pub fn decode_tz(buf: &[u8]) -> (r: Result<(usize, Tz), DecodeError>)
    ensures
        match decode_zigzag_leb128(buf@, 16) {
            Ok((n, code)) => if is_listed_code(code) {
                r matches Ok((k, tz)) && k == n && tz_code(tz) == code
            } else {
                r == Err::<(usize, Tz), DecodeError>(DecodeError::Other(INVALID_TZ))
            },
            Err(e) => r == Err::<(usize, Tz), DecodeError>(e),
        },
{
    match decode_i16_varint(buf) {
        Ok((len, code)) => {
            let mut i: usize = 0;
            while i < TZ_COUNT
                invariant
                    decode_zigzag_leb128(buf@, 16) == Ok::<(nat, int), DecodeError>(
                        (len as nat, code as int),
                    ),
                    i <= TZ_COUNT,
                    forall|j: nat| j < i ==> listed_code(j) != code,
                decreases TZ_COUNT - i,
            {
                let tz = listed(i);
                if code_of(tz) == code {
                    proof {
                        let w = i as nat;
                        assert(w < TZ_COUNT && listed_code(w) == code);
                        assert(is_listed_code(code as int));
                    }
                    return Ok((len, tz));
                }
                i = i + 1;
            }
            Err(DecodeError::other(INVALID_TZ))
        },
        Err(err) => Err(err),
    }
}

} // verus!
