use vstd::prelude::*;

use crate::error::{DecodeError, EncodeError};
use crate::leb128::{decode_leb128, encoded_into, leb128, lemma_decode_leb128, lemma_decoded_fits};
use crate::leb128::lemma_leb128_len_in_width;
use crate::primitives::{
    decode_u32_varint, encode_u32_varint, encode_u32_varint_to, encoded_u32_varint_len,
    lemma_width_bounds,
};
use crate::utils::Buffer;
use crate::varint::Varint;

verus! {

/// Whether `v` is a Unicode scalar value, the code of some `char`.
pub open spec fn is_scalar_value(v: nat) -> bool {
    v < 0xD800 || (0xE000 <= v && v <= 0x10FFFF)
}

/// Relies on `char::from_u32`: it returns the `char` whose code is `i` when `i` is a Unicode
/// scalar value, and `None` otherwise.
pub assume_specification[ char::from_u32 ](i: u32) -> (r: Option<char>)
    ensures
        r is Some <==> is_scalar_value(i as nat),
        r matches Some(c) ==> c as u32 == i,
;

/// The code of a `char` is a Unicode scalar value, and names that `char`.
pub proof fn lemma_char_code(c: char)
    ensures
        is_scalar_value(c as u32 as nat),
        (c as u32 as nat) as char == c,
{
}

/// The message of the error for a decoded number that is no `char`.
pub const INVALID_CHAR: &'static str = "invalid char value";

/// What decoding a `char` from the front of `buf` gives.
pub open spec fn decode_char_spec(buf: Seq<u8>) -> Result<(nat, char), DecodeError> {
    match decode_leb128(buf, 32) {
        Ok((n, v)) => if is_scalar_value(v) {
            Ok((n, v as char))
        } else {
            Err(DecodeError::Other(INVALID_CHAR))
        },
        Err(e) => Err(e),
    }
}

/// Returns the encoded length of the value in LEB128 variable length format.
pub fn encoded_char_len(char: &char) -> (r: usize)
    ensures
        r == leb128(*char as u32 as nat).len(),
        1 <= r <= 5,
{
    encoded_u32_varint_len(*char as u32)
}

/// Encodes a `char` value into LEB128 variable length format, and returns it in a buffer.
pub fn encode_char(char: &char) -> (r: Buffer<6>)
    ensures
        r@ == leb128(*char as u32 as nat),
{
    encode_u32_varint(*char as u32)
}

/// Encodes a `char` value into LEB128 variable length format, and writes it to the buffer.
pub fn encode_char_to(char: &char, buf: &mut [u8]) -> (r: Result<usize, EncodeError>)
    ensures
        encoded_into(leb128(*char as u32 as nat), old(buf)@, final(buf)@, r),
{
    encode_u32_varint_to(*char as u32, buf)
}

/// Decodes a `char` in LEB128 encoded format from the buffer; a number that is no Unicode
/// scalar value is an error.
///
/// Returns the bytes read and the decoded value if successful.
pub fn decode_char(buf: &[u8]) -> (r: Result<(usize, char), DecodeError>)
    ensures
        match r {
            Ok((n, c)) => decode_char_spec(buf@) == Ok::<(nat, char), DecodeError>((n as nat, c)),
            Err(e) => decode_char_spec(buf@) == Err::<(nat, char), DecodeError>(e),
        },
{
    match decode_u32_varint(buf) {
        Ok((n, v)) => match char::from_u32(v) {
            Some(c) => {
                proof {
                    lemma_char_code(c);
                }
                Ok((n, c))
            },
            None => Err(DecodeError::other(INVALID_CHAR)),
        },
        Err(e) => Err(e),
    }
}

impl Varint for char {
    const MIN_ENCODED_LEN: usize = 1;

    const MAX_ENCODED_LEN: usize = 5;

    open spec fn wire(&self) -> Seq<u8> {
        leb128(*self as u32 as nat)
    }

    open spec fn wire_decode(buf: Seq<u8>) -> Result<(nat, Self), DecodeError> {
        decode_char_spec(buf)
    }

    proof fn lemma_wire_len(&self) {
        lemma_width_bounds();
        lemma_leb128_len_in_width(*self as u32 as nat, 32);
    }

    proof fn lemma_round_trip(&self, rest: Seq<u8>) {
        lemma_width_bounds();
        lemma_decode_leb128(*self as u32 as nat, rest, 32);
        lemma_char_code(*self);
    }

    proof fn lemma_decode_len(buf: Seq<u8>) {
        lemma_decoded_fits(buf, 32);
    }

    fn encoded_len(&self) -> (r: usize) {
        encoded_char_len(self)
    }

    fn encode(&self, buf: &mut [u8]) -> (r: Result<usize, EncodeError>) {
        encode_char_to(self, buf)
    }

    fn decode(buf: &[u8]) -> (r: Result<(usize, Self), DecodeError>) {
        decode_char(buf)
    }
}

} // verus!
