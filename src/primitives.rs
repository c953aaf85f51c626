use vstd::prelude::*;

use crate::error::{DecodeError, EncodeError};
use crate::varint::Varint;
use crate::leb128::{
    is_width,
    lemma_decode_leb128,
    decode_leb128, encoded_into, leb128, leb128_len, lemma_decoded_fits, lemma_leb128_len_in_width,
    max_len,
    put_leb128, read_leb128, write_leb128,
};
use crate::utils::{
    lemma_unzigzag_zigzag, lemma_zigzag_range, unzigzag, zigzag, Buffer, zigzag_encode_i8, zigzag_decode_i8, zigzag_encode_i16, zigzag_decode_i16, zigzag_encode_i32, zigzag_decode_i32, zigzag_encode_i64, zigzag_decode_i64, zigzag_encode_i128, zigzag_decode_i128,
};
use vstd::arithmetic::power2::pow2;

verus! {

/// What decoding the front of `buf` into a `bits`-bit signed integer gives: the unsigned
/// decode, zigzag decoded.
pub open spec fn decode_zigzag_leb128(buf: Seq<u8>, bits: nat) -> Result<(nat, int), DecodeError> {
    match decode_leb128(buf, bits) {
        Ok((n, u)) => Ok((n, unzigzag(u))),
        Err(e) => Err(e),
    }
}

/// Decoding the zigzag encoding of a signed value of `bits` bits gives back the value and the
/// encoding's length, whatever follows it.
pub proof fn lemma_decode_zigzag_leb128(v: int, rest: Seq<u8>, bits: nat)
    requires
        is_width(bits),
        -pow2((bits - 1) as nat) <= v < pow2((bits - 1) as nat),
    ensures
        decode_zigzag_leb128(leb128(zigzag(v)) + rest, bits) == Ok::<(nat, int), DecodeError>(
            (leb128(zigzag(v)).len(), v),
        ),
{
    vstd::arithmetic::power2::lemma_pow2_pos((bits - 1) as nat);
    vstd::arithmetic::power2::lemma_pow2_adds((bits - 1) as nat, 1);
    vstd::arithmetic::power2::lemma2_to64();
    lemma_zigzag_range(v, pow2((bits - 1) as nat) as int);
    lemma_decode_leb128(zigzag(v), rest, bits);
    lemma_unzigzag_zigzag(v);
}

/// The bounds of the native integers, as powers of two.
pub proof fn lemma_width_bounds()
    ensures
        pow2(8) == 0x100,
        pow2(16) == 0x1_0000,
        pow2(32) == 0x1_0000_0000,
        pow2(64) == 0x1_0000_0000_0000_0000,
        pow2(128) == 0x1_0000_0000_0000_0000_0000_0000_0000_0000,
{
    vstd::arithmetic::power2::lemma2_to64();
    vstd::arithmetic::power2::lemma2_to64_rest();
    vstd::arithmetic::power2::lemma_pow2_adds(64, 64);
}

/// Returns the encoded length of the value in LEB128 variable length format.
pub fn encoded_u8_varint_len(value: u8) -> (r: usize)
    ensures
        r == leb128(value as nat).len(),
        1 <= r <= max_len(8),
{
    proof {
        lemma_width_bounds();
        lemma_leb128_len_in_width(value as nat, 8);
    }
    leb128_len(value as u128)
}

/// Returns the encoded length of the value in LEB128 variable length format, after zigzag
/// encoding.
pub fn encoded_i8_varint_len(value: i8) -> (r: usize)
    ensures
        r == leb128(zigzag(value as int)).len(),
        1 <= r <= max_len(8),
{
    encoded_u8_varint_len(zigzag_encode_i8(value))
}

/// Encodes an `u8` value into LEB128 variable length format, and writes it to the buffer.
pub fn encode_u8_varint_to(value: u8, buf: &mut [u8]) -> (r: Result<usize, EncodeError>)
    ensures
        encoded_into(leb128(value as nat), old(buf)@, final(buf)@, r),
{
    write_leb128(value as u128, buf)
}

/// Encodes an `i8` value into LEB128 variable length format after zigzag encoding, and
/// writes it to the buffer.
pub fn encode_i8_varint_to(value: i8, buf: &mut [u8]) -> (r: Result<usize, EncodeError>)
    ensures
        encoded_into(leb128(zigzag(value as int)), old(buf)@, final(buf)@, r),
{
    encode_u8_varint_to(zigzag_encode_i8(value), buf)
}

/// Encodes an `u8` value into LEB128 variable length format, and returns it in a buffer.
pub fn encode_u8_varint(value: u8) -> (r: Buffer<3>)
    ensures
        r@ == leb128(value as nat),
{
    proof {
        lemma_width_bounds();
        lemma_leb128_len_in_width(value as nat, 8);
    }
    let len = leb128_len(value as u128);
    let mut data = [0u8; 3];
    put_leb128(value as u128, &mut data);
    data[2] = len as u8;
    proof {
        assert(data@.take(len as int) =~= leb128(value as nat));
    }
    Buffer::new(data)
}

/// Encodes an `i8` value into LEB128 variable length format after zigzag encoding, and
/// returns it in a buffer.
pub fn encode_i8_varint(value: i8) -> (r: Buffer<3>)
    ensures
        r@ == leb128(zigzag(value as int)),
{
    encode_u8_varint(zigzag_encode_i8(value))
}

/// Decodes an `u8` in LEB128 encoded format from the buffer.
///
/// Returns the bytes read and the decoded value if successful.
pub fn decode_u8_varint(buf: &[u8]) -> (r: Result<(usize, u8), DecodeError>)
    ensures
        match r {
            Ok((n, v)) => decode_leb128(buf@, 8) == Ok::<(nat, nat), DecodeError>(
                (n as nat, v as nat),
            ),
            Err(e) => decode_leb128(buf@, 8) == Err::<(nat, nat), DecodeError>(e),
        },
{
    match read_leb128(buf, 8) {
        Ok((n, v)) => {
            proof {
                lemma_width_bounds();
                lemma_decoded_fits(buf@, 8);
            }
            Ok((n, v as u8))
        },
        Err(e) => Err(e),
    }
}

/// Decodes an `i8` in LEB128 encoded format from the buffer, zigzag decoding the result.
///
/// Returns the bytes read and the decoded value if successful.
pub fn decode_i8_varint(buf: &[u8]) -> (r: Result<(usize, i8), DecodeError>)
    ensures
        match r {
            Ok((n, v)) => decode_zigzag_leb128(buf@, 8) == Ok::<(nat, int), DecodeError>(
                (n as nat, v as int),
            ),
            Err(e) => decode_zigzag_leb128(buf@, 8) == Err::<(nat, int), DecodeError>(e),
        },
{
    match decode_u8_varint(buf) {
        Ok((n, v)) => Ok((n, zigzag_decode_i8(v))),
        Err(e) => Err(e),
    }
}

/// Returns the encoded length of the value in LEB128 variable length format.
pub fn encoded_u16_varint_len(value: u16) -> (r: usize)
    ensures
        r == leb128(value as nat).len(),
        1 <= r <= max_len(16),
{
    proof {
        lemma_width_bounds();
        lemma_leb128_len_in_width(value as nat, 16);
    }
    leb128_len(value as u128)
}

/// Returns the encoded length of the value in LEB128 variable length format, after zigzag
/// encoding.
pub fn encoded_i16_varint_len(value: i16) -> (r: usize)
    ensures
        r == leb128(zigzag(value as int)).len(),
        1 <= r <= max_len(16),
{
    encoded_u16_varint_len(zigzag_encode_i16(value))
}

/// Encodes an `u16` value into LEB128 variable length format, and writes it to the buffer.
pub fn encode_u16_varint_to(value: u16, buf: &mut [u8]) -> (r: Result<usize, EncodeError>)
    ensures
        encoded_into(leb128(value as nat), old(buf)@, final(buf)@, r),
{
    write_leb128(value as u128, buf)
}

/// Encodes an `i16` value into LEB128 variable length format after zigzag encoding, and
/// writes it to the buffer.
pub fn encode_i16_varint_to(value: i16, buf: &mut [u8]) -> (r: Result<usize, EncodeError>)
    ensures
        encoded_into(leb128(zigzag(value as int)), old(buf)@, final(buf)@, r),
{
    encode_u16_varint_to(zigzag_encode_i16(value), buf)
}

/// Encodes an `u16` value into LEB128 variable length format, and returns it in a buffer.
pub fn encode_u16_varint(value: u16) -> (r: Buffer<4>)
    ensures
        r@ == leb128(value as nat),
{
    proof {
        lemma_width_bounds();
        lemma_leb128_len_in_width(value as nat, 16);
    }
    let len = leb128_len(value as u128);
    let mut data = [0u8; 4];
    put_leb128(value as u128, &mut data);
    data[3] = len as u8;
    proof {
        assert(data@.take(len as int) =~= leb128(value as nat));
    }
    Buffer::new(data)
}

/// Encodes an `i16` value into LEB128 variable length format after zigzag encoding, and
/// returns it in a buffer.
pub fn encode_i16_varint(value: i16) -> (r: Buffer<4>)
    ensures
        r@ == leb128(zigzag(value as int)),
{
    encode_u16_varint(zigzag_encode_i16(value))
}

/// Decodes an `u16` in LEB128 encoded format from the buffer.
///
/// Returns the bytes read and the decoded value if successful.
pub fn decode_u16_varint(buf: &[u8]) -> (r: Result<(usize, u16), DecodeError>)
    ensures
        match r {
            Ok((n, v)) => decode_leb128(buf@, 16) == Ok::<(nat, nat), DecodeError>(
                (n as nat, v as nat),
            ),
            Err(e) => decode_leb128(buf@, 16) == Err::<(nat, nat), DecodeError>(e),
        },
{
    match read_leb128(buf, 16) {
        Ok((n, v)) => {
            proof {
                lemma_width_bounds();
                lemma_decoded_fits(buf@, 16);
            }
            Ok((n, v as u16))
        },
        Err(e) => Err(e),
    }
}

/// Decodes an `i16` in LEB128 encoded format from the buffer, zigzag decoding the result.
///
/// Returns the bytes read and the decoded value if successful.
pub fn decode_i16_varint(buf: &[u8]) -> (r: Result<(usize, i16), DecodeError>)
    ensures
        match r {
            Ok((n, v)) => decode_zigzag_leb128(buf@, 16) == Ok::<(nat, int), DecodeError>(
                (n as nat, v as int),
            ),
            Err(e) => decode_zigzag_leb128(buf@, 16) == Err::<(nat, int), DecodeError>(e),
        },
{
    match decode_u16_varint(buf) {
        Ok((n, v)) => Ok((n, zigzag_decode_i16(v))),
        Err(e) => Err(e),
    }
}

/// Returns the encoded length of the value in LEB128 variable length format.
pub fn encoded_u32_varint_len(value: u32) -> (r: usize)
    ensures
        r == leb128(value as nat).len(),
        1 <= r <= max_len(32),
{
    proof {
        lemma_width_bounds();
        lemma_leb128_len_in_width(value as nat, 32);
    }
    leb128_len(value as u128)
}

/// Returns the encoded length of the value in LEB128 variable length format, after zigzag
/// encoding.
pub fn encoded_i32_varint_len(value: i32) -> (r: usize)
    ensures
        r == leb128(zigzag(value as int)).len(),
        1 <= r <= max_len(32),
{
    encoded_u32_varint_len(zigzag_encode_i32(value))
}

/// Encodes an `u32` value into LEB128 variable length format, and writes it to the buffer.
pub fn encode_u32_varint_to(value: u32, buf: &mut [u8]) -> (r: Result<usize, EncodeError>)
    ensures
        encoded_into(leb128(value as nat), old(buf)@, final(buf)@, r),
{
    write_leb128(value as u128, buf)
}

/// Encodes an `i32` value into LEB128 variable length format after zigzag encoding, and
/// writes it to the buffer.
pub fn encode_i32_varint_to(value: i32, buf: &mut [u8]) -> (r: Result<usize, EncodeError>)
    ensures
        encoded_into(leb128(zigzag(value as int)), old(buf)@, final(buf)@, r),
{
    encode_u32_varint_to(zigzag_encode_i32(value), buf)
}

/// Encodes an `u32` value into LEB128 variable length format, and returns it in a buffer.
pub fn encode_u32_varint(value: u32) -> (r: Buffer<6>)
    ensures
        r@ == leb128(value as nat),
{
    proof {
        lemma_width_bounds();
        lemma_leb128_len_in_width(value as nat, 32);
    }
    let len = leb128_len(value as u128);
    let mut data = [0u8; 6];
    put_leb128(value as u128, &mut data);
    data[5] = len as u8;
    proof {
        assert(data@.take(len as int) =~= leb128(value as nat));
    }
    Buffer::new(data)
}

/// Encodes an `i32` value into LEB128 variable length format after zigzag encoding, and
/// returns it in a buffer.
pub fn encode_i32_varint(value: i32) -> (r: Buffer<6>)
    ensures
        r@ == leb128(zigzag(value as int)),
{
    encode_u32_varint(zigzag_encode_i32(value))
}

/// Decodes an `u32` in LEB128 encoded format from the buffer.
///
/// Returns the bytes read and the decoded value if successful.
pub fn decode_u32_varint(buf: &[u8]) -> (r: Result<(usize, u32), DecodeError>)
    ensures
        match r {
            Ok((n, v)) => decode_leb128(buf@, 32) == Ok::<(nat, nat), DecodeError>(
                (n as nat, v as nat),
            ),
            Err(e) => decode_leb128(buf@, 32) == Err::<(nat, nat), DecodeError>(e),
        },
{
    match read_leb128(buf, 32) {
        Ok((n, v)) => {
            proof {
                lemma_width_bounds();
                lemma_decoded_fits(buf@, 32);
            }
            Ok((n, v as u32))
        },
        Err(e) => Err(e),
    }
}

/// Decodes an `i32` in LEB128 encoded format from the buffer, zigzag decoding the result.
///
/// Returns the bytes read and the decoded value if successful.
pub fn decode_i32_varint(buf: &[u8]) -> (r: Result<(usize, i32), DecodeError>)
    ensures
        match r {
            Ok((n, v)) => decode_zigzag_leb128(buf@, 32) == Ok::<(nat, int), DecodeError>(
                (n as nat, v as int),
            ),
            Err(e) => decode_zigzag_leb128(buf@, 32) == Err::<(nat, int), DecodeError>(e),
        },
{
    match decode_u32_varint(buf) {
        Ok((n, v)) => Ok((n, zigzag_decode_i32(v))),
        Err(e) => Err(e),
    }
}

/// Returns the encoded length of the value in LEB128 variable length format.
pub fn encoded_u64_varint_len(value: u64) -> (r: usize)
    ensures
        r == leb128(value as nat).len(),
        1 <= r <= max_len(64),
{
    proof {
        lemma_width_bounds();
        lemma_leb128_len_in_width(value as nat, 64);
    }
    leb128_len(value as u128)
}

/// Returns the encoded length of the value in LEB128 variable length format, after zigzag
/// encoding.
pub fn encoded_i64_varint_len(value: i64) -> (r: usize)
    ensures
        r == leb128(zigzag(value as int)).len(),
        1 <= r <= max_len(64),
{
    encoded_u64_varint_len(zigzag_encode_i64(value))
}

/// Encodes an `u64` value into LEB128 variable length format, and writes it to the buffer.
pub fn encode_u64_varint_to(value: u64, buf: &mut [u8]) -> (r: Result<usize, EncodeError>)
    ensures
        encoded_into(leb128(value as nat), old(buf)@, final(buf)@, r),
{
    write_leb128(value as u128, buf)
}

/// Encodes an `i64` value into LEB128 variable length format after zigzag encoding, and
/// writes it to the buffer.
pub fn encode_i64_varint_to(value: i64, buf: &mut [u8]) -> (r: Result<usize, EncodeError>)
    ensures
        encoded_into(leb128(zigzag(value as int)), old(buf)@, final(buf)@, r),
{
    encode_u64_varint_to(zigzag_encode_i64(value), buf)
}

/// Encodes an `u64` value into LEB128 variable length format, and returns it in a buffer.
pub fn encode_u64_varint(value: u64) -> (r: Buffer<11>)
    ensures
        r@ == leb128(value as nat),
{
    proof {
        lemma_width_bounds();
        lemma_leb128_len_in_width(value as nat, 64);
    }
    let len = leb128_len(value as u128);
    let mut data = [0u8; 11];
    put_leb128(value as u128, &mut data);
    data[10] = len as u8;
    proof {
        assert(data@.take(len as int) =~= leb128(value as nat));
    }
    Buffer::new(data)
}

/// Encodes an `i64` value into LEB128 variable length format after zigzag encoding, and
/// returns it in a buffer.
pub fn encode_i64_varint(value: i64) -> (r: Buffer<11>)
    ensures
        r@ == leb128(zigzag(value as int)),
{
    encode_u64_varint(zigzag_encode_i64(value))
}

/// Decodes an `u64` in LEB128 encoded format from the buffer.
///
/// Returns the bytes read and the decoded value if successful.
pub fn decode_u64_varint(buf: &[u8]) -> (r: Result<(usize, u64), DecodeError>)
    ensures
        match r {
            Ok((n, v)) => decode_leb128(buf@, 64) == Ok::<(nat, nat), DecodeError>(
                (n as nat, v as nat),
            ),
            Err(e) => decode_leb128(buf@, 64) == Err::<(nat, nat), DecodeError>(e),
        },
{
    match read_leb128(buf, 64) {
        Ok((n, v)) => {
            proof {
                lemma_width_bounds();
                lemma_decoded_fits(buf@, 64);
            }
            Ok((n, v as u64))
        },
        Err(e) => Err(e),
    }
}

/// Decodes an `i64` in LEB128 encoded format from the buffer, zigzag decoding the result.
///
/// Returns the bytes read and the decoded value if successful.
pub fn decode_i64_varint(buf: &[u8]) -> (r: Result<(usize, i64), DecodeError>)
    ensures
        match r {
            Ok((n, v)) => decode_zigzag_leb128(buf@, 64) == Ok::<(nat, int), DecodeError>(
                (n as nat, v as int),
            ),
            Err(e) => decode_zigzag_leb128(buf@, 64) == Err::<(nat, int), DecodeError>(e),
        },
{
    match decode_u64_varint(buf) {
        Ok((n, v)) => Ok((n, zigzag_decode_i64(v))),
        Err(e) => Err(e),
    }
}

/// Returns the encoded length of the value in LEB128 variable length format.
pub fn encoded_u128_varint_len(value: u128) -> (r: usize)
    ensures
        r == leb128(value as nat).len(),
        1 <= r <= max_len(128),
{
    proof {
        lemma_width_bounds();
        lemma_leb128_len_in_width(value as nat, 128);
    }
    leb128_len(value as u128)
}

/// Returns the encoded length of the value in LEB128 variable length format, after zigzag
/// encoding.
pub fn encoded_i128_varint_len(value: i128) -> (r: usize)
    ensures
        r == leb128(zigzag(value as int)).len(),
        1 <= r <= max_len(128),
{
    encoded_u128_varint_len(zigzag_encode_i128(value))
}

/// Encodes an `u128` value into LEB128 variable length format, and writes it to the buffer.
pub fn encode_u128_varint_to(value: u128, buf: &mut [u8]) -> (r: Result<usize, EncodeError>)
    ensures
        encoded_into(leb128(value as nat), old(buf)@, final(buf)@, r),
{
    write_leb128(value as u128, buf)
}

/// Encodes an `i128` value into LEB128 variable length format after zigzag encoding, and
/// writes it to the buffer.
pub fn encode_i128_varint_to(value: i128, buf: &mut [u8]) -> (r: Result<usize, EncodeError>)
    ensures
        encoded_into(leb128(zigzag(value as int)), old(buf)@, final(buf)@, r),
{
    encode_u128_varint_to(zigzag_encode_i128(value), buf)
}

/// Encodes an `u128` value into LEB128 variable length format, and returns it in a buffer.
pub fn encode_u128_varint(value: u128) -> (r: Buffer<20>)
    ensures
        r@ == leb128(value as nat),
{
    proof {
        lemma_width_bounds();
        lemma_leb128_len_in_width(value as nat, 128);
    }
    let len = leb128_len(value as u128);
    let mut data = [0u8; 20];
    put_leb128(value as u128, &mut data);
    data[19] = len as u8;
    proof {
        assert(data@.take(len as int) =~= leb128(value as nat));
    }
    Buffer::new(data)
}

/// Encodes an `i128` value into LEB128 variable length format after zigzag encoding, and
/// returns it in a buffer.
pub fn encode_i128_varint(value: i128) -> (r: Buffer<20>)
    ensures
        r@ == leb128(zigzag(value as int)),
{
    encode_u128_varint(zigzag_encode_i128(value))
}

/// Decodes an `u128` in LEB128 encoded format from the buffer.
///
/// Returns the bytes read and the decoded value if successful.
pub fn decode_u128_varint(buf: &[u8]) -> (r: Result<(usize, u128), DecodeError>)
    ensures
        match r {
            Ok((n, v)) => decode_leb128(buf@, 128) == Ok::<(nat, nat), DecodeError>(
                (n as nat, v as nat),
            ),
            Err(e) => decode_leb128(buf@, 128) == Err::<(nat, nat), DecodeError>(e),
        },
{
    match read_leb128(buf, 128) {
        Ok((n, v)) => {
            proof {
                lemma_width_bounds();
                lemma_decoded_fits(buf@, 128);
            }
            Ok((n, v as u128))
        },
        Err(e) => Err(e),
    }
}

/// Decodes an `i128` in LEB128 encoded format from the buffer, zigzag decoding the result.
///
/// Returns the bytes read and the decoded value if successful.
pub fn decode_i128_varint(buf: &[u8]) -> (r: Result<(usize, i128), DecodeError>)
    ensures
        match r {
            Ok((n, v)) => decode_zigzag_leb128(buf@, 128) == Ok::<(nat, int), DecodeError>(
                (n as nat, v as int),
            ),
            Err(e) => decode_zigzag_leb128(buf@, 128) == Err::<(nat, int), DecodeError>(e),
        },
{
    match decode_u128_varint(buf) {
        Ok((n, v)) => Ok((n, zigzag_decode_i128(v))),
        Err(e) => Err(e),
    }
}

/// The message of the error for a byte that is neither `0` nor `1` where a `bool` is read.
pub const INVALID_BOOL: &'static str = "invalid boolean value";

impl Varint for u8 {
    const MIN_ENCODED_LEN: usize = 1;

    const MAX_ENCODED_LEN: usize = 2;

    open spec fn wire(&self) -> Seq<u8> {
        leb128(*self as nat)
    }

    open spec fn wire_decode(buf: Seq<u8>) -> Result<(nat, Self), DecodeError> {
        match decode_leb128(buf, 8) {
            Ok((n, v)) => Ok((n, v as u8)),
            Err(e) => Err(e),
        }
    }

    proof fn lemma_wire_len(&self) {
        lemma_width_bounds();
        lemma_leb128_len_in_width(*self as nat, 8);
    }

    proof fn lemma_round_trip(&self, rest: Seq<u8>) {
        lemma_width_bounds();
        lemma_decode_leb128(*self as nat, rest, 8);
    }

    proof fn lemma_decode_len(buf: Seq<u8>) {
        lemma_decoded_fits(buf, 8);
    }

    fn encoded_len(&self) -> (r: usize) {
        encoded_u8_varint_len(*self)
    }

    fn encode(&self, buf: &mut [u8]) -> (r: Result<usize, EncodeError>) {
        encode_u8_varint_to(*self, buf)
    }

    fn decode(buf: &[u8]) -> (r: Result<(usize, Self), DecodeError>) {
        proof {
            lemma_width_bounds();
            lemma_decoded_fits(buf@, 8);
        }
        decode_u8_varint(buf)
    }
}

impl Varint for i8 {
    const MIN_ENCODED_LEN: usize = 1;

    const MAX_ENCODED_LEN: usize = 2;

    open spec fn wire(&self) -> Seq<u8> {
        leb128(zigzag(*self as int))
    }

    open spec fn wire_decode(buf: Seq<u8>) -> Result<(nat, Self), DecodeError> {
        match decode_zigzag_leb128(buf, 8) {
            Ok((n, v)) => Ok((n, v as i8)),
            Err(e) => Err(e),
        }
    }

    proof fn lemma_wire_len(&self) {
        lemma_width_bounds();
        lemma_zigzag_range(*self as int, 0x80);
        lemma_leb128_len_in_width(zigzag(*self as int), 8);
    }

    proof fn lemma_round_trip(&self, rest: Seq<u8>) {
        lemma_width_bounds();
        lemma_zigzag_range(*self as int, 0x80);
        lemma_decode_leb128(zigzag(*self as int), rest, 8);
        lemma_unzigzag_zigzag(*self as int);
    }

    proof fn lemma_decode_len(buf: Seq<u8>) {
        lemma_decoded_fits(buf, 8);
    }

    fn encoded_len(&self) -> (r: usize) {
        encoded_i8_varint_len(*self)
    }

    fn encode(&self, buf: &mut [u8]) -> (r: Result<usize, EncodeError>) {
        encode_i8_varint_to(*self, buf)
    }

    fn decode(buf: &[u8]) -> (r: Result<(usize, Self), DecodeError>) {
        decode_i8_varint(buf)
    }
}

impl Varint for u16 {
    const MIN_ENCODED_LEN: usize = 1;

    const MAX_ENCODED_LEN: usize = 3;

    open spec fn wire(&self) -> Seq<u8> {
        leb128(*self as nat)
    }

    open spec fn wire_decode(buf: Seq<u8>) -> Result<(nat, Self), DecodeError> {
        match decode_leb128(buf, 16) {
            Ok((n, v)) => Ok((n, v as u16)),
            Err(e) => Err(e),
        }
    }

    proof fn lemma_wire_len(&self) {
        lemma_width_bounds();
        lemma_leb128_len_in_width(*self as nat, 16);
    }

    proof fn lemma_round_trip(&self, rest: Seq<u8>) {
        lemma_width_bounds();
        lemma_decode_leb128(*self as nat, rest, 16);
    }

    proof fn lemma_decode_len(buf: Seq<u8>) {
        lemma_decoded_fits(buf, 16);
    }

    fn encoded_len(&self) -> (r: usize) {
        encoded_u16_varint_len(*self)
    }

    fn encode(&self, buf: &mut [u8]) -> (r: Result<usize, EncodeError>) {
        encode_u16_varint_to(*self, buf)
    }

    fn decode(buf: &[u8]) -> (r: Result<(usize, Self), DecodeError>) {
        proof {
            lemma_width_bounds();
            lemma_decoded_fits(buf@, 16);
        }
        decode_u16_varint(buf)
    }
}

impl Varint for i16 {
    const MIN_ENCODED_LEN: usize = 1;

    const MAX_ENCODED_LEN: usize = 3;

    open spec fn wire(&self) -> Seq<u8> {
        leb128(zigzag(*self as int))
    }

    open spec fn wire_decode(buf: Seq<u8>) -> Result<(nat, Self), DecodeError> {
        match decode_zigzag_leb128(buf, 16) {
            Ok((n, v)) => Ok((n, v as i16)),
            Err(e) => Err(e),
        }
    }

    proof fn lemma_wire_len(&self) {
        lemma_width_bounds();
        lemma_zigzag_range(*self as int, 0x8000);
        lemma_leb128_len_in_width(zigzag(*self as int), 16);
    }

    proof fn lemma_round_trip(&self, rest: Seq<u8>) {
        lemma_width_bounds();
        lemma_zigzag_range(*self as int, 0x8000);
        lemma_decode_leb128(zigzag(*self as int), rest, 16);
        lemma_unzigzag_zigzag(*self as int);
    }

    proof fn lemma_decode_len(buf: Seq<u8>) {
        lemma_decoded_fits(buf, 16);
    }

    fn encoded_len(&self) -> (r: usize) {
        encoded_i16_varint_len(*self)
    }

    fn encode(&self, buf: &mut [u8]) -> (r: Result<usize, EncodeError>) {
        encode_i16_varint_to(*self, buf)
    }

    fn decode(buf: &[u8]) -> (r: Result<(usize, Self), DecodeError>) {
        decode_i16_varint(buf)
    }
}

impl Varint for u32 {
    const MIN_ENCODED_LEN: usize = 1;

    const MAX_ENCODED_LEN: usize = 5;

    open spec fn wire(&self) -> Seq<u8> {
        leb128(*self as nat)
    }

    open spec fn wire_decode(buf: Seq<u8>) -> Result<(nat, Self), DecodeError> {
        match decode_leb128(buf, 32) {
            Ok((n, v)) => Ok((n, v as u32)),
            Err(e) => Err(e),
        }
    }

    proof fn lemma_wire_len(&self) {
        lemma_width_bounds();
        lemma_leb128_len_in_width(*self as nat, 32);
    }

    proof fn lemma_round_trip(&self, rest: Seq<u8>) {
        lemma_width_bounds();
        lemma_decode_leb128(*self as nat, rest, 32);
    }

    proof fn lemma_decode_len(buf: Seq<u8>) {
        lemma_decoded_fits(buf, 32);
    }

    fn encoded_len(&self) -> (r: usize) {
        encoded_u32_varint_len(*self)
    }

    fn encode(&self, buf: &mut [u8]) -> (r: Result<usize, EncodeError>) {
        encode_u32_varint_to(*self, buf)
    }

    fn decode(buf: &[u8]) -> (r: Result<(usize, Self), DecodeError>) {
        proof {
            lemma_width_bounds();
            lemma_decoded_fits(buf@, 32);
        }
        decode_u32_varint(buf)
    }
}

impl Varint for i32 {
    const MIN_ENCODED_LEN: usize = 1;

    const MAX_ENCODED_LEN: usize = 5;

    open spec fn wire(&self) -> Seq<u8> {
        leb128(zigzag(*self as int))
    }

    open spec fn wire_decode(buf: Seq<u8>) -> Result<(nat, Self), DecodeError> {
        match decode_zigzag_leb128(buf, 32) {
            Ok((n, v)) => Ok((n, v as i32)),
            Err(e) => Err(e),
        }
    }

    proof fn lemma_wire_len(&self) {
        lemma_width_bounds();
        lemma_zigzag_range(*self as int, 0x80000000);
        lemma_leb128_len_in_width(zigzag(*self as int), 32);
    }

    proof fn lemma_round_trip(&self, rest: Seq<u8>) {
        lemma_width_bounds();
        lemma_zigzag_range(*self as int, 0x80000000);
        lemma_decode_leb128(zigzag(*self as int), rest, 32);
        lemma_unzigzag_zigzag(*self as int);
    }

    proof fn lemma_decode_len(buf: Seq<u8>) {
        lemma_decoded_fits(buf, 32);
    }

    fn encoded_len(&self) -> (r: usize) {
        encoded_i32_varint_len(*self)
    }

    fn encode(&self, buf: &mut [u8]) -> (r: Result<usize, EncodeError>) {
        encode_i32_varint_to(*self, buf)
    }

    fn decode(buf: &[u8]) -> (r: Result<(usize, Self), DecodeError>) {
        decode_i32_varint(buf)
    }
}

impl Varint for u64 {
    const MIN_ENCODED_LEN: usize = 1;

    const MAX_ENCODED_LEN: usize = 10;

    open spec fn wire(&self) -> Seq<u8> {
        leb128(*self as nat)
    }

    open spec fn wire_decode(buf: Seq<u8>) -> Result<(nat, Self), DecodeError> {
        match decode_leb128(buf, 64) {
            Ok((n, v)) => Ok((n, v as u64)),
            Err(e) => Err(e),
        }
    }

    proof fn lemma_wire_len(&self) {
        lemma_width_bounds();
        lemma_leb128_len_in_width(*self as nat, 64);
    }

    proof fn lemma_round_trip(&self, rest: Seq<u8>) {
        lemma_width_bounds();
        lemma_decode_leb128(*self as nat, rest, 64);
    }

    proof fn lemma_decode_len(buf: Seq<u8>) {
        lemma_decoded_fits(buf, 64);
    }

    fn encoded_len(&self) -> (r: usize) {
        encoded_u64_varint_len(*self)
    }

    fn encode(&self, buf: &mut [u8]) -> (r: Result<usize, EncodeError>) {
        encode_u64_varint_to(*self, buf)
    }

    fn decode(buf: &[u8]) -> (r: Result<(usize, Self), DecodeError>) {
        proof {
            lemma_width_bounds();
            lemma_decoded_fits(buf@, 64);
        }
        decode_u64_varint(buf)
    }
}

impl Varint for i64 {
    const MIN_ENCODED_LEN: usize = 1;

    const MAX_ENCODED_LEN: usize = 10;

    open spec fn wire(&self) -> Seq<u8> {
        leb128(zigzag(*self as int))
    }

    open spec fn wire_decode(buf: Seq<u8>) -> Result<(nat, Self), DecodeError> {
        match decode_zigzag_leb128(buf, 64) {
            Ok((n, v)) => Ok((n, v as i64)),
            Err(e) => Err(e),
        }
    }

    proof fn lemma_wire_len(&self) {
        lemma_width_bounds();
        lemma_zigzag_range(*self as int, 0x8000000000000000);
        lemma_leb128_len_in_width(zigzag(*self as int), 64);
    }

    proof fn lemma_round_trip(&self, rest: Seq<u8>) {
        lemma_width_bounds();
        lemma_zigzag_range(*self as int, 0x8000000000000000);
        lemma_decode_leb128(zigzag(*self as int), rest, 64);
        lemma_unzigzag_zigzag(*self as int);
    }

    proof fn lemma_decode_len(buf: Seq<u8>) {
        lemma_decoded_fits(buf, 64);
    }

    fn encoded_len(&self) -> (r: usize) {
        encoded_i64_varint_len(*self)
    }

    fn encode(&self, buf: &mut [u8]) -> (r: Result<usize, EncodeError>) {
        encode_i64_varint_to(*self, buf)
    }

    fn decode(buf: &[u8]) -> (r: Result<(usize, Self), DecodeError>) {
        decode_i64_varint(buf)
    }
}

impl Varint for u128 {
    const MIN_ENCODED_LEN: usize = 1;

    const MAX_ENCODED_LEN: usize = 19;

    open spec fn wire(&self) -> Seq<u8> {
        leb128(*self as nat)
    }

    open spec fn wire_decode(buf: Seq<u8>) -> Result<(nat, Self), DecodeError> {
        match decode_leb128(buf, 128) {
            Ok((n, v)) => Ok((n, v as u128)),
            Err(e) => Err(e),
        }
    }

    proof fn lemma_wire_len(&self) {
        lemma_width_bounds();
        lemma_leb128_len_in_width(*self as nat, 128);
    }

    proof fn lemma_round_trip(&self, rest: Seq<u8>) {
        lemma_width_bounds();
        lemma_decode_leb128(*self as nat, rest, 128);
    }

    proof fn lemma_decode_len(buf: Seq<u8>) {
        lemma_decoded_fits(buf, 128);
    }

    fn encoded_len(&self) -> (r: usize) {
        encoded_u128_varint_len(*self)
    }

    fn encode(&self, buf: &mut [u8]) -> (r: Result<usize, EncodeError>) {
        encode_u128_varint_to(*self, buf)
    }

    fn decode(buf: &[u8]) -> (r: Result<(usize, Self), DecodeError>) {
        proof {
            lemma_width_bounds();
            lemma_decoded_fits(buf@, 128);
        }
        decode_u128_varint(buf)
    }
}

impl Varint for i128 {
    const MIN_ENCODED_LEN: usize = 1;

    const MAX_ENCODED_LEN: usize = 19;

    open spec fn wire(&self) -> Seq<u8> {
        leb128(zigzag(*self as int))
    }

    open spec fn wire_decode(buf: Seq<u8>) -> Result<(nat, Self), DecodeError> {
        match decode_zigzag_leb128(buf, 128) {
            Ok((n, v)) => Ok((n, v as i128)),
            Err(e) => Err(e),
        }
    }

    proof fn lemma_wire_len(&self) {
        lemma_width_bounds();
        lemma_zigzag_range(*self as int, 0x80000000000000000000000000000000);
        lemma_leb128_len_in_width(zigzag(*self as int), 128);
    }

    proof fn lemma_round_trip(&self, rest: Seq<u8>) {
        lemma_width_bounds();
        lemma_zigzag_range(*self as int, 0x80000000000000000000000000000000);
        lemma_decode_leb128(zigzag(*self as int), rest, 128);
        lemma_unzigzag_zigzag(*self as int);
    }

    proof fn lemma_decode_len(buf: Seq<u8>) {
        lemma_decoded_fits(buf, 128);
    }

    fn encoded_len(&self) -> (r: usize) {
        encoded_i128_varint_len(*self)
    }

    fn encode(&self, buf: &mut [u8]) -> (r: Result<usize, EncodeError>) {
        encode_i128_varint_to(*self, buf)
    }

    fn decode(buf: &[u8]) -> (r: Result<(usize, Self), DecodeError>) {
        decode_i128_varint(buf)
    }
}

impl Varint for bool {
    const MIN_ENCODED_LEN: usize = 1;

    const MAX_ENCODED_LEN: usize = 1;

    open spec fn wire(&self) -> Seq<u8> {
        leb128(if *self { 1 } else { 0 })
    }

    open spec fn wire_decode(buf: Seq<u8>) -> Result<(nat, Self), DecodeError> {
        match decode_leb128(buf, 8) {
            Ok((n, v)) => if v > 1 {
                Err(DecodeError::Other(INVALID_BOOL))
            } else {
                Ok((n, v == 1))
            },
            Err(e) => Err(e),
        }
    }

    proof fn lemma_wire_len(&self) {
    }

    proof fn lemma_round_trip(&self, rest: Seq<u8>) {
        lemma_width_bounds();
        lemma_decode_leb128(if *self { 1 } else { 0 }, rest, 8);
    }

    proof fn lemma_decode_len(buf: Seq<u8>) {
        lemma_decoded_fits(buf, 8);
    }

    fn encoded_len(&self) -> (r: usize) {
        encoded_u8_varint_len(*self as u8)
    }

    fn encode(&self, buf: &mut [u8]) -> (r: Result<usize, EncodeError>) {
        encode_u8_varint_to(*self as u8, buf)
    }

    fn decode(buf: &[u8]) -> (r: Result<(usize, Self), DecodeError>) {
        match decode_u8_varint(buf) {
            Ok((n, v)) => if v > 1 {
                Err(DecodeError::other(INVALID_BOOL))
            } else {
                Ok((n, v == 1))
            },
            Err(e) => Err(e),
        }
    }
}

} // verus!
