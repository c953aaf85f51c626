use vstd::arithmetic::power2::pow2;
use vstd::prelude::*;

use num_complex::Complex;

use crate::error::{DecodeError, EncodeError};
use crate::leb128::{
    decode_leb128, encoded_into, leb128, lemma_decode_leb128, lemma_decoded_fits,
    lemma_leb128_len_in_width,
};
use crate::packable::{lemma_split_packed, packed};
use crate::primitives::lemma_width_bounds;
use crate::utils::{lemma_unzigzag_zigzag, lemma_zigzag_range, unzigzag, zigzag, Buffer};
use crate::varint::Varint;
use crate::wide::{decode_u256_varint, encode_u256_varint_to, encoded_u256_varint_len, lemma_pow2_256, two_128};
use crate::packable::{pack_i128, pack_u128, unpack_i128, unpack_u128};
use crate::packable::{pack_u8, unpack_u8, pack_i8, unpack_i8, pack_u16, unpack_u16, pack_i16, unpack_i16, pack_u32, unpack_u32, pack_i32, unpack_i32, pack_u64, unpack_u64, pack_i64, unpack_i64};
use crate::primitives::{encoded_u16_varint_len, encode_u16_varint, encode_u16_varint_to, decode_u16_varint, encoded_u32_varint_len, encode_u32_varint, encode_u32_varint_to, decode_u32_varint, encoded_u64_varint_len, encode_u64_varint, encode_u64_varint_to, decode_u64_varint, encoded_u128_varint_len, encode_u128_varint, encode_u128_varint_to, decode_u128_varint};

verus! {

/// A complex number is its real and imaginary parts, both visible.
#[verifier::external_type_specification]
#[verifier::reject_recursive_types(T)]
pub struct ExComplex<T>(Complex<T>);

/// The number that a `Complex<u8>` encodes as: the real part packed low, the imaginary part
/// high.
pub open spec fn complex_u8_packed(c: Complex<u8>) -> nat {
    packed(c.re as nat, c.im as nat, 8)
}

/// Returns the encoded length of the `Complex<u8>` value.
pub fn encoded_complex_u8_len(val: Complex<u8>) -> (r: usize)
    ensures
        r == leb128(complex_u8_packed(val)).len(),
{
    encoded_u16_varint_len(pack_u8(val.re, val.im))
}

/// Encodes the `Complex<u8>` value and returns it in a buffer.
pub fn encode_complex_u8(val: Complex<u8>) -> (r: Buffer<4>)
    ensures
        r@ == leb128(complex_u8_packed(val)),
{
    encode_u16_varint(pack_u8(val.re, val.im))
}

/// Encodes the `Complex<u8>` value into the provided buffer.
pub fn encode_complex_u8_to(val: Complex<u8>, buf: &mut [u8]) -> (r: Result<usize, EncodeError>)
    ensures
        encoded_into(leb128(complex_u8_packed(val)), old(buf)@, final(buf)@, r),
{
    encode_u16_varint_to(pack_u8(val.re, val.im), buf)
}

/// What decoding a `Complex<u8>` from the front of `buf` gives.
pub open spec fn decode_complex_u8_spec(buf: Seq<u8>) -> Result<(nat, Complex<u8>), DecodeError> {
    match decode_leb128(buf, 16) {
        Ok((n, v)) => Ok((n, Complex { re: (v % 0x100) as u8, im: (v / 0x100) as u8 })),
        Err(e) => Err(e),
    }
}

/// Decodes the `Complex<u8>` value from the provided buffer.
pub fn decode_complex_u8(buf: &[u8]) -> (r: Result<(usize, Complex<u8>), DecodeError>)
    ensures
        match r {
            Ok((n, c)) => decode_complex_u8_spec(buf@) == Ok::<(nat, Complex<u8>), DecodeError>(
                (n as nat, c),
            ),
            Err(e) => decode_complex_u8_spec(buf@) == Err::<(nat, Complex<u8>), DecodeError>(e),
        },
{
    match decode_u16_varint(buf) {
        Ok((n, merged)) => {
            let (re, im) = unpack_u8(merged);
            Ok((n, Complex { re, im }))
        },
        Err(e) => Err(e),
    }
}

impl Varint for Complex<u8> {
    const MIN_ENCODED_LEN: usize = 1;

    const MAX_ENCODED_LEN: usize = 3;

    open spec fn wire(&self) -> Seq<u8> {
        leb128(complex_u8_packed(*self))
    }

    open spec fn wire_decode(buf: Seq<u8>) -> Result<(nat, Self), DecodeError> {
        decode_complex_u8_spec(buf)
    }

    proof fn lemma_wire_len(&self) {
        lemma_width_bounds();
        lemma_packed_fits_u8(*self);
        lemma_leb128_len_in_width(complex_u8_packed(*self), 16);
    }

    proof fn lemma_round_trip(&self, rest: Seq<u8>) {
        lemma_width_bounds();
        lemma_packed_fits_u8(*self);
        lemma_decode_leb128(complex_u8_packed(*self), rest, 16);
        lemma_split_packed(self.re as nat, self.im as nat, 0x100);
    }

    proof fn lemma_decode_len(buf: Seq<u8>) {
        lemma_decoded_fits(buf, 16);
    }

    fn encoded_len(&self) -> (r: usize) {
        encoded_complex_u8_len(*self)
    }

    fn encode(&self, buf: &mut [u8]) -> (r: Result<usize, EncodeError>) {
        encode_complex_u8_to(*self, buf)
    }

    fn decode(buf: &[u8]) -> (r: Result<(usize, Self), DecodeError>) {
        decode_complex_u8(buf)
    }
}

/// The packed form of a `Complex<u8>` fits 16 bits.
proof fn lemma_packed_fits_u8(c: Complex<u8>)
    ensures
        complex_u8_packed(c) < vstd::arithmetic::power2::pow2(16),
{
    lemma_width_bounds();
    let low = c.re as nat;
    let high = c.im as nat;
    assert(low + high * 0x100 < 0x100 * 0x100) by (nonlinear_arith)
        requires
            low < 0x100,
            high < 0x100,
    ;
}

/// The number that a `Complex<i8>` encodes as: the real part packed low, the imaginary part
/// high.
pub open spec fn complex_i8_packed(c: Complex<i8>) -> nat {
    packed(zigzag(c.re as int), zigzag(c.im as int), 8)
}

/// Returns the encoded length of the `Complex<i8>` value.
pub fn encoded_complex_i8_len(val: Complex<i8>) -> (r: usize)
    ensures
        r == leb128(complex_i8_packed(val)).len(),
{
    encoded_u16_varint_len(pack_i8(val.re, val.im))
}

/// Encodes the `Complex<i8>` value and returns it in a buffer.
pub fn encode_complex_i8(val: Complex<i8>) -> (r: Buffer<4>)
    ensures
        r@ == leb128(complex_i8_packed(val)),
{
    encode_u16_varint(pack_i8(val.re, val.im))
}

/// Encodes the `Complex<i8>` value into the provided buffer.
pub fn encode_complex_i8_to(val: Complex<i8>, buf: &mut [u8]) -> (r: Result<usize, EncodeError>)
    ensures
        encoded_into(leb128(complex_i8_packed(val)), old(buf)@, final(buf)@, r),
{
    encode_u16_varint_to(pack_i8(val.re, val.im), buf)
}

/// What decoding a `Complex<i8>` from the front of `buf` gives.
pub open spec fn decode_complex_i8_spec(buf: Seq<u8>) -> Result<(nat, Complex<i8>), DecodeError> {
    match decode_leb128(buf, 16) {
        Ok((n, v)) => Ok((n, Complex { re: unzigzag(v % 0x100) as i8, im: unzigzag(v / 0x100) as i8 })),
        Err(e) => Err(e),
    }
}

/// Decodes the `Complex<i8>` value from the provided buffer.
pub fn decode_complex_i8(buf: &[u8]) -> (r: Result<(usize, Complex<i8>), DecodeError>)
    ensures
        match r {
            Ok((n, c)) => decode_complex_i8_spec(buf@) == Ok::<(nat, Complex<i8>), DecodeError>(
                (n as nat, c),
            ),
            Err(e) => decode_complex_i8_spec(buf@) == Err::<(nat, Complex<i8>), DecodeError>(e),
        },
{
    match decode_u16_varint(buf) {
        Ok((n, merged)) => {
            let (re, im) = unpack_i8(merged);
            Ok((n, Complex { re, im }))
        },
        Err(e) => Err(e),
    }
}

impl Varint for Complex<i8> {
    const MIN_ENCODED_LEN: usize = 1;

    const MAX_ENCODED_LEN: usize = 3;

    open spec fn wire(&self) -> Seq<u8> {
        leb128(complex_i8_packed(*self))
    }

    open spec fn wire_decode(buf: Seq<u8>) -> Result<(nat, Self), DecodeError> {
        decode_complex_i8_spec(buf)
    }

    proof fn lemma_wire_len(&self) {
        lemma_width_bounds();
        lemma_packed_fits_i8(*self);
        lemma_leb128_len_in_width(complex_i8_packed(*self), 16);
    }

    proof fn lemma_round_trip(&self, rest: Seq<u8>) {
        lemma_width_bounds();
        lemma_packed_fits_i8(*self);
        lemma_decode_leb128(complex_i8_packed(*self), rest, 16);
        lemma_zigzag_range(self.re as int, 0x80);
        lemma_zigzag_range(self.im as int, 0x80);
        lemma_split_packed(zigzag(self.re as int), zigzag(self.im as int), 0x100);
        lemma_unzigzag_zigzag(self.re as int);
        lemma_unzigzag_zigzag(self.im as int);
    }

    proof fn lemma_decode_len(buf: Seq<u8>) {
        lemma_decoded_fits(buf, 16);
    }

    fn encoded_len(&self) -> (r: usize) {
        encoded_complex_i8_len(*self)
    }

    fn encode(&self, buf: &mut [u8]) -> (r: Result<usize, EncodeError>) {
        encode_complex_i8_to(*self, buf)
    }

    fn decode(buf: &[u8]) -> (r: Result<(usize, Self), DecodeError>) {
        decode_complex_i8(buf)
    }
}

/// The packed form of a `Complex<i8>` fits 16 bits.
proof fn lemma_packed_fits_i8(c: Complex<i8>)
    ensures
        complex_i8_packed(c) < vstd::arithmetic::power2::pow2(16),
{
    lemma_width_bounds();
    lemma_zigzag_range(c.re as int, 0x80);
    lemma_zigzag_range(c.im as int, 0x80);
    let low = zigzag(c.re as int);
    let high = zigzag(c.im as int);
    assert(low + high * 0x100 < 0x100 * 0x100) by (nonlinear_arith)
        requires
            low < 0x100,
            high < 0x100,
    ;
}

/// The number that a `Complex<u16>` encodes as: the real part packed low, the imaginary part
/// high.
pub open spec fn complex_u16_packed(c: Complex<u16>) -> nat {
    packed(c.re as nat, c.im as nat, 16)
}

/// Returns the encoded length of the `Complex<u16>` value.
pub fn encoded_complex_u16_len(val: Complex<u16>) -> (r: usize)
    ensures
        r == leb128(complex_u16_packed(val)).len(),
{
    encoded_u32_varint_len(pack_u16(val.re, val.im))
}

/// Encodes the `Complex<u16>` value and returns it in a buffer.
pub fn encode_complex_u16(val: Complex<u16>) -> (r: Buffer<6>)
    ensures
        r@ == leb128(complex_u16_packed(val)),
{
    encode_u32_varint(pack_u16(val.re, val.im))
}

/// Encodes the `Complex<u16>` value into the provided buffer.
pub fn encode_complex_u16_to(val: Complex<u16>, buf: &mut [u8]) -> (r: Result<usize, EncodeError>)
    ensures
        encoded_into(leb128(complex_u16_packed(val)), old(buf)@, final(buf)@, r),
{
    encode_u32_varint_to(pack_u16(val.re, val.im), buf)
}

/// What decoding a `Complex<u16>` from the front of `buf` gives.
pub open spec fn decode_complex_u16_spec(buf: Seq<u8>) -> Result<(nat, Complex<u16>), DecodeError> {
    match decode_leb128(buf, 32) {
        Ok((n, v)) => Ok((n, Complex { re: (v % 0x10000) as u16, im: (v / 0x10000) as u16 })),
        Err(e) => Err(e),
    }
}

/// Decodes the `Complex<u16>` value from the provided buffer.
pub fn decode_complex_u16(buf: &[u8]) -> (r: Result<(usize, Complex<u16>), DecodeError>)
    ensures
        match r {
            Ok((n, c)) => decode_complex_u16_spec(buf@) == Ok::<(nat, Complex<u16>), DecodeError>(
                (n as nat, c),
            ),
            Err(e) => decode_complex_u16_spec(buf@) == Err::<(nat, Complex<u16>), DecodeError>(e),
        },
{
    match decode_u32_varint(buf) {
        Ok((n, merged)) => {
            let (re, im) = unpack_u16(merged);
            Ok((n, Complex { re, im }))
        },
        Err(e) => Err(e),
    }
}

impl Varint for Complex<u16> {
    const MIN_ENCODED_LEN: usize = 1;

    const MAX_ENCODED_LEN: usize = 5;

    open spec fn wire(&self) -> Seq<u8> {
        leb128(complex_u16_packed(*self))
    }

    open spec fn wire_decode(buf: Seq<u8>) -> Result<(nat, Self), DecodeError> {
        decode_complex_u16_spec(buf)
    }

    proof fn lemma_wire_len(&self) {
        lemma_width_bounds();
        lemma_packed_fits_u16(*self);
        lemma_leb128_len_in_width(complex_u16_packed(*self), 32);
    }

    proof fn lemma_round_trip(&self, rest: Seq<u8>) {
        lemma_width_bounds();
        lemma_packed_fits_u16(*self);
        lemma_decode_leb128(complex_u16_packed(*self), rest, 32);
        lemma_split_packed(self.re as nat, self.im as nat, 0x10000);
    }

    proof fn lemma_decode_len(buf: Seq<u8>) {
        lemma_decoded_fits(buf, 32);
    }

    fn encoded_len(&self) -> (r: usize) {
        encoded_complex_u16_len(*self)
    }

    fn encode(&self, buf: &mut [u8]) -> (r: Result<usize, EncodeError>) {
        encode_complex_u16_to(*self, buf)
    }

    fn decode(buf: &[u8]) -> (r: Result<(usize, Self), DecodeError>) {
        decode_complex_u16(buf)
    }
}

/// The packed form of a `Complex<u16>` fits 32 bits.
proof fn lemma_packed_fits_u16(c: Complex<u16>)
    ensures
        complex_u16_packed(c) < vstd::arithmetic::power2::pow2(32),
{
    lemma_width_bounds();
    let low = c.re as nat;
    let high = c.im as nat;
    assert(low + high * 0x10000 < 0x10000 * 0x10000) by (nonlinear_arith)
        requires
            low < 0x10000,
            high < 0x10000,
    ;
}

/// The number that a `Complex<i16>` encodes as: the real part packed low, the imaginary part
/// high.
pub open spec fn complex_i16_packed(c: Complex<i16>) -> nat {
    packed(zigzag(c.re as int), zigzag(c.im as int), 16)
}

/// Returns the encoded length of the `Complex<i16>` value.
pub fn encoded_complex_i16_len(val: Complex<i16>) -> (r: usize)
    ensures
        r == leb128(complex_i16_packed(val)).len(),
{
    encoded_u32_varint_len(pack_i16(val.re, val.im))
}

/// Encodes the `Complex<i16>` value and returns it in a buffer.
pub fn encode_complex_i16(val: Complex<i16>) -> (r: Buffer<6>)
    ensures
        r@ == leb128(complex_i16_packed(val)),
{
    encode_u32_varint(pack_i16(val.re, val.im))
}

/// Encodes the `Complex<i16>` value into the provided buffer.
pub fn encode_complex_i16_to(val: Complex<i16>, buf: &mut [u8]) -> (r: Result<usize, EncodeError>)
    ensures
        encoded_into(leb128(complex_i16_packed(val)), old(buf)@, final(buf)@, r),
{
    encode_u32_varint_to(pack_i16(val.re, val.im), buf)
}

/// What decoding a `Complex<i16>` from the front of `buf` gives.
pub open spec fn decode_complex_i16_spec(buf: Seq<u8>) -> Result<(nat, Complex<i16>), DecodeError> {
    match decode_leb128(buf, 32) {
        Ok((n, v)) => Ok((n, Complex { re: unzigzag(v % 0x10000) as i16, im: unzigzag(v / 0x10000) as i16 })),
        Err(e) => Err(e),
    }
}

/// Decodes the `Complex<i16>` value from the provided buffer.
pub fn decode_complex_i16(buf: &[u8]) -> (r: Result<(usize, Complex<i16>), DecodeError>)
    ensures
        match r {
            Ok((n, c)) => decode_complex_i16_spec(buf@) == Ok::<(nat, Complex<i16>), DecodeError>(
                (n as nat, c),
            ),
            Err(e) => decode_complex_i16_spec(buf@) == Err::<(nat, Complex<i16>), DecodeError>(e),
        },
{
    match decode_u32_varint(buf) {
        Ok((n, merged)) => {
            let (re, im) = unpack_i16(merged);
            Ok((n, Complex { re, im }))
        },
        Err(e) => Err(e),
    }
}

impl Varint for Complex<i16> {
    const MIN_ENCODED_LEN: usize = 1;

    const MAX_ENCODED_LEN: usize = 5;

    open spec fn wire(&self) -> Seq<u8> {
        leb128(complex_i16_packed(*self))
    }

    open spec fn wire_decode(buf: Seq<u8>) -> Result<(nat, Self), DecodeError> {
        decode_complex_i16_spec(buf)
    }

    proof fn lemma_wire_len(&self) {
        lemma_width_bounds();
        lemma_packed_fits_i16(*self);
        lemma_leb128_len_in_width(complex_i16_packed(*self), 32);
    }

    proof fn lemma_round_trip(&self, rest: Seq<u8>) {
        lemma_width_bounds();
        lemma_packed_fits_i16(*self);
        lemma_decode_leb128(complex_i16_packed(*self), rest, 32);
        lemma_zigzag_range(self.re as int, 0x8000);
        lemma_zigzag_range(self.im as int, 0x8000);
        lemma_split_packed(zigzag(self.re as int), zigzag(self.im as int), 0x10000);
        lemma_unzigzag_zigzag(self.re as int);
        lemma_unzigzag_zigzag(self.im as int);
    }

    proof fn lemma_decode_len(buf: Seq<u8>) {
        lemma_decoded_fits(buf, 32);
    }

    fn encoded_len(&self) -> (r: usize) {
        encoded_complex_i16_len(*self)
    }

    fn encode(&self, buf: &mut [u8]) -> (r: Result<usize, EncodeError>) {
        encode_complex_i16_to(*self, buf)
    }

    fn decode(buf: &[u8]) -> (r: Result<(usize, Self), DecodeError>) {
        decode_complex_i16(buf)
    }
}

/// The packed form of a `Complex<i16>` fits 32 bits.
proof fn lemma_packed_fits_i16(c: Complex<i16>)
    ensures
        complex_i16_packed(c) < vstd::arithmetic::power2::pow2(32),
{
    lemma_width_bounds();
    lemma_zigzag_range(c.re as int, 0x8000);
    lemma_zigzag_range(c.im as int, 0x8000);
    let low = zigzag(c.re as int);
    let high = zigzag(c.im as int);
    assert(low + high * 0x10000 < 0x10000 * 0x10000) by (nonlinear_arith)
        requires
            low < 0x10000,
            high < 0x10000,
    ;
}

/// The number that a `Complex<u32>` encodes as: the real part packed low, the imaginary part
/// high.
pub open spec fn complex_u32_packed(c: Complex<u32>) -> nat {
    packed(c.re as nat, c.im as nat, 32)
}

/// Returns the encoded length of the `Complex<u32>` value.
pub fn encoded_complex_u32_len(val: Complex<u32>) -> (r: usize)
    ensures
        r == leb128(complex_u32_packed(val)).len(),
{
    encoded_u64_varint_len(pack_u32(val.re, val.im))
}

/// Encodes the `Complex<u32>` value and returns it in a buffer.
pub fn encode_complex_u32(val: Complex<u32>) -> (r: Buffer<11>)
    ensures
        r@ == leb128(complex_u32_packed(val)),
{
    encode_u64_varint(pack_u32(val.re, val.im))
}

/// Encodes the `Complex<u32>` value into the provided buffer.
pub fn encode_complex_u32_to(val: Complex<u32>, buf: &mut [u8]) -> (r: Result<usize, EncodeError>)
    ensures
        encoded_into(leb128(complex_u32_packed(val)), old(buf)@, final(buf)@, r),
{
    encode_u64_varint_to(pack_u32(val.re, val.im), buf)
}

/// What decoding a `Complex<u32>` from the front of `buf` gives.
pub open spec fn decode_complex_u32_spec(buf: Seq<u8>) -> Result<(nat, Complex<u32>), DecodeError> {
    match decode_leb128(buf, 64) {
        Ok((n, v)) => Ok((n, Complex { re: (v % 0x100000000) as u32, im: (v / 0x100000000) as u32 })),
        Err(e) => Err(e),
    }
}

/// Decodes the `Complex<u32>` value from the provided buffer.
pub fn decode_complex_u32(buf: &[u8]) -> (r: Result<(usize, Complex<u32>), DecodeError>)
    ensures
        match r {
            Ok((n, c)) => decode_complex_u32_spec(buf@) == Ok::<(nat, Complex<u32>), DecodeError>(
                (n as nat, c),
            ),
            Err(e) => decode_complex_u32_spec(buf@) == Err::<(nat, Complex<u32>), DecodeError>(e),
        },
{
    match decode_u64_varint(buf) {
        Ok((n, merged)) => {
            let (re, im) = unpack_u32(merged);
            Ok((n, Complex { re, im }))
        },
        Err(e) => Err(e),
    }
}

impl Varint for Complex<u32> {
    const MIN_ENCODED_LEN: usize = 1;

    const MAX_ENCODED_LEN: usize = 10;

    open spec fn wire(&self) -> Seq<u8> {
        leb128(complex_u32_packed(*self))
    }

    open spec fn wire_decode(buf: Seq<u8>) -> Result<(nat, Self), DecodeError> {
        decode_complex_u32_spec(buf)
    }

    proof fn lemma_wire_len(&self) {
        lemma_width_bounds();
        lemma_packed_fits_u32(*self);
        lemma_leb128_len_in_width(complex_u32_packed(*self), 64);
    }

    proof fn lemma_round_trip(&self, rest: Seq<u8>) {
        lemma_width_bounds();
        lemma_packed_fits_u32(*self);
        lemma_decode_leb128(complex_u32_packed(*self), rest, 64);
        lemma_split_packed(self.re as nat, self.im as nat, 0x100000000);
    }

    proof fn lemma_decode_len(buf: Seq<u8>) {
        lemma_decoded_fits(buf, 64);
    }

    fn encoded_len(&self) -> (r: usize) {
        encoded_complex_u32_len(*self)
    }

    fn encode(&self, buf: &mut [u8]) -> (r: Result<usize, EncodeError>) {
        encode_complex_u32_to(*self, buf)
    }

    fn decode(buf: &[u8]) -> (r: Result<(usize, Self), DecodeError>) {
        decode_complex_u32(buf)
    }
}

/// The packed form of a `Complex<u32>` fits 64 bits.
proof fn lemma_packed_fits_u32(c: Complex<u32>)
    ensures
        complex_u32_packed(c) < vstd::arithmetic::power2::pow2(64),
{
    lemma_width_bounds();
    let low = c.re as nat;
    let high = c.im as nat;
    assert(low + high * 0x100000000 < 0x100000000 * 0x100000000) by (nonlinear_arith)
        requires
            low < 0x100000000,
            high < 0x100000000,
    ;
}

/// The number that a `Complex<i32>` encodes as: the real part packed low, the imaginary part
/// high.
pub open spec fn complex_i32_packed(c: Complex<i32>) -> nat {
    packed(zigzag(c.re as int), zigzag(c.im as int), 32)
}

/// Returns the encoded length of the `Complex<i32>` value.
pub fn encoded_complex_i32_len(val: Complex<i32>) -> (r: usize)
    ensures
        r == leb128(complex_i32_packed(val)).len(),
{
    encoded_u64_varint_len(pack_i32(val.re, val.im))
}

/// Encodes the `Complex<i32>` value and returns it in a buffer.
pub fn encode_complex_i32(val: Complex<i32>) -> (r: Buffer<11>)
    ensures
        r@ == leb128(complex_i32_packed(val)),
{
    encode_u64_varint(pack_i32(val.re, val.im))
}

/// Encodes the `Complex<i32>` value into the provided buffer.
pub fn encode_complex_i32_to(val: Complex<i32>, buf: &mut [u8]) -> (r: Result<usize, EncodeError>)
    ensures
        encoded_into(leb128(complex_i32_packed(val)), old(buf)@, final(buf)@, r),
{
    encode_u64_varint_to(pack_i32(val.re, val.im), buf)
}

/// What decoding a `Complex<i32>` from the front of `buf` gives.
pub open spec fn decode_complex_i32_spec(buf: Seq<u8>) -> Result<(nat, Complex<i32>), DecodeError> {
    match decode_leb128(buf, 64) {
        Ok((n, v)) => Ok((n, Complex { re: unzigzag(v % 0x100000000) as i32, im: unzigzag(v / 0x100000000) as i32 })),
        Err(e) => Err(e),
    }
}

/// Decodes the `Complex<i32>` value from the provided buffer.
pub fn decode_complex_i32(buf: &[u8]) -> (r: Result<(usize, Complex<i32>), DecodeError>)
    ensures
        match r {
            Ok((n, c)) => decode_complex_i32_spec(buf@) == Ok::<(nat, Complex<i32>), DecodeError>(
                (n as nat, c),
            ),
            Err(e) => decode_complex_i32_spec(buf@) == Err::<(nat, Complex<i32>), DecodeError>(e),
        },
{
    match decode_u64_varint(buf) {
        Ok((n, merged)) => {
            let (re, im) = unpack_i32(merged);
            Ok((n, Complex { re, im }))
        },
        Err(e) => Err(e),
    }
}

impl Varint for Complex<i32> {
    const MIN_ENCODED_LEN: usize = 1;

    const MAX_ENCODED_LEN: usize = 10;

    open spec fn wire(&self) -> Seq<u8> {
        leb128(complex_i32_packed(*self))
    }

    open spec fn wire_decode(buf: Seq<u8>) -> Result<(nat, Self), DecodeError> {
        decode_complex_i32_spec(buf)
    }

    proof fn lemma_wire_len(&self) {
        lemma_width_bounds();
        lemma_packed_fits_i32(*self);
        lemma_leb128_len_in_width(complex_i32_packed(*self), 64);
    }

    proof fn lemma_round_trip(&self, rest: Seq<u8>) {
        lemma_width_bounds();
        lemma_packed_fits_i32(*self);
        lemma_decode_leb128(complex_i32_packed(*self), rest, 64);
        lemma_zigzag_range(self.re as int, 0x80000000);
        lemma_zigzag_range(self.im as int, 0x80000000);
        lemma_split_packed(zigzag(self.re as int), zigzag(self.im as int), 0x100000000);
        lemma_unzigzag_zigzag(self.re as int);
        lemma_unzigzag_zigzag(self.im as int);
    }

    proof fn lemma_decode_len(buf: Seq<u8>) {
        lemma_decoded_fits(buf, 64);
    }

    fn encoded_len(&self) -> (r: usize) {
        encoded_complex_i32_len(*self)
    }

    fn encode(&self, buf: &mut [u8]) -> (r: Result<usize, EncodeError>) {
        encode_complex_i32_to(*self, buf)
    }

    fn decode(buf: &[u8]) -> (r: Result<(usize, Self), DecodeError>) {
        decode_complex_i32(buf)
    }
}

/// The packed form of a `Complex<i32>` fits 64 bits.
proof fn lemma_packed_fits_i32(c: Complex<i32>)
    ensures
        complex_i32_packed(c) < vstd::arithmetic::power2::pow2(64),
{
    lemma_width_bounds();
    lemma_zigzag_range(c.re as int, 0x80000000);
    lemma_zigzag_range(c.im as int, 0x80000000);
    let low = zigzag(c.re as int);
    let high = zigzag(c.im as int);
    assert(low + high * 0x100000000 < 0x100000000 * 0x100000000) by (nonlinear_arith)
        requires
            low < 0x100000000,
            high < 0x100000000,
    ;
}

/// The number that a `Complex<u64>` encodes as: the real part packed low, the imaginary part
/// high.
pub open spec fn complex_u64_packed(c: Complex<u64>) -> nat {
    packed(c.re as nat, c.im as nat, 64)
}

/// Returns the encoded length of the `Complex<u64>` value.
pub fn encoded_complex_u64_len(val: Complex<u64>) -> (r: usize)
    ensures
        r == leb128(complex_u64_packed(val)).len(),
{
    encoded_u128_varint_len(pack_u64(val.re, val.im))
}

/// Encodes the `Complex<u64>` value and returns it in a buffer.
pub fn encode_complex_u64(val: Complex<u64>) -> (r: Buffer<20>)
    ensures
        r@ == leb128(complex_u64_packed(val)),
{
    encode_u128_varint(pack_u64(val.re, val.im))
}

/// Encodes the `Complex<u64>` value into the provided buffer.
pub fn encode_complex_u64_to(val: Complex<u64>, buf: &mut [u8]) -> (r: Result<usize, EncodeError>)
    ensures
        encoded_into(leb128(complex_u64_packed(val)), old(buf)@, final(buf)@, r),
{
    encode_u128_varint_to(pack_u64(val.re, val.im), buf)
}

/// What decoding a `Complex<u64>` from the front of `buf` gives.
pub open spec fn decode_complex_u64_spec(buf: Seq<u8>) -> Result<(nat, Complex<u64>), DecodeError> {
    match decode_leb128(buf, 128) {
        Ok((n, v)) => Ok((n, Complex { re: (v % 0x10000000000000000) as u64, im: (v / 0x10000000000000000) as u64 })),
        Err(e) => Err(e),
    }
}

/// Decodes the `Complex<u64>` value from the provided buffer.
pub fn decode_complex_u64(buf: &[u8]) -> (r: Result<(usize, Complex<u64>), DecodeError>)
    ensures
        match r {
            Ok((n, c)) => decode_complex_u64_spec(buf@) == Ok::<(nat, Complex<u64>), DecodeError>(
                (n as nat, c),
            ),
            Err(e) => decode_complex_u64_spec(buf@) == Err::<(nat, Complex<u64>), DecodeError>(e),
        },
{
    match decode_u128_varint(buf) {
        Ok((n, merged)) => {
            let (re, im) = unpack_u64(merged);
            Ok((n, Complex { re, im }))
        },
        Err(e) => Err(e),
    }
}

impl Varint for Complex<u64> {
    const MIN_ENCODED_LEN: usize = 1;

    const MAX_ENCODED_LEN: usize = 19;

    open spec fn wire(&self) -> Seq<u8> {
        leb128(complex_u64_packed(*self))
    }

    open spec fn wire_decode(buf: Seq<u8>) -> Result<(nat, Self), DecodeError> {
        decode_complex_u64_spec(buf)
    }

    proof fn lemma_wire_len(&self) {
        lemma_width_bounds();
        lemma_packed_fits_u64(*self);
        lemma_leb128_len_in_width(complex_u64_packed(*self), 128);
    }

    proof fn lemma_round_trip(&self, rest: Seq<u8>) {
        lemma_width_bounds();
        lemma_packed_fits_u64(*self);
        lemma_decode_leb128(complex_u64_packed(*self), rest, 128);
        lemma_split_packed(self.re as nat, self.im as nat, 0x10000000000000000);
    }

    proof fn lemma_decode_len(buf: Seq<u8>) {
        lemma_decoded_fits(buf, 128);
    }

    fn encoded_len(&self) -> (r: usize) {
        encoded_complex_u64_len(*self)
    }

    fn encode(&self, buf: &mut [u8]) -> (r: Result<usize, EncodeError>) {
        encode_complex_u64_to(*self, buf)
    }

    fn decode(buf: &[u8]) -> (r: Result<(usize, Self), DecodeError>) {
        decode_complex_u64(buf)
    }
}

/// The packed form of a `Complex<u64>` fits 128 bits.
proof fn lemma_packed_fits_u64(c: Complex<u64>)
    ensures
        complex_u64_packed(c) < vstd::arithmetic::power2::pow2(128),
{
    lemma_width_bounds();
    let low = c.re as nat;
    let high = c.im as nat;
    assert(low + high * 0x10000000000000000 < 0x10000000000000000 * 0x10000000000000000) by (nonlinear_arith)
        requires
            low < 0x10000000000000000,
            high < 0x10000000000000000,
    ;
}

/// The number that a `Complex<i64>` encodes as: the real part packed low, the imaginary part
/// high.
pub open spec fn complex_i64_packed(c: Complex<i64>) -> nat {
    packed(zigzag(c.re as int), zigzag(c.im as int), 64)
}

/// Returns the encoded length of the `Complex<i64>` value.
pub fn encoded_complex_i64_len(val: Complex<i64>) -> (r: usize)
    ensures
        r == leb128(complex_i64_packed(val)).len(),
{
    encoded_u128_varint_len(pack_i64(val.re, val.im))
}

/// Encodes the `Complex<i64>` value and returns it in a buffer.
pub fn encode_complex_i64(val: Complex<i64>) -> (r: Buffer<20>)
    ensures
        r@ == leb128(complex_i64_packed(val)),
{
    encode_u128_varint(pack_i64(val.re, val.im))
}

/// Encodes the `Complex<i64>` value into the provided buffer.
pub fn encode_complex_i64_to(val: Complex<i64>, buf: &mut [u8]) -> (r: Result<usize, EncodeError>)
    ensures
        encoded_into(leb128(complex_i64_packed(val)), old(buf)@, final(buf)@, r),
{
    encode_u128_varint_to(pack_i64(val.re, val.im), buf)
}

/// What decoding a `Complex<i64>` from the front of `buf` gives.
pub open spec fn decode_complex_i64_spec(buf: Seq<u8>) -> Result<(nat, Complex<i64>), DecodeError> {
    match decode_leb128(buf, 128) {
        Ok((n, v)) => Ok((n, Complex { re: unzigzag(v % 0x10000000000000000) as i64, im: unzigzag(v / 0x10000000000000000) as i64 })),
        Err(e) => Err(e),
    }
}

/// Decodes the `Complex<i64>` value from the provided buffer.
pub fn decode_complex_i64(buf: &[u8]) -> (r: Result<(usize, Complex<i64>), DecodeError>)
    ensures
        match r {
            Ok((n, c)) => decode_complex_i64_spec(buf@) == Ok::<(nat, Complex<i64>), DecodeError>(
                (n as nat, c),
            ),
            Err(e) => decode_complex_i64_spec(buf@) == Err::<(nat, Complex<i64>), DecodeError>(e),
        },
{
    match decode_u128_varint(buf) {
        Ok((n, merged)) => {
            let (re, im) = unpack_i64(merged);
            Ok((n, Complex { re, im }))
        },
        Err(e) => Err(e),
    }
}

impl Varint for Complex<i64> {
    const MIN_ENCODED_LEN: usize = 1;

    const MAX_ENCODED_LEN: usize = 19;

    open spec fn wire(&self) -> Seq<u8> {
        leb128(complex_i64_packed(*self))
    }

    open spec fn wire_decode(buf: Seq<u8>) -> Result<(nat, Self), DecodeError> {
        decode_complex_i64_spec(buf)
    }

    proof fn lemma_wire_len(&self) {
        lemma_width_bounds();
        lemma_packed_fits_i64(*self);
        lemma_leb128_len_in_width(complex_i64_packed(*self), 128);
    }

    proof fn lemma_round_trip(&self, rest: Seq<u8>) {
        lemma_width_bounds();
        lemma_packed_fits_i64(*self);
        lemma_decode_leb128(complex_i64_packed(*self), rest, 128);
        lemma_zigzag_range(self.re as int, 0x8000000000000000);
        lemma_zigzag_range(self.im as int, 0x8000000000000000);
        lemma_split_packed(zigzag(self.re as int), zigzag(self.im as int), 0x10000000000000000);
        lemma_unzigzag_zigzag(self.re as int);
        lemma_unzigzag_zigzag(self.im as int);
    }

    proof fn lemma_decode_len(buf: Seq<u8>) {
        lemma_decoded_fits(buf, 128);
    }

    fn encoded_len(&self) -> (r: usize) {
        encoded_complex_i64_len(*self)
    }

    fn encode(&self, buf: &mut [u8]) -> (r: Result<usize, EncodeError>) {
        encode_complex_i64_to(*self, buf)
    }

    fn decode(buf: &[u8]) -> (r: Result<(usize, Self), DecodeError>) {
        decode_complex_i64(buf)
    }
}

/// The packed form of a `Complex<i64>` fits 128 bits.
proof fn lemma_packed_fits_i64(c: Complex<i64>)
    ensures
        complex_i64_packed(c) < vstd::arithmetic::power2::pow2(128),
{
    lemma_width_bounds();
    lemma_zigzag_range(c.re as int, 0x8000000000000000);
    lemma_zigzag_range(c.im as int, 0x8000000000000000);
    let low = zigzag(c.re as int);
    let high = zigzag(c.im as int);
    assert(low + high * 0x10000000000000000 < 0x10000000000000000 * 0x10000000000000000) by (nonlinear_arith)
        requires
            low < 0x10000000000000000,
            high < 0x10000000000000000,
    ;
}

/// The number that a `Complex<u128>` encodes as: the real part packed low, the imaginary part
/// high, in 256 bits.
pub open spec fn complex_u128_packed(c: Complex<u128>) -> nat {
    packed(c.re as nat, c.im as nat, 128)
}

/// The packed form of a `Complex<u128>` fits 256 bits, and splits back into its parts.
proof fn lemma_packed_fits_u128(c: Complex<u128>)
    ensures
        complex_u128_packed(c) < pow2(256),
        complex_u128_packed(c) % two_128() == c.re as nat,
        complex_u128_packed(c) / two_128() == c.im as nat,
{
    lemma_pow2_256();
    let low = c.re as nat;
    let high = c.im as nat;
    assert(low + high * two_128() < two_128() * two_128()) by (nonlinear_arith)
        requires
            low < two_128(),
            high < two_128(),
    ;
    lemma_split_packed(low, high, two_128());
}

/// Returns the encoded length of the `Complex<u128>` value.
pub fn encoded_complex_u128_len(val: &Complex<u128>) -> (r: usize)
    ensures
        r == leb128(complex_u128_packed(*val)).len(),
{
    encoded_u256_varint_len(pack_u128(val.re, val.im))
}

/// Encodes the `Complex<u128>` value into the provided buffer.
pub fn encode_complex_u128_to(val: &Complex<u128>, buf: &mut [u8]) -> (r: Result<usize, EncodeError>)
    ensures
        encoded_into(leb128(complex_u128_packed(*val)), old(buf)@, final(buf)@, r),
{
    encode_u256_varint_to(pack_u128(val.re, val.im), buf)
}

/// What decoding a `Complex<u128>` from the front of `buf` gives.
pub open spec fn decode_complex_u128_spec(buf: Seq<u8>) -> Result<(nat, Complex<u128>), DecodeError> {
    match decode_leb128(buf, 256) {
        Ok((n, v)) => Ok((n, Complex { re: (v % two_128()) as u128, im: (v / two_128()) as u128 })),
        Err(e) => Err(e),
    }
}

/// Decodes the `Complex<u128>` from the given buffer.
///
/// Returns the bytes read and the value.
pub fn decode_complex_u128(buf: &[u8]) -> (r: Result<(usize, Complex<u128>), DecodeError>)
    ensures
        match r {
            Ok((n, c)) => decode_complex_u128_spec(buf@) == Ok::<(nat, Complex<u128>), DecodeError>(
                (n as nat, c),
            ),
            Err(e) => decode_complex_u128_spec(buf@) == Err::<(nat, Complex<u128>), DecodeError>(e),
        },
{
    match decode_u256_varint(buf) {
        Ok((n, merged)) => {
            let (re, im) = unpack_u128(merged);
            Ok((n, Complex { re, im }))
        },
        Err(e) => Err(e),
    }
}

impl Varint for Complex<u128> {
    const MIN_ENCODED_LEN: usize = 1;

    const MAX_ENCODED_LEN: usize = 37;

    open spec fn wire(&self) -> Seq<u8> {
        leb128(complex_u128_packed(*self))
    }

    open spec fn wire_decode(buf: Seq<u8>) -> Result<(nat, Self), DecodeError> {
        decode_complex_u128_spec(buf)
    }

    proof fn lemma_wire_len(&self) {
        lemma_packed_fits_u128(*self);
        vstd::arithmetic::power2::lemma_pow2_strictly_increases(256, 259);
        crate::leb128::lemma_leb128_len(complex_u128_packed(*self), 37);
    }

    proof fn lemma_round_trip(&self, rest: Seq<u8>) {
        lemma_packed_fits_u128(*self);
        lemma_decode_leb128(complex_u128_packed(*self), rest, 256);
    }

    proof fn lemma_decode_len(buf: Seq<u8>) {
        lemma_decoded_fits(buf, 256);
    }

    fn encoded_len(&self) -> (r: usize) {
        encoded_complex_u128_len(self)
    }

    fn encode(&self, buf: &mut [u8]) -> (r: Result<usize, EncodeError>) {
        encode_complex_u128_to(self, buf)
    }

    fn decode(buf: &[u8]) -> (r: Result<(usize, Self), DecodeError>) {
        decode_complex_u128(buf)
    }
}

/// The number that a `Complex<i128>` encodes as: the real part packed low, the imaginary part
/// high, in 256 bits.
pub open spec fn complex_i128_packed(c: Complex<i128>) -> nat {
    packed(zigzag(c.re as int), zigzag(c.im as int), 128)
}

/// The packed form of a `Complex<i128>` fits 256 bits, and splits back into its parts.
proof fn lemma_packed_fits_i128(c: Complex<i128>)
    ensures
        complex_i128_packed(c) < pow2(256),
        complex_i128_packed(c) % two_128() == zigzag(c.re as int),
        complex_i128_packed(c) / two_128() == zigzag(c.im as int),
{
    lemma_pow2_256();
    lemma_zigzag_range(c.re as int, 0x8000_0000_0000_0000_0000_0000_0000_0000);
    lemma_zigzag_range(c.im as int, 0x8000_0000_0000_0000_0000_0000_0000_0000);
    let low = zigzag(c.re as int);
    let high = zigzag(c.im as int);
    assert(low + high * two_128() < two_128() * two_128()) by (nonlinear_arith)
        requires
            low < two_128(),
            high < two_128(),
    ;
    lemma_split_packed(low, high, two_128());
}

/// Returns the encoded length of the `Complex<i128>` value.
pub fn encoded_complex_i128_len(val: &Complex<i128>) -> (r: usize)
    ensures
        r == leb128(complex_i128_packed(*val)).len(),
{
    encoded_u256_varint_len(pack_i128(val.re, val.im))
}

/// Encodes the `Complex<i128>` value into the provided buffer.
pub fn encode_complex_i128_to(val: &Complex<i128>, buf: &mut [u8]) -> (r: Result<usize, EncodeError>)
    ensures
        encoded_into(leb128(complex_i128_packed(*val)), old(buf)@, final(buf)@, r),
{
    encode_u256_varint_to(pack_i128(val.re, val.im), buf)
}

/// What decoding a `Complex<i128>` from the front of `buf` gives.
pub open spec fn decode_complex_i128_spec(buf: Seq<u8>) -> Result<(nat, Complex<i128>), DecodeError> {
    match decode_leb128(buf, 256) {
        Ok((n, v)) => Ok((n, Complex { re: unzigzag(v % two_128()) as i128, im: unzigzag(v / two_128()) as i128 })),
        Err(e) => Err(e),
    }
}

/// Decodes the `Complex<i128>` from the given buffer.
///
/// Returns the bytes read and the value.
pub fn decode_complex_i128(buf: &[u8]) -> (r: Result<(usize, Complex<i128>), DecodeError>)
    ensures
        match r {
            Ok((n, c)) => decode_complex_i128_spec(buf@) == Ok::<(nat, Complex<i128>), DecodeError>(
                (n as nat, c),
            ),
            Err(e) => decode_complex_i128_spec(buf@) == Err::<(nat, Complex<i128>), DecodeError>(e),
        },
{
    match decode_u256_varint(buf) {
        Ok((n, merged)) => {
            let (re, im) = unpack_i128(merged);
            Ok((n, Complex { re, im }))
        },
        Err(e) => Err(e),
    }
}

impl Varint for Complex<i128> {
    const MIN_ENCODED_LEN: usize = 1;

    const MAX_ENCODED_LEN: usize = 37;

    open spec fn wire(&self) -> Seq<u8> {
        leb128(complex_i128_packed(*self))
    }

    open spec fn wire_decode(buf: Seq<u8>) -> Result<(nat, Self), DecodeError> {
        decode_complex_i128_spec(buf)
    }

    proof fn lemma_wire_len(&self) {
        lemma_packed_fits_i128(*self);
        vstd::arithmetic::power2::lemma_pow2_strictly_increases(256, 259);
        crate::leb128::lemma_leb128_len(complex_i128_packed(*self), 37);
    }

    proof fn lemma_round_trip(&self, rest: Seq<u8>) {
        lemma_packed_fits_i128(*self);
        lemma_decode_leb128(complex_i128_packed(*self), rest, 256);
        lemma_unzigzag_zigzag(self.re as int);
        lemma_unzigzag_zigzag(self.im as int);
    }

    proof fn lemma_decode_len(buf: Seq<u8>) {
        lemma_decoded_fits(buf, 256);
    }

    fn encoded_len(&self) -> (r: usize) {
        encoded_complex_i128_len(self)
    }

    fn encode(&self, buf: &mut [u8]) -> (r: Result<usize, EncodeError>) {
        encode_complex_i128_to(self, buf)
    }

    fn decode(buf: &[u8]) -> (r: Result<(usize, Self), DecodeError>) {
        decode_complex_i128(buf)
    }
}

} // verus!
