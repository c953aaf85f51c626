//! Variable-length (LEB128) integer encoding with verified contracts.
//!
//! Every native integer width has an encoder, a length function and a decoder whose results
//! are stated against one specification of the wire format (`leb128::leb128` and
//! `leb128::decode_leb128`); signed integers go through the zigzag transform, and pairs and
//! calendar values are packed into one integer first. The `Varint` trait states the same
//! contract for every encodable type, with the round trip as a proof obligation, and the
//! sequence and map codecs are proved against it.
//!
//! Two 128-bit values pack into a `U256` (two halves), which has its own verified codec.
//! Adapters cover `char`, `core::time::Duration`, chrono's dates, times and time deltas,
//! chrono-tz's zones, the time crate's dates, times and durations, and complex numbers of
//! integer parts. Not covered here: rational numbers, integers wider than 256 bits or of odd
//! widths (as bnum, ruint, arbitrary-int, primitive-types and ethereum-types provide), and
//! half-precision or 8-bit floats. Floating-point values are outside what the verifier
//! models; `f32`/`f64` codecs over their bit patterns live beside the library.

pub mod calendar;
pub mod complex;
pub mod error;
pub mod leb128;
pub mod packable;
pub mod primitives;
pub mod time_types;
pub mod time_utils;
pub mod tz;
pub mod utils;
pub mod varint;
pub mod wide;
mod character;
mod duration;

pub use error::{
    ConstDecodeError, ConstEncodeError, DecodeError, EncodeError, InsufficientSpace,
};
pub use primitives::{
    decode_i128_varint, decode_i16_varint, decode_i32_varint, decode_i64_varint, decode_i8_varint,
    decode_u128_varint, decode_u16_varint, decode_u32_varint, decode_u64_varint, decode_u8_varint,
    encode_i128_varint, encode_i128_varint_to, encode_i16_varint, encode_i16_varint_to,
    encode_i32_varint, encode_i32_varint_to, encode_i64_varint, encode_i64_varint_to,
    encode_i8_varint, encode_i8_varint_to, encode_u128_varint, encode_u128_varint_to,
    encode_u16_varint, encode_u16_varint_to, encode_u32_varint, encode_u32_varint_to,
    encode_u64_varint, encode_u64_varint_to, encode_u8_varint, encode_u8_varint_to,
    encoded_i128_varint_len, encoded_i16_varint_len, encoded_i32_varint_len,
    encoded_i64_varint_len, encoded_i8_varint_len, encoded_u128_varint_len, encoded_u16_varint_len,
    encoded_u32_varint_len, encoded_u64_varint_len, encoded_u8_varint_len,
};
pub use utils::{
    zigzag_decode_i128, zigzag_decode_i16, zigzag_decode_i32, zigzag_decode_i64, zigzag_decode_i8,
    zigzag_encode_i128, zigzag_encode_i16, zigzag_encode_i32, zigzag_encode_i64, zigzag_encode_i8,
    Buffer,
};
pub use varint::{
    consume_varint, decode_map, decode_sequence, encode_map, encode_sequence, encoded_map_len,
    encoded_sequence_len, map_decoder, sequence_decoder, MapDecoder, SequenceDecoder, Varint,
};
pub use packable::{
    pack_i128, pack_i128_u128, pack_u128, pack_u128_i128, unpack_i128, unpack_i128_u128,
    unpack_u128, unpack_u128_i128,
    pack_i16, pack_i16_i32, pack_i16_i64, pack_i16_i8, pack_i16_u16, pack_i16_u32, pack_i16_u64,
    pack_i16_u8, pack_i32, pack_i32_i16, pack_i32_i64, pack_i32_i8, pack_i32_u16, pack_i32_u32,
    pack_i32_u64, pack_i32_u8, pack_i64, pack_i64_i16, pack_i64_i32, pack_i64_i8, pack_i64_u16,
    pack_i64_u32, pack_i64_u64, pack_i64_u8, pack_i8, pack_i8_i16, pack_i8_i32, pack_i8_i64,
    pack_i8_u16, pack_i8_u32, pack_i8_u64, pack_i8_u8, pack_u16, pack_u16_i16, pack_u16_i32,
    pack_u16_i64, pack_u16_i8, pack_u16_u32, pack_u16_u64, pack_u16_u8, pack_u32, pack_u32_i16,
    pack_u32_i32, pack_u32_i64, pack_u32_i8, pack_u32_u16, pack_u32_u64, pack_u32_u8, pack_u64,
    pack_u64_i16, pack_u64_i32, pack_u64_i64, pack_u64_i8, pack_u64_u16, pack_u64_u32, pack_u64_u8,
    pack_u8, pack_u8_i16, pack_u8_i32, pack_u8_i64, pack_u8_i8, pack_u8_u16, pack_u8_u32,
    pack_u8_u64, unpack_i16, unpack_i16_i32, unpack_i16_i64, unpack_i16_i8, unpack_i16_u16,
    unpack_i16_u32, unpack_i16_u64, unpack_i16_u8, unpack_i32, unpack_i32_i16, unpack_i32_i64,
    unpack_i32_i8, unpack_i32_u16, unpack_i32_u32, unpack_i32_u64, unpack_i32_u8, unpack_i64,
    unpack_i64_i16, unpack_i64_i32, unpack_i64_i8, unpack_i64_u16, unpack_i64_u32, unpack_i64_u64,
    unpack_i64_u8, unpack_i8, unpack_i8_i16, unpack_i8_i32, unpack_i8_i64, unpack_i8_u16,
    unpack_i8_u32, unpack_i8_u64, unpack_i8_u8, unpack_u16, unpack_u16_i16, unpack_u16_i32,
    unpack_u16_i64, unpack_u16_i8, unpack_u16_u32, unpack_u16_u64, unpack_u16_u8, unpack_u32,
    unpack_u32_i16, unpack_u32_i32, unpack_u32_i64, unpack_u32_i8, unpack_u32_u16, unpack_u32_u64,
    unpack_u32_u8, unpack_u64, unpack_u64_i16, unpack_u64_i32, unpack_u64_i64, unpack_u64_i8,
    unpack_u64_u16, unpack_u64_u32, unpack_u64_u8, unpack_u8, unpack_u8_i16, unpack_u8_i32,
    unpack_u8_i64, unpack_u8_i8, unpack_u8_u16, unpack_u8_u32, unpack_u8_u64, Packable,
};
pub use character::{
    decode_char, encode_char, encode_char_to, encoded_char_len,
};
pub use duration::{
    decode_duration, encode_duration, encode_duration_to, encoded_duration_len,
};
pub use wide::{decode_u256_varint, encode_u256_varint, encode_u256_varint_to, encoded_u256_varint_len, U256};
