use varing::{decode_u256_varint, encode_u256_varint, encoded_u256_varint_len, pack_i128, pack_u128, pack_u128_i128, unpack_i128, unpack_u128, unpack_u128_i128, U256};
use varing::DecodeError;
use varing::{
    pack_i16_i8, pack_i32, pack_i8, pack_u16_i16, pack_u16_u8, pack_u32, pack_u32_u64, pack_u64,
    pack_u8, pack_u8_u16, unpack_i32, unpack_i8, unpack_i8_i16, unpack_u16_i16, unpack_u16_u8,
    unpack_u32, unpack_u64, unpack_u64_u32, unpack_u8, unpack_u8_u16, Packable,
};

#[test]
fn pack_places_low_then_high() {
    assert_eq!(pack_u8(0x12, 0x34), 0x3412);
    assert_eq!(unpack_u8(0x3412), (0x12, 0x34));
    assert_eq!(pack_u32(1, 2), (2u64 << 32) | 1);
    assert_eq!(unpack_u64(pack_u64(u64::MAX, 7)), (u64::MAX, 7));
}

#[test]
fn pack_signed_zigzags() {
    assert_eq!(pack_i8(-1, 1), 0x0201);
    assert_eq!(unpack_i8(0x0201), (-1, 1));
    assert_eq!(unpack_i32(pack_i32(i32::MIN, i32::MAX)), (i32::MIN, i32::MAX));
    assert_eq!(pack_u16_i16(5, -1), 0x0001_0005);
    assert_eq!(unpack_u16_i16(0x0001_0005), (5, -1));
}

#[test]
fn packable_trait_round_trip() {
    let packed: u128 = 3u64.pack(&9u64);
    assert_eq!(<u64 as Packable<u64, u128>>::unpack(packed), (3, 9));
    let packed: u32 = (-7i16).pack(&40000u16);
    assert_eq!(<i16 as Packable<u16, u32>>::unpack(packed), (-7, 40000));
    assert_eq!(unpack_u32(pack_u32(0, u32::MAX)), (0, u32::MAX));
}

#[test]
fn mixed_width_narrower_goes_low() {
    assert_eq!(pack_u8_u16(0xAB, 0x1234), 0x0012_34AB);
    assert_eq!(pack_u16_u8(0x1234, 0xAB), 0x0012_34AB);
    assert_eq!(unpack_u8_u16(0x0012_34AB), (0xAB, 0x1234));
    assert_eq!(unpack_u16_u8(0x0012_34AB), (0x1234, 0xAB));
    assert_eq!(unpack_u8_u16(0xFF12_34AB), (0xAB, 0x1234));
    assert_eq!(pack_i16_i8(-2, -1), (3u32 << 8) | 1);
    assert_eq!(unpack_i8_i16((3u32 << 8) | 1), (-1, -2));
    assert_eq!(pack_u32_u64(u32::MAX, u64::MAX), ((u64::MAX as u128) << 32) | u32::MAX as u128);
    assert_eq!(unpack_u64_u32(pack_u32_u64(7, 9)), (9, 7));
}

#[test]
fn mixed_width_packable_round_trip() {
    let p: u64 = (-5i16).pack(&123_456u32);
    assert_eq!(<i16 as Packable<u32, u64>>::unpack(p), (-5, 123_456));
    let p: u128 = u64::MAX.pack(&-1i8);
    assert_eq!(<u64 as Packable<i8, u128>>::unpack(p), (u64::MAX, -1));
}

#[test]
fn pack_two_u128_into_u256() {
    let p = pack_u128(5, 7);
    assert_eq!(p, U256 { low: 5, high: 7 });
    assert_eq!(unpack_u128(p), (5, 7));
    assert_eq!(unpack_i128(pack_i128(i128::MIN, -1)), (i128::MIN, -1));
    assert_eq!(pack_i128(-1, 1), U256 { low: 1, high: 2 });
    assert_eq!(unpack_u128_i128(pack_u128_i128(u128::MAX, i128::MIN)), (u128::MAX, i128::MIN));
    let p: U256 = 9u128.pack(&u128::MAX);
    assert_eq!(<u128 as Packable<u128, U256>>::unpack(p), (9, u128::MAX));
    let p: U256 = (-3i128).pack(&4u128);
    assert_eq!(<i128 as Packable<u128, U256>>::unpack(p), (-3, 4));

    for v in [
        U256 { low: 0, high: 0 },
        U256 { low: 127, high: 0 },
        U256 { low: 128, high: 0 },
        U256 { low: u128::MAX, high: 0 },
        U256 { low: 0, high: 1 },
        U256 { low: u128::MAX, high: u128::MAX },
    ] {
        let e = encode_u256_varint(v);
        assert_eq!(e.len(), encoded_u256_varint_len(v));
        assert_eq!(decode_u256_varint(e.as_slice()), Ok((e.len(), v)));
    }
    let max = encode_u256_varint(U256 { low: u128::MAX, high: u128::MAX });
    assert_eq!(max.len(), 37);
    assert_eq!(max.as_slice()[36], 0x0F);
    // 2^128 is 0x80 x 18 then 0x04
    let e = encode_u256_varint(U256 { low: 0, high: 1 });
    assert_eq!(e.len(), 19);
    assert_eq!(e.as_slice()[18], 0x04);
}

#[test]
fn u256_decode_errors() {
    let mut over = vec![0xFFu8; 36];
    over.push(0x10);
    assert_eq!(decode_u256_varint(&over), Err(DecodeError::Overflow));
    assert_eq!(decode_u256_varint(&[0x80u8; 37]), Err(DecodeError::Overflow));
    assert_eq!(
        decode_u256_varint(&[0x80u8; 36]),
        Err(DecodeError::InsufficientData { available: 36 })
    );
}

#[test]
fn zero() {
    let output = pack_u128(0, 0);
    assert_eq!(output, U256 { low: 0, high: 0 });
    let (lhs, rhs) = unpack_u128(output);
    assert_eq!(lhs, 0);
    assert_eq!(rhs, 0);
}
