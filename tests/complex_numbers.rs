use varing::complex::{decode_complex_i128, decode_complex_u128, encode_complex_i128_to, encode_complex_u128_to, encoded_complex_i128_len, encoded_complex_u128_len};
use num_complex::Complex;
use varing::complex::{
    decode_complex_i16, decode_complex_i64, decode_complex_u32, decode_complex_u8,
    encode_complex_i16, encode_complex_i64_to, encode_complex_u32, encode_complex_u8,
    encoded_complex_i64_len, encoded_complex_u8_len,
};
use varing::{encode_sequence, decode_sequence, encoded_sequence_len, Varint};

#[test]
fn complex_packs_real_low() {
    let c = Complex { re: 1u8, im: 2u8 };
    let e = encode_complex_u8(c);
    // 1 + 2 * 256 = 513
    assert_eq!(e.as_slice(), &[0x81, 0x04]);
    assert_eq!(encoded_complex_u8_len(c), 2);
    assert_eq!(decode_complex_u8(e.as_slice()), Ok((2, c)));
}

#[test]
fn complex_round_trips() {
    let c = Complex { re: -3i16, im: i16::MIN };
    let e = encode_complex_i16(c);
    assert_eq!(decode_complex_i16(e.as_slice()), Ok((e.len(), c)));
    let c = Complex { re: u32::MAX, im: 0 };
    let e = encode_complex_u32(c);
    assert_eq!(decode_complex_u32(e.as_slice()), Ok((e.len(), c)));
    let c = Complex { re: i64::MIN, im: i64::MAX };
    let mut buf = [0u8; 19];
    let n = encode_complex_i64_to(c, &mut buf).unwrap();
    assert_eq!(n, encoded_complex_i64_len(c));
    assert_eq!(decode_complex_i64(&buf[..n]), Ok((n, c)));
}

#[test]
fn complex_sequences() {
    let values = [Complex { re: 1i32, im: -1 }, Complex { re: 300, im: 7 }];
    let len = encoded_sequence_len(&values);
    let mut buf = vec![0u8; len];
    assert_eq!(encode_sequence(&values, &mut buf), Ok(len));
    assert_eq!(decode_sequence::<Complex<i32>>(&buf), Ok((len, values.to_vec())));
    assert_eq!(Complex { re: 0u64, im: 0 }.encoded_len(), 1);
}

#[test]
fn complex_128_round_trips() {
    let c = Complex { re: u128::MAX, im: 3 };
    let mut buf = [0u8; 37];
    let n = encode_complex_u128_to(&c, &mut buf).unwrap();
    assert_eq!(n, encoded_complex_u128_len(&c));
    assert_eq!(decode_complex_u128(&buf[..n]), Ok((n, c)));
    let c = Complex { re: i128::MIN, im: -1 };
    let n = encode_complex_i128_to(&c, &mut buf).unwrap();
    assert_eq!(n, encoded_complex_i128_len(&c));
    assert_eq!(decode_complex_i128(&buf[..n]), Ok((n, c)));
    assert_eq!(<Complex<u128> as Varint>::decode(&[0x01]), Ok((1, Complex { re: 1, im: 0 })));
}
