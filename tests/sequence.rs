use varing::{
    consume_varint, decode_map, decode_sequence, encode_map, encode_sequence, encoded_map_len,
    encoded_sequence_len, map_decoder, sequence_decoder, DecodeError, EncodeError, Varint,
};

#[test]
fn sequence_round_trip() {
    let values = [1u64, 300u64, 127u64];
    let len = encoded_sequence_len(&values);
    assert_eq!(len, 4);
    let mut buf = vec![0u8; len];
    assert_eq!(encode_sequence(&values, &mut buf), Ok(len));
    assert_eq!(buf, vec![0x01, 0xAC, 0x02, 0x7F]);
    let (read, decoded) = decode_sequence::<u64>(&buf).unwrap();
    assert_eq!(decoded, vec![1, 300, 127]);
    assert_eq!(read, len);
}

#[test]
fn sequence_of_many_values() {
    let values: Vec<u64> = (0..1024u64).collect();
    let len = encoded_sequence_len(&values);
    let mut buf = vec![0; len];
    assert_eq!(encode_sequence(&values, &mut buf), Ok(len));
    let (read, decoded) = decode_sequence::<u64>(&buf).unwrap();
    assert_eq!(decoded, values);
    assert_eq!(read, buf.len());
}

#[test]
fn sequence_encode_short_buffer() {
    let values = [1u32, 300u32];
    let mut buf = [0u8; 2];
    match encode_sequence(&values, &mut buf) {
        Err(EncodeError::InsufficientSpace(s)) => {
            assert_eq!(s.requested(), 3);
            assert_eq!(s.available(), 2);
        }
        other => panic!("unexpected {:?}", other),
    }
    assert_eq!(buf, [0, 0]);
}

#[test]
fn sequence_decode_truncated() {
    assert_eq!(
        decode_sequence::<u32>(&[0x01, 0x80]),
        Err(DecodeError::InsufficientData { available: 1 })
    );
}

#[test]
fn sequence_decoder_steps() {
    let values = [5i32, -70000, 0];
    let len = encoded_sequence_len(&values);
    let mut buf = vec![0u8; len];
    encode_sequence(&values, &mut buf).unwrap();
    let mut decoder = sequence_decoder::<i32>(&buf);
    let start = decoder;
    let mut read = 0;
    let mut decoded = Vec::new();
    while let Some(Ok((n, v))) = decoder.next() {
        read += n;
        assert_eq!(read, decoder.position());
        decoded.push(v);
    }
    assert_eq!(start.position(), 0);
    assert_eq!(decoded, values.to_vec());
    assert_eq!(read, len);
    assert!(decoder.next().is_none());
}

#[test]
fn map_round_trip() {
    let entries: Vec<(u64, u64)> = (0..1024u64).map(|v| (v, v * 3)).collect();
    let len = encoded_map_len(&entries);
    let mut buf = vec![0; len];
    assert_eq!(encode_map(&entries, &mut buf), Ok(len));
    let (read, decoded) = decode_map::<u64, u64>(&buf).unwrap();
    assert_eq!(decoded, entries);
    assert_eq!(read, len);

    let mut decoder = map_decoder::<u64, u64>(&buf);
    let mut count = 0;
    while let Some(Ok((_, (k, v)))) = decoder.next() {
        assert_eq!(v, k * 3);
        count += 1;
    }
    assert_eq!(count, 1024);
    assert_eq!(decoder.position(), len);
}

#[test]
fn map_layout() {
    let entries = [(1u8, true), (200u8, false)];
    let mut buf = [0u8; 8];
    assert_eq!(encode_map(&entries, &mut buf), Ok(5));
    assert_eq!(&buf[..5], &[0x01, 0x01, 0xC8, 0x01, 0x00]);
}

#[test]
fn map_decode_missing_value() {
    assert_eq!(
        decode_map::<u8, u8>(&[0x01]),
        Err(DecodeError::InsufficientData { available: 0 })
    );
}

#[test]
fn consume_varint_lengths() {
    assert_eq!(consume_varint(&[0x96, 0x01]), Ok(2));
    assert_eq!(consume_varint(&[0x7F]), Ok(1));
    assert_eq!(consume_varint(&[0x7F, 0x80]), Ok(1));
    assert_eq!(consume_varint(&[]), Err(DecodeError::InsufficientData { available: 0 }));
    assert_eq!(
        consume_varint(&[0x80, 0x80]),
        Err(DecodeError::InsufficientData { available: 2 })
    );
}

#[test]
fn bool_codec() {
    let mut buf = [0u8; 1];
    assert_eq!(true.encode(&mut buf), Ok(1));
    assert_eq!(buf, [1]);
    assert_eq!(<bool as Varint>::decode(&[0]), Ok((1, false)));
    assert_eq!(<bool as Varint>::decode(&[1]), Ok((1, true)));
    assert_eq!(<bool as Varint>::decode(&[2]), Err(DecodeError::Other("invalid boolean value")));
    assert_eq!(true.encoded_len(), 1);
}

#[test]
fn varint_trait_bounds() {
    assert_eq!(<u8 as Varint>::MAX_ENCODED_LEN, 2);
    assert_eq!(<u16 as Varint>::MAX_ENCODED_LEN, 3);
    assert_eq!(<u32 as Varint>::MAX_ENCODED_LEN, 5);
    assert_eq!(<u64 as Varint>::MAX_ENCODED_LEN, 10);
    assert_eq!(<u128 as Varint>::MAX_ENCODED_LEN, 19);
    assert_eq!(<i128 as Varint>::MIN_ENCODED_LEN, 1);
    assert_eq!(u128::MAX.encoded_len(), 19);
    assert_eq!(i128::MIN.encoded_len(), 19);
}
