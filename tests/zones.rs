use chrono_tz::{Tz, TZ_VARIANTS};
use varing::tz::{decode_tz, encode_tz, encode_tz_to, encoded_tz_len};
use varing::{encode_i16_varint, DecodeError};

#[test]
fn every_zone_round_trips() {
    for tz in TZ_VARIANTS {
        let encoded = encode_tz(tz);
        assert_eq!(encoded.len(), encoded_tz_len(tz));
        assert_eq!(decode_tz(encoded.as_slice()), Ok((encoded.len(), tz)));
        let mut buf = [0u8; 3];
        assert_eq!(encode_tz_to(tz, &mut buf), Ok(encoded.len()));
    }
}

#[test]
fn utc_and_unknown_codes() {
    let encoded = encode_tz(Tz::UTC);
    assert_eq!(decode_tz(encoded.as_slice()).map(|r| r.1), Ok(Tz::UTC));
    let unknown = encode_i16_varint(TZ_VARIANTS.len() as i16);
    assert_eq!(decode_tz(unknown.as_slice()), Err(DecodeError::Other("Invalid timezone value")));
    let negative = encode_i16_varint(-1);
    assert_eq!(decode_tz(negative.as_slice()), Err(DecodeError::Other("Invalid timezone value")));
}
