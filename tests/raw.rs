use rand::random;
use souvenir::raw::{decode_id, decode_prefix, decode_suffix, encode_id, encode_prefix, encode_suffix};
use souvenir::Error;

#[test]
fn prefix_decode() {
    assert_eq!(0b10101_10011_00101_10010, decode_prefix("user").unwrap() >> 108);
    assert_eq!(0b10101_10011_00101_00000, decode_prefix("use").unwrap() >> 108);
    assert_eq!(0b10101_10011_00000_00000, decode_prefix("us").unwrap() >> 108);
    assert_eq!(0b10101_00000_00000_00000, decode_prefix("u").unwrap() >> 108);
}

#[test]
fn prefix_encode() {
    assert_eq!("user", encode_prefix(0b10101_10011_00101_10010 << 108).unwrap(),);
    assert_eq!("use", encode_prefix(0b10101_10011_00101_00000 << 108).unwrap(),);
    assert_eq!("us", encode_prefix(0b10101_10011_00000_00000 << 108).unwrap(),);
    assert_eq!("u", encode_prefix(0b10101_00000_00000_00000 << 108).unwrap(),);
}

#[test]
fn suffix_roundtrip() {
    for _ in 0..100000 {
        let value: u128 = random();

        let result = encode_suffix(value).unwrap();
        let parsed = decode_suffix(&result).unwrap();

        assert_eq!(value & ((1 << 108) - 1), parsed);
    }
}

#[test]
fn encoding_encode_one() {
    let bytes: [u8; 16] = [172, 203, 32, 45, 149, 12, 42, 134, 255, 12, 19, 41, 129, 124, 106, 4];

    assert_eq!("user_02v58c5a3fy30k560qrtg4", encode_id(bytes).unwrap())
}

#[test]
fn encoding_decode_random() {
    assert_eq!(
        [
            0x08, 0x86, 0x00, 0x11, 0x0c, 0x85, 0x31, 0xd0, 0x95, 0x2d, 0x8d, 0x73, 0xe1, 0x19, 0x4e,
            0x95
        ],
        decode_id("abc_0123456789abcdefghjkmn").unwrap()
    );
}

#[test]
fn encoding_decode_min() {
    assert_eq!(
        [
            0x08, 0x00, 0x00, 0x00, 0x00, 0x00, 0x00, 0x00, 0x00, 0x00, 0x00, 0x00, 0x00, 0x00, 0x00,
            0x00
        ],
        decode_id("a_0000000000000000000000").unwrap()
    );
}

#[test]
fn encoding_decode_max() {
    assert_eq!(
        [
            0xd6, 0xb5, 0xaf, 0xff, 0xff, 0xff, 0xff, 0xff, 0xff, 0xff, 0xff, 0xff, 0xff, 0xff, 0xff,
            0xff
        ],
        decode_id("zzzz_7zzzzzzzzzzzzzzzzzzzzz").unwrap()
    );
}

#[test]
fn encoding_decode_invalid() {
    decode_id("80000000000000000000000000").expect_err("should have failed");
}

#[test]
fn round_trip_random() {
    for _ in 0..100000 {
        let value = (random::<u128>() & ((1 << 108) - 1)) | (0x08000 << 108);
        let value = value.to_be_bytes();

        let result = encode_id(value).unwrap();
        let parsed = decode_id(&result).unwrap();

        assert_eq!(value, parsed);
    }
}

#[test]
fn raw_errors() {
    assert_eq!(Err(Error::InvalidData), encode_prefix(0));
    assert_eq!(Err(Error::InvalidData), encode_prefix((5 << 15 | 3 << 5) << 108));
    assert_eq!(Err(Error::InvalidData), encode_id([0u8; 16]));
    assert_eq!(Err(Error::InvalidPrefix), decode_prefix("\0a"));
    assert_eq!(Err(Error::InvalidPrefix), decode_prefix("a\0"));
    assert_eq!(Err(Error::InvalidFormat), decode_id("user"));
    assert_eq!(
        Err(Error::InvalidLength { expected: 22, found: 3 }),
        decode_suffix("abc")
    );
}

#[test]
fn raw_encode_suffix_ignores_top_bits() {
    assert_eq!("0000000000000000000001", encode_suffix(u128::MAX << 108 | 1).unwrap());
}
