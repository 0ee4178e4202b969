use rand::random;
use souvenir::{decode_suffix, encode_suffix, Error, Suffix};

#[test]
fn suffix_decode_smoke() {
    assert_eq!(
        Ok(0x0110c8531d0952d8d73e1194e95),
        decode_suffix("0123456789abcdefghjkmn").map(Suffix::to_u128)
    );

    assert_eq!(
        Ok(0x000000000000000000000000000),
        decode_suffix("0000000000000000000000").map(Suffix::to_u128)
    );

    assert_eq!(
        Ok(0xfffffffffffffffffffffffffff),
        decode_suffix("7zzzzzzzzzzzzzzzzzzzzz").map(Suffix::to_u128)
    );
}

#[test]
fn round_trip() {
    for _ in 0..100000 {
        let value = random::<u128>() & ((1 << 108) - 1);

        let result = encode_suffix(value.into());
        let parsed = decode_suffix(&result).unwrap();

        assert_eq!(value, parsed.into());
    }
}

#[test]
fn encode_known_values() {
    assert_eq!("0000000000000000000000", encode_suffix(Suffix::new(0)));
    assert_eq!("0000000000000000000001", encode_suffix(Suffix::new(1)));
    assert_eq!("000000000000000000000z", encode_suffix(Suffix::new(31)));
    assert_eq!("0000000000000000000010", encode_suffix(Suffix::new(32)));
    assert_eq!("0123456789abcdefghjkmn", encode_suffix(Suffix::new(0x0110c8531d0952d8d73e1194e95)));
    assert_eq!("7zzzzzzzzzzzzzzzzzzzzz", encode_suffix(Suffix::new((1 << 108) - 1)));
}

#[test]
fn new_keeps_low_bits() {
    assert_eq!(0, Suffix::new(1 << 108).to_u128());
    assert_eq!(5, Suffix::new(u128::MAX << 108 | 5).to_u128());
    assert_eq!((1 << 108) - 1, Suffix::new(u128::MAX).to_u128());
    assert_eq!(0, Suffix::default().to_u128());
}

#[test]
fn alphabet_symbols_in_order() {
    let alphabet = "0123456789abcdefghjkmnpqrstvwxyz";
    for (i, c) in alphabet.chars().enumerate() {
        let text = format!("000000000000000000000{c}");
        assert_eq!(Ok(i as u128), decode_suffix(&text).map(Suffix::to_u128));
        assert_eq!(text, encode_suffix(Suffix::new(i as u128)));
    }
}

#[test]
fn decode_wrong_length() {
    assert_eq!(Err(Error::InvalidLength { expected: 22, found: 0 }), decode_suffix(""));
    assert_eq!(Err(Error::InvalidLength { expected: 22, found: 21 }), decode_suffix("000000000000000000000"));
    assert_eq!(Err(Error::InvalidLength { expected: 22, found: 23 }), decode_suffix("00000000000000000000000"));
}

#[test]
fn decode_first_symbol_above_seven() {
    assert_eq!(Err(Error::InvalidChar { found: '9' }), decode_suffix("9000000000000000000000"));
    assert_eq!(Err(Error::InvalidChar { found: '8' }), decode_suffix("8000000000000000000000"));
    assert_eq!(Err(Error::InvalidChar { found: 'z' }), decode_suffix("zzzzzzzzzzzzzzzzzzzzzz"));
}

#[test]
fn decode_outside_alphabet() {
    for c in ['i', 'l', 'o', 'u', 'A', '_', '-'] {
        let text = format!("00000000000{c}0000000000");
        assert_eq!(Err(Error::InvalidChar { found: c }), decode_suffix(&text));
    }
    assert_eq!(Err(Error::InvalidChar { found: 'u' }), decode_suffix("00000000000u00000i0000"));
}

#[test]
fn every_accepted_text_is_an_encoding() {
    for first in "0123456789abcdefghjkmnpqrstvwxyz".chars() {
        let text = format!("{first}zzzzzzzzzzzzzzzzzzzzz");
        match decode_suffix(&text) {
            Ok(p) => {
                assert!(p.to_u128() < 1 << 108);
                assert_eq!(text, encode_suffix(p));
            }
            Err(e) => assert_eq!(Error::InvalidChar { found: first }, e),
        }
    }
}

#[test]
fn suffix_methods() {
    let suffix = Suffix::parse("0123456789abcdefghjkmn").unwrap();
    assert_eq!("0123456789abcdefghjkmn", suffix.to_string());
    assert_eq!(0x0110c8531d0952d8d73e1194e95u128, u128::from(suffix));
    assert!(Suffix::random().to_u128() < 1 << 108);
    let mut rng = rand::rng();
    assert!(Suffix::random_with(&mut rng).to_u128() < 1 << 108);
}

#[test]
fn decode_counts_bytes() {
    let long = format!("{}\u{e9}", "0".repeat(21));
    assert_eq!(22, long.chars().count());
    assert_eq!(Err(Error::InvalidLength { expected: 22, found: 23 }), decode_suffix(&long));

    let exact = format!("{}\u{e9}", "0".repeat(20));
    assert_eq!(22, exact.len());
    assert_eq!(Err(Error::InvalidChar { found: 0xc3u8 as char }), decode_suffix(&exact));

    let high_first = format!("9{}\u{e9}", "0".repeat(19));
    assert_eq!(22, high_first.len());
    assert_eq!(Err(Error::InvalidChar { found: '9' }), decode_suffix(&high_first));
}
