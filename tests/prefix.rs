use souvenir::{decode_prefix, encode_prefix, validate_prefix, Error, Prefix};

fn encode_raw(raw: u32) -> String {
    encode_prefix(Prefix::new(raw).unwrap())
}

fn decode_raw(text: &str) -> Result<u32, Error> {
    decode_prefix(text).map(Prefix::to_u32)
}

#[test]
fn encode_smoke() {
    assert_eq!("user", encode_raw(0b10101_10011_00101_10010));
    assert_eq!("use", encode_raw(0b10101_10011_00101_00000));
    assert_eq!("us", encode_raw(0b10101_10011_00000_00000));
    assert_eq!("u", encode_raw(0b10101_00000_00000_00000));
}

#[test]
fn encode_iter() {
    fn format_one(group: u32) -> String {
        if group == 0 {
            return String::new();
        }
        char::from(b'a' + (group - 1) as u8).to_string()
    }

    for i in 0..(1u32 << 20) {
        if validate_prefix(i).is_err() {
            continue;
        }

        let a = i >> 15;
        let b = (i >> 10) & 0x1f;
        let c = (i >> 5) & 0x1f;
        let d = i & 0x1f;

        assert_eq!(
            format!(
                "{}{}{}{}",
                format_one(a),
                format_one(b),
                format_one(c),
                format_one(d),
            ),
            encode_raw(i),
        );
    }
}

#[test]
fn prefix_decode_smoke() {
    assert_eq!(Ok(0b10101_10011_00101_10010), decode_raw("user"));
    assert_eq!(Ok(0b10101_10011_00101_00000), decode_raw("use"));
    assert_eq!(Ok(0b10101_10011_00000_00000), decode_raw("us"));
    assert_eq!(Ok(0b10101_00000_00000_00000), decode_raw("u"));
}

#[test]
fn prefix_decode_invalid() {
    assert_eq!(Err(Error::InvalidPrefix), decode_raw(""));
    assert_eq!(Err(Error::InvalidPrefix), decode_raw("aaaaa"));
    assert_eq!(Err(Error::InvalidPrefix), decode_raw("\0"));
    assert_eq!(Err(Error::InvalidPrefix), decode_raw("A"));
    assert_eq!(Err(Error::InvalidPrefix), decode_raw("!"));
    assert_eq!(Err(Error::InvalidPrefix), decode_raw(" "));
}

#[test]
fn decode_iter() {
    for a in 'a'..='z' {
        let a_val = a as u32 - 'a' as u32 + 1;
        assert_eq!(Ok(a_val << 15), decode_raw(&format!("{a}")));

        for b in 'a'..='z' {
            let b_val = b as u32 - 'a' as u32 + 1;
            assert_eq!(Ok(a_val << 15 | b_val << 10), decode_raw(&format!("{a}{b}")));

            for c in 'a'..='z' {
                let c_val = c as u32 - 'a' as u32 + 1;
                assert_eq!(
                    Ok(a_val << 15 | b_val << 10 | c_val << 5),
                    decode_raw(&format!("{a}{b}{c}"))
                );

                for d in 'a'..='z' {
                    let d_val = d as u32 - 'a' as u32 + 1;
                    assert_eq!(
                        Ok(a_val << 15 | b_val << 10 | c_val << 5 | d_val),
                        decode_raw(&format!("{a}{b}{c}{d}"))
                    );
                }
            }
        }
    }
}

#[test]
fn validate_rejects_gap_in_groups() {
    let raw = 5 << 15 | 3 << 5;
    assert_eq!(Err(Error::InvalidData), validate_prefix(raw));
    assert_eq!(Err(Error::InvalidData), Prefix::new(raw));
}

#[test]
fn validate_rejects_out_of_range_fields() {
    assert_eq!(Err(Error::InvalidData), validate_prefix(0));
    assert_eq!(Err(Error::InvalidData), validate_prefix(27 << 15));
    assert_eq!(Err(Error::InvalidData), validate_prefix(1 << 15 | 27 << 10));
    assert_eq!(Err(Error::InvalidData), validate_prefix(1 << 15 | 1 << 10 | 1 << 5 | 31));
    assert_eq!(Err(Error::InvalidData), validate_prefix(1 << 20));
    assert_eq!(Err(Error::InvalidData), validate_prefix(u32::MAX));
    assert_eq!(Ok(26 << 15 | 26 << 10 | 26 << 5 | 26), validate_prefix(26 << 15 | 26 << 10 | 26 << 5 | 26).map(Prefix::to_u32));
}

#[test]
fn validate_accepts_exactly_canonical_fields() {
    let mut accepted = 0u32;
    for raw in 0..(1u32 << 20) {
        let groups = [raw >> 15, (raw >> 10) & 0x1f, (raw >> 5) & 0x1f, raw & 0x1f];
        let contiguous = groups[0] != 0
            && (groups[1] != 0 || groups[2] == 0)
            && (groups[2] != 0 || groups[3] == 0);
        let in_range = groups.iter().all(|g| *g <= 26);
        assert_eq!(contiguous && in_range, validate_prefix(raw).is_ok());
        if contiguous && in_range {
            accepted += 1;
        }
    }
    assert_eq!(26 + 26 * 26 + 26 * 26 * 26 + 26 * 26 * 26 * 26, accepted);
}

#[test]
fn tag_text_round_trip_and_distinct() {
    let mut seen = std::collections::HashSet::new();
    for raw in 0..(1u32 << 20) {
        if let Ok(prefix) = validate_prefix(raw) {
            let text = encode_prefix(prefix);
            assert_eq!(Ok(raw), decode_raw(&text));
            assert!(seen.insert(text));
        }
    }
}

#[test]
fn prefix_methods() {
    let prefix = Prefix::parse("user").unwrap();
    assert_eq!("user", prefix.to_string());
    assert_eq!(0b10101_10011_00101_10010u32, u32::from(prefix));
    assert_eq!("id", Prefix::default().to_string());
    assert_eq!(Err(Error::InvalidPrefix), Prefix::parse("us_r"));
    let same = Prefix::new_unchecked(prefix.to_u32());
    assert_eq!(prefix, same);
}
