//! The two 32-symbol alphabets: lowercase letters for tag groups, and a
//! Crockford-style digit set for payload groups.
use vstd::prelude::*;

verus! {

/// The letter for a tag group value: 1 is `a`, 26 is `z`.
pub open spec fn tag_letter(v: int) -> char {
    (v + 96) as u8 as char
}

/// Whether `c` is one of the letters `a`..=`z`.
pub open spec fn is_tag_letter(c: char) -> bool {
    'a' <= c && c <= 'z'
}

/// The group value of a tag letter.
pub open spec fn tag_letter_value(c: char) -> int {
    c as int - 96
}

/// Whether the byte `b` is one of the letters `a`..=`z`.
pub open spec fn is_tag_byte(b: u8) -> bool {
    is_tag_letter(b as char)
}

/// The group value of a tag letter byte.
pub open spec fn tag_byte_value(b: u8) -> int {
    tag_letter_value(b as char)
}

/// The payload alphabet, `0123456789abcdefghjkmnpqrstvwxyz`: the symbol for
/// the five-bit value `v`. The letters `i`, `l`, `o` and `u` are left out.
pub open spec fn payload_symbol(v: int) -> char {
    if v < 10 {
        (v + 48) as u8 as char
    } else if v < 18 {
        (v + 87) as u8 as char
    } else if v < 20 {
        (v + 88) as u8 as char
    } else if v < 22 {
        (v + 89) as u8 as char
    } else if v < 27 {
        (v + 90) as u8 as char
    } else {
        (v + 91) as u8 as char
    }
}

/// Whether `c` belongs to the payload alphabet.
pub open spec fn is_payload_symbol(c: char) -> bool {
    ||| ('0' <= c && c <= '9')
    ||| ('a' <= c && c <= 'h')
    ||| c == 'j' || c == 'k'
    ||| c == 'm' || c == 'n'
    ||| ('p' <= c && c <= 't')
    ||| ('v' <= c && c <= 'z')
}

/// The five-bit value of a payload symbol.
pub open spec fn payload_symbol_value(c: char) -> int {
    if c <= '9' {
        c as int - 48
    } else if c <= 'h' {
        c as int - 87
    } else if c <= 'k' {
        c as int - 88
    } else if c <= 'n' {
        c as int - 89
    } else if c <= 't' {
        c as int - 90
    } else {
        c as int - 91
    }
}

/// Whether the byte `b` is a symbol of the payload alphabet.
pub open spec fn is_payload_byte(b: u8) -> bool {
    is_payload_symbol(b as char)
}

/// The five-bit value of a payload symbol byte.
pub open spec fn payload_byte_value(b: u8) -> int {
    payload_symbol_value(b as char)
}

/// Each value below 32 has a symbol, and the symbol gives the value back.
pub proof fn lemma_payload_symbol_inverse(v: int)
    requires
        0 <= v < 32,
    ensures
        is_payload_symbol(payload_symbol(v)),
        payload_symbol_value(payload_symbol(v)) == v,
        payload_symbol(v) <= '\u{7f}',
        is_payload_byte(payload_symbol(v) as u8),
        payload_byte_value(payload_symbol(v) as u8) == v,
{
}

/// Each symbol byte has a value below 32, whose symbol is that byte.
pub proof fn lemma_payload_byte_inverse(b: u8)
    requires
        is_payload_byte(b),
    ensures
        0 <= payload_byte_value(b) < 32,
        payload_symbol(payload_byte_value(b)) as u8 == b,
{
}

/// Each value from 1 to 26 has a letter, and the letter gives it back.
pub proof fn lemma_tag_letter_inverse(v: int)
    requires
        1 <= v <= 26,
    ensures
        is_tag_letter(tag_letter(v)),
        tag_letter_value(tag_letter(v)) == v,
        tag_letter(v) <= '\u{7f}',
        is_tag_byte(tag_letter(v) as u8),
        tag_byte_value(tag_letter(v) as u8) == v,
{
}

/// Each letter byte has a value from 1 to 26, whose letter is that byte.
pub proof fn lemma_tag_byte_inverse(b: u8)
    requires
        is_tag_byte(b),
    ensures
        1 <= tag_byte_value(b) <= 26,
        tag_letter(tag_byte_value(b)) as u8 == b,
{
}

/// The letter for a tag group value from 1 to 26.
pub fn letter_of(v: u32) -> (c: char)
    requires
        1 <= v <= 26,
    ensures
        c == tag_letter(v as int),
{
    ((v + 96) as u8) as char
}

/// The group value of the byte `b`, if it is a letter `a`..=`z`.
pub fn letter_value(b: u8) -> (r: Option<u32>)
    ensures
        r is Some <==> is_tag_byte(b),
        r matches Some(v) ==> v == tag_byte_value(b) && 1 <= v <= 26,
{
    if 97 <= b && b <= 122 {
        Some(b as u32 - 96)
    } else {
        None
    }
}

/// The payload symbol for a five-bit value.
pub fn symbol_of(v: u8) -> (c: char)
    requires
        v < 32,
    ensures
        c == payload_symbol(v as int),
{
    if v < 10 {
        (v + 48) as char
    } else if v < 18 {
        (v + 87) as char
    } else if v < 20 {
        (v + 88) as char
    } else if v < 22 {
        (v + 89) as char
    } else if v < 27 {
        (v + 90) as char
    } else {
        (v + 91) as char
    }
}

/// The five-bit value of the byte `b`, if it belongs to the payload alphabet.
pub fn symbol_value(b: u8) -> (r: Option<u8>)
    ensures
        r is Some <==> is_payload_byte(b),
        r matches Some(v) ==> v == payload_byte_value(b) && v < 32,
{
    let c = b as char;
    let x = b as u32;
    if '0' <= c && c <= '9' {
        Some((x - 48) as u8)
    } else if 'a' <= c && c <= 'h' {
        Some((x - 87) as u8)
    } else if c == 'j' || c == 'k' {
        Some((x - 88) as u8)
    } else if c == 'm' || c == 'n' {
        Some((x - 89) as u8)
    } else if 'p' <= c && c <= 't' {
        Some((x - 90) as u8)
    } else if 'v' <= c && c <= 'z' {
        Some((x - 91) as u8)
    } else {
        None
    }
}

} // verus!
