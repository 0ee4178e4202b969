//! Tags: one to four lowercase letters packed into a 20-bit field.
//!
//! The field is read as four five-bit groups, most significant first. A group
//! holds 0 (no letter) or 1..=26 (`a`..=`z`). The field is canonical when the
//! first group holds a letter, every group is at most 26, and no letter comes
//! after an empty group. Canonical fields and tag texts correspond one to one.
use vstd::prelude::*;
use vstd::string::StringSliceAdditionalSpecFns;
use vstd::arithmetic::div_mod::{lemma_fundamental_div_mod, lemma_fundamental_div_mod_converse};
use crate::alphabet::{is_tag_byte, letter_of, letter_value, tag_byte_value, tag_letter, lemma_tag_byte_inverse, lemma_tag_letter_inverse};
use crate::error::Error;
use crate::text::{ascii_bytes, lemma_ascii_encode, push_char};
use vstd::utf8::{encode_utf8, is_ascii_chars};

verus! {

/// One more than the largest tag field: tags take 20 bits.
pub const TAG_LIMIT: u32 = 0x10_0000;

/// Group `i` (0 to 3, most significant first) of a tag field.
pub open spec fn tag_group(raw: int, i: int) -> int {
    if i == 0 {
        (raw / 32768) % 32
    } else if i == 1 {
        (raw / 1024) % 32
    } else if i == 2 {
        (raw / 32) % 32
    } else {
        raw % 32
    }
}

/// Whether a tag field is canonical: below 2^20, every group at most 26, the
/// first group not empty, and no letter after an empty group.
pub open spec fn is_canonical_tag(raw: int) -> bool {
    let a = tag_group(raw, 0);
    let b = tag_group(raw, 1);
    let c = tag_group(raw, 2);
    let d = tag_group(raw, 3);
    &&& 0 <= raw < TAG_LIMIT
    &&& 1 <= a <= 26 && b <= 26 && c <= 26 && d <= 26
    &&& (b == 0 ==> c == 0)
    &&& (c == 0 ==> d == 0)
}

/// The number of letters of a tag field: its leading non-empty groups.
pub open spec fn tag_len(raw: int) -> int {
    if tag_group(raw, 1) == 0 {
        1
    } else if tag_group(raw, 2) == 0 {
        2
    } else if tag_group(raw, 3) == 0 {
        3
    } else {
        4
    }
}

/// The text of a tag field: the letters of its leading non-empty groups.
pub open spec fn tag_text(raw: int) -> Seq<char> {
    Seq::new(tag_len(raw) as nat, |i: int| tag_letter(tag_group(raw, i)))
}

/// Whether the bytes `s` spell a tag: one to four letters `a`..=`z`.
pub open spec fn is_tag_text(s: Seq<u8>) -> bool {
    &&& 1 <= s.len() <= 4
    &&& forall|i: int| 0 <= i < s.len() ==> is_tag_byte(#[trigger] s[i])
}

/// The group value that position `i` of a tag text puts in the field: its
/// letter's value, or 0 past the end of the text.
pub open spec fn text_group(s: Seq<u8>, i: int) -> int {
    if i < s.len() {
        tag_byte_value(s[i])
    } else {
        0
    }
}

/// The tag field that a tag text spells: its letters fill the groups from the
/// most significant one, and the groups left over are empty.
pub open spec fn tag_value(s: Seq<u8>) -> int {
    text_group(s, 0) * 32768 + text_group(s, 1) * 1024 + text_group(s, 2) * 32 + text_group(s, 3)
}

/// A valid tag: a canonical 20-bit field.
#[derive(Debug, Clone, Copy, Hash, PartialEq, Eq, Structural, PartialOrd, Ord)]
pub struct Prefix {
    raw: u32,
}

impl View for Prefix {
    type V = u32;

    closed spec fn view(&self) -> u32 {
        self.raw
    }
}

impl Prefix {
    #[verifier::type_invariant]
    spec fn canonical(self) -> bool {
        is_canonical_tag(self.raw as int)
    }

    /// The tag with the field `value`; `InvalidData` where the field is not
    /// canonical.
    pub fn new(value: u32) -> (r: Result<Prefix, Error>)
        ensures
            r is Ok <==> is_canonical_tag(value as int),
            r matches Ok(p) ==> p@ == value,
            r matches Err(e) ==> e == Error::InvalidData,
    {
        validate_prefix(value)
    }

    /// The tag with the field `value`, which the caller knows to be canonical.
    pub fn new_unchecked(value: u32) -> (r: Prefix)
        requires
            is_canonical_tag(value as int),
        ensures
            r@ == value,
    {
        Prefix { raw: value }
    }

    /// The 20-bit field of this tag.
    pub fn to_u32(self) -> (r: u32)
        ensures
            r == self@,
            is_canonical_tag(r as int),
    {
        proof {
            use_type_invariant(&self);
        }
        self.raw
    }

    /// Reads a tag text.
    pub fn parse(prefix: &str) -> (r: Result<Prefix, Error>)
        ensures
            r is Ok <==> is_tag_text(prefix.spec_bytes()),
            r matches Ok(p) ==> p@ == tag_value(prefix.spec_bytes()),
            r matches Err(e) ==> e == Error::InvalidPrefix,
    {
        decode_prefix(prefix)
    }

    /// The text of this tag.
    pub fn to_string(&self) -> (r: String)
        ensures
            r@ == tag_text(self@ as int),
    {
        encode_prefix(*self)
    }
}

impl Default for Prefix {
    /// The tag `id`.
    fn default() -> (r: Prefix)
        ensures
            r@ == 9 * 32768 + 4 * 1024,
    {
        Prefix { raw: 9 * 32768 + 4 * 1024 }
    }
}

impl std::str::FromStr for Prefix {
    type Err = Error;

    fn from_str(s: &str) -> Result<Prefix, Error> {
        Prefix::parse(s)
    }
}

impl From<Prefix> for u32 {
    fn from(value: Prefix) -> (r: u32) {
        value.to_u32()
    }
}

impl vstd::std_specs::convert::FromSpecImpl<Prefix> for u32 {
    open spec fn obeys_from_spec() -> bool {
        true
    }

    open spec fn from_spec(v: Prefix) -> u32 {
        v@
    }
}

impl TryFrom<u32> for Prefix {
    type Error = Error;

    fn try_from(value: u32) -> (r: Result<Prefix, Error>) {
        Prefix::new(value)
    }
}

impl vstd::std_specs::convert::TryFromSpecImpl<u32> for Prefix {
    open spec fn obeys_try_from_spec() -> bool {
        true
    }

    closed spec fn try_from_spec(v: u32) -> Result<Prefix, Error> {
        if is_canonical_tag(v as int) {
            Ok(Prefix { raw: v })
        } else {
            Err(Error::InvalidData)
        }
    }
}

/// Converting a `u32` into a tag succeeds exactly on canonical fields and
/// keeps the field; otherwise it fails with `InvalidData`.
pub proof fn lemma_prefix_try_from_u32(v: u32)
    ensures
        match <Prefix as vstd::std_specs::convert::TryFromSpec<u32>>::try_from_spec(v) {
            Ok(p) => is_canonical_tag(v as int) && p@ == v,
            Err(e) => !is_canonical_tag(v as int) && e == Error::InvalidData,
        },
{
}

/// A field built from four groups below 32 has those groups.
proof fn lemma_tag_compose(a: int, b: int, c: int, d: int)
    requires
        0 <= a < 32,
        0 <= b < 32,
        0 <= c < 32,
        0 <= d < 32,
    ensures
        tag_group(a * 32768 + b * 1024 + c * 32 + d, 0) == a,
        tag_group(a * 32768 + b * 1024 + c * 32 + d, 1) == b,
        tag_group(a * 32768 + b * 1024 + c * 32 + d, 2) == c,
        tag_group(a * 32768 + b * 1024 + c * 32 + d, 3) == d,
{
    let raw = a * 32768 + b * 1024 + c * 32 + d;
    lemma_fundamental_div_mod_converse(raw, 32768, a, b * 1024 + c * 32 + d);
    lemma_fundamental_div_mod_converse(raw, 1024, a * 32 + b, c * 32 + d);
    lemma_fundamental_div_mod_converse(a * 32 + b, 32, a, b);
    lemma_fundamental_div_mod_converse(raw, 32, a * 1024 + b * 32 + c, d);
    lemma_fundamental_div_mod_converse(a * 1024 + b * 32 + c, 32, a * 32 + b, c);
    lemma_fundamental_div_mod_converse(a, 32, 0, a);
}

/// A field below 2^20 is the sum of its groups.
proof fn lemma_tag_decompose(raw: int)
    requires
        0 <= raw < TAG_LIMIT,
    ensures
        raw == tag_group(raw, 0) * 32768 + tag_group(raw, 1) * 1024 + tag_group(raw, 2) * 32
            + tag_group(raw, 3),
        0 <= tag_group(raw, 0) < 32,
        0 <= tag_group(raw, 1) < 32,
        0 <= tag_group(raw, 2) < 32,
        0 <= tag_group(raw, 3) < 32,
{
    lemma_fundamental_div_mod(raw, 32768);
    let q = raw / 32768;
    let r = raw % 32768;
    lemma_fundamental_div_mod_converse(raw, 32768, q, r);
    assert(tag_group(raw, 0) == q) by {
        lemma_fundamental_div_mod_converse(q, 32, 0, q);
    }
    lemma_fundamental_div_mod_converse(raw, 1024, q * 32 + r / 1024, r % 1024);
    lemma_fundamental_div_mod(r, 1024);
    lemma_fundamental_div_mod_converse(q * 32 + r / 1024, 32, q, r / 1024);
    let r2 = r % 1024;
    lemma_fundamental_div_mod(r2, 32);
    lemma_fundamental_div_mod_converse(raw, 32, q * 1024 + (r / 1024) * 32 + r2 / 32, r2 % 32);
    lemma_fundamental_div_mod_converse(q * 1024 + (r / 1024) * 32 + r2 / 32, 32, q * 32 + r / 1024, r2 / 32);
}

/// The text of a canonical tag field is ASCII, one byte per letter.
pub proof fn lemma_tag_text_ascii(raw: int)
    requires
        is_canonical_tag(raw),
    ensures
        is_ascii_chars(tag_text(raw)),
        encode_utf8(tag_text(raw)) == ascii_bytes(tag_text(raw)),
{
    let t = tag_text(raw);
    lemma_tag_decompose(raw);
    assert forall|i: int| 0 <= i < t.len() implies '\0' <= #[trigger] t[i] <= '\u{7f}' by {
        lemma_tag_letter_inverse(tag_group(raw, i));
    }
    lemma_ascii_encode(t);
}

/// Reading back the bytes of the text of a canonical tag field gives the
/// same field.
pub proof fn lemma_tag_round_trip(raw: int)
    requires
        is_canonical_tag(raw),
    ensures
        is_tag_text(encode_utf8(tag_text(raw))),
        tag_value(encode_utf8(tag_text(raw))) == raw,
{
    let t = tag_text(raw);
    lemma_tag_text_ascii(raw);
    let b = encode_utf8(t);
    assert forall|i: int| 0 <= i < b.len() implies is_tag_byte(#[trigger] b[i]) by {
        lemma_tag_letter_inverse(tag_group(raw, i));
    }
    assert forall|i: int| 0 <= i < 4 implies #[trigger] text_group(b, i) == tag_group(raw, i) by {
        if i < b.len() {
            lemma_tag_letter_inverse(tag_group(raw, i));
        }
    }
}

/// Two canonical tag fields with the same text are the same field: the tag
/// text of a canonical field tells it apart from every other one.
pub proof fn lemma_tag_text_injective(r1: int, r2: int)
    requires
        is_canonical_tag(r1),
        is_canonical_tag(r2),
        tag_text(r1) == tag_text(r2),
    ensures
        r1 == r2,
{
    lemma_tag_round_trip(r1);
    lemma_tag_round_trip(r2);
}

/// Checks a raw tag field; `InvalidData` where it is not canonical.
pub fn validate_prefix(prefix: u32) -> (r: Result<Prefix, Error>)
    ensures
        r is Ok <==> is_canonical_tag(prefix as int),
        r matches Ok(p) ==> p@ == prefix,
        r matches Err(e) ==> e == Error::InvalidData,
{
    if prefix >= TAG_LIMIT {
        return Err(Error::InvalidData);
    }
    let a = prefix / 32768;
    let b = prefix / 1024 % 32;
    let c = prefix / 32 % 32;
    let d = prefix % 32;
    proof {
        lemma_tag_decompose(prefix as int);
    }
    if a == 0 || (b == 0 && c != 0) || (c == 0 && d != 0) {
        return Err(Error::InvalidData);
    }
    if a > 26 || b > 26 || c > 26 || d > 26 {
        return Err(Error::InvalidData);
    }
    Ok(Prefix { raw: prefix })
}

/// The text of a tag: one letter for each of its leading non-empty groups.
pub fn encode_prefix(prefix: Prefix) -> (r: String)
    ensures
        r@ == tag_text(prefix@ as int),
{
    proof {
        use_type_invariant(&prefix);
        lemma_tag_decompose(prefix.raw as int);
    }
    let raw = prefix.raw;
    let a = raw / 32768;
    let b = raw / 1024 % 32;
    let c = raw / 32 % 32;
    let d = raw % 32;
    let mut out = String::new();
    push_char(&mut out, letter_of(a));
    if b != 0 {
        push_char(&mut out, letter_of(b));
        if c != 0 {
            push_char(&mut out, letter_of(c));
            if d != 0 {
                push_char(&mut out, letter_of(d));
            }
        }
    }
    assert(out@ =~= tag_text(raw as int));
    out
}

/// Reads a tag text from its bytes.
pub(crate) fn decode_prefix_bytes(s: &[u8]) -> (r: Result<Prefix, Error>)
    ensures
        r is Ok <==> is_tag_text(s@),
        r matches Ok(p) ==> p@ == tag_value(s@),
        r matches Err(e) ==> e == Error::InvalidPrefix,
{
    let n = s.len();
    if n < 1 || n > 4 {
        return Err(Error::InvalidPrefix);
    }
    let mut acc: u32 = 0;
    let mut weight: u32 = 32768;
    let mut i: usize = 0;
    while i < n
        invariant
            n == s@.len(),
            1 <= n <= 4,
            0 <= i <= n,
            weight == (if i == 0 { 32768u32 } else if i == 1 { 1024 } else if i == 2 { 32 } else if i == 3 { 1 } else { 0 }),
            forall|j: int| 0 <= j < i ==> is_tag_byte(#[trigger] s@[j]),
            acc == tag_value(s@.subrange(0, i as int)),
            acc < TAG_LIMIT,
        decreases n - i,
    {
        let v = match letter_value(s[i]) {
            Some(v) => v,
            None => return Err(Error::InvalidPrefix),
        };
        proof {
            let t = s@.subrange(0, i as int);
            let t1 = s@.subrange(0, i + 1);
            assert(text_group(t1, i as int) == v);
            assert forall|j: int| 0 <= j < 4 && j != i implies text_group(t1, j) == text_group(t, j) by {}
        }
        acc = acc + v * weight;
        weight = weight / 32;
        i = i + 1;
    }
    assert(s@.subrange(0, n as int) =~= s@);
    proof {
        let t = s@;
        let (a, b, c, d) = (text_group(t, 0), text_group(t, 1), text_group(t, 2), text_group(t, 3));
        assert forall|j: int| 0 <= j < n implies 1 <= #[trigger] text_group(t, j) <= 26 by {
            lemma_tag_byte_inverse(t[j]);
        }
        lemma_tag_compose(a, b, c, d);
    }
    Ok(Prefix { raw: acc })
}

/// Reads a tag text; `InvalidPrefix` where it is empty, longer than four
/// bytes, or holds a byte outside `a`..=`z`.
pub fn decode_prefix(prefix: &str) -> (r: Result<Prefix, Error>)
    ensures
        r is Ok <==> is_tag_text(prefix.spec_bytes()),
        r matches Ok(p) ==> p@ == tag_value(prefix.spec_bytes()),
        r matches Err(e) ==> e == Error::InvalidPrefix,
{
    decode_prefix_bytes(prefix.as_bytes())
}

} // verus!
