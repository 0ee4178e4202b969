//! Identifiers: a tag in the top 20 bits and a payload in the low 108 bits of
//! a 128-bit value.
//!
//! Identifiers compare by that value, so those that share a tag sort together
//! and, within a tag, by payload. This is not the order of their texts when
//! tags differ in length.
use vstd::prelude::*;
use vstd::string::StringSliceAdditionalSpecFns;
use vstd::arithmetic::div_mod::{lemma_fundamental_div_mod, lemma_fundamental_div_mod_converse};
use crate::bytes::{be_value, lemma_be_value_bound, bytes_of_value, value_of_bytes};
use crate::error::Error;
use crate::prefix::{lemma_tag_round_trip, lemma_tag_text_ascii, decode_prefix, decode_prefix_bytes, encode_prefix, is_canonical_tag, is_tag_text, tag_text, tag_value, validate_prefix, Prefix, TAG_LIMIT};
use crate::suffix::{is_bad_payload_char, lemma_payload_round_trip, lemma_payload_text_ascii, decode_suffix_bytes, encode_suffix, payload_text, suffix_decoding, Suffix, PAYLOAD_LIMIT};
use crate::text::{ascii_bytes, lemma_ascii_encode, push_char};
use vstd::utf8::{encode_utf8, is_ascii_chars};

verus! {

/// The byte of `_`, which separates tag and payload.
pub const SEPARATOR: u8 = 0x5f;

/// The tag field of an identifier value: its top 20 bits.
pub open spec fn id_tag(v: int) -> int {
    v / (PAYLOAD_LIMIT as int)
}

/// The payload of an identifier value: its low 108 bits.
pub open spec fn id_payload(v: int) -> int {
    v % (PAYLOAD_LIMIT as int)
}

/// Whether a 128-bit value is an identifier: its tag field is canonical.
pub open spec fn is_valid_id(v: int) -> bool {
    is_canonical_tag(id_tag(v))
}

/// The text of an identifier: tag text, `_`, payload text.
pub open spec fn id_text(v: int) -> Seq<char> {
    tag_text(id_tag(v)) + seq!['_'] + payload_text(id_payload(v))
}

/// The position of the last `c` in `s`, or -1 where there is none.
pub open spec fn last_index_of(s: Seq<u8>, c: u8) -> int
    decreases s.len(),
{
    if s.len() == 0 {
        -1
    } else if s.last() == c {
        s.len() - 1
    } else {
        last_index_of(s.drop_last(), c)
    }
}

/// What reading the bytes `s` as an identifier text gives: the identifier's
/// value, or the error. The text is split at its last `_`; the part before it
/// is read as a tag, then the part after it as a payload.
pub open spec fn id_decoding(s: Seq<u8>) -> Result<u128, Error> {
    let k = last_index_of(s, SEPARATOR);
    if k < 0 {
        Err(Error::InvalidFormat)
    } else if !is_tag_text(s.take(k)) {
        Err(Error::InvalidPrefix)
    } else {
        match suffix_decoding(s.skip(k + 1)) {
            Ok(p) => Ok((tag_value(s.take(k)) * PAYLOAD_LIMIT + p) as u128),
            Err(e) => Err(e),
        }
    }
}

/// A type-tagged 128-bit identifier.
#[derive(Debug, Clone, Copy, Hash, PartialEq, Eq, Structural, PartialOrd, Ord)]
pub struct Id {
    value: u128,
}

impl View for Id {
    type V = u128;

    closed spec fn view(&self) -> u128 {
        self.value
    }
}

/// A tag field and a payload make the value `tag * 2^108 + payload`, whose
/// top bits and low bits give them back.
proof fn lemma_id_split(tag: int, payload: int)
    requires
        0 <= tag < TAG_LIMIT,
        0 <= payload < PAYLOAD_LIMIT,
    ensures
        0 <= tag * PAYLOAD_LIMIT + payload <= u128::MAX,
        id_tag(tag * PAYLOAD_LIMIT + payload) == tag,
        id_payload(tag * PAYLOAD_LIMIT + payload) == payload,
{
    lemma_fundamental_div_mod_converse(tag * PAYLOAD_LIMIT + payload, PAYLOAD_LIMIT as int, tag, payload);
    assert(tag * PAYLOAD_LIMIT <= (TAG_LIMIT - 1) * PAYLOAD_LIMIT) by (nonlinear_arith)
        requires
            tag <= TAG_LIMIT - 1,
    ;
}

/// A 128-bit value is its tag field times 2^108 plus its payload.
proof fn lemma_id_join(v: int)
    requires
        0 <= v <= u128::MAX,
    ensures
        v == id_tag(v) * PAYLOAD_LIMIT + id_payload(v),
        0 <= id_tag(v) < TAG_LIMIT,
        0 <= id_payload(v) < PAYLOAD_LIMIT,
{
    lemma_fundamental_div_mod(v, PAYLOAD_LIMIT as int);
    assert(id_tag(v) < TAG_LIMIT) by {
        vstd::arithmetic::div_mod::lemma_multiply_divide_lt(v, PAYLOAD_LIMIT as int, TAG_LIMIT as int);
    }
}

/// The last `c` of `a + [c] + b`, where `b` holds no `c`, is the one between.
proof fn lemma_last_index_of_join(a: Seq<u8>, c: u8, b: Seq<u8>)
    requires
        forall|i: int| 0 <= i < b.len() ==> b[i] != c,
    ensures
        last_index_of(a + seq![c] + b, c) == a.len(),
    decreases b.len(),
{
    let s = a + seq![c] + b;
    if b.len() == 0 {
        assert(s.last() == c);
    } else {
        assert(s.drop_last() =~= a + seq![c] + b.drop_last());
        lemma_last_index_of_join(a, c, b.drop_last());
    }
}

/// Reading the text of the identifier that a canonical tag field and a
/// payload make gives back that identifier.
pub proof fn lemma_id_round_trip(tag: int, payload: int)
    requires
        is_canonical_tag(tag),
        0 <= payload < PAYLOAD_LIMIT,
    ensures
        id_decoding(encode_utf8(id_text(tag * PAYLOAD_LIMIT + payload))) == Ok::<u128, Error>(
            (tag * PAYLOAD_LIMIT + payload) as u128,
        ),
{
    let v = tag * PAYLOAD_LIMIT + payload;
    lemma_id_split(tag, payload);
    lemma_tag_round_trip(tag);
    lemma_payload_round_trip(payload);
    lemma_tag_text_ascii(tag);
    lemma_payload_text_ascii(payload);
    let t = ascii_bytes(tag_text(tag));
    let p = ascii_bytes(payload_text(payload));
    let text = id_text(v);
    assert(text == tag_text(tag) + seq!['_'] + payload_text(payload));
    assert(is_ascii_chars(text));
    lemma_ascii_encode(text);
    assert(ascii_bytes(text) =~= t + seq![SEPARATOR] + p);
    assert forall|i: int| 0 <= i < p.len() implies p[i] != SEPARATOR by {
        assert(!is_bad_payload_char(p, i));
    }
    lemma_last_index_of_join(t, SEPARATOR, p);
    let s = ascii_bytes(text);
    assert(s.take(t.len() as int) =~= t);
    assert(s.skip(t.len() as int + 1) =~= p);
}

/// Reading an identifier's own text gives back the same identifier.
pub proof fn lemma_parse_own_text(v: u128)
    requires
        is_valid_id(v as int),
    ensures
        id_decoding(encode_utf8(id_text(v as int))) == Ok::<u128, Error>(v),
{
    lemma_id_join(v as int);
    lemma_id_round_trip(id_tag(v as int), id_payload(v as int));
}

impl Id {
    #[verifier::type_invariant]
    spec fn valid(self) -> bool {
        is_valid_id(self.value as int)
    }

    /// The identifier with the given tag and payload.
    pub fn new(prefix: Prefix, suffix: Suffix) -> (r: Id)
        ensures
            r@ == prefix@ * PAYLOAD_LIMIT + suffix@,
            id_tag(r@ as int) == prefix@,
            id_payload(r@ as int) == suffix@,
    {
        let tag = prefix.to_u32();
        let payload = suffix.to_u128();
        proof {
            lemma_id_split(tag as int, payload as int);
        }
        Id { value: (tag as u128) * PAYLOAD_LIMIT + payload }
    }

    /// The identifier with the tag that `prefix` spells and the payload in
    /// the low 108 bits of the big-endian `suffix`; `InvalidPrefix` where
    /// `prefix` is not a tag text.
    pub fn from_parts(prefix: &str, suffix: [u8; 16]) -> (r: Result<Id, Error>)
        ensures
            r is Ok <==> is_tag_text(prefix.spec_bytes()),
            r matches Ok(id) ==> id@ == tag_value(prefix.spec_bytes()) * PAYLOAD_LIMIT + be_value(suffix@)
                % PAYLOAD_LIMIT as int,
            r matches Err(e) ==> e == Error::InvalidPrefix,
    {
        let prefix = decode_prefix(prefix)?;
        Ok(Id::new(prefix, Suffix::new(value_of_bytes(&suffix))))
    }

    /// The identifier whose big-endian bytes are `value`; `InvalidData` where
    /// the top 20 bits are not a canonical tag field.
    pub fn from_bytes(value: [u8; 16]) -> (r: Result<Id, Error>)
        ensures
            r is Ok <==> is_valid_id(be_value(value@)),
            r matches Ok(id) ==> id@ == be_value(value@),
            r matches Err(e) ==> e == Error::InvalidData,
    {
        validate_id(value)
    }

    /// The identifier whose big-endian bytes are `value`, which the caller
    /// knows to hold a canonical tag field.
    pub fn from_bytes_unchecked(value: [u8; 16]) -> (r: Id)
        requires
            is_valid_id(be_value(value@)),
        ensures
            r@ == be_value(value@),
    {
        Id { value: value_of_bytes(&value) }
    }

    /// The 16 big-endian bytes of this identifier.
    pub fn to_bytes(self) -> (r: [u8; 16])
        ensures
            be_value(r@) == self@,
    {
        bytes_of_value(self.value)
    }

    /// The value of this identifier.
    pub fn to_u128(self) -> (r: u128)
        ensures
            r == self@,
            is_valid_id(r as int),
    {
        proof {
            use_type_invariant(&self);
        }
        self.value
    }

    /// The value of this identifier, as the signed number with the same bits.
    pub fn to_i128(self) -> (r: i128)
        ensures
            r == self@ as i128,
    {
        self.value as i128
    }

    /// The tag of this identifier.
    pub fn prefix(self) -> (r: Prefix)
        ensures
            r@ == id_tag(self@ as int),
    {
        proof {
            use_type_invariant(&self);
            lemma_id_join(self.value as int);
        }
        Prefix::new_unchecked((self.value / PAYLOAD_LIMIT) as u32)
    }

    /// The payload of this identifier.
    pub fn suffix(self) -> (r: Suffix)
        ensures
            r@ == id_payload(self@ as int),
    {
        Suffix::new(self.value)
    }

    /// The identifier with the same payload and the tag `prefix`.
    pub fn cast(self, prefix: Prefix) -> (r: Id)
        ensures
            r@ == prefix@ * PAYLOAD_LIMIT + id_payload(self@ as int),
            id_tag(r@ as int) == prefix@,
            id_payload(r@ as int) == id_payload(self@ as int),
    {
        Id::new(prefix, self.suffix())
    }

    /// Whether `value` reads as an identifier.
    pub fn test(value: &str) -> (r: bool)
        ensures
            r == id_decoding(value.spec_bytes()) is Ok,
    {
        Id::parse(value).is_ok()
    }

    /// Reads an identifier text.
    pub fn parse(value: &str) -> (r: Result<Id, Error>)
        ensures
            match r {
                Ok(id) => id_decoding(value.spec_bytes()) == Ok::<u128, Error>(id@),
                Err(e) => id_decoding(value.spec_bytes()) == Err::<u128, Error>(e),
            },
    {
        decode_id(value)
    }

    /// The text of this identifier.
    pub fn to_string(&self) -> (r: String)
        ensures
            r@ == id_text(self@ as int),
    {
        encode_id(*self)
    }
}

impl Default for Id {
    /// The identifier with the tag `id` and the payload 0.
    fn default() -> (r: Id)
        ensures
            r@ == (9 * 32768 + 4 * 1024) * PAYLOAD_LIMIT,
    {
        Id::new(Prefix::default(), Suffix::default())
    }
}

impl std::str::FromStr for Id {
    type Err = Error;

    fn from_str(s: &str) -> Result<Id, Error> {
        Id::parse(s)
    }
}

impl From<Id> for u128 {
    fn from(value: Id) -> (r: u128) {
        value.to_u128()
    }
}

impl vstd::std_specs::convert::FromSpecImpl<Id> for u128 {
    open spec fn obeys_from_spec() -> bool {
        true
    }

    open spec fn from_spec(v: Id) -> u128 {
        v@
    }
}

impl From<Id> for i128 {
    fn from(value: Id) -> (r: i128) {
        value.to_i128()
    }
}

impl vstd::std_specs::convert::FromSpecImpl<Id> for i128 {
    open spec fn obeys_from_spec() -> bool {
        true
    }

    open spec fn from_spec(v: Id) -> i128 {
        v@ as i128
    }
}

impl TryFrom<u128> for Id {
    type Error = Error;

    fn try_from(value: u128) -> (r: Result<Id, Error>) {
        proof {
            lemma_id_join(value as int);
        }
        match validate_prefix((value / PAYLOAD_LIMIT) as u32) {
            Ok(_) => Ok(Id { value }),
            Err(e) => Err(e),
        }
    }
}

impl vstd::std_specs::convert::TryFromSpecImpl<u128> for Id {
    open spec fn obeys_try_from_spec() -> bool {
        true
    }

    closed spec fn try_from_spec(v: u128) -> Result<Id, Error> {
        if is_valid_id(v as int) {
            Ok(Id { value: v })
        } else {
            Err(Error::InvalidData)
        }
    }
}

/// Converting a `u128` into an identifier succeeds exactly where its top 20
/// bits are a canonical tag field and keeps the value; otherwise it fails
/// with `InvalidData`.
pub proof fn lemma_id_try_from_u128(v: u128)
    ensures
        match <Id as vstd::std_specs::convert::TryFromSpec<u128>>::try_from_spec(v) {
            Ok(id) => is_valid_id(v as int) && id@ == v,
            Err(e) => !is_valid_id(v as int) && e == Error::InvalidData,
        },
{
}

impl TryFrom<[u8; 16]> for Id {
    type Error = Error;

    fn try_from(value: [u8; 16]) -> (r: Result<Id, Error>) {
        Id::from_bytes(value)
    }
}

impl vstd::std_specs::convert::TryFromSpecImpl<[u8; 16]> for Id {
    open spec fn obeys_try_from_spec() -> bool {
        true
    }

    closed spec fn try_from_spec(v: [u8; 16]) -> Result<Id, Error> {
        if is_valid_id(be_value(v@)) {
            Ok(Id { value: be_value(v@) as u128 })
        } else {
            Err(Error::InvalidData)
        }
    }
}

/// Converting 16 big-endian bytes into an identifier succeeds exactly where
/// their top 20 bits are a canonical tag field and keeps the value;
/// otherwise it fails with `InvalidData`.
pub proof fn lemma_id_try_from_bytes(b: [u8; 16])
    ensures
        match <Id as vstd::std_specs::convert::TryFromSpec<[u8; 16]>>::try_from_spec(b) {
            Ok(id) => is_valid_id(be_value(b@)) && id@ == be_value(b@),
            Err(e) => !is_valid_id(be_value(b@)) && e == Error::InvalidData,
        },
{
    assert(0 <= be_value(b@) <= u128::MAX) by {
        lemma_be_value_bound(b@);
    }
}

/// The text of an identifier.
pub fn encode_id(id: Id) -> (r: String)
    ensures
        r@ == id_text(id@ as int),
{
    let prefix = encode_prefix(id.prefix());
    let suffix = encode_suffix(id.suffix());
    let mut out = prefix;
    push_char(&mut out, '_');
    out.append(suffix.as_str());
    proof {
        assert(out@ =~= id_text(id@ as int));
    }
    out
}

/// The position of the last `_` in `s`, if there is one.
fn find_separator(s: &[u8]) -> (r: Option<usize>)
    ensures
        match r {
            Some(k) => last_index_of(s@, SEPARATOR) == k && k < s@.len(),
            None => last_index_of(s@, SEPARATOR) < 0,
        },
{
    let mut i: usize = s.len();
    assert(s@.take(i as int) =~= s@);
    while i > 0
        invariant
            i <= s@.len(),
            last_index_of(s@, SEPARATOR) == last_index_of(s@.take(i as int), SEPARATOR),
        decreases i,
    {
        assert(s@.take(i as int).drop_last() =~= s@.take(i - 1));
        if s[i - 1] == SEPARATOR {
            return Some(i - 1);
        }
        i = i - 1;
    }
    assert(s@.take(0) =~= Seq::<u8>::empty());
    None
}

/// Reads an identifier text. `InvalidFormat` where it has no `_`; else the
/// bytes before the last `_` are read as a tag and those after it as a
/// payload, and the first of them that fails gives its error.
pub fn decode_id(id: &str) -> (r: Result<Id, Error>)
    ensures
        match r {
            Ok(v) => id_decoding(id.spec_bytes()) == Ok::<u128, Error>(v@),
            Err(e) => id_decoding(id.spec_bytes()) == Err::<u128, Error>(e),
        },
{
    let all = id.as_bytes();
    let k = match find_separator(all) {
        Some(k) => k,
        None => return Err(Error::InvalidFormat),
    };
    let (head, rest) = all.split_at(k);
    let (_, tail) = rest.split_at(1);
    assert(head@ =~= id.spec_bytes().take(k as int));
    assert(tail@ =~= id.spec_bytes().skip(k + 1));
    let prefix = decode_prefix_bytes(head)?;
    let suffix = decode_suffix_bytes(tail)?;
    Ok(Id::new(prefix, suffix))
}

/// The identifier whose big-endian bytes are `bytes`; `InvalidData` where the
/// top 20 bits are not a canonical tag field.
pub fn validate_id(bytes: [u8; 16]) -> (r: Result<Id, Error>)
    ensures
        r is Ok <==> is_valid_id(be_value(bytes@)),
        r matches Ok(id) ==> id@ == be_value(bytes@),
        r matches Err(e) ==> e == Error::InvalidData,
{
    let value = value_of_bytes(&bytes);
    proof {
        lemma_id_join(value as int);
    }
    match validate_prefix((value / PAYLOAD_LIMIT) as u32) {
        Ok(_) => Ok(Id { value }),
        Err(e) => Err(e),
    }
}

} // verus!
