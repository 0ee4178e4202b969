//! Payloads: 108-bit values written as 22 symbols of the payload alphabet.
//!
//! The text holds the value's five-bit digits, most significant first. 22
//! digits carry 110 bits, so the first symbol of a payload below 2^108 always
//! stands for a value of at most 7; a text whose first symbol stands for more
//! is refused.
use vstd::prelude::*;
use vstd::string::StringSliceAdditionalSpecFns;
use vstd::arithmetic::div_mod::{lemma_div_denominator, lemma_fundamental_div_mod, lemma_div_pos_is_pos, lemma_multiply_divide_lt, lemma_basic_div, lemma_fundamental_div_mod_converse};
use crate::alphabet::{is_payload_byte, payload_byte_value, payload_symbol, symbol_of, symbol_value, lemma_payload_byte_inverse, lemma_payload_symbol_inverse};
use crate::error::Error;
use crate::text::{ascii_bytes, lemma_ascii_encode, push_char};
use vstd::utf8::{encode_utf8, encode_utf8_decode_utf8, is_ascii_chars};

verus! {

/// 2^108: payloads lie below it.
pub const PAYLOAD_LIMIT: u128 = 0x1000_0000_0000_0000_0000_0000_0000;

/// The number of symbols in a payload text.
pub const PAYLOAD_LEN: usize = 22;

/// 32 to the power `k`.
pub open spec fn pow32(k: nat) -> int
    decreases k,
{
    if k == 0 {
        1
    } else {
        32 * pow32((k - 1) as nat)
    }
}

/// The five-bit digit `k` of `v`, counting from the least significant one.
pub open spec fn payload_digit(v: int, k: int) -> int {
    (v / pow32(k as nat)) % 32
}

/// The text of a payload: its 22 five-bit digits, most significant first,
/// each written as its symbol.
pub open spec fn payload_text(v: int) -> Seq<char> {
    Seq::new(PAYLOAD_LEN as nat, |i: int| payload_symbol(payload_digit(v, 21 - i)))
}

/// The number that a sequence of payload symbol bytes writes in base 32,
/// most significant digit first.
pub open spec fn payload_value(s: Seq<u8>) -> int
    decreases s.len(),
{
    if s.len() == 0 {
        0
    } else {
        payload_value(s.drop_last()) * 32 + payload_byte_value(s.last())
    }
}

/// Whether byte `i` of a payload text makes it unreadable: the byte is
/// outside the alphabet, or it is the first one and stands for more than 7.
pub open spec fn is_bad_payload_char(s: Seq<u8>, i: int) -> bool {
    ||| !is_payload_byte(s[i])
    ||| (i == 0 && payload_byte_value(s[i]) > 7)
}

/// Whether the bytes `s` are the text of a payload: 22 symbols of the
/// alphabet, the first of them standing for at most 7.
pub open spec fn is_payload_text(s: Seq<u8>) -> bool {
    &&& s.len() == PAYLOAD_LEN
    &&& forall|i: int| 0 <= i < s.len() ==> !is_bad_payload_char(s, i)
}

/// The first byte that makes a payload text unreadable.
pub open spec fn first_bad_payload_char(s: Seq<u8>) -> int {
    choose|i: int|
        0 <= i < s.len() && is_bad_payload_char(s, i) && forall|j: int|
            0 <= j < i ==> !is_bad_payload_char(s, j)
}

/// What reading the bytes `s` as a payload text gives: the payload's value,
/// or the error. Lengths count bytes, and a bad byte is reported as the
/// character with that code.
pub open spec fn suffix_decoding(s: Seq<u8>) -> Result<u128, Error> {
    if s.len() != PAYLOAD_LEN {
        Err(Error::InvalidLength { expected: PAYLOAD_LEN, found: s.len() as usize })
    } else if !is_payload_text(s) {
        Err(Error::InvalidChar { found: s[first_bad_payload_char(s)] as char })
    } else {
        Ok(payload_value(s) as u128)
    }
}

/// A payload: a value below 2^108.
#[derive(Debug, Clone, Copy, Hash, PartialEq, Eq, Structural, PartialOrd, Ord)]
pub struct Suffix {
    raw: u128,
}

impl View for Suffix {
    type V = u128;

    closed spec fn view(&self) -> u128 {
        self.raw
    }
}

impl Suffix {
    #[verifier::type_invariant]
    spec fn in_range(self) -> bool {
        self.raw < PAYLOAD_LIMIT
    }

    /// The payload made of the low 108 bits of `value`.
    pub fn new(value: u128) -> (r: Suffix)
        ensures
            r@ == value % PAYLOAD_LIMIT,
    {
        Suffix { raw: value % PAYLOAD_LIMIT }
    }

    /// The value of this payload.
    pub fn to_u128(self) -> (r: u128)
        ensures
            r == self@,
            r < PAYLOAD_LIMIT,
    {
        proof {
            use_type_invariant(&self);
        }
        self.raw
    }

    /// Reads a payload text.
    pub fn parse(suffix: &str) -> (r: Result<Suffix, Error>)
        ensures
            match r {
                Ok(p) => suffix_decoding(suffix.spec_bytes()) == Ok::<u128, Error>(p@),
                Err(e) => suffix_decoding(suffix.spec_bytes()) == Err::<u128, Error>(e),
            },
    {
        decode_suffix(suffix)
    }

    /// The text of this payload.
    pub fn to_string(&self) -> (r: String)
        ensures
            r@ == payload_text(self@ as int),
    {
        encode_suffix(*self)
    }
}

impl Default for Suffix {
    /// The payload 0.
    fn default() -> (r: Suffix)
        ensures
            r@ == 0,
    {
        Suffix { raw: 0 }
    }
}

impl std::str::FromStr for Suffix {
    type Err = Error;

    fn from_str(s: &str) -> Result<Suffix, Error> {
        Suffix::parse(s)
    }
}

impl From<Suffix> for u128 {
    fn from(value: Suffix) -> (r: u128) {
        value.to_u128()
    }
}

impl vstd::std_specs::convert::FromSpecImpl<Suffix> for u128 {
    open spec fn obeys_from_spec() -> bool {
        true
    }

    open spec fn from_spec(v: Suffix) -> u128 {
        v@
    }
}

impl From<u128> for Suffix {
    fn from(value: u128) -> (r: Suffix) {
        Suffix::new(value)
    }
}

impl vstd::std_specs::convert::FromSpecImpl<u128> for Suffix {
    open spec fn obeys_from_spec() -> bool {
        true
    }

    closed spec fn from_spec(v: u128) -> Suffix {
        Suffix { raw: v % PAYLOAD_LIMIT }
    }
}

/// Converting a `u128` into a payload keeps its low 108 bits.
pub proof fn lemma_suffix_from_u128(v: u128)
    ensures
        <Suffix as vstd::std_specs::convert::FromSpec<u128>>::from_spec(v)@ == v % PAYLOAD_LIMIT,
{
}

/// 32^k is positive, and one more step multiplies it by 32.
proof fn lemma_pow32_step(k: nat)
    ensures
        pow32(k) > 0,
        pow32(k + 1) == 32 * pow32(k),
    decreases k,
{
    if k > 0 {
        lemma_pow32_step((k - 1) as nat);
    }
}

/// 32^(a + b) = 32^a * 32^b.
proof fn lemma_pow32_adds(a: nat, b: nat)
    ensures
        pow32(a + b) == pow32(a) * pow32(b),
    decreases b,
{
    if b > 0 {
        lemma_pow32_adds(a, (b - 1) as nat);
        lemma_pow32_step((a + b - 1) as nat);
        lemma_pow32_step((b - 1) as nat);
        assert(pow32(a) * (32 * pow32((b - 1) as nat)) == 32 * (pow32(a) * pow32((b - 1) as nat)))
            by (nonlinear_arith);
    }
}

/// Powers of 32 grow with the exponent.
proof fn lemma_pow32_monotone(a: nat, b: nat)
    requires
        a <= b,
    ensures
        pow32(a) <= pow32(b),
    decreases b - a,
{
    if a < b {
        lemma_pow32_monotone(a, (b - 1) as nat);
        lemma_pow32_step((b - 1) as nat);
    }
}

/// 32^21 = 2^105 and 32^22 = 2^110.
proof fn lemma_pow32_sizes()
    ensures
        pow32(21) * 8 == PAYLOAD_LIMIT,
        pow32(22) == PAYLOAD_LIMIT * 4,
{
    reveal_with_fuel(pow32, 8);
    assert(pow32(7) == 0x8_0000_0000);
    lemma_pow32_adds(7, 7);
    lemma_pow32_adds(14, 7);
    lemma_pow32_step(21);
}

/// Dropping the lowest `k + 1` digits is dropping the lowest `k` digits and
/// then one more.
proof fn lemma_shift_step(v: int, k: nat)
    requires
        v >= 0,
    ensures
        v / pow32(k + 1) == (v / pow32(k)) / 32,
        v / pow32(k) == (v / pow32(k + 1)) * 32 + payload_digit(v, k as int),
{
    lemma_pow32_step(k);
    lemma_div_denominator(v, pow32(k), 32);
    lemma_fundamental_div_mod(v / pow32(k), 32);
}

/// The text of a payload is ASCII, one byte per symbol.
pub proof fn lemma_payload_text_ascii(v: int)
    ensures
        is_ascii_chars(payload_text(v)),
        encode_utf8(payload_text(v)) == ascii_bytes(payload_text(v)),
{
    let t = payload_text(v);
    assert forall|i: int| 0 <= i < t.len() implies '\0' <= #[trigger] t[i] <= '\u{7f}' by {
        lemma_fundamental_div_mod(v / pow32((21 - i) as nat), 32);
        lemma_payload_symbol_inverse(payload_digit(v, 21 - i));
    }
    lemma_ascii_encode(t);
}

/// The first `k` bytes of a payload's text write the value without its
/// lowest `22 - k` digits.
proof fn lemma_payload_text_prefix(v: int, k: nat)
    requires
        0 <= v < PAYLOAD_LIMIT,
        k <= 22,
    ensures
        payload_value(ascii_bytes(payload_text(v)).take(k as int)) == v / pow32((22 - k) as nat),
    decreases k,
{
    let t = ascii_bytes(payload_text(v));
    if k == 0 {
        lemma_pow32_sizes();
        lemma_basic_div(v, pow32(22));
        assert(t.take(0) =~= Seq::<u8>::empty());
    } else {
        lemma_payload_text_prefix(v, (k - 1) as nat);
        let j = (22 - k) as nat;
        assert(t.take(k as int).drop_last() =~= t.take(k - 1));
        lemma_shift_step(v, j);
        lemma_payload_symbol_inverse(payload_digit(v, j as int));
        assert((22 - (k - 1)) as nat == j + 1);
    }
}

/// The bytes of a payload's text read back as the same payload.
pub proof fn lemma_payload_round_trip(v: int)
    requires
        0 <= v < PAYLOAD_LIMIT,
    ensures
        is_payload_text(encode_utf8(payload_text(v))),
        payload_value(encode_utf8(payload_text(v))) == v,
        suffix_decoding(encode_utf8(payload_text(v))) == Ok::<u128, Error>(v as u128),
{
    lemma_payload_text_ascii(v);
    let t = ascii_bytes(payload_text(v));
    lemma_payload_text_prefix(v, 22);
    assert(t.take(22) =~= t);
    assert forall|i: int| 0 <= i < t.len() implies !is_bad_payload_char(t, i) by {
        lemma_payload_symbol_inverse(payload_digit(v, 21 - i));
        if i == 0 {
            lemma_pow32_sizes();
            lemma_pow32_step(21);
            lemma_div_pos_is_pos(v, pow32(21));
            lemma_multiply_divide_lt(v, pow32(21), 8);
        }
    }
}

/// The digits of the number that a sequence of symbol bytes writes are the
/// bytes' values, and the number has no more digits than there are bytes.
proof fn lemma_value_digits(s: Seq<u8>)
    requires
        forall|i: int| 0 <= i < s.len() ==> is_payload_byte(#[trigger] s[i]),
    ensures
        0 <= payload_value(s) < pow32(s.len()),
        forall|i: int|
            0 <= i < s.len() ==> payload_digit(payload_value(s), s.len() - 1 - i)
                == payload_byte_value(#[trigger] s[i]),
    decreases s.len(),
{
    if s.len() > 0 {
        let p = s.drop_last();
        let n = s.len();
        lemma_value_digits(p);
        let x = payload_value(s);
        let c = payload_byte_value(s.last());
        lemma_payload_byte_inverse(s.last());
        lemma_pow32_step((n - 1) as nat);
        assert forall|i: int| 0 <= i < n implies payload_digit(x, n - 1 - i)
            == payload_byte_value(#[trigger] s[i]) by {
            lemma_fundamental_div_mod_converse(x, 32, payload_value(p), c);
            if i == n - 1 {
                assert(pow32(0) == 1);
            } else {
                assert(p[i] == s[i]);
                lemma_shift_step(x, (n - 2 - i) as nat);
                lemma_pow32_step((n - 2 - i) as nat);
                lemma_div_denominator(x, 32, pow32((n - 2 - i) as nat));
                assert(x / pow32((n - 1 - i) as nat) == payload_value(p) / pow32((n - 2 - i) as nat));
            }
        }
    }
}

/// A number written with `n` symbol bytes, the first standing for `f`, lies
/// below (f + 1) * 32^(n - 1).
proof fn lemma_value_first_bound(s: Seq<u8>)
    requires
        s.len() >= 1,
        forall|i: int| 0 <= i < s.len() ==> is_payload_byte(#[trigger] s[i]),
    ensures
        payload_value(s) < (payload_byte_value(s[0]) + 1) * pow32((s.len() - 1) as nat),
    decreases s.len(),
{
    let n = s.len();
    let f = payload_byte_value(s[0]);
    lemma_payload_byte_inverse(s.last());
    if n == 1 {
        assert(s.drop_last() =~= Seq::<u8>::empty());
        assert(payload_value(s.drop_last()) == 0);
        assert(s.last() == s[0]);
        assert(pow32(0) == 1);
    } else {
        let p = s.drop_last();
        assert(p[0] == s[0]);
        lemma_value_first_bound(p);
        lemma_pow32_step((n - 2) as nat);
        let b = pow32((n - 2) as nat);
        let pv = payload_value(p);
        assert(pv * 32 + 31 < (f + 1) * (32 * b)) by (nonlinear_arith)
            requires
                pv < (f + 1) * b,
        ;
    }
}

/// Where position `i` is bad and no earlier one is, `i` is the first bad one.
proof fn lemma_first_bad_is(s: Seq<u8>, i: int)
    requires
        0 <= i < s.len(),
        is_bad_payload_char(s, i),
        forall|j: int| 0 <= j < i ==> !is_bad_payload_char(s, j),
    ensures
        first_bad_payload_char(s) == i,
        !is_payload_text(s),
{
    let k = first_bad_payload_char(s);
    assert(0 <= k < s.len() && is_bad_payload_char(s, k));
    assert(k >= i);
    assert(k <= i);
}

/// A text of 22 bytes reads as a payload exactly when it is the text of
/// some payload below 2^108. In particular a text whose first symbol stands
/// for 8 or more is refused, with that symbol as the offending character.
/// The text is given by its characters `t`; its bytes are their UTF-8 form.
pub proof fn lemma_payload_text_exact(t: Seq<char>)
    requires
        encode_utf8(t).len() == PAYLOAD_LEN,
    ensures
        suffix_decoding(encode_utf8(t)) is Ok <==> exists|v: int|
            0 <= v < PAYLOAD_LIMIT && payload_text(v) == t,
        ({
            let s = encode_utf8(t);
            is_payload_byte(s[0]) && payload_byte_value(s[0]) >= 8 ==> suffix_decoding(s)
                == Err::<u128, Error>(Error::InvalidChar { found: s[0] as char })
        }),
{
    let s = encode_utf8(t);
    if exists|v: int| 0 <= v < PAYLOAD_LIMIT && payload_text(v) == t {
        let v = choose|v: int| 0 <= v < PAYLOAD_LIMIT && payload_text(v) == t;
        lemma_payload_round_trip(v);
    }
    if is_payload_text(s) {
        let v = payload_value(s);
        assert forall|i: int| 0 <= i < s.len() implies is_payload_byte(#[trigger] s[i]) by {
            assert(!is_bad_payload_char(s, i));
        }
        lemma_value_digits(s);
        lemma_value_first_bound(s);
        assert(!is_bad_payload_char(s, 0));
        lemma_pow32_sizes();
        assert(v < PAYLOAD_LIMIT) by (nonlinear_arith)
            requires
                v < (payload_byte_value(s[0]) + 1) * pow32(21),
                payload_byte_value(s[0]) <= 7,
                pow32(21) * 8 == PAYLOAD_LIMIT,
                pow32(21) > 0,
        ;
        lemma_payload_text_ascii(v);
        let pt = payload_text(v);
        assert forall|i: int| 0 <= i < 22 implies #[trigger] ascii_bytes(pt)[i] == s[i] by {
            lemma_payload_byte_inverse(s[i]);
        }
        assert(ascii_bytes(pt) =~= s);
        encode_utf8_decode_utf8(t);
        encode_utf8_decode_utf8(pt);
    }
    if is_payload_byte(s[0]) && payload_byte_value(s[0]) >= 8 {
        lemma_first_bad_is(s, 0);
    }
}

/// The text of a payload: its 22 five-bit digits, most significant first.
pub fn encode_suffix(suffix: Suffix) -> (r: String)
    ensures
        r@ == payload_text(suffix@ as int),
{
    proof {
        use_type_invariant(&suffix);
    }
    let ghost v = suffix.raw as int;
    let mut raw = suffix.raw;
    let mut digits = [0u8; 22];
    let mut k: usize = 0;
    while k < PAYLOAD_LEN
        invariant
            0 <= k <= PAYLOAD_LEN,
            v == suffix@,
            raw == v / pow32(k as nat),
            forall|j: int| 22 - k <= j < 22 ==> digits@[j] == payload_digit(v, 21 - j),
        decreases PAYLOAD_LEN - k,
    {
        proof {
            lemma_shift_step(v, k as nat);
        }
        digits[21 - k] = (raw % 32) as u8;
        raw = raw / 32;
        k = k + 1;
    }
    let mut out = String::new();
    let mut i: usize = 0;
    while i < PAYLOAD_LEN
        invariant
            0 <= i <= PAYLOAD_LEN,
            v == suffix@,
            forall|j: int| 0 <= j < 22 ==> digits@[j] == payload_digit(v, 21 - j),
            out@ == payload_text(v).take(i as int),
        decreases PAYLOAD_LEN - i,
    {
        proof {
            lemma_fundamental_div_mod(v / pow32((21 - i) as nat), 32);
        }
        push_char(&mut out, symbol_of(digits[i]));
        proof {
            assert(out@ =~= payload_text(v).take(i + 1));
        }
        i = i + 1;
    }
    assert(out@ =~= payload_text(v));
    out
}

/// Reads a payload text from its bytes.
pub(crate) fn decode_suffix_bytes(s: &[u8]) -> (r: Result<Suffix, Error>)
    ensures
        match r {
            Ok(p) => suffix_decoding(s@) == Ok::<u128, Error>(p@),
            Err(e) => suffix_decoding(s@) == Err::<u128, Error>(e),
        },
{
    let n = s.len();
    if n != PAYLOAD_LEN {
        return Err(Error::InvalidLength { expected: PAYLOAD_LEN, found: n });
    }
    let mut acc: u128 = 0;
    let mut i: usize = 0;
    while i < PAYLOAD_LEN
        invariant
            n == s@.len() == PAYLOAD_LEN,
            0 <= i <= PAYLOAD_LEN,
            forall|j: int| 0 <= j < i ==> !is_bad_payload_char(s@, j),
            acc == payload_value(s@.take(i as int)),
            i == 0 ==> acc == 0,
            i > 0 ==> acc < 8 * pow32((i - 1) as nat),
        decreases PAYLOAD_LEN - i,
    {
        let c = s[i];
        let v = match symbol_value(c) {
            Some(v) => v,
            None => {
                proof {
                    lemma_first_bad_is(s@, i as int);
                }
                return Err(Error::InvalidChar { found: c as char });
            },
        };
        if i == 0 && v > 7 {
            proof {
                lemma_first_bad_is(s@, i as int);
            }
            return Err(Error::InvalidChar { found: c as char });
        }
        proof {
            assert(s@.take(i + 1).drop_last() =~= s@.take(i as int));
            if i > 0 {
                lemma_pow32_step((i - 1) as nat);
                lemma_pow32_monotone((i - 1) as nat, 21);
                lemma_pow32_sizes();
            }
        }
        acc = acc * 32 + v as u128;
        i = i + 1;
    }
    proof {
        assert(s@.take(22) =~= s@);
        lemma_pow32_sizes();
    }
    Ok(Suffix { raw: acc })
}

/// Reads a payload text. `InvalidLength` with the byte length where it does
/// not have 22 bytes; else `InvalidChar` with the first byte that is outside
/// the alphabet, or with the first byte where it stands for more than 7.
pub fn decode_suffix(suffix: &str) -> (r: Result<Suffix, Error>)
    ensures
        match r {
            Ok(p) => suffix_decoding(suffix.spec_bytes()) == Ok::<u128, Error>(p@),
            Err(e) => suffix_decoding(suffix.spec_bytes()) == Err::<u128, Error>(e),
        },
{
    decode_suffix_bytes(suffix.as_bytes())
}

} // verus!
