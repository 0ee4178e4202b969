//! The 16-byte big-endian form of a 128-bit value.
use vstd::prelude::*;
use vstd::arithmetic::div_mod::{lemma_basic_div, lemma_div_denominator, lemma_fundamental_div_mod, lemma_fundamental_div_mod_converse};

verus! {

/// 256 to the power `k`.
pub open spec fn pow256(k: nat) -> int
    decreases k,
{
    if k == 0 {
        1
    } else {
        256 * pow256((k - 1) as nat)
    }
}

/// The number that a byte sequence writes in big-endian order.
pub open spec fn be_value(b: Seq<u8>) -> int
    decreases b.len(),
{
    if b.len() == 0 {
        0
    } else {
        be_value(b.drop_last()) * 256 + b.last()
    }
}

/// Byte `k` of `v`, counting from the least significant one.
pub open spec fn byte_of(v: int, k: int) -> int {
    (v / pow256(k as nat)) % 256
}

proof fn lemma_pow256_step(k: nat)
    ensures
        pow256(k) > 0,
        pow256(k + 1) == 256 * pow256(k),
    decreases k,
{
    if k > 0 {
        lemma_pow256_step((k - 1) as nat);
    }
}

proof fn lemma_pow256_adds(a: nat, b: nat)
    ensures
        pow256(a + b) == pow256(a) * pow256(b),
    decreases b,
{
    if b > 0 {
        lemma_pow256_adds(a, (b - 1) as nat);
        lemma_pow256_step((a + b - 1) as nat);
        lemma_pow256_step((b - 1) as nat);
        assert(pow256(a) * (256 * pow256((b - 1) as nat)) == 256 * (pow256(a) * pow256(
            (b - 1) as nat,
        ))) by (nonlinear_arith);
    }
}

/// 256^15 = 2^120 and 256^16 = 2^128.
proof fn lemma_pow256_sizes()
    ensures
        pow256(15) == 0x1_0000_0000_0000_0000_0000_0000_0000_00,
        pow256(16) == 0x1_0000_0000_0000_0000_0000_0000_0000_0000,
{
    reveal_with_fuel(pow256, 6);
    assert(pow256(5) == 0x100_0000_0000);
    lemma_pow256_adds(5, 5);
    lemma_pow256_adds(10, 5);
    lemma_pow256_step(15);
}

/// Powers of 256 grow with the exponent.
proof fn lemma_pow256_monotone(a: nat, b: nat)
    requires
        a <= b,
    ensures
        pow256(a) <= pow256(b),
    decreases b - a,
{
    if a < b {
        lemma_pow256_monotone(a, (b - 1) as nat);
        lemma_pow256_step((b - 1) as nat);
    }
}

/// The bytes of `v`, most significant first, read back the value without
/// its lowest `16 - k` bytes when only the first `k` of them are read.
proof fn lemma_be_prefix(v: int, b: Seq<u8>, k: nat)
    requires
        0 <= v < pow256(16),
        b.len() == 16,
        forall|j: int| 0 <= j < 16 ==> b[j] == byte_of(v, 15 - j),
        k <= 16,
    ensures
        be_value(b.take(k as int)) == v / pow256((16 - k) as nat),
    decreases k,
{
    if k == 0 {
        lemma_basic_div(v, pow256(16));
        assert(b.take(0) =~= Seq::<u8>::empty());
    } else {
        lemma_be_prefix(v, b, (k - 1) as nat);
        let j = (16 - k) as nat;
        assert(b.take(k as int).drop_last() =~= b.take(k - 1));
        lemma_pow256_step(j);
        lemma_div_denominator(v, pow256(j), 256);
        lemma_fundamental_div_mod(v / pow256(j), 256);
        assert((16 - (k - 1)) as nat == j + 1);
    }
}

/// A number written with `n` bytes lies below 256^n; with 16 bytes it fits in
/// a `u128`.
pub proof fn lemma_be_value_bound(b: Seq<u8>)
    ensures
        0 <= be_value(b) < pow256(b.len()),
        b.len() == 16 ==> be_value(b) <= u128::MAX,
    decreases b.len(),
{
    if b.len() > 0 {
        lemma_be_value_bound(b.drop_last());
        lemma_pow256_step((b.len() - 1) as nat);
    }
    if b.len() == 16 {
        lemma_pow256_sizes();
    }
}

/// The value of 16 big-endian bytes.
pub fn value_of_bytes(bytes: &[u8; 16]) -> (r: u128)
    ensures
        r == be_value(bytes@),
{
    let mut acc: u128 = 0;
    let mut i: usize = 0;
    while i < 16
        invariant
            0 <= i <= 16,
            bytes@.len() == 16,
            acc == be_value(bytes@.take(i as int)),
            acc < pow256(i as nat),
        decreases 16 - i,
    {
        proof {
            assert(bytes@.take(i + 1).drop_last() =~= bytes@.take(i as int));
            lemma_pow256_step(i as nat);
            lemma_pow256_monotone(i as nat, 15);
            lemma_pow256_sizes();
        }
        acc = acc * 256 + bytes[i] as u128;
        i = i + 1;
    }
    assert(bytes@.take(16) =~= bytes@);
    acc
}

/// The 16 big-endian bytes of `v`.
pub fn bytes_of_value(v: u128) -> (r: [u8; 16])
    ensures
        be_value(r@) == v,
{
    let mut raw = v;
    let mut out = [0u8; 16];
    let mut k: usize = 0;
    while k < 16
        invariant
            0 <= k <= 16,
            raw == (v as int) / pow256(k as nat),
            out@.len() == 16,
            forall|j: int| 16 - k <= j < 16 ==> out@[j] == byte_of(v as int, 15 - j),
        decreases 16 - k,
    {
        proof {
            lemma_pow256_step(k as nat);
            lemma_div_denominator(v as int, pow256(k as nat), 256);
        }
        out[15 - k] = (raw % 256) as u8;
        raw = raw / 256;
        k = k + 1;
    }
    proof {
        lemma_pow256_sizes();
        lemma_be_prefix(v as int, out@, 16);
        assert(out@.take(16) =~= out@);
        assert(pow256(0) == 1);
    }
    out
}

} // verus!
