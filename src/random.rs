//! Random payloads and identifiers, drawn through the `rand` crate.
use vstd::prelude::*;
use crate::id::{id_tag, Id};
use crate::prefix::Prefix;
use crate::suffix::{Suffix, PAYLOAD_LIMIT};

verus! {

/// Relies on `rand::random`, which draws a `u128` from the thread-local
/// generator. Any value may come back.
#[verifier::external_body]
fn random_u128() -> (r: u128) {
    rand::random::<u128>()
}

/// Relies on `rand::Rng::random`, which draws a `u128` from `rng`. Any value
/// may come back.
#[verifier::external_body]
fn random_u128_with<R: rand::Rng + ?Sized>(rng: &mut R) -> (r: u128) {
    rng.random::<u128>()
}

impl Suffix {
    /// A payload made of the low 108 bits of a random `u128`.
    pub fn random() -> (r: Suffix)
        ensures
            r@ < PAYLOAD_LIMIT,
    {
        Suffix::new(random_u128())
    }

    /// A payload made of the low 108 bits of a `u128` drawn from `rng`.
    pub fn random_with<R: rand::Rng + ?Sized>(rng: &mut R) -> (r: Suffix)
        ensures
            r@ < PAYLOAD_LIMIT,
    {
        Suffix::new(random_u128_with(rng))
    }
}

impl Id {
    /// An identifier with the tag `prefix` and a random payload.
    pub fn random(prefix: Prefix) -> (r: Id)
        ensures
            id_tag(r@ as int) == prefix@,
    {
        Id::new(prefix, Suffix::random())
    }

    /// An identifier with the tag `prefix` and a payload drawn from `rng`.
    pub fn random_with<R: rand::Rng + ?Sized>(prefix: Prefix, rng: &mut R) -> (r: Id)
        ensures
            id_tag(r@ as int) == prefix@,
    {
        Id::new(prefix, Suffix::random_with(rng))
    }
}

} // verus!
