use vstd::prelude::*;

verus! {

/// Why a value could not be read as a tag, a payload or an identifier.
#[derive(Debug, Clone, Copy, PartialEq, Eq, Structural)]
pub enum Error {
    /// A raw tag field breaks the contiguity or range rule.
    InvalidData,
    /// A tag text is empty, longer than four bytes, or holds a byte outside
    /// `a`..=`z`.
    InvalidPrefix,
    /// A payload byte is outside the payload alphabet, or the first one stands
    /// for a value above 7; `found` is the character with that byte's code.
    InvalidChar { found: char },
    /// The text has no `_` between tag and payload.
    InvalidFormat,
    /// A payload text does not have exactly `expected` bytes; `found` is its
    /// length in bytes.
    InvalidLength { expected: usize, found: usize },
}

} // verus!
