//! Type-tagged 128-bit identifiers.
//!
//! An identifier packs a tag of one to four lowercase letters into its top
//! 20 bits and a 108-bit payload into the rest. Its text form is the tag, an
//! underscore, and the payload written as 22 symbols of a 32-symbol alphabet,
//! as in `user_02v58c5a3fy30k560qrtg4`.
//!
//! `prefix`, `suffix` and `id` hold the three codecs and their laws; `raw`
//! offers the same codec on plain integers and byte arrays.

pub mod alphabet;
pub mod bytes;
pub mod error;
pub mod id;
pub mod prefix;
mod random;
pub mod raw;
pub mod suffix;
pub mod tagged;
pub mod text;

pub use error::Error;
pub use id::{decode_id, encode_id, validate_id, Id};
pub use prefix::{decode_prefix, encode_prefix, validate_prefix, Prefix};
pub use suffix::{decode_suffix, encode_suffix, Suffix};
pub use tagged::{Identifiable, Tagged, Type};
