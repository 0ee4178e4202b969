//! The codec on plain integers and byte arrays: tag fields in place in the
//! top 20 bits of a `u128`, payloads as `u128`, identifiers as 16 bytes.
use vstd::prelude::*;
use vstd::string::StringSliceAdditionalSpecFns;
use crate::bytes::be_value;
use crate::error::Error;
use crate::id::{id_decoding, id_text, is_valid_id};
use crate::prefix::{is_canonical_tag, is_tag_text, tag_text, tag_value};
use crate::suffix::{payload_text, suffix_decoding, Suffix, PAYLOAD_LIMIT};

verus! {

/// Reads an identifier text into its 16 big-endian bytes.
pub fn decode_id(id: &str) -> (r: Result<[u8; 16], Error>)
    ensures
        match r {
            Ok(b) => id_decoding(id.spec_bytes()) == Ok::<u128, Error>(be_value(b@) as u128),
            Err(e) => id_decoding(id.spec_bytes()) == Err::<u128, Error>(e),
        },
{
    match crate::id::decode_id(id) {
        Ok(v) => Ok(v.to_bytes()),
        Err(e) => Err(e),
    }
}

/// Reads a tag text into its field, placed in the top 20 bits.
pub fn decode_prefix(prefix: &str) -> (r: Result<u128, Error>)
    ensures
        r is Ok <==> is_tag_text(prefix.spec_bytes()),
        r matches Ok(v) ==> v == tag_value(prefix.spec_bytes()) * PAYLOAD_LIMIT,
        r matches Err(e) ==> e == Error::InvalidPrefix,
{
    match crate::prefix::decode_prefix(prefix) {
        Ok(p) => {
            let tag = p.to_u32();
            assert(tag as u128 * PAYLOAD_LIMIT <= u128::MAX) by (nonlinear_arith)
                requires
                    tag < 0x10_0000,
                    PAYLOAD_LIMIT == 0x1000_0000_0000_0000_0000_0000_0000,
            ;
            Ok(tag as u128 * PAYLOAD_LIMIT)
        },
        Err(e) => Err(e),
    }
}

/// Reads a payload text into its value.
pub fn decode_suffix(suffix: &str) -> (r: Result<u128, Error>)
    ensures
        r == suffix_decoding(suffix.spec_bytes()),
{
    match crate::suffix::decode_suffix(suffix) {
        Ok(p) => Ok(p.to_u128()),
        Err(e) => Err(e),
    }
}

/// The text of the identifier whose big-endian bytes are `bytes`;
/// `InvalidData` where the top 20 bits are not a canonical tag field.
pub fn encode_id(bytes: [u8; 16]) -> (r: Result<String, Error>)
    ensures
        r is Ok <==> is_valid_id(be_value(bytes@)),
        r matches Ok(s) ==> s@ == id_text(be_value(bytes@)),
        r matches Err(e) ==> e == Error::InvalidData,
{
    match crate::id::validate_id(bytes) {
        Ok(v) => Ok(crate::id::encode_id(v)),
        Err(e) => Err(e),
    }
}

/// The text of the tag field in the top 20 bits of `raw`; `InvalidData`
/// where that field is not canonical.
pub fn encode_prefix(raw: u128) -> (r: Result<String, Error>)
    ensures
        r is Ok <==> is_canonical_tag(raw as int / PAYLOAD_LIMIT as int),
        r matches Ok(s) ==> s@ == tag_text(raw as int / PAYLOAD_LIMIT as int),
        r matches Err(e) ==> e == Error::InvalidData,
{
    match crate::prefix::validate_prefix((raw / PAYLOAD_LIMIT) as u32) {
        Ok(p) => Ok(crate::prefix::encode_prefix(p)),
        Err(e) => Err(e),
    }
}

/// The text of the payload in the low 108 bits of `raw`; the top bits are
/// ignored.
pub fn encode_suffix(raw: u128) -> (r: Result<String, Error>)
    ensures
        r matches Ok(s) && s@ == payload_text(raw as int % PAYLOAD_LIMIT as int),
{
    Ok(crate::suffix::encode_suffix(Suffix::new(raw)))
}

} // verus!
