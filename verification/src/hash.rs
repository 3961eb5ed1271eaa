//! Trusted bridge to the hash backend, and the hash-to-field embedding.
//!
//! Byte strings (string column values, transcript states) are embedded into
//! the proof field through a collision-resistant hash; the digest itself is
//! opaque, so it is only given a name here, and everything downstream of the
//! digest is verified.

use vstd::prelude::*;
use crate::field::{freduce, FieldElement};

verus! {

/// The SHA-256 digest of a byte sequence.
pub uninterp spec fn digest_of(bytes: Seq<u8>) -> Seq<u8>;

/// Relies on `sha2::Sha256` (through `digest::Digest::digest`): the 32-byte
/// digest is a pure function of the input bytes alone.
#[verifier::external_body]
pub fn sha256_digest(bytes: &Vec<u8>) -> (r: Vec<u8>)
    ensures
        r@ == digest_of(bytes@),
        r@.len() == 32,
{
    <sha2::Sha256 as sha2::Digest>::digest(bytes.as_slice()).to_vec()
}

/// The UTF-8 encoding of a character sequence.
pub uninterp spec fn utf8_of(s: Seq<char>) -> Seq<u8>;

/// Relies on `str::as_bytes`: the UTF-8 encoding is a pure function of the
/// characters alone.
#[verifier::external_body]
pub fn string_bytes(s: &String) -> (r: Vec<u8>)
    ensures
        r@ == utf8_of(s@),
{
    s.as_bytes().to_vec()
}

/// The integer value of the first eight bytes of a digest, little endian.
pub open spec fn le8_to_int(s: Seq<u8>) -> int {
    s[0] + 0x100 * s[1] + 0x10000 * s[2] + 0x1000000 * s[3] + 0x100000000 * s[4]
        + 0x10000000000 * s[5] + 0x1000000000000 * s[6] + 0x100000000000000 * s[7]
}

/// The field element that a digest reduces to.
pub open spec fn field_of_digest(d: Seq<u8>) -> int {
    freduce(le8_to_int(d))
}

/// The field element that a byte sequence is embedded as.
pub open spec fn field_embed_of(bytes: Seq<u8>) -> int {
    field_of_digest(digest_of(bytes))
}

/// Reduces a digest to a field element, little endian over its first eight
/// bytes.
pub fn field_from_digest(d: &Vec<u8>) -> (r: FieldElement)
    requires
        d@.len() >= 8,
    ensures
        r.inv(),
        r.val() == field_of_digest(d@),
{
    let acc: u64 = (d[0] as u64) + 0x100u64 * (d[1] as u64) + 0x10000u64 * (d[2] as u64)
        + 0x1000000u64 * (d[3] as u64) + 0x100000000u64 * (d[4] as u64)
        + 0x10000000000u64 * (d[5] as u64) + 0x1000000000000u64 * (d[6] as u64)
        + 0x100000000000000u64 * (d[7] as u64);
    FieldElement::from_u64(acc)
}

/// Embeds a byte string into the proof field through the hash backend.
pub fn hash_to_field(bytes: &Vec<u8>) -> (r: FieldElement)
    ensures
        r.inv(),
        r.val() == field_embed_of(bytes@),
{
    let d = sha256_digest(bytes);
    field_from_digest(&d)
}

} // verus!
