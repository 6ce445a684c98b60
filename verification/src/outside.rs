//! Calls into outside crates that the engine relies on, each behind a
//! trusted declaration with the narrowest contract its documentation gives.

use vstd::prelude::*;
use sha2::Digest;

verus! {

/// The SHA-256 digest of a byte sequence, named but not defined here:
/// nothing in this crate computes it, the sha2 crate does.
pub uninterp spec fn sha256_of(data: Seq<u8>) -> Seq<u8>;

/// Relies on sha2::Sha256 (via the digest crate's `Digest::digest`): the
/// digest is a function of the input bytes alone and is 32 bytes long.
#[verifier::external_body]
pub fn sha256_bytes(data: &Vec<u8>) -> (r: Vec<u8>)
    ensures
        r@ == sha256_of(data@),
        r@.len() == 32,
{
    sha2::Sha256::digest(data.as_slice()).as_slice().to_vec()
}

/// Relies on uuid::Uuid::new_v4 and its `Display` form: a fresh random
/// UUID rendered in the hyphenated format, which is always 36 characters.
/// Nothing else can be promised of a random value.
#[verifier::external_body]
pub fn fresh_upload_id() -> (r: String)
    ensures
        r@.len() == 36,
{
    uuid::Uuid::new_v4().to_string()
}

} // verus!
