//! The keyed hash that signs credentials: HMAC-SHA-256.

use hmac::{Hmac, Mac};
use sha2::Sha256;
use vstd::prelude::*;

verus! {

/// The HMAC-SHA-256 tag of `message` under `key`.
pub uninterp spec fn hmac_sha256(key: Seq<u8>, message: Seq<u8>) -> Seq<u8>;

/// Computes the tag of `message` under `key` with `hmac::Hmac<sha2::Sha256>`:
/// `new_from_slice`, `update`, `finalize`. Nothing is proved of this call. It
/// is taken to return the HMAC-SHA-256 tag, a function of key and message
/// alone, which is 32 bytes long as the output size of SHA-256 is. The key
/// may have any length: a long one is hashed and a short one padded, so that
/// `new_from_slice` does not fail.
#[verifier::external_body]
pub(crate) fn compute_tag(key: &[u8], message: &[u8]) -> (tag: Vec<u8>)
    ensures
        tag@ == hmac_sha256(key@, message@),
        tag@.len() == 32,
{
    let mut mac = Hmac::<Sha256>::new_from_slice(key).expect("HMAC takes a key of any length");
    mac.update(message);
    mac.finalize().into_bytes().to_vec()
}

} // verus!
