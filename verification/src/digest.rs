use vstd::prelude::*;

use crate::install::{hex_bytes, spec_hex};

verus! {

/// The SHA-256 digest of a byte sequence, as computed by `rscrypto`.
pub uninterp spec fn sha256_of(data: Seq<u8>) -> Seq<u8>;

/// Calls `rscrypto::Sha256::digest`; trusted to return the 32-byte FIPS 180-4 digest, which
/// depends on the input bytes alone and is named `sha256_of`.
#[verifier::external_body]
pub(crate) fn sha256(data: &[u8]) -> (digest: Vec<u8>)
    ensures
        digest@ == sha256_of(data@),
        digest@.len() == 32,
{
    rscrypto::Sha256::digest(data).to_vec()
}

/// The lowercase hexadecimal SHA-256 digest of `bytes`.
pub fn hex_digest(bytes: &[u8]) -> (hex: String)
    ensures
        hex@ == spec_hex(sha256_of(bytes@)),
{
    let digest = sha256(bytes);
    hex_bytes(digest.as_slice())
}

} // verus!
