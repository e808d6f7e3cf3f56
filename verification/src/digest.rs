//! SHA-256 digests.
use vstd::prelude::*;

verus! {

/// The SHA-256 digest of `data`.
pub uninterp spec fn sha256(data: Seq<u8>) -> Seq<u8>;

/// Create a SHA256 hash digest of `buf`: calls `sha2::Sha256::digest`, whose
/// result the contract names `sha256(buf)`; it is 32 bytes long.
#[verifier::external_body]
pub fn sha_256(buf: &[u8]) -> (d: [u8; 32])
    ensures
        d@ == sha256(buf@),
{
    <sha2::Sha256 as sha2::Digest>::digest(buf).into()
}

} // verus!
