//! Digests of 160 bits. The one that names an asset is RIPEMD-160 of SHA-256,
//! computed by the `bitcoin_hashes` crate.

use vstd::prelude::*;

verus! {

/// The digest of `data`, as `bitcoin_hashes::hash160::Hash::hash` computes it.
pub uninterp spec fn hash160_digest(data: Seq<u8>) -> Seq<u8>;

/// Calls `bitcoin_hashes::hash160::Hash::hash` and takes the twenty bytes out
/// of the digest. The contract gives the result its name.
#[verifier::external_body]
pub(crate) fn hash160(data: &[u8]) -> (digest: [u8; 20])
    ensures
        digest@ == hash160_digest(data@),
{
    let digest = <bitcoin_hashes::hash160::Hash as bitcoin_hashes::Hash>::hash(data);
    <bitcoin_hashes::hash160::Hash as bitcoin_hashes::Hash>::into_inner(digest)
}

/// The twenty bytes of `data` from place `from` on, as a digest.
pub(crate) fn digest_at(data: &[u8], from: usize) -> (hash: [u8; 20])
    requires
        from + 20 <= data.len(),
    ensures
        hash@ == data@.subrange(from as int, from + 20),
{
    let mut hash: [u8; 20] = [0u8; 20];
    let mut i: usize = 0;
    while i < 20
        invariant
            i <= 20,
            from + 20 <= data.len(),
            forall|k: int| 0 <= k < i ==> hash@[k] == data@[from + k],
        decreases 20 - i,
    {
        hash[i] = data[from + i];
        i += 1;
    }
    hash
}

} // verus!
