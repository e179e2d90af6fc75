//! The hash primitive and the two-to-one compression built on it.

use sha2::{Digest, Sha256};
use vstd::prelude::*;

verus! {

/// Number of bytes in one node of a Merkle tree.
pub const BYTES_PER_CHUNK: usize = 32;

/// The SHA-256 digest of a byte string.
pub uninterp spec fn sha256_digest(bytes: Seq<u8>) -> Seq<u8>;

/// The hash of two sibling nodes: the digest of the left one followed by the
/// right one.
pub open spec fn hash_pair_spec(left: Seq<u8>, right: Seq<u8>) -> Seq<u8> {
    sha256_digest(left + right)
}

/// The node whose bytes are all zero.
pub open spec fn zero_chunk() -> Seq<u8> {
    Seq::new(32, |i: int| 0u8)
}

/// Calls `Sha256::new`, `update` and `finalize` of the `sha2` crate on
/// `bytes`. Trusted: the 32 bytes returned are the SHA-256 digest of `bytes`,
/// a function of the input alone.
#[verifier::external_body]
pub fn sha256(bytes: &[u8]) -> (digest: [u8; 32])
    ensures
        digest@ == sha256_digest(bytes@),
{
    let mut hasher = Sha256::new();
    hasher.update(bytes);
    let output = hasher.finalize();
    output.into()
}

/// Hashes two sibling nodes into their parent.
pub fn hash_pair(left: &[u8; 32], right: &[u8; 32]) -> (parent: [u8; 32])
    ensures
        parent@ == hash_pair_spec(left@, right@),
{
    let mut buffer: Vec<u8> = Vec::with_capacity(64);
    let mut i: usize = 0;
    while i < 32
        invariant
            i <= 32,
            buffer@ == left@.take(i as int),
        decreases 32 - i,
    {
        buffer.push(left[i]);
        i += 1;
        proof {
            assert(buffer@ =~= left@.take(i as int));
        }
    }
    proof {
        assert(left@.take(32) =~= left@);
        assert(left@ + right@.take(0) =~= left@);
    }
    let mut j: usize = 0;
    while j < 32
        invariant
            j <= 32,
            buffer@ == left@ + right@.take(j as int),
        decreases 32 - j,
    {
        buffer.push(right[j]);
        j += 1;
        proof {
            assert(buffer@ =~= left@ + right@.take(j as int));
        }
    }
    proof {
        assert(right@.take(32) =~= right@);
    }
    sha256(buffer.as_slice())
}

/// Whether two nodes hold the same bytes.
pub fn chunk_eq(a: &[u8; 32], b: &[u8; 32]) -> (same: bool)
    ensures
        same == (a@ == b@),
{
    let mut i: usize = 0;
    while i < 32
        invariant
            i <= 32,
            forall|k: int| 0 <= k < i ==> a@[k] == b@[k],
        decreases 32 - i,
    {
        if a[i] != b[i] {
            return false;
        }
        i += 1;
    }
    proof {
        assert(a@ =~= b@);
    }
    true
}

} // verus!
