//! The plain types that the containers are made of.

use crate::merkle::pack_bytes_spec;
use crate::ssz::Merkleized;
use vstd::prelude::*;

verus! {

/// A Merkle root.
pub type Root = [u8; 32];

/// Thirty-two bytes of any meaning.
pub type Bytes32 = [u8; 32];

/// The hash of an execution block.
pub type Hash32 = [u8; 32];

/// A tag that keeps the signatures of one role apart from those of another.
pub type Domain = [u8; 32];


/// The version of a fork.
pub type Version = [u8; 4];

/// The address of an execution account.
pub type ExecutionAddress = [u8; 20];

/// A BLS public key, compressed.
pub type BlsPublicKey = [u8; 48];

/// A BLS signature, compressed.
pub type BlsSignature = [u8; 96];

/// A commitment to a blob.
pub type KzgCommitment = [u8; 48];

/// A proof for a commitment to a blob.
pub type KzgProof = [u8; 48];

/// A 256-bit number, little-endian.
pub type U256 = [u8; 32];

pub type Slot = u64;

pub type Epoch = u64;

pub type Gwei = u64;

pub type ValidatorIndex = u64;

pub type WithdrawalIndex = u64;

pub type BlobIndex = u64;

/// A single chunk is its own root.
pub proof fn lemma_chunk_is_its_root(chunk: [u8; 32])
    ensures
        chunk.root_spec() == chunk@,
{
    reveal_with_fuel(crate::math::ceil_log2, 2);
    assert(pack_bytes_spec(chunk@)[0] =~= chunk@);
}

} // verus!
