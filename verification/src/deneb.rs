//! The containers that blobs brought.

use crate::merkle::{chunk_views, merkle_root, merkle_root_of};
use crate::primitives::{
    BlobIndex, BlsSignature, KzgCommitment, KzgProof, Root, Slot, ValidatorIndex,
};
use crate::ssz::{read_array, Composite, DeserializeError, Merkleized, Serialize};
use vstd::bytes::{lemma_auto_spec_u64_to_from_le_bytes, spec_u64_from_le_bytes, u64_from_le_bytes};
use vstd::prelude::*;
use vstd::slice::slice_subrange;

verus! {

/// A blob sidecar with the root of the blob in place of the blob.
#[derive(Clone, Copy, Debug, PartialEq, Eq)]
pub struct BlindedBlobSidecar {
    pub block_root: Root,
    pub index: BlobIndex,
    pub slot: Slot,
    pub block_parent_root: Root,
    pub proposer_index: ValidatorIndex,
    pub blob_root: Root,
    pub kzg_commitment: KzgCommitment,
    pub kzg_proof: KzgProof,
}

impl Composite for BlindedBlobSidecar {

}

impl Merkleized for BlindedBlobSidecar {
    open spec fn root_spec(&self) -> Seq<u8> {
        merkle_root(
            seq![
                self.block_root.root_spec(),
                self.index.root_spec(),
                self.slot.root_spec(),
                self.block_parent_root.root_spec(),
                self.proposer_index.root_spec(),
                self.blob_root.root_spec(),
                self.kzg_commitment.root_spec(),
                self.kzg_proof.root_spec(),
            ],
            3,
        )
    }

    fn hash_tree_root(&self) -> (root: [u8; 32]) {
        let mut chunks: Vec<[u8; 32]> = Vec::new();
        chunks.push(self.block_root.hash_tree_root());
        chunks.push(self.index.hash_tree_root());
        chunks.push(self.slot.hash_tree_root());
        chunks.push(self.block_parent_root.hash_tree_root());
        chunks.push(self.proposer_index.hash_tree_root());
        chunks.push(self.blob_root.hash_tree_root());
        chunks.push(self.kzg_commitment.hash_tree_root());
        chunks.push(self.kzg_proof.hash_tree_root());
        proof {
            assert(chunk_views(chunks@) =~= seq![
                self.block_root.root_spec(),
                self.index.root_spec(),
                self.slot.root_spec(),
                self.block_parent_root.root_spec(),
                self.proposer_index.root_spec(),
                self.blob_root.root_spec(),
                self.kzg_commitment.root_spec(),
                self.kzg_proof.root_spec(),
            ]);
        }
        merkle_root_of(&chunks, 3)
    }
}

impl Serialize for BlindedBlobSidecar {
    open spec fn encoding(&self) -> Seq<u8> {
        self.block_root.encoding() + self.index.encoding() + self.slot.encoding() + self.block_parent_root.encoding() + self.proposer_index.encoding() + self.blob_root.encoding() + self.kzg_commitment.encoding() + self.kzg_proof.encoding()
    }

    fn serialize_into(&self, buffer: &mut Vec<u8>) {
        self.block_root.serialize_into(buffer);
        self.index.serialize_into(buffer);
        self.slot.serialize_into(buffer);
        self.block_parent_root.serialize_into(buffer);
        self.proposer_index.serialize_into(buffer);
        self.blob_root.serialize_into(buffer);
        self.kzg_commitment.serialize_into(buffer);
        self.kzg_proof.serialize_into(buffer);
        proof {
            assert(buffer@ =~= old(buffer)@ + self.encoding());
        }
    }
}

impl BlindedBlobSidecar {
    /// The length of the encoding: 216 bytes.
    pub open spec fn encoded_len() -> nat {
        216
    }

    /// Whether the fields are what the bytes of `encoding` say, each at its
    /// place.
    pub open spec fn decoded_from(&self, encoding: Seq<u8>) -> bool {
        &&& self.block_root@ == encoding.subrange(0, 32)
        &&& self.index == spec_u64_from_le_bytes(encoding.subrange(32, 40))
        &&& self.slot == spec_u64_from_le_bytes(encoding.subrange(40, 48))
        &&& self.block_parent_root@ == encoding.subrange(48, 80)
        &&& self.proposer_index == spec_u64_from_le_bytes(encoding.subrange(80, 88))
        &&& self.blob_root@ == encoding.subrange(88, 120)
        &&& self.kzg_commitment@ == encoding.subrange(120, 168)
        &&& self.kzg_proof@ == encoding.subrange(168, 216)
    }

    /// What decoding `encoding` gives: the value whose fields the bytes
    /// say, or the error that says what is wrong with them.
    pub open spec fn decodes(encoding: Seq<u8>, result: Result<Self, DeserializeError>) -> bool {
        if encoding.len() < 216 {
            result == Err::<Self, DeserializeError>(
                DeserializeError::ExpectedFurtherInput {
                    provided: encoding.len() as usize,
                    expected: 216,
                },
            )
        } else if encoding.len() > 216 {
            result == Err::<Self, DeserializeError>(
                DeserializeError::AdditionalInput {
                    provided: encoding.len() as usize,
                    expected: 216,
                },
            )
        } else {
            result is Ok && result->Ok_0.decoded_from(encoding)
        }
    }

    /// Decodes a value: the input holds the fields in order and nothing
    /// else.
    pub fn deserialize(encoding: &[u8]) -> (result: Result<Self, DeserializeError>)
        ensures
            Self::decodes(encoding@, result),
    {
        if encoding.len() < 216 {
            return Err(
                DeserializeError::ExpectedFurtherInput { provided: encoding.len(), expected: 216 },
            );
        }
        if encoding.len() > 216 {
            return Err(
                DeserializeError::AdditionalInput { provided: encoding.len(), expected: 216 },
            );
        }
        let block_root: [u8; 32] = read_array(encoding, 0);
        let index: u64 = u64_from_le_bytes(slice_subrange(encoding, 32, 40));
        let slot: u64 = u64_from_le_bytes(slice_subrange(encoding, 40, 48));
        let block_parent_root: [u8; 32] = read_array(encoding, 48);
        let proposer_index: u64 = u64_from_le_bytes(slice_subrange(encoding, 80, 88));
        let blob_root: [u8; 32] = read_array(encoding, 88);
        let kzg_commitment: [u8; 48] = read_array(encoding, 120);
        let kzg_proof: [u8; 48] = read_array(encoding, 168);
        Ok(BlindedBlobSidecar { block_root, index, slot, block_parent_root, proposer_index, blob_root, kzg_commitment, kzg_proof })
    }

    /// The encoding has its length, and its bytes say the fields.
    pub proof fn lemma_encoding_decodes(&self)
        ensures
            self.encoding().len() == 216,
            self.decoded_from(self.encoding()),
    {
        lemma_auto_spec_u64_to_from_le_bytes();
        assert(self.encoding().subrange(0, 32) =~= self.block_root.encoding());
        assert(self.encoding().subrange(32, 40) =~= self.index.encoding());
        assert(self.encoding().subrange(40, 48) =~= self.slot.encoding());
        assert(self.encoding().subrange(48, 80) =~= self.block_parent_root.encoding());
        assert(self.encoding().subrange(80, 88) =~= self.proposer_index.encoding());
        assert(self.encoding().subrange(88, 120) =~= self.blob_root.encoding());
        assert(self.encoding().subrange(120, 168) =~= self.kzg_commitment.encoding());
        assert(self.encoding().subrange(168, 216) =~= self.kzg_proof.encoding());
    }

    /// Decoding the encoding of a value gives the value back.
    pub proof fn lemma_round_trip(&self, decoded: Result<Self, DeserializeError>)
        requires
            Self::decodes(self.encoding(), decoded),
        ensures
            decoded == Ok::<Self, DeserializeError>(*self),
    {
        self.lemma_encoding_decodes();
        self.lemma_decoded_is_self(decoded->Ok_0, self.encoding());
    }

    /// Only one value has the fields that the bytes say.
    pub proof fn lemma_decoded_is_self(&self, other: Self, encoding: Seq<u8>)
        requires
            self.decoded_from(encoding),
            other.decoded_from(encoding),
        ensures
            *self == other,
    {
        assert(self.block_root =~= other.block_root);
        assert(self.block_parent_root =~= other.block_parent_root);
        assert(self.blob_root =~= other.blob_root);
        assert(self.kzg_commitment =~= other.kzg_commitment);
        assert(self.kzg_proof =~= other.kzg_proof);
    }
}

/// A blinded blob sidecar with the signature of the proposer.
#[derive(Clone, Copy, Debug, PartialEq, Eq)]
pub struct SignedBlindedBlobSidecar {
    pub message: BlindedBlobSidecar,
    pub signature: BlsSignature,
}

impl Composite for SignedBlindedBlobSidecar {

}

impl Merkleized for SignedBlindedBlobSidecar {
    open spec fn root_spec(&self) -> Seq<u8> {
        merkle_root(
            seq![
                self.message.root_spec(),
                self.signature.root_spec(),
            ],
            1,
        )
    }

    fn hash_tree_root(&self) -> (root: [u8; 32]) {
        let mut chunks: Vec<[u8; 32]> = Vec::new();
        chunks.push(self.message.hash_tree_root());
        chunks.push(self.signature.hash_tree_root());
        proof {
            assert(chunk_views(chunks@) =~= seq![
                self.message.root_spec(),
                self.signature.root_spec(),
            ]);
        }
        merkle_root_of(&chunks, 1)
    }
}

impl Serialize for SignedBlindedBlobSidecar {
    open spec fn encoding(&self) -> Seq<u8> {
        self.message.encoding() + self.signature.encoding()
    }

    fn serialize_into(&self, buffer: &mut Vec<u8>) {
        self.message.serialize_into(buffer);
        self.signature.serialize_into(buffer);
        proof {
            assert(buffer@ =~= old(buffer)@ + self.encoding());
        }
    }
}

impl SignedBlindedBlobSidecar {
    /// The length of the encoding: 312 bytes.
    pub open spec fn encoded_len() -> nat {
        312
    }

    /// Whether the fields are what the bytes of `encoding` say, each at its
    /// place.
    pub open spec fn decoded_from(&self, encoding: Seq<u8>) -> bool {
        &&& self.message.decoded_from(encoding.subrange(0, 216))
        &&& self.signature@ == encoding.subrange(216, 312)
    }

    /// What decoding `encoding` gives: the value whose fields the bytes
    /// say, or the error that says what is wrong with them.
    pub open spec fn decodes(encoding: Seq<u8>, result: Result<Self, DeserializeError>) -> bool {
        if encoding.len() < 312 {
            result == Err::<Self, DeserializeError>(
                DeserializeError::ExpectedFurtherInput {
                    provided: encoding.len() as usize,
                    expected: 312,
                },
            )
        } else if encoding.len() > 312 {
            result == Err::<Self, DeserializeError>(
                DeserializeError::AdditionalInput {
                    provided: encoding.len() as usize,
                    expected: 312,
                },
            )
        } else {
            result is Ok && result->Ok_0.decoded_from(encoding)
        }
    }

    /// Decodes a value: the input holds the fields in order and nothing
    /// else.
    pub fn deserialize(encoding: &[u8]) -> (result: Result<Self, DeserializeError>)
        ensures
            Self::decodes(encoding@, result),
    {
        if encoding.len() < 312 {
            return Err(
                DeserializeError::ExpectedFurtherInput { provided: encoding.len(), expected: 312 },
            );
        }
        if encoding.len() > 312 {
            return Err(
                DeserializeError::AdditionalInput { provided: encoding.len(), expected: 312 },
            );
        }
        let message = match BlindedBlobSidecar::deserialize(slice_subrange(encoding, 0, 216)) {
            Ok(value) => value,
            Err(e) => {
                return Err(e);
            },
        };
        let signature: [u8; 96] = read_array(encoding, 216);
        Ok(SignedBlindedBlobSidecar { message, signature })
    }

    /// The encoding has its length, and its bytes say the fields.
    pub proof fn lemma_encoding_decodes(&self)
        ensures
            self.encoding().len() == 312,
            self.decoded_from(self.encoding()),
    {
        lemma_auto_spec_u64_to_from_le_bytes();
        self.message.lemma_encoding_decodes();
        assert(self.encoding().subrange(0, 216) =~= self.message.encoding());
        assert(self.encoding().subrange(216, 312) =~= self.signature.encoding());
    }

    /// Decoding the encoding of a value gives the value back.
    pub proof fn lemma_round_trip(&self, decoded: Result<Self, DeserializeError>)
        requires
            Self::decodes(self.encoding(), decoded),
        ensures
            decoded == Ok::<Self, DeserializeError>(*self),
    {
        self.lemma_encoding_decodes();
        self.lemma_decoded_is_self(decoded->Ok_0, self.encoding());
    }

    /// Only one value has the fields that the bytes say.
    pub proof fn lemma_decoded_is_self(&self, other: Self, encoding: Seq<u8>)
        requires
            self.decoded_from(encoding),
            other.decoded_from(encoding),
        ensures
            *self == other,
    {
        self.message.lemma_decoded_is_self(other.message, encoding.subrange(0, 216));
        assert(self.signature =~= other.signature);
    }
}
} // verus!
