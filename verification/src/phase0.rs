//! The containers of the first fork.

use crate::collections::{Bitlist, Bitvector, List, UintList, UintVector, Vector};
use crate::merkle::{chunk_views, merkle_root, merkle_root_of};
use crate::offsets::{
    offset_at, offsets_error, offsets_of, ranges_view, split_variable_parts, variable_ranges,
    write_offset,
};
use crate::primitives::{
    BlsPublicKey, BlsSignature, Bytes32, Epoch, Gwei, Hash32, Root, Slot, ValidatorIndex, Version,
};
use crate::ssz::{read_array, read_bool, Composite, DeserializeError, Merkleized, Serialize};
use vstd::bytes::{
    lemma_auto_spec_u32_to_from_le_bytes, lemma_auto_spec_u64_to_from_le_bytes,
    spec_u32_to_le_bytes, spec_u64_from_le_bytes, u64_from_le_bytes,
};
use vstd::prelude::*;
use vstd::slice::slice_subrange;

verus! {

/// The number of epochs whose justification the state remembers.
pub const JUSTIFICATION_BITS_LENGTH: usize = 4;

/// Two versions and the epoch at which the second took over.
#[derive(Clone, Copy, Debug, PartialEq, Eq)]
pub struct Fork {
    pub previous_version: Version,
    pub current_version: Version,
    pub epoch: Epoch,
}

impl Composite for Fork {

}

impl Merkleized for Fork {
    open spec fn root_spec(&self) -> Seq<u8> {
        merkle_root(
            seq![
                self.previous_version.root_spec(),
                self.current_version.root_spec(),
                self.epoch.root_spec(),
            ],
            2,
        )
    }

    fn hash_tree_root(&self) -> (root: [u8; 32]) {
        let mut chunks: Vec<[u8; 32]> = Vec::new();
        chunks.push(self.previous_version.hash_tree_root());
        chunks.push(self.current_version.hash_tree_root());
        chunks.push(self.epoch.hash_tree_root());
        proof {
            assert(chunk_views(chunks@) =~= seq![
                self.previous_version.root_spec(),
                self.current_version.root_spec(),
                self.epoch.root_spec(),
            ]);
        }
        merkle_root_of(&chunks, 2)
    }
}

impl Serialize for Fork {
    open spec fn encoding(&self) -> Seq<u8> {
        self.previous_version.encoding() + self.current_version.encoding() + self.epoch.encoding()
    }

    fn serialize_into(&self, buffer: &mut Vec<u8>) {
        self.previous_version.serialize_into(buffer);
        self.current_version.serialize_into(buffer);
        self.epoch.serialize_into(buffer);
        proof {
            assert(buffer@ =~= old(buffer)@ + self.encoding());
        }
    }
}

impl Fork {
    /// The length of the encoding: 16 bytes.
    pub open spec fn encoded_len() -> nat {
        16
    }

    /// Whether the fields are what the bytes of `encoding` say, each at its
    /// place.
    pub open spec fn decoded_from(&self, encoding: Seq<u8>) -> bool {
        &&& self.previous_version@ == encoding.subrange(0, 4)
        &&& self.current_version@ == encoding.subrange(4, 8)
        &&& self.epoch == spec_u64_from_le_bytes(encoding.subrange(8, 16))
    }

    /// What decoding `encoding` gives: the value whose fields the bytes
    /// say, or the error that says what is wrong with them.
    pub open spec fn decodes(encoding: Seq<u8>, result: Result<Self, DeserializeError>) -> bool {
        if encoding.len() < 16 {
            result == Err::<Self, DeserializeError>(
                DeserializeError::ExpectedFurtherInput {
                    provided: encoding.len() as usize,
                    expected: 16,
                },
            )
        } else if encoding.len() > 16 {
            result == Err::<Self, DeserializeError>(
                DeserializeError::AdditionalInput {
                    provided: encoding.len() as usize,
                    expected: 16,
                },
            )
        } else {
            result is Ok && result->Ok_0.decoded_from(encoding)
        }
    }

    /// Decodes a value: the input holds the fields in order and nothing
    /// else.
    pub fn deserialize(encoding: &[u8]) -> (result: Result<Self, DeserializeError>)
        ensures
            Self::decodes(encoding@, result),
    {
        if encoding.len() < 16 {
            return Err(
                DeserializeError::ExpectedFurtherInput { provided: encoding.len(), expected: 16 },
            );
        }
        if encoding.len() > 16 {
            return Err(
                DeserializeError::AdditionalInput { provided: encoding.len(), expected: 16 },
            );
        }
        let previous_version: [u8; 4] = read_array(encoding, 0);
        let current_version: [u8; 4] = read_array(encoding, 4);
        let epoch: u64 = u64_from_le_bytes(slice_subrange(encoding, 8, 16));
        Ok(Fork { previous_version, current_version, epoch })
    }

    /// The encoding has its length, and its bytes say the fields.
    pub proof fn lemma_encoding_decodes(&self)
        ensures
            self.encoding().len() == 16,
            self.decoded_from(self.encoding()),
    {
        lemma_auto_spec_u64_to_from_le_bytes();
        assert(self.encoding().subrange(0, 4) =~= self.previous_version.encoding());
        assert(self.encoding().subrange(4, 8) =~= self.current_version.encoding());
        assert(self.encoding().subrange(8, 16) =~= self.epoch.encoding());
    }

    /// Decoding the encoding of a value gives the value back.
    pub proof fn lemma_round_trip(&self, decoded: Result<Self, DeserializeError>)
        requires
            Self::decodes(self.encoding(), decoded),
        ensures
            decoded == Ok::<Self, DeserializeError>(*self),
    {
        self.lemma_encoding_decodes();
        self.lemma_decoded_is_self(decoded->Ok_0, self.encoding());
    }

    /// Only one value has the fields that the bytes say.
    pub proof fn lemma_decoded_is_self(&self, other: Self, encoding: Seq<u8>)
        requires
            self.decoded_from(encoding),
            other.decoded_from(encoding),
        ensures
            *self == other,
    {
        assert(self.previous_version =~= other.previous_version);
        assert(self.current_version =~= other.current_version);
    }
}

/// What a domain is derived from besides its type.
#[derive(Clone, Copy, Debug, PartialEq, Eq)]
pub struct ForkData {
    pub current_version: Version,
    pub genesis_validators_root: Root,
}

impl Composite for ForkData {

}

impl Merkleized for ForkData {
    open spec fn root_spec(&self) -> Seq<u8> {
        merkle_root(
            seq![
                self.current_version.root_spec(),
                self.genesis_validators_root.root_spec(),
            ],
            1,
        )
    }

    fn hash_tree_root(&self) -> (root: [u8; 32]) {
        let mut chunks: Vec<[u8; 32]> = Vec::new();
        chunks.push(self.current_version.hash_tree_root());
        chunks.push(self.genesis_validators_root.hash_tree_root());
        proof {
            assert(chunk_views(chunks@) =~= seq![
                self.current_version.root_spec(),
                self.genesis_validators_root.root_spec(),
            ]);
        }
        merkle_root_of(&chunks, 1)
    }
}

impl Serialize for ForkData {
    open spec fn encoding(&self) -> Seq<u8> {
        self.current_version.encoding() + self.genesis_validators_root.encoding()
    }

    fn serialize_into(&self, buffer: &mut Vec<u8>) {
        self.current_version.serialize_into(buffer);
        self.genesis_validators_root.serialize_into(buffer);
        proof {
            assert(buffer@ =~= old(buffer)@ + self.encoding());
        }
    }
}

impl ForkData {
    /// The length of the encoding: 36 bytes.
    pub open spec fn encoded_len() -> nat {
        36
    }

    /// Whether the fields are what the bytes of `encoding` say, each at its
    /// place.
    pub open spec fn decoded_from(&self, encoding: Seq<u8>) -> bool {
        &&& self.current_version@ == encoding.subrange(0, 4)
        &&& self.genesis_validators_root@ == encoding.subrange(4, 36)
    }

    /// What decoding `encoding` gives: the value whose fields the bytes
    /// say, or the error that says what is wrong with them.
    pub open spec fn decodes(encoding: Seq<u8>, result: Result<Self, DeserializeError>) -> bool {
        if encoding.len() < 36 {
            result == Err::<Self, DeserializeError>(
                DeserializeError::ExpectedFurtherInput {
                    provided: encoding.len() as usize,
                    expected: 36,
                },
            )
        } else if encoding.len() > 36 {
            result == Err::<Self, DeserializeError>(
                DeserializeError::AdditionalInput {
                    provided: encoding.len() as usize,
                    expected: 36,
                },
            )
        } else {
            result is Ok && result->Ok_0.decoded_from(encoding)
        }
    }

    /// Decodes a value: the input holds the fields in order and nothing
    /// else.
    pub fn deserialize(encoding: &[u8]) -> (result: Result<Self, DeserializeError>)
        ensures
            Self::decodes(encoding@, result),
    {
        if encoding.len() < 36 {
            return Err(
                DeserializeError::ExpectedFurtherInput { provided: encoding.len(), expected: 36 },
            );
        }
        if encoding.len() > 36 {
            return Err(
                DeserializeError::AdditionalInput { provided: encoding.len(), expected: 36 },
            );
        }
        let current_version: [u8; 4] = read_array(encoding, 0);
        let genesis_validators_root: [u8; 32] = read_array(encoding, 4);
        Ok(ForkData { current_version, genesis_validators_root })
    }

    /// The encoding has its length, and its bytes say the fields.
    pub proof fn lemma_encoding_decodes(&self)
        ensures
            self.encoding().len() == 36,
            self.decoded_from(self.encoding()),
    {
        lemma_auto_spec_u64_to_from_le_bytes();
        assert(self.encoding().subrange(0, 4) =~= self.current_version.encoding());
        assert(self.encoding().subrange(4, 36) =~= self.genesis_validators_root.encoding());
    }

    /// Decoding the encoding of a value gives the value back.
    pub proof fn lemma_round_trip(&self, decoded: Result<Self, DeserializeError>)
        requires
            Self::decodes(self.encoding(), decoded),
        ensures
            decoded == Ok::<Self, DeserializeError>(*self),
    {
        self.lemma_encoding_decodes();
        self.lemma_decoded_is_self(decoded->Ok_0, self.encoding());
    }

    /// Only one value has the fields that the bytes say.
    pub proof fn lemma_decoded_is_self(&self, other: Self, encoding: Seq<u8>)
        requires
            self.decoded_from(encoding),
            other.decoded_from(encoding),
        ensures
            *self == other,
    {
        assert(self.current_version =~= other.current_version);
        assert(self.genesis_validators_root =~= other.genesis_validators_root);
    }
}

/// An epoch and the root of the block at its start.
#[derive(Clone, Copy, Debug, PartialEq, Eq)]
pub struct Checkpoint {
    pub epoch: Epoch,
    pub root: Root,
}

impl Composite for Checkpoint {

}

impl Merkleized for Checkpoint {
    open spec fn root_spec(&self) -> Seq<u8> {
        merkle_root(
            seq![
                self.epoch.root_spec(),
                self.root.root_spec(),
            ],
            1,
        )
    }

    fn hash_tree_root(&self) -> (root: [u8; 32]) {
        let mut chunks: Vec<[u8; 32]> = Vec::new();
        chunks.push(self.epoch.hash_tree_root());
        chunks.push(self.root.hash_tree_root());
        proof {
            assert(chunk_views(chunks@) =~= seq![
                self.epoch.root_spec(),
                self.root.root_spec(),
            ]);
        }
        merkle_root_of(&chunks, 1)
    }
}

impl Serialize for Checkpoint {
    open spec fn encoding(&self) -> Seq<u8> {
        self.epoch.encoding() + self.root.encoding()
    }

    fn serialize_into(&self, buffer: &mut Vec<u8>) {
        self.epoch.serialize_into(buffer);
        self.root.serialize_into(buffer);
        proof {
            assert(buffer@ =~= old(buffer)@ + self.encoding());
        }
    }
}

impl Checkpoint {
    /// The length of the encoding: 40 bytes.
    pub open spec fn encoded_len() -> nat {
        40
    }

    /// Whether the fields are what the bytes of `encoding` say, each at its
    /// place.
    pub open spec fn decoded_from(&self, encoding: Seq<u8>) -> bool {
        &&& self.epoch == spec_u64_from_le_bytes(encoding.subrange(0, 8))
        &&& self.root@ == encoding.subrange(8, 40)
    }

    /// What decoding `encoding` gives: the value whose fields the bytes
    /// say, or the error that says what is wrong with them.
    pub open spec fn decodes(encoding: Seq<u8>, result: Result<Self, DeserializeError>) -> bool {
        if encoding.len() < 40 {
            result == Err::<Self, DeserializeError>(
                DeserializeError::ExpectedFurtherInput {
                    provided: encoding.len() as usize,
                    expected: 40,
                },
            )
        } else if encoding.len() > 40 {
            result == Err::<Self, DeserializeError>(
                DeserializeError::AdditionalInput {
                    provided: encoding.len() as usize,
                    expected: 40,
                },
            )
        } else {
            result is Ok && result->Ok_0.decoded_from(encoding)
        }
    }

    /// Decodes a value: the input holds the fields in order and nothing
    /// else.
    pub fn deserialize(encoding: &[u8]) -> (result: Result<Self, DeserializeError>)
        ensures
            Self::decodes(encoding@, result),
    {
        if encoding.len() < 40 {
            return Err(
                DeserializeError::ExpectedFurtherInput { provided: encoding.len(), expected: 40 },
            );
        }
        if encoding.len() > 40 {
            return Err(
                DeserializeError::AdditionalInput { provided: encoding.len(), expected: 40 },
            );
        }
        let epoch: u64 = u64_from_le_bytes(slice_subrange(encoding, 0, 8));
        let root: [u8; 32] = read_array(encoding, 8);
        Ok(Checkpoint { epoch, root })
    }

    /// The encoding has its length, and its bytes say the fields.
    pub proof fn lemma_encoding_decodes(&self)
        ensures
            self.encoding().len() == 40,
            self.decoded_from(self.encoding()),
    {
        lemma_auto_spec_u64_to_from_le_bytes();
        assert(self.encoding().subrange(0, 8) =~= self.epoch.encoding());
        assert(self.encoding().subrange(8, 40) =~= self.root.encoding());
    }

    /// Decoding the encoding of a value gives the value back.
    pub proof fn lemma_round_trip(&self, decoded: Result<Self, DeserializeError>)
        requires
            Self::decodes(self.encoding(), decoded),
        ensures
            decoded == Ok::<Self, DeserializeError>(*self),
    {
        self.lemma_encoding_decodes();
        self.lemma_decoded_is_self(decoded->Ok_0, self.encoding());
    }

    /// Only one value has the fields that the bytes say.
    pub proof fn lemma_decoded_is_self(&self, other: Self, encoding: Seq<u8>)
        requires
            self.decoded_from(encoding),
            other.decoded_from(encoding),
        ensures
            *self == other,
    {
        assert(self.root =~= other.root);
    }
}

/// The state of the deposit contract as a block saw it.
#[derive(Clone, Copy, Debug, PartialEq, Eq)]
pub struct Eth1Data {
    pub deposit_root: Root,
    pub deposit_count: u64,
    pub block_hash: Hash32,
}

impl Composite for Eth1Data {

}

impl Merkleized for Eth1Data {
    open spec fn root_spec(&self) -> Seq<u8> {
        merkle_root(
            seq![
                self.deposit_root.root_spec(),
                self.deposit_count.root_spec(),
                self.block_hash.root_spec(),
            ],
            2,
        )
    }

    fn hash_tree_root(&self) -> (root: [u8; 32]) {
        let mut chunks: Vec<[u8; 32]> = Vec::new();
        chunks.push(self.deposit_root.hash_tree_root());
        chunks.push(self.deposit_count.hash_tree_root());
        chunks.push(self.block_hash.hash_tree_root());
        proof {
            assert(chunk_views(chunks@) =~= seq![
                self.deposit_root.root_spec(),
                self.deposit_count.root_spec(),
                self.block_hash.root_spec(),
            ]);
        }
        merkle_root_of(&chunks, 2)
    }
}

impl Serialize for Eth1Data {
    open spec fn encoding(&self) -> Seq<u8> {
        self.deposit_root.encoding() + self.deposit_count.encoding() + self.block_hash.encoding()
    }

    fn serialize_into(&self, buffer: &mut Vec<u8>) {
        self.deposit_root.serialize_into(buffer);
        self.deposit_count.serialize_into(buffer);
        self.block_hash.serialize_into(buffer);
        proof {
            assert(buffer@ =~= old(buffer)@ + self.encoding());
        }
    }
}

impl Eth1Data {
    /// The length of the encoding: 72 bytes.
    pub open spec fn encoded_len() -> nat {
        72
    }

    /// Whether the fields are what the bytes of `encoding` say, each at its
    /// place.
    pub open spec fn decoded_from(&self, encoding: Seq<u8>) -> bool {
        &&& self.deposit_root@ == encoding.subrange(0, 32)
        &&& self.deposit_count == spec_u64_from_le_bytes(encoding.subrange(32, 40))
        &&& self.block_hash@ == encoding.subrange(40, 72)
    }

    /// What decoding `encoding` gives: the value whose fields the bytes
    /// say, or the error that says what is wrong with them.
    pub open spec fn decodes(encoding: Seq<u8>, result: Result<Self, DeserializeError>) -> bool {
        if encoding.len() < 72 {
            result == Err::<Self, DeserializeError>(
                DeserializeError::ExpectedFurtherInput {
                    provided: encoding.len() as usize,
                    expected: 72,
                },
            )
        } else if encoding.len() > 72 {
            result == Err::<Self, DeserializeError>(
                DeserializeError::AdditionalInput {
                    provided: encoding.len() as usize,
                    expected: 72,
                },
            )
        } else {
            result is Ok && result->Ok_0.decoded_from(encoding)
        }
    }

    /// Decodes a value: the input holds the fields in order and nothing
    /// else.
    pub fn deserialize(encoding: &[u8]) -> (result: Result<Self, DeserializeError>)
        ensures
            Self::decodes(encoding@, result),
    {
        if encoding.len() < 72 {
            return Err(
                DeserializeError::ExpectedFurtherInput { provided: encoding.len(), expected: 72 },
            );
        }
        if encoding.len() > 72 {
            return Err(
                DeserializeError::AdditionalInput { provided: encoding.len(), expected: 72 },
            );
        }
        let deposit_root: [u8; 32] = read_array(encoding, 0);
        let deposit_count: u64 = u64_from_le_bytes(slice_subrange(encoding, 32, 40));
        let block_hash: [u8; 32] = read_array(encoding, 40);
        Ok(Eth1Data { deposit_root, deposit_count, block_hash })
    }

    /// The encoding has its length, and its bytes say the fields.
    pub proof fn lemma_encoding_decodes(&self)
        ensures
            self.encoding().len() == 72,
            self.decoded_from(self.encoding()),
    {
        lemma_auto_spec_u64_to_from_le_bytes();
        assert(self.encoding().subrange(0, 32) =~= self.deposit_root.encoding());
        assert(self.encoding().subrange(32, 40) =~= self.deposit_count.encoding());
        assert(self.encoding().subrange(40, 72) =~= self.block_hash.encoding());
    }

    /// Decoding the encoding of a value gives the value back.
    pub proof fn lemma_round_trip(&self, decoded: Result<Self, DeserializeError>)
        requires
            Self::decodes(self.encoding(), decoded),
        ensures
            decoded == Ok::<Self, DeserializeError>(*self),
    {
        self.lemma_encoding_decodes();
        self.lemma_decoded_is_self(decoded->Ok_0, self.encoding());
    }

    /// Only one value has the fields that the bytes say.
    pub proof fn lemma_decoded_is_self(&self, other: Self, encoding: Seq<u8>)
        requires
            self.decoded_from(encoding),
            other.decoded_from(encoding),
        ensures
            *self == other,
    {
        assert(self.deposit_root =~= other.deposit_root);
        assert(self.block_hash =~= other.block_hash);
    }
}

/// A block without its body.
#[derive(Clone, Copy, Debug, PartialEq, Eq)]
pub struct BeaconBlockHeader {
    pub slot: Slot,
    pub proposer_index: ValidatorIndex,
    pub parent_root: Root,
    pub state_root: Root,
    pub body_root: Root,
}

impl Composite for BeaconBlockHeader {

}

impl Merkleized for BeaconBlockHeader {
    open spec fn root_spec(&self) -> Seq<u8> {
        merkle_root(
            seq![
                self.slot.root_spec(),
                self.proposer_index.root_spec(),
                self.parent_root.root_spec(),
                self.state_root.root_spec(),
                self.body_root.root_spec(),
            ],
            3,
        )
    }

    fn hash_tree_root(&self) -> (root: [u8; 32]) {
        let mut chunks: Vec<[u8; 32]> = Vec::new();
        chunks.push(self.slot.hash_tree_root());
        chunks.push(self.proposer_index.hash_tree_root());
        chunks.push(self.parent_root.hash_tree_root());
        chunks.push(self.state_root.hash_tree_root());
        chunks.push(self.body_root.hash_tree_root());
        proof {
            assert(chunk_views(chunks@) =~= seq![
                self.slot.root_spec(),
                self.proposer_index.root_spec(),
                self.parent_root.root_spec(),
                self.state_root.root_spec(),
                self.body_root.root_spec(),
            ]);
        }
        merkle_root_of(&chunks, 3)
    }
}

impl Serialize for BeaconBlockHeader {
    open spec fn encoding(&self) -> Seq<u8> {
        self.slot.encoding() + self.proposer_index.encoding() + self.parent_root.encoding() + self.state_root.encoding() + self.body_root.encoding()
    }

    fn serialize_into(&self, buffer: &mut Vec<u8>) {
        self.slot.serialize_into(buffer);
        self.proposer_index.serialize_into(buffer);
        self.parent_root.serialize_into(buffer);
        self.state_root.serialize_into(buffer);
        self.body_root.serialize_into(buffer);
        proof {
            assert(buffer@ =~= old(buffer)@ + self.encoding());
        }
    }
}

impl BeaconBlockHeader {
    /// The length of the encoding: 112 bytes.
    pub open spec fn encoded_len() -> nat {
        112
    }

    /// Whether the fields are what the bytes of `encoding` say, each at its
    /// place.
    pub open spec fn decoded_from(&self, encoding: Seq<u8>) -> bool {
        &&& self.slot == spec_u64_from_le_bytes(encoding.subrange(0, 8))
        &&& self.proposer_index == spec_u64_from_le_bytes(encoding.subrange(8, 16))
        &&& self.parent_root@ == encoding.subrange(16, 48)
        &&& self.state_root@ == encoding.subrange(48, 80)
        &&& self.body_root@ == encoding.subrange(80, 112)
    }

    /// What decoding `encoding` gives: the value whose fields the bytes
    /// say, or the error that says what is wrong with them.
    pub open spec fn decodes(encoding: Seq<u8>, result: Result<Self, DeserializeError>) -> bool {
        if encoding.len() < 112 {
            result == Err::<Self, DeserializeError>(
                DeserializeError::ExpectedFurtherInput {
                    provided: encoding.len() as usize,
                    expected: 112,
                },
            )
        } else if encoding.len() > 112 {
            result == Err::<Self, DeserializeError>(
                DeserializeError::AdditionalInput {
                    provided: encoding.len() as usize,
                    expected: 112,
                },
            )
        } else {
            result is Ok && result->Ok_0.decoded_from(encoding)
        }
    }

    /// Decodes a value: the input holds the fields in order and nothing
    /// else.
    pub fn deserialize(encoding: &[u8]) -> (result: Result<Self, DeserializeError>)
        ensures
            Self::decodes(encoding@, result),
    {
        if encoding.len() < 112 {
            return Err(
                DeserializeError::ExpectedFurtherInput { provided: encoding.len(), expected: 112 },
            );
        }
        if encoding.len() > 112 {
            return Err(
                DeserializeError::AdditionalInput { provided: encoding.len(), expected: 112 },
            );
        }
        let slot: u64 = u64_from_le_bytes(slice_subrange(encoding, 0, 8));
        let proposer_index: u64 = u64_from_le_bytes(slice_subrange(encoding, 8, 16));
        let parent_root: [u8; 32] = read_array(encoding, 16);
        let state_root: [u8; 32] = read_array(encoding, 48);
        let body_root: [u8; 32] = read_array(encoding, 80);
        Ok(BeaconBlockHeader { slot, proposer_index, parent_root, state_root, body_root })
    }

    /// The encoding has its length, and its bytes say the fields.
    pub proof fn lemma_encoding_decodes(&self)
        ensures
            self.encoding().len() == 112,
            self.decoded_from(self.encoding()),
    {
        lemma_auto_spec_u64_to_from_le_bytes();
        assert(self.encoding().subrange(0, 8) =~= self.slot.encoding());
        assert(self.encoding().subrange(8, 16) =~= self.proposer_index.encoding());
        assert(self.encoding().subrange(16, 48) =~= self.parent_root.encoding());
        assert(self.encoding().subrange(48, 80) =~= self.state_root.encoding());
        assert(self.encoding().subrange(80, 112) =~= self.body_root.encoding());
    }

    /// Decoding the encoding of a value gives the value back.
    pub proof fn lemma_round_trip(&self, decoded: Result<Self, DeserializeError>)
        requires
            Self::decodes(self.encoding(), decoded),
        ensures
            decoded == Ok::<Self, DeserializeError>(*self),
    {
        self.lemma_encoding_decodes();
        self.lemma_decoded_is_self(decoded->Ok_0, self.encoding());
    }

    /// Only one value has the fields that the bytes say.
    pub proof fn lemma_decoded_is_self(&self, other: Self, encoding: Seq<u8>)
        requires
            self.decoded_from(encoding),
            other.decoded_from(encoding),
        ensures
            *self == other,
    {
        assert(self.parent_root =~= other.parent_root);
        assert(self.state_root =~= other.state_root);
        assert(self.body_root =~= other.body_root);
    }
}

/// One entry of the registry.
#[derive(Clone, Copy, Debug, PartialEq, Eq)]
pub struct Validator {
    pub public_key: BlsPublicKey,
    pub withdrawal_credentials: Bytes32,
    pub effective_balance: Gwei,
    pub slashed: bool,
    pub activation_eligibility_epoch: Epoch,
    pub activation_epoch: Epoch,
    pub exit_epoch: Epoch,
    pub withdrawable_epoch: Epoch,
}

impl Composite for Validator {

}

impl Merkleized for Validator {
    open spec fn root_spec(&self) -> Seq<u8> {
        merkle_root(
            seq![
                self.public_key.root_spec(),
                self.withdrawal_credentials.root_spec(),
                self.effective_balance.root_spec(),
                self.slashed.root_spec(),
                self.activation_eligibility_epoch.root_spec(),
                self.activation_epoch.root_spec(),
                self.exit_epoch.root_spec(),
                self.withdrawable_epoch.root_spec(),
            ],
            3,
        )
    }

    fn hash_tree_root(&self) -> (root: [u8; 32]) {
        let mut chunks: Vec<[u8; 32]> = Vec::new();
        chunks.push(self.public_key.hash_tree_root());
        chunks.push(self.withdrawal_credentials.hash_tree_root());
        chunks.push(self.effective_balance.hash_tree_root());
        chunks.push(self.slashed.hash_tree_root());
        chunks.push(self.activation_eligibility_epoch.hash_tree_root());
        chunks.push(self.activation_epoch.hash_tree_root());
        chunks.push(self.exit_epoch.hash_tree_root());
        chunks.push(self.withdrawable_epoch.hash_tree_root());
        proof {
            assert(chunk_views(chunks@) =~= seq![
                self.public_key.root_spec(),
                self.withdrawal_credentials.root_spec(),
                self.effective_balance.root_spec(),
                self.slashed.root_spec(),
                self.activation_eligibility_epoch.root_spec(),
                self.activation_epoch.root_spec(),
                self.exit_epoch.root_spec(),
                self.withdrawable_epoch.root_spec(),
            ]);
        }
        merkle_root_of(&chunks, 3)
    }
}

impl Serialize for Validator {
    open spec fn encoding(&self) -> Seq<u8> {
        self.public_key.encoding() + self.withdrawal_credentials.encoding() + self.effective_balance.encoding() + self.slashed.encoding() + self.activation_eligibility_epoch.encoding() + self.activation_epoch.encoding() + self.exit_epoch.encoding() + self.withdrawable_epoch.encoding()
    }

    fn serialize_into(&self, buffer: &mut Vec<u8>) {
        self.public_key.serialize_into(buffer);
        self.withdrawal_credentials.serialize_into(buffer);
        self.effective_balance.serialize_into(buffer);
        self.slashed.serialize_into(buffer);
        self.activation_eligibility_epoch.serialize_into(buffer);
        self.activation_epoch.serialize_into(buffer);
        self.exit_epoch.serialize_into(buffer);
        self.withdrawable_epoch.serialize_into(buffer);
        proof {
            assert(buffer@ =~= old(buffer)@ + self.encoding());
        }
    }
}

impl Validator {
    /// The length of the encoding: 121 bytes.
    pub open spec fn encoded_len() -> nat {
        121
    }

    /// Whether the fields are what the bytes of `encoding` say, each at its
    /// place.
    pub open spec fn decoded_from(&self, encoding: Seq<u8>) -> bool {
        &&& self.public_key@ == encoding.subrange(0, 48)
        &&& self.withdrawal_credentials@ == encoding.subrange(48, 80)
        &&& self.effective_balance == spec_u64_from_le_bytes(encoding.subrange(80, 88))
        &&& self.slashed == (encoding[88] == 1u8)
        &&& self.activation_eligibility_epoch == spec_u64_from_le_bytes(encoding.subrange(89, 97))
        &&& self.activation_epoch == spec_u64_from_le_bytes(encoding.subrange(97, 105))
        &&& self.exit_epoch == spec_u64_from_le_bytes(encoding.subrange(105, 113))
        &&& self.withdrawable_epoch == spec_u64_from_le_bytes(encoding.subrange(113, 121))
    }

    /// What decoding `encoding` gives: the value whose fields the bytes
    /// say, or the error that says what is wrong with them.
    pub open spec fn decodes(encoding: Seq<u8>, result: Result<Self, DeserializeError>) -> bool {
        if encoding.len() < 121 {
            result == Err::<Self, DeserializeError>(
                DeserializeError::ExpectedFurtherInput {
                    provided: encoding.len() as usize,
                    expected: 121,
                },
            )
        } else if encoding.len() > 121 {
            result == Err::<Self, DeserializeError>(
                DeserializeError::AdditionalInput {
                    provided: encoding.len() as usize,
                    expected: 121,
                },
            )
        } else if encoding[88] > 1 {
            result == Err::<Self, DeserializeError>(DeserializeError::InvalidByte(encoding[88]))
        } else {
            result is Ok && result->Ok_0.decoded_from(encoding)
        }
    }

    /// Decodes a value: the input holds the fields in order and nothing
    /// else.
    pub fn deserialize(encoding: &[u8]) -> (result: Result<Self, DeserializeError>)
        ensures
            Self::decodes(encoding@, result),
    {
        if encoding.len() < 121 {
            return Err(
                DeserializeError::ExpectedFurtherInput { provided: encoding.len(), expected: 121 },
            );
        }
        if encoding.len() > 121 {
            return Err(
                DeserializeError::AdditionalInput { provided: encoding.len(), expected: 121 },
            );
        }
        let public_key: [u8; 48] = read_array(encoding, 0);
        let withdrawal_credentials: [u8; 32] = read_array(encoding, 48);
        let effective_balance: u64 = u64_from_le_bytes(slice_subrange(encoding, 80, 88));
        let slashed: bool = match read_bool(encoding[88]) {
            Ok(bit) => bit,
            Err(e) => {
                return Err(e);
            },
        };
        let activation_eligibility_epoch: u64 = u64_from_le_bytes(slice_subrange(encoding, 89, 97));
        let activation_epoch: u64 = u64_from_le_bytes(slice_subrange(encoding, 97, 105));
        let exit_epoch: u64 = u64_from_le_bytes(slice_subrange(encoding, 105, 113));
        let withdrawable_epoch: u64 = u64_from_le_bytes(slice_subrange(encoding, 113, 121));
        Ok(Validator { public_key, withdrawal_credentials, effective_balance, slashed, activation_eligibility_epoch, activation_epoch, exit_epoch, withdrawable_epoch })
    }

    /// The encoding has its length, and its bytes say the fields.
    pub proof fn lemma_encoding_decodes(&self)
        ensures
            self.encoding().len() == 121,
            self.decoded_from(self.encoding()),
            self.encoding()[88] <= 1,
    {
        lemma_auto_spec_u64_to_from_le_bytes();
        assert(self.encoding().subrange(0, 48) =~= self.public_key.encoding());
        assert(self.encoding().subrange(48, 80) =~= self.withdrawal_credentials.encoding());
        assert(self.encoding().subrange(80, 88) =~= self.effective_balance.encoding());
        assert(self.encoding().subrange(88, 89) =~= self.slashed.encoding());
        assert(self.encoding().subrange(88, 89)[0] == self.encoding()[88]);
        assert(self.encoding().subrange(89, 97) =~= self.activation_eligibility_epoch.encoding());
        assert(self.encoding().subrange(97, 105) =~= self.activation_epoch.encoding());
        assert(self.encoding().subrange(105, 113) =~= self.exit_epoch.encoding());
        assert(self.encoding().subrange(113, 121) =~= self.withdrawable_epoch.encoding());
    }

    /// Decoding the encoding of a value gives the value back.
    pub proof fn lemma_round_trip(&self, decoded: Result<Self, DeserializeError>)
        requires
            Self::decodes(self.encoding(), decoded),
        ensures
            decoded == Ok::<Self, DeserializeError>(*self),
    {
        self.lemma_encoding_decodes();
        self.lemma_decoded_is_self(decoded->Ok_0, self.encoding());
    }

    /// Only one value has the fields that the bytes say.
    pub proof fn lemma_decoded_is_self(&self, other: Self, encoding: Seq<u8>)
        requires
            self.decoded_from(encoding),
            other.decoded_from(encoding),
        ensures
            *self == other,
    {
        assert(self.public_key =~= other.public_key);
        assert(self.withdrawal_credentials =~= other.withdrawal_credentials);
    }
}

/// A block of the deposit chain.
#[derive(Clone, Copy, Debug, PartialEq, Eq)]
pub struct Eth1Block {
    pub timestamp: u64,
    pub deposit_root: Root,
    pub deposit_count: u64,
}

impl Composite for Eth1Block {

}

impl Merkleized for Eth1Block {
    open spec fn root_spec(&self) -> Seq<u8> {
        merkle_root(
            seq![
                self.timestamp.root_spec(),
                self.deposit_root.root_spec(),
                self.deposit_count.root_spec(),
            ],
            2,
        )
    }

    fn hash_tree_root(&self) -> (root: [u8; 32]) {
        let mut chunks: Vec<[u8; 32]> = Vec::new();
        chunks.push(self.timestamp.hash_tree_root());
        chunks.push(self.deposit_root.hash_tree_root());
        chunks.push(self.deposit_count.hash_tree_root());
        proof {
            assert(chunk_views(chunks@) =~= seq![
                self.timestamp.root_spec(),
                self.deposit_root.root_spec(),
                self.deposit_count.root_spec(),
            ]);
        }
        merkle_root_of(&chunks, 2)
    }
}

impl Serialize for Eth1Block {
    open spec fn encoding(&self) -> Seq<u8> {
        self.timestamp.encoding() + self.deposit_root.encoding() + self.deposit_count.encoding()
    }

    fn serialize_into(&self, buffer: &mut Vec<u8>) {
        self.timestamp.serialize_into(buffer);
        self.deposit_root.serialize_into(buffer);
        self.deposit_count.serialize_into(buffer);
        proof {
            assert(buffer@ =~= old(buffer)@ + self.encoding());
        }
    }
}

impl Eth1Block {
    /// The length of the encoding: 48 bytes.
    pub open spec fn encoded_len() -> nat {
        48
    }

    /// Whether the fields are what the bytes of `encoding` say, each at its
    /// place.
    pub open spec fn decoded_from(&self, encoding: Seq<u8>) -> bool {
        &&& self.timestamp == spec_u64_from_le_bytes(encoding.subrange(0, 8))
        &&& self.deposit_root@ == encoding.subrange(8, 40)
        &&& self.deposit_count == spec_u64_from_le_bytes(encoding.subrange(40, 48))
    }

    /// What decoding `encoding` gives: the value whose fields the bytes
    /// say, or the error that says what is wrong with them.
    pub open spec fn decodes(encoding: Seq<u8>, result: Result<Self, DeserializeError>) -> bool {
        if encoding.len() < 48 {
            result == Err::<Self, DeserializeError>(
                DeserializeError::ExpectedFurtherInput {
                    provided: encoding.len() as usize,
                    expected: 48,
                },
            )
        } else if encoding.len() > 48 {
            result == Err::<Self, DeserializeError>(
                DeserializeError::AdditionalInput {
                    provided: encoding.len() as usize,
                    expected: 48,
                },
            )
        } else {
            result is Ok && result->Ok_0.decoded_from(encoding)
        }
    }

    /// Decodes a value: the input holds the fields in order and nothing
    /// else.
    pub fn deserialize(encoding: &[u8]) -> (result: Result<Self, DeserializeError>)
        ensures
            Self::decodes(encoding@, result),
    {
        if encoding.len() < 48 {
            return Err(
                DeserializeError::ExpectedFurtherInput { provided: encoding.len(), expected: 48 },
            );
        }
        if encoding.len() > 48 {
            return Err(
                DeserializeError::AdditionalInput { provided: encoding.len(), expected: 48 },
            );
        }
        let timestamp: u64 = u64_from_le_bytes(slice_subrange(encoding, 0, 8));
        let deposit_root: [u8; 32] = read_array(encoding, 8);
        let deposit_count: u64 = u64_from_le_bytes(slice_subrange(encoding, 40, 48));
        Ok(Eth1Block { timestamp, deposit_root, deposit_count })
    }

    /// The encoding has its length, and its bytes say the fields.
    pub proof fn lemma_encoding_decodes(&self)
        ensures
            self.encoding().len() == 48,
            self.decoded_from(self.encoding()),
    {
        lemma_auto_spec_u64_to_from_le_bytes();
        assert(self.encoding().subrange(0, 8) =~= self.timestamp.encoding());
        assert(self.encoding().subrange(8, 40) =~= self.deposit_root.encoding());
        assert(self.encoding().subrange(40, 48) =~= self.deposit_count.encoding());
    }

    /// Decoding the encoding of a value gives the value back.
    pub proof fn lemma_round_trip(&self, decoded: Result<Self, DeserializeError>)
        requires
            Self::decodes(self.encoding(), decoded),
        ensures
            decoded == Ok::<Self, DeserializeError>(*self),
    {
        self.lemma_encoding_decodes();
        self.lemma_decoded_is_self(decoded->Ok_0, self.encoding());
    }

    /// Only one value has the fields that the bytes say.
    pub proof fn lemma_decoded_is_self(&self, other: Self, encoding: Seq<u8>)
        requires
            self.decoded_from(encoding),
            other.decoded_from(encoding),
        ensures
            *self == other,
    {
        assert(self.deposit_root =~= other.deposit_root);
    }
}

/// The roots of the block roots and state roots of one period.
#[derive(Clone, Copy, Debug, PartialEq, Eq)]
pub struct HistoricalSummary {
    pub block_summary_root: Root,
    pub state_summary_root: Root,
}

impl Composite for HistoricalSummary {

}

impl Merkleized for HistoricalSummary {
    open spec fn root_spec(&self) -> Seq<u8> {
        merkle_root(
            seq![
                self.block_summary_root.root_spec(),
                self.state_summary_root.root_spec(),
            ],
            1,
        )
    }

    fn hash_tree_root(&self) -> (root: [u8; 32]) {
        let mut chunks: Vec<[u8; 32]> = Vec::new();
        chunks.push(self.block_summary_root.hash_tree_root());
        chunks.push(self.state_summary_root.hash_tree_root());
        proof {
            assert(chunk_views(chunks@) =~= seq![
                self.block_summary_root.root_spec(),
                self.state_summary_root.root_spec(),
            ]);
        }
        merkle_root_of(&chunks, 1)
    }
}

impl Serialize for HistoricalSummary {
    open spec fn encoding(&self) -> Seq<u8> {
        self.block_summary_root.encoding() + self.state_summary_root.encoding()
    }

    fn serialize_into(&self, buffer: &mut Vec<u8>) {
        self.block_summary_root.serialize_into(buffer);
        self.state_summary_root.serialize_into(buffer);
        proof {
            assert(buffer@ =~= old(buffer)@ + self.encoding());
        }
    }
}

impl HistoricalSummary {
    /// The length of the encoding: 64 bytes.
    pub open spec fn encoded_len() -> nat {
        64
    }

    /// Whether the fields are what the bytes of `encoding` say, each at its
    /// place.
    pub open spec fn decoded_from(&self, encoding: Seq<u8>) -> bool {
        &&& self.block_summary_root@ == encoding.subrange(0, 32)
        &&& self.state_summary_root@ == encoding.subrange(32, 64)
    }

    /// What decoding `encoding` gives: the value whose fields the bytes
    /// say, or the error that says what is wrong with them.
    pub open spec fn decodes(encoding: Seq<u8>, result: Result<Self, DeserializeError>) -> bool {
        if encoding.len() < 64 {
            result == Err::<Self, DeserializeError>(
                DeserializeError::ExpectedFurtherInput {
                    provided: encoding.len() as usize,
                    expected: 64,
                },
            )
        } else if encoding.len() > 64 {
            result == Err::<Self, DeserializeError>(
                DeserializeError::AdditionalInput {
                    provided: encoding.len() as usize,
                    expected: 64,
                },
            )
        } else {
            result is Ok && result->Ok_0.decoded_from(encoding)
        }
    }

    /// Decodes a value: the input holds the fields in order and nothing
    /// else.
    pub fn deserialize(encoding: &[u8]) -> (result: Result<Self, DeserializeError>)
        ensures
            Self::decodes(encoding@, result),
    {
        if encoding.len() < 64 {
            return Err(
                DeserializeError::ExpectedFurtherInput { provided: encoding.len(), expected: 64 },
            );
        }
        if encoding.len() > 64 {
            return Err(
                DeserializeError::AdditionalInput { provided: encoding.len(), expected: 64 },
            );
        }
        let block_summary_root: [u8; 32] = read_array(encoding, 0);
        let state_summary_root: [u8; 32] = read_array(encoding, 32);
        Ok(HistoricalSummary { block_summary_root, state_summary_root })
    }

    /// The encoding has its length, and its bytes say the fields.
    pub proof fn lemma_encoding_decodes(&self)
        ensures
            self.encoding().len() == 64,
            self.decoded_from(self.encoding()),
    {
        lemma_auto_spec_u64_to_from_le_bytes();
        assert(self.encoding().subrange(0, 32) =~= self.block_summary_root.encoding());
        assert(self.encoding().subrange(32, 64) =~= self.state_summary_root.encoding());
    }

    /// Decoding the encoding of a value gives the value back.
    pub proof fn lemma_round_trip(&self, decoded: Result<Self, DeserializeError>)
        requires
            Self::decodes(self.encoding(), decoded),
        ensures
            decoded == Ok::<Self, DeserializeError>(*self),
    {
        self.lemma_encoding_decodes();
        self.lemma_decoded_is_self(decoded->Ok_0, self.encoding());
    }

    /// Only one value has the fields that the bytes say.
    pub proof fn lemma_decoded_is_self(&self, other: Self, encoding: Seq<u8>)
        requires
            self.decoded_from(encoding),
            other.decoded_from(encoding),
        ensures
            *self == other,
    {
        assert(self.block_summary_root =~= other.block_summary_root);
        assert(self.state_summary_root =~= other.state_summary_root);
    }
}

/// What an attestation votes for.
#[derive(Clone, Copy, Debug, PartialEq, Eq)]
pub struct AttestationData {
    pub slot: Slot,
    pub index: u64,
    pub beacon_block_root: Root,
    pub source: Checkpoint,
    pub target: Checkpoint,
}

impl Composite for AttestationData {

}

impl Merkleized for AttestationData {
    open spec fn root_spec(&self) -> Seq<u8> {
        merkle_root(
            seq![
                self.slot.root_spec(),
                self.index.root_spec(),
                self.beacon_block_root.root_spec(),
                self.source.root_spec(),
                self.target.root_spec(),
            ],
            3,
        )
    }

    fn hash_tree_root(&self) -> (root: [u8; 32]) {
        let mut chunks: Vec<[u8; 32]> = Vec::new();
        chunks.push(self.slot.hash_tree_root());
        chunks.push(self.index.hash_tree_root());
        chunks.push(self.beacon_block_root.hash_tree_root());
        chunks.push(self.source.hash_tree_root());
        chunks.push(self.target.hash_tree_root());
        proof {
            assert(chunk_views(chunks@) =~= seq![
                self.slot.root_spec(),
                self.index.root_spec(),
                self.beacon_block_root.root_spec(),
                self.source.root_spec(),
                self.target.root_spec(),
            ]);
        }
        merkle_root_of(&chunks, 3)
    }
}

impl Serialize for AttestationData {
    open spec fn encoding(&self) -> Seq<u8> {
        self.slot.encoding() + self.index.encoding() + self.beacon_block_root.encoding() + self.source.encoding() + self.target.encoding()
    }

    fn serialize_into(&self, buffer: &mut Vec<u8>) {
        self.slot.serialize_into(buffer);
        self.index.serialize_into(buffer);
        self.beacon_block_root.serialize_into(buffer);
        self.source.serialize_into(buffer);
        self.target.serialize_into(buffer);
        proof {
            assert(buffer@ =~= old(buffer)@ + self.encoding());
        }
    }
}

impl AttestationData {
    /// The length of the encoding: 128 bytes.
    pub open spec fn encoded_len() -> nat {
        128
    }

    /// Whether the fields are what the bytes of `encoding` say, each at its
    /// place.
    pub open spec fn decoded_from(&self, encoding: Seq<u8>) -> bool {
        &&& self.slot == spec_u64_from_le_bytes(encoding.subrange(0, 8))
        &&& self.index == spec_u64_from_le_bytes(encoding.subrange(8, 16))
        &&& self.beacon_block_root@ == encoding.subrange(16, 48)
        &&& self.source.decoded_from(encoding.subrange(48, 88))
        &&& self.target.decoded_from(encoding.subrange(88, 128))
    }

    /// What decoding `encoding` gives: the value whose fields the bytes
    /// say, or the error that says what is wrong with them.
    pub open spec fn decodes(encoding: Seq<u8>, result: Result<Self, DeserializeError>) -> bool {
        if encoding.len() < 128 {
            result == Err::<Self, DeserializeError>(
                DeserializeError::ExpectedFurtherInput {
                    provided: encoding.len() as usize,
                    expected: 128,
                },
            )
        } else if encoding.len() > 128 {
            result == Err::<Self, DeserializeError>(
                DeserializeError::AdditionalInput {
                    provided: encoding.len() as usize,
                    expected: 128,
                },
            )
        } else {
            result is Ok && result->Ok_0.decoded_from(encoding)
        }
    }

    /// Decodes a value: the input holds the fields in order and nothing
    /// else.
    pub fn deserialize(encoding: &[u8]) -> (result: Result<Self, DeserializeError>)
        ensures
            Self::decodes(encoding@, result),
    {
        if encoding.len() < 128 {
            return Err(
                DeserializeError::ExpectedFurtherInput { provided: encoding.len(), expected: 128 },
            );
        }
        if encoding.len() > 128 {
            return Err(
                DeserializeError::AdditionalInput { provided: encoding.len(), expected: 128 },
            );
        }
        let slot: u64 = u64_from_le_bytes(slice_subrange(encoding, 0, 8));
        let index: u64 = u64_from_le_bytes(slice_subrange(encoding, 8, 16));
        let beacon_block_root: [u8; 32] = read_array(encoding, 16);
        let source = match Checkpoint::deserialize(slice_subrange(encoding, 48, 88)) {
            Ok(value) => value,
            Err(e) => {
                return Err(e);
            },
        };
        let target = match Checkpoint::deserialize(slice_subrange(encoding, 88, 128)) {
            Ok(value) => value,
            Err(e) => {
                return Err(e);
            },
        };
        Ok(AttestationData { slot, index, beacon_block_root, source, target })
    }

    /// The encoding has its length, and its bytes say the fields.
    pub proof fn lemma_encoding_decodes(&self)
        ensures
            self.encoding().len() == 128,
            self.decoded_from(self.encoding()),
    {
        lemma_auto_spec_u64_to_from_le_bytes();
        self.source.lemma_encoding_decodes();
        self.target.lemma_encoding_decodes();
        assert(self.encoding().subrange(0, 8) =~= self.slot.encoding());
        assert(self.encoding().subrange(8, 16) =~= self.index.encoding());
        assert(self.encoding().subrange(16, 48) =~= self.beacon_block_root.encoding());
        assert(self.encoding().subrange(48, 88) =~= self.source.encoding());
        assert(self.encoding().subrange(88, 128) =~= self.target.encoding());
    }

    /// Decoding the encoding of a value gives the value back.
    pub proof fn lemma_round_trip(&self, decoded: Result<Self, DeserializeError>)
        requires
            Self::decodes(self.encoding(), decoded),
        ensures
            decoded == Ok::<Self, DeserializeError>(*self),
    {
        self.lemma_encoding_decodes();
        self.lemma_decoded_is_self(decoded->Ok_0, self.encoding());
    }

    /// Only one value has the fields that the bytes say.
    pub proof fn lemma_decoded_is_self(&self, other: Self, encoding: Seq<u8>)
        requires
            self.decoded_from(encoding),
            other.decoded_from(encoding),
        ensures
            *self == other,
    {
        assert(self.beacon_block_root =~= other.beacon_block_root);
        self.source.lemma_decoded_is_self(other.source, encoding.subrange(48, 88));
        self.target.lemma_decoded_is_self(other.target, encoding.subrange(88, 128));
    }
}

/// The votes of the members of a committee, aggregated.
#[derive(Clone, Debug, PartialEq, Eq)]
pub struct Attestation<const MAX_VALIDATORS_PER_COMMITTEE: usize> {
    pub aggregation_bits: Bitlist<MAX_VALIDATORS_PER_COMMITTEE>,
    pub data: AttestationData,
    pub signature: BlsSignature,
}

impl<const MAX_VALIDATORS_PER_COMMITTEE: usize> Composite for Attestation<MAX_VALIDATORS_PER_COMMITTEE> {

}

impl<const MAX_VALIDATORS_PER_COMMITTEE: usize> Merkleized for Attestation<MAX_VALIDATORS_PER_COMMITTEE> {
    open spec fn root_spec(&self) -> Seq<u8> {
        merkle_root(
            seq![
                self.aggregation_bits.root_spec(),
                self.data.root_spec(),
                self.signature.root_spec(),
            ],
            2,
        )
    }

    fn hash_tree_root(&self) -> (root: [u8; 32]) {
        let mut chunks: Vec<[u8; 32]> = Vec::new();
        chunks.push(self.aggregation_bits.hash_tree_root());
        chunks.push(self.data.hash_tree_root());
        chunks.push(self.signature.hash_tree_root());
        proof {
            assert(chunk_views(chunks@) =~= seq![
                self.aggregation_bits.root_spec(),
                self.data.root_spec(),
                self.signature.root_spec(),
            ]);
        }
        merkle_root_of(&chunks, 2)
    }
}

/// An attestation as the state keeps it until the epoch is processed.
#[derive(Clone, Debug, PartialEq, Eq)]
pub struct PendingAttestation<const MAX_VALIDATORS_PER_COMMITTEE: usize> {
    pub aggregation_bits: Bitlist<MAX_VALIDATORS_PER_COMMITTEE>,
    pub data: AttestationData,
    pub inclusion_delay: Slot,
    pub proposer_index: ValidatorIndex,
}

impl<const MAX_VALIDATORS_PER_COMMITTEE: usize> Composite for PendingAttestation<MAX_VALIDATORS_PER_COMMITTEE> {

}

impl<const MAX_VALIDATORS_PER_COMMITTEE: usize> Merkleized for PendingAttestation<MAX_VALIDATORS_PER_COMMITTEE> {
    open spec fn root_spec(&self) -> Seq<u8> {
        merkle_root(
            seq![
                self.aggregation_bits.root_spec(),
                self.data.root_spec(),
                self.inclusion_delay.root_spec(),
                self.proposer_index.root_spec(),
            ],
            2,
        )
    }

    fn hash_tree_root(&self) -> (root: [u8; 32]) {
        let mut chunks: Vec<[u8; 32]> = Vec::new();
        chunks.push(self.aggregation_bits.hash_tree_root());
        chunks.push(self.data.hash_tree_root());
        chunks.push(self.inclusion_delay.hash_tree_root());
        chunks.push(self.proposer_index.hash_tree_root());
        proof {
            assert(chunk_views(chunks@) =~= seq![
                self.aggregation_bits.root_spec(),
                self.data.root_spec(),
                self.inclusion_delay.root_spec(),
                self.proposer_index.root_spec(),
            ]);
        }
        merkle_root_of(&chunks, 2)
    }
}

/// An aggregate with the proof that its aggregator was selected.
#[derive(Clone, Debug, PartialEq, Eq)]
pub struct AggregateAndProof<const MAX_VALIDATORS_PER_COMMITTEE: usize> {
    pub aggregator_index: ValidatorIndex,
    pub aggregate: Attestation<MAX_VALIDATORS_PER_COMMITTEE>,
    pub selection_proof: BlsSignature,
}

impl<const MAX_VALIDATORS_PER_COMMITTEE: usize> Composite for AggregateAndProof<MAX_VALIDATORS_PER_COMMITTEE> {

}

impl<const MAX_VALIDATORS_PER_COMMITTEE: usize> Merkleized for AggregateAndProof<MAX_VALIDATORS_PER_COMMITTEE> {
    open spec fn root_spec(&self) -> Seq<u8> {
        merkle_root(
            seq![
                self.aggregator_index.root_spec(),
                self.aggregate.root_spec(),
                self.selection_proof.root_spec(),
            ],
            2,
        )
    }

    fn hash_tree_root(&self) -> (root: [u8; 32]) {
        let mut chunks: Vec<[u8; 32]> = Vec::new();
        chunks.push(self.aggregator_index.hash_tree_root());
        chunks.push(self.aggregate.hash_tree_root());
        chunks.push(self.selection_proof.hash_tree_root());
        proof {
            assert(chunk_views(chunks@) =~= seq![
                self.aggregator_index.root_spec(),
                self.aggregate.root_spec(),
                self.selection_proof.root_spec(),
            ]);
        }
        merkle_root_of(&chunks, 2)
    }
}

/// An aggregate and proof with the signature of the aggregator.
#[derive(Clone, Debug, PartialEq, Eq)]
pub struct SignedAggregateAndProof<const MAX_VALIDATORS_PER_COMMITTEE: usize> {
    pub message: AggregateAndProof<MAX_VALIDATORS_PER_COMMITTEE>,
    pub signature: BlsSignature,
}

impl<const MAX_VALIDATORS_PER_COMMITTEE: usize> Composite for SignedAggregateAndProof<MAX_VALIDATORS_PER_COMMITTEE> {

}

impl<const MAX_VALIDATORS_PER_COMMITTEE: usize> Merkleized for SignedAggregateAndProof<MAX_VALIDATORS_PER_COMMITTEE> {
    open spec fn root_spec(&self) -> Seq<u8> {
        merkle_root(
            seq![
                self.message.root_spec(),
                self.signature.root_spec(),
            ],
            1,
        )
    }

    fn hash_tree_root(&self) -> (root: [u8; 32]) {
        let mut chunks: Vec<[u8; 32]> = Vec::new();
        chunks.push(self.message.hash_tree_root());
        chunks.push(self.signature.hash_tree_root());
        proof {
            assert(chunk_views(chunks@) =~= seq![
                self.message.root_spec(),
                self.signature.root_spec(),
            ]);
        }
        merkle_root_of(&chunks, 1)
    }
}

/// The state of the beacon chain at a slot.
#[derive(Clone, Debug, PartialEq, Eq)]
pub struct BeaconState<
    const SLOTS_PER_HISTORICAL_ROOT: usize,
    const HISTORICAL_ROOTS_LIMIT: usize,
    const ETH1_DATA_VOTES_BOUND: usize,
    const VALIDATOR_REGISTRY_LIMIT: usize,
    const EPOCHS_PER_HISTORICAL_VECTOR: usize,
    const EPOCHS_PER_SLASHINGS_VECTOR: usize,
    const MAX_VALIDATORS_PER_COMMITTEE: usize,
    const PENDING_ATTESTATIONS_BOUND: usize,
> {
    pub genesis_time: u64,
    pub genesis_validators_root: Root,
    pub slot: Slot,
    pub fork: Fork,
    pub latest_block_header: BeaconBlockHeader,
    pub block_roots: Vector<Root, SLOTS_PER_HISTORICAL_ROOT>,
    pub state_roots: Vector<Root, SLOTS_PER_HISTORICAL_ROOT>,
    pub historical_roots: List<Root, HISTORICAL_ROOTS_LIMIT>,
    pub eth1_data: Eth1Data,
    pub eth1_data_votes: List<Eth1Data, ETH1_DATA_VOTES_BOUND>,
    pub eth1_deposit_index: u64,
    pub validators: List<Validator, VALIDATOR_REGISTRY_LIMIT>,
    pub balances: UintList<VALIDATOR_REGISTRY_LIMIT>,
    pub randao_mixes: Vector<Bytes32, EPOCHS_PER_HISTORICAL_VECTOR>,
    pub slashings: UintVector<EPOCHS_PER_SLASHINGS_VECTOR>,
    pub previous_epoch_attestations: List<PendingAttestation<MAX_VALIDATORS_PER_COMMITTEE>, PENDING_ATTESTATIONS_BOUND>,
    pub current_epoch_attestations: List<PendingAttestation<MAX_VALIDATORS_PER_COMMITTEE>, PENDING_ATTESTATIONS_BOUND>,
    pub justification_bits: Bitvector<JUSTIFICATION_BITS_LENGTH>,
    pub previous_justified_checkpoint: Checkpoint,
    pub current_justified_checkpoint: Checkpoint,
    pub finalized_checkpoint: Checkpoint,
}

impl<
    const SLOTS_PER_HISTORICAL_ROOT: usize,
    const HISTORICAL_ROOTS_LIMIT: usize,
    const ETH1_DATA_VOTES_BOUND: usize,
    const VALIDATOR_REGISTRY_LIMIT: usize,
    const EPOCHS_PER_HISTORICAL_VECTOR: usize,
    const EPOCHS_PER_SLASHINGS_VECTOR: usize,
    const MAX_VALIDATORS_PER_COMMITTEE: usize,
    const PENDING_ATTESTATIONS_BOUND: usize,
> Composite for BeaconState<
    SLOTS_PER_HISTORICAL_ROOT,
    HISTORICAL_ROOTS_LIMIT,
    ETH1_DATA_VOTES_BOUND,
    VALIDATOR_REGISTRY_LIMIT,
    EPOCHS_PER_HISTORICAL_VECTOR,
    EPOCHS_PER_SLASHINGS_VECTOR,
    MAX_VALIDATORS_PER_COMMITTEE,
    PENDING_ATTESTATIONS_BOUND,
> {

}

impl<
    const SLOTS_PER_HISTORICAL_ROOT: usize,
    const HISTORICAL_ROOTS_LIMIT: usize,
    const ETH1_DATA_VOTES_BOUND: usize,
    const VALIDATOR_REGISTRY_LIMIT: usize,
    const EPOCHS_PER_HISTORICAL_VECTOR: usize,
    const EPOCHS_PER_SLASHINGS_VECTOR: usize,
    const MAX_VALIDATORS_PER_COMMITTEE: usize,
    const PENDING_ATTESTATIONS_BOUND: usize,
> Merkleized for BeaconState<
    SLOTS_PER_HISTORICAL_ROOT,
    HISTORICAL_ROOTS_LIMIT,
    ETH1_DATA_VOTES_BOUND,
    VALIDATOR_REGISTRY_LIMIT,
    EPOCHS_PER_HISTORICAL_VECTOR,
    EPOCHS_PER_SLASHINGS_VECTOR,
    MAX_VALIDATORS_PER_COMMITTEE,
    PENDING_ATTESTATIONS_BOUND,
> {
    open spec fn root_spec(&self) -> Seq<u8> {
        merkle_root(
            seq![
                self.genesis_time.root_spec(),
                self.genesis_validators_root.root_spec(),
                self.slot.root_spec(),
                self.fork.root_spec(),
                self.latest_block_header.root_spec(),
                self.block_roots.root_spec(),
                self.state_roots.root_spec(),
                self.historical_roots.root_spec(),
                self.eth1_data.root_spec(),
                self.eth1_data_votes.root_spec(),
                self.eth1_deposit_index.root_spec(),
                self.validators.root_spec(),
                self.balances.root_spec(),
                self.randao_mixes.root_spec(),
                self.slashings.root_spec(),
                self.previous_epoch_attestations.root_spec(),
                self.current_epoch_attestations.root_spec(),
                self.justification_bits.root_spec(),
                self.previous_justified_checkpoint.root_spec(),
                self.current_justified_checkpoint.root_spec(),
                self.finalized_checkpoint.root_spec(),
            ],
            5,
        )
    }

    fn hash_tree_root(&self) -> (root: [u8; 32]) {
        let mut chunks: Vec<[u8; 32]> = Vec::new();
        chunks.push(self.genesis_time.hash_tree_root());
        chunks.push(self.genesis_validators_root.hash_tree_root());
        chunks.push(self.slot.hash_tree_root());
        chunks.push(self.fork.hash_tree_root());
        chunks.push(self.latest_block_header.hash_tree_root());
        chunks.push(self.block_roots.hash_tree_root());
        chunks.push(self.state_roots.hash_tree_root());
        chunks.push(self.historical_roots.hash_tree_root());
        chunks.push(self.eth1_data.hash_tree_root());
        chunks.push(self.eth1_data_votes.hash_tree_root());
        chunks.push(self.eth1_deposit_index.hash_tree_root());
        chunks.push(self.validators.hash_tree_root());
        chunks.push(self.balances.hash_tree_root());
        chunks.push(self.randao_mixes.hash_tree_root());
        chunks.push(self.slashings.hash_tree_root());
        chunks.push(self.previous_epoch_attestations.hash_tree_root());
        chunks.push(self.current_epoch_attestations.hash_tree_root());
        chunks.push(self.justification_bits.hash_tree_root());
        chunks.push(self.previous_justified_checkpoint.hash_tree_root());
        chunks.push(self.current_justified_checkpoint.hash_tree_root());
        chunks.push(self.finalized_checkpoint.hash_tree_root());
        proof {
            assert(chunk_views(chunks@) =~= seq![
                self.genesis_time.root_spec(),
                self.genesis_validators_root.root_spec(),
                self.slot.root_spec(),
                self.fork.root_spec(),
                self.latest_block_header.root_spec(),
                self.block_roots.root_spec(),
                self.state_roots.root_spec(),
                self.historical_roots.root_spec(),
                self.eth1_data.root_spec(),
                self.eth1_data_votes.root_spec(),
                self.eth1_deposit_index.root_spec(),
                self.validators.root_spec(),
                self.balances.root_spec(),
                self.randao_mixes.root_spec(),
                self.slashings.root_spec(),
                self.previous_epoch_attestations.root_spec(),
                self.current_epoch_attestations.root_spec(),
                self.justification_bits.root_spec(),
                self.previous_justified_checkpoint.root_spec(),
                self.current_justified_checkpoint.root_spec(),
                self.finalized_checkpoint.root_spec(),
            ]);
        }
        merkle_root_of(&chunks, 5)
    }
}

/// The block roots and state roots of one period.
#[derive(Clone, Debug, PartialEq, Eq)]
pub struct HistoricalBatch<const SLOTS_PER_HISTORICAL_ROOT: usize> {
    pub block_roots: Vector<Root, SLOTS_PER_HISTORICAL_ROOT>,
    pub state_roots: Vector<Root, SLOTS_PER_HISTORICAL_ROOT>,
}

impl<const SLOTS_PER_HISTORICAL_ROOT: usize> Composite for HistoricalBatch<SLOTS_PER_HISTORICAL_ROOT> {

}

impl<const SLOTS_PER_HISTORICAL_ROOT: usize> Merkleized for HistoricalBatch<SLOTS_PER_HISTORICAL_ROOT> {
    open spec fn root_spec(&self) -> Seq<u8> {
        merkle_root(
            seq![
                self.block_roots.root_spec(),
                self.state_roots.root_spec(),
            ],
            1,
        )
    }

    fn hash_tree_root(&self) -> (root: [u8; 32]) {
        let mut chunks: Vec<[u8; 32]> = Vec::new();
        chunks.push(self.block_roots.hash_tree_root());
        chunks.push(self.state_roots.hash_tree_root());
        proof {
            assert(chunk_views(chunks@) =~= seq![
                self.block_roots.root_spec(),
                self.state_roots.root_spec(),
            ]);
        }
        merkle_root_of(&chunks, 1)
    }
}
/// The length of the fixed part of an attestation: the offset of the bits,
/// the data and the signature.
pub const ATTESTATION_FIXED_LEN: usize = 228;

impl<const MAX_VALIDATORS_PER_COMMITTEE: usize> Serialize for Attestation<
    MAX_VALIDATORS_PER_COMMITTEE,
> {
    /// The fixed part, with the offset of the bits in their place, then the
    /// bits.
    open spec fn encoding(&self) -> Seq<u8> {
        spec_u32_to_le_bytes(228u32) + self.data.encoding() + self.signature.encoding()
            + self.aggregation_bits.encoding()
    }

    fn serialize_into(&self, buffer: &mut Vec<u8>) {
        write_offset(buffer, 228u32);
        self.data.serialize_into(buffer);
        self.signature.serialize_into(buffer);
        self.aggregation_bits.serialize_into(buffer);
        proof {
            assert(buffer@ =~= old(buffer)@ + self.encoding());
        }
    }
}

impl<const MAX_VALIDATORS_PER_COMMITTEE: usize> Attestation<MAX_VALIDATORS_PER_COMMITTEE> {
    /// What decoding `encoding` gives. The input must hold the fixed part,
    /// and the offset in it must point at the end of the fixed part; what
    /// follows the fixed part is decoded as the bits, and an error there is
    /// the error of the whole.
    pub open spec fn decodes(encoding: Seq<u8>, result: Result<Self, DeserializeError>) -> bool {
        if encoding.len() < 228 {
            result == Err::<Self, DeserializeError>(
                DeserializeError::ExpectedFurtherInput {
                    provided: encoding.len() as usize,
                    expected: 228,
                },
            )
        } else if offset_at(encoding, 0) != 228 {
            result == Err::<Self, DeserializeError>(
                DeserializeError::OffsetOutOfPlace {
                    offset: offset_at(encoding, 0) as usize,
                    expected: 228,
                },
            )
        } else {
            exists|bits: Result<Bitlist<MAX_VALIDATORS_PER_COMMITTEE>, DeserializeError>|
                {
                    &&& #[trigger] Bitlist::<MAX_VALIDATORS_PER_COMMITTEE>::decodes(
                        encoding.subrange(228, encoding.len() as int),
                        bits,
                    )
                    &&& match bits {
                        Err(error) => result == Err::<Self, DeserializeError>(error),
                        Ok(list) => {
                            &&& result is Ok
                            &&& result->Ok_0.aggregation_bits@ == list@
                            &&& result->Ok_0.data.decoded_from(encoding.subrange(4, 132))
                            &&& result->Ok_0.signature@ == encoding.subrange(132, 228)
                        },
                    }
                }
        }
    }

    /// Decodes an attestation.
    pub fn deserialize(encoding: &[u8]) -> (result: Result<Self, DeserializeError>)
        requires
            encoding.len() <= usize::MAX / 8,
        ensures
            Self::decodes(encoding@, result),
    {
        let positions: Vec<usize> = vec![0];
        let ranges = match split_variable_parts(encoding, ATTESTATION_FIXED_LEN, &positions) {
            Ok(ranges) => ranges,
            Err(error) => {
                proof {
                    reveal_with_fuel(offsets_error, 3);
                }
                return Err(error);
            },
        };
        proof {
            reveal_with_fuel(offsets_error, 3);
            let offsets = offsets_of(encoding@, positions@);
            assert(positions@.len() == 1);
            assert(offsets.len() == 1);
            assert(offsets[0] == offset_at(encoding@, 0));
            assert(ranges_view(ranges@).len() == ranges@.len());
            assert(variable_ranges(offsets, encoding.len() as nat).len() == 1);
            assert(ranges_view(ranges@)[0] == variable_ranges(offsets, encoding.len() as nat)[0]);
            assert(ranges@[0].0 == 228);
        }
        let start: usize = ranges[0].0;
        let tail = slice_subrange(encoding, start, encoding.len());
        let bits = Bitlist::<MAX_VALIDATORS_PER_COMMITTEE>::deserialize(tail);
        let aggregation_bits = match bits {
            Ok(list) => list,
            Err(error) => {
                return Err(error);
            },
        };
        let data = match AttestationData::deserialize(slice_subrange(encoding, 4, 132)) {
            Ok(value) => value,
            Err(error) => {
                return Err(error);
            },
        };
        let signature: [u8; 96] = read_array(encoding, 132);
        Ok(Attestation { aggregation_bits, data, signature })
    }

    /// Decoding the encoding of an attestation whose bits keep their bound
    /// gives an attestation with the same bits, data and signature.
    pub proof fn lemma_round_trip(&self, decoded: Result<Self, DeserializeError>)
        requires
            self.aggregation_bits.wf(),
            Self::decodes(self.encoding(), decoded),
        ensures
            decoded is Ok,
            decoded->Ok_0.aggregation_bits@ == self.aggregation_bits@,
            decoded->Ok_0.data == self.data,
            decoded->Ok_0.signature == self.signature,
    {
        let encoding = self.encoding();
        lemma_auto_spec_u32_to_from_le_bytes();
        self.data.lemma_encoding_decodes();
        assert(encoding.subrange(0, 4) =~= spec_u32_to_le_bytes(228u32));
        assert(encoding.subrange(4, 132) =~= self.data.encoding());
        assert(encoding.subrange(132, 228) =~= self.signature.encoding());
        assert(encoding.subrange(228, encoding.len() as int) =~= self.aggregation_bits.encoding());
        let bits = choose|bits: Result<Bitlist<MAX_VALIDATORS_PER_COMMITTEE>, DeserializeError>|
            {
                &&& #[trigger] Bitlist::<MAX_VALIDATORS_PER_COMMITTEE>::decodes(
                    encoding.subrange(228, encoding.len() as int),
                    bits,
                )
                &&& match bits {
                    Err(error) => decoded == Err::<Self, DeserializeError>(error),
                    Ok(list) => {
                        &&& decoded is Ok
                        &&& decoded->Ok_0.aggregation_bits@ == list@
                        &&& decoded->Ok_0.data.decoded_from(encoding.subrange(4, 132))
                        &&& decoded->Ok_0.signature@ == encoding.subrange(132, 228)
                    },
                }
            };
        self.aggregation_bits.lemma_round_trip(bits);
        self.data.lemma_decoded_is_self(decoded->Ok_0.data, self.data.encoding());
        assert(decoded->Ok_0.signature =~= self.signature);
    }
}

} // verus!
