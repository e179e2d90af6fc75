//! The containers that the sync committees brought.

use crate::branch::{branch_is_valid, branch_of, lemma_fold_own_branch};
use crate::byte_list::ByteList;
use crate::collections::{Bitvector, List, UintList, UintVector, Vector};
use crate::merkle::{chunk_views, merkle_root, merkle_root_of, node};
use crate::phase0::{
    BeaconBlockHeader, Checkpoint, Eth1Data, Fork, JUSTIFICATION_BITS_LENGTH, Validator,
};
use crate::primitives::{BlsPublicKey, BlsSignature, Bytes32, Root, Slot, ValidatorIndex};
use crate::ssz::{read_array, Composite, DeserializeError, Merkleized, Serialize};
use vstd::bytes::{lemma_auto_spec_u64_to_from_le_bytes, spec_u64_from_le_bytes, u64_from_le_bytes};
use vstd::prelude::*;
use vstd::slice::slice_subrange;

verus! {

/// The vote of one member of a sync committee.
#[derive(Clone, Copy, Debug, PartialEq, Eq)]
pub struct SyncCommitteeMessage {
    pub slot: Slot,
    pub beacon_block_root: Root,
    pub validator_index: ValidatorIndex,
    pub signature: BlsSignature,
}

impl Composite for SyncCommitteeMessage {

}

impl Merkleized for SyncCommitteeMessage {
    open spec fn root_spec(&self) -> Seq<u8> {
        merkle_root(
            seq![
                self.slot.root_spec(),
                self.beacon_block_root.root_spec(),
                self.validator_index.root_spec(),
                self.signature.root_spec(),
            ],
            2,
        )
    }

    fn hash_tree_root(&self) -> (root: [u8; 32]) {
        let mut chunks: Vec<[u8; 32]> = Vec::new();
        chunks.push(self.slot.hash_tree_root());
        chunks.push(self.beacon_block_root.hash_tree_root());
        chunks.push(self.validator_index.hash_tree_root());
        chunks.push(self.signature.hash_tree_root());
        proof {
            assert(chunk_views(chunks@) =~= seq![
                self.slot.root_spec(),
                self.beacon_block_root.root_spec(),
                self.validator_index.root_spec(),
                self.signature.root_spec(),
            ]);
        }
        merkle_root_of(&chunks, 2)
    }
}

impl Serialize for SyncCommitteeMessage {
    open spec fn encoding(&self) -> Seq<u8> {
        self.slot.encoding() + self.beacon_block_root.encoding() + self.validator_index.encoding() + self.signature.encoding()
    }

    fn serialize_into(&self, buffer: &mut Vec<u8>) {
        self.slot.serialize_into(buffer);
        self.beacon_block_root.serialize_into(buffer);
        self.validator_index.serialize_into(buffer);
        self.signature.serialize_into(buffer);
        proof {
            assert(buffer@ =~= old(buffer)@ + self.encoding());
        }
    }
}

impl SyncCommitteeMessage {
    /// The length of the encoding: 144 bytes.
    pub open spec fn encoded_len() -> nat {
        144
    }

    /// Whether the fields are what the bytes of `encoding` say, each at its
    /// place.
    pub open spec fn decoded_from(&self, encoding: Seq<u8>) -> bool {
        &&& self.slot == spec_u64_from_le_bytes(encoding.subrange(0, 8))
        &&& self.beacon_block_root@ == encoding.subrange(8, 40)
        &&& self.validator_index == spec_u64_from_le_bytes(encoding.subrange(40, 48))
        &&& self.signature@ == encoding.subrange(48, 144)
    }

    /// What decoding `encoding` gives: the value whose fields the bytes
    /// say, or the error that says what is wrong with them.
    pub open spec fn decodes(encoding: Seq<u8>, result: Result<Self, DeserializeError>) -> bool {
        if encoding.len() < 144 {
            result == Err::<Self, DeserializeError>(
                DeserializeError::ExpectedFurtherInput {
                    provided: encoding.len() as usize,
                    expected: 144,
                },
            )
        } else if encoding.len() > 144 {
            result == Err::<Self, DeserializeError>(
                DeserializeError::AdditionalInput {
                    provided: encoding.len() as usize,
                    expected: 144,
                },
            )
        } else {
            result is Ok && result->Ok_0.decoded_from(encoding)
        }
    }

    /// Decodes a value: the input holds the fields in order and nothing
    /// else.
    pub fn deserialize(encoding: &[u8]) -> (result: Result<Self, DeserializeError>)
        ensures
            Self::decodes(encoding@, result),
    {
        if encoding.len() < 144 {
            return Err(
                DeserializeError::ExpectedFurtherInput { provided: encoding.len(), expected: 144 },
            );
        }
        if encoding.len() > 144 {
            return Err(
                DeserializeError::AdditionalInput { provided: encoding.len(), expected: 144 },
            );
        }
        let slot: u64 = u64_from_le_bytes(slice_subrange(encoding, 0, 8));
        let beacon_block_root: [u8; 32] = read_array(encoding, 8);
        let validator_index: u64 = u64_from_le_bytes(slice_subrange(encoding, 40, 48));
        let signature: [u8; 96] = read_array(encoding, 48);
        Ok(SyncCommitteeMessage { slot, beacon_block_root, validator_index, signature })
    }

    /// The encoding has its length, and its bytes say the fields.
    pub proof fn lemma_encoding_decodes(&self)
        ensures
            self.encoding().len() == 144,
            self.decoded_from(self.encoding()),
    {
        lemma_auto_spec_u64_to_from_le_bytes();
        assert(self.encoding().subrange(0, 8) =~= self.slot.encoding());
        assert(self.encoding().subrange(8, 40) =~= self.beacon_block_root.encoding());
        assert(self.encoding().subrange(40, 48) =~= self.validator_index.encoding());
        assert(self.encoding().subrange(48, 144) =~= self.signature.encoding());
    }

    /// Decoding the encoding of a value gives the value back.
    pub proof fn lemma_round_trip(&self, decoded: Result<Self, DeserializeError>)
        requires
            Self::decodes(self.encoding(), decoded),
        ensures
            decoded == Ok::<Self, DeserializeError>(*self),
    {
        self.lemma_encoding_decodes();
        self.lemma_decoded_is_self(decoded->Ok_0, self.encoding());
    }

    /// Only one value has the fields that the bytes say.
    pub proof fn lemma_decoded_is_self(&self, other: Self, encoding: Seq<u8>)
        requires
            self.decoded_from(encoding),
            other.decoded_from(encoding),
        ensures
            *self == other,
    {
        assert(self.beacon_block_root =~= other.beacon_block_root);
        assert(self.signature =~= other.signature);
    }
}

/// The votes of one subcommittee, aggregated.
#[derive(Clone, Debug, PartialEq, Eq)]
pub struct SyncCommitteeContribution<const SYNC_SUBCOMMITTEE_SIZE: usize> {
    pub slot: Slot,
    pub beacon_block_root: Root,
    pub subcommittee_index: u64,
    pub aggregation_bits: Bitvector<SYNC_SUBCOMMITTEE_SIZE>,
    pub signature: BlsSignature,
}

impl<const SYNC_SUBCOMMITTEE_SIZE: usize> Composite for SyncCommitteeContribution<SYNC_SUBCOMMITTEE_SIZE> {

}

impl<const SYNC_SUBCOMMITTEE_SIZE: usize> Merkleized for SyncCommitteeContribution<SYNC_SUBCOMMITTEE_SIZE> {
    open spec fn root_spec(&self) -> Seq<u8> {
        merkle_root(
            seq![
                self.slot.root_spec(),
                self.beacon_block_root.root_spec(),
                self.subcommittee_index.root_spec(),
                self.aggregation_bits.root_spec(),
                self.signature.root_spec(),
            ],
            3,
        )
    }

    fn hash_tree_root(&self) -> (root: [u8; 32]) {
        let mut chunks: Vec<[u8; 32]> = Vec::new();
        chunks.push(self.slot.hash_tree_root());
        chunks.push(self.beacon_block_root.hash_tree_root());
        chunks.push(self.subcommittee_index.hash_tree_root());
        chunks.push(self.aggregation_bits.hash_tree_root());
        chunks.push(self.signature.hash_tree_root());
        proof {
            assert(chunk_views(chunks@) =~= seq![
                self.slot.root_spec(),
                self.beacon_block_root.root_spec(),
                self.subcommittee_index.root_spec(),
                self.aggregation_bits.root_spec(),
                self.signature.root_spec(),
            ]);
        }
        merkle_root_of(&chunks, 3)
    }
}

impl<const SYNC_SUBCOMMITTEE_SIZE: usize> Serialize for SyncCommitteeContribution<SYNC_SUBCOMMITTEE_SIZE> {
    open spec fn encoding(&self) -> Seq<u8> {
        self.slot.encoding() + self.beacon_block_root.encoding() + self.subcommittee_index.encoding() + self.aggregation_bits.encoding() + self.signature.encoding()
    }

    fn serialize_into(&self, buffer: &mut Vec<u8>) {
        self.slot.serialize_into(buffer);
        self.beacon_block_root.serialize_into(buffer);
        self.subcommittee_index.serialize_into(buffer);
        self.aggregation_bits.serialize_into(buffer);
        self.signature.serialize_into(buffer);
        proof {
            assert(buffer@ =~= old(buffer)@ + self.encoding());
        }
    }
}

/// A contribution with the proof that its aggregator was selected.
#[derive(Clone, Debug, PartialEq, Eq)]
pub struct ContributionAndProof<const SYNC_SUBCOMMITTEE_SIZE: usize> {
    pub aggregator_index: ValidatorIndex,
    pub contribution: SyncCommitteeContribution<SYNC_SUBCOMMITTEE_SIZE>,
    pub selection_proof: BlsSignature,
}

impl<const SYNC_SUBCOMMITTEE_SIZE: usize> Composite for ContributionAndProof<SYNC_SUBCOMMITTEE_SIZE> {

}

impl<const SYNC_SUBCOMMITTEE_SIZE: usize> Merkleized for ContributionAndProof<SYNC_SUBCOMMITTEE_SIZE> {
    open spec fn root_spec(&self) -> Seq<u8> {
        merkle_root(
            seq![
                self.aggregator_index.root_spec(),
                self.contribution.root_spec(),
                self.selection_proof.root_spec(),
            ],
            2,
        )
    }

    fn hash_tree_root(&self) -> (root: [u8; 32]) {
        let mut chunks: Vec<[u8; 32]> = Vec::new();
        chunks.push(self.aggregator_index.hash_tree_root());
        chunks.push(self.contribution.hash_tree_root());
        chunks.push(self.selection_proof.hash_tree_root());
        proof {
            assert(chunk_views(chunks@) =~= seq![
                self.aggregator_index.root_spec(),
                self.contribution.root_spec(),
                self.selection_proof.root_spec(),
            ]);
        }
        merkle_root_of(&chunks, 2)
    }
}

impl<const SYNC_SUBCOMMITTEE_SIZE: usize> Serialize for ContributionAndProof<SYNC_SUBCOMMITTEE_SIZE> {
    open spec fn encoding(&self) -> Seq<u8> {
        self.aggregator_index.encoding() + self.contribution.encoding() + self.selection_proof.encoding()
    }

    fn serialize_into(&self, buffer: &mut Vec<u8>) {
        self.aggregator_index.serialize_into(buffer);
        self.contribution.serialize_into(buffer);
        self.selection_proof.serialize_into(buffer);
        proof {
            assert(buffer@ =~= old(buffer)@ + self.encoding());
        }
    }
}

/// A contribution and proof with the signature of the aggregator.
#[derive(Clone, Debug, PartialEq, Eq)]
pub struct SignedContributionAndProof<const SYNC_SUBCOMMITTEE_SIZE: usize> {
    pub message: ContributionAndProof<SYNC_SUBCOMMITTEE_SIZE>,
    pub signature: BlsSignature,
}

impl<const SYNC_SUBCOMMITTEE_SIZE: usize> Composite for SignedContributionAndProof<SYNC_SUBCOMMITTEE_SIZE> {

}

impl<const SYNC_SUBCOMMITTEE_SIZE: usize> Merkleized for SignedContributionAndProof<SYNC_SUBCOMMITTEE_SIZE> {
    open spec fn root_spec(&self) -> Seq<u8> {
        merkle_root(
            seq![
                self.message.root_spec(),
                self.signature.root_spec(),
            ],
            1,
        )
    }

    fn hash_tree_root(&self) -> (root: [u8; 32]) {
        let mut chunks: Vec<[u8; 32]> = Vec::new();
        chunks.push(self.message.hash_tree_root());
        chunks.push(self.signature.hash_tree_root());
        proof {
            assert(chunk_views(chunks@) =~= seq![
                self.message.root_spec(),
                self.signature.root_spec(),
            ]);
        }
        merkle_root_of(&chunks, 1)
    }
}

impl<const SYNC_SUBCOMMITTEE_SIZE: usize> Serialize for SignedContributionAndProof<SYNC_SUBCOMMITTEE_SIZE> {
    open spec fn encoding(&self) -> Seq<u8> {
        self.message.encoding() + self.signature.encoding()
    }

    fn serialize_into(&self, buffer: &mut Vec<u8>) {
        self.message.serialize_into(buffer);
        self.signature.serialize_into(buffer);
        proof {
            assert(buffer@ =~= old(buffer)@ + self.encoding());
        }
    }
}

/// What an aggregator signs to show that it was selected.
#[derive(Clone, Copy, Debug, PartialEq, Eq)]
pub struct SyncAggregatorSelectionData {
    pub slot: Slot,
    pub subcommittee_index: u64,
}

impl Composite for SyncAggregatorSelectionData {

}

impl Merkleized for SyncAggregatorSelectionData {
    open spec fn root_spec(&self) -> Seq<u8> {
        merkle_root(
            seq![
                self.slot.root_spec(),
                self.subcommittee_index.root_spec(),
            ],
            1,
        )
    }

    fn hash_tree_root(&self) -> (root: [u8; 32]) {
        let mut chunks: Vec<[u8; 32]> = Vec::new();
        chunks.push(self.slot.hash_tree_root());
        chunks.push(self.subcommittee_index.hash_tree_root());
        proof {
            assert(chunk_views(chunks@) =~= seq![
                self.slot.root_spec(),
                self.subcommittee_index.root_spec(),
            ]);
        }
        merkle_root_of(&chunks, 1)
    }
}

impl Serialize for SyncAggregatorSelectionData {
    open spec fn encoding(&self) -> Seq<u8> {
        self.slot.encoding() + self.subcommittee_index.encoding()
    }

    fn serialize_into(&self, buffer: &mut Vec<u8>) {
        self.slot.serialize_into(buffer);
        self.subcommittee_index.serialize_into(buffer);
        proof {
            assert(buffer@ =~= old(buffer)@ + self.encoding());
        }
    }
}

impl SyncAggregatorSelectionData {
    /// The length of the encoding: 16 bytes.
    pub open spec fn encoded_len() -> nat {
        16
    }

    /// Whether the fields are what the bytes of `encoding` say, each at its
    /// place.
    pub open spec fn decoded_from(&self, encoding: Seq<u8>) -> bool {
        &&& self.slot == spec_u64_from_le_bytes(encoding.subrange(0, 8))
        &&& self.subcommittee_index == spec_u64_from_le_bytes(encoding.subrange(8, 16))
    }

    /// What decoding `encoding` gives: the value whose fields the bytes
    /// say, or the error that says what is wrong with them.
    pub open spec fn decodes(encoding: Seq<u8>, result: Result<Self, DeserializeError>) -> bool {
        if encoding.len() < 16 {
            result == Err::<Self, DeserializeError>(
                DeserializeError::ExpectedFurtherInput {
                    provided: encoding.len() as usize,
                    expected: 16,
                },
            )
        } else if encoding.len() > 16 {
            result == Err::<Self, DeserializeError>(
                DeserializeError::AdditionalInput {
                    provided: encoding.len() as usize,
                    expected: 16,
                },
            )
        } else {
            result is Ok && result->Ok_0.decoded_from(encoding)
        }
    }

    /// Decodes a value: the input holds the fields in order and nothing
    /// else.
    pub fn deserialize(encoding: &[u8]) -> (result: Result<Self, DeserializeError>)
        ensures
            Self::decodes(encoding@, result),
    {
        if encoding.len() < 16 {
            return Err(
                DeserializeError::ExpectedFurtherInput { provided: encoding.len(), expected: 16 },
            );
        }
        if encoding.len() > 16 {
            return Err(
                DeserializeError::AdditionalInput { provided: encoding.len(), expected: 16 },
            );
        }
        let slot: u64 = u64_from_le_bytes(slice_subrange(encoding, 0, 8));
        let subcommittee_index: u64 = u64_from_le_bytes(slice_subrange(encoding, 8, 16));
        Ok(SyncAggregatorSelectionData { slot, subcommittee_index })
    }

    /// The encoding has its length, and its bytes say the fields.
    pub proof fn lemma_encoding_decodes(&self)
        ensures
            self.encoding().len() == 16,
            self.decoded_from(self.encoding()),
    {
        lemma_auto_spec_u64_to_from_le_bytes();
        assert(self.encoding().subrange(0, 8) =~= self.slot.encoding());
        assert(self.encoding().subrange(8, 16) =~= self.subcommittee_index.encoding());
    }

    /// Decoding the encoding of a value gives the value back.
    pub proof fn lemma_round_trip(&self, decoded: Result<Self, DeserializeError>)
        requires
            Self::decodes(self.encoding(), decoded),
        ensures
            decoded == Ok::<Self, DeserializeError>(*self),
    {
        self.lemma_encoding_decodes();
        self.lemma_decoded_is_self(decoded->Ok_0, self.encoding());
    }

    /// Only one value has the fields that the bytes say.
    pub proof fn lemma_decoded_is_self(&self, other: Self, encoding: Seq<u8>)
        requires
            self.decoded_from(encoding),
            other.decoded_from(encoding),
        ensures
            *self == other,
    {
    }
}

/// The keys of a sync committee and their aggregate.
#[derive(Clone, Debug, PartialEq, Eq)]
pub struct SyncCommittee<const SYNC_COMMITTEE_SIZE: usize> {
    pub public_keys: Vector<BlsPublicKey, SYNC_COMMITTEE_SIZE>,
    pub aggregate_public_key: BlsPublicKey,
}

impl<const SYNC_COMMITTEE_SIZE: usize> Composite for SyncCommittee<SYNC_COMMITTEE_SIZE> {

}

impl<const SYNC_COMMITTEE_SIZE: usize> Merkleized for SyncCommittee<SYNC_COMMITTEE_SIZE> {
    open spec fn root_spec(&self) -> Seq<u8> {
        merkle_root(
            seq![
                self.public_keys.root_spec(),
                self.aggregate_public_key.root_spec(),
            ],
            1,
        )
    }

    fn hash_tree_root(&self) -> (root: [u8; 32]) {
        let mut chunks: Vec<[u8; 32]> = Vec::new();
        chunks.push(self.public_keys.hash_tree_root());
        chunks.push(self.aggregate_public_key.hash_tree_root());
        proof {
            assert(chunk_views(chunks@) =~= seq![
                self.public_keys.root_spec(),
                self.aggregate_public_key.root_spec(),
            ]);
        }
        merkle_root_of(&chunks, 1)
    }
}

/// Which members of the sync committee signed, and their signature.
#[derive(Clone, Debug, PartialEq, Eq)]
pub struct SyncAggregate<const SYNC_COMMITTEE_SIZE: usize> {
    pub sync_committee_bits: Bitvector<SYNC_COMMITTEE_SIZE>,
    pub sync_committee_signature: BlsSignature,
}

impl<const SYNC_COMMITTEE_SIZE: usize> Composite for SyncAggregate<SYNC_COMMITTEE_SIZE> {

}

impl<const SYNC_COMMITTEE_SIZE: usize> Merkleized for SyncAggregate<SYNC_COMMITTEE_SIZE> {
    open spec fn root_spec(&self) -> Seq<u8> {
        merkle_root(
            seq![
                self.sync_committee_bits.root_spec(),
                self.sync_committee_signature.root_spec(),
            ],
            1,
        )
    }

    fn hash_tree_root(&self) -> (root: [u8; 32]) {
        let mut chunks: Vec<[u8; 32]> = Vec::new();
        chunks.push(self.sync_committee_bits.hash_tree_root());
        chunks.push(self.sync_committee_signature.hash_tree_root());
        proof {
            assert(chunk_views(chunks@) =~= seq![
                self.sync_committee_bits.root_spec(),
                self.sync_committee_signature.root_spec(),
            ]);
        }
        merkle_root_of(&chunks, 1)
    }
}

impl<const SYNC_COMMITTEE_SIZE: usize> Serialize for SyncAggregate<SYNC_COMMITTEE_SIZE> {
    open spec fn encoding(&self) -> Seq<u8> {
        self.sync_committee_bits.encoding() + self.sync_committee_signature.encoding()
    }

    fn serialize_into(&self, buffer: &mut Vec<u8>) {
        self.sync_committee_bits.serialize_into(buffer);
        self.sync_committee_signature.serialize_into(buffer);
        proof {
            assert(buffer@ =~= old(buffer)@ + self.encoding());
        }
    }
}

/// The state of the beacon chain at a slot, with the sync committees.
#[derive(Clone, Debug, PartialEq, Eq)]
pub struct BeaconState<
    const SLOTS_PER_HISTORICAL_ROOT: usize,
    const HISTORICAL_ROOTS_LIMIT: usize,
    const ETH1_DATA_VOTES_BOUND: usize,
    const VALIDATOR_REGISTRY_LIMIT: usize,
    const EPOCHS_PER_HISTORICAL_VECTOR: usize,
    const EPOCHS_PER_SLASHINGS_VECTOR: usize,
    const MAX_VALIDATORS_PER_COMMITTEE: usize,
    const SYNC_COMMITTEE_SIZE: usize,
> {
    pub genesis_time: u64,
    pub genesis_validators_root: Root,
    pub slot: Slot,
    pub fork: Fork,
    pub latest_block_header: BeaconBlockHeader,
    pub block_roots: Vector<Root, SLOTS_PER_HISTORICAL_ROOT>,
    pub state_roots: Vector<Root, SLOTS_PER_HISTORICAL_ROOT>,
    pub historical_roots: List<Root, HISTORICAL_ROOTS_LIMIT>,
    pub eth1_data: Eth1Data,
    pub eth1_data_votes: List<Eth1Data, ETH1_DATA_VOTES_BOUND>,
    pub eth1_deposit_index: u64,
    pub validators: List<Validator, VALIDATOR_REGISTRY_LIMIT>,
    pub balances: UintList<VALIDATOR_REGISTRY_LIMIT>,
    pub randao_mixes: Vector<Bytes32, EPOCHS_PER_HISTORICAL_VECTOR>,
    pub slashings: UintVector<EPOCHS_PER_SLASHINGS_VECTOR>,
    pub previous_epoch_participation: ByteList<VALIDATOR_REGISTRY_LIMIT>,
    pub current_epoch_participation: ByteList<VALIDATOR_REGISTRY_LIMIT>,
    pub justification_bits: Bitvector<JUSTIFICATION_BITS_LENGTH>,
    pub previous_justified_checkpoint: Checkpoint,
    pub current_justified_checkpoint: Checkpoint,
    pub finalized_checkpoint: Checkpoint,
    pub inactivity_scores: UintList<VALIDATOR_REGISTRY_LIMIT>,
    pub current_sync_committee: SyncCommittee<SYNC_COMMITTEE_SIZE>,
    pub next_sync_committee: SyncCommittee<SYNC_COMMITTEE_SIZE>,
}

impl<
    const SLOTS_PER_HISTORICAL_ROOT: usize,
    const HISTORICAL_ROOTS_LIMIT: usize,
    const ETH1_DATA_VOTES_BOUND: usize,
    const VALIDATOR_REGISTRY_LIMIT: usize,
    const EPOCHS_PER_HISTORICAL_VECTOR: usize,
    const EPOCHS_PER_SLASHINGS_VECTOR: usize,
    const MAX_VALIDATORS_PER_COMMITTEE: usize,
    const SYNC_COMMITTEE_SIZE: usize,
> Composite for BeaconState<
    SLOTS_PER_HISTORICAL_ROOT,
    HISTORICAL_ROOTS_LIMIT,
    ETH1_DATA_VOTES_BOUND,
    VALIDATOR_REGISTRY_LIMIT,
    EPOCHS_PER_HISTORICAL_VECTOR,
    EPOCHS_PER_SLASHINGS_VECTOR,
    MAX_VALIDATORS_PER_COMMITTEE,
    SYNC_COMMITTEE_SIZE,
> {

}

impl<
    const SLOTS_PER_HISTORICAL_ROOT: usize,
    const HISTORICAL_ROOTS_LIMIT: usize,
    const ETH1_DATA_VOTES_BOUND: usize,
    const VALIDATOR_REGISTRY_LIMIT: usize,
    const EPOCHS_PER_HISTORICAL_VECTOR: usize,
    const EPOCHS_PER_SLASHINGS_VECTOR: usize,
    const MAX_VALIDATORS_PER_COMMITTEE: usize,
    const SYNC_COMMITTEE_SIZE: usize,
> Merkleized for BeaconState<
    SLOTS_PER_HISTORICAL_ROOT,
    HISTORICAL_ROOTS_LIMIT,
    ETH1_DATA_VOTES_BOUND,
    VALIDATOR_REGISTRY_LIMIT,
    EPOCHS_PER_HISTORICAL_VECTOR,
    EPOCHS_PER_SLASHINGS_VECTOR,
    MAX_VALIDATORS_PER_COMMITTEE,
    SYNC_COMMITTEE_SIZE,
> {
    open spec fn root_spec(&self) -> Seq<u8> {
        merkle_root(
            seq![
                self.genesis_time.root_spec(),
                self.genesis_validators_root.root_spec(),
                self.slot.root_spec(),
                self.fork.root_spec(),
                self.latest_block_header.root_spec(),
                self.block_roots.root_spec(),
                self.state_roots.root_spec(),
                self.historical_roots.root_spec(),
                self.eth1_data.root_spec(),
                self.eth1_data_votes.root_spec(),
                self.eth1_deposit_index.root_spec(),
                self.validators.root_spec(),
                self.balances.root_spec(),
                self.randao_mixes.root_spec(),
                self.slashings.root_spec(),
                self.previous_epoch_participation.root_spec(),
                self.current_epoch_participation.root_spec(),
                self.justification_bits.root_spec(),
                self.previous_justified_checkpoint.root_spec(),
                self.current_justified_checkpoint.root_spec(),
                self.finalized_checkpoint.root_spec(),
                self.inactivity_scores.root_spec(),
                self.current_sync_committee.root_spec(),
                self.next_sync_committee.root_spec(),
            ],
            5,
        )
    }

    fn hash_tree_root(&self) -> (root: [u8; 32]) {
        let mut chunks: Vec<[u8; 32]> = Vec::new();
        chunks.push(self.genesis_time.hash_tree_root());
        chunks.push(self.genesis_validators_root.hash_tree_root());
        chunks.push(self.slot.hash_tree_root());
        chunks.push(self.fork.hash_tree_root());
        chunks.push(self.latest_block_header.hash_tree_root());
        chunks.push(self.block_roots.hash_tree_root());
        chunks.push(self.state_roots.hash_tree_root());
        chunks.push(self.historical_roots.hash_tree_root());
        chunks.push(self.eth1_data.hash_tree_root());
        chunks.push(self.eth1_data_votes.hash_tree_root());
        chunks.push(self.eth1_deposit_index.hash_tree_root());
        chunks.push(self.validators.hash_tree_root());
        chunks.push(self.balances.hash_tree_root());
        chunks.push(self.randao_mixes.hash_tree_root());
        chunks.push(self.slashings.hash_tree_root());
        chunks.push(self.previous_epoch_participation.hash_tree_root());
        chunks.push(self.current_epoch_participation.hash_tree_root());
        chunks.push(self.justification_bits.hash_tree_root());
        chunks.push(self.previous_justified_checkpoint.hash_tree_root());
        chunks.push(self.current_justified_checkpoint.hash_tree_root());
        chunks.push(self.finalized_checkpoint.hash_tree_root());
        chunks.push(self.inactivity_scores.hash_tree_root());
        chunks.push(self.current_sync_committee.hash_tree_root());
        chunks.push(self.next_sync_committee.hash_tree_root());
        proof {
            assert(chunk_views(chunks@) =~= seq![
                self.genesis_time.root_spec(),
                self.genesis_validators_root.root_spec(),
                self.slot.root_spec(),
                self.fork.root_spec(),
                self.latest_block_header.root_spec(),
                self.block_roots.root_spec(),
                self.state_roots.root_spec(),
                self.historical_roots.root_spec(),
                self.eth1_data.root_spec(),
                self.eth1_data_votes.root_spec(),
                self.eth1_deposit_index.root_spec(),
                self.validators.root_spec(),
                self.balances.root_spec(),
                self.randao_mixes.root_spec(),
                self.slashings.root_spec(),
                self.previous_epoch_participation.root_spec(),
                self.current_epoch_participation.root_spec(),
                self.justification_bits.root_spec(),
                self.previous_justified_checkpoint.root_spec(),
                self.current_justified_checkpoint.root_spec(),
                self.finalized_checkpoint.root_spec(),
                self.inactivity_scores.root_spec(),
                self.current_sync_committee.root_spec(),
                self.next_sync_committee.root_spec(),
            ]);
        }
        merkle_root_of(&chunks, 5)
    }
}
impl<
    const SLOTS_PER_HISTORICAL_ROOT: usize,
    const HISTORICAL_ROOTS_LIMIT: usize,
    const ETH1_DATA_VOTES_BOUND: usize,
    const VALIDATOR_REGISTRY_LIMIT: usize,
    const EPOCHS_PER_HISTORICAL_VECTOR: usize,
    const EPOCHS_PER_SLASHINGS_VECTOR: usize,
    const MAX_VALIDATORS_PER_COMMITTEE: usize,
    const SYNC_COMMITTEE_SIZE: usize,
> BeaconState<
    SLOTS_PER_HISTORICAL_ROOT,
    HISTORICAL_ROOTS_LIMIT,
    ETH1_DATA_VOTES_BOUND,
    VALIDATOR_REGISTRY_LIMIT,
    EPOCHS_PER_HISTORICAL_VECTOR,
    EPOCHS_PER_SLASHINGS_VECTOR,
    MAX_VALIDATORS_PER_COMMITTEE,
    SYNC_COMMITTEE_SIZE,
> {
    /// The roots of the fields, in order: the bottom layer of the tree of
    /// the state.
    pub open spec fn field_roots(&self) -> Seq<Seq<u8>> {
        seq![
            self.genesis_time.root_spec(),
            self.genesis_validators_root.root_spec(),
            self.slot.root_spec(),
            self.fork.root_spec(),
            self.latest_block_header.root_spec(),
            self.block_roots.root_spec(),
            self.state_roots.root_spec(),
            self.historical_roots.root_spec(),
            self.eth1_data.root_spec(),
            self.eth1_data_votes.root_spec(),
            self.eth1_deposit_index.root_spec(),
            self.validators.root_spec(),
            self.balances.root_spec(),
            self.randao_mixes.root_spec(),
            self.slashings.root_spec(),
            self.previous_epoch_participation.root_spec(),
            self.current_epoch_participation.root_spec(),
            self.justification_bits.root_spec(),
            self.previous_justified_checkpoint.root_spec(),
            self.current_justified_checkpoint.root_spec(),
            self.finalized_checkpoint.root_spec(),
            self.inactivity_scores.root_spec(),
            self.current_sync_committee.root_spec(),
            self.next_sync_committee.root_spec(),
        ]
    }

    /// The current sync committee is the node with generalized index 54 of
    /// the state: its branch in the tree of the fields is valid for that
    /// index under the root of the state.
    pub proof fn lemma_current_sync_committee_index(&self)
        ensures
            branch_is_valid(
                self.current_sync_committee.root_spec(),
                branch_of(self.field_roots(), 0, 22, 5),
                54,
                self.root_spec(),
            ),
    {
        vstd::arithmetic::power2::lemma2_to64();
        lemma_fold_own_branch(self.field_roots(), 0, 22, 5);
        reveal_with_fuel(crate::math::floor_log2, 8);
        assert(node(self.field_roots(), 0, 22) == self.field_roots()[22]);
    }

    /// The next sync committee is the node with generalized index 55 of the
    /// state.
    pub proof fn lemma_next_sync_committee_index(&self)
        ensures
            branch_is_valid(
                self.next_sync_committee.root_spec(),
                branch_of(self.field_roots(), 0, 23, 5),
                55,
                self.root_spec(),
            ),
    {
        vstd::arithmetic::power2::lemma2_to64();
        lemma_fold_own_branch(self.field_roots(), 0, 23, 5);
        reveal_with_fuel(crate::math::floor_log2, 8);
        assert(node(self.field_roots(), 0, 23) == self.field_roots()[23]);
    }

    /// The root of the finalized checkpoint is the node with generalized
    /// index 105 of the state: the branch that starts with the epoch of the
    /// checkpoint and goes on with the branch of the checkpoint is valid for
    /// that index under the root of the state.
    pub proof fn lemma_finalized_root_index(&self)
        ensures
            branch_is_valid(
                self.finalized_checkpoint.root@,
                seq![self.finalized_checkpoint.epoch.root_spec()] + branch_of(
                    self.field_roots(),
                    0,
                    20,
                    5,
                ),
                105,
                self.root_spec(),
            ),
    {
        vstd::arithmetic::power2::lemma2_to64();
        lemma_fold_own_branch(self.field_roots(), 0, 20, 5);
        reveal_with_fuel(crate::math::floor_log2, 8);
        crate::primitives::lemma_chunk_is_its_root(self.finalized_checkpoint.root);
        let upper = branch_of(self.field_roots(), 0, 20, 5);
        let branch = seq![self.finalized_checkpoint.epoch.root_spec()] + upper;
        assert(branch.skip(1) =~= upper);
        assert(branch[0] == self.finalized_checkpoint.epoch.root_spec());
        let pair = seq![
            self.finalized_checkpoint.epoch.root_spec(),
            self.finalized_checkpoint.root.root_spec(),
        ];
        reveal_with_fuel(node, 2);
        assert(node(pair, 0, 0) == pair[0]);
        assert(node(pair, 0, 1) == pair[1]);
        assert(node(self.field_roots(), 0, 20) == self.field_roots()[20]);
        assert(self.field_roots()[20] == self.finalized_checkpoint.root_spec());
    }
}

} // verus!
