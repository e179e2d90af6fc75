//! The messages of the light-client protocol and the store that a light client keeps.

use crate::altair::{SyncAggregate, SyncCommittee};
use crate::branch::{branch_is_valid, verify_branch};
use crate::collections::{count_set, Vector};
use crate::hash::{chunk_eq, zero_chunk};
use crate::math::floor_log2;
use crate::merkle::{chunk_views, merkle_root, merkle_root_of, zero_node};
use crate::phase0::BeaconBlockHeader;
use crate::primitives::{Bytes32, Root, Slot};
use crate::ssz::{Composite, DeserializeError, Merkleized, Serialize};
use vstd::bytes::lemma_auto_spec_u64_to_from_le_bytes;
use vstd::prelude::*;
use vstd::slice::slice_subrange;

verus! {

/// The generalized index of the root of the finalized checkpoint in a state.
pub const FINALIZED_ROOT_INDEX: usize = 105;

/// The depth of the root of the finalized checkpoint in a state.
pub const FINALIZED_ROOT_INDEX_FLOOR_LOG_2: usize = 6;

/// The generalized index of the current sync committee in a state.
pub const CURRENT_SYNC_COMMITTEE_INDEX: usize = 54;

/// The depth of the current sync committee in a state.
pub const CURRENT_SYNC_COMMITTEE_INDEX_FLOOR_LOG_2: usize = 5;

/// The generalized index of the next sync committee in a state.
pub const NEXT_SYNC_COMMITTEE_INDEX: usize = 55;

/// The depth of the next sync committee in a state.
pub const NEXT_SYNC_COMMITTEE_INDEX_FLOOR_LOG_2: usize = 5;

/// The least number of committee members whose signature makes an update
/// worth looking at.
pub const MIN_SYNC_COMMITTEE_PARTICIPANTS: usize = 1;

/// The depths written down beside the generalized indices are the depths
/// of these indices.
pub proof fn lemma_known_indices_have_their_depths()
    ensures
        floor_log2(FINALIZED_ROOT_INDEX as nat) == FINALIZED_ROOT_INDEX_FLOOR_LOG_2,
        floor_log2(CURRENT_SYNC_COMMITTEE_INDEX as nat) == CURRENT_SYNC_COMMITTEE_INDEX_FLOOR_LOG_2,
        floor_log2(NEXT_SYNC_COMMITTEE_INDEX as nat) == NEXT_SYNC_COMMITTEE_INDEX_FLOOR_LOG_2,
{
    reveal_with_fuel(floor_log2, 8);
}

/// The header of a beacon block as light clients pass it on.
#[derive(Clone, Copy, Debug, PartialEq, Eq)]
pub struct LightClientHeader {
    pub beacon: BeaconBlockHeader,
}

impl Composite for LightClientHeader {

}

impl Merkleized for LightClientHeader {
    open spec fn root_spec(&self) -> Seq<u8> {
        merkle_root(
            seq![
                self.beacon.root_spec(),
            ],
            0,
        )
    }

    fn hash_tree_root(&self) -> (root: [u8; 32]) {
        let mut chunks: Vec<[u8; 32]> = Vec::new();
        chunks.push(self.beacon.hash_tree_root());
        proof {
            assert(chunk_views(chunks@) =~= seq![
                self.beacon.root_spec(),
            ]);
        }
        merkle_root_of(&chunks, 0)
    }
}

impl Serialize for LightClientHeader {
    open spec fn encoding(&self) -> Seq<u8> {
        self.beacon.encoding()
    }

    fn serialize_into(&self, buffer: &mut Vec<u8>) {
        self.beacon.serialize_into(buffer);
        proof {
            assert(buffer@ =~= old(buffer)@ + self.encoding());
        }
    }
}

impl LightClientHeader {
    /// The length of the encoding: 112 bytes.
    pub open spec fn encoded_len() -> nat {
        112
    }

    /// Whether the fields are what the bytes of `encoding` say, each at its
    /// place.
    pub open spec fn decoded_from(&self, encoding: Seq<u8>) -> bool {
        &&& self.beacon.decoded_from(encoding.subrange(0, 112))
    }

    /// What decoding `encoding` gives: the value whose fields the bytes
    /// say, or the error that says what is wrong with them.
    pub open spec fn decodes(encoding: Seq<u8>, result: Result<Self, DeserializeError>) -> bool {
        if encoding.len() < 112 {
            result == Err::<Self, DeserializeError>(
                DeserializeError::ExpectedFurtherInput {
                    provided: encoding.len() as usize,
                    expected: 112,
                },
            )
        } else if encoding.len() > 112 {
            result == Err::<Self, DeserializeError>(
                DeserializeError::AdditionalInput {
                    provided: encoding.len() as usize,
                    expected: 112,
                },
            )
        } else {
            result is Ok && result->Ok_0.decoded_from(encoding)
        }
    }

    /// Decodes a value: the input holds the fields in order and nothing
    /// else.
    pub fn deserialize(encoding: &[u8]) -> (result: Result<Self, DeserializeError>)
        ensures
            Self::decodes(encoding@, result),
    {
        if encoding.len() < 112 {
            return Err(
                DeserializeError::ExpectedFurtherInput { provided: encoding.len(), expected: 112 },
            );
        }
        if encoding.len() > 112 {
            return Err(
                DeserializeError::AdditionalInput { provided: encoding.len(), expected: 112 },
            );
        }
        let beacon = match BeaconBlockHeader::deserialize(slice_subrange(encoding, 0, 112)) {
            Ok(value) => value,
            Err(e) => {
                return Err(e);
            },
        };
        Ok(LightClientHeader { beacon })
    }

    /// The encoding has its length, and its bytes say the fields.
    pub proof fn lemma_encoding_decodes(&self)
        ensures
            self.encoding().len() == 112,
            self.decoded_from(self.encoding()),
    {
        lemma_auto_spec_u64_to_from_le_bytes();
        self.beacon.lemma_encoding_decodes();
        assert(self.encoding().subrange(0, 112) =~= self.beacon.encoding());
    }

    /// Decoding the encoding of a value gives the value back.
    pub proof fn lemma_round_trip(&self, decoded: Result<Self, DeserializeError>)
        requires
            Self::decodes(self.encoding(), decoded),
        ensures
            decoded == Ok::<Self, DeserializeError>(*self),
    {
        self.lemma_encoding_decodes();
        self.lemma_decoded_is_self(decoded->Ok_0, self.encoding());
    }

    /// Only one value has the fields that the bytes say.
    pub proof fn lemma_decoded_is_self(&self, other: Self, encoding: Seq<u8>)
        requires
            self.decoded_from(encoding),
            other.decoded_from(encoding),
        ensures
            *self == other,
    {
        self.beacon.lemma_decoded_is_self(other.beacon, encoding.subrange(0, 112));
    }
}

/// What a light client starts from: a header and the sync committee of its state.
#[derive(Clone, Debug, PartialEq, Eq)]
pub struct LightClientBootstrap<const SYNC_COMMITTEE_SIZE: usize> {
    pub header: LightClientHeader,
    pub current_sync_committee: SyncCommittee<SYNC_COMMITTEE_SIZE>,
    pub current_sync_committee_branch: Vector<Bytes32, CURRENT_SYNC_COMMITTEE_INDEX_FLOOR_LOG_2>,
}

impl<const SYNC_COMMITTEE_SIZE: usize> Composite for LightClientBootstrap<SYNC_COMMITTEE_SIZE> {

}

impl<const SYNC_COMMITTEE_SIZE: usize> Merkleized for LightClientBootstrap<SYNC_COMMITTEE_SIZE> {
    open spec fn root_spec(&self) -> Seq<u8> {
        merkle_root(
            seq![
                self.header.root_spec(),
                self.current_sync_committee.root_spec(),
                self.current_sync_committee_branch.root_spec(),
            ],
            2,
        )
    }

    fn hash_tree_root(&self) -> (root: [u8; 32]) {
        let mut chunks: Vec<[u8; 32]> = Vec::new();
        chunks.push(self.header.hash_tree_root());
        chunks.push(self.current_sync_committee.hash_tree_root());
        chunks.push(self.current_sync_committee_branch.hash_tree_root());
        proof {
            assert(chunk_views(chunks@) =~= seq![
                self.header.root_spec(),
                self.current_sync_committee.root_spec(),
                self.current_sync_committee_branch.root_spec(),
            ]);
        }
        merkle_root_of(&chunks, 2)
    }
}

/// A header that a sync committee attests to, with the next committee and the finalized header that its state proves.
#[derive(Clone, Debug, PartialEq, Eq)]
pub struct LightClientUpdate<const SYNC_COMMITTEE_SIZE: usize> {
    pub attested_header: LightClientHeader,
    pub next_sync_committee: SyncCommittee<SYNC_COMMITTEE_SIZE>,
    pub next_sync_committee_branch: Vector<Bytes32, NEXT_SYNC_COMMITTEE_INDEX_FLOOR_LOG_2>,
    pub finalized_header: LightClientHeader,
    pub finality_branch: Vector<Bytes32, FINALIZED_ROOT_INDEX_FLOOR_LOG_2>,
    pub sync_aggregate: SyncAggregate<SYNC_COMMITTEE_SIZE>,
    pub signature_slot: Slot,
}

impl<const SYNC_COMMITTEE_SIZE: usize> Composite for LightClientUpdate<SYNC_COMMITTEE_SIZE> {

}

impl<const SYNC_COMMITTEE_SIZE: usize> Merkleized for LightClientUpdate<SYNC_COMMITTEE_SIZE> {
    open spec fn root_spec(&self) -> Seq<u8> {
        merkle_root(
            seq![
                self.attested_header.root_spec(),
                self.next_sync_committee.root_spec(),
                self.next_sync_committee_branch.root_spec(),
                self.finalized_header.root_spec(),
                self.finality_branch.root_spec(),
                self.sync_aggregate.root_spec(),
                self.signature_slot.root_spec(),
            ],
            3,
        )
    }

    fn hash_tree_root(&self) -> (root: [u8; 32]) {
        let mut chunks: Vec<[u8; 32]> = Vec::new();
        chunks.push(self.attested_header.hash_tree_root());
        chunks.push(self.next_sync_committee.hash_tree_root());
        chunks.push(self.next_sync_committee_branch.hash_tree_root());
        chunks.push(self.finalized_header.hash_tree_root());
        chunks.push(self.finality_branch.hash_tree_root());
        chunks.push(self.sync_aggregate.hash_tree_root());
        chunks.push(self.signature_slot.hash_tree_root());
        proof {
            assert(chunk_views(chunks@) =~= seq![
                self.attested_header.root_spec(),
                self.next_sync_committee.root_spec(),
                self.next_sync_committee_branch.root_spec(),
                self.finalized_header.root_spec(),
                self.finality_branch.root_spec(),
                self.sync_aggregate.root_spec(),
                self.signature_slot.root_spec(),
            ]);
        }
        merkle_root_of(&chunks, 3)
    }
}

/// An attested header with the finalized header that its state proves.
#[derive(Clone, Debug, PartialEq, Eq)]
pub struct LightClientFinalityUpdate<const SYNC_COMMITTEE_SIZE: usize> {
    pub attested_header: LightClientHeader,
    pub finalized_header: LightClientHeader,
    pub finality_branch: Vector<Bytes32, FINALIZED_ROOT_INDEX_FLOOR_LOG_2>,
    pub sync_aggregate: SyncAggregate<SYNC_COMMITTEE_SIZE>,
    pub signature_slot: Slot,
}

impl<const SYNC_COMMITTEE_SIZE: usize> Composite for LightClientFinalityUpdate<SYNC_COMMITTEE_SIZE> {

}

impl<const SYNC_COMMITTEE_SIZE: usize> Merkleized for LightClientFinalityUpdate<SYNC_COMMITTEE_SIZE> {
    open spec fn root_spec(&self) -> Seq<u8> {
        merkle_root(
            seq![
                self.attested_header.root_spec(),
                self.finalized_header.root_spec(),
                self.finality_branch.root_spec(),
                self.sync_aggregate.root_spec(),
                self.signature_slot.root_spec(),
            ],
            3,
        )
    }

    fn hash_tree_root(&self) -> (root: [u8; 32]) {
        let mut chunks: Vec<[u8; 32]> = Vec::new();
        chunks.push(self.attested_header.hash_tree_root());
        chunks.push(self.finalized_header.hash_tree_root());
        chunks.push(self.finality_branch.hash_tree_root());
        chunks.push(self.sync_aggregate.hash_tree_root());
        chunks.push(self.signature_slot.hash_tree_root());
        proof {
            assert(chunk_views(chunks@) =~= seq![
                self.attested_header.root_spec(),
                self.finalized_header.root_spec(),
                self.finality_branch.root_spec(),
                self.sync_aggregate.root_spec(),
                self.signature_slot.root_spec(),
            ]);
        }
        merkle_root_of(&chunks, 3)
    }
}

/// An attested header with the signature of the sync committee.
#[derive(Clone, Debug, PartialEq, Eq)]
pub struct LightClientOptimisticUpdate<const SYNC_COMMITTEE_SIZE: usize> {
    pub attested_header: LightClientHeader,
    pub sync_aggregate: SyncAggregate<SYNC_COMMITTEE_SIZE>,
    pub signature_slot: Slot,
}

impl<const SYNC_COMMITTEE_SIZE: usize> Composite for LightClientOptimisticUpdate<SYNC_COMMITTEE_SIZE> {

}

impl<const SYNC_COMMITTEE_SIZE: usize> Merkleized for LightClientOptimisticUpdate<SYNC_COMMITTEE_SIZE> {
    open spec fn root_spec(&self) -> Seq<u8> {
        merkle_root(
            seq![
                self.attested_header.root_spec(),
                self.sync_aggregate.root_spec(),
                self.signature_slot.root_spec(),
            ],
            2,
        )
    }

    fn hash_tree_root(&self) -> (root: [u8; 32]) {
        let mut chunks: Vec<[u8; 32]> = Vec::new();
        chunks.push(self.attested_header.hash_tree_root());
        chunks.push(self.sync_aggregate.hash_tree_root());
        chunks.push(self.signature_slot.hash_tree_root());
        proof {
            assert(chunk_views(chunks@) =~= seq![
                self.attested_header.root_spec(),
                self.sync_aggregate.root_spec(),
                self.signature_slot.root_spec(),
            ]);
        }
        merkle_root_of(&chunks, 2)
    }
}

impl<const SYNC_COMMITTEE_SIZE: usize> Serialize for LightClientOptimisticUpdate<SYNC_COMMITTEE_SIZE> {
    open spec fn encoding(&self) -> Seq<u8> {
        self.attested_header.encoding() + self.sync_aggregate.encoding() + self.signature_slot.encoding()
    }

    fn serialize_into(&self, buffer: &mut Vec<u8>) {
        self.attested_header.serialize_into(buffer);
        self.sync_aggregate.serialize_into(buffer);
        self.signature_slot.serialize_into(buffer);
        proof {
            assert(buffer@ =~= old(buffer)@ + self.encoding());
        }
    }
}
/// What a light client knows of the chain.
#[derive(Clone, Debug, PartialEq, Eq)]
pub struct LightClientStore<const SYNC_COMMITTEE_SIZE: usize> {
    pub finalized_header: LightClientHeader,
    pub current_sync_committee: SyncCommittee<SYNC_COMMITTEE_SIZE>,
    pub next_sync_committee: SyncCommittee<SYNC_COMMITTEE_SIZE>,
    pub best_valid_update: Option<LightClientUpdate<SYNC_COMMITTEE_SIZE>>,
    pub optimistic_header: LightClientHeader,
    pub previous_max_active_participants: u64,
    pub current_max_active_participants: u64,
}

/// Why a bootstrap or an update was turned down.
#[derive(Clone, Copy, Debug, PartialEq, Eq, Structural)]
pub enum LightClientError {
    /// The header of the bootstrap is not the trusted block.
    UntrustedHeader,
    /// The branch of the current sync committee does not lead to the state
    /// root of the header.
    InvalidCurrentSyncCommitteeBranch,
    /// Fewer members of the committee signed than are required.
    InsufficientParticipation,
    /// The signature of the committee was not accepted.
    InvalidSignature,
    /// The branch of the finalized header does not lead to the state root
    /// of the attested header.
    InvalidFinalityBranch,
    /// The branch of the next sync committee does not lead to the state
    /// root of the attested header.
    InvalidNextSyncCommitteeBranch,
}

/// What an accepted update did to the store.
#[derive(Clone, Copy, Debug, PartialEq, Eq, Structural)]
pub enum UpdateOutcome {
    /// The finalized header was replaced.
    Finalized,
    /// The update is now the best one held.
    BestUpdateReplaced,
    /// The update is no better than the one held.
    Ignored,
}

/// Whether two committees have the same keys.
pub open spec fn same_committee<const N: usize>(a: SyncCommittee<N>, b: SyncCommittee<N>) -> bool {
    a.public_keys@ == b.public_keys@ && a.aggregate_public_key == b.aggregate_public_key
}

/// Whether every chunk of a branch is zero: such a branch stands for a
/// proof that was left out.
pub open spec fn branch_is_absent(branch: Seq<Seq<u8>>) -> bool {
    forall|i: int| 0 <= i < branch.len() ==> #[trigger] branch[i] == zero_chunk()
}

/// The number of committee members that signed an update.
pub open spec fn participants<const N: usize>(update: LightClientUpdate<N>) -> nat {
    count_set(
        update.sync_aggregate.sync_committee_bits@,
        update.sync_aggregate.sync_committee_bits@.len(),
    )
}

/// Whether the finality branch of an update leads from its finalized header
/// to the state root of its attested header.
pub open spec fn finality_is_proven<const N: usize>(update: LightClientUpdate<N>) -> bool {
    branch_is_valid(
        update.finalized_header.beacon.root_spec(),
        chunk_views(update.finality_branch@),
        FINALIZED_ROOT_INDEX as nat,
        update.attested_header.beacon.state_root@,
    )
}

/// Whether the branch of the next sync committee of an update leads from that
/// committee to the state root of its attested header.
pub open spec fn next_committee_is_proven<const N: usize>(update: LightClientUpdate<N>) -> bool {
    branch_is_valid(
        update.next_sync_committee.root_spec(),
        chunk_views(update.next_sync_committee_branch@),
        NEXT_SYNC_COMMITTEE_INDEX as nat,
        update.attested_header.beacon.state_root@,
    )
}

/// The error that an update is turned down with, if it is: the first of
/// too few participants, a branch of the next committee that is there and
/// does not verify, a finality branch that is there and does not verify,
/// and a signature that was not accepted.
pub open spec fn update_error<const N: usize>(
    update: LightClientUpdate<N>,
    signature_accepted: bool,
) -> Option<LightClientError> {
    if participants(update) < MIN_SYNC_COMMITTEE_PARTICIPANTS {
        Some(LightClientError::InsufficientParticipation)
    } else if !branch_is_absent(chunk_views(update.next_sync_committee_branch@))
        && !next_committee_is_proven(update) {
        Some(LightClientError::InvalidNextSyncCommitteeBranch)
    } else if !branch_is_absent(chunk_views(update.finality_branch@)) && !finality_is_proven(
        update,
    ) {
        Some(LightClientError::InvalidFinalityBranch)
    } else if !signature_accepted {
        Some(LightClientError::InvalidSignature)
    } else {
        None
    }
}

/// Whether an update is better than the best one held: there is none held,
/// or more members signed this one, or as many did and its attested header
/// is of a later slot.
pub open spec fn is_better_update<const N: usize>(
    update: LightClientUpdate<N>,
    held: Option<LightClientUpdate<N>>,
) -> bool {
    match held {
        None => true,
        Some(best) => participants(update) > participants(best) || (participants(update)
            == participants(best) && update.attested_header.beacon.slot
            > best.attested_header.beacon.slot),
    }
}

/// The store after an accepted update with a finality proof. The finalized
/// header is that of the update. Where the update proves a next committee,
/// that committee becomes the next one; and where the new finalized header
/// lies in a later period than the old one, the old next committee becomes
/// the current one first, and the high-water marks move on: the current one
/// becomes the previous one and starts again at zero.
pub open spec fn finalized_store<const N: usize>(
    pre: LightClientStore<N>,
    post: LightClientStore<N>,
    update: LightClientUpdate<N>,
    slots_per_period: u64,
) -> bool {
    let mark = high_water_mark(pre.current_max_active_participants, participants(update));
    let rotates = !branch_is_absent(chunk_views(update.next_sync_committee_branch@));
    let crosses = update.finalized_header.beacon.slot / slots_per_period
        > pre.finalized_header.beacon.slot / slots_per_period;
    &&& post.finalized_header == update.finalized_header
    &&& post.optimistic_header == pre.optimistic_header
    &&& post.best_valid_update == None::<LightClientUpdate<N>>
    &&& same_committee(
        post.next_sync_committee,
        if rotates {
            update.next_sync_committee
        } else {
            pre.next_sync_committee
        },
    )
    &&& same_committee(
        post.current_sync_committee,
        if rotates && crosses {
            pre.next_sync_committee
        } else {
            pre.current_sync_committee
        },
    )
    &&& post.previous_max_active_participants == (if rotates && crosses {
        mark
    } else {
        pre.previous_max_active_participants
    })
    &&& post.current_max_active_participants == (if rotates && crosses {
        0
    } else {
        mark
    })
}

/// The greater of the mark held and the number of participants seen.
pub open spec fn high_water_mark(held: u64, seen: nat) -> u64 {
    if seen > held {
        seen as u64
    } else {
        held
    }
}

/// The store after an accepted update without a finality proof: the
/// high-water mark is raised, and the update is held as the best one exactly
/// when it is better than the one held.
pub open spec fn awaiting_store<const N: usize>(
    pre: LightClientStore<N>,
    post: LightClientStore<N>,
    update: LightClientUpdate<N>,
) -> bool {
    &&& post.finalized_header == pre.finalized_header
    &&& post.optimistic_header == pre.optimistic_header
    &&& post.current_sync_committee == pre.current_sync_committee
    &&& post.next_sync_committee == pre.next_sync_committee
    &&& post.previous_max_active_participants == pre.previous_max_active_participants
    &&& post.current_max_active_participants == high_water_mark(
        pre.current_max_active_participants,
        participants(update),
    )
    &&& post.best_valid_update == (if is_better_update(update, pre.best_valid_update) {
        Some(update)
    } else {
        pre.best_valid_update
    })
}

/// Whether every chunk of a branch is zero.
pub fn is_absent_branch(branch: &Vec<[u8; 32]>) -> (absent: bool)
    ensures
        absent == branch_is_absent(chunk_views(branch@)),
{
    let zero = zero_node();
    let mut i: usize = 0;
    while i < branch.len()
        invariant
            i <= branch.len(),
            zero@ == zero_chunk(),
            forall|k: int| 0 <= k < i ==> #[trigger] chunk_views(branch@)[k] == zero_chunk(),
        decreases branch.len() - i,
    {
        if !chunk_eq(&branch[i], &zero) {
            proof {
                assert(chunk_views(branch@)[i as int] != zero_chunk());
            }
            return false;
        }
        i = i + 1;
    }
    true
}

impl<const N: usize> SyncCommittee<N> {
    /// A copy of the committee.
    pub fn duplicate(&self) -> (copy: Self)
        ensures
            same_committee(copy, *self),
    {
        SyncCommittee {
            public_keys: self.public_keys.duplicate(),
            aggregate_public_key: self.aggregate_public_key,
        }
    }
}

/// Starts a store from a bootstrap. Succeeds exactly when the header of the
/// bootstrap has the trusted root and the branch leads from the committee
/// to the state root of the header. The store then holds the header as
/// finalized and optimistic header, the committee as the current one and
/// again as a stand-in for the next one, no update, and zero for both
/// high-water marks.
pub fn initialize_light_client_store<const N: usize>(
    trusted_block_root: &Root,
    bootstrap: LightClientBootstrap<N>,
) -> (result: Result<LightClientStore<N>, LightClientError>)
    ensures
        bootstrap.header.beacon.root_spec() != trusted_block_root@ ==> result == Err::<
            LightClientStore<N>,
            LightClientError,
        >(LightClientError::UntrustedHeader),
        bootstrap.header.beacon.root_spec() == trusted_block_root@ && !bootstrap_is_proven(
            bootstrap,
        ) ==> result == Err::<LightClientStore<N>, LightClientError>(
            LightClientError::InvalidCurrentSyncCommitteeBranch,
        ),
        bootstrap.header.beacon.root_spec() == trusted_block_root@ && bootstrap_is_proven(
            bootstrap,
        ) ==> result is Ok && bootstrapped_store(result->Ok_0, bootstrap),
{
    let header_root = bootstrap.header.beacon.hash_tree_root();
    if !chunk_eq(&header_root, trusted_block_root) {
        return Err(LightClientError::UntrustedHeader);
    }
    let committee_root = bootstrap.current_sync_committee.hash_tree_root();
    if !verify_branch(
        &committee_root,
        bootstrap.current_sync_committee_branch.as_vec(),
        CURRENT_SYNC_COMMITTEE_INDEX,
        &bootstrap.header.beacon.state_root,
    ) {
        return Err(LightClientError::InvalidCurrentSyncCommitteeBranch);
    }
    let next_sync_committee = bootstrap.current_sync_committee.duplicate();
    Ok(
        LightClientStore {
            finalized_header: bootstrap.header,
            current_sync_committee: bootstrap.current_sync_committee,
            next_sync_committee,
            best_valid_update: None,
            optimistic_header: bootstrap.header,
            previous_max_active_participants: 0,
            current_max_active_participants: 0,
        },
    )
}

/// Whether the branch of a bootstrap leads from its committee to the state
/// root of its header.
pub open spec fn bootstrap_is_proven<const N: usize>(bootstrap: LightClientBootstrap<N>) -> bool {
    branch_is_valid(
        bootstrap.current_sync_committee.root_spec(),
        chunk_views(bootstrap.current_sync_committee_branch@),
        CURRENT_SYNC_COMMITTEE_INDEX as nat,
        bootstrap.header.beacon.state_root@,
    )
}

/// The store that a bootstrap starts.
pub open spec fn bootstrapped_store<const N: usize>(
    store: LightClientStore<N>,
    bootstrap: LightClientBootstrap<N>,
) -> bool {
    &&& store.finalized_header == bootstrap.header
    &&& store.optimistic_header == bootstrap.header
    &&& store.current_sync_committee == bootstrap.current_sync_committee
    &&& same_committee(store.next_sync_committee, bootstrap.current_sync_committee)
    &&& store.best_valid_update == None::<LightClientUpdate<N>>
    &&& store.previous_max_active_participants == 0
    &&& store.current_max_active_participants == 0
}

/// Checks an update without touching the store: says with which error it
/// is turned down, if it is.
pub fn validate_light_client_update<const N: usize>(
    update: &LightClientUpdate<N>,
    signature_accepted: bool,
) -> (result: Result<(), LightClientError>)
    ensures
        result == (match update_error(*update, signature_accepted) {
            Some(error) => Err::<(), LightClientError>(error),
            None => Ok::<(), LightClientError>(()),
        }),
{
    let count = update.sync_aggregate.sync_committee_bits.count_ones();
    if count < MIN_SYNC_COMMITTEE_PARTICIPANTS {
        return Err(LightClientError::InsufficientParticipation);
    }
    if !is_absent_branch(update.next_sync_committee_branch.as_vec()) {
        let committee_root = update.next_sync_committee.hash_tree_root();
        if !verify_branch(
            &committee_root,
            update.next_sync_committee_branch.as_vec(),
            NEXT_SYNC_COMMITTEE_INDEX,
            &update.attested_header.beacon.state_root,
        ) {
            return Err(LightClientError::InvalidNextSyncCommitteeBranch);
        }
    }
    if !is_absent_branch(update.finality_branch.as_vec()) {
        let finalized_root = update.finalized_header.beacon.hash_tree_root();
        if !verify_branch(
            &finalized_root,
            update.finality_branch.as_vec(),
            FINALIZED_ROOT_INDEX,
            &update.attested_header.beacon.state_root,
        ) {
            return Err(LightClientError::InvalidFinalityBranch);
        }
    }
    if !signature_accepted {
        return Err(LightClientError::InvalidSignature);
    }
    Ok(())
}

/// Takes an update into the store. `signature_accepted` says whether the
/// signature primitive accepted the committee's signature over the attested
/// header; `slots_per_period` is the number of slots that one committee
/// serves. An update that is turned down leaves the store as it was. An
/// accepted one with a finality proof replaces the finalized header; one
/// without is held as the best update where it is better than the one held.
pub fn process_light_client_update<const N: usize>(
    store: &mut LightClientStore<N>,
    update: LightClientUpdate<N>,
    signature_accepted: bool,
    slots_per_period: u64,
) -> (result: Result<UpdateOutcome, LightClientError>)
    requires
        slots_per_period > 0,
    ensures
        match update_error(update, signature_accepted) {
            Some(error) => result == Err::<UpdateOutcome, LightClientError>(error) && *final(store)
                == *old(store),
            None => if !branch_is_absent(chunk_views(update.finality_branch@)) {
                result == Ok::<UpdateOutcome, LightClientError>(UpdateOutcome::Finalized)
                    && finalized_store(*old(store), *final(store), update, slots_per_period)
            } else {
                result == Ok::<UpdateOutcome, LightClientError>(
                    if is_better_update(update, old(store).best_valid_update) {
                        UpdateOutcome::BestUpdateReplaced
                    } else {
                        UpdateOutcome::Ignored
                    },
                ) && awaiting_store(*old(store), *final(store), update)
            },
        },
{
    match validate_light_client_update(&update, signature_accepted) {
        Ok(()) => {},
        Err(error) => {
            return Err(error);
        },
    }
    let count: usize = update.sync_aggregate.sync_committee_bits.count_ones();
    let seen: u64 = count as u64;
    let mark: u64 = if seen > store.current_max_active_participants {
        seen
    } else {
        store.current_max_active_participants
    };
    if !is_absent_branch(update.finality_branch.as_vec()) {
        let rotates = !is_absent_branch(update.next_sync_committee_branch.as_vec());
        let crosses = update.finalized_header.beacon.slot / slots_per_period
            > store.finalized_header.beacon.slot / slots_per_period;
        store.current_max_active_participants = mark;
        if rotates {
            if crosses {
                let current = store.next_sync_committee.duplicate();
                store.current_sync_committee = current;
                store.previous_max_active_participants = mark;
                store.current_max_active_participants = 0;
            }
            store.next_sync_committee = update.next_sync_committee;
        }
        store.finalized_header = update.finalized_header;
        store.best_valid_update = None;
        Ok(UpdateOutcome::Finalized)
    } else {
        store.current_max_active_participants = mark;
        let better = match &store.best_valid_update {
            None => true,
            Some(best) => {
                let held: usize = best.sync_aggregate.sync_committee_bits.count_ones();
                count > held || (count == held && update.attested_header.beacon.slot
                    > best.attested_header.beacon.slot)
            },
        };
        if better {
            store.best_valid_update = Some(update);
            Ok(UpdateOutcome::BestUpdateReplaced)
        } else {
            Ok(UpdateOutcome::Ignored)
        }
    }
}

} // verus!
