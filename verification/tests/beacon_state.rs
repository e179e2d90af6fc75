use ethereum_consensus::altair::{BeaconState, SyncCommittee};
use ethereum_consensus::branch::{compute_branch, verify_branch};
use ethereum_consensus::byte_list::ByteList;
use ethereum_consensus::collections::{Bitvector, List, UintList, UintVector, Vector};
use ethereum_consensus::merkle::{merkle_root_of, uint64_root};
use ethereum_consensus::phase0::{
    BeaconBlockHeader, Checkpoint, Eth1Data, Fork, HistoricalBatch, Validator,
};
use ethereum_consensus::ssz::Merkleized;

type State = BeaconState<4, 8, 8, 16, 4, 4, 8, 2>;

fn committee(seed: u8) -> SyncCommittee<2> {
    SyncCommittee {
        public_keys: Vector::try_from(vec![[seed; 48], [seed + 1; 48]]).unwrap(),
        aggregate_public_key: [seed; 48],
    }
}

fn state() -> State {
    BeaconState {
        genesis_time: 1,
        genesis_validators_root: [2u8; 32],
        slot: 3,
        fork: Fork { previous_version: [0; 4], current_version: [1, 0, 0, 0], epoch: 4 },
        latest_block_header: BeaconBlockHeader {
            slot: 2,
            proposer_index: 1,
            parent_root: [5u8; 32],
            state_root: [6u8; 32],
            body_root: [7u8; 32],
        },
        block_roots: Vector::try_from(vec![[8u8; 32]; 4]).unwrap(),
        state_roots: Vector::try_from(vec![[9u8; 32]; 4]).unwrap(),
        historical_roots: List::try_from(vec![[10u8; 32]]).unwrap(),
        eth1_data: Eth1Data { deposit_root: [11u8; 32], deposit_count: 12, block_hash: [13u8; 32] },
        eth1_data_votes: List::new(),
        eth1_deposit_index: 14,
        validators: List::try_from(vec![Validator {
            public_key: [15u8; 48],
            withdrawal_credentials: [16u8; 32],
            effective_balance: 17,
            slashed: false,
            activation_eligibility_epoch: 18,
            activation_epoch: 19,
            exit_epoch: 20,
            withdrawable_epoch: 21,
        }])
        .unwrap(),
        balances: UintList::try_from(vec![22]).unwrap(),
        randao_mixes: Vector::try_from(vec![[23u8; 32]; 4]).unwrap(),
        slashings: UintVector::try_from(vec![0, 0, 24, 0]).unwrap(),
        previous_epoch_participation: ByteList::try_from(&[1]).unwrap(),
        current_epoch_participation: ByteList::try_from(&[3]).unwrap(),
        justification_bits: Bitvector::try_from(vec![true, false, true, false]).unwrap(),
        previous_justified_checkpoint: Checkpoint { epoch: 25, root: [26u8; 32] },
        current_justified_checkpoint: Checkpoint { epoch: 27, root: [28u8; 32] },
        finalized_checkpoint: Checkpoint { epoch: 29, root: [30u8; 32] },
        inactivity_scores: UintList::try_from(vec![31]).unwrap(),
        current_sync_committee: committee(32),
        next_sync_committee: committee(40),
    }
}

fn field_roots(state: &State) -> Vec<[u8; 32]> {
    vec![
        state.genesis_time.hash_tree_root(),
        state.genesis_validators_root.hash_tree_root(),
        state.slot.hash_tree_root(),
        state.fork.hash_tree_root(),
        state.latest_block_header.hash_tree_root(),
        state.block_roots.hash_tree_root(),
        state.state_roots.hash_tree_root(),
        state.historical_roots.hash_tree_root(),
        state.eth1_data.hash_tree_root(),
        state.eth1_data_votes.hash_tree_root(),
        state.eth1_deposit_index.hash_tree_root(),
        state.validators.hash_tree_root(),
        state.balances.hash_tree_root(),
        state.randao_mixes.hash_tree_root(),
        state.slashings.hash_tree_root(),
        state.previous_epoch_participation.hash_tree_root(),
        state.current_epoch_participation.hash_tree_root(),
        state.justification_bits.hash_tree_root(),
        state.previous_justified_checkpoint.hash_tree_root(),
        state.current_justified_checkpoint.hash_tree_root(),
        state.finalized_checkpoint.hash_tree_root(),
        state.inactivity_scores.hash_tree_root(),
        state.current_sync_committee.hash_tree_root(),
        state.next_sync_committee.hash_tree_root(),
    ]
}

#[test]
fn state_root_is_the_root_of_its_field_roots() {
    let state = state();
    assert_eq!(state.hash_tree_root(), merkle_root_of(&field_roots(&state), 5));
}

#[test]
fn finalized_root_sits_at_its_generalized_index() {
    let state = state();
    let mut branch = vec![uint64_root(29)];
    branch.extend(compute_branch(&field_roots(&state), 5, 20));
    assert_eq!(branch.len(), 6);
    assert!(verify_branch(&[30u8; 32], &branch, 105, &state.hash_tree_root()));
    assert!(!verify_branch(&[30u8; 32], &branch, 104, &state.hash_tree_root()));
}

#[test]
fn sync_committees_sit_at_their_generalized_indices() {
    let state = state();
    let root = state.hash_tree_root();
    let current = compute_branch(&field_roots(&state), 5, 22);
    let next = compute_branch(&field_roots(&state), 5, 23);
    assert!(verify_branch(&committee(32).hash_tree_root(), &current, 54, &root));
    assert!(verify_branch(&committee(40).hash_tree_root(), &next, 55, &root));
    assert!(!verify_branch(&committee(40).hash_tree_root(), &current, 54, &root));
}

#[test]
fn changing_a_field_of_the_state_changes_its_root() {
    let base = state().hash_tree_root();
    let mut other = state();
    other.slot = 4;
    assert_ne!(other.hash_tree_root(), base);
    let mut other = state();
    other.finalized_checkpoint.root[0] ^= 1;
    assert_ne!(other.hash_tree_root(), base);
    let mut other = state();
    other.balances = UintList::try_from(vec![22, 0]).unwrap();
    assert_ne!(other.hash_tree_root(), base);
    assert_eq!(state().hash_tree_root(), base);
}

#[test]
fn historical_batch_root_is_the_hash_of_its_two_vectors() {
    let batch: HistoricalBatch<4> = HistoricalBatch {
        block_roots: Vector::try_from(vec![[1u8; 32]; 4]).unwrap(),
        state_roots: Vector::try_from(vec![[2u8; 32]; 4]).unwrap(),
    };
    let expected = merkle_root_of(
        &vec![merkle_root_of(&vec![[1u8; 32]; 4], 2), merkle_root_of(&vec![[2u8; 32]; 4], 2)],
        1,
    );
    assert_eq!(batch.hash_tree_root(), expected);
}
