use ethereum_consensus::altair::{SyncAggregate, SyncCommittee};
use ethereum_consensus::branch::compute_branch;
use ethereum_consensus::collections::{Bitvector, Vector};
use ethereum_consensus::hash::hash_pair;
use ethereum_consensus::light_client::{
    initialize_light_client_store, is_absent_branch, process_light_client_update,
    validate_light_client_update, LightClientBootstrap, LightClientError, LightClientHeader,
    LightClientStore, LightClientUpdate, UpdateOutcome,
};
use ethereum_consensus::merkle::merkle_root_of;
use ethereum_consensus::phase0::BeaconBlockHeader;
use ethereum_consensus::ssz::Merkleized;

const SLOTS_PER_PERIOD: u64 = 64;

fn committee(seed: u8) -> SyncCommittee<4> {
    let keys = vec![[seed; 48], [seed + 1; 48], [seed + 2; 48], [seed + 3; 48]];
    SyncCommittee { public_keys: Vector::try_from(keys).unwrap(), aggregate_public_key: [seed; 48] }
}

fn header(slot: u64, state_root: [u8; 32]) -> LightClientHeader {
    LightClientHeader {
        beacon: BeaconBlockHeader {
            slot,
            proposer_index: 3,
            parent_root: [1u8; 32],
            state_root,
            body_root: [2u8; 32],
        },
    }
}

struct State {
    root: [u8; 32],
    finality_branch: Vec<[u8; 32]>,
    current_branch: Vec<[u8; 32]>,
    next_branch: Vec<[u8; 32]>,
}

// A state tree, given from the layer five below its root: the node with
// generalized index 52 is the parent of the finalized root, 54 and 55 are
// the two committees.
fn state(finalized: &LightClientHeader, current: &SyncCommittee<4>, next: &SyncCommittee<4>) -> State {
    let beside = [0x44u8; 32];
    let mut layer: Vec<[u8; 32]> = (0..32u8).map(|i| [i + 100; 32]).collect();
    layer[20] = hash_pair(&beside, &finalized.beacon.hash_tree_root());
    layer[22] = current.hash_tree_root();
    layer[23] = next.hash_tree_root();
    let mut finality_branch = vec![beside];
    finality_branch.extend(compute_branch(&layer, 5, 20));
    State {
        root: merkle_root_of(&layer, 5),
        finality_branch,
        current_branch: compute_branch(&layer, 5, 22),
        next_branch: compute_branch(&layer, 5, 23),
    }
}

fn aggregate(bits: [bool; 4]) -> SyncAggregate<4> {
    SyncAggregate {
        sync_committee_bits: Bitvector::try_from(bits.to_vec()).unwrap(),
        sync_committee_signature: [5u8; 96],
    }
}

fn bootstrapped() -> LightClientStore<4> {
    let current = committee(10);
    let tree = state(&header(0, [0u8; 32]), &current, &committee(20));
    let trusted = header(64, tree.root);
    let bootstrap = LightClientBootstrap {
        header: trusted,
        current_sync_committee: current,
        current_sync_committee_branch: Vector::try_from(tree.current_branch).unwrap(),
    };
    initialize_light_client_store(&trusted.beacon.hash_tree_root(), bootstrap).unwrap()
}

fn update(finalized_slot: u64, attested_slot: u64, bits: [bool; 4], with_finality: bool, with_next: bool) -> LightClientUpdate<4> {
    let finalized = header(finalized_slot, [9u8; 32]);
    let next = committee(30);
    let tree = state(&finalized, &committee(10), &next);
    LightClientUpdate {
        attested_header: header(attested_slot, tree.root),
        next_sync_committee: next,
        next_sync_committee_branch: Vector::try_from(if with_next {
            tree.next_branch
        } else {
            vec![[0u8; 32]; 5]
        })
        .unwrap(),
        finalized_header: finalized,
        finality_branch: Vector::try_from(if with_finality {
            tree.finality_branch
        } else {
            vec![[0u8; 32]; 6]
        })
        .unwrap(),
        sync_aggregate: aggregate(bits),
        signature_slot: attested_slot + 1,
    }
}

#[test]
fn bootstrap_with_a_proven_committee_starts_a_store() {
    let store = bootstrapped();
    assert_eq!(store.finalized_header.beacon.slot, 64);
    assert_eq!(store.optimistic_header, store.finalized_header);
    assert_eq!(store.current_sync_committee, committee(10));
    assert_eq!(store.next_sync_committee, committee(10));
    assert_eq!(store.best_valid_update, None);
    assert_eq!(store.previous_max_active_participants, 0);
    assert_eq!(store.current_max_active_participants, 0);
}

#[test]
fn bootstrap_with_another_header_is_refused() {
    let current = committee(10);
    let tree = state(&header(0, [0u8; 32]), &current, &committee(20));
    let bootstrap = LightClientBootstrap {
        header: header(64, tree.root),
        current_sync_committee: current,
        current_sync_committee_branch: Vector::try_from(tree.current_branch).unwrap(),
    };
    assert_eq!(
        initialize_light_client_store(&[0u8; 32], bootstrap),
        Err(LightClientError::UntrustedHeader)
    );
}

#[test]
fn bootstrap_with_an_unproven_committee_is_refused() {
    let tree = state(&header(0, [0u8; 32]), &committee(10), &committee(20));
    let trusted = header(64, tree.root);
    let bootstrap = LightClientBootstrap {
        header: trusted,
        current_sync_committee: committee(11),
        current_sync_committee_branch: Vector::try_from(tree.current_branch).unwrap(),
    };
    assert_eq!(
        initialize_light_client_store(&trusted.beacon.hash_tree_root(), bootstrap),
        Err(LightClientError::InvalidCurrentSyncCommitteeBranch)
    );
}

#[test]
fn update_with_a_finality_branch_that_does_not_verify_leaves_the_store_unchanged() {
    let mut store = bootstrapped();
    let before = store.clone();
    let mut bad = update(128, 130, [true, true, true, false], true, true);
    let mut branch = bad.finality_branch.as_vec().clone();
    branch[2][0] ^= 1;
    bad.finality_branch = Vector::try_from(branch).unwrap();
    assert_eq!(
        process_light_client_update(&mut store, bad, true, SLOTS_PER_PERIOD),
        Err(LightClientError::InvalidFinalityBranch)
    );
    assert_eq!(store, before);
}

#[test]
fn update_whose_finalized_header_is_not_under_its_attested_root_is_refused() {
    let mut store = bootstrapped();
    let before = store.clone();
    let mut bad = update(128, 130, [true, true, true, false], true, true);
    bad.finalized_header = header(129, [9u8; 32]);
    assert_eq!(validate_light_client_update(&bad, true), Err(LightClientError::InvalidFinalityBranch));
    assert_eq!(
        process_light_client_update(&mut store, bad, true, SLOTS_PER_PERIOD),
        Err(LightClientError::InvalidFinalityBranch)
    );
    assert_eq!(store, before);
}

#[test]
fn update_with_no_participants_is_refused() {
    let mut store = bootstrapped();
    let before = store.clone();
    let quiet = update(128, 130, [false; 4], true, true);
    assert_eq!(
        process_light_client_update(&mut store, quiet, true, SLOTS_PER_PERIOD),
        Err(LightClientError::InsufficientParticipation)
    );
    assert_eq!(store, before);
}

#[test]
fn update_with_a_refused_signature_is_refused() {
    let mut store = bootstrapped();
    let before = store.clone();
    let unsigned = update(128, 130, [true; 4], true, true);
    assert_eq!(
        process_light_client_update(&mut store, unsigned, false, SLOTS_PER_PERIOD),
        Err(LightClientError::InvalidSignature)
    );
    assert_eq!(store, before);
}

#[test]
fn update_with_an_unproven_next_committee_is_refused() {
    let mut store = bootstrapped();
    let before = store.clone();
    let mut bad = update(128, 130, [true; 4], true, true);
    bad.next_sync_committee = committee(77);
    assert_eq!(
        process_light_client_update(&mut store, bad, true, SLOTS_PER_PERIOD),
        Err(LightClientError::InvalidNextSyncCommitteeBranch)
    );
    assert_eq!(store, before);
}

#[test]
fn finalized_update_in_a_later_period_rotates_the_committees() {
    let mut store = bootstrapped();
    let good = update(128, 130, [true, true, true, false], true, true);
    assert_eq!(
        process_light_client_update(&mut store, good, true, SLOTS_PER_PERIOD),
        Ok(UpdateOutcome::Finalized)
    );
    assert_eq!(store.finalized_header, header(128, [9u8; 32]));
    assert_eq!(store.current_sync_committee, committee(10));
    assert_eq!(store.next_sync_committee, committee(30));
    assert_eq!(store.best_valid_update, None);
    assert_eq!(store.previous_max_active_participants, 3);
    assert_eq!(store.current_max_active_participants, 0);
    assert_eq!(store.optimistic_header, header(64, store.optimistic_header.beacon.state_root));
}

#[test]
fn finalized_update_in_the_same_period_keeps_the_current_committee() {
    let mut store = bootstrapped();
    let good = update(100, 110, [true, true, false, false], true, true);
    assert_eq!(
        process_light_client_update(&mut store, good, true, SLOTS_PER_PERIOD),
        Ok(UpdateOutcome::Finalized)
    );
    assert_eq!(store.finalized_header.beacon.slot, 100);
    assert_eq!(store.current_sync_committee, committee(10));
    assert_eq!(store.next_sync_committee, committee(30));
    assert_eq!(store.previous_max_active_participants, 0);
    assert_eq!(store.current_max_active_participants, 2);
}

#[test]
fn finalized_update_without_a_next_committee_keeps_both_committees() {
    let mut store = bootstrapped();
    let good = update(200, 210, [true, false, false, false], true, false);
    assert_eq!(
        process_light_client_update(&mut store, good, true, SLOTS_PER_PERIOD),
        Ok(UpdateOutcome::Finalized)
    );
    assert_eq!(store.finalized_header.beacon.slot, 200);
    assert_eq!(store.current_sync_committee, committee(10));
    assert_eq!(store.next_sync_committee, committee(10));
    assert_eq!(store.current_max_active_participants, 1);
}

#[test]
fn update_without_finality_is_held_only_where_it_is_better() {
    let mut store = bootstrapped();
    let first = update(0, 70, [true, true, false, false], false, false);
    assert_eq!(
        process_light_client_update(&mut store, first.clone(), true, SLOTS_PER_PERIOD),
        Ok(UpdateOutcome::BestUpdateReplaced)
    );
    assert_eq!(store.best_valid_update, Some(first.clone()));
    assert_eq!(store.finalized_header.beacon.slot, 64);
    assert_eq!(store.current_max_active_participants, 2);

    let weaker = update(0, 90, [true, false, false, false], false, false);
    assert_eq!(
        process_light_client_update(&mut store, weaker, true, SLOTS_PER_PERIOD),
        Ok(UpdateOutcome::Ignored)
    );
    assert_eq!(store.best_valid_update, Some(first.clone()));

    let same_but_earlier = update(0, 69, [false, true, true, false], false, false);
    assert_eq!(
        process_light_client_update(&mut store, same_but_earlier, true, SLOTS_PER_PERIOD),
        Ok(UpdateOutcome::Ignored)
    );
    assert_eq!(store.best_valid_update, Some(first));

    let same_but_later = update(0, 71, [false, true, true, false], false, false);
    assert_eq!(
        process_light_client_update(&mut store, same_but_later.clone(), true, SLOTS_PER_PERIOD),
        Ok(UpdateOutcome::BestUpdateReplaced)
    );
    assert_eq!(store.best_valid_update, Some(same_but_later));

    let stronger = update(0, 66, [true, true, true, true], false, false);
    assert_eq!(
        process_light_client_update(&mut store, stronger.clone(), true, SLOTS_PER_PERIOD),
        Ok(UpdateOutcome::BestUpdateReplaced)
    );
    assert_eq!(store.best_valid_update, Some(stronger));
    assert_eq!(store.current_max_active_participants, 4);
}

#[test]
fn a_branch_of_zero_chunks_is_absent() {
    assert!(is_absent_branch(&vec![[0u8; 32]; 6]));
    assert!(is_absent_branch(&vec![]));
    let mut branch = vec![[0u8; 32]; 6];
    branch[5][31] = 1;
    assert!(!is_absent_branch(&branch));
}
