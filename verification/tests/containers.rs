use ethereum_consensus::byte_list::ByteList;
use ethereum_consensus::byte_vector::ByteVector;
use ethereum_consensus::capella::{
    deserialize_withdrawals, serialize_withdrawals, BlsToExecutionChange, ExecutionPayload,
    ExecutionPayloadHeader, SignedBlsToExecutionChange, Withdrawal,
};
use ethereum_consensus::collections::List;
use ethereum_consensus::deneb::{BlindedBlobSidecar, SignedBlindedBlobSidecar};
use ethereum_consensus::hash::hash_pair;
use ethereum_consensus::merkle::{merkle_root_of, uint64_root};
use ethereum_consensus::phase0::{Checkpoint, Fork, Validator};
use ethereum_consensus::ssz::{
    deserialize_u64, read_array, read_bool, serialize, DeserializeError, Merkleized,
};

fn validator() -> Validator {
    Validator {
        public_key: [7u8; 48],
        withdrawal_credentials: [8u8; 32],
        effective_balance: 32_000_000_000,
        slashed: true,
        activation_eligibility_epoch: 1,
        activation_epoch: 2,
        exit_epoch: u64::MAX,
        withdrawable_epoch: u64::MAX - 1,
    }
}

fn withdrawal() -> Withdrawal {
    Withdrawal { index: 1, validator_index: 0x0102, address: [9u8; 20], amount: 5 }
}

#[test]
fn checkpoint_encodes_to_its_fields_in_order() {
    let checkpoint = Checkpoint { epoch: 0x0102, root: [3u8; 32] };
    let mut expected = vec![2u8, 1, 0, 0, 0, 0, 0, 0];
    expected.extend_from_slice(&[3u8; 32]);
    assert_eq!(serialize(&checkpoint), Ok(expected));
}

#[test]
fn checkpoint_root_is_the_hash_of_its_two_field_roots() {
    let checkpoint = Checkpoint { epoch: 12, root: [3u8; 32] };
    assert_eq!(checkpoint.hash_tree_root(), hash_pair(&uint64_root(12), &[3u8; 32]));
}

#[test]
fn fork_root_is_a_tree_of_four_leaves() {
    let fork = Fork { previous_version: [1, 2, 3, 4], current_version: [5, 6, 7, 8], epoch: 9 };
    let mut previous = [0u8; 32];
    previous[..4].copy_from_slice(&[1, 2, 3, 4]);
    let mut current = [0u8; 32];
    current[..4].copy_from_slice(&[5, 6, 7, 8]);
    let expected = hash_pair(
        &hash_pair(&previous, &current),
        &hash_pair(&uint64_root(9), &[0u8; 32]),
    );
    assert_eq!(fork.hash_tree_root(), expected);
}

#[test]
fn validator_round_trips() {
    let encoding = serialize(&validator()).unwrap();
    assert_eq!(encoding.len(), 121);
    assert_eq!(Validator::deserialize(&encoding), Ok(validator()));
}

#[test]
fn withdrawal_round_trips() {
    let encoding = serialize(&withdrawal()).unwrap();
    assert_eq!(encoding.len(), 44);
    assert_eq!(&encoding[8..10], &[2u8, 1]);
    assert_eq!(Withdrawal::deserialize(&encoding), Ok(withdrawal()));
}

#[test]
fn nested_containers_round_trip() {
    let change = SignedBlsToExecutionChange {
        message: BlsToExecutionChange {
            validator_index: 77,
            from_bls_public_key: [1u8; 48],
            to_execution_address: [2u8; 20],
        },
        signature: [3u8; 96],
    };
    let encoding = serialize(&change).unwrap();
    assert_eq!(encoding.len(), 172);
    assert_eq!(SignedBlsToExecutionChange::deserialize(&encoding), Ok(change));

    let sidecar = SignedBlindedBlobSidecar {
        message: BlindedBlobSidecar {
            block_root: [1u8; 32],
            index: 2,
            slot: 3,
            block_parent_root: [4u8; 32],
            proposer_index: 5,
            blob_root: [6u8; 32],
            kzg_commitment: [7u8; 48],
            kzg_proof: [8u8; 48],
        },
        signature: [9u8; 96],
    };
    let encoding = serialize(&sidecar).unwrap();
    assert_eq!(SignedBlindedBlobSidecar::deserialize(&encoding), Ok(sidecar));
}

#[test]
fn short_input_is_refused() {
    let encoding = serialize(&withdrawal()).unwrap();
    assert_eq!(
        Withdrawal::deserialize(&encoding[..43]),
        Err(DeserializeError::ExpectedFurtherInput { provided: 43, expected: 44 })
    );
    assert_eq!(
        deserialize_u64(&[1, 2, 3]),
        Err(DeserializeError::ExpectedFurtherInput { provided: 3, expected: 8 })
    );
}

#[test]
fn long_input_is_refused() {
    let mut encoding = serialize(&withdrawal()).unwrap();
    encoding.push(0);
    assert_eq!(
        Withdrawal::deserialize(&encoding),
        Err(DeserializeError::AdditionalInput { provided: 45, expected: 44 })
    );
    assert_eq!(
        deserialize_u64(&[0u8; 9]),
        Err(DeserializeError::AdditionalInput { provided: 9, expected: 8 })
    );
}

#[test]
fn a_truth_value_is_zero_or_one() {
    let mut encoding = serialize(&validator()).unwrap();
    assert_eq!(encoding[88], 1);
    encoding[88] = 2;
    assert_eq!(Validator::deserialize(&encoding), Err(DeserializeError::InvalidByte(2)));
    assert_eq!(read_bool(0), Ok(false));
    assert_eq!(read_bool(1), Ok(true));
    assert_eq!(read_bool(255), Err(DeserializeError::InvalidByte(255)));
}

#[test]
fn numbers_decode_little_endian() {
    assert_eq!(deserialize_u64(&[2, 1, 0, 0, 0, 0, 0, 0]), Ok(0x0102));
    assert_eq!(serialize(&0x0102u64), Ok(vec![2, 1, 0, 0, 0, 0, 0, 0]));
    assert_eq!(serialize(&true), Ok(vec![1]));
    let bytes: Vec<u8> = (0..10).collect();
    assert_eq!(read_array::<4>(&bytes, 3), [3, 4, 5, 6]);
}

#[test]
fn byte_list_over_its_bound_is_refused() {
    assert_eq!(
        ByteList::<2>::try_from(&[1, 2, 3]),
        Err(DeserializeError::Bounded { bound: 2, provided: 3 })
    );
    assert_eq!(ByteList::<2>::try_from(&[1, 2]).unwrap().as_ref(), &[1, 2]);
    assert_eq!(ByteList::<2>::try_from(&[1, 2]).unwrap().len(), 2);
    assert_eq!(ByteList::<2>::default(), ByteList::<2>::new());
}

#[test]
fn byte_vector_has_its_length() {
    assert_eq!(
        ByteVector::<4>::try_from(&[1, 2, 3]),
        Err(DeserializeError::ExpectedFurtherInput { provided: 3, expected: 4 })
    );
    assert_eq!(
        ByteVector::<4>::try_from(&[1, 2, 3, 4, 5]),
        Err(DeserializeError::AdditionalInput { provided: 5, expected: 4 })
    );
    assert_eq!(ByteVector::<0>::try_from(&[]), Err(DeserializeError::InvalidBound(0)));
    let vector = ByteVector::<4>::try_from(&[1, 2, 3, 4]).unwrap();
    assert_eq!(serialize(&vector), Ok(vec![1, 2, 3, 4]));
    assert_eq!(ByteVector::<4>::deserialize(&[1, 2, 3, 4]), Ok(vector.clone()));
    assert_eq!(ByteVector::<4>::default().as_ref(), &[0, 0, 0, 0]);
}

#[test]
fn changing_any_field_changes_the_root() {
    let base = validator();
    let root = base.hash_tree_root();
    assert_eq!(root, validator().hash_tree_root());
    let mut changed = vec![];
    changed.push(Validator { public_key: [6u8; 48], ..base });
    changed.push(Validator { withdrawal_credentials: [6u8; 32], ..base });
    changed.push(Validator { effective_balance: 1, ..base });
    changed.push(Validator { slashed: false, ..base });
    changed.push(Validator { activation_eligibility_epoch: 9, ..base });
    changed.push(Validator { activation_epoch: 9, ..base });
    changed.push(Validator { exit_epoch: 9, ..base });
    changed.push(Validator { withdrawable_epoch: 9, ..base });
    for other in changed {
        assert_ne!(other.hash_tree_root(), root);
    }
}

#[test]
fn swapping_two_fields_changes_the_root() {
    let one = Fork { previous_version: [1, 0, 0, 0], current_version: [2, 0, 0, 0], epoch: 0 };
    let other = Fork { previous_version: [2, 0, 0, 0], current_version: [1, 0, 0, 0], epoch: 0 };
    assert_ne!(one.hash_tree_root(), other.hash_tree_root());
}

fn payload() -> ExecutionPayload<256, 32, 1024, 16, 4> {
    let logs: Vec<u8> = (0..=255u8).collect();
    ExecutionPayload {
        parent_hash: [1u8; 32],
        fee_recipient: [2u8; 20],
        state_root: [3u8; 32],
        receipts_root: [4u8; 32],
        logs_bloom: ByteVector::try_from(&logs).unwrap(),
        prev_randao: [5u8; 32],
        block_number: 6,
        gas_limit: 7,
        gas_used: 8,
        timestamp: 9,
        extra_data: ByteList::try_from(&[10, 11]).unwrap(),
        base_fee_per_gas: [12u8; 32],
        block_hash: [13u8; 32],
        transactions: List::try_from(vec![
            ByteList::try_from(&[1, 2, 3]).unwrap(),
            ByteList::try_from(&[4]).unwrap(),
        ])
        .unwrap(),
        withdrawals: List::try_from(vec![withdrawal()]).unwrap(),
    }
}

#[test]
fn header_of_a_payload_holds_the_roots_of_its_lists() {
    let payload = payload();
    let header = ExecutionPayloadHeader::try_from(&payload).unwrap();
    assert_eq!(header.transactions_root, payload.transactions.hash_tree_root());
    assert_eq!(header.withdrawals_root, payload.withdrawals.hash_tree_root());
    assert_ne!(header.transactions_root, header.withdrawals_root);
    assert_eq!(header.parent_hash, payload.parent_hash);
    assert_eq!(header.fee_recipient, payload.fee_recipient);
    assert_eq!(header.state_root, payload.state_root);
    assert_eq!(header.receipts_root, payload.receipts_root);
    assert_eq!(header.logs_bloom, payload.logs_bloom);
    assert_eq!(header.prev_randao, payload.prev_randao);
    assert_eq!(header.block_number, 6);
    assert_eq!(header.gas_limit, 7);
    assert_eq!(header.gas_used, 8);
    assert_eq!(header.timestamp, 9);
    assert_eq!(header.extra_data, payload.extra_data);
    assert_eq!(header.base_fee_per_gas, payload.base_fee_per_gas);
    assert_eq!(header.block_hash, payload.block_hash);
}

#[test]
fn header_and_payload_have_the_same_root() {
    let payload = payload();
    let header = ExecutionPayloadHeader::try_from(&payload).unwrap();
    assert_eq!(header.hash_tree_root(), payload.hash_tree_root());
    let chunks = vec![
        header.parent_hash.hash_tree_root(),
        header.fee_recipient.hash_tree_root(),
        header.state_root,
        header.receipts_root,
        header.logs_bloom.hash_tree_root(),
        header.prev_randao,
        uint64_root(6),
        uint64_root(7),
        uint64_root(8),
        uint64_root(9),
        header.extra_data.hash_tree_root(),
        header.base_fee_per_gas,
        header.block_hash,
        header.transactions_root,
        header.withdrawals_root,
    ];
    assert_eq!(header.hash_tree_root(), merkle_root_of(&chunks, 4));
}

#[test]
fn payload_header_round_trips() {
    let header = ExecutionPayloadHeader::try_from(&payload()).unwrap();
    let encoding = header.serialize();
    assert_eq!(encoding.len(), 312 + 256 + 2);
    assert_eq!(&encoding[..32], &[1u8; 32][..]);
    assert_eq!(&encoding[180 + 256..184 + 256], &[0x38u8, 0x02, 0, 0]);
    assert_eq!(&encoding[312 + 256..], &[10u8, 11]);
    assert_eq!(ExecutionPayloadHeader::<256, 32>::deserialize(&encoding), Ok(header));
}

#[test]
fn payload_header_with_a_misplaced_offset_is_refused() {
    let header = ExecutionPayloadHeader::try_from(&payload()).unwrap();
    let mut encoding = header.serialize();
    encoding[180 + 256] = 0x39;
    assert_eq!(
        ExecutionPayloadHeader::<256, 32>::deserialize(&encoding),
        Err(DeserializeError::OffsetOutOfPlace { offset: 569, expected: 568 })
    );
}

#[test]
fn payload_header_with_too_much_extra_data_is_refused() {
    let header = ExecutionPayloadHeader::try_from(&payload()).unwrap();
    let mut encoding = header.serialize();
    encoding.resize(568 + 33, 0);
    assert_eq!(
        ExecutionPayloadHeader::<256, 32>::deserialize(&encoding),
        Err(DeserializeError::Bounded { bound: 32, provided: 33 })
    );
    assert_eq!(
        ExecutionPayloadHeader::<256, 32>::deserialize(&encoding[..500]),
        Err(DeserializeError::ExpectedFurtherInput { provided: 500, expected: 568 })
    );
}

#[test]
fn payload_round_trips() {
    let payload = payload();
    let encoding = payload.serialize().unwrap();
    let fixed = 256 + 256;
    assert_eq!(encoding.len(), fixed + 2 + (8 + 3 + 1) + 44);
    assert_eq!(&encoding[180 + 256..184 + 256], &[0x00u8, 0x02, 0, 0]);
    assert_eq!(&encoding[248 + 256..252 + 256], &[0x02u8, 0x02, 0, 0]);
    assert_eq!(&encoding[252 + 256..256 + 256], &[0x0eu8, 0x02, 0, 0]);
    assert_eq!(&encoding[fixed..fixed + 2], &[10u8, 11]);
    assert_eq!(&encoding[fixed + 2..fixed + 14], &[8u8, 0, 0, 0, 11, 0, 0, 0, 1, 2, 3, 4]);
    assert_eq!(&encoding[fixed + 14..], &serialize(&withdrawal()).unwrap()[..]);
    let decoded = ExecutionPayload::<256, 32, 1024, 16, 4>::deserialize(&encoding);
    assert_eq!(decoded, Ok(payload));
}

#[test]
fn payload_with_offsets_out_of_order_is_refused() {
    let mut encoding = payload().serialize().unwrap();
    encoding[248 + 256] = 0x01;
    encoding[249 + 256] = 0x01;
    assert_eq!(
        ExecutionPayload::<256, 32, 1024, 16, 4>::deserialize(&encoding),
        Err(DeserializeError::OffsetNotIncreasing { start: 512, end: 257 })
    );
    let mut encoding = payload().serialize().unwrap();
    encoding[180 + 256] = 0x01;
    assert_eq!(
        ExecutionPayload::<256, 32, 1024, 16, 4>::deserialize(&encoding),
        Err(DeserializeError::OffsetOutOfPlace { offset: 513, expected: 512 })
    );
    let mut encoding = payload().serialize().unwrap();
    encoding[253 + 256] = 0x03;
    assert_eq!(
        ExecutionPayload::<256, 32, 1024, 16, 4>::deserialize(&encoding),
        Err(DeserializeError::ExpectedFurtherInput { provided: 570, expected: 782 })
    );
}

#[test]
fn payload_with_parts_over_their_bounds_is_refused() {
    let encoding = payload().serialize().unwrap();
    assert_eq!(
        ExecutionPayload::<256, 1, 1024, 16, 4>::deserialize(&encoding),
        Err(DeserializeError::Bounded { bound: 1, provided: 2 })
    );
    assert_eq!(
        ExecutionPayload::<256, 32, 2, 16, 4>::deserialize(&encoding),
        Err(DeserializeError::Bounded { bound: 2, provided: 3 })
    );
    assert_eq!(
        ExecutionPayload::<256, 32, 1024, 1, 4>::deserialize(&encoding),
        Err(DeserializeError::Bounded { bound: 1, provided: 2 })
    );
    assert_eq!(
        ExecutionPayload::<256, 32, 1024, 16, 0>::deserialize(&encoding),
        Err(DeserializeError::Bounded { bound: 0, provided: 1 })
    );
    assert_eq!(
        ExecutionPayload::<256, 32, 1024, 16, 4>::deserialize(&encoding[..569]),
        Err(DeserializeError::AdditionalInput { provided: 43, expected: 0 })
    );
}

#[test]
fn withdrawals_round_trip() {
    let items = vec![withdrawal(), Withdrawal { index: 2, ..withdrawal() }];
    let encoding = serialize_withdrawals(&items);
    assert_eq!(encoding.len(), 88);
    assert_eq!(
        deserialize_withdrawals::<4>(&encoding),
        Ok(List::try_from(items).unwrap())
    );
    assert_eq!(
        deserialize_withdrawals::<1>(&encoding),
        Err(DeserializeError::Bounded { bound: 1, provided: 2 })
    );
    assert_eq!(
        deserialize_withdrawals::<4>(&encoding[..50]),
        Err(DeserializeError::AdditionalInput { provided: 50, expected: 44 })
    );
}
