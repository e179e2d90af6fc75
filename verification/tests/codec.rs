use ethereum_consensus::collections::{
    bits_to_bytes, bytes_to_bits, bytes_to_uints, count_bits, highest_bit_of, uints_to_bytes,
    weight_of, Bitlist, Bitvector, UintList, UintVector,
};
use ethereum_consensus::offsets::{read_offset, split_variable_parts, write_offset};
use ethereum_consensus::phase0::{Attestation, AttestationData, Checkpoint};
use ethereum_consensus::ssz::{serialize, DeserializeError, Merkleized};
use ssz_rs::Merkleized as OutsideMerkleized;

fn data() -> AttestationData {
    AttestationData {
        slot: 1,
        index: 2,
        beacon_block_root: [3u8; 32],
        source: Checkpoint { epoch: 4, root: [5u8; 32] },
        target: Checkpoint { epoch: 6, root: [7u8; 32] },
    }
}

fn attestation(bits: Vec<bool>) -> Attestation<16> {
    Attestation {
        aggregation_bits: Bitlist::try_from(bits).unwrap(),
        data: data(),
        signature: [8u8; 96],
    }
}

#[test]
fn bit_vector_round_trips() {
    let bits = vec![true, false, false, true, true, false, true, false, false, true];
    let vector = Bitvector::<10>::try_from(bits.clone()).unwrap();
    let encoding = serialize(&vector).unwrap();
    assert_eq!(encoding, vec![0b0101_1001u8, 0b0000_0010u8]);
    assert_eq!(Bitvector::<10>::deserialize(&encoding), Ok(vector));
    assert_eq!(bytes_to_bits(&encoding, 10), bits);
    assert_eq!(bits_to_bytes(&bits, 10), encoding);
    assert_eq!(count_bits(&bits), 5);
}

#[test]
fn bit_vector_with_bits_behind_its_end_is_refused() {
    assert_eq!(
        Bitvector::<10>::deserialize(&[0u8, 0b0000_0100u8]),
        Err(DeserializeError::InvalidByte(4))
    );
    assert!(Bitvector::<10>::deserialize(&[0u8, 0b0000_0011u8]).is_ok());
    assert!(Bitvector::<8>::deserialize(&[255u8]).is_ok());
}

#[test]
fn bit_vector_of_the_wrong_length_is_refused() {
    assert_eq!(
        Bitvector::<10>::deserialize(&[0u8]),
        Err(DeserializeError::ExpectedFurtherInput { provided: 1, expected: 2 })
    );
    assert_eq!(
        Bitvector::<10>::deserialize(&[0u8, 0, 0]),
        Err(DeserializeError::AdditionalInput { provided: 3, expected: 2 })
    );
    assert_eq!(Bitvector::<0>::deserialize(&[]), Err(DeserializeError::InvalidBound(0)));
}

#[test]
fn bit_list_ends_with_a_set_bit() {
    let list = Bitlist::<16>::try_from(vec![true, false, true]).unwrap();
    assert_eq!(serialize(&list), Ok(vec![0b0000_1101u8]));
    let full = Bitlist::<16>::try_from(vec![false; 8]).unwrap();
    assert_eq!(serialize(&full), Ok(vec![0u8, 1u8]));
    let empty = Bitlist::<16>::try_from(vec![]).unwrap();
    assert_eq!(serialize(&empty), Ok(vec![1u8]));
    assert_eq!(list.len(), 3);
    assert!(list.get(2));
    assert_eq!(list.count_ones(), 2);
}

#[test]
fn bit_list_round_trips() {
    for length in 0..=16usize {
        let bits: Vec<bool> = (0..length).map(|i| i % 3 == 0).collect();
        let list = Bitlist::<16>::try_from(bits).unwrap();
        let encoding = serialize(&list).unwrap();
        assert_eq!(Bitlist::<16>::deserialize(&encoding), Ok(list));
    }
}

#[test]
fn bit_list_without_its_end_mark_is_refused() {
    assert_eq!(
        Bitlist::<16>::deserialize(&[]),
        Err(DeserializeError::ExpectedFurtherInput { provided: 0, expected: 1 })
    );
    assert_eq!(Bitlist::<16>::deserialize(&[5u8, 0u8]), Err(DeserializeError::InvalidByte(0)));
}

#[test]
fn bit_list_over_its_bound_is_refused() {
    assert_eq!(
        Bitlist::<4>::deserialize(&[0b0010_0000u8]),
        Err(DeserializeError::Bounded { bound: 4, provided: 5 })
    );
    assert!(Bitlist::<4>::deserialize(&[0b0001_0000u8]).is_ok());
    assert_eq!(
        Bitlist::<4>::try_from(vec![true; 5]),
        Err(DeserializeError::Bounded { bound: 4, provided: 5 })
    );
}

#[test]
fn bit_list_root_agrees_with_ssz_rs() {
    let bits = vec![true, false, true, true, false, false, false, false, true];
    let list = Bitlist::<300>::try_from(bits.clone()).unwrap();
    let mut outside = ssz_rs::Bitlist::<300>::try_from(&bits[..]).unwrap();
    assert_eq!(ssz_rs::serialize(&outside).unwrap(), serialize(&list).unwrap());
    assert_eq!(&list.hash_tree_root()[..], outside.hash_tree_root().unwrap().as_ref());
}

#[test]
fn bytes_have_their_bit_weights() {
    assert_eq!(weight_of(0), 1);
    assert_eq!(weight_of(3), 8);
    assert_eq!(weight_of(7), 128);
    assert_eq!(highest_bit_of(1), 0);
    assert_eq!(highest_bit_of(0b0010_0110), 5);
    assert_eq!(highest_bit_of(255), 7);
}

#[test]
fn number_list_round_trips() {
    let list = UintList::<8>::try_from(vec![1, 0x0102, u64::MAX]).unwrap();
    let encoding = serialize(&list).unwrap();
    assert_eq!(encoding.len(), 24);
    assert_eq!(&encoding[8..16], &[2u8, 1, 0, 0, 0, 0, 0, 0]);
    assert_eq!(UintList::<8>::deserialize(&encoding), Ok(list));
    assert_eq!(bytes_to_uints(&encoding), vec![1, 0x0102, u64::MAX]);
    assert_eq!(uints_to_bytes(&vec![1, 0x0102, u64::MAX]), encoding);
}

#[test]
fn number_list_of_broken_numbers_is_refused() {
    assert_eq!(
        UintList::<8>::deserialize(&[0u8; 17]),
        Err(DeserializeError::AdditionalInput { provided: 17, expected: 16 })
    );
    assert_eq!(
        UintList::<1>::deserialize(&[0u8; 16]),
        Err(DeserializeError::Bounded { bound: 1, provided: 2 })
    );
    assert_eq!(
        UintList::<1>::try_from(vec![1, 2]),
        Err(DeserializeError::Bounded { bound: 1, provided: 2 })
    );
}

#[test]
fn number_collections_agree_with_ssz_rs() {
    let numbers: Vec<u64> = (1..=9).collect();
    let list = UintList::<1099511627776>::try_from(numbers.clone()).unwrap();
    let mut outside = ssz_rs::List::<u64, 1099511627776>::try_from(numbers.clone()).unwrap();
    assert_eq!(&list.hash_tree_root()[..], outside.hash_tree_root().unwrap().as_ref());
    assert_eq!(list.as_vec(), &numbers);

    let vector = UintVector::<9>::try_from(numbers.clone()).unwrap();
    let mut outside = ssz_rs::Vector::<u64, 9>::try_from(numbers.clone()).unwrap();
    assert_eq!(&vector.hash_tree_root()[..], outside.hash_tree_root().unwrap().as_ref());
    assert_eq!(serialize(&vector).unwrap(), ssz_rs::serialize(&outside).unwrap());
    assert_eq!(vector.as_vec(), &numbers);
    assert_eq!(
        UintVector::<9>::try_from(vec![1]),
        Err(DeserializeError::ExpectedFurtherInput { provided: 1, expected: 9 })
    );
}

#[test]
fn offsets_are_four_bytes_little_endian() {
    let mut buffer = vec![9u8];
    write_offset(&mut buffer, 0x0102);
    assert_eq!(buffer, vec![9u8, 2, 1, 0, 0]);
    assert_eq!(read_offset(&buffer, 1), 0x0102);
}

fn two_part_input(first: u32, second: u32, total: usize) -> Vec<u8> {
    let mut bytes = vec![];
    write_offset(&mut bytes, first);
    bytes.extend_from_slice(&[0xaa, 0xbb]);
    write_offset(&mut bytes, second);
    bytes.resize(total, 0);
    bytes
}

#[test]
fn valid_offsets_lay_the_parts_out_in_order() {
    let bytes = two_part_input(10, 13, 20);
    assert_eq!(split_variable_parts(&bytes, 10, &vec![0, 6]), Ok(vec![(10, 13), (13, 20)]));
    let bytes = two_part_input(10, 10, 10);
    assert_eq!(split_variable_parts(&bytes, 10, &vec![0, 6]), Ok(vec![(10, 10), (10, 10)]));
    assert_eq!(split_variable_parts(&bytes, 10, &vec![]), Ok(vec![]));
}

#[test]
fn first_offset_must_point_at_the_end_of_the_fixed_part() {
    let gap = two_part_input(11, 13, 20);
    assert_eq!(
        split_variable_parts(&gap, 10, &vec![0, 6]),
        Err(DeserializeError::OffsetOutOfPlace { offset: 11, expected: 10 })
    );
    let overlap = two_part_input(9, 13, 20);
    assert_eq!(
        split_variable_parts(&overlap, 10, &vec![0, 6]),
        Err(DeserializeError::OffsetOutOfPlace { offset: 9, expected: 10 })
    );
}

#[test]
fn offsets_must_not_decrease() {
    let bytes = two_part_input(10, 9, 20);
    assert_eq!(
        split_variable_parts(&bytes, 10, &vec![0, 6]),
        Err(DeserializeError::OffsetNotIncreasing { start: 10, end: 9 })
    );
}

#[test]
fn offsets_must_stay_within_the_input() {
    let bytes = two_part_input(10, 21, 20);
    assert_eq!(
        split_variable_parts(&bytes, 10, &vec![0, 6]),
        Err(DeserializeError::ExpectedFurtherInput { provided: 20, expected: 21 })
    );
    assert_eq!(
        split_variable_parts(&bytes[..9], 10, &vec![0, 6]),
        Err(DeserializeError::ExpectedFurtherInput { provided: 9, expected: 10 })
    );
}

#[test]
fn attestation_encodes_to_its_fixed_part_and_its_bits() {
    let attestation = attestation(vec![true, true, false, true]);
    let encoding = serialize(&attestation).unwrap();
    assert_eq!(encoding.len(), 229);
    assert_eq!(&encoding[..4], &[228u8, 0, 0, 0]);
    assert_eq!(&encoding[4..132], &serialize(&data()).unwrap()[..]);
    assert_eq!(&encoding[132..228], &[8u8; 96][..]);
    assert_eq!(encoding[228], 0b0001_1011);
}

#[test]
fn attestation_round_trips() {
    let attestation = attestation(vec![true, true, false, true, false, false, false, false, true]);
    let encoding = serialize(&attestation).unwrap();
    assert_eq!(encoding.len(), 230);
    assert_eq!(Attestation::<16>::deserialize(&encoding), Ok(attestation));
}

#[test]
fn attestation_with_a_misplaced_offset_is_refused() {
    let mut encoding = serialize(&attestation(vec![true])).unwrap();
    encoding[0] = 229;
    assert_eq!(
        Attestation::<16>::deserialize(&encoding),
        Err(DeserializeError::OffsetOutOfPlace { offset: 229, expected: 228 })
    );
    encoding[0] = 227;
    assert_eq!(
        Attestation::<16>::deserialize(&encoding),
        Err(DeserializeError::OffsetOutOfPlace { offset: 227, expected: 228 })
    );
}

#[test]
fn attestation_with_broken_parts_is_refused() {
    let encoding = serialize(&attestation(vec![true])).unwrap();
    assert_eq!(
        Attestation::<16>::deserialize(&encoding[..100]),
        Err(DeserializeError::ExpectedFurtherInput { provided: 100, expected: 228 })
    );
    assert_eq!(
        Attestation::<16>::deserialize(&encoding[..228]),
        Err(DeserializeError::ExpectedFurtherInput { provided: 0, expected: 1 })
    );
    let mut long = encoding.clone();
    long[228] = 0xff;
    long.extend_from_slice(&[0xff, 0xff]);
    assert_eq!(
        Attestation::<16>::deserialize(&long),
        Err(DeserializeError::Bounded { bound: 16, provided: 23 })
    );
}
