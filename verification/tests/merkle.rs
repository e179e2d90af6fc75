use ethereum_consensus::byte_list::ByteList;
use ethereum_consensus::byte_vector::ByteVector;
use ethereum_consensus::collections::{Bitvector, List, Vector};
use ethereum_consensus::hash::{chunk_eq, hash_pair, sha256};
use ethereum_consensus::math::{floor_log2_of, get_power_of_two_ceil, log2};
use ethereum_consensus::merkle::{
    merkle_root_of, merkleize, mix_in_length, pack_bytes, uint64_root, zero_node,
    MerkleizationError,
};
use ethereum_consensus::ssz::{hash_bytes, DeserializeError, Merkleized};
use ssz_rs::Merkleized as OutsideMerkleized;

fn concat(a: &[u8], b: &[u8]) -> Vec<u8> {
    let mut out = a.to_vec();
    out.extend_from_slice(b);
    out
}

fn chunk(fill: u8) -> [u8; 32] {
    [fill; 32]
}

#[test]
fn sha256_of_empty_input_is_the_known_digest() {
    let expected: [u8; 32] = [
        0xe3, 0xb0, 0xc4, 0x42, 0x98, 0xfc, 0x1c, 0x14, 0x9a, 0xfb, 0xf4, 0xc8, 0x99, 0x6f,
        0xb9, 0x24, 0x27, 0xae, 0x41, 0xe4, 0x64, 0x9b, 0x93, 0x4c, 0xa4, 0x95, 0x99, 0x1b,
        0x78, 0x52, 0xb8, 0x55,
    ];
    assert_eq!(sha256(&[]), expected);
}

#[test]
fn sha256_of_abc_is_the_known_digest() {
    let expected: [u8; 32] = [
        0xba, 0x78, 0x16, 0xbf, 0x8f, 0x01, 0xcf, 0xea, 0x41, 0x41, 0x40, 0xde, 0x5d, 0xae,
        0x22, 0x23, 0xb0, 0x03, 0x61, 0xa3, 0x96, 0x17, 0x7a, 0x9c, 0xb4, 0x10, 0xff, 0x61,
        0xf2, 0x00, 0x15, 0xad,
    ];
    let input = [b'a', b'b', b'c'];
    assert_eq!(sha256(&input), expected);
    assert_ne!(sha256(&input).to_vec(), input.to_vec());
}

#[test]
fn hash_pair_is_the_digest_of_left_then_right() {
    let left = chunk(1);
    let right = chunk(2);
    assert_eq!(hash_pair(&left, &right), sha256(&concat(&left, &right)));
    assert_ne!(hash_pair(&left, &right), hash_pair(&right, &left));
}

#[test]
fn chunk_eq_compares_every_byte() {
    let a = chunk(7);
    let mut b = chunk(7);
    assert!(chunk_eq(&a, &b));
    b[31] = 8;
    assert!(!chunk_eq(&a, &b));
}

#[test]
fn log2_rounds_up() {
    assert_eq!(log2(0), 0);
    assert_eq!(log2(1), 0);
    assert_eq!(log2(2), 1);
    assert_eq!(log2(3), 2);
    assert_eq!(log2(4), 2);
    assert_eq!(log2(5), 3);
    assert_eq!(log2(32), 5);
    assert_eq!(log2(33), 6);
    assert_eq!(log2(usize::MAX), 64);
}

#[test]
fn floor_log2_rounds_down() {
    assert_eq!(floor_log2_of(0), 0);
    assert_eq!(floor_log2_of(1), 0);
    assert_eq!(floor_log2_of(2), 1);
    assert_eq!(floor_log2_of(3), 1);
    assert_eq!(floor_log2_of(64), 6);
    assert_eq!(floor_log2_of(usize::MAX), 63);
}

#[test]
fn known_generalized_indices_have_their_depths() {
    assert_eq!(floor_log2_of(105), 6);
    assert_eq!(floor_log2_of(54), 5);
    assert_eq!(floor_log2_of(55), 5);
}

#[test]
fn power_of_two_ceil_is_the_next_power() {
    assert_eq!(get_power_of_two_ceil(0), 1);
    assert_eq!(get_power_of_two_ceil(1), 1);
    assert_eq!(get_power_of_two_ceil(2), 2);
    assert_eq!(get_power_of_two_ceil(3), 4);
    assert_eq!(get_power_of_two_ceil(4), 4);
    assert_eq!(get_power_of_two_ceil(5), 8);
    assert_eq!(get_power_of_two_ceil(1024), 1024);
    assert_eq!(get_power_of_two_ceil(1025), 2048);
    assert_eq!(get_power_of_two_ceil(usize::MAX / 2 + 1), usize::MAX / 2 + 1);
}

#[test]
fn root_of_no_chunks_is_the_zero_chunk() {
    assert_eq!(merkleize(&vec![], None), Ok([0u8; 32]));
    assert_eq!(zero_node(), [0u8; 32]);
}

#[test]
fn root_of_one_chunk_is_the_chunk() {
    assert_eq!(merkleize(&vec![chunk(9)], None), Ok(chunk(9)));
}

#[test]
fn root_of_two_chunks_is_their_hash() {
    let expected = sha256(&concat(&chunk(1), &chunk(2)));
    assert_eq!(merkleize(&vec![chunk(1), chunk(2)], None), Ok(expected));
}

#[test]
fn root_of_three_chunks_pads_with_a_zero_chunk() {
    let left = hash_pair(&chunk(1), &chunk(2));
    let right = hash_pair(&chunk(3), &[0u8; 32]);
    let expected = hash_pair(&left, &right);
    assert_eq!(merkleize(&vec![chunk(1), chunk(2), chunk(3)], None), Ok(expected));
    assert_eq!(merkle_root_of(&vec![chunk(1), chunk(2), chunk(3)], 2), expected);
}

#[test]
fn root_under_a_limit_has_the_depth_of_the_limit() {
    let one = hash_pair(&chunk(1), &[0u8; 32]);
    let zero_one = hash_pair(&[0u8; 32], &[0u8; 32]);
    let expected = hash_pair(&one, &zero_one);
    assert_eq!(merkleize(&vec![chunk(1)], Some(4)), Ok(expected));
    assert_eq!(merkleize(&vec![chunk(1)], Some(3)), Ok(expected));
}

#[test]
fn more_chunks_than_the_limit_are_refused() {
    assert_eq!(
        merkleize(&vec![chunk(1), chunk(2), chunk(3)], Some(2)),
        Err(MerkleizationError::InputExceedsLimit(2))
    );
    assert!(merkleize(&vec![chunk(1), chunk(2)], Some(2)).is_ok());
}

#[test]
fn repeated_roots_are_the_same() {
    let chunks = vec![chunk(1), chunk(2), chunk(3), chunk(4), chunk(5)];
    assert_eq!(merkleize(&chunks, Some(64)), merkleize(&chunks.clone(), Some(64)));
}

#[test]
fn number_chunk_is_little_endian() {
    let mut expected = [0u8; 32];
    expected[0] = 0x02;
    expected[1] = 0x01;
    assert_eq!(uint64_root(0x0102), expected);
    let mut outside = 0x0102u64;
    assert_eq!(OutsideMerkleized::hash_tree_root(&mut outside).unwrap().as_ref(), &expected[..]);
}

#[test]
fn length_is_mixed_in_by_one_more_hash() {
    let root = chunk(5);
    let mut length = [0u8; 32];
    length[0] = 3;
    assert_eq!(mix_in_length(&root, 3), sha256(&concat(&root, &length)));
    assert_ne!(mix_in_length(&root, 3), root);
}

#[test]
fn bytes_are_packed_into_padded_chunks() {
    let bytes: Vec<u8> = (1..=33).collect();
    let chunks = pack_bytes(&bytes);
    assert_eq!(chunks.len(), 2);
    assert_eq!(&chunks[0][..], &bytes[..32]);
    let mut last = [0u8; 32];
    last[0] = 33;
    assert_eq!(chunks[1], last);
    assert_eq!(pack_bytes(&[]).len(), 0);
}

#[test]
fn byte_list_root_agrees_with_ssz_rs() {
    let bytes = vec![255u8, 255u8];
    let list = ByteList::<32>::try_from(&bytes).unwrap();
    let mut outside = ssz_rs::List::<u8, 32>::try_from(bytes).unwrap();
    assert_eq!(&list.hash_tree_root()[..], outside.hash_tree_root().unwrap().as_ref());
}

#[test]
fn long_byte_list_root_agrees_with_ssz_rs() {
    let bytes: Vec<u8> = (0..100u8).collect();
    let list = ByteList::<1073741824>::try_from(&bytes).unwrap();
    let mut outside = ssz_rs::List::<u8, 1073741824>::try_from(bytes).unwrap();
    assert_eq!(&list.hash_tree_root()[..], outside.hash_tree_root().unwrap().as_ref());
}

#[test]
fn empty_byte_list_root_agrees_with_ssz_rs() {
    let list = ByteList::<64>::new();
    let mut outside = ssz_rs::List::<u8, 64>::default();
    assert_eq!(&list.hash_tree_root()[..], outside.hash_tree_root().unwrap().as_ref());
}

#[test]
fn byte_vector_root_agrees_with_ssz_rs() {
    let bytes: Vec<u8> = (0..48u8).collect();
    let vector = ByteVector::<48>::try_from(&bytes).unwrap();
    let mut outside = ssz_rs::Vector::<u8, 48>::try_from(bytes.clone()).unwrap();
    assert_eq!(&vector.hash_tree_root()[..], outside.hash_tree_root().unwrap().as_ref());
    let mut array = [0u8; 48];
    array.copy_from_slice(&bytes);
    assert_eq!(array.hash_tree_root(), vector.hash_tree_root());
    assert_eq!(hash_bytes(&bytes, 48), vector.hash_tree_root());
}

#[test]
fn truth_value_root_agrees_with_ssz_rs() {
    let mut outside = true;
    assert_eq!(
        &true.hash_tree_root()[..],
        OutsideMerkleized::hash_tree_root(&mut outside).unwrap().as_ref()
    );
    assert_ne!(true.hash_tree_root(), false.hash_tree_root());
    assert_eq!(false.hash_tree_root(), [0u8; 32]);
}

#[test]
fn bit_vector_root_and_encoding_agree_with_ssz_rs() {
    let mut bits = vec![false; 12];
    bits[0] = true;
    bits[3] = true;
    bits[9] = true;
    let vector = Bitvector::<12>::try_from(bits).unwrap();
    assert_eq!(vector.to_bytes(), vec![0b0000_1001u8, 0b0000_0010u8]);
    assert_eq!(vector.count_ones(), 3);
    assert!(vector.get(3));
    assert!(!vector.get(4));
    let mut outside = ssz_rs::Bitvector::<12>::default();
    outside.set(0, true);
    outside.set(3, true);
    outside.set(9, true);
    assert_eq!(ssz_rs::serialize(&outside).unwrap(), vector.to_bytes());
    assert_eq!(&vector.hash_tree_root()[..], outside.hash_tree_root().unwrap().as_ref());
}

#[test]
fn list_of_lists_root_agrees_with_ssz_rs() {
    let first = vec![1u8, 2, 3];
    let second: Vec<u8> = (0..40u8).collect();
    let list = List::<ByteList<64>, 16>::try_from(vec![
        ByteList::<64>::try_from(&first).unwrap(),
        ByteList::<64>::try_from(&second).unwrap(),
    ])
    .unwrap();
    let mut outside = ssz_rs::List::<ssz_rs::List<u8, 64>, 16>::try_from(vec![
        ssz_rs::List::<u8, 64>::try_from(first).unwrap(),
        ssz_rs::List::<u8, 64>::try_from(second).unwrap(),
    ])
    .unwrap();
    assert_eq!(list.len(), 2);
    assert_eq!(&list.hash_tree_root()[..], outside.hash_tree_root().unwrap().as_ref());
}

#[test]
fn list_and_vector_of_the_same_elements_have_different_roots() {
    let elements = vec![chunk(1), chunk(2), chunk(3), chunk(4)];
    let list = List::<[u8; 32], 8>::try_from(elements.clone()).unwrap();
    let vector = Vector::<[u8; 32], 4>::try_from(elements.clone()).unwrap();
    assert_ne!(list.hash_tree_root(), vector.hash_tree_root());
    let data_root = merkle_root_of(&elements, 3);
    assert_eq!(list.hash_tree_root(), mix_in_length(&data_root, 4));
    assert_eq!(vector.hash_tree_root(), merkle_root_of(&elements, 2));
    assert_eq!(vector.len(), 4);
    assert_eq!(vector.get(2), &chunk(3));
    assert_eq!(vector.duplicate(), vector);
}

#[test]
fn collections_keep_their_bounds() {
    assert_eq!(
        List::<u64, 2>::try_from(vec![1, 2, 3]),
        Err(DeserializeError::Bounded { bound: 2, provided: 3 })
    );
    assert_eq!(
        Vector::<u64, 2>::try_from(vec![1]),
        Err(DeserializeError::ExpectedFurtherInput { provided: 1, expected: 2 })
    );
    assert_eq!(
        Vector::<u64, 2>::try_from(vec![1, 2, 3]),
        Err(DeserializeError::AdditionalInput { provided: 3, expected: 2 })
    );
    assert_eq!(Vector::<u64, 0>::try_from(vec![]), Err(DeserializeError::InvalidBound(0)));
    assert_eq!(
        Bitvector::<0>::try_from(vec![]),
        Err(DeserializeError::InvalidBound(0))
    );
    assert_eq!(List::<u64, 2>::new().len(), 0);
    assert_eq!(List::<u64, 2>::try_from(vec![7, 8]).unwrap().get(1), &8);
}
