use ethereum_consensus::branch::{compute_branch, verify_branch};
use ethereum_consensus::merkle::merkle_root_of;

fn leaves(count: u8) -> Vec<[u8; 32]> {
    (0..count).map(|i| [i + 1; 32]).collect()
}

fn as_node(chunk: &[u8; 32]) -> ssz_rs::Node {
    ssz_rs::Node::try_from(&chunk[..]).unwrap()
}

#[test]
fn honest_branch_verifies_for_every_leaf() {
    let chunks = leaves(11);
    let root = merkle_root_of(&chunks, 4);
    for index in 0..16usize {
        let branch = compute_branch(&chunks, 4, index);
        assert_eq!(branch.len(), 4);
        let leaf = if index < chunks.len() { chunks[index] } else { [0u8; 32] };
        assert!(verify_branch(&leaf, &branch, 16 + index, &root));
    }
}

#[test]
fn corrupted_leaf_does_not_verify() {
    let chunks = leaves(8);
    let root = merkle_root_of(&chunks, 3);
    let branch = compute_branch(&chunks, 3, 5);
    let mut leaf = chunks[5];
    assert!(verify_branch(&leaf, &branch, 8 + 5, &root));
    leaf[0] ^= 1;
    assert!(!verify_branch(&leaf, &branch, 8 + 5, &root));
}

#[test]
fn corrupted_branch_element_does_not_verify() {
    let chunks = leaves(8);
    let root = merkle_root_of(&chunks, 3);
    for position in 0..3 {
        let mut branch = compute_branch(&chunks, 3, 5);
        branch[position][31] ^= 0x80;
        assert!(!verify_branch(&chunks[5], &branch, 8 + 5, &root));
    }
}

#[test]
fn branch_of_the_wrong_length_does_not_verify() {
    let chunks = leaves(8);
    let root = merkle_root_of(&chunks, 3);
    let branch = compute_branch(&chunks, 3, 5);
    assert!(!verify_branch(&chunks[5], &branch, 16 + 5, &root));
    assert!(!verify_branch(&chunks[5], &branch, 4 + 1, &root));
    let mut longer = branch.clone();
    longer.push([0u8; 32]);
    assert!(!verify_branch(&chunks[5], &longer, 8 + 5, &root));
}

#[test]
fn branch_at_another_index_does_not_verify() {
    let chunks = leaves(8);
    let root = merkle_root_of(&chunks, 3);
    let branch = compute_branch(&chunks, 3, 5);
    assert!(!verify_branch(&chunks[5], &branch, 8 + 4, &root));
}

#[test]
fn index_zero_is_no_node() {
    let leaf = [1u8; 32];
    assert!(!verify_branch(&leaf, &vec![], 0, &leaf));
}

#[test]
fn the_root_is_its_own_proof() {
    let leaf = [1u8; 32];
    assert!(verify_branch(&leaf, &vec![], 1, &leaf));
    assert!(!verify_branch(&leaf, &vec![], 1, &[2u8; 32]));
}

#[test]
fn verification_agrees_with_ssz_rs() {
    let chunks = leaves(13);
    let root = merkle_root_of(&chunks, 4);
    for index in [0usize, 6, 12, 15] {
        let branch = compute_branch(&chunks, 4, index);
        let leaf = if index < chunks.len() { chunks[index] } else { [0u8; 32] };
        let nodes: Vec<ssz_rs::Node> = branch.iter().map(as_node).collect();
        assert!(ssz_rs::is_valid_merkle_branch(
            &as_node(&leaf),
            nodes.iter(),
            4,
            index,
            &as_node(&root)
        ));
        assert!(verify_branch(&leaf, &branch, 16 + index, &root));
    }
}

#[test]
fn branch_holds_the_siblings_from_the_bottom_up() {
    let chunks = leaves(4);
    let branch = compute_branch(&chunks, 2, 2);
    assert_eq!(branch[0], chunks[3]);
    assert_eq!(branch[1], merkle_root_of(&vec![chunks[0], chunks[1]], 1));
}

#[test]
fn generalized_indices_follow_from_the_layout_of_the_state() {
    let index = ethereum_consensus::branch::generalized_index;
    assert_eq!(index(&vec![]), Some(1));
    assert_eq!(index(&vec![(24, 20), (2, 1)]), Some(105));
    assert_eq!(index(&vec![(24, 22)]), Some(54));
    assert_eq!(index(&vec![(24, 23)]), Some(55));
    assert_eq!(index(&vec![(24, 20)]), Some(52));
    assert_eq!(index(&vec![(3, 2), (1, 0), (5, 4)]), Some((4 + 2) * 8 + 4));
}

#[test]
fn path_through_a_missing_field_has_no_index() {
    let index = ethereum_consensus::branch::generalized_index;
    assert_eq!(index(&vec![(24, 24)]), None);
    assert_eq!(index(&vec![(2, 1), (0, 0)]), None);
}

#[test]
fn path_too_deep_for_the_machine_has_no_index() {
    let index = ethereum_consensus::branch::generalized_index;
    let deep = vec![(65536usize, 1usize); 4];
    assert_eq!(index(&deep), None);
    let fits = vec![(65536usize, 65535usize); 3];
    assert_eq!(index(&fits), Some((1usize << 48) + ((1usize << 48) - 1)));
}
