use ethereum_consensus::builder::{compute_builder_domain, Context};
use ethereum_consensus::domains::{compute_domain, compute_fork_data_root, DomainType};
use ethereum_consensus::hash::sha256;
use ethereum_consensus::phase0::{Checkpoint, ForkData};
use ethereum_consensus::signing::{
    compute_signing_root, sign_with_domain, signature_outcome, verify_signature,
    verify_signed_data, Error, SigningData,
};
use ethereum_consensus::ssz::Merkleized;

fn concat(a: &[u8], b: &[u8]) -> Vec<u8> {
    let mut out = a.to_vec();
    out.extend_from_slice(b);
    out
}

// A stand-in for the signature primitive: the key is the secret repeated,
// the signature the digest of key and message, repeated three times.
fn toy_sign(secret: u8, message: [u8; 32]) -> [u8; 96] {
    let digest = sha256(&concat(&[secret; 48], &message));
    let mut signature = [0u8; 96];
    for i in 0..96 {
        signature[i] = digest[i % 32];
    }
    signature
}

fn toy_verify(public_key: [u8; 48], message: [u8; 32], signature: [u8; 96]) -> bool {
    toy_sign(public_key[0], message) == signature
}

fn object() -> Checkpoint {
    Checkpoint { epoch: 7, root: [3u8; 32] }
}

#[test]
fn signing_root_is_the_hash_of_object_root_and_domain() {
    let domain = [9u8; 32];
    let object_root = object().hash_tree_root();
    let expected = sha256(&concat(&object_root, &domain));
    assert_eq!(compute_signing_root(&object(), domain), Ok(expected));
    assert_eq!(SigningData { object_root, domain }.hash_tree_root(), expected);
    assert_ne!(expected, object_root);
}

#[test]
fn two_domains_give_two_signing_roots() {
    let first = compute_signing_root(&object(), [1u8; 32]).unwrap();
    let second = compute_signing_root(&object(), [2u8; 32]).unwrap();
    assert_ne!(first, second);
}

#[test]
fn signatures_under_two_domains_are_not_interchangeable() {
    let first = sign_with_domain(&object(), |m| toy_sign(5, m), [1u8; 32]).unwrap();
    let second = sign_with_domain(&object(), |m| toy_sign(5, m), [2u8; 32]).unwrap();
    assert_ne!(first, second);
    let key = [5u8; 48];
    assert_eq!(verify_signed_data(&object(), &first, &key, [1u8; 32], toy_verify), Ok(()));
    assert_eq!(verify_signed_data(&object(), &second, &key, [2u8; 32], toy_verify), Ok(()));
    assert_eq!(
        verify_signed_data(&object(), &first, &key, [2u8; 32], toy_verify),
        Err(Error::InvalidSignature)
    );
    assert_eq!(
        verify_signed_data(&object(), &second, &key, [1u8; 32], toy_verify),
        Err(Error::InvalidSignature)
    );
}

#[test]
fn signing_hands_the_signing_root_to_the_key() {
    let domain = [4u8; 32];
    let root = compute_signing_root(&object(), domain).unwrap();
    let signature = sign_with_domain(&object(), |m| toy_sign(8, m), domain).unwrap();
    assert_eq!(signature, toy_sign(8, root));
}

#[test]
fn signature_of_another_key_is_refused() {
    let domain = [4u8; 32];
    let signature = sign_with_domain(&object(), |m| toy_sign(8, m), domain).unwrap();
    assert_eq!(
        verify_signed_data(&object(), &signature, &[9u8; 48], domain, toy_verify),
        Err(Error::InvalidSignature)
    );
}

#[test]
fn verify_signature_maps_the_outcome_of_the_primitive() {
    let root = [6u8; 32];
    let signature = toy_sign(2, root);
    assert_eq!(verify_signature(&[2u8; 48], &root, &signature, toy_verify), Ok(()));
    assert_eq!(
        verify_signature(&[3u8; 48], &root, &signature, toy_verify),
        Err(Error::InvalidSignature)
    );
    assert_eq!(signature_outcome(true), Ok(()));
    assert_eq!(signature_outcome(false), Err(Error::InvalidSignature));
}

#[test]
fn domain_is_the_type_and_the_start_of_the_fork_data_root() {
    let version = [1u8, 2, 3, 4];
    let validators_root = [7u8; 32];
    let fork_data_root = compute_fork_data_root(version, validators_root);
    assert_eq!(
        fork_data_root,
        ForkData { current_version: version, genesis_validators_root: validators_root }
            .hash_tree_root()
    );
    let domain =
        compute_domain(DomainType::SyncCommittee, Some(version), Some(validators_root), [0u8; 4])
            .unwrap();
    assert_eq!(&domain[..4], &[7u8, 0, 0, 0]);
    assert_eq!(&domain[4..], &fork_data_root[..28]);
}

#[test]
fn builder_domain_uses_the_genesis_version_and_the_zero_root() {
    let context = Context { genesis_fork_version: [0u8, 0, 16, 32] };
    let domain = compute_builder_domain(&context).unwrap();
    let fork_data_root = compute_fork_data_root([0u8, 0, 16, 32], [0u8; 32]);
    assert_eq!(&domain[..4], &[0u8, 0, 0, 1]);
    assert_eq!(&domain[4..], &fork_data_root[..28]);
    assert_eq!(
        Ok(domain),
        compute_domain(DomainType::ApplicationBuilder, None, None, [0u8, 0, 16, 32])
    );
}

#[test]
fn domain_types_have_their_bytes() {
    assert_eq!(DomainType::BeaconProposer.as_bytes(), [0u8, 0, 0, 0]);
    assert_eq!(DomainType::BlsToExecutionChange.as_bytes(), [10u8, 0, 0, 0]);
    assert_eq!(DomainType::ApplicationBuilder.as_bytes(), [0u8, 0, 0, 1]);
}
