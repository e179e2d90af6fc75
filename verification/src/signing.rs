//! The signing root: what is signed is never the root of an object alone
//! but the root of the pair of that root and a domain.

use crate::hash::hash_pair_spec;
use crate::merkle::{chunk_views, merkle_root, merkle_root_of, MerkleizationError};
use crate::primitives::{lemma_chunk_is_its_root, BlsPublicKey, BlsSignature, Domain, Root};
use crate::ssz::Merkleized;
use vstd::prelude::*;

verus! {

/// What can go wrong with a signed object.
#[derive(Clone, Copy, Debug, PartialEq, Eq, Structural)]
pub enum Error {
    /// A root could not be computed.
    Merkleization(MerkleizationError),
    /// The signature does not belong to the message and the key.
    InvalidSignature,
}

/// The root of an object together with the domain it is signed under.
#[derive(Clone, Copy, Debug, PartialEq, Eq)]
pub struct SigningData {
    pub object_root: Root,
    pub domain: Domain,
}

impl crate::ssz::Composite for SigningData {

}

impl Merkleized for SigningData {
    open spec fn root_spec(&self) -> Seq<u8> {
        merkle_root(seq![self.object_root.root_spec(), self.domain.root_spec()], 1)
    }

    fn hash_tree_root(&self) -> (root: [u8; 32]) {
        let mut chunks: Vec<[u8; 32]> = Vec::new();
        chunks.push(self.object_root.hash_tree_root());
        chunks.push(self.domain.hash_tree_root());
        proof {
            assert(chunk_views(chunks@) =~= seq![
                self.object_root.root_spec(),
                self.domain.root_spec(),
            ]);
        }
        merkle_root_of(&chunks, 1)
    }
}

/// The signing root of an object with root `object_root` under `domain`.
pub open spec fn signing_root_spec(object_root: Seq<u8>, domain: Seq<u8>) -> Seq<u8> {
    hash_pair_spec(object_root, domain)
}

/// The root of a `SigningData` is the hash of its two fields.
pub proof fn lemma_signing_data_root(data: SigningData)
    ensures
        data.root_spec() == signing_root_spec(data.object_root@, data.domain@),
{
    lemma_chunk_is_its_root(data.object_root);
    lemma_chunk_is_its_root(data.domain);
    let fields = seq![data.object_root.root_spec(), data.domain.root_spec()];
    reveal_with_fuel(crate::merkle::node, 2);
    assert(crate::merkle::node(fields, 0, 0) == fields[0]);
    assert(crate::merkle::node(fields, 0, 1) == fields[1]);
}

/// Domains keep signing roots apart: under two different domains one
/// object has the same signing root only where the hash has a collision.
pub proof fn lemma_domains_separate(object_root: Seq<u8>, domain: Seq<u8>, other: Seq<u8>)
    requires
        domain != other,
        signing_root_spec(object_root, domain) == signing_root_spec(object_root, other),
    ensures
        crate::branch::is_collision(object_root + domain, object_root + other),
{
    let a = object_root + domain;
    let b = object_root + other;
    if a == b {
        assert(a.len() == object_root.len() + domain.len());
        assert(b.len() == object_root.len() + other.len());
        assert(domain =~= a.skip(object_root.len() as int));
        assert(other =~= b.skip(object_root.len() as int));
    }
}

/// The signing root of an object under a domain. Never fails.
pub fn compute_signing_root<T: Merkleized>(ssz_object: &T, domain: Domain) -> (result: Result<
    Root,
    Error,
>)
    ensures
        result is Ok,
        result->Ok_0@ == signing_root_spec(ssz_object.root_spec(), domain@),
{
    let object_root = ssz_object.hash_tree_root();
    let s = SigningData { object_root, domain };
    proof {
        lemma_signing_data_root(s);
    }
    Ok(s.hash_tree_root())
}

/// Signs an object under a domain: hands the signing root to `signing_key`
/// and returns the signature it gives.
pub fn sign_with_domain<T: Merkleized, K: Fn([u8; 32]) -> BlsSignature>(
    data: &T,
    signing_key: K,
    domain: Domain,
) -> (result: Result<BlsSignature, Error>)
    requires
        forall|message: [u8; 32]|
            message@ == signing_root_spec(data.root_spec(), domain@) ==> call_requires(
                signing_key,
                (message,),
            ),
    ensures
        result is Ok,
        exists|message: [u8; 32]|
            message@ == signing_root_spec(data.root_spec(), domain@) && call_ensures(
                signing_key,
                (message,),
                result->Ok_0,
            ),
{
    let signing_root = match compute_signing_root(data, domain) {
        Ok(root) => root,
        Err(e) => {
            return Err(e);
        },
    };
    Ok(signing_key(signing_root))
}

/// Maps the outcome of the signature primitive to a result: `Ok` where it
/// accepted, the error of an invalid signature where it did not.
pub fn signature_outcome(accepted: bool) -> (result: Result<(), Error>)
    ensures
        result == (if accepted {
            Ok::<(), Error>(())
        } else {
            Err::<(), Error>(Error::InvalidSignature)
        }),
{
    if accepted {
        Ok(())
    } else {
        Err(Error::InvalidSignature)
    }
}

/// Checks the signature over an object under a domain: hands the key, the
/// signing root and the signature to `verifier`, and succeeds exactly when
/// it accepts.
pub fn verify_signed_data<T: Merkleized, V: Fn(BlsPublicKey, [u8; 32], BlsSignature) -> bool>(
    data: &T,
    signature: &BlsSignature,
    public_key: &BlsPublicKey,
    domain: Domain,
    verifier: V,
) -> (result: Result<(), Error>)
    requires
        forall|message: [u8; 32]|
            message@ == signing_root_spec(data.root_spec(), domain@) ==> call_requires(
                verifier,
                (*public_key, message, *signature),
            ),
    ensures
        exists|message: [u8; 32], accepted: bool|
            message@ == signing_root_spec(data.root_spec(), domain@) && call_ensures(
                verifier,
                (*public_key, message, *signature),
                accepted,
            ) && result == (if accepted {
                Ok::<(), Error>(())
            } else {
                Err::<(), Error>(Error::InvalidSignature)
            }),
{
    let signing_root = match compute_signing_root(data, domain) {
        Ok(root) => root,
        Err(e) => {
            return Err(e);
        },
    };
    verify_signature(public_key, &signing_root, signature, verifier)
}

/// Checks a signature over a signing root: hands the key, the root and the
/// signature to `verifier`, and succeeds exactly when it accepts.
pub fn verify_signature<V: Fn(BlsPublicKey, [u8; 32], BlsSignature) -> bool>(
    public_key: &BlsPublicKey,
    signing_root: &[u8; 32],
    signature: &BlsSignature,
    verifier: V,
) -> (result: Result<(), Error>)
    requires
        call_requires(verifier, (*public_key, *signing_root, *signature)),
    ensures
        exists|accepted: bool|
            call_ensures(verifier, (*public_key, *signing_root, *signature), accepted) && result
                == (if accepted {
                Ok::<(), Error>(())
            } else {
                Err::<(), Error>(Error::InvalidSignature)
            }),
{
    let accepted = verifier(*public_key, *signing_root, *signature);
    signature_outcome(accepted)
}

} // verus!
