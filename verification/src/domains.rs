//! Domains: the tags that keep the signatures of one role from being taken
//! for those of another.

use crate::phase0::ForkData;
use crate::primitives::{Domain, Root, Version};
use crate::signing::Error;
use crate::ssz::Merkleized;
use vstd::prelude::*;

verus! {

/// The roles that sign.
#[derive(Clone, Copy, Debug, PartialEq, Eq, Structural)]
pub enum DomainType {
    BeaconProposer,
    BeaconAttester,
    Randao,
    Deposit,
    VoluntaryExit,
    SelectionProof,
    AggregateAndProof,
    SyncCommittee,
    SyncCommitteeSelectionProof,
    ContributionAndProof,
    BlsToExecutionChange,
    BlobSidecar,
    ApplicationMask,
    ApplicationBuilder,
}

impl DomainType {
    /// The four bytes that stand for the role: its number first for the
    /// roles of the chain itself, a one last for those of applications.
    pub open spec fn bytes_spec(&self) -> Seq<u8> {
        match self {
            DomainType::BeaconProposer => seq![0u8, 0u8, 0u8, 0u8],
            DomainType::BeaconAttester => seq![1u8, 0u8, 0u8, 0u8],
            DomainType::Randao => seq![2u8, 0u8, 0u8, 0u8],
            DomainType::Deposit => seq![3u8, 0u8, 0u8, 0u8],
            DomainType::VoluntaryExit => seq![4u8, 0u8, 0u8, 0u8],
            DomainType::SelectionProof => seq![5u8, 0u8, 0u8, 0u8],
            DomainType::AggregateAndProof => seq![6u8, 0u8, 0u8, 0u8],
            DomainType::SyncCommittee => seq![7u8, 0u8, 0u8, 0u8],
            DomainType::SyncCommitteeSelectionProof => seq![8u8, 0u8, 0u8, 0u8],
            DomainType::ContributionAndProof => seq![9u8, 0u8, 0u8, 0u8],
            DomainType::BlsToExecutionChange => seq![10u8, 0u8, 0u8, 0u8],
            DomainType::BlobSidecar => seq![11u8, 0u8, 0u8, 0u8],
            DomainType::ApplicationMask => seq![0u8, 0u8, 0u8, 1u8],
            DomainType::ApplicationBuilder => seq![0u8, 0u8, 0u8, 1u8],
        }
    }

    /// The four bytes that stand for the role.
    pub fn as_bytes(&self) -> (bytes: [u8; 4])
        ensures
            bytes@ == self.bytes_spec(),
    {
        let bytes: [u8; 4] = match self {
            DomainType::BeaconProposer => [0u8, 0u8, 0u8, 0u8],
            DomainType::BeaconAttester => [1u8, 0u8, 0u8, 0u8],
            DomainType::Randao => [2u8, 0u8, 0u8, 0u8],
            DomainType::Deposit => [3u8, 0u8, 0u8, 0u8],
            DomainType::VoluntaryExit => [4u8, 0u8, 0u8, 0u8],
            DomainType::SelectionProof => [5u8, 0u8, 0u8, 0u8],
            DomainType::AggregateAndProof => [6u8, 0u8, 0u8, 0u8],
            DomainType::SyncCommittee => [7u8, 0u8, 0u8, 0u8],
            DomainType::SyncCommitteeSelectionProof => [8u8, 0u8, 0u8, 0u8],
            DomainType::ContributionAndProof => [9u8, 0u8, 0u8, 0u8],
            DomainType::BlsToExecutionChange => [10u8, 0u8, 0u8, 0u8],
            DomainType::BlobSidecar => [11u8, 0u8, 0u8, 0u8],
            DomainType::ApplicationMask => [0u8, 0u8, 0u8, 1u8],
            DomainType::ApplicationBuilder => [0u8, 0u8, 0u8, 1u8],
        };
        proof {
            assert(bytes@ =~= self.bytes_spec());
        }
        bytes
    }
}

/// The root of the fork data of a version and a validators root.
pub open spec fn fork_data_root_spec(current_version: Version, genesis_validators_root: Seq<u8>) -> Seq<u8> {
    crate::merkle::merkle_root(
        seq![current_version.root_spec(), genesis_validators_root],
        1,
    )
}

/// The domain of a role at a fork version: the four bytes of the role, then
/// the first twenty-eight bytes of the root of the fork data.
pub open spec fn domain_spec(
    domain_type: DomainType,
    fork_version: Version,
    genesis_validators_root: Seq<u8>,
) -> Seq<u8> {
    domain_type.bytes_spec() + fork_data_root_spec(fork_version, genesis_validators_root).subrange(
        0,
        28,
    )
}

/// The root of the fork data of a version and a validators root.
pub fn compute_fork_data_root(current_version: Version, genesis_validators_root: Root) -> (root:
    Root)
    ensures
        root@ == fork_data_root_spec(current_version, genesis_validators_root@),
{
    let data = ForkData { current_version, genesis_validators_root };
    proof {
        crate::primitives::lemma_chunk_is_its_root(genesis_validators_root);
    }
    data.hash_tree_root()
}

/// The domain of a role. Where no fork version is given the genesis
/// version stands in, where no validators root is given the zero root.
/// Never fails.
pub fn compute_domain(
    domain_type: DomainType,
    fork_version: Option<Version>,
    genesis_validators_root: Option<Root>,
    genesis_fork_version: Version,
) -> (result: Result<Domain, Error>)
    ensures
        result is Ok,
        result->Ok_0@ == domain_spec(
            domain_type,
            match fork_version {
                Some(version) => version,
                None => genesis_fork_version,
            },
            match genesis_validators_root {
                Some(root) => root@,
                None => crate::hash::zero_chunk(),
            },
        ),
{
    let version = match fork_version {
        Some(version) => version,
        None => genesis_fork_version,
    };
    let validators_root = match genesis_validators_root {
        Some(root) => root,
        None => crate::merkle::zero_node(),
    };
    let fork_data_root = compute_fork_data_root(version, validators_root);
    let prefix = domain_type.as_bytes();
    let mut domain: [u8; 32] = crate::merkle::zero_node();
    let mut i: usize = 0;
    while i < 4
        invariant
            i <= 4,
            forall|k: int| 0 <= k < i ==> domain@[k] == prefix@[k],
        decreases 4 - i,
    {
        domain[i] = prefix[i];
        i = i + 1;
    }
    let mut j: usize = 0;
    while j < 28
        invariant
            j <= 28,
            forall|k: int| 0 <= k < 4 ==> domain@[k] == prefix@[k],
            forall|k: int| 0 <= k < j ==> domain@[4 + k] == fork_data_root@[k],
        decreases 28 - j,
    {
        domain[4 + j] = fork_data_root[j];
        j = j + 1;
    }
    proof {
        assert(prefix@.len() == 4);
        assert(domain@ =~= prefix@ + fork_data_root@.subrange(0, 28));
    }
    Ok(domain)
}

} // verus!
