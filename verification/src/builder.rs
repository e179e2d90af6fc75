//! What a validator registers with a block builder.

use crate::domains::{compute_domain, domain_spec, DomainType};
use crate::merkle::{chunk_views, merkle_root, merkle_root_of};
use crate::primitives::{BlsPublicKey, BlsSignature, Domain, ExecutionAddress, Version};
use crate::signing::Error;
use crate::ssz::{read_array, Composite, DeserializeError, Merkleized, Serialize};
use vstd::bytes::{lemma_auto_spec_u64_to_from_le_bytes, spec_u64_from_le_bytes, u64_from_le_bytes};
use vstd::prelude::*;
use vstd::slice::slice_subrange;

verus! {

/// The fee recipient and gas limit that a validator asks of builders.
#[derive(Clone, Copy, Debug, PartialEq, Eq)]
pub struct ValidatorRegistration {
    pub fee_recipient: ExecutionAddress,
    pub gas_limit: u64,
    pub timestamp: u64,
    pub public_key: BlsPublicKey,
}

impl Composite for ValidatorRegistration {

}

impl Merkleized for ValidatorRegistration {
    open spec fn root_spec(&self) -> Seq<u8> {
        merkle_root(
            seq![
                self.fee_recipient.root_spec(),
                self.gas_limit.root_spec(),
                self.timestamp.root_spec(),
                self.public_key.root_spec(),
            ],
            2,
        )
    }

    fn hash_tree_root(&self) -> (root: [u8; 32]) {
        let mut chunks: Vec<[u8; 32]> = Vec::new();
        chunks.push(self.fee_recipient.hash_tree_root());
        chunks.push(self.gas_limit.hash_tree_root());
        chunks.push(self.timestamp.hash_tree_root());
        chunks.push(self.public_key.hash_tree_root());
        proof {
            assert(chunk_views(chunks@) =~= seq![
                self.fee_recipient.root_spec(),
                self.gas_limit.root_spec(),
                self.timestamp.root_spec(),
                self.public_key.root_spec(),
            ]);
        }
        merkle_root_of(&chunks, 2)
    }
}

impl Serialize for ValidatorRegistration {
    open spec fn encoding(&self) -> Seq<u8> {
        self.fee_recipient.encoding() + self.gas_limit.encoding() + self.timestamp.encoding() + self.public_key.encoding()
    }

    fn serialize_into(&self, buffer: &mut Vec<u8>) {
        self.fee_recipient.serialize_into(buffer);
        self.gas_limit.serialize_into(buffer);
        self.timestamp.serialize_into(buffer);
        self.public_key.serialize_into(buffer);
        proof {
            assert(buffer@ =~= old(buffer)@ + self.encoding());
        }
    }
}

impl ValidatorRegistration {
    /// The length of the encoding: 84 bytes.
    pub open spec fn encoded_len() -> nat {
        84
    }

    /// Whether the fields are what the bytes of `encoding` say, each at its
    /// place.
    pub open spec fn decoded_from(&self, encoding: Seq<u8>) -> bool {
        &&& self.fee_recipient@ == encoding.subrange(0, 20)
        &&& self.gas_limit == spec_u64_from_le_bytes(encoding.subrange(20, 28))
        &&& self.timestamp == spec_u64_from_le_bytes(encoding.subrange(28, 36))
        &&& self.public_key@ == encoding.subrange(36, 84)
    }

    /// What decoding `encoding` gives: the value whose fields the bytes
    /// say, or the error that says what is wrong with them.
    pub open spec fn decodes(encoding: Seq<u8>, result: Result<Self, DeserializeError>) -> bool {
        if encoding.len() < 84 {
            result == Err::<Self, DeserializeError>(
                DeserializeError::ExpectedFurtherInput {
                    provided: encoding.len() as usize,
                    expected: 84,
                },
            )
        } else if encoding.len() > 84 {
            result == Err::<Self, DeserializeError>(
                DeserializeError::AdditionalInput {
                    provided: encoding.len() as usize,
                    expected: 84,
                },
            )
        } else {
            result is Ok && result->Ok_0.decoded_from(encoding)
        }
    }

    /// Decodes a value: the input holds the fields in order and nothing
    /// else.
    pub fn deserialize(encoding: &[u8]) -> (result: Result<Self, DeserializeError>)
        ensures
            Self::decodes(encoding@, result),
    {
        if encoding.len() < 84 {
            return Err(
                DeserializeError::ExpectedFurtherInput { provided: encoding.len(), expected: 84 },
            );
        }
        if encoding.len() > 84 {
            return Err(
                DeserializeError::AdditionalInput { provided: encoding.len(), expected: 84 },
            );
        }
        let fee_recipient: [u8; 20] = read_array(encoding, 0);
        let gas_limit: u64 = u64_from_le_bytes(slice_subrange(encoding, 20, 28));
        let timestamp: u64 = u64_from_le_bytes(slice_subrange(encoding, 28, 36));
        let public_key: [u8; 48] = read_array(encoding, 36);
        Ok(ValidatorRegistration { fee_recipient, gas_limit, timestamp, public_key })
    }

    /// The encoding has its length, and its bytes say the fields.
    pub proof fn lemma_encoding_decodes(&self)
        ensures
            self.encoding().len() == 84,
            self.decoded_from(self.encoding()),
    {
        lemma_auto_spec_u64_to_from_le_bytes();
        assert(self.encoding().subrange(0, 20) =~= self.fee_recipient.encoding());
        assert(self.encoding().subrange(20, 28) =~= self.gas_limit.encoding());
        assert(self.encoding().subrange(28, 36) =~= self.timestamp.encoding());
        assert(self.encoding().subrange(36, 84) =~= self.public_key.encoding());
    }

    /// Decoding the encoding of a value gives the value back.
    pub proof fn lemma_round_trip(&self, decoded: Result<Self, DeserializeError>)
        requires
            Self::decodes(self.encoding(), decoded),
        ensures
            decoded == Ok::<Self, DeserializeError>(*self),
    {
        self.lemma_encoding_decodes();
        self.lemma_decoded_is_self(decoded->Ok_0, self.encoding());
    }

    /// Only one value has the fields that the bytes say.
    pub proof fn lemma_decoded_is_self(&self, other: Self, encoding: Seq<u8>)
        requires
            self.decoded_from(encoding),
            other.decoded_from(encoding),
        ensures
            *self == other,
    {
        assert(self.fee_recipient =~= other.fee_recipient);
        assert(self.public_key =~= other.public_key);
    }
}

/// A registration with the signature of the validator.
#[derive(Clone, Copy, Debug, PartialEq, Eq)]
pub struct SignedValidatorRegistration {
    pub message: ValidatorRegistration,
    pub signature: BlsSignature,
}

impl Composite for SignedValidatorRegistration {

}

impl Merkleized for SignedValidatorRegistration {
    open spec fn root_spec(&self) -> Seq<u8> {
        merkle_root(
            seq![
                self.message.root_spec(),
                self.signature.root_spec(),
            ],
            1,
        )
    }

    fn hash_tree_root(&self) -> (root: [u8; 32]) {
        let mut chunks: Vec<[u8; 32]> = Vec::new();
        chunks.push(self.message.hash_tree_root());
        chunks.push(self.signature.hash_tree_root());
        proof {
            assert(chunk_views(chunks@) =~= seq![
                self.message.root_spec(),
                self.signature.root_spec(),
            ]);
        }
        merkle_root_of(&chunks, 1)
    }
}

impl Serialize for SignedValidatorRegistration {
    open spec fn encoding(&self) -> Seq<u8> {
        self.message.encoding() + self.signature.encoding()
    }

    fn serialize_into(&self, buffer: &mut Vec<u8>) {
        self.message.serialize_into(buffer);
        self.signature.serialize_into(buffer);
        proof {
            assert(buffer@ =~= old(buffer)@ + self.encoding());
        }
    }
}

impl SignedValidatorRegistration {
    /// The length of the encoding: 180 bytes.
    pub open spec fn encoded_len() -> nat {
        180
    }

    /// Whether the fields are what the bytes of `encoding` say, each at its
    /// place.
    pub open spec fn decoded_from(&self, encoding: Seq<u8>) -> bool {
        &&& self.message.decoded_from(encoding.subrange(0, 84))
        &&& self.signature@ == encoding.subrange(84, 180)
    }

    /// What decoding `encoding` gives: the value whose fields the bytes
    /// say, or the error that says what is wrong with them.
    pub open spec fn decodes(encoding: Seq<u8>, result: Result<Self, DeserializeError>) -> bool {
        if encoding.len() < 180 {
            result == Err::<Self, DeserializeError>(
                DeserializeError::ExpectedFurtherInput {
                    provided: encoding.len() as usize,
                    expected: 180,
                },
            )
        } else if encoding.len() > 180 {
            result == Err::<Self, DeserializeError>(
                DeserializeError::AdditionalInput {
                    provided: encoding.len() as usize,
                    expected: 180,
                },
            )
        } else {
            result is Ok && result->Ok_0.decoded_from(encoding)
        }
    }

    /// Decodes a value: the input holds the fields in order and nothing
    /// else.
    pub fn deserialize(encoding: &[u8]) -> (result: Result<Self, DeserializeError>)
        ensures
            Self::decodes(encoding@, result),
    {
        if encoding.len() < 180 {
            return Err(
                DeserializeError::ExpectedFurtherInput { provided: encoding.len(), expected: 180 },
            );
        }
        if encoding.len() > 180 {
            return Err(
                DeserializeError::AdditionalInput { provided: encoding.len(), expected: 180 },
            );
        }
        let message = match ValidatorRegistration::deserialize(slice_subrange(encoding, 0, 84)) {
            Ok(value) => value,
            Err(e) => {
                return Err(e);
            },
        };
        let signature: [u8; 96] = read_array(encoding, 84);
        Ok(SignedValidatorRegistration { message, signature })
    }

    /// The encoding has its length, and its bytes say the fields.
    pub proof fn lemma_encoding_decodes(&self)
        ensures
            self.encoding().len() == 180,
            self.decoded_from(self.encoding()),
    {
        lemma_auto_spec_u64_to_from_le_bytes();
        self.message.lemma_encoding_decodes();
        assert(self.encoding().subrange(0, 84) =~= self.message.encoding());
        assert(self.encoding().subrange(84, 180) =~= self.signature.encoding());
    }

    /// Decoding the encoding of a value gives the value back.
    pub proof fn lemma_round_trip(&self, decoded: Result<Self, DeserializeError>)
        requires
            Self::decodes(self.encoding(), decoded),
        ensures
            decoded == Ok::<Self, DeserializeError>(*self),
    {
        self.lemma_encoding_decodes();
        self.lemma_decoded_is_self(decoded->Ok_0, self.encoding());
    }

    /// Only one value has the fields that the bytes say.
    pub proof fn lemma_decoded_is_self(&self, other: Self, encoding: Seq<u8>)
        requires
            self.decoded_from(encoding),
            other.decoded_from(encoding),
        ensures
            *self == other,
    {
        self.message.lemma_decoded_is_self(other.message, encoding.subrange(0, 84));
        assert(self.signature =~= other.signature);
    }
}
/// What a chain is configured with, as far as domains depend on it.
#[derive(Clone, Copy, Debug, PartialEq, Eq)]
pub struct Context {
    pub genesis_fork_version: Version,
}

/// The domain under which validators sign their registrations with
/// builders: that of the builder application, at the genesis fork version
/// and with no validators root. Never fails.
pub fn compute_builder_domain(context: &Context) -> (result: Result<Domain, Error>)
    ensures
        result is Ok,
        result->Ok_0@ == domain_spec(
            DomainType::ApplicationBuilder,
            context.genesis_fork_version,
            crate::hash::zero_chunk(),
        ),
{
    let domain_type = DomainType::ApplicationBuilder;
    compute_domain(domain_type, None, None, context.genesis_fork_version)
}

} // verus!
