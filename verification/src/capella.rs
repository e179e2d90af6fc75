//! The containers that withdrawals brought.

use crate::byte_list::ByteList;
use crate::byte_vector::ByteVector;
use crate::collections::List;
use crate::merkle::{chunk_views, merkle_root, merkle_root_of};
use crate::offsets::{
    lemma_valid_offsets_tile, offset_at, offsets_error, offsets_of, ranges_view,
    split_variable_parts, variable_ranges, write_offset,
};
use crate::primitives::{
    BlsPublicKey, BlsSignature, Bytes32, ExecutionAddress, Gwei, Hash32, Root, U256,
    ValidatorIndex, WithdrawalIndex,
};
use crate::signing::Error;
use crate::ssz::{
    append_bytes, read_array, Composite, DeserializeError, Merkleized, SerializeError, Serialize,
};
use crate::variable_list::{
    decodes_byte_lists, deserialize_byte_lists, item_start, items_encoding,
    lemma_byte_lists_round_trip, lemma_items_encoding_len, lemma_lengths_sum_grows,
    serialize_byte_lists, views_of,
};
use vstd::bytes::{
    lemma_auto_spec_u32_to_from_le_bytes, lemma_auto_spec_u64_to_from_le_bytes,
    spec_u32_to_le_bytes, spec_u64_from_le_bytes, spec_u64_to_le_bytes, u64_from_le_bytes,
};
use vstd::prelude::*;
use vstd::slice::slice_subrange;

verus! {

/// The move of a validator from a BLS withdrawal key to an execution address.
#[derive(Clone, Copy, Debug, PartialEq, Eq)]
pub struct BlsToExecutionChange {
    pub validator_index: ValidatorIndex,
    pub from_bls_public_key: BlsPublicKey,
    pub to_execution_address: ExecutionAddress,
}

impl Composite for BlsToExecutionChange {

}

impl Merkleized for BlsToExecutionChange {
    open spec fn root_spec(&self) -> Seq<u8> {
        merkle_root(
            seq![
                self.validator_index.root_spec(),
                self.from_bls_public_key.root_spec(),
                self.to_execution_address.root_spec(),
            ],
            2,
        )
    }

    fn hash_tree_root(&self) -> (root: [u8; 32]) {
        let mut chunks: Vec<[u8; 32]> = Vec::new();
        chunks.push(self.validator_index.hash_tree_root());
        chunks.push(self.from_bls_public_key.hash_tree_root());
        chunks.push(self.to_execution_address.hash_tree_root());
        proof {
            assert(chunk_views(chunks@) =~= seq![
                self.validator_index.root_spec(),
                self.from_bls_public_key.root_spec(),
                self.to_execution_address.root_spec(),
            ]);
        }
        merkle_root_of(&chunks, 2)
    }
}

impl Serialize for BlsToExecutionChange {
    open spec fn encoding(&self) -> Seq<u8> {
        self.validator_index.encoding() + self.from_bls_public_key.encoding() + self.to_execution_address.encoding()
    }

    fn serialize_into(&self, buffer: &mut Vec<u8>) {
        self.validator_index.serialize_into(buffer);
        self.from_bls_public_key.serialize_into(buffer);
        self.to_execution_address.serialize_into(buffer);
        proof {
            assert(buffer@ =~= old(buffer)@ + self.encoding());
        }
    }
}

impl BlsToExecutionChange {
    /// The length of the encoding: 76 bytes.
    pub open spec fn encoded_len() -> nat {
        76
    }

    /// Whether the fields are what the bytes of `encoding` say, each at its
    /// place.
    pub open spec fn decoded_from(&self, encoding: Seq<u8>) -> bool {
        &&& self.validator_index == spec_u64_from_le_bytes(encoding.subrange(0, 8))
        &&& self.from_bls_public_key@ == encoding.subrange(8, 56)
        &&& self.to_execution_address@ == encoding.subrange(56, 76)
    }

    /// What decoding `encoding` gives: the value whose fields the bytes
    /// say, or the error that says what is wrong with them.
    pub open spec fn decodes(encoding: Seq<u8>, result: Result<Self, DeserializeError>) -> bool {
        if encoding.len() < 76 {
            result == Err::<Self, DeserializeError>(
                DeserializeError::ExpectedFurtherInput {
                    provided: encoding.len() as usize,
                    expected: 76,
                },
            )
        } else if encoding.len() > 76 {
            result == Err::<Self, DeserializeError>(
                DeserializeError::AdditionalInput {
                    provided: encoding.len() as usize,
                    expected: 76,
                },
            )
        } else {
            result is Ok && result->Ok_0.decoded_from(encoding)
        }
    }

    /// Decodes a value: the input holds the fields in order and nothing
    /// else.
    pub fn deserialize(encoding: &[u8]) -> (result: Result<Self, DeserializeError>)
        ensures
            Self::decodes(encoding@, result),
    {
        if encoding.len() < 76 {
            return Err(
                DeserializeError::ExpectedFurtherInput { provided: encoding.len(), expected: 76 },
            );
        }
        if encoding.len() > 76 {
            return Err(
                DeserializeError::AdditionalInput { provided: encoding.len(), expected: 76 },
            );
        }
        let validator_index: u64 = u64_from_le_bytes(slice_subrange(encoding, 0, 8));
        let from_bls_public_key: [u8; 48] = read_array(encoding, 8);
        let to_execution_address: [u8; 20] = read_array(encoding, 56);
        Ok(BlsToExecutionChange { validator_index, from_bls_public_key, to_execution_address })
    }

    /// The encoding has its length, and its bytes say the fields.
    pub proof fn lemma_encoding_decodes(&self)
        ensures
            self.encoding().len() == 76,
            self.decoded_from(self.encoding()),
    {
        lemma_auto_spec_u64_to_from_le_bytes();
        assert(self.encoding().subrange(0, 8) =~= self.validator_index.encoding());
        assert(self.encoding().subrange(8, 56) =~= self.from_bls_public_key.encoding());
        assert(self.encoding().subrange(56, 76) =~= self.to_execution_address.encoding());
    }

    /// Decoding the encoding of a value gives the value back.
    pub proof fn lemma_round_trip(&self, decoded: Result<Self, DeserializeError>)
        requires
            Self::decodes(self.encoding(), decoded),
        ensures
            decoded == Ok::<Self, DeserializeError>(*self),
    {
        self.lemma_encoding_decodes();
        self.lemma_decoded_is_self(decoded->Ok_0, self.encoding());
    }

    /// Only one value has the fields that the bytes say.
    pub proof fn lemma_decoded_is_self(&self, other: Self, encoding: Seq<u8>)
        requires
            self.decoded_from(encoding),
            other.decoded_from(encoding),
        ensures
            *self == other,
    {
        assert(self.from_bls_public_key =~= other.from_bls_public_key);
        assert(self.to_execution_address =~= other.to_execution_address);
    }
}

/// A change of withdrawal credentials with its signature.
#[derive(Clone, Copy, Debug, PartialEq, Eq)]
pub struct SignedBlsToExecutionChange {
    pub message: BlsToExecutionChange,
    pub signature: BlsSignature,
}

impl Composite for SignedBlsToExecutionChange {

}

impl Merkleized for SignedBlsToExecutionChange {
    open spec fn root_spec(&self) -> Seq<u8> {
        merkle_root(
            seq![
                self.message.root_spec(),
                self.signature.root_spec(),
            ],
            1,
        )
    }

    fn hash_tree_root(&self) -> (root: [u8; 32]) {
        let mut chunks: Vec<[u8; 32]> = Vec::new();
        chunks.push(self.message.hash_tree_root());
        chunks.push(self.signature.hash_tree_root());
        proof {
            assert(chunk_views(chunks@) =~= seq![
                self.message.root_spec(),
                self.signature.root_spec(),
            ]);
        }
        merkle_root_of(&chunks, 1)
    }
}

impl Serialize for SignedBlsToExecutionChange {
    open spec fn encoding(&self) -> Seq<u8> {
        self.message.encoding() + self.signature.encoding()
    }

    fn serialize_into(&self, buffer: &mut Vec<u8>) {
        self.message.serialize_into(buffer);
        self.signature.serialize_into(buffer);
        proof {
            assert(buffer@ =~= old(buffer)@ + self.encoding());
        }
    }
}

impl SignedBlsToExecutionChange {
    /// The length of the encoding: 172 bytes.
    pub open spec fn encoded_len() -> nat {
        172
    }

    /// Whether the fields are what the bytes of `encoding` say, each at its
    /// place.
    pub open spec fn decoded_from(&self, encoding: Seq<u8>) -> bool {
        &&& self.message.decoded_from(encoding.subrange(0, 76))
        &&& self.signature@ == encoding.subrange(76, 172)
    }

    /// What decoding `encoding` gives: the value whose fields the bytes
    /// say, or the error that says what is wrong with them.
    pub open spec fn decodes(encoding: Seq<u8>, result: Result<Self, DeserializeError>) -> bool {
        if encoding.len() < 172 {
            result == Err::<Self, DeserializeError>(
                DeserializeError::ExpectedFurtherInput {
                    provided: encoding.len() as usize,
                    expected: 172,
                },
            )
        } else if encoding.len() > 172 {
            result == Err::<Self, DeserializeError>(
                DeserializeError::AdditionalInput {
                    provided: encoding.len() as usize,
                    expected: 172,
                },
            )
        } else {
            result is Ok && result->Ok_0.decoded_from(encoding)
        }
    }

    /// Decodes a value: the input holds the fields in order and nothing
    /// else.
    pub fn deserialize(encoding: &[u8]) -> (result: Result<Self, DeserializeError>)
        ensures
            Self::decodes(encoding@, result),
    {
        if encoding.len() < 172 {
            return Err(
                DeserializeError::ExpectedFurtherInput { provided: encoding.len(), expected: 172 },
            );
        }
        if encoding.len() > 172 {
            return Err(
                DeserializeError::AdditionalInput { provided: encoding.len(), expected: 172 },
            );
        }
        let message = match BlsToExecutionChange::deserialize(slice_subrange(encoding, 0, 76)) {
            Ok(value) => value,
            Err(e) => {
                return Err(e);
            },
        };
        let signature: [u8; 96] = read_array(encoding, 76);
        Ok(SignedBlsToExecutionChange { message, signature })
    }

    /// The encoding has its length, and its bytes say the fields.
    pub proof fn lemma_encoding_decodes(&self)
        ensures
            self.encoding().len() == 172,
            self.decoded_from(self.encoding()),
    {
        lemma_auto_spec_u64_to_from_le_bytes();
        self.message.lemma_encoding_decodes();
        assert(self.encoding().subrange(0, 76) =~= self.message.encoding());
        assert(self.encoding().subrange(76, 172) =~= self.signature.encoding());
    }

    /// Decoding the encoding of a value gives the value back.
    pub proof fn lemma_round_trip(&self, decoded: Result<Self, DeserializeError>)
        requires
            Self::decodes(self.encoding(), decoded),
        ensures
            decoded == Ok::<Self, DeserializeError>(*self),
    {
        self.lemma_encoding_decodes();
        self.lemma_decoded_is_self(decoded->Ok_0, self.encoding());
    }

    /// Only one value has the fields that the bytes say.
    pub proof fn lemma_decoded_is_self(&self, other: Self, encoding: Seq<u8>)
        requires
            self.decoded_from(encoding),
            other.decoded_from(encoding),
        ensures
            *self == other,
    {
        self.message.lemma_decoded_is_self(other.message, encoding.subrange(0, 76));
        assert(self.signature =~= other.signature);
    }
}

/// A payment from the beacon chain to an execution address.
#[derive(Clone, Copy, Debug, PartialEq, Eq)]
pub struct Withdrawal {
    pub index: WithdrawalIndex,
    pub validator_index: ValidatorIndex,
    pub address: ExecutionAddress,
    pub amount: Gwei,
}

impl Composite for Withdrawal {

}

impl Merkleized for Withdrawal {
    open spec fn root_spec(&self) -> Seq<u8> {
        merkle_root(
            seq![
                self.index.root_spec(),
                self.validator_index.root_spec(),
                self.address.root_spec(),
                self.amount.root_spec(),
            ],
            2,
        )
    }

    fn hash_tree_root(&self) -> (root: [u8; 32]) {
        let mut chunks: Vec<[u8; 32]> = Vec::new();
        chunks.push(self.index.hash_tree_root());
        chunks.push(self.validator_index.hash_tree_root());
        chunks.push(self.address.hash_tree_root());
        chunks.push(self.amount.hash_tree_root());
        proof {
            assert(chunk_views(chunks@) =~= seq![
                self.index.root_spec(),
                self.validator_index.root_spec(),
                self.address.root_spec(),
                self.amount.root_spec(),
            ]);
        }
        merkle_root_of(&chunks, 2)
    }
}

impl Serialize for Withdrawal {
    open spec fn encoding(&self) -> Seq<u8> {
        self.index.encoding() + self.validator_index.encoding() + self.address.encoding() + self.amount.encoding()
    }

    fn serialize_into(&self, buffer: &mut Vec<u8>) {
        self.index.serialize_into(buffer);
        self.validator_index.serialize_into(buffer);
        self.address.serialize_into(buffer);
        self.amount.serialize_into(buffer);
        proof {
            assert(buffer@ =~= old(buffer)@ + self.encoding());
        }
    }
}

impl Withdrawal {
    /// The length of the encoding: 44 bytes.
    pub open spec fn encoded_len() -> nat {
        44
    }

    /// Whether the fields are what the bytes of `encoding` say, each at its
    /// place.
    pub open spec fn decoded_from(&self, encoding: Seq<u8>) -> bool {
        &&& self.index == spec_u64_from_le_bytes(encoding.subrange(0, 8))
        &&& self.validator_index == spec_u64_from_le_bytes(encoding.subrange(8, 16))
        &&& self.address@ == encoding.subrange(16, 36)
        &&& self.amount == spec_u64_from_le_bytes(encoding.subrange(36, 44))
    }

    /// What decoding `encoding` gives: the value whose fields the bytes
    /// say, or the error that says what is wrong with them.
    pub open spec fn decodes(encoding: Seq<u8>, result: Result<Self, DeserializeError>) -> bool {
        if encoding.len() < 44 {
            result == Err::<Self, DeserializeError>(
                DeserializeError::ExpectedFurtherInput {
                    provided: encoding.len() as usize,
                    expected: 44,
                },
            )
        } else if encoding.len() > 44 {
            result == Err::<Self, DeserializeError>(
                DeserializeError::AdditionalInput {
                    provided: encoding.len() as usize,
                    expected: 44,
                },
            )
        } else {
            result is Ok && result->Ok_0.decoded_from(encoding)
        }
    }

    /// Decodes a value: the input holds the fields in order and nothing
    /// else.
    pub fn deserialize(encoding: &[u8]) -> (result: Result<Self, DeserializeError>)
        ensures
            Self::decodes(encoding@, result),
    {
        if encoding.len() < 44 {
            return Err(
                DeserializeError::ExpectedFurtherInput { provided: encoding.len(), expected: 44 },
            );
        }
        if encoding.len() > 44 {
            return Err(
                DeserializeError::AdditionalInput { provided: encoding.len(), expected: 44 },
            );
        }
        let index: u64 = u64_from_le_bytes(slice_subrange(encoding, 0, 8));
        let validator_index: u64 = u64_from_le_bytes(slice_subrange(encoding, 8, 16));
        let address: [u8; 20] = read_array(encoding, 16);
        let amount: u64 = u64_from_le_bytes(slice_subrange(encoding, 36, 44));
        Ok(Withdrawal { index, validator_index, address, amount })
    }

    /// The encoding has its length, and its bytes say the fields.
    pub proof fn lemma_encoding_decodes(&self)
        ensures
            self.encoding().len() == 44,
            self.decoded_from(self.encoding()),
    {
        lemma_auto_spec_u64_to_from_le_bytes();
        assert(self.encoding().subrange(0, 8) =~= self.index.encoding());
        assert(self.encoding().subrange(8, 16) =~= self.validator_index.encoding());
        assert(self.encoding().subrange(16, 36) =~= self.address.encoding());
        assert(self.encoding().subrange(36, 44) =~= self.amount.encoding());
    }

    /// Decoding the encoding of a value gives the value back.
    pub proof fn lemma_round_trip(&self, decoded: Result<Self, DeserializeError>)
        requires
            Self::decodes(self.encoding(), decoded),
        ensures
            decoded == Ok::<Self, DeserializeError>(*self),
    {
        self.lemma_encoding_decodes();
        self.lemma_decoded_is_self(decoded->Ok_0, self.encoding());
    }

    /// Only one value has the fields that the bytes say.
    pub proof fn lemma_decoded_is_self(&self, other: Self, encoding: Seq<u8>)
        requires
            self.decoded_from(encoding),
            other.decoded_from(encoding),
        ensures
            *self == other,
    {
        assert(self.address =~= other.address);
    }
}

/// An execution block as the beacon chain carries it.
#[derive(Clone, Debug, PartialEq, Eq)]
pub struct ExecutionPayload<
    const BYTES_PER_LOGS_BLOOM: usize,
    const MAX_EXTRA_DATA_BYTES: usize,
    const MAX_BYTES_PER_TRANSACTION: usize,
    const MAX_TRANSACTIONS_PER_PAYLOAD: usize,
    const MAX_WITHDRAWALS_PER_PAYLOAD: usize,
> {
    pub parent_hash: Hash32,
    pub fee_recipient: ExecutionAddress,
    pub state_root: Bytes32,
    pub receipts_root: Bytes32,
    pub logs_bloom: ByteVector<BYTES_PER_LOGS_BLOOM>,
    pub prev_randao: Bytes32,
    pub block_number: u64,
    pub gas_limit: u64,
    pub gas_used: u64,
    pub timestamp: u64,
    pub extra_data: ByteList<MAX_EXTRA_DATA_BYTES>,
    pub base_fee_per_gas: U256,
    pub block_hash: Hash32,
    pub transactions: List<ByteList<MAX_BYTES_PER_TRANSACTION>, MAX_TRANSACTIONS_PER_PAYLOAD>,
    pub withdrawals: List<Withdrawal, MAX_WITHDRAWALS_PER_PAYLOAD>,
}

impl<
    const BYTES_PER_LOGS_BLOOM: usize,
    const MAX_EXTRA_DATA_BYTES: usize,
    const MAX_BYTES_PER_TRANSACTION: usize,
    const MAX_TRANSACTIONS_PER_PAYLOAD: usize,
    const MAX_WITHDRAWALS_PER_PAYLOAD: usize,
> Composite for ExecutionPayload<
    BYTES_PER_LOGS_BLOOM,
    MAX_EXTRA_DATA_BYTES,
    MAX_BYTES_PER_TRANSACTION,
    MAX_TRANSACTIONS_PER_PAYLOAD,
    MAX_WITHDRAWALS_PER_PAYLOAD,
> {

}

impl<
    const BYTES_PER_LOGS_BLOOM: usize,
    const MAX_EXTRA_DATA_BYTES: usize,
    const MAX_BYTES_PER_TRANSACTION: usize,
    const MAX_TRANSACTIONS_PER_PAYLOAD: usize,
    const MAX_WITHDRAWALS_PER_PAYLOAD: usize,
> Merkleized for ExecutionPayload<
    BYTES_PER_LOGS_BLOOM,
    MAX_EXTRA_DATA_BYTES,
    MAX_BYTES_PER_TRANSACTION,
    MAX_TRANSACTIONS_PER_PAYLOAD,
    MAX_WITHDRAWALS_PER_PAYLOAD,
> {
    open spec fn root_spec(&self) -> Seq<u8> {
        merkle_root(
            seq![
                self.parent_hash.root_spec(),
                self.fee_recipient.root_spec(),
                self.state_root.root_spec(),
                self.receipts_root.root_spec(),
                self.logs_bloom.root_spec(),
                self.prev_randao.root_spec(),
                self.block_number.root_spec(),
                self.gas_limit.root_spec(),
                self.gas_used.root_spec(),
                self.timestamp.root_spec(),
                self.extra_data.root_spec(),
                self.base_fee_per_gas.root_spec(),
                self.block_hash.root_spec(),
                self.transactions.root_spec(),
                self.withdrawals.root_spec(),
            ],
            4,
        )
    }

    fn hash_tree_root(&self) -> (root: [u8; 32]) {
        let mut chunks: Vec<[u8; 32]> = Vec::new();
        chunks.push(self.parent_hash.hash_tree_root());
        chunks.push(self.fee_recipient.hash_tree_root());
        chunks.push(self.state_root.hash_tree_root());
        chunks.push(self.receipts_root.hash_tree_root());
        chunks.push(self.logs_bloom.hash_tree_root());
        chunks.push(self.prev_randao.hash_tree_root());
        chunks.push(self.block_number.hash_tree_root());
        chunks.push(self.gas_limit.hash_tree_root());
        chunks.push(self.gas_used.hash_tree_root());
        chunks.push(self.timestamp.hash_tree_root());
        chunks.push(self.extra_data.hash_tree_root());
        chunks.push(self.base_fee_per_gas.hash_tree_root());
        chunks.push(self.block_hash.hash_tree_root());
        chunks.push(self.transactions.hash_tree_root());
        chunks.push(self.withdrawals.hash_tree_root());
        proof {
            assert(chunk_views(chunks@) =~= seq![
                self.parent_hash.root_spec(),
                self.fee_recipient.root_spec(),
                self.state_root.root_spec(),
                self.receipts_root.root_spec(),
                self.logs_bloom.root_spec(),
                self.prev_randao.root_spec(),
                self.block_number.root_spec(),
                self.gas_limit.root_spec(),
                self.gas_used.root_spec(),
                self.timestamp.root_spec(),
                self.extra_data.root_spec(),
                self.base_fee_per_gas.root_spec(),
                self.block_hash.root_spec(),
                self.transactions.root_spec(),
                self.withdrawals.root_spec(),
            ]);
        }
        merkle_root_of(&chunks, 4)
    }
}

/// An execution block with the roots of its transactions and withdrawals in their place.
#[derive(Clone, Debug, PartialEq, Eq)]
pub struct ExecutionPayloadHeader<const BYTES_PER_LOGS_BLOOM: usize, const MAX_EXTRA_DATA_BYTES: usize> {
    pub parent_hash: Hash32,
    pub fee_recipient: ExecutionAddress,
    pub state_root: Bytes32,
    pub receipts_root: Bytes32,
    pub logs_bloom: ByteVector<BYTES_PER_LOGS_BLOOM>,
    pub prev_randao: Bytes32,
    pub block_number: u64,
    pub gas_limit: u64,
    pub gas_used: u64,
    pub timestamp: u64,
    pub extra_data: ByteList<MAX_EXTRA_DATA_BYTES>,
    pub base_fee_per_gas: U256,
    pub block_hash: Hash32,
    pub transactions_root: Root,
    pub withdrawals_root: Root,
}

impl<const BYTES_PER_LOGS_BLOOM: usize, const MAX_EXTRA_DATA_BYTES: usize> Composite for ExecutionPayloadHeader<BYTES_PER_LOGS_BLOOM, MAX_EXTRA_DATA_BYTES> {

}

impl<const BYTES_PER_LOGS_BLOOM: usize, const MAX_EXTRA_DATA_BYTES: usize> Merkleized for ExecutionPayloadHeader<BYTES_PER_LOGS_BLOOM, MAX_EXTRA_DATA_BYTES> {
    open spec fn root_spec(&self) -> Seq<u8> {
        merkle_root(
            seq![
                self.parent_hash.root_spec(),
                self.fee_recipient.root_spec(),
                self.state_root.root_spec(),
                self.receipts_root.root_spec(),
                self.logs_bloom.root_spec(),
                self.prev_randao.root_spec(),
                self.block_number.root_spec(),
                self.gas_limit.root_spec(),
                self.gas_used.root_spec(),
                self.timestamp.root_spec(),
                self.extra_data.root_spec(),
                self.base_fee_per_gas.root_spec(),
                self.block_hash.root_spec(),
                self.transactions_root.root_spec(),
                self.withdrawals_root.root_spec(),
            ],
            4,
        )
    }

    fn hash_tree_root(&self) -> (root: [u8; 32]) {
        let mut chunks: Vec<[u8; 32]> = Vec::new();
        chunks.push(self.parent_hash.hash_tree_root());
        chunks.push(self.fee_recipient.hash_tree_root());
        chunks.push(self.state_root.hash_tree_root());
        chunks.push(self.receipts_root.hash_tree_root());
        chunks.push(self.logs_bloom.hash_tree_root());
        chunks.push(self.prev_randao.hash_tree_root());
        chunks.push(self.block_number.hash_tree_root());
        chunks.push(self.gas_limit.hash_tree_root());
        chunks.push(self.gas_used.hash_tree_root());
        chunks.push(self.timestamp.hash_tree_root());
        chunks.push(self.extra_data.hash_tree_root());
        chunks.push(self.base_fee_per_gas.hash_tree_root());
        chunks.push(self.block_hash.hash_tree_root());
        chunks.push(self.transactions_root.hash_tree_root());
        chunks.push(self.withdrawals_root.hash_tree_root());
        proof {
            assert(chunk_views(chunks@) =~= seq![
                self.parent_hash.root_spec(),
                self.fee_recipient.root_spec(),
                self.state_root.root_spec(),
                self.receipts_root.root_spec(),
                self.logs_bloom.root_spec(),
                self.prev_randao.root_spec(),
                self.block_number.root_spec(),
                self.gas_limit.root_spec(),
                self.gas_used.root_spec(),
                self.timestamp.root_spec(),
                self.extra_data.root_spec(),
                self.base_fee_per_gas.root_spec(),
                self.block_hash.root_spec(),
                self.transactions_root.root_spec(),
                self.withdrawals_root.root_spec(),
            ]);
        }
        merkle_root_of(&chunks, 4)
    }
}
impl<const BYTES_PER_LOGS_BLOOM: usize, const MAX_EXTRA_DATA_BYTES: usize> ExecutionPayloadHeader<
    BYTES_PER_LOGS_BLOOM,
    MAX_EXTRA_DATA_BYTES,
> {
    /// Whether this is the header of `payload`: the roots of the transactions
    /// and of the withdrawals in their place, every other field as it is.
    pub open spec fn is_header_of<
        const MAX_BYTES_PER_TRANSACTION: usize,
        const MAX_TRANSACTIONS_PER_PAYLOAD: usize,
        const MAX_WITHDRAWALS_PER_PAYLOAD: usize,
    >(
        &self,
        payload: &ExecutionPayload<
            BYTES_PER_LOGS_BLOOM,
            MAX_EXTRA_DATA_BYTES,
            MAX_BYTES_PER_TRANSACTION,
            MAX_TRANSACTIONS_PER_PAYLOAD,
            MAX_WITHDRAWALS_PER_PAYLOAD,
        >,
    ) -> bool {
        &&& self.parent_hash == payload.parent_hash
        &&& self.fee_recipient == payload.fee_recipient
        &&& self.state_root == payload.state_root
        &&& self.receipts_root == payload.receipts_root
        &&& self.logs_bloom@ == payload.logs_bloom@
        &&& self.prev_randao == payload.prev_randao
        &&& self.block_number == payload.block_number
        &&& self.gas_limit == payload.gas_limit
        &&& self.gas_used == payload.gas_used
        &&& self.timestamp == payload.timestamp
        &&& self.extra_data@ == payload.extra_data@
        &&& self.base_fee_per_gas == payload.base_fee_per_gas
        &&& self.block_hash == payload.block_hash
        &&& self.transactions_root@ == payload.transactions.root_spec()
        &&& self.withdrawals_root@ == payload.withdrawals.root_spec()
    }

    /// The header of a payload. Never fails.
    pub fn try_from<
        const MAX_BYTES_PER_TRANSACTION: usize,
        const MAX_TRANSACTIONS_PER_PAYLOAD: usize,
        const MAX_WITHDRAWALS_PER_PAYLOAD: usize,
    >(
        payload: &ExecutionPayload<
            BYTES_PER_LOGS_BLOOM,
            MAX_EXTRA_DATA_BYTES,
            MAX_BYTES_PER_TRANSACTION,
            MAX_TRANSACTIONS_PER_PAYLOAD,
            MAX_WITHDRAWALS_PER_PAYLOAD,
        >,
    ) -> (result: Result<Self, Error>)
        ensures
            result is Ok,
            result->Ok_0.is_header_of(payload),
    {
        let transactions_root = payload.transactions.hash_tree_root();
        let withdrawals_root = payload.withdrawals.hash_tree_root();

        Ok(
            ExecutionPayloadHeader {
                parent_hash: payload.parent_hash,
                fee_recipient: payload.fee_recipient,
                state_root: payload.state_root,
                receipts_root: payload.receipts_root,
                logs_bloom: payload.logs_bloom.clone(),
                prev_randao: payload.prev_randao,
                block_number: payload.block_number,
                gas_limit: payload.gas_limit,
                gas_used: payload.gas_used,
                timestamp: payload.timestamp,
                extra_data: payload.extra_data.clone(),
                base_fee_per_gas: payload.base_fee_per_gas,
                block_hash: payload.block_hash,
                transactions_root,
                withdrawals_root,
            },
        )
    }
}

/// A payload and its header have the same root wherever the payload's two
/// lists have the roots that the header holds: the header commits to the
/// payload.
pub proof fn lemma_header_commits_to_payload<
    const BYTES_PER_LOGS_BLOOM: usize,
    const MAX_EXTRA_DATA_BYTES: usize,
    const MAX_BYTES_PER_TRANSACTION: usize,
    const MAX_TRANSACTIONS_PER_PAYLOAD: usize,
    const MAX_WITHDRAWALS_PER_PAYLOAD: usize,
>(
    header: ExecutionPayloadHeader<BYTES_PER_LOGS_BLOOM, MAX_EXTRA_DATA_BYTES>,
    payload: ExecutionPayload<
        BYTES_PER_LOGS_BLOOM,
        MAX_EXTRA_DATA_BYTES,
        MAX_BYTES_PER_TRANSACTION,
        MAX_TRANSACTIONS_PER_PAYLOAD,
        MAX_WITHDRAWALS_PER_PAYLOAD,
    >,
)
    requires
        header.is_header_of(&payload),
    ensures
        header.root_spec() == payload.root_spec(),
{
    crate::primitives::lemma_chunk_is_its_root(header.transactions_root);
    crate::primitives::lemma_chunk_is_its_root(header.withdrawals_root);
}

impl<const BYTES_PER_LOGS_BLOOM: usize, const MAX_EXTRA_DATA_BYTES: usize> ExecutionPayloadHeader<
    BYTES_PER_LOGS_BLOOM,
    MAX_EXTRA_DATA_BYTES,
> {
    /// The length of the fixed part: the fixed fields and the offset of the
    /// extra data.
    pub open spec fn fixed_len() -> nat {
        (312 + BYTES_PER_LOGS_BLOOM) as nat
    }

    /// The header has a bloom filter of the length of its type and extra
    /// data within their bound.
    pub open spec fn wf(&self) -> bool {
        self.logs_bloom.wf() && self.extra_data.wf()
    }

    /// The encoding: the fixed fields in order, with the offset of the extra
    /// data in their place, then the extra data.
    pub open spec fn encoding(&self) -> Seq<u8> {
        self.parent_hash@ + self.fee_recipient@ + self.state_root@ + self.receipts_root@
            + self.logs_bloom@ + self.prev_randao@ + spec_u64_to_le_bytes(self.block_number)
            + spec_u64_to_le_bytes(self.gas_limit) + spec_u64_to_le_bytes(self.gas_used)
            + spec_u64_to_le_bytes(self.timestamp) + spec_u32_to_le_bytes(
            (312 + BYTES_PER_LOGS_BLOOM) as u32,
        ) + self.base_fee_per_gas@ + self.block_hash@ + self.transactions_root@
            + self.withdrawals_root@ + self.extra_data@
    }

    /// Whether the fields are what the bytes of `encoding` say, each at its
    /// place; the extra data are what follows the fixed part.
    pub open spec fn decoded_from(&self, encoding: Seq<u8>) -> bool {
        let l = BYTES_PER_LOGS_BLOOM as int;
        &&& self.parent_hash@ == encoding.subrange(0, 32)
        &&& self.fee_recipient@ == encoding.subrange(32, 52)
        &&& self.state_root@ == encoding.subrange(52, 84)
        &&& self.receipts_root@ == encoding.subrange(84, 116)
        &&& self.logs_bloom@ == encoding.subrange(116, 116 + l)
        &&& self.prev_randao@ == encoding.subrange(116 + l, 148 + l)
        &&& self.block_number == spec_u64_from_le_bytes(encoding.subrange(148 + l, 156 + l))
        &&& self.gas_limit == spec_u64_from_le_bytes(encoding.subrange(156 + l, 164 + l))
        &&& self.gas_used == spec_u64_from_le_bytes(encoding.subrange(164 + l, 172 + l))
        &&& self.timestamp == spec_u64_from_le_bytes(encoding.subrange(172 + l, 180 + l))
        &&& self.base_fee_per_gas@ == encoding.subrange(184 + l, 216 + l)
        &&& self.block_hash@ == encoding.subrange(216 + l, 248 + l)
        &&& self.transactions_root@ == encoding.subrange(248 + l, 280 + l)
        &&& self.withdrawals_root@ == encoding.subrange(280 + l, 312 + l)
        &&& self.extra_data@ == encoding.subrange(312 + l, encoding.len() as int)
        &&& self.wf()
    }

    /// What decoding `encoding` gives. The input must hold the fixed part,
    /// the offset in it must point at the end of the fixed part, the type
    /// must have a bloom filter of some length, and what follows the fixed
    /// part must keep the bound of the extra data.
    pub open spec fn decodes(encoding: Seq<u8>, result: Result<Self, DeserializeError>) -> bool {
        let fixed = 312 + BYTES_PER_LOGS_BLOOM;
        if encoding.len() < fixed {
            result == Err::<Self, DeserializeError>(
                DeserializeError::ExpectedFurtherInput {
                    provided: encoding.len() as usize,
                    expected: fixed as usize,
                },
            )
        } else if offset_at(encoding, 180 + BYTES_PER_LOGS_BLOOM) != fixed {
            result == Err::<Self, DeserializeError>(
                DeserializeError::OffsetOutOfPlace {
                    offset: offset_at(encoding, 180 + BYTES_PER_LOGS_BLOOM) as usize,
                    expected: fixed as usize,
                },
            )
        } else if BYTES_PER_LOGS_BLOOM == 0 {
            result == Err::<Self, DeserializeError>(DeserializeError::InvalidBound(0))
        } else if encoding.len() - fixed > MAX_EXTRA_DATA_BYTES {
            result == Err::<Self, DeserializeError>(
                DeserializeError::Bounded {
                    bound: MAX_EXTRA_DATA_BYTES,
                    provided: (encoding.len() - fixed) as usize,
                },
            )
        } else {
            result is Ok && result->Ok_0.decoded_from(encoding)
        }
    }

    /// Encodes the header.
    pub fn serialize(&self) -> (bytes: Vec<u8>)
        requires
            312 + BYTES_PER_LOGS_BLOOM <= u32::MAX,
        ensures
            bytes@ == self.encoding(),
    {
        let mut bytes: Vec<u8> = Vec::new();
        self.parent_hash.serialize_into(&mut bytes);
        self.fee_recipient.serialize_into(&mut bytes);
        self.state_root.serialize_into(&mut bytes);
        self.receipts_root.serialize_into(&mut bytes);
        self.logs_bloom.serialize_into(&mut bytes);
        self.prev_randao.serialize_into(&mut bytes);
        self.block_number.serialize_into(&mut bytes);
        self.gas_limit.serialize_into(&mut bytes);
        self.gas_used.serialize_into(&mut bytes);
        self.timestamp.serialize_into(&mut bytes);
        write_offset(&mut bytes, (312 + BYTES_PER_LOGS_BLOOM) as u32);
        self.base_fee_per_gas.serialize_into(&mut bytes);
        self.block_hash.serialize_into(&mut bytes);
        self.transactions_root.serialize_into(&mut bytes);
        self.withdrawals_root.serialize_into(&mut bytes);
        self.extra_data.serialize_into(&mut bytes);
        proof {
            assert(bytes@ =~= self.encoding());
        }
        bytes
    }

    /// Decodes a header.
    pub fn deserialize(encoding: &[u8]) -> (result: Result<Self, DeserializeError>)
        requires
            312 + BYTES_PER_LOGS_BLOOM <= u32::MAX,
        ensures
            Self::decodes(encoding@, result),
    {
        let l: usize = BYTES_PER_LOGS_BLOOM;
        let fixed: usize = 312 + l;
        let positions: Vec<usize> = vec![180 + l];
        let ranges = match split_variable_parts(encoding, fixed, &positions) {
            Ok(ranges) => ranges,
            Err(error) => {
                proof {
                    reveal_with_fuel(offsets_error, 3);
                }
                return Err(error);
            },
        };
        proof {
            reveal_with_fuel(offsets_error, 3);
            let offsets = offsets_of(encoding@, positions@);
            assert(positions@.len() == 1);
            assert(offsets.len() == 1);
            assert(offsets[0] == offset_at(encoding@, 180 + l));
            assert(ranges_view(ranges@).len() == ranges@.len());
            assert(variable_ranges(offsets, encoding.len() as nat).len() == 1);
            assert(ranges_view(ranges@)[0] == variable_ranges(offsets, encoding.len() as nat)[0]);
            assert(ranges@[0].0 == fixed);
        }
        let logs_bloom = match ByteVector::<BYTES_PER_LOGS_BLOOM>::deserialize(
            slice_subrange(encoding, 116, 116 + l),
        ) {
            Ok(value) => value,
            Err(error) => {
                return Err(error);
            },
        };
        let extra_data = match ByteList::<MAX_EXTRA_DATA_BYTES>::deserialize(
            slice_subrange(encoding, fixed, encoding.len()),
        ) {
            Ok(value) => value,
            Err(error) => {
                return Err(error);
            },
        };
        Ok(
            ExecutionPayloadHeader {
                parent_hash: read_array(encoding, 0),
                fee_recipient: read_array(encoding, 32),
                state_root: read_array(encoding, 52),
                receipts_root: read_array(encoding, 84),
                logs_bloom,
                prev_randao: read_array(encoding, 116 + l),
                block_number: u64_from_le_bytes(slice_subrange(encoding, 148 + l, 156 + l)),
                gas_limit: u64_from_le_bytes(slice_subrange(encoding, 156 + l, 164 + l)),
                gas_used: u64_from_le_bytes(slice_subrange(encoding, 164 + l, 172 + l)),
                timestamp: u64_from_le_bytes(slice_subrange(encoding, 172 + l, 180 + l)),
                extra_data,
                base_fee_per_gas: read_array(encoding, 184 + l),
                block_hash: read_array(encoding, 216 + l),
                transactions_root: read_array(encoding, 248 + l),
                withdrawals_root: read_array(encoding, 280 + l),
            },
        )
    }

    /// Decoding the encoding of a header gives a header with the same
    /// fields.
    pub proof fn lemma_round_trip(&self, decoded: Result<Self, DeserializeError>)
        requires
            self.wf(),
            0 < BYTES_PER_LOGS_BLOOM,
            312 + BYTES_PER_LOGS_BLOOM <= u32::MAX,
            Self::decodes(self.encoding(), decoded),
        ensures
            decoded is Ok,
            decoded->Ok_0.parent_hash == self.parent_hash,
            decoded->Ok_0.fee_recipient == self.fee_recipient,
            decoded->Ok_0.state_root == self.state_root,
            decoded->Ok_0.receipts_root == self.receipts_root,
            decoded->Ok_0.logs_bloom@ == self.logs_bloom@,
            decoded->Ok_0.prev_randao == self.prev_randao,
            decoded->Ok_0.block_number == self.block_number,
            decoded->Ok_0.gas_limit == self.gas_limit,
            decoded->Ok_0.gas_used == self.gas_used,
            decoded->Ok_0.timestamp == self.timestamp,
            decoded->Ok_0.extra_data@ == self.extra_data@,
            decoded->Ok_0.base_fee_per_gas == self.base_fee_per_gas,
            decoded->Ok_0.block_hash == self.block_hash,
            decoded->Ok_0.transactions_root == self.transactions_root,
            decoded->Ok_0.withdrawals_root == self.withdrawals_root,
    {
        let e = self.encoding();
        let l = BYTES_PER_LOGS_BLOOM as int;
        lemma_auto_spec_u64_to_from_le_bytes();
        lemma_auto_spec_u32_to_from_le_bytes();
        assert(e.len() == 312 + l + self.extra_data@.len());
        assert(e.subrange(0, 32) =~= self.parent_hash@);
        assert(e.subrange(32, 52) =~= self.fee_recipient@);
        assert(e.subrange(52, 84) =~= self.state_root@);
        assert(e.subrange(84, 116) =~= self.receipts_root@);
        assert(e.subrange(116, 116 + l) =~= self.logs_bloom@);
        assert(e.subrange(116 + l, 148 + l) =~= self.prev_randao@);
        assert(e.subrange(148 + l, 156 + l) =~= spec_u64_to_le_bytes(self.block_number));
        assert(e.subrange(156 + l, 164 + l) =~= spec_u64_to_le_bytes(self.gas_limit));
        assert(e.subrange(164 + l, 172 + l) =~= spec_u64_to_le_bytes(self.gas_used));
        assert(e.subrange(172 + l, 180 + l) =~= spec_u64_to_le_bytes(self.timestamp));
        assert(e.subrange(180 + l, 184 + l) =~= spec_u32_to_le_bytes((312 + l) as u32));
        assert(e.subrange(184 + l, 216 + l) =~= self.base_fee_per_gas@);
        assert(e.subrange(216 + l, 248 + l) =~= self.block_hash@);
        assert(e.subrange(248 + l, 280 + l) =~= self.transactions_root@);
        assert(e.subrange(280 + l, 312 + l) =~= self.withdrawals_root@);
        assert(e.subrange(312 + l, e.len() as int) =~= self.extra_data@);
        let other = decoded->Ok_0;
        assert(other.parent_hash =~= self.parent_hash);
        assert(other.fee_recipient =~= self.fee_recipient);
        assert(other.state_root =~= self.state_root);
        assert(other.receipts_root =~= self.receipts_root);
        assert(other.prev_randao =~= self.prev_randao);
        assert(other.base_fee_per_gas =~= self.base_fee_per_gas);
        assert(other.block_hash =~= self.block_hash);
        assert(other.transactions_root =~= self.transactions_root);
        assert(other.withdrawals_root =~= self.withdrawals_root);
    }
}

/// The encoding of withdrawals: forty-four bytes each, one after the
/// other.
pub open spec fn withdrawals_encoding(items: Seq<Withdrawal>) -> Seq<u8>
    decreases items.len(),
{
    if items.len() == 0 {
        Seq::empty()
    } else {
        withdrawals_encoding(items.drop_last()) + items.last().encoding()
    }
}

/// What decoding `encoding` as a list of at most `N` withdrawals gives: as
/// many withdrawals as the bytes hold, each with the fields that its bytes
/// say, where the bytes are whole withdrawals and these are `N` at most;
/// else the error that says what is wrong.
pub open spec fn decodes_withdrawals<const N: usize>(
    encoding: Seq<u8>,
    result: Result<List<Withdrawal, N>, DeserializeError>,
) -> bool {
    if encoding.len() % 44 != 0 {
        result == Err::<List<Withdrawal, N>, DeserializeError>(
            DeserializeError::AdditionalInput {
                provided: encoding.len() as usize,
                expected: (encoding.len() - encoding.len() % 44) as usize,
            },
        )
    } else if encoding.len() / 44 > N {
        result == Err::<List<Withdrawal, N>, DeserializeError>(
            DeserializeError::Bounded { bound: N, provided: (encoding.len() / 44) as usize },
        )
    } else {
        &&& result is Ok
        &&& result->Ok_0.wf()
        &&& result->Ok_0@.len() == encoding.len() / 44
        &&& forall|i: int|
            0 <= i < encoding.len() / 44 ==> (#[trigger] result->Ok_0@[i]).decoded_from(
                encoding.subrange(44 * i, 44 * i + 44),
            )
    }
}

/// Encodes withdrawals one after the other.
pub fn serialize_withdrawals(items: &Vec<Withdrawal>) -> (bytes: Vec<u8>)
    ensures
        bytes@ == withdrawals_encoding(items@),
{
    let mut bytes: Vec<u8> = Vec::new();
    let mut i: usize = 0;
    while i < items.len()
        invariant
            i <= items.len(),
            bytes@ == withdrawals_encoding(items@.take(i as int)),
        decreases items.len() - i,
    {
        proof {
            assert(items@.take(i + 1).drop_last() =~= items@.take(i as int));
        }
        items[i].serialize_into(&mut bytes);
        i = i + 1;
    }
    proof {
        assert(items@.take(items.len() as int) =~= items@);
    }
    bytes
}

/// Decodes a list of withdrawals: the length of the input says how many
/// there are.
pub fn deserialize_withdrawals<const N: usize>(encoding: &[u8]) -> (result: Result<
    List<Withdrawal, N>,
    DeserializeError,
>)
    ensures
        decodes_withdrawals(encoding@, result),
{
    let rest: usize = encoding.len() % 44;
    if rest != 0 {
        return Err(
            DeserializeError::AdditionalInput {
                provided: encoding.len(),
                expected: encoding.len() - rest,
            },
        );
    }
    let count: usize = encoding.len() / 44;
    if count > N {
        return Err(DeserializeError::Bounded { bound: N, provided: count });
    }
    let mut items: Vec<Withdrawal> = Vec::with_capacity(count);
    let mut i: usize = 0;
    while i < count
        invariant
            i <= count,
            count == encoding.len() / 44,
            encoding.len() % 44 == 0,
            items.len() == i,
            forall|k: int|
                0 <= k < i ==> (#[trigger] items@[k]).decoded_from(
                    encoding@.subrange(44 * k, 44 * k + 44),
                ),
        decreases count - i,
    {
        let item = match Withdrawal::deserialize(slice_subrange(encoding, 44 * i, 44 * i + 44)) {
            Ok(item) => item,
            Err(error) => {
                return Err(error);
            },
        };
        items.push(item);
        i = i + 1;
    }
    List::try_from(items)
}

/// The encoding of withdrawals takes forty-four bytes for each, and
/// decoding it gives the withdrawals back.
pub proof fn lemma_withdrawals_round_trip<const N: usize>(
    items: Seq<Withdrawal>,
    decoded: Result<List<Withdrawal, N>, DeserializeError>,
)
    requires
        items.len() <= N,
        decodes_withdrawals(withdrawals_encoding(items), decoded),
    ensures
        decoded is Ok,
        decoded->Ok_0@ == items,
{
    lemma_withdrawal_places(items);
    let encoding = withdrawals_encoding(items);
    assert forall|i: int| 0 <= i < items.len() implies decoded->Ok_0@[i] == items[i] by {
        items[i].lemma_encoding_decodes();
        assert(encoding.subrange(44 * i, 44 * i + 44) == items[i].encoding());
        items[i].lemma_decoded_is_self(decoded->Ok_0@[i], items[i].encoding());
    }
    assert(decoded->Ok_0@ =~= items);
}

proof fn lemma_withdrawal_places(items: Seq<Withdrawal>)
    ensures
        withdrawals_encoding(items).len() == 44 * items.len(),
        forall|i: int|
            0 <= i < items.len() ==> #[trigger] withdrawals_encoding(items).subrange(
                44 * i,
                44 * i + 44,
            ) == items[i].encoding(),
    decreases items.len(),
{
    if items.len() > 0 {
        let front = items.drop_last();
        lemma_withdrawal_places(front);
        items.last().lemma_encoding_decodes();
        let encoding = withdrawals_encoding(items);
        assert forall|i: int| 0 <= i < items.len() implies #[trigger] encoding.subrange(
            44 * i,
            44 * i + 44,
        ) == items[i].encoding() by {
            if i < front.len() {
                assert(encoding.subrange(44 * i, 44 * i + 44) =~= withdrawals_encoding(
                    front,
                ).subrange(44 * i, 44 * i + 44));
                assert(front[i] == items[i]);
            } else {
                assert(encoding.subrange(44 * i, 44 * i + 44) =~= items.last().encoding());
            }
        }
    }
}

impl<
    const BYTES_PER_LOGS_BLOOM: usize,
    const MAX_EXTRA_DATA_BYTES: usize,
    const MAX_BYTES_PER_TRANSACTION: usize,
    const MAX_TRANSACTIONS_PER_PAYLOAD: usize,
    const MAX_WITHDRAWALS_PER_PAYLOAD: usize,
> ExecutionPayload<
    BYTES_PER_LOGS_BLOOM,
    MAX_EXTRA_DATA_BYTES,
    MAX_BYTES_PER_TRANSACTION,
    MAX_TRANSACTIONS_PER_PAYLOAD,
    MAX_WITHDRAWALS_PER_PAYLOAD,
> {
    /// The encoding of the transactions: a table of offsets, then the
    /// transactions.
    pub open spec fn transactions_encoding(&self) -> Seq<u8> {
        items_encoding(views_of(self.transactions@))
    }

    /// The length of the encoding: the fixed part and the three parts of
    /// variable size.
    pub open spec fn encoded_len(&self) -> int {
        256 + BYTES_PER_LOGS_BLOOM + self.extra_data@.len() + item_start(
            views_of(self.transactions@),
            self.transactions@.len() as int,
        ) + 44 * self.withdrawals@.len()
    }

    /// The encoding: the fixed fields in order, with the offsets of the
    /// extra data, the transactions and the withdrawals in their places,
    /// then these three parts.
    pub open spec fn encoding(&self) -> Seq<u8> {
        let fixed = 256 + BYTES_PER_LOGS_BLOOM;
        let second = fixed + self.extra_data@.len();
        let third = second + self.transactions_encoding().len();
        self.parent_hash@ + self.fee_recipient@ + self.state_root@ + self.receipts_root@
            + self.logs_bloom@ + self.prev_randao@ + spec_u64_to_le_bytes(self.block_number)
            + spec_u64_to_le_bytes(self.gas_limit) + spec_u64_to_le_bytes(self.gas_used)
            + spec_u64_to_le_bytes(self.timestamp) + spec_u32_to_le_bytes(fixed as u32)
            + self.base_fee_per_gas@ + self.block_hash@ + spec_u32_to_le_bytes(second as u32)
            + spec_u32_to_le_bytes(third as u32) + self.extra_data@
            + self.transactions_encoding() + withdrawals_encoding(self.withdrawals@)
    }

    /// Encodes the payload. Fails exactly when the encoding would be
    /// longer than an offset can address.
    pub fn serialize(&self) -> (result: Result<Vec<u8>, SerializeError>)
        requires
            256 + BYTES_PER_LOGS_BLOOM <= u32::MAX,
        ensures
            self.encoded_len() <= u32::MAX ==> result is Ok && result->Ok_0@ == self.encoding(),
            self.encoded_len() > u32::MAX ==> result == Err::<Vec<u8>, SerializeError>(
                SerializeError::MaximumEncodingLengthExceeded(0xffff_ffff),
            ),
    {
        let limit: usize = 0xffff_ffff;
        let fixed: usize = 256 + BYTES_PER_LOGS_BLOOM;
        proof {
            lemma_lengths_sum_grows(
                views_of(self.transactions@),
                0,
                self.transactions@.len() as int,
            );
        }
        let transactions = match serialize_byte_lists(self.transactions.as_vec()) {
            Ok(bytes) => bytes,
            Err(error) => {
                return Err(error);
            },
        };
        let withdrawals = serialize_withdrawals(self.withdrawals.as_vec());
        proof {
            lemma_withdrawal_places(self.withdrawals@);
            lemma_items_encoding_len(views_of(self.transactions@));
        }
        if self.extra_data.len() > limit - fixed {
            return Err(SerializeError::MaximumEncodingLengthExceeded(limit));
        }
        let second: usize = fixed + self.extra_data.len();
        if transactions.len() > limit - second {
            return Err(SerializeError::MaximumEncodingLengthExceeded(limit));
        }
        let third: usize = second + transactions.len();
        if withdrawals.len() > limit - third {
            return Err(SerializeError::MaximumEncodingLengthExceeded(limit));
        }
        let mut bytes: Vec<u8> = Vec::new();
        self.parent_hash.serialize_into(&mut bytes);
        self.fee_recipient.serialize_into(&mut bytes);
        self.state_root.serialize_into(&mut bytes);
        self.receipts_root.serialize_into(&mut bytes);
        self.logs_bloom.serialize_into(&mut bytes);
        self.prev_randao.serialize_into(&mut bytes);
        self.block_number.serialize_into(&mut bytes);
        self.gas_limit.serialize_into(&mut bytes);
        self.gas_used.serialize_into(&mut bytes);
        self.timestamp.serialize_into(&mut bytes);
        write_offset(&mut bytes, fixed as u32);
        self.base_fee_per_gas.serialize_into(&mut bytes);
        self.block_hash.serialize_into(&mut bytes);
        write_offset(&mut bytes, second as u32);
        write_offset(&mut bytes, third as u32);
        self.extra_data.serialize_into(&mut bytes);
        append_bytes(&mut bytes, transactions.as_slice());
        append_bytes(&mut bytes, withdrawals.as_slice());
        proof {
            assert(bytes@ =~= self.encoding());
        }
        Ok(bytes)
    }

    /// What decoding `encoding` gives. The input must hold the fixed part;
    /// the three offsets in it must lay the three parts out in order from the
    /// end of the fixed part to the end of the input; the type must have a
    /// bloom filter of some length; and each part must decode, the extra data
    /// first, then the transactions, then the withdrawals. The first error on
    /// the way is the error of the whole.
    pub open spec fn decodes(encoding: Seq<u8>, result: Result<Self, DeserializeError>) -> bool {
        let l = BYTES_PER_LOGS_BLOOM as int;
        let fixed = 256 + l;
        let offsets = seq![
            offset_at(encoding, 180 + l),
            offset_at(encoding, 248 + l),
            offset_at(encoding, 252 + l),
        ];
        let ranges = variable_ranges(offsets, encoding.len());
        if encoding.len() < fixed {
            result == Err::<Self, DeserializeError>(
                DeserializeError::ExpectedFurtherInput {
                    provided: encoding.len() as usize,
                    expected: fixed as usize,
                },
            )
        } else {
            match offsets_error(offsets, fixed as nat, encoding.len(), 0) {
                Some(error) => result == Err::<Self, DeserializeError>(error),
                None => if BYTES_PER_LOGS_BLOOM == 0 {
                    result == Err::<Self, DeserializeError>(DeserializeError::InvalidBound(0))
                } else if ranges[0].1 - ranges[0].0 > MAX_EXTRA_DATA_BYTES {
                    result == Err::<Self, DeserializeError>(
                        DeserializeError::Bounded {
                            bound: MAX_EXTRA_DATA_BYTES,
                            provided: (ranges[0].1 - ranges[0].0) as usize,
                        },
                    )
                } else {
                    exists|
                        transactions: Result<
                            List<ByteList<MAX_BYTES_PER_TRANSACTION>, MAX_TRANSACTIONS_PER_PAYLOAD>,
                            DeserializeError,
                        >,
                        withdrawals: Result<
                            List<Withdrawal, MAX_WITHDRAWALS_PER_PAYLOAD>,
                            DeserializeError,
                        >,
                    |
                        {
                            &&& #[trigger] decodes_byte_lists(
                                encoding.subrange(ranges[1].0 as int, ranges[1].1 as int),
                                transactions,
                            )
                            &&& #[trigger] decodes_withdrawals(
                                encoding.subrange(ranges[2].0 as int, ranges[2].1 as int),
                                withdrawals,
                            )
                            &&& match transactions {
                                Err(error) => result == Err::<Self, DeserializeError>(error),
                                Ok(transactions) => match withdrawals {
                                    Err(error) => result == Err::<Self, DeserializeError>(error),
                                    Ok(withdrawals) => {
                                        &&& result is Ok
                                        &&& result->Ok_0.transactions == transactions
                                        &&& result->Ok_0.withdrawals == withdrawals
                                        &&& result->Ok_0.extra_data@ == encoding.subrange(
                                            ranges[0].0 as int,
                                            ranges[0].1 as int,
                                        )
                                        &&& result->Ok_0.fixed_fields_from(encoding)
                                    },
                                },
                            }
                        }
                },
            }
        }
    }

    /// Whether the fields of fixed size are what the bytes of `encoding`
    /// say, each at its place.
    pub open spec fn fixed_fields_from(&self, encoding: Seq<u8>) -> bool {
        let l = BYTES_PER_LOGS_BLOOM as int;
        &&& self.parent_hash@ == encoding.subrange(0, 32)
        &&& self.fee_recipient@ == encoding.subrange(32, 52)
        &&& self.state_root@ == encoding.subrange(52, 84)
        &&& self.receipts_root@ == encoding.subrange(84, 116)
        &&& self.logs_bloom@ == encoding.subrange(116, 116 + l)
        &&& self.prev_randao@ == encoding.subrange(116 + l, 148 + l)
        &&& self.block_number == spec_u64_from_le_bytes(encoding.subrange(148 + l, 156 + l))
        &&& self.gas_limit == spec_u64_from_le_bytes(encoding.subrange(156 + l, 164 + l))
        &&& self.gas_used == spec_u64_from_le_bytes(encoding.subrange(164 + l, 172 + l))
        &&& self.timestamp == spec_u64_from_le_bytes(encoding.subrange(172 + l, 180 + l))
        &&& self.base_fee_per_gas@ == encoding.subrange(184 + l, 216 + l)
        &&& self.block_hash@ == encoding.subrange(216 + l, 248 + l)
    }

    /// Decodes a payload.
    pub fn deserialize(encoding: &[u8]) -> (result: Result<Self, DeserializeError>)
        requires
            256 + BYTES_PER_LOGS_BLOOM <= u32::MAX,
        ensures
            Self::decodes(encoding@, result),
    {
        let l: usize = BYTES_PER_LOGS_BLOOM;
        let fixed: usize = 256 + l;
        let positions: Vec<usize> = vec![180 + l, 248 + l, 252 + l];
        let ghost offsets = seq![
            offset_at(encoding@, 180 + l),
            offset_at(encoding@, 248 + l),
            offset_at(encoding@, 252 + l),
        ];
        proof {
            assert(offsets_of(encoding@, positions@) =~= offsets);
        }
        let ranges = match split_variable_parts(encoding, fixed, &positions) {
            Ok(ranges) => ranges,
            Err(error) => {
                return Err(error);
            },
        };
        let ghost spans = variable_ranges(offsets, encoding.len() as nat);
        proof {
            lemma_valid_offsets_tile(offsets, fixed as nat, encoding.len() as nat);
            assert(ranges_view(ranges@).len() == ranges@.len());
            assert(ranges_view(ranges@)[0] == spans[0]);
            assert(ranges_view(ranges@)[1] == spans[1]);
            assert(ranges_view(ranges@)[2] == spans[2]);
        }
        let logs_bloom = match ByteVector::<BYTES_PER_LOGS_BLOOM>::deserialize(
            slice_subrange(encoding, 116, 116 + l),
        ) {
            Ok(value) => value,
            Err(error) => {
                return Err(error);
            },
        };
        let extra_data = match ByteList::<MAX_EXTRA_DATA_BYTES>::deserialize(
            slice_subrange(encoding, ranges[0].0, ranges[0].1),
        ) {
            Ok(value) => value,
            Err(error) => {
                return Err(error);
            },
        };
        let transactions_result = deserialize_byte_lists::<
            MAX_BYTES_PER_TRANSACTION,
            MAX_TRANSACTIONS_PER_PAYLOAD,
        >(slice_subrange(encoding, ranges[1].0, ranges[1].1));
        let withdrawals_result = deserialize_withdrawals::<MAX_WITHDRAWALS_PER_PAYLOAD>(
            slice_subrange(encoding, ranges[2].0, ranges[2].1),
        );
        let transactions = match transactions_result {
            Ok(value) => value,
            Err(error) => {
                return Err(error);
            },
        };
        let withdrawals = match withdrawals_result {
            Ok(value) => value,
            Err(error) => {
                return Err(error);
            },
        };
        Ok(
            ExecutionPayload {
                parent_hash: read_array(encoding, 0),
                fee_recipient: read_array(encoding, 32),
                state_root: read_array(encoding, 52),
                receipts_root: read_array(encoding, 84),
                logs_bloom,
                prev_randao: read_array(encoding, 116 + l),
                block_number: u64_from_le_bytes(slice_subrange(encoding, 148 + l, 156 + l)),
                gas_limit: u64_from_le_bytes(slice_subrange(encoding, 156 + l, 164 + l)),
                gas_used: u64_from_le_bytes(slice_subrange(encoding, 164 + l, 172 + l)),
                timestamp: u64_from_le_bytes(slice_subrange(encoding, 172 + l, 180 + l)),
                extra_data,
                base_fee_per_gas: read_array(encoding, 184 + l),
                block_hash: read_array(encoding, 216 + l),
                transactions,
                withdrawals,
            },
        )
    }
}

impl<
    const BYTES_PER_LOGS_BLOOM: usize,
    const MAX_EXTRA_DATA_BYTES: usize,
    const MAX_BYTES_PER_TRANSACTION: usize,
    const MAX_TRANSACTIONS_PER_PAYLOAD: usize,
    const MAX_WITHDRAWALS_PER_PAYLOAD: usize,
> ExecutionPayload<
    BYTES_PER_LOGS_BLOOM,
    MAX_EXTRA_DATA_BYTES,
    MAX_BYTES_PER_TRANSACTION,
    MAX_TRANSACTIONS_PER_PAYLOAD,
    MAX_WITHDRAWALS_PER_PAYLOAD,
> {
    /// The bloom filter has the length of its type, and the extra data,
    /// the transactions and the withdrawals keep their bounds.
    pub open spec fn wf(&self) -> bool {
        &&& self.logs_bloom.wf()
        &&& self.extra_data.wf()
        &&& self.transactions.wf()
        &&& self.withdrawals.wf()
        &&& forall|i: int|
            0 <= i < self.transactions@.len() ==> (#[trigger] self.transactions@[i]).wf()
    }

    /// Decoding the encoding of a payload gives a payload with the same
    /// fields.
    pub proof fn lemma_round_trip(&self, decoded: Result<Self, DeserializeError>)
        requires
            self.wf(),
            0 < BYTES_PER_LOGS_BLOOM,
            self.encoded_len() <= u32::MAX,
            Self::decodes(self.encoding(), decoded),
        ensures
            decoded is Ok,
            decoded->Ok_0.parent_hash == self.parent_hash,
            decoded->Ok_0.fee_recipient == self.fee_recipient,
            decoded->Ok_0.state_root == self.state_root,
            decoded->Ok_0.receipts_root == self.receipts_root,
            decoded->Ok_0.logs_bloom@ == self.logs_bloom@,
            decoded->Ok_0.prev_randao == self.prev_randao,
            decoded->Ok_0.block_number == self.block_number,
            decoded->Ok_0.gas_limit == self.gas_limit,
            decoded->Ok_0.gas_used == self.gas_used,
            decoded->Ok_0.timestamp == self.timestamp,
            decoded->Ok_0.extra_data@ == self.extra_data@,
            decoded->Ok_0.base_fee_per_gas == self.base_fee_per_gas,
            decoded->Ok_0.block_hash == self.block_hash,
            decoded->Ok_0.transactions@.len() == self.transactions@.len(),
            forall|i: int|
                0 <= i < self.transactions@.len() ==> (#[trigger] decoded->Ok_0.transactions@[i])@
                    == self.transactions@[i]@,
            decoded->Ok_0.withdrawals@ == self.withdrawals@,
    {
        let e = self.encoding();
        let l = BYTES_PER_LOGS_BLOOM as int;
        let fixed = 256 + l;
        let extra = self.extra_data@;
        let txs = self.transactions_encoding();
        let wds = withdrawals_encoding(self.withdrawals@);
        let second = fixed + extra.len();
        let third = second + txs.len();
        lemma_auto_spec_u64_to_from_le_bytes();
        lemma_auto_spec_u32_to_from_le_bytes();
        lemma_items_encoding_len(views_of(self.transactions@));
        lemma_withdrawal_places(self.withdrawals@);
        lemma_lengths_sum_grows(views_of(self.transactions@), 0, self.transactions@.len() as int);
        assert(e.len() == third + wds.len());
        assert(e.subrange(0, 32) =~= self.parent_hash@);
        assert(e.subrange(32, 52) =~= self.fee_recipient@);
        assert(e.subrange(52, 84) =~= self.state_root@);
        assert(e.subrange(84, 116) =~= self.receipts_root@);
        assert(e.subrange(116, 116 + l) =~= self.logs_bloom@);
        assert(e.subrange(116 + l, 148 + l) =~= self.prev_randao@);
        assert(e.subrange(148 + l, 156 + l) =~= spec_u64_to_le_bytes(self.block_number));
        assert(e.subrange(156 + l, 164 + l) =~= spec_u64_to_le_bytes(self.gas_limit));
        assert(e.subrange(164 + l, 172 + l) =~= spec_u64_to_le_bytes(self.gas_used));
        assert(e.subrange(172 + l, 180 + l) =~= spec_u64_to_le_bytes(self.timestamp));
        assert(e.subrange(180 + l, 184 + l) =~= spec_u32_to_le_bytes(fixed as u32));
        assert(e.subrange(184 + l, 216 + l) =~= self.base_fee_per_gas@);
        assert(e.subrange(216 + l, 248 + l) =~= self.block_hash@);
        assert(e.subrange(248 + l, 252 + l) =~= spec_u32_to_le_bytes(second as u32));
        assert(e.subrange(252 + l, 256 + l) =~= spec_u32_to_le_bytes(third as u32));
        assert(e.subrange(fixed, second) =~= extra);
        assert(e.subrange(second, third) =~= txs);
        assert(e.subrange(third, e.len() as int) =~= wds);
        let offsets = seq![
            offset_at(e, 180 + l),
            offset_at(e, 248 + l),
            offset_at(e, 252 + l),
        ];
        assert(offsets[0] == fixed && offsets[1] == second && offsets[2] == third);
        reveal_with_fuel(offsets_error, 5);
        assert(offsets_error(offsets, fixed as nat, e.len(), 0) is None);
        let ranges = variable_ranges(offsets, e.len());
        assert(ranges[0] == (fixed as nat, second as nat));
        assert(ranges[1] == (second as nat, third as nat));
        assert(ranges[2] == (third as nat, e.len()));
        let (transactions, withdrawals) = choose|
            transactions: Result<
                List<ByteList<MAX_BYTES_PER_TRANSACTION>, MAX_TRANSACTIONS_PER_PAYLOAD>,
                DeserializeError,
            >,
            withdrawals: Result<List<Withdrawal, MAX_WITHDRAWALS_PER_PAYLOAD>, DeserializeError>,
        |
            {
                &&& #[trigger] decodes_byte_lists(
                    e.subrange(ranges[1].0 as int, ranges[1].1 as int),
                    transactions,
                )
                &&& #[trigger] decodes_withdrawals(
                    e.subrange(ranges[2].0 as int, ranges[2].1 as int),
                    withdrawals,
                )
                &&& match transactions {
                    Err(error) => decoded == Err::<Self, DeserializeError>(error),
                    Ok(transactions) => match withdrawals {
                        Err(error) => decoded == Err::<Self, DeserializeError>(error),
                        Ok(withdrawals) => {
                            &&& decoded is Ok
                            &&& decoded->Ok_0.transactions == transactions
                            &&& decoded->Ok_0.withdrawals == withdrawals
                            &&& decoded->Ok_0.extra_data@ == e.subrange(
                                ranges[0].0 as int,
                                ranges[0].1 as int,
                            )
                            &&& decoded->Ok_0.fixed_fields_from(e)
                        },
                    },
                }
            };
        lemma_byte_lists_round_trip(self.transactions@, transactions);
        lemma_withdrawals_round_trip(self.withdrawals@, withdrawals);
        let other = decoded->Ok_0;
        assert(other.parent_hash =~= self.parent_hash);
        assert(other.fee_recipient =~= self.fee_recipient);
        assert(other.state_root =~= self.state_root);
        assert(other.receipts_root =~= self.receipts_root);
        assert(other.prev_randao =~= self.prev_randao);
        assert(other.base_fee_per_gas =~= self.base_fee_per_gas);
        assert(other.block_hash =~= self.block_hash);
    }
}

} // verus!
