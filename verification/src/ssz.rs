//! The interfaces every encodable type offers: a canonical byte encoding
//! and a Merkle root.

use crate::math::{ceil_log2, log2};
use crate::merkle::{
    merkle_root, merkle_root_of, pack_bytes, pack_bytes_spec, uint64_chunk, uint64_root,
};
use vstd::bytes::{
    lemma_auto_spec_u64_to_from_le_bytes, spec_u64_from_le_bytes, spec_u64_to_le_bytes,
    u64_from_le_bytes, u64_to_le_bytes,
};
use vstd::prelude::*;

verus! {

/// Why a byte string is not the encoding of a value of the type asked for.
#[derive(Clone, Copy, Debug, PartialEq, Eq, Structural)]
pub enum DeserializeError {
    /// The input is shorter than the type's encoding.
    ExpectedFurtherInput { provided: usize, expected: usize },
    /// The input is longer than the type's encoding.
    AdditionalInput { provided: usize, expected: usize },
    /// A byte that no value of the type encodes to.
    InvalidByte(u8),
    /// More elements than the collection's bound allows.
    Bounded { bound: usize, provided: usize },
    /// The type has a bound that allows no value.
    InvalidBound(usize),
    /// The first offset of a list is no whole number of offsets.
    InvalidOffsetsLength(usize),
    /// The first offset does not point at the end of the fixed part.
    OffsetOutOfPlace { offset: usize, expected: usize },
    /// An offset points before the offset of the field before it.
    OffsetNotIncreasing { start: usize, end: usize },
}

/// Why a value could not be encoded.
#[derive(Clone, Copy, Debug, PartialEq, Eq, Structural)]
pub enum SerializeError {
    /// The encoding would be longer than an offset can address; holds the
    /// greatest length that one can.
    MaximumEncodingLengthExceeded(usize),
}

/// A type with a Merkle root.
pub trait Merkleized {
    /// The root of the value.
    spec fn root_spec(&self) -> Seq<u8>;

    /// Computes the root of the value.
    fn hash_tree_root(&self) -> (root: [u8; 32])
        ensures
            root@ == self.root_spec(),
    ;
}

/// A type whose values stand in the tree of a collection by their roots,
/// one chunk each. Numbers and truth values are not of this kind: they are
/// packed, several to a chunk.
pub trait Composite: Merkleized {

}

/// The root is a function of the value: whatever two computations of the
/// root of equal values return is the same chunk.
pub proof fn lemma_root_is_determined<T: Merkleized>(
    value: T,
    other: T,
    root: [u8; 32],
    other_root: [u8; 32],
)
    requires
        value == other,
        root@ == value.root_spec(),
        other_root@ == other.root_spec(),
    ensures
        root == other_root,
{
    assert(root =~= other_root);
}

/// A type with a canonical byte encoding.
pub trait Serialize {
    /// The encoding of the value.
    spec fn encoding(&self) -> Seq<u8>;

    /// Appends the encoding of the value to `buffer`.
    fn serialize_into(&self, buffer: &mut Vec<u8>)
        ensures
            final(buffer)@ == old(buffer)@ + self.encoding(),
    ;
}

/// The canonical encoding of a value.
pub fn serialize<T: Serialize>(value: &T) -> (result: Result<Vec<u8>, SerializeError>)
    ensures
        result is Ok,
        result->Ok_0@ == value.encoding(),
{
    let mut buffer: Vec<u8> = Vec::new();
    value.serialize_into(&mut buffer);
    proof {
        assert(Seq::<u8>::empty() + value.encoding() =~= value.encoding());
    }
    Ok(buffer)
}

/// The root of a string of bytes under a tree with room for `chunk_limit`
/// chunks.
pub open spec fn packed_root(bytes: Seq<u8>, chunk_limit: nat) -> Seq<u8> {
    merkle_root(pack_bytes_spec(bytes), ceil_log2(chunk_limit))
}

/// The root of a string of bytes that fills `capacity` bytes at most: the
/// bytes in chunks, under a tree with room for the chunks of `capacity` bytes.
pub open spec fn bytes_root(bytes: Seq<u8>, capacity: nat) -> Seq<u8> {
    packed_root(bytes, (capacity + 31) / 32)
}

/// Computes the root of a string of bytes under a tree with room for
/// `chunk_limit` chunks.
pub fn hash_packed(bytes: &[u8], chunk_limit: usize) -> (root: [u8; 32])
    ensures
        root@ == packed_root(bytes@, chunk_limit as nat),
{
    let chunks = pack_bytes(bytes);
    merkle_root_of(&chunks, log2(chunk_limit))
}

/// Computes the root of a string of bytes that fills `capacity` bytes at most.
pub fn hash_bytes(bytes: &[u8], capacity: usize) -> (root: [u8; 32])
    ensures
        root@ == bytes_root(bytes@, capacity as nat),
{
    let room: usize = capacity / 32 + (if capacity % 32 == 0 {
        0
    } else {
        1
    });
    hash_packed(bytes, room)
}

/// A copy of the bytes of a slice.
pub fn copy_bytes(bytes: &[u8]) -> (copy: Vec<u8>)
    ensures
        copy@ == bytes@,
{
    let mut copy: Vec<u8> = Vec::with_capacity(bytes.len());
    let mut i: usize = 0;
    while i < bytes.len()
        invariant
            i <= bytes.len(),
            copy@ == bytes@.take(i as int),
        decreases bytes.len() - i,
    {
        copy.push(bytes[i]);
        i = i + 1;
        proof {
            assert(copy@ =~= bytes@.take(i as int));
        }
    }
    proof {
        assert(bytes@.take(bytes.len() as int) =~= bytes@);
    }
    copy
}

/// Appends a copy of `bytes` to `buffer`.
pub fn append_bytes(buffer: &mut Vec<u8>, bytes: &[u8])
    ensures
        final(buffer)@ == old(buffer)@ + bytes@,
{
    let mut i: usize = 0;
    proof {
        assert(buffer@ =~= old(buffer)@ + bytes@.take(0));
    }
    while i < bytes.len()
        invariant
            i <= bytes.len(),
            buffer@ == old(buffer)@ + bytes@.take(i as int),
        decreases bytes.len() - i,
    {
        buffer.push(bytes[i]);
        i = i + 1;
        proof {
            assert(buffer@ =~= old(buffer)@ + bytes@.take(i as int));
        }
    }
    proof {
        assert(bytes@.take(bytes.len() as int) =~= bytes@);
    }
}

impl Merkleized for u64 {
    open spec fn root_spec(&self) -> Seq<u8> {
        uint64_chunk(*self)
    }

    fn hash_tree_root(&self) -> (root: [u8; 32]) {
        uint64_root(*self)
    }
}

impl Serialize for u64 {
    open spec fn encoding(&self) -> Seq<u8> {
        spec_u64_to_le_bytes(*self)
    }

    fn serialize_into(&self, buffer: &mut Vec<u8>) {
        let bytes = u64_to_le_bytes(*self);
        append_bytes(buffer, bytes.as_slice());
    }
}

/// Decodes a 64-bit number: exactly eight bytes, little-endian.
pub fn deserialize_u64(bytes: &[u8]) -> (result: Result<u64, DeserializeError>)
    ensures
        bytes@.len() == 8 ==> result is Ok && result->Ok_0.encoding() == bytes@ && result->Ok_0
            == spec_u64_from_le_bytes(bytes@),
        bytes@.len() < 8 ==> result == Err::<u64, DeserializeError>(
            DeserializeError::ExpectedFurtherInput { provided: bytes.len(), expected: 8 },
        ),
        bytes@.len() > 8 ==> result == Err::<u64, DeserializeError>(
            DeserializeError::AdditionalInput { provided: bytes.len(), expected: 8 },
        ),
{
    if bytes.len() < 8 {
        Err(DeserializeError::ExpectedFurtherInput { provided: bytes.len(), expected: 8 })
    } else if bytes.len() > 8 {
        Err(DeserializeError::AdditionalInput { provided: bytes.len(), expected: 8 })
    } else {
        proof {
            lemma_auto_spec_u64_to_from_le_bytes();
        }
        Ok(u64_from_le_bytes(bytes))
    }
}

impl Merkleized for bool {
    open spec fn root_spec(&self) -> Seq<u8> {
        uint64_chunk(
            if *self {
                1u64
            } else {
                0u64
            },
        )
    }

    fn hash_tree_root(&self) -> (root: [u8; 32]) {
        if *self {
            uint64_root(1)
        } else {
            uint64_root(0)
        }
    }
}

impl Serialize for bool {
    open spec fn encoding(&self) -> Seq<u8> {
        seq![if *self {
            1u8
        } else {
            0u8
        }]
    }

    fn serialize_into(&self, buffer: &mut Vec<u8>) {
        if *self {
            buffer.push(1u8);
        } else {
            buffer.push(0u8);
        }
        proof {
            assert(buffer@ =~= old(buffer)@ + self.encoding());
        }
    }
}

/// Decodes a truth value: zero is false, one is true, no other byte is
/// an encoding.
pub fn read_bool(byte: u8) -> (result: Result<bool, DeserializeError>)
    ensures
        byte <= 1 ==> result == Ok::<bool, DeserializeError>(byte == 1),
        byte > 1 ==> result == Err::<bool, DeserializeError>(DeserializeError::InvalidByte(byte)),
{
    if byte == 0 {
        Ok(false)
    } else if byte == 1 {
        Ok(true)
    } else {
        Err(DeserializeError::InvalidByte(byte))
    }
}

/// The `N` bytes of `bytes` that begin at `start`.
pub fn read_array<const N: usize>(bytes: &[u8], start: usize) -> (array: [u8; N])
    requires
        start + N <= bytes.len(),
    ensures
        array@ == bytes@.subrange(start as int, start + N),
{
    let mut array: [u8; N] = [0u8; N];
    let mut i: usize = 0;
    while i < N
        invariant
            i <= N,
            start + N <= bytes.len(),
            forall|k: int| 0 <= k < i ==> array@[k] == bytes@[start + k],
        decreases N - i,
    {
        array[i] = bytes[start + i];
        i = i + 1;
    }
    proof {
        assert(array@ =~= bytes@.subrange(start as int, start + N));
    }
    array
}

impl<const N: usize> Merkleized for [u8; N] {
    open spec fn root_spec(&self) -> Seq<u8> {
        bytes_root(self@, N as nat)
    }

    fn hash_tree_root(&self) -> (root: [u8; 32]) {
        hash_bytes(self.as_slice(), N)
    }
}

impl<const N: usize> Composite for [u8; N] {

}

impl<const N: usize> Serialize for [u8; N] {
    open spec fn encoding(&self) -> Seq<u8> {
        self@
    }

    fn serialize_into(&self, buffer: &mut Vec<u8>) {
        append_bytes(buffer, self.as_slice());
    }
}

} // verus!
