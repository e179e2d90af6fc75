//! A string of bytes of a fixed length.

use crate::ssz::{
    append_bytes, bytes_root, copy_bytes, hash_bytes, Composite, DeserializeError, Merkleized,
    Serialize,
};
use vstd::prelude::*;

verus! {

/// Exactly `N` bytes. Encoded as the bytes themselves.
#[derive(Debug, PartialEq, Eq, Hash)]
pub struct ByteVector<const N: usize> {
    bytes: Vec<u8>,
}

impl<const N: usize> View for ByteVector<N> {
    type V = Seq<u8>;

    closed spec fn view(&self) -> Seq<u8> {
        self.bytes@
    }
}

impl<const N: usize> ByteVector<N> {
    /// The vector has its length.
    pub open spec fn wf(&self) -> bool {
        self@.len() == N
    }

    /// The vector of the given bytes; fails exactly when they are not `N`
    /// bytes, or `N` is zero.
    pub fn try_from(bytes: &[u8]) -> (result: Result<Self, DeserializeError>)
        ensures
            Self::decodes(bytes@, result),
    {
        Self::deserialize(bytes)
    }

    /// What decoding `encoding` gives: the vector of these bytes where they
    /// are `N` and `N` is not zero, else the error that says what is wrong.
    pub open spec fn decodes(encoding: Seq<u8>, result: Result<Self, DeserializeError>) -> bool {
        if N == 0 {
            result == Err::<Self, DeserializeError>(DeserializeError::InvalidBound(N))
        } else if encoding.len() < N {
            result == Err::<Self, DeserializeError>(
                DeserializeError::ExpectedFurtherInput {
                    provided: encoding.len() as usize,
                    expected: N,
                },
            )
        } else if encoding.len() > N {
            result == Err::<Self, DeserializeError>(
                DeserializeError::AdditionalInput {
                    provided: encoding.len() as usize,
                    expected: N,
                },
            )
        } else {
            result is Ok && result->Ok_0@ == encoding && result->Ok_0.wf()
        }
    }

    /// Decodes a vector: the input holds the `N` bytes and nothing else.
    pub fn deserialize(encoding: &[u8]) -> (result: Result<Self, DeserializeError>)
        ensures
            Self::decodes(encoding@, result),
    {
        if N == 0 {
            Err(DeserializeError::InvalidBound(N))
        } else if encoding.len() < N {
            Err(DeserializeError::ExpectedFurtherInput { provided: encoding.len(), expected: N })
        } else if encoding.len() > N {
            Err(DeserializeError::AdditionalInput { provided: encoding.len(), expected: N })
        } else {
            Ok(ByteVector { bytes: copy_bytes(encoding) })
        }
    }

    /// The bytes held.
    pub fn as_ref(&self) -> (bytes: &[u8])
        ensures
            bytes@ == self@,
    {
        self.bytes.as_slice()
    }
}

impl<const N: usize> Clone for ByteVector<N> {
    fn clone(&self) -> (copy: Self)
        ensures
            copy@ == self@,
    {
        ByteVector { bytes: copy_bytes(self.bytes.as_slice()) }
    }
}

impl<const N: usize> Default for ByteVector<N> {
    /// The vector of `N` zeros.
    fn default() -> (vector: Self)
        ensures
            vector@ == Seq::new(N as nat, |i: int| 0u8),
            vector.wf(),
    {
        let mut bytes: Vec<u8> = Vec::with_capacity(N);
        let mut i: usize = 0;
        while i < N
            invariant
                i <= N,
                bytes@ == Seq::new(i as nat, |k: int| 0u8),
            decreases N - i,
        {
            bytes.push(0u8);
            i = i + 1;
            proof {
                assert(bytes@ =~= Seq::new(i as nat, |k: int| 0u8));
            }
        }
        ByteVector { bytes }
    }
}

impl<const N: usize> Serialize for ByteVector<N> {
    open spec fn encoding(&self) -> Seq<u8> {
        self@
    }

    fn serialize_into(&self, buffer: &mut Vec<u8>) {
        append_bytes(buffer, self.bytes.as_slice());
    }
}

impl<const N: usize> Composite for ByteVector<N> {

}

impl<const N: usize> Merkleized for ByteVector<N> {
    open spec fn root_spec(&self) -> Seq<u8> {
        bytes_root(self@, N as nat)
    }

    fn hash_tree_root(&self) -> (root: [u8; 32]) {
        hash_bytes(self.bytes.as_slice(), N)
    }
}

/// Decoding the encoding of a vector that has its length gives the vector
/// back.
pub proof fn lemma_byte_vector_round_trip<const N: usize>(
    vector: ByteVector<N>,
    decoded: Result<ByteVector<N>, DeserializeError>,
)
    requires
        vector.wf(),
        N > 0,
        ByteVector::<N>::decodes(vector.encoding(), decoded),
    ensures
        decoded is Ok,
        decoded->Ok_0@ == vector@,
{
}

} // verus!
