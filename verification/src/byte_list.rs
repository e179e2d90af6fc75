//! A string of bytes with a bound on its length.

use crate::merkle::{mix_in_length, mix_in_length_spec};
use crate::ssz::{
    append_bytes, bytes_root, copy_bytes, hash_bytes, Composite, DeserializeError, Merkleized,
    Serialize,
};
use vstd::prelude::*;

verus! {

/// At most `N` bytes. Encoded as the bytes themselves; the root mixes the
/// length in.
#[derive(Debug, PartialEq, Eq, Hash)]
pub struct ByteList<const N: usize> {
    bytes: Vec<u8>,
}

impl<const N: usize> View for ByteList<N> {
    type V = Seq<u8>;

    closed spec fn view(&self) -> Seq<u8> {
        self.bytes@
    }
}

/// The root of a list of `bytes` with bound `bound`.
pub open spec fn byte_list_root(bytes: Seq<u8>, bound: nat) -> Seq<u8> {
    mix_in_length_spec(bytes_root(bytes, bound), bytes.len() as u64)
}

impl<const N: usize> ByteList<N> {
    /// The list keeps its bound.
    pub open spec fn wf(&self) -> bool {
        self@.len() <= N
    }

    /// The empty list.
    pub fn new() -> (list: Self)
        ensures
            list@ == Seq::<u8>::empty(),
            list.wf(),
    {
        ByteList { bytes: Vec::new() }
    }

    /// What decoding `encoding` gives: the list of these bytes where they
    /// are `N` at most, else the error that holds the bound and their number.
    pub open spec fn decodes(encoding: Seq<u8>, result: Result<Self, DeserializeError>) -> bool {
        if encoding.len() <= N {
            result is Ok && result->Ok_0@ == encoding && result->Ok_0.wf()
        } else {
            result == Err::<Self, DeserializeError>(
                DeserializeError::Bounded { bound: N, provided: encoding.len() as usize },
            )
        }
    }

    /// The list of the given bytes; fails exactly when they are more than
    /// `N`.
    pub fn try_from(bytes: &[u8]) -> (result: Result<Self, DeserializeError>)
        ensures
            Self::decodes(bytes@, result),
    {
        Self::deserialize(bytes)
    }

    /// Decodes a list: the input holds the bytes and nothing else; fails
    /// exactly when they are more than `N`.
    pub fn deserialize(encoding: &[u8]) -> (result: Result<Self, DeserializeError>)
        ensures
            Self::decodes(encoding@, result),
    {
        if encoding.len() > N {
            Err(DeserializeError::Bounded { bound: N, provided: encoding.len() })
        } else {
            Ok(ByteList { bytes: copy_bytes(encoding) })
        }
    }

    /// The number of bytes held.
    pub fn len(&self) -> (n: usize)
        ensures
            n == self@.len(),
    {
        self.bytes.len()
    }

    /// The bytes held.
    pub fn as_ref(&self) -> (bytes: &[u8])
        ensures
            bytes@ == self@,
    {
        self.bytes.as_slice()
    }
}

impl<const N: usize> Clone for ByteList<N> {
    fn clone(&self) -> (copy: Self)
        ensures
            copy@ == self@,
    {
        ByteList { bytes: copy_bytes(self.bytes.as_slice()) }
    }
}

impl<const N: usize> Default for ByteList<N> {
    fn default() -> (list: Self)
        ensures
            list@ == Seq::<u8>::empty(),
    {
        ByteList { bytes: Vec::new() }
    }
}

impl<const N: usize> Serialize for ByteList<N> {
    open spec fn encoding(&self) -> Seq<u8> {
        self@
    }

    fn serialize_into(&self, buffer: &mut Vec<u8>) {
        append_bytes(buffer, self.bytes.as_slice());
    }
}

impl<const N: usize> Composite for ByteList<N> {

}

impl<const N: usize> Merkleized for ByteList<N> {
    open spec fn root_spec(&self) -> Seq<u8> {
        byte_list_root(self@, N as nat)
    }

    fn hash_tree_root(&self) -> (root: [u8; 32]) {
        let data_root = hash_bytes(self.bytes.as_slice(), N);
        mix_in_length(&data_root, self.bytes.len() as u64)
    }
}

/// The root of a list depends on nothing but its bytes and its bound.
pub proof fn lemma_byte_list_root_by_bytes<const N: usize>(list: ByteList<N>, other: ByteList<N>)
    requires
        list@ == other@,
    ensures
        list.root_spec() == other.root_spec(),
        list.encoding() == other.encoding(),
{
}

/// Decoding the encoding of a list that keeps its bound gives the list back.
pub proof fn lemma_byte_list_round_trip<const N: usize>(
    list: ByteList<N>,
    decoded: Result<ByteList<N>, DeserializeError>,
)
    requires
        list.wf(),
        ByteList::<N>::decodes(list.encoding(), decoded),
    ensures
        decoded is Ok,
        decoded->Ok_0@ == list@,
{
}

} // verus!
