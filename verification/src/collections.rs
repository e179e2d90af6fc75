//! Collections of encodable values: bounded lists, vectors of a fixed
//! length, and vectors of bits.

use crate::math::{ceil_log2, log2};
use crate::merkle::{chunk_views, merkle_root, merkle_root_of, mix_in_length, mix_in_length_spec};
use crate::ssz::{
    bytes_root, hash_bytes, hash_packed, packed_root, Composite, DeserializeError, Merkleized,
    Serialize,
};
use vstd::bytes::{
    lemma_auto_spec_u64_to_from_le_bytes, spec_u64_from_le_bytes, spec_u64_to_le_bytes,
    u64_from_le_bytes, u64_to_le_bytes,
};
use vstd::prelude::*;
use vstd::slice::slice_subrange;

verus! {

/// The roots of the elements, in order.
pub open spec fn roots_of<T: Composite>(items: Seq<T>) -> Seq<Seq<u8>> {
    Seq::new(items.len(), |i: int| items[i].root_spec())
}

/// Computes the root of each element.
pub fn element_roots<T: Composite>(items: &Vec<T>) -> (chunks: Vec<[u8; 32]>)
    ensures
        chunk_views(chunks@) == roots_of(items@),
{
    let mut chunks: Vec<[u8; 32]> = Vec::with_capacity(items.len());
    let mut i: usize = 0;
    while i < items.len()
        invariant
            i <= items.len(),
            chunks.len() == i,
            forall|k: int| 0 <= k < i ==> (#[trigger] chunks@[k])@ == items@[k].root_spec(),
        decreases items.len() - i,
    {
        chunks.push(items[i].hash_tree_root());
        i = i + 1;
    }
    proof {
        assert(chunk_views(chunks@) =~= roots_of(items@));
    }
    chunks
}

/// At most `N` elements, each of which stands in the tree by its root.
#[derive(Clone, Debug, PartialEq, Eq)]
pub struct List<T, const N: usize> {
    items: Vec<T>,
}

impl<T, const N: usize> View for List<T, N> {
    type V = Seq<T>;

    closed spec fn view(&self) -> Seq<T> {
        self.items@
    }
}

impl<T, const N: usize> List<T, N> {
    /// The list keeps its bound.
    pub open spec fn wf(&self) -> bool {
        self@.len() <= N
    }

    /// The empty list.
    pub fn new() -> (list: Self)
        ensures
            list@ == Seq::<T>::empty(),
            list.wf(),
    {
        List { items: Vec::new() }
    }

    /// The list of the given elements; fails exactly when they are more than
    /// `N`.
    pub fn try_from(items: Vec<T>) -> (result: Result<Self, DeserializeError>)
        ensures
            items@.len() <= N ==> result is Ok && result->Ok_0@ == items@ && result->Ok_0.wf(),
            items@.len() > N ==> result == Err::<Self, DeserializeError>(
                DeserializeError::Bounded { bound: N, provided: items.len() },
            ),
    {
        if items.len() > N {
            Err(DeserializeError::Bounded { bound: N, provided: items.len() })
        } else {
            Ok(List { items })
        }
    }

    /// The number of elements held.
    pub fn len(&self) -> (n: usize)
        ensures
            n == self@.len(),
    {
        self.items.len()
    }

    /// The element at position `i`.
    pub fn get(&self, i: usize) -> (item: &T)
        requires
            i < self@.len(),
        ensures
            *item == self@[i as int],
    {
        &self.items[i]
    }

    /// The elements held.
    pub fn as_vec(&self) -> (items: &Vec<T>)
        ensures
            items@ == self@,
    {
        &self.items
    }
}

/// The root of a list of elements with the given roots and bound.
pub open spec fn list_root(roots: Seq<Seq<u8>>, bound: nat) -> Seq<u8> {
    mix_in_length_spec(merkle_root(roots, ceil_log2(bound)), roots.len() as u64)
}

impl<T: Composite, const N: usize> Composite for List<T, N> {

}

impl<T: Composite, const N: usize> Merkleized for List<T, N> {
    open spec fn root_spec(&self) -> Seq<u8> {
        list_root(roots_of(self@), N as nat)
    }

    fn hash_tree_root(&self) -> (root: [u8; 32]) {
        let chunks = element_roots(&self.items);
        let data_root = merkle_root_of(&chunks, log2(N));
        mix_in_length(&data_root, self.items.len() as u64)
    }
}

/// Exactly `N` elements, each of which stands in the tree by its root.
#[derive(Clone, Debug, PartialEq, Eq)]
pub struct Vector<T, const N: usize> {
    items: Vec<T>,
}

impl<T, const N: usize> View for Vector<T, N> {
    type V = Seq<T>;

    closed spec fn view(&self) -> Seq<T> {
        self.items@
    }
}

impl<T, const N: usize> Vector<T, N> {
    /// The vector has its length.
    pub open spec fn wf(&self) -> bool {
        self@.len() == N
    }

    /// The vector of the given elements; fails exactly when they are not
    /// `N`, or `N` is zero.
    pub fn try_from(items: Vec<T>) -> (result: Result<Self, DeserializeError>)
        ensures
            N == 0 ==> result == Err::<Self, DeserializeError>(DeserializeError::InvalidBound(N)),
            N > 0 && items@.len() == N ==> result is Ok && result->Ok_0@ == items@
                && result->Ok_0.wf(),
            N > 0 && items@.len() < N ==> result == Err::<Self, DeserializeError>(
                DeserializeError::ExpectedFurtherInput { provided: items.len(), expected: N },
            ),
            N > 0 && items@.len() > N ==> result == Err::<Self, DeserializeError>(
                DeserializeError::AdditionalInput { provided: items.len(), expected: N },
            ),
    {
        if N == 0 {
            Err(DeserializeError::InvalidBound(N))
        } else if items.len() < N {
            Err(DeserializeError::ExpectedFurtherInput { provided: items.len(), expected: N })
        } else if items.len() > N {
            Err(DeserializeError::AdditionalInput { provided: items.len(), expected: N })
        } else {
            Ok(Vector { items })
        }
    }

    /// The elements held.
    pub fn as_vec(&self) -> (items: &Vec<T>)
        ensures
            items@ == self@,
    {
        &self.items
    }

    /// The number of elements held.
    pub fn len(&self) -> (n: usize)
        ensures
            n == self@.len(),
    {
        self.items.len()
    }

    /// The element at position `i`.
    pub fn get(&self, i: usize) -> (item: &T)
        requires
            i < self@.len(),
        ensures
            *item == self@[i as int],
    {
        &self.items[i]
    }
}

impl<T: Copy, const N: usize> Vector<T, N> {
    /// A copy of the vector.
    pub fn duplicate(&self) -> (copy: Self)
        ensures
            copy@ == self@,
    {
        let mut items: Vec<T> = Vec::with_capacity(self.items.len());
        let mut i: usize = 0;
        while i < self.items.len()
            invariant
                i <= self.items.len(),
                items.len() == i,
                forall|k: int| 0 <= k < i ==> #[trigger] items@[k] == self.items@[k],
            decreases self.items.len() - i,
        {
            items.push(self.items[i]);
            i = i + 1;
        }
        proof {
            assert(items@ =~= self.items@);
        }
        Vector { items }
    }
}

/// The root of a vector of `length` elements with the given roots.
pub open spec fn vector_root(roots: Seq<Seq<u8>>, length: nat) -> Seq<u8> {
    merkle_root(roots, ceil_log2(length))
}

impl<T: Composite, const N: usize> Composite for Vector<T, N> {

}

impl<T: Composite, const N: usize> Merkleized for Vector<T, N> {
    open spec fn root_spec(&self) -> Seq<u8> {
        vector_root(roots_of(self@), N as nat)
    }

    fn hash_tree_root(&self) -> (root: [u8; 32]) {
        let chunks = element_roots(&self.items);
        merkle_root_of(&chunks, log2(N))
    }
}

/// The number of bits set among the first `n`.
pub open spec fn count_set(bits: Seq<bool>, n: nat) -> nat
    decreases n,
{
    if n == 0 || n > bits.len() {
        0
    } else {
        count_set(bits, (n - 1) as nat) + (if bits[n - 1] {
            1nat
        } else {
            0nat
        })
    }
}

/// The bit at position `i`, as a number; zero behind the end.
pub open spec fn bit_at(bits: Seq<bool>, i: int) -> int {
    if 0 <= i < bits.len() && bits[i] {
        1
    } else {
        0
    }
}

/// Byte `k` of the encoding of bits: bit `8 * k` is the lowest.
#[verifier::opaque]
pub open spec fn bits_byte(bits: Seq<bool>, k: int) -> u8 {
    (bit_at(bits, 8 * k) + 2 * bit_at(bits, 8 * k + 1) + 4 * bit_at(bits, 8 * k + 2) + 8 * bit_at(
        bits,
        8 * k + 3,
    ) + 16 * bit_at(bits, 8 * k + 4) + 32 * bit_at(bits, 8 * k + 5) + 64 * bit_at(
        bits,
        8 * k + 6,
    ) + 128 * bit_at(bits, 8 * k + 7)) as u8
}

/// The encoding of `length` bits: eight to a byte, the lowest first, the
/// last byte filled up with zero bits.
pub open spec fn bits_encoding(bits: Seq<bool>, length: nat) -> Seq<u8> {
    Seq::new((length + 7) / 8, |k: int| bits_byte(bits, k))
}

fn bit_value(bits: &Vec<bool>, i: usize) -> (value: u8)
    ensures
        value == bit_at(bits@, i as int),
{
    if i < bits.len() && bits[i] {
        1
    } else {
        0
    }
}

fn byte_of(bits: &Vec<bool>, k: usize) -> (byte: u8)
    requires
        8 * k + 7 <= usize::MAX,
    ensures
        byte == bits_byte(bits@, k as int),
{
    proof {
        reveal(bits_byte);
    }
    let base: usize = 8 * k;
    bit_value(bits, base) + 2 * bit_value(bits, base + 1) + 4 * bit_value(bits, base + 2) + 8
        * bit_value(bits, base + 3) + 16 * bit_value(bits, base + 4) + 32 * bit_value(
        bits,
        base + 5,
    ) + 64 * bit_value(bits, base + 6) + 128 * bit_value(bits, base + 7)
}

/// Encodes `length` bits: eight to a byte, the lowest first.
pub fn bits_to_bytes(bits: &Vec<bool>, length: usize) -> (bytes: Vec<u8>)
    ensures
        bytes@ == bits_encoding(bits@, length as nat),
{
    let count: usize = length / 8 + (if length % 8 == 0 {
        0
    } else {
        1
    });
    let mut bytes: Vec<u8> = Vec::with_capacity(count);
    let mut k: usize = 0;
    while k < count
        invariant
            count == (length + 7) / 8,
            k <= count,
            bytes.len() == k,
            forall|j: int| 0 <= j < k ==> #[trigger] bytes@[j] == bits_byte(bits@, j),
        decreases count - k,
    {
        bytes.push(byte_of(bits, k));
        k = k + 1;
    }
    proof {
        assert(bytes@ =~= bits_encoding(bits@, length as nat));
    }
    bytes
}

/// The number of bits set in a vector of bits.
pub fn count_bits(bits: &Vec<bool>) -> (count: usize)
    ensures
        count == count_set(bits@, bits@.len()),
{
    let mut count: usize = 0;
    let mut i: usize = 0;
    while i < bits.len()
        invariant
            i <= bits.len(),
            count <= i,
            count == count_set(bits@, i as nat),
        decreases bits.len() - i,
    {
        if bits[i] {
            count = count + 1;
        }
        i = i + 1;
    }
    count
}

/// The weight of bit `j` of a byte: two to the power `j`.
pub open spec fn bit_weight(j: int) -> int {
    if j <= 0 {
        1
    } else if j == 1 {
        2
    } else if j == 2 {
        4
    } else if j == 3 {
        8
    } else if j == 4 {
        16
    } else if j == 5 {
        32
    } else if j == 6 {
        64
    } else {
        128
    }
}

/// The bits that the bytes of an encoding say: bit `i` is bit `i % 8` of
/// byte `i / 8`.
pub open spec fn bits_decoding(bytes: Seq<u8>, length: nat) -> Seq<bool> {
    Seq::new(length, |i: int| (bytes[i / 8] as int / bit_weight(i % 8)) % 2 == 1)
}

/// The weight of bit `j` of a byte.
pub fn weight_of(j: usize) -> (weight: u8)
    requires
        j < 8,
    ensures
        weight == bit_weight(j as int),
{
    if j == 0 {
        1
    } else if j == 1 {
        2
    } else if j == 2 {
        4
    } else if j == 3 {
        8
    } else if j == 4 {
        16
    } else if j == 5 {
        32
    } else if j == 6 {
        64
    } else {
        128
    }
}

/// Reads `length` bits from the bytes of an encoding.
pub fn bytes_to_bits(bytes: &[u8], length: usize) -> (bits: Vec<bool>)
    requires
        length <= 8 * bytes.len(),
    ensures
        bits@ == bits_decoding(bytes@, length as nat),
{
    let mut bits: Vec<bool> = Vec::with_capacity(length);
    let mut i: usize = 0;
    while i < length
        invariant
            i <= length,
            length <= 8 * bytes.len(),
            bits.len() == i,
            forall|k: int| 0 <= k < i ==> #[trigger] bits@[k] == bits_decoding(bytes@, length as nat)[k],
        decreases length - i,
    {
        let byte: u8 = bytes[i / 8];
        let weight: u8 = weight_of(i % 8);
        bits.push((byte / weight) % 2 == 1);
        i = i + 1;
    }
    proof {
        assert(bits@ =~= bits_decoding(bytes@, length as nat));
    }
    bits
}

proof fn lemma_middle_bit(low: int, d: int, b: int, high: int)
    requires
        0 <= low < d,
        0 <= b <= 1,
    ensures
        ((low + d * (b + 2 * high)) / d) % 2 == b,
{
    assert((low + d * (b + 2 * high)) / d == b + 2 * high) by (nonlinear_arith)
        requires
            0 <= low < d,
    ;
}

proof fn lemma_bit_of_sum(
    b0: int,
    b1: int,
    b2: int,
    b3: int,
    b4: int,
    b5: int,
    b6: int,
    b7: int,
    j: int,
)
    requires
        0 <= b0 <= 1,
        0 <= b1 <= 1,
        0 <= b2 <= 1,
        0 <= b3 <= 1,
        0 <= b4 <= 1,
        0 <= b5 <= 1,
        0 <= b6 <= 1,
        0 <= b7 <= 1,
        0 <= j < 8,
    ensures
        j == 0 ==> ((b0 + 2 * b1 + 4 * b2 + 8 * b3 + 16 * b4 + 32 * b5 + 64 * b6 + 128 * b7) / 1)
            % 2 == b0,
        j == 1 ==> ((b0 + 2 * b1 + 4 * b2 + 8 * b3 + 16 * b4 + 32 * b5 + 64 * b6 + 128 * b7) / 2)
            % 2 == b1,
        j == 2 ==> ((b0 + 2 * b1 + 4 * b2 + 8 * b3 + 16 * b4 + 32 * b5 + 64 * b6 + 128 * b7) / 4)
            % 2 == b2,
        j == 3 ==> ((b0 + 2 * b1 + 4 * b2 + 8 * b3 + 16 * b4 + 32 * b5 + 64 * b6 + 128 * b7) / 8)
            % 2 == b3,
        j == 4 ==> ((b0 + 2 * b1 + 4 * b2 + 8 * b3 + 16 * b4 + 32 * b5 + 64 * b6 + 128 * b7) / 16)
            % 2 == b4,
        j == 5 ==> ((b0 + 2 * b1 + 4 * b2 + 8 * b3 + 16 * b4 + 32 * b5 + 64 * b6 + 128 * b7) / 32)
            % 2 == b5,
        j == 6 ==> ((b0 + 2 * b1 + 4 * b2 + 8 * b3 + 16 * b4 + 32 * b5 + 64 * b6 + 128 * b7) / 64)
            % 2 == b6,
        j == 7 ==> ((b0 + 2 * b1 + 4 * b2 + 8 * b3 + 16 * b4 + 32 * b5 + 64 * b6 + 128 * b7) / 128)
            % 2 == b7,
{
    if j == 0 {
        lemma_middle_bit(0, 1, b0, b1 + 2 * b2 + 4 * b3 + 8 * b4 + 16 * b5 + 32 * b6 + 64 * b7);
    } else if j == 1 {
        lemma_middle_bit(b0, 2, b1, b2 + 2 * b3 + 4 * b4 + 8 * b5 + 16 * b6 + 32 * b7);
    } else if j == 2 {
        lemma_middle_bit(b0 + 2 * b1, 4, b2, b3 + 2 * b4 + 4 * b5 + 8 * b6 + 16 * b7);
    } else if j == 3 {
        lemma_middle_bit(b0 + 2 * b1 + 4 * b2, 8, b3, b4 + 2 * b5 + 4 * b6 + 8 * b7);
    } else if j == 4 {
        lemma_middle_bit(b0 + 2 * b1 + 4 * b2 + 8 * b3, 16, b4, b5 + 2 * b6 + 4 * b7);
    } else if j == 5 {
        lemma_middle_bit(b0 + 2 * b1 + 4 * b2 + 8 * b3 + 16 * b4, 32, b5, b6 + 2 * b7);
    } else if j == 6 {
        lemma_middle_bit(b0 + 2 * b1 + 4 * b2 + 8 * b3 + 16 * b4 + 32 * b5, 64, b6, b7);
    } else {
        lemma_middle_bit(b0 + 2 * b1 + 4 * b2 + 8 * b3 + 16 * b4 + 32 * b5 + 64 * b6, 128, b7, 0);
    }
}

/// Bit `j` of the byte that eight bits make is the `j`-th of them.
pub proof fn lemma_bit_of_byte(bits: Seq<bool>, k: int, j: int)
    requires
        0 <= j < 8,
    ensures
        ((bits_byte(bits, k) as int / bit_weight(j)) % 2 == 1) == (bit_at(bits, 8 * k + j) == 1),
        bits_byte(bits, k) as int == bit_at(bits, 8 * k) + 2 * bit_at(bits, 8 * k + 1) + 4 * bit_at(
            bits,
            8 * k + 2,
        ) + 8 * bit_at(bits, 8 * k + 3) + 16 * bit_at(bits, 8 * k + 4) + 32 * bit_at(
            bits,
            8 * k + 5,
        ) + 64 * bit_at(bits, 8 * k + 6) + 128 * bit_at(bits, 8 * k + 7),
{
    reveal(bits_byte);
    lemma_bit_of_sum(
        bit_at(bits, 8 * k),
        bit_at(bits, 8 * k + 1),
        bit_at(bits, 8 * k + 2),
        bit_at(bits, 8 * k + 3),
        bit_at(bits, 8 * k + 4),
        bit_at(bits, 8 * k + 5),
        bit_at(bits, 8 * k + 6),
        bit_at(bits, 8 * k + 7),
        j,
    );
}

/// In the last byte of the encoding of bits that do not fill it, the bits
/// behind the last one are zero.
pub proof fn lemma_padding_is_zero(bits: Seq<bool>)
    requires
        bits.len() % 8 != 0,
    ensures
        (bits_byte(bits, (bits.len() - 1) / 8) as int) < bit_weight((bits.len() % 8) as int),
{
    let k = (bits.len() - 1) / 8;
    let r = (bits.len() % 8) as int;
    assert(8 * k + r == bits.len());
    lemma_bit_of_byte(bits, k, 0);
    let b0 = bit_at(bits, 8 * k);
    let b1 = bit_at(bits, 8 * k + 1);
    let b2 = bit_at(bits, 8 * k + 2);
    let b3 = bit_at(bits, 8 * k + 3);
    let b4 = bit_at(bits, 8 * k + 4);
    let b5 = bit_at(bits, 8 * k + 5);
    let b6 = bit_at(bits, 8 * k + 6);
    let b7 = bit_at(bits, 8 * k + 7);
    assert(b7 == 0);
    assert(r <= 6 ==> b6 == 0);
    assert(r <= 5 ==> b5 == 0);
    assert(r <= 4 ==> b4 == 0);
    assert(r <= 3 ==> b3 == 0);
    assert(r <= 2 ==> b2 == 0);
    assert(r <= 1 ==> b1 == 0);
    assert(0 <= b0 <= 1 && 0 <= b1 <= 1 && 0 <= b2 <= 1 && 0 <= b3 <= 1 && 0 <= b4 <= 1 && 0 <= b5
        <= 1 && 0 <= b6 <= 1);
}

/// Reading the bits of the encoding of bits gives the bits back.
pub proof fn lemma_bits_round_trip(bits: Seq<bool>)
    ensures
        bits_decoding(bits_encoding(bits, bits.len()), bits.len()) == bits,
{
    let bytes = bits_encoding(bits, bits.len());
    assert forall|i: int| 0 <= i < bits.len() implies bits_decoding(bytes, bits.len())[i]
        == bits[i] by {
        lemma_bit_of_byte(bits, i / 8, i % 8);
        assert(8 * (i / 8) + i % 8 == i);
        assert(bytes[i / 8] == bits_byte(bits, i / 8));
    }
    assert(bits_decoding(bytes, bits.len()) =~= bits);
}

/// Exactly `N` bits.
#[derive(Clone, Debug, PartialEq, Eq)]
pub struct Bitvector<const N: usize> {
    bits: Vec<bool>,
}

impl<const N: usize> View for Bitvector<N> {
    type V = Seq<bool>;

    closed spec fn view(&self) -> Seq<bool> {
        self.bits@
    }
}

impl<const N: usize> Bitvector<N> {
    /// The vector has its length.
    pub open spec fn wf(&self) -> bool {
        self@.len() == N
    }

    /// The vector of the given bits; fails exactly when they are not `N`, or
    /// `N` is zero.
    pub fn try_from(bits: Vec<bool>) -> (result: Result<Self, DeserializeError>)
        ensures
            N == 0 ==> result == Err::<Self, DeserializeError>(DeserializeError::InvalidBound(N)),
            N > 0 && bits@.len() == N ==> result is Ok && result->Ok_0@ == bits@
                && result->Ok_0.wf(),
            N > 0 && bits@.len() < N ==> result == Err::<Self, DeserializeError>(
                DeserializeError::ExpectedFurtherInput { provided: bits.len(), expected: N },
            ),
            N > 0 && bits@.len() > N ==> result == Err::<Self, DeserializeError>(
                DeserializeError::AdditionalInput { provided: bits.len(), expected: N },
            ),
    {
        if N == 0 {
            Err(DeserializeError::InvalidBound(N))
        } else if bits.len() < N {
            Err(DeserializeError::ExpectedFurtherInput { provided: bits.len(), expected: N })
        } else if bits.len() > N {
            Err(DeserializeError::AdditionalInput { provided: bits.len(), expected: N })
        } else {
            Ok(Bitvector { bits })
        }
    }

    /// The bit at position `i`.
    pub fn get(&self, i: usize) -> (bit: bool)
        requires
            i < self@.len(),
        ensures
            bit == self@[i as int],
    {
        self.bits[i]
    }

    /// The number of bits set.
    pub fn count_ones(&self) -> (count: usize)
        ensures
            count == count_set(self@, self@.len()),
    {
        count_bits(&self.bits)
    }

    /// What decoding `encoding` gives: the bits that the bytes say, where
    /// there are as many bytes as `N` bits take and no bit is set behind the
    /// last one; else the error that says what is wrong.
    pub open spec fn decodes(encoding: Seq<u8>, result: Result<Self, DeserializeError>) -> bool {
        if N == 0 {
            result == Err::<Self, DeserializeError>(DeserializeError::InvalidBound(N))
        } else if encoding.len() < (N + 7) / 8 {
            result == Err::<Self, DeserializeError>(
                DeserializeError::ExpectedFurtherInput {
                    provided: encoding.len() as usize,
                    expected: ((N + 7) / 8) as usize,
                },
            )
        } else if encoding.len() > (N + 7) / 8 {
            result == Err::<Self, DeserializeError>(
                DeserializeError::AdditionalInput {
                    provided: encoding.len() as usize,
                    expected: ((N + 7) / 8) as usize,
                },
            )
        } else if N % 8 != 0 && encoding.last() as int >= bit_weight((N % 8) as int) {
            result == Err::<Self, DeserializeError>(DeserializeError::InvalidByte(encoding.last()))
        } else {
            result is Ok && result->Ok_0@ == bits_decoding(encoding, N as nat)
                && result->Ok_0.wf()
        }
    }

    /// Decodes a vector of bits: the input holds the bytes of the bits and
    /// nothing else, and the bits behind the last one are zero.
    pub fn deserialize(encoding: &[u8]) -> (result: Result<Self, DeserializeError>)
        ensures
            Self::decodes(encoding@, result),
    {
        if N == 0 {
            return Err(DeserializeError::InvalidBound(N));
        }
        let expected: usize = N / 8 + (if N % 8 == 0 {
            0
        } else {
            1
        });
        if encoding.len() < expected {
            return Err(
                DeserializeError::ExpectedFurtherInput { provided: encoding.len(), expected },
            );
        }
        if encoding.len() > expected {
            return Err(DeserializeError::AdditionalInput { provided: encoding.len(), expected });
        }
        if N % 8 != 0 {
            let last: u8 = encoding[expected - 1];
            if last >= weight_of(N % 8) {
                return Err(DeserializeError::InvalidByte(last));
            }
        }
        Ok(Bitvector { bits: bytes_to_bits(encoding, N) })
    }

    /// Decoding the encoding of a vector that has its length gives the
    /// vector back.
    pub proof fn lemma_round_trip(&self, decoded: Result<Self, DeserializeError>)
        requires
            self.wf(),
            N > 0,
            Self::decodes(self.encoding(), decoded),
        ensures
            decoded is Ok,
            decoded->Ok_0@ == self@,
    {
        lemma_bits_round_trip(self@);
        if N % 8 != 0 {
            lemma_padding_is_zero(self@);
            assert(self.encoding().last() == bits_byte(self@, (N - 1) / 8));
        }
    }

    /// The bytes of the encoding.
    pub fn to_bytes(&self) -> (bytes: Vec<u8>)
        ensures
            bytes@ == bits_encoding(self@, N as nat),
    {
        bits_to_bytes(&self.bits, N)
    }
}

impl<const N: usize> Serialize for Bitvector<N> {
    open spec fn encoding(&self) -> Seq<u8> {
        bits_encoding(self@, N as nat)
    }

    fn serialize_into(&self, buffer: &mut Vec<u8>) {
        let bytes = self.to_bytes();
        crate::ssz::append_bytes(buffer, bytes.as_slice());
    }
}

impl<const N: usize> Composite for Bitvector<N> {

}

impl<const N: usize> Merkleized for Bitvector<N> {
    open spec fn root_spec(&self) -> Seq<u8> {
        bytes_root(bits_encoding(self@, N as nat), ((N + 7) / 8) as nat)
    }

    fn hash_tree_root(&self) -> (root: [u8; 32]) {
        let bytes = self.to_bytes();
        hash_bytes(bytes.as_slice(), bytes.len())
    }
}

/// The position of the highest bit that is set in a byte; zero for the
/// byte zero.
pub open spec fn highest_bit(byte: u8) -> int {
    if byte >= 128 {
        7
    } else if byte >= 64 {
        6
    } else if byte >= 32 {
        5
    } else if byte >= 16 {
        4
    } else if byte >= 8 {
        3
    } else if byte >= 4 {
        2
    } else if byte >= 2 {
        1
    } else {
        0
    }
}

/// The position of the highest bit that is set in a byte.
pub fn highest_bit_of(byte: u8) -> (position: usize)
    ensures
        position == highest_bit(byte),
{
    if byte >= 128 {
        7
    } else if byte >= 64 {
        6
    } else if byte >= 32 {
        5
    } else if byte >= 16 {
        4
    } else if byte >= 8 {
        3
    } else if byte >= 4 {
        2
    } else if byte >= 2 {
        1
    } else {
        0
    }
}

/// In the encoding of bits with one more bit set behind them, that bit is
/// the highest one set in the last byte.
pub proof fn lemma_sentinel_is_highest(bits: Seq<bool>)
    ensures
        bits_byte(bits.push(true), bits.len() as int / 8) >= 1,
        highest_bit(bits_byte(bits.push(true), bits.len() as int / 8)) == bits.len() % 8,
{
    let marked = bits.push(true);
    let k = bits.len() as int / 8;
    let r = (bits.len() % 8) as int;
    assert(8 * k + r == bits.len());
    lemma_bit_of_byte(marked, k, 0);
    let b0 = bit_at(marked, 8 * k);
    let b1 = bit_at(marked, 8 * k + 1);
    let b2 = bit_at(marked, 8 * k + 2);
    let b3 = bit_at(marked, 8 * k + 3);
    let b4 = bit_at(marked, 8 * k + 4);
    let b5 = bit_at(marked, 8 * k + 5);
    let b6 = bit_at(marked, 8 * k + 6);
    let b7 = bit_at(marked, 8 * k + 7);
    assert(bit_at(marked, 8 * k + r) == 1);
    assert(r < 7 ==> b7 == 0);
    assert(r < 6 ==> b6 == 0);
    assert(r < 5 ==> b5 == 0);
    assert(r < 4 ==> b4 == 0);
    assert(r < 3 ==> b3 == 0);
    assert(r < 2 ==> b2 == 0);
    assert(r < 1 ==> b1 == 0);
    assert(0 <= b0 <= 1 && 0 <= b1 <= 1 && 0 <= b2 <= 1 && 0 <= b3 <= 1 && 0 <= b4 <= 1 && 0 <= b5
        <= 1 && 0 <= b6 <= 1 && 0 <= b7 <= 1);
}

/// At most `N` bits. The encoding ends with one more bit that is set, by
/// which the number of bits is found again; the root mixes the number in.
#[derive(Clone, Debug, PartialEq, Eq)]
pub struct Bitlist<const N: usize> {
    bits: Vec<bool>,
}

impl<const N: usize> View for Bitlist<N> {
    type V = Seq<bool>;

    closed spec fn view(&self) -> Seq<bool> {
        self.bits@
    }
}

impl<const N: usize> Bitlist<N> {
    /// The list keeps its bound.
    pub open spec fn wf(&self) -> bool {
        self@.len() <= N
    }

    /// The list of the given bits; fails exactly when they are more than
    /// `N`.
    pub fn try_from(bits: Vec<bool>) -> (result: Result<Self, DeserializeError>)
        ensures
            bits@.len() <= N ==> result is Ok && result->Ok_0@ == bits@ && result->Ok_0.wf(),
            bits@.len() > N ==> result == Err::<Self, DeserializeError>(
                DeserializeError::Bounded { bound: N, provided: bits.len() },
            ),
    {
        if bits.len() > N {
            Err(DeserializeError::Bounded { bound: N, provided: bits.len() })
        } else {
            Ok(Bitlist { bits })
        }
    }

    /// The number of bits held.
    pub fn len(&self) -> (n: usize)
        ensures
            n == self@.len(),
    {
        self.bits.len()
    }

    /// The bit at position `i`.
    pub fn get(&self, i: usize) -> (bit: bool)
        requires
            i < self@.len(),
        ensures
            bit == self@[i as int],
    {
        self.bits[i]
    }

    /// The number of bits set.
    pub fn count_ones(&self) -> (count: usize)
        ensures
            count == count_set(self@, self@.len()),
    {
        count_bits(&self.bits)
    }

    /// The number of bits that an encoding holds: eight for each byte but
    /// the last, and as many of the last as lie below its highest set bit.
    pub open spec fn encoded_bits(encoding: Seq<u8>) -> int {
        8 * (encoding.len() - 1) + highest_bit(encoding.last())
    }

    /// What decoding `encoding` gives: the bits below the highest set bit of
    /// the last byte, where there is such a bit and the bits are `N` at
    /// most; else the error that says what is wrong.
    pub open spec fn decodes(encoding: Seq<u8>, result: Result<Self, DeserializeError>) -> bool {
        if encoding.len() == 0 {
            result == Err::<Self, DeserializeError>(
                DeserializeError::ExpectedFurtherInput { provided: 0, expected: 1 },
            )
        } else if encoding.last() == 0 {
            result == Err::<Self, DeserializeError>(DeserializeError::InvalidByte(0))
        } else if Self::encoded_bits(encoding) > N {
            result == Err::<Self, DeserializeError>(
                DeserializeError::Bounded {
                    bound: N,
                    provided: Self::encoded_bits(encoding) as usize,
                },
            )
        } else {
            result is Ok && result->Ok_0@ == bits_decoding(
                encoding,
                Self::encoded_bits(encoding) as nat,
            ) && result->Ok_0.wf()
        }
    }

    /// Decodes a list of bits: the highest set bit of the last byte marks
    /// the end of the bits.
    pub fn deserialize(encoding: &[u8]) -> (result: Result<Self, DeserializeError>)
        requires
            encoding.len() <= usize::MAX / 8,
        ensures
            Self::decodes(encoding@, result),
    {
        if encoding.len() == 0 {
            return Err(DeserializeError::ExpectedFurtherInput { provided: 0, expected: 1 });
        }
        let last: u8 = encoding[encoding.len() - 1];
        if last == 0 {
            return Err(DeserializeError::InvalidByte(0));
        }
        let length: usize = 8 * (encoding.len() - 1) + highest_bit_of(last);
        if length > N {
            return Err(DeserializeError::Bounded { bound: N, provided: length });
        }
        Ok(Bitlist { bits: bytes_to_bits(encoding, length) })
    }

    /// Decoding the encoding of a list that keeps its bound gives the list
    /// back.
    pub proof fn lemma_round_trip(&self, decoded: Result<Self, DeserializeError>)
        requires
            self.wf(),
            Self::decodes(self.encoding(), decoded),
        ensures
            decoded is Ok,
            decoded->Ok_0@ == self@,
    {
        let marked = self@.push(true);
        let encoding = self.encoding();
        lemma_sentinel_is_highest(self@);
        assert(encoding.len() - 1 == self@.len() as int / 8);
        assert(encoding.last() == bits_byte(marked, self@.len() as int / 8));
        assert(Self::encoded_bits(encoding) == self@.len());
        assert forall|i: int| 0 <= i < self@.len() implies bits_decoding(
            encoding,
            self@.len(),
        )[i] == self@[i] by {
            lemma_bit_of_byte(marked, i / 8, i % 8);
            assert(8 * (i / 8) + i % 8 == i);
            assert(encoding[i / 8] == bits_byte(marked, i / 8));
            assert(marked[i] == self@[i]);
        }
        assert(bits_decoding(encoding, self@.len()) =~= self@);
    }
}

impl<const N: usize> Serialize for Bitlist<N> {
    open spec fn encoding(&self) -> Seq<u8> {
        bits_encoding(self@.push(true), self@.len() + 1)
    }

    fn serialize_into(&self, buffer: &mut Vec<u8>) {
        let mut marked: Vec<bool> = Vec::with_capacity(self.bits.len());
        let mut i: usize = 0;
        while i < self.bits.len()
            invariant
                i <= self.bits.len(),
                marked@ == self.bits@.take(i as int),
            decreases self.bits.len() - i,
        {
            marked.push(self.bits[i]);
            i = i + 1;
            proof {
                assert(marked@ =~= self.bits@.take(i as int));
            }
        }
        proof {
            assert(self.bits@.take(self.bits.len() as int) =~= self.bits@);
        }
        marked.push(true);
        let bytes = bits_to_bytes(&marked, marked.len());
        crate::ssz::append_bytes(buffer, bytes.as_slice());
    }
}

impl<const N: usize> Composite for Bitlist<N> {

}

impl<const N: usize> Merkleized for Bitlist<N> {
    open spec fn root_spec(&self) -> Seq<u8> {
        mix_in_length_spec(
            bytes_root(bits_encoding(self@, self@.len()), ((N + 7) / 8) as nat),
            self@.len() as u64,
        )
    }

    fn hash_tree_root(&self) -> (root: [u8; 32]) {
        let bytes = bits_to_bytes(&self.bits, self.bits.len());
        let capacity: usize = N / 8 + (if N % 8 == 0 {
            0
        } else {
            1
        });
        let data_root = hash_bytes(bytes.as_slice(), capacity);
        mix_in_length(&data_root, self.bits.len() as u64)
    }
}

/// The encoding of numbers: eight bytes each, little-endian, one after the
/// other.
pub open spec fn uints_encoding(items: Seq<u64>) -> Seq<u8>
    decreases items.len(),
{
    if items.len() == 0 {
        Seq::empty()
    } else {
        uints_encoding(items.drop_last()) + spec_u64_to_le_bytes(items.last())
    }
}

/// Encodes numbers one after the other.
pub fn uints_to_bytes(items: &Vec<u64>) -> (bytes: Vec<u8>)
    ensures
        bytes@ == uints_encoding(items@),
{
    let mut bytes: Vec<u8> = Vec::new();
    let mut i: usize = 0;
    while i < items.len()
        invariant
            i <= items.len(),
            bytes@ == uints_encoding(items@.take(i as int)),
        decreases items.len() - i,
    {
        let word = u64_to_le_bytes(items[i]);
        proof {
            assert(items@.take(i + 1).drop_last() =~= items@.take(i as int));
        }
        crate::ssz::append_bytes(&mut bytes, word.as_slice());
        i = i + 1;
    }
    proof {
        assert(items@.take(items.len() as int) =~= items@);
    }
    bytes
}

/// The numbers that the bytes of an encoding say: number `i` stands in
/// the eight bytes from `8 * i` on.
pub open spec fn uints_decoding(bytes: Seq<u8>) -> Seq<u64> {
    Seq::new(bytes.len() / 8, |i: int| spec_u64_from_le_bytes(bytes.subrange(8 * i, 8 * i + 8)))
}

/// The encoding of numbers takes eight bytes for each, and reading the
/// numbers of it gives the numbers back.
pub proof fn lemma_uints_round_trip(items: Seq<u64>)
    ensures
        uints_encoding(items).len() == 8 * items.len(),
        uints_decoding(uints_encoding(items)) == items,
    decreases items.len(),
{
    lemma_auto_spec_u64_to_from_le_bytes();
    if items.len() > 0 {
        let front = items.drop_last();
        lemma_uints_round_trip(front);
        let bytes = uints_encoding(items);
        assert(bytes.len() == 8 * items.len());
        assert forall|i: int| 0 <= i < items.len() implies #[trigger] uints_decoding(bytes)[i]
            == items[i] by {
            if i < front.len() {
                assert(bytes.subrange(8 * i, 8 * i + 8) =~= uints_encoding(front).subrange(
                    8 * i,
                    8 * i + 8,
                ));
                assert(uints_decoding(uints_encoding(front))[i] == front[i]);
            } else {
                assert(bytes.subrange(8 * i, 8 * i + 8) =~= spec_u64_to_le_bytes(items.last()));
            }
        }
        assert(uints_decoding(bytes) =~= items);
    } else {
        assert(uints_decoding(uints_encoding(items)) =~= items);
    }
}

/// Reads the numbers of an encoding whose length is a multiple of eight.
pub fn bytes_to_uints(bytes: &[u8]) -> (items: Vec<u64>)
    requires
        bytes.len() % 8 == 0,
    ensures
        items@ == uints_decoding(bytes@),
{
    let count: usize = bytes.len() / 8;
    let mut items: Vec<u64> = Vec::with_capacity(count);
    let mut i: usize = 0;
    while i < count
        invariant
            i <= count,
            count == bytes.len() / 8,
            bytes.len() % 8 == 0,
            items.len() == i,
            forall|k: int| 0 <= k < i ==> #[trigger] items@[k] == uints_decoding(bytes@)[k],
        decreases count - i,
    {
        items.push(u64_from_le_bytes(slice_subrange(bytes, 8 * i, 8 * i + 8)));
        i = i + 1;
    }
    proof {
        assert(items@ =~= uints_decoding(bytes@));
    }
    items
}

/// At most `N` numbers, packed four to a chunk; the root mixes the count
/// in.
#[derive(Clone, Debug, PartialEq, Eq)]
pub struct UintList<const N: usize> {
    items: Vec<u64>,
}

impl<const N: usize> View for UintList<N> {
    type V = Seq<u64>;

    closed spec fn view(&self) -> Seq<u64> {
        self.items@
    }
}

impl<const N: usize> UintList<N> {
    /// The list keeps its bound.
    pub open spec fn wf(&self) -> bool {
        self@.len() <= N
    }

    /// The list of the given numbers; fails exactly when they are more
    /// than `N`.
    pub fn try_from(items: Vec<u64>) -> (result: Result<Self, DeserializeError>)
        ensures
            items@.len() <= N ==> result is Ok && result->Ok_0@ == items@ && result->Ok_0.wf(),
            items@.len() > N ==> result == Err::<Self, DeserializeError>(
                DeserializeError::Bounded { bound: N, provided: items.len() },
            ),
    {
        if items.len() > N {
            Err(DeserializeError::Bounded { bound: N, provided: items.len() })
        } else {
            Ok(UintList { items })
        }
    }

    /// What decoding `encoding` gives: the numbers that the bytes say, where
    /// the bytes are whole numbers and these are `N` at most; else the error
    /// that says what is wrong.
    pub open spec fn decodes(encoding: Seq<u8>, result: Result<Self, DeserializeError>) -> bool {
        if encoding.len() % 8 != 0 {
            result == Err::<Self, DeserializeError>(
                DeserializeError::AdditionalInput {
                    provided: encoding.len() as usize,
                    expected: (encoding.len() - encoding.len() % 8) as usize,
                },
            )
        } else if encoding.len() / 8 > N {
            result == Err::<Self, DeserializeError>(
                DeserializeError::Bounded { bound: N, provided: (encoding.len() / 8) as usize },
            )
        } else {
            result is Ok && result->Ok_0@ == uints_decoding(encoding) && result->Ok_0.wf()
        }
    }

    /// Decodes a list of numbers: the length of the input says how many
    /// there are.
    pub fn deserialize(encoding: &[u8]) -> (result: Result<Self, DeserializeError>)
        ensures
            Self::decodes(encoding@, result),
    {
        let rest: usize = encoding.len() % 8;
        if rest != 0 {
            return Err(
                DeserializeError::AdditionalInput {
                    provided: encoding.len(),
                    expected: encoding.len() - rest,
                },
            );
        }
        if encoding.len() / 8 > N {
            return Err(DeserializeError::Bounded { bound: N, provided: encoding.len() / 8 });
        }
        Ok(UintList { items: bytes_to_uints(encoding) })
    }

    /// Decoding the encoding of a list that keeps its bound gives the list
    /// back.
    pub proof fn lemma_round_trip(&self, decoded: Result<Self, DeserializeError>)
        requires
            self.wf(),
            Self::decodes(self.encoding(), decoded),
        ensures
            decoded is Ok,
            decoded->Ok_0@ == self@,
    {
        lemma_uints_round_trip(self@);
    }

    /// The numbers held.
    pub fn as_vec(&self) -> (items: &Vec<u64>)
        ensures
            items@ == self@,
    {
        &self.items
    }
}

impl<const N: usize> Serialize for UintList<N> {
    open spec fn encoding(&self) -> Seq<u8> {
        uints_encoding(self@)
    }

    fn serialize_into(&self, buffer: &mut Vec<u8>) {
        let bytes = uints_to_bytes(&self.items);
        crate::ssz::append_bytes(buffer, bytes.as_slice());
    }
}

impl<const N: usize> Composite for UintList<N> {

}

impl<const N: usize> Merkleized for UintList<N> {
    open spec fn root_spec(&self) -> Seq<u8> {
        mix_in_length_spec(
            packed_root(uints_encoding(self@), ((N + 3) / 4) as nat),
            self@.len() as u64,
        )
    }

    fn hash_tree_root(&self) -> (root: [u8; 32]) {
        let bytes = uints_to_bytes(&self.items);
        let limit: usize = N / 4 + (if N % 4 == 0 {
            0
        } else {
            1
        });
        let data_root = hash_packed(bytes.as_slice(), limit);
        mix_in_length(&data_root, self.items.len() as u64)
    }
}

/// Exactly `N` numbers, packed four to a chunk.
#[derive(Clone, Debug, PartialEq, Eq)]
pub struct UintVector<const N: usize> {
    items: Vec<u64>,
}

impl<const N: usize> View for UintVector<N> {
    type V = Seq<u64>;

    closed spec fn view(&self) -> Seq<u64> {
        self.items@
    }
}

impl<const N: usize> UintVector<N> {
    /// The vector has its length.
    pub open spec fn wf(&self) -> bool {
        self@.len() == N
    }

    /// The vector of the given numbers; fails exactly when they are not
    /// `N`, or `N` is zero.
    pub fn try_from(items: Vec<u64>) -> (result: Result<Self, DeserializeError>)
        ensures
            N == 0 ==> result == Err::<Self, DeserializeError>(DeserializeError::InvalidBound(N)),
            N > 0 && items@.len() == N ==> result is Ok && result->Ok_0@ == items@
                && result->Ok_0.wf(),
            N > 0 && items@.len() < N ==> result == Err::<Self, DeserializeError>(
                DeserializeError::ExpectedFurtherInput { provided: items.len(), expected: N },
            ),
            N > 0 && items@.len() > N ==> result == Err::<Self, DeserializeError>(
                DeserializeError::AdditionalInput { provided: items.len(), expected: N },
            ),
    {
        if N == 0 {
            Err(DeserializeError::InvalidBound(N))
        } else if items.len() < N {
            Err(DeserializeError::ExpectedFurtherInput { provided: items.len(), expected: N })
        } else if items.len() > N {
            Err(DeserializeError::AdditionalInput { provided: items.len(), expected: N })
        } else {
            Ok(UintVector { items })
        }
    }

    /// The numbers held.
    pub fn as_vec(&self) -> (items: &Vec<u64>)
        ensures
            items@ == self@,
    {
        &self.items
    }
}

impl<const N: usize> Serialize for UintVector<N> {
    open spec fn encoding(&self) -> Seq<u8> {
        uints_encoding(self@)
    }

    fn serialize_into(&self, buffer: &mut Vec<u8>) {
        let bytes = uints_to_bytes(&self.items);
        crate::ssz::append_bytes(buffer, bytes.as_slice());
    }
}

impl<const N: usize> Composite for UintVector<N> {

}

impl<const N: usize> Merkleized for UintVector<N> {
    open spec fn root_spec(&self) -> Seq<u8> {
        packed_root(uints_encoding(self@), ((N + 3) / 4) as nat)
    }

    fn hash_tree_root(&self) -> (root: [u8; 32]) {
        let bytes = uints_to_bytes(&self.items);
        let limit: usize = N / 4 + (if N % 4 == 0 {
            0
        } else {
            1
        });
        hash_packed(bytes.as_slice(), limit)
    }
}

} // verus!
