//! Merkle commitments: a sequence of 32-byte chunks is the bottom layer of a
//! binary tree, padded with zero chunks, whose nodes are the hashes of their
//! two children.

use crate::hash::{hash_pair, hash_pair_spec, zero_chunk};
use crate::math::{ceil_log2, log2};
use vstd::bytes::{lemma_auto_spec_u64_to_from_le_bytes, spec_u64_to_le_bytes, u64_to_le_bytes};
use vstd::prelude::*;

verus! {

/// Why a commitment could not be computed.
#[derive(Clone, Copy, Debug, PartialEq, Eq, Structural)]
pub enum MerkleizationError {
    /// More chunks were given than the limit allows; holds the limit.
    InputExceedsLimit(usize),
}

/// The chunks of a vector as byte sequences.
pub open spec fn chunk_views(chunks: Seq<[u8; 32]>) -> Seq<Seq<u8>> {
    Seq::new(chunks.len(), |i: int| chunks[i]@)
}

/// The node with position `i` in layer `level` of the tree over `chunks`:
/// layer zero holds the chunks followed by zero chunks without end, and a
/// node of a higher layer is the hash of its two children.
pub open spec fn node(chunks: Seq<Seq<u8>>, level: nat, i: nat) -> Seq<u8>
    decreases level,
{
    if level == 0 {
        if i < chunks.len() {
            chunks[i as int]
        } else {
            zero_chunk()
        }
    } else {
        hash_pair_spec(
            node(chunks, (level - 1) as nat, 2 * i),
            node(chunks, (level - 1) as nat, 2 * i + 1),
        )
    }
}

/// The root of the tree of the given depth over `chunks`.
pub open spec fn merkle_root(chunks: Seq<Seq<u8>>, depth: nat) -> Seq<u8> {
    node(chunks, depth, 0)
}

/// The root of a tree of the given depth whose leaves are all zero chunks.
pub open spec fn zero_hash(level: nat) -> Seq<u8>
    decreases level,
{
    if level == 0 {
        zero_chunk()
    } else {
        hash_pair_spec(zero_hash((level - 1) as nat), zero_hash((level - 1) as nat))
    }
}

/// A 64-bit number as a chunk: little-endian, followed by zeros.
pub open spec fn uint64_chunk(x: u64) -> Seq<u8> {
    spec_u64_to_le_bytes(x) + Seq::new(24, |i: int| 0u8)
}

/// The root of a collection with its element count mixed in.
pub open spec fn mix_in_length_spec(root: Seq<u8>, length: u64) -> Seq<u8> {
    hash_pair_spec(root, uint64_chunk(length))
}

/// The bytes cut into chunks, the last one filled up with zeros.
pub open spec fn pack_bytes_spec(bytes: Seq<u8>) -> Seq<Seq<u8>> {
    Seq::new(
        ((bytes.len() + 31) / 32) as nat,
        |i: int|
            Seq::new(
                32,
                |j: int|
                    if 32 * i + j < bytes.len() {
                        bytes[32 * i + j]
                    } else {
                        0u8
                    },
            ),
    )
}

/// A node all of whose leaves lie behind the chunks is the root of an
/// all-zero tree.
pub proof fn lemma_node_behind_chunks(chunks: Seq<Seq<u8>>, level: nat, i: nat)
    requires
        i * vstd::arithmetic::power2::pow2(level) >= chunks.len(),
    ensures
        node(chunks, level, i) == zero_hash(level),
    decreases level,
{
    if level > 0 {
        let below = (level - 1) as nat;
        vstd::arithmetic::power2::lemma_pow2_unfold(level);
        assert((2 * i) * vstd::arithmetic::power2::pow2(below) == i * vstd::arithmetic::power2::pow2(level))
            by (nonlinear_arith)
            requires
                vstd::arithmetic::power2::pow2(level) == 2 * vstd::arithmetic::power2::pow2(below),
        ;
        assert((2 * i + 1) * vstd::arithmetic::power2::pow2(below) >= i * vstd::arithmetic::power2::pow2(level))
            by (nonlinear_arith)
            requires
                vstd::arithmetic::power2::pow2(level) == 2 * vstd::arithmetic::power2::pow2(below),
        ;
        lemma_node_behind_chunks(chunks, below, 2 * i);
        lemma_node_behind_chunks(chunks, below, 2 * i + 1);
    } else {
        vstd::arithmetic::power2::lemma2_to64();
    }
}

/// A chunk of zeros.
pub fn zero_node() -> (chunk: [u8; 32])
    ensures
        chunk@ == zero_chunk(),
{
    let chunk: [u8; 32] = [0u8; 32];
    proof {
        vstd::array::axiom_spec_array_fill_for_copy_type::<u8, 32>(0u8);
        assert(chunk@ =~= zero_chunk());
    }
    chunk
}

pub(crate) fn parent_layer(
    layer: &Vec<[u8; 32]>,
    zero: &[u8; 32],
    Ghost(leaves): Ghost<Seq<Seq<u8>>>,
    Ghost(level): Ghost<nat>,
) -> (next: Vec<[u8; 32]>)
    requires
        forall|i: int| 0 <= i < layer.len() ==> (#[trigger] layer@[i])@ == node(leaves, level, i as nat),
        forall|i: nat| i >= layer.len() ==> #[trigger] node(leaves, level, i) == zero@,
    ensures
        next.len() == (layer.len() + 1) / 2,
        forall|i: int|
            0 <= i < next.len() ==> (#[trigger] next@[i])@ == node(leaves, level + 1, i as nat),
        forall|i: nat|
            i >= next.len() ==> #[trigger] node(leaves, level + 1, i) == hash_pair_spec(
                zero@,
                zero@,
            ),
{
    let n: usize = layer.len();
    let count: usize = n / 2 + n % 2;
    let mut next: Vec<[u8; 32]> = Vec::with_capacity(count);
    let mut k: usize = 0;
    while k < count
        invariant
            n == layer.len(),
            count == (n + 1) / 2,
            k <= count,
            next.len() == k,
            forall|i: int| 0 <= i < layer.len() ==> (#[trigger] layer@[i])@ == node(leaves, level, i as nat),
            forall|i: nat| i >= layer.len() ==> #[trigger] node(leaves, level, i) == zero@,
            forall|i: int|
                0 <= i < k ==> (#[trigger] next@[i])@ == node(leaves, level + 1, i as nat),
        decreases count - k,
    {
        let left: usize = 2 * k;
        let parent = if left + 1 < n {
            hash_pair(&layer[left], &layer[left + 1])
        } else {
            hash_pair(&layer[left], zero)
        };
        proof {
            assert(layer@[left as int]@ == node(leaves, level, left as nat));
            if left + 1 < n {
                assert(layer@[left + 1]@ == node(leaves, level, (left + 1) as nat));
            } else {
                assert(node(leaves, level, (left + 1) as nat) == zero@);
            }
            assert(parent@ == node(leaves, level + 1, k as nat));
        }
        next.push(parent);
        k = k + 1;
    }
    proof {
        assert forall|i: nat| i >= next.len() implies #[trigger] node(leaves, level + 1, i)
            == hash_pair_spec(zero@, zero@) by {
            assert(node(leaves, level, 2 * i) == zero@);
            assert(node(leaves, level, 2 * i + 1) == zero@);
        }
    }
    next
}

pub(crate) fn bottom_layer(chunks: &Vec<[u8; 32]>) -> (layer: Vec<[u8; 32]>)
    ensures
        layer@ == chunks@,
{
    let mut layer: Vec<[u8; 32]> = Vec::with_capacity(chunks.len());
    let mut c: usize = 0;
    while c < chunks.len()
        invariant
            c <= chunks.len(),
            layer.len() == c,
            forall|i: int| 0 <= i < c ==> #[trigger] layer@[i] == chunks@[i],
        decreases chunks.len() - c,
    {
        layer.push(chunks[c]);
        c = c + 1;
    }
    proof {
        assert(layer@ =~= chunks@);
    }
    layer
}

/// The root of the tree of the given depth over `chunks`. Zero chunks
/// stand wherever the tree has more leaves than there are chunks, and only
/// the nodes above a chunk are ever hashed.
pub fn merkle_root_of(chunks: &Vec<[u8; 32]>, depth: u32) -> (root: [u8; 32])
    ensures
        root@ == merkle_root(chunk_views(chunks@), depth as nat),
{
    let ghost leaves = chunk_views(chunks@);
    let mut layer: Vec<[u8; 32]> = bottom_layer(chunks);
    let mut zero: [u8; 32] = zero_node();
    let mut level: u32 = 0;
    while level < depth
        invariant
            level <= depth,
            zero@ == zero_hash(level as nat),
            forall|i: int|
                0 <= i < layer.len() ==> (#[trigger] layer@[i])@ == node(leaves, level as nat, i as nat),
            forall|i: nat|
                i >= layer.len() ==> #[trigger] node(leaves, level as nat, i) == zero_hash(
                    level as nat,
                ),
        decreases depth - level,
    {
        proof {
            assert(zero_hash((level + 1) as nat) == hash_pair_spec(
                zero_hash(level as nat),
                zero_hash(level as nat),
            ));
        }
        layer = parent_layer(&layer, &zero, Ghost(leaves), Ghost(level as nat));
        zero = hash_pair(&zero, &zero);
        level = level + 1;
    }
    if layer.len() == 0 {
        proof {
            assert(node(leaves, depth as nat, 0) == zero_hash(depth as nat));
        }
        zero
    } else {
        layer[0]
    }
}

/// The root of the tree over `chunks` that has room for `limit` chunks, or
/// for just the chunks given where there is no limit. Fails exactly when
/// there are more chunks than the limit allows.
pub fn merkleize(chunks: &Vec<[u8; 32]>, limit: Option<usize>) -> (result: Result<
    [u8; 32],
    MerkleizationError,
>)
    ensures
        match limit {
            Some(bound) => if chunks.len() > bound {
                result == Err::<[u8; 32], MerkleizationError>(
                    MerkleizationError::InputExceedsLimit(bound),
                )
            } else {
                result is Ok && result->Ok_0@ == merkle_root(
                    chunk_views(chunks@),
                    ceil_log2(bound as nat),
                )
            },
            None => result is Ok && result->Ok_0@ == merkle_root(
                chunk_views(chunks@),
                ceil_log2(chunks.len() as nat),
            ),
        },
{
    match limit {
        Some(bound) => {
            if chunks.len() > bound {
                Err(MerkleizationError::InputExceedsLimit(bound))
            } else {
                Ok(merkle_root_of(chunks, log2(bound)))
            }
        },
        None => Ok(merkle_root_of(chunks, log2(chunks.len()))),
    }
}

/// A 64-bit number as a chunk.
pub fn uint64_root(x: u64) -> (chunk: [u8; 32])
    ensures
        chunk@ == uint64_chunk(x),
{
    let bytes = u64_to_le_bytes(x);
    proof {
        lemma_auto_spec_u64_to_from_le_bytes();
    }
    let mut chunk: [u8; 32] = zero_node();
    let mut i: usize = 0;
    while i < 8
        invariant
            i <= 8,
            bytes@.len() == 8,
            forall|k: int| 0 <= k < i ==> chunk@[k] == bytes@[k],
            forall|k: int| i <= k < 32 ==> chunk@[k] == 0u8,
        decreases 8 - i,
    {
        chunk[i] = bytes[i];
        i = i + 1;
    }
    proof {
        assert(chunk@ =~= uint64_chunk(x));
    }
    chunk
}

/// Mixes the element count of a bounded collection into its root.
pub fn mix_in_length(root: &[u8; 32], length: u64) -> (mixed: [u8; 32])
    ensures
        mixed@ == mix_in_length_spec(root@, length),
{
    let count = uint64_root(length);
    hash_pair(root, &count)
}

/// Cuts bytes into chunks and fills the last one up with zeros.
pub fn pack_bytes(bytes: &[u8]) -> (chunks: Vec<[u8; 32]>)
    ensures
        chunk_views(chunks@) == pack_bytes_spec(bytes@),
{
    let n: usize = bytes.len();
    let count: usize = n / 32 + (if n % 32 == 0 { 0 } else { 1 });
    let mut chunks: Vec<[u8; 32]> = Vec::with_capacity(count);
    let mut i: usize = 0;
    while i < count
        invariant
            n == bytes.len(),
            count == (n + 31) / 32,
            i <= count,
            chunks.len() == i,
            forall|k: int| 0 <= k < i ==> (#[trigger] chunks@[k])@ == pack_bytes_spec(bytes@)[k],
        decreases count - i,
    {
        let mut chunk: [u8; 32] = zero_node();
        let base: usize = 32 * i;
        let mut j: usize = 0;
        while j < 32 && base + j < n
            invariant
                n == bytes.len(),
                base == 32 * i,
                base < n,
                j <= 32,
                base + j <= n,
                forall|k: int| 0 <= k < j ==> chunk@[k] == bytes@[base + k],
                forall|k: int| j <= k < 32 ==> chunk@[k] == 0u8,
            decreases 32 - j,
        {
            chunk[j] = bytes[base + j];
            j = j + 1;
        }
        proof {
            assert(chunk@ =~= pack_bytes_spec(bytes@)[i as int]);
        }
        chunks.push(chunk);
        i = i + 1;
    }
    proof {
        assert(chunk_views(chunks@) =~= pack_bytes_spec(bytes@));
    }
    chunks
}

} // verus!
