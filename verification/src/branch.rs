//! Merkle branches: the siblings on the path from a node up to the root, and
//! the check of a claimed node against a published root.

use crate::hash::{chunk_eq, hash_pair, hash_pair_spec, sha256_digest};
use crate::math::{ceil_log2, floor_log2, floor_log2_of, log2};
use crate::merkle::{
    bottom_layer, chunk_views, merkle_root, node, parent_layer, zero_hash, zero_node,
};
use vstd::arithmetic::power2::{lemma2_to64, lemma_pow2_unfold, pow2};
use vstd::prelude::*;

verus! {

/// The position next to `i` under the same parent.
pub open spec fn sibling(i: nat) -> nat {
    if i % 2 == 0 {
        i + 1
    } else {
        (i - 1) as nat
    }
}

/// The value reached from `value` by hashing it with each element of
/// `branch` in turn. `index` is the generalized index of `value`: where it
/// is even the value is the left child, else the right one, and the parent
/// has half that index.
pub open spec fn fold_branch(value: Seq<u8>, branch: Seq<Seq<u8>>, index: nat) -> Seq<u8>
    decreases branch.len(),
{
    if branch.len() == 0 {
        value
    } else {
        let parent = if index % 2 == 0 {
            hash_pair_spec(value, branch[0])
        } else {
            hash_pair_spec(branch[0], value)
        };
        fold_branch(parent, branch.skip(1), index / 2)
    }
}

/// Whether `branch` proves that the node with the given generalized index
/// under `root` is `leaf`: the index is positive, the branch is as long as
/// the node is deep, and folding the leaf up the branch gives the root.
pub open spec fn branch_is_valid(
    leaf: Seq<u8>,
    branch: Seq<Seq<u8>>,
    generalized_index: nat,
    root: Seq<u8>,
) -> bool {
    &&& generalized_index >= 1
    &&& branch.len() == floor_log2(generalized_index)
    &&& fold_branch(leaf, branch, generalized_index) == root
}

/// The branch of the node at position `pos` of layer `level` in the tree
/// over `chunks`, `height` layers below the root: its sibling, then the
/// branch of its parent.
pub open spec fn branch_of(chunks: Seq<Seq<u8>>, level: nat, pos: nat, height: nat) -> Seq<
    Seq<u8>,
>
    decreases height,
{
    if height == 0 {
        Seq::empty()
    } else {
        seq![node(chunks, level, sibling(pos))] + branch_of(
            chunks,
            level + 1,
            pos / 2,
            (height - 1) as nat,
        )
    }
}

/// The generalized index of the node reached from the root by a path of
/// fields. Each step names a container by the number of its fields and
/// a field by its position; the tree of a container has the depth that its
/// fields need, and the field is the leaf at its position. The root has the
/// index one.
pub open spec fn path_index(path: Seq<(usize, usize)>) -> nat
    decreases path.len(),
{
    if path.len() == 0 {
        1
    } else {
        (path_index(path.drop_last()) * pow2(ceil_log2(path.last().0 as nat))
            + path.last().1) as nat
    }
}

/// The depth of the node reached by a path of fields: the depths of the
/// trees on the way, added up.
pub open spec fn path_depth(path: Seq<(usize, usize)>) -> nat
    decreases path.len(),
{
    if path.len() == 0 {
        0
    } else {
        path_depth(path.drop_last()) + ceil_log2(path.last().0 as nat)
    }
}

/// Whether each step of a path names a field that its container has.
pub open spec fn path_is_valid(path: Seq<(usize, usize)>) -> bool {
    forall|i: int| 0 <= i < path.len() ==> (#[trigger] path[i]).1 < path[i].0
}

/// The generalized index of a valid path has the depth of the path.
pub proof fn lemma_path_index_depth(path: Seq<(usize, usize)>)
    requires
        path_is_valid(path),
    ensures
        pow2(path_depth(path)) <= path_index(path) < 2 * pow2(path_depth(path)),
        floor_log2(path_index(path)) == path_depth(path),
    decreases path.len(),
{
    lemma2_to64();
    if path.len() > 0 {
        let front = path.drop_last();
        assert forall|i: int| 0 <= i < front.len() implies (#[trigger] front[i]).1
            < front[i].0 by {
            assert(front[i] == path[i]);
        }
        lemma_path_index_depth(front);
        let count = path.last().0 as nat;
        let index = path.last().1 as nat;
        assert(path[path.len() - 1].1 < path[path.len() - 1].0);
        crate::math::lemma_ceil_log2_bounds(count);
        let width = pow2(ceil_log2(count));
        let above = pow2(path_depth(front));
        vstd::arithmetic::power2::lemma_pow2_adds(path_depth(front), ceil_log2(count));
        let parent = path_index(front);
        assert(above * width <= parent * width + index < 2 * (above * width)) by (nonlinear_arith)
            requires
                above <= parent < 2 * above,
                index < width,
        ;
    }
    crate::math::lemma_floor_log2_unique(path_index(path), path_depth(path));
}

/// A path leads to a node that lies no higher than the nodes on its way.
pub proof fn lemma_path_index_grows(path: Seq<(usize, usize)>, k: int)
    requires
        0 <= k <= path.len(),
    ensures
        1 <= path_index(path.take(k)) <= path_index(path),
    decreases path.len() - k,
{
    if k < path.len() {
        lemma_path_index_grows(path, k + 1);
        let longer = path.take(k + 1);
        assert(longer.drop_last() =~= path.take(k));
        let width = pow2(ceil_log2(longer.last().0 as nat));
        vstd::arithmetic::power2::lemma_pow2_pos(ceil_log2(longer.last().0 as nat));
        let parent = path_index(path.take(k));
        lemma_path_index_at_least_one(path.take(k));
        assert(parent <= parent * width) by (nonlinear_arith)
            requires
                parent >= 1,
                width >= 1,
        ;
    } else {
        assert(path.take(k) =~= path);
        lemma_path_index_at_least_one(path);
    }
}

proof fn lemma_path_index_at_least_one(path: Seq<(usize, usize)>)
    ensures
        path_index(path) >= 1,
    decreases path.len(),
{
    if path.len() > 0 {
        lemma_path_index_at_least_one(path.drop_last());
        let width = pow2(ceil_log2(path.last().0 as nat));
        vstd::arithmetic::power2::lemma_pow2_pos(ceil_log2(path.last().0 as nat));
        let parent = path_index(path.drop_last());
        assert(parent * width >= 1) by (nonlinear_arith)
            requires
                parent >= 1,
                width >= 1,
        ;
    }
}

/// The generalized index of the node reached by a path of fields. There
/// is none where a step names a field that its container does not have, or
/// where the index does not fit the machine's numbers.
pub fn generalized_index(path: &Vec<(usize, usize)>) -> (index: Option<usize>)
    ensures
        path_is_valid(path@) && path_index(path@) <= usize::MAX ==> index == Some(
            path_index(path@) as usize,
        ),
        !(path_is_valid(path@) && path_index(path@) <= usize::MAX) ==> index is None,
{
    let mut current: usize = 1;
    let mut i: usize = 0;
    proof {
        assert(path@.take(0) =~= Seq::<(usize, usize)>::empty());
    }
    while i < path.len()
        invariant
            i <= path.len(),
            current == path_index(path@.take(i as int)),
            path_is_valid(path@.take(i as int)),
        decreases path.len() - i,
    {
        let count: usize = path[i].0;
        let index: usize = path[i].1;
        proof {
            let longer = path@.take(i + 1);
            assert(longer.drop_last() =~= path@.take(i as int));
            assert(longer.last() == path@[i as int]);
            lemma_path_index_grows(path@, i + 1);
            lemma_path_index_at_least_one(path@.take(i as int));
            lemma2_to64();
        }
        if index >= count {
            proof {
                assert(!(path@[i as int].1 < path@[i as int].0));
            }
            return None;
        }
        let depth: u32 = log2(count);
        let ghost reached = path_index(path@.take(i + 1));
        proof {
            assert(reached == current * pow2(depth as nat) + index);
            assert(current * pow2(0) == current) by (nonlinear_arith)
                requires
                    pow2(0) == 1,
            ;
        }
        let mut shifted: usize = current;
        let mut j: u32 = 0;
        while j < depth
            invariant
                j <= depth,
                current >= 1,
                shifted == current * pow2(j as nat),
                reached == current * pow2(depth as nat) + index,
                reached <= path_index(path@),
            decreases depth - j,
        {
            proof {
                lemma_pow2_unfold((j + 1) as nat);
                if j + 1 < depth {
                    vstd::arithmetic::power2::lemma_pow2_strictly_increases(
                        (j + 1) as nat,
                        depth as nat,
                    );
                }
                let low = pow2((j + 1) as nat);
                let high = pow2(depth as nat);
                assert(current * low <= current * high) by (nonlinear_arith)
                    requires
                        low <= high,
                        current >= 1,
                ;
                assert(current * low == 2 * (current * pow2(j as nat))) by (nonlinear_arith)
                    requires
                        low == 2 * pow2(j as nat),
                ;
            }
            if shifted > usize::MAX / 2 {
                return None;
            }
            shifted = shifted * 2;
            j = j + 1;
        }
        if index > usize::MAX - shifted {
            return None;
        }
        proof {
            assert forall|k: int| 0 <= k < i + 1 implies (#[trigger] path@.take(i + 1)[k]).1
                < path@.take(i + 1)[k].0 by {
                if k < i {
                    assert(path@.take(i as int)[k] == path@[k]);
                }
            }
        }
        current = shifted + index;
        i = i + 1;
    }
    proof {
        assert(path@.take(path.len() as int) =~= path@);
    }
    Some(current)
}

/// Two different byte strings with the same digest.
pub open spec fn is_collision(a: Seq<u8>, b: Seq<u8>) -> bool {
    a != b && sha256_digest(a) == sha256_digest(b)
}

/// The generalized index of position `pos` in the layer `height` below
/// the root has depth `height`.
pub proof fn lemma_generalized_index_depth(height: nat, pos: nat)
    requires
        pos < pow2(height),
    ensures
        floor_log2(pow2(height) + pos) == height,
{
    crate::math::lemma_floor_log2_unique(pow2(height) + pos, height);
}

/// Folding a node of the tree up its own branch gives the node `height`
/// layers above it.
pub proof fn lemma_fold_own_branch(chunks: Seq<Seq<u8>>, level: nat, pos: nat, height: nat)
    requires
        pos < pow2(height),
    ensures
        branch_of(chunks, level, pos, height).len() == height,
        fold_branch(
            node(chunks, level, pos),
            branch_of(chunks, level, pos, height),
            pow2(height) + pos,
        ) == node(chunks, level + height, 0),
    decreases height,
{
    lemma2_to64();
    if height > 0 {
        let above = (height - 1) as nat;
        lemma_pow2_unfold(height);
        lemma_fold_own_branch(chunks, level + 1, pos / 2, above);
        let branch = branch_of(chunks, level, pos, height);
        let rest = branch_of(chunks, level + 1, pos / 2, above);
        assert(branch.skip(1) =~= rest);
        assert(branch[0] == node(chunks, level, sibling(pos)));
        assert((pow2(height) + pos) / 2 == pow2(above) + pos / 2);
        assert((pow2(height) + pos) % 2 == pos % 2);
        if pos % 2 == 0 {
            assert(2 * (pos / 2) == pos);
        } else {
            assert(2 * (pos / 2) + 1 == pos);
        }
        assert(node(chunks, level + 1, pos / 2) == hash_pair_spec(
            node(chunks, level, 2 * (pos / 2)),
            node(chunks, level, 2 * (pos / 2) + 1),
        ));
    }
}

/// A branch taken from a tree verifies: the chunk at position `index`, with
/// its branch, is valid under the root of the tree of depth `depth`, at the
/// generalized index `pow2(depth) + index`.
pub proof fn lemma_honest_branch_is_valid(chunks: Seq<Seq<u8>>, depth: nat, index: nat)
    requires
        index < pow2(depth),
    ensures
        branch_is_valid(
            node(chunks, 0, index),
            branch_of(chunks, 0, index, depth),
            pow2(depth) + index,
            merkle_root(chunks, depth),
        ),
{
    lemma_fold_own_branch(chunks, 0, index, depth);
    lemma_generalized_index_depth(depth, index);
}

/// A branch whose length differs from the depth of the generalized index
/// is never valid, whatever it holds.
pub proof fn lemma_wrong_length_is_invalid(
    leaf: Seq<u8>,
    branch: Seq<Seq<u8>>,
    generalized_index: nat,
    root: Seq<u8>,
)
    requires
        branch.len() != floor_log2(generalized_index),
    ensures
        !branch_is_valid(leaf, branch, generalized_index, root),
{
}

/// A branch binds the leaf: two different leaves fold up the same branch to
/// the same value only where the hash has a collision.
pub proof fn lemma_branch_binds_leaf(
    leaf: Seq<u8>,
    other: Seq<u8>,
    branch: Seq<Seq<u8>>,
    index: nat,
)
    requires
        leaf != other,
        fold_branch(leaf, branch, index) == fold_branch(other, branch, index),
    ensures
        exists|a: Seq<u8>, b: Seq<u8>| is_collision(a, b),
    decreases branch.len(),
{
    if branch.len() > 0 {
        let (a, b) = if index % 2 == 0 {
            (leaf + branch[0], other + branch[0])
        } else {
            (branch[0] + leaf, branch[0] + other)
        };
        assert(a != b) by {
            if a == b {
                assert(a.len() == leaf.len() + branch[0].len());
                assert(b.len() == other.len() + branch[0].len());
                if index % 2 == 0 {
                    assert(leaf =~= a.take(leaf.len() as int));
                    assert(other =~= b.take(leaf.len() as int));
                } else {
                    assert(leaf =~= a.skip(branch[0].len() as int));
                    assert(other =~= b.skip(branch[0].len() as int));
                }
            }
        }
        if sha256_digest(a) == sha256_digest(b) {
            assert(is_collision(a, b));
        } else {
            lemma_branch_binds_leaf(
                sha256_digest(a),
                sha256_digest(b),
                branch.skip(1),
                index / 2,
            );
        }
    }
}

/// Checks a claimed node against a root: true exactly when the branch is
/// valid for the leaf, the generalized index and the root.
pub fn verify_branch(
    leaf: &[u8; 32],
    branch: &Vec<[u8; 32]>,
    generalized_index: usize,
    root: &[u8; 32],
) -> (valid: bool)
    ensures
        valid == branch_is_valid(leaf@, chunk_views(branch@), generalized_index as nat, root@),
{
    if generalized_index == 0 {
        return false;
    }
    let depth: u32 = floor_log2_of(generalized_index);
    if branch.len() != depth as usize {
        return false;
    }
    let ghost siblings = chunk_views(branch@);
    let mut value: [u8; 32] = *leaf;
    let mut index: usize = generalized_index;
    let mut i: usize = 0;
    proof {
        assert(siblings.skip(0) =~= siblings);
    }
    while i < branch.len()
        invariant
            i <= branch.len(),
            siblings == chunk_views(branch@),
            fold_branch(value@, siblings.skip(i as int), index as nat) == fold_branch(
                leaf@,
                siblings,
                generalized_index as nat,
            ),
        decreases branch.len() - i,
    {
        proof {
            assert(siblings.skip(i as int)[0] == branch@[i as int]@);
            assert(siblings.skip(i as int).skip(1) =~= siblings.skip(i + 1));
        }
        value = if index % 2 == 0 {
            hash_pair(&value, &branch[i])
        } else {
            hash_pair(&branch[i], &value)
        };
        index = index / 2;
        i = i + 1;
    }
    chunk_eq(&value, root)
}

/// The branch of the chunk at position `index` in the tree of the given
/// depth over `chunks`: one sibling for each layer, the lowest first.
pub fn compute_branch(chunks: &Vec<[u8; 32]>, depth: u32, index: usize) -> (branch: Vec<[u8; 32]>)
    ensures
        chunk_views(branch@) == branch_of(chunk_views(chunks@), 0, index as nat, depth as nat),
{
    let ghost leaves = chunk_views(chunks@);
    let mut layer: Vec<[u8; 32]> = bottom_layer(chunks);
    let mut zero: [u8; 32] = zero_node();
    let mut branch: Vec<[u8; 32]> = Vec::new();
    let mut pos: usize = index;
    let mut level: u32 = 0;
    proof {
        assert(chunk_views(branch@) + branch_of(leaves, 0, index as nat, depth as nat)
            =~= branch_of(leaves, 0, index as nat, depth as nat));
    }
    while level < depth
        invariant
            level <= depth,
            zero@ == zero_hash(level as nat),
            forall|i: int|
                0 <= i < layer.len() ==> (#[trigger] layer@[i])@ == node(
                    leaves,
                    level as nat,
                    i as nat,
                ),
            forall|i: nat|
                i >= layer.len() ==> #[trigger] node(leaves, level as nat, i) == zero_hash(
                    level as nat,
                ),
            chunk_views(branch@) + branch_of(
                leaves,
                level as nat,
                pos as nat,
                (depth - level) as nat,
            ) == branch_of(leaves, 0, index as nat, depth as nat),
        decreases depth - level,
    {
        let beside: usize = if pos % 2 == 0 {
            pos + 1
        } else {
            pos - 1
        };
        let step: [u8; 32] = if beside < layer.len() {
            layer[beside]
        } else {
            zero
        };
        proof {
            assert(beside as nat == sibling(pos as nat));
            assert(step@ == node(leaves, level as nat, beside as nat));
            assert(zero_hash((level + 1) as nat) == hash_pair_spec(
                zero_hash(level as nat),
                zero_hash(level as nat),
            ));
        }
        let ghost before = chunk_views(branch@);
        branch.push(step);
        proof {
            assert(chunk_views(branch@) =~= before + seq![step@]);
            assert(chunk_views(branch@) + branch_of(
                leaves,
                (level + 1) as nat,
                (pos / 2) as nat,
                (depth - level - 1) as nat,
            ) =~= before + branch_of(
                leaves,
                level as nat,
                pos as nat,
                (depth - level) as nat,
            ));
        }
        layer = parent_layer(&layer, &zero, Ghost(leaves), Ghost(level as nat));
        zero = hash_pair(&zero, &zero);
        pos = pos / 2;
        level = level + 1;
    }
    proof {
        assert(chunk_views(branch@) + Seq::<Seq<u8>>::empty() =~= chunk_views(branch@));
    }
    branch
}

} // verus!
