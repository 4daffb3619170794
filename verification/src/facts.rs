//! What follows from the definitions: the roots of small trees, the height
//! of a tree, and the shape of its levels.

use crate::digest;
use crate::digest::{key_digest, pair_digest};
use crate::level::{
    height, lemma_level_shift, lemma_top_is_single, level_at, merkle_root, parent_len,
    parent_level, tree_levels,
};
use crate::tree::MerkleTree;
use vstd::arithmetic::power2::{
    lemma2_to64, lemma_pow2_strictly_increases, lemma_pow2_unfold, pow2,
};
use vstd::prelude::*;

verus! {

/// A digest is its bytes: two digests that hold the same bytes are the same
/// value. Hashing one key twice, or reading the root of one tree twice,
/// therefore gives the same digest both times.
pub proof fn lemma_digest_is_its_bytes(a: digest::Hash, b: digest::Hash)
    requires
        a@ == b@,
    ensures
        a == b,
{
    assert(a =~= b);
}

/// The two orders of a pair are hashed from different inputs: for distinct
/// digests of one length, `left` followed by `right` is not `right` followed
/// by `left`. (That the hash then tells the two inputs apart rests on
/// SHA-256 itself, and is not proved.)
pub proof fn lemma_pair_inputs_differ(left: Seq<u8>, right: Seq<u8>)
    requires
        left.len() == right.len(),
        left != right,
    ensures
        left + right != right + left,
{
    if left + right == right + left {
        assert forall|i: int| 0 <= i < left.len() implies left[i] == right[i] by {
            assert((left + right)[i] == left[i]);
            assert((right + left)[i] == right[i]);
        }
        assert(left =~= right);
    }
}

/// The root of a single leaf is that leaf.
pub proof fn lemma_root_of_one(leaves: Seq<Seq<u8>>)
    requires
        leaves.len() == 1,
    ensures
        merkle_root(leaves) == Some(leaves[0]),
{
    assert(height(1) == 1);
    assert(level_at(leaves, 0) == leaves);
}

/// The root of two or more leaves is the root of their fold.
pub proof fn lemma_root_of_many(leaves: Seq<Seq<u8>>)
    requires
        leaves.len() >= 2,
    ensures
        merkle_root(leaves) == merkle_root(parent_level(leaves)),
{
    let above = parent_level(leaves);
    lemma_top_is_single(above);
    lemma_level_shift(leaves, (height(above.len()) - 1) as nat);
}

/// After one key has been appended to an empty tree, the root is the digest
/// of that key.
pub proof fn lemma_single_leaf_root(key: u64)
    ensures
        merkle_root(Seq::empty().push(key_digest(key))) == Some(key_digest(key)),
{
    lemma_root_of_one(Seq::empty().push(key_digest(key)));
}

/// After two keys have been appended to an empty tree, the root is the
/// parent of their digests, in the order of appending.
pub proof fn lemma_two_leaf_root(k1: u64, k2: u64)
    ensures
        merkle_root(Seq::empty().push(key_digest(k1)).push(key_digest(k2))) == Some(
            pair_digest(key_digest(k1), key_digest(k2)),
        ),
{
    let leaves = Seq::empty().push(key_digest(k1)).push(key_digest(k2));
    lemma_root_of_many(leaves);
    assert(parent_level(leaves) =~= seq![pair_digest(key_digest(k1), key_digest(k2))]);
    lemma_root_of_one(parent_level(leaves));
}

/// After three keys have been appended to an empty tree, the third leaf is
/// paired with itself: the root is the parent of the first two leaves'
/// parent and of the third leaf's parent with itself.
pub proof fn lemma_three_leaf_root(k1: u64, k2: u64, k3: u64)
    ensures
        merkle_root(
            Seq::empty().push(key_digest(k1)).push(key_digest(k2)).push(key_digest(k3)),
        ) == Some(
            pair_digest(
                pair_digest(key_digest(k1), key_digest(k2)),
                pair_digest(key_digest(k3), key_digest(k3)),
            ),
        ),
{
    let leaves = Seq::empty().push(key_digest(k1)).push(key_digest(k2)).push(key_digest(k3));
    let middle = seq![
        pair_digest(key_digest(k1), key_digest(k2)),
        pair_digest(key_digest(k3), key_digest(k3)),
    ];
    lemma_root_of_many(leaves);
    assert(parent_level(leaves) =~= middle);
    lemma_root_of_many(middle);
    assert(parent_level(middle) =~= seq![pair_digest(middle[0], middle[1])]);
    lemma_root_of_one(parent_level(middle));
}

/// Whether `e` is the base-2 logarithm of `n`, rounded up: the least
/// exponent with `n <= 2^e`.
pub open spec fn is_ceil_log2(n: nat, e: nat) -> bool {
    &&& n <= pow2(e)
    &&& e > 0 ==> pow2((e - 1) as nat) < n
}

/// At most one exponent is the rounded-up logarithm of `n`.
pub proof fn lemma_ceil_log2_unique(n: nat, e1: nat, e2: nat)
    requires
        is_ceil_log2(n, e1),
        is_ceil_log2(n, e2),
    ensures
        e1 == e2,
{
    if e1 < e2 {
        if e1 < e2 - 1 {
            lemma_pow2_strictly_increases(e1, (e2 - 1) as nat);
        }
    } else if e2 < e1 {
        if e2 < e1 - 1 {
            lemma_pow2_strictly_increases(e2, (e1 - 1) as nat);
        }
    }
}

/// A tree with `n >= 1` leaves has `ceil(log2(n)) + 1` levels; one leaf
/// gives one level.
pub proof fn lemma_height_is_log2(n: nat)
    requires
        n >= 1,
    ensures
        height(n) >= 1,
        is_ceil_log2(n, (height(n) - 1) as nat),
    decreases n,
{
    if n == 1 {
        lemma2_to64();
    } else {
        let m = parent_len(n);
        lemma_height_is_log2(m);
        let e = (height(m) - 1) as nat;
        lemma_pow2_unfold(e + 1);
        if e == 0 {
            lemma2_to64();
        } else {
            lemma_pow2_unfold(e);
        }
    }
}

/// The levels over a non-empty sequence of leaves start with the leaves,
/// each further level is the fold of the one below it and so has half its
/// length, rounded up, and the last level has exactly one digest.
pub proof fn lemma_levels_shape(leaves: Seq<Seq<u8>>)
    requires
        leaves.len() >= 1,
    ensures
        tree_levels(leaves).len() == height(leaves.len()) >= 1,
        tree_levels(leaves)[0] == leaves,
        forall|i: int|
            0 <= i < tree_levels(leaves).len() - 1 ==> {
                &&& #[trigger] tree_levels(leaves)[i + 1] == parent_level(tree_levels(leaves)[i])
                &&& tree_levels(leaves)[i + 1].len() == parent_len(tree_levels(leaves)[i].len())
                &&& tree_levels(leaves)[i].len() > 1
            },
        tree_levels(leaves).last().len() == 1,
{
    lemma_top_is_single(leaves);
    assert(level_at(leaves, 0) == leaves);
    assert forall|i: int| 0 <= i < tree_levels(leaves).len() - 1 implies {
        &&& #[trigger] tree_levels(leaves)[i + 1] == parent_level(tree_levels(leaves)[i])
        &&& tree_levels(leaves)[i + 1].len() == parent_len(tree_levels(leaves)[i].len())
        &&& tree_levels(leaves)[i].len() > 1
    } by {
        assert(level_at(leaves, (i + 1) as nat) == parent_level(level_at(leaves, i as nat)));
        assert(level_at(leaves, i as nat).len() > 1);
    }
}

/// A tree holds nothing stale: whatever was appended, its levels are those
/// of its leaves, as many as the number of leaves calls for, each the fold
/// of the one below, with a single digest at the top.
pub proof fn lemma_tree_shape(tree: MerkleTree)
    requires
        tree.well_formed(),
    ensures
        tree.levels().len() == height(tree@.len()),
        tree@.len() >= 1 ==> {
            &&& tree.levels()[0] == tree@
            &&& is_ceil_log2(tree@.len(), (tree.levels().len() - 1) as nat)
            &&& tree.levels().last().len() == 1
            &&& merkle_root(tree@) == Some(tree.levels().last()[0])
        },
        forall|i: int|
            0 <= i < tree.levels().len() - 1 ==> {
                &&& #[trigger] tree.levels()[i + 1] == parent_level(tree.levels()[i])
                &&& tree.levels()[i + 1].len() == parent_len(tree.levels()[i].len())
            },
{
    if tree@.len() >= 1 {
        lemma_levels_shape(tree@);
        lemma_height_is_log2(tree@.len());
    }
}

} // verus!
