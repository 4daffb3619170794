//! Levels of the tree: the fold of one level into the next, and the stack of
//! levels that a sequence of leaves determines.

use crate::digest;
use crate::digest::{hash_internal, pair_digest};
use vstd::prelude::*;

verus! {

/// The digests of a stored level, each as its byte sequence.
pub open spec fn digests(level: Seq<digest::Hash>) -> Seq<Seq<u8>> {
    Seq::new(level.len(), |i: int| level[i]@)
}

/// The number of digests in the level above one of `n` digests: `n / 2`,
/// rounded up.
pub open spec fn parent_len(n: nat) -> nat {
    ((n + 1) / 2) as nat
}

/// The right-hand partner of `level[2 * k]`: its neighbour where there is
/// one, else the digest itself.
pub open spec fn right_of(level: Seq<Seq<u8>>, k: int) -> Seq<u8> {
    if 2 * k + 1 < level.len() {
        level[2 * k + 1]
    } else {
        level[2 * k]
    }
}

/// The level above `level`: entry `k` is the parent of `level[2 * k]` and its
/// right-hand partner.
pub open spec fn parent_level(level: Seq<Seq<u8>>) -> Seq<Seq<u8>> {
    Seq::new(parent_len(level.len()), |k: int| pair_digest(level[2 * k], right_of(level, k)))
}

/// Level `i` over `leaves`: the leaves folded `i` times.
pub open spec fn level_at(leaves: Seq<Seq<u8>>, i: nat) -> Seq<Seq<u8>>
    decreases i,
{
    if i == 0 {
        leaves
    } else {
        parent_level(level_at(leaves, (i - 1) as nat))
    }
}

/// The number of levels of a tree with `n` leaves: none for no leaf, and
/// otherwise one more than the number of folds it takes to come down to a
/// single digest.
pub open spec fn height(n: nat) -> nat
    decreases n,
{
    if n == 0 {
        0
    } else if n == 1 {
        1
    } else {
        1 + height(parent_len(n))
    }
}

/// All levels of the tree over `leaves`, leaves first.
pub open spec fn tree_levels(leaves: Seq<Seq<u8>>) -> Seq<Seq<Seq<u8>>> {
    Seq::new(height(leaves.len()), |i: int| level_at(leaves, i as nat))
}

/// The root over `leaves`: the first digest of the topmost level, and nothing
/// where there is no leaf.
pub open spec fn merkle_root(leaves: Seq<Seq<u8>>) -> Option<Seq<u8>> {
    if leaves.len() == 0 {
        None
    } else {
        Some(tree_levels(leaves).last()[0])
    }
}

/// Folds one level into the level above it, pair by pair from the left.
pub fn fold_level(below: &Vec<digest::Hash>) -> (above: Vec<digest::Hash>)
    ensures
        digests(above@) == parent_level(digests(below@)),
{
    let n = below.len();
    let mut above: Vec<digest::Hash> = Vec::new();
    let mut i: usize = 0;
    while i < n
        invariant
            n == below@.len(),
            i <= n,
            i % 2 == 0 || i == n,
            above@.len() == parent_len(i as nat),
            forall|k: int|
                0 <= k < above@.len() ==> #[trigger] above@[k]@ == pair_digest(
                    digests(below@)[2 * k],
                    right_of(digests(below@), k),
                ),
        decreases n - i,
    {
        let left = below[i];
        let right = if n - i > 1 {
            below[i + 1]
        } else {
            left
        };
        let parent = hash_internal(left, right);
        above.push(parent);
        i = if n - i > 1 {
            i + 2
        } else {
            n
        };
    }
    assert(digests(above@) =~= parent_level(digests(below@)));
    above
}

/// Level `i + 1` over `leaves` is level `i` over their fold.
pub proof fn lemma_level_shift(leaves: Seq<Seq<u8>>, i: nat)
    ensures
        level_at(leaves, i + 1) == level_at(parent_level(leaves), i),
    decreases i,
{
    if i == 0 {
        assert(level_at(leaves, 0) == leaves);
        assert(level_at(leaves, 1) == parent_level(level_at(leaves, 0)));
    } else {
        lemma_level_shift(leaves, (i - 1) as nat);
        assert(level_at(leaves, i + 1) == parent_level(level_at(leaves, i)));
    }
}

/// In a tree with at least one leaf, the top level has exactly one digest and
/// every level below it has more than one.
pub proof fn lemma_top_is_single(leaves: Seq<Seq<u8>>)
    requires
        leaves.len() > 0,
    ensures
        height(leaves.len()) >= 1,
        level_at(leaves, (height(leaves.len()) - 1) as nat).len() == 1,
        forall|i: nat|
            i + 1 < height(leaves.len()) ==> (#[trigger] level_at(leaves, i)).len() > 1,
    decreases leaves.len(),
{
    if leaves.len() > 1 {
        let above = parent_level(leaves);
        lemma_top_is_single(above);
        let h = height(above.len());
        lemma_level_shift(leaves, (h - 1) as nat);
        assert forall|i: nat| i + 1 < height(leaves.len()) implies (#[trigger] level_at(
            leaves,
            i,
        )).len() > 1 by {
            if i > 0 {
                lemma_level_shift(leaves, (i - 1) as nat);
            }
        }
    }
}

/// The height of a tree is the index of its first single-digest level, plus
/// one: if level `h - 1` has one digest and every level below it has more,
/// the tree has `h` levels.
pub proof fn lemma_height_is_first_single(leaves: Seq<Seq<u8>>, h: nat)
    requires
        h >= 1,
        level_at(leaves, (h - 1) as nat).len() == 1,
        forall|i: nat| i + 1 < h ==> (#[trigger] level_at(leaves, i)).len() > 1,
    ensures
        height(leaves.len()) == h,
    decreases h,
{
    if h > 1 {
        let above = parent_level(leaves);
        assert(level_at(leaves, 0).len() > 1);
        lemma_level_shift(leaves, (h - 2) as nat);
        assert forall|i: nat| i + 1 < h - 1 implies (#[trigger] level_at(above, i)).len() > 1 by {
            lemma_level_shift(leaves, i);
            assert(level_at(leaves, i + 1).len() > 1);
        }
        lemma_height_is_first_single(above, (h - 1) as nat);
    }
}

} // verus!
