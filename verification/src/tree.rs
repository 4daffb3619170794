//! The tree itself: the stored levels, and the operations that keep them the
//! levels of the leaves appended so far.

use crate::digest;
use crate::digest::{hash_key, key_digest};
use crate::level::{
    digests, fold_level, lemma_height_is_first_single, lemma_top_is_single, level_at, merkle_root,
    tree_levels,
};
use vstd::prelude::*;

verus! {

/// An append-only Merkle tree. `levels[0]` holds the leaves in the order in
/// which they were appended; the last level holds the root alone.
pub struct MerkleTree {
    levels: Vec<Vec<digest::Hash>>,
}

/// The stored levels as byte sequences.
pub open spec fn stored(levels: Seq<Vec<digest::Hash>>) -> Seq<Seq<Seq<u8>>> {
    Seq::new(levels.len(), |i: int| digests(levels[i]@))
}

impl View for MerkleTree {
    type V = Seq<Seq<u8>>;

    /// The leaf digests, oldest first.
    closed spec fn view(&self) -> Seq<Seq<u8>> {
        if self.levels@.len() == 0 {
            Seq::empty()
        } else {
            digests(self.levels@[0]@)
        }
    }
}

impl MerkleTree {
    /// Every level that the tree holds, leaves first.
    pub closed spec fn levels(&self) -> Seq<Seq<Seq<u8>>> {
        stored(self.levels@)
    }

    /// The levels held are exactly the levels that the leaves determine: each
    /// is the fold of the one below, the last has a single digest, and
    /// nothing lies above it.
    #[verifier::type_invariant]
    pub open spec fn well_formed(&self) -> bool {
        self.levels() == tree_levels(self@)
    }

    /// Creates an empty tree.
    pub fn new() -> (tree: Self)
        ensures
            tree@ == Seq::<Seq<u8>>::empty(),
            tree.well_formed(),
    {
        let levels: Vec<Vec<digest::Hash>> = Vec::new();
        assert(stored(levels@) =~= tree_levels(Seq::empty()));
        MerkleTree { levels }
    }

    /// Appends `key` as the newest leaf and rebuilds every level above the
    /// leaves, bottom up, dropping whatever was left above the new root.
    pub fn append(&mut self, key: u64)
        ensures
            final(self)@ == old(self)@.push(key_digest(key)),
            final(self).well_formed(),
    {
        proof {
            use_type_invariant(&*self);
        }
        let leaf = hash_key(key);
        let ghost leaves = old(self)@.push(leaf@);

        let mut levels: Vec<Vec<digest::Hash>> = Vec::new();
        assert(stored(levels@) =~= tree_levels(Seq::empty()));
        std::mem::swap(&mut levels, &mut self.levels);

        if levels.is_empty() {
            levels.push(vec![leaf]);
        } else {
            levels[0].push(leaf);
        }
        assert(digests(levels@[0]@) =~= leaves);

        let mut level_index: usize = 1;
        loop
            invariant_except_break
                1 <= level_index <= levels@.len(),
                forall|j: int|
                    0 <= j < level_index ==> digests(#[trigger] levels@[j]@) == level_at(
                        leaves,
                        j as nat,
                    ),
                forall|j: nat| j + 1 < level_index ==> (#[trigger] level_at(leaves, j)).len() > 1,
                levels@[level_index - 1]@.len() >= 1,
            ensures
                stored(levels@) == tree_levels(leaves),
                levels@.len() >= 1,
                digests(levels@[0]@) == leaves,
            decreases levels@[level_index - 1]@.len(),
        {
            let below = &levels[level_index - 1];
            if below.len() == 1 {
                levels.truncate(level_index);
                proof {
                    lemma_height_is_first_single(leaves, level_index as nat);
                    assert(stored(levels@) =~= tree_levels(leaves));
                }
                break;
            }
            let next_level = fold_level(below);
            proof {
                let j = (level_index - 1) as nat;
                assert(digests(next_level@) == level_at(leaves, j + 1));
                assert(next_level@.len() == digests(next_level@).len());
            }
            if levels.len() > level_index {
                levels[level_index] = next_level;
            } else {
                levels.push(next_level);
            }
            assert(level_index < levels.len());
            level_index += 1;
        }
        self.levels = levels;
    }

    /// Returns the root digest, or `None` while the tree has no leaf.
    pub fn root(&self) -> (r: Option<digest::Hash>)
        ensures
            r is Some <==> self@.len() > 0,
            r matches Some(d) ==> merkle_root(self@) == Some(d@),
    {
        proof {
            use_type_invariant(self);
        }
        let n = self.levels.len();
        if n == 0 {
            return None;
        }
        assert(self.levels().len() == n);
        let last_level = &self.levels[n - 1];
        proof {
            lemma_top_is_single(self@);
            assert(self.levels()[n - 1] == digests(last_level@));
        }
        Some(last_level[0])
    }
}

} // verus!
