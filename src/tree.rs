//! How a distribution's tree is built off-chain, as a model, and the proof
//! that the sibling paths it hands out are accepted.
//!
//! Each level pairs its nodes from the left and replaces each pair by its
//! sorted-pair parent; a last node without a partner moves up unchanged.
//! The path of a leaf lists, level by level, the partner of the node on its
//! way up, where it has one.
use vstd::prelude::*;

use crate::merkle::{fold_path, lemma_parent_symmetric, parent_of};

verus! {

/// The level above `nodes`.
pub open spec fn next_level(nodes: Seq<Seq<u8>>) -> Seq<Seq<u8>> {
    Seq::new(
        ((nodes.len() + 1) / 2) as nat,
        |k: int|
            if 2 * k + 1 < nodes.len() {
                parent_of(nodes[2 * k], nodes[2 * k + 1])
            } else {
                nodes[2 * k]
            },
    )
}

/// The root of the tree over `nodes`; the empty string for no nodes.
pub open spec fn tree_root(nodes: Seq<Seq<u8>>) -> Seq<u8>
    decreases nodes.len(),
{
    if nodes.len() == 0 {
        Seq::empty()
    } else if nodes.len() == 1 {
        nodes[0]
    } else {
        tree_root(next_level(nodes))
    }
}

/// The sibling path of node `i` in the tree over `nodes`.
pub open spec fn tree_proof(nodes: Seq<Seq<u8>>, i: int) -> Seq<Seq<u8>>
    decreases nodes.len(),
{
    if nodes.len() <= 1 {
        Seq::empty()
    } else {
        let sib = if i % 2 == 0 {
            i + 1
        } else {
            i - 1
        };
        let here = if 0 <= sib < nodes.len() {
            seq![nodes[sib]]
        } else {
            Seq::empty()
        };
        here + tree_proof(next_level(nodes), i / 2)
    }
}

/// Folding a path in two parts is folding the first, then the second.
pub proof fn lemma_fold_path_append(leaf: Seq<u8>, p: Seq<Seq<u8>>, q: Seq<Seq<u8>>)
    ensures
        fold_path(leaf, p + q) == fold_path(fold_path(leaf, p), q),
    decreases q.len(),
{
    if q.len() == 0 {
        assert(p + q =~= p);
    } else {
        assert((p + q).drop_last() =~= p + q.drop_last());
        assert((p + q).last() == q.last());
        lemma_fold_path_append(leaf, p, q.drop_last());
    }
}

/// Every leaf of a tree built as above, with the path that the construction
/// gives it, folds up to the tree's root.
pub proof fn lemma_proof_complete(nodes: Seq<Seq<u8>>, i: int)
    requires
        0 <= i < nodes.len(),
    ensures
        fold_path(nodes[i], tree_proof(nodes, i)) == tree_root(nodes),
    decreases nodes.len(),
{
    if nodes.len() > 1 {
        let up = next_level(nodes);
        let sib = if i % 2 == 0 {
            i + 1
        } else {
            i - 1
        };
        let here = if 0 <= sib < nodes.len() {
            seq![nodes[sib]]
        } else {
            Seq::<Seq<u8>>::empty()
        };
        let k = i / 2;
        assert(tree_proof(nodes, i) == here + tree_proof(up, k));
        lemma_fold_path_append(nodes[i], here, tree_proof(up, k));
        if 0 <= sib < nodes.len() {
            assert(here.drop_last() =~= Seq::<Seq<u8>>::empty());
            assert(here.last() == nodes[sib]);
            assert(fold_path(nodes[i], Seq::<Seq<u8>>::empty()) == nodes[i]);
            assert(fold_path(nodes[i], here) == parent_of(nodes[i], nodes[sib]));
            if i % 2 == 1 {
                lemma_parent_symmetric(nodes[i], nodes[sib]);
            }
        }
        assert(fold_path(nodes[i], here) == up[k]);
        lemma_proof_complete(up, k);
    }
}

} // verus!
