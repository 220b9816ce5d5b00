//! The distributor state and the claim operation.
use vstd::prelude::*;

use crate::bitmap::{bit_set, byte_of, get_claimed, lemma_marked_bits, marked, set_claimed};
use crate::merkle::{digests_view, fold_path, leaf_hash, leaf_of, verify, Digest};
use crate::tree::{lemma_proof_complete, tree_proof, tree_root};

verus! {

/// One distribution: the committed Merkle root, fixed at creation, and the
/// bitmap of the allocation indices claimed so far.
pub struct Distributor {
    pub root: Digest,
    pub bitmap: Vec<u8>,
}

/// The receipt of a successful claim: `amount` tokens of allocation `index`
/// go to the address `account`.
#[derive(Debug, Clone, Copy, PartialEq, Eq)]
pub struct Claimed {
    pub index: u64,
    pub account: Digest,
    pub amount: u64,
}

/// Why a claim was rejected.
#[derive(Debug, Clone, Copy, PartialEq, Eq, Structural)]
pub enum AirdropError {
    /// The allocation's bit is already set.
    AlreadyClaimed,
    /// The proof does not lead from the allocation's leaf to the root.
    InvalidProof,
    /// The token transfer failed after the claim was recorded; the record
    /// was undone.
    TransferFailed,
}

/// The outcome of claiming allocation `(index, recipient, amount)` with
/// `proof` against `root` and `bitmap`: the bitmap afterwards, or the
/// reason for the rejection. An index already claimed is rejected before
/// the proof is looked at.
pub open spec fn claim_outcome(
    root: Seq<u8>,
    bitmap: Seq<u8>,
    index: u64,
    recipient: Seq<u8>,
    amount: u64,
    proof: Seq<Seq<u8>>,
) -> Result<Seq<u8>, AirdropError> {
    if bit_set(bitmap, index) {
        Err(AirdropError::AlreadyClaimed)
    } else if fold_path(leaf_of(index, recipient, amount), proof) != root {
        Err(AirdropError::InvalidProof)
    } else {
        Ok(marked(bitmap, index))
    }
}

/// Creates a distribution committed to `root`, with nothing claimed yet.
pub fn init(root: Digest) -> (d: Distributor)
    ensures
        d.root == root,
        d.bitmap@ == Seq::<u8>::empty(),
{
    Distributor { root, bitmap: Vec::new() }
}

/// Claims allocation `(index, recipient, amount)`. The claim is rejected
/// when `index` was claimed already, or when `proof` does not lead from the
/// allocation's leaf to the root. Otherwise `index` is marked claimed, and
/// the receipt names the transfer that is owed; it is marked before any
/// transfer takes place. The root never changes, and a rejected claim leaves
/// the bitmap as it was.
pub fn claim(
    distributor: &mut Distributor,
    recipient: Digest,
    index: u64,
    amount: u64,
    proof: Vec<Digest>,
) -> (r: Result<Claimed, AirdropError>)
    requires
        byte_of(index) < usize::MAX,
    ensures
        final(distributor).root == old(distributor).root,
        match claim_outcome(
            old(distributor).root@,
            old(distributor).bitmap@,
            index,
            recipient@,
            amount,
            digests_view(proof@),
        ) {
            Ok(b) => final(distributor).bitmap@ == b && r == Ok::<Claimed, AirdropError>(
                Claimed { index, account: recipient, amount },
            ),
            Err(e) => final(distributor).bitmap@ == old(distributor).bitmap@ && r == Err::<
                Claimed,
                AirdropError,
            >(e),
        },
{
    if get_claimed(&distributor.bitmap, index) {
        return Err(AirdropError::AlreadyClaimed);
    }
    let leaf = leaf_hash(index, &recipient, amount);
    if !verify(proof, distributor.root, leaf) {
        return Err(AirdropError::InvalidProof);
    }
    set_claimed(&mut distributor.bitmap, index);
    Ok(Claimed { index, account: recipient, amount })
}

/// Completes a claim once its transfer was attempted. When the transfer went
/// through, the receipt stands and nothing changes. When it failed, the
/// bitmap goes back to `before`, what it held before the claim, so that the
/// allocation can be claimed again.
pub fn settle(
    distributor: &mut Distributor,
    before: Vec<u8>,
    receipt: Claimed,
    transferred: bool,
) -> (r: Result<Claimed, AirdropError>)
    ensures
        final(distributor).root == old(distributor).root,
        transferred ==> final(distributor).bitmap@ == old(distributor).bitmap@ && r == Ok::<
            Claimed,
            AirdropError,
        >(receipt),
        !transferred ==> final(distributor).bitmap@ == before@ && r == Err::<
            Claimed,
            AirdropError,
        >(AirdropError::TransferFailed),
{
    if transferred {
        Ok(receipt)
    } else {
        distributor.bitmap = before;
        Err(AirdropError::TransferFailed)
    }
}

/// A claim goes through exactly when its index is unclaimed and its proof
/// folds the allocation's leaf up to the committed root.
pub proof fn lemma_claim_succeeds_iff(
    root: Seq<u8>,
    bitmap: Seq<u8>,
    index: u64,
    recipient: Seq<u8>,
    amount: u64,
    proof: Seq<Seq<u8>>,
)
    ensures
        claim_outcome(root, bitmap, index, recipient, amount, proof) is Ok <==> (!bit_set(
            bitmap,
            index,
        ) && fold_path(leaf_of(index, recipient, amount), proof) == root),
{
}

/// Once a claim on an index has gone through, every later claim on that
/// index is rejected as already claimed, whatever its recipient, amount and
/// proof, and so leaves the bitmap as it is.
pub proof fn lemma_no_double_claim(
    root: Seq<u8>,
    bitmap: Seq<u8>,
    after: Seq<u8>,
    index: u64,
    recipient: Seq<u8>,
    amount: u64,
    proof: Seq<Seq<u8>>,
    other_recipient: Seq<u8>,
    other_amount: u64,
    other_proof: Seq<Seq<u8>>,
)
    requires
        claim_outcome(root, bitmap, index, recipient, amount, proof) == Ok::<
            Seq<u8>,
            AirdropError,
        >(after),
    ensures
        claim_outcome(root, after, index, other_recipient, other_amount, other_proof) == Err::<
            Seq<u8>,
            AirdropError,
        >(AirdropError::AlreadyClaimed),
{
    lemma_marked_bits(bitmap, index, index);
}

/// A genuine allocation, claimed for the first time with the path that the
/// tree's construction gives its leaf, goes through and marks its index.
pub proof fn lemma_genuine_claim_succeeds(
    leaves: Seq<Seq<u8>>,
    bitmap: Seq<u8>,
    index: u64,
    recipient: Seq<u8>,
    amount: u64,
)
    requires
        index < leaves.len(),
        leaves[index as int] == leaf_of(index, recipient, amount),
        !bit_set(bitmap, index),
    ensures
        claim_outcome(
            tree_root(leaves),
            bitmap,
            index,
            recipient,
            amount,
            tree_proof(leaves, index as int),
        ) == Ok::<Seq<u8>, AirdropError>(marked(bitmap, index)),
{
    lemma_proof_complete(leaves, index as int);
}

} // verus!
