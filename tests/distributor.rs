use airdrop_dist::distributor::{claim, init, settle, AirdropError, Claimed};
use airdrop_dist::merkle::{hash_pair, leaf_hash};
use airdrop_dist::supply::initial_supply;

const ALICE: [u8; 32] = [0xA1; 32];
const BOB: [u8; 32] = [0xB0; 32];

#[test]
fn two_leaf_scenario() {
    let l0 = leaf_hash(0, &ALICE, 100);
    let l1 = leaf_hash(1, &BOB, 50);
    let root = hash_pair(&l0, &l1);
    let mut dist = init(root);
    assert!(dist.bitmap.is_empty());

    let r = claim(&mut dist, ALICE, 0, 100, vec![l1]);
    assert_eq!(r, Ok(Claimed { index: 0, account: ALICE, amount: 100 }));

    let bitmap = dist.bitmap.clone();
    assert_eq!(claim(&mut dist, ALICE, 0, 100, vec![l1]), Err(AirdropError::AlreadyClaimed));
    assert_eq!(dist.bitmap, bitmap);

    let r = claim(&mut dist, BOB, 1, 50, vec![l0]);
    assert_eq!(r, Ok(Claimed { index: 1, account: BOB, amount: 50 }));

    let mut fresh = init(root);
    assert_eq!(claim(&mut fresh, BOB, 1, 50, vec![l1]), Err(AirdropError::InvalidProof));
    assert!(fresh.bitmap.is_empty());
    assert_eq!(fresh.root, root);
}

#[test]
fn claim_binds_the_recipient() {
    let l0 = leaf_hash(0, &ALICE, 100);
    let l1 = leaf_hash(1, &BOB, 50);
    let mut dist = init(hash_pair(&l0, &l1));
    assert_eq!(claim(&mut dist, BOB, 0, 100, vec![l1]), Err(AirdropError::InvalidProof));
    assert_eq!(claim(&mut dist, ALICE, 0, 99, vec![l1]), Err(AirdropError::InvalidProof));
    assert!(dist.bitmap.is_empty());
}

#[test]
fn double_claim_with_another_proof_is_rejected() {
    let l0 = leaf_hash(0, &ALICE, 100);
    let l1 = leaf_hash(1, &BOB, 50);
    let mut dist = init(hash_pair(&l0, &l1));
    assert!(claim(&mut dist, ALICE, 0, 100, vec![l1]).is_ok());
    assert_eq!(claim(&mut dist, BOB, 0, 7, Vec::new()), Err(AirdropError::AlreadyClaimed));
    assert_eq!(dist.bitmap, vec![0b0000_0001]);
}

#[test]
fn failed_transfer_rolls_the_claim_back() {
    let leaf = leaf_hash(42, &ALICE, 5);
    let mut dist = init(leaf);
    let before = dist.bitmap.clone();
    let receipt = claim(&mut dist, ALICE, 42, 5, Vec::new()).unwrap();
    assert_eq!(dist.bitmap, vec![0, 0, 0, 0, 0, 0b0000_0100]);
    assert_eq!(settle(&mut dist, before, receipt, false), Err(AirdropError::TransferFailed));
    assert!(dist.bitmap.is_empty());
    let receipt = claim(&mut dist, ALICE, 42, 5, Vec::new()).unwrap();
    assert_eq!(settle(&mut dist, Vec::new(), receipt, true), Ok(receipt));
    assert_eq!(dist.bitmap, vec![0, 0, 0, 0, 0, 0b0000_0100]);
}

#[test]
fn fixed_supply_is_a_billion_tokens_of_nine_decimals() {
    assert_eq!(initial_supply(), 1_000_000_000_000_000_000);
}
