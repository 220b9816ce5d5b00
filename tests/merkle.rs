use airdrop_dist::merkle::{digest_eq, digest_le, hash_pair, leaf_hash, verify, Digest};

const LEAF_0_SEVENS_100: Digest = [
    225, 233, 243, 136, 65, 181, 119, 133, 185, 72, 41, 176, 83, 128, 241, 93, 6, 131, 27, 21,
    144, 75, 251, 25, 12, 70, 68, 24, 69, 225, 206, 241,
];

const PARENT_ONES_TWOS: Digest = [
    52, 109, 140, 150, 162, 69, 66, 19, 252, 192, 218, 255, 60, 150, 173, 3, 152, 20, 129, 129,
    185, 250, 100, 136, 247, 174, 44, 10, 245, 178, 10, 160,
];

#[test]
fn leaf_hash_is_keccak_of_index_recipient_amount() {
    assert_eq!(leaf_hash(0, &[7u8; 32], 100), LEAF_0_SEVENS_100);
}

#[test]
fn hash_pair_exact_value() {
    assert_eq!(hash_pair(&[1u8; 32], &[2u8; 32]), PARENT_ONES_TWOS);
}

#[test]
fn hash_pair_order_independent() {
    let a = leaf_hash(0, &[7u8; 32], 100);
    let b = leaf_hash(1, &[9u8; 32], 50);
    assert_eq!(hash_pair(&a, &b), hash_pair(&b, &a));
    assert_eq!(hash_pair(&[2u8; 32], &[1u8; 32]), PARENT_ONES_TWOS);
}

#[test]
fn digest_order_is_lexicographic() {
    let mut a = [0u8; 32];
    let mut b = [0u8; 32];
    assert!(digest_le(&a, &b));
    a[0] = 1;
    b[31] = 255;
    assert!(!digest_le(&a, &b));
    assert!(digest_le(&b, &a));
    assert!(digest_eq(&a, &a));
    assert!(!digest_eq(&a, &b));
}

#[test]
fn empty_proof_accepts_only_the_root_itself() {
    let leaf = leaf_hash(3, &[1u8; 32], 10);
    assert!(verify(Vec::new(), leaf, leaf));
    assert!(!verify(Vec::new(), [0u8; 32], leaf));
}

#[test]
fn tampered_inputs_are_rejected() {
    let alice = [0xA1u8; 32];
    let l0 = leaf_hash(0, &alice, 100);
    let l1 = leaf_hash(1, &[0xB0u8; 32], 50);
    let root = hash_pair(&l0, &l1);
    assert!(verify(vec![l1], root, l0));
    assert!(!verify(vec![l1], root, leaf_hash(0, &alice, 101)));
    assert!(!verify(vec![l1], root, leaf_hash(2, &alice, 100)));
    let mut mallory = alice;
    mallory[31] ^= 1;
    assert!(!verify(vec![l1], root, leaf_hash(0, &mallory, 100)));
    let mut sibling = l1;
    sibling[0] ^= 0x80;
    assert!(!verify(vec![sibling], root, l0));
}

#[test]
fn three_leaf_tree_promotes_the_odd_leaf() {
    let l0 = leaf_hash(0, &[1u8; 32], 10);
    let l1 = leaf_hash(1, &[2u8; 32], 20);
    let l2 = leaf_hash(2, &[3u8; 32], 30);
    let n01 = hash_pair(&l0, &l1);
    let root = hash_pair(&n01, &l2);
    assert!(verify(vec![l1, l2], root, l0));
    assert!(verify(vec![l0, l2], root, l1));
    assert!(verify(vec![n01], root, l2));
    assert!(!verify(vec![l0, l1], root, l2));
}
