use airdrop_dist::bitmap::{get_claimed, set_claimed};

#[test]
fn unclaimed_beyond_the_end() {
    let bitmap: Vec<u8> = Vec::new();
    assert!(!get_claimed(&bitmap, 0));
    assert!(!get_claimed(&bitmap, u64::MAX));
}

#[test]
fn growth_zero_fills_and_sets_one_bit() {
    let mut bitmap: Vec<u8> = vec![0b0000_0001];
    set_claimed(&mut bitmap, 17);
    assert_eq!(bitmap, vec![0b0000_0001, 0, 0b0000_0010]);
    assert!(get_claimed(&bitmap, 0));
    assert!(get_claimed(&bitmap, 17));
    for i in 1..24u64 {
        if i != 17 {
            assert!(!get_claimed(&bitmap, i));
        }
    }
}

#[test]
fn marking_within_the_bitmap_keeps_its_length() {
    let mut bitmap: Vec<u8> = vec![0, 0];
    set_claimed(&mut bitmap, 15);
    assert_eq!(bitmap, vec![0, 0b1000_0000]);
    set_claimed(&mut bitmap, 8);
    assert_eq!(bitmap, vec![0, 0b1000_0001]);
}

#[test]
fn marking_twice_is_idempotent() {
    let mut bitmap: Vec<u8> = Vec::new();
    set_claimed(&mut bitmap, 5);
    let once = bitmap.clone();
    set_claimed(&mut bitmap, 5);
    assert_eq!(bitmap, once);
    assert_eq!(bitmap, vec![0b0010_0000]);
}
