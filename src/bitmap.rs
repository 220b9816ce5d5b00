//! A growable bit-vector of claimed allocation indices.
//!
//! Bit `index % 8` of byte `index / 8` records whether `index` was claimed.
//! Bytes beyond the end read as zero, so an index that was never written
//! reads as unclaimed; the vector grows only when a higher index is marked.
use vstd::prelude::*;

verus! {

/// The byte that holds the bit of `index`.
pub open spec fn byte_of(index: u64) -> int {
    index as int / 8
}

/// The mask of the bit of `index` within its byte.
pub open spec fn mask_of(index: u64) -> u8 {
    1u8 << ((index % 8) as u8)
}

/// Byte `j` of `bitmap`, where bytes past the end are zero.
pub open spec fn byte_at(bitmap: Seq<u8>, j: int) -> u8 {
    if 0 <= j < bitmap.len() {
        bitmap[j]
    } else {
        0
    }
}

/// Whether the bit of `index` is set in `bitmap`.
pub open spec fn bit_set(bitmap: Seq<u8>, index: u64) -> bool {
    byte_at(bitmap, byte_of(index)) & mask_of(index) != 0
}

/// The bitmap after the bit of `index` is set: grown with zero bytes up to
/// the byte of `index` when it is shorter, and that one byte or-ed with the
/// bit's mask.
pub open spec fn marked(bitmap: Seq<u8>, index: u64) -> Seq<u8> {
    let len = if byte_of(index) < bitmap.len() {
        bitmap.len() as int
    } else {
        byte_of(index) + 1
    };
    Seq::new(
        len as nat,
        |j: int|
            if j == byte_of(index) {
                byte_at(bitmap, j) | mask_of(index)
            } else {
                byte_at(bitmap, j)
            },
    )
}

/// Tells whether `index` is recorded as claimed. An index whose byte lies
/// past the end of the bitmap is unclaimed.
pub fn get_claimed(bitmap: &Vec<u8>, index: u64) -> (r: bool)
    ensures
        r == bit_set(bitmap@, index),
{
    let byte: u64 = index / 8;
    if byte >= bitmap.len() as u64 {
        proof {
            let m = mask_of(index);
            assert(0u8 & m == 0u8) by (bit_vector);
        }
        return false;
    }
    let mask: u8 = 1u8 << ((index % 8) as u8);
    bitmap[byte as usize] & mask != 0
}

/// Records `index` as claimed, growing the bitmap with zero bytes first when
/// its byte lies past the end.
pub fn set_claimed(bitmap: &mut Vec<u8>, index: u64)
    requires
        byte_of(index) < usize::MAX,
    ensures
        final(bitmap)@ == marked(old(bitmap)@, index),
{
    let byte: usize = (index / 8) as usize;
    while bitmap.len() <= byte
        invariant
            byte == byte_of(index),
            byte < usize::MAX,
            forall|j: int| 0 <= j < bitmap@.len() ==> bitmap@[j] == byte_at(old(bitmap)@, j),
            old(bitmap)@.len() <= bitmap@.len() <= if byte_of(index) < old(bitmap)@.len() {
                old(bitmap)@.len() as int
            } else {
                byte_of(index) + 1
            },
        decreases byte + 1 - bitmap.len(),
    {
        bitmap.push(0);
    }
    let mask: u8 = 1u8 << ((index % 8) as u8);
    let cur: u8 = bitmap[byte];
    bitmap.set(byte, cur | mask);
    assert(bitmap@ =~= marked(old(bitmap)@, index));
}

/// Marking `index` sets its bit and no other: afterwards an index reads as
/// claimed exactly when it is `index` or read as claimed before.
pub proof fn lemma_marked_bits(bitmap: Seq<u8>, index: u64, other: u64)
    ensures
        bit_set(marked(bitmap, index), other) == (other == index || bit_set(bitmap, other)),
{
    let m = marked(bitmap, index);
    let x = byte_at(bitmap, byte_of(other));
    let c = (other % 8) as u8;
    if byte_of(other) == byte_of(index) {
        let a = (index % 8) as u8;
        assert(byte_at(m, byte_of(other)) == x | mask_of(index));
        assert(((x | (1u8 << a)) & (1u8 << c) != 0u8) == (a == c || (x & (1u8 << c)) != 0u8))
            by (bit_vector)
            requires
                a < 8,
                c < 8,
        ;
        assert((other == index) == (a == c));
    } else {
        assert(byte_at(m, byte_of(other)) == x);
    }
}

/// Marking an index whose byte lies past the end of the bitmap grows it to
/// exactly one byte past that byte: the old bytes stay, the new bytes before
/// it are zero, and the new last byte holds the index's bit alone.
pub proof fn lemma_marked_growth(bitmap: Seq<u8>, index: u64)
    requires
        byte_of(index) >= bitmap.len(),
    ensures
        marked(bitmap, index).len() == byte_of(index) + 1,
        forall|j: int| 0 <= j < bitmap.len() ==> #[trigger] marked(bitmap, index)[j] == bitmap[j],
        forall|j: int|
            bitmap.len() <= j < byte_of(index) ==> #[trigger] marked(bitmap, index)[j] == 0,
        marked(bitmap, index)[byte_of(index)] == mask_of(index),
{
    let m = mask_of(index);
    assert(0u8 | m == m) by (bit_vector);
}

} // verus!
