//! Leaf digests and Merkle inclusion proofs with a sorted-pair combiner.
use vstd::prelude::*;

verus! {

/// A 32-byte digest: a Merkle root, a leaf, or a proof sibling.
pub type Digest = [u8; 32];

/// The Keccak-256 digest of a byte string.
pub uninterp spec fn keccak256_of(data: Seq<u8>) -> Seq<u8>;

/// Relies on `solana_program::keccak::hashv`, which feeds each slice to one
/// Keccak-256 hasher and returns its 32-byte digest. It is given one slice.
#[verifier::external_body]
fn keccak256(data: &[u8]) -> (r: Digest)
    ensures
        r@ == keccak256_of(data@),
{
    anchor_lang::solana_program::keccak::hashv(&[data]).0
}

/// Unsigned lexicographic order on byte strings, as Rust orders byte arrays.
pub open spec fn lex_le(a: Seq<u8>, b: Seq<u8>) -> bool
    decreases a.len(),
{
    if a.len() == 0 {
        true
    } else if b.len() == 0 {
        false
    } else if a[0] != b[0] {
        a[0] < b[0]
    } else {
        lex_le(a.drop_first(), b.drop_first())
    }
}

/// Compares two digests byte by byte, most significant first.
pub fn digest_le(a: &Digest, b: &Digest) -> (r: bool)
    ensures
        r == lex_le(a@, b@),
{
    let mut i: usize = 0;
    assert(a@.skip(0) =~= a@);
    assert(b@.skip(0) =~= b@);
    while i < 32
        invariant
            i <= 32,
            a@.len() == 32,
            b@.len() == 32,
            lex_le(a@, b@) == lex_le(a@.skip(i as int), b@.skip(i as int)),
        decreases 32 - i,
    {
        if a[i] != b[i] {
            return a[i] < b[i];
        }
        assert(a@.skip(i as int).drop_first() =~= a@.skip(i + 1));
        assert(b@.skip(i as int).drop_first() =~= b@.skip(i + 1));
        i += 1;
    }
    true
}

/// Tells whether two digests hold the same bytes.
pub fn digest_eq(a: &Digest, b: &Digest) -> (r: bool)
    ensures
        r == (a@ == b@),
{
    let mut i: usize = 0;
    while i < 32
        invariant
            i <= 32,
            a@.len() == 32,
            b@.len() == 32,
            forall|j: int| 0 <= j < i ==> a@[j] == b@[j],
        decreases 32 - i,
    {
        if a[i] != b[i] {
            return false;
        }
        i += 1;
    }
    assert(a@ =~= b@);
    true
}

/// The digest of an inner node: the two children are hashed in sorted order,
/// so that a node does not depend on which child stood on the left.
pub open spec fn parent_of(a: Seq<u8>, b: Seq<u8>) -> Seq<u8> {
    if lex_le(a, b) {
        keccak256_of(a + b)
    } else {
        keccak256_of(b + a)
    }
}

/// The `n` low-order bytes of `x`, least significant first.
pub open spec fn le_bytes(x: nat, n: nat) -> Seq<u8>
    decreases n,
{
    if n == 0 {
        seq![]
    } else {
        seq![(x % 256) as u8] + le_bytes(x / 256, (n - 1) as nat)
    }
}

/// The bytes that a leaf digest is taken over: the index and the amount as
/// eight little-endian bytes each, around the recipient's address.
pub open spec fn leaf_preimage(index: u64, recipient: Seq<u8>, amount: u64) -> Seq<u8> {
    le_bytes(index as nat, 8) + recipient + le_bytes(amount as nat, 8)
}

/// The leaf digest of the allocation `(index, recipient, amount)`.
pub open spec fn leaf_of(index: u64, recipient: Seq<u8>, amount: u64) -> Seq<u8> {
    keccak256_of(leaf_preimage(index, recipient, amount))
}

/// The digest reached from `leaf` by combining it with each sibling of
/// `proof` in turn.
pub open spec fn fold_path(leaf: Seq<u8>, proof: Seq<Seq<u8>>) -> Seq<u8>
    decreases proof.len(),
{
    if proof.len() == 0 {
        leaf
    } else {
        parent_of(fold_path(leaf, proof.drop_last()), proof.last())
    }
}

/// The byte strings of a sequence of digests.
pub open spec fn digests_view(ds: Seq<Digest>) -> Seq<Seq<u8>> {
    ds.map_values(|d: Digest| d@)
}

/// Appends the bytes of `d` to `out`.
fn push_digest(out: &mut Vec<u8>, d: &Digest)
    ensures
        final(out)@ == old(out)@ + d@,
{
    let ghost start = out@;
    let mut i: usize = 0;
    while i < 32
        invariant
            i <= 32,
            d@.len() == 32,
            out@ == start + d@.take(i as int),
        decreases 32 - i,
    {
        out.push(d[i]);
        assert(d@.take(i + 1) =~= d@.take(i as int).push(d@[i as int]));
        i += 1;
    }
    assert(d@.take(32) =~= d@);
}

/// Appends the eight little-endian bytes of `x` to `out`.
fn push_le_u64(out: &mut Vec<u8>, x: u64)
    ensures
        final(out)@ == old(out)@ + le_bytes(x as nat, 8),
{
    let ghost start = out@;
    let mut v: u64 = x;
    let mut k: usize = 0;
    while k < 8
        invariant
            k <= 8,
            out@ + le_bytes(v as nat, (8 - k) as nat) == start + le_bytes(x as nat, 8),
        decreases 8 - k,
    {
        let ghost rest = le_bytes(v as nat / 256, (7 - k) as nat);
        assert(le_bytes(v as nat, (8 - k) as nat) == seq![(v as nat % 256) as u8] + rest);
        assert(out@ + (seq![(v as nat % 256) as u8] + rest) =~= out@.push((v % 256) as u8) + rest);
        out.push((v % 256) as u8);
        v = v / 256;
        k += 1;
    }
    assert(out@ + le_bytes(v as nat, 0) =~= out@);
}

/// Combines two digests into their parent: the smaller one (in unsigned
/// lexicographic order) is hashed first.
pub fn hash_pair(a: &Digest, b: &Digest) -> (r: Digest)
    ensures
        r@ == parent_of(a@, b@),
{
    let mut buf: Vec<u8> = Vec::new();
    if digest_le(a, b) {
        push_digest(&mut buf, a);
        push_digest(&mut buf, b);
    } else {
        push_digest(&mut buf, b);
        push_digest(&mut buf, a);
    }
    keccak256(buf.as_slice())
}

/// The leaf digest of an allocation: Keccak-256 over the index, the
/// recipient's address and the amount, the integers little-endian.
pub fn leaf_hash(index: u64, recipient: &Digest, amount: u64) -> (r: Digest)
    ensures
        r@ == leaf_of(index, recipient@, amount),
{
    let mut buf: Vec<u8> = Vec::new();
    push_le_u64(&mut buf, index);
    push_digest(&mut buf, recipient);
    push_le_u64(&mut buf, amount);
    assert(buf@ =~= leaf_preimage(index, recipient@, amount));
    keccak256(buf.as_slice())
}

/// Checks that `leaf` belongs to the tree committed to by `root`: the
/// siblings of `proof` are combined with it from the leaf upwards, and the
/// digest reached must be `root`. An empty proof holds when `leaf` is `root`.
pub fn verify(proof: Vec<Digest>, root: Digest, leaf: Digest) -> (r: bool)
    ensures
        r == (fold_path(leaf@, digests_view(proof@)) == root@),
{
    let ghost path = digests_view(proof@);
    let mut node: Digest = leaf;
    let mut i: usize = 0;
    assert(path.take(0) =~= Seq::<Seq<u8>>::empty());
    while i < proof.len()
        invariant
            i <= proof.len(),
            path == digests_view(proof@),
            node@ == fold_path(leaf@, path.take(i as int)),
        decreases proof.len() - i,
    {
        let p: Digest = proof[i];
        assert(path.take(i + 1).drop_last() =~= path.take(i as int));
        node = hash_pair(&node, &p);
        i += 1;
    }
    assert(path.take(proof.len() as int) =~= path);
    digest_eq(&node, &root)
}

/// Any two byte strings are ordered one way or the other.
pub proof fn lemma_lex_total(a: Seq<u8>, b: Seq<u8>)
    ensures
        lex_le(a, b) || lex_le(b, a),
    decreases a.len(),
{
    if a.len() > 0 && b.len() > 0 && a[0] == b[0] {
        lemma_lex_total(a.drop_first(), b.drop_first());
    }
}

/// Two byte strings that are each ordered before the other are equal.
pub proof fn lemma_lex_antisymmetric(a: Seq<u8>, b: Seq<u8>)
    requires
        lex_le(a, b),
        lex_le(b, a),
    ensures
        a == b,
    decreases a.len(),
{
    if a.len() == 0 {
        assert(a =~= b);
    } else {
        assert(b.len() > 0 && a[0] == b[0]);
        lemma_lex_antisymmetric(a.drop_first(), b.drop_first());
        assert(a.drop_first() == b.drop_first());
        assert(a.drop_first().len() == b.drop_first().len());
        assert(a.len() == b.len());
        assert(a =~= b) by {
            assert forall|i: int| 0 <= i < a.len() implies a[i] == b[i] by {
                if i > 0 {
                    assert(a[i] == a.drop_first()[i - 1]);
                    assert(b[i] == b.drop_first()[i - 1]);
                }
            }
        }
    }
}

/// The parent digest does not depend on which child was on the left: the
/// children are hashed in sorted order either way.
pub proof fn lemma_parent_symmetric(a: Seq<u8>, b: Seq<u8>)
    ensures
        parent_of(a, b) == parent_of(b, a),
{
    lemma_lex_total(a, b);
    if lex_le(a, b) && lex_le(b, a) {
        lemma_lex_antisymmetric(a, b);
    }
}

/// `256` to the power `n`.
pub open spec fn pow256(n: nat) -> nat
    decreases n,
{
    if n == 0 {
        1
    } else {
        256 * pow256((n - 1) as nat)
    }
}

proof fn lemma_le_bytes_len(x: nat, n: nat)
    ensures
        le_bytes(x, n).len() == n,
    decreases n,
{
    if n > 0 {
        lemma_le_bytes_len(x / 256, (n - 1) as nat);
    }
}

proof fn lemma_le_bytes_injective(x: nat, y: nat, n: nat)
    requires
        le_bytes(x, n) == le_bytes(y, n),
        x < pow256(n),
        y < pow256(n),
    ensures
        x == y,
    decreases n,
{
    if n > 0 {
        let m = (n - 1) as nat;
        assert(le_bytes(x, n).drop_first() =~= le_bytes(x / 256, m));
        assert(le_bytes(y, n).drop_first() =~= le_bytes(y / 256, m));
        assert(le_bytes(x, n)[0] == (x % 256) as u8);
        assert(le_bytes(y, n)[0] == (y % 256) as u8);
        assert(x % 256 == y % 256);
        assert(x / 256 < pow256(m)) by (nonlinear_arith)
            requires
                x < 256 * pow256(m),
        ;
        assert(y / 256 < pow256(m)) by (nonlinear_arith)
            requires
                y < 256 * pow256(m),
        ;
        lemma_le_bytes_injective(x / 256, y / 256, m);
    }
}

/// The bytes a leaf digest is taken over determine the allocation: two
/// allocations whose addresses are 32 bytes long and that differ in the
/// index, the recipient or the amount hash different byte strings.
pub proof fn lemma_leaf_preimage_injective(
    index1: u64,
    recipient1: Seq<u8>,
    amount1: u64,
    index2: u64,
    recipient2: Seq<u8>,
    amount2: u64,
)
    requires
        recipient1.len() == 32,
        recipient2.len() == 32,
        leaf_preimage(index1, recipient1, amount1) == leaf_preimage(index2, recipient2, amount2),
    ensures
        index1 == index2,
        recipient1 == recipient2,
        amount1 == amount2,
{
    let i1 = le_bytes(index1 as nat, 8);
    let i2 = le_bytes(index2 as nat, 8);
    let a1 = le_bytes(amount1 as nat, 8);
    let a2 = le_bytes(amount2 as nat, 8);
    lemma_le_bytes_len(index1 as nat, 8);
    lemma_le_bytes_len(index2 as nat, 8);
    lemma_le_bytes_len(amount1 as nat, 8);
    lemma_le_bytes_len(amount2 as nat, 8);
    let s = leaf_preimage(index1, recipient1, amount1);
    assert(s.subrange(0, 8) =~= i1);
    assert(s.subrange(0, 8) =~= i2);
    assert(s.subrange(8, 40) =~= recipient1);
    assert(s.subrange(8, 40) =~= recipient2);
    assert(s.subrange(40, 48) =~= a1);
    assert(s.subrange(40, 48) =~= a2);
    reveal_with_fuel(pow256, 9);
    assert(pow256(8) == 0x1_0000_0000_0000_0000);
    lemma_le_bytes_injective(index1 as nat, index2 as nat, 8);
    lemma_le_bytes_injective(amount1 as nat, amount2 as nat, 8);
}

} // verus!
