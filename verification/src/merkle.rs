//! Merkle commitments to ordered lists of leaves.
//!
//! The empty list commits to 32 zero bytes and a single leaf to itself. A
//! longer list is split at the largest power of two below its length; its
//! root is the node hash of the roots of the two parts. A proof for a leaf
//! lists the roots of the parts that were left aside on the way down, the
//! one nearest the leaf first.

use crate::bytes::bytes_eq;
use crate::hash::{hash_node, node_hash, node_preimage, sha256};
use vstd::array::spec_array_fill_for_copy_type;
use vstd::prelude::*;

verus! {

/// Doubles `power` as long as twice its value stays below `length`.
pub open spec fn split_from(power: nat, length: nat) -> nat
    decreases length - power,
{
    if 0 < power && 2 * power < length {
        split_from(2 * power, length)
    } else {
        power
    }
}

/// Where a list of `length` leaves is split: the largest power of two below
/// `length`, for a `length` of two or more.
pub open spec fn split_point(length: nat) -> nat {
    split_from(1, length)
}

/// The split leaves both parts non-empty, and the left part is at least as
/// long as the right one.
pub proof fn lemma_split_bounds(power: nat, length: nat)
    requires
        0 < power < length,
    ensures
        power <= split_from(power, length) < length,
        length <= 2 * split_from(power, length),
    decreases length - power,
{
    if 2 * power < length {
        lemma_split_bounds(2 * power, length);
    }
}

/// The commitment to no leaves at all.
pub open spec fn empty_root() -> [u8; 32] {
    spec_array_fill_for_copy_type::<u8, 32>(0u8)
}

/// The commitment to `leaves`, in their order.
pub open spec fn merkle_root(leaves: Seq<[u8; 32]>) -> [u8; 32]
    decreases leaves.len(),
{
    let split = split_point(leaves.len()) as int;
    if leaves.len() == 0 {
        empty_root()
    } else if leaves.len() == 1 || !(0 < split < leaves.len()) {
        leaves[0]
    } else {
        node_hash(
            merkle_root(leaves.subrange(0, split)),
            merkle_root(leaves.subrange(split, leaves.len() as int)),
        )
    }
}

/// The proof that the leaf at `index` belongs to the commitment to `leaves`.
pub open spec fn merkle_proof(leaves: Seq<[u8; 32]>, index: int) -> Seq<[u8; 32]>
    decreases leaves.len(),
{
    let split = split_point(leaves.len()) as int;
    if leaves.len() <= 1 || !(0 < split < leaves.len()) {
        Seq::empty()
    } else if index < split {
        merkle_proof(leaves.subrange(0, split), index).push(
            merkle_root(leaves.subrange(split, leaves.len() as int)),
        )
    } else {
        merkle_proof(leaves.subrange(split, leaves.len() as int), index - split).push(
            merkle_root(leaves.subrange(0, split)),
        )
    }
}

/// The root that a verifier recomputes from a leaf, its position in a list
/// of `size` leaves, and a proof. `None` where the position is outside the
/// list or the proof has not the length that the position asks for.
pub open spec fn root_from_proof(size: nat, index: nat, leaf: [u8; 32], proof: Seq<[u8; 32]>)
    -> Option<[u8; 32]>
    decreases size,
{
    let split = split_point(size);
    if index >= size {
        None
    } else if size == 1 {
        if proof.len() == 0 {
            Some(leaf)
        } else {
            None
        }
    } else if proof.len() == 0 || !(0 < split < size) {
        None
    } else if index < split {
        match root_from_proof(split, index, leaf, proof.drop_last()) {
            Some(left) => Some(node_hash(left, proof.last())),
            None => None,
        }
    } else {
        match root_from_proof((size - split) as nat, (index - split) as nat, leaf, proof.drop_last()) {
            Some(right) => Some(node_hash(proof.last(), right)),
            None => None,
        }
    }
}

/// Whether `proof` shows that `leaf` is at `index` in the list of `size`
/// leaves that `root` commits to.
pub open spec fn proof_verifies(
    root: [u8; 32],
    size: nat,
    index: nat,
    leaf: [u8; 32],
    proof: Seq<[u8; 32]>,
) -> bool {
    root_from_proof(size, index, leaf, proof) == Some(root)
}

/// Every proof that is built from a list verifies against the commitment to
/// that list.
pub proof fn lemma_proof_verifies(leaves: Seq<[u8; 32]>, index: int)
    requires
        0 <= index < leaves.len(),
    ensures
        proof_verifies(
            merkle_root(leaves),
            leaves.len(),
            index as nat,
            leaves[index],
            merkle_proof(leaves, index),
        ),
    decreases leaves.len(),
{
    let n = leaves.len();
    if n > 1 {
        lemma_split_bounds(1, n);
        let split = split_point(n) as int;
        let left = leaves.subrange(0, split);
        let right = leaves.subrange(split, n as int);
        let proof = merkle_proof(leaves, index);
        if index < split {
            lemma_proof_verifies(left, index);
            assert(proof.drop_last() =~= merkle_proof(left, index));
            assert(left[index] == leaves[index]);
        } else {
            lemma_proof_verifies(right, index - split);
            assert(proof.drop_last() =~= merkle_proof(right, index - split));
            assert(right[index - split] == leaves[index]);
        }
    }
}

/// Two byte strings with one SHA-256 digest.
pub open spec fn sha256_collision(first: Seq<u8>, second: Seq<u8>) -> bool {
    first != second && sha256(first) == sha256(second)
}

/// Two different pairs of children that hash to one parent are a collision.
proof fn lemma_node_collision(a: [u8; 32], b: [u8; 32], c: [u8; 32], d: [u8; 32])
    requires
        node_hash(a, b) == node_hash(c, d),
        a != c || b != d,
    ensures
        sha256_collision(node_preimage(a, b), node_preimage(c, d)),
{
    let x = node_preimage(a, b);
    let y = node_preimage(c, d);
    if x == y {
        assert forall|i: int| 0 <= i < 32 implies a[i] == c[i] by {
            assert(x[1 + i] == a@[i]);
            assert(y[1 + i] == c@[i]);
        }
        assert forall|i: int| 0 <= i < 32 implies b[i] == d[i] by {
            assert(x[33 + i] == b@[i]);
            assert(y[33 + i] == d@[i]);
        }
        assert(a =~= c);
        assert(b =~= d);
    }
}

/// A root opens to one leaf only, by one proof only, at each position: where
/// a changed leaf or a changed proof still verifies, the two openings hold a
/// SHA-256 collision.
pub proof fn lemma_changed_opening_collides(
    root: [u8; 32],
    size: nat,
    index: nat,
    leaf: [u8; 32],
    proof: Seq<[u8; 32]>,
    other_leaf: [u8; 32],
    other_proof: Seq<[u8; 32]>,
)
    requires
        proof_verifies(root, size, index, leaf, proof),
        proof_verifies(root, size, index, other_leaf, other_proof),
        leaf != other_leaf || proof != other_proof,
    ensures
        exists|first: Seq<u8>, second: Seq<u8>| sha256_collision(first, second),
    decreases size,
{
    if size == 1 {
        assert(proof =~= other_proof);
    } else {
        let split = split_point(size);
        let (sub_size, sub_index) = if index < split {
            (split, index)
        } else {
            ((size - split) as nat, (index - split) as nat)
        };
        let below = root_from_proof(sub_size, sub_index, leaf, proof.drop_last()).unwrap();
        let other_below = root_from_proof(
            sub_size,
            sub_index,
            other_leaf,
            other_proof.drop_last(),
        ).unwrap();
        if below == other_below && proof.last() == other_proof.last() {
            if proof.drop_last() == other_proof.drop_last() {
                assert(proof =~= proof.drop_last().push(proof.last()));
                assert(other_proof =~= other_proof.drop_last().push(other_proof.last()));
            }
            lemma_changed_opening_collides(
                below,
                sub_size,
                sub_index,
                leaf,
                proof.drop_last(),
                other_leaf,
                other_proof.drop_last(),
            );
        } else if index < split {
            lemma_node_collision(below, proof.last(), other_below, other_proof.last());
        } else {
            lemma_node_collision(proof.last(), below, other_proof.last(), other_below);
        }
    }
}

/// Whether two openings of one position hold a SHA-256 collision: on the
/// way from the leaves to the root, two different pairs of children that
/// hash to one parent.
pub open spec fn openings_collide(
    size: nat,
    index: nat,
    leaf: [u8; 32],
    proof: Seq<[u8; 32]>,
    other_leaf: [u8; 32],
    other_proof: Seq<[u8; 32]>,
) -> bool
    decreases size,
{
    let split = split_point(size);
    if size <= 1 || index >= size || proof.len() == 0 || other_proof.len() == 0 || !(0 < split
        < size) {
        false
    } else {
        let sub_size = if index < split {
            split
        } else {
            (size - split) as nat
        };
        let sub_index = if index < split {
            index
        } else {
            (index - split) as nat
        };
        let below = root_from_proof(sub_size, sub_index, leaf, proof.drop_last());
        let other_below = root_from_proof(sub_size, sub_index, other_leaf, other_proof.drop_last());
        below.is_some() && other_below.is_some() && ({
            ||| index < split && sha256_collision(
                node_preimage(below.unwrap(), proof.last()),
                node_preimage(other_below.unwrap(), other_proof.last()),
            )
            ||| index >= split && sha256_collision(
                node_preimage(proof.last(), below.unwrap()),
                node_preimage(other_proof.last(), other_below.unwrap()),
            )
            ||| openings_collide(
                sub_size,
                sub_index,
                leaf,
                proof.drop_last(),
                other_leaf,
                other_proof.drop_last(),
            )
        })
    }
}

/// Two different openings that verify against one root hold a collision.
pub proof fn lemma_two_openings_collide(
    root: [u8; 32],
    size: nat,
    index: nat,
    leaf: [u8; 32],
    proof: Seq<[u8; 32]>,
    other_leaf: [u8; 32],
    other_proof: Seq<[u8; 32]>,
)
    requires
        proof_verifies(root, size, index, leaf, proof),
        proof_verifies(root, size, index, other_leaf, other_proof),
        leaf != other_leaf || proof != other_proof,
    ensures
        openings_collide(size, index, leaf, proof, other_leaf, other_proof),
    decreases size,
{
    if size == 1 {
        assert(proof =~= other_proof);
    } else {
        let split = split_point(size);
        let (sub_size, sub_index) = if index < split {
            (split, index)
        } else {
            ((size - split) as nat, (index - split) as nat)
        };
        let below = root_from_proof(sub_size, sub_index, leaf, proof.drop_last()).unwrap();
        let other_below = root_from_proof(
            sub_size,
            sub_index,
            other_leaf,
            other_proof.drop_last(),
        ).unwrap();
        if below == other_below && proof.last() == other_proof.last() {
            if proof.drop_last() == other_proof.drop_last() {
                assert(proof =~= proof.drop_last().push(proof.last()));
                assert(other_proof =~= other_proof.drop_last().push(other_proof.last()));
            }
            lemma_two_openings_collide(
                below,
                sub_size,
                sub_index,
                leaf,
                proof.drop_last(),
                other_leaf,
                other_proof.drop_last(),
            );
        } else if index < split {
            lemma_node_collision(below, proof.last(), other_below, other_proof.last());
        } else {
            lemma_node_collision(proof.last(), below, other_proof.last(), other_below);
        }
    }
}

/// Corrupting the leaf or a hash of a proof makes verification fail: where
/// an opening verifies, no other leaf and no other proof verifies at that
/// position, unless the two openings hold a SHA-256 collision.
pub proof fn lemma_corrupted_opening_fails(
    root: [u8; 32],
    size: nat,
    index: nat,
    leaf: [u8; 32],
    proof: Seq<[u8; 32]>,
    other_leaf: [u8; 32],
    other_proof: Seq<[u8; 32]>,
)
    requires
        proof_verifies(root, size, index, leaf, proof),
        leaf != other_leaf || proof != other_proof,
        !openings_collide(size, index, leaf, proof, other_leaf, other_proof),
    ensures
        !proof_verifies(root, size, index, other_leaf, other_proof),
{
    if proof_verifies(root, size, index, other_leaf, other_proof) {
        lemma_two_openings_collide(root, size, index, leaf, proof, other_leaf, other_proof);
    }
}

/// The first position at which `leaves` hold `hash`.
pub open spec fn is_first_position(leaves: Seq<[u8; 32]>, hash: Seq<u8>, index: int) -> bool {
    &&& 0 <= index < leaves.len()
    &&& leaves[index]@ == hash
    &&& forall|j: int| 0 <= j < index ==> (#[trigger] leaves[j])@ != hash
}

/// Two to the power of `exponent`.
pub open spec fn pow2(exponent: nat) -> nat
    decreases exponent,
{
    if exponent == 0 {
        1
    } else {
        2 * pow2((exponent - 1) as nat)
    }
}

/// Powers of two grow with the exponent.
proof fn lemma_pow2_monotone(low: nat, high: nat)
    requires
        low <= high,
    ensures
        1 <= pow2(low) <= pow2(high),
    decreases high,
{
    if low < high {
        lemma_pow2_monotone(low, (high - 1) as nat);
    } else if low > 0 {
        lemma_pow2_monotone((low - 1) as nat, (low - 1) as nat);
    }
}

/// Lengths of up to `2^depth` are split at `2^(depth - 1)` at most.
proof fn lemma_split_pow2(exponent: nat, depth: nat, length: nat)
    requires
        pow2(exponent) < length <= pow2(depth),
    ensures
        2 * split_from(pow2(exponent), length) <= pow2(depth),
    decreases length - pow2(exponent),
{
    lemma_pow2_monotone(exponent, exponent);
    if 2 * pow2(exponent) < length {
        lemma_split_pow2(exponent + 1, depth, length);
    } else {
        if depth <= exponent {
            lemma_pow2_monotone(depth, exponent);
        }
        lemma_pow2_monotone(exponent + 1, depth);
    }
}

/// A proof is no longer than the tree is deep.
pub proof fn lemma_proof_depth(leaves: Seq<[u8; 32]>, index: int, depth: nat)
    requires
        leaves.len() <= pow2(depth),
    ensures
        merkle_proof(leaves, index).len() <= depth,
    decreases leaves.len(),
{
    let n = leaves.len();
    if n > 1 {
        lemma_split_bounds(1, n);
        lemma_split_pow2(0, depth, n);
        let split = split_point(n) as int;
        if index < split {
            lemma_proof_depth(leaves.subrange(0, split), index, (depth - 1) as nat);
        } else {
            lemma_proof_depth(leaves.subrange(split, n as int), index - split, (depth - 1) as nat);
        }
    }
}

/// A proof for a list that a machine can hold has 64 hashes at most.
pub proof fn lemma_proof_len(leaves: Seq<[u8; 32]>, index: int)
    requires
        leaves.len() <= usize::MAX,
    ensures
        merkle_proof(leaves, index).len() <= 64,
{
    assert(pow2(16) == 0x1_0000) by {
        reveal_with_fuel(pow2, 17);
    }
    assert(pow2(32) == 0x1_0000_0000) by {
        lemma_pow2_sum(16, 16);
    }
    assert(pow2(64) == 0x1_0000_0000_0000_0000) by {
        lemma_pow2_sum(32, 32);
    }
    lemma_proof_depth(leaves, index, 64);
}

/// Exponents add where powers multiply.
proof fn lemma_pow2_sum(a: nat, b: nat)
    ensures
        pow2(a + b) == pow2(a) * pow2(b),
    decreases b,
{
    if b > 0 {
        lemma_pow2_sum(a, (b - 1) as nat);
        assert(pow2(a + b) == 2 * pow2((a + b - 1) as nat));
        assert(2 * (pow2(a) * pow2((b - 1) as nat)) == pow2(a) * (2 * pow2((b - 1) as nat)))
            by (nonlinear_arith);
    } else {
        assert(pow2(a) * 1 == pow2(a)) by (nonlinear_arith);
    }
}

/// The first position at which `leaves` hold `hash`, if they hold it.
pub open spec fn first_position(leaves: Seq<[u8; 32]>, hash: Seq<u8>) -> Option<int> {
    if exists|index: int| is_first_position(leaves, hash, index) {
        Some(choose|index: int| is_first_position(leaves, hash, index))
    } else {
        None
    }
}

/// There is one first position at most.
pub proof fn lemma_first_position_unique(leaves: Seq<[u8; 32]>, hash: Seq<u8>, index: int)
    requires
        is_first_position(leaves, hash, index),
    ensures
        first_position(leaves, hash) == Some(index),
{
    let chosen = choose|other: int| is_first_position(leaves, hash, other);
    if chosen < index {
        assert(leaves[chosen]@ == hash);
    } else if index < chosen {
        assert(leaves[index]@ == hash);
    }
}

/// All hashes of `hashes` in a row.
pub open spec fn hash_views(hashes: Seq<[u8; 32]>) -> Seq<Seq<u8>> {
    hashes.map_values(|hash: [u8; 32]| hash@)
}

/// Computes where a list of `length` leaves is split.
fn split(length: usize) -> (point: usize)
    requires
        length >= 2,
    ensures
        point == split_point(length as nat),
        0 < point < length,
{
    let mut power: usize = 1;
    while power < length - power
        invariant
            0 < power < length,
            split_from(power as nat, length as nat) == split_point(length as nat),
        decreases length - power,
    {
        power = power + power;
    }
    power
}

/// Computes the commitment to `leaves[low..high]`.
fn subtree_root(leaves: &Vec<[u8; 32]>, low: usize, high: usize) -> (root: [u8; 32])
    requires
        low <= high <= leaves.len(),
    ensures
        root == merkle_root(leaves@.subrange(low as int, high as int)),
    decreases high - low,
{
    let length = high - low;
    let ghost part = leaves@.subrange(low as int, high as int);
    if length == 0 {
        [0u8; 32]
    } else if length == 1 {
        leaves[low]
    } else {
        let point = split(length);
        let left = subtree_root(leaves, low, low + point);
        let right = subtree_root(leaves, low + point, high);
        proof {
            assert(part.subrange(0, point as int) =~= leaves@.subrange(
                low as int,
                low + point,
            ));
            assert(part.subrange(point as int, length as int) =~= leaves@.subrange(
                low + point,
                high as int,
            ));
        }
        hash_node(&left, &right)
    }
}

/// Appends to `out` the proof for the leaf at `index` within `leaves[low..high]`.
fn subtree_proof(
    leaves: &Vec<[u8; 32]>,
    low: usize,
    high: usize,
    index: usize,
    out: &mut Vec<[u8; 32]>,
)
    requires
        low <= index < high <= leaves.len(),
    ensures
        final(out)@ == old(out)@ + merkle_proof(
            leaves@.subrange(low as int, high as int),
            index - low,
        ),
    decreases high - low,
{
    let length = high - low;
    let ghost part = leaves@.subrange(low as int, high as int);
    let ghost before = out@;
    if length <= 1 {
        assert(out@ =~= before + merkle_proof(part, index - low));
        return ;
    }
    let point = split(length);
    proof {
        assert(part.subrange(0, point as int) =~= leaves@.subrange(low as int, low + point));
        assert(part.subrange(point as int, length as int) =~= leaves@.subrange(
            low + point,
            high as int,
        ));
    }
    if index - low < point {
        subtree_proof(leaves, low, low + point, index, out);
        let aside = subtree_root(leaves, low + point, high);
        out.push(aside);
    } else {
        subtree_proof(leaves, low + point, high, index, out);
        let aside = subtree_root(leaves, low, low + point);
        out.push(aside);
    }
    assert(out@ =~= before + merkle_proof(part, index - low));
}

/// Recomputes a root from `leaf` and the first `used` hashes of `proof`.
fn climb(size: usize, index: usize, leaf: &[u8; 32], proof: &[[u8; 32]], used: usize) -> (root:
    Option<[u8; 32]>)
    requires
        used <= proof.len(),
    ensures
        root == root_from_proof(size as nat, index as nat, *leaf, proof@.subrange(0, used as int)),
    decreases size,
{
    let ghost given = proof@.subrange(0, used as int);
    if index >= size {
        None
    } else if size == 1 {
        if used == 0 {
            Some(*leaf)
        } else {
            None
        }
    } else if used == 0 {
        None
    } else {
        let point = split(size);
        let aside = proof[used - 1];
        proof {
            assert(given.drop_last() =~= proof@.subrange(0, used - 1));
            assert(given.last() == aside);
        }
        if index < point {
            match climb(point, index, leaf, proof, used - 1) {
                Some(left) => Some(hash_node(&left, &aside)),
                None => None,
            }
        } else {
            match climb(size - point, index - point, leaf, proof, used - 1) {
                Some(right) => Some(hash_node(&aside, &right)),
                None => None,
            }
        }
    }
}

/// Recomputes the root that `leaf` at `index`, of `size` leaves, and `proof`
/// lead to.
pub fn compute_root(size: usize, index: usize, leaf: &[u8; 32], proof: &[[u8; 32]]) -> (root:
    Option<[u8; 32]>)
    ensures
        root == root_from_proof(size as nat, index as nat, *leaf, proof@),
{
    assert(proof@.subrange(0, proof@.len() as int) =~= proof@);
    climb(size, index, leaf, proof, proof.len())
}

/// Checks a proof as the device does: recomputes the root and compares.
pub fn verify_proof(
    root: &[u8; 32],
    size: usize,
    index: usize,
    leaf: &[u8; 32],
    proof: &[[u8; 32]],
) -> (valid: bool)
    ensures
        valid == proof_verifies(*root, size as nat, index as nat, *leaf, proof@),
{
    match compute_root(size, index, leaf, proof) {
        Some(found) => {
            let same = bytes_eq(found.as_slice(), root.as_slice());
            assert(same == (found == *root)) by {
                if found@ == root@ {
                    assert(found =~= *root);
                }
            }
            same
        },
        None => false,
    }
}

/// A list of leaves together with its commitment.
pub struct MerkleTree {
    leaves: Vec<[u8; 32]>,
    root: [u8; 32],
}

impl View for MerkleTree {
    type V = Seq<[u8; 32]>;

    closed spec fn view(&self) -> Seq<[u8; 32]> {
        self.leaves@
    }
}

impl MerkleTree {
    #[verifier::type_invariant]
    spec fn root_is_commitment(self) -> bool {
        self.root == merkle_root(self.leaves@)
    }

    /// Commits to `leaves`.
    pub fn new(leaves: Vec<[u8; 32]>) -> (tree: MerkleTree)
        ensures
            tree@ == leaves@,
    {
        assert(leaves@.subrange(0, leaves@.len() as int) =~= leaves@);
        let root = subtree_root(&leaves, 0, leaves.len());
        MerkleTree { leaves, root }
    }

    /// The commitment.
    pub fn root_hash(&self) -> (root: &[u8; 32])
        ensures
            *root == merkle_root(self@),
    {
        proof {
            use_type_invariant(self);
        }
        &self.root
    }

    /// The number of leaves.
    pub fn size(&self) -> (size: usize)
        ensures
            size == self@.len(),
    {
        self.leaves.len()
    }

    /// The leaf at `index`, if there is one.
    pub fn get_leaf(&self, index: usize) -> (leaf: Option<&[u8; 32]>)
        ensures
            leaf == if index < self@.len() {
                Some(&self@[index as int])
            } else {
                None
            },
    {
        if index < self.leaves.len() {
            Some(&self.leaves[index])
        } else {
            None
        }
    }

    /// The first position of the leaf `hash`, if it is a leaf.
    pub fn get_leaf_index(&self, hash: &[u8]) -> (found: Option<usize>)
        ensures
            match found {
                Some(index) => first_position(self@, hash@) == Some(index as int),
                None => first_position(self@, hash@).is_none(),
            },
    {
        let mut i: usize = 0;
        while i < self.leaves.len()
            invariant
                i <= self.leaves.len(),
                forall|j: int| 0 <= j < i ==> (#[trigger] self.leaves@[j])@ != hash@,
            decreases self.leaves.len() - i,
        {
            if bytes_eq(self.leaves[i].as_slice(), hash) {
                proof {
                    lemma_first_position_unique(self@, hash@, i as int);
                }
                return Some(i);
            }
            i += 1;
        }
        None
    }

    /// The proof for the leaf at `index`, if there is one.
    pub fn get_leaf_proof(&self, index: usize) -> (found: Option<Vec<[u8; 32]>>)
        ensures
            match found {
                Some(hashes) => index < self@.len() && hashes@ == merkle_proof(self@, index as int),
                None => index >= self@.len(),
            },
    {
        if index >= self.leaves.len() {
            return None;
        }
        let mut hashes: Vec<[u8; 32]> = Vec::new();
        assert(self.leaves@.subrange(0, self.leaves@.len() as int) =~= self.leaves@);
        subtree_proof(&self.leaves, 0, self.leaves.len(), index, &mut hashes);
        assert(hashes@ =~= merkle_proof(self@, index as int));
        Some(hashes)
    }
}

} // verus!
