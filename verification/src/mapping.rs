//! Commitments to lists of byte strings and to mappings from keys to values.
//!
//! A list is committed to by the Merkle root of its element hashes. A
//! mapping is put in the order of its keys first; it is then committed to by
//! the number of its pairs, the root of its keys and the root of its values.

use crate::bytes::{
    clone_bytes, lemma_lex_total, lemma_lex_transitive, lex_le, lex_le_exec, pair_views, views,
};
use crate::hash::{element_hash, hash_element};
use crate::merkle::{merkle_root, MerkleTree};
use crate::varint;
use vstd::prelude::*;

verus! {

/// `sorted` with `pair` placed behind every pair whose key does not come
/// after its own.
pub open spec fn insert_by_key(sorted: Seq<(Seq<u8>, Seq<u8>)>, pair: (Seq<u8>, Seq<u8>)) -> Seq<
    (Seq<u8>, Seq<u8>),
>
    decreases sorted.len(),
{
    if sorted.len() == 0 {
        seq![pair]
    } else if lex_le(sorted.last().0, pair.0) {
        sorted.push(pair)
    } else {
        insert_by_key(sorted.drop_last(), pair).push(sorted.last())
    }
}

/// `pairs` in the lexicographic order of their keys; pairs with one key
/// stay in the order in which they came.
pub open spec fn sort_by_key(pairs: Seq<(Seq<u8>, Seq<u8>)>) -> Seq<(Seq<u8>, Seq<u8>)>
    decreases pairs.len(),
{
    if pairs.len() == 0 {
        Seq::empty()
    } else {
        insert_by_key(sort_by_key(pairs.drop_last()), pairs.last())
    }
}

/// Whether the keys of `pairs` never fall from one pair to a later one.
pub open spec fn keys_ascend(pairs: Seq<(Seq<u8>, Seq<u8>)>) -> bool {
    forall|i: int, j: int| 0 <= i < j < pairs.len() ==> lex_le(#[trigger] pairs[i].0, #[trigger] pairs[j].0)
}

/// The keys of `pairs`, in their order.
pub open spec fn keys_of(pairs: Seq<(Seq<u8>, Seq<u8>)>) -> Seq<Seq<u8>> {
    pairs.map_values(|pair: (Seq<u8>, Seq<u8>)| pair.0)
}

/// The values of `pairs`, in their order.
pub open spec fn values_of(pairs: Seq<(Seq<u8>, Seq<u8>)>) -> Seq<Seq<u8>> {
    pairs.map_values(|pair: (Seq<u8>, Seq<u8>)| pair.1)
}

/// The leaves of the tree that commits to `elements`.
pub open spec fn list_leaves(elements: Seq<Seq<u8>>) -> Seq<[u8; 32]> {
    elements.map_values(|element: Seq<u8>| element_hash(element))
}

/// The commitment to the list `elements`.
pub open spec fn list_root(elements: Seq<Seq<u8>>) -> [u8; 32] {
    merkle_root(list_leaves(elements))
}

/// The commitment to the mapping `pairs`.
pub open spec fn mapping_commitment(pairs: Seq<(Seq<u8>, Seq<u8>)>) -> Seq<u8> {
    let sorted = sort_by_key(pairs);
    varint::encoding(pairs.len() as u64) + list_root(keys_of(sorted))@ + list_root(
        values_of(sorted),
    )@
}

/// The commitments to the mappings `groups`, one for each, in their order.
pub open spec fn commitments(groups: Seq<Seq<(Seq<u8>, Seq<u8>)>>) -> Seq<Seq<u8>> {
    groups.map_values(|pairs: Seq<(Seq<u8>, Seq<u8>)>| mapping_commitment(pairs))
}

/// Placing a pair at the position that a scan from the end finds is
/// `insert_by_key`.
proof fn lemma_insert_position(
    sorted: Seq<(Seq<u8>, Seq<u8>)>,
    pair: (Seq<u8>, Seq<u8>),
    position: int,
)
    requires
        0 <= position <= sorted.len(),
        forall|j: int| position <= j < sorted.len() ==> !lex_le(#[trigger] sorted[j].0, pair.0),
        position > 0 ==> lex_le(sorted[position - 1].0, pair.0),
    ensures
        insert_by_key(sorted, pair) == sorted.insert(position, pair),
    decreases sorted.len(),
{
    if sorted.len() == 0 {
        assert(sorted.insert(position, pair) =~= seq![pair]);
    } else if position == sorted.len() {
        assert(sorted.insert(position, pair) =~= sorted.push(pair));
    } else {
        assert(!lex_le(sorted[sorted.len() - 1].0, pair.0));
        lemma_insert_position(sorted.drop_last(), pair, position);
        assert(sorted.insert(position, pair) =~= sorted.drop_last().insert(position, pair).push(
            sorted.last(),
        ));
    }
}

/// Inserting keeps the number of pairs, the pairs themselves, and the order
/// of the keys.
pub proof fn lemma_insert_by_key(sorted: Seq<(Seq<u8>, Seq<u8>)>, pair: (Seq<u8>, Seq<u8>))
    requires
        keys_ascend(sorted),
    ensures
        keys_ascend(insert_by_key(sorted, pair)),
        insert_by_key(sorted, pair).len() == sorted.len() + 1,
        insert_by_key(sorted, pair).to_multiset() == sorted.to_multiset().insert(pair),
    decreases sorted.len(),
{
    broadcast use vstd::seq_lib::group_to_multiset_ensures;

    let out = insert_by_key(sorted, pair);
    if sorted.len() == 0 {
        assert(out =~= sorted.push(pair));
    } else if lex_le(sorted.last().0, pair.0) {
        assert forall|i: int, j: int| 0 <= i < j < out.len() implies lex_le(
            #[trigger] out[i].0,
            #[trigger] out[j].0,
        ) by {
            if j == sorted.len() && i < sorted.len() - 1 {
                assert(lex_le(sorted[i].0, sorted[sorted.len() - 1].0));
                lemma_lex_transitive(sorted[i].0, sorted.last().0, pair.0, 0);
            }
        }
    } else {
        let front = sorted.drop_last();
        let last = sorted.last();
        assert forall|i: int, j: int| 0 <= i < j < front.len() implies lex_le(
            #[trigger] front[i].0,
            #[trigger] front[j].0,
        ) by {
            assert(front[i] == sorted[i] && front[j] == sorted[j]);
        }
        lemma_insert_by_key(front, pair);
        let placed = insert_by_key(front, pair);
        lemma_lex_total(last.0, pair.0, 0);
        assert forall|i: int| 0 <= i < placed.len() implies lex_le(
            (#[trigger] placed[i]).0,
            last.0,
        ) by {
            assert(placed.to_multiset().count(placed[i]) > 0);
            if placed[i] != pair {
                assert(front.to_multiset().count(placed[i]) > 0);
                let k = choose|k: int| 0 <= k < front.len() && front[k] == placed[i];
                assert(lex_le(sorted[k].0, sorted[sorted.len() - 1].0));
            }
        }
        assert forall|i: int, j: int| 0 <= i < j < out.len() implies lex_le(
            #[trigger] out[i].0,
            #[trigger] out[j].0,
        ) by {
            if j < placed.len() {
                assert(out[i] == placed[i] && out[j] == placed[j]);
            } else {
                assert(out[i] == placed[i]);
            }
        }
        assert(sorted =~= front.push(last));
        assert(out.to_multiset() =~= sorted.to_multiset().insert(pair));
    }
}

/// Sorting keeps the pairs, each as often as it came, and puts their keys
/// in ascending order.
pub proof fn lemma_sort_by_key(pairs: Seq<(Seq<u8>, Seq<u8>)>)
    ensures
        keys_ascend(sort_by_key(pairs)),
        sort_by_key(pairs).len() == pairs.len(),
        sort_by_key(pairs).to_multiset() == pairs.to_multiset(),
    decreases pairs.len(),
{
    broadcast use vstd::seq_lib::group_to_multiset_ensures;

    if pairs.len() > 0 {
        lemma_sort_by_key(pairs.drop_last());
        lemma_insert_by_key(sort_by_key(pairs.drop_last()), pairs.last());
        assert(pairs =~= pairs.drop_last().push(pairs.last()));
    } else {
        assert(pairs =~= Seq::empty());
    }
}

/// The pairs that `order` picks from `pairs`, in the order of `order`.
spec fn picked(pairs: Seq<(Seq<u8>, Seq<u8>)>, order: Seq<usize>) -> Seq<(Seq<u8>, Seq<u8>)> {
    Seq::new(order.len(), |j: int| pairs[order[j] as int])
}

/// Computes the order in which `sort_by_key` puts `mapping`: the positions
/// of its pairs, sorted by key.
fn sorted_order(mapping: &[(Vec<u8>, Vec<u8>)]) -> (order: Vec<usize>)
    ensures
        order@.len() == mapping@.len(),
        forall|j: int| 0 <= j < order@.len() ==> (#[trigger] order@[j]) < mapping@.len(),
        picked(pair_views(mapping@), order@) == sort_by_key(pair_views(mapping@)),
{
    let ghost pairs = pair_views(mapping@);
    let mut order: Vec<usize> = Vec::new();
    let mut i: usize = 0;
    assert(picked(pairs, order@) =~= sort_by_key(pairs.take(0)));
    while i < mapping.len()
        invariant
            i <= mapping.len(),
            pairs == pair_views(mapping@),
            order@.len() == i,
            forall|j: int| 0 <= j < order@.len() ==> (#[trigger] order@[j]) < mapping@.len(),
            picked(pairs, order@) == sort_by_key(pairs.take(i as int)),
        decreases mapping.len() - i,
    {
        let ghost sorted = picked(pairs, order@);
        let mut position: usize = order.len();
        while position > 0 && !lex_le_exec(
            mapping[order[position - 1]].0.as_slice(),
            mapping[i].0.as_slice(),
        )
            invariant
                position <= order@.len(),
                i < mapping.len(),
                pairs == pair_views(mapping@),
                sorted == picked(pairs, order@),
                forall|j: int| 0 <= j < order@.len() ==> (#[trigger] order@[j]) < mapping@.len(),
                forall|j: int|
                    position <= j < sorted.len() ==> !lex_le(
                        #[trigger] sorted[j].0,
                        pairs[i as int].0,
                    ),
            decreases position,
        {
            position -= 1;
        }
        proof {
            lemma_insert_position(sorted, pairs[i as int], position as int);
            assert(pairs.take(i + 1).drop_last() =~= pairs.take(i as int));
            assert(pairs.take(i + 1).last() == pairs[i as int]);
        }
        order.insert(position, i);
        assert(picked(pairs, order@) =~= sorted.insert(position as int, pairs[i as int]));
        i += 1;
    }
    assert(pairs.take(i as int) =~= pairs);
    order
}

/// The keys and the values of `mapping`, both in the order of the keys.
pub fn sorted_lists(mapping: &[(Vec<u8>, Vec<u8>)]) -> (lists: (Vec<Vec<u8>>, Vec<Vec<u8>>))
    ensures
        views(lists.0@) == keys_of(sort_by_key(pair_views(mapping@))),
        views(lists.1@) == values_of(sort_by_key(pair_views(mapping@))),
{
    let order = sorted_order(mapping);
    let ghost sorted = sort_by_key(pair_views(mapping@));
    let mut keys: Vec<Vec<u8>> = Vec::new();
    let mut values: Vec<Vec<u8>> = Vec::new();
    let mut j: usize = 0;
    while j < order.len()
        invariant
            j <= order@.len(),
            order@.len() == mapping@.len(),
            forall|k: int| 0 <= k < order@.len() ==> (#[trigger] order@[k]) < mapping@.len(),
            sorted == picked(pair_views(mapping@), order@),
            views(keys@) == keys_of(sorted.take(j as int)),
            views(values@) == values_of(sorted.take(j as int)),
        decreases order@.len() - j,
    {
        let pair = &mapping[order[j]];
        let ghost keys_before = keys@;
        let ghost values_before = values@;
        keys.push(clone_bytes(pair.0.as_slice()));
        values.push(clone_bytes(pair.1.as_slice()));
        proof {
            assert(sorted[j as int] == pair_views(mapping@)[order@[j as int] as int]);
            assert(sorted[j as int] == (pair.0@, pair.1@));
            assert(sorted.take(j + 1) =~= sorted.take(j as int).push(sorted[j as int]));
            assert(views(keys@) =~= views(keys_before).push(pair.0@));
            assert(views(values@) =~= views(values_before).push(pair.1@));
            assert(views(keys@) =~= keys_of(sorted.take(j + 1)));
            assert(views(values@) =~= values_of(sorted.take(j + 1)));
        }
        j += 1;
    }
    assert(sorted.take(j as int) =~= sorted);
    (keys, values)
}

/// The leaves of the tree that commits to `elements`.
pub fn leaves_of(elements: &[Vec<u8>]) -> (leaves: Vec<[u8; 32]>)
    ensures
        leaves@ == list_leaves(views(elements@)),
{
    let mut leaves: Vec<[u8; 32]> = Vec::new();
    let mut i: usize = 0;
    while i < elements.len()
        invariant
            i <= elements.len(),
            leaves@ == list_leaves(views(elements@).take(i as int)),
        decreases elements.len() - i,
    {
        leaves.push(hash_element(elements[i].as_slice()));
        assert(leaves@ =~= list_leaves(views(elements@).take(i + 1)));
        i += 1;
    }
    assert(views(elements@).take(i as int) =~= views(elements@));
    leaves
}

/// Computes the commitment to `mapping`: the number of its pairs, then the
/// root of its keys and the root of its values, both in the order of the keys.
pub fn get_merkleized_map_commitment(mapping: &[(Vec<u8>, Vec<u8>)]) -> (commitment: Vec<u8>)
    ensures
        commitment@ == mapping_commitment(pair_views(mapping@)),
{
    let (keys, values) = sorted_lists(mapping);
    let key_tree = MerkleTree::new(leaves_of(keys.as_slice()));
    let value_tree = MerkleTree::new(leaves_of(values.as_slice()));
    let mut commitment = varint::encode(mapping.len() as u64);
    commitment.extend_from_slice(key_tree.root_hash().as_slice());
    commitment.extend_from_slice(value_tree.root_hash().as_slice());
    assert(commitment@ =~= mapping_commitment(pair_views(mapping@)));
    commitment
}

} // verus!
