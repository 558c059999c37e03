//! The interpreter of the requests that the device makes of the host while
//! one of its commands is suspended.
//!
//! Before a command is sent, the host registers what the command commits to:
//! preimages under their hash, lists and mappings under their Merkle roots.
//! The interpreter then answers from these registries, and keeps what the
//! device hands over as fragments of its result.

use crate::apdu::{
    CLIENT_GET_MERKLE_LEAF_INDEX, CLIENT_GET_MERKLE_LEAF_PROOF, CLIENT_GET_MORE_ELEMENTS,
    CLIENT_GET_PREIMAGE, CLIENT_YIELD,
};
use crate::bytes::{append, bytes_eq, clone_bytes, concat, pair_views, singles, views};
use crate::error::InterpreterError;
use crate::hash::{digest, digest_of, element_hash, element_preimage, prefixed_element};
use crate::mapping::{
    commitments, keys_of, list_leaves, list_root, mapping_commitment, sort_by_key, sorted_lists,
    values_of,
};
use crate::merkle::{
    first_position, hash_views, lemma_proof_len, lemma_proof_verifies, merkle_proof, merkle_root,
    proof_verifies, MerkleTree,
};
use crate::varint;
use vstd::prelude::*;
use vstd::slice::slice_subrange;

verus! {

/// How many bytes of a reply are left for the length of a preimage and its
/// first part: a reply holds 255 bytes, and one of them says how long the
/// part is.
pub const PREIMAGE_ROOM: usize = 254;

/// How many hashes of a proof go into the first reply; the others wait to
/// be asked for.
pub const FIRST_PROOF_HASHES: usize = 6;

/// How many bytes of queued elements go into one reply.
pub const MORE_ELEMENTS_ROOM: usize = 253;

/// What an interpreter holds.
pub struct Registries {
    /// The registered preimages, each with its hash, in the order in which
    /// they were registered.
    pub preimages: Seq<([u8; 32], Seq<u8>)>,
    /// The leaves of the registered lists, in the order of registration.
    pub trees: Seq<Seq<[u8; 32]>>,
    /// The parts of an answer that wait to be asked for.
    pub queue: Seq<Seq<u8>>,
    /// The fragments of the result that the device has handed over.
    pub yielded: Seq<Seq<u8>>,
}

/// The preimages that registering the list `elements` adds: each element
/// behind a zero byte, under the hash of that.
pub open spec fn list_preimages(elements: Seq<Seq<u8>>) -> Seq<([u8; 32], Seq<u8>)> {
    elements.map_values(|element: Seq<u8>| (element_hash(element), element_preimage(element)))
}

impl Registries {
    /// Nothing registered, nothing waiting, nothing handed over.
    pub open spec fn empty() -> Registries {
        Registries {
            preimages: Seq::empty(),
            trees: Seq::empty(),
            queue: Seq::empty(),
            yielded: Seq::empty(),
        }
    }

    /// Every registered hash is the hash of what is registered under it, and
    /// what waits in the queue are bytes or hashes.
    pub open spec fn consistent(self) -> bool {
        &&& forall|i: int|
            0 <= i < self.preimages.len() ==> (#[trigger] self.preimages[i]).0 == digest(
                self.preimages[i].1,
            )
        &&& forall|j: int| 0 <= j < self.queue.len() ==> 1 <= (#[trigger] self.queue[j]).len() <= 32
    }

    /// With `bytes` registered as a preimage.
    pub open spec fn with_preimage(self, bytes: Seq<u8>) -> Registries {
        Registries { preimages: self.preimages.push((digest(bytes), bytes)), ..self }
    }

    /// With the list `elements` registered.
    pub open spec fn with_list(self, elements: Seq<Seq<u8>>) -> Registries {
        Registries {
            preimages: self.preimages + list_preimages(elements),
            trees: self.trees.push(list_leaves(elements)),
            ..self
        }
    }

    /// With the mapping `pairs` registered: the list of its keys, then the
    /// list of its values, both in the order of the keys.
    pub open spec fn with_mapping(self, pairs: Seq<(Seq<u8>, Seq<u8>)>) -> Registries {
        let sorted = sort_by_key(pairs);
        self.with_list(keys_of(sorted)).with_list(values_of(sorted))
    }

    /// With each of `groups` registered as a mapping, in their order.
    pub open spec fn with_mappings(self, groups: Seq<Seq<(Seq<u8>, Seq<u8>)>>) -> Registries
        decreases groups.len(),
    {
        if groups.len() == 0 {
            self
        } else {
            self.with_mappings(groups.drop_last()).with_mapping(groups.last())
        }
    }

    /// With each of `groups` registered as a mapping, and then the list of
    /// the commitments to them.
    pub open spec fn with_committed(self, groups: Seq<Seq<(Seq<u8>, Seq<u8>)>>) -> Registries {
        self.with_mappings(groups).with_list(commitments(groups))
    }

    /// Whether `bytes` are registered under their hash.
    pub open spec fn holds_preimage(self, bytes: Seq<u8>) -> bool {
        exists|k: int|
            0 <= k < self.preimages.len() && #[trigger] self.preimages[k] == (digest(bytes), bytes)
    }

    /// Whether a list with the leaves `leaves` is registered.
    pub open spec fn holds_tree(self, leaves: Seq<[u8; 32]>) -> bool {
        exists|k: int| 0 <= k < self.trees.len() && #[trigger] self.trees[k] == leaves
    }

    /// Whether the list `elements` is registered: its tree, and each of its
    /// elements as the preimage of its leaf.
    pub open spec fn holds_list(self, elements: Seq<Seq<u8>>) -> bool {
        &&& self.holds_tree(list_leaves(elements))
        &&& forall|j: int|
            0 <= j < elements.len() ==> self.holds_preimage(
                element_preimage(#[trigger] elements[j]),
            )
    }

    /// Whether the mapping `pairs` is registered: the list of its keys and
    /// the list of its values.
    pub open spec fn holds_mapping(self, pairs: Seq<(Seq<u8>, Seq<u8>)>) -> bool {
        self.holds_list(keys_of(sort_by_key(pairs))) && self.holds_list(
            values_of(sort_by_key(pairs)),
        )
    }

    /// Whether these registries hold all that `earlier` held, at the same
    /// places: registering only ever adds at the end.
    pub open spec fn extends(self, earlier: Registries) -> bool {
        &&& earlier.preimages.len() <= self.preimages.len()
        &&& earlier.trees.len() <= self.trees.len()
        &&& forall|k: int|
            0 <= k < earlier.preimages.len() ==> self.preimages[k] == #[trigger] earlier.preimages[k]
        &&& forall|k: int| 0 <= k < earlier.trees.len() ==> self.trees[k] == #[trigger] earlier.trees[k]
    }
}

/// The preimage that was registered first under `hash`.
pub open spec fn find_preimage(preimages: Seq<([u8; 32], Seq<u8>)>, hash: Seq<u8>) -> Option<
    Seq<u8>,
>
    decreases preimages.len(),
{
    if preimages.len() == 0 {
        None
    } else if preimages[0].0@ == hash {
        Some(preimages[0].1)
    } else {
        find_preimage(preimages.drop_first(), hash)
    }
}

/// The leaves of the list that was registered first with the root `root`.
pub open spec fn find_tree(trees: Seq<Seq<[u8; 32]>>, root: Seq<u8>) -> Option<Seq<[u8; 32]>>
    decreases trees.len(),
{
    if trees.len() == 0 {
        None
    } else if merkle_root(trees[0])@ == root {
        Some(trees[0])
    } else {
        find_tree(trees.drop_first(), root)
    }
}

/// The answer to "keep this fragment": nothing, and the fragment is kept.
pub open spec fn yield_answer(state: Registries, body: Seq<u8>) -> (
    Result<Seq<u8>, InterpreterError>,
    Registries,
) {
    (Ok(Seq::empty()), Registries { yielded: state.yielded.push(body), ..state })
}

/// The answer to "the preimage of this hash". The request is a zero byte and
/// the hash. The answer is the length of the preimage, the number of bytes
/// that follow, and as many bytes of the preimage as fit a reply of 255
/// bytes; the other bytes are queued one by one.
pub open spec fn preimage_answer(state: Registries, body: Seq<u8>) -> (
    Result<Seq<u8>, InterpreterError>,
    Registries,
) {
    if body.len() != 33 || body[0] != 0 {
        (Err(InterpreterError::UnsupportedRequest), state)
    } else {
        match find_preimage(state.preimages, body.skip(1)) {
            None => (Err(InterpreterError::UnknownHash), state),
            Some(preimage) => {
                let prefix = varint::encoding(preimage.len() as u64);
                let room = PREIMAGE_ROOM as int - prefix.len();
                let sent = if preimage.len() <= room {
                    preimage.len() as int
                } else {
                    room
                };
                (
                    Ok(prefix + seq![sent as u8] + preimage.take(sent)),
                    Registries { queue: state.queue + singles(preimage.skip(sent)), ..state },
                )
            },
        }
    }
}

/// The answer to "the leaf at this position of the list with this root, and
/// its proof". The request is the root, the size of the list and the
/// position. The answer is the leaf, the length of the proof, the number of
/// hashes that follow, and the first hashes of the proof, six at most; the
/// other hashes are queued.
pub open spec fn leaf_proof_answer(state: Registries, body: Seq<u8>) -> (
    Result<Seq<u8>, InterpreterError>,
    Registries,
) {
    if body.len() < 34 {
        (Err(InterpreterError::UnsupportedRequest), state)
    } else {
        match varint::decoding(body.skip(32)) {
            None => (Err(InterpreterError::UnsupportedRequest), state),
            Some((size, used)) => match varint::decoding(body.skip(32).skip(used)) {
                None => (Err(InterpreterError::UnsupportedRequest), state),
                Some((index, _)) => match find_tree(state.trees, body.take(32)) {
                    None => (Err(InterpreterError::UnknownHash), state),
                    Some(leaves) => if size != leaves.len() {
                        (Err(InterpreterError::UnsupportedRequest), state)
                    } else if index >= size {
                        (Err(InterpreterError::IndexOutOfRange), state)
                    } else {
                        let path = merkle_proof(leaves, index as int);
                        let shown = if path.len() <= FIRST_PROOF_HASHES {
                            path.len() as int
                        } else {
                            FIRST_PROOF_HASHES as int
                        };
                        (
                            Ok(
                                leaves[index as int]@ + seq![path.len() as u8, shown as u8]
                                    + concat(hash_views(path.take(shown))),
                            ),
                            Registries {
                                queue: state.queue + hash_views(path.skip(shown)),
                                ..state
                            },
                        )
                    },
                },
            },
        }
    }
}

/// The answer to "the position of this leaf in the list with this root".
/// The request is the root and the leaf. The answer is a one byte and the
/// first position of the leaf, or a zero byte and a zero where the list
/// does not hold the leaf.
pub open spec fn leaf_index_answer(state: Registries, body: Seq<u8>) -> (
    Result<Seq<u8>, InterpreterError>,
    Registries,
) {
    if body.len() != 64 {
        (Err(InterpreterError::UnsupportedRequest), state)
    } else {
        match find_tree(state.trees, body.take(32)) {
            None => (Err(InterpreterError::UnknownHash), state),
            Some(leaves) => match first_position(leaves, body.skip(32)) {
                Some(index) => (Ok(seq![1u8] + varint::encoding(index as u64)), state),
                None => (Ok(seq![0u8] + varint::encoding(0)), state),
            },
        }
    }
}

/// Whether all that waits in `queue` has one length.
pub open spec fn one_width(queue: Seq<Seq<u8>>) -> bool {
    forall|j: int| 0 <= j < queue.len() ==> (#[trigger] queue[j]).len() == queue[0].len()
}

/// The answer to "more of the last answer". The request is empty. The
/// answer is the number of elements that follow, their length, and as many
/// of the queued elements as fit 253 bytes; those leave the queue.
pub open spec fn more_elements_answer(state: Registries, body: Seq<u8>) -> (
    Result<Seq<u8>, InterpreterError>,
    Registries,
) {
    if body.len() != 0 {
        (Err(InterpreterError::UnsupportedRequest), state)
    } else if state.queue.len() == 0 || !one_width(state.queue) {
        (Err(InterpreterError::UnexpectedQueue), state)
    } else {
        let width = state.queue[0].len();
        let room = MORE_ELEMENTS_ROOM as int / width as int;
        let count = if state.queue.len() <= room {
            state.queue.len() as int
        } else {
            room
        };
        (
            Ok(seq![count as u8, width as u8] + concat(state.queue.take(count))),
            Registries { queue: state.queue.skip(count), ..state },
        )
    }
}

/// The answer to `request`, and what the interpreter holds after it. The
/// first byte of a request says what is asked; a request that cannot be
/// answered changes nothing.
pub open spec fn answer(state: Registries, request: Seq<u8>) -> (
    Result<Seq<u8>, InterpreterError>,
    Registries,
) {
    if request.len() == 0 {
        (Err(InterpreterError::EmptyInput), state)
    } else if request[0] == CLIENT_YIELD {
        yield_answer(state, request.skip(1))
    } else if request[0] == CLIENT_GET_PREIMAGE {
        preimage_answer(state, request.skip(1))
    } else if request[0] == CLIENT_GET_MERKLE_LEAF_PROOF {
        leaf_proof_answer(state, request.skip(1))
    } else if request[0] == CLIENT_GET_MERKLE_LEAF_INDEX {
        leaf_index_answer(state, request.skip(1))
    } else if request[0] == CLIENT_GET_MORE_ELEMENTS {
        more_elements_answer(state, request.skip(1))
    } else {
        (Err(InterpreterError::UnknownCommand(request[0])), state)
    }
}

/// An answer as a mathematical value.
pub open spec fn answer_view(answer: Result<Vec<u8>, InterpreterError>) -> Result<
    Seq<u8>,
    InterpreterError,
> {
    match answer {
        Ok(bytes) => Ok(bytes@),
        Err(e) => Err(e),
    }
}

/// A request that cites a hash under which nothing was registered is
/// refused: it is never answered with a value made up.
pub proof fn lemma_unknown_hash_is_refused(state: Registries, hash: Seq<u8>)
    requires
        hash.len() == 32,
        forall|i: int| 0 <= i < state.preimages.len() ==> (#[trigger] state.preimages[i]).0@ != hash,
    ensures
        answer(state, seq![CLIENT_GET_PREIMAGE, 0u8] + hash) == (
            Err::<Seq<u8>, InterpreterError>(InterpreterError::UnknownHash),
            state,
        ),
{
    let request = seq![CLIENT_GET_PREIMAGE, 0u8] + hash;
    assert(request.skip(1).skip(1) =~= hash);
    lemma_find_preimage_none(state.preimages, hash);
}

/// A request that cites a root under which no list was registered is
/// refused, whatever else it holds.
pub proof fn lemma_unknown_root_is_refused(state: Registries, request: Seq<u8>)
    requires
        request.len() >= 33,
        request[0] == CLIENT_GET_MERKLE_LEAF_PROOF || request[0] == CLIENT_GET_MERKLE_LEAF_INDEX,
        forall|i: int|
            0 <= i < state.trees.len() ==> merkle_root(#[trigger] state.trees[i])@
                != request.subrange(1, 33),
    ensures
        answer(state, request).0.is_err(),
        answer(state, request).1 == state,
{
    assert(request.skip(1).take(32) =~= request.subrange(1, 33));
    lemma_find_tree_none(state.trees, request.subrange(1, 33));
}

/// Nothing is found under a hash that no entry has.
pub proof fn lemma_find_preimage_none(preimages: Seq<([u8; 32], Seq<u8>)>, hash: Seq<u8>)
    requires
        forall|i: int| 0 <= i < preimages.len() ==> (#[trigger] preimages[i]).0@ != hash,
    ensures
        find_preimage(preimages, hash).is_none(),
    decreases preimages.len(),
{
    if preimages.len() > 0 {
        assert(preimages[0].0@ != hash);
        assert forall|i: int| 0 <= i < preimages.drop_first().len() implies (
        #[trigger] preimages.drop_first()[i]).0@ != hash by {
            assert(preimages.drop_first()[i] == preimages[i + 1]);
        }
        lemma_find_preimage_none(preimages.drop_first(), hash);
    }
}

/// No list is found under a root that no list has.
pub proof fn lemma_find_tree_none(trees: Seq<Seq<[u8; 32]>>, root: Seq<u8>)
    requires
        forall|i: int| 0 <= i < trees.len() ==> merkle_root(#[trigger] trees[i])@ != root,
    ensures
        find_tree(trees, root).is_none(),
    decreases trees.len(),
{
    if trees.len() > 0 {
        assert(merkle_root(trees[0])@ != root);
        assert forall|i: int| 0 <= i < trees.drop_first().len() implies merkle_root(
            #[trigger] trees.drop_first()[i],
        )@ != root by {
            assert(trees.drop_first()[i] == trees[i + 1]);
        }
        lemma_find_tree_none(trees.drop_first(), root);
    }
}

/// Where an entry has the hash that is asked for, the search finds the
/// first such entry.
pub proof fn lemma_find_preimage_some(preimages: Seq<([u8; 32], Seq<u8>)>, hash: Seq<u8>, at: int)
    requires
        0 <= at < preimages.len(),
        preimages[at].0@ == hash,
    ensures
        exists|first: int|
            0 <= first <= at && (#[trigger] preimages[first]).0@ == hash && find_preimage(
                preimages,
                hash,
            ) == Some(preimages[first].1),
    decreases preimages.len(),
{
    if preimages[0].0@ == hash {
        assert(preimages[0].0@ == hash && find_preimage(preimages, hash) == Some(preimages[0].1));
    } else {
        let rest = preimages.drop_first();
        assert(rest[at - 1] == preimages[at]);
        lemma_find_preimage_some(rest, hash, at - 1);
        let first = choose|first: int|
            0 <= first <= at - 1 && (#[trigger] rest[first]).0@ == hash && find_preimage(rest, hash)
                == Some(rest[first].1);
        assert(rest[first] == preimages[first + 1]);
    }
}

/// Where a list has the root that is asked for, the search finds the first
/// such list.
pub proof fn lemma_find_tree_some(trees: Seq<Seq<[u8; 32]>>, root: Seq<u8>, at: int)
    requires
        0 <= at < trees.len(),
        merkle_root(trees[at])@ == root,
    ensures
        exists|first: int|
            0 <= first <= at && merkle_root(#[trigger] trees[first])@ == root && find_tree(
                trees,
                root,
            ) == Some(trees[first]),
    decreases trees.len(),
{
    if merkle_root(trees[0])@ == root {
        assert(merkle_root(trees[0])@ == root && find_tree(trees, root) == Some(trees[0]));
    } else {
        let rest = trees.drop_first();
        assert(rest[at - 1] == trees[at]);
        lemma_find_tree_some(rest, root, at - 1);
        let first = choose|first: int|
            0 <= first <= at - 1 && merkle_root(#[trigger] rest[first])@ == root && find_tree(
                rest,
                root,
            ) == Some(rest[first]);
        assert(rest[first] == trees[first + 1]);
    }
}

/// What is held stays held while more is registered.
pub proof fn lemma_extends_keeps(later: Registries, earlier: Registries)
    requires
        later.extends(earlier),
    ensures
        forall|bytes: Seq<u8>| #[trigger]
            earlier.holds_preimage(bytes) ==> later.holds_preimage(bytes),
        forall|leaves: Seq<[u8; 32]>| #[trigger]
            earlier.holds_tree(leaves) ==> later.holds_tree(leaves),
        forall|elements: Seq<Seq<u8>>| #[trigger]
            earlier.holds_list(elements) ==> later.holds_list(elements),
        forall|pairs: Seq<(Seq<u8>, Seq<u8>)>| #[trigger]
            earlier.holds_mapping(pairs) ==> later.holds_mapping(pairs),
{
    assert forall|bytes: Seq<u8>| #[trigger] earlier.holds_preimage(bytes) implies later.holds_preimage(
        bytes,
    ) by {
        let k = choose|k: int|
            0 <= k < earlier.preimages.len() && #[trigger] earlier.preimages[k] == (
                digest(bytes),
                bytes,
            );
        assert(later.preimages[k] == (digest(bytes), bytes));
    }
    assert forall|leaves: Seq<[u8; 32]>| #[trigger] earlier.holds_tree(leaves) implies later.holds_tree(
        leaves,
    ) by {
        let k = choose|k: int| 0 <= k < earlier.trees.len() && #[trigger] earlier.trees[k] == leaves;
        assert(later.trees[k] == leaves);
    }
}

/// Extending is transitive.
pub proof fn lemma_extends_transitive(last: Registries, middle: Registries, first: Registries)
    requires
        last.extends(middle),
        middle.extends(first),
    ensures
        last.extends(first),
{
    assert forall|k: int| 0 <= k < first.preimages.len() implies last.preimages[k]
        == #[trigger] first.preimages[k] by {
        assert(middle.preimages[k] == first.preimages[k]);
    }
    assert forall|k: int| 0 <= k < first.trees.len() implies last.trees[k]
        == #[trigger] first.trees[k] by {
        assert(middle.trees[k] == first.trees[k]);
    }
}

/// Registering a preimage keeps what was held and holds the preimage.
pub proof fn lemma_with_preimage(state: Registries, bytes: Seq<u8>)
    ensures
        state.with_preimage(bytes).extends(state),
        state.with_preimage(bytes).holds_preimage(bytes),
{
    let after = state.with_preimage(bytes);
    assert(after.preimages[state.preimages.len() as int] == (digest(bytes), bytes));
}

/// Registering a list keeps what was held and holds the list.
pub proof fn lemma_with_list(state: Registries, elements: Seq<Seq<u8>>)
    ensures
        state.with_list(elements).extends(state),
        state.with_list(elements).holds_list(elements),
{
    let after = state.with_list(elements);
    assert(after.trees[state.trees.len() as int] == list_leaves(elements));
    assert forall|j: int| 0 <= j < elements.len() implies after.holds_preimage(
        element_preimage(#[trigger] elements[j]),
    ) by {
        let k = state.preimages.len() + j;
        assert(after.preimages[k] == list_preimages(elements)[j]);
        assert(after.preimages[k] == (
            digest(element_preimage(elements[j])),
            element_preimage(elements[j]),
        ));
    }
}

/// Registering a mapping keeps what was held and holds the mapping.
pub proof fn lemma_with_mapping(state: Registries, pairs: Seq<(Seq<u8>, Seq<u8>)>)
    ensures
        state.with_mapping(pairs).extends(state),
        state.with_mapping(pairs).holds_mapping(pairs),
{
    let sorted = sort_by_key(pairs);
    let middle = state.with_list(keys_of(sorted));
    let after = middle.with_list(values_of(sorted));
    lemma_with_list(state, keys_of(sorted));
    lemma_with_list(middle, values_of(sorted));
    lemma_extends_transitive(after, middle, state);
    lemma_extends_keeps(after, middle);
    assert(middle.holds_list(keys_of(sorted)));
}

/// A list that is held is found under its root: a request that cites the
/// root is answered from a list with that root.
pub proof fn lemma_held_tree_is_found(state: Registries, leaves: Seq<[u8; 32]>)
    requires
        state.holds_tree(leaves),
    ensures
        find_tree(state.trees, merkle_root(leaves)@) matches Some(found) && merkle_root(found)
            == merkle_root(leaves),
{
    let at = choose|k: int| 0 <= k < state.trees.len() && #[trigger] state.trees[k] == leaves;
    lemma_find_tree_some(state.trees, merkle_root(leaves)@, at);
    let first = choose|first: int|
        0 <= first <= at && merkle_root(#[trigger] state.trees[first])@ == merkle_root(leaves)@
            && find_tree(state.trees, merkle_root(leaves)@) == Some(state.trees[first]);
    assert(merkle_root(state.trees[first]) =~= merkle_root(leaves));
}

/// A preimage that is held is found under its hash: a request that cites
/// the hash is answered with bytes that have that hash.
pub proof fn lemma_held_preimage_is_found(state: Registries, bytes: Seq<u8>)
    requires
        state.consistent(),
        state.holds_preimage(bytes),
    ensures
        find_preimage(state.preimages, digest(bytes)@) matches Some(found) && digest(found)
            == digest(bytes),
{
    let hash = digest(bytes);
    let at = choose|k: int|
        0 <= k < state.preimages.len() && #[trigger] state.preimages[k] == (hash, bytes);
    lemma_find_preimage_some(state.preimages, hash@, at);
    let first = choose|first: int|
        0 <= first <= at && (#[trigger] state.preimages[first]).0@ == hash@ && find_preimage(
            state.preimages,
            hash@,
        ) == Some(state.preimages[first].1);
    assert(state.preimages[first].0 =~= hash);
}

/// The root under which a list is registered depends on the list alone:
/// two interpreters, whatever they hold, register one list under one root.
pub proof fn lemma_root_ignores_registries(
    one: Registries,
    other: Registries,
    elements: Seq<Seq<u8>>,
)
    ensures
        one.with_list(elements).trees.last() == other.with_list(elements).trees.last(),
        merkle_root(one.with_list(elements).trees.last()) == list_root(elements),
{
}

/// What the search for a preimage finds stands in the registry under the
/// hash that was asked for.
pub proof fn lemma_found_preimage(preimages: Seq<([u8; 32], Seq<u8>)>, hash: Seq<u8>)
    requires
        find_preimage(preimages, hash).is_some(),
    ensures
        exists|k: int|
            0 <= k < preimages.len() && (#[trigger] preimages[k]).0@ == hash && preimages[k].1
                == find_preimage(preimages, hash).unwrap(),
    decreases preimages.len(),
{
    if preimages[0].0@ == hash {
        assert(preimages[0].0@ == hash && preimages[0].1 == find_preimage(preimages, hash).unwrap());
    } else {
        let rest = preimages.drop_first();
        lemma_found_preimage(rest, hash);
        let k = choose|k: int|
            0 <= k < rest.len() && (#[trigger] rest[k]).0@ == hash && rest[k].1 == find_preimage(
                rest,
                hash,
            ).unwrap();
        assert(rest[k] == preimages[k + 1]);
    }
}

/// What the search for a list finds has the root that was asked for.
pub proof fn lemma_found_tree(trees: Seq<Seq<[u8; 32]>>, root: Seq<u8>)
    requires
        find_tree(trees, root).is_some(),
    ensures
        merkle_root(find_tree(trees, root).unwrap())@ == root,
    decreases trees.len(),
{
    if merkle_root(trees[0])@ != root {
        lemma_found_tree(trees.drop_first(), root);
    }
}

/// Whenever a request for a preimage is answered, what is answered has the
/// hash that the request cites.
pub proof fn lemma_answered_preimage_has_the_hash(state: Registries, body: Seq<u8>)
    requires
        state.consistent(),
        preimage_answer(state, body).0.is_ok(),
    ensures
        digest(find_preimage(state.preimages, body.skip(1)).unwrap())@ == body.skip(1),
{
    let hash = body.skip(1);
    lemma_found_preimage(state.preimages, hash);
    let k = choose|k: int|
        0 <= k < state.preimages.len() && (#[trigger] state.preimages[k]).0@ == hash
            && state.preimages[k].1 == find_preimage(state.preimages, hash).unwrap();
    assert(state.preimages[k].0 == digest(state.preimages[k].1));
}

/// Whenever a request for a leaf and its proof is answered, the leaf and
/// the proof of the answer verify against the root that the request cites,
/// for the size and the position that it cites.
pub proof fn lemma_answered_proof_verifies(state: Registries, body: Seq<u8>)
    requires
        leaf_proof_answer(state, body).0.is_ok(),
    ensures
        ({
            let leaves = find_tree(state.trees, body.take(32)).unwrap();
            let size = varint::decoding(body.skip(32)).unwrap().0;
            let used = varint::decoding(body.skip(32)).unwrap().1;
            let index = varint::decoding(body.skip(32).skip(used)).unwrap().0;
            &&& merkle_root(leaves)@ == body.take(32)
            &&& size == leaves.len()
            &&& index < size
            &&& proof_verifies(
                merkle_root(leaves),
                size as nat,
                index as nat,
                leaves[index as int],
                merkle_proof(leaves, index as int),
            )
        }),
{
    let leaves = find_tree(state.trees, body.take(32)).unwrap();
    let used = varint::decoding(body.skip(32)).unwrap().1;
    let index = varint::decoding(body.skip(32).skip(used)).unwrap().0;
    lemma_found_tree(state.trees, body.take(32));
    lemma_proof_verifies(leaves, index as int);
}

/// The request for the leaf at `index`, with its proof, of a list of `size`
/// leaves under the root `root`.
pub open spec fn leaf_proof_request(root: [u8; 32], size: u64, index: u64) -> Seq<u8> {
    root@ + varint::encoding(size) + varint::encoding(index)
}

/// Whether every registered list with the root of `leaves` is as long as
/// `leaves`.
pub open spec fn one_size_under_root(state: Registries, leaves: Seq<[u8; 32]>) -> bool {
    forall|k: int|
        0 <= k < state.trees.len() && merkle_root(#[trigger] state.trees[k]) == merkle_root(leaves)
            ==> state.trees[k].len() == leaves.len()
}

/// A request for a leaf of a list that is held is answered, for every
/// position in the list, where no list of another size is registered under
/// the same root; and what is answered verifies against that root.
pub proof fn lemma_held_list_is_answered(state: Registries, leaves: Seq<[u8; 32]>, index: u64)
    requires
        state.holds_tree(leaves),
        index < leaves.len() <= u64::MAX,
        one_size_under_root(state, leaves),
    ensures
        leaf_proof_answer(
            state,
            leaf_proof_request(merkle_root(leaves), leaves.len() as u64, index),
        ).0.is_ok(),
        find_tree(state.trees, merkle_root(leaves)@) matches Some(found) && proof_verifies(
            merkle_root(leaves),
            leaves.len(),
            index as nat,
            found[index as int],
            merkle_proof(found, index as int),
        ),
{
    let root = merkle_root(leaves);
    let size = leaves.len() as u64;
    let body = leaf_proof_request(root, size, index);
    varint::lemma_encoding_len(size);
    varint::lemma_encoding_len(index);
    assert(body.take(32) =~= root@);
    assert(body.skip(32) =~= varint::encoding(size) + varint::encoding(index));
    varint::lemma_decode_encode(size, varint::encoding(index));
    let used = varint::encoding(size).len() as int;
    assert(body.skip(32).skip(used) =~= varint::encoding(index) + Seq::<u8>::empty());
    varint::lemma_decode_encode(index, Seq::empty());
    let at = choose|k: int| 0 <= k < state.trees.len() && #[trigger] state.trees[k] == leaves;
    lemma_find_tree_some(state.trees, root@, at);
    let first = choose|first: int|
        0 <= first <= at && merkle_root(#[trigger] state.trees[first])@ == root@ && find_tree(
            state.trees,
            root@,
        ) == Some(state.trees[first]);
    assert(merkle_root(state.trees[first]) =~= root);
    lemma_proof_verifies(state.trees[first], index as int);
}

/// A request for a preimage that is held is answered.
pub proof fn lemma_held_preimage_is_answered(state: Registries, bytes: Seq<u8>)
    requires
        state.consistent(),
        state.holds_preimage(bytes),
    ensures
        preimage_answer(state, seq![0u8] + digest(bytes)@).0.is_ok(),
{
    let body = seq![0u8] + digest(bytes)@;
    assert(body.skip(1) =~= digest(bytes)@);
    lemma_held_preimage_is_found(state, bytes);
}

/// Registering keeps the registries consistent.
pub proof fn lemma_registering_is_consistent(state: Registries)
    requires
        state.consistent(),
    ensures
        forall|bytes: Seq<u8>| #[trigger] state.with_preimage(bytes).consistent(),
        forall|elements: Seq<Seq<u8>>| #[trigger] state.with_list(elements).consistent(),
        forall|pairs: Seq<(Seq<u8>, Seq<u8>)>| #[trigger] state.with_mapping(pairs).consistent(),
{
    assert forall|elements: Seq<Seq<u8>>| #[trigger] state.with_list(elements).consistent() by {
        lemma_with_list_is_consistent(state, elements);
    }
    assert forall|pairs: Seq<(Seq<u8>, Seq<u8>)>| #[trigger]
        state.with_mapping(pairs).consistent() by {
        let sorted = sort_by_key(pairs);
        lemma_with_list_is_consistent(state, keys_of(sorted));
        lemma_with_list_is_consistent(state.with_list(keys_of(sorted)), values_of(sorted));
    }
}

/// Registering a list keeps the registries consistent.
proof fn lemma_with_list_is_consistent(state: Registries, elements: Seq<Seq<u8>>)
    requires
        state.consistent(),
    ensures
        state.with_list(elements).consistent(),
{
    let after = state.with_list(elements);
    assert forall|i: int| 0 <= i < after.preimages.len() implies (#[trigger] after.preimages[i]).0
        == digest(after.preimages[i].1) by {
        if i < state.preimages.len() {
            assert(after.preimages[i] == state.preimages[i]);
        } else {
            assert(after.preimages[i] == list_preimages(elements)[i - state.preimages.len()]);
        }
    }
}

/// Registering mappings one after the other keeps what was held, holds
/// every one of them, and keeps the registries consistent.
pub proof fn lemma_with_mappings(state: Registries, groups: Seq<Seq<(Seq<u8>, Seq<u8>)>>)
    ensures
        state.with_mappings(groups).extends(state),
        forall|i: int|
            0 <= i < groups.len() ==> state.with_mappings(groups).holds_mapping(#[trigger] groups[i]),
        state.consistent() ==> state.with_mappings(groups).consistent(),
    decreases groups.len(),
{
    if groups.len() > 0 {
        let before = state.with_mappings(groups.drop_last());
        let after = state.with_mappings(groups);
        lemma_with_mappings(state, groups.drop_last());
        lemma_with_mapping(before, groups.last());
        lemma_extends_transitive(after, before, state);
        lemma_extends_keeps(after, before);
        if state.consistent() {
            lemma_registering_is_consistent(before);
        }
        assert forall|i: int| 0 <= i < groups.len() implies after.holds_mapping(
            #[trigger] groups[i],
        ) by {
            if i < groups.len() - 1 {
                assert(groups.drop_last()[i] == groups[i]);
            }
        }
    }
}

/// Whether no list of another size is registered under the root of the
/// list `commitments`, nor under the root of the keys or of the values of
/// the mapping `pairs`.
pub open spec fn roots_have_one_size(
    state: Registries,
    commitments: Seq<Seq<u8>>,
    pairs: Seq<(Seq<u8>, Seq<u8>)>,
) -> bool {
    &&& one_size_under_root(state, list_leaves(commitments))
    &&& one_size_under_root(state, list_leaves(keys_of(sort_by_key(pairs))))
    &&& one_size_under_root(state, list_leaves(values_of(sort_by_key(pairs))))
}

/// Whether the device is answered at both levels: when it asks for the leaf
/// at `index` of the list `commitments`, which is the hash of the
/// commitment to `pairs`; for the commitment behind that leaf; and for the
/// leaf at `position` of the keys and of the values of `pairs`.
pub open spec fn two_levels_answered(
    state: Registries,
    commitments: Seq<Seq<u8>>,
    pairs: Seq<(Seq<u8>, Seq<u8>)>,
    index: u64,
    position: u64,
) -> bool {
    let sorted = sort_by_key(pairs);
    &&& leaf_proof_answer(
        state,
        leaf_proof_request(list_root(commitments), commitments.len() as u64, index),
    ).0.is_ok()
    &&& list_leaves(commitments)[index as int] == element_hash(mapping_commitment(pairs))
    &&& preimage_answer(state, seq![0u8] + element_hash(mapping_commitment(pairs))@).0.is_ok()
    &&& leaf_proof_answer(
        state,
        leaf_proof_request(list_root(keys_of(sorted)), pairs.len() as u64, position),
    ).0.is_ok()
    &&& leaf_proof_answer(
        state,
        leaf_proof_request(list_root(values_of(sorted)), pairs.len() as u64, position),
    ).0.is_ok()
}

/// A field of a transaction is reached in two steps. Where the list
/// `commitments` is held, its entry at `index` is the commitment to the
/// mapping `pairs`, and that mapping is held, the device is answered at
/// both levels. This needs that no list of another size is registered
/// under one of the three roots.
pub proof fn lemma_two_levels_are_answered(
    state: Registries,
    commitments: Seq<Seq<u8>>,
    pairs: Seq<(Seq<u8>, Seq<u8>)>,
    index: u64,
    position: u64,
)
    requires
        state.consistent(),
        state.holds_list(commitments),
        state.holds_mapping(pairs),
        index < commitments.len() <= u64::MAX,
        position < pairs.len() <= u64::MAX,
        commitments[index as int] == mapping_commitment(pairs),
        roots_have_one_size(state, commitments, pairs),
    ensures
        two_levels_answered(state, commitments, pairs, index, position),
{
    let sorted = sort_by_key(pairs);
    crate::mapping::lemma_sort_by_key(pairs);
    lemma_held_list_is_answered(state, list_leaves(commitments), index);
    lemma_held_list_is_answered(state, list_leaves(keys_of(sorted)), position);
    lemma_held_list_is_answered(state, list_leaves(values_of(sorted)), position);
    assert(state.holds_preimage(element_preimage(commitments[index as int])));
    lemma_held_preimage_is_answered(state, element_preimage(mapping_commitment(pairs)));
}

/// Answers the device's requests from what was registered.
pub struct ClientCommandInterpreter {
    yielded: Vec<Vec<u8>>,
    queue: Vec<Vec<u8>>,
    known_preimages: Vec<([u8; 32], Vec<u8>)>,
    trees: Vec<MerkleTree>,
}

impl View for ClientCommandInterpreter {
    type V = Registries;

    closed spec fn view(&self) -> Registries {
        Registries {
            preimages: self.known_preimages@.map_values(
                |entry: ([u8; 32], Vec<u8>)| (entry.0, entry.1@),
            ),
            trees: self.trees@.map_values(|tree: MerkleTree| tree@),
            queue: views(self.queue@),
            yielded: views(self.yielded@),
        }
    }
}

impl ClientCommandInterpreter {
    #[verifier::type_invariant]
    spec fn sound(self) -> bool {
        &&& forall|i: int|
            0 <= i < self.known_preimages@.len() ==> (#[trigger] self.known_preimages@[i]).0
                == digest(self.known_preimages@[i].1@)
        &&& forall|j: int|
            0 <= j < self.queue@.len() ==> 1 <= (#[trigger] self.queue@[j])@.len() <= 32
    }

    /// What the type holds of its fields, said of its view.
    proof fn lemma_consistent(self)
        requires
            self.sound(),
        ensures
            self@.consistent(),
    {
        assert forall|i: int| 0 <= i < self@.preimages.len() implies (
        #[trigger] self@.preimages[i]).0 == digest(self@.preimages[i].1) by {
            assert(self@.preimages[i] == (self.known_preimages@[i].0, self.known_preimages@[i].1@));
        }
        assert forall|j: int| 0 <= j < self@.queue.len() implies 1 <= (
        #[trigger] self@.queue[j]).len() <= 32 by {
            assert(self@.queue[j] == self.queue@[j]@);
        }
    }

    /// An interpreter with nothing registered.
    pub fn new() -> (interpreter: ClientCommandInterpreter)
        ensures
            interpreter@ == Registries::empty(),
    {
        let interpreter = ClientCommandInterpreter {
            yielded: Vec::new(),
            queue: Vec::new(),
            known_preimages: Vec::new(),
            trees: Vec::new(),
        };
        assert(interpreter@.preimages =~= Seq::empty());
        assert(interpreter@.trees =~= Seq::empty());
        assert(interpreter@.queue =~= Seq::empty());
        assert(interpreter@.yielded =~= Seq::empty());
        interpreter
    }

    /// Adds an entry to the registry of preimages.
    fn push_preimage(&mut self, hash: [u8; 32], preimage: Vec<u8>)
        requires
            hash == digest(preimage@),
        ensures
            final(self)@.preimages == old(self)@.preimages.push((hash, preimage@)),
            final(self)@.trees == old(self)@.trees,
            final(self)@.queue == old(self)@.queue,
            final(self)@.yielded == old(self)@.yielded,
    {
        proof {
            use_type_invariant(&*self);
            self.lemma_consistent();
        }
        let ghost entry = (hash, preimage@);
        let mut list: Vec<([u8; 32], Vec<u8>)> = Vec::new();
        core::mem::swap(&mut self.known_preimages, &mut list);
        list.push((hash, preimage));
        core::mem::swap(&mut self.known_preimages, &mut list);
        assert(self@.preimages =~= old(self)@.preimages.push(entry));
    }

    /// Adds a tree to the registry of lists.
    fn push_tree(&mut self, tree: MerkleTree)
        ensures
            final(self)@.preimages == old(self)@.preimages,
            final(self)@.trees == old(self)@.trees.push(tree@),
            final(self)@.queue == old(self)@.queue,
            final(self)@.yielded == old(self)@.yielded,
    {
        proof {
            use_type_invariant(&*self);
            self.lemma_consistent();
        }
        let ghost leaves = tree@;
        let mut list: Vec<MerkleTree> = Vec::new();
        core::mem::swap(&mut self.trees, &mut list);
        list.push(tree);
        core::mem::swap(&mut self.trees, &mut list);
        assert(self@.trees =~= old(self)@.trees.push(leaves));
    }

    /// Adds an element to the end of the queue.
    fn push_queue(&mut self, element: Vec<u8>)
        requires
            1 <= element@.len() <= 32,
        ensures
            final(self)@.preimages == old(self)@.preimages,
            final(self)@.trees == old(self)@.trees,
            final(self)@.queue == old(self)@.queue.push(element@),
            final(self)@.yielded == old(self)@.yielded,
    {
        proof {
            use_type_invariant(&*self);
            self.lemma_consistent();
        }
        let ghost bytes = element@;
        let mut list: Vec<Vec<u8>> = Vec::new();
        core::mem::swap(&mut self.queue, &mut list);
        list.push(element);
        core::mem::swap(&mut self.queue, &mut list);
        assert(self@.queue =~= old(self)@.queue.push(bytes));
    }

    /// Takes the first `count` elements off the queue.
    fn drop_queue_front(&mut self, count: usize)
        requires
            count <= old(self)@.queue.len(),
        ensures
            final(self)@.preimages == old(self)@.preimages,
            final(self)@.trees == old(self)@.trees,
            final(self)@.queue == old(self)@.queue.skip(count as int),
            final(self)@.yielded == old(self)@.yielded,
    {
        proof {
            use_type_invariant(&*self);
            self.lemma_consistent();
        }
        let mut list: Vec<Vec<u8>> = Vec::new();
        core::mem::swap(&mut self.queue, &mut list);
        let mut rest = list.split_off(count);
        core::mem::swap(&mut self.queue, &mut rest);
        assert(self@.queue =~= old(self)@.queue.skip(count as int));
    }

    /// Adds a fragment to those handed over.
    fn push_yielded(&mut self, fragment: Vec<u8>)
        ensures
            final(self)@.preimages == old(self)@.preimages,
            final(self)@.trees == old(self)@.trees,
            final(self)@.queue == old(self)@.queue,
            final(self)@.yielded == old(self)@.yielded.push(fragment@),
    {
        proof {
            use_type_invariant(&*self);
            self.lemma_consistent();
        }
        let ghost bytes = fragment@;
        let mut list: Vec<Vec<u8>> = Vec::new();
        core::mem::swap(&mut self.yielded, &mut list);
        list.push(fragment);
        core::mem::swap(&mut self.yielded, &mut list);
        assert(self@.yielded =~= old(self)@.yielded.push(bytes));
    }

    /// Registers `element` under its hash, and gives the hash.
    pub fn add_known_preimage(&mut self, element: Vec<u8>) -> (hash: [u8; 32])
        ensures
            final(self)@ == old(self)@.with_preimage(element@),
            final(self)@.consistent(),
            hash == digest(element@),
    {
        let hash = digest_of(element.as_slice());
        self.push_preimage(hash, element);
        proof {
            use_type_invariant(&*self);
            self.lemma_consistent();
        }
        hash
    }

    /// Registers the list `elements`: its tree under the root, and each
    /// element, behind a zero byte, as a preimage. Gives the root.
    pub fn add_known_list(&mut self, elements: &[Vec<u8>]) -> (root: [u8; 32])
        ensures
            final(self)@ == old(self)@.with_list(views(elements@)),
            final(self)@.consistent(),
            root == list_root(views(elements@)),
    {
        let ghost start = self@;
        let ghost all = views(elements@);
        let mut leaves: Vec<[u8; 32]> = Vec::new();
        let mut i: usize = 0;
        proof {
            assert(self@.preimages =~= start.preimages + list_preimages(all.take(0)));
        }
        while i < elements.len()
            invariant
                i <= elements.len(),
                all == views(elements@),
                leaves@ == list_leaves(all.take(i as int)),
                self@.preimages == start.preimages + list_preimages(all.take(i as int)),
                self@.trees == start.trees,
                self@.queue == start.queue,
                self@.yielded == start.yielded,
            decreases elements.len() - i,
        {
            let preimage = prefixed_element(elements[i].as_slice());
            let hash = digest_of(preimage.as_slice());
            self.push_preimage(hash, preimage);
            leaves.push(hash);
            proof {
                assert(all.take(i + 1) =~= all.take(i as int).push(all[i as int]));
                assert(self@.preimages =~= start.preimages + list_preimages(all.take(i + 1)));
                assert(leaves@ =~= list_leaves(all.take(i + 1)));
            }
            i += 1;
        }
        assert(all.take(i as int) =~= all);
        let tree = MerkleTree::new(leaves);
        let root = *tree.root_hash();
        self.push_tree(tree);
        proof {
            use_type_invariant(&*self);
            self.lemma_consistent();
        }
        root
    }

    /// Registers the mapping `mapping`: the list of its keys and the list of
    /// its values, both in the order of the keys. Gives the commitment.
    pub fn add_known_mapping(&mut self, mapping: &[(Vec<u8>, Vec<u8>)]) -> (commitment: Vec<u8>)
        ensures
            final(self)@ == old(self)@.with_mapping(pair_views(mapping@)),
            final(self)@.consistent(),
            commitment@ == mapping_commitment(pair_views(mapping@)),
    {
        let (keys, values) = sorted_lists(mapping);
        let key_root = self.add_known_list(keys.as_slice());
        let value_root = self.add_known_list(values.as_slice());
        let mut commitment = varint::encode(mapping.len() as u64);
        commitment.extend_from_slice(key_root.as_slice());
        commitment.extend_from_slice(value_root.as_slice());
        assert(commitment@ =~= mapping_commitment(pair_views(mapping@)));
        proof {
            use_type_invariant(&*self);
            self.lemma_consistent();
        }
        commitment
    }

    /// Where the first preimage under `hash` stands.
    fn preimage_position(&self, hash: &[u8]) -> (found: Option<usize>)
        ensures
            match found {
                Some(at) => at < self@.preimages.len() && find_preimage(self@.preimages, hash@)
                    == Some(self@.preimages[at as int].1),
                None => find_preimage(self@.preimages, hash@).is_none(),
            },
    {
        let ghost all = self@.preimages;
        let mut i: usize = 0;
        assert(all.skip(0) =~= all);
        while i < self.known_preimages.len()
            invariant
                i <= self.known_preimages@.len(),
                all == self@.preimages,
                all.len() == self.known_preimages@.len(),
                find_preimage(all, hash@) == find_preimage(all.skip(i as int), hash@),
            decreases self.known_preimages.len() - i,
        {
            assert(all.skip(i as int)[0] == all[i as int]);
            assert(all.skip(i as int).drop_first() =~= all.skip(i + 1));
            if bytes_eq(self.known_preimages[i].0.as_slice(), hash) {
                return Some(i);
            }
            i += 1;
        }
        assert(all.skip(i as int).len() == 0);
        None
    }

    /// Where the first list with the root `root` stands.
    fn tree_position(&self, root: &[u8]) -> (found: Option<usize>)
        ensures
            match found {
                Some(at) => at < self@.trees.len() && find_tree(self@.trees, root@) == Some(
                    self@.trees[at as int],
                ),
                None => find_tree(self@.trees, root@).is_none(),
            },
    {
        let ghost all = self@.trees;
        let mut i: usize = 0;
        assert(all.skip(0) =~= all);
        while i < self.trees.len()
            invariant
                i <= self.trees@.len(),
                all == self@.trees,
                all.len() == self.trees@.len(),
                find_tree(all, root@) == find_tree(all.skip(i as int), root@),
            decreases self.trees.len() - i,
        {
            assert(all.skip(i as int)[0] == all[i as int]);
            assert(all.skip(i as int).drop_first() =~= all.skip(i + 1));
            if bytes_eq(self.trees[i].root_hash().as_slice(), root) {
                return Some(i);
            }
            i += 1;
        }
        assert(all.skip(i as int).len() == 0);
        None
    }

    /// Answers a request for a preimage.
    fn get_preimage(&mut self, body: &[u8]) -> (reply: Result<Vec<u8>, InterpreterError>)
        ensures
            (answer_view(reply), final(self)@) == preimage_answer(old(self)@, body@),
            final(self)@.consistent(),
    {
        proof {
            use_type_invariant(&*self);
            self.lemma_consistent();
        }
        if body.len() != 33 || body[0] != 0 {
            return Err(InterpreterError::UnsupportedRequest);
        }
        let hash = slice_subrange(body, 1, 33);
        assert(hash@ =~= body@.skip(1));
        let at = match self.preimage_position(hash) {
            Some(at) => at,
            None => {
                return Err(InterpreterError::UnknownHash);
            },
        };
        let ghost start = self@;
        let ghost preimage = start.preimages[at as int].1;
        assert(self@.preimages[at as int].1 == self.known_preimages@[at as int].1@);
        let length = self.known_preimages[at].1.len();
        let mut reply = varint::encode(length as u64);
        proof {
            varint::lemma_encoding_len(length as u64);
        }
        let ghost prefix = reply@;
        let room = PREIMAGE_ROOM - reply.len();
        let sent = if length <= room {
            length
        } else {
            room
        };
        reply.push(sent as u8);
        let mut k: usize = 0;
        while k < sent
            invariant
                k <= sent <= length,
                sent <= 254,
                at < start.preimages.len(),
                start.preimages[at as int].1 == preimage,
                length == preimage.len(),
                reply@ == prefix + seq![sent as u8] + preimage.take(k as int),
                self@ == start,
            decreases sent - k,
        {
            assert(self@.preimages[at as int].1 == self.known_preimages@[at as int].1@);
            reply.push(self.known_preimages[at].1[k]);
            assert(preimage.take(k + 1) =~= preimage.take(k as int).push(preimage[k as int]));
            assert(reply@ =~= prefix + seq![sent as u8] + preimage.take(k + 1));
            k += 1;
        }
        let ghost waiting = singles(preimage.skip(sent as int));
        assert(self@.queue =~= start.queue + waiting.take(0));
        while k < length
            invariant
                sent <= k <= length,
                at < start.preimages.len(),
                start.preimages[at as int].1 == preimage,
                length == preimage.len(),
                waiting == singles(preimage.skip(sent as int)),
                self@.preimages == start.preimages,
                self@.trees == start.trees,
                self@.yielded == start.yielded,
                self@.queue == start.queue + waiting.take(k - sent),
            decreases length - k,
        {
            assert(self@.preimages[at as int].1 == self.known_preimages@[at as int].1@);
            let mut single: Vec<u8> = Vec::new();
            single.push(self.known_preimages[at].1[k]);
            let ghost bytes = single@;
            self.push_queue(single);
            proof {
                assert(bytes =~= waiting[k - sent]);
                assert(waiting.take(k - sent + 1) =~= waiting.take(k - sent).push(
                    waiting[k - sent],
                ));
                assert(self@.queue =~= start.queue + waiting.take(k - sent + 1));
            }
            k += 1;
        }
        assert(waiting.take(length - sent) =~= waiting);
        proof {
            use_type_invariant(&*self);
            self.lemma_consistent();
        }
        Ok(reply)
    }

    /// Answers a request for a leaf and its proof.
    fn get_merkle_leaf_proof(&mut self, body: &[u8]) -> (reply: Result<Vec<u8>, InterpreterError>)
        ensures
            (answer_view(reply), final(self)@) == leaf_proof_answer(old(self)@, body@),
            final(self)@.consistent(),
    {
        proof {
            use_type_invariant(&*self);
            self.lemma_consistent();
        }
        if body.len() < 34 {
            return Err(InterpreterError::UnsupportedRequest);
        }
        let root = slice_subrange(body, 0, 32);
        assert(root@ =~= body@.take(32));
        let after_root = varint::tail(body, 32);
        let (size, used) = match varint::decode(after_root) {
            Some(read) => read,
            None => {
                return Err(InterpreterError::UnsupportedRequest);
            },
        };
        let (index, _) = match varint::decode(varint::tail(after_root, used)) {
            Some(read) => read,
            None => {
                return Err(InterpreterError::UnsupportedRequest);
            },
        };
        let at = match self.tree_position(root) {
            Some(at) => at,
            None => {
                return Err(InterpreterError::UnknownHash);
            },
        };
        let ghost start = self@;
        let ghost leaves = start.trees[at as int];
        assert(leaves == self.trees@[at as int]@);
        if size != self.trees[at].size() as u64 {
            return Err(InterpreterError::UnsupportedRequest);
        }
        if index >= size {
            return Err(InterpreterError::IndexOutOfRange);
        }
        let position = index as usize;
        let path = match self.trees[at].get_leaf_proof(position) {
            Some(path) => path,
            None => {
                return Err(InterpreterError::UnsupportedRequest);
            },
        };
        let leaf = match self.trees[at].get_leaf(position) {
            Some(leaf) => *leaf,
            None => {
                return Err(InterpreterError::UnsupportedRequest);
            },
        };
        proof {
            lemma_proof_len(leaves, position as int);
        }
        let shown = if path.len() <= FIRST_PROOF_HASHES {
            path.len()
        } else {
            FIRST_PROOF_HASHES
        };
        let mut reply = clone_bytes(leaf.as_slice());
        reply.push(path.len() as u8);
        reply.push(shown as u8);
        let ghost head = reply@;
        let mut k: usize = 0;
        assert(head =~= leaves[position as int]@ + seq![path@.len() as u8, shown as u8]);
        assert(reply@ =~= head + concat(hash_views(path@.take(0))));
        while k < shown
            invariant
                k <= shown <= path@.len(),
                reply@ == head + concat(hash_views(path@.take(k as int))),
                self@ == start,
            decreases shown - k,
        {
            append(&mut reply, path[k].as_slice());
            proof {
                let next = hash_views(path@.take(k + 1));
                assert(next.drop_last() =~= hash_views(path@.take(k as int)));
                assert(next.last() == path@[k as int]@);
            }
            k += 1;
        }
        let ghost waiting = hash_views(path@.skip(shown as int));
        assert(self@.queue =~= start.queue + waiting.take(0));
        while k < path.len()
            invariant
                shown <= k <= path@.len(),
                waiting == hash_views(path@.skip(shown as int)),
                self@.preimages == start.preimages,
                self@.trees == start.trees,
                self@.yielded == start.yielded,
                self@.queue == start.queue + waiting.take(k - shown),
            decreases path@.len() - k,
        {
            let hash = clone_bytes(path[k].as_slice());
            let ghost bytes = hash@;
            self.push_queue(hash);
            proof {
                assert(bytes == waiting[k - shown]);
                assert(waiting.take(k - shown + 1) =~= waiting.take(k - shown).push(
                    waiting[k - shown],
                ));
                assert(self@.queue =~= start.queue + waiting.take(k - shown + 1));
            }
            k += 1;
        }
        assert(waiting.take(path@.len() - shown) =~= waiting);
        proof {
            use_type_invariant(&*self);
            self.lemma_consistent();
            assert(self@ == Registries { queue: start.queue + waiting, ..start });
        }
        Ok(reply)
    }

    /// Answers a request for the position of a leaf.
    fn get_merkle_leaf_index(&self, body: &[u8]) -> (reply: Result<Vec<u8>, InterpreterError>)
        ensures
            (answer_view(reply), self@) == leaf_index_answer(self@, body@),
    {
        if body.len() != 64 {
            return Err(InterpreterError::UnsupportedRequest);
        }
        let root = slice_subrange(body, 0, 32);
        assert(root@ =~= body@.take(32));
        let hash = varint::tail(body, 32);
        let at = match self.tree_position(root) {
            Some(at) => at,
            None => {
                return Err(InterpreterError::UnknownHash);
            },
        };
        let mut reply: Vec<u8> = Vec::new();
        match self.trees[at].get_leaf_index(hash) {
            Some(index) => {
                reply.push(1u8);
                varint::push(&mut reply, index as u64);
                assert(reply@ =~= seq![1u8] + varint::encoding(index as u64));
            },
            None => {
                reply.push(0u8);
                varint::push(&mut reply, 0);
                assert(reply@ =~= seq![0u8] + varint::encoding(0));
            },
        }
        Ok(reply)
    }

    /// Answers a request for more elements.
    fn get_more_elements(&mut self, body: &[u8]) -> (reply: Result<Vec<u8>, InterpreterError>)
        ensures
            (answer_view(reply), final(self)@) == more_elements_answer(old(self)@, body@),
            final(self)@.consistent(),
    {
        proof {
            use_type_invariant(&*self);
            self.lemma_consistent();
        }
        if body.len() != 0 {
            return Err(InterpreterError::UnsupportedRequest);
        }
        if self.queue.len() == 0 {
            return Err(InterpreterError::UnexpectedQueue);
        }
        let ghost start = self@;
        assert(start.queue[0] == self.queue@[0]@);
        let width = self.queue[0].len();
        let mut j: usize = 0;
        while j < self.queue.len()
            invariant
                j <= self.queue@.len(),
                self@ == start,
                start == old(self)@,
                body@.len() == 0,
                start.consistent(),
                self.queue@.len() > 0,
                start.queue.len() == self.queue@.len(),
                width == start.queue[0].len(),
                forall|k: int| 0 <= k < j ==> (#[trigger] start.queue[k]).len() == width,
            decreases self.queue.len() - j,
        {
            assert(start.queue[j as int] == self.queue@[j as int]@);
            if self.queue[j].len() != width {
                assert(start.queue[j as int].len() != start.queue[0].len());
                return Err(InterpreterError::UnexpectedQueue);
            }
            j += 1;
        }
        assert(one_width(start.queue));
        assert(1 <= start.queue[0].len() <= 32);
        let room = MORE_ELEMENTS_ROOM / width;
        assert(room == MORE_ELEMENTS_ROOM as int / width as int);
        assert(room <= 253) by (nonlinear_arith)
            requires
                room == 253int / width as int,
                width >= 1,
        ;
        let count = if self.queue.len() <= room {
            self.queue.len()
        } else {
            room
        };
        let mut reply: Vec<u8> = Vec::new();
        reply.push(count as u8);
        reply.push(width as u8);
        let ghost head = reply@;
        let mut k: usize = 0;
        assert(head =~= seq![count as u8, width as u8]);
        assert(reply@ =~= head + concat(start.queue.take(0)));
        while k < count
            invariant
                k <= count <= self.queue@.len(),
                start.queue.len() == self.queue@.len(),
                self@ == start,
                reply@ == head + concat(start.queue.take(k as int)),
            decreases count - k,
        {
            append(&mut reply, self.queue[k].as_slice());
            proof {
                let next = start.queue.take(k + 1);
                assert(next.drop_last() =~= start.queue.take(k as int));
                assert(start.queue[k as int] == self.queue@[k as int]@);
                assert(next.last() == self.queue@[k as int]@);
            }
            k += 1;
        }
        self.drop_queue_front(count);
        proof {
            use_type_invariant(&*self);
            self.lemma_consistent();
            assert(self@ == Registries { queue: start.queue.skip(count as int), ..start });
        }
        Ok(reply)
    }

    /// Answers the request `command` of the device, and keeps what the
    /// answer leaves behind: a fragment handed over, or the part of an
    /// answer that did not fit.
    pub fn execute(&mut self, command: Vec<u8>) -> (reply: Result<Vec<u8>, InterpreterError>)
        ensures
            (answer_view(reply), final(self)@) == answer(old(self)@, command@),
            final(self)@.consistent(),
    {
        proof {
            use_type_invariant(&*self);
            self.lemma_consistent();
        }
        if command.len() == 0 {
            return Err(InterpreterError::EmptyInput);
        }
        let tag = command[0];
        let body = varint::tail(command.as_slice(), 1);
        if tag == CLIENT_YIELD {
            let fragment = clone_bytes(body);
            self.push_yielded(fragment);
            proof {
                use_type_invariant(&*self);
            }
            Ok(Vec::new())
        } else if tag == CLIENT_GET_PREIMAGE {
            self.get_preimage(body)
        } else if tag == CLIENT_GET_MERKLE_LEAF_PROOF {
            self.get_merkle_leaf_proof(body)
        } else if tag == CLIENT_GET_MERKLE_LEAF_INDEX {
            self.get_merkle_leaf_index(body)
        } else if tag == CLIENT_GET_MORE_ELEMENTS {
            self.get_more_elements(body)
        } else {
            Err(InterpreterError::UnknownCommand(tag))
        }
    }

    /// Ends the interpreter's work and gives the fragments that the device
    /// handed over, in the order in which they came.
    pub fn yielded(self) -> (fragments: Vec<Vec<u8>>)
        ensures
            views(fragments@) == self@.yielded,
    {
        self.yielded
    }
}

} // verus!
