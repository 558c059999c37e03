//! SHA-256 and the two domain-separated hashes of the commitment trees.

use vstd::array::spec_array_fill_for_copy_type;
use vstd::prelude::*;

verus! {

/// The length from which on data has no SHA-256 digest: 2^61 bytes, which
/// are 2^64 bits.
pub const SHA256_LIMIT: u64 = 0x2000_0000_0000_0000;

/// The SHA-256 digest of `data`, for data below `SHA256_LIMIT`.
pub uninterp spec fn sha256(data: Seq<u8>) -> [u8; 32];

/// Computes SHA-256 with `bitcoin::hashes::sha256::Hash::hash` and unwraps the
/// digest with `into_inner`. The contract only names the digest: it is a
/// function of the input bytes and of nothing else. Data from 2^61 bytes on
/// is left out: the outside function multiplies the length by eight in 64
/// bits.
#[verifier::external_body]
pub(crate) fn sha256_digest(data: &[u8]) -> (hash: [u8; 32])
    requires
        data@.len() < SHA256_LIMIT,
    ensures
        hash == sha256(data@),
{
    let hash = <bitcoin::hashes::sha256::Hash as bitcoin::hashes::Hash>::hash(data);
    bitcoin::hashes::Hash::into_inner(hash)
}

/// The digest under which data is registered and committed to: its SHA-256
/// digest, and 32 zero bytes for data that is too long to have one.
pub open spec fn digest(data: Seq<u8>) -> [u8; 32] {
    if data.len() < SHA256_LIMIT {
        sha256(data)
    } else {
        spec_array_fill_for_copy_type::<u8, 32>(0u8)
    }
}

/// Computes the digest of `data`.
pub fn digest_of(data: &[u8]) -> (hash: [u8; 32])
    ensures
        hash == digest(data@),
{
    if (data.len() as u64) < SHA256_LIMIT {
        sha256_digest(data)
    } else {
        [0u8; 32]
    }
}

/// The bytes that are hashed for a list element: a zero byte, then the element.
pub open spec fn element_preimage(element: Seq<u8>) -> Seq<u8> {
    seq![0u8] + element
}

/// The hash under which a list element enters a commitment tree as a leaf.
pub open spec fn element_hash(element: Seq<u8>) -> [u8; 32] {
    digest(element_preimage(element))
}

/// The bytes that are hashed for an inner node: a one byte, then both children.
pub open spec fn node_preimage(left: [u8; 32], right: [u8; 32]) -> Seq<u8> {
    seq![1u8] + left@ + right@
}

/// The hash of an inner node of a commitment tree.
pub open spec fn node_hash(left: [u8; 32], right: [u8; 32]) -> [u8; 32] {
    sha256(node_preimage(left, right))
}

/// Builds the preimage of a list element.
pub fn prefixed_element(element: &[u8]) -> (preimage: Vec<u8>)
    ensures
        preimage@ == element_preimage(element@),
{
    let mut preimage: Vec<u8> = Vec::new();
    preimage.push(0u8);
    preimage.extend_from_slice(element);
    assert(preimage@ =~= element_preimage(element@));
    preimage
}

/// Hashes a list element into its leaf.
pub fn hash_element(element: &[u8]) -> (leaf: [u8; 32])
    ensures
        leaf == element_hash(element@),
{
    let preimage = prefixed_element(element);
    digest_of(preimage.as_slice())
}

/// Hashes two children into their parent.
pub fn hash_node(left: &[u8; 32], right: &[u8; 32]) -> (parent: [u8; 32])
    ensures
        parent == node_hash(*left, *right),
{
    let mut preimage: Vec<u8> = Vec::new();
    preimage.push(1u8);
    preimage.extend_from_slice(left.as_slice());
    preimage.extend_from_slice(right.as_slice());
    assert(preimage@ =~= node_preimage(*left, *right));
    sha256_digest(preimage.as_slice())
}

} // verus!
